//! The catalog of four-character box type codes and their classification.

use vstd::prelude::*;

verus! {

/// A box type: one of the recognized four-character codes, or any other
/// code kept verbatim as `UnknownBox`.
#[derive(Clone, Copy, Debug, PartialEq, Eq, Structural)]
pub enum BoxType {
    FtypBox,
    MvhdBox,
    MfhdBox,
    FreeBox,
    MdatBox,
    MoovBox,
    MvexBox,
    MehdBox,
    TrexBox,
    EmsgBox,
    MoofBox,
    TkhdBox,
    TfhdBox,
    TfdtBox,
    EdtsBox,
    MdiaBox,
    ElstBox,
    MdhdBox,
    HdlrBox,
    MinfBox,
    VmhdBox,
    StblBox,
    StsdBox,
    SttsBox,
    CttsBox,
    StssBox,
    StscBox,
    StszBox,
    StcoBox,
    Co64Box,
    TrakBox,
    TrafBox,
    TrunBox,
    UdtaBox,
    MetaBox,
    DinfBox,
    DrefBox,
    UrlBox,
    SmhdBox,
    Avc1Box,
    AvcCBox,
    Hev1Box,
    HvcCBox,
    Mp4aBox,
    EsdsBox,
    Tx3gBox,
    VpccBox,
    Vp09Box,
    DataBox,
    IlstBox,
    NameBox,
    DayBox,
    CovrBox,
    DescBox,
    WideBox,
    ClefBox,
    ProfBox,
    EnofBox,
    CslgBox,
    SdtpBox,
    SgpdBox,
    SbgpBox,
    GminBox,
    NmhdBox,
    GnreBox,
    UnknownBox(u32),
}

/// The 32-bit big-endian code of a box type.
#[verifier::opaque]
pub open spec fn spec_code_of(t: BoxType) -> u32 {
    match t {
        BoxType::FtypBox => 0x66747970,
        BoxType::MvhdBox => 0x6d766864,
        BoxType::MfhdBox => 0x6d666864,
        BoxType::FreeBox => 0x66726565,
        BoxType::MdatBox => 0x6d646174,
        BoxType::MoovBox => 0x6d6f6f76,
        BoxType::MvexBox => 0x6d766578,
        BoxType::MehdBox => 0x6d656864,
        BoxType::TrexBox => 0x74726578,
        BoxType::EmsgBox => 0x656d7367,
        BoxType::MoofBox => 0x6d6f6f66,
        BoxType::TkhdBox => 0x746b6864,
        BoxType::TfhdBox => 0x74666864,
        BoxType::TfdtBox => 0x74666474,
        BoxType::EdtsBox => 0x65647473,
        BoxType::MdiaBox => 0x6d646961,
        BoxType::ElstBox => 0x656c7374,
        BoxType::MdhdBox => 0x6d646864,
        BoxType::HdlrBox => 0x68646c72,
        BoxType::MinfBox => 0x6d696e66,
        BoxType::VmhdBox => 0x766d6864,
        BoxType::StblBox => 0x7374626c,
        BoxType::StsdBox => 0x73747364,
        BoxType::SttsBox => 0x73747473,
        BoxType::CttsBox => 0x63747473,
        BoxType::StssBox => 0x73747373,
        BoxType::StscBox => 0x73747363,
        BoxType::StszBox => 0x7374737A,
        BoxType::StcoBox => 0x7374636F,
        BoxType::Co64Box => 0x636F3634,
        BoxType::TrakBox => 0x7472616b,
        BoxType::TrafBox => 0x74726166,
        BoxType::TrunBox => 0x7472756E,
        BoxType::UdtaBox => 0x75647461,
        BoxType::MetaBox => 0x6d657461,
        BoxType::DinfBox => 0x64696e66,
        BoxType::DrefBox => 0x64726566,
        BoxType::UrlBox => 0x75726C20,
        BoxType::SmhdBox => 0x736d6864,
        BoxType::Avc1Box => 0x61766331,
        BoxType::AvcCBox => 0x61766343,
        BoxType::Hev1Box => 0x68657631,
        BoxType::HvcCBox => 0x68766343,
        BoxType::Mp4aBox => 0x6d703461,
        BoxType::EsdsBox => 0x65736473,
        BoxType::Tx3gBox => 0x74783367,
        BoxType::VpccBox => 0x76706343,
        BoxType::Vp09Box => 0x76703039,
        BoxType::DataBox => 0x64617461,
        BoxType::IlstBox => 0x696c7374,
        BoxType::NameBox => 0xa96e616d,
        BoxType::DayBox => 0xa9646179,
        BoxType::CovrBox => 0x636f7672,
        BoxType::DescBox => 0x64657363,
        BoxType::WideBox => 0x77696465,
        BoxType::ClefBox => 0x636c6566,
        BoxType::ProfBox => 0x70726f66,
        BoxType::EnofBox => 0x656e6f66,
        BoxType::CslgBox => 0x63736c67,
        BoxType::SdtpBox => 0x73647470,
        BoxType::SgpdBox => 0x73677064,
        BoxType::SbgpBox => 0x73626770,
        BoxType::GminBox => 0x676d696e,
        BoxType::NmhdBox => 0x6e6d6864,
        BoxType::GnreBox => 0x676e7265,
        BoxType::UnknownBox(c) => c,
    }
}

/// The box type a 32-bit code names.
#[verifier::opaque]
pub open spec fn spec_type_of(c: u32) -> BoxType {
    match c {
        0x66747970 => BoxType::FtypBox,
        0x6d766864 => BoxType::MvhdBox,
        0x6d666864 => BoxType::MfhdBox,
        0x66726565 => BoxType::FreeBox,
        0x6d646174 => BoxType::MdatBox,
        0x6d6f6f76 => BoxType::MoovBox,
        0x6d766578 => BoxType::MvexBox,
        0x6d656864 => BoxType::MehdBox,
        0x74726578 => BoxType::TrexBox,
        0x656d7367 => BoxType::EmsgBox,
        0x6d6f6f66 => BoxType::MoofBox,
        0x746b6864 => BoxType::TkhdBox,
        0x74666864 => BoxType::TfhdBox,
        0x74666474 => BoxType::TfdtBox,
        0x65647473 => BoxType::EdtsBox,
        0x6d646961 => BoxType::MdiaBox,
        0x656c7374 => BoxType::ElstBox,
        0x6d646864 => BoxType::MdhdBox,
        0x68646c72 => BoxType::HdlrBox,
        0x6d696e66 => BoxType::MinfBox,
        0x766d6864 => BoxType::VmhdBox,
        0x7374626c => BoxType::StblBox,
        0x73747364 => BoxType::StsdBox,
        0x73747473 => BoxType::SttsBox,
        0x63747473 => BoxType::CttsBox,
        0x73747373 => BoxType::StssBox,
        0x73747363 => BoxType::StscBox,
        0x7374737A => BoxType::StszBox,
        0x7374636F => BoxType::StcoBox,
        0x636F3634 => BoxType::Co64Box,
        0x7472616b => BoxType::TrakBox,
        0x74726166 => BoxType::TrafBox,
        0x7472756E => BoxType::TrunBox,
        0x75647461 => BoxType::UdtaBox,
        0x6d657461 => BoxType::MetaBox,
        0x64696e66 => BoxType::DinfBox,
        0x64726566 => BoxType::DrefBox,
        0x75726C20 => BoxType::UrlBox,
        0x736d6864 => BoxType::SmhdBox,
        0x61766331 => BoxType::Avc1Box,
        0x61766343 => BoxType::AvcCBox,
        0x68657631 => BoxType::Hev1Box,
        0x68766343 => BoxType::HvcCBox,
        0x6d703461 => BoxType::Mp4aBox,
        0x65736473 => BoxType::EsdsBox,
        0x74783367 => BoxType::Tx3gBox,
        0x76706343 => BoxType::VpccBox,
        0x76703039 => BoxType::Vp09Box,
        0x64617461 => BoxType::DataBox,
        0x696c7374 => BoxType::IlstBox,
        0xa96e616d => BoxType::NameBox,
        0xa9646179 => BoxType::DayBox,
        0x636f7672 => BoxType::CovrBox,
        0x64657363 => BoxType::DescBox,
        0x77696465 => BoxType::WideBox,
        0x636c6566 => BoxType::ClefBox,
        0x70726f66 => BoxType::ProfBox,
        0x656e6f66 => BoxType::EnofBox,
        0x63736c67 => BoxType::CslgBox,
        0x73647470 => BoxType::SdtpBox,
        0x73677064 => BoxType::SgpdBox,
        0x73626770 => BoxType::SbgpBox,
        0x676d696e => BoxType::GminBox,
        0x6e6d6864 => BoxType::NmhdBox,
        0x676e7265 => BoxType::GnreBox,
        _ => BoxType::UnknownBox(c),
    }
}

/// Whether a byte is a lowercase ASCII letter.
pub open spec fn lowercase_ascii(b: u32) -> bool {
    0x61 <= b <= 0x7A
}

/// A known code is always valid; an unknown code is valid only when each of
/// its four bytes is a lowercase ASCII letter.
pub open spec fn spec_valid(t: BoxType) -> bool {
    match t {
        BoxType::UnknownBox(c) => lowercase_ascii(c / 0x100_0000) && lowercase_ascii(
            (c / 0x1_0000) % 0x100,
        ) && lowercase_ascii((c / 0x100) % 0x100) && lowercase_ascii(c % 0x100),
        _ => true,
    }
}

/// Whether the type's payload is plain bytes (a leaf, never recursed into).
/// Everything else, unknown valid codes included, is a container.
pub open spec fn spec_leaf(t: BoxType) -> bool {
    match t {
        BoxType::FreeBox | BoxType::ElstBox | BoxType::FtypBox | BoxType::HdlrBox
            | BoxType::MdatBox | BoxType::MdhdBox | BoxType::MvhdBox | BoxType::TkhdBox
            | BoxType::VmhdBox | BoxType::DrefBox | BoxType::StsdBox | BoxType::SttsBox
            | BoxType::StssBox | BoxType::CttsBox | BoxType::StscBox | BoxType::StszBox
            | BoxType::StcoBox | BoxType::MetaBox | BoxType::SmhdBox | BoxType::Co64Box
            | BoxType::UdtaBox | BoxType::ClefBox | BoxType::ProfBox | BoxType::EnofBox
            | BoxType::CslgBox | BoxType::SdtpBox | BoxType::SgpdBox | BoxType::SbgpBox
            | BoxType::GminBox | BoxType::NmhdBox | BoxType::GnreBox => true,
        _ => false,
    }
}

/// One byte of a four-character code as it is displayed: ASCII bytes stand
/// for themselves, anything else becomes the UTF-8 replacement character.
pub open spec fn display_byte(b: u32) -> Seq<u8> {
    if b < 0x80 {
        seq![b as u8]
    } else {
        seq![0xEFu8, 0xBFu8, 0xBDu8]
    }
}

/// The four characters of a box type as displayed text.
pub open spec fn spec_display(t: BoxType) -> Seq<u8> {
    let c = spec_code_of(t);
    display_byte(c / 0x100_0000) + display_byte((c / 0x1_0000) % 0x100) + display_byte(
        (c / 0x100) % 0x100,
    ) + display_byte(c % 0x100)
}

/// Interpreting a code and then asking for the code again is the identity.
pub proof fn lemma_code_of_type_of(c: u32)
    ensures
        spec_code_of(spec_type_of(c)) == c,
{
    reveal(spec_code_of);
    reveal(spec_type_of);
}

impl BoxType {
    /// The box type named by a 32-bit big-endian code.
    pub fn from_code(c: u32) -> (t: BoxType)
        ensures
            t == spec_type_of(c),
    {
        proof {
            reveal(spec_type_of);
        }
        match c {
            0x66747970 => BoxType::FtypBox,
            0x6d766864 => BoxType::MvhdBox,
            0x6d666864 => BoxType::MfhdBox,
            0x66726565 => BoxType::FreeBox,
            0x6d646174 => BoxType::MdatBox,
            0x6d6f6f76 => BoxType::MoovBox,
            0x6d766578 => BoxType::MvexBox,
            0x6d656864 => BoxType::MehdBox,
            0x74726578 => BoxType::TrexBox,
            0x656d7367 => BoxType::EmsgBox,
            0x6d6f6f66 => BoxType::MoofBox,
            0x746b6864 => BoxType::TkhdBox,
            0x74666864 => BoxType::TfhdBox,
            0x74666474 => BoxType::TfdtBox,
            0x65647473 => BoxType::EdtsBox,
            0x6d646961 => BoxType::MdiaBox,
            0x656c7374 => BoxType::ElstBox,
            0x6d646864 => BoxType::MdhdBox,
            0x68646c72 => BoxType::HdlrBox,
            0x6d696e66 => BoxType::MinfBox,
            0x766d6864 => BoxType::VmhdBox,
            0x7374626c => BoxType::StblBox,
            0x73747364 => BoxType::StsdBox,
            0x73747473 => BoxType::SttsBox,
            0x63747473 => BoxType::CttsBox,
            0x73747373 => BoxType::StssBox,
            0x73747363 => BoxType::StscBox,
            0x7374737A => BoxType::StszBox,
            0x7374636F => BoxType::StcoBox,
            0x636F3634 => BoxType::Co64Box,
            0x7472616b => BoxType::TrakBox,
            0x74726166 => BoxType::TrafBox,
            0x7472756E => BoxType::TrunBox,
            0x75647461 => BoxType::UdtaBox,
            0x6d657461 => BoxType::MetaBox,
            0x64696e66 => BoxType::DinfBox,
            0x64726566 => BoxType::DrefBox,
            0x75726C20 => BoxType::UrlBox,
            0x736d6864 => BoxType::SmhdBox,
            0x61766331 => BoxType::Avc1Box,
            0x61766343 => BoxType::AvcCBox,
            0x68657631 => BoxType::Hev1Box,
            0x68766343 => BoxType::HvcCBox,
            0x6d703461 => BoxType::Mp4aBox,
            0x65736473 => BoxType::EsdsBox,
            0x74783367 => BoxType::Tx3gBox,
            0x76706343 => BoxType::VpccBox,
            0x76703039 => BoxType::Vp09Box,
            0x64617461 => BoxType::DataBox,
            0x696c7374 => BoxType::IlstBox,
            0xa96e616d => BoxType::NameBox,
            0xa9646179 => BoxType::DayBox,
            0x636f7672 => BoxType::CovrBox,
            0x64657363 => BoxType::DescBox,
            0x77696465 => BoxType::WideBox,
            0x636c6566 => BoxType::ClefBox,
            0x70726f66 => BoxType::ProfBox,
            0x656e6f66 => BoxType::EnofBox,
            0x63736c67 => BoxType::CslgBox,
            0x73647470 => BoxType::SdtpBox,
            0x73677064 => BoxType::SgpdBox,
            0x73626770 => BoxType::SbgpBox,
            0x676d696e => BoxType::GminBox,
            0x6e6d6864 => BoxType::NmhdBox,
            0x676e7265 => BoxType::GnreBox,
            _ => BoxType::UnknownBox(c),
        }
    }

    /// The 32-bit big-endian code of this box type.
    pub fn code(self) -> (c: u32)
        ensures
            c == spec_code_of(self),
    {
        proof {
            reveal(spec_code_of);
        }
        match self {
            BoxType::FtypBox => 0x66747970,
            BoxType::MvhdBox => 0x6d766864,
            BoxType::MfhdBox => 0x6d666864,
            BoxType::FreeBox => 0x66726565,
            BoxType::MdatBox => 0x6d646174,
            BoxType::MoovBox => 0x6d6f6f76,
            BoxType::MvexBox => 0x6d766578,
            BoxType::MehdBox => 0x6d656864,
            BoxType::TrexBox => 0x74726578,
            BoxType::EmsgBox => 0x656d7367,
            BoxType::MoofBox => 0x6d6f6f66,
            BoxType::TkhdBox => 0x746b6864,
            BoxType::TfhdBox => 0x74666864,
            BoxType::TfdtBox => 0x74666474,
            BoxType::EdtsBox => 0x65647473,
            BoxType::MdiaBox => 0x6d646961,
            BoxType::ElstBox => 0x656c7374,
            BoxType::MdhdBox => 0x6d646864,
            BoxType::HdlrBox => 0x68646c72,
            BoxType::MinfBox => 0x6d696e66,
            BoxType::VmhdBox => 0x766d6864,
            BoxType::StblBox => 0x7374626c,
            BoxType::StsdBox => 0x73747364,
            BoxType::SttsBox => 0x73747473,
            BoxType::CttsBox => 0x63747473,
            BoxType::StssBox => 0x73747373,
            BoxType::StscBox => 0x73747363,
            BoxType::StszBox => 0x7374737A,
            BoxType::StcoBox => 0x7374636F,
            BoxType::Co64Box => 0x636F3634,
            BoxType::TrakBox => 0x7472616b,
            BoxType::TrafBox => 0x74726166,
            BoxType::TrunBox => 0x7472756E,
            BoxType::UdtaBox => 0x75647461,
            BoxType::MetaBox => 0x6d657461,
            BoxType::DinfBox => 0x64696e66,
            BoxType::DrefBox => 0x64726566,
            BoxType::UrlBox => 0x75726C20,
            BoxType::SmhdBox => 0x736d6864,
            BoxType::Avc1Box => 0x61766331,
            BoxType::AvcCBox => 0x61766343,
            BoxType::Hev1Box => 0x68657631,
            BoxType::HvcCBox => 0x68766343,
            BoxType::Mp4aBox => 0x6d703461,
            BoxType::EsdsBox => 0x65736473,
            BoxType::Tx3gBox => 0x74783367,
            BoxType::VpccBox => 0x76706343,
            BoxType::Vp09Box => 0x76703039,
            BoxType::DataBox => 0x64617461,
            BoxType::IlstBox => 0x696c7374,
            BoxType::NameBox => 0xa96e616d,
            BoxType::DayBox => 0xa9646179,
            BoxType::CovrBox => 0x636f7672,
            BoxType::DescBox => 0x64657363,
            BoxType::WideBox => 0x77696465,
            BoxType::ClefBox => 0x636c6566,
            BoxType::ProfBox => 0x70726f66,
            BoxType::EnofBox => 0x656e6f66,
            BoxType::CslgBox => 0x63736c67,
            BoxType::SdtpBox => 0x73647470,
            BoxType::SgpdBox => 0x73677064,
            BoxType::SbgpBox => 0x73626770,
            BoxType::GminBox => 0x676d696e,
            BoxType::NmhdBox => 0x6e6d6864,
            BoxType::GnreBox => 0x676e7265,
            BoxType::UnknownBox(c) => c,
        }
    }

    /// Whether the type passes the header validity gate.
    pub fn validate(self) -> (r: bool)
        ensures
            r == spec_valid(self),
    {
        match self {
            BoxType::UnknownBox(c) => {
                let b0 = c / 0x100_0000;
                let b1 = (c / 0x1_0000) % 0x100;
                let b2 = (c / 0x100) % 0x100;
                let b3 = c % 0x100;
                0x61 <= b0 && b0 <= 0x7A && 0x61 <= b1 && b1 <= 0x7A && 0x61 <= b2 && b2 <= 0x7A
                    && 0x61 <= b3 && b3 <= 0x7A
            },
            _ => true,
        }
    }

    /// Whether the type is a leaf (payload-only) box.
    pub fn is_leaf(self) -> (r: bool)
        ensures
            r == spec_leaf(self),
    {
        match self {
            BoxType::FreeBox | BoxType::ElstBox | BoxType::FtypBox | BoxType::HdlrBox
                | BoxType::MdatBox | BoxType::MdhdBox | BoxType::MvhdBox | BoxType::TkhdBox
                | BoxType::VmhdBox | BoxType::DrefBox | BoxType::StsdBox | BoxType::SttsBox
                | BoxType::StssBox | BoxType::CttsBox | BoxType::StscBox | BoxType::StszBox
                | BoxType::StcoBox | BoxType::MetaBox | BoxType::SmhdBox | BoxType::Co64Box
                | BoxType::UdtaBox | BoxType::ClefBox | BoxType::ProfBox | BoxType::EnofBox
                | BoxType::CslgBox | BoxType::SdtpBox | BoxType::SgpdBox | BoxType::SbgpBox
                | BoxType::GminBox | BoxType::NmhdBox | BoxType::GnreBox => true,
            _ => false,
        }
    }

    /// Appends the four displayed characters of this type to `out`.
    pub fn push_display(self, out: &mut Vec<u8>)
        ensures
            final(out)@ =~= old(out)@ + spec_display(self),
    {
        let c = self.code();
        push_display_byte(out, c / 0x100_0000);
        push_display_byte(out, (c / 0x1_0000) % 0x100);
        push_display_byte(out, (c / 0x100) % 0x100);
        push_display_byte(out, c % 0x100);
    }
}

/// Whether `t` is one of the types in `list`.
pub fn type_list_contains(list: &Vec<BoxType>, t: BoxType) -> (b: bool)
    ensures
        b == list@.contains(t),
{
    let mut i: usize = 0;
    while i < list.len()
        invariant
            i <= list@.len(),
            forall|j: int| 0 <= j < i ==> list@[j] != t,
        decreases list@.len() - i,
    {
        if list[i] == t {
            return true;
        }
        i = i + 1;
    }
    false
}

fn push_display_byte(out: &mut Vec<u8>, b: u32)
    requires
        b < 0x100,
    ensures
        final(out)@ =~= old(out)@ + display_byte(b),
{
    if b < 0x80 {
        out.push(b as u8);
    } else {
        out.push(0xEF);
        out.push(0xBF);
        out.push(0xBD);
    }
}

} // verus!
