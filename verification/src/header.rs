//! The 8- or 16-byte box header codec.

use vstd::prelude::*;

use crate::boxtype::{spec_code_of, spec_type_of, BoxType};
use crate::bytes::{be_u32_at, be_u32_bytes, be_u64_at, be_u64_bytes, push_be_u32, push_be_u64, read_be_u32, read_be_u64};
use crate::error::Mp4Error;
use crate::source::ByteSource;

verus! {

/// A parsed box header.
///
/// `size` is the total on-disk size of the box, header included; `0` is the
/// sentinel for "content extends to the end of the container".  `longsize`
/// records whether the 16-byte (largesize) encoding was used on the wire;
/// when it is set, `size` is `0` or at least `16`.
#[derive(Clone, Copy, Debug, PartialEq, Eq, Structural)]
pub struct BoxHeader {
    pub name: BoxType,
    pub size: u64,
    pub longsize: bool,
}

/// What reading a header at a given offset yields.
pub ghost enum HeaderStep {
    /// Fewer bytes remain than the header needs.
    TooShort,
    /// The largesize field lies in the forbidden range `1..=15`.
    BadLargesize,
    /// A header, together with its own length on the wire (8 or 16).
    Parsed { header: BoxHeader, hlen: int },
}

/// Reads the header spelled at offset `pos` of `data`: a big-endian `u32`
/// size and a four-character code, then, when the size field is `1`, a
/// big-endian `u64` largesize.  A largesize of `0` stands for the
/// content-to-end sentinel; `1..=15` cannot cover the 16-byte header itself
/// and is rejected.
#[verifier::opaque]
pub open spec fn parse_header(data: Seq<u8>, pos: int) -> HeaderStep
    recommends
        0 <= pos,
{
    if pos + 8 > data.len() {
        HeaderStep::TooShort
    } else {
        let size32 = be_u32_at(data, pos);
        let name = spec_type_of(be_u32_at(data, pos + 4));
        if size32 == 1 {
            if pos + 16 > data.len() {
                HeaderStep::TooShort
            } else {
                let big = be_u64_at(data, pos + 8);
                if big == 0 {
                    HeaderStep::Parsed {
                        header: BoxHeader { name, size: 0, longsize: true },
                        hlen: 16,
                    }
                } else if big <= 15 {
                    HeaderStep::BadLargesize
                } else {
                    HeaderStep::Parsed {
                        header: BoxHeader { name, size: big, longsize: true },
                        hlen: 16,
                    }
                }
            }
        } else {
            HeaderStep::Parsed {
                header: BoxHeader { name, size: size32 as u64, longsize: false },
                hlen: 8,
            }
        }
    }
}

/// A parsed header's own length is 8 or 16 bytes, lies within the data,
/// and matches the encoding flag; a long header's size is 0 or at least 16.
pub proof fn lemma_parse_header_props(data: Seq<u8>, pos: int)
    ensures
        parse_header(data, pos) matches HeaderStep::Parsed { header, hlen } ==> {
            &&& hlen == if header.longsize { 16int } else { 8int }
            &&& pos + hlen <= data.len()
            &&& (header.longsize ==> header.size == 0 || header.size >= 16)
            &&& (!header.longsize ==> header.size <= u32::MAX && header.size != 1)
        },
{
    reveal(parse_header);
}

/// Reads a box header at the source's position and advances past it.
/// On an error the source is left unchanged.
pub fn read_header(src: &mut ByteSource) -> (r: Result<BoxHeader, Mp4Error>)
    ensures
        final(src).data@ == old(src).data@,
        match parse_header(old(src).data@, old(src).pos as int) {
            HeaderStep::Parsed { header, hlen } => r == Ok::<BoxHeader, Mp4Error>(header)
                && final(src).pos == old(src).pos + hlen,
            HeaderStep::TooShort => r == Err::<BoxHeader, Mp4Error>(Mp4Error::UnexpectedEof)
                && final(src).pos == old(src).pos,
            HeaderStep::BadLargesize => r == Err::<BoxHeader, Mp4Error>(Mp4Error::InvalidData)
                && final(src).pos == old(src).pos,
        },
{
    proof {
        reveal(parse_header);
    }
    let n = src.data.len();
    let pos = src.pos;
    if n < 8 || pos > n - 8 {
        return Err(Mp4Error::UnexpectedEof);
    }
    let size = read_be_u32(src.data.as_slice(), pos);
    let code = read_be_u32(src.data.as_slice(), pos + 4);
    let name = BoxType::from_code(code);
    if size == 1 {
        if n < 16 || pos > n - 16 {
            return Err(Mp4Error::UnexpectedEof);
        }
        let largesize = read_be_u64(src.data.as_slice(), pos + 8);
        if largesize == 0 {
            src.pos = pos + 16;
            Ok(BoxHeader { name, size: 0, longsize: true })
        } else if largesize <= 15 {
            Err(Mp4Error::InvalidData)
        } else {
            src.pos = pos + 16;
            Ok(BoxHeader { name, size: largesize, longsize: true })
        }
    } else {
        src.pos = pos + 8;
        Ok(BoxHeader { name, size: size as u64, longsize: false })
    }
}

/// The header that the serializer emits in front of `content_len` bytes of
/// content: 16 bytes when the long encoding is forced or the short size
/// field cannot hold the total, 8 bytes otherwise.
pub open spec fn header_bytes(name: BoxType, content_len: nat, longsize: bool) -> Seq<u8> {
    if longsize || content_len + 8 > u32::MAX {
        be_u32_bytes(1) + be_u32_bytes(spec_code_of(name)) + be_u64_bytes((content_len + 16) as u64)
    } else {
        be_u32_bytes((content_len + 8) as u32) + be_u32_bytes(spec_code_of(name))
    }
}

/// Appends the header for `content_len` bytes of content to `out`.
pub fn push_header(out: &mut Vec<u8>, name: BoxType, content_len: u64, longsize: bool)
    requires
        content_len <= u64::MAX - 16,
    ensures
        final(out)@ =~= old(out)@ + header_bytes(name, content_len as nat, longsize),
{
    if longsize || content_len + 8 > u32::MAX as u64 {
        push_be_u32(out, 1);
        push_be_u32(out, name.code());
        push_be_u64(out, content_len + 16);
    } else {
        push_be_u32(out, (content_len + 8) as u32);
        push_be_u32(out, name.code());
    }
}

impl BoxHeader {
    /// Sets the on-disk size for `content_size` bytes of content: the header
    /// itself takes 8 bytes, or 16 when the total no longer fits the short
    /// size field.
    pub fn set_size(&mut self, content_size: u64)
        requires
            content_size <= u64::MAX - 16,
        ensures
            final(self).name == old(self).name,
            final(self).longsize == old(self).longsize,
            final(self).size == if content_size + 8 > u32::MAX {
                content_size + 16
            } else {
                content_size + 8
            },
    {
        self.size = content_size + 8;
        if self.size > u32::MAX as u64 {
            self.size = self.size + 8;
        }
    }

}

} // verus!
