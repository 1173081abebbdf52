//! The in-memory box tree and its serializer.

use vstd::prelude::*;

use crate::boxtype::BoxType;
use crate::error::Mp4Error;
use crate::header::{header_bytes, push_header, BoxHeader};

verus! {

/// A box's payload: nothing yet, raw bytes, or child boxes in order.
pub enum BoxData {
    Empty,
    Raw(Vec<u8>),
    Children(Vec<Mp4Box>),
}

/// An in-memory box: its type, its payload, and whether re-serialization
/// must keep the 16-byte length encoding the box had on the wire.
pub struct Mp4Box {
    pub name: BoxType,
    pub data: BoxData,
    pub force_longsize: bool,
}

/// The mathematical shape of a payload.
pub ghost enum SpecData {
    Empty,
    Raw(Seq<u8>),
    Children(Seq<SpecBox>),
}

/// The mathematical shape of a box.
pub ghost struct SpecBox {
    pub name: BoxType,
    pub data: SpecData,
    pub force_longsize: bool,
}

/// The shape of a box.
pub open spec fn box_view(b: Mp4Box) -> SpecBox
    decreases b,
{
    SpecBox { name: b.name, data: data_view(b.data), force_longsize: b.force_longsize }
}

/// The shape of a payload.
pub open spec fn data_view(d: BoxData) -> SpecData
    decreases d,
{
    match d {
        BoxData::Empty => SpecData::Empty,
        BoxData::Raw(v) => SpecData::Raw(v@),
        BoxData::Children(c) => SpecData::Children(boxes_view(c@)),
    }
}

/// The shapes of a row of boxes.
pub open spec fn boxes_view(s: Seq<Mp4Box>) -> Seq<SpecBox>
    decreases s,
{
    if s.len() == 0 {
        Seq::empty()
    } else {
        seq![box_view(s[0])] + boxes_view(s.drop_first())
    }
}

impl View for Mp4Box {
    type V = SpecBox;

    open spec fn view(&self) -> SpecBox {
        box_view(*self)
    }
}

impl View for BoxData {
    type V = SpecData;

    open spec fn view(&self) -> SpecData {
        data_view(*self)
    }
}

/// The bytes a box serializes to: its header for the content's length,
/// then the content.
pub open spec fn serial(b: SpecBox) -> Seq<u8>
    decreases b,
{
    header_bytes(b.name, content_of(b.data).len(), b.force_longsize) + content_of(b.data)
}

/// The bytes a payload serializes to: nothing, the raw bytes verbatim, or
/// the children in order.
pub open spec fn content_of(d: SpecData) -> Seq<u8>
    decreases d,
{
    match d {
        SpecData::Empty => Seq::empty(),
        SpecData::Raw(v) => v,
        SpecData::Children(s) => serial_seq(s),
    }
}

/// The bytes a row of boxes serializes to.
pub open spec fn serial_seq(s: Seq<SpecBox>) -> Seq<u8>
    decreases s,
{
    if s.len() == 0 {
        Seq::empty()
    } else {
        serial(s[0]) + serial_seq(s.drop_first())
    }
}

/// Whether every box in the tree has content short enough for its header.
pub open spec fn size_ok(b: SpecBox) -> bool
    decreases b,
{
    content_of(b.data).len() <= u64::MAX - 16 && data_size_ok(b.data)
}

/// [`size_ok`], for a payload.
pub open spec fn data_size_ok(d: SpecData) -> bool
    decreases d,
{
    match d {
        SpecData::Children(s) => forall|i: int| 0 <= i < s.len() ==> size_ok(#[trigger] s[i]),
        _ => true,
    }
}

/// Appending a box appends its bytes.
pub proof fn lemma_serial_seq_push(s: Seq<SpecBox>, b: SpecBox)
    ensures
        serial_seq(s.push(b)) == serial_seq(s) + serial(b),
    decreases s.len(),
{
    if s.len() == 0 {
        assert(s.push(b)[0] == b);
        assert(s.push(b).drop_first() =~= Seq::<SpecBox>::empty());
        assert(serial_seq(Seq::<SpecBox>::empty()) == Seq::<u8>::empty());
        assert(serial_seq(s.push(b)) == serial(b) + Seq::<u8>::empty());
        assert(serial(b) + Seq::<u8>::empty() =~= serial(b));
        assert(serial_seq(s) + serial(b) =~= serial(b));
    } else {
        assert(s.push(b)[0] == s[0]);
        assert(s.push(b).drop_first() =~= s.drop_first().push(b));
        lemma_serial_seq_push(s.drop_first(), b);
        assert(serial(s[0]) + (serial_seq(s.drop_first()) + serial(b)) =~= (serial(s[0])
            + serial_seq(s.drop_first())) + serial(b));
    }
}

/// The shapes of a row grow one box at a time.
pub proof fn lemma_boxes_view_push(s: Seq<Mp4Box>, b: Mp4Box)
    ensures
        boxes_view(s.push(b)) == boxes_view(s).push(box_view(b)),
    decreases s.len(),
{
    if s.len() == 0 {
        assert(s.push(b)[0] == b);
        assert(s.push(b).drop_first() =~= Seq::<Mp4Box>::empty());
        assert(boxes_view(Seq::<Mp4Box>::empty()) == Seq::<SpecBox>::empty());
        assert(boxes_view(s.push(b)) == seq![box_view(b)] + Seq::<SpecBox>::empty());
        assert(seq![box_view(b)] + Seq::<SpecBox>::empty() =~= seq![box_view(b)]);
        assert(boxes_view(s).push(box_view(b)) =~= seq![box_view(b)]);
    } else {
        assert(s.push(b)[0] == s[0]);
        assert(s.push(b).drop_first() =~= s.drop_first().push(b));
        lemma_boxes_view_push(s.drop_first(), b);
        assert(seq![box_view(s[0])] + boxes_view(s.drop_first()).push(box_view(b)) =~= (
        seq![box_view(s[0])] + boxes_view(s.drop_first())).push(box_view(b)));
    }
}

/// A row's shapes line up with the row.
pub proof fn lemma_boxes_view_index(s: Seq<Mp4Box>)
    ensures
        boxes_view(s).len() == s.len(),
        forall|i: int| 0 <= i < s.len() ==> #[trigger] boxes_view(s)[i] == s[i]@,
    decreases s.len(),
{
    if s.len() > 0 {
        lemma_boxes_view_index(s.drop_first());
        assert forall|i: int| 0 <= i < s.len() implies #[trigger] boxes_view(s)[i] == s[i]@ by {
            if i > 0 {
                assert(boxes_view(s)[i] == boxes_view(s.drop_first())[i - 1]);
                assert(s.drop_first()[i - 1] == s[i]);
            }
        }
    }
}

/// Attaching a child: an `Empty` or `Raw` payload becomes a row holding
/// just the child, a `Children` payload grows by it.
pub open spec fn spec_attach(d: SpecData, c: SpecBox) -> SpecData {
    match d {
        SpecData::Children(s) => SpecData::Children(s.push(c)),
        _ => SpecData::Children(seq![c]),
    }
}

impl Mp4Box {
    /// A box for a freshly announced header, with no payload yet.
    pub fn new(header: BoxHeader) -> (b: Mp4Box)
        ensures
            b@ == (SpecBox {
                name: header.name,
                data: SpecData::Empty,
                force_longsize: header.longsize,
            }),
    {
        Mp4Box { name: header.name, data: BoxData::Empty, force_longsize: header.longsize }
    }

    /// Makes `child` the last child of this box.  A box that still held raw
    /// bytes loses them: a leaf that turns out to have children is rebuilt
    /// as a container.
    pub fn attach(&mut self, child: Mp4Box)
        ensures
            final(self).name == old(self).name,
            final(self).force_longsize == old(self).force_longsize,
            final(self)@.data == spec_attach(old(self)@.data, child@),
    {
        let ghost old_data = self.data@;
        match &mut self.data {
            BoxData::Children(v) => {
                let ghost vs = v@;
                v.push(child);
                proof {
                    lemma_boxes_view_push(vs, child);
                }
            },
            _ => {
                let mut v: Vec<Mp4Box> = Vec::new();
                v.push(child);
                proof {
                    assert(v@ =~= seq![child]);
                    assert(v@[0] == child);
                    assert(v@.drop_first() =~= Seq::<Mp4Box>::empty());
                    assert(boxes_view(Seq::<Mp4Box>::empty()) == Seq::<SpecBox>::empty());
                    assert(seq![box_view(child)] + Seq::<SpecBox>::empty() =~= seq![child@]);
                    assert(boxes_view(v@) =~= seq![child@]);
                }
                self.data = BoxData::Children(v);
            },
        }
    }

    /// Appends this box's serialized bytes to `writer` and returns how many
    /// bytes that was.
    pub fn write_to(&self, writer: &mut Vec<u8>) -> (n: u64)
        requires
            size_ok(self@),
        ensures
            final(writer)@ == old(writer)@ + serial(self@),
            n == serial(self@).len(),
        decreases self@,
    {
        let mut data_buf: Vec<u8> = Vec::new();
        proof {
            assert(decreases_to!(self@ => self@.data));
            assert(self@.data == self.data@);
        }
        let content_len = self.data.write_to(&mut data_buf);
        push_header(writer, self.name, content_len, self.force_longsize);
        writer.append(&mut data_buf);
        let header_len: u64 = if self.force_longsize || content_len + 8 > u32::MAX as u64 {
            16
        } else {
            8
        };
        proof {
            assert(header_bytes(self.name, content_of(self@.data).len(), self.force_longsize).len()
                == header_len);
            assert(final(writer)@ =~= old(writer)@ + serial(self@));
        }
        header_len + content_len
    }
}

impl BoxData {
    /// Appends this payload's serialized bytes to `writer` and returns how
    /// many bytes that was.
    #[verifier::rlimit(50)]
    pub fn write_to(&self, writer: &mut Vec<u8>) -> (n: u64)
        requires
            data_size_ok(self@),
            content_of(self@).len() <= u64::MAX - 16,
        ensures
            final(writer)@ == old(writer)@ + content_of(self@),
            n == content_of(self@).len(),
        decreases self@,
    {
        match self {
            BoxData::Empty => {
                proof {
                    assert(old(writer)@ + Seq::<u8>::empty() =~= old(writer)@);
                }
                0
            },
            BoxData::Raw(bytes) => {
                let n = bytes.len();
                crate::bytes::push_slice(writer, bytes.as_slice());
                n as u64
            },
            BoxData::Children(children) => {
                let ghost cs = boxes_view(children@);
                let mut sum: u64 = 0;
                let mut i: usize = 0;
                proof {
                    lemma_boxes_view_index(children@);
                    assert(self@ == SpecData::Children(cs));
                    assert(data_size_ok(self@));
                    assert(cs.take(0) =~= Seq::<SpecBox>::empty());
                    assert(serial_seq(Seq::<SpecBox>::empty()) == Seq::<u8>::empty());
                    assert(old(writer)@ + serial_seq(cs.take(0)) =~= old(writer)@);
                }
                while i < children.len()
                    invariant
                        i <= children@.len(),
                        cs == boxes_view(children@),
                        self@ == SpecData::Children(cs),
                        cs.len() == children@.len(),
                        forall|j: int| 0 <= j < children@.len() ==> #[trigger] cs[j] == children@[j]@,
                        forall|j: int| 0 <= j < cs.len() ==> size_ok(#[trigger] cs[j]),
                        serial_seq(cs).len() <= u64::MAX - 16,
                        sum == serial_seq(cs.take(i as int)).len(),
                        writer@ == old(writer)@ + serial_seq(cs.take(i as int)),
                    decreases children@.len() - i,
                {
                    let child = &children[i];
                    proof {
                        assert(cs[i as int] == children@[i as int]@);
                        assert(size_ok(cs[i as int]));
                        assert(self@->Children_0 == cs);
                        assert(decreases_to!(self@ => self@->Children_0));
                        assert(decreases_to!(cs => cs[i as int]));
                        lemma_serial_seq_take_bound(cs, i as int);
                    }
                    let n = child.write_to(writer);
                    proof {
                        lemma_serial_seq_push(cs.take(i as int), cs[i as int]);
                        assert(cs.take(i as int).push(cs[i as int]) =~= cs.take(i as int + 1));
                    }
                    sum = sum + n;
                    i = i + 1;
                }
                proof {
                    assert(cs.take(cs.len() as int) =~= cs);
                }
                sum
            },
        }
    }
}

/// What a prefix of a row serializes to is no longer than the whole row,
/// even with the next box added.
pub proof fn lemma_serial_seq_take_bound(s: Seq<SpecBox>, i: int)
    requires
        0 <= i < s.len(),
    ensures
        serial_seq(s.take(i)).len() + serial(s[i]).len() <= serial_seq(s).len(),
    decreases i,
{
    if i == 0 {
        assert(s.take(0) =~= Seq::<SpecBox>::empty());
        assert(serial_seq(s) == serial(s[0]) + serial_seq(s.drop_first()));
    } else {
        lemma_serial_seq_take_bound(s.drop_first(), i - 1);
        assert(s.drop_first().take(i - 1) =~= s.take(i).drop_first());
        assert(s.take(i)[0] == s[0]);
        assert(serial_seq(s.take(i)) == serial(s[0]) + serial_seq(s.take(i).drop_first()));
        assert(s.drop_first()[i - 1] == s[i]);
        assert(serial_seq(s) == serial(s[0]) + serial_seq(s.drop_first()));
    }
}

/// The length a header contributes, and the bound that makes the whole box
/// fit in a `u64` count.
pub proof fn lemma_serial_len(b: SpecBox)
    requires
        size_ok(b),
    ensures
        serial(b).len() == header_bytes(b.name, content_of(b.data).len(), b.force_longsize).len()
            + content_of(b.data).len(),
        serial(b).len() <= u64::MAX,
{
}

/// Whether a parent can take one more child without its content length
/// outgrowing what a header can carry.
pub open spec fn attach_fits(parent: SpecBox, child: SpecBox) -> bool {
    content_of(spec_attach(parent.data, child)).len() <= u64::MAX - 16
}

/// What attaching a child does to the parent's content bytes.
pub proof fn lemma_attach_content(d: SpecData, c: SpecBox)
    ensures
        content_of(spec_attach(d, c)) == (match d {
            SpecData::Children(s) => serial_seq(s) + serial(c),
            _ => serial(c),
        }),
{
    match d {
        SpecData::Children(s) => {
            lemma_serial_seq_push(s, c);
        },
        _ => {
            assert(seq![c].drop_first() =~= Seq::<SpecBox>::empty());
            assert(serial_seq(Seq::<SpecBox>::empty()) == Seq::<u8>::empty());
            assert(serial(c) + Seq::<u8>::empty() =~= serial(c));
        },
    }
}

/// The stack of partially built boxes a tree-building visitor maintains,
/// together with each node's current content length, so that attaching and
/// serializing never outgrow a 64-bit size.
pub struct TreeStack {
    /// The open boxes, outermost first.
    pub nodes: Vec<Mp4Box>,
    /// `csizes[i]` is the length of `nodes[i]`'s content so far.
    pub csizes: Vec<u64>,
}

impl TreeStack {
    /// The shapes of the open boxes.
    pub open spec fn boxes(&self) -> Seq<SpecBox> {
        boxes_view(self.nodes@)
    }

    /// Every open box is consistently sized.
    pub open spec fn wf(&self) -> bool {
        &&& self.csizes@.len() == self.nodes@.len()
        &&& forall|i: int|
            0 <= i < self.nodes@.len() ==> (#[trigger] self.csizes@[i]) as int == content_of(
                self.nodes@[i]@.data,
            ).len()
        &&& forall|i: int| 0 <= i < self.nodes@.len() ==> size_ok(#[trigger] self.nodes@[i]@)
    }

    /// An empty stack.
    pub fn new() -> (s: TreeStack)
        ensures
            s.wf(),
            s.boxes() == Seq::<SpecBox>::empty(),
    {
        let s = TreeStack { nodes: Vec::new(), csizes: Vec::new() };
        proof {
            assert(boxes_view(s.nodes@) == Seq::<SpecBox>::empty());
        }
        s
    }

    /// How many boxes stand open.
    pub fn depth(&self) -> (n: usize)
        requires
            self.wf(),
        ensures
            n == self.boxes().len(),
    {
        proof {
            lemma_boxes_view_index(self.nodes@);
        }
        self.nodes.len()
    }

    /// Opens a box for a freshly announced header.
    pub fn push_new(&mut self, header: BoxHeader)
        requires
            old(self).wf(),
        ensures
            final(self).wf(),
            final(self).boxes() == old(self).boxes().push(
                SpecBox {
                    name: header.name,
                    data: SpecData::Empty,
                    force_longsize: header.longsize,
                },
            ),
    {
        let b = Mp4Box::new(header);
        proof {
            lemma_boxes_view_push(self.nodes@, b);
            lemma_boxes_view_index(self.nodes@);
            lemma_boxes_view_index(self.nodes@.push(b));
        }
        self.nodes.push(b);
        self.csizes.push(0);
    }

    /// The type of the box opened last.
    pub fn top_name(&self) -> (t: BoxType)
        requires
            self.wf(),
            self.boxes().len() > 0,
        ensures
            t == self.boxes().last().name,
    {
        proof {
            lemma_boxes_view_index(self.nodes@);
        }
        self.nodes[self.nodes.len() - 1].name
    }

    /// Gives the box opened last a raw payload, and possibly a new type.
    pub fn set_top_raw(&mut self, name: BoxType, bytes: Vec<u8>)
        requires
            old(self).wf(),
            old(self).boxes().len() > 0,
            bytes@.len() <= u64::MAX - 16,
        ensures
            final(self).wf(),
            final(self).boxes() == old(self).boxes().update(
                old(self).boxes().len() - 1,
                SpecBox {
                    name,
                    data: SpecData::Raw(bytes@),
                    force_longsize: old(self).boxes().last().force_longsize,
                },
            ),
    {
        proof {
            lemma_boxes_view_index(self.nodes@);
        }
        let ghost bytes_v = bytes@;
        let n = bytes.len();
        let mut top = self.nodes.pop().unwrap();
        self.csizes.pop().unwrap();
        top.name = name;
        top.data = BoxData::Raw(bytes);
        self.nodes.push(top);
        self.csizes.push(n as u64);
        proof {
            lemma_boxes_view_push(old(self).nodes@.drop_last(), self.nodes@.last());
            lemma_boxes_view_index(self.nodes@);
            lemma_boxes_view_index(old(self).nodes@);
            assert(self.nodes@ =~= old(self).nodes@.drop_last().push(self.nodes@.last()));
            assert(final(self).boxes() =~= old(self).boxes().update(
                old(self).boxes().len() - 1,
                SpecBox {
                    name,
                    data: SpecData::Raw(bytes_v),
                    force_longsize: old(self).boxes().last().force_longsize,
                },
            ));
        }
    }

    /// Closes the box opened last and hands it back with its content
    /// length; the caller decides whether to attach it, keep it, or drop it.
    pub fn pop_box(&mut self) -> (r: (Mp4Box, u64))
        requires
            old(self).wf(),
            old(self).boxes().len() > 0,
        ensures
            final(self).wf(),
            r.0@ == old(self).boxes().last(),
            size_ok(r.0@),
            r.1 as int == content_of(r.0@.data).len(),
            final(self).boxes() == old(self).boxes().drop_last(),
    {
        proof {
            lemma_boxes_view_index(self.nodes@);
        }
        let b = self.nodes.pop().unwrap();
        let c = self.csizes.pop().unwrap();
        proof {
            lemma_boxes_view_index(self.nodes@);
            lemma_boxes_view_drop_last(old(self).nodes@);
        }
        (b, c)
    }

    /// Puts a completed, consistently sized box on the stack, with its
    /// content length.
    pub fn push_box(&mut self, b: Mp4Box, ccontent: u64)
        requires
            old(self).wf(),
            size_ok(b@),
            ccontent as int == content_of(b@.data).len(),
        ensures
            final(self).wf(),
            final(self).boxes() == old(self).boxes().push(b@),
    {
        proof {
            lemma_boxes_view_push(self.nodes@, b);
            lemma_boxes_view_index(self.nodes@);
            lemma_boxes_view_index(self.nodes@.push(b));
        }
        self.nodes.push(b);
        self.csizes.push(ccontent);
    }

    /// Closes the box opened last and attaches it to the box opened before
    /// it.  Refuses, changing nothing, when the grown parent's content
    /// would no longer fit a 64-bit size.
    pub fn fold_top(&mut self) -> (r: Result<(), Mp4Error>)
        requires
            old(self).wf(),
            old(self).boxes().len() >= 2,
        ensures
            final(self).wf(),
            ({
                let child = old(self).boxes().last();
                let plen = old(self).boxes().len() - 2;
                let parent = old(self).boxes()[plen];
                let updated = SpecBox {
                    name: parent.name,
                    data: spec_attach(parent.data, child),
                    force_longsize: parent.force_longsize,
                };
                &&& (r is Ok <==> attach_fits(parent, child))
                &&& (r is Ok ==> final(self).boxes() == old(self).boxes().drop_last().update(
                    plen,
                    updated,
                ))
                &&& (r is Err ==> *final(self) == *old(self) && r == Err::<(), Mp4Error>(
                    Mp4Error::InvalidData,
                ))
            }),
    {
        proof {
            lemma_boxes_view_index(self.nodes@);
        }
        let n = self.nodes.len();
        let ghost child = old(self).boxes().last();
        let ghost parent = old(self).boxes()[n - 2];
        proof {
            lemma_attach_content(parent.data, child);
            lemma_serial_len(child);
        }
        let ccontent = self.csizes[n - 1];
        let pcsize = self.csizes[n - 2];
        let child_long = self.nodes[n - 1].force_longsize;
        let header_len: u64 = if child_long || ccontent + 8 > u32::MAX as u64 {
            16
        } else {
            8
        };
        let child_total = header_len + ccontent;
        let parent_is_row = match &self.nodes[n - 2].data {
            BoxData::Children(_) => true,
            _ => false,
        };
        let new_content: u64 = if parent_is_row {
            if child_total > u64::MAX - 16 - pcsize {
                proof {
                    assert(content_of(spec_attach(parent.data, child)).len() > u64::MAX - 16);
                }
                return Err(Mp4Error::InvalidData);
            }
            pcsize + child_total
        } else {
            if child_total > u64::MAX - 16 {
                proof {
                    assert(content_of(spec_attach(parent.data, child)).len() > u64::MAX - 16);
                }
                return Err(Mp4Error::InvalidData);
            }
            child_total
        };
        let c = self.nodes.pop().unwrap();
        self.csizes.pop().unwrap();
        let mut top = self.nodes.pop().unwrap();
        self.csizes.pop().unwrap();
        top.attach(c);
        proof {
            lemma_boxes_view_index(self.nodes@);
        }
        self.nodes.push(top);
        self.csizes.push(new_content);
        proof {
            let pre = old(self).nodes@.drop_last().drop_last();
            lemma_boxes_view_push(pre, self.nodes@.last());
            lemma_boxes_view_index(self.nodes@);
            lemma_boxes_view_index(old(self).nodes@);
            lemma_boxes_view_index(pre);
            assert(self.nodes@ =~= pre.push(self.nodes@.last()));
            let updated = SpecBox {
                name: parent.name,
                data: spec_attach(parent.data, child),
                force_longsize: parent.force_longsize,
            };
            assert(self.nodes@.last()@ == updated);
            assert(final(self).boxes() =~= old(self).boxes().drop_last().update(
                n - 2,
                updated,
            ));
            assert(data_size_ok(updated.data));
        }
        Ok(())
    }
}

/// Dropping the last box drops the last shape.
pub proof fn lemma_boxes_view_drop_last(s: Seq<Mp4Box>)
    requires
        s.len() > 0,
    ensures
        boxes_view(s.drop_last()) == boxes_view(s).drop_last(),
{
    lemma_boxes_view_index(s);
    lemma_boxes_view_index(s.drop_last());
    assert(boxes_view(s.drop_last()) =~= boxes_view(s).drop_last());
}

/// The length of a box's content as built so far, provided the box is
/// consistently sized.
pub fn content_len_of(b: &Mp4Box) -> (n: u64)
    requires
        size_ok(b@),
    ensures
        n == content_of(b@.data).len(),
{
    let mut buf: Vec<u8> = Vec::new();
    b.data.write_to(&mut buf)
}

impl Mp4Box {
    /// A structurally identical copy of this box.
    pub fn deep_clone(&self) -> (b: Mp4Box)
        ensures
            b@ == self@,
        decreases self@,
    {
        proof {
            assert(decreases_to!(self@ => self@.data));
            assert(self@.data == self.data@);
        }
        Mp4Box {
            name: self.name,
            data: self.data.deep_clone(),
            force_longsize: self.force_longsize,
        }
    }
}

impl BoxData {
    /// A structurally identical copy of this payload.
    pub fn deep_clone(&self) -> (d: BoxData)
        ensures
            d@ == self@,
        decreases self@,
    {
        match self {
            BoxData::Empty => BoxData::Empty,
            BoxData::Raw(v) => BoxData::Raw(vstd::slice::slice_to_vec(v.as_slice())),
            BoxData::Children(c) => {
                let ghost cs = boxes_view(c@);
                proof {
                    lemma_boxes_view_index(c@);
                }
                let mut out: Vec<Mp4Box> = Vec::new();
                let mut i: usize = 0;
                proof {
                    assert(boxes_view(out@) =~= Seq::<SpecBox>::empty());
                }
                while i < c.len()
                    invariant
                        i <= c@.len(),
                        cs == boxes_view(c@),
                        self@ == SpecData::Children(cs),
                        cs.len() == c@.len(),
                        forall|j: int| 0 <= j < c@.len() ==> #[trigger] cs[j] == c@[j]@,
                        out@.len() == i,
                        forall|j: int| 0 <= j < i ==> #[trigger] out@[j]@ == cs[j],
                    decreases c@.len() - i,
                {
                    proof {
                        assert(self@->Children_0 == cs);
                        assert(decreases_to!(self@ => self@->Children_0));
                        assert(decreases_to!(cs => cs[i as int]));
                        assert(c@[i as int]@ == cs[i as int]);
                    }
                    let cl = c[i].deep_clone();
                    out.push(cl);
                    i = i + 1;
                }
                proof {
                    lemma_boxes_view_index(out@);
                    assert(boxes_view(out@) =~= cs);
                }
                BoxData::Children(out)
            },
        }
    }
}

} // verus!
