//! Streaming visitors that inspect a file without buffering it.

use vstd::prelude::*;

use crate::boxtype::{spec_display, BoxType};
use crate::engine::{events_of, read_box, traverse_spec, TRes};
use crate::error::Mp4Error;
use crate::events::{evs_wf, stack_of, Event};
use crate::header::BoxHeader;
use crate::source::ByteSource;
use crate::visitor::Mp4Visitor;

verus! {

/// What an extraction has seen: the bytes copied out so far, whether the
/// next leaf payload is the one to copy, and whether a copy already
/// happened.
pub ghost struct ExtractSt {
    pub out: Seq<u8>,
    pub should_read: bool,
    pub done: bool,
}

/// Folds the traversal events of an extraction: the first box whose type
/// matches arms the copy, the next leaf payload is copied, and later
/// matches are ignored.
pub open spec fn extract_fold(evs: Seq<Event>, target: BoxType) -> ExtractSt
    decreases evs.len(),
{
    if evs.len() == 0 {
        ExtractSt { out: Seq::empty(), should_read: false, done: false }
    } else {
        let st = extract_fold(evs.drop_last(), target);
        match evs.last() {
            Event::Start { header, .. } => if header.name == target && !st.done {
                ExtractSt { out: st.out, should_read: true, done: st.done }
            } else {
                st
            },
            Event::Data { bytes } => if st.should_read {
                ExtractSt { out: st.out + bytes, should_read: false, done: true }
            } else {
                st
            },
            Event::End { .. } => st,
        }
    }
}

/// Streams the payload of the first box of a requested type out of the
/// traversal.
pub struct ExtractVisitor {
    /// The box type whose payload is wanted.
    pub box_type: BoxType,
    /// The bytes copied so far.
    pub out: Vec<u8>,
    /// Whether the next leaf payload is the wanted one.
    pub should_read: bool,
    /// Whether a payload was already copied.
    pub done: bool,
    /// The events absorbed so far.
    pub events: Ghost<Seq<Event>>,
}

impl ExtractVisitor {
    /// A visitor that will copy the payload of the first `box_type` box.
    pub fn new(box_type: BoxType) -> (v: ExtractVisitor)
        ensures
            v.inv(),
            v.taken() == Seq::<Event>::empty(),
            v.box_type == box_type,
    {
        ExtractVisitor {
            box_type,
            out: Vec::new(),
            should_read: false,
            done: false,
            events: Ghost(Seq::empty()),
        }
    }

    /// The bytes copied out.
    pub fn into_output(self) -> (out: Vec<u8>)
        requires
            self.inv(),
        ensures
            out@ == extract_fold(self.taken(), self.box_type).out,
    {
        self.out
    }
}

impl Mp4Visitor for ExtractVisitor {
    type Config = BoxType;

    open spec fn config(&self) -> BoxType {
        self.box_type
    }

    open spec fn taken(&self) -> Seq<Event> {
        self.events@
    }

    open spec fn inv(&self) -> bool {
        &&& self.out@ == extract_fold(self.events@, self.box_type).out
        &&& self.should_read == extract_fold(self.events@, self.box_type).should_read
        &&& self.done == extract_fold(self.events@, self.box_type).done
    }

    open spec fn accepts(&self, ev: Event) -> bool {
        true
    }

    open spec fn rejection(&self, ev: Event) -> Mp4Error {
        Mp4Error::UnexpectedEof
    }

    fn start_box(&mut self, header: &BoxHeader, corrected_size: Option<u64>) -> (r: Result<
        (),
        Mp4Error,
    >) {
        let ghost ev = Event::Start { header: *header, corrected: corrected_size };
        if header.name == self.box_type && !self.done {
            self.should_read = true;
        }
        proof {
            self.events@ = self.events@.push(ev);
            assert(self.events@.drop_last() =~= old(self).events@);
        }
        Ok(())
    }

    fn data(&mut self, payload: &[u8]) -> (r: Result<(), Mp4Error>) {
        let ghost ev = Event::Data { bytes: payload@ };
        if self.should_read {
            crate::bytes::push_slice(&mut self.out, payload);
            self.should_read = false;
            self.done = true;
        }
        proof {
            self.events@ = self.events@.push(ev);
            assert(self.events@.drop_last() =~= old(self).events@);
        }
        Ok(())
    }

    fn end_box(&mut self, name: BoxType) -> (r: Result<(), Mp4Error>) {
        let ghost ev = Event::End { name };
        proof {
            self.events@ = self.events@.push(ev);
            assert(self.events@.drop_last() =~= old(self).events@);
        }
        Ok(())
    }
}

/// Copies the payload of the first `box_type` box of the file out.
///
/// Succeeds exactly when the whole file traverses cleanly; a file whose
/// first matching box never arrives still succeeds, with empty output.
pub fn extract(data: Vec<u8>, box_type: BoxType) -> (r: Result<Vec<u8>, Mp4Error>)
    ensures
        ({
            let t = traverse_spec(data@, 0, data@.len() as int);
            match r {
                Ok(out) => t matches TRes::Done(evs) && out@ == extract_fold(evs, box_type).out,
                Err(e) => t matches TRes::Fail(es, k) && e == k,
            }
        }),
{
    let len = data.len();
    let mut src = ByteSource::new(data);
    let mut visitor = ExtractVisitor::new(box_type);
    match read_box(&mut src, len, &mut visitor) {
        Ok(()) => {
            proof {
                let t = traverse_spec(src.data@, 0, len as int);
                assert(Seq::<Event>::empty() + events_of(t) =~= events_of(t));
            }
            Ok(visitor.into_output())
        },
        Err(e) => Err(e),
    }
}

/// The text `" ("`.
pub open spec fn note_open() -> Seq<u8> {
    seq![0x20u8, 0x28u8]
}

/// The text `" B)"`.
pub open spec fn note_close() -> Seq<u8> {
    seq![0x20u8, 0x42u8, 0x29u8]
}

/// The text `" B declared, "`.
pub open spec fn note_declared() -> Seq<u8> {
    seq![0x20u8, 0x42u8, 0x20u8, 0x64u8, 0x65u8, 0x63u8, 0x6Cu8, 0x61u8, 0x72u8, 0x65u8, 0x64u8, 0x2Cu8, 0x20u8]
}

/// The text `" B corrected)"`.
pub open spec fn note_corrected() -> Seq<u8> {
    seq![0x20u8, 0x42u8, 0x20u8, 0x63u8, 0x6Fu8, 0x72u8, 0x72u8, 0x65u8, 0x63u8, 0x74u8, 0x65u8, 0x64u8, 0x29u8]
}

/// The size annotation printed after a box name: nothing unless sizes were
/// asked for, the declared size alone when it stood, or the declared and
/// corrected sizes when the engine clamped it.
pub open spec fn size_note(size: u64, corrected: Option<u64>, with_size: bool) -> Seq<u8> {
    if !with_size {
        Seq::empty()
    } else {
        match corrected {
            Some(c) => note_open() + crate::bytes::dec_digits(size as nat) + note_declared()
                + crate::bytes::dec_digits(c as nat) + note_corrected(),
            None => note_open() + crate::bytes::dec_digits(size as nat) + note_close(),
        }
    }
}

/// Appends the size annotation to `out`.
#[verifier::rlimit(100)]
#[verifier::spinoff_prover]
pub fn push_size_note(out: &mut Vec<u8>, size: u64, corrected: Option<u64>, with_size: bool)
    ensures
        final(out)@ == old(out)@ + size_note(size, corrected, with_size),
{
    if !with_size {
        proof {
            assert(old(out)@ + Seq::<u8>::empty() =~= old(out)@);
        }
        return ;
    }
    out.push(0x20);  // ' '
    out.push(0x28);  // '('
    crate::bytes::push_decimal(out, size);
    match corrected {
        Some(c) => {
            out.push(0x20);  // ' '
            out.push(0x42);  // 'B'
            out.push(0x20);  // ' '
            out.push(0x64);  // 'd'
            out.push(0x65);  // 'e'
            out.push(0x63);  // 'c'
            out.push(0x6C);  // 'l'
            out.push(0x61);  // 'a'
            out.push(0x72);  // 'r'
            out.push(0x65);  // 'e'
            out.push(0x64);  // 'd'
            out.push(0x2C);  // ','
            out.push(0x20);  // ' '
            crate::bytes::push_decimal(out, c);
            out.push(0x20);  // ' '
            out.push(0x42);  // 'B'
            out.push(0x20);  // ' '
            out.push(0x63);  // 'c'
            out.push(0x6F);  // 'o'
            out.push(0x72);  // 'r'
            out.push(0x72);  // 'r'
            out.push(0x65);  // 'e'
            out.push(0x63);  // 'c'
            out.push(0x74);  // 't'
            out.push(0x65);  // 'e'
            out.push(0x64);  // 'd'
            out.push(0x29);  // ')'
            proof {
                assert(final(out)@ =~= old(out)@ + size_note(size, corrected, with_size));
            }
        },
        None => {
            out.push(0x20);  // ' '
            out.push(0x42);  // 'B'
            out.push(0x29);  // ')'
            proof {
                assert(final(out)@ =~= old(out)@ + size_note(size, corrected, with_size));
            }
        },
    }
}

/// The nesting depth after `evs`: how many boxes stand open.
pub open spec fn depth_of(evs: Seq<Event>) -> int {
    match stack_of(evs) {
        Some(s) => s.len() as int,
        None => 0,
    }
}

/// A two-space indent per open box.
pub open spec fn indent_of(depth: int) -> Seq<u8> {
    Seq::new((if depth >= 0 { 2 * depth } else { 0 }) as nat, |i: int| 0x20u8)
}

/// The text the tree printer has emitted after `evs`: one line per box,
/// two spaces of indent per level of nesting.
pub open spec fn tree_fold(evs: Seq<Event>, with_size: bool) -> Seq<u8>
    decreases evs.len(),
{
    if evs.len() == 0 {
        Seq::empty()
    } else {
        let prev = tree_fold(evs.drop_last(), with_size);
        match evs.last() {
            Event::Start { header, corrected } => prev + indent_of(depth_of(evs.drop_last()))
                + spec_display(header.name) + size_note(header.size, corrected, with_size)
                + seq![0x0Au8],
            _ => prev,
        }
    }
}

/// Prints the tree as indented text, one box per line.
pub struct PrintTreeVisitor {
    /// Whether to annotate each line with the box's size.
    pub with_size: bool,
    /// The indent of the current nesting depth: two spaces per open box.
    pub indent: Vec<u8>,
    /// The text emitted so far.
    pub out: Vec<u8>,
    /// The events absorbed so far.
    pub events: Ghost<Seq<Event>>,
}

impl PrintTreeVisitor {
    /// A fresh tree printer.
    pub fn new(with_size: bool) -> (v: PrintTreeVisitor)
        ensures
            v.inv(),
            v.taken() == Seq::<Event>::empty(),
            v.with_size == with_size,
    {
        let v = PrintTreeVisitor {
            with_size,
            indent: Vec::new(),
            out: Vec::new(),
            events: Ghost(Seq::empty()),
        };
        proof {
            assert(v.indent@ =~= indent_of(0));
        }
        v
    }

    /// The text emitted.
    pub fn into_output(self) -> (out: Vec<u8>)
        requires
            self.inv(),
        ensures
            out@ == tree_fold(self.taken(), self.with_size),
    {
        self.out
    }
}

impl Mp4Visitor for PrintTreeVisitor {
    type Config = bool;

    open spec fn config(&self) -> bool {
        self.with_size
    }

    open spec fn taken(&self) -> Seq<Event> {
        self.events@
    }

    open spec fn inv(&self) -> bool {
        &&& evs_wf(self.events@)
        &&& self.indent@ == indent_of(depth_of(self.events@))
        &&& self.out@ == tree_fold(self.events@, self.with_size)
    }

    open spec fn accepts(&self, ev: Event) -> bool {
        true
    }

    open spec fn rejection(&self, ev: Event) -> Mp4Error {
        Mp4Error::UnexpectedEof
    }

    fn start_box(&mut self, header: &BoxHeader, corrected_size: Option<u64>) -> (r: Result<
        (),
        Mp4Error,
    >) {
        let ghost ev = Event::Start { header: *header, corrected: corrected_size };
        crate::bytes::push_slice(&mut self.out, self.indent.as_slice());
        header.name.push_display(&mut self.out);
        push_size_note(&mut self.out, header.size, corrected_size, self.with_size);
        self.out.push(0x0A);  // '\n'
        self.indent.push(0x20);
        self.indent.push(0x20);
        proof {
            crate::events::lemma_stack_from_push(Seq::empty(), old(self).events@, ev);
            self.events@ = self.events@.push(ev);
            assert(self.events@.drop_last() =~= old(self).events@);
            assert(self.indent@ =~= indent_of(depth_of(self.events@)));
            assert(self.out@ =~= tree_fold(self.events@, self.with_size));
        }
        Ok(())
    }

    fn data(&mut self, payload: &[u8]) -> (r: Result<(), Mp4Error>) {
        let ghost ev = Event::Data { bytes: payload@ };
        proof {
            crate::events::lemma_stack_from_push(Seq::empty(), old(self).events@, ev);
            self.events@ = self.events@.push(ev);
            assert(self.events@.drop_last() =~= old(self).events@);
        }
        Ok(())
    }

    fn end_box(&mut self, name: BoxType) -> (r: Result<(), Mp4Error>) {
        let ghost ev = Event::End { name };
        proof {
            crate::events::lemma_stack_from_push(Seq::empty(), old(self).events@, ev);
        }
        self.indent.pop();
        self.indent.pop();
        proof {
            self.events@ = self.events@.push(ev);
            assert(self.events@.drop_last() =~= old(self).events@);
            assert(self.indent@ =~= indent_of(depth_of(self.events@)));
        }
        Ok(())
    }
}

/// The display names of the open boxes, joined by `/`.
pub open spec fn path_line(names: Seq<BoxType>) -> Seq<u8>
    decreases names.len(),
{
    if names.len() == 0 {
        Seq::empty()
    } else if names.len() == 1 {
        spec_display(names[0])
    } else {
        path_line(names.drop_last()) + seq![0x2Fu8] + spec_display(names.last())
    }
}

/// The text the path printer has emitted after `evs`: one line per box,
/// giving the `/`-joined path from the root to it.
pub open spec fn path_fold(evs: Seq<Event>, with_size: bool) -> Seq<u8>
    decreases evs.len(),
{
    if evs.len() == 0 {
        Seq::empty()
    } else {
        let prev = path_fold(evs.drop_last(), with_size);
        match evs.last() {
            Event::Start { header, corrected } => prev + path_line(
                match stack_of(evs) {
                    Some(s) => s,
                    None => Seq::empty(),
                },
            ) + size_note(header.size, corrected, with_size) + seq![0x0Au8],
            _ => prev,
        }
    }
}

/// Prints each box as the `/`-joined path from the root down to it.
pub struct PathVisitor {
    /// Whether to annotate each line with the box's size.
    pub with_size: bool,
    /// The display names of the open boxes.
    pub path: Vec<Vec<u8>>,
    /// The text emitted so far.
    pub out: Vec<u8>,
    /// The events absorbed so far.
    pub events: Ghost<Seq<Event>>,
}

impl PathVisitor {
    /// A fresh path printer.
    pub fn new(with_size: bool) -> (v: PathVisitor)
        ensures
            v.inv(),
            v.taken() == Seq::<Event>::empty(),
            v.with_size == with_size,
    {
        PathVisitor { with_size, path: Vec::new(), out: Vec::new(), events: Ghost(Seq::empty()) }
    }

    /// The text emitted.
    pub fn into_output(self) -> (out: Vec<u8>)
        requires
            self.inv(),
        ensures
            out@ == path_fold(self.taken(), self.with_size),
    {
        self.out
    }

    /// The stack of open box names, as displayed.
    pub open spec fn names(&self) -> Seq<BoxType> {
        match stack_of(self.events@) {
            Some(s) => s,
            None => Seq::empty(),
        }
    }
}

impl Mp4Visitor for PathVisitor {
    type Config = bool;

    open spec fn config(&self) -> bool {
        self.with_size
    }

    open spec fn taken(&self) -> Seq<Event> {
        self.events@
    }

    open spec fn inv(&self) -> bool {
        &&& evs_wf(self.events@)
        &&& self.path@.len() == self.names().len()
        &&& forall|i: int|
            0 <= i < self.path@.len() ==> (#[trigger] self.path@[i])@ == spec_display(
                self.names()[i],
            )
        &&& self.out@ == path_fold(self.events@, self.with_size)
    }

    open spec fn accepts(&self, ev: Event) -> bool {
        true
    }

    open spec fn rejection(&self, ev: Event) -> Mp4Error {
        Mp4Error::UnexpectedEof
    }

    fn start_box(&mut self, header: &BoxHeader, corrected_size: Option<u64>) -> (r: Result<
        (),
        Mp4Error,
    >) {
        let ghost ev = Event::Start { header: *header, corrected: corrected_size };
        let mut shown: Vec<u8> = Vec::new();
        header.name.push_display(&mut shown);
        proof {
            assert(shown@ =~= spec_display(header.name));
        }
        self.path.push(shown);
        let ghost names2 = self.names().push(header.name);
        proof {
            crate::events::lemma_stack_from_push(Seq::empty(), old(self).events@, ev);
        }
        // print the whole path, root first
        let mut j: usize = 0;
        proof {
            assert(names2.take(0) =~= Seq::<BoxType>::empty());
        }
        while j < self.path.len()
            invariant
                self.path@.len() == names2.len(),
                forall|i: int|
                    0 <= i < self.path@.len() ==> (#[trigger] self.path@[i])@ == spec_display(
                        names2[i],
                    ),
                j <= names2.len(),
                self.out@ == old(self).out@ + path_line(names2.take(j as int)),
                self.with_size == old(self).with_size,
                self.events == old(self).events,
                self.out@.len() >= old(self).out@.len(),
            decreases names2.len() - j,
        {
            if j > 0 {
                self.out.push(0x2F);  // '/'
            }
            let piece = &self.path[j];
            crate::bytes::push_slice(&mut self.out, piece.as_slice());
            proof {
                let t1 = names2.take(j as int + 1);
                assert(t1.drop_last() =~= names2.take(j as int));
                assert(t1.last() == names2[j as int]);
                if j == 0 {
                    assert(self.out@ =~= old(self).out@ + path_line(t1));
                } else {
                    assert(self.out@ =~= old(self).out@ + (path_line(names2.take(j as int))
                        + seq![0x2Fu8] + spec_display(names2[j as int])));
                }
            }
            j = j + 1;
        }
        proof {
            assert(names2.take(names2.len() as int) =~= names2);
        }
        push_size_note(&mut self.out, header.size, corrected_size, self.with_size);
        self.out.push(0x0A);  // '\n'
        proof {
            self.events@ = self.events@.push(ev);
            assert(self.events@.drop_last() =~= old(self).events@);
            assert(self.names() =~= names2);
            assert(self.out@ =~= path_fold(self.events@, self.with_size));
        }
        Ok(())
    }

    fn data(&mut self, payload: &[u8]) -> (r: Result<(), Mp4Error>) {
        let ghost ev = Event::Data { bytes: payload@ };
        proof {
            crate::events::lemma_stack_from_push(Seq::empty(), old(self).events@, ev);
            self.events@ = self.events@.push(ev);
            assert(self.events@.drop_last() =~= old(self).events@);
        }
        Ok(())
    }

    fn end_box(&mut self, name: BoxType) -> (r: Result<(), Mp4Error>) {
        let ghost ev = Event::End { name };
        proof {
            crate::events::lemma_stack_from_push(Seq::empty(), old(self).events@, ev);
        }
        self.path.pop();
        proof {
            self.events@ = self.events@.push(ev);
            assert(self.events@.drop_last() =~= old(self).events@);
            assert(self.names() =~= old(self).names().drop_last());
        }
        Ok(())
    }
}

/// Prints the box tree of the file: as indented lines, or as `/`-joined
/// paths.  Succeeds exactly when the whole file traverses cleanly.
pub fn inspect_tree(data: Vec<u8>, paths: bool, with_size: bool) -> (r: Result<Vec<u8>, Mp4Error>)
    ensures
        ({
            let t = traverse_spec(data@, 0, data@.len() as int);
            match r {
                Ok(out) => t matches TRes::Done(evs) && out@ == (if paths {
                    path_fold(evs, with_size)
                } else {
                    tree_fold(evs, with_size)
                }),
                Err(e) => t matches TRes::Fail(es, k) && e == k,
            }
        }),
{
    let len = data.len();
    let mut src = ByteSource::new(data);
    if paths {
        let mut visitor = PathVisitor::new(with_size);
        match read_box(&mut src, len, &mut visitor) {
            Ok(()) => {
                proof {
                    let t = traverse_spec(src.data@, 0, len as int);
                    assert(Seq::<Event>::empty() + events_of(t) =~= events_of(t));
                }
                Ok(visitor.into_output())
            },
            Err(e) => Err(e),
        }
    } else {
        let mut visitor = PrintTreeVisitor::new(with_size);
        match read_box(&mut src, len, &mut visitor) {
            Ok(()) => {
                proof {
                    let t = traverse_spec(src.data@, 0, len as int);
                    assert(Seq::<Event>::empty() + events_of(t) =~= events_of(t));
                }
                Ok(visitor.into_output())
            },
            Err(e) => Err(e),
        }
    }
}

} // verus!
