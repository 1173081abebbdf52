//! Rebuilding a file with selected box types blanked out.

use vstd::prelude::*;

use crate::boxtype::{type_list_contains, BoxType};
use crate::bytes::{zero_vec, zeros};
use crate::engine::{events_of, read_box, traverse_spec, TRes};
use crate::error::Mp4Error;
use crate::events::{evs_wf, stack_of, Event};
use crate::header::BoxHeader;
use crate::source::ByteSource;
use crate::tables::{fix_stsz, fix_table, fixed_stsz, fixed_table};
use crate::tree::{attach_fits, serial, spec_attach, SpecBox, SpecData, TreeStack};
use crate::visitor::Mp4Visitor;

verus! {

/// The raw payload a stripping rebuild stores for a leaf: an ignored box
/// turns into a same-sized run of zeros, a sample-table box gets its entry
/// count re-derived, everything else is copied verbatim.
#[verifier::opaque]
pub open spec fn strip_payload(name: BoxType, bytes: Seq<u8>, ignore: Seq<BoxType>) -> Seq<u8> {
    if ignore.contains(name) {
        zeros(bytes.len())
    } else {
        match name {
            BoxType::CttsBox | BoxType::SttsBox => fixed_table(bytes, 0, 8),
            BoxType::StscBox => fixed_table(bytes, 0, 12),
            BoxType::StcoBox => fixed_table(bytes, 0, 4),
            BoxType::StszBox => fixed_stsz(bytes),
            _ => bytes,
        }
    }
}

/// The type the stored leaf carries: ignored boxes are renamed `free`.
pub open spec fn strip_name(name: BoxType, ignore: Seq<BoxType>) -> BoxType {
    if ignore.contains(name) {
        BoxType::FreeBox
    } else {
        name
    }
}

/// Whether a leaf payload can be stored: a sample-table payload must hold
/// its prefix and count, and the stored bytes must fit a 64-bit size.
pub open spec fn strip_payload_ok(name: BoxType, bytes: Seq<u8>, ignore: Seq<BoxType>) -> bool {
    &&& (!ignore.contains(name) ==> match name {
        BoxType::CttsBox | BoxType::SttsBox | BoxType::StscBox | BoxType::StcoBox => bytes.len()
            >= 8,
        BoxType::StszBox => bytes.len() >= 12,
        _ => true,
    })
    &&& strip_payload(name, bytes, ignore).len() <= u64::MAX - 16
}

/// The error a refused leaf payload draws: a sample table too short to read
/// ends the stream early, anything else that cannot be stored is invalid.
pub open spec fn strip_payload_err(name: BoxType, bytes: Seq<u8>, ignore: Seq<BoxType>) -> Mp4Error {
    if !ignore.contains(name) && (match name {
        BoxType::CttsBox | BoxType::SttsBox | BoxType::StscBox | BoxType::StcoBox => bytes.len()
            < 8,
        BoxType::StszBox => bytes.len() < 12,
        _ => false,
    }) {
        Mp4Error::UnexpectedEof
    } else {
        Mp4Error::InvalidData
    }
}

/// What a stripping rebuild has built: the open boxes and the bytes already
/// written out for completed top-level boxes.
pub ghost struct StripSt {
    pub stack: Seq<SpecBox>,
    pub out: Seq<u8>,
}

/// How one traversal event changes a stripping rebuild's state.
pub open spec fn strip_step(st: StripSt, ev: Event, ignore: Seq<BoxType>) -> StripSt {
    match ev {
        Event::Start { header, .. } => StripSt {
            stack: st.stack.push(
                SpecBox {
                    name: header.name,
                    data: SpecData::Empty,
                    force_longsize: header.longsize,
                },
            ),
            out: st.out,
        },
        Event::Data { bytes } => if st.stack.len() == 0 {
            st
        } else {
            let top = st.stack.last();
            StripSt {
                stack: st.stack.update(
                    st.stack.len() - 1,
                    SpecBox {
                        name: strip_name(top.name, ignore),
                        data: SpecData::Raw(strip_payload(top.name, bytes, ignore)),
                        force_longsize: top.force_longsize,
                    },
                ),
                out: st.out,
            }
        },
        Event::End { .. } => if st.stack.len() == 0 {
            st
        } else if st.stack.len() == 1 {
            StripSt { stack: st.stack.drop_last(), out: st.out + serial(st.stack.last()) }
        } else {
            let child = st.stack.last();
            let plen = st.stack.len() - 2;
            let parent = st.stack[plen];
            StripSt {
                stack: st.stack.drop_last().update(
                    plen,
                    SpecBox {
                        name: parent.name,
                        data: spec_attach(parent.data, child),
                        force_longsize: parent.force_longsize,
                    },
                ),
                out: st.out,
            }
        },
    }
}

/// Folds the traversal events of a stripping rebuild.
pub open spec fn strip_fold(evs: Seq<Event>, ignore: Seq<BoxType>) -> StripSt
    decreases evs.len(),
{
    if evs.len() == 0 {
        StripSt { stack: Seq::empty(), out: Seq::empty() }
    } else {
        strip_step(strip_fold(evs.drop_last(), ignore), evs.last(), ignore)
    }
}

/// Runs a stripping rebuild over `evs` from the state `st`.
pub open spec fn strip_cont(st: StripSt, evs: Seq<Event>, ignore: Seq<BoxType>) -> StripSt
    decreases evs.len(),
{
    if evs.len() == 0 {
        st
    } else {
        strip_step(strip_cont(st, evs.drop_last(), ignore), evs.last(), ignore)
    }
}

/// Folding a concatenation runs the second half from the first half's state.
pub proof fn lemma_strip_cont_append(st: StripSt, a: Seq<Event>, b: Seq<Event>, ignore: Seq<BoxType>)
    ensures
        strip_cont(st, a + b, ignore) == strip_cont(strip_cont(st, a, ignore), b, ignore),
    decreases b.len(),
{
    if b.len() == 0 {
        assert(a + b =~= a);
    } else {
        assert((a + b).drop_last() =~= a + b.drop_last());
        assert((a + b).last() == b.last());
        lemma_strip_cont_append(st, a, b.drop_last(), ignore);
    }
}

/// The fold is the run from the empty state.
pub proof fn lemma_strip_fold_is_cont(evs: Seq<Event>, ignore: Seq<BoxType>)
    ensures
        strip_fold(evs, ignore) == strip_cont(
            StripSt { stack: Seq::empty(), out: Seq::empty() },
            evs,
            ignore,
        ),
    decreases evs.len(),
{
    if evs.len() > 0 {
        lemma_strip_fold_is_cont(evs.drop_last(), ignore);
    }
}

/// Rebuilds the tree it is driven over, blanking the payload of every box
/// whose type is in the ignore list, repairing sample-table counts, and
/// writing each completed top-level box out.
pub struct StripVisitor {
    /// The box types to blank.
    pub ignore: Vec<BoxType>,
    /// The boxes still open.
    pub stack: TreeStack,
    /// The bytes written for completed top-level boxes.
    pub out: Vec<u8>,
    /// The events absorbed so far.
    pub events: Ghost<Seq<Event>>,
}

impl StripVisitor {
    /// A visitor that blanks the `ignore` types.
    pub fn new(ignore: Vec<BoxType>) -> (v: StripVisitor)
        ensures
            v.inv(),
            v.taken() == Seq::<Event>::empty(),
            v.ignore@ == ignore@,
    {
        StripVisitor {
            ignore,
            stack: TreeStack::new(),
            out: Vec::new(),
            events: Ghost(Seq::empty()),
        }
    }

    /// The rebuilt file.
    pub fn into_output(self) -> (out: Vec<u8>)
        requires
            self.inv(),
        ensures
            out@ == strip_fold(self.taken(), self.ignore@).out,
    {
        self.out
    }
}

impl Mp4Visitor for StripVisitor {
    type Config = Seq<BoxType>;

    open spec fn config(&self) -> Seq<BoxType> {
        self.ignore@
    }

    open spec fn taken(&self) -> Seq<Event> {
        self.events@
    }

    open spec fn inv(&self) -> bool {
        let st = strip_fold(self.events@, self.ignore@);
        &&& self.stack.wf()
        &&& self.stack.boxes() == st.stack
        &&& self.out@ == st.out
        &&& evs_wf(self.events@)
        &&& stack_of(self.events@)->Some_0.len() == st.stack.len()
    }

    open spec fn accepts(&self, ev: Event) -> bool {
        strip_visitor_at(self.events@, self.ignore@).accepts(ev)
    }

    open spec fn rejection(&self, ev: Event) -> Mp4Error {
        strip_visitor_at(self.events@, self.ignore@).rejection(ev)
    }

    fn start_box(&mut self, header: &BoxHeader, corrected_size: Option<u64>) -> (r: Result<
        (),
        Mp4Error,
    >) {
        let ghost ev = Event::Start { header: *header, corrected: corrected_size };
        self.stack.push_new(*header);
        proof {
            self.events@ = self.events@.push(ev);
            assert(self.events@.drop_last() =~= old(self).events@);
            crate::events::lemma_stack_from_push(Seq::empty(), old(self).events@, ev);
        }
        Ok(())
    }

    fn data(&mut self, payload: &[u8]) -> (r: Result<(), Mp4Error>) {
        let ghost ev = Event::Data { bytes: payload@ };
        proof {
            reveal(strip_payload);
            crate::events::lemma_stack_from_push(Seq::empty(), old(self).events@, ev);
        }
        let name = self.stack.top_name();
        let stored: Vec<u8> = if type_list_contains(&self.ignore, name) {
            if payload.len() as u64 > u64::MAX - 16 {
                return Err(Mp4Error::InvalidData);
            }
            zero_vec(payload.len())
        } else {
            let fixed: Vec<u8> = match name {
                BoxType::CttsBox | BoxType::SttsBox => {
                    match fix_table(payload, 0, 8) {
                        Ok(v) => v,
                        Err(e) => {
                            return Err(e);
                        },
                    }
                },
                BoxType::StscBox => {
                    match fix_table(payload, 0, 12) {
                        Ok(v) => v,
                        Err(e) => {
                            return Err(e);
                        },
                    }
                },
                BoxType::StcoBox => {
                    match fix_table(payload, 0, 4) {
                        Ok(v) => v,
                        Err(e) => {
                            return Err(e);
                        },
                    }
                },
                BoxType::StszBox => {
                    match fix_stsz(payload) {
                        Ok(v) => v,
                        Err(e) => {
                            return Err(e);
                        },
                    }
                },
                _ => vstd::slice::slice_to_vec(payload),
            };
            if fixed.len() as u64 > u64::MAX - 16 {
                return Err(Mp4Error::InvalidData);
            }
            fixed
        };
        let new_name = if type_list_contains(&self.ignore, name) {
            BoxType::FreeBox
        } else {
            name
        };
        self.stack.set_top_raw(new_name, stored);
        proof {
            self.events@ = self.events@.push(ev);
            assert(self.events@.drop_last() =~= old(self).events@);
        }
        Ok(())
    }

    fn end_box(&mut self, name: BoxType) -> (r: Result<(), Mp4Error>) {
        let ghost ev = Event::End { name };
        proof {
            crate::events::lemma_stack_from_push(Seq::empty(), old(self).events@, ev);
        }
        if self.stack.depth() >= 2 {
            match self.stack.fold_top() {
                Ok(()) => {},
                Err(e) => {
                    return Err(e);
                },
            }
        } else {
            let (root, _) = self.stack.pop_box();
            root.write_to(&mut self.out);
        }
        proof {
            self.events@ = self.events@.push(ev);
            assert(self.events@.drop_last() =~= old(self).events@);
        }
        Ok(())
    }
}

/// Rebuilds the file, replacing each box whose type is listed in `ignore`
/// with a same-sized, zero-filled `free` box and re-deriving sample-table
/// entry counts.
///
/// Succeeds exactly when the whole file traverses cleanly and every leaf
/// payload can be stored.
pub fn strip(data: Vec<u8>, ignore: Vec<BoxType>) -> (r: Result<Vec<u8>, Mp4Error>)
    ensures
        ({
            let t = traverse_spec(data@, 0, data@.len() as int);
            match r {
                Ok(out) => t matches TRes::Done(evs) && out@ == strip_fold(evs, ignore@).out,
                Err(e) => (t matches TRes::Fail(es, k) && e == k) || (exists|i: int|
                    #![trigger events_of(t).take(i)]
                    {
                        let v = strip_visitor_at(events_of(t).take(i), ignore@);
                        &&& 0 <= i < events_of(t).len()
                        &&& !v.accepts(events_of(t)[i])
                        &&& e == v.rejection(events_of(t)[i])
                    }),
            }
        }),
{
    let len = data.len();
    let mut src = ByteSource::new(data);
    let mut visitor = StripVisitor::new(ignore);
    match read_box(&mut src, len, &mut visitor) {
        Ok(()) => {
            proof {
                let t = traverse_spec(src.data@, 0, len as int);
                assert(Seq::<Event>::empty() + events_of(t) =~= events_of(t));
            }
            Ok(visitor.into_output())
        },
        Err(e) => {
            proof {
                let t = traverse_spec(src.data@, 0, len as int);
                if !(t is Fail && e == t->Fail_1) {
                    let evs = events_of(t);
                    let i = choose|i: int|
                        #![trigger evs.take(i)]
                        0 <= i < evs.len() && visitor.taken() == Seq::<Event>::empty() + evs.take(i)
                            && !(visitor.accepts(evs[i])) && e == visitor.rejection(evs[i]);
                    assert(Seq::<Event>::empty() + evs.take(i) =~= evs.take(i));
                    assert(visitor.taken() == evs.take(i));
                    assert(strip_visitor_at(evs.take(i), visitor.ignore@).accepts(evs[i])
                        == visitor.accepts(evs[i]));
                }
            }
            Err(e)
        },
    }
}

/// The acceptance state a stripping rebuild reaches after absorbing `evs`:
/// what it accepts and which error it raises depend only on the events and
/// the ignore list.
pub open spec fn strip_visitor_at(evs: Seq<Event>, ignore: Seq<BoxType>) -> StripProbe {
    StripProbe { evs, ignore }
}

/// A ghost probe standing for a stripping rebuild mid-run.
pub ghost struct StripProbe {
    pub evs: Seq<Event>,
    pub ignore: Seq<BoxType>,
}

impl StripProbe {
    /// Mirrors [`Mp4Visitor::accepts`] for a stripping rebuild.
    pub open spec fn accepts(&self, ev: Event) -> bool {
        let st = strip_fold(self.evs, self.ignore);
        match ev {
            Event::Start { .. } => true,
            Event::Data { bytes } => st.stack.len() > 0 && strip_payload_ok(
                st.stack.last().name,
                bytes,
                self.ignore,
            ),
            Event::End { .. } => st.stack.len() <= 1 || attach_fits(
                st.stack[st.stack.len() - 2],
                st.stack.last(),
            ),
        }
    }

    /// Mirrors [`Mp4Visitor::rejection`] for a stripping rebuild.
    pub open spec fn rejection(&self, ev: Event) -> Mp4Error {
        match ev {
            Event::Data { bytes } => {
                let st = strip_fold(self.evs, self.ignore);
                if st.stack.len() > 0 {
                    strip_payload_err(st.stack.last().name, bytes, self.ignore)
                } else {
                    Mp4Error::InvalidData
                }
            },
            _ => Mp4Error::InvalidData,
        }
    }
}

} // verus!
