//! Rebuilding a file while re-deriving corrupted sample-table counts.

use vstd::prelude::*;

use crate::boxtype::BoxType;
use crate::engine::{events_of, read_box, traverse_spec, TRes};
use crate::error::Mp4Error;
use crate::events::{evs_wf, stack_of, Event};
use crate::header::BoxHeader;
use crate::source::ByteSource;
use crate::tables::{fix_stsz, fix_table, fixed_stsz, fixed_table};
use crate::tree::{attach_fits, serial, spec_attach, SpecBox, SpecData, TreeStack};
use crate::visitor::Mp4Visitor;

verus! {

/// The raw payload a recovery stores for a leaf: chunk-offset, sample-size
/// and composition-offset tables get their entry counts re-derived,
/// everything else is copied verbatim.
pub open spec fn recover_payload(name: BoxType, bytes: Seq<u8>) -> Seq<u8> {
    match name {
        BoxType::CttsBox => fixed_table(bytes, 0, 8),
        BoxType::StcoBox => fixed_table(bytes, 0, 4),
        BoxType::StszBox => fixed_stsz(bytes),
        _ => bytes,
    }
}

/// Whether a leaf payload can be stored by a recovery.
pub open spec fn recover_payload_ok(name: BoxType, bytes: Seq<u8>) -> bool {
    &&& (match name {
        BoxType::CttsBox | BoxType::StcoBox => bytes.len() >= 8,
        BoxType::StszBox => bytes.len() >= 12,
        _ => true,
    })
    &&& recover_payload(name, bytes).len() <= u64::MAX - 16
}

/// The error a refused leaf payload draws during recovery.
pub open spec fn recover_payload_err(name: BoxType, bytes: Seq<u8>) -> Mp4Error {
    if (match name {
        BoxType::CttsBox | BoxType::StcoBox => bytes.len() < 8,
        BoxType::StszBox => bytes.len() < 12,
        _ => false,
    }) {
        Mp4Error::UnexpectedEof
    } else {
        Mp4Error::InvalidData
    }
}

/// What a recovery has built.
pub ghost struct RecoverSt {
    pub stack: Seq<SpecBox>,
    pub out: Seq<u8>,
}

/// Folds the traversal events of a recovery.
pub open spec fn recover_fold(evs: Seq<Event>) -> RecoverSt
    decreases evs.len(),
{
    if evs.len() == 0 {
        RecoverSt { stack: Seq::empty(), out: Seq::empty() }
    } else {
        let st = recover_fold(evs.drop_last());
        match evs.last() {
            Event::Start { header, .. } => RecoverSt {
                stack: st.stack.push(
                    SpecBox {
                        name: header.name,
                        data: SpecData::Empty,
                        force_longsize: header.longsize,
                    },
                ),
                out: st.out,
            },
            Event::Data { bytes } => if st.stack.len() == 0 {
                st
            } else {
                let top = st.stack.last();
                RecoverSt {
                    stack: st.stack.update(
                        st.stack.len() - 1,
                        SpecBox {
                            name: top.name,
                            data: SpecData::Raw(recover_payload(top.name, bytes)),
                            force_longsize: top.force_longsize,
                        },
                    ),
                    out: st.out,
                }
            },
            Event::End { .. } => if st.stack.len() == 0 {
                st
            } else if st.stack.len() == 1 {
                RecoverSt { stack: st.stack.drop_last(), out: st.out + serial(st.stack.last()) }
            } else {
                let child = st.stack.last();
                let plen = st.stack.len() - 2;
                let parent = st.stack[plen];
                RecoverSt {
                    stack: st.stack.drop_last().update(
                        plen,
                        SpecBox {
                            name: parent.name,
                            data: spec_attach(parent.data, child),
                            force_longsize: parent.force_longsize,
                        },
                    ),
                    out: st.out,
                }
            },
        }
    }
}

/// Rebuilds the tree it is driven over, re-deriving the entry counts of
/// `ctts`, `stsz` and `stco` tables, and writes each completed top-level
/// box out.
pub struct RecoverVisitor {
    /// The boxes still open.
    pub stack: TreeStack,
    /// The bytes written for completed top-level boxes.
    pub out: Vec<u8>,
    /// The events absorbed so far.
    pub events: Ghost<Seq<Event>>,
}

impl RecoverVisitor {
    /// A fresh recovery.
    pub fn new() -> (v: RecoverVisitor)
        ensures
            v.inv(),
            v.taken() == Seq::<Event>::empty(),
    {
        RecoverVisitor { stack: TreeStack::new(), out: Vec::new(), events: Ghost(Seq::empty()) }
    }

    /// The rebuilt file.
    pub fn into_output(self) -> (out: Vec<u8>)
        requires
            self.inv(),
        ensures
            out@ == recover_fold(self.taken()).out,
    {
        self.out
    }
}

impl Mp4Visitor for RecoverVisitor {
    type Config = ();

    open spec fn config(&self) -> () {
        ()
    }

    open spec fn taken(&self) -> Seq<Event> {
        self.events@
    }

    open spec fn inv(&self) -> bool {
        let st = recover_fold(self.events@);
        &&& self.stack.wf()
        &&& self.stack.boxes() == st.stack
        &&& self.out@ == st.out
        &&& evs_wf(self.events@)
        &&& stack_of(self.events@)->Some_0.len() == st.stack.len()
    }

    open spec fn accepts(&self, ev: Event) -> bool {
        recover_probe(self.events@).accepts(ev)
    }

    open spec fn rejection(&self, ev: Event) -> Mp4Error {
        recover_probe(self.events@).rejection(ev)
    }

    fn start_box(&mut self, header: &BoxHeader, corrected_size: Option<u64>) -> (r: Result<
        (),
        Mp4Error,
    >) {
        let ghost ev = Event::Start { header: *header, corrected: corrected_size };
        self.stack.push_new(*header);
        proof {
            self.events@ = self.events@.push(ev);
            assert(self.events@.drop_last() =~= old(self).events@);
            crate::events::lemma_stack_from_push(Seq::empty(), old(self).events@, ev);
        }
        Ok(())
    }

    fn data(&mut self, payload: &[u8]) -> (r: Result<(), Mp4Error>) {
        let ghost ev = Event::Data { bytes: payload@ };
        proof {
            crate::events::lemma_stack_from_push(Seq::empty(), old(self).events@, ev);
        }
        let name = self.stack.top_name();
        let fixed: Vec<u8> = match name {
            BoxType::CttsBox => {
                match fix_table(payload, 0, 8) {
                    Ok(v) => v,
                    Err(e) => {
                        return Err(e);
                    },
                }
            },
            BoxType::StcoBox => {
                match fix_table(payload, 0, 4) {
                    Ok(v) => v,
                    Err(e) => {
                        return Err(e);
                    },
                }
            },
            BoxType::StszBox => {
                match fix_stsz(payload) {
                    Ok(v) => v,
                    Err(e) => {
                        return Err(e);
                    },
                }
            },
            _ => vstd::slice::slice_to_vec(payload),
        };
        if fixed.len() as u64 > u64::MAX - 16 {
            return Err(Mp4Error::InvalidData);
        }
        self.stack.set_top_raw(name, fixed);
        proof {
            self.events@ = self.events@.push(ev);
            assert(self.events@.drop_last() =~= old(self).events@);
        }
        Ok(())
    }

    fn end_box(&mut self, name: BoxType) -> (r: Result<(), Mp4Error>) {
        let ghost ev = Event::End { name };
        proof {
            crate::events::lemma_stack_from_push(Seq::empty(), old(self).events@, ev);
        }
        if self.stack.depth() >= 2 {
            match self.stack.fold_top() {
                Ok(()) => {},
                Err(e) => {
                    return Err(e);
                },
            }
        } else {
            let (root, _) = self.stack.pop_box();
            root.write_to(&mut self.out);
        }
        proof {
            self.events@ = self.events@.push(ev);
            assert(self.events@.drop_last() =~= old(self).events@);
        }
        Ok(())
    }
}

/// Rebuilds the file with `ctts`, `stsz` and `stco` entry counts re-derived
/// from the payload lengths actually present.
pub fn recover(data: Vec<u8>) -> (r: Result<Vec<u8>, Mp4Error>)
    ensures
        ({
            let t = traverse_spec(data@, 0, data@.len() as int);
            match r {
                Ok(out) => t matches TRes::Done(evs) && out@ == recover_fold(evs).out,
                Err(e) => (t matches TRes::Fail(es, k) && e == k) || (exists|i: int|
                    #![trigger events_of(t).take(i)]
                    {
                        let v = recover_probe(events_of(t).take(i));
                        &&& 0 <= i < events_of(t).len()
                        &&& !v.accepts(events_of(t)[i])
                        &&& e == v.rejection(events_of(t)[i])
                    }),
            }
        }),
{
    let len = data.len();
    let mut src = ByteSource::new(data);
    let mut visitor = RecoverVisitor::new();
    match read_box(&mut src, len, &mut visitor) {
        Ok(()) => {
            proof {
                let t = traverse_spec(src.data@, 0, len as int);
                assert(Seq::<Event>::empty() + events_of(t) =~= events_of(t));
            }
            Ok(visitor.into_output())
        },
        Err(e) => {
            proof {
                let t = traverse_spec(src.data@, 0, len as int);
                if !(t is Fail && e == t->Fail_1) {
                    let evs = events_of(t);
                    let i = choose|i: int|
                        #![trigger evs.take(i)]
                        0 <= i < evs.len() && visitor.taken() == Seq::<Event>::empty() + evs.take(i)
                            && !(visitor.accepts(evs[i])) && e == visitor.rejection(evs[i]);
                    assert(Seq::<Event>::empty() + evs.take(i) =~= evs.take(i));
                    assert(visitor.taken() == evs.take(i));
                    assert(recover_probe(evs.take(i)).accepts(evs[i]) == visitor.accepts(evs[i]));
                }
            }
            Err(e)
        },
    }
}

/// The acceptance state a recovery reaches after absorbing `evs`.
pub open spec fn recover_probe(evs: Seq<Event>) -> RecoverProbe {
    RecoverProbe { evs }
}

/// A ghost probe standing for a recovery mid-run.
pub ghost struct RecoverProbe {
    pub evs: Seq<Event>,
}

impl RecoverProbe {
    /// Mirrors [`Mp4Visitor::accepts`] for a recovery.
    pub open spec fn accepts(&self, ev: Event) -> bool {
        let st = recover_fold(self.evs);
        match ev {
            Event::Start { .. } => true,
            Event::Data { bytes } => st.stack.len() > 0 && recover_payload_ok(
                st.stack.last().name,
                bytes,
            ),
            Event::End { .. } => st.stack.len() <= 1 || attach_fits(
                st.stack[st.stack.len() - 2],
                st.stack.last(),
            ),
        }
    }

    /// Mirrors [`Mp4Visitor::rejection`] for a recovery.
    pub open spec fn rejection(&self, ev: Event) -> Mp4Error {
        let st = recover_fold(self.evs);
        match ev {
            Event::Data { bytes } => if st.stack.len() > 0 {
                recover_payload_err(st.stack.last().name, bytes)
            } else {
                Mp4Error::InvalidData
            },
            _ => Mp4Error::InvalidData,
        }
    }
}

} // verus!
