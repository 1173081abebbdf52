//! Lifting a `moov` subtree out of a donor file and rewriting a subject
//! file around it.

use vstd::prelude::*;

use crate::boxtype::{spec_display, BoxType};
use crate::engine::{events_of, read_box, traverse_spec, TRes};
use crate::error::Mp4Error;
use crate::events::{evs_wf, stack_of, Event};
use crate::header::BoxHeader;
use crate::source::ByteSource;
use crate::tree::{
    attach_fits, content_len_of, content_of, serial, size_ok, spec_attach, Mp4Box, SpecBox,
    SpecData, TreeStack,
};
use crate::visitor::Mp4Visitor;

verus! {

/// What a moov search has built: the open boxes, whether the walk stands
/// inside a `moov`, and the found subtree.
pub ghost struct LocSt {
    pub stack: Seq<SpecBox>,
    pub extracting: bool,
    pub moov: Option<SpecBox>,
}

/// Folds the traversal events of a moov search: inside `moov` every leaf
/// payload is captured and children are attached; outside, boxes are walked
/// and dropped.  When a `moov` closes, it becomes the result.
pub open spec fn loc_fold(evs: Seq<Event>) -> LocSt
    decreases evs.len(),
{
    if evs.len() == 0 {
        LocSt { stack: Seq::empty(), extracting: false, moov: None }
    } else {
        let st = loc_fold(evs.drop_last());
        match evs.last() {
            Event::Start { header, .. } => LocSt {
                stack: st.stack.push(
                    SpecBox {
                        name: header.name,
                        data: SpecData::Empty,
                        force_longsize: header.longsize,
                    },
                ),
                extracting: st.extracting || header.name == BoxType::MoovBox,
                moov: st.moov,
            },
            Event::Data { bytes } => if st.extracting && st.stack.len() > 0 {
                let top = st.stack.last();
                LocSt {
                    stack: st.stack.update(
                        st.stack.len() - 1,
                        SpecBox {
                            name: top.name,
                            data: SpecData::Raw(bytes),
                            force_longsize: top.force_longsize,
                        },
                    ),
                    extracting: st.extracting,
                    moov: st.moov,
                }
            } else {
                st
            },
            Event::End { name } => if st.stack.len() == 0 {
                st
            } else {
                let child = st.stack.last();
                let popped = st.stack.drop_last();
                if name == BoxType::MoovBox {
                    LocSt { stack: popped, extracting: false, moov: Some(child) }
                } else if st.extracting && popped.len() >= 1 {
                    let plen = popped.len() - 1;
                    let parent = popped[plen];
                    LocSt {
                        stack: popped.update(
                            plen,
                            SpecBox {
                                name: parent.name,
                                data: spec_attach(parent.data, child),
                                force_longsize: parent.force_longsize,
                            },
                        ),
                        extracting: st.extracting,
                        moov: st.moov,
                    }
                } else {
                    LocSt { stack: popped, extracting: st.extracting, moov: st.moov }
                }
            },
        }
    }
}

/// The display names of a row of boxes, joined by `/`.
pub open spec fn path_of(s: Seq<SpecBox>) -> Seq<u8>
    decreases s.len(),
{
    if s.len() == 0 {
        Seq::empty()
    } else if s.len() == 1 {
        spec_display(s[0].name)
    } else {
        path_of(s.drop_last()) + seq![0x2Fu8] + spec_display(s.last().name)
    }
}

/// Scans a file and materializes its first `moov` subtree, every leaf
/// payload included.
pub struct MoovLocatorVisitor {
    /// The boxes still open.
    pub stack: TreeStack,
    /// Whether the walk stands inside a `moov` box.
    pub extracting_moov: bool,
    /// The found subtree.
    pub moov: Option<Mp4Box>,
    /// The events absorbed so far.
    pub events: Ghost<Seq<Event>>,
}

impl MoovLocatorVisitor {
    /// A fresh search.
    pub fn new() -> (v: MoovLocatorVisitor)
        ensures
            v.inv(),
            v.taken() == Seq::<Event>::empty(),
    {
        MoovLocatorVisitor {
            stack: TreeStack::new(),
            extracting_moov: false,
            moov: None,
            events: Ghost(Seq::empty()),
        }
    }

    /// The boxes currently open, as a `/`-joined path of display names.
    pub fn current_path(&self) -> (out: Vec<u8>)
        requires
            self.inv(),
        ensures
            out@ == path_of(loc_fold(self.taken()).stack),
    {
        let ghost boxes = self.stack.boxes();
        proof {
            crate::tree::lemma_boxes_view_index(self.stack.nodes@);
        }
        let mut out: Vec<u8> = Vec::new();
        let mut i: usize = 0;
        proof {
            assert(boxes.take(0) =~= Seq::<SpecBox>::empty());
        }
        while i < self.stack.nodes.len()
            invariant
                self.inv(),
                boxes == self.stack.boxes(),
                boxes.len() == self.stack.nodes@.len(),
                forall|j: int| 0 <= j < boxes.len() ==> #[trigger] boxes[j] == self.stack.nodes@[j]@,
                i <= boxes.len(),
                out@ == path_of(boxes.take(i as int)),
            decreases boxes.len() - i,
        {
            if i > 0 {
                out.push(0x2F);  // '/'
            }
            self.stack.nodes[i].name.push_display(&mut out);
            proof {
                let t1 = boxes.take(i as int + 1);
                assert(t1.drop_last() =~= boxes.take(i as int));
                assert(t1.last() == boxes[i as int]);
                if i == 0 {
                    assert(out@ =~= path_of(t1));
                } else {
                    assert(out@ =~= path_of(boxes.take(i as int)) + seq![0x2Fu8] + spec_display(
                        boxes[i as int].name,
                    ));
                }
            }
            i = i + 1;
        }
        proof {
            assert(boxes.take(boxes.len() as int) =~= boxes);
        }
        out
    }

    /// The found `moov` subtree, if the file held one.
    pub fn into_moov(self) -> (m: Option<Mp4Box>)
        requires
            self.inv(),
        ensures
            match m {
                Some(b) => loc_fold(self.taken()).moov == Some(b@) && size_ok(b@),
                None => loc_fold(self.taken()).moov is None,
            },
    {
        self.moov
    }
}

impl Mp4Visitor for MoovLocatorVisitor {
    type Config = ();

    open spec fn config(&self) -> () {
        ()
    }

    open spec fn taken(&self) -> Seq<Event> {
        self.events@
    }

    open spec fn inv(&self) -> bool {
        let st = loc_fold(self.events@);
        &&& self.stack.wf()
        &&& self.stack.boxes() == st.stack
        &&& self.extracting_moov == st.extracting
        &&& (match self.moov {
            Some(b) => st.moov == Some(b@) && size_ok(b@),
            None => st.moov is None,
        })
        &&& evs_wf(self.events@)
        &&& stack_of(self.events@)->Some_0.len() == st.stack.len()
    }

    open spec fn accepts(&self, ev: Event) -> bool {
        loc_probe(self.events@).accepts(ev)
    }

    open spec fn rejection(&self, ev: Event) -> Mp4Error {
        Mp4Error::InvalidData
    }

    fn start_box(&mut self, header: &BoxHeader, corrected_size: Option<u64>) -> (r: Result<
        (),
        Mp4Error,
    >) {
        let ghost ev = Event::Start { header: *header, corrected: corrected_size };
        if header.name == BoxType::MoovBox {
            self.extracting_moov = true;
        }
        self.stack.push_new(*header);
        proof {
            self.events@ = self.events@.push(ev);
            assert(self.events@.drop_last() =~= old(self).events@);
            crate::events::lemma_stack_from_push(Seq::empty(), old(self).events@, ev);
        }
        Ok(())
    }

    fn data(&mut self, payload: &[u8]) -> (r: Result<(), Mp4Error>) {
        let ghost ev = Event::Data { bytes: payload@ };
        proof {
            crate::events::lemma_stack_from_push(Seq::empty(), old(self).events@, ev);
        }
        if self.extracting_moov {
            if payload.len() as u64 > u64::MAX - 16 {
                return Err(Mp4Error::InvalidData);
            }
            let name = self.stack.top_name();
            self.stack.set_top_raw(name, vstd::slice::slice_to_vec(payload));
        }
        proof {
            self.events@ = self.events@.push(ev);
            assert(self.events@.drop_last() =~= old(self).events@);
        }
        Ok(())
    }

    fn end_box(&mut self, name: BoxType) -> (r: Result<(), Mp4Error>) {
        let ghost ev = Event::End { name };
        proof {
            crate::events::lemma_stack_from_push(Seq::empty(), old(self).events@, ev);
        }
        if name == BoxType::MoovBox {
            let (exit, _) = self.stack.pop_box();
            self.moov = Some(exit);
            self.extracting_moov = false;
        } else if self.extracting_moov && self.stack.depth() >= 2 {
            match self.stack.fold_top() {
                Ok(()) => {},
                Err(e) => {
                    return Err(e);
                },
            }
        } else {
            let _ = self.stack.pop_box();
        }
        proof {
            self.events@ = self.events@.push(ev);
            assert(self.events@.drop_last() =~= old(self).events@);
        }
        Ok(())
    }
}

/// What a transplant has built: the open boxes, whether the walk stands
/// inside the subject's own `moov` (whose content is being discarded),
/// whether a `moov` was seen at all, and the bytes already written.
pub ghost struct TransSt {
    pub stack: Seq<SpecBox>,
    pub replacing: bool,
    pub found: bool,
    pub out: Seq<u8>,
}

/// Folds the traversal events of a transplant against a donor subtree: a
/// `moov` box becomes the donor, its own payloads are dropped; every other
/// box is rebuilt verbatim.
pub open spec fn trans_fold(evs: Seq<Event>, donor: SpecBox) -> TransSt
    decreases evs.len(),
{
    if evs.len() == 0 {
        TransSt { stack: Seq::empty(), replacing: false, found: false, out: Seq::empty() }
    } else {
        let st = trans_fold(evs.drop_last(), donor);
        match evs.last() {
            Event::Start { header, .. } => if header.name == BoxType::MoovBox {
                TransSt {
                    stack: st.stack.push(donor),
                    replacing: true,
                    found: true,
                    out: st.out,
                }
            } else {
                TransSt {
                    stack: st.stack.push(
                        SpecBox {
                            name: header.name,
                            data: SpecData::Empty,
                            force_longsize: header.longsize,
                        },
                    ),
                    replacing: st.replacing,
                    found: st.found,
                    out: st.out,
                }
            },
            Event::Data { bytes } => if !st.replacing && st.stack.len() > 0 {
                let top = st.stack.last();
                TransSt {
                    stack: st.stack.update(
                        st.stack.len() - 1,
                        SpecBox {
                            name: top.name,
                            data: SpecData::Raw(bytes),
                            force_longsize: top.force_longsize,
                        },
                    ),
                    replacing: st.replacing,
                    found: st.found,
                    out: st.out,
                }
            } else {
                st
            },
            Event::End { name } => {
                let repl = if name == BoxType::MoovBox {
                    false
                } else {
                    st.replacing
                };
                if st.stack.len() == 0 {
                    TransSt { stack: st.stack, replacing: repl, found: st.found, out: st.out }
                } else {
                    let child = st.stack.last();
                    let popped = st.stack.drop_last();
                    if repl {
                        TransSt { stack: popped, replacing: repl, found: st.found, out: st.out }
                    } else if popped.len() >= 1 {
                        let plen = popped.len() - 1;
                        let parent = popped[plen];
                        TransSt {
                            stack: popped.update(
                                plen,
                                SpecBox {
                                    name: parent.name,
                                    data: spec_attach(parent.data, child),
                                    force_longsize: parent.force_longsize,
                                },
                            ),
                            replacing: repl,
                            found: st.found,
                            out: st.out,
                        }
                    } else {
                        TransSt {
                            stack: popped,
                            replacing: repl,
                            found: st.found,
                            out: st.out + serial(child),
                        }
                    }
                }
            },
        }
    }
}

/// Rebuilds the subject file, substituting a pre-extracted donor `moov`
/// subtree for each of the subject's own `moov` boxes.
pub struct MoovTransplantVisitor {
    /// The donor subtree.
    pub moov_box: Mp4Box,
    /// The donor subtree's content length.
    pub moov_csize: u64,
    /// The boxes still open.
    pub stack: TreeStack,
    /// Whether the walk stands inside the subject's own `moov`.
    pub replacing_moov: bool,
    /// Whether the subject held a `moov` at all.
    pub found_moov: bool,
    /// The bytes written for completed top-level boxes.
    pub out: Vec<u8>,
    /// The events absorbed so far.
    pub events: Ghost<Seq<Event>>,
}

impl MoovTransplantVisitor {
    /// A transplant that will substitute `moov_box`.
    pub fn new(moov_box: Mp4Box) -> (v: MoovTransplantVisitor)
        requires
            size_ok(moov_box@),
        ensures
            v.inv(),
            v.taken() == Seq::<Event>::empty(),
            v.moov_box@ == moov_box@,
            !v.found_moov,
    {
        let moov_csize = content_len_of(&moov_box);
        MoovTransplantVisitor {
            moov_box,
            moov_csize,
            stack: TreeStack::new(),
            replacing_moov: false,
            found_moov: false,
            out: Vec::new(),
            events: Ghost(Seq::empty()),
        }
    }

    /// Appends the donor `moov` at the end of the output when the subject
    /// itself held none: the file gains a `moov` instead of keeping none.
    pub fn finish(&mut self)
        requires
            size_ok(old(self).moov_box@),
        ensures
            final(self).out@ == old(self).out@ + (if old(self).found_moov {
                Seq::<u8>::empty()
            } else {
                serial(old(self).moov_box@)
            }),
            final(self).found_moov == old(self).found_moov,
            final(self).moov_box@ == old(self).moov_box@,
    {
        if !self.found_moov {
            self.moov_box.write_to(&mut self.out);
        } else {
            proof {
                assert(old(self).out@ + Seq::<u8>::empty() =~= old(self).out@);
            }
        }
    }

    /// The rebuilt file.
    pub fn into_output(self) -> (out: Vec<u8>)
        ensures
            out@ == self.out@,
    {
        self.out
    }
}

impl Mp4Visitor for MoovTransplantVisitor {
    type Config = SpecBox;

    open spec fn config(&self) -> SpecBox {
        self.moov_box@
    }

    open spec fn taken(&self) -> Seq<Event> {
        self.events@
    }

    open spec fn inv(&self) -> bool {
        let st = trans_fold(self.events@, self.moov_box@);
        &&& self.stack.wf()
        &&& self.stack.boxes() == st.stack
        &&& self.replacing_moov == st.replacing
        &&& self.found_moov == st.found
        &&& self.out@ == st.out
        &&& size_ok(self.moov_box@)
        &&& self.moov_csize as int == content_of(self.moov_box@.data).len()
        &&& evs_wf(self.events@)
        &&& stack_of(self.events@)->Some_0.len() == st.stack.len()
    }

    open spec fn accepts(&self, ev: Event) -> bool {
        trans_probe(self.events@, self.moov_box@).accepts(ev)
    }

    open spec fn rejection(&self, ev: Event) -> Mp4Error {
        Mp4Error::InvalidData
    }

    fn start_box(&mut self, header: &BoxHeader, corrected_size: Option<u64>) -> (r: Result<
        (),
        Mp4Error,
    >) {
        let ghost ev = Event::Start { header: *header, corrected: corrected_size };
        if header.name == BoxType::MoovBox {
            self.found_moov = true;
            self.replacing_moov = true;
            let clone = self.moov_box.deep_clone();
            self.stack.push_box(clone, self.moov_csize);
        } else {
            self.stack.push_new(*header);
        }
        proof {
            self.events@ = self.events@.push(ev);
            assert(self.events@.drop_last() =~= old(self).events@);
            crate::events::lemma_stack_from_push(Seq::empty(), old(self).events@, ev);
        }
        Ok(())
    }

    fn data(&mut self, payload: &[u8]) -> (r: Result<(), Mp4Error>) {
        let ghost ev = Event::Data { bytes: payload@ };
        proof {
            crate::events::lemma_stack_from_push(Seq::empty(), old(self).events@, ev);
        }
        if !self.replacing_moov {
            if payload.len() as u64 > u64::MAX - 16 {
                return Err(Mp4Error::InvalidData);
            }
            let name = self.stack.top_name();
            self.stack.set_top_raw(name, vstd::slice::slice_to_vec(payload));
        }
        proof {
            self.events@ = self.events@.push(ev);
            assert(self.events@.drop_last() =~= old(self).events@);
        }
        Ok(())
    }

    fn end_box(&mut self, name: BoxType) -> (r: Result<(), Mp4Error>) {
        let ghost ev = Event::End { name };
        proof {
            crate::events::lemma_stack_from_push(Seq::empty(), old(self).events@, ev);
        }
        let repl = if name == BoxType::MoovBox {
            false
        } else {
            self.replacing_moov
        };
        if repl {
            let _ = self.stack.pop_box();
        } else if self.stack.depth() >= 2 {
            match self.stack.fold_top() {
                Ok(()) => {},
                Err(e) => {
                    return Err(e);
                },
            }
        } else {
            let (root, _) = self.stack.pop_box();
            root.write_to(&mut self.out);
        }
        self.replacing_moov = repl;
        proof {
            self.events@ = self.events@.push(ev);
            assert(self.events@.drop_last() =~= old(self).events@);
        }
        Ok(())
    }
}

/// Rewrites `subject` with the `moov` subtree of `donor` substituted for
/// the subject's own, or appended at the end when the subject has none.
/// A donor without a `moov` is refused before any output exists.
pub fn transplant(donor: Vec<u8>, subject: Vec<u8>) -> (r: Result<Vec<u8>, Mp4Error>)
    ensures
        ({
            let td = traverse_spec(donor@, 0, donor@.len() as int);
            let ts = traverse_spec(subject@, 0, subject@.len() as int);
            match r {
                Ok(out) => td matches TRes::Done(devs) && loc_fold(devs).moov matches Some(m) && (
                ts matches TRes::Done(sevs) && {
                    let st = trans_fold(sevs, m);
                    out@ == st.out + (if st.found {
                        Seq::<u8>::empty()
                    } else {
                        serial(m)
                    })
                }),
                Err(e) => {
                    ||| (td matches TRes::Fail(es, k) && e == k)
                    ||| (exists|i: int|
                        #![trigger events_of(td).take(i)]
                        0 <= i < events_of(td).len() && !(loc_probe(events_of(td).take(i)).accepts(
                            events_of(td)[i],
                        )) && e == Mp4Error::InvalidData)
                    ||| (td is Done && loc_fold(events_of(td)).moov is None && e
                        == Mp4Error::MissingMoov)
                    ||| (td is Done && (match loc_fold(events_of(td)).moov {
                        Some(m) => {
                            ||| (ts matches TRes::Fail(es, k) && e == k)
                            ||| (exists|i: int|
                                #![trigger events_of(ts).take(i)]
                                0 <= i < events_of(ts).len() && !(trans_probe(
                                    events_of(ts).take(i),
                                    m,
                                ).accepts(events_of(ts)[i])) && e == Mp4Error::InvalidData)
                        },
                        None => false,
                    }))
                },
            }
        }),
{
    let dlen = donor.len();
    let mut dsrc = ByteSource::new(donor);
    let mut locator = MoovLocatorVisitor::new();
    match read_box(&mut dsrc, dlen, &mut locator) {
        Ok(()) => {},
        Err(e) => {
            proof {
                let td = traverse_spec(dsrc.data@, 0, dlen as int);
                if !(td is Fail && e == td->Fail_1) {
                    let evs = events_of(td);
                    let i = choose|i: int|
                        #![trigger evs.take(i)]
                        0 <= i < evs.len() && locator.taken() == Seq::<Event>::empty() + evs.take(i)
                            && !(locator.accepts(evs[i])) && e == locator.rejection(evs[i]);
                    assert(Seq::<Event>::empty() + evs.take(i) =~= evs.take(i));
                    assert(locator.taken() == evs.take(i));
                    assert(loc_probe(evs.take(i)).accepts(evs[i]) == locator.accepts(evs[i]));
                }
            }
            return Err(e);
        },
    }
    proof {
        let td = traverse_spec(dsrc.data@, 0, dlen as int);
        assert(Seq::<Event>::empty() + events_of(td) =~= events_of(td));
    }
    let moov_box = match locator.into_moov() {
        Some(b) => b,
        None => {
            return Err(Mp4Error::MissingMoov);
        },
    };

    let slen = subject.len();
    let mut ssrc = ByteSource::new(subject);
    let mut visitor = MoovTransplantVisitor::new(moov_box);
    match read_box(&mut ssrc, slen, &mut visitor) {
        Ok(()) => {},
        Err(e) => {
            proof {
                let ts = traverse_spec(ssrc.data@, 0, slen as int);
                if !(ts is Fail && e == ts->Fail_1) {
                    let evs = events_of(ts);
                    let i = choose|i: int|
                        #![trigger evs.take(i)]
                        0 <= i < evs.len() && visitor.taken() == Seq::<Event>::empty() + evs.take(i)
                            && !(visitor.accepts(evs[i])) && e == visitor.rejection(evs[i]);
                    assert(Seq::<Event>::empty() + evs.take(i) =~= evs.take(i));
                    assert(visitor.taken() == evs.take(i));
                    assert(trans_probe(evs.take(i), visitor.moov_box@).accepts(evs[i])
                        == visitor.accepts(evs[i]));
                }
            }
            return Err(e);
        },
    }
    proof {
        let ts = traverse_spec(ssrc.data@, 0, slen as int);
        assert(Seq::<Event>::empty() + events_of(ts) =~= events_of(ts));
    }
    visitor.finish();
    Ok(visitor.into_output())
}

/// The acceptance state a moov search reaches after absorbing `evs`.
pub open spec fn loc_probe(evs: Seq<Event>) -> LocProbe {
    LocProbe { evs }
}

/// A ghost probe standing for a moov search mid-run.
pub ghost struct LocProbe {
    pub evs: Seq<Event>,
}

impl LocProbe {
    /// Mirrors [`Mp4Visitor::accepts`] for a moov search.
    pub open spec fn accepts(&self, ev: Event) -> bool {
        let st = loc_fold(self.evs);
        match ev {
            Event::Start { .. } => true,
            Event::Data { bytes } => !(st.extracting && st.stack.len() > 0) || bytes.len()
                <= u64::MAX - 16,
            Event::End { name } => {
                ||| st.stack.len() == 0
                ||| name == BoxType::MoovBox
                ||| !(st.extracting && st.stack.len() >= 2)
                ||| attach_fits(st.stack[st.stack.len() - 2], st.stack.last())
            },
        }
    }
}

/// The acceptance state a transplant against `donor` reaches after
/// absorbing `evs`.
pub open spec fn trans_probe(evs: Seq<Event>, donor: SpecBox) -> TransProbe {
    TransProbe { evs, donor }
}

/// A ghost probe standing for a transplant mid-run.
pub ghost struct TransProbe {
    pub evs: Seq<Event>,
    pub donor: SpecBox,
}

impl TransProbe {
    /// Mirrors [`Mp4Visitor::accepts`] for a transplant.
    pub open spec fn accepts(&self, ev: Event) -> bool {
        let st = trans_fold(self.evs, self.donor);
        match ev {
            Event::Start { .. } => true,
            Event::Data { bytes } => !(!st.replacing && st.stack.len() > 0) || bytes.len()
                <= u64::MAX - 16,
            Event::End { name } => {
                let repl = if name == BoxType::MoovBox {
                    false
                } else {
                    st.replacing
                };
                ||| st.stack.len() == 0
                ||| repl
                ||| st.stack.len() == 1
                ||| attach_fits(st.stack[st.stack.len() - 2], st.stack.last())
            },
        }
    }
}

} // verus!
