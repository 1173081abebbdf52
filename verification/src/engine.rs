//! The streaming traversal engine over the box grammar.

use vstd::prelude::*;

use crate::boxtype::{spec_leaf, spec_valid};
use crate::error::Mp4Error;
use crate::events::{evs_wf, lemma_stack_from_push, stack_of, Event};
use crate::header::{lemma_parse_header_props, parse_header, read_header, BoxHeader, HeaderStep};
use crate::source::ByteSource;
use crate::visitor::Mp4Visitor;

verus! {

/// What traversing one level of the tree yields: the events of the level in
/// document order, or the events emitted before a read failed, with the
/// failure.
pub ghost enum TRes {
    Done(Seq<Event>),
    Fail(Seq<Event>, Mp4Error),
}

/// The events a traversal result carries.
pub open spec fn events_of(r: TRes) -> Seq<Event> {
    match r {
        TRes::Done(e) => e,
        TRes::Fail(e, _) => e,
    }
}

/// Prepends events that were emitted before `r`.
pub open spec fn tres_prepend(evs: Seq<Event>, r: TRes) -> TRes {
    match r {
        TRes::Done(e) => TRes::Done(evs + e),
        TRes::Fail(e, k) => TRes::Fail(evs + e, k),
    }
}

/// Prepending twice is prepending the concatenation.
pub proof fn lemma_tres_prepend_assoc(a: Seq<Event>, b: Seq<Event>, r: TRes)
    ensures
        tres_prepend(a, tres_prepend(b, r)) == tres_prepend(a + b, r),
{
    match r {
        TRes::Done(e) => {
            assert(a + (b + e) =~= (a + b) + e);
        },
        TRes::Fail(e, _) => {
            assert(a + (b + e) =~= (a + b) + e);
        },
    }
}

/// Where a box that starts at `pos` ends, given the container's end.
///
/// A declared size of `0` is the content-to-end sentinel: the box runs to
/// the container's end.  A declared end past the container is clamped to it.
/// A declared size too small to cover the header itself yields an empty
/// content range.
pub open spec fn spec_box_end(pos: int, hlen: int, size: u64, end: int) -> int {
    let declared = if size == 0 {
        end
    } else {
        pos + size
    };
    let capped = if declared > end {
        end
    } else {
        declared
    };
    if capped < pos + hlen {
        pos + hlen
    } else {
        capped
    }
}

/// The corrected total size announced for a box whose declared size
/// overflows its container, `None` otherwise.
pub open spec fn spec_corrected(pos: int, size: u64, end: int) -> Option<u64> {
    if size != 0 && pos + size > end {
        Some((end - pos) as u64)
    } else {
        None
    }
}

/// The events of traversing the boxes spelled in `data[pos..end]`.
///
/// Each box yields `Start`, then for a leaf one `Data` event with its
/// payload, for a container the events of its children, then `End`.  A
/// header naming an invalid type ends the level quietly: the rest of the
/// range is skipped.  A header that cannot be read fails the traversal with
/// the events emitted so far.
#[verifier::opaque]
pub open spec fn traverse_spec(data: Seq<u8>, pos: int, end: int) -> TRes
    decreases (if pos < end { end - pos } else { 0 }), (if pos < end { 1int } else { 0 }),
{
    if pos >= end {
        TRes::Done(Seq::empty())
    } else {
        match parse_header(data, pos) {
            HeaderStep::TooShort => TRes::Fail(Seq::empty(), Mp4Error::UnexpectedEof),
            HeaderStep::BadLargesize => TRes::Fail(Seq::empty(), Mp4Error::InvalidData),
            HeaderStep::Parsed { header, hlen } => {
                if !spec_valid(header.name) {
                    TRes::Done(Seq::empty())
                } else {
                    proof {
                        lemma_parse_header_props(data, pos);
                    }
                    let content_start = pos + hlen;
                    let box_end = spec_box_end(pos, hlen, header.size, end);
                    let next = if box_end > end {
                        end
                    } else {
                        box_end
                    };
                    let start_ev = Event::Start {
                        header,
                        corrected: spec_corrected(pos, header.size, end),
                    };
                    let end_ev = Event::End { name: header.name };
                    if spec_leaf(header.name) {
                        let data_ev = Event::Data {
                            bytes: data.subrange(content_start, box_end),
                        };
                        tres_prepend(
                            seq![start_ev, data_ev, end_ev],
                            traverse_spec(data, next, end),
                        )
                    } else {
                        match traverse_spec(data, content_start, box_end) {
                            TRes::Fail(es, k) => TRes::Fail(seq![start_ev] + es, k),
                            TRes::Done(es) => tres_prepend(
                                seq![start_ev] + es + seq![end_ev],
                                traverse_spec(data, next, end),
                            ),
                        }
                    }
                }
            },
        }
    }
}


/// How one parsed, valid box unfolds the traversal at `pos`: its events are
/// the box's own, followed by the traversal of the rest of the level.
pub proof fn lemma_step_parsed(data: Seq<u8>, pos: int, end: int, header: BoxHeader, hlen: int)
    requires
        pos < end,
        parse_header(data, pos) == (HeaderStep::Parsed { header, hlen }),
        spec_valid(header.name),
    ensures
        ({
            let content_start = pos + hlen;
            let box_end = spec_box_end(pos, hlen, header.size, end);
            let next = if box_end > end { end } else { box_end };
            let start_ev = Event::Start { header, corrected: spec_corrected(pos, header.size, end) };
            let end_ev = Event::End { name: header.name };
            let data_ev = Event::Data { bytes: data.subrange(content_start, box_end) };
            let t = traverse_spec(data, pos, end);
            let t_next = traverse_spec(data, next, end);
            let t_child = traverse_spec(data, content_start, box_end);
            &&& (spec_leaf(header.name) ==> t == tres_prepend(seq![start_ev, data_ev, end_ev], t_next)
                && events_of(t) == seq![start_ev, data_ev, end_ev] + events_of(t_next))
            &&& (!spec_leaf(header.name) ==> (match t_child {
                TRes::Fail(es, k) => t == TRes::Fail(seq![start_ev] + es, k)
                    && events_of(t) == seq![start_ev] + es,
                TRes::Done(es) => t == tres_prepend(seq![start_ev] + es + seq![end_ev], t_next)
                    && events_of(t) == seq![start_ev] + es + seq![end_ev] + events_of(t_next),
            }))
            &&& events_of(t).len() >= 1 && events_of(t)[0] == start_ev
        }),
{
    reveal(traverse_spec);
    // the two shapes of the container case are told apart by the child's
    // own result
    if !spec_leaf(header.name) {
        match traverse_spec(data, pos + hlen, spec_box_end(pos, hlen, header.size, end)) {
            TRes::Fail(..) => {},
            TRes::Done(..) => {},
        }
    }
}

/// An empty range traverses to no events.
pub proof fn lemma_traverse_empty(data: Seq<u8>, pos: int, end: int)
    requires
        pos >= end,
    ensures
        traverse_spec(data, pos, end) == TRes::Done(Seq::<Event>::empty()),
{
    reveal(traverse_spec);
}

/// A range that opens with an unreadable or invalid header.
pub proof fn lemma_step_stopped(data: Seq<u8>, pos: int, end: int)
    requires
        pos < end,
    ensures
        parse_header(data, pos) is TooShort ==> traverse_spec(data, pos, end) == TRes::Fail(
            Seq::<Event>::empty(),
            Mp4Error::UnexpectedEof,
        ),
        parse_header(data, pos) is BadLargesize ==> traverse_spec(data, pos, end) == TRes::Fail(
            Seq::<Event>::empty(),
            Mp4Error::InvalidData,
        ),
        (parse_header(data, pos) matches HeaderStep::Parsed { header, .. } && !spec_valid(
            header.name,
        )) ==> traverse_spec(data, pos, end) == TRes::Done(Seq::<Event>::empty()),
{
    reveal(traverse_spec);
}

/// Packages the witness that a visitor refused the `i`-th event of `t`.
pub proof fn lemma_witness<V: Mp4Visitor>(v: &V, base: Seq<Event>, t: TRes, i: int, e: Mp4Error)
    requires
        0 <= i < events_of(t).len(),
        v.taken() == base + events_of(t).take(i),
        !(v.accepts(events_of(t)[i])),
        e == v.rejection(events_of(t)[i]),
    ensures
        exists|j: int|
            #![trigger events_of(t).take(j)]
            0 <= j < events_of(t).len() && v.taken() == base + events_of(t).take(j) && !(v.accepts(
                events_of(t)[j],
            )) && e == v.rejection(events_of(t)[j]),
{
}

/// Events that `new` absorbed beyond `old`, assuming `old` is a prefix.
pub open spec fn taken_delta(old_t: Seq<Event>, new_t: Seq<Event>) -> Seq<Event> {
    new_t.skip(old_t.len() as int)
}

/// A prepended result carries the prepended events in front of its own.
pub proof fn lemma_events_of_prepend(evs: Seq<Event>, r: TRes)
    ensures
        events_of(tres_prepend(evs, r)) == evs + events_of(r),
{
}

/// Reads the one box whose header stands at the source's position, bounded
/// by the container end `end`, and drives `visitor` over it.  A header that
/// fails the validity gate skips to `end` instead.
///
/// On success the source has advanced and the visitor has absorbed the
/// events of this box exactly: the remaining traversal of the level is what
/// [`traverse_spec`] says it is.  On an error, either the header could not
/// be read, or the visitor refused one of the box's events.
#[verifier::rlimit(100)]
#[verifier::spinoff_prover]
fn read_one_box<V: Mp4Visitor>(src: &mut ByteSource, end: usize, visitor: &mut V) -> (r: Result<
    (),
    Mp4Error,
>)
    requires
        old(src).pos < end,
        end <= old(src).data@.len(),
        old(visitor).inv(),
        evs_wf(old(visitor).taken()),
    ensures
        final(src).data@ == old(src).data@,
        final(visitor).inv(),
        final(visitor).config() == old(visitor).config(),
        ({
            let t = traverse_spec(old(src).data@, old(src).pos as int, end as int);
            let delta = taken_delta(old(visitor).taken(), final(visitor).taken());
            &&& (r is Ok ==> final(visitor).taken() == old(visitor).taken() + delta
                && stack_of(final(visitor).taken()) == stack_of(old(visitor).taken())
                && old(src).pos < final(src).pos <= end
                && t == tres_prepend(delta, traverse_spec(old(src).data@, final(src).pos as int, end as int)))
            &&& (r matches Err(e) ==> ((t matches TRes::Fail(es, k) && e == k
                && final(visitor).taken() == old(visitor).taken() + es) || (exists|i: int|
                #![trigger events_of(t).take(i)]
                0 <= i < events_of(t).len() && final(visitor).taken() == old(visitor).taken()
                    + events_of(t).take(i) && !(final(visitor).accepts(events_of(t)[i])) && e
                    == final(visitor).rejection(events_of(t)[i]))))
        }),
    decreases end - old(src).pos, 1int,
{
    let ghost data0 = src.data@;
    let ghost pos0 = src.pos as int;
    let ghost taken0 = visitor.taken();
    let ghost t_cur = traverse_spec(data0, pos0, end as int);
    let current = src.pos;
    proof {
        lemma_step_stopped(data0, pos0, end as int);
    }

    let header = match read_header(src) {
        Ok(h) => h,
        Err(e) => {
            proof {
                assert(taken0 + Seq::<Event>::empty() =~= taken0);
            }
            return Err(e);
        },
    };
    let ghost hlen = src.pos - current;
    proof {
        lemma_parse_header_props(data0, pos0);
    }

    // A header whose type fails the validity gate means the rest of this
    // level is garbage: skip to the container's end.
    if !header.name.validate() {
        src.pos = end;
        proof {
            lemma_traverse_empty(data0, end as int, end as int);
            assert(taken_delta(taken0, taken0) =~= Seq::<Event>::empty());
            assert(taken0 + Seq::<Event>::empty() =~= taken0);
            assert(Seq::<Event>::empty() + Seq::<Event>::empty() =~= Seq::<Event>::empty());
        }
        return Ok(());
    }
    let content_start = src.pos;

    // Where this box ends: a size of 0 runs to the container's end; a
    // declared end past the container is clamped and announced as
    // corrected; a size too small for its own header leaves no content.
    let remaining = (end - current) as u64;
    let mut corrected: Option<u64> = None;
    let box_end_capped: usize;
    if header.size == 0 {
        box_end_capped = end;
    } else if header.size > remaining {
        corrected = Some(remaining);
        box_end_capped = end;
    } else {
        box_end_capped = current + (header.size as usize);
    }
    let box_end = if box_end_capped < content_start {
        content_start
    } else {
        box_end_capped
    };
    let next = if box_end > end {
        end
    } else {
        box_end
    };
    proof {
        assert(box_end as int == spec_box_end(pos0, hlen, header.size, end as int));
        assert(corrected == spec_corrected(pos0, header.size, end as int));
        lemma_step_parsed(data0, pos0, end as int, header, hlen);
    }

    match visitor.start_box(&header, corrected) {
        Ok(()) => {},
        Err(e) => {
            proof {
                let ghost start_ev = Event::Start { header, corrected };
                assert(events_of(t_cur).take(0) =~= Seq::<Event>::empty());
                assert(taken0 + events_of(t_cur).take(0) =~= taken0);
                assert(events_of(t_cur)[0] == start_ev);
                lemma_witness(visitor, taken0, t_cur, 0, e);
            }
            return Err(e);
        },
    }

    let r = if header.name.is_leaf() {
        leaf_box(src, visitor, header, corrected, content_start, box_end, next, end, Ghost(pos0), Ghost(taken0))
    } else {
        container_box(src, visitor, header, corrected, content_start, box_end, next, end, Ghost(pos0), Ghost(taken0))
    };
    r
}

/// Hands a leaf box's payload to the visitor and closes the box.
#[verifier::rlimit(100)]
#[verifier::spinoff_prover]
fn leaf_box<V: Mp4Visitor>(
    src: &mut ByteSource,
    visitor: &mut V,
    header: BoxHeader,
    corrected: Option<u64>,
    content_start: usize,
    box_end: usize,
    next: usize,
    end: usize,
    Ghost(pos_box): Ghost<int>,
    Ghost(taken0): Ghost<Seq<Event>>,
) -> (r: Result<(), Mp4Error>)
    requires
        pos_box < end,
        end <= old(src).data@.len(),
        parse_header(old(src).data@, pos_box) == (HeaderStep::Parsed {
            header,
            hlen: content_start - pos_box,
        }),
        spec_valid(header.name),
        spec_leaf(header.name),
        pos_box < content_start,
        old(src).pos == content_start,
        box_end as int == spec_box_end(
            pos_box,
            content_start - pos_box,
            header.size,
            end as int,
        ),
        box_end <= old(src).data@.len(),
        corrected == spec_corrected(pos_box, header.size, end as int),
        next == (if box_end > end { end } else { box_end }),
        old(visitor).inv(),
        evs_wf(taken0),
        old(visitor).taken() == taken0.push(
            Event::Start { header, corrected },
        ),
    ensures
        final(src).data@ == old(src).data@,
        final(visitor).inv(),
        final(visitor).config() == old(visitor).config(),
        ({
            let t = traverse_spec(old(src).data@, pos_box, end as int);
            let delta = taken_delta(taken0, final(visitor).taken());
            &&& (r is Ok ==> final(visitor).taken() == taken0 + delta
                && stack_of(final(visitor).taken()) == stack_of(taken0)
                && final(src).pos == next
                && t == tres_prepend(delta, traverse_spec(old(src).data@, next as int, end as int)))
            &&& (r matches Err(e) ==> ((t matches TRes::Fail(es, k) && e == k
                && final(visitor).taken() == taken0 + es) || (exists|i: int|
                #![trigger events_of(t).take(i)]
                0 <= i < events_of(t).len()
                    && final(visitor).taken() == taken0 + events_of(t).take(i)
                    && !(final(visitor).accepts(events_of(t)[i]))
                    && e == final(visitor).rejection(events_of(t)[i]))))
        }),
{
    let ghost data0 = src.data@;
    let ghost hlen = content_start - pos_box;
    let ghost t_cur = traverse_spec(data0, pos_box, end as int);
    let ghost t_next = traverse_spec(data0, next as int, end as int);
    let ghost start_ev = Event::Start { header, corrected };
    let ghost end_ev = Event::End { name: header.name };
    let ghost data_ev = Event::Data {
        bytes: data0.subrange(content_start as int, box_end as int),
    };
    let ghost stack0 = stack_of(taken0)->Some_0;
    proof {
        lemma_step_parsed(data0, pos_box, end as int, header, hlen);
        lemma_stack_from_push(Seq::empty(), taken0, start_ev);
    }
    let payload = vstd::slice::slice_subrange(src.data.as_slice(), content_start, box_end);
    match visitor.data(payload) {
        Ok(()) => {},
        Err(e) => {
            proof {
                assert(events_of(t_cur).take(1) =~= seq![start_ev]);
                assert(taken0.push(start_ev) =~= taken0 + events_of(t_cur).take(1));
                assert(events_of(t_cur)[1] == data_ev);
                lemma_witness(visitor, taken0, t_cur, 1, e);
            }
            return Err(e);
        },
    }
    src.pos = next;
    proof {
        lemma_stack_from_push(Seq::empty(), taken0.push(start_ev), data_ev);
    }
    match visitor.end_box(header.name) {
        Ok(()) => {},
        Err(e) => {
            proof {
                assert(events_of(t_cur).take(2) =~= seq![start_ev, data_ev]);
                assert(taken0.push(start_ev).push(data_ev) =~= taken0 + events_of(t_cur).take(2));
                assert(events_of(t_cur)[2] == end_ev);
                lemma_witness(visitor, taken0, t_cur, 2, e);
            }
            return Err(e);
        },
    }
    proof {
        lemma_stack_from_push(Seq::empty(), taken0.push(start_ev).push(data_ev), end_ev);
        assert(stack0.push(header.name).drop_last() =~= stack0);
        let box_evs = seq![start_ev, data_ev, end_ev];
        assert(visitor.taken() =~= taken0 + box_evs);
        assert(taken_delta(taken0, taken0 + box_evs) =~= box_evs);
    }
    Ok(())
}

/// Recurses into a container box's children and closes the box.
#[verifier::rlimit(100)]
#[verifier::spinoff_prover]
fn container_box<V: Mp4Visitor>(
    src: &mut ByteSource,
    visitor: &mut V,
    header: BoxHeader,
    corrected: Option<u64>,
    content_start: usize,
    box_end: usize,
    next: usize,
    end: usize,
    Ghost(pos_box): Ghost<int>,
    Ghost(taken0): Ghost<Seq<Event>>,
) -> (r: Result<(), Mp4Error>)
    requires
        pos_box < end,
        end <= old(src).data@.len(),
        parse_header(old(src).data@, pos_box) == (HeaderStep::Parsed {
            header,
            hlen: content_start - pos_box,
        }),
        spec_valid(header.name),
        !spec_leaf(header.name),
        pos_box + 8 <= content_start,
        old(src).pos == content_start,
        box_end as int == spec_box_end(
            pos_box,
            content_start - pos_box,
            header.size,
            end as int,
        ),
        box_end <= old(src).data@.len(),
        content_start <= box_end,
        corrected == spec_corrected(pos_box, header.size, end as int),
        next == (if box_end > end { end } else { box_end }),
        old(visitor).inv(),
        evs_wf(taken0),
        old(visitor).taken() == taken0.push(
            Event::Start { header, corrected },
        ),
    ensures
        final(src).data@ == old(src).data@,
        final(visitor).inv(),
        final(visitor).config() == old(visitor).config(),
        ({
            let t = traverse_spec(old(src).data@, pos_box, end as int);
            let delta = taken_delta(taken0, final(visitor).taken());
            &&& (r is Ok ==> final(visitor).taken() == taken0 + delta
                && stack_of(final(visitor).taken()) == stack_of(taken0)
                && final(src).pos == next
                && t == tres_prepend(delta, traverse_spec(old(src).data@, next as int, end as int)))
            &&& (r matches Err(e) ==> ((t matches TRes::Fail(es, k) && e == k
                && final(visitor).taken() == taken0 + es) || (exists|i: int|
                #![trigger events_of(t).take(i)]
                0 <= i < events_of(t).len()
                    && final(visitor).taken() == taken0 + events_of(t).take(i)
                    && !(final(visitor).accepts(events_of(t)[i]))
                    && e == final(visitor).rejection(events_of(t)[i]))))
        }),
    decreases end - pos_box, 0int,
{
    let ghost data0 = src.data@;
    let ghost hlen = content_start - pos_box;
    let ghost t_cur = traverse_spec(data0, pos_box, end as int);
    let ghost t_next = traverse_spec(data0, next as int, end as int);
    let ghost t_child = traverse_spec(data0, content_start as int, box_end as int);
    let ghost start_ev = Event::Start { header, corrected };
    let ghost end_ev = Event::End { name: header.name };
    let ghost stack0 = stack_of(taken0)->Some_0;
    let ghost taken_pre = old(visitor).taken();
    proof {
        lemma_step_parsed(data0, pos_box, end as int, header, hlen);
        lemma_stack_from_push(Seq::empty(), taken0, start_ev);
    }
    let res = read_box(src, box_end, visitor);
    match res {
        Ok(()) => {},
        Err(e) => {
            proof {
                if t_child is Fail && e == t_child->Fail_1 && visitor.taken() == taken_pre
                    + t_child->Fail_0 {
                    let es = t_child->Fail_0;
                    assert(t_cur == TRes::Fail(seq![start_ev] + es, e));
                    assert(taken_pre + es =~= taken0 + (seq![start_ev] + es));
                } else {
                    let child_evs = events_of(t_child);
                    let ic = choose|ic: int|
                        #![trigger child_evs.take(ic)]
                        0 <= ic < child_evs.len() && visitor.taken() == taken_pre + child_evs.take(
                            ic,
                        ) && !(visitor.accepts(child_evs[ic])) && e == visitor.rejection(
                            child_evs[ic],
                        );
                    let i: int = 1 + ic;
                    assert(events_of(t_cur)[i] == child_evs[ic]);
                    assert(events_of(t_cur).take(i) =~= seq![start_ev] + child_evs.take(ic));
                    assert(visitor.taken() =~= taken0 + events_of(t_cur).take(i));
                    lemma_witness(visitor, taken0, t_cur, i, e);
                }
            }
            return Err(e);
        },
    }
    src.pos = next;
    let ghost child_evs = t_child->Done_0;
    proof {
        assert(visitor.taken() == taken_pre + child_evs);
        assert(stack_of(visitor.taken()) == Some(stack0.push(header.name)));
    }
    match visitor.end_box(header.name) {
        Ok(()) => {},
        Err(e) => {
            proof {
                let i: int = 1 + child_evs.len() as int;
                assert(events_of(t_cur)[i] == end_ev);
                assert(events_of(t_cur).take(i) =~= seq![start_ev] + child_evs);
                assert(visitor.taken() =~= taken0 + events_of(t_cur).take(i));
                lemma_witness(visitor, taken0, t_cur, i, e);
            }
            return Err(e);
        },
    }
    proof {
        lemma_stack_from_push(Seq::empty(), taken_pre + child_evs, end_ev);
        assert(stack0.push(header.name).drop_last() =~= stack0);
        let box_evs = seq![start_ev] + child_evs + seq![end_ev];
        assert(visitor.taken() =~= taken0 + box_evs);
        assert(taken_delta(taken0, taken0 + box_evs) =~= box_evs);
        assert(t_cur == tres_prepend(box_evs, t_next)) by {
            assert(seq![start_ev] + child_evs + seq![end_ev] =~= box_evs);
        };
    }
    Ok(())
}

/// Walks the boxes spelled in `src.data[src.pos..end]` and drives `visitor`
/// over them in document order.
///
/// On success the source stands at `end` and the visitor has absorbed
/// exactly the events of [`traverse_spec`].  On an error, either a header
/// could not be read — the error and the events absorbed first are the ones
/// [`traverse_spec`] names — or the visitor refused one of the traversal's
/// events and its error is surfaced unchanged.
#[verifier::loop_isolation(false)]
#[verifier::rlimit(100)]
#[verifier::spinoff_prover]
pub fn read_box<V: Mp4Visitor>(src: &mut ByteSource, end: usize, visitor: &mut V) -> (r: Result<
    (),
    Mp4Error,
>)
    requires
        old(src).pos <= end,
        end <= old(src).data@.len(),
        old(visitor).inv(),
        evs_wf(old(visitor).taken()),
    ensures
        final(src).data@ == old(src).data@,
        final(visitor).inv(),
        final(visitor).config() == old(visitor).config(),
        ({
            let t = traverse_spec(old(src).data@, old(src).pos as int, end as int);
            &&& (r is Ok ==> (t matches TRes::Done(evs)
                && final(visitor).taken() == old(visitor).taken() + evs
                && stack_of(final(visitor).taken()) == stack_of(old(visitor).taken())
                && final(src).pos == end))
            &&& (r matches Err(e) ==> ((t matches TRes::Fail(es, k) && e == k
                && final(visitor).taken() == old(visitor).taken() + es) || (exists|i: int|
                #![trigger events_of(t).take(i)]
                0 <= i < events_of(t).len() && final(visitor).taken() == old(visitor).taken()
                    + events_of(t).take(i) && !(final(visitor).accepts(events_of(t)[i])) && e
                    == final(visitor).rejection(events_of(t)[i]))))
        }),
    decreases end - old(src).pos, 2int,
{
    let ghost data0 = src.data@;
    let ghost pos0 = src.pos as int;
    let ghost taken0 = visitor.taken();
    let ghost full = traverse_spec(data0, pos0, end as int);
    let ghost mut done: Seq<Event> = Seq::empty();
    proof {
        assert(taken0 + done =~= taken0);
        match full {
            TRes::Done(e) => assert(done + e =~= e),
            TRes::Fail(e, _) => assert(done + e =~= e),
        }
    }
    let mut current = src.pos;
    while current < end
        invariant
            src.data@ == data0,
            src.pos == current,
            pos0 <= current <= end,
            visitor.inv(),
            visitor.config() == old(visitor).config(),
            stack_of(visitor.taken()) == stack_of(taken0),
            visitor.taken() == taken0 + done,
            tres_prepend(done, traverse_spec(data0, current as int, end as int)) == full,
        decreases end - current,
    {
        let ghost t_cur = traverse_spec(data0, current as int, end as int);
        let ghost taken_pre = visitor.taken();
        proof {
            lemma_events_of_prepend(done, t_cur);
        }
        match read_one_box(src, end, visitor) {
            Ok(()) => {
                proof {
                    let delta = taken_delta(taken_pre, visitor.taken());
                    assert(visitor.taken() =~= taken0 + (done + delta));
                    lemma_tres_prepend_assoc(
                        done,
                        delta,
                        traverse_spec(data0, src.pos as int, end as int),
                    );
                    done = done + delta;
                }
            },
            Err(e) => {
                proof {
                    if t_cur is Fail && e == t_cur->Fail_1 && visitor.taken() == taken_pre
                        + t_cur->Fail_0 {
                        let es = t_cur->Fail_0;
                        assert(full == TRes::Fail(done + es, e));
                        assert(taken_pre + es =~= taken0 + (done + es));
                    } else {
                        let cur_evs = events_of(t_cur);
                        let ic = choose|ic: int|
                            #![trigger cur_evs.take(ic)]
                            0 <= ic < cur_evs.len() && visitor.taken() == taken_pre + cur_evs.take(
                                ic,
                            ) && !(visitor.accepts(cur_evs[ic])) && e == visitor.rejection(
                                cur_evs[ic],
                            );
                        let i: int = done.len() as int + ic;
                        assert(events_of(full)[i] == cur_evs[ic]);
                        assert(events_of(full).take(i) =~= done + cur_evs.take(ic));
                        assert(visitor.taken() =~= taken0 + events_of(full).take(i));
                        lemma_witness(visitor, taken0, full, i, e);
                    }
                }
                return Err(e);
            },
        }
        current = src.pos;
    }
    proof {
        lemma_traverse_empty(data0, current as int, end as int);
        assert(done + Seq::<Event>::empty() =~= done);
        assert(full == TRes::Done(done));
    }
    Ok(())
}

} // verus!
