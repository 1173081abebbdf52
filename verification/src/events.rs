//! The events a traversal hands to its visitor, and their bracketing rules.
//!
//! A traversal announces each box with a `Start` event, hands a leaf's
//! payload over with a `Data` event, and closes the box with an `End` event.
//! The stack of box names that are open at any point is the measure of
//! well-bracketing: `Data` may only arrive inside an open box, and `End`
//! must name the box opened last.

use vstd::prelude::*;

use crate::boxtype::BoxType;
use crate::header::BoxHeader;

verus! {

/// One visitor callback, as a value.
pub ghost enum Event {
    /// A box header was read; `corrected` carries the repaired total size
    /// when the declared size overflowed the container.
    Start { header: BoxHeader, corrected: Option<u64> },
    /// The payload of a leaf box.
    Data { bytes: Seq<u8> },
    /// The named box is complete.
    End { name: BoxType },
}

/// How one event changes the stack of open box names; `None` when the event
/// is ill-bracketed at this stack.
pub open spec fn event_step(s: Seq<BoxType>, ev: Event) -> Option<Seq<BoxType>> {
    match ev {
        Event::Start { header, .. } => Some(s.push(header.name)),
        Event::Data { .. } => if s.len() > 0 {
            Some(s)
        } else {
            None
        },
        Event::End { name } => if s.len() > 0 && s.last() == name {
            Some(s.drop_last())
        } else {
            None
        },
    }
}

/// The stack of open box names after `evs`, starting from `s`; `None` when
/// some event was ill-bracketed.
pub open spec fn stack_from(s: Seq<BoxType>, evs: Seq<Event>) -> Option<Seq<BoxType>>
    decreases evs.len(),
{
    if evs.len() == 0 {
        Some(s)
    } else {
        match event_step(s, evs.first()) {
            None => None,
            Some(t) => stack_from(t, evs.drop_first()),
        }
    }
}

/// The stack of open box names after `evs`, starting from no open box.
pub open spec fn stack_of(evs: Seq<Event>) -> Option<Seq<BoxType>> {
    stack_from(Seq::empty(), evs)
}

/// Whether `evs` is well-bracketed so far.
pub open spec fn evs_wf(evs: Seq<Event>) -> bool {
    stack_of(evs) is Some
}

/// Whether a `Data` event may follow `evs`: some box is open.
pub open spec fn can_data(evs: Seq<Event>) -> bool {
    stack_of(evs) matches Some(s) && s.len() > 0
}

/// Whether `End { name }` may follow `evs`: the box opened last is `name`.
pub open spec fn can_end(evs: Seq<Event>, name: BoxType) -> bool {
    stack_of(evs) matches Some(s) && s.len() > 0 && s.last() == name
}

/// Processing `a + b` is processing `a`, then `b` from where `a` left off.
pub proof fn lemma_stack_from_append(s: Seq<BoxType>, a: Seq<Event>, b: Seq<Event>)
    ensures
        stack_from(s, a + b) == (match stack_from(s, a) {
            Some(t) => stack_from(t, b),
            None => None,
        }),
    decreases a.len(),
{
    if a.len() == 0 {
        assert(a + b =~= b);
    } else {
        assert((a + b).first() == a.first());
        assert((a + b).drop_first() =~= a.drop_first() + b);
        match event_step(s, a.first()) {
            None => {},
            Some(t) => {
                lemma_stack_from_append(t, a.drop_first(), b);
            },
        }
    }
}

/// Appending one event steps the stack once.
pub proof fn lemma_stack_from_push(s: Seq<BoxType>, evs: Seq<Event>, ev: Event)
    ensures
        stack_from(s, evs.push(ev)) == (match stack_from(s, evs) {
            Some(t) => event_step(t, ev),
            None => None,
        }),
{
    let single = seq![ev];
    assert(evs.push(ev) =~= evs + single);
    lemma_stack_from_append(s, evs, single);
    assert(single.drop_first() =~= Seq::<Event>::empty());
    match stack_from(s, evs) {
        Some(t) => {
            assert(stack_from(t, single) == (match event_step(t, ev) {
                Some(u) => stack_from(u, single.drop_first()),
                None => None,
            }));
        },
        None => {},
    }
}

} // verus!
