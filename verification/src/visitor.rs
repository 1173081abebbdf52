//! The visitor contract of the traversal engine.

use vstd::prelude::*;

use crate::boxtype::BoxType;
use crate::error::Mp4Error;
use crate::events::{can_data, can_end, evs_wf, Event};
use crate::header::BoxHeader;

verus! {

/// A SAX-style visitor over the box tree.
///
/// The engine announces every box with `start_box`, hands each leaf's
/// payload to `data`, and closes every announced box with `end_box`, in
/// strict document order.  A visitor records the events it has absorbed in
/// the ghost history `taken()`; `inv()` ties its executable state to that
/// history and is preserved by every callback.  A callback may refuse an
/// event, returning an error the engine surfaces unchanged: `accepts`
/// says which events the visitor takes in its current state, and
/// `rejection` which error a refused event draws.
pub trait Mp4Visitor: Sized {
    /// The visitor's fixed configuration.  Callbacks never change it: what
    /// a visitor was asked to do cannot drift mid-traversal.
    type Config;

    /// The fixed configuration's value.
    spec fn config(&self) -> Self::Config;

    /// The events absorbed so far.
    spec fn taken(&self) -> Seq<Event>;

    /// The visitor's state invariant.
    spec fn inv(&self) -> bool;

    /// Whether the visitor accepts `ev` in its current state.
    spec fn accepts(&self, ev: Event) -> bool;

    /// The error a refused `ev` draws in the current state.
    spec fn rejection(&self, ev: Event) -> Mp4Error;

    /// Called once per box, before anything inside it.  `corrected_size`
    /// carries the repaired total size when the declared size overflowed
    /// the containing box.
    fn start_box(&mut self, header: &BoxHeader, corrected_size: Option<u64>) -> (r: Result<
        (),
        Mp4Error,
    >)
        requires
            old(self).inv(),
            evs_wf(old(self).taken()),
        ensures
            final(self).inv(),
            final(self).config() == old(self).config(),
            r is Ok <==> old(self).accepts(
                Event::Start { header: *header, corrected: corrected_size },
            ),
            r is Ok ==> final(self).taken() == old(self).taken().push(
                Event::Start { header: *header, corrected: corrected_size },
            ),
            r is Err ==> *final(self) == *old(self) && r == Err::<(), Mp4Error>(
                old(self).rejection(Event::Start { header: *header, corrected: corrected_size }),
            ),
    ;

    /// Called at most once per leaf box, between its `start_box` and its
    /// `end_box`, with the leaf's payload.
    fn data(&mut self, payload: &[u8]) -> (r: Result<(), Mp4Error>)
        requires
            old(self).inv(),
            can_data(old(self).taken()),
        ensures
            final(self).inv(),
            final(self).config() == old(self).config(),
            r is Ok <==> old(self).accepts(Event::Data { bytes: payload@ }),
            r is Ok ==> final(self).taken() == old(self).taken().push(
                Event::Data { bytes: payload@ },
            ),
            r is Err ==> *final(self) == *old(self) && r == Err::<(), Mp4Error>(
                old(self).rejection(Event::Data { bytes: payload@ }),
            ),
    ;

    /// Called when the named box is complete; pairs with the last
    /// unmatched `start_box`.
    fn end_box(&mut self, name: BoxType) -> (r: Result<(), Mp4Error>)
        requires
            old(self).inv(),
            can_end(old(self).taken(), name),
        ensures
            final(self).inv(),
            final(self).config() == old(self).config(),
            r is Ok <==> old(self).accepts(Event::End { name }),
            r is Ok ==> final(self).taken() == old(self).taken().push(Event::End { name }),
            r is Err ==> *final(self) == *old(self) && r == Err::<(), Mp4Error>(
                old(self).rejection(Event::End { name }),
            ),
    ;
}

} // verus!
