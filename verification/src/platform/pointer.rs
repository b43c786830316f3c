//! Which pointer sequences the program handles as pen input and which it
//! leaves to the system's mouse emulation. A sequence keeps the route it
//! started on until it ends, so a pen contact never turns into mouse input
//! halfway and an emulated mouse press never loses its release.

use vstd::prelude::*;

use super::win32::POINT;

verus! {

/// The pointer messages of one pointer sequence.
#[derive(Clone, Copy, Debug, PartialEq, Eq, Structural)]
pub enum PointerMessage {
    Enter,
    Down,
    Update,
    Up,
    Leave,
    CaptureChanged,
}

/// What to do with a pointer message.
#[derive(Clone, Copy, Debug, PartialEq, Eq, Structural)]
pub enum PointerRoute {
    /// Leave it to the system's default handling.
    Default,
    /// Ask the system whether the pointer is a pen, then call `classified`.
    AskType,
    /// The pen sequence ends without a release.
    Cancelled,
    /// The pen left the tablet's range.
    ProximityOut,
    /// Read the pen's samples for this message.
    Samples,
}

/// The pointers known to be pens and those left to mouse emulation.
pub struct PointerRouter {
    pub pen_pointers: Vec<u32>,
    pub legacy_pointers: Vec<u32>,
}

/// The message ends its pointer's sequence.
pub open spec fn is_terminal(message: PointerMessage, canceled: bool) -> bool {
    message == PointerMessage::Leave || message == PointerMessage::CaptureChanged || canceled
}

pub open spec fn other_than(id: u32) -> spec_fn(u32) -> bool {
    |other: u32| other != id
}

/// `ids` without `id`.
pub open spec fn without(ids: Seq<u32>, id: u32) -> Seq<u32> {
    ids.filter(other_than(id))
}

/// The route of a message from a known pen, and whether the pen stays known.
pub open spec fn pen_route(message: PointerMessage, canceled: bool) -> PointerRoute {
    if message == PointerMessage::CaptureChanged || canceled {
        PointerRoute::Cancelled
    } else if message == PointerMessage::Leave {
        PointerRoute::ProximityOut
    } else {
        PointerRoute::Samples
    }
}

/// The pointer lists and the route after a message from `id`, before the
/// system is asked about unknown pointers.
pub open spec fn routed(
    pens: Seq<u32>,
    legacy: Seq<u32>,
    id: u32,
    message: PointerMessage,
    canceled: bool,
) -> (Seq<u32>, Seq<u32>, PointerRoute) {
    if legacy.contains(id) {
        (pens, if is_terminal(message, canceled) { without(legacy, id) } else { legacy }, PointerRoute::Default)
    } else if !pens.contains(id) {
        (pens, legacy, PointerRoute::AskType)
    } else if is_terminal(message, canceled) {
        (without(pens, id), legacy, pen_route(message, canceled))
    } else {
        (pens, legacy, pen_route(message, canceled))
    }
}

/// The pointer lists and the route once the system said whether the unknown
/// pointer `id` is a pen.
pub open spec fn classified_route(
    pens: Seq<u32>,
    legacy: Seq<u32>,
    id: u32,
    message: PointerMessage,
    canceled: bool,
    is_pen: bool,
) -> (Seq<u32>, Seq<u32>, PointerRoute) {
    if !is_pen {
        (pens, if is_terminal(message, canceled) { legacy } else { legacy.push(id) }, PointerRoute::Default)
    } else if is_terminal(message, canceled) {
        (without(pens.push(id), id), legacy, pen_route(message, canceled))
    } else {
        (pens.push(id), legacy, pen_route(message, canceled))
    }
}

fn contains(ids: &Vec<u32>, id: u32) -> (found: bool)
    ensures
        found == ids@.contains(id),
{
    let mut i: usize = 0;
    while i < ids.len()
        invariant
            i <= ids@.len(),
            forall|k: int| 0 <= k < i ==> ids@[k] != id,
        decreases ids@.len() - i,
    {
        if ids[i] == id {
            assert(ids@[i as int] == id);
            return true;
        }
        i += 1;
    }
    false
}

fn remove_all(ids: &mut Vec<u32>, id: u32)
    ensures
        final(ids)@ == without(old(ids)@, id),
{
    let mut kept: Vec<u32> = Vec::new();
    let mut i: usize = 0;
    while i < ids.len()
        invariant
            i <= ids@.len(),
            kept@ == without(ids@.subrange(0, i as int), id),
        decreases ids@.len() - i,
    {
        proof {
            let before = ids@.subrange(0, i as int);
            assert(ids@.subrange(0, i + 1) =~= before.push(ids@[i as int]));
            before.lemma_filter_push(ids@[i as int], other_than(id));
        }
        if ids[i] != id {
            kept.push(ids[i]);
        }
        i += 1;
    }
    assert(ids@.subrange(0, ids@.len() as int) =~= ids@);
    *ids = kept;
}

impl PointerRouter {
    pub fn new() -> (router: PointerRouter)
        ensures
            router.pen_pointers@.len() == 0,
            router.legacy_pointers@.len() == 0,
    {
        PointerRouter { pen_pointers: Vec::new(), legacy_pointers: Vec::new() }
    }

    /// Routes a pointer message from `id`; `canceled` is the message's
    /// cancel flag. A sequence left to the system stays there until it ends;
    /// a known pen is cancelled by capture loss or the cancel flag, leaves
    /// range on `Leave`, and otherwise has its samples read.
    pub fn route(&mut self, id: u32, message: PointerMessage, canceled: bool) -> (route: PointerRoute)
        ensures
            (final(self).pen_pointers@, final(self).legacy_pointers@, route) == routed(
                old(self).pen_pointers@,
                old(self).legacy_pointers@,
                id,
                message,
                canceled,
            ),
    {
        let terminal = matches!(message, PointerMessage::Leave | PointerMessage::CaptureChanged) || canceled;
        if contains(&self.legacy_pointers, id) {
            if terminal {
                remove_all(&mut self.legacy_pointers, id);
            }
            return PointerRoute::Default;
        }
        if !contains(&self.pen_pointers, id) {
            return PointerRoute::AskType;
        }
        self.known_pen(id, message, canceled, terminal)
    }

    /// Routes a message from `id` after `route` asked for its type.
    pub fn classified(&mut self, id: u32, message: PointerMessage, canceled: bool, is_pen: bool) -> (route: PointerRoute)
        ensures
            (final(self).pen_pointers@, final(self).legacy_pointers@, route) == classified_route(
                old(self).pen_pointers@,
                old(self).legacy_pointers@,
                id,
                message,
                canceled,
                is_pen,
            ),
    {
        let terminal = matches!(message, PointerMessage::Leave | PointerMessage::CaptureChanged) || canceled;
        if !is_pen {
            if !terminal {
                self.legacy_pointers.push(id);
            }
            return PointerRoute::Default;
        }
        self.pen_pointers.push(id);
        self.known_pen(id, message, canceled, terminal)
    }

    fn known_pen(&mut self, id: u32, message: PointerMessage, canceled: bool, terminal: bool) -> (route: PointerRoute)
        requires
            terminal == is_terminal(message, canceled),
        ensures
            route == pen_route(message, canceled),
            final(self).pen_pointers@ == if terminal { without(old(self).pen_pointers@, id) } else { old(self).pen_pointers@ },
            final(self).legacy_pointers@ == old(self).legacy_pointers@,
    {
        if matches!(message, PointerMessage::CaptureChanged) || canceled {
            remove_all(&mut self.pen_pointers, id);
            return PointerRoute::Cancelled;
        }
        if matches!(message, PointerMessage::Leave) {
            remove_all(&mut self.pen_pointers, id);
            return PointerRoute::ProximityOut;
        }
        PointerRoute::Samples
    }
}

/// A pen sequence stays a pen sequence: while it has not ended, its messages
/// are read as pen samples and the pointer stays known as a pen.
pub proof fn lemma_pen_sequences_stay_pen(pens: Seq<u32>, legacy: Seq<u32>, id: u32, message: PointerMessage)
    requires
        pens.contains(id),
        !legacy.contains(id),
        !is_terminal(message, false),
    ensures
        routed(pens, legacy, id, message, false) == (pens, legacy, PointerRoute::Samples),
{
}

/// A sequence left to the system stays there until it ends, even if it is
/// a pen, and its end forgets it.
pub proof fn lemma_legacy_sequences_stay_legacy(
    pens: Seq<u32>,
    legacy: Seq<u32>,
    id: u32,
    message: PointerMessage,
    canceled: bool,
)
    requires
        legacy.contains(id),
    ensures
        routed(pens, legacy, id, message, canceled).2 == PointerRoute::Default,
        !is_terminal(message, canceled) ==> routed(pens, legacy, id, message, canceled).1.contains(id),
        is_terminal(message, canceled) ==> !routed(pens, legacy, id, message, canceled).1.contains(id),
{
    if is_terminal(message, canceled) {
        let kept = without(legacy, id);
        assert(!kept.contains(id)) by {
            if kept.contains(id) {
                let k = choose|k: int| 0 <= k < kept.len() && kept[k] == id;
                legacy.lemma_filter_pred(other_than(id), k);
            }
        }
    }
}

/// Ending a pen sequence forgets the pen, so its next sequence is asked
/// about again.
pub proof fn lemma_ended_pens_are_forgotten(pens: Seq<u32>, legacy: Seq<u32>, id: u32, message: PointerMessage, canceled: bool)
    requires
        pens.contains(id),
        !legacy.contains(id),
        is_terminal(message, canceled),
    ensures
        !routed(pens, legacy, id, message, canceled).0.contains(id),
        routed(pens, legacy, id, message, canceled).2 != PointerRoute::Samples,
{
    let kept = without(pens, id);
    assert(!kept.contains(id)) by {
        if kept.contains(id) {
            let k = choose|k: int| 0 <= k < kept.len() && kept[k] == id;
            pens.lemma_filter_pred(other_than(id), k);
        }
    }
}

/// One coalesced pen sample as the system reports it: whether it is marked
/// cancelled, and its position in the client area when that could be
/// worked out.
#[derive(Clone, Copy, Debug, PartialEq, Eq, Structural)]
pub struct HistoryEntry {
    pub canceled: bool,
    pub location: Option<POINT>,
}

/// What one coalesced sample becomes.
#[derive(Clone, Copy, Debug, PartialEq, Eq, Structural)]
pub enum HistoryEvent {
    /// A pen move for the entry at this index, at this position.
    Move { entry: usize, location: POINT },
    /// The pen sequence ends; later samples are dropped.
    Cancelled,
}

/// The events for coalesced samples given newest first: oldest first, one
/// move per sample, until a cancelled or unplaceable sample cancels the
/// sequence and ends the list.
pub open spec fn history_events(newest_first: Seq<HistoryEntry>) -> Seq<HistoryEvent>
    decreases newest_first.len(),
{
    if newest_first.len() == 0 {
        Seq::empty()
    } else {
        let oldest = newest_first.last();
        match oldest.location {
            Some(location) => if oldest.canceled {
                seq![HistoryEvent::Cancelled]
            } else {
                seq![HistoryEvent::Move { entry: (newest_first.len() - 1) as usize, location }]
                    + history_events(newest_first.drop_last())
            },
            None => seq![HistoryEvent::Cancelled],
        }
    }
}

/// Orders a batch of coalesced pen samples, which the system returns newest
/// first, into events in the order they happened.
pub fn coalesced_moves(newest_first: &Vec<HistoryEntry>) -> (events: Vec<HistoryEvent>)
    ensures
        events@ == history_events(newest_first@),
{
    let mut events: Vec<HistoryEvent> = Vec::new();
    let mut remaining: usize = newest_first.len();
    assert(newest_first@.subrange(0, remaining as int) =~= newest_first@);
    assert(events@ + history_events(newest_first@) =~= history_events(newest_first@));
    while remaining > 0
        invariant
            remaining <= newest_first@.len(),
            events@ + history_events(newest_first@.subrange(0, remaining as int)) == history_events(newest_first@),
        decreases remaining,
    {
        let ghost rest = newest_first@.subrange(0, remaining as int);
        let entry = newest_first[remaining - 1];
        proof {
            assert(rest.last() == entry);
            assert(rest.drop_last() =~= newest_first@.subrange(0, remaining - 1));
        }
        match entry.location {
            Some(location) => {
                if entry.canceled {
                    events.push(HistoryEvent::Cancelled);
                    proof {
                        assert(events@ =~= history_events(newest_first@));
                    }
                    return events;
                }
                let ghost before = events@;
                events.push(HistoryEvent::Move { entry: remaining - 1, location });
                proof {
                    assert(events@ + history_events(newest_first@.subrange(0, remaining - 1)) =~= before
                        + history_events(rest));
                }
            },
            None => {
                events.push(HistoryEvent::Cancelled);
                proof {
                    assert(events@ =~= history_events(newest_first@));
                }
                return events;
            },
        }
        remaining -= 1;
    }
    proof {
        assert(newest_first@.subrange(0, 0) =~= Seq::<HistoryEntry>::empty());
        assert(events@ =~= history_events(newest_first@));
    }
    events
}

/// Coalesced samples come out in the order they happened: the event at
/// position `k` is the move of the `k`-th oldest sample, and only the last
/// event can be a cancellation.
pub proof fn lemma_history_in_chronological_order(newest_first: Seq<HistoryEntry>)
    requires
        newest_first.len() <= usize::MAX,
    ensures
        history_events(newest_first).len() <= newest_first.len(),
        forall|k: int|
            0 <= k < history_events(newest_first).len() ==> match #[trigger] history_events(newest_first)[k] {
                HistoryEvent::Move { entry, location } => entry == newest_first.len() - 1 - k
                    && newest_first[entry as int].location == Some(location),
                HistoryEvent::Cancelled => k == history_events(newest_first).len() - 1,
            },
    decreases newest_first.len(),
{
    if newest_first.len() > 0 {
        let rest = newest_first.drop_last();
        lemma_history_in_chronological_order(rest);
        let events = history_events(newest_first);
        let oldest = newest_first.last();
        if oldest.location is Some && !oldest.canceled {
            let first = HistoryEvent::Move { entry: (newest_first.len() - 1) as usize, location: oldest.location.unwrap() };
            assert(events == seq![first] + history_events(rest));
            assert(events.len() == history_events(rest).len() + 1);
            assert(events[0] == first);
            assert forall|k: int| 1 <= k < events.len() implies events[k] == history_events(rest)[k - 1] by {}
            assert forall|k: int| 0 <= k < events.len() implies match #[trigger] events[k] {
                HistoryEvent::Move { entry, location } => entry == newest_first.len() - 1 - k
                    && newest_first[entry as int].location == Some(location),
                HistoryEvent::Cancelled => k == events.len() - 1,
            } by {
                if k >= 1 {
                    assert(events[k] == history_events(rest)[k - 1]);
                    match history_events(rest)[k - 1] {
                        HistoryEvent::Move { entry, location } => {
                            assert(rest[entry as int] == newest_first[entry as int]);
                        },
                        HistoryEvent::Cancelled => {},
                    }
                }
            }
        }
    }
}

} // verus!
