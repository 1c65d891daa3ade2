//! When tracks end.
use crate::action::{ActionId, ActionKey};
use crate::time::Ticks;
use crate::timeline::edit::clip_appended;
use crate::timeline::TimelineModel;
use crate::track::furthest_end;
use vstd::prelude::*;

verus! {

/// A track that ends with the last of its clips still does once a clip was put behind a lane.
pub proof fn appending_keeps_the_end(
    before: TimelineModel,
    after: TimelineModel,
    index: int,
    id: ActionId,
    duration: Ticks,
    start_at: Ticks,
)
    requires
        clip_appended(before, after, index, id, duration, start_at),
        furthest_end(before.tracks[index].lanes(), before.tracks[index].duration()),
        forall|key: ActionKey| #[trigger]
            before.tracks[index].lanes().contains_key(key)
                ==> before.tracks[index].lanes()[key].len() > 0,
        duration >= 0,
    ensures
        furthest_end(after.tracks[index].lanes(), after.tracks[index].duration()),
        after.tracks[index].duration() >= before.tracks[index].duration(),
{
    let key = after.actions.actions[id].key;
    let (a, b) = (before.tracks[index].lanes(), after.tracks[index].lanes());
    let (x, y) = (before.tracks[index].duration(), after.tracks[index].duration());
    assert(b.contains_key(key));
    assert forall|other: ActionKey| #[trigger] b.contains_key(other) implies b[other].last().end()
        <= y by {
        if other != key {
            assert(a.contains_key(other));
        }
    }
    if y != 0 && y != b[key].last().end() {
        let other = choose|other: ActionKey| #[trigger]
            a.contains_key(other) && a[other].last().end() == x;
        assert(b.contains_key(other));
    }
}

} // verus!
