//! When the clips of fragments start that are run in some order.
use crate::action::{ActionClip, ActionKey};
use crate::sequence::delayed;
use crate::time::Ticks;
use crate::track::ordering::{
    all_lanes, chain_duration, chain_lanes, flow_delay, flow_duration, flow_lanes,
};
use crate::track::{delayed_lanes, joined, lane, Lanes, TrackFragment};
use vstd::arithmetic::mul::lemma_mul_is_distributive_add_other_way;
use vstd::prelude::*;

verus! {

/// How many clips the first `n` fragments have for a key.
pub open spec fn clips_before(tracks: Seq<TrackFragment>, key: ActionKey, n: int) -> nat
    decreases n,
{
    if n <= 0 {
        0
    } else {
        clips_before(tracks, key, n - 1) + lane(tracks[n - 1].lanes(), key).len()
    }
}

/// Whether lanes are those of fragments, one behind the other, each fragment moved by
/// an offset of its own: the `k`-th clip that a fragment has for a key stands behind
/// those of the fragments in front, is of the same action, lasts as long, and starts
/// later by the offset.
pub open spec fn runs_from(
    lanes: Lanes,
    tracks: Seq<TrackFragment>,
    offsets: spec_fn(int) -> int,
) -> bool {
    &&& forall|key: ActionKey| #[trigger]
        lanes.contains_key(key) <==> exists|i: int|
            0 <= i < tracks.len() && (#[trigger] tracks[i]).lanes().contains_key(key)
    &&& forall|key: ActionKey| #[trigger]
        lanes.contains_key(key) ==> lanes[key].len() == clips_before(
            tracks,
            key,
            tracks.len() as int,
        )
    &&& forall|key: ActionKey, i: int, k: int|
        0 <= i < tracks.len() && tracks[i].lanes().contains_key(key) && 0 <= k
            < tracks[i].lanes()[key].len() ==> starts_from(
            lanes[key][clips_before(tracks, key, i) + k],
            #[trigger] tracks[i].lanes()[key][k],
            offsets(i),
        )
}

/// Whether a clip is another one that starts later by an offset.
pub open spec fn starts_from(moved: ActionClip, clip: ActionClip, offset: int) -> bool {
    &&& moved.id == clip.id
    &&& moved.duration == clip.duration
    &&& moved.start == clip.start + offset
}

/// Whether the clips of fragments can be moved by offsets inside the range of times.
pub open spec fn fits_from(tracks: Seq<TrackFragment>, offsets: spec_fn(int) -> int) -> bool {
    forall|key: ActionKey, i: int, k: int|
        0 <= i < tracks.len() && tracks[i].lanes().contains_key(key) && 0 <= k
            < tracks[i].lanes()[key].len() ==> i64::MIN <= (
        #[trigger] tracks[i].lanes()[key][k]).start + offsets(i) <= i64::MAX
}

/// The first fragments have as many clips, whatever stands behind them.
proof fn fewer_before(tracks: Seq<TrackFragment>, key: ActionKey, n: int)
    requires
        0 <= n < tracks.len(),
    ensures
        clips_before(tracks.drop_last(), key, n) == clips_before(tracks, key, n),
    decreases n,
{
    if n > 0 {
        fewer_before(tracks, key, n - 1);
        assert(tracks.drop_last()[n - 1] == tracks[n - 1]);
    }
}

/// More fragments have no fewer clips.
proof fn more_before(tracks: Seq<TrackFragment>, key: ActionKey, a: int, b: int)
    requires
        0 <= a <= b,
    ensures
        clips_before(tracks, key, a) <= clips_before(tracks, key, b),
    decreases b - a,
{
    if a < b {
        more_before(tracks, key, a, b - 1);
    }
}

/// A lane that no fragment has holds no clips.
proof fn none_before(tracks: Seq<TrackFragment>, key: ActionKey, n: int)
    requires
        0 <= n <= tracks.len(),
        forall|i: int| 0 <= i < n ==> !(#[trigger] tracks[i]).lanes().contains_key(key),
    ensures
        clips_before(tracks, key, n) == 0,
    decreases n,
{
    if n > 0 {
        none_before(tracks, key, n - 1);
        assert(!tracks[n - 1].lanes().contains_key(key));
    }
}

/// Fragments that run from offsets still do with one more behind them.
proof fn one_more_runs(
    front: Lanes,
    tracks: Seq<TrackFragment>,
    by: Ticks,
    offsets: spec_fn(int) -> int,
)
    requires
        tracks.len() > 0,
        runs_from(front, tracks.drop_last(), offsets),
        fits_from(tracks, offsets),
        by == offsets(tracks.len() - 1),
    ensures
        runs_from(joined(front, delayed_lanes(tracks.last().lanes(), by)), tracks, offsets),
{
    let n = tracks.len() - 1;
    let fewer = tracks.drop_last();
    let last = tracks.last().lanes();
    let moved = delayed_lanes(last, by);
    let lanes = joined(front, moved);
    assert(tracks[n] == tracks.last());
    assert forall|key: ActionKey| #[trigger] lanes.contains_key(key) <==> exists|i: int|
        0 <= i < tracks.len() && (#[trigger] tracks[i]).lanes().contains_key(key) by {
        if front.contains_key(key) {
            let i = choose|i: int|
                0 <= i < fewer.len() && (#[trigger] fewer[i]).lanes().contains_key(key);
            assert(tracks[i] == fewer[i]);
            assert(tracks[i].lanes().contains_key(key));
        }
        if last.contains_key(key) {
            assert(tracks[n].lanes().contains_key(key));
            assert(moved.contains_key(key));
        }
        if exists|i: int|
            0 <= i < tracks.len() && (#[trigger] tracks[i]).lanes().contains_key(key) {
            let i = choose|i: int|
                0 <= i < tracks.len() && (#[trigger] tracks[i]).lanes().contains_key(key);
            if i < n {
                assert(fewer[i] == tracks[i]);
                assert(fewer[i].lanes().contains_key(key));
                assert(front.contains_key(key));
            } else {
                assert(moved.contains_key(key));
            }
        }
    }
    assert forall|key: ActionKey| #[trigger] lanes.contains_key(key) implies {
        &&& lanes[key].len() == clips_before(tracks, key, tracks.len() as int)
        &&& lane(front, key).len() == clips_before(tracks, key, n)
        &&& lane(moved, key).len() == lane(last, key).len()
    } by {
        fewer_before(tracks, key, n);
        if !front.contains_key(key) {
            assert forall|i: int| 0 <= i < fewer.len() implies !(
            #[trigger] fewer[i]).lanes().contains_key(key) by {}
            none_before(fewer, key, n);
        }
    }
    assert forall|key: ActionKey, i: int, k: int|
        0 <= i < tracks.len() && tracks[i].lanes().contains_key(key) && 0 <= k
            < tracks[i].lanes()[key].len() implies starts_from(
        lanes[key][clips_before(tracks, key, i) + k],
        #[trigger] tracks[i].lanes()[key][k],
        offsets(i),
    ) by {
        let clip = tracks[i].lanes()[key][k];
        let at = clips_before(tracks, key, i) + k;
        assert(lanes.contains_key(key));
        if i < n {
            assert(fewer[i] == tracks[i]);
            assert(front.contains_key(key));
            fewer_before(tracks, key, i);
            assert(starts_from(
                front[key][clips_before(fewer, key, i) + k],
                fewer[i].lanes()[key][k],
                offsets(i),
            ));
            more_before(tracks, key, i + 1, n);
            assert(at < lane(front, key).len());
            assert(lanes[key][at] == front[key][at]);
        } else {
            assert(lanes[key][at] == moved[key][k]);
            assert(moved[key][k] == clip.delayed(by));
        }
    }
}

/// What runs of no fragments is nothing.
proof fn nothing_runs(offsets: spec_fn(int) -> int)
    ensures
        runs_from(Map::empty(), Seq::empty(), offsets),
{
}

/// What fits of fragments fits of fewer.
proof fn fewer_fit(tracks: Seq<TrackFragment>, offsets: spec_fn(int) -> int)
    requires
        tracks.len() > 0,
        fits_from(tracks, offsets),
    ensures
        fits_from(tracks.drop_last(), offsets),
{
    let fewer = tracks.drop_last();
    assert forall|key: ActionKey, i: int, k: int|
        0 <= i < fewer.len() && fewer[i].lanes().contains_key(key) && 0 <= k
            < fewer[i].lanes()[key].len() implies i64::MIN <= (
    #[trigger] fewer[i].lanes()[key][k]).start + offsets(i) <= i64::MAX by {
        assert(fewer[i] == tracks[i]);
        assert(i64::MIN <= tracks[i].lanes()[key][k].start + offsets(i) <= i64::MAX);
    }
}

/// When the fragment at a place of a flow starts.
pub open spec fn flow_offsets(delay: Ticks) -> spec_fn(int) -> int {
    |i: int| i * delay
}

/// The delays of a flow add up.
proof fn delays_add_up(delay: Ticks, n: nat)
    requires
        i64::MIN <= n * delay <= i64::MAX,
    ensures
        flow_delay(delay, n) == n * delay,
    decreases n,
{
    if n > 0 {
        lemma_mul_is_distributive_add_other_way(delay as int, n - 1, 1);
        assert((n - 1) * delay + delay == n * delay);
        assert(i64::MIN <= (n - 1) * delay <= i64::MAX) by (nonlinear_arith)
            requires
                n >= 1,
                (n - 1) * delay + delay == n * delay,
                i64::MIN <= n * delay <= i64::MAX,
                i64::MIN <= delay <= i64::MAX,
        ;
        delays_add_up(delay, (n - 1) as nat);
    } else {
        assert(0 * delay == 0);
    }
}

/// The clips of the fragment at a place of a flow start as many delays later as there
/// are fragments in front of it. This is where no time leaves the range.
pub proof fn flows_start_a_delay_apart(delay: Ticks, tracks: Seq<TrackFragment>)
    requires
        forall|i: int|
            0 <= i < tracks.len() ==> i64::MIN <= #[trigger] flow_offsets(delay)(i) <= i64::MAX,
        fits_from(tracks, flow_offsets(delay)),
    ensures
        runs_from(flow_lanes(delay, tracks), tracks, flow_offsets(delay)),
    decreases tracks.len(),
{
    if tracks.len() == 0 {
        assert(tracks =~= Seq::empty());
        nothing_runs(flow_offsets(delay));
    } else {
        let n = tracks.len() - 1;
        fewer_fit(tracks, flow_offsets(delay));
        flows_start_a_delay_apart(delay, tracks.drop_last());
        assert(i64::MIN <= flow_offsets(delay)(n) <= i64::MAX);
        delays_add_up(delay, n as nat);
        one_more_runs(
            flow_lanes(delay, tracks.drop_last()),
            tracks,
            flow_delay(delay, n as nat),
            flow_offsets(delay),
        );
    }
}

/// A flow lasts until the last of its fragments has ended: none ends after it, and one
/// ends with it. This is where no time leaves the range.
pub proof fn flows_last_until_all_ended(delay: Ticks, tracks: Seq<TrackFragment>)
    requires
        tracks.len() > 0,
        forall|i: int|
            0 <= i < tracks.len() ==> i64::MIN <= #[trigger] flow_offsets(delay)(i) <= i64::MAX
                && i64::MIN <= i * delay + tracks[i].duration() <= i64::MAX,
    ensures
        forall|i: int|
            0 <= i < tracks.len() ==> flow_offsets(delay)(i) + (
            #[trigger] tracks[i]).duration() <= flow_duration(delay, tracks),
        exists|i: int|
            0 <= i < tracks.len() && flow_offsets(delay)(i) + (#[trigger] tracks[i]).duration()
                == flow_duration(delay, tracks),
    decreases tracks.len(),
{
    let n = tracks.len() - 1;
    assert(i64::MIN <= flow_offsets(delay)(n) <= i64::MAX);
    if n == 0 {
        assert(0 * delay == 0) by (nonlinear_arith);
        assert(flow_offsets(delay)(0) == 0);
        assert(flow_offsets(delay)(0) + tracks[0].duration() == flow_duration(delay, tracks));
    } else {
        let fewer = tracks.drop_last();
        assert forall|i: int| 0 <= i < fewer.len() implies i64::MIN <= #[trigger] flow_offsets(
            delay,
        )(i) <= i64::MAX && i64::MIN <= i * delay + fewer[i].duration() <= i64::MAX by {
            assert(fewer[i] == tracks[i]);
            assert(i64::MIN <= flow_offsets(delay)(i) <= i64::MAX);
        }
        flows_last_until_all_ended(delay, fewer);
        delays_add_up(delay, n as nat);
        let k = choose|k: int|
            0 <= k < fewer.len() && flow_offsets(delay)(k) + (#[trigger] fewer[k]).duration()
                == flow_duration(delay, fewer);
        assert(tracks[k] == fewer[k]);
        assert(tracks[n] == tracks.last());
        assert forall|i: int| 0 <= i < tracks.len() implies flow_offsets(delay)(i) + (
        #[trigger] tracks[i]).duration() <= flow_duration(delay, tracks) by {
            if i < n {
                assert(fewer[i] == tracks[i]);
            }
        }
    }
}

/// How long the first `n` fragments last one after another.
pub open spec fn lasting(tracks: Seq<TrackFragment>, n: int) -> int
    decreases n,
{
    if n <= 0 {
        0
    } else {
        lasting(tracks, n - 1) + tracks[n - 1].duration()
    }
}

/// The first fragments last as long, whatever stands behind them.
proof fn fewer_last(tracks: Seq<TrackFragment>, n: int)
    requires
        0 <= n < tracks.len(),
    ensures
        lasting(tracks.drop_last(), n) == lasting(tracks, n),
    decreases n,
{
    if n > 0 {
        fewer_last(tracks, n - 1);
        assert(tracks.drop_last()[n - 1] == tracks[n - 1]);
    }
}

/// When the fragment at a place of a chain starts: when those in front have ended.
pub open spec fn chain_offsets(tracks: Seq<TrackFragment>) -> spec_fn(int) -> int {
    |i: int| lasting(tracks, i)
}

/// A chain lasts as long as all of its fragments together. This is where no time leaves
/// the range.
pub proof fn chains_last_together(tracks: Seq<TrackFragment>)
    requires
        forall|i: int| 0 <= i <= tracks.len() ==> i64::MIN <= #[trigger] lasting(tracks, i) <= i64::MAX,
    ensures
        chain_duration(tracks) == lasting(tracks, tracks.len() as int),
    decreases tracks.len(),
{
    if tracks.len() > 0 {
        let fewer = tracks.drop_last();
        assert forall|i: int| 0 <= i <= fewer.len() implies i64::MIN <= #[trigger] lasting(fewer, i)
            <= i64::MAX by {
            fewer_last(tracks, i);
            assert(i64::MIN <= lasting(tracks, i) <= i64::MAX);
        }
        chains_last_together(fewer);
        fewer_last(tracks, tracks.len() - 1);
        assert(i64::MIN <= lasting(tracks, tracks.len() as int) <= i64::MAX);
        assert(tracks[tracks.len() - 1] == tracks.last());
    }
}

/// The clips of the fragment at a place of a chain start when all fragments in front of
/// it have ended. This is where no time leaves the range.
pub proof fn chains_start_one_after_another(tracks: Seq<TrackFragment>)
    requires
        forall|i: int| 0 <= i <= tracks.len() ==> i64::MIN <= #[trigger] lasting(tracks, i) <= i64::MAX,
        fits_from(tracks, chain_offsets(tracks)),
    ensures
        runs_from(chain_lanes(tracks), tracks, chain_offsets(tracks)),
{
    first_of_chain_run(tracks, tracks.len() as int);
    assert(tracks.take(tracks.len() as int) =~= tracks);
}

proof fn first_of_chain_run(tracks: Seq<TrackFragment>, n: int)
    requires
        0 <= n <= tracks.len(),
        forall|i: int| 0 <= i <= tracks.len() ==> i64::MIN <= #[trigger] lasting(tracks, i) <= i64::MAX,
        fits_from(tracks, chain_offsets(tracks)),
    ensures
        runs_from(chain_lanes(tracks.take(n)), tracks.take(n), chain_offsets(tracks)),
        chain_duration(tracks.take(n)) == lasting(tracks, n),
    decreases n,
{
    let some = tracks.take(n);
    if n == 0 {
        assert(some =~= Seq::empty());
        nothing_runs(chain_offsets(tracks));
    } else {
        first_of_chain_run(tracks, n - 1);
        assert(some.drop_last() =~= tracks.take(n - 1));
        assert(some.last() == tracks[n - 1]);
        assert(i64::MIN <= lasting(tracks, n) <= i64::MAX);
        assert(fits_from(some, chain_offsets(tracks))) by {
            assert forall|key: ActionKey, i: int, k: int|
                0 <= i < some.len() && some[i].lanes().contains_key(key) && 0 <= k
                    < some[i].lanes()[key].len() implies i64::MIN <= (
            #[trigger] some[i].lanes()[key][k]).start + chain_offsets(tracks)(i) <= i64::MAX by {
                assert(some[i] == tracks[i]);
                assert(i64::MIN <= tracks[i].lanes()[key][k].start + chain_offsets(tracks)(i)
                    <= i64::MAX);
            }
        }
        one_more_runs(
            chain_lanes(some.drop_last()),
            some,
            chain_duration(some.drop_last()),
            chain_offsets(tracks),
        );
    }
}

/// When the fragments of all or of any start: at once.
pub open spec fn no_offsets() -> spec_fn(int) -> int {
    |i: int| 0int
}

/// The clips of fragments that run at the same time start when they do in their
/// fragments.
pub proof fn together_start_at_once(tracks: Seq<TrackFragment>)
    ensures
        runs_from(all_lanes(tracks), tracks, no_offsets()),
    decreases tracks.len(),
{
    if tracks.len() == 0 {
        assert(tracks =~= Seq::empty());
        nothing_runs(no_offsets());
    } else {
        together_start_at_once(tracks.drop_last());
        let last = tracks.last().lanes();
        one_more_runs(all_lanes(tracks.drop_last()), tracks, 0, no_offsets());
        assert forall|key: ActionKey| #[trigger] last.contains_key(key) implies delayed_lanes(
            last,
            0,
        )[key] == last[key] by {
            assert(delayed(last[key], 0) =~= last[key]);
        }
        assert(delayed_lanes(last, 0) =~= last);
    }
}

/// Delaying a fragment starts each of its clips later by the delay, and neither drops
/// nor reorders them.
pub proof fn delays_start_later(lanes: Lanes, by: Ticks, key: ActionKey, k: int)
    requires
        lanes.contains_key(key),
        0 <= k < lanes[key].len(),
        i64::MIN <= lanes[key][k].start + by <= i64::MAX,
    ensures
        delayed_lanes(lanes, by).dom() == lanes.dom(),
        delayed_lanes(lanes, by)[key].len() == lanes[key].len(),
        starts_from(delayed_lanes(lanes, by)[key][k], lanes[key][k], by as int),
{
    assert(delayed_lanes(lanes, by).dom() =~= lanes.dom());
}

} // verus!
