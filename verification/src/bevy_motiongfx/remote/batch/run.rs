//! Applying several edits, and taking them back.
use crate::bevy_motiongfx::manager::TimelineId;
use crate::bevy_motiongfx::remote::batch::apply::{
    apply_op, edits_change_content_only, only_content, only_content_twice, op_applied,
};
use crate::bevy_motiongfx::remote::batch::insert::Applied;
use crate::bevy_motiongfx::remote::batch::op::{is_stamped, stamp_insert_id, EditOp, OpResult};
use crate::bevy_motiongfx::remote::fault::Fault;
use crate::bevy_motiongfx::remote::host::RemoteHost;
use crate::bevy_motiongfx::remote::studio::{Studio, StudioModel};
use vstd::prelude::*;

verus! {

/// Whether the edits were applied one after another, with those results and
/// inverses.
pub open spec fn ops_run<H: RemoteHost>(
    host: &H,
    id: TimelineId,
    ops: Seq<EditOp>,
    trace: Seq<StudioModel>,
    results: Seq<OpResult>,
    inverses: Seq<EditOp>,
) -> bool {
    &&& results.len() == ops.len()
    &&& inverses.len() == ops.len()
    &&& trace.len() == ops.len() + 1
    &&& forall|i: int|
        0 <= i < ops.len() ==> op_applied(
            host,
            id,
            #[trigger] ops[i],
            trace[i],
            trace[i + 1],
            Ok((results[i], inverses[i])),
        )
}

/// Whether the edits as they are kept are those.
pub open spec fn all_stamped(
    ops: Seq<EditOp>,
    results: Seq<OpResult>,
    stamped: Seq<EditOp>,
) -> bool {
    &&& stamped.len() == ops.len()
    &&& forall|i: int|
        0 <= i < ops.len() ==> is_stamped(#[trigger] ops[i], results[i], stamped[i])
}

/// One more edit after others.
pub proof fn one_more_run<H: RemoteHost>(
    host: &H,
    id: TimelineId,
    ops: Seq<EditOp>,
    trace: Seq<StudioModel>,
    results: Seq<OpResult>,
    inverses: Seq<EditOp>,
    op: EditOp,
    after: StudioModel,
    result: OpResult,
    inverse: EditOp,
)
    requires
        ops_run(host, id, ops, trace, results, inverses),
        op_applied(host, id, op, trace.last(), after, Ok((result, inverse))),
    ensures
        ops_run(
            host,
            id,
            ops.push(op),
            trace.push(after),
            results.push(result),
            inverses.push(inverse),
        ),
{
    let more = ops.push(op);
    let longer = trace.push(after);
    assert forall|i: int| 0 <= i < more.len() implies op_applied(
        host,
        id,
        #[trigger] more[i],
        longer[i],
        longer[i + 1],
        Ok((results.push(result)[i], inverses.push(inverse)[i])),
    ) by {
        if i < ops.len() {
            assert(more[i] == ops[i]);
            assert(longer[i] == trace[i] && longer[i + 1] == trace[i + 1]);
        }
    }
}

/// Edits that were applied one after another change content only.
pub proof fn runs_change_content_only<H: RemoteHost>(
    host: &H,
    id: TimelineId,
    ops: Seq<EditOp>,
    trace: Seq<StudioModel>,
    results: Seq<OpResult>,
    inverses: Seq<EditOp>,
    n: int,
)
    requires
        ops_run(host, id, ops, trace, results, inverses),
        0 <= n <= ops.len(),
    ensures
        only_content(id, trace.first(), trace[n]),
    decreases n,
{
    if n > 0 {
        runs_change_content_only(host, id, ops, trace, results, inverses, n - 1);
        let result: Applied = Ok((results[n - 1], inverses[n - 1]));
        assert(op_applied(host, id, ops[n - 1], trace[n - 1], trace[n], result));
        edits_change_content_only(host, id, ops[n - 1], trace[n - 1], trace[n], result);
        only_content_twice(id, trace.first(), trace[n - 1], trace[n]);
    }
}

/// Whether an edit was applied, or failed.
pub open spec fn op_tried<H: RemoteHost>(
    host: &H,
    id: TimelineId,
    op: EditOp,
    before: StudioModel,
    after: StudioModel,
    failed: bool,
) -> bool {
    exists|result: Applied|
        {
            &&& #[trigger] op_applied(host, id, op, before, after, result)
            &&& failed == (result is Err)
        }
}

/// Whether the first of the edits were tried one after another.
pub open spec fn ops_tried<H: RemoteHost>(
    host: &H,
    id: TimelineId,
    ops: Seq<EditOp>,
    trace: Seq<StudioModel>,
    failed: Seq<bool>,
) -> bool {
    &&& failed.len() <= ops.len()
    &&& trace.len() == failed.len() + 1
    &&& forall|i: int|
        0 <= i < failed.len() ==> op_tried(
            host,
            id,
            ops[i],
            trace[i],
            trace[i + 1],
            #[trigger] failed[i],
        )
}

/// Whether all edits were tried one after another, and one of them failed or
/// none.
pub open spec fn all_tried<H: RemoteHost>(
    host: &H,
    id: TimelineId,
    ops: Seq<EditOp>,
    before: StudioModel,
    after: StudioModel,
    incomplete: bool,
) -> bool {
    exists|trace: Seq<StudioModel>, failed: Seq<bool>|
        {
            &&& #[trigger] ops_tried(host, id, ops, trace, failed)
            &&& failed.len() == ops.len()
            &&& trace.first() == before
            &&& trace.last() == after
            &&& incomplete == failed.contains(true)
        }
}

/// Applies edits one after another, whether or not some fail. Returns whether
/// one did.
pub fn try_all<H: RemoteHost>(
    host: &H,
    studio: &mut Studio,
    id: TimelineId,
    ops: &Vec<EditOp>,
) -> (incomplete: bool)
    ensures
        all_tried(host, id, ops@, old(studio)@, final(studio)@, incomplete),
        only_content(id, old(studio)@, final(studio)@),
{
    let ghost before = studio@;
    let ghost mut trace: Seq<StudioModel> = seq![before];
    let ghost mut failed: Seq<bool> = Seq::empty();
    let mut incomplete = false;
    let mut i: usize = 0;
    while i < ops.len()
        invariant
            i <= ops@.len(),
            failed.len() == i,
            ops_tried(host, id, ops@, trace, failed),
            trace.first() == before,
            trace.last() == studio@,
            incomplete == failed.contains(true),
            only_content(id, before, studio@),
        decreases ops@.len() - i,
    {
        let ghost current = studio@;
        let applied = apply_op(host, studio, id, &ops[i]);
        let ghost came_to = applied;
        let failing = applied.is_err();
        if failing {
            incomplete = true;
        }
        proof {
            edits_change_content_only(host, id, ops@[i as int], current, studio@, came_to);
            only_content_twice(id, before, current, studio@);
            assert(op_tried(host, id, ops@[i as int], current, studio@, failing));
            let longer = trace.push(studio@);
            let more = failed.push(failing);
            assert forall|j: int| 0 <= j < more.len() implies op_tried(
                host,
                id,
                ops@[j],
                longer[j],
                longer[j + 1],
                #[trigger] more[j],
            ) by {
                if j < failed.len() {
                    assert(more[j] == failed[j]);
                    assert(longer[j] == trace[j] && longer[j + 1] == trace[j + 1]);
                }
            }
            crate::seqs::push_adds_one(failed, failing);
            trace = longer;
            failed = more;
        }
        i += 1;
    }
    assert(ops_tried(host, id, ops@, trace, failed));
    incomplete
}

/// The edits in the opposite order.
pub fn reverse_ops(ops: &Vec<EditOp>) -> (reversed: Vec<EditOp>)
    ensures
        reversed@ == ops@.reverse(),
{
    let mut reversed: Vec<EditOp> = Vec::new();
    let mut i: usize = ops.len();
    while i > 0
        invariant
            i <= ops@.len(),
            reversed@.len() == ops@.len() - i,
            forall|j: int|
                0 <= j < reversed@.len() ==> #[trigger] reversed@[j] == ops@[ops@.len() - 1 - j],
        decreases i,
    {
        i -= 1;
        reversed.push(ops[i].copy());
    }
    assert(reversed@ =~= ops@.reverse());
    reversed
}

/// What applying several edits left.
pub struct RunState {
    pub results: Vec<OpResult>,
    /// The edits as they are kept.
    pub forward: Vec<EditOp>,
    pub inverses: Vec<EditOp>,
}

/// Whether the first of the edits were applied, and left that.
pub open spec fn run_left<H: RemoteHost>(
    host: &H,
    id: TimelineId,
    ops: Seq<EditOp>,
    before: StudioModel,
    after: StudioModel,
    results: Seq<OpResult>,
    forward: Seq<EditOp>,
    inverses: Seq<EditOp>,
) -> bool {
    exists|trace: Seq<StudioModel>|
        {
            &&& #[trigger] ops_run(host, id, ops, trace, results, inverses)
            &&& all_stamped(ops, results, forward)
            &&& trace.first() == before
            &&& trace.last() == after
        }
}

/// Whether applying the edits stopped at one that failed.
pub open spec fn run_failed<H: RemoteHost>(
    host: &H,
    id: TimelineId,
    op: EditOp,
    before: StudioModel,
    after: StudioModel,
    fault: Fault,
) -> bool {
    op_applied(host, id, op, before, after, Err(fault))
}

/// Applies edits one after another, until one fails. Returns what those
/// before it left, and why it failed.
pub fn apply_all<H: RemoteHost>(
    host: &H,
    studio: &mut Studio,
    id: TimelineId,
    ops: &Vec<EditOp>,
) -> (outcome: (RunState, Option<Fault>))
    ensures
        applied_until(
            host,
            id,
            ops@,
            old(studio)@,
            final(studio)@,
            outcome.0.results@,
            outcome.0.forward@,
            outcome.0.inverses@,
            outcome.1,
        ),
        only_content(id, old(studio)@, final(studio)@),
{
    let ghost before = studio@;
    let mut results: Vec<OpResult> = Vec::new();
    let mut forward: Vec<EditOp> = Vec::new();
    let mut inverses: Vec<EditOp> = Vec::new();
    let ghost mut trace: Seq<StudioModel> = seq![before];
    let mut i: usize = 0;
    assert(ops@.take(0) =~= Seq::<EditOp>::empty());
    while i < ops.len()
        invariant
            i <= ops@.len(),
            before == old(studio)@,
            ops_run(host, id, ops@.take(i as int), trace, results@, inverses@),
            all_stamped(ops@.take(i as int), results@, forward@),
            trace.first() == before,
            trace.last() == studio@,
            only_content(id, before, studio@),
        decreases ops@.len() - i,
    {
        let ghost current = studio@;
        let applied = apply_op(host, studio, id, &ops[i]);
        let ghost came_to = applied;
        let ghost done = ops@.take(i as int);
        proof {
            edits_change_content_only(host, id, ops@[i as int], current, studio@, came_to);
            only_content_twice(id, before, current, studio@);
            crate::seqs::take_one_more(ops@, i as int);
        }
        match applied {
            Ok((result, inverse)) => {
                let stamped = stamp_insert_id(ops[i].copy(), &result);
                proof {
                    one_more_run(
                        host,
                        id,
                        done,
                        trace,
                        results@,
                        inverses@,
                        ops@[i as int],
                        studio@,
                        result,
                        inverse,
                    );
                    trace = trace.push(studio@);
                    let more = done.push(ops@[i as int]);
                    assert forall|j: int| 0 <= j < more.len() implies is_stamped(
                        #[trigger] more[j],
                        results@.push(result)[j],
                        forward@.push(stamped)[j],
                    ) by {
                        if j < done.len() {
                            assert(more[j] == done[j]);
                        }
                    }
                }
                results.push(result);
                forward.push(stamped);
                inverses.push(inverse);
            },
            Err(fault) => {
                assert(run_left(
                    host,
                    id,
                    done,
                    before,
                    current,
                    results@,
                    forward@,
                    inverses@,
                ));
                assert(run_failed(host, id, ops@[i as int], current, studio@, fault));
                assert(stopped_at(
                    host,
                    id,
                    ops@,
                    before,
                    current,
                    studio@,
                    results@,
                    forward@,
                    inverses@,
                    fault,
                ));
                return (RunState { results, forward, inverses }, Some(fault));
            },
        }
        i += 1;
    }
    assert(ops@.take(i as int) =~= ops@);
    assert(run_left(host, id, ops@, before, studio@, results@, forward@, inverses@));
    (RunState { results, forward, inverses }, None)
}

/// Whether applying the edits stopped at the one behind those that left
/// something.
pub open spec fn stopped_at<H: RemoteHost>(
    host: &H,
    id: TimelineId,
    ops: Seq<EditOp>,
    before: StudioModel,
    between: StudioModel,
    after: StudioModel,
    results: Seq<OpResult>,
    forward: Seq<EditOp>,
    inverses: Seq<EditOp>,
    fault: Fault,
) -> bool {
    &&& results.len() < ops.len()
    &&& run_left(
        host,
        id,
        ops.take(results.len() as int),
        before,
        between,
        results,
        forward,
        inverses,
    )
    &&& run_failed(host, id, ops[results.len() as int], between, after, fault)
}

/// Whether the edits were applied until one failed, or all of them.
pub open spec fn applied_until<H: RemoteHost>(
    host: &H,
    id: TimelineId,
    ops: Seq<EditOp>,
    before: StudioModel,
    after: StudioModel,
    results: Seq<OpResult>,
    forward: Seq<EditOp>,
    inverses: Seq<EditOp>,
    fault: Option<Fault>,
) -> bool {
    match fault {
        None => run_left(host, id, ops, before, after, results, forward, inverses),
        Some(fault) => stops_in(
            host,
            id,
            ops,
            before,
            after,
            results,
            forward,
            inverses,
            fault,
        ),
    }
}

/// Whether applying the edits stopped at one that failed.
pub open spec fn stops_in<H: RemoteHost>(
    host: &H,
    id: TimelineId,
    ops: Seq<EditOp>,
    before: StudioModel,
    after: StudioModel,
    results: Seq<OpResult>,
    forward: Seq<EditOp>,
    inverses: Seq<EditOp>,
    fault: Fault,
) -> bool {
    exists|between: StudioModel| #[trigger]
        stopped_at(
            host,
            id,
            ops,
            before,
            between,
            after,
            results,
            forward,
            inverses,
            fault,
        )
}

} // verus!
