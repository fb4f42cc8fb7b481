//! Properties of a campaign over whole sequences of calls.

use vstd::prelude::*;

use crate::campaign::{
    fresh_campaign, after_execute, after_refund, contribute_events, execute_error, refund_error, stretch_crossed,
    stretch_events, AccountId, CampaignModel, StretchGoalReachedEvent,
};
use crate::errors::CrowdfundError;
use crate::laws::{
    call_admissible, call_error, law_calls_keep_invariant, lemma_stretch_events_are_new,
    next_state, CampaignCall,
};

verus! {

/// The state after the calls `calls` (each with its ledger time), in order.
pub open spec fn run(m: CampaignModel, calls: Seq<(CampaignCall, u64)>) -> CampaignModel
    decreases calls.len(),
{
    if calls.len() == 0 {
        m
    } else {
        run(next_state(m, calls[0].0, calls[0].1), calls.drop_first())
    }
}

/// Every call of the sequence is one the host can hand a campaign.
pub open spec fn all_admissible(calls: Seq<(CampaignCall, u64)>) -> bool {
    forall|i: int| 0 <= i < calls.len() ==> call_admissible(#[trigger] calls[i].0)
}

/// Ledger time never goes backwards along the sequence.
pub open spec fn times_nondecreasing(calls: Seq<(CampaignCall, u64)>) -> bool {
    forall|i: int, j: int| 0 <= i <= j < calls.len() ==> #[trigger] calls[i].1 <= #[trigger] calls[j].1
}

/// Every call of the sequence happens at ledger time `t` or later.
pub open spec fn all_at_or_after(calls: Seq<(CampaignCall, u64)>, t: u64) -> bool {
    forall|i: int| 0 <= i < calls.len() ==> t <= #[trigger] calls[i].1
}

/// Whether an `execute_campaign` of the sequence is accepted.
pub open spec fn withdrawn(m: CampaignModel, calls: Seq<(CampaignCall, u64)>) -> bool
    decreases calls.len(),
{
    if calls.len() == 0 {
        false
    } else {
        ||| (calls[0].0 is Execute && call_error(m, calls[0].0, calls[0].1) is None)
        ||| withdrawn(next_state(m, calls[0].0, calls[0].1), calls.drop_first())
    }
}

/// Whether a `claim_refund` of the sequence is accepted.
pub open spec fn refund_paid(m: CampaignModel, calls: Seq<(CampaignCall, u64)>) -> bool
    decreases calls.len(),
{
    if calls.len() == 0 {
        false
    } else {
        ||| (calls[0].0 is Refund && call_error(m, calls[0].0, calls[0].1) is None)
        ||| refund_paid(next_state(m, calls[0].0, calls[0].1), calls.drop_first())
    }
}

/// The first call keeps the invariant and the rest stays admissible.
proof fn lemma_admissible_step(m: CampaignModel, calls: Seq<(CampaignCall, u64)>)
    requires
        m.wf(),
        all_admissible(calls),
        calls.len() > 0,
    ensures
        next_state(m, calls[0].0, calls[0].1).wf(),
        all_admissible(calls.drop_first()),
{
    assert(call_admissible(calls[0].0));
    law_calls_keep_invariant(m, calls[0].0, calls[0].1);
    assert forall|i: int| 0 <= i < calls.drop_first().len() implies call_admissible(
        #[trigger] calls.drop_first()[i].0,
    ) by {
        assert(calls.drop_first()[i] == calls[i + 1]);
    }
}

proof fn lemma_run_keeps_invariant(m: CampaignModel, calls: Seq<(CampaignCall, u64)>)
    requires
        m.wf(),
        all_admissible(calls),
    ensures
        run(m, calls).wf(),
    decreases calls.len(),
{
    if calls.len() > 0 {
        lemma_admissible_step(m, calls);
        lemma_run_keeps_invariant(next_state(m, calls[0].0, calls[0].1), calls.drop_first());
    }
}

/// Every reachable state satisfies the campaign invariant.
pub proof fn law_run_keeps_invariant(m: CampaignModel, calls: Seq<(CampaignCall, u64)>)
    requires
        m.wf(),
        all_admissible(calls),
    ensures
        run(m, calls).wf(),
{
    lemma_run_keeps_invariant(m, calls);
}

/// The executed flag is false until the first accepted `execute_campaign`
/// and true from then on: after any sequence of calls it is set exactly
/// when it was set before or a withdrawal of the sequence was accepted.
pub proof fn law_executed_exactly_after_withdrawal(m: CampaignModel, calls: Seq<(CampaignCall, u64)>)
    requires
        m.wf(),
        all_admissible(calls),
    ensures
        run(m, calls).executed == (m.executed || withdrawn(m, calls)),
    decreases calls.len(),
{
    if calls.len() > 0 {
        let (call, now) = calls[0];
        let n = next_state(m, call, now);
        assert(n.executed == (m.executed || (call is Execute && call_error(m, call, now) is None)));
        lemma_admissible_step(m, calls);
        law_executed_exactly_after_withdrawal(n, calls.drop_first());
    }
}

/// The invariant survives a call; a stretch goal list longer than
/// `u32::MAX` is the only call that could break it, and it leaves the
/// `executed` flag, the terms and the raised total alone in any case.
proof fn law_calls_keep_invariant_unchecked(m: CampaignModel, call: CampaignCall, now: u64)
    requires
        m.wf(),
    ensures
        call_admissible(call) ==> next_state(m, call, now).wf(),
        next_state(m, call, now).config == m.config || m.config is None,
        next_state(m, call, now).raised >= m.raised,
{
    if call_admissible(call) {
        law_calls_keep_invariant(m, call, now);
    }
}

/// The raised total changes only through an accepted `contribute`.
pub proof fn law_raised_changes_only_by_contribution(m: CampaignModel, call: CampaignCall, now: u64)
    requires
        m.wf(),
        next_state(m, call, now).raised != m.raised,
    ensures
        call is Contribute,
        call_error(m, call, now) is None,
{
}

/// After the deadline nothing moves the terms, the raised total or the
/// executed flag (unless a withdrawal is accepted); a campaign that missed
/// its goal accepts no withdrawal, and one that met it keeps every pledge and
/// pays no refund.
proof fn lemma_after_deadline(m: CampaignModel, calls: Seq<(CampaignCall, u64)>, t: u64)
    requires
        m.wf(),
        m.config is Some,
        t > m.config.unwrap().deadline,
        all_at_or_after(calls, t),
    ensures
        run(m, calls).config == m.config,
        run(m, calls).raised == m.raised,
        run(m, calls).executed == (m.executed || withdrawn(m, calls)),
        m.raised < m.config.unwrap().goal ==> !withdrawn(m, calls),
        m.raised >= m.config.unwrap().goal ==> run(m, calls).pledges == m.pledges && !refund_paid(
            m,
            calls,
        ),
    decreases calls.len(),
{
    if calls.len() > 0 {
        let (call, now) = calls[0];
        assert(t <= calls[0].1);
        let n = next_state(m, call, now);
        law_calls_keep_invariant_unchecked(m, call, now);
        assert(n.config == m.config);
        assert(n.raised == m.raised);
        if !call_admissible(call) {
            // A stretch goal list is refused after the deadline whatever its length.
            assert(n == m);
        }
        assert(n.wf());
        assert(m.raised >= m.config.unwrap().goal ==> n.pledges == m.pledges);
        let rest = calls.drop_first();
        assert(all_at_or_after(rest, t)) by {
            assert forall|i: int| 0 <= i < rest.len() implies t <= #[trigger] rest[i].1 by {
                assert(rest[i] == calls[i + 1]);
            }
        }
        lemma_after_deadline(n, rest, t);
    }
}

/// Once a refund has been paid, the organizer can never withdraw: after any
/// later calls, `execute_campaign` is refused with `GoalNotReached` and the
/// campaign stays unexecuted.
pub proof fn law_refund_blocks_withdrawal_forever(
    m: CampaignModel,
    contributor: AccountId,
    t: u64,
    calls: Seq<(CampaignCall, u64)>,
    later: u64,
)
    requires
        m.wf(),
        refund_error(m, contributor, t) is None,
        all_at_or_after(calls, t),
        later >= t,
    ensures
        execute_error(run(after_refund(m, contributor), calls), later) == Some(
            CrowdfundError::GoalNotReached,
        ),
        !run(after_refund(m, contributor), calls).executed,
        !withdrawn(after_refund(m, contributor), calls),
{
    let m2 = after_refund(m, contributor);
    law_calls_keep_invariant(m, CampaignCall::Refund { contributor }, t);
    assert(m2 == next_state(m, CampaignCall::Refund { contributor }, t));
    lemma_after_deadline(m2, calls, t);
}

/// Once the funds have been withdrawn, no refund is ever paid: after any
/// later calls, every `claim_refund` is refused with `GoalReached` and every
/// pledge is as it was.
pub proof fn law_withdrawal_blocks_refunds_forever(
    m: CampaignModel,
    t: u64,
    calls: Seq<(CampaignCall, u64)>,
    later: u64,
    contributor: AccountId,
)
    requires
        m.wf(),
        execute_error(m, t) is None,
        all_at_or_after(calls, t),
        later >= t,
    ensures
        refund_error(run(after_execute(m), calls), contributor, later) == Some(
            CrowdfundError::GoalReached,
        ),
        run(after_execute(m), calls).pledge_of(contributor) == m.pledge_of(contributor),
        !refund_paid(after_execute(m), calls),
{
    let m2 = after_execute(m);
    law_calls_keep_invariant(m, CampaignCall::Execute, t);
    assert(m2 == next_state(m, CampaignCall::Execute, t));
    lemma_after_deadline(m2, calls, t);
}

/// Over a campaign's life a refund and the organizer's withdrawal never
/// both happen: in any sequence of calls with non-decreasing ledger time, it
/// is never the case that a `claim_refund` and an `execute_campaign` are
/// both accepted.
pub proof fn law_refund_and_withdrawal_never_both(m: CampaignModel, calls: Seq<(CampaignCall, u64)>)
    requires
        m.wf(),
        all_admissible(calls),
        times_nondecreasing(calls),
    ensures
        !(withdrawn(m, calls) && refund_paid(m, calls)),
    decreases calls.len(),
{
    if calls.len() > 0 {
        let (call, now) = calls[0];
        let n = next_state(m, call, now);
        let rest = calls.drop_first();
        lemma_admissible_step(m, calls);
        assert(all_at_or_after(rest, now)) by {
            assert forall|i: int| 0 <= i < rest.len() implies now <= #[trigger] rest[i].1 by {
                assert(rest[i] == calls[i + 1]);
                assert(calls[0].1 <= calls[i + 1].1);
            }
        }
        assert(times_nondecreasing(rest)) by {
            assert forall|i: int, j: int| 0 <= i <= j < rest.len() implies #[trigger] rest[i].1
                <= #[trigger] rest[j].1 by {
                assert(rest[i] == calls[i + 1]);
                assert(rest[j] == calls[j + 1]);
                assert(calls[i + 1].1 <= calls[j + 1].1);
            }
        }
        if call_error(m, call, now) is None {
            match call {
                CampaignCall::Refund { contributor } => {
                    law_refund_blocks_withdrawal_forever(m, contributor, now, rest, now);
                },
                CampaignCall::Execute => {
                    law_withdrawal_blocks_refunds_forever(m, now, rest, now, 0);
                },
                _ => {
                    law_refund_and_withdrawal_never_both(n, rest);
                },
            }
        } else {
            law_refund_and_withdrawal_never_both(n, rest);
        }
    }
}

// ── Money over a sequence of calls ───────────────────────────────────────────

/// What an accepted `contribute` by `contributor` adds (zero for any other call).
pub open spec fn step_contribution(
    m: CampaignModel,
    call: CampaignCall,
    now: u64,
    contributor: AccountId,
) -> int {
    match call {
        CampaignCall::Contribute { contributor: who, amount } => if who == contributor
            && call_error(m, call, now) is None {
            amount as int
        } else {
            0
        },
        _ => 0,
    }
}

/// What an accepted `claim_refund` pays `contributor` (zero for any other call).
pub open spec fn step_refund(
    m: CampaignModel,
    call: CampaignCall,
    now: u64,
    contributor: AccountId,
) -> int {
    match call {
        CampaignCall::Refund { contributor: who } => if who == contributor && call_error(
            m,
            call,
            now,
        ) is None {
            m.pledge_of(contributor) as int
        } else {
            0
        },
        _ => 0,
    }
}

/// What an accepted `contribute` adds, whoever makes it.
pub open spec fn step_contribution_total(m: CampaignModel, call: CampaignCall, now: u64) -> int {
    match call {
        CampaignCall::Contribute { contributor, amount } => step_contribution(
            m,
            call,
            now,
            contributor,
        ),
        _ => 0,
    }
}

/// What an accepted `claim_refund` pays, whoever receives it.
pub open spec fn step_refund_total(m: CampaignModel, call: CampaignCall, now: u64) -> int {
    match call {
        CampaignCall::Refund { contributor } => step_refund(m, call, now, contributor),
        _ => 0,
    }
}

/// An accepted `contribute` does not push the raised total past `i128::MAX`.
pub open spec fn step_fits(m: CampaignModel, call: CampaignCall, now: u64) -> bool {
    match call {
        CampaignCall::Contribute { contributor, amount } => call_error(m, call, now) is None
            ==> m.raised + amount <= i128::MAX,
        _ => true,
    }
}

/// No accepted contribution of the sequence saturates the raised total.
pub open spec fn no_saturation(m: CampaignModel, calls: Seq<(CampaignCall, u64)>) -> bool
    decreases calls.len(),
{
    calls.len() > 0 ==> {
        &&& step_fits(m, calls[0].0, calls[0].1)
        &&& no_saturation(next_state(m, calls[0].0, calls[0].1), calls.drop_first())
    }
}

/// The total `contributor` paid in by accepted contributions of the sequence.
pub open spec fn contributed_by(
    m: CampaignModel,
    calls: Seq<(CampaignCall, u64)>,
    contributor: AccountId,
) -> int
    decreases calls.len(),
{
    if calls.len() == 0 {
        0
    } else {
        step_contribution(m, calls[0].0, calls[0].1, contributor) + contributed_by(
            next_state(m, calls[0].0, calls[0].1),
            calls.drop_first(),
            contributor,
        )
    }
}

/// The total paid back to `contributor` by accepted refunds of the sequence.
pub open spec fn refunded_to(
    m: CampaignModel,
    calls: Seq<(CampaignCall, u64)>,
    contributor: AccountId,
) -> int
    decreases calls.len(),
{
    if calls.len() == 0 {
        0
    } else {
        step_refund(m, calls[0].0, calls[0].1, contributor) + refunded_to(
            next_state(m, calls[0].0, calls[0].1),
            calls.drop_first(),
            contributor,
        )
    }
}

/// The total paid in by all accepted contributions of the sequence.
pub open spec fn contributed_total(m: CampaignModel, calls: Seq<(CampaignCall, u64)>) -> int
    decreases calls.len(),
{
    if calls.len() == 0 {
        0
    } else {
        step_contribution_total(m, calls[0].0, calls[0].1) + contributed_total(
            next_state(m, calls[0].0, calls[0].1),
            calls.drop_first(),
        )
    }
}

/// The total paid back by all accepted refunds of the sequence.
pub open spec fn refunded_total(m: CampaignModel, calls: Seq<(CampaignCall, u64)>) -> int
    decreases calls.len(),
{
    if calls.len() == 0 {
        0
    } else {
        step_refund_total(m, calls[0].0, calls[0].1) + refunded_total(
            next_state(m, calls[0].0, calls[0].1),
            calls.drop_first(),
        )
    }
}

/// The sum of the pledges recorded for the contributors in `keys`.
pub open spec fn pledge_sum(pledges: Map<AccountId, i128>, keys: Set<AccountId>) -> int
    decreases keys.len(),
    when keys.finite()
{
    if keys.len() == 0 {
        0
    } else {
        let a = keys.choose();
        (if pledges.contains_key(a) {
            pledges[a] as int
        } else {
            0
        }) + pledge_sum(pledges, keys.remove(a))
    }
}

/// The sum of all recorded pledges.
pub open spec fn total_pledged(m: CampaignModel) -> int {
    pledge_sum(m.pledges, m.pledges.dom())
}

/// The value of the pledge of `a` in `pledges` (zero when none).
pub open spec fn pledge_value(pledges: Map<AccountId, i128>, a: AccountId) -> int {
    if pledges.contains_key(a) {
        pledges[a] as int
    } else {
        0
    }
}

proof fn lemma_sum_remove(pledges: Map<AccountId, i128>, keys: Set<AccountId>, a: AccountId)
    requires
        keys.finite(),
        keys.contains(a),
    ensures
        pledge_sum(pledges, keys) == pledge_value(pledges, a) + pledge_sum(pledges, keys.remove(a)),
    decreases keys.len(),
{
    let b = keys.choose();
    assert(keys.len() != 0);
    assert(keys.contains(b));
    if b != a {
        lemma_sum_remove(pledges, keys.remove(b), a);
        lemma_sum_remove(pledges, keys.remove(a), b);
        assert(keys.remove(b).remove(a) =~= keys.remove(a).remove(b));
    }
}

proof fn lemma_sum_frame(p: Map<AccountId, i128>, q: Map<AccountId, i128>, keys: Set<AccountId>)
    requires
        keys.finite(),
        forall|k: AccountId| keys.contains(k) ==> pledge_value(p, k) == pledge_value(q, k),
    ensures
        pledge_sum(p, keys) == pledge_sum(q, keys),
    decreases keys.len(),
{
    if keys.len() != 0 {
        let a = keys.choose();
        assert(keys.contains(a));
        lemma_sum_frame(p, q, keys.remove(a));
    }
}

proof fn lemma_sum_nonneg(p: Map<AccountId, i128>, keys: Set<AccountId>)
    requires
        keys.finite(),
        forall|k: AccountId| #[trigger] p.contains_key(k) ==> p[k] >= 0,
    ensures
        pledge_sum(p, keys) >= 0,
    decreases keys.len(),
{
    if keys.len() != 0 {
        let a = keys.choose();
        assert(keys.contains(a));
        lemma_sum_nonneg(p, keys.remove(a));
    }
}

/// Setting one pledge changes the total by the difference.
proof fn lemma_total_after_insert(p: Map<AccountId, i128>, c: AccountId, v: i128)
    requires
        p.dom().finite(),
    ensures
        pledge_sum(p.insert(c, v), p.insert(c, v).dom()) == pledge_sum(p, p.dom()) - pledge_value(
            p,
            c,
        ) + v,
{
    let p2 = p.insert(c, v);
    let d = p.dom();
    assert(p2.dom() =~= d.insert(c));
    lemma_sum_remove(p2, p2.dom(), c);
    assert(p2.dom().remove(c) =~= d.remove(c));
    lemma_sum_frame(p2, p, d.remove(c));
    if d.contains(c) {
        lemma_sum_remove(p, d, c);
    } else {
        assert(d.remove(c) =~= d);
    }
}

/// One call moves money as the step quantities say: the raised total grows
/// by the contribution, each pledge and the total of pledges by the
/// contribution minus the refund.
proof fn lemma_step_accounting(m: CampaignModel, call: CampaignCall, now: u64, c: AccountId)
    requires
        m.wf(),
        step_fits(m, call, now),
    ensures
        next_state(m, call, now).raised == m.raised + step_contribution_total(m, call, now),
        next_state(m, call, now).pledge_of(c) == m.pledge_of(c) + step_contribution(m, call, now, c)
            - step_refund(m, call, now, c),
        total_pledged(next_state(m, call, now)) == total_pledged(m) + step_contribution_total(
            m,
            call,
            now,
        ) - step_refund_total(m, call, now),
        step_contribution(m, call, now, c) >= 0,
        step_refund(m, call, now, c) >= 0,
        step_refund_total(m, call, now) >= 0,
        (call is Refund && call_error(m, call, now) is None) ==> step_refund_total(m, call, now) > 0,
{
    let n = next_state(m, call, now);
    if call_error(m, call, now) is None {
        match call {
            CampaignCall::Contribute { contributor, amount } => {
                assert(m.pledge_of(contributor) <= m.raised);
                lemma_total_after_insert(
                    m.pledges,
                    contributor,
                    (m.pledge_of(contributor) + amount) as i128,
                );
            },
            CampaignCall::Refund { contributor } => {
                lemma_total_after_insert(m.pledges, contributor, 0);
            },
            _ => {},
        }
    }
}

/// An accepted `contribute` by `contributor` does not push their own pledge
/// past `i128::MAX`.
pub open spec fn step_pledge_fits(
    m: CampaignModel,
    call: CampaignCall,
    now: u64,
    contributor: AccountId,
) -> bool {
    match call {
        CampaignCall::Contribute { contributor: who, amount } => (who == contributor && call_error(
            m,
            call,
            now,
        ) is None) ==> m.pledge_of(contributor) + amount <= i128::MAX,
        _ => true,
    }
}

/// No accepted contribution of the sequence saturates `contributor`'s pledge.
pub open spec fn pledge_never_saturates(
    m: CampaignModel,
    calls: Seq<(CampaignCall, u64)>,
    contributor: AccountId,
) -> bool
    decreases calls.len(),
{
    calls.len() > 0 ==> {
        &&& step_pledge_fits(m, calls[0].0, calls[0].1, contributor)
        &&& pledge_never_saturates(
            next_state(m, calls[0].0, calls[0].1),
            calls.drop_first(),
            contributor,
        )
    }
}

/// One call changes a pledge by the contribution minus the refund when the
/// pledge does not saturate, and never by more otherwise.
proof fn lemma_step_pledge(m: CampaignModel, call: CampaignCall, now: u64, c: AccountId)
    requires
        m.wf(),
    ensures
        next_state(m, call, now).pledge_of(c) + step_refund(m, call, now, c) <= m.pledge_of(c)
            + step_contribution(m, call, now, c),
        step_pledge_fits(m, call, now, c) ==> next_state(m, call, now).pledge_of(c) == m.pledge_of(
            c,
        ) + step_contribution(m, call, now, c) - step_refund(m, call, now, c),
        step_contribution(m, call, now, c) >= 0,
        step_refund(m, call, now, c) >= 0,
{
    if call_error(m, call, now) is None {
        match call {
            CampaignCall::Contribute { contributor, amount } => {
                assert(m.pledge_of(contributor) >= 0);
            },
            _ => {},
        }
    }
}

/// One call on a campaign whose raised total is saturated, or one accepted
/// contribution that saturates it, leaves the raised total at `i128::MAX`
/// and pays no refund: a saturated total is at least any goal.
proof fn lemma_step_saturated(m: CampaignModel, call: CampaignCall, now: u64)
    requires
        m.wf(),
        m.raised == i128::MAX || !step_fits(m, call, now),
    ensures
        next_state(m, call, now).raised == i128::MAX,
        step_refund_total(m, call, now) == 0,
        step_contribution_total(m, call, now) >= 0,
{
}

/// Refunds stay within the raised total, whether or not it saturates:
/// before saturation the pledges plus the refunds equal the raised total;
/// once it saturates no refund follows.
proof fn lemma_refunds_within_raised(m: CampaignModel, calls: Seq<(CampaignCall, u64)>, paid: int)
    requires
        m.wf(),
        all_admissible(calls),
        0 <= paid,
        (total_pledged(m) + paid == m.raised) || (m.raised == i128::MAX && paid <= m.raised),
    ensures
        paid + refunded_total(m, calls) <= run(m, calls).raised,
        refunded_total(m, calls) >= 0,
    decreases calls.len(),
{
    if calls.len() > 0 {
        let (call, now) = calls[0];
        let n = next_state(m, call, now);
        lemma_admissible_step(m, calls);
        if m.raised == i128::MAX || !step_fits(m, call, now) {
            lemma_step_saturated(m, call, now);
            lemma_sum_nonneg(m.pledges, m.pledges.dom());
            lemma_refunds_within_raised(n, calls.drop_first(), paid);
        } else {
            lemma_step_accounting(m, call, now, 0);
            if total_pledged(m) + paid == m.raised {
                lemma_refunds_within_raised(n, calls.drop_first(), paid + step_refund_total(m, call, now));
            } else {
                assert(false);
            }
        }
    } else {
        lemma_sum_nonneg(m.pledges, m.pledges.dom());
    }
}

/// A pledge plus what was refunded never exceeds the pledge before plus
/// what was contributed.
proof fn lemma_pledge_bound(m: CampaignModel, calls: Seq<(CampaignCall, u64)>, c: AccountId)
    requires
        m.wf(),
        all_admissible(calls),
    ensures
        run(m, calls).pledge_of(c) + refunded_to(m, calls, c) <= m.pledge_of(c) + contributed_by(
            m,
            calls,
            c,
        ),
        run(m, calls).pledge_of(c) >= 0,
    decreases calls.len(),
{
    if calls.len() > 0 {
        let (call, now) = calls[0];
        lemma_step_pledge(m, call, now, c);
        lemma_admissible_step(m, calls);
        lemma_pledge_bound(next_state(m, call, now), calls.drop_first(), c);
    }
}

/// Over any sequence of calls without saturation the money adds up: the
/// raised total grows by exactly what was contributed; the pledges' total
/// plus everything refunded equals the pledges' total before plus
/// everything contributed; and for each contributor, their pledge plus what
/// they got back equals their pledge before plus what they paid in.
pub proof fn law_money_adds_up(
    m: CampaignModel,
    calls: Seq<(CampaignCall, u64)>,
    contributor: AccountId,
)
    requires
        m.wf(),
        all_admissible(calls),
        no_saturation(m, calls),
    ensures
        run(m, calls).raised == m.raised + contributed_total(m, calls),
        total_pledged(run(m, calls)) + refunded_total(m, calls) == total_pledged(m)
            + contributed_total(m, calls),
        run(m, calls).pledge_of(contributor) + refunded_to(m, calls, contributor) == m.pledge_of(
            contributor,
        ) + contributed_by(m, calls, contributor),
        refunded_total(m, calls) >= 0,
        refunded_to(m, calls, contributor) >= 0,
        refund_paid(m, calls) <==> refunded_total(m, calls) > 0,
    decreases calls.len(),
{
    if calls.len() > 0 {
        let (call, now) = calls[0];
        lemma_step_accounting(m, call, now, contributor);
        lemma_admissible_step(m, calls);
        law_money_adds_up(next_state(m, call, now), calls.drop_first(), contributor);
    }
}

/// From a fresh campaign, refunds never exceed contributions, over every
/// sequence of calls: each contributor gets back at most what they paid in,
/// and all refunds together stay within the raised total.
pub proof fn law_refunds_never_exceed_contributions(
    calls: Seq<(CampaignCall, u64)>,
    contributor: AccountId,
)
    requires
        all_admissible(calls),
    ensures
        refunded_to(fresh_campaign(), calls, contributor) <= contributed_by(
            fresh_campaign(),
            calls,
            contributor,
        ),
        0 <= refunded_total(fresh_campaign(), calls) <= run(fresh_campaign(), calls).raised,
{
    let m = fresh_campaign();
    assert(m.pledges.dom() =~= Set::empty());
    assert(total_pledged(m) == 0);
    lemma_pledge_bound(m, calls, contributor);
    lemma_refunds_within_raised(m, calls, 0);
}

/// From a fresh campaign, as long as the raised total never saturates, the
/// recorded pledges add up to the raised total minus the refunds, and they
/// equal the raised total exactly until the first refund is paid.
pub proof fn law_pledges_account_for_raised(calls: Seq<(CampaignCall, u64)>)
    requires
        all_admissible(calls),
        no_saturation(fresh_campaign(), calls),
    ensures
        total_pledged(run(fresh_campaign(), calls)) + refunded_total(fresh_campaign(), calls) == run(
            fresh_campaign(),
            calls,
        ).raised,
        total_pledged(run(fresh_campaign(), calls)) == run(fresh_campaign(), calls).raised
            <==> !refund_paid(fresh_campaign(), calls),
{
    let m = fresh_campaign();
    assert(m.pledges.dom() =~= Set::empty());
    assert(total_pledged(m) == 0);
    law_money_adds_up(m, calls, 0);
}

/// Whether some refund to `contributor` is accepted in the sequence, and if
/// so what `contributor` paid in by accepted contributions after the last one.
pub open spec fn contributed_since_refund(
    m: CampaignModel,
    calls: Seq<(CampaignCall, u64)>,
    contributor: AccountId,
) -> Option<int>
    decreases calls.len(),
{
    if calls.len() == 0 {
        None
    } else {
        let n = next_state(m, calls[0].0, calls[0].1);
        let rest = calls.drop_first();
        match contributed_since_refund(n, rest, contributor) {
            Some(s) => Some(s),
            None => if calls[0].0 == (CampaignCall::Refund { contributor }) && call_error(
                m,
                calls[0].0,
                calls[0].1,
            ) is None {
                Some(contributed_by(n, rest, contributor))
            } else {
                None
            },
        }
    }
}

/// A pledge is what its contributor paid in since their last refund: after
/// any sequence of calls in which that contributor's pledge never saturates,
/// the recorded pledge equals the contributions after the last accepted
/// refund, or, when no refund was paid, the earlier pledge plus all
/// contributions.
pub proof fn law_pledge_is_contributions_since_last_refund(
    m: CampaignModel,
    calls: Seq<(CampaignCall, u64)>,
    contributor: AccountId,
)
    requires
        m.wf(),
        all_admissible(calls),
        pledge_never_saturates(m, calls, contributor),
    ensures
        run(m, calls).pledge_of(contributor) == match contributed_since_refund(
            m,
            calls,
            contributor,
        ) {
            Some(s) => s,
            None => m.pledge_of(contributor) + contributed_by(m, calls, contributor),
        },
    decreases calls.len(),
{
    if calls.len() > 0 {
        let (call, now) = calls[0];
        let n = next_state(m, call, now);
        let rest = calls.drop_first();
        lemma_step_pledge(m, call, now, contributor);
        lemma_admissible_step(m, calls);
        law_pledge_is_contributions_since_last_refund(n, rest, contributor);
        if call == (CampaignCall::Refund { contributor }) && call_error(m, call, now) is None {
            assert(n.pledge_of(contributor) == 0);
        }
    }
}

// ── Stretch goal announcements over a sequence of calls ─────────────────────

/// The stretch goal events an accepted call publishes.
pub open spec fn step_events(m: CampaignModel, call: CampaignCall, now: u64) -> Seq<
    StretchGoalReachedEvent,
> {
    match call {
        CampaignCall::Contribute { contributor, amount } => if call_error(m, call, now) is None {
            contribute_events(m, amount)
        } else {
            Seq::empty()
        },
        _ => Seq::empty(),
    }
}

/// Every stretch goal event published along the sequence, in order.
pub open spec fn announcements(m: CampaignModel, calls: Seq<(CampaignCall, u64)>) -> Seq<
    StretchGoalReachedEvent,
>
    decreases calls.len(),
{
    if calls.len() == 0 {
        Seq::empty()
    } else {
        step_events(m, calls[0].0, calls[0].1) + announcements(
            next_state(m, calls[0].0, calls[0].1),
            calls.drop_first(),
        )
    }
}

/// Each stretch goal is announced at most once over any sequence of calls
/// (stretch goal lists may be replaced along the way): no milestone index
/// appears in two events, none was announced before the sequence, and every
/// announced index is marked announced at its end.
pub proof fn law_each_stretch_goal_announced_once(m: CampaignModel, calls: Seq<(CampaignCall, u64)>)
    requires
        m.wf(),
        all_admissible(calls),
    ensures
        forall|i: int, j: int|
            0 <= i < j < announcements(m, calls).len() ==> (#[trigger] announcements(m, calls)[i]).milestone_index
                != (#[trigger] announcements(m, calls)[j]).milestone_index,
        forall|i: int|
            0 <= i < announcements(m, calls).len() ==> !m.triggered.contains(
                (#[trigger] announcements(m, calls)[i]).milestone_index,
            ) && run(m, calls).triggered.contains(announcements(m, calls)[i].milestone_index),
    decreases calls.len(),
{
    if calls.len() > 0 {
        let (call, now) = calls[0];
        let n = next_state(m, call, now);
        let rest = calls.drop_first();
        lemma_admissible_step(m, calls);
        law_each_stretch_goal_announced_once(n, rest);
        lemma_triggered_grows(n, rest);
        let first = step_events(m, call, now);
        let later = announcements(n, rest);
        let all = announcements(m, calls);
        assert(all == first + later);
        // The first call's events are new, distinct, and marked in `n`.
        assert forall|i: int| 0 <= i < first.len() implies {
            &&& !m.triggered.contains(#[trigger] first[i].milestone_index)
            &&& n.triggered.contains(first[i].milestone_index)
        } by {
            match call {
                CampaignCall::Contribute { contributor, amount } => {
                    let r = n.raised;
                    lemma_stretch_events_are_new(
                        m.stretch_goals,
                        m.triggered,
                        r,
                        m.stretch_goals.len(),
                    );
                    assert(stretch_crossed(m.stretch_goals, r).contains(first[i].milestone_index));
                },
                _ => {},
            }
        }
        assert forall|i: int, j: int| 0 <= i < j < first.len() implies (
        #[trigger] first[i]).milestone_index != (#[trigger] first[j]).milestone_index by {
            match call {
                CampaignCall::Contribute { contributor, amount } => {
                    lemma_stretch_events_are_new(
                        m.stretch_goals,
                        m.triggered,
                        n.raised,
                        m.stretch_goals.len(),
                    );
                },
                _ => {},
            }
        }
        assert forall|i: int, j: int| 0 <= i < j < all.len() implies (
        #[trigger] all[i]).milestone_index != (#[trigger] all[j]).milestone_index by {
            if j < first.len() {
                assert(all[i] == first[i] && all[j] == first[j]);
            } else if i >= first.len() {
                assert(all[i] == later[i - first.len()] && all[j] == later[j - first.len()]);
            } else {
                assert(all[i] == first[i] && all[j] == later[j - first.len()]);
                assert(n.triggered.contains(first[i].milestone_index));
                assert(!n.triggered.contains(later[j - first.len()].milestone_index));
            }
        }
        assert forall|i: int| 0 <= i < all.len() implies !m.triggered.contains(
            (#[trigger] all[i]).milestone_index,
        ) && run(m, calls).triggered.contains(all[i].milestone_index) by {
            if i < first.len() {
                assert(all[i] == first[i]);
            } else {
                assert(all[i] == later[i - first.len()]);
                assert(m.triggered.subset_of(n.triggered));
            }
        }
    }
}

proof fn lemma_triggered_grows(m: CampaignModel, calls: Seq<(CampaignCall, u64)>)
    ensures
        m.triggered.subset_of(run(m, calls).triggered),
    decreases calls.len(),
{
    if calls.len() > 0 {
        lemma_triggered_grows(next_state(m, calls[0].0, calls[0].1), calls.drop_first());
    }
}

/// Checking the same raised total twice announces nothing the second time.
pub proof fn law_second_check_announces_nothing(
    goals: Seq<i128>,
    triggered: Set<u32>,
    raised: i128,
    n: nat,
)
    requires
        n <= goals.len(),
        goals.len() <= u32::MAX,
    ensures
        stretch_events(goals, triggered.union(stretch_crossed(goals, raised)), raised, n).len()
            == 0,
    decreases n,
{
    if n > 0 {
        law_second_check_announces_nothing(goals, triggered, raised, (n - 1) as nat);
        assert(((n - 1) as u32) as int == n - 1);
    }
}

} // verus!
