//! Properties of campaigns and of the factory that hold across calls.

use vstd::prelude::*;

use crate::campaign::{
    after_contribute, after_execute, after_init, after_refund, after_set_stretch_goals,
    contribute_error, execute_error, init_error,
    refund_error, refund_transfer, stretch_events, stretch_goals_error,
    AccountId, CampaignModel, Holder,
};
use crate::errors::CrowdfundError;
use crate::errors::FactoryError;
use crate::factory::{
    after_deploy, after_initialize, after_set_hash, deploy_error, initialize_error,
    next_campaign_ref, set_hash_error, FactoryModel, WasmHash,
};

verus! {

/// A call to one of the state-changing entry points of a campaign.
pub enum CampaignCall {
    Init { organizer: AccountId, token: AccountId, goal: i128, deadline: u64 },
    Contribute { contributor: AccountId, amount: i128 },
    Execute,
    Refund { contributor: AccountId },
    SetStretchGoals { milestones: Seq<i128> },
}

/// Why `call` at ledger time `now` is refused in state `m`, if it is.
pub open spec fn call_error(m: CampaignModel, call: CampaignCall, now: u64) -> Option<
    CrowdfundError,
> {
    match call {
        CampaignCall::Init { organizer, token, goal, deadline } => init_error(
            m,
            goal,
            deadline,
            now,
        ),
        CampaignCall::Contribute { contributor, amount } => contribute_error(m, amount, now),
        CampaignCall::Execute => execute_error(m, now),
        CampaignCall::Refund { contributor } => refund_error(m, contributor, now),
        CampaignCall::SetStretchGoals { milestones } => stretch_goals_error(m, milestones, now),
    }
}

/// The state after `call` at ledger time `now`: unchanged when refused.
pub open spec fn next_state(m: CampaignModel, call: CampaignCall, now: u64) -> CampaignModel {
    if call_error(m, call, now) is Some {
        m
    } else {
        match call {
            CampaignCall::Init { organizer, token, goal, deadline } => after_init(
                m,
                organizer,
                token,
                goal,
                deadline,
            ),
            CampaignCall::Contribute { contributor, amount } => after_contribute(
                m,
                contributor,
                amount,
            ),
            CampaignCall::Execute => after_execute(m),
            CampaignCall::Refund { contributor } => after_refund(m, contributor),
            CampaignCall::SetStretchGoals { milestones } => after_set_stretch_goals(m, milestones),
        }
    }
}

/// The calls the host can hand a campaign: a stretch goal list holds at most
/// `u32::MAX` entries.
pub open spec fn call_admissible(call: CampaignCall) -> bool {
    call matches CampaignCall::SetStretchGoals { milestones } ==> milestones.len() <= u32::MAX
}

/// Every call keeps the campaign invariant: raised and pledges stay
/// non-negative, no pledge exceeds the raised total, the goal of an
/// initialised campaign stays positive and was met if the funds were
/// withdrawn, and nothing changes before initialisation.
pub proof fn law_calls_keep_invariant(m: CampaignModel, call: CampaignCall, now: u64)
    requires
        m.wf(),
        call_admissible(call),
    ensures
        next_state(m, call, now).wf(),
{
    let n = next_state(m, call, now);
    if call_error(m, call, now) is None {
        match call {
            CampaignCall::Init { organizer, token, goal, deadline } => {
                assert(n.pledges == m.pledges);
            },
            CampaignCall::Contribute { contributor, amount } => {
                assert forall|a: AccountId| #[trigger] n.pledges.contains_key(a) implies n.pledges[a]
                    >= 0 by {
                    if a != contributor {
                        assert(m.pledges.contains_key(a));
                    }
                }
            },
            CampaignCall::Refund { contributor } => {
                assert forall|a: AccountId| #[trigger] n.pledges.contains_key(a) implies n.pledges[a]
                    >= 0 by {
                    if a != contributor {
                        assert(m.pledges.contains_key(a));
                    }
                }
            },
            _ => {},
        }
    }
}

/// The raised total never decreases: no call lowers it (refunds and the
/// organizer's withdrawal leave it as it was).
pub proof fn law_raised_never_decreases(m: CampaignModel, call: CampaignCall, now: u64)
    requires
        m.wf(),
    ensures
        next_state(m, call, now).raised >= m.raised,
{
}

/// Once the organizer has withdrawn the funds, the campaign stays executed.
pub proof fn law_executed_is_permanent(m: CampaignModel, call: CampaignCall, now: u64)
    requires
        m.wf(),
        m.executed,
    ensures
        next_state(m, call, now).executed,
{
}

/// The terms of an initialised campaign (organizer, token, goal, deadline)
/// never change.
pub proof fn law_terms_are_fixed(m: CampaignModel, call: CampaignCall, now: u64)
    requires
        m.wf(),
        m.config is Some,
    ensures
        next_state(m, call, now).config == m.config,
{
}

/// A stretch goal, once announced, stays marked as announced.
pub proof fn law_announced_goals_stay_announced(m: CampaignModel, call: CampaignCall, now: u64)
    requires
        m.wf(),
    ensures
        m.triggered.subset_of(next_state(m, call, now).triggered),
{
}

/// A campaign can only be initialised once: any later `init_campaign` is
/// refused with `AlreadyInitialized`.
pub proof fn law_init_once(
    m: CampaignModel,
    organizer: AccountId,
    token: AccountId,
    goal: i128,
    deadline: u64,
    now: u64,
    call: CampaignCall,
    later: u64,
)
    requires
        m.wf(),
        init_error(m, goal, deadline, now) is None,
        call is Init,
    ensures
        call_error(after_init(m, organizer, token, goal, deadline), call, later) == Some(
            CrowdfundError::AlreadyInitialized,
        ),
{
}

/// Contributions are accepted only up to the deadline, settlement (the
/// organizer's withdrawal or a refund) only after it: at no ledger time are
/// both open.
pub proof fn law_contributing_and_settling_are_disjoint(
    m: CampaignModel,
    amount: i128,
    contributor: AccountId,
    now: u64,
)
    requires
        m.wf(),
        contribute_error(m, amount, now) is None,
    ensures
        execute_error(m, now) == Some(CrowdfundError::CampaignNotEnded),
        refund_error(m, contributor, now) == Some(CrowdfundError::CampaignNotEnded),
{
}

/// The organizer's withdrawal and refunds exclude each other: when the
/// withdrawal is allowed every refund is refused with `GoalReached`, and
/// when a refund is allowed the withdrawal is refused with `GoalNotReached`.
pub proof fn law_withdrawal_and_refund_exclude_each_other(
    m: CampaignModel,
    contributor: AccountId,
    now: u64,
)
    requires
        m.wf(),
    ensures
        execute_error(m, now) is None ==> refund_error(m, contributor, now) == Some(
            CrowdfundError::GoalReached,
        ),
        refund_error(m, contributor, now) is None ==> execute_error(m, now) == Some(
            CrowdfundError::GoalNotReached,
        ),
{
}

/// After the deadline, a campaign whose goal was reached refuses every
/// refund with `GoalReached`.
pub proof fn law_reached_goal_blocks_refunds(m: CampaignModel, contributor: AccountId, now: u64)
    requires
        m.wf(),
        m.config is Some,
        now > m.config.unwrap().deadline,
        m.raised >= m.config.unwrap().goal,
    ensures
        refund_error(m, contributor, now) == Some(CrowdfundError::GoalReached),
{
}

/// The funds can be withdrawn only once: after an accepted
/// `execute_campaign`, every later one is refused with `AlreadyExecuted`
/// (the state after any sequence of calls stays executed, see
/// `law_executed_is_permanent`).
pub proof fn law_withdraw_once(m: CampaignModel, now: u64, later: u64)
    requires
        m.wf(),
        execute_error(m, now) is None,
        later >= now,
    ensures
        execute_error(after_execute(m), later) == Some(CrowdfundError::AlreadyExecuted),
{
}

/// A pledge can be refunded only once: after an accepted `claim_refund`,
/// the same contributor's next claim is refused with `NoPledge`.
pub proof fn law_refund_once(m: CampaignModel, contributor: AccountId, now: u64, later: u64)
    requires
        m.wf(),
        refund_error(m, contributor, now) is None,
        later >= now,
    ensures
        refund_error(after_refund(m, contributor), contributor, later) == Some(
            CrowdfundError::NoPledge,
        ),
{
}

/// A refund pays back exactly what the contributor pledged: a contribution
/// of `amount` on top of a pledge `p` (without overflow) is refunded as
/// `p + amount`, and leaves the pledge at zero.
pub proof fn law_refund_returns_contributions(
    m: CampaignModel,
    contributor: AccountId,
    amount: i128,
    now: u64,
    later: u64,
)
    requires
        m.wf(),
        contribute_error(m, amount, now) is None,
        m.pledge_of(contributor) + amount <= i128::MAX,
        refund_error(after_contribute(m, contributor, amount), contributor, later) is None,
    ensures
        refund_transfer(after_contribute(m, contributor, amount), contributor).amount
            == m.pledge_of(contributor) + amount,
        refund_transfer(after_contribute(m, contributor, amount), contributor).to == Holder::Account(
            contributor,
        ),
        after_refund(after_contribute(m, contributor, amount), contributor).pledge_of(contributor)
            == 0,
{
}

/// Every stretch goal event names a goal that the raised total has reached
/// and that had not been announced, with that goal's threshold.
pub proof fn lemma_stretch_events_are_new(
    goals: Seq<i128>,
    triggered: Set<u32>,
    raised: i128,
    n: nat,
)
    requires
        n <= goals.len(),
        goals.len() <= u32::MAX,
    ensures
        forall|k: int|
            0 <= k < stretch_events(goals, triggered, raised, n).len() ==> {
                let e = #[trigger] stretch_events(goals, triggered, raised, n)[k];
                &&& e.milestone_index < n
                &&& !triggered.contains(e.milestone_index)
                &&& raised >= goals[e.milestone_index as int]
                &&& e.threshold == goals[e.milestone_index as int]
            },
        forall|k: int, l: int|
            0 <= k < l < stretch_events(goals, triggered, raised, n).len() ==> (
            #[trigger] stretch_events(goals, triggered, raised, n)[k]).milestone_index < (
            #[trigger] stretch_events(goals, triggered, raised, n)[l]).milestone_index,
    decreases n,
{
    if n > 0 {
        let prev = stretch_events(goals, triggered, raised, (n - 1) as nat);
        let cur = stretch_events(goals, triggered, raised, n);
        lemma_stretch_events_are_new(goals, triggered, raised, (n - 1) as nat);
        assert(((n - 1) as u32) as int == n - 1);
        assert forall|k: int| 0 <= k < cur.len() implies {
            let e = #[trigger] cur[k];
            &&& e.milestone_index < n
            &&& !triggered.contains(e.milestone_index)
            &&& raised >= goals[e.milestone_index as int]
            &&& e.threshold == goals[e.milestone_index as int]
        } by {
            if k < prev.len() {
                assert(cur[k] == prev[k]);
            }
        }
        assert forall|k: int, l: int| 0 <= k < l < cur.len() implies (
        #[trigger] cur[k]).milestone_index < (#[trigger] cur[l]).milestone_index by {
            assert(cur[k] == prev[k]);
            if l < prev.len() {
                assert(cur[l] == prev[l]);
            }
        }
    }
}

// ── The factory ──────────────────────────────────────────────────────────────

/// A factory can only be initialised once: after an accepted
/// `initialize`, the next one is refused with `AlreadyInitialized`.
pub proof fn law_factory_initialize_once(m: FactoryModel, hash: WasmHash)
    requires
        m.wf(),
        initialize_error(m) is None,
    ensures
        initialize_error(after_initialize(m, hash)) == Some(FactoryError::AlreadyInitialized),
        after_initialize(m, hash).wf(),
{
}

/// Replacing the code hash leaves the registry as it was.
pub proof fn law_set_hash_keeps_registry(m: FactoryModel, hash: WasmHash, campaign_id: u64)
    requires
        m.wf(),
        set_hash_error(m) is None,
    ensures
        after_set_hash(m, hash).campaign(campaign_id) == m.campaign(campaign_id),
        after_set_hash(m, hash).count() == m.count(),
        after_set_hash(m, hash).wf(),
{
}

/// Campaign ids run from one to the campaign count, each registry entry
/// carrying its own id.
pub proof fn law_campaign_ids_are_sequential(m: FactoryModel, campaign_id: u64)
    requires
        m.wf(),
    ensures
        m.campaign(campaign_id) is Some <==> 1 <= campaign_id <= m.count(),
        m.campaign(campaign_id) matches Some(c) ==> c.campaign_id == campaign_id,
{
}

/// Registering a deployed campaign gives it the next id, makes it
/// retrievable under that id, grows the count by one, leaves every earlier
/// entry as it was, and keeps the registry invariant.
pub proof fn law_deploy_registers_campaign(
    m: FactoryModel,
    organizer: AccountId,
    contract: AccountId,
    now: u64,
    other_id: u64,
)
    requires
        m.wf(),
        deploy_error(m) is None,
        m.count() < u64::MAX,
    ensures
        ({
            let r = next_campaign_ref(m, contract, organizer, now);
            let n = after_deploy(m, contract, organizer, now);
            &&& n.wf()
            &&& r.campaign_id == m.count() + 1
            &&& n.count() == m.count() + 1
            &&& n.campaign(r.campaign_id) == Some(r)
            &&& other_id != r.campaign_id ==> n.campaign(other_id) == m.campaign(other_id)
        }),
{
    let n = after_deploy(m, contract, organizer, now);
    assert forall|i: int| 0 <= i < n.campaigns.len() implies (#[trigger] n.campaigns[i]).campaign_id
        == i + 1 by {
        if i < m.campaigns.len() {
            assert(n.campaigns[i] == m.campaigns[i]);
        }
    }
}

} // verus!
