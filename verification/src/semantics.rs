//! What each campaign entry point does, stated directly over its inputs:
//! when it is accepted, and what it transfers, records and announces.

use vstd::prelude::*;

use crate::campaign::{
    after_init, init_error, CampaignConfig, after_contribute, after_execute, after_refund, after_set_stretch_goals, contribute_error,
    contribute_events, contribute_transfer, execute_error, execute_transfer, refund_error,
    refund_transfer, stretch_goals_error, AccountId, CampaignModel, Holder, Transfer,
};
use crate::factory::{
    after_deploy, deploy_error, deployed_event, next_campaign_ref, CampaignDeployedEvent,
    CampaignRef, FactoryModel,
};
use crate::laws::lemma_stretch_events_are_new;

verus! {

/// A contribution is accepted exactly when the amount is positive and the
/// campaign is initialised and not past its deadline. An accepted
/// contribution of `amount` asks for a transfer of exactly `amount` of the
/// campaign's token from the contributor to the campaign, whatever the
/// contributor pledged before; the raised total and the contributor's
/// pledge each grow by `amount` (clamped at `i128::MAX`), so without
/// saturation the transfer equals both increases; nobody else's pledge, the
/// terms and the executed flag do not change.
pub proof fn law_contribute_charges_exactly_the_amount(
    m: CampaignModel,
    contributor: AccountId,
    amount: i128,
    now: u64,
    other: AccountId,
)
    requires
        m.wf(),
    ensures
        contribute_error(m, amount, now) is None <==> (amount > 0 && m.config is Some && now
            <= m.config.unwrap().deadline),
        contribute_error(m, amount, now) is None ==> {
            let t = contribute_transfer(m, contributor, amount);
            let n = after_contribute(m, contributor, amount);
            &&& t == Transfer {
                token: m.config.unwrap().token,
                from: Holder::Account(contributor),
                to: Holder::Campaign,
                amount,
            }
            &&& n.raised == if m.raised + amount <= i128::MAX {
                m.raised + amount
            } else {
                i128::MAX as int
            }
            &&& n.pledge_of(contributor) == if m.pledge_of(contributor) + amount <= i128::MAX {
                m.pledge_of(contributor) + amount
            } else {
                i128::MAX as int
            }
            &&& m.raised + amount <= i128::MAX ==> t.amount == n.raised - m.raised && t.amount
                == n.pledge_of(contributor) - m.pledge_of(contributor)
            &&& other != contributor ==> n.pledge_of(other) == m.pledge_of(other)
            &&& n.config == m.config
            &&& n.executed == m.executed
            &&& n.stretch_goals == m.stretch_goals
        },
{
}

/// A contribution announces exactly the stretch goals that its new raised
/// total reaches for the first time: for each announced index, the goal was
/// not announced before, the new total reaches its threshold, and the event
/// carries that threshold; conversely every goal the new total reaches is
/// marked announced afterwards, and one not announced before is announced
/// by this contribution. No index is announced twice, and nothing is marked
/// announced that the new total has not reached or that was not marked before.
pub proof fn law_contribute_announces_every_newly_reached_goal(
    m: CampaignModel,
    contributor: AccountId,
    amount: i128,
    now: u64,
)
    requires
        m.wf(),
        contribute_error(m, amount, now) is None,
    ensures
        ({
            let n = after_contribute(m, contributor, amount);
            let events = contribute_events(m, amount);
            let goals = m.stretch_goals;
            &&& forall|k: int|
                0 <= k < events.len() ==> {
                    let e = #[trigger] events[k];
                    &&& e.milestone_index < goals.len()
                    &&& !m.triggered.contains(e.milestone_index)
                    &&& n.raised >= goals[e.milestone_index as int]
                    &&& e.threshold == goals[e.milestone_index as int]
                }
            &&& forall|i: u32|
                i < goals.len() && n.raised >= #[trigger] goals[i as int] ==> n.triggered.contains(
                    i,
                ) && (!m.triggered.contains(i) ==> exists|k: int|
                    0 <= k < events.len() && (#[trigger] events[k]).milestone_index == i)
            &&& forall|i: u32|
                #[trigger] n.triggered.contains(i) ==> m.triggered.contains(i) || (i < goals.len()
                    && n.raised >= goals[i as int])
            &&& forall|k: int, l: int|
                0 <= k < l < events.len() ==> (#[trigger] events[k]).milestone_index < (
                #[trigger] events[l]).milestone_index
        }),
{
    let n = after_contribute(m, contributor, amount);
    let goals = m.stretch_goals;
    lemma_stretch_events_are_new(goals, m.triggered, n.raised, goals.len());
    assert forall|i: u32|
        i < goals.len() && n.raised >= #[trigger] goals[i as int] implies n.triggered.contains(i)
        && (!m.triggered.contains(i) ==> exists|k: int|
        0 <= k < contribute_events(m, amount).len() && (#[trigger] contribute_events(
            m,
            amount,
        )[k]).milestone_index == i) by {
        assert(crate::campaign::stretch_crossed(goals, n.raised).contains(i));
        assert(n.triggered.contains(i));
        if !m.triggered.contains(i) {
            lemma_stretch_event_present(goals, m.triggered, n.raised, goals.len(), i);
            assert(contribute_events(m, amount) == crate::campaign::stretch_events(
                goals,
                m.triggered,
                n.raised,
                goals.len(),
            ));
        }
    }
}

/// Every stretch goal below `n` that `raised` reaches and that is not yet
/// announced has an event among the first `n` goals' events.
proof fn lemma_stretch_event_present(
    goals: Seq<i128>,
    triggered: Set<u32>,
    raised: i128,
    n: nat,
    i: u32,
)
    requires
        n <= goals.len(),
        goals.len() <= u32::MAX,
        i < n,
        raised >= goals[i as int],
        !triggered.contains(i),
    ensures
        exists|k: int|
            0 <= k < crate::campaign::stretch_events(goals, triggered, raised, n).len() && (
            #[trigger] crate::campaign::stretch_events(
                goals,
                triggered,
                raised,
                n,
            )[k]).milestone_index == i,
    decreases n,
{
    let cur = crate::campaign::stretch_events(goals, triggered, raised, n);
    let prev = crate::campaign::stretch_events(goals, triggered, raised, (n - 1) as nat);
    assert(((n - 1) as u32) as int == n - 1);
    if i == n - 1 {
        assert(cur[cur.len() - 1].milestone_index == i);
    } else {
        lemma_stretch_event_present(goals, triggered, raised, (n - 1) as nat, i);
        let k = choose|k: int| 0 <= k < prev.len() && (#[trigger] prev[k]).milestone_index == i;
        assert(cur[k] == prev[k]);
    }
}

/// The organizer's withdrawal is accepted exactly when the campaign is
/// initialised, past its deadline, has reached its goal (raised at least
/// the goal) and has not been withdrawn yet. An accepted withdrawal moves
/// everything raised from the campaign to the organizer and marks the
/// campaign executed, leaving the raised total and every pledge as they were.
pub proof fn law_withdrawal_pays_everything_raised_when_goal_met(
    m: CampaignModel,
    now: u64,
    contributor: AccountId,
)
    requires
        m.wf(),
    ensures
        execute_error(m, now) is None <==> (m.config is Some && now > m.config.unwrap().deadline
            && m.raised >= m.config.unwrap().goal && !m.executed),
        execute_error(m, now) is None ==> {
            &&& execute_transfer(m) == Transfer {
                token: m.config.unwrap().token,
                from: Holder::Campaign,
                to: Holder::Account(m.config.unwrap().organizer),
                amount: m.raised,
            }
            &&& after_execute(m).executed
            &&& after_execute(m).raised == m.raised
            &&& after_execute(m).pledge_of(contributor) == m.pledge_of(contributor)
        },
{
}

/// A refund is accepted exactly when the campaign is initialised, past its
/// deadline (at any later time, without limit), short of its goal, and the
/// contributor has a pledge. An accepted refund pays the contributor's whole
/// pledge from the campaign back to them, zeroes that pledge and leaves the
/// raised total and everyone else's pledge as they were.
pub proof fn law_refund_returns_whole_pledge_when_goal_missed(
    m: CampaignModel,
    contributor: AccountId,
    now: u64,
    other: AccountId,
)
    requires
        m.wf(),
    ensures
        refund_error(m, contributor, now) is None <==> (m.config is Some && now
            > m.config.unwrap().deadline && m.raised < m.config.unwrap().goal && m.pledge_of(
            contributor,
        ) != 0),
        refund_error(m, contributor, now) is None ==> {
            &&& refund_transfer(m, contributor) == Transfer {
                token: m.config.unwrap().token,
                from: Holder::Campaign,
                to: Holder::Account(contributor),
                amount: m.pledge_of(contributor),
            }
            &&& after_refund(m, contributor).pledge_of(contributor) == 0
            &&& after_refund(m, contributor).raised == m.raised
            &&& other != contributor ==> after_refund(m, contributor).pledge_of(other)
                == m.pledge_of(other)
        },
{
}

/// New stretch goals are accepted exactly when the campaign is initialised,
/// not past its deadline, and every milestone lies above the goal and above
/// the milestone before it (so the list is strictly ascending). An accepted
/// list replaces the stretch goals as given.
pub proof fn law_stretch_goals_must_ascend_above_goal(
    m: CampaignModel,
    milestones: Seq<i128>,
    now: u64,
)
    requires
        m.wf(),
    ensures
        stretch_goals_error(m, milestones, now) is None <==> {
            &&& m.config is Some
            &&& now <= m.config.unwrap().deadline
            &&& forall|i: int| 0 <= i < milestones.len() ==> #[trigger] milestones[i] > m.config.unwrap().goal
            &&& forall|i: int| 0 < i < milestones.len() ==> milestones[i - 1] < #[trigger] milestones[i]
        },
        stretch_goals_error(m, milestones, now) is None ==> {
            &&& after_set_stretch_goals(m, milestones).stretch_goals == milestones
            &&& after_set_stretch_goals(m, milestones).raised == m.raised
            &&& after_set_stretch_goals(m, milestones).triggered == m.triggered
            &&& after_set_stretch_goals(m, milestones).pledges == m.pledges
            &&& after_set_stretch_goals(m, milestones).config == m.config
            &&& forall|i: int, j: int| 0 <= i < j < milestones.len() ==> milestones[i] < milestones[j]
        },
{
    if m.config is Some {
        let goal = m.config.unwrap().goal;
        if forall|i: int| 0 < i < milestones.len() ==> milestones[i - 1] < #[trigger] milestones[i] {
            lemma_adjacent_ascent_is_ascent(milestones);
        }
    }
}

/// A list whose every element exceeds the one before it is strictly ascending.
proof fn lemma_adjacent_ascent_is_ascent(s: Seq<i128>)
    requires
        forall|i: int| 0 < i < s.len() ==> s[i - 1] < #[trigger] s[i],
    ensures
        forall|i: int, j: int| 0 <= i < j < s.len() ==> #[trigger] s[i] < #[trigger] s[j],
    decreases s.len(),
{
    if s.len() > 0 {
        let p = s.drop_last();
        assert forall|i: int| 0 < i < p.len() implies p[i - 1] < #[trigger] p[i] by {
            assert(p[i] == s[i] && p[i - 1] == s[i - 1]);
        }
        lemma_adjacent_ascent_is_ascent(p);
        assert forall|i: int, j: int| 0 <= i < j < s.len() implies #[trigger] s[i] < #[trigger] s[j] by {
            if j < s.len() - 1 {
                assert(p[i] == s[i] && p[j] == s[j]);
            } else if i < j - 1 {
                assert(p[i] == s[i] && p[j - 1] == s[j - 1]);
                assert(s[j - 1] < s[j]);
            }
        }
    }
}

/// Initialisation is accepted exactly on a campaign not yet initialised,
/// with a positive goal and a deadline later than the current ledger time.
/// It records the terms as given, with nothing raised and not executed.
pub proof fn law_init_records_terms(
    m: CampaignModel,
    organizer: AccountId,
    token: AccountId,
    goal: i128,
    deadline: u64,
    now: u64,
    contributor: AccountId,
)
    requires
        m.wf(),
    ensures
        init_error(m, goal, deadline, now) is None <==> (m.config is None && goal > 0 && deadline
            > now),
        init_error(m, goal, deadline, now) is None ==> {
            let n = after_init(m, organizer, token, goal, deadline);
            &&& n.config == Some(CampaignConfig { organizer, token, goal, deadline })
            &&& n.raised == 0
            &&& !n.executed
            &&& n.pledge_of(contributor) == 0
            &&& n.stretch_goals.len() == 0
        },
{
}

/// Registering a deployment is accepted exactly when a code hash is set. It
/// appends the entry with the next id (one more than the current count), the
/// given contract and organizer, and the current ledger time, and its event
/// repeats the entry's fields.
pub proof fn law_deploy_appends_next_entry(
    m: FactoryModel,
    organizer: AccountId,
    contract: AccountId,
    now: u64,
)
    requires
        m.wf(),
        m.count() < u64::MAX,
    ensures
        deploy_error(m) is None <==> m.wasm_hash is Some,
        deploy_error(m) is None ==> {
            &&& next_campaign_ref(m, contract, organizer, now) == CampaignRef {
                campaign_id: (m.campaigns.len() + 1) as u64,
                contract,
                organizer,
                deployed_at: now,
            }
            &&& after_deploy(m, contract, organizer, now).campaigns == m.campaigns.push(
                next_campaign_ref(m, contract, organizer, now),
            )
            &&& after_deploy(m, contract, organizer, now).wasm_hash == m.wasm_hash
            &&& deployed_event(next_campaign_ref(m, contract, organizer, now))
                == CampaignDeployedEvent {
                campaign_id: (m.campaigns.len() + 1) as u64,
                contract,
                organizer,
                deployed_at: now,
            }
        },
{
}

} // verus!
