//! The crowdfund campaign: its state, the rules of each entry point, and the
//! transfers and events each accepted call asks the host to carry out.

use std::collections::HashMap;
use std::collections::HashSet;
use vstd::prelude::*;

use crate::errors::CrowdfundError;

verus! {

broadcast use vstd::std_specs::hash::group_hash_axioms;

/// An account or contract known to the campaign (a contributor, the
/// organizer, or the payment token).
pub type AccountId = u64;

/// The terms a campaign is initialised with.
#[derive(Clone, Copy, Debug, PartialEq, Eq, Structural)]
pub struct CampaignConfig {
    /// Receives the funds if the goal is met.
    pub organizer: AccountId,
    /// The token contributions are paid in.
    pub token: AccountId,
    /// Target amount in token base units.
    pub goal: i128,
    /// Last ledger timestamp at which contributions are accepted.
    pub deadline: u64,
}

/// One side of a token transfer: the campaign's own balance or an account.
#[derive(Clone, Copy, Debug, PartialEq, Eq, Structural)]
pub enum Holder {
    Campaign,
    Account(AccountId),
}

/// A token transfer the host has to perform for an accepted call.
#[derive(Clone, Copy, Debug, PartialEq, Eq, Structural)]
pub struct Transfer {
    pub token: AccountId,
    pub from: Holder,
    pub to: Holder,
    pub amount: i128,
}

/// Published when the organizer withdraws the raised funds.
#[derive(Clone, Copy, Debug, PartialEq, Eq, Structural)]
pub struct CampaignExecutedEvent {
    pub amount: i128,
}

/// Published when a contributor reclaims a pledge.
#[derive(Clone, Copy, Debug, PartialEq, Eq, Structural)]
pub struct RefundClaimedEvent {
    pub contributor: AccountId,
    pub amount: i128,
}

/// Published the first time the raised total reaches a stretch goal.
#[derive(Clone, Copy, Debug, PartialEq, Eq, Structural)]
pub struct StretchGoalReachedEvent {
    pub milestone_index: u32,
    pub threshold: i128,
}

/// The abstract state of a campaign: what its persistent storage holds.
#[verifier::ext_equal]
pub struct CampaignModel {
    /// Set once by `init_campaign`.
    pub config: Option<CampaignConfig>,
    /// Total contributed so far (never decreases).
    pub raised: i128,
    /// Whether the organizer has withdrawn the funds.
    pub executed: bool,
    /// Recorded pledge per contributor; a missing entry reads as zero.
    pub pledges: Map<AccountId, i128>,
    /// Ordered stretch goal thresholds.
    pub stretch_goals: Seq<i128>,
    /// Indexes of the stretch goals whose event has been published.
    pub triggered: Set<u32>,
}

/// `a + b`, clamped to the range of `i128`.
pub open spec fn saturating_add_i128(a: i128, b: i128) -> i128 {
    if a + b > i128::MAX {
        i128::MAX
    } else if a + b < i128::MIN {
        i128::MIN
    } else {
        (a + b) as i128
    }
}

/// The state of a campaign contract that has not been initialised.
pub open spec fn fresh_campaign() -> CampaignModel {
    CampaignModel {
        config: None,
        raised: 0,
        executed: false,
        pledges: Map::empty(),
        stretch_goals: Seq::empty(),
        triggered: Set::empty(),
    }
}

impl CampaignModel {
    /// Every state a campaign can reach satisfies this.
    pub open spec fn wf(self) -> bool {
        &&& self.raised >= 0
        &&& forall|a: AccountId| #[trigger] self.pledges.contains_key(a) ==> 0 <= self.pledges[a]
            <= self.raised
        &&& self.pledges.dom().finite()
        &&& self.stretch_goals.len() <= u32::MAX
        &&& match self.config {
            Some(c) => {
                &&& c.goal > 0
                &&& self.executed ==> self.raised >= c.goal
            },
            None => self == fresh_campaign(),
        }
    }

    /// The pledge recorded for `contributor` (zero when none is).
    pub open spec fn pledge_of(self, contributor: AccountId) -> i128 {
        if self.pledges.contains_key(contributor) {
            self.pledges[contributor]
        } else {
            0
        }
    }
}

// ── init_campaign ────────────────────────────────────────────────────────────

/// Why `init_campaign` refuses, if it does.
pub open spec fn init_error(m: CampaignModel, goal: i128, deadline: u64, now: u64) -> Option<
    CrowdfundError,
> {
    if m.config is Some {
        Some(CrowdfundError::AlreadyInitialized)
    } else if goal <= 0 {
        Some(CrowdfundError::InvalidGoal)
    } else if deadline <= now {
        Some(CrowdfundError::InvalidDeadline)
    } else {
        None
    }
}

/// The state after an accepted `init_campaign`.
pub open spec fn after_init(
    m: CampaignModel,
    organizer: AccountId,
    token: AccountId,
    goal: i128,
    deadline: u64,
) -> CampaignModel {
    CampaignModel {
        config: Some(CampaignConfig { organizer, token, goal, deadline }),
        raised: 0,
        executed: false,
        ..m
    }
}

// ── contribute ───────────────────────────────────────────────────────────────

/// Why `contribute` refuses, if it does.
pub open spec fn contribute_error(m: CampaignModel, amount: i128, now: u64) -> Option<
    CrowdfundError,
> {
    if amount <= 0 {
        Some(CrowdfundError::InvalidAmount)
    } else {
        match m.config {
            None => Some(CrowdfundError::NotInitialized),
            Some(c) => if now > c.deadline {
                Some(CrowdfundError::CampaignEnded)
            } else {
                None
            },
        }
    }
}

/// The stretch goal indexes whose threshold `raised` has reached.
pub open spec fn stretch_crossed(goals: Seq<i128>, raised: i128) -> Set<u32> {
    Set::new(|i: u32| i < goals.len() && raised >= goals[i as int])
}

/// The events for the first `n` stretch goals that `raised` reaches and that
/// are not yet in `triggered`, in index order.
pub open spec fn stretch_events(
    goals: Seq<i128>,
    triggered: Set<u32>,
    raised: i128,
    n: nat,
) -> Seq<StretchGoalReachedEvent>
    decreases n,
{
    if n == 0 {
        Seq::empty()
    } else {
        let prev = stretch_events(goals, triggered, raised, (n - 1) as nat);
        let i = n - 1;
        if !triggered.contains(i as u32) && raised >= goals[i] {
            prev.push(StretchGoalReachedEvent { milestone_index: i as u32, threshold: goals[i] })
        } else {
            prev
        }
    }
}

/// The raised total after an accepted contribution of `amount`.
pub open spec fn raised_after_contribute(m: CampaignModel, amount: i128) -> i128 {
    saturating_add_i128(m.raised, amount)
}

/// The state after an accepted `contribute`.
pub open spec fn after_contribute(
    m: CampaignModel,
    contributor: AccountId,
    amount: i128,
) -> CampaignModel {
    let raised = raised_after_contribute(m, amount);
    CampaignModel {
        raised,
        pledges: m.pledges.insert(
            contributor,
            saturating_add_i128(m.pledge_of(contributor), amount),
        ),
        triggered: m.triggered.union(stretch_crossed(m.stretch_goals, raised)),
        ..m
    }
}

/// The stretch goal events an accepted `contribute` publishes.
pub open spec fn contribute_events(m: CampaignModel, amount: i128) -> Seq<
    StretchGoalReachedEvent,
> {
    stretch_events(
        m.stretch_goals,
        m.triggered,
        raised_after_contribute(m, amount),
        m.stretch_goals.len(),
    )
}

/// The transfer an accepted `contribute` asks for: the amount moves from the
/// contributor to the campaign.
pub open spec fn contribute_transfer(m: CampaignModel, contributor: AccountId, amount: i128) -> Transfer {
    Transfer {
        token: m.config.unwrap().token,
        from: Holder::Account(contributor),
        to: Holder::Campaign,
        amount,
    }
}

// ── execute_campaign ─────────────────────────────────────────────────────────

/// Why `execute_campaign` refuses, if it does.
pub open spec fn execute_error(m: CampaignModel, now: u64) -> Option<CrowdfundError> {
    match m.config {
        None => Some(CrowdfundError::NotInitialized),
        Some(c) => if now <= c.deadline {
            Some(CrowdfundError::CampaignNotEnded)
        } else if m.raised < c.goal {
            Some(CrowdfundError::GoalNotReached)
        } else if m.executed {
            Some(CrowdfundError::AlreadyExecuted)
        } else {
            None
        },
    }
}

/// The state after an accepted `execute_campaign`.
pub open spec fn after_execute(m: CampaignModel) -> CampaignModel {
    CampaignModel { executed: true, ..m }
}

/// The transfer an accepted `execute_campaign` asks for: everything raised
/// moves from the campaign to the organizer.
pub open spec fn execute_transfer(m: CampaignModel) -> Transfer {
    Transfer {
        token: m.config.unwrap().token,
        from: Holder::Campaign,
        to: Holder::Account(m.config.unwrap().organizer),
        amount: m.raised,
    }
}

// ── claim_refund ─────────────────────────────────────────────────────────────

/// Why `claim_refund` refuses, if it does.
pub open spec fn refund_error(m: CampaignModel, contributor: AccountId, now: u64) -> Option<
    CrowdfundError,
> {
    match m.config {
        None => Some(CrowdfundError::NotInitialized),
        Some(c) => if now <= c.deadline {
            Some(CrowdfundError::CampaignNotEnded)
        } else if m.raised >= c.goal {
            Some(CrowdfundError::GoalReached)
        } else if m.pledge_of(contributor) == 0 {
            Some(CrowdfundError::NoPledge)
        } else {
            None
        },
    }
}

/// The state after an accepted `claim_refund`: the pledge is zeroed.
pub open spec fn after_refund(m: CampaignModel, contributor: AccountId) -> CampaignModel {
    CampaignModel { pledges: m.pledges.insert(contributor, 0), ..m }
}

/// The transfer an accepted `claim_refund` asks for: the whole pledge moves
/// from the campaign back to the contributor.
pub open spec fn refund_transfer(m: CampaignModel, contributor: AccountId) -> Transfer {
    Transfer {
        token: m.config.unwrap().token,
        from: Holder::Campaign,
        to: Holder::Account(contributor),
        amount: m.pledge_of(contributor),
    }
}

// ── set_stretch_goals ────────────────────────────────────────────────────────

/// Stretch goals must all lie above the funding goal, in strictly ascending order.
pub open spec fn milestones_valid(milestones: Seq<i128>, goal: i128) -> bool {
    &&& forall|i: int| 0 <= i < milestones.len() ==> #[trigger] milestones[i] > goal
    &&& forall|i: int, j: int|
        0 <= i < j < milestones.len() ==> #[trigger] milestones[i] < #[trigger] milestones[j]
}

/// Why `set_stretch_goals` refuses, if it does.
pub open spec fn stretch_goals_error(m: CampaignModel, milestones: Seq<i128>, now: u64) -> Option<
    CrowdfundError,
> {
    match m.config {
        None => Some(CrowdfundError::NotInitialized),
        Some(c) => if now > c.deadline {
            Some(CrowdfundError::CampaignEnded)
        } else if !milestones_valid(milestones, c.goal) {
            Some(CrowdfundError::InvalidGoal)
        } else {
            None
        },
    }
}

/// The state after an accepted `set_stretch_goals`: the list is replaced.
pub open spec fn after_set_stretch_goals(m: CampaignModel, milestones: Seq<i128>) -> CampaignModel {
    CampaignModel { stretch_goals: milestones, ..m }
}

// ── Storage entries ──────────────────────────────────────────────────────────

/// The pledge map recorded by a list of (contributor, pledge) entries; a
/// later entry for the same contributor overrides an earlier one.
pub open spec fn pledges_from_entries(entries: Seq<(AccountId, i128)>) -> Map<AccountId, i128>
    decreases entries.len(),
{
    if entries.len() == 0 {
        Map::empty()
    } else {
        pledges_from_entries(entries.drop_last()).insert(entries.last().0, entries.last().1)
    }
}

/// The campaign state described by its storage entries.
pub open spec fn model_from_entries(
    config: Option<CampaignConfig>,
    raised: i128,
    executed: bool,
    pledges: Seq<(AccountId, i128)>,
    stretch_goals: Seq<i128>,
    triggered: Seq<u32>,
) -> CampaignModel {
    CampaignModel {
        config,
        raised,
        executed,
        pledges: pledges_from_entries(pledges),
        stretch_goals,
        triggered: triggered.to_set(),
    }
}

/// Storage entries a campaign can hold: the raised total and every pledge
/// non-negative, no pledge above the raised total, at most `u32::MAX`
/// stretch goals, a positive goal once initialised and met if the funds were
/// withdrawn, and nothing at all before initialisation.
pub open spec fn entries_consistent(
    config: Option<CampaignConfig>,
    raised: i128,
    executed: bool,
    pledges: Seq<(AccountId, i128)>,
    stretch_goals: Seq<i128>,
    triggered: Seq<u32>,
) -> bool {
    &&& raised >= 0
    &&& forall|i: int| 0 <= i < pledges.len() ==> 0 <= (#[trigger] pledges[i]).1 <= raised
    &&& stretch_goals.len() <= u32::MAX
    &&& match config {
        Some(c) => {
            &&& c.goal > 0
            &&& executed ==> raised >= c.goal
        },
        None => {
            &&& raised == 0
            &&& !executed
            &&& pledges.len() == 0
            &&& stretch_goals.len() == 0
            &&& triggered.len() == 0
        },
    }
}

// ── The contract ─────────────────────────────────────────────────────────────

/// `a + b`, clamped to the range of `i128`.
fn saturating_add(a: i128, b: i128) -> (r: i128)
    ensures
        r == saturating_add_i128(a, b),
{
    match a.checked_add(b) {
        Some(s) => s,
        None => if b > 0 {
            i128::MAX
        } else {
            i128::MIN
        },
    }
}

/// A crowdfund campaign: an organizer sets a goal and a deadline, backers
/// pledge tokens until the deadline, and afterwards either the organizer
/// withdraws everything (goal met) or each backer reclaims their pledge
/// (goal missed).
pub struct CrowdfundContract {
    config: Option<CampaignConfig>,
    raised: i128,
    executed: bool,
    pledges: HashMap<AccountId, i128>,
    stretch_goals: Vec<i128>,
    stretch_triggered: HashSet<u32>,
}

impl View for CrowdfundContract {
    type V = CampaignModel;

    closed spec fn view(&self) -> CampaignModel {
        CampaignModel {
            config: self.config,
            raised: self.raised,
            executed: self.executed,
            pledges: self.pledges@,
            stretch_goals: self.stretch_goals@,
            triggered: self.stretch_triggered@,
        }
    }
}

impl CrowdfundContract {
    /// Every campaign value satisfies the model's invariant.
    #[verifier::type_invariant]
    pub open spec fn well_formed(self) -> bool {
        self@.wf()
    }

    /// A campaign contract before `init_campaign`.
    pub fn new() -> (c: Self)
        ensures
            c@ == fresh_campaign(),
    {
        let c = CrowdfundContract {
            config: None,
            raised: 0,
            executed: false,
            pledges: HashMap::new(),
            stretch_goals: Vec::new(),
            stretch_triggered: HashSet::new(),
        };
        assert(c@ =~= fresh_campaign());
        c
    }

    /// Initialise a campaign with its organizer, payment token, funding goal
    /// (in token base units, > 0) and deadline (a ledger timestamp later than
    /// `now`). Only callable once.
    pub fn init_campaign(
        &mut self,
        organizer: AccountId,
        token: AccountId,
        goal: i128,
        deadline: u64,
        now: u64,
    ) -> (r: Result<(), CrowdfundError>)
        ensures
            match r {
                Ok(()) => {
                    &&& init_error(old(self)@, goal, deadline, now) is None
                    &&& final(self)@ == after_init(old(self)@, organizer, token, goal, deadline)
                },
                Err(e) => {
                    &&& init_error(old(self)@, goal, deadline, now) == Some(e)
                    &&& final(self)@ == old(self)@
                },
            },
    {
        proof {
            use_type_invariant(&*self);
        }
        if self.config.is_some() {
            return Err(CrowdfundError::AlreadyInitialized);
        }
        if goal <= 0 {
            return Err(CrowdfundError::InvalidGoal);
        }
        if deadline <= now {
            return Err(CrowdfundError::InvalidDeadline);
        }
        self.config = Some(CampaignConfig { organizer, token, goal, deadline });
        self.raised = 0;
        self.executed = false;
        Ok(())
    }

    /// Returns the pledge recorded for `contributor` (zero if none).
    pub fn pledge_of(&self, contributor: AccountId) -> (p: i128)
        ensures
            p == self@.pledge_of(contributor),
    {
        match self.pledges.get(&contributor) {
            Some(v) => *v,
            None => 0,
        }
    }

    /// The funding goal.
    pub fn goal(&self) -> (r: Result<i128, CrowdfundError>)
        ensures
            r == match self@.config {
                Some(c) => Ok(c.goal),
                None => Err(CrowdfundError::NotInitialized),
            },
    {
        match self.config {
            Some(c) => Ok(c.goal),
            None => Err(CrowdfundError::NotInitialized),
        }
    }

    /// The deadline.
    pub fn deadline(&self) -> (r: Result<u64, CrowdfundError>)
        ensures
            r == match self@.config {
                Some(c) => Ok(c.deadline),
                None => Err(CrowdfundError::NotInitialized),
            },
    {
        match self.config {
            Some(c) => Ok(c.deadline),
            None => Err(CrowdfundError::NotInitialized),
        }
    }

    /// The organizer.
    pub fn organizer(&self) -> (r: Result<AccountId, CrowdfundError>)
        ensures
            r == match self@.config {
                Some(c) => Ok(c.organizer),
                None => Err(CrowdfundError::NotInitialized),
            },
    {
        match self.config {
            Some(c) => Ok(c.organizer),
            None => Err(CrowdfundError::NotInitialized),
        }
    }

    /// Total contributed so far.
    pub fn raised(&self) -> (r: i128)
        ensures
            r == self@.raised,
    {
        self.raised
    }

    /// Whether the organizer has withdrawn the funds.
    pub fn is_executed(&self) -> (r: bool)
        ensures
            r == self@.executed,
    {
        self.executed
    }

    /// Returns `true` when the raised amount has reached or exceeded the goal.
    pub fn goal_reached(&self) -> (r: Result<bool, CrowdfundError>)
        ensures
            r == match self@.config {
                Some(c) => Ok(self@.raised >= c.goal),
                None => Err(CrowdfundError::NotInitialized),
            },
    {
        match self.config {
            Some(c) => Ok(self.raised >= c.goal),
            None => Err(CrowdfundError::NotInitialized),
        }
    }
    /// Contribute `amount` tokens (> 0) to the campaign, up to and including
    /// the deadline. On success the contributor's tokens move to the
    /// campaign, the raised total and the contributor's pledge grow by
    /// `amount` (saturating), and an event is published for each stretch goal
    /// first reached by the new total.
    pub fn contribute(&mut self, contributor: AccountId, amount: i128, now: u64) -> (r: Result<
        (Transfer, Vec<StretchGoalReachedEvent>),
        CrowdfundError,
    >)
        ensures
            match r {
                Ok((t, events)) => {
                    &&& contribute_error(old(self)@, amount, now) is None
                    &&& final(self)@ == after_contribute(old(self)@, contributor, amount)
                    &&& t == contribute_transfer(old(self)@, contributor, amount)
                    &&& events@ == contribute_events(old(self)@, amount)
                },
                Err(e) => {
                    &&& contribute_error(old(self)@, amount, now) == Some(e)
                    &&& final(self)@ == old(self)@
                },
            },
    {
        proof {
            use_type_invariant(&*self);
        }
        if amount <= 0 {
            return Err(CrowdfundError::InvalidAmount);
        }
        let config = match self.config {
            Some(c) => c,
            None => return Err(CrowdfundError::NotInitialized),
        };
        if now > config.deadline {
            return Err(CrowdfundError::CampaignEnded);
        }
        let ghost old_model = self@;
        let new_raised = saturating_add(self.raised, amount);
        self.raised = new_raised;
        let prev_pledge = self.pledge_of(contributor);
        let mut pledges = HashMap::new();
        std::mem::swap(&mut pledges, &mut self.pledges);
        pledges.insert(contributor, saturating_add(prev_pledge, amount));
        self.pledges = pledges;
        let events = self.check_stretch_goals(new_raised);
        assert(self@ =~= after_contribute(old_model, contributor, amount));
        let transfer = Transfer {
            token: config.token,
            from: Holder::Account(contributor),
            to: Holder::Campaign,
            amount,
        };
        Ok((transfer, events))
    }

    /// Emit a stretch goal event for each milestone crossed by `new_raised`
    /// that has not already been triggered, and mark it triggered.
    fn check_stretch_goals(&mut self, new_raised: i128) -> (events: Vec<StretchGoalReachedEvent>)
        requires
            old(self)@.config is Some,
        ensures
            final(self)@ == (CampaignModel {
                triggered: old(self)@.triggered.union(
                    stretch_crossed(old(self)@.stretch_goals, new_raised),
                ),
                ..old(self)@
            }),
            events@ == stretch_events(
                old(self)@.stretch_goals,
                old(self)@.triggered,
                new_raised,
                old(self)@.stretch_goals.len(),
            ),
    {
        proof {
            use_type_invariant(&*self);
        }
        let ghost start = self@.triggered;
        let mut triggered = HashSet::new();
        std::mem::swap(&mut triggered, &mut self.stretch_triggered);
        let mut events: Vec<StretchGoalReachedEvent> = Vec::new();
        let goals = &self.stretch_goals;
        let n = goals.len();
        let mut i: usize = 0;
        while i < n
            invariant
                0 <= i <= n,
                n == goals@.len(),
                goals@.len() <= u32::MAX,
                triggered@ == start.union(
                    Set::new(|k: u32| k < i && new_raised >= goals@[k as int]),
                ),
                events@ == stretch_events(goals@, start, new_raised, i as nat),
            decreases n - i,
        {
            let threshold = goals[i];
            let idx = i as u32;
            let already = triggered.contains(&idx);
            assert(already == start.contains(idx));
            if !already && new_raised >= threshold {
                triggered.insert(idx);
                events.push(StretchGoalReachedEvent { milestone_index: idx, threshold });
            }
            assert(triggered@ =~= start.union(
                Set::new(|k: u32| k < i + 1 && new_raised >= goals@[k as int]),
            ));
            i = i + 1;
        }
        assert(triggered@ =~= start.union(stretch_crossed(goals@, new_raised)));
        self.stretch_triggered = triggered;
        assert(self@ =~= (CampaignModel {
            triggered: old(self)@.triggered.union(
                stretch_crossed(old(self)@.stretch_goals, new_raised),
            ),
            ..old(self)@
        }));
        events
    }

    /// Withdraw everything raised to the organizer, once the deadline has
    /// passed and only if the goal was met. Can only happen once.
    pub fn execute_campaign(&mut self, now: u64) -> (r: Result<
        (Transfer, CampaignExecutedEvent),
        CrowdfundError,
    >)
        ensures
            match r {
                Ok((t, event)) => {
                    &&& execute_error(old(self)@, now) is None
                    &&& final(self)@ == after_execute(old(self)@)
                    &&& t == execute_transfer(old(self)@)
                    &&& event == (CampaignExecutedEvent { amount: old(self)@.raised })
                },
                Err(e) => {
                    &&& execute_error(old(self)@, now) == Some(e)
                    &&& final(self)@ == old(self)@
                },
            },
    {
        proof {
            use_type_invariant(&*self);
        }
        let config = match self.config {
            Some(c) => c,
            None => return Err(CrowdfundError::NotInitialized),
        };
        if now <= config.deadline {
            return Err(CrowdfundError::CampaignNotEnded);
        }
        if self.raised < config.goal {
            return Err(CrowdfundError::GoalNotReached);
        }
        if self.executed {
            return Err(CrowdfundError::AlreadyExecuted);
        }
        self.executed = true;
        let transfer = Transfer {
            token: config.token,
            from: Holder::Campaign,
            to: Holder::Account(config.organizer),
            amount: self.raised,
        };
        Ok((transfer, CampaignExecutedEvent { amount: self.raised }))
    }

    /// Let a backer reclaim their whole pledge once the deadline has passed
    /// and only if the goal was not met. The pledge is zeroed, so a second
    /// claim finds nothing to refund.
    pub fn claim_refund(&mut self, contributor: AccountId, now: u64) -> (r: Result<
        (Transfer, RefundClaimedEvent),
        CrowdfundError,
    >)
        ensures
            match r {
                Ok((t, event)) => {
                    &&& refund_error(old(self)@, contributor, now) is None
                    &&& final(self)@ == after_refund(old(self)@, contributor)
                    &&& t == refund_transfer(old(self)@, contributor)
                    &&& event == (RefundClaimedEvent {
                        contributor,
                        amount: old(self)@.pledge_of(contributor),
                    })
                },
                Err(e) => {
                    &&& refund_error(old(self)@, contributor, now) == Some(e)
                    &&& final(self)@ == old(self)@
                },
            },
    {
        proof {
            use_type_invariant(&*self);
        }
        let config = match self.config {
            Some(c) => c,
            None => return Err(CrowdfundError::NotInitialized),
        };
        if now <= config.deadline {
            return Err(CrowdfundError::CampaignNotEnded);
        }
        if self.raised >= config.goal {
            return Err(CrowdfundError::GoalReached);
        }
        let pledge = self.pledge_of(contributor);
        if pledge == 0 {
            return Err(CrowdfundError::NoPledge);
        }
        let ghost old_model = self@;
        let mut pledges = HashMap::new();
        std::mem::swap(&mut pledges, &mut self.pledges);
        pledges.insert(contributor, 0);
        self.pledges = pledges;
        assert(self@ =~= after_refund(old_model, contributor));
        let transfer = Transfer {
            token: config.token,
            from: Holder::Campaign,
            to: Holder::Account(contributor),
            amount: pledge,
        };
        Ok((transfer, RefundClaimedEvent { contributor, amount: pledge }))
    }

    /// Replace the stretch goal milestones. They must be in strictly
    /// ascending order and all above the funding goal, and they can only be
    /// set up to the deadline.
    pub fn set_stretch_goals(&mut self, milestones: Vec<i128>, now: u64) -> (r: Result<
        (),
        CrowdfundError,
    >)
        requires
            milestones.len() <= u32::MAX,
        ensures
            match r {
                Ok(()) => {
                    &&& stretch_goals_error(old(self)@, milestones@, now) is None
                    &&& final(self)@ == after_set_stretch_goals(old(self)@, milestones@)
                },
                Err(e) => {
                    &&& stretch_goals_error(old(self)@, milestones@, now) == Some(e)
                    &&& final(self)@ == old(self)@
                },
            },
    {
        proof {
            use_type_invariant(&*self);
        }
        let config = match self.config {
            Some(c) => c,
            None => return Err(CrowdfundError::NotInitialized),
        };
        if now > config.deadline {
            return Err(CrowdfundError::CampaignEnded);
        }
        let mut prev = config.goal;
        let mut i: usize = 0;
        while i < milestones.len()
            invariant
                0 <= i <= milestones.len(),
                self@ == old(self)@,
                old(self)@.config == Some(config),
                now <= config.deadline,
                prev == if i == 0 { config.goal } else { milestones@[i - 1] },
                forall|k: int| 0 <= k < i ==> #[trigger] milestones@[k] > config.goal,
                forall|k: int, l: int|
                    0 <= k < l < i ==> #[trigger] milestones@[k] < #[trigger] milestones@[l],
            decreases milestones.len() - i,
        {
            let m = milestones[i];
            if m <= prev {
                proof {
                    if i > 0 {
                        assert(milestones@[i - 1] >= milestones@[i as int]);
                    } else {
                        assert(milestones@[0] <= config.goal);
                    }
                    assert(!milestones_valid(milestones@, config.goal));
                }
                return Err(CrowdfundError::InvalidGoal);
            }
            prev = m;
            i = i + 1;
        }
        let ghost old_model = self@;
        self.stretch_goals = milestones;
        assert(self@ =~= after_set_stretch_goals(old_model, self.stretch_goals@));
        Ok(())
    }
    /// Rebuild a campaign from the entries its storage holds: the terms, the
    /// raised total, the executed flag, some (contributor, pledge) entries,
    /// the stretch goals and the indexes of the announced stretch goals.
    /// Returns `None` when the entries are not ones a campaign can hold.
    pub fn restore(
        config: Option<CampaignConfig>,
        raised: i128,
        executed: bool,
        pledges: Vec<(AccountId, i128)>,
        stretch_goals: Vec<i128>,
        triggered: Vec<u32>,
    ) -> (r: Option<Self>)
        ensures
            r is Some <==> entries_consistent(
                config,
                raised,
                executed,
                pledges@,
                stretch_goals@,
                triggered@,
            ),
            r matches Some(c) ==> c@ == model_from_entries(
                config,
                raised,
                executed,
                pledges@,
                stretch_goals@,
                triggered@,
            ),
    {
        if raised < 0 || stretch_goals.len() > u32::MAX as usize {
            return None;
        }
        match config {
            Some(c) => {
                if c.goal <= 0 || (executed && raised < c.goal) {
                    return None;
                }
            },
            None => {
                if raised != 0 || executed || pledges.len() != 0 || stretch_goals.len() != 0
                    || triggered.len() != 0 {
                    return None;
                }
            },
        }
        let mut pledge_map: HashMap<AccountId, i128> = HashMap::new();
        let mut i: usize = 0;
        while i < pledges.len()
            invariant
                0 <= i <= pledges.len(),
                pledge_map@ == pledges_from_entries(pledges@.subrange(0, i as int)),
                forall|k: int| 0 <= k < i ==> 0 <= (#[trigger] pledges@[k]).1 <= raised,
            decreases pledges.len() - i,
        {
            let (who, amount) = pledges[i];
            if amount < 0 || amount > raised {
                return None;
            }
            pledge_map.insert(who, amount);
            assert(pledges@.subrange(0, i + 1).drop_last() =~= pledges@.subrange(0, i as int));
            i = i + 1;
        }
        assert(pledges@.subrange(0, pledges.len() as int) =~= pledges@);
        let mut triggered_set: HashSet<u32> = HashSet::new();
        let mut j: usize = 0;
        while j < triggered.len()
            invariant
                0 <= j <= triggered.len(),
                triggered_set@ == triggered@.subrange(0, j as int).to_set(),
            decreases triggered.len() - j,
        {
            let idx = triggered[j];
            triggered_set.insert(idx);
            assert(triggered@.subrange(0, j + 1) =~= triggered@.subrange(0, j as int).push(idx));
            proof {
                triggered@.subrange(0, j as int).lemma_push_to_set_commute(idx);
            }
            j = j + 1;
        }
        assert(triggered@.subrange(0, triggered.len() as int) =~= triggered@);
        let ghost model = model_from_entries(
            config,
            raised,
            executed,
            pledges@,
            stretch_goals@,
            triggered@,
        );
        proof {
            lemma_entries_consistent_wf(config, raised, executed, pledges@, stretch_goals@, triggered@);
        }
        let c = CrowdfundContract {
            config,
            raised,
            executed,
            pledges: pledge_map,
            stretch_goals,
            stretch_triggered: triggered_set,
        };
        assert(c@ =~= model);
        Some(c)
    }

    /// The stretch goal thresholds, in order.
    pub fn stretch_goals(&self) -> (goals: Vec<i128>)
        ensures
            goals@ == self@.stretch_goals,
    {
        let mut goals: Vec<i128> = Vec::new();
        let mut i: usize = 0;
        while i < self.stretch_goals.len()
            invariant
                0 <= i <= self.stretch_goals.len(),
                goals@ == self.stretch_goals@.subrange(0, i as int),
            decreases self.stretch_goals.len() - i,
        {
            goals.push(self.stretch_goals[i]);
            i = i + 1;
            assert(goals@ =~= self.stretch_goals@.subrange(0, i as int));
        }
        assert(goals@ =~= self.stretch_goals@);
        goals
    }

    /// Whether the event of the stretch goal at `index` has been published.
    pub fn is_stretch_goal_triggered(&self, index: u32) -> (r: bool)
        ensures
            r == self@.triggered.contains(index),
    {
        self.stretch_triggered.contains(&index)
    }
}

/// Entries that `restore` accepts describe a state satisfying the campaign
/// invariant.
proof fn lemma_entries_consistent_wf(
    config: Option<CampaignConfig>,
    raised: i128,
    executed: bool,
    pledges: Seq<(AccountId, i128)>,
    stretch_goals: Seq<i128>,
    triggered: Seq<u32>,
)
    requires
        entries_consistent(config, raised, executed, pledges, stretch_goals, triggered),
    ensures
        model_from_entries(config, raised, executed, pledges, stretch_goals, triggered).wf(),
{
    lemma_pledges_from_entries_nonnegative(pledges, raised);
    if config is None {
        assert(pledges_from_entries(pledges) =~= Map::empty());
        assert(triggered.to_set() =~= Set::empty());
        assert(stretch_goals =~= Seq::empty());
    }
}

/// Entries between zero and `bound` give a finite map of pledges between
/// zero and `bound`.
proof fn lemma_pledges_from_entries_nonnegative(entries: Seq<(AccountId, i128)>, bound: i128)
    requires
        forall|i: int| 0 <= i < entries.len() ==> 0 <= (#[trigger] entries[i]).1 <= bound,
    ensures
        forall|a: AccountId| #[trigger] pledges_from_entries(entries).contains_key(a)
            ==> 0 <= pledges_from_entries(entries)[a] <= bound,
        pledges_from_entries(entries).dom().finite(),
    decreases entries.len(),
{
    if entries.len() > 0 {
        let prefix = entries.drop_last();
        assert forall|i: int| 0 <= i < prefix.len() implies 0 <= (#[trigger] prefix[i]).1
            <= bound by {
            assert(prefix[i] == entries[i]);
        }
        lemma_pledges_from_entries_nonnegative(prefix, bound);
        let last = entries.last();
        assert(0 <= last.1 <= bound);
        assert forall|a: AccountId| #[trigger] pledges_from_entries(entries).contains_key(a)
            implies 0 <= pledges_from_entries(entries)[a] <= bound by {
            if a != last.0 {
                assert(pledges_from_entries(prefix).contains_key(a));
            }
        }
        assert(pledges_from_entries(entries).dom() =~= pledges_from_entries(prefix).dom().insert(
            last.0,
        ));
    } else {
        assert(pledges_from_entries(entries).dom() =~= Set::empty());
    }
}

} // verus!
