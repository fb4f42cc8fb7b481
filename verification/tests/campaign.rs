use crowdfund::campaign::{
    CampaignConfig, CampaignExecutedEvent, CrowdfundContract, Holder, StretchGoalReachedEvent,
    Transfer,
};
use crowdfund::errors::CrowdfundError;
use crowdfund::salt::deployment_salt;

const NOW: u64 = 1_000_000;
const DEADLINE: u64 = NOW + 100;
const ORGANIZER: u64 = 1;
const TOKEN: u64 = 2;
const ALICE: u64 = 3;
const BOB: u64 = 4;

fn campaign(goal: i128) -> CrowdfundContract {
    let mut c = CrowdfundContract::new();
    c.init_campaign(ORGANIZER, TOKEN, goal, DEADLINE, NOW).unwrap();
    c
}

#[test]
fn fresh_campaign_reads_defaults() {
    let c = CrowdfundContract::new();
    assert_eq!(c.raised(), 0);
    assert!(!c.is_executed());
    assert_eq!(c.pledge_of(ALICE), 0);
    assert_eq!(c.goal(), Err(CrowdfundError::NotInitialized));
    assert_eq!(c.deadline(), Err(CrowdfundError::NotInitialized));
    assert_eq!(c.organizer(), Err(CrowdfundError::NotInitialized));
    assert_eq!(c.goal_reached(), Err(CrowdfundError::NotInitialized));
}

#[test]
fn init_sets_terms() {
    let c = campaign(5_000);
    assert_eq!(c.goal(), Ok(5_000));
    assert_eq!(c.deadline(), Ok(DEADLINE));
    assert_eq!(c.organizer(), Ok(ORGANIZER));
    assert_eq!(c.raised(), 0);
    assert_eq!(c.goal_reached(), Ok(false));
}

#[test]
fn init_only_once() {
    let mut c = campaign(5_000);
    assert_eq!(
        c.init_campaign(9, 9, 1, DEADLINE + 5, NOW),
        Err(CrowdfundError::AlreadyInitialized)
    );
    assert_eq!(CrowdfundError::AlreadyInitialized.code(), 1);
    assert_eq!(c.organizer(), Ok(ORGANIZER));
    assert_eq!(c.goal(), Ok(5_000));
}

#[test]
fn init_rejects_bad_goal_and_deadline() {
    let mut c = CrowdfundContract::new();
    assert_eq!(c.init_campaign(ORGANIZER, TOKEN, 0, DEADLINE, NOW), Err(CrowdfundError::InvalidGoal));
    assert_eq!(c.init_campaign(ORGANIZER, TOKEN, -5, DEADLINE, NOW), Err(CrowdfundError::InvalidGoal));
    assert_eq!(c.init_campaign(ORGANIZER, TOKEN, 10, NOW, NOW), Err(CrowdfundError::InvalidDeadline));
    assert_eq!(CrowdfundError::InvalidGoal.code(), 3);
    assert_eq!(CrowdfundError::InvalidDeadline.code(), 4);
    assert_eq!(c.goal(), Err(CrowdfundError::NotInitialized));
    assert_eq!(c.init_campaign(ORGANIZER, TOKEN, 10, NOW + 1, NOW), Ok(()));
}

#[test]
fn contribute_records_pledge_and_total() {
    let mut c = campaign(5_000);
    let (t, events) = c.contribute(ALICE, 300, NOW).unwrap();
    assert_eq!(t, Transfer { token: TOKEN, from: Holder::Account(ALICE), to: Holder::Campaign, amount: 300 });
    assert!(events.is_empty());
    c.contribute(BOB, 200, DEADLINE).unwrap();
    c.contribute(ALICE, 50, NOW + 1).unwrap();
    assert_eq!(c.pledge_of(ALICE), 350);
    assert_eq!(c.pledge_of(BOB), 200);
    assert_eq!(c.raised(), 550);
}

#[test]
fn contribute_errors_leave_state() {
    let mut fresh = CrowdfundContract::new();
    assert_eq!(fresh.contribute(ALICE, 0, NOW), Err(CrowdfundError::InvalidAmount));
    assert_eq!(fresh.contribute(ALICE, 10, NOW), Err(CrowdfundError::NotInitialized));
    let mut c = campaign(5_000);
    c.contribute(ALICE, 10, NOW).unwrap();
    assert_eq!(c.contribute(ALICE, -1, NOW), Err(CrowdfundError::InvalidAmount));
    assert_eq!(c.contribute(ALICE, 10, DEADLINE + 1), Err(CrowdfundError::CampaignEnded));
    assert_eq!(CrowdfundError::InvalidAmount.code(), 5);
    assert_eq!(CrowdfundError::CampaignEnded.code(), 6);
    assert_eq!(c.pledge_of(ALICE), 10);
    assert_eq!(c.raised(), 10);
}

#[test]
fn contribute_saturates_at_max() {
    let mut c = campaign(5_000);
    c.contribute(ALICE, i128::MAX - 5, NOW).unwrap();
    c.contribute(ALICE, 100, NOW).unwrap();
    assert_eq!(c.raised(), i128::MAX);
    assert_eq!(c.pledge_of(ALICE), i128::MAX);
}

#[test]
fn execute_pays_organizer_once() {
    let mut c = campaign(1_000);
    c.contribute(ALICE, 700, NOW).unwrap();
    c.contribute(BOB, 400, NOW).unwrap();
    assert_eq!(c.goal_reached(), Ok(true));
    assert_eq!(c.execute_campaign(DEADLINE), Err(CrowdfundError::CampaignNotEnded));
    let (t, event) = c.execute_campaign(DEADLINE + 1).unwrap();
    assert_eq!(
        t,
        Transfer { token: TOKEN, from: Holder::Campaign, to: Holder::Account(ORGANIZER), amount: 1_100 }
    );
    assert_eq!(event, CampaignExecutedEvent { amount: 1_100 });
    assert!(c.is_executed());
    assert_eq!(c.execute_campaign(DEADLINE + 2), Err(CrowdfundError::AlreadyExecuted));
    assert_eq!(CrowdfundError::AlreadyExecuted.code(), 11);
}

#[test]
fn execute_requires_goal_and_init() {
    let mut fresh = CrowdfundContract::new();
    assert_eq!(fresh.execute_campaign(NOW), Err(CrowdfundError::NotInitialized));
    let mut c = campaign(1_000);
    c.contribute(ALICE, 999, NOW).unwrap();
    assert_eq!(c.execute_campaign(DEADLINE + 1), Err(CrowdfundError::GoalNotReached));
    assert_eq!(CrowdfundError::GoalNotReached.code(), 8);
    assert!(!c.is_executed());
}

#[test]
fn goal_reached_blocks_refund_and_missed_goal_blocks_withdrawal() {
    let mut reached = campaign(1_000);
    reached.contribute(ALICE, 1_000, NOW).unwrap();
    assert_eq!(reached.goal_reached(), Ok(true));
    assert_eq!(reached.claim_refund(ALICE, DEADLINE + 1), Err(CrowdfundError::GoalReached));

    let mut missed = campaign(1_000);
    missed.contribute(ALICE, 10, NOW).unwrap();
    assert_eq!(missed.execute_campaign(DEADLINE + 1), Err(CrowdfundError::GoalNotReached));
    assert!(missed.claim_refund(ALICE, DEADLINE + 1).is_ok());
}

#[test]
fn refund_keeps_raised_and_other_pledges() {
    let mut c = campaign(10_000);
    c.contribute(ALICE, 4_000, NOW).unwrap();
    c.contribute(BOB, 3_000, NOW).unwrap();
    let (t, _) = c.claim_refund(ALICE, DEADLINE + 1).unwrap();
    assert_eq!(t.amount, 4_000);
    assert_eq!(c.raised(), 7_000);
    assert_eq!(c.pledge_of(ALICE), 0);
    assert_eq!(c.pledge_of(BOB), 3_000);
    let (t, _) = c.claim_refund(BOB, DEADLINE + 5).unwrap();
    assert_eq!(t, Transfer { token: TOKEN, from: Holder::Campaign, to: Holder::Account(BOB), amount: 3_000 });
}

#[test]
fn stretch_goals_announced_once_in_order() {
    let mut c = campaign(100);
    c.set_stretch_goals(vec![200, 300, 500], NOW).unwrap();
    assert_eq!(c.stretch_goals(), vec![200, 300, 500]);
    let (_, events) = c.contribute(ALICE, 150, NOW).unwrap();
    assert!(events.is_empty());
    let (_, events) = c.contribute(ALICE, 200, NOW).unwrap();
    assert_eq!(
        events,
        vec![
            StretchGoalReachedEvent { milestone_index: 0, threshold: 200 },
            StretchGoalReachedEvent { milestone_index: 1, threshold: 300 },
        ]
    );
    assert!(c.is_stretch_goal_triggered(0));
    assert!(c.is_stretch_goal_triggered(1));
    assert!(!c.is_stretch_goal_triggered(2));
    let (_, events) = c.contribute(BOB, 1, NOW).unwrap();
    assert!(events.is_empty());
    let (_, events) = c.contribute(BOB, 1_000, NOW).unwrap();
    assert_eq!(events, vec![StretchGoalReachedEvent { milestone_index: 2, threshold: 500 }]);
}

#[test]
fn stretch_goals_validation() {
    let mut fresh = CrowdfundContract::new();
    assert_eq!(fresh.set_stretch_goals(vec![200], NOW), Err(CrowdfundError::NotInitialized));
    let mut c = campaign(100);
    assert_eq!(c.set_stretch_goals(vec![200, 200], NOW), Err(CrowdfundError::InvalidGoal));
    assert_eq!(c.set_stretch_goals(vec![300, 200], NOW), Err(CrowdfundError::InvalidGoal));
    assert_eq!(c.set_stretch_goals(vec![100, 200], NOW), Err(CrowdfundError::InvalidGoal));
    assert_eq!(c.set_stretch_goals(vec![50], NOW), Err(CrowdfundError::InvalidGoal));
    assert_eq!(c.set_stretch_goals(vec![200], DEADLINE + 1), Err(CrowdfundError::CampaignEnded));
    assert!(c.stretch_goals().is_empty());
    assert_eq!(c.set_stretch_goals(vec![101, 102], DEADLINE), Ok(()));
    assert_eq!(c.set_stretch_goals(vec![], NOW), Ok(()));
    assert!(c.stretch_goals().is_empty());
}

#[test]
fn restore_rebuilds_state() {
    let config = CampaignConfig { organizer: ORGANIZER, token: TOKEN, goal: 1_000, deadline: DEADLINE };
    let mut c = CrowdfundContract::restore(
        Some(config),
        600,
        false,
        vec![(ALICE, 100), (BOB, 500), (ALICE, 250)],
        vec![1_500, 2_000],
        vec![0],
    )
    .unwrap();
    assert_eq!(c.pledge_of(ALICE), 250);
    assert_eq!(c.pledge_of(BOB), 500);
    assert_eq!(c.raised(), 600);
    assert!(c.is_stretch_goal_triggered(0));
    let (_, events) = c.contribute(BOB, 1_500, NOW).unwrap();
    assert_eq!(events, vec![StretchGoalReachedEvent { milestone_index: 1, threshold: 2_000 }]);
}

#[test]
fn restore_rejects_inconsistent_entries() {
    let config = CampaignConfig { organizer: ORGANIZER, token: TOKEN, goal: 1_000, deadline: DEADLINE };
    assert!(CrowdfundContract::restore(Some(config), -1, false, vec![], vec![], vec![]).is_none());
    assert!(CrowdfundContract::restore(Some(config), 0, false, vec![(ALICE, -1)], vec![], vec![]).is_none());
    let bad = CampaignConfig { goal: 0, ..config };
    assert!(CrowdfundContract::restore(Some(bad), 0, false, vec![], vec![], vec![]).is_none());
    assert!(CrowdfundContract::restore(None, 5, false, vec![], vec![], vec![]).is_none());
    assert!(CrowdfundContract::restore(None, 0, false, vec![], vec![], vec![]).is_some());
}

#[test]
fn error_codes_match_reported_numbers() {
    let all = [
        CrowdfundError::AlreadyInitialized,
        CrowdfundError::NotInitialized,
        CrowdfundError::InvalidGoal,
        CrowdfundError::InvalidDeadline,
        CrowdfundError::InvalidAmount,
        CrowdfundError::CampaignEnded,
        CrowdfundError::CampaignNotEnded,
        CrowdfundError::GoalNotReached,
        CrowdfundError::GoalReached,
        CrowdfundError::NoPledge,
        CrowdfundError::AlreadyExecuted,
        CrowdfundError::AlreadyFulfilled,
        CrowdfundError::PledgeBelowTierMinimum,
        CrowdfundError::InvalidTier,
        CrowdfundError::MilestonesNotSet,
        CrowdfundError::MilestoneAlreadyReleased,
        CrowdfundError::MilestoneNotUnlocked,
        CrowdfundError::InvalidMilestonePercentages,
        CrowdfundError::MilestonesActive,
    ];
    for (i, e) in all.iter().enumerate() {
        assert_eq!(e.code(), i as u32 + 1);
    }
}

#[test]
fn deployment_salt_is_keccak_of_random() {
    let env = soroban_sdk::Env::default();
    let random = [0u8; 32];
    let salt = deployment_salt(&env, &random);
    let expected: [u8; 32] = [
        0x29, 0x0d, 0xec, 0xd9, 0x54, 0x8b, 0x62, 0xa8, 0xd6, 0x03, 0x45, 0xa9, 0x88, 0x38, 0x6f,
        0xc8, 0x4b, 0xa6, 0xbc, 0x95, 0x48, 0x40, 0x08, 0xf6, 0x36, 0x2f, 0x93, 0x16, 0x0e, 0xf3,
        0xe5, 0x63,
    ];
    assert_eq!(salt, expected);
    assert_ne!(salt, random);
    assert_ne!(deployment_salt(&env, &[1u8; 32]), salt);
}

#[test]
fn refund_then_withdrawal_never_allowed() {
    let mut c = campaign(1_000);
    c.contribute(ALICE, 500, NOW).unwrap();
    c.contribute(BOB, 200, NOW).unwrap();
    c.claim_refund(ALICE, DEADLINE + 1).unwrap();
    for later in [DEADLINE + 1, DEADLINE + 50, u64::MAX] {
        assert_eq!(c.contribute(BOB, 1_000, later), Err(CrowdfundError::CampaignEnded));
        assert_eq!(c.execute_campaign(later), Err(CrowdfundError::GoalNotReached));
        assert!(!c.is_executed());
    }
    assert_eq!(c.raised(), 700);
}

#[test]
fn withdrawal_then_refunds_never_allowed() {
    let mut c = campaign(1_000);
    c.contribute(ALICE, 800, NOW).unwrap();
    c.contribute(BOB, 300, NOW).unwrap();
    c.execute_campaign(DEADLINE + 1).unwrap();
    for later in [DEADLINE + 1, DEADLINE + 99, u64::MAX] {
        assert_eq!(c.claim_refund(ALICE, later), Err(CrowdfundError::GoalReached));
        assert_eq!(c.claim_refund(BOB, later), Err(CrowdfundError::GoalReached));
        assert!(c.is_executed());
    }
    assert_eq!(c.pledge_of(ALICE), 800);
    assert_eq!(c.pledge_of(BOB), 300);
}

#[test]
fn refunds_add_up_to_contributions() {
    let mut c = campaign(10_000);
    c.contribute(ALICE, 1_000, NOW).unwrap();
    c.contribute(BOB, 2_000, NOW).unwrap();
    c.contribute(ALICE, 500, NOW + 1).unwrap();
    let (a, _) = c.claim_refund(ALICE, DEADLINE + 1).unwrap();
    let (b, _) = c.claim_refund(BOB, DEADLINE + 2).unwrap();
    assert_eq!(a.amount, 1_500);
    assert_eq!(b.amount, 2_000);
    assert_eq!(a.amount + b.amount, c.raised());
    assert_eq!(c.pledge_of(ALICE) + c.pledge_of(BOB), 0);
    assert_eq!(c.claim_refund(ALICE, DEADLINE + 3), Err(CrowdfundError::NoPledge));
}

#[test]
fn stretch_goal_never_announced_twice_across_list_changes() {
    let mut c = campaign(100);
    c.set_stretch_goals(vec![150, 250], NOW).unwrap();
    let (_, first) = c.contribute(ALICE, 200, NOW).unwrap();
    assert_eq!(first, vec![StretchGoalReachedEvent { milestone_index: 0, threshold: 150 }]);
    c.set_stretch_goals(vec![300, 400], NOW).unwrap();
    let (_, second) = c.contribute(ALICE, 250, NOW).unwrap();
    assert_eq!(second, vec![StretchGoalReachedEvent { milestone_index: 1, threshold: 400 }]);
    let (_, third) = c.contribute(ALICE, 1, NOW).unwrap();
    assert!(third.is_empty());
}
