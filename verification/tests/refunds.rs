use crowdfund::campaign::{CrowdfundContract, Holder, RefundClaimedEvent, Transfer};
use crowdfund::errors::CrowdfundError;

const NOW: u64 = 1_000_000;
const ORGANIZER: u64 = 1;
const TOKEN: u64 = 2;
const CONTRIBUTOR: u64 = 3;

fn setup_failed_campaign(goal: i128, deadline_offset: u64) -> (CrowdfundContract, u64, u64) {
    let mut campaign = CrowdfundContract::new();
    let deadline = NOW + deadline_offset;
    campaign
        .init_campaign(ORGANIZER, TOKEN, goal, deadline, NOW)
        .unwrap();
    (campaign, CONTRIBUTOR, deadline)
}

fn mint_and_contribute(campaign: &mut CrowdfundContract, contributor: u64, amount: i128) {
    let (transfer, _) = campaign.contribute(contributor, amount, NOW).unwrap();
    assert_eq!(
        transfer,
        Transfer { token: TOKEN, from: Holder::Account(contributor), to: Holder::Campaign, amount }
    );
}

fn past_deadline(deadline: u64) -> u64 {
    deadline + 1
}

#[test]
fn test_claim_refund_happy_path_transfers_and_zeros_pledge() {
    let (mut c, contributor, deadline) = setup_failed_campaign(5_000, 100);
    mint_and_contribute(&mut c, contributor, 2_500);
    let (transfer, event) = c.claim_refund(contributor, past_deadline(deadline)).unwrap();
    assert_eq!(transfer.to, Holder::Account(contributor));
    assert_eq!(transfer.from, Holder::Campaign);
    assert_eq!(transfer.amount, 2_500);
    assert_eq!(c.pledge_of(contributor), 0);
    assert_eq!(event, RefundClaimedEvent { contributor, amount: 2_500 });
}

#[test]
fn test_non_backer_cannot_claim_refund() {
    let (mut c, contributor, deadline) = setup_failed_campaign(5_000, 100);
    mint_and_contribute(&mut c, contributor, 1_000);
    let stranger = 99;
    let result = c.claim_refund(stranger, past_deadline(deadline));
    assert_eq!(result, Err(CrowdfundError::NoPledge));
    assert_eq!(CrowdfundError::NoPledge.code(), 10);
}

#[test]
fn test_refund_at_exact_deadline_still_blocked() {
    let (mut c, contributor, deadline) = setup_failed_campaign(5_000, 100);
    mint_and_contribute(&mut c, contributor, 1_000);
    let result = c.claim_refund(contributor, deadline);
    assert_eq!(result, Err(CrowdfundError::CampaignNotEnded));
    assert_eq!(CrowdfundError::CampaignNotEnded.code(), 7);
    assert_eq!(c.pledge_of(contributor), 1_000);
}

#[test]
fn test_refund_one_second_after_deadline_succeeds() {
    let (mut c, contributor, deadline) = setup_failed_campaign(5_000, 100);
    mint_and_contribute(&mut c, contributor, 1_000);
    c.claim_refund(contributor, past_deadline(deadline)).unwrap();
    assert_eq!(c.pledge_of(contributor), 0);
}

#[test]
fn test_refund_when_raised_one_below_goal() {
    let (mut c, contributor, deadline) = setup_failed_campaign(1_000, 100);
    mint_and_contribute(&mut c, contributor, 999);
    c.claim_refund(contributor, past_deadline(deadline)).unwrap();
    assert_eq!(c.pledge_of(contributor), 0);
}

#[test]
fn test_refund_blocked_when_goal_exactly_reached() {
    let (mut c, contributor, deadline) = setup_failed_campaign(1_000, 100);
    mint_and_contribute(&mut c, contributor, 1_000);
    let result = c.claim_refund(contributor, past_deadline(deadline));
    assert_eq!(result, Err(CrowdfundError::GoalReached));
    assert_eq!(CrowdfundError::GoalReached.code(), 9);
    assert_eq!(c.pledge_of(contributor), 1_000);
}

#[test]
fn test_uninitialized_campaign_claim_refund_panics() {
    let mut c = CrowdfundContract::new();
    let result = c.claim_refund(CONTRIBUTOR, NOW);
    assert_eq!(result, Err(CrowdfundError::NotInitialized));
    assert_eq!(CrowdfundError::NotInitialized.code(), 2);
}

#[test]
fn test_claim_refund_panic_preserves_pledge_storage() {
    let (mut c, contributor, deadline) = setup_failed_campaign(5_000, 100);
    mint_and_contribute(&mut c, contributor, 1_500);

    let result = c.claim_refund(contributor, NOW);
    assert_eq!(result, Err(CrowdfundError::CampaignNotEnded));
    assert_eq!(c.pledge_of(contributor), 1_500);
    assert_eq!(c.raised(), 1_500);

    c.claim_refund(contributor, past_deadline(deadline)).unwrap();
    assert_eq!(c.pledge_of(contributor), 0);
}

#[test]
fn test_double_claim_refund_fails_after_first_success() {
    let (mut c, contributor, deadline) = setup_failed_campaign(5_000, 100);
    mint_and_contribute(&mut c, contributor, 800);
    c.claim_refund(contributor, past_deadline(deadline)).unwrap();
    let result = c.claim_refund(contributor, past_deadline(deadline));
    assert_eq!(result, Err(CrowdfundError::NoPledge));
}

#[test]
fn test_successful_campaign_blocks_both_refund_paths() {
    let (mut c, contributor, deadline) = setup_failed_campaign(1_000, 100);
    mint_and_contribute(&mut c, contributor, 1_000);
    let after = past_deadline(deadline);

    assert_eq!(c.goal_reached(), Ok(true));
    assert_eq!(c.claim_refund(contributor, after), Err(CrowdfundError::GoalReached));
    assert_eq!(c.pledge_of(contributor), 1_000);
}
