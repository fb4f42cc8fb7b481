use vstd::prelude::*;

verus! {

/// Errors a crowdfund campaign refuses a call with. The numeric code of each
/// variant is the one the campaign reports to its callers (see `code`).
#[derive(Clone, Copy, Debug, PartialEq, Eq, Structural)]
pub enum CrowdfundError {
    AlreadyInitialized,
    NotInitialized,
    InvalidGoal,
    InvalidDeadline,
    InvalidAmount,
    CampaignEnded,
    /// Campaign has not yet passed its deadline.
    CampaignNotEnded,
    /// Goal was not reached; organizer cannot withdraw.
    GoalNotReached,
    /// Goal was reached; refunds are not available.
    GoalReached,
    /// Contributor has no recorded pledge to refund.
    NoPledge,
    /// Funds have already been withdrawn by the organizer.
    AlreadyExecuted,
    /// Reward for this backer has already been marked fulfilled.
    AlreadyFulfilled,
    /// Contributor's total pledge is below the selected tier's minimum.
    PledgeBelowTierMinimum,
    /// The supplied tier index does not exist.
    InvalidTier,
    /// No milestones have been set on this campaign.
    MilestonesNotSet,
    /// This milestone has already been released.
    MilestoneAlreadyReleased,
    /// This milestone has not yet been unlocked by the organizer.
    MilestoneNotUnlocked,
    /// Milestone percentages must be non-zero, and sum to exactly 10 000 bps (100 %).
    InvalidMilestonePercentages,
    /// Campaign is in milestone mode; use release_milestone instead of execute_campaign.
    MilestonesActive,
}

/// The numeric code under which a campaign reports each error.
pub open spec fn crowdfund_error_code(e: CrowdfundError) -> u32 {
    match e {
        CrowdfundError::AlreadyInitialized => 1,
        CrowdfundError::NotInitialized => 2,
        CrowdfundError::InvalidGoal => 3,
        CrowdfundError::InvalidDeadline => 4,
        CrowdfundError::InvalidAmount => 5,
        CrowdfundError::CampaignEnded => 6,
        CrowdfundError::CampaignNotEnded => 7,
        CrowdfundError::GoalNotReached => 8,
        CrowdfundError::GoalReached => 9,
        CrowdfundError::NoPledge => 10,
        CrowdfundError::AlreadyExecuted => 11,
        CrowdfundError::AlreadyFulfilled => 12,
        CrowdfundError::PledgeBelowTierMinimum => 13,
        CrowdfundError::InvalidTier => 14,
        CrowdfundError::MilestonesNotSet => 15,
        CrowdfundError::MilestoneAlreadyReleased => 16,
        CrowdfundError::MilestoneNotUnlocked => 17,
        CrowdfundError::InvalidMilestonePercentages => 18,
        CrowdfundError::MilestonesActive => 19,
    }
}

impl CrowdfundError {
    /// The numeric code of this error.
    pub fn code(&self) -> (c: u32)
        ensures
            c == crowdfund_error_code(*self),
    {
        match self {
            CrowdfundError::AlreadyInitialized => 1,
            CrowdfundError::NotInitialized => 2,
            CrowdfundError::InvalidGoal => 3,
            CrowdfundError::InvalidDeadline => 4,
            CrowdfundError::InvalidAmount => 5,
            CrowdfundError::CampaignEnded => 6,
            CrowdfundError::CampaignNotEnded => 7,
            CrowdfundError::GoalNotReached => 8,
            CrowdfundError::GoalReached => 9,
            CrowdfundError::NoPledge => 10,
            CrowdfundError::AlreadyExecuted => 11,
            CrowdfundError::AlreadyFulfilled => 12,
            CrowdfundError::PledgeBelowTierMinimum => 13,
            CrowdfundError::InvalidTier => 14,
            CrowdfundError::MilestonesNotSet => 15,
            CrowdfundError::MilestoneAlreadyReleased => 16,
            CrowdfundError::MilestoneNotUnlocked => 17,
            CrowdfundError::InvalidMilestonePercentages => 18,
            CrowdfundError::MilestonesActive => 19,
        }
    }
}

/// Errors the campaign factory refuses a call with.
#[derive(Clone, Copy, Debug, PartialEq, Eq, Structural)]
pub enum FactoryError {
    NotInitialized,
    AlreadyInitialized,
    WasmHashNotSet,
    CampaignNotFound,
}

/// The numeric code under which the factory reports each error.
pub open spec fn factory_error_code(e: FactoryError) -> u32 {
    match e {
        FactoryError::NotInitialized => 1,
        FactoryError::AlreadyInitialized => 2,
        FactoryError::WasmHashNotSet => 3,
        FactoryError::CampaignNotFound => 4,
    }
}

impl FactoryError {
    /// The numeric code of this error.
    pub fn code(&self) -> (c: u32)
        ensures
            c == factory_error_code(*self),
    {
        match self {
            FactoryError::NotInitialized => 1,
            FactoryError::AlreadyInitialized => 2,
            FactoryError::WasmHashNotSet => 3,
            FactoryError::CampaignNotFound => 4,
        }
    }
}

} // verus!
