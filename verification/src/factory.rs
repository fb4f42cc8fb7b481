//! The campaign factory: it holds the code hash campaigns are deployed from
//! and a registry of every campaign it has deployed, numbered from one.

use vstd::prelude::*;

use crate::campaign::AccountId;
use crate::errors::FactoryError;

verus! {

/// The hash of the campaign contract code new campaigns are deployed from.
pub type WasmHash = [u8; 32];

/// The registry entry of a deployed campaign.
#[derive(Clone, Copy, Debug, PartialEq, Eq, Structural)]
pub struct CampaignRef {
    pub campaign_id: u64,
    pub contract: AccountId,
    pub organizer: AccountId,
    pub deployed_at: u64,
}

/// Published when a campaign is deployed and registered.
#[derive(Clone, Copy, Debug, PartialEq, Eq, Structural)]
pub struct CampaignDeployedEvent {
    pub campaign_id: u64,
    pub contract: AccountId,
    pub organizer: AccountId,
    pub deployed_at: u64,
}

/// The abstract state of the factory: what its persistent storage holds.
#[verifier::ext_equal]
pub struct FactoryModel {
    /// Set by `initialize`, replaced by `set_crowdfund_wasm_hash`.
    pub wasm_hash: Option<WasmHash>,
    /// The registered campaigns; entry `i` has id `i + 1`.
    pub campaigns: Seq<CampaignRef>,
}

impl FactoryModel {
    /// Every state a factory can reach satisfies this.
    pub open spec fn wf(self) -> bool {
        &&& self.campaigns.len() <= u64::MAX
        &&& forall|i: int|
            0 <= i < self.campaigns.len() ==> (#[trigger] self.campaigns[i]).campaign_id == i + 1
        &&& self.wasm_hash is None ==> self.campaigns.len() == 0
    }

    /// The number of registered campaigns.
    pub open spec fn count(self) -> nat {
        self.campaigns.len()
    }

    /// The registry entry under `campaign_id`, if there is one.
    pub open spec fn campaign(self, campaign_id: u64) -> Option<CampaignRef> {
        if 1 <= campaign_id <= self.campaigns.len() {
            Some(self.campaigns[campaign_id - 1])
        } else {
            None
        }
    }
}

/// The state of a factory that has not been initialised.
pub open spec fn fresh_factory() -> FactoryModel {
    FactoryModel { wasm_hash: None, campaigns: Seq::empty() }
}

/// Why `initialize` refuses, if it does.
pub open spec fn initialize_error(m: FactoryModel) -> Option<FactoryError> {
    if m.wasm_hash is Some {
        Some(FactoryError::AlreadyInitialized)
    } else {
        None
    }
}

/// The state after an accepted `initialize`: the hash is stored and the
/// registry is empty.
pub open spec fn after_initialize(m: FactoryModel, hash: WasmHash) -> FactoryModel {
    FactoryModel { wasm_hash: Some(hash), campaigns: Seq::empty() }
}

/// Why `set_crowdfund_wasm_hash` refuses, if it does.
pub open spec fn set_hash_error(m: FactoryModel) -> Option<FactoryError> {
    if m.wasm_hash is None {
        Some(FactoryError::NotInitialized)
    } else {
        None
    }
}

/// The state after an accepted `set_crowdfund_wasm_hash`: only the hash changes.
pub open spec fn after_set_hash(m: FactoryModel, hash: WasmHash) -> FactoryModel {
    FactoryModel { wasm_hash: Some(hash), ..m }
}

/// Why `deploy_campaign` refuses, if it does.
pub open spec fn deploy_error(m: FactoryModel) -> Option<FactoryError> {
    if m.wasm_hash is None {
        Some(FactoryError::WasmHashNotSet)
    } else {
        None
    }
}

/// The registry entry an accepted `deploy_campaign` adds.
pub open spec fn next_campaign_ref(
    m: FactoryModel,
    contract: AccountId,
    organizer: AccountId,
    now: u64,
) -> CampaignRef {
    CampaignRef {
        campaign_id: (m.count() + 1) as u64,
        contract,
        organizer,
        deployed_at: now,
    }
}

/// The state after an accepted `deploy_campaign`: the new entry is appended.
pub open spec fn after_deploy(
    m: FactoryModel,
    contract: AccountId,
    organizer: AccountId,
    now: u64,
) -> FactoryModel {
    FactoryModel { campaigns: m.campaigns.push(next_campaign_ref(m, contract, organizer, now)), ..m }
}

/// The event describing a registry entry.
pub open spec fn deployed_event(r: CampaignRef) -> CampaignDeployedEvent {
    CampaignDeployedEvent {
        campaign_id: r.campaign_id,
        contract: r.contract,
        organizer: r.organizer,
        deployed_at: r.deployed_at,
    }
}

/// Deploys crowdfund campaigns from a stored code hash and keeps a registry
/// of them.
pub struct CrowdfundFactory {
    wasm_hash: Option<WasmHash>,
    campaigns: Vec<CampaignRef>,
}

impl View for CrowdfundFactory {
    type V = FactoryModel;

    closed spec fn view(&self) -> FactoryModel {
        FactoryModel { wasm_hash: self.wasm_hash, campaigns: self.campaigns@ }
    }
}

impl CrowdfundFactory {
    /// Every factory value satisfies the model's invariant.
    #[verifier::type_invariant]
    pub open spec fn well_formed(self) -> bool {
        self@.wf()
    }

    /// A factory before `initialize`.
    pub fn new() -> (f: Self)
        ensures
            f@ == fresh_factory(),
    {
        let f = CrowdfundFactory { wasm_hash: None, campaigns: Vec::new() };
        assert(f@ =~= fresh_factory());
        f
    }

    /// Store the campaign code hash and start an empty registry. Only
    /// callable once.
    pub fn initialize(&mut self, crowdfund_wasm_hash: WasmHash) -> (r: Result<(), FactoryError>)
        ensures
            match r {
                Ok(()) => {
                    &&& initialize_error(old(self)@) is None
                    &&& final(self)@ == after_initialize(old(self)@, crowdfund_wasm_hash)
                },
                Err(e) => {
                    &&& initialize_error(old(self)@) == Some(e)
                    &&& final(self)@ == old(self)@
                },
            },
    {
        proof {
            use_type_invariant(&*self);
        }
        if self.wasm_hash.is_some() {
            return Err(FactoryError::AlreadyInitialized);
        }
        self.campaigns = Vec::new();
        self.wasm_hash = Some(crowdfund_wasm_hash);
        Ok(())
    }

    /// Replace the campaign code hash of an initialised factory.
    pub fn set_crowdfund_wasm_hash(&mut self, crowdfund_wasm_hash: WasmHash) -> (r: Result<
        (),
        FactoryError,
    >)
        ensures
            match r {
                Ok(()) => {
                    &&& set_hash_error(old(self)@) is None
                    &&& final(self)@ == after_set_hash(old(self)@, crowdfund_wasm_hash)
                },
                Err(e) => {
                    &&& set_hash_error(old(self)@) == Some(e)
                    &&& final(self)@ == old(self)@
                },
            },
    {
        proof {
            use_type_invariant(&*self);
        }
        if self.wasm_hash.is_none() {
            return Err(FactoryError::NotInitialized);
        }
        self.wasm_hash = Some(crowdfund_wasm_hash);
        Ok(())
    }

    /// The code hash new campaigns are deployed from.
    pub fn crowdfund_wasm_hash(&self) -> (r: Result<WasmHash, FactoryError>)
        ensures
            r == match self@.wasm_hash {
                Some(h) => Ok(h),
                None => Err(FactoryError::WasmHashNotSet),
            },
    {
        match self.wasm_hash {
            Some(h) => Ok(h),
            None => Err(FactoryError::WasmHashNotSet),
        }
    }

    /// Register the campaign deployed at `contract` for `organizer` at
    /// ledger time `now`: it gets the next id (count + 1), the count grows by
    /// one, and the new entry is returned with its deployment event.
    pub fn deploy_campaign(&mut self, organizer: AccountId, contract: AccountId, now: u64) -> (r:
        Result<(CampaignRef, CampaignDeployedEvent), FactoryError>)
        requires
            old(self)@.count() < u64::MAX,
        ensures
            match r {
                Ok((campaign, event)) => {
                    &&& deploy_error(old(self)@) is None
                    &&& campaign == next_campaign_ref(old(self)@, contract, organizer, now)
                    &&& event == deployed_event(campaign)
                    &&& final(self)@ == after_deploy(old(self)@, contract, organizer, now)
                },
                Err(e) => {
                    &&& deploy_error(old(self)@) == Some(e)
                    &&& final(self)@ == old(self)@
                },
            },
    {
        proof {
            use_type_invariant(&*self);
        }
        if self.wasm_hash.is_none() {
            return Err(FactoryError::WasmHashNotSet);
        }
        let campaign_id = self.campaigns.len() as u64 + 1;
        let campaign = CampaignRef { campaign_id, contract, organizer, deployed_at: now };
        let mut campaigns = Vec::new();
        std::mem::swap(&mut campaigns, &mut self.campaigns);
        campaigns.push(campaign);
        self.campaigns = campaigns;
        let event = CampaignDeployedEvent {
            campaign_id,
            contract,
            organizer,
            deployed_at: now,
        };
        Ok((campaign, event))
    }

    /// The registry entry under `campaign_id`.
    pub fn get_campaign_ref(&self, campaign_id: u64) -> (r: Result<CampaignRef, FactoryError>)
        ensures
            r == match self@.campaign(campaign_id) {
                Some(c) => Ok(c),
                None => Err(FactoryError::CampaignNotFound),
            },
    {
        proof {
            use_type_invariant(self);
        }
        if campaign_id >= 1 && campaign_id <= self.campaigns.len() as u64 {
            Ok(self.campaigns[(campaign_id - 1) as usize])
        } else {
            Err(FactoryError::CampaignNotFound)
        }
    }

    /// The number of registered campaigns.
    pub fn get_campaign_count(&self) -> (n: u64)
        ensures
            n == self@.count(),
    {
        proof {
            use_type_invariant(self);
        }
        self.campaigns.len() as u64
    }

    /// Every registered campaign, in id order.
    pub fn get_all_campaigns(&self) -> (all: Vec<CampaignRef>)
        ensures
            all@ == self@.campaigns,
    {
        let mut all: Vec<CampaignRef> = Vec::new();
        let mut i: usize = 0;
        while i < self.campaigns.len()
            invariant
                0 <= i <= self.campaigns.len(),
                all@ == self.campaigns@.subrange(0, i as int),
            decreases self.campaigns.len() - i,
        {
            all.push(self.campaigns[i]);
            i = i + 1;
            assert(all@ =~= self.campaigns@.subrange(0, i as int));
        }
        assert(all@ =~= self.campaigns@);
        all
    }
    /// Rebuild a factory from the entries its storage holds: the code hash
    /// and the registered campaigns in id order. Returns `None` when the
    /// entries are not ones a factory can hold (ids not running from one, or
    /// campaigns without a code hash).
    pub fn restore(wasm_hash: Option<WasmHash>, campaigns: Vec<CampaignRef>) -> (r: Option<Self>)
        ensures
            r is Some <==> (FactoryModel { wasm_hash, campaigns: campaigns@ }).wf(),
            r matches Some(f) ==> f@ == (FactoryModel { wasm_hash, campaigns: campaigns@ }),
    {
        if wasm_hash.is_none() && campaigns.len() != 0 {
            return None;
        }
        let mut i: usize = 0;
        while i < campaigns.len()
            invariant
                0 <= i <= campaigns.len(),
                campaigns.len() <= u64::MAX,
                forall|k: int| 0 <= k < i ==> (#[trigger] campaigns@[k]).campaign_id == k + 1,
            decreases campaigns.len() - i,
        {
            if campaigns[i].campaign_id != i as u64 + 1 {
                return None;
            }
            i = i + 1;
        }
        let f = CrowdfundFactory { wasm_hash, campaigns };
        Some(f)
    }
}

} // verus!
