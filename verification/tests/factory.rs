use crowdfund::errors::FactoryError;
use crowdfund::factory::{CampaignDeployedEvent, CampaignRef, CrowdfundFactory};

#[test]
fn test_deploy_campaign_tracks_active_protocols() {
    let now = 1_000_000;
    let mut factory = CrowdfundFactory::new();
    factory.initialize([7u8; 32]).unwrap();

    let organizer_a = 10;
    let organizer_b = 11;
    let (campaign_a, _) = factory.deploy_campaign(organizer_a, 100, now).unwrap();
    let (campaign_b, _) = factory.deploy_campaign(organizer_b, 101, now).unwrap();

    assert_eq!(factory.get_campaign_count(), 2);
    assert_eq!(campaign_a.campaign_id, 1);
    assert_eq!(campaign_b.campaign_id, 2);

    let campaigns = factory.get_all_campaigns();
    assert_eq!(campaigns.len(), 2);
    assert_eq!(campaigns[0].organizer, organizer_a);
    assert_eq!(campaigns[1].organizer, organizer_b);
}

#[test]
fn factory_starts_empty() {
    let factory = CrowdfundFactory::new();
    assert_eq!(factory.get_campaign_count(), 0);
    assert!(factory.get_all_campaigns().is_empty());
    assert_eq!(factory.crowdfund_wasm_hash(), Err(FactoryError::WasmHashNotSet));
}

#[test]
fn factory_initialize_only_once() {
    let mut factory = CrowdfundFactory::new();
    assert_eq!(factory.initialize([1u8; 32]), Ok(()));
    assert_eq!(factory.initialize([2u8; 32]), Err(FactoryError::AlreadyInitialized));
    assert_eq!(factory.crowdfund_wasm_hash(), Ok([1u8; 32]));
    assert_eq!(FactoryError::AlreadyInitialized.code(), 2);
}

#[test]
fn factory_set_hash_requires_initialize() {
    let mut factory = CrowdfundFactory::new();
    assert_eq!(factory.set_crowdfund_wasm_hash([3u8; 32]), Err(FactoryError::NotInitialized));
    assert_eq!(FactoryError::NotInitialized.code(), 1);
    factory.initialize([1u8; 32]).unwrap();
    factory.deploy_campaign(5, 50, 7).unwrap();
    assert_eq!(factory.set_crowdfund_wasm_hash([3u8; 32]), Ok(()));
    assert_eq!(factory.crowdfund_wasm_hash(), Ok([3u8; 32]));
    // The registry is untouched by a new hash.
    assert_eq!(factory.get_campaign_count(), 1);
    assert_eq!(factory.get_campaign_ref(1).unwrap().contract, 50);
}

#[test]
fn factory_deploy_requires_wasm_hash() {
    let mut factory = CrowdfundFactory::new();
    assert_eq!(factory.deploy_campaign(5, 50, 7), Err(FactoryError::WasmHashNotSet));
    assert_eq!(FactoryError::WasmHashNotSet.code(), 3);
    assert_eq!(factory.get_campaign_count(), 0);
}

#[test]
fn factory_deploy_returns_entry_and_event() {
    let mut factory = CrowdfundFactory::new();
    factory.initialize([9u8; 32]).unwrap();
    let (entry, event) = factory.deploy_campaign(5, 50, 1234).unwrap();
    let expected = CampaignRef { campaign_id: 1, contract: 50, organizer: 5, deployed_at: 1234 };
    assert_eq!(entry, expected);
    assert_eq!(
        event,
        CampaignDeployedEvent { campaign_id: 1, contract: 50, organizer: 5, deployed_at: 1234 }
    );
    assert_eq!(factory.get_campaign_ref(1), Ok(expected));
}

#[test]
fn factory_unknown_campaign_not_found() {
    let mut factory = CrowdfundFactory::new();
    factory.initialize([9u8; 32]).unwrap();
    factory.deploy_campaign(5, 50, 1).unwrap();
    assert_eq!(factory.get_campaign_ref(0), Err(FactoryError::CampaignNotFound));
    assert_eq!(factory.get_campaign_ref(2), Err(FactoryError::CampaignNotFound));
    assert_eq!(FactoryError::CampaignNotFound.code(), 4);
}

#[test]
fn factory_ids_are_sequential_and_earlier_entries_stay() {
    let mut factory = CrowdfundFactory::new();
    factory.initialize([9u8; 32]).unwrap();
    for k in 0..5u64 {
        let (entry, _) = factory.deploy_campaign(k, 100 + k, 10 * k).unwrap();
        assert_eq!(entry.campaign_id, k + 1);
    }
    let all = factory.get_all_campaigns();
    for (i, entry) in all.iter().enumerate() {
        assert_eq!(entry.campaign_id, i as u64 + 1);
        assert_eq!(factory.get_campaign_ref(i as u64 + 1), Ok(*entry));
        assert_eq!(entry.contract, 100 + i as u64);
    }
}

#[test]
fn factory_restore_accepts_sequential_ids_only() {
    let a = CampaignRef { campaign_id: 1, contract: 50, organizer: 5, deployed_at: 1 };
    let b = CampaignRef { campaign_id: 2, contract: 51, organizer: 6, deployed_at: 2 };
    let f = CrowdfundFactory::restore(Some([1u8; 32]), vec![a, b]).unwrap();
    assert_eq!(f.get_campaign_count(), 2);
    assert_eq!(f.get_campaign_ref(2), Ok(b));
    assert!(CrowdfundFactory::restore(Some([1u8; 32]), vec![b, a]).is_none());
    assert!(CrowdfundFactory::restore(None, vec![a]).is_none());
    assert!(CrowdfundFactory::restore(None, vec![]).is_some());
}
