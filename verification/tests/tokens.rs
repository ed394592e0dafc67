use barter::bootstrap::Bootstrap;
use barter::custody::{Batch, NftGlobalId};
use barter::errors::TradeError;
use barter::fungibles::FungibleMap;
use barter::proposal::{Barter, KeyToken, CREATOR_KEY_LOCAL, PARTNER_KEY_LOCAL};

// A private proposal offering 10 units of resource 1 for 50 units of
// resource 5, with its two keys.
fn private_proposal() -> (Barter, KeyToken, KeyToken) {
    let mut requested = FungibleMap::new();
    requested.insert(5, 50);
    let offer = Batch::Fungible {
        resource: 1,
        amount: 10,
    };
    let (barter, key, pkey) = Barter::new_trade_proposal(
        "a good deal".to_string(),
        Some(999),
        Some(vec![offer]),
        None,
        None,
        Some(requested),
        301,
        401,
    )
    .expect("a populated proposal is accepted");
    (barter, key, pkey.expect("a partner key is minted"))
}

// Burning is restricted to the matching token identity, for either role;
// a mismatched token comes back intact.
#[test]
fn burns_accept_only_the_matching_identity() {
    let (mut barter, creator_key, partner_key) = private_proposal();

    // the partner key is not the creator key
    let (partner_key, e) = match barter.burn_creator_badge(partner_key) {
        Err(back) => back,
        Ok(_) => panic!("the creator burn must refuse the partner key"),
    };
    assert_eq!(e, TradeError::InvalidCredential);

    // nor is the creator key the partner key
    let (creator_key, e) = match barter.burn_partner_badge(creator_key) {
        Err(back) => back,
        Ok(_) => panic!("the partner burn must refuse the creator key"),
    };
    assert_eq!(e, TradeError::InvalidCredential);

    // each burns under its own identity
    assert!(barter.burn_creator_badge(creator_key).is_ok());
    assert!(barter.burn_partner_badge(partner_key).is_ok());
}

// The token record is a full snapshot of the trade, fixed at mint time.
#[test]
fn key_tokens_carry_the_trade_snapshot() {
    let (_barter, key, pkey) = private_proposal();

    assert_eq!(key.resource, 301);
    assert_eq!(key.local, CREATOR_KEY_LOCAL);
    assert_eq!(key.label, "TROVE Key: a good deal");
    assert_eq!(key.data.name, "Trove Swap");
    assert_eq!(key.data.swap_component, 401);
    assert_eq!(key.data.nfts_offered, vec![]);
    assert_eq!(key.data.tokens_offered.entries, vec![(1, 10)]);
    assert_eq!(key.data.nfts_requested, vec![]);
    assert_eq!(key.data.tokens_requested.entries, vec![(5, 50)]);

    assert_eq!(pkey.resource, 301);
    assert_eq!(pkey.local, PARTNER_KEY_LOCAL);
    assert_eq!(pkey.label, "TROVE Key: a good deal");
    assert_eq!(pkey.data.tokens_offered.entries, vec![(1, 10)]);
    assert_eq!(pkey.data.tokens_requested.entries, vec![(5, 50)]);
}

// The first offered asset type is recorded as the display category, unique
// assets taking precedence over fungibles.
#[test]
fn category_records_the_first_offered_type() {
    let offer_tokens = Batch::Fungible { resource: 4, amount: 1 };
    let offer_nfts = Batch::NonFungible { resource: 9, ids: vec![1] };
    let (barter, _k, _p) = Barter::new_trade_proposal(
        "trade".to_string(),
        None,
        Some(vec![offer_tokens]),
        Some(vec![offer_nfts]),
        Some(vec![NftGlobalId { resource: 2, local: 1 }]),
        None,
        301,
        401,
    )
    .expect("a populated proposal is accepted");
    assert_eq!(barter.category, Some(9));
}

// The fixture generator mints four instances per collection and hands the
// recorded identities back.
#[test]
fn bootstrap_mints_the_sample_collections() {
    let (mut boot, buckets) = Bootstrap::bootstrap(101, 102, 103);
    assert_eq!(buckets.len(), 3);
    match &buckets[2] {
        Batch::NonFungible { resource, ids } => {
            assert_eq!(*resource, 103);
            assert_eq!(ids, &vec![1, 2, 3, 4]);
        }
        _ => panic!("the fixture mints collections"),
    }
    let (res1, ids1) = boot.local_ids_1();
    assert_eq!(res1, 101);
    assert_eq!(ids1, vec![1, 2, 3, 4]);
    let (res2, ids2) = boot.local_ids_2();
    assert_eq!(res2, 102);
    assert_eq!(ids2, vec![1, 2, 3, 4]);
}

// The amount record keeps one entry per resource, the last write winning.
#[test]
fn fungible_map_overwrites_per_resource() {
    let mut m = FungibleMap::new();
    m.insert(5, 50);
    m.insert(6, 10);
    m.insert(5, 7);
    assert_eq!(m.len(), 2);
    assert_eq!(m.get(5), Some(7));
    assert_eq!(m.get(6), Some(10));
    assert_eq!(m.get(7), None);

    let copy = m.duplicate();
    assert!(copy.same_mapping(&m));
    let mut other = FungibleMap::new();
    other.insert(6, 10);
    assert!(!other.same_mapping(&m));
    other.insert(5, 7);
    assert!(other.same_mapping(&m));
}
