use barter::bootstrap::Bootstrap;
use barter::custody::{Batch, Credential, NftGlobalId};
use barter::errors::TradeError;
use barter::proposal::Barter;

// The fungible settlement currency in these scenarios.
const XRD: u64 = 1;

fn expect_err<T>(r: Result<T, TradeError>) -> TradeError {
    match r {
        Err(e) => e,
        Ok(_) => panic!("expected the operation to be refused"),
    }
}

// Account 1 creates a public swap (all four of its first collection plus
// 1000 units of currency, for two instances of account 2's collection);
// account 2 deposits a superset and claims; late cancels from either side
// fail; account 1 collects and burns its key.
#[test]
fn test_basic_swap() {
    // supply account 1 with sample collections
    let (mut boot1, _buckets1) = Bootstrap::bootstrap(101, 102, 103);
    let firstrs = boot1.local_ids_1();

    // supply account 2 with sample collections
    let (mut boot2, _buckets2) = Bootstrap::bootstrap(201, 202, 203);
    let secondrs = boot2.local_ids_1();

    // what account 1 requests: the first two instances of account 2's collection
    let global_1 = NftGlobalId {
        resource: secondrs.0,
        local: secondrs.1[0],
    };
    let global_2 = NftGlobalId {
        resource: secondrs.0,
        local: secondrs.1[1],
    };
    let request = vec![global_1, global_2];

    // account 1 creates the swap: NFTs + tokens offered, NFTs requested, no partner
    let bucket1 = Batch::NonFungible {
        resource: firstrs.0,
        ids: firstrs.1.clone(),
    };
    let bucket2 = Batch::Fungible {
        resource: XRD,
        amount: 1000,
    };
    let (mut barter, creator_key, partner_key) = Barter::new_trade_proposal(
        "My new trade!".to_string(),
        None,
        Some(vec![bucket2]),
        Some(vec![bucket1]),
        Some(request.clone()),
        None,
        301,
        401,
    )
    .expect("a populated proposal is accepted");
    assert!(partner_key.is_none());
    assert!(!barter.private);

    // try to create a trade without anything to offer: refused outright
    match Barter::new_trade_proposal(
        "My new trade!".to_string(),
        None,
        None,
        None,
        Some(request.clone()),
        None,
        302,
        402,
    ) {
        Err(e) => assert_eq!(e, TradeError::EmptyOfferOrRequest),
        Ok(_) => panic!("an offerless proposal must be refused"),
    }

    // badge of the swap creator
    let badge = barter.get_badge();
    let key_global = badge.2;
    assert_eq!(badge.0, 301);
    assert!(badge.3.is_none());
    assert!(badge.4.is_none());

    // account 2 sends all four instances (a superset of the two requested)
    // and claims the creator's assets, with no credential needed
    let deposit = Batch::NonFungible {
        resource: secondrs.0,
        ids: secondrs.1.clone(),
    };
    barter
        .partner_deposit_nfts(vec![deposit], None)
        .expect("a superset of the requested instances validates");
    let claimed = barter
        .partner_claims_creator_assets(None)
        .expect("every requested category is validated");
    assert_eq!(claimed.len(), 2);
    match &claimed[0] {
        Batch::Fungible { resource, amount } => {
            assert_eq!(*resource, XRD);
            assert_eq!(*amount, 1000);
        }
        _ => panic!("the currency container comes first"),
    }
    match &claimed[1] {
        Batch::NonFungible { resource, ids } => {
            assert_eq!(*resource, 101);
            assert_eq!(ids, &vec![1, 2, 3, 4]);
        }
        _ => panic!("the offered collection comes second"),
    }

    // account 2 attempts to cancel and withdraw after the swap: refused
    assert_eq!(
        expect_err(barter.partner_cancel(None)),
        TradeError::AlreadySettled
    );

    // account 1 attempts to cancel after the swap has occurred: refused
    assert!(barter.creator_access(Some(key_global)));
    assert_eq!(expect_err(barter.creator_cancel()), TradeError::AlreadySettled);

    // account 1 completes the swap, collecting the deposited instances
    let claimed2 = barter
        .creator_claims_partner_assets()
        .expect("the swap has settled");
    assert_eq!(claimed2.len(), 1);
    match &claimed2[0] {
        Batch::NonFungible { resource, ids } => {
            assert_eq!(*resource, 201);
            assert_eq!(ids, &vec![1, 2, 3, 4]);
        }
        _ => panic!("the deposited collection is returned"),
    }

    // and burns its key
    assert!(barter.burn_creator_badge(creator_key).is_ok());
}

// Same flow as the basic swap, but with a named counterparty: the first
// attempt without the pushed credential is refused, the second with it
// succeeds.
#[test]
fn test_partner_badge_basic_swap() {
    let (mut boot1, _buckets1) = Bootstrap::bootstrap(101, 102, 103);
    let firstrs = boot1.local_ids_1();
    let (mut boot2, _buckets2) = Bootstrap::bootstrap(201, 202, 203);
    let secondrs = boot2.local_ids_1();

    let global_1 = NftGlobalId {
        resource: secondrs.0,
        local: secondrs.1[0],
    };
    let global_2 = NftGlobalId {
        resource: secondrs.0,
        local: secondrs.1[1],
    };
    let request = vec![global_1, global_2];

    // the swap is created with a partner account: the partner key is minted
    // and handed back for delivery to that account
    let account_component2: u64 = 999;
    let bucket1 = Batch::NonFungible {
        resource: firstrs.0,
        ids: firstrs.1.clone(),
    };
    let bucket2 = Batch::Fungible {
        resource: XRD,
        amount: 1000,
    };
    let (mut barter, creator_key, partner_key) = Barter::new_trade_proposal(
        "My new trade!".to_string(),
        Some(account_component2),
        Some(vec![bucket2]),
        Some(vec![bucket1]),
        Some(request),
        None,
        301,
        401,
    )
    .expect("a populated proposal is accepted");
    assert!(barter.private);
    let partner_key = partner_key.expect("a partner key is minted for a named counterparty");

    let badge = barter.get_badge();
    let key_global = badge.2;
    let partner_badge = badge.3.expect("the counterparty token resource is recorded");
    let partner_badge_local = badge.4.expect("the counterparty token id is recorded");
    assert_eq!(partner_badge, partner_key.resource);
    assert_eq!(partner_badge_local, partner_key.local);

    // account 2 does not present the badge: refused
    let deposit = Batch::NonFungible {
        resource: secondrs.0,
        ids: secondrs.1.clone(),
    };
    assert_eq!(
        expect_err(barter.partner_deposit_nfts(vec![deposit], None)),
        TradeError::CredentialRequired
    );
    assert_eq!(
        expect_err(barter.partner_claims_creator_assets(None)),
        TradeError::CredentialRequired
    );

    // account 2 presents the pushed badge: accepted
    let credential = Credential {
        resource: partner_badge,
        local: partner_badge_local,
    };
    let deposit = Batch::NonFungible {
        resource: secondrs.0,
        ids: secondrs.1.clone(),
    };
    barter
        .partner_deposit_nfts(vec![deposit], Some(credential))
        .expect("the genuine credential unlocks the deposit");
    let claimed = barter
        .partner_claims_creator_assets(Some(credential))
        .expect("the genuine credential unlocks the claim");
    assert_eq!(claimed.len(), 2);

    // account 2 attempts to withdraw after the swap: refused
    assert_eq!(
        expect_err(barter.partner_cancel(Some(credential))),
        TradeError::AlreadySettled
    );

    // account 1 attempts to cancel after the swap: refused
    assert!(barter.creator_access(Some(key_global)));
    assert_eq!(expect_err(barter.creator_cancel()), TradeError::AlreadySettled);

    // account 1 completes the swap and burns its key
    let claimed2 = barter
        .creator_claims_partner_assets()
        .expect("the swap has settled");
    assert_eq!(claimed2.len(), 1);
    assert!(barter.burn_creator_badge(creator_key).is_ok());

    // the partner key burns too, for the matching identity only
    assert!(barter.burn_partner_badge(partner_key).is_ok());
}

// The creator cancels before any counterparty action: the offer comes back,
// the proposal closes, and later deposits are permanently refused.
#[test]
fn cancel_swap_test() {
    let (mut boot1, _buckets1) = Bootstrap::bootstrap(101, 102, 103);
    let firstrs = boot1.local_ids_1();
    let (mut boot2, _buckets2) = Bootstrap::bootstrap(201, 202, 203);
    let secondrs = boot2.local_ids_1();

    let global_1 = NftGlobalId {
        resource: secondrs.0,
        local: secondrs.1[0],
    };
    let global_2 = NftGlobalId {
        resource: secondrs.0,
        local: secondrs.1[1],
    };
    let request = vec![global_1, global_2];

    let bucket1 = Batch::NonFungible {
        resource: firstrs.0,
        ids: firstrs.1.clone(),
    };
    let bucket2 = Batch::Fungible {
        resource: XRD,
        amount: 1000,
    };
    let (mut barter, _creator_key, _none) = Barter::new_trade_proposal(
        "My new trade!".to_string(),
        None,
        Some(vec![bucket2]),
        Some(vec![bucket1]),
        Some(request),
        None,
        301,
        401,
    )
    .expect("a populated proposal is accepted");

    // an attempt to cancel without proving the creator key fails at the
    // host's access rule
    assert!(!barter.creator_access(None));

    // with the key's global identity the cancel goes through
    let badge = barter.get_badge();
    assert!(barter.creator_access(Some(badge.2)));
    let returned = barter.creator_cancel().expect("an open proposal can be cancelled");
    assert_eq!(returned.len(), 2);
    match &returned[0] {
        Batch::Fungible { resource, amount } => {
            assert_eq!(*resource, XRD);
            assert_eq!(*amount, 1000);
        }
        _ => panic!("the currency container comes first"),
    }
    match &returned[1] {
        Batch::NonFungible { resource, ids } => {
            assert_eq!(*resource, 101);
            assert_eq!(ids, &vec![1, 2, 3, 4]);
        }
        _ => panic!("the offered collection comes second"),
    }
    assert!(barter.swapped);

    // account 2 attempts to do the swap after it has been cancelled: refused
    let deposit = Batch::NonFungible {
        resource: secondrs.0,
        ids: secondrs.1.clone(),
    };
    assert_eq!(
        expect_err(barter.partner_deposit_nfts(vec![deposit], None)),
        TradeError::AlreadySettled
    );
    assert_eq!(
        expect_err(barter.partner_claims_creator_assets(None)),
        TradeError::AlreadySettled
    );
}
