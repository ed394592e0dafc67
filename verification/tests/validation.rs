use barter::custody::{Batch, Ledger, NftGlobalId};
use barter::errors::TradeError;
use barter::fungibles::FungibleMap;
use barter::proposal::Barter;

fn expect_err<T>(r: Result<T, TradeError>) -> TradeError {
    match r {
        Err(e) => e,
        Ok(_) => panic!("expected the operation to be refused"),
    }
}

// A proposal offering `amount` units of resource 1 and requesting the given
// unique instances and fungible amounts.
fn proposal(
    requested_nfts: Option<Vec<NftGlobalId>>,
    requested_tokens: Option<FungibleMap>,
) -> Barter {
    let offer = Batch::Fungible {
        resource: 1,
        amount: 1000,
    };
    let (barter, _key, _pkey) = Barter::new_trade_proposal(
        "trade".to_string(),
        None,
        Some(vec![offer]),
        None,
        requested_nfts,
        requested_tokens,
        301,
        401,
    )
    .expect("a populated proposal is accepted");
    barter
}

fn amounts(entries: &[(u64, u64)]) -> FungibleMap {
    let mut m = FungibleMap::new();
    for (k, v) in entries {
        m.insert(*k, *v);
    }
    m
}

// Depositing a strict subset of the requested unique instances is refused;
// the exact set and a superset both validate.
#[test]
fn unique_deposit_is_a_subset_test() {
    let requested = vec![
        NftGlobalId { resource: 2, local: 7 },
        NftGlobalId { resource: 2, local: 8 },
    ];

    // strict subset: refused, nothing recorded
    let mut barter = proposal(Some(requested.clone()), None);
    let short = Batch::NonFungible { resource: 2, ids: vec![7] };
    assert_eq!(
        expect_err(barter.partner_deposit_nfts(vec![short], None)),
        TradeError::DepositMismatch
    );
    assert!(!barter.nfts_validated);

    // the exact set: accepted
    let exact = Batch::NonFungible { resource: 2, ids: vec![7, 8] };
    barter
        .partner_deposit_nfts(vec![exact], None)
        .expect("the exact requested set validates");
    assert!(barter.nfts_validated);

    // a superset, spread over two batches of two collections: accepted
    let mut barter2 = proposal(Some(requested), None);
    let extra1 = Batch::NonFungible { resource: 2, ids: vec![8, 9, 7] };
    let extra2 = Batch::NonFungible { resource: 3, ids: vec![1] };
    barter2
        .partner_deposit_nfts(vec![extra1, extra2], None)
        .expect("extra, non-requested instances are allowed");
    assert!(barter2.nfts_validated);
}

// A fungible deposit must equal the recorded expectation exactly: more,
// less, or a different resource mix is refused.
#[test]
fn fungible_deposit_is_exact_equality() {
    let expected = [(5u64, 50u64), (6u64, 10u64)];

    // less than requested on one resource
    let mut barter = proposal(None, Some(amounts(&expected)));
    let d = vec![
        Batch::Fungible { resource: 5, amount: 49 },
        Batch::Fungible { resource: 6, amount: 10 },
    ];
    assert_eq!(
        expect_err(barter.partner_deposit_tokens(d, None)),
        TradeError::DepositMismatch
    );
    assert!(!barter.tokens_validated);

    // more than requested on one resource
    let d = vec![
        Batch::Fungible { resource: 5, amount: 51 },
        Batch::Fungible { resource: 6, amount: 10 },
    ];
    assert_eq!(
        expect_err(barter.partner_deposit_tokens(d, None)),
        TradeError::DepositMismatch
    );

    // an extra resource
    let d = vec![
        Batch::Fungible { resource: 5, amount: 50 },
        Batch::Fungible { resource: 6, amount: 10 },
        Batch::Fungible { resource: 7, amount: 1 },
    ];
    assert_eq!(
        expect_err(barter.partner_deposit_tokens(d, None)),
        TradeError::DepositMismatch
    );

    // a missing resource
    let d = vec![Batch::Fungible { resource: 5, amount: 50 }];
    assert_eq!(
        expect_err(barter.partner_deposit_tokens(d, None)),
        TradeError::DepositMismatch
    );

    // exactly the requested mapping, in the other order
    let d = vec![
        Batch::Fungible { resource: 6, amount: 10 },
        Batch::Fungible { resource: 5, amount: 50 },
    ];
    barter
        .partner_deposit_tokens(d, None)
        .expect("the exact requested mapping validates");
    assert!(barter.tokens_validated);
}

// Batches of one resource are summed before the exact-equality test: the
// expectation is met by the total, never by one bucket alone.
#[test]
fn fungible_deposit_sums_repeated_resources() {
    // the last bucket alone matches, but the total is too much: refused
    let mut barter = proposal(None, Some(amounts(&[(5, 1000)])));
    let d = vec![
        Batch::Fungible { resource: 5, amount: 500 },
        Batch::Fungible { resource: 5, amount: 1000 },
    ];
    assert_eq!(
        expect_err(barter.partner_deposit_tokens(d, None)),
        TradeError::DepositMismatch
    );
    assert!(!barter.tokens_validated);

    // split across two buckets, the total matches exactly: accepted
    let d = vec![
        Batch::Fungible { resource: 5, amount: 400 },
        Batch::Fungible { resource: 5, amount: 600 },
    ];
    barter
        .partner_deposit_tokens(d, None)
        .expect("the summed total equals the expectation");
    assert!(barter.tokens_validated);

    // custody holds the whole total
    barter
        .partner_claims_creator_assets(None)
        .expect("the one requested category is validated");
    let claimed = barter.creator_claims_partner_assets().expect("settled");
    assert_eq!(claimed.len(), 1);
    match &claimed[0] {
        Batch::Fungible { resource, amount } => {
            assert_eq!(*resource, 5);
            assert_eq!(*amount, 1000);
        }
        _ => panic!("the summed container comes back"),
    }

    // a total beyond the machine word can never equal an expectation
    let mut barter = proposal(None, Some(amounts(&[(5, 10)])));
    let d = vec![
        Batch::Fungible { resource: 5, amount: u64::MAX },
        Batch::Fungible { resource: 5, amount: 2 },
    ];
    assert_eq!(
        expect_err(barter.partner_deposit_tokens(d, None)),
        TradeError::DepositMismatch
    );
}

// The settlement claim is refused until every non-empty requested category
// has been validated.
#[test]
fn claim_requires_every_requested_category() {
    let requested_nfts = vec![NftGlobalId { resource: 2, local: 7 }];
    let requested_tokens = amounts(&[(5, 50)]);
    let mut barter = proposal(Some(requested_nfts), Some(requested_tokens));

    // before any deposit
    assert_eq!(
        expect_err(barter.partner_claims_creator_assets(None)),
        TradeError::InsufficientDeposit
    );

    // with only the unique-asset category validated
    let nfts = Batch::NonFungible { resource: 2, ids: vec![7] };
    barter.partner_deposit_nfts(vec![nfts], None).expect("deposit validates");
    assert_eq!(
        expect_err(barter.partner_claims_creator_assets(None)),
        TradeError::InsufficientDeposit
    );

    // with both categories validated
    let tokens = Batch::Fungible { resource: 5, amount: 50 };
    barter.partner_deposit_tokens(vec![tokens], None).expect("deposit validates");
    let claimed = barter
        .partner_claims_creator_assets(None)
        .expect("every requested category is validated");
    assert_eq!(claimed.len(), 1);
    assert!(barter.swapped);
}

// The creator cannot collect the deposits before settlement.
#[test]
fn creator_claim_before_settlement_is_refused() {
    let mut barter = proposal(Some(vec![NftGlobalId { resource: 2, local: 7 }]), None);
    assert_eq!(
        expect_err(barter.creator_claims_partner_assets()),
        TradeError::NotYetSettled
    );
}

// A counterparty cancel before settlement returns its deposits and leaves
// the proposal open.
#[test]
fn partner_cancel_returns_deposits_and_keeps_the_proposal_open() {
    let mut barter = proposal(Some(vec![NftGlobalId { resource: 2, local: 7 }]), None);
    let nfts = Batch::NonFungible { resource: 2, ids: vec![7] };
    barter.partner_deposit_nfts(vec![nfts], None).expect("deposit validates");

    let returned = barter.partner_cancel(None).expect("an open proposal allows it");
    assert_eq!(returned.len(), 1);
    match &returned[0] {
        Batch::NonFungible { resource, ids } => {
            assert_eq!(*resource, 2);
            assert_eq!(ids, &vec![7]);
        }
        _ => panic!("the deposited container comes back"),
    }
    assert!(!barter.swapped);

    // the container stays, drained; a fresh matching deposit validates again
    let nfts = Batch::NonFungible { resource: 2, ids: vec![7] };
    barter.partner_deposit_nfts(vec![nfts], None).expect("the proposal is still open");
}

// Nothing offered, nothing requested, or both: refused before any custody
// movement.
#[test]
fn empty_offer_or_request_is_refused() {
    match Barter::new_trade_proposal(
        "trade".to_string(),
        None,
        None,
        None,
        None,
        None,
        301,
        401,
    ) {
        Err(e) => assert_eq!(e, TradeError::EmptyOfferOrRequest),
        Ok(_) => panic!("an empty proposal must be refused"),
    }
    let offer = Batch::Fungible { resource: 1, amount: 10 };
    match Barter::new_trade_proposal(
        "trade".to_string(),
        None,
        Some(vec![offer]),
        None,
        None,
        None,
        301,
        401,
    ) {
        Err(e) => assert_eq!(e, TradeError::EmptyOfferOrRequest),
        Ok(_) => panic!("a requestless proposal must be refused"),
    }

    // a request that is present but empty requests nothing: refused, so no
    // proposal can ever be claimable without any deposit
    let offer = Batch::Fungible { resource: 1, amount: 10 };
    match Barter::new_trade_proposal(
        "trade".to_string(),
        None,
        Some(vec![offer]),
        None,
        Some(vec![]),
        Some(FungibleMap::new()),
        301,
        401,
    ) {
        Err(e) => assert_eq!(e, TradeError::EmptyOfferOrRequest),
        Ok(_) => panic!("an empty request must be refused"),
    }

    // an offer that is present but empty offers nothing: refused too
    match Barter::new_trade_proposal(
        "trade".to_string(),
        None,
        Some(vec![]),
        Some(vec![]),
        Some(vec![NftGlobalId { resource: 2, local: 1 }]),
        None,
        301,
        401,
    ) {
        Err(e) => assert_eq!(e, TradeError::EmptyOfferOrRequest),
        Ok(_) => panic!("an empty offer must be refused"),
    }
}

// The 50-asset limit: a proposal moving exactly 50 discrete assets is
// accepted, one moving 51 is refused.
#[test]
fn batch_limit_is_fifty() {
    // offered: one fungible batch (counts 1) plus 30 unique instances;
    // requested: 19 instances — exactly 50
    let offered_ids: Vec<u64> = (1..=30).collect();
    let requested: Vec<NftGlobalId> = (1..=19)
        .map(|l| NftGlobalId { resource: 9, local: l })
        .collect();
    let r = Barter::new_trade_proposal(
        "trade".to_string(),
        None,
        Some(vec![Batch::Fungible { resource: 1, amount: 10 }]),
        Some(vec![Batch::NonFungible { resource: 2, ids: offered_ids.clone() }]),
        Some(requested.clone()),
        None,
        301,
        401,
    );
    assert!(r.is_ok());

    // two offered buckets of one resource end in one container: they count
    // once, so the same proposal with the offer split stays at 50
    let offered_ids2: Vec<u64> = (1..=30).collect();
    let r = Barter::new_trade_proposal(
        "trade".to_string(),
        None,
        Some(vec![
            Batch::Fungible { resource: 1, amount: 4 },
            Batch::Fungible { resource: 1, amount: 6 },
        ]),
        Some(vec![Batch::NonFungible { resource: 2, ids: offered_ids2 }]),
        Some(requested.clone()),
        None,
        301,
        401,
    );
    assert!(r.is_ok());

    // one more requested instance tips it to 51
    let mut requested51 = requested;
    requested51.push(NftGlobalId { resource: 9, local: 20 });
    match Barter::new_trade_proposal(
        "trade".to_string(),
        None,
        Some(vec![Batch::Fungible { resource: 1, amount: 10 }]),
        Some(vec![Batch::NonFungible { resource: 2, ids: offered_ids }]),
        Some(requested51),
        None,
        301,
        401,
    ) {
        Err(e) => assert_eq!(e, TradeError::BatchLimitExceeded),
        Ok(_) => panic!("a proposal over the limit must be refused"),
    }
}

// The ledger pre-check a host runs before mirroring a deposit: a batch list
// is refused only where a fungible total would overflow or a resource would
// change kind.
#[test]
fn ledger_accepts_pre_check() {
    let ledger = Ledger::new();
    let fine = vec![
        Batch::Fungible { resource: 1, amount: u64::MAX },
        Batch::NonFungible { resource: 2, ids: vec![1] },
    ];
    assert!(ledger.accepts(&fine));
    let overflowing = vec![
        Batch::Fungible { resource: 1, amount: u64::MAX },
        Batch::Fungible { resource: 1, amount: 1 },
    ];
    assert!(!ledger.accepts(&overflowing));
    let kind_confused = vec![
        Batch::Fungible { resource: 1, amount: 3 },
        Batch::NonFungible { resource: 1, ids: vec![1] },
    ];
    assert!(!ledger.accepts(&kind_confused));
}

// Repeated deposits accumulate in custody: the recorded expectation is
// checked against each call's batch on its own.
#[test]
fn repeated_deposits_accumulate() {
    let mut barter = proposal(None, Some(amounts(&[(5, 50)])));
    let d = vec![Batch::Fungible { resource: 5, amount: 50 }];
    barter.partner_deposit_tokens(d, None).expect("deposit validates");
    let d = vec![Batch::Fungible { resource: 5, amount: 50 }];
    barter.partner_deposit_tokens(d, None).expect("a repeat also validates");

    barter
        .partner_claims_creator_assets(None)
        .expect("the one requested category is validated");
    let claimed = barter.creator_claims_partner_assets().expect("settled");
    assert_eq!(claimed.len(), 1);
    match &claimed[0] {
        Batch::Fungible { resource, amount } => {
            assert_eq!(*resource, 5);
            assert_eq!(*amount, 100);
        }
        _ => panic!("the accumulated container comes back"),
    }
}
