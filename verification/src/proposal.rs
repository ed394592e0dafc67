use crate::custody::{
    can_put_all, deposited_amount, distinct_resources, emptied, globals_of, held_amount,
    lemma_deposited_amount_concat, lemma_deposited_amount_nonneg, lemma_put_all_concat,
    lemma_put_all_conserves_amounts, nft_record_of, put_all, Batch, BatchV, Credential, Ledger,
    NftGlobalId,
};
use crate::fungibles::{lemma_map_of_entries_dom, lemma_map_of_entries_value};
use crate::errors::TradeError;
use crate::fungibles::FungibleMap;
use vstd::prelude::*;
use vstd::string::StringExecFns;

verus! {

/// The local id of the creator's capability token inside the key resource.
pub const CREATOR_KEY_LOCAL: u64 = 1;

/// The local id of the counterparty's capability token inside the key resource.
pub const PARTNER_KEY_LOCAL: u64 = 2;

/// The immutable record written onto each capability token at mint time: a
/// full snapshot of the trade for inspection without re-querying the proposal.
pub struct Escroceipt {
    pub name: String,
    pub description: String,
    pub key_image_url: String,
    pub swap_component: u64,
    pub nfts_offered: Vec<NftGlobalId>,
    pub tokens_offered: FungibleMap,
    pub nfts_requested: Vec<NftGlobalId>,
    pub tokens_requested: FungibleMap,
}

/// A capability token: the unique instance `local` of the key resource
/// `resource`, carrying its display label and its [`Escroceipt`] record.
/// The value is linear — deliberately not `Clone` — because holding it is
/// what authorizes the gated operations; burning it consumes it.
pub struct KeyToken {
    pub resource: u64,
    pub local: u64,
    pub label: String,
    pub data: Escroceipt,
}

/// Every batch is a non-fungible batch carrying at least one instance.
/// A real asset bucket handed to the unique-asset entry points satisfies
/// this: reading a single instance id from an empty or fungible bucket is
/// what the host environment refuses.
pub open spec fn all_unique_batches(bs: Seq<BatchV>) -> bool {
    forall|i: int| 0 <= i < bs.len() ==> !bs[i].is_fungible() && bs[i].nft_ids().len() >= 1
}

/// Every batch is a fungible batch.
pub open spec fn all_fungible_batches(bs: Seq<BatchV>) -> bool {
    forall|i: int| 0 <= i < bs.len() ==> bs[i].is_fungible()
}

/// The per-resource totals a list of fungible batches carries: batches of
/// one resource add up, exactly as they add up in the custody container
/// they end in.
pub open spec fn amounts_of(bs: Seq<BatchV>) -> Map<u64, int>
    decreases bs.len(),
{
    if bs.len() == 0 {
        Map::empty()
    } else {
        let rest = amounts_of(bs.skip(1));
        let r = bs[0].res();
        let prev = if rest.contains_key(r) {
            rest[r]
        } else {
            0
        };
        rest.insert(r, prev + bs[0].fungible_amount())
    }
}

/// A recorded expectation read as exact integers, for comparison with
/// deposited totals.
pub open spec fn as_int_map(m: Map<u64, u64>) -> Map<u64, int> {
    Map::new(|k: u64| m.contains_key(k), |k: u64| m[k] as int)
}

/// The summed record holds one entry per deposited resource, carrying the
/// total amount that custody will gain of it.
pub proof fn lemma_amounts_of_entries(bs: Seq<BatchV>, r: u64)
    requires
        all_fungible_batches(bs),
    ensures
        amounts_of(bs).contains_key(r) <==> exists|i: int| 0 <= i < bs.len() && bs[i].res() == r,
        amounts_of(bs).contains_key(r) ==> amounts_of(bs)[r] == deposited_amount(bs, r),
        !amounts_of(bs).contains_key(r) ==> deposited_amount(bs, r) == 0,
    decreases bs.len(),
{
    if bs.len() > 0 {
        let t = bs.skip(1);
        assert(all_fungible_batches(t)) by {
            assert forall|i: int| 0 <= i < t.len() implies t[i].is_fungible() by {
                assert(t[i] == bs[i + 1]);
            }
        }
        lemma_amounts_of_entries(t, r);
        assert(bs[0].is_fungible());
        if amounts_of(bs).contains_key(r) {
            if r == bs[0].res() {
                assert(bs[0].res() == r);
            } else {
                let i = choose|i: int| 0 <= i < t.len() && t[i].res() == r;
                assert(bs[i + 1].res() == r);
            }
        }
        if exists|i: int| 0 <= i < bs.len() && bs[i].res() == r {
            let i = choose|i: int| 0 <= i < bs.len() && bs[i].res() == r;
            if i > 0 {
                assert(t[i - 1].res() == r);
            }
        }
    }
}

/// Every identifier of `expected` occurs in `record`: the subset test that
/// validates a unique-asset deposit.  Extra deposited instances are allowed.
pub open spec fn covers(record: Seq<NftGlobalId>, expected: Seq<NftGlobalId>) -> bool {
    forall|i: int| 0 <= i < expected.len() ==> record.contains(expected[i])
}

/// The batches an optional offer argument stands for: none means an empty
/// offer on that side.
pub open spec fn opt_batches(o: Option<Vec<Batch>>) -> Seq<BatchV> {
    match o {
        Some(v) => v.deep_view(),
        None => Seq::empty(),
    }
}

/// The requested unique instances an optional argument stands for.
pub open spec fn opt_nft_list(o: Option<Vec<NftGlobalId>>) -> Seq<NftGlobalId> {
    match o {
        Some(v) => v@,
        None => Seq::empty(),
    }
}

/// The requested fungible amounts an optional argument stands for.
pub open spec fn opt_token_map(o: Option<FungibleMap>) -> Map<u64, u64> {
    match o {
        Some(m) => m@,
        None => Map::empty(),
    }
}

/// The number of requested fungible resource entries.
pub open spec fn opt_token_len(o: Option<FungibleMap>) -> nat {
    match o {
        Some(m) => m.spec_len(),
        None => 0,
    }
}

/// Total unique instances across a list of non-fungible batches.
pub open spec fn instance_count(bs: Seq<BatchV>) -> nat
    decreases bs.len(),
{
    if bs.len() == 0 {
        0
    } else {
        instance_count(bs.drop_last()) + bs.last().nft_ids().len()
    }
}

/// Nothing requested, or nothing offered: such a proposal is refused.
/// An argument that is absent and one that is present but empty both count
/// as nothing; every requested collection empty, or every offered one,
/// refuses the proposal.
pub open spec fn offer_or_request_missing(
    a_tokens: Option<Vec<Batch>>,
    a_nfts: Option<Vec<Batch>>,
    b_nft_deposits: Option<Vec<NftGlobalId>>,
    b_token_deposits: Option<FungibleMap>,
) -> bool {
    (opt_nft_list(b_nft_deposits).len() == 0 && opt_token_len(b_token_deposits) == 0) || (
    opt_batches(a_nfts).len() == 0 && opt_batches(a_tokens).len() == 0)
}

/// The number of distinct resources an offered fungible batch list names:
/// batches of one resource end in one custody container, so they count once
/// toward the settlement limit.
pub open spec fn distinct_resource_count(bs: Seq<BatchV>) -> nat
    decreases bs.len(),
{
    if bs.len() == 0 {
        0
    } else {
        distinct_resource_count(bs.drop_last()) + (if exists|j: int|
            0 <= j < bs.len() - 1 && bs[j].res() == bs.last().res() {
            0nat
        } else {
            1nat
        })
    }
}

/// How many discrete asset movements one settlement of this proposal can
/// generate: requested instances, requested fungible entries, distinct
/// offered fungible resources, and offered unique instances.
pub open spec fn proposal_size(
    a_tokens: Option<Vec<Batch>>,
    a_nfts: Option<Vec<Batch>>,
    b_nft_deposits: Option<Vec<NftGlobalId>>,
    b_token_deposits: Option<FungibleMap>,
) -> nat {
    opt_nft_list(b_nft_deposits).len() + opt_token_len(b_token_deposits)
        + distinct_resource_count(opt_batches(a_tokens)) + instance_count(opt_batches(a_nfts))
}

/// A count capped just past the single-settlement limit.
pub open spec fn capped(x: int) -> int {
    if x > 51 {
        51
    } else {
        x
    }
}

/// `a + b`, capped so that counting cannot overflow while still deciding
/// whether the total stays within the limit of 50.
fn cap_add(a: usize, b: usize) -> (r: usize)
    requires
        a <= 51,
    ensures
        r == capped(a + b),
{
    if b > 51 - a {
        51
    } else {
        a + b
    }
}

/// Whether `v` contains the identifier `x`.
fn contains_global(v: &Vec<NftGlobalId>, x: NftGlobalId) -> (r: bool)
    ensures
        r == v@.contains(x),
{
    let n = v.len();
    let mut i: usize = 0;
    while i < n
        invariant
            i <= n,
            n == v@.len(),
            forall|j: int| 0 <= j < i ==> v@[j] != x,
        decreases n - i,
    {
        if v[i] == x {
            return true;
        }
        i += 1;
    }
    false
}

/// Whether every identifier of `expected` occurs in `record`.
fn covers_all(record: &Vec<NftGlobalId>, expected: &Vec<NftGlobalId>) -> (r: bool)
    ensures
        r == covers(record@, expected@),
{
    let n = expected.len();
    let mut i: usize = 0;
    while i < n
        invariant
            i <= n,
            n == expected@.len(),
            forall|j: int| 0 <= j < i ==> record@.contains(expected@[j]),
        decreases n - i,
    {
        if !contains_global(record, expected[i]) {
            return false;
        }
        i += 1;
    }
    true
}

/// A copy of a list of identifiers.  Identifiers are plain values; copying
/// them moves no assets.
fn copy_globals(v: &Vec<NftGlobalId>) -> (r: Vec<NftGlobalId>)
    ensures
        r@ == v@,
{
    let n = v.len();
    let mut r: Vec<NftGlobalId> = Vec::new();
    let mut i: usize = 0;
    while i < n
        invariant
            i <= n,
            n == v@.len(),
            r@ == v@.take(i as int),
        decreases n - i,
    {
        r.push(v[i]);
        proof {
            assert(r@ =~= v@.take(i + 1));
        }
        i += 1;
    }
    proof {
        assert(r@ =~= v@);
    }
    r
}

/// The full list of global ids deposited by `assets`, expanding each batch
/// to one identifier per instance.
fn build_nft_record(assets: &Vec<Batch>) -> (r: Vec<NftGlobalId>)
    requires
        all_unique_batches(assets.deep_view()),
    ensures
        r@ == nft_record_of(assets.deep_view()),
{
    let ghost dv = assets.deep_view();
    let mut record: Vec<NftGlobalId> = Vec::new();
    proof {
        assert(dv.skip(0) =~= dv);
        assert(Seq::<NftGlobalId>::empty() + nft_record_of(dv) =~= nft_record_of(dv));
    }
    let n = assets.len();
    let mut i: usize = 0;
    while i < n
        invariant
            i <= n,
            n == assets@.len(),
            dv == assets.deep_view(),
            all_unique_batches(dv),
            record@ + nft_record_of(dv.skip(i as int)) =~= nft_record_of(dv),
        decreases n - i,
    {
        let ghost base = record@;
        match &assets[i] {
            Batch::Fungible { .. } => {
                proof {
                    assert(dv[i as int].is_fungible());
                    assert(false);
                }
            }
            Batch::NonFungible { resource, ids } => {
                proof {
                    assert(dv[i as int] == assets@[i as int]@);
                }
                let m = ids.len();
                let mut j: usize = 0;
                while j < m
                    invariant
                        j <= m,
                        m == ids@.len(),
                        globals_of(dv[i as int]) == ids@.map_values(
                            |l: u64| NftGlobalId { resource: *resource, local: l },
                        ),
                        record@ =~= base + globals_of(dv[i as int]).take(j as int),
                    decreases m - j,
                {
                    record.push(NftGlobalId { resource: *resource, local: ids[j] });
                    proof {
                        assert(record@ =~= base + globals_of(dv[i as int]).take(j + 1));
                    }
                    j += 1;
                }
                proof {
                    assert(globals_of(dv[i as int]).take(m as int) =~= globals_of(dv[i as int]));
                }
            }
        }
        proof {
            assert(record@ =~= base + globals_of(dv[i as int]));
            assert(nft_record_of(dv.skip(i as int)) == globals_of(dv.skip(i as int)[0])
                + nft_record_of(dv.skip(i as int).skip(1)));
            assert(dv.skip(i as int)[0] == dv[i as int]);
            assert(dv.skip(i as int).skip(1) =~= dv.skip(i + 1));
            assert(record@ + nft_record_of(dv.skip(i + 1)) =~= nft_record_of(dv));
        }
        i += 1;
    }
    proof {
        assert(dv.skip(n as int) =~= Seq::<BatchV>::empty());
        assert(record@ =~= nft_record_of(dv));
    }
    record
}

/// The per-resource totals of an offered fungible batch list, recorded for
/// the token snapshot.  The caller's custody bound keeps every total within
/// the machine word.
fn build_offer_totals(assets: &Vec<Batch>) -> (m: FungibleMap)
    requires
        all_fungible_batches(assets.deep_view()),
        can_put_all(Seq::empty(), assets.deep_view()),
    ensures
        m.wf(),
        as_int_map(m@) == amounts_of(assets.deep_view()),
{
    let ghost dv = assets.deep_view();
    let mut m = FungibleMap::new();
    proof {
        assert(dv.skip(dv.len() as int) =~= Seq::<BatchV>::empty());
        assert(as_int_map(m@) =~= amounts_of(dv.skip(dv.len() as int)));
    }
    let n = assets.len();
    let mut i: usize = n;
    while i > 0
        invariant
            i <= n,
            n == assets@.len(),
            dv == assets.deep_view(),
            all_fungible_batches(dv),
            can_put_all(Seq::empty(), dv),
            m.wf(),
            as_int_map(m@) == amounts_of(dv.skip(i as int)),
        decreases i,
    {
        i -= 1;
        match &assets[i] {
            Batch::Fungible { resource, amount } => {
                proof {
                    assert(dv[i as int] == assets@[i as int]@);
                }
                let prev: u64 = match m.get(*resource) {
                    Some(held) => held,
                    None => 0,
                };
                proof {
                    let r = dv[i as int].res();
                    assert(all_fungible_batches(dv.skip(i + 1))) by {
                        assert forall|q: int| 0 <= q < dv.skip(i + 1).len() implies #[trigger] dv
                            .skip(i + 1)[q].is_fungible() by {
                            assert(dv.skip(i + 1)[q] == dv[q + i + 1]);
                        }
                    }
                    lemma_amounts_of_entries(dv.skip(i + 1), r);
                    assert(dv.skip(i as int)[0] == dv[i as int]);
                    assert(dv.skip(i as int).skip(1) =~= dv.skip(i + 1));
                    assert(dv =~= dv.take(i as int) + dv.skip(i as int));
                    lemma_deposited_amount_concat(dv.take(i as int), dv.skip(i as int), r);
                    lemma_deposited_amount_nonneg(dv.take(i as int), r);
                    assert(distinct_resources(Seq::<BatchV>::empty()));
                    lemma_put_all_conserves_amounts(Seq::empty(), dv, r);
                    assert(held_amount(put_all(Seq::empty(), dv), r) <= u64::MAX);
                    assert(prev + *amount <= u64::MAX);
                }
                m.insert(*resource, prev + *amount);
                proof {
                    assert(as_int_map(m@) =~= amounts_of(dv.skip(i as int)));
                }
            }
            Batch::NonFungible { .. } => {
                proof {
                    assert(dv[i as int] == assets@[i as int]@);
                    assert(false);
                }
            }
        }
    }
    proof {
        assert(dv.skip(0) =~= dv);
    }
    m
}

/// Whether the per-resource totals deposited by `assets` equal the recorded
/// expectation exactly: same resources, same totals, nothing else.
fn token_totals_match(assets: &Vec<Batch>, expected: &FungibleMap) -> (r: bool)
    requires
        all_fungible_batches(assets.deep_view()),
        expected.wf(),
    ensures
        r == (amounts_of(assets.deep_view()) == as_int_map(expected@)),
{
    let ghost dv = assets.deep_view();
    let ghost goal = as_int_map(expected@);
    let n = assets.len();

    // every deposited resource must be expected at all
    let mut i: usize = 0;
    while i < n
        invariant
            i <= n,
            n == assets@.len(),
            dv == assets.deep_view(),
            all_fungible_batches(dv),
            expected.wf(),
            goal == as_int_map(expected@),
            forall|j: int| 0 <= j < i ==> expected@.contains_key(#[trigger] dv[j].res()),
        decreases n - i,
    {
        let deposited_resource = assets[i].resource();
        proof {
            assert(dv[i as int] == assets@[i as int]@);
        }
        if expected.get(deposited_resource).is_none() {
            proof {
                lemma_amounts_of_entries(dv, deposited_resource);
                assert(amounts_of(dv).contains_key(deposited_resource)) by {
                    assert(dv[i as int].res() == deposited_resource);
                }
                assert(!goal.contains_key(deposited_resource));
            }
            return false;
        }
        i += 1;
    }

    // every expected resource must be deposited, with exactly its total
    let expected_len = expected.entries.len();
    let mut j: usize = 0;
    while j < expected_len
        invariant
            j <= expected_len,
            expected_len == expected.entries@.len(),
            n == assets@.len(),
            dv == assets.deep_view(),
            all_fungible_batches(dv),
            expected.wf(),
            goal == as_int_map(expected@),
            forall|p: int| 0 <= p < n ==> expected@.contains_key(#[trigger] dv[p].res()),
            forall|q: int| 0 <= q < j ==> {
                &&& amounts_of(dv).contains_key(#[trigger] expected.entries@[q].0)
                &&& amounts_of(dv)[expected.entries@[q].0] == expected.entries@[q].1 as int
            },
        decreases expected_len - j,
    {
        let (k, v) = expected.entries[j];
        let mut found = false;
        let mut acc: u64 = 0;
        let mut p: usize = 0;
        proof {
            assert(dv.skip(0) =~= dv);
        }
        while p < n
            invariant
                p <= n,
                n == assets@.len(),
                dv == assets.deep_view(),
                all_fungible_batches(dv),
                expected.wf(),
                goal == as_int_map(expected@),
                expected_len == expected.entries@.len(),
                j < expected_len,
                k == expected.entries@[j as int].0,
                v == expected.entries@[j as int].1,
                deposited_amount(dv, k) == acc + deposited_amount(dv.skip(p as int), k),
                found == exists|q: int| 0 <= q < p && #[trigger] dv[q].res() == k,
            decreases n - p,
        {
            proof {
                assert(dv[p as int] == assets@[p as int]@);
                assert(dv.skip(p as int)[0] == dv[p as int]);
                assert(dv.skip(p as int).skip(1) =~= dv.skip(p + 1));
            }
            match &assets[p] {
                Batch::Fungible { resource, amount } => {
                    if *resource == k {
                        proof {
                            assert(dv[p as int].res() == k);
                        }
                        found = true;
                        match acc.checked_add(*amount) {
                            Some(next) => {
                                acc = next;
                            }
                            None => {
                                proof {
                                    // the true total exceeds the machine word,
                                    // but every recorded expectation fits it
                                    lemma_deposited_amount_nonneg(dv.skip(p + 1), k);
                                    assert(deposited_amount(dv, k) > u64::MAX);
                                    lemma_amounts_of_entries(dv, k);
                                    assert(amounts_of(dv).contains_key(k));
                                    lemma_map_of_entries_dom(expected.entries@);
                                    assert(expected@.contains_key(k)) by {
                                        assert(expected.entries@[j as int].0 == k);
                                    }
                                    assert(goal.contains_key(k));
                                    assert(goal[k] <= u64::MAX);
                                }
                                return false;
                            }
                        }
                    }
                }
                Batch::NonFungible { .. } => {
                    proof {
                        assert(false);
                    }
                }
            }
            p += 1;
        }
        proof {
            assert(dv.skip(n as int) =~= Seq::<BatchV>::empty());
            lemma_amounts_of_entries(dv, k);
            lemma_map_of_entries_dom(expected.entries@);
            assert(expected@.contains_key(k)) by {
                assert(expected.entries@[j as int].0 == k);
            }
            assert(goal.contains_key(k));
        }
        if !found {
            return false;
        }
        if acc != v {
            proof {
                lemma_map_of_entries_value(expected.entries@, j as int);
                assert(goal[k] == v as int);
                assert(amounts_of(dv)[k] == acc as int);
            }
            return false;
        }
        proof {
            lemma_map_of_entries_value(expected.entries@, j as int);
            assert(amounts_of(dv).contains_key(k));
            assert(amounts_of(dv)[k] == v as int);
        }
        j += 1;
    }
    proof {
        lemma_map_of_entries_dom(expected.entries@);
        assert forall|k: u64| #[trigger] amounts_of(dv).contains_key(k) implies goal.contains_key(
            k,
        ) && amounts_of(dv)[k] == goal[k] by {
            lemma_amounts_of_entries(dv, k);
            let w = choose|i: int| 0 <= i < dv.len() && dv[i].res() == k;
            assert(expected@.contains_key(dv[w].res()));
            let q = choose|q: int|
                0 <= q < expected.entries@.len() && expected.entries@[q].0 == k;
            lemma_map_of_entries_value(expected.entries@, q);
            assert(amounts_of(dv)[expected.entries@[q].0] == expected.entries@[q].1 as int);
        }
        assert forall|k: u64| #[trigger] goal.contains_key(k) implies amounts_of(dv).contains_key(
            k,
        ) by {
            let q = choose|q: int|
                0 <= q < expected.entries@.len() && expected.entries@[q].0 == k;
            assert(amounts_of(dv).contains_key(expected.entries@[q].0));
        }
        assert(amounts_of(dv) =~= goal);
    }
    true
}

/// One capability token's immutable record, snapshotted at mint time.
fn make_receipt(
    description: &str,
    component_address: u64,
    nfts_offered: &Vec<NftGlobalId>,
    tokens_offered: &FungibleMap,
    nfts_requested: &Vec<NftGlobalId>,
    tokens_requested: &FungibleMap,
) -> (e: Escroceipt)
    ensures
        e.name@ == "Trove Swap"@,
        e.description@ == description@,
        e.key_image_url@ == "https://trove.tools/multiple.png"@,
        e.swap_component == component_address,
        e.nfts_offered@ == nfts_offered@,
        e.tokens_offered.entries@ == tokens_offered.entries@,
        e.nfts_requested@ == nfts_requested@,
        e.tokens_requested.entries@ == tokens_requested.entries@,
{
    Escroceipt {
        name: "Trove Swap".to_owned(),
        description: description.to_owned(),
        key_image_url: "https://trove.tools/multiple.png".to_owned(),
        swap_component: component_address,
        nfts_offered: copy_globals(nfts_offered),
        tokens_offered: tokens_offered.duplicate(),
        nfts_requested: copy_globals(nfts_requested),
        tokens_requested: tokens_requested.duplicate(),
    }
}

/// One trade proposal: the root entity governing one bilateral exchange.
///
/// The creator's offered assets sit in `creator_vaults`; the counterparty's
/// deposits accumulate in `partner_vaults`.  The expectation recorded at
/// creation is immutable; only the ledger contents and the boolean flags
/// change afterwards, and `swapped` never reverts to `false`.
pub struct Barter {
    /// Custody of the creator's offered assets.
    pub creator_vaults: Ledger,
    /// The key resource of the capability tokens minted at creation.
    pub a_vault_key: u64,
    /// The local id of the creator's capability token.
    pub a_vault_key_id: u64,
    /// The creator token's global identity; proving it is what the host's
    /// access layer demands for the creator-restricted operations.
    pub a_vault_key_global: NftGlobalId,
    /// Custody of the counterparty's deposits.
    pub partner_vaults: Ledger,
    /// The counterparty token's resource, when the proposal is private.
    pub badge_partner: Option<u64>,
    /// The counterparty token's local id, when the proposal is private.
    pub badge_partner_local: Option<u64>,
    /// The unique instances the creator requests in return.
    pub expected_nfts: Vec<NftGlobalId>,
    /// The fungible amounts, per resource, the creator requests in return.
    pub expected_tokens: FungibleMap,
    /// Whether a fungible deposit matching the expectation has occurred.
    pub tokens_validated: bool,
    /// Whether a unique-asset deposit matching the expectation has occurred.
    pub nfts_validated: bool,
    /// Whether the proposal is bound to a named counterparty.
    pub private: bool,
    /// The terminal flag: set by settlement or by a creator cancel, never
    /// cleared.
    pub swapped: bool,
    /// The first offered asset type, kept for display only.
    pub category: Option<u64>,
}

/// The fields fixed at creation, shared between two proposal states.
pub open spec fn same_trade_identity(a: Barter, b: Barter) -> bool {
    &&& a.a_vault_key == b.a_vault_key
    &&& a.a_vault_key_id == b.a_vault_key_id
    &&& a.a_vault_key_global == b.a_vault_key_global
    &&& a.badge_partner == b.badge_partner
    &&& a.badge_partner_local == b.badge_partner_local
    &&& a.expected_nfts == b.expected_nfts
    &&& a.expected_tokens == b.expected_tokens
    &&& a.private == b.private
    &&& a.category == b.category
}

impl Barter {
    /// The structural invariant every proposal satisfies from creation on.
    pub open spec fn wf(self) -> bool {
        &&& self.creator_vaults.wf()
        &&& self.partner_vaults.wf()
        &&& self.expected_tokens.wf()
        &&& self.private == self.badge_partner is Some
        &&& self.badge_partner is Some <==> self.badge_partner_local is Some
        &&& self.a_vault_key_global == (NftGlobalId {
            resource: self.a_vault_key,
            local: self.a_vault_key_id,
        })
    }

    /// The outcome of presenting `badge` to a counterparty-gated operation:
    /// a public proposal asks for nothing; a private one demands the one
    /// genuine counterparty credential.
    pub open spec fn auth_error(self, badge: Option<Credential>) -> Option<TradeError> {
        if !self.private {
            None
        } else if badge is None {
            Some(TradeError::CredentialRequired)
        } else if badge.unwrap().resource != self.badge_partner.unwrap()
            || badge.unwrap().local != self.badge_partner_local.unwrap() {
            Some(TradeError::InvalidCredential)
        } else {
            None
        }
    }

    /// Whether a unique-asset deposit satisfies the recorded expectation:
    /// every requested instance is among the deposited ones (a subset test;
    /// extra instances are accepted).
    pub open spec fn nft_deposit_matches(self, bs: Seq<BatchV>) -> bool {
        covers(nft_record_of(bs), self.expected_nfts@)
    }

    /// Whether a fungible deposit satisfies the recorded expectation: the
    /// deposited per-resource totals equal it exactly — no extras, no
    /// shortfalls, no other resources.  Batches of one resource are summed,
    /// as the custody container they end in sums them.
    pub open spec fn token_deposit_matches(self, bs: Seq<BatchV>) -> bool {
        amounts_of(bs) == as_int_map(self.expected_tokens@)
    }

    /// A required validation has not occurred: some non-empty requested
    /// category has its validated flag still unset.
    pub open spec fn deposit_gap(self) -> bool {
        ||| self.expected_nfts@.len() > 0 && !self.nfts_validated
        ||| self.expected_tokens.spec_len() > 0 && !self.tokens_validated
    }

    /// Validate an offer/request pair, take custody of the offered assets,
    /// and mint the capability token(s).
    ///
    /// The host allocates fresh identities for the key resource
    /// (`key_resource`) and the proposal instance (`component_address`) and
    /// passes them in.  When a counterparty account is named, the second
    /// returned token is the counterparty's: the host pushes it into that
    /// account within the same all-or-nothing unit, and the proposal is
    /// private from birth.  The caller alone retains the creator token; it is
    /// the only way to pass the access rule on creator-restricted operations.
    pub fn new_trade_proposal(
        custom_trade_name: String,
        partner: Option<u64>,
        a_tokens: Option<Vec<Batch>>,
        a_nfts: Option<Vec<Batch>>,
        b_nft_deposits: Option<Vec<NftGlobalId>>,
        b_token_deposits: Option<FungibleMap>,
        key_resource: u64,
        component_address: u64,
    ) -> (r: Result<(Barter, KeyToken, Option<KeyToken>), TradeError>)
        requires
            b_token_deposits matches Some(m) ==> m.wf(),
            a_tokens matches Some(v) ==> all_fungible_batches(v.deep_view()),
            a_nfts matches Some(v) ==> all_unique_batches(v.deep_view()),
            !offer_or_request_missing(a_tokens, a_nfts, b_nft_deposits, b_token_deposits)
                && proposal_size(a_tokens, a_nfts, b_nft_deposits, b_token_deposits) <= 50
                ==> can_put_all(Seq::empty(), opt_batches(a_tokens) + opt_batches(a_nfts)),
        ensures
            offer_or_request_missing(a_tokens, a_nfts, b_nft_deposits, b_token_deposits) ==> (
            r matches Err(e) && e == TradeError::EmptyOfferOrRequest),
            !offer_or_request_missing(a_tokens, a_nfts, b_nft_deposits, b_token_deposits)
                && proposal_size(a_tokens, a_nfts, b_nft_deposits, b_token_deposits) > 50 ==> (
            r matches Err(e) && e == TradeError::BatchLimitExceeded),
            r is Ok <==> !offer_or_request_missing(a_tokens, a_nfts, b_nft_deposits,
            b_token_deposits) && proposal_size(a_tokens, a_nfts, b_nft_deposits, b_token_deposits)
                <= 50,
            r matches Ok(t) ==> {
                &&& t.0.wf()
                &&& t.0.creator_vaults@ == put_all(
                    Seq::empty(),
                    opt_batches(a_tokens) + opt_batches(a_nfts),
                )
                &&& t.0.partner_vaults@ == Seq::<BatchV>::empty()
                &&& t.0.expected_nfts@ == opt_nft_list(b_nft_deposits)
                &&& t.0.expected_tokens@ == opt_token_map(b_token_deposits)
                &&& t.0.expected_tokens.spec_len() == opt_token_len(b_token_deposits)
                &&& !t.0.swapped
                &&& !t.0.nfts_validated
                &&& !t.0.tokens_validated
                &&& t.0.private == partner.is_some()
                &&& t.0.a_vault_key == key_resource
                &&& t.0.a_vault_key_id == CREATOR_KEY_LOCAL
                &&& t.0.a_vault_key_global == (NftGlobalId {
                    resource: key_resource,
                    local: CREATOR_KEY_LOCAL,
                })
                &&& (partner is Some ==> t.0.badge_partner == Some(key_resource)
                    && t.0.badge_partner_local == Some(PARTNER_KEY_LOCAL))
                &&& (partner is None ==> t.0.badge_partner is None && t.0.badge_partner_local
                    is None)
                &&& t.0.category == (if opt_batches(a_nfts).len() > 0 {
                    Some(opt_batches(a_nfts)[0].res())
                } else if opt_batches(a_tokens).len() > 0 {
                    Some(opt_batches(a_tokens)[0].res())
                } else {
                    None::<u64>
                })
                &&& t.1.resource == key_resource
                &&& t.1.local == CREATOR_KEY_LOCAL
                &&& t.1.label@ == "TROVE Key: "@ + custom_trade_name@
                &&& t.1.data.name@ == "Trove Swap"@
                &&& t.1.data.description@ == "This NFT contains details of your Swap on Trove"@
                &&& t.1.data.swap_component == component_address
                &&& t.1.data.nfts_offered@ == nft_record_of(opt_batches(a_nfts))
                &&& as_int_map(t.1.data.tokens_offered@) == amounts_of(opt_batches(a_tokens))
                &&& t.1.data.nfts_requested@ == opt_nft_list(b_nft_deposits)
                &&& t.1.data.tokens_requested@ == opt_token_map(b_token_deposits)
                &&& (t.2 is Some <==> partner is Some)
                &&& (t.2 matches Some(k2) ==> {
                    &&& k2.resource == key_resource
                    &&& k2.local == PARTNER_KEY_LOCAL
                    &&& k2.label@ == "TROVE Key: "@ + custom_trade_name@
                    &&& k2.data.description@
                        == "This NFT's metadata contains details of the requested Swap on Trove"@
                    &&& k2.data.swap_component == component_address
                    &&& k2.data.nfts_offered@ == nft_record_of(opt_batches(a_nfts))
                    &&& as_int_map(k2.data.tokens_offered@) == amounts_of(opt_batches(a_tokens))
                    &&& k2.data.nfts_requested@ == opt_nft_list(b_nft_deposits)
                    &&& k2.data.tokens_requested@ == opt_token_map(b_token_deposits)
                })
            },
    {
        let mut request_present = false;
        if let Some(v) = &b_nft_deposits {
            if v.len() > 0 {
                request_present = true;
            }
        }
        if let Some(m) = &b_token_deposits {
            if m.len() > 0 {
                request_present = true;
            }
        }
        let mut offer_present = false;
        if let Some(v) = &a_tokens {
            if v.len() > 0 {
                offer_present = true;
            }
        }
        if let Some(v) = &a_nfts {
            if v.len() > 0 {
                offer_present = true;
            }
        }
        if !request_present || !offer_present {
            return Err(TradeError::EmptyOfferOrRequest);
        }
        let ghost req_n = opt_nft_list(b_nft_deposits).len() as int;
        let ghost req_t = opt_token_len(b_token_deposits) as int;
        let ghost off_t = distinct_resource_count(opt_batches(a_tokens)) as int;
        let ghost off_n = instance_count(opt_batches(a_nfts)) as int;

        let mut count: usize = 0;
        if let Some(v) = &b_nft_deposits {
            count = cap_add(count, v.len());
        }
        proof {
            assert(count == capped(req_n));
        }
        if let Some(m) = &b_token_deposits {
            count = cap_add(count, m.len());
        }
        proof {
            assert(count == capped(req_n + req_t));
        }
        if let Some(v) = &a_tokens {
            let ghost dv = v.deep_view();
            let ghost base: int = count as int;
            let n = v.len();
            let mut i: usize = 0;
            while i < n
                invariant
                    i <= n,
                    n == v@.len(),
                    dv == v.deep_view(),
                    0 <= base <= 51,
                    count == capped(base + distinct_resource_count(dv.take(i as int))),
                decreases n - i,
            {
                let current = v[i].resource();
                proof {
                    assert(dv[i as int] == v@[i as int]@);
                }
                let mut seen = false;
                let mut j: usize = 0;
                while j < i
                    invariant
                        j <= i,
                        i < n,
                        n == v@.len(),
                        dv == v.deep_view(),
                        current == dv[i as int].res(),
                        seen == exists|q: int|
                            0 <= q < j && #[trigger] dv[q].res() == dv[i as int].res(),
                    decreases i - j,
                {
                    proof {
                        assert(dv[j as int] == v@[j as int]@);
                    }
                    if v[j].resource() == current {
                        seen = true;
                        proof {
                            assert(dv[j as int].res() == dv[i as int].res());
                        }
                    }
                    j += 1;
                }
                if !seen {
                    count = cap_add(count, 1);
                }
                proof {
                    assert(dv.take(i + 1).drop_last() =~= dv.take(i as int));
                    assert(dv.take(i + 1).last() == dv[i as int]);
                    assert((exists|q: int|
                        0 <= q < dv.take(i + 1).len() - 1 && #[trigger] dv.take(i + 1)[q].res()
                            == dv.take(i + 1).last().res()) == seen) by {
                        if seen {
                            let q = choose|q: int|
                                0 <= q < i && #[trigger] dv[q].res() == dv[i as int].res();
                            assert(dv.take(i + 1)[q].res() == dv.take(i + 1).last().res());
                        } else {
                            if exists|q: int|
                                0 <= q < dv.take(i + 1).len() - 1 && #[trigger] dv.take(
                                    i + 1,
                                )[q].res() == dv.take(i + 1).last().res() {
                                let q = choose|q: int|
                                    0 <= q < dv.take(i + 1).len() - 1 && #[trigger] dv.take(
                                        i + 1,
                                    )[q].res() == dv.take(i + 1).last().res();
                                assert(dv[q].res() == dv[i as int].res());
                            }
                        }
                    }
                    assert(count == capped(base + distinct_resource_count(dv.take(i + 1))));
                }
                i += 1;
            }
            proof {
                assert(dv.take(n as int) =~= dv);
            }
        }
        proof {
            assert(count == capped(req_n + req_t + off_t));
        }
        if let Some(v) = &a_nfts {
            let ghost dv = v.deep_view();
            let ghost base: int = count as int;
            let n = v.len();
            let mut i: usize = 0;
            while i < n
                invariant
                    i <= n,
                    n == v@.len(),
                    dv == v.deep_view(),
                    all_unique_batches(dv),
                    0 <= base <= 51,
                    count == capped(base + instance_count(dv.take(i as int))),
                decreases n - i,
            {
                let k: usize = match &v[i] {
                    Batch::NonFungible { ids, .. } => {
                        proof {
                            assert(dv[i as int] == v@[i as int]@);
                        }
                        ids.len()
                    }
                    Batch::Fungible { .. } => {
                        proof {
                            assert(dv[i as int] == v@[i as int]@);
                            assert(false);
                        }
                        0
                    }
                };
                count = cap_add(count, k);
                proof {
                    assert(dv.take(i + 1).drop_last() =~= dv.take(i as int));
                    assert(dv.take(i + 1).last() == dv[i as int]);
                    assert(count == capped(base + instance_count(dv.take(i + 1))));
                }
                i += 1;
            }
            proof {
                assert(dv.take(n as int) =~= dv);
            }
        }
        proof {
            assert(count == capped(req_n + req_t + off_t + off_n));
        }
        if count > 50 {
            return Err(TradeError::BatchLimitExceeded);
        }

        let b_nfts_unwrap: Vec<NftGlobalId> = match b_nft_deposits {
            Some(v) => v,
            None => Vec::new(),
        };
        let b_tokens_unwrap: FungibleMap = match b_token_deposits {
            Some(m) => m,
            None => FungibleMap::new(),
        };

        proof {
            lemma_put_all_concat(Seq::empty(), opt_batches(a_tokens), opt_batches(a_nfts));
        }
        let mut creator_vaults = Ledger::new();
        let mut category: Option<u64> = None;
        let mut a_token_record = FungibleMap::new();
        let mut a_nft_record: Vec<NftGlobalId> = Vec::new();

        if let Some(tok) = a_tokens {
            if tok.len() > 0 {
                category = Some(tok[0].resource());
            }
            a_token_record = build_offer_totals(&tok);
            creator_vaults.put_batches(tok);
        }
        proof {
            if a_tokens is None {
                assert(Seq::<BatchV>::empty() + opt_batches(a_nfts) =~= opt_batches(a_nfts));
            }
            assert(creator_vaults@ == put_all(Seq::empty(), opt_batches(a_tokens)));
        }
        if let Some(nf) = a_nfts {
            if nf.len() > 0 {
                category = Some(nf[0].resource());
            }
            a_nft_record = build_nft_record(&nf);
            creator_vaults.put_batches(nf);
        }
        proof {
            if a_nfts is None {
                assert(opt_batches(a_tokens) + Seq::<BatchV>::empty() =~= opt_batches(a_tokens));
            }
            assert(creator_vaults@ == put_all(
                Seq::empty(),
                opt_batches(a_tokens) + opt_batches(a_nfts),
            ));
        }

        let mut key_label = "TROVE Key: ".to_owned();
        key_label.append(custom_trade_name.as_str());

        let (private_flag, badge_partner, badge_partner_local, partner_key): (
            bool,
            Option<u64>,
            Option<u64>,
            Option<KeyToken>,
        ) = match partner {
            None => (false, None, None, None),
            Some(_account_address) => {
                let partner_data = make_receipt(
                    "This NFT's metadata contains details of the requested Swap on Trove",
                    component_address,
                    &a_nft_record,
                    &a_token_record,
                    &b_nfts_unwrap,
                    &b_tokens_unwrap,
                );
                let partner_badge = KeyToken {
                    resource: key_resource,
                    local: PARTNER_KEY_LOCAL,
                    label: key_label.clone(),
                    data: partner_data,
                };
                (true, Some(key_resource), Some(PARTNER_KEY_LOCAL), Some(partner_badge))
            }
        };

        let creator_data = make_receipt(
            "This NFT contains details of your Swap on Trove",
            component_address,
            &a_nft_record,
            &a_token_record,
            &b_nfts_unwrap,
            &b_tokens_unwrap,
        );
        let a_key = KeyToken {
            resource: key_resource,
            local: CREATOR_KEY_LOCAL,
            label: key_label,
            data: creator_data,
        };

        let barter = Barter {
            creator_vaults,
            a_vault_key: key_resource,
            a_vault_key_id: CREATOR_KEY_LOCAL,
            a_vault_key_global: NftGlobalId { resource: key_resource, local: CREATOR_KEY_LOCAL },
            partner_vaults: Ledger::new(),
            badge_partner,
            badge_partner_local,
            expected_nfts: b_nfts_unwrap,
            expected_tokens: b_tokens_unwrap,
            tokens_validated: false,
            nfts_validated: false,
            private: private_flag,
            swapped: false,
            category,
        };
        Ok((barter, a_key, partner_key))
    }

    /// Validate a presented credential against the recorded counterparty
    /// token identity.  Pure; no state changes.
    fn check_partner_badge(&self, b_badge: &Option<Credential>) -> (r: Result<(), TradeError>)
        requires
            self.wf(),
        ensures
            r == match self.auth_error(*b_badge) {
                Some(e) => Result::<(), TradeError>::Err(e),
                None => Result::<(), TradeError>::Ok(()),
            },
    {
        if self.private {
            match b_badge {
                None => Err(TradeError::CredentialRequired),
                Some(c) => {
                    let expected_resource = self.badge_partner.unwrap();
                    let expected_local = self.badge_partner_local.unwrap();
                    if c.resource != expected_resource || c.local != expected_local {
                        Err(TradeError::InvalidCredential)
                    } else {
                        Ok(())
                    }
                }
            }
        } else {
            Ok(())
        }
    }

    /// The recorded token identities: creator key resource, local id and
    /// global id, then the counterparty token's resource and local id when
    /// the proposal is private.
    pub fn get_badge(&mut self) -> (r: (u64, u64, NftGlobalId, Option<u64>, Option<u64>))
        ensures
            *final(self) == *old(self),
            r.0 == old(self).a_vault_key,
            r.1 == old(self).a_vault_key_id,
            r.2 == old(self).a_vault_key_global,
            r.3 == old(self).badge_partner,
            r.4 == old(self).badge_partner_local,
    {
        (
            self.a_vault_key,
            self.a_vault_key_id,
            self.a_vault_key_global,
            self.badge_partner,
            self.badge_partner_local,
        )
    }

    /// The rule the host's access layer enforces on the creator-restricted
    /// operations: the caller must prove the creator token's global identity.
    pub fn creator_access(&self, presented: Option<NftGlobalId>) -> (r: bool)
        ensures
            r == (presented == Some(self.a_vault_key_global)),
    {
        match presented {
            Some(g) => {
                g.resource == self.a_vault_key_global.resource && g.local
                    == self.a_vault_key_global.local
            }
            None => false,
        }
    }

    /// The counterparty deposits unique assets against the recorded
    /// expectation.  Validation is a subset test: every requested instance
    /// must be among the deposited ones; extra instances are accepted and
    /// kept in custody all the same.  On success everything moves into the
    /// counterparty-side ledger and `nfts_validated` is set.
    pub fn partner_deposit_nfts(&mut self, b_nft_assets: Vec<Batch>, b_badge: Option<Credential>)
        -> (r: Result<(), TradeError>)
        requires
            old(self).wf(),
            all_unique_batches(b_nft_assets.deep_view()),
            !old(self).swapped && old(self).auth_error(b_badge) is None && old(
                self,
            ).nft_deposit_matches(b_nft_assets.deep_view()) ==> can_put_all(
                old(self).partner_vaults@,
                b_nft_assets.deep_view(),
            ),
        ensures
            final(self).wf(),
            r is Ok <==> !old(self).swapped && old(self).auth_error(b_badge) is None && old(
                self,
            ).nft_deposit_matches(b_nft_assets.deep_view()),
            old(self).swapped ==> r == Result::<(), TradeError>::Err(TradeError::AlreadySettled),
            !old(self).swapped && old(self).auth_error(b_badge) is Some ==> r == Result::<
                (),
                TradeError,
            >::Err(old(self).auth_error(b_badge).unwrap()),
            !old(self).swapped && old(self).auth_error(b_badge) is None && !old(
                self,
            ).nft_deposit_matches(b_nft_assets.deep_view()) ==> r == Result::<(), TradeError>::Err(
                TradeError::DepositMismatch,
            ),
            r is Err ==> *final(self) == *old(self),
            r is Ok ==> {
                &&& final(self).partner_vaults@ == put_all(
                    old(self).partner_vaults@,
                    b_nft_assets.deep_view(),
                )
                &&& final(self).nfts_validated
                &&& final(self).creator_vaults == old(self).creator_vaults
                &&& final(self).tokens_validated == old(self).tokens_validated
                &&& final(self).swapped == old(self).swapped
                &&& same_trade_identity(*final(self), *old(self))
            },
    {
        if self.swapped {
            return Err(TradeError::AlreadySettled);
        }
        match self.check_partner_badge(&b_badge) {
            Err(e) => {
                return Err(e);
            }
            Ok(()) => {}
        }
        let nft_record = build_nft_record(&b_nft_assets);
        if !covers_all(&nft_record, &self.expected_nfts) {
            return Err(TradeError::DepositMismatch);
        }
        self.partner_vaults.put_batches(b_nft_assets);
        self.nfts_validated = true;
        Ok(())
    }

    /// The counterparty deposits fungible assets against the recorded
    /// expectation.  Validation is exact equality: the deposited per-resource
    /// totals — batches of one resource summed, as the custody container
    /// sums them — must equal the expectation; more, less, or a different
    /// set of resources is refused.  On success everything moves into the
    /// counterparty-side ledger and `tokens_validated` is set.
    pub fn partner_deposit_tokens(
        &mut self,
        b_token_assets: Vec<Batch>,
        b_badge: Option<Credential>,
    ) -> (r: Result<(), TradeError>)
        requires
            old(self).wf(),
            all_fungible_batches(b_token_assets.deep_view()),
            !old(self).swapped && old(self).auth_error(b_badge) is None && old(
                self,
            ).token_deposit_matches(b_token_assets.deep_view()) ==> can_put_all(
                old(self).partner_vaults@,
                b_token_assets.deep_view(),
            ),
        ensures
            final(self).wf(),
            r is Ok <==> !old(self).swapped && old(self).auth_error(b_badge) is None && old(
                self,
            ).token_deposit_matches(b_token_assets.deep_view()),
            old(self).swapped ==> r == Result::<(), TradeError>::Err(TradeError::AlreadySettled),
            !old(self).swapped && old(self).auth_error(b_badge) is Some ==> r == Result::<
                (),
                TradeError,
            >::Err(old(self).auth_error(b_badge).unwrap()),
            !old(self).swapped && old(self).auth_error(b_badge) is None && !old(
                self,
            ).token_deposit_matches(b_token_assets.deep_view()) ==> r == Result::<
                (),
                TradeError,
            >::Err(TradeError::DepositMismatch),
            r is Err ==> *final(self) == *old(self),
            r is Ok ==> {
                &&& final(self).partner_vaults@ == put_all(
                    old(self).partner_vaults@,
                    b_token_assets.deep_view(),
                )
                &&& final(self).tokens_validated
                &&& final(self).creator_vaults == old(self).creator_vaults
                &&& final(self).nfts_validated == old(self).nfts_validated
                &&& final(self).swapped == old(self).swapped
                &&& same_trade_identity(*final(self), *old(self))
            },
    {
        if self.swapped {
            return Err(TradeError::AlreadySettled);
        }
        match self.check_partner_badge(&b_badge) {
            Err(e) => {
                return Err(e);
            }
            Ok(()) => {}
        }
        if !token_totals_match(&b_token_assets, &self.expected_tokens) {
            return Err(TradeError::DepositMismatch);
        }
        self.partner_vaults.put_batches(b_token_assets);
        self.tokens_validated = true;
        Ok(())
    }

    /// The settlement claim: the counterparty, once its deposits validated
    /// every non-empty requested category, takes the creator's offered
    /// assets, and the proposal becomes terminally `swapped`.
    pub fn partner_claims_creator_assets(&mut self, b_badge: Option<Credential>) -> (r: Result<
        Vec<Batch>,
        TradeError,
    >)
        requires
            old(self).wf(),
        ensures
            final(self).wf(),
            r is Ok <==> !old(self).swapped && old(self).auth_error(b_badge) is None && !old(
                self,
            ).deposit_gap(),
            old(self).swapped ==> r == Result::<Vec<Batch>, TradeError>::Err(
                TradeError::AlreadySettled,
            ),
            !old(self).swapped && old(self).auth_error(b_badge) is Some ==> r == Result::<
                Vec<Batch>,
                TradeError,
            >::Err(old(self).auth_error(b_badge).unwrap()),
            !old(self).swapped && old(self).auth_error(b_badge) is None && old(self).deposit_gap()
                ==> r == Result::<Vec<Batch>, TradeError>::Err(TradeError::InsufficientDeposit),
            r is Err ==> *final(self) == *old(self),
            r matches Ok(taken) ==> {
                &&& taken.deep_view() == old(self).creator_vaults@
                &&& final(self).creator_vaults@ == emptied(old(self).creator_vaults@)
                &&& final(self).partner_vaults == old(self).partner_vaults
                &&& final(self).swapped
                &&& final(self).nfts_validated == old(self).nfts_validated
                &&& final(self).tokens_validated == old(self).tokens_validated
                &&& same_trade_identity(*final(self), *old(self))
            },
    {
        if self.swapped {
            return Err(TradeError::AlreadySettled);
        }
        match self.check_partner_badge(&b_badge) {
            Err(e) => {
                return Err(e);
            }
            Ok(()) => {}
        }
        if self.expected_nfts.len() > 0 && !self.nfts_validated {
            return Err(TradeError::InsufficientDeposit);
        }
        if self.expected_tokens.len() > 0 && !self.tokens_validated {
            return Err(TradeError::InsufficientDeposit);
        }
        let buckets = self.creator_vaults.take_all();
        self.swapped = true;
        Ok(buckets)
    }

    /// The counterparty walks away before settlement, recovering whatever it
    /// has deposited.  `swapped` is untouched: the proposal stays open.
    pub fn partner_cancel(&mut self, b_badge: Option<Credential>) -> (r: Result<
        Vec<Batch>,
        TradeError,
    >)
        requires
            old(self).wf(),
        ensures
            final(self).wf(),
            r is Ok <==> !old(self).swapped && old(self).auth_error(b_badge) is None,
            old(self).swapped ==> r == Result::<Vec<Batch>, TradeError>::Err(
                TradeError::AlreadySettled,
            ),
            !old(self).swapped && old(self).auth_error(b_badge) is Some ==> r == Result::<
                Vec<Batch>,
                TradeError,
            >::Err(old(self).auth_error(b_badge).unwrap()),
            r is Err ==> *final(self) == *old(self),
            r matches Ok(taken) ==> {
                &&& taken.deep_view() == old(self).partner_vaults@
                &&& final(self).partner_vaults@ == emptied(old(self).partner_vaults@)
                &&& final(self).creator_vaults == old(self).creator_vaults
                &&& final(self).swapped == old(self).swapped
                &&& final(self).nfts_validated == old(self).nfts_validated
                &&& final(self).tokens_validated == old(self).tokens_validated
                &&& same_trade_identity(*final(self), *old(self))
            },
    {
        if self.swapped {
            return Err(TradeError::AlreadySettled);
        }
        match self.check_partner_badge(&b_badge) {
            Err(e) => {
                return Err(e);
            }
            Ok(()) => {}
        }
        let buckets = self.partner_vaults.take_all();
        Ok(buckets)
    }

    /// The creator withdraws the offer and closes the proposal: every
    /// proposer-side container is drained and `swapped` becomes true, whether
    /// or not the counterparty has deposited anything.  The host restricts
    /// this to holders of the creator token (see [`Barter::creator_access`]).
    ///
    /// Deliberately kept behavior: outside one atomic execution unit, a
    /// counterparty deposit followed by this cancel leaves the deposit in
    /// custody while the counterparty can no longer claim anything in return.
    pub fn creator_cancel(&mut self) -> (r: Result<Vec<Batch>, TradeError>)
        requires
            old(self).wf(),
        ensures
            final(self).wf(),
            r is Ok <==> !old(self).swapped,
            old(self).swapped ==> r == Result::<Vec<Batch>, TradeError>::Err(
                TradeError::AlreadySettled,
            ),
            r is Err ==> *final(self) == *old(self),
            r matches Ok(taken) ==> {
                &&& taken.deep_view() == old(self).creator_vaults@
                &&& final(self).creator_vaults@ == emptied(old(self).creator_vaults@)
                &&& final(self).partner_vaults == old(self).partner_vaults
                &&& final(self).swapped
                &&& final(self).nfts_validated == old(self).nfts_validated
                &&& final(self).tokens_validated == old(self).tokens_validated
                &&& same_trade_identity(*final(self), *old(self))
            },
    {
        if self.swapped {
            return Err(TradeError::AlreadySettled);
        }
        self.swapped = true;
        let buckets = self.creator_vaults.take_all();
        Ok(buckets)
    }

    /// After settlement the creator collects what the counterparty
    /// deposited.  The host restricts this to holders of the creator token.
    pub fn creator_claims_partner_assets(&mut self) -> (r: Result<Vec<Batch>, TradeError>)
        requires
            old(self).wf(),
        ensures
            final(self).wf(),
            r is Ok <==> old(self).swapped,
            !old(self).swapped ==> r == Result::<Vec<Batch>, TradeError>::Err(
                TradeError::NotYetSettled,
            ),
            r is Err ==> *final(self) == *old(self),
            r matches Ok(taken) ==> {
                &&& taken.deep_view() == old(self).partner_vaults@
                &&& final(self).partner_vaults@ == emptied(old(self).partner_vaults@)
                &&& final(self).creator_vaults == old(self).creator_vaults
                &&& final(self).swapped == old(self).swapped
                &&& final(self).nfts_validated == old(self).nfts_validated
                &&& final(self).tokens_validated == old(self).tokens_validated
                &&& same_trade_identity(*final(self), *old(self))
            },
    {
        if !self.swapped {
            return Err(TradeError::NotYetSettled);
        }
        let buckets = self.partner_vaults.take_all();
        Ok(buckets)
    }

    /// Destroy the counterparty's capability token once it is redundant.
    /// Only a token carrying the recorded counterparty identity burns; any
    /// other comes back with the error.
    pub fn burn_partner_badge(&mut self, burn_token: KeyToken) -> (r: Result<
        (),
        (KeyToken, TradeError),
    >)
        requires
            old(self).wf(),
            old(self).private,
        ensures
            *final(self) == *old(self),
            r is Ok <==> burn_token.resource == old(self).badge_partner.unwrap()
                && burn_token.local == old(self).badge_partner_local.unwrap(),
            r matches Err(back) ==> back.0 == burn_token && back.1 == TradeError::InvalidCredential,
    {
        if burn_token.resource != self.badge_partner.unwrap() {
            return Err((burn_token, TradeError::InvalidCredential));
        }
        if burn_token.local != self.badge_partner_local.unwrap() {
            return Err((burn_token, TradeError::InvalidCredential));
        }
        Ok(())
    }

    /// Destroy the creator's capability token once it is redundant.  Only a
    /// token carrying the recorded creator identity burns.
    pub fn burn_creator_badge(&mut self, burn_token: KeyToken) -> (r: Result<
        (),
        (KeyToken, TradeError),
    >)
        requires
            old(self).wf(),
        ensures
            *final(self) == *old(self),
            r is Ok <==> burn_token.local == old(self).a_vault_key_id && burn_token.resource == old(
                self,
            ).a_vault_key,
            r matches Err(back) ==> back.0 == burn_token && back.1 == TradeError::InvalidCredential,
    {
        if burn_token.local != self.a_vault_key_id {
            return Err((burn_token, TradeError::InvalidCredential));
        }
        if burn_token.resource != self.a_vault_key {
            return Err((burn_token, TradeError::InvalidCredential));
        }
        Ok(())
    }
}

} // verus!
