use vstd::multiset::Multiset;
use vstd::prelude::*;

verus! {

/// One unique asset instance: the resource (collection) it belongs to and its
/// local id inside that collection.  Identifiers are opaque to the engine; it
/// only ever compares them.
#[derive(Clone, Copy, Debug, PartialEq, Eq, Structural)]
pub struct NftGlobalId {
    pub resource: u64,
    pub local: u64,
}

/// What a presented authorization proof attests: that the caller holds the
/// unique instance `local` of the credential resource `resource`.
#[derive(Clone, Copy, Debug)]
pub struct Credential {
    pub resource: u64,
    pub local: u64,
}

/// A batch of assets of one resource in transit between a holder and the
/// engine's custody.  A batch value stands for custody of its contents, so it
/// is deliberately not `Clone`: it moves, as the assets it carries do.
pub enum Batch {
    /// `amount` interchangeable units of the fungible resource `resource`.
    Fungible { resource: u64, amount: u64 },
    /// The individually identified instances `ids` of the collection `resource`.
    NonFungible { resource: u64, ids: Vec<u64> },
}

/// The mathematical shape of a batch or of a custody container.
pub enum BatchV {
    Fungible { resource: u64, amount: u64 },
    NonFungible { resource: u64, ids: Seq<u64> },
}

impl View for Batch {
    type V = BatchV;

    open spec fn view(&self) -> BatchV {
        match self {
            Batch::Fungible { resource, amount } => BatchV::Fungible {
                resource: *resource,
                amount: *amount,
            },
            Batch::NonFungible { resource, ids } => BatchV::NonFungible {
                resource: *resource,
                ids: ids@,
            },
        }
    }
}

impl DeepView for Batch {
    type V = BatchV;

    open spec fn deep_view(&self) -> BatchV {
        self@
    }
}

impl BatchV {
    /// The resource an abstract batch belongs to.
    pub open spec fn res(self) -> u64 {
        match self {
            BatchV::Fungible { resource, .. } => resource,
            BatchV::NonFungible { resource, .. } => resource,
        }
    }

    pub open spec fn is_fungible(self) -> bool {
        self is Fungible
    }

    /// The fungible amount; meaningful only for `Fungible` batches.
    pub open spec fn fungible_amount(self) -> u64 {
        match self {
            BatchV::Fungible { amount, .. } => amount,
            BatchV::NonFungible { .. } => 0,
        }
    }

    /// The unique instance ids; meaningful only for `NonFungible` batches.
    pub open spec fn nft_ids(self) -> Seq<u64> {
        match self {
            BatchV::Fungible { .. } => Seq::empty(),
            BatchV::NonFungible { ids, .. } => ids,
        }
    }
}

impl Batch {
    /// The resource this batch belongs to.
    pub fn resource(&self) -> (r: u64)
        ensures
            r == self@.res(),
    {
        match self {
            Batch::Fungible { resource, .. } => *resource,
            Batch::NonFungible { resource, .. } => *resource,
        }
    }
}

/// The unique-instance identifiers carried by one batch, as global ids.
pub open spec fn globals_of(b: BatchV) -> Seq<NftGlobalId> {
    b.nft_ids().map_values(|l: u64| NftGlobalId { resource: b.res(), local: l })
}

/// The unique-instance identifiers a list of batches or containers carries,
/// in order.
pub open spec fn nft_record_of(bs: Seq<BatchV>) -> Seq<NftGlobalId>
    decreases bs.len(),
{
    if bs.len() == 0 {
        Seq::empty()
    } else {
        globals_of(bs[0]) + nft_record_of(bs.skip(1))
    }
}

/// Each resource appears in at most one container of a ledger half.
pub open spec fn distinct_resources(s: Seq<BatchV>) -> bool {
    forall|i: int, j: int| 0 <= i < j < s.len() ==> s[i].res() != s[j].res()
}

/// Whether some container of `s` holds the resource `r`.
pub open spec fn holds_resource(s: Seq<BatchV>, r: u64) -> bool {
    exists|i: int| 0 <= i < s.len() && s[i].res() == r
}

/// The index of the first container of `s` holding the resource `r`.
pub open spec fn resource_index(s: Seq<BatchV>, r: u64) -> int
    decreases s.len(),
{
    if s.len() == 0 {
        0
    } else if s[0].res() == r {
        0
    } else {
        1 + resource_index(s.skip(1), r)
    }
}

pub proof fn lemma_resource_index(s: Seq<BatchV>, r: u64)
    requires
        holds_resource(s, r),
    ensures
        0 <= resource_index(s, r) < s.len(),
        s[resource_index(s, r)].res() == r,
        forall|j: int| 0 <= j < resource_index(s, r) ==> s[j].res() != r,
    decreases s.len(),
{
    if s.len() == 0 {
    } else if s[0].res() == r {
    } else {
        let t = s.skip(1);
        assert(holds_resource(t, r)) by {
            let i = choose|i: int| 0 <= i < s.len() && s[i].res() == r;
            assert(t[i - 1].res() == r);
        }
        lemma_resource_index(t, r);
        assert forall|j: int| 0 <= j < resource_index(s, r) implies s[j].res() != r by {
            if j > 0 {
                assert(s[j] == t[j - 1]);
            }
        }
    }
}

/// Under `distinct_resources`, any container holding `r` is the first one.
pub proof fn lemma_resource_index_unique(s: Seq<BatchV>, r: u64, i: int)
    requires
        distinct_resources(s),
        0 <= i < s.len(),
        s[i].res() == r,
    ensures
        resource_index(s, r) == i,
{
    assert(holds_resource(s, r));
    lemma_resource_index(s, r);
}

/// A deposited batch merged into the container that already holds its
/// resource.  Defined only up to `can_merge`.
pub open spec fn merged(c: BatchV, b: BatchV) -> BatchV {
    match (c, b) {
        (
            BatchV::Fungible { resource, amount: held },
            BatchV::Fungible { amount: put, .. },
        ) => BatchV::Fungible { resource, amount: (held + put) as u64 },
        (
            BatchV::NonFungible { resource, ids: held },
            BatchV::NonFungible { ids: put, .. },
        ) => BatchV::NonFungible { resource, ids: held + put },
        (other, _) => other,
    }
}

/// A container can absorb a batch: the two are of the same kind (one resource
/// names either a fungible or a unique-instance asset, never both) and a
/// fungible total still fits the machine word.
pub open spec fn can_merge(c: BatchV, b: BatchV) -> bool {
    match (c, b) {
        (BatchV::Fungible { amount: held, .. }, BatchV::Fungible { amount: put, .. }) => held
            + put <= u64::MAX,
        (BatchV::NonFungible { .. }, BatchV::NonFungible { .. }) => true,
        _ => false,
    }
}

/// A ledger half after one batch is deposited: merged into the container of
/// its resource, or appended as a fresh container.
pub open spec fn put_one(s: Seq<BatchV>, b: BatchV) -> Seq<BatchV> {
    if holds_resource(s, b.res()) {
        let i = resource_index(s, b.res());
        s.update(i, merged(s[i], b))
    } else {
        s.push(b)
    }
}

pub open spec fn can_put_one(s: Seq<BatchV>, b: BatchV) -> bool {
    holds_resource(s, b.res()) ==> can_merge(s[resource_index(s, b.res())], b)
}

/// A ledger half after a list of batches is deposited in order.
pub open spec fn put_all(s: Seq<BatchV>, bs: Seq<BatchV>) -> Seq<BatchV>
    decreases bs.len(),
{
    if bs.len() == 0 {
        s
    } else {
        put_all(put_one(s, bs[0]), bs.skip(1))
    }
}

pub open spec fn can_put_all(s: Seq<BatchV>, bs: Seq<BatchV>) -> bool
    decreases bs.len(),
{
    bs.len() == 0 || (can_put_one(s, bs[0]) && can_put_all(put_one(s, bs[0]), bs.skip(1)))
}

/// The container of `b`'s resource, drained.
pub open spec fn empty_of(b: BatchV) -> BatchV {
    match b {
        BatchV::Fungible { resource, .. } => BatchV::Fungible { resource, amount: 0 },
        BatchV::NonFungible { resource, .. } => BatchV::NonFungible {
            resource,
            ids: Seq::empty(),
        },
    }
}

/// A ledger half after a take-all: every container drained, none destroyed.
pub open spec fn emptied(s: Seq<BatchV>) -> Seq<BatchV> {
    s.map_values(|b: BatchV| empty_of(b))
}

pub proof fn lemma_emptied_distinct(s: Seq<BatchV>)
    requires
        distinct_resources(s),
    ensures
        distinct_resources(emptied(s)),
{
    assert forall|i: int, j: int| 0 <= i < j < emptied(s).len() implies emptied(s)[i].res()
        != emptied(s)[j].res() by {
        assert(emptied(s)[i].res() == s[i].res());
        assert(emptied(s)[j].res() == s[j].res());
    }
}

pub proof fn lemma_put_one_preserves_distinct(s: Seq<BatchV>, b: BatchV)
    requires
        distinct_resources(s),
    ensures
        distinct_resources(put_one(s, b)),
        put_one(s, b).len() >= s.len(),
        forall|r: u64| #[trigger] holds_resource(put_one(s, b), r) <==> holds_resource(s, r)
            || r == b.res(),
{
    let t = put_one(s, b);
    if holds_resource(s, b.res()) {
        lemma_resource_index(s, b.res());
        let i = resource_index(s, b.res());
        assert(t[i].res() == b.res());
        assert(forall|j: int| 0 <= j < s.len() && j != i ==> t[j] == s[j]);
        assert forall|r: u64| #[trigger] holds_resource(t, r) implies holds_resource(s, r)
            || r == b.res() by {
            let k = choose|k: int| 0 <= k < t.len() && t[k].res() == r;
            assert(s[k].res() == t[k].res() || k == i);
        }
        assert forall|r: u64| holds_resource(s, r) implies #[trigger] holds_resource(t, r) by {
            let k = choose|k: int| 0 <= k < s.len() && s[k].res() == r;
            assert(t[k].res() == s[k].res());
        }
    } else {
        assert(forall|j: int| 0 <= j < s.len() ==> t[j] == s[j]);
        assert(t[s.len() as int] == b);
        assert forall|i: int, j: int| 0 <= i < j < t.len() implies t[i].res() != t[j].res() by {
            if j == s.len() {
                assert(t[i].res() == s[i].res());
                if t[i].res() == b.res() {
                    assert(holds_resource(s, b.res()));
                }
            }
        }
        assert forall|r: u64| #[trigger] holds_resource(t, r) implies holds_resource(s, r)
            || r == b.res() by {
            let k = choose|k: int| 0 <= k < t.len() && t[k].res() == r;
            if k < s.len() {
                assert(s[k].res() == r);
            }
        }
        assert forall|r: u64| holds_resource(s, r) implies #[trigger] holds_resource(t, r) by {
            let k = choose|k: int| 0 <= k < s.len() && s[k].res() == r;
            assert(t[k].res() == r);
        }
        assert(holds_resource(t, b.res())) by {
            assert(t[s.len() as int].res() == b.res());
        }
    }
}

/// Depositing a concatenation is depositing the two lists one after the
/// other.
pub proof fn lemma_put_all_concat(s: Seq<BatchV>, xs: Seq<BatchV>, ys: Seq<BatchV>)
    ensures
        put_all(s, xs + ys) == put_all(put_all(s, xs), ys),
        can_put_all(s, xs + ys) == (can_put_all(s, xs) && can_put_all(put_all(s, xs), ys)),
    decreases xs.len(),
{
    if xs.len() == 0 {
        assert(xs + ys =~= ys);
    } else {
        assert((xs + ys)[0] == xs[0]);
        assert((xs + ys).skip(1) =~= xs.skip(1) + ys);
        lemma_put_all_concat(put_one(s, xs[0]), xs.skip(1), ys);
    }
}

/// The amount a ledger half holds of the resource `r`.
pub open spec fn held_amount(s: Seq<BatchV>, r: u64) -> int {
    if holds_resource(s, r) {
        s[resource_index(s, r)].fungible_amount() as int
    } else {
        0
    }
}

/// The amount a batch list deposits of the resource `r`.
pub open spec fn deposited_amount(bs: Seq<BatchV>, r: u64) -> int
    decreases bs.len(),
{
    if bs.len() == 0 {
        0
    } else {
        (if bs[0].res() == r && bs[0].is_fungible() {
            bs[0].fungible_amount() as int
        } else {
            0
        }) + deposited_amount(bs.skip(1), r)
    }
}

/// A deposit never removes amounts: every term of the sum is non-negative.
pub proof fn lemma_deposited_amount_nonneg(bs: Seq<BatchV>, r: u64)
    ensures
        0 <= deposited_amount(bs, r),
    decreases bs.len(),
{
    if bs.len() > 0 {
        lemma_deposited_amount_nonneg(bs.skip(1), r);
    }
}

/// The amount a concatenated batch list deposits is the sum of its parts'.
pub proof fn lemma_deposited_amount_concat(xs: Seq<BatchV>, ys: Seq<BatchV>, r: u64)
    ensures
        deposited_amount(xs + ys, r) == deposited_amount(xs, r) + deposited_amount(ys, r),
    decreases xs.len(),
{
    if xs.len() == 0 {
        assert(xs + ys =~= ys);
    } else {
        assert((xs + ys)[0] == xs[0]);
        assert((xs + ys).skip(1) =~= xs.skip(1) + ys);
        lemma_deposited_amount_concat(xs.skip(1), ys, r);
    }
}

/// A ledger half's record splits around any one container.
proof fn lemma_nft_record_split(s: Seq<BatchV>, i: int)
    requires
        0 <= i < s.len(),
    ensures
        nft_record_of(s) =~= nft_record_of(s.take(i)) + globals_of(s[i]) + nft_record_of(
            s.skip(i + 1),
        ),
    decreases i,
{
    if i == 0 {
        assert(s.take(0) =~= Seq::<BatchV>::empty());
        assert(s.skip(1) == s.skip(0int + 1));
    } else {
        let t = s.skip(1);
        lemma_nft_record_split(t, i - 1);
        assert(t.take(i - 1) =~= s.take(i).skip(1));
        assert(s.take(i)[0] == s[0]);
        assert(t[i - 1] == s[i]);
        assert(t.skip(i) =~= s.skip(i + 1));
        assert(nft_record_of(s.take(i)) == globals_of(s[0]) + nft_record_of(t.take(i - 1)));
    }
}

/// Merging a batch into the container of its resource concatenates their
/// instance ids.
proof fn lemma_globals_merged(c: BatchV, b: BatchV)
    requires
        can_merge(c, b),
        c.res() == b.res(),
    ensures
        globals_of(merged(c, b)) =~= globals_of(c) + globals_of(b),
{
}

/// Conservation of unique instances under one deposit: afterwards the ledger
/// half holds exactly the instances it held before together with those of
/// the batch — none created, none destroyed, none duplicated.
pub proof fn lemma_put_one_conserves_instances(s: Seq<BatchV>, b: BatchV)
    requires
        distinct_resources(s),
        can_put_one(s, b),
    ensures
        nft_record_of(put_one(s, b)).to_multiset() =~= nft_record_of(s).to_multiset().add(
            globals_of(b).to_multiset(),
        ),
{
    broadcast use vstd::seq_lib::lemma_multiset_commutative;

    let t = put_one(s, b);
    if holds_resource(s, b.res()) {
        lemma_resource_index(s, b.res());
        let i = resource_index(s, b.res());
        lemma_nft_record_split(s, i);
        lemma_nft_record_split(t, i);
        assert(t.take(i) =~= s.take(i));
        assert(t.skip(i + 1) =~= s.skip(i + 1));
        lemma_globals_merged(s[i], b);
        let front = nft_record_of(s.take(i));
        let back = nft_record_of(s.skip(i + 1));
        let mid = globals_of(s[i]);
        let put = globals_of(b);
        assert(nft_record_of(t) =~= front + (mid + put) + back);
        assert((front + (mid + put) + back).to_multiset() =~= ((front + mid) + (put
            + back)).to_multiset()) by {
            assert(front + (mid + put) + back =~= (front + mid) + (put + back));
        }
        assert(nft_record_of(s).to_multiset() =~= (front + mid).to_multiset().add(
            back.to_multiset(),
        )) by {
            assert(nft_record_of(s) =~= (front + mid) + back);
        }
    } else {
        assert(t =~= s.push(b));
        lemma_nft_record_split(t, s.len() as int);
        assert(t.take(s.len() as int) =~= s);
        assert(t.skip(s.len() as int + 1) =~= Seq::<BatchV>::empty());
        assert(nft_record_of(t) =~= nft_record_of(s) + globals_of(b) + Seq::<NftGlobalId>::empty());
        assert(nft_record_of(t) =~= nft_record_of(s) + globals_of(b));
    }
}

/// Conservation of unique instances under a whole deposit list.
pub proof fn lemma_put_all_conserves_instances(s: Seq<BatchV>, bs: Seq<BatchV>)
    requires
        distinct_resources(s),
        can_put_all(s, bs),
    ensures
        nft_record_of(put_all(s, bs)).to_multiset() =~= nft_record_of(s).to_multiset().add(
            nft_record_of(bs).to_multiset(),
        ),
    decreases bs.len(),
{
    broadcast use vstd::seq_lib::lemma_multiset_commutative;
    broadcast use vstd::seq_lib::group_to_multiset_ensures;
    broadcast use vstd::multiset::group_multiset_axioms;

    if bs.len() == 0 {
        assert(nft_record_of(bs).to_multiset() =~= Multiset::<NftGlobalId>::empty());
    } else {
        lemma_put_one_conserves_instances(s, bs[0]);
        lemma_put_one_preserves_distinct(s, bs[0]);
        lemma_put_all_conserves_instances(put_one(s, bs[0]), bs.skip(1));
        let held = nft_record_of(s).to_multiset();
        let first = globals_of(bs[0]).to_multiset();
        let rest = nft_record_of(bs.skip(1)).to_multiset();
        assert(nft_record_of(put_one(s, bs[0])).to_multiset() == held.add(first));
        assert(nft_record_of(put_all(s, bs)).to_multiset() =~= held.add(first).add(rest));
        assert(nft_record_of(bs) =~= globals_of(bs[0]) + nft_record_of(bs.skip(1)));
        assert(nft_record_of(bs).to_multiset() =~= first.add(rest));
        assert(held.add(first).add(rest) =~= held.add(first.add(rest)));
    }
}

/// Conservation of fungible amounts under one deposit: for every resource,
/// the held amount grows by exactly what the batch brought.
pub proof fn lemma_put_one_conserves_amounts(s: Seq<BatchV>, b: BatchV, r: u64)
    requires
        distinct_resources(s),
        can_put_one(s, b),
    ensures
        held_amount(put_one(s, b), r) == held_amount(s, r) + (if b.res() == r && b.is_fungible() {
            b.fungible_amount() as int
        } else {
            0
        }),
{
    lemma_put_one_preserves_distinct(s, b);
    let t = put_one(s, b);
    if holds_resource(s, b.res()) {
        lemma_resource_index(s, b.res());
        let i = resource_index(s, b.res());
        if holds_resource(s, r) {
            lemma_resource_index(s, r);
            let k = resource_index(s, r);
            assert(t[k].res() == r);
            lemma_resource_index_unique(t, r, k);
        } else {
            assert(!holds_resource(t, r));
        }
    } else {
        if holds_resource(s, r) {
            lemma_resource_index(s, r);
            let k = resource_index(s, r);
            assert(t[k] == s[k]);
            lemma_resource_index_unique(t, r, k);
        } else if b.res() == r {
            lemma_resource_index_unique(t, r, s.len() as int);
        } else {
            assert(!holds_resource(t, r));
        }
    }
}

/// Conservation of fungible amounts under a whole deposit list.
pub proof fn lemma_put_all_conserves_amounts(s: Seq<BatchV>, bs: Seq<BatchV>, r: u64)
    requires
        distinct_resources(s),
        can_put_all(s, bs),
    ensures
        held_amount(put_all(s, bs), r) == held_amount(s, r) + deposited_amount(bs, r),
    decreases bs.len(),
{
    if bs.len() > 0 {
        lemma_put_one_conserves_amounts(s, bs[0], r);
        lemma_put_one_preserves_distinct(s, bs[0]);
        lemma_put_all_conserves_amounts(put_one(s, bs[0]), bs.skip(1), r);
    }
}

/// A drained ledger half holds nothing: no instances and no amounts.
pub proof fn lemma_emptied_holds_nothing(s: Seq<BatchV>, r: u64)
    ensures
        nft_record_of(emptied(s)) =~= Seq::<NftGlobalId>::empty(),
        held_amount(emptied(s), r) == 0,
    decreases s.len(),
{
    let e = emptied(s);
    if s.len() > 0 {
        lemma_emptied_holds_nothing(s.skip(1), r);
        assert(e.skip(1) =~= emptied(s.skip(1)));
        assert(globals_of(e[0]) =~= Seq::<NftGlobalId>::empty());
        assert(nft_record_of(e) =~= globals_of(e[0]) + nft_record_of(e.skip(1)));
    }
    if holds_resource(e, r) {
        lemma_resource_index(e, r);
        assert(e[resource_index(e, r)].fungible_amount() == 0);
    }
}

/// A drained copy of a container: same resource, no contents.  Copying it
/// duplicates no assets.
fn empty_like(b: &Batch) -> (e: Batch)
    ensures
        e@ == empty_of(b@),
{
    match b {
        Batch::Fungible { resource, .. } => Batch::Fungible { resource: *resource, amount: 0 },
        Batch::NonFungible { resource, .. } => Batch::NonFungible {
            resource: *resource,
            ids: Vec::new(),
        },
    }
}

fn merge_batches(c: Batch, b: Batch) -> (m: Batch)
    requires
        can_merge(c@, b@),
    ensures
        m@ == merged(c@, b@),
{
    match (c, b) {
        (Batch::Fungible { resource, amount }, Batch::Fungible { amount: put, .. }) => {
            Batch::Fungible { resource, amount: amount + put }
        }
        (Batch::NonFungible { resource, mut ids }, Batch::NonFungible { ids: mut put, .. }) => {
            ids.append(&mut put);
            Batch::NonFungible { resource, ids }
        }
        (other, _) => {
            proof {
                assert(false);
            }
            other
        }
    }
}

pub(crate) fn copy_u64s(v: &Vec<u64>) -> (r: Vec<u64>)
    ensures
        r@ == v@,
{
    let n = v.len();
    let mut r: Vec<u64> = Vec::new();
    let mut i: usize = 0;
    while i < n
        invariant
            i <= n,
            n == v@.len(),
            r@ == v@.take(i as int),
        decreases n - i,
    {
        r.push(v[i]);
        proof {
            assert(r@ =~= v@.take(i + 1));
        }
        i += 1;
    }
    proof {
        assert(r@ =~= v@);
    }
    r
}

/// A scratch copy of a batch, used only to pre-check a deposit against a
/// ledger; it is dropped afterwards and never enters custody.
fn copy_batch(b: &Batch) -> (r: Batch)
    ensures
        r@ == b@,
{
    match b {
        Batch::Fungible { resource, amount } => Batch::Fungible {
            resource: *resource,
            amount: *amount,
        },
        Batch::NonFungible { resource, ids } => Batch::NonFungible {
            resource: *resource,
            ids: copy_u64s(ids),
        },
    }
}

fn copy_batches(v: &Vec<Batch>) -> (r: Vec<Batch>)
    ensures
        r.deep_view() == v.deep_view(),
{
    let n = v.len();
    let mut r: Vec<Batch> = Vec::new();
    let mut i: usize = 0;
    while i < n
        invariant
            i <= n,
            n == v@.len(),
            r.deep_view().len() == i,
            forall|j: int| 0 <= j < i ==> r.deep_view()[j] == v.deep_view()[j],
        decreases n - i,
    {
        let ghost prev = r.deep_view();
        let b = copy_batch(&v[i]);
        r.push(b);
        proof {
            assert forall|j: int| 0 <= j < i + 1 implies r.deep_view()[j] == v.deep_view()[j] by {
                if j < i {
                    assert(r.deep_view()[j] == prev[j]);
                } else {
                    assert(r.deep_view()[j] == b@);
                    assert(v.deep_view()[j] == v@[j]@);
                }
            }
        }
        i += 1;
    }
    proof {
        assert(r.deep_view() =~= v.deep_view());
    }
    r
}

/// The index of the first container of `v` holding the resource `r`, if any.
fn find_resource(v: &Vec<Batch>, r: u64) -> (o: Option<usize>)
    ensures
        match o {
            Some(i) => i < v.deep_view().len() && v.deep_view()[i as int].res() == r
                && forall|j: int| 0 <= j < i ==> v.deep_view()[j].res() != r,
            None => !holds_resource(v.deep_view(), r),
        },
{
    let n = v.len();
    let mut i: usize = 0;
    while i < n
        invariant
            i <= n,
            n == v.len(),
            forall|j: int| 0 <= j < i ==> v.deep_view()[j].res() != r,
        decreases n - i,
    {
        if v[i].resource() == r {
            return Some(i);
        }
        i += 1;
    }
    proof {
        assert forall|k: int| 0 <= k < v.deep_view().len() implies v.deep_view()[k].res() != r by {
            assert(v.deep_view()[k].res() != r);
        }
    }
    None
}

/// One half of the custody ledger: at most one container per resource, each
/// container holding the units or instances of that one resource.  Containers
/// are created lazily on first deposit and drained, never destroyed, by a
/// take-all.
pub struct Ledger {
    pub batches: Vec<Batch>,
}

impl View for Ledger {
    type V = Seq<BatchV>;

    open spec fn view(&self) -> Seq<BatchV> {
        self.batches.deep_view()
    }
}

impl Ledger {
    pub open spec fn wf(self) -> bool {
        distinct_resources(self@)
    }

    pub fn new() -> (r: Ledger)
        ensures
            r@ == Seq::<BatchV>::empty(),
            r.wf(),
    {
        Ledger { batches: Vec::new() }
    }

    /// Deposit one batch: merge it into the container of its resource, or
    /// open a fresh container for it.  Nothing else moves.
    pub fn put(&mut self, b: Batch)
        requires
            old(self).wf(),
            can_put_one(old(self)@, b@),
        ensures
            final(self)@ == put_one(old(self)@, b@),
            final(self).wf(),
    {
        proof {
            lemma_put_one_preserves_distinct(old(self)@, b@);
        }
        let r = b.resource();
        match find_resource(&self.batches, r) {
            Some(i) => {
                proof {
                    assert(holds_resource(old(self)@, b@.res()));
                    lemma_resource_index_unique(old(self)@, b@.res(), i as int);
                }
                let c = self.batches.remove(i);
                let m = merge_batches(c, b);
                self.batches.insert(i, m);
                proof {
                    assert(self@ =~= put_one(old(self)@, b@));
                }
            }
            None => {
                self.batches.push(b);
                proof {
                    assert(self@ =~= put_one(old(self)@, b@));
                }
            }
        }
    }

    /// Deposit a list of batches in order.
    pub fn put_batches(&mut self, bs: Vec<Batch>)
        requires
            old(self).wf(),
            can_put_all(old(self)@, bs.deep_view()),
        ensures
            final(self)@ == put_all(old(self)@, bs.deep_view()),
            final(self).wf(),
    {
        let ghost all = bs.deep_view();
        let mut rest = bs;
        while rest.len() > 0
            invariant
                self.wf(),
                can_put_all(self@, rest.deep_view()),
                put_all(self@, rest.deep_view()) == put_all(old(self)@, all),
            decreases rest.len(),
        {
            let ghost before = rest.deep_view();
            let b = rest.remove(0);
            proof {
                assert(rest.deep_view() =~= before.skip(1));
                assert(b@ == before[0]);
            }
            self.put(b);
        }
    }

    /// Whether this ledger half can absorb `bs`, batch by batch: each batch
    /// meets a container of its own kind (or a fresh one) and no fungible
    /// total overflows the machine word.  An executable pre-check for the
    /// deposit operations' preconditions; a host holding real assets
    /// satisfies it by construction, since there one resource has one kind
    /// and one bounded supply.
    pub fn accepts(&self, bs: &Vec<Batch>) -> (r: bool)
        requires
            self.wf(),
        ensures
            r == can_put_all(self@, bs.deep_view()),
    {
        let ghost dv = bs.deep_view();
        let mut scratch = Ledger { batches: copy_batches(&self.batches) };
        proof {
            assert(dv.skip(0) =~= dv);
        }
        let n = bs.len();
        let mut i: usize = 0;
        while i < n
            invariant
                i <= n,
                n == bs@.len(),
                dv == bs.deep_view(),
                scratch.wf(),
                can_put_all(self@, dv) == can_put_all(scratch@, dv.skip(i as int)),
            decreases n - i,
        {
            let b = &bs[i];
            proof {
                assert(dv[i as int] == bs@[i as int]@);
            }
            let b_resource = b.resource();
            let compat: bool = match find_resource(&scratch.batches, b_resource) {
                None => true,
                Some(j) => {
                    proof {
                        assert(holds_resource(scratch@, b_resource));
                        lemma_resource_index_unique(scratch@, b_resource, j as int);
                    }
                    match (&scratch.batches[j], b) {
                        (
                            Batch::Fungible { amount: held, .. },
                            Batch::Fungible { amount: put, .. },
                        ) => held.checked_add(*put).is_some(),
                        (Batch::NonFungible { .. }, Batch::NonFungible { .. }) => true,
                        _ => false,
                    }
                }
            };
            proof {
                assert(compat == can_put_one(scratch@, dv[i as int]));
                assert(dv.skip(i as int)[0] == dv[i as int]);
            }
            if !compat {
                proof {
                    assert(!can_put_all(scratch@, dv.skip(i as int)));
                }
                return false;
            }
            scratch.put(copy_batch(b));
            proof {
                assert(dv.skip(i as int).skip(1) =~= dv.skip(i + 1));
            }
            i += 1;
        }
        proof {
            assert(dv.skip(n as int) =~= Seq::<BatchV>::empty());
        }
        true
    }

    /// Take everything: every container is handed out with its full contents
    /// and stays behind drained.
    pub fn take_all(&mut self) -> (taken: Vec<Batch>)
        requires
            old(self).wf(),
        ensures
            taken.deep_view() == old(self)@,
            final(self)@ == emptied(old(self)@),
            final(self).wf(),
    {
        let n = self.batches.len();
        let mut empties: Vec<Batch> = Vec::new();
        let mut i: usize = 0;
        while i < n
            invariant
                i <= n,
                n == self.batches.len(),
                self.batches == old(self).batches,
                empties.deep_view().len() == i,
                forall|j: int| 0 <= j < i ==> empties.deep_view()[j] == empty_of(old(self)@[j]),
            decreases n - i,
        {
            let ghost prev = empties.deep_view();
            let e = empty_like(&self.batches[i]);
            empties.push(e);
            proof {
                assert forall|j: int| 0 <= j < i + 1 implies empties.deep_view()[j] == empty_of(
                    old(self)@[j],
                ) by {
                    if j < i {
                        assert(empties.deep_view()[j] == prev[j]);
                    } else {
                        assert(empties.deep_view()[j] == e@);
                    }
                }
            }
            i += 1;
        }
        proof {
            assert(empties.deep_view() =~= emptied(old(self)@));
            lemma_emptied_distinct(old(self)@);
        }
        core::mem::swap(&mut self.batches, &mut empties);
        empties
    }
}

} // verus!
