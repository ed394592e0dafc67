use crate::custody::{copy_u64s, Batch, BatchV};
use vstd::prelude::*;

verus! {

/// The local ids each sample collection is minted with.
pub open spec fn sample_ids() -> Seq<u64> {
    seq![1u64, 2u64, 3u64, 4u64]
}

/// A fixture generator: it mints small sample collections for exercising the
/// trade engine and records the identities of the first two so they can be
/// queried back.  The host allocates the three resource identities and
/// actually mints the instances; this component fixes what they are.
pub struct Bootstrap {
    pub nft1: u64,
    pub nft2: u64,
    pub nft1_ids: Vec<u64>,
    pub nft2_ids: Vec<u64>,
}

fn mint_sample_ids() -> (v: Vec<u64>)
    ensures
        v@ == sample_ids(),
{
    let mut v: Vec<u64> = Vec::new();
    v.push(1);
    v.push(2);
    v.push(3);
    v.push(4);
    proof {
        assert(v@ =~= sample_ids());
    }
    v
}

impl Bootstrap {
    /// Mint three sample collections of four instances each on the resource
    /// identities the host allocated, record the first two, and hand all
    /// three out as batches.
    pub fn bootstrap(cars_resource: u64, phones_resource: u64, laptops_resource: u64) -> (r: (
        Bootstrap,
        Vec<Batch>,
    ))
        ensures
            r.0.nft1 == cars_resource,
            r.0.nft2 == phones_resource,
            r.0.nft1_ids@ == sample_ids(),
            r.0.nft2_ids@ == sample_ids(),
            r.1.deep_view().len() == 3,
            r.1.deep_view()[0] == (BatchV::NonFungible {
                resource: cars_resource,
                ids: sample_ids(),
            }),
            r.1.deep_view()[1] == (BatchV::NonFungible {
                resource: phones_resource,
                ids: sample_ids(),
            }),
            r.1.deep_view()[2] == (BatchV::NonFungible {
                resource: laptops_resource,
                ids: sample_ids(),
            }),
    {
        let cars_ids = mint_sample_ids();
        let phones_ids = mint_sample_ids();
        let component = Bootstrap {
            nft1: cars_resource,
            nft2: phones_resource,
            nft1_ids: cars_ids,
            nft2_ids: phones_ids,
        };
        let mut buckets: Vec<Batch> = Vec::new();
        buckets.push(Batch::NonFungible { resource: cars_resource, ids: mint_sample_ids() });
        buckets.push(Batch::NonFungible { resource: phones_resource, ids: mint_sample_ids() });
        buckets.push(Batch::NonFungible { resource: laptops_resource, ids: mint_sample_ids() });
        (component, buckets)
    }

    /// The first recorded collection: its resource and the ids minted in it.
    pub fn local_ids_1(&mut self) -> (r: (u64, Vec<u64>))
        ensures
            *final(self) == *old(self),
            r.0 == old(self).nft1,
            r.1@ == old(self).nft1_ids@,
    {
        let ids = copy_u64s(&self.nft1_ids);
        (self.nft1, ids)
    }

    /// The second recorded collection: its resource and the ids minted in it.
    pub fn local_ids_2(&mut self) -> (r: (u64, Vec<u64>))
        ensures
            *final(self) == *old(self),
            r.0 == old(self).nft2,
            r.1@ == old(self).nft2_ids@,
    {
        let ids = copy_u64s(&self.nft2_ids);
        (self.nft2, ids)
    }
}

} // verus!
