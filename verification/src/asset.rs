//! Assets as the pool sees them: an identifier, and a bucket that holds an
//! amount of one asset.

use vstd::prelude::*;
use crate::fixed::Fixed;

verus! {

/// The identifier of an asset: the 30 bytes of a resource address.
#[derive(Clone, Copy, Debug, PartialEq, Eq)]
pub struct ResourceId {
    pub bytes: [u8; 30],
}

impl View for ResourceId {
    type V = Seq<u8>;

    open spec fn view(&self) -> Seq<u8> {
        self.bytes@
    }
}

impl ResourceId {
    /// Whether two identifiers name the same asset.
    pub fn same(&self, other: &ResourceId) -> (r: bool)
        ensures
            r == (self@ == other@),
    {
        let mut i: usize = 0;
        while i < 30
            invariant
                i <= 30,
                forall|j: int| 0 <= j < i ==> self.bytes@[j] == other.bytes@[j],
            decreases 30 - i,
        {
            if self.bytes[i] != other.bytes[i] {
                return false;
            }
            i += 1;
        }
        proof {
            assert(self.bytes@ =~= other.bytes@);
        }
        true
    }
}

/// What a bucket is in contracts: the asset it holds and how much of it.
pub struct BucketView {
    pub resource: Seq<u8>,
    pub amount: int,
}

/// An amount of one asset, on its way into the pool or out of it.
#[derive(Clone, Copy, Debug, PartialEq, Eq)]
pub struct Bucket {
    pub resource: ResourceId,
    pub amount: Fixed,
}

impl View for Bucket {
    type V = BucketView;

    open spec fn view(&self) -> BucketView {
        BucketView { resource: self.resource@, amount: self.amount@ }
    }
}

impl Bucket {
    /// A bucket that holds `amount` of the asset `resource`.
    pub fn new(resource: ResourceId, amount: Fixed) -> (r: Bucket)
        ensures
            r@ == (BucketView { resource: resource@, amount: amount@ }),
    {
        Bucket { resource, amount }
    }

    /// Whether the bucket holds nothing.
    pub fn is_empty(&self) -> (r: bool)
        ensures
            r == (self@.amount == 0),
    {
        self.amount.is_zero()
    }
}

} // verus!
