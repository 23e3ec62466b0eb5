//! The feature-map interface shared by the LAB and SURF maps: digest one
//! grayscale view, then answer window queries against the digested
//! planes.

use crate::common::ImageData;
use vstd::prelude::*;

verus! {

/// A feature map digests whole images; what a digest guarantees is the
/// implementor's `digested` relation.
pub trait FeatureMap: Sized {
    /// The views this map can digest.
    spec fn accepts(&self, image: &ImageData<'_>) -> bool;

    /// What holds of the map after digesting `image`.
    spec fn digested(pre: &Self, post: &Self, image: &ImageData<'_>) -> bool;

    fn compute(&mut self, image: &ImageData<'_>)
        requires
            old(self).accepts(image),
        ensures
            Self::digested(old(self), final(self), image),
    ;
}

} // verus!
