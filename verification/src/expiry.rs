use vstd::prelude::*;
use std::cmp::Ordering;
use vstd::std_specs::cmp::{PartialEqSpecImpl, PartialOrdSpecImpl};
use crate::redblack::SortKey;

verus! {

/// Something that expires at a time, in milliseconds; resources compare by that time alone.
#[derive(Debug)]
pub struct ExpiryResource<T> {
    pub expiration: u64,
    pub data: Option<T>,
}

impl<T> SortKey for ExpiryResource<T> {
    open spec fn key_spec(&self) -> u64 {
        self.expiration
    }

    fn sort_key(&self) -> (k: u64) {
        self.expiration
    }
}

impl<T> PartialEq for ExpiryResource<T> {
    fn eq(&self, other: &Self) -> (r: bool) {
        self.expiration == other.expiration
    }
}

impl<T> PartialEqSpecImpl for ExpiryResource<T> {
    open spec fn obeys_eq_spec() -> bool {
        true
    }

    open spec fn eq_spec(&self, other: &Self) -> bool {
        self.expiration == other.expiration
    }
}

impl<T> Eq for ExpiryResource<T> {

}

impl<T> PartialOrd for ExpiryResource<T> {
    fn partial_cmp(&self, other: &Self) -> (r: Option<Ordering>) {
        if self.expiration < other.expiration {
            Some(Ordering::Less)
        } else if self.expiration == other.expiration {
            Some(Ordering::Equal)
        } else {
            Some(Ordering::Greater)
        }
    }
}

impl<T> PartialOrdSpecImpl for ExpiryResource<T> {
    open spec fn obeys_partial_cmp_spec() -> bool {
        true
    }

    open spec fn partial_cmp_spec(&self, other: &Self) -> Option<Ordering> {
        if self.expiration < other.expiration {
            Some(Ordering::Less)
        } else if self.expiration == other.expiration {
            Some(Ordering::Equal)
        } else {
            Some(Ordering::Greater)
        }
    }
}

} // verus!
