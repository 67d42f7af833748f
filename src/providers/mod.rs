use vstd::prelude::*;

pub mod aws;
pub mod digitalocean;

use crate::args::strings_view;

verus! {

/// A source of node addresses. Querying the provider's API is the caller's
/// part: it hands back what the API returned as an [`Provider::Inventory`],
/// and the provider selects the addresses out of it.
pub trait Provider: Sized {
    /// What the provider's inventory API returned, as plain values.
    type Inventory;

    /// The addresses that `inventory` yields, in order.
    spec fn spec_addrs(&self, inventory: &Self::Inventory) -> Seq<Seq<char>>;

    /// The addresses that `inventory` yields, in order; duplicates are kept.
    fn addrs(&self, inventory: &Self::Inventory) -> (r: Vec<String>)
        ensures
            strings_view(r@) == self.spec_addrs(inventory),
    ;

    /// How to use this provider: its keys and the values they take.
    fn help() -> &'static str;
}

} // verus!
