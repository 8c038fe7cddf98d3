//! The strategy that picks any healthy backend with equal chance.

use vstd::prelude::*;
use rand::Rng;
use crate::http::Request;
use crate::load_balancing::{Context, RequestForwarder};

verus! {

/// Draws a number below `n` from the generator of the calling thread, with
/// `rand::Rng::gen_range`. Every number below `n` may come out.
#[verifier::external_body]
pub(crate) fn random_index(n: usize) -> (i: usize)
    requires
        n > 0,
    ensures
        i < n,
{
    rand::thread_rng().gen_range(0..n)
}

/// The forwarder to the address at `index` of the healthy addresses.
pub fn forwarder_at(context: &Context, index: usize) -> (f: RequestForwarder)
    requires
        index < context.backend_addresses.len(),
    ensures
        f.backend_address@ == context.addresses()[index as int],
        f.cookies() == Seq::<Seq<char>>::empty(),
{
    RequestForwarder::new(context.backend_addresses[index].as_str())
}

#[derive(Debug)]
pub struct Random {}

impl Random {
    pub fn new() -> Random {
        Random {  }
    }

    /// Picks one of the healthy addresses by chance.
    pub fn select_backend(&self, request: &Request, context: &Context) -> (f: RequestForwarder)
        requires
            context.backend_addresses.len() > 0,
        ensures
            context.addresses().contains(f.backend_address@),
            f.cookies() == Seq::<Seq<char>>::empty(),
    {
        let index = random_index(context.backend_addresses.len());
        forwarder_at(context, index)
    }
}

} // verus!
