//! The strategy that binds a client to a backend by a hash of its IP address.

use vstd::prelude::*;
use std::collections::hash_map::DefaultHasher;
use std::hash::Hasher;
use vstd::std_specs::hash::DefaultHasherAdditionalSpecFns;
use crate::http::{IpAddress, Request};
use crate::load_balancing::{Context, RequestForwarder};
use crate::load_balancing::random::forwarder_at;

verus! {

/// The eight bytes that tell the two kinds of address apart in the hash.
pub open spec fn kind_bytes(ip: IpAddress) -> Seq<u8> {
    match ip {
        IpAddress::V4(_) => seq![0u8, 0u8, 0u8, 0u8, 0u8, 0u8, 0u8, 0u8],
        IpAddress::V6(_) => seq![1u8, 0u8, 0u8, 0u8, 0u8, 0u8, 0u8, 0u8],
    }
}

/// The hash of an IP address: what the default hasher of the standard library
/// makes of the kind of the address followed by its octets.
pub open spec fn spec_hash_ip(ip: IpAddress) -> u64 {
    DefaultHasher::spec_finish(seq![kind_bytes(ip), ip.octets()])
}

/// Hashes an IP address.
pub fn hash_ip(ip: &IpAddress) -> (h: u64)
    ensures
        h == spec_hash_ip(*ip),
{
    let mut hasher = DefaultHasher::new();
    match ip {
        IpAddress::V4(octets) => {
            let kind: Vec<u8> = vec![0u8, 0u8, 0u8, 0u8, 0u8, 0u8, 0u8, 0u8];
            hasher.write(kind.as_slice());
            hasher.write(octets.as_slice());
        },
        IpAddress::V6(octets) => {
            let kind: Vec<u8> = vec![1u8, 0u8, 0u8, 0u8, 0u8, 0u8, 0u8, 0u8];
            hasher.write(kind.as_slice());
            hasher.write(octets.as_slice());
        },
    }
    assert(hasher@ =~= seq![kind_bytes(*ip), ip.octets()]);
    hasher.finish()
}

/// The index that a client with the address `ip` is bound to among `n`
/// backends.
pub open spec fn spec_ip_hash_index(ip: IpAddress, n: int) -> int {
    spec_hash_ip(ip) as int % n
}

#[derive(Debug)]
pub struct IPHash {}

impl IPHash {
    pub fn new() -> IPHash {
        IPHash {  }
    }

    /// Selects the healthy address whose index is the hash of the client's IP
    /// address modulo the number of healthy addresses. The port of the client
    /// plays no part.
    pub fn select_backend(&self, request: &Request, context: &Context) -> (f: RequestForwarder)
        requires
            context.backend_addresses.len() > 0,
        ensures
            0 <= spec_ip_hash_index(
                context.client_address.ip,
                context.backend_addresses.len() as int,
            ) < context.backend_addresses.len(),
            f.backend_address@ == context.addresses()[spec_ip_hash_index(
                context.client_address.ip,
                context.backend_addresses.len() as int,
            )],
            f.cookies() == Seq::<Seq<char>>::empty(),
    {
        let n = context.backend_addresses.len();
        let hash = hash_ip(&context.client_address.ip);
        let index = (hash % (n as u64)) as usize;
        forwarder_at(context, index)
    }
}

} // verus!
