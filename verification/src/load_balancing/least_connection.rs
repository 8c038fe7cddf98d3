//! The strategy that prefers the backend with the fewest open connections.

use vstd::prelude::*;
use crate::http::{Request, Uri};
use crate::load_balancing::{Context, RequestForwarder};
use crate::load_balancing::random::{forwarder_at, random_index};
use crate::text::same_text;

verus! {

/// How loaded a backend counts as: one that has never been connected to
/// counts as less loaded than any that has.
pub open spec fn load(count: Option<usize>) -> int {
    match count {
        Some(c) => c as int,
        None => -1,
    }
}

/// The number of open connections recorded for `address`.
pub open spec fn count_in(counts: Map<Seq<char>, usize>, address: Seq<char>) -> Option<usize> {
    if counts.dom().contains(address) {
        Some(counts[address])
    } else {
        None
    }
}

/// Whether no address of `addresses` is less loaded than the one at `i`.
pub open spec fn is_least_loaded(
    counts: Map<Seq<char>, usize>,
    addresses: Seq<Seq<char>>,
    i: int,
) -> bool {
    &&& 0 <= i < addresses.len()
    &&& forall|j: int|
        0 <= j < addresses.len() ==> load(count_in(counts, addresses[i])) <= load(
            count_in(counts, #[trigger] addresses[j]),
        )
}

/// One more connection; the count stops at the largest number it can hold.
pub open spec fn opened(count: Option<usize>) -> usize {
    match count {
        Some(c) => if c < usize::MAX {
            (c + 1) as usize
        } else {
            c
        },
        None => 1,
    }
}

/// One connection fewer; the count stops at zero.
pub open spec fn closed(count: Option<usize>) -> usize {
    match count {
        Some(c) => if c > 0 {
            (c - 1) as usize
        } else {
            0
        },
        None => 0,
    }
}

#[derive(Debug)]
pub struct LeastConnection {
    connections: Vec<(String, usize)>,
}

impl LeastConnection {
    /// No address is recorded twice.
    pub closed spec fn wf(&self) -> bool {
        forall|i: int, j: int|
            0 <= i < j < self.connections@.len() ==> self.connections@[i].0@
                != self.connections@[j].0@
    }

    /// The recorded number of open connections by address.
    pub closed spec fn counts(&self) -> Map<Seq<char>, usize> {
        Map::new(
            |a: Seq<char>|
                exists|i: int| 0 <= i < self.connections@.len() && self.connections@[i].0@ == a,
            |a: Seq<char>|
                self.connections@[choose|i: int|
                    0 <= i < self.connections@.len() && self.connections@[i].0@ == a].1,
        )
    }

    pub fn new() -> (s: LeastConnection)
        ensures
            s.wf(),
            s.counts() == Map::<Seq<char>, usize>::empty(),
    {
        let s = LeastConnection { connections: Vec::new() };
        assert(s.counts() =~= Map::<Seq<char>, usize>::empty());
        s
    }

    fn position(&self, address: &str) -> (r: Option<usize>)
        requires
            self.wf(),
        ensures
            match r {
                Some(i) => i < self.connections@.len() && self.connections@[i as int].0@
                    == address@ && self.counts().dom().contains(address@) && self.counts()[address@]
                    == self.connections@[i as int].1,
                None => !self.counts().dom().contains(address@) && forall|i: int|
                    0 <= i < self.connections@.len() ==> self.connections@[i].0@ != address@,
            },
    {
        let mut i: usize = 0;
        while i < self.connections.len()
            invariant
                self.wf(),
                0 <= i <= self.connections.len(),
                forall|k: int| 0 <= k < i ==> self.connections@[k].0@ != address@,
            decreases self.connections.len() - i,
        {
            if same_text(self.connections[i].0.as_str(), address) {
                proof {
                    let k = choose|k: int|
                        0 <= k < self.connections@.len() && self.connections@[k].0@ == address@;
                    assert(k == i);
                }
                return Some(i);
            }
            i += 1;
        }
        None
    }

    /// The number of open connections recorded for `address`.
    pub fn connection_count(&self, address: &str) -> (r: Option<usize>)
        requires
            self.wf(),
        ensures
            r == count_in(self.counts(), address@),
    {
        match self.position(address) {
            Some(i) => Some(self.connections[i].1),
            None => None,
        }
    }

    fn record(&mut self, address: &str, opening: bool)
        requires
            old(self).wf(),
        ensures
            final(self).wf(),
            final(self).counts() == old(self).counts().insert(
                address@,
                if opening {
                    opened(count_in(old(self).counts(), address@))
                } else {
                    closed(count_in(old(self).counts(), address@))
                },
            ),
    {
        let ghost before = self.connections@;
        let ghost target = old(self).counts().insert(
            address@,
            if opening {
                opened(count_in(old(self).counts(), address@))
            } else {
                closed(count_in(old(self).counts(), address@))
            },
        );
        match self.position(address) {
            Some(i) => {
                let count = self.connections[i].1;
                let next = if opening {
                    if count < usize::MAX {
                        count + 1
                    } else {
                        count
                    }
                } else {
                    if count > 0 {
                        count - 1
                    } else {
                        0
                    }
                };
                let name = self.connections[i].0.clone();
                self.connections.set(i, (name, next));
                assert(forall|k: int|
                    0 <= k < before.len() ==> #[trigger] self.connections@[k].0@ == before[k].0@);
                assert forall|a: Seq<char>| #[trigger]
                    self.counts().dom().contains(a) == target.dom().contains(a) by {
                    if self.counts().dom().contains(a) {
                        let k = choose|k: int|
                            0 <= k < self.connections@.len() && self.connections@[k].0@ == a;
                        assert(before[k].0@ == a);
                    }
                    if target.dom().contains(a) && a != address@ {
                        let k = choose|k: int| 0 <= k < before.len() && before[k].0@ == a;
                        assert(self.connections@[k].0@ == a);
                    }
                    if a == address@ {
                        assert(self.connections@[i as int].0@ == a);
                    }
                }
                assert forall|a: Seq<char>| #[trigger]
                    self.counts().dom().contains(a) implies self.counts()[a] == target[a] by {
                    let k = choose|k: int|
                        0 <= k < self.connections@.len() && self.connections@[k].0@ == a;
                    assert(before[k].0@ == a);
                    if a != address@ {
                        let k0 = choose|k: int| 0 <= k < before.len() && before[k].0@ == a;
                        assert(k0 == k);
                    } else {
                        assert(k == i);
                    }
                }
                assert(self.counts() =~= target);
            },
            None => {
                let next: usize = if opening {
                    1
                } else {
                    0
                };
                self.connections.push((address.to_owned(), next));
                assert(forall|k: int|
                    0 <= k < before.len() ==> #[trigger] self.connections@[k] == before[k]);
                assert(self.connections@[before.len() as int].0@ == address@);
                assert forall|a: Seq<char>| #[trigger]
                    self.counts().dom().contains(a) == target.dom().contains(a) by {
                    if self.counts().dom().contains(a) {
                        let k = choose|k: int|
                            0 <= k < self.connections@.len() && self.connections@[k].0@ == a;
                        if k < before.len() {
                            assert(before[k].0@ == a);
                        }
                    }
                    if target.dom().contains(a) && a != address@ {
                        let k = choose|k: int| 0 <= k < before.len() && before[k].0@ == a;
                        assert(self.connections@[k].0@ == a);
                    }
                }
                assert forall|a: Seq<char>| #[trigger]
                    self.counts().dom().contains(a) implies self.counts()[a] == target[a] by {
                    let k = choose|k: int|
                        0 <= k < self.connections@.len() && self.connections@[k].0@ == a;
                    if a != address@ {
                        assert(k < before.len());
                        let k0 = choose|k: int| 0 <= k < before.len() && before[k].0@ == a;
                        assert(before[k].0@ == a);
                        assert(k0 == k);
                    } else {
                        assert(k == before.len());
                    }
                }
                assert(self.counts() =~= target);
            },
        }
    }

    /// Records that a connection to the authority of `remote` was opened. A
    /// target without an authority is not recorded.
    pub fn on_tcp_open(&mut self, remote: &Uri)
        requires
            old(self).wf(),
        ensures
            final(self).wf(),
            match remote.authority {
                Some(a) => final(self).counts() == old(self).counts().insert(
                    a@,
                    opened(count_in(old(self).counts(), a@)),
                ),
                None => final(self).counts() == old(self).counts(),
            },
    {
        if let Some(authority) = &remote.authority {
            self.record(authority.as_str(), true);
        }
    }

    /// Records that a connection to the authority of `remote` was closed. The
    /// count never falls below zero, also where no opening was recorded.
    pub fn on_tcp_close(&mut self, remote: &Uri)
        requires
            old(self).wf(),
        ensures
            final(self).wf(),
            match remote.authority {
                Some(a) => final(self).counts() == old(self).counts().insert(
                    a@,
                    closed(count_in(old(self).counts(), a@)),
                ),
                None => final(self).counts() == old(self).counts(),
            },
    {
        if let Some(authority) = &remote.authority {
            self.record(authority.as_str(), false);
        }
    }

    /// The indices of the least loaded healthy addresses, in rising order.
    pub fn least_loaded(&self, context: &Context) -> (found: Vec<usize>)
        requires
            self.wf(),
        ensures
            forall|k: int|
                0 <= k < found@.len() ==> is_least_loaded(
                    self.counts(),
                    context.addresses(),
                    #[trigger] found@[k] as int,
                ),
            forall|i: int|
                is_least_loaded(self.counts(), context.addresses(), i) ==> found@.contains(
                    i as usize,
                ),
            forall|k: int, l: int| 0 <= k < l < found@.len() ==> found@[k] < found@[l],
            context.backend_addresses.len() > 0 ==> found@.len() > 0,
    {
        let n = context.backend_addresses.len();
        let ghost addresses = context.addresses();
        let ghost counts = self.counts();
        let mut loads: Vec<Option<usize>> = Vec::new();
        let mut i: usize = 0;
        while i < n
            invariant
                self.wf(),
                n == context.backend_addresses.len(),
                addresses == context.addresses(),
                counts == self.counts(),
                0 <= i <= n,
                loads@.len() == i,
                forall|k: int| 0 <= k < i ==> loads@[k] == count_in(counts, addresses[k]),
            decreases n - i,
        {
            let count = self.connection_count(context.backend_addresses[i].as_str());
            loads.push(count);
            i += 1;
        }
        let mut found: Vec<usize> = Vec::new();
        if n == 0 {
            return found;
        }
        let mut least: Option<usize> = loads[0];
        let mut i: usize = 1;
        while i < n
            invariant
                loads@.len() == n,
                1 <= i <= n,
                forall|k: int| 0 <= k < i ==> load(least) <= load(#[trigger] loads@[k]),
                exists|k: int| 0 <= k < i && loads@[k] == least,
            decreases n - i,
        {
            let smaller = match (loads[i], least) {
                (None, Some(_)) => true,
                (Some(a), Some(b)) => a < b,
                _ => false,
            };
            if smaller {
                least = loads[i];
            }
            i += 1;
        }
        let mut i: usize = 0;
        while i < n
            invariant
                n == addresses.len(),
                loads@.len() == n,
                0 <= i <= n,
                forall|k: int| 0 <= k < n ==> loads@[k] == count_in(counts, addresses[k]),
                forall|k: int| 0 <= k < n ==> load(least) <= load(#[trigger] loads@[k]),
                exists|k: int| 0 <= k < n && loads@[k] == least,
                forall|k: int|
                    0 <= k < found@.len() ==> #[trigger] found@[k] < i && loads@[found@[k] as int]
                        == least,
                forall|k: int|
                    0 <= k < i && loads@[k] == least ==> found@.contains(k as usize),
                forall|k: int, l: int| 0 <= k < l < found@.len() ==> found@[k] < found@[l],
            decreases n - i,
        {
            let same = match (loads[i], least) {
                (None, None) => true,
                (Some(a), Some(b)) => a == b,
                _ => false,
            };
            if same {
                let ghost before = found@;
                found.push(i);
                assert(found@[before.len() as int] == i);
                assert forall|k: int| 0 <= k <= i && loads@[k] == least implies found@.contains(
                    k as usize,
                ) by {
                    if k < i {
                        let w = choose|w: int| 0 <= w < before.len() && before[w] == k as usize;
                        assert(found@[w] == k as usize);
                    }
                }
            }
            i += 1;
        }
        proof {
            let w = choose|k: int| 0 <= k < n && loads@[k] == least;
            assert(found@.contains(w as usize));
            assert forall|k: int| 0 <= k < found@.len() implies is_least_loaded(
                counts,
                addresses,
                #[trigger] found@[k] as int,
            ) by {
                let at = found@[k] as int;
                assert forall|j: int| 0 <= j < addresses.len() implies load(
                    count_in(counts, addresses[at]),
                ) <= load(count_in(counts, #[trigger] addresses[j])) by {
                    assert(load(least) <= load(loads@[j]));
                }
            }
            assert forall|i: int| is_least_loaded(counts, addresses, i) implies found@.contains(
                i as usize,
            ) by {
                assert(load(count_in(counts, addresses[i])) <= load(
                    count_in(counts, addresses[w]),
                ));
                assert(load(least) <= load(loads@[i]));
                assert(loads@[i] == least);
            }
        }
        found
    }

    /// Selects one of the least loaded healthy addresses; among several, one
    /// by chance.
    pub fn select_backend(&self, request: &Request, context: &Context) -> (f: RequestForwarder)
        requires
            self.wf(),
            context.backend_addresses.len() > 0,
        ensures
            exists|i: int|
                is_least_loaded(self.counts(), context.addresses(), i) && f.backend_address@
                    == #[trigger] context.addresses()[i],
            f.cookies() == Seq::<Seq<char>>::empty(),
    {
        let address_indices = self.least_loaded(context);
        let pick = if address_indices.len() == 1 {
            0
        } else {
            random_index(address_indices.len())
        };
        let index = address_indices[pick];
        assert(is_least_loaded(self.counts(), context.addresses(), address_indices@[pick as int] as int));
        forwarder_at(context, index)
    }
}

} // verus!
