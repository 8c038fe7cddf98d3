//! A limit on the number of requests that one client may send within a
//! window of time.

use vstd::prelude::*;
use linked_hash_map::LinkedHashMap;
use crate::http::{ClientAddress, IpAddress};

verus! {

/// What stands for a client address in the table: the kind of its IP
/// address, the address as a number and the port.
pub type ClientKey = (u8, u128, u16);

/// What the table keeps for a client: how many requests it has sent within
/// the window, and when the last of them came, in milliseconds.
pub type Visit = (u64, u64);

/// `linked_hash_map::LinkedHashMap`, a hash map that keeps its entries in
/// the order in which they were written last. What a table holds is known
/// through [`held`] alone.
#[verifier::external_type_specification]
#[verifier::external_body]
#[verifier::reject_recursive_types(K)]
#[verifier::reject_recursive_types(V)]
#[verifier::reject_recursive_types(S)]
pub struct ExLinkedHashMap<K, V, S>(LinkedHashMap<K, V, S>);

/// The entries of a table from the front, where the entry stands that was
/// written longest ago, to the back.
pub uninterp spec fn held(table: LinkedHashMap<ClientKey, Visit>) -> Seq<(ClientKey, Visit)>;

/// `entries` without those of the key `key`.
pub open spec fn without_key(entries: Seq<(ClientKey, Visit)>, key: ClientKey) -> Seq<
    (ClientKey, Visit),
>
    decreases entries.len(),
{
    if entries.len() == 0 {
        Seq::empty()
    } else if entries.last().0 == key {
        without_key(entries.drop_last(), key)
    } else {
        without_key(entries.drop_last(), key).push(entries.last())
    }
}

/// `LinkedHashMap::new` gives an empty table.
#[verifier::external_body]
fn table_new() -> (table: LinkedHashMap<ClientKey, Visit>)
    ensures
        held(table) == Seq::<(ClientKey, Visit)>::empty(),
{
    LinkedHashMap::new()
}

/// `LinkedHashMap::front` shows the entry at the front, if there is any.
#[verifier::external_body]
fn table_front(table: &LinkedHashMap<ClientKey, Visit>) -> (r: Option<(ClientKey, Visit)>)
    ensures
        match r {
            Some(entry) => held(*table).len() > 0 && held(*table)[0] == entry,
            None => held(*table).len() == 0,
        },
{
    table.front().map(|(k, v)| (*k, *v))
}

/// `LinkedHashMap::pop_front` takes the entry at the front out, if there is
/// any, and leaves the others as they stand.
#[verifier::external_body]
fn table_pop_front(table: &mut LinkedHashMap<ClientKey, Visit>) -> (r: Option<(ClientKey, Visit)>)
    ensures
        match r {
            Some(entry) => held(*old(table)).len() > 0 && held(*old(table))[0] == entry && held(
                *final(table),
            ) == held(*old(table)).drop_first(),
            None => held(*old(table)).len() == 0 && held(*final(table)) == held(*old(table)),
        },
{
    table.pop_front()
}

/// `LinkedHashMap::back` shows the entry at the back, if there is any.
#[verifier::external_body]
fn table_back(table: &LinkedHashMap<ClientKey, Visit>) -> (r: Option<(ClientKey, Visit)>)
    ensures
        match r {
            Some(entry) => held(*table).len() > 0 && held(*table).last() == entry,
            None => held(*table).len() == 0,
        },
{
    table.back().map(|(k, v)| (*k, *v))
}

/// `LinkedHashMap::get` finds the value that the key `key` has in the table.
#[verifier::external_body]
fn table_get(table: &LinkedHashMap<ClientKey, Visit>, key: ClientKey) -> (r: Option<Visit>)
    ensures
        match r {
            Some(visit) => held(*table).contains((key, visit)),
            None => forall|i: int| 0 <= i < held(*table).len() ==> held(*table)[i].0 != key,
        },
{
    table.get(&key).copied()
}

/// `LinkedHashMap::insert` writes the value of a key. The entry goes to the
/// back of the table, also where the key had a value before; the entries of
/// the other keys keep their order.
#[verifier::external_body]
fn table_insert(table: &mut LinkedHashMap<ClientKey, Visit>, key: ClientKey, visit: Visit)
    ensures
        held(*final(table)) == without_key(held(*old(table)), key).push((key, visit)),
{
    table.insert(key, visit);
}

/// The number that four octets stand for, the first weighing most.
pub open spec fn number_of_four(a: int, b: int, c: int, d: int) -> int {
    a * 16777216 + b * 65536 + c * 256 + d
}

/// The number that the octets of an IP address stand for, the first octet
/// weighing most.
pub open spec fn ip_number(ip: IpAddress) -> int {
    match ip {
        IpAddress::V4(o) => number_of_four(o[0] as int, o[1] as int, o[2] as int, o[3] as int),
        IpAddress::V6(o) => {
            let first = number_of_four(o[0] as int, o[1] as int, o[2] as int, o[3] as int);
            let second = number_of_four(o[4] as int, o[5] as int, o[6] as int, o[7] as int);
            let third = number_of_four(o[8] as int, o[9] as int, o[10] as int, o[11] as int);
            let fourth = number_of_four(o[12] as int, o[13] as int, o[14] as int, o[15] as int);
            first * 0x1_0000_0000_0000_0000_0000_0000 + second * 0x1_0000_0000_0000_0000 + third
                * 0x1_0000_0000 + fourth
        },
    }
}

/// The key of a client address.
pub open spec fn spec_key(address: ClientAddress) -> ClientKey {
    (
        match address.ip {
            IpAddress::V4(_) => 4u8,
            IpAddress::V6(_) => 6u8,
        },
        ip_number(address.ip) as u128,
        address.port,
    )
}

fn four(a: u8, b: u8, c: u8, d: u8) -> (n: u128)
    ensures
        n == number_of_four(a as int, b as int, c as int, d as int),
        n < 0x1_0000_0000,
{
    (a as u128) * 16777216 + (b as u128) * 65536 + (c as u128) * 256 + (d as u128)
}

/// Computes the key of a client address.
pub fn client_key(address: &ClientAddress) -> (key: ClientKey)
    ensures
        key == spec_key(*address),
{
    match &address.ip {
        IpAddress::V4(o) => (4u8, four(o[0], o[1], o[2], o[3]), address.port),
        IpAddress::V6(o) => {
            let first = four(o[0], o[1], o[2], o[3]);
            let second = four(o[4], o[5], o[6], o[7]);
            let third = four(o[8], o[9], o[10], o[11]);
            let fourth = four(o[12], o[13], o[14], o[15]);
            let n = first * 0x1_0000_0000_0000_0000_0000_0000 + second * 0x1_0000_0000_0000_0000
                + third * 0x1_0000_0000 + fourth;
            (6u8, n, address.port)
        },
    }
}

/// Two numbers written with digits below `base` are equal only where their
/// digits are.
proof fn lemma_two_digits(base: int, high1: int, low1: int, high2: int, low2: int)
    requires
        base > 0,
        0 <= low1 < base,
        0 <= low2 < base,
        high1 * base + low1 == high2 * base + low2,
    ensures
        high1 == high2,
        low1 == low2,
{
    assert((high1 - high2) * base == low2 - low1) by (nonlinear_arith)
        requires
            high1 * base + low1 == high2 * base + low2,
    ;
    assert(high1 == high2) by (nonlinear_arith)
        requires
            (high1 - high2) * base == low2 - low1,
            -base < low2 - low1 < base,
            base > 0,
    ;
}

proof fn lemma_four_octets(a: u8, b: u8, c: u8, d: u8, e: u8, f: u8, g: u8, h: u8)
    requires
        number_of_four(a as int, b as int, c as int, d as int) == number_of_four(
            e as int,
            f as int,
            g as int,
            h as int,
        ),
    ensures
        a == e,
        b == f,
        c == g,
        d == h,
{
    lemma_two_digits(256, a * 65536 + b * 256 + c, d as int, e * 65536 + f * 256 + g, h as int);
    lemma_two_digits(256, a * 256 + b, c as int, e * 256 + f, g as int);
    lemma_two_digits(256, a as int, b as int, e as int, f as int);
}

/// Two client addresses have the same key only where they are the same
/// address.
pub proof fn lemma_key_tells_addresses_apart(a: ClientAddress, b: ClientAddress)
    requires
        spec_key(a) == spec_key(b),
    ensures
        a.port == b.port,
        a.ip.octets() == b.ip.octets(),
        a.ip is V4 == b.ip is V4,
{
    match (a.ip, b.ip) {
        (IpAddress::V4(o), IpAddress::V4(p)) => {
            lemma_four_octets(o[0], o[1], o[2], o[3], p[0], p[1], p[2], p[3]);
        },
        (IpAddress::V6(o), IpAddress::V6(p)) => {
            let o1 = number_of_four(o[0] as int, o[1] as int, o[2] as int, o[3] as int);
            let o2 = number_of_four(o[4] as int, o[5] as int, o[6] as int, o[7] as int);
            let o3 = number_of_four(o[8] as int, o[9] as int, o[10] as int, o[11] as int);
            let o4 = number_of_four(o[12] as int, o[13] as int, o[14] as int, o[15] as int);
            let p1 = number_of_four(p[0] as int, p[1] as int, p[2] as int, p[3] as int);
            let p2 = number_of_four(p[4] as int, p[5] as int, p[6] as int, p[7] as int);
            let p3 = number_of_four(p[8] as int, p[9] as int, p[10] as int, p[11] as int);
            let p4 = number_of_four(p[12] as int, p[13] as int, p[14] as int, p[15] as int);
            assert(ip_number(a.ip) == ip_number(b.ip));
            lemma_two_digits(
                0x1_0000_0000,
                o1 * 0x1_0000_0000_0000_0000 + o2 * 0x1_0000_0000 + o3,
                o4,
                p1 * 0x1_0000_0000_0000_0000 + p2 * 0x1_0000_0000 + p3,
                p4,
            );
            lemma_two_digits(
                0x1_0000_0000,
                o1 * 0x1_0000_0000 + o2,
                o3,
                p1 * 0x1_0000_0000 + p2,
                p3,
            );
            lemma_two_digits(0x1_0000_0000, o1, o2, p1, p2);
            lemma_four_octets(o[0], o[1], o[2], o[3], p[0], p[1], p[2], p[3]);
            lemma_four_octets(o[4], o[5], o[6], o[7], p[4], p[5], p[6], p[7]);
            lemma_four_octets(o[8], o[9], o[10], o[11], p[8], p[9], p[10], p[11]);
            lemma_four_octets(o[12], o[13], o[14], o[15], p[12], p[13], p[14], p[15]);
        },
        _ => {},
    }
    assert(a.ip.octets() =~= b.ip.octets());
}

/// Whether a visit at the time `seen` lies a whole window or more before
/// `now`. Times count milliseconds, the window seconds.
pub open spec fn expired(seen: u64, now: u64, window_sec: u64) -> bool {
    now >= seen && (now - seen) / 1000 >= window_sec
}

/// How many entries at the front of `entries` have expired.
pub open spec fn stale_prefix(entries: Seq<(ClientKey, Visit)>, now: u64, window_sec: u64) -> nat
    decreases entries.len(),
{
    if entries.len() > 0 && expired(entries[0].1.1, now, window_sec) {
        1 + stale_prefix(entries.drop_first(), now, window_sec)
    } else {
        0
    }
}

/// The number of requests recorded for `key`.
pub open spec fn count_for(entries: Seq<(ClientKey, Visit)>, key: ClientKey) -> Option<u64>
    decreases entries.len(),
{
    if entries.len() == 0 {
        None
    } else if entries.last().0 == key {
        Some(entries.last().1.0)
    } else {
        count_for(entries.drop_last(), key)
    }
}

/// One more request; the count stops at the largest number it can hold.
pub open spec fn next_count(count: Option<u64>) -> u64 {
    match count {
        Some(c) => if c < u64::MAX {
            (c + 1) as u64
        } else {
            c
        },
        None => 1,
    }
}

/// The entries that are left once the expired ones at the front are dropped.
pub open spec fn live(entries: Seq<(ClientKey, Visit)>, now: u64, window_sec: u64) -> Seq<
    (ClientKey, Visit),
> {
    entries.subrange(stale_prefix(entries, now, window_sec) as int, entries.len() as int)
}

/// The number of requests that the client `key` has sent within the window
/// once its request at the time `now` is counted.
pub open spec fn count_with_request(
    entries: Seq<(ClientKey, Visit)>,
    key: ClientKey,
    now: u64,
    window_sec: u64,
) -> u64 {
    next_count(count_for(live(entries, now, window_sec), key))
}

/// The table after a request of the client `key` at the time `now`.
pub open spec fn after_request(
    entries: Seq<(ClientKey, Visit)>,
    key: ClientKey,
    now: u64,
    window_sec: u64,
) -> Seq<(ClientKey, Visit)> {
    without_key(live(entries, now, window_sec), key).push(
        (key, (count_with_request(entries, key, now, window_sec), now)),
    )
}

/// No key occurs twice.
pub open spec fn keys_unique(entries: Seq<(ClientKey, Visit)>) -> bool {
    forall|i: int, j: int| 0 <= i < j < entries.len() ==> entries[i].0 != entries[j].0
}

/// The entries stand in the order of their times, oldest first.
pub open spec fn oldest_first(entries: Seq<(ClientKey, Visit)>) -> bool {
    forall|i: int, j: int| 0 <= i < j < entries.len() ==> entries[i].1.1 <= entries[j].1.1
}

/// No entry is younger than `now`.
pub open spec fn none_after(entries: Seq<(ClientKey, Visit)>, now: u64) -> bool {
    forall|i: int| 0 <= i < entries.len() ==> entries[i].1.1 <= now
}

/// Where the entries stand oldest first, dropping the expired entries at the
/// front drops every expired entry: none of those that are left has expired.
pub proof fn lemma_prefix_drop_is_complete(
    entries: Seq<(ClientKey, Visit)>,
    now: u64,
    window_sec: u64,
)
    requires
        oldest_first(entries),
        none_after(entries, now),
    ensures
        stale_prefix(entries, now, window_sec) <= entries.len(),
        forall|i: int|
            0 <= i < stale_prefix(entries, now, window_sec) ==> expired(
                #[trigger] entries[i].1.1,
                now,
                window_sec,
            ),
        forall|i: int|
            stale_prefix(entries, now, window_sec) <= i < entries.len() ==> !expired(
                #[trigger] entries[i].1.1,
                now,
                window_sec,
            ),
    decreases entries.len(),
{
    if entries.len() > 0 && expired(entries[0].1.1, now, window_sec) {
        let rest = entries.drop_first();
        assert(oldest_first(rest)) by {
            assert forall|i: int, j: int| 0 <= i < j < rest.len() implies rest[i].1.1
                <= rest[j].1.1 by {
                assert(rest[i] == entries[i + 1] && rest[j] == entries[j + 1]);
            }
        }
        assert(none_after(rest, now)) by {
            assert forall|i: int| 0 <= i < rest.len() implies rest[i].1.1 <= now by {
                assert(rest[i] == entries[i + 1]);
            }
        }
        lemma_prefix_drop_is_complete(rest, now, window_sec);
        assert forall|i: int| 0 <= i < stale_prefix(entries, now, window_sec) implies expired(
            #[trigger] entries[i].1.1,
            now,
            window_sec,
        ) by {
            if i > 0 {
                assert(entries[i] == rest[i - 1]);
            }
        }
        assert forall|i: int|
            stale_prefix(entries, now, window_sec) <= i < entries.len() implies !expired(
            #[trigger] entries[i].1.1,
            now,
            window_sec,
        ) by {
            assert(entries[i] == rest[i - 1]);
        }
    } else if entries.len() > 0 {
        assert forall|i: int| 0 <= i < entries.len() implies !expired(
            #[trigger] entries[i].1.1,
            now,
            window_sec,
        ) by {
            assert(entries[0].1.1 <= entries[i].1.1);
            assert((now - entries[i].1.1) / 1000 <= (now - entries[0].1.1) / 1000);
        }
    }
}

/// What `without_key` keeps: entries of other keys, each of which stood in
/// `entries`, in the order in which they stood there.
proof fn lemma_without_key(entries: Seq<(ClientKey, Visit)>, key: ClientKey)
    ensures
        forall|i: int|
            0 <= i < without_key(entries, key).len() ==> (#[trigger] without_key(
                entries,
                key,
            )[i]).0 != key && entries.contains(without_key(entries, key)[i]),
        keys_unique(entries) ==> keys_unique(without_key(entries, key)),
        oldest_first(entries) ==> oldest_first(without_key(entries, key)),
    decreases entries.len(),
{
    if entries.len() > 0 {
        let front = entries.drop_last();
        let kept = without_key(front, key);
        lemma_without_key(front, key);
        assert forall|i: int| 0 <= i < kept.len() implies entries.contains(#[trigger] kept[i]) by {
            let w = choose|w: int| 0 <= w < front.len() && front[w] == kept[i];
            assert(entries[w] == kept[i]);
        }
        if keys_unique(entries) {
            assert(keys_unique(front));
            if entries.last().0 != key {
                let all = kept.push(entries.last());
                assert forall|i: int, j: int| 0 <= i < j < all.len() implies all[i].0
                    != all[j].0 by {
                    if j == kept.len() {
                        let w = choose|w: int| 0 <= w < front.len() && front[w] == kept[i];
                        assert(entries[w].0 != entries[entries.len() - 1].0);
                    }
                }
            }
        }
        if oldest_first(entries) {
            assert(oldest_first(front));
            if entries.last().0 != key {
                let all = kept.push(entries.last());
                assert forall|i: int, j: int| 0 <= i < j < all.len() implies all[i].1.1
                    <= all[j].1.1 by {
                    if j == kept.len() {
                        let w = choose|w: int| 0 <= w < front.len() && front[w] == kept[i];
                        assert(entries[w].1.1 <= entries[entries.len() - 1].1.1);
                    }
                }
            }
        }
    }
}

/// With unique keys, the entry that holds `key` tells its count.
proof fn lemma_count_for(entries: Seq<(ClientKey, Visit)>, key: ClientKey)
    requires
        keys_unique(entries),
    ensures
        forall|visit: Visit| #[trigger]
            entries.contains((key, visit)) ==> count_for(entries, key) == Some(visit.0),
        (forall|i: int| 0 <= i < entries.len() ==> entries[i].0 != key) ==> count_for(
            entries,
            key,
        ) is None,
    decreases entries.len(),
{
    if entries.len() > 0 {
        let front = entries.drop_last();
        assert(keys_unique(front));
        lemma_count_for(front, key);
        assert forall|visit: Visit| #[trigger] entries.contains((key, visit)) implies count_for(
            entries,
            key,
        ) == Some(visit.0) by {
            let w = choose|w: int| 0 <= w < entries.len() && entries[w] == (key, visit);
            if entries.last().0 == key {
                assert(entries[entries.len() - 1].0 == key);
                assert(w == entries.len() - 1);
            } else {
                assert(front[w] == (key, visit));
                assert(front.contains((key, visit)));
            }
        }
        if forall|i: int| 0 <= i < entries.len() ==> entries[i].0 != key {
            assert(forall|i: int| 0 <= i < front.len() ==> front[i] == entries[i]);
        }
    }
}

#[derive(Debug)]
pub struct RateLimiter {
    connections: LinkedHashMap<ClientKey, Visit>,
    limit: u64,
    window_sec: u64,
}

impl RateLimiter {
    /// The number of requests that a client may send within one window.
    pub closed spec fn limit(&self) -> u64 {
        self.limit
    }

    /// The length of the window in seconds.
    pub closed spec fn window(&self) -> u64 {
        self.window_sec
    }

    /// The visits on record, oldest first.
    pub closed spec fn entries(&self) -> Seq<(ClientKey, Visit)> {
        held(self.connections)
    }

    /// No client is recorded twice, and the records stand oldest first.
    pub open spec fn wf(&self) -> bool {
        keys_unique(self.entries()) && oldest_first(self.entries())
    }

    pub fn new(limit: u64, window_sec: u64) -> (r: RateLimiter)
        ensures
            r.wf(),
            r.entries() == Seq::<(ClientKey, Visit)>::empty(),
            r.limit() == limit,
            r.window() == window_sec,
    {
        RateLimiter { connections: table_new(), limit, window_sec }
    }

    /// Whether no visit on record is younger than `now`: the clock has not gone
    /// back since the last request was counted.
    pub fn accepts_time(&self, now: u64) -> (r: bool)
        requires
            self.wf(),
        ensures
            r == none_after(self.entries(), now),
    {
        match table_back(&self.connections) {
            Some((_, (_, seen))) => {
                assert(seen <= now ==> none_after(self.entries(), now)) by {
                    assert(forall|i: int|
                        0 <= i < self.entries().len() ==> (#[trigger] self.entries()[i]).1.1
                            <= self.entries()[self.entries().len() - 1].1.1);
                }
                seen <= now
            },
            None => true,
        }
    }

    /// Counts a request of the client `client` at the time `now`, in
    /// milliseconds, and tells whether it is within the limit.
    ///
    /// The visits that lie a window or more back are dropped from the front of
    /// the table; then the visit of the client is written at its back with one
    /// request more, or with one request where the table does not hold the
    /// client. That happens for a refused request too.
    pub fn count_request(&mut self, client: &ClientAddress, now: u64) -> (admitted: bool)
        requires
            old(self).wf(),
            none_after(old(self).entries(), now),
        ensures
            final(self).wf(),
            none_after(final(self).entries(), now),
            final(self).limit() == old(self).limit(),
            final(self).window() == old(self).window(),
            final(self).entries() == after_request(
                old(self).entries(),
                spec_key(*client),
                now,
                old(self).window(),
            ),
            admitted == (count_with_request(
                old(self).entries(),
                spec_key(*client),
                now,
                old(self).window(),
            ) <= old(self).limit()),
    {
        let ghost before = self.entries();
        let window_sec = self.window_sec;
        let mut dropped: Ghost<nat> = Ghost(0);
        assert(before.subrange(0, before.len() as int) == before);
        loop
            invariant_except_break
                stale_prefix(before, now, window_sec) == dropped@ + stale_prefix(
                    self.entries(),
                    now,
                    window_sec,
                ),
            invariant
                before == old(self).entries(),
                self.limit == old(self).limit,
                self.window_sec == old(self).window_sec,
                window_sec == self.window_sec,
                dropped@ <= before.len(),
                self.entries() == before.subrange(dropped@ as int, before.len() as int),
            ensures
                stale_prefix(before, now, window_sec) <= before.len(),
                self.entries() == live(before, now, window_sec),
            decreases self.entries().len(),
        {
            match table_front(&self.connections) {
                Some((_, (_, seen))) => {
                    if now >= seen && (now - seen) / 1000 >= window_sec {
                        let ghost current = self.entries();
                        table_pop_front(&mut self.connections);
                        proof {
                            assert(current.drop_first() == before.subrange(
                                (dropped@ + 1) as int,
                                before.len() as int,
                            ));
                            dropped@ = dropped@ + 1;
                        }
                    } else {
                        break ;
                    }
                },
                None => {
                    break ;
                },
            }
        }
        let key = client_key(client);
        let ghost kept = self.entries();
        proof {
            assert(keys_unique(kept) && oldest_first(kept) && none_after(kept, now)) by {
                assert(forall|i: int|
                    0 <= i < kept.len() ==> kept[i] == before[i + stale_prefix(
                        before,
                        now,
                        window_sec,
                    )]);
            }
            lemma_count_for(kept, key);
            lemma_without_key(kept, key);
        }
        let count = match table_get(&self.connections, key) {
            Some((count, _)) => if count < u64::MAX {
                count + 1
            } else {
                count
            },
            None => 1,
        };
        table_insert(&mut self.connections, key, (count, now));
        proof {
            let rest = without_key(kept, key);
            let all = self.entries();
            assert(all == rest.push((key, (count, now))));
            assert forall|i: int| 0 <= i < all.len() implies all[i].1.1 <= now by {
                if i < rest.len() {
                    let w = choose|w: int| 0 <= w < kept.len() && kept[w] == rest[i];
                }
            }
            assert forall|i: int, j: int| 0 <= i < j < all.len() implies all[i].0 != all[j].0
                && all[i].1.1 <= all[j].1.1 by {
                if j == rest.len() {
                    assert(all[i] == rest[i]);
                }
            }
        }
        count <= self.limit
    }
}

} // verus!
