//! The strategy that takes the healthy backends in turn.

use vstd::prelude::*;
use vstd::arithmetic::div_mod::{
    lemma_fundamental_div_mod, lemma_fundamental_div_mod_converse, lemma_mod_bound,
    lemma_mod_self_0, lemma_small_mod,
};
use crate::http::Request;
use crate::load_balancing::{Context, RequestForwarder};
use crate::load_balancing::random::forwarder_at;

verus! {

/// The counter after one more selection among `n` addresses.
pub open spec fn next_turn(counter: int, n: int) -> int {
    (counter + 1) % n
}

/// The counter after `k` selections among `n` addresses.
pub open spec fn turn_after(counter: int, n: int, k: nat) -> int
    decreases k,
{
    if k == 0 {
        counter
    } else {
        next_turn(turn_after(counter, n, (k - 1) as nat), n)
    }
}

#[derive(Debug)]
pub struct RoundRobin {
    rrc: usize,
}

impl RoundRobin {
    /// The index that was selected last.
    pub closed spec fn counter(&self) -> int {
        self.rrc as int
    }

    /// The counter leaves room for one more step.
    pub closed spec fn wf(&self) -> bool {
        self.rrc < usize::MAX
    }

    /// The counter is never negative.
    pub proof fn lemma_counter_is_not_negative(self)
        requires
            self.wf(),
        ensures
            self.counter() >= 0,
    {
    }

    pub fn new() -> (s: RoundRobin)
        ensures
            s.wf(),
            s.counter() == 0,
    {
        RoundRobin { rrc: 0 }
    }

    /// Moves the counter one step on, modulo the number of healthy addresses,
    /// and selects the address it then points to.
    pub fn select_backend(&mut self, request: &Request, context: &Context) -> (f: RequestForwarder)
        requires
            old(self).wf(),
            context.backend_addresses.len() > 0,
        ensures
            final(self).wf(),
            final(self).counter() == next_turn(
                old(self).counter(),
                context.backend_addresses.len() as int,
            ),
            0 <= final(self).counter() < context.backend_addresses.len(),
            f.backend_address@ == context.addresses()[final(self).counter()],
            f.cookies() == Seq::<Seq<char>>::empty(),
    {
        let n = context.backend_addresses.len();
        self.rrc = (self.rrc + 1) % n;
        forwarder_at(context, self.rrc)
    }
}

/// Whether one of the next `n` selections picks the index `a`.
pub open spec fn visited(counter: int, n: int, a: int) -> bool {
    exists|k: nat| 1 <= k <= n && turn_after(counter, n, k) == a
}

/// After `k >= 1` selections the counter stands at `(counter + k) % n`.
pub proof fn lemma_turn_after(counter: int, n: int, k: nat)
    requires
        counter >= 0,
        n >= 1,
        k >= 1,
    ensures
        turn_after(counter, n, k) == (counter + k) % n,
    decreases k,
{
    if k == 1 {
        assert(turn_after(counter, n, 1) == next_turn(turn_after(counter, n, 0), n));
    } else {
        lemma_turn_after(counter, n, (k - 1) as nat);
        let x = counter + k - 1;
        lemma_mod_bound(x, n);
        if x % n + 1 < n {
            lemma_mod_shift(x, 1, x % n + 1, n);
            lemma_small_mod((x % n + 1) as nat, n as nat);
        } else {
            lemma_mod_shift(x, 1, 0, n);
            lemma_mod_self_0(n);
        }
    }
}

/// Any `n` selections in a row among `n >= 1` addresses visit every address
/// exactly once: no index comes twice among them, and every index comes.
pub proof fn lemma_round_robin_visits_every_address_once(counter: int, n: int)
    requires
        counter >= 0,
        n >= 1,
    ensures
        forall|j: nat, k: nat|
            1 <= j < k <= n ==> turn_after(counter, n, j) != turn_after(counter, n, k),
        forall|a: int| 0 <= a < n ==> #[trigger] visited(counter, n, a),
{
    assert forall|j: nat, k: nat| 1 <= j < k <= n implies turn_after(counter, n, j) != turn_after(
        counter,
        n,
        k,
    ) by {
        lemma_turn_after(counter, n, j);
        lemma_turn_after(counter, n, k);
        lemma_mod_differs(counter + j, counter + k, n);
    }
    assert forall|a: int| 0 <= a < n implies #[trigger] visited(counter, n, a) by {
        let r = counter % n;
        lemma_mod_bound(counter, n);
        let k: nat = if a > r {
            (a - r) as nat
        } else {
            (a - r + n) as nat
        };
        lemma_turn_after(counter, n, k);
        lemma_mod_shift(counter, k as int, a, n);
        assert(1 <= k <= n && turn_after(counter, n, k) == a);
    }
}

/// Two numbers less than `n` apart have different remainders modulo `n`.
proof fn lemma_mod_differs(x: int, y: int, n: int)
    requires
        n >= 1,
        x < y < x + n,
    ensures
        x % n != y % n,
{
    if x % n == y % n {
        lemma_fundamental_div_mod(x, n);
        lemma_fundamental_div_mod(y, n);
        let d = y / n - x / n;
        assert(y - x == n * d) by (nonlinear_arith)
            requires
                x == n * (x / n) + x % n,
                y == n * (y / n) + y % n,
                x % n == y % n,
                d == y / n - x / n,
        ;
        assert(false) by (nonlinear_arith)
            requires
                y - x == n * d,
                0 < y - x < n,
                n >= 1,
        ;
    }
}

/// Where `c % n + k` is `a` or `a + n`, the remainder of `c + k` is `a`.
proof fn lemma_mod_shift(c: int, k: int, a: int, n: int)
    requires
        n >= 1,
        0 <= a < n,
        c % n + k == a || c % n + k == a + n,
    ensures
        (c + k) % n == a,
{
    lemma_fundamental_div_mod(c, n);
    let q = if c % n + k == a {
        c / n
    } else {
        c / n + 1
    };
    assert(c + k == q * n + a) by (nonlinear_arith)
        requires
            c == n * (c / n) + c % n,
            q == (if c % n + k == a {
                c / n
            } else {
                c / n + 1
            }),
            c % n + k == a || c % n + k == a + n,
    ;
    lemma_fundamental_div_mod_converse(c + k, n, q, a);
}

} // verus!
