use vstd::arithmetic::div_mod::{
    lemma_add_mod_noop, lemma_add_mod_noop_right, lemma_div_is_ordered, lemma_fundamental_div_mod,
    lemma_fundamental_div_mod_converse, lemma_mod_bound, lemma_small_mod,
};
use vstd::prelude::*;

verus! {

/// The round-robin cursor after one tick over `s` entries.
pub open spec fn next_cursor(c: int, s: int) -> int {
    (c + 1) % s
}

/// The cursor after `t` ticks from cursor `c`, over `s` entries throughout.
pub open spec fn cursor_after(c: int, s: int, t: nat) -> int
    decreases t,
{
    if t == 0 {
        c
    } else {
        next_cursor(cursor_after(c, s, (t - 1) as nat), s)
    }
}

/// Of `k` consecutive ticks from cursor `c` over `s` entries, how many
/// advance the entry at position `j`.
pub open spec fn turns(c: int, s: int, k: nat, j: int) -> nat
    decreases k,
{
    if k == 0 {
        0
    } else {
        turns(c, s, (k - 1) as nat, j) + if cursor_after(c, s, k) == j {
            1nat
        } else {
            0nat
        }
    }
}

proof fn lemma_cursor_after(c: int, s: int, t: nat)
    requires
        0 < s,
        t >= 1,
    ensures
        cursor_after(c, s, t) == (c + t) % s,
    decreases t,
{
    let prev = cursor_after(c, s, (t - 1) as nat);
    assert(cursor_after(c, s, t) == (prev + 1) % s);
    if t > 1 {
        lemma_cursor_after(c, s, (t - 1) as nat);
        lemma_add_mod_noop_right(1, c + t - 1, s);
        assert(1 + (c + t - 1) == c + t);
        assert((prev + 1) % s == (1 + prev) % s);
    }
}

/// Tick `t` lands on `j` exactly when `t - 1` is, modulo `s`, the offset of
/// `j` from the place after `c`.
proof fn lemma_hit(c: int, s: int, t: int, j: int)
    requires
        0 < s,
        0 <= j < s,
    ensures
        ((c + t) % s == j) == ((t - 1 - (j - c - 1) % s) % s == 0),
{
    let d = (j - c - 1) % s;
    let x = t - 1 - d;
    lemma_add_mod_noop(x, c + 1 + d, s);
    lemma_add_mod_noop_right(c + 1, j - c - 1, s);
    lemma_small_mod(j as nat, s as nat);
    lemma_mod_bound(x, s);
    let r = x % s;
    if r == 0 {
        lemma_small_mod(0, s as nat);
    } else if r + j < s {
        lemma_small_mod((r + j) as nat, s as nat);
    } else {
        lemma_fundamental_div_mod_converse(r + j, s, 1, r + j - s);
    }
}

proof fn lemma_div_step(x: int, s: int)
    requires
        0 <= x,
        0 < s,
    ensures
        (x + 1) / s == x / s + if (x + 1) % s == 0 {
            1int
        } else {
            0int
        },
{
    lemma_fundamental_div_mod(x, s);
    lemma_mod_bound(x, s);
    let q = x / s;
    let r = x % s;
    assert(s * q == q * s) by (nonlinear_arith);
    if r + 1 < s {
        lemma_fundamental_div_mod_converse(x + 1, s, q, r + 1);
    } else {
        assert((q + 1) * s == q * s + s) by (nonlinear_arith);
        lemma_fundamental_div_mod_converse(x + 1, s, q + 1, 0);
    }
}

proof fn lemma_turns_closed(c: int, s: int, k: nat, j: int)
    requires
        0 < s,
        0 <= j < s,
    ensures
        turns(c, s, k, j) == if k <= (j - c - 1) % s {
            0
        } else {
            (k - 1 - (j - c - 1) % s) / s + 1
        },
    decreases k,
{
    let d = (j - c - 1) % s;
    lemma_mod_bound(j - c - 1, s);
    if k > 0 {
        lemma_turns_closed(c, s, (k - 1) as nat, j);
        lemma_cursor_after(c, s, k);
        lemma_hit(c, s, k as int, j);
        let x = k - 1 - d;
        if k <= d {
            lemma_fundamental_div_mod_converse(x, s, -1, x + s);
        } else if k == d + 1 {
            lemma_small_mod(0, s as nat);
            lemma_fundamental_div_mod_converse(0, s, 0, 0);
        } else {
            lemma_div_step(x - 1, s);
        }
    }
}

/// Round-robin fairness: over any `k` consecutive ticks from cursor `c` with
/// a constant registry size `s`, the entry at each position `j` is advanced
/// at least `k / s` times (rounded down) and at most `k / s` times rounded up.
pub proof fn lemma_round_robin_fair(c: int, s: int, k: nat, j: int)
    requires
        0 < s,
        0 <= j < s,
    ensures
        (k as int) / s <= turns(c, s, k, j) <= (k + s - 1) / s,
{
    lemma_turns_closed(c, s, k, j);
    let d = (j - c - 1) % s;
    lemma_mod_bound(j - c - 1, s);
    lemma_fundamental_div_mod_converse(0, s, 0, 0);
    if k <= d {
        lemma_fundamental_div_mod_converse(k as int, s, 0, k as int);
        lemma_div_is_ordered(0, k + s - 1, s);
    } else {
        let x = k - 1 - d;
        lemma_fundamental_div_mod(x, s);
        lemma_mod_bound(x, s);
        assert((x / s + 1) * s == (x / s) * s + s) by (nonlinear_arith);
        assert(s * (x / s) == (x / s) * s) by (nonlinear_arith);
        lemma_fundamental_div_mod_converse(x + s, s, x / s + 1, x % s);
        lemma_div_is_ordered(k as int, x + s, s);
        lemma_div_is_ordered(x + s, k + s - 1, s);
    }
}

} // verus!
