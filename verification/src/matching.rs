//! Bracket matching: the on-demand scan that resolves a forward jump from
//! a `[` to just past its matching `]`, and a backward jump from a `]` to
//! just past its matching `[`, together with the proof that the two
//! resolutions are inverse to each other on matched pairs.

use vstd::prelude::*;

use crate::opcode::Instructions;

verus! {

/// How one instruction changes the bracket nesting level when read left
/// to right: `[` opens a level, `]` closes one.
pub open spec fn bracket_delta(i: Instructions) -> int {
    match i {
        Instructions::JumpIfZero => 1,
        Instructions::JumpIfNonZero => -1,
        _ => 0,
    }
}

/// Net bracket nesting over `prog[a..b)`.
pub open spec fn nesting(prog: Seq<Instructions>, a: int, b: int) -> int
    decreases b - a,
{
    if a >= b {
        0
    } else {
        bracket_delta(prog[a]) + nesting(prog, a + 1, b)
    }
}

pub proof fn lemma_nesting_split(prog: Seq<Instructions>, a: int, b: int, c: int)
    requires
        a <= b <= c,
    ensures
        nesting(prog, a, c) == nesting(prog, a, b) + nesting(prog, b, c),
    decreases b - a,
{
    if a < b {
        lemma_nesting_split(prog, a + 1, b, c);
    }
}

/// Scan right from `i` with a nesting counter at `depth`: each `[` raises
/// it, each `]` lowers it; the scan stops just past the `]` that brings it
/// to zero, and fails at the end of the program.
pub open spec fn fwd_scan(prog: Seq<Instructions>, i: int, depth: int) -> Option<int>
    decreases prog.len() - i,
{
    if i < 0 || i >= prog.len() {
        None
    } else if prog[i] is JumpIfNonZero {
        if depth == 1 {
            Some(i + 1)
        } else {
            fwd_scan(prog, i + 1, depth - 1)
        }
    } else if prog[i] is JumpIfZero {
        fwd_scan(prog, i + 1, depth + 1)
    } else {
        fwd_scan(prog, i + 1, depth)
    }
}

/// The mirror scan, leftward from `i`: each `]` raises the counter, each
/// `[` lowers it; the scan stops just past the `[` that brings it to zero,
/// and fails at the start of the program.
pub open spec fn bwd_scan(prog: Seq<Instructions>, i: int, depth: int) -> Option<int>
    decreases i + 1,
{
    if i < 0 || i >= prog.len() {
        None
    } else if prog[i] is JumpIfZero {
        if depth == 1 {
            Some(i + 1)
        } else {
            bwd_scan(prog, i - 1, depth - 1)
        }
    } else if prog[i] is JumpIfNonZero {
        bwd_scan(prog, i - 1, depth + 1)
    } else {
        bwd_scan(prog, i - 1, depth)
    }
}

/// Where a `[` at `from` jumps when the current cell is zero: just past
/// its matching `]`, or `None` if the bracket is unmatched.
pub open spec fn jump_forward_spec(prog: Seq<Instructions>, from: int) -> Option<int> {
    fwd_scan(prog, from + 1, 1)
}

/// Where a `]` at `from` jumps when the current cell is nonzero: just past
/// its matching `[`, or `None` if the bracket is unmatched.
pub open spec fn jump_backward_spec(prog: Seq<Instructions>, from: int) -> Option<int> {
    bwd_scan(prog, from - 1, 1)
}

/// What a successful forward scan found: a `]` at `r - 1`, at nesting
/// level balancing the starting depth, and no earlier `]` at that level.
pub proof fn lemma_fwd_scan_found(prog: Seq<Instructions>, i: int, depth: int, r: int)
    requires
        0 <= i,
        fwd_scan(prog, i, depth) == Some(r),
    ensures
        i <= r - 1 < prog.len(),
        prog[r - 1] is JumpIfNonZero,
        depth + nesting(prog, i, r - 1) == 1,
        forall|k: int|
            i <= k < r - 1 ==> !((prog[k] is JumpIfNonZero) && depth + nesting(prog, i, k) == 1),
    decreases prog.len() - i,
{
    if prog[i] is JumpIfNonZero && depth == 1 {
        assert(nesting(prog, i, i) == 0);
    } else {
        let d2 = depth + bracket_delta(prog[i]);
        lemma_fwd_scan_found(prog, i + 1, d2, r);
        assert(depth + nesting(prog, i, r - 1) == 1);
        assert forall|k: int|
            i <= k < r - 1 implies !((prog[k] is JumpIfNonZero) && depth + nesting(prog, i, k)
            == 1) by {
            if k == i {
                assert(nesting(prog, i, i) == 0);
            } else {
                assert(nesting(prog, i, k) == bracket_delta(prog[i]) + nesting(prog, i + 1, k));
            }
        }
    }
}

/// A forward scan succeeds whenever some `]` balances the starting depth.
pub proof fn lemma_fwd_scan_finds(prog: Seq<Instructions>, i: int, depth: int, j: int)
    requires
        0 <= i <= j < prog.len(),
        prog[j] is JumpIfNonZero,
        depth + nesting(prog, i, j) == 1,
    ensures
        fwd_scan(prog, i, depth) is Some,
    decreases prog.len() - i,
{
    if prog[i] is JumpIfNonZero && depth == 1 {
    } else if i == j {
        assert(nesting(prog, i, i) == 0);
    } else {
        let d2 = depth + bracket_delta(prog[i]);
        assert(nesting(prog, i, j) == bracket_delta(prog[i]) + nesting(prog, i + 1, j));
        lemma_fwd_scan_finds(prog, i + 1, d2, j);
    }
}

/// What a successful backward scan found: a `[` at `r - 1`, balancing the
/// starting depth, and no later `[` at that level.
pub proof fn lemma_bwd_scan_found(prog: Seq<Instructions>, i: int, depth: int, r: int)
    requires
        i < prog.len(),
        bwd_scan(prog, i, depth) == Some(r),
    ensures
        0 <= r - 1 <= i,
        prog[r - 1] is JumpIfZero,
        depth - nesting(prog, r, i + 1) == 1,
        forall|k: int|
            r - 1 < k <= i ==> !((prog[k] is JumpIfZero) && depth - nesting(prog, k + 1, i + 1)
            == 1),
    decreases i + 1,
{
    if prog[i] is JumpIfZero && depth == 1 {
        assert(nesting(prog, i + 1, i + 1) == 0);
    } else {
        let d2 = depth - bracket_delta(prog[i]);
        lemma_bwd_scan_found(prog, i - 1, d2, r);
        lemma_nesting_split(prog, r, i, i + 1);
        assert(nesting(prog, i + 1, i + 1) == 0);
        assert(nesting(prog, i, i + 1) == bracket_delta(prog[i]));
        assert forall|k: int|
            r - 1 < k <= i implies !((prog[k] is JumpIfZero) && depth - nesting(
            prog,
            k + 1,
            i + 1,
        ) == 1) by {
            if k == i {
                assert(nesting(prog, i + 1, i + 1) == 0);
            } else {
                lemma_nesting_split(prog, k + 1, i, i + 1);
            }
        }
    }
}

/// A backward scan succeeds whenever some `[` balances the starting depth.
pub proof fn lemma_bwd_scan_finds(prog: Seq<Instructions>, i: int, depth: int, j: int)
    requires
        0 <= j <= i < prog.len(),
        prog[j] is JumpIfZero,
        depth - nesting(prog, j + 1, i + 1) == 1,
    ensures
        bwd_scan(prog, i, depth) is Some,
    decreases i + 1,
{
    if prog[i] is JumpIfZero && depth == 1 {
    } else if i == j {
        assert(nesting(prog, i + 1, i + 1) == 0);
    } else {
        let d2 = depth - bracket_delta(prog[i]);
        lemma_nesting_split(prog, j + 1, i, i + 1);
        assert(nesting(prog, i + 1, i + 1) == 0);
        assert(nesting(prog, i, i + 1) == bracket_delta(prog[i]));
        lemma_bwd_scan_finds(prog, i - 1, d2, j);
    }
}

/// Where the nesting sum over `[a..b)` ends up below `c <= 0`, some `]`
/// inside is read exactly at level `c`.
proof fn lemma_crossing_down(prog: Seq<Instructions>, a: int, b: int, c: int)
    requires
        0 <= a <= b <= prog.len(),
        nesting(prog, a, b) < c <= 0,
    ensures
        exists|k: int| a <= k < b && (prog[k] is JumpIfNonZero) && nesting(prog, a, k) == c,
    decreases b - a,
{
    if a == b {
        assert(false);
    } else if prog[a] is JumpIfNonZero && c == 0 {
        assert(nesting(prog, a, a) == 0);
        assert(a <= a < b && (prog[a] is JumpIfNonZero) && nesting(prog, a, a) == c);
    } else {
        let d = bracket_delta(prog[a]);
        lemma_crossing_down(prog, a + 1, b, c - d);
        let k = choose|k: int|
            a + 1 <= k < b && (prog[k] is JumpIfNonZero) && nesting(prog, a + 1, k) == c - d;
        assert(nesting(prog, a, k) == d + nesting(prog, a + 1, k));
        assert(a <= k < b && (prog[k] is JumpIfNonZero) && nesting(prog, a, k) == c);
    }
}

/// Where the nesting sum over `[a..b)` ends up above `c >= 0`, some `[`
/// inside leaves exactly level `c` to its right.
proof fn lemma_crossing_up(prog: Seq<Instructions>, a: int, b: int, c: int)
    requires
        0 <= a <= b <= prog.len(),
        nesting(prog, a, b) > c >= 0,
    ensures
        exists|k: int| a <= k < b && (prog[k] is JumpIfZero) && nesting(prog, k + 1, b) == c,
    decreases b - a,
{
    if a == b {
        assert(false);
    } else if prog[a] is JumpIfZero && nesting(prog, a + 1, b) == c {
        assert(a <= a < b && (prog[a] is JumpIfZero) && nesting(prog, a + 1, b) == c);
    } else {
        lemma_crossing_up(prog, a + 1, b, c);
        let k = choose|k: int|
            a + 1 <= k < b && (prog[k] is JumpIfZero) && nesting(prog, k + 1, b) == c;
        assert(a <= k < b && (prog[k] is JumpIfZero) && nesting(prog, k + 1, b) == c);
    }
}

/// Resolving a `[` forward lands just past its matching `]`: the nesting
/// between the pair balances, and resolving that `]` backward lands just
/// past the `[` again.
pub proof fn lemma_bracket_round_trip_forward(prog: Seq<Instructions>, p: int, t: int)
    requires
        0 <= p < prog.len(),
        prog[p] is JumpIfZero,
        jump_forward_spec(prog, p) == Some(t),
    ensures
        p + 1 < t <= prog.len(),
        prog[t - 1] is JumpIfNonZero,
        nesting(prog, p + 1, t - 1) == 0,
        jump_backward_spec(prog, t - 1) == Some(p + 1),
{
    let j = t - 1;
    lemma_fwd_scan_found(prog, p + 1, 1, t);
    lemma_bwd_scan_finds(prog, j - 1, 1, p);
    let r = bwd_scan(prog, j - 1, 1)->Some_0;
    lemma_bwd_scan_found(prog, j - 1, 1, r);
    let i2 = r - 1;
    if i2 < p {
        assert(!((prog[p] is JumpIfZero) && 1 - nesting(prog, p + 1, j) == 1));
        assert(false);
    }
    if i2 > p {
        assert(nesting(prog, i2, j) == 1 + nesting(prog, i2 + 1, j));
        lemma_nesting_split(prog, p + 1, i2, j);
        lemma_crossing_down(prog, p + 1, i2, 0);
        let k = choose|k: int|
            p + 1 <= k < i2 && (prog[k] is JumpIfNonZero) && nesting(prog, p + 1, k) == 0;
        assert(!((prog[k] is JumpIfNonZero) && 1 + nesting(prog, p + 1, k) == 1));
        assert(false);
    }
}

/// Resolving a `]` backward lands just past its matching `[`: the nesting
/// between the pair balances, and resolving that `[` forward lands just
/// past the `]` again.
pub proof fn lemma_bracket_round_trip_backward(prog: Seq<Instructions>, q: int, t: int)
    requires
        0 <= q < prog.len(),
        prog[q] is JumpIfNonZero,
        jump_backward_spec(prog, q) == Some(t),
    ensures
        0 < t <= q,
        prog[t - 1] is JumpIfZero,
        nesting(prog, t, q) == 0,
        jump_forward_spec(prog, t - 1) == Some(q + 1),
{
    let i = t - 1;
    lemma_bwd_scan_found(prog, q - 1, 1, t);
    lemma_fwd_scan_finds(prog, i + 1, 1, q);
    let r2 = fwd_scan(prog, i + 1, 1)->Some_0;
    lemma_fwd_scan_found(prog, i + 1, 1, r2);
    let j2 = r2 - 1;
    if j2 > q {
        assert(!((prog[q] is JumpIfNonZero) && 1 + nesting(prog, i + 1, q) == 1));
        assert(false);
    }
    if j2 < q {
        lemma_nesting_split(prog, i + 1, j2, q);
        assert(nesting(prog, j2, q) == -1 + nesting(prog, j2 + 1, q));
        lemma_crossing_up(prog, j2 + 1, q, 0);
        let k = choose|k: int|
            j2 + 1 <= k < q && (prog[k] is JumpIfZero) && nesting(prog, k + 1, q) == 0;
        assert(!((prog[k] is JumpIfZero) && 1 - nesting(prog, k + 1, q) == 1));
        assert(false);
    }
}

} // verus!
