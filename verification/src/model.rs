//! The mathematical model shared by every window representation.
//!
//! A window of length `k` is modelled as a `Seq<Base>` of length exactly `k`,
//! oldest base first. All representations start from the same initial window
//! (all bases `C`), evolve by the same push step, and read back the same
//! sequence; the spec functions here say what those operations mean, and the
//! lemmas state the laws that hold of any push history.

use vstd::prelude::*;

use crate::base::Base;
use crate::base::base_from_code;
use crate::base::code_spec;
use crate::bitbuf::bit_of;

verus! {

/// The 2-bit code a pair of buffer bits holds: the first bit is the least
/// significant.
pub open spec fn pair_code(b0: bool, b1: bool) -> u64 {
    if b0 {
        if b1 {
            3
        } else {
            1
        }
    } else {
        if b1 {
            2
        } else {
            0
        }
    }
}

/// The base stored in the 2-bit slot `j` of a bit buffer: slot `j` occupies
/// the bits `2 * j` and `2 * j + 1`.
pub open spec fn slot_at(bits: Seq<bool>, j: int) -> Base {
    base_from_code(pair_code(bits[2 * j], bits[2 * j + 1]))
}

/// The bases packed into raw bytes, four per byte: the first byte holds the
/// oldest bases, and within a byte the two most significant bits form the
/// oldest base.
pub open spec fn bytes_to_syms(bs: Seq<u8>) -> Seq<Base> {
    Seq::new(
        (bs.len() * 4) as nat,
        |i: int| base_from_code(((bs[i / 4] as u64) >> ((2 * (3 - (i % 4))) as u64)) & 3),
    )
}

/// A 2-bit code is exactly the pair of its low two bits.
pub proof fn lemma_pair_bits(c: u8)
    by (bit_vector)
    requires
        c < 4,
    ensures
        pair_code(bit_of(c, 0), bit_of(c, 1)) == c,
{
}

/// Splitting a 2-bit code into its low and high bit by masking gives the
/// same pair.
pub proof fn lemma_pair_split(c: u8)
    by (bit_vector)
    requires
        c < 4,
    ensures
        pair_code((c & 1) == 1, ((c >> 1) & 1) == 1) == c,
{
}

/// The window of length `k` that construction yields: every slot holds the
/// base whose code is zero.
pub open spec fn init_window(k: nat) -> Seq<Base> {
    Seq::new(k, |i: int| Base::C)
}

/// One push: the oldest base is evicted at the front and the new base is
/// appended at the back, keeping the length fixed.
pub open spec fn push_step(w: Seq<Base>, b: Base) -> Seq<Base> {
    w.subrange(1, w.len() as int).push(b)
}

/// The window of length `k` after pushing the bases of `s` in order into a
/// freshly constructed window.
pub open spec fn window_after(k: nat, s: Seq<Base>) -> Seq<Base>
    decreases s.len(),
{
    if s.len() == 0 {
        init_window(k)
    } else {
        push_step(window_after(k, s.drop_last()), s.last())
    }
}

/// The packed numeric value of a window: each base contributes its 2-bit
/// code, oldest base in the highest-order position.
pub open spec fn encode_seq(s: Seq<Base>) -> nat
    decreases s.len(),
{
    if s.len() == 0 {
        0
    } else {
        (encode_seq(s.drop_last()) * 4 + code_spec(s.last())) as nat
    }
}

/// All windows of length `k` that a base sequence contains, in order: window
/// `i` covers the bases `[i, i + k)`. A sequence shorter than `k` contains no
/// window at all.
pub open spec fn windows_of(s: Seq<Base>, k: nat) -> Seq<Seq<Base>> {
    if s.len() < k {
        Seq::empty()
    } else {
        Seq::new((s.len() - k + 1) as nat, |i: int| s.subrange(i, i + k))
    }
}

/// A window has its declared length after any push history.
pub proof fn lemma_window_after_len(k: nat, s: Seq<Base>)
    requires
        k >= 1,
    ensures
        window_after(k, s).len() == k,
    decreases s.len(),
{
    if s.len() > 0 {
        lemma_window_after_len(k, s.drop_last());
    }
}

/// Pushing at least `k` bases fills the window completely: the window holds
/// exactly the last `k` bases pushed, whatever came before them.
pub proof fn lemma_window_after_full(k: nat, s: Seq<Base>)
    requires
        k >= 1,
        s.len() >= k,
    ensures
        window_after(k, s) == s.subrange(s.len() - k, s.len() as int),
    decreases s.len(),
{
    lemma_window_after_len(k, s);
    if s.len() == 0 {
        assert(window_after(k, s) =~= s.subrange(s.len() - k, s.len() as int));
    } else if s.len() == k {
        lemma_window_after_partial(k, s);
        assert(window_after(k, s) =~= s.subrange(s.len() - k, s.len() as int));
    } else {
        lemma_window_after_full(k, s.drop_last());
        lemma_window_after_len(k, s.drop_last());
        assert(window_after(k, s) =~= s.subrange(s.len() - k, s.len() as int));
    }
}

/// Round trip: pushing exactly `k` bases into a fresh window of length `k`
/// and reading the window back yields exactly those bases, oldest first.
pub proof fn lemma_round_trip(k: nat, s: Seq<Base>)
    requires
        k >= 1,
        s.len() == k,
    ensures
        window_after(k, s) == s,
{
    lemma_window_after_full(k, s);
    assert(s.subrange(0, s.len() as int) =~= s);
}

/// Pushing fewer than `k` bases leaves the oldest slots at their initial
/// value: the window is the pushed bases preceded by the needed zeros.
pub proof fn lemma_window_after_partial(k: nat, s: Seq<Base>)
    requires
        k >= 1,
        s.len() <= k,
    ensures
        window_after(k, s) == init_window((k - s.len()) as nat) + s,
    decreases s.len(),
{
    if s.len() == 0 {
        assert(window_after(k, s) =~= init_window((k - s.len()) as nat) + s);
    } else {
        lemma_window_after_partial(k, s.drop_last());
        lemma_window_after_len(k, s.drop_last());
        assert(window_after(k, s) =~= init_window((k - s.len()) as nat) + s);
    }
}

/// Shrink correctness: after any push history, the window of length `l`
/// is exactly the last `l` bases of the window of length `k` — so
/// reinterpreting a window's newest `l` slots yields the window that the
/// same history would have produced at length `l`.
pub proof fn lemma_window_suffix(k: nat, l: nat, s: Seq<Base>)
    requires
        1 <= l <= k,
    ensures
        window_after(l, s) == window_after(k, s).subrange(k - l, k as int),
{
    lemma_window_after_len(k, s);
    if s.len() >= k {
        lemma_window_after_full(k, s);
        lemma_window_after_full(l, s);
        assert(window_after(l, s) =~= window_after(k, s).subrange(k - l, k as int));
    } else if s.len() >= l {
        lemma_window_after_partial(k, s);
        lemma_window_after_full(l, s);
        assert(window_after(l, s) =~= window_after(k, s).subrange(k - l, k as int));
    } else {
        lemma_window_after_partial(k, s);
        lemma_window_after_partial(l, s);
        assert(window_after(l, s) =~= window_after(k, s).subrange(k - l, k as int));
    }
}

/// Masking stability: the window — and with it any value computed from the
/// window alone, such as its packed form — depends only on the last `k`
/// bases of the push history. Two histories that agree on their last `k`
/// bases give equal windows.
pub proof fn lemma_masking_stability(k: nat, s: Seq<Base>, t: Seq<Base>)
    requires
        k >= 1,
        s.len() >= k,
        t.len() >= k,
        s.subrange(s.len() - k, s.len() as int) == t.subrange(t.len() - k, t.len() as int),
    ensures
        window_after(k, s) == window_after(k, t),
        encode_seq(window_after(k, s)) == encode_seq(window_after(k, t)),
{
    lemma_window_after_full(k, s);
    lemma_window_after_full(k, t);
}

} // verus!
