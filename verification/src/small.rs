//! Fixed-size k-mers of up to 32 bases, packed into one 64-bit word.
//!
//! A window of length `k` occupies the low `2 * k` bits of the word, oldest
//! base in the highest active 2-bit group. Pushing shifts the word left by
//! two bits and ors the new code into the low bits, so bits above the active
//! region are stale leftovers of earlier pushes: every read masks them off.

use vstd::prelude::*;

use crate::Error;
use crate::base::Base;
use crate::base::base_from_code;
use crate::base::base_to_ascii;
use crate::base::code_spec;
use crate::base::lemma_code_round;
use crate::model::encode_seq;
use crate::model::init_window;
use crate::model::push_step;
use crate::model::window_after;
use crate::model::lemma_round_trip;

verus! {

/// The base stored in the 2-bit group `pos` of a packed word, counting
/// groups from the least significant end.
pub open spec fn sym_at(x: u64, pos: int) -> Base
    recommends
        0 <= pos < 32,
{
    base_from_code((x >> ((2 * pos) as u64)) & 3)
}

/// The window of length `k` that a packed word holds, oldest base first:
/// the oldest base sits in the highest active 2-bit group.
pub open spec fn win_view(x: u64, k: int) -> Seq<Base>
    recommends
        1 <= k <= 32,
{
    Seq::new(k as nat, |i: int| sym_at(x, k - 1 - i))
}

/// Pushing shifts every active 2-bit group one slot up and writes the new
/// code into the lowest group.
proof fn lemma_push_bits(x: u64, c: u64, p: u64)
    by (bit_vector)
    requires
        c < 4,
        p < 32,
    ensures
        p == 0 ==> (((x << 2) | c) >> ((2 * p) as u64)) & 3 == c,
        1 <= p ==> (((x << 2) | c) >> ((2 * p) as u64)) & 3 == (x >> ((2 * (p - 1)) as u64)) & 3,
{
}

/// Reading group `p` of a word is reading group `p - 1` of the word shifted
/// down by one group.
proof fn lemma_shift_down(x: u64, p: u64)
    by (bit_vector)
    requires
        1 <= p <= 31,
    ensures
        (x >> ((2 * p) as u64)) & 3 == ((x >> 2) >> ((2 * (p - 1)) as u64)) & 3,
{
}

/// A 2-bit group read never exceeds 3.
proof fn lemma_group_small(x: u64, sh: u64)
    by (bit_vector)
    ensures
        (x >> sh) & 3 < 4,
{
}

/// The low `2 * k` bits of a word split into its lowest group and the low
/// `2 * (k - 1)` bits of the word shifted down by one group.
proof fn lemma_mask_bits(x: u64, k: u64)
    by (bit_vector)
    requires
        1 <= k <= 32,
    ensures
        k == 1 ==> x & (u64::MAX >> ((64 - 2 * k) as u64)) == x & 3,
        k >= 2 ==> x & (u64::MAX >> ((64 - 2 * k) as u64)) == ((x >> 2) & (u64::MAX >> ((64 - 2
            * (k - 1)) as u64))) * 4 + (x & 3),
{
}

/// The packed value of the window a word holds is exactly the word's low
/// `2 * k` bits.
proof fn lemma_encode_view(x: u64, k: int)
    requires
        1 <= k <= 32,
    ensures
        encode_seq(win_view(x, k)) == x & (u64::MAX >> ((64 - 2 * k) as u64)),
    decreases k,
{
    lemma_mask_bits(x, k as u64);
    let s = win_view(x, k);
    assert(s.len() == k);
    assert(s.last() == sym_at(x, 0));
    assert((x >> ((2 * 0) as u64)) & 3 == x & 3) by (bit_vector);
    assert(x & 3 < 4) by (bit_vector);
    lemma_code_round(x & 3);
    assert(code_spec(s.last()) == x & 3);
    if k == 1 {
        assert(s.drop_last() =~= Seq::<Base>::empty());
        assert(encode_seq(s.drop_last()) == 0);
        assert(encode_seq(s) == (0 * 4 + code_spec(s.last())) as nat);
    } else {
        lemma_encode_view(x >> 2, k - 1);
        assert forall|i: int| 0 <= i < k - 1 implies s[i] == win_view(x >> 2, k - 1)[i] by {
            lemma_shift_down(x, (k - 1 - i) as u64);
        }
        assert(s.drop_last() =~= win_view(x >> 2, k - 1));
        assert(encode_seq(s) == (encode_seq(s.drop_last()) * 4 + code_spec(s.last())) as nat);
    }
}

/// Relies on bitfrob's `u64_get_region`: the bits of `u` in the inclusive
/// bit region `low ..= high`, in place, with every other bit cleared.
#[verifier::external_body]
fn u64_region(low: u32, high: u32, u: u64) -> (r: u64)
    requires
        low <= high < 64,
    ensures
        r == u & ((u64::MAX >> ((63 - (high - low)) as u64)) << (low as u64)),
{
    bitfrob::u64_get_region(low, high, u)
}

/// A fixed-size k-mer of `1 ..= 32` bases packed into a 64-bit word.
#[derive(Clone, Copy)]
pub struct Kmer {
    inner: u64,
    k: usize,
    hist: Ghost<Seq<Base>>,
}

impl View for Kmer {
    type V = Seq<Base>;

    closed spec fn view(&self) -> Seq<Base> {
        win_view(self.inner, self.k as int)
    }
}

impl Kmer {
    /// The declared window length.
    pub closed spec fn size_spec(&self) -> nat {
        self.k as nat
    }

    /// Every base pushed since construction, in push order.
    pub closed spec fn history(&self) -> Seq<Base> {
        self.hist@
    }

    /// A well-formed window has a length in `1 ..= 32` and holds exactly the
    /// window its push history determines.
    pub open spec fn wf(&self) -> bool {
        &&& 1 <= self.size_spec() <= 32
        &&& self@ == window_after(self.size_spec(), self.history())
    }

    /// Creates a window of length `k`, every base initialized to the base
    /// whose code is zero; lengths outside `1 ..= 32` are rejected.
    pub fn new(k: usize) -> (r: Result<Kmer, Error>)
        ensures
            (1 <= k <= 32) <==> r is Ok,
            r matches Ok(w) ==> w.wf() && w.size_spec() == k && w.history() == Seq::<
                Base,
            >::empty() && w@ == init_window(k as nat),
            r is Err ==> r == Err::<Kmer, Error>(Error::InvalidCapacity),
    {
        if k == 0 || k > 32 {
            return Err(Error::InvalidCapacity);
        }
        let w = Kmer { inner: 0, k, hist: Ghost(Seq::empty()) };
        proof {
            assert forall|i: int| 0 <= i < k implies win_view(0, k as int)[i] == Base::C by {
                let sh = ((2 * (k - 1 - i)) as u64);
                assert((0u64 >> sh) & 3 == 0) by (bit_vector);
            }
            assert(w@ =~= init_window(k as nat));
        }
        Ok(w)
    }

    /// Builds a window of length `bases.len()` holding exactly the given
    /// bases, the first given base oldest — the same window that pushing them
    /// in order into a fresh window yields.
    pub fn from_bases(bases: &[Base]) -> (r: Result<Kmer, Error>)
        ensures
            (1 <= bases@.len() <= 32) <==> r is Ok,
            r matches Ok(w) ==> w.wf() && w.size_spec() == bases@.len() && w.history() == bases@
                && w@ == bases@,
            r is Err ==> r == Err::<Kmer, Error>(Error::InvalidCapacity),
    {
        let k = bases.len();
        if k == 0 || k > 32 {
            return Err(Error::InvalidCapacity);
        }
        let mut w = match Kmer::new(k) {
            Ok(w) => w,
            Err(e) => {
                return Err(e);
            },
        };
        let mut i: usize = 0;
        while i < k
            invariant
                i <= k,
                w.wf(),
                w.size_spec() == k,
                w.history() == bases@.subrange(0, i as int),
                k == bases@.len(),
                1 <= k <= 32,
            decreases k - i,
        {
            w.push(bases[i]);
            proof {
                assert(w.history() =~= bases@.subrange(0, i + 1));
            }
            i += 1;
        }
        proof {
            assert(bases@.subrange(0, k as int) =~= bases@);
            lemma_round_trip(k as nat, bases@);
        }
        Ok(w)
    }

    /// The declared window length.
    pub fn size(&self) -> (r: usize)
        ensures
            r == self.size_spec(),
    {
        self.k
    }

    /// Pushes a base: the oldest base is evicted and the new base becomes
    /// the newest.
    pub fn push(&mut self, base: Base)
        requires
            old(self).wf(),
        ensures
            final(self).wf(),
            final(self).size_spec() == old(self).size_spec(),
            final(self)@ == push_step(old(self)@, base),
            final(self).history() == old(self).history().push(base),
    {
        let c = base.to_code();
        proof {
            lemma_push_view(self.inner, c as u64, self.k as int);
        }
        self.inner = (self.inner << 2) | (c as u64);
        self.hist = Ghost(self.hist@.push(base));
        proof {
            assert(base_from_code(code_spec(base)) == base);
            assert(self.hist@.drop_last() =~= old(self).history());
        }
    }

    /// Reads the window back: exactly `size()` bases, oldest first.
    pub fn bases(&self) -> (r: Vec<Base>)
        requires
            self.wf(),
        ensures
            r@ == self@,
    {
        let mut out: Vec<Base> = Vec::new();
        let mut i: usize = 0;
        while i < self.k
            invariant
                i <= self.k,
                1 <= self.k <= 32,
                out@ =~= self@.subrange(0, i as int),
            decreases self.k - i,
        {
            let sh: u64 = 2 * ((self.k - 1 - i) as u64);
            let c = ((self.inner >> sh) & 3) as u8;
            proof {
                lemma_group_small(self.inner, sh);
                lemma_code_round((self.inner >> sh) & 3);
            }
            out.push(Base::from_u8_unchecked(c));
            proof {
                assert(out@ =~= self@.subrange(0, i + 1));
            }
            i += 1;
        }
        proof {
            assert(out@ =~= self@);
        }
        out
    }

    /// The window as ASCII letters, upper case, oldest base first.
    pub fn letters(&self) -> (r: Vec<u8>)
        requires
            self.wf(),
        ensures
            r@.len() == self@.len(),
            forall|i: int| 0 <= i < r@.len() ==> r@[i] == base_to_ascii(self@[i]),
    {
        let bs = self.bases();
        let mut out: Vec<u8> = Vec::new();
        let mut i: usize = 0;
        while i < bs.len()
            invariant
                i <= bs@.len(),
                bs@ == self@,
                out@.len() == i,
                forall|t: int| 0 <= t < i ==> out@[t] == base_to_ascii(self@[t]),
            decreases bs@.len() - i,
        {
            out.push(bs[i].to_ascii());
            i += 1;
        }
        out
    }

    /// The canonical packed value of the window: each base contributes its
    /// 2-bit code, oldest base highest. Stale bits above the active region
    /// are masked off, so the value depends on the held window alone.
    pub fn as_masked(&self) -> (r: u64)
        requires
            self.wf(),
        ensures
            r == encode_seq(self@),
    {
        let high: u32 = (self.k as u32) * 2 - 1;
        let r = u64_region(0, high, self.inner);
        proof {
            lemma_encode_view(self.inner, self.k as int);
            assert((u64::MAX >> ((63 - (high - 0)) as u64)) << 0u64 == u64::MAX >> ((63 - (high
                - 0)) as u64)) by (bit_vector);
        }
        r
    }

    /// Reinterprets the window as one of the last `l` bases — no bits move,
    /// only the active region shrinks. Targets above the window length, and
    /// zero, are rejected.
    pub fn shrink_to(&self, l: usize) -> (r: Result<Kmer, Error>)
        requires
            self.wf(),
        ensures
            (1 <= l <= self.size_spec()) <==> r is Ok,
            r matches Ok(w) ==> w.wf() && w.size_spec() == l && w@ == self@.subrange(
                self.size_spec() - l,
                self.size_spec() as int,
            ),
            r is Err ==> r == Err::<Kmer, Error>(Error::InvalidCapacity),
    {
        if l == 0 || l > self.k {
            return Err(Error::InvalidCapacity);
        }
        let ghost target = self@.subrange(self.k - l, self.k as int);
        let w = Kmer { inner: self.inner, k: l, hist: Ghost(target) };
        proof {
            assert forall|i: int| 0 <= i < l implies w@[i] == target[i] by {
                assert(self@[self.k - l + i] == sym_at(self.inner, l - 1 - i));
            }
            assert(w@ =~= target);
            lemma_round_trip(l as nat, target);
        }
        Ok(w)
    }

    /// Joins two windows: the result holds this window's bases followed by
    /// the other's. A combined length above 32 is rejected.
    pub fn join(&self, other: &Kmer) -> (r: Result<Kmer, Error>)
        requires
            self.wf(),
            other.wf(),
        ensures
            (self.size_spec() + other.size_spec() <= 32) <==> r is Ok,
            r matches Ok(w) ==> w.wf() && w.size_spec() == self.size_spec() + other.size_spec()
                && w@ == self@ + other@,
            r is Err ==> r == Err::<Kmer, Error>(Error::InvalidCapacity),
    {
        if other.k > 32 - self.k {
            return Err(Error::InvalidCapacity);
        }
        let om = other.as_masked();
        proof {
            lemma_encode_view(other.inner, other.k as int);
        }
        let inner = (self.inner << ((2 * other.k) as u64)) | om;
        let k = self.k + other.k;
        let ghost target = self@ + other@;
        let w = Kmer { inner, k, hist: Ghost(target) };
        proof {
            let x = self.inner;
            let y = other.inner;
            let l = other.k as u64;
            assert forall|i: int| 0 <= i < k implies w@[i] == target[i] by {
                lemma_join_bits(x, y, l, (k - 1 - i) as u64);
            }
            assert(w@ =~= target);
            lemma_round_trip(k as nat, target);
        }
        Ok(w)
    }
}

/// Below the joined region the combined word reads the second window's
/// groups; above it, the first window's.
proof fn lemma_join_bits(x: u64, y: u64, l: u64, p: u64)
    by (bit_vector)
    requires
        1 <= l <= 31,
        p <= 31,
    ensures
        p < l ==> (((x << ((2 * l) as u64)) | (y & (u64::MAX >> ((64 - 2 * l) as u64)))) >> ((2
            * p) as u64)) & 3 == (y >> ((2 * p) as u64)) & 3,
        l <= p ==> (((x << ((2 * l) as u64)) | (y & (u64::MAX >> ((64 - 2 * l) as u64)))) >> ((2
            * p) as u64)) & 3 == (x >> ((2 * (p - l)) as u64)) & 3,
{
}

/// Pushing one base turns the window a word holds into the same window
/// shifted by one: the oldest base leaves, the new base enters.
proof fn lemma_push_view(x: u64, c: u64, k: int)
    requires
        1 <= k <= 32,
        c < 4,
    ensures
        win_view((x << 2) | c, k) == push_step(win_view(x, k), base_from_code(c)),
{
    let y = (x << 2) | c;
    assert forall|i: int| 0 <= i < k implies win_view(y, k)[i] == push_step(
        win_view(x, k),
        base_from_code(c),
    )[i] by {
        lemma_push_bits(x, c, (k - 1 - i) as u64);
    }
    assert(win_view(y, k) =~= push_step(win_view(x, k), base_from_code(c)));
}

} // verus!
