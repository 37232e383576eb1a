//! K-mers of arbitrary length with O(1) update: a circular bit buffer.
//!
//! The window's `2 * k` bits never shift. Instead a `start` offset marks
//! where the logically oldest base begins; a push overwrites the oldest
//! base's slot in place and moves `start` one slot down, wrapping from the
//! bottom back to the top. `start` is always an even offset in
//! `(0, 2 * k]`, and the buffer length is always even, so a 2-bit read
//! never straddles the wrap point.

use vstd::prelude::*;

use vstd::arithmetic::div_mod::lemma_mod_add_multiples_vanish;
use vstd::arithmetic::div_mod::lemma_small_mod;
use vstd::arithmetic::power2::lemma2_to64;

use crate::Error;
use crate::base::Base;
use crate::base::base_from_code;
use crate::base::code_spec;
use crate::bitbuf::BitBuf;
use crate::bitbuf::bit_of;
use crate::bitbuf::box_len;
use crate::bitbuf::box_load;
use crate::bitbuf::box_store;
use crate::bitbuf::box_zeros;
use crate::model::bytes_to_syms;
use crate::model::init_window;
use crate::model::lemma_pair_bits;
use crate::model::lemma_round_trip;
use crate::model::push_step;
use crate::model::slot_at;
use crate::model::window_after;

verus! {

/// A remainder in `[-m, m)` is itself when nonnegative and itself plus the
/// divisor when negative.
proof fn lemma_mod_in_range(a: int, m: int)
    requires
        0 < m,
        -m <= a < m,
    ensures
        a % m == if a >= 0 {
            a
        } else {
            a + m
        },
{
    if a >= 0 {
        lemma_small_mod(a as nat, m as nat);
    } else {
        lemma_mod_add_multiples_vanish(a, m);
        lemma_small_mod((a + m) as nat, m as nat);
    }
}

/// A fixed-size k-mer in a circular bit buffer, updated in O(1) whatever
/// its length.
pub struct Kmer {
    store: BitBuf,
    /// Bit offset just past the slot of the oldest base; always even and in
    /// `(0, len]`.
    start: usize,
    hist: Ghost<Seq<Base>>,
}

impl View for Kmer {
    type V = Seq<Base>;

    closed spec fn view(&self) -> Seq<Base> {
        Seq::new(
            self.size_spec(),
            |i: int|
                slot_at(
                    crate::bitbuf::box_bits(self.store),
                    (self.start as int / 2 - 1 - i) % (self.size_spec() as int),
                ),
        )
    }
}

impl Kmer {
    /// The window length: the buffer holds two bits per base.
    pub closed spec fn size_spec(&self) -> nat {
        crate::bitbuf::box_bits(self.store).len() / 2
    }

    /// Every base pushed since construction, in push order; a window built
    /// from bytes starts with the bases those bytes hold.
    pub closed spec fn history(&self) -> Seq<Base> {
        self.hist@
    }

    /// A well-formed window has an even, nonempty buffer, a `start` offset
    /// that is even and in `(0, len]`, and holds exactly the window its
    /// push history determines.
    pub open spec fn wf(&self) -> bool {
        &&& self.size_spec() >= 1
        &&& self.bits_len() == 2 * self.size_spec()
        &&& self.start_spec() % 2 == 0
        &&& 2 <= self.start_spec() <= self.bits_len()
        &&& self@ == window_after(self.size_spec(), self.history())
    }

    /// The number of bits in the backing buffer.
    pub closed spec fn bits_len(&self) -> nat {
        crate::bitbuf::box_bits(self.store).len()
    }

    /// The current start offset.
    pub closed spec fn start_spec(&self) -> int {
        self.start as int
    }

    /// Creates a window of `k` bases, every base initialized to the base
    /// whose code is zero; a zero length is rejected.
    pub fn new(k: usize) -> (r: Result<Kmer, Error>)
        requires
            k <= usize::MAX / 16,
        ensures
            (1 <= k) <==> r is Ok,
            r matches Ok(w) ==> w.wf() && w.size_spec() == k && w.history() == Seq::<
                Base,
            >::empty() && w@ == init_window(k as nat),
            r is Err ==> r == Err::<Kmer, Error>(Error::InvalidCapacity),
    {
        if k == 0 {
            return Err(Error::InvalidCapacity);
        }
        let store = box_zeros(2 * k);
        let w = Kmer { store, start: 2 * k, hist: Ghost(Seq::empty()) };
        proof {
            assert forall|i: int| 0 <= i < k implies w@[i] == Base::C by {
                lemma_mod_in_range(k - 1 - i, k as int);
            }
            assert(w@ =~= init_window(k as nat));
        }
        Ok(w)
    }

    /// Builds a window directly from packed bytes, four bases per byte: the
    /// first byte holds the oldest bases, most significant bits first. An
    /// empty byte string is rejected.
    pub fn from_bytes(bytes: &[u8]) -> (r: Result<Kmer, Error>)
        requires
            bytes@.len() <= usize::MAX / 64,
        ensures
            (1 <= bytes@.len()) <==> r is Ok,
            r matches Ok(w) ==> w.wf() && w.size_spec() == bytes@.len() * 4 && w.history()
                == bytes_to_syms(bytes@) && w@ == bytes_to_syms(bytes@),
            r is Err ==> r == Err::<Kmer, Error>(Error::InvalidCapacity),
    {
        let n = bytes.len();
        if n == 0 {
            return Err(Error::InvalidCapacity);
        }
        let mut store = box_zeros(8 * n);
        let mut m: usize = 0;
        while m < n
            invariant
                m <= n,
                1 <= n == bytes@.len() <= usize::MAX / 8,
                crate::bitbuf::box_bits(store).len() == 8 * n,
                forall|p: int|
                    0 <= p < 8 * m ==> crate::bitbuf::box_bits(store)[p] == bit_of(
                        bytes@[n - 1 - p / 8],
                        p % 8,
                    ),
            decreases n - m,
        {
            box_store(&mut store, 8 * m, 8, bytes[n - 1 - m]);
            proof {
                assert forall|p: int|
                    0 <= p < 8 * (m + 1) implies crate::bitbuf::box_bits(store)[p] == bit_of(
                    bytes@[n - 1 - p / 8],
                    p % 8,
                ) by {
                    if 8 * m <= p {
                        vstd::arithmetic::div_mod::lemma_fundamental_div_mod_converse_div(
                            p,
                            8,
                            m as int,
                            p - 8 * m,
                        );
                        vstd::arithmetic::div_mod::lemma_fundamental_div_mod_converse_mod(
                            p,
                            8,
                            m as int,
                            p - 8 * m,
                        );
                    }
                }
            }
            m += 1;
        }
        let w = Kmer { store, start: 8 * n, hist: Ghost(bytes_to_syms(bytes@)) };
        proof {
            let bits = crate::bitbuf::box_bits(w.store);
            let k = (n * 4) as int;
            assert forall|i: int| 0 <= i < k implies w@[i] == bytes_to_syms(bytes@)[i] by {
                lemma_mod_in_range(k - 1 - i, k);
                let j = k - 1 - i;
                let a = i / 4;
                let b = i % 4;
                vstd::arithmetic::div_mod::lemma_fundamental_div_mod(i, 4);
                assert(0 <= b < 4);
                assert(j == 4 * (n - 1 - a) + (3 - b));
                let q = n - 1 - a;
                vstd::arithmetic::div_mod::lemma_fundamental_div_mod_converse_div(
                    2 * j,
                    8,
                    q,
                    2 * (3 - b),
                );
                vstd::arithmetic::div_mod::lemma_fundamental_div_mod_converse_mod(
                    2 * j,
                    8,
                    q,
                    2 * (3 - b),
                );
                vstd::arithmetic::div_mod::lemma_fundamental_div_mod_converse_div(
                    2 * j + 1,
                    8,
                    q,
                    2 * (3 - b) + 1,
                );
                vstd::arithmetic::div_mod::lemma_fundamental_div_mod_converse_mod(
                    2 * j + 1,
                    8,
                    q,
                    2 * (3 - b) + 1,
                );
                let v = bytes@[a];
                assert(bits[2 * j] == bit_of(v, 2 * (3 - b)));
                assert(bits[2 * j + 1] == bit_of(v, 2 * (3 - b) + 1));
                lemma_byte_pair(v, (2 * (3 - b)) as u8);
                assert((2 * (3 - b)) as u8 as int == 2 * (3 - b));
            }
            assert(w@ =~= bytes_to_syms(bytes@));
            lemma_round_trip((n * 4) as nat, bytes_to_syms(bytes@));
        }
        Ok(w)
    }

    /// The window length.
    pub fn size(&self) -> (r: usize)
        ensures
            r == self.size_spec(),
    {
        box_len(&self.store) / 2
    }

    /// Pushes a base: the new base's code overwrites the slot of the oldest
    /// base, and `start` moves one slot down, wrapping from the bottom of
    /// the buffer back to its top. No other bit moves.
    pub fn push(&mut self, base: Base)
        requires
            old(self).wf(),
        ensures
            final(self).wf(),
            final(self).size_spec() == old(self).size_spec(),
            final(self)@ == push_step(old(self)@, base),
            final(self).history() == old(self).history().push(base),
    {
        let ghost oldbits = crate::bitbuf::box_bits(self.store);
        let ghost k = old(self).size_spec() as int;
        let ghost s = old(self).start as int / 2;
        let c = base.to_code();
        box_store(&mut self.store, self.start - 2, 2, c);
        let len = box_len(&self.store);
        if self.start == 2 {
            self.start = len;
        } else {
            self.start -= 2;
        }
        self.hist = Ghost(self.hist@.push(base));
        proof {
            let bits = crate::bitbuf::box_bits(self.store);
            let s2 = self.start as int / 2;
            assert(old(self).start as int == 2 * s);
            assert(s2 == if s == 1 {
                k
            } else {
                s - 1
            });
            lemma_pair_bits(c);
            assert(slot_at(bits, s - 1) == base) by {
                assert(bits[2 * (s - 1)] == bit_of(c, 0));
                assert(bits[2 * (s - 1) + 1] == bit_of(c, 1));
                assert(base_from_code(code_spec(base)) == base);
            }
            assert forall|i: int| 0 <= i < k implies self@[i] == push_step(old(self)@, base)[i] by {
                if i == k - 1 {
                    if s == 1 {
                        lemma_mod_in_range(0, k);
                    } else {
                        lemma_mod_in_range(s - 1 - k, k);
                    }
                    assert(self@[i] == slot_at(bits, s - 1));
                } else {
                    lemma_mod_in_range(s - 2 - i, k);
                    let j = if s - 2 - i >= 0 {
                        s - 2 - i
                    } else {
                        s - 2 - i + k
                    };
                    if s == 1 {
                        lemma_mod_in_range(k - 1 - i, k);
                    }
                    assert((s2 - 1 - i) % k == j);
                    assert(j != s - 1);
                    assert(bits[2 * j] == oldbits[2 * j]);
                    assert(bits[2 * j + 1] == oldbits[2 * j + 1]);
                    assert(slot_at(bits, j) == slot_at(oldbits, j));
                    lemma_mod_in_range(s - 1 - (i + 1), k);
                    assert(old(self)@[i + 1] == slot_at(oldbits, j));
                }
            }
            assert(self@ =~= push_step(old(self)@, base));
            assert(self.hist@.drop_last() =~= old(self).history());
        }
    }

    /// Reads the window back: exactly `size()` bases, oldest first, reading
    /// 2-bit slots from `start` downward with wraparound.
    pub fn bases(&self) -> (r: Vec<Base>)
        requires
            self.wf(),
        ensures
            r@ == self@,
    {
        let k = box_len(&self.store) / 2;
        let s = self.start / 2;
        let mut out: Vec<Base> = Vec::new();
        let mut i: usize = 0;
        while i < k
            invariant
                i <= k,
                self.wf(),
                k == self.size_spec(),
                2 * k <= usize::MAX,
                s == self.start_spec() / 2,
                1 <= s <= k,
                out@ =~= self@.subrange(0, i as int),
            decreases k - i,
        {
            let j = if i < s {
                s - 1 - i
            } else {
                s + k - 1 - i
            };
            let c = box_load(&self.store, 2 * j, 2);
            proof {
                lemma_mod_in_range(s - 1 - i, k as int);
                lemma2_to64();
                lemma_pair_bits(c);
                assert(self@[i as int] == slot_at(crate::bitbuf::box_bits(self.store), j as int));
                assert(base_from_code(c as u64) == self@[i as int]);
            }
            out.push(Base::from_u8_unchecked(c));
            proof {
                assert(out@ =~= self@.subrange(0, i + 1));
            }
            i += 1;
        }
        proof {
            assert(out@ =~= self@);
        }
        out
    }
}

/// Reading two adjacent bits of a byte as a pair reads the byte's 2-bit
/// field at that position.
proof fn lemma_byte_pair(v: u8, p: u8)
    by (bit_vector)
    requires
        p <= 6,
    ensures
        crate::model::pair_code((v >> p) & 1 == 1, (v >> ((p + 1) as u8)) & 1 == 1) == ((
        v as u64) >> (p as u64)) & 3,
{
}

} // verus!
