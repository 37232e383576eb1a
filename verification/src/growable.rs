//! K-mers of arbitrary length in a fixed bit buffer, O(k) update.
//!
//! The fallback representation: a window of `k` bases in a `2 * k`-bit
//! buffer, newest base in the lowest 2-bit slot. A push shifts the whole
//! buffer one slot toward the high end — discarding the top slot, the
//! oldest base — and writes the new base's code into the low slot, exactly
//! the FIFO the inline representation implements with an integer shift.

use vstd::prelude::*;

use vstd::arithmetic::power2::lemma2_to64;

use crate::Error;
use crate::base::Base;
use crate::base::base_from_code;
use crate::base::code_spec;
use crate::bitbuf::GrowBuf;
use crate::bitbuf::bit_of;
use crate::bitbuf::vec_len;
use crate::bitbuf::vec_load;
use crate::bitbuf::vec_store;
use crate::bitbuf::vec_zeros;
use crate::model::init_window;
use crate::model::push_step;
use crate::model::slot_at;
use crate::model::window_after;
use crate::model::lemma_pair_bits;

verus! {

/// A fixed-size k-mer of arbitrary length in a flat bit buffer.
pub struct Kmer {
    store: GrowBuf,
    hist: Ghost<Seq<Base>>,
}

impl View for Kmer {
    type V = Seq<Base>;

    closed spec fn view(&self) -> Seq<Base> {
        Seq::new(
            self.size_spec(),
            |i: int|
                slot_at(
                    crate::bitbuf::vec_bits(self.store),
                    self.size_spec() as int - 1 - i,
                ),
        )
    }
}

impl Kmer {
    /// The window length: the buffer holds two bits per base.
    pub closed spec fn size_spec(&self) -> nat {
        crate::bitbuf::vec_bits(self.store).len() / 2
    }

    /// Every base pushed since construction, in push order.
    pub closed spec fn history(&self) -> Seq<Base> {
        self.hist@
    }

    /// The number of bits in the backing buffer.
    pub closed spec fn bits_len(&self) -> nat {
        crate::bitbuf::vec_bits(self.store).len()
    }

    /// A well-formed window has an even, nonempty buffer and holds exactly
    /// the window its push history determines.
    pub open spec fn wf(&self) -> bool {
        &&& self.size_spec() >= 1
        &&& self.bits_len() == 2 * self.size_spec()
        &&& self@ == window_after(self.size_spec(), self.history())
    }

    /// Creates a window of `k` bases, every base initialized to the base
    /// whose code is zero; a zero length is rejected.
    pub fn new(k: usize) -> (r: Result<Kmer, Error>)
        requires
            k <= usize::MAX / 16,
        ensures
            (1 <= k) <==> r is Ok,
            r matches Ok(w) ==> w.wf() && w.size_spec() == k && w.history() == Seq::<
                Base,
            >::empty() && w@ == init_window(k as nat),
            r is Err ==> r == Err::<Kmer, Error>(Error::InvalidCapacity),
    {
        if k == 0 {
            return Err(Error::InvalidCapacity);
        }
        let store = vec_zeros(2 * k);
        let w = Kmer { store, hist: Ghost(Seq::empty()) };
        proof {
            assert(w@ =~= init_window(k as nat));
        }
        Ok(w)
    }

    /// The window length.
    pub fn size(&self) -> (r: usize)
        ensures
            r == self.size_spec(),
    {
        vec_len(&self.store) / 2
    }

    /// Pushes a base: every slot moves one place toward the high end, the
    /// top slot — the oldest base — falls off, and the new base's code is
    /// written into the low slot.
    pub fn push(&mut self, base: Base)
        requires
            old(self).wf(),
        ensures
            final(self).wf(),
            final(self).size_spec() == old(self).size_spec(),
            final(self)@ == push_step(old(self)@, base),
            final(self).history() == old(self).history().push(base),
    {
        let ghost oldbits = crate::bitbuf::vec_bits(self.store);
        let ghost k_spec = old(self).size_spec() as int;
        let k = vec_len(&self.store) / 2;
        let mut j = k - 1;
        while j >= 1
            invariant
                j <= k - 1,
                k == k_spec,
                1 <= k_spec,
                2 * k <= usize::MAX,
                self.history() == old(self).history(),
                oldbits.len() == 2 * k_spec,
                crate::bitbuf::vec_bits(self.store).len() == 2 * k_spec,
                forall|p: int|
                    0 <= p < 2 * (j + 1) ==> crate::bitbuf::vec_bits(self.store)[p] == oldbits[p],
                forall|p: int|
                    2 * (j + 1) <= p < 2 * k_spec ==> crate::bitbuf::vec_bits(self.store)[p]
                        == oldbits[p - 2],
            decreases j,
        {
            let c = vec_load(&self.store, 2 * (j - 1), 2);
            proof {
                lemma2_to64();
            }
            vec_store(&mut self.store, 2 * j, 2, c);
            proof {
                lemma_pair_bits(c);
            }
            j -= 1;
        }
        let c = base.to_code();
        vec_store(&mut self.store, 0, 2, c);
        self.hist = Ghost(self.hist@.push(base));
        proof {
            let bits = crate::bitbuf::vec_bits(self.store);
            lemma_pair_bits(c);
            assert(slot_at(bits, 0) == base) by {
                assert(bits[0] == bit_of(c, 0));
                assert(bits[1] == bit_of(c, 1));
                assert(base_from_code(code_spec(base)) == base);
            }
            assert forall|i: int|
                0 <= i < k_spec implies self@[i] == push_step(old(self)@, base)[i] by {
                let t = k_spec - 1 - i;
                if i == k_spec - 1 {
                    assert(self@[i] == slot_at(bits, 0));
                } else {
                    assert(bits[2 * t] == oldbits[2 * t - 2]);
                    assert(bits[2 * t + 1] == oldbits[2 * t - 1]);
                    assert(slot_at(bits, t) == slot_at(oldbits, t - 1));
                    assert(old(self)@[i + 1] == slot_at(oldbits, t - 1));
                }
            }
            assert(self@ =~= push_step(old(self)@, base));
            assert(self.hist@.drop_last() =~= old(self).history());
        }
    }

    /// Reads the window back: exactly `size()` bases, oldest first.
    pub fn bases(&self) -> (r: Vec<Base>)
        requires
            self.wf(),
        ensures
            r@ == self@,
    {
        let k = vec_len(&self.store) / 2;
        let mut out: Vec<Base> = Vec::new();
        let mut i: usize = 0;
        while i < k
            invariant
                i <= k,
                self.wf(),
                k == self.size_spec(),
                2 * k <= usize::MAX,
                out@ =~= self@.subrange(0, i as int),
            decreases k - i,
        {
            let c = vec_load(&self.store, 2 * (k - 1 - i), 2);
            proof {
                lemma2_to64();
                lemma_pair_bits(c);
                assert(self@[i as int] == slot_at(
                    crate::bitbuf::vec_bits(self.store),
                    k - 1 - i,
                ));
            }
            out.push(Base::from_u8_unchecked(c));
            proof {
                assert(out@ =~= self@.subrange(0, i + 1));
            }
            i += 1;
        }
        proof {
            assert(out@ =~= self@);
        }
        out
    }
}

} // verus!
