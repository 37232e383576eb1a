//! An append-only base sequence and its sliding k-mer windows.
//!
//! A `Sequence` grows two bits at a time in a growable bit buffer. From it,
//! `kmers` derives every window of length `k` in order: it seeds an inline
//! window with the first `k - 1` bases, then each step of the iterator
//! pushes one more base and yields the window that ends there — exactly
//! `max(n - k + 1, 0)` windows over a sequence of `n` bases. Every yielded
//! window is an independent value snapshot.

use vstd::prelude::*;

use vstd::arithmetic::power2::lemma2_to64;

use crate::Error;
use crate::base::Base;
use crate::base::base_from_code;
use crate::base::code_spec;
use crate::bitbuf::GrowBuf;
use crate::bitbuf::vec_len;
use crate::bitbuf::vec_load;
use crate::bitbuf::vec_new;
use crate::bitbuf::vec_push;
use crate::model::lemma_pair_bits;
use crate::model::lemma_pair_split;
use crate::model::lemma_window_after_full;
use crate::model::slot_at;
use crate::model::windows_of;
use crate::small;

verus! {

/// An append-only sequence of bases, packed two bits per base.
pub struct Sequence {
    store: GrowBuf,
}

impl View for Sequence {
    type V = Seq<Base>;

    closed spec fn view(&self) -> Seq<Base> {
        Seq::new(
            crate::bitbuf::vec_bits(self.store).len() / 2,
            |i: int| slot_at(crate::bitbuf::vec_bits(self.store), i),
        )
    }
}

impl Sequence {
    /// A well-formed sequence holds an even number of bits: two per base.
    pub open spec fn wf(&self) -> bool {
        self.bits_len() == 2 * self@.len()
    }

    /// The number of bits in the backing buffer.
    pub closed spec fn bits_len(&self) -> nat {
        crate::bitbuf::vec_bits(self.store).len()
    }

    /// Creates an empty sequence.
    pub fn new() -> (r: Sequence)
        ensures
            r.wf(),
            r@ == Seq::<Base>::empty(),
    {
        let r = Sequence { store: vec_new() };
        proof {
            assert(r@ =~= Seq::<Base>::empty());
        }
        r
    }

    /// Appends a base at the end of the sequence; earlier bases never move.
    pub fn push(&mut self, base: Base)
        requires
            old(self).wf(),
            old(self)@.len() < usize::MAX / 16,
        ensures
            final(self).wf(),
            final(self)@ == old(self)@.push(base),
    {
        let c = base.to_code();
        vec_push(&mut self.store, c & 1 == 1);
        vec_push(&mut self.store, (c >> 1) & 1 == 1);
        proof {
            let bits = crate::bitbuf::vec_bits(self.store);
            let n = old(self)@.len() as int;
            lemma_pair_split(c);
            assert(slot_at(bits, n) == base) by {
                assert(bits[2 * n] == (c & 1 == 1));
                assert(bits[2 * n + 1] == ((c >> 1) & 1 == 1));
                assert(base_from_code(code_spec(base)) == base);
            }
            assert forall|i: int| 0 <= i < n implies self@[i] == old(self)@[i] by {
                assert(bits[2 * i] == crate::bitbuf::vec_bits(old(self).store)[2 * i]);
                assert(bits[2 * i + 1] == crate::bitbuf::vec_bits(old(self).store)[2 * i + 1]);
            }
            assert(self@ =~= old(self)@.push(base));
        }
    }

    /// Reads the whole sequence back, in push order.
    fn read_all(&self) -> (r: Vec<Base>)
        requires
            self.wf(),
        ensures
            r@ == self@,
    {
        let n = vec_len(&self.store) / 2;
        let mut out: Vec<Base> = Vec::new();
        let mut i: usize = 0;
        while i < n
            invariant
                i <= n,
                self.wf(),
                n == self@.len(),
                2 * n <= usize::MAX,
                out@ =~= self@.subrange(0, i as int),
            decreases n - i,
        {
            let c = vec_load(&self.store, 2 * i, 2);
            proof {
                lemma2_to64();
                lemma_pair_bits(c);
                assert(self@[i as int] == slot_at(crate::bitbuf::vec_bits(self.store), i as int));
            }
            out.push(Base::from_u8_unchecked(c));
            proof {
                assert(out@ =~= self@.subrange(0, i + 1));
            }
            i += 1;
        }
        proof {
            assert(out@ =~= self@);
        }
        out
    }

    /// Derives the sliding windows of length `k`: an iterator that yields,
    /// in order, one inline window per start position — exactly
    /// `max(n - k + 1, 0)` windows over `n` bases, window `i` holding the
    /// bases `[i, i + k)`. Lengths outside `1 ..= 32` are rejected; a
    /// sequence shorter than `k` yields no window and is no error.
    pub fn kmers(&self, k: usize) -> (r: Result<SmallKmerIter, Error>)
        requires
            self.wf(),
        ensures
            (1 <= k <= 32) <==> r is Ok,
            r matches Ok(it) ==> it.wf() && it.src() == self@ && it.k_spec() == k
                && it.remaining() == windows_of(self@, k as nat).len(),
            r is Err ==> r == Err::<SmallKmerIter, Error>(Error::InvalidCapacity),
    {
        if k == 0 || k > 32 {
            return Err(Error::InvalidCapacity);
        }
        let bases = self.read_all();
        let kmer = match small::Kmer::new(k) {
            Ok(w) => w,
            Err(e) => {
                return Err(e);
            },
        };
        let mut it = SmallKmerIter { bases, kmer, pos: 0 };
        let seed = if it.bases.len() < k - 1 {
            it.bases.len()
        } else {
            k - 1
        };
        while it.pos < seed
            invariant
                it.pos <= seed,
                seed <= it.bases@.len(),
                seed <= k - 1,
                1 <= k <= 32,
                it.kmer.wf(),
                it.kmer.size_spec() == k,
                it.kmer.history() == it.bases@.subrange(0, it.pos as int),
                it.bases@ == self@,
            decreases seed - it.pos,
        {
            let b = it.bases[it.pos];
            it.kmer.push(b);
            proof {
                assert(it.kmer.history() =~= it.bases@.subrange(0, it.pos + 1));
            }
            it.pos += 1;
        }
        Ok(it)
    }
}

/// A lazy walk over the sliding windows of a sequence: each call of `next`
/// pushes one more base and yields the window of the last `k` bases, a
/// value snapshot independent of later calls.
pub struct SmallKmerIter {
    bases: Vec<Base>,
    kmer: small::Kmer,
    pos: usize,
}

impl SmallKmerIter {
    /// The bases the iterator walks over.
    pub closed spec fn src(&self) -> Seq<Base> {
        self.bases@
    }

    /// The window length.
    pub closed spec fn k_spec(&self) -> nat {
        self.kmer.size_spec()
    }

    /// How many bases have been consumed: the first `k - 1` at
    /// construction, then one per yielded window.
    pub closed spec fn pos_spec(&self) -> int {
        self.pos as int
    }

    /// The number of windows still to be yielded.
    pub open spec fn remaining(&self) -> nat {
        (self.src().len() - self.pos_spec()) as nat
    }

    /// A well-formed iterator carries a well-formed window holding the last
    /// `k` of the consumed bases, and has consumed at least the seed.
    pub closed spec fn wf(&self) -> bool {
        &&& self.kmer.wf()
        &&& 1 <= self.k_spec() <= 32
        &&& self.kmer.history() == self.src().subrange(0, self.pos_spec())
        &&& self.pos_spec() <= self.src().len()
        &&& self.pos_spec() >= self.k_spec() - 1 || self.pos_spec() == self.src().len()
        &&& self.pos_spec() >= 0
    }

    /// The number of windows still to come.
    pub fn len(&self) -> (r: usize)
        requires
            self.wf(),
        ensures
            r == self.remaining(),
    {
        self.bases.len() - self.pos
    }

    /// Yields the next window, or `None` when every window has been
    /// yielded: window `i` holds the bases `[i, i + k)` of the sequence.
    pub fn next(&mut self) -> (r: Option<small::Kmer>)
        requires
            old(self).wf(),
        ensures
            final(self).wf(),
            final(self).src() == old(self).src(),
            final(self).k_spec() == old(self).k_spec(),
            (r is Some) <==> old(self).remaining() > 0,
            r is None ==> final(self).pos_spec() == old(self).pos_spec(),
            r matches Some(w) ==> {
                &&& final(self).pos_spec() == old(self).pos_spec() + 1
                &&& w.wf()
                &&& w.size_spec() == old(self).k_spec()
                &&& w@ == old(self).src().subrange(
                    old(self).pos_spec() + 1 - old(self).k_spec(),
                    old(self).pos_spec() + 1,
                )
                &&& w@ == windows_of(old(self).src(), old(self).k_spec())[old(self).pos_spec() + 1
                    - old(self).k_spec()]
            },
    {
        if self.pos >= self.bases.len() {
            return None;
        }
        let b = self.bases[self.pos];
        self.kmer.push(b);
        self.pos += 1;
        proof {
            let k = self.k_spec();
            let n = self.src().len() as int;
            let p = self.pos as int;
            assert(self.kmer.history() =~= self.src().subrange(0, p));
            lemma_window_after_full(k, self.src().subrange(0, p));
            assert(self.src().subrange(0, p).subrange(p - k, p) =~= self.src().subrange(p - k, p));
            assert(windows_of(self.src(), k)[p - k] == self.src().subrange(p - k, p));
        }
        Some(self.kmer)
    }
}

} // verus!
