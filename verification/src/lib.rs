//! Compact k-mer encodings over the four-letter nucleotide alphabet.
//!
//! A *window* (k-mer) is an ordered, fixed-length FIFO of exactly `K`
//! nucleotide bases, each base packed into two bits. The crate offers three
//! representations of the same logical window — an inline integer form for
//! `K <= 32` ([`small`]), a fixed bit-buffer form for arbitrary `K`
//! ([`growable`]), and a circular bit-buffer form with O(1) update
//! ([`unbounded`]) — together with an append-only base sequence
//! ([`Sequence`]) that derives consecutive windows by sliding.
//!
//! All three representations share one mathematical model: a window is a
//! sequence of bases, oldest first, determined by the push history alone.
//! Each `push` contract states the same FIFO step over that model, so the
//! representations agree with each other at every point of any push
//! sequence — see [`lemma_cross_representation`].

use vstd::prelude::*;

mod base;
mod bitbuf;
pub mod growable;
mod model;
mod sequence;
pub mod small;
pub mod unbounded;

pub use base::Base;
pub use base::ascii_to_base;
pub use base::base_from_code;
pub use base::base_to_ascii;
pub use base::code_spec;
pub use model::bytes_to_syms;
pub use model::encode_seq;
pub use model::init_window;
pub use model::lemma_masking_stability;
pub use model::lemma_round_trip;
pub use model::lemma_window_after_full;
pub use model::lemma_window_after_len;
pub use model::lemma_window_after_partial;
pub use model::lemma_window_suffix;
pub use model::push_step;
pub use model::window_after;
pub use model::windows_of;
pub use sequence::Sequence;
pub use sequence::SmallKmerIter;

verus! {

/// Failures of window construction and base decoding.
#[derive(Debug, Clone, Copy, PartialEq, Eq, Structural)]
pub enum Error {
    /// A requested window length is zero, exceeds the representation's
    /// maximum, or a resize target exceeds what the source window holds.
    InvalidCapacity,
    /// A raw numeric code lies outside the four-value alphabet.
    OutOfRange,
}

/// Cross-representation equivalence: windows of the same length built by
/// the same push history hold the same bases, whichever representation
/// backs them — each representation's window is determined by its length
/// and history alone.
pub proof fn lemma_cross_representation(
    a: &small::Kmer,
    b: &unbounded::Kmer,
    c: &growable::Kmer,
)
    requires
        a.wf(),
        b.wf(),
        c.wf(),
        a.size_spec() == b.size_spec(),
        b.size_spec() == c.size_spec(),
        a.history() == b.history(),
        b.history() == c.history(),
    ensures
        a@ == b@,
        b@ == c@,
{
}

} // verus!
