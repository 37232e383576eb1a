use helicase::Base;
use helicase::Error;
use helicase::Sequence;
use helicase::growable;
use helicase::small;
use helicase::unbounded;

fn cycle(n: usize) -> Vec<Base> {
    let table = [Base::C, Base::A, Base::T, Base::G];
    (0..n).map(|i| table[(i * 7 + 3) % 4]).collect()
}

#[test]
fn round_trip_every_inline_length() {
    for k in 1..=32 {
        let input = cycle(k);
        let mut kmer = small::Kmer::new(k).unwrap();
        for &b in &input {
            kmer.push(b);
        }
        assert_eq!(kmer.bases(), input);
        let built = small::Kmer::from_bases(&input).unwrap();
        assert_eq!(built.bases(), input);
        assert_eq!(built.as_masked(), kmer.as_masked());
    }
}

#[test]
fn round_trip_large_lengths() {
    for k in [33, 47, 100] {
        let input = cycle(k);
        let mut circ = unbounded::Kmer::new(k).unwrap();
        let mut flat = growable::Kmer::new(k).unwrap();
        for &b in &input {
            circ.push(b);
            flat.push(b);
        }
        assert_eq!(circ.bases(), input);
        assert_eq!(flat.bases(), input);
    }
}

#[test]
fn masked_value_ignores_older_pushes() {
    let mut kmer = small::Kmer::new(4).unwrap();
    let history = cycle(11);
    for &b in &history {
        kmer.push(b);
    }
    let last_four = small::Kmer::from_bases(&history[7..]).unwrap();
    assert_eq!(kmer.as_masked(), last_four.as_masked());
    assert_eq!(kmer.bases(), last_four.bases());

    // More pushes of the same suffix give the same masked value again.
    let mut longer = small::Kmer::new(4).unwrap();
    for _ in 0..5 {
        longer.push(Base::G);
    }
    for &b in &history[7..] {
        longer.push(b);
    }
    assert_eq!(longer.as_masked(), kmer.as_masked());
}

#[test]
fn representations_agree_at_every_point() {
    for k in [1, 2, 7, 32] {
        let mut inline = small::Kmer::new(k).unwrap();
        let mut circ = unbounded::Kmer::new(k).unwrap();
        let mut flat = growable::Kmer::new(k).unwrap();
        assert_eq!(inline.bases(), circ.bases());
        assert_eq!(circ.bases(), flat.bases());
        for b in cycle(3 * k + 2) {
            inline.push(b);
            circ.push(b);
            flat.push(b);
            assert_eq!(inline.bases(), circ.bases());
            assert_eq!(circ.bases(), flat.bases());
        }
    }
}

#[test]
fn shrink_keeps_the_newest_bases() {
    let history = cycle(9);
    let mut kmer = small::Kmer::new(6).unwrap();
    for &b in &history {
        kmer.push(b);
    }
    let full = kmer.bases();
    for l in 1..=6 {
        let shrunk = kmer.shrink_to(l).unwrap();
        assert_eq!(shrunk.bases(), full[6 - l..]);
    }
}

#[test]
fn sliding_windows_cover_every_position() {
    let input = cycle(10);
    let mut seq = Sequence::new();
    for &b in &input {
        seq.push(b);
    }
    let mut windows = seq.kmers(3).unwrap();
    assert_eq!(windows.len(), 8);
    for i in 0..8 {
        let w = windows.next().unwrap();
        assert_eq!(w.bases(), input[i..i + 3]);
    }
    assert!(windows.next().is_none());
    assert_eq!(windows.len(), 0);
}

#[test]
fn packed_value_of_aagt() {
    let mut kmer = small::Kmer::new(4).unwrap();
    kmer.push(Base::A);
    kmer.push(Base::A);
    kmer.push(Base::G);
    kmer.push(Base::T);
    assert_eq!(kmer.as_masked(), 0b01_01_11_10);
    assert_eq!(kmer.bases(), vec![Base::A, Base::A, Base::G, Base::T]);
}

#[test]
fn one_byte_window() {
    let kmer = unbounded::Kmer::from_bytes(&[0b00011011]).unwrap();
    assert_eq!(kmer.size(), 4);
    assert_eq!(kmer.bases(), vec![Base::C, Base::A, Base::T, Base::G]);
}

#[test]
fn short_sequence_yields_no_window() {
    let mut seq = Sequence::new();
    seq.push(Base::A);
    seq.push(Base::T);
    let mut windows = seq.kmers(5).unwrap();
    assert_eq!(windows.len(), 0);
    assert!(windows.next().is_none());

    // A sequence of exactly k - 1 bases yields none either.
    let mut seq2 = Sequence::new();
    for b in cycle(4) {
        seq2.push(b);
    }
    let mut windows2 = seq2.kmers(5).unwrap();
    assert_eq!(windows2.len(), 0);
    assert!(windows2.next().is_none());
}

#[test]
fn invalid_capacities_are_rejected() {
    assert!(matches!(small::Kmer::new(0), Err(Error::InvalidCapacity)));
    assert!(matches!(small::Kmer::new(33), Err(Error::InvalidCapacity)));
    assert!(matches!(
        small::Kmer::from_bases(&[]),
        Err(Error::InvalidCapacity)
    ));
    assert!(matches!(
        unbounded::Kmer::new(0),
        Err(Error::InvalidCapacity)
    ));
    assert!(matches!(
        unbounded::Kmer::from_bytes(&[]),
        Err(Error::InvalidCapacity)
    ));
    assert!(matches!(growable::Kmer::new(0), Err(Error::InvalidCapacity)));

    let kmer = small::Kmer::new(4).unwrap();
    assert!(matches!(kmer.shrink_to(0), Err(Error::InvalidCapacity)));
    assert!(matches!(kmer.shrink_to(5), Err(Error::InvalidCapacity)));
    assert!(kmer.shrink_to(4).is_ok());

    let wide = small::Kmer::new(30).unwrap();
    let other = small::Kmer::new(3).unwrap();
    assert!(matches!(wide.join(&other), Err(Error::InvalidCapacity)));
    let pair = small::Kmer::new(2).unwrap();
    assert!(wide.join(&pair).is_ok());

    let seq = Sequence::new();
    assert!(matches!(seq.kmers(0), Err(Error::InvalidCapacity)));
    assert!(matches!(seq.kmers(33), Err(Error::InvalidCapacity)));
}

#[test]
fn numeric_codes_round_trip() {
    for c in 0u8..4 {
        let base = Base::from_code(c).unwrap();
        assert_eq!(base.to_code(), c);
    }
    assert_eq!(Base::from_code(4), Err(Error::OutOfRange));
    assert_eq!(Base::from_code(255), Err(Error::OutOfRange));
}

#[test]
fn circular_window_wraps_many_times() {
    // Push far more bases than the window holds so that `start` wraps the
    // buffer several times, and compare against the flat representation.
    let k = 5;
    let input = cycle(4 * k + 3);
    let mut circ = unbounded::Kmer::new(k).unwrap();
    let mut flat = growable::Kmer::new(k).unwrap();
    for &b in &input {
        circ.push(b);
        flat.push(b);
    }
    assert_eq!(circ.bases(), flat.bases());
    assert_eq!(circ.bases(), input[input.len() - k..]);
}

#[test]
fn growable_starts_zeroed() {
    let kmer = growable::Kmer::new(12).unwrap();
    assert_eq!(kmer.size(), 12);
    assert_eq!(kmer.bases(), vec![Base::C; 12]);
}

#[test]
fn windows_are_value_snapshots() {
    let input = cycle(6);
    let mut seq = Sequence::new();
    for &b in &input {
        seq.push(b);
    }
    let mut windows = seq.kmers(2).unwrap();
    let first = windows.next().unwrap();
    let second = windows.next().unwrap();
    // The sequence keeps growing, but the iterator and the windows already
    // taken are value snapshots and do not observe the later pushes.
    seq.push(Base::G);
    seq.push(Base::G);
    assert_eq!(first.bases(), input[0..2]);
    assert_eq!(second.bases(), input[1..3]);
    assert_eq!(windows.len(), input.len() - 2 - 1);
    assert_eq!(first.as_masked(), small::Kmer::from_bases(&input[0..2]).unwrap().as_masked());
}
