use helicase::Base;
use helicase::Sequence;

#[test]
fn one_kmer() {
    let mut bases = Vec::new();
    let mut seq = Sequence::new();
    for _ in 0..11 {
        seq.push(Base::A);
        bases.push(Base::A);
        seq.push(Base::T);
        bases.push(Base::T);
    }
    seq.push(Base::C);
    bases.push(Base::C);

    let mut kmers = seq.kmers(23).unwrap();
    assert_eq!(kmers.len(), 1);
    let kmer = kmers.next().unwrap();
    assert!(kmers.next().is_none());

    let iter_bases: Vec<Base> = kmer.bases();
    assert_eq!(iter_bases, bases);
}
