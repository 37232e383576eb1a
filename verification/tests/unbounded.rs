use helicase::Base;
use helicase::unbounded::Kmer;

#[test]
fn unbounded_new() {
    let kmer = Kmer::new(47).unwrap();
    assert_eq!(kmer.size(), 47);
    assert_eq!(kmer.bases(), vec![Base::C; 47]);
}

#[test]
fn push() {
    let mut kmer = Kmer::new(1).unwrap();
    kmer.push(Base::A);
    kmer.push(Base::T);

    assert_eq!(kmer.size(), 1);
    assert_eq!(kmer.bases(), vec![Base::T]);
}

#[test]
fn bases() {
    let mut kmer = Kmer::new(7).unwrap();
    for _ in 0..3 {
        kmer.push(Base::A);
        kmer.push(Base::T);
    }
    kmer.push(Base::C);
    kmer.push(Base::G);

    let bases: Vec<Base> = kmer.bases();
    assert_eq!(
        bases,
        vec![
            Base::T,
            Base::A,
            Base::T,
            Base::A,
            Base::T,
            Base::C,
            Base::G
        ]
    );
}

#[test]
fn from_bytes() {
    let bytes = [0x1B, 0xAA, 0xF0, 0x0F, 0xCC, 0xFF, 0x00, 0x3C, 0xCF];
    let kmer = Kmer::from_bytes(&bytes).unwrap();
    assert_eq!(kmer.size(), 9 * 4);
    assert_eq!(
        kmer.bases()[..8],
        vec![
            Base::C,
            Base::A,
            Base::T,
            Base::G,
            Base::T,
            Base::T,
            Base::T,
            Base::T
        ][..]
    );
    assert_eq!(
        kmer.bases()[28..],
        vec![
            Base::C,
            Base::G,
            Base::G,
            Base::C,
            Base::G,
            Base::C,
            Base::G,
            Base::G
        ][..]
    );
}
