use helicase::Base;
use helicase::small::Kmer;

#[test]
fn small_new() {
    for k in 1..=32 {
        assert_eq!(Kmer::new(k).unwrap().as_masked(), 0);
    }
}

#[test]
fn bases_simple() {
    let mut kmer = Kmer::new(5).unwrap();
    kmer.push(Base::A);
    kmer.push(Base::C);
    kmer.push(Base::G);
    kmer.push(Base::T);
    kmer.push(Base::A);

    let bases: Vec<Base> = kmer.bases();
    assert_eq!(bases, vec![Base::A, Base::C, Base::G, Base::T, Base::A]);
}

#[test]
fn bases_large() {
    let mut kmer = Kmer::new(23).unwrap();
    for _ in 0..10 {
        kmer.push(Base::A);
        kmer.push(Base::C);
    }

    for _ in 0..4 {
        kmer.push(Base::T);
    }

    // (A)CACACACACACACACACACTTTT

    let bases: Vec<Base> = kmer.bases();

    for i in 0..9 {
        assert_eq!(bases[i * 2], Base::C);
        assert_eq!(bases[i * 2 + 1], Base::A);
    }

    assert_eq!(bases[18], Base::C);

    assert_eq!(bases[19..23], vec![Base::T, Base::T, Base::T, Base::T][..]);
}

#[test]
fn convert() {
    let mut kmer = Kmer::new(5).unwrap();
    kmer.push(Base::A);
    kmer.push(Base::C);
    kmer.push(Base::G);
    kmer.push(Base::T);
    kmer.push(Base::A);

    let small = kmer.shrink_to(2).unwrap();
    let bases: Vec<Base> = small.bases();
    assert_eq!(bases, vec![Base::T, Base::A]);
}

#[test]
fn letters() {
    let mut kmer = Kmer::new(5).unwrap();
    kmer.push(Base::A);
    kmer.push(Base::C);
    kmer.push(Base::G);
    kmer.push(Base::T);
    kmer.push(Base::A);
    assert_eq!(kmer.letters(), b"ACGTA");
}

#[test]
fn into_masked() {
    let mut kmer: Kmer = Kmer::new(2).unwrap();
    kmer.push(Base::A);
    kmer.push(Base::A);
    assert_eq!(kmer.as_masked(), 0x05);
}

#[test]
fn join() {
    let mut kmer1 = Kmer::new(2).unwrap();
    kmer1.push(Base::A);
    kmer1.push(Base::C);
    let mut kmer2 = Kmer::new(2).unwrap();
    kmer2.push(Base::G);
    kmer2.push(Base::T);
    let kmer3 = kmer1.join(&kmer2).unwrap();
    let bases: Vec<Base> = kmer3.bases();
    assert_eq!(bases, vec![Base::A, Base::C, Base::G, Base::T]);
}
