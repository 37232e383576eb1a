use helicase::Base;

#[test]
fn from_u8() {
    assert_eq!(Base::from_u8_unchecked(0), Base::C);
    assert_eq!(Base::from_u8_unchecked(1), Base::A);
    assert_eq!(Base::from_u8_unchecked(2), Base::T);
    assert_eq!(Base::from_u8_unchecked(3), Base::G);
}

#[test]
fn ascii_round_trip() {
    assert_eq!(Base::C.to_ascii(), b'C');
    assert_eq!(Base::A.to_ascii(), b'A');
    assert_eq!(Base::T.to_ascii(), b'T');
    assert_eq!(Base::G.to_ascii(), b'G');
    for base in [Base::C, Base::A, Base::T, Base::G] {
        assert_eq!(Base::from_ascii(base.to_ascii()), Some(base));
    }
}

#[test]
fn from_ascii() {
    assert_eq!(Base::from_ascii(b'C'), Some(Base::C));
    assert_eq!(Base::from_ascii(b'c'), Some(Base::C));
    assert_eq!(Base::from_ascii(b'A'), Some(Base::A));
    assert_eq!(Base::from_ascii(b'a'), Some(Base::A));
    assert_eq!(Base::from_ascii(b'T'), Some(Base::T));
    assert_eq!(Base::from_ascii(b't'), Some(Base::T));
    assert_eq!(Base::from_ascii(b'G'), Some(Base::G));
    assert_eq!(Base::from_ascii(b'g'), Some(Base::G));
    assert_eq!(Base::from_ascii(b'X'), None);
}
