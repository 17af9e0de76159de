use rcmd_suit::agreement::{package_body, parse_body};
use rcmd_suit::bytes::TOKEN_BEGIN;
use rcmd_suit::subpackage::DefSubpackage;

#[test]
fn package_in_pieces_comes_out_whole() {
    let p = package_body(b"hello", 47, 0);
    let mut s = DefSubpackage::new();
    assert_eq!(s.subpackage(&p[..4], 4), None);
    assert!(!s.need_check());
    let body = s.subpackage(&p[4..], p.len() - 4).unwrap();
    assert_eq!(body, p[1..p.len() - 1].to_vec());
    let m = parse_body(&body).unwrap();
    assert_eq!(m.msg, b"hello");
    assert_eq!(m.ext, 47);
    assert!(!s.need_check());
}

#[test]
fn two_packages_in_one_read() {
    let mut d = package_body(b"a", 1, 0);
    let q = package_body(b"bc", 2, 0);
    d.extend_from_slice(&q);
    let mut s = DefSubpackage::new();
    let first = s.subpackage(&d, d.len()).unwrap();
    assert_eq!(parse_body(&first).unwrap().msg, b"a");
    assert!(s.need_check());
    let second = s.subpackage(&[], 0).unwrap();
    assert_eq!(parse_body(&second).unwrap().msg, b"bc");
    assert!(!s.need_check());
}

#[test]
fn garbage_and_broken_packages_are_dropped() {
    let mut d = vec![7u8, 7, 7];
    d.extend_from_slice(&[TOKEN_BEGIN, 0, 0, 0, 12, 0, 1, 0x1f, 0, 0, 0, 0, 9]);
    let good = package_body(b"ok", 5, 0);
    d.extend_from_slice(&good);
    let mut s = DefSubpackage::new();
    // the bytes before the begin token go, then the package that does not close
    assert_eq!(s.subpackage(&d, d.len()), None);
    assert!(s.need_check());
    let mut out = None;
    while s.need_check() && out.is_none() {
        out = s.subpackage(&[], 0);
    }
    assert_eq!(parse_body(&out.unwrap()).unwrap().msg, b"ok");
}

#[test]
fn a_turn_reads_at_most_one_package() {
    let mut d = package_body(b"a", 1, 0);
    d.extend_from_slice(&package_body(b"bc", 2, 0));
    let mut s = DefSubpackage::new();
    let first = s.read_step(Some(&d)).unwrap();
    assert_eq!(parse_body(&first).unwrap().msg, b"a");
    let second = s.read_step(None).unwrap();
    assert_eq!(parse_body(&second).unwrap().msg, b"bc");
    assert_eq!(s.read_step(None), None);
}

#[test]
fn a_turn_takes_a_second_step_after_dropping_bytes() {
    let mut d = vec![7u8, 7];
    d.extend_from_slice(&[TOKEN_BEGIN, 0, 0, 0, 3]);
    d.extend_from_slice(&package_body(b"ok", 5, 0));
    let mut s = DefSubpackage::new();
    // the first step drops the bytes before the begin token and the begin token whose
    // length field is too small; the second cuts out the package behind them
    let out = s.read_step(Some(&d));
    assert_eq!(s.read_step(None), None);
    assert_eq!(parse_body(&out.unwrap()).unwrap().msg, b"ok");
}
