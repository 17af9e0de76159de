use rcmd_suit::agreement::{package_body, parse_body, DataTransform, DefParser, Message, Test2DataTransform, TestDataTransform};
use rcmd_suit::bytes::{TOKEN_BEGIN, TOKEN_END, TOKEN_MID, TOKEN_NORMAL};
use rcmd_suit::data_transform::DefCompress;

#[test]
fn package_layout() {
    let p = package_body(b"abc", 0x0102_0304, 7);
    assert_eq!(p, vec![TOKEN_BEGIN, 0, 0, 0, 13, 7, b'a', b'b', b'c', TOKEN_MID, 1, 2, 3, 4, TOKEN_END]);
}

#[test]
fn parse_reads_back_a_package() {
    let parser: DefParser<TestDataTransform> = DefParser::new();
    let p = parser.package(b"hello".to_vec(), 47, TOKEN_NORMAL);
    let body = p[1..p.len() - 1].to_vec();
    let m = parser.parse(&body).unwrap();
    assert_eq!(m.len as usize, body.len());
    assert_eq!(m.msg, b"hello");
    assert_eq!(m.ext, 47);
    assert_eq!(m.tag, TOKEN_NORMAL);
}

#[test]
fn parse_refuses_a_wrong_length_field() {
    let mut body = package_body(b"xy", 1, 0);
    body.remove(0);
    body.pop();
    body[3] = body[3] + 1;
    assert!(parse_body(&body).is_none());
}

#[test]
fn message_new_keeps_its_fields() {
    let d = [1u8, 2];
    let m = Message::new(12, &d, 5, 3);
    assert_eq!((m.len, m.msg, m.ext, m.tag), (12, &d[..], 5, 3));
}

#[test]
fn transforms_shift_the_fifth_byte() {
    let t = TestDataTransform {};
    assert_eq!(t.to(&[0, 0, 0, 0, 255, 9]), vec![0, 0, 0, 0, 0, 9]);
    assert_eq!(t.form(&[0, 0, 0, 0, 0, 9]), vec![0, 0, 0, 0, 255, 9]);
    let t2 = Test2DataTransform {};
    assert_eq!(t2.to(&[1, 2, 3, 4, 9]), vec![1, 2, 3, 4, 4]);
    assert_eq!(t2.form(&[1, 2, 3, 4, 4]), vec![1, 2, 3, 4, 8]);
}

#[test]
fn transformed_package_parses_back() {
    let mut parser: DefParser<TestDataTransform> = DefParser::new();
    parser.add_transform(TestDataTransform {});
    parser.add_transform(TestDataTransform {});
    assert_eq!(parser.transform_count(), 2);
    let data = vec![10u8, 20, 30, 40, 50, 60];
    let p = parser.package_nor(data.clone(), 99);
    // the fifth payload byte went up by two
    assert_eq!(p[6 + 4], 52);
    let mut body = p[1..p.len() - 1].to_vec();
    let m = parser.parse_tf(&mut body).unwrap();
    assert_eq!(m.msg, &data[..]);
    assert_eq!(m.ext, 99);
    assert_eq!(m.tag, TOKEN_NORMAL);
}

#[test]
fn compressed_package_parses_back() {
    let mut parser: DefParser<DefCompress> = DefParser::new();
    parser.add_transform(DefCompress {});
    let data = vec![7u8; 2000];
    let p = parser.package_tf(data.clone(), 3, 0);
    assert!(p.len() < 200);
    let mut body = p[1..p.len() - 1].to_vec();
    let m = parser.parse_tf(&mut body).unwrap();
    assert_eq!(m.msg, &data[..]);
    assert_eq!(m.ext, 3);
}

#[test]
fn compression_roundtrip() {
    let c = DefCompress {};
    let d = b"the quick brown fox jumps over the lazy dog, the quick brown fox".to_vec();
    let z = c.to(&d);
    assert_ne!(z, d);
    assert_eq!(c.form(&z), d);
}
