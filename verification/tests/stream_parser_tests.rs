use rcmd_suit::stream_parser::{SkipRt, Stream, StreamParse};

#[test]
fn test_gen_stream_parse2() {
    let a1 = 10052398u32;
    let a2 = -1293029103i32;
    let a3 = 129039102930193322usize;
    let a4 = -1290391030190130192isize;

    let mut v = Vec::new();
    v.extend_from_slice(&a1.to_be_bytes());
    v.extend_from_slice(&a2.to_be_bytes());
    v.push(1);
    v.push(2);
    v.push(3);
    v.extend_from_slice(&a3.to_be_bytes());
    v.extend_from_slice(&a4.to_be_bytes());

    let buf = v.as_slice();
    let mut stream = Stream::new(buf);
    let b1 = u32::stream_parse(&mut stream).unwrap();
    let b2 = i32::stream_parse(&mut stream).unwrap();
    SkipRt { n: 3 }.stream_parse_ex(&mut stream);
    let b3 = usize::stream_parse(&mut stream).unwrap();
    let b4 = isize::stream_parse(&mut stream).unwrap();

    assert_eq!(a1, b1);
    assert_eq!(a2, b2);
    assert_eq!(a3, b3);
    assert_eq!(a4, b4);
}

#[test]
fn test_gen_stream_parse() {
    let a = 10052398u32;
    let buf = a.to_be_bytes();
    let mut stream = Stream::new(&buf);
    let b = u32::stream_parse(&mut stream).unwrap();
    assert_eq!(a, b);
}
