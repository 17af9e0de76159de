use rcmd_suit::udp_msg_split::DefUdpMsgSplit;

#[test]
fn test_greater_than() {
    assert_eq!(DefUdpMsgSplit::greater_than(0, 2), false);
    assert_eq!(DefUdpMsgSplit::greater_than(3, 5), false);
    assert_eq!(DefUdpMsgSplit::greater_than(6, 288), false);
    assert_eq!(DefUdpMsgSplit::greater_than(0, 1000000), false);
    assert_eq!(DefUdpMsgSplit::greater_than(1000000, 0), true);
    assert_eq!(DefUdpMsgSplit::greater_than(u32::max_value() - 89, 2), false);
    assert_eq!(DefUdpMsgSplit::greater_than(u32::max_value(), 2), false);
    assert_eq!(DefUdpMsgSplit::greater_than(u32::max_value() - 89, 0), false);
    assert_eq!(DefUdpMsgSplit::greater_than(0, u32::max_value() - 999), true);
    assert_eq!(DefUdpMsgSplit::greater_than(999, u32::max_value() - 999), true);
    assert_eq!(DefUdpMsgSplit::greater_than(999, u32::max_value()), true);
    assert_eq!(DefUdpMsgSplit::greater_than(u32::max_value() - 999, 0), false);
    assert_eq!(DefUdpMsgSplit::greater_than(u32::max_value() - 999, 999), false);
    assert_eq!(DefUdpMsgSplit::greater_than(u32::max_value(), 999), false);
}

use rcmd_suit::agreement::Message;
use rcmd_suit::bytes::{TOKEN_SUBPACKAGE, TOKEN_SUBPACKAGE_BEGIN, TOKEN_SUBPACKAGE_END};
use rcmd_suit::msg_split::{DefMsgSplit, DEF_MAX_UNIT_SIZE};

#[test]
fn split_parts_merge_back() {
    let mut s = DefMsgSplit::new();
    let data: Vec<u8> = (0..1200u32).map(|i| (i % 251) as u8).collect();
    let mut d = data.clone();
    let parts = s.split(&mut d, 77);
    assert_eq!(parts.len(), 4);
    assert_eq!(parts[0].2, TOKEN_SUBPACKAGE_BEGIN);
    assert_eq!(parts[1].2, TOKEN_SUBPACKAGE);
    assert_eq!(parts[3].2, TOKEN_SUBPACKAGE_END);
    assert_eq!(parts[0].0.len(), DEF_MAX_UNIT_SIZE);
    assert_eq!(DefMsgSplit::parse_ext(parts[1].1), (1, 1));
    assert_eq!(parts[3].0, vec![0, 1]);
    assert_eq!(d.len(), data.len() + 2);
    let mut r = DefMsgSplit::new();
    let mut whole = None;
    for (p, ext, tag) in parts.iter() {
        let m = Message::new(p.len() as u32 + 10, p, *ext, *tag);
        assert!(r.need_merge(&m));
        whole = r.merge(&m);
    }
    assert_eq!(whole, Some((data, 77)));
}

#[test]
fn split_decisions() {
    let mut s = DefMsgSplit::new();
    assert!(s.open());
    assert!(s.need_split(DEF_MAX_UNIT_SIZE + 1, 5));
    assert!(!s.need_split(DEF_MAX_UNIT_SIZE, 5));
    assert!(!s.need_split(10_000, 9));
    s.extend_ignore(&[5, 6]);
    assert!(s.ignore(6));
    assert!(!s.need_split(10_000, 5));
    assert_eq!(s.get_id(), 1);
    assert_eq!(s.get_id(), 2);
}

#[test]
fn end_part_of_an_unknown_message_gives_nothing() {
    let mut r = DefMsgSplit::new();
    let id = [0u8, 9];
    let m = Message::new(12, &id, 3, TOKEN_SUBPACKAGE_END);
    assert_eq!(r.merge(&m), None);
}

