use rcmd_suit::bytes::{TOKEN_NORMAL, TOKEN_SUBPACKAGE, TOKEN_SUBPACKAGE_BEGIN, TOKEN_SUBPACKAGE_END};
use rcmd_suit::udp_msg_split::{DefUdpMsgSplit, MsgSlicesInfo, SUB_HEAD_LEN};

fn head_of(info: &MsgSlicesInfo) -> Vec<u8> {
    match info {
        MsgSlicesInfo::Part(h) => h.clone(),
        MsgSlicesInfo::Complete => panic!("expected a slice"),
    }
}

#[test]
fn slices_merge_back_into_the_message() {
    let mut s = DefUdpMsgSplit::with_max_unit_size(10, 4);
    assert_eq!(s.unit_size(), 7);
    let data: Vec<u8> = (1..=20u8).collect();
    assert!(s.queue_room());
    s.push_msg(data.clone());
    assert!(s.need_send());
    let mut r = DefUdpMsgSplit::with_max_unit_size(10, 4);
    let mut tags = Vec::new();
    let mut whole = None;
    let mut t: u128 = 1;
    while s.need_send() {
        assert!(s.can_pop());
        let (bytes, ext, tag, info) = s.pop_msg_at(t).unwrap();
        t += 1;
        let head = head_of(&info);
        assert_eq!(head.len(), SUB_HEAD_LEN);
        assert_eq!(ext, 1);
        assert!(r.need_merge(tag));
        assert!(r.merge_ok(&bytes, ext, tag, &head));
        tags.push((tag, bytes.len()));
        whole = r.merge(&bytes, ext, tag, &head);
    }
    assert_eq!(tags, vec![(TOKEN_SUBPACKAGE_BEGIN, 7), (TOKEN_SUBPACKAGE, 7), (TOKEN_SUBPACKAGE_END, 6)]);
    assert_eq!(whole, Some(data));
}

#[test]
fn short_message_goes_whole() {
    let mut s = DefUdpMsgSplit::with_max_unit_size(10, 4);
    s.push_msg(vec![5, 6, 7]);
    let (bytes, ext, tag, info) = s.pop_msg_at(9).unwrap();
    assert_eq!(bytes, vec![5, 6, 7]);
    assert_eq!(ext, 0);
    assert_eq!(tag, TOKEN_NORMAL);
    assert!(matches!(info, MsgSlicesInfo::Complete));
    assert!(!s.need_send());
}

#[test]
fn recovery_sends_the_last_slice_again() {
    let mut s = DefUdpMsgSplit::with_max_unit_size(10, 4);
    s.push_msg((0..20u8).collect());
    let (first, ext, tag, _) = s.pop_msg_at(1).unwrap();
    assert_eq!(tag, TOKEN_SUBPACKAGE_BEGIN);
    assert!(!s.recovery(ext + 1));
    assert!(s.recovery(ext));
    let (again, ext2, tag2, _) = s.pop_msg_at(2).unwrap();
    assert_eq!((again, ext2, tag2), (first, ext, tag));
}

#[test]
fn unit_size_moves_between_its_bounds() {
    let mut s = DefUdpMsgSplit::with_max_unit_size(100, 10);
    assert_eq!(s.unit_size(), 55);
    s.up_unit_size();
    assert_eq!(s.unit_size(), 60);
    s.down_unit_size();
    assert_eq!(s.unit_size(), 30);
    s.down_unit_size();
    s.down_unit_size();
    assert_eq!(s.unit_size(), 10);
    assert!(s.is_min_unit_size());
    for _ in 0..40 {
        s.up_unit_size();
    }
    assert!(s.is_max_unit_size());
    assert_eq!(s.max_unit_size(), 100);
    assert!(s.need_split(101));
    assert!(!s.need_split(100));
}

#[test]
fn ids_count_up() {
    let mut s = DefUdpMsgSplit::with_max_unit_size(10, 4);
    assert_eq!(s.get_id(), 1);
    assert_eq!(s.get_id(), 2);
}

#[test]
fn slices_of_a_completed_message_need_no_header() {
    let mut s = DefUdpMsgSplit::with_max_unit_size(10, 4);
    s.push_msg((1..=20u8).collect());
    let mut r = DefUdpMsgSplit::with_max_unit_size(10, 4);
    let mut t: u128 = 1;
    let mut last = None;
    while s.need_send() {
        let (bytes, ext, tag, info) = s.pop_msg_at(t).unwrap();
        t += 1;
        let head = head_of(&info);
        last = Some((bytes.clone(), ext, tag));
        r.merge(&bytes, ext, tag, &head);
    }
    let (bytes, ext, tag) = last.unwrap();
    // the message was completed: a repeat with no sub-header is dropped
    assert!(r.merge_ok(&bytes, ext, tag, &[]));
    assert_eq!(r.merge(&bytes, ext, tag, &[]), None);
}

#[test]
fn slices_join_back_with_their_headers() {
    let mut s = DefUdpMsgSplit::with_max_unit_size(10, 4);
    let data: Vec<u8> = (100..120u8).collect();
    s.push_msg(data.clone());
    let mut joined = Vec::new();
    let mut idx: u32 = 0;
    let mut t: u128 = 0x0102;
    while s.need_send() {
        let (bytes, ext, _tag, info) = s.pop_msg_at(t).unwrap();
        let head = head_of(&info);
        let mut expect = t.to_be_bytes().to_vec();
        expect.extend_from_slice(&(joined.len() as u32).to_be_bytes());
        expect.extend_from_slice(&(data.len() as u32).to_be_bytes());
        expect.extend_from_slice(&idx.to_be_bytes());
        assert_eq!(head, expect);
        assert_eq!(ext, 1);
        assert!(bytes.len() <= s.unit_size());
        joined.extend_from_slice(&bytes);
        idx += 1;
        t += 5;
    }
    assert_eq!(idx, 3);
    assert_eq!(joined, data);
}

#[test]
fn a_message_that_fits_one_slice_is_closed_by_an_empty_slice() {
    let mut s = DefUdpMsgSplit::with_max_unit_size(10, 4);
    let data: Vec<u8> = vec![1, 2, 3, 4, 5, 6];
    s.push_msg(data.clone());
    let (first, _, tag, _) = s.pop_msg_at(1).unwrap();
    assert_eq!((first, tag), (data.clone(), TOKEN_SUBPACKAGE_BEGIN));
    let (last, _, tag, info) = s.pop_msg_at(2).unwrap();
    assert_eq!((last, tag), (Vec::new(), TOKEN_SUBPACKAGE_END));
    assert_eq!(head_of(&info)[16..20].to_vec(), 6u32.to_be_bytes().to_vec());
    assert!(!s.need_send());
}
