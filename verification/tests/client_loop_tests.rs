use rcmd_suit::asy_cry::{build_pub_key_msg, DefAsyCry};
use rcmd_suit::bytes::{TOKEN_NORMAL, TOKEN_SUBPACKAGE_END};
use rcmd_suit::client_loop::{ends_receiving, heartbeat_due, on_message, outgoing, Incoming};
use rcmd_suit::data_current_limiter::DataCurrentLimiter;
use rcmd_suit::msg_split::DefMsgSplit;
use rcmd_suit::udp_sender::USErr;

#[test]
fn plain_messages_are_delivered() {
    let mut asy = DefAsyCry::new();
    let mut sp = DefMsgSplit::new();
    // a heartbeat passes the encryption layer unchanged
    assert!(matches!(on_message(&mut asy, &mut sp, &[9], 9, TOKEN_NORMAL), Incoming::Deliver(ref m, 9) if m == &vec![9]));
}

#[test]
fn exchange_answers_go_back() {
    let mut asy = DefAsyCry::new();
    let mut sp = DefMsgSplit::new();
    assert!(matches!(on_message(&mut asy, &mut sp, &[], 12, TOKEN_NORMAL), Incoming::Reply(ref v, 32) if v.is_empty()));
    assert!(matches!(on_message(&mut asy, &mut sp, &[], 31, TOKEN_NORMAL), Incoming::Nothing));
    // before the keys are exchanged, other messages are answered with code 31
    assert!(matches!(on_message(&mut asy, &mut sp, b"hi", 100, TOKEN_NORMAL), Incoming::Reply(_, 31)));
}

#[test]
fn unreadable_key_message_is_invalid() {
    let mut asy = DefAsyCry::new();
    let mut sp = DefMsgSplit::new();
    assert!(matches!(on_message(&mut asy, &mut sp, &[0, 0], 10, TOKEN_NORMAL), Incoming::Invalid));
    let k = build_pub_key_msg(&[1, 2], &[]);
    assert!(matches!(on_message(&mut asy, &mut sp, &k[..6], 10, TOKEN_NORMAL), Incoming::Invalid));
}

#[test]
fn long_messages_are_cut_and_merged_back() {
    let asy = DefAsyCry::new();
    let mut sp = DefMsgSplit::new();
    let data: Vec<u8> = (0..1500u32).map(|i| (i % 256) as u8).collect();
    let parts = outgoing(&asy, &mut sp, data.clone(), 9);
    // ext 9 is never cut
    assert_eq!(parts, vec![(data.clone(), 9, TOKEN_NORMAL)]);
    let parts = outgoing(&asy, &mut sp, data.clone(), 100);
    assert_eq!(parts.len(), 4);
    assert_eq!(parts[3].2, TOKEN_SUBPACKAGE_END);
    let mut rasy = DefAsyCry::new();
    rasy.extend_ignore(&[100, 1 << 16, (1 << 16) + 1, (1 << 16) + 2]);
    let mut rsp = DefMsgSplit::new();
    let mut last = None;
    for (p, e, t) in parts.iter() {
        last = Some(on_message(&mut rasy, &mut rsp, p, *e, *t));
    }
    assert!(matches!(last, Some(Incoming::Deliver(ref m, 100)) if m == &data));
}

#[test]
fn part_out_of_order_is_invalid() {
    let mut asy = DefAsyCry::new();
    asy.extend_ignore(&[5]);
    let mut sp = DefMsgSplit::new();
    assert!(matches!(on_message(&mut asy, &mut sp, &[1, 2, 3], 5, TOKEN_SUBPACKAGE_END), Incoming::Invalid));
}

#[test]
fn heartbeats_and_errors() {
    assert!(heartbeat_due(10, 15, 5, false));
    assert!(!heartbeat_due(10, 15, 5, true));
    assert!(heartbeat_due(10, 16, 5, true));
    assert!(!heartbeat_due(10, 9, 0, false));
    assert!(!ends_receiving(&USErr::EmptyMsg));
    assert!(ends_receiving(&USErr::BadSessionID));
}

#[test]
fn limiter_admits_up_to_the_limit_per_window() {
    let mut l = DataCurrentLimiter::new_at(100, 10, 1, 1, 1000);
    assert!(l.can_send_at(6, 1010));
    assert!(!l.can_send_at(5, 1020));
    assert!(l.can_send_at(4, 1030));
    assert!(!l.can_send_at(1, 1040));
    // after a pause longer than the window only the new size counts
    assert!(l.can_send_at(9, 1200));
    assert!(!l.can_send_at(11, 1400));
    assert!(!l.can_send_at(1, 100));
    let mut n = DataCurrentLimiter::new(1_000_000_000, 3, 1, 1);
    assert!(n.can_send(3));
}
