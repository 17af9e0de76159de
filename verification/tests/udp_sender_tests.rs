use rcmd_suit::attched_udp_sender::{att_frame_body, att_unwarp_ex, att_warp_ex, AttchedUdpSender};
use rcmd_suit::def_udp_sender::DefUdpSender;
use rcmd_suit::udp_client::{next_package, on_datagram};
use rcmd_suit::subpackage::DefSubpackage;
use rcmd_suit::agreement::{package_body, parse_body};
use rcmd_suit::udp_sender::{
    def_control_step, frame_body, next_mid, package_len, unwarp_ex, warp_ex, SessionState, SpecialExt, USErr,
    CONTROL_BYTE,
};
use std::mem::size_of;

#[test]
fn frame_roundtrip() {
    let v = vec![9u8, 8, 7, 6, 5];
    let f = warp_ex(&v, 1234, 0x11, 77, 0xdead_beef_u128);
    assert_eq!(f.len(), v.len() + package_len() + 2);
    assert_eq!(f[0], 3);
    assert_eq!(*f.last().unwrap(), 6);
    let body = frame_body(&f).unwrap();
    assert_eq!(body.len(), f.len() - 2);
    let (msg, id, ext, tag, sid) = unwarp_ex(&body);
    assert_eq!(msg, v);
    assert_eq!(id, 77);
    assert_eq!(ext, 1234);
    assert_eq!(tag, 0x11);
    assert_eq!(sid, 0xdead_beef_u128);
}

#[test]
fn frame_length_field_is_body_length() {
    let v = vec![1u8; 10];
    let f = warp_ex(&v, 0, 0, 1, 2);
    let len = u32::from_be_bytes([f[1], f[2], f[3], f[4]]) as usize;
    assert_eq!(len, f.len() - 2);
    assert_eq!(len, v.len() + package_len());
}

#[test]
fn frame_body_refuses_broken_frames() {
    let f = warp_ex(&[1, 2, 3], 5, 0, 1, 2);
    let mut g = f.clone();
    g[0] = 4;
    assert!(frame_body(&g).is_none());
    let mut g = f.clone();
    let n = g.len();
    g[n - 1] = 0;
    assert!(frame_body(&g).is_none());
    assert!(frame_body(&f[..f.len() - 1]).is_none());
    assert!(frame_body(&[]).is_none());
}

#[test]
fn attached_frame_roundtrip_with_sub_head() {
    let v = vec![1u8, 2, 3];
    let sub = vec![0xaau8; 28];
    let f = att_warp_ex(&v, 9, 0x10, 5, 42, Some(&sub));
    let body = att_frame_body(&f).unwrap();
    let (msg, id, ext, tag, sid, head) = att_unwarp_ex(&body);
    assert_eq!(msg, v);
    assert_eq!(id, 5);
    assert_eq!(ext, 9);
    assert_eq!(tag, 0x10);
    assert_eq!(sid, 42);
    assert_eq!(head, sub);
    let g = att_warp_ex(&v, 9, 0, 5, 42, None);
    let (msg, _, _, _, _, head) = att_unwarp_ex(&att_frame_body(&g).unwrap());
    assert_eq!(msg, v);
    assert!(head.is_empty());
}

#[test]
fn error_codes_and_texts() {
    assert_eq!(USErr::EmptyMsg.code(), 0);
    assert_eq!(USErr::MsgCacheOverflow.code(), -1);
    assert_eq!(USErr::CpRequestClosed.code(), -16);
    assert_eq!(USErr::Warp((5, "boom".to_string())).code(), 5);
    assert_eq!(USErr::Warp((5, "boom".to_string())).err_str(), "boom");
    assert_eq!(USErr::NoSession.err_str(), "No Session");
    assert_eq!(USErr::AlreadyClosed.err_str(), "Session already closed!");
    assert_eq!(USErr::RetryTimesLimit.err_str(), "Retry times reach the maximum");
}

#[test]
fn control_codes_roundtrip() {
    let all = [
        SpecialExt::SendRecv,
        SpecialExt::MissCache,
        SpecialExt::SendSid,
        SpecialExt::ResponseSendSid,
        SpecialExt::ResponseCpSendSid,
        SpecialExt::SendClose,
        SpecialExt::ErrAlreadyHasSid,
        SpecialExt::ErrAlreadyClosed,
    ];
    for c in all.iter() {
        assert_eq!(SpecialExt::try_from_u32(c.to_u32()), Some(*c));
    }
    assert_eq!(SpecialExt::SendRecv.to_u32(), u32::MAX);
    assert_eq!(SpecialExt::SendSid.to_u32(), 100);
    assert_eq!(SpecialExt::try_from_u32(7), None);
}

#[test]
fn session_states() {
    assert!(SessionState::Has(3).is_has());
    assert!(SessionState::WaitResponseCp(3, 0, 1).is_has());
    assert!(!SessionState::WaitResponse(3, 0, 1).is_has());
    assert!(SessionState::Closed(3).is_close());
    assert!(!SessionState::Null.is_close());
    assert_eq!(SessionState::Has(3).get_sid(), Some(3));
    assert_eq!(SessionState::Null.get_sid(), None);
}

#[test]
fn plain_handshake_table() {
    let cp = def_control_step(SessionState::Null, SpecialExt::SendSid, 9, 100);
    assert!(cp.state == SessionState::WaitResponseCp(9, 100, 1));
    assert_eq!(cp.reply, Some((SpecialExt::ResponseSendSid, 9)));
    let me = def_control_step(SessionState::WaitResponse(9, 50, 1), SpecialExt::ResponseSendSid, 9, 120);
    assert!(me.state == SessionState::Has(9));
    assert!(me.flush);
    let bad = def_control_step(SessionState::WaitResponse(9, 50, 1), SpecialExt::ResponseSendSid, 8, 120);
    assert_eq!(bad.reply, Some((SpecialExt::ErrBadSession, 0)));
    let err = def_control_step(SessionState::Has(9), SpecialExt::ErrNoSession, 9, 0);
    assert!(matches!(err.outcome, Err(USErr::NoSession)));
    let close = def_control_step(SessionState::Has(9), SpecialExt::SendClose, 9, 0);
    assert!(close.state == SessionState::Closed(9));
    assert!(matches!(close.outcome, Err(USErr::CpRequestClosed)));
}

#[test]
fn message_ids_wrap_to_one() {
    assert_eq!(next_mid(0), 1);
    assert_eq!(next_mid(41), 42);
    assert_eq!(next_mid(usize::MAX), 1);
}

fn att_deliver(to: &mut AttchedUdpSender, datagram: &[u8], from_cpid: usize) {
    let w = size_of::<usize>();
    assert_eq!(&datagram[..w], &from_cpid.to_be_bytes()[..]);
    let body = att_frame_body(&datagram[w..]).unwrap();
    assert!(to.recv_ok(&body));
    to.check_recv(&body).unwrap();
}

fn att_pass(from: &mut AttchedUdpSender, from_cpid: usize, to: &mut AttchedUdpSender) -> usize {
    let out = from.take_sent();
    for (d, ext) in out.iter() {
        assert_eq!(*ext, 7);
        att_deliver(to, d, from_cpid);
    }
    out.len()
}

#[test]
fn attached_senders_deliver_in_order() {
    let mut a = AttchedUdpSender::new(7, 1);
    let mut b = AttchedUdpSender::new(7, 2);
    assert!(a.can_queue());
    a.send_msg(b"hello".to_vec()).unwrap();
    assert!(!a.has_session());
    assert_eq!(att_pass(&mut a, 1, &mut b), 1);
    assert!(b.has_session());
    assert_eq!(att_pass(&mut b, 2, &mut a), 1);
    assert!(a.has_session());
    assert_eq!(att_pass(&mut a, 1, &mut b), 1);
    assert!(a.send_check_fits());
    a.check_send().unwrap();
    assert_eq!(att_pass(&mut a, 1, &mut b), 1);
    assert_eq!(b.pop_recv_msg().unwrap(), b"hello".to_vec());
    assert!(matches!(b.pop_recv_msg(), Err(USErr::EmptyMsg)));
    assert!(att_pass(&mut b, 2, &mut a) >= 1);

    let big: Vec<u8> = (0..3000u32).map(|i| (i % 251) as u8).collect();
    a.send_msg(big.clone()).unwrap();
    a.send_msg(b"after".to_vec()).unwrap();
    assert!(a.send_check_fits());
    a.check_send().unwrap();
    att_pass(&mut a, 1, &mut b);
    assert_eq!(b.pop_recv_msg().unwrap(), big);
    assert_eq!(b.pop_recv_msg().unwrap(), b"after".to_vec());
}

#[test]
fn attached_close_handshake() {
    let mut a = AttchedUdpSender::new(7, 1);
    let mut b = AttchedUdpSender::new(7, 2);
    a.build_session().unwrap();
    assert!(matches!(a.build_session(), Err(USErr::WaitSessionResponse)));
    att_pass(&mut a, 1, &mut b);
    att_pass(&mut b, 2, &mut a);
    att_pass(&mut a, 1, &mut b);
    assert!(matches!(a.build_session(), Err(USErr::AlreadyHasSession)));
    a.close_session().unwrap();
    att_pass(&mut a, 1, &mut b);
    let out = b.take_sent();
    let w = size_of::<usize>();
    let body = att_frame_body(&out[0].0[w..]).unwrap();
    assert!(matches!(a.check_recv(&body), Err(USErr::CloseSuccess)));
    let out = a.take_sent();
    let body = att_frame_body(&out[0].0[w..]).unwrap();
    assert!(matches!(b.check_recv(&body), Err(USErr::CloseSuccess)));
    assert!(matches!(a.send_msg(b"x".to_vec()), Err(USErr::AlreadyClosed)));
    assert!(matches!(a.close_session(), Err(USErr::NoSession)));
}

#[test]
fn attached_refuses_unknown_control_code() {
    let b = AttchedUdpSender::new(7, 2);
    let f = att_warp_ex(&[CONTROL_BYTE], 12345, 0, 0, 0, None);
    let body = att_frame_body(&f).unwrap();
    assert!(!b.recv_ok(&body));
}

fn def_pass(from: &mut DefUdpSender, to: &mut DefUdpSender) -> usize {
    let out = from.take_out();
    for d in out.iter() {
        let body = frame_body(d).unwrap();
        assert!(DefUdpSender::recv_ok(&body));
        assert!(to.has_room());
        to.check_recv(&body).unwrap();
    }
    out.len()
}

#[test]
fn plain_senders_deliver_held_messages() {
    let mut a = DefUdpSender::create();
    let mut b = DefUdpSender::create();
    a.send_msg(b"first".to_vec()).unwrap();
    a.send_msg(b"second".to_vec()).unwrap();
    assert_eq!(def_pass(&mut a, &mut b), 1);
    assert_eq!(def_pass(&mut b, &mut a), 1);
    assert!(a.has_session());
    def_pass(&mut a, &mut b);
    assert!(b.has_session());
    assert_eq!(b.pop_recv_msg().unwrap(), b"first".to_vec());
    def_pass(&mut b, &mut a);
    assert!(a.send_check_fits());
    a.check_send().unwrap();
    def_pass(&mut a, &mut b);
    assert_eq!(b.pop_recv_msg().unwrap(), b"second".to_vec());
}

#[test]
fn plain_cache_size_adjustments() {
    let mut a = DefUdpSender::create();
    assert_eq!(a.adjust_cache_size_ex(10), 11);
    assert_eq!(a.adjust_cache_size_ex(100), 50);
    assert_eq!(a.adjust_cache_size(-1, 5), 25);
    assert_eq!(a.adjust_cache_size(-1, 5), 15);
    assert_eq!(a.adjust_cache_size(-1, 5), 10);
    assert_eq!(a.adjust_cache_size(-1, 5), 5);
    assert_eq!(a.adjust_cache_size(-1, 5), 3);
}

#[test]
fn plain_close_session() {
    let mut a = DefUdpSender::create();
    assert!(matches!(a.close_session(), Err(USErr::NoSession)));
    let mut b = DefUdpSender::create();
    a.build_session().unwrap();
    def_pass(&mut a, &mut b);
    def_pass(&mut b, &mut a);
    a.close_session().unwrap();
    let out = a.take_out();
    // one reply to the handshake, then the close frame three times
    assert_eq!(out.len(), 4);
    assert_eq!(out[1], out[2]);
    assert_eq!(out[2], out[3]);
    assert!(matches!(a.send_msg(b"x".to_vec()), Err(USErr::AlreadyClosed)));
}

#[test]
fn datagrams_deliver_held_messages_in_order() {
    let mut a = DefUdpSender::create();
    let mut b = DefUdpSender::create();
    a.build_session().unwrap();
    def_pass(&mut a, &mut b);
    def_pass(&mut b, &mut a);
    a.send_msg(b"first".to_vec()).unwrap();
    let mut first = None;
    for d in a.take_out().iter() {
        let body = frame_body(d).unwrap();
        if unwarp_ex(&body).0 == b"first".to_vec() {
            first = Some(body);
        } else {
            assert!(DefUdpSender::recv_ok(&body));
            on_datagram(&mut b, &body).unwrap();
        }
    }
    assert!(b.has_session());
    let first = first.unwrap();
    let (_, id, ext, tag, sid) = unwarp_ex(&first);
    let second = frame_body(&warp_ex(b"second", ext, tag, next_mid(id), sid)).unwrap();
    on_datagram(&mut b, &second).unwrap();
    assert!(matches!(b.pop_recv_msg(), Err(USErr::EmptyMsg)));
    assert!(!b.need_check());
    on_datagram(&mut b, &first).unwrap();
    assert!(!b.need_check());
    assert_eq!(b.pop_recv_msg().unwrap(), b"first".to_vec());
    assert_eq!(b.pop_recv_msg().unwrap(), b"second".to_vec());
}

#[test]
fn delivered_messages_are_read_as_packages() {
    let mut a = DefUdpSender::create();
    let mut b = DefUdpSender::create();
    let mut reader = DefSubpackage::new();
    assert!(matches!(next_package(&mut b, &mut reader), Ok(None)));
    a.build_session().unwrap();
    def_pass(&mut a, &mut b);
    def_pass(&mut b, &mut a);
    a.send_msg(package_body(b"hi", 3, 0)).unwrap();
    def_pass(&mut a, &mut b);
    let body = next_package(&mut b, &mut reader).unwrap().unwrap();
    let m = parse_body(&body).unwrap();
    assert_eq!(m.msg, b"hi");
    assert_eq!(m.ext, 3);
    assert!(matches!(next_package(&mut b, &mut reader), Ok(None)));
}
