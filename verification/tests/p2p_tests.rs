use rcmd_suit::extc::{
    EXT_P2P_CONNECT_SUCCESS_STAGE1_CS, EXT_P2P_SYNC_VERIFY_CODE_SC, EXT_P2P_TRY_CONNECT_SC, EXT_P2P_WAIT_CONNECT_SC,
    EXT_REQ_HELP_LINK_P2P_CS, EXT_REQ_LINK_P2P_REJECTED_SC, EXT_REQ_LINK_P2P_SC,
};
use rcmd_suit::p2p_plugs::{
    get_next_st, get_waiting_st, local_ipv4s, need_parse_cpid, unwrap, wrap, wrap_len, Hello, LinkState, P2PErr,
    P2PPlug, PeerAddr, EXT_ACCEPT_LINK_P2P_CS, EXT_P2P_WAITING_CONNECT_CS,
};

fn id_bytes(cp: usize) -> Vec<u8> {
    cp.to_be_bytes().to_vec()
}

fn with_id(cp: usize, rest: &[u8]) -> Vec<u8> {
    let mut v = id_bytes(cp);
    v.extend_from_slice(rest);
    v
}

#[test]
fn hello_datagram_roundtrip() {
    let w = wrap(b"code", 3);
    assert_eq!(w.len(), 4 + wrap_len());
    assert_eq!(w[0], 19);
    assert_eq!(*w.last().unwrap(), 20);
    assert_eq!(unwrap(&w), Some((b"code".to_vec(), 3)));
    assert_eq!(unwrap(&[1, 2, 3]), None);
}

#[test]
fn hello_numbers_and_states() {
    for v in 1..=4u16 {
        assert_eq!(Hello::from_u16(v).unwrap().to_u16(), v);
    }
    assert!(Hello::from_u16(5).is_none());
    let a = PeerAddr { ip: 1, port: 2 };
    assert_eq!(get_waiting_st(Hello::Hello2, a), LinkState::TryConnect(a));
    assert_eq!(get_next_st(Hello::Hello3), LinkState::Stage1Success(true));
    assert_eq!(get_next_st(Hello::Hello4), LinkState::PrepareRealLink);
}

#[test]
fn local_addresses_skip_loopback_and_v6() {
    let addrs = vec![(true, Some(0x7f00_0001)), (false, Some(0xc0a8_0102)), (false, None), (false, Some(0x0a00_0001))];
    assert_eq!(local_ipv4s(&addrs), vec![0xc0a8_0102, 0x0a00_0001]);
}

#[test]
fn link_request_needs_port_and_addresses() {
    let mut p = P2PPlug::new();
    let ips = vec![0x0a00_0001u32];
    assert!(matches!(p.req_link(5, &ips), Err(P2PErr::NotReady)));
    p.on_get_local_port(4000);
    assert!(matches!(p.req_link(5, &Vec::new()), Err(P2PErr::NotFindAnyLocalAddr)));
    p.req_link(5, &ips).unwrap();
    assert!(matches!(p.req_link(5, &ips), Err(P2PErr::LinkExist)));
    let sent = p.take_sent();
    assert_eq!(sent.len(), 1);
    assert_eq!(sent[0].1, EXT_REQ_HELP_LINK_P2P_CS);
    let mut expect = id_bytes(5);
    expect.extend_from_slice(&[1, 0x0f, 0xa0, 10, 0, 0, 1]);
    assert_eq!(sent[0].0, expect);
}

#[test]
fn refused_link_is_removed() {
    let mut p = P2PPlug::new();
    p.on_get_local_port(4000);
    let ips = vec![1u32];
    p.req_link(5, &ips).unwrap();
    p.handle(EXT_REQ_LINK_P2P_REJECTED_SC, &id_bytes(5), &ips);
    // the link is gone, so it can be requested again
    p.req_link(5, &ips).unwrap();
    assert!(need_parse_cpid(EXT_REQ_LINK_P2P_REJECTED_SC));
    assert!(!need_parse_cpid(EXT_REQ_HELP_LINK_P2P_CS));
}

#[test]
fn two_plugs_say_hello() {
    let ips = vec![0x0a00_0001u32];
    let addr_a = PeerAddr { ip: 0x0a00_0001, port: 4000 };
    let addr_b = PeerAddr { ip: 0x0a00_0002, port: 5000 };
    let code = b"verify-me".to_vec();

    let mut a = P2PPlug::new();
    a.on_get_local_port(4000);
    let mut b = P2PPlug::new();
    b.on_get_local_port(5000);

    a.req_link(5, &ips).unwrap();
    // the server forwards the request to b, where a has id 7
    b.handle(EXT_REQ_LINK_P2P_SC, &id_bytes(7), &ips);
    let sent_b = b.take_sent();
    assert_eq!(sent_b.len(), 1);
    assert_eq!(sent_b[0].1, EXT_ACCEPT_LINK_P2P_CS);
    assert_eq!(sent_b[0].0[8], 1);

    a.handle(EXT_P2P_SYNC_VERIFY_CODE_SC, &with_id(5, &code), &ips);
    b.handle(EXT_P2P_SYNC_VERIFY_CODE_SC, &with_id(7, &code), &ips);
    b.handle(EXT_P2P_WAIT_CONNECT_SC, &id_bytes(7), &ips);
    let sent_b = b.take_sent();
    assert_eq!(sent_b, vec![(id_bytes(7), EXT_P2P_WAITING_CONNECT_CS)]);
    let mut b_addr = vec![0x0a, 0, 0, 2];
    b_addr.extend_from_slice(&5000u16.to_be_bytes());
    a.handle(EXT_P2P_TRY_CONNECT_SC, &with_id(5, &b_addr), &ips);

    let out = a.take_udp();
    assert_eq!(out.len(), 1);
    assert_eq!(out[0], (addr_b, wrap(&code, 1), 18));
    assert!(!b.on_recv_oth_msg(addr_a, &out[0].1));
    let out = b.take_udp();
    assert_eq!(out, vec![(addr_a, wrap(&code, 2), 18)]);
    assert!(!a.on_recv_oth_msg(addr_b, &out[0].1));
    let out = a.take_udp();
    assert_eq!(out, vec![(addr_b, wrap(&code, 3), 18)]);
    // hello 3 starts b's local link server
    assert!(b.on_recv_oth_msg(addr_a, &out[0].1));
    let out = b.take_udp();
    assert_eq!(out, vec![(addr_a, wrap(&code, 4), 18)]);
    assert!(!a.on_recv_oth_msg(addr_b, &out[0].1));
    assert!(a.take_udp().is_empty());
    let sent_a = a.take_sent();
    assert_eq!(sent_a.last().unwrap(), &(id_bytes(5), EXT_P2P_CONNECT_SUCCESS_STAGE1_CS));

    // a hello out of turn changes nothing
    assert!(!b.on_recv_oth_msg(addr_a, &wrap(&code, 1)));
    assert!(b.take_udp().is_empty());
    // other datagrams go to b's link server
    b.on_recv_oth_msg(addr_a, &[9, 9]);
    assert_eq!(b.take_forward(), vec![(addr_a, vec![9, 9])]);
}
