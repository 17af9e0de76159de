//! Peer-to-peer links between clients: the hello datagrams that punch through to
//! the counterpart, the state of each link, and the messages exchanged with the
//! server to set links up.
use vstd::prelude::*;
use std::collections::HashMap;
use crate::bytes::{be_nat, be_bytes, lemma_pow256_values, lemma_be_roundtrip, lemma_be_bytes_len, lemma_be_nat_bound, push_be, push_all, copy_range};
use crate::stream_parser::{Stream, StreamParse, lemma_usize_width};
use crate::udp_sender::usize_len;
use crate::console::{lossy, lossy_utf8};
use crate::extc::{EXT_REQ_LINK_P2P_SC, EXT_ERR_P2P_LINK_FAILED, EXT_ERR_P2P_CP_OFFLINE, EXT_REQ_LINK_P2P_REJECTED_SC, EXT_P2P_SYNC_VERIFY_CODE_SC, EXT_P2P_WAIT_CONNECT_SC, EXT_P2P_TRY_CONNECT_SC, EXT_REQ_HELP_LINK_P2P_CS, EXT_P2P_CONNECT_SUCCESS_STAGE1_CS};

verus! {

/// Ext of the answer that accepts or refuses a link.
pub const EXT_ACCEPT_LINK_P2P_CS: u32 = 75;
/// Ext of the notice that a client waits for the counterpart's hello.
pub const EXT_P2P_WAITING_CONNECT_CS: u32 = 76;

/// Errors of the peer-to-peer plug.
#[derive(Debug)]
pub enum P2PErr {
    LinkExist,
    NotFindAnyLocalAddr,
    NotReady,
    BadState,
    Wrap((i32, String)),
}

/// Which end of a link this client serves: the server side, the client side, or neither yet.
#[derive(Clone, Copy, PartialEq, Eq, Structural, Debug)]
pub enum LocalEntity {
    Ser(usize),
    Client(usize),
    Unset,
}

/// An IPv4 address (its four octets read big-endian) and a port.
#[derive(Clone, Copy, PartialEq, Eq, Structural, Debug)]
pub struct PeerAddr {
    pub ip: u32,
    pub port: u16,
}

/// The state of a link.
#[derive(Clone, Copy, PartialEq, Eq, Structural, Debug)]
pub enum LinkState {
    WaitAccept,
    Accepted,
    TryConnect(PeerAddr),
    Stage1Success(bool),
    Stage2Success(bool),
    Disconnected,
    ConnectFailed,
    WaitingHello1,
    WaitingHello2,
    WaitingHello3,
    WaitingHello4,
    PrepareRealLink,
}

/// The four hello datagrams of the link handshake.
#[derive(Clone, Copy, PartialEq, Eq, Structural, Debug)]
pub enum Hello {
    Hello1,
    Hello2,
    Hello3,
    Hello4,
}

/// The ext number of each hello.
pub open spec fn hello_value(h: Hello) -> u16 {
    match h {
        Hello::Hello1 => 1,
        Hello::Hello2 => 2,
        Hello::Hello3 => 3,
        Hello::Hello4 => 4,
    }
}

impl Hello {
    pub fn to_u16(self) -> (r: u16)
        ensures
            r == hello_value(self),
    {
        match self {
            Hello::Hello1 => 1,
            Hello::Hello2 => 2,
            Hello::Hello3 => 3,
            Hello::Hello4 => 4,
        }
    }

    /// The hello with ext number `v`, if any.
    pub fn from_u16(v: u16) -> (r: Option<Hello>)
        ensures
            match r {
                Some(h) => hello_value(h) == v,
                None => !(1 <= v <= 4),
            },
    {
        if v == 1 {
            Some(Hello::Hello1)
        } else if v == 2 {
            Some(Hello::Hello2)
        } else if v == 3 {
            Some(Hello::Hello3)
        } else if v == 4 {
            Some(Hello::Hello4)
        } else {
            None
        }
    }
}

/// A hello datagram: 19, the total length on four bytes, the ext on two, the body, 20.
pub open spec fn spec_wrap(d: Seq<u8>, ext: u16) -> Seq<u8> {
    seq![19u8] + be_bytes((d.len() + 8) % 0x1_0000_0000, 4) + be_bytes(ext as nat, 2) + d + seq![20u8]
}

/// The body and ext of a hello datagram, when `d` is one.
pub open spec fn spec_unwrap(d: Seq<u8>) -> Option<(Seq<u8>, u16)> {
    let l = d.len();
    if l > 1 && d[0] == 19 && d[l - 1] == 20 && l >= 7 && be_nat(d.subrange(1, 5)) == l {
        Some((d.subrange(7, l - 1), be_nat(d.subrange(5, 7)) as u16))
    } else {
        None
    }
}

/// `unwrap` returns on `d`: a datagram that announces its own length is not seven or
/// eight bytes long.
pub open spec fn unwrap_ok(d: Seq<u8>) -> bool {
    let l = d.len();
    (l == 7 || l == 8) ==> !(d[0] == 19 && d[l - 1] == 20 && be_nat(d.subrange(1, 5)) == l)
}

/// The bytes a hello datagram adds to its body.
pub fn wrap_len() -> (r: usize)
    ensures
        r == 8,
{
    8
}

/// Wraps `d` as a hello datagram with ext `ext`.
pub fn wrap(d: &[u8], ext: u16) -> (r: Vec<u8>)
    ensures
        r@ == spec_wrap(d@, ext),
{
    proof {
        lemma_pow256_values();
    }
    let mut res: Vec<u8> = Vec::new();
    res.push(19u8);
    let l = ((d.len() as u128) + 8) % 0x1_0000_0000u128;
    push_be(&mut res, l, 4);
    push_be(&mut res, ext as u128, 2);
    push_all(&mut res, d);
    res.push(20u8);
    assert(res@ =~= spec_wrap(d@, ext));
    res
}

/// The body and ext of a hello datagram, if `d` is one.
pub fn unwrap(d: &[u8]) -> (r: Option<(Vec<u8>, u16)>)
    requires
        unwrap_ok(d@),
    ensures
        match spec_unwrap(d@) {
            Some((b, e)) => r matches Some((x, y)) && x@ == b && y == e,
            None => r is None,
        },
{
    proof {
        lemma_pow256_values();
    }
    let l = d.len();
    if l > 1 && d[0] == 19 && d[l - 1] == 20 {
        let mut s = Stream::new(d);
        s.next();
        if l >= 5 {
            proof {
                lemma_be_nat_bound(d@.subrange(1, 5));
            }
        }
        if let Some(len) = u32::stream_parse(&mut s) {
            proof {
                assert(len as nat == be_nat(d@.subrange(1, 5)));
            }
            if len as usize == l {
                if l >= 7 {
                    proof {
                        lemma_be_nat_bound(d@.subrange(5, 7));
                    }
                }
                if let Some(ext) = u16::stream_parse(&mut s) {
                    return match s.next_range(l - wrap_len()) {
                        Some(v) => Some((copy_range(v, 0, v.len()), ext)),
                        None => None,
                    };
                } else {
                    return None;
                }
            }
        }
    }
    None
}

/// A non-empty body wrapped as a hello datagram whose length fits four bytes is
/// unwrapped back with its ext.
pub proof fn lemma_unwrap_wrap(d: Seq<u8>, ext: u16)
    requires
        d.len() > 0,
        d.len() + 8 < 0x1_0000_0000,
    ensures
        unwrap_ok(spec_wrap(d, ext)),
        spec_unwrap(spec_wrap(d, ext)) == Some((d, ext)),
{
    lemma_pow256_values();
    let w = spec_wrap(d, ext);
    lemma_be_bytes_len((d.len() + 8) as nat, 4);
    lemma_be_bytes_len(ext as nat, 2);
    lemma_be_roundtrip((d.len() + 8) as nat, 4);
    lemma_be_roundtrip(ext as nat, 2);
    assert(w.subrange(1, 5) =~= be_bytes((d.len() + 8) as nat, 4));
    assert(w.subrange(5, 7) =~= be_bytes(ext as nat, 2));
    assert(w.subrange(7, w.len() - 1) =~= d);
}

/// The server messages that start with the counterpart's id.
pub open spec fn spec_need_parse_cpid(ext: u32) -> bool {
    ext == EXT_REQ_LINK_P2P_SC || ext == EXT_ERR_P2P_LINK_FAILED || ext == EXT_ERR_P2P_CP_OFFLINE || ext
        == EXT_REQ_LINK_P2P_REJECTED_SC || ext == EXT_P2P_SYNC_VERIFY_CODE_SC || ext == EXT_P2P_WAIT_CONNECT_SC
        || ext == EXT_P2P_TRY_CONNECT_SC
}

pub fn need_parse_cpid(ext: u32) -> (r: bool)
    ensures
        r == spec_need_parse_cpid(ext),
{
    ext == EXT_REQ_LINK_P2P_SC || ext == EXT_ERR_P2P_LINK_FAILED || ext == EXT_ERR_P2P_CP_OFFLINE || ext
        == EXT_REQ_LINK_P2P_REJECTED_SC || ext == EXT_P2P_SYNC_VERIFY_CODE_SC || ext == EXT_P2P_WAIT_CONNECT_SC
        || ext == EXT_P2P_TRY_CONNECT_SC
}

/// Reads an address at the cursor: four bytes of IPv4 address, then the port on two.
pub fn parse_addr(s: &mut Stream) -> (r: Option<PeerAddr>)
    requires
        old(s).ptr() + 6 <= usize::MAX,
    ensures
        final(s).data() == old(s).data(),
        old(s).ptr() + 6 <= old(s).data().len() ==> {
            let d = old(s).data();
            let p = old(s).ptr() as int;
            r matches Some(a) && a.ip == be_nat(d.subrange(p, p + 4)) && a.port == be_nat(d.subrange(p + 4, p + 6))
                && final(s).ptr() == p + 6
        },
        old(s).ptr() + 6 > old(s).data().len() ==> r is None,
{
    proof {
        lemma_pow256_values();
        let d = old(s).data();
        let p = old(s).ptr() as int;
        if p + 6 <= d.len() {
            lemma_be_nat_bound(d.subrange(p, p + 4));
            lemma_be_nat_bound(d.subrange(p + 4, p + 6));
        }
    }
    let ip = match u32::stream_parse(s) {
        Some(v) => v,
        None => {
            return None;
        },
    };
    let port = match u16::stream_parse(s) {
        Some(p) => p,
        None => {
            return None;
        },
    };
    Some(PeerAddr { ip, port })
}

/// The state a link waits in for hello `h` arriving from `addr`.
pub open spec fn spec_waiting_st(h: Hello, addr: PeerAddr) -> LinkState {
    match h {
        Hello::Hello1 => LinkState::WaitingHello1,
        Hello::Hello2 => LinkState::TryConnect(addr),
        Hello::Hello3 => LinkState::WaitingHello3,
        Hello::Hello4 => LinkState::Stage1Success(false),
    }
}

/// The state a link moves to on hello `h`.
pub open spec fn spec_next_st(h: Hello) -> LinkState {
    match h {
        Hello::Hello1 => LinkState::WaitingHello3,
        Hello::Hello2 => LinkState::Stage1Success(false),
        Hello::Hello3 => LinkState::Stage1Success(true),
        Hello::Hello4 => LinkState::PrepareRealLink,
    }
}

pub fn get_waiting_st(h: Hello, addr: PeerAddr) -> (r: LinkState)
    ensures
        r == spec_waiting_st(h, addr),
{
    match h {
        Hello::Hello1 => LinkState::WaitingHello1,
        Hello::Hello2 => LinkState::TryConnect(addr),
        Hello::Hello3 => LinkState::WaitingHello3,
        Hello::Hello4 => LinkState::Stage1Success(false),
    }
}

pub fn get_next_st(h: Hello) -> (r: LinkState)
    ensures
        r == spec_next_st(h),
{
    match h {
        Hello::Hello1 => LinkState::WaitingHello3,
        Hello::Hello2 => LinkState::Stage1Success(false),
        Hello::Hello3 => LinkState::Stage1Success(true),
        Hello::Hello4 => LinkState::PrepareRealLink,
    }
}

/// The non-loopback IPv4 addresses among the interface addresses `addrs` (each given
/// as whether it is a loopback address and its IPv4 octets, if it is one), in order.
pub open spec fn spec_local_ipv4s(addrs: Seq<(bool, Option<u32>)>) -> Seq<u32>
    decreases addrs.len(),
{
    if addrs.len() == 0 {
        Seq::empty()
    } else {
        let a = addrs.last();
        let rest = spec_local_ipv4s(addrs.drop_last());
        if !a.0 && a.1 is Some {
            rest.push(a.1->0)
        } else {
            rest
        }
    }
}

/// Keeps the non-loopback IPv4 addresses among the interface addresses `addrs`.
pub fn local_ipv4s(addrs: &Vec<(bool, Option<u32>)>) -> (r: Vec<u32>)
    ensures
        r@ == spec_local_ipv4s(addrs@),
{
    let mut res: Vec<u32> = Vec::new();
    let mut i: usize = 0;
    while i < addrs.len()
        invariant
            i <= addrs@.len(),
            res@ == spec_local_ipv4s(addrs@.subrange(0, i as int)),
        decreases addrs@.len() - i,
    {
        let (lo, ip) = addrs[i];
        proof {
            assert(addrs@.subrange(0, i + 1).drop_last() =~= addrs@.subrange(0, i as int));
        }
        if !lo {
            match ip {
                Some(v) => {
                    res.push(v);
                },
                None => {},
            }
        }
        i = i + 1;
    }
    proof {
        assert(addrs@.subrange(0, addrs@.len() as int) =~= addrs@);
    }
    res
}

/// The octets of the addresses `ips`, one after the other.
pub open spec fn ips_bytes(ips: Seq<u32>) -> Seq<u8>
    decreases ips.len(),
{
    if ips.len() == 0 {
        Seq::empty()
    } else {
        ips_bytes(ips.drop_last()) + be_bytes(ips.last() as nat, 4)
    }
}

/// The addresses part of a link message: how many, the port, and the IPv4 octets.
pub open spec fn addrs_part(port: u16, ips: Seq<u32>) -> Seq<u8> {
    seq![(ips.len() % 256) as u8] + be_bytes(port as nat, 2) + ips_bytes(ips)
}

/// Appends the addresses part of a link message.
fn push_addrs(out: &mut Vec<u8>, port: u16, ips: &Vec<u32>)
    ensures
        final(out)@ == old(out)@ + addrs_part(port, ips@),
{
    proof {
        lemma_pow256_values();
    }
    out.push((ips.len() % 256) as u8);
    push_be(out, port as u128, 2);
    let ghost start = out@;
    let mut i: usize = 0;
    while i < ips.len()
        invariant
            i <= ips@.len(),
            out@ == start + ips_bytes(ips@.subrange(0, i as int)),
        decreases ips@.len() - i,
    {
        let a = ips[i];
        proof {
            lemma_pow256_values();
        }
        push_be(out, a as u128, 4);
        proof {
            assert(ips@.subrange(0, i + 1).drop_last() =~= ips@.subrange(0, i as int));
            assert(out@ =~= start + ips_bytes(ips@.subrange(0, i + 1)));
        }
        i = i + 1;
    }
    proof {
        assert(ips@.subrange(0, ips@.len() as int) =~= ips@);
        assert(out@ =~= old(out)@ + addrs_part(port, ips@));
    }
}

} // verus!

verus! {

broadcast use vstd::std_specs::hash::group_hash_axioms;

/// A link with counterpart `cp`.
pub struct LinkData {
    pub cp: usize,
    pub state: LinkState,
    pub verify_code: Option<Vec<u8>>,
    pub connected_addr: Option<PeerAddr>,
    pub local_entity: LocalEntity,
}

/// A link as plain values.
pub struct LinkView {
    pub cp: usize,
    pub state: LinkState,
    pub verify_code: Option<Seq<u8>>,
    pub connected_addr: Option<PeerAddr>,
    pub local_entity: LocalEntity,
}

pub open spec fn link_view(l: LinkData) -> LinkView {
    LinkView {
        cp: l.cp,
        state: l.state,
        verify_code: match l.verify_code {
            Some(c) => Some(c@),
            None => None,
        },
        connected_addr: l.connected_addr,
        local_entity: l.local_entity,
    }
}

/// The links of the plug, the verification codes that name them, and the local
/// server clients serving them.
pub struct PlugData {
    port: u16,
    link_map: HashMap<usize, LinkData>,
    cpid_map: Vec<(Vec<u8>, usize)>,
    ser_map: HashMap<usize, usize>,
}

/// The plug's data as plain values.
#[verifier::ext_equal]
pub struct PlugView {
    pub port: u16,
    pub links: Map<usize, LinkView>,
    /// Verification code and the counterpart it names, oldest first.
    pub codes: Seq<(Seq<u8>, usize)>,
    /// Local server client to the counterpart it serves.
    pub ser: Map<usize, usize>,
}

impl View for PlugData {
    type V = PlugView;

    closed spec fn view(&self) -> PlugView {
        PlugView {
            port: self.port,
            links: Map::new(|k: usize| self.link_map@.contains_key(k), |k: usize| link_view(self.link_map@[k])),
            codes: Seq::new(self.cpid_map@.len(), |i: int| (self.cpid_map@[i].0@, self.cpid_map@[i].1)),
            ser: self.ser_map@,
        }
    }
}

/// The index of the first entry of `codes` with code `c`, from index `k` on.
pub open spec fn code_from(codes: Seq<(Seq<u8>, usize)>, c: Seq<u8>, k: int) -> Option<int>
    decreases codes.len() - k,
{
    if k < 0 || k >= codes.len() {
        None
    } else if codes[k].0 == c {
        Some(k)
    } else {
        code_from(codes, c, k + 1)
    }
}

proof fn lemma_code_from(codes: Seq<(Seq<u8>, usize)>, c: Seq<u8>, k: int)
    ensures
        code_from(codes, c, k) matches Some(i) ==> k <= i < codes.len() && codes[i].0 == c,
    decreases codes.len() - k,
{
    if 0 <= k < codes.len() && codes[k].0 != c {
        lemma_code_from(codes, c, k + 1);
    }
}

/// `codes` without its first entry with code `c`.
pub open spec fn remove_code(codes: Seq<(Seq<u8>, usize)>, c: Seq<u8>) -> Seq<(Seq<u8>, usize)> {
    match code_from(codes, c, 0) {
        Some(i) => codes.remove(i),
        None => codes,
    }
}

/// What removing the link with `cpid` does: the link goes, and its verification code
/// with it.
pub open spec fn spec_rm_link(s: PlugView, cpid: usize) -> PlugView {
    if s.links.contains_key(cpid) {
        PlugView {
            links: s.links.remove(cpid),
            codes: match s.links[cpid].verify_code {
                Some(c) => remove_code(s.codes, c),
                None => s.codes,
            },
            ..s
        }
    } else {
        s
    }
}

impl PlugData {
    pub fn new() -> (r: PlugData)
        ensures
            r@ == (PlugView { port: 0, links: Map::empty(), codes: Seq::empty(), ser: Map::empty() }),
    {
        let r = PlugData { port: 0, link_map: HashMap::new(), cpid_map: Vec::new(), ser_map: HashMap::new() };
        assert(r@ =~= (PlugView { port: 0, links: Map::empty(), codes: Seq::empty(), ser: Map::empty() }));
        r
    }

    pub fn port(&self) -> (r: u16)
        ensures
            r == self@.port,
    {
        self.port
    }

    /// Records the local port of the plug's socket.
    pub fn set_port(&mut self, port: u16)
        ensures
            final(self)@ == (PlugView { port, ..old(self)@ }),
    {
        self.port = port;
        assert(self@ =~= (PlugView { port, ..old(self)@ }));
    }

    fn find_code(&self, c: &[u8]) -> (r: Option<usize>)
        ensures
            match code_from(self@.codes, c@, 0) {
                Some(i) => r == Some(i as usize),
                None => r is None,
            },
            r matches Some(i) ==> i < self@.codes.len() && i < self.cpid_map@.len(),
    {
        proof {
            lemma_code_from(self@.codes, c@, 0);
        }
        let mut i: usize = 0;
        while i < self.cpid_map.len()
            invariant
                i <= self.cpid_map@.len(),
                code_from(self@.codes, c@, 0) == code_from(self@.codes, c@, i as int),
            decreases self.cpid_map@.len() - i,
        {
            if bytes_eq(self.cpid_map[i].0.as_slice(), c) {
                return Some(i);
            }
            i = i + 1;
        }
        None
    }

    /// Removes the link with `cpid` and its verification code, and returns the link.
    pub fn rm_link(&mut self, cpid: usize) -> (r: Option<LinkData>)
        ensures
            final(self)@ == spec_rm_link(old(self)@, cpid),
            match r {
                Some(l) => old(self)@.links.contains_key(cpid) && link_view(l) == old(self)@.links[cpid],
                None => !old(self)@.links.contains_key(cpid),
            },
    {
        let ghost s0 = self@;
        match self.link_map.remove(&cpid) {
            Some(link) => {
                proof {
                    assert(self@.links =~= s0.links.remove(cpid));
                    assert(self@.codes =~= s0.codes);
                    assert(link_view(link) == s0.links[cpid]);
                    if let Some(c) = s0.links[cpid].verify_code {
                        lemma_code_from(s0.codes, c, 0);
                    }
                    assert(self.cpid_map.len() == self.cpid_map@.len());
                }
                match &link.verify_code {
                    Some(c) => {
                        match self.find_code(c.as_slice()) {
                            Some(i) => {
                                self.cpid_map.remove(i);
                                proof {
                                    assert(self@.codes =~= s0.codes.remove(i as int));
                                }
                            },
                            None => {},
                        }
                    },
                    None => {},
                }
                proof {
                    assert(self@ =~= spec_rm_link(s0, cpid));
                }
                Some(link)
            },
            None => {
                proof {
                    assert(self@ =~= s0);
                }
                None
            },
        }
    }

    /// The counterpart named by verification code `code`, if any.
    pub fn get_cpid_verify_code(&self, code: &[u8]) -> (r: Option<usize>)
        ensures
            match code_from(self@.codes, code@, 0) {
                Some(i) => r == Some(self@.codes[i].1),
                None => r is None,
            },
    {
        proof {
            lemma_code_from(self@.codes, code@, 0);
            assert(self.cpid_map.len() == self.cpid_map@.len());
        }
        match self.find_code(code) {
            Some(i) => {
                assert(self@.codes[i as int].1 == self.cpid_map@[i as int].1);
                Some(self.cpid_map[i].1)
            },
            None => None,
        }
    }

    /// Records that local server client `cid` serves the link with `cp`; refused when
    /// `cid` already serves one, there is no such link, or the link is served already.
    pub fn client_connected(&mut self, cp: usize, cid: usize) -> (r: bool)
        ensures
            r == (!old(self)@.ser.contains_key(cid) && old(self)@.links.contains_key(cp)
                && old(self)@.links[cp].local_entity == LocalEntity::Unset),
            r ==> final(self)@ == (PlugView {
                links: old(self)@.links.insert(cp, LinkView { local_entity: LocalEntity::Ser(cid), ..old(self)@.links[cp] }),
                ser: old(self)@.ser.insert(cid, cp),
                ..old(self)@
            }),
            !r ==> final(self)@ == old(self)@,
    {
        let ghost s0 = self@;
        if self.ser_map.contains_key(&cid) {
            return false;
        }
        match self.link_map.remove(&cp) {
            Some(link) => {
                let unset = match link.local_entity {
                    LocalEntity::Unset => true,
                    _ => false,
                };
                if unset {
                    let l2 = LinkData { local_entity: LocalEntity::Ser(cid), ..link };
                    self.link_map.insert(cp, l2);
                    self.ser_map.insert(cid, cp);
                    proof {
                        assert(self@ =~= (PlugView {
                            links: s0.links.insert(cp, LinkView { local_entity: LocalEntity::Ser(cid), ..s0.links[cp] }),
                            ser: s0.ser.insert(cid, cp),
                            ..s0
                        }));
                    }
                    true
                } else {
                    self.link_map.insert(cp, link);
                    proof {
                        assert(self@.links =~= s0.links);
                        assert(self@ =~= s0);
                    }
                    false
                }
            },
            None => {
                proof {
                    assert(self@.links =~= s0.links);
                    assert(self@ =~= s0);
                }
                false
            },
        }
    }

    /// Adds a link with `cpid` in state `st`, unless one exists.
    pub fn add_link(&mut self, st: LinkState, cpid: usize) -> (r: bool)
        ensures
            r == !old(self)@.links.contains_key(cpid),
            r ==> final(self)@ == (PlugView {
                links: old(self)@.links.insert(
                    cpid,
                    LinkView { cp: cpid, state: st, verify_code: None, connected_addr: None, local_entity: LocalEntity::Unset },
                ),
                ..old(self)@
            }),
            !r ==> final(self)@ == old(self)@,
    {
        let ghost s0 = self@;
        if self.link_map.contains_key(&cpid) {
            return false;
        }
        self.link_map.insert(
            cpid,
            LinkData { cp: cpid, state: st, verify_code: None, connected_addr: None, local_entity: LocalEntity::Unset },
        );
        proof {
            assert(self@.links =~= s0.links.insert(
                cpid,
                LinkView { cp: cpid, state: st, verify_code: None, connected_addr: None, local_entity: LocalEntity::Unset },
            ));
        }
        true
    }

    /// Names the link with `cpid` by verification code `code`, unless the code names a
    /// link already or there is no such link.
    pub fn set_verify_code(&mut self, cpid: usize, code: Vec<u8>) -> (r: bool)
        ensures
            r == (code_from(old(self)@.codes, code@, 0) is None && old(self)@.links.contains_key(cpid)),
            r ==> final(self)@ == (PlugView {
                links: old(self)@.links.insert(cpid, LinkView { verify_code: Some(code@), ..old(self)@.links[cpid] }),
                codes: old(self)@.codes.push((code@, cpid)),
                ..old(self)@
            }),
            !r ==> final(self)@ == old(self)@,
    {
        let ghost s0 = self@;
        if self.find_code(code.as_slice()).is_some() {
            return false;
        }
        match self.link_map.remove(&cpid) {
            Some(link) => {
                let c2 = copy_range(code.as_slice(), 0, code.len());
                let l2 = LinkData { verify_code: Some(c2), ..link };
                self.link_map.insert(cpid, l2);
                self.cpid_map.push((code, cpid));
                proof {
                    assert(code@.subrange(0, code@.len() as int) =~= code@);
                    assert(self@.links =~= s0.links.insert(cpid, LinkView { verify_code: Some(code@), ..s0.links[cpid] }));
                    assert(self@.codes =~= s0.codes.push((code@, cpid)));
                }
                true
            },
            None => {
                proof {
                    assert(self@.links =~= s0.links);
                    assert(self@ =~= s0);
                }
                false
            },
        }
    }

    /// The verification code of the link with `id`, while it still names a link.
    pub fn get_verify_code_cpid(&self, id: usize) -> (r: Option<Vec<u8>>)
        ensures
            match (if self@.links.contains_key(id) { self@.links[id].verify_code } else { None }) {
                Some(c) => if code_from(self@.codes, c, 0) is Some {
                    r matches Some(x) && x@ == c
                } else {
                    r is None
                },
                None => r is None,
            },
    {
        match self.link_map.get(&id) {
            Some(l) => match &l.verify_code {
                Some(c) => {
                    if self.find_code(c.as_slice()).is_some() {
                        Some(copy_range(c.as_slice(), 0, c.len()))
                    } else {
                        None
                    }
                },
                None => None,
            },
            None => None,
        }
    }

    /// Sets the state of the link with `cpid`, if there is one.
    pub fn set_state(&mut self, cpid: usize, st: LinkState) -> (r: bool)
        ensures
            r == old(self)@.links.contains_key(cpid),
            r ==> final(self)@ == (PlugView {
                links: old(self)@.links.insert(cpid, LinkView { state: st, ..old(self)@.links[cpid] }),
                ..old(self)@
            }),
            !r ==> final(self)@ == old(self)@,
    {
        let ghost s0 = self@;
        match self.link_map.remove(&cpid) {
            Some(link) => {
                self.link_map.insert(cpid, LinkData { state: st, ..link });
                proof {
                    assert(self@.links =~= s0.links.insert(cpid, LinkView { state: st, ..s0.links[cpid] }));
                }
                true
            },
            None => {
                proof {
                    assert(self@.links =~= s0.links);
                    assert(self@ =~= s0);
                }
                false
            },
        }
    }
}

/// Whether `a` and `b` hold the same bytes.
pub fn bytes_eq(a: &[u8], b: &[u8]) -> (r: bool)
    ensures
        r == (a@ == b@),
{
    if a.len() != b.len() {
        return false;
    }
    let mut i: usize = 0;
    while i < a.len()
        invariant
            a@.len() == b@.len(),
            i <= a@.len(),
            a@.subrange(0, i as int) == b@.subrange(0, i as int),
        decreases a@.len() - i,
    {
        if a[i] != b[i] {
            assert(a@[i as int] != b@[i as int]);
            return false;
        }
        i = i + 1;
        assert(a@.subrange(0, i as int) =~= a@.subrange(0, (i - 1) as int).push(a@[i - 1]));
        assert(b@.subrange(0, i as int) =~= b@.subrange(0, (i - 1) as int).push(b@[i - 1]));
    }
    assert(a@ =~= a@.subrange(0, a@.len() as int));
    assert(b@ =~= b@.subrange(0, b@.len() as int));
    true
}

} // verus!

verus! {

/// The plug as plain values: its data, messages for the server, hello datagrams to
/// send (address, datagram, how many times), whether the local link server runs,
/// and datagrams handed to it.
#[verifier::ext_equal]
pub struct P2PView {
    pub data: PlugView,
    pub sent: Seq<(Seq<u8>, u32)>,
    pub udp: Seq<(PeerAddr, Seq<u8>, u8)>,
    pub server_started: bool,
    pub forward: Seq<(PeerAddr, Seq<u8>)>,
}

/// Sets up peer-to-peer links. What it sends is queued: messages for the server in
/// `sent`, hello datagrams in `udp`, datagrams for the local link server in `forward`.
pub struct P2PPlug {
    data: PlugData,
    curr_sender: Vec<(Vec<u8>, u32)>,
    udp_out: Vec<(PeerAddr, Vec<u8>, u8)>,
    server_started: bool,
    to_server: Vec<(PeerAddr, Vec<u8>)>,
}

impl View for P2PPlug {
    type V = P2PView;

    closed spec fn view(&self) -> P2PView {
        P2PView {
            data: self.data@,
            sent: Seq::new(self.curr_sender@.len(), |i: int| (self.curr_sender@[i].0@, self.curr_sender@[i].1)),
            udp: Seq::new(self.udp_out@.len(), |i: int| (self.udp_out@[i].0, self.udp_out@[i].1@, self.udp_out@[i].2)),
            server_started: self.server_started,
            forward: Seq::new(self.to_server@.len(), |i: int| (self.to_server@[i].0, self.to_server@[i].1@)),
        }
    }
}

/// The request for a link with `cpid`: its id, then the local addresses.
pub open spec fn link_req_msg(cpid: usize, port: u16, ips: Seq<u32>) -> Seq<u8> {
    be_bytes(cpid as nat, usize_len()) + addrs_part(port, ips)
}

/// The answer to a link request from `cpid`: its id, 1 to accept or 0, then the
/// local addresses.
pub open spec fn accept_msg(cpid: usize, accept: bool, port: u16, ips: Seq<u32>) -> Seq<u8> {
    be_bytes(cpid as nat, usize_len()) + seq![if accept { 1u8 } else { 0u8 }] + addrs_part(port, ips)
}

/// `s` with `(m, ext)` queued for the server.
pub open spec fn p2p_send(s: P2PView, m: Seq<u8>, ext: u32) -> P2PView {
    P2PView { sent: s.sent.push((m, ext)), ..s }
}

/// `v` with the state of the link with `cpid`, if any, set to `st`.
pub open spec fn with_state(v: PlugView, cpid: usize, st: LinkState) -> PlugView {
    if v.links.contains_key(cpid) {
        PlugView { links: v.links.insert(cpid, LinkView { state: st, ..v.links[cpid] }), ..v }
    } else {
        v
    }
}

/// What requesting a link with `cpid` does, the local addresses being `ips`.
pub open spec fn spec_req_link(s: P2PView, cpid: usize, ips: Seq<u32>) -> (P2PView, Result<(), P2PErr>) {
    if s.data.links.contains_key(cpid) {
        (s, Err(P2PErr::LinkExist))
    } else if s.data.port == 0 {
        (s, Err(P2PErr::NotReady))
    } else if ips.len() == 0 {
        (s, Err(P2PErr::NotFindAnyLocalAddr))
    } else {
        let d = PlugView {
            links: s.data.links.insert(
                cpid,
                LinkView { cp: cpid, state: LinkState::WaitAccept, verify_code: None, connected_addr: None, local_entity: LocalEntity::Unset },
            ),
            ..s.data
        };
        (p2p_send(P2PView { data: d, ..s }, link_req_msg(cpid, s.data.port, ips), EXT_REQ_HELP_LINK_P2P_CS), Ok(()))
    }
}

/// What answering the link request of `cpid` does, the local addresses being `ips`:
/// a refused link is removed, an accepted one marked accepted.
pub open spec fn spec_accept_p2p(s: P2PView, cpid: usize, accept: bool, ips: Seq<u32>) -> (P2PView, Result<(), P2PErr>) {
    if s.data.port == 0 {
        (s, Err(P2PErr::NotReady))
    } else if ips.len() == 0 {
        (s, Err(P2PErr::NotFindAnyLocalAddr))
    } else {
        let d = if !accept {
            spec_rm_link(s.data, cpid)
        } else {
            with_state(s.data, cpid, LinkState::Accepted)
        };
        (p2p_send(P2PView { data: d, ..s }, accept_msg(cpid, accept, s.data.port, ips), EXT_ACCEPT_LINK_P2P_CS), Ok(()))
    }
}

impl P2PPlug {
    pub fn new() -> (r: P2PPlug)
        ensures
            r@ == (P2PView {
                data: PlugView { port: 0, links: Map::empty(), codes: Seq::empty(), ser: Map::empty() },
                sent: Seq::empty(),
                udp: Seq::empty(),
                server_started: false,
                forward: Seq::empty(),
            }),
    {
        let r = P2PPlug {
            data: PlugData::new(),
            curr_sender: Vec::new(),
            udp_out: Vec::new(),
            server_started: false,
            to_server: Vec::new(),
        };
        assert(r@ =~= (P2PView {
            data: PlugView { port: 0, links: Map::empty(), codes: Seq::empty(), ser: Map::empty() },
            sent: Seq::empty(),
            udp: Seq::empty(),
            server_started: false,
            forward: Seq::empty(),
        }));
        r
    }

    /// Records the local port of the plug's socket.
    pub fn on_get_local_port(&mut self, port: u16)
        ensures
            final(self)@ == (P2PView { data: PlugView { port, ..old(self)@.data }, ..old(self)@ }),
    {
        self.data.set_port(port);
        assert(self@ =~= (P2PView { data: PlugView { port, ..old(self)@.data }, ..old(self)@ }));
    }

    /// Queues `(m, ext)` for the server.
    fn send_data(&mut self, m: Vec<u8>, ext: u32)
        ensures
            final(self)@ == p2p_send(old(self)@, m@, ext),
    {
        let ghost s0 = self@;
        self.curr_sender.push((m, ext));
        assert(self@ =~= p2p_send(s0, m@, ext));
    }

    /// Requests a link with `cpid` through the server, the local addresses being `ips`.
    pub fn req_link(&mut self, cpid: usize, ips: &Vec<u32>) -> (r: Result<(), P2PErr>)
        ensures
            (final(self)@, r) == spec_req_link(old(self)@, cpid, ips@),
    {
        if self.data.link_map.contains_key(&cpid) {
            return Err(P2PErr::LinkExist);
        }
        let port = self.data.port;
        if port == 0 {
            return Err(P2PErr::NotReady);
        }
        if ips.len() == 0 {
            return Err(P2PErr::NotFindAnyLocalAddr);
        }
        proof {
            lemma_usize_width();
        }
        let mut d: Vec<u8> = Vec::new();
        push_be(&mut d, cpid as u128, core::mem::size_of::<usize>());
        push_addrs(&mut d, port, ips);
        let ghost s0 = self@;
        self.data.add_link(LinkState::WaitAccept, cpid);
        proof {
            assert(self@ =~= P2PView { data: self@.data, ..s0 });
        }
        self.send_data(d, EXT_REQ_HELP_LINK_P2P_CS);
        Ok(())
    }

    /// Answers the link request of `cpid`, the local addresses being `ips`.
    pub fn accept_p2p(&mut self, cpid: usize, accept: bool, ips: &Vec<u32>) -> (r: Result<(), P2PErr>)
        ensures
            (final(self)@, r) == spec_accept_p2p(old(self)@, cpid, accept, ips@),
    {
        let port = self.data.port;
        if port == 0 {
            return Err(P2PErr::NotReady);
        }
        proof {
            lemma_usize_width();
        }
        let mut d: Vec<u8> = Vec::new();
        push_be(&mut d, cpid as u128, core::mem::size_of::<usize>());
        d.push(if accept { 1u8 } else { 0u8 });
        if ips.len() == 0 {
            return Err(P2PErr::NotFindAnyLocalAddr);
        }
        push_addrs(&mut d, port, ips);
        let ghost s0 = self@;
        if !accept {
            self.data.rm_link(cpid);
        } else {
            self.data.set_state(cpid, LinkState::Accepted);
        }
        proof {
            assert(self@ =~= P2PView { data: self@.data, ..s0 });
            assert(d@ =~= accept_msg(cpid, accept, port, ips@));
        }
        self.send_data(d, EXT_ACCEPT_LINK_P2P_CS);
        Ok(())
    }
}

} // verus!

verus! {

/// `v` with a link with `cpid` in state `st` added, unless one exists.
pub open spec fn spec_add_link(v: PlugView, st: LinkState, cpid: usize) -> PlugView {
    if v.links.contains_key(cpid) {
        v
    } else {
        PlugView {
            links: v.links.insert(
                cpid,
                LinkView { cp: cpid, state: st, verify_code: None, connected_addr: None, local_entity: LocalEntity::Unset },
            ),
            ..v
        }
    }
}

/// `v` with the link with `cpid` named by `code`, unless the code names a link
/// already or there is no such link.
pub open spec fn spec_set_verify_code(v: PlugView, cpid: usize, code: Seq<u8>) -> PlugView {
    if code_from(v.codes, code, 0) is None && v.links.contains_key(cpid) {
        PlugView {
            links: v.links.insert(cpid, LinkView { verify_code: Some(code), ..v.links[cpid] }),
            codes: v.codes.push((code, cpid)),
            ..v
        }
    } else {
        v
    }
}

/// The verification code of the link with `id`, while it still names a link.
pub open spec fn verify_code_of(v: PlugView, id: usize) -> Option<Seq<u8>> {
    if v.links.contains_key(id) {
        match v.links[id].verify_code {
            Some(c) => if code_from(v.codes, c, 0) is Some {
                Some(c)
            } else {
                None
            },
            None => None,
        }
    } else {
        None
    }
}

/// What a message `msg` with ext `ext` from the server does, the local addresses
/// being `ips`: link requests are accepted, failed or refused links removed,
/// verification codes recorded, waiting confirmed, and a try-connect sends hello 1
/// to the address given.
pub open spec fn spec_p2p_handle(s: P2PView, ext: u32, msg: Seq<u8>, ips: Seq<u32>) -> P2PView {
    let w = usize_len() as int;
    if !spec_need_parse_cpid(ext) || msg.len() < w {
        s
    } else {
        let cpid = be_nat(msg.subrange(0, w)) as usize;
        let rest = msg.subrange(w, msg.len() as int);
        if ext == EXT_REQ_LINK_P2P_SC {
            spec_accept_p2p(P2PView { data: spec_add_link(s.data, LinkState::WaitAccept, cpid), ..s }, cpid, true, ips).0
        } else if ext == EXT_ERR_P2P_LINK_FAILED || ext == EXT_ERR_P2P_CP_OFFLINE || ext == EXT_REQ_LINK_P2P_REJECTED_SC {
            P2PView { data: spec_rm_link(s.data, cpid), ..s }
        } else if ext == EXT_P2P_SYNC_VERIFY_CODE_SC {
            P2PView { data: spec_set_verify_code(s.data, cpid, lossy_utf8(rest)), ..s }
        } else if ext == EXT_P2P_WAIT_CONNECT_SC {
            p2p_send(
                P2PView { data: with_state(s.data, cpid, LinkState::WaitingHello1), ..s },
                be_bytes(cpid as nat, usize_len()),
                EXT_P2P_WAITING_CONNECT_CS,
            )
        } else if rest.len() >= 6 {
            let addr = PeerAddr { ip: be_nat(rest.subrange(0, 4)) as u32, port: be_nat(rest.subrange(4, 6)) as u16 };
            match verify_code_of(s.data, cpid) {
                Some(c) => P2PView {
                    data: with_state(s.data, cpid, LinkState::TryConnect(addr)),
                    udp: s.udp.push((addr, spec_wrap(c, 1), 18u8)),
                    ..s
                },
                None => s,
            }
        } else {
            s
        }
    }
}

/// The hello with ext number `v`.
pub open spec fn hello_of(v: u16) -> Hello {
    if v == 1 {
        Hello::Hello1
    } else if v == 2 {
        Hello::Hello2
    } else if v == 3 {
        Hello::Hello3
    } else {
        Hello::Hello4
    }
}

/// What a datagram from `addr` that is not for the server connection does: a hello
/// carrying the verification code of a link in the state that waits for it moves the
/// link on (hello 3 also starts the local link server, hello 4 reports the first
/// stage done) and is answered with the next hello, eighteen times; any other
/// datagram goes to the local link server, once it runs.
pub open spec fn spec_p2p_recv(s: P2PView, addr: PeerAddr, data: Seq<u8>) -> P2PView {
    match spec_unwrap(data) {
        None => if s.server_started {
            P2PView { forward: s.forward.push((addr, data)), ..s }
        } else {
            s
        },
        Some((msg, ext)) => {
            let h = hello_of(ext);
            match code_from(s.data.codes, lossy_utf8(msg), 0) {
                None => s,
                Some(i) => {
                    let cpid = s.data.codes[i].1;
                    if !s.data.links.contains_key(cpid) || s.data.links[cpid].state != spec_waiting_st(h, addr) {
                        s
                    } else {
                        let link = s.data.links[cpid];
                        let link2 = LinkView {
                            state: spec_next_st(h),
                            connected_addr: if h is Hello2 || h is Hello3 {
                                Some(addr)
                            } else {
                                link.connected_addr
                            },
                            ..link
                        };
                        let s1 = P2PView {
                            data: PlugView { links: s.data.links.insert(cpid, link2), ..s.data },
                            server_started: s.server_started || h is Hello3,
                            ..s
                        };
                        let s2 = if h is Hello4 {
                            p2p_send(s1, be_bytes(link.cp as nat, usize_len()), EXT_P2P_CONNECT_SUCCESS_STAGE1_CS)
                        } else {
                            s1
                        };
                        if ext != 4 {
                            P2PView { udp: s2.udp.push((addr, spec_wrap(msg, (ext + 1) as u16), 18u8)), ..s2 }
                        } else {
                            s2
                        }
                    }
                },
            }
        },
    }
}

/// `on_recv_oth_msg` returns on `data`: a hello datagram names one of the four hellos.
pub open spec fn recv_oth_ok(data: Seq<u8>) -> bool {
    &&& unwrap_ok(data)
    &&& spec_unwrap(data) matches Some((_, ext)) ==> 1 <= ext <= 4
}

impl P2PPlug {
    /// Handles message `msg` with ext `ext` from the server, the local addresses being
    /// `ips` (see `spec_p2p_handle`).
    pub fn handle(&mut self, ext: u32, msg: &[u8], ips: &Vec<u32>)
        ensures
            final(self)@ == spec_p2p_handle(old(self)@, ext, msg@, ips@),
    {
        if !need_parse_cpid(ext) {
            return;
        }
        proof {
            lemma_usize_width();
            lemma_pow256_values();
        }
        let mut stream = Stream::new(msg);
        let cpid = match usize::stream_parse(&mut stream) {
            Some(id) => id,
            None => {
                return;
            },
        };
        proof {
            lemma_be_nat_bound(msg@.subrange(0, usize_len() as int));
            assert(msg@.len() >= usize_len());
            assert(cpid as nat == be_nat(msg@.subrange(0, usize_len() as int)));
            assert(stream.ptr() == usize_len());
        }
        if ext == EXT_REQ_LINK_P2P_SC {
            let ghost s0 = self@;
            self.data.add_link(LinkState::WaitAccept, cpid);
            proof {
                assert(self@ =~= P2PView { data: spec_add_link(s0.data, LinkState::WaitAccept, cpid), ..s0 });
            }
            let _ = self.accept_p2p(cpid, true, ips);
        } else if ext == EXT_ERR_P2P_LINK_FAILED || ext == EXT_ERR_P2P_CP_OFFLINE || ext == EXT_REQ_LINK_P2P_REJECTED_SC {
            let ghost s0 = self@;
            self.data.rm_link(cpid);
            proof {
                assert(self@ =~= P2PView { data: spec_rm_link(s0.data, cpid), ..s0 });
            }
        } else if ext == EXT_P2P_SYNC_VERIFY_CODE_SC {
            let rest = stream.get_rest();
            assert(rest@ =~= msg@.subrange(usize_len() as int, msg@.len() as int));
            let code = lossy(rest);
            let ghost s0 = self@;
            self.data.set_verify_code(cpid, code);
            proof {
                assert(self@ =~= P2PView {
                    data: spec_set_verify_code(s0.data, cpid, lossy_utf8(msg@.subrange(usize_len() as int, msg@.len() as int))),
                    ..s0
                });
            }
        } else if ext == EXT_P2P_WAIT_CONNECT_SC {
            let ghost s0 = self@;
            self.data.set_state(cpid, LinkState::WaitingHello1);
            let mut d: Vec<u8> = Vec::new();
            push_be(&mut d, cpid as u128, core::mem::size_of::<usize>());
            proof {
                assert(self@ =~= P2PView { data: with_state(s0.data, cpid, LinkState::WaitingHello1), ..s0 });
                assert(d@ =~= be_bytes(cpid as nat, usize_len()));
            }
            self.send_data(d, EXT_P2P_WAITING_CONNECT_CS);
        } else {
            let ghost w = usize_len() as int;
            let ghost rest = msg@.subrange(w, msg@.len() as int);
            proof {
                if rest.len() >= 6 {
                    assert(rest.subrange(0, 4) =~= msg@.subrange(w, w + 4));
                    assert(rest.subrange(4, 6) =~= msg@.subrange(w + 4, w + 6));
                    lemma_be_nat_bound(rest.subrange(0, 4));
                    lemma_be_nat_bound(rest.subrange(4, 6));
                }
            }
            let a = parse_addr(&mut stream);
            if let Some(addr) = a {
                if let Some(c) = self.data.get_verify_code_cpid(cpid) {
                    let ghost s0 = self@;
                    self.data.set_state(cpid, LinkState::TryConnect(addr));
                    let w = wrap(c.as_slice(), 1);
                    self.udp_out.push((addr, w, 18));
                    proof {
                        assert(self@ =~= P2PView {
                            data: with_state(s0.data, cpid, LinkState::TryConnect(addr)),
                            udp: s0.udp.push((addr, spec_wrap(c@, 1), 18u8)),
                            ..s0
                        });
                    }
                }
            }
        }
    }

    /// Handles a datagram from `addr` that is not for the server connection (see
    /// `spec_p2p_recv`); tells whether the local link server is to be started now.
    pub fn on_recv_oth_msg(&mut self, addr: PeerAddr, data: &[u8]) -> (r: bool)
        requires
            recv_oth_ok(data@),
        ensures
            final(self)@ == spec_p2p_recv(old(self)@, addr, data@),
            r == (final(self)@.server_started && !old(self)@.server_started),
    {
        let ghost s0 = self@;
        match unwrap(data) {
            None => {
                if self.server_started {
                    let c = copy_range(data, 0, data.len());
                    self.to_server.push((addr, c));
                    proof {
                        assert(data@.subrange(0, data@.len() as int) =~= data@);
                        assert(self@ =~= P2PView { forward: s0.forward.push((addr, data@)), ..s0 });
                    }
                }
                false
            },
            Some((msg, ext)) => {
                let h = match Hello::from_u16(ext) {
                    Some(h) => h,
                    None => {
                        return false;
                    },
                };
                assert(h == hello_of(ext));
                let code = lossy(msg.as_slice());
                let cpid = match self.data.get_cpid_verify_code(code.as_slice()) {
                    Some(c) => c,
                    None => {
                        return false;
                    },
                };
                let link = match self.data.link_map.remove(&cpid) {
                    Some(l) => l,
                    None => {
                        proof {
                            assert(self.data@.links =~= s0.data.links);
                            assert(self@ =~= s0);
                        }
                        return false;
                    },
                };
                if link.state != get_waiting_st(h, addr) {
                    self.data.link_map.insert(cpid, link);
                    proof {
                        assert(self.data@.links =~= s0.data.links);
                        assert(self@ =~= s0);
                    }
                    return false;
                }
                let cp = link.cp;
                let connected = match h {
                    Hello::Hello2 | Hello::Hello3 => Some(addr),
                    _ => link.connected_addr,
                };
                let link2 = LinkData { state: get_next_st(h), connected_addr: connected, ..link };
                self.data.link_map.insert(cpid, link2);
                let started = match h {
                    Hello::Hello3 => !self.server_started,
                    _ => false,
                };
                if started {
                    self.server_started = true;
                }
                proof {
                    let l0 = s0.data.links[cpid];
                    assert(self.data@.links =~= s0.data.links.insert(cpid, LinkView {
                        state: spec_next_st(h),
                        connected_addr: if h is Hello2 || h is Hello3 { Some(addr) } else { l0.connected_addr },
                        ..l0
                    }));
                }
                match h {
                    Hello::Hello4 => {
                        let mut d: Vec<u8> = Vec::new();
                        proof {
                            lemma_usize_width();
                        }
                        push_be(&mut d, cp as u128, core::mem::size_of::<usize>());
                        assert(d@ =~= be_bytes(cp as nat, usize_len()));
                        self.send_data(d, EXT_P2P_CONNECT_SUCCESS_STAGE1_CS);
                    },
                    _ => {},
                }
                if ext != 4 {
                    let w = wrap(msg.as_slice(), ext + 1);
                    let ghost s2 = self@;
                    self.udp_out.push((addr, w, 18));
                    proof {
                        assert(self@ =~= P2PView { udp: s2.udp.push((addr, spec_wrap(msg@, (ext + 1) as u16), 18u8)), ..s2 });
                    }
                }
                started
            },
        }
    }

    /// Takes the messages queued for the server, oldest first.
    pub fn take_sent(&mut self) -> (r: Vec<(Vec<u8>, u32)>)
        ensures
            r@.len() == old(self)@.sent.len(),
            forall|i: int| 0 <= i < r@.len() ==> (#[trigger] r@[i]).0@ == old(self)@.sent[i].0 && r@[i].1 == old(self)@.sent[i].1,
            final(self)@ == (P2PView { sent: Seq::empty(), ..old(self)@ }),
    {
        let mut r: Vec<(Vec<u8>, u32)> = Vec::new();
        std::mem::swap(&mut r, &mut self.curr_sender);
        assert(self@ =~= (P2PView { sent: Seq::empty(), ..old(self)@ }));
        r
    }

    /// Takes the hello datagrams to send: address, datagram, how many times.
    pub fn take_udp(&mut self) -> (r: Vec<(PeerAddr, Vec<u8>, u8)>)
        ensures
            r@.len() == old(self)@.udp.len(),
            forall|i: int| 0 <= i < r@.len() ==> (#[trigger] r@[i]).0 == old(self)@.udp[i].0 && r@[i].1@ == old(self)@.udp[i].1 && r@[i].2 == old(self)@.udp[i].2,
            final(self)@ == (P2PView { udp: Seq::empty(), ..old(self)@ }),
    {
        let mut r: Vec<(PeerAddr, Vec<u8>, u8)> = Vec::new();
        std::mem::swap(&mut r, &mut self.udp_out);
        assert(self@ =~= (P2PView { udp: Seq::empty(), ..old(self)@ }));
        r
    }

    /// Takes the datagrams for the local link server.
    pub fn take_forward(&mut self) -> (r: Vec<(PeerAddr, Vec<u8>)>)
        ensures
            r@.len() == old(self)@.forward.len(),
            forall|i: int| 0 <= i < r@.len() ==> (#[trigger] r@[i]).0 == old(self)@.forward[i].0 && r@[i].1@ == old(self)@.forward[i].1,
            final(self)@ == (P2PView { forward: Seq::empty(), ..old(self)@ }),
    {
        let mut r: Vec<(PeerAddr, Vec<u8>)> = Vec::new();
        std::mem::swap(&mut r, &mut self.to_server);
        assert(self@ =~= (P2PView { forward: Seq::empty(), ..old(self)@ }));
        r
    }

    /// Records that local server client `cid` serves the link with `cp`.
    pub fn client_connected(&mut self, cp: usize, cid: usize) -> (r: bool)
        ensures
            r == (!old(self)@.data.ser.contains_key(cid) && old(self)@.data.links.contains_key(cp)
                && old(self)@.data.links[cp].local_entity == LocalEntity::Unset),
            r ==> final(self)@ == (P2PView {
                data: PlugView {
                    links: old(self)@.data.links.insert(cp, LinkView { local_entity: LocalEntity::Ser(cid), ..old(self)@.data.links[cp] }),
                    ser: old(self)@.data.ser.insert(cid, cp),
                    ..old(self)@.data
                },
                ..old(self)@
            }),
            !r ==> final(self)@ == old(self)@,
    {
        let ghost s0 = self@;
        let r = self.data.client_connected(cp, cid);
        assert(self@ =~= P2PView { data: self@.data, ..s0 });
        r
    }
}

/// The verification code `c` names the link with `cp`, which exists.
pub open spec fn names_link(v: PlugView, c: Seq<u8>, cp: usize) -> bool {
    &&& code_from(v.codes, c, 0) matches Some(i) && v.codes[i].1 == cp
    &&& v.links.contains_key(cp)
}

/// The link handshake: an end that tries the address `addr_b` and an end that waits
/// for hello 1, both naming their link by the code `c` read as text, exchange hellos 1
/// to 4 carrying `c`, each
/// answered with the next. The waiting end moves to wait for hello 3, then records
/// the trying end's address, starts its link server and ends with the first stage
/// done as the receiving side; the trying end records the address, moves to the first
/// stage done, and on hello 4 is ready for the real link and reports the first stage
/// to the server.
pub proof fn lemma_hello_handshake(
    a: P2PView,
    b: P2PView,
    c: Seq<u8>,
    cp_a: usize,
    cp_b: usize,
    addr_a: PeerAddr,
    addr_b: PeerAddr,
)
    requires
        0 < c.len(),
        c.len() + 8 < 0x1_0000_0000,
        names_link(a.data, lossy_utf8(c), cp_a),
        a.data.links[cp_a].state == LinkState::TryConnect(addr_b),
        names_link(b.data, lossy_utf8(c), cp_b),
        b.data.links[cp_b].state == LinkState::WaitingHello1,
    ensures
        ({
            let b1 = spec_p2p_recv(b, addr_a, spec_wrap(c, 1));
            let a1 = spec_p2p_recv(a, addr_b, spec_wrap(c, 2));
            let b2 = spec_p2p_recv(b1, addr_a, spec_wrap(c, 3));
            let a2 = spec_p2p_recv(a1, addr_b, spec_wrap(c, 4));
            &&& b1.udp == b.udp.push((addr_a, spec_wrap(c, 2), 18u8))
            &&& b1.data.links[cp_b].state == LinkState::WaitingHello3
            &&& a1.udp == a.udp.push((addr_b, spec_wrap(c, 3), 18u8))
            &&& a1.data.links[cp_a].state == LinkState::Stage1Success(false)
            &&& a1.data.links[cp_a].connected_addr == Some(addr_b)
            &&& b2.udp == b1.udp.push((addr_a, spec_wrap(c, 4), 18u8))
            &&& b2.data.links[cp_b].state == LinkState::Stage1Success(true)
            &&& b2.data.links[cp_b].connected_addr == Some(addr_a)
            &&& b2.server_started
            &&& a2.udp == a1.udp
            &&& a2.data.links[cp_a].state == LinkState::PrepareRealLink
            &&& a2.sent == a1.sent.push(
                (be_bytes(a.data.links[cp_a].cp as nat, usize_len()), EXT_P2P_CONNECT_SUCCESS_STAGE1_CS),
            )
        }),
{
    lemma_unwrap_wrap(c, 1);
    lemma_unwrap_wrap(c, 2);
    lemma_unwrap_wrap(c, 3);
    lemma_unwrap_wrap(c, 4);
    assert(hello_of(1) == Hello::Hello1);
    assert(hello_of(2) == Hello::Hello2);
    assert(hello_of(3) == Hello::Hello3);
    assert(hello_of(4) == Hello::Hello4);
}

} // verus!

verus! {

/// What the owner of a peer-to-peer plug hears about link requests.
pub trait P2PEvent {
    fn on_recv_p2p_req(&self, cpid: usize);

    fn on_recv_wait_accept_timeout(&self, cpid: usize);
}

} // verus!
