//! Errors, session states, control codes and datagram frames of the reliable UDP
//! sender.
use vstd::prelude::*;
use crate::bytes::{be_nat, be_bytes, pow256, lemma_pow256_values, lemma_be_roundtrip, lemma_be_bytes_len, lemma_be_nat_bound, push_be, push_all, read_be, copy_range};
use crate::stream_parser::lemma_usize_width;

verus! {

/// Errors of the reliable UDP sender.
#[derive(Debug)]
pub enum USErr {
    EmptyMsg,
    MsgCacheOverflow,
    RetryTimesLimit,
    Warp((i32, String)),
    ResponseSendSuccMiss,
    SendSuccMissCache,
    BadSessionID,
    NoSession,
    AlreadyHasSession,
    WaitSessionResponse,
    WaitSessionResponseCp,
    NotWaitingSessionResponse,
    NotWaitingSessionResponseCp,
    SendSessionFailed,
    AlreadyClosed,
    CpAlreadyClosed,
    CpRequestClosed,
    BadRequest,
    CloseSuccess,
}

/// The numeric code of each error.
pub open spec fn spec_err_code(e: USErr) -> int {
    match e {
        USErr::EmptyMsg => 0,
        USErr::MsgCacheOverflow => -1,
        USErr::RetryTimesLimit => -2,
        USErr::Warp(w) => w.0 as int,
        USErr::ResponseSendSuccMiss => -4,
        USErr::SendSuccMissCache => -5,
        USErr::BadSessionID => -6,
        USErr::NoSession => -7,
        USErr::AlreadyHasSession => -8,
        USErr::WaitSessionResponse => -9,
        USErr::SendSessionFailed => -10,
        USErr::NotWaitingSessionResponse => -11,
        USErr::NotWaitingSessionResponseCp => -12,
        USErr::WaitSessionResponseCp => -13,
        USErr::AlreadyClosed => -14,
        USErr::CpAlreadyClosed => -15,
        USErr::CpRequestClosed => -16,
        USErr::BadRequest => -17,
        USErr::CloseSuccess => -18,
    }
}

/// `a` and `b` are the same error: the same variant, and for a wrapped I/O error
/// the same code and text.
pub open spec fn same_err(a: USErr, b: USErr) -> bool {
    match (a, b) {
        (USErr::Warp(x), USErr::Warp(y)) => x.0 == y.0 && x.1@ == y.1@,
        (USErr::Warp(_), _) => false,
        (_, USErr::Warp(_)) => false,
        _ => a == b,
    }
}

impl Clone for USErr {
    fn clone(&self) -> (r: USErr)
        ensures
            same_err(r, *self),
            spec_err_code(r) == spec_err_code(*self),
    {
        match self {
            USErr::Warp(e) => USErr::Warp((e.0, e.1.clone())),
            USErr::EmptyMsg => USErr::EmptyMsg,
            USErr::MsgCacheOverflow => USErr::MsgCacheOverflow,
            USErr::RetryTimesLimit => USErr::RetryTimesLimit,
            USErr::ResponseSendSuccMiss => USErr::ResponseSendSuccMiss,
            USErr::SendSuccMissCache => USErr::SendSuccMissCache,
            USErr::BadSessionID => USErr::BadSessionID,
            USErr::NoSession => USErr::NoSession,
            USErr::AlreadyHasSession => USErr::AlreadyHasSession,
            USErr::WaitSessionResponse => USErr::WaitSessionResponse,
            USErr::WaitSessionResponseCp => USErr::WaitSessionResponseCp,
            USErr::NotWaitingSessionResponse => USErr::NotWaitingSessionResponse,
            USErr::NotWaitingSessionResponseCp => USErr::NotWaitingSessionResponseCp,
            USErr::SendSessionFailed => USErr::SendSessionFailed,
            USErr::AlreadyClosed => USErr::AlreadyClosed,
            USErr::CpAlreadyClosed => USErr::CpAlreadyClosed,
            USErr::CpRequestClosed => USErr::CpRequestClosed,
            USErr::BadRequest => USErr::BadRequest,
            USErr::CloseSuccess => USErr::CloseSuccess,
        }
    }
}

impl USErr {
    pub fn code(&self) -> (r: i32)
        ensures
            r == spec_err_code(*self),
    {
        match self {
            USErr::EmptyMsg => 0,
            USErr::MsgCacheOverflow => -1,
            USErr::RetryTimesLimit => -2,
            USErr::Warp(e) => e.0,
            USErr::ResponseSendSuccMiss => -4,
            USErr::SendSuccMissCache => -5,
            USErr::BadSessionID => -6,
            USErr::NoSession => -7,
            USErr::AlreadyHasSession => -8,
            USErr::WaitSessionResponse => -9,
            USErr::SendSessionFailed => -10,
            USErr::NotWaitingSessionResponse => -11,
            USErr::NotWaitingSessionResponseCp => -12,
            USErr::WaitSessionResponseCp => -13,
            USErr::AlreadyClosed => -14,
            USErr::CpAlreadyClosed => -15,
            USErr::CpRequestClosed => -16,
            USErr::BadRequest => -17,
            USErr::CloseSuccess => -18,
        }
    }

    /// A description of the error.
    pub fn err_str(&self) -> (r: String)
        ensures
            match *self {
                USErr::Warp(w) => r@ == w.1@,
                USErr::EmptyMsg => r@ == "Empty Message"@,
                USErr::MsgCacheOverflow => r@ == "Message cache overflow"@,
                USErr::RetryTimesLimit => r@ == "Retry times reach the maximum"@,
                USErr::ResponseSendSuccMiss => r@ == "Response send success miss message id"@,
                USErr::SendSuccMissCache => r@ == "Send success miss the cache"@,
                USErr::BadSessionID => r@ == "Bad session ID"@,
                USErr::NoSession => r@ == "No Session"@,
                USErr::AlreadyHasSession => r@ == "Already has session"@,
                USErr::WaitSessionResponse => r@ == "Waiting session response"@,
                USErr::SendSessionFailed => r@ == "Send session failed"@,
                USErr::NotWaitingSessionResponse => r@ == "Not waiting session response"@,
                USErr::NotWaitingSessionResponseCp => r@ == "Not waiting session response cp"@,
                USErr::WaitSessionResponseCp => r@ == "Waiting session response cp"@,
                USErr::AlreadyClosed => r@ == "Session already closed!"@,
                USErr::CpAlreadyClosed => r@ == "Cp Session already closed!"@,
                USErr::CpRequestClosed => r@ == "Cp Session request closed!"@,
                USErr::BadRequest => r@ == "Bad request!"@,
                USErr::CloseSuccess => r@ == "Session close success!"@,
            },
    {
        match self {
            USErr::EmptyMsg => "Empty Message".to_string(),
            USErr::MsgCacheOverflow => "Message cache overflow".to_string(),
            USErr::RetryTimesLimit => "Retry times reach the maximum".to_string(),
            USErr::Warp(e) => e.1.clone(),
            USErr::ResponseSendSuccMiss => "Response send success miss message id".to_string(),
            USErr::SendSuccMissCache => "Send success miss the cache".to_string(),
            USErr::BadSessionID => "Bad session ID".to_string(),
            USErr::NoSession => "No Session".to_string(),
            USErr::AlreadyHasSession => "Already has session".to_string(),
            USErr::WaitSessionResponse => "Waiting session response".to_string(),
            USErr::SendSessionFailed => "Send session failed".to_string(),
            USErr::NotWaitingSessionResponse => "Not waiting session response".to_string(),
            USErr::NotWaitingSessionResponseCp => "Not waiting session response cp".to_string(),
            USErr::WaitSessionResponseCp => "Waiting session response cp".to_string(),
            USErr::AlreadyClosed => "Session already closed!".to_string(),
            USErr::CpAlreadyClosed => "Cp Session already closed!".to_string(),
            USErr::CpRequestClosed => "Cp Session request closed!".to_string(),
            USErr::BadRequest => "Bad request!".to_string(),
            USErr::CloseSuccess => "Session close success!".to_string(),
        }
    }
}

} // verus!

verus! {

/// The state of a session with the counterpart ("cp"): no session yet, waiting for
/// the counterpart to answer our session id (with the time and number of tries),
/// waiting for it to confirm its own id, established, and the closing states.
#[derive(Clone, Copy, PartialEq, Eq, Structural)]
pub enum SessionState {
    Null,
    WaitResponse(u128, u128, u16),
    WaitResponseCp(u128, u128, u16),
    Has(u128),
    Closed(u128),
    PrepareClose(u128, u128, u16),
    ReqClose(u128, u128, u16),
}

impl SessionState {
    /// Whether the session id is settled on this side.
    pub fn is_has(&self) -> (r: bool)
        ensures
            r == (*self is WaitResponseCp || *self is Has),
    {
        match self {
            SessionState::Null => false,
            SessionState::WaitResponse(_, _, _) => false,
            SessionState::WaitResponseCp(_, _, _) => true,
            SessionState::Has(_) => true,
            SessionState::Closed(_) => false,
            SessionState::PrepareClose(_, _, _) => false,
            SessionState::ReqClose(_, _, _) => false,
        }
    }

    pub fn is_close(&self) -> (r: bool)
        ensures
            r == (*self is Closed),
    {
        match self {
            SessionState::Closed(_) => true,
            _ => false,
        }
    }

    /// The session id that outgoing messages carry, when there is one.
    pub fn get_sid(&self) -> (r: Option<u128>)
        ensures
            r == spec_sid(*self),
    {
        match self {
            SessionState::WaitResponseCp(v, _, _) => Some(*v),
            SessionState::Has(v) => Some(*v),
            _ => None,
        }
    }

    pub fn eq_sid(&self, v: u128) -> (r: bool)
        ensures
            r == (spec_sid(*self) == Some(v)),
    {
        match self {
            SessionState::WaitResponseCp(v_, _, _) => v == *v_,
            SessionState::Has(v_) => v == *v_,
            _ => false,
        }
    }

    pub fn is_waiting_session(&self) -> (r: bool)
        ensures
            r == (*self is WaitResponse),
    {
        match self {
            SessionState::WaitResponse(_, _, _) => true,
            _ => false,
        }
    }
}

/// The session id carried by outgoing messages in state `s`.
pub open spec fn spec_sid(s: SessionState) -> Option<u128> {
    match s {
        SessionState::WaitResponseCp(v, _, _) => Some(v),
        SessionState::Has(v) => Some(v),
        _ => None,
    }
}

/// Control codes carried in the ext field of a one-byte control message.
#[derive(Clone, Copy, PartialEq, Eq, Structural, Debug)]
pub enum SpecialExt {
    SendRecv,
    MissCache,
    SendSid,
    ResponseSendSid,
    ResponseCpSendSid,
    SendClose,
    SkipMessage,
    ReqClose,
    CpClose,
    CloseSucc,
    ErrBegin,
    ErrAlreadyHasSid,
    ErrWaitingResponse,
    ErrBadSession,
    ErrNoSession,
    ErrNotWaitSidResp,
    ErrWaitingResponseCp,
    ErrNotWaitSidRespCp,
    ErrAlreadyClosed,
    ErrBadRequest,
    ErrEnd,
}

/// The byte that makes up the body of a control message.
pub const CONTROL_BYTE: u8 = 199;

/// The ext value of each control code.
pub open spec fn spec_ext_value(e: SpecialExt) -> u32 {
    match e {
        SpecialExt::SendRecv => u32::MAX,
        SpecialExt::MissCache => (u32::MAX - 1) as u32,
        SpecialExt::SendSid => 100,
        SpecialExt::ResponseSendSid => 101,
        SpecialExt::ResponseCpSendSid => 102,
        SpecialExt::SendClose => 103,
        SpecialExt::SkipMessage => 104,
        SpecialExt::ReqClose => 105,
        SpecialExt::CpClose => 106,
        SpecialExt::CloseSucc => 107,
        SpecialExt::ErrBegin => 4999,
        SpecialExt::ErrAlreadyHasSid => 5000,
        SpecialExt::ErrWaitingResponse => 5001,
        SpecialExt::ErrBadSession => 5002,
        SpecialExt::ErrNoSession => 5003,
        SpecialExt::ErrNotWaitSidResp => 5004,
        SpecialExt::ErrWaitingResponseCp => 5005,
        SpecialExt::ErrNotWaitSidRespCp => 5006,
        SpecialExt::ErrAlreadyClosed => 5007,
        SpecialExt::ErrBadRequest => 5008,
        SpecialExt::ErrEnd => 5009,
    }
}

/// The control code with ext value `v`, if any.
pub open spec fn spec_special_ext_of(v: u32) -> Option<SpecialExt> {
    if v == u32::MAX {
        Some(SpecialExt::SendRecv)
    } else if v == u32::MAX - 1 {
        Some(SpecialExt::MissCache)
    } else if v == 100 {
        Some(SpecialExt::SendSid)
    } else if v == 101 {
        Some(SpecialExt::ResponseSendSid)
    } else if v == 102 {
        Some(SpecialExt::ResponseCpSendSid)
    } else if v == 103 {
        Some(SpecialExt::SendClose)
    } else if v == 104 {
        Some(SpecialExt::SkipMessage)
    } else if v == 105 {
        Some(SpecialExt::ReqClose)
    } else if v == 106 {
        Some(SpecialExt::CpClose)
    } else if v == 107 {
        Some(SpecialExt::CloseSucc)
    } else if v == 4999 {
        Some(SpecialExt::ErrBegin)
    } else if v == 5000 {
        Some(SpecialExt::ErrAlreadyHasSid)
    } else if v == 5001 {
        Some(SpecialExt::ErrWaitingResponse)
    } else if v == 5002 {
        Some(SpecialExt::ErrBadSession)
    } else if v == 5003 {
        Some(SpecialExt::ErrNoSession)
    } else if v == 5004 {
        Some(SpecialExt::ErrNotWaitSidResp)
    } else if v == 5005 {
        Some(SpecialExt::ErrWaitingResponseCp)
    } else if v == 5006 {
        Some(SpecialExt::ErrNotWaitSidRespCp)
    } else if v == 5007 {
        Some(SpecialExt::ErrAlreadyClosed)
    } else if v == 5008 {
        Some(SpecialExt::ErrBadRequest)
    } else if v == 5009 {
        Some(SpecialExt::ErrEnd)
    } else {
        None
    }
}

impl SpecialExt {
    pub fn to_u32(self) -> (r: u32)
        ensures
            r == spec_ext_value(self),
    {
        match self {
            SpecialExt::SendRecv => u32::MAX,
            SpecialExt::MissCache => u32::MAX - 1,
            SpecialExt::SendSid => 100,
            SpecialExt::ResponseSendSid => 101,
            SpecialExt::ResponseCpSendSid => 102,
            SpecialExt::SendClose => 103,
            SpecialExt::SkipMessage => 104,
            SpecialExt::ReqClose => 105,
            SpecialExt::CpClose => 106,
            SpecialExt::CloseSucc => 107,
            SpecialExt::ErrBegin => 4999,
            SpecialExt::ErrAlreadyHasSid => 5000,
            SpecialExt::ErrWaitingResponse => 5001,
            SpecialExt::ErrBadSession => 5002,
            SpecialExt::ErrNoSession => 5003,
            SpecialExt::ErrNotWaitSidResp => 5004,
            SpecialExt::ErrWaitingResponseCp => 5005,
            SpecialExt::ErrNotWaitSidRespCp => 5006,
            SpecialExt::ErrAlreadyClosed => 5007,
            SpecialExt::ErrBadRequest => 5008,
            SpecialExt::ErrEnd => 5009,
        }
    }

    /// The control code with ext value `v`, if any.
    pub fn try_from_u32(v: u32) -> (r: Option<SpecialExt>)
        ensures
            r == spec_special_ext_of(v),
    {
        if v == u32::MAX {
            Some(SpecialExt::SendRecv)
        } else if v == u32::MAX - 1 {
            Some(SpecialExt::MissCache)
        } else if v == 100 {
            Some(SpecialExt::SendSid)
        } else if v == 101 {
            Some(SpecialExt::ResponseSendSid)
        } else if v == 102 {
            Some(SpecialExt::ResponseCpSendSid)
        } else if v == 103 {
            Some(SpecialExt::SendClose)
        } else if v == 104 {
            Some(SpecialExt::SkipMessage)
        } else if v == 105 {
            Some(SpecialExt::ReqClose)
        } else if v == 106 {
            Some(SpecialExt::CpClose)
        } else if v == 107 {
            Some(SpecialExt::CloseSucc)
        } else if v == 4999 {
            Some(SpecialExt::ErrBegin)
        } else if v == 5000 {
            Some(SpecialExt::ErrAlreadyHasSid)
        } else if v == 5001 {
            Some(SpecialExt::ErrWaitingResponse)
        } else if v == 5002 {
            Some(SpecialExt::ErrBadSession)
        } else if v == 5003 {
            Some(SpecialExt::ErrNoSession)
        } else if v == 5004 {
            Some(SpecialExt::ErrNotWaitSidResp)
        } else if v == 5005 {
            Some(SpecialExt::ErrWaitingResponseCp)
        } else if v == 5006 {
            Some(SpecialExt::ErrNotWaitSidRespCp)
        } else if v == 5007 {
            Some(SpecialExt::ErrAlreadyClosed)
        } else if v == 5008 {
            Some(SpecialExt::ErrBadRequest)
        } else if v == 5009 {
            Some(SpecialExt::ErrEnd)
        } else {
            None
        }
    }
}

/// Every control code is read back from its ext value.
pub proof fn lemma_special_ext_roundtrip(e: SpecialExt)
    ensures
        spec_special_ext_of(spec_ext_value(e)) == Some(e),
{
}

} // verus!

verus! {

/// First byte of a frame.
pub const MAGIC_NUM_0: u8 = 3;
/// Byte between the length and the message id.
pub const MAGIC_NUM_1: u8 = 1;
/// Byte between the message id and the ext field.
pub const MAGIC_NUM_2: u8 = 7;
/// Byte before the payload.
pub const MAGIC_NUM_3: u8 = 2;
/// Last byte of a frame.
pub const MAGIC_NUM_4: u8 = 6;

/// Bytes in a `usize` on this machine.
pub open spec fn usize_len() -> nat {
    vstd::layout::size_of::<usize>()
}

/// Bytes of a frame body that are not payload.
pub open spec fn spec_package_len() -> nat {
    28 + usize_len()
}

/// The part of a frame body before the sub-header or payload: the body length (on
/// four bytes, so modulo `2^32`), the message id, the ext field, the tag and the
/// session id, with the magic bytes between them.
pub open spec fn frame_head(len: nat, mid: usize, ext: u32, tag: u8, sid: u128) -> Seq<u8> {
    be_bytes(len % 0x1_0000_0000, 4) + seq![MAGIC_NUM_1] + be_bytes(mid as nat, usize_len())
        + seq![MAGIC_NUM_2] + be_bytes(ext as nat, 4) + seq![tag] + be_bytes(sid as nat, 16)
}

/// The body of the frame that carries `v`: the frame without its first and last byte.
pub open spec fn spec_body(v: Seq<u8>, ext: u32, tag: u8, mid: usize, sid: u128) -> Seq<u8> {
    frame_head(v.len() + spec_package_len(), mid, ext, tag, sid) + seq![MAGIC_NUM_3] + v
}

/// The frame that carries `v` as message `mid` of session `sid`.
pub open spec fn spec_frame(v: Seq<u8>, ext: u32, tag: u8, mid: usize, sid: u128) -> Seq<u8> {
    seq![MAGIC_NUM_0] + spec_body(v, ext, tag, mid, sid) + seq![MAGIC_NUM_4]
}

/// What a frame body holds: payload, message id, ext, tag and session id.
pub open spec fn spec_unwarp(b: Seq<u8>) -> (Seq<u8>, nat, nat, u8, nat) {
    let w = usize_len() as int;
    (
        b.subrange(28 + w, b.len() as int),
        be_nat(b.subrange(5, 5 + w)),
        be_nat(b.subrange(6 + w, 10 + w)),
        b[10 + w],
        be_nat(b.subrange(11 + w, 27 + w)),
    )
}

/// The body of `d` when `d` is one whole frame: it opens and closes with the outer
/// magic bytes, carries the inner ones in place, and its length field gives the
/// length of the body.
pub open spec fn spec_frame_body(d: Seq<u8>) -> Option<Seq<u8>> {
    let w = usize_len() as int;
    if d.len() >= spec_package_len() + 2 && d[0] == MAGIC_NUM_0 && d[d.len() - 1] == MAGIC_NUM_4
        && d[5] == MAGIC_NUM_1 && d[6 + w] == MAGIC_NUM_2 && d[28 + w] == MAGIC_NUM_3 && be_nat(
        d.subrange(1, 5),
    ) == d.len() - 2 {
        Some(d.subrange(1, d.len() - 1))
    } else {
        None
    }
}

/// The number of bytes of a frame body that are not payload.
pub fn package_len() -> (r: usize)
    ensures
        r == spec_package_len(),
{
    proof {
        lemma_usize_width();
    }
    4 + core::mem::size_of::<usize>() + 8 + 16
}

/// Frames `v` as message `mid` of session `sid`.
pub fn warp_ex(v: &[u8], ext: u32, tag: u8, mid: usize, sid: u128) -> (r: Vec<u8>)
    requires
        v@.len() > 0,
    ensures
        r@ == spec_frame(v@, ext, tag, mid, sid),
{
    proof {
        lemma_usize_width();
        lemma_pow256_values();
    }
    let len = v.len() as u128 + package_len() as u128;
    let len32 = (len % 0x1_0000_0000u128) as u32;
    let mut res: Vec<u8> = Vec::new();
    res.push(MAGIC_NUM_0);
    push_be(&mut res, len32 as u128, 4);
    res.push(MAGIC_NUM_1);
    push_be(&mut res, mid as u128, core::mem::size_of::<usize>());
    res.push(MAGIC_NUM_2);
    push_be(&mut res, ext as u128, 4);
    res.push(tag);
    push_be(&mut res, sid, 16);
    res.push(MAGIC_NUM_3);
    push_all(&mut res, v);
    res.push(MAGIC_NUM_4);
    assert(res@ =~= spec_frame(v@, ext, tag, mid, sid));
    res
}

/// Reads the payload, message id, ext, tag and session id out of a frame body.
pub fn unwarp_ex(data: &[u8]) -> (r: (Vec<u8>, usize, u32, u8, u128))
    requires
        data@.len() >= spec_package_len(),
    ensures
        (r.0@, r.1 as nat, r.2 as nat, r.3, r.4 as nat) == spec_unwarp(data@),
{
    proof {
        lemma_usize_width();
        lemma_pow256_values();
    }
    let w = core::mem::size_of::<usize>();
    let id_p: usize = 5;
    let ext_p = id_p + w + 1;
    let tag = data[ext_p + 4];
    let sid_p = ext_p + 5;
    let msg_p = ext_p + 22;
    proof {
        lemma_be_nat_bound(data@.subrange(5, 5 + w));
        lemma_be_nat_bound(data@.subrange(6 + w, 10 + w));
    }
    let id = read_be(data, id_p, w) as usize;
    let ext = read_be(data, ext_p, 4) as u32;
    let sid = read_be(data, sid_p, 16);
    let msg = copy_range(data, msg_p, data.len());
    (msg, id, ext, tag, sid)
}

/// The body of a received datagram that is one whole frame, if it is one.
pub fn frame_body(d: &[u8]) -> (r: Option<Vec<u8>>)
    ensures
        match spec_frame_body(d@) {
            Some(b) => r matches Some(x) && x@ == b,
            None => r is None,
        },
{
    proof {
        lemma_usize_width();
        lemma_pow256_values();
    }
    let w = core::mem::size_of::<usize>();
    let n = d.len();
    if n < package_len() + 2 {
        return None;
    }
    if d[0] != MAGIC_NUM_0 || d[n - 1] != MAGIC_NUM_4 || d[5] != MAGIC_NUM_1 || d[6 + w]
        != MAGIC_NUM_2 || d[28 + w] != MAGIC_NUM_3 {
        return None;
    }
    proof {
        lemma_be_nat_bound(d@.subrange(1, 5));
    }
    let len = read_be(d, 1, 4);
    if len != (n - 2) as u128 {
        return None;
    }
    Some(copy_range(d, 1, n - 1))
}

proof fn lemma_be_part(s: Seq<u8>, start: int, x: nat, n: nat)
    requires
        x < pow256(n),
        0 <= start,
        start + n <= s.len(),
        s.subrange(start, start + n) == be_bytes(x, n),
    ensures
        be_nat(s.subrange(start, start + n)) == x,
{
    lemma_be_roundtrip(x, n);
}

/// Reading a frame body gives back what was framed.
pub proof fn lemma_unwarp_warp(v: Seq<u8>, ext: u32, tag: u8, mid: usize, sid: u128)
    ensures
        spec_unwarp(spec_body(v, ext, tag, mid, sid)) == (v, mid as nat, ext as nat, tag, sid as nat),
        spec_body(v, ext, tag, mid, sid).len() == v.len() + spec_package_len(),
{
    lemma_usize_width();
    lemma_pow256_values();
    let w = usize_len() as int;
    let len = v.len() + spec_package_len();
    let b = spec_body(v, ext, tag, mid, sid);
    lemma_be_bytes_len(len % 0x1_0000_0000, 4);
    lemma_be_bytes_len(mid as nat, w as nat);
    lemma_be_bytes_len(ext as nat, 4);
    lemma_be_bytes_len(sid as nat, 16);
    assert(b.subrange(5, 5 + w) =~= be_bytes(mid as nat, w as nat));
    assert(b.subrange(6 + w, 10 + w) =~= be_bytes(ext as nat, 4));
    assert(b.subrange(11 + w, 27 + w) =~= be_bytes(sid as nat, 16));
    assert(b.subrange(28 + w, b.len() as int) =~= v);
    lemma_be_part(b, 5, mid as nat, w as nat);
    lemma_be_part(b, 6 + w, ext as nat, 4);
    lemma_be_part(b, 11 + w, sid as nat, 16);
}

/// A frame whose body fits the four-byte length field is read back as one whole
/// frame, with the body it was built from.
pub proof fn lemma_frame_body_warp(v: Seq<u8>, ext: u32, tag: u8, mid: usize, sid: u128)
    requires
        v.len() + spec_package_len() < 0x1_0000_0000,
    ensures
        spec_frame_body(spec_frame(v, ext, tag, mid, sid)) == Some(spec_body(v, ext, tag, mid, sid)),
{
    lemma_usize_width();
    lemma_pow256_values();
    let w = usize_len() as int;
    let len = v.len() + spec_package_len();
    let d = spec_frame(v, ext, tag, mid, sid);
    let b = spec_body(v, ext, tag, mid, sid);
    lemma_be_bytes_len(len % 0x1_0000_0000, 4);
    lemma_be_bytes_len(mid as nat, w as nat);
    lemma_be_bytes_len(ext as nat, 4);
    lemma_be_bytes_len(sid as nat, 16);
    assert(b.len() == len);
    assert(d.subrange(1, 5) =~= be_bytes(len % 0x1_0000_0000, 4));
    lemma_be_part(d, 1, len, 4);
    assert(d.subrange(1, d.len() - 1) =~= b);
    assert(d[5] == MAGIC_NUM_1);
    assert(d[6 + w] == MAGIC_NUM_2);
    assert(d[28 + w] == MAGIC_NUM_3);
}

} // verus!

verus! {

/// What handling one control message does: the session state after it, the control
/// message sent back (its code and session id), what the handler returns
/// (`Ok(true)` when the message was consumed, `Ok(false)` when it is not a control
/// message after all), and whether the messages held back while there was no
/// session are now sent, and whether the messages waiting to go out are dropped.
pub struct ControlStep {
    pub state: SessionState,
    pub reply: Option<(SpecialExt, u128)>,
    pub outcome: Result<bool, USErr>,
    pub flush: bool,
    pub clear: bool,
}

/// A consumed control message that changes nothing and sends nothing back.
pub open spec fn quiet(state: SessionState) -> ControlStep {
    ControlStep { state, reply: None, outcome: Ok(true), flush: false, clear: false }
}

/// A consumed control message answered by control code `code` with session id 0.
pub open spec fn answer(state: SessionState, code: SpecialExt) -> ControlStep {
    ControlStep { state, reply: Some((code, 0)), outcome: Ok(true), flush: false, clear: false }
}

/// A control message that reports an error of the counterpart.
pub open spec fn failed(state: SessionState, e: USErr) -> ControlStep {
    ControlStep { state, reply: None, outcome: Err(e), flush: false, clear: false }
}

/// The closing states, in which a session is over.
pub open spec fn is_closing(s: SessionState) -> bool {
    s is Closed || s is PrepareClose || s is ReqClose
}

/// How the plain sender handles control code `code` carrying session id `sid`,
/// received at `now`, in session state `state`.
pub open spec fn def_control(state: SessionState, code: SpecialExt, sid: u128, now: u128) -> ControlStep {
    match code {
        SpecialExt::SendRecv => quiet(state),
        SpecialExt::SendSid => match state {
            SessionState::Null => ControlStep {
                state: SessionState::WaitResponseCp(sid, now, 1),
                reply: Some((SpecialExt::ResponseSendSid, sid)),
                outcome: Ok(true),
                flush: false,
                clear: false,
            },
            SessionState::WaitResponse(_, _, _) => answer(state, SpecialExt::ErrWaitingResponse),
            SessionState::WaitResponseCp(_, _, _) => quiet(state),
            SessionState::Has(_) => quiet(state),
            _ => answer(state, SpecialExt::ErrAlreadyClosed),
        },
        SpecialExt::ResponseSendSid => match state {
            SessionState::Null => answer(state, SpecialExt::ErrNotWaitSidResp),
            SessionState::WaitResponse(v, _, _) => if v != sid {
                answer(state, SpecialExt::ErrBadSession)
            } else {
                ControlStep {
                    state: SessionState::Has(sid),
                    reply: Some((SpecialExt::ResponseCpSendSid, sid)),
                    outcome: Ok(true),
                    flush: true,
                    clear: false,
                }
            },
            SessionState::WaitResponseCp(_, _, _) => answer(state, SpecialExt::ErrWaitingResponseCp),
            SessionState::Has(v) => if v != sid {
                answer(state, SpecialExt::ErrAlreadyHasSid)
            } else {
                quiet(state)
            },
            _ => answer(state, SpecialExt::ErrAlreadyClosed),
        },
        SpecialExt::ResponseCpSendSid => match state {
            SessionState::Null => answer(state, SpecialExt::ErrNotWaitSidRespCp),
            SessionState::WaitResponse(_, _, _) => answer(state, SpecialExt::ErrWaitingResponse),
            SessionState::WaitResponseCp(v, _, _) => if v != sid {
                answer(state, SpecialExt::ErrBadSession)
            } else {
                ControlStep { state: SessionState::Has(sid), reply: None, outcome: Ok(true), flush: true, clear: false }
            },
            SessionState::Has(v) => if v != sid {
                answer(state, SpecialExt::ErrAlreadyHasSid)
            } else {
                quiet(state)
            },
            _ => answer(state, SpecialExt::ErrAlreadyClosed),
        },
        SpecialExt::ErrAlreadyHasSid => failed(state, USErr::AlreadyHasSession),
        SpecialExt::ErrWaitingResponse => failed(state, USErr::WaitSessionResponse),
        SpecialExt::ErrWaitingResponseCp => failed(state, USErr::WaitSessionResponseCp),
        SpecialExt::ErrBadSession => failed(state, USErr::BadSessionID),
        SpecialExt::ErrNotWaitSidResp => failed(state, USErr::NotWaitingSessionResponse),
        SpecialExt::ErrNoSession => failed(state, USErr::NoSession),
        SpecialExt::ErrNotWaitSidRespCp => failed(state, USErr::NotWaitingSessionResponseCp),
        SpecialExt::ErrAlreadyClosed => failed(state, USErr::CpAlreadyClosed),
        SpecialExt::SendClose => match state {
            SessionState::Has(v) => if sid != v {
                answer(state, SpecialExt::ErrBadSession)
            } else {
                ControlStep {
                    state: SessionState::Closed(sid),
                    reply: None,
                    outcome: Err(USErr::CpRequestClosed),
                    flush: false,
                    clear: false,
                }
            },
            _ => quiet(state),
        },
        _ => ControlStep { state, reply: None, outcome: Ok(false), flush: false, clear: false },
    }
}

fn quiet_step(state: SessionState) -> (r: ControlStep)
    ensures
        r == quiet(state),
{
    ControlStep { state, reply: None, outcome: Ok(true), flush: false, clear: false }
}

fn answer_step(state: SessionState, code: SpecialExt) -> (r: ControlStep)
    ensures
        r == answer(state, code),
{
    ControlStep { state, reply: Some((code, 0)), outcome: Ok(true), flush: false, clear: false }
}

fn failed_step(state: SessionState, e: USErr) -> (r: ControlStep)
    ensures
        r == failed(state, e),
{
    ControlStep { state, reply: None, outcome: Err(e), flush: false, clear: false }
}

/// The decision of the plain sender on control code `code` with session id `sid`
/// received at `now` in state `state`.
pub fn def_control_step(state: SessionState, code: SpecialExt, sid: u128, now: u128) -> (r: ControlStep)
    ensures
        r == def_control(state, code, sid, now),
{
    match code {
        SpecialExt::SendRecv => quiet_step(state),
        SpecialExt::SendSid => match state {
            SessionState::Null => ControlStep {
                state: SessionState::WaitResponseCp(sid, now, 1),
                reply: Some((SpecialExt::ResponseSendSid, sid)),
                outcome: Ok(true),
                flush: false,
                clear: false,
            },
            SessionState::WaitResponse(_, _, _) => answer_step(state, SpecialExt::ErrWaitingResponse),
            SessionState::WaitResponseCp(_, _, _) => quiet_step(state),
            SessionState::Has(_) => quiet_step(state),
            _ => answer_step(state, SpecialExt::ErrAlreadyClosed),
        },
        SpecialExt::ResponseSendSid => match state {
            SessionState::Null => answer_step(state, SpecialExt::ErrNotWaitSidResp),
            SessionState::WaitResponse(v, _, _) => if v != sid {
                answer_step(state, SpecialExt::ErrBadSession)
            } else {
                ControlStep {
                    state: SessionState::Has(sid),
                    reply: Some((SpecialExt::ResponseCpSendSid, sid)),
                    outcome: Ok(true),
                    flush: true,
                    clear: false,
                }
            },
            SessionState::WaitResponseCp(_, _, _) => answer_step(state, SpecialExt::ErrWaitingResponseCp),
            SessionState::Has(v) => if v != sid {
                answer_step(state, SpecialExt::ErrAlreadyHasSid)
            } else {
                quiet_step(state)
            },
            _ => answer_step(state, SpecialExt::ErrAlreadyClosed),
        },
        SpecialExt::ResponseCpSendSid => match state {
            SessionState::Null => answer_step(state, SpecialExt::ErrNotWaitSidRespCp),
            SessionState::WaitResponse(_, _, _) => answer_step(state, SpecialExt::ErrWaitingResponse),
            SessionState::WaitResponseCp(v, _, _) => if v != sid {
                answer_step(state, SpecialExt::ErrBadSession)
            } else {
                ControlStep { state: SessionState::Has(sid), reply: None, outcome: Ok(true), flush: true, clear: false }
            },
            SessionState::Has(v) => if v != sid {
                answer_step(state, SpecialExt::ErrAlreadyHasSid)
            } else {
                quiet_step(state)
            },
            _ => answer_step(state, SpecialExt::ErrAlreadyClosed),
        },
        SpecialExt::ErrAlreadyHasSid => failed_step(state, USErr::AlreadyHasSession),
        SpecialExt::ErrWaitingResponse => failed_step(state, USErr::WaitSessionResponse),
        SpecialExt::ErrWaitingResponseCp => failed_step(state, USErr::WaitSessionResponseCp),
        SpecialExt::ErrBadSession => failed_step(state, USErr::BadSessionID),
        SpecialExt::ErrNotWaitSidResp => failed_step(state, USErr::NotWaitingSessionResponse),
        SpecialExt::ErrNoSession => failed_step(state, USErr::NoSession),
        SpecialExt::ErrNotWaitSidRespCp => failed_step(state, USErr::NotWaitingSessionResponseCp),
        SpecialExt::ErrAlreadyClosed => failed_step(state, USErr::CpAlreadyClosed),
        SpecialExt::SendClose => match state {
            SessionState::Has(v) => if sid != v {
                answer_step(state, SpecialExt::ErrBadSession)
            } else {
                ControlStep {
                    state: SessionState::Closed(sid),
                    reply: None,
                    outcome: Err(USErr::CpRequestClosed),
                    flush: false,
                    clear: false,
                }
            },
            _ => quiet_step(state),
        },
        _ => ControlStep { state, reply: None, outcome: Ok(false), flush: false, clear: false },
    }
}

/// The next id in the wrapping sequence `1, 2, ..., usize::MAX, 1, ...`.
pub open spec fn next_id(id: usize) -> usize {
    if id == usize::MAX {
        1
    } else {
        (id + 1) as usize
    }
}

/// The id after `id` in the sequence of message ids; never 0.
pub fn next_mid(id: usize) -> (r: usize)
    ensures
        r == next_id(id),
        r != 0,
{
    if id == usize::MAX {
        1
    } else {
        id + 1
    }
}

/// A session handshake started at both ends with the same id settles it at both:
/// the initiator waits for the answer, the counterpart answers and waits for the
/// confirmation, and both then hold the session.
pub proof fn lemma_handshake(sid: u128, t0: u128, t1: u128, t2: u128)
    ensures
        ({
            let cp = def_control(SessionState::Null, SpecialExt::SendSid, sid, t1);
            let me = def_control(SessionState::WaitResponse(sid, t0, 1), SpecialExt::ResponseSendSid, sid, t2);
            let cp2 = def_control(cp.state, SpecialExt::ResponseCpSendSid, sid, t2);
            &&& cp.reply == Some((SpecialExt::ResponseSendSid, sid))
            &&& me.reply == Some((SpecialExt::ResponseCpSendSid, sid))
            &&& me.state == SessionState::Has(sid)
            &&& cp2.state == SessionState::Has(sid)
            &&& me.flush && cp2.flush
        }),
{
}

} // verus!

verus! {

/// Errors of the UDP client: an error of its sender, or no sender yet.
#[derive(Debug)]
pub enum UdpClientErr {
    UsError(USErr),
    NoUdpSender,
}

impl From<USErr> for UdpClientErr {
    fn from(e: USErr) -> (r: UdpClientErr) {
        UdpClientErr::UsError(e)
    }
}

impl vstd::std_specs::convert::FromSpecImpl<USErr> for UdpClientErr {
    open spec fn obeys_from_spec() -> bool {
        true
    }

    open spec fn from_spec(v: USErr) -> UdpClientErr {
        UdpClientErr::UsError(v)
    }
}

} // verus!

verus! {

/// The error codes that a counterpart sends about the session.
pub open spec fn session_error_code(c: SpecialExt) -> bool {
    c is ErrAlreadyHasSid || c is ErrWaitingResponse || c is ErrWaitingResponseCp || c is ErrBadSession
        || c is ErrNotWaitSidResp || c is ErrNoSession || c is ErrNotWaitSidRespCp || c is ErrAlreadyClosed
}

/// How the plain sender's session moves on control messages: an acknowledgement
/// changes nothing and is not answered; a counterpart's error is reported as a failure
/// and changes nothing; a settled session ends only by a close carrying its own id, and
/// then it is closed; a closed session stays closed; a session is settled only under
/// the id that the message carries, from waiting on that same id; and every answer
/// carries that id or none (0).
pub proof fn lemma_def_control_laws(state: SessionState, code: SpecialExt, sid: u128, now: u128)
    ensures
        ({
            let st = def_control(state, code, sid, now);
            &&& code is SendRecv ==> st.state == state && st.reply is None && st.outcome == Ok::<bool, USErr>(true)
            &&& session_error_code(code) ==> st.state == state && st.reply is None && st.outcome is Err
            &&& (state is Has && st.state != state) ==> code is SendClose && sid == state->Has_0
                && st.state == SessionState::Closed(sid)
            &&& state is Closed ==> st.state == state
            &&& (st.state is Has && st.state != state) ==> st.state->Has_0 == sid && (state
                == SessionState::WaitResponse(sid, state->WaitResponse_1, state->WaitResponse_2) || state
                == SessionState::WaitResponseCp(sid, state->WaitResponseCp_1, state->WaitResponseCp_2))
            &&& match st.reply {
                Some((_, x)) => x == sid || x == 0,
                None => true,
            }
        }),
{
}

} // verus!
