//! A reliable sender for a session carried inside another connection: frames with a
//! sub-header for sliced messages, a session handshake and close, in-order delivery,
//! and an outgoing queue of frames prefixed with the counterpart's id.
use vstd::prelude::*;
use crate::bytes::{be_nat, be_bytes, pow256, lemma_pow256_values, lemma_be_roundtrip, lemma_be_bytes_len, lemma_be_nat_bound, push_be, push_all, read_be, copy_range};
use crate::stream_parser::lemma_usize_width;
use crate::udp_sender::{MAGIC_NUM_0, MAGIC_NUM_1, MAGIC_NUM_2, MAGIC_NUM_3, MAGIC_NUM_4, CONTROL_BYTE, usize_len, frame_head, ControlStep, SessionState, SpecialExt, USErr, answer, failed, quiet, next_id, next_mid, spec_sid, spec_ext_value, spec_special_ext_of};
use crate::udp_msg_split::{DefUdpMsgSplit, UdpSplitView, MsgSlicesInfo, spec_push, spec_pop, pop_ok, spec_udp_merge, udp_merge_ok, spec_check_wait, split_work, now_nanos, pop_result_is};
use crate::bytes::{TOKEN_NORMAL, TOKEN_SUBPACKAGE_BEGIN, TOKEN_SUBPACKAGE_END};
use std::collections::HashMap;

verus! {

/// Bytes of a frame body that are neither payload nor sub-header.
pub open spec fn spec_att_package_len() -> nat {
    29 + usize_len()
}

/// The body of the frame that carries `v` with sub-header `sub`: the frame without
/// its first and last byte. The sub-header length is written on one byte.
pub open spec fn spec_att_body(v: Seq<u8>, ext: u32, tag: u8, mid: usize, sid: u128, sub: Seq<u8>) -> Seq<u8> {
    frame_head(v.len() + spec_att_package_len() + sub.len(), mid, ext, tag, sid) + seq![
        (sub.len() % 256) as u8,
    ] + sub + seq![MAGIC_NUM_3] + v
}

/// The frame that carries `v` as message `mid` of session `sid`, with sub-header `sub`.
pub open spec fn spec_att_frame(v: Seq<u8>, ext: u32, tag: u8, mid: usize, sid: u128, sub: Seq<u8>) -> Seq<u8> {
    seq![MAGIC_NUM_0] + spec_att_body(v, ext, tag, mid, sid, sub) + seq![MAGIC_NUM_4]
}

/// A frame body long enough for the sub-header it announces.
pub open spec fn att_body_ok(b: Seq<u8>) -> bool {
    let w = usize_len() as int;
    b.len() >= 28 + w && 29 + w + b[27 + w] <= b.len()
}

/// What a frame body holds: payload, message id, ext, tag, session id, sub-header.
pub open spec fn spec_att_unwarp(b: Seq<u8>) -> (Seq<u8>, nat, nat, u8, nat, Seq<u8>) {
    let w = usize_len() as int;
    let sl = b[27 + w] as int;
    (
        b.subrange(29 + w + sl, b.len() as int),
        be_nat(b.subrange(5, 5 + w)),
        be_nat(b.subrange(6 + w, 10 + w)),
        b[10 + w],
        be_nat(b.subrange(11 + w, 27 + w)),
        b.subrange(28 + w, 28 + w + sl),
    )
}

/// The body of `d` when `d` is one whole frame with a sub-header: it opens and
/// closes with the outer magic bytes, carries the inner ones in place, and its
/// length field gives the length of the body.
pub open spec fn spec_att_frame_body(d: Seq<u8>) -> Option<Seq<u8>> {
    let w = usize_len() as int;
    if d.len() >= spec_att_package_len() + 2 && d[0] == MAGIC_NUM_0 && d[d.len() - 1] == MAGIC_NUM_4
        && d[5] == MAGIC_NUM_1 && d[6 + w] == MAGIC_NUM_2 && 31 + w + d[28 + w] <= d.len()
        && d[29 + w + d[28 + w]] == MAGIC_NUM_3 && be_nat(d.subrange(1, 5)) == d.len() - 2 {
        Some(d.subrange(1, d.len() - 1))
    } else {
        None
    }
}

/// The number of bytes of a frame body that are neither payload nor sub-header.
pub fn att_package_len() -> (r: usize)
    ensures
        r == spec_att_package_len(),
{
    proof {
        lemma_usize_width();
    }
    5 + core::mem::size_of::<usize>() + 8 + 16
}

/// Frames `v` as message `mid` of session `sid`, with the sub-header `sub_head` if any.
pub fn att_warp_ex(v: &[u8], ext: u32, tag: u8, mid: usize, sid: u128, sub_head: Option<&[u8]>) -> (r: Vec<u8>)
    ensures
        r@ == spec_att_frame(
            v@,
            ext,
            tag,
            mid,
            sid,
            match sub_head {
                Some(s) => s@,
                None => Seq::empty(),
            },
        ),
{
    proof {
        lemma_usize_width();
        lemma_pow256_values();
    }
    let sub_len: usize = match sub_head {
        Some(s) => s.len(),
        None => 0,
    };
    let len = v.len() as u128 + att_package_len() as u128 + sub_len as u128;
    let len32 = (len % 0x1_0000_0000u128) as u32;
    let mut res: Vec<u8> = Vec::new();
    res.push(MAGIC_NUM_0);
    push_be(&mut res, len32 as u128, 4);
    res.push(MAGIC_NUM_1);
    push_be(&mut res, mid as u128, core::mem::size_of::<usize>());
    res.push(MAGIC_NUM_2);
    push_be(&mut res, ext as u128, 4);
    res.push(tag);
    push_be(&mut res, sid, 16);
    match sub_head {
        Some(s) => {
            res.push((s.len() % 256) as u8);
            push_all(&mut res, s);
        },
        None => {
            res.push(0u8);
        },
    }
    res.push(MAGIC_NUM_3);
    push_all(&mut res, v);
    res.push(MAGIC_NUM_4);
    proof {
        let sub = match sub_head {
            Some(s) => s@,
            None => Seq::<u8>::empty(),
        };
        assert(res@ =~= spec_att_frame(v@, ext, tag, mid, sid, sub));
    }
    res
}

/// Reads payload, message id, ext, tag, session id and sub-header out of a frame body.
pub fn att_unwarp_ex(data: &[u8]) -> (r: (Vec<u8>, usize, u32, u8, u128, Vec<u8>))
    requires
        att_body_ok(data@),
    ensures
        (r.0@, r.1 as nat, r.2 as nat, r.3, r.4 as nat, r.5@) == spec_att_unwarp(data@),
{
    proof {
        lemma_usize_width();
        lemma_pow256_values();
    }
    let w = core::mem::size_of::<usize>();
    let id_p: usize = 5;
    let ext_p = id_p + w + 1;
    let tag = data[ext_p + 4];
    let sid_p = ext_p + 5;
    let sub_head_len = data[sid_p + 16] as usize;
    let sub_head_p = sid_p + 17;
    let msg_p = sub_head_p + sub_head_len + 1;
    proof {
        lemma_be_nat_bound(data@.subrange(5, 5 + w));
        lemma_be_nat_bound(data@.subrange(6 + w, 10 + w));
    }
    let id = read_be(data, id_p, w) as usize;
    let ext = read_be(data, ext_p, 4) as u32;
    let sid = read_be(data, sid_p, 16);
    let msg = copy_range(data, msg_p, data.len());
    let sub = copy_range(data, sub_head_p, sub_head_p + sub_head_len);
    (msg, id, ext, tag, sid, sub)
}

/// The body of a received datagram that is one whole frame, if it is one.
pub fn att_frame_body(d: &[u8]) -> (r: Option<Vec<u8>>)
    ensures
        match spec_att_frame_body(d@) {
            Some(b) => r matches Some(x) && x@ == b,
            None => r is None,
        },
{
    proof {
        lemma_usize_width();
        lemma_pow256_values();
    }
    let w = core::mem::size_of::<usize>();
    let n = d.len();
    if n < att_package_len() + 2 {
        return None;
    }
    if d[0] != MAGIC_NUM_0 || d[n - 1] != MAGIC_NUM_4 || d[5] != MAGIC_NUM_1 || d[6 + w] != MAGIC_NUM_2 {
        return None;
    }
    let sl = d[28 + w] as usize;
    if 31 + w + sl > n {
        return None;
    }
    if d[29 + w + sl] != MAGIC_NUM_3 {
        return None;
    }
    proof {
        lemma_be_nat_bound(d@.subrange(1, 5));
    }
    let len = read_be(d, 1, 4);
    if len != (n - 2) as u128 {
        return None;
    }
    Some(copy_range(d, 1, n - 1))
}

proof fn lemma_be_at(s: Seq<u8>, start: int, x: nat, n: nat)
    requires
        x < pow256(n),
        0 <= start,
        start + n <= s.len(),
        s.subrange(start, start + n) == be_bytes(x, n),
    ensures
        be_nat(s.subrange(start, start + n)) == x,
{
    lemma_be_roundtrip(x, n);
}

/// Reading a frame body gives back what was framed, when the sub-header is shorter
/// than 256 bytes.
pub proof fn lemma_att_unwarp_warp(v: Seq<u8>, ext: u32, tag: u8, mid: usize, sid: u128, sub: Seq<u8>)
    requires
        sub.len() < 256,
    ensures
        att_body_ok(spec_att_body(v, ext, tag, mid, sid, sub)),
        spec_att_unwarp(spec_att_body(v, ext, tag, mid, sid, sub)) == (v, mid as nat, ext as nat, tag, sid as nat, sub),
{
    lemma_usize_width();
    lemma_pow256_values();
    let w = usize_len() as int;
    let len = v.len() + spec_att_package_len() + sub.len();
    let b = spec_att_body(v, ext, tag, mid, sid, sub);
    lemma_be_bytes_len(len % 0x1_0000_0000, 4);
    lemma_be_bytes_len(mid as nat, w as nat);
    lemma_be_bytes_len(ext as nat, 4);
    lemma_be_bytes_len(sid as nat, 16);
    assert(b[27 + w] == sub.len());
    assert(b.subrange(5, 5 + w) =~= be_bytes(mid as nat, w as nat));
    assert(b.subrange(6 + w, 10 + w) =~= be_bytes(ext as nat, 4));
    assert(b.subrange(11 + w, 27 + w) =~= be_bytes(sid as nat, 16));
    assert(b.subrange(28 + w, 28 + w + sub.len()) =~= sub);
    assert(b.subrange(29 + w + sub.len(), b.len() as int) =~= v);
    lemma_be_at(b, 5, mid as nat, w as nat);
    lemma_be_at(b, 6 + w, ext as nat, 4);
    lemma_be_at(b, 11 + w, sid as nat, 16);
}

/// A frame whose body fits the four-byte length field, with a sub-header shorter
/// than 256 bytes, is read back as one whole frame with the body it was built from.
pub proof fn lemma_att_frame_body_warp(v: Seq<u8>, ext: u32, tag: u8, mid: usize, sid: u128, sub: Seq<u8>)
    requires
        sub.len() < 256,
        v.len() + spec_att_package_len() + sub.len() < 0x1_0000_0000,
    ensures
        spec_att_frame_body(spec_att_frame(v, ext, tag, mid, sid, sub)) == Some(
            spec_att_body(v, ext, tag, mid, sid, sub),
        ),
{
    lemma_usize_width();
    lemma_pow256_values();
    let w = usize_len() as int;
    let len = v.len() + spec_att_package_len() + sub.len();
    let d = spec_att_frame(v, ext, tag, mid, sid, sub);
    let b = spec_att_body(v, ext, tag, mid, sid, sub);
    lemma_be_bytes_len(len % 0x1_0000_0000, 4);
    lemma_be_bytes_len(mid as nat, w as nat);
    lemma_be_bytes_len(ext as nat, 4);
    lemma_be_bytes_len(sid as nat, 16);
    assert(b.len() == len);
    assert(d.subrange(1, 5) =~= be_bytes(len % 0x1_0000_0000, 4));
    lemma_be_at(d, 1, len, 4);
    assert(d.subrange(1, d.len() - 1) =~= b);
    assert(d[5] == MAGIC_NUM_1);
    assert(d[6 + w] == MAGIC_NUM_2);
    assert(d[28 + w] == sub.len());
    assert(d[29 + w + sub.len()] == MAGIC_NUM_3);
}

} // verus!

verus! {

/// How the attached sender handles a session or close control code (`code`, carrying
/// session id `sid`, received at `now`) in state `state`; codes it does not handle
/// here are reported as not consumed.
pub open spec fn att_session(state: SessionState, code: SpecialExt, sid: u128, now: u128) -> ControlStep {
    match code {
        SpecialExt::ErrAlreadyHasSid => failed(state, USErr::AlreadyHasSession),
        SpecialExt::ErrWaitingResponse => failed(state, USErr::WaitSessionResponse),
        SpecialExt::ErrWaitingResponseCp => failed(state, USErr::WaitSessionResponseCp),
        SpecialExt::ErrBadSession => failed(state, USErr::BadSessionID),
        SpecialExt::ErrNotWaitSidResp => failed(state, USErr::NotWaitingSessionResponse),
        SpecialExt::ErrNoSession => failed(state, USErr::NoSession),
        SpecialExt::ErrNotWaitSidRespCp => failed(state, USErr::NotWaitingSessionResponseCp),
        SpecialExt::ErrAlreadyClosed => failed(state, USErr::CpAlreadyClosed),
        SpecialExt::ErrBadRequest => failed(state, USErr::BadRequest),
        SpecialExt::ReqClose => match state {
            SessionState::Has(v) => if sid != v {
                answer(state, SpecialExt::ErrBadSession)
            } else {
                ControlStep {
                    state: SessionState::PrepareClose(sid, now, 1),
                    reply: Some((SpecialExt::CpClose, sid)),
                    outcome: Ok(true),
                    flush: false,
                    clear: true,
                }
            },
            SessionState::Null => answer(state, SpecialExt::ErrNoSession),
            SessionState::WaitResponse(_, _, _) => answer(state, SpecialExt::ErrNoSession),
            SessionState::WaitResponseCp(_, _, _) => answer(state, SpecialExt::ErrNoSession),
            _ => quiet(state),
        },
        SpecialExt::CpClose => match state {
            SessionState::ReqClose(v, _, _) => if sid != v {
                answer(state, SpecialExt::ErrBadSession)
            } else {
                ControlStep {
                    state: SessionState::Closed(sid),
                    reply: Some((SpecialExt::CloseSucc, sid)),
                    outcome: Err(USErr::CloseSuccess),
                    flush: false,
                    clear: false,
                }
            },
            SessionState::Closed(v) => if sid != v {
                answer(state, SpecialExt::ErrBadRequest)
            } else {
                ControlStep {
                    state,
                    reply: Some((SpecialExt::CloseSucc, sid)),
                    outcome: Ok(true),
                    flush: false,
                    clear: false,
                }
            },
            _ => answer(state, SpecialExt::ErrBadRequest),
        },
        SpecialExt::CloseSucc => match state {
            SessionState::PrepareClose(v, _, _) => if sid != v {
                answer(state, SpecialExt::ErrBadSession)
            } else {
                failed(SessionState::Closed(sid), USErr::CloseSuccess)
            },
            SessionState::Closed(v) => if sid != v {
                answer(state, SpecialExt::ErrBadRequest)
            } else {
                quiet(state)
            },
            _ => answer(state, SpecialExt::ErrBadRequest),
        },
        SpecialExt::SendSid => match state {
            SessionState::Null => ControlStep {
                state: SessionState::WaitResponseCp(sid, now, 1),
                reply: Some((SpecialExt::ResponseSendSid, sid)),
                outcome: Ok(true),
                flush: false,
                clear: false,
            },
            SessionState::WaitResponse(_, _, _) => answer(state, SpecialExt::ErrWaitingResponse),
            SessionState::WaitResponseCp(_, _, _) => quiet(state),
            SessionState::Has(_) => quiet(state),
            _ => answer(state, SpecialExt::ErrAlreadyClosed),
        },
        SpecialExt::ResponseSendSid => match state {
            SessionState::Null => answer(state, SpecialExt::ErrNotWaitSidResp),
            SessionState::WaitResponse(v, _, _) => if v != sid {
                answer(state, SpecialExt::ErrBadSession)
            } else {
                ControlStep {
                    state: SessionState::Has(sid),
                    reply: Some((SpecialExt::ResponseCpSendSid, sid)),
                    outcome: Ok(true),
                    flush: false,
                    clear: false,
                }
            },
            SessionState::WaitResponseCp(_, _, _) => answer(state, SpecialExt::ErrWaitingResponseCp),
            SessionState::Has(v) => if v != sid {
                answer(state, SpecialExt::ErrAlreadyHasSid)
            } else {
                ControlStep {
                    state,
                    reply: Some((SpecialExt::ResponseCpSendSid, sid)),
                    outcome: Ok(true),
                    flush: false,
                    clear: false,
                }
            },
            _ => answer(state, SpecialExt::ErrAlreadyClosed),
        },
        SpecialExt::ResponseCpSendSid => match state {
            SessionState::Null => answer(state, SpecialExt::ErrNotWaitSidRespCp),
            SessionState::WaitResponse(_, _, _) => answer(state, SpecialExt::ErrWaitingResponse),
            SessionState::WaitResponseCp(v, _, _) => if v != sid {
                answer(state, SpecialExt::ErrBadSession)
            } else {
                quiet(SessionState::Has(sid))
            },
            SessionState::Has(v) => if v != sid {
                answer(state, SpecialExt::ErrAlreadyHasSid)
            } else {
                quiet(state)
            },
            _ => answer(state, SpecialExt::ErrAlreadyClosed),
        },
        _ => ControlStep { state, reply: None, outcome: Ok(false), flush: false, clear: false },
    }
}

/// The decision of the attached sender on a session or close control code.
pub fn att_session_step(state: SessionState, code: SpecialExt, sid: u128, now: u128) -> (r: ControlStep)
    ensures
        r == att_session(state, code, sid, now),
{
    let q = ControlStep { state, reply: None, outcome: Ok(true), flush: false, clear: false };
    let fail = |e: USErr| -> (c: ControlStep)
        ensures
            c == failed(state, e),
        { ControlStep { state, reply: None, outcome: Err(e), flush: false, clear: false } };
    let ans = |c: SpecialExt| -> (r: ControlStep)
        ensures
            r == answer(state, c),
        { ControlStep { state, reply: Some((c, 0)), outcome: Ok(true), flush: false, clear: false } };
    match code {
        SpecialExt::ErrAlreadyHasSid => fail(USErr::AlreadyHasSession),
        SpecialExt::ErrWaitingResponse => fail(USErr::WaitSessionResponse),
        SpecialExt::ErrWaitingResponseCp => fail(USErr::WaitSessionResponseCp),
        SpecialExt::ErrBadSession => fail(USErr::BadSessionID),
        SpecialExt::ErrNotWaitSidResp => fail(USErr::NotWaitingSessionResponse),
        SpecialExt::ErrNoSession => fail(USErr::NoSession),
        SpecialExt::ErrNotWaitSidRespCp => fail(USErr::NotWaitingSessionResponseCp),
        SpecialExt::ErrAlreadyClosed => fail(USErr::CpAlreadyClosed),
        SpecialExt::ErrBadRequest => fail(USErr::BadRequest),
        SpecialExt::ReqClose => match state {
            SessionState::Has(v) => if sid != v {
                ans(SpecialExt::ErrBadSession)
            } else {
                ControlStep {
                    state: SessionState::PrepareClose(sid, now, 1),
                    reply: Some((SpecialExt::CpClose, sid)),
                    outcome: Ok(true),
                    flush: false,
                    clear: true,
                }
            },
            SessionState::Null => ans(SpecialExt::ErrNoSession),
            SessionState::WaitResponse(_, _, _) => ans(SpecialExt::ErrNoSession),
            SessionState::WaitResponseCp(_, _, _) => ans(SpecialExt::ErrNoSession),
            _ => q,
        },
        SpecialExt::CpClose => match state {
            SessionState::ReqClose(v, _, _) => if sid != v {
                ans(SpecialExt::ErrBadSession)
            } else {
                ControlStep {
                    state: SessionState::Closed(sid),
                    reply: Some((SpecialExt::CloseSucc, sid)),
                    outcome: Err(USErr::CloseSuccess),
                    flush: false,
                    clear: false,
                }
            },
            SessionState::Closed(v) => if sid != v {
                ans(SpecialExt::ErrBadRequest)
            } else {
                ControlStep {
                    state,
                    reply: Some((SpecialExt::CloseSucc, sid)),
                    outcome: Ok(true),
                    flush: false,
                    clear: false,
                }
            },
            _ => ans(SpecialExt::ErrBadRequest),
        },
        SpecialExt::CloseSucc => match state {
            SessionState::PrepareClose(v, _, _) => if sid != v {
                ans(SpecialExt::ErrBadSession)
            } else {
                ControlStep {
                    state: SessionState::Closed(sid),
                    reply: None,
                    outcome: Err(USErr::CloseSuccess),
                    flush: false,
                    clear: false,
                }
            },
            SessionState::Closed(v) => if sid != v {
                ans(SpecialExt::ErrBadRequest)
            } else {
                q
            },
            _ => ans(SpecialExt::ErrBadRequest),
        },
        SpecialExt::SendSid => match state {
            SessionState::Null => ControlStep {
                state: SessionState::WaitResponseCp(sid, now, 1),
                reply: Some((SpecialExt::ResponseSendSid, sid)),
                outcome: Ok(true),
                flush: false,
                clear: false,
            },
            SessionState::WaitResponse(_, _, _) => ans(SpecialExt::ErrWaitingResponse),
            SessionState::WaitResponseCp(_, _, _) => q,
            SessionState::Has(_) => q,
            _ => ans(SpecialExt::ErrAlreadyClosed),
        },
        SpecialExt::ResponseSendSid => match state {
            SessionState::Null => ans(SpecialExt::ErrNotWaitSidResp),
            SessionState::WaitResponse(v, _, _) => if v != sid {
                ans(SpecialExt::ErrBadSession)
            } else {
                ControlStep {
                    state: SessionState::Has(sid),
                    reply: Some((SpecialExt::ResponseCpSendSid, sid)),
                    outcome: Ok(true),
                    flush: false,
                    clear: false,
                }
            },
            SessionState::WaitResponseCp(_, _, _) => ans(SpecialExt::ErrWaitingResponseCp),
            SessionState::Has(v) => if v != sid {
                ans(SpecialExt::ErrAlreadyHasSid)
            } else {
                ControlStep {
                    state,
                    reply: Some((SpecialExt::ResponseCpSendSid, sid)),
                    outcome: Ok(true),
                    flush: false,
                    clear: false,
                }
            },
            _ => ans(SpecialExt::ErrAlreadyClosed),
        },
        SpecialExt::ResponseCpSendSid => match state {
            SessionState::Null => ans(SpecialExt::ErrNotWaitSidRespCp),
            SessionState::WaitResponse(_, _, _) => ans(SpecialExt::ErrWaitingResponse),
            SessionState::WaitResponseCp(v, _, _) => if v != sid {
                ans(SpecialExt::ErrBadSession)
            } else {
                ControlStep {
                    state: SessionState::Has(sid),
                    reply: None,
                    outcome: Ok(true),
                    flush: false,
                    clear: false,
                }
            },
            SessionState::Has(v) => if v != sid {
                ans(SpecialExt::ErrAlreadyHasSid)
            } else {
                q
            },
            _ => ans(SpecialExt::ErrAlreadyClosed),
        },
        _ => ControlStep { state, reply: None, outcome: Ok(false), flush: false, clear: false },
    }
}

/// A close requested at one end and answered at the other ends with both sides closed:
/// the requester asks, the counterpart prepares and answers, the requester closes and
/// confirms, and the counterpart closes on the confirmation.
pub proof fn lemma_close_handshake(sid: u128, t0: u128, t1: u128, t2: u128)
    ensures
        ({
            let cp = att_session(SessionState::Has(sid), SpecialExt::ReqClose, sid, t1);
            let me = att_session(SessionState::ReqClose(sid, t0, 1), SpecialExt::CpClose, sid, t2);
            let cp2 = att_session(cp.state, SpecialExt::CloseSucc, sid, t2);
            &&& cp.reply == Some((SpecialExt::CpClose, sid)) && cp.clear
            &&& me.reply == Some((SpecialExt::CloseSucc, sid))
            &&& me.state == SessionState::Closed(sid) && me.outcome == Err::<bool, USErr>(USErr::CloseSuccess)
            &&& cp2.state == SessionState::Closed(sid) && cp2.outcome == Err::<bool, USErr>(USErr::CloseSuccess)
        }),
{
}

} // verus!

verus! {

broadcast use vstd::std_specs::hash::group_hash_axioms;

/// A received message held until the ones before it arrive: payload, ext, tag and
/// sub-header.
pub type HeldMsg = (Seq<u8>, u32, u8, Option<Seq<u8>>);

/// The state of an attached sender as plain values.
pub struct AttView {
    pub sid: SessionState,
    /// The id of the last message sent.
    pub mid: usize,
    /// The id of the next message to deliver.
    pub expect: usize,
    pub cpid: usize,
    pub send_ext: u32,
    /// Outgoing datagrams, oldest first, with the ext they are sent under.
    pub sent: Seq<(Seq<u8>, u32)>,
    pub recv_cache: Map<usize, HeldMsg>,
    /// Delivered messages not yet taken, oldest first.
    pub recv_queue: Seq<Seq<u8>>,
    pub error: Option<USErr>,
    pub split: UdpSplitView,
    /// Nanoseconds after which a handshake message is sent again.
    pub timeout: u128,
    pub max_retry: u16,
}

/// A reliable sender whose datagrams go out through another connection: each one is
/// queued with the counterpart's id in front.
pub struct AttchedUdpSender {
    send_queue: Vec<(Vec<u8>, u32)>,
    send_ext: u32,
    cpid: usize,
    mid: usize,
    recv_cache: HashMap<usize, (Vec<u8>, u32, u8, Option<Vec<u8>>)>,
    expect_id: usize,
    recv_queue: Vec<Vec<u8>>,
    sid: SessionState,
    error: Option<USErr>,
    msg_split: DefUdpMsgSplit,
    timeout: u128,
    max_retry_times: u16,
}

pub open spec fn held_view(e: (Vec<u8>, u32, u8, Option<Vec<u8>>)) -> HeldMsg {
    (
        e.0@,
        e.1,
        e.2,
        match e.3 {
            Some(h) => Some(h@),
            None => None,
        },
    )
}

impl View for AttchedUdpSender {
    type V = AttView;

    closed spec fn view(&self) -> AttView {
        AttView {
            sid: self.sid,
            mid: self.mid,
            expect: self.expect_id,
            cpid: self.cpid,
            send_ext: self.send_ext,
            sent: Seq::new(
                self.send_queue@.len(),
                |i: int| (self.send_queue@[i].0@, self.send_queue@[i].1),
            ),
            recv_cache: Map::new(
                |k: usize| self.recv_cache@.contains_key(k),
                |k: usize| held_view(self.recv_cache@[k]),
            ),
            recv_queue: Seq::new(self.recv_queue@.len(), |i: int| self.recv_queue@[i]@),
            error: self.error,
            split: self.msg_split@,
            timeout: self.timeout,
            max_retry: self.max_retry_times,
        }
    }
}

/// `s` with the datagram carrying `frame` queued for the counterpart.
pub open spec fn att_send(s: AttView, frame: Seq<u8>) -> AttView {
    AttView { sent: s.sent.push((be_bytes(s.cpid as nat, usize_len()) + frame, s.send_ext)), ..s }
}

/// The frame of control message `code` for message `mid` of session `sid`.
pub open spec fn ctl_frame(code: SpecialExt, mid: usize, sid: u128) -> Seq<u8> {
    spec_att_frame(seq![CONTROL_BYTE], spec_ext_value(code), TOKEN_NORMAL, mid, sid, Seq::empty())
}

/// `s` with the control reply `r`, if any, queued.
pub open spec fn att_reply(s: AttView, r: Option<(SpecialExt, u128)>) -> AttView {
    match r {
        None => s,
        Some((c, x)) => att_send(s, ctl_frame(c, 0, x)),
    }
}

/// `msg` with `tag` is a control message.
pub open spec fn is_control(msg: Seq<u8>, tag: u8) -> bool {
    msg.len() == 1 && msg[0] == CONTROL_BYTE && tag == TOKEN_NORMAL
}

/// The tag of a slice of a split message.
pub open spec fn is_slice_tag(tag: u8) -> bool {
    TOKEN_SUBPACKAGE_BEGIN <= tag <= TOKEN_SUBPACKAGE_END
}

/// What handling a received message as a possible control message does, and its
/// outcome: `Ok(true)` when consumed, `Ok(false)` when it is an ordinary message.
pub open spec fn att_control(s: AttView, msg: Seq<u8>, ext: u32, tag: u8, id: usize, sid: u128, now: u128) -> (
    AttView,
    Result<bool, USErr>,
) {
    if !is_control(msg, tag) {
        (s, Ok(false))
    } else {
        let code = spec_special_ext_of(ext)->0;
        match code {
            SpecialExt::SendRecv => (s, Ok(true)),
            SpecialExt::SkipMessage => match spec_sid(s.sid) {
                None => (s, Err(USErr::NoSession)),
                Some(x) => {
                    let s1 = att_send(s, ctl_frame(SpecialExt::SendRecv, id, x));
                    if id == s1.expect {
                        (AttView { expect: next_id(id), ..s1 }, Ok(true))
                    } else if id > s1.expect {
                        (
                            AttView {
                                recv_cache: s1.recv_cache.insert(id, (Seq::empty(), ext, tag, None)),
                                ..s1
                            },
                            Ok(true),
                        )
                    } else {
                        (s1, Ok(true))
                    }
                },
            },
            _ => {
                let st = att_session(s.sid, code, sid, now);
                let s1 = AttView {
                    sid: st.state,
                    sent: if st.clear {
                        Seq::empty()
                    } else {
                        s.sent
                    },
                    ..s
                };
                (att_reply(s1, st.reply), st.outcome)
            },
        }
    }
}

/// `s` after merging the slice `msg` into its message, and the completed message.
pub open spec fn att_merge(s: AttView, msg: Seq<u8>, ext: u32, tag: u8, head: Seq<u8>) -> (
    AttView,
    Result<Seq<u8>, USErr>,
) {
    let (c, l, o) = spec_udp_merge(s.split.cache, s.split.last_pop, msg, ext, tag, head);
    let s1 = AttView { split: UdpSplitView { cache: c, last_pop: l, ..s.split }, ..s };
    match o {
        Some(m) => (s1, Ok(m)),
        None => (s1, Err(USErr::EmptyMsg)),
    }
}

/// What receiving the frame body `data` at `now` does, and the message it delivers;
/// an empty `data` delivers the held message that is next in order, if any.
pub open spec fn att_recv(s: AttView, data: Seq<u8>, now: u128) -> (AttView, Result<Seq<u8>, USErr>) {
    if data.len() == 0 {
        if s.recv_cache.contains_key(s.expect) {
            let e = s.recv_cache[s.expect];
            let s1 = AttView { recv_cache: s.recv_cache.remove(s.expect), expect: next_id(s.expect), ..s };
            if e.0.len() == 0 {
                (s1, Err(USErr::EmptyMsg))
            } else if is_slice_tag(e.2) {
                att_merge(s1, e.0, e.1, e.2, e.3->0)
            } else {
                (s1, Ok(e.0))
            }
        } else {
            (s, Err(USErr::EmptyMsg))
        }
    } else {
        let (msg, id0, ext0, tag, sid0, sub) = spec_att_unwarp(data);
        let id = id0 as usize;
        let ext = ext0 as u32;
        let sid = sid0 as u128;
        let (s1, c) = att_control(s, msg, ext, tag, id, sid, now);
        match c {
            Err(e) => (s1, Err(e)),
            Ok(true) => (s1, Err(USErr::EmptyMsg)),
            Ok(false) => if s1.sid is Closed {
                (att_send(s1, ctl_frame(SpecialExt::ErrAlreadyClosed, 0, 0)), Err(USErr::EmptyMsg))
            } else {
                match spec_sid(s1.sid) {
                    None => (att_send(s1, ctl_frame(SpecialExt::ErrNoSession, 0, 0)), Err(USErr::EmptyMsg)),
                    Some(x) => if x != sid {
                        (att_send(s1, ctl_frame(SpecialExt::ErrBadSession, 0, 0)), Err(USErr::EmptyMsg))
                    } else {
                        let s2 = att_send(s1, ctl_frame(SpecialExt::SendRecv, id, x));
                        if id == s2.expect {
                            let s3 = AttView { expect: next_id(id), ..s2 };
                            if is_slice_tag(tag) {
                                att_merge(s3, msg, ext, tag, sub)
                            } else {
                                (s3, Ok(msg))
                            }
                        } else if id > s2.expect {
                            (
                                AttView {
                                    recv_cache: s2.recv_cache.insert(
                                        id,
                                        (
                                            msg,
                                            ext,
                                            tag,
                                            if sub.len() == 0 {
                                                None
                                            } else {
                                                Some(sub)
                                            },
                                        ),
                                    ),
                                    ..s2
                                },
                                Err(USErr::EmptyMsg),
                            )
                        } else {
                            (s2, Err(USErr::EmptyMsg))
                        }
                    },
                }
            },
        }
    }
}

/// The frame body `data` is one that receiving handles: it is long enough, a
/// control message names a known code, and a slice that reaches the merge is one
/// the merge accepts.
pub open spec fn att_recv_ok(s: AttView, data: Seq<u8>) -> bool {
    if data.len() == 0 {
        s.recv_cache.contains_key(s.expect) && s.recv_cache[s.expect].0.len() > 0 && is_slice_tag(
            s.recv_cache[s.expect].2,
        ) ==> {
            let e = s.recv_cache[s.expect];
            e.3 is Some && udp_merge_ok(s.split.cache, s.split.last_pop, e.0, e.1, e.2, e.3->0)
        }
    } else {
        att_body_ok(data) && {
            let (msg, id, ext, tag, sid, sub) = spec_att_unwarp(data);
            &&& is_control(msg, tag) ==> spec_special_ext_of(ext as u32) is Some
            &&& is_slice_tag(tag) && !(s.sid is Closed) && spec_sid(s.sid) == Some(sid as u128) && id
                == s.expect ==> udp_merge_ok(s.split.cache, s.split.last_pop, msg, ext as u32, tag, sub)
        }
    }
}

/// What `check_recv` does: a stored error is returned again; otherwise the frame is
/// received, a delivered message is queued, and an error other than "empty" is
/// stored and returned.
pub open spec fn att_check_recv(s: AttView, data: Seq<u8>, now: u128) -> (AttView, Result<(), USErr>) {
    match s.error {
        Some(e) => (s, Err(e)),
        None => {
            let (s1, r) = att_recv(s, data, now);
            match r {
                Ok(m) => (AttView { recv_queue: s1.recv_queue.push(m), ..s1 }, Ok(())),
                Err(USErr::EmptyMsg) => (s1, Ok(())),
                Err(e) => (AttView { error: Some(e), ..s1 }, Err(e)),
            }
        },
    }
}

/// What sending `v` does, with `fresh` the id a new session would get and `now` the time.
pub open spec fn att_send_msg(s: AttView, v: Seq<u8>, fresh: u128, now: u128) -> (AttView, Result<(), USErr>) {
    match s.sid {
        SessionState::Null => {
            let s1 = AttView { split: spec_push(s.split, v), sid: SessionState::WaitResponse(fresh, now, 1), ..s };
            (att_send(s1, ctl_frame(SpecialExt::SendSid, 0, fresh)), Ok(()))
        },
        SessionState::Closed(_) => (s, Err(USErr::AlreadyClosed)),
        SessionState::PrepareClose(_, _, _) => (s, Err(USErr::AlreadyClosed)),
        SessionState::ReqClose(_, _, _) => (s, Err(USErr::AlreadyClosed)),
        _ => (AttView { split: spec_push(s.split, v), ..s }, Ok(())),
    }
}

/// Handshake resending at `now`: a handshake message not answered within the timeout
/// is sent again, and one sent more than the retry limit fails the session.
pub open spec fn att_retry_handshake(s: AttView, now: u128) -> (AttView, Result<(), USErr>) {
    match s.sid {
        SessionState::WaitResponse(v, t, times) => if times > s.max_retry {
            (s, Err(USErr::SendSessionFailed))
        } else if now >= t && now - t > s.timeout {
            (
                att_send(
                    AttView { sid: SessionState::WaitResponse(v, now, (times + 1) as u16), ..s },
                    ctl_frame(SpecialExt::SendSid, 0, v),
                ),
                Ok(()),
            )
        } else {
            (s, Ok(()))
        },
        SessionState::WaitResponseCp(v, t, times) => if times > s.max_retry {
            (s, Err(USErr::SendSessionFailed))
        } else if now >= t && now - t > s.timeout {
            (
                att_send(
                    AttView { sid: SessionState::WaitResponseCp(v, now, (times + 1) as u16), ..s },
                    ctl_frame(SpecialExt::ResponseSendSid, 0, v),
                ),
                Ok(()),
            )
        } else {
            (s, Ok(()))
        },
        _ => (s, Ok(())),
    }
}

/// `s` after cutting, framing and queueing one slice for each send time in `ts`,
/// in order; it stops when no slice is waiting or the next slice index would pass
/// the top.
pub open spec fn att_drain(s: AttView, ts: Seq<u128>) -> AttView
    decreases ts.len(),
{
    if ts.len() == 0 || drained(s) {
        s
    } else {
        att_drain(att_drain_step(s, ts[0]), ts.drop_first())
    }
}

/// Draining is over: no slice is waiting, or the next one cannot be cut.
pub open spec fn drained(s: AttView) -> bool {
    s.split.curr is None || !pop_ok(s.split)
}

} // verus!

verus! {

/// One draining step: cut the next slice, frame it as the next message, queue it.
pub open spec fn att_drain_step(s: AttView, now: u128) -> AttView {
    let (sp, sl) = spec_pop(s.split, now);
    match sl {
        None => s,
        Some((bytes, ext, tag, head)) => {
            let mid = next_id(s.mid);
            let sub = match head {
                None => Seq::<u8>::empty(),
                Some(h) => h,
            };
            att_send(
                AttView { split: sp, mid, ..s },
                spec_att_frame(bytes, ext, tag, mid, spec_sid(s.sid)->0, sub),
            )
        },
    }
}

proof fn lemma_drain_last(s: AttView, ts: Seq<u128>, t: u128)
    ensures
        att_drain(s, ts.push(t)) == if drained(att_drain(s, ts)) {
            att_drain(s, ts)
        } else {
            att_drain_step(att_drain(s, ts), t)
        },
    decreases ts.len(),
{
    if ts.len() == 0 {
        assert(ts.push(t).drop_first() =~= Seq::<u128>::empty());
        assert(att_drain(att_drain_step(s, t), Seq::<u128>::empty()) == att_drain_step(s, t));
    } else if !drained(s) {
        assert(ts.push(t).drop_first() =~= ts.drop_first().push(t));
        lemma_drain_last(att_drain_step(s, ts[0]), ts.drop_first(), t);
    }
}

/// What `check_send` does at `now`, with `f` the state after it and `r` its result: a
/// stored error is returned again; otherwise handshake messages are resent or the
/// session fails, and with the session settled every waiting slice is framed and
/// queued.
pub open spec fn att_check_send(s: AttView, now: u128, f: AttView, r: Result<(), USErr>) -> bool {
    match s.error {
        Some(e) => f == s && r == Err::<(), USErr>(e),
        None => {
            let (s1, r1) = att_retry_handshake(s, now);
            match r1 {
                Err(e) => f == s1 && r == Err::<(), USErr>(e),
                Ok(_) => r == Ok::<(), USErr>(()) && if s1.sid is WaitResponseCp || s1.sid is Has {
                    exists|ts: Seq<u128>| f == #[trigger] att_drain(s1, ts) && drained(f)
                } else {
                    f == s1
                },
            }
        },
    }
}

/// The handshake counter can be raised without passing its top.
pub open spec fn retry_fits(s: AttView) -> bool {
    match s.sid {
        SessionState::WaitResponse(_, _, t) => t <= s.max_retry ==> t < u16::MAX,
        SessionState::WaitResponseCp(_, _, t) => t <= s.max_retry ==> t < u16::MAX,
        _ => true,
    }
}

impl AttchedUdpSender {
    /// The internal invariant: the splitter is well formed and no stored error wraps
    /// an I/O error.
    pub closed spec fn wf(&self) -> bool {
        &&& self.msg_split.wf()
        &&& !(self.error matches Some(USErr::Warp(_)))
    }

    /// A sender for counterpart `cpid` whose datagrams go out under ext `send_ext`:
    /// no session yet, slices as long as a datagram allows, a handshake timeout of
    /// half a second and nine retries.
    pub fn new(send_ext: u32, cpid: usize) -> (r: AttchedUdpSender)
        ensures
            r.wf(),
            r@.sid == SessionState::Null,
            r@.mid == 0,
            r@.expect == 1,
            r@.cpid == cpid,
            r@.send_ext == send_ext,
            r@.sent == Seq::<(Seq<u8>, u32)>::empty(),
            r@.recv_cache == Map::<usize, HeldMsg>::empty(),
            r@.recv_queue == Seq::<Seq<u8>>::empty(),
            r@.error is None,
            r@.timeout == 500_000_000,
            r@.max_retry == 9,
            r@.split.max_unit == 65500 - (spec_att_package_len() + 28),
            r@.split.min_unit == 1472 - (spec_att_package_len() + 28),
            r@.split.unit == usize::MAX,
            r@.split.curr is None,
            r@.split.queue.len() == 0,
            r@.split.recovery.len() == 0,
            r@.split.last_pop is None,
            r@.split.cache == Map::<u32, (Seq<u8>, u32, u128)>::empty(),
    {
        let sub_head_size: usize = 28;
        let max_len = 65500 - (att_package_len() + sub_head_size);
        let min_len = 1472 - (att_package_len() + sub_head_size);
        let mut msg_split = DefUdpMsgSplit::with_max_unit_size(max_len, min_len);
        msg_split.set_unit_size(usize::MAX);
        let r = AttchedUdpSender {
            send_queue: Vec::new(),
            send_ext,
            cpid,
            mid: 0,
            recv_cache: HashMap::new(),
            expect_id: 1,
            recv_queue: Vec::new(),
            sid: SessionState::Null,
            error: None,
            msg_split,
            timeout: 500_000_000,
            max_retry_times: 9,
        };
        proof {
            lemma_usize_width();
        }
        assert(r@.sent =~= Seq::<(Seq<u8>, u32)>::empty());
        assert(r@.recv_cache =~= Map::<usize, HeldMsg>::empty());
        assert(r@.recv_queue =~= Seq::<Seq<u8>>::empty());
        r
    }

    proof fn lemma_view_frame(a: &Self, b: &Self)
        requires
            a.send_queue@ == b.send_queue@,
            a.recv_cache@ == b.recv_cache@,
            a.recv_queue@ == b.recv_queue@,
        ensures
            a@.sent == b@.sent,
            a@.recv_cache == b@.recv_cache,
            a@.recv_queue == b@.recv_queue,
    {
        assert(a@.sent =~= b@.sent);
        assert(a@.recv_cache =~= b@.recv_cache);
        assert(a@.recv_queue =~= b@.recv_queue);
    }

    /// Queues the datagram carrying `frame`, with the counterpart's id in front.
    fn send(&mut self, frame: Vec<u8>)
        ensures
            final(self)@ == att_send(old(self)@, frame@),
            final(self).msg_split == old(self).msg_split,
            final(self).error == old(self).error,
    {
        proof {
            lemma_usize_width();
        }
        let mut d: Vec<u8> = Vec::new();
        push_be(&mut d, self.cpid as u128, core::mem::size_of::<usize>());
        push_all(&mut d, frame.as_slice());
        let ghost s0 = self@;
        self.send_queue.push((d, self.send_ext));
        proof {
            assert(self@.sent =~= s0.sent.push((be_bytes(s0.cpid as nat, usize_len()) + frame@, s0.send_ext)));
            assert(self@.recv_cache =~= s0.recv_cache);
            assert(self@.recv_queue =~= s0.recv_queue);
        }
    }

    /// Queues control message `code` for message `mid` of session `sid`.
    fn send_ctl(&mut self, code: SpecialExt, mid: usize, sid: u128)
        ensures
            final(self)@ == att_send(old(self)@, ctl_frame(code, mid, sid)),
            final(self).msg_split == old(self).msg_split,
            final(self).error == old(self).error,
    {
        let f = att_warp_ex(&[CONTROL_BYTE], code.to_u32(), TOKEN_NORMAL, mid, sid, None);
        proof {
            assert(seq![CONTROL_BYTE] =~= [CONTROL_BYTE]@);
        }
        self.send(f);
    }

    fn reply(&mut self, r: Option<(SpecialExt, u128)>)
        ensures
            final(self)@ == att_reply(old(self)@, r),
            final(self).msg_split == old(self).msg_split,
            final(self).error == old(self).error,
    {
        match r {
            Some((c, x)) => self.send_ctl(c, 0, x),
            None => {},
        }
    }
}

} // verus!

verus! {

impl AttchedUdpSender {
    /// Handles `msg` as a possible control message of the counterpart.
    fn check_send_recv(&mut self, msg: &[u8], ext: u32, tag: u8, id: usize, sid: u128, now: u128) -> (r: Result<bool, USErr>)
        requires
            old(self).wf(),
            is_control(msg@, tag) ==> spec_special_ext_of(ext) is Some,
        ensures
            final(self).wf(),
            (final(self)@, r) == att_control(old(self)@, msg@, ext, tag, id, sid, now),
    {
        if msg.len() == 1 && msg[0] == CONTROL_BYTE && tag == TOKEN_NORMAL {
            let code = match SpecialExt::try_from_u32(ext) {
                Some(c) => c,
                None => {
                    return Ok(false);
                },
            };
            match code {
                SpecialExt::SendRecv => Ok(true),
                SpecialExt::SkipMessage => {
                    match self.sid.get_sid() {
                        None => Err(USErr::NoSession),
                        Some(x) => {
                            self.send_ctl(SpecialExt::SendRecv, id, x);
                            let ghost s1 = self@;
                            if self.expect_id == id {
                                self.expect_id = next_mid(id);
                            } else if id > self.expect_id {
                                self.recv_cache.insert(id, (Vec::new(), ext, tag, None));
                                proof {
                                    assert(self@.recv_cache =~= s1.recv_cache.insert(
                                        id,
                                        (Seq::empty(), ext, tag, None),
                                    ));
                                    Self::lemma_view_frame_q(s1, self);
                                }
                            }
                            Ok(true)
                        },
                    }
                },
                _ => {
                    let st = att_session_step(self.sid, code, sid, now);
                    let ControlStep { state, reply, outcome, flush: _, clear } = st;
                    self.sid = state;
                    if clear {
                        self.send_queue = Vec::new();
                        assert(self@.sent =~= Seq::<(Seq<u8>, u32)>::empty());
                    }
                    proof {
                        assert(self@.recv_cache =~= old(self)@.recv_cache);
                        assert(self@.recv_queue =~= old(self)@.recv_queue);
                        if !clear {
                            assert(self@.sent =~= old(self)@.sent);
                        }
                    }
                    self.reply(reply);
                    outcome
                },
            }
        } else {
            Ok(false)
        }
    }

    proof fn lemma_view_frame_q(s1: AttView, b: &Self)
        requires
            b@.sent == s1.sent,
            b@.recv_queue == s1.recv_queue,
        ensures
            b@.sent == s1.sent,
    {
    }

    /// Receives the frame body `data` (an empty one delivers the held message next in
    /// order) and returns the message it completes.
    fn unwarp(&mut self, data: &[u8], now: u128) -> (r: Result<Vec<u8>, USErr>)
        requires
            old(self).wf(),
            att_recv_ok(old(self)@, data@),
        ensures
            final(self).wf(),
            final(self)@ == att_recv(old(self)@, data@, now).0,
            match att_recv(old(self)@, data@, now).1 {
                Ok(m) => r matches Ok(x) && x@ == m,
                Err(e) => r == Err::<Vec<u8>, USErr>(e),
            },
    {
        if data.len() == 0 {
            let ghost s0 = self@;
            let expect = self.expect_id;
            match self.recv_cache.remove(&expect) {
                None => {
                    proof {
                        assert(self@.recv_cache =~= s0.recv_cache);
                        assert(self@ =~= s0);
                    }
                    Err(USErr::EmptyMsg)
                },
                Some(e) => {
                    self.expect_id = next_mid(expect);
                    let (m, ext, tag, head) = e;
                    proof {
                        assert(self@.recv_cache =~= s0.recv_cache.remove(expect));
                        assert(self@.sent =~= s0.sent);
                        assert(self@.recv_queue =~= s0.recv_queue);
                    }
                    if m.len() == 0 {
                        Err(USErr::EmptyMsg)
                    } else if self.msg_split.need_merge(tag) {
                        let h = match head {
                            Some(h) => h,
                            None => {
                                return Err(USErr::EmptyMsg);
                            },
                        };
                        let ghost s1 = self@;
                        let o = self.msg_split.merge(m.as_slice(), ext, tag, h.as_slice());
                        proof {
                            assert(self@.split =~= (UdpSplitView { cache: self@.split.cache, last_pop: self@.split.last_pop, ..s1.split }));
                            Self::lemma_view_frame(self, self);
                            assert(self@.sent =~= s1.sent);
                            assert(self@.recv_cache =~= s1.recv_cache);
                            assert(self@.recv_queue =~= s1.recv_queue);
                        }
                        match o {
                            Some(v) => Ok(v),
                            None => Err(USErr::EmptyMsg),
                        }
                    } else {
                        Ok(m)
                    }
                },
            }
        } else {
            let (msg, id, ext, tag, sid, sub) = att_unwarp_ex(data);
            let c = self.check_send_recv(msg.as_slice(), ext, tag, id, sid, now);
            match c {
                Err(e) => {
                    return Err(e);
                },
                Ok(true) => {
                    return Err(USErr::EmptyMsg);
                },
                Ok(false) => {},
            }
            if self.sid.is_close() {
                self.send_ctl(SpecialExt::ErrAlreadyClosed, 0, 0);
                return Err(USErr::EmptyMsg);
            }
            let x = match self.sid.get_sid() {
                None => {
                    self.send_ctl(SpecialExt::ErrNoSession, 0, 0);
                    return Err(USErr::EmptyMsg);
                },
                Some(x) => x,
            };
            if x != sid {
                self.send_ctl(SpecialExt::ErrBadSession, 0, 0);
                return Err(USErr::EmptyMsg);
            }
            self.send_ctl(SpecialExt::SendRecv, id, x);
            if id == self.expect_id {
                self.expect_id = next_mid(id);
                if self.msg_split.need_merge(tag) {
                    let ghost s1 = self@;
                    let o = self.msg_split.merge(msg.as_slice(), ext, tag, sub.as_slice());
                    proof {
                        assert(self@.split =~= (UdpSplitView { cache: self@.split.cache, last_pop: self@.split.last_pop, ..s1.split }));
                        assert(self@.sent =~= s1.sent);
                        assert(self@.recv_cache =~= s1.recv_cache);
                        assert(self@.recv_queue =~= s1.recv_queue);
                    }
                    match o {
                        Some(v) => Ok(v),
                        None => Err(USErr::EmptyMsg),
                    }
                } else {
                    Ok(msg)
                }
            } else if id > self.expect_id {
                let ghost s2 = self@;
                let h = if sub.len() == 0 {
                    None
                } else {
                    Some(sub)
                };
                self.recv_cache.insert(id, (msg, ext, tag, h));
                proof {
                    assert(self@.recv_cache =~= s2.recv_cache.insert(
                        id,
                        held_view(self.recv_cache@[id]),
                    ));
                    assert(self@.sent =~= s2.sent);
                    assert(self@.recv_queue =~= s2.recv_queue);
                }
                Err(USErr::EmptyMsg)
            } else {
                Err(USErr::EmptyMsg)
            }
        }
    }
}

} // verus!

verus! {

/// `s` after starting a session under id `fresh` at `now`.
pub open spec fn att_open(s: AttView, fresh: u128, now: u128) -> AttView {
    att_send(
        AttView { sid: SessionState::WaitResponse(fresh, now, 1), ..s },
        ctl_frame(SpecialExt::SendSid, 0, fresh),
    )
}

/// `s` after asking at `now` to close session `x`: the outgoing queue is dropped and
/// the request queued.
pub open spec fn att_close_req(s: AttView, x: u128, now: u128) -> AttView {
    att_send(
        AttView { sid: SessionState::ReqClose(x, now, 1), sent: Seq::empty(), ..s },
        ctl_frame(SpecialExt::ReqClose, 0, x),
    )
}

impl AttchedUdpSender {
    /// Receives the frame body `data` at `now` (see `att_check_recv`).
    pub fn check_recv_at(&mut self, data: &[u8], now: u128) -> (r: Result<(), USErr>)
        requires
            old(self).wf(),
            att_recv_ok(old(self)@, data@),
        ensures
            final(self).wf(),
            (final(self)@, r) == att_check_recv(old(self)@, data@, now),
    {
        match &self.error {
            Some(e) => {
                return Err(e.clone());
            },
            None => {},
        }
        let u = self.unwarp(data, now);
        match u {
            Ok(v) => {
                let ghost s1 = self@;
                self.recv_queue.push(v);
                proof {
                    assert(self@.recv_queue =~= s1.recv_queue.push(self.recv_queue@.last()@));
                    assert(self@.sent =~= s1.sent);
                    assert(self@.recv_cache =~= s1.recv_cache);
                }
                Ok(())
            },
            Err(USErr::EmptyMsg) => Ok(()),
            Err(e) => {
                let ghost s1 = self@;
                self.error = Some(e.clone());
                proof {
                    assert(self@.sent =~= s1.sent);
                    assert(self@.recv_cache =~= s1.recv_cache);
                    assert(self@.recv_queue =~= s1.recv_queue);
                }
                Err(e)
            },
        }
    }

    /// Receives the frame body `data` now.
    pub fn check_recv(&mut self, data: &[u8]) -> (r: Result<(), USErr>)
        requires
            old(self).wf(),
            att_recv_ok(old(self)@, data@),
        ensures
            final(self).wf(),
            exists|now: u128| (final(self)@, r) == #[trigger] att_check_recv(old(self)@, data@, now),
    {
        let now = now_nanos();
        self.check_recv_at(data, now)
    }

    /// Whether `check_recv` handles the frame body `data` (else it would fail on it).
    pub fn recv_ok(&self, data: &[u8]) -> (r: bool)
        requires
            self.wf(),
        ensures
            r == att_recv_ok(self@, data@),
    {
        proof {
            lemma_usize_width();
        }
        if data.len() == 0 {
            match self.recv_cache.get(&self.expect_id) {
                None => true,
                Some(e) => {
                    if e.0.len() == 0 || !self.msg_split.need_merge(e.2) {
                        true
                    } else {
                        match &e.3 {
                            None => false,
                            Some(h) => self.msg_split.merge_ok(e.0.as_slice(), e.1, e.2, h.as_slice()),
                        }
                    }
                },
            }
        } else {
            let w = core::mem::size_of::<usize>();
            if data.len() < 28 + w {
                return false;
            }
            if 29 + w + (data[27 + w] as usize) > data.len() {
                return false;
            }
            let (msg, id, ext, tag, sid, sub) = att_unwarp_ex(data);
            if msg.len() == 1 && msg[0] == CONTROL_BYTE && tag == TOKEN_NORMAL && SpecialExt::try_from_u32(
                ext,
            ).is_none() {
                return false;
            }
            if self.msg_split.need_merge(tag) && !self.sid.is_close() && self.sid.eq_sid(sid) && id
                == self.expect_id {
                return self.msg_split.merge_ok(msg.as_slice(), ext, tag, sub.as_slice());
            }
            true
        }
    }

    /// Takes the next delivered message, or fails with the stored error or with
    /// `EmptyMsg` when none is waiting.
    pub fn pop_recv_msg(&mut self) -> (r: Result<Vec<u8>, USErr>)
        requires
            old(self).wf(),
        ensures
            final(self).wf(),
            match old(self)@.error {
                Some(e) => final(self)@ == old(self)@ && r == Err::<Vec<u8>, USErr>(e),
                None => if old(self)@.recv_queue.len() == 0 {
                    final(self)@ == old(self)@ && r == Err::<Vec<u8>, USErr>(USErr::EmptyMsg)
                } else {
                    &&& r matches Ok(v) && v@ == old(self)@.recv_queue[0]
                    &&& final(self)@ == (AttView { recv_queue: old(self)@.recv_queue.drop_first(), ..old(self)@ })
                },
            },
    {
        match &self.error {
            Some(e) => {
                return Err(e.clone());
            },
            None => {},
        }
        if self.recv_queue.len() == 0 {
            return Err(USErr::EmptyMsg);
        }
        let ghost s0 = self@;
        let v = self.recv_queue.remove(0);
        proof {
            assert(self@.recv_queue =~= s0.recv_queue.drop_first());
            assert(self@.sent =~= s0.sent);
            assert(self@.recv_cache =~= s0.recv_cache);
        }
        Ok(v)
    }

    /// The splitter can queue one more message.
    pub open spec fn can_queue_spec(s: AttView) -> bool {
        spec_check_wait(s.split).queue.len() < u32::MAX
    }

    /// Whether one more message can be queued.
    pub fn can_queue(&self) -> (r: bool)
        requires
            self.wf(),
        ensures
            r == Self::can_queue_spec(self@),
    {
        self.msg_split.queue_room()
    }

    /// Queues `v` at `now`; with no session yet it starts one under id `fresh`.
    pub fn send_msg_at(&mut self, v: Vec<u8>, fresh: u128, now: u128) -> (r: Result<(), USErr>)
        requires
            old(self).wf(),
            Self::can_queue_spec(old(self)@),
        ensures
            final(self).wf(),
            (final(self)@, r) == att_send_msg(old(self)@, v@, fresh, now),
    {
        let ghost s0 = self@;
        match self.sid {
            SessionState::Closed(_) | SessionState::PrepareClose(_, _, _) | SessionState::ReqClose(_, _, _) => {
                return Err(USErr::AlreadyClosed);
            },
            _ => {},
        }
        let was_null = match self.sid {
            SessionState::Null => true,
            _ => false,
        };
        self.msg_split.push_msg(v);
        proof {
            assert(self@.sent =~= s0.sent);
            assert(self@.recv_cache =~= s0.recv_cache);
            assert(self@.recv_queue =~= s0.recv_queue);
        }
        if was_null {
            self.sid = SessionState::WaitResponse(fresh, now, 1);
            self.send_ctl(SpecialExt::SendSid, 0, fresh);
        }
        Ok(())
    }

    /// Queues `v` now; with no session yet it starts one under a random id.
    pub fn send_msg(&mut self, v: Vec<u8>) -> (r: Result<(), USErr>)
        requires
            old(self).wf(),
            Self::can_queue_spec(old(self)@),
        ensures
            final(self).wf(),
            exists|fresh: u128, now: u128| (final(self)@, r) == #[trigger] att_send_msg(old(self)@, v@, fresh, now),
    {
        let fresh = random_session_id();
        let now = now_nanos();
        self.send_msg_at(v, fresh, now)
    }
}

/// A random session id, from `rand::random`.
#[verifier::external_body]
pub(crate) fn random_session_id() -> u128 {
    rand::random::<u128>()
}

} // verus!

verus! {

impl AttchedUdpSender {
    /// Cuts the next slice now, frames it as the next message of session `sid`,
    /// queues it.
    fn drain_one(&mut self, sid: u128)
        requires
            old(self).wf(),
            pop_ok(old(self)@.split),
            spec_sid(old(self)@.sid) == Some(sid),
        ensures
            final(self).wf(),
            exists|t: u128| final(self)@ == #[trigger] att_drain_step(old(self)@, t),
    {
        let p = self.msg_split.pop_msg();
        let ghost t = choose|t: u128|
            {
                &&& self.msg_split@ == spec_pop(old(self)@.split, t).0
                &&& #[trigger] pop_result_is(p, spec_pop(old(self)@.split, t).1)
            };
        let (bytes, ext, tag, info) = match p {
            Some(x) => x,
            None => {
                assert(self@ =~= att_drain_step(old(self)@, t));
                return;
            },
        };
        let ghost before = self@;
        let mid = next_mid(self.mid);
        self.mid = mid;
        let f = match &info {
            MsgSlicesInfo::Complete => att_warp_ex(bytes.as_slice(), ext, tag, mid, sid, None),
            MsgSlicesInfo::Part(h) => att_warp_ex(bytes.as_slice(), ext, tag, mid, sid, Some(h.as_slice())),
        };
        proof {
            assert(self@.sent =~= before.sent);
            assert(self@.recv_cache =~= before.recv_cache);
            assert(self@.recv_queue =~= before.recv_queue);
        }
        self.send(f);
        assert(self@ == att_drain_step(old(self)@, t));
    }

    /// Resends unanswered handshake messages at `now` and, with the session settled,
    /// frames and queues every waiting slice, each stamped with the time it is cut
    /// (see `att_check_send`).
    pub fn check_send_at(&mut self, now: u128) -> (r: Result<(), USErr>)
        requires
            old(self).wf(),
            old(self)@.split.unit > 0,
            retry_fits(old(self)@),
        ensures
            final(self).wf(),
            att_check_send(old(self)@, now, final(self)@, r),
    {
        match &self.error {
            Some(e) => {
                return Err(e.clone());
            },
            None => {},
        }
        match self.sid {
            SessionState::WaitResponse(v, t, times) => {
                if times > self.max_retry_times {
                    return Err(USErr::SendSessionFailed);
                }
                if now >= t && now - t > self.timeout {
                    self.sid = SessionState::WaitResponse(v, now, times + 1);
                    self.send_ctl(SpecialExt::SendSid, 0, v);
                }
            },
            SessionState::WaitResponseCp(v, t, times) => {
                if times > self.max_retry_times {
                    return Err(USErr::SendSessionFailed);
                }
                if now >= t && now - t > self.timeout {
                    self.sid = SessionState::WaitResponseCp(v, now, times + 1);
                    self.send_ctl(SpecialExt::ResponseSendSid, 0, v);
                }
            },
            _ => {},
        }
        let ghost s1 = self@;
        assert(s1 == att_retry_handshake(old(self)@, now).0);
        if self.sid.is_has() {
            let sid = match self.sid.get_sid() {
                Some(x) => x,
                None => {
                    return Ok(());
                },
            };
            let ghost mut ts: Seq<u128> = Seq::empty();
            while self.msg_split.need_send() && self.msg_split.can_pop()
                invariant
                    self.wf(),
                    self@ == att_drain(s1, ts),
                    self@.split.unit == s1.split.unit,
                    s1.split.unit > 0,
                    self@.sid == s1.sid,
                    spec_sid(s1.sid) == Some(sid),
                decreases split_work(self.msg_split@),
            {
                proof {
                    self.msg_split.lemma_wf_bounds();
                }
                let ghost before = self@;
                self.drain_one(sid);
                proof {
                    let t = choose|t: u128| self@ == #[trigger] att_drain_step(before, t);
                    DefUdpMsgSplit::lemma_pop_decreases(before.split, t);
                    lemma_drain_last(s1, ts, t);
                    ts = ts.push(t);
                }
            }
            proof {
                self.msg_split.lemma_wf_bounds();
            }
            proof {
                assert(drained(self@));
            }
        }
        Ok(())
    }

    /// Resends and drains now (see `check_send_at`).
    pub fn check_send(&mut self) -> (r: Result<(), USErr>)
        requires
            old(self).wf(),
            old(self)@.split.unit > 0,
            retry_fits(old(self)@),
        ensures
            final(self).wf(),
            exists|now: u128| #[trigger] att_check_send(old(self)@, now, final(self)@, r),
    {
        let now = now_nanos();
        self.check_send_at(now)
    }

    /// Starts a session under id `fresh` at `now`, unless one is settled or being set up.
    pub fn build_session_at(&mut self, fresh: u128, now: u128) -> (r: Result<(), USErr>)
        requires
            old(self).wf(),
        ensures
            final(self).wf(),
            old(self)@.sid is WaitResponseCp || old(self)@.sid is Has ==> final(self)@ == old(self)@
                && r == Err::<(), USErr>(USErr::AlreadyHasSession),
            old(self)@.sid is WaitResponse ==> final(self)@ == old(self)@ && r == Err::<(), USErr>(
                USErr::WaitSessionResponse,
            ),
            !(old(self)@.sid is WaitResponseCp || old(self)@.sid is Has || old(self)@.sid is WaitResponse)
                ==> r == Ok::<(), USErr>(()) && final(self)@ == att_open(old(self)@, fresh, now),
    {
        if self.sid.is_has() {
            return Err(USErr::AlreadyHasSession);
        }
        if self.sid.is_waiting_session() {
            return Err(USErr::WaitSessionResponse);
        }
        self.sid = SessionState::WaitResponse(fresh, now, 1);
        self.send_ctl(SpecialExt::SendSid, 0, fresh);
        Ok(())
    }

    /// Starts a session under a random id now.
    pub fn build_session(&mut self) -> (r: Result<(), USErr>)
        requires
            old(self).wf(),
        ensures
            final(self).wf(),
            old(self)@.sid is WaitResponseCp || old(self)@.sid is Has ==> final(self)@ == old(self)@
                && r == Err::<(), USErr>(USErr::AlreadyHasSession),
            old(self)@.sid is WaitResponse ==> final(self)@ == old(self)@ && r == Err::<(), USErr>(
                USErr::WaitSessionResponse,
            ),
            !(old(self)@.sid is WaitResponseCp || old(self)@.sid is Has || old(self)@.sid is WaitResponse)
                ==> r == Ok::<(), USErr>(()) && exists|fresh: u128, now: u128|
                final(self)@ == #[trigger] att_open(old(self)@, fresh, now),
    {
        let fresh = random_session_id();
        let now = now_nanos();
        self.build_session_at(fresh, now)
    }

    /// Asks the counterpart to close the session at `now`: the outgoing queue is
    /// dropped and the request queued.
    pub fn close_session_at(&mut self, now: u128) -> (r: Result<(), USErr>)
        requires
            old(self).wf(),
        ensures
            final(self).wf(),
            match spec_sid(old(self)@.sid) {
                None => final(self)@ == old(self)@ && r == Err::<(), USErr>(USErr::NoSession),
                Some(x) => r == Ok::<(), USErr>(()) && final(self)@ == att_close_req(old(self)@, x, now),
            },
    {
        let x = match self.sid.get_sid() {
            None => {
                return Err(USErr::NoSession);
            },
            Some(x) => x,
        };
        self.sid = SessionState::ReqClose(x, now, 1);
        self.send_queue = Vec::new();
        proof {
            assert(self@.sent =~= Seq::<(Seq<u8>, u32)>::empty());
            assert(self@.recv_cache =~= old(self)@.recv_cache);
            assert(self@.recv_queue =~= old(self)@.recv_queue);
        }
        self.send_ctl(SpecialExt::ReqClose, 0, x);
        Ok(())
    }

    /// Asks the counterpart to close the session now.
    pub fn close_session(&mut self) -> (r: Result<(), USErr>)
        requires
            old(self).wf(),
        ensures
            final(self).wf(),
            match spec_sid(old(self)@.sid) {
                None => final(self)@ == old(self)@ && r == Err::<(), USErr>(USErr::NoSession),
                Some(x) => r == Ok::<(), USErr>(()) && exists|now: u128|
                    final(self)@ == #[trigger] att_close_req(old(self)@, x, now),
            },
    {
        let now = now_nanos();
        self.close_session_at(now)
    }

    /// Whether the session id is settled.
    pub fn has_session(&self) -> (r: bool)
        ensures
            r == (self@.sid is WaitResponseCp || self@.sid is Has),
    {
        self.sid.is_has()
    }

    /// Whether a held message is next in order, so that `check_recv` with an empty
    /// body delivers it.
    pub fn need_check(&self) -> (r: bool)
        ensures
            r == self@.recv_cache.contains_key(self@.expect),
    {
        self.recv_cache.contains_key(&self.expect_id)
    }

    /// Sets the handshake timeout, in nanoseconds.
    pub fn set_time_out(&mut self, dur: u128)
        ensures
            final(self)@ == (AttView { timeout: dur, ..old(self)@ }),
            old(self).wf() ==> final(self).wf(),
    {
        self.timeout = dur;
        proof {
            Self::lemma_view_frame(old(self), self);
        }
    }

    /// Whether the retries of a session handshake that `check_send` adds to stay
    /// within 16 bits (see `retry_fits`).
    pub fn send_check_fits(&self) -> (r: bool)
        ensures
            r == retry_fits(self@),
    {
        match self.sid {
            SessionState::WaitResponse(_, _, t) => !(t <= self.max_retry_times) || t < u16::MAX,
            SessionState::WaitResponseCp(_, _, t) => !(t <= self.max_retry_times) || t < u16::MAX,
            _ => true,
        }
    }

    pub fn set_retry_times(&mut self, v: u16)
        ensures
            final(self)@ == (AttView { max_retry: v, ..old(self)@ }),
            old(self).wf() ==> final(self).wf(),
    {
        self.max_retry_times = v;
        proof {
            Self::lemma_view_frame(old(self), self);
        }
    }

    pub fn retry_times(&self) -> (r: u16)
        ensures
            r == self@.max_retry,
    {
        self.max_retry_times
    }

    /// Takes the outgoing datagrams, oldest first, with the ext each goes out under.
    pub fn take_sent(&mut self) -> (r: Vec<(Vec<u8>, u32)>)
        ensures
            r@.len() == old(self)@.sent.len(),
            forall|i: int| 0 <= i < r@.len() ==> (#[trigger] r@[i]).0@ == old(self)@.sent[i].0 && r@[i].1
                == old(self)@.sent[i].1,
            final(self)@ == (AttView { sent: Seq::empty(), ..old(self)@ }),
            old(self).wf() ==> final(self).wf(),
    {
        let mut r: Vec<(Vec<u8>, u32)> = Vec::new();
        std::mem::swap(&mut r, &mut self.send_queue);
        proof {
            assert(self@.sent =~= Seq::<(Seq<u8>, u32)>::empty());
            assert(self@.recv_cache =~= old(self)@.recv_cache);
            assert(self@.recv_queue =~= old(self)@.recv_queue);
        }
        r
    }
}

} // verus!

verus! {

/// A message framed as the next one of the settled session is delivered as it was
/// sent, and the one after it is expected next.
pub proof fn lemma_att_deliver(s: AttView, v: Seq<u8>, ext: u32, sid: u128, now: u128)
    requires
        s.sid == SessionState::Has(sid),
        !is_control(v, TOKEN_NORMAL),
    ensures
        att_recv_ok(s, spec_att_body(v, ext, TOKEN_NORMAL, s.expect, sid, Seq::empty())),
        ({
            let (s1, r) = att_recv(s, spec_att_body(v, ext, TOKEN_NORMAL, s.expect, sid, Seq::empty()), now);
            &&& r == Ok::<Seq<u8>, USErr>(v)
            &&& s1.expect == next_id(s.expect)
            &&& s1.sid == s.sid
        }),
{
    lemma_att_unwarp_warp(v, ext, TOKEN_NORMAL, s.expect, sid, Seq::empty());
}

/// Messages are delivered in the order they were sent, whatever order they arrive in:
/// the later one, arriving first, is held; the earlier one is delivered on arrival;
/// and the held one is delivered next.
pub proof fn lemma_att_reorder(s: AttView, v1: Seq<u8>, v2: Seq<u8>, ext: u32, sid: u128, now: u128)
    requires
        s.sid == SessionState::Has(sid),
        s.expect + 1 < usize::MAX,
        !is_control(v1, TOKEN_NORMAL),
        !is_control(v2, TOKEN_NORMAL),
        v2.len() > 0,
    ensures
        ({
            let m = s.expect;
            let b1 = spec_att_body(v1, ext, TOKEN_NORMAL, m, sid, Seq::empty());
            let b2 = spec_att_body(v2, ext, TOKEN_NORMAL, (m + 1) as usize, sid, Seq::empty());
            let (s1, r1) = att_recv(s, b2, now);
            let (s2, r2) = att_recv(s1, b1, now);
            let (s3, r3) = att_recv(s2, Seq::empty(), now);
            &&& r1 == Err::<Seq<u8>, USErr>(USErr::EmptyMsg)
            &&& r2 == Ok::<Seq<u8>, USErr>(v1)
            &&& r3 == Ok::<Seq<u8>, USErr>(v2)
            &&& s3.expect == m + 2
        }),
{
    let m = s.expect;
    lemma_att_unwarp_warp(v1, ext, TOKEN_NORMAL, m, sid, Seq::empty());
    lemma_att_unwarp_warp(v2, ext, TOKEN_NORMAL, (m + 1) as usize, sid, Seq::empty());
    let b2 = spec_att_body(v2, ext, TOKEN_NORMAL, (m + 1) as usize, sid, Seq::empty());
    let b1 = spec_att_body(v1, ext, TOKEN_NORMAL, m, sid, Seq::empty());
    let (s1, r1) = att_recv(s, b2, now);
    assert(r1 == Err::<Seq<u8>, USErr>(USErr::EmptyMsg));
    assert(s1.expect == m && s1.sid == s.sid);
    assert(s1.recv_cache.contains_key((m + 1) as usize));
    assert(s1.recv_cache[(m + 1) as usize] == (v2, ext, TOKEN_NORMAL, None::<Seq<u8>>));
    let (s2, r2) = att_recv(s1, b1, now);
    assert(r2 == Ok::<Seq<u8>, USErr>(v1));
    assert(s2.expect == m + 1);
    assert(s2.recv_cache == s1.recv_cache);
    let (s3, r3) = att_recv(s2, Seq::empty(), now);
    assert(r3 == Ok::<Seq<u8>, USErr>(v2));
}

} // verus!

verus! {

/// The handshake is sent again after the timeout: a session request (or answer)
/// unanswered for longer than the timeout is queued once more, with the counterpart's
/// id in front and under the same session id, stamped `now` with its count of sends
/// raised by one; before the timeout nothing changes; once the count has passed the
/// retry limit the handshake fails and nothing changes.
pub proof fn lemma_att_handshake_resent(s: AttView, now: u128)
    ensures
        s.sid matches SessionState::WaitResponse(v, t, times) ==> ({
            let (f, r) = att_retry_handshake(s, now);
            let frame = be_bytes(s.cpid as nat, usize_len()) + spec_att_frame(
                seq![CONTROL_BYTE],
                spec_ext_value(SpecialExt::SendSid),
                TOKEN_NORMAL,
                0,
                v,
                Seq::empty(),
            );
            &&& times > s.max_retry ==> f == s && r == Err::<(), USErr>(USErr::SendSessionFailed)
            &&& times <= s.max_retry && now >= t && now - t > s.timeout ==> r is Ok && f == (AttView {
                sent: s.sent.push((frame, s.send_ext)),
                sid: SessionState::WaitResponse(v, now, (times + 1) as u16),
                ..s
            })
            &&& times <= s.max_retry && !(now >= t && now - t > s.timeout) ==> f == s && r is Ok
        }),
        s.sid matches SessionState::WaitResponseCp(v, t, times) ==> ({
            let (f, r) = att_retry_handshake(s, now);
            let frame = be_bytes(s.cpid as nat, usize_len()) + spec_att_frame(
                seq![CONTROL_BYTE],
                spec_ext_value(SpecialExt::ResponseSendSid),
                TOKEN_NORMAL,
                0,
                v,
                Seq::empty(),
            );
            &&& times > s.max_retry ==> f == s && r == Err::<(), USErr>(USErr::SendSessionFailed)
            &&& times <= s.max_retry && now >= t && now - t > s.timeout ==> r is Ok && f == (AttView {
                sent: s.sent.push((frame, s.send_ext)),
                sid: SessionState::WaitResponseCp(v, now, (times + 1) as u16),
                ..s
            })
            &&& times <= s.max_retry && !(now >= t && now - t > s.timeout) ==> f == s && r is Ok
        }),
        !(s.sid is WaitResponse || s.sid is WaitResponseCp) ==> att_retry_handshake(s, now) == (s, Ok::<(), USErr>(())),
{
}

} // verus!

verus! {

/// How the attached sender's session moves on control messages: a counterpart's
/// error is reported as a failure and changes nothing; a settled session is left only
/// by a close request carrying its own id, which prepares the close and clears what
/// waits; a closed session stays closed; a session is settled only under the id the
/// message carries; and every answer carries that id or none (0).
pub proof fn lemma_att_session_laws(state: SessionState, code: SpecialExt, sid: u128, now: u128)
    ensures
        ({
            let st = att_session(state, code, sid, now);
            &&& (crate::udp_sender::session_error_code(code) || code is ErrBadRequest) ==> st.state == state
                && st.reply is None && st.outcome is Err
            &&& (state is Has && st.state != state) ==> code is ReqClose && sid == state->Has_0 && st.state
                == SessionState::PrepareClose(sid, now, 1) && st.clear
            &&& state is Closed ==> st.state == state
            &&& (st.state is Has && st.state != state) ==> st.state->Has_0 == sid
            &&& (st.state is Closed && st.state != state) ==> st.state->Closed_0 == sid
            &&& match st.reply {
                Some((_, x)) => x == sid || x == 0,
                None => true,
            }
        }),
{
}

} // verus!
