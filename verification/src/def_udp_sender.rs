//! The plain reliable UDP sender: a window of sent messages waiting for their
//! acknowledgement, resending on timeout, a session handshake, and in-order delivery.
//! Sending is recorded as datagrams queued for the socket.
use vstd::prelude::*;
use std::collections::HashMap;
use crate::bytes::TOKEN_NORMAL;
use crate::udp_sender::{CONTROL_BYTE, ControlStep, SessionState, SpecialExt, USErr, def_control, def_control_step, next_id, next_mid, spec_sid, spec_ext_value, spec_special_ext_of, spec_frame, spec_unwarp, spec_package_len, warp_ex, unwarp_ex};
use crate::udp_msg_split::{DefUdpMsgSplit, UdpSplitView, spec_push, spec_pop, pop_ok, split_work, now_nanos};
use crate::attched_udp_sender::random_session_id;
use crate::stream_parser::lemma_usize_width;

verus! {

broadcast use vstd::std_specs::hash::group_hash_axioms;

/// A sent message waiting for its acknowledgement: id, frame, last send time, sends.
pub type WindowEntry = (usize, Seq<u8>, u128, u16);

/// The state of a plain sender as plain values.
#[verifier::ext_equal]
pub struct DefView {
    pub sid: SessionState,
    /// The id of the last message framed.
    pub mid: usize,
    /// The id of the next message to deliver.
    pub expect: usize,
    /// Datagrams to put on the socket, oldest first.
    pub out: Seq<Seq<u8>>,
    /// Sent messages not yet acknowledged, oldest first.
    pub window: Seq<WindowEntry>,
    /// Framed messages waiting for room in the window.
    pub pending: Seq<(usize, Seq<u8>)>,
    /// Messages held back until a session is settled.
    pub no_sid: Seq<Seq<u8>>,
    pub recv_cache: Map<usize, (Seq<u8>, u32, u8)>,
    pub recv_queue: Seq<Seq<u8>>,
    pub error: Option<USErr>,
    pub split: UdpSplitView,
    pub cache_size: u16,
    pub min_cache: u16,
    pub max_cache: u16,
    pub max_len: u16,
    pub min_len: u16,
    pub timeout: u128,
    pub max_retry: u16,
}

/// `s` with the datagram `d` queued for the socket.
pub open spec fn def_send(s: DefView, d: Seq<u8>) -> DefView {
    DefView { out: s.out.push(d), ..s }
}

/// The frame of control message `code` for message `mid` of session `sid`.
pub open spec fn def_ctl(code: SpecialExt, mid: usize, sid: u128) -> Seq<u8> {
    spec_frame(seq![CONTROL_BYTE], spec_ext_value(code), TOKEN_NORMAL, mid, sid)
}

/// `s` with the control reply `r`, if any, queued.
pub open spec fn def_reply(s: DefView, r: Option<(SpecialExt, u128)>) -> DefView {
    match r {
        None => s,
        Some((c, x)) => def_send(s, def_ctl(c, 0, x)),
    }
}

/// Puts frame `d` of message `id` in the window at `now`, or behind it when the
/// window is exactly full.
pub open spec fn def_push_cache(s: DefView, id: usize, d: Seq<u8>, now: u128) -> (DefView, Result<(), USErr>) {
    if s.window.len() == s.cache_size {
        (DefView { pending: s.pending.push((id, d)), ..s }, Err(USErr::MsgCacheOverflow))
    } else {
        (DefView { window: s.window.push((id, d, now, 1u16)), ..s }, Ok(()))
    }
}

/// Frames `v` as the next message of the session and puts it in the window.
pub open spec fn def_warp(s: DefView, v: Seq<u8>, ext: u32, tag: u8, now: u128) -> (DefView, Result<Seq<u8>, USErr>) {
    match spec_sid(s.sid) {
        None => (s, Err(USErr::NoSession)),
        Some(x) => {
            let mid = next_id(s.mid);
            let d = spec_frame(v, ext, tag, mid, x);
            let (s1, r) = def_push_cache(DefView { mid, ..s }, mid, d, now);
            match r {
                Ok(_) => (s1, Ok(d)),
                Err(e) => (s1, Err(e)),
            }
        },
    }
}

/// Sends `v` within a settled session: a long message goes to the splitter, another
/// is framed, put in the window and sent (or left behind a full window).
pub open spec fn def_send_in_session(s: DefView, v: Seq<u8>, now: u128) -> DefView {
    if v.len() > s.split.unit || s.split.queue.len() > 0 {
        DefView { split: spec_push(s.split, v), ..s }
    } else {
        let (s1, r) = def_warp(s, v, 0, TOKEN_NORMAL, now);
        match r {
            Ok(d) => def_send(s1, d),
            Err(_) => s1,
        }
    }
}

/// Sends the messages held back for want of a session, oldest first.
pub open spec fn def_flush(s: DefView, now: u128) -> DefView
    decreases s.no_sid.len(),
{
    if s.no_sid.len() == 0 {
        s
    } else {
        let v = s.no_sid[0];
        let s1 = DefView { no_sid: s.no_sid.drop_first(), ..s };
        let s2 = def_send_in_session(s1, v, now);
        if s2.no_sid.len() < s.no_sid.len() {
            def_flush(s2, now)
        } else {
            s2
        }
    }
}

/// The index of the first window entry of message `id` from index `k` on.
pub open spec fn find_from(w: Seq<WindowEntry>, id: usize, k: int) -> Option<int>
    decreases w.len() - k,
{
    if k < 0 || k >= w.len() {
        None
    } else if w[k].0 == id {
        Some(k)
    } else {
        find_from(w, id, k + 1)
    }
}

/// Moves framed messages from behind the window into it while it has room, sending
/// each, at `now`.
pub open spec fn def_refill(s: DefView, now: u128) -> DefView
    decreases s.pending.len(),
{
    if s.window.len() < s.cache_size && s.pending.len() > 0 {
        let (id, d) = s.pending[0];
        def_refill(
            DefView {
                pending: s.pending.drop_first(),
                window: s.window.push((id, d, now, 1u16)),
                out: s.out.push(d),
                ..s
            },
            now,
        )
    } else {
        s
    }
}

/// The acknowledgement of message `id`: its entry leaves the window, and messages
/// waiting behind the window move in.
pub open spec fn def_ack(s: DefView, id: usize, now: u128) -> DefView {
    match find_from(s.window, id, 0) {
        None => s,
        Some(i) => def_refill(DefView { window: s.window.remove(i), ..s }, now),
    }
}

/// What handling a received message as a possible control message does, and its
/// outcome: `Ok(true)` when consumed, `Ok(false)` when it is an ordinary message.
pub open spec fn def_check_send_recv(s: DefView, msg: Seq<u8>, ext: u32, tag: u8, id: usize, sid: u128, now: u128) -> (
    DefView,
    Result<bool, USErr>,
) {
    if !(msg.len() == 1 && msg[0] == CONTROL_BYTE && tag == TOKEN_NORMAL) {
        (s, Ok(false))
    } else {
        let code = spec_special_ext_of(ext)->0;
        if code is SendRecv {
            (def_ack(s, id, now), Ok(true))
        } else {
            let st = def_control(s.sid, code, sid, now);
            let s1 = def_reply(DefView { sid: st.state, ..s }, st.reply);
            (
                if st.flush {
                    def_flush(s1, now)
                } else {
                    s1
                },
                st.outcome,
            )
        }
    }
}

/// What receiving the frame body `data` at `now` does, and the message it delivers;
/// an empty `data` delivers the held message that is next in order, if any.
pub open spec fn def_recv(s: DefView, data: Seq<u8>, now: u128) -> (DefView, Result<Seq<u8>, USErr>) {
    if data.len() == 0 {
        if s.recv_cache.contains_key(s.expect) {
            let e = s.recv_cache[s.expect];
            let s1 = DefView { recv_cache: s.recv_cache.remove(s.expect), expect: next_id(s.expect), ..s };
            def_deliver(s1, e.0, e.2)
        } else {
            (s, Err(USErr::EmptyMsg))
        }
    } else {
        let (msg, id0, ext0, tag, sid0) = spec_unwarp(data);
        let id = id0 as usize;
        let ext = ext0 as u32;
        let sid = sid0 as u128;
        let (s1, c) = def_check_send_recv(s, msg, ext, tag, id, sid, now);
        match c {
            Err(e) => (s1, Err(e)),
            Ok(true) => (s1, Err(USErr::EmptyMsg)),
            Ok(false) => if s1.sid is Closed {
                (def_send(s1, def_ctl(SpecialExt::ErrAlreadyClosed, 0, 0)), Err(USErr::EmptyMsg))
            } else {
                match spec_sid(s1.sid) {
                    None => (def_send(s1, def_ctl(SpecialExt::ErrNoSession, 0, 0)), Err(USErr::EmptyMsg)),
                    Some(x) => if x != sid {
                        (def_send(s1, def_ctl(SpecialExt::ErrBadSession, 0, 0)), Err(USErr::EmptyMsg))
                    } else {
                        let ack = def_ctl(SpecialExt::SendRecv, id, x);
                        let s2 = def_send(def_send(s1, ack), ack);
                        if id == s2.expect {
                            def_deliver(DefView { expect: next_id(id), ..s2 }, msg, tag)
                        } else if id > s2.expect {
                            (
                                DefView { recv_cache: s2.recv_cache.insert(id, (msg, ext, tag)), ..s2 },
                                Err(USErr::EmptyMsg),
                            )
                        } else {
                            (s2, Err(USErr::EmptyMsg))
                        }
                    },
                }
            },
        }
    }
}

/// The message delivered for payload `msg` with tag `tag`: a slice of a split
/// message, which this frame carries without the sub-header merging needs, is dropped.
pub open spec fn def_deliver(s: DefView, msg: Seq<u8>, tag: u8) -> (DefView, Result<Seq<u8>, USErr>) {
    if crate::bytes::TOKEN_SUBPACKAGE_BEGIN <= tag <= crate::bytes::TOKEN_SUBPACKAGE_END {
        (s, Err(USErr::EmptyMsg))
    } else {
        (s, Ok(msg))
    }
}

/// The frame body `data` is one that receiving handles: long enough, and a control
/// message names a known code.
pub open spec fn def_recv_ok(data: Seq<u8>) -> bool {
    data.len() > 0 ==> data.len() >= spec_package_len() && {
        let (msg, id, ext, tag, sid) = spec_unwarp(data);
        msg.len() == 1 && msg[0] == CONTROL_BYTE && tag == TOKEN_NORMAL ==> spec_special_ext_of(ext as u32) is Some
    }
}

/// What `check_recv` does: a stored error is returned again; otherwise the frame is
/// received, a delivered message is queued, and an error other than "empty" is
/// stored and returned.
pub open spec fn def_check_recv(s: DefView, data: Seq<u8>, now: u128) -> (DefView, Result<(), USErr>) {
    match s.error {
        Some(e) => (s, Err(e)),
        None => {
            let (s1, r) = def_recv(s, data, now);
            match r {
                Ok(m) => (DefView { recv_queue: s1.recv_queue.push(m), ..s1 }, Ok(())),
                Err(USErr::EmptyMsg) => (s1, Ok(())),
                Err(e) => (DefView { error: Some(e), ..s1 }, Err(e)),
            }
        },
    }
}

/// What sending `v` does, with `fresh` the id a new session would get and `now` the time.
pub open spec fn def_send_msg(s: DefView, v: Seq<u8>, fresh: u128, now: u128) -> (DefView, Result<(), USErr>) {
    match s.sid {
        SessionState::Null => {
            let s1 = DefView {
                no_sid: s.no_sid.push(v),
                sid: SessionState::WaitResponse(fresh, now, 1),
                ..s
            };
            (def_send(s1, def_ctl(SpecialExt::SendSid, 0, fresh)), Ok(()))
        },
        SessionState::WaitResponse(_, _, _) => (DefView { no_sid: s.no_sid.push(v), ..s }, Ok(())),
        SessionState::Closed(_) => (s, Err(USErr::AlreadyClosed)),
        SessionState::PrepareClose(_, _, _) => (s, Err(USErr::AlreadyClosed)),
        SessionState::ReqClose(_, _, _) => (s, Err(USErr::AlreadyClosed)),
        _ => (def_send_in_session(s, v, now), Ok(())),
    }
}

} // verus!

verus! {

/// The plain reliable sender. Datagrams it sends are queued in `out`, for the
/// socket to take.
pub struct DefUdpSender {
    max_len: u16,
    min_len: u16,
    cache_size: u16,
    min_cache_size: u16,
    max_cache_size: u16,
    mid: usize,
    window: Vec<(usize, Vec<u8>, u128, u16)>,
    recv_cache: HashMap<usize, (Vec<u8>, u32, u8)>,
    expect_id: usize,
    timeout: u128,
    msg_split: DefUdpMsgSplit,
    max_retry_times: u16,
    msg_cache_queue: Vec<(usize, Vec<u8>)>,
    recv_queue: Vec<Vec<u8>>,
    error: Option<USErr>,
    sid: SessionState,
    msg_cache_on_no_sid: Vec<Vec<u8>>,
    out: Vec<Vec<u8>>,
}

impl View for DefUdpSender {
    type V = DefView;

    closed spec fn view(&self) -> DefView {
        DefView {
            sid: self.sid,
            mid: self.mid,
            expect: self.expect_id,
            out: Seq::new(self.out@.len(), |i: int| self.out@[i]@),
            window: Seq::new(
                self.window@.len(),
                |i: int| (self.window@[i].0, self.window@[i].1@, self.window@[i].2, self.window@[i].3),
            ),
            pending: Seq::new(self.msg_cache_queue@.len(), |i: int| (self.msg_cache_queue@[i].0, self.msg_cache_queue@[i].1@)),
            no_sid: Seq::new(self.msg_cache_on_no_sid@.len(), |i: int| self.msg_cache_on_no_sid@[i]@),
            recv_cache: Map::new(
                |k: usize| self.recv_cache@.contains_key(k),
                |k: usize| (self.recv_cache@[k].0@, self.recv_cache@[k].1, self.recv_cache@[k].2),
            ),
            recv_queue: Seq::new(self.recv_queue@.len(), |i: int| self.recv_queue@[i]@),
            error: self.error,
            split: self.msg_split@,
            cache_size: self.cache_size,
            min_cache: self.min_cache_size,
            max_cache: self.max_cache_size,
            max_len: self.max_len,
            min_len: self.min_len,
            timeout: self.timeout,
            max_retry: self.max_retry_times,
        }
    }
}

/// Every message held back for want of a session is non-empty.
pub open spec fn held_nonempty(s: DefView) -> bool {
    forall|i: int| 0 <= i < s.no_sid.len() ==> #[trigger] s.no_sid[i].len() > 0
}

/// The splitter has room for every held-back message and one more.
pub open spec fn def_room(s: DefView) -> bool {
    s.split.queue.len() + s.no_sid.len() + 1 < u32::MAX
}

impl DefUdpSender {
    /// The internal invariant: the splitter is well formed, no stored error wraps an
    /// I/O error, and held-back messages are non-empty.
    pub closed spec fn wf(&self) -> bool {
        &&& self.msg_split.wf()
        &&& !(self.error matches Some(USErr::Warp(_)))
        &&& held_nonempty(self@)
    }

    proof fn lemma_frame(a: &Self, b: &Self)
        requires
            a.out@ == b.out@,
            a.window@ == b.window@,
            a.msg_cache_queue@ == b.msg_cache_queue@,
            a.msg_cache_on_no_sid@ == b.msg_cache_on_no_sid@,
            a.recv_cache@ == b.recv_cache@,
            a.recv_queue@ == b.recv_queue@,
        ensures
            a@.out == b@.out,
            a@.window == b@.window,
            a@.pending == b@.pending,
            a@.no_sid == b@.no_sid,
            a@.recv_cache == b@.recv_cache,
            a@.recv_queue == b@.recv_queue,
    {
        assert(a@.out =~= b@.out);
        assert(a@.window =~= b@.window);
        assert(a@.pending =~= b@.pending);
        assert(a@.no_sid =~= b@.no_sid);
        assert(a@.recv_cache =~= b@.recv_cache);
        assert(a@.recv_queue =~= b@.recv_queue);
    }

    /// A sender with no session yet: a window of one message growing up to 50,
    /// messages up to a datagram long, a timeout of 0.4 seconds and 50 retries.
    pub fn create() -> (r: DefUdpSender)
        ensures
            r.wf(),
            r@.sid == SessionState::Null,
            r@.mid == 0,
            r@.expect == 1,
            r@.out.len() == 0,
            r@.window.len() == 0,
            r@.pending.len() == 0,
            r@.no_sid.len() == 0,
            r@.recv_cache == Map::<usize, (Seq<u8>, u32, u8)>::empty(),
            r@.recv_queue.len() == 0,
            r@.error is None,
            r@.cache_size == 1,
            r@.min_cache == 3,
            r@.max_cache == 50,
            r@.max_len == 65500 - spec_package_len(),
            r@.min_len == 1500 - spec_package_len(),
            r@.timeout == 400_000_000,
            r@.max_retry == 50,
            r@.split.max_unit == 65500 - spec_package_len(),
            r@.split.min_unit == 1500 - spec_package_len(),
            r@.split.unit == (65500 - spec_package_len() + 1500 - spec_package_len()) / 2,
            r@.split.queue.len() == 0,
            r@.split.curr is None,
    {
        proof {
            lemma_usize_width();
        }
        let max_len = 65500 - crate::udp_sender::package_len();
        let min_len = 1500 - crate::udp_sender::package_len();
        let r = DefUdpSender {
            max_len: max_len as u16,
            min_len: min_len as u16,
            cache_size: 1,
            min_cache_size: 3,
            max_cache_size: 50,
            mid: 0,
            window: Vec::new(),
            recv_cache: HashMap::new(),
            expect_id: 1,
            timeout: 400_000_000,
            msg_split: DefUdpMsgSplit::with_max_unit_size(max_len, min_len),
            max_retry_times: 50,
            msg_cache_queue: Vec::new(),
            recv_queue: Vec::new(),
            error: None,
            sid: SessionState::Null,
            msg_cache_on_no_sid: Vec::new(),
            out: Vec::new(),
        };
        assert(r@.recv_cache =~= Map::<usize, (Seq<u8>, u32, u8)>::empty());
        r
    }

    /// Queues datagram `d` for the socket.
    fn send(&mut self, d: Vec<u8>)
        requires
            old(self).wf(),
        ensures
            final(self).wf(),
            final(self)@ == def_send(old(self)@, d@),
    {
        let ghost s0 = self@;
        self.out.push(d);
        proof {
            assert(self@.out =~= s0.out.push(d@));
            assert(self@.window =~= s0.window);
            assert(self@.pending =~= s0.pending);
            assert(self@.no_sid =~= s0.no_sid);
            assert(self@.recv_cache =~= s0.recv_cache);
            assert(self@.recv_queue =~= s0.recv_queue);
        }
    }

    fn send_ctl(&mut self, code: SpecialExt, mid: usize, sid: u128)
        requires
            old(self).wf(),
        ensures
            final(self).wf(),
            final(self)@ == def_send(old(self)@, def_ctl(code, mid, sid)),
    {
        let f = warp_ex(&[CONTROL_BYTE], code.to_u32(), TOKEN_NORMAL, mid, sid);
        proof {
            assert(seq![CONTROL_BYTE] =~= [CONTROL_BYTE]@);
        }
        self.send(f);
    }

    fn reply(&mut self, r: Option<(SpecialExt, u128)>)
        requires
            old(self).wf(),
        ensures
            final(self).wf(),
            final(self)@ == def_reply(old(self)@, r),
    {
        match r {
            Some((c, x)) => self.send_ctl(c, 0, x),
            None => {},
        }
    }

    /// Puts frame `d` of message `id` in the window at `now` (see `def_push_cache`).
    fn push_cache(&mut self, id: usize, d: Vec<u8>, now: u128) -> (r: Result<(), USErr>)
        requires
            old(self).wf(),
        ensures
            final(self).wf(),
            (final(self)@, r) == def_push_cache(old(self)@, id, d@, now),
    {
        let ghost s0 = self@;
        if self.window.len() == self.cache_size as usize {
            self.msg_cache_queue.push((id, d));
            proof {
                assert(self@.pending =~= s0.pending.push((id, d@)));
                assert(self@.out =~= s0.out);
                assert(self@.window =~= s0.window);
                assert(self@.no_sid =~= s0.no_sid);
                assert(self@.recv_cache =~= s0.recv_cache);
                assert(self@.recv_queue =~= s0.recv_queue);
            }
            return Err(USErr::MsgCacheOverflow);
        }
        self.window.push((id, d, now, 1));
        proof {
            assert(self@.window =~= s0.window.push((id, d@, now, 1u16)));
            assert(self@.out =~= s0.out);
            assert(self@.pending =~= s0.pending);
            assert(self@.no_sid =~= s0.no_sid);
            assert(self@.recv_cache =~= s0.recv_cache);
            assert(self@.recv_queue =~= s0.recv_queue);
        }
        Ok(())
    }

    /// Frames `v` as the next message and puts it in the window (see `def_warp`).
    fn warp(&mut self, v: &[u8], ext: u32, tag: u8, now: u128) -> (r: Result<Vec<u8>, USErr>)
        requires
            old(self).wf(),
            v@.len() > 0,
        ensures
            final(self).wf(),
            final(self)@ == def_warp(old(self)@, v@, ext, tag, now).0,
            match def_warp(old(self)@, v@, ext, tag, now).1 {
                Ok(d) => r matches Ok(x) && x@ == d,
                Err(e) => r == Err::<Vec<u8>, USErr>(e),
            },
    {
        let x = match self.sid.get_sid() {
            None => {
                return Err(USErr::NoSession);
            },
            Some(x) => x,
        };
        let mid = next_mid(self.mid);
        self.mid = mid;
        proof {
            Self::lemma_frame(old(self), self);
        }
        let d = warp_ex(v, ext, tag, mid, x);
        let c = d.clone();
        match self.push_cache(mid, c, now) {
            Ok(_) => Ok(d),
            Err(e) => Err(e),
        }
    }

    /// Sends `v` within a settled session (see `def_send_in_session`).
    fn send_in_session(&mut self, v: Vec<u8>, now: u128)
        requires
            old(self).wf(),
            v@.len() > 0,
            old(self)@.split.queue.len() + 1 < u32::MAX,
        ensures
            final(self).wf(),
            final(self)@ == def_send_in_session(old(self)@, v@, now),
            final(self)@.split.queue.len() <= old(self)@.split.queue.len() + 1,
    {
        if self.msg_split.need_split(v.len()) {
            proof {
                self.msg_split.lemma_check_wait_shrinks();
            }
            self.msg_split.push_msg(v);
            proof {
                Self::lemma_frame(old(self), self);
            }
        } else {
            match self.warp(v.as_slice(), 0, TOKEN_NORMAL, now) {
                Ok(d) => self.send(d),
                Err(_) => {},
            }
        }
    }

    /// Sends the messages held back for want of a session (see `def_flush`).
    fn flush(&mut self, now: u128)
        requires
            old(self).wf(),
            def_room(old(self)@),
        ensures
            final(self).wf(),
            final(self)@ == def_flush(old(self)@, now),
    {
        while self.msg_cache_on_no_sid.len() > 0
            invariant
                self.wf(),
                def_room(self@),
                def_flush(self@, now) == def_flush(old(self)@, now),
            decreases self.msg_cache_on_no_sid@.len(),
        {
            let ghost s0 = self@;
            let v = self.msg_cache_on_no_sid.remove(0);
            proof {
                assert(self@.no_sid =~= s0.no_sid.drop_first());
                assert(v@ == s0.no_sid[0]);
                Self::lemma_frame(self, self);
                assert(self@.out =~= s0.out);
                assert(self@.window =~= s0.window);
                assert(self@.pending =~= s0.pending);
                assert(self@.recv_cache =~= s0.recv_cache);
                assert(self@.recv_queue =~= s0.recv_queue);
                assert(self@ == DefView { no_sid: s0.no_sid.drop_first(), ..s0 });
                assert(held_nonempty(self@)) by {
                    assert forall|i: int| 0 <= i < self@.no_sid.len() implies #[trigger] self@.no_sid[i].len() > 0 by {
                        assert(self@.no_sid[i] == s0.no_sid[i + 1]);
                    }
                }
            }
            self.send_in_session(v, now);
        }
        proof {
            assert(self@.no_sid.len() == 0);
        }
    }
}

} // verus!

verus! {

/// `d` is a frame body whose control message, if it is one, is of the handshake kind
/// that may start the sending of held-back messages.
pub open spec fn def_recv_room(s: DefView) -> bool {
    def_room(s)
}

impl DefUdpSender {
    /// Moves framed messages from behind the window into it (see `def_refill`).
    fn check_msg_cache_queue(&mut self, now: u128)
        requires
            old(self).wf(),
        ensures
            final(self).wf(),
            final(self)@ == def_refill(old(self)@, now),
    {
        while self.window.len() < self.cache_size as usize && self.msg_cache_queue.len() > 0
            invariant
                self.wf(),
                def_refill(self@, now) == def_refill(old(self)@, now),
            decreases self.msg_cache_queue@.len(),
        {
            let ghost s0 = self@;
            let (id, v) = self.msg_cache_queue.remove(0);
            let c = v.clone();
            self.window.push((id, v, now, 1));
            self.out.push(c);
            proof {
                assert(self@.pending =~= s0.pending.drop_first());
                assert(self@.window =~= s0.window.push((id, s0.pending[0].1, now, 1u16)));
                assert(self@.out =~= s0.out.push(s0.pending[0].1));
                assert(self@.no_sid =~= s0.no_sid);
                assert(self@.recv_cache =~= s0.recv_cache);
                assert(self@.recv_queue =~= s0.recv_queue);
            }
        }
    }

    /// The acknowledgement of message `mid` (see `def_ack`).
    fn remove_cache(&mut self, mid: usize, now: u128)
        requires
            old(self).wf(),
        ensures
            final(self).wf(),
            final(self)@ == def_ack(old(self)@, mid, now),
    {
        let mut i: usize = 0;
        while i < self.window.len()
            invariant
                self.wf(),
                i <= self.window@.len(),
                self@ == old(self)@,
                find_from(self@.window, mid, 0) == find_from(self@.window, mid, i as int),
            decreases self.window@.len() - i,
        {
            if self.window[i].0 == mid {
                let ghost s0 = self@;
                self.window.remove(i);
                proof {
                    assert(self@.window =~= s0.window.remove(i as int));
                    Self::lemma_frame(self, self);
                    assert(self@.out =~= s0.out);
                    assert(self@.pending =~= s0.pending);
                    assert(self@.no_sid =~= s0.no_sid);
                    assert(self@.recv_cache =~= s0.recv_cache);
                    assert(self@.recv_queue =~= s0.recv_queue);
                }
                self.check_msg_cache_queue(now);
                return;
            }
            i = i + 1;
        }
    }

    /// Handles `msg` as a possible control message of the counterpart (see
    /// `def_check_send_recv`).
    fn check_send_recv(&mut self, msg: &[u8], ext: u32, tag: u8, id: usize, sid: u128, now: u128) -> (r: Result<bool, USErr>)
        requires
            old(self).wf(),
            def_room(old(self)@),
            msg@.len() == 1 && msg@[0] == CONTROL_BYTE && tag == TOKEN_NORMAL ==> spec_special_ext_of(ext) is Some,
        ensures
            final(self).wf(),
            (final(self)@, r) == def_check_send_recv(old(self)@, msg@, ext, tag, id, sid, now),
    {
        if msg.len() == 1 && msg[0] == CONTROL_BYTE && tag == TOKEN_NORMAL {
            let code = match SpecialExt::try_from_u32(ext) {
                Some(c) => c,
                None => {
                    return Ok(false);
                },
            };
            match code {
                SpecialExt::SendRecv => {
                    self.remove_cache(id, now);
                    Ok(true)
                },
                _ => {
                    let st = def_control_step(self.sid, code, sid, now);
                    let ControlStep { state, reply, outcome, flush, clear: _ } = st;
                    self.sid = state;
                    proof {
                        Self::lemma_frame(old(self), self);
                    }
                    self.reply(reply);
                    if flush {
                        self.flush(now);
                    }
                    outcome
                },
            }
        } else {
            Ok(false)
        }
    }

    /// Receives the frame body `data` (an empty one delivers the held message next in
    /// order) and returns the message it completes (see `def_recv`).
    fn unwarp(&mut self, data: &[u8], now: u128) -> (r: Result<Vec<u8>, USErr>)
        requires
            old(self).wf(),
            data@.len() > 0 ==> def_room(old(self)@),
            def_recv_ok(data@),
        ensures
            final(self).wf(),
            final(self)@ == def_recv(old(self)@, data@, now).0,
            match def_recv(old(self)@, data@, now).1 {
                Ok(m) => r matches Ok(x) && x@ == m,
                Err(e) => r == Err::<Vec<u8>, USErr>(e),
            },
    {
        if data.len() == 0 {
            let ghost s0 = self@;
            let expect = self.expect_id;
            match self.recv_cache.remove(&expect) {
                None => {
                    proof {
                        assert(self@.recv_cache =~= s0.recv_cache);
                        assert(self@.out =~= s0.out);
                        assert(self@.window =~= s0.window);
                        assert(self@.pending =~= s0.pending);
                        assert(self@.no_sid =~= s0.no_sid);
                        assert(self@.recv_queue =~= s0.recv_queue);
                        assert(self@ =~= s0);
                    }
                    Err(USErr::EmptyMsg)
                },
                Some(e) => {
                    self.expect_id = next_mid(expect);
                    let (m, _ext, tag) = e;
                    proof {
                        assert(self@.recv_cache =~= s0.recv_cache.remove(expect));
                        assert(self@.out =~= s0.out);
                        assert(self@.window =~= s0.window);
                        assert(self@.pending =~= s0.pending);
                        assert(self@.no_sid =~= s0.no_sid);
                        assert(self@.recv_queue =~= s0.recv_queue);
                    }
                    if self.msg_split.need_merge(tag) {
                        Err(USErr::EmptyMsg)
                    } else {
                        Ok(m)
                    }
                },
            }
        } else {
            let (msg, id, ext, tag, sid) = unwarp_ex(data);
            let c = self.check_send_recv(msg.as_slice(), ext, tag, id, sid, now);
            match c {
                Err(e) => {
                    return Err(e);
                },
                Ok(true) => {
                    return Err(USErr::EmptyMsg);
                },
                Ok(false) => {},
            }
            if self.sid.is_close() {
                self.send_ctl(SpecialExt::ErrAlreadyClosed, 0, 0);
                return Err(USErr::EmptyMsg);
            }
            let x = match self.sid.get_sid() {
                None => {
                    self.send_ctl(SpecialExt::ErrNoSession, 0, 0);
                    return Err(USErr::EmptyMsg);
                },
                Some(x) => x,
            };
            if x != sid {
                self.send_ctl(SpecialExt::ErrBadSession, 0, 0);
                return Err(USErr::EmptyMsg);
            }
            self.send_ctl(SpecialExt::SendRecv, id, x);
            self.send_ctl(SpecialExt::SendRecv, id, x);
            if id == self.expect_id {
                self.expect_id = next_mid(id);
                proof {
                    Self::lemma_frame(self, self);
                }
                if self.msg_split.need_merge(tag) {
                    Err(USErr::EmptyMsg)
                } else {
                    Ok(msg)
                }
            } else if id > self.expect_id {
                let ghost s2 = self@;
                self.recv_cache.insert(id, (msg, ext, tag));
                proof {
                    assert(self@.recv_cache =~= s2.recv_cache.insert(id, (self.recv_cache@[id].0@, ext, tag)));
                    assert(self@.out =~= s2.out);
                    assert(self@.window =~= s2.window);
                    assert(self@.pending =~= s2.pending);
                    assert(self@.no_sid =~= s2.no_sid);
                    assert(self@.recv_queue =~= s2.recv_queue);
                }
                Err(USErr::EmptyMsg)
            } else {
                Err(USErr::EmptyMsg)
            }
        }
    }
}

} // verus!

verus! {

/// Handshake resending at `now` (as for the attached sender, with plain frames).
pub open spec fn def_retry(s: DefView, now: u128) -> (DefView, Result<(), USErr>) {
    match s.sid {
        SessionState::WaitResponse(v, t, times) => if times > s.max_retry {
            (s, Err(USErr::SendSessionFailed))
        } else if now >= t && now - t > s.timeout {
            (
                def_send(
                    DefView { sid: SessionState::WaitResponse(v, now, (times + 1) as u16), ..s },
                    def_ctl(SpecialExt::SendSid, 0, v),
                ),
                Ok(()),
            )
        } else {
            (s, Ok(()))
        },
        SessionState::WaitResponseCp(v, t, times) => if times > s.max_retry {
            (s, Err(USErr::SendSessionFailed))
        } else if now >= t && now - t > s.timeout {
            (
                def_send(
                    DefView { sid: SessionState::WaitResponseCp(v, now, (times + 1) as u16), ..s },
                    def_ctl(SpecialExt::ResponseSendSid, 0, v),
                ),
                Ok(()),
            )
        } else {
            (s, Ok(()))
        },
        _ => (s, Ok(())),
    }
}

/// The number of window entries the resend scan looks at.
pub open spec fn scan_len(s: DefView) -> int {
    if s.window.len() < s.cache_size {
        s.window.len() as int
    } else {
        s.cache_size as int
    }
}

/// The sends counted by the window entries from `k` to `n`.
pub open spec fn window_sum(w: Seq<WindowEntry>, k: int, n: int) -> int
    decreases n - k,
{
    if k >= n || k < 0 || n > w.len() {
        0
    } else {
        w[k].3 + window_sum(w, k + 1, n)
    }
}

/// The resend scan from entry `k`, with `sum` the sends counted so far: an entry past
/// the retry limit fails the scan; an entry unanswered within the timeout is sent
/// again and counted once more. On success it gives the sends counted and the number
/// of entries looked at.
pub open spec fn def_scan(s: DefView, now: u128, k: int, sum: int) -> (DefView, Result<(int, int), USErr>)
    decreases scan_len(s) - k,
{
    if k < 0 || k >= scan_len(s) {
        (s, Ok((sum, k)))
    } else {
        let e = s.window[k];
        if e.3 > s.max_retry {
            (s, Err(USErr::RetryTimesLimit))
        } else if now >= e.2 && now - e.2 > s.timeout {
            def_scan(
                DefView { window: s.window.update(k, (e.0, e.1, now, (e.3 + 1) as u16)), out: s.out.push(e.1), ..s },
                now,
                k + 1,
                sum + e.3,
            )
        } else {
            def_scan(s, now, k + 1, sum + e.3)
        }
    }
}

/// The scan's counters stay in range: the sends it adds up fit in 16 bits, and a
/// counter it raises is below the top.
pub open spec fn scan_fits(s: DefView) -> bool {
    &&& window_sum(s.window, 0, scan_len(s)) <= u16::MAX
    &&& forall|k: int| 0 <= k < scan_len(s) ==> (#[trigger] s.window[k]).3 <= s.max_retry ==> s.window[k].3 < u16::MAX
}

/// Slices are cut while the window has room and nothing waits behind it.
pub open spec fn def_active(s: DefView) -> bool {
    s.window.len() < s.cache_size && s.pending.len() == 0 && s.split.curr is Some && s.split.queue.len() > 0
        && pop_ok(s.split)
}

/// One draining step: cut the next slice and, unless it is empty, frame it, put it in
/// the window and send it.
pub open spec fn def_drain_step(s: DefView, now: u128) -> (DefView, Result<(), USErr>) {
    let (sp, sl) = spec_pop(s.split, now);
    let s1 = DefView { split: sp, ..s };
    match sl {
        None => (s1, Ok(())),
        Some((bytes, ext, tag, _)) => if bytes.len() == 0 {
            (s1, Ok(()))
        } else {
            let (s2, r) = def_warp(s1, bytes, ext, tag, now);
            match r {
                Ok(d) => (def_send(s2, d), Ok(())),
                Err(USErr::MsgCacheOverflow) => (s2, Ok(())),
                Err(e) => (s2, Err(e)),
            }
        },
    }
}

/// At most `n` draining steps from `s`, stopping at an error or when inactive.
pub open spec fn def_drain(s: DefView, now: u128, n: nat) -> (DefView, Result<(), USErr>)
    decreases n,
{
    if n == 0 || !def_active(s) {
        (s, Ok(()))
    } else {
        let (s1, r) = def_drain_step(s, now);
        match r {
            Err(e) => (s1, Err(e)),
            Ok(_) => def_drain(s1, now, (n - 1) as nat),
        }
    }
}

proof fn lemma_def_drain_last(s: DefView, now: u128, n: nat)
    ensures
        def_drain(s, now, n + 1) == ({
            let (t, r) = def_drain(s, now, n);
            if r is Err || !def_active(t) {
                (t, r)
            } else {
                def_drain_step(t, now)
            }
        }),
    decreases n,
{
    if def_active(s) {
        let (s1, r) = def_drain_step(s, now);
        if r is Ok {
            if n > 0 {
                lemma_def_drain_last(s1, now, (n - 1) as nat);
            } else {
                assert(def_drain(s1, now, 0) == (s1, Ok::<(), USErr>(())));
            }
        }
    }
}

/// What `check_send` does at `now`, with `f` the state after it and `r` its result: a
/// stored error is returned again; otherwise handshake messages are resent, the
/// window is scanned for messages to send again, and waiting slices are sent while
/// the window has room. On success it gives the sends counted by the scan and the
/// number of entries it looked at.
pub open spec fn def_check_send(s: DefView, now: u128, f: DefView, r: Result<(u16, u16), USErr>) -> bool {
    match s.error {
        Some(e) => f == s && r == Err::<(u16, u16), USErr>(e),
        None => {
            let (s1, r1) = def_retry(s, now);
            match r1 {
                Err(e) => f == s1 && r == Err::<(u16, u16), USErr>(e),
                Ok(_) => {
                    let (s2, r2) = def_scan(s1, now, 0, 0);
                    match r2 {
                        Err(e) => f == s2 && r == Err::<(u16, u16), USErr>(e),
                        Ok((sum, l)) => exists|n: nat|
                            {
                                let (t, r3) = #[trigger] def_drain(s2, now, n);
                                &&& f == t
                                &&& match r3 {
                                    Err(e) => r == Err::<(u16, u16), USErr>(e),
                                    Ok(_) => !def_active(t) && r == Ok::<(u16, u16), USErr>((sum as u16, l as u16)),
                                }
                            },
                    }
                },
            }
        },
    }
}

/// The handshake counter can be raised without passing its top.
pub open spec fn def_retry_fits(s: DefView) -> bool {
    match s.sid {
        SessionState::WaitResponse(_, _, t) => t <= s.max_retry ==> t < u16::MAX,
        SessionState::WaitResponseCp(_, _, t) => t <= s.max_retry ==> t < u16::MAX,
        _ => true,
    }
}

} // verus!

verus! {

proof fn lemma_window_sum_step(w: Seq<WindowEntry>, k: int, n: int)
    requires
        0 <= k < n <= w.len(),
    ensures
        window_sum(w, k, n) == w[k].3 + window_sum(w, k + 1, n),
        window_sum(w, k + 1, n) >= 0,
{
    lemma_window_sum_nonneg(w, k + 1, n);
}

proof fn lemma_window_sum_nonneg(w: Seq<WindowEntry>, k: int, n: int)
    ensures
        window_sum(w, k, n) >= 0,
    decreases n - k,
{
    if !(k >= n || k < 0 || n > w.len()) {
        lemma_window_sum_nonneg(w, k + 1, n);
    }
}

proof fn lemma_window_sum_update(w: Seq<WindowEntry>, j: int, x: WindowEntry, k: int, n: int)
    requires
        0 <= j < k,
        n <= w.len(),
    ensures
        window_sum(w.update(j, x), k, n) == window_sum(w, k, n),
    decreases n - k,
{
    if !(k >= n || k < 0 || n > w.len()) {
        lemma_window_sum_update(w, j, x, k + 1, n);
    }
}

impl DefUdpSender {
    /// The resend scan of the window (see `def_scan`).
    fn scan(&mut self, now: u128) -> (r: Result<(u16, u16), USErr>)
        requires
            old(self).wf(),
            scan_fits(old(self)@),
        ensures
            final(self).wf(),
            final(self)@ == def_scan(old(self)@, now, 0, 0).0,
            final(self)@.split == old(self)@.split,
            final(self)@.sid == old(self)@.sid,
            match def_scan(old(self)@, now, 0, 0).1 {
                Ok((sum, l)) => r matches Ok((a, b)) && a == sum && b == l,
                Err(e) => r == Err::<(u16, u16), USErr>(e),
            },
    {
        let ghost s0 = self@;
        let mut l: u16 = 0;
        let mut sum: u16 = 0;
        let n = self.window.len();
        while (l as usize) < n && l < self.cache_size
            invariant
                self.wf(),
                s0 == old(self)@,
                n == self@.window.len(),
                self@.split == s0.split,
                self@.sid == s0.sid,
                self@.cache_size == s0.cache_size,
                self@.max_retry == s0.max_retry,
                self@.timeout == s0.timeout,
                scan_len(self@) == scan_len(s0),
                0 <= l <= scan_len(s0),
                def_scan(self@, now, l as int, sum as int) == def_scan(s0, now, 0, 0),
                sum + window_sum(self@.window, l as int, scan_len(s0)) == window_sum(s0.window, 0, scan_len(s0)),
                window_sum(s0.window, 0, scan_len(s0)) <= u16::MAX,
                forall|k: int| l <= k < scan_len(s0) ==> (#[trigger] self@.window[k]) == s0.window[k],
                forall|k: int| 0 <= k < scan_len(s0) ==> (#[trigger] s0.window[k]).3 <= s0.max_retry ==> s0.window[k].3 < u16::MAX,
            decreases scan_len(s0) - l,
        {
            let ghost s1 = self@;
            proof {
                lemma_window_sum_step(self@.window, l as int, scan_len(s0));
            }
            let i = l as usize;
            let times = self.window[i].3;
            let t = self.window[i].2;
            let ghost sum0 = sum as int;
            sum = sum + times;
            if times > self.max_retry_times {
                proof {
                    assert(self@.window[l as int].3 == times);
                    assert(def_scan(self@, now, l as int, sum0) == (self@, Err::<(int, int), USErr>(USErr::RetryTimesLimit)));
                }
                return Err(USErr::RetryTimesLimit);
            }
            if now >= t && now - t > self.timeout {
                let (id, d, _t, _times) = self.window.remove(i);
                let c = d.clone();
                self.window.insert(i, (id, d, now, times + 1));
                self.out.push(c);
                proof {
                    assert(self@.window =~= s1.window.update(i as int, (id, s1.window[i as int].1, now, (times + 1) as u16)));
                    assert(self@.out =~= s1.out.push(s1.window[i as int].1));
                    assert(self@.pending =~= s1.pending);
                    assert(self@.no_sid =~= s1.no_sid);
                    assert(self@.recv_cache =~= s1.recv_cache);
                    assert(self@.recv_queue =~= s1.recv_queue);
                    lemma_window_sum_update(s1.window, i as int, self@.window[i as int], i + 1, scan_len(s0));
                }
            }
            l = l + 1;
        }
        Ok((sum, l))
    }

    /// Cuts the next slice and sends it (see `def_drain_step`).
    fn drain_one(&mut self, now: u128) -> (r: Result<(), USErr>)
        requires
            old(self).wf(),
            pop_ok(old(self)@.split),
        ensures
            final(self).wf(),
            (final(self)@, r) == def_drain_step(old(self)@, now),
    {
        let p = self.msg_split.pop_msg_at(now);
        proof {
            Self::lemma_frame(old(self), self);
        }
        let (bytes, ext, tag, _info) = match p {
            Some(x) => x,
            None => {
                return Ok(());
            },
        };
        if bytes.len() == 0 {
            return Ok(());
        }
        match self.warp(bytes.as_slice(), ext, tag, now) {
            Ok(d) => {
                self.send(d);
                Ok(())
            },
            Err(USErr::MsgCacheOverflow) => Ok(()),
            Err(e) => Err(e),
        }
    }

    /// Resends what is due and sends waiting slices, at `now` (see `def_check_send`).
    /// Gives the sends counted by the scan and the entries it looked at, from which
    /// the caller derives the average number of sends per message.
    pub fn check_send_at(&mut self, now: u128) -> (r: Result<(u16, u16), USErr>)
        requires
            old(self).wf(),
            old(self)@.split.unit > 0,
            def_retry_fits(old(self)@),
            scan_fits(def_retry(old(self)@, now).0),
        ensures
            final(self).wf(),
            def_check_send(old(self)@, now, final(self)@, r),
    {
        match &self.error {
            Some(e) => {
                return Err(e.clone());
            },
            None => {},
        }
        match self.sid {
            SessionState::WaitResponse(v, t, times) => {
                if times > self.max_retry_times {
                    return Err(USErr::SendSessionFailed);
                }
                if now >= t && now - t > self.timeout {
                    self.sid = SessionState::WaitResponse(v, now, times + 1);
                    proof {
                        Self::lemma_frame(old(self), self);
                    }
                    self.send_ctl(SpecialExt::SendSid, 0, v);
                }
            },
            SessionState::WaitResponseCp(v, t, times) => {
                if times > self.max_retry_times {
                    return Err(USErr::SendSessionFailed);
                }
                if now >= t && now - t > self.timeout {
                    self.sid = SessionState::WaitResponseCp(v, now, times + 1);
                    proof {
                        Self::lemma_frame(old(self), self);
                    }
                    self.send_ctl(SpecialExt::ResponseSendSid, 0, v);
                }
            },
            _ => {},
        }
        let scanned = self.scan(now);
        let (sum, l) = match scanned {
            Err(e) => {
                return Err(e);
            },
            Ok(x) => x,
        };
        let ghost s2 = self@;
        let ghost mut k: nat = 0;
        while self.window.len() < self.cache_size as usize && self.msg_cache_queue.len() == 0
            && self.msg_split.need_send() && self.msg_split.can_pop()
            invariant
                self.wf(),
                (self@, Ok::<(), USErr>(())) == def_drain(s2, now, k),
                old(self)@.error is None,
                def_retry(old(self)@, now).1 is Ok,
                def_scan(def_retry(old(self)@, now).0, now, 0, 0) == (s2, Ok::<(int, int), USErr>((sum as int, l as int))),
                self@.split.unit == s2.split.unit,
                s2.split.unit > 0,
            decreases split_work(self.msg_split@),
        {
            proof {
                self.msg_split.lemma_wf_bounds();
                DefUdpMsgSplit::lemma_pop_decreases(self.msg_split@, now);
                lemma_def_drain_last(s2, now, k);
                assert(def_active(self@));
            }
            let d = self.drain_one(now);
            proof {
                k = k + 1;
            }
            match d {
                Err(e) => {
                    proof {
                        assert(def_drain(s2, now, k) == (self@, Err::<(), USErr>(e)));
                    }
                    return Err(e);
                },
                Ok(_) => {},
            }
        }
        proof {
            self.msg_split.lemma_wf_bounds();
            assert(!def_active(self@));
        }
        Ok((sum, l))
    }

    /// Resends and drains now (see `check_send_at`).
    pub fn check_send(&mut self) -> (r: Result<(u16, u16), USErr>)
        requires
            old(self).wf(),
            old(self)@.split.unit > 0,
            def_retry_fits(old(self)@),
            scan_fits(old(self)@),
        ensures
            final(self).wf(),
            exists|now: u128| #[trigger] def_check_send(old(self)@, now, final(self)@, r),
    {
        let now = now_nanos();
        assert(scan_fits(def_retry(self@, now).0));
        self.check_send_at(now)
    }
}

} // verus!

verus! {

/// `s` after starting a session under id `fresh` at `now`.
pub open spec fn def_open(s: DefView, fresh: u128, now: u128) -> DefView {
    def_send(DefView { sid: SessionState::WaitResponse(fresh, now, 1), ..s }, def_ctl(SpecialExt::SendSid, 0, fresh))
}

/// `s` after closing session `x`: the close request goes out three times.
pub open spec fn def_close(s: DefView, x: u128) -> DefView {
    let d = def_ctl(SpecialExt::SendClose, 0, x);
    def_send(def_send(def_send(DefView { sid: SessionState::Closed(x), ..s }, d), d), d)
}

/// The cache size after `adjust_cache_size(f, r)`: a tenth of it (at least one),
/// times `r` and `f`, added, within the bounds.
pub open spec fn spec_adjust_cache(cs: u16, f: i16, r: i16, min: u16, max: u16) -> u16 {
    let v = if cs / 10 <= 0 {
        1
    } else {
        cs / 10
    };
    let n = cs + v * r * f;
    let m = if n < min {
        min as int
    } else {
        n
    };
    (if m > max {
        max as int
    } else {
        m
    }) as u16
}

impl DefUdpSender {
    /// Receives the frame body `data` at `now` (see `def_check_recv`).
    pub fn check_recv_at(&mut self, data: &[u8], now: u128) -> (r: Result<(), USErr>)
        requires
            old(self).wf(),
            data@.len() > 0 ==> def_room(old(self)@),
            def_recv_ok(data@),
        ensures
            final(self).wf(),
            (final(self)@, r) == def_check_recv(old(self)@, data@, now),
    {
        match &self.error {
            Some(e) => {
                return Err(e.clone());
            },
            None => {},
        }
        let u = self.unwarp(data, now);
        match u {
            Ok(v) => {
                let ghost s1 = self@;
                self.recv_queue.push(v);
                proof {
                    assert(self@.recv_queue =~= s1.recv_queue.push(self.recv_queue@.last()@));
                    assert(self@.out =~= s1.out);
                    assert(self@.window =~= s1.window);
                    assert(self@.pending =~= s1.pending);
                    assert(self@.no_sid =~= s1.no_sid);
                    assert(self@.recv_cache =~= s1.recv_cache);
                }
                Ok(())
            },
            Err(USErr::EmptyMsg) => Ok(()),
            Err(e) => {
                self.error = Some(e.clone());
                proof {
                    Self::lemma_frame(self, self);
                }
                Err(e)
            },
        }
    }

    /// Receives the frame body `data` now.
    pub fn check_recv(&mut self, data: &[u8]) -> (r: Result<(), USErr>)
        requires
            old(self).wf(),
            data@.len() > 0 ==> def_room(old(self)@),
            def_recv_ok(data@),
        ensures
            final(self).wf(),
            exists|now: u128| (final(self)@, r) == #[trigger] def_check_recv(old(self)@, data@, now),
    {
        let now = now_nanos();
        self.check_recv_at(data, now)
    }

    /// Whether `check_recv` handles the frame body `data` (else it would fail on it).
    pub fn recv_ok(data: &[u8]) -> (r: bool)
        ensures
            r == def_recv_ok(data@),
    {
        if data.len() == 0 {
            return true;
        }
        if data.len() < crate::udp_sender::package_len() {
            return false;
        }
        let (msg, _id, ext, tag, _sid) = unwarp_ex(data);
        !(msg.len() == 1 && msg[0] == CONTROL_BYTE && tag == TOKEN_NORMAL && SpecialExt::try_from_u32(ext).is_none())
    }

    /// Whether the counters that `check_send` adds to stay within 16 bits: the retries
    /// of a session handshake, and the sends of the window entries it looks at.
    pub fn send_check_fits(&self) -> (r: bool)
        ensures
            r == (def_retry_fits(self@) && scan_fits(self@)),
    {
        let retry = match self.sid {
            SessionState::WaitResponse(_, _, t) => !(t <= self.max_retry_times) || t < u16::MAX,
            SessionState::WaitResponseCp(_, _, t) => !(t <= self.max_retry_times) || t < u16::MAX,
            _ => true,
        };
        let n: usize = if self.window.len() < self.cache_size as usize {
            self.window.len()
        } else {
            self.cache_size as usize
        };
        let ghost w = self@.window;
        let mut sum: u64 = 0;
        let mut ok = true;
        let mut k: usize = n;
        while k > 0
            invariant
                n == scan_len(self@),
                n <= self.window@.len(),
                n <= u16::MAX,
                w == self@.window,
                k <= n,
                sum == window_sum(w, k as int, n as int),
                sum <= (n - k) * 65535,
                ok == (forall|j: int| k <= j < n ==> (#[trigger] w[j]).3 <= self@.max_retry ==> w[j].3 < u16::MAX),
            decreases k,
        {
            proof {
                lemma_window_sum_step(w, k - 1, n as int);
            }
            let t = self.window[k - 1].3;
            assert(t == w[k - 1].3);
            sum = sum + t as u64;
            if t <= self.max_retry_times && t == u16::MAX {
                ok = false;
            }
            k = k - 1;
        }
        retry && ok && sum <= 65535
    }

    /// Whether the splitter has room for the held-back messages and one more.
    pub fn has_room(&self) -> (r: bool)
        ensures
            r == def_room(self@),
    {
        (self.msg_split.queue_len() as u128) + (self.msg_cache_on_no_sid.len() as u128) + 1 < 0xffff_ffffu128
    }

    /// Takes the next delivered message, or fails with the stored error or with
    /// `EmptyMsg` when none is waiting.
    pub fn pop_recv_msg(&mut self) -> (r: Result<Vec<u8>, USErr>)
        requires
            old(self).wf(),
        ensures
            final(self).wf(),
            match old(self)@.error {
                Some(e) => final(self)@ == old(self)@ && r == Err::<Vec<u8>, USErr>(e),
                None => if old(self)@.recv_queue.len() == 0 {
                    final(self)@ == old(self)@ && r == Err::<Vec<u8>, USErr>(USErr::EmptyMsg)
                } else {
                    &&& r matches Ok(v) && v@ == old(self)@.recv_queue[0]
                    &&& final(self)@ == (DefView { recv_queue: old(self)@.recv_queue.drop_first(), ..old(self)@ })
                },
            },
    {
        match &self.error {
            Some(e) => {
                return Err(e.clone());
            },
            None => {},
        }
        if self.recv_queue.len() == 0 {
            return Err(USErr::EmptyMsg);
        }
        let ghost s0 = self@;
        let v = self.recv_queue.remove(0);
        proof {
            assert(self@.recv_queue =~= s0.recv_queue.drop_first());
            assert(self@.out =~= s0.out);
            assert(self@.window =~= s0.window);
            assert(self@.pending =~= s0.pending);
            assert(self@.no_sid =~= s0.no_sid);
            assert(self@.recv_cache =~= s0.recv_cache);
        }
        Ok(v)
    }

    /// Sends `v` at `now`; with no session yet it holds `v` back and starts a session
    /// under id `fresh` (see `def_send_msg`).
    pub fn send_msg_at(&mut self, v: Vec<u8>, fresh: u128, now: u128) -> (r: Result<(), USErr>)
        requires
            old(self).wf(),
            def_room(old(self)@),
            v@.len() > 0,
        ensures
            final(self).wf(),
            (final(self)@, r) == def_send_msg(old(self)@, v@, fresh, now),
    {
        match self.sid {
            SessionState::Null | SessionState::WaitResponse(_, _, _) => {
                let was_null = match self.sid {
                    SessionState::Null => true,
                    _ => false,
                };
                let ghost s0 = self@;
                self.msg_cache_on_no_sid.push(v);
                proof {
                    assert(self@.no_sid =~= s0.no_sid.push(self.msg_cache_on_no_sid@.last()@));
                    assert(self@.out =~= s0.out);
                    assert(self@.window =~= s0.window);
                    assert(self@.pending =~= s0.pending);
                    assert(self@.recv_cache =~= s0.recv_cache);
                    assert(self@.recv_queue =~= s0.recv_queue);
                    assert forall|i: int| 0 <= i < self@.no_sid.len() implies #[trigger] self@.no_sid[i].len() > 0 by {
                        if i < s0.no_sid.len() {
                            assert(self@.no_sid[i] == s0.no_sid[i]);
                        }
                    }
                }
                if was_null {
                    self.sid = SessionState::WaitResponse(fresh, now, 1);
                    proof {
                        Self::lemma_frame(self, self);
                    }
                    self.send_ctl(SpecialExt::SendSid, 0, fresh);
                }
                Ok(())
            },
            SessionState::Closed(_) | SessionState::PrepareClose(_, _, _) | SessionState::ReqClose(_, _, _) => {
                Err(USErr::AlreadyClosed)
            },
            _ => {
                self.send_in_session(v, now);
                Ok(())
            },
        }
    }

    /// Sends `v` now; with no session yet it starts one under a random id.
    pub fn send_msg(&mut self, v: Vec<u8>) -> (r: Result<(), USErr>)
        requires
            old(self).wf(),
            def_room(old(self)@),
            v@.len() > 0,
        ensures
            final(self).wf(),
            exists|fresh: u128, now: u128| (final(self)@, r) == #[trigger] def_send_msg(old(self)@, v@, fresh, now),
    {
        let fresh = random_session_id();
        let now = now_nanos();
        self.send_msg_at(v, fresh, now)
    }
}

} // verus!

verus! {

impl DefUdpSender {
    /// Moves the cache size by a tenth of it (at least one) times `r` and `f`, within
    /// the bounds, and returns it.
    pub fn adjust_cache_size(&mut self, f: i16, r: i16) -> (n: u16)
        requires
            old(self)@.cache_size <= i16::MAX,
            old(self)@.min_cache <= i16::MAX,
            old(self)@.max_cache <= i16::MAX,
            i16::MIN <= r * (if old(self)@.cache_size / 10 == 0 { 1 } else { old(self)@.cache_size / 10 }) <= i16::MAX,
            i16::MIN <= f * r * (if old(self)@.cache_size / 10 == 0 { 1 } else { old(self)@.cache_size / 10 }) <= i16::MAX,
            i16::MIN <= old(self)@.cache_size + f * r * (if old(self)@.cache_size / 10 == 0 { 1 } else { old(self)@.cache_size / 10 }) <= i16::MAX,
        ensures
            n == spec_adjust_cache(old(self)@.cache_size, f, r, old(self)@.min_cache, old(self)@.max_cache),
            final(self)@ == (DefView { cache_size: n, ..old(self)@ }),
            old(self).wf() ==> final(self).wf(),
    {
        let cs = self.cache_size as i16;
        let mut v = cs / 10;
        if v <= 0 {
            v = 1;
        }
        assert(v == (if old(self)@.cache_size / 10 == 0 { 1 } else { old(self)@.cache_size / 10 }));
        assert(v * r == r * v) by (nonlinear_arith);
        let vr = v * r;
        assert(vr * f == f * r * v) by (nonlinear_arith)
            requires
                vr == r * v,
        ;
        let mut new = cs + vr * f;
        if new < self.min_cache_size as i16 {
            new = self.min_cache_size as i16;
        }
        if new > self.max_cache_size as i16 {
            new = self.max_cache_size as i16;
        }
        self.cache_size = new as u16;
        proof {
            Self::lemma_frame(old(self), self);
        }
        new as u16
    }

    /// Grows the cache size by `r`, within the bounds, and returns it.
    pub fn adjust_cache_size_ex(&mut self, r: u16) -> (n: u16)
        requires
            old(self)@.cache_size + r <= u16::MAX,
        ensures
            n == ({
                let m = if old(self)@.cache_size + r < old(self)@.min_cache {
                    old(self)@.min_cache as int
                } else {
                    old(self)@.cache_size + r
                };
                if m > old(self)@.max_cache {
                    old(self)@.max_cache as int
                } else {
                    m
                }
            }),
            final(self)@ == (DefView { cache_size: n, ..old(self)@ }),
            old(self).wf() ==> final(self).wf(),
    {
        let mut new = self.cache_size + r;
        if new < self.min_cache_size {
            new = self.min_cache_size;
        }
        if new > self.max_cache_size {
            new = self.max_cache_size;
        }
        self.cache_size = new;
        proof {
            Self::lemma_frame(old(self), self);
        }
        new
    }

    /// Adapts the window and the slice length to how often messages had to be sent
    /// again: `frequent` when they were sent three times or more on average, `rare`
    /// when once or less. With the window at least half full and frequent resends the
    /// window shrinks and slices halve; with a full window and rare resends, slices
    /// grow, or the window grows by one once slices are at their longest.
    pub fn adjust_unit_size(&mut self, frequent: bool, rare: bool)
        requires
            old(self).wf(),
            old(self)@.cache_size < i16::MAX,
            old(self)@.min_cache <= i16::MAX,
            old(self)@.max_cache <= i16::MAX,
            old(self)@.split.unit + old(self)@.split.unit / 10 <= usize::MAX,
        ensures
            final(self).wf(),
            ({
                let s = old(self)@;
                let half = s.window.len() >= s.cache_size / 2 && frequent;
                let full = s.window.len() == s.cache_size && rare;
                if half {
                    final(self)@.cache_size == spec_adjust_cache(s.cache_size, -1i16, 5i16, s.min_cache, s.max_cache)
                        && final(self)@.split.unit == (if s.split.unit - s.split.unit / 2 < s.split.min_unit {
                        s.split.min_unit as int
                    } else {
                        s.split.unit - s.split.unit / 2
                    })
                } else if full && s.split.unit == s.split.max_unit {
                    final(self)@.cache_size == ({
                        let m = if s.cache_size + 1 < s.min_cache {
                            s.min_cache as int
                        } else {
                            s.cache_size + 1
                        };
                        if m > s.max_cache {
                            s.max_cache as int
                        } else {
                            m
                        }
                    }) && final(self)@.split == s.split
                } else if full {
                    final(self)@.cache_size == s.cache_size && final(self)@.split.unit == (if s.split.unit
                        + s.split.unit / 10 > s.split.max_unit {
                        s.split.max_unit as int
                    } else {
                        s.split.unit + s.split.unit / 10
                    })
                } else {
                    final(self)@ == s
                }
            }),
            final(self)@ == (DefView { cache_size: final(self)@.cache_size, split: final(self)@.split, ..old(self)@ }),
            final(self)@.split == (UdpSplitView { unit: final(self)@.split.unit, ..old(self)@.split }),
    {
        let len = self.window.len();
        let cs = self.cache_size as usize;
        let half = len >= cs / 2 && frequent;
        let full = len == cs && rare;
        if half {
            self.adjust_cache_size(-1, 5);
            let ghost s1 = self@;
            self.msg_split.down_unit_size();
            proof {
                Self::lemma_frame(self, self);
                assert(self@ == DefView { split: self@.split, ..s1 });
            }
        } else if full {
            if self.msg_split.is_max_unit_size() {
                self.adjust_cache_size_ex(1);
            } else {
                self.msg_split.up_unit_size();
                proof {
                    Self::lemma_frame(old(self), self);
                }
            }
        }
    }

    /// Whether the window has room and nothing waits behind it.
    pub fn send_cache_empty(&self) -> (r: bool)
        ensures
            r == (self@.window.len() < self@.cache_size && self@.pending.len() == 0),
    {
        self.window.len() < self.cache_size as usize && self.msg_cache_queue.len() == 0
    }

    /// Starts a session under id `fresh` at `now`, unless one is settled or being set up.
    pub fn build_session_at(&mut self, fresh: u128, now: u128) -> (r: Result<(), USErr>)
        requires
            old(self).wf(),
        ensures
            final(self).wf(),
            old(self)@.sid is WaitResponseCp || old(self)@.sid is Has ==> final(self)@ == old(self)@
                && r == Err::<(), USErr>(USErr::AlreadyHasSession),
            old(self)@.sid is WaitResponse ==> final(self)@ == old(self)@ && r == Err::<(), USErr>(
                USErr::WaitSessionResponse,
            ),
            !(old(self)@.sid is WaitResponseCp || old(self)@.sid is Has || old(self)@.sid is WaitResponse)
                ==> r == Ok::<(), USErr>(()) && final(self)@ == def_open(old(self)@, fresh, now),
    {
        if self.sid.is_has() {
            return Err(USErr::AlreadyHasSession);
        }
        if self.sid.is_waiting_session() {
            return Err(USErr::WaitSessionResponse);
        }
        self.sid = SessionState::WaitResponse(fresh, now, 1);
        proof {
            Self::lemma_frame(old(self), self);
        }
        self.send_ctl(SpecialExt::SendSid, 0, fresh);
        Ok(())
    }

    /// Starts a session under a random id now.
    pub fn build_session(&mut self) -> (r: Result<(), USErr>)
        requires
            old(self).wf(),
        ensures
            final(self).wf(),
            old(self)@.sid is WaitResponseCp || old(self)@.sid is Has ==> final(self)@ == old(self)@
                && r == Err::<(), USErr>(USErr::AlreadyHasSession),
            old(self)@.sid is WaitResponse ==> final(self)@ == old(self)@ && r == Err::<(), USErr>(
                USErr::WaitSessionResponse,
            ),
            !(old(self)@.sid is WaitResponseCp || old(self)@.sid is Has || old(self)@.sid is WaitResponse)
                ==> r == Ok::<(), USErr>(()) && exists|fresh: u128, now: u128|
                final(self)@ == #[trigger] def_open(old(self)@, fresh, now),
    {
        let fresh = random_session_id();
        let now = now_nanos();
        self.build_session_at(fresh, now)
    }

    /// Closes the session: its state becomes closed and the close request goes out
    /// three times.
    pub fn close_session(&mut self) -> (r: Result<(), USErr>)
        requires
            old(self).wf(),
        ensures
            final(self).wf(),
            match spec_sid(old(self)@.sid) {
                None => final(self)@ == old(self)@ && r == Err::<(), USErr>(USErr::NoSession),
                Some(x) => r == Ok::<(), USErr>(()) && final(self)@ == def_close(old(self)@, x),
            },
    {
        let x = match self.sid.get_sid() {
            None => {
                return Err(USErr::NoSession);
            },
            Some(x) => x,
        };
        self.sid = SessionState::Closed(x);
        proof {
            Self::lemma_frame(old(self), self);
        }
        self.send_ctl(SpecialExt::SendClose, 0, x);
        self.send_ctl(SpecialExt::SendClose, 0, x);
        self.send_ctl(SpecialExt::SendClose, 0, x);
        Ok(())
    }

    /// Whether the session id is settled.
    pub fn has_session(&self) -> (r: bool)
        ensures
            r == (self@.sid is WaitResponseCp || self@.sid is Has),
    {
        self.sid.is_has()
    }

    /// Whether a held message is next in order, so that `check_recv` with an empty
    /// body delivers it.
    pub fn need_check(&self) -> (r: bool)
        ensures
            r == self@.recv_cache.contains_key(self@.expect),
    {
        self.recv_cache.contains_key(&self.expect_id)
    }

    /// The length of the slices that long messages are cut into.
    pub fn slice_len(&self) -> (r: usize)
        ensures
            r == self@.split.unit,
    {
        self.msg_split.unit_size()
    }

    /// Finitely many received messages are held back.
    pub proof fn lemma_held_finite(&self)
        ensures
            self@.recv_cache.dom().finite(),
    {
        assert(self@.recv_cache.dom() =~= self.recv_cache@.dom());
    }

    /// Takes the datagrams to put on the socket, oldest first.
    pub fn take_out(&mut self) -> (r: Vec<Vec<u8>>)
        ensures
            r@.len() == old(self)@.out.len(),
            forall|i: int| 0 <= i < r@.len() ==> (#[trigger] r@[i])@ == old(self)@.out[i],
            final(self)@ == (DefView { out: Seq::empty(), ..old(self)@ }),
            old(self).wf() ==> final(self).wf(),
    {
        let mut r: Vec<Vec<u8>> = Vec::new();
        std::mem::swap(&mut r, &mut self.out);
        proof {
            assert(self@.out =~= Seq::<Seq<u8>>::empty());
            assert(self@.window =~= old(self)@.window);
            assert(self@.pending =~= old(self)@.pending);
            assert(self@.no_sid =~= old(self)@.no_sid);
            assert(self@.recv_cache =~= old(self)@.recv_cache);
            assert(self@.recv_queue =~= old(self)@.recv_queue);
        }
        r
    }

    /// Sets the longest message and the longest slice.
    pub fn set_max_msg_len(&mut self, len: u16)
        ensures
            final(self)@ == (DefView { max_len: len, split: UdpSplitView { max_unit: len as usize, ..old(self)@.split }, ..old(self)@ }),
            old(self).wf() ==> final(self).wf(),
    {
        self.max_len = len;
        self.msg_split.set_max_unit_size(len as usize);
        proof {
            Self::lemma_frame(old(self), self);
        }
    }

    pub fn max_msg_len(&self) -> (r: u16)
        ensures
            r == self@.max_len,
    {
        self.max_len
    }

    /// Sets the shortest message and the shortest slice.
    pub fn set_min_msg_len(&mut self, len: u16)
        ensures
            final(self)@ == (DefView { min_len: len, split: UdpSplitView { min_unit: len as usize, ..old(self)@.split }, ..old(self)@ }),
            old(self).wf() ==> final(self).wf(),
    {
        self.min_len = len;
        self.msg_split.set_min_unit_size(len as usize);
        proof {
            Self::lemma_frame(old(self), self);
        }
    }

    pub fn min_msg_len(&self) -> (r: u16)
        ensures
            r == self@.min_len,
    {
        self.min_len
    }

    pub fn max_cache_size(&self) -> (r: u16)
        ensures
            r == self@.max_cache,
    {
        self.max_cache_size
    }

    pub fn set_max_cache_size(&mut self, s: u16)
        ensures
            final(self)@ == (DefView { max_cache: s, ..old(self)@ }),
            old(self).wf() ==> final(self).wf(),
    {
        self.max_cache_size = s;
        proof {
            Self::lemma_frame(old(self), self);
        }
    }

    pub fn min_cache_size(&self) -> (r: u16)
        ensures
            r == self@.min_cache,
    {
        self.min_cache_size
    }

    pub fn set_min_cache_size(&mut self, s: u16)
        ensures
            final(self)@ == (DefView { min_cache: s, ..old(self)@ }),
            old(self).wf() ==> final(self).wf(),
    {
        self.min_cache_size = s;
        proof {
            Self::lemma_frame(old(self), self);
        }
    }

    /// Sets the resend timeout, in nanoseconds.
    pub fn set_time_out(&mut self, dur: u128)
        ensures
            final(self)@ == (DefView { timeout: dur, ..old(self)@ }),
            old(self).wf() ==> final(self).wf(),
    {
        self.timeout = dur;
        proof {
            Self::lemma_frame(old(self), self);
        }
    }

    pub fn set_retry_times(&mut self, v: u16)
        ensures
            final(self)@ == (DefView { max_retry: v, ..old(self)@ }),
            old(self).wf() ==> final(self).wf(),
    {
        self.max_retry_times = v;
        proof {
            Self::lemma_frame(old(self), self);
        }
    }

    pub fn retry_times(&self) -> (r: u16)
        ensures
            r == self@.max_retry,
    {
        self.max_retry_times
    }
}

} // verus!

verus! {

proof fn lemma_find_push(w: Seq<WindowEntry>, e: WindowEntry, id: usize, k: int)
    requires
        0 <= k <= w.len(),
        forall|j: int| k <= j < w.len() ==> (#[trigger] w[j]).0 != id,
        e.0 == id,
    ensures
        find_from(w.push(e), id, k) == Some(w.len() as int),
    decreases w.len() - k,
{
    if k < w.len() {
        assert(w.push(e)[k] == w[k]);
        lemma_find_push(w, e, id, k + 1);
    }
}

/// A message framed as the next one of the settled session is delivered as it was
/// sent, acknowledged twice, and the one after it is expected next.
pub proof fn lemma_def_deliver(s: DefView, v: Seq<u8>, ext: u32, sid: u128, now: u128)
    requires
        s.sid == SessionState::Has(sid),
        !(v.len() == 1 && v[0] == CONTROL_BYTE),
    ensures
        def_recv_ok(crate::udp_sender::spec_body(v, ext, TOKEN_NORMAL, s.expect, sid)),
        ({
            let (s1, r) = def_recv(s, crate::udp_sender::spec_body(v, ext, TOKEN_NORMAL, s.expect, sid), now);
            let ack = def_ctl(SpecialExt::SendRecv, s.expect, sid);
            &&& r == Ok::<Seq<u8>, USErr>(v)
            &&& s1.expect == next_id(s.expect)
            &&& s1.out == s.out.push(ack).push(ack)
        }),
{
    crate::udp_sender::lemma_unwarp_warp(v, ext, TOKEN_NORMAL, s.expect, sid);
}

/// The acknowledgement of a message sent in the session frees its place in the
/// window: sending it and then receiving its acknowledgement leaves the window as it was.
pub proof fn lemma_def_send_ack(s: DefView, v: Seq<u8>, sid: u128, now: u128)
    requires
        s.sid == SessionState::Has(sid),
        s.window.len() < s.cache_size,
        s.pending.len() == 0,
        v.len() <= s.split.unit,
        s.split.queue.len() == 0,
        forall|j: int| 0 <= j < s.window.len() ==> (#[trigger] s.window[j]).0 != next_id(s.mid),
    ensures
        ({
            let mid = next_id(s.mid);
            let d = spec_frame(v, 0, TOKEN_NORMAL, mid, sid);
            let s1 = def_send_in_session(s, v, now);
            &&& s1.window == s.window.push((mid, d, now, 1u16))
            &&& s1.out == s.out.push(d)
            &&& def_ack(s1, mid, now).window == s.window
        }),
{
    let mid = next_id(s.mid);
    let d = spec_frame(v, 0, TOKEN_NORMAL, mid, sid);
    let s1 = def_send_in_session(s, v, now);
    lemma_find_push(s.window, (mid, d, now, 1u16), mid, 0);
    let s2 = DefView { window: s1.window.remove(s.window.len() as int), ..s1 };
    assert(s2.window =~= s.window);
    assert(def_refill(s2, now) == s2);
}

} // verus!

verus! {

/// Whether a window entry, last sent at `e.2`, has gone unanswered for longer than
/// `timeout` at `now`.
pub open spec fn overdue(e: WindowEntry, now: u128, timeout: u128) -> bool {
    now >= e.2 && now - e.2 > timeout
}

/// `overdue` at `now` with `timeout`, as a predicate on entries.
pub open spec fn overdue_at(now: u128, timeout: u128) -> spec_fn(WindowEntry) -> bool {
    |e: WindowEntry| overdue(e, now, timeout)
}

/// The frame a window entry holds.
pub open spec fn frame_of() -> spec_fn(WindowEntry) -> Seq<u8> {
    |e: WindowEntry| e.1
}

/// The frames of the entries of `w` that are overdue at `now`, in order.
pub open spec fn overdue_frames(w: Seq<WindowEntry>, now: u128, timeout: u128) -> Seq<Seq<u8>> {
    w.filter(overdue_at(now, timeout)).map_values(frame_of())
}

/// The resend scan sends again exactly the overdue entries it looks at: after a scan
/// from entry `k` that succeeds, the datagrams for the socket are those queued before
/// followed by the frames of the overdue entries among those from `k` to the end of
/// the scan, in window order; each such entry is stamped `now` and its send count
/// raised by one; every other entry, and everything but the window and the datagrams,
/// stays as it was.
pub proof fn lemma_scan_resends(s: DefView, now: u128, k: int, sum: int)
    requires
        0 <= k <= scan_len(s),
        def_scan(s, now, k, sum).1 is Ok,
    ensures
        ({
            let f = def_scan(s, now, k, sum).0;
            &&& f.out == s.out + overdue_frames(s.window.subrange(k, scan_len(s)), now, s.timeout)
            &&& f.window.len() == s.window.len()
            &&& forall|j: int|
                0 <= j < s.window.len() ==> #[trigger] f.window[j] == if k <= j < scan_len(s) && overdue(
                    s.window[j],
                    now,
                    s.timeout,
                ) {
                    (s.window[j].0, s.window[j].1, now, (s.window[j].3 + 1) as u16)
                } else {
                    s.window[j]
                }
            &&& f == (DefView { out: f.out, window: f.window, ..s })
        }),
    decreases scan_len(s) - k,
{
    let n = scan_len(s);
    let p = overdue_at(now, s.timeout);
    if k == n {
        assert(s.window.subrange(k, n) =~= Seq::<WindowEntry>::empty());
        assert(Seq::<WindowEntry>::empty().filter(p) =~= Seq::<WindowEntry>::empty()) by {
            reveal(Seq::filter);
        }
        assert(overdue_frames(s.window.subrange(k, n), now, s.timeout) =~= Seq::<Seq<u8>>::empty());
        assert(s.out + Seq::<Seq<u8>>::empty() =~= s.out);
    } else {
        let e = s.window[k];
        let rest = s.window.subrange(k + 1, n);
        assert(s.window.subrange(k, n) =~= seq![e] + rest);
        rest.lemma_filter_prepend(e, p);
        let fr = rest.filter(p).map_values(frame_of());
        if overdue(e, now, s.timeout) {
            let s1 = DefView { window: s.window.update(k, (e.0, e.1, now, (e.3 + 1) as u16)), out: s.out.push(e.1), ..s };
            assert(scan_len(s1) == n);
            lemma_scan_resends(s1, now, k + 1, sum + e.3);
            assert(s1.window.subrange(k + 1, n) =~= rest);
            assert((seq![e] + rest.filter(p)).map_values(frame_of()) =~= seq![e.1] + fr);
            assert(s1.out + fr =~= s.out + (seq![e.1] + fr));
        } else {
            lemma_scan_resends(s, now, k + 1, sum + e.3);
            assert((Seq::<WindowEntry>::empty() + rest.filter(p)) =~= rest.filter(p));
        }
    }
}

/// In a settled session with nothing being split, `check_send` sends again exactly
/// the window entries it looks at that went unanswered for longer than the timeout:
/// when it succeeds, the datagrams for the socket are those queued before followed by
/// those entries' frames, in window order.
pub proof fn lemma_check_send_resends(s: DefView, now: u128, f: DefView, r: Result<(u16, u16), USErr>)
    requires
        s.error is None,
        !(s.sid is WaitResponse || s.sid is WaitResponseCp),
        s.split.curr is None,
        def_check_send(s, now, f, r),
        r is Ok,
    ensures
        f.out == s.out + overdue_frames(s.window.subrange(0, scan_len(s)), now, s.timeout),
{
    assert(def_retry(s, now) == (s, Ok::<(), USErr>(())));
    let (s2, r2) = def_scan(s, now, 0, 0);
    assert(r2 is Ok);
    let pr = r2->Ok_0;
    lemma_scan_resends(s, now, 0, 0);
    assert(!def_active(s2));
    let n = choose|n: nat| {
        let (t, r3) = #[trigger] def_drain(s2, now, n);
        &&& f == t
        &&& match r3 {
            Err(e) => r == Err::<(u16, u16), USErr>(e),
            Ok(_) => !def_active(t) && r == Ok::<(u16, u16), USErr>((pr.0 as u16, pr.1 as u16)),
        }
    };
    assert(def_drain(s2, now, n) == (s2, Ok::<(), USErr>(())));
}

} // verus!

verus! {

/// The handshake is sent again after the timeout: a session request (or answer)
/// unanswered for longer than the timeout is queued once more for the socket, under
/// the same session id, stamped `now` with its count of sends raised by one; before
/// the timeout nothing changes; once the count has passed the retry limit the
/// handshake fails and nothing changes.
pub proof fn lemma_def_handshake_resent(s: DefView, now: u128)
    ensures
        s.sid matches SessionState::WaitResponse(v, t, times) ==> ({
            let (f, r) = def_retry(s, now);
            let frame = spec_frame(seq![CONTROL_BYTE], spec_ext_value(SpecialExt::SendSid), TOKEN_NORMAL, 0, v);
            &&& times > s.max_retry ==> f == s && r == Err::<(), USErr>(USErr::SendSessionFailed)
            &&& times <= s.max_retry && now >= t && now - t > s.timeout ==> r is Ok && f == (DefView {
                out: s.out.push(frame),
                sid: SessionState::WaitResponse(v, now, (times + 1) as u16),
                ..s
            })
            &&& times <= s.max_retry && !(now >= t && now - t > s.timeout) ==> f == s && r is Ok
        }),
        s.sid matches SessionState::WaitResponseCp(v, t, times) ==> ({
            let (f, r) = def_retry(s, now);
            let frame = spec_frame(
                seq![CONTROL_BYTE],
                spec_ext_value(SpecialExt::ResponseSendSid),
                TOKEN_NORMAL,
                0,
                v,
            );
            &&& times > s.max_retry ==> f == s && r == Err::<(), USErr>(USErr::SendSessionFailed)
            &&& times <= s.max_retry && now >= t && now - t > s.timeout ==> r is Ok && f == (DefView {
                out: s.out.push(frame),
                sid: SessionState::WaitResponseCp(v, now, (times + 1) as u16),
                ..s
            })
            &&& times <= s.max_retry && !(now >= t && now - t > s.timeout) ==> f == s && r is Ok
        }),
        !(s.sid is WaitResponse || s.sid is WaitResponseCp) ==> def_retry(s, now) == (s, Ok::<(), USErr>(())),
{
}

} // verus!

verus! {

/// Messages are delivered in order whatever order they arrive in: when the message
/// after the next one arrives first it is held and nothing is delivered; the next
/// one then is delivered, and an empty receive delivers the held one after it.
pub proof fn lemma_def_reorder(s: DefView, v1: Seq<u8>, v2: Seq<u8>, ext: u32, sid: u128, now: u128)
    requires
        s.sid == SessionState::Has(sid),
        s.expect + 1 < usize::MAX,
        !(v1.len() == 1 && v1[0] == CONTROL_BYTE),
        !(v2.len() == 1 && v2[0] == CONTROL_BYTE),
    ensures
        ({
            let m = s.expect;
            let b1 = crate::udp_sender::spec_body(v1, ext, TOKEN_NORMAL, m, sid);
            let b2 = crate::udp_sender::spec_body(v2, ext, TOKEN_NORMAL, (m + 1) as usize, sid);
            let (s1, r1) = def_recv(s, b2, now);
            let (s2, r2) = def_recv(s1, b1, now);
            let (s3, r3) = def_recv(s2, Seq::empty(), now);
            &&& r1 == Err::<Seq<u8>, USErr>(USErr::EmptyMsg)
            &&& r2 == Ok::<Seq<u8>, USErr>(v1)
            &&& r3 == Ok::<Seq<u8>, USErr>(v2)
            &&& s3.expect == m + 2
        }),
{
    let m = s.expect;
    crate::udp_sender::lemma_unwarp_warp(v1, ext, TOKEN_NORMAL, m, sid);
    crate::udp_sender::lemma_unwarp_warp(v2, ext, TOKEN_NORMAL, (m + 1) as usize, sid);
    let b1 = crate::udp_sender::spec_body(v1, ext, TOKEN_NORMAL, m, sid);
    let b2 = crate::udp_sender::spec_body(v2, ext, TOKEN_NORMAL, (m + 1) as usize, sid);
    let (s1, r1) = def_recv(s, b2, now);
    assert(r1 == Err::<Seq<u8>, USErr>(USErr::EmptyMsg));
    assert(s1.expect == m && s1.sid == s.sid);
    assert(s1.recv_cache.contains_key((m + 1) as usize));
    let (s2, r2) = def_recv(s1, b1, now);
    assert(r2 == Ok::<Seq<u8>, USErr>(v1));
    assert(s2.expect == m + 1);
    assert(s2.recv_cache == s1.recv_cache);
    let (s3, r3) = def_recv(s2, Seq::empty(), now);
    assert(r3 == Ok::<Seq<u8>, USErr>(v2));
}

/// Closing a session marks it closed and queues the close message three times; after
/// that, nothing more can be sent.
pub proof fn lemma_def_close(s: DefView, x: u128, v: Seq<u8>, fresh: u128, now: u128)
    ensures
        ({
            let f = def_close(s, x);
            let d = spec_frame(seq![CONTROL_BYTE], spec_ext_value(SpecialExt::SendClose), TOKEN_NORMAL, 0, x);
            &&& f.sid == SessionState::Closed(x)
            &&& f.out == s.out.push(d).push(d).push(d)
            &&& f == (DefView { sid: f.sid, out: f.out, ..s })
            &&& def_send_msg(f, v, fresh, now) == (f, Err::<(), USErr>(USErr::AlreadyClosed))
        }),
{
}

} // verus!
