//! What the receiving side of the UDP client does with each datagram the server sends:
//! the body goes to the reliable sender, after which every held message that has become
//! next in order is delivered. The loop of the client then takes delivered messages
//! out of the sender and reads packages out of them.
use vstd::prelude::*;
use crate::def_udp_sender::{DefUdpSender, DefView, def_check_recv, def_recv_ok, def_room};
use crate::udp_sender::USErr;
use crate::udp_msg_split::now_nanos;
use crate::subpackage::{DefSubpackage, spec_read_step};

verus! {

/// Receives empty bodies while a held message is next in order, so that each is
/// delivered in turn; stops at the first failure.
pub open spec fn drain_held(s: DefView) -> (DefView, Result<(), USErr>)
    decreases s.recv_cache.dom().len(),
{
    if s.recv_cache.dom().finite() && s.recv_cache.contains_key(s.expect) {
        let (s1, r) = def_check_recv(s, Seq::empty(), 0);
        if r is Err {
            (s1, r)
        } else {
            proof {
                assert(s1.recv_cache.dom() =~= s.recv_cache.dom().remove(s.expect));
            }
            drain_held(s1)
        }
    } else {
        (s, Ok(()))
    }
}

/// Receiving an empty body while a held message is next in order fails only on a
/// stored error, and otherwise takes that message out of the held ones.
proof fn lemma_drain_step(s: DefView)
    requires
        s.recv_cache.contains_key(s.expect),
    ensures
        def_check_recv(s, Seq::empty(), 0).1 is Err <==> s.error is Some,
        s.error is None ==> def_check_recv(s, Seq::empty(), 0).0.recv_cache.dom() =~= s.recv_cache.dom().remove(
            s.expect,
        ),
{
}

/// What the datagram body `data` from the server does to the sender: it is received,
/// and when that succeeds the held messages now in order are delivered.
pub open spec fn spec_on_datagram(s: DefView, data: Seq<u8>, now: u128) -> (DefView, Result<(), USErr>) {
    let (s1, r1) = def_check_recv(s, data, now);
    if r1 is Err {
        (s1, r1)
    } else {
        drain_held(s1)
    }
}

/// Receives the datagram body `data` from the server at `now` (see `spec_on_datagram`).
/// A failure stops the client.
pub fn on_datagram_at(sender: &mut DefUdpSender, data: &[u8], now: u128) -> (r: Result<(), USErr>)
    requires
        old(sender).wf(),
        data@.len() > 0 ==> def_room(old(sender)@),
        def_recv_ok(data@),
    ensures
        final(sender).wf(),
        (final(sender)@, r) == spec_on_datagram(old(sender)@, data@, now),
{
    let ghost target = spec_on_datagram(sender@, data@, now);
    let r1 = sender.check_recv_at(data, now);
    if r1.is_err() {
        return r1;
    }
    let empty: Vec<u8> = Vec::new();
    loop
        invariant
            sender.wf(),
            drain_held(sender@) == target,
            target == spec_on_datagram(old(sender)@, data@, now),
            empty@.len() == 0,
        decreases sender@.recv_cache.dom().len(),
    {
        proof {
            sender.lemma_held_finite();
        }
        if !sender.need_check() {
            assert(drain_held(sender@) == (sender@, Ok::<(), USErr>(())));
            return Ok(());
        }
        let ghost s0 = sender@;
        proof {
            assert(empty@ =~= Seq::<u8>::empty());
            lemma_drain_step(s0);
        }
        let r = sender.check_recv_at(empty.as_slice(), 0);
        match r {
            Err(e) => {
                assert(drain_held(s0) == (sender@, r));
                return Err(e);
            },
            Ok(()) => {
            },
        }
    }
}

/// Receives the datagram body `data` from the server now.
pub fn on_datagram(sender: &mut DefUdpSender, data: &[u8]) -> (r: Result<(), USErr>)
    requires
        old(sender).wf(),
        data@.len() > 0 ==> def_room(old(sender)@),
        def_recv_ok(data@),
    ensures
        final(sender).wf(),
        exists|now: u128| (final(sender)@, r) == #[trigger] spec_on_datagram(old(sender)@, data@, now),
{
    let now = now_nanos();
    on_datagram_at(sender, data, now)
}

/// The sender holds a failure that stops the client (an "empty" mark is none).
pub open spec fn stored_failure(err: Option<USErr>) -> bool {
    err matches Some(e) && !(e is EmptyMsg)
}

/// The message the next `pop_recv_msg` hands out, if any.
pub open spec fn next_delivered(s: DefView) -> Option<Seq<u8>> {
    if s.error is None && s.recv_queue.len() > 0 {
        Some(s.recv_queue[0])
    } else {
        None
    }
}

/// One turn of the client loop's reading: the next delivered message, if any, goes to
/// the package reader (see `spec_read_step`); a failure stored in the sender stops the
/// client, with the reader untouched.
pub fn next_package(sender: &mut DefUdpSender, reader: &mut DefSubpackage) -> (r: Result<Option<Vec<u8>>, USErr>)
    requires
        old(sender).wf(),
    ensures
        final(sender).wf(),
        stored_failure(old(sender)@.error) ==> r == Err::<Option<Vec<u8>>, USErr>(old(sender)@.error->0)
            && final(sender)@ == old(sender)@ && final(reader)@ == old(reader)@,
        !stored_failure(old(sender)@.error) ==> ({
            let (b, o) = spec_read_step(old(reader)@, next_delivered(old(sender)@));
            &&& final(sender)@.recv_queue == if next_delivered(old(sender)@) is Some {
                old(sender)@.recv_queue.drop_first()
            } else {
                old(sender)@.recv_queue
            }
            &&& final(reader)@ == b
            &&& r matches Ok(p) && match o {
                None => p is None,
                Some(q) => p matches Some(v) && v@ == q,
            }
        }),
{
    match sender.pop_recv_msg() {
        Ok(v) => Ok(reader.read_step(Some(v.as_slice()))),
        Err(USErr::EmptyMsg) => Ok(reader.read_step(None)),
        Err(e) => Err(e),
    }
}

/// Receiving drains every held message that is in order: when it succeeds, no held
/// message is next in order afterwards, the messages delivered are added behind those
/// waiting, and nothing but the held messages, the next id and the delivered messages
/// changes.
pub proof fn lemma_drain_complete(s: DefView)
    requires
        s.recv_cache.dom().finite(),
        s.error is None,
    ensures
        drain_held(s).1 is Ok,
        !drain_held(s).0.recv_cache.contains_key(drain_held(s).0.expect),
        drain_held(s).0.recv_queue.len() >= s.recv_queue.len(),
        drain_held(s).0.recv_queue.subrange(0, s.recv_queue.len() as int) == s.recv_queue,
        drain_held(s).0 == (DefView {
            recv_cache: drain_held(s).0.recv_cache,
            expect: drain_held(s).0.expect,
            recv_queue: drain_held(s).0.recv_queue,
            ..s
        }),
    decreases s.recv_cache.dom().len(),
{
    if s.recv_cache.contains_key(s.expect) {
        lemma_drain_step(s);
        let s1 = def_check_recv(s, Seq::empty(), 0).0;
        assert(s1.recv_cache.dom() =~= s.recv_cache.dom().remove(s.expect));
        assert(s1.error is None);
        lemma_drain_complete(s1);
        assert(s1.recv_queue.len() >= s.recv_queue.len());
        assert(s1.recv_queue.subrange(0, s.recv_queue.len() as int) =~= s.recv_queue);
        let f = drain_held(s1).0;
        assert(f.recv_queue.subrange(0, s.recv_queue.len() as int) =~= f.recv_queue.subrange(
            0,
            s1.recv_queue.len() as int,
        ).subrange(0, s.recv_queue.len() as int));
    }
}

} // verus!
