//! The decisions of the client loops: what a received message leads to, how a
//! message to send is cut into parts and encrypted, and when a heartbeat is due.
//! The loops themselves, which wait on sockets and timers, run outside the library
//! and act on what these functions return.
use vstd::prelude::*;
use crate::agreement::Message;
use crate::asy_cry::{AsyView, DefAsyCry, EncryptRes, asy_decrypt, decrypt_ok, sig_len};
use crate::bytes::{TOKEN_NORMAL, TOKEN_SUBPACKAGE_BEGIN, TOKEN_SUBPACKAGE_END, copy_range};
use crate::msg_split::{DefMsgSplit, MergeCache, merge_ok, spec_merge, spec_split, next_id16, DEF_MAX_UNIT_SIZE};
use crate::udp_sender::USErr;

verus! {

/// What the client does with a received message.
pub enum Incoming {
    /// Nothing: the step of the key exchange needs no answer, or a part waits for the
    /// rest of its message.
    Nothing,
    /// Send `(msg, ext)` back at once.
    Reply(Vec<u8>, u32),
    /// Hand `(msg, ext)` to the plugs and the handler.
    Deliver(Vec<u8>, u32),
    /// The message breaks the protocol: a key message that cannot be read, or a part
    /// out of order.
    Invalid,
}

/// Messages with `tag` are parts of a longer message.
pub open spec fn is_part(tag: u8) -> bool {
    TOKEN_SUBPACKAGE_BEGIN <= tag <= TOKEN_SUBPACKAGE_END
}

/// Delivering the plain message `m` with `ext` and `tag` on merge cache `c` leaves
/// cache `f` and outcome `r`: a part is merged, and the whole message delivered once
/// its closing part arrives; any other message is delivered as it is.
pub open spec fn deliver_is(c: MergeCache, m: Seq<u8>, ext: u32, tag: u8, f: MergeCache, r: Incoming) -> bool {
    if !is_part(tag) {
        f == c && (r matches Incoming::Deliver(v, e) && v@ == m && e == ext)
    } else if !merge_ok(c, m, ext, tag) {
        f == c && r is Invalid
    } else {
        let (c1, o) = spec_merge(c, m, ext, tag);
        f == c1 && match o {
            None => r is Nothing,
            Some((v, e)) => r matches Incoming::Deliver(x, y) && x@ == v && y == e,
        }
    }
}

/// The decryption outcome `dr` of message `m` leads to cache `f` and outcome `r`:
/// an answer of the key exchange is sent back, the end of the exchange is dropped,
/// and a decrypted or unencrypted message is delivered.
pub open spec fn after_decrypt_is(
    c: MergeCache,
    dr: EncryptRes,
    m: Seq<u8>,
    ext: u32,
    tag: u8,
    f: MergeCache,
    r: Incoming,
) -> bool {
    match dr {
        EncryptRes::Break => f == c && r is Nothing,
        EncryptRes::RPubKey((d, e)) => f == c && (r matches Incoming::Reply(v, x) && v@ == d@ && x == e),
        EncryptRes::ErrMsg((d, e)) => f == c && (r matches Incoming::Reply(v, x) && v@ == d@ && x == e),
        EncryptRes::EncryptSucc(d) => deliver_is(c, d@, ext, tag, f, r),
        EncryptRes::NotChange => deliver_is(c, m, ext, tag, f, r),
    }
}

/// Merges the plain message `m` if it is a part, else delivers it.
pub fn deliver(spliter: &mut DefMsgSplit, m: Vec<u8>, ext: u32, tag: u8) -> (r: Incoming)
    ensures
        deliver_is(old(spliter).cache(), m@, ext, tag, final(spliter).cache(), r),
        final(spliter).ignored() == old(spliter).ignored(),
        final(spliter).last_id() == old(spliter).last_id(),
{
    if !(tag >= TOKEN_SUBPACKAGE_BEGIN && tag <= TOKEN_SUBPACKAGE_END) {
        return Incoming::Deliver(m, ext);
    }
    let msg = Message::new(0, m.as_slice(), ext, tag);
    if !spliter.can_merge(&msg) {
        return Incoming::Invalid;
    }
    match spliter.merge(&msg) {
        Some((d, e)) => Incoming::Deliver(d, e),
        None => Incoming::Nothing,
    }
}

/// What the decryption outcome `dr` of the received message `m` leads to (see
/// `after_decrypt_is`).
pub fn after_decrypt(spliter: &mut DefMsgSplit, dr: EncryptRes, m: &[u8], ext: u32, tag: u8) -> (r: Incoming)
    ensures
        after_decrypt_is(old(spliter).cache(), dr, m@, ext, tag, final(spliter).cache(), r),
        final(spliter).ignored() == old(spliter).ignored(),
        final(spliter).last_id() == old(spliter).last_id(),
{
    match dr {
        EncryptRes::Break => Incoming::Nothing,
        EncryptRes::RPubKey((d, e)) => Incoming::Reply(d, e),
        EncryptRes::ErrMsg((d, e)) => Incoming::Reply(d, e),
        EncryptRes::EncryptSucc(d) => deliver(spliter, d, ext, tag),
        EncryptRes::NotChange => {
            let v = copy_range(m, 0, m.len());
            assert(v@ =~= m@);
            deliver(spliter, v, ext, tag)
        },
    }
}

/// Passes a received message `m` with `ext` and `tag` through the key exchange and
/// decryption, then through merging.
pub fn on_message(asy: &mut DefAsyCry, spliter: &mut DefMsgSplit, m: &[u8], ext: u32, tag: u8) -> (r: Incoming)
    ensures
        final(spliter).ignored() == old(spliter).ignored(),
        final(spliter).last_id() == old(spliter).last_id(),
        !decrypt_ok(old(asy)@, m@, ext) ==> r is Invalid && final(asy)@ == old(asy)@ && final(spliter).cache()
            == old(spliter).cache(),
        decrypt_ok(old(asy)@, m@, ext) ==> exists|dr: EncryptRes|
            #[trigger] asy_decrypt(old(asy)@, m@, ext, final(asy)@, dr) && after_decrypt_is(
                old(spliter).cache(),
                dr,
                m@,
                ext,
                tag,
                final(spliter).cache(),
                r,
            ),
{
    if !asy.can_read(m, ext) {
        return Incoming::Invalid;
    }
    let dr = asy.try_decrypt(m, ext);
    let ghost g = dr;
    let r = after_decrypt(spliter, dr, m, ext, tag);
    assert(asy_decrypt(old(asy)@, m@, ext, asy@, g));
    r
}

/// Messages with `ext` leave `encrypt` unchanged in state `s`.
pub open spec fn sent_plain(s: AsyView, ext: u32) -> bool {
    s.ignore.contains(ext) || (10 <= ext <= 20) || s.peer is None
}

/// The payload `out` sent for the plain bytes `plain` with `ext` in state `s`: the
/// plain bytes where encryption does not apply or the message does not fit the
/// counterpart's key, else a ciphertext as long as the key size.
pub open spec fn sealed(s: AsyView, ext: u32, plain: Seq<u8>, out: Seq<u8>) -> bool {
    if sent_plain(s, ext) {
        out == plain
    } else {
        match s.peer {
            Some((n, e)) => if plain.len() + 11 <= sig_len(n) {
                out.len() == sig_len(n)
            } else {
                out == plain
            },
            None => out == plain,
        }
    }
}

/// A message of `len` bytes with `ext` is cut into parts before it is sent.
pub open spec fn cut_before_send(ignored: Set<u32>, len: nat, ext: u32) -> bool {
    len > DEF_MAX_UNIT_SIZE && !ignored.contains(ext)
}

/// Prepares the message `data` with `ext` for sending: a long message is cut into
/// parts under a fresh id, and each part, or the whole message, is encrypted with the
/// counterpart's key. Gives each package to send as its payload, ext and tag; the
/// payload is the plain bytes wherever `encrypt` leaves them unchanged.
pub fn outgoing(asy: &DefAsyCry, spliter: &mut DefMsgSplit, data: Vec<u8>, ext: u32) -> (r: Vec<(Vec<u8>, u32, u8)>)
    requires
        data@.len() <= DEF_MAX_UNIT_SIZE * 65535,
    ensures
        final(spliter).ignored() == old(spliter).ignored(),
        final(spliter).cache() == old(spliter).cache(),
        !cut_before_send(old(spliter).ignored(), data@.len(), ext) ==> {
            &&& final(spliter).last_id() == old(spliter).last_id()
            &&& r@.len() == 1
            &&& r@[0].1 == ext
            &&& r@[0].2 == TOKEN_NORMAL
            &&& sealed(asy@, ext, data@, r@[0].0@)
        },
        cut_before_send(old(spliter).ignored(), data@.len(), ext) ==> {
            let parts = spec_split(data@, final(spliter).last_id(), ext);
            &&& final(spliter).last_id() == next_id16(old(spliter).last_id())
            &&& r@.len() == parts.len()
            &&& forall|j: int|
                #![trigger r@[j]]
                0 <= j < r@.len() ==> r@[j].1 == parts[j].1 && r@[j].2 == parts[j].2 && sealed(
                    asy@,
                    parts[j].1,
                    parts[j].0,
                    r@[j].0@,
                )
        },
{
    let mut out: Vec<(Vec<u8>, u32, u8)> = Vec::new();
    if !spliter.need_split(data.len(), ext) {
        let v = match asy.encrypt(data.as_slice(), ext) {
            EncryptRes::EncryptSucc(d) => d,
            _ => data,
        };
        out.push((v, ext, TOKEN_NORMAL));
        return out;
    }
    let ghost d0 = data@;
    let mut d = data;
    let parts = spliter.split(&mut d, ext);
    let ghost sp = spec_split(d0, spliter.last_id(), ext);
    let mut j: usize = 0;
    while j < parts.len()
        invariant
            j <= parts@.len(),
            parts@.len() == sp.len(),
            forall|k: int|
                #![trigger parts@[k]]
                0 <= k < parts@.len() ==> (parts@[k].0@, parts@[k].1, parts@[k].2) == sp[k],
            out@.len() == j,
            forall|k: int|
                #![trigger out@[k]]
                0 <= k < j ==> out@[k].1 == sp[k].1 && out@[k].2 == sp[k].2 && sealed(
                    asy@,
                    sp[k].1,
                    sp[k].0,
                    out@[k].0@,
                ),
        decreases parts@.len() - j,
    {
        let p = &parts[j];
        let b = match asy.encrypt(p.0.as_slice(), p.1) {
            EncryptRes::EncryptSucc(x) => x,
            _ => copy_range(p.0.as_slice(), 0, p.0.len()),
        };
        proof {
            assert(p.0@.subrange(0, p.0@.len() as int) =~= p.0@);
        }
        out.push((b, p.1, p.2));
        j = j + 1;
    }
    out
}

/// Whether a heartbeat is due at `now`, the last one sent at `last`, one every `dur`
/// (all in the same unit); the strict form waits for more than `dur`. A clock that
/// went back sends none.
pub fn heartbeat_due(last: u128, now: u128, dur: u128, strict: bool) -> (r: bool)
    ensures
        r == (now >= last && (if strict {
            now - last > dur
        } else {
            now - last >= dur
        })),
{
    if now < last {
        return false;
    }
    if strict {
        now - last > dur
    } else {
        now - last >= dur
    }
}

/// Whether an error of the sender ends the receiving loop: every error but an empty
/// message does.
pub fn ends_receiving(e: &USErr) -> (r: bool)
    ensures
        r == !(*e is EmptyMsg),
{
    match e {
        USErr::EmptyMsg => false,
        _ => true,
    }
}

/// What a received message leads to: a step of the key exchange that calls for an
/// answer is answered at once with that answer and ext, and merges nothing; the end
/// of the exchange leads to nothing; a whole message, decrypted or passing as it is,
/// is delivered with the ext it came with, its bytes being the decrypted ones or the
/// received ones; and a part never is delivered as it came.
pub proof fn lemma_incoming_laws(c: MergeCache, dr: EncryptRes, m: Seq<u8>, ext: u32, tag: u8, f: MergeCache, r: Incoming)
    requires
        after_decrypt_is(c, dr, m, ext, tag, f, r),
    ensures
        dr matches EncryptRes::RPubKey((d, e)) ==> f == c && (r matches Incoming::Reply(v, x) && v@ == d@ && x == e),
        dr matches EncryptRes::ErrMsg((d, e)) ==> f == c && (r matches Incoming::Reply(v, x) && v@ == d@ && x == e),
        dr is Break ==> f == c && r is Nothing,
        !is_part(tag) && dr is NotChange ==> f == c && (r matches Incoming::Deliver(v, x) && v@ == m && x == ext),
        !is_part(tag) ==> (dr matches EncryptRes::EncryptSucc(d) ==> f == c && (r matches Incoming::Deliver(v, x)
            && v@ == d@ && x == ext)),
        is_part(tag) && (dr is NotChange || dr is EncryptSucc) ==> !(r is Reply),
{
}

} // verus!
