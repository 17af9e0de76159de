//! Splitting of outgoing messages into datagram-sized parts, with resending of lost
//! parts, and merging of received parts by position.
use vstd::prelude::*;
use std::collections::HashMap;
use crate::bytes::{TOKEN_NORMAL, TOKEN_SUBPACKAGE, TOKEN_SUBPACKAGE_BEGIN, TOKEN_SUBPACKAGE_END, be_nat, be_bytes, lemma_pow256_values, lemma_be_nat_bound, lemma_be_roundtrip, push_be, copy_range, read_be};
use crate::stream_parser::{Stream, StreamParse};

verus! {

broadcast use vstd::std_specs::hash::group_hash_axioms;

/// Whether a part sent with a message is the whole message or one slice of it; a
/// slice carries its sub-header (send time, position, message length, part index).
pub enum MsgSlicesInfo {
    Complete,
    Part(Vec<u8>),
}

/// Length of the sub-header carried by a slice.
pub const SUB_HEAD_LEN: usize = 28;

/// `a` comes after `b` in the wrapping id sequence: ids within 1000 of the top are
/// taken to come before ids below 1000.
pub open spec fn spec_greater_than(a: u32, b: u32) -> bool {
    if (a > u32::MAX - 1000 && b < 1000) || (b > u32::MAX - 1000 && a < 1000) {
        a < b
    } else {
        a > b
    }
}

/// The id that follows `id` in the wrapping sequence `1, 2, ..., MAX, 1, ...`.
pub open spec fn next_id32(id: u32) -> u32 {
    if id == u32::MAX {
        1
    } else {
        (id + 1) as u32
    }
}

/// Send time recorded in a sub-header.
pub open spec fn head_ticks(h: Seq<u8>) -> nat {
    be_nat(h.subrange(0, 16))
}

/// Position of the slice in its message, recorded in a sub-header.
pub open spec fn head_begin(h: Seq<u8>) -> nat {
    be_nat(h.subrange(16, 20))
}

/// Length of the whole message, recorded in a sub-header.
pub open spec fn head_len(h: Seq<u8>) -> nat {
    be_nat(h.subrange(20, 24))
}

/// Index of the slice in its message, recorded in a sub-header.
pub open spec fn head_idx(h: Seq<u8>) -> nat {
    be_nat(h.subrange(24, 28))
}

/// `d` with `m` written over it from index `pos`.
pub open spec fn write_at(d: Seq<u8>, pos: nat, m: Seq<u8>) -> Seq<u8> {
    d.subrange(0, pos as int) + m + d.subrange((pos + m.len()) as int, d.len() as int)
}

/// Messages being merged: id to (bytes, end of the last slice written, its send time).
pub type UdpMergeCache = Map<u32, (Seq<u8>, u32, u128)>;

/// The merge of a slice is refused outright: its message was already completed, or
/// the sub-header announces an empty message.
pub open spec fn merge_refused(last: Option<u32>, ext: u32, head: Seq<u8>) -> bool {
    (last matches Some(l) && (l == ext || spec_greater_than(l, ext))) || head_len(head) == 0
}

/// The slice is written into the message's buffer.
pub open spec fn merge_writes(
    cache: UdpMergeCache,
    last: Option<u32>,
    msg: Seq<u8>,
    ext: u32,
    tag: u8,
    head: Seq<u8>,
) -> bool {
    !merge_refused(last, ext, head) && if cache.contains_key(ext) {
        (tag == TOKEN_SUBPACKAGE_BEGIN || tag == TOKEN_SUBPACKAGE || (tag == TOKEN_SUBPACKAGE_END
            && head_begin(head) + msg.len() == head_len(head))) && cache[ext].0.len() == head_len(
            head,
        ) && head_ticks(head) > cache[ext].2
    } else {
        tag == TOKEN_SUBPACKAGE_BEGIN
    }
}

/// The message `ext` was completed already, or comes before the one completed last.
pub open spec fn merge_done(last: Option<u32>, ext: u32) -> bool {
    last matches Some(l) && (l == ext || spec_greater_than(l, ext))
}

/// The inputs on which `merge` returns: a slice of a message not completed yet carries
/// a whole sub-header, and a slice written into a buffer fits it.
pub open spec fn udp_merge_ok(
    cache: UdpMergeCache,
    last: Option<u32>,
    msg: Seq<u8>,
    ext: u32,
    tag: u8,
    head: Seq<u8>,
) -> bool {
    &&& !merge_done(last, ext) ==> head.len() >= SUB_HEAD_LEN
    &&& merge_writes(cache, last, msg, ext, tag, head) ==> head_begin(head) + msg.len() <= head_len(
        head,
    )
}

/// The cache and last completed id after merging a slice, and the completed message.
pub open spec fn spec_udp_merge(
    cache: UdpMergeCache,
    last: Option<u32>,
    msg: Seq<u8>,
    ext: u32,
    tag: u8,
    head: Seq<u8>,
) -> (UdpMergeCache, Option<u32>, Option<Seq<u8>>) {
    let b = head_begin(head);
    let end = (b + msg.len()) as u32;
    let t = head_ticks(head) as u128;
    if !merge_writes(cache, last, msg, ext, tag, head) {
        (cache, last, None)
    } else if cache.contains_key(ext) {
        let d = write_at(cache[ext].0, b, msg);
        if tag == TOKEN_SUBPACKAGE_END {
            (cache.remove(ext), Some(ext), Some(d))
        } else {
            (cache.insert(ext, (d, end, t)), last, None)
        }
    } else {
        let d = write_at(Seq::new(head_len(head), |i: int| 0u8), b, msg);
        (cache.insert(ext, (d, end, t)), last, None)
    }
}

/// A message waiting to be sent: bytes, position of the next slice, id, next slice index.
pub type QueuedMsg = (Seq<u8>, usize, u32, u32);

/// A sent slice that may be sent again: id, position, queue index, slice index.
pub type RecoveryInfo = (u32, u32, u32, u32);

/// Splits outgoing messages into slices of `unit_size` bytes and merges received
/// slices back into messages.
pub struct DefUdpMsgSplit {
    msg_cache: HashMap<u32, (Vec<u8>, u32, u128)>,
    last_pop_logic_id: Option<u32>,
    logic_id: u32,
    max_unit_size: usize,
    min_unit_size: usize,
    unit_size: usize,
    curr_idx: Option<usize>,
    wait_data: Vec<Vec<u8>>,
    wait_meta: Vec<(usize, u32, u32)>,
    recovery_info: Vec<(u32, u32, u32, u32)>,
    cache_size: usize,
    next_idx: Option<usize>,
}


/// Drops the leading recovery entries of the message with id `lid`.
pub open spec fn drop_lead(r: Seq<RecoveryInfo>, lid: u32) -> Seq<RecoveryInfo>
    decreases r.len(),
{
    if r.len() > 0 && r[0].0 == lid {
        drop_lead(r.drop_first(), lid)
    } else {
        r
    }
}

/// The state after dropping the oldest queued message and its leading recovery entries.
pub open spec fn spec_remove_front(v: UdpSplitView) -> UdpSplitView {
    if v.queue.len() > 0 {
        UdpSplitView { queue: v.queue.drop_first(), recovery: drop_lead(v.recovery, v.queue[0].2), ..v }
    } else {
        v
    }
}

/// `spec_remove_front` applied `n` times.
pub open spec fn remove_front_n(v: UdpSplitView, n: nat) -> UdpSplitView
    decreases n,
{
    if n == 0 {
        v
    } else {
        spec_remove_front(remove_front_n(v, (n - 1) as nat))
    }
}

/// Recovery entries with their queue indices moved down by `top`.
pub open spec fn shift_recovery(r: Seq<RecoveryInfo>, top: nat) -> Seq<RecoveryInfo> {
    Seq::new(r.len(), |j: int| (r[j].0, r[j].1, (r[j].2 - top) as u32, r[j].3))
}

/// The state after trimming the queue to `cache_size` sent messages behind the current one.
pub open spec fn spec_check_wait(v: UdpSplitView) -> UdpSplitView {
    match v.curr {
        Some(c) => if c >= v.cache_size {
            let top = (c - v.cache_size) as nat;
            let w = remove_front_n(v, top);
            UdpSplitView {
                curr: Some((c - top) as usize),
                recovery: shift_recovery(w.recovery, top),
                ..w
            }
        } else {
            v
        },
        None => v,
    }
}

/// The state after queueing `data` under a fresh id.
pub open spec fn spec_push(v: UdpSplitView, data: Seq<u8>) -> UdpSplitView {
    let w = spec_check_wait(v);
    let id = next_id32(w.last_id);
    UdpSplitView {
        last_id: id,
        queue: w.queue.push((data, 0usize, id, 0u32)),
        curr: if w.curr is None {
            Some(w.queue.len() as usize)
        } else {
            w.curr
        },
        ..w
    }
}

/// The sub-header of a slice sent at `ticks` from position `pos` of a message of
/// `len` bytes as its slice number `idx`.
pub open spec fn sub_head(ticks: u128, pos: u32, len: u32, idx: u32) -> Seq<u8> {
    be_bytes(ticks as nat, 16) + be_bytes(pos as nat, 4) + be_bytes(len as nat, 4) + be_bytes(
        idx as nat,
        4,
    )
}

/// What `pop_msg` at time `ticks` does to the state, and the slice it returns: its
/// bytes, ext, tag, and its sub-header when it is one slice of several.
pub open spec fn spec_pop(v: UdpSplitView, ticks: u128) -> (
    UdpSplitView,
    Option<(Seq<u8>, u32, u8, Option<Seq<u8>>)>,
) {
    match v.curr {
        None => (v, None),
        Some(c) => {
            let m = v.queue[c as int];
            let end0 = m.0.len() - m.1 <= v.unit;
            let e: int = if end0 {
                m.0.len() as int
            } else {
                m.1 + v.unit
            };
            let sli = m.0.subrange(m.1 as int, e as int);
            let begin = m.1 == 0;
            let end = end0 && !(begin && sli.len() > v.min_unit);
            let next_curr = if c + 1 < v.queue.len() {
                Some((c + 1) as usize)
            } else {
                None
            };
            if begin && end {
                (
                    UdpSplitView {
                        queue: v.queue.update(c as int, (m.0, e as usize, m.2, m.3)),
                        curr: next_curr,
                        ..v
                    },
                    Some((sli, 0u32, TOKEN_NORMAL, None)),
                )
            } else {
                let tag = if begin {
                    TOKEN_SUBPACKAGE_BEGIN
                } else if end {
                    TOKEN_SUBPACKAGE_END
                } else {
                    TOKEN_SUBPACKAGE
                };
                (
                    UdpSplitView {
                        queue: v.queue.update(c as int, (m.0, e as usize, m.2, (m.3 + 1) as u32)),
                        recovery: v.recovery.push((m.2, m.1 as u32, c as u32, m.3)),
                        curr: if end {
                            next_curr
                        } else {
                            v.curr
                        },
                        ..v
                    },
                    Some((sli, m.2, tag, Some(sub_head(ticks, m.1 as u32, m.0.len() as u32, m.3)))),
                )
            }
        },
    }
}

/// `pop_msg` returns: the slice it cuts is not the next one past the last slice index.
pub open spec fn pop_ok(v: UdpSplitView) -> bool {
    v.curr matches Some(c) ==> {
        let m = v.queue[c as int];
        let end0 = m.0.len() - m.1 <= v.unit;
        let e: int = if end0 {
            m.0.len() as int
        } else {
            m.1 + v.unit
        };
        let whole = m.1 == 0 && end0 && e - m.1 <= v.min_unit;
        !whole ==> m.3 < u32::MAX
    }
}

/// What `recovery(id)` does to the state, and whether it rewound a slice.
pub open spec fn spec_recovery(v: UdpSplitView, id: u32) -> (UdpSplitView, bool) {
    if v.recovery.len() == 0 {
        (v, false)
    } else {
        let b = v.recovery.last();
        if b.0 != id {
            (v, false)
        } else if v.curr matches Some(c) && b.2 > c {
            (v, false)
        } else {
            let m = v.queue[b.2 as int];
            (
                UdpSplitView {
                    recovery: v.recovery.drop_last(),
                    curr: Some(b.2 as usize),
                    queue: v.queue.update(b.2 as int, (m.0, b.1 as usize, m.2, b.3)),
                    ..v
                },
                true,
            )
        }
    }
}

/// The state of a `DefUdpMsgSplit` as plain values.
#[verifier::ext_equal]
pub struct UdpSplitView {
    /// Messages being merged.
    pub cache: UdpMergeCache,
    /// The id of the last message that `merge` completed.
    pub last_pop: Option<u32>,
    /// The last id handed out.
    pub last_id: u32,
    pub max_unit: usize,
    pub min_unit: usize,
    /// The current slice length.
    pub unit: usize,
    /// Index in the queue of the message whose next slice is sent next.
    pub curr: Option<usize>,
    /// The messages waiting to be sent, oldest first.
    pub queue: Seq<QueuedMsg>,
    /// The slices sent, oldest first, that can be sent again.
    pub recovery: Seq<RecoveryInfo>,
    /// How many sent messages are kept in the queue behind the current one.
    pub cache_size: usize,
}

impl View for DefUdpMsgSplit {
    type V = UdpSplitView;

    closed spec fn view(&self) -> UdpSplitView {
        UdpSplitView {
            cache: cache_view(self.msg_cache),
            last_pop: self.last_pop_logic_id,
            last_id: self.logic_id,
            max_unit: self.max_unit_size,
            min_unit: self.min_unit_size,
            unit: self.unit_size,
            curr: self.curr_idx,
            queue: Seq::new(
                self.wait_meta@.len(),
                |k: int|
                    (
                        self.wait_data@[k]@,
                        self.wait_meta@[k].0,
                        self.wait_meta@[k].1,
                        self.wait_meta@[k].2,
                    ),
            ),
            recovery: self.recovery_info@,
            cache_size: self.cache_size,
        }
    }
}

impl DefUdpMsgSplit {
    /// The internal invariant: indices stay in the queue, positions stay in their
    /// messages, and the recovery entries are in queue order and name their message.
    pub closed spec fn wf(&self) -> bool {
        let q = self@.queue;
        let r = self@.recovery;
        &&& q.len() <= u32::MAX
        &&& self.wait_data@.len() == self.wait_meta@.len()
        &&& self.next_idx is None
        &&& self.curr_idx matches Some(c) ==> c < q.len()
        &&& forall|k: int| 0 <= k < q.len() ==> #[trigger] q[k].1 <= q[k].0.len()
        &&& forall|j: int|
            0 <= j < r.len() ==> (#[trigger] r[j]).2 < q.len() && r[j].0 == q[r[j].2 as int].2
                && r[j].1 <= q[r[j].2 as int].0.len()
        &&& forall|i: int, j: int| 0 <= i < j < r.len() ==> (#[trigger] r[i]).2 <= (#[trigger] r[j]).2
        &&& self.curr_idx matches Some(c) ==> forall|j: int| 0 <= j < r.len() ==> (#[trigger] r[j]).2 <= c
    }

    proof fn lemma_wf_frame(a: &Self, b: &Self)
        requires
            a.wf(),
            a.wait_data == b.wait_data,
            a.wait_meta == b.wait_meta,
            a.recovery_info == b.recovery_info,
            a.curr_idx == b.curr_idx,
            a.next_idx == b.next_idx,
        ensures
            b.wf(),
    {
        assert(a@.queue =~= b@.queue);
        assert(a@.recovery =~= b@.recovery);
    }

    /// A splitter whose slice length starts halfway between `min_unit_size` and
    /// `max_unit_size`.
    pub fn with_max_unit_size(max_unit_size: usize, min_unit_size: usize) -> (r: DefUdpMsgSplit)
        requires
            max_unit_size + min_unit_size <= usize::MAX,
        ensures
            r.wf(),
            r@.cache == UdpMergeCache::empty(),
            r@.last_pop is None,
            r@.last_id == 0,
            r@.max_unit == max_unit_size,
            r@.min_unit == min_unit_size,
            r@.unit == (max_unit_size + min_unit_size) / 2,
            r@.curr is None,
            r@.queue == Seq::<QueuedMsg>::empty(),
            r@.recovery == Seq::<RecoveryInfo>::empty(),
            r@.cache_size == 10,
    {
        let r = DefUdpMsgSplit {
            msg_cache: HashMap::new(),
            logic_id: 0,
            max_unit_size,
            min_unit_size,
            unit_size: (max_unit_size + min_unit_size) / 2,
            wait_data: Vec::new(),
            wait_meta: Vec::new(),
            curr_idx: None,
            cache_size: 10,
            recovery_info: Vec::new(),
            next_idx: None,
            last_pop_logic_id: None,
        };
        assert(r@.cache =~= UdpMergeCache::empty());
        assert(r@.queue =~= Seq::<QueuedMsg>::empty());
        r
    }

    /// The next id in the wrapping sequence `1, 2, ..., MAX, 1, ...`.
    pub fn get_id(&mut self) -> (r: u32)
        ensures
            r == next_id32(old(self)@.last_id),
            final(self)@.last_id == r,
            final(self)@ == (UdpSplitView { last_id: r, ..old(self)@ }),
            old(self).wf() ==> final(self).wf(),
    {
        if self.logic_id == u32::MAX {
            self.logic_id = 0;
        }
        self.logic_id = self.logic_id + 1;
        proof {
            if old(self).wf() {
                Self::lemma_wf_frame(old(self), self);
            }
        }
        self.logic_id
    }

    pub fn greater_than(a: u32, b: u32) -> (r: bool)
        ensures
            r == spec_greater_than(a, b),
    {
        if (a > u32::MAX - 1000 && b < 1000) || (b > u32::MAX - 1000 && a < 1000) {
            return a < b;
        }
        a > b
    }

    pub fn is_max_unit_size(&self) -> (r: bool)
        ensures
            r == (self@.max_unit == self@.unit),
    {
        self.max_unit_size == self.unit_size
    }

    pub fn is_min_unit_size(&self) -> (r: bool)
        ensures
            r == (self@.min_unit == self@.unit),
    {
        self.min_unit_size == self.unit_size
    }

    /// Grows the slice length by a tenth, up to the maximum.
    pub fn up_unit_size(&mut self)
        requires
            old(self)@.unit + old(self)@.unit / 10 <= usize::MAX,
        ensures
            final(self)@.unit == if old(self)@.unit + old(self)@.unit / 10 > old(self)@.max_unit {
                old(self)@.max_unit as int
            } else {
                old(self)@.unit + old(self)@.unit / 10
            },
            final(self)@ == (UdpSplitView { unit: final(self)@.unit, ..old(self)@ }),
            old(self).wf() ==> final(self).wf(),
    {
        let mut n = self.unit_size + (self.unit_size / 10);
        if n > self.max_unit_size {
            n = self.max_unit_size;
        }
        self.unit_size = n;
        proof {
            if old(self).wf() {
                Self::lemma_wf_frame(old(self), self);
            }
        }
    }

    /// Halves the slice length, down to the minimum.
    pub fn down_unit_size(&mut self)
        ensures
            final(self)@.unit == if old(self)@.unit - old(self)@.unit / 2 < old(self)@.min_unit {
                old(self)@.min_unit as int
            } else {
                old(self)@.unit - old(self)@.unit / 2
            },
            final(self)@ == (UdpSplitView { unit: final(self)@.unit, ..old(self)@ }),
            old(self).wf() ==> final(self).wf(),
    {
        let mut n = self.unit_size - (self.unit_size / 2);
        if n < self.min_unit_size {
            n = self.min_unit_size;
        }
        self.unit_size = n;
        proof {
            if old(self).wf() {
                Self::lemma_wf_frame(old(self), self);
            }
        }
    }

    /// Whether a message of `len` bytes goes through the queue of slices.
    pub fn need_split(&self, len: usize) -> (r: bool)
        ensures
            r == (len > self@.unit || self@.queue.len() > 0),
    {
        (self.open() && len > self.max_unit_size()) || self.wait_meta.len() > 0
    }

    pub fn open(&self) -> (r: bool)
        ensures
            r,
    {
        true
    }

    /// The current slice length.
    pub fn max_unit_size(&self) -> (r: usize)
        ensures
            r == self@.unit,
    {
        self.unit_size
    }

    pub fn need_merge(&self, tag: u8) -> (r: bool)
        ensures
            r == (TOKEN_SUBPACKAGE_BEGIN <= tag <= TOKEN_SUBPACKAGE_END),
    {
        tag >= TOKEN_SUBPACKAGE_BEGIN && tag <= TOKEN_SUBPACKAGE_END
    }

    pub fn set_max_unit_size(&mut self, max_unit_size: usize)
        ensures
            final(self)@ == (UdpSplitView { max_unit: max_unit_size, ..old(self)@ }),
            old(self).wf() ==> final(self).wf(),
    {
        self.max_unit_size = max_unit_size;
        proof {
            if old(self).wf() {
                Self::lemma_wf_frame(old(self), self);
            }
        }
    }

    pub fn set_min_unit_size(&mut self, min_unit_size: usize)
        ensures
            final(self)@ == (UdpSplitView { min_unit: min_unit_size, ..old(self)@ }),
            old(self).wf() ==> final(self).wf(),
    {
        self.min_unit_size = min_unit_size;
        proof {
            if old(self).wf() {
                Self::lemma_wf_frame(old(self), self);
            }
        }
    }

    pub fn set_unit_size(&mut self, unit_size: usize)
        ensures
            final(self)@ == (UdpSplitView { unit: unit_size, ..old(self)@ }),
            old(self).wf() ==> final(self).wf(),
    {
        self.unit_size = unit_size;
        proof {
            if old(self).wf() {
                Self::lemma_wf_frame(old(self), self);
            }
        }
    }

    pub fn min_unit_size(&self) -> (r: usize)
        ensures
            r == self@.min_unit,
    {
        self.min_unit_size
    }

    pub fn unit_size(&self) -> (r: usize)
        ensures
            r == self@.unit,
    {
        self.unit_size
    }

    /// Whether a slice is waiting to be sent.
    pub fn need_send(&self) -> (r: bool)
        ensures
            r == (self@.curr is Some && self@.queue.len() > 0),
    {
        self.curr_idx.is_some() && self.wait_meta.len() > 0
    }

    /// Writes the slice `msg` into the message it belongs to; returns the message
    /// once its last slice is written.
    pub fn merge(&mut self, msg: &[u8], ext: u32, tag: u8, sub_head: &[u8]) -> (r: Option<Vec<u8>>)
        requires
            udp_merge_ok(old(self)@.cache, old(self)@.last_pop, msg@, ext, tag, sub_head@),
        ensures
            ({
                let (c, l, o) = spec_udp_merge(
                    old(self)@.cache,
                    old(self)@.last_pop,
                    msg@,
                    ext,
                    tag,
                    sub_head@,
                );
                &&& final(self)@.cache == c
                &&& final(self)@.last_pop == l
                &&& match o {
                    None => r is None,
                    Some(d) => r matches Some(v) && v@ == d,
                }
            }),
            final(self)@.queue == old(self)@.queue,
            final(self)@.recovery == old(self)@.recovery,
            final(self)@.curr == old(self)@.curr,
            final(self)@.unit == old(self)@.unit,
            final(self)@.max_unit == old(self)@.max_unit,
            final(self)@.min_unit == old(self)@.min_unit,
            final(self)@.last_id == old(self)@.last_id,
            final(self)@.cache_size == old(self)@.cache_size,
            old(self).wf() ==> final(self).wf(),
    {
        let r = merge_into(&mut self.msg_cache, &mut self.last_pop_logic_id, msg, ext, tag, sub_head);
        proof {
            if old(self).wf() {
                Self::lemma_wf_frame(old(self), self);
            }
        }
        r
    }
}

/// The cache of a `DefUdpMsgSplit` as plain values.
pub open spec fn cache_view(m: HashMap<u32, (Vec<u8>, u32, u128)>) -> UdpMergeCache {
    Map::new(|k: u32| m@.contains_key(k), |k: u32| (m@[k].0@, m@[k].1, m@[k].2))
}

fn merge_into(
    msg_cache: &mut HashMap<u32, (Vec<u8>, u32, u128)>,
    last_pop_logic_id: &mut Option<u32>,
    msg: &[u8],
    ext: u32,
    tag: u8,
    sub_head: &[u8],
) -> (r: Option<Vec<u8>>)
    requires
        udp_merge_ok(cache_view(*old(msg_cache)), *old(last_pop_logic_id), msg@, ext, tag, sub_head@),
    ensures
        ({
            let (c, l, o) = spec_udp_merge(
                cache_view(*old(msg_cache)),
                *old(last_pop_logic_id),
                msg@,
                ext,
                tag,
                sub_head@,
            );
            &&& cache_view(*final(msg_cache)) == c
            &&& *final(last_pop_logic_id) == l
            &&& match o {
                None => r is None,
                Some(d) => r matches Some(v) && v@ == d,
            }
        }),
    {
        let ghost c0 = cache_view(*msg_cache);
        if let Some(last_lid) = *last_pop_logic_id {
            if last_lid == ext || DefUdpMsgSplit::greater_than(last_lid, ext) {
                return None;
            }
        }
        let mut stream = Stream::new(sub_head);
        proof {
            lemma_pow256_values();
            lemma_be_nat_bound(sub_head@.subrange(0, 16));
            lemma_be_nat_bound(sub_head@.subrange(16, 20));
            lemma_be_nat_bound(sub_head@.subrange(20, 24));
        }
        let ticks = match u128::stream_parse(&mut stream) {
            Some(v) => v,
            None => {
                return None;
            },
        };
        let begin_pos = match u32::stream_parse(&mut stream) {
            Some(v) => v as usize,
            None => {
                return None;
            },
        };
        let msg_len = match u32::stream_parse(&mut stream) {
            Some(v) => v as usize,
            None => {
                return None;
            },
        };
        assert(ticks as nat == head_ticks(sub_head@));
        assert(begin_pos as nat == head_begin(sub_head@));
        assert(msg_len as nat == head_len(sub_head@));
        if msg_len == 0 {
            return None;
        }
        if tag == TOKEN_SUBPACKAGE_BEGIN || tag == TOKEN_SUBPACKAGE || tag == TOKEN_SUBPACKAGE_END {
            if tag == TOKEN_SUBPACKAGE_END && (begin_pos > msg_len || msg.len() != msg_len - begin_pos) {
                return None;
            }
            match msg_cache.remove(&ext) {
                Some(entry) => {
                    let (mut d, pos, t) = entry;
                    if d.len() != msg_len || !(ticks > t) {
                        msg_cache.insert(ext, (d, pos, t));
                        assert(cache_view(*msg_cache) =~= c0);
                        return None;
                    }
                    write_slice(&mut d, begin_pos, msg);
                    let end = (begin_pos + msg.len()) as u32;
                    if tag == TOKEN_SUBPACKAGE_END {
                        *last_pop_logic_id = Some(ext);
                        assert(cache_view(*msg_cache) =~= c0.remove(ext));
                        return Some(d);
                    }
                    msg_cache.insert(ext, (d, end, ticks));
                    assert(cache_view(*msg_cache) =~= c0.insert(
                        ext,
                        (write_at(c0[ext].0, begin_pos as nat, msg@), end, ticks),
                    ));
                    None
                },
                None => {
                    if tag == TOKEN_SUBPACKAGE_BEGIN {
                        let mut d: Vec<u8> = Vec::new();
                        let mut k: usize = 0;
                        while k < msg_len
                            invariant
                                k <= msg_len,
                                d@ == Seq::new(k as nat, |i: int| 0u8),
                            decreases msg_len - k,
                        {
                            d.push(0u8);
                            k = k + 1;
                            assert(d@ =~= Seq::new(k as nat, |i: int| 0u8));
                        }
                        write_slice(&mut d, begin_pos, msg);
                        let end = (begin_pos + msg.len()) as u32;
                        msg_cache.insert(ext, (d, end, ticks));
                        assert(cache_view(*msg_cache) =~= c0.insert(
                            ext,
                            (write_at(Seq::new(msg_len as nat, |i: int| 0u8), begin_pos as nat, msg@), end, ticks),
                        ));
                    } else {
                        assert(cache_view(*msg_cache) =~= c0);
                    }
                    None
                },
            }
        } else {
            None
        }
    }


impl DefUdpMsgSplit {
    /// Drops the messages more than `cache_size` places behind the current one.
    fn check_wait_split_queue(&mut self)
        requires
            old(self).wf(),
        ensures
            final(self)@ == spec_check_wait(old(self)@),
            final(self).wf(),
    {
        if let Some(curr) = self.curr_idx {
            if curr < self.cache_size {
                return;
            }
            let new_top = curr - self.cache_size;
            let ghost v0 = self@;
            proof {
                assert(rec_ok(v0.queue, v0.recovery, 0, curr as nat));
            }
            let mut k: usize = 0;
            while k < new_top
                invariant
                    k <= new_top,
                    new_top <= curr,
                    curr < v0.queue.len(),
                    v0.queue.len() <= u32::MAX,
                    rec_ok(v0.queue, v0.recovery, 0, curr as nat),
                    self@ == remove_front_n(v0, k as nat),
                    self.wait_data@.len() == self.wait_meta@.len(),
                    self.next_idx is None,
                decreases new_top - k,
            {
                self.remove_front();
                k = k + 1;
            }
            proof {
                lemma_remove_front_n(v0, new_top as nat, curr as nat);
            }
            let ghost w = self@;
            self.curr_idx = Some(curr - new_top);
            proof {
                assert(new_top < u32::MAX);
            }
            shift_exec(&mut self.recovery_info, new_top as u32);
            assert(self@.queue =~= w.queue);
            assert(self@ =~= spec_check_wait(v0));
            assert(self.wf()) by {
                let q = self@.queue;
                let r = self@.recovery;
                assert(q =~= v0.queue.skip(new_top as int));
                assert forall|jj: int| 0 <= jj < r.len() implies (#[trigger] r[jj]).2 < q.len()
                    && r[jj].0 == q[r[jj].2 as int].2 && r[jj].1 <= q[r[jj].2 as int].0.len() by {
                    assert(r[jj].2 == w.recovery[jj].2 - new_top);
                }
                assert forall|i: int, jj: int| 0 <= i < jj < r.len() implies (#[trigger] r[i]).2
                    <= (#[trigger] r[jj]).2 by {
                    assert(w.recovery[i].2 <= w.recovery[jj].2);
                }
            }
        }
    }

    /// Moves the current index to the next queued message, or to none past the last.
    fn move_next_msg(&mut self)
        requires
            old(self).wf(),
            old(self)@.curr is Some,
        ensures
            final(self)@ == (UdpSplitView {
                curr: if old(self)@.curr.unwrap() + 1 < old(self)@.queue.len() {
                    Some((old(self)@.curr.unwrap() + 1) as usize)
                } else {
                    None
                },
                ..old(self)@
            }),
            final(self).wait_data == old(self).wait_data,
            final(self).wait_meta == old(self).wait_meta,
            final(self).recovery_info == old(self).recovery_info,
            final(self).next_idx == old(self).next_idx,
    {
        let v = self.curr_idx.unwrap();
        if v + 1 < self.wait_meta.len() {
            self.curr_idx = Some(v + 1);
        } else {
            self.curr_idx = None;
        }
    }

    /// Queues `v` under a fresh id, after trimming the queue.
    pub fn push_msg(&mut self, v: Vec<u8>)
        requires
            old(self).wf(),
            spec_check_wait(old(self)@).queue.len() < u32::MAX,
        ensures
            final(self).wf(),
            final(self)@ == spec_push(old(self)@, v@),
    {
        self.check_wait_split_queue();
        let id = self.get_id();
        let ghost w = self@;
        let ghost d0 = self.wait_data@;
        let ghost m0 = self.wait_meta@;
        self.wait_data.push(v);
        self.wait_meta.push((0usize, id, 0u32));
        if self.curr_idx.is_none() {
            self.curr_idx = Some(self.wait_meta.len() - 1);
        }
        proof {
            let q = self@.queue;
            assert forall|k: int| 0 <= k < w.queue.len() implies #[trigger] q[k] == w.queue[k] by {
                assert(self.wait_data@[k] == d0[k]);
                assert(self.wait_meta@[k] == m0[k]);
            }
            assert(q =~= w.queue.push((v@, 0usize, id, 0u32)));
            assert(self@ =~= spec_push(old(self)@, v@));
            let r = self@.recovery;
            assert forall|j: int| 0 <= j < r.len() implies (#[trigger] r[j]).2 < q.len() && r[j].0
                == q[r[j].2 as int].2 && r[j].1 <= q[r[j].2 as int].0.len() by {
                assert(q[r[j].2 as int] == w.queue[r[j].2 as int]);
            }
        }
    }

    /// Cuts the next slice of the current message, stamped with send time `ticks`.
    pub fn pop_msg_at(&mut self, ticks: u128) -> (r: Option<(Vec<u8>, u32, u8, MsgSlicesInfo)>)
        requires
            old(self).wf(),
            pop_ok(old(self)@),
        ensures
            final(self).wf(),
            final(self)@ == spec_pop(old(self)@, ticks).0,
            match spec_pop(old(self)@, ticks).1 {
                None => r is None,
                Some((sli, ext, tag, head)) => r matches Some(x) && x.0@ == sli && x.1 == ext
                    && x.2 == tag && match head {
                    None => x.3 is Complete,
                    Some(h) => x.3 matches MsgSlicesInfo::Part(hv) && hv@ == h,
                },
            },
    {
        let curr_idx = match self.curr_idx {
            Some(v) => v,
            None => {
                return None;
            },
        };
        let ghost v0 = self@;
        let wait_len = self.wait_meta.len();
        let (pos, lid, sub) = self.wait_meta[curr_idx];
        let dlen = self.wait_data[curr_idx].len();
        let mut end = dlen - pos <= self.unit_size;
        let e = if end {
            dlen
        } else {
            pos + self.unit_size
        };
        let sli = copy_range(self.wait_data[curr_idx].as_slice(), pos, e);
        let begin = pos == 0;
        if begin && end && sli.len() > self.min_unit_size {
            end = false;
        }
        let res;
        let move_next;
        if begin && end {
            move_next = true;
            self.wait_meta.set(curr_idx, (e, lid, sub));
            res = Some((sli, 0u32, TOKEN_NORMAL, MsgSlicesInfo::Complete));
        } else {
            let mut head: Vec<u8> = Vec::new();
            proof {
                lemma_pow256_values();
            }
            push_be(&mut head, ticks, 16);
            push_be(&mut head, (pos as u32) as u128, 4);
            push_be(&mut head, (dlen as u32) as u128, 4);
            push_be(&mut head, sub as u128, 4);
            assert(head@ =~= sub_head(ticks, pos as u32, dlen as u32, sub));
            self.recovery_info.push((lid, pos as u32, curr_idx as u32, sub));
            self.wait_meta.set(curr_idx, (e, lid, sub + 1));
            let tag = if begin {
                TOKEN_SUBPACKAGE_BEGIN
            } else if end {
                TOKEN_SUBPACKAGE_END
            } else {
                TOKEN_SUBPACKAGE
            };
            move_next = end;
            res = Some((sli, lid, tag, MsgSlicesInfo::Part(head)));
        }
        if move_next {
            if self.next_idx.is_some() {
                self.curr_idx = self.next_idx;
                self.next_idx = None;
            } else if curr_idx + 1 < wait_len {
                self.curr_idx = Some(curr_idx + 1);
            } else {
                self.curr_idx = None;
            }
        }
        proof {
            let m = v0.queue[curr_idx as int];
            assert(m.0 == self.wait_data@[curr_idx as int]@);
            assert(self@.queue =~= spec_pop(v0, ticks).0.queue);
            assert(self@.recovery =~= spec_pop(v0, ticks).0.recovery);
            assert(self@ =~= spec_pop(v0, ticks).0);
            let q = self@.queue;
            let r = self@.recovery;
            assert forall|k: int| 0 <= k < q.len() implies #[trigger] q[k].1 <= q[k].0.len() by {
                if k != curr_idx {
                    assert(q[k] == v0.queue[k]);
                }
            }
            assert forall|j: int| 0 <= j < r.len() implies (#[trigger] r[j]).2 < q.len() && r[j].0
                == q[r[j].2 as int].2 && r[j].1 <= q[r[j].2 as int].0.len() by {
                if j < v0.recovery.len() {
                    assert(r[j] == v0.recovery[j]);
                }
            }
            assert forall|i: int, j: int| 0 <= i < j < r.len() implies (#[trigger] r[i]).2 <= (
            #[trigger] r[j]).2 by {
                if j < v0.recovery.len() {
                    assert(r[j] == v0.recovery[j]);
                }
                assert(r[i] == v0.recovery[i]);
            }
        }
        res
    }

    /// Cuts the next slice of the current message, stamped with the current time.
    pub fn pop_msg(&mut self) -> (r: Option<(Vec<u8>, u32, u8, MsgSlicesInfo)>)
        requires
            old(self).wf(),
            pop_ok(old(self)@),
        ensures
            final(self).wf(),
            exists|ticks: u128|
                {
                    &&& final(self)@ == spec_pop(old(self)@, ticks).0
                    &&& #[trigger] pop_result_is(r, spec_pop(old(self)@, ticks).1)
                },
    {
        let ticks = now_nanos();
        let r = self.pop_msg_at(ticks);
        assert(pop_result_is(r, spec_pop(old(self)@, ticks).1));
        r
    }

    /// Rewinds the current message to the last sent slice of message `id`, so that
    /// the slice is sent again; tells whether it did.
    pub fn recovery(&mut self, id: u32) -> (r: bool)
        requires
            old(self).wf(),
        ensures
            final(self).wf(),
            (final(self)@, r) == spec_recovery(old(self)@, id),
    {
        let ghost v0 = self@;
        let n = self.recovery_info.len();
        if n == 0 {
            return false;
        }
        let (lid, bpos, bidx, bsub) = self.recovery_info[n - 1];
        if lid != id {
            return false;
        }
        if let Some(idx) = self.curr_idx {
            if bidx as usize > idx {
                return false;
            }
        }
        let _ = self.recovery_info.pop();
        self.curr_idx = Some(bidx as usize);
        let (_p, mlid, _s) = self.wait_meta[bidx as usize];
        self.wait_meta.set(bidx as usize, (bpos as usize, mlid, bsub));
        proof {
            assert(self@.queue =~= spec_recovery(v0, id).0.queue);
            assert(self@.recovery =~= v0.recovery.drop_last());
            assert(self@ =~= spec_recovery(v0, id).0);
            let q = self@.queue;
            let r = self@.recovery;
            assert forall|k: int| 0 <= k < q.len() implies #[trigger] q[k].1 <= q[k].0.len() by {
                if k != bidx {
                    assert(q[k] == v0.queue[k]);
                }
            }
            assert forall|j: int| 0 <= j < r.len() implies (#[trigger] r[j]).2 < q.len() && r[j].0
                == q[r[j].2 as int].2 && r[j].1 <= q[r[j].2 as int].0.len() by {
                assert(r[j] == v0.recovery[j]);
            }
            assert forall|j: int| 0 <= j < r.len() implies (#[trigger] r[j]).2 <= bidx by {
                assert(r[j] == v0.recovery[j]);
                assert(v0.recovery[j].2 <= v0.recovery[n - 1].2);
            }
        }
        true
    }

    /// Drops the oldest queued message and its leading recovery entries.
    fn remove_front(&mut self) -> (r: bool)
        requires
            old(self).wait_data@.len() == old(self).wait_meta@.len(),
        ensures
            r == (old(self)@.queue.len() > 0),
            final(self)@ == spec_remove_front(old(self)@),
            final(self).wait_data@.len() == final(self).wait_meta@.len(),
            final(self).next_idx == old(self).next_idx,
    {
        if self.wait_meta.len() > 0 {
            let ghost v0 = self@;
            let _d = self.wait_data.remove(0);
            let (_p, lid, _s) = self.wait_meta.remove(0);
            assert(lid == v0.queue[0].2);
            drop_lead_exec(&mut self.recovery_info, lid);
            assert(self@.queue =~= v0.queue.drop_first());
            assert(self@ =~= spec_remove_front(v0));
            true
        } else {
            false
        }
    }
}

/// The recovery entries `r` name messages of `q` from index `k` up to `hi`, in queue order.
pub open spec fn rec_ok(q: Seq<QueuedMsg>, r: Seq<RecoveryInfo>, k: nat, hi: nat) -> bool {
    &&& forall|j: int|
        0 <= j < r.len() ==> k <= (#[trigger] r[j]).2 < q.len() && r[j].2 <= hi && r[j].0 == q[r[j].2 as int].2
            && r[j].1 <= q[r[j].2 as int].0.len()
    &&& forall|i: int, j: int| 0 <= i < j < r.len() ==> (#[trigger] r[i]).2 <= (#[trigger] r[j]).2
}

/// How many leading entries of `r` have id `lid`.
pub open spec fn lead_count(r: Seq<RecoveryInfo>, lid: u32) -> nat
    decreases r.len(),
{
    if r.len() > 0 && r[0].0 == lid {
        1 + lead_count(r.drop_first(), lid)
    } else {
        0
    }
}

proof fn lemma_drop_lead(r: Seq<RecoveryInfo>, lid: u32)
    ensures
        lead_count(r, lid) <= r.len(),
        drop_lead(r, lid) == r.skip(lead_count(r, lid) as int),
        lead_count(r, lid) < r.len() ==> r[lead_count(r, lid) as int].0 != lid,
        forall|j: int| 0 <= j < lead_count(r, lid) ==> #[trigger] r[j].0 == lid,
    decreases r.len(),
{
    if r.len() > 0 && r[0].0 == lid {
        lemma_drop_lead(r.drop_first(), lid);
        assert(r.drop_first().skip(lead_count(r.drop_first(), lid) as int) =~= r.skip(
            lead_count(r, lid) as int,
        ));
        assert forall|j: int| 0 <= j < lead_count(r, lid) implies #[trigger] r[j].0 == lid by {
            if j > 0 {
                assert(r[j] == r.drop_first()[j - 1]);
            }
        }
    } else {
        assert(r.skip(0) =~= r);
    }
}

proof fn lemma_rec_ok_step(q: Seq<QueuedMsg>, r: Seq<RecoveryInfo>, k: nat, hi: nat)
    requires
        rec_ok(q, r, k, hi),
        k < q.len(),
    ensures
        rec_ok(q, drop_lead(r, q[k as int].2), k + 1, hi),
{
    let lid = q[k as int].2;
    lemma_drop_lead(r, lid);
    let n = lead_count(r, lid);
    let r2 = drop_lead(r, lid);
    if n < r.len() {
        assert(r[n as int].2 != k);
        assert forall|j: int| 0 <= j < r2.len() implies k + 1 <= (#[trigger] r2[j]).2 by {
            assert(r2[j] == r[n + j]);
            assert(r[n as int].2 <= r[n + j].2);
        }
    }
    assert forall|i: int, j: int| 0 <= i < j < r2.len() implies (#[trigger] r2[i]).2 <= (
    #[trigger] r2[j]).2 by {
        assert(r2[i] == r[n + i]);
        assert(r2[j] == r[n + j]);
    }
}

proof fn lemma_remove_front_n(v: UdpSplitView, n: nat, hi: nat)
    requires
        n <= v.queue.len(),
        rec_ok(v.queue, v.recovery, 0, hi),
    ensures
        remove_front_n(v, n).queue == v.queue.skip(n as int),
        rec_ok(v.queue, remove_front_n(v, n).recovery, n, hi),
        remove_front_n(v, n) == (UdpSplitView {
            queue: remove_front_n(v, n).queue,
            recovery: remove_front_n(v, n).recovery,
            ..v
        }),
    decreases n,
{
    if n == 0 {
        assert(v.queue.skip(0) =~= v.queue);
    } else {
        lemma_remove_front_n(v, (n - 1) as nat, hi);
        let w = remove_front_n(v, (n - 1) as nat);
        assert(w.queue[0] == v.queue[n - 1]);
        lemma_rec_ok_step(v.queue, w.recovery, (n - 1) as nat, hi);
        assert(w.queue.drop_first() =~= v.queue.skip(n as int));
    }
}

/// `r` is what `pop_msg` returns for the slice `s`.
pub open spec fn pop_result_is(
    r: Option<(Vec<u8>, u32, u8, MsgSlicesInfo)>,
    s: Option<(Seq<u8>, u32, u8, Option<Seq<u8>>)>,
) -> bool {
    match s {
        None => r is None,
        Some((sli, ext, tag, head)) => r matches Some(x) && x.0@ == sli && x.1 == ext && x.2 == tag
            && match head {
            None => x.3 is Complete,
            Some(h) => x.3 matches MsgSlicesInfo::Part(hv) && hv@ == h,
        },
    }
}

/// The system clock's time, `std::time::SystemTime`.
#[verifier::external_type_specification]
#[verifier::external_body]
pub struct ExSystemTime(std::time::SystemTime);

/// Reads the system clock (`SystemTime::now`); nothing is promised of the time.
#[verifier::external_body]
fn system_now() -> std::time::SystemTime {
    std::time::SystemTime::now()
}

/// How long after the Unix epoch `t` lies (`SystemTime::duration_since` with
/// `UNIX_EPOCH`), or `None` for a time before it; nothing more is promised.
#[verifier::external_body]
fn since_epoch(t: &std::time::SystemTime) -> Option<std::time::Duration> {
    match t.duration_since(std::time::UNIX_EPOCH) {
        Ok(d) => Some(d),
        Err(_) => None,
    }
}

/// The whole nanoseconds of `d` (`Duration::as_nanos`); nothing is promised of them.
#[verifier::external_body]
fn duration_nanos(d: &std::time::Duration) -> u128 {
    d.as_nanos()
}

/// Nanoseconds since the Unix epoch, read from the system clock; 0 for a clock set
/// before the epoch.
pub(crate) fn now_nanos() -> u128 {
    match since_epoch(&system_now()) {
        Some(d) => duration_nanos(&d),
        None => 0,
    }
}

/// Moves the queue index of every entry of `r` down by `top`.
fn shift_exec(r: &mut Vec<(u32, u32, u32, u32)>, top: u32)
    requires
        forall|j: int| 0 <= j < old(r)@.len() ==> #[trigger] old(r)@[j].2 >= top,
    ensures
        final(r)@ == shift_recovery(old(r)@, top as nat),
{
    let n = r.len();
    let mut j: usize = 0;
    while j < n
        invariant
            n == old(r)@.len(),
            j <= n,
            r@.len() == n,
            forall|i: int| 0 <= i < n ==> #[trigger] old(r)@[i].2 >= top,
            forall|i: int|
                0 <= i < j ==> #[trigger] r@[i] == shift_recovery(old(r)@, top as nat)[i],
            forall|i: int| j <= i < n ==> #[trigger] r@[i] == old(r)@[i],
        decreases n - j,
    {
        let (a, b, c, d) = r[j];
        r.set(j, (a, b, c - top, d));
        j = j + 1;
    }
    assert(r@ =~= shift_recovery(old(r)@, top as nat));
}

/// Drops the leading entries of `r` whose id is `lid`.
fn drop_lead_exec(r: &mut Vec<(u32, u32, u32, u32)>, lid: u32)
    ensures
        final(r)@ == drop_lead(old(r)@, lid),
{
    while r.len() > 0 && r[0].0 == lid
        invariant
            drop_lead(r@, lid) == drop_lead(old(r)@, lid),
        decreases r@.len(),
    {
        let ghost before = r@;
        r.remove(0);
        assert(r@ =~= before.drop_first());
    }
}

/// Writes `m` over `d` from index `pos`.
pub fn write_slice(d: &mut Vec<u8>, pos: usize, m: &[u8])
    requires
        pos + m@.len() <= old(d)@.len(),
    ensures
        final(d)@ == write_at(old(d)@, pos as nat, m@),
{
    let dl = d.len();
    let mut i: usize = 0;
    while i < m.len()
        invariant
            dl == d@.len(),
            pos + m@.len() <= d@.len(),
            d@.len() == old(d)@.len(),
            i <= m@.len(),
            d@ == old(d)@.subrange(0, pos as int) + m@.subrange(0, i as int) + old(d)@.subrange(
                pos + i,
                old(d)@.len() as int,
            ),
        decreases m@.len() - i,
    {
        d.set(pos + i, m[i]);
        i = i + 1;
        assert(d@ =~= old(d)@.subrange(0, pos as int) + m@.subrange(0, i as int) + old(
            d,
        )@.subrange(pos + i, old(d)@.len() as int));
    }
    assert(m@.subrange(0, m@.len() as int) =~= m@);
}

} // verus!

verus! {

/// After `pop_msg` cuts a slice of several from the current message, `recovery` with
/// that message's id rewinds the splitter to exactly the state before the cut, so the
/// same slice is cut again.
pub proof fn lemma_recovery_undoes_pop(v: UdpSplitView, ticks: u128)
    requires
        v.curr matches Some(c) && c < v.queue.len() && c < u32::MAX && v.queue[c as int].1
            <= v.queue[c as int].0.len() && v.queue[c as int].1 <= u32::MAX && forall|j: int|
            0 <= j < v.recovery.len() ==> #[trigger] v.recovery[j].2 <= c,
        spec_pop(v, ticks).1 matches Some((_, _, _, head)) && head is Some,
    ensures
        spec_recovery(spec_pop(v, ticks).0, v.queue[v.curr.unwrap() as int].2) == (v, true),
{
    let c = v.curr.unwrap();
    let m = v.queue[c as int];
    let w = spec_pop(v, ticks).0;
    assert(w.recovery.last() == (m.2, m.1 as u32, c as u32, m.3));
    assert(w.recovery.drop_last() =~= v.recovery);
    assert((m.1 as u32) as usize == m.1);
    assert((c as u32) as usize == c);
    let end0 = m.0.len() - m.1 <= v.unit;
    let e: int = if end0 {
        m.0.len() as int
    } else {
        m.1 + v.unit
    };
    let begin = m.1 == 0;
    let end = end0 && !(begin && m.0.subrange(m.1 as int, e).len() > v.min_unit);
    assert(!(begin && end));
    if end {
        assert(w.curr == (if c + 1 < v.queue.len() {
            Some((c + 1) as usize)
        } else {
            None
        }));
    } else {
        assert(w.curr == Some(c));
    }
    assert(w.queue[c as int].0 == m.0 && w.queue[c as int].2 == m.2);
    assert(w.queue.update(c as int, (m.0, m.1, m.2, m.3)) =~= v.queue);
    let b = w.recovery.last();
    assert(b.0 == m.2);
    assert(b.2 == c);
    assert(((c + 1) as usize) == c + 1);
    assert(!(w.curr matches Some(cc) && b.2 > cc));
    let r = spec_recovery(w, m.2).0;
    assert(r.recovery =~= v.recovery);
    assert(r.curr == v.curr);
    assert(r.queue =~= v.queue);
    assert(r =~= v);
}

} // verus!

verus! {

/// The slices still to be cut from the queue from index `k` on: for each message, its
/// remaining bytes plus one.
pub open spec fn work_from(q: Seq<QueuedMsg>, k: int) -> nat
    decreases q.len() - k,
{
    if k < 0 || k >= q.len() {
        0
    } else {
        ((q[k].0.len() - q[k].1) + 1) as nat + work_from(q, k + 1)
    }
}

/// The work left before every queued message has been cut into slices.
pub open spec fn split_work(v: UdpSplitView) -> nat {
    match v.curr {
        None => 0,
        Some(c) => work_from(v.queue, c as int),
    }
}

proof fn lemma_work_from_update(q: Seq<QueuedMsg>, c: int, x: QueuedMsg, k: int)
    requires
        0 <= c < q.len(),
        c < k,
    ensures
        work_from(q.update(c, x), k) == work_from(q, k),
    decreases q.len() - k,
{
    if 0 <= k < q.len() {
        lemma_work_from_update(q, c, x, k + 1);
    }
}

impl DefUdpMsgSplit {
    /// Whether `merge` accepts these arguments (else it would fail on them).
    pub fn merge_ok(&self, msg: &[u8], ext: u32, tag: u8, head: &[u8]) -> (r: bool)
        ensures
            r == udp_merge_ok(self@.cache, self@.last_pop, msg@, ext, tag, head@),
    {
        match self.last_pop_logic_id {
            Some(l) => {
                if l == ext || Self::greater_than(l, ext) {
                    return true;
                }
            },
            None => {},
        }
        if head.len() < SUB_HEAD_LEN {
            return false;
        }
        proof {
            lemma_pow256_values();
            lemma_be_nat_bound(head@.subrange(0, 16));
            lemma_be_nat_bound(head@.subrange(16, 20));
            lemma_be_nat_bound(head@.subrange(20, 24));
        }
        let ticks = read_be(head, 0, 16);
        let begin = read_be(head, 16, 4);
        let hlen = read_be(head, 20, 4);
        let refused = match self.last_pop_logic_id {
            Some(l) => l == ext || Self::greater_than(l, ext),
            None => false,
        } || hlen == 0;
        let fits = begin + (msg.len() as u128) <= hlen;
        if refused {
            return true;
        }
        let writes = match self.msg_cache.get(&ext) {
            Some(entry) => (tag == TOKEN_SUBPACKAGE_BEGIN || tag == TOKEN_SUBPACKAGE || (tag
                == TOKEN_SUBPACKAGE_END && begin + (msg.len() as u128) == hlen)) && entry.0.len()
                as u128 == hlen && ticks > entry.2,
            None => tag == TOKEN_SUBPACKAGE_BEGIN,
        };
        !writes || fits
    }

    /// Whether the next slice can be cut without its slice index passing the top.
    pub fn can_pop(&self) -> (r: bool)
        requires
            self.wf(),
        ensures
            r == pop_ok(self@),
    {
        match self.curr_idx {
            None => true,
            Some(c) => {
                let (pos, _lid, sub) = self.wait_meta[c];
                let dlen = self.wait_data[c].len();
                proof {
                    assert(self@.queue[c as int].1 <= self@.queue[c as int].0.len());
                    assert(self@.queue[c as int].0 == self.wait_data@[c as int]@);
                }
                let end0 = dlen - pos <= self.unit_size;
                let e = if end0 {
                    dlen
                } else {
                    pos + self.unit_size
                };
                let whole = pos == 0 && end0 && e - pos <= self.min_unit_size;
                proof {
                    assert(self@.queue[c as int].0 == self.wait_data@[c as int]@);
                }
                whole || sub < u32::MAX
            },
        }
    }

    /// Cutting a slice leaves less work, when slices are at least one byte long.
    pub proof fn lemma_pop_decreases(v: UdpSplitView, ticks: u128)
        requires
            v.unit > 0,
            v.curr is Some,
            v.curr->0 < v.queue.len(),
            v.queue.len() <= u32::MAX,
            forall|k: int|
                0 <= k < v.queue.len() ==> #[trigger] v.queue[k].1 <= v.queue[k].0.len() <= usize::MAX,
        ensures
            split_work(spec_pop(v, ticks).0) < split_work(v),
    {
        let c = v.curr->0 as int;
        let m = v.queue[c];
        let w = spec_pop(v, ticks).0;
        let end0 = m.0.len() - m.1 <= v.unit;
        let e: int = if end0 {
            m.0.len() as int
        } else {
            m.1 + v.unit
        };
        let x = w.queue[c];
        let sli = m.0.subrange(m.1 as int, e as int);
        let begin = m.1 == 0;
        let end = end0 && !(begin && sli.len() > v.min_unit);
        assert(w.queue == v.queue.update(c, x));
        lemma_work_from_update(v.queue, c, x, c + 1);
        assert(work_from(v.queue, c) == ((m.0.len() - m.1) + 1) as nat + work_from(v.queue, c + 1));
        if begin && end || end {
            if c + 1 < v.queue.len() {
                assert(w.curr == Some((c + 1) as usize));
            } else {
                assert(w.curr is None);
            }
        } else {
            assert(w.curr == v.curr);
            assert(x.1 == e);
            assert(e > m.1);
            assert(work_from(w.queue, c) == ((x.0.len() - x.1) + 1) as nat + work_from(w.queue, c + 1));
        }
    }
}

} // verus!

verus! {

impl DefUdpMsgSplit {
    /// On a well-formed splitter, after `pop_msg` cuts a slice of several from the
    /// current message (one shorter than four gigabytes, as sub-headers record it),
    /// `recovery` with that message's id rewinds the splitter to exactly the state
    /// before the cut, so that the same slice is cut again, and `recovery` with any
    /// other id refuses and changes nothing.
    pub proof fn lemma_recovery_after_pop(&self, ticks: u128)
        requires
            self.wf(),
            self@.curr matches Some(c) && self@.queue[c as int].0.len() <= u32::MAX,
            spec_pop(self@, ticks).1 matches Some((_, _, _, head)) && head is Some,
        ensures
            spec_recovery(spec_pop(self@, ticks).0, self@.queue[self@.curr.unwrap() as int].2) == (self@, true),
            forall|x: u32|
                x != self@.queue[self@.curr.unwrap() as int].2 ==> #[trigger] spec_recovery(
                    spec_pop(self@, ticks).0,
                    x,
                ) == (spec_pop(self@, ticks).0, false),
    {
        let c = self@.curr.unwrap();
        assert(self@.queue[c as int].1 <= self@.queue[c as int].0.len());
        lemma_recovery_undoes_pop(self@, ticks);
    }

    /// Bounds that hold of every well-formed splitter.
    pub proof fn lemma_wf_bounds(&self)
        requires
            self.wf(),
        ensures
            self@.queue.len() <= u32::MAX,
            self@.curr matches Some(c) ==> c < self@.queue.len(),
            forall|k: int|
                0 <= k < self@.queue.len() ==> #[trigger] self@.queue[k].1 <= self@.queue[k].0.len()
                    <= usize::MAX,
    {
        assert forall|k: int| 0 <= k < self@.queue.len() implies #[trigger] self@.queue[k].1
            <= self@.queue[k].0.len() <= usize::MAX by {
            assert(self@.queue[k].0 == self.wait_data@[k]@);
            assert(self.wait_data@[k].len() == self.wait_data@[k]@.len());
        }
    }
}

} // verus!

verus! {

proof fn lemma_remove_front_len(v: UdpSplitView, n: nat)
    requires
        n <= v.queue.len(),
    ensures
        remove_front_n(v, n).queue.len() == v.queue.len() - n,
    decreases n,
{
    if n > 0 {
        lemma_remove_front_len(v, (n - 1) as nat);
    }
}

impl DefUdpMsgSplit {
    proof fn lemma_check_wait_len(&self)
        requires
            self.wf(),
        ensures
            spec_check_wait(self@).queue.len() == match self@.curr {
                Some(c) => if c >= self@.cache_size {
                    self@.queue.len() - (c - self@.cache_size)
                } else {
                    self@.queue.len() as int
                },
                None => self@.queue.len() as int,
            },
    {
        match self@.curr {
            Some(c) => if c >= self@.cache_size {
                lemma_remove_front_len(self@, (c - self@.cache_size) as nat);
            },
            None => {},
        }
    }

    /// Whether one more message can be queued.
    pub fn queue_room(&self) -> (r: bool)
        requires
            self.wf(),
        ensures
            r == (spec_check_wait(self@).queue.len() < u32::MAX),
    {
        let n = self.wait_meta.len();
        let keep = match self.curr_idx {
            Some(c) => if c >= self.cache_size {
                n - (c - self.cache_size)
            } else {
                n
            },
            None => n,
        };
        proof {
            self.lemma_check_wait_len();
        }
        keep < 0xffff_ffffusize
    }
}

} // verus!

verus! {

impl DefUdpMsgSplit {
    /// Trimming the queue never lengthens it.
    pub proof fn lemma_check_wait_shrinks(&self)
        requires
            self.wf(),
        ensures
            spec_check_wait(self@).queue.len() <= self@.queue.len(),
            spec_push(self@, Seq::empty()).queue.len() == spec_check_wait(self@).queue.len() + 1,
    {
        self.lemma_check_wait_len();
    }
}

} // verus!

verus! {

impl DefUdpMsgSplit {
    /// The number of queued messages.
    pub fn queue_len(&self) -> (r: usize)
        ensures
            r == self@.queue.len(),
    {
        self.wait_meta.len()
    }
}

} // verus!

verus! {

/// Splitting of outgoing messages into datagram-sized slices whose length adapts,
/// and merging of received slices.
pub trait UdpMsgSplit: Sized {
    fn with_max_unit_size(max_unit_size: usize, min_unit_size: usize) -> Self
        requires
            max_unit_size + min_unit_size <= usize::MAX,
    ;

    fn is_max_unit_size(&self) -> bool;

    fn is_min_unit_size(&self) -> bool;

    fn down_unit_size(&mut self);

    fn need_split(&self, len: usize) -> bool;

    fn open(&self) -> bool;

    fn max_unit_size(&self) -> usize;

    fn need_merge(&self, tag: u8) -> bool;

    fn set_max_unit_size(&mut self, max_unit_size: usize);

    fn set_min_unit_size(&mut self, min_unit_size: usize);

    fn min_unit_size(&self) -> usize;

    fn unit_size(&self) -> usize;

    fn need_send(&self) -> bool;
}

impl UdpMsgSplit for DefUdpMsgSplit {
    fn with_max_unit_size(max_unit_size: usize, min_unit_size: usize) -> (r: DefUdpMsgSplit)
        ensures
            r.wf(),
            r@.max_unit == max_unit_size,
            r@.min_unit == min_unit_size,
            r@.unit == (max_unit_size + min_unit_size) / 2,
    {
        DefUdpMsgSplit::with_max_unit_size(max_unit_size, min_unit_size)
    }

    fn is_max_unit_size(&self) -> (r: bool)
        ensures
            r == (self@.max_unit == self@.unit),
    {
        DefUdpMsgSplit::is_max_unit_size(self)
    }

    fn is_min_unit_size(&self) -> (r: bool)
        ensures
            r == (self@.min_unit == self@.unit),
    {
        DefUdpMsgSplit::is_min_unit_size(self)
    }

    fn down_unit_size(&mut self)
        ensures
            final(self)@.unit == if old(self)@.unit - old(self)@.unit / 2 < old(self)@.min_unit {
                old(self)@.min_unit as int
            } else {
                old(self)@.unit - old(self)@.unit / 2
            },
    {
        DefUdpMsgSplit::down_unit_size(self)
    }

    fn need_split(&self, len: usize) -> (r: bool)
        ensures
            r == (len > self@.unit || self@.queue.len() > 0),
    {
        DefUdpMsgSplit::need_split(self, len)
    }

    fn open(&self) -> (r: bool)
        ensures
            r,
    {
        DefUdpMsgSplit::open(self)
    }

    fn max_unit_size(&self) -> (r: usize)
        ensures
            r == self@.unit,
    {
        DefUdpMsgSplit::max_unit_size(self)
    }

    fn need_merge(&self, tag: u8) -> (r: bool)
        ensures
            r == (TOKEN_SUBPACKAGE_BEGIN <= tag <= TOKEN_SUBPACKAGE_END),
    {
        DefUdpMsgSplit::need_merge(self, tag)
    }

    fn set_max_unit_size(&mut self, max_unit_size: usize)
        ensures
            final(self)@ == (UdpSplitView { max_unit: max_unit_size, ..old(self)@ }),
    {
        DefUdpMsgSplit::set_max_unit_size(self, max_unit_size)
    }

    fn set_min_unit_size(&mut self, min_unit_size: usize)
        ensures
            final(self)@ == (UdpSplitView { min_unit: min_unit_size, ..old(self)@ }),
    {
        DefUdpMsgSplit::set_min_unit_size(self, min_unit_size)
    }

    fn min_unit_size(&self) -> (r: usize)
        ensures
            r == self@.min_unit,
    {
        DefUdpMsgSplit::min_unit_size(self)
    }

    fn unit_size(&self) -> (r: usize)
        ensures
            r == self@.unit,
    {
        DefUdpMsgSplit::unit_size(self)
    }

    fn need_send(&self) -> (r: bool)
        ensures
            r == (self@.curr is Some && self@.queue.len() > 0),
    {
        DefUdpMsgSplit::need_send(self)
    }
}

} // verus!

verus! {

/// The fields of a sub-header read back what it was made of.
proof fn lemma_sub_head_fields(ticks: u128, pos: u32, len: u32, idx: u32)
    ensures
        sub_head(ticks, pos, len, idx).len() == SUB_HEAD_LEN,
        head_ticks(sub_head(ticks, pos, len, idx)) == ticks,
        head_begin(sub_head(ticks, pos, len, idx)) == pos,
        head_len(sub_head(ticks, pos, len, idx)) == len,
        head_idx(sub_head(ticks, pos, len, idx)) == idx,
{
    lemma_pow256_values();
    lemma_be_roundtrip(ticks as nat, 16);
    lemma_be_roundtrip(pos as nat, 4);
    lemma_be_roundtrip(len as nat, 4);
    lemma_be_roundtrip(idx as nat, 4);
    let h = sub_head(ticks, pos, len, idx);
    assert(h.subrange(0, 16) =~= be_bytes(ticks as nat, 16));
    assert(h.subrange(16, 20) =~= be_bytes(pos as nat, 4));
    assert(h.subrange(20, 24) =~= be_bytes(len as nat, 4));
    assert(h.subrange(24, 28) =~= be_bytes(idx as nat, 4));
}

/// The receiver holds under `id` a buffer as long as the message `m` whose first `p`
/// bytes are those of `m`, written last by a slice ending at `p` and sent at `t`.
pub open spec fn holds_prefix(cache: UdpMergeCache, id: u32, m: Seq<u8>, p: nat, t: u128) -> bool {
    &&& cache.contains_key(id)
    &&& cache[id].0.len() == m.len()
    &&& cache[id].0.subrange(0, p as int) == m.subrange(0, p as int)
    &&& cache[id].1 == p
    &&& cache[id].2 == t
}

/// The splitter is cutting its current message (longer than the shortest slice, and
/// shorter than four gigabytes) into several slices, and the receiver, which has not
/// completed that message, holds all of it that was cut so far: nothing before the first
/// slice, the last slice sent at `t` after.
pub open spec fn in_transfer(v: UdpSplitView, cache: UdpMergeCache, last: Option<u32>, t: u128) -> bool {
    v.curr matches Some(c) && c < v.queue.len() && {
        let m = v.queue[c as int];
        &&& m.1 <= m.0.len() <= u32::MAX
        &&& m.0.len() > v.min_unit
        &&& !merge_done(last, m.2)
        &&& if m.1 == 0 {
            !cache.contains_key(m.2)
        } else {
            holds_prefix(cache, m.2, m.0, m.1 as nat, t)
        }
    }
}

/// Where the next slice of a `len`-byte message cut from `p` into slices of `unit`
/// bytes ends.
pub open spec fn next_pos(len: nat, p: nat, unit: nat) -> nat {
    if len - p <= unit {
        len
    } else {
        p + unit
    }
}

/// How many slices are still cut from a `len`-byte message split from position `p`
/// into slices of `unit` bytes: a message that fits one slice whole is followed by an
/// empty closing slice.
pub open spec fn slices_left(len: nat, p: nat, unit: nat) -> nat
    decreases len - p,
{
    if len - p <= unit {
        if p > 0 {
            1
        } else {
            2
        }
    } else if unit == 0 {
        0
    } else {
        1 + slices_left(len, p + unit, unit)
    }
}

/// Cutting the next slice of a message in transfer, with slices at least one byte
/// long and at a time after the slice before, and merging it at the receiver is accepted there, and either completes the message,
/// given back whole, when the slice is the closing one, or keeps the transfer going one
/// slice further, the receiver holding all that was cut.
#[verifier::spinoff_prover]
pub proof fn lemma_pop_then_merge(
    v: UdpSplitView,
    ticks: u128,
    cache: UdpMergeCache,
    last: Option<u32>,
    t: u128,
)
    requires
        in_transfer(v, cache, last, t),
        v.unit > 0,
        v.queue[v.curr->0 as int].1 > 0 ==> t < ticks,
    ensures
        ({
            let c = v.curr->0 as int;
            let m = v.queue[c];
            let w = spec_pop(v, ticks).0;
            spec_pop(v, ticks).1 matches Some((s, id, tag, Some(h))) && id == m.2 && udp_merge_ok(
                cache,
                last,
                s,
                id,
                tag,
                h,
            ) && (tag == TOKEN_SUBPACKAGE_END <==> (m.1 > 0 && m.0.len() - m.1 <= v.unit)) && ({
                let (c2, l2, r) = spec_udp_merge(cache, last, s, id, tag, h);
                if tag == TOKEN_SUBPACKAGE_END {
                    r == Some(m.0) && l2 == Some(id) && c2 == cache.remove(id)
                } else {
                    &&& r is None
                    &&& l2 == last
                    &&& w.curr == v.curr
                    &&& w.queue.len() == v.queue.len()
                    &&& w.unit == v.unit
                    &&& w.queue[c].0 == m.0
                    &&& w.queue[c].1 == next_pos(m.0.len(), m.1 as nat, v.unit as nat)
                    &&& in_transfer(w, c2, l2, ticks)
                }
            })
        }),
{
    let c = v.curr->0 as int;
    let m = v.queue[c];
    let p = m.1;
    let len = m.0.len();
    let end0 = len - p <= v.unit;
    let e: int = if end0 {
        len as int
    } else {
        p + v.unit
    };
    let sli = m.0.subrange(p as int, e);
    let begin = p == 0;
    let end = end0 && !(begin && sli.len() > v.min_unit);
    assert(!(begin && end));
    let tag = if begin {
        TOKEN_SUBPACKAGE_BEGIN
    } else if end {
        TOKEN_SUBPACKAGE_END
    } else {
        TOKEN_SUBPACKAGE
    };
    let h = sub_head(ticks, p as u32, len as u32, m.3);
    lemma_sub_head_fields(ticks, p as u32, len as u32, m.3);
    assert(spec_pop(v, ticks).1 == Some((sli, m.2, tag, Some(h))));
    let w = spec_pop(v, ticks).0;
    assert(w.queue[c] == (m.0, e as usize, m.2, (m.3 + 1) as u32));
    assert(head_begin(h) == p && head_len(h) == len && head_ticks(h) == ticks);
    assert(!merge_refused(last, m.2, h));
    assert(merge_writes(cache, last, sli, m.2, tag, h));
    let (c2, l2, r) = spec_udp_merge(cache, last, sli, m.2, tag, h);
    if begin {
        let z = Seq::new(len, |i: int| 0u8);
        let d = write_at(z, 0, sli);
        assert(d.len() == len);
        assert(d.subrange(0, e) =~= m.0.subrange(0, e));
        assert(c2 == cache.insert(m.2, (d, e as u32, ticks)));
        assert(w.curr == v.curr);
        assert(c2[m.2].1 == e);
        assert(holds_prefix(c2, m.2, m.0, e as nat, ticks));
        assert(in_transfer(w, c2, l2, ticks));
    } else {
        let d0 = cache[m.2].0;
        let d = write_at(d0, p as nat, sli);
        assert(d.len() == len);
        if end {
            assert(d =~= m.0) by {
                assert(d0.subrange(0, p as int) == m.0.subrange(0, p as int));
                assert(d0.subrange(len as int, len as int) =~= Seq::<u8>::empty());
            }
            assert(r == Some(m.0));
        } else {
            assert(d.subrange(0, e) =~= m.0.subrange(0, e)) by {
                assert(d0.subrange(0, p as int) == m.0.subrange(0, p as int));
                assert forall|i: int| 0 <= i < e implies d.subrange(0, e)[i] == m.0.subrange(0, e)[i] by {
                    if i < p {
                        assert(d0.subrange(0, p as int)[i] == m.0.subrange(0, p as int)[i]);
                    }
                }
            }
            assert(c2 == cache.insert(m.2, (d, e as u32, ticks)));
            assert(w.curr == v.curr);
            assert(holds_prefix(c2, m.2, m.0, e as nat, ticks));
            assert(in_transfer(w, c2, l2, ticks));
        }
    }
}

/// Cuts a slice at each time of `ticks` in turn and merges it at the receiver, stopping
/// at the first slice that is not one of several or that the receiver cannot take, or
/// at the first message completed there: the splitter, the receiver's cache and last
/// completed id after, and the completed message.
pub open spec fn transfer(v: UdpSplitView, cache: UdpMergeCache, last: Option<u32>, ticks: Seq<u128>) -> (
    UdpSplitView,
    UdpMergeCache,
    Option<u32>,
    Option<Seq<u8>>,
)
    decreases ticks.len(),
{
    if ticks.len() == 0 {
        (v, cache, last, None)
    } else {
        let (w, out) = spec_pop(v, ticks[0]);
        match out {
            Some((s, id, tag, Some(h))) => if udp_merge_ok(cache, last, s, id, tag, h) {
                let (c2, l2, r) = spec_udp_merge(cache, last, s, id, tag, h);
                if r is Some {
                    (w, c2, l2, r)
                } else {
                    transfer(w, c2, l2, ticks.drop_first())
                }
            } else {
                (w, cache, last, None)
            },
            _ => (w, cache, last, None),
        }
    }
}

#[verifier::spinoff_prover]
proof fn lemma_transfer_from(v: UdpSplitView, cache: UdpMergeCache, last: Option<u32>, t: u128, ticks: Seq<u128>)
    requires
        in_transfer(v, cache, last, t),
        v.unit > 0,
        forall|i: int, j: int| 0 <= i < j < ticks.len() ==> ticks[i] < ticks[j],
        ticks.len() > 0 && v.queue[v.curr->0 as int].1 > 0 ==> t < ticks[0],
        ticks.len() >= slices_left(
            v.queue[v.curr->0 as int].0.len(),
            v.queue[v.curr->0 as int].1 as nat,
            v.unit as nat,
        ),
    ensures
        transfer(v, cache, last, ticks).3 == Some(v.queue[v.curr->0 as int].0),
    decreases ticks.len(),
{
    let c = v.curr->0 as int;
    let m = v.queue[c];
    let len = m.0.len();
    let p = m.1 as nat;
    assert(slices_left(len, p, v.unit as nat) >= 1);
    lemma_pop_then_merge(v, ticks[0], cache, last, t);
    let (w, out) = spec_pop(v, ticks[0]);
    let (s, id, tag, hh) = out.unwrap();
    let h = hh.unwrap();
    let (c2, l2, r) = spec_udp_merge(cache, last, s, id, tag, h);
    if tag != TOKEN_SUBPACKAGE_END {
        let rest = ticks.drop_first();
        let np = next_pos(len, p, v.unit as nat);
        if len - p <= v.unit {
            assert(p == 0);
            assert(slices_left(len, np, v.unit as nat) == 1);
        } else {
            assert(slices_left(len, p, v.unit as nat) == 1 + slices_left(len, np, v.unit as nat));
        }
        assert(rest.len() >= slices_left(len, np, v.unit as nat));
        assert(rest.len() > 0);
        assert(ticks[0] < rest[0]);
        assert forall|i: int, j: int| 0 <= i < j < rest.len() implies rest[i] < rest[j] by {
            assert(ticks[i + 1] < ticks[j + 1]);
        }
        lemma_transfer_from(w, c2, l2, ticks[0], rest);
        assert(transfer(v, cache, last, ticks) == transfer(w, c2, l2, rest));
    }
}

/// A message that the splitter cuts into several slices, merged one by one at a
/// receiver that holds none of it and has not completed it, in the order cut and with
/// strictly increasing send times, comes out of the receiver whole at its closing slice,
/// provided there are as many send times as slices to cut.
pub proof fn lemma_transfer_delivers(v: UdpSplitView, cache: UdpMergeCache, last: Option<u32>, ticks: Seq<u128>)
    requires
        in_transfer(v, cache, last, 0),
        v.queue[v.curr->0 as int].1 == 0,
        v.unit > 0,
        forall|i: int, j: int| 0 <= i < j < ticks.len() ==> ticks[i] < ticks[j],
        ticks.len() >= slices_left(v.queue[v.curr->0 as int].0.len(), 0, v.unit as nat),
    ensures
        transfer(v, cache, last, ticks).3 == Some(v.queue[v.curr->0 as int].0),
{
    lemma_transfer_from(v, cache, last, 0, ticks);
}

} // verus!

verus! {

/// A slice as `pop_msg` describes it: bytes, ext, tag, and sub-header when it is one
/// of several.
pub type CutSlice = (Seq<u8>, u32, u8, Option<Seq<u8>>);

/// The slices that `pop_msg` cuts at each time of `ticks` in turn, up to the closing
/// slice of a message, a message sent whole, or the first time nothing is cut.
pub open spec fn cuts(v: UdpSplitView, ticks: Seq<u128>) -> Seq<CutSlice>
    decreases ticks.len(),
{
    if ticks.len() == 0 {
        Seq::empty()
    } else {
        let (w, out) = spec_pop(v, ticks[0]);
        match out {
            Some(x) => if x.2 == TOKEN_SUBPACKAGE_END || x.3 is None {
                seq![x]
            } else {
                seq![x] + cuts(w, ticks.drop_first())
            },
            None => Seq::empty(),
        }
    }
}

/// The bytes of the slices `xs`, one after another.
pub open spec fn joined(xs: Seq<CutSlice>) -> Seq<u8>
    decreases xs.len(),
{
    if xs.len() == 0 {
        Seq::empty()
    } else {
        xs[0].0 + joined(xs.drop_first())
    }
}

/// The tag of slice `i` of the `n` slices cut from a message from position `p`.
pub open spec fn slice_tag(i: int, n: int, p: nat) -> u8 {
    if i == n - 1 {
        TOKEN_SUBPACKAGE_END
    } else if i == 0 && p == 0 {
        TOKEN_SUBPACKAGE_BEGIN
    } else {
        TOKEN_SUBPACKAGE
    }
}

/// The message that the splitter cuts next.
pub open spec fn current_msg(v: UdpSplitView) -> QueuedMsg {
    v.queue[v.curr->0 as int]
}

/// The splitter is cutting its current message (longer than the shortest slice, and
/// shorter than four gigabytes) into slices at least one byte long, and the slice
/// indices to come fit their field.
pub open spec fn cutting(v: UdpSplitView) -> bool {
    v.curr matches Some(c) && c < v.queue.len() && {
        let m = v.queue[c as int];
        &&& m.1 <= m.0.len() <= u32::MAX
        &&& m.0.len() > v.min_unit
        &&& v.unit > 0
        &&& m.3 + slices_left(m.0.len(), m.1 as nat, v.unit as nat) <= u32::MAX
    }
}

proof fn lemma_slices_left_pos(len: nat, p: nat, unit: nat)
    requires
        unit > 0,
    ensures
        slices_left(len, p, unit) >= 1,
    decreases len - p,
{
    if len - p > unit {
        lemma_slices_left_pos(len, p + unit, unit);
    }
}

proof fn lemma_joined_cons(x: CutSlice, r: Seq<CutSlice>)
    ensures
        joined(seq![x] + r) == x.0 + joined(r),
{
    assert((seq![x] + r).drop_first() =~= r);
}

/// Cutting a message from position `p` on takes as many slices as `slices_left` counts:
/// the slices, one after another, are the rest of the message; each is at most one
/// slice length long and carries the message's id; the first of a message is tagged as
/// its beginning, the last as its end, the others as middle slices; and each carries the
/// sub-header of its send time, its position (where the slices before it end), the
/// message length and its slice index, counting up from the current one.
#[verifier::spinoff_prover]
pub proof fn lemma_cuts(v: UdpSplitView, ticks: Seq<u128>)
    requires
        cutting(v),
        ticks.len() >= slices_left(current_msg(v).0.len(), current_msg(v).1 as nat, v.unit as nat),
    ensures
        cuts(v, ticks).len() == slices_left(
            current_msg(v).0.len(),
            current_msg(v).1 as nat,
            v.unit as nat,
        ),
        joined(cuts(v, ticks)) == current_msg(v).0.subrange(current_msg(v).1 as int, current_msg(v).0.len() as int),
        forall|i: int|
            0 <= i < cuts(v, ticks).len() ==> {
                let x = #[trigger] cuts(v, ticks)[i];
                &&& x.1 == current_msg(v).2
                &&& x.0.len() <= v.unit
                &&& x.2 == slice_tag(i, cuts(v, ticks).len() as int, current_msg(v).1 as nat)
                &&& x.3 == Some(
                    sub_head(
                        ticks[i],
                        (current_msg(v).1 + joined(cuts(v, ticks).take(i)).len()) as u32,
                        current_msg(v).0.len() as u32,
                        (current_msg(v).3 + i) as u32,
                    ),
                )
            },
    decreases ticks.len(),
{
    let c = v.curr->0 as int;
    let m = v.queue[c];
    let p = m.1;
    let len = m.0.len();
    let n = slices_left(len, p as nat, v.unit as nat);
    let end0 = len - p <= v.unit;
    if end0 {
        assert(n == if p > 0 { 1nat } else { 2nat });
    } else {
        lemma_slices_left_pos(len, (p + v.unit) as nat, v.unit as nat);
        assert(n == 1 + slices_left(len, (p + v.unit) as nat, v.unit as nat));
    }
    let e: int = if end0 {
        len as int
    } else {
        p + v.unit
    };
    let sli = m.0.subrange(p as int, e);
    let begin = p == 0;
    let end = end0 && !(begin && sli.len() > v.min_unit);
    assert(end == (p > 0 && end0));
    assert(end <==> n == 1);
    let tag = if begin {
        TOKEN_SUBPACKAGE_BEGIN
    } else if end {
        TOKEN_SUBPACKAGE_END
    } else {
        TOKEN_SUBPACKAGE
    };
    let h = sub_head(ticks[0], p as u32, len as u32, m.3);
    let x = (sli, m.2, tag, Some(h));
    assert(spec_pop(v, ticks[0]).1 == Some(x));
    let w = spec_pop(v, ticks[0]).0;
    let xs = cuts(v, ticks);
    assert(joined(xs.take(0)) =~= Seq::<u8>::empty());
    if end {
        assert(xs == seq![x]);
        lemma_joined_cons(x, Seq::empty());
        assert(joined(Seq::<CutSlice>::empty()) =~= Seq::<u8>::empty());
        assert(joined(xs) =~= m.0.subrange(p as int, len as int));
        assert(xs[0] == x);
        assert(slice_tag(0, 1, p as nat) == TOKEN_SUBPACKAGE_END);
    } else {
        let rest = ticks.drop_first();
        assert(w.curr == v.curr);
        assert(w.queue[c] == (m.0, e as usize, m.2, (m.3 + 1) as u32));
        assert(current_msg(w) == (m.0, e as usize, m.2, (m.3 + 1) as u32));
        if end0 {
            assert(slices_left(len, e as nat, v.unit as nat) == 1);
            assert(n == 2);
        } else {
            assert(n == 1 + slices_left(len, e as nat, v.unit as nat));
        }
        assert(cutting(w));
        lemma_cuts(w, rest);
        let rs = cuts(w, rest);
        assert(xs == seq![x] + rs);
        lemma_joined_cons(x, rs);
        assert(joined(xs) =~= m.0.subrange(p as int, len as int));
        assert forall|i: int| 0 <= i < xs.len() implies {
            let y = #[trigger] xs[i];
            &&& y.1 == m.2
            &&& y.0.len() <= v.unit
            &&& y.2 == slice_tag(i, xs.len() as int, p as nat)
            &&& y.3 == Some(
                sub_head(
                    ticks[i],
                    (p + joined(xs.take(i)).len()) as u32,
                    len as u32,
                    (m.3 + i) as u32,
                ),
            )
        } by {
            if i == 0 {
                assert(xs[0] == x);
            } else {
                assert(xs[i] == rs[i - 1]);
                assert(rest[i - 1] == ticks[i]);
                assert(xs.take(i) =~= seq![x] + rs.take(i - 1));
                lemma_joined_cons(x, rs.take(i - 1));
                assert(joined(xs.take(i)).len() == (e - p) + joined(rs.take(i - 1)).len());
            }
        }
    }
}

} // verus!
