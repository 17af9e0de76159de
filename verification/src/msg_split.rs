//! Splitting of long messages into numbered parts and merging them back.
use vstd::prelude::*;
use std::collections::HashMap;
use std::collections::HashSet;
use crate::bytes::{TOKEN_SUBPACKAGE, TOKEN_SUBPACKAGE_BEGIN, TOKEN_SUBPACKAGE_END, be_nat, be_bytes, lemma_pow256_values, lemma_be_roundtrip, lemma_be_nat_bound, push_be, read_be, copy_range, push_all};
use crate::agreement::Message;

verus! {

broadcast use vstd::std_specs::hash::group_hash_axioms;

/// Largest part that `DefMsgSplit` cuts a message into.
pub const DEF_MAX_UNIT_SIZE: usize = 501;

/// The id that follows `id` in the wrapping sequence `1, 2, ..., MAX, 1, ...`.
pub open spec fn next_id16(id: u16) -> u16 {
    if id == u16::MAX {
        1
    } else {
        (id + 1) as u16
    }
}

/// The ext field of part `idx` of the message with id `id`.
pub open spec fn part_ext(id: u16, idx: nat) -> u32 {
    (id as nat * 0x10000 + idx % 0x10000) as u32
}

/// The parts of `d` from index `b` on, the first of them numbered `i`.
pub open spec fn spec_chunks(d: Seq<u8>, id: u16, b: nat, i: nat) -> Seq<(Seq<u8>, u32, u8)>
    decreases d.len() - b,
{
    if b >= d.len() {
        Seq::empty()
    } else {
        let e: nat = if b + DEF_MAX_UNIT_SIZE <= d.len() {
            (b + DEF_MAX_UNIT_SIZE) as nat
        } else {
            d.len()
        };
        seq![
            (
                d.subrange(b as int, e as int),
                part_ext(id, i),
                if b == 0 {
                    TOKEN_SUBPACKAGE_BEGIN
                } else {
                    TOKEN_SUBPACKAGE
                },
            ),
        ] + spec_chunks(d, id, e, i + 1)
    }
}

/// What `split` returns for `d` with id `id` and ext `ext`: the numbered parts, then
/// a closing part that holds the id and carries the message's ext.
pub open spec fn spec_split(d: Seq<u8>, id: u16, ext: u32) -> Seq<(Seq<u8>, u32, u8)> {
    spec_chunks(d, id, 0, 0).push((be_bytes(id as nat, 2), ext, TOKEN_SUBPACKAGE_END))
}

/// `(id, idx)` packed in an ext field.
pub open spec fn spec_parse_ext(ext: u32) -> (u16, u16) {
    ((ext / 0x10000) as u16, (ext % 0x10000) as u16)
}

/// The cache of messages being merged: id to (bytes so far, index of the last part).
pub type MergeCache = Map<u16, (Seq<u8>, u16)>;

/// The inputs on which `merge` returns.
pub open spec fn merge_ok(cache: MergeCache, msg: Seq<u8>, ext: u32, tag: u8) -> bool {
    let (id, idx) = spec_parse_ext(ext);
    &&& tag == TOKEN_SUBPACKAGE_BEGIN ==> idx == 0
    &&& tag == TOKEN_SUBPACKAGE && cache.contains_key(id) ==> cache[id].1 + 1 == idx
    &&& tag == TOKEN_SUBPACKAGE_END ==> msg.len() == 2
}

/// The cache after merging one part, and what `merge` returns for it.
pub open spec fn spec_merge(cache: MergeCache, msg: Seq<u8>, ext: u32, tag: u8) -> (
    MergeCache,
    Option<(Seq<u8>, u32)>,
) {
    let (id, idx) = spec_parse_ext(ext);
    if tag == TOKEN_SUBPACKAGE_BEGIN {
        (cache.insert(id, (msg, idx)), None)
    } else if tag == TOKEN_SUBPACKAGE {
        if cache.contains_key(id) {
            (cache.insert(id, (cache[id].0 + msg, idx)), None)
        } else {
            (cache, None)
        }
    } else if tag == TOKEN_SUBPACKAGE_END {
        let eid = be_nat(msg) as u16;
        if cache.contains_key(eid) {
            (cache.remove(eid), Some((cache[eid].0, ext)))
        } else {
            (cache, None)
        }
    } else {
        (cache, None)
    }
}

/// Splits long messages into parts and merges parts back into messages.
pub struct DefMsgSplit {
    msg_cache: HashMap<u16, (Vec<u8>, u16)>,
    ignore_map: HashSet<u32>,
    logic_id: u16,
}

impl DefMsgSplit {
    /// The messages being merged.
    pub closed spec fn cache(&self) -> MergeCache {
        Map::new(
            |k: u16| self.msg_cache@.contains_key(k),
            |k: u16| (self.msg_cache@[k].0@, self.msg_cache@[k].1),
        )
    }

    /// The exts that are never split.
    pub closed spec fn ignored(&self) -> Set<u32> {
        self.ignore_map@
    }

    /// The last id handed out.
    pub closed spec fn last_id(&self) -> u16 {
        self.logic_id
    }

    pub fn new() -> (r: DefMsgSplit)
        ensures
            r.cache() == MergeCache::empty(),
            r.ignored() == set![9u32],
            r.last_id() == 0,
    {
        let mut ignore_map = HashSet::new();
        ignore_map.insert(9u32);
        let r = DefMsgSplit { msg_cache: HashMap::new(), logic_id: 0, ignore_map };
        assert(r.cache() =~= MergeCache::empty());
        assert(r.ignored() =~= set![9u32]);
        r
    }

    /// The next id in the wrapping sequence `1, 2, ..., MAX, 1, ...`.
    pub fn get_id(&mut self) -> (r: u16)
        ensures
            r == next_id16(old(self).last_id()),
            final(self).last_id() == r,
            final(self).cache() == old(self).cache(),
            final(self).ignored() == old(self).ignored(),
    {
        if self.logic_id == u16::MAX {
            self.logic_id = 0;
        }
        self.logic_id = self.logic_id + 1;
        self.logic_id
    }

    /// Unpacks the message id (high half) and part index (low half) of `ext`.
    pub fn parse_ext(ext: u32) -> (r: (u16, u16))
        ensures
            r == spec_parse_ext(ext),
    {
        ((ext / 0x10000) as u16, (ext % 0x10000) as u16)
    }

    pub fn open(&self) -> (r: bool)
        ensures
            r,
    {
        true
    }

    pub fn max_unit_size(&self) -> (r: usize)
        ensures
            r == DEF_MAX_UNIT_SIZE,
    {
        DEF_MAX_UNIT_SIZE
    }

    pub fn ignore(&self, ext: u32) -> (r: bool)
        ensures
            r == self.ignored().contains(ext),
    {
        self.ignore_map.contains(&ext)
    }

    /// Whether a message of `len` bytes with `ext` is split before it is sent.
    pub fn need_split(&self, len: usize, ext: u32) -> (r: bool)
        ensures
            r == (len > DEF_MAX_UNIT_SIZE && !self.ignored().contains(ext)),
    {
        self.open() && len > self.max_unit_size() && !self.ignore(ext)
    }

    /// Adds `v` to the exts that are never split.
    pub fn extend_ignore(&mut self, v: &[u32])
        ensures
            final(self).ignored() == old(self).ignored() + v@.to_set(),
            final(self).cache() == old(self).cache(),
            final(self).last_id() == old(self).last_id(),
    {
        let mut i: usize = 0;
        while i < v.len()
            invariant
                i <= v@.len(),
                self.ignored() == old(self).ignored() + v@.subrange(0, i as int).to_set(),
                self.cache() == old(self).cache(),
                self.last_id() == old(self).last_id(),
            decreases v@.len() - i,
        {
            self.ignore_map.insert(v[i]);
            i = i + 1;
            assert(self.ignored() =~= old(self).ignored() + v@.subrange(0, i as int).to_set()) by {
                assert(v@.subrange(0, i as int) =~= v@.subrange(0, i - 1).push(v@[i - 1]));
                broadcast use vstd::seq_lib::group_seq_properties;
            }
        }
        assert(v@.subrange(0, v@.len() as int) =~= v@);
    }

    /// Cuts `data` into numbered parts of at most `DEF_MAX_UNIT_SIZE` bytes, under a
    /// fresh id, and appends a closing part that holds the id; the id's two bytes are
    /// appended to `data`.
    pub fn split(&mut self, data: &mut Vec<u8>, ext: u32) -> (r: Vec<(Vec<u8>, u32, u8)>)
        requires
            old(data)@.len() <= DEF_MAX_UNIT_SIZE * 65535,
        ensures
            final(self).last_id() == next_id16(old(self).last_id()),
            final(self).cache() == old(self).cache(),
            final(self).ignored() == old(self).ignored(),
            final(data)@ == old(data)@ + be_bytes(final(self).last_id() as nat, 2),
            r@.len() == spec_split(old(data)@, final(self).last_id(), ext).len(),
            forall|j: int|
                #![trigger r@[j]]
                0 <= j < r@.len() ==> (r@[j].0@, r@[j].1, r@[j].2) == spec_split(
                    old(data)@,
                    final(self).last_id(),
                    ext,
                )[j],
    {
        let len = data.len();
        let l = DEF_MAX_UNIT_SIZE;
        let mut res: Vec<(Vec<u8>, u32, u8)> = Vec::new();
        let id = self.get_id();
        let ghost d0 = data@;
        proof {
            lemma_pow256_values();
        }
        push_be(data, id as u128, 2);
        proof {
            crate::bytes::lemma_be_bytes_len(id as nat, 2);
        }
        let mut b: usize = 0;
        let mut i: u16 = 0;
        while b < len
            invariant
                len == d0.len(),
                l == DEF_MAX_UNIT_SIZE,
                len <= DEF_MAX_UNIT_SIZE * 65535,
                data@ == d0 + be_bytes(id as nat, 2),
                b <= len,
                b == len || b == i * DEF_MAX_UNIT_SIZE,
                b < len ==> i < 65535,
                spec_chunks(d0, id, 0, 0) =~= res_view(res@) + spec_chunks(d0, id, b as nat, i as nat),
            decreases len - b,
        {
            let e = if b + l <= len {
                b + l
            } else {
                len
            };
            let sli = copy_range(data.as_slice(), b, e);
            let tag = if b == 0 {
                TOKEN_SUBPACKAGE_BEGIN
            } else {
                TOKEN_SUBPACKAGE
            };
            let pext: u32 = (id as u32) * 0x10000 + (i as u32);
            proof {
                assert(sli@ =~= d0.subrange(b as int, e as int));
                assert(pext == part_ext(id, i as nat));
                let ghost old_res = res@;
                assert(res_view(old_res.push((sli, pext, tag))) =~= res_view(old_res).push(
                    (sli@, pext, tag),
                ));
            }
            res.push((sli, pext, tag));
            proof {
                if e < len {
                    assert(i + 1 < 65535) by (nonlinear_arith)
                        requires
                            e < len,
                            e == b + DEF_MAX_UNIT_SIZE,
                            b == i * DEF_MAX_UNIT_SIZE,
                            len <= DEF_MAX_UNIT_SIZE * 65535,
                    ;
                }
            }
            i = i + 1;
            b = e;
        }
        let tail = copy_range(data.as_slice(), len, len + 2);
        proof {
            assert(tail@ =~= be_bytes(id as nat, 2)) by {
                broadcast use vstd::seq_lib::group_seq_properties;
                crate::bytes::lemma_be_bytes_len(id as nat, 2);
            }
            assert(spec_chunks(d0, id, b as nat, i as nat) =~= Seq::empty());
            let ghost old_res = res@;
            assert(res_view(old_res.push((tail, ext, TOKEN_SUBPACKAGE_END))) =~= res_view(
                old_res,
            ).push((tail@, ext, TOKEN_SUBPACKAGE_END)));
        }
        res.push((tail, ext, TOKEN_SUBPACKAGE_END));
        proof {
            assert(res_view(res@) =~= spec_split(d0, id, ext));
            assert forall|j: int| #![trigger res@[j]] 0 <= j < res@.len() implies (
                res@[j].0@,
                res@[j].1,
                res@[j].2,
            ) == spec_split(d0, id, ext)[j] by {
                assert(res_view(res@)[j] == (res@[j].0@, res@[j].1, res@[j].2));
            }
        }
        res
    }

    /// Whether `msg` is a part of a split message.
    pub fn need_merge(&self, msg: &Message) -> (r: bool)
        ensures
            r == (TOKEN_SUBPACKAGE_BEGIN <= msg.tag <= TOKEN_SUBPACKAGE_END),
    {
        msg.tag >= TOKEN_SUBPACKAGE_BEGIN && msg.tag <= TOKEN_SUBPACKAGE_END
    }

    /// Whether `merge` can take the part `msg` (see `merge_ok`): a first part has index
    /// zero, a middle part follows the last one merged, and a closing part is an id.
    pub fn can_merge(&self, msg: &Message) -> (r: bool)
        ensures
            r == merge_ok(self.cache(), msg.msg@, msg.ext, msg.tag),
    {
        let (id, idx) = Self::parse_ext(msg.ext);
        if msg.tag == TOKEN_SUBPACKAGE_BEGIN {
            idx == 0
        } else if msg.tag == TOKEN_SUBPACKAGE {
            match self.msg_cache.get(&id) {
                Some(entry) => entry.1 as u32 + 1 == idx as u32,
                None => true,
            }
        } else if msg.tag == TOKEN_SUBPACKAGE_END {
            msg.msg.len() == 2
        } else {
            true
        }
    }

    /// Adds the part `msg` to the message it belongs to; returns the whole message and
    /// its ext once its closing part arrives.
    pub fn merge(&mut self, msg: &Message) -> (r: Option<(Vec<u8>, u32)>)
        requires
            merge_ok(old(self).cache(), msg.msg@, msg.ext, msg.tag),
        ensures
            final(self).cache() == spec_merge(old(self).cache(), msg.msg@, msg.ext, msg.tag).0,
            match spec_merge(old(self).cache(), msg.msg@, msg.ext, msg.tag).1 {
                None => r is None,
                Some((d, e)) => r matches Some(v) && v.0@ == d && v.1 == e,
            },
            final(self).ignored() == old(self).ignored(),
            final(self).last_id() == old(self).last_id(),
    {
        let ghost c0 = self.cache();
        if msg.tag == TOKEN_SUBPACKAGE_BEGIN {
            let (id, idx) = Self::parse_ext(msg.ext);
            let v = copy_range(msg.msg, 0, msg.msg.len());
            assert(v@ =~= msg.msg@);
            self.msg_cache.insert(id, (v, idx));
            assert(self.cache() =~= c0.insert(id, (msg.msg@, idx)));
            None
        } else if msg.tag == TOKEN_SUBPACKAGE {
            let (id, idx) = Self::parse_ext(msg.ext);
            match self.msg_cache.remove(&id) {
                Some((cache, _)) => {
                    let mut cache = cache;
                    push_all(&mut cache, msg.msg);
                    self.msg_cache.insert(id, (cache, idx));
                    assert(self.cache() =~= c0.insert(id, (c0[id].0 + msg.msg@, idx)));
                    None
                },
                None => {
                    assert(self.cache() =~= c0);
                    None
                },
            }
        } else if msg.tag == TOKEN_SUBPACKAGE_END {
            proof {
                lemma_pow256_values();
                lemma_be_nat_bound(msg.msg@);
                assert(msg.msg@.subrange(0, 2) =~= msg.msg@);
            }
            let id = read_be(msg.msg, 0, 2) as u16;
            match self.msg_cache.remove(&id) {
                Some((cache, _)) => {
                    assert(self.cache() =~= c0.remove(id));
                    Some((cache, msg.ext))
                },
                None => {
                    assert(self.cache() =~= c0);
                    None
                },
            }
        } else {
            None
        }
    }
}

/// The parts in `r` as plain values.
pub open spec fn res_view(r: Seq<(Vec<u8>, u32, u8)>) -> Seq<(Seq<u8>, u32, u8)> {
    r.map_values(|p: (Vec<u8>, u32, u8)| (p.0@, p.1, p.2))
}

} // verus!

verus! {

/// Merges `parts` one after another: the final cache and what each merge returned.
pub open spec fn merge_all(cache: MergeCache, parts: Seq<(Seq<u8>, u32, u8)>) -> (
    MergeCache,
    Seq<Option<(Seq<u8>, u32)>>,
)
    decreases parts.len(),
{
    if parts.len() == 0 {
        (cache, Seq::empty())
    } else {
        let (c1, o) = spec_merge(cache, parts[0].0, parts[0].1, parts[0].2);
        let (c2, os) = merge_all(c1, parts.drop_first());
        (c2, seq![o] + os)
    }
}

/// Every merge in `merge_all(cache, parts)` is given an input it accepts.
pub open spec fn merge_all_ok(cache: MergeCache, parts: Seq<(Seq<u8>, u32, u8)>) -> bool
    decreases parts.len(),
{
    if parts.len() == 0 {
        true
    } else {
        merge_ok(cache, parts[0].0, parts[0].1, parts[0].2) && merge_all_ok(
            spec_merge(cache, parts[0].0, parts[0].1, parts[0].2).0,
            parts.drop_first(),
        )
    }
}

proof fn lemma_part_ext(id: u16, i: nat)
    requires
        i < 0x10000,
    ensures
        spec_parse_ext(part_ext(id, i)) == (id, i as u16),
{
    let x = id as nat * 0x10000 + i;
    assert(x / 0x10000 == id as nat && x % 0x10000 == i) by (nonlinear_arith)
        requires
            x == id as nat * 0x10000 + i,
            i < 0x10000,
    ;
}

proof fn lemma_merge_chunks(d: Seq<u8>, id: u16, b: nat, i: nat, cache: MergeCache)
    requires
        d.len() <= DEF_MAX_UNIT_SIZE * 65535,
        b <= d.len(),
        b == d.len() || b == i * DEF_MAX_UNIT_SIZE,
        b < d.len() ==> i < 65535,
        b == 0 ==> i == 0,
        b > 0 ==> cache.contains_key(id) && cache[id].0 == d.subrange(0, b as int) && cache[id].1
            == (i - 1) as u16,
    ensures
        ({
            let parts = spec_chunks(d, id, b, i);
            let (c2, os) = merge_all(cache, parts);
            &&& merge_all_ok(cache, parts)
            &&& os.len() == parts.len()
            &&& forall|j: int| 0 <= j < os.len() ==> #[trigger] os[j] is None
            &&& d.len() > 0 ==> c2.contains_key(id) && c2[id].0 == d
            &&& c2.remove(id) == cache.remove(id)
        }),
    decreases d.len() - b,
{
    if b >= d.len() {
        assert(d.subrange(0, b as int) =~= d);
    } else {
        let e: nat = if b + DEF_MAX_UNIT_SIZE <= d.len() {
            (b + DEF_MAX_UNIT_SIZE) as nat
        } else {
            d.len()
        };
        let msg = d.subrange(b as int, e as int);
        let tag = if b == 0 {
            TOKEN_SUBPACKAGE_BEGIN
        } else {
            TOKEN_SUBPACKAGE
        };
        lemma_part_ext(id, i);
        let (c1, o) = spec_merge(cache, msg, part_ext(id, i), tag);
        assert(c1 == cache.insert(id, (d.subrange(0, e as int), i as u16))) by {
            if b > 0 {
                assert(cache[id].0 + msg =~= d.subrange(0, e as int));
            } else {
                assert(msg =~= d.subrange(0, e as int));
            }
        }
        if e < d.len() {
            assert(i + 1 < 65535) by (nonlinear_arith)
                requires
                    e < d.len(),
                    e == b + DEF_MAX_UNIT_SIZE,
                    b == i * DEF_MAX_UNIT_SIZE,
                    d.len() <= DEF_MAX_UNIT_SIZE * 65535,
            ;
        }
        lemma_merge_chunks(d, id, e, i + 1, c1);
        let parts = spec_chunks(d, id, b, i);
        assert(parts.drop_first() =~= spec_chunks(d, id, e, i + 1));
        let (c2, os) = merge_all(c1, parts.drop_first());
        assert(c2.remove(id) =~= cache.remove(id)) by {
            assert(c1.remove(id) =~= cache.remove(id));
        }
        let (c3, os3) = merge_all(cache, parts);
        assert(os3 =~= seq![o] + os);
        assert forall|j: int| 0 <= j < os3.len() implies #[trigger] os3[j] is None by {
            if j > 0 {
                assert(os3[j] == os[j - 1]);
            }
        }
    }
}

/// Merging, in order, the parts that `split` cuts a non-empty message into gives back
/// the message and its ext with the closing part and with no earlier part, and leaves
/// every other message being merged as it was.
pub proof fn lemma_split_merge(d: Seq<u8>, id: u16, ext: u32, cache: MergeCache)
    requires
        0 < d.len() <= DEF_MAX_UNIT_SIZE * 65535,
    ensures
        ({
            let parts = spec_split(d, id, ext);
            let (c2, os) = merge_all(cache, parts);
            &&& merge_all_ok(cache, parts)
            &&& os.len() == parts.len()
            &&& os.last() == Some((d, ext))
            &&& forall|j: int| 0 <= j < os.len() - 1 ==> #[trigger] os[j] is None
            &&& c2 == cache.remove(id)
        }),
{
    let chunks = spec_chunks(d, id, 0, 0);
    let parts = spec_split(d, id, ext);
    lemma_merge_chunks(d, id, 0, 0, cache);
    let (c1, os1) = merge_all(cache, chunks);
    lemma_merge_all_append(cache, chunks, (be_bytes(id as nat, 2), ext, TOKEN_SUBPACKAGE_END));
    lemma_pow256_values();
    lemma_be_roundtrip(id as nat, 2);
    let (c2, os) = merge_all(cache, parts);
    assert(c2 =~= cache.remove(id)) by {
        assert(c1.remove(id) =~= cache.remove(id));
    }
    assert forall|j: int| 0 <= j < os.len() - 1 implies #[trigger] os[j] is None by {
        assert(os[j] == os1[j]);
    }
}

proof fn lemma_merge_all_append(
    cache: MergeCache,
    parts: Seq<(Seq<u8>, u32, u8)>,
    p: (Seq<u8>, u32, u8),
)
    ensures
        ({
            let (c1, os1) = merge_all(cache, parts);
            let (c2, o) = spec_merge(c1, p.0, p.1, p.2);
            &&& merge_all(cache, parts.push(p)) == (c2, os1.push(o))
            &&& merge_all_ok(cache, parts.push(p)) == (merge_all_ok(cache, parts) && merge_ok(
                c1,
                p.0,
                p.1,
                p.2,
            ))
        }),
    decreases parts.len(),
{
    if parts.len() == 0 {
        assert(parts.push(p).drop_first() =~= Seq::<(Seq<u8>, u32, u8)>::empty());
        assert(parts.push(p)[0] == p);
        let (c2, o) = spec_merge(cache, p.0, p.1, p.2);
        assert(merge_all(c2, Seq::empty()) == (c2, Seq::<Option<(Seq<u8>, u32)>>::empty()));
        assert(merge_all_ok(c2, Seq::empty()));
        assert(merge_all(cache, parts) == (cache, Seq::<Option<(Seq<u8>, u32)>>::empty()));
        assert(merge_all_ok(cache, parts));
        assert(seq![o] + Seq::<Option<(Seq<u8>, u32)>>::empty() =~= Seq::<
            Option<(Seq<u8>, u32)>,
        >::empty().push(o));
    } else {
        let (c1, o1) = spec_merge(cache, parts[0].0, parts[0].1, parts[0].2);
        assert(parts.push(p).drop_first() =~= parts.drop_first().push(p));
        assert(parts.push(p)[0] == parts[0]);
        lemma_merge_all_append(c1, parts.drop_first(), p);
        let (c9, os9) = merge_all(c1, parts.drop_first());
        let (c10, o10) = spec_merge(c9, p.0, p.1, p.2);
        assert(seq![o1] + os9.push(o10) =~= (seq![o1] + os9).push(o10));
    }
}

} // verus!

verus! {

/// Splitting of long messages into parts and merging of received parts.
pub trait MsgSplit {
    fn open(&self) -> bool;

    fn max_unit_size(&self) -> usize;

    fn need_split(&self, len: usize, ext: u32) -> bool;

    fn ignore(&self, ext: u32) -> bool;

    fn need_merge(&self, msg: &Message) -> bool;

    fn extend_ignore(&mut self, v: &[u32]);
}

impl MsgSplit for DefMsgSplit {
    fn open(&self) -> (r: bool)
        ensures
            r,
    {
        DefMsgSplit::open(self)
    }

    fn max_unit_size(&self) -> (r: usize)
        ensures
            r == DEF_MAX_UNIT_SIZE,
    {
        DefMsgSplit::max_unit_size(self)
    }

    fn need_split(&self, len: usize, ext: u32) -> (r: bool)
        ensures
            r == (len > DEF_MAX_UNIT_SIZE && !self.ignored().contains(ext)),
    {
        DefMsgSplit::need_split(self, len, ext)
    }

    fn ignore(&self, ext: u32) -> (r: bool)
        ensures
            r == self.ignored().contains(ext),
    {
        DefMsgSplit::ignore(self, ext)
    }

    fn need_merge(&self, msg: &Message) -> (r: bool)
        ensures
            r == (TOKEN_SUBPACKAGE_BEGIN <= msg.tag <= TOKEN_SUBPACKAGE_END),
    {
        DefMsgSplit::need_merge(self, msg)
    }

    fn extend_ignore(&mut self, v: &[u32])
        ensures
            final(self).ignored() == old(self).ignored() + v@.to_set(),
    {
        DefMsgSplit::extend_ignore(self, v)
    }
}

} // verus!
