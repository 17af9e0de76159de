//! The tagged package format: `BEGIN len(4) tag payload MID ext(4) END`, and the
//! chain of data transforms applied to a payload before it is packaged.
use vstd::prelude::*;
use crate::bytes::{TOKEN_BEGIN, TOKEN_END, TOKEN_MID, TOKEN_NORMAL, be_nat, be_bytes, lemma_pow256_values, lemma_be_bytes_len, lemma_be_nat_bound, lemma_be_roundtrip, push_be, read_be, u32_form_bytes, push_all, copy_range};

verus! {

/// A reversible rewriting of payload bytes (compression, obfuscation, ...).
pub trait DataTransform {
    /// What `to` makes of `d`.
    spec fn spec_to(&self, d: Seq<u8>) -> Seq<u8>;

    /// What `form` makes of `d`.
    spec fn spec_form(&self, d: Seq<u8>) -> Seq<u8>;

    /// The inputs on which `to` returns.
    spec fn to_ok(&self, d: Seq<u8>) -> bool;

    /// The inputs on which `form` returns.
    spec fn form_ok(&self, d: Seq<u8>) -> bool;

    fn to(&self, d: &[u8]) -> (r: Vec<u8>)
        requires
            self.to_ok(d@),
        ensures
            r@ == self.spec_to(d@),
    ;

    fn form(&self, d: &[u8]) -> (r: Vec<u8>)
        requires
            self.form_ok(d@),
        ensures
            r@ == self.spec_form(d@),
    ;
}

/// A parsed package: its length field, payload, ext field and tag.
#[derive(Clone, Copy, Debug)]
pub struct Message<'a> {
    pub len: u32,
    pub msg: &'a [u8],
    pub ext: u32,
    pub tag: u8,
}

impl<'a> Message<'a> {
    pub fn new(len: u32, msg: &'a [u8], ext: u32, tag: u8) -> (r: Message<'a>)
        ensures
            r.len == len,
            r.msg@ == msg@,
            r.ext == ext,
            r.tag == tag,
    {
        Message { len, msg, ext, tag }
    }
}

/// Transform that adds one (wrapping) to the byte at index 4.
#[derive(Clone, Copy)]
pub struct TestDataTransform {}

/// Transform that halves the byte at index 4.
#[derive(Clone, Copy)]
pub struct Test2DataTransform {}

impl DataTransform for TestDataTransform {
    open spec fn spec_to(&self, d: Seq<u8>) -> Seq<u8> {
        d.update(4, if d[4] < 255 { (d[4] + 1) as u8 } else { 0u8 })
    }

    open spec fn spec_form(&self, d: Seq<u8>) -> Seq<u8> {
        d.update(4, if d[4] > 0 { (d[4] - 1) as u8 } else { 255u8 })
    }

    open spec fn to_ok(&self, d: Seq<u8>) -> bool {
        d.len() > 4
    }

    open spec fn form_ok(&self, d: Seq<u8>) -> bool {
        d.len() > 4
    }

    fn to(&self, d: &[u8]) -> (r: Vec<u8>) {
        let mut res = copy_range(d, 0, d.len());
        if res[4] < 255 {
            let v = res[4] + 1;
            res.set(4, v);
        } else {
            res.set(4, 0);
        }
        res
    }

    fn form(&self, d: &[u8]) -> (r: Vec<u8>) {
        let mut res = copy_range(d, 0, d.len());
        if res[4] > 0 {
            let v = res[4] - 1;
            res.set(4, v);
        } else {
            res.set(4, 255);
        }
        res
    }
}

impl DataTransform for Test2DataTransform {
    open spec fn spec_to(&self, d: Seq<u8>) -> Seq<u8> {
        d.update(4, d[4] / 2)
    }

    open spec fn spec_form(&self, d: Seq<u8>) -> Seq<u8> {
        d.update(4, (d[4] * 2) as u8)
    }

    open spec fn to_ok(&self, d: Seq<u8>) -> bool {
        d.len() > 4
    }

    open spec fn form_ok(&self, d: Seq<u8>) -> bool {
        d.len() > 4 && d[4] * 2 <= 255
    }

    fn to(&self, d: &[u8]) -> (r: Vec<u8>) {
        let mut res = copy_range(d, 0, d.len());
        let v = res[4] / 2;
        res.set(4, v);
        res
    }

    fn form(&self, d: &[u8]) -> (r: Vec<u8>) {
        let mut res = copy_range(d, 0, d.len());
        let v = res[4] * 2;
        res.set(4, v);
        res
    }
}

/// The bytes of a package of `data` with `ext` and `tag`.
pub open spec fn spec_package(data: Seq<u8>, ext: u32, tag: u8) -> Seq<u8> {
    seq![TOKEN_BEGIN] + be_bytes((data.len() + 10) as nat, 4) + seq![tag] + data + seq![TOKEN_MID]
        + be_bytes(ext as nat, 4) + seq![TOKEN_END]
}

/// The length field of a package body (the package without its first and last byte).
pub open spec fn spec_len_field(data: Seq<u8>) -> nat {
    be_nat(data.subrange(0, 4))
}

/// The inputs on which `parse` returns: a readable length field, and a body long
/// enough to hold a header and trailer whenever the length field matches.
pub open spec fn parse_ok(data: Seq<u8>) -> bool {
    data.len() >= 4 && (spec_len_field(data) == data.len() ==> data.len() >= 10)
}

/// What `parse` finds in a package body: `(len, payload, ext, tag)`, or nothing
/// when the length field does not match the body's length.
pub open spec fn spec_parse(data: Seq<u8>) -> Option<(nat, Seq<u8>, u32, u8)> {
    if spec_len_field(data) == data.len() {
        Some(
            (
                data.len(),
                data.subrange(5, data.len() - 5),
                be_nat(data.subrange(data.len() - 4, data.len() as int)) as u32,
                data[4],
            ),
        )
    } else {
        None
    }
}

/// A package without its opening and closing token.
pub open spec fn body_of(pkg: Seq<u8>) -> Seq<u8> {
    pkg.subrange(1, pkg.len() - 1)
}

/// Applies the transforms `tfs[0]`, ..., `tfs[n - 1]` to `d`, in that order.
pub open spec fn to_chain<T: DataTransform>(tfs: Seq<T>, n: nat, d: Seq<u8>) -> Seq<u8>
    decreases n,
{
    if n == 0 {
        d
    } else {
        tfs[n - 1].spec_to(to_chain(tfs, (n - 1) as nat, d))
    }
}

/// Every `to` in `to_chain(tfs, n, d)` is applied to an input it accepts.
pub open spec fn to_chain_ok<T: DataTransform>(tfs: Seq<T>, n: nat, d: Seq<u8>) -> bool
    decreases n,
{
    if n == 0 {
        true
    } else {
        to_chain_ok(tfs, (n - 1) as nat, d) && tfs[n - 1].to_ok(to_chain(tfs, (n - 1) as nat, d))
    }
}

/// Applies the inverse transforms `tfs[n - 1].form`, ..., `tfs[0].form` to `d`, in that order.
pub open spec fn form_chain<T: DataTransform>(tfs: Seq<T>, n: nat, d: Seq<u8>) -> Seq<u8>
    decreases n,
{
    if n == 0 {
        d
    } else {
        form_chain(tfs, (n - 1) as nat, tfs[n - 1].spec_form(d))
    }
}

/// Every `form` in `form_chain(tfs, n, d)` is applied to an input it accepts.
pub open spec fn form_chain_ok<T: DataTransform>(tfs: Seq<T>, n: nat, d: Seq<u8>) -> bool
    decreases n,
{
    if n == 0 {
        true
    } else {
        tfs[n - 1].form_ok(d) && form_chain_ok(tfs, (n - 1) as nat, tfs[n - 1].spec_form(d))
    }
}

/// The body that `parse_tf` rebuilds around the restored payload `q` of `data`.
pub open spec fn rebuilt_body(data: Seq<u8>, q: Seq<u8>) -> Seq<u8> {
    be_bytes((q.len() + 10) as nat, 4) + seq![data[4]] + q + seq![TOKEN_MID] + data.subrange(
        data.len() - 4,
        data.len() as int,
    )
}

/// `body` holds the rebuilt body of `data` around `q` up to the ext field.
pub open spec fn prefix_of_rebuilt(body: Seq<u8>, data: Seq<u8>, q: Seq<u8>) -> bool {
    body =~= be_bytes((q.len() + 10) as nat, 4) + seq![data[4]] + q + seq![TOKEN_MID]
}

/// Parser and packager of packages, with the transforms applied to payloads.
pub struct DefParser<T: DataTransform> {
    tfs: Vec<T>,
}

impl<T: DataTransform> DefParser<T> {
    /// The transforms, in the order `package_tf` applies them.
    pub closed spec fn transforms(&self) -> Seq<T> {
        self.tfs@
    }

    pub fn new() -> (r: DefParser<T>)
        ensures
            r.transforms() == Seq::<T>::empty(),
    {
        DefParser { tfs: Vec::new() }
    }

    pub fn add_transform(&mut self, dt: T)
        ensures
            final(self).transforms() == old(self).transforms().push(dt),
    {
        self.tfs.push(dt);
    }

    pub fn get_transform(&self, id: usize) -> (r: &T)
        requires
            id < self.transforms().len(),
        ensures
            *r == self.transforms()[id as int],
    {
        &self.tfs[id]
    }

    pub fn transform_count(&self) -> (r: usize)
        ensures
            r == self.transforms().len(),
    {
        self.tfs.len()
    }

    /// Reads a package body (the package without `BEGIN` and `END`).
    pub fn parse<'a>(&self, data: &'a Vec<u8>) -> (r: Option<Message<'a>>)
        requires
            parse_ok(data@),
        ensures
            match spec_parse(data@) {
                None => r is None,
                Some((len, msg, ext, tag)) => r matches Some(m) && m.len == len && m.msg@ == msg
                    && m.ext == ext && m.tag == tag,
            },
    {
        parse_body(data.as_slice())
    }

    /// The package of `data` with `ext` and `tag`.
    pub fn package(&self, data: Vec<u8>, ext: u32, pkg_tag: u8) -> (r: Vec<u8>)
        requires
            data@.len() + 10 <= u32::MAX,
        ensures
            r@ == spec_package(data@, ext, pkg_tag),
    {
        package_body(data.as_slice(), ext, pkg_tag)
    }

    /// Applies every transform, in order, to `data` and packages the result.
    pub fn package_tf(&self, data: Vec<u8>, ext: u32, pkg_tag: u8) -> (r: Vec<u8>)
        requires
            to_chain_ok(self.transforms(), self.transforms().len(), data@),
            to_chain(self.transforms(), self.transforms().len(), data@).len() + 10 <= u32::MAX,
        ensures
            r@ == spec_package(
                to_chain(self.transforms(), self.transforms().len(), data@),
                ext,
                pkg_tag,
            ),
    {
        let ghost d0 = data@;
        let mut data = data;
        let n = self.tfs.len();
        let mut i: usize = 0;
        while i < n
            invariant
                n == self.transforms().len(),
                i <= n,
                data@ == to_chain(self.transforms(), i as nat, d0),
                to_chain_ok(self.transforms(), n as nat, d0),
            decreases n - i,
        {
            proof {
                lemma_to_chain_ok_prefix(self.transforms(), (i + 1) as nat, n as nat, d0);
            }
            let res = self.tfs[i].to(data.as_slice());
            data = res;
            i = i + 1;
        }
        package_body(data.as_slice(), ext, pkg_tag)
    }

    /// Tagged package of `data` with `ext`.
    pub fn package_nor(&self, data: Vec<u8>, ext: u32) -> (r: Vec<u8>)
        requires
            to_chain_ok(self.transforms(), self.transforms().len(), data@),
            to_chain(self.transforms(), self.transforms().len(), data@).len() + 10 <= u32::MAX,
        ensures
            r@ == spec_package(
                to_chain(self.transforms(), self.transforms().len(), data@),
                ext,
                TOKEN_NORMAL,
            ),
    {
        self.package_tf(data, ext, TOKEN_NORMAL)
    }

    /// Undoes the transforms on the payload of the package body `data`, rebuilds the
    /// body around the restored payload in place, and parses it.
    pub fn parse_tf<'a>(&self, data: &'a mut Vec<u8>) -> (r: Option<Message<'a>>)
        requires
            self.transforms().len() == 0 ==> parse_ok(old(data)@),
            self.transforms().len() > 0 ==> old(data)@.len() >= 10 && form_chain_ok(
                self.transforms(),
                self.transforms().len(),
                old(data)@.subrange(5, old(data)@.len() - 5),
            ) && form_chain(
                self.transforms(),
                self.transforms().len(),
                old(data)@.subrange(5, old(data)@.len() - 5),
            ).len() + 10 <= u32::MAX,
        ensures
            self.transforms().len() == 0 ==> final(data)@ == old(data)@,
            self.transforms().len() > 0 ==> final(data)@ == rebuilt_body(
                old(data)@,
                form_chain(
                    self.transforms(),
                    self.transforms().len(),
                    old(data)@.subrange(5, old(data)@.len() - 5),
                ),
            ),
            match spec_parse(final(data)@) {
                None => r is None,
                Some((len, msg, ext, tag)) => r matches Some(m) && m.len == len && m.msg@ == msg
                    && m.ext == ext && m.tag == tag,
            },
    {
        let n = self.tfs.len();
        if n > 0 {
            let dl = data.len();
            let tag = data[4];
            let mut tf_data = copy_range(data.as_slice(), 5, dl - 5);
            let ghost payload = tf_data@;
            let mut i: usize = n;
            while i > 0
                invariant
                    n == self.transforms().len(),
                    i <= n,
                    form_chain(self.transforms(), n as nat, payload) == form_chain(
                        self.transforms(),
                        i as nat,
                        tf_data@,
                    ),
                    form_chain_ok(self.transforms(), i as nat, tf_data@),
                decreases i,
            {
                let res = self.tfs[i - 1].form(tf_data.as_slice());
                tf_data = res;
                i = i - 1;
            }
            let mut body: Vec<u8> = Vec::new();
            proof {
                lemma_pow256_values();
            }
            push_be(&mut body, (tf_data.len() + 10) as u128, 4);
            body.push(tag);
            push_all(&mut body, tf_data.as_slice());
            body.push(TOKEN_MID);
            proof {
                lemma_be_bytes_len((tf_data@.len() + 10) as nat, 4);
                assert(prefix_of_rebuilt(body@, old(data)@, tf_data@));
            }
            let ghost prefix = body@;
            let mut k: usize = dl - 4;
            while k < dl
                invariant
                    dl == old(data)@.len(),
                    dl >= 10,
                    dl - 4 <= k <= dl,
                    body@ == prefix + old(data)@.subrange(dl - 4, k as int),
                decreases dl - k,
            {
                body.push(data[k]);
                k = k + 1;
                assert(body@ =~= prefix + old(data)@.subrange(dl - 4, k as int));
            }
            proof {
                assert(body@ =~= rebuilt_body(old(data)@, tf_data@));
                lemma_be_roundtrip((tf_data@.len() + 10) as nat, 4);
                assert(body@.subrange(0, 4) =~= be_bytes((tf_data@.len() + 10) as nat, 4));
            }
            *data = body;
        }
        parse_body(data)
    }
}

/// Reads a package body.
pub fn parse_body<'a>(data: &'a [u8]) -> (r: Option<Message<'a>>)
    requires
        parse_ok(data@),
    ensures
        match spec_parse(data@) {
            None => r is None,
            Some((len, msg, ext, tag)) => r matches Some(m) && m.len == len && m.msg@ == msg
                && m.ext == ext && m.tag == tag,
        },
{
    let len = u32_form_bytes(data);
    if len as usize != data.len() {
        return None;
    }
    let dl = data.len();
    let ext = read_be(data, dl - 4, 4) as u32;
    proof {
        lemma_be_nat_bound(data@.subrange(dl - 4, dl as int));
        lemma_pow256_values();
    }
    let msg = vstd::slice::slice_subrange(data, 5, dl - 5);
    Some(Message::new(len, msg, ext, data[4]))
}

/// Builds the package of `data` with `ext` and `tag`.
pub fn package_body(data: &[u8], ext: u32, pkg_tag: u8) -> (r: Vec<u8>)
    requires
        data@.len() + 10 <= u32::MAX,
    ensures
        r@ == spec_package(data@, ext, pkg_tag),
{
    let mut res: Vec<u8> = Vec::new();
    proof {
        lemma_pow256_values();
    }
    res.push(TOKEN_BEGIN);
    push_be(&mut res, (data.len() + 10) as u128, 4);
    res.push(pkg_tag);
    push_all(&mut res, data);
    res.push(TOKEN_MID);
    push_be(&mut res, ext as u128, 4);
    res.push(TOKEN_END);
    assert(res@ =~= spec_package(data@, ext, pkg_tag));
    res
}

pub proof fn lemma_to_chain_ok_prefix<T: DataTransform>(tfs: Seq<T>, i: nat, n: nat, d: Seq<u8>)
    requires
        i <= n,
        to_chain_ok(tfs, n, d),
    ensures
        to_chain_ok(tfs, i, d),
    decreases n,
{
    if i < n {
        lemma_to_chain_ok_prefix(tfs, i, (n - 1) as nat, d);
    }
}

} // verus!

verus! {

/// A package body is read back as the payload, ext and tag it was built from.
pub proof fn lemma_parse_package(data: Seq<u8>, ext: u32, tag: u8)
    requires
        data.len() + 10 <= u32::MAX,
    ensures
        parse_ok(body_of(spec_package(data, ext, tag))),
        spec_parse(body_of(spec_package(data, ext, tag))) == Some(
            ((data.len() + 10) as nat, data, ext, tag),
        ),
{
    let p = spec_package(data, ext, tag);
    let b = body_of(p);
    lemma_pow256_values();
    lemma_be_roundtrip((data.len() + 10) as nat, 4);
    lemma_be_roundtrip(ext as nat, 4);
    assert(b =~= be_bytes((data.len() + 10) as nat, 4) + seq![tag] + data + seq![TOKEN_MID]
        + be_bytes(ext as nat, 4));
    assert(b.subrange(0, 4) =~= be_bytes((data.len() + 10) as nat, 4));
    assert(b.subrange(5, b.len() - 5) =~= data);
    assert(b.subrange(b.len() - 4, b.len() as int) =~= be_bytes(ext as nat, 4));
}

/// Each transform's `form` undoes its `to` on every input `to` accepts.
pub open spec fn transforms_invertible<T: DataTransform>(tfs: Seq<T>) -> bool {
    forall|i: int, x: Seq<u8>|
        #![trigger tfs[i].spec_to(x)]
        0 <= i < tfs.len() && tfs[i].to_ok(x) ==> tfs[i].form_ok(tfs[i].spec_to(x))
            && tfs[i].spec_form(tfs[i].spec_to(x)) == x
}

pub proof fn lemma_form_chain_undoes_to_chain<T: DataTransform>(tfs: Seq<T>, n: nat, d: Seq<u8>)
    requires
        n <= tfs.len(),
        transforms_invertible(tfs),
        to_chain_ok(tfs, n, d),
    ensures
        form_chain_ok(tfs, n, to_chain(tfs, n, d)),
        form_chain(tfs, n, to_chain(tfs, n, d)) == d,
    decreases n,
{
    if n > 0 {
        let prev = to_chain(tfs, (n - 1) as nat, d);
        assert(tfs[n - 1].spec_form(tfs[n - 1].spec_to(prev)) == prev);
        lemma_form_chain_undoes_to_chain(tfs, (n - 1) as nat, d);
    }
}

/// A package built by `package_tf` and read by `parse_tf` gives back the original
/// payload, ext and tag, whenever every transform's `form` undoes its `to`.
pub proof fn lemma_parse_tf_package_tf<T: DataTransform>(tfs: Seq<T>, d: Seq<u8>, ext: u32, tag: u8)
    requires
        tfs.len() > 0,
        transforms_invertible(tfs),
        to_chain_ok(tfs, tfs.len(), d),
        to_chain(tfs, tfs.len(), d).len() + 10 <= u32::MAX,
        d.len() + 10 <= u32::MAX,
    ensures
        ({
            let body = body_of(spec_package(to_chain(tfs, tfs.len(), d), ext, tag));
            let payload = body.subrange(5, body.len() - 5);
            &&& body.len() >= 10
            &&& form_chain_ok(tfs, tfs.len(), payload)
            &&& form_chain(tfs, tfs.len(), payload) == d
            &&& spec_parse(rebuilt_body(body, d)) == Some(((d.len() + 10) as nat, d, ext, tag))
        }),
{
    let t = to_chain(tfs, tfs.len(), d);
    let body = body_of(spec_package(t, ext, tag));
    lemma_pow256_values();
    lemma_be_roundtrip((t.len() + 10) as nat, 4);
    lemma_be_roundtrip(ext as nat, 4);
    assert(body =~= be_bytes((t.len() + 10) as nat, 4) + seq![tag] + t + seq![TOKEN_MID]
        + be_bytes(ext as nat, 4));
    assert(body.subrange(5, body.len() - 5) =~= t);
    lemma_form_chain_undoes_to_chain(tfs, tfs.len(), d);
    assert(rebuilt_body(body, d) =~= body_of(spec_package(d, ext, tag)));
    lemma_parse_package(d, ext, tag);
}

/// `TestDataTransform` can be undone on every input it accepts.
pub proof fn lemma_test_transform_invertible(t: TestDataTransform, x: Seq<u8>)
    requires
        t.to_ok(x),
    ensures
        t.form_ok(t.spec_to(x)),
        t.spec_form(t.spec_to(x)) =~= x,
{
}

} // verus!
