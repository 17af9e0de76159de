//! Reading packages out of a byte stream: bytes arrive in pieces of any size, and
//! each package is cut out once its length field and its closing token are in.
use vstd::prelude::*;
use crate::agreement::{spec_package, body_of};
use crate::bytes::{TOKEN_BEGIN, TOKEN_END, be_nat, be_bytes, lemma_pow256_values, lemma_be_roundtrip,
    lemma_be_nat_bound, read_be, copy_range, push_all};

verus! {

/// The index of the first begin token of `b` from `k` on, or the length of `b`.
pub open spec fn first_begin(b: Seq<u8>, k: int) -> int
    decreases b.len() - k,
{
    if k < 0 || k >= b.len() {
        b.len() as int
    } else if b[k] == TOKEN_BEGIN {
        k
    } else {
        first_begin(b, k + 1)
    }
}

/// One step of reading the bytes `b` received so far: bytes before the first begin
/// token are dropped; a package whose length field names at least a header and whose
/// closing token is in place is cut out and its body (without the two tokens) handed
/// on; a begin token with a length field that is too small, or whose package does not
/// close with the end token, is dropped; otherwise the bytes wait for more. Gives the
/// bytes kept and the body cut out, if any.
pub open spec fn spec_take(b: Seq<u8>) -> (Seq<u8>, Option<Seq<u8>>) {
    let c = b.subrange(first_begin(b, 0), b.len() as int);
    if c.len() < 5 {
        (c, None)
    } else {
        let l = be_nat(c.subrange(1, 5)) as int;
        if l < 10 {
            (c.drop_first(), None)
        } else if c.len() < l + 2 {
            (c, None)
        } else if c[l + 1] != TOKEN_END {
            (c.drop_first(), None)
        } else {
            (c.subrange(l + 2, c.len() as int), Some(c.subrange(1, l + 1)))
        }
    }
}

proof fn lemma_first_begin(b: Seq<u8>, k: int)
    requires
        0 <= k <= b.len(),
    ensures
        k <= first_begin(b, k) <= b.len(),
        first_begin(b, k) < b.len() ==> b[first_begin(b, k)] == TOKEN_BEGIN,
    decreases b.len() - k,
{
    if k < b.len() && b[k] != TOKEN_BEGIN {
        lemma_first_begin(b, k + 1);
    }
}

/// One turn of a client's reading from the held bytes `held`: the bytes `data`
/// received this turn, if any, are added and a step taken; when that cuts nothing out
/// and a step would change what is held, a second step is taken.
pub open spec fn spec_read_step(held: Seq<u8>, data: Option<Seq<u8>>) -> (Seq<u8>, Option<Seq<u8>>) {
    let (b1, o1) = match data {
        Some(d) => spec_take(held + d),
        None => (held, None),
    };
    if o1 is None && spec_take(b1) != (b1, None::<Seq<u8>>) {
        spec_take(b1)
    } else {
        (b1, o1)
    }
}

/// Reads packages out of a byte stream.
pub struct DefSubpackage {
    buf: Vec<u8>,
}

impl View for DefSubpackage {
    type V = Seq<u8>;

    closed spec fn view(&self) -> Seq<u8> {
        self.buf@
    }
}

impl DefSubpackage {
    pub fn new() -> (r: DefSubpackage)
        ensures
            r@ == Seq::<u8>::empty(),
    {
        DefSubpackage { buf: Vec::new() }
    }

    /// Where the step on `b` cuts: the first begin token, the length field when it
    /// is read, and what the step does (0 waits, 1 drops the begin token, 2 cuts a
    /// package out).
    fn plan(b: &[u8]) -> (r: (usize, usize, u8))
        ensures
            r.0 == first_begin(b@, 0),
            ({
                let c = b@.subrange(r.0 as int, b@.len() as int);
                &&& c.len() < 5 ==> r.2 == 0
                &&& c.len() >= 5 ==> {
                    let l = be_nat(c.subrange(1, 5)) as int;
                    &&& r.2 == 2 ==> r.1 == l
                    &&& r.2 == (if l < 10 {
                        1u8
                    } else if c.len() < l + 2 {
                        0u8
                    } else if c[l + 1] != TOKEN_END {
                        1u8
                    } else {
                        2u8
                    })
                }
            }),
    {
        let n = b.len();
        let mut k: usize = 0;
        while k < n && b[k] != TOKEN_BEGIN
            invariant
                k <= n == b@.len(),
                first_begin(b@, k as int) == first_begin(b@, 0),
            decreases n - k,
        {
            k = k + 1;
        }
        proof {
            lemma_first_begin(b@, k as int);
        }
        if n - k < 5 {
            return (k, 0, 0);
        }
        let ghost c = b@.subrange(k as int, n as int);
        proof {
            lemma_pow256_values();
            lemma_be_nat_bound(b@.subrange(k + 1, k + 5));
            assert(c.subrange(1, 5) =~= b@.subrange(k + 1, k + 5));
        }
        let l = read_be(b, k + 1, 4);
        if l < 10 {
            (k, 0, 1)
        } else if ((n - k) as u128) < l + 2 {
            (k, 0, 0)
        } else {
            let l = l as usize;
            if b[k + l + 1] != TOKEN_END {
                (k, l, 1)
            } else {
                (k, l, 2)
            }
        }
    }

    /// Adds the first `len` bytes of `data` to what was received and takes one step
    /// (see `spec_take`).
    pub fn subpackage(&mut self, data: &[u8], len: usize) -> (r: Option<Vec<u8>>)
        requires
            len <= data@.len(),
        ensures
            ({
                let (b, o) = spec_take(old(self)@ + data@.subrange(0, len as int));
                &&& final(self)@ == b
                &&& match o {
                    None => r is None,
                    Some(p) => r matches Some(v) && v@ == p,
                }
            }),
    {
        let part = copy_range(data, 0, len);
        push_all(&mut self.buf, part.as_slice());
        let (k, l, kind) = Self::plan(self.buf.as_slice());
        let n = self.buf.len();
        proof {
            lemma_first_begin(self.buf@, 0);
        }
        if kind == 0 {
            let rest = copy_range(self.buf.as_slice(), k, n);
            self.buf = rest;
            None
        } else if kind == 1 {
            let rest = copy_range(self.buf.as_slice(), k + 1, n);
            self.buf = rest;
            None
        } else {
            let body = copy_range(self.buf.as_slice(), k + 1, k + l + 1);
            let rest = copy_range(self.buf.as_slice(), k + l + 2, n);
            self.buf = rest;
            Some(body)
        }
    }

    /// One turn of a client's reading: newly received bytes `data`, when there are any,
    /// are added and a step taken; when that cuts nothing out and a step on what is held
    /// would change something, one more step is taken (see `spec_read_step`).
    pub fn read_step(&mut self, data: Option<&[u8]>) -> (r: Option<Vec<u8>>)
        ensures
            ({
                let (b, o) = spec_read_step(
                    old(self)@,
                    match data {
                        Some(d) => Some(d@),
                        None => None,
                    },
                );
                &&& final(self)@ == b
                &&& match o {
                    None => r is None,
                    Some(p) => r matches Some(v) && v@ == p,
                }
            }),
    {
        let mut package = match data {
            Some(d) => self.subpackage(d, d.len()),
            None => None,
        };
        proof {
            assert(old(self)@ + Seq::<u8>::empty() =~= old(self)@);
            if let Some(d) = data {
                assert(d@.subrange(0, d@.len() as int) =~= d@);
            }
        }
        if package.is_none() && self.need_check() {
            let empty: Vec<u8> = Vec::new();
            let ghost b1 = self@;
            proof {
                assert(b1 + empty@.subrange(0, 0) =~= b1);
            }
            package = self.subpackage(empty.as_slice(), 0);
        }
        package
    }

    /// Whether a step on what is held would change something: drop bytes or cut a
    /// package out.
    pub fn need_check(&self) -> (r: bool)
        ensures
            r == (spec_take(self@) != (self@, None::<Seq<u8>>)),
    {
        let (k, l, kind) = Self::plan(self.buf.as_slice());
        proof {
            lemma_first_begin(self@, 0);
            let c = self@.subrange(k as int, self@.len() as int);
            if k > 0 {
                assert(c.len() < self@.len());
            } else {
                assert(c =~= self@);
            }
            if kind == 1 {
                assert(c.drop_first().len() < self@.len());
            }
        }
        k > 0 || kind != 0
    }
}

/// A package followed by any bytes is cut out whole: the body comes out, and the bytes
/// after it are kept.
pub proof fn lemma_take_package(data: Seq<u8>, ext: u32, tag: u8, tail: Seq<u8>)
    requires
        data.len() + 10 <= u32::MAX,
    ensures
        spec_take(spec_package(data, ext, tag) + tail) == (tail, Some(body_of(spec_package(data, ext, tag)))),
{
    let p = spec_package(data, ext, tag);
    let b = p + tail;
    lemma_pow256_values();
    lemma_be_roundtrip((data.len() + 10) as nat, 4);
    lemma_be_roundtrip(ext as nat, 4);
    assert(b[0] == TOKEN_BEGIN);
    assert(b.subrange(0, b.len() as int) =~= b);
    let l: int = data.len() as int + 10;
    assert(b.subrange(1, 5) =~= be_bytes((data.len() + 10) as nat, 4));
    assert(p.len() == l + 2);
    assert(b[l + 1] == TOKEN_END);
    assert(b.subrange(l + 2, b.len() as int) =~= tail);
    assert(b.subrange(1, l + 1) =~= body_of(p));
}

} // verus!

verus! {

/// A turn of reading takes out one package at a time, oldest first: when the bytes
/// received this turn, after what is held, are two whole packages, the turn gives the
/// first and keeps the second, and the next turn with nothing received gives the
/// second and keeps nothing.
pub proof fn lemma_read_turns(held: Seq<u8>, a: Seq<u8>, ea: u32, ta: u8, b: Seq<u8>, eb: u32, tb: u8)
    requires
        held.len() == 0,
        a.len() + 10 <= u32::MAX,
        b.len() + 10 <= u32::MAX,
    ensures
        ({
            let pa = spec_package(a, ea, ta);
            let pb = spec_package(b, eb, tb);
            let (k1, o1) = spec_read_step(held, Some(pa + pb));
            let (k2, o2) = spec_read_step(k1, None);
            &&& o1 == Some(body_of(pa)) && k1 == pb
            &&& o2 == Some(body_of(pb)) && k2 == Seq::<u8>::empty()
        }),
{
    let pa = spec_package(a, ea, ta);
    let pb = spec_package(b, eb, tb);
    assert(held + (pa + pb) =~= pa + pb);
    lemma_take_package(a, ea, ta, pb);
    lemma_take_package(b, eb, tb, Seq::empty());
    assert(pb + Seq::<u8>::empty() =~= pb);
}

} // verus!
