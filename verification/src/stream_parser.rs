//! A cursor over a byte slice, and the big-endian integer readers built on it.
use vstd::prelude::*;
use crate::bytes::{pow256, be_nat, be_bytes, lemma_pow256_values, lemma_be_nat_bound, lemma_be_roundtrip, read_be, lemma_pow256_mono};

verus! {

/// A cursor over `data`: `ptr` is the index of the next unread byte.
pub struct Stream<'a> {
    data: &'a [u8],
    ptr: usize,
}

impl<'a> Stream<'a> {
    #[verifier::type_invariant]
    spec fn inv(self) -> bool {
        self.ptr <= self.data@.len()
    }

    /// The bytes the cursor runs over.
    pub closed spec fn data(&self) -> Seq<u8> {
        self.data@
    }

    /// The index of the next unread byte.
    pub closed spec fn ptr(&self) -> nat {
        self.ptr as nat
    }

    pub fn new(data: &'a [u8]) -> (r: Stream<'a>)
        ensures
            r.data() == data@,
            r.ptr() == 0,
    {
        Stream { data, ptr: 0 }
    }

    /// The next byte, if any is left.
    pub fn next(&mut self) -> (r: Option<u8>)
        ensures
            final(self).data() == old(self).data(),
            final(self).ptr() <= final(self).data().len(),
            old(self).ptr() < old(self).data().len() ==> r == Some(old(self).data()[old(self).ptr() as int])
                && final(self).ptr() == old(self).ptr() + 1,
            old(self).ptr() >= old(self).data().len() ==> r is None && final(self).ptr() == old(self).ptr(),
    {
        proof {
            use_type_invariant(&*self);
        }
        if self.ptr >= self.data.len() {
            return None;
        }
        let p = self.ptr;
        self.ptr = self.ptr + 1;
        Some(self.data[p])
    }

    /// The next `len` bytes, if that many are left.
    pub fn next_range(&mut self, len: usize) -> (r: Option<&'a [u8]>)
        requires
            len >= 1,
            old(self).ptr() + len - 1 <= usize::MAX,
        ensures
            final(self).data() == old(self).data(),
            final(self).ptr() <= final(self).data().len(),
            old(self).ptr() + len <= old(self).data().len() ==> (r matches Some(s) && s@
                == old(self).data().subrange(old(self).ptr() as int, old(self).ptr() + len)
                && final(self).ptr() == old(self).ptr() + len),
            old(self).ptr() + len > old(self).data().len() ==> r is None && final(self).ptr()
                == old(self).ptr(),
    {
        proof {
            use_type_invariant(&*self);
        }
        let e = self.ptr + (len - 1);
        if e >= self.data.len() {
            return None;
        }
        let p = self.ptr;
        self.ptr = self.ptr + len;
        Some(vstd::slice::slice_subrange(self.data, p, e + 1))
    }

    /// Moves the cursor `n` bytes on, if that many are left.
    pub fn skip(&mut self, n: usize) -> (r: bool)
        requires
            n >= 1,
            old(self).ptr() + n - 1 <= usize::MAX,
        ensures
            final(self).data() == old(self).data(),
            final(self).ptr() <= final(self).data().len(),
            r == (old(self).ptr() + n <= old(self).data().len()),
            r ==> final(self).ptr() == old(self).ptr() + n,
            !r ==> final(self).ptr() == old(self).ptr(),
    {
        proof {
            use_type_invariant(&*self);
        }
        let e = self.ptr + (n - 1);
        if e >= self.data.len() {
            return false;
        }
        self.ptr = self.ptr + n;
        true
    }

    /// The bytes not read yet.
    pub fn get_rest(&self) -> (r: &'a [u8])
        ensures
            r@ == self.data().subrange(self.ptr() as int, self.data().len() as int),
    {
        proof {
            use_type_invariant(self);
        }
        vstd::slice::slice_subrange(self.data, self.ptr, self.data.len())
    }
}

/// The unsigned number held in the `n` bytes at `ptr`, and the index after them.
pub open spec fn spec_uint_at(data: Seq<u8>, ptr: nat, n: nat) -> Option<(nat, nat)> {
    if ptr + n <= data.len() {
        Some((be_nat(data.subrange(ptr as int, (ptr + n) as int)), ptr + n))
    } else {
        None
    }
}

/// The two's complement reading of the unsigned number `v` whose width gives
/// `half` as the first value with the sign bit set.
pub open spec fn signed_of(v: nat, half: nat) -> int {
    if v < half {
        v as int
    } else {
        v - 2 * half
    }
}

/// The byte width of `usize` on this machine, and the bound it gives.
pub proof fn lemma_usize_width()
    ensures
        vstd::layout::size_of::<usize>() == 4 || vstd::layout::size_of::<usize>() == 8,
        usize::MAX + 1 == pow256(vstd::layout::size_of::<usize>()),
        isize::MAX + 1 == pow256(vstd::layout::size_of::<usize>()) / 2,
        isize::MIN == -(pow256(vstd::layout::size_of::<usize>()) / 2),
        vstd::layout::size_of::<isize>() == vstd::layout::size_of::<usize>(),
{
    broadcast use vstd::layout::layout_of_primitives;
    lemma_pow256_values();
}

/// Reads an `n`-byte big-endian number at the cursor.
fn parse_uint(stream: &mut Stream, n: usize) -> (r: Option<u128>)
    requires
        1 <= n <= 16,
        old(stream).ptr() + n - 1 <= usize::MAX,
    ensures
        final(stream).data() == old(stream).data(),
        match spec_uint_at(old(stream).data(), old(stream).ptr(), n as nat) {
            Some((v, p)) => (r matches Some(x) && x as nat == v) && final(stream).ptr() == p,
            None => r is None && final(stream).ptr() == old(stream).ptr(),
        },
        r matches Some(x) ==> x < pow256(n as nat),
{
    match stream.next_range(n) {
        Some(d) => {
            proof {
                lemma_be_nat_bound(d@);
                lemma_pow256_values();
                lemma_pow256_mono(n as nat, 16);
                assert(d@.subrange(0, n as int) =~= d@);
            }
            let x = read_be(d, 0, n);
            Some(x)
        },
        None => None,
    }
}

/// Values that can be read from a `Stream`.
pub trait StreamParse: Sized {
    /// The cursor positions at which reading returns instead of panicking.
    spec fn spec_parse_ok(data: Seq<u8>, ptr: nat) -> bool;

    /// The value read at `ptr` and the index after it, or `None`.
    spec fn spec_parse(data: Seq<u8>, ptr: nat) -> Option<(Self, nat)>;

    /// The cursor positions at which `stream_parse_ex` on `self` returns.
    spec fn spec_parse_ex_ok(&self, data: Seq<u8>, ptr: nat) -> bool;

    fn stream_parse(stream: &mut Stream) -> (r: Option<Self>)
        requires
            Self::spec_parse_ok(old(stream).data(), old(stream).ptr()),
        ensures
            final(stream).data() == old(stream).data(),
            match Self::spec_parse(old(stream).data(), old(stream).ptr()) {
                Some((v, p)) => r == Some(v) && final(stream).ptr() == p,
                None => r is None && final(stream).ptr() == old(stream).ptr(),
            },
    ;

    /// Reads a value into `self`; tells whether one was read.
    fn stream_parse_ex(&mut self, stream: &mut Stream) -> (ok: bool)
        requires
            Self::spec_parse_ok(old(stream).data(), old(stream).ptr()),
            old(self).spec_parse_ex_ok(old(stream).data(), old(stream).ptr()),
        ensures
            final(stream).data() == old(stream).data(),
        default_ensures
            match Self::spec_parse(old(stream).data(), old(stream).ptr()) {
                Some((v, p)) => ok && *final(self) == v && final(stream).ptr() == p,
                None => !ok && *final(self) == *old(self) && final(stream).ptr() == old(
                    stream,
                ).ptr(),
            },
    {
        match Self::stream_parse(stream) {
            Some(v) => {
                *self = v;
                true
            },
            None => false,
        }
    }
}

/// Skips `N` bytes.
pub struct Skip<const N: usize> {}

impl<const N: usize> StreamParse for Skip<N> {
    open spec fn spec_parse_ok(data: Seq<u8>, ptr: nat) -> bool {
        N >= 1 && ptr + N - 1 <= usize::MAX
    }

    open spec fn spec_parse(data: Seq<u8>, ptr: nat) -> Option<(Self, nat)> {
        if ptr + N <= data.len() {
            Some((Skip::<N> {  }, (ptr + N) as nat))
        } else {
            None
        }
    }

    open spec fn spec_parse_ex_ok(&self, data: Seq<u8>, ptr: nat) -> bool {
        Self::spec_parse_ok(data, ptr)
    }

    fn stream_parse(stream: &mut Stream) -> (r: Option<Self>) {
        if stream.skip(N) {
            Some(Skip::<N> {  })
        } else {
            None
        }
    }
}

/// Skips a number of bytes chosen at run time.
pub struct SkipRt {
    pub n: usize,
}

impl SkipRt {
    pub fn from_usize(v: usize) -> (r: SkipRt)
        ensures
            r.n == v,
    {
        SkipRt { n: v }
    }

    pub fn into_usize(self) -> (r: usize)
        ensures
            r == self.n,
    {
        self.n
    }
}

impl StreamParse for SkipRt {
    open spec fn spec_parse_ok(data: Seq<u8>, ptr: nat) -> bool {
        true
    }

    open spec fn spec_parse(data: Seq<u8>, ptr: nat) -> Option<(Self, nat)> {
        None
    }

    open spec fn spec_parse_ex_ok(&self, data: Seq<u8>, ptr: nat) -> bool {
        self.n >= 1 && ptr + self.n - 1 <= usize::MAX
    }

    fn stream_parse(stream: &mut Stream) -> (r: Option<Self>) {
        None
    }

    fn stream_parse_ex(&mut self, stream: &mut Stream) -> (ok: bool)
        ensures
            ok == (old(stream).ptr() + old(self).n <= old(stream).data().len()),
            ok ==> final(stream).ptr() == old(stream).ptr() + old(self).n,
            !ok ==> final(stream).ptr() == old(stream).ptr(),
            *final(self) == *old(self),
    {
        stream.skip(self.n)
    }
}


impl StreamParse for u16 {
    open spec fn spec_parse_ok(data: Seq<u8>, ptr: nat) -> bool {
        ptr + 1 <= usize::MAX
    }

    open spec fn spec_parse(data: Seq<u8>, ptr: nat) -> Option<(Self, nat)> {
        match spec_uint_at(data, ptr, 2) {
            Some((v, p)) => Some(((v as u16), p)),
            None => None,
        }
    }

    open spec fn spec_parse_ex_ok(&self, data: Seq<u8>, ptr: nat) -> bool {
        Self::spec_parse_ok(data, ptr)
    }

    fn stream_parse(stream: &mut Stream) -> (r: Option<Self>) {
        match parse_uint(stream, 2) {
            Some(v) => {
                proof {
                    lemma_pow256_values();
                }
                Some(v as u16)
            },
            None => None,
        }
    }
}

impl StreamParse for i16 {
    open spec fn spec_parse_ok(data: Seq<u8>, ptr: nat) -> bool {
        ptr + 1 <= usize::MAX
    }

    open spec fn spec_parse(data: Seq<u8>, ptr: nat) -> Option<(Self, nat)> {
        match spec_uint_at(data, ptr, 2) {
            Some((v, p)) => Some(((signed_of(v, 0x8000) as i16), p)),
            None => None,
        }
    }

    open spec fn spec_parse_ex_ok(&self, data: Seq<u8>, ptr: nat) -> bool {
        Self::spec_parse_ok(data, ptr)
    }

    fn stream_parse(stream: &mut Stream) -> (r: Option<Self>) {
        match parse_uint(stream, 2) {
            Some(v) => {
                proof {
                    lemma_pow256_values();
                }
                let u = v as u16;
                if u < 0x8000 {
                    Some(u as i16)
                } else {
                    Some(((u - 0x8000) as i16) + i16::MIN)
                }
            },
            None => None,
        }
    }
}

impl StreamParse for u32 {
    open spec fn spec_parse_ok(data: Seq<u8>, ptr: nat) -> bool {
        ptr + 3 <= usize::MAX
    }

    open spec fn spec_parse(data: Seq<u8>, ptr: nat) -> Option<(Self, nat)> {
        match spec_uint_at(data, ptr, 4) {
            Some((v, p)) => Some(((v as u32), p)),
            None => None,
        }
    }

    open spec fn spec_parse_ex_ok(&self, data: Seq<u8>, ptr: nat) -> bool {
        Self::spec_parse_ok(data, ptr)
    }

    fn stream_parse(stream: &mut Stream) -> (r: Option<Self>) {
        match parse_uint(stream, 4) {
            Some(v) => {
                proof {
                    lemma_pow256_values();
                }
                Some(v as u32)
            },
            None => None,
        }
    }
}

impl StreamParse for i32 {
    open spec fn spec_parse_ok(data: Seq<u8>, ptr: nat) -> bool {
        ptr + 3 <= usize::MAX
    }

    open spec fn spec_parse(data: Seq<u8>, ptr: nat) -> Option<(Self, nat)> {
        match spec_uint_at(data, ptr, 4) {
            Some((v, p)) => Some(((signed_of(v, 0x8000_0000) as i32), p)),
            None => None,
        }
    }

    open spec fn spec_parse_ex_ok(&self, data: Seq<u8>, ptr: nat) -> bool {
        Self::spec_parse_ok(data, ptr)
    }

    fn stream_parse(stream: &mut Stream) -> (r: Option<Self>) {
        match parse_uint(stream, 4) {
            Some(v) => {
                proof {
                    lemma_pow256_values();
                }
                let u = v as u32;
                if u < 0x8000_0000 {
                    Some(u as i32)
                } else {
                    Some(((u - 0x8000_0000) as i32) + i32::MIN)
                }
            },
            None => None,
        }
    }
}

impl StreamParse for u64 {
    open spec fn spec_parse_ok(data: Seq<u8>, ptr: nat) -> bool {
        ptr + 7 <= usize::MAX
    }

    open spec fn spec_parse(data: Seq<u8>, ptr: nat) -> Option<(Self, nat)> {
        match spec_uint_at(data, ptr, 8) {
            Some((v, p)) => Some(((v as u64), p)),
            None => None,
        }
    }

    open spec fn spec_parse_ex_ok(&self, data: Seq<u8>, ptr: nat) -> bool {
        Self::spec_parse_ok(data, ptr)
    }

    fn stream_parse(stream: &mut Stream) -> (r: Option<Self>) {
        match parse_uint(stream, 8) {
            Some(v) => {
                proof {
                    lemma_pow256_values();
                }
                Some(v as u64)
            },
            None => None,
        }
    }
}

impl StreamParse for i64 {
    open spec fn spec_parse_ok(data: Seq<u8>, ptr: nat) -> bool {
        ptr + 7 <= usize::MAX
    }

    open spec fn spec_parse(data: Seq<u8>, ptr: nat) -> Option<(Self, nat)> {
        match spec_uint_at(data, ptr, 8) {
            Some((v, p)) => Some(((signed_of(v, 0x8000_0000_0000_0000) as i64), p)),
            None => None,
        }
    }

    open spec fn spec_parse_ex_ok(&self, data: Seq<u8>, ptr: nat) -> bool {
        Self::spec_parse_ok(data, ptr)
    }

    fn stream_parse(stream: &mut Stream) -> (r: Option<Self>) {
        match parse_uint(stream, 8) {
            Some(v) => {
                proof {
                    lemma_pow256_values();
                }
                let u = v as u64;
                if u < 0x8000_0000_0000_0000 {
                    Some(u as i64)
                } else {
                    Some(((u - 0x8000_0000_0000_0000) as i64) + i64::MIN)
                }
            },
            None => None,
        }
    }
}

impl StreamParse for u128 {
    open spec fn spec_parse_ok(data: Seq<u8>, ptr: nat) -> bool {
        ptr + 15 <= usize::MAX
    }

    open spec fn spec_parse(data: Seq<u8>, ptr: nat) -> Option<(Self, nat)> {
        match spec_uint_at(data, ptr, 16) {
            Some((v, p)) => Some(((v as u128), p)),
            None => None,
        }
    }

    open spec fn spec_parse_ex_ok(&self, data: Seq<u8>, ptr: nat) -> bool {
        Self::spec_parse_ok(data, ptr)
    }

    fn stream_parse(stream: &mut Stream) -> (r: Option<Self>) {
        match parse_uint(stream, 16) {
            Some(v) => {
                proof {
                    lemma_pow256_values();
                }
                Some(v as u128)
            },
            None => None,
        }
    }
}

impl StreamParse for i128 {
    open spec fn spec_parse_ok(data: Seq<u8>, ptr: nat) -> bool {
        ptr + 15 <= usize::MAX
    }

    open spec fn spec_parse(data: Seq<u8>, ptr: nat) -> Option<(Self, nat)> {
        match spec_uint_at(data, ptr, 16) {
            Some((v, p)) => Some(((signed_of(v, 0x8000_0000_0000_0000_0000_0000_0000_0000) as i128), p)),
            None => None,
        }
    }

    open spec fn spec_parse_ex_ok(&self, data: Seq<u8>, ptr: nat) -> bool {
        Self::spec_parse_ok(data, ptr)
    }

    fn stream_parse(stream: &mut Stream) -> (r: Option<Self>) {
        match parse_uint(stream, 16) {
            Some(v) => {
                proof {
                    lemma_pow256_values();
                }
                let u = v as u128;
                if u < 0x8000_0000_0000_0000_0000_0000_0000_0000 {
                    Some(u as i128)
                } else {
                    Some(((u - 0x8000_0000_0000_0000_0000_0000_0000_0000) as i128) + i128::MIN)
                }
            },
            None => None,
        }
    }
}

impl StreamParse for usize {
    open spec fn spec_parse_ok(data: Seq<u8>, ptr: nat) -> bool {
        ptr + vstd::layout::size_of::<usize>() - 1 <= usize::MAX
    }

    open spec fn spec_parse(data: Seq<u8>, ptr: nat) -> Option<(Self, nat)> {
        match spec_uint_at(data, ptr, vstd::layout::size_of::<usize>()) {
            Some((v, p)) => Some((v as usize, p)),
            None => None,
        }
    }

    open spec fn spec_parse_ex_ok(&self, data: Seq<u8>, ptr: nat) -> bool {
        Self::spec_parse_ok(data, ptr)
    }

    fn stream_parse(stream: &mut Stream) -> (r: Option<Self>) {
        proof {
            lemma_usize_width();
        }
        match parse_uint(stream, core::mem::size_of::<usize>()) {
            Some(v) => Some(v as usize),
            None => None,
        }
    }
}

impl StreamParse for isize {
    open spec fn spec_parse_ok(data: Seq<u8>, ptr: nat) -> bool {
        ptr + vstd::layout::size_of::<isize>() - 1 <= usize::MAX
    }

    open spec fn spec_parse(data: Seq<u8>, ptr: nat) -> Option<(Self, nat)> {
        match spec_uint_at(data, ptr, vstd::layout::size_of::<isize>()) {
            Some((v, p)) => Some(
                (signed_of(v, pow256(vstd::layout::size_of::<isize>()) / 2) as isize, p),
            ),
            None => None,
        }
    }

    open spec fn spec_parse_ex_ok(&self, data: Seq<u8>, ptr: nat) -> bool {
        Self::spec_parse_ok(data, ptr)
    }

    fn stream_parse(stream: &mut Stream) -> (r: Option<Self>) {
        proof {
            lemma_usize_width();
        }
        match parse_uint(stream, core::mem::size_of::<isize>()) {
            Some(v) => {
                let u = v as usize;
                if u <= isize::MAX as usize {
                    Some(u as isize)
                } else {
                    Some(((u - (isize::MAX as usize) - 1) as isize) + isize::MIN)
                }
            },
            None => None,
        }
    }
}

} // verus!

verus! {

/// The `n` bytes at `ptr` that are the big-endian bytes of `v` read as `v`.
proof fn lemma_uint_read(d: Seq<u8>, ptr: nat, n: nat, v: nat)
    requires
        ptr + n <= d.len(),
        v < pow256(n),
        d.subrange(ptr as int, (ptr + n) as int) == be_bytes(v, n),
    ensures
        spec_uint_at(d, ptr, n) == Some((v, ptr + n)),
{
    lemma_be_roundtrip(v, n);
}

/// Reading a `u16` gives back the number whose 2 big-endian bytes (as
/// `to_be_bytes` writes them) stand at the cursor, and moves the cursor past them.
pub proof fn lemma_parse_u16(d: Seq<u8>, ptr: nat, x: u16)
    requires
        ptr + 2 <= d.len(),
        d.subrange(ptr as int, (ptr + 2) as int) == be_bytes(((x as int) % (pow256(2) as int)) as nat, 2),
    ensures
        <u16 as StreamParse>::spec_parse(d, ptr) == Some((x, ptr + 2)),
{
    lemma_pow256_values();
    lemma_uint_read(d, ptr, 2, ((x as int) % (pow256(2) as int)) as nat);
}

/// Reading a `i16` gives back the number whose 2 big-endian two's complement bytes (as
/// `to_be_bytes` writes them) stand at the cursor, and moves the cursor past them.
pub proof fn lemma_parse_i16(d: Seq<u8>, ptr: nat, x: i16)
    requires
        ptr + 2 <= d.len(),
        d.subrange(ptr as int, (ptr + 2) as int) == be_bytes(((x as int) % (pow256(2) as int)) as nat, 2),
    ensures
        <i16 as StreamParse>::spec_parse(d, ptr) == Some((x, ptr + 2)),
{
    lemma_pow256_values();
    lemma_uint_read(d, ptr, 2, ((x as int) % (pow256(2) as int)) as nat);
}

/// Reading a `u32` gives back the number whose 4 big-endian bytes (as
/// `to_be_bytes` writes them) stand at the cursor, and moves the cursor past them.
pub proof fn lemma_parse_u32(d: Seq<u8>, ptr: nat, x: u32)
    requires
        ptr + 4 <= d.len(),
        d.subrange(ptr as int, (ptr + 4) as int) == be_bytes(((x as int) % (pow256(4) as int)) as nat, 4),
    ensures
        <u32 as StreamParse>::spec_parse(d, ptr) == Some((x, ptr + 4)),
{
    lemma_pow256_values();
    lemma_uint_read(d, ptr, 4, ((x as int) % (pow256(4) as int)) as nat);
}

/// Reading a `i32` gives back the number whose 4 big-endian two's complement bytes (as
/// `to_be_bytes` writes them) stand at the cursor, and moves the cursor past them.
pub proof fn lemma_parse_i32(d: Seq<u8>, ptr: nat, x: i32)
    requires
        ptr + 4 <= d.len(),
        d.subrange(ptr as int, (ptr + 4) as int) == be_bytes(((x as int) % (pow256(4) as int)) as nat, 4),
    ensures
        <i32 as StreamParse>::spec_parse(d, ptr) == Some((x, ptr + 4)),
{
    lemma_pow256_values();
    lemma_uint_read(d, ptr, 4, ((x as int) % (pow256(4) as int)) as nat);
}

/// Reading a `u64` gives back the number whose 8 big-endian bytes (as
/// `to_be_bytes` writes them) stand at the cursor, and moves the cursor past them.
pub proof fn lemma_parse_u64(d: Seq<u8>, ptr: nat, x: u64)
    requires
        ptr + 8 <= d.len(),
        d.subrange(ptr as int, (ptr + 8) as int) == be_bytes(((x as int) % (pow256(8) as int)) as nat, 8),
    ensures
        <u64 as StreamParse>::spec_parse(d, ptr) == Some((x, ptr + 8)),
{
    lemma_pow256_values();
    lemma_uint_read(d, ptr, 8, ((x as int) % (pow256(8) as int)) as nat);
}

/// Reading a `i64` gives back the number whose 8 big-endian two's complement bytes (as
/// `to_be_bytes` writes them) stand at the cursor, and moves the cursor past them.
pub proof fn lemma_parse_i64(d: Seq<u8>, ptr: nat, x: i64)
    requires
        ptr + 8 <= d.len(),
        d.subrange(ptr as int, (ptr + 8) as int) == be_bytes(((x as int) % (pow256(8) as int)) as nat, 8),
    ensures
        <i64 as StreamParse>::spec_parse(d, ptr) == Some((x, ptr + 8)),
{
    lemma_pow256_values();
    lemma_uint_read(d, ptr, 8, ((x as int) % (pow256(8) as int)) as nat);
}

/// Reading a `u128` gives back the number whose 16 big-endian bytes (as
/// `to_be_bytes` writes them) stand at the cursor, and moves the cursor past them.
pub proof fn lemma_parse_u128(d: Seq<u8>, ptr: nat, x: u128)
    requires
        ptr + 16 <= d.len(),
        d.subrange(ptr as int, (ptr + 16) as int) == be_bytes(((x as int) % (pow256(16) as int)) as nat, 16),
    ensures
        <u128 as StreamParse>::spec_parse(d, ptr) == Some((x, ptr + 16)),
{
    lemma_pow256_values();
    lemma_uint_read(d, ptr, 16, ((x as int) % (pow256(16) as int)) as nat);
}

/// Reading a `i128` gives back the number whose 16 big-endian two's complement bytes (as
/// `to_be_bytes` writes them) stand at the cursor, and moves the cursor past them.
pub proof fn lemma_parse_i128(d: Seq<u8>, ptr: nat, x: i128)
    requires
        ptr + 16 <= d.len(),
        d.subrange(ptr as int, (ptr + 16) as int) == be_bytes(((x as int) % (pow256(16) as int)) as nat, 16),
    ensures
        <i128 as StreamParse>::spec_parse(d, ptr) == Some((x, ptr + 16)),
{
    lemma_pow256_values();
    lemma_uint_read(d, ptr, 16, ((x as int) % (pow256(16) as int)) as nat);
}

/// Reading a `usize` gives back the number whose big-endian bytes, as many as a
/// `usize` has, stand at the cursor, and moves the cursor past them.
pub proof fn lemma_parse_usize(d: Seq<u8>, ptr: nat, x: usize)
    requires
        ptr + vstd::layout::size_of::<usize>() <= d.len(),
        d.subrange(ptr as int, (ptr + vstd::layout::size_of::<usize>()) as int) == be_bytes(
            x as nat,
            vstd::layout::size_of::<usize>(),
        ),
    ensures
        <usize as StreamParse>::spec_parse(d, ptr) == Some((x, ptr + vstd::layout::size_of::<usize>())),
{
    lemma_usize_width();
    lemma_uint_read(d, ptr, vstd::layout::size_of::<usize>(), x as nat);
}

/// Reading an `isize` gives back the number whose big-endian two's complement bytes,
/// as many as an `isize` has, stand at the cursor, and moves the cursor past them.
pub proof fn lemma_parse_isize(d: Seq<u8>, ptr: nat, x: isize)
    requires
        ptr + vstd::layout::size_of::<isize>() <= d.len(),
        d.subrange(ptr as int, (ptr + vstd::layout::size_of::<isize>()) as int) == be_bytes(
            ((x as int) % (pow256(vstd::layout::size_of::<isize>()) as int)) as nat,
            vstd::layout::size_of::<isize>(),
        ),
    ensures
        <isize as StreamParse>::spec_parse(d, ptr) == Some((x, ptr + vstd::layout::size_of::<isize>())),
{
    lemma_usize_width();
    lemma_pow256_values();
    let n = vstd::layout::size_of::<isize>();
    let p = pow256(n) as int;
    let v = ((x as int) % p) as nat;
    if n == 4 {
        assert(p == 0x1_0000_0000);
    } else {
        assert(p == 0x1_0000_0000_0000_0000);
    }
    assert(p / 2 == isize::MAX + 1);
    if x >= 0 {
        vstd::arithmetic::div_mod::lemma_small_mod(x as nat, p as nat);
        assert(v == x);
    } else {
        vstd::arithmetic::div_mod::lemma_mod_add_multiples_vanish(x as int, p);
        vstd::arithmetic::div_mod::lemma_small_mod((x + p) as nat, p as nat);
        assert(v == x + p);
    }
    assert(signed_of(v, (p / 2) as nat) == x);
    lemma_uint_read(d, ptr, n, v);
}

} // verus!
