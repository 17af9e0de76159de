//! The RSA key exchange that sets up encryption of a connection: the public key
//! message format, the order of the exchange, and which messages are encrypted.
use vstd::prelude::*;
use vstd::arithmetic::power2::{pow2, lemma2_to64};
use std::collections::HashSet;
use crate::bytes::{be_nat, be_bytes, lemma_pow256_values, lemma_be_roundtrip, lemma_be_bytes_len, lemma_be_nat_bound, push_be, push_all, read_be, copy_range};
use crate::extc::{EXT_SEND_FILE_CREATE, EXT_SEND_FILE, EXT_SEND_FILE_ELF, EXT_SAVE_FILE_CREATE, EXT_SAVE_FILE, EXT_SAVE_FILE_ELF, EXT_SAVE_FILE_RET, EXT_SAVE_FILE_CREATE_RET, EXT_SAVE_FILE_ELF_RET, EXT_UPLOAD_FILE_CREATE, EXT_UPLOAD_FILE, EXT_UPLOAD_FILE_ELF};

verus! {

broadcast use vstd::std_specs::hash::group_hash_axioms;

#[verifier::external_type_specification]
#[verifier::external_body]
pub struct ExRsaPrivateKey(rsa::RSAPrivateKey);

#[verifier::external_type_specification]
#[verifier::external_body]
pub struct ExRsaPublicKey(rsa::RSAPublicKey);

/// The outcome of passing a message through the encryption layer.
#[derive(Debug)]
pub enum EncryptRes {
    /// The message, encrypted or decrypted.
    EncryptSucc(Vec<u8>),
    /// A public key message to send back, with its ext.
    RPubKey((Vec<u8>, u32)),
    /// A message to send back, with its ext (a step of the exchange or an error code).
    ErrMsg((Vec<u8>, u32)),
    /// The message passes unchanged.
    NotChange,
    /// The exchange is over.
    Break,
}

/// `r` is an empty message sent back under `code`.
pub open spec fn is_code(r: EncryptRes, code: u32) -> bool {
    r matches EncryptRes::ErrMsg((v, c)) && v@ == Seq::<u8>::empty() && c == code
}

/// A public key message: the modulus and the exponent, each after its length on
/// four big-endian bytes.
pub open spec fn pub_key_msg(n: Seq<u8>, e: Seq<u8>) -> Seq<u8> {
    be_bytes(n.len() % 0x1_0000_0000, 4) + n + be_bytes(e.len() % 0x1_0000_0000, 4) + e
}

/// The public key message `d` can be read without reading past its end or past the
/// 32-bit offsets it announces.
pub open spec fn pub_key_msg_ok(d: Seq<u8>) -> bool {
    d.len() >= 4 && {
        let n_l = be_nat(d.subrange(0, 4)) as int;
        n_l == 0 || (n_l + 4 <= u32::MAX && (d.len() < n_l + 4 || (d.len() >= n_l + 8 && {
            let e_l = be_nat(d.subrange(n_l + 4, n_l + 8)) as int;
            e_l == 0 || n_l + 8 + e_l <= u32::MAX
        })))
    }
}

/// The modulus and exponent bytes that the public key message `d` carries (the
/// exponent runs to the end), or error code 22 for a malformed message.
pub open spec fn spec_pub_key_parts(d: Seq<u8>) -> Result<(Seq<u8>, Seq<u8>), u32> {
    let n_l = be_nat(d.subrange(0, 4)) as int;
    if n_l == 0 || d.len() < n_l + 4 {
        Err(22)
    } else {
        let e_l = be_nat(d.subrange(n_l + 4, n_l + 8)) as int;
        if e_l == 0 || d.len() < n_l + 8 + e_l {
            Err(22)
        } else {
            Ok((d.subrange(4, n_l + 4), d.subrange(n_l + 8, d.len() as int)))
        }
    }
}

/// An exponent that an RSA public key accepts: from 2 to `2^30`.
pub open spec fn exponent_ok(e: Seq<u8>) -> bool {
    2 <= be_nat(e) <= 0x4000_0000
}

/// The length in bytes of the number `n` (big-endian), leading zero bytes left out:
/// the size of an RSA key with modulus `n`.
pub open spec fn sig_len(n: Seq<u8>) -> nat
    decreases n.len(),
{
    if n.len() == 0 {
        0
    } else if n[0] == 0 {
        sig_len(n.drop_first())
    } else {
        n.len()
    }
}

/// The number `n` (big-endian, no leading zero byte) has exactly `bits` bits: it is
/// `(bits + 7) / 8` bytes long and its first byte's top bit is bit `(bits - 1) % 8`.
pub open spec fn has_bits(n: Seq<u8>, bits: nat) -> bool {
    let top = ((bits - 1) % 8) as nat;
    &&& bits > 0
    &&& n.len() == (bits + 7) / 8
    &&& pow2(top) <= n[0] < pow2(top + 1)
}

/// The public exponent of generated keys, 65537, big-endian.
pub open spec fn exp_65537() -> Seq<u8> {
    seq![1u8, 0u8, 1u8]
}

/// A key this end generates for the exchange: generated by `rsa`, with a modulus of
/// exactly 4096 bits and the exponent 65537.
pub open spec fn fresh_own_key(n: Seq<u8>, e: Seq<u8>) -> bool {
    rsa_generated(n, e) && has_bits(n, 4096) && e == exp_65537()
}

/// A 4096-bit modulus is a key of 512 bytes, with room for messages of up to 501.
pub proof fn lemma_4096_bits_size(n: Seq<u8>)
    requires
        has_bits(n, 4096),
    ensures
        sig_len(n) == 512,
{
    lemma2_to64();
    assert(n[0] >= 128);
}

/// A public key that can encrypt: an exponent that RSA accepts, and a modulus of at
/// least eleven bytes, the room that PKCS#1 v1.5 padding takes.
pub open spec fn key_usable(n: Seq<u8>, e: Seq<u8>) -> bool {
    exponent_ok(e) && sig_len(n) >= 11
}

/// The size in bytes of the number `n` (see `sig_len`).
pub fn sig_len_of(n: &[u8]) -> (r: usize)
    ensures
        r == sig_len(n@),
{
    let mut i: usize = 0;
    assert(n@.subrange(0, n@.len() as int) =~= n@);
    while i < n.len() && n[i] == 0
        invariant
            i <= n@.len(),
            sig_len(n@.subrange(i as int, n@.len() as int)) == sig_len(n@),
        decreases n@.len() - i,
    {
        proof {
            assert(n@.subrange(i + 1, n@.len() as int) =~= n@.subrange(i as int, n@.len() as int).drop_first());
        }
        i = i + 1;
    }
    proof {
        let t = n@.subrange(i as int, n@.len() as int);
        if i < n@.len() {
            assert(t[0] != 0);
        } else {
            assert(t.len() == 0);
        }
    }
    n.len() - i
}

/// What PKCS#1 v1.5 decryption of `c` gives under a private key that `rsa` generated
/// with public key `(n, e)`, or `None` when the padding is not found. Decryption is
/// `c` to the private exponent modulo `n`, which for such a key depends on the public
/// key alone, and takes no random input.
pub uninterp spec fn rsa_open(n: Seq<u8>, e: Seq<u8>, c: Seq<u8>) -> Option<Seq<u8>>;

/// `(n, e)` is the public part of a private key that `rsa` generated: a true RSA key,
/// for which PKCS#1 v1.5 decryption undoes encryption.
pub uninterp spec fn rsa_generated(n: Seq<u8>, e: Seq<u8>) -> bool;

/// A private key that `rsa` generated, with the big-endian bytes of its modulus and
/// of its public exponent. Only `gen_key_pair` builds one.
pub struct KeyPair {
    key: rsa::RSAPrivateKey,
    n: Vec<u8>,
    e: Vec<u8>,
}

impl KeyPair {
    /// The modulus, big-endian.
    pub closed spec fn modulus(&self) -> Seq<u8> {
        self.n@
    }

    /// The public exponent, big-endian.
    pub closed spec fn exponent(&self) -> Seq<u8> {
        self.e@
    }
}

/// A counterpart's public key, with the big-endian bytes it was built from. Only
/// `public_key_of` builds one.
pub struct PubKey {
    key: rsa::RSAPublicKey,
    n: Vec<u8>,
    e: Vec<u8>,
}

impl PubKey {
    /// The modulus, big-endian.
    pub closed spec fn modulus(&self) -> Seq<u8> {
        self.n@
    }

    /// The public exponent, big-endian.
    pub closed spec fn exponent(&self) -> Seq<u8> {
        self.e@
    }
}

/// A fresh key of `bit_size` bits from `rsa::RSAPrivateKey::new` with the operating
/// system's random source, returned with its modulus and exponent as big-endian bytes
/// (`PublicKeyParts::n` and `e`, then `to_bytes_be`, which leaves no leading zero
/// byte); `None` when generation fails. `rsa` refuses only sizes below 64 bits (and
/// not all of those), draws primes until the modulus has exactly `bit_size` bits, and
/// uses the exponent 65537. Which key comes out is random, so its modulus is not
/// said.
#[verifier::external_body]
fn gen_key_pair(bit_size: usize) -> (r: Option<KeyPair>)
    ensures
        bit_size >= 64 ==> r is Some,
        r matches Some(k) ==> rsa_generated(k.modulus(), k.exponent()) && has_bits(
            k.modulus(),
            bit_size as nat,
        ) && k.exponent() == exp_65537(),
{
    match rsa::RSAPrivateKey::new(&mut rand::rngs::OsRng, bit_size) {
        Ok(key) => {
            let n = rsa::PublicKeyParts::n(&key).to_bytes_be();
            let e = rsa::PublicKeyParts::e(&key).to_bytes_be();
            Some(KeyPair { key, n, e })
        },
        Err(_) => None,
    }
}

/// The public key with modulus `n` and exponent `e` (big-endian), from
/// `rsa::RSAPublicKey::new`, which accepts exactly the exponents from 2 to `2^30`; the
/// key keeps the bytes it was built from.
#[verifier::external_body]
fn public_key_of(n: &[u8], e: &[u8]) -> (r: Option<PubKey>)
    ensures
        r is Some <==> exponent_ok(e@),
        r matches Some(k) ==> k.modulus() == n@ && k.exponent() == e@,
{
    match rsa::RSAPublicKey::new(rsa::BigUint::from_bytes_be(n), rsa::BigUint::from_bytes_be(e)) {
        Ok(key) => Some(PubKey { key, n: n.to_vec(), e: e.to_vec() }),
        Err(_) => None,
    }
}

/// `c` decrypted with `k` under PKCS#1 v1.5, from `RSAPrivateKey::decrypt`, which uses
/// no random source; `None` when decryption fails.
#[verifier::external_body]
fn decrypt_with(k: &KeyPair, c: &[u8]) -> (r: Option<Vec<u8>>)
    ensures
        match rsa_open(k.modulus(), k.exponent(), c@) {
            Some(m) => r matches Some(v) && v@ == m,
            None => r is None,
        },
{
    k.key.decrypt(rsa::PaddingScheme::new_pkcs1v15_encrypt(), c).ok()
}

/// `m` encrypted for `k` under PKCS#1 v1.5 with random padding, from
/// `PublicKey::encrypt` (which underflows on a key shorter than eleven bytes, hence the
/// `requires`): it fails exactly when `m` is longer than the key size less eleven
/// bytes, and otherwise gives as many bytes as the key size; for a key that
/// `rsa` generated, decryption with its private key gives `m` back. The padding is
/// random, so the bytes themselves are not said.
#[verifier::external_body]
fn encrypt_with(k: &PubKey, m: &[u8]) -> (r: Option<Vec<u8>>)
    requires
        key_usable(k.modulus(), k.exponent()),
    ensures
        r is Some <==> m@.len() + 11 <= sig_len(k.modulus()),
        r matches Some(c) ==> c@.len() == sig_len(k.modulus()),
        rsa_generated(k.modulus(), k.exponent()) ==> (r matches Some(c) ==> rsa_open(
            k.modulus(),
            k.exponent(),
            c@,
        ) == Some(m@)),
{
    rsa::PublicKey::encrypt(&k.key, &mut rand::rngs::OsRng, rsa::PaddingScheme::new_pkcs1v15_encrypt(), m).ok()
}

/// Builds the public key message for modulus `n` and exponent `e`.
pub fn build_pub_key_msg(n: &[u8], e: &[u8]) -> (r: Vec<u8>)
    ensures
        r@ == pub_key_msg(n@, e@),
{
    proof {
        lemma_pow256_values();
    }
    let mut res: Vec<u8> = Vec::new();
    push_be(&mut res, (n.len() as u128) % 0x1_0000_0000u128, 4);
    push_all(&mut res, n);
    push_be(&mut res, (e.len() as u128) % 0x1_0000_0000u128, 4);
    push_all(&mut res, e);
    assert(res@ =~= pub_key_msg(n@, e@));
    res
}

/// Reads the modulus and exponent bytes out of the public key message `d`.
pub fn pub_key_parts(d: &[u8]) -> (r: Result<(Vec<u8>, Vec<u8>), u32>)
    requires
        pub_key_msg_ok(d@),
    ensures
        match spec_pub_key_parts(d@) {
            Ok((n, e)) => r matches Ok((a, b)) && a@ == n && b@ == e,
            Err(c) => r == Err::<(Vec<u8>, Vec<u8>), u32>(c),
        },
{
    proof {
        lemma_pow256_values();
        lemma_be_nat_bound(d@.subrange(0, 4));
    }
    let n_l = read_be(d, 0, 4) as u32;
    if n_l == 0 {
        return Err(22);
    }
    let eb = 4 + n_l;
    if d.len() < eb as usize {
        return Err(22);
    }
    let eb = eb as usize;
    proof {
        lemma_be_nat_bound(d@.subrange(eb as int, eb + 4));
    }
    let e_l = read_be(d, eb, 4) as u32;
    if e_l == 0 {
        return Err(22);
    }
    if d.len() < (eb as u32 + 4 + e_l) as usize {
        return Err(22);
    }
    let n = copy_range(d, 4, n_l as usize + 4);
    let e = copy_range(d, eb + 4, d.len());
    Ok((n, e))
}

/// Whether the public key message `d` can be read (see `pub_key_msg_ok`).
pub fn pub_key_msg_readable(d: &[u8]) -> (r: bool)
    ensures
        r == pub_key_msg_ok(d@),
{
    proof {
        lemma_pow256_values();
    }
    if d.len() < 4 {
        return false;
    }
    proof {
        lemma_be_nat_bound(d@.subrange(0, 4));
    }
    let n_l = read_be(d, 0, 4);
    if n_l == 0 {
        return true;
    }
    if n_l + 4 > 0xffff_ffffu128 {
        return false;
    }
    if (d.len() as u128) < n_l + 4 {
        return true;
    }
    if (d.len() as u128) < n_l + 8 {
        return false;
    }
    let eb = (n_l + 4) as usize;
    proof {
        lemma_be_nat_bound(d@.subrange(eb as int, eb + 4));
    }
    let e_l = read_be(d, eb, 4);
    e_l == 0 || n_l + 8 + e_l <= 0xffff_ffffu128
}

/// A public key message built from a modulus and an exponent, both non-empty and
/// short enough for the four-byte lengths, is read back as the two of them.
pub proof fn lemma_pub_key_roundtrip(n: Seq<u8>, e: Seq<u8>)
    requires
        n.len() > 0,
        e.len() > 0,
        n.len() + e.len() + 8 <= u32::MAX,
    ensures
        pub_key_msg_ok(pub_key_msg(n, e)),
        spec_pub_key_parts(pub_key_msg(n, e)) == Ok::<(Seq<u8>, Seq<u8>), u32>((n, e)),
{
    lemma_pow256_values();
    let d = pub_key_msg(n, e);
    lemma_be_bytes_len(n.len() as nat, 4);
    lemma_be_bytes_len(e.len() as nat, 4);
    lemma_be_roundtrip(n.len() as nat, 4);
    lemma_be_roundtrip(e.len() as nat, 4);
    let nl = n.len() as int;
    assert(d.subrange(0, 4) =~= be_bytes(n.len() as nat, 4));
    assert(d.subrange(nl + 4, nl + 8) =~= be_bytes(e.len() as nat, 4));
    assert(d.subrange(4, nl + 4) =~= n);
    assert(d.subrange(nl + 8, d.len() as int) =~= e);
}

} // verus!

verus! {

/// The state of the key exchange as plain values: the public part (modulus and
/// exponent, big-endian) of this end's key and of the counterpart's key, once held,
/// whether the counterpart is ready, the last step reached, and the ext codes that pass
/// unencrypted.
pub struct AsyView {
    pub own: Option<(Seq<u8>, Seq<u8>)>,
    pub peer: Option<(Seq<u8>, Seq<u8>)>,
    pub oth_ready: bool,
    pub state: u32,
    pub ignore: Set<u32>,
}

/// The keys held: this end's key pair and the counterpart's public key.
struct Keys {
    pri_key: Option<KeyPair>,
    pub_key: Option<PubKey>,
}

impl Keys {
    /// A counterpart's key that is held has an exponent RSA accepts, and this end's
    /// key was generated by `rsa`.
    #[verifier::type_invariant]
    spec fn usable_peer(&self) -> bool {
        &&& self.pub_key matches Some(k) ==> exponent_ok(k.exponent())
        &&& self.pri_key matches Some(k) ==> rsa_generated(k.modulus(), k.exponent())
    }
}

/// RSA encryption of a connection, set up by a key exchange.
pub struct DefAsyCry {
    keys: Keys,
    ignore_map: HashSet<u32>,
    oth_ready: bool,
    state: u32,
}

impl View for DefAsyCry {
    type V = AsyView;

    closed spec fn view(&self) -> AsyView {
        AsyView {
            own: match self.keys.pri_key {
                Some(k) => Some((k.modulus(), k.exponent())),
                None => None,
            },
            peer: match self.keys.pub_key {
                Some(k) => Some((k.modulus(), k.exponent())),
                None => None,
            },
            oth_ready: self.oth_ready,
            state: self.state,
            ignore: self.ignore_map@,
        }
    }
}

/// The ext codes that pass unencrypted: heartbeats and file transfer.
pub open spec fn asy_ignored() -> Set<u32> {
    set![9u32, EXT_SEND_FILE_CREATE, EXT_SEND_FILE, EXT_SEND_FILE_ELF, EXT_SAVE_FILE_CREATE, EXT_SAVE_FILE,
        EXT_SAVE_FILE_ELF, EXT_SAVE_FILE_RET, EXT_SAVE_FILE_CREATE_RET, EXT_SAVE_FILE_ELF_RET,
        EXT_UPLOAD_FILE_CREATE, EXT_UPLOAD_FILE, EXT_UPLOAD_FILE_ELF]
}

/// `try_decrypt` returns on message `d` with `ext` in state `s`: a public key message
/// that it reads (the counterpart's key, or the acknowledgement it waits for) is well
/// formed enough not to be read past its end.
pub open spec fn decrypt_ok(s: AsyView, d: Seq<u8>, ext: u32) -> bool {
    !s.ignore.contains(ext) && (ext == 10 || (ext == 11 && s.state == 10)) ==> pub_key_msg_ok(d)
}

/// What reading the counterpart's key out of the public key message `d` gives: error
/// 22 for a malformed message, 23 for an exponent that RSA refuses, else the key.
pub open spec fn peer_key_of(d: Seq<u8>) -> Result<(Seq<u8>, Seq<u8>), u32> {
    match spec_pub_key_parts(d) {
        Err(c) => Err(c),
        Ok((n, e)) => if exponent_ok(e) {
            Ok((n, e))
        } else {
            Err(23)
        },
    }
}

/// `r` sends back, as step 11, the public key message of the key `own` held.
pub open spec fn own_key_sent(own: Option<(Seq<u8>, Seq<u8>)>, r: EncryptRes) -> bool {
    match own {
        Some((n, e)) => r matches EncryptRes::RPubKey((m, c)) && c == 11 && m@ == pub_key_msg(n, e) && rsa_generated(
            n,
            e,
        ),
        None => false,
    }
}

/// What `try_decrypt` may do to state `s` on message `d` with ext `ext`, leaving `f`
/// and returning `r`. Only the answer to the counterpart's key leaves a choice: this
/// end's key is generated then, at random.
pub open spec fn asy_decrypt(s: AsyView, d: Seq<u8>, ext: u32, f: AsyView, r: EncryptRes) -> bool {
    if s.ignore.contains(ext) {
        f == s && r is NotChange
    } else if ext == 10 {
        match peer_key_of(d) {
            Err(c) => f == (AsyView { state: 10, ..s }) && is_code(r, c),
            Ok(k) => {
                &&& f == (AsyView { state: 11, peer: Some(k), own: f.own, ..s })
                &&& own_key_sent(f.own, r)
                &&& f.own matches Some((n, e)) && fresh_own_key(n, e)
            },
        }
    } else if ext == 11 {
        if s.state != 10 {
            f == s && is_code(r, 32)
        } else {
            match peer_key_of(d) {
                Err(c) => f == (AsyView { state: 11, ..s }) && is_code(r, c),
                Ok(k) => f == (AsyView { state: 12, peer: Some(k), ..s }) && is_code(r, 12),
            }
        }
    } else if ext == 12 {
        if s.state != 11 {
            f == s && is_code(r, 32)
        } else {
            f == (AsyView { state: 13, oth_ready: true, ..s }) && is_code(r, 13)
        }
    } else if ext == 13 {
        if s.state != 12 {
            f == s && is_code(r, 32)
        } else {
            f == (AsyView { state: 13, oth_ready: true, ..s }) && r is Break
        }
    } else if 30 <= ext < 40 {
        f == s && r is Break
    } else {
        match s.own {
            Some((n, e)) => if s.oth_ready && s.peer is Some {
                f == s && match rsa_open(n, e, d) {
                    Some(m) => r matches EncryptRes::EncryptSucc(v) && v@ == m,
                    None => is_code(r, 30),
                }
            } else {
                f == s && is_code(r, 31)
            },
            None => f == s && is_code(r, 31),
        }
    }
}

/// What `encrypt` gives for message `d` with `ext` in state `s`: messages that pass
/// unencrypted, those of the exchange (ext 10 to 20), and all messages before the
/// counterpart's key is held pass unchanged; a message that fits the key (eleven bytes
/// less than its size) is encrypted into as many bytes as the key size; a longer one
/// is refused with code 30.
pub open spec fn asy_encrypt(s: AsyView, d: Seq<u8>, ext: u32, r: EncryptRes) -> bool {
    if s.ignore.contains(ext) || (10 <= ext <= 20) {
        r is NotChange
    } else {
        match s.peer {
            None => r is NotChange,
            Some((n, e)) => if d.len() + 11 <= sig_len(n) {
                r matches EncryptRes::EncryptSucc(c) && c@.len() == sig_len(n) && (rsa_generated(n, e) ==> rsa_open(
                    n,
                    e,
                    c@,
                ) == Some(d))
            } else {
                is_code(r, 30)
            },
        }
    }
}

impl DefAsyCry {
    /// An exchange not yet started, with heartbeats and file transfer passing
    /// unencrypted.
    pub fn new() -> (r: DefAsyCry)
        ensures
            r@ == (AsyView { own: None, peer: None, oth_ready: false, state: 10, ignore: asy_ignored() }),
    {
        let mut ignore_map: HashSet<u32> = HashSet::new();
        ignore_map.insert(9);
        ignore_map.insert(EXT_SEND_FILE_CREATE);
        ignore_map.insert(EXT_SEND_FILE);
        ignore_map.insert(EXT_SEND_FILE_ELF);
        ignore_map.insert(EXT_SAVE_FILE_CREATE);
        ignore_map.insert(EXT_SAVE_FILE);
        ignore_map.insert(EXT_SAVE_FILE_ELF);
        ignore_map.insert(EXT_SAVE_FILE_RET);
        ignore_map.insert(EXT_SAVE_FILE_CREATE_RET);
        ignore_map.insert(EXT_SAVE_FILE_ELF_RET);
        ignore_map.insert(EXT_UPLOAD_FILE_CREATE);
        ignore_map.insert(EXT_UPLOAD_FILE);
        ignore_map.insert(EXT_UPLOAD_FILE_ELF);
        let r = DefAsyCry { keys: Keys { pri_key: None, pub_key: None }, ignore_map, oth_ready: false, state: 10 };
        assert(r@.ignore =~= asy_ignored());
        r
    }

    /// The same as `new`; key generation runs on the calling thread, so the thread
    /// count is not used.
    pub fn with_thread_count(thread_count: usize) -> (r: DefAsyCry)
        ensures
            r@ == (AsyView { own: None, peer: None, oth_ready: false, state: 10, ignore: asy_ignored() }),
    {
        Self::new()
    }

    /// Whether messages with `ext` pass unencrypted.
    pub fn ignore(&self, ext: u32) -> (r: bool)
        ensures
            r == self@.ignore.contains(ext),
    {
        self.ignore_map.contains(&ext)
    }

    /// Whether both keys are held and the counterpart is ready.
    pub fn can_encrypt(&self) -> (r: bool)
        ensures
            r == (self@.oth_ready && self@.peer is Some && self@.own is Some),
    {
        self.oth_ready && self.keys.pub_key.is_some() && self.keys.pri_key.is_some()
    }

    /// Adds `v` to the ext codes that pass unencrypted.
    pub fn extend_ignore(&mut self, v: &[u32])
        ensures
            final(self)@ == (AsyView { ignore: old(self)@.ignore + v@.to_set(), ..old(self)@ }),
    {
        let mut i: usize = 0;
        assert(old(self)@.ignore + v@.subrange(0, 0).to_set() =~= old(self)@.ignore) by {
            assert(v@.subrange(0, 0) =~= Seq::<u32>::empty());
            broadcast use vstd::seq_lib::group_seq_properties;
        }
        while i < v.len()
            invariant
                i <= v@.len(),
                self@ == (AsyView { ignore: old(self)@.ignore + v@.subrange(0, i as int).to_set(), ..old(self)@ }),
            decreases v@.len() - i,
        {
            self.ignore_map.insert(v[i]);
            i = i + 1;
            assert(self@.ignore =~= old(self)@.ignore + v@.subrange(0, i as int).to_set()) by {
                assert(v@.subrange(0, i as int) =~= v@.subrange(0, i - 1).push(v@[i - 1]));
                broadcast use vstd::seq_lib::group_seq_properties;
            }
        }
        assert(v@.subrange(0, v@.len() as int) =~= v@);
    }

    /// Whether `try_decrypt` can take message `d` with `ext` now (see `decrypt_ok`).
    pub fn can_read(&self, d: &[u8], ext: u32) -> (r: bool)
        ensures
            r == decrypt_ok(self@, d@, ext),
    {
        if self.ignore(ext) || !(ext == 10 || (ext == 11 && self.state == 10)) {
            return true;
        }
        pub_key_msg_readable(d)
    }

    /// Reads the counterpart's public key out of the public key message `d` (see
    /// `peer_key_of`).
    pub fn pub_key_from(&self, d: &[u8], ext: u32) -> (r: Result<PubKey, u32>)
        requires
            pub_key_msg_ok(d@),
        ensures
            match peer_key_of(d@) {
                Err(c) => r matches Err(x) && x == c,
                Ok((n, e)) => r matches Ok(k) && k.modulus() == n && k.exponent() == e,
            },
    {
        let (n, e) = match pub_key_parts(d) {
            Ok(x) => x,
            Err(c) => {
                return Err(c);
            },
        };
        match public_key_of(n.as_slice(), e.as_slice()) {
            Some(k) => Ok(k),
            None => Err(23),
        }
    }

    /// Generates a key pair of `bit_size` bits and returns the public key message of
    /// the key with the key; error 21 when generation fails, which it does not for 64
    /// bits or more.
    pub fn real_build_pub_key(bit_size: usize) -> (r: Result<(Vec<u8>, Option<KeyPair>), u32>)
        ensures
            bit_size >= 64 ==> r is Ok,
            match r {
                Err(c) => c == 21,
                Ok((d, k)) => k matches Some(kp) && d@ == pub_key_msg(kp.modulus(), kp.exponent())
                    && rsa_generated(kp.modulus(), kp.exponent()) && has_bits(kp.modulus(), bit_size as nat)
                    && kp.exponent() == exp_65537(),
            },
    {
        let k = match gen_key_pair(bit_size) {
            Some(k) => k,
            None => {
                return Err(21);
            },
        };
        let res = build_pub_key_msg(k.n.as_slice(), k.e.as_slice());
        Ok((res, Some(k)))
    }

    /// Generates a 4096-bit key pair with exponent 65537, keeps it, and returns the
    /// public key message of the key kept; generation of that size does not fail.
    pub fn build_pub_key(&mut self) -> (r: Result<Vec<u8>, u32>)
        ensures
            r matches Ok(d) && final(self)@.own matches Some((n, e)) && d@ == pub_key_msg(n, e)
                && fresh_own_key(n, e) && sig_len(n) == 512,
            final(self)@ == (AsyView { own: final(self)@.own, ..old(self)@ }),
    {
        match Self::real_build_pub_key(4096) {
            Ok((d, k)) => {
                proof {
                    use_type_invariant(&self.keys);
                    lemma_4096_bits_size(k->0.modulus());
                }
                self.keys.pri_key = k;
                Ok(d)
            },
            Err(e) => Err(e),
        }
    }

    /// Passes a received message through: steps of the key exchange (ext 10 to 13)
    /// advance it in order, error codes of the counterpart (30 to 39) end it, and
    /// other messages are decrypted with this end's key once both keys are held (see
    /// `asy_decrypt`).
    pub fn try_decrypt(&mut self, d: &[u8], ext: u32) -> (r: EncryptRes)
        requires
            decrypt_ok(old(self)@, d@, ext),
        ensures
            asy_decrypt(old(self)@, d@, ext, final(self)@, r),
    {
        proof {
            use_type_invariant(&self.keys);
        }
        if self.ignore(ext) {
            return EncryptRes::NotChange;
        }
        if ext == 10 {
            self.state = ext;
            match self.pub_key_from(d, ext) {
                Ok(pk) => {
                    self.keys.pub_key = Some(pk);
                },
                Err(e) => {
                    return EncryptRes::ErrMsg((Vec::new(), e));
                },
            }
            match self.build_pub_key() {
                Ok(k) => {
                    self.state = 11;
                    EncryptRes::RPubKey((k, 11))
                },
                Err(e) => EncryptRes::ErrMsg((Vec::new(), e)),
            }
        } else if ext == 11 {
            if self.state != ext - 1 {
                return EncryptRes::ErrMsg((Vec::new(), 32));
            }
            self.state = ext;
            match self.pub_key_from(d, ext) {
                Ok(pk) => {
                    self.keys.pub_key = Some(pk);
                    self.state = 12;
                    EncryptRes::ErrMsg((Vec::new(), 12))
                },
                Err(e) => EncryptRes::ErrMsg((Vec::new(), e)),
            }
        } else if ext == 12 {
            if self.state != ext - 1 {
                return EncryptRes::ErrMsg((Vec::new(), 32));
            }
            self.oth_ready = true;
            self.state = 13;
            EncryptRes::ErrMsg((Vec::new(), 13))
        } else if ext == 13 {
            if self.state != ext - 1 {
                return EncryptRes::ErrMsg((Vec::new(), 32));
            }
            self.state = ext;
            self.oth_ready = true;
            EncryptRes::Break
        } else if ext >= 30 && ext < 40 {
            EncryptRes::Break
        } else if self.can_encrypt() {
            match &self.keys.pri_key {
                Some(k) => match decrypt_with(k, d) {
                    Some(v) => EncryptRes::EncryptSucc(v),
                    None => EncryptRes::ErrMsg((Vec::new(), 30)),
                },
                None => EncryptRes::ErrMsg((Vec::new(), 31)),
            }
        } else {
            EncryptRes::ErrMsg((Vec::new(), 31))
        }
    }

    /// Encrypts a message to send with the counterpart's key (see `asy_encrypt`).
    pub fn encrypt(&self, d: &[u8], ext: u32) -> (r: EncryptRes)
        ensures
            asy_encrypt(self@, d@, ext, r),
    {
        proof {
            use_type_invariant(&self.keys);
        }
        if self.ignore(ext) || (ext >= 10 && ext <= 20) {
            return EncryptRes::NotChange;
        }
        match &self.keys.pub_key {
            Some(k) => {
                let size = sig_len_of(k.n.as_slice());
                if size < 11 || d.len() > size - 11 {
                    return EncryptRes::ErrMsg((Vec::new(), 30));
                }
                match encrypt_with(k, d) {
                    Some(ed) => EncryptRes::EncryptSucc(ed),
                    None => EncryptRes::ErrMsg((Vec::new(), 30)),
                }
            },
            None => EncryptRes::NotChange,
        }
    }
}

/// What one end encrypts the other decrypts back: when the key an end holds for its
/// counterpart is the counterpart's own generated key, a message that it encrypts is
/// given back whole by the counterpart once the exchange is done there, and the
/// counterpart's state is left as it was.
pub proof fn lemma_encrypt_then_decrypt(
    a: AsyView,
    d: Seq<u8>,
    ext: u32,
    ra: EncryptRes,
    b: AsyView,
    bf: AsyView,
    rb: EncryptRes,
)
    requires
        a.peer == b.own,
        b.own matches Some((n, e)) && rsa_generated(n, e),
        asy_encrypt(a, d, ext, ra),
        ra matches EncryptRes::EncryptSucc(c) && asy_decrypt(b, c@, ext, bf, rb),
        !b.ignore.contains(ext),
        !(10 <= ext <= 13),
        !(30 <= ext < 40),
        b.oth_ready,
        b.peer is Some,
    ensures
        bf == b,
        rb matches EncryptRes::EncryptSucc(m) && m@ == d,
{
}

/// The exchange in order: the counterpart's key at step 10, its acknowledgement at 11,
/// readiness at 12 and 13; a step out of order is refused with code 32 and changes
/// nothing.
pub proof fn lemma_exchange_order(s: AsyView, d: Seq<u8>, ext: u32, f: AsyView, r: EncryptRes)
    requires
        !s.ignore.contains(ext),
        11 <= ext <= 13,
        s.state != ext - 1,
        asy_decrypt(s, d, ext, f, r),
    ensures
        f == s,
        is_code(r, 32),
{
}

} // verus!

verus! {

/// The public key message of the key `k` held, if any.
pub open spec fn key_msg_of(k: Option<(Seq<u8>, Seq<u8>)>) -> Seq<u8> {
    match k {
        Some((n, e)) => pub_key_msg(n, e),
        None => Seq::empty(),
    }
}

/// The exchange, run in order between two ends that have not started it, leaves each
/// holding the other's key and knowing the other ready: end B, given A's key (ext 10),
/// answers with its own fresh key (ext 11); A, given that key, takes it and answers
/// 12; B, given 12, is ready and answers 13; A, given 13, is ready and the exchange
/// ends.
pub proof fn lemma_exchange_completes(
    a0: AsyView,
    b0: AsyView,
    a1: AsyView,
    b1: AsyView,
    a2: AsyView,
    b2: AsyView,
    r1: EncryptRes,
    r2: EncryptRes,
    r3: EncryptRes,
    r4: EncryptRes,
    nb_msg: Seq<u8>,
)
    requires
        a0.own matches Some((n, e)) && fresh_own_key(n, e),
        a0.state == 10,
        b0.state == 10,
        forall|x: u32| 10 <= x <= 13 ==> !a0.ignore.contains(x) && !b0.ignore.contains(x),
        asy_decrypt(b0, key_msg_of(a0.own), 10, b1, r1),
        r1 matches EncryptRes::RPubKey((m, _)) && m@ == nb_msg,
        asy_decrypt(a0, nb_msg, 11, a1, r2),
        asy_decrypt(b1, Seq::empty(), 12, b2, r3),
        asy_decrypt(a1, Seq::empty(), 13, a2, r4),
    ensures
        a2.peer == b2.own,
        b2.peer == a2.own,
        a2.own == a0.own,
        a2.oth_ready && b2.oth_ready,
        a2.state == 13 && b2.state == 13,
        r4 is Break,
        is_code(r3, 13),
{
    let (na, ea) = a0.own->0;
    lemma_own_key_message(na, ea);
    let (nb, eb) = b1.own->0;
    assert(fresh_own_key(nb, eb));
    lemma_own_key_message(nb, eb);
}

/// The public key message of a fresh key of this end reads back as that key, which a
/// counterpart takes.
proof fn lemma_own_key_message(n: Seq<u8>, e: Seq<u8>)
    requires
        fresh_own_key(n, e),
    ensures
        pub_key_msg_ok(pub_key_msg(n, e)),
        peer_key_of(pub_key_msg(n, e)) == Ok::<(Seq<u8>, Seq<u8>), u32>((n, e)),
{
    assert(n.len() == 512);
    lemma_pub_key_roundtrip(n, e);
    lemma_exp_65537_value();
}

/// The exponent bytes `1, 0, 1` are the number 65537.
proof fn lemma_exp_65537_value()
    ensures
        be_nat(exp_65537()) == 65537,
{
    let e = exp_65537();
    let a = seq![1u8];
    let b = seq![1u8, 0u8];
    assert(a.drop_last() =~= Seq::<u8>::empty());
    assert(be_nat(Seq::<u8>::empty()) == 0);
    assert(be_nat(a) == be_nat(a.drop_last()) * 256 + a.last());
    assert(be_nat(a) == 1);
    assert(b.drop_last() =~= a);
    assert(be_nat(b) == be_nat(b.drop_last()) * 256 + b.last());
    assert(be_nat(b) == 256);
    assert(e.drop_last() =~= b);
    assert(be_nat(e) == be_nat(e.drop_last()) * 256 + e.last());
    assert(be_nat(e) == 65537);
}

} // verus!
