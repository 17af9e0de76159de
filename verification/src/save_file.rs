//! Saving of files sent by another client: the request format and the answer to
//! each outcome of the file operations.
use vstd::prelude::*;
use crate::bytes::{TOKEN_BEGIN, TOKEN_END, be_bytes, lemma_pow256_values, push_be, push_all, copy_range, ext_content};
use crate::extc::{EXT_SAVE_FILE_CREATE, EXT_SAVE_FILE, EXT_SAVE_FILE_ELF, EXT_AGREEMENT_ERR_CODE, EXT_ERR_SAVE_FILE_RET_EXT, EXT_ERR_FILE_NAME_EMPTY, EXT_ERR_ALREADY_CREATED, EXT_ERR_WRITE_FILE_FAILED, EXT_ERR_CREATE_FILE_FAILED, EXT_ERR_FILE_NAME_NOT_EXITS};
use crate::stream_parser::lemma_usize_width;
use crate::udp_sender::usize_len;
use crate::console::{lossy, lossy_utf8, trim, trimmed};

verus! {

/// The answer `id` followed by `ext` on four big-endian bytes.
pub fn ret_ext(id_buf: &[u8], ext: u32) -> (r: Vec<u8>)
    ensures
        r@ == id_buf@ + be_bytes(ext as nat, 4),
{
    let mut v: Vec<u8> = Vec::new();
    push_all(&mut v, id_buf);
    let e = ext_content(ext);
    push_all(&mut v, e.as_slice());
    v
}

/// The answer `id` followed by `v2`.
pub fn ret(id_buf: &[u8], v2: Vec<u8>) -> (r: Vec<u8>)
    ensures
        r@ == id_buf@ + v2@,
{
    let mut v: Vec<u8> = Vec::new();
    push_all(&mut v, id_buf);
    push_all(&mut v, v2.as_slice());
    v
}

/// A request to save a file: the requester's link id bytes, the file name bytes
/// (between the begin and end tokens), and the bytes to write.
pub enum SaveRequest {
    /// Not a save request.
    Ignore,
    /// A malformed request, answered at once.
    Reply((Vec<u8>, u32)),
    Save { id: Vec<u8>, name: Vec<u8>, body: Vec<u8> },
}

/// The exts of save requests: create, write, and close.
pub open spec fn is_save_ext(ext: u32) -> bool {
    ext == EXT_SAVE_FILE_CREATE || ext == EXT_SAVE_FILE || ext == EXT_SAVE_FILE_ELF
}

/// The index of the first end token in `d` from `k` on.
pub open spec fn end_from(d: Seq<u8>, k: int) -> Option<int>
    decreases d.len() - k,
{
    if k < 0 || k >= d.len() {
        None
    } else if d[k] == TOKEN_END {
        Some(k)
    } else {
        end_from(d, k + 1)
    }
}

proof fn lemma_end_from(d: Seq<u8>, k: int)
    requires
        0 <= k,
    ensures
        end_from(d, k) matches Some(e) ==> k <= e < d.len() && d[e] == TOKEN_END,
    decreases d.len() - k,
{
    if k < d.len() && d[k] != TOKEN_END {
        lemma_end_from(d, k + 1);
    }
}

/// What the save request `data` with `ext` is: the link id is the first `usize` of
/// bytes; the rest opens with the begin token, and the name runs up to the first end
/// token; a request without them is answered with the agreement error.
pub open spec fn spec_save_request(data: Seq<u8>, ext: u32) -> Option<Result<(Seq<u8>, Seq<u8>, Seq<u8>), Seq<u8>>> {
    if !is_save_ext(ext) {
        None
    } else {
        let w = usize_len() as int;
        let id = data.subrange(0, w);
        let d = data.subrange(w, data.len() as int);
        if d[0] != TOKEN_BEGIN {
            Some(Err(id + be_bytes(EXT_AGREEMENT_ERR_CODE as nat, 4)))
        } else {
            match end_from(d, 0) {
                None => Some(Err(id + be_bytes(EXT_AGREEMENT_ERR_CODE as nat, 4))),
                Some(e) => Some(Ok((id, d.subrange(1, e), d.subrange(e + 1, d.len() as int)))),
            }
        }
    }
}

/// Reads the save request `data` with `ext` (see `spec_save_request`).
pub fn parse_save_request(data: &[u8], ext: u32) -> (r: SaveRequest)
    requires
        is_save_ext(ext) ==> data@.len() > usize_len(),
    ensures
        match spec_save_request(data@, ext) {
            None => r is Ignore,
            Some(Err(a)) => r matches SaveRequest::Reply((v, e)) && v@ == a && e == EXT_ERR_SAVE_FILE_RET_EXT,
            Some(Ok((id, name, body))) => r matches SaveRequest::Save { id: i, name: n, body: b } && i@ == id
                && n@ == name && b@ == body,
        },
{
    if ext != EXT_SAVE_FILE_CREATE && ext != EXT_SAVE_FILE && ext != EXT_SAVE_FILE_ELF {
        return SaveRequest::Ignore;
    }
    proof {
        lemma_usize_width();
    }
    let w = core::mem::size_of::<usize>();
    let id = copy_range(data, 0, w);
    let d = copy_range(data, w, data.len());
    if d[0] != TOKEN_BEGIN {
        return SaveRequest::Reply((ret_ext(id.as_slice(), EXT_AGREEMENT_ERR_CODE), EXT_ERR_SAVE_FILE_RET_EXT));
    }
    let mut name_e: usize = 0;
    while name_e < d.len() && d[name_e] != TOKEN_END
        invariant
            name_e <= d@.len(),
            end_from(d@, 0) == end_from(d@, name_e as int),
        decreases d@.len() - name_e,
    {
        name_e = name_e + 1;
    }
    if name_e >= d.len() {
        return SaveRequest::Reply((ret_ext(id.as_slice(), EXT_AGREEMENT_ERR_CODE), EXT_ERR_SAVE_FILE_RET_EXT));
    }
    proof {
        lemma_end_from(d@, 0);
        assert(name_e >= 1);
    }
    let name = copy_range(d.as_slice(), 1, name_e);
    let body = copy_range(d.as_slice(), name_e + 1, d.len());
    SaveRequest::Save { id, name, body }
}

/// How the file operations for a save request went.
#[derive(Debug)]
pub enum SaveOutcome {
    /// The file name is empty once trimmed.
    EmptyName,
    /// A create request names a file already open.
    Exists,
    /// The file could not be created.
    OpenFailed,
    /// The bytes were written; how many.
    Written(u32),
    /// Writing failed.
    WriteFailed,
    /// A write or close request names no open file.
    Missing,
    /// The file was flushed and closed.
    Closed,
    /// The table of open files could not be locked.
    LockFailed,
}

/// The answer to a save request with `ext` from `id` for file `name`, given how the
/// file operations went: the error answers carry the code and the name, the
/// successful ones the name and, after a write, how many bytes were written.
pub open spec fn spec_save_reply(ext: u32, id: Seq<u8>, name: Seq<u8>, o: SaveOutcome) -> Option<(Seq<u8>, u32)> {
    let err = |c: u32| Some((id + be_bytes(c as nat, 4) + name, EXT_ERR_SAVE_FILE_RET_EXT));
    match o {
        SaveOutcome::EmptyName => Some((id + be_bytes(EXT_ERR_FILE_NAME_EMPTY as nat, 4), EXT_ERR_SAVE_FILE_RET_EXT)),
        SaveOutcome::Exists => err(EXT_ERR_ALREADY_CREATED),
        SaveOutcome::OpenFailed => err(EXT_ERR_CREATE_FILE_FAILED),
        SaveOutcome::WriteFailed => err(EXT_ERR_WRITE_FILE_FAILED),
        SaveOutcome::Missing => err(EXT_ERR_FILE_NAME_NOT_EXITS),
        SaveOutcome::Written(l) => Some((id + name + be_bytes(l as nat, 4), ext)),
        SaveOutcome::Closed => Some((id + name, EXT_SAVE_FILE_ELF)),
        SaveOutcome::LockFailed => None,
    }
}

/// The answer to a save request (see `spec_save_reply`).
pub fn save_reply(ext: u32, id: &[u8], name: &[u8], o: SaveOutcome) -> (r: Option<(Vec<u8>, u32)>)
    ensures
        match spec_save_reply(ext, id@, name@, o) {
            None => r is None,
            Some((v, e)) => r matches Some((x, y)) && x@ == v && y == e,
        },
{
    proof {
        lemma_pow256_values();
    }
    let mut rd: Vec<u8> = Vec::new();
    push_all(&mut rd, name);
    match o {
        SaveOutcome::EmptyName => Some((ret_ext(id, EXT_ERR_FILE_NAME_EMPTY), EXT_ERR_SAVE_FILE_RET_EXT)),
        SaveOutcome::Exists => {
            let mut v = ret_ext(id, EXT_ERR_ALREADY_CREATED);
            push_all(&mut v, name);
            Some((v, EXT_ERR_SAVE_FILE_RET_EXT))
        },
        SaveOutcome::OpenFailed => {
            let mut v = ret_ext(id, EXT_ERR_CREATE_FILE_FAILED);
            push_all(&mut v, name);
            Some((v, EXT_ERR_SAVE_FILE_RET_EXT))
        },
        SaveOutcome::WriteFailed => {
            let mut v = ret_ext(id, EXT_ERR_WRITE_FILE_FAILED);
            push_all(&mut v, name);
            Some((v, EXT_ERR_SAVE_FILE_RET_EXT))
        },
        SaveOutcome::Missing => {
            let mut v = ret_ext(id, EXT_ERR_FILE_NAME_NOT_EXITS);
            push_all(&mut v, name);
            Some((v, EXT_ERR_SAVE_FILE_RET_EXT))
        },
        SaveOutcome::Written(l) => {
            push_be(&mut rd, l as u128, 4);
            let v = ret(id, rd);
            assert(v@ =~= id@ + name@ + be_bytes(l as nat, 4));
            Some((v, ext))
        },
        SaveOutcome::Closed => Some((ret(id, rd), EXT_SAVE_FILE_ELF)),
        SaveOutcome::LockFailed => None,
    }
}

/// The name a save request names its file by: the name bytes read as text, with white
/// space trimmed.
pub open spec fn save_name(raw: Seq<u8>) -> Seq<u8> {
    trimmed(lossy_utf8(raw))
}

/// The file name of a save request (see `save_name`).
pub fn file_name(raw: &[u8]) -> (r: Vec<u8>)
    ensures
        r@ == save_name(raw@),
{
    let t = lossy(raw);
    trim(t.as_slice())
}

/// What to do for a save request once its file name is known.
pub enum SaveStep {
    /// Answer at once, touching no file.
    Answer(SaveOutcome),
    /// Create the file and write the bytes.
    Create,
    /// Write the bytes to the open file.
    Write,
    /// Flush and close the open file.
    Close,
}

/// The step for a save request with `ext` for the file `name`, `open` telling whether a
/// file of that name is open: an empty name is refused; a create request for an open
/// file is refused, and a write or close request for a file not open is answered that
/// it is missing.
pub open spec fn spec_save_step(ext: u32, name: Seq<u8>, open: bool) -> SaveStep {
    if name.len() == 0 {
        SaveStep::Answer(SaveOutcome::EmptyName)
    } else if ext == EXT_SAVE_FILE_CREATE {
        if open {
            SaveStep::Answer(SaveOutcome::Exists)
        } else {
            SaveStep::Create
        }
    } else if !open {
        SaveStep::Answer(SaveOutcome::Missing)
    } else if ext == EXT_SAVE_FILE {
        SaveStep::Write
    } else {
        SaveStep::Close
    }
}

/// The step for a save request (see `spec_save_step`); `ext` is one of the save exts.
pub fn save_step(ext: u32, name: &[u8], open: bool) -> (r: SaveStep)
    requires
        is_save_ext(ext),
    ensures
        r == spec_save_step(ext, name@, open),
{
    if name.len() == 0 {
        SaveStep::Answer(SaveOutcome::EmptyName)
    } else if ext == EXT_SAVE_FILE_CREATE {
        if open {
            SaveStep::Answer(SaveOutcome::Exists)
        } else {
            SaveStep::Create
        }
    } else if !open {
        SaveStep::Answer(SaveOutcome::Missing)
    } else if ext == EXT_SAVE_FILE {
        SaveStep::Write
    } else {
        SaveStep::Close
    }
}

} // verus!

verus! {

/// A save request built from a link id of `usize` bytes, the begin token, a name
/// without an end token, the end token and the bytes to write is read back as that
/// id, name and those bytes; a request with another ext is not a save request.
pub proof fn lemma_save_request_read_back(id: Seq<u8>, name: Seq<u8>, body: Seq<u8>, ext: u32)
    requires
        id.len() == usize_len(),
        forall|i: int| 0 <= i < name.len() ==> name[i] != TOKEN_END,
    ensures
        ({
            let data = id + seq![TOKEN_BEGIN] + name + seq![TOKEN_END] + body;
            &&& is_save_ext(ext) ==> spec_save_request(data, ext) == Some(
                Ok::<(Seq<u8>, Seq<u8>, Seq<u8>), Seq<u8>>((id, name, body)),
            )
            &&& !is_save_ext(ext) ==> spec_save_request(data, ext) is None
        }),
{
    let data = id + seq![TOKEN_BEGIN] + name + seq![TOKEN_END] + body;
    let w = usize_len() as int;
    let d = data.subrange(w, data.len() as int);
    assert(d =~= seq![TOKEN_BEGIN] + name + seq![TOKEN_END] + body);
    assert(data.subrange(0, w) =~= id);
    let e: int = name.len() as int + 1;
    assert forall|k: int| 1 <= k <= e implies end_from(d, k) == Some(e) by {
        lemma_end_from_at(d, k, e);
    }
    assert(d[0] != TOKEN_END);
    assert(end_from(d, 0) == end_from(d, 1));
    assert(d.subrange(1, e) =~= name);
    assert(d.subrange(e + 1, d.len() as int) =~= body);
}

proof fn lemma_end_from_at(d: Seq<u8>, k: int, e: int)
    requires
        1 <= k <= e < d.len(),
        d[e] == TOKEN_END,
        forall|i: int| k <= i < e ==> d[i] != TOKEN_END,
    ensures
        end_from(d, k) == Some(e),
    decreases e - k,
{
    if k < e {
        lemma_end_from_at(d, k + 1, e);
    }
}

/// The answers to a save request: each begins with the requester's id; a refusal or
/// failure goes under the save error ext with its code on four big-endian bytes right
/// after the id (an empty name: the name-empty code alone; a file already open: the
/// already-created code; creating failed: the create-failed code; writing failed:
/// the write-failed code; no such open file: the not-exists code), followed by the
/// name; a write answers under the request's ext with the name and the count of bytes
/// written; a close answers under the close ext with the name; no answer when the
/// table of files could not be locked.
pub proof fn lemma_save_replies(ext: u32, id: Seq<u8>, name: Seq<u8>, o: SaveOutcome)
    ensures
        ({
            let r = spec_save_reply(ext, id, name, o);
            let fail = |c: u32| Some((id + be_bytes(c as nat, 4) + name, EXT_ERR_SAVE_FILE_RET_EXT));
            &&& o is EmptyName ==> r == Some((id + be_bytes(EXT_ERR_FILE_NAME_EMPTY as nat, 4), EXT_ERR_SAVE_FILE_RET_EXT))
            &&& o is Exists ==> r == fail(EXT_ERR_ALREADY_CREATED)
            &&& o is OpenFailed ==> r == fail(EXT_ERR_CREATE_FILE_FAILED)
            &&& o is WriteFailed ==> r == fail(EXT_ERR_WRITE_FILE_FAILED)
            &&& o is Missing ==> r == fail(EXT_ERR_FILE_NAME_NOT_EXITS)
            &&& o matches SaveOutcome::Written(l) ==> r == Some((id + name + be_bytes(l as nat, 4), ext))
            &&& o is Closed ==> r == Some((id + name, EXT_SAVE_FILE_ELF))
            &&& o is LockFailed ==> r is None
            &&& r matches Some((v, _)) ==> v.subrange(0, id.len() as int) == id
        }),
{
    let r = spec_save_reply(ext, id, name, o);
    if let Some((v, _)) = r {
        match o {
            SaveOutcome::EmptyName => {
                assert(v.subrange(0, id.len() as int) =~= id);
            },
            SaveOutcome::Written(l) => {
                assert(v.subrange(0, id.len() as int) =~= id);
            },
            SaveOutcome::Closed => {
                assert(v.subrange(0, id.len() as int) =~= id);
            },
            _ => {
                assert(v.subrange(0, id.len() as int) =~= id);
            },
        }
    }
}

/// What a save request leads to: an empty name is refused whatever the file table
/// holds; a file is created only for a create request naming a file not open, written
/// only for a write request naming an open file, and closed only for a close request
/// naming an open file; a create request naming an open file is refused as existing,
/// and a write or close request naming no open file as missing.
pub proof fn lemma_save_steps(ext: u32, name: Seq<u8>, open: bool)
    requires
        is_save_ext(ext),
    ensures
        name.len() == 0 ==> spec_save_step(ext, name, open) == SaveStep::Answer(SaveOutcome::EmptyName),
        spec_save_step(ext, name, open) is Create <==> (name.len() > 0 && ext == EXT_SAVE_FILE_CREATE && !open),
        spec_save_step(ext, name, open) is Write <==> (name.len() > 0 && ext == EXT_SAVE_FILE && open),
        spec_save_step(ext, name, open) is Close <==> (name.len() > 0 && ext == EXT_SAVE_FILE_ELF && open),
        name.len() > 0 && ext == EXT_SAVE_FILE_CREATE && open ==> spec_save_step(ext, name, open)
            == SaveStep::Answer(SaveOutcome::Exists),
        name.len() > 0 && ext != EXT_SAVE_FILE_CREATE && !open ==> spec_save_step(ext, name, open)
            == SaveStep::Answer(SaveOutcome::Missing),
{
}

} // verus!
