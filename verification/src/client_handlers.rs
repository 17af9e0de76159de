//! The command client's message handlers: which ext codes each one takes, and the
//! replies that need no outside service.
use vstd::prelude::*;
use crate::bytes::{be_bytes, push_be, push_all};
use crate::extc::{EXT_SAVE_FILE_CREATE, EXT_SAVE_FILE, EXT_SAVE_FILE_ELF, EXT_DEFAULT_ERR_CODE, EXT_EXEC_CMD, EXT_RUN_CMD, EXT_PULL_FILE_S, EXT_PULL_FILE_C, EXT_ERR_PULL_FILE_RET_EXT, EXT_SAVE_FILE_RET, EXT_SAVE_FILE_CREATE_RET, EXT_SAVE_FILE_ELF_RET, EXT_ERR_SAVE_FILE_RET_EXT, EXT_GET_USERS, EXT_RECV_MSG};
use crate::stream_parser::lemma_usize_width;
use crate::udp_sender::usize_len;

verus! {

/// Runs a command sent by the counterpart and answers with its output.
pub struct Exec {}

impl Exec {
    pub fn new() -> (r: Exec) {
        Exec {}
    }

    /// Takes command requests.
    pub fn interested(&self, ext: u32) -> (r: bool)
        ensures
            r == (ext == EXT_EXEC_CMD),
    {
        ext == EXT_EXEC_CMD
    }
}

/// Prints the list of users.
pub struct GetUser {}

impl GetUser {
    pub fn new() -> (r: GetUser) {
        GetUser {}
    }

    /// Looks at every message, and handles the user lists among them.
    pub fn interested(&self, ext: u32) -> (r: bool)
        ensures
            r,
    {
        true
    }

    /// Whether a message with `ext` is a user list.
    pub fn handles(&self, ext: u32) -> (r: bool)
        ensures
            r == (ext == EXT_GET_USERS),
    {
        ext == EXT_GET_USERS
    }
}

/// Prints a message received from another user.
pub struct RecvMsg {}

impl RecvMsg {
    pub fn new() -> (r: RecvMsg) {
        RecvMsg {}
    }

    /// Looks at every message, and handles the received user messages among them.
    pub fn interested(&self, ext: u32) -> (r: bool)
        ensures
            r,
    {
        true
    }

    /// Whether a message with `ext` is a message from another user.
    pub fn handles(&self, ext: u32) -> (r: bool)
        ensures
            r == (ext == EXT_RECV_MSG),
    {
        ext == EXT_RECV_MSG
    }
}

/// Reports how a file pull went.
pub struct PullFileRet {}

impl PullFileRet {
    pub fn new() -> (r: PullFileRet) {
        PullFileRet {}
    }

    /// Takes the pull results and the pull error.
    pub fn interested(&self, ext: u32) -> (r: bool)
        ensures
            r == (ext == EXT_PULL_FILE_S || ext == EXT_PULL_FILE_C || ext == EXT_ERR_PULL_FILE_RET_EXT),
    {
        EXT_PULL_FILE_S == ext || ext == EXT_PULL_FILE_C || ext == EXT_ERR_PULL_FILE_RET_EXT
    }
}

/// Prints the result of a command run on another client.
pub struct RunCmd {}

impl RunCmd {
    pub fn new() -> (r: RunCmd) {
        RunCmd {}
    }

    /// Takes command results.
    pub fn interested(&self, ext: u32) -> (r: bool)
        ensures
            r == (ext == EXT_RUN_CMD),
    {
        ext == EXT_RUN_CMD
    }
}

/// Sends the next part of a file once the counterpart has saved the previous one.
pub struct SendFile {}

impl SendFile {
    pub fn new() -> (r: SendFile) {
        SendFile {}
    }

    /// Takes the save results and the save error.
    pub fn interested(&self, ext: u32) -> (r: bool)
        ensures
            r == (ext == EXT_SAVE_FILE_RET || ext == EXT_SAVE_FILE_CREATE_RET || ext == EXT_SAVE_FILE_ELF_RET
                || ext == EXT_ERR_SAVE_FILE_RET_EXT),
    {
        ext == EXT_SAVE_FILE_RET || ext == EXT_SAVE_FILE_CREATE_RET || ext == EXT_SAVE_FILE_ELF_RET || ext
            == EXT_ERR_SAVE_FILE_RET_EXT
    }
}

/// Prints what an agent answered.
pub struct AgentCmdRes {}

/// Reports error codes.
pub struct ErrHandler {}

impl ErrHandler {
    /// Takes every error code.
    pub fn interested(&self, ext: u32) -> (r: bool)
        ensures
            r == (ext >= EXT_DEFAULT_ERR_CODE),
    {
        ext >= EXT_DEFAULT_ERR_CODE
    }
}

/// A handler that answers every message with `{"ret":0}`.
#[derive(Clone, Copy)]
pub struct TestHandler {}

/// The answer of the test handler.
pub open spec fn test_reply() -> Seq<u8> {
    seq![123u8, 34u8, 114u8, 101u8, 116u8, 34u8, 58u8, 48u8, 125u8]
}

impl TestHandler {
    pub fn handle(&self, data: &[u8], len: u32, ext: u32) -> (r: Option<Vec<u8>>)
        ensures
            r matches Some(v) && v@ == test_reply(),
    {
        let v: Vec<u8> = vec![123u8, 34u8, 114u8, 101u8, 116u8, 34u8, 58u8, 48u8, 125u8];
        assert(v@ =~= test_reply());
        Some(v)
    }
}

/// Runs the agent commands of the camera side.
pub struct AgentExecuor {}

impl AgentExecuor {
    /// The reply body: the link id `cp`, big-endian on a `usize`, then `after`.
    pub fn new_data_with(&self, cp: usize, after: Vec<u8>) -> (r: Vec<u8>)
        ensures
            r@ == be_bytes(cp as nat, usize_len()) + after@,
    {
        proof {
            lemma_usize_width();
        }
        let mut d: Vec<u8> = Vec::new();
        push_be(&mut d, cp as u128, core::mem::size_of::<usize>());
        push_all(&mut d, after.as_slice());
        d
    }

    /// The reply body with only the link id `cp`.
    pub fn new_data(&self, cp: usize) -> (r: Vec<u8>)
        ensures
            r@ == be_bytes(cp as nat, usize_len()),
    {
        proof {
            lemma_usize_width();
        }
        let mut d: Vec<u8> = Vec::new();
        push_be(&mut d, cp as u128, core::mem::size_of::<usize>());
        assert(d@ =~= be_bytes(cp as nat, usize_len()));
        d
    }
}

/// Levels of the camera side's log.
#[derive(Clone, Copy, PartialEq, Eq, Structural, Debug)]
pub enum LogLevel {
    Verbose,
    Debug,
    Info,
    Warn,
    Error,
    Assert,
}

/// The name of the Android log method for each level.
pub open spec fn spec_log_name(lvl: LogLevel) -> Seq<char> {
    match lvl {
        LogLevel::Verbose => seq!['v'],
        LogLevel::Debug => seq!['d'],
        LogLevel::Info => seq!['i'],
        LogLevel::Warn => seq!['w'],
        LogLevel::Error => seq!['e'],
        LogLevel::Assert => seq!['w', 't', 'f'],
    }
}

impl LogLevel {
    /// The name of the Android log method that writes at this level.
    pub fn log_name(&self) -> (r: &'static str)
        ensures
            r@ == spec_log_name(*self),
    {
        match self {
            LogLevel::Verbose => {
                proof {
                    reveal_strlit("v");
                }
                "v"
            },
            LogLevel::Debug => {
                proof {
                    reveal_strlit("d");
                }
                "d"
            },
            LogLevel::Info => {
                proof {
                    reveal_strlit("i");
                }
                "i"
            },
            LogLevel::Warn => {
                proof {
                    reveal_strlit("w");
                }
                "w"
            },
            LogLevel::Error => {
                proof {
                    reveal_strlit("e");
                }
                "e"
            },
            LogLevel::Assert => {
                proof {
                    reveal_strlit("wtf");
                }
                "wtf"
            },
        }
    }
}

/// The handlers of delivered messages, in the order a message is offered to them.
#[derive(Clone, Copy, PartialEq, Eq, Structural, Debug)]
pub enum ClientHandler {
    GetUser,
    RecvMsg,
    ErrCode,
    Exec,
    RunCmd,
    SendFile,
    SaveFile,
    PullFileRet,
}

/// The handler `h` takes messages with `ext`.
pub open spec fn takes(h: ClientHandler, ext: u32) -> bool {
    match h {
        ClientHandler::GetUser => ext == EXT_GET_USERS,
        ClientHandler::RecvMsg => ext == EXT_RECV_MSG,
        ClientHandler::ErrCode => ext >= EXT_DEFAULT_ERR_CODE,
        ClientHandler::Exec => ext == EXT_EXEC_CMD,
        ClientHandler::RunCmd => ext == EXT_RUN_CMD,
        ClientHandler::SendFile => ext == EXT_SAVE_FILE_RET || ext == EXT_SAVE_FILE_CREATE_RET || ext
            == EXT_SAVE_FILE_ELF_RET || ext == EXT_ERR_SAVE_FILE_RET_EXT,
        ClientHandler::SaveFile => ext == EXT_SAVE_FILE_CREATE || ext == EXT_SAVE_FILE || ext == EXT_SAVE_FILE_ELF,
        ClientHandler::PullFileRet => ext == EXT_PULL_FILE_S || ext == EXT_PULL_FILE_C || ext
            == EXT_ERR_PULL_FILE_RET_EXT,
    }
}

/// All handlers, in order.
pub open spec fn all_handlers() -> Seq<ClientHandler> {
    seq![
        ClientHandler::GetUser,
        ClientHandler::RecvMsg,
        ClientHandler::ErrCode,
        ClientHandler::Exec,
        ClientHandler::RunCmd,
        ClientHandler::SendFile,
        ClientHandler::SaveFile,
        ClientHandler::PullFileRet,
    ]
}

/// The handlers among the first `k` that take `ext`, in order.
pub open spec fn takers(ext: u32, k: nat) -> Seq<ClientHandler>
    decreases k,
{
    if k == 0 {
        Seq::empty()
    } else if takes(all_handlers()[k - 1], ext) {
        takers(ext, (k - 1) as nat).push(all_handlers()[k - 1])
    } else {
        takers(ext, (k - 1) as nat)
    }
}

/// Whether the handler `h` takes messages with `ext`.
pub fn handler_takes(h: ClientHandler, ext: u32) -> (r: bool)
    ensures
        r == takes(h, ext),
{
    match h {
        ClientHandler::GetUser => ext == EXT_GET_USERS,
        ClientHandler::RecvMsg => ext == EXT_RECV_MSG,
        ClientHandler::ErrCode => ext >= EXT_DEFAULT_ERR_CODE,
        ClientHandler::Exec => ext == EXT_EXEC_CMD,
        ClientHandler::RunCmd => ext == EXT_RUN_CMD,
        ClientHandler::SendFile => ext == EXT_SAVE_FILE_RET || ext == EXT_SAVE_FILE_CREATE_RET || ext
            == EXT_SAVE_FILE_ELF_RET || ext == EXT_ERR_SAVE_FILE_RET_EXT,
        ClientHandler::SaveFile => ext == EXT_SAVE_FILE_CREATE || ext == EXT_SAVE_FILE || ext == EXT_SAVE_FILE_ELF,
        ClientHandler::PullFileRet => ext == EXT_PULL_FILE_S || ext == EXT_PULL_FILE_C || ext
            == EXT_ERR_PULL_FILE_RET_EXT,
    }
}

/// The handlers that a delivered message with `ext` is offered to, in order; the first
/// answer among them is sent back.
pub fn handlers_for(ext: u32) -> (r: Vec<ClientHandler>)
    ensures
        r@ == takers(ext, 8),
{
    let all: Vec<ClientHandler> = vec![
        ClientHandler::GetUser,
        ClientHandler::RecvMsg,
        ClientHandler::ErrCode,
        ClientHandler::Exec,
        ClientHandler::RunCmd,
        ClientHandler::SendFile,
        ClientHandler::SaveFile,
        ClientHandler::PullFileRet,
    ];
    assert(all@ =~= all_handlers());
    let mut r: Vec<ClientHandler> = Vec::new();
    let mut i: usize = 0;
    while i < all.len()
        invariant
            all@ == all_handlers(),
            i <= 8,
            r@ == takers(ext, i as nat),
        decreases 8 - i,
    {
        let h = all[i];
        if handler_takes(h, ext) {
            r.push(h);
        }
        i = i + 1;
    }
    r
}

} // verus!
