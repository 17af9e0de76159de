use rcmd_suit::ab_client::State;
use rcmd_suit::asy_cry::{build_pub_key_msg, pub_key_parts, DefAsyCry, EncryptRes};
use rcmd_suit::client_handlers::{handlers_for, AgentExecuor, ClientHandler, LogLevel, ErrHandler, Exec, GetUser, PullFileRet, RecvMsg, RunCmd, SendFile, TestHandler};
use rcmd_suit::extc::{
    EXT_AGREEMENT_ERR_CODE, EXT_ERR_ALREADY_CREATED, EXT_ERR_FILE_NAME_EMPTY, EXT_ERR_SAVE_FILE_RET_EXT, EXT_EXEC_CMD,
    EXT_GET_USERS, EXT_PULL_FILE_S, EXT_RECV_MSG, EXT_RUN_CMD, EXT_SAVE_FILE, EXT_SAVE_FILE_CREATE, EXT_SAVE_FILE_ELF,
    EXT_SAVE_FILE_RET, EXT_SEND_FILE,
};
use rcmd_suit::save_file::{file_name, parse_save_request, ret, ret_ext, save_reply, save_step, SaveOutcome, SaveRequest, SaveStep};

#[test]
fn handlers_pick_their_exts() {
    assert!(Exec::new().interested(EXT_EXEC_CMD));
    assert!(!Exec::new().interested(EXT_RUN_CMD));
    assert!(GetUser::new().interested(1));
    assert!(GetUser::new().handles(EXT_GET_USERS));
    assert!(!GetUser::new().handles(EXT_RECV_MSG));
    assert!(RecvMsg::new().handles(EXT_RECV_MSG));
    assert!(PullFileRet::new().interested(EXT_PULL_FILE_S));
    assert!(RunCmd::new().interested(EXT_RUN_CMD));
    assert!(SendFile::new().interested(EXT_SAVE_FILE_RET));
    assert!(SendFile::new().interested(EXT_ERR_SAVE_FILE_RET_EXT));
    assert!(!SendFile::new().interested(EXT_SEND_FILE));
    assert!(ErrHandler {}.interested(50000));
    assert!(!ErrHandler {}.interested(49999));
}

#[test]
fn test_handler_answers_ret_zero() {
    assert_eq!(TestHandler {}.handle(b"x", 1, 2), Some(b"{\"ret\":0}".to_vec()));
}

#[test]
fn agent_reply_starts_with_the_link_id() {
    let a = AgentExecuor {};
    assert_eq!(a.new_data(258), 258usize.to_be_bytes().to_vec());
    let mut expect = 3usize.to_be_bytes().to_vec();
    expect.extend_from_slice(b"ok");
    assert_eq!(a.new_data_with(3, b"ok".to_vec()), expect);
}

#[test]
fn wait_kill_state() {
    assert!(State::WaitKill.is_wait_kill());
    assert!(!State::Busy.is_wait_kill());
}

fn save_data(id: usize, rest: &[u8]) -> Vec<u8> {
    let mut v = id.to_be_bytes().to_vec();
    v.extend_from_slice(rest);
    v
}

#[test]
fn save_request_is_read() {
    let d = save_data(4, &[2, b'a', b'.', b't', 3, 7, 8, 9]);
    match parse_save_request(&d, EXT_SAVE_FILE) {
        SaveRequest::Save { id, name, body } => {
            assert_eq!(id, 4usize.to_be_bytes().to_vec());
            assert_eq!(name, b"a.t".to_vec());
            assert_eq!(body, vec![7, 8, 9]);
        },
        _ => panic!("expected a save request"),
    }
    assert!(matches!(parse_save_request(&d, EXT_RUN_CMD), SaveRequest::Ignore));
}

#[test]
fn malformed_save_request_is_answered() {
    let d = save_data(4, &[9, b'a', 3]);
    match parse_save_request(&d, EXT_SAVE_FILE_CREATE) {
        SaveRequest::Reply((v, e)) => {
            assert_eq!(e, EXT_ERR_SAVE_FILE_RET_EXT);
            assert_eq!(v, ret_ext(&4usize.to_be_bytes(), EXT_AGREEMENT_ERR_CODE));
        },
        _ => panic!("expected an answer"),
    }
    let d = save_data(4, &[2, b'a', b'b']);
    assert!(matches!(parse_save_request(&d, EXT_SAVE_FILE), SaveRequest::Reply(_)));
}

#[test]
fn save_replies() {
    let id = [0u8, 1];
    assert_eq!(
        save_reply(EXT_SAVE_FILE, &id, b"f", SaveOutcome::Written(5)),
        Some((vec![0, 1, b'f', 0, 0, 0, 5], EXT_SAVE_FILE))
    );
    assert_eq!(save_reply(EXT_SAVE_FILE_ELF, &id, b"f", SaveOutcome::Closed), Some((vec![0, 1, b'f'], EXT_SAVE_FILE_ELF)));
    let mut e = ret_ext(&id, EXT_ERR_ALREADY_CREATED);
    e.push(b'f');
    assert_eq!(save_reply(EXT_SAVE_FILE_CREATE, &id, b"f", SaveOutcome::Exists), Some((e, EXT_ERR_SAVE_FILE_RET_EXT)));
    assert_eq!(
        save_reply(EXT_SAVE_FILE, &id, b"f", SaveOutcome::EmptyName),
        Some((ret_ext(&id, EXT_ERR_FILE_NAME_EMPTY), EXT_ERR_SAVE_FILE_RET_EXT))
    );
    assert_eq!(save_reply(EXT_SAVE_FILE, &id, b"f", SaveOutcome::LockFailed), None);
    assert_eq!(ret(&id, vec![9]), vec![0, 1, 9]);
    assert_eq!(ret_ext(&id, 0x01020304), vec![0, 1, 1, 2, 3, 4]);
}

#[test]
fn public_key_message_roundtrip() {
    let m = build_pub_key_msg(&[1, 2, 3], &[1, 0, 1]);
    assert_eq!(m, vec![0, 0, 0, 3, 1, 2, 3, 0, 0, 0, 3, 1, 0, 1]);
    assert_eq!(pub_key_parts(&m), Ok((vec![1, 2, 3], vec![1, 0, 1])));
    assert_eq!(pub_key_parts(&[0, 0, 0, 0]), Err(22));
    assert_eq!(pub_key_parts(&[0, 0, 0, 9, 1]), Err(22));
}

#[test]
fn exchange_steps_out_of_order_are_refused() {
    let mut c = DefAsyCry::new();
    assert!(matches!(c.try_decrypt(&[], 12), EncryptRes::ErrMsg((ref v, 32)) if v.is_empty()));
    assert!(matches!(c.try_decrypt(&[], 13), EncryptRes::ErrMsg((_, 32))));
    assert!(matches!(c.try_decrypt(&[], 35), EncryptRes::Break));
    assert!(matches!(c.try_decrypt(&[1], 100), EncryptRes::ErrMsg((_, 31))));
    assert!(matches!(c.try_decrypt(&[1], 9), EncryptRes::NotChange));
    assert!(!c.can_encrypt());
    assert!(c.ignore(EXT_SEND_FILE));
}

#[test]
fn bad_public_keys_are_refused() {
    let mut c = DefAsyCry::new();
    assert!(matches!(c.try_decrypt(&[0, 0, 0, 0], 10), EncryptRes::ErrMsg((_, 22))));
    // an exponent of one is refused by RSA
    let m = build_pub_key_msg(&[0xc5; 8], &[1]);
    assert!(matches!(c.try_decrypt(&m, 10), EncryptRes::ErrMsg((_, 23))));
}

#[test]
fn nothing_is_encrypted_before_the_key_arrives() {
    let c = DefAsyCry::with_thread_count(4);
    assert!(matches!(c.encrypt(b"hi", 100), EncryptRes::NotChange));
    assert!(matches!(c.encrypt(b"hi", 11), EncryptRes::NotChange));
}

#[test]
fn log_level_names() {
    assert_eq!(LogLevel::Verbose.log_name(), "v");
    assert_eq!(LogLevel::Warn.log_name(), "w");
    assert_eq!(LogLevel::Assert.log_name(), "wtf");
}

#[test]
fn short_counterpart_keys_are_taken_but_cannot_encrypt() {
    let mut c = DefAsyCry::new();
    // a modulus of ten bytes is a key RSA accepts, with no room for the padding
    let short = build_pub_key_msg(&[0xc5; 10], &[1, 0, 1]);
    assert!(c.pub_key_from(&short, 10).is_ok());
    let mut n = vec![0u8; 4];
    n.extend_from_slice(&[0xc5; 10]);
    assert!(c.pub_key_from(&build_pub_key_msg(&n, &[1, 0, 1]), 10).is_ok());
    assert!(matches!(c.pub_key_from(&[0, 0, 0, 0], 10), Err(22)));
    // the counterpart's acknowledgement carries its key
    assert!(matches!(c.try_decrypt(&short, 11), EncryptRes::ErrMsg((_, 12))));
    // leading zero bytes do not count towards the key size
    assert_eq!(rcmd_suit::asy_cry::sig_len_of(&[0, 0, 3, 4]), 2);
    assert!(matches!(c.encrypt(b"", 100), EncryptRes::ErrMsg((ref v, 30)) if v.is_empty()));
    assert!(matches!(c.encrypt(b"hi", 9), EncryptRes::NotChange));
    // eleven bytes are enough for an empty message
    let mut d = DefAsyCry::new();
    let eleven = build_pub_key_msg(&[0xc5; 11], &[1, 0, 1]);
    assert!(matches!(d.try_decrypt(&eleven, 11), EncryptRes::ErrMsg((_, 12))));
    assert!(matches!(d.encrypt(b"", 100), EncryptRes::EncryptSucc(ref v) if v.len() == 11));
    assert!(matches!(d.encrypt(b"x", 100), EncryptRes::ErrMsg((_, 30))));
}

#[test]
fn handlers_are_offered_in_order() {
    assert_eq!(handlers_for(EXT_GET_USERS), vec![ClientHandler::GetUser]);
    assert_eq!(handlers_for(EXT_ERR_SAVE_FILE_RET_EXT), vec![ClientHandler::ErrCode, ClientHandler::SendFile]);
    assert_eq!(handlers_for(EXT_SAVE_FILE), vec![ClientHandler::SaveFile]);
    assert_eq!(handlers_for(7), vec![]);
}

#[test]
fn save_steps() {
    assert_eq!(file_name(b"  a.txt \t"), b"a.txt".to_vec());
    assert!(matches!(save_step(EXT_SAVE_FILE_CREATE, b"", false), SaveStep::Answer(SaveOutcome::EmptyName)));
    assert!(matches!(save_step(EXT_SAVE_FILE_CREATE, b"f", true), SaveStep::Answer(SaveOutcome::Exists)));
    assert!(matches!(save_step(EXT_SAVE_FILE_CREATE, b"f", false), SaveStep::Create));
    assert!(matches!(save_step(EXT_SAVE_FILE, b"f", false), SaveStep::Answer(SaveOutcome::Missing)));
    assert!(matches!(save_step(EXT_SAVE_FILE, b"f", true), SaveStep::Write));
    assert!(matches!(save_step(EXT_SAVE_FILE_ELF, b"f", true), SaveStep::Close));
    assert!(matches!(save_step(EXT_SAVE_FILE_ELF, b"f", false), SaveStep::Answer(SaveOutcome::Missing)));
}
