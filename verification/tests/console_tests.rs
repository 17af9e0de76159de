use rcmd_suit::console::{
    chunk_ext, console_cmd, link_msg, main_cmd, sub_cmd_line, MainCommand, parse_usize, send_file_head, split_words, sub_cmd, trim, upload_head, ConsoleCmd,
    FileDir, SubCmd,
};
use rcmd_suit::bytes::{TOKEN_BEGIN, TOKEN_END};
use rcmd_suit::extc::{
    EXT_GET_USERS, EXT_LOGOUT, EXT_SAVE_FILE, EXT_SEND_BROADCAST, EXT_SEND_FILE, EXT_SEND_FILE_CREATE, EXT_SEND_FILE_ELF,
    EXT_UPLOAD_FILE, EXT_UPLOAD_FILE_CREATE, EXT_UPLOAD_FILE_ELF,
};
use rcmd_suit::save_file::{parse_save_request, SaveRequest};

#[test]
fn trim_matches_str_trim() {
    for s in ["  a b  ", "\t\nx\r", "", "   ", "\u{3000}wide\u{00a0}", "\u{2009}thin\u{2028}", "a\u{1680}", "\u{85}z"] {
        assert_eq!(trim(s.as_bytes()), s.trim().as_bytes().to_vec(), "{:?}", s);
    }
}

#[test]
fn words_match_str_split() {
    for s in ["1 a b", "x  y", "", " lead", "trail "] {
        let w = split_words(s.as_bytes());
        let e: Vec<Vec<u8>> = s.split(" ").map(|p| p.as_bytes().to_vec()).collect();
        assert_eq!(w, e);
    }
}

#[test]
fn numbers_match_from_str() {
    for s in ["0", "42", "+7", "", "+", "-1", "1x", "18446744073709551615", "18446744073709551616", " 3"] {
        let want: Option<usize> = s.parse().ok();
        assert_eq!(parse_usize(s.as_bytes()), want, "{:?}", s);
    }
}

#[test]
fn console_commands() {
    assert!(matches!(console_cmd(b"0 hello"), ConsoleCmd::Send(ref d, 0) if d == b"hello"));
    assert!(matches!(console_cmd(b"0"), ConsoleCmd::Skip));
    match console_cmd(b"1 /tmp/f name ") {
        ConsoleCmd::Upload(p, n) => {
            assert_eq!(p, b"/tmp/f".to_vec());
            assert_eq!(n, b"name".to_vec());
        },
        _ => panic!("expected an upload"),
    }
    assert!(matches!(console_cmd(b"2 acc pwd"), ConsoleCmd::Login(ref a, ref p) if a == b"acc" && p == b"pwd"));
    assert!(matches!(console_cmd(b"3"), ConsoleCmd::Send(ref d, e) if d.is_empty() && e == EXT_LOGOUT));
    assert!(matches!(console_cmd(b"4 a p"), ConsoleCmd::Skip));
    assert!(matches!(console_cmd(b"4 a p n"), ConsoleCmd::Register(..)));
    assert!(matches!(console_cmd(b"5"), ConsoleCmd::Send(_, e) if e == EXT_GET_USERS));
    assert!(matches!(console_cmd(b"6 12 hi there"), ConsoleCmd::SendMsg(12, ref m) if m == b"hi"));
    assert!(matches!(console_cmd(b"6 x hi"), ConsoleCmd::Skip));
    assert!(matches!(console_cmd(b"7 all"), ConsoleCmd::Send(ref d, e) if d == b"all" && e == EXT_SEND_BROADCAST));
    assert!(matches!(console_cmd(b"8 5 "), ConsoleCmd::RunCmds(5)));
    assert!(matches!(console_cmd(b"9"), ConsoleCmd::Help));
    assert!(matches!(console_cmd(b" 0 x"), ConsoleCmd::Help));
}

#[test]
fn run_mode_lines() {
    assert!(matches!(sub_cmd(b"  quit "), SubCmd::Quit));
    assert!(matches!(sub_cmd(b" ls -l "), SubCmd::RunCmd(ref m) if m == b"ls -l"));
    assert!(matches!(sub_cmd(b"#1 /a/b c"), SubCmd::SendFile(ref p, ref n) if p == b"/a/b" && n == b"c"));
    assert!(matches!(sub_cmd(b"#1 /a/b"), SubCmd::Nothing));
    assert!(matches!(sub_cmd(b"#2 far near"), SubCmd::PullFile(ref f, Some(ref n)) if f == b"far" && n == b"near"));
    assert!(matches!(sub_cmd(b"#2 far"), SubCmd::PullFile(_, None)));
    assert!(matches!(sub_cmd(b"#3"), SubCmd::Nothing));
}

#[test]
fn file_framing() {
    assert_eq!(upload_head(b"f.txt"), [&[TOKEN_BEGIN][..], b"f.txt", &[TOKEN_END]].concat());
    assert_eq!(link_msg(7, b"x"), [&7usize.to_be_bytes()[..], b"x"].concat());
    assert_eq!(chunk_ext(FileDir::Upload, true, 10), EXT_UPLOAD_FILE_CREATE);
    assert_eq!(chunk_ext(FileDir::Upload, false, 10), EXT_UPLOAD_FILE);
    assert_eq!(chunk_ext(FileDir::Upload, false, 0), EXT_UPLOAD_FILE_ELF);
    assert_eq!(chunk_ext(FileDir::Send, true, 1), EXT_SEND_FILE_CREATE);
    assert_eq!(chunk_ext(FileDir::Send, false, 1), EXT_SEND_FILE);
    assert_eq!(chunk_ext(FileDir::Send, true, 0), EXT_SEND_FILE_ELF);
}

#[test]
fn sent_file_chunk_is_read_back() {
    let mut d = send_file_head(3, b"notes.md");
    d.extend_from_slice(b"body bytes");
    match parse_save_request(&d, EXT_SAVE_FILE) {
        SaveRequest::Save { id, name, body } => {
            assert_eq!(id, 3usize.to_be_bytes().to_vec());
            assert_eq!(name, b"notes.md".to_vec());
            assert_eq!(body, b"body bytes".to_vec());
        },
        _ => panic!("expected a save request"),
    }
}

#[test]
fn menu_commands() {
    assert!(matches!(main_cmd(b"-"), MainCommand::Leave));
    assert!(matches!(main_cmd(b"9 12"), MainCommand::ReqLink(12)));
    assert!(matches!(main_cmd(b"p 3 "), MainCommand::OpenLink(3)));
    assert!(matches!(main_cmd(b"p x"), MainCommand::Console(ConsoleCmd::Skip)));
    assert!(matches!(main_cmd(b"5"), MainCommand::Console(ConsoleCmd::Send(_, _))));
}

#[test]
fn lines_are_read_as_text() {
    // an invalid byte is read as U+FFFD, as String::from_utf8_lossy does
    match console_cmd(b"7 a\xff") {
        ConsoleCmd::Send(d, _) => assert_eq!(d, "a\u{fffd}".as_bytes().to_vec()),
        _ => panic!("expected a broadcast"),
    }
    assert!(sub_cmd_line(b"   ").is_none());
    assert!(matches!(sub_cmd_line(b" quit"), Some(SubCmd::Quit)));
}
