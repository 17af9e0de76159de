//! The command console of the client: how a typed line is read into a command, and
//! how files are framed for transfer. Lines are UTF-8 bytes; words are separated by
//! single spaces, and white space is what Unicode calls White_Space.
use vstd::prelude::*;
use crate::bytes::{TOKEN_BEGIN, TOKEN_END, be_bytes, lemma_be_bytes_len, push_be, push_all, copy_range};
use crate::extc::{EXT_LOGOUT, EXT_GET_USERS, EXT_SEND_BROADCAST, EXT_UPLOAD_FILE, EXT_UPLOAD_FILE_CREATE,
    EXT_UPLOAD_FILE_ELF, EXT_SEND_FILE, EXT_SEND_FILE_CREATE, EXT_SEND_FILE_ELF};
use crate::save_file::{is_save_ext, spec_save_request, end_from};
use crate::stream_parser::lemma_usize_width;
use crate::udp_sender::usize_len;

verus! {

/// The UTF-8 bytes of what `String::from_utf8_lossy` reads out of `b`: `b` with each
/// invalid sequence replaced by U+FFFD.
pub uninterp spec fn lossy_utf8(b: Seq<u8>) -> Seq<u8>;

/// `b` read by `String::from_utf8_lossy`, as UTF-8 bytes.
#[verifier::external_body]
fn utf8_lossy(b: &[u8]) -> (r: Vec<u8>)
    ensures
        r@ == lossy_utf8(b@),
{
    String::from_utf8_lossy(b).into_owned().into_bytes()
}

/// `b` read as text, each invalid UTF-8 sequence replaced by U+FFFD (see
/// `lossy_utf8`).
pub fn lossy(b: &[u8]) -> (r: Vec<u8>)
    ensures
        r@ == lossy_utf8(b@),
{
    utf8_lossy(b)
}

/// The one-byte white space characters: tab, line feed, vertical tab, form feed,
/// carriage return and space.
pub open spec fn is_ascii_ws(b: u8) -> bool {
    b == 9 || b == 10 || b == 11 || b == 12 || b == 13 || b == 32
}

/// The three-byte white space characters: U+1680, U+2000 to U+200A, U+2028, U+2029,
/// U+202F, U+205F and U+3000.
pub open spec fn is_ws3(a: u8, b: u8, c: u8) -> bool {
    ||| (a == 0xE1 && b == 0x9A && c == 0x80)
    ||| (a == 0xE2 && b == 0x80 && ((0x80 <= c <= 0x8A) || c == 0xA8 || c == 0xA9 || c == 0xAF))
    ||| (a == 0xE2 && b == 0x81 && c == 0x9F)
    ||| (a == 0xE3 && b == 0x80 && c == 0x80)
}

/// The two-byte white space characters: U+0085 and U+00A0.
pub open spec fn is_ws2(a: u8, b: u8) -> bool {
    a == 0xC2 && (b == 0x85 || b == 0xA0)
}

/// The length of the white space character that starts at `i`, or zero.
pub open spec fn ws_at(s: Seq<u8>, i: int) -> int {
    if 0 <= i < s.len() && is_ascii_ws(s[i]) {
        1
    } else if 0 <= i && i + 2 <= s.len() && is_ws2(s[i], s[i + 1]) {
        2
    } else if 0 <= i && i + 3 <= s.len() && is_ws3(s[i], s[i + 1], s[i + 2]) {
        3
    } else {
        0
    }
}

/// The length of the white space character that ends just before `j`, or zero.
pub open spec fn ws_before(s: Seq<u8>, j: int) -> int {
    if 1 <= j <= s.len() && is_ascii_ws(s[j - 1]) {
        1
    } else if 2 <= j <= s.len() && is_ws2(s[j - 2], s[j - 1]) {
        2
    } else if 3 <= j <= s.len() && is_ws3(s[j - 3], s[j - 2], s[j - 1]) {
        3
    } else {
        0
    }
}

/// Where the text from `i` starts once leading white space is skipped.
pub open spec fn skip_ws(s: Seq<u8>, i: int) -> int
    decreases s.len() - i,
{
    if 0 <= i <= s.len() && ws_at(s, i) > 0 {
        skip_ws(s, i + ws_at(s, i))
    } else {
        i
    }
}

/// Where the text from `lo` up to `j` ends once trailing white space is dropped.
pub open spec fn drop_ws(s: Seq<u8>, lo: int, j: int) -> int
    decreases j - lo,
{
    if lo < j && ws_before(s, j) > 0 && j - ws_before(s, j) >= lo {
        drop_ws(s, lo, j - ws_before(s, j))
    } else {
        j
    }
}

/// `s` without leading and trailing white space.
pub open spec fn trimmed(s: Seq<u8>) -> Seq<u8> {
    let a = skip_ws(s, 0);
    s.subrange(a, drop_ws(s, a, s.len() as int))
}

proof fn lemma_skip_ws(s: Seq<u8>, i: int)
    requires
        0 <= i <= s.len(),
    ensures
        i <= skip_ws(s, i) <= s.len(),
    decreases s.len() - i,
{
    if ws_at(s, i) > 0 {
        lemma_skip_ws(s, i + ws_at(s, i));
    }
}

proof fn lemma_drop_ws(s: Seq<u8>, lo: int, j: int)
    requires
        lo <= j,
    ensures
        lo <= drop_ws(s, lo, j) <= j,
    decreases j - lo,
{
    if lo < j && ws_before(s, j) > 0 && j - ws_before(s, j) >= lo {
        lemma_drop_ws(s, lo, j - ws_before(s, j));
    }
}

/// The length of the white space character that starts at `i` of `s`, or zero.
fn ws_len_at(s: &[u8], i: usize) -> (r: usize)
    ensures
        r == ws_at(s@, i as int),
{
    let n = s.len();
    if i < n && (s[i] == 9 || s[i] == 10 || s[i] == 11 || s[i] == 12 || s[i] == 13 || s[i] == 32) {
        1
    } else if i < n && n - i >= 2 && s[i] == 0xC2 && (s[i + 1] == 0x85 || s[i + 1] == 0xA0) {
        2
    } else if i < n && n - i >= 3 && ws3(s[i], s[i + 1], s[i + 2]) {
        3
    } else {
        0
    }
}

/// The length of the white space character that ends just before `j` of `s`, or zero.
fn ws_len_before(s: &[u8], j: usize) -> (r: usize)
    ensures
        r == ws_before(s@, j as int),
{
    let n = s.len();
    if 1 <= j && j <= n && (s[j - 1] == 9 || s[j - 1] == 10 || s[j - 1] == 11 || s[j - 1] == 12 || s[j - 1]
        == 13 || s[j - 1] == 32) {
        1
    } else if 2 <= j && j <= n && s[j - 2] == 0xC2 && (s[j - 1] == 0x85 || s[j - 1] == 0xA0) {
        2
    } else if 3 <= j && j <= n && ws3(s[j - 3], s[j - 2], s[j - 1]) {
        3
    } else {
        0
    }
}

fn ws3(a: u8, b: u8, c: u8) -> (r: bool)
    ensures
        r == is_ws3(a, b, c),
{
    (a == 0xE1 && b == 0x9A && c == 0x80) || (a == 0xE2 && b == 0x80 && ((0x80 <= c && c <= 0x8A) || c == 0xA8
        || c == 0xA9 || c == 0xAF)) || (a == 0xE2 && b == 0x81 && c == 0x9F) || (a == 0xE3 && b == 0x80 && c
        == 0x80)
}

/// `s` without leading and trailing white space.
pub fn trim(s: &[u8]) -> (r: Vec<u8>)
    ensures
        r@ == trimmed(s@),
{
    let n = s.len();
    let mut a: usize = 0;
    let mut more = true;
    while more
        invariant
            a <= n == s@.len(),
            skip_ws(s@, a as int) == skip_ws(s@, 0),
            !more ==> ws_at(s@, a as int) == 0,
        decreases n - a + (if more { 1int } else { 0int }),
    {
        let w = ws_len_at(s, a);
        if w == 0 {
            more = false;
        } else {
            a = a + w;
        }
    }
    let mut b: usize = n;
    let mut more = true;
    while more
        invariant
            a <= b <= n == s@.len(),
            a == skip_ws(s@, 0),
            drop_ws(s@, a as int, b as int) == drop_ws(s@, a as int, n as int),
            !more ==> !(a < b && ws_before(s@, b as int) > 0 && b - ws_before(s@, b as int) >= a),
        decreases b + (if more { 1int } else { 0int }),
    {
        let w = ws_len_before(s, b);
        if a < b && w > 0 && b - w >= a {
            b = b - w;
        } else {
            more = false;
        }
    }
    copy_range(s, a, b)
}

/// The words of `s`, split at each space as `str::split(" ")` does: two spaces in a
/// row give an empty word, and there is always at least one word.
pub open spec fn words(s: Seq<u8>) -> Seq<Seq<u8>>
    decreases s.len(),
{
    if s.len() == 0 {
        seq![Seq::<u8>::empty()]
    } else {
        let w = words(s.drop_last());
        if s.last() == 32 {
            w.push(Seq::<u8>::empty())
        } else {
            w.update(w.len() - 1, w.last().push(s.last()))
        }
    }
}

proof fn lemma_words_len(s: Seq<u8>)
    ensures
        words(s).len() >= 1,
    decreases s.len(),
{
    if s.len() > 0 {
        lemma_words_len(s.drop_last());
    }
}

/// Splits `s` into its words (see `words`).
pub fn split_words(s: &[u8]) -> (r: Vec<Vec<u8>>)
    ensures
        r@.len() == words(s@).len(),
        forall|k: int| 0 <= k < r@.len() ==> #[trigger] r@[k]@ == words(s@)[k],
{
    let mut out: Vec<Vec<u8>> = Vec::new();
    let mut cur: Vec<u8> = Vec::new();
    let mut i: usize = 0;
    while i < s.len()
        invariant
            i <= s@.len(),
            out@.len() + 1 == words(s@.subrange(0, i as int)).len(),
            forall|k: int| 0 <= k < out@.len() ==> #[trigger] out@[k]@ == words(s@.subrange(0, i as int))[k],
            cur@ == words(s@.subrange(0, i as int)).last(),
        decreases s@.len() - i,
    {
        let ghost p = s@.subrange(0, i as int);
        let ghost q = s@.subrange(0, i + 1);
        proof {
            assert(q.drop_last() =~= p);
            lemma_words_len(p);
        }
        if s[i] == 32 {
            out.push(cur);
            cur = Vec::new();
        } else {
            cur.push(s[i]);
        }
        i = i + 1;
    }
    proof {
        assert(s@.subrange(0, s@.len() as int) =~= s@);
    }
    out.push(cur);
    out
}

/// The value of the decimal digits `s`.
pub open spec fn dec_val(s: Seq<u8>) -> nat
    decreases s.len(),
{
    if s.len() == 0 {
        0
    } else {
        dec_val(s.drop_last()) * 10 + (s.last() - 48) as nat
    }
}

/// Every byte of `s` is a decimal digit.
pub open spec fn all_digits(s: Seq<u8>) -> bool {
    forall|i: int| 0 <= i < s.len() ==> 48 <= #[trigger] s[i] <= 57
}

/// What `usize::from_str` reads out of `s`: an optional plus sign, then at least one
/// digit, with a value that fits.
pub open spec fn spec_parse_usize(s: Seq<u8>) -> Option<usize> {
    let d = if s.len() > 0 && s[0] == 43 {
        s.drop_first()
    } else {
        s
    };
    if d.len() > 0 && all_digits(d) && dec_val(d) <= usize::MAX {
        Some(dec_val(d) as usize)
    } else {
        None
    }
}

/// Reads a decimal number (see `spec_parse_usize`).
pub fn parse_usize(s: &[u8]) -> (r: Option<usize>)
    ensures
        r == spec_parse_usize(s@),
{
    let start: usize = if s.len() > 0 && s[0] == 43 {
        1
    } else {
        0
    };
    let ghost d = if s@.len() > 0 && s@[0] == 43 {
        s@.drop_first()
    } else {
        s@
    };
    proof {
        assert(d =~= s@.subrange(start as int, s@.len() as int));
    }
    if start >= s.len() {
        return None;
    }
    let mut acc: usize = 0;
    let mut over = false;
    let mut i: usize = start;
    while i < s.len()
        invariant
            start <= i <= s@.len(),
            d =~= s@.subrange(start as int, s@.len() as int),
            d == (if s@.len() > 0 && s@[0] == 43 {
                s@.drop_first()
            } else {
                s@
            }),
            all_digits(s@.subrange(start as int, i as int)),
            !over ==> acc == dec_val(s@.subrange(start as int, i as int)),
            over ==> dec_val(s@.subrange(start as int, i as int)) > usize::MAX,
        decreases s@.len() - i,
    {
        let c = s[i];
        if c < 48 || c > 57 {
            proof {
                assert(d[i - start] == c);
                assert(!all_digits(d));
            }
            return None;
        }
        let ghost p = s@.subrange(start as int, i as int);
        let ghost q = s@.subrange(start as int, i + 1);
        proof {
            assert(q.drop_last() =~= p);
            assert(q.last() == c);
        }
        let dg = (c - 48) as usize;
        if !over {
            if acc > (usize::MAX - dg) / 10 {
                over = true;
                assert(acc * 10 + dg > usize::MAX) by (nonlinear_arith)
                    requires
                        acc > (usize::MAX - dg) / 10,
                        dg <= 9,
                ;
            } else {
                assert(acc * 10 + dg <= usize::MAX) by (nonlinear_arith)
                    requires
                        acc <= (usize::MAX - dg) / 10,
                        dg <= 9,
                ;
                acc = acc * 10 + dg;
            }
        }
        i = i + 1;
    }
    proof {
        assert(s@.subrange(start as int, s@.len() as int) =~= d);
    }
    if over {
        None
    } else {
        Some(acc)
    }
}

/// `w` is the one-byte word `c`.
fn is_word(w: &Vec<u8>, c: u8) -> (r: bool)
    ensures
        r == (w@ == seq![c]),
{
    if w.len() == 1 && w[0] == c {
        assert(w@ =~= seq![c]);
        true
    } else {
        proof {
            if w@ == seq![c] {
                assert(w@.len() == 1 && w@[0] == c);
            }
        }
        false
    }
}

/// A command typed at the console.
pub enum ConsoleCmd {
    /// Queue `(data, ext)` for the server.
    Send(Vec<u8>, u32),
    /// Upload the file at the path under the name.
    Upload(Vec<u8>, Vec<u8>),
    /// Log in with account and password.
    Login(Vec<u8>, Vec<u8>),
    /// Register account, password and name.
    Register(Vec<u8>, Vec<u8>, Vec<u8>),
    /// Send a message to the client with the link id.
    SendMsg(usize, Vec<u8>),
    /// Run commands on the client with the link id, line by line.
    RunCmds(usize),
    /// A command missing arguments, or with a link id that is not a number.
    Skip,
    /// An unknown command: show the help.
    Help,
}

/// The command `r` that the console line `line` gives: its first word names it, and
/// the arguments are the next words.
pub open spec fn console_cmd_is(line: Seq<u8>, r: ConsoleCmd) -> bool {
    let w = words(line);
    let n = w.len();
    let c = w[0];
    if c == seq![48u8] {
        if n < 2 {
            r is Skip
        } else {
            r matches ConsoleCmd::Send(d, e) && d@ == w[1] && e == 0
        }
    } else if c == seq![49u8] {
        if n < 3 {
            r is Skip
        } else {
            r matches ConsoleCmd::Upload(p, m) && p@ == w[1] && m@ == trimmed(w[2])
        }
    } else if c == seq![50u8] {
        if n < 3 {
            r is Skip
        } else {
            r matches ConsoleCmd::Login(a, p) && a@ == trimmed(w[1]) && p@ == trimmed(w[2])
        }
    } else if c == seq![51u8] {
        r matches ConsoleCmd::Send(d, e) && d@ == Seq::<u8>::empty() && e == EXT_LOGOUT
    } else if c == seq![52u8] {
        if n < 4 {
            r is Skip
        } else {
            r matches ConsoleCmd::Register(a, p, m) && a@ == trimmed(w[1]) && p@ == trimmed(w[2]) && m@
                == trimmed(w[3])
        }
    } else if c == seq![53u8] {
        r matches ConsoleCmd::Send(d, e) && d@ == Seq::<u8>::empty() && e == EXT_GET_USERS
    } else if c == seq![54u8] {
        if n < 3 {
            r is Skip
        } else {
            match spec_parse_usize(w[1]) {
                None => r is Skip,
                Some(l) => r matches ConsoleCmd::SendMsg(x, m) && x == l && m@ == trimmed(w[2]),
            }
        }
    } else if c == seq![55u8] {
        if n < 2 {
            r is Skip
        } else {
            r matches ConsoleCmd::Send(d, e) && d@ == trimmed(w[1]) && e == EXT_SEND_BROADCAST
        }
    } else if c == seq![56u8] {
        if n < 2 {
            r is Skip
        } else {
            match spec_parse_usize(trimmed(w[1])) {
                None => r is Skip,
                Some(l) => r matches ConsoleCmd::RunCmds(x) && x == l,
            }
        }
    } else {
        r is Help
    }
}

/// Reads the console line `line` (without its line feed), as text, into a command.
pub fn console_cmd(line: &[u8]) -> (r: ConsoleCmd)
    ensures
        console_cmd_is(lossy_utf8(line@), r),
{
    let text = utf8_lossy(line);
    let r = console_cmd_text(text.as_slice());
    r
}

/// Reads the console line `line`, already text, into a command.
pub fn console_cmd_text(line: &[u8]) -> (r: ConsoleCmd)
    ensures
        console_cmd_is(line@, r),
{
    let w = split_words(line);
    proof {
        lemma_words_len(line@);
    }
    let n = w.len();
    let c = &w[0];
    assert(c@ == words(line@)[0]);
    if is_word(c, 48) {
        if n < 2 {
            return ConsoleCmd::Skip;
        }
        let d = copy_range(w[1].as_slice(), 0, w[1].len());
        assert(w@[1]@ == words(line@)[1]);
        assert(d@ =~= w@[1]@);
        ConsoleCmd::Send(d, 0)
    } else if is_word(c, 49) {
        if n < 3 {
            return ConsoleCmd::Skip;
        }
        let p = copy_range(w[1].as_slice(), 0, w[1].len());
        assert(w@[1]@ == words(line@)[1]);
        assert(w@[2]@ == words(line@)[2]);
        assert(p@ =~= w@[1]@);
        ConsoleCmd::Upload(p, trim(w[2].as_slice()))
    } else if is_word(c, 50) {
        if n < 3 {
            return ConsoleCmd::Skip;
        }
        assert(w@[1]@ == words(line@)[1]);
        assert(w@[2]@ == words(line@)[2]);
        ConsoleCmd::Login(trim(w[1].as_slice()), trim(w[2].as_slice()))
    } else if is_word(c, 51) {
        ConsoleCmd::Send(Vec::new(), EXT_LOGOUT)
    } else if is_word(c, 52) {
        if n < 4 {
            return ConsoleCmd::Skip;
        }
        assert(w@[1]@ == words(line@)[1]);
        assert(w@[2]@ == words(line@)[2]);
        assert(w@[3]@ == words(line@)[3]);
        ConsoleCmd::Register(trim(w[1].as_slice()), trim(w[2].as_slice()), trim(w[3].as_slice()))
    } else if is_word(c, 53) {
        ConsoleCmd::Send(Vec::new(), EXT_GET_USERS)
    } else if is_word(c, 54) {
        if n < 3 {
            return ConsoleCmd::Skip;
        }
        assert(w@[1]@ == words(line@)[1]);
        assert(w@[2]@ == words(line@)[2]);
        match parse_usize(w[1].as_slice()) {
            None => ConsoleCmd::Skip,
            Some(l) => ConsoleCmd::SendMsg(l, trim(w[2].as_slice())),
        }
    } else if is_word(c, 55) {
        if n < 2 {
            return ConsoleCmd::Skip;
        }
        assert(w@[1]@ == words(line@)[1]);
        ConsoleCmd::Send(trim(w[1].as_slice()), EXT_SEND_BROADCAST)
    } else if is_word(c, 56) {
        if n < 2 {
            return ConsoleCmd::Skip;
        }
        assert(w@[1]@ == words(line@)[1]);
        let t = trim(w[1].as_slice());
        match parse_usize(t.as_slice()) {
            None => ConsoleCmd::Skip,
            Some(l) => ConsoleCmd::RunCmds(l),
        }
    } else {
        ConsoleCmd::Help
    }
}

/// A command typed at the main menu of the client that also links to other clients.
pub enum MainCommand {
    /// Leave the menu.
    Leave,
    /// Ask for a link with the client with the link id.
    ReqLink(usize),
    /// Open the link with the client with the link id, once set up.
    OpenLink(usize),
    /// Any other command, read as at the console.
    Console(ConsoleCmd),
}

/// The link id in the second word of `w`, for a menu command that takes one.
pub open spec fn menu_lid(w: Seq<Seq<u8>>) -> Option<usize> {
    if w.len() < 2 {
        None
    } else {
        spec_parse_usize(trimmed(w[1]))
    }
}

/// The command `r` that the menu line `line` gives: `-` leaves, `9` asks for a link,
/// `p` opens one, and a missing or unreadable link id does nothing; any other line is
/// read as at the console.
pub open spec fn main_cmd_is(line: Seq<u8>, r: MainCommand) -> bool {
    let w = words(line);
    if w[0] == seq![45u8] {
        r is Leave
    } else if w[0] == seq![57u8] {
        match menu_lid(w) {
            None => r matches MainCommand::Console(c) && c is Skip,
            Some(l) => r matches MainCommand::ReqLink(x) && x == l,
        }
    } else if w[0] == seq![112u8] {
        match menu_lid(w) {
            None => r matches MainCommand::Console(c) && c is Skip,
            Some(l) => r matches MainCommand::OpenLink(x) && x == l,
        }
    } else {
        r matches MainCommand::Console(c) && console_cmd_is(line, c)
    }
}

/// Reads the menu line `line`, as text, into a command (see `main_cmd_is`).
pub fn main_cmd(line: &[u8]) -> (r: MainCommand)
    ensures
        main_cmd_is(lossy_utf8(line@), r),
{
    let text = utf8_lossy(line);
    let w = split_words(text.as_slice());
    proof {
        lemma_words_len(text@);
    }
    assert(w@[0]@ == words(text@)[0]);
    let is_req = is_word(&w[0], 57);
    let is_open = is_word(&w[0], 112);
    if is_word(&w[0], 45) {
        MainCommand::Leave
    } else if is_req || is_open {
        if w.len() < 2 {
            return MainCommand::Console(ConsoleCmd::Skip);
        }
        assert(w@[1]@ == words(text@)[1]);
        let t = trim(w[1].as_slice());
        match parse_usize(t.as_slice()) {
            None => MainCommand::Console(ConsoleCmd::Skip),
            Some(l) => if is_req {
                MainCommand::ReqLink(l)
            } else {
                MainCommand::OpenLink(l)
            },
        }
    } else {
        MainCommand::Console(console_cmd_text(text.as_slice()))
    }
}

/// A line typed while running commands on another client.
pub enum SubCmd {
    /// Leave this mode.
    Quit,
    /// Run the command line on the other client.
    RunCmd(Vec<u8>),
    /// Send the file at the path to the other client under the name.
    SendFile(Vec<u8>, Vec<u8>),
    /// Fetch the file at the far path, to the near path if one is given.
    PullFile(Vec<u8>, Option<Vec<u8>>),
    /// A file command that is unknown or misses arguments.
    Nothing,
}

/// The command `r` that the line `line` gives while running commands on another
/// client: a line starting with `#` is a file command, `quit` leaves, and any other
/// line is run there.
pub open spec fn sub_cmd_is(line: Seq<u8>, r: SubCmd) -> bool {
    let s = trimmed(line);
    if s[0] == 35 {
        let w = words(s.drop_first());
        let c = trimmed(w[0]);
        if c == seq![49u8] {
            if w.len() < 3 {
                r is Nothing
            } else {
                r matches SubCmd::SendFile(p, m) && p@ == w[1] && m@ == trimmed(w[2])
            }
        } else if c == seq![50u8] {
            if w.len() < 2 {
                r is Nothing
            } else {
                r matches SubCmd::PullFile(f, o) && f@ == trimmed(w[1]) && (if w.len() >= 3 {
                    o matches Some(x) && x@ == trimmed(w[2])
                } else {
                    o is None
                })
            }
        } else {
            r is Nothing
        }
    } else if trimmed(s) == seq![113u8, 117u8, 105u8, 116u8] {
        r is Quit
    } else {
        r matches SubCmd::RunCmd(m) && m@ == trimmed(s)
    }
}

/// Reads a line typed while running commands on another client (see `sub_cmd_is`);
/// the line holds more than white space.
pub fn sub_cmd(line: &[u8]) -> (r: SubCmd)
    requires
        trimmed(line@).len() > 0,
    ensures
        sub_cmd_is(line@, r),
{
    let s = trim(line);
    if s[0] == 35 {
        let rest = copy_range(s.as_slice(), 1, s.len());
        assert(rest@ =~= s@.drop_first());
        let w = split_words(rest.as_slice());
        proof {
            lemma_words_len(rest@);
        }
        assert(w@[0]@ == words(rest@)[0]);
        let c = trim(w[0].as_slice());
        if is_word(&c, 49) {
            if w.len() < 3 {
                return SubCmd::Nothing;
            }
            assert(w@[1]@ == words(rest@)[1]);
            assert(w@[2]@ == words(rest@)[2]);
            let p = copy_range(w[1].as_slice(), 0, w[1].len());
            assert(p@ =~= w@[1]@);
            SubCmd::SendFile(p, trim(w[2].as_slice()))
        } else if is_word(&c, 50) {
            if w.len() < 2 {
                return SubCmd::Nothing;
            }
            assert(w@[1]@ == words(rest@)[1]);
            let far = trim(w[1].as_slice());
            if w.len() >= 3 {
                assert(w@[2]@ == words(rest@)[2]);
                SubCmd::PullFile(far, Some(trim(w[2].as_slice())))
            } else {
                SubCmd::PullFile(far, None)
            }
        } else {
            SubCmd::Nothing
        }
    } else {
        let t = trim(s.as_slice());
        let q: Vec<u8> = vec![113u8, 117u8, 105u8, 116u8];
        if t.len() == 4 && t[0] == q[0] && t[1] == q[1] && t[2] == q[2] && t[3] == q[3] {
            assert(t@ =~= seq![113u8, 117u8, 105u8, 116u8]);
            SubCmd::Quit
        } else {
            proof {
                if t@ == seq![113u8, 117u8, 105u8, 116u8] {
                    assert(t@.len() == 4 && t@[0] == 113 && t@[1] == 117 && t@[2] == 105 && t@[3] == 116);
                }
            }
            SubCmd::RunCmd(t)
        }
    }
}

/// Reads a line typed while running commands on another client, as text (see
/// `sub_cmd_is`); `None` for a line of white space only, which the console refuses.
pub fn sub_cmd_line(line: &[u8]) -> (r: Option<SubCmd>)
    ensures
        trimmed(lossy_utf8(line@)).len() == 0 ==> r is None,
        trimmed(lossy_utf8(line@)).len() > 0 ==> (r matches Some(c) && sub_cmd_is(lossy_utf8(line@), c)),
{
    let text = utf8_lossy(line);
    let t = trim(text.as_slice());
    if t.len() == 0 {
        return None;
    }
    Some(sub_cmd(text.as_slice()))
}

/// The head of a file upload to the server: the name between the begin and end
/// tokens.
pub fn upload_head(name: &[u8]) -> (r: Vec<u8>)
    ensures
        r@ == seq![TOKEN_BEGIN] + name@ + seq![TOKEN_END],
{
    let mut v: Vec<u8> = Vec::new();
    v.push(TOKEN_BEGIN);
    push_all(&mut v, name);
    v.push(TOKEN_END);
    assert(v@ =~= seq![TOKEN_BEGIN] + name@ + seq![TOKEN_END]);
    v
}

/// `body` addressed to the client with link id `lid`: the id, big-endian on a
/// `usize`, then the body.
pub fn link_msg(lid: usize, body: &[u8]) -> (r: Vec<u8>)
    ensures
        r@ == be_bytes(lid as nat, usize_len()) + body@,
{
    proof {
        lemma_usize_width();
    }
    let mut v: Vec<u8> = Vec::new();
    push_be(&mut v, lid as u128, core::mem::size_of::<usize>());
    push_all(&mut v, body);
    v
}

/// The head of a file sent to the client with link id `lid`: the id, then the name
/// between the begin and end tokens.
pub fn send_file_head(lid: usize, name: &[u8]) -> (r: Vec<u8>)
    ensures
        r@ == be_bytes(lid as nat, usize_len()) + seq![TOKEN_BEGIN] + name@ + seq![TOKEN_END],
{
    let h = upload_head(name);
    let v = link_msg(lid, h.as_slice());
    assert(v@ =~= be_bytes(lid as nat, usize_len()) + seq![TOKEN_BEGIN] + name@ + seq![TOKEN_END]);
    v
}

/// Where a file goes: up to the server, or to another client.
#[derive(Clone, Copy, PartialEq, Eq, Structural, Debug)]
pub enum FileDir {
    Upload,
    Send,
}

/// The ext of a file chunk of `n` bytes: the first chunk creates the file, later ones
/// add to it, and an empty read closes it.
pub open spec fn spec_chunk_ext(dir: FileDir, first: bool, n: usize) -> u32 {
    match dir {
        FileDir::Upload => if n == 0 {
            EXT_UPLOAD_FILE_ELF
        } else if first {
            EXT_UPLOAD_FILE_CREATE
        } else {
            EXT_UPLOAD_FILE
        },
        FileDir::Send => if n == 0 {
            EXT_SEND_FILE_ELF
        } else if first {
            EXT_SEND_FILE_CREATE
        } else {
            EXT_SEND_FILE
        },
    }
}

/// The ext of a file chunk (see `spec_chunk_ext`).
pub fn chunk_ext(dir: FileDir, first: bool, n: usize) -> (r: u32)
    ensures
        r == spec_chunk_ext(dir, first, n),
{
    match dir {
        FileDir::Upload => if n == 0 {
            EXT_UPLOAD_FILE_ELF
        } else if first {
            EXT_UPLOAD_FILE_CREATE
        } else {
            EXT_UPLOAD_FILE
        },
        FileDir::Send => if n == 0 {
            EXT_SEND_FILE_ELF
        } else if first {
            EXT_SEND_FILE_CREATE
        } else {
            EXT_SEND_FILE
        },
    }
}

proof fn lemma_end_from_at(d: Seq<u8>, k: int, e: int)
    requires
        0 <= k <= e < d.len(),
        d[e] == TOKEN_END,
        forall|i: int| k <= i < e ==> d[i] != TOKEN_END,
    ensures
        end_from(d, k) == Some(e),
    decreases e - k,
{
    if k < e {
        lemma_end_from_at(d, k + 1, e);
    }
}

/// A chunk of a file sent to link `lid` under a name without the end token is read
/// back by the receiving side as the requester's id, the name and the chunk.
pub proof fn lemma_file_chunk_read_back(lid: usize, name: Seq<u8>, chunk: Seq<u8>, ext: u32)
    requires
        is_save_ext(ext),
        !name.contains(TOKEN_END),
    ensures
        spec_save_request(
            be_bytes(lid as nat, usize_len()) + seq![TOKEN_BEGIN] + name + seq![TOKEN_END] + chunk,
            ext,
        ) == Some(Ok::<(Seq<u8>, Seq<u8>, Seq<u8>), Seq<u8>>((be_bytes(lid as nat, usize_len()), name, chunk))),
{
    let id = be_bytes(lid as nat, usize_len());
    lemma_be_bytes_len(lid as nat, usize_len());
    let d = seq![TOKEN_BEGIN] + name + seq![TOKEN_END] + chunk;
    let data = id + d;
    assert(data =~= id + seq![TOKEN_BEGIN] + name + seq![TOKEN_END] + chunk);
    assert(d[0] == TOKEN_BEGIN);
    let w = usize_len() as int;
    assert(data.subrange(0, w) =~= id);
    assert(data.subrange(w, data.len() as int) =~= d);
    let e: int = name.len() as int + 1;
    assert forall|i: int| 0 <= i < e implies d[i] != TOKEN_END by {
        if i > 0 {
            assert(d[i] == name[i - 1]);
        }
    }
    lemma_end_from_at(d, 0, e);
    assert(d.subrange(1, e) =~= name);
    assert(d.subrange(e + 1, d.len() as int) =~= chunk);
}

} // verus!

verus! {

/// `s` holds no space.
pub open spec fn no_space(s: Seq<u8>) -> bool {
    forall|i: int| 0 <= i < s.len() ==> s[i] != 32
}

/// The words `ws` written one after another with one space between each two.
pub open spec fn line_of(ws: Seq<Seq<u8>>) -> Seq<u8>
    decreases ws.len(),
{
    if ws.len() <= 1 {
        if ws.len() == 1 {
            ws[0]
        } else {
            Seq::empty()
        }
    } else {
        line_of(ws.drop_last()) + seq![32u8] + ws.last()
    }
}

proof fn lemma_words_no_space(t: Seq<u8>)
    requires
        no_space(t),
    ensures
        words(t) =~= seq![t],
    decreases t.len(),
{
    if t.len() > 0 {
        assert(no_space(t.drop_last()));
        lemma_words_no_space(t.drop_last());
        assert(t.drop_last().push(t.last()) =~= t);
        assert(t.last() != 32);
        let w = words(t.drop_last());
        assert(words(t) == w.update(w.len() - 1, w.last().push(t.last())));
        assert(w.update(0, w[0].push(t.last())) =~= seq![t]);
    } else {
        assert(t =~= Seq::<u8>::empty());
    }
}

/// One-byte command words differ when their bytes do.
proof fn lemma_cmd_word(c: u8)
    ensures
        forall|d: u8| d != c ==> #[trigger] seq![d] != seq![c],
{
    assert forall|d: u8| d != c implies #[trigger] seq![d] != seq![c] by {
        assert(seq![d][0] != seq![c][0]);
    }
}

proof fn lemma_words_join(s: Seq<u8>, t: Seq<u8>)
    ensures
        words(s + seq![32u8] + t) =~= words(s) + words(t),
    decreases t.len(),
{
    lemma_words_len(s);
    lemma_words_len(t);
    let u = s + seq![32u8] + t;
    if t.len() == 0 {
        assert(u.drop_last() =~= s);
    } else {
        let t1 = t.drop_last();
        assert(u.drop_last() =~= s + seq![32u8] + t1);
        lemma_words_join(s, t1);
        lemma_words_len(t1);
    }
}

/// Words without spaces, joined with single spaces, split back into those words.
pub proof fn lemma_words_of_line(ws: Seq<Seq<u8>>)
    requires
        ws.len() >= 1,
        forall|k: int| 0 <= k < ws.len() ==> no_space(#[trigger] ws[k]),
    ensures
        words(line_of(ws)) =~= ws,
    decreases ws.len(),
{
    if ws.len() == 1 {
        lemma_words_no_space(ws[0]);
    } else {
        let init = ws.drop_last();
        lemma_words_of_line(init);
        lemma_words_join(line_of(init), ws.last());
        lemma_words_no_space(ws.last());
    }
}

/// A login line, `2`, the account and the password, logs in with that account and
/// password, white space trimmed.
pub proof fn lemma_login_line(a: Seq<u8>, p: Seq<u8>, r: ConsoleCmd)
    requires
        no_space(a),
        no_space(p),
        console_cmd_is(line_of(seq![seq![50u8], a, p]), r),
    ensures
        r matches ConsoleCmd::Login(x, y) && x@ == trimmed(a) && y@ == trimmed(p),
{
    lemma_words_of_line(seq![seq![50u8], a, p]);
    lemma_cmd_word(50);
}

/// A register line, `4`, the account, the password and the name, registers that
/// account, password and name, white space trimmed, in that order.
pub proof fn lemma_register_line(a: Seq<u8>, p: Seq<u8>, n: Seq<u8>, r: ConsoleCmd)
    requires
        no_space(a),
        no_space(p),
        no_space(n),
        console_cmd_is(line_of(seq![seq![52u8], a, p, n]), r),
    ensures
        r matches ConsoleCmd::Register(x, y, z) && x@ == trimmed(a) && y@ == trimmed(p) && z@ == trimmed(n),
{
    lemma_words_of_line(seq![seq![52u8], a, p, n]);
    lemma_cmd_word(52);
}

/// An upload line, `1`, the path and the name, uploads the file at that path under
/// that name, white space trimmed from the name.
pub proof fn lemma_upload_line(path: Seq<u8>, name: Seq<u8>, r: ConsoleCmd)
    requires
        no_space(path),
        no_space(name),
        console_cmd_is(line_of(seq![seq![49u8], path, name]), r),
    ensures
        r matches ConsoleCmd::Upload(x, y) && x@ == path && y@ == trimmed(name),
{
    lemma_words_of_line(seq![seq![49u8], path, name]);
    lemma_cmd_word(49);
}

/// A send line, `0` and a word, queues that word under ext 0; a broadcast line, `7`
/// and a word, queues the word, white space trimmed, as a broadcast.
pub proof fn lemma_send_lines(d: Seq<u8>, r0: ConsoleCmd, r7: ConsoleCmd)
    requires
        no_space(d),
        console_cmd_is(line_of(seq![seq![48u8], d]), r0),
        console_cmd_is(line_of(seq![seq![55u8], d]), r7),
    ensures
        r0 matches ConsoleCmd::Send(x, e) && x@ == d && e == 0,
        r7 matches ConsoleCmd::Send(x, e) && x@ == trimmed(d) && e == EXT_SEND_BROADCAST,
{
    lemma_words_of_line(seq![seq![48u8], d]);
    lemma_words_of_line(seq![seq![55u8], d]);
    lemma_cmd_word(48);
    lemma_cmd_word(55);
}

/// The lines `3` and `5` alone log out and ask for the user list, with empty bodies.
pub proof fn lemma_plain_lines(r3: ConsoleCmd, r5: ConsoleCmd)
    requires
        console_cmd_is(seq![51u8], r3),
        console_cmd_is(seq![53u8], r5),
    ensures
        r3 matches ConsoleCmd::Send(x, e) && x@.len() == 0 && e == EXT_LOGOUT,
        r5 matches ConsoleCmd::Send(x, e) && x@.len() == 0 && e == EXT_GET_USERS,
{
    lemma_words_of_line(seq![seq![51u8]]);
    lemma_words_of_line(seq![seq![53u8]]);
    lemma_cmd_word(51);
    lemma_cmd_word(53);
}

/// A message line, `6`, a link id written in decimal and a message, sends that
/// message, white space trimmed, to that link; a run line, `8` and a link id, runs
/// commands on that link.
pub proof fn lemma_link_lines(lid: Seq<u8>, m: Seq<u8>, r6: ConsoleCmd, r8: ConsoleCmd)
    requires
        lid.len() > 0,
        all_digits(lid),
        dec_val(lid) <= usize::MAX,
        no_space(m),
        console_cmd_is(line_of(seq![seq![54u8], lid, m]), r6),
        console_cmd_is(line_of(seq![seq![56u8], lid]), r8),
    ensures
        r6 matches ConsoleCmd::SendMsg(x, y) && x == dec_val(lid) && y@ == trimmed(m),
        r8 matches ConsoleCmd::RunCmds(x) && x == dec_val(lid),
{
    assert(no_space(lid));
    lemma_words_of_line(seq![seq![54u8], lid, m]);
    lemma_words_of_line(seq![seq![56u8], lid]);
    lemma_cmd_word(54);
    lemma_cmd_word(56);
    assert(trimmed(lid) =~= lid) by {
        assert(ws_at(lid, 0) == 0);
        assert(ws_before(lid, lid.len() as int) == 0);
    }
}


/// A text that neither starts nor ends with white space is its own trimmed form.
proof fn lemma_trimmed_plain(s: Seq<u8>)
    requires
        ws_at(s, 0) == 0,
        ws_before(s, s.len() as int) == 0,
    ensures
        trimmed(s) =~= s,
{
}

/// Menu lines: `-` leaves; `9` and a link id written in decimal requests a link to
/// that client; `p` and a link id opens the link to that client.
pub proof fn lemma_menu_lines(lid: Seq<u8>, rm: MainCommand, r9: MainCommand, rp: MainCommand)
    requires
        lid.len() > 0,
        all_digits(lid),
        dec_val(lid) <= usize::MAX,
        main_cmd_is(seq![45u8], rm),
        main_cmd_is(line_of(seq![seq![57u8], lid]), r9),
        main_cmd_is(line_of(seq![seq![112u8], lid]), rp),
    ensures
        rm is Leave,
        r9 matches MainCommand::ReqLink(x) && x == dec_val(lid),
        rp matches MainCommand::OpenLink(x) && x == dec_val(lid),
{
    assert(no_space(lid));
    lemma_words_of_line(seq![seq![45u8]]);
    lemma_words_of_line(seq![seq![57u8], lid]);
    lemma_words_of_line(seq![seq![112u8], lid]);
    lemma_cmd_word(45);
    lemma_cmd_word(57);
    lemma_cmd_word(112);
    lemma_trimmed_plain(lid);
}

/// Lines while running commands on another client: `#1`, a path and a name sends the
/// file at that path under that name, white space trimmed from the name; `quit`
/// leaves; a line that neither starts with `#` or white space nor ends with white
/// space, and is not `quit`, is run there as it is.
pub proof fn lemma_sub_lines(path: Seq<u8>, name: Seq<u8>, l: Seq<u8>, r1: SubCmd, rq: SubCmd, rr: SubCmd)
    requires
        no_space(path),
        no_space(name),
        ({
            let line = seq![35u8] + line_of(seq![seq![49u8], path, name]);
            ws_before(line, line.len() as int) == 0 && sub_cmd_is(line, r1)
        }),
        sub_cmd_is(seq![113u8, 117u8, 105u8, 116u8], rq),
        l.len() > 0,
        l[0] != 35,
        ws_at(l, 0) == 0,
        ws_before(l, l.len() as int) == 0,
        l != seq![113u8, 117u8, 105u8, 116u8],
        sub_cmd_is(l, rr),
    ensures
        r1 matches SubCmd::SendFile(p, m) && p@ == path && m@ == trimmed(name),
        rq is Quit,
        rr matches SubCmd::RunCmd(m) && m@ == l,
{
    let line = seq![35u8] + line_of(seq![seq![49u8], path, name]);
    assert(ws_at(line, 0) == 0);
    lemma_trimmed_plain(line);
    assert(line.drop_first() =~= line_of(seq![seq![49u8], path, name]));
    lemma_words_of_line(seq![seq![49u8], path, name]);
    lemma_trimmed_plain(seq![49u8]);
    let q = seq![113u8, 117u8, 105u8, 116u8];
    lemma_trimmed_plain(q);
    lemma_trimmed_plain(l);
}

/// The ext of a file chunk tells what the chunk does: the empty chunk that ends a
/// file closes it, a first chunk with bytes creates the file, and later chunks with
/// bytes add to it; an upload and a send to another client use different exts, and no
/// ext serves two of these.
pub proof fn lemma_chunk_exts(first: bool, n: usize)
    ensures
        n == 0 ==> spec_chunk_ext(FileDir::Upload, first, n) == EXT_UPLOAD_FILE_ELF && spec_chunk_ext(
            FileDir::Send,
            first,
            n,
        ) == EXT_SEND_FILE_ELF,
        n > 0 && first ==> spec_chunk_ext(FileDir::Upload, first, n) == EXT_UPLOAD_FILE_CREATE && spec_chunk_ext(
            FileDir::Send,
            first,
            n,
        ) == EXT_SEND_FILE_CREATE,
        n > 0 && !first ==> spec_chunk_ext(FileDir::Upload, first, n) == EXT_UPLOAD_FILE && spec_chunk_ext(
            FileDir::Send,
            first,
            n,
        ) == EXT_SEND_FILE,
        spec_chunk_ext(FileDir::Upload, first, n) != spec_chunk_ext(FileDir::Send, first, n),
        seq![EXT_UPLOAD_FILE, EXT_UPLOAD_FILE_CREATE, EXT_UPLOAD_FILE_ELF, EXT_SEND_FILE, EXT_SEND_FILE_CREATE,
            EXT_SEND_FILE_ELF].no_duplicates(),
{
    let s = seq![EXT_UPLOAD_FILE, EXT_UPLOAD_FILE_CREATE, EXT_UPLOAD_FILE_ELF, EXT_SEND_FILE, EXT_SEND_FILE_CREATE,
        EXT_SEND_FILE_ELF];
    assert forall|i: int, j: int| 0 <= i < s.len() && 0 <= j < s.len() && i != j implies s[i] != s[j] by {}
}

/// File fetch lines while running commands on another client: `#2` and a far path
/// fetches that file to where the far path says, and `#2`, a far path and a near path
/// fetches it to the near path, white space trimmed from both.
pub proof fn lemma_pull_lines(far: Seq<u8>, near: Seq<u8>, r1: SubCmd, r2: SubCmd)
    requires
        no_space(far),
        no_space(near),
        ({
            let line = seq![35u8] + line_of(seq![seq![50u8], far]);
            ws_before(line, line.len() as int) == 0 && sub_cmd_is(line, r1)
        }),
        ({
            let line = seq![35u8] + line_of(seq![seq![50u8], far, near]);
            ws_before(line, line.len() as int) == 0 && sub_cmd_is(line, r2)
        }),
    ensures
        r1 matches SubCmd::PullFile(f, o) && f@ == trimmed(far) && o is None,
        r2 matches SubCmd::PullFile(f, o) && f@ == trimmed(far) && (o matches Some(x) && x@ == trimmed(near)),
{
    let l1 = seq![35u8] + line_of(seq![seq![50u8], far]);
    let l2 = seq![35u8] + line_of(seq![seq![50u8], far, near]);
    assert(ws_at(l1, 0) == 0);
    assert(ws_at(l2, 0) == 0);
    lemma_trimmed_plain(l1);
    lemma_trimmed_plain(l2);
    assert(l1.drop_first() =~= line_of(seq![seq![50u8], far]));
    assert(l2.drop_first() =~= line_of(seq![seq![50u8], far, near]));
    lemma_words_of_line(seq![seq![50u8], far]);
    lemma_words_of_line(seq![seq![50u8], far, near]);
    lemma_trimmed_plain(seq![50u8]);
    lemma_cmd_word(50);
}

} // verus!
