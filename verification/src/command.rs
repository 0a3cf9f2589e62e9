//! The command line of the terminal client: `NAME MESSAGE`, a recipient made
//! of ASCII letters and digits, at least one whitespace character, and the
//! message, which is the rest of the line.
use vstd::prelude::*;

verus! {

/// An ASCII letter or digit.
pub open spec fn is_alnum(c: char) -> bool {
    ('0' <= c && c <= '9') || ('a' <= c && c <= 'z') || ('A' <= c && c <= 'Z')
}

/// A space, tab, carriage return or line feed.
pub open spec fn is_multispace(c: char) -> bool {
    c == ' ' || c == '\t' || c == '\r' || c == '\n'
}

/// The end of the run of letters and digits that starts at `i`.
pub open spec fn alnum_end(s: Seq<char>, i: int) -> int
    decreases s.len() - i,
{
    if i < 0 || i >= s.len() || !is_alnum(s[i]) {
        i
    } else {
        alnum_end(s, i + 1)
    }
}

/// The end of the run of whitespace that starts at `i`.
pub open spec fn space_end(s: Seq<char>, i: int) -> int
    decreases s.len() - i,
{
    if i < 0 || i >= s.len() || !is_multispace(s[i]) {
        i
    } else {
        space_end(s, i + 1)
    }
}

/// A message to send: the recipient and the text.
#[derive(Debug, Clone)]
pub struct Command {
    pub to: String,
    pub msg: String,
}

/// What a command line lacks.
#[derive(Debug, PartialEq, Eq, Structural, Clone, Copy)]
pub enum CommandError {
    /// It does not start with a letter or digit.
    AlphaNumeric,
    /// The name is not followed by whitespace.
    MultiSpace,
}

/// The outcome of reading `s` as a command line: the name and the message,
/// or what is missing.
pub open spec fn command_of(s: Seq<char>) -> Result<(Seq<char>, Seq<char>), CommandError> {
    let k = alnum_end(s, 0);
    let w = space_end(s, k);
    if k == 0 {
        Err(CommandError::AlphaNumeric)
    } else if w == k {
        Err(CommandError::MultiSpace)
    } else {
        Ok((s.subrange(0, k), s.subrange(w, s.len() as int)))
    }
}

/// The run of letters and digits from `i` ends at `k` when every character
/// before `k` is one and the one at `k` (if any) is not.
proof fn lemma_alnum_end_at(s: Seq<char>, i: int, k: int)
    requires
        0 <= i <= k <= s.len(),
        forall|j: int| i <= j < k ==> is_alnum(#[trigger] s[j]),
        k == s.len() || !is_alnum(s[k]),
    ensures
        alnum_end(s, i) == k,
    decreases k - i,
{
    if i < k {
        lemma_alnum_end_at(s, i + 1, k);
    }
}

/// The run of whitespace from `i` ends at `k` when every character before `k`
/// is whitespace and the one at `k` (if any) is not.
proof fn lemma_space_end_at(s: Seq<char>, i: int, k: int)
    requires
        0 <= i <= k <= s.len(),
        forall|j: int| i <= j < k ==> is_multispace(#[trigger] s[j]),
        k == s.len() || !is_multispace(s[k]),
    ensures
        space_end(s, i) == k,
    decreases k - i,
{
    if i < k {
        lemma_space_end_at(s, i + 1, k);
    }
}

/// A line made of a name of ASCII letters (upper or lower case) and digits,
/// one space and a message that does not start with whitespace reads as that
/// name and that message.
pub proof fn lemma_command_reads_name_and_message(name: Seq<char>, msg: Seq<char>)
    requires
        name.len() > 0,
        forall|i: int|
            0 <= i < name.len() ==> ('0' <= #[trigger] name[i] && name[i] <= '9') || ('a' <= name[i] && name[i] <= 'z') || (
            'A' <= name[i] && name[i] <= 'Z'),
        msg.len() == 0 || !(msg[0] == ' ' || msg[0] == '\t' || msg[0] == '\r' || msg[0] == '\n'),
    ensures
        command_of(name + seq![' '] + msg) == Ok::<(Seq<char>, Seq<char>), CommandError>((name, msg)),
{
    let s = name + seq![' '] + msg;
    let k = name.len() as int;
    assert forall|j: int| 0 <= j < k implies is_alnum(#[trigger] s[j]) by {
        assert(s[j] == name[j]);
    }
    assert(s[k] == ' ');
    lemma_alnum_end_at(s, 0, k);
    assert forall|j: int| k <= j < k + 1 implies is_multispace(#[trigger] s[j]) by {}
    if msg.len() > 0 {
        assert(s[k + 1] == msg[0]);
    }
    lemma_space_end_at(s, k, k + 1);
    assert(s.subrange(0, k) =~= name);
    assert(s.subrange(k + 1, s.len() as int) =~= msg);
}

/// A line that does not start with an ASCII letter or digit is refused as
/// lacking a name.
pub proof fn lemma_command_needs_a_name(s: Seq<char>)
    requires
        s.len() == 0 || !(('0' <= s[0] && s[0] <= '9') || ('a' <= s[0] && s[0] <= 'z') || ('A' <= s[0] && s[0] <= 'Z')),
    ensures
        command_of(s) == Err::<(Seq<char>, Seq<char>), CommandError>(CommandError::AlphaNumeric),
{
}

/// Whether `c` is an ASCII letter or digit.
fn alnum(c: char) -> (res: bool)
    ensures
        res == is_alnum(c),
{
    ('0' <= c && c <= '9') || ('a' <= c && c <= 'z') || ('A' <= c && c <= 'Z')
}

/// Whether `c` is a space, tab, carriage return or line feed.
fn multispace(c: char) -> (res: bool)
    ensures
        res == is_multispace(c),
{
    c == ' ' || c == '\t' || c == '\r' || c == '\n'
}

/// Reads a command line.
pub fn parse_command(input: &str) -> (res: Result<Command, CommandError>)
    ensures
        match command_of(input@) {
            Ok((to, msg)) => res matches Ok(c) && c.to@ == to && c.msg@ == msg,
            Err(e) => res == Err::<Command, CommandError>(e),
        },
{
    let n = input.unicode_len();
    let mut k: usize = 0;
    while k < n && alnum(input.get_char(k))
        invariant
            n == input@.len(),
            k <= n,
            alnum_end(input@, 0) == alnum_end(input@, k as int),
        decreases n - k,
    {
        k = k + 1;
    }
    if k == 0 {
        return Err(CommandError::AlphaNumeric);
    }
    let mut w: usize = k;
    while w < n && multispace(input.get_char(w))
        invariant
            n == input@.len(),
            k <= w <= n,
            k == alnum_end(input@, 0),
            space_end(input@, k as int) == space_end(input@, w as int),
        decreases n - w,
    {
        w = w + 1;
    }
    if w == k {
        return Err(CommandError::MultiSpace);
    }
    let to = input.substring_char(0, k).to_owned();
    let msg = input.substring_char(w, n).to_owned();
    Ok(Command { to, msg })
}

/// A command of the interactive client: register a name, send a message, or
/// fetch the waiting messages.
#[derive(Debug, Clone)]
pub enum CliCommand {
    Register(String),
    Message(String, String),
    GetMessages,
}

/// `s` begins with `p`.
pub open spec fn starts_with(s: Seq<char>, p: Seq<char>) -> bool {
    p.len() <= s.len() && s.subrange(0, p.len() as int) == p
}

/// `register`, whitespace, a name: the name (what follows it is ignored).
pub open spec fn cli_register(s: Seq<char>) -> Option<Seq<char>> {
    if !starts_with(s, "register"@) {
        None
    } else {
        let w = space_end(s, 8);
        let k = alnum_end(s, w);
        if w == 8 || k == w {
            None
        } else {
            Some(s.subrange(w, k))
        }
    }
}

/// `message`, whitespace, a name, whitespace, the message (the rest of the line).
pub open spec fn cli_message(s: Seq<char>) -> Option<(Seq<char>, Seq<char>)> {
    if !starts_with(s, "message"@) {
        None
    } else {
        let w1 = space_end(s, 7);
        let k = alnum_end(s, w1);
        let w2 = space_end(s, k);
        if w1 == 7 || k == w1 || w2 == k {
            None
        } else {
            Some((s.subrange(w1, k), s.subrange(w2, s.len() as int)))
        }
    }
}

/// What an interactive command line asks for: the first of the three forms
/// that matches, in the order register, message, get_messages.
pub open spec fn cli_command_of(s: Seq<char>) -> Option<CliCommandView> {
    match cli_register(s) {
        Some(n) => Some(CliCommandView::Register(n)),
        None => match cli_message(s) {
            Some((n, m)) => Some(CliCommandView::Message(n, m)),
            None => if starts_with(s, "get_messages"@) {
                Some(CliCommandView::GetMessages)
            } else {
                None
            },
        },
    }
}

/// An interactive command by value.
pub enum CliCommandView {
    Register(Seq<char>),
    Message(Seq<char>, Seq<char>),
    GetMessages,
}

/// The value of an interactive command.
pub open spec fn cli_view(c: CliCommand) -> CliCommandView {
    match c {
        CliCommand::Register(n) => CliCommandView::Register(n@),
        CliCommand::Message(n, m) => CliCommandView::Message(n@, m@),
        CliCommand::GetMessages => CliCommandView::GetMessages,
    }
}

/// Whether `s` begins with `p`.
fn has_prefix(s: &str, p: &str) -> (res: bool)
    ensures
        res == starts_with(s@, p@),
{
    let n = s.unicode_len();
    let m = p.unicode_len();
    if m > n {
        return false;
    }
    let mut i: usize = 0;
    while i < m
        invariant
            n == s@.len(),
            m == p@.len(),
            m <= n,
            i <= m,
            forall|j: int| 0 <= j < i ==> s@[j] == p@[j],
        decreases m - i,
    {
        if s.get_char(i) != p.get_char(i) {
            assert(s@.subrange(0, m as int)[i as int] != p@[i as int]);
            return false;
        }
        i = i + 1;
    }
    assert(s@.subrange(0, m as int) =~= p@);
    true
}

/// The end of the run of letters and digits of `s` from `from`.
fn alnum_run(s: &str, n: usize, from: usize) -> (res: usize)
    requires
        n == s@.len(),
        from <= n,
    ensures
        res == alnum_end(s@, from as int),
        from <= res <= n,
{
    let mut k = from;
    while k < n && alnum(s.get_char(k))
        invariant
            n == s@.len(),
            from <= k <= n,
            alnum_end(s@, from as int) == alnum_end(s@, k as int),
        decreases n - k,
    {
        k = k + 1;
    }
    k
}

/// The end of the run of whitespace of `s` from `from`.
fn space_run(s: &str, n: usize, from: usize) -> (res: usize)
    requires
        n == s@.len(),
        from <= n,
    ensures
        res == space_end(s@, from as int),
        from <= res <= n,
{
    let mut k = from;
    while k < n && multispace(s.get_char(k))
        invariant
            n == s@.len(),
            from <= k <= n,
            space_end(s@, from as int) == space_end(s@, k as int),
        decreases n - k,
    {
        k = k + 1;
    }
    k
}

/// Reads an interactive command line.
pub fn parse_cli_command(input: &str) -> (res: Option<CliCommand>)
    ensures
        match cli_command_of(input@) {
            Some(v) => res matches Some(c) && cli_view(c) == v,
            None => res is None,
        },
{
    let n = input.unicode_len();
    proof {
        reveal_strlit("register");
        reveal_strlit("message");
    }
    if has_prefix(input, "register") {
        let w = space_run(input, n, 8);
        let k = alnum_run(input, n, w);
        if w != 8 && k != w {
            let name = input.substring_char(w, k).to_owned();
            return Some(CliCommand::Register(name));
        }
    }
    if has_prefix(input, "message") {
        let w1 = space_run(input, n, 7);
        let k = alnum_run(input, n, w1);
        let w2 = space_run(input, n, k);
        if w1 != 7 && k != w1 && w2 != k {
            let name = input.substring_char(w1, k).to_owned();
            let message = input.substring_char(w2, n).to_owned();
            return Some(CliCommand::Message(name, message));
        }
    }
    if has_prefix(input, "get_messages") {
        return Some(CliCommand::GetMessages);
    }
    None
}

} // verus!
