//! One client session on the intercepted dnsproxyd socket: read the
//! NUL-terminated command line, route it to its handler by the command
//! name, and frame what goes on to netd.
use vstd::prelude::*;

use crate::dns::wire::utf8_to_string;
use crate::handlers::getaddrinfo::{getaddrinfo_action, GetAddrInfoHandler};
use crate::handlers::gethostbyname::{gethostbyname_action, GetHostByNameHandler};
use crate::handlers::resnsend::{resnsend_action, ResNsendHandler};
use crate::handlers::{ActionView, HandlerAction};
use crate::rules::RuleSet;
use crate::split::{first_token, split_whitespace};
use crate::sys::SysCodes;
use crate::text::{str_eq, str_to_lowercase, unicode_lowercase};
use vstd::string::StringSliceAdditionalSpecFns;
use vstd::utf8::{decode_utf8, valid_utf8};

verus! {

/// Maximum length of a dnsproxyd command line, including the NUL
/// terminator.  Bounds the memory a client that never sends a NUL can take.
pub const MAX_CMD_LINE: usize = 8192;

// ---------------------------------------------------------------------------
// Reading the command line
// ---------------------------------------------------------------------------

/// First index `>= i` holding a zero byte, or `s.len()`.
pub open spec fn nul_index_from(s: Seq<u8>, i: int) -> int
    decreases s.len() - i,
{
    if i < 0 || i >= s.len() {
        s.len() as int
    } else if s[i] == 0 {
        i
    } else {
        nul_index_from(s, i + 1)
    }
}

/// The command line a client stream carries: the bytes before the first
/// NUL (or before the end of the stream), refused (`None`) when the limit is
/// reached before either.
pub open spec fn cmd_line_of(stream: Seq<u8>) -> Option<Seq<u8>> {
    let z = nul_index_from(stream, 0);
    if z >= MAX_CMD_LINE {
        None
    } else {
        Some(stream.take(z))
    }
}

/// One read's effect on the bytes gathered so far: `(finished, bytes)`.
/// `None` is the end of the stream.
pub open spec fn reader_step(raw: Seq<u8>, byte: Option<u8>) -> (bool, Seq<u8>) {
    match byte {
        None => (true, raw),
        Some(b) => if b == 0 {
            (true, raw)
        } else {
            (false, raw.push(b))
        },
    }
}

/// The read loop driven over a stream from the gathered bytes `raw`: before
/// every read the limit is checked, then one byte (or the end) is fed.
pub open spec fn drive_reader(stream: Seq<u8>, raw: Seq<u8>) -> Option<Seq<u8>>
    decreases MAX_CMD_LINE - raw.len(),
{
    if raw.len() >= MAX_CMD_LINE {
        None
    } else {
        let ev = if raw.len() < stream.len() {
            Some(stream[raw.len() as int])
        } else {
            None
        };
        let (done, next) = reader_step(raw, ev);
        if done {
            Some(next)
        } else {
            drive_reader(stream, next)
        }
    }
}

/// The command line is too long.
#[derive(Debug, Clone, Copy, PartialEq, Eq, Structural)]
pub enum CmdLineError {
    TooLong,
}

impl CmdLineError {
    /// The error's message.
    pub fn message(&self) -> (s: String)
        ensures
            s@ == "command line too long (max 8192 bytes)"@,
    {
        String::from_str("command line too long (max 8192 bytes)")
    }
}

/// Gathers a command line one read at a time.
pub struct CmdLineReader {
    raw: Vec<u8>,
}

impl View for CmdLineReader {
    type V = Seq<u8>;

    closed spec fn view(&self) -> Seq<u8> {
        self.raw@
    }
}

impl CmdLineReader {
    pub fn new() -> (r: Self)
        ensures
            r@ == Seq::<u8>::empty(),
    {
        CmdLineReader { raw: Vec::new() }
    }

    /// Checked before every read: `Err` once the limit is reached.
    pub fn ready(&self) -> (r: Result<(), CmdLineError>)
        ensures
            r is Err <==> self@.len() >= MAX_CMD_LINE,
    {
        if self.raw.len() >= MAX_CMD_LINE {
            Err(CmdLineError::TooLong)
        } else {
            Ok(())
        }
    }

    /// Feed the outcome of one read (`None` for the end of the stream);
    /// `true` when the command line is complete.
    pub fn feed(&mut self, byte: Option<u8>) -> (done: bool)
        requires
            old(self)@.len() < MAX_CMD_LINE,
        ensures
            (done, final(self)@) == reader_step(old(self)@, byte),
    {
        match byte {
            None => true,
            Some(b) => {
                if b == 0 {
                    true
                } else {
                    self.raw.push(b);
                    false
                }
            },
        }
    }

    /// The bytes gathered.
    pub fn into_line(self) -> (v: Vec<u8>)
        ensures
            v@ == self@,
    {
        self.raw
    }
}

proof fn lemma_nul_index_bounds(s: Seq<u8>, i: int)
    requires
        0 <= i <= s.len(),
    ensures
        i <= nul_index_from(s, i) <= s.len(),
        nul_index_from(s, i) < s.len() ==> s[nul_index_from(s, i)] == 0,
        forall|k: int| i <= k < nul_index_from(s, i) ==> #[trigger] s[k] != 0,
    decreases s.len() - i,
{
    if i < s.len() && s[i] != 0 {
        lemma_nul_index_bounds(s, i + 1);
    }
}

proof fn lemma_drive_from(stream: Seq<u8>, k: int)
    requires
        0 <= k <= nul_index_from(stream, 0),
        k <= MAX_CMD_LINE,
    ensures
        drive_reader(stream, stream.take(k)) == cmd_line_of(stream),
    decreases MAX_CMD_LINE - k,
{
    lemma_nul_index_bounds(stream, 0);
    let z = nul_index_from(stream, 0);
    if k < MAX_CMD_LINE {
        if k < z {
            assert(stream[k] != 0);
            assert(stream.take(k).push(stream[k]) =~= stream.take(k + 1));
            lemma_drive_from(stream, k + 1);
        }
    }
}

/// Reading a command line a byte at a time with `CmdLineReader` gives the
/// bytes before the first NUL (or the end of the stream), and refuses a
/// stream that reaches the limit first.
pub proof fn law_reader_reads_command_line(stream: Seq<u8>)
    ensures
        drive_reader(stream, Seq::empty()) == cmd_line_of(stream),
{
    assert(stream.take(0) =~= Seq::<u8>::empty());
    lemma_nul_index_bounds(stream, 0);
    lemma_drive_from(stream, 0);
}

/// Read a NUL-terminated command line from the bytes a client sent,
/// enforcing `MAX_CMD_LINE`.  The NUL is not part of the result.
pub fn read_cmd_line(stream: &[u8]) -> (r: Result<Vec<u8>, CmdLineError>)
    ensures
        match cmd_line_of(stream@) {
            Some(line) => r matches Ok(v) && v@ == line,
            None => r is Err,
        },
{
    let mut reader = CmdLineReader::new();
    let mut pos: usize = 0;
    proof {
        law_reader_reads_command_line(stream@);
    }
    loop
        invariant
            pos == reader@.len(),
            reader@.len() <= MAX_CMD_LINE,
            drive_reader(stream@, reader@) == cmd_line_of(stream@),
        decreases MAX_CMD_LINE - pos,
    {
        if reader.ready().is_err() {
            return Err(CmdLineError::TooLong);
        }
        let byte = if pos < stream.len() {
            Some(stream[pos])
        } else {
            None
        };
        let ghost before = reader@;
        if reader.feed(byte) {
            return Ok(reader.into_line());
        }
        pos += 1;
        assert(reader@ == before.push(byte.unwrap()));
    }
}

// ---------------------------------------------------------------------------
// Routing
// ---------------------------------------------------------------------------

/// The commands that have a handler; every other command goes to netd as is.
#[derive(Debug, Clone, Copy, PartialEq, Eq, Structural)]
pub enum Command {
    GetAddrInfo,
    ResNsend,
    GetHostByName,
}

/// The handler registered under a (lowercase) command name.
pub open spec fn command_named(name: Seq<char>) -> Option<Command> {
    if name == "getaddrinfo"@ {
        Some(Command::GetAddrInfo)
    } else if name == "resnsend"@ {
        Some(Command::ResNsend)
    } else if name == "gethostbyname"@ {
        Some(Command::GetHostByName)
    } else {
        None
    }
}

/// The command a line names: its first whitespace-separated token,
/// lowercased.
pub open spec fn command_of(cmd: Seq<char>) -> Option<Command> {
    command_named(unicode_lowercase(first_token(cmd)))
}

/// What a session does with a command line.
pub open spec fn session_action(cmd: Seq<char>, rules: RuleSet, codes: SysCodes) -> ActionView {
    match command_of(cmd) {
        Some(Command::GetAddrInfo) => getaddrinfo_action(cmd, rules, codes),
        Some(Command::ResNsend) => resnsend_action(cmd, rules, codes),
        Some(Command::GetHostByName) => crate::handlers::gethostbyname::gethostbyname_action(
            cmd,
            rules,
            codes,
        ),
        None => ActionView::Proxy,
    }
}

/// The handler registry: the command registered under `name`.
pub fn lookup_command(name: &str) -> (r: Option<Command>)
    ensures
        r == command_named(name@),
{
    if str_eq(name, "getaddrinfo") {
        Some(Command::GetAddrInfo)
    } else if str_eq(name, "resnsend") {
        Some(Command::ResNsend)
    } else if str_eq(name, "gethostbyname") {
        Some(Command::GetHostByName)
    } else {
        None
    }
}

/// Route a command line to its handler and return the handler's decision;
/// commands without a handler are passed through.
pub fn handle_command(cmd: &str, rules: &RuleSet, codes: &SysCodes) -> (r: HandlerAction)
    ensures
        r@ == session_action(cmd@, *rules, *codes),
{
    let tokens = split_whitespace(cmd);
    proof {
        reveal_strlit("");
        assert(tokens@.len() > 0 ==> crate::text::string_views(tokens@)[0] == tokens@[0]@);
    }
    let first: &str = if tokens.len() > 0 {
        tokens[0].as_str()
    } else {
        ""
    };
    assert(first@ == first_token(cmd@));
    let name = str_to_lowercase(first);
    match lookup_command(name.as_str()) {
        Some(Command::GetAddrInfo) => GetAddrInfoHandler.handle(cmd, rules, codes),
        Some(Command::ResNsend) => ResNsendHandler.handle(cmd, rules, codes),
        Some(Command::GetHostByName) => GetHostByNameHandler.handle(cmd, rules, codes),
        None => HandlerAction::Proxy,
    }
}

/// Why a session ended without a decision.
#[derive(Debug, Clone, Copy, PartialEq, Eq, Structural)]
pub enum SessionError {
    /// The command line is not UTF-8.
    InvalidUtf8,
}

/// Decode a raw command line and route it: the command text (which is what
/// goes on to netd when the command is passed through) and the decision.
pub fn handle_request(raw: &[u8], rules: &RuleSet, codes: &SysCodes) -> (r: Result<
    (String, HandlerAction),
    SessionError,
>)
    ensures
        match r {
            Ok((cmd, a)) => valid_utf8(raw@) && cmd@ == decode_utf8(raw@) && a@ == session_action(
                cmd@,
                *rules,
                *codes,
            ),
            Err(e) => !valid_utf8(raw@) && e == SessionError::InvalidUtf8,
        },
{
    match utf8_to_string(raw) {
        Some(cmd) => {
            let a = handle_command(cmd.as_str(), rules, codes);
            Ok((cmd, a))
        },
        None => Err(SessionError::InvalidUtf8),
    }
}

// ---------------------------------------------------------------------------
// Framing towards netd
// ---------------------------------------------------------------------------

/// Writing a command to netd: its UTF-8 bytes and a NUL terminator.
pub trait ProtoWrite {
    /// The bytes written so far.
    spec fn written(&self) -> Seq<u8>;

    fn write_cmd(&mut self, s: &str)
        ensures
            final(self).written() == old(self).written() + s.spec_bytes() + seq![0u8],
    ;
}

impl ProtoWrite for Vec<u8> {
    open spec fn written(&self) -> Seq<u8> {
        self@
    }

    fn write_cmd(&mut self, s: &str) {
        let b = s.as_bytes();
        let ghost start = self@;
        let mut i: usize = 0;
        while i < b.len()
            invariant
                i <= b@.len(),
                b@ == s.spec_bytes(),
                self@ == start + b@.take(i as int),
            decreases b@.len() - i,
        {
            self.push(b[i]);
            i += 1;
            assert(self@ =~= start + b@.take(i as int));
        }
        self.push(0u8);
        assert(b@.take(b@.len() as int) =~= b@);
        assert(self@ =~= start + s.spec_bytes() + seq![0u8]);
    }
}

} // verus!
