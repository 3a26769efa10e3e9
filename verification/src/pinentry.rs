//! The session: one connection's protocol state, its command handlers and the
//! replies they write.
//!
//! A session never touches the transport. It appends its replies to a sink of
//! its own, from which the hosting loop takes them after each request.

use crate::command::{
    argument, keyword, lemma_recognize_ignores_case, recognize, spells, Command, Request,
};
use crate::text::{
    ascii_lower, decimal, eq_ignore_ascii_case, is_line_break, lemma_strip_keeps_one_line,
    push_decimal, push_stripped, same_ignoring_case, strip_line_breaks,
};
use vstd::prelude::*;
use vstd::string::*;

verus! {

/// The flavor that `GETINFO flavor` reports.
pub const FLAVOR: &'static str = "op";

/// The placeholder that `GETINFO ttyinfo` reports.
pub const TTYINFO: &'static str = "- - - - 0/0 -";

/// The option by which the peer allows the secret to be cached outside.
pub const ALLOW_EXTERNAL_CACHE: &'static str = "allow-external-password-cache";

/// The banner that opens a connection.
pub const READY: &'static str = "OK pinentry-op ready\n";

/// The plain acknowledgement.
pub const OK: &'static str = "OK\n";

/// The reply to `BYE`.
pub const CLOSING: &'static str = "OK closing connection\n";

/// The status line that precedes a secret which the peer may cache.
pub const FROM_CACHE: &'static str = "S PASSWORD_FROM_CACHE\n";

/// The reply to `HELP`.
pub const HELP: &'static str =
    "# BYE\n# GETINFO { flavor | version | pid | ttyinfo }\n# GETPIN\n# HELP\n# OPTION <name> [ [=] <value> ]\n# RESET\nOK\n";

/// The one protocol error that stands for every failure of the secret
/// provider: the peer is told that no secret is coming.
pub const NO_SECRET: &'static str = "ERR 83886179 Operation cancelled\n";

/// Why the secret provider gave no secret.
#[derive(Clone, Copy, Debug, PartialEq, Eq, Structural)]
pub enum SecretError {
    /// The provider could not be invoked.
    Unavailable,
    /// The provider ran and reported a failure.
    Failed,
    /// The provider ran and produced no data.
    Empty,
    /// The provider's output was not valid text.
    InvalidEncoding,
}

/// The capability that a session needs of its secret provider: to turn the
/// reference it holds into the secret, or to fail.
pub trait Secret: std::fmt::Debug {
    fn read(&self) -> Result<String, SecretError>;
}

/// What the process reports of itself on `GETINFO`.
#[derive(Debug)]
pub struct ProcessInfo {
    /// The declared version of the build.
    pub version: String,
    /// The identifier of the running process.
    pub pid: u32,
}

/// The mathematical state of a session.
pub struct SessionState {
    /// The version that `GETINFO version` reports.
    pub version: Seq<char>,
    /// The process identifier that `GETINFO pid` reports.
    pub pid: u32,
    /// Whether the peer has allowed the secret to be cached outside.
    pub cache_ok: bool,
    /// The text written to the sink and not yet taken from it.
    pub output: Seq<char>,
}

/// The state `s` with `text` written to the sink.
pub open spec fn emit(s: SessionState, text: Seq<char>) -> SessionState {
    SessionState { output: s.output + text, ..s }
}

/// A data line: the payload on one line, behind `D` and a space.
pub open spec fn data_line(payload: Seq<char>) -> Seq<char> {
    "D "@ + payload + "\n"@
}

/// The payload that `GETINFO` reports for an attribute, if it knows it. The
/// attribute is matched whole, in any casing.
pub open spec fn info(s: SessionState, attribute: Seq<char>) -> Option<Seq<char>> {
    if eq_ignore_ascii_case(attribute, "flavor"@) {
        Some(FLAVOR@)
    } else if eq_ignore_ascii_case(attribute, "version"@) {
        Some(strip_line_breaks(s.version))
    } else if eq_ignore_ascii_case(attribute, "pid"@) {
        Some(decimal(s.pid as nat))
    } else if eq_ignore_ascii_case(attribute, "ttyinfo"@) {
        Some(TTYINFO@)
    } else {
        None
    }
}

/// The reply to `GETINFO`: the data line of a known attribute, then `OK`.
pub open spec fn getinfo_reply(s: SessionState, attribute: Seq<char>) -> Seq<char> {
    match info(s, attribute) {
        Some(payload) => data_line(payload) + OK@,
        None => OK@,
    }
}

/// The reply to a `GETPIN` that got the secret: the cache status where the
/// peer has allowed caching, the secret without its line breaks, then `OK`.
pub open spec fn getpin_reply(cache_ok: bool, secret: Seq<char>) -> Seq<char> {
    if cache_ok {
        FROM_CACHE@ + data_line(strip_line_breaks(secret)) + OK@
    } else {
        data_line(strip_line_breaks(secret)) + OK@
    }
}

/// What a session does with a `GETPIN` for which the provider came back with
/// `secret`: the state after it and the result of the command. A failure of
/// the provider is the failure of the command, and changes nothing.
pub open spec fn respond_getpin(s: SessionState, secret: Result<Seq<char>, SecretError>) -> (
    SessionState,
    Result<bool, SecretError>,
) {
    match secret {
        Ok(pin) => (emit(s, getpin_reply(s.cache_ok, pin)), Ok(true)),
        Err(e) => (s, Err(e)),
    }
}

/// What a session does with one request line: the state after it, and whether
/// the connection stays open or why the command failed. `secret` is what the
/// provider comes back with; only `GETPIN` asks for it.
pub open spec fn respond(s: SessionState, line: Seq<char>, secret: Result<Seq<char>, SecretError>) -> (
    SessionState,
    Result<bool, SecretError>,
) {
    match recognize(line) {
        Command::Bye => (emit(s, CLOSING@), Ok(false)),
        Command::GetInfo => (emit(s, getinfo_reply(s, argument(line))), Ok(true)),
        Command::GetPin => respond_getpin(s, secret),
        Command::Help => (emit(s, HELP@), Ok(true)),
        Command::SetOption => (
            SessionState {
                cache_ok: s.cache_ok || eq_ignore_ascii_case(argument(line), ALLOW_EXTERNAL_CACHE@),
                output: s.output + OK@,
                ..s
            },
            Ok(true),
        ),
        Command::Reset => (SessionState { cache_ok: false, output: s.output + OK@, ..s }, Ok(true)),
        Command::Unknown => (emit(s, OK@), Ok(true)),
    }
}

/// The view of what a provider came back with.
pub open spec fn secret_view(secret: Result<String, SecretError>) -> Result<Seq<char>, SecretError> {
    match secret {
        Ok(pin) => Ok(pin@),
        Err(e) => Err(e),
    }
}

/// What the hosting loop makes of one request line: the state after it and
/// whether the connection stays open. A command that failed is answered with
/// the protocol error, and the connection stays open.
pub open spec fn serve_line(s: SessionState, line: Seq<char>, secret: Result<Seq<char>, SecretError>) -> (
    SessionState,
    bool,
) {
    let (t, r) = respond(s, line, secret);
    match r {
        Ok(open) => (t, open),
        Err(_) => (emit(t, NO_SECRET@), true),
    }
}

/// The state after serving `lines` in turn, up to and including the first one
/// that closes the connection. `secrets[i]` is what the provider comes back
/// with while line `i` is served.
pub open spec fn serve_all(
    s: SessionState,
    lines: Seq<Seq<char>>,
    secrets: Seq<Result<Seq<char>, SecretError>>,
) -> SessionState
    decreases lines.len(),
{
    if lines.len() == 0 {
        s
    } else {
        let (t, open) = serve_line(s, lines[0], secrets[0]);
        if open {
            serve_all(t, lines.skip(1), secrets.skip(1))
        } else {
            t
        }
    }
}

/// The texts of a list of lines.
pub open spec fn texts(lines: Seq<String>) -> Seq<Seq<char>> {
    Seq::new(lines.len(), |i: int| lines[i]@)
}

/// One connection's session.
#[derive(Debug)]
pub struct Session<S: Secret> {
    out: String,
    secret: S,
    info: ProcessInfo,
    cache_ok: bool,
}

impl<S: Secret> View for Session<S> {
    type V = SessionState;

    closed spec fn view(&self) -> SessionState {
        SessionState {
            version: self.info.version@,
            pid: self.info.pid,
            cache_ok: self.cache_ok,
            output: self.out@,
        }
    }
}

impl<S: Secret> Session<S> {
    /// A fresh session: nothing written, caching not allowed.
    pub fn new(secret: S, info: ProcessInfo) -> (r: Self)
        ensures
            r@ == (SessionState {
                version: info.version@,
                pid: info.pid,
                cache_ok: false,
                output: Seq::empty(),
            }),
    {
        Session { out: String::new(), secret, info, cache_ok: false }
    }

    /// Writes the banner that opens the connection.
    pub fn announce(&mut self)
        ensures
            final(self)@ == emit(old(self)@, READY@),
    {
        self.out.append(READY);
    }

    /// Handles one request line: recognizes the command, lets its handler
    /// write the reply and says whether the connection stays open. Only
    /// `GETPIN` can fail, and only as the provider does.
    pub fn handle(&mut self, line: &str) -> (r: Result<bool, SecretError>)
        ensures
            exists|secret: Result<Seq<char>, SecretError>|
                (final(self)@, r) == #[trigger] respond(old(self)@, line@, secret),
    {
        let request = Request::parse(line);
        let r = match request.command {
            Command::Bye => self.handle_bye(),
            Command::GetInfo => self.handle_getinfo(request.argument),
            Command::GetPin => self.handle_getpin(),
            Command::Help => self.handle_help(),
            Command::SetOption => self.handle_option(request.argument),
            Command::Reset => self.handle_reset(),
            Command::Unknown => self.handle_nop(),
        };
        proof {
            let secret = choose|secret: Result<Seq<char>, SecretError>|
                (self@, r) == #[trigger] respond_getpin(old(self)@, secret);
            assert((self@, r) == respond(old(self)@, line@, secret));
        }
        r
    }

    /// Serves one request line as the hosting loop needs it: handles the line
    /// and, where the command failed, answers with the protocol error. Says
    /// whether the connection stays open.
    pub fn serve(&mut self, line: &str) -> (open: bool)
        ensures
            exists|secret: Result<Seq<char>, SecretError>|
                (final(self)@, open) == #[trigger] serve_line(old(self)@, line@, secret),
    {
        let handled = self.handle(line);
        let ghost answered = self@;
        let open = match handled {
            Ok(open) => open,
            Err(_) => {
                self.out.append(NO_SECRET);
                true
            },
        };
        proof {
            let secret = choose|secret: Result<Seq<char>, SecretError>|
                (answered, handled) == #[trigger] respond(old(self)@, line@, secret);
            assert((self@, open) == serve_line(old(self)@, line@, secret));
        }
        open
    }

    /// Runs a whole connection over the request lines in `input`: writes the
    /// banner, then serves line after line until one closes the connection
    /// or the input is exhausted.
    pub fn run(&mut self, input: &Vec<String>)
        ensures
            exists|secrets: Seq<Result<Seq<char>, SecretError>>|
                secrets.len() == input.len() && final(self)@ == #[trigger] serve_all(
                    emit(old(self)@, READY@),
                    texts(input@),
                    secrets,
                ),
    {
        self.announce();
        let ghost start = self@;
        let ghost lines = texts(input@);
        let ghost mut secrets: Seq<Result<Seq<char>, SecretError>> = Seq::empty();
        let mut i: usize = 0;
        proof {
            assert forall|rest: Seq<Result<Seq<char>, SecretError>>|
                #[trigger] serve_all(start, lines, secrets + rest) == serve_all(
                    start,
                    lines.skip(0),
                    rest,
                ) by {
                assert(secrets + rest =~= rest);
                assert(lines.skip(0) =~= lines);
            }
        }
        while i < input.len()
            invariant
                i <= input.len(),
                secrets.len() == i,
                start == emit(old(self)@, READY@),
                lines == texts(input@),
                forall|rest: Seq<Result<Seq<char>, SecretError>>|
                    #[trigger] serve_all(start, lines, secrets + rest) == serve_all(
                        self@,
                        lines.skip(i as int),
                        rest,
                    ),
            decreases input.len() - i,
        {
            let ghost before = self@;
            let ghost served = secrets;
            let open = self.serve(input[i].as_str());
            proof {
                let secret = choose|secret: Result<Seq<char>, SecretError>|
                    (self@, open) == #[trigger] serve_line(before, input[i as int]@, secret);
                secrets = served.push(secret);
                assert forall|rest: Seq<Result<Seq<char>, SecretError>>|
                    #[trigger] serve_all(start, lines, secrets + rest) == (if open {
                        serve_all(self@, lines.skip(i + 1), rest)
                    } else {
                        self@
                    }) by {
                    let tail = seq![secret] + rest;
                    assert(secrets + rest =~= served + tail);
                    assert(serve_all(start, lines, served + tail) == serve_all(
                        before,
                        lines.skip(i as int),
                        tail,
                    ));
                    assert(lines.skip(i as int)[0] == input[i as int]@);
                    assert(tail[0] == secret);
                    assert(tail.skip(1) =~= rest);
                    assert(lines.skip(i as int).skip(1) =~= lines.skip(i + 1));
                }
            }
            if !open {
                proof {
                    let rest = Seq::new(
                        (input.len() - i - 1) as nat,
                        |j: int| Err::<Seq<char>, SecretError>(SecretError::Unavailable),
                    );
                    assert((secrets + rest).len() == input.len());
                    assert(self@ == serve_all(start, lines, secrets + rest));
                }
                return ;
            }
            i = i + 1;
        }
        proof {
            assert(secrets + Seq::empty() =~= secrets);
            assert(self@ == serve_all(start, lines, secrets + Seq::empty()));
        }
    }

    /// Whether the peer has allowed the secret to be cached outside.
    pub fn cache_ok(&self) -> (r: bool)
        ensures
            r == self@.cache_ok,
    {
        self.cache_ok
    }

    /// The text written to the sink and not yet taken from it.
    pub fn output(&self) -> (r: &str)
        ensures
            r@ == self@.output,
    {
        self.out.as_str()
    }

    /// Empties the sink and hands out what was in it, for the transport to
    /// send.
    pub fn take_output(&mut self) -> (r: String)
        ensures
            r@ == old(self)@.output,
            final(self)@ == (SessionState { output: Seq::empty(), ..old(self)@ }),
    {
        let mut taken = String::new();
        std::mem::swap(&mut self.out, &mut taken);
        taken
    }

    /// Completes a `GETPIN` with what the provider came back with.
    pub fn reply_getpin(&mut self, secret: &Result<String, SecretError>) -> (r: Result<
        bool,
        SecretError,
    >)
        ensures
            (final(self)@, r) == respond_getpin(old(self)@, secret_view(*secret)),
    {
        match secret {
            Ok(pin) => {
                if self.cache_ok {
                    self.out.append(FROM_CACHE);
                }
                self.out.append("D ");
                push_stripped(&mut self.out, pin.as_str());
                self.out.append("\n");
                self.out.append(OK);
                assert(self@.output =~= old(self)@.output + getpin_reply(old(self)@.cache_ok, pin@));
                Ok(true)
            },
            Err(e) => Err(*e),
        }
    }

    fn handle_nop(&mut self) -> (r: Result<bool, SecretError>)
        ensures
            final(self)@ == emit(old(self)@, OK@),
            r == Ok::<bool, SecretError>(true),
    {
        self.out.append(OK);
        Ok(true)
    }

    fn handle_help(&mut self) -> (r: Result<bool, SecretError>)
        ensures
            final(self)@ == emit(old(self)@, HELP@),
            r == Ok::<bool, SecretError>(true),
    {
        self.out.append(HELP);
        Ok(true)
    }

    fn handle_getinfo(&mut self, arg: &str) -> (r: Result<bool, SecretError>)
        ensures
            final(self)@ == emit(old(self)@, getinfo_reply(old(self)@, arg@)),
            r == Ok::<bool, SecretError>(true),
    {
        if same_ignoring_case(arg, "flavor") {
            self.out.append("D ");
            self.out.append(FLAVOR);
            self.out.append("\n");
        } else if same_ignoring_case(arg, "version") {
            self.out.append("D ");
            push_stripped(&mut self.out, self.info.version.as_str());
            self.out.append("\n");
        } else if same_ignoring_case(arg, "pid") {
            self.out.append("D ");
            push_decimal(&mut self.out, self.info.pid);
            self.out.append("\n");
        } else if same_ignoring_case(arg, "ttyinfo") {
            self.out.append("D ");
            self.out.append(TTYINFO);
            self.out.append("\n");
        }
        self.out.append(OK);
        assert(self@.output =~= old(self)@.output + getinfo_reply(old(self)@, arg@));
        Ok(true)
    }

    fn handle_option(&mut self, arg: &str) -> (r: Result<bool, SecretError>)
        ensures
            final(self)@ == (SessionState {
                cache_ok: old(self)@.cache_ok || eq_ignore_ascii_case(arg@, ALLOW_EXTERNAL_CACHE@),
                output: old(self)@.output + OK@,
                ..old(self)@
            }),
            r == Ok::<bool, SecretError>(true),
    {
        if same_ignoring_case(arg, ALLOW_EXTERNAL_CACHE) {
            self.cache_ok = true;
        }
        self.out.append(OK);
        Ok(true)
    }

    fn handle_getpin(&mut self) -> (r: Result<bool, SecretError>)
        ensures
            exists|secret: Result<Seq<char>, SecretError>|
                (final(self)@, r) == #[trigger] respond_getpin(old(self)@, secret),
    {
        let secret = self.secret.read();
        let r = self.reply_getpin(&secret);
        assert((self@, r) == respond_getpin(old(self)@, secret_view(secret)));
        r
    }

    fn handle_reset(&mut self) -> (r: Result<bool, SecretError>)
        ensures
            final(self)@ == (SessionState {
                cache_ok: false,
                output: old(self)@.output + OK@,
                ..old(self)@
            }),
            r == Ok::<bool, SecretError>(true),
    {
        self.cache_ok = false;
        self.out.append(OK);
        Ok(true)
    }

    fn handle_bye(&mut self) -> (r: Result<bool, SecretError>)
        ensures
            final(self)@ == emit(old(self)@, CLOSING@),
            r == Ok::<bool, SecretError>(false),
    {
        self.out.append(CLOSING);
        Ok(false)
    }
}

/// `OPTION allow-external-password-cache`, in any casing, allows caching and
/// is acknowledged.
pub proof fn lemma_option_allows_cache(
    s: SessionState,
    line: Seq<char>,
    secret: Result<Seq<char>, SecretError>,
)
    requires
        recognize(line) == Command::SetOption,
        eq_ignore_ascii_case(argument(line), ALLOW_EXTERNAL_CACHE@),
    ensures
        respond(s, line, secret) == (
            SessionState { cache_ok: true, output: s.output + OK@, ..s },
            Ok::<bool, SecretError>(true),
        ),
{
}

/// Once the peer has allowed caching, the session remembers it over every
/// request but `RESET`.
pub proof fn lemma_cache_ok_lasts(
    s: SessionState,
    lines: Seq<Seq<char>>,
    secrets: Seq<Result<Seq<char>, SecretError>>,
)
    requires
        s.cache_ok,
        forall|i: int| 0 <= i < lines.len() ==> recognize(#[trigger] lines[i]) != Command::Reset,
    ensures
        serve_all(s, lines, secrets).cache_ok,
    decreases lines.len(),
{
    if lines.len() > 0 {
        assert(recognize(lines[0]) != Command::Reset);
        let (t, open) = serve_line(s, lines[0], secrets[0]);
        if open {
            assert forall|i: int| 0 <= i < lines.skip(1).len() implies recognize(
                #[trigger] lines.skip(1)[i],
            ) != Command::Reset by {
                assert(lines.skip(1)[i] == lines[i + 1]);
            }
            lemma_cache_ok_lasts(t, lines.skip(1), secrets.skip(1));
        }
    }
}

/// After `OPTION allow-external-password-cache`, a later `GETPIN` that gets
/// the secret writes the cache status before the data line, whatever was
/// served in between, as long as it was no `RESET`.
pub proof fn lemma_cached_secret_is_announced(
    s: SessionState,
    option: Seq<char>,
    between: Seq<Seq<char>>,
    secrets: Seq<Result<Seq<char>, SecretError>>,
    getpin: Seq<char>,
    pin: Seq<char>,
)
    requires
        recognize(option) == Command::SetOption,
        eq_ignore_ascii_case(argument(option), ALLOW_EXTERNAL_CACHE@),
        forall|i: int|
            0 <= i < between.len() ==> recognize(#[trigger] between[i]) != Command::Reset,
        recognize(getpin) == Command::GetPin,
    ensures
        ({
            let allowed = respond(s, option, Ok(pin)).0;
            let later = serve_all(allowed, between, secrets);
            respond(later, getpin, Ok(pin)) == (
                emit(later, FROM_CACHE@ + data_line(strip_line_breaks(pin)) + OK@),
                Ok::<bool, SecretError>(true),
            )
        }),
{
    let allowed = respond(s, option, Ok(pin)).0;
    lemma_cache_ok_lasts(allowed, between, secrets);
}

/// Where the peer has not allowed caching, a `GETPIN` that gets the secret
/// writes no status line: its reply begins with the data line.
pub proof fn lemma_uncached_secret_is_not_announced(
    s: SessionState,
    getpin: Seq<char>,
    pin: Seq<char>,
)
    requires
        !s.cache_ok,
        recognize(getpin) == Command::GetPin,
    ensures
        respond(s, getpin, Ok(pin)) == (
            emit(s, data_line(strip_line_breaks(pin)) + OK@),
            Ok::<bool, SecretError>(true),
        ),
        (data_line(strip_line_breaks(pin)) + OK@)[0] == 'D',
{
    reveal_strlit("D ");
}

/// `RESET` forbids caching again, whatever the state was, and is
/// acknowledged.
pub proof fn lemma_reset_clears_cache(
    s: SessionState,
    line: Seq<char>,
    secret: Result<Seq<char>, SecretError>,
)
    requires
        recognize(line) == Command::Reset,
    ensures
        respond(s, line, secret) == (
            SessionState { cache_ok: false, output: s.output + OK@, ..s },
            Ok::<bool, SecretError>(true),
        ),
{
}

/// `GETINFO version` reports the declared version as it is, on one data
/// line, then `OK`. (A version is one line.)
pub proof fn lemma_getinfo_version(
    s: SessionState,
    line: Seq<char>,
    secret: Result<Seq<char>, SecretError>,
)
    requires
        recognize(line) == Command::GetInfo,
        eq_ignore_ascii_case(argument(line), "version"@),
        forall|i: int| 0 <= i < s.version.len() ==> !is_line_break(s.version[i]),
    ensures
        respond(s, line, secret) == (
            emit(s, "D "@ + s.version + "\n"@ + OK@),
            Ok::<bool, SecretError>(true),
        ),
{
    reveal_strlit("version");
    reveal_strlit("flavor");
    lemma_strip_keeps_one_line(s.version);
}

/// `GETINFO pid` reports the process identifier in decimal on one data line,
/// then `OK`.
pub proof fn lemma_getinfo_pid(
    s: SessionState,
    line: Seq<char>,
    secret: Result<Seq<char>, SecretError>,
)
    requires
        recognize(line) == Command::GetInfo,
        eq_ignore_ascii_case(argument(line), "pid"@),
    ensures
        respond(s, line, secret) == (
            emit(s, "D "@ + decimal(s.pid as nat) + "\n"@ + OK@),
            Ok::<bool, SecretError>(true),
        ),
{
    reveal_strlit("pid");
    reveal_strlit("version");
    reveal_strlit("flavor");
}

/// A `GETPIN` whose provider fails fails in the same way, writes nothing and
/// leaves the session as it was.
pub proof fn lemma_failed_getpin_changes_nothing(s: SessionState, line: Seq<char>, e: SecretError)
    requires
        recognize(line) == Command::GetPin,
    ensures
        respond(s, line, Err(e)) == (s, Err::<bool, SecretError>(e)),
{
}

/// `BYE`, in any casing and with or without anything behind it, writes the
/// closing line and nothing else, and closes the connection.
pub proof fn lemma_bye_closes(
    s: SessionState,
    line: Seq<char>,
    secret: Result<Seq<char>, SecretError>,
)
    requires
        spells(line, keyword(Command::Bye)),
    ensures
        respond(s, line, secret) == (emit(s, CLOSING@), Ok::<bool, SecretError>(false)),
{
}

/// Nothing behind a `BYE` is served: the lines up to it decide where the
/// session ends.
pub proof fn lemma_nothing_served_after_bye(
    s: SessionState,
    lines: Seq<Seq<char>>,
    secrets: Seq<Result<Seq<char>, SecretError>>,
    k: int,
)
    requires
        secrets.len() == lines.len(),
        0 <= k < lines.len(),
        recognize(lines[k]) == Command::Bye,
    ensures
        serve_all(s, lines, secrets) == serve_all(s, lines.take(k + 1), secrets.take(k + 1)),
    decreases k,
{
    let (t, open) = serve_line(s, lines[0], secrets[0]);
    assert(lines.take(k + 1)[0] == lines[0]);
    assert(secrets.take(k + 1)[0] == secrets[0]);
    if open {
        assert(k > 0);
        lemma_nothing_served_after_bye(t, lines.skip(1), secrets.skip(1), k - 1);
        assert(lines.skip(1).take(k) =~= lines.take(k + 1).skip(1));
        assert(secrets.skip(1).take(k) =~= secrets.take(k + 1).skip(1));
    }
}

/// The casing of a request does not matter to the session: lines that are
/// equal up to the case of their ASCII letters are answered alike.
pub proof fn lemma_respond_ignores_case(
    s: SessionState,
    a: Seq<char>,
    b: Seq<char>,
    secret: Result<Seq<char>, SecretError>,
)
    requires
        eq_ignore_ascii_case(a, b),
    ensures
        respond(s, a, secret) == respond(s, b, secret),
{
    lemma_recognize_ignores_case(a, b);
    let command = recognize(a);
    let x = argument(a);
    let y = argument(b);
    assert(eq_ignore_ascii_case(x, y)) by {
        if command != Command::Unknown && keyword(command).len() < a.len() {
            let k = keyword(command).len() as int + 1;
            assert forall|i: int| 0 <= i < x.len() implies ascii_lower(#[trigger] x[i])
                == ascii_lower(y[i]) by {
                assert(x[i] == a[i + k]);
                assert(y[i] == b[i + k]);
            }
        }
    }
    assert forall|name: Seq<char>| eq_ignore_ascii_case(x, name) == eq_ignore_ascii_case(
        y,
        name,
    ) by {
        if x.len() == name.len() {
            assert forall|i: int| 0 <= i < x.len() implies (ascii_lower(x[i]) == ascii_lower(
                name[i],
            )) == (ascii_lower(y[i]) == ascii_lower(name[i])) by {
                assert(ascii_lower(x[i]) == ascii_lower(y[i]));
            }
        }
    }
}

} // verus!
