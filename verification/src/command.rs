//! The command recognizer: a character-at-a-time automaton over the
//! upper-cased request line, whose states are the beginnings of the known
//! command keywords.

use crate::text::{ascii_lower, ascii_upper, eq_ignore_ascii_case, to_ascii_upper};
use vstd::prelude::*;
use vstd::string::*;

verus! {

/// What a request line asks for.
#[derive(Clone, Copy, Debug, PartialEq, Eq, Structural)]
pub enum Command {
    /// `BYE`: close the connection.
    Bye,
    /// `GETINFO <attribute>`: report something about the responder.
    GetInfo,
    /// `GETPIN`: hand out the secret.
    GetPin,
    /// `HELP`: list the commands.
    Help,
    /// `OPTION <name>`: set a session option.
    SetOption,
    /// `RESET`: forget the session options.
    Reset,
    /// Any other line; it is acknowledged and ignored.
    Unknown,
}

/// A recognized request: the command and the raw text behind its keyword.
#[derive(Clone, Copy, Debug)]
pub struct Request<'a> {
    pub command: Command,
    pub argument: &'a str,
}

/// The keyword of a command, in upper case. `Unknown` has none.
pub open spec fn keyword(command: Command) -> Seq<char> {
    match command {
        Command::Bye => seq!['B', 'Y', 'E'],
        Command::GetInfo => seq!['G', 'E', 'T', 'I', 'N', 'F', 'O'],
        Command::GetPin => seq!['G', 'E', 'T', 'P', 'I', 'N'],
        Command::Help => seq!['H', 'E', 'L', 'P'],
        Command::SetOption => seq!['O', 'P', 'T', 'I', 'O', 'N'],
        Command::Reset => seq!['R', 'E', 'S', 'E', 'T'],
        Command::Unknown => Seq::empty(),
    }
}

/// The line begins with `word` in any casing, as a whole word: the word is
/// followed by a space or by the end of the line.
pub open spec fn spells(line: Seq<char>, word: Seq<char>) -> bool {
    &&& word.len() <= line.len()
    &&& forall|j: int| 0 <= j < word.len() ==> ascii_upper(#[trigger] line[j]) == word[j]
    &&& (line.len() == word.len() || line[word.len() as int] == ' ')
}

/// The command that a request line names: the one whose keyword the line
/// spells, `Unknown` where it spells none.
pub open spec fn recognize(line: Seq<char>) -> Command {
    if spells(line, keyword(Command::Bye)) {
        Command::Bye
    } else if spells(line, keyword(Command::GetInfo)) {
        Command::GetInfo
    } else if spells(line, keyword(Command::GetPin)) {
        Command::GetPin
    } else if spells(line, keyword(Command::Help)) {
        Command::Help
    } else if spells(line, keyword(Command::SetOption)) {
        Command::SetOption
    } else if spells(line, keyword(Command::Reset)) {
        Command::Reset
    } else {
        Command::Unknown
    }
}

/// The raw argument of a request line: all that follows the space behind the
/// keyword, nothing where the line names no command or ends with the keyword.
pub open spec fn argument(line: Seq<char>) -> Seq<char> {
    let command = recognize(line);
    if command != Command::Unknown && keyword(command).len() < line.len() {
        line.skip(keyword(command).len() as int + 1)
    } else {
        Seq::empty()
    }
}

/// The states of the automaton, each named by the characters read so far.
#[derive(Clone, Copy, PartialEq, Eq, Structural)]
enum State {
    Start,
    B,
    By,
    Bye,
    G,
    Ge,
    Get,
    Geti,
    Getin,
    Getinf,
    Getinfo,
    Getp,
    Getpi,
    Getpin,
    H,
    He,
    Hel,
    Help,
    O,
    Op,
    Opt,
    Opti,
    Optio,
    Optn,
    R,
    Re,
    Res,
    Rese,
    Reset,
}

/// What the automaton does with one character.
enum Step {
    /// Go on in this state.
    Next(State),
    /// The keyword of this command is complete.
    Accept(Command),
    /// No keyword can be completed any more.
    Reject,
}

/// The upper-cased characters that lead from `Start` to `state`.
spec fn path(state: State) -> Seq<char> {
    match state {
        State::Start => Seq::empty(),
        State::B => seq!['B'],
        State::By => seq!['B', 'Y'],
        State::Bye => seq!['B', 'Y', 'E'],
        State::G => seq!['G'],
        State::Ge => seq!['G', 'E'],
        State::Get => seq!['G', 'E', 'T'],
        State::Geti => seq!['G', 'E', 'T', 'I'],
        State::Getin => seq!['G', 'E', 'T', 'I', 'N'],
        State::Getinf => seq!['G', 'E', 'T', 'I', 'N', 'F'],
        State::Getinfo => seq!['G', 'E', 'T', 'I', 'N', 'F', 'O'],
        State::Getp => seq!['G', 'E', 'T', 'P'],
        State::Getpi => seq!['G', 'E', 'T', 'P', 'I'],
        State::Getpin => seq!['G', 'E', 'T', 'P', 'I', 'N'],
        State::H => seq!['H'],
        State::He => seq!['H', 'E'],
        State::Hel => seq!['H', 'E', 'L'],
        State::Help => seq!['H', 'E', 'L', 'P'],
        State::O => seq!['O'],
        State::Op => seq!['O', 'P'],
        State::Opt => seq!['O', 'P', 'T'],
        State::Opti => seq!['O', 'P', 'T', 'I'],
        State::Optio => seq!['O', 'P', 'T', 'I', 'O'],
        State::Optn => seq!['O', 'P', 'T', 'I', 'O', 'N'],
        State::R => seq!['R'],
        State::Re => seq!['R', 'E'],
        State::Res => seq!['R', 'E', 'S'],
        State::Rese => seq!['R', 'E', 'S', 'E'],
        State::Reset => seq!['R', 'E', 'S', 'E', 'T'],
    }
}

/// The character that the automaton reads at position `j`: the upper-cased
/// character of the line, a space behind its end.
spec fn fed(line: Seq<char>, j: int) -> char {
    if 0 <= j < line.len() {
        ascii_upper(line[j])
    } else {
        ' '
    }
}

/// The first `k` characters of `p` and `w` are the same.
spec fn agree(p: Seq<char>, w: Seq<char>, k: nat) -> bool
    decreases k,
{
    k == 0 || (agree(p, w, (k - 1) as nat) && p[k - 1] == w[k - 1])
}

/// Having read `p`, the character `c` is the next one of `w` followed by a
/// space.
spec fn on_the_way(p: Seq<char>, c: char, w: Seq<char>) -> bool {
    &&& p.len() <= w.len()
    &&& agree(p, w, p.len())
    &&& c == if p.len() < w.len() { w[p.len() as int] } else { ' ' }
}

/// The step taken for `c` in `state` is the one that `command` asks for, where
/// `c` is on the way of its keyword.
spec fn follows(state: State, c: char, step: Step, command: Command) -> bool {
    on_the_way(path(state), c, keyword(command)) ==> if path(state).len() < keyword(command).len() {
        step is Next
    } else {
        step == Step::Accept(command)
    }
}

/// One transition of the automaton on an upper-cased character.
fn step(state: State, c: char) -> (r: Step)
    ensures
        r matches Step::Next(t) ==> c != ' ' && path(t) == path(state).push(c),
        r matches Step::Accept(command) ==> c == ' ' && command != Command::Unknown && path(state)
            == keyword(command),
        follows(state, c, r, Command::Bye),
        follows(state, c, r, Command::GetInfo),
        follows(state, c, r, Command::GetPin),
        follows(state, c, r, Command::Help),
        follows(state, c, r, Command::SetOption),
        follows(state, c, r, Command::Reset),
{
    proof {
        reveal_with_fuel(agree, 8);
    }
    match (state, c) {
        (State::Start, 'B') => Step::Next(State::B),
        (State::B, 'Y') => Step::Next(State::By),
        (State::By, 'E') => Step::Next(State::Bye),
        (State::Bye, ' ') => Step::Accept(Command::Bye),
        (State::Start, 'G') => Step::Next(State::G),
        (State::G, 'E') => Step::Next(State::Ge),
        (State::Ge, 'T') => Step::Next(State::Get),
        (State::Get, 'I') => Step::Next(State::Geti),
        (State::Geti, 'N') => Step::Next(State::Getin),
        (State::Getin, 'F') => Step::Next(State::Getinf),
        (State::Getinf, 'O') => Step::Next(State::Getinfo),
        (State::Getinfo, ' ') => Step::Accept(Command::GetInfo),
        (State::Get, 'P') => Step::Next(State::Getp),
        (State::Getp, 'I') => Step::Next(State::Getpi),
        (State::Getpi, 'N') => Step::Next(State::Getpin),
        (State::Getpin, ' ') => Step::Accept(Command::GetPin),
        (State::Start, 'H') => Step::Next(State::H),
        (State::H, 'E') => Step::Next(State::He),
        (State::He, 'L') => Step::Next(State::Hel),
        (State::Hel, 'P') => Step::Next(State::Help),
        (State::Help, ' ') => Step::Accept(Command::Help),
        (State::Start, 'O') => Step::Next(State::O),
        (State::O, 'P') => Step::Next(State::Op),
        (State::Op, 'T') => Step::Next(State::Opt),
        (State::Opt, 'I') => Step::Next(State::Opti),
        (State::Opti, 'O') => Step::Next(State::Optio),
        (State::Optio, 'N') => Step::Next(State::Optn),
        (State::Optn, ' ') => Step::Accept(Command::SetOption),
        (State::Start, 'R') => Step::Next(State::R),
        (State::R, 'E') => Step::Next(State::Re),
        (State::Re, 'S') => Step::Next(State::Res),
        (State::Res, 'E') => Step::Next(State::Rese),
        (State::Rese, 'T') => Step::Next(State::Reset),
        (State::Reset, ' ') => Step::Accept(Command::Reset),
        _ => Step::Reject,
    }
}

/// The automaton has read `p` from the beginning of the line, and no space.
spec fn has_read(line: Seq<char>, p: Seq<char>) -> bool {
    &&& p.len() <= line.len()
    &&& forall|j: int|
        0 <= j < p.len() ==> line[j] != ' ' && ascii_upper(#[trigger] line[j]) == p[j]
}

/// Sequences that are equal position by position up to `k` agree up to `k`.
proof fn lemma_agree(p: Seq<char>, w: Seq<char>, k: nat)
    requires
        forall|j: int| 0 <= j < k ==> p[j] == w[j],
    ensures
        agree(p, w, k),
    decreases k,
{
    if k > 0 {
        lemma_agree(p, w, (k - 1) as nat);
    }
}

/// On a line that spells `w`, whatever the automaton reads next is on the way
/// of `w`.
proof fn lemma_on_the_way(line: Seq<char>, p: Seq<char>, w: Seq<char>)
    requires
        has_read(line, p),
        spells(line, w),
    ensures
        on_the_way(p, fed(line, p.len() as int), w),
{
    if w.len() < p.len() {
        assert(ascii_upper(line[w.len() as int]) == p[w.len() as int]);
    } else {
        assert forall|j: int| 0 <= j < p.len() implies p[j] == w[j] by {
            assert(ascii_upper(line[j]) == p[j]);
        }
        lemma_agree(p, w, p.len());
        if p.len() < w.len() {
            assert(ascii_upper(line[p.len() as int]) == w[p.len() as int]);
        }
    }
}

/// Applies `lemma_on_the_way` to the keyword of `command`, where the line
/// spells it.
proof fn lemma_keyword_on_the_way(line: Seq<char>, state: State, command: Command)
    requires
        has_read(line, path(state)),
    ensures
        spells(line, keyword(command)) ==> on_the_way(
            path(state),
            fed(line, path(state).len() as int),
            keyword(command),
        ),
{
    if spells(line, keyword(command)) {
        lemma_on_the_way(line, path(state), keyword(command));
    }
}

impl<'a> Request<'a> {
    /// Recognizes a request line. The keyword is matched in any casing and as a
    /// whole word; the argument is what follows the separating space, as it is.
    pub fn parse(line: &'a str) -> (r: Request<'a>)
        ensures
            r.command == recognize(line@),
            r.argument@ == argument(line@),
    {
        let n = line.unicode_len();
        let mut state = State::Start;
        let mut i: usize = 0;
        loop
            invariant
                n == line@.len(),
                i == path(state).len(),
                has_read(line@, path(state)),
            decreases 8 - i,
        {
            let c = if i < n {
                to_ascii_upper(line.get_char(i))
            } else {
                ' '
            };
            let taken = step(state, c);
            proof {
                assert(c == fed(line@, i as int));
                lemma_keyword_on_the_way(line@, state, Command::Bye);
                lemma_keyword_on_the_way(line@, state, Command::GetInfo);
                lemma_keyword_on_the_way(line@, state, Command::GetPin);
                lemma_keyword_on_the_way(line@, state, Command::Help);
                lemma_keyword_on_the_way(line@, state, Command::SetOption);
                lemma_keyword_on_the_way(line@, state, Command::Reset);
            }
            match taken {
                Step::Next(t) => {
                    state = t;
                    i = i + 1;
                },
                Step::Accept(command) => {
                    proof {
                        reveal_strlit("");
                        assert(spells(line@, keyword(command)));
                    }
                    let argument = if i < n {
                        line.substring_char(i + 1, n)
                    } else {
                        ""
                    };
                    return Request { command, argument };
                },
                Step::Reject => {
                    proof {
                        reveal_strlit("");
                    }
                    return Request { command: Command::Unknown, argument: "" };
                },
            }
        }
    }
}

/// A line that spells the keyword of a command, in whatever casing, names that
/// command and no other.
pub proof fn lemma_spelled_command(line: Seq<char>, command: Command)
    requires
        command != Command::Unknown,
        spells(line, keyword(command)),
    ensures
        recognize(line) == command,
{
    assert(ascii_upper(line[0]) == keyword(command)[0]);
    assert(ascii_upper(line[3]) == keyword(command)[3] || command == Command::Bye);
}

/// A keyword that is directly followed by anything but a space or the end of
/// the line names no command: the line goes to the default handler.
pub proof fn lemma_keyword_is_whole_word(line: Seq<char>, command: Command)
    requires
        command != Command::Unknown,
        keyword(command).len() < line.len(),
        forall|j: int| 0 <= j < keyword(command).len() ==> ascii_upper(line[j]) == keyword(command)[j],
        line[keyword(command).len() as int] != ' ',
    ensures
        recognize(line) == Command::Unknown,
{
    assert(ascii_upper(line[0]) == keyword(command)[0]);
    assert(ascii_upper(line[3]) == keyword(command)[3] || command == Command::Bye);
}

/// The casing of a line does not matter to the recognizer: two lines that are
/// equal up to the case of their ASCII letters name the same command.
pub proof fn lemma_recognize_ignores_case(a: Seq<char>, b: Seq<char>)
    requires
        eq_ignore_ascii_case(a, b),
    ensures
        recognize(a) == recognize(b),
{
    assert forall|word: Seq<char>| spells(a, word) == spells(b, word) by {
        lemma_spells_ignores_case(a, b, word);
        lemma_spells_ignores_case(b, a, word);
    }
}

/// What one line spells, a line equal to it up to case spells too.
proof fn lemma_spells_ignores_case(a: Seq<char>, b: Seq<char>, word: Seq<char>)
    requires
        a.len() == b.len(),
        forall|i: int| 0 <= i < a.len() ==> ascii_lower(a[i]) == ascii_lower(b[i]),
    ensures
        spells(a, word) ==> spells(b, word),
{
    if spells(a, word) {
        assert forall|j: int| 0 <= j < word.len() implies ascii_upper(#[trigger] b[j])
            == word[j] by {
            assert(ascii_lower(a[j]) == ascii_lower(b[j]));
            assert(ascii_upper(a[j]) == word[j]);
        }
        if word.len() < a.len() {
            assert(ascii_lower(a[word.len() as int]) == ascii_lower(b[word.len() as int]));
        }
    }
}

} // verus!
