//! The secret provider's own rules: which item the configuration names, how
//! the command-line tool is asked for it, and what its answer is worth.
//!
//! Reading the configuration and running the tool are left to the caller,
//! who hands over what was read and what the tool left behind.

use crate::pinentry::SecretError;
use crate::text::{is_line_break, push_stripped, strip_line_breaks};
use std::string::FromUtf8Error;
use vstd::prelude::*;
use vstd::string::*;
use vstd::utf8::{decode_utf8, valid_utf8};

verus! {

/// The command-line tool that hands out secrets.
pub const PROGRAM: &'static str = "op";

/// The subcommand that reads one item.
pub const READ: &'static str = "read";

/// The number of characters before the first line break of `s`; its length
/// where it has none.
pub open spec fn line_end(s: Seq<char>) -> int
    decreases s.len(),
{
    if s.len() == 0 || is_line_break(s[0]) {
        0
    } else {
        1 + line_end(s.skip(1))
    }
}

/// The first line of `s`, without its line break.
pub open spec fn first_line(s: Seq<char>) -> Seq<char> {
    s.take(line_end(s))
}

/// What is left of a finished run of the tool.
#[derive(Debug)]
pub struct ToolOutput {
    /// Whether the tool reported success.
    pub success: bool,
    /// What the tool wrote to its standard output.
    pub stdout: Vec<u8>,
}

/// The secret that a run of the tool yields. `None` is a tool that could
/// not be started. The output must be there and be valid text; the secret is
/// that text without its line breaks.
pub open spec fn pin_of(run: Option<ToolOutput>) -> Result<Seq<char>, SecretError> {
    match run {
        None => Err(SecretError::Unavailable),
        Some(output) => if !output.success {
            Err(SecretError::Failed)
        } else if output.stdout@.len() == 0 {
            Err(SecretError::Empty)
        } else if !valid_utf8(output.stdout@) {
            Err(SecretError::InvalidEncoding)
        } else {
            Ok(strip_line_breaks(decode_utf8(output.stdout@)))
        },
    }
}

/// The error of `std`'s `String::from_utf8`.
#[verifier::external_type_specification]
#[verifier::external_body]
pub struct ExFromUtf8Error(FromUtf8Error);

/// `std`'s `String::from_utf8` succeeds on exactly the byte vectors that are
/// valid UTF-8, and then returns the text that they encode.
pub assume_specification[ String::from_utf8 ](vec: Vec<u8>) -> (r: Result<String, FromUtf8Error>)
    ensures
        r is Ok <==> valid_utf8(vec@),
        r matches Ok(s) ==> s@ == decode_utf8(vec@),
;

/// A reference to the item that holds the secret.
#[derive(Debug)]
pub struct ItemRef(String);

impl View for ItemRef {
    type V = Seq<char>;

    closed spec fn view(&self) -> Seq<char> {
        self.0@
    }
}

impl ItemRef {
    /// The item reference that a configuration text names: its first line.
    pub fn load(cfg: &str) -> (r: Self)
        ensures
            r@ == first_line(cfg@),
    {
        ItemRef(get_item_ref(cfg))
    }

    /// The reference as text.
    pub fn as_str(&self) -> (r: &str)
        ensures
            r@ == self@,
    {
        self.0.as_str()
    }

    /// The arguments with which the tool is asked for the item.
    pub fn arguments(&self) -> (r: Vec<String>)
        ensures
            r@.len() == 2,
            r@[0]@ == READ@,
            r@[1]@ == self@,
    {
        let mut r: Vec<String> = Vec::new();
        r.push(String::from_str(READ));
        r.push(self.0.clone());
        r
    }
}

/// Where no line break stands before `k`, and one stands at `k` or `s` ends
/// there, the first line of `s` ends at `k`.
proof fn lemma_line_end(s: Seq<char>, k: int)
    requires
        0 <= k <= s.len(),
        forall|j: int| 0 <= j < k ==> !is_line_break(s[j]),
        k == s.len() || is_line_break(s[k]),
    ensures
        line_end(s) == k,
    decreases k,
{
    if k > 0 {
        assert(!is_line_break(s[0]));
        assert forall|j: int| 0 <= j < k - 1 implies !is_line_break(s.skip(1)[j]) by {
            assert(s.skip(1)[j] == s[j + 1]);
        }
        lemma_line_end(s.skip(1), k - 1);
    }
}

/// The item reference in a configuration text: the text up to its first line
/// break.
pub fn get_item_ref(cfg: &str) -> (r: String)
    ensures
        r@ == first_line(cfg@),
{
    let n = cfg.unicode_len();
    let mut len: usize = 0;
    let mut found = false;
    for c in it: cfg.chars()
        invariant
            it.seq() == cfg@,
            n == cfg@.len(),
            len <= it.index(),
            !found ==> len == it.index(),
            found ==> len < n && is_line_break(cfg@[len as int]),
            forall|j: int| 0 <= j < len ==> !is_line_break(cfg@[j]),
    {
        if !found {
            if is_newline(c) {
                found = true;
            } else {
                len = len + 1;
            }
        }
    }
    proof {
        lemma_line_end(cfg@, len as int);
    }
    String::from_str(cfg.substring_char(0, len))
}

/// Whether `c` is a carriage return or a line feed.
pub fn is_newline(c: char) -> (r: bool)
    ensures
        r == is_line_break(c),
{
    c == '\n' || c == '\r'
}

/// Makes a secret of what a run of the tool left behind. `None` stands for a
/// tool that could not be started.
pub fn get_pin(run: Option<ToolOutput>) -> (r: Result<String, SecretError>)
    ensures
        match r {
            Ok(pin) => pin_of(run) == Ok::<Seq<char>, SecretError>(pin@),
            Err(e) => pin_of(run) == Err::<Seq<char>, SecretError>(e),
        },
{
    let result = match run {
        Some(output) => output,
        None => {
            return Err(SecretError::Unavailable);
        },
    };
    if !result.success {
        return Err(SecretError::Failed);
    }
    if result.stdout.len() == 0 {
        return Err(SecretError::Empty);
    }
    let text = match String::from_utf8(result.stdout) {
        Ok(s) => s,
        Err(_) => {
            return Err(SecretError::InvalidEncoding);
        },
    };
    let mut pin = String::new();
    push_stripped(&mut pin, text.as_str());
    assert(pin@ =~= strip_line_breaks(text@));
    Ok(pin)
}

/// Whether `c` is neither a carriage return nor a line feed.
pub fn is_not_ascii_newline(c: char) -> (r: bool)
    ensures
        r == !is_line_break(c),
{
    !(c == '\n' || c == '\r')
}

} // verus!
