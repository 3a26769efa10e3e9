//! Text helpers of the line protocol: ASCII case folding, case-insensitive
//! comparison, removal of line breaks and decimal numbers.

use vstd::prelude::*;
use vstd::string::*;

verus! {

/// The ASCII upper-case form of `c`: `a` to `z` become `A` to `Z`, every
/// other character stays as it is.
pub open spec fn ascii_upper(c: char) -> char {
    if 'a' <= c && c <= 'z' {
        ((c as u8) - 32) as char
    } else {
        c
    }
}

/// The ASCII lower-case form of `c`: `A` to `Z` become `a` to `z`, every
/// other character stays as it is.
pub open spec fn ascii_lower(c: char) -> char {
    if 'A' <= c && c <= 'Z' {
        ((c as u8) + 32) as char
    } else {
        c
    }
}

/// Two texts are equal up to the case of their ASCII letters.
pub open spec fn eq_ignore_ascii_case(a: Seq<char>, b: Seq<char>) -> bool {
    &&& a.len() == b.len()
    &&& forall|i: int| 0 <= i < a.len() ==> ascii_lower(#[trigger] a[i]) == ascii_lower(b[i])
}

/// A carriage return or a line feed.
pub open spec fn is_line_break(c: char) -> bool {
    c == '\n' || c == '\r'
}

/// `s` without its carriage returns and line feeds.
pub open spec fn strip_line_breaks(s: Seq<char>) -> Seq<char> {
    s.filter(|c: char| !is_line_break(c))
}

/// The character of a decimal digit.
pub open spec fn digit_char(d: nat) -> char
    recommends
        d < 10,
{
    (('0' as u8) + d) as char
}

/// The decimal notation of `n`, without sign or leading zeros.
pub open spec fn decimal(n: nat) -> Seq<char>
    decreases n,
{
    if n < 10 {
        seq![digit_char(n)]
    } else {
        decimal(n / 10).push(digit_char(n % 10))
    }
}

/// `std`'s `String::push` appends the one character to the end of the string.
pub assume_specification[ String::push ](s: &mut String, c: char)
    ensures
        final(s)@ == old(s)@.push(c),
;

/// Upper-cases one character, ASCII letters only.
pub fn to_ascii_upper(c: char) -> (r: char)
    ensures
        r == ascii_upper(c),
{
    if c >= 'a' && c <= 'z' {
        ((c as u8) - 32) as char
    } else {
        c
    }
}

/// Lower-cases one character, ASCII letters only.
pub fn to_ascii_lower(c: char) -> (r: char)
    ensures
        r == ascii_lower(c),
{
    if c >= 'A' && c <= 'Z' {
        ((c as u8) + 32) as char
    } else {
        c
    }
}

/// Compares two texts without regard to the case of ASCII letters.
pub fn same_ignoring_case(a: &str, b: &str) -> (r: bool)
    ensures
        r == eq_ignore_ascii_case(a@, b@),
{
    let n = a.unicode_len();
    if b.unicode_len() != n {
        return false;
    }
    let mut i: usize = 0;
    while i < n
        invariant
            i <= n,
            n == a@.len(),
            n == b@.len(),
            forall|j: int| 0 <= j < i ==> ascii_lower(#[trigger] a@[j]) == ascii_lower(b@[j]),
        decreases n - i,
    {
        if to_ascii_lower(a.get_char(i)) != to_ascii_lower(b.get_char(i)) {
            return false;
        }
        i += 1;
    }
    true
}

/// Appends `s` to `out`, leaving out every carriage return and line feed.
pub fn push_stripped(out: &mut String, s: &str)
    ensures
        final(out)@ == old(out)@ + strip_line_breaks(s@),
{
    let ghost base = out@;
    for c in it: s.chars()
        invariant
            it.seq() == s@,
            out@ == base + strip_line_breaks(s@.take(it.index() as int)),
    {
        proof {
            let k = it.index() as int;
            reveal(Seq::filter);
            assert(s@.take(k + 1).drop_last() =~= s@.take(k));
        }
        if c != '\n' && c != '\r' {
            out.push(c);
        }
    }
    assert(s@.take(s@.len() as int) =~= s@);
}

/// The text of one decimal digit.
fn digit_text(d: u32) -> (r: &'static str)
    requires
        d < 10,
    ensures
        r@ == seq![digit_char(d as nat)],
{
    proof {
        reveal_strlit("0");
        reveal_strlit("1");
        reveal_strlit("2");
        reveal_strlit("3");
        reveal_strlit("4");
        reveal_strlit("5");
        reveal_strlit("6");
        reveal_strlit("7");
        reveal_strlit("8");
        reveal_strlit("9");
    }
    let r = match d {
        0 => "0",
        1 => "1",
        2 => "2",
        3 => "3",
        4 => "4",
        5 => "5",
        6 => "6",
        7 => "7",
        8 => "8",
        _ => "9",
    };
    assert(r@ =~= seq![digit_char(d as nat)]);
    r
}

/// Appends the decimal notation of `n` to `out`.
pub fn push_decimal(out: &mut String, n: u32)
    ensures
        final(out)@ == old(out)@ + decimal(n as nat),
    decreases n,
{
    if n >= 10 {
        push_decimal(out, n / 10);
    }
    out.append(digit_text(n % 10));
    assert(out@ =~= old(out)@ + decimal(n as nat));
}

/// Stripping leaves no carriage return and no line feed behind.
pub proof fn lemma_stripped_is_one_line(s: Seq<char>)
    ensures
        forall|i: int|
            0 <= i < strip_line_breaks(s).len() ==> !is_line_break(
                #[trigger] strip_line_breaks(s)[i],
            ),
{
    let keep = |c: char| !is_line_break(c);
    assert forall|i: int| 0 <= i < s.filter(keep).len() implies !is_line_break(
        #[trigger] s.filter(keep)[i],
    ) by {
        s.lemma_filter_pred(keep, i);
    }
}

/// Stripping changes nothing in a text without carriage returns and line
/// feeds.
pub proof fn lemma_strip_keeps_one_line(s: Seq<char>)
    requires
        forall|i: int| 0 <= i < s.len() ==> !is_line_break(s[i]),
    ensures
        strip_line_breaks(s) == s,
    decreases s.len(),
{
    reveal(Seq::filter);
    if s.len() > 0 {
        lemma_strip_keeps_one_line(s.drop_last());
        assert(s.drop_last().push(s.last()) =~= s);
    }
}

} // verus!
