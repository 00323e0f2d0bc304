//! The lexical layer: runs of bytes of one class, and fixed words.

use vstd::prelude::*;
use vstd::string::is_ascii_spec_bytes;
use vstd::utf8::is_ascii_chars;

verus! {

/// A class of bytes that a token is made of.
#[derive(Debug, Clone, Copy, PartialEq, Eq, Structural)]
pub enum Class {
    /// Space, tab, carriage return, line feed.
    Space,
    /// ASCII letters and decimal digits.
    Alnum,
    /// Decimal digits.
    Digit,
}

impl Class {
    /// Whether the byte belongs to the class.
    pub open spec fn has(self, b: u8) -> bool {
        match self {
            Class::Space => b == 32 || b == 9 || b == 13 || b == 10,
            Class::Alnum => (65 <= b <= 90) || (97 <= b <= 122) || (48 <= b <= 57),
            Class::Digit => 48 <= b <= 57,
        }
    }
}

/// Length of the longest run of bytes of `class` that starts at `pos`.
#[verifier::opaque]
pub open spec fn run_len(s: Seq<u8>, pos: nat, class: Class) -> nat
    decreases s.len() - pos,
{
    if pos < s.len() && class.has(s[pos as int]) {
        1 + run_len(s, pos + 1, class)
    } else {
        0
    }
}

/// Whether the `n` bytes from `pos` on are of `class` and the run ends
/// there: at the end of `s` or before a byte that is not of `class`.
pub open spec fn is_run(s: Seq<u8>, pos: nat, n: nat, class: Class) -> bool {
    &&& pos + n <= s.len()
    &&& forall|i: int| pos <= i < pos + n ==> class.has(#[trigger] s[i])
    &&& (pos + n == s.len() || !class.has(s[(pos + n) as int]))
}

/// A run is the longest run.
pub proof fn lemma_run_len(s: Seq<u8>, pos: nat, n: nat, class: Class)
    requires
        is_run(s, pos, n, class),
    ensures
        n == run_len(s, pos, class),
    decreases n,
{
    reveal_with_fuel(run_len, 2);
    if n > 0 {
        assert(class.has(s[pos as int]));
        lemma_run_len(s, pos + 1, (n - 1) as nat, class);
    }
}

/// The longest run is a run.
pub proof fn lemma_run_is_run(s: Seq<u8>, pos: nat, class: Class)
    requires
        pos <= s.len(),
    ensures
        is_run(s, pos, run_len(s, pos, class), class),
    decreases s.len() - pos,
{
    reveal_with_fuel(run_len, 2);
    if pos < s.len() && class.has(s[pos as int]) {
        lemma_run_is_run(s, pos + 1, class);
    }
}

/// Calls nom's `character::complete::multispace0` on the input from `pos`
/// on.  Claimed of it: what it recognises is the longest prefix made of
/// spaces, tabs, carriage returns and line feeds, possibly empty.
#[verifier::external_body]
fn nom_multispace(input: &[u8], pos: usize) -> (n: usize)
    requires
        pos <= input.len(),
    ensures
        is_run(input@, pos as nat, n as nat, Class::Space),
{
    match nom::character::complete::multispace0::<&[u8], nom::error::Error<&[u8]>>(&input[pos..]) {
        Ok((_rest, found)) => found.len(),
        Err(_) => 0,
    }
}

/// Calls nom's `character::complete::alphanumeric0` on the input from `pos`
/// on.  Claimed of it: what it recognises is the longest prefix made of
/// ASCII letters and decimal digits, possibly empty.
#[verifier::external_body]
fn nom_alphanumeric(input: &[u8], pos: usize) -> (n: usize)
    requires
        pos <= input.len(),
    ensures
        is_run(input@, pos as nat, n as nat, Class::Alnum),
{
    match nom::character::complete::alphanumeric0::<&[u8], nom::error::Error<&[u8]>>(&input[pos..]) {
        Ok((_rest, found)) => found.len(),
        Err(_) => 0,
    }
}

/// Calls nom's `character::complete::digit0` on the input from `pos` on.
/// Claimed of it: what it recognises is the longest prefix made of decimal
/// digits, possibly empty.
#[verifier::external_body]
fn nom_digit(input: &[u8], pos: usize) -> (n: usize)
    requires
        pos <= input.len(),
    ensures
        is_run(input@, pos as nat, n as nat, Class::Digit),
{
    match nom::character::complete::digit0::<&[u8], nom::error::Error<&[u8]>>(&input[pos..]) {
        Ok((_rest, found)) => found.len(),
        Err(_) => 0,
    }
}

/// Length of the run of bytes of `class` that starts at `pos`.
pub(crate) fn run(input: &[u8], pos: usize, class: Class) -> (n: usize)
    requires
        pos <= input.len(),
    ensures
        n == run_len(input@, pos as nat, class),
        pos + n <= input.len(),
{
    let n = match class {
        Class::Space => nom_multispace(input, pos),
        Class::Alnum => nom_alphanumeric(input, pos),
        Class::Digit => nom_digit(input, pos),
    };
    proof {
        lemma_run_len(input@, pos as nat, n as nat, class);
    }
    n
}

/// Whether `bytes` spell the ASCII word `word`.
#[verifier::opaque]
pub open spec fn is_text(bytes: Seq<u8>, word: Seq<char>) -> bool {
    &&& is_ascii_chars(word)
    &&& bytes.len() == word.len()
    &&& forall|i: int| 0 <= i < word.len() ==> #[trigger] bytes[i] == word[i] as u8
}

/// Whether the ASCII word `word` stands in `s` at `pos`.
#[verifier::opaque]
pub open spec fn has_word(s: Seq<u8>, pos: nat, word: Seq<char>) -> bool {
    pos + word.len() <= s.len() && is_text(
        s.subrange(pos as int, (pos + word.len()) as int),
        word,
    )
}

/// Where `word` stands in the input at `pos`, the position behind it.
pub(crate) fn tag(input: &[u8], pos: usize, word: &str) -> (r: Option<usize>)
    requires
        pos <= input.len(),
    ensures
        has_word(input@, pos as nat, word@) ==> r == Some((pos + word@.len()) as usize),
        !has_word(input@, pos as nat, word@) ==> r is None,
        r is Some ==> pos + word@.len() <= input.len(),
{
    reveal(is_text);
    reveal(has_word);
    if !word.is_ascii() {
        return None;
    }
    let bytes = word.as_bytes();
    proof {
        is_ascii_spec_bytes(word);
    }
    let n = bytes.len();
    let total = input.len();
    if n > total - pos {
        return None;
    }
    let ghost part = input@.subrange(pos as int, (pos + n) as int);
    let mut i: usize = 0;
    while i < n
        invariant
            i <= n,
            n == bytes@.len(),
            n == word@.len(),
            pos + n <= total,
            total == input.len(),
            part == input@.subrange(pos as int, (pos + n) as int),
            forall|k: int| 0 <= k < n ==> #[trigger] bytes@[k] == word@[k] as u8,
            forall|k: int| 0 <= k < i ==> #[trigger] part[k] == word@[k] as u8,
        decreases n - i,
    {
        if input[pos + i] != bytes[i] {
            proof {
                reveal(is_text);
                reveal(has_word);
                assert(part[i as int] != word@[i as int] as u8);
            }
            return None;
        }
        i += 1;
    }
    Some(pos + n)
}

/// Whether the byte `b` stands in `s` at `pos`.
pub open spec fn has_byte(s: Seq<u8>, pos: nat, b: u8) -> bool {
    pos < s.len() && s[pos as int] == b
}

/// Whether the byte `b` stands in the input at `pos`.
pub(crate) fn at(input: &[u8], pos: usize, b: u8) -> (r: bool)
    ensures
        r == has_byte(input@, pos as nat, b),
{
    pos < input.len() && input[pos] == b
}

} // verus!
