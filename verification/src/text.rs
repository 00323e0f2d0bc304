//! Plain text helpers: strings out of ASCII bytes, and decimal numerals.

use vstd::prelude::*;

verus! {

/// Whether every byte is an ASCII character.
pub open spec fn is_ascii_bytes(bytes: Seq<u8>) -> bool {
    forall|i: int| 0 <= i < bytes.len() ==> #[trigger] bytes[i] < 128
}

/// The characters that ASCII bytes stand for, one per byte.
pub open spec fn ascii_chars(bytes: Seq<u8>) -> Seq<char> {
    Seq::new(bytes.len(), |i: int| bytes[i] as char)
}

/// Calls `String::from_utf8`.  Claimed of it: on bytes that are all ASCII the
/// conversion succeeds, and the string has one character per byte, the one
/// with the byte's code.
#[verifier::external_body]
pub(crate) fn string_from_ascii(bytes: Vec<u8>) -> (r: String)
    requires
        is_ascii_bytes(bytes@),
    ensures
        r@ == ascii_chars(bytes@),
{
    match String::from_utf8(bytes) {
        Ok(text) => text,
        Err(_) => String::new(),
    }
}

/// The character of a decimal digit.
pub open spec fn digit_char(d: nat) -> char
    recommends
        d < 10,
{
    (48 + d) as u8 as char
}

/// The decimal numeral of `n`, without leading zeros.
pub open spec fn decimal(n: nat) -> Seq<char>
    decreases n,
{
    if n < 10 {
        seq![digit_char(n)]
    } else {
        decimal(n / 10).push(digit_char(n % 10))
    }
}

/// The decimal numeral of `n`, with zeros in front up to `width` digits.
pub open spec fn padded_decimal(n: nat, width: nat) -> Seq<char> {
    let digits = decimal(n);
    if digits.len() < width {
        Seq::new((width - digits.len()) as nat, |i: int| '0') + digits
    } else {
        digits
    }
}

/// The bytes of [`padded_decimal`].
pub fn padded_decimal_bytes(n: u64, width: usize) -> (r: Vec<u8>)
    ensures
        is_ascii_bytes(r@),
        ascii_chars(r@) == padded_decimal(n as nat, width as nat),
{
    let mut digits: Vec<u8> = Vec::new();
    let mut rest: u64 = n;
    let last: u8 = (rest % 10) as u8;
    digits.push(48 + last);
    rest = rest / 10;
    assert(ascii_chars(digits@) =~= seq![digit_char((n % 10) as nat)]);
    while rest > 0
        invariant
            is_ascii_bytes(digits@),
            digits@.len() >= 1,
            rest == 0 ==> ascii_chars(digits@) == decimal(n as nat),
            rest > 0 ==> decimal(n as nat) == decimal(rest as nat) + ascii_chars(digits@),
        decreases rest,
    {
        let d: u8 = (rest % 10) as u8;
        let ghost before = digits@;
        digits.insert(0, 48 + d);
        assert(ascii_chars(digits@) =~= seq![digit_char((rest % 10) as nat)] + ascii_chars(before));
        proof {
            if rest < 10 {
                assert(decimal(rest as nat) =~= seq![digit_char(rest as nat)]);
            } else {
                assert(decimal(rest as nat) == decimal((rest / 10) as nat).push(
                    digit_char((rest % 10) as nat),
                ));
                assert(decimal(n as nat) =~= decimal((rest / 10) as nat) + ascii_chars(digits@));
            }
        }
        rest = rest / 10;
    }
    if n < 10 {
        assert(decimal(n as nat) =~= seq![digit_char(n as nat)]);
    }
    let ghost numeral = digits@;
    while digits.len() < width
        invariant
            is_ascii_bytes(digits@),
            numeral.len() <= digits@.len(),
            numeral.len() < width ==> digits@.len() <= width,
            numeral.len() >= width ==> digits@ == numeral,
            ascii_chars(numeral) == decimal(n as nat),
            ascii_chars(digits@) == Seq::new((digits@.len() - numeral.len()) as nat, |i: int| '0')
                + ascii_chars(numeral),
        decreases width - digits@.len(),
    {
        let ghost before = digits@;
        digits.insert(0, 48);
        assert(ascii_chars(digits@) =~= seq!['0'] + ascii_chars(before));
        assert(ascii_chars(digits@) =~= Seq::new(
            (digits@.len() - numeral.len()) as nat,
            |i: int| '0',
        ) + ascii_chars(numeral));
    }
    assert(ascii_chars(digits@) =~= padded_decimal(n as nat, width as nat));
    digits
}


/// The number that a sequence of decimal digits denotes.
pub open spec fn decimal_value(digits: Seq<u8>) -> nat
    decreases digits.len(),
{
    if digits.len() == 0 {
        0
    } else {
        decimal_value(digits.drop_last()) * 10 + (digits.last() - 48) as nat
    }
}

proof fn lemma_decimal_value_grows(digits: Seq<u8>, k: nat)
    requires
        k <= digits.len(),
        forall|i: int| 0 <= i < digits.len() ==> 48 <= #[trigger] digits[i] <= 57,
    ensures
        decimal_value(digits.take(k as int)) <= decimal_value(digits),
    decreases digits.len() - k,
{
    if k < digits.len() {
        lemma_decimal_value_grows(digits, k + 1);
        assert(digits.take((k + 1) as int).drop_last() =~= digits.take(k as int));
    } else {
        assert(digits.take(k as int) =~= digits);
    }
}

/// The number that the `n` digits from `pos` on denote, if it fits in 64
/// bits with a sign.
pub(crate) fn read_decimal(input: &[u8], pos: usize, n: usize) -> (r: Option<i64>)
    requires
        pos + n <= input.len(),
        forall|i: int| pos <= i < pos + n ==> 48 <= #[trigger] input@[i] <= 57,
    ensures
        match r {
            Some(v) => v == decimal_value(input@.subrange(pos as int, pos + n)),
            None => decimal_value(input@.subrange(pos as int, pos + n)) > i64::MAX,
        },
{
    let ghost digits = input@.subrange(pos as int, pos + n);
    let total = input.len();
    let mut value: i64 = 0;
    let mut i: usize = 0;
    assert(digits.take(0) =~= Seq::<u8>::empty());
    while i < n
        invariant
            i <= n,
            pos + n <= total,
            total == input.len(),
            digits == input@.subrange(pos as int, pos + n),
            forall|k: int| 0 <= k < digits.len() ==> 48 <= #[trigger] digits[k] <= 57,
            0 <= value,
            value == decimal_value(digits.take(i as int)),
        decreases n - i,
    {
        assert(digits[i as int] == input@[pos + i]);
        let d: i64 = (input[pos + i] - 48) as i64;
        proof {
            assert(digits.take(i + 1).drop_last() =~= digits.take(i as int));
            lemma_decimal_value_grows(digits, (i + 1) as nat);
        }
        if value > (i64::MAX - d) / 10 {
            return None;
        }
        value = value * 10 + d;
        i += 1;
    }
    assert(digits.take(n as int) =~= digits);
    Some(value)
}

} // verus!
