//! Text: numbers written out, and bytes read as characters.
use vstd::prelude::*;

verus! {

/// `String::push` appends its character to the string.
pub assume_specification[ String::push ](s: &mut String, c: char)
    ensures
        final(s)@ == old(s)@.push(c),
;

/// The text that the standard library's lossy decoding makes of `bytes` that are not
/// valid UTF-8.
pub uninterp spec fn repaired(bytes: Seq<u8>) -> Seq<char>;

/// The text that `bytes` are read as: what they encode, where they are valid UTF-8.
pub open spec fn lossy(bytes: Seq<u8>) -> Seq<char> {
    if vstd::utf8::valid_utf8(bytes) {
        vstd::utf8::decode_utf8(bytes)
    } else {
        repaired(bytes)
    }
}

/// `String::from_utf8_lossy`: a function of the bytes alone. Valid UTF-8 is decoded as
/// it stands; what malformed sequences turn into is left to the name.
#[verifier::external_body]
pub(crate) fn from_utf8_lossy(bytes: &[u8]) -> (text: String)
    ensures
        vstd::utf8::valid_utf8(bytes@) ==> text@ == vstd::utf8::decode_utf8(bytes@),
        !vstd::utf8::valid_utf8(bytes@) ==> text@ == repaired(bytes@),
{
    String::from_utf8_lossy(bytes).into_owned()
}

/// The digit that stands for `d`, from 0 to 15, upper case.
pub open spec fn digit(d: int) -> char {
    if d < 10 {
        (0x30 + d) as char
    } else {
        (0x41 + d - 10) as char
    }
}

/// `n` in decimal, without leading zeros.
pub open spec fn decimal(n: nat) -> Seq<char>
    decreases n,
{
    if n < 10 {
        seq![digit(n as int)]
    } else {
        decimal(n / 10).push(digit((n % 10) as int))
    }
}

/// `n` as two upper-case hexadecimal digits.
pub open spec fn hex(n: u8) -> Seq<char> {
    seq![digit(n as int / 16), digit(n as int % 16)]
}

/// The lower-case digit that stands for `d`, from 0 to 15.
pub open spec fn low_digit(d: int) -> char {
    if d < 10 {
        (0x30 + d) as char
    } else {
        (0x61 + d - 10) as char
    }
}

/// `n` as `0x` and `width` lower-case hexadecimal digits.
pub open spec fn low_hex(n: nat, width: nat) -> Seq<char>
    decreases width,
{
    if width == 0 {
        "0x"@
    } else {
        low_hex(n / 16, (width - 1) as nat).push(low_digit((n % 16) as int))
    }
}

/// Appends `n` as `0x` and `width` lower-case hexadecimal digits.
pub fn push_low_hex(out: &mut String, n: u16, width: usize)
    ensures
        final(out)@ == old(out)@ + low_hex(n as nat, width as nat),
    decreases width,
{
    if width == 0 {
        out.append("0x");
    } else {
        push_low_hex(out, n / 16, width - 1);
        let d: u8 = (n % 16) as u8;
        let c: u8 = if d < 10 {
            0x30 + d
        } else {
            0x61 + (d - 10)
        };
        out.push(c as char);
    }
    assert(out@ =~= old(out)@ + low_hex(n as nat, width as nat));
}

fn push_digit(out: &mut String, d: u8)
    requires
        d < 16,
    ensures
        final(out)@ == old(out)@.push(digit(d as int)),
{
    let c: u8 = if d < 10 {
        0x30 + d
    } else {
        0x41 + (d - 10)
    };
    out.push(c as char);
}

/// Appends `n` in decimal.
pub fn push_decimal(out: &mut String, n: usize)
    ensures
        final(out)@ == old(out)@ + decimal(n as nat),
    decreases n,
{
    if n >= 10 {
        push_decimal(out, n / 10);
    }
    push_digit(out, (n % 10) as u8);
}

/// Appends `n` as two upper-case hexadecimal digits.
pub fn push_hex(out: &mut String, n: u8)
    ensures
        final(out)@ == old(out)@ + hex(n),
{
    push_digit(out, n / 16);
    push_digit(out, n % 16);
}

/// Characters with Unicode's White_Space property.
pub open spec fn white_space(c: char) -> bool {
    let n = c as u32;
    ||| 0x09 <= n <= 0x0d
    ||| n == 0x20
    ||| n == 0x85
    ||| n == 0xa0
    ||| n == 0x1680
    ||| 0x2000 <= n <= 0x200a
    ||| n == 0x2028
    ||| n == 0x2029
    ||| n == 0x202f
    ||| n == 0x205f
    ||| n == 0x3000
}

/// `text` without its leading white space.
pub open spec fn trimmed_start(text: Seq<char>) -> Seq<char>
    decreases text.len(),
{
    if text.len() > 0 && white_space(text[0]) {
        trimmed_start(text.drop_first())
    } else {
        text
    }
}

/// `text` without its trailing white space.
pub open spec fn trimmed_end(text: Seq<char>) -> Seq<char>
    decreases text.len(),
{
    if text.len() > 0 && white_space(text.last()) {
        trimmed_end(text.drop_last())
    } else {
        text
    }
}

/// `text` without the white space around it.
pub open spec fn trimmed(text: Seq<char>) -> Seq<char> {
    trimmed_end(trimmed_start(text))
}

fn is_white_space(c: char) -> (yes: bool)
    ensures
        yes == white_space(c),
{
    let n: u32 = c as u32;
    (0x09 <= n && n <= 0x0d) || n == 0x20 || n == 0x85 || n == 0xa0 || n == 0x1680 || (0x2000 <= n
        && n <= 0x200a) || n == 0x2028 || n == 0x2029 || n == 0x202f || n == 0x205f || n == 0x3000
}

/// The characters of `text`.
pub fn chars_of(text: &str) -> (chars: Vec<char>)
    ensures
        chars@ == text@,
{
    let len: usize = text.unicode_len();
    let mut chars: Vec<char> = Vec::new();
    for i in 0..len
        invariant
            len == text@.len(),
            chars@ == text@.take(i as int),
    {
        chars.push(text.get_char(i));
        assert(chars@ =~= text@.take(i + 1));
    }
    assert(text@.take(len as int) =~= text@);
    chars
}

/// `chars` as a string.
pub fn string_of(chars: &Vec<char>) -> (text: String)
    ensures
        text@ == chars@,
{
    let mut text: String = String::new();
    for i in 0..chars.len()
        invariant
            text@ == chars@.take(i as int),
    {
        text.push(chars[i]);
        assert(text@ =~= chars@.take(i + 1));
    }
    assert(chars@.take(chars@.len() as int) =~= chars@);
    text
}

/// Whether `a` and `b` are the same text.
pub fn same(a: &str, b: &str) -> (yes: bool)
    ensures
        yes == (a@ == b@),
{
    let x = chars_of(a);
    let y = chars_of(b);
    if x.len() != y.len() {
        return false;
    }
    for i in 0..x.len()
        invariant
            x@ == a@,
            y@ == b@,
            x@.len() == y@.len(),
            forall|j: int| 0 <= j < i ==> x@[j] == y@[j],
    {
        if x[i] != y[i] {
            return false;
        }
    }
    assert(x@ =~= y@);
    true
}

/// Removes the white space around a text.
pub fn trim(text: &Vec<char>) -> (plain: Vec<char>)
    ensures
        plain@ == trimmed(text@),
{
    assert(text@.skip(0) =~= text@);
    let mut from: usize = 0;
    while from < text.len() && is_white_space(text[from])
        invariant
            from <= text.len(),
            trimmed_start(text@) == trimmed_start(text@.skip(from as int)),
        decreases text.len() - from,
    {
        assert(text@.skip(from as int).drop_first() =~= text@.skip(from + 1));
        from += 1;
    }
    let ghost rest = text@.skip(from as int);
    let mut to: usize = text.len();
    assert(rest.take(to - from) =~= rest);
    while from < to && is_white_space(text[to - 1])
        invariant
            from <= to <= text.len(),
            rest == text@.skip(from as int),
            trimmed_end(rest) == trimmed_end(rest.take(to - from)),
        decreases to,
    {
        assert(rest.take(to - from).drop_last() =~= rest.take(to - from - 1));
        to -= 1;
    }
    let mut plain: Vec<char> = Vec::new();
    for i in from..to
        invariant
            from <= to <= text.len(),
            rest == text@.skip(from as int),
            plain@ == rest.take(i - from),
    {
        plain.push(text[i]);
        assert(plain@ =~= rest.take(i + 1 - from));
    }
    plain
}

// ---- numbers -------------------------------------------------------------

/// The value of a digit, where `c` is one in the base `radix`, 10 or 16.
pub open spec fn digit_value(c: char, radix: int) -> Option<int> {
    let n = c as u32;
    let v = if 0x30 <= n <= 0x39 {
        n - 0x30
    } else if 0x61 <= n <= 0x66 {
        n - 0x61 + 10
    } else if 0x41 <= n <= 0x46 {
        n - 0x41 + 10
    } else {
        99
    };
    if v < radix {
        Some(v)
    } else {
        None
    }
}

/// The number that a row of digits stands for.
pub open spec fn value_of(digits: Seq<char>, radix: int) -> Option<int>
    decreases digits.len(),
{
    if digits.len() == 0 {
        Some(0)
    } else {
        match (value_of(digits.drop_last(), radix), digit_value(digits.last(), radix)) {
            (Some(v), Some(d)) => Some(v * radix + d),
            _ => None,
        }
    }
}

/// The number, at most `max`, that `text` stands for: at least one digit, and one plus
/// sign may stand in front.
pub open spec fn number(text: Seq<char>, radix: int, max: int) -> Option<int> {
    let digits = if text.len() > 0 && text[0] == '+' {
        text.drop_first()
    } else {
        text
    };
    match value_of(digits, radix) {
        Some(v) => if digits.len() > 0 && v <= max {
            Some(v)
        } else {
            None
        },
        None => None,
    }
}

fn digit_of(c: char, radix: u64) -> (value: Option<u64>)
    requires
        radix <= 16,
    ensures
        match value {
            Some(v) => digit_value(c, radix as int) == Some(v as int) && v < 16,
            None => digit_value(c, radix as int) is None,
        },
{
    let n: u32 = c as u32;
    let v: u32 = if 0x30 <= n && n <= 0x39 {
        n - 0x30
    } else if 0x61 <= n && n <= 0x66 {
        n - 0x61 + 10
    } else if 0x41 <= n && n <= 0x46 {
        n - 0x41 + 10
    } else {
        99
    };
    if (v as u64) < radix {
        Some(v as u64)
    } else {
        None
    }
}

/// What is read as a number is never negative.
pub proof fn lemma_value_nonnegative(digits: Seq<char>, radix: int)
    requires
        radix == 10 || radix == 16,
    ensures
        value_of(digits, radix) matches Some(v) ==> v >= 0,
    decreases digits.len(),
{
    if digits.len() > 0 {
        lemma_value_nonnegative(digits.drop_last(), radix);
    }
}

/// A row of digits stands for less than the next power of the radix.
pub proof fn lemma_value_bound(digits: Seq<char>, radix: int)
    requires
        radix >= 1,
    ensures
        value_of(digits, radix) matches Some(v) ==> v < vstd::arithmetic::power::pow(
            radix,
            digits.len(),
        ),
    decreases digits.len(),
{
    reveal(vstd::arithmetic::power::pow);
    if digits.len() > 0 {
        lemma_value_bound(digits.drop_last(), radix);
        if let Some(v) = value_of(digits, radix) {
            let front = value_of(digits.drop_last(), radix)->0;
            let weight = vstd::arithmetic::power::pow(radix, digits.drop_last().len());
            assert(front * radix + (radix - 1) < radix * weight) by (nonlinear_arith)
                requires
                    front < weight,
                    radix >= 1,
            ;
        }
    }
}

/// Every character of a number is a digit.
pub proof fn lemma_value_digits(digits: Seq<char>, radix: int, i: int)
    requires
        0 <= i < digits.len(),
    ensures
        value_of(digits, radix) is Some ==> digit_value(digits[i], radix) is Some,
    decreases digits.len(),
{
    if i < digits.len() - 1 {
        lemma_value_digits(digits.drop_last(), radix, i);
    }
}

/// A row of digits stands for at least what any shorter row it starts with does.
proof fn lemma_value_grows(digits: Seq<char>, radix: int, n: int, max: int)
    requires
        0 <= n <= digits.len(),
        radix == 10 || radix == 16,
        max >= 0,
        value_of(digits.take(n), radix) is None || value_of(digits.take(n), radix)->0 > max,
    ensures
        value_of(digits, radix) is None || value_of(digits, radix)->0 > max,
    decreases digits.len() - n,
{
    if n == digits.len() {
        assert(digits.take(n) =~= digits);
    } else {
        assert(digits.take(n + 1).drop_last() =~= digits.take(n));
        lemma_value_grows(digits, radix, n + 1, max);
    }
}

/// Reads a number of at most `max`, in base 10 or 16.
pub fn read_number(text: &Vec<char>, radix: u64, max: u64) -> (value: Option<u64>)
    requires
        radix == 10 || radix == 16,
    ensures
        match value {
            Some(v) => number(text@, radix as int, max as int) == Some(v as int),
            None => number(text@, radix as int, max as int) is None,
        },
{
    let start: usize = if text.len() > 0 && text[0] == '+' {
        1
    } else {
        0
    };
    let ghost digits = text@.skip(start as int);
    assert(start == 0 ==> digits =~= text@);
    assert(start == 1 ==> digits =~= text@.drop_first());
    if start == text.len() {
        return None;
    }
    let mut acc: u64 = 0;
    for i in start..text.len()
        invariant
            start <= i <= text@.len(),
            radix == 10 || radix == 16,
            digits == text@.skip(start as int),
            acc <= max,
            value_of(digits.take(i - start), radix as int) == Some(acc as int),
            number(text@, radix as int, max as int) == match value_of(digits, radix as int) {
                Some(v) => if digits.len() > 0 && v <= max {
                    Some(v)
                } else {
                    None
                },
                None => None,
            },
    {
        proof {
            assert(digits.take(i + 1 - start).drop_last() =~= digits.take(i - start));
        }
        let d: u64 = match digit_of(text[i], radix) {
            Some(d) => d,
            None => {
                proof {
                    lemma_value_grows(digits, radix as int, i + 1 - start, max as int);
                }
                return None;
            },
        };
        let room: u64 = max / radix;
        if acc > room || (acc == room && d > max % radix) {
            proof {
                assert(acc * radix + d > max) by {
                    if radix == 10 {
                        assert(max == room * 10 + max % 10);
                    } else {
                        assert(max == room * 16 + max % 16);
                    }
                }
                lemma_value_grows(digits, radix as int, i + 1 - start, max as int);
            }
            return None;
        }
        assert(acc * radix + d <= max);
        acc = acc * radix + d;
    }
    assert(digits.take(text@.len() - start) =~= digits);
    Some(acc)
}

} // verus!
