//! Numbers and names as text: what is written reads back, and what is read is what it says.
use vstd::prelude::*;
use crate::cli;
use crate::cli::{Field, Request};
use crate::hw::title;
use crate::text;

verus! {

proof fn lemma_decimal(n: nat)
    ensures
        text::value_of(text::decimal(n), 10) == Some(n as int),
        text::decimal(n).len() > 0,
        text::decimal(n)[0] as u32 >= 0x30,
        text::decimal(n)[0] as u32 <= 0x39,
    decreases n,
{
    let s = text::decimal(n);
    if n < 10 {
        assert(s.drop_last() =~= seq![]);
        assert(text::value_of(s.drop_last(), 10) == Some(0int));
    } else {
        lemma_decimal(n / 10);
        assert(s.drop_last() =~= text::decimal(n / 10));
    }
}

/// A number written in decimal reads back as itself, with or without a plus sign, wherever
/// it is within bounds; and the digits are as many as it needs.
pub proof fn law_decimal(n: nat, max: int)
    ensures
        n <= max ==> text::number(text::decimal(n), 10, max) == Some(n as int),
        n <= max ==> text::number(seq!['+'] + text::decimal(n), 10, max) == Some(n as int),
        n > max ==> text::number(text::decimal(n), 10, max) is None,
        n >= 10 ==> text::decimal(n)[0] != '0',
    decreases n,
{
    lemma_decimal(n);
    assert((seq!['+'] + text::decimal(n)).drop_first() =~= text::decimal(n));
    if n >= 10 {
        lemma_leading(n);
    }
}

proof fn lemma_leading(n: nat)
    requires
        n >= 1,
    ensures
        text::decimal(n)[0] != '0',
        text::decimal(n).len() > 0,
    decreases n,
{
    if n >= 10 {
        lemma_leading(n / 10);
    }
}

/// Reading digits goes from the left: each further one makes the number so far `radix`
/// times as much and adds its own value.
pub proof fn law_digits(digits: Seq<char>, c: char, v: int, d: int, radix: int)
    requires
        text::value_of(digits, radix) == Some(v),
        text::digit_value(c, radix) == Some(d),
    ensures
        text::value_of(digits.push(c), radix) == Some(v * radix + d),
{
    assert(digits.push(c).drop_last() =~= digits);
}

/// The digits: ten in decimal, and in hexadecimal six letters more in either case.
pub proof fn law_digit(c: char)
    ensures
        '0' <= c <= '9' ==> text::digit_value(c, 10) == Some(c as u32 - '0' as u32),
        !('0' <= c <= '9') ==> text::digit_value(c, 10) is None,
        '0' <= c <= '9' ==> text::digit_value(c, 16) == Some(c as u32 - '0' as u32),
        'a' <= c <= 'f' ==> text::digit_value(c, 16) == Some(c as u32 - 'a' as u32 + 10),
        'A' <= c <= 'F' ==> text::digit_value(c, 16) == Some(c as u32 - 'A' as u32 + 10),
        !('0' <= c <= '9' || 'a' <= c <= 'f' || 'A' <= c <= 'F') ==> text::digit_value(c, 16)
            is None,
{
}

/// A byte in hexadecimal is two digits that read back as it.
pub proof fn law_hex(n: u8)
    ensures
        text::hex(n).len() == 2,
        text::value_of(text::hex(n), 16) == Some(n as int),
{
    let s = text::hex(n);
    let one = s.drop_last();
    let none = one.drop_last();
    assert(none =~= seq![]);
    assert(one.last() == s[0]);
    assert(text::value_of(none, 16) == Some(0int));
    assert(text::value_of(one, 16) == Some(n as int / 16));
}

/// An address in hexadecimal is as many digits as asked for behind `0x`, and they read back
/// as it where they are enough.
pub proof fn law_low_hex(n: nat, width: nat)
    ensures
        text::low_hex(n, width).len() == 2 + width,
        text::low_hex(n, width).take(2) == "0x"@,
        n < vstd::arithmetic::power::pow(16, width) ==> text::value_of(
            text::low_hex(n, width).skip(2),
            16,
        ) == Some(n as int),
    decreases width,
{
    reveal_strlit("0x");
    let s = text::low_hex(n, width);
    vstd::arithmetic::power::lemma_pow0(16);
    if width == 0 {
        assert(s.skip(2) =~= seq![]);
        assert(s.take(2) =~= "0x"@);
    } else {
        let m = (width - 1) as nat;
        law_low_hex(n / 16, m);
        let rest = text::low_hex(n / 16, m);
        assert(s.take(2) =~= rest.take(2));
        assert(s.skip(2).drop_last() =~= rest.skip(2));
        assert(s.skip(2).last() == text::low_digit((n % 16) as int));
        vstd::arithmetic::power::lemma_pow_adds(16, 1, m);
        vstd::arithmetic::power::lemma_pow1(16);
        let p = vstd::arithmetic::power::pow(16, m);
        if n < vstd::arithmetic::power::pow(16, width) {
            assert(n < 16 * p);
        }
    }
}

/// The scale that is asked for is kept between one and eight and the volume at most a
/// hundred; a number beyond a byte is refused for either.
#[verifier::rlimit(40)]
pub proof fn law_bounded_options(request: Request, n: nat)
    ensures
        n <= 255 ==> {
            &&& request.given(Field::Scale, text::decimal(n)) matches Ok(next)
            &&& next.settings.scale == (if n < 1 {
                1int
            } else if n > 8 {
                8
            } else {
                n as int
            })
            &&& next.settings.volume == request.settings.volume
        },
        n <= 255 ==> {
            &&& request.given(Field::Volume, text::decimal(n)) matches Ok(next)
            &&& next.settings.volume == (if n > 100 {
                100int
            } else {
                n as int
            })
            &&& next.settings.scale == request.settings.scale
        },
        n <= u32::MAX ==> {
            &&& request.given(Field::SampleRate, text::decimal(n)) matches Ok(next)
            &&& next.settings.sample_rate == n
        },
        n <= usize::MAX ==> {
            &&& request.given(Field::Budget, text::decimal(n)) matches Ok(next)
            &&& next.budget == n
        },
        n > 255 ==> request.given(Field::Scale, text::decimal(n)) is Err && request.given(
            Field::Volume,
            text::decimal(n),
        ) is Err,
{
    law_decimal(n, 255);
    law_decimal(n, u32::MAX as int);
    law_decimal(n, usize::MAX as int);
}

/// Nothing behind the first zero byte of a header's title shows in it.
pub proof fn law_title_ends(a: Seq<u8>, b: Seq<u8>, at: int)
    requires
        0 <= at < a.len(),
        at < b.len(),
        a[at] == 0,
        a.take(at + 1) == b.take(at + 1),
    ensures
        title::title_of(a) == title::title_of(b),
{
    lemma_same_before_zero(a, b, at);
}

proof fn lemma_same_before_zero(a: Seq<u8>, b: Seq<u8>, at: int)
    requires
        0 <= at < a.len(),
        at < b.len(),
        a[at] == 0,
        a.take(at + 1) == b.take(at + 1),
    ensures
        title::before_zero(a) == title::before_zero(b),
    decreases a.len(),
{
    assert(a[0] == a.take(at + 1)[0] && b[0] == b.take(at + 1)[0]);
    if a[0] != 0 {
        let (c, d) = (a.drop_first(), b.drop_first());
        assert(c.take(at) =~= a.take(at + 1).drop_first());
        assert(d.take(at) =~= b.take(at + 1).drop_first());
        lemma_same_before_zero(c, d, at - 1);
    }
}

/// A title is never empty, has no control character in it and no white space at either end.
pub proof fn law_title_is_tidy(raw: Seq<u8>, i: int)
    ensures
        ({
            let t = title::title_of(raw);
            &&& t.len() > 0
            &&& !text::white_space(t[0])
            &&& !text::white_space(t.last())
            &&& 0 <= i < t.len() ==> t[i] as u32 >= 0x20 && !(0x7f <= t[i] as u32 <= 0x9f)
        }),
{
    broadcast use vstd::seq_lib::group_filter_ensures;

    reveal_strlit("UNTITLED");
    let all = text::lossy(title::before_zero(raw));
    let plain = all.filter(|c: char| !title::control(c));
    lemma_trimmed_start(plain);
    lemma_trimmed_end(text::trimmed_start(plain));
    let t = text::trimmed(plain);
    if t.len() > 0 && 0 <= i < t.len() {
        assert(t[i] == text::trimmed_start(plain)[i]);
        let k = plain.len() - text::trimmed_start(plain).len();
        assert(text::trimmed_start(plain)[i] == plain[k + i]);
    }
}

proof fn lemma_trimmed_start(s: Seq<char>)
    ensures
        ({
            let t = text::trimmed_start(s);
            &&& t.len() <= s.len()
            &&& t == s.skip(s.len() - t.len())
            &&& t.len() > 0 ==> !text::white_space(t[0])
        }),
    decreases s.len(),
{
    if s.len() > 0 && text::white_space(s[0]) {
        lemma_trimmed_start(s.drop_first());
        let t = text::trimmed_start(s);
        assert(t =~= s.skip(s.len() - t.len()));
    } else {
        assert(s.skip(0) =~= s);
    }
}

proof fn lemma_trimmed_end(s: Seq<char>)
    ensures
        ({
            let t = text::trimmed_end(s);
            &&& t.len() <= s.len()
            &&& t == s.take(t.len() as int)
            &&& t.len() > 0 ==> !text::white_space(t.last())
        }),
    decreases s.len(),
{
    if s.len() > 0 && text::white_space(s.last()) {
        lemma_trimmed_end(s.drop_last());
        let t = text::trimmed_end(s);
        assert(t =~= s.take(t.len() as int));
    } else {
        assert(s.take(s.len() as int) =~= s);
    }
}

/// White space among the plain characters: the blank, the tab and the four that end a line or
/// a page.
pub proof fn law_white_space(c: char)
    requires
        c as u32 <= 0x7f,
    ensures
        text::white_space(c) <==> c == ' ' || c == '\t' || c == '\n' || c == '\r' || c as u32 == 0x0b
            || c as u32 == 0x0c,
{
}

/// Text is taken apart at its commas and nowhere else: what stands on either side of one
/// comes apart by itself, and what has none stays whole.
pub proof fn law_pieces(a: Seq<char>, b: Seq<char>)
    ensures
        cli::pieces(a + seq![','] + b) == cli::pieces(a) + cli::pieces(b),
        !a.contains(',') ==> cli::pieces(a) == seq![a],
    decreases b.len(),
{
    lemma_some_piece(a);
    if !a.contains(',') {
        lemma_whole(a);
    }
    let all = a + seq![','] + b;
    if b.len() == 0 {
        assert(all.drop_last() =~= a);
        assert(b =~= seq![]);
        assert(cli::pieces(all) =~= cli::pieces(a) + cli::pieces(b));
    } else {
        let rest = b.drop_last();
        assert(all.drop_last() =~= a + seq![','] + rest);
        assert(all.last() == b.last());
        law_pieces(a, rest);
        lemma_some_piece(rest);
        assert(cli::pieces(all) =~= cli::pieces(a) + cli::pieces(b));
    }
}

proof fn lemma_some_piece(s: Seq<char>)
    ensures
        cli::pieces(s).len() > 0,
    decreases s.len(),
{
    if s.len() > 0 {
        lemma_some_piece(s.drop_last());
    }
}

proof fn lemma_whole(s: Seq<char>)
    requires
        !s.contains(','),
    ensures
        cli::pieces(s) == seq![s],
    decreases s.len(),
{
    if s.len() == 0 {
        assert(s =~= seq![]);
    } else {
        let rest = s.drop_last();
        assert(s[s.len() - 1] != ',');
        assert forall|i: int| 0 <= i < rest.len() implies rest[i] != ',' by {
            assert(s[i] == rest[i]);
        }
        lemma_whole(rest);
        assert(rest.push(s.last()) =~= s);
        assert(cli::pieces(s) =~= seq![s]);
    }
}

/// Four shades spelled out with commas between them are the palette, the lightest first.
#[verifier::rlimit(40)]
pub proof fn law_palette(a: Seq<char>, b: Seq<char>, c: Seq<char>, d: Seq<char>)
    requires
        !a.contains(','),
        !b.contains(','),
        !c.contains(','),
        !d.contains(','),
        cli::shade_of(a) is Some,
        cli::shade_of(b) is Some,
        cli::shade_of(c) is Some,
        cli::shade_of(d) is Some,
    ensures
        cli::palette_of(a + seq![','] + (b + seq![','] + (c + seq![','] + d))) == Ok::<
            Seq<u32>,
            Seq<char>,
        >(
            seq![
                cli::shade_of(a)->0 as u32,
                cli::shade_of(b)->0 as u32,
                cli::shade_of(c)->0 as u32,
                cli::shade_of(d)->0 as u32,
            ],
        ),
{
    let cd = c + seq![','] + d;
    let bcd = b + seq![','] + cd;
    let all = a + seq![','] + bcd;
    law_pieces(a, bcd);
    law_pieces(b, cd);
    law_pieces(c, d);
    law_pieces(d, seq![]);
    assert(cli::pieces(all) =~= seq![a, b, c, d]);
    assert(all[a.len() as int] == ',');
    assert(all.contains(','));
    reveal_strlit("grey");
    reveal_strlit("gray");
    reveal_strlit("dmg");
    reveal_strlit("green");
    reveal_strlit("pocket");
    reveal_strlit("light");
    assert(!"grey"@.contains(',') && !"gray"@.contains(',') && !"dmg"@.contains(',')
        && !"green"@.contains(',') && !"pocket"@.contains(',') && !"light"@.contains(','));
}

/// Trimming takes the white space around a text away and nothing of the text.
pub proof fn law_trimmed(left: Seq<char>, s: Seq<char>, right: Seq<char>)
    requires
        s.len() > 0,
        !text::white_space(s[0]),
        !text::white_space(s.last()),
        forall|i: int| 0 <= i < left.len() ==> text::white_space(#[trigger] left[i]),
        forall|i: int| 0 <= i < right.len() ==> text::white_space(#[trigger] right[i]),
    ensures
        text::trimmed(left + s + right) == s,
    decreases left.len() + right.len(),
{
    let all = left + s + right;
    if left.len() > 0 {
        assert(all[0] == left[0]);
        let rest = left.drop_first();
        assert forall|i: int| 0 <= i < rest.len() implies text::white_space(#[trigger] rest[i]) by {
            assert(left[i + 1] == rest[i]);
        }
        assert(all.drop_first() =~= rest + s + right);
        law_trimmed(rest, s, right);
    } else if right.len() > 0 {
        assert(all[0] == s[0]);
        assert(all.last() == right.last());
        let rest = right.drop_last();
        assert(right[right.len() - 1] == right.last());
        assert(all.drop_last() =~= left + s + rest);
        law_trimmed(left, s, rest);
        assert((left + s + rest)[0] == s[0]);
    } else {
        assert(all =~= s);
    }
}

/// Names that were not given come from the cartridge: its title for the window, or the
/// file's name where it has none, and the file's name for the save; given ones stay.
pub proof fn law_names(request: Request, name: Seq<char>, stem: Seq<char>)
    ensures
        ({
            let filled = cli::names_filled(request, name, stem);
            &&& request.title_given ==> filled.title == request.settings.title
            &&& !request.title_given && name.len() > 0 ==> filled.title == name
            &&& !request.title_given && name.len() == 0 ==> filled.title == stem
            &&& request.save_name_given ==> filled.save_name == request.settings.save_name
            &&& !request.save_name_given ==> filled.save_name == stem
            &&& filled.model == request.settings.model
            &&& filled.palette == request.settings.palette
            &&& filled.scale == request.settings.scale
            &&& filled.volume == request.settings.volume
        }),
{
}

/// A shade spelled out is six hexadecimal digits, red, green and blue, whatever hash signs
/// stand before them.
#[verifier::rlimit(40)]
pub proof fn law_shade(r: u8, g: u8, b: u8)
    ensures
        cli::shade_of(seq!['#'] + text::hex(r) + text::hex(g) + text::hex(b)) == Some(
            0x1_0000 * r + 0x100 * g + b,
        ),
        cli::shade_of(text::hex(r) + text::hex(g) + text::hex(b)) == Some(
            0x1_0000 * r + 0x100 * g + b,
        ),
{
    let digits = text::hex(r) + text::hex(g) + text::hex(b);
    let spelled = seq!['#'] + text::hex(r) + text::hex(g) + text::hex(b);
    assert(digits.len() == 6);
    assert(spelled.drop_first() =~= digits);
    assert(text::trimmed_start(digits) == digits);
    assert(text::trimmed_end(digits) == digits);
    assert(text::trimmed_start(spelled) == spelled);
    assert(text::trimmed_end(spelled) == spelled);
    assert(cli::without_hashes(digits) == digits);
    assert(cli::without_hashes(spelled) == cli::without_hashes(digits));
    lemma_six(r, g, b);
}

proof fn lemma_six(r: u8, g: u8, b: u8)
    ensures
        text::value_of(text::hex(r) + text::hex(g) + text::hex(b), 16) == Some(
            0x1_0000 * r + 0x100 * g + b,
        ),
{
    let two = text::hex(r);
    let four = two + text::hex(g);
    let six = four + text::hex(b);
    law_hex(r);
    lemma_two_more(two, r as int, g);
    lemma_two_more(four, 0x100 * r + g, b);
    assert(six =~= text::hex(r) + text::hex(g) + text::hex(b));
}

/// Two hexadecimal digits behind others.
proof fn lemma_two_more(s: Seq<char>, v: int, n: u8)
    requires
        text::value_of(s, 16) == Some(v),
    ensures
        text::value_of(s + text::hex(n), 16) == Some(0x100 * v + n),
{
    let h = text::hex(n);
    let one = s.push(h[0]);
    law_digits(s, h[0], v, n as int / 16, 16);
    law_digits(one, h[1], v * 16 + n as int / 16, n as int % 16, 16);
    assert(s + h =~= one.push(h[1]));
}

} // verus!
