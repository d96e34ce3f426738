//! The title in a cartridge header: text of unknown encoding, padded with zeros.
use vstd::prelude::*;
use crate::text;

verus! {

/// Characters of Unicode's general category Cc.
pub open spec fn control(c: char) -> bool {
    c as u32 <= 0x1f || 0x7f <= c as u32 <= 0x9f
}

/// The bytes before the first zero.
pub open spec fn before_zero(bytes: Seq<u8>) -> Seq<u8>
    decreases bytes.len(),
{
    if bytes.len() == 0 || bytes[0] == 0 {
        seq![]
    } else {
        seq![bytes[0]] + before_zero(bytes.drop_first())
    }
}

/// The text of a title once it is decoded: no control characters, no white space around
/// it, and a stand-in where nothing is left.
pub open spec fn tidied(text: Seq<char>) -> Seq<char> {
    let plain = text::trimmed(text.filter(|c: char| !control(c)));
    if plain.len() == 0 {
        "UNTITLED"@
    } else {
        plain
    }
}

/// The title that the header field `raw` holds.
pub open spec fn title_of(raw: Seq<u8>) -> Seq<char> {
    tidied(text::lossy(before_zero(raw)))
}

fn is_control(c: char) -> (yes: bool)
    ensures
        yes == control(c),
{
    let n: u32 = c as u32;
    n <= 0x1f || (0x7f <= n && n <= 0x9f)
}

proof fn lemma_before_zero(bytes: Seq<u8>, end: int)
    requires
        0 <= end <= bytes.len(),
        forall|i: int| 0 <= i < end ==> bytes[i] != 0,
        end == bytes.len() || bytes[end] == 0,
    ensures
        before_zero(bytes) == bytes.take(end),
    decreases bytes.len(),
{
    if end > 0 {
        lemma_before_zero(bytes.drop_first(), end - 1);
        assert(bytes.take(end) =~= seq![bytes[0]] + bytes.drop_first().take(end - 1));
    } else {
        assert(bytes.take(0) =~= seq![]);
    }
}

/// Tidies a decoded title.
pub fn tidy(text: &str) -> (title: String)
    ensures
        title@ == tidied(text@),
{
    let ghost keep = |c: char| !control(c);
    let chars = text::chars_of(text);
    let mut plain: Vec<char> = Vec::new();
    for i in 0..chars.len()
        invariant
            keep == (|c: char| !control(c)),
            plain@ == chars@.take(i as int).filter(keep),
    {
        let c = chars[i];
        proof {
            reveal(Seq::filter);
            assert(chars@.take(i + 1).drop_last() =~= chars@.take(i as int));
        }
        if !is_control(c) {
            plain.push(c);
        }
    }
    assert(chars@.take(chars@.len() as int) =~= chars@);
    let title = text::trim(&plain);
    if title.len() == 0 {
        String::from_str("UNTITLED")
    } else {
        text::string_of(&title)
    }
}

/// Reads the title out of its header field.
pub fn read_title(raw: &[u8]) -> (title: String)
    ensures
        title@ == title_of(raw@),
{
    let mut end: usize = 0;
    while end < raw.len() && raw[end] != 0
        invariant
            end <= raw.len(),
            forall|i: int| 0 <= i < end ==> raw[i] != 0,
        decreases raw.len() - end,
    {
        end += 1;
    }
    proof {
        lemma_before_zero(raw@, end as int);
        assert(raw@.take(end as int) =~= raw@.subrange(0, end as int));
    }
    let text = text::from_utf8_lossy(vstd::slice::slice_subrange(raw, 0, end));
    tidy(text.as_str())
}

} // verus!
