//! How a converted game wants to be shown and heard, and the form that is stored in.
use vstd::prelude::*;
use vstd::utf8;
use crate::bytes;
use crate::hw;
use crate::hw::Config;
use crate::text;

verus! {

#[derive(Debug, Clone, Copy, PartialEq, Eq, Structural)]
pub enum Model {
    Auto,
    Dmg,
    Cgb,
}

impl Model {
    #[verifier::allow_in_spec]
    pub fn to_byte(self) -> u8
        returns
            (match self {
                Model::Auto => 0u8,
                Model::Dmg => 1u8,
                Model::Cgb => 2u8,
            }),
    {
        match self {
            Model::Auto => 0,
            Model::Dmg => 1,
            Model::Cgb => 2,
        }
    }

    #[verifier::allow_in_spec]
    pub fn from_byte(b: u8) -> Self
        returns
            (match b {
                1 => Model::Dmg,
                2 => Model::Cgb,
                _ => Model::Auto,
            }),
    {
        match b {
            1 => Model::Dmg,
            2 => Model::Cgb,
            _ => Model::Auto,
        }
    }

    /// The hardware model that is asked for.
    #[verifier::allow_in_spec]
    pub fn machine(self) -> hw::Model
        returns
            (match self {
                Model::Auto => hw::Model::Auto,
                Model::Dmg => hw::Model::Dmg,
                Model::Cgb => hw::Model::Cgb,
            }),
    {
        match self {
            Model::Auto => hw::Model::Auto,
            Model::Dmg => hw::Model::Dmg,
            Model::Cgb => hw::Model::Cgb,
        }
    }
}

#[derive(Debug, Clone)]
pub struct Settings {
    /// Window title; defaults to the cartridge header title.
    pub title: String,
    /// Base name for the battery save file, without an extension.
    pub save_name: String,
    pub model: Model,
    /// Shades for monochrome games, lightest first, as 0xRRGGBB.
    pub palette: [u32; 4],
    pub scale: u8,
    pub fullscreen: bool,
    pub audio: bool,
    /// 0-100.
    pub volume: u8,
    pub sample_rate: u32,
    /// Keep the 10:9 aspect ratio when the window is resized.
    pub keep_aspect: bool,
}

/// What a [`Settings`] says.
pub struct Choices {
    pub title: Seq<char>,
    pub save_name: Seq<char>,
    pub model: Model,
    pub palette: Seq<u32>,
    pub scale: u8,
    pub fullscreen: bool,
    pub audio: bool,
    pub volume: u8,
    pub sample_rate: u32,
    pub keep_aspect: bool,
}

impl View for Settings {
    type V = Choices;

    open spec fn view(&self) -> Choices {
        Choices {
            title: self.title@,
            save_name: self.save_name@,
            model: self.model,
            palette: self.palette@,
            scale: self.scale,
            fullscreen: self.fullscreen,
            audio: self.audio,
            volume: self.volume,
            sample_rate: self.sample_rate,
            keep_aspect: self.keep_aspect,
        }
    }
}

/// A flag as it is stored.
pub open spec fn flag_byte(on: bool) -> u8 {
    if on {
        1
    } else {
        0
    }
}

/// The longest string, in bytes of UTF-8, that is stored whole.
pub const STRING_MAX: usize = 0xffff;

/// A string as it is stored: the length of its UTF-8, then the bytes. What is longer
/// than the length field can say is cut off.
pub open spec fn string_bytes(s: Seq<char>) -> Seq<u8> {
    let all = utf8::encode_utf8(s);
    let kept = if all.len() <= STRING_MAX {
        all
    } else {
        all.take(STRING_MAX as int)
    };
    bytes::le16(kept.len() as u16) + kept
}

impl Choices {
    pub open spec fn standard() -> Choices {
        Choices {
            title: "Game Boy"@,
            save_name: "game"@,
            model: Model::Auto,
            palette: seq![0xffffffu32, 0xaaaaaa, 0x555555, 0x000000],
            scale: 4,
            fullscreen: false,
            audio: true,
            volume: 70,
            sample_rate: 48_000,
            keep_aspect: true,
        }
    }

    /// The part of the stored form whose size never changes, from the format version on.
    pub open spec fn fixed_part(self) -> Seq<u8> {
        seq![1u8, self.model.to_byte()] + bytes::le32(self.palette[0]) + bytes::le32(
            self.palette[1],
        ) + bytes::le32(self.palette[2]) + bytes::le32(self.palette[3]) + seq![
            self.scale,
            flag_byte(self.fullscreen),
            flag_byte(self.audio),
            self.volume,
        ] + bytes::le32(self.sample_rate) + seq![flag_byte(self.keep_aspect)]
    }

    /// The stored form.
    pub open spec fn encoded(self) -> Seq<u8> {
        self.fixed_part() + string_bytes(self.title) + string_bytes(self.save_name)
    }

    /// Where in `data` the second string's length field lies, behind the first string.
    pub open spec fn second_at(data: Seq<u8>) -> int {
        29 + bytes::from_le16(data, 27)
    }

    /// Whether `data` holds settings: the format version, the fixed part and two whole
    /// strings.
    pub open spec fn readable(data: Seq<u8>) -> bool {
        &&& data.len() >= 29
        &&& data[0] == 1
        &&& data.len() >= Self::second_at(data) + 2
        &&& data.len() >= Self::second_at(data) + 2 + bytes::from_le16(data, Self::second_at(data))
    }

    /// The settings that readable `data` holds.
    pub open spec fn decoded(data: Seq<u8>) -> Choices {
        let second = Self::second_at(data);
        Choices {
            title: text::lossy(data.subrange(29, second)),
            save_name: text::lossy(
                data.subrange(second + 2, second + 2 + bytes::from_le16(data, second)),
            ),
            model: Model::from_byte(data[1]),
            palette: seq![
                bytes::from_le32(data, 2),
                bytes::from_le32(data, 6),
                bytes::from_le32(data, 10),
                bytes::from_le32(data, 14),
            ],
            scale: data[18],
            fullscreen: data[19] != 0,
            audio: data[20] != 0,
            volume: data[21],
            sample_rate: bytes::from_le32(data, 22),
            keep_aspect: data[26] != 0,
        }
    }

    /// The hardware that the settings ask for.
    pub open spec fn config(self) -> (hw::Model, u32, Seq<u32>) {
        (self.model.machine(), self.sample_rate, self.palette)
    }
}

impl Default for Settings {
    fn default() -> (settings: Self)
        ensures
            settings@ == Choices::standard(),
    {
        let settings = Settings {
            title: String::from_str("Game Boy"),
            save_name: String::from_str("game"),
            model: Model::Auto,
            palette: [0xffffff, 0xaaaaaa, 0x555555, 0x000000],
            scale: 4,
            fullscreen: false,
            audio: true,
            volume: 70,
            sample_rate: 48_000,
            keep_aspect: true,
        };
        assert(settings.palette@ =~= Choices::standard().palette);
        settings
    }
}

fn flag(on: bool) -> (b: u8)
    ensures
        b == flag_byte(on),
{
    if on {
        1
    } else {
        0
    }
}

fn write_string(out: &mut Vec<u8>, s: &str)
    ensures
        final(out)@ == old(out)@ + string_bytes(s@),
{
    let all = s.as_bytes();
    let len: usize = if all.len() <= STRING_MAX {
        all.len()
    } else {
        STRING_MAX
    };
    bytes::push_le16(out, len as u16);
    let kept = vstd::slice::slice_subrange(all, 0, len);
    proof {
        assert(all@.subrange(0, len as int) =~= all@.take(len as int));
        if all@.len() <= STRING_MAX {
            assert(all@.take(len as int) =~= all@);
        }
    }
    bytes::push_all(out, kept);
    assert(out@ =~= old(out)@ + string_bytes(s@));
}

/// Reads the string whose length field is at `at`, and says where it ends.
fn read_string(data: &[u8], at: usize) -> (found: Option<(String, usize)>)
    requires
        at <= data@.len(),
    ensures
        match found {
            Some((s, end)) => {
                &&& at + 2 <= data@.len()
                &&& end == at + 2 + bytes::from_le16(data@, at as int)
                &&& end <= data@.len()
                &&& s@ == text::lossy(data@.subrange(at + 2, end as int))
            },
            None => data@.len() < at + 2 || data@.len() < at + 2 + bytes::from_le16(
                data@,
                at as int,
            ),
        },
{
    if data.len() - at < 2 {
        return None;
    }
    let len: usize = bytes::get_le16(data, at) as usize;
    if data.len() - at - 2 < len {
        return None;
    }
    let end: usize = at + 2 + len;
    let s = text::from_utf8_lossy(vstd::slice::slice_subrange(data, at + 2, end));
    Some((s, end))
}

impl Settings {
    /// The settings in their stored form.
    pub fn encode(&self) -> (data: Vec<u8>)
        ensures
            data@ == self@.encoded(),
    {
        let mut out: Vec<u8> = Vec::new();
        out.push(1);  // settings format version
        out.push(self.model.to_byte());
        bytes::push_le32(&mut out, self.palette[0]);
        bytes::push_le32(&mut out, self.palette[1]);
        bytes::push_le32(&mut out, self.palette[2]);
        bytes::push_le32(&mut out, self.palette[3]);
        out.push(self.scale);
        out.push(flag(self.fullscreen));
        out.push(flag(self.audio));
        out.push(self.volume);
        bytes::push_le32(&mut out, self.sample_rate);
        out.push(flag(self.keep_aspect));
        assert(out@ =~= self@.fixed_part());
        write_string(&mut out, self.title.as_str());
        write_string(&mut out, self.save_name.as_str());
        out
    }

    /// Reads stored settings; whatever follows them is ignored.
    pub fn decode(data: &[u8]) -> (found: Option<Settings>)
        ensures
            match found {
                Some(settings) => Choices::readable(data@) && settings@ == Choices::decoded(data@),
                None => !Choices::readable(data@),
            },
    {
        if data.len() < 29 || data[0] != 1 {
            return None;
        }
        let (title, end) = match read_string(data, 27) {
            Some(found) => found,
            None => return None,
        };
        let (save_name, _) = match read_string(data, end) {
            Some(found) => found,
            None => return None,
        };
        let settings = Settings {
            title,
            save_name,
            model: Model::from_byte(data[1]),
            palette: [
                bytes::get_le32(data, 2),
                bytes::get_le32(data, 6),
                bytes::get_le32(data, 10),
                bytes::get_le32(data, 14),
            ],
            scale: data[18],
            fullscreen: data[19] != 0,
            audio: data[20] != 0,
            volume: data[21],
            sample_rate: bytes::get_le32(data, 22),
            keep_aspect: data[26] != 0,
        };
        assert(settings.palette@ =~= Choices::decoded(data@).palette);
        Some(settings)
    }

    /// The hardware that the settings ask for.
    pub fn config(&self) -> (config: Config)
        ensures
            (config.model, config.sample_rate, config.dmg_palette@) == self@.config(),
    {
        Config {
            model: self.model.machine(),
            sample_rate: self.sample_rate,
            dmg_palette: self.palette,
        }
    }
}

proof fn lemma_field(data: Seq<u8>, fixed: Seq<u8>, at: int, x: u32)
    requires
        data.len() >= 27,
        data.take(27) == fixed,
        0 <= at <= 23,
        fixed.subrange(at, at + 4) == bytes::le32(x),
    ensures
        bytes::from_le32(data, at) == x,
{
    assert(data.subrange(at, at + 4) =~= data.take(27).subrange(at, at + 4));
    bytes::lemma_le32_round_trip(data, at, x);
}

proof fn lemma_fixed_part(choices: Choices)
    ensures
        choices.fixed_part().len() == 27,
        choices.fixed_part().subrange(2, 6) == bytes::le32(choices.palette[0]),
        choices.fixed_part().subrange(6, 10) == bytes::le32(choices.palette[1]),
        choices.fixed_part().subrange(10, 14) == bytes::le32(choices.palette[2]),
        choices.fixed_part().subrange(14, 18) == bytes::le32(choices.palette[3]),
        choices.fixed_part().subrange(22, 26) == bytes::le32(choices.sample_rate),
{
    let fixed = choices.fixed_part();
    assert(fixed.subrange(2, 6) =~= bytes::le32(choices.palette[0]));
    assert(fixed.subrange(6, 10) =~= bytes::le32(choices.palette[1]));
    assert(fixed.subrange(10, 14) =~= bytes::le32(choices.palette[2]));
    assert(fixed.subrange(14, 18) =~= bytes::le32(choices.palette[3]));
    assert(fixed.subrange(22, 26) =~= bytes::le32(choices.sample_rate));
}

proof fn lemma_fixed_bytes(choices: Choices)
    ensures
        choices.fixed_part()[0] == 1,
        choices.fixed_part()[1] == choices.model.to_byte(),
        choices.fixed_part()[18] == choices.scale,
        choices.fixed_part()[19] == flag_byte(choices.fullscreen),
        choices.fixed_part()[20] == flag_byte(choices.audio),
        choices.fixed_part()[21] == choices.volume,
        choices.fixed_part()[26] == flag_byte(choices.keep_aspect),
{
}

/// A string that fits its length field reads back from wherever it was put.
proof fn lemma_string(data: Seq<u8>, at: int, s: Seq<char>)
    requires
        utf8::encode_utf8(s).len() <= STRING_MAX,
        0 <= at,
        at + string_bytes(s).len() <= data.len(),
        data.subrange(at, at + string_bytes(s).len()) == string_bytes(s),
    ensures
        string_bytes(s).len() == 2 + utf8::encode_utf8(s).len(),
        bytes::from_le16(data, at) == utf8::encode_utf8(s).len(),
        text::lossy(data.subrange(at + 2, at + 2 + utf8::encode_utf8(s).len())) == s,
{
    let all = utf8::encode_utf8(s);
    let here = data.subrange(at, at + string_bytes(s).len());
    assert(data.subrange(at, at + 2) =~= here.subrange(0, 2));
    assert(here.subrange(0, 2) =~= bytes::le16(all.len() as u16));
    bytes::lemma_le16_round_trip(data, at, all.len() as u16);
    assert(data.subrange(at + 2, at + 2 + all.len()) =~= here.subrange(2, 2 + all.len() as int));
    assert(here.subrange(2, 2 + all.len() as int) =~= all);
    utf8::encode_utf8_valid_utf8(s);
    utf8::encode_utf8_decode_utf8(s);
}

/// Settings survive being stored and read back, whatever bytes follow them, as long as
/// their strings fit the length field.
pub proof fn law_settings_survive(choices: Choices, rest: Seq<u8>)
    requires
        choices.palette.len() == 4,
        utf8::encode_utf8(choices.title).len() <= STRING_MAX,
        utf8::encode_utf8(choices.save_name).len() <= STRING_MAX,
    ensures
        Choices::readable(choices.encoded() + rest),
        Choices::decoded(choices.encoded() + rest) == choices,
{
    let fixed = choices.fixed_part();
    lemma_fixed_part(choices);
    lemma_fixed_bytes(choices);
    let title = string_bytes(choices.title);
    let save = string_bytes(choices.save_name);
    let data = choices.encoded() + rest;
    lemma_pieces(fixed, title, save, rest);
    lemma_field(data, fixed, 2, choices.palette[0]);
    lemma_field(data, fixed, 6, choices.palette[1]);
    lemma_field(data, fixed, 10, choices.palette[2]);
    lemma_field(data, fixed, 14, choices.palette[3]);
    lemma_field(data, fixed, 22, choices.sample_rate);
    lemma_string(data, 27, choices.title);
    lemma_string(data, 27 + title.len() as int, choices.save_name);
    assert(Choices::decoded(data).palette =~= choices.palette);
    assert(forall|i: int| 0 <= i < 27 ==> #[trigger] data.take(27)[i] == data[i]);
    assert(data[0] == fixed[0] && data[1] == fixed[1] && data[18] == fixed[18] && data[19]
        == fixed[19] && data[20] == fixed[20] && data[21] == fixed[21] && data[26] == fixed[26]);
}

/// Settings that are cut short anywhere, or are of another format version, are refused.
pub proof fn law_damaged_settings_are_refused(choices: Choices, n: int, data: Seq<u8>)
    requires
        choices.palette.len() == 4,
        utf8::encode_utf8(choices.title).len() <= STRING_MAX,
        utf8::encode_utf8(choices.save_name).len() <= STRING_MAX,
        0 <= n < choices.encoded().len(),
    ensures
        !Choices::readable(choices.encoded().take(n)),
        data.len() == 0 || data[0] != 1 ==> !Choices::readable(data),
{
    let fixed = choices.fixed_part();
    let title = string_bytes(choices.title);
    let save = string_bytes(choices.save_name);
    let whole = choices.encoded();
    let cut = whole.take(n);
    let second = 27 + title.len() as int;
    lemma_fixed_part(choices);
    lemma_pieces(fixed, title, save, seq![]);
    assert(whole + Seq::<u8>::empty() =~= whole);
    lemma_string(whole, 27, choices.title);
    lemma_string(whole, second, choices.save_name);
    if n >= 29 {
        assert(cut.subrange(27, 29) =~= whole.subrange(27, 29));
        lemma_same_le16(cut, whole, 27);
        if n >= second + 2 {
            assert(cut.subrange(second, second + 2) =~= whole.subrange(second, second + 2));
            lemma_same_le16(cut, whole, second);
        }
    }
}

proof fn lemma_same_le16(a: Seq<u8>, b: Seq<u8>, at: int)
    requires
        0 <= at,
        at + 2 <= a.len(),
        at + 2 <= b.len(),
        a.subrange(at, at + 2) == b.subrange(at, at + 2),
    ensures
        bytes::from_le16(a, at) == bytes::from_le16(b, at),
{
    let x = a.subrange(at, at + 2);
    let y = b.subrange(at, at + 2);
    assert(x[0] == a[at] && x[1] == a[at + 1]);
    assert(y[0] == b[at] && y[1] == b[at + 1]);
}

/// How long stored settings are.
pub proof fn lemma_encoded_len(choices: Choices)
    ensures
        choices.encoded().len() <= 27 + 2 * (2 + STRING_MAX),
{
    lemma_fixed_part(choices);
}

proof fn lemma_pieces(fixed: Seq<u8>, title: Seq<u8>, save: Seq<u8>, rest: Seq<u8>)
    requires
        fixed.len() == 27,
    ensures
        ({
            let data = fixed + title + save + rest;
            let second = 27 + title.len() as int;
            &&& data.take(27) == fixed
            &&& data.subrange(27, second) == title
            &&& data.subrange(second, second + save.len()) == save
        }),
{
    let data = fixed + title + save + rest;
    let second = 27 + title.len() as int;
    assert(data.take(27) =~= fixed);
    assert(data.subrange(27, second) =~= title);
    assert(data.subrange(second, second + save.len()) =~= save);
}

} // verus!
