//! The converter's command line: what it is asked for, and what it says back.
use vstd::prelude::*;
use crate::hw::cartridge::{CartridgeInfo, CgbSupport, Header, MbcKind};
use crate::hw::ppu::{PALETTE_DMG, PALETTE_GREY, PALETTE_LIGHT, PALETTE_POCKET};
use crate::payload::settings::{Choices, Model, Settings};
use crate::text;

verus! {

/// How much of the cartridge to translate before it runs.
#[derive(Debug, Clone, Copy, PartialEq, Eq, Structural)]
pub enum Aot {
    /// Nothing; everything is translated the first time it is reached.
    Off,
    /// Only the bank that is always mapped, where addresses are unambiguous.
    Fixed,
    /// Also try each banked entry point against every bank it might belong to.
    Full,
}

#[derive(Debug)]
pub struct Options {
    pub rom_path: String,
    pub output: Option<String>,
    pub stub: Option<String>,
    pub settings: Settings,
    /// Whether the settings' title was asked for.
    pub title_given: bool,
    /// Whether the settings' save name was asked for.
    pub save_name_given: bool,
    pub budget: usize,
    pub aot: Aot,
    pub verify: Option<usize>,
    pub verbose: bool,
}

/// What an [`Options`] asks for, or what has been asked for so far. The ROM is missing
/// until it has been named.
pub struct Request {
    pub rom_path: Option<Seq<char>>,
    pub output: Option<Seq<char>>,
    pub stub: Option<Seq<char>>,
    pub settings: Choices,
    pub title_given: bool,
    pub save_name_given: bool,
    pub budget: int,
    pub aot: Aot,
    pub verify: Option<int>,
    pub verbose: bool,
}

impl View for Options {
    type V = Request;

    open spec fn view(&self) -> Request {
        Request {
            rom_path: Some(self.rom_path@),
            output: text_of(self.output),
            stub: text_of(self.stub),
            settings: self.settings@,
            title_given: self.title_given,
            save_name_given: self.save_name_given,
            budget: self.budget as int,
            aot: self.aot,
            verify: match self.verify {
                Some(n) => Some(n as int),
                None => None,
            },
            verbose: self.verbose,
        }
    }
}

pub open spec fn text_of(s: Option<String>) -> Option<Seq<char>> {
    match s {
        Some(s) => Some(s@),
        None => None,
    }
}

/// An option that takes a value.
#[derive(Debug, Clone, Copy, PartialEq, Eq, Structural)]
pub enum Field {
    Output,
    Stub,
    Title,
    SaveName,
    Aot,
    Model,
    Palette,
    Scale,
    Volume,
    SampleRate,
    Budget,
}

/// What an argument is.
#[derive(Debug, Clone, Copy, PartialEq, Eq, Structural)]
pub enum Word {
    Help,
    Takes(Field),
    Stretch,
    NoAudio,
    NoAot,
    Verbose,
    Verify,
    Unknown,
    Path,
}

/// What the argument `arg` is. An unknown word is an option if it starts with a dash and
/// is not one.
pub open spec fn word_of(arg: Seq<char>) -> Word {
    if arg == "-h"@ || arg == "--help"@ {
        Word::Help
    } else if arg == "-o"@ || arg == "--output"@ {
        Word::Takes(Field::Output)
    } else if arg == "--stub"@ {
        Word::Takes(Field::Stub)
    } else if arg == "--title"@ {
        Word::Takes(Field::Title)
    } else if arg == "--save-name"@ {
        Word::Takes(Field::SaveName)
    } else if arg == "--stretch"@ {
        Word::Stretch
    } else if arg == "--no-audio"@ {
        Word::NoAudio
    } else if arg == "--no-aot"@ {
        Word::NoAot
    } else if arg == "--aot"@ {
        Word::Takes(Field::Aot)
    } else if arg == "-v"@ || arg == "--verbose"@ {
        Word::Verbose
    } else if arg == "--model"@ {
        Word::Takes(Field::Model)
    } else if arg == "--palette"@ {
        Word::Takes(Field::Palette)
    } else if arg == "--scale"@ {
        Word::Takes(Field::Scale)
    } else if arg == "--volume"@ {
        Word::Takes(Field::Volume)
    } else if arg == "--sample-rate"@ {
        Word::Takes(Field::SampleRate)
    } else if arg == "--budget"@ {
        Word::Takes(Field::Budget)
    } else if arg == "--verify"@ {
        Word::Verify
    } else if arg.len() > 1 && arg[0] == '-' {
        Word::Unknown
    } else {
        Word::Path
    }
}

/// The name that an option is called by when its value is missing.
pub open spec fn name_of(field: Field) -> Seq<char> {
    match field {
        Field::Output => "--output"@,
        Field::Stub => "--stub"@,
        Field::Title => "--title"@,
        Field::SaveName => "--save-name"@,
        Field::Aot => "--aot"@,
        Field::Model => "--model"@,
        Field::Palette => "--palette"@,
        Field::Scale => "--scale"@,
        Field::Volume => "--volume"@,
        Field::SampleRate => "--sample-rate"@,
        Field::Budget => "--budget"@,
    }
}

/// A text in quotes, with whatever is not plain in it escaped, as the standard library's
/// debug formatting writes it.
pub uninterp spec fn quoted(text: Seq<char>) -> Seq<char>;

/// `format!` with `{:?}` on a string: a function of the text alone, left to the name.
#[verifier::external_body]
fn quote(text: &str) -> (out: String)
    ensures
        out@ == quoted(text@),
{
    format!("{text:?}")
}

// ---- palettes ------------------------------------------------------------

/// `s` split at every comma.
pub open spec fn pieces(s: Seq<char>) -> Seq<Seq<char>>
    decreases s.len(),
{
    if s.len() == 0 {
        seq![seq![]]
    } else {
        let rest = pieces(s.drop_last());
        if s.last() == ',' {
            rest.push(seq![])
        } else {
            rest.drop_last().push(rest.last().push(s.last()))
        }
    }
}

/// `s` without the hash signs it starts with.
pub open spec fn without_hashes(s: Seq<char>) -> Seq<char>
    decreases s.len(),
{
    if s.len() > 0 && s[0] == '#' {
        without_hashes(s.drop_first())
    } else {
        s
    }
}

/// The colour that one part of a custom palette stands for: six hex digits, with any
/// number of hash signs before them.
pub open spec fn shade_of(part: Seq<char>) -> Option<int> {
    let digits = without_hashes(text::trimmed(part));
    if digits.len() == 6 {
        text::value_of(digits, 16)
    } else {
        None
    }
}

/// The palette that `spec` names or spells out, or what is wrong with it.
pub open spec fn palette_of(spec: Seq<char>) -> Result<Seq<u32>, Seq<char>> {
    let parts = pieces(spec);
    if spec == "grey"@ || spec == "gray"@ {
        Ok(PALETTE_GREY@)
    } else if spec == "dmg"@ || spec == "green"@ {
        Ok(PALETTE_DMG@)
    } else if spec == "pocket"@ {
        Ok(PALETTE_POCKET@)
    } else if spec == "light"@ {
        Ok(PALETTE_LIGHT@)
    } else if parts.len() != 4 {
        Err("--palette wants a name or four RRGGBB values, got "@ + quoted(spec))
    } else if shade_of(parts[0]) is None {
        Err(quoted(parts[0]) + " is not a six-digit hex colour"@)
    } else if shade_of(parts[1]) is None {
        Err(quoted(parts[1]) + " is not a six-digit hex colour"@)
    } else if shade_of(parts[2]) is None {
        Err(quoted(parts[2]) + " is not a six-digit hex colour"@)
    } else if shade_of(parts[3]) is None {
        Err(quoted(parts[3]) + " is not a six-digit hex colour"@)
    } else {
        Ok(
            seq![
                shade_of(parts[0])->0 as u32,
                shade_of(parts[1])->0 as u32,
                shade_of(parts[2])->0 as u32,
                shade_of(parts[3])->0 as u32,
            ],
        )
    }
}

spec fn views(parts: Seq<Vec<char>>) -> Seq<Seq<char>> {
    Seq::new(parts.len(), |i: int| parts[i]@)
}

fn split(s: &Vec<char>) -> (parts: Vec<Vec<char>>)
    ensures
        views(parts@) == pieces(s@),
{
    let mut parts: Vec<Vec<char>> = Vec::new();
    let mut last: Vec<char> = Vec::new();
    assert(views(parts@).push(last@) =~= pieces(s@.take(0)));
    for i in 0..s.len()
        invariant
            views(parts@).push(last@) == pieces(s@.take(i as int)),
    {
        assert(s@.take(i + 1).drop_last() =~= s@.take(i as int));
        let c = s[i];
        let ghost before = views(parts@).push(last@);
        assert(before.drop_last() =~= views(parts@));
        assert(before.last() == last@);
        if c == ',' {
            let mut done: Vec<char> = Vec::new();
            std::mem::swap(&mut done, &mut last);
            parts.push(done);
            assert(views(parts@) =~= before);
            assert(last@ =~= seq![]);
        } else {
            last.push(c);
        }
        assert(views(parts@).push(last@) =~= pieces(s@.take(i + 1)));
    }
    assert(s@.take(s@.len() as int) =~= s@);
    let ghost before = views(parts@);
    parts.push(last);
    assert(views(parts@) =~= before.push(last@));
    parts
}

fn strip_hashes(s: &Vec<char>) -> (rest: Vec<char>)
    ensures
        rest@ == without_hashes(s@),
{
    let mut from: usize = 0;
    assert(s@.skip(0) =~= s@);
    while from < s.len() && s[from] == '#'
        invariant
            from <= s@.len(),
            without_hashes(s@) == without_hashes(s@.skip(from as int)),
        decreases s@.len() - from,
    {
        assert(s@.skip(from as int).drop_first() =~= s@.skip(from + 1));
        from += 1;
    }
    let mut rest: Vec<char> = Vec::new();
    for i in from..s.len()
        invariant
            from <= i <= s@.len(),
            rest@ == s@.subrange(from as int, i as int),
    {
        rest.push(s[i]);
        assert(rest@ =~= s@.subrange(from as int, i + 1));
    }
    assert(rest@ =~= s@.skip(from as int));
    rest
}

/// The colour that one part of a custom palette stands for, or the complaint about it.
fn read_shade(part: &Vec<char>) -> (shade: Result<u32, String>)
    ensures
        match shade {
            Ok(rgb) => shade_of(part@) == Some(rgb as int),
            Err(message) => shade_of(part@) is None && message@ == quoted(part@)
                + " is not a six-digit hex colour"@,
        },
{
    let digits = strip_hashes(&text::trim(part));
    let rgb: Option<u64> = if digits.len() == 6 && digits[0] != '+' {
        text::read_number(&digits, 16, 0xff_ffff)
    } else {
        None
    };
    proof {
        if digits@.len() == 6 {
            text::lemma_value_bound(digits@, 16);
            assert(vstd::arithmetic::power::pow(16, 6) == 0x100_0000) by {
                reveal_with_fuel(vstd::arithmetic::power::pow, 7);
            }
            if digits@[0] == '+' {
                text::lemma_value_digits(digits@, 16, 0);
            }
        }
    }
    match rgb {
        Some(rgb) => Ok(rgb as u32),
        None => {
            let whole = text::string_of(part);
            let mut message = quote(whole.as_str());
            message.append(" is not a six-digit hex colour");
            Err(message)
        },
    }
}

/// Reads a palette: a name, or four colours separated by commas.
pub fn parse_palette(spec: &str) -> (result: Result<[u32; 4], String>)
    ensures
        match result {
            Ok(palette) => palette_of(spec@) == Ok::<Seq<u32>, Seq<char>>(palette@),
            Err(message) => palette_of(spec@) == Err::<Seq<u32>, Seq<char>>(message@),
        },
{
    if text::same(spec, "grey") || text::same(spec, "gray") {
        return Ok(PALETTE_GREY);
    }
    if text::same(spec, "dmg") || text::same(spec, "green") {
        return Ok(PALETTE_DMG);
    }
    if text::same(spec, "pocket") {
        return Ok(PALETTE_POCKET);
    }
    if text::same(spec, "light") {
        return Ok(PALETTE_LIGHT);
    }
    let parts = split(&text::chars_of(spec));
    assert(pieces(spec@).len() == parts@.len());
    if parts.len() != 4 {
        let mut message = String::from_str("--palette wants a name or four RRGGBB values, got ");
        let got = quote(spec);
        message.append(got.as_str());
        return Err(message);
    }
    assert(pieces(spec@)[0] == parts@[0]@);
    assert(pieces(spec@)[1] == parts@[1]@);
    assert(pieces(spec@)[2] == parts@[2]@);
    assert(pieces(spec@)[3] == parts@[3]@);
    let first = match read_shade(&parts[0]) {
        Ok(rgb) => rgb,
        Err(message) => return Err(message),
    };
    let second = match read_shade(&parts[1]) {
        Ok(rgb) => rgb,
        Err(message) => return Err(message),
    };
    let third = match read_shade(&parts[2]) {
        Ok(rgb) => rgb,
        Err(message) => return Err(message),
    };
    let fourth = match read_shade(&parts[3]) {
        Ok(rgb) => rgb,
        Err(message) => return Err(message),
    };
    let palette: [u32; 4] = [first, second, third, fourth];
    assert(palette@ =~= palette_of(spec@)->Ok_0);
    Ok(palette)
}

// ---- options -------------------------------------------------------------

/// The complaint about a number that cannot be read.
pub open spec fn bad_number(name: Seq<char>, raw: Seq<char>) -> Seq<char> {
    "bad "@ + name + " "@ + quoted(raw)
}

impl Request {
    /// Nothing asked for yet.
    pub open spec fn usual() -> Request {
        Request {
            rom_path: None,
            output: None,
            stub: None,
            settings: Choices::standard(),
            title_given: false,
            save_name_given: false,
            budget: 200_000,
            aot: Aot::Fixed,
            verify: None,
            verbose: false,
        }
    }

    pub open spec fn with(self, settings: Choices) -> Request {
        Request { settings, ..self }
    }

    /// The option `field` given the value `raw`, or the complaint about it.
    pub open spec fn given(self, field: Field, raw: Seq<char>) -> Result<Request, Seq<char>> {
        let s = self.settings;
        match field {
            Field::Output => Ok(Request { output: Some(raw), ..self }),
            Field::Stub => Ok(Request { stub: Some(raw), ..self }),
            Field::Title => Ok(
                Request { settings: Choices { title: raw, ..s }, title_given: true, ..self },
            ),
            Field::SaveName => Ok(
                Request { settings: Choices { save_name: raw, ..s }, save_name_given: true, ..self },
            ),
            Field::Aot => if raw == "off"@ || raw == "none"@ {
                Ok(Request { aot: Aot::Off, ..self })
            } else if raw == "fixed"@ {
                Ok(Request { aot: Aot::Fixed, ..self })
            } else if raw == "full"@ || raw == "all"@ {
                Ok(Request { aot: Aot::Full, ..self })
            } else {
                Err("unknown --aot mode "@ + quoted(raw) + "; try fixed, full or off"@)
            },
            Field::Model => if raw == "auto"@ {
                Ok(self.with(Choices { model: Model::Auto, ..s }))
            } else if raw == "dmg"@ {
                Ok(self.with(Choices { model: Model::Dmg, ..s }))
            } else if raw == "cgb"@ || raw == "color"@ {
                Ok(self.with(Choices { model: Model::Cgb, ..s }))
            } else {
                Err("unknown model "@ + quoted(raw) + "; try auto, dmg or cgb"@)
            },
            Field::Palette => match palette_of(raw) {
                Ok(palette) => Ok(self.with(Choices { palette, ..s })),
                Err(message) => Err(message),
            },
            Field::Scale => match text::number(raw, 10, 255) {
                Some(n) => Ok(
                    self.with(
                        Choices {
                            scale: (if n < 1 {
                                1
                            } else if n > 8 {
                                8
                            } else {
                                n
                            }) as u8,
                            ..s
                        },
                    ),
                ),
                None => Err(bad_number(name_of(field), raw)),
            },
            Field::Volume => match text::number(raw, 10, 255) {
                Some(n) => Ok(
                    self.with(
                        Choices {
                            volume: (if n > 100 {
                                100
                            } else {
                                n
                            }) as u8,
                            ..s
                        },
                    ),
                ),
                None => Err(bad_number(name_of(field), raw)),
            },
            Field::SampleRate => match text::number(raw, 10, u32::MAX as int) {
                Some(n) => Ok(self.with(Choices { sample_rate: n as u32, ..s })),
                None => Err(bad_number(name_of(field), raw)),
            },
            Field::Budget => match text::number(raw, 10, usize::MAX as int) {
                Some(n) => Ok(Request { budget: n, ..self }),
                None => Err(bad_number(name_of(field), raw)),
            },
        }
    }

    /// The bare option `word`.
    pub open spec fn flagged(self, word: Word) -> Request {
        let s = self.settings;
        match word {
            Word::Stretch => self.with(Choices { keep_aspect: false, ..s }),
            Word::NoAudio => self.with(Choices { audio: false, ..s }),
            Word::NoAot => Request { aot: Aot::Off, ..self },
            Word::Verbose => Request { verbose: true, ..self },
            _ => self,
        }
    }
}

/// What a command line comes to.
pub enum Asked {
    Help,
    For(Request),
    Wrong(Seq<char>),
}

/// Frames that `--verify` runs when it is not told how many.
pub const VERIFY_FRAMES: usize = 120;

/// What the arguments from number `at` on come to, after `so_far` has been asked for.
pub open spec fn asked(args: Seq<Seq<char>>, at: int, so_far: Request) -> Asked
    decreases args.len() - at,
{
    if at >= args.len() {
        if so_far.rom_path is None {
            Asked::Wrong("no ROM given; try --help"@)
        } else {
            Asked::For(so_far)
        }
    } else {
        match word_of(args[at]) {
            Word::Help => Asked::Help,
            Word::Takes(field) => if at + 1 >= args.len() {
                Asked::Wrong(name_of(field) + " needs a value"@)
            } else {
                match so_far.given(field, args[at + 1]) {
                    Ok(next) => asked(args, at + 2, next),
                    Err(message) => Asked::Wrong(message),
                }
            },
            // The frame count is optional, so only take it if it is a number.
            Word::Verify => if at + 1 < args.len() && text::number(
                args[at + 1],
                10,
                usize::MAX as int,
            ) is Some {
                asked(
                    args,
                    at + 2,
                    Request {
                        verify: text::number(args[at + 1], 10, usize::MAX as int),
                        ..so_far
                    },
                )
            } else {
                asked(args, at + 1, Request { verify: Some(VERIFY_FRAMES as int), ..so_far })
            },
            Word::Unknown => Asked::Wrong(
                "unknown option "@ + quoted(args[at]) + "; try --help"@,
            ),
            Word::Path => if so_far.rom_path is Some {
                Asked::Wrong("more than one ROM given"@)
            } else {
                asked(args, at + 1, Request { rom_path: Some(args[at]), ..so_far })
            },
            word => asked(args, at + 1, so_far.flagged(word)),
        }
    }
}

/// The texts of a list of strings.
pub open spec fn texts(args: Seq<String>) -> Seq<Seq<char>> {
    Seq::new(args.len(), |i: int| args[i]@)
}

fn word(arg: &str) -> (word: Word)
    ensures
        word == word_of(arg@),
{
    if text::same(arg, "-h") || text::same(arg, "--help") {
        Word::Help
    } else if text::same(arg, "-o") || text::same(arg, "--output") {
        Word::Takes(Field::Output)
    } else if text::same(arg, "--stub") {
        Word::Takes(Field::Stub)
    } else if text::same(arg, "--title") {
        Word::Takes(Field::Title)
    } else if text::same(arg, "--save-name") {
        Word::Takes(Field::SaveName)
    } else if text::same(arg, "--stretch") {
        Word::Stretch
    } else if text::same(arg, "--no-audio") {
        Word::NoAudio
    } else if text::same(arg, "--no-aot") {
        Word::NoAot
    } else if text::same(arg, "--aot") {
        Word::Takes(Field::Aot)
    } else if text::same(arg, "-v") || text::same(arg, "--verbose") {
        Word::Verbose
    } else if text::same(arg, "--model") {
        Word::Takes(Field::Model)
    } else if text::same(arg, "--palette") {
        Word::Takes(Field::Palette)
    } else if text::same(arg, "--scale") {
        Word::Takes(Field::Scale)
    } else if text::same(arg, "--volume") {
        Word::Takes(Field::Volume)
    } else if text::same(arg, "--sample-rate") {
        Word::Takes(Field::SampleRate)
    } else if text::same(arg, "--budget") {
        Word::Takes(Field::Budget)
    } else if text::same(arg, "--verify") {
        Word::Verify
    } else if arg.unicode_len() > 1 && arg.get_char(0) == '-' {
        Word::Unknown
    } else {
        Word::Path
    }
}

fn name(field: Field) -> (name: &'static str)
    ensures
        name@ == name_of(field),
{
    match field {
        Field::Output => "--output",
        Field::Stub => "--stub",
        Field::Title => "--title",
        Field::SaveName => "--save-name",
        Field::Aot => "--aot",
        Field::Model => "--model",
        Field::Palette => "--palette",
        Field::Scale => "--scale",
        Field::Volume => "--volume",
        Field::SampleRate => "--sample-rate",
        Field::Budget => "--budget",
    }
}

/// What has been asked for so far.
struct Draft {
    rom_path: Option<String>,
    output: Option<String>,
    stub: Option<String>,
    settings: Settings,
    title_given: bool,
    save_name_given: bool,
    budget: usize,
    aot: Aot,
    verify: Option<usize>,
    verbose: bool,
}

impl View for Draft {
    type V = Request;

    closed spec fn view(&self) -> Request {
        Request {
            rom_path: text_of(self.rom_path),
            output: text_of(self.output),
            stub: text_of(self.stub),
            settings: self.settings@,
            title_given: self.title_given,
            save_name_given: self.save_name_given,
            budget: self.budget as int,
            aot: self.aot,
            verify: match self.verify {
                Some(n) => Some(n as int),
                None => None,
            },
            verbose: self.verbose,
        }
    }
}

fn complain_number(field: Field, raw: &str) -> (message: String)
    ensures
        message@ == bad_number(name_of(field), raw@),
{
    let mut message = String::from_str("bad ");
    message.append(name(field));
    message.append(" ");
    let got = quote(raw);
    message.append(got.as_str());
    message
}

fn complain_choice(before: &str, raw: &str, after: &str) -> (message: String)
    ensures
        message@ == before@ + quoted(raw@) + after@,
{
    let mut message = String::from_str(before);
    let got = quote(raw);
    message.append(got.as_str());
    message.append(after);
    message
}

/// Reads a decimal number of at most `max`.
fn read_decimal(raw: &str, max: u64) -> (value: Option<u64>)
    ensures
        match value {
            Some(v) => text::number(raw@, 10, max as int) == Some(v as int) && v <= max,
            None => text::number(raw@, 10, max as int) is None,
        },
{
    text::read_number(&text::chars_of(raw), 10, max)
}

impl Draft {
    /// Takes the option `field` with the value `raw`.
    fn give(&mut self, field: Field, raw: &String) -> (result: Result<(), String>)
        ensures
            match result {
                Ok(_) => old(self)@.given(field, raw@) == Ok::<Request, Seq<char>>(final(self)@),
                Err(message) => old(self)@.given(field, raw@) == Err::<Request, Seq<char>>(
                    message@,
                ),
            },
    {
        match field {
            Field::Output => self.output = Some(raw.clone()),
            Field::Stub => self.stub = Some(raw.clone()),
            Field::Title => {
                self.settings.title = raw.clone();
                self.title_given = true;
            },
            Field::SaveName => {
                self.settings.save_name = raw.clone();
                self.save_name_given = true;
            },
            Field::Aot => return self.give_aot(raw.as_str()),
            Field::Model => return self.give_model(raw.as_str()),
            Field::Palette => {
                match parse_palette(raw.as_str()) {
                    Ok(palette) => self.settings.palette = palette,
                    Err(message) => return Err(message),
                }
            },
            Field::Scale => {
                match read_decimal(raw.as_str(), 255) {
                    Some(n) => {
                        self.settings.scale = if n < 1 {
                            1
                        } else if n > 8 {
                            8
                        } else {
                            n as u8
                        };
                    },
                    None => return Err(complain_number(field, raw.as_str())),
                }
            },
            Field::Volume => {
                match read_decimal(raw.as_str(), 255) {
                    Some(n) => {
                        self.settings.volume = if n > 100 {
                            100
                        } else {
                            n as u8
                        };
                    },
                    None => return Err(complain_number(field, raw.as_str())),
                }
            },
            Field::SampleRate => {
                match read_decimal(raw.as_str(), u32::MAX as u64) {
                    Some(n) => self.settings.sample_rate = n as u32,
                    None => return Err(complain_number(field, raw.as_str())),
                }
            },
            Field::Budget => {
                match read_decimal(raw.as_str(), usize::MAX as u64) {
                    Some(n) => self.budget = n as usize,
                    None => return Err(complain_number(field, raw.as_str())),
                }
            },
        }
        Ok(())
    }

    fn give_aot(&mut self, raw: &str) -> (result: Result<(), String>)
        ensures
            match result {
                Ok(_) => old(self)@.given(Field::Aot, raw@) == Ok::<Request, Seq<char>>(
                    final(self)@,
                ),
                Err(message) => old(self)@.given(Field::Aot, raw@) == Err::<Request, Seq<char>>(
                    message@,
                ),
            },
    {
        if text::same(raw, "off") || text::same(raw, "none") {
            self.aot = Aot::Off;
        } else if text::same(raw, "fixed") {
            self.aot = Aot::Fixed;
        } else if text::same(raw, "full") || text::same(raw, "all") {
            self.aot = Aot::Full;
        } else {
            return Err(
                complain_choice("unknown --aot mode ", raw, "; try fixed, full or off"),
            );
        }
        Ok(())
    }

    fn give_model(&mut self, raw: &str) -> (result: Result<(), String>)
        ensures
            match result {
                Ok(_) => old(self)@.given(Field::Model, raw@) == Ok::<Request, Seq<char>>(
                    final(self)@,
                ),
                Err(message) => old(self)@.given(Field::Model, raw@) == Err::<Request, Seq<char>>(
                    message@,
                ),
            },
    {
        if text::same(raw, "auto") {
            self.settings.model = Model::Auto;
        } else if text::same(raw, "dmg") {
            self.settings.model = Model::Dmg;
        } else if text::same(raw, "cgb") || text::same(raw, "color") {
            self.settings.model = Model::Cgb;
        } else {
            return Err(complain_choice("unknown model ", raw, "; try auto, dmg or cgb"));
        }
        Ok(())
    }

    fn flag(&mut self, word: Word)
        ensures
            final(self)@ == old(self)@.flagged(word),
    {
        match word {
            Word::Stretch => self.settings.keep_aspect = false,
            Word::NoAudio => self.settings.audio = false,
            Word::NoAot => self.aot = Aot::Off,
            Word::Verbose => self.verbose = true,
            _ => {},
        }
    }
}

/// Reads the arguments behind the program's name. Nothing comes back when help was asked
/// for.
pub fn parse_args(args: &[String]) -> (result: Result<Option<Options>, String>)
    ensures
        match result {
            Ok(Some(options)) => asked(texts(args@), 0, Request::usual()) == Asked::For(options@),
            Ok(None) => asked(texts(args@), 0, Request::usual()) == Asked::Help,
            Err(message) => asked(texts(args@), 0, Request::usual()) == Asked::Wrong(message@),
        },
{
    let ghost all = texts(args@);
    let mut draft = Draft {
        rom_path: None,
        output: None,
        stub: None,
        settings: Settings::default(),
        title_given: false,
        save_name_given: false,
        budget: 200_000,
        aot: Aot::Fixed,
        verify: None,
        verbose: false,
    };
    let mut at: usize = 0;
    while at < args.len()
        invariant
            at <= args@.len(),
            all == texts(args@),
            asked(all, at as int, draft@) == asked(all, 0, Request::usual()),
        decreases args@.len() - at,
    {
        assert(all[at as int] == args@[at as int]@);
        let word = word(args[at].as_str());
        match word {
            Word::Help => return Ok(None),
            Word::Takes(field) => {
                if args.len() - at < 2 {
                    let mut message = String::from_str(name(field));
                    message.append(" needs a value");
                    return Err(message);
                }
                assert(all[at + 1] == args@[at + 1]@);
                match draft.give(field, &args[at + 1]) {
                    Ok(_) => {},
                    Err(message) => return Err(message),
                }
                at += 2;
            },
            Word::Verify => {
                let mut frames: Option<u64> = None;
                if args.len() - at >= 2 {
                    assert(all[at + 1] == args@[at + 1]@);
                    frames = read_decimal(args[at + 1].as_str(), usize::MAX as u64);
                }
                match frames {
                    Some(n) => {
                        draft.verify = Some(n as usize);
                        at += 2;
                    },
                    None => {
                        draft.verify = Some(VERIFY_FRAMES);
                        at += 1;
                    },
                }
            },
            Word::Unknown => {
                return Err(
                    complain_choice("unknown option ", args[at].as_str(), "; try --help"),
                );
            },
            Word::Path => {
                if draft.rom_path.is_some() {
                    return Err(String::from_str("more than one ROM given"));
                }
                draft.rom_path = Some(args[at].clone());
                at += 1;
            },
            _ => {
                draft.flag(word);
                at += 1;
            },
        }
    }
    match draft.rom_path {
        Some(rom_path) => Ok(
            Some(
                Options {
                    rom_path,
                    output: draft.output,
                    stub: draft.stub,
                    settings: draft.settings,
                    title_given: draft.title_given,
                    save_name_given: draft.save_name_given,
                    budget: draft.budget,
                    aot: draft.aot,
                    verify: draft.verify,
                    verbose: draft.verbose,
                },
            ),
        ),
        None => Err(String::from_str("no ROM given; try --help")),
    }
}

/// An option that takes a value keeps to the ranges.
proof fn lemma_given_in_range(so_far: Request, field: Field, raw: Seq<char>)
    requires
        1 <= so_far.settings.scale <= 8,
        so_far.settings.volume <= 100,
    ensures
        so_far.given(field, raw) matches Ok(next) ==> {
            &&& 1 <= next.settings.scale <= 8
            &&& next.settings.volume <= 100
        },
{
    text::lemma_value_nonnegative(raw, 10);
    if raw.len() > 0 {
        text::lemma_value_nonnegative(raw.drop_first(), 10);
    }
}

/// Whatever the command line says, the window's scale stays between 1 and 8 and the
/// volume at 100 or below.
#[verifier::rlimit(40)]
pub proof fn law_options_in_range(args: Seq<Seq<char>>, at: int, so_far: Request)
    requires
        1 <= so_far.settings.scale <= 8,
        so_far.settings.volume <= 100,
    ensures
        asked(args, at, so_far) matches Asked::For(request) ==> {
            &&& 1 <= request.settings.scale <= 8
            &&& request.settings.volume <= 100
            &&& request.rom_path is Some
        },
    decreases args.len() - at,
{
    if at < args.len() {
        match word_of(args[at]) {
            Word::Takes(field) => {
                if at + 1 < args.len() {
                    let raw = args[at + 1];
                    lemma_given_in_range(so_far, field, raw);
                    if let Ok(next) = so_far.given(field, raw) {
                        law_options_in_range(args, at + 2, next);
                    }
                }
            },
            Word::Verify => {
                if at + 1 < args.len() {
                    law_options_in_range(
                        args,
                        at + 2,
                        Request {
                            verify: text::number(args[at + 1], 10, usize::MAX as int),
                            ..so_far
                        },
                    );
                }
                law_options_in_range(
                    args,
                    at + 1,
                    Request { verify: Some(VERIFY_FRAMES as int), ..so_far },
                );
            },
            Word::Path => {
                law_options_in_range(
                    args,
                    at + 1,
                    Request { rom_path: Some(args[at]), ..so_far },
                );
            },
            Word::Help => {},
            Word::Unknown => {},
            word => {
                law_options_in_range(args, at + 1, so_far.flagged(word));
            },
        }
    }
}

// ---- what is said --------------------------------------------------------

/// The names that were not asked for, filled in: the cartridge's title, or the file's name
/// where it has none, and the file's name for the save file.
pub open spec fn names_filled(request: Request, title: Seq<char>, stem: Seq<char>) -> Choices {
    Choices {
        title: if request.title_given {
            request.settings.title
        } else if title.len() == 0 {
            stem
        } else {
            title
        },
        save_name: if request.save_name_given {
            request.settings.save_name
        } else {
            stem
        },
        ..request.settings
    }
}

/// Fills in the names that were not asked for.
pub fn fill_names(options: &mut Options, title: &str, stem: &str)
    ensures
        final(options)@ == old(options)@.with(names_filled(old(options)@, title@, stem@)),
{
    if !options.title_given {
        options.settings.title = if title.is_empty() {
            String::from_str(stem)
        } else {
            String::from_str(title)
        };
    }
    if !options.save_name_given {
        options.settings.save_name = String::from_str(stem);
    }
}

/// The mapper in words, with what the cartridge has beside it.
pub open spec fn mapper_text(header: Header) -> Seq<char> {
    (match header.mbc {
        MbcKind::NoMapper => "no mapper"@,
        MbcKind::Mbc1 => "MBC1"@,
        MbcKind::Mbc2 => "MBC2"@,
        MbcKind::Mbc3 => "MBC3"@,
        MbcKind::Mbc5 => "MBC5"@,
    }) + (if header.battery {
        "+battery"@
    } else {
        seq![]
    }) + (if header.rtc {
        "+clock"@
    } else {
        seq![]
    })
}

pub fn describe_mapper(info: &CartridgeInfo) -> (text: String)
    ensures
        text@ == mapper_text(info@),
{
    let mut text = String::from_str(
        match info.mbc {
            MbcKind::NoMapper => "no mapper",
            MbcKind::Mbc1 => "MBC1",
            MbcKind::Mbc2 => "MBC2",
            MbcKind::Mbc3 => "MBC3",
            MbcKind::Mbc5 => "MBC5",
        },
    );
    if info.battery {
        text.append("+battery");
    }
    if info.rtc {
        text.append("+clock");
    }
    assert(text@ =~= mapper_text(info@));
    text
}

/// One line about a cartridge.
pub open spec fn summary_text(header: Header) -> Seq<char> {
    header.title + "  "@ + mapper_text(header) + "  "@ + text::decimal(header.rom_banks as nat)
        + " ROM banks, "@ + text::decimal((header.ram_bytes / 1024) as nat) + " KiB cartridge RAM"@
        + (match header.cgb {
        CgbSupport::Monochrome => seq![],
        CgbSupport::Enhanced => ", colour enhanced"@,
        CgbSupport::Required => ", colour required"@,
    })
}

/// One line about a cartridge.
pub fn summary(info: &CartridgeInfo) -> (text: String)
    ensures
        text@ == summary_text(info@),
{
    let mut text = info.title.clone();
    text.append("  ");
    let mapper = describe_mapper(info);
    text.append(mapper.as_str());
    text.append("  ");
    text::push_decimal(&mut text, info.rom_banks);
    text.append(" ROM banks, ");
    text::push_decimal(&mut text, info.ram_bytes / 1024);
    text.append(" KiB cartridge RAM");
    match info.cgb {
        CgbSupport::Monochrome => {},
        CgbSupport::Enhanced => text.append(", colour enhanced"),
        CgbSupport::Required => text.append(", colour required"),
    }
    assert(text@ =~= summary_text(info@));
    text
}

} // verus!
