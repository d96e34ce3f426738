//! What the converter makes of its arguments.

use gbtoexe::cli::{
    describe_mapper, fill_names, parse_args, parse_palette, summary, Aot, Options,
};
use gbtoexe::convert::per_bank;
use gbtoexe::hw::{Cartridge, PALETTE_DMG, PALETTE_GREY, PALETTE_LIGHT, PALETTE_POCKET};
use gbtoexe::payload::settings::{Model, Settings};

fn parse(line: &[&str]) -> Result<Option<Options>, String> {
    let args: Vec<String> = line.iter().map(|s| s.to_string()).collect();
    parse_args(&args)
}

fn options(line: &[&str]) -> Options {
    match parse(line) {
        Ok(Some(options)) => options,
        Ok(None) => panic!("help was not asked for"),
        Err(message) => panic!("{message}"),
    }
}

fn complaint(line: &[&str]) -> String {
    match parse(line) {
        Ok(_) => panic!("{line:?} should have been refused"),
        Err(message) => message,
    }
}

#[test]
fn a_rom_alone_takes_the_defaults() {
    let o = options(&["game.gb"]);
    assert_eq!(o.rom_path, "game.gb");
    assert_eq!(o.output, None);
    assert_eq!(o.stub, None);
    assert_eq!(o.budget, 200_000);
    assert_eq!(o.aot, Aot::Fixed);
    assert_eq!(o.verify, None);
    assert!(!o.verbose);
    assert_eq!(o.settings.title, "Game Boy");
    assert_eq!(o.settings.scale, 4);
    assert_eq!(o.settings.volume, 70);
}

#[test]
fn every_option_is_understood() {
    let o = options(&[
        "-v", "-o", "out.exe", "--stub", "stub.exe", "--title", "My Game", "--save-name", "mine",
        "--stretch", "--no-audio", "--aot", "full", "--model", "color", "--palette", "pocket",
        "--scale", "2", "--volume", "+55", "--sample-rate", "44100", "--budget", "12", "--verify",
        "7", "-",
    ]);
    assert_eq!(o.rom_path, "-");
    assert_eq!(o.output.as_deref(), Some("out.exe"));
    assert_eq!(o.stub.as_deref(), Some("stub.exe"));
    assert_eq!(o.settings.title, "My Game");
    assert_eq!(o.settings.save_name, "mine");
    assert!(!o.settings.keep_aspect);
    assert!(!o.settings.audio);
    assert_eq!(o.aot, Aot::Full);
    assert_eq!(o.settings.model, Model::Cgb);
    assert_eq!(o.settings.palette, PALETTE_POCKET);
    assert_eq!(o.settings.scale, 2);
    assert_eq!(o.settings.volume, 55);
    assert_eq!(o.settings.sample_rate, 44_100);
    assert_eq!(o.budget, 12);
    assert_eq!(o.verify, Some(7));
    assert!(o.verbose);
}

#[test]
fn the_frame_count_is_optional() {
    assert_eq!(options(&["--verify", "game.gb"]).verify, Some(120));
    assert_eq!(options(&["game.gb", "--verify"]).verify, Some(120));
    assert_eq!(options(&["game.gb", "--verify", "0"]).verify, Some(0));
}

#[test]
fn help_wins_over_what_follows() {
    assert!(matches!(parse(&["--help", "--bogus"]), Ok(None)));
    assert!(matches!(parse(&["game.gb", "-h"]), Ok(None)));
}

#[test]
fn scale_and_volume_are_clamped() {
    assert_eq!(options(&["g", "--scale", "0"]).settings.scale, 1);
    assert_eq!(options(&["g", "--scale", "200"]).settings.scale, 8);
    assert_eq!(options(&["g", "--volume", "255"]).settings.volume, 100);
}

#[test]
fn every_complaint_has_its_words() {
    assert_eq!(complaint(&[]), "no ROM given; try --help");
    assert_eq!(complaint(&["a", "b"]), "more than one ROM given");
    assert_eq!(complaint(&["-o"]), "--output needs a value");
    assert_eq!(complaint(&["--stub"]), "--stub needs a value");
    assert_eq!(complaint(&["--sample-rate"]), "--sample-rate needs a value");
    assert_eq!(complaint(&["--bogus"]), "unknown option \"--bogus\"; try --help");
    assert_eq!(complaint(&["-\"\n"]), "unknown option \"-\\\"\\n\"; try --help");
    assert_eq!(
        complaint(&["--aot", "some"]),
        "unknown --aot mode \"some\"; try fixed, full or off"
    );
    assert_eq!(complaint(&["--model", "gba"]), "unknown model \"gba\"; try auto, dmg or cgb");
    assert_eq!(complaint(&["--scale", "256"]), "bad --scale \"256\"");
    assert_eq!(complaint(&["--volume", "-1"]), "bad --volume \"-1\"");
    assert_eq!(complaint(&["--sample-rate", ""]), "bad --sample-rate \"\"");
    assert_eq!(complaint(&["--budget", "1e3"]), "bad --budget \"1e3\"");
    assert_eq!(
        complaint(&["--palette", "pink"]),
        "--palette wants a name or four RRGGBB values, got \"pink\""
    );
    assert_eq!(
        complaint(&["--palette", "111111,222222,xyz,444444"]),
        "\"xyz\" is not a six-digit hex colour"
    );
}

#[test]
fn palettes_are_named_or_spelled_out() {
    assert_eq!(parse_palette("grey"), Ok(PALETTE_GREY));
    assert_eq!(parse_palette("gray"), Ok(PALETTE_GREY));
    assert_eq!(parse_palette("dmg"), Ok(PALETTE_DMG));
    assert_eq!(parse_palette("green"), Ok(PALETTE_DMG));
    assert_eq!(parse_palette("pocket"), Ok(PALETTE_POCKET));
    assert_eq!(parse_palette("light"), Ok(PALETTE_LIGHT));
    assert_eq!(
        parse_palette("#FFFFFF, aaAAaa ,##555555,000000"),
        Ok([0xffffff, 0xaaaaaa, 0x555555, 0])
    );
    let black = "000000,000000,000000";
    assert!(parse_palette(black).is_err());
    assert_eq!(parse_palette(&format!("{black},123456")), Ok([0, 0, 0, 0x123456]));
    for wrong in ["", "fff", "+ff", "+fffff", "1ffffff", "ffffff0", "fffffg", "-fffff"] {
        assert_eq!(
            parse_palette(&format!("{wrong},{black}")),
            Err(format!("{wrong:?} is not a six-digit hex colour"))
        );
    }
}

#[test]
fn aot_off_has_three_spellings() {
    for line in [&["g", "--no-aot"][..], &["g", "--aot", "off"], &["g", "--aot", "none"]] {
        assert_eq!(options(line).aot, Aot::Off);
    }
    assert_eq!(options(&["g", "--aot", "all"]).aot, Aot::Full);
    assert_eq!(per_bank(Aot::Full), 4096);
    assert_eq!(per_bank(Aot::Fixed), 0);
}

#[test]
fn names_that_were_not_given_are_filled_in() {
    let mut plain = options(&["g"]);
    fill_names(&mut plain, "TETRIS", "tetris-v1");
    assert_eq!(plain.settings.title, "TETRIS");
    assert_eq!(plain.settings.save_name, "tetris-v1");

    let mut named = options(&["g", "--title", "Mine", "--save-name", "s"]);
    fill_names(&mut named, "TETRIS", "tetris-v1");
    assert_eq!(named.settings.title, "Mine");
    assert_eq!(named.settings.save_name, "s");

    let mut untitled = options(&["g"]);
    fill_names(&mut untitled, "", "stem");
    assert_eq!(untitled.settings.title, "stem");
}

#[test]
fn a_name_that_was_given_stays_even_if_it_is_the_usual_one() {
    let mut named = options(&["g", "--title", "Game Boy", "--save-name", "game"]);
    fill_names(&mut named, "TETRIS", "tetris-v1");
    assert_eq!(named.settings.title, "Game Boy");
    assert_eq!(named.settings.save_name, "game");
}

#[test]
fn a_cartridge_is_summed_up_in_one_line() {
    let mut rom = vec![0u8; 0x2_0000];
    rom[0x134..0x13a].copy_from_slice(b"TESTER");
    rom[0x143] = 0x80;
    rom[0x147] = 0x10;
    rom[0x149] = 0x03;
    let cart = Cartridge::new(rom).ok().expect("a whole cartridge");
    assert_eq!(describe_mapper(cart.info()), "MBC3+battery+clock");
    assert_eq!(
        summary(cart.info()),
        "TESTER  MBC3+battery+clock  8 ROM banks, 32 KiB cartridge RAM, colour enhanced"
    );
}
