//! The container that a converted game is shipped in.

use gbtoexe::payload::settings::{Model, Settings};
use gbtoexe::payload::crc::crc32;
use gbtoexe::payload::{
    build, extract, from_export, to_import, BlockEntry, Payload, ReadError, FOOTER_LEN, MAGIC,
};
use gbtoexe::recomp::BlockKey;

#[test]
fn settings_survive_a_round_trip() {
    let settings = Settings {
        title: "POKEMON RED".into(),
        scale: 3,
        model: Model::Cgb,
        palette: [1, 2, 3, 4],
        ..Settings::default()
    };

    let decoded = Settings::decode(&settings.encode()).unwrap();
    assert_eq!(decoded.title, "POKEMON RED");
    assert_eq!(decoded.scale, 3);
    assert_eq!(decoded.model, Model::Cgb);
    assert_eq!(decoded.palette, [1, 2, 3, 4]);
}

#[test]
fn payload_is_found_at_the_end_of_a_stub() {
    let rom = vec![0xab; 1024];
    let code = vec![0x90; 64];
    let blocks = vec![BlockEntry {
        bank: 3,
        addr: 0x4123,
        offset: 16,
        end: 0x4130,
    }];
    let mut image = b"pretend this is a PE file".to_vec();
    image.extend_from_slice(&build(&rom, &Settings::default(), &code, &blocks));

    let payload = extract(&image).unwrap();
    assert_eq!(payload.rom, rom);
    assert_eq!(payload.settings.scale, 4);
    assert_eq!(payload.code, code);
    assert_eq!(payload.blocks, blocks);
}

#[test]
fn a_bare_stub_reports_no_payload() {
    assert!(matches!(
        extract(b"just an executable"),
        Err(ReadError::NotPresent)
    ));
}

#[test]
fn a_flipped_bit_is_caught() {
    let rom = vec![0x11; 64];
    let mut image = b"stub".to_vec();
    image.extend_from_slice(&build(&rom, &Settings::default(), &[], &[]));
    image[10] ^= 0xff;
    assert!(matches!(extract(&image), Err(ReadError::Corrupt(_))));
}

#[test]
fn damaged_translated_code_is_caught_too() {
    // Native code that has been altered would be catastrophic to execute.
    let mut image = b"stub".to_vec();
    image.extend_from_slice(&build(&[0u8; 32], &Settings::default(), &[0x90; 32], &[]));
    let len = image.len();
    image[len - FOOTER_LEN - 20] ^= 0x01;
    assert!(matches!(extract(&image), Err(ReadError::Corrupt(_))));
}

fn complaint(image: &[u8]) -> String {
    match extract(image) {
        Ok(_) => panic!("the image should have been refused"),
        Err(e) => e.message(),
    }
}

/// An image whose footer is `footer` behind the magic, over `body`.
fn image(body: &[u8], rom: u32, settings: u32, code: u32, blocks: u32, sum: u32) -> Vec<u8> {
    let mut image = body.to_vec();
    image.extend_from_slice(&MAGIC);
    for field in [rom, settings, code, blocks, sum] {
        image.extend_from_slice(&field.to_le_bytes());
    }
    image
}

#[test]
fn the_checksum_is_the_usual_one() {
    assert_eq!(crc32(b"123456789"), 0xcbf4_3926);
    assert_eq!(crc32(b""), 0);
    assert_ne!(crc32(b"123456788"), crc32(b"123456789"));
}

#[test]
fn every_fault_has_its_words() {
    assert_eq!(complaint(b"just an executable"), "no embedded ROM");
    assert_eq!(
        complaint(&image(b"short", 64, 0, 0, 0, 0)),
        "embedded ROM is damaged: truncated file"
    );
    assert_eq!(
        complaint(&image(b"rom", 3, 0, 0, 0, 0)),
        "embedded ROM is damaged: checksum mismatch"
    );
    assert_eq!(
        complaint(&image(b"rom", 3, 0, 0, 0, crc32(b"rom"))),
        "embedded ROM is damaged: unreadable settings"
    );
}

#[test]
fn a_footer_behind_any_stub_is_found() {
    let payload = build(b"game", &Settings::default(), b"code", &[]);
    for stub in [&b""[..], &b"x"[..], &[0u8; 5000][..]] {
        let mut image = stub.to_vec();
        image.extend_from_slice(&payload);
        let found = extract(&image).unwrap();
        assert_eq!(found.rom, b"game");
        assert_eq!(found.code, b"code");
        assert_eq!(found.settings.title, "Game Boy");
        assert_eq!(found.settings.save_name, "game");
    }
}

#[test]
fn every_setting_survives() {
    let settings = Settings {
        title: "caf\u{e9} \u{2603}".into(),
        save_name: "save".into(),
        model: Model::Dmg,
        palette: [0xff0000, 1, 2, 0xffff_ffff],
        scale: 8,
        fullscreen: true,
        audio: false,
        volume: 100,
        sample_rate: 44_100,
        keep_aspect: false,
    };
    let back = Settings::decode(&settings.encode()).unwrap();
    assert_eq!(back.title, settings.title);
    assert_eq!(back.save_name, settings.save_name);
    assert_eq!(back.model, settings.model);
    assert_eq!(back.palette, settings.palette);
    assert_eq!(back.scale, settings.scale);
    assert_eq!(back.fullscreen, settings.fullscreen);
    assert_eq!(back.audio, settings.audio);
    assert_eq!(back.volume, settings.volume);
    assert_eq!(back.sample_rate, settings.sample_rate);
    assert_eq!(back.keep_aspect, settings.keep_aspect);
    let config = back.config();
    assert_eq!(config.model, gbtoexe::hw::Model::Dmg);
    assert_eq!(config.sample_rate, 44_100);
    assert_eq!(config.dmg_palette, settings.palette);
}

#[test]
fn settings_are_refused_when_they_are_cut_short() {
    let data = Settings::default().encode();
    assert!(Settings::decode(&data).is_some());
    for len in 0..data.len() {
        assert!(Settings::decode(&data[..len]).is_none(), "{len} bytes");
    }
    let mut other = data.clone();
    other[0] = 2;
    assert!(Settings::decode(&other).is_none());
}

#[test]
fn a_damaged_title_is_repaired() {
    let mut data = Settings::default().encode();
    data[29] = 0xff;
    assert_eq!(Settings::decode(&data).unwrap().title, "\u{fffd}ame Boy");
}

#[test]
fn a_title_too_long_for_its_field_is_cut() {
    let settings = Settings { title: "x".repeat(70_000), ..Settings::default() };
    let back = Settings::decode(&settings.encode()).unwrap();
    assert_eq!(back.title.len(), 0xffff);
    assert_eq!(back.save_name, "game");
}

#[test]
fn the_block_map_converts_both_ways() {
    let key = BlockKey { bank: 3, addr: 0x4123 };
    let map = vec![(key, 16u32, 0x4130u32)];
    let blocks = from_export(&map);
    assert_eq!(blocks, vec![BlockEntry { bank: 3, addr: 0x4123, offset: 16, end: 0x4130 }]);
    assert_eq!(to_import(&blocks), map);
}

#[test]
fn a_bare_rom_plays_under_its_files_name() {
    let payload = Payload::bare(vec![1, 2, 3], "tetris");
    assert_eq!(payload.rom, [1, 2, 3]);
    assert_eq!(payload.settings.title, "tetris");
    assert_eq!(payload.settings.save_name, "tetris");
    assert_eq!(payload.settings.scale, 4);
    assert!(payload.code.is_empty());
    assert!(payload.blocks.is_empty());
}
