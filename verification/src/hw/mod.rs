//! The Game Boy's peripherals, modelled in software.
//!
//! There is deliberately no CPU here. The cartridge's code is translated into native
//! x86-64 ahead of time; this module is what that translated code calls into whenever
//! it touches something the host cannot do directly: video, sound, timers, the
//! cartridge mapper.
use vstd::prelude::*;
use crate::hw::console::Console;
use crate::hw::picture::Picture;

pub use crate::hw::cartridge::{Cartridge, CartridgeError, CartridgeInfo, CgbSupport, MbcKind};
pub use crate::hw::joypad::Button;
pub use crate::hw::mmu::Mmu;
pub use crate::hw::picture::{SCREEN_H, SCREEN_W};
pub use crate::hw::ppu::{
    DmgPalette, PALETTE_DMG, PALETTE_GREY, PALETTE_LIGHT, PALETTE_POCKET,
};

pub mod apu;
pub mod bits;
pub mod cartridge;
pub mod channels;
pub mod console;
pub mod dials;
pub mod frame;
pub mod joypad;
pub mod mapping;
pub mod memory;
pub mod mmu;
pub mod pace;
pub mod picture;
pub mod pixels;
pub mod ppu;
pub mod raster;
pub mod rtc;
pub mod timer;
pub mod title;
pub mod tones;
pub mod wiring;

verus! {

/// Clocks per second of the base (non-double-speed) CPU.
pub const CPU_HZ: u32 = 4_194_304;

/// Clocks in one LCD frame; the screen refreshes at 59.7275 Hz.
pub const FRAME_CYCLES: u32 = 70_224;

/// Which machine to model. `Auto` follows the cartridge header.
#[derive(Debug, Clone, Copy, PartialEq, Eq, Structural)]
pub enum Model {
    Auto,
    Dmg,
    Cgb,
}

#[derive(Debug, Clone)]
pub struct Config {
    pub model: Model,
    pub sample_rate: u32,
    /// Shades used for monochrome games; ignored in CGB mode.
    pub dmg_palette: DmgPalette,
}

impl Default for Config {
    fn default() -> (config: Self)
        ensures
            config.model == Model::Auto,
            config.sample_rate == 48_000,
            config.dmg_palette == PALETTE_GREY,
    {
        Config { model: Model::Auto, sample_rate: 48_000, dmg_palette: PALETTE_GREY }
    }
}

/// Whether a cartridge with colour support `cgb` runs on a CGB when `model` is asked for.
pub open spec fn runs_in_colour(model: Model, cgb: CgbSupport) -> bool {
    match model {
        Model::Dmg => false,
        Model::Cgb => true,
        Model::Auto => cgb != CgbSupport::Monochrome,
    }
}

/// What is said of a cartridge that only a CGB can run.
pub open spec fn needs_colour_message() -> Seq<char> {
    "this cartridge requires a Game Boy Color; convert it with --model cgb"@
}

/// Why `rom` cannot be built for `model`, if it cannot.
pub open spec fn build_refusal(rom: Seq<u8>, model: Model) -> Option<Seq<char>> {
    let cgb = cartridge::header_of(rom).cgb;
    if cartridge::refusal(rom) is Some {
        cartridge::refusal(rom)
    } else if cgb == CgbSupport::Required && !runs_in_colour(model, cgb) {
        Some(needs_colour_message())
    } else {
        None
    }
}

/// A 0xRRGGBB shade as a 15-bit CGB colour.
pub open spec fn packed(rgb: u32) -> int {
    rgb as int / 0x1_0000 % 256 / 8 + rgb as int / 0x100 % 256 / 8 * 32 + rgb as int % 256 / 8
        * 1024
}

/// Palette memory whose eight palettes all hold `palette`.
pub open spec fn compat_palette(palette: Seq<u32>) -> Seq<u8> {
    Seq::new(
        64,
        |i: int|
            if i % 2 == 0 {
                (packed(palette[i / 2 % 4]) % 256) as u8
            } else {
                (packed(palette[i / 2 % 4]) / 256) as u8
            },
    )
}

/// The console as it is switched on at `now`. A CGB running a monochrome cartridge
/// normally inherits its palettes from the boot ROM; there is none here, so they are
/// seeded from the chosen shades.
pub open spec fn built(rom: Seq<u8>, config: Config, now: u64) -> Console {
    let cart = cartridge::Board::fresh(rom, now);
    let cgb = runs_in_colour(config.model, cart.header.cgb);
    let console = Console::boot(cart, cgb, config.sample_rate, config.dmg_palette@);
    if cgb && cart.header.cgb == CgbSupport::Monochrome {
        let seeded = compat_palette(config.dmg_palette@);
        Console { ppu: Picture { bg_pal: seeded, obj_pal: seeded, ..console.ppu }, ..console }
    } else {
        console
    }
}

/// Builds the peripheral set for a cartridge, resolving `Model::Auto`. The flag says
/// whether the console is a CGB.
pub fn build(rom: Vec<u8>, config: &Config) -> (result: Result<(Mmu, bool), CartridgeError>)
    ensures
        match result {
            Ok((mmu, cgb)) => {
                &&& build_refusal(rom@, config.model) is None
                &&& mmu.wf()
                &&& exists|now: u64|
                    rtc::host_second(now) && mmu@ == #[trigger] built(rom@, *config, now)
                &&& cgb == runs_in_colour(config.model, cartridge::header_of(rom@).cgb)
            },
            Err(e) => build_refusal(rom@, config.model) == Some(e.0@),
        },
{
    build_at(rom, config, rtc::now_secs())
}

/// Builds the peripheral set for a cartridge switched on at `now`.
pub fn build_at(rom: Vec<u8>, config: &Config, now: u64) -> (result: Result<
    (Mmu, bool),
    CartridgeError,
>)
    ensures
        match result {
            Ok((mmu, cgb)) => {
                &&& build_refusal(rom@, config.model) is None
                &&& mmu.wf()
                &&& mmu@ == built(rom@, *config, now)
                &&& cgb == runs_in_colour(config.model, cartridge::header_of(rom@).cgb)
            },
            Err(e) => build_refusal(rom@, config.model) == Some(e.0@),
        },
{
    let cart = match Cartridge::new_at(rom, now) {
        Ok(cart) => cart,
        Err(e) => return Err(e),
    };
    let support = cart.cgb_support();
    let cgb = match config.model {
        Model::Dmg => false,
        Model::Cgb => true,
        Model::Auto => support != CgbSupport::Monochrome,
    };
    if !cgb && support == CgbSupport::Required {
        return Err(
            CartridgeError(
                String::from_str(
                    "this cartridge requires a Game Boy Color; convert it with --model cgb",
                ),
            ),
        );
    }
    let mut mmu = Mmu::new(cart, cgb, config.sample_rate, config.dmg_palette);
    if cgb && support == CgbSupport::Monochrome {
        seed_compat_palettes(&mut mmu, config.dmg_palette);
    }
    Ok((mmu, cgb))
}

/// Whether `pal` agrees with `goal` on the colours before `colour` of every palette, and
/// on `colour` itself in the palettes before `palette`.
#[verifier::opaque]
spec fn seeded(pal: Seq<u8>, goal: Seq<u8>, colour: int, palette: int) -> bool {
    forall|k: int|
        0 <= k < 64 && (k / 2 % 4 < colour || k / 2 % 4 == colour && k / 8 < palette)
            ==> #[trigger] pal[k] == goal[k]
}

proof fn lemma_seeded_one(pal: Seq<u8>, goal: Seq<u8>, colour: int, palette: int)
    requires
        pal.len() == 64,
        goal.len() == 64,
        0 <= colour < 4,
        0 <= palette < 8,
        seeded(pal, goal, colour, palette),
    ensures
        ({
            let at = palette * 8 + colour * 2;
            seeded(
                pal.update(at, goal[at]).update(at + 1, goal[at + 1]),
                goal,
                colour,
                palette + 1,
            )
        }),
{
    reveal(seeded);
}

proof fn lemma_seeded_ends(pal: Seq<u8>, goal: Seq<u8>)
    requires
        pal.len() == 64,
        goal.len() == 64,
    ensures
        seeded(pal, goal, 0, 0),
        forall|colour: int| seeded(pal, goal, colour, 8) ==> #[trigger] seeded(
            pal,
            goal,
            colour + 1,
            0,
        ),
        seeded(pal, goal, 4, 0) ==> pal == goal,
{
    reveal(seeded);
    if seeded(pal, goal, 4, 0) {
        assert(pal =~= goal);
    }
}

proof fn lemma_palette_index(index: u8)
    by (bit_vector)
    requires
        index < 63,
    ensures
        ((0x80u8 | index) & 0xbf) % 64 == index,
        ((0x80u8 | index) & 0xbf) & 0x80 != 0,
        ((((0x80u8 | index) & 0xbf) & 0x80) | ((((0x80u8 | index) & 0xbf) + 1) as u8 & 0x3f)) % 64
            == index + 1,
        ((0x80u8 | index) & 0xbf) < 0xc0,
        0u8 & 0xbf == 0,
{
}

/// Sets colour number `index / 2` of both palette memories.
fn seed_colour(mmu: &mut Mmu, index: u8, lo: u8, hi: u8)
    requires
        old(mmu).wf(),
        old(mmu)@.ppu.cgb,
        index < 63,
    ensures
        final(mmu).wf(),
        final(mmu)@ == (Console {
            ppu: Picture {
                bg_pal: old(mmu)@.ppu.bg_pal.update(index as int, lo).update(index + 1, hi),
                obj_pal: old(mmu)@.ppu.obj_pal.update(index as int, lo).update(index + 1, hi),
                bcps: final(mmu)@.ppu.bcps,
                ocps: final(mmu)@.ppu.ocps,
                ..old(mmu)@.ppu
            },
            ..old(mmu)@
        }),
{
    proof {
        lemma_palette_index(index);
    }
    mmu.ppu.write_reg(0xff68, 0x80 | index);
    mmu.ppu.write_reg(0xff69, lo);
    mmu.ppu.write_reg(0xff69, hi);
    mmu.ppu.write_reg(0xff6a, 0x80 | index);
    mmu.ppu.write_reg(0xff6b, lo);
    mmu.ppu.write_reg(0xff6b, hi);
}

/// A CGB running a monochrome cartridge normally inherits its palettes from the
/// boot ROM. There is no boot ROM here, so seed them from the chosen shades;
/// otherwise such a game renders black on black.
fn seed_compat_palettes(mmu: &mut Mmu, palette: DmgPalette)
    requires
        old(mmu).wf(),
        old(mmu)@.ppu.cgb,
    ensures
        final(mmu).wf(),
        final(mmu)@ == (Console {
            ppu: Picture {
                bg_pal: compat_palette(palette@),
                obj_pal: compat_palette(palette@),
                bcps: 0,
                ocps: 0,
                ..old(mmu)@.ppu
            },
            ..old(mmu)@
        }),
{
    let ghost goal = compat_palette(palette@);
    let ghost was = mmu@;
    proof {
        lemma_seeded_ends(was.ppu.bg_pal, goal);
        lemma_seeded_ends(was.ppu.obj_pal, goal);
    }
    for i in 0..4u8
        invariant
            mmu.wf(),
            was == old(mmu)@,
            was.ppu.cgb,
            goal == compat_palette(palette@),
            mmu@ == (Console { ppu: mmu@.ppu, ..was }),
            mmu@.ppu == (Picture {
                bg_pal: mmu@.ppu.bg_pal,
                obj_pal: mmu@.ppu.obj_pal,
                bcps: mmu@.ppu.bcps,
                ocps: mmu@.ppu.ocps,
                ..was.ppu
            }),
            seeded(mmu@.ppu.bg_pal, goal, i as int, 0),
            seeded(mmu@.ppu.obj_pal, goal, i as int, 0),
    {
        let rgb: u32 = palette[i as usize];
        let r: u16 = (rgb / 0x1_0000 % 256 / 8) as u16;
        let g: u16 = (rgb / 0x100 % 256 / 8) as u16;
        let b: u16 = (rgb % 256 / 8) as u16;
        let colour: u16 = r + g * 32 + b * 1024;
        assert(colour == packed(palette@[i as int]));
        for pal in 0..8u8
            invariant
                i < 4,
                mmu.wf(),
                was.ppu.cgb,
                goal == compat_palette(palette@),
                colour == packed(palette@[i as int]),
                mmu@ == (Console { ppu: mmu@.ppu, ..was }),
                mmu@.ppu == (Picture {
                    bg_pal: mmu@.ppu.bg_pal,
                    obj_pal: mmu@.ppu.obj_pal,
                    bcps: mmu@.ppu.bcps,
                    ocps: mmu@.ppu.ocps,
                    ..was.ppu
                }),
                seeded(mmu@.ppu.bg_pal, goal, i as int, pal as int),
                seeded(mmu@.ppu.obj_pal, goal, i as int, pal as int),
        {
            let index: u8 = pal * 8 + i * 2;
            proof {
                assert(goal[index as int] == (colour % 256) as u8);
                assert(goal[index + 1] == (colour / 256) as u8);
                lemma_seeded_one(mmu@.ppu.bg_pal, goal, i as int, pal as int);
                lemma_seeded_one(mmu@.ppu.obj_pal, goal, i as int, pal as int);
            }
            seed_colour(mmu, index, (colour % 256) as u8, (colour / 256) as u8);
        }
        proof {
            lemma_seeded_ends(mmu@.ppu.bg_pal, goal);
            lemma_seeded_ends(mmu@.ppu.obj_pal, goal);
        }
    }
    proof {
        lemma_palette_index(0);
        lemma_seeded_ends(mmu@.ppu.bg_pal, goal);
        lemma_seeded_ends(mmu@.ppu.obj_pal, goal);
    }
    mmu.ppu.write_reg(0xff68, 0);
    mmu.ppu.write_reg(0xff6a, 0);
}

} // verus!
