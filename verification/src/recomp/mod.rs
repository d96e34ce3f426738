//! The recompiler: SM83 machine code in, x86-64 machine code out.

pub mod abi;
pub mod arena;
pub mod bus;
pub mod charting;
pub mod decode;
pub mod descent;
pub mod discover;
pub mod entry;
pub mod exec;
pub mod hosting;
pub mod jumps;
pub mod linking;
pub mod machine;
pub mod manual;
pub mod meaning;
pub mod ordered;
pub mod program;
pub mod reckoning;
pub mod running;
pub mod sm83;
pub mod translate;
pub mod x64;
pub mod x86;

pub use crate::recomp::abi::{GbState, JumpEntry};
pub use crate::recomp::decode::{Flow, Insn};
pub use crate::recomp::discover::Report;
pub use crate::recomp::exec::{BlockKey, CodeCache};
pub use crate::recomp::machine::Emu;
pub use crate::recomp::program::{Context, Link};
pub use crate::recomp::translate::{translate_block, Block};
