//! Static recompilation of Game Boy cartridges to x86-64, with the hardware
//! model the translated code runs against and the container a converted game
//! is shipped in.

pub mod bytes;
pub mod cli;
pub mod convert;
pub mod figures;
pub mod front;
pub mod hw;
pub mod payload;
pub mod recomp;
pub mod text;
pub mod window;
