# gbtoexe

Turns a Game Boy cartridge into a native executable: a static recompiler from SM83 to
x86-64, the hardware model that the translated code runs against, and the container that
a converted game is shipped in. The library is written in Verus, and every function of
it is proved to do what its contract says.

## Layout

| Where | What |
| --- | --- |
| `src/hw` | The hardware: cartridge and mappers, clock, PPU, APU, timer, joypad, the memory map. Each part has a model (`Board`, `Picture`, `Sound`, `Console`, ...) and transitions on it; the executable code is proved to follow them. |
| `src/recomp` | The recompiler. `decode` and `discover` find code (`descent` says how much of it), `translate` emits it through the encoder in `x64`, `exec` keeps it in an arena and links it, `machine` runs the game around it. |
| `src/recomp/sm83.rs`, `x86.rs` | What the two processors do. `meaning` proves that the code emitted for every instruction, and for every block, does on the second what the instruction does on the first. |
| `src/recomp/linking.rs`, `arena.rs`, `entry.rs`, `hosting.rs`, `jumps.rs` | That links land, that the bytes in the arena are those programs, that the trampoline enters and returns, that the helpers behave as `meaning` supposes, and that a hit in the inline jump cache leads to the right block. |
| `src/payload` | The container: settings, checksum, footer. |
| `src/cli.rs`, `convert.rs`, `front.rs`, `text.rs` | The command line, the conversion, and the front-end's decisions. |
| `tests` | Tests, among them an x86-64 interpreter that runs the emitted bytes and a plain SM83 interpreter to compare with. |
| `app` | The program around the library: files, the window, the sound card, and the jump into machine code. |

## What is proved

Functions named `law_...` state what holds across the library: that a translated block
does what its instructions do, that a payload is found at the end of any stub and damage
to it is caught, that a save survives, that a frame is finished within its time, and so
on. What the library takes on trust from the standard library is the wall clock, lossy
UTF-8 decoding, the quoting of a string in a message, and appending a character to one.
