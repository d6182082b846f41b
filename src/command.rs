//! Lines typed by the operator on the server's console.

use vstd::prelude::*;
use vstd::string::StringSliceAdditionalSpecFns;

verus! {

/// What an operator line asks for.
#[derive(Debug, Clone, Copy, PartialEq, Eq, Structural)]
pub enum Command {
    /// `/exit`: stop the server.
    Exit,
    /// An empty line: nothing.
    Nothing,
    /// Anything else: rejected.
    Unknown,
}

/// The bytes of `/exit`.
pub open spec fn exit_bytes() -> Seq<u8> {
    seq![0x2fu8, 0x65u8, 0x78u8, 0x69u8, 0x74u8]
}

/// Reads an operator line, already trimmed of surrounding white space.
pub fn parse_command(line: &str) -> (r: Command)
    ensures
        r == if line.spec_bytes() == exit_bytes() {
            Command::Exit
        } else if line.spec_bytes().len() == 0 {
            Command::Nothing
        } else {
            Command::Unknown
        },
{
    let b = line.as_bytes();
    if b.len() == 0 {
        return Command::Nothing;
    }
    if b.len() == 5 && b[0] == 0x2f && b[1] == 0x65 && b[2] == 0x78 && b[3] == 0x69 && b[4]
        == 0x74 {
        assert(b@ =~= exit_bytes());
        return Command::Exit;
    }
    Command::Unknown
}

} // verus!
