//! What the drawing side shares with the engine: the handle of a shader
//! program, and how the status and the log of a build are read.

use vstd::prelude::*;

verus! {

/// The handle of a linked shader program.
#[derive(Debug, Clone, Copy, PartialEq, Eq)]
pub struct ShaderProgram {
    pub id: u32,
}

/// Whether a compile or link status reports a failure: every status that is
/// not positive does.
pub fn build_failed(status: i32) -> (failed: bool)
    ensures
        failed == (status <= 0),
{
    status <= 0
}

/// The byte that holds the same eight bits as a signed character.
pub open spec fn byte_of(character: i8) -> u8 {
    if character >= 0 {
        character as u8
    } else {
        (character + 256) as u8
    }
}

/// The bytes of an information log that was read as signed characters.
pub fn log_bytes(log: &Vec<i8>) -> (bytes: Vec<u8>)
    ensures
        bytes@.len() == log@.len(),
        forall|i: int| 0 <= i < log@.len() ==> bytes@[i] == byte_of(log@[i]),
{
    let mut bytes: Vec<u8> = Vec::with_capacity(log.len());
    let mut i: usize = 0;
    while i < log.len()
        invariant
            i <= log.len(),
            bytes@.len() == i,
            forall|j: int| 0 <= j < i ==> bytes@[j] == byte_of(log@[j]),
        decreases log.len() - i,
    {
        let character: i8 = log[i];
        let byte: u8 = if character >= 0 {
            character as u8
        } else {
            (character as i16 + 256) as u8
        };
        bytes.push(byte);
        i += 1;
    }
    bytes
}

} // verus!
