//! Program images: a sequence of big-endian 16-bit numbers. The first is the
//! address at which the program starts; the others are the program's words,
//! stored at consecutive addresses from there.

use crate::instructions::wrap_word;
use crate::vm::{MachineState, VirtualMachine, MEMORY_SIZE};
use byteorder::{BigEndian, ByteOrder};
use vstd::prelude::*;
use vstd::slice::slice_subrange;

verus! {

/// Why an image could not be loaded.
#[derive(Debug, Clone, Copy, PartialEq, Eq)]
pub enum ImageError {
    /// The image is too short to hold the start address.
    MissingOrigin,
    /// The program does not fit between its start address and the end of
    /// memory.
    TooLarge,
}

/// The unsigned number whose big-endian encoding is the two bytes.
pub open spec fn big_endian(high: u8, low: u8) -> int {
    high * 256 + low
}

/// The start address that an image of at least two bytes names.
pub open spec fn image_origin(bytes: Seq<u8>) -> u16 {
    big_endian(bytes[0], bytes[1]) as u16
}

/// The number of whole words that follow the start address. A single
/// trailing byte is not a word and is ignored.
pub open spec fn image_len(bytes: Seq<u8>) -> int {
    (bytes.len() - 2) / 2
}

/// The `index`-th word of the program.
pub open spec fn image_word(bytes: Seq<u8>, index: int) -> i16 {
    wrap_word(big_endian(bytes[2 + 2 * index], bytes[3 + 2 * index]))
}

/// Memory `memory` with the first `count` words of the image stored from the
/// image's start address on.
pub open spec fn memory_with_image(memory: Seq<i16>, bytes: Seq<u8>, count: int) -> Seq<i16> {
    Seq::new(
        memory.len(),
        |addr: int|
            if image_origin(bytes) <= addr < image_origin(bytes) + count {
                image_word(bytes, addr - image_origin(bytes))
            } else {
                memory[addr]
            },
    )
}

/// The machine `s` after the image has been loaded: the program counter is
/// at the start address and the program is in memory.
pub open spec fn loaded(s: MachineState, bytes: Seq<u8>) -> MachineState {
    MachineState {
        pc: image_origin(bytes),
        memory: memory_with_image(s.memory, bytes, image_len(bytes)),
        ..s
    }
}

/// What loading the image gives: the error, or nothing where it succeeds.
pub open spec fn load_result(bytes: Seq<u8>) -> Result<(), ImageError> {
    if bytes.len() < 2 {
        Err(ImageError::MissingOrigin)
    } else if image_origin(bytes) + image_len(bytes) > MEMORY_SIZE {
        Err(ImageError::TooLarge)
    } else {
        Ok(())
    }
}

/// `byteorder::BigEndian::read_u16`: the number that the first two bytes of
/// `buf` encode, most significant byte first. The call needs two bytes.
#[verifier::external_body]
fn read_u16_be(buf: &[u8]) -> (value: u16)
    requires
        buf@.len() >= 2,
    ensures
        value == big_endian(buf@[0], buf@[1]),
{
    BigEndian::read_u16(buf)
}

/// `byteorder::BigEndian::read_i16`: the same sixteen bits, read as a signed
/// number in two's complement.
#[verifier::external_body]
fn read_i16_be(buf: &[u8]) -> (value: i16)
    requires
        buf@.len() >= 2,
    ensures
        value == wrap_word(big_endian(buf@[0], buf@[1])),
{
    BigEndian::read_i16(buf)
}

/// Loads a program image into the machine: sets the program counter to the
/// image's start address and stores the program's words from there on.
///
/// An image that cannot be loaded leaves the machine as it was.
pub fn load_image(vm: &mut VirtualMachine, image: &[u8]) -> (result: Result<(), ImageError>)
    ensures
        result == load_result(image@),
        result is Ok ==> final(vm)@ == loaded(old(vm)@, image@),
        result is Err ==> final(vm)@ == old(vm)@,
{
    if image.len() < 2 {
        return Err(ImageError::MissingOrigin);
    }
    let origin: u16 = read_u16_be(slice_subrange(image, 0, 2));
    let count: usize = (image.len() - 2) / 2;
    if count > MEMORY_SIZE - origin as usize {
        return Err(ImageError::TooLarge);
    }
    vm.set_pc(origin);
    let mut index: usize = 0;
    assert(vm@.memory =~= memory_with_image(old(vm)@.memory, image@, 0));
    while index < count
        invariant
            image@.len() >= 2,
            origin == image_origin(image@),
            count == image_len(image@),
            origin + count <= MEMORY_SIZE,
            index <= count,
            old(vm)@.wf(),
            vm@.wf(),
            vm@ == (MachineState {
                pc: origin,
                memory: memory_with_image(old(vm)@.memory, image@, index as int),
                ..old(vm)@
            }),
        decreases count - index,
    {
        let word: i16 = read_i16_be(slice_subrange(image, 2 + 2 * index, 4 + 2 * index));
        let addr: u16 = (origin as usize + index) as u16;
        vm.set_memory(addr, word);
        index = index + 1;
        assert(vm@.memory =~= memory_with_image(old(vm)@.memory, image@, index as int));
    }
    Ok(())
}

} // verus!
