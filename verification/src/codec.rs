//! The two wire formats: the instruction envelope and the counter record.
//!
//! Both are fixed-width and positional. A record is the counter as four
//! little-endian bytes; an instruction is one tag byte followed by its
//! operand as four little-endian bytes.

use crate::error::CounterError;
use vstd::prelude::*;
use vstd::slice::slice_subrange;

verus! {

/// Length of an encoded counter record.
pub const RECORD_LEN: usize = 4;

/// Length of an encoded instruction: the tag and the operand.
pub const INSTRUCTION_LEN: usize = 5;

/// The persisted state of one account: the counter.
#[derive(Clone, Copy, Debug, PartialEq, Eq, Structural)]
pub struct CounterRecord {
    pub value: u32,
}

/// One request to the program. The operand is the value to set, to add or to
/// subtract.
#[derive(Clone, Copy, Debug, PartialEq, Eq, Structural)]
pub enum Instruction {
    Initialize(u32),
    Increment(u32),
    Decrement(u32),
}

impl Instruction {
    /// The byte that leads the instruction's encoding.
    pub open spec fn tag(self) -> u8 {
        match self {
            Instruction::Initialize(_) => 0,
            Instruction::Increment(_) => 1,
            Instruction::Decrement(_) => 2,
        }
    }

    /// The value to set, to add or to subtract.
    pub open spec fn operand(self) -> u32 {
        match self {
            Instruction::Initialize(value) => value,
            Instruction::Increment(value) => value,
            Instruction::Decrement(value) => value,
        }
    }
}

/// The four bytes of `value`, least significant first.
pub open spec fn le_bytes(value: u32) -> Seq<u8> {
    seq![
        (value % 256) as u8,
        (value / 256 % 256) as u8,
        (value / 65536 % 256) as u8,
        (value / 16777216) as u8,
    ]
}

/// The integer whose little-endian bytes are the first four of `bytes`.
pub open spec fn le_value(bytes: Seq<u8>) -> u32
    recommends
        bytes.len() >= 4,
{
    (bytes[0] + 256 * bytes[1] + 65536 * bytes[2] + 16777216 * bytes[3]) as u32
}

/// Reading back the bytes of an integer gives that integer.
pub proof fn lemma_le_value_of_bytes(value: u32)
    ensures
        le_bytes(value).len() == 4,
        le_value(le_bytes(value)) == value,
{
}

/// Writing out the integer read from four bytes gives those bytes.
pub proof fn lemma_le_bytes_of_value(bytes: Seq<u8>)
    requires
        bytes.len() == 4,
    ensures
        le_bytes(le_value(bytes)) == bytes,
{
    let high: int = bytes[1] + 256 * bytes[2] + 65536 * bytes[3];
    let higher: int = bytes[2] + 256 * bytes[3];
    let value: int = bytes[0] + 256 * high;
    assert(value == le_value(bytes));
    assert(value / 256 == high);
    assert(high / 256 == higher);
    assert(le_bytes(le_value(bytes)) =~= bytes);
}

/// The encoding of a record: its counter, little-endian.
pub open spec fn record_bytes(record: CounterRecord) -> Seq<u8> {
    le_bytes(record.value)
}

/// What decoding `bytes` as a record gives: the counter held in the first
/// four bytes, whatever follows them.
pub open spec fn parse_record(bytes: Seq<u8>) -> Result<CounterRecord, CounterError> {
    if bytes.len() < RECORD_LEN {
        Err(CounterError::MalformedRecord)
    } else {
        Ok(CounterRecord { value: le_value(bytes) })
    }
}

/// The error type of borsh's functions, `borsh::io::Error`, which is std's.
/// Nothing is known of a value of it; the codec only tells failure from
/// success.
#[verifier::external_type_specification]
#[verifier::external_body]
pub struct ExIoError(std::io::Error);

/// Calls `borsh::to_vec` on a `u32`.
///
/// Not proved, taken from borsh: the call succeeds and gives the four bytes
/// of `value`, least significant first. borsh writes an integer with
/// `to_le_bytes` into a vector that grows as needed, so the write has nothing
/// to fail on.
#[verifier::external_body]
fn borsh_u32_to_vec(value: u32) -> (r: Result<Vec<u8>, std::io::Error>)
    ensures
        r is Ok,
        r matches Ok(bytes) ==> bytes@ == le_bytes(value),
{
    borsh::to_vec(&value)
}

/// Calls `borsh::from_slice` for a `u32`.
///
/// Not proved, taken from borsh: the call succeeds on exactly four bytes,
/// rejecting fewer as too short and more as not all read, and on success
/// gives the integer that has these as its little-endian bytes.
#[verifier::external_body]
fn borsh_u32_from_slice(bytes: &[u8]) -> (r: Result<u32, std::io::Error>)
    ensures
        r is Ok <==> bytes@.len() == 4,
        r matches Ok(value) ==> value == le_value(bytes@),
{
    borsh::from_slice::<u32>(bytes)
}

/// Encodes a record as exactly four bytes.
pub fn encode_record(record: &CounterRecord) -> (bytes: Vec<u8>)
    ensures
        bytes@ == record_bytes(*record),
        bytes@.len() == RECORD_LEN,
{
    match borsh_u32_to_vec(record.value) {
        Ok(bytes) => bytes,
        Err(_) => unreached(),
    }
}

/// Decodes the record at the start of `bytes`.
///
/// Fails with `MalformedRecord` exactly when fewer than four bytes are there.
pub fn decode_record(bytes: &[u8]) -> (r: Result<CounterRecord, CounterError>)
    ensures
        r == parse_record(bytes@),
        r is Ok <==> bytes@.len() >= RECORD_LEN,
{
    if bytes.len() < RECORD_LEN {
        return Err(CounterError::MalformedRecord);
    }
    match borsh_u32_from_slice(slice_subrange(bytes, 0, RECORD_LEN)) {
        Ok(value) => Ok(CounterRecord { value }),
        Err(_) => Err(CounterError::MalformedRecord),
    }
}

/// The encoding of an instruction: its tag, then its operand, little-endian.
pub open spec fn instruction_bytes(instruction: Instruction) -> Seq<u8> {
    seq![instruction.tag()] + le_bytes(instruction.operand())
}

/// What decoding `bytes` as an instruction gives: the tag in the first byte
/// picks the variant, the next four bytes are the operand, and whatever
/// follows them is not looked at.
pub open spec fn parse_instruction(bytes: Seq<u8>) -> Result<Instruction, CounterError> {
    if bytes.len() < INSTRUCTION_LEN {
        Err(CounterError::MalformedInstruction)
    } else {
        let operand = le_value(bytes.subrange(1, 5));
        if bytes[0] == 0 {
            Ok(Instruction::Initialize(operand))
        } else if bytes[0] == 1 {
            Ok(Instruction::Increment(operand))
        } else if bytes[0] == 2 {
            Ok(Instruction::Decrement(operand))
        } else {
            Err(CounterError::MalformedInstruction)
        }
    }
}

/// Encodes an instruction as exactly five bytes.
pub fn encode_instruction(instruction: &Instruction) -> (bytes: Vec<u8>)
    ensures
        bytes@ == instruction_bytes(*instruction),
        bytes@.len() == INSTRUCTION_LEN,
{
    let (tag, operand): (u8, u32) = match instruction {
        Instruction::Initialize(value) => (0, *value),
        Instruction::Increment(value) => (1, *value),
        Instruction::Decrement(value) => (2, *value),
    };
    let mut bytes: Vec<u8> = Vec::new();
    bytes.push(tag);
    let mut tail = match borsh_u32_to_vec(operand) {
        Ok(tail) => tail,
        Err(_) => unreached(),
    };
    bytes.append(&mut tail);
    bytes
}

/// Decodes the instruction at the start of `bytes`.
///
/// Fails with `MalformedInstruction` exactly when fewer than five bytes are
/// there or the first is none of the three tags.
pub fn decode_instruction(bytes: &[u8]) -> (r: Result<Instruction, CounterError>)
    ensures
        r == parse_instruction(bytes@),
        r is Ok <==> bytes@.len() >= INSTRUCTION_LEN && bytes@[0] <= 2,
{
    if bytes.len() < INSTRUCTION_LEN {
        return Err(CounterError::MalformedInstruction);
    }
    let operand = match borsh_u32_from_slice(slice_subrange(bytes, 1, INSTRUCTION_LEN)) {
        Ok(value) => value,
        Err(_) => return Err(CounterError::MalformedInstruction),
    };
    let tag: u8 = bytes[0];
    if tag == 0 {
        Ok(Instruction::Initialize(operand))
    } else if tag == 1 {
        Ok(Instruction::Increment(operand))
    } else if tag == 2 {
        Ok(Instruction::Decrement(operand))
    } else {
        Err(CounterError::MalformedInstruction)
    }
}

/// Decoding an encoded record gives the record back, for every counter value.
pub proof fn lemma_record_round_trip(record: CounterRecord)
    ensures
        record_bytes(record).len() == RECORD_LEN,
        parse_record(record_bytes(record)) == Ok::<CounterRecord, CounterError>(record),
{
    lemma_le_value_of_bytes(record.value);
}

/// Encoding the record decoded from exactly four bytes gives those bytes
/// back: the record format loses nothing.
pub proof fn lemma_record_bytes_round_trip(bytes: Seq<u8>)
    requires
        bytes.len() == RECORD_LEN,
    ensures
        parse_record(bytes) matches Ok(record) && record_bytes(record) == bytes,
{
    lemma_le_bytes_of_value(bytes);
}

/// Decoding an encoded instruction gives the instruction back, for every
/// variant and operand.
pub proof fn lemma_instruction_round_trip(instruction: Instruction)
    ensures
        instruction_bytes(instruction).len() == INSTRUCTION_LEN,
        parse_instruction(instruction_bytes(instruction)) == Ok::<Instruction, CounterError>(
            instruction,
        ),
{
    let bytes = instruction_bytes(instruction);
    lemma_le_value_of_bytes(instruction.operand());
    assert(bytes.subrange(1, 5) =~= le_bytes(instruction.operand()));
}

} // verus!
