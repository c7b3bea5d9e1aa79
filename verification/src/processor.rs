//! The instruction processor: one call per invocation, one account touched.
//!
//! An invocation hands in a list of accounts and the instruction bytes. The
//! first account holds the counter. The processor decodes the instruction,
//! reads the record where the instruction needs it, and writes the new record
//! back over the first four bytes of the account.

use crate::codec::{
    decode_instruction, decode_record, encode_record, instruction_bytes,
    lemma_instruction_round_trip, lemma_le_value_of_bytes, parse_instruction, parse_record,
    record_bytes, CounterRecord, Instruction, RECORD_LEN,
};
use crate::error::CounterError;
use vstd::prelude::*;

verus! {

/// The 32-byte identity of a program or of an account's owner.
pub type Address = [u8; 32];

/// One account as the host hands it in: who owns it, and its storage.
///
/// The storage has the length the host gave it; the processor writes into it
/// and never resizes it.
#[derive(Debug, PartialEq, Eq)]
pub struct Account {
    pub owner: Address,
    pub data: Vec<u8>,
}

/// An account as the contracts see it: its owner and its bytes.
pub struct AccountView {
    pub owner: Address,
    pub data: Seq<u8>,
}

impl View for Account {
    type V = AccountView;

    open spec fn view(&self) -> AccountView {
        AccountView { owner: self.owner, data: self.data@ }
    }
}

/// The sum of `counter` and `operand`, reduced modulo 2^32.
pub open spec fn wrapping_sum(counter: u32, operand: u32) -> u32 {
    ((counter + operand) % 0x1_0000_0000) as u32
}

/// The difference of `counter` and `operand`, reduced modulo 2^32.
pub open spec fn wrapping_difference(counter: u32, operand: u32) -> u32 {
    ((counter - operand) % 0x1_0000_0000) as u32
}

/// An account's bytes once `record` is written over their first four, or
/// `WriteFailure` where there are not four bytes to write over.
pub open spec fn stored(record: CounterRecord, data: Seq<u8>) -> Result<Seq<u8>, CounterError> {
    if data.len() < RECORD_LEN {
        Err(CounterError::WriteFailure)
    } else {
        Ok(record_bytes(record) + data.skip(4))
    }
}

/// The counter after `instruction`, given the counter before it. `Initialize`
/// does not look at the counter before.
pub open spec fn next_value(instruction: Instruction, counter: u32) -> u32 {
    match instruction {
        Instruction::Initialize(value) => value,
        Instruction::Increment(operand) => wrapping_sum(counter, operand),
        Instruction::Decrement(operand) => wrapping_difference(counter, operand),
    }
}

/// What `instruction` makes of an account's bytes: the new bytes, or the
/// error that leaves them as they are. Only `Increment` and `Decrement` read
/// the record that is there.
pub open spec fn applied(instruction: Instruction, data: Seq<u8>) -> Result<Seq<u8>, CounterError> {
    match instruction {
        Instruction::Initialize(value) => stored(CounterRecord { value }, data),
        _ => match parse_record(data) {
            Ok(record) => stored(
                CounterRecord { value: next_value(instruction, record.value) },
                data,
            ),
            Err(e) => Err(e),
        },
    }
}

/// Writes `record` over the first four bytes of `data`.
///
/// Fails with `WriteFailure`, leaving `data` as it was, exactly when `data`
/// has fewer than four bytes.
pub fn store_record(record: &CounterRecord, data: &mut [u8]) -> (r: Result<(), CounterError>)
    ensures
        r is Ok <==> old(data)@.len() >= RECORD_LEN,
        match stored(*record, old(data)@) {
            Ok(bytes) => r is Ok && final(data)@ == bytes,
            Err(e) => r == Err::<(), CounterError>(e) && final(data)@ == old(data)@,
        },
{
    if data.len() < RECORD_LEN {
        return Err(CounterError::WriteFailure);
    }
    let bytes = encode_record(record);
    let mut i: usize = 0;
    while i < RECORD_LEN
        invariant
            i <= RECORD_LEN,
            bytes@ == record_bytes(*record),
            bytes@.len() == RECORD_LEN,
            data@.len() == old(data)@.len(),
            data@.len() >= RECORD_LEN,
            forall|j: int| 0 <= j < i ==> data@[j] == bytes@[j],
            forall|j: int| i <= j < data@.len() ==> data@[j] == old(data)@[j],
        decreases RECORD_LEN - i,
    {
        data[i] = bytes[i];
        i += 1;
    }
    Ok(())
}

/// Computes the counter that `instruction` leaves, from the counter before
/// it: the operand itself, or the sum or the difference modulo 2^32.
pub fn advance(instruction: &Instruction, counter: u32) -> (value: u32)
    ensures
        value == next_value(*instruction, counter),
{
    match instruction {
        Instruction::Initialize(value) => *value,
        Instruction::Increment(operand) => counter.wrapping_add(*operand),
        Instruction::Decrement(operand) => counter.wrapping_sub(*operand),
    }
}

/// Applies one decoded instruction to an account's bytes.
///
/// `Initialize` writes its operand without reading what is there.
/// `Increment` and `Decrement` read the record, add or subtract modulo 2^32,
/// and write the result back. On any error `data` is left as it was.
pub fn apply(instruction: &Instruction, data: &mut [u8]) -> (r: Result<(), CounterError>)
    ensures
        match applied(*instruction, old(data)@) {
            Ok(bytes) => r is Ok && final(data)@ == bytes,
            Err(e) => r == Err::<(), CounterError>(e) && final(data)@ == old(data)@,
        },
{
    let value = match instruction {
        Instruction::Initialize(value) => *value,
        _ => match decode_record(data) {
            Ok(record) => advance(instruction, record.value),
            Err(e) => return Err(e),
        },
    };
    store_record(&CounterRecord { value }, data)
}

/// The operand that a successful invocation reports to the host's log:
/// `Increment` and `Decrement` announce theirs, `Initialize` is silent.
pub open spec fn announced(instruction: Instruction) -> Option<u32> {
    match instruction {
        Instruction::Initialize(_) => None,
        Instruction::Increment(operand) => Some(operand),
        Instruction::Decrement(operand) => Some(operand),
    }
}

/// Tells which operand, if any, the host is to log once `instruction` has
/// been applied.
pub fn announcement(instruction: &Instruction) -> (r: Option<u32>)
    ensures
        r == announced(*instruction),
{
    match instruction {
        Instruction::Initialize(_) => None,
        Instruction::Increment(operand) => Some(*operand),
        Instruction::Decrement(operand) => Some(*operand),
    }
}

/// What one invocation makes of the first account's bytes: the new bytes, or
/// the error that leaves them as they are. The instruction is decoded before
/// the account is read.
pub open spec fn outcome(data: Seq<u8>, instruction_data: Seq<u8>) -> Result<Seq<u8>, CounterError> {
    match parse_instruction(instruction_data) {
        Ok(instruction) => applied(instruction, data),
        Err(e) => Err(e),
    }
}

/// The first account's bytes after one invocation, failed or not.
pub open spec fn bytes_after(data: Seq<u8>, instruction_data: Seq<u8>) -> Seq<u8> {
    match outcome(data, instruction_data) {
        Ok(bytes) => bytes,
        Err(_) => data,
    }
}

/// Processes one invocation: decodes `instruction_data` and applies it to
/// the first of `accounts`.
///
/// Fails with `MissingAccount` when `accounts` is empty, whatever the
/// instruction bytes hold; otherwise with the error of decoding or applying
/// the instruction. Only the first account's bytes can change, and only on
/// success; nothing is ever resized.
pub fn process_instructions(
    _program_id: &Address,
    accounts: &mut [Account],
    instruction_data: &[u8],
) -> (r: Result<(), CounterError>)
    ensures
        final(accounts)@.len() == old(accounts)@.len(),
        forall|i: int| 1 <= i < old(accounts)@.len() ==> final(accounts)@[i] == old(accounts)@[i],
        old(accounts)@.len() == 0 ==> r == Err::<(), CounterError>(CounterError::MissingAccount),
        old(accounts)@.len() > 0 ==> {
            let before = old(accounts)@[0]@;
            let after = final(accounts)@[0]@;
            &&& after.owner == before.owner
            &&& after.data.len() == before.data.len()
            &&& after.data == bytes_after(before.data, instruction_data@)
            &&& match outcome(before.data, instruction_data@) {
                Ok(_) => r is Ok,
                Err(e) => r == Err::<(), CounterError>(e) && after == before,
            }
        },
{
    if accounts.len() == 0 {
        return Err(CounterError::MissingAccount);
    }
    let instruction = match decode_instruction(instruction_data) {
        Ok(instruction) => instruction,
        Err(e) => return Err(e),
    };
    apply(&instruction, accounts[0].data.as_mut_slice())
}

/// A record written into an account is the record read from it afterwards,
/// and the bytes behind the first four stay as they were.
pub proof fn lemma_stored_record_reads_back(record: CounterRecord, data: Seq<u8>)
    requires
        data.len() >= RECORD_LEN,
    ensures
        stored(record, data) matches Ok(bytes) && {
            &&& bytes.len() == data.len()
            &&& bytes.skip(4) == data.skip(4)
            &&& parse_record(bytes) == Ok::<CounterRecord, CounterError>(record)
        },
{
    lemma_le_value_of_bytes(record.value);
}

/// No invocation resizes the account or touches what lies behind the record,
/// whether it succeeds or fails.
pub proof fn lemma_only_the_record_changes(data: Seq<u8>, instruction_data: Seq<u8>)
    ensures
        bytes_after(data, instruction_data).len() == data.len(),
        bytes_after(data, instruction_data).skip(4) == data.skip(4),
{
}

/// Initialising twice leaves the second value, whatever the first was: the
/// account ends as if only the second call had been made. Where the account
/// has room for a record both calls succeed and the counter read back is the
/// second value; where it has not, both fail with `WriteFailure`.
pub proof fn lemma_initialize_overwrites(data: Seq<u8>, first: u32, second: u32)
    ensures
        ({
            let set_first = instruction_bytes(Instruction::Initialize(first));
            let set_second = instruction_bytes(Instruction::Initialize(second));
            let between = bytes_after(data, set_first);
            let end = bytes_after(between, set_second);
            &&& end == bytes_after(data, set_second)
            &&& data.len() >= RECORD_LEN ==> {
                &&& outcome(data, set_first) is Ok
                &&& outcome(between, set_second) is Ok
                &&& parse_record(end) == Ok::<CounterRecord, CounterError>(
                    CounterRecord { value: second },
                )
            }
            &&& data.len() < RECORD_LEN ==> {
                &&& outcome(data, set_first) == Err::<Seq<u8>, CounterError>(
                    CounterError::WriteFailure,
                )
                &&& outcome(between, set_second) == Err::<Seq<u8>, CounterError>(
                    CounterError::WriteFailure,
                )
                &&& end == data
            }
        }),
{
    lemma_instruction_round_trip(Instruction::Initialize(first));
    lemma_instruction_round_trip(Instruction::Initialize(second));
    if data.len() >= RECORD_LEN {
        lemma_stored_record_reads_back(CounterRecord { value: first }, data);
        let between = bytes_after(data, instruction_bytes(Instruction::Initialize(first)));
        lemma_stored_record_reads_back(CounterRecord { value: second }, between);
        lemma_stored_record_reads_back(CounterRecord { value: second }, data);
    }
}

/// Adding twice modulo 2^32 is adding the sum modulo 2^32.
pub proof fn lemma_wrapping_sum_twice(start: u32, a: u32, b: u32)
    ensures
        wrapping_sum(wrapping_sum(start, a), b) == ((start + a + b) % 0x1_0000_0000) as u32,
{
}

/// Subtracting more than is there comes out 2^32 higher.
pub proof fn lemma_wrapping_difference_below_zero(counter: u32, operand: u32)
    requires
        counter < operand,
    ensures
        wrapping_difference(counter, operand) == counter - operand + 0x1_0000_0000,
{
}

/// One invocation on an account that holds a record: the encoded
/// `instruction` is accepted, the counter read back afterwards is
/// `next_value` of the counter before, and the bytes behind the record stay.
pub proof fn lemma_invocation_moves_counter(data: Seq<u8>, instruction: Instruction)
    requires
        data.len() >= RECORD_LEN,
    ensures
        ({
            let before = parse_record(data)->Ok_0;
            let after = bytes_after(data, instruction_bytes(instruction));
            &&& outcome(data, instruction_bytes(instruction)) is Ok
            &&& after.len() == data.len()
            &&& after.skip(4) == data.skip(4)
            &&& parse_record(after) == Ok::<CounterRecord, CounterError>(
                CounterRecord { value: next_value(instruction, before.value) },
            )
        }),
{
    lemma_instruction_round_trip(instruction);
    let before = parse_record(data)->Ok_0;
    lemma_stored_record_reads_back(
        CounterRecord { value: next_value(instruction, before.value) },
        data,
    );
}

/// Increments add up: on an account with room for a record, initialising to
/// `start` and then incrementing by `a` and by `b` succeeds each time and
/// leaves the counter at `start + a + b` modulo 2^32.
pub proof fn lemma_increments_add_up(data: Seq<u8>, start: u32, a: u32, b: u32)
    requires
        data.len() >= RECORD_LEN,
    ensures
        ({
            let set = instruction_bytes(Instruction::Initialize(start));
            let add_a = instruction_bytes(Instruction::Increment(a));
            let add_b = instruction_bytes(Instruction::Increment(b));
            let d1 = bytes_after(data, set);
            let d2 = bytes_after(d1, add_a);
            let d3 = bytes_after(d2, add_b);
            &&& outcome(data, set) is Ok
            &&& outcome(d1, add_a) is Ok
            &&& outcome(d2, add_b) is Ok
            &&& parse_record(d3) == Ok::<CounterRecord, CounterError>(
                CounterRecord { value: ((start + a + b) % 0x1_0000_0000) as u32 },
            )
        }),
{
    let d1 = bytes_after(data, instruction_bytes(Instruction::Initialize(start)));
    let d2 = bytes_after(d1, instruction_bytes(Instruction::Increment(a)));
    lemma_invocation_moves_counter(data, Instruction::Initialize(start));
    lemma_invocation_moves_counter(d1, Instruction::Increment(a));
    lemma_invocation_moves_counter(d2, Instruction::Increment(b));
    lemma_wrapping_sum_twice(start, a, b);
}

/// Decrements wrap: on an account with room for a record, initialising to
/// `start` and then decrementing by `operand` succeeds both times and leaves
/// the counter at `start - operand` modulo 2^32, so going below zero comes
/// out at the top of the range.
pub proof fn lemma_decrement_wraps(data: Seq<u8>, start: u32, operand: u32)
    requires
        data.len() >= RECORD_LEN,
    ensures
        ({
            let set = instruction_bytes(Instruction::Initialize(start));
            let subtract = instruction_bytes(Instruction::Decrement(operand));
            let d1 = bytes_after(data, set);
            let d2 = bytes_after(d1, subtract);
            &&& outcome(data, set) is Ok
            &&& outcome(d1, subtract) is Ok
            &&& parse_record(d2) == Ok::<CounterRecord, CounterError>(
                CounterRecord { value: ((start - operand) % 0x1_0000_0000) as u32 },
            )
            &&& start < operand ==> parse_record(d2) == Ok::<CounterRecord, CounterError>(
                CounterRecord { value: (start - operand + 0x1_0000_0000) as u32 },
            )
        }),
{
    let d1 = bytes_after(data, instruction_bytes(Instruction::Initialize(start)));
    lemma_invocation_moves_counter(data, Instruction::Initialize(start));
    lemma_invocation_moves_counter(d1, Instruction::Decrement(operand));
    if start < operand {
        lemma_wrapping_difference_below_zero(start, operand);
    }
}

/// Instruction bytes that are too short, or that start with a byte that is no
/// tag, are rejected with `MalformedInstruction` and the account keeps its
/// bytes.
pub proof fn lemma_malformed_instruction_is_rejected(data: Seq<u8>, instruction_data: Seq<u8>)
    requires
        instruction_data.len() < 5 || instruction_data[0] > 2,
    ensures
        outcome(data, instruction_data) == Err::<Seq<u8>, CounterError>(
            CounterError::MalformedInstruction,
        ),
        bytes_after(data, instruction_data) == data,
{
}

/// An account too short to hold a record cannot be incremented or
/// decremented: the call fails with `MalformedRecord` and the account keeps
/// its bytes.
pub proof fn lemma_short_account_is_rejected(data: Seq<u8>, operand: u32)
    requires
        data.len() < RECORD_LEN,
    ensures
        ({
            let add = instruction_bytes(Instruction::Increment(operand));
            let subtract = instruction_bytes(Instruction::Decrement(operand));
            &&& outcome(data, add) == Err::<Seq<u8>, CounterError>(CounterError::MalformedRecord)
            &&& bytes_after(data, add) == data
            &&& outcome(data, subtract) == Err::<Seq<u8>, CounterError>(
                CounterError::MalformedRecord,
            )
            &&& bytes_after(data, subtract) == data
        }),
{
    lemma_instruction_round_trip(Instruction::Increment(operand));
    lemma_instruction_round_trip(Instruction::Decrement(operand));
}

} // verus!
