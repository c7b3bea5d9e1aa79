use counter_program::codec::{
    decode_record, encode_instruction, CounterRecord, Instruction,
};
use counter_program::error::CounterError;
use counter_program::process_instructions;
use counter_program::processor::{
    advance, announcement, apply, store_record, Account, Address,
};

const PROGRAM: Address = [7u8; 32];
const OWNER: Address = [3u8; 32];

fn account(data: &[u8]) -> Account {
    Account {
        owner: OWNER,
        data: data.to_vec(),
    }
}

fn run(accounts: &mut [Account], instruction: Instruction) -> Result<(), CounterError> {
    process_instructions(&PROGRAM, accounts, &encode_instruction(&instruction))
}

fn counter(account: &Account) -> u32 {
    decode_record(&account.data).unwrap().value
}

#[test]
fn initialize_writes_the_operand() {
    let mut accounts = vec![account(&[9, 9, 9, 9])];
    assert_eq!(run(&mut accounts, Instruction::Initialize(0x0102_0304)), Ok(()));
    assert_eq!(accounts[0].data, vec![4, 3, 2, 1]);
}

#[test]
fn initialize_twice_keeps_the_second_value() {
    for (first, second) in [(5u32, 9u32), (u32::MAX, 0), (0, u32::MAX), (12, 12)] {
        let mut accounts = vec![account(&[0xAA, 0xBB, 0xCC, 0xDD])];
        assert_eq!(run(&mut accounts, Instruction::Initialize(first)), Ok(()));
        assert_eq!(run(&mut accounts, Instruction::Initialize(second)), Ok(()));
        assert_eq!(counter(&accounts[0]), second);

        let mut once = vec![account(&[0xAA, 0xBB, 0xCC, 0xDD])];
        assert_eq!(run(&mut once, Instruction::Initialize(second)), Ok(()));
        assert_eq!(accounts, once);
    }
}

#[test]
fn increments_add_up() {
    let mut accounts = vec![account(&[0; 4])];
    assert_eq!(run(&mut accounts, Instruction::Initialize(10)), Ok(()));
    assert_eq!(run(&mut accounts, Instruction::Increment(20)), Ok(()));
    assert_eq!(run(&mut accounts, Instruction::Increment(12)), Ok(()));
    assert_eq!(counter(&accounts[0]), 42);
    assert_eq!(accounts[0].data, vec![42, 0, 0, 0]);
}

#[test]
fn increments_wrap_past_the_top() {
    let mut accounts = vec![account(&[0; 4])];
    assert_eq!(run(&mut accounts, Instruction::Initialize(u32::MAX - 1)), Ok(()));
    assert_eq!(run(&mut accounts, Instruction::Increment(3)), Ok(()));
    assert_eq!(counter(&accounts[0]), 1);
    assert_eq!(run(&mut accounts, Instruction::Increment(u32::MAX)), Ok(()));
    assert_eq!(counter(&accounts[0]), 0);
}

#[test]
fn decrement_subtracts() {
    let mut accounts = vec![account(&[0; 4])];
    assert_eq!(run(&mut accounts, Instruction::Initialize(300)), Ok(()));
    assert_eq!(run(&mut accounts, Instruction::Decrement(45)), Ok(()));
    assert_eq!(counter(&accounts[0]), 255);
    assert_eq!(accounts[0].data, vec![255, 0, 0, 0]);
}

#[test]
fn decrement_below_zero_wraps() {
    let mut accounts = vec![account(&[1, 2, 3, 4])];
    assert_eq!(run(&mut accounts, Instruction::Initialize(0)), Ok(()));
    assert_eq!(run(&mut accounts, Instruction::Decrement(1)), Ok(()));
    assert_eq!(counter(&accounts[0]), 4_294_967_295);
    assert_eq!(accounts[0].data, vec![255, 255, 255, 255]);
}

#[test]
fn malformed_instruction_leaves_the_account() {
    let mut accounts = vec![account(&[1, 2, 3, 4])];
    assert_eq!(
        process_instructions(&PROGRAM, &mut accounts, &[5]),
        Err(CounterError::MalformedInstruction)
    );
    assert_eq!(accounts, vec![account(&[1, 2, 3, 4])]);

    assert_eq!(
        process_instructions(&PROGRAM, &mut accounts, &[3, 0, 0, 0, 0]),
        Err(CounterError::MalformedInstruction)
    );
    assert_eq!(
        process_instructions(&PROGRAM, &mut accounts, &[]),
        Err(CounterError::MalformedInstruction)
    );
    assert_eq!(
        process_instructions(&PROGRAM, &mut accounts, &[1, 1, 0, 0]),
        Err(CounterError::MalformedInstruction)
    );
    assert_eq!(accounts, vec![account(&[1, 2, 3, 4])]);
}

#[test]
fn increment_on_a_short_account_is_rejected() {
    for data in [&[][..], &[1][..], &[1, 2][..], &[1, 2, 3][..]] {
        let mut accounts = vec![account(data)];
        assert_eq!(
            run(&mut accounts, Instruction::Increment(1)),
            Err(CounterError::MalformedRecord)
        );
        assert_eq!(accounts, vec![account(data)]);
        assert_eq!(
            run(&mut accounts, Instruction::Decrement(1)),
            Err(CounterError::MalformedRecord)
        );
        assert_eq!(accounts, vec![account(data)]);
    }
}

#[test]
fn initialize_on_a_short_account_fails_to_write() {
    for data in [&[][..], &[1][..], &[1, 2][..], &[1, 2, 3][..]] {
        let mut accounts = vec![account(data)];
        assert_eq!(
            run(&mut accounts, Instruction::Initialize(0x0102_0304)),
            Err(CounterError::WriteFailure)
        );
        assert_eq!(accounts, vec![account(data)]);
    }
}

#[test]
fn empty_account_list_is_rejected() {
    let mut none: Vec<Account> = Vec::new();
    for bytes in [
        &[][..],
        &[5][..],
        &[0, 1, 0, 0, 0][..],
        &[1, 1, 0, 0, 0][..],
        &[2, 1, 0, 0, 0][..],
        &[9, 9, 9, 9, 9, 9][..],
    ] {
        assert_eq!(
            process_instructions(&PROGRAM, &mut none, bytes),
            Err(CounterError::MissingAccount)
        );
    }
    assert!(none.is_empty());
}

#[test]
fn malformed_instruction_comes_before_the_account_is_read() {
    let mut accounts = vec![account(&[1])];
    assert_eq!(
        process_instructions(&PROGRAM, &mut accounts, &[1, 1]),
        Err(CounterError::MalformedInstruction)
    );
    assert_eq!(accounts, vec![account(&[1])]);
}

#[test]
fn only_the_first_four_bytes_of_the_first_account_change() {
    let mut accounts = vec![
        account(&[0, 0, 0, 0, 0xEE, 0xFF]),
        account(&[1, 1, 1, 1]),
        Account {
            owner: [9u8; 32],
            data: vec![],
        },
    ];
    assert_eq!(run(&mut accounts, Instruction::Initialize(5)), Ok(()));
    assert_eq!(run(&mut accounts, Instruction::Increment(6)), Ok(()));
    assert_eq!(
        accounts,
        vec![
            account(&[11, 0, 0, 0, 0xEE, 0xFF]),
            account(&[1, 1, 1, 1]),
            Account {
                owner: [9u8; 32],
                data: vec![],
            },
        ]
    );
}

#[test]
fn bytes_behind_the_instruction_are_not_looked_at() {
    let mut accounts = vec![account(&[1, 0, 0, 0, 5])];
    assert_eq!(
        process_instructions(&PROGRAM, &mut accounts, &[1, 2, 0, 0, 0, 99]),
        Ok(())
    );
    assert_eq!(accounts, vec![account(&[3, 0, 0, 0, 5])]);
}

#[test]
fn an_account_never_initialized_is_read_as_it_is() {
    let mut accounts = vec![account(&[1, 1, 1, 1])];
    assert_eq!(run(&mut accounts, Instruction::Increment(1)), Ok(()));
    assert_eq!(accounts[0].data, vec![2, 1, 1, 1]);
    assert_eq!(run(&mut accounts, Instruction::Decrement(0x0101_0103)), Ok(()));
    assert_eq!(accounts[0].data, vec![255, 255, 255, 255]);
}

#[test]
fn the_program_id_does_not_matter() {
    let mut one = vec![account(&[0; 4])];
    let mut other = vec![account(&[0; 4])];
    let bytes = encode_instruction(&Instruction::Initialize(77));
    assert_eq!(process_instructions(&[0u8; 32], &mut one, &bytes), Ok(()));
    assert_eq!(process_instructions(&[255u8; 32], &mut other, &bytes), Ok(()));
    assert_eq!(one, other);
}

#[test]
fn store_record_writes_over_the_front() {
    let mut data = vec![9u8, 9, 9, 9, 9];
    assert_eq!(store_record(&CounterRecord { value: 0x0A0B_0C0D }, &mut data), Ok(()));
    assert_eq!(data, vec![0x0D, 0x0C, 0x0B, 0x0A, 9]);

    let mut short = vec![9u8, 9, 9];
    assert_eq!(
        store_record(&CounterRecord { value: 1 }, &mut short),
        Err(CounterError::WriteFailure)
    );
    assert_eq!(short, vec![9, 9, 9]);
}

#[test]
fn apply_follows_the_instruction() {
    let mut data = vec![0u8; 4];
    assert_eq!(apply(&Instruction::Initialize(1000), &mut data), Ok(()));
    assert_eq!(data, vec![0xE8, 0x03, 0, 0]);
    assert_eq!(apply(&Instruction::Increment(24), &mut data), Ok(()));
    assert_eq!(data, vec![0, 4, 0, 0]);
    assert_eq!(apply(&Instruction::Decrement(1025), &mut data), Ok(()));
    assert_eq!(data, vec![255, 255, 255, 255]);
}

#[test]
fn advance_computes_modulo_two_to_the_32() {
    assert_eq!(advance(&Instruction::Initialize(5), 99), 5);
    assert_eq!(advance(&Instruction::Increment(5), 99), 104);
    assert_eq!(advance(&Instruction::Increment(1), u32::MAX), 0);
    assert_eq!(advance(&Instruction::Increment(u32::MAX), u32::MAX), u32::MAX - 1);
    assert_eq!(advance(&Instruction::Decrement(5), 99), 94);
    assert_eq!(advance(&Instruction::Decrement(1), 0), u32::MAX);
    assert_eq!(advance(&Instruction::Decrement(u32::MAX), 0), 1);
}

#[test]
fn only_increment_and_decrement_are_announced() {
    assert_eq!(announcement(&Instruction::Initialize(4)), None);
    assert_eq!(announcement(&Instruction::Increment(4)), Some(4));
    assert_eq!(announcement(&Instruction::Decrement(6)), Some(6));
}
