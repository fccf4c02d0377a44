use ckb_ecs::balance::verify_balance;
use ckb_ecs::cells::{Cell, InputCell, Transaction};
use ckb_ecs::codec::encode_script;
use ckb_ecs::error::Error;
use ckb_ecs::record::Script;

fn owner_lock(args: Vec<u8>) -> Script {
    Script { code_hash: vec![0xA5u8; 32], hash_type: 1, args, extra: Vec::new() }
}

fn component_lock(owner: &Script) -> Script {
    Script {
        code_hash: vec![0xC0u8; 32],
        hash_type: 1,
        args: encode_script(owner),
        extra: Vec::new(),
    }
}

fn alice_owner() -> Script {
    owner_lock(vec![42])
}

fn alice_component() -> Script {
    component_lock(&alice_owner())
}

fn bob_owner() -> Script {
    owner_lock(vec![37])
}

fn input(lock: Script, capacity: u64) -> InputCell {
    InputCell {
        reference: vec![0x22u8; 44],
        cell: Cell { capacity, data: Vec::new(), lock, type_ref: None },
    }
}

fn output(lock: Script, capacity: u64) -> Cell {
    Cell { capacity, data: Vec::new(), lock, type_ref: None }
}

#[test]
fn test_component_lock_same_balance() {
    let tx = Transaction {
        inputs: vec![input(alice_component(), 200)],
        outputs: vec![output(alice_component(), 200)],
        deps: Vec::new(),
    };
    assert_eq!(verify_balance(&tx, &alice_component()), Ok(()), "same balance");
}

#[test]
fn test_component_lock_insufficient_balance() {
    let tx = Transaction {
        inputs: vec![input(alice_component(), 201)],
        outputs: vec![output(alice_component(), 200)],
        deps: Vec::new(),
    };
    assert_eq!(
        verify_balance(&tx, &alice_component()),
        Err(Error::BalanceError),
        "insufficient balance"
    );
}

#[test]
fn test_owner_unlocking() {
    let tx = Transaction {
        inputs: vec![input(alice_owner(), 200), input(alice_component(), 300)],
        outputs: vec![output(bob_owner(), 100)],
        deps: Vec::new(),
    };
    assert_eq!(
        verify_balance(&tx, &alice_component()),
        Ok(()),
        "transfer some to bob and burn the rest"
    );
}

#[test]
fn test_transfer_to_owner_with_same_balance() {
    let tx = Transaction {
        inputs: vec![input(alice_component(), 300)],
        outputs: vec![output(alice_owner(), 300)],
        deps: Vec::new(),
    };
    assert_eq!(verify_balance(&tx, &alice_component()), Ok(()), "transfer to owner");
}

#[test]
fn test_transfer_to_owner_with_insufficient_balance() {
    let tx = Transaction {
        inputs: vec![input(alice_component(), 301)],
        outputs: vec![output(alice_owner(), 300)],
        deps: Vec::new(),
    };
    assert_eq!(
        verify_balance(&tx, &alice_component()),
        Err(Error::BalanceError),
        "insufficent balance"
    );
}

#[test]
fn test_transfer_to_owner_with_same_balance_in_multiple_cells() {
    let tx = Transaction {
        inputs: vec![input(alice_component(), 100), input(alice_component(), 200)],
        outputs: vec![output(alice_owner(), 150), output(alice_owner(), 150)],
        deps: Vec::new(),
    };
    assert_eq!(verify_balance(&tx, &alice_component()), Ok(()), "transfer to owner");
}

#[test]
fn test_transfer_to_owner_with_insufficient_balance_in_multiple_cells() {
    let tx = Transaction {
        inputs: vec![input(alice_component(), 101), input(alice_component(), 200)],
        outputs: vec![output(alice_owner(), 150), output(alice_owner(), 150)],
        deps: Vec::new(),
    };
    assert_eq!(
        verify_balance(&tx, &alice_component()),
        Err(Error::BalanceError),
        "insufficent balance"
    );
}

#[test]
fn capacity_routed_elsewhere_counts_for_nothing() {
    // without the owner among the inputs, value under an unrelated lock is a loss
    let tx = Transaction {
        inputs: vec![input(alice_component(), 300)],
        outputs: vec![output(bob_owner(), 300)],
        deps: Vec::new(),
    };
    assert_eq!(verify_balance(&tx, &alice_component()), Err(Error::BalanceError));
}

#[test]
fn balance_revalidation_gives_the_same_outcome() {
    let tx = Transaction {
        inputs: vec![input(alice_component(), 301)],
        outputs: vec![output(alice_owner(), 300)],
        deps: Vec::new(),
    };
    let first = verify_balance(&tx, &alice_component());
    let second = verify_balance(&tx, &alice_component());
    assert_eq!(first, second);
    assert_eq!(first, Err(Error::BalanceError));
}

#[test]
fn error_codes_are_fixed_small_integers() {
    assert_eq!(Error::IndexOutOfBound.code(), 1);
    assert_eq!(Error::ItemMissing.code(), 2);
    assert_eq!(Error::LengthNotEnough.code(), 3);
    assert_eq!(Error::Encoding.code(), 4);
    assert_eq!(Error::InvalidArgs.code(), 5);
    assert_eq!(Error::TooManyCells.code(), 6);
    assert_eq!(Error::InvalidTypeID.code(), 7);
    assert_eq!(Error::InvalidData.code(), 8);
    assert_eq!(Error::BalanceError.code(), 9);
    assert_eq!(Error::ComponentDefinitionNotFound.code(), 10);
    assert_eq!(Error::InvalidComponentDefinition.code(), 11);
}
