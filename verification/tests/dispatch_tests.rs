use ckb_ecs::cells::{Cell, InputCell, Transaction};
use ckb_ecs::codec::{encode_component_definition, encode_script};
use ckb_ecs::dispatch::{delegate_exec_arg, verify_component_type};
use ckb_ecs::error::Error;
use ckb_ecs::hash::{cell_data_digest, ckb_hash};
use ckb_ecs::record::{ComponentDefinition, ComponentDefinitionV1, Script};

fn always_success_script() -> Script {
    Script { code_hash: vec![0xA5u8; 32], hash_type: 1, args: Vec::new(), extra: Vec::new() }
}

fn component_type_script(args: Vec<u8>) -> Script {
    Script { code_hash: vec![0xC7u8; 32], hash_type: 1, args, extra: Vec::new() }
}

fn create_definition(delegate: Script) -> ComponentDefinition {
    ComponentDefinition::V1(ComponentDefinitionV1 {
        component_name: b"test".to_vec(),
        info_hash: vec![0u8; 32],
        delegate,
        extra: Vec::new(),
    })
}

fn plain_input() -> InputCell {
    InputCell {
        reference: vec![0x33u8; 44],
        cell: Cell {
            capacity: 2000,
            data: Vec::new(),
            lock: always_success_script(),
            type_ref: None,
        },
    }
}

fn definition_cell(data: Vec<u8>, type_opt: Option<Script>) -> Cell {
    Cell { capacity: 2000, data, lock: always_success_script(), type_ref: type_opt }
}

#[test]
fn test_invalid_args_len() {
    let tx = Transaction { inputs: vec![plain_input()], outputs: Vec::new(), deps: Vec::new() };
    let script = component_type_script(vec![0u8; 32]);
    let r = verify_component_type(&tx, &script);
    assert_eq!(r.err().map(|e| e.code()), Some(Error::InvalidArgs.code()), "invalid args");
}

#[test]
fn test_component_definition_not_found() {
    let tx = Transaction { inputs: vec![plain_input()], outputs: Vec::new(), deps: Vec::new() };
    let script = component_type_script(vec![0u8; 33]);
    let r = verify_component_type(&tx, &script);
    assert_eq!(
        r.err().map(|e| e.code()),
        Some(Error::ComponentDefinitionNotFound.code()),
        "invalid args"
    );
}

#[test]
fn test_component_definition_found_by_data_hash() {
    let definition = create_definition(always_success_script());
    let data = encode_component_definition(&definition);
    let mut args = ckb_hash(&data);
    args.push(0);

    let tx = Transaction {
        inputs: vec![plain_input()],
        outputs: Vec::new(),
        deps: vec![definition_cell(data, None)],
    };
    let script = component_type_script(args);
    let delegate = verify_component_type(&tx, &script).expect("found by data hash");
    assert_eq!(delegate.code_hash, always_success_script().code_hash);
    assert_eq!(delegate.hash_type, 1);
    assert_eq!(delegate.request, script.args);
}

#[test]
fn test_component_definition_found_by_type_hash() {
    let definition = create_definition(always_success_script());
    let data = encode_component_definition(&definition);
    let definition_type = always_success_script();
    let mut args = ckb_hash(&encode_script(&definition_type));
    args.push(1);

    let tx = Transaction {
        inputs: vec![plain_input()],
        outputs: Vec::new(),
        deps: vec![definition_cell(data, Some(definition_type))],
    };
    let script = component_type_script(args);
    let delegate = verify_component_type(&tx, &script).expect("found by type hash");
    assert_eq!(delegate.code_hash, always_success_script().code_hash);
}

#[test]
fn garbled_definition_is_rejected() {
    let definition = create_definition(always_success_script());
    let mut data = encode_component_definition(&definition);
    data[2] = !data[2];
    let mut args = ckb_hash(&data);
    args.push(0);

    let tx = Transaction {
        inputs: vec![plain_input()],
        outputs: Vec::new(),
        deps: vec![definition_cell(data, None)],
    };
    let script = component_type_script(args);
    let r = verify_component_type(&tx, &script);
    assert_eq!(r.err().map(|e| e.code()), Some(Error::InvalidComponentDefinition.code()));
}

#[test]
fn first_matching_dependency_wins() {
    let good = create_definition(always_success_script());
    let good_data = encode_component_definition(&good);
    let other_delegate =
        Script { code_hash: vec![0x99u8; 32], hash_type: 0, args: vec![7], extra: Vec::new() };
    let other = create_definition(other_delegate);
    let other_data = encode_component_definition(&other);
    assert_ne!(ckb_hash(&good_data), ckb_hash(&other_data));

    let mut args = ckb_hash(&good_data);
    args.push(0);

    let tx = Transaction {
        inputs: vec![plain_input()],
        outputs: Vec::new(),
        deps: vec![definition_cell(other_data, None), definition_cell(good_data, None)],
    };
    let script = component_type_script(args);
    let delegate = verify_component_type(&tx, &script).expect("resolved past the first dep");
    assert_eq!(delegate.code_hash, always_success_script().code_hash);
}

#[test]
fn empty_data_is_addressed_by_the_zero_digest() {
    let digest = cell_data_digest(&[]);
    assert_eq!(digest, vec![0u8; 32]);
    let nonempty = cell_data_digest(&[1]);
    assert_ne!(nonempty, vec![0u8; 32]);
}

#[test]
fn exec_argument_is_armored_and_terminated() {
    let arg = delegate_exec_arg(b"hello");
    assert_eq!(arg, b"BQAAAGhlbGxv\0".to_vec());
    let empty = delegate_exec_arg(b"");
    assert_eq!(empty, b"AAAAAA\0".to_vec());
}

#[test]
fn dispatch_revalidation_gives_the_same_outcome() {
    let definition = create_definition(always_success_script());
    let data = encode_component_definition(&definition);
    let mut args = ckb_hash(&data);
    args.push(0);
    let tx = Transaction {
        inputs: vec![plain_input()],
        outputs: Vec::new(),
        deps: vec![definition_cell(data, None)],
    };
    let script = component_type_script(args);
    let first = verify_component_type(&tx, &script).expect("resolves");
    let second = verify_component_type(&tx, &script).expect("resolves");
    assert_eq!(first.code_hash, second.code_hash);
    assert_eq!(first.hash_type, second.hash_type);
    assert_eq!(first.request, second.request);
}
