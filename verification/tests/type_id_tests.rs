use ckb_ecs::cells::{Cell, InputCell, Transaction};
use ckb_ecs::codec::encode_component_definition;
use ckb_ecs::error::Error;
use ckb_ecs::hash::ckb_hash;
use ckb_ecs::record::{ComponentDefinition, ComponentDefinitionV1, Script};
use ckb_ecs::type_id::{verify_definition_type, verify_type_id};

fn always_success_script() -> Script {
    Script { code_hash: vec![0xA5u8; 32], hash_type: 1, args: Vec::new(), extra: Vec::new() }
}

fn definition_type_script(id: Vec<u8>) -> Script {
    Script { code_hash: vec![0xD7u8; 32], hash_type: 1, args: id, extra: Vec::new() }
}

fn data() -> Vec<u8> {
    let delegate = Script {
        code_hash: vec![1u8; 32],
        hash_type: 1,
        args: Vec::new(),
        extra: Vec::new(),
    };
    let definition = ComponentDefinition::V1(ComponentDefinitionV1 {
        component_name: b"test".to_vec(),
        info_hash: vec![42u8; 32],
        delegate,
        extra: Vec::new(),
    });
    encode_component_definition(&definition)
}

fn input(id_opt: Option<Vec<u8>>) -> InputCell {
    let type_ref = id_opt.map(definition_type_script);
    InputCell {
        reference: vec![0x11u8; 36],
        cell: Cell {
            capacity: 2000,
            data: Vec::new(),
            lock: always_success_script(),
            type_ref,
        },
    }
}

fn output(id_opt: Option<Vec<u8>>, data: Vec<u8>) -> Cell {
    Cell {
        capacity: 200,
        data,
        lock: always_success_script(),
        type_ref: id_opt.map(definition_type_script),
    }
}

fn new_type_id(input: &InputCell, output_index: u64) -> Vec<u8> {
    let mut msg = input.reference.clone();
    msg.extend_from_slice(&output_index.to_le_bytes());
    ckb_hash(&msg)
}

#[test]
fn test_update_type_id() {
    let dummy_id = vec![1u8; 32];
    let tx = Transaction {
        inputs: vec![input(Some(dummy_id.clone()))],
        outputs: vec![output(Some(dummy_id.clone()), data())],
        deps: Vec::new(),
    };
    let script = definition_type_script(dummy_id);
    assert_eq!(verify_definition_type(&tx, &script), Ok(()), "update cell with type_id");
}

#[test]
fn test_delete_type_id() {
    let dummy_id = vec![1u8; 32];
    let tx = Transaction {
        inputs: vec![input(Some(dummy_id.clone()))],
        outputs: vec![output(None, data())],
        deps: Vec::new(),
    };
    let script = definition_type_script(dummy_id);
    assert_eq!(verify_definition_type(&tx, &script), Ok(()), "delete cell with type_id");
}

#[test]
fn test_create_type_id() {
    let fresh_input = input(None);
    let new_id = new_type_id(&fresh_input, 0);
    let tx = Transaction {
        inputs: vec![fresh_input],
        outputs: vec![output(Some(new_id.clone()), data())],
        deps: Vec::new(),
    };
    let script = definition_type_script(new_id);
    assert_eq!(verify_definition_type(&tx, &script), Ok(()), "create cell with type_id");
}

#[test]
fn test_invalid_data() {
    let fresh_input = input(None);
    let new_id = new_type_id(&fresh_input, 0);
    let mut bad_data = data();
    bad_data[2] = !bad_data[2];
    let tx = Transaction {
        inputs: vec![fresh_input],
        outputs: vec![output(Some(new_id.clone()), bad_data)],
        deps: Vec::new(),
    };
    let script = definition_type_script(new_id);
    assert_eq!(
        verify_definition_type(&tx, &script),
        Err(Error::InvalidData),
        "create cell with invalid data"
    );
}

#[test]
fn mint_rejects_a_flipped_identifier() {
    let fresh_input = input(None);
    let good_id = new_type_id(&fresh_input, 0);
    let mut bad_id = good_id.clone();
    bad_id[0] ^= 1;
    let tx = Transaction {
        inputs: vec![fresh_input],
        outputs: vec![output(Some(bad_id.clone()), data())],
        deps: Vec::new(),
    };
    let script = definition_type_script(bad_id);
    assert_eq!(verify_type_id(&tx, &script), Err(Error::InvalidTypeID));
}

#[test]
fn mint_identifier_depends_on_output_position() {
    let fresh_input = input(None);
    // the group's first output sits at position 1, not 0
    let id_at_one = new_type_id(&fresh_input, 1);
    let tx = Transaction {
        inputs: vec![fresh_input],
        outputs: vec![output(None, Vec::new()), output(Some(id_at_one.clone()), data())],
        deps: Vec::new(),
    };
    let script = definition_type_script(id_at_one);
    assert_eq!(verify_type_id(&tx, &script), Ok(()));
}

#[test]
fn wrong_argument_length_is_rejected() {
    let dummy_id = vec![1u8; 31];
    let tx = Transaction {
        inputs: vec![input(Some(dummy_id.clone()))],
        outputs: Vec::new(),
        deps: Vec::new(),
    };
    let script = definition_type_script(dummy_id);
    assert_eq!(verify_type_id(&tx, &script), Err(Error::InvalidArgs));
}

#[test]
fn two_cells_in_one_group_are_rejected() {
    let dummy_id = vec![1u8; 32];
    // two outputs carrying the class
    let tx = Transaction {
        inputs: vec![input(Some(dummy_id.clone()))],
        outputs: vec![
            output(Some(dummy_id.clone()), data()),
            output(Some(dummy_id.clone()), data()),
        ],
        deps: Vec::new(),
    };
    let script = definition_type_script(dummy_id.clone());
    assert_eq!(verify_type_id(&tx, &script), Err(Error::TooManyCells));

    // two inputs carrying the class
    let tx = Transaction {
        inputs: vec![input(Some(dummy_id.clone())), input(Some(dummy_id.clone()))],
        outputs: vec![output(Some(dummy_id.clone()), data())],
        deps: Vec::new(),
    };
    assert_eq!(verify_type_id(&tx, &script), Err(Error::TooManyCells));
}

#[test]
fn revalidation_gives_the_same_outcome() {
    let fresh_input = input(None);
    let new_id = new_type_id(&fresh_input, 0);
    let tx = Transaction {
        inputs: vec![fresh_input],
        outputs: vec![output(Some(new_id.clone()), data())],
        deps: Vec::new(),
    };
    let script = definition_type_script(new_id);
    let first = verify_definition_type(&tx, &script);
    let second = verify_definition_type(&tx, &script);
    assert_eq!(first, second);
    assert_eq!(first, Ok(()));
}

#[test]
fn digest_helper_hashes_rather_than_copies() {
    let a = ckb_hash(b"abc");
    let b = ckb_hash(b"abd");
    assert_eq!(a.len(), 32);
    assert_eq!(b.len(), 32);
    assert_ne!(a, b);
    assert_ne!(&a[..3], b"abc");
    assert_eq!(a, ckb_hash(b"abc"));
}
