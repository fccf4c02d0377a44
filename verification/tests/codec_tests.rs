use ckb_ecs::codec::{
    decode_component_definition, encode_component_definition, encode_fixvec, encode_script,
};
use ckb_ecs::error::DecodeError;
use ckb_ecs::record::{ComponentDefinition, ComponentDefinitionV1, Script};

fn sample_script() -> Script {
    Script { code_hash: vec![1u8; 32], hash_type: 1, args: Vec::new(), extra: Vec::new() }
}

fn sample_definition() -> ComponentDefinition {
    ComponentDefinition::V1(ComponentDefinitionV1 {
        component_name: b"test".to_vec(),
        info_hash: vec![42u8; 32],
        delegate: sample_script(),
        extra: Vec::new(),
    })
}

#[test]
fn build_component_definition() {
    let definition = sample_definition();
    let bytes = encode_component_definition(&definition);

    let decoded = decode_component_definition(&bytes, true).expect("decode ComponentDefinition");
    match decoded {
        ComponentDefinition::V1(v1) => {
            assert_eq!(v1.component_name, b"test".to_vec());
            assert_eq!(v1.delegate.hash_type, 1u8);
            assert_eq!(v1.info_hash, vec![42u8; 32]);
        }
    }
}

#[test]
fn round_trip_strict_and_compatible() {
    let definition = ComponentDefinition::V1(ComponentDefinitionV1 {
        component_name: b"a longer component name".to_vec(),
        info_hash: (0u8..32u8).collect(),
        delegate: Script {
            code_hash: vec![7u8; 32],
            hash_type: 0,
            args: vec![9, 8, 7, 6, 5],
            extra: Vec::new(),
        },
        extra: Vec::new(),
    });
    let bytes = encode_component_definition(&definition);
    for compatible in [false, true] {
        let decoded = decode_component_definition(&bytes, compatible).expect("round trip");
        match (&decoded, &definition) {
            (ComponentDefinition::V1(got), ComponentDefinition::V1(want)) => {
                assert_eq!(got.component_name, want.component_name);
                assert_eq!(got.info_hash, want.info_hash);
                assert_eq!(got.delegate.code_hash, want.delegate.code_hash);
                assert_eq!(got.delegate.hash_type, want.delegate.hash_type);
                assert_eq!(got.delegate.args, want.delegate.args);
                assert!(got.delegate.extra.is_empty());
                assert!(got.extra.is_empty());
            }
        }
    }
}

#[test]
fn extra_fields_kept_in_compatible_mode_refused_in_strict() {
    let definition = ComponentDefinition::V1(ComponentDefinitionV1 {
        component_name: b"x".to_vec(),
        info_hash: vec![3u8; 32],
        delegate: sample_script(),
        extra: vec![vec![0xDE, 0xAD], Vec::new(), vec![0xBE]],
    });
    let bytes = encode_component_definition(&definition);

    let decoded = decode_component_definition(&bytes, true).expect("compatible decode");
    match decoded {
        ComponentDefinition::V1(v1) => {
            assert_eq!(v1.extra, vec![vec![0xDE, 0xAD], Vec::new(), vec![0xBE]]);
            assert_eq!(v1.component_name, b"x".to_vec());
        }
    }

    let strict = decode_component_definition(&bytes, false);
    assert_eq!(strict.err(), Some(DecodeError::FieldCountNotMatch));
}

#[test]
fn truncated_buffers_are_rejected() {
    let bytes = encode_component_definition(&sample_definition());
    for k in 0..bytes.len() {
        let r = decode_component_definition(&bytes[0..k], true);
        assert!(r.is_err(), "prefix of {} bytes must not decode", k);
        let r = decode_component_definition(&bytes[0..k], false);
        assert!(r.is_err(), "strict prefix of {} bytes must not decode", k);
    }
}

#[test]
fn total_size_disagreement_is_rejected() {
    let mut bytes = encode_component_definition(&sample_definition());
    // enlarge the inner total-size word without changing the buffer length
    bytes[4] = bytes[4].wrapping_add(1);
    let r = decode_component_definition(&bytes, true);
    assert_eq!(r.err(), Some(DecodeError::TotalSizeNotMatch));
}

#[test]
fn unordered_offsets_are_rejected() {
    let bytes = encode_component_definition(&sample_definition());
    // swap the first two field offsets so the table decreases
    let mut garbled = bytes.clone();
    for i in 0..4 {
        garbled[8 + i] = bytes[12 + i];
        garbled[12 + i] = bytes[8 + i];
    }
    let r = decode_component_definition(&garbled, true);
    assert_eq!(r.err(), Some(DecodeError::OffsetsNotMatch));
}

#[test]
fn unknown_variant_tag_is_rejected() {
    let mut bytes = encode_component_definition(&sample_definition());
    bytes[2] = !bytes[2];
    let r = decode_component_definition(&bytes, true);
    assert_eq!(r.err(), Some(DecodeError::UnknownItem));
}

#[test]
fn fixvec_layout_is_count_then_bytes() {
    let enc = encode_fixvec(&[0xAB, 0xCD, 0xEF]);
    assert_eq!(enc, vec![3, 0, 0, 0, 0xAB, 0xCD, 0xEF]);
    let empty = encode_fixvec(&[]);
    assert_eq!(empty, vec![0, 0, 0, 0]);
}

#[test]
fn script_encoding_is_offset_table() {
    let s = Script { code_hash: vec![5u8; 32], hash_type: 1, args: vec![0xAA], extra: Vec::new() };
    let enc = encode_script(&s);
    // total = header (16) + code_hash (32) + hash_type (1) + args fixvec (5)
    assert_eq!(enc.len(), 54);
    assert_eq!(&enc[0..4], &[54, 0, 0, 0]);
    assert_eq!(&enc[4..8], &[16, 0, 0, 0]);
    assert_eq!(&enc[8..12], &[48, 0, 0, 0]);
    assert_eq!(&enc[12..16], &[49, 0, 0, 0]);
    assert_eq!(&enc[16..48], &[5u8; 32][..]);
    assert_eq!(enc[48], 1);
    assert_eq!(&enc[49..54], &[1, 0, 0, 0, 0xAA]);
}

#[test]
fn decoding_is_repeatable() {
    let bytes = encode_component_definition(&sample_definition());
    let a = decode_component_definition(&bytes, true).expect("first decode");
    let b = decode_component_definition(&bytes, true).expect("second decode");
    match (a, b) {
        (ComponentDefinition::V1(x), ComponentDefinition::V1(y)) => {
            assert_eq!(x.component_name, y.component_name);
            assert_eq!(x.info_hash, y.info_hash);
            assert_eq!(x.delegate.code_hash, y.delegate.code_hash);
        }
    }
}

fn u32_le(n: u32) -> [u8; 4] {
    n.to_le_bytes()
}

fn hand_built_record(extra_field: bool) -> Vec<u8> {
    // delegate: 32-byte code identity of 9s, kind 0, empty argument
    let mut script = Vec::new();
    script.extend_from_slice(&u32_le(53));
    script.extend_from_slice(&u32_le(16));
    script.extend_from_slice(&u32_le(48));
    script.extend_from_slice(&u32_le(49));
    script.extend_from_slice(&[9u8; 32]);
    script.push(0);
    script.extend_from_slice(&u32_le(0));

    let mut buf = Vec::new();
    buf.extend_from_slice(&u32_le(0)); // variant tag
    if extra_field {
        buf.extend_from_slice(&u32_le(112));
        buf.extend_from_slice(&u32_le(20));
        buf.extend_from_slice(&u32_le(26));
        buf.extend_from_slice(&u32_le(58));
        buf.extend_from_slice(&u32_le(111));
    } else {
        buf.extend_from_slice(&u32_le(107));
        buf.extend_from_slice(&u32_le(16));
        buf.extend_from_slice(&u32_le(22));
        buf.extend_from_slice(&u32_le(54));
    }
    buf.extend_from_slice(&u32_le(2));
    buf.extend_from_slice(b"ab");
    buf.extend_from_slice(&[7u8; 32]);
    buf.extend_from_slice(&script);
    if extra_field {
        buf.push(0xEE);
    }
    buf
}

#[test]
fn hand_built_buffer_decodes() {
    let buf = hand_built_record(false);
    for compatible in [false, true] {
        let decoded = decode_component_definition(&buf, compatible).expect("hand-built record");
        match decoded {
            ComponentDefinition::V1(v1) => {
                assert_eq!(v1.component_name, b"ab".to_vec());
                assert_eq!(v1.info_hash, vec![7u8; 32]);
                assert_eq!(v1.delegate.code_hash, vec![9u8; 32]);
                assert_eq!(v1.delegate.hash_type, 0);
                assert_eq!(v1.delegate.args, Vec::<u8>::new());
                assert!(v1.extra.is_empty());
            }
        }
    }
}

#[test]
fn hand_built_extra_field_needs_compatible_mode() {
    let buf = hand_built_record(true);
    let decoded = decode_component_definition(&buf, true).expect("hand-built grown record");
    match decoded {
        ComponentDefinition::V1(v1) => {
            assert_eq!(v1.component_name, b"ab".to_vec());
            assert_eq!(v1.extra, vec![vec![0xEE]]);
        }
    }
    let strict = decode_component_definition(&buf, false);
    assert_eq!(strict.err(), Some(DecodeError::FieldCountNotMatch));
}
