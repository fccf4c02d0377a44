use vstd::prelude::*;

use crate::error::DecodeError;
use crate::record::{
    concat_bytes, enc_definition, enc_fixvec, enc_script, enc_table, enc_v1, lemma_add_subrange,
    lemma_add_subrange_left, lemma_concat_len, lemma_concat_subrange, lemma_field_len_bound,
    lemma_prefix_len_mono, lemma_prefix_len_nonneg, offsets_monotone, prefix_len, script_fields,
    spec_decode_definition, spec_decode_script, spec_decode_v1, spec_extras, spec_offsets,
    spec_parse_fixvec, spec_parse_table, table_field_count, table_offset, table_total, table_words,
    v1_fields, word_at, DefinitionModel, DefinitionV1Model, ScriptModel,
};
use crate::wire::{lemma_u32_bytes_le32, u32_bytes};

verus! {

/// In a sequence of 4-byte words, the `i`-th word starts at byte `4 * i`.
proof fn lemma_prefix_len_uniform4(s: Seq<Seq<u8>>, i: int)
    requires
        forall|j: int| 0 <= j < s.len() ==> (#[trigger] s[j]).len() == 4,
        0 <= i <= s.len(),
    ensures
        prefix_len(s, i) == 4 * i,
    decreases i,
{
    if i > 0 {
        lemma_prefix_len_uniform4(s, i - 1);
    }
}

/// How a well-sized encoded table reads back: every header check passes
/// (or, in a strict read of a table with extra fields, exactly the field
/// count check fails), the declared boundaries are the encoder's offsets,
/// and each field is found unchanged at its place.
pub proof fn lemma_parse_enc_table(fields: Seq<Seq<u8>>, compatible: bool, known: int)
    requires
        1 <= known <= fields.len(),
        table_total(fields) < 0x1_0000_0000,
    ensures
        compatible || fields.len() == known ==> spec_parse_table(
            enc_table(fields),
            compatible,
            known,
        ) == Ok::<Seq<int>, DecodeError>(
            Seq::new((fields.len() + 1) as nat, |i: int| table_offset(fields, i)),
        ),
        !(compatible || fields.len() == known) ==> spec_parse_table(
            enc_table(fields),
            compatible,
            known,
        ) == Err::<Seq<int>, DecodeError>(DecodeError::FieldCountNotMatch),
        forall|i: int|
            0 <= i < fields.len() ==> #[trigger] enc_table(fields).subrange(
                table_offset(fields, i),
                table_offset(fields, i + 1),
            ) == fields[i],
        enc_table(fields).len() == table_total(fields),
{
    let b = enc_table(fields);
    let n = fields.len() as int;
    let words = table_words(fields);
    let hdr = concat_bytes(words);
    let body = concat_bytes(fields);
    assert(words.len() == n + 1);
    assert(forall|j: int| 0 <= j < words.len() ==> (#[trigger] words[j]).len() == 4);
    lemma_prefix_len_uniform4(words, n + 1);
    lemma_concat_len(words);
    assert(hdr.len() == 4 * (n + 1));
    lemma_concat_len(fields);
    assert(body.len() == prefix_len(fields, n));
    lemma_prefix_len_nonneg(fields, n);
    assert(b.len() == table_total(fields));

    assert forall|i: int| 0 <= i < n + 1 implies word_at(b, i) == (if i == 0 {
        table_total(fields)
    } else {
        table_offset(fields, i - 1)
    }) by {
        lemma_prefix_len_uniform4(words, i);
        lemma_prefix_len_uniform4(words, i + 1);
        lemma_concat_subrange(words, i);
        lemma_add_subrange_left(hdr, body, 4 * i, 4 * i + 4);
        assert(b.subrange(4 * i, 4 * i + 4) == words[i]);
        if i == 0 {
            lemma_u32_bytes_le32(table_total(fields));
        } else {
            lemma_prefix_len_nonneg(fields, i - 1);
            lemma_prefix_len_mono(fields, i - 1, n);
            lemma_u32_bytes_le32(table_offset(fields, i - 1));
        }
    }

    assert(word_at(b, 0) == b.len());
    assert(b.len() >= 8);
    let off0 = word_at(b, 1);
    assert(off0 == 4 * (n + 1));
    assert(off0 % 4 == 0) by {
        vstd::arithmetic::div_mod::lemma_mod_multiples_basic(n + 1, 4);
    }
    assert(off0 >= 8);
    assert(b.len() >= off0);
    assert(table_field_count(b) == n) by {
        vstd::arithmetic::div_mod::lemma_div_multiples_vanish(n + 1, 4);
    }

    assert forall|i: int| 0 <= i < n implies #[trigger] spec_offsets(b, n)[i] <= spec_offsets(
        b,
        n,
    )[i + 1] by {
        lemma_prefix_len_mono(fields, i, i + 1);
        lemma_prefix_len_mono(fields, i + 1, n);
    }
    assert(offsets_monotone(b, n));

    assert forall|i: int| 0 <= i < n implies #[trigger] b.subrange(
        table_offset(fields, i),
        table_offset(fields, i + 1),
    ) == fields[i] by {
        lemma_concat_subrange(fields, i);
        lemma_prefix_len_nonneg(fields, i);
        lemma_prefix_len_mono(fields, i + 1, n);
        lemma_add_subrange(hdr, body, prefix_len(fields, i), prefix_len(fields, i + 1));
    }

    if compatible || n == known {
        assert(spec_offsets(b, n) =~= Seq::new(
            (fields.len() + 1) as nat,
            |i: int| table_offset(fields, i),
        ));
    }
}

/// A length-prefixed byte string reads back as itself.
pub proof fn lemma_parse_enc_fixvec(data: Seq<u8>)
    requires
        data.len() + 4 < 0x1_0000_0000,
    ensures
        spec_parse_fixvec(enc_fixvec(data)) == Ok::<Seq<u8>, DecodeError>(data),
{
    let b = enc_fixvec(data);
    assert(b.len() == 4 + data.len());
    assert(b.subrange(0, 4) =~= u32_bytes(data.len() as int));
    lemma_u32_bytes_le32(data.len() as int);
    assert(word_at(b, 0) == data.len());
    assert(b.skip(4) =~= data);
}

/// A constructible verifier reference survives the encode/decode round
/// trip; a strict read accepts it exactly when it carries no extra fields.
pub proof fn lemma_decode_enc_script(s: ScriptModel, compatible: bool)
    requires
        s.wf(),
    ensures
        compatible || s.extra.len() == 0 ==> spec_decode_script(enc_script(s), compatible) == Ok::<
            ScriptModel,
            DecodeError,
        >(s),
        !(compatible || s.extra.len() == 0) ==> spec_decode_script(enc_script(s), compatible)
            == Err::<ScriptModel, DecodeError>(DecodeError::FieldCountNotMatch),
{
    let fields = script_fields(s);
    let b = enc_script(s);
    let n = fields.len() as int;
    lemma_parse_enc_table(fields, compatible, 3);
    if compatible || s.extra.len() == 0 {
        let off = Seq::new((fields.len() + 1) as nat, |i: int| table_offset(fields, i));
        assert(b.subrange(off[0], off[1]) == fields[0]);
        assert(b.subrange(off[1], off[2]) == fields[1]);
        assert(b.subrange(off[2], off[3]) == fields[2]);
        assert(fields[1] == seq![s.hash_type]);
        assert(fields[1][0] == s.hash_type);
        lemma_field_len_bound(fields, 2);
        lemma_parse_enc_fixvec(s.args);
        let ex = spec_extras(b, off, 3);
        assert forall|j: int| 0 <= j < ex.len() implies #[trigger] ex[j] == s.extra[j] by {
            assert(b.subrange(off[3 + j], off[4 + j]) == fields[3 + j]);
        }
        assert(ex =~= s.extra);
        let m = ScriptModel {
            code_hash: fields[0],
            hash_type: s.hash_type,
            args: s.args,
            extra: ex,
        };
        assert(m =~~= s);
    }
}

/// A constructible record variant survives the encode/decode round trip;
/// a strict read accepts it exactly when neither it nor its delegate
/// carries extra fields.
pub proof fn lemma_decode_enc_v1(r: DefinitionV1Model, compatible: bool)
    requires
        r.wf(),
    ensures
        compatible || r.no_extra() ==> spec_decode_v1(enc_v1(r), compatible) == Ok::<
            DefinitionV1Model,
            DecodeError,
        >(r),
        !(compatible || r.no_extra()) ==> spec_decode_v1(enc_v1(r), compatible) == Err::<
            DefinitionV1Model,
            DecodeError,
        >(DecodeError::FieldCountNotMatch),
{
    let fields = v1_fields(r);
    let b = enc_v1(r);
    lemma_parse_enc_table(fields, compatible, 3);
    if !compatible && r.extra.len() > 0 {
        // the table header itself is refused
    } else {
        let off = Seq::new((fields.len() + 1) as nat, |i: int| table_offset(fields, i));
        assert(b.subrange(off[0], off[1]) == fields[0]);
        assert(b.subrange(off[1], off[2]) == fields[1]);
        assert(b.subrange(off[2], off[3]) == fields[2]);
        lemma_field_len_bound(fields, 0);
        lemma_parse_enc_fixvec(r.component_name);
        lemma_decode_enc_script(r.delegate, compatible);
        if compatible || r.delegate.extra.len() == 0 {
            let ex = spec_extras(b, off, 3);
            assert forall|j: int| 0 <= j < ex.len() implies #[trigger] ex[j] == r.extra[j] by {
                assert(b.subrange(off[3 + j], off[4 + j]) == fields[3 + j]);
            }
            assert(ex =~= r.extra);
            let m = DefinitionV1Model {
                component_name: r.component_name,
                info_hash: fields[1],
                delegate: r.delegate,
                extra: ex,
            };
            assert(m =~~= r);
        }
    }
}

/// Every constructible record survives the encode/decode round trip in a
/// compatible read; a strict read accepts it exactly when it carries no
/// fields beyond the schema, and otherwise rejects it for its field count.
#[verifier::rlimit(100)]
pub proof fn lemma_decode_enc_definition(d: DefinitionModel, compatible: bool)
    requires
        d.wf(),
    ensures
        compatible || d.no_extra() ==> spec_decode_definition(enc_definition(d), compatible)
            == Ok::<DefinitionModel, DecodeError>(d),
        !(compatible || d.no_extra()) ==> spec_decode_definition(enc_definition(d), compatible)
            == Err::<DefinitionModel, DecodeError>(DecodeError::FieldCountNotMatch),
{
    match d {
        DefinitionModel::V1(r) => {
            let b = enc_definition(d);
            assert(b.len() >= 4);
            assert(b.subrange(0, 4) =~= u32_bytes(0));
            lemma_u32_bytes_le32(0);
            assert(word_at(b, 0) == 0);
            assert(b.skip(4) =~= enc_v1(r));
            lemma_decode_enc_v1(r, compatible);
        },
    }
}

/// Any proper prefix of an encoded record is rejected: truncation never
/// decodes, in either mode.
#[verifier::rlimit(100)]
pub proof fn lemma_reject_truncation(d: DefinitionModel, compatible: bool, k: int)
    requires
        d.wf(),
        0 <= k < enc_definition(d).len(),
    ensures
        spec_decode_definition(enc_definition(d).take(k), compatible) is Err,
{
    match d {
        DefinitionModel::V1(r) => {
            let b = enc_definition(d);
            let t = b.take(k);
            if k < 4 {
                // too short even for the variant tag
            } else {
                assert(t.subrange(0, 4) =~= u32_bytes(0));
                lemma_u32_bytes_le32(0);
                assert(word_at(t, 0) == 0);
                let inner = t.skip(4);
                assert(inner =~= enc_v1(r).take(k - 4));
                if k - 4 < 4 {
                    // too short for the total-size word
                } else {
                    lemma_parse_enc_table(v1_fields(r), true, 3);
                    assert(word_at(enc_v1(r), 0) == enc_v1(r).len());
                    assert(inner.subrange(0, 4) =~= enc_v1(r).subrange(0, 4));
                    assert(word_at(inner, 0) == enc_v1(r).len());
                    assert(word_at(inner, 0) != inner.len());
                }
            }
        },
    }
}

/// A total-size word that disagrees with the buffer length is rejected.
pub proof fn lemma_reject_total_size(b: Seq<u8>, compatible: bool)
    requires
        b.len() >= 4,
        word_at(b, 0) != b.len(),
    ensures
        spec_decode_v1(b, compatible) == Err::<DefinitionV1Model, DecodeError>(
            DecodeError::TotalSizeNotMatch,
        ),
{
}

/// An offset table that is not non-decreasing is rejected, whatever the
/// mode, once the size and field-count checks have passed.
pub proof fn lemma_reject_unordered_offsets(b: Seq<u8>, compatible: bool)
    requires
        b.len() >= 8,
        word_at(b, 0) == b.len(),
        word_at(b, 1) % 4 == 0,
        word_at(b, 1) >= 8,
        b.len() >= word_at(b, 1),
        table_field_count(b) >= 3,
        compatible || table_field_count(b) == 3,
        !offsets_monotone(b, table_field_count(b)),
    ensures
        spec_decode_v1(b, compatible) == Err::<DefinitionV1Model, DecodeError>(
            DecodeError::OffsetsNotMatch,
        ),
{
}

// ---------------------------------------------------------------------------
// Decoded values are constructible again.
// ---------------------------------------------------------------------------

/// Under a non-decreasing boundary table, earlier boundaries never exceed
/// later ones.
proof fn lemma_offsets_chain(b: Seq<u8>, fc: int, i: int, j: int)
    requires
        offsets_monotone(b, fc),
        0 <= i <= j <= fc,
    ensures
        spec_offsets(b, fc)[i] <= spec_offsets(b, fc)[j],
    decreases j - i,
{
    if i < j {
        lemma_offsets_chain(b, fc, i, j - 1);
        assert(spec_offsets(b, fc)[j - 1] <= spec_offsets(b, fc)[j]);
    }
}

/// When every field spans exactly its boundary interval, the prefix
/// lengths telescope along the boundaries.
proof fn lemma_prefix_matches_offsets(fields: Seq<Seq<u8>>, off: Seq<int>, i: int)
    requires
        off.len() == fields.len() + 1,
        forall|k: int| 0 <= k < fields.len() ==> (#[trigger] fields[k]).len() == off[k + 1] - off[k],
        0 <= i <= fields.len(),
    ensures
        prefix_len(fields, i) == off[i] - off[0],
    decreases i,
{
    if i > 0 {
        lemma_prefix_matches_offsets(fields, off, i - 1);
    }
}

/// A decoded verifier reference is constructible: its code identity is 32
/// bytes and its fields re-encode into exactly the buffer's size, which
/// the size word already bounded.
#[verifier::rlimit(100)]
pub proof fn lemma_spec_decode_script_wf(b: Seq<u8>, compatible: bool)
    ensures
        spec_decode_script(b, compatible) matches Ok(s) ==> s.wf() && table_total(script_fields(s))
            == b.len(),
{
    match spec_decode_script(b, compatible) {
        Err(_) => {},
        Ok(s) => {
            let fc = table_field_count(b);
        let off = spec_offsets(b, fc);
        assert(word_at(b, 0) == b.len());
        assert(b.len() < 0x1_0000_0000);
        assert(word_at(b, 1) == 4 * (fc + 1)) by {
            vstd::arithmetic::div_mod::lemma_fundamental_div_mod(word_at(b, 1), 4);
        }
        assert(off[0] == 4 * (fc + 1));
        assert(off[fc] == b.len());
        let fields = script_fields(s);
        assert(fields.len() == fc);
        assert forall|k: int| 0 <= k < fields.len() implies (#[trigger] fields[k]).len() == off[k
            + 1] - off[k] by {
            lemma_offsets_chain(b, fc, 0, k);
            lemma_offsets_chain(b, fc, k, k + 1);
            lemma_offsets_chain(b, fc, k + 1, fc);
            if k >= 3 {
                assert(fields[k] == s.extra[k - 3]);
                assert(s.extra[k - 3] == b.subrange(off[k], off[k + 1]));
            }
        }
            lemma_prefix_matches_offsets(fields, off, fc);
            assert(table_total(fields) == b.len());
        },
    }
}

/// A decoded record variant is constructible: its digest is 32 bytes, its
/// delegate is constructible, and its fields re-encode into exactly the
/// buffer's size.
#[verifier::rlimit(100)]
pub proof fn lemma_spec_decode_v1_wf(b: Seq<u8>, compatible: bool)
    ensures
        spec_decode_v1(b, compatible) matches Ok(r) ==> r.wf() && table_total(v1_fields(r))
            == b.len(),
{
    match spec_decode_v1(b, compatible) {
        Err(_) => {},
        Ok(r) => {
            let fc = table_field_count(b);
        let off = spec_offsets(b, fc);
        assert(word_at(b, 0) == b.len());
        assert(b.len() < 0x1_0000_0000);
        assert(word_at(b, 1) == 4 * (fc + 1)) by {
            vstd::arithmetic::div_mod::lemma_fundamental_div_mod(word_at(b, 1), 4);
        }
        assert(off[0] == 4 * (fc + 1));
        assert(off[fc] == b.len());
        lemma_spec_decode_script_wf(b.subrange(off[2], off[3]), compatible);
        let fields = v1_fields(r);
        assert(fields.len() == fc);
        assert forall|k: int| 0 <= k < fields.len() implies (#[trigger] fields[k]).len() == off[k
            + 1] - off[k] by {
            lemma_offsets_chain(b, fc, 0, k);
            lemma_offsets_chain(b, fc, k, k + 1);
            lemma_offsets_chain(b, fc, k + 1, fc);
            if k == 2 {
                lemma_parse_enc_table(script_fields(r.delegate), compatible, 3);
            }
            if k >= 3 {
                assert(fields[k] == r.extra[k - 3]);
                assert(r.extra[k - 3] == b.subrange(off[k], off[k + 1]));
            }
        }
            lemma_prefix_matches_offsets(fields, off, fc);
            assert(table_total(fields) == b.len());
        },
    }
}

/// A decoded record is constructible, so it can always be encoded again.
pub proof fn lemma_spec_decode_definition_wf(b: Seq<u8>, compatible: bool)
    ensures
        spec_decode_definition(b, compatible) matches Ok(d) ==> d.wf(),
{
    if b.len() >= 4 && word_at(b, 0) == 0 {
        lemma_spec_decode_v1_wf(b.skip(4), compatible);
    }
}

} // verus!
