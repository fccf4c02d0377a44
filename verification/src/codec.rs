use vstd::prelude::*;
use vstd::slice::slice_to_vec;

use crate::codec_laws::{
    lemma_spec_decode_definition_wf, lemma_spec_decode_script_wf, lemma_spec_decode_v1_wf,
};
use crate::error::DecodeError;
use crate::record::{
    concat_bytes, enc_definition, enc_fixvec, enc_script, enc_table, enc_v1, lemma_concat_snoc,
    lemma_field_len_bound, lemma_prefix_len_mono, lemma_prefix_len_nonneg, offsets_monotone,
    prefix_len, script_fields, spec_decode_definition, spec_decode_script, spec_decode_v1,
    spec_extras, spec_offsets, spec_parse_fixvec, spec_parse_table, table_field_count,
    table_offset, table_total, table_words, v1_fields, word_at, ComponentDefinition,
    ComponentDefinitionV1, DefinitionModel, DefinitionV1Model, Script, ScriptModel,
};
use crate::wire::{push_bytes, push_u32_le, read_u32_le, u32_bytes};

verus! {

/// The integer values of a sequence of byte positions.
pub open spec fn offsets_view(v: Seq<usize>) -> Seq<int> {
    Seq::new(v.len(), |i: int| v[i] as int)
}

/// In a pairwise non-decreasing sequence, any earlier entry is at most any
/// later one.
proof fn lemma_mono_le(s: Seq<usize>, i: int, j: int)
    requires
        0 <= i <= j < s.len(),
        forall|k: int| 0 <= k < s.len() - 1 ==> #[trigger] s[k] <= s[k + 1],
    ensures
        s[i] <= s[j],
    decreases j - i,
{
    if i < j {
        lemma_mono_le(s, i, j - 1);
    }
}

// ---------------------------------------------------------------------------
// Encoding
// ---------------------------------------------------------------------------

/// Encodes a length-prefixed byte string.
pub fn encode_fixvec(data: &[u8]) -> (r: Vec<u8>)
    requires
        data@.len() < 0x1_0000_0000,
    ensures
        r@ == enc_fixvec(data@),
{
    let mut out: Vec<u8> = Vec::new();
    push_u32_le(&mut out, data.len() as u32);
    push_bytes(&mut out, data);
    out
}

/// Encodes an offset table over the given field payloads.
#[verifier::loop_isolation(false)]
fn encode_table(fields: &Vec<Vec<u8>>) -> (r: Vec<u8>)
    requires
        table_total(fields.deep_view()) < 0x1_0000_0000,
    ensures
        r@ == enc_table(fields.deep_view()),
{
    let ghost fv = fields.deep_view();
    let n = fields.len();
    proof {
        assert(fv.len() == n);
        lemma_prefix_len_nonneg(fv, n as int);
        assert(4 * (n as int + 1) <= table_total(fv));
    }
    let mut body_len: usize = 0;
    let mut i: usize = 0;
    while i < n
        invariant
            i <= n,
            body_len == prefix_len(fv, i as int),
        decreases n - i,
    {
        proof {
            lemma_prefix_len_mono(fv, i as int + 1, n as int);
            lemma_prefix_len_nonneg(fv, i as int);
            assert(fv[i as int] =~= fields@[i as int]@);
        }
        body_len = body_len + fields[i].len();
        i = i + 1;
    }
    let header_len: usize = 4 * (n + 1);
    let total: usize = header_len + body_len;
    proof {
        assert(total as int == table_total(fv));
    }

    let mut out: Vec<u8> = Vec::new();
    push_u32_le(&mut out, total as u32);
    let ghost words = table_words(fv);
    proof {
        assert(words[0] == u32_bytes(table_total(fv)));
        assert(words.subrange(0, 1) =~= Seq::<Seq<u8>>::empty().push(words[0]));
        lemma_concat_snoc(Seq::<Seq<u8>>::empty(), words[0]);
        assert(concat_bytes(Seq::<Seq<u8>>::empty()) == Seq::<u8>::empty());
        assert(out@ =~= concat_bytes(words.subrange(0, 1)));
    }
    let mut acc: usize = header_len;
    let mut i: usize = 0;
    while i < n
        invariant
            i <= n,
            acc == table_offset(fv, i as int),
            out@ == concat_bytes(words.subrange(0, i as int + 1)),
        decreases n - i,
    {
        proof {
            lemma_prefix_len_nonneg(fv, i as int);
            lemma_prefix_len_mono(fv, i as int, n as int);
        }
        push_u32_le(&mut out, acc as u32);
        proof {
            assert(words[i as int + 1] == u32_bytes(table_offset(fv, i as int)));
            lemma_concat_snoc(words.subrange(0, i as int + 1), words[i as int + 1]);
            assert(words.subrange(0, i as int + 2) =~= words.subrange(0, i as int + 1).push(
                words[i as int + 1],
            ));
            lemma_prefix_len_mono(fv, i as int + 1, n as int);
            assert(fv[i as int] =~= fields@[i as int]@);
        }
        acc = acc + fields[i].len();
        i = i + 1;
    }
    proof {
        assert(words.subrange(0, n as int + 1) =~= words);
        assert(concat_bytes(fv.subrange(0, 0)) == Seq::<u8>::empty());
        assert(out@ =~= concat_bytes(words) + concat_bytes(fv.subrange(0, 0)));
    }
    let mut i: usize = 0;
    while i < n
        invariant
            i <= n,
            out@ == concat_bytes(words) + concat_bytes(fv.subrange(0, i as int)),
        decreases n - i,
    {
        push_bytes(&mut out, fields[i].as_slice());
        proof {
            assert(fv[i as int] =~= fields@[i as int]@);
            lemma_concat_snoc(fv.subrange(0, i as int), fv[i as int]);
            assert(fv.subrange(0, i as int + 1) =~= fv.subrange(0, i as int).push(fv[i as int]));
            assert(out@ =~= concat_bytes(words) + concat_bytes(fv.subrange(0, i as int + 1)));
        }
        i = i + 1;
    }
    proof {
        assert(fv.subrange(0, n as int) =~= fv);
    }
    out
}

/// Encodes a verifier reference.
#[verifier::loop_isolation(false)]
pub fn encode_script(s: &Script) -> (r: Vec<u8>)
    requires
        s@.wf(),
    ensures
        r@ == enc_script(s@),
{
    let ghost sf = script_fields(s@);
    proof {
        lemma_field_len_bound(sf, 2);
        assert(sf[2] == enc_fixvec(s@.args));
    }
    let mut fields: Vec<Vec<u8>> = Vec::new();
    fields.push(slice_to_vec(s.code_hash.as_slice()));
    let mut ht: Vec<u8> = Vec::new();
    ht.push(s.hash_type);
    proof {
        assert(ht@ =~= seq![s@.hash_type]);
    }
    fields.push(ht);
    fields.push(encode_fixvec(s.args.as_slice()));
    let mut j: usize = 0;
    while j < s.extra.len()
        invariant
            j <= s.extra@.len(),
            fields@.len() == 3 + j,
            forall|k: int| 0 <= k < fields@.len() ==> #[trigger] fields@[k]@ == sf[k],
        decreases s.extra@.len() - j,
    {
        proof {
            assert(sf[3 + j as int] == s@.extra[j as int]);
            assert(s.extra@[j as int].deep_view() =~= s.extra@[j as int]@);
        }
        fields.push(slice_to_vec(s.extra[j].as_slice()));
        j = j + 1;
    }
    proof {
        assert(fields@.len() == sf.len());
        assert forall|k: int| 0 <= k < fields@.len() implies fields.deep_view()[k] == sf[k] by {
            assert(fields@[k].deep_view() =~= fields@[k]@);
        }
        assert(fields.deep_view() =~~= sf);
    }
    encode_table(&fields)
}

/// Encodes a record variant.
#[verifier::loop_isolation(false)]
pub fn encode_v1(r: &ComponentDefinitionV1) -> (out: Vec<u8>)
    requires
        r@.wf(),
    ensures
        out@ == enc_v1(r@),
{
    let ghost vf = v1_fields(r@);
    proof {
        lemma_field_len_bound(vf, 0);
        assert(vf[0] == enc_fixvec(r@.component_name));
    }
    let mut fields: Vec<Vec<u8>> = Vec::new();
    fields.push(encode_fixvec(r.component_name.as_slice()));
    fields.push(slice_to_vec(r.info_hash.as_slice()));
    fields.push(encode_script(&r.delegate));
    let mut j: usize = 0;
    while j < r.extra.len()
        invariant
            j <= r.extra@.len(),
            fields@.len() == 3 + j,
            forall|k: int| 0 <= k < fields@.len() ==> #[trigger] fields@[k]@ == vf[k],
        decreases r.extra@.len() - j,
    {
        proof {
            assert(vf[3 + j as int] == r@.extra[j as int]);
            assert(r.extra@[j as int].deep_view() =~= r.extra@[j as int]@);
        }
        fields.push(slice_to_vec(r.extra[j].as_slice()));
        j = j + 1;
    }
    proof {
        assert(fields@.len() == vf.len());
        assert forall|k: int| 0 <= k < fields@.len() implies fields.deep_view()[k] == vf[k] by {
            assert(fields@[k].deep_view() =~= fields@[k]@);
        }
        assert(fields.deep_view() =~~= vf);
    }
    encode_table(&fields)
}

/// Encodes a record, variant tag first.
pub fn encode_component_definition(d: &ComponentDefinition) -> (out: Vec<u8>)
    requires
        d@.wf(),
    ensures
        out@ == enc_definition(d@),
{
    match d {
        ComponentDefinition::V1(r) => {
            let body = encode_v1(r);
            let mut out: Vec<u8> = Vec::new();
            push_u32_le(&mut out, 0);
            push_bytes(&mut out, body.as_slice());
            proof {
                assert(u32_bytes(0) + body@ =~= out@);
            }
            out
        },
    }
}

// ---------------------------------------------------------------------------
// Decoding
// ---------------------------------------------------------------------------

/// Reads and checks a table header, yielding the field boundaries.
#[verifier::loop_isolation(false)]
#[verifier::rlimit(60)]
fn parse_table(b: &[u8], compatible: bool, known: usize) -> (r: Result<Vec<usize>, DecodeError>)
    ensures
        r matches Err(e) ==> spec_parse_table(b@, compatible, known as int) == Err::<
            Seq<int>,
            DecodeError,
        >(e),
        r matches Ok(off) ==> spec_parse_table(b@, compatible, known as int) == Ok::<
            Seq<int>,
            DecodeError,
        >(offsets_view(off@)),
        r matches Ok(off) ==> {
            &&& off@.len() as int == table_field_count(b@) + 1
            &&& off@.len() >= known + 1
            &&& (forall|j: int| 0 <= j < off@.len() - 1 ==> #[trigger] off@[j] <= off@[j + 1])
            &&& off@[off@.len() - 1] as int == b@.len() as int
            &&& off@[0] as int == 4 * (off@.len() as int)
            &&& (forall|j: int| 0 <= j < off@.len() ==> #[trigger] off@[j] <= b@.len())
        },
{
    if b.len() < 4 {
        return Err(DecodeError::HeaderIsBroken);
    }
    let total = read_u32_le(b, 0);
    proof {
        assert(word_at(b@, 0) == total);
    }
    if total as usize != b.len() {
        return Err(DecodeError::TotalSizeNotMatch);
    }
    if b.len() < 8 {
        return Err(DecodeError::HeaderIsBroken);
    }
    let off0_w = read_u32_le(b, 4);
    proof {
        assert(word_at(b@, 1) == off0_w);
    }
    let off0 = off0_w as usize;
    if off0 % 4 != 0 || off0 < 8 {
        return Err(DecodeError::OffsetsNotMatch);
    }
    if b.len() < off0 {
        return Err(DecodeError::HeaderIsBroken);
    }
    let fc = off0 / 4 - 1;
    proof {
        assert(table_field_count(b@) == fc);
        assert(off0 == 4 * (fc + 1)) by {
            vstd::arithmetic::div_mod::lemma_fundamental_div_mod(off0 as int, 4);
        }
    }
    if fc < known {
        return Err(DecodeError::FieldCountNotMatch);
    }
    if !compatible && fc > known {
        return Err(DecodeError::FieldCountNotMatch);
    }
    let mut offs: Vec<usize> = Vec::new();
    let mut i: usize = 0;
    while i < fc
        invariant
            i <= fc,
            offs@.len() == i,
            forall|j: int| 0 <= j < i ==> #[trigger] offs@[j] == word_at(b@, 1 + j),
        decreases fc - i,
    {
        let w = read_u32_le(b, 4 + 4 * i);
        proof {
            assert(b@.subrange(4 + 4 * i, 4 + 4 * i + 4) =~= b@.subrange(
                4 * (1 + i),
                4 * (1 + i) + 4,
            ));
            assert(word_at(b@, 1 + i) == w);
        }
        offs.push(w as usize);
        i = i + 1;
    }
    offs.push(b.len());
    proof {
        assert(offs@.len() == fc + 1);
        assert(forall|j: int|
            0 <= j < fc + 1 ==> #[trigger] offs@[j] == spec_offsets(b@, fc as int)[j]);
    }
    let mut i: usize = 0;
    while i < fc
        invariant
            i <= fc,
            forall|j: int|
                0 <= j < i ==> #[trigger] spec_offsets(b@, fc as int)[j] <= spec_offsets(
                    b@,
                    fc as int,
                )[j + 1],
        decreases fc - i,
    {
        if offs[i] > offs[i + 1] {
            proof {
                assert(spec_offsets(b@, fc as int)[i as int] > spec_offsets(b@, fc as int)[
                i as int + 1]);
                assert(!offsets_monotone(b@, table_field_count(b@)));
            }
            return Err(DecodeError::OffsetsNotMatch);
        }
        i = i + 1;
    }
    proof {
        assert(offsets_monotone(b@, table_field_count(b@)));
        assert(offsets_view(offs@) =~= spec_offsets(b@, table_field_count(b@)));
        assert(forall|j: int| 0 <= j < offs@.len() - 1 ==> #[trigger] offs@[j] <= offs@[j + 1]);
        assert forall|j: int| 0 <= j < offs@.len() implies #[trigger] offs@[j] <= b@.len() by {
            lemma_mono_le(offs@, j, offs@.len() - 1);
        }
    }
    Ok(offs)
}

/// Reads a length-prefixed byte string.
fn parse_fixvec(b: &[u8]) -> (r: Result<Vec<u8>, DecodeError>)
    ensures
        r matches Err(e) ==> spec_parse_fixvec(b@) == Err::<Seq<u8>, DecodeError>(e),
        r matches Ok(v) ==> spec_parse_fixvec(b@) == Ok::<Seq<u8>, DecodeError>(v@),
{
    if b.len() < 4 {
        return Err(DecodeError::HeaderIsBroken);
    }
    let count = read_u32_le(b, 0);
    proof {
        assert(word_at(b@, 0) == count);
    }
    if count as usize != b.len() - 4 {
        return Err(DecodeError::TotalSizeNotMatch);
    }
    let data = slice_to_vec(&b[4..b.len()]);
    proof {
        assert(b@.subrange(4, b@.len() as int) =~= b@.skip(4));
    }
    Ok(data)
}

/// Decodes a verifier reference from a table buffer.
#[verifier::loop_isolation(false)]
#[verifier::rlimit(60)]
pub fn decode_script(b: &[u8], compatible: bool) -> (r: Result<Script, DecodeError>)
    ensures
        r matches Ok(s) ==> spec_decode_script(b@, compatible) == Ok::<ScriptModel, DecodeError>(
            s@,
        ),
        r matches Ok(s) ==> s@.wf(),
        r matches Err(e) ==> spec_decode_script(b@, compatible) == Err::<ScriptModel, DecodeError>(
            e,
        ),
{
    proof {
        lemma_spec_decode_script_wf(b@, compatible);
    }
    let offs = match parse_table(b, compatible, 3) {
        Ok(o) => o,
        Err(e) => {
            return Err(e);
        },
    };
    let ghost off_int = offsets_view(offs@);
    let o0 = offs[0];
    let o1 = offs[1];
    let o2 = offs[2];
    let o3 = offs[3];
    let f0 = &b[o0..o1];
    if f0.len() != 32 {
        return Err(DecodeError::TotalSizeNotMatch);
    }
    let f1 = &b[o1..o2];
    if f1.len() != 1 {
        return Err(DecodeError::TotalSizeNotMatch);
    }
    let ht = f1[0];
    let f2 = &b[o2..o3];
    let args = match parse_fixvec(f2) {
        Ok(v) => v,
        Err(e) => {
            return Err(e);
        },
    };
    let fcount = offs.len() - 1;
    let mut extra: Vec<Vec<u8>> = Vec::new();
    let mut j: usize = 0;
    while j + 3 < fcount
        invariant
            j + 3 <= fcount,
            extra@.len() == j,
            forall|k: int|
                0 <= k < j ==> #[trigger] extra@[k]@ == b@.subrange(
                    off_int[3 + k],
                    off_int[4 + k],
                ),
        decreases fcount - j,
    {
        let lo = offs[3 + j];
        let hi = offs[4 + j];
        extra.push(slice_to_vec(&b[lo..hi]));
        j = j + 1;
    }
    let s = Script { code_hash: slice_to_vec(f0), hash_type: ht, args, extra };
    proof {
        assert(s@.extra =~~= spec_extras(b@, off_int, 3));
        let m = ScriptModel {
            code_hash: b@.subrange(off_int[0], off_int[1]),
            hash_type: b@.subrange(off_int[1], off_int[2])[0],
            args: spec_parse_fixvec(b@.subrange(off_int[2], off_int[3]))->Ok_0,
            extra: spec_extras(b@, off_int, 3),
        };
        assert(s@ =~~= m);
        assert(spec_decode_script(b@, compatible) == Ok::<ScriptModel, DecodeError>(m));
    }
    Ok(s)
}

/// Decodes a record variant from a table buffer.
#[verifier::loop_isolation(false)]
#[verifier::rlimit(60)]
pub fn decode_v1(b: &[u8], compatible: bool) -> (r: Result<ComponentDefinitionV1, DecodeError>)
    ensures
        r matches Ok(v) ==> spec_decode_v1(b@, compatible) == Ok::<
            DefinitionV1Model,
            DecodeError,
        >(v@),
        r matches Ok(v) ==> v@.wf(),
        r matches Err(e) ==> spec_decode_v1(b@, compatible) == Err::<
            DefinitionV1Model,
            DecodeError,
        >(e),
{
    proof {
        lemma_spec_decode_v1_wf(b@, compatible);
    }
    let offs = match parse_table(b, compatible, 3) {
        Ok(o) => o,
        Err(e) => {
            return Err(e);
        },
    };
    let ghost off_int = offsets_view(offs@);
    let o0 = offs[0];
    let o1 = offs[1];
    let o2 = offs[2];
    let o3 = offs[3];
    let f0 = &b[o0..o1];
    let name = match parse_fixvec(f0) {
        Ok(v) => v,
        Err(e) => {
            return Err(e);
        },
    };
    let f1 = &b[o1..o2];
    if f1.len() != 32 {
        return Err(DecodeError::TotalSizeNotMatch);
    }
    let f2 = &b[o2..o3];
    let delegate = match decode_script(f2, compatible) {
        Ok(s) => s,
        Err(e) => {
            return Err(e);
        },
    };
    let fcount = offs.len() - 1;
    let mut extra: Vec<Vec<u8>> = Vec::new();
    let mut j: usize = 0;
    while j + 3 < fcount
        invariant
            j + 3 <= fcount,
            extra@.len() == j,
            forall|k: int|
                0 <= k < j ==> #[trigger] extra@[k]@ == b@.subrange(
                    off_int[3 + k],
                    off_int[4 + k],
                ),
        decreases fcount - j,
    {
        let lo = offs[3 + j];
        let hi = offs[4 + j];
        extra.push(slice_to_vec(&b[lo..hi]));
        j = j + 1;
    }
    let v = ComponentDefinitionV1 {
        component_name: name,
        info_hash: slice_to_vec(f1),
        delegate,
        extra,
    };
    proof {
        assert(v@.extra =~~= spec_extras(b@, off_int, 3));
        let m = DefinitionV1Model {
            component_name: spec_parse_fixvec(b@.subrange(off_int[0], off_int[1]))->Ok_0,
            info_hash: b@.subrange(off_int[1], off_int[2]),
            delegate: spec_decode_script(b@.subrange(off_int[2], off_int[3]), compatible)->Ok_0,
            extra: spec_extras(b@, off_int, 3),
        };
        assert(v@ =~~= m);
        assert(spec_decode_v1(b@, compatible) == Ok::<DefinitionV1Model, DecodeError>(m));
    }
    Ok(v)
}

/// Decodes a record from its byte encoding. `compatible` admits trailing
/// fields beyond the schema; a strict read rejects them.
pub fn decode_component_definition(b: &[u8], compatible: bool) -> (r: Result<
    ComponentDefinition,
    DecodeError,
>)
    ensures
        r matches Ok(d) ==> spec_decode_definition(b@, compatible) == Ok::<
            DefinitionModel,
            DecodeError,
        >(d@),
        r matches Ok(d) ==> d@.wf(),
        r matches Err(e) ==> spec_decode_definition(b@, compatible) == Err::<
            DefinitionModel,
            DecodeError,
        >(e),
{
    proof {
        lemma_spec_decode_definition_wf(b@, compatible);
    }
    if b.len() < 4 {
        return Err(DecodeError::HeaderIsBroken);
    }
    let tag = read_u32_le(b, 0);
    proof {
        assert(word_at(b@, 0) == tag);
    }
    if tag != 0 {
        return Err(DecodeError::UnknownItem);
    }
    let inner = &b[4..b.len()];
    proof {
        assert(inner@ =~= b@.skip(4));
    }
    match decode_v1(inner, compatible) {
        Ok(v) => Ok(ComponentDefinition::V1(v)),
        Err(e) => Err(e),
    }
}

} // verus!
