use vstd::prelude::*;

use crate::error::DecodeError;
use crate::wire::{le32, u32_bytes};

verus! {

// ---------------------------------------------------------------------------
// The component-definition record and the verifier reference it names.
//
// On the wire a record is an offset-table structure: a 4-byte little-endian
// total size, one 4-byte offset per field, then the field payloads
// back-to-back. A reader accepts unknown trailing fields (forward
// compatibility) and keeps their raw bytes, so that a record survives a
// round trip unchanged.
// ---------------------------------------------------------------------------

/// A verifier reference: which code governs a cell, and with what argument.
/// `extra` carries raw trailing fields of a forward-compatible encoding.
pub struct Script {
    pub code_hash: Vec<u8>,
    pub hash_type: u8,
    pub args: Vec<u8>,
    pub extra: Vec<Vec<u8>>,
}

/// Mathematical image of a [`Script`].
#[verifier::ext_equal]
pub ghost struct ScriptModel {
    pub code_hash: Seq<u8>,
    pub hash_type: u8,
    pub args: Seq<u8>,
    pub extra: Seq<Seq<u8>>,
}

impl View for Script {
    type V = ScriptModel;

    open spec fn view(&self) -> ScriptModel {
        ScriptModel {
            code_hash: self.code_hash@,
            hash_type: self.hash_type,
            args: self.args@,
            extra: self.extra.deep_view(),
        }
    }
}

/// The current record variant: a name, a 32-byte digest of off-ledger
/// metadata, and the delegate verifier reference.
pub struct ComponentDefinitionV1 {
    pub component_name: Vec<u8>,
    pub info_hash: Vec<u8>,
    pub delegate: Script,
    pub extra: Vec<Vec<u8>>,
}

/// Mathematical image of a [`ComponentDefinitionV1`].
#[verifier::ext_equal]
pub ghost struct DefinitionV1Model {
    pub component_name: Seq<u8>,
    pub info_hash: Seq<u8>,
    pub delegate: ScriptModel,
    pub extra: Seq<Seq<u8>>,
}

impl View for ComponentDefinitionV1 {
    type V = DefinitionV1Model;

    open spec fn view(&self) -> DefinitionV1Model {
        DefinitionV1Model {
            component_name: self.component_name@,
            info_hash: self.info_hash@,
            delegate: self.delegate@,
            extra: self.extra.deep_view(),
        }
    }
}

/// The versioned record: a tagged union with one variant defined so far.
pub enum ComponentDefinition {
    V1(ComponentDefinitionV1),
}

/// Mathematical image of a [`ComponentDefinition`].
#[verifier::ext_equal]
pub ghost enum DefinitionModel {
    V1(DefinitionV1Model),
}

impl View for ComponentDefinition {
    type V = DefinitionModel;

    open spec fn view(&self) -> DefinitionModel {
        match self {
            ComponentDefinition::V1(r) => DefinitionModel::V1(r@),
        }
    }
}

// ---------------------------------------------------------------------------
// Concatenation of byte strings, and its arithmetic.
// ---------------------------------------------------------------------------

/// All byte strings of `s`, back to back.
pub open spec fn concat_bytes(s: Seq<Seq<u8>>) -> Seq<u8>
    decreases s.len(),
{
    if s.len() == 0 {
        Seq::empty()
    } else {
        s[0] + concat_bytes(s.drop_first())
    }
}

/// Total length of the first `i` byte strings of `s`.
pub open spec fn prefix_len(s: Seq<Seq<u8>>, i: int) -> int
    decreases i,
{
    if i <= 0 {
        0
    } else {
        prefix_len(s, i - 1) + s[i - 1].len()
    }
}

pub proof fn lemma_prefix_len_nonneg(s: Seq<Seq<u8>>, i: int)
    ensures
        prefix_len(s, i) >= 0,
    decreases i,
{
    if i > 0 {
        lemma_prefix_len_nonneg(s, i - 1);
    }
}

pub proof fn lemma_prefix_len_mono(s: Seq<Seq<u8>>, i: int, j: int)
    requires
        i <= j,
    ensures
        prefix_len(s, i) <= prefix_len(s, j),
    decreases j - i,
{
    if i < j {
        lemma_prefix_len_mono(s, i, j - 1);
    }
}

pub proof fn lemma_prefix_len_drop_first(s: Seq<Seq<u8>>, i: int)
    requires
        1 <= i <= s.len(),
    ensures
        prefix_len(s, i) == s[0].len() + prefix_len(s.drop_first(), i - 1),
    decreases i,
{
    if i == 1 {
        assert(prefix_len(s, 0) == 0);
        assert(prefix_len(s.drop_first(), 0) == 0);
    } else {
        lemma_prefix_len_drop_first(s, i - 1);
        assert(s.drop_first()[i - 2] == s[i - 1]);
    }
}

pub proof fn lemma_concat_len(s: Seq<Seq<u8>>)
    ensures
        concat_bytes(s).len() == prefix_len(s, s.len() as int),
    decreases s.len(),
{
    if s.len() > 0 {
        lemma_concat_len(s.drop_first());
        lemma_prefix_len_drop_first(s, s.len() as int);
    }
}

/// No single field is longer than the whole payload area.
pub proof fn lemma_field_len_bound(fields: Seq<Seq<u8>>, i: int)
    requires
        0 <= i < fields.len(),
    ensures
        fields[i].len() <= table_total(fields) - 4 * (fields.len() + 1),
{
    lemma_prefix_len_mono(fields, i + 1, fields.len() as int);
    lemma_prefix_len_nonneg(fields, i);
    assert(prefix_len(fields, i + 1) == prefix_len(fields, i) + fields[i].len());
}

/// Two byte strings laid end to end keep each part readable at its place.
pub proof fn lemma_add_subrange(x: Seq<u8>, y: Seq<u8>, a: int, b: int)
    requires
        0 <= a <= b <= y.len(),
    ensures
        (x + y).subrange(x.len() + a, x.len() + b) == y.subrange(a, b),
{
    assert((x + y).subrange(x.len() + a, x.len() + b) =~= y.subrange(a, b));
}

/// A range that lies inside the first of two concatenated byte strings
/// reads from that first part alone.
pub proof fn lemma_add_subrange_left(x: Seq<u8>, y: Seq<u8>, a: int, c: int)
    requires
        0 <= a <= c <= x.len(),
    ensures
        (x + y).subrange(a, c) == x.subrange(a, c),
{
    assert((x + y).subrange(a, c) =~= x.subrange(a, c));
}

/// Within a concatenation, the `i`-th part occupies exactly the range
/// between the `i`-th and `i+1`-th prefix lengths.
pub proof fn lemma_concat_subrange(s: Seq<Seq<u8>>, i: int)
    requires
        0 <= i < s.len(),
    ensures
        concat_bytes(s).subrange(prefix_len(s, i), prefix_len(s, i + 1)) == s[i],
    decreases i,
{
    lemma_concat_len(s);
    lemma_prefix_len_nonneg(s, i);
    lemma_prefix_len_mono(s, i + 1, s.len() as int);
    if i == 0 {
        assert(concat_bytes(s).subrange(0, s[0].len() as int) =~= s[0]);
    } else {
        let d = s.drop_first();
        lemma_concat_subrange(d, i - 1);
        lemma_prefix_len_drop_first(s, i);
        lemma_prefix_len_drop_first(s, i + 1);
        lemma_concat_len(d);
        lemma_prefix_len_mono(d, i, d.len() as int);
        lemma_prefix_len_nonneg(d, i - 1);
        lemma_add_subrange(s[0], concat_bytes(d), prefix_len(d, i - 1), prefix_len(d, i));
    }
}

/// Appending one byte string extends the concatenation by exactly it.
pub proof fn lemma_concat_snoc(s: Seq<Seq<u8>>, t: Seq<u8>)
    ensures
        concat_bytes(s.push(t)) == concat_bytes(s) + t,
    decreases s.len(),
{
    if s.len() == 0 {
        assert(s.push(t)[0] == t);
        assert(s.push(t).drop_first() =~= Seq::<Seq<u8>>::empty());
        assert(concat_bytes(Seq::<Seq<u8>>::empty()) == Seq::<u8>::empty());
        assert(concat_bytes(s) == Seq::<u8>::empty());
        assert(concat_bytes(s.push(t)) == t + Seq::<u8>::empty());
        assert(concat_bytes(s.push(t)) =~= concat_bytes(s) + t);
    } else {
        lemma_concat_snoc(s.drop_first(), t);
        assert(s.push(t).drop_first() =~= s.drop_first().push(t));
        assert(s.push(t)[0] == s[0]);
        assert(concat_bytes(s.push(t)) =~= concat_bytes(s) + t);
    }
}

// ---------------------------------------------------------------------------
// The offset-table encoding.
// ---------------------------------------------------------------------------

/// Byte position of field `i` inside a table of the given fields: the
/// header (one size word plus one offset word per field) comes first.
pub open spec fn table_offset(fields: Seq<Seq<u8>>, i: int) -> int {
    4 * (fields.len() + 1) + prefix_len(fields, i)
}

/// Total byte size of the encoded table.
pub open spec fn table_total(fields: Seq<Seq<u8>>) -> int {
    table_offset(fields, fields.len() as int)
}

/// The header words of the table: the total size, then each field's offset.
pub open spec fn table_words(fields: Seq<Seq<u8>>) -> Seq<Seq<u8>> {
    Seq::new(
        fields.len() + 1,
        |i: int|
            if i == 0 {
                u32_bytes(table_total(fields))
            } else {
                u32_bytes(table_offset(fields, i - 1))
            },
    )
}

/// The encoded table: header words, then the field payloads back to back.
pub open spec fn enc_table(fields: Seq<Seq<u8>>) -> Seq<u8> {
    concat_bytes(table_words(fields)) + concat_bytes(fields)
}

/// A length-prefixed byte string: a 4-byte little-endian count, then the
/// bytes themselves.
pub open spec fn enc_fixvec(data: Seq<u8>) -> Seq<u8> {
    u32_bytes(data.len() as int) + data
}

/// The fields of an encoded verifier reference, in wire order.
pub open spec fn script_fields(s: ScriptModel) -> Seq<Seq<u8>> {
    seq![s.code_hash, seq![s.hash_type], enc_fixvec(s.args)] + s.extra
}

/// The encoded verifier reference.
pub open spec fn enc_script(s: ScriptModel) -> Seq<u8> {
    enc_table(script_fields(s))
}

/// The fields of an encoded record variant, in wire order.
pub open spec fn v1_fields(r: DefinitionV1Model) -> Seq<Seq<u8>> {
    seq![enc_fixvec(r.component_name), r.info_hash, enc_script(r.delegate)] + r.extra
}

/// The encoded record variant.
pub open spec fn enc_v1(r: DefinitionV1Model) -> Seq<u8> {
    enc_table(v1_fields(r))
}

/// The encoded record: a 4-byte variant tag, then the variant's table.
pub open spec fn enc_definition(d: DefinitionModel) -> Seq<u8> {
    match d {
        DefinitionModel::V1(r) => u32_bytes(0) + enc_v1(r),
    }
}

impl ScriptModel {
    /// A constructible verifier reference: a 32-byte code identity, and an
    /// encoding whose size field fits its four bytes.
    pub open spec fn wf(self) -> bool {
        &&& self.code_hash.len() == 32
        &&& table_total(script_fields(self)) < 0x1_0000_0000
    }
}

impl DefinitionV1Model {
    /// A constructible record variant: a 32-byte metadata digest, a
    /// constructible delegate, and an encoding whose size field fits.
    pub open spec fn wf(self) -> bool {
        &&& self.info_hash.len() == 32
        &&& self.delegate.wf()
        &&& table_total(v1_fields(self)) < 0x1_0000_0000
    }

    /// No trailing fields beyond the schema, at either nesting level.
    pub open spec fn no_extra(self) -> bool {
        self.extra.len() == 0 && self.delegate.extra.len() == 0
    }
}

impl DefinitionModel {
    pub open spec fn wf(self) -> bool {
        match self {
            DefinitionModel::V1(r) => r.wf(),
        }
    }

    pub open spec fn no_extra(self) -> bool {
        match self {
            DefinitionModel::V1(r) => r.no_extra(),
        }
    }
}

// ---------------------------------------------------------------------------
// The decoding relation: what a byte buffer means, if anything.
// ---------------------------------------------------------------------------

/// The `i`-th 4-byte little-endian word of `b`.
pub open spec fn word_at(b: Seq<u8>, i: int) -> int {
    le32(b.subrange(4 * i, 4 * i + 4))
}

/// Field count declared by a table's first offset word.
pub open spec fn table_field_count(b: Seq<u8>) -> int {
    word_at(b, 1) / 4 - 1
}

/// The field boundaries of a table buffer: each declared offset, and the
/// buffer's total length closing the last field.
pub open spec fn spec_offsets(b: Seq<u8>, fc: int) -> Seq<int> {
    Seq::new((fc + 1) as nat, |i: int| if i < fc { word_at(b, 1 + i) } else { b.len() as int })
}

/// All field boundaries are non-decreasing.
pub open spec fn offsets_monotone(b: Seq<u8>, fc: int) -> bool {
    forall|i: int|
        0 <= i < fc ==> #[trigger] spec_offsets(b, fc)[i] <= spec_offsets(b, fc)[i + 1]
}

/// Reads a table header: checks the size word against the buffer, the
/// shape of the offset table, and the field count against the schema's
/// `known` count (`compatible` admits extra trailing fields); yields the
/// field boundaries.
pub open spec fn spec_parse_table(b: Seq<u8>, compatible: bool, known: int) -> Result<
    Seq<int>,
    DecodeError,
> {
    if b.len() < 4 {
        Err(DecodeError::HeaderIsBroken)
    } else if word_at(b, 0) != b.len() {
        Err(DecodeError::TotalSizeNotMatch)
    } else if b.len() < 8 {
        Err(DecodeError::HeaderIsBroken)
    } else if word_at(b, 1) % 4 != 0 || word_at(b, 1) < 8 {
        Err(DecodeError::OffsetsNotMatch)
    } else if b.len() < word_at(b, 1) {
        Err(DecodeError::HeaderIsBroken)
    } else if table_field_count(b) < known || (!compatible && table_field_count(b) > known) {
        Err(DecodeError::FieldCountNotMatch)
    } else if !offsets_monotone(b, table_field_count(b)) {
        Err(DecodeError::OffsetsNotMatch)
    } else {
        Ok(spec_offsets(b, table_field_count(b)))
    }
}

/// Reads a length-prefixed byte string: the count must account for the
/// whole buffer.
pub open spec fn spec_parse_fixvec(b: Seq<u8>) -> Result<Seq<u8>, DecodeError> {
    if b.len() < 4 {
        Err(DecodeError::HeaderIsBroken)
    } else if word_at(b, 0) != b.len() - 4 {
        Err(DecodeError::TotalSizeNotMatch)
    } else {
        Ok(b.skip(4))
    }
}

/// The trailing fields of a table beyond the `known` schema fields.
pub open spec fn spec_extras(b: Seq<u8>, off: Seq<int>, known: int) -> Seq<Seq<u8>> {
    Seq::new((off.len() - 1 - known) as nat, |j: int| b.subrange(off[known + j], off[known + j + 1]))
}

/// Decodes a verifier reference from a table buffer.
pub open spec fn spec_decode_script(b: Seq<u8>, compatible: bool) -> Result<
    ScriptModel,
    DecodeError,
> {
    match spec_parse_table(b, compatible, 3) {
        Err(e) => Err(e),
        Ok(off) => {
            let f0 = b.subrange(off[0], off[1]);
            let f1 = b.subrange(off[1], off[2]);
            let f2 = b.subrange(off[2], off[3]);
            if f0.len() != 32 {
                Err(DecodeError::TotalSizeNotMatch)
            } else if f1.len() != 1 {
                Err(DecodeError::TotalSizeNotMatch)
            } else {
                match spec_parse_fixvec(f2) {
                    Err(e) => Err(e),
                    Ok(args) => Ok(
                        ScriptModel {
                            code_hash: f0,
                            hash_type: f1[0],
                            args,
                            extra: spec_extras(b, off, 3),
                        },
                    ),
                }
            }
        },
    }
}

/// Decodes a record variant from a table buffer.
pub open spec fn spec_decode_v1(b: Seq<u8>, compatible: bool) -> Result<
    DefinitionV1Model,
    DecodeError,
> {
    match spec_parse_table(b, compatible, 3) {
        Err(e) => Err(e),
        Ok(off) => {
            let f0 = b.subrange(off[0], off[1]);
            let f1 = b.subrange(off[1], off[2]);
            let f2 = b.subrange(off[2], off[3]);
            match spec_parse_fixvec(f0) {
                Err(e) => Err(e),
                Ok(name) => {
                    if f1.len() != 32 {
                        Err(DecodeError::TotalSizeNotMatch)
                    } else {
                        match spec_decode_script(f2, compatible) {
                            Err(e) => Err(e),
                            Ok(delegate) => Ok(
                                DefinitionV1Model {
                                    component_name: name,
                                    info_hash: f1,
                                    delegate,
                                    extra: spec_extras(b, off, 3),
                                },
                            ),
                        }
                    }
                },
            }
        },
    }
}

/// Decodes a record: the variant tag selects the layout; an unknown tag is
/// rejected.
pub open spec fn spec_decode_definition(b: Seq<u8>, compatible: bool) -> Result<
    DefinitionModel,
    DecodeError,
> {
    if b.len() < 4 {
        Err(DecodeError::HeaderIsBroken)
    } else if word_at(b, 0) != 0 {
        Err(DecodeError::UnknownItem)
    } else {
        match spec_decode_v1(b.skip(4), compatible) {
            Err(e) => Err(e),
            Ok(r) => Ok(DefinitionModel::V1(r)),
        }
    }
}

} // verus!
