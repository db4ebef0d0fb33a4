//! The columnar table encoding and its reader.
//!
//! A phase's table is one phase tag byte followed by the rows, each row its
//! fields in schema order: integers as eight little-endian bytes, booleans
//! as one byte, text as an eight-byte length followed by the bytes. The
//! reader reconstructs exactly the rows that were written.

use vstd::prelude::*;
use crate::phases::ExtractionPhase;
use crate::schema::{ColumnType, Value, ValueModel, ExtractedRow, value_matches, fields_conform,
    spec_schema, schema_for, lemma_schema_nonempty};
use crate::bytes::copy_range;

verus! {

/// The eight little-endian bytes of a 64-bit integer.
pub open spec fn spec_encode_u64(x: u64) -> Seq<u8> {
    Seq::new(8, |i: int| ((x >> ((8 * i) as u64)) & 0xff) as u8)
}

/// The 64-bit integer read from eight little-endian bytes.
pub open spec fn spec_decode_u64(b: Seq<u8>) -> u64
    recommends
        b.len() == 8,
{
    (b[0] as u64) | ((b[1] as u64) << 8u64) | ((b[2] as u64) << 16u64) | ((b[3] as u64)
        << 24u64) | ((b[4] as u64) << 32u64) | ((b[5] as u64) << 40u64) | ((b[6] as u64)
        << 48u64) | ((b[7] as u64) << 56u64)
}

pub proof fn lemma_u64_round_trip(x: u64)
    ensures
        spec_decode_u64(spec_encode_u64(x)) == x,
{
    let b = spec_encode_u64(x);
    assert(b[0] == ((x >> 0u64) & 0xff) as u8);
    assert(b[1] == ((x >> 8u64) & 0xff) as u8);
    assert(b[2] == ((x >> 16u64) & 0xff) as u8);
    assert(b[3] == ((x >> 24u64) & 0xff) as u8);
    assert(b[4] == ((x >> 32u64) & 0xff) as u8);
    assert(b[5] == ((x >> 40u64) & 0xff) as u8);
    assert(b[6] == ((x >> 48u64) & 0xff) as u8);
    assert(b[7] == ((x >> 56u64) & 0xff) as u8);
    assert((((x >> 0u64) & 0xff) as u8 as u64) | ((((x >> 8u64) & 0xff) as u8 as u64) << 8u64) | (
    (((x >> 16u64) & 0xff) as u8 as u64) << 16u64) | ((((x >> 24u64) & 0xff) as u8 as u64)
        << 24u64) | ((((x >> 32u64) & 0xff) as u8 as u64) << 32u64) | ((((x >> 40u64) & 0xff) as u8
        as u64) << 40u64) | ((((x >> 48u64) & 0xff) as u8 as u64) << 48u64) | ((((x >> 56u64)
        & 0xff) as u8 as u64) << 56u64) == x) by (bit_vector);
}

/// The bytes of one field value.
pub open spec fn spec_encode_value(v: ValueModel) -> Seq<u8> {
    match v {
        ValueModel::UInt(x) => spec_encode_u64(x),
        ValueModel::Boolean(b) => seq![if b { 1u8 } else { 0u8 }],
        ValueModel::Text(s) => spec_encode_u64(s.len() as u64) + s,
    }
}

/// Reads one field value of the given column type; yields the value and
/// the remaining bytes.
pub open spec fn spec_decode_value(t: ColumnType, b: Seq<u8>) -> Option<(ValueModel, Seq<u8>)> {
    match t {
        ColumnType::UInt => if b.len() >= 8 {
            Some((ValueModel::UInt(spec_decode_u64(b.subrange(0, 8))), b.skip(8)))
        } else {
            None
        },
        ColumnType::Boolean => if b.len() >= 1 && (b[0] == 0 || b[0] == 1) {
            Some((ValueModel::Boolean(b[0] == 1), b.skip(1)))
        } else {
            None
        },
        ColumnType::Text => if b.len() >= 8 {
            let n = spec_decode_u64(b.subrange(0, 8)) as int;
            if 8 + n <= b.len() {
                Some((ValueModel::Text(b.subrange(8, 8 + n)), b.skip(8 + n)))
            } else {
                None
            }
        } else {
            None
        },
    }
}

pub proof fn lemma_value_round_trip(v: ValueModel, t: ColumnType, rest: Seq<u8>)
    requires
        value_matches(v, t),
    ensures
        spec_decode_value(t, spec_encode_value(v) + rest) == Some((v, rest)),
        spec_encode_value(v).len() >= 1,
{
    let b = spec_encode_value(v) + rest;
    match v {
        ValueModel::UInt(x) => {
            assert(b.subrange(0, 8) =~= spec_encode_u64(x));
            lemma_u64_round_trip(x);
            assert(b.skip(8) =~= rest);
        },
        ValueModel::Boolean(v0) => {
            assert(b.skip(1) =~= rest);
        },
        ValueModel::Text(s) => {
            let n = s.len() as u64;
            assert(b.subrange(0, 8) =~= spec_encode_u64(n));
            lemma_u64_round_trip(n);
            assert(n as int == s.len());
            assert(b.subrange(8, 8 + s.len() as int) =~= s);
            assert(b.skip(8 + s.len() as int) =~= rest);
        },
    }
}

/// The bytes of one row: its fields in schema order.
pub open spec fn spec_encode_fields(fs: Seq<ValueModel>) -> Seq<u8>
    decreases fs.len(),
{
    if fs.len() == 0 {
        Seq::empty()
    } else {
        spec_encode_value(fs[0]) + spec_encode_fields(fs.skip(1))
    }
}

pub proof fn lemma_encode_fields_push(fs: Seq<ValueModel>, v: ValueModel)
    ensures
        spec_encode_fields(fs.push(v)) == spec_encode_fields(fs) + spec_encode_value(v),
    decreases fs.len(),
{
    if fs.len() == 0 {
        assert(fs.push(v)[0] == v);
        assert(fs.push(v).skip(1) =~= Seq::<ValueModel>::empty());
        assert(spec_encode_fields(Seq::<ValueModel>::empty()) =~= Seq::<u8>::empty());
        assert(spec_encode_fields(fs.push(v)) =~= spec_encode_value(v) + Seq::<u8>::empty());
        assert(spec_encode_value(v) + Seq::<u8>::empty() =~= spec_encode_value(v));
        assert(spec_encode_fields(fs) + spec_encode_value(v) =~= spec_encode_value(v));
    } else {
        assert(fs.push(v).skip(1) =~= fs.skip(1).push(v));
        lemma_encode_fields_push(fs.skip(1), v);
        assert(spec_encode_fields(fs.push(v)) =~= spec_encode_fields(fs) + spec_encode_value(v));
    }
}

/// Reads one row's fields for the given schema; yields the fields and the
/// remaining bytes.
pub open spec fn spec_decode_fields(schema: Seq<ColumnType>, b: Seq<u8>) -> Option<
    (Seq<ValueModel>, Seq<u8>),
>
    decreases schema.len(),
{
    if schema.len() == 0 {
        Some((Seq::empty(), b))
    } else {
        match spec_decode_value(schema[0], b) {
            None => None,
            Some((v, rest)) => match spec_decode_fields(schema.skip(1), rest) {
                None => None,
                Some((vs, rest2)) => Some((seq![v] + vs, rest2)),
            },
        }
    }
}

pub proof fn lemma_decode_fields_rest(schema: Seq<ColumnType>, b: Seq<u8>)
    ensures
        match spec_decode_fields(schema, b) {
            Some((vs, rest)) => rest.len() <= b.len() && (schema.len() > 0 ==> rest.len()
                < b.len()) && vs.len() == schema.len(),
            None => true,
        },
    decreases schema.len(),
{
    if schema.len() == 0 {
    } else {
        match spec_decode_value(schema[0], b) {
            None => {},
            Some((v, rest)) => {
                assert(rest.len() < b.len()) by {
                    match schema[0] {
                        ColumnType::UInt => {},
                        ColumnType::Boolean => {},
                        ColumnType::Text => {},
                    }
                }
                lemma_decode_fields_rest(schema.skip(1), rest);
            },
        }
    }
}

pub proof fn lemma_fields_round_trip(fs: Seq<ValueModel>, schema: Seq<ColumnType>, rest: Seq<u8>)
    requires
        fields_conform(fs, schema),
    ensures
        spec_decode_fields(schema, spec_encode_fields(fs) + rest) == Some((fs, rest)),
    decreases fs.len(),
{
    if fs.len() == 0 {
        assert(spec_encode_fields(fs) + rest =~= rest);
    } else {
        let b = spec_encode_fields(fs) + rest;
        let tail = spec_encode_fields(fs.skip(1)) + rest;
        assert(b =~= spec_encode_value(fs[0]) + tail);
        lemma_value_round_trip(fs[0], schema[0], tail);
        assert(fields_conform(fs.skip(1), schema.skip(1))) by {
            assert forall|i: int| 0 <= i < fs.skip(1).len() implies value_matches(
                #[trigger] fs.skip(1)[i],
                schema.skip(1)[i],
            ) by {
                assert(fs.skip(1)[i] == fs[i + 1]);
                assert(schema.skip(1)[i] == schema[i + 1]);
            }
        }
        lemma_fields_round_trip(fs.skip(1), schema.skip(1), rest);
        assert(seq![fs[0]] + fs.skip(1) =~= fs);
    }
}

/// The bytes of a whole table body: the rows one after another.
pub open spec fn spec_encode_bodies(rows: Seq<Seq<ValueModel>>) -> Seq<u8>
    decreases rows.len(),
{
    if rows.len() == 0 {
        Seq::empty()
    } else {
        spec_encode_fields(rows[0]) + spec_encode_bodies(rows.skip(1))
    }
}

pub proof fn lemma_encode_bodies_push(rows: Seq<Seq<ValueModel>>, r: Seq<ValueModel>)
    ensures
        spec_encode_bodies(rows.push(r)) == spec_encode_bodies(rows) + spec_encode_fields(r),
    decreases rows.len(),
{
    if rows.len() == 0 {
        assert(rows.push(r)[0] == r);
        assert(rows.push(r).skip(1) =~= Seq::<Seq<ValueModel>>::empty());
        assert(spec_encode_bodies(Seq::<Seq<ValueModel>>::empty()) =~= Seq::<u8>::empty());
        assert(spec_encode_bodies(rows.push(r)) =~= spec_encode_fields(r) + Seq::<u8>::empty());
        assert(spec_encode_fields(r) + Seq::<u8>::empty() =~= spec_encode_fields(r));
        assert(spec_encode_bodies(rows) + spec_encode_fields(r) =~= spec_encode_fields(r));
    } else {
        assert(rows.push(r).skip(1) =~= rows.skip(1).push(r));
        lemma_encode_bodies_push(rows.skip(1), r);
        assert(spec_encode_bodies(rows.push(r)) =~= spec_encode_bodies(rows)
            + spec_encode_fields(r));
    }
}

/// Reads table rows until the bytes run out; any leftover or malformed
/// byte fails the whole read.
pub open spec fn spec_decode_bodies(schema: Seq<ColumnType>, b: Seq<u8>) -> Option<
    Seq<Seq<ValueModel>>,
>
    decreases b.len(),
{
    if b.len() == 0 {
        Some(Seq::empty())
    } else {
        match spec_decode_fields(schema, b) {
            None => None,
            Some((vs, rest)) => if rest.len() < b.len() {
                match spec_decode_bodies(schema, rest) {
                    None => None,
                    Some(rs) => Some(seq![vs] + rs),
                }
            } else {
                None
            },
        }
    }
}

pub proof fn lemma_bodies_round_trip(rows: Seq<Seq<ValueModel>>, schema: Seq<ColumnType>)
    requires
        schema.len() > 0,
        forall|i: int| 0 <= i < rows.len() ==> fields_conform(#[trigger] rows[i], schema),
    ensures
        spec_decode_bodies(schema, spec_encode_bodies(rows)) == Some(rows),
    decreases rows.len(),
{
    if rows.len() == 0 {
    } else {
        let tail = spec_encode_bodies(rows.skip(1));
        let b = spec_encode_bodies(rows);
        assert(b =~= spec_encode_fields(rows[0]) + tail);
        lemma_fields_round_trip(rows[0], schema, tail);
        assert(b.len() > 0 && tail.len() < b.len()) by {
            lemma_value_round_trip(rows[0][0], schema[0], Seq::empty());
            assert(spec_encode_fields(rows[0]).len() >= spec_encode_value(rows[0][0]).len()) by {
                assert(spec_encode_fields(rows[0]) == spec_encode_value(rows[0][0])
                    + spec_encode_fields(rows[0].skip(1)));
            }
        }
        assert forall|i: int| 0 <= i < rows.skip(1).len() implies fields_conform(
            #[trigger] rows.skip(1)[i],
            schema,
        ) by {
            assert(rows.skip(1)[i] == rows[i + 1]);
        }
        lemma_bodies_round_trip(rows.skip(1), schema);
        assert(seq![rows[0]] + rows.skip(1) =~= rows);
    }
}

/// The tag byte that names a phase in its table's first byte.
pub open spec fn spec_phase_tag(p: ExtractionPhase) -> u8 {
    match p {
        ExtractionPhase::ProjectMetadata => 1,
        ExtractionPhase::DependencyAnalysis => 2,
        ExtractionPhase::SourceCodeAnalysis => 3,
        ExtractionPhase::BuildExtractionPhase => 4,
        ExtractionPhase::EcosystemAnalysis => 5,
        ExtractionPhase::VersionHistory => 6,
    }
}

/// The phase a tag byte names, if any.
pub open spec fn spec_tag_phase(b: u8) -> Option<ExtractionPhase> {
    if b == 1 {
        Some(ExtractionPhase::ProjectMetadata)
    } else if b == 2 {
        Some(ExtractionPhase::DependencyAnalysis)
    } else if b == 3 {
        Some(ExtractionPhase::SourceCodeAnalysis)
    } else if b == 4 {
        Some(ExtractionPhase::BuildExtractionPhase)
    } else if b == 5 {
        Some(ExtractionPhase::EcosystemAnalysis)
    } else if b == 6 {
        Some(ExtractionPhase::VersionHistory)
    } else {
        None
    }
}

/// The bytes of a whole phase table: tag byte, then the rows.
pub open spec fn spec_encode_table(p: ExtractionPhase, rows: Seq<Seq<ValueModel>>) -> Seq<u8> {
    seq![spec_phase_tag(p)] + spec_encode_bodies(rows)
}

/// Reads back a whole phase table.
pub open spec fn spec_decode_table(b: Seq<u8>) -> Option<
    (ExtractionPhase, Seq<Seq<ValueModel>>),
> {
    if b.len() >= 1 {
        match spec_tag_phase(b[0]) {
            None => None,
            Some(p) => match spec_decode_bodies(spec_schema(p), b.skip(1)) {
                None => None,
                Some(rows) => Some((p, rows)),
            },
        }
    } else {
        None
    }
}

/// Rows written by the Columnar Writer, read back through the same
/// format's reader, reconstruct the original row values exactly.
pub proof fn lemma_table_round_trip(p: ExtractionPhase, rows: Seq<Seq<ValueModel>>)
    requires
        forall|i: int| 0 <= i < rows.len() ==> fields_conform(#[trigger] rows[i], spec_schema(p)),
    ensures
        spec_decode_table(spec_encode_table(p, rows)) == Some((p, rows)),
{
    let b = spec_encode_table(p, rows);
    assert(b[0] == spec_phase_tag(p));
    assert(spec_tag_phase(spec_phase_tag(p)) == Some(p));
    assert(b.skip(1) =~= spec_encode_bodies(rows));
    lemma_bodies_round_trip(rows, spec_schema(p));
}

/// Appends the eight little-endian bytes of an integer.
pub fn push_u64(out: &mut Vec<u8>, x: u64)
    ensures
        final(out)@ == old(out)@ + spec_encode_u64(x),
{
    out.push((x & 0xff) as u8);
    out.push(((x >> 8u64) & 0xff) as u8);
    out.push(((x >> 16u64) & 0xff) as u8);
    out.push(((x >> 24u64) & 0xff) as u8);
    out.push(((x >> 32u64) & 0xff) as u8);
    out.push(((x >> 40u64) & 0xff) as u8);
    out.push(((x >> 48u64) & 0xff) as u8);
    out.push(((x >> 56u64) & 0xff) as u8);
    proof {
        assert((x & 0xff) == ((x >> 0u64) & 0xff)) by (bit_vector);
        assert(out@ =~= old(out)@ + spec_encode_u64(x));
    }
}

/// Appends the bytes of one field value.
pub fn push_value(out: &mut Vec<u8>, v: &Value)
    ensures
        final(out)@ == old(out)@ + spec_encode_value(v@),
{
    match v {
        Value::UInt(x) => {
            push_u64(out, *x);
        },
        Value::Boolean(b) => {
            out.push(if *b { 1u8 } else { 0u8 });
            proof {
                assert(out@ =~= old(out)@ + spec_encode_value(v@));
            }
        },
        Value::Text(s) => {
            push_u64(out, s.len() as u64);
            let mut i: usize = 0;
            let ghost mid = out@;
            while i < s.len()
                invariant
                    i <= s@.len(),
                    out@ == mid + s@.subrange(0, i as int),
                decreases s@.len() - i,
            {
                out.push(s[i]);
                proof {
                    assert(out@ =~= mid + s@.subrange(0, i + 1));
                }
                i = i + 1;
            }
            proof {
                assert(s@.subrange(0, s@.len() as int) =~= s@);
                assert(out@ =~= old(out)@ + spec_encode_value(v@));
            }
        },
    }
}

/// Appends the bytes of one row's fields.
pub fn push_row_fields(out: &mut Vec<u8>, r: &ExtractedRow)
    ensures
        final(out)@ == old(out)@ + spec_encode_fields(r@),
{
    let mut i: usize = 0;
    let ghost start = out@;
    while i < r.fields.len()
        invariant
            i <= r.fields@.len(),
            out@ == start + spec_encode_fields(r@.take(i as int)),
        decreases r.fields@.len() - i,
    {
        proof {
            assert(r@.take(i + 1) =~= r@.take(i as int).push(r@[i as int]));
            lemma_encode_fields_push(r@.take(i as int), r@[i as int]);
            assert(r@[i as int] == r.fields@[i as int]@);
        }
        push_value(out, &r.fields[i]);
        i = i + 1;
    }
    proof {
        assert(r@.take(r@.len() as int) =~= r@);
    }
}

/// Reads a 64-bit little-endian integer at a byte offset.
pub fn read_u64(bytes: &Vec<u8>, pos: usize) -> (r: u64)
    requires
        pos + 8 <= bytes@.len(),
    ensures
        r == spec_decode_u64(bytes@.subrange(pos as int, pos + 8)),
{
    proof {
        crate::bytes::lemma_vec_u8_len(bytes);
    }
    let b0 = bytes[pos] as u64;
    let b1 = bytes[pos + 1] as u64;
    let b2 = bytes[pos + 2] as u64;
    let b3 = bytes[pos + 3] as u64;
    let b4 = bytes[pos + 4] as u64;
    let b5 = bytes[pos + 5] as u64;
    let b6 = bytes[pos + 6] as u64;
    let b7 = bytes[pos + 7] as u64;
    let r = b0 | (b1 << 8u64) | (b2 << 16u64) | (b3 << 24u64) | (b4 << 32u64) | (b5 << 40u64) | (
    b6 << 48u64) | (b7 << 56u64);
    proof {
        let s = bytes@.subrange(pos as int, pos + 8);
        assert(s[0] == bytes@[pos as int]);
        assert(s[1] == bytes@[pos + 1]);
        assert(s[2] == bytes@[pos + 2]);
        assert(s[3] == bytes@[pos + 3]);
        assert(s[4] == bytes@[pos + 4]);
        assert(s[5] == bytes@[pos + 5]);
        assert(s[6] == bytes@[pos + 6]);
        assert(s[7] == bytes@[pos + 7]);
    }
    r
}

/// Reads one field value of a column type at a byte offset.
pub fn read_value(bytes: &Vec<u8>, pos: usize, t: ColumnType) -> (r: Option<(Value, usize)>)
    requires
        pos <= bytes@.len(),
    ensures
        match spec_decode_value(t, bytes@.skip(pos as int)) {
            Some((m, rest)) => match r {
                Some((v, np)) => v@ == m && pos <= np <= bytes@.len() && rest == bytes@.skip(
                    np as int,
                ),
                None => false,
            },
            None => r is None,
        },
{
    let ghost suf = bytes@.skip(pos as int);
    match t {
        ColumnType::UInt => {
            if bytes.len() - pos >= 8 {
                let x = read_u64(bytes, pos);
                proof {
                    assert(suf.subrange(0, 8) =~= bytes@.subrange(pos as int, pos + 8));
                    assert(suf.skip(8) =~= bytes@.skip(pos + 8));
                }
                Some((Value::UInt(x), pos + 8))
            } else {
                None
            }
        },
        ColumnType::Boolean => {
            if bytes.len() - pos >= 1 {
                let b = bytes[pos];
                proof {
                    assert(suf[0] == bytes@[pos as int]);
                    assert(suf.skip(1) =~= bytes@.skip(pos + 1));
                }
                if b == 0 {
                    Some((Value::Boolean(false), pos + 1))
                } else if b == 1 {
                    Some((Value::Boolean(true), pos + 1))
                } else {
                    None
                }
            } else {
                None
            }
        },
        ColumnType::Text => {
            if bytes.len() - pos >= 8 {
                let n = read_u64(bytes, pos);
                proof {
                    assert(suf.subrange(0, 8) =~= bytes@.subrange(pos as int, pos + 8));
                }
                let rem = bytes.len() - pos - 8;
                if n <= rem as u64 {
                    let nn = n as usize;
                    let s = copy_range(bytes.as_slice(), pos + 8, pos + 8 + nn);
                    proof {
                        assert(suf.subrange(8, 8 + n as int) =~= bytes@.subrange(
                            pos + 8,
                            pos + 8 + n as int,
                        ));
                        assert(suf.skip(8 + n as int) =~= bytes@.skip(pos + 8 + n as int));
                    }
                    Some((Value::Text(s), pos + 8 + nn))
                } else {
                    None
                }
            } else {
                None
            }
        },
    }
}

/// Reads one row of a phase's schema at a byte offset.
pub fn read_row(bytes: &Vec<u8>, pos: usize, phase: ExtractionPhase) -> (r: Option<
    (ExtractedRow, usize),
>)
    requires
        pos <= bytes@.len(),
    ensures
        match spec_decode_fields(spec_schema(phase), bytes@.skip(pos as int)) {
            Some((ms, rest)) => match r {
                Some((row, np)) => row@ == ms && row.phase == phase && pos <= np <= bytes@.len()
                    && rest == bytes@.skip(np as int),
                None => false,
            },
            None => r is None,
        },
{
    let schema = schema_for(phase);
    let mut fields: Vec<Value> = Vec::new();
    let mut cur: usize = pos;
    let mut j: usize = 0;
    proof {
        assert(schema@.skip(0) =~= schema@);
        match spec_decode_fields(schema@, bytes@.skip(pos as int)) {
            None => {},
            Some((vs, rest)) => {
                assert(fields@.map_values(|v: Value| v@) =~= Seq::<ValueModel>::empty());
                assert(fields@.map_values(|v: Value| v@) + vs =~= vs);
            },
        }
    }
    while j < schema.len()
        invariant
            j <= schema@.len(),
            pos <= cur <= bytes@.len(),
            schema@ == spec_schema(phase),
            fields@.len() == j,
            spec_decode_fields(schema@, bytes@.skip(pos as int)) == match spec_decode_fields(
                schema@.skip(j as int),
                bytes@.skip(cur as int),
            ) {
                None => None::<(Seq<ValueModel>, Seq<u8>)>,
                Some((vs, rest)) => Some((fields@.map_values(|v: Value| v@) + vs, rest)),
            },
        decreases schema@.len() - j,
    {
        let ghost pre = fields@.map_values(|v: Value| v@);
        proof {
            assert(schema@.skip(j as int)[0] == schema@[j as int]);
        }
        match read_value(bytes, cur, schema[j]) {
            None => {
                proof {
                    assert(spec_decode_value(schema@[j as int], bytes@.skip(cur as int)) is None);
                }
                return None;
            },
            Some((v, np)) => {
                proof {
                    let sub = schema@.skip(j as int);
                    assert(sub.skip(1) =~= schema@.skip(j + 1));
                    match spec_decode_fields(schema@.skip(j + 1), bytes@.skip(np as int)) {
                        None => {},
                        Some((vs, rest)) => {
                            assert(pre + (seq![v@] + vs) =~= pre.push(v@) + vs);
                        },
                    }
                }
                fields.push(v);
                cur = np;
                j = j + 1;
                proof {
                    assert(fields@.map_values(|v: Value| v@) =~= pre.push(
                        fields@[j - 1]@,
                    ));
                }
            },
        }
    }
    proof {
        assert(schema@.skip(schema@.len() as int) =~= Seq::<ColumnType>::empty());
        assert(fields@.map_values(|v: Value| v@) + Seq::<ValueModel>::empty() =~= fields@
            .map_values(|v: Value| v@));
    }
    let row = ExtractedRow { phase, fields };
    Some((row, cur))
}

/// Reads back a whole phase table written by the Columnar Writer.
pub fn read_table(bytes: &Vec<u8>) -> (r: Option<(ExtractionPhase, Vec<ExtractedRow>)>)
    ensures
        match spec_decode_table(bytes@) {
            Some((p, ms)) => match r {
                Some((rp, rows)) => rp == p && rows@.map_values(|r: ExtractedRow| r@) == ms
                    && forall|i: int| 0 <= i < rows@.len() ==> (#[trigger] rows@[i]).phase == p,
                None => false,
            },
            None => r is None,
        },
{
    if bytes.len() < 1 {
        return None;
    }
    let tag = bytes[0];
    let phase = if tag == 1 {
        ExtractionPhase::ProjectMetadata
    } else if tag == 2 {
        ExtractionPhase::DependencyAnalysis
    } else if tag == 3 {
        ExtractionPhase::SourceCodeAnalysis
    } else if tag == 4 {
        ExtractionPhase::BuildExtractionPhase
    } else if tag == 5 {
        ExtractionPhase::EcosystemAnalysis
    } else if tag == 6 {
        ExtractionPhase::VersionHistory
    } else {
        return None;
    };
    let mut rows: Vec<ExtractedRow> = Vec::new();
    let mut pos: usize = 1;
    proof {
        match spec_decode_bodies(spec_schema(phase), bytes@.skip(1)) {
            None => {},
            Some(ms) => {
                assert(rows@.map_values(|r: ExtractedRow| r@) =~= Seq::<Seq<ValueModel>>::empty());
                assert(rows@.map_values(|r: ExtractedRow| r@) + ms =~= ms);
            },
        }
    }
    while pos < bytes.len()
        invariant
            1 <= pos <= bytes@.len(),
            spec_tag_phase(bytes@[0]) == Some(phase),
            forall|i: int| 0 <= i < rows@.len() ==> (#[trigger] rows@[i]).phase == phase,
            spec_decode_bodies(spec_schema(phase), bytes@.skip(1)) == match spec_decode_bodies(
                spec_schema(phase),
                bytes@.skip(pos as int),
            ) {
                None => None::<Seq<Seq<ValueModel>>>,
                Some(ms) => Some(rows@.map_values(|r: ExtractedRow| r@) + ms),
            },
        decreases bytes@.len() - pos,
    {
        let ghost pre = rows@.map_values(|r: ExtractedRow| r@);
        let ghost suf = bytes@.skip(pos as int);
        match read_row(bytes, pos, phase) {
            None => {
                return None;
            },
            Some((row, np)) => {
                proof {
                    lemma_decode_fields_rest(spec_schema(phase), suf);
                    lemma_schema_nonempty(phase);
                    assert(np > pos);
                    match spec_decode_bodies(spec_schema(phase), bytes@.skip(np as int)) {
                        None => {},
                        Some(ms) => {
                            assert(pre + (seq![row@] + ms) =~= pre.push(row@) + ms);
                        },
                    }
                }
                rows.push(row);
                pos = np;
                proof {
                    assert(rows@.map_values(|r: ExtractedRow| r@) =~= pre.push(
                        rows@[rows@.len() - 1]@,
                    ));
                }
            },
        }
    }
    proof {
        assert(bytes@.skip(pos as int) =~= Seq::<u8>::empty());
        assert(rows@.map_values(|r: ExtractedRow| r@) + Seq::<Seq<ValueModel>>::empty()
            =~= rows@.map_values(|r: ExtractedRow| r@));
    }
    Some((phase, rows))
}

} // verus!
