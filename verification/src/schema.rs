//! Schema registry: the fixed column layout of each phase's output table,
//! the typed field values rows are made of, and schema conformance.

use vstd::prelude::*;
use crate::phases::ExtractionPhase;

verus! {

/// The type of one column of a phase's table.
#[derive(Clone, Copy, PartialEq, Eq, Structural, Debug)]
pub enum ColumnType {
    Text,
    UInt,
    Boolean,
}

/// One typed field of an extracted row.
#[derive(Debug, PartialEq, Eq, Clone)]
pub enum Value {
    Text(Vec<u8>),
    UInt(u64),
    Boolean(bool),
}

/// The mathematical model of a field value.
pub enum ValueModel {
    Text(Seq<u8>),
    UInt(u64),
    Boolean(bool),
}

impl View for Value {
    type V = ValueModel;

    open spec fn view(&self) -> ValueModel {
        match self {
            Value::Text(t) => ValueModel::Text(t@),
            Value::UInt(x) => ValueModel::UInt(*x),
            Value::Boolean(b) => ValueModel::Boolean(*b),
        }
    }
}

/// One phase-tagged, schema-conformant row of extracted facts.
#[derive(Debug, PartialEq, Eq, Clone)]
pub struct ExtractedRow {
    pub phase: ExtractionPhase,
    pub fields: Vec<Value>,
}

impl View for ExtractedRow {
    type V = Seq<ValueModel>;

    open spec fn view(&self) -> Seq<ValueModel> {
        self.fields@.map_values(|v: Value| v@)
    }
}

/// A field value matches a column type when it is of that type; a text
/// field must also fit the table's 64-bit length prefix.
pub open spec fn value_matches(v: ValueModel, t: ColumnType) -> bool {
    match (v, t) {
        (ValueModel::Text(s), ColumnType::Text) => s.len() <= u64::MAX,
        (ValueModel::UInt(_), ColumnType::UInt) => true,
        (ValueModel::Boolean(_), ColumnType::Boolean) => true,
        _ => false,
    }
}

/// The fixed column layout of a phase's output table.
pub open spec fn spec_schema(p: ExtractionPhase) -> Seq<ColumnType> {
    match p {
        ExtractionPhase::ProjectMetadata => seq![
            ColumnType::Text,  // name
            ColumnType::Text,  // version
            ColumnType::Text,  // authors
            ColumnType::Text,  // license
            ColumnType::Text,  // description
            ColumnType::Text,  // keywords
        ],
        ExtractionPhase::DependencyAnalysis => seq![
            ColumnType::Text,  // source target
            ColumnType::Text,  // dependency name
            ColumnType::Text,  // version requirement
            ColumnType::Text,  // kind
        ],
        ExtractionPhase::SourceCodeAnalysis => seq![
            ColumnType::Text,  // target
            ColumnType::Text,  // path
            ColumnType::UInt,  // size
            ColumnType::Text,  // language
            ColumnType::UInt,  // lines
        ],
        ExtractionPhase::BuildExtractionPhase => seq![
            ColumnType::Text,  // target
            ColumnType::Text,  // setting
            ColumnType::Text,  // value
        ],
        ExtractionPhase::EcosystemAnalysis => seq![
            ColumnType::Text,  // target
            ColumnType::UInt,  // downloads
            ColumnType::UInt,  // reverse dependencies
            ColumnType::Text,  // categories
        ],
        ExtractionPhase::VersionHistory => seq![
            ColumnType::Text,  // target
            ColumnType::Text,  // version
            ColumnType::UInt,  // publish timestamp
            ColumnType::Boolean,  // yanked
        ],
    }
}

/// Every phase's table has at least one column.
pub proof fn lemma_schema_nonempty(p: ExtractionPhase)
    ensures
        spec_schema(p).len() > 0,
{
}

/// A row model conforms to a schema: same field count, matching types.
pub open spec fn fields_conform(fields: Seq<ValueModel>, schema: Seq<ColumnType>) -> bool {
    &&& fields.len() == schema.len()
    &&& forall|i: int| 0 <= i < fields.len() ==> value_matches(#[trigger] fields[i], schema[i])
}

/// A row conforms to its own phase's schema.
pub open spec fn row_conforms(r: ExtractedRow) -> bool {
    fields_conform(r@, spec_schema(r.phase))
}

/// The column layout of a phase's table, as an executable value.
pub fn schema_for(p: ExtractionPhase) -> (s: Vec<ColumnType>)
    ensures
        s@ == spec_schema(p),
{
    let mut s: Vec<ColumnType> = Vec::new();
    match p {
        ExtractionPhase::ProjectMetadata => {
            s.push(ColumnType::Text);
            s.push(ColumnType::Text);
            s.push(ColumnType::Text);
            s.push(ColumnType::Text);
            s.push(ColumnType::Text);
            s.push(ColumnType::Text);
        },
        ExtractionPhase::DependencyAnalysis => {
            s.push(ColumnType::Text);
            s.push(ColumnType::Text);
            s.push(ColumnType::Text);
            s.push(ColumnType::Text);
        },
        ExtractionPhase::SourceCodeAnalysis => {
            s.push(ColumnType::Text);
            s.push(ColumnType::Text);
            s.push(ColumnType::UInt);
            s.push(ColumnType::Text);
            s.push(ColumnType::UInt);
        },
        ExtractionPhase::BuildExtractionPhase => {
            s.push(ColumnType::Text);
            s.push(ColumnType::Text);
            s.push(ColumnType::Text);
        },
        ExtractionPhase::EcosystemAnalysis => {
            s.push(ColumnType::Text);
            s.push(ColumnType::UInt);
            s.push(ColumnType::UInt);
            s.push(ColumnType::Text);
        },
        ExtractionPhase::VersionHistory => {
            s.push(ColumnType::Text);
            s.push(ColumnType::Text);
            s.push(ColumnType::UInt);
            s.push(ColumnType::Boolean);
        },
    }
    proof {
        assert(s@ =~= spec_schema(p));
    }
    s
}

/// Checks a row against its phase's schema.
pub fn check_row(r: &ExtractedRow) -> (b: bool)
    ensures
        b == row_conforms(*r),
{
    let schema = schema_for(r.phase);
    if r.fields.len() != schema.len() {
        return false;
    }
    let mut i: usize = 0;
    while i < schema.len()
        invariant
            i <= schema@.len(),
            schema@ == spec_schema(r.phase),
            r.fields@.len() == schema@.len(),
            forall|j: int| 0 <= j < i ==> value_matches(#[trigger] r@[j], schema@[j]),
        decreases schema@.len() - i,
    {
        let ok = match (&r.fields[i], &schema[i]) {
            (Value::Text(t), ColumnType::Text) => t.len() as u64 <= u64::MAX,
            (Value::UInt(_), ColumnType::UInt) => true,
            (Value::Boolean(_), ColumnType::Boolean) => true,
            _ => false,
        };
        proof {
            assert(r@[i as int] == r.fields@[i as int]@);
        }
        if !ok {
            return false;
        }
        i = i + 1;
    }
    true
}

} // verus!
