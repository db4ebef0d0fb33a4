//! Phase Extractors: one per extraction phase, each turning a target's
//! facts into schema-conformant rows.

use vstd::prelude::*;
use crate::bytes::{ascii_seq, ascii_bytes, bytes_eq, clone_bytes, copy_range, lemma_vec_u8_len};
use crate::phases::ExtractionPhase;
use crate::project::{Project, DepKind};
use crate::schema::{Value, ValueModel, ExtractedRow, row_conforms, spec_schema, fields_conform};
use crate::facts::{SourceFileFact, BuildFacts, EcosystemFacts, VersionRecord, TargetFacts};

verus! {

/// The views of a list of byte vectors.
pub open spec fn byte_models(v: Seq<Vec<u8>>) -> Seq<Seq<u8>> {
    v.map_values(|b: Vec<u8>| b@)
}

/// Parts joined with a separator byte between them.
pub open spec fn spec_join(parts: Seq<Seq<u8>>, sep: u8) -> Seq<u8>
    decreases parts.len(),
{
    if parts.len() == 0 {
        Seq::empty()
    } else if parts.len() == 1 {
        parts[0]
    } else {
        spec_join(parts.drop_last(), sep) + seq![sep] + parts.last()
    }
}

/// Joins byte vectors with a separator byte.
pub fn join_list(parts: &Vec<Vec<u8>>, sep: u8) -> (r: Vec<u8>)
    ensures
        r@ == spec_join(byte_models(parts@), sep),
{
    let ghost m = byte_models(parts@);
    let mut r: Vec<u8> = Vec::new();
    let mut i: usize = 0;
    proof {
        assert(m.take(0) =~= Seq::<Seq<u8>>::empty());
    }
    while i < parts.len()
        invariant
            i <= parts@.len(),
            m == byte_models(parts@),
            m.len() == parts@.len(),
            r@ == spec_join(m.take(i as int), sep),
        decreases parts@.len() - i,
    {
        let ghost pre = r@;
        if i > 0 {
            r.push(sep);
        }
        let part = &parts[i];
        let mut k: usize = 0;
        let ghost mid = r@;
        while k < part.len()
            invariant
                k <= part@.len(),
                r@ == mid + part@.subrange(0, k as int),
            decreases part@.len() - k,
        {
            r.push(part[k]);
            proof {
                assert(r@ =~= mid + part@.subrange(0, k + 1));
            }
            k = k + 1;
        }
        proof {
            assert(part@.subrange(0, part@.len() as int) =~= part@);
            assert(m.take(i + 1).drop_last() =~= m.take(i as int));
            assert(m.take(i + 1).last() == m[i as int]);
            assert(m[i as int] == parts@[i as int]@);
            if i == 0 {
                assert(r@ =~= spec_join(m.take(1), sep));
            } else {
                assert(r@ =~= spec_join(m.take(i as int), sep) + seq![sep] + m[i as int]);
            }
        }
        i = i + 1;
    }
    proof {
        assert(m.take(m.len() as int) =~= m);
    }
    r
}

/// The number of newline bytes in a text.
pub open spec fn spec_nl_count(s: Seq<u8>) -> int
    decreases s.len(),
{
    if s.len() == 0 {
        0
    } else {
        spec_nl_count(s.drop_last()) + if s.last() == 10 {
            1int
        } else {
            0int
        }
    }
}

proof fn lemma_nl_count_le(s: Seq<u8>)
    ensures
        0 <= spec_nl_count(s) <= s.len(),
    decreases s.len(),
{
    if s.len() > 0 {
        lemma_nl_count_le(s.drop_last());
    }
}

/// The number of lines of a text: newline count, plus one for a final
/// unterminated line.
pub open spec fn spec_line_count(s: Seq<u8>) -> int {
    spec_nl_count(s) + if s.len() > 0 && s.last() != 10 {
        1int
    } else {
        0int
    }
}

/// Counts the lines of a text.
pub fn count_lines(text: &[u8]) -> (r: u64)
    ensures
        r as int == spec_line_count(text@),
{
    let mut c: usize = 0;
    let mut i: usize = 0;
    while i < text.len()
        invariant
            i <= text@.len(),
            c <= i,
            c as int == spec_nl_count(text@.take(i as int)),
        decreases text@.len() - i,
    {
        proof {
            assert(text@.take(i + 1).drop_last() =~= text@.take(i as int));
            assert(text@.take(i + 1).last() == text@[i as int]);
        }
        if text[i] == 10 {
            c = c + 1;
        }
        i = i + 1;
    }
    proof {
        assert(text@.take(text@.len() as int) =~= text@);
    }
    if text.len() > 0 && text[text.len() - 1] != 10 {
        proof {
            lemma_nl_count_le(text@.drop_last());
            assert(spec_nl_count(text@) == spec_nl_count(text@.drop_last()));
        }
        (c + 1) as u64
    } else {
        c as u64
    }
}

/// The path holds a dot.
pub open spec fn has_dot(p: Seq<u8>) -> bool {
    exists|i: int| 0 <= i < p.len() && p[i] == 46
}

/// The bytes after the last dot of a path.
pub open spec fn spec_ext(p: Seq<u8>) -> Seq<u8>
    decreases p.len(),
{
    if p.len() == 0 {
        Seq::empty()
    } else if p.last() == 46 {
        Seq::empty()
    } else {
        spec_ext(p.drop_last()).push(p.last())
    }
}

proof fn lemma_ext_at(p: Seq<u8>, d: int)
    requires
        0 <= d < p.len(),
        p[d] == 46,
        forall|t: int| d < t < p.len() ==> p[t] != 46,
    ensures
        spec_ext(p) == p.skip(d + 1),
    decreases p.len(),
{
    if d == p.len() - 1 {
        assert(p.skip(d + 1) =~= Seq::<u8>::empty());
    } else {
        assert(p.last() != 46);
        let q = p.drop_last();
        assert(q[d] == p[d]);
        assert forall|t: int| d < t < q.len() implies q[t] != 46 by {
            assert(q[t] == p[t]);
        }
        lemma_ext_at(q, d);
        assert(q.skip(d + 1).push(p.last()) =~= p.skip(d + 1));
    }
}

/// The language a file's extension names.
pub open spec fn spec_language(p: Seq<u8>) -> Seq<u8> {
    if has_dot(p) {
        let e = spec_ext(p);
        if e == ascii_seq("rs"@) {
            ascii_seq("rust"@)
        } else if e == ascii_seq("toml"@) {
            ascii_seq("toml"@)
        } else if e == ascii_seq("md"@) {
            ascii_seq("markdown"@)
        } else {
            ascii_seq("other"@)
        }
    } else {
        ascii_seq("other"@)
    }
}

/// Detects a source file's language from its path's extension.
pub fn language_of(path: &[u8]) -> (r: Vec<u8>)
    ensures
        r@ == spec_language(path@),
{
    proof {
        reveal_strlit("rs");
        reveal_strlit("rust");
        reveal_strlit("toml");
        reveal_strlit("md");
        reveal_strlit("markdown");
        reveal_strlit("other");
    }
    let mut j: usize = path.len();
    while j > 0 && path[j - 1] != 46
        invariant
            j <= path@.len(),
            forall|t: int| j <= t < path@.len() ==> path@[t] != 46,
        decreases j,
    {
        j = j - 1;
    }
    if j == 0 {
        proof {
            if has_dot(path@) {
                let w = choose|w: int| 0 <= w < path@.len() && path@[w] == 46;
                assert(path@[w] != 46);
            }
        }
        return ascii_bytes("other");
    }
    proof {
        assert(path@[j - 1] == 46);
        assert(has_dot(path@)) by {
            assert(0 <= j - 1 < path@.len() && path@[j - 1] == 46);
        }
        lemma_ext_at(path@, j - 1);
        assert(path@.skip(j as int) =~= path@.subrange(j as int, path@.len() as int));
    }
    let ext = copy_range(path, j, path.len());
    let rs = ascii_bytes("rs");
    if bytes_eq(ext.as_slice(), rs.as_slice()) {
        return ascii_bytes("rust");
    }
    let toml = ascii_bytes("toml");
    if bytes_eq(ext.as_slice(), toml.as_slice()) {
        return ascii_bytes("toml");
    }
    let md = ascii_bytes("md");
    if bytes_eq(ext.as_slice(), md.as_slice()) {
        return ascii_bytes("markdown");
    }
    ascii_bytes("other")
}

/// The model of a version record: version, timestamp, yanked flag.
pub open spec fn vr_model(r: VersionRecord) -> (Seq<u8>, u64, bool) {
    (r.version@, r.timestamp, r.yanked)
}

/// The models of a list of version records.
pub open spec fn vr_models(rs: Seq<VersionRecord>) -> Seq<(Seq<u8>, u64, bool)> {
    rs.map_values(|r: VersionRecord| vr_model(r))
}

/// Record models ordered oldest to newest.
pub open spec fn sorted_by_time(s: Seq<(Seq<u8>, u64, bool)>) -> bool {
    forall|i: int, j: int| 0 <= i < j < s.len() ==> (#[trigger] s[i]).1 <= (#[trigger] s[j]).1
}

/// Inserts a record model into a sorted run, after records of equal time.
pub open spec fn spec_insert_sorted(
    s: Seq<(Seq<u8>, u64, bool)>,
    m: (Seq<u8>, u64, bool),
) -> Seq<(Seq<u8>, u64, bool)>
    decreases s.len(),
{
    if s.len() == 0 {
        seq![m]
    } else if s.last().1 <= m.1 {
        s.push(m)
    } else {
        spec_insert_sorted(s.drop_last(), m).push(s.last())
    }
}

/// Version record models sorted oldest to newest, insertion by insertion.
pub open spec fn spec_sort_models(s: Seq<(Seq<u8>, u64, bool)>) -> Seq<(Seq<u8>, u64, bool)>
    decreases s.len(),
{
    if s.len() == 0 {
        Seq::empty()
    } else {
        spec_insert_sorted(spec_sort_models(s.drop_last()), s.last())
    }
}

proof fn lemma_insert_at(s: Seq<(Seq<u8>, u64, bool)>, m: (Seq<u8>, u64, bool), j: int)
    requires
        0 <= j <= s.len(),
        forall|t: int| j <= t < s.len() ==> (#[trigger] s[t]).1 > m.1,
        j > 0 ==> s[j - 1].1 <= m.1,
    ensures
        spec_insert_sorted(s, m) == s.take(j) + seq![m] + s.skip(j),
    decreases s.len(),
{
    if s.len() == 0 {
        assert(spec_insert_sorted(s, m) =~= s.take(j) + seq![m] + s.skip(j));
    } else if s.last().1 <= m.1 {
        assert(j == s.len()) by {
            if j < s.len() {
                assert(s[s.len() - 1].1 > m.1);
            }
        }
        assert(spec_insert_sorted(s, m) =~= s.take(j) + seq![m] + s.skip(j));
    } else {
        assert(j < s.len()) by {
            if j == s.len() {
                assert(s[j - 1].1 <= m.1);
            }
        }
        let q = s.drop_last();
        assert forall|t: int| j <= t < q.len() implies (#[trigger] q[t]).1 > m.1 by {
            assert(q[t] == s[t]);
        }
        if j > 0 {
            assert(q[j - 1] == s[j - 1]);
        }
        lemma_insert_at(q, m, j);
        assert((q.take(j) + seq![m] + q.skip(j)).push(s.last()) =~= s.take(j) + seq![m] + s.skip(
            j,
        ));
    }
}

/// Sorts version records oldest to newest by publish timestamp, keeping
/// records of equal time in their given order.
pub fn sort_versions(recs: &Vec<VersionRecord>) -> (r: Vec<VersionRecord>)
    ensures
        vr_models(r@) == spec_sort_models(vr_models(recs@)),
        sorted_by_time(vr_models(r@)),
{
    let ghost m = vr_models(recs@);
    let mut out: Vec<VersionRecord> = Vec::new();
    let mut i: usize = 0;
    proof {
        assert(m.take(0) =~= Seq::<(Seq<u8>, u64, bool)>::empty());
        assert(vr_models(out@) =~= Seq::<(Seq<u8>, u64, bool)>::empty());
    }
    while i < recs.len()
        invariant
            i <= recs@.len(),
            m == vr_models(recs@),
            m.len() == recs@.len(),
            vr_models(out@) == spec_sort_models(m.take(i as int)),
            sorted_by_time(vr_models(out@)),
        decreases recs@.len() - i,
    {
        let ghost om = vr_models(out@);
        let rec = &recs[i];
        let mut j: usize = out.len();
        while j > 0 && out[j - 1].timestamp > rec.timestamp
            invariant
                j <= out@.len(),
                om == vr_models(out@),
                forall|t: int| j <= t < om.len() ==> (#[trigger] om[t]).1 > rec.timestamp,
            decreases j,
        {
            proof {
                assert(om[j - 1] == vr_model(out@[j - 1]));
            }
            j = j - 1;
        }
        let fresh = VersionRecord {
            version: clone_bytes(&rec.version),
            timestamp: rec.timestamp,
            yanked: rec.yanked,
        };
        let ghost fm = vr_model(fresh);
        proof {
            assert(fm == m[i as int]);
            if j > 0 {
                assert(om[j - 1] == vr_model(out@[j - 1]));
                assert(om[j - 1].1 <= fm.1);
            }
            lemma_insert_at(om, fm, j as int);
        }
        out.insert(j, fresh);
        proof {
            assert(vr_models(out@) =~= om.take(j as int) + seq![fm] + om.skip(j as int));
            assert(m.take(i + 1).drop_last() =~= m.take(i as int));
            assert(m.take(i + 1).last() == m[i as int]);
            assert(vr_models(out@) == spec_sort_models(m.take(i + 1)));
            let nm = vr_models(out@);
            assert forall|a: int, b: int| 0 <= a < b < nm.len() implies (#[trigger] nm[a]).1 <= (
            #[trigger] nm[b]).1 by {
                if a < j && b < j {
                    assert(nm[a] == om[a] && nm[b] == om[b]);
                } else if a < j && b == j {
                    assert(nm[a] == om[a] && nm[b] == fm);
                    assert(om[a].1 <= om[j - 1].1);
                } else if a < j && b > j {
                    assert(nm[a] == om[a] && nm[b] == om[b - 1]);
                } else if a == j && b > j {
                    assert(nm[a] == fm && nm[b] == om[b - 1]);
                } else if a > j && b > j {
                    assert(nm[a] == om[a - 1] && nm[b] == om[b - 1]);
                }
            }
        }
        i = i + 1;
    }
    proof {
        assert(m.take(m.len() as int) =~= m);
    }
    out
}

/// The single metadata row of a target: manifest-declared fields, lists
/// joined with commas.
pub open spec fn spec_metadata_rows(p: Project) -> Seq<Seq<ValueModel>> {
    seq![
        seq![
            ValueModel::Text(p.name@),
            ValueModel::Text(p.version@),
            ValueModel::Text(spec_join(byte_models(p.authors@), 44)),
            ValueModel::Text(p.license@),
            ValueModel::Text(p.description@),
            ValueModel::Text(spec_join(byte_models(p.keywords@), 44)),
        ],
    ]
}

/// ProjectMetadata extractor: one row per target.
pub fn extract_metadata(p: &Project) -> (rows: Vec<ExtractedRow>)
    ensures
        rows@.map_values(|r: ExtractedRow| r@) == spec_metadata_rows(*p),
        rows@.len() == 1,
        forall|i: int|
            0 <= i < rows@.len() ==> row_conforms(#[trigger] rows@[i]) && rows@[i].phase
                == ExtractionPhase::ProjectMetadata,
{
    let authors = join_list(&p.authors, 44);
    let keywords = join_list(&p.keywords, 44);
    proof {
        lemma_vec_u8_len(&p.name);
        lemma_vec_u8_len(&p.version);
        lemma_vec_u8_len(&authors);
        lemma_vec_u8_len(&p.license);
        lemma_vec_u8_len(&p.description);
        lemma_vec_u8_len(&keywords);
    }
    let mut fields: Vec<Value> = Vec::new();
    fields.push(Value::Text(clone_bytes(&p.name)));
    fields.push(Value::Text(clone_bytes(&p.version)));
    fields.push(Value::Text(authors));
    fields.push(Value::Text(clone_bytes(&p.license)));
    fields.push(Value::Text(clone_bytes(&p.description)));
    fields.push(Value::Text(keywords));
    let row = ExtractedRow { phase: ExtractionPhase::ProjectMetadata, fields };
    let ghost rm = row@;
    proof {
        assert(rm =~= spec_metadata_rows(*p)[0]);
        assert(fields_conform(rm, spec_schema(ExtractionPhase::ProjectMetadata)));
    }
    let mut rows: Vec<ExtractedRow> = Vec::new();
    rows.push(row);
    proof {
        assert(rows@.map_values(|r: ExtractedRow| r@) =~= spec_metadata_rows(*p));
    }
    rows
}

/// The selector-style name of a dependency kind.
pub open spec fn kind_token(k: DepKind) -> Seq<u8> {
    match k {
        DepKind::Normal => ascii_seq("normal"@),
        DepKind::Dev => ascii_seq("dev"@),
        DepKind::Build => ascii_seq("build"@),
    }
}

/// The name of a dependency kind, as bytes.
pub fn kind_name(k: DepKind) -> (r: Vec<u8>)
    ensures
        r@ == kind_token(k),
{
    proof {
        reveal_strlit("normal");
        reveal_strlit("dev");
        reveal_strlit("build");
    }
    match k {
        DepKind::Normal => ascii_bytes("normal"),
        DepKind::Dev => ascii_bytes("dev"),
        DepKind::Build => ascii_bytes("build"),
    }
}

/// One row per declared dependency edge, resolved or not.
pub open spec fn spec_dep_rows(p: Project) -> Seq<Seq<ValueModel>> {
    Seq::new(
        p.deps@.len(),
        |i: int|
            seq![
                ValueModel::Text(p.name@),
                ValueModel::Text(p.deps@[i].name@),
                ValueModel::Text(p.deps@[i].req@),
                ValueModel::Text(kind_token(p.deps@[i].kind)),
            ],
    )
}

/// DependencyAnalysis extractor: one row per declared dependency edge.
pub fn extract_dependencies(p: &Project) -> (rows: Vec<ExtractedRow>)
    ensures
        rows@.map_values(|r: ExtractedRow| r@) == spec_dep_rows(*p),
        rows@.len() == p.deps@.len(),
        forall|i: int|
            0 <= i < rows@.len() ==> row_conforms(#[trigger] rows@[i]) && rows@[i].phase
                == ExtractionPhase::DependencyAnalysis,
{
    let ghost s = spec_dep_rows(*p);
    let mut rows: Vec<ExtractedRow> = Vec::new();
    let mut i: usize = 0;
    proof {
        assert(rows@.map_values(|r: ExtractedRow| r@) =~= s.take(0));
    }
    while i < p.deps.len()
        invariant
            i <= p.deps@.len(),
            s == spec_dep_rows(*p),
            s.len() == p.deps@.len(),
            rows@.len() == i,
            rows@.map_values(|r: ExtractedRow| r@) == s.take(i as int),
            forall|t: int|
                0 <= t < i ==> row_conforms(#[trigger] rows@[t]) && rows@[t].phase
                    == ExtractionPhase::DependencyAnalysis,
        decreases p.deps@.len() - i,
    {
        let d = &p.deps[i];
        let kn = kind_name(d.kind);
        proof {
            lemma_vec_u8_len(&p.name);
            lemma_vec_u8_len(&d.name);
            lemma_vec_u8_len(&d.req);
            lemma_vec_u8_len(&kn);
        }
        let mut fields: Vec<Value> = Vec::new();
        fields.push(Value::Text(clone_bytes(&p.name)));
        fields.push(Value::Text(clone_bytes(&d.name)));
        fields.push(Value::Text(clone_bytes(&d.req)));
        fields.push(Value::Text(kn));
        let row = ExtractedRow { phase: ExtractionPhase::DependencyAnalysis, fields };
        let ghost rm = row@;
        let ghost pre = rows@.map_values(|r: ExtractedRow| r@);
        proof {
            assert(rm =~= s[i as int]);
            assert(fields_conform(rm, spec_schema(ExtractionPhase::DependencyAnalysis)));
        }
        rows.push(row);
        proof {
            assert(rows@.map_values(|r: ExtractedRow| r@) =~= pre.push(rm));
            assert(s.take(i + 1) =~= s.take(i as int).push(s[i as int]));
        }
        i = i + 1;
    }
    proof {
        assert(s.take(s.len() as int) =~= s);
    }
    rows
}

/// One row per source file: path, size, language, line count.
pub open spec fn spec_source_rows(p: Project, fs: Seq<SourceFileFact>) -> Seq<Seq<ValueModel>> {
    Seq::new(
        fs.len(),
        |i: int|
            seq![
                ValueModel::Text(p.name@),
                ValueModel::Text(fs[i].path@),
                ValueModel::UInt(fs[i].size),
                ValueModel::Text(spec_language(fs[i].path@)),
                ValueModel::UInt(spec_line_count(fs[i].text@) as u64),
            ],
    )
}

/// SourceCodeAnalysis extractor: one row per gathered source file.
pub fn extract_source(p: &Project, files: &Vec<SourceFileFact>) -> (rows: Vec<ExtractedRow>)
    ensures
        rows@.map_values(|r: ExtractedRow| r@) == spec_source_rows(*p, files@),
        rows@.len() == files@.len(),
        forall|i: int|
            0 <= i < rows@.len() ==> row_conforms(#[trigger] rows@[i]) && rows@[i].phase
                == ExtractionPhase::SourceCodeAnalysis,
{
    let ghost s = spec_source_rows(*p, files@);
    let mut rows: Vec<ExtractedRow> = Vec::new();
    let mut i: usize = 0;
    proof {
        assert(rows@.map_values(|r: ExtractedRow| r@) =~= s.take(0));
    }
    while i < files.len()
        invariant
            i <= files@.len(),
            s == spec_source_rows(*p, files@),
            s.len() == files@.len(),
            rows@.len() == i,
            rows@.map_values(|r: ExtractedRow| r@) == s.take(i as int),
            forall|t: int|
                0 <= t < i ==> row_conforms(#[trigger] rows@[t]) && rows@[t].phase
                    == ExtractionPhase::SourceCodeAnalysis,
        decreases files@.len() - i,
    {
        let f = &files[i];
        let lang = language_of(f.path.as_slice());
        let lines = count_lines(f.text.as_slice());
        proof {
            lemma_vec_u8_len(&p.name);
            lemma_vec_u8_len(&f.path);
            lemma_vec_u8_len(&lang);
            assert(lines == spec_line_count(f.text@) as u64);
        }
        let mut fields: Vec<Value> = Vec::new();
        fields.push(Value::Text(clone_bytes(&p.name)));
        fields.push(Value::Text(clone_bytes(&f.path)));
        fields.push(Value::UInt(f.size));
        fields.push(Value::Text(lang));
        fields.push(Value::UInt(lines));
        let row = ExtractedRow { phase: ExtractionPhase::SourceCodeAnalysis, fields };
        let ghost rm = row@;
        let ghost pre = rows@.map_values(|r: ExtractedRow| r@);
        proof {
            assert(rm =~= s[i as int]);
            assert(fields_conform(rm, spec_schema(ExtractionPhase::SourceCodeAnalysis)));
        }
        rows.push(row);
        proof {
            assert(rows@.map_values(|r: ExtractedRow| r@) =~= pre.push(rm));
            assert(s.take(i + 1) =~= s.take(i as int).push(s[i as int]));
        }
        i = i + 1;
    }
    proof {
        assert(s.take(s.len() as int) =~= s);
    }
    rows
}

/// The bytes naming a truth value.
pub open spec fn bool_token(b: bool) -> Seq<u8> {
    if b {
        ascii_seq("true"@)
    } else {
        ascii_seq("false"@)
    }
}

/// One row per configured feature flag.
pub open spec fn spec_feature_rows(p: Project, fs: Seq<Vec<u8>>) -> Seq<Seq<ValueModel>> {
    Seq::new(
        fs.len(),
        |i: int|
            seq![
                ValueModel::Text(p.name@),
                ValueModel::Text(ascii_seq("feature"@)),
                ValueModel::Text(fs[i]@),
            ],
    )
}

/// One row per target platform.
pub open spec fn spec_platform_rows(p: Project, ps: Seq<Vec<u8>>) -> Seq<Seq<ValueModel>> {
    Seq::new(
        ps.len(),
        |i: int|
            seq![
                ValueModel::Text(p.name@),
                ValueModel::Text(ascii_seq("target_platform"@)),
                ValueModel::Text(ps[i]@),
            ],
    )
}

/// One row per build-relevant setting: build-script presence first, then
/// feature flags, then target platforms.
pub open spec fn spec_build_rows(p: Project, b: BuildFacts) -> Seq<Seq<ValueModel>> {
    seq![
        seq![
            ValueModel::Text(p.name@),
            ValueModel::Text(ascii_seq("build_script"@)),
            ValueModel::Text(bool_token(b.has_build_script)),
        ],
    ] + spec_feature_rows(p, b.features@) + spec_platform_rows(p, b.platforms@)
}

/// BuildExtractionPhase extractor: one row per build setting.
pub fn extract_build(p: &Project, b: &BuildFacts) -> (rows: Vec<ExtractedRow>)
    ensures
        rows@.map_values(|r: ExtractedRow| r@) == spec_build_rows(*p, *b),
        forall|i: int|
            0 <= i < rows@.len() ==> row_conforms(#[trigger] rows@[i]) && rows@[i].phase
                == ExtractionPhase::BuildExtractionPhase,
{
    proof {
        reveal_strlit("build_script");
        reveal_strlit("feature");
        reveal_strlit("target_platform");
        reveal_strlit("true");
        reveal_strlit("false");
    }
    let ghost s = spec_build_rows(*p, *b);
    let bs = if b.has_build_script {
        ascii_bytes("true")
    } else {
        ascii_bytes("false")
    };
    let key = ascii_bytes("build_script");
    proof {
        lemma_vec_u8_len(&p.name);
        lemma_vec_u8_len(&bs);
        lemma_vec_u8_len(&key);
    }
    let mut fields: Vec<Value> = Vec::new();
    fields.push(Value::Text(clone_bytes(&p.name)));
    fields.push(Value::Text(key));
    fields.push(Value::Text(bs));
    let hdr = ExtractedRow { phase: ExtractionPhase::BuildExtractionPhase, fields };
    let ghost hm = hdr@;
    proof {
        assert(hm =~= s[0]);
        assert(fields_conform(hm, spec_schema(ExtractionPhase::BuildExtractionPhase)));
    }
    let mut rows: Vec<ExtractedRow> = Vec::new();
    rows.push(hdr);
    let ghost fr = spec_feature_rows(*p, b.features@);
    let ghost pr = spec_platform_rows(*p, b.platforms@);
    proof {
        assert(s =~= seq![hm] + fr + pr);
        assert(s[0] == hm);
        assert(rows@.map_values(|r: ExtractedRow| r@) =~= seq![hm]);
        assert(seq![hm] + fr.take(0) =~= seq![hm]);
    }
    let mut i: usize = 0;
    while i < b.features.len()
        invariant
            i <= b.features@.len(),
            s == spec_build_rows(*p, *b),
            fr == spec_feature_rows(*p, b.features@),
            pr == spec_platform_rows(*p, b.platforms@),
            fr.len() == b.features@.len(),
            s == seq![s[0]] + fr + pr,
            rows@.map_values(|r: ExtractedRow| r@) == seq![s[0]] + fr.take(i as int),
            forall|t: int|
                0 <= t < rows@.len() ==> row_conforms(#[trigger] rows@[t]) && rows@[t].phase
                    == ExtractionPhase::BuildExtractionPhase,
        decreases b.features@.len() - i,
    {
        proof {
            reveal_strlit("feature");
        }
        let fk = ascii_bytes("feature");
        proof {
            lemma_vec_u8_len(&p.name);
            lemma_vec_u8_len(&fk);
            lemma_vec_u8_len(&b.features[i as int]);
        }
        let mut fields: Vec<Value> = Vec::new();
        fields.push(Value::Text(clone_bytes(&p.name)));
        fields.push(Value::Text(fk));
        fields.push(Value::Text(clone_bytes(&b.features[i])));
        let row = ExtractedRow { phase: ExtractionPhase::BuildExtractionPhase, fields };
        let ghost rm = row@;
        let ghost pre = rows@.map_values(|r: ExtractedRow| r@);
        proof {
            assert(rm =~= fr[i as int]);
            assert(fields_conform(rm, spec_schema(ExtractionPhase::BuildExtractionPhase)));
        }
        rows.push(row);
        proof {
            assert(rows@.map_values(|r: ExtractedRow| r@) =~= pre.push(rm));
            assert((seq![s[0]] + fr.take(i as int)).push(rm) =~= seq![s[0]] + fr.take(i + 1));
        }
        i = i + 1;
    }
    proof {
        assert(fr.take(fr.len() as int) =~= fr);
        assert(seq![s[0]] + fr + pr.take(0) =~= seq![s[0]] + fr);
    }
    let mut j: usize = 0;
    while j < b.platforms.len()
        invariant
            j <= b.platforms@.len(),
            s == spec_build_rows(*p, *b),
            fr == spec_feature_rows(*p, b.features@),
            pr == spec_platform_rows(*p, b.platforms@),
            pr.len() == b.platforms@.len(),
            s == seq![s[0]] + fr + pr,
            rows@.map_values(|r: ExtractedRow| r@) == seq![s[0]] + fr + pr.take(j as int),
            forall|t: int|
                0 <= t < rows@.len() ==> row_conforms(#[trigger] rows@[t]) && rows@[t].phase
                    == ExtractionPhase::BuildExtractionPhase,
        decreases b.platforms@.len() - j,
    {
        proof {
            reveal_strlit("target_platform");
        }
        let pk = ascii_bytes("target_platform");
        proof {
            lemma_vec_u8_len(&p.name);
            lemma_vec_u8_len(&pk);
            lemma_vec_u8_len(&b.platforms[j as int]);
        }
        let mut fields: Vec<Value> = Vec::new();
        fields.push(Value::Text(clone_bytes(&p.name)));
        fields.push(Value::Text(pk));
        fields.push(Value::Text(clone_bytes(&b.platforms[j])));
        let row = ExtractedRow { phase: ExtractionPhase::BuildExtractionPhase, fields };
        let ghost rm = row@;
        let ghost pre = rows@.map_values(|r: ExtractedRow| r@);
        proof {
            assert(rm =~= pr[j as int]);
            assert(fields_conform(rm, spec_schema(ExtractionPhase::BuildExtractionPhase)));
        }
        rows.push(row);
        proof {
            assert(rows@.map_values(|r: ExtractedRow| r@) =~= pre.push(rm));
            assert((seq![s[0]] + fr + pr.take(j as int)).push(rm) =~= seq![s[0]] + fr + pr.take(
                j + 1,
            ));
        }
        j = j + 1;
    }
    proof {
        assert(pr.take(pr.len() as int) =~= pr);
        assert(seq![s[0]] + fr + pr =~= s);
    }
    rows
}

/// The single ecosystem row of a target.
pub open spec fn spec_ecosystem_rows(p: Project, e: EcosystemFacts) -> Seq<Seq<ValueModel>> {
    seq![
        seq![
            ValueModel::Text(p.name@),
            ValueModel::UInt(e.downloads),
            ValueModel::UInt(e.reverse_dependencies),
            ValueModel::Text(spec_join(byte_models(e.categories@), 44)),
        ],
    ]
}

/// EcosystemAnalysis extractor: one aggregate row per target.
pub fn extract_ecosystem(p: &Project, e: &EcosystemFacts) -> (rows: Vec<ExtractedRow>)
    ensures
        rows@.map_values(|r: ExtractedRow| r@) == spec_ecosystem_rows(*p, *e),
        rows@.len() == 1,
        forall|i: int|
            0 <= i < rows@.len() ==> row_conforms(#[trigger] rows@[i]) && rows@[i].phase
                == ExtractionPhase::EcosystemAnalysis,
{
    let cats = join_list(&e.categories, 44);
    proof {
        lemma_vec_u8_len(&p.name);
        lemma_vec_u8_len(&cats);
    }
    let mut fields: Vec<Value> = Vec::new();
    fields.push(Value::Text(clone_bytes(&p.name)));
    fields.push(Value::UInt(e.downloads));
    fields.push(Value::UInt(e.reverse_dependencies));
    fields.push(Value::Text(cats));
    let row = ExtractedRow { phase: ExtractionPhase::EcosystemAnalysis, fields };
    let ghost rm = row@;
    proof {
        assert(rm =~= spec_ecosystem_rows(*p, *e)[0]);
        assert(fields_conform(rm, spec_schema(ExtractionPhase::EcosystemAnalysis)));
    }
    let mut rows: Vec<ExtractedRow> = Vec::new();
    rows.push(row);
    proof {
        assert(rows@.map_values(|r: ExtractedRow| r@) =~= spec_ecosystem_rows(*p, *e));
    }
    rows
}

/// One row per published version, ordered oldest to newest.
pub open spec fn spec_version_rows(p: Project, recs: Seq<VersionRecord>) -> Seq<Seq<ValueModel>> {
    let sm = spec_sort_models(vr_models(recs));
    Seq::new(
        sm.len(),
        |i: int|
            seq![
                ValueModel::Text(p.name@),
                ValueModel::Text(sm[i].0),
                ValueModel::UInt(sm[i].1),
                ValueModel::Boolean(sm[i].2),
            ],
    )
}

/// VersionHistory extractor: one row per published version record,
/// ordered oldest to newest.
pub fn extract_versions(p: &Project, recs: &Vec<VersionRecord>) -> (rows: Vec<ExtractedRow>)
    ensures
        rows@.map_values(|r: ExtractedRow| r@) == spec_version_rows(*p, recs@),
        rows@.len() == recs@.len(),
        forall|i: int|
            0 <= i < rows@.len() ==> row_conforms(#[trigger] rows@[i]) && rows@[i].phase
                == ExtractionPhase::VersionHistory,
{
    let ghost s = spec_version_rows(*p, recs@);
    let sorted = sort_versions(recs);
    let ghost sm = spec_sort_models(vr_models(recs@));
    proof {
        assert(vr_models(sorted@) == sm);
        assert(sm.len() == recs@.len()) by {
            lemma_sort_len(vr_models(recs@));
        }
    }
    let mut rows: Vec<ExtractedRow> = Vec::new();
    let mut i: usize = 0;
    proof {
        assert(rows@.map_values(|r: ExtractedRow| r@) =~= s.take(0));
    }
    while i < sorted.len()
        invariant
            i <= sorted@.len(),
            s == spec_version_rows(*p, recs@),
            sm == spec_sort_models(vr_models(recs@)),
            vr_models(sorted@) == sm,
            s.len() == sm.len(),
            sm.len() == sorted@.len(),
            rows@.len() == i,
            rows@.map_values(|r: ExtractedRow| r@) == s.take(i as int),
            forall|t: int|
                0 <= t < i ==> row_conforms(#[trigger] rows@[t]) && rows@[t].phase
                    == ExtractionPhase::VersionHistory,
        decreases sorted@.len() - i,
    {
        let v = &sorted[i];
        proof {
            lemma_vec_u8_len(&p.name);
            lemma_vec_u8_len(&v.version);
            assert(sm[i as int] == vr_model(sorted@[i as int]));
        }
        let mut fields: Vec<Value> = Vec::new();
        fields.push(Value::Text(clone_bytes(&p.name)));
        fields.push(Value::Text(clone_bytes(&v.version)));
        fields.push(Value::UInt(v.timestamp));
        fields.push(Value::Boolean(v.yanked));
        let row = ExtractedRow { phase: ExtractionPhase::VersionHistory, fields };
        let ghost rm = row@;
        let ghost pre = rows@.map_values(|r: ExtractedRow| r@);
        proof {
            assert(rm =~= s[i as int]);
            assert(fields_conform(rm, spec_schema(ExtractionPhase::VersionHistory)));
        }
        rows.push(row);
        proof {
            assert(rows@.map_values(|r: ExtractedRow| r@) =~= pre.push(rm));
            assert(s.take(i + 1) =~= s.take(i as int).push(s[i as int]));
        }
        i = i + 1;
    }
    proof {
        assert(s.take(s.len() as int) =~= s);
    }
    rows
}

proof fn lemma_sort_len(s: Seq<(Seq<u8>, u64, bool)>)
    ensures
        spec_sort_models(s).len() == s.len(),
    decreases s.len(),
{
    if s.len() > 0 {
        lemma_sort_len(s.drop_last());
        lemma_insert_len(spec_sort_models(s.drop_last()), s.last());
    }
}

proof fn lemma_insert_len(s: Seq<(Seq<u8>, u64, bool)>, m: (Seq<u8>, u64, bool))
    ensures
        spec_insert_sorted(s, m).len() == s.len() + 1,
    decreases s.len(),
{
    if s.len() > 0 && !(s.last().1 <= m.1) {
        lemma_insert_len(s.drop_last(), m);
    }
}

/// Whether a phase's facts are present for a target.
pub open spec fn spec_phase_ok(phase: ExtractionPhase, t: TargetFacts) -> bool {
    match phase {
        ExtractionPhase::ProjectMetadata => true,
        ExtractionPhase::DependencyAnalysis => true,
        ExtractionPhase::SourceCodeAnalysis => t.source is Ok,
        ExtractionPhase::BuildExtractionPhase => t.build is Ok,
        ExtractionPhase::EcosystemAnalysis => t.ecosystem is Ok,
        ExtractionPhase::VersionHistory => t.versions is Ok,
    }
}

/// The message a failed fact set carries for a phase.
pub open spec fn spec_phase_err(phase: ExtractionPhase, t: TargetFacts) -> Seq<char> {
    match phase {
        ExtractionPhase::ProjectMetadata => Seq::empty(),
        ExtractionPhase::DependencyAnalysis => Seq::empty(),
        ExtractionPhase::SourceCodeAnalysis => match t.source {
            Ok(_) => Seq::empty(),
            Err(m) => m@,
        },
        ExtractionPhase::BuildExtractionPhase => match t.build {
            Ok(_) => Seq::empty(),
            Err(m) => m@,
        },
        ExtractionPhase::EcosystemAnalysis => match t.ecosystem {
            Ok(_) => Seq::empty(),
            Err(m) => m@,
        },
        ExtractionPhase::VersionHistory => match t.versions {
            Ok(_) => Seq::empty(),
            Err(m) => m@,
        },
    }
}

/// The rows a phase yields for one target, when its facts are present.
pub open spec fn spec_target_rows(phase: ExtractionPhase, t: TargetFacts) -> Seq<Seq<ValueModel>> {
    match phase {
        ExtractionPhase::ProjectMetadata => spec_metadata_rows(t.project),
        ExtractionPhase::DependencyAnalysis => spec_dep_rows(t.project),
        ExtractionPhase::SourceCodeAnalysis => match t.source {
            Ok(fs) => spec_source_rows(t.project, fs@),
            Err(_) => Seq::empty(),
        },
        ExtractionPhase::BuildExtractionPhase => match t.build {
            Ok(b) => spec_build_rows(t.project, b),
            Err(_) => Seq::empty(),
        },
        ExtractionPhase::EcosystemAnalysis => match t.ecosystem {
            Ok(e) => spec_ecosystem_rows(t.project, e),
            Err(_) => Seq::empty(),
        },
        ExtractionPhase::VersionHistory => match t.versions {
            Ok(vs) => spec_version_rows(t.project, vs@),
            Err(_) => Seq::empty(),
        },
    }
}

/// Runs one phase's extractor over one target. Succeeds exactly when the
/// phase's facts are present; a failure carries the gatherer's message and
/// never aborts sibling work.
pub fn extract_phase(phase: ExtractionPhase, t: &TargetFacts) -> (r: Result<
    Vec<ExtractedRow>,
    String,
>)
    ensures
        r is Ok <==> spec_phase_ok(phase, *t),
        match r {
            Ok(rows) => rows@.map_values(|x: ExtractedRow| x@) == spec_target_rows(phase, *t)
                && forall|i: int|
                0 <= i < rows@.len() ==> row_conforms(#[trigger] rows@[i]) && rows@[i].phase
                    == phase,
            Err(m) => m@ == spec_phase_err(phase, *t),
        },
{
    match phase {
        ExtractionPhase::ProjectMetadata => Ok(extract_metadata(&t.project)),
        ExtractionPhase::DependencyAnalysis => Ok(extract_dependencies(&t.project)),
        ExtractionPhase::SourceCodeAnalysis => match &t.source {
            Ok(fs) => Ok(extract_source(&t.project, fs)),
            Err(m) => Err(m.clone()),
        },
        ExtractionPhase::BuildExtractionPhase => match &t.build {
            Ok(b) => Ok(extract_build(&t.project, b)),
            Err(m) => Err(m.clone()),
        },
        ExtractionPhase::EcosystemAnalysis => match &t.ecosystem {
            Ok(e) => Ok(extract_ecosystem(&t.project, e)),
            Err(m) => Err(m.clone()),
        },
        ExtractionPhase::VersionHistory => match &t.versions {
            Ok(vs) => Ok(extract_versions(&t.project, vs)),
            Err(m) => Err(m.clone()),
        },
    }
}

} // verus!
