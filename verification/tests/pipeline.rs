use hf_export::cli::cli;
use hf_export::codec::read_table;
use hf_export::extract::{extract_build, extract_metadata, extract_source, extract_versions};
use hf_export::facts::{BuildFacts, EcosystemFacts, SourceFileFact, TargetFacts, VersionRecord};
use hf_export::orchestrator::run_extraction;
use hf_export::phases::{parse_phases, ExtractionPhase};
use hf_export::project::{DepDecl, DepKind, Project, Registry};
use hf_export::report::{PipelineError, RunStatus};
use hf_export::resolver::resolve;
use hf_export::schema::{check_row, ExtractedRow, Value};
use hf_export::writer::ColumnarWriter;

fn bv(s: &str) -> Vec<u8> {
    s.as_bytes().to_vec()
}

fn project(name: &str, version: &str, deps: Vec<DepDecl>) -> Project {
    Project {
        name: bv(name),
        version: bv(version),
        authors: vec![],
        license: bv("MIT"),
        description: bv(""),
        keywords: vec![],
        deps,
    }
}

fn dep(name: &str, req: &str) -> DepDecl {
    DepDecl { name: bv(name), req: bv(req), kind: DepKind::Normal }
}

fn facts(p: Project) -> TargetFacts {
    TargetFacts {
        project: p,
        source: Ok(vec![]),
        build: Ok(BuildFacts { has_build_script: false, features: vec![], platforms: vec![] }),
        ecosystem: Ok(EcosystemFacts {
            downloads: 0,
            reverse_dependencies: 0,
            categories: vec![],
        }),
        versions: Ok(vec![]),
    }
}

#[test]
fn parse_single_phase() {
    let ps = parse_phases(b"metadata");
    assert_eq!(ps, vec![ExtractionPhase::ProjectMetadata]);
}

#[test]
fn parse_trims_and_drops_unknown_tokens() {
    let ps = parse_phases(b" metadata , bogus,build ");
    assert_eq!(
        ps,
        vec![ExtractionPhase::ProjectMetadata, ExtractionPhase::BuildExtractionPhase]
    );
}

#[test]
fn parse_default_selector_names_all_phases() {
    let ps = parse_phases(b"metadata,dependencies,source_code,build,ecosystem,version_history");
    assert_eq!(
        ps,
        vec![
            ExtractionPhase::ProjectMetadata,
            ExtractionPhase::DependencyAnalysis,
            ExtractionPhase::SourceCodeAnalysis,
            ExtractionPhase::BuildExtractionPhase,
            ExtractionPhase::EcosystemAnalysis,
            ExtractionPhase::VersionHistory,
        ]
    );
}

#[test]
fn parse_all_unknown_is_empty() {
    assert!(parse_phases(b"bogus").is_empty());
    assert!(parse_phases(b"").is_empty());
}

#[test]
fn scenario_metadata_only() {
    let phases = parse_phases(b"metadata");
    let root = facts(project("demo", "0.1.0", vec![]));
    let out = run_extraction(&phases, &vec![root], vec![]).unwrap();
    assert_eq!(out.status, RunStatus::Completed);
    assert_eq!(out.files.len(), 1);
    assert_eq!(out.files[0].name, bv("metadata"));
    let (phase, rows) = read_table(&out.files[0].bytes).unwrap();
    assert_eq!(phase, ExtractionPhase::ProjectMetadata);
    assert_eq!(rows.len(), 1);
    assert_eq!(rows[0].fields[0], Value::Text(bv("demo")));
    assert_eq!(rows[0].fields[1], Value::Text(bv("0.1.0")));
}

#[test]
fn scenario_bogus_phases_is_configuration_error() {
    let phases = parse_phases(b"bogus");
    let root = facts(project("demo", "0.1.0", vec![]));
    let r = run_extraction(&phases, &vec![root], vec![]);
    assert!(matches!(r, Err(PipelineError::ConfigurationError)));
}

#[test]
fn scenario_unresolvable_dependency_still_yields_edge_row() {
    let root_project = project("demo", "0.1.0", vec![dep("foo", "1.0")]);
    let registry = Registry { entries: vec![] };
    let (resolved, failures) = resolve(&root_project, &registry, true);
    assert!(resolved.is_empty());
    assert_eq!(failures.len(), 1);
    assert_eq!(failures[0].name, bv("foo"));

    let phases = parse_phases(b"dependencies");
    let out = run_extraction(&phases, &vec![facts(root_project)], failures).unwrap();
    assert_eq!(out.status, RunStatus::CompletedWithFailures);
    assert_eq!(out.report.resolution_failures.len(), 1);
    assert_eq!(out.files.len(), 1);
    let (phase, rows) = read_table(&out.files[0].bytes).unwrap();
    assert_eq!(phase, ExtractionPhase::DependencyAnalysis);
    assert_eq!(rows.len(), 1);
    assert_eq!(rows[0].fields[1], Value::Text(bv("foo")));
    assert_eq!(rows[0].fields[2], Value::Text(bv("1.0")));
    assert_eq!(rows[0].fields[3], Value::Text(bv("normal")));
}

#[test]
fn resolver_terminates_on_cycles_without_duplicates() {
    let a = project("a", "1.0", vec![dep("b", "1.0")]);
    let b = project("b", "1.0", vec![dep("a", "1.0")]);
    let registry = Registry { entries: vec![a, b] };
    let root = project("demo", "0.1.0", vec![dep("a", "1.0")]);
    let (resolved, failures) = resolve(&root, &registry, true);
    assert!(failures.is_empty());
    assert_eq!(resolved.len(), 2);
    for i in 0..resolved.len() {
        for j in (i + 1)..resolved.len() {
            assert!(
                resolved[i].project.name != resolved[j].project.name
                    || resolved[i].project.version != resolved[j].project.version
            );
        }
    }
}

#[test]
fn resolver_deduplicates_diamond_graphs() {
    let a = project("a", "1.0", vec![dep("c", "1.0")]);
    let b = project("b", "1.0", vec![dep("c", "1.0")]);
    let c = project("c", "1.0", vec![]);
    let registry = Registry { entries: vec![a, b, c] };
    let root = project("demo", "0.1.0", vec![dep("a", "1.0"), dep("b", "1.0")]);
    let (resolved, failures) = resolve(&root, &registry, true);
    assert!(failures.is_empty());
    let c_count = resolved.iter().filter(|r| r.project.name == bv("c")).count();
    assert_eq!(c_count, 1);
    assert_eq!(resolved.len(), 3);
}

#[test]
fn resolver_skips_everything_without_include_deps() {
    let a = project("a", "1.0", vec![]);
    let registry = Registry { entries: vec![a] };
    let root = project("demo", "0.1.0", vec![dep("a", "1.0")]);
    let (resolved, failures) = resolve(&root, &registry, false);
    assert!(resolved.is_empty());
    assert!(failures.is_empty());
}

#[test]
fn written_rows_read_back_exactly() {
    let p = project("demo", "2.3.4", vec![dep("foo", "1.0")]);
    let rows = extract_metadata(&p);
    let mut w = ColumnarWriter::new(ExtractionPhase::ProjectMetadata, 2);
    for row in rows.clone() {
        w.push_row(row).unwrap();
    }
    let bytes = w.finish();
    let (phase, back) = read_table(&bytes).unwrap();
    assert_eq!(phase, ExtractionPhase::ProjectMetadata);
    assert_eq!(back, rows);
}

#[test]
fn writer_refuses_row_of_another_phase() {
    let p = project("demo", "2.3.4", vec![]);
    let rows = extract_metadata(&p);
    let mut w = ColumnarWriter::new(ExtractionPhase::VersionHistory, 2);
    assert!(w.push_row(rows[0].clone()).is_err());
}

#[test]
fn extractor_rows_conform_to_their_schema() {
    let p = project("demo", "2.3.4", vec![dep("foo", "1.0")]);
    for row in extract_metadata(&p) {
        assert!(check_row(&row));
    }
    let files = vec![SourceFileFact { path: bv("src/lib.rs"), size: 10, text: bv("a\nb\n") }];
    for row in extract_source(&p, &files) {
        assert!(check_row(&row));
    }
    let malformed = ExtractedRow {
        phase: ExtractionPhase::ProjectMetadata,
        fields: vec![Value::UInt(1)],
    };
    assert!(!check_row(&malformed));
}

#[test]
fn extraction_is_idempotent() {
    let phases = parse_phases(b"metadata,dependencies,build");
    let root = facts(project("demo", "0.1.0", vec![dep("foo", "1.0")]));
    let root2 = facts(project("demo", "0.1.0", vec![dep("foo", "1.0")]));
    let out1 = run_extraction(&phases, &vec![root], vec![]).unwrap();
    let out2 = run_extraction(&phases, &vec![root2], vec![]).unwrap();
    assert_eq!(out1.files.len(), out2.files.len());
    for (f1, f2) in out1.files.iter().zip(out2.files.iter()) {
        assert_eq!(f1.name, f2.name);
        assert_eq!(f1.bytes, f2.bytes);
    }
}

#[test]
fn duplicate_phase_tokens_yield_one_file() {
    let phases = parse_phases(b"metadata,metadata");
    assert_eq!(phases.len(), 2);
    let root = facts(project("demo", "0.1.0", vec![]));
    let out = run_extraction(&phases, &vec![root], vec![]).unwrap();
    assert_eq!(out.files.len(), 1);
}

#[test]
fn source_rows_detect_language_and_count_lines() {
    let p = project("demo", "0.1.0", vec![]);
    let files = vec![
        SourceFileFact { path: bv("src/main.rs"), size: 4, text: bv("a\nb\n") },
        SourceFileFact { path: bv("README.md"), size: 3, text: bv("hi") },
        SourceFileFact { path: bv("Cargo.toml"), size: 0, text: bv("") },
        SourceFileFact { path: bv("LICENSE"), size: 1, text: bv("x") },
    ];
    let rows = extract_source(&p, &files);
    assert_eq!(rows.len(), 4);
    assert_eq!(rows[0].fields[3], Value::Text(bv("rust")));
    assert_eq!(rows[0].fields[4], Value::UInt(2));
    assert_eq!(rows[1].fields[3], Value::Text(bv("markdown")));
    assert_eq!(rows[1].fields[4], Value::UInt(1));
    assert_eq!(rows[2].fields[3], Value::Text(bv("toml")));
    assert_eq!(rows[2].fields[4], Value::UInt(0));
    assert_eq!(rows[3].fields[3], Value::Text(bv("other")));
}

#[test]
fn version_rows_come_out_oldest_first() {
    let p = project("demo", "0.1.0", vec![]);
    let recs = vec![
        VersionRecord { version: bv("0.3.0"), timestamp: 300, yanked: false },
        VersionRecord { version: bv("0.1.0"), timestamp: 100, yanked: true },
        VersionRecord { version: bv("0.2.0"), timestamp: 200, yanked: false },
    ];
    let rows = extract_versions(&p, &recs);
    assert_eq!(rows.len(), 3);
    assert_eq!(rows[0].fields[1], Value::Text(bv("0.1.0")));
    assert_eq!(rows[0].fields[2], Value::UInt(100));
    assert_eq!(rows[0].fields[3], Value::Boolean(true));
    assert_eq!(rows[1].fields[1], Value::Text(bv("0.2.0")));
    assert_eq!(rows[2].fields[1], Value::Text(bv("0.3.0")));
}

#[test]
fn build_rows_cover_script_and_features() {
    let p = project("demo", "0.1.0", vec![]);
    let b = BuildFacts {
        has_build_script: true,
        features: vec![bv("serde")],
        platforms: vec![bv("x86_64-unknown-linux-gnu")],
    };
    let rows = extract_build(&p, &b);
    assert_eq!(rows.len(), 3);
    assert_eq!(rows[0].fields[1], Value::Text(bv("build_script")));
    assert_eq!(rows[0].fields[2], Value::Text(bv("true")));
    assert_eq!(rows[1].fields[1], Value::Text(bv("feature")));
    assert_eq!(rows[1].fields[2], Value::Text(bv("serde")));
    assert_eq!(rows[2].fields[1], Value::Text(bv("target_platform")));
}

#[test]
fn failed_gatherer_is_recorded_not_fatal() {
    let phases = parse_phases(b"metadata,source_code");
    let mut t = facts(project("demo", "0.1.0", vec![]));
    t.source = Err("permission denied".to_string());
    let out = run_extraction(&phases, &vec![t], vec![]).unwrap();
    assert_eq!(out.status, RunStatus::CompletedWithFailures);
    assert_eq!(out.files.len(), 2);
    let (_, rows) = read_table(&out.files[1].bytes).unwrap();
    assert!(rows.is_empty());
    let failed: Vec<_> = out.report.outcomes.iter().filter(|o| !o.ok).collect();
    assert_eq!(failed.len(), 1);
    assert_eq!(failed[0].message, "permission denied".to_string());
}

#[test]
fn all_phases_failing_is_a_hard_error() {
    let phases = parse_phases(b"source_code,ecosystem");
    let mut t = facts(project("demo", "0.1.0", vec![]));
    t.source = Err("io error".to_string());
    t.ecosystem = Err("network error".to_string());
    let r = run_extraction(&phases, &vec![t], vec![]);
    assert!(matches!(r, Err(PipelineError::NothingExtracted)));
}

#[test]
fn cli_describes_the_command_surface() {
    let c = cli();
    assert_eq!(c.name, "hf-export".to_string());
    assert_eq!(c.args.len(), 4);
    assert_eq!(c.args[0].name, "path".to_string());
    assert!(c.args[0].required);
    assert_eq!(c.args[1].default_value, Some("hf-dataset-output".to_string()));
    assert_eq!(c.args[2].name, "include-deps".to_string());
    assert!(c.args[2].is_flag);
    assert_eq!(
        c.args[3].default_value,
        Some("metadata,dependencies,source_code,build,ecosystem,version_history".to_string())
    );
}

#[test]
fn metadata_joins_authors_and_keywords() {
    let mut p = project("demo", "0.1.0", vec![]);
    p.authors = vec![bv("Ada"), bv("Grace")];
    p.keywords = vec![bv("cli"), bv("data"), bv("export")];
    let rows = extract_metadata(&p);
    assert_eq!(rows[0].fields[2], Value::Text(bv("Ada,Grace")));
    assert_eq!(rows[0].fields[5], Value::Text(bv("cli,data,export")));
}

#[test]
fn ecosystem_row_carries_counts_and_categories() {
    let p = project("demo", "0.1.0", vec![]);
    let e = EcosystemFacts {
        downloads: 12345,
        reverse_dependencies: 7,
        categories: vec![bv("parsing"), bv("encoding")],
    };
    let rows = hf_export::extract::extract_ecosystem(&p, &e);
    assert_eq!(rows.len(), 1);
    assert_eq!(rows[0].fields[1], Value::UInt(12345));
    assert_eq!(rows[0].fields[2], Value::UInt(7));
    assert_eq!(rows[0].fields[3], Value::Text(bv("parsing,encoding")));
}

#[test]
fn transitive_missing_dependency_is_recorded() {
    let a = project("a", "1.0", vec![dep("zlib", "1.2")]);
    let registry = Registry { entries: vec![a] };
    let root = project("demo", "0.1.0", vec![dep("a", "1.0")]);
    let (resolved, failures) = resolve(&root, &registry, true);
    assert_eq!(resolved.len(), 1);
    assert_eq!(failures.len(), 1);
    assert_eq!(failures[0].name, bv("zlib"));
    assert_eq!(resolved[0].depth, 1);
    assert_eq!(resolved[0].path, vec![bv("demo")]);
}
