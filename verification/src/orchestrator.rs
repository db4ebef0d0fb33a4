//! Extraction Orchestrator: validates the phase selection, sequences the
//! requested phases over the root and its resolved dependencies, records
//! per-(phase, target) outcomes without aborting sibling work, and hands
//! each phase's rows to a Columnar Writer.

use vstd::prelude::*;
use crate::bytes::clone_bytes;
use crate::phases::{ExtractionPhase, spec_phase_token, phase_file_name};
use crate::schema::ValueModel;
use crate::codec::spec_encode_table;
use crate::facts::TargetFacts;
use crate::extract::{spec_phase_ok, spec_phase_err, spec_target_rows, extract_phase};
use crate::project::ResolutionFailure;
use crate::report::{RunStatus, PipelineError, OutcomeRecord, OutcomeModel, ExtractionReport};
use crate::writer::ColumnarWriter;

verus! {

/// The requested phases with repeats dropped, first occurrence kept.
pub open spec fn dedup_phases(ps: Seq<ExtractionPhase>) -> Seq<ExtractionPhase>
    decreases ps.len(),
{
    if ps.len() == 0 {
        Seq::empty()
    } else {
        let d = dedup_phases(ps.drop_last());
        if d.contains(ps.last()) {
            d
        } else {
            d.push(ps.last())
        }
    }
}

/// Deduplication keeps exactly the phases that were requested, each once:
/// with a non-empty valid selection, the run makes exactly one output
/// file per requested phase.
pub proof fn lemma_dedup_phases(ps: Seq<ExtractionPhase>)
    ensures
        forall|i: int, j: int|
            0 <= i < j < dedup_phases(ps).len() ==> dedup_phases(ps)[i] != dedup_phases(ps)[j],
        forall|p: ExtractionPhase| #[trigger]
            dedup_phases(ps).contains(p) <==> ps.contains(p),
    decreases ps.len(),
{
    if ps.len() == 0 {
    } else {
        let q = ps.drop_last();
        lemma_dedup_phases(q);
        let d0 = dedup_phases(q);
        let d = dedup_phases(ps);
        assert forall|p: ExtractionPhase| #[trigger] d.contains(p) implies ps.contains(p) by {
            if d0.contains(p) {
                assert(q.contains(p));
                let w = choose|w: int| 0 <= w < q.len() && q[w] == p;
                assert(ps[w] == p);
            } else {
                assert(p == ps.last());
                assert(ps[ps.len() - 1] == p);
            }
        }
        assert forall|p: ExtractionPhase| ps.contains(p) implies #[trigger] d.contains(p) by {
            let w = choose|w: int| 0 <= w < ps.len() && ps[w] == p;
            if w < ps.len() - 1 {
                assert(q[w] == p);
                assert(q.contains(p));
                assert(d0.contains(p));
                if !d0.contains(ps.last()) {
                    let v = choose|v: int| 0 <= v < d0.len() && d0[v] == p;
                    assert(d[v] == p);
                }
            } else {
                if d0.contains(ps.last()) {
                } else {
                    assert(d[d.len() - 1] == p);
                }
            }
        }
    }
}

/// True when the list holds the phase.
fn contains_phase(v: &Vec<ExtractionPhase>, p: ExtractionPhase) -> (b: bool)
    ensures
        b == v@.contains(p),
{
    let mut i: usize = 0;
    while i < v.len()
        invariant
            i <= v@.len(),
            forall|t: int| 0 <= t < i ==> v@[t] != p,
        decreases v@.len() - i,
    {
        if v[i] == p {
            return true;
        }
        i = i + 1;
    }
    proof {
        if v@.contains(p) {
            let w = choose|w: int| 0 <= w < v@.len() && v@[w] == p;
            assert(v@[w] != p);
        }
    }
    false
}

/// Drops repeated phases from the request, keeping first occurrences.
pub fn dedup_phase_list(ps: &Vec<ExtractionPhase>) -> (r: Vec<ExtractionPhase>)
    ensures
        r@ == dedup_phases(ps@),
{
    let mut r: Vec<ExtractionPhase> = Vec::new();
    let mut i: usize = 0;
    proof {
        assert(ps@.take(0) =~= Seq::<ExtractionPhase>::empty());
    }
    while i < ps.len()
        invariant
            i <= ps@.len(),
            r@ == dedup_phases(ps@.take(i as int)),
        decreases ps@.len() - i,
    {
        proof {
            assert(ps@.take(i + 1).drop_last() =~= ps@.take(i as int));
            assert(ps@.take(i + 1).last() == ps@[i as int]);
        }
        if !contains_phase(&r, ps[i]) {
            r.push(ps[i]);
        }
        i = i + 1;
    }
    proof {
        assert(ps@.take(ps@.len() as int) =~= ps@);
    }
    r
}

/// Whether one phase's facts are present for one target.
fn phase_ok(phase: ExtractionPhase, t: &TargetFacts) -> (b: bool)
    ensures
        b == spec_phase_ok(phase, *t),
{
    match phase {
        ExtractionPhase::ProjectMetadata => true,
        ExtractionPhase::DependencyAnalysis => true,
        ExtractionPhase::SourceCodeAnalysis => t.source.is_ok(),
        ExtractionPhase::BuildExtractionPhase => t.build.is_ok(),
        ExtractionPhase::EcosystemAnalysis => t.ecosystem.is_ok(),
        ExtractionPhase::VersionHistory => t.versions.is_ok(),
    }
}

/// The outcome the report records for one (phase, target) pair.
pub open spec fn spec_target_outcome(phase: ExtractionPhase, t: TargetFacts) -> OutcomeModel {
    OutcomeModel {
        phase,
        target: t.project.name@,
        ok: spec_phase_ok(phase, t),
        message: spec_phase_err(phase, t),
    }
}

/// One phase's outcomes over all targets, in target order.
pub open spec fn spec_phase_outcomes(
    phase: ExtractionPhase,
    targets: Seq<TargetFacts>,
) -> Seq<OutcomeModel> {
    Seq::new(targets.len(), |j: int| spec_target_outcome(phase, targets[j]))
}

/// All outcomes of a run: phase by phase, target by target.
pub open spec fn spec_outcomes(
    phases: Seq<ExtractionPhase>,
    targets: Seq<TargetFacts>,
) -> Seq<OutcomeModel>
    decreases phases.len(),
{
    if phases.len() == 0 {
        Seq::empty()
    } else {
        spec_outcomes(phases.drop_last(), targets) + spec_phase_outcomes(phases.last(), targets)
    }
}

/// No (phase, target) pair succeeded.
pub open spec fn spec_none_ok(oms: Seq<OutcomeModel>) -> bool {
    forall|t: int| 0 <= t < oms.len() ==> !(#[trigger] oms[t]).ok
}

/// Every (phase, target) pair succeeded.
pub open spec fn spec_all_ok(oms: Seq<OutcomeModel>) -> bool {
    forall|t: int| 0 <= t < oms.len() ==> (#[trigger] oms[t]).ok
}

/// The rows of one phase's table: each target's rows in target order,
/// failed targets contributing none.
pub open spec fn spec_target_rows_all(
    phase: ExtractionPhase,
    t: TargetFacts,
) -> Seq<Seq<ValueModel>> {
    if spec_phase_ok(phase, t) {
        spec_target_rows(phase, t)
    } else {
        Seq::empty()
    }
}

/// The rows of one phase's table over all targets.
pub open spec fn spec_phase_table_rows(
    phase: ExtractionPhase,
    targets: Seq<TargetFacts>,
) -> Seq<Seq<ValueModel>>
    decreases targets.len(),
{
    if targets.len() == 0 {
        Seq::empty()
    } else {
        spec_phase_table_rows(phase, targets.drop_last()) + spec_target_rows_all(
            phase,
            targets.last(),
        )
    }
}

/// One finished output file: a phase's table, named after the phase.
pub struct PhaseFile {
    pub phase: ExtractionPhase,
    pub name: Vec<u8>,
    pub bytes: Vec<u8>,
}

/// What a finished run hands back.
pub struct RunOutput {
    pub files: Vec<PhaseFile>,
    pub report: ExtractionReport,
    pub status: RunStatus,
}

/// The files of a run are exactly one per deduplicated requested phase,
/// named after the phase, holding the encoded table of all targets' rows.
pub open spec fn files_pinned(
    files: Seq<PhaseFile>,
    d: Seq<ExtractionPhase>,
    targets: Seq<TargetFacts>,
) -> bool {
    &&& files.len() == d.len()
    &&& forall|i: int|
        0 <= i < d.len() ==> {
            &&& (#[trigger] files[i]).phase == d[i]
            &&& files[i].name@ == spec_phase_token(d[i])
            &&& files[i].bytes@ == spec_encode_table(d[i], spec_phase_table_rows(d[i], targets))
        }
}

/// A finished run holds exactly one output file per requested phase:
/// every requested phase has a file with its table, and no two files
/// share a phase.
pub proof fn lemma_one_file_per_phase(
    files: Seq<PhaseFile>,
    phases: Seq<ExtractionPhase>,
    targets: Seq<TargetFacts>,
)
    requires
        files_pinned(files, dedup_phases(phases), targets),
    ensures
        forall|p: ExtractionPhase| #[trigger]
            phases.contains(p) <==> exists|i: int|
                0 <= i < files.len() && (#[trigger] files[i]).phase == p,
        forall|i: int, j: int|
            0 <= i < j < files.len() ==> (#[trigger] files[i]).phase != (
            #[trigger] files[j]).phase,
{
    let d = dedup_phases(phases);
    lemma_dedup_phases(phases);
    assert forall|p: ExtractionPhase| #[trigger] phases.contains(p) implies exists|i: int|
        0 <= i < files.len() && (#[trigger] files[i]).phase == p by {
        assert(d.contains(p));
        let w = choose|w: int| 0 <= w < d.len() && d[w] == p;
        assert(files[w].phase == p);
    }
    assert forall|p: ExtractionPhase|
        exists|i: int| 0 <= i < files.len() && (#[trigger] files[i]).phase == p implies
    #[trigger] phases.contains(p) by {
        let w = choose|i: int| 0 <= i < files.len() && (#[trigger] files[i]).phase == p;
        assert(d[w] == p);
        assert(d.contains(p));
    }
}

/// The output files are a function of the request and the gathered facts
/// alone: two runs over the same inputs yield byte-identical per-phase
/// files.
pub proof fn lemma_run_idempotent(
    phases: Seq<ExtractionPhase>,
    targets: Seq<TargetFacts>,
    out1: RunOutput,
    out2: RunOutput,
)
    requires
        files_pinned(out1.files@, dedup_phases(phases), targets),
        files_pinned(out2.files@, dedup_phases(phases), targets),
    ensures
        out1.files@.len() == out2.files@.len(),
        forall|i: int|
            0 <= i < out1.files@.len() ==> (#[trigger] out1.files@[i]).phase == out2.files@[
                i].phase && out1.files@[i].name@ == out2.files@[i].name@ && out1.files@[i].bytes@
                == out2.files@[i].bytes@,
{
}

/// Runs the requested phases over the targets (root first, then resolved
/// dependencies in resolution order) and writes one table per phase.
///
/// An empty phase selection is a configuration error; a run in which
/// every (phase, target) pair failed yields nothing and is an error too.
/// Otherwise the run completes, with a status telling whether anything
/// failed along the way, and the report carries every outcome and the
/// resolution failures handed in.
pub fn run_extraction(
    phases: &Vec<ExtractionPhase>,
    targets: &Vec<TargetFacts>,
    resolution_failures: Vec<ResolutionFailure>,
) -> (r: Result<RunOutput, PipelineError>)
    ensures
        ({
            let d = dedup_phases(phases@);
            let oms = spec_outcomes(d, targets@);
            &&& (r is Err <==> (phases@.len() == 0 || spec_none_ok(oms)))
            &&& match r {
                Err(e) => if phases@.len() == 0 {
                    e == PipelineError::ConfigurationError
                } else {
                    e == PipelineError::NothingExtracted
                },
                Ok(out) => {
                    &&& files_pinned(out.files@, d, targets@)
                    &&& out.report.resolution_failures@ == resolution_failures@
                    &&& out.report.outcomes@.map_values(|o: OutcomeRecord| o@) == oms
                    &&& (out.status == RunStatus::Completed <==> (spec_all_ok(oms)
                        && resolution_failures@.len() == 0))
                },
            }
        }),
{
    let ghost d = dedup_phases(phases@);
    let ghost oms = spec_outcomes(d, targets@);
    if phases.len() == 0 {
        return Err(PipelineError::ConfigurationError);
    }
    let deduped = dedup_phase_list(phases);

    // Record the outcome of every (phase, target) pair.
    let mut outcomes: Vec<OutcomeRecord> = Vec::new();
    let mut i: usize = 0;
    proof {
        assert(d.take(0) =~= Seq::<ExtractionPhase>::empty());
        assert(outcomes@.map_values(|o: OutcomeRecord| o@) =~= spec_outcomes(d.take(0), targets@));
    }
    while i < deduped.len()
        invariant
            i <= deduped@.len(),
            deduped@ == d,
            d == dedup_phases(phases@),
            outcomes@.map_values(|o: OutcomeRecord| o@) == spec_outcomes(d.take(i as int), targets@),
        decreases deduped@.len() - i,
    {
        let phase = deduped[i];
        let ghost po = spec_phase_outcomes(phase, targets@);
        let mut j: usize = 0;
        proof {
            assert(po.take(0) =~= Seq::<OutcomeModel>::empty());
            assert(outcomes@.map_values(|o: OutcomeRecord| o@) + po.take(0) =~= outcomes@
                .map_values(|o: OutcomeRecord| o@));
        }
        let ghost base = outcomes@.map_values(|o: OutcomeRecord| o@);
        while j < targets.len()
            invariant
                j <= targets@.len(),
                phase == d[i as int],
                0 <= i < d.len(),
                po == spec_phase_outcomes(phase, targets@),
                po.len() == targets@.len(),
                base == spec_outcomes(d.take(i as int), targets@),
                outcomes@.map_values(|o: OutcomeRecord| o@) == base + po.take(j as int),
            decreases targets@.len() - j,
        {
            let t = &targets[j];
            let ok = phase_ok(phase, t);
            let message: String = match phase {
                ExtractionPhase::ProjectMetadata => String::new(),
                ExtractionPhase::DependencyAnalysis => String::new(),
                ExtractionPhase::SourceCodeAnalysis => match &t.source {
                    Ok(_) => String::new(),
                    Err(m) => m.clone(),
                },
                ExtractionPhase::BuildExtractionPhase => match &t.build {
                    Ok(_) => String::new(),
                    Err(m) => m.clone(),
                },
                ExtractionPhase::EcosystemAnalysis => match &t.ecosystem {
                    Ok(_) => String::new(),
                    Err(m) => m.clone(),
                },
                ExtractionPhase::VersionHistory => match &t.versions {
                    Ok(_) => String::new(),
                    Err(m) => m.clone(),
                },
            };
            let rec = OutcomeRecord { phase, target: clone_bytes(&t.project.name), ok, message };
            let ghost pre = outcomes@.map_values(|o: OutcomeRecord| o@);
            proof {
                assert(rec@ == spec_target_outcome(phase, targets@[j as int]));
                assert(po.take(j + 1) =~= po.take(j as int).push(po[j as int]));
            }
            outcomes.push(rec);
            proof {
                assert(outcomes@.map_values(|o: OutcomeRecord| o@) =~= pre.push(rec@));
                assert(outcomes@.map_values(|o: OutcomeRecord| o@) =~= base + po.take(j + 1));
            }
            j = j + 1;
        }
        proof {
            assert(po.take(po.len() as int) =~= po);
            assert(d.take(i + 1).drop_last() =~= d.take(i as int));
            assert(d.take(i + 1).last() == d[i as int]);
        }
        i = i + 1;
    }
    proof {
        assert(d.take(d.len() as int) =~= d);
        assert(outcomes@.map_values(|o: OutcomeRecord| o@) == oms);
    }

    // A run in which nothing succeeded yields nothing: a hard error.
    let mut any_ok: bool = false;
    let mut k: usize = 0;
    while k < outcomes.len()
        invariant
            k <= outcomes@.len(),
            outcomes@.map_values(|o: OutcomeRecord| o@) == oms,
            oms.len() == outcomes@.len(),
            any_ok <==> exists|t: int| 0 <= t < k && (#[trigger] oms[t]).ok,
        decreases outcomes@.len() - k,
    {
        if outcomes[k].ok {
            proof {
                assert(oms[k as int].ok);
            }
            any_ok = true;
        }
        k = k + 1;
    }
    if !any_ok {
        proof {
            assert(spec_none_ok(oms)) by {
                assert forall|t: int| 0 <= t < oms.len() implies !(#[trigger] oms[t]).ok by {
                    if oms[t].ok {
                        assert(exists|w: int| 0 <= w < oms.len() && (#[trigger] oms[w]).ok);
                    }
                }
            }
        }
        return Err(PipelineError::NothingExtracted);
    }
    proof {
        let w = choose|t: int| 0 <= t < oms.len() && (#[trigger] oms[t]).ok;
        assert(!spec_none_ok(oms));
    }

    // Write one table per phase: each target's rows, root first.
    let mut files: Vec<PhaseFile> = Vec::new();
    let mut i2: usize = 0;
    while i2 < deduped.len()
        invariant
            i2 <= deduped@.len(),
            deduped@ == d,
            d == dedup_phases(phases@),
            files@.len() == i2,
            forall|t: int|
                0 <= t < i2 ==> {
                    &&& (#[trigger] files@[t]).phase == d[t]
                    &&& files@[t].name@ == spec_phase_token(d[t])
                    &&& files@[t].bytes@ == spec_encode_table(
                        d[t],
                        spec_phase_table_rows(d[t], targets@),
                    )
                },
        decreases deduped@.len() - i2,
    {
        let phase = deduped[i2];
        let mut w = ColumnarWriter::new(phase, 64);
        let mut j2: usize = 0;
        proof {
            assert(spec_phase_table_rows(phase, targets@.take(0)) =~= Seq::<
                Seq<ValueModel>,
            >::empty());
        }
        while j2 < targets.len()
            invariant
                j2 <= targets@.len(),
                phase == d[i2 as int],
                0 <= i2 < d.len(),
                w.wf(),
                w.phase == phase,
                w.batch_limit == 64,
                w.accepted() == spec_phase_table_rows(phase, targets@.take(j2 as int)),
            decreases targets@.len() - j2,
        {
            let ghost tbase = w.accepted();
            match extract_phase(phase, &targets[j2]) {
                Ok(rows) => {
                    let mut rows = rows;
                    let ghost orig = rows@.map_values(|x: crate::schema::ExtractedRow| x@);
                    proof {
                        assert(orig.take(0) =~= Seq::<Seq<ValueModel>>::empty());
                        assert(tbase + orig.take(0) =~= tbase);
                        assert(rows@.map_values(|x: crate::schema::ExtractedRow| x@) =~= orig.skip(
                            0,
                        ));
                    }
                    while rows.len() > 0
                        invariant
                            w.wf(),
                            w.phase == phase,
                            w.batch_limit == 64,
                            rows@.len() <= orig.len(),
                            rows@.map_values(|x: crate::schema::ExtractedRow| x@) == orig.skip(
                                orig.len() - rows@.len(),
                            ),
                            w.accepted() == tbase + orig.take(orig.len() - rows@.len()),
                            forall|t: int|
                                0 <= t < rows@.len() ==> crate::schema::row_conforms(
                                    #[trigger] rows@[t],
                                ) && rows@[t].phase == phase,
                        decreases rows@.len(),
                    {
                        let ghost done = orig.len() - rows@.len();
                        let ghost rm = rows@[0]@;
                        proof {
                            assert(rows@.map_values(|x: crate::schema::ExtractedRow| x@)[0] == rm);
                            assert(orig.skip(done)[0] == orig[done]);
                            assert(orig.take(done + 1) =~= orig.take(done).push(orig[done]));
                        }
                        let ghost prerows = rows@;
                        let row = rows.remove(0);
                        proof {
                            assert(rows@ =~= prerows.subrange(1, prerows.len() as int));
                            let nm = rows@.map_values(|x: crate::schema::ExtractedRow| x@);
                            let pm = prerows.map_values(|x: crate::schema::ExtractedRow| x@);
                            assert forall|t: int| 0 <= t < nm.len() implies nm[t] == orig.skip(
                                done + 1,
                            )[t] by {
                                assert(rows@[t] == prerows[t + 1]);
                                assert(nm[t] == rows@[t]@);
                                assert(pm[t + 1] == prerows[t + 1]@);
                                assert(pm[t + 1] == orig.skip(done)[t + 1]);
                                assert(orig.skip(done)[t + 1] == orig[done + 1 + t]);
                                assert(orig.skip(done + 1)[t] == orig[done + 1 + t]);
                            }
                            assert(nm =~= orig.skip(done + 1));
                        }
                        match w.push_row(row) {
                            Ok(_) => {},
                            Err(_) => {
                                proof {
                                    assert(false);
                                }
                            },
                        }
                        proof {
                            assert(w.accepted() =~= tbase + orig.take(done + 1));
                        }
                    }
                    proof {
                        assert(orig.take(orig.len() as int) =~= orig);
                        assert(spec_target_rows_all(phase, targets@[j2 as int]) == orig);
                        assert(targets@.take(j2 + 1).drop_last() =~= targets@.take(j2 as int));
                        assert(targets@.take(j2 + 1).last() == targets@[j2 as int]);
                    }
                },
                Err(_) => {
                    proof {
                        assert(spec_target_rows_all(phase, targets@[j2 as int]) =~= Seq::<
                            Seq<ValueModel>,
                        >::empty());
                        assert(tbase + spec_target_rows_all(phase, targets@[j2 as int]) =~= tbase);
                        assert(targets@.take(j2 + 1).drop_last() =~= targets@.take(j2 as int));
                        assert(targets@.take(j2 + 1).last() == targets@[j2 as int]);
                    }
                },
            }
            j2 = j2 + 1;
        }
        proof {
            assert(targets@.take(targets@.len() as int) =~= targets@);
        }
        let name = phase_file_name(phase);
        let bytes = w.finish();
        files.push(PhaseFile { phase, name, bytes });
        i2 = i2 + 1;
    }

    // Terminal status: Completed only when nothing failed anywhere.
    let mut all_ok: bool = true;
    let mut k2: usize = 0;
    while k2 < outcomes.len()
        invariant
            k2 <= outcomes@.len(),
            outcomes@.map_values(|o: OutcomeRecord| o@) == oms,
            oms.len() == outcomes@.len(),
            all_ok <==> forall|t: int| 0 <= t < k2 ==> (#[trigger] oms[t]).ok,
        decreases outcomes@.len() - k2,
    {
        if !outcomes[k2].ok {
            proof {
                assert(!oms[k2 as int].ok);
            }
            all_ok = false;
        }
        k2 = k2 + 1;
    }
    let status = if all_ok && resolution_failures.len() == 0 {
        RunStatus::Completed
    } else {
        RunStatus::CompletedWithFailures
    };
    let report = ExtractionReport { resolution_failures, outcomes };
    Ok(RunOutput { files, report, status })
}

} // verus!
