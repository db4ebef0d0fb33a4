//! Columnar Writer: buffers rows for one phase's table and flushes them
//! in bounded batches into the table's byte encoding, enforcing schema
//! conformance on every row it accepts.

use vstd::prelude::*;
use crate::phases::ExtractionPhase;
use crate::schema::{ValueModel, ExtractedRow, row_conforms, spec_schema, fields_conform,
    check_row};
use crate::codec::{spec_encode_table, lemma_encode_bodies_push, push_row_fields};

verus! {

/// A row that does not match its table's schema; a fatal,
/// programming-error-class failure, never a silent skip.
#[derive(Clone, Copy, PartialEq, Eq, Structural, Debug)]
pub enum WriteError {
    SchemaViolation,
}

/// Buffers rows for one phase's table; flushes in bounded batches.
pub struct ColumnarWriter {
    pub phase: ExtractionPhase,
    pub batch_limit: usize,
    pub buffer: Vec<ExtractedRow>,
    pub out: Vec<u8>,
    pub flushed: Ghost<Seq<Seq<ValueModel>>>,
}

impl ColumnarWriter {
    /// All rows this writer has accepted, flushed or still buffered.
    pub open spec fn accepted(self) -> Seq<Seq<ValueModel>> {
        self.flushed@ + self.buffer@.map_values(|r: ExtractedRow| r@)
    }

    /// The writer's books are straight: the output bytes encode what was
    /// flushed, and every accepted row conforms to the phase's schema.
    pub open spec fn coherent(self) -> bool {
        &&& self.batch_limit >= 1
        &&& self.out@ == spec_encode_table(self.phase, self.flushed@)
        &&& forall|i: int|
            0 <= i < self.buffer@.len() ==> row_conforms(#[trigger] self.buffer@[i])
                && self.buffer@[i].phase == self.phase
        &&& forall|i: int|
            0 <= i < self.flushed@.len() ==> fields_conform(
                #[trigger] self.flushed@[i],
                spec_schema(self.phase),
            )
    }

    /// The writer's invariant: coherent, with room left in the batch.
    pub open spec fn wf(self) -> bool {
        self.coherent() && self.buffer@.len() < self.batch_limit
    }

    /// Opens a writer for one phase's table.
    pub fn new(phase: ExtractionPhase, batch_limit: usize) -> (w: ColumnarWriter)
        requires
            batch_limit >= 1,
        ensures
            w.wf(),
            w.phase == phase,
            w.batch_limit == batch_limit,
            w.accepted() == Seq::<Seq<ValueModel>>::empty(),
    {
        let tag: u8 = match phase {
            ExtractionPhase::ProjectMetadata => 1,
            ExtractionPhase::DependencyAnalysis => 2,
            ExtractionPhase::SourceCodeAnalysis => 3,
            ExtractionPhase::BuildExtractionPhase => 4,
            ExtractionPhase::EcosystemAnalysis => 5,
            ExtractionPhase::VersionHistory => 6,
        };
        let mut out: Vec<u8> = Vec::new();
        out.push(tag);
        let w = ColumnarWriter {
            phase,
            batch_limit,
            buffer: Vec::new(),
            out,
            flushed: Ghost(Seq::empty()),
        };
        proof {
            assert(w.out@ =~= spec_encode_table(phase, Seq::<Seq<ValueModel>>::empty()));
            assert(w.accepted() =~= Seq::<Seq<ValueModel>>::empty());
        }
        w
    }

    /// Flushes the buffered batch into the output bytes.
    pub fn flush(&mut self)
        requires
            old(self).coherent(),
        ensures
            final(self).wf(),
            final(self).phase == old(self).phase,
            final(self).batch_limit == old(self).batch_limit,
            final(self).accepted() == old(self).accepted(),
            final(self).buffer@.len() == 0,
    {
        let ghost bm = self.buffer@.map_values(|r: ExtractedRow| r@);
        let mut i: usize = 0;
        proof {
            assert(self.flushed@ + bm.take(0) =~= self.flushed@);
        }
        while i < self.buffer.len()
            invariant
                i <= self.buffer@.len(),
                self.phase == old(self).phase,
                self.batch_limit == old(self).batch_limit,
                self.flushed@ == old(self).flushed@,
                self.buffer@ == old(self).buffer@,
                self.batch_limit >= 1,
                bm == self.buffer@.map_values(|r: ExtractedRow| r@),
                bm.len() == self.buffer@.len(),
                self.out@ == spec_encode_table(self.phase, self.flushed@ + bm.take(i as int)),
                forall|t: int|
                    0 <= t < self.buffer@.len() ==> row_conforms(#[trigger] self.buffer@[t])
                        && self.buffer@[t].phase == self.phase,
                forall|t: int|
                    0 <= t < self.flushed@.len() ==> fields_conform(
                        #[trigger] self.flushed@[t],
                        spec_schema(self.phase),
                    ),
            decreases self.buffer@.len() - i,
        {
            let ghost pre = self.flushed@ + bm.take(i as int);
            proof {
                lemma_encode_bodies_push(pre, bm[i as int]);
                assert(pre.push(bm[i as int]) =~= self.flushed@ + bm.take(i + 1));
                assert(bm[i as int] == self.buffer@[i as int]@);
            }
            push_row_fields(&mut self.out, &self.buffer[i]);
            proof {
                assert(self.out@ =~= spec_encode_table(
                    self.phase,
                    self.flushed@ + bm.take(i + 1),
                ));
            }
            i = i + 1;
        }
        proof {
            assert(bm.take(bm.len() as int) =~= bm);
            let all = self.flushed@ + bm;
            assert forall|t: int| 0 <= t < all.len() implies fields_conform(
                #[trigger] all[t],
                spec_schema(self.phase),
            ) by {
                if t >= self.flushed@.len() {
                    assert(all[t] == self.buffer@[t - self.flushed@.len()]@);
                }
            }
        }
        proof {
            self.flushed@ = self.flushed@ + bm;
        }
        self.buffer.clear();
        proof {
            assert(self.accepted() =~= self.flushed@);
            assert(old(self).accepted() =~= self.flushed@);
        }
    }

    /// Accepts one row for this table; a row of another phase or one that
    /// breaks the schema is refused as a schema violation.
    pub fn push_row(&mut self, row: ExtractedRow) -> (r: Result<(), WriteError>)
        requires
            old(self).wf(),
        ensures
            final(self).wf(),
            final(self).phase == old(self).phase,
            final(self).batch_limit == old(self).batch_limit,
            match r {
                Ok(_) => row_conforms(row) && row.phase == old(self).phase
                    && final(self).accepted() == old(self).accepted().push(row@),
                Err(_) => !(row_conforms(row) && row.phase == old(self).phase)
                    && final(self).accepted() == old(self).accepted(),
            },
    {
        let same_phase = row.phase == self.phase;
        if !(same_phase && check_row(&row)) {
            return Err(WriteError::SchemaViolation);
        }
        let ghost rm = row@;
        let ghost pre = self.accepted();
        self.buffer.push(row);
        proof {
            assert(self.buffer@.map_values(|r: ExtractedRow| r@) =~= old(self).buffer@.map_values(
                |r: ExtractedRow| r@,
            ).push(rm));
            assert(self.accepted() =~= pre.push(rm));
        }
        if self.buffer.len() >= self.batch_limit {
            self.flush();
        }
        Ok(())
    }

    /// Closes the table: flushes the last batch and hands back the bytes.
    pub fn finish(self) -> (out: Vec<u8>)
        requires
            self.wf(),
        ensures
            out@ == spec_encode_table(self.phase, self.accepted()),
    {
        let mut w = self;
        w.flush();
        proof {
            assert(w.accepted() =~= w.flushed@);
        }
        w.out
    }
}

} // verus!
