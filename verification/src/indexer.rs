//! The indexing façade: one call per compilation unit, driving the fixed
//! pipeline — emit file nodes, load the analysis artifacts, index each
//! record, flush.

use vstd::prelude::*;
use crate::analyzers::{
    crate_entries, distinct_paths, file_entries, files_lens, record_valid, unit_meta,
    CompilationUnit, CompilationUnitV, UnitAnalyzer, UnitMeta,
};
use crate::entries::EntryV;
use crate::errors::KytheError;
use crate::provider::SourceRoot;
use crate::save_analysis::{load_analysis, loaded_records, loader_failures, RecordV};
use crate::writer::KytheWriter;

verus! {

/// The entries of the records that pass validation, in order; an invalid
/// record contributes nothing.
pub open spec fn indexed_entries(m: UnitMeta, lens: Map<Seq<char>, int>, recs: Seq<RecordV>) -> Seq<
    EntryV,
>
    decreases recs.len(),
{
    if recs.len() == 0 {
        Seq::empty()
    } else {
        indexed_entries(m, lens, recs.drop_last()) + (if record_valid(recs.last(), lens) {
            crate_entries(m, recs.last())
        } else {
            Seq::empty()
        })
    }
}

/// The names of the records that fail validation, in order.
pub open spec fn invalid_names(lens: Map<Seq<char>, int>, recs: Seq<RecordV>) -> Seq<Seq<char>>
    decreases recs.len(),
{
    if recs.len() == 0 {
        Seq::empty()
    } else {
        let rest = invalid_names(lens, recs.drop_last());
        if record_valid(recs.last(), lens) {
            rest
        } else {
            rest.push(recs.last().name)
        }
    }
}

/// The file-length map the unit establishes while emitting file nodes.
pub open spec fn unit_lens(u: CompilationUnitV, files: Map<Seq<char>, Seq<u8>>) -> Map<
    Seq<char>,
    int,
> {
    files_lens(files, distinct_paths(u.source_files))
}

/// Everything a successful run over one compilation unit emits: the file
/// nodes of its distinct source files, then the entries of every valid
/// record decoded from the artifacts.  A pure function of the unit, the
/// readable files and the artifacts.
pub open spec fn unit_entries(
    u: CompilationUnitV,
    files: Map<Seq<char>, Seq<u8>>,
    arts: Seq<(Seq<char>, Seq<u8>)>,
) -> Seq<EntryV> {
    file_entries(unit_meta(u), files, distinct_paths(u.source_files)) + indexed_entries(
        unit_meta(u),
        unit_lens(u, files),
        loaded_records(arts),
    )
}

/// A data structure for indexing compilation units.
pub struct KytheIndexer<W: KytheWriter> {
    pub writer: W,
}

impl<W: KytheWriter> KytheIndexer<W> {
    /// Create a new instance of the KytheIndexer
    pub fn new(writer: W) -> (r: KytheIndexer<W>)
        ensures
            r.writer == writer,
    {
        KytheIndexer { writer }
    }

    /// Accepts a CompilationUnit and the source root and indexes the
    /// CompilationUnit: file nodes first, then each decoded analysis
    /// record, then one flush covering everything emitted.
    ///
    /// On success the accepted diagnostics list holds one entry per
    /// artifact that did not decode and one per record that failed
    /// validation; neither prevents the rest of the unit.  An unreadable
    /// source file or a sink failure is fatal, and then no flush happens.
    pub fn index_cu<R: SourceRoot>(&mut self, unit: &CompilationUnit, root_dir: &R) -> (res: Result<
        Vec<KytheError>,
        KytheError,
    >)
        ensures
            res is Ok ==> final(self).writer.entries() == old(self).writer.entries()
                + unit_entries(unit@, root_dir.files(), root_dir.artifacts())
                && final(self).writer.flushes() == old(self).writer.flushes().push(
                final(self).writer.entries().len() as int,
            ),
            res matches Ok(diags) ==> ({
                let lf = loader_failures(root_dir.artifacts());
                let inv = invalid_names(
                    unit_lens(unit@, root_dir.files()),
                    loaded_records(root_dir.artifacts()),
                );
                diags@.len() == lf.len() + inv.len() && (forall|i: int|
                    0 <= i < lf.len() ==> ((#[trigger] diags@[i]) matches
                        KytheError::AnalysisDeserializationFailed(nm) && nm@ == lf[i])) && (
                forall|i: int|
                    lf.len() <= i < diags@.len() ==> ((#[trigger] diags@[i]) matches
                        KytheError::InvalidAnalysisRecord(nm) && nm@ == inv[i - lf.len()]))
            }),
            res is Err ==> final(self).writer.flushes() == old(self).writer.flushes(),
            res matches Err(e) ==> (e is FileReadError || e is WriteError),
            res matches Err(KytheError::FileReadError(p)) ==> unit@.source_files.contains(p@)
                && !root_dir.files().contains_key(p@),
            (forall|i: int|
                0 <= i < unit@.source_files.len() ==> root_dir.files().contains_key(
                    #[trigger] unit@.source_files[i],
                )) ==> !(res matches Err(KytheError::FileReadError(p))),
    {
        let ghost w0 = self.writer.entries();
        let ghost f0 = self.writer.flushes();
        let ghost m = unit_meta(unit@);
        let ghost files = root_dir.files();
        let ghost arts = root_dir.artifacts();
        let mut generator = UnitAnalyzer::new(unit);

        // First, create file nodes for all of the source files in the
        // CompilationUnit.
        match generator.emit_file_nodes(root_dir, &mut self.writer) {
            Ok(_) => {},
            Err(e) => {
                return Err(e);
            },
        }
        let ghost w1 = self.writer.entries();

        // Then, index all of the crates from the analysis artifacts.
        let (records, mut diags) = load_analysis(root_dir);
        let ghost recsv = loaded_records(arts);
        let ghost lf_len = diags@.len();
        let n = records.len();
        let mut k: usize = 0;
        proof {
            assert(recsv.take(0) =~= Seq::<RecordV>::empty());
            assert(w1 + indexed_entries(m, generator.lens(), recsv.take(0)) =~= w1);
        }
        while k < n
            invariant
                k <= n,
                n == records@.len(),
                w0 == old(self).writer.entries(),
                f0 == old(self).writer.flushes(),
                m == generator.meta(),
                generator.lens() == unit_lens(unit@, files),
                records@.map_values(|x: crate::save_analysis::AnalysisRecord| x@) == recsv,
                w1 == w0 + file_entries(m, files, distinct_paths(unit@.source_files)),
                self.writer.entries() == w1 + indexed_entries(
                    m,
                    generator.lens(),
                    recsv.take(k as int),
                ),
                self.writer.flushes() == f0,
                diags@.len() == lf_len + invalid_names(
                    generator.lens(),
                    recsv.take(k as int),
                ).len(),
                forall|i: int|
                    0 <= i < lf_len ==> ((#[trigger] diags@[i]) matches
                        KytheError::AnalysisDeserializationFailed(nm) && nm@ == loader_failures(
                        arts,
                    )[i]),
                forall|i: int|
                    lf_len <= i < diags@.len() ==> ((#[trigger] diags@[i]) matches
                        KytheError::InvalidAnalysisRecord(nm) && nm@ == invalid_names(
                        generator.lens(),
                        recsv.take(k as int),
                    )[i - lf_len]),
            decreases n - k,
        {
            proof {
                assert(recsv.take(k + 1).drop_last() =~= recsv.take(k as int));
                assert(recsv.take(k + 1).last() == recsv[k as int]);
                assert(records@[k as int]@ == recsv[k as int]);
            }
            match generator.index_crate(&records[k], &mut self.writer) {
                Ok(_) => {},
                Err(e) => {
                    match e {
                        KytheError::InvalidAnalysisRecord(nm) => {
                            diags.push(KytheError::InvalidAnalysisRecord(nm));
                        },
                        other => {
                            return Err(other);
                        },
                    }
                },
            }
            k = k + 1;
        }
        proof {
            assert(recsv.take(n as int) =~= recsv);
        }

        // We must flush the writer each time to ensure that all entries get
        // written.
        match self.writer.flush() {
            Ok(_) => {},
            Err(e) => {
                return Err(e);
            },
        }
        Ok(diags)
    }
}

} // verus!
