//! The laws the pipeline obeys, stated over the same spec functions that
//! the executable functions' contracts use.

use vstd::prelude::*;
use crate::analyzers::{
    anchor_entries, anchor_vname, crate_entries, distinct_paths, entities_entries, entity_entries,
    entity_valid, file_entries, file_kind_value, file_node_entries, file_vname, files_lens,
    lemma_find_entity_absent, record_valid, ref_entries, refs_entries, span_valid, unit_meta,
    unresolved_vname, CompilationUnitV, UnitMeta,
};
use crate::entries::EntryV;
use crate::indexer::{indexed_entries, unit_entries, unit_lens};
use crate::save_analysis::{EntityV, RecordV, ReferenceV};

verus! {

/// Determinism: what a run emits is a pure function of the compilation
/// unit, the readable files and the artifacts.  `index_cu` promises its
/// writer receives exactly `unit_entries(..)`, so two runs over equal
/// inputs append equal entry sequences — byte-identical identities, and in
/// particular an identical multiset of edges.
pub proof fn lemma_determinism(
    u1: CompilationUnitV,
    u2: CompilationUnitV,
    files1: Map<Seq<char>, Seq<u8>>,
    files2: Map<Seq<char>, Seq<u8>>,
    arts1: Seq<(Seq<char>, Seq<u8>)>,
    arts2: Seq<(Seq<char>, Seq<u8>)>,
)
    requires
        u1 == u2,
        files1 == files2,
        arts1 == arts2,
    ensures
        unit_entries(u1, files1, arts1) == unit_entries(u2, files2, arts2),
        unit_entries(u1, files1, arts1).to_multiset() == unit_entries(
            u2,
            files2,
            arts2,
        ).to_multiset(),
{
}

/// Whether an entry refers to the file at path `p`: an anchor fact sitting
/// in it, or an edge with an endpoint in it.  A file's own node facts have
/// an empty signature and do not count as referring to themselves.
pub open spec fn entry_references_file(e: EntryV, p: Seq<char>) -> bool {
    p.len() > 0 && match e {
        EntryV::Fact { node, name, value } => node.path == p && node.signature.len() > 0,
        EntryV::Edge { source, label, target, ordinal } => source.path == p || target.path == p,
    }
}

/// Whether an entry is the node-kind fact of the file at path `p` — the
/// first entry of that file's node.
pub open spec fn is_file_node_fact(e: EntryV, m: UnitMeta, p: Seq<char>) -> bool {
    e matches EntryV::Fact { node, name, value } && node == file_vname(m, p) && name
        == "/kythe/node/kind"@ && value == file_kind_value()
}

proof fn lemma_file_entries_no_refs(
    m: UnitMeta,
    files: Map<Seq<char>, Seq<u8>>,
    paths: Seq<Seq<char>>,
    idx: int,
    p: Seq<char>,
)
    requires
        0 <= idx < file_entries(m, files, paths).len(),
    ensures
        !entry_references_file(file_entries(m, files, paths)[idx], p),
    decreases paths.len(),
{
    if paths.len() > 0 {
        let prefix = file_entries(m, files, paths.drop_last());
        if idx < prefix.len() {
            lemma_file_entries_no_refs(m, files, paths.drop_last(), idx, p);
        }
    }
}

proof fn lemma_file_entries_covers(
    m: UnitMeta,
    files: Map<Seq<char>, Seq<u8>>,
    paths: Seq<Seq<char>>,
    p: Seq<char>,
)
    requires
        paths.contains(p),
    ensures
        exists|i: int|
            0 <= i < file_entries(m, files, paths).len() && is_file_node_fact(
                #[trigger] file_entries(m, files, paths)[i],
                m,
                p,
            ),
    decreases paths.len(),
{
    let fe = file_entries(m, files, paths);
    let prefix = file_entries(m, files, paths.drop_last());
    if paths.last() == p {
        assert(fe[prefix.len() as int] == file_node_entries(m, p, files[p])[0]);
        assert(is_file_node_fact(fe[prefix.len() as int], m, p));
    } else {
        let wi = choose|wi: int| 0 <= wi < paths.len() && paths[wi] == p;
        assert(paths.drop_last()[wi] == p);
        assert(paths.drop_last().contains(p));
        lemma_file_entries_covers(m, files, paths.drop_last(), p);
        let i = choose|i: int|
            0 <= i < prefix.len() && is_file_node_fact(#[trigger] prefix[i], m, p);
        assert(fe[i] == prefix[i]);
        assert(is_file_node_fact(fe[i], m, p));
    }
}

proof fn lemma_files_lens_keys(files: Map<Seq<char>, Seq<u8>>, paths: Seq<Seq<char>>, p: Seq<char>)
    requires
        files_lens(files, paths).contains_key(p),
    ensures
        paths.contains(p),
    decreases paths.len(),
{
    if paths.len() > 0 {
        if paths.last() == p {
            assert(paths[paths.len() - 1] == p);
        } else {
            lemma_files_lens_keys(files, paths.drop_last(), p);
            let wi = choose|wi: int| 0 <= wi < paths.drop_last().len() && paths.drop_last()[wi] == p;
            assert(paths[wi] == p);
        }
    }
}

proof fn lemma_entity_entries_files(
    m: UnitMeta,
    krate: Seq<char>,
    e: EntityV,
    ents: Seq<EntityV>,
    lens: Map<Seq<char>, int>,
    idx: int,
    p: Seq<char>,
)
    requires
        entity_valid(e, lens),
        0 <= idx < entity_entries(m, krate, e, ents).len(),
        entry_references_file(entity_entries(m, krate, e, ents)[idx], p),
    ensures
        lens.contains_key(p),
{
    let es = entity_entries(m, krate, e, ents);
    match e.def_span {
        None => {
            assert(es[idx] is Edge ==> idx >= 2);
        },
        Some(sp) => {
            assert(span_valid(sp, lens));
        },
    }
}

proof fn lemma_ref_entries_files(
    m: UnitMeta,
    krate: Seq<char>,
    r: ReferenceV,
    ents: Seq<EntityV>,
    lens: Map<Seq<char>, int>,
    idx: int,
    p: Seq<char>,
)
    requires
        span_valid(r.span, lens),
        0 <= idx < ref_entries(m, krate, r, ents).len(),
        entry_references_file(ref_entries(m, krate, r, ents)[idx], p),
    ensures
        lens.contains_key(p),
{
}

proof fn lemma_entities_entries_files(
    m: UnitMeta,
    krate: Seq<char>,
    done: Seq<EntityV>,
    ents: Seq<EntityV>,
    lens: Map<Seq<char>, int>,
    idx: int,
    p: Seq<char>,
)
    requires
        forall|k: int| 0 <= k < done.len() ==> entity_valid(#[trigger] done[k], lens),
        0 <= idx < entities_entries(m, krate, done, ents).len(),
        entry_references_file(entities_entries(m, krate, done, ents)[idx], p),
    ensures
        lens.contains_key(p),
    decreases done.len(),
{
    if done.len() > 0 {
        let prefix = entities_entries(m, krate, done.drop_last(), ents);
        if idx < prefix.len() {
            lemma_entities_entries_files(m, krate, done.drop_last(), ents, lens, idx, p);
        } else {
            lemma_entity_entries_files(m, krate, done.last(), ents, lens, idx - prefix.len(), p);
        }
    }
}

proof fn lemma_refs_entries_files(
    m: UnitMeta,
    krate: Seq<char>,
    done: Seq<ReferenceV>,
    ents: Seq<EntityV>,
    lens: Map<Seq<char>, int>,
    idx: int,
    p: Seq<char>,
)
    requires
        forall|k: int| 0 <= k < done.len() ==> span_valid((#[trigger] done[k]).span, lens),
        0 <= idx < refs_entries(m, krate, done, ents).len(),
        entry_references_file(refs_entries(m, krate, done, ents)[idx], p),
    ensures
        lens.contains_key(p),
    decreases done.len(),
{
    if done.len() > 0 {
        let prefix = refs_entries(m, krate, done.drop_last(), ents);
        if idx < prefix.len() {
            lemma_refs_entries_files(m, krate, done.drop_last(), ents, lens, idx, p);
        } else {
            lemma_ref_entries_files(m, krate, done.last(), ents, lens, idx - prefix.len(), p);
        }
    }
}

proof fn lemma_crate_entries_files(
    m: UnitMeta,
    lens: Map<Seq<char>, int>,
    rec: RecordV,
    idx: int,
    p: Seq<char>,
)
    requires
        record_valid(rec, lens),
        0 <= idx < crate_entries(m, rec).len(),
        entry_references_file(crate_entries(m, rec)[idx], p),
    ensures
        lens.contains_key(p),
{
    let prefix = entities_entries(m, rec.name, rec.entities, rec.entities);
    if idx < prefix.len() {
        lemma_entities_entries_files(m, rec.name, rec.entities, rec.entities, lens, idx, p);
    } else {
        lemma_refs_entries_files(
            m,
            rec.name,
            rec.refs,
            rec.entities,
            lens,
            idx - prefix.len(),
            p,
        );
    }
}

proof fn lemma_indexed_entries_files(
    m: UnitMeta,
    lens: Map<Seq<char>, int>,
    recs: Seq<RecordV>,
    idx: int,
    p: Seq<char>,
)
    requires
        0 <= idx < indexed_entries(m, lens, recs).len(),
        entry_references_file(indexed_entries(m, lens, recs)[idx], p),
    ensures
        lens.contains_key(p),
    decreases recs.len(),
{
    if recs.len() > 0 {
        let prefix = indexed_entries(m, lens, recs.drop_last());
        if idx < prefix.len() {
            lemma_indexed_entries_files(m, lens, recs.drop_last(), idx, p);
        } else {
            lemma_crate_entries_files(m, lens, recs.last(), idx - prefix.len(), p);
        }
    }
}

/// Ordering: no anchor fact and no edge referring to a file ever stands
/// before that file's node-kind fact in the emitted sequence.  Whatever
/// entry at position `j` refers to file `p`, some earlier position holds
/// `p`'s file node.
pub proof fn lemma_ordering(
    u: CompilationUnitV,
    files: Map<Seq<char>, Seq<u8>>,
    arts: Seq<(Seq<char>, Seq<u8>)>,
    j: int,
    p: Seq<char>,
)
    requires
        0 <= j < unit_entries(u, files, arts).len(),
        entry_references_file(unit_entries(u, files, arts)[j], p),
    ensures
        exists|i: int|
            0 <= i < j && is_file_node_fact(
                #[trigger] unit_entries(u, files, arts)[i],
                unit_meta(u),
                p,
            ),
{
    let m = unit_meta(u);
    let dp = distinct_paths(u.source_files);
    let fe = file_entries(m, files, dp);
    let lens = unit_lens(u, files);
    let s = unit_entries(u, files, arts);
    if j < fe.len() {
        lemma_file_entries_no_refs(m, files, dp, j, p);
        assert(false);
    } else {
        assert(s[j] == indexed_entries(m, lens, crate::save_analysis::loaded_records(arts))[j
            - fe.len()]);
        lemma_indexed_entries_files(
            m,
            lens,
            crate::save_analysis::loaded_records(arts),
            j - fe.len(),
            p,
        );
        lemma_files_lens_keys(files, dp, p);
        lemma_file_entries_covers(m, files, dp, p);
        let i = choose|i: int|
            0 <= i < fe.len() && is_file_node_fact(#[trigger] fe[i], m, p);
        assert(s[i] == fe[i]);
        assert(is_file_node_fact(s[i], m, p));
    }
}

/// Partial tolerance: a directory holding one artifact that does not
/// decode and one that decodes to a record yields exactly that one
/// record, and exactly one failure naming the corrupt artifact.  (By the
/// round-trip law, any canonical encoding of a record decodes to it.)
pub proof fn lemma_partial_tolerance(
    bad: (Seq<char>, Seq<u8>),
    good: (Seq<char>, Seq<u8>),
    r: RecordV,
)
    requires
        crate::save_analysis::sp_record(bad.1) is None,
        crate::save_analysis::sp_record(good.1) == Some(r),
    ensures
        crate::save_analysis::loaded_records(seq![bad, good]) == seq![r],
        crate::save_analysis::loader_failures(seq![bad, good]) == seq![bad.0],
{
    let arts = seq![bad, good];
    let one = seq![bad];
    assert(arts.drop_last() =~= one);
    assert(arts.last() == good);
    assert(one.drop_last() =~= Seq::<(Seq<char>, Seq<u8>)>::empty());
    assert(one.last() == bad);
    assert(crate::save_analysis::loaded_records(Seq::empty()) =~= Seq::<RecordV>::empty());
    assert(crate::save_analysis::loader_failures(Seq::empty()) =~= Seq::<Seq<char>>::empty());
    assert(crate::save_analysis::loaded_records(one) =~= Seq::<RecordV>::empty());
    assert(crate::save_analysis::loader_failures(one) =~= seq![bad.0]);
    assert(crate::save_analysis::loaded_records(arts) =~= seq![r]);
    assert(crate::save_analysis::loader_failures(arts) =~= seq![bad.0]);
}

/// Unresolved cross-reference: a reference whose target id is defined by
/// no entity of its record still yields its anchor and a "ref" edge, and
/// that edge's target identity is computed from the reference's qualified
/// name.
pub proof fn lemma_unresolved_ref(
    m: UnitMeta,
    krate: Seq<char>,
    r: ReferenceV,
    ents: Seq<EntityV>,
)
    requires
        forall|k: int| 0 <= k < ents.len() ==> (#[trigger] ents[k]).id != r.target_id,
    ensures
        ref_entries(m, krate, r, ents) == anchor_entries(m, r.span) + seq![
            EntryV::Edge {
                source: anchor_vname(m, r.span),
                label: "/kythe/edge/ref"@,
                target: unresolved_vname(m, r.target_qualname),
                ordinal: None,
            },
        ],
{
    lemma_find_entity_absent(ents, r.target_id);
}

} // verus!
