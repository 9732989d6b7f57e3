//! The unit analyzer: bound to one compilation unit, it turns source files
//! into file nodes and analysis records into entity nodes, anchors and
//! edges, streaming every entry to the writer as it is produced.

use vstd::prelude::*;
use vstd::string::StringExecFns;
use crate::decimal::{dec_str, dec_bytes, dec_string, dec_vec};
use crate::entries::{Entry, EntryV, VName, VNameV};
use crate::errors::KytheError;
use crate::provider::SourceRoot;
use crate::save_analysis::{AnalysisRecord, Entity, EntityKind, EntityV, RecordV, Reference, ReferenceV, Span, SpanV};
use crate::writer::KytheWriter;

verus! {

broadcast use vstd::seq_lib::lemma_seq_contains_after_push;

/// The build description of one compilation unit: where its nodes live
/// (corpus, root), its language, the source files it references, and the
/// build arguments.  Read-only input to the pipeline.
pub struct CompilationUnit {
    pub corpus: String,
    pub root: String,
    pub language: String,
    pub source_files: Vec<String>,
    pub arguments: Vec<String>,
}

pub ghost struct CompilationUnitV {
    pub corpus: Seq<char>,
    pub root: Seq<char>,
    pub language: Seq<char>,
    pub source_files: Seq<Seq<char>>,
    pub arguments: Seq<Seq<char>>,
}

impl View for CompilationUnit {
    type V = CompilationUnitV;

    open spec fn view(&self) -> CompilationUnitV {
        CompilationUnitV {
            corpus: self.corpus@,
            root: self.root@,
            language: self.language@,
            source_files: self.source_files@.map_values(|s: String| s@),
            arguments: self.arguments@.map_values(|s: String| s@),
        }
    }
}

/// The part of a compilation unit that enters every node identity.
pub ghost struct UnitMeta {
    pub corpus: Seq<char>,
    pub root: Seq<char>,
    pub language: Seq<char>,
}

pub open spec fn unit_meta(u: CompilationUnitV) -> UnitMeta {
    UnitMeta { corpus: u.corpus, root: u.root, language: u.language }
}

// ---------------------------------------------------------------------------
// Node identities.  Every identity is a pure function of the unit's corpus,
// root and language and of the named thing itself; nothing else — no
// counters, no insertion order — may enter one.
// ---------------------------------------------------------------------------

/// The identity of the node for one source file.
pub open spec fn file_vname(m: UnitMeta, path: Seq<char>) -> VNameV {
    VNameV {
        signature: Seq::empty(),
        corpus: m.corpus,
        root: m.root,
        path,
        language: m.language,
    }
}

pub open spec fn kind_tag(k: EntityKind) -> Seq<char> {
    match k {
        EntityKind::Function => "function"@,
        EntityKind::DataType => "record"@,
        EntityKind::Variable => "variable"@,
        EntityKind::Module => "module"@,
        EntityKind::MacroDef => "macro"@,
    }
}

/// The signature of an entity defined in `krate`: crate name, qualified
/// name and kind, nothing more.
pub open spec fn entity_signature(krate: Seq<char>, qualname: Seq<char>, kind: EntityKind) -> Seq<
    char,
> {
    krate + ":"@ + qualname + "#"@ + kind_tag(kind)
}

/// The identity of an entity's node.
pub open spec fn entity_vname(m: UnitMeta, krate: Seq<char>, qualname: Seq<char>, kind: EntityKind) -> VNameV {
    VNameV {
        signature: entity_signature(krate, qualname, kind),
        corpus: m.corpus,
        root: m.root,
        path: Seq::empty(),
        language: m.language,
    }
}

pub open spec fn entity_node_vname(m: UnitMeta, krate: Seq<char>, e: EntityV) -> VNameV {
    entity_vname(m, krate, e.qualname, e.kind)
}

/// The identity a reference falls back on when its target is not defined in
/// the same record: computed from the qualified name alone, so that a later
/// linking pass can resolve it.
pub open spec fn unresolved_vname(m: UnitMeta, qualname: Seq<char>) -> VNameV {
    VNameV {
        signature: qualname,
        corpus: m.corpus,
        root: m.root,
        path: Seq::empty(),
        language: m.language,
    }
}

/// The signature of the anchor node for one byte span.
pub open spec fn anchor_signature(sp: SpanV) -> Seq<char> {
    "anchor:"@ + dec_str(sp.start) + "-"@ + dec_str(sp.end)
}

/// The identity of the anchor node for one (file, span) pair.
pub open spec fn anchor_vname(m: UnitMeta, sp: SpanV) -> VNameV {
    VNameV {
        signature: anchor_signature(sp),
        corpus: m.corpus,
        root: m.root,
        path: sp.path,
        language: m.language,
    }
}

// ---------------------------------------------------------------------------
// Fact values, as ASCII bytes.
// ---------------------------------------------------------------------------

/// The bytes of "file".
pub open spec fn file_kind_value() -> Seq<u8> {
    seq![102u8, 105u8, 108u8, 101u8]
}

/// The bytes of "anchor".
pub open spec fn anchor_kind_value() -> Seq<u8> {
    seq![97u8, 110u8, 99u8, 104u8, 111u8, 114u8]
}

/// The bytes of the node-kind name of each entity kind.
pub open spec fn kind_value(k: EntityKind) -> Seq<u8> {
    match k {
        EntityKind::Function => seq![102u8, 117u8, 110u8, 99u8, 116u8, 105u8, 111u8, 110u8],
        EntityKind::DataType => seq![114u8, 101u8, 99u8, 111u8, 114u8, 100u8],
        EntityKind::Variable => seq![118u8, 97u8, 114u8, 105u8, 97u8, 98u8, 108u8, 101u8],
        EntityKind::Module => seq![109u8, 111u8, 100u8, 117u8, 108u8, 101u8],
        EntityKind::MacroDef => seq![109u8, 97u8, 99u8, 114u8, 111u8],
    }
}

/// The bytes of "definition" or "incomplete".
pub open spec fn complete_value(c: bool) -> Seq<u8> {
    if c {
        seq![100u8, 101u8, 102u8, 105u8, 110u8, 105u8, 116u8, 105u8, 111u8, 110u8]
    } else {
        seq![105u8, 110u8, 99u8, 111u8, 109u8, 112u8, 108u8, 101u8, 116u8, 101u8]
    }
}

// ---------------------------------------------------------------------------
// The entries each part of the input gives rise to.
// ---------------------------------------------------------------------------

/// The two facts that make up one file node: its kind and its text.
pub open spec fn file_node_entries(m: UnitMeta, path: Seq<char>, content: Seq<u8>) -> Seq<EntryV> {
    seq![
        EntryV::Fact {
            node: file_vname(m, path),
            name: "/kythe/node/kind"@,
            value: file_kind_value(),
        },
        EntryV::Fact { node: file_vname(m, path), name: "/kythe/text"@, value: content },
    ]
}

/// The distinct elements of `paths`, each at its first occurrence.
pub open spec fn distinct_paths(paths: Seq<Seq<char>>) -> Seq<Seq<char>>
    decreases paths.len(),
{
    if paths.len() == 0 {
        Seq::empty()
    } else {
        let rest = distinct_paths(paths.drop_last());
        if rest.contains(paths.last()) {
            rest
        } else {
            rest.push(paths.last())
        }
    }
}

/// The file nodes of the given paths, in order.
pub open spec fn file_entries(
    m: UnitMeta,
    files: Map<Seq<char>, Seq<u8>>,
    paths: Seq<Seq<char>>,
) -> Seq<EntryV>
    decreases paths.len(),
{
    if paths.len() == 0 {
        Seq::empty()
    } else {
        file_entries(m, files, paths.drop_last()) + file_node_entries(
            m,
            paths.last(),
            files[paths.last()],
        )
    }
}

/// The file lengths the unit analyzer remembers after emitting file nodes.
pub open spec fn files_lens(files: Map<Seq<char>, Seq<u8>>, paths: Seq<Seq<char>>) -> Map<
    Seq<char>,
    int,
>
    decreases paths.len(),
{
    if paths.len() == 0 {
        Map::empty()
    } else {
        files_lens(files, paths.drop_last()).insert(
            paths.last(),
            files[paths.last()].len() as int,
        )
    }
}

/// The three facts that make up one anchor node: its kind and the two ends
/// of its span.
pub open spec fn anchor_entries(m: UnitMeta, sp: SpanV) -> Seq<EntryV> {
    seq![
        EntryV::Fact {
            node: anchor_vname(m, sp),
            name: "/kythe/node/kind"@,
            value: anchor_kind_value(),
        },
        EntryV::Fact {
            node: anchor_vname(m, sp),
            name: "/kythe/loc/start"@,
            value: dec_bytes(sp.start),
        },
        EntryV::Fact { node: anchor_vname(m, sp), name: "/kythe/loc/end"@, value: dec_bytes(sp.end) },
    ]
}

/// The first entity in `ents` carrying the given local id.
pub open spec fn find_entity(ents: Seq<EntityV>, id: int) -> Option<EntityV>
    decreases ents.len(),
{
    if ents.len() == 0 {
        None
    } else if ents[0].id == id {
        Some(ents[0])
    } else {
        find_entity(ents.drop_first(), id)
    }
}

/// Everything one entity gives rise to: its node facts, its definition
/// anchor and binding edge when it has a definition span, and a childof
/// edge when its parent id is defined in the same record.
pub open spec fn entity_entries(
    m: UnitMeta,
    krate: Seq<char>,
    e: EntityV,
    ents: Seq<EntityV>,
) -> Seq<EntryV> {
    let v = entity_node_vname(m, krate, e);
    seq![
        EntryV::Fact { node: v, name: "/kythe/node/kind"@, value: kind_value(e.kind) },
        EntryV::Fact { node: v, name: "/kythe/complete"@, value: complete_value(e.complete) },
    ] + (match e.def_span {
        None => Seq::<EntryV>::empty(),
        Some(sp) => anchor_entries(m, sp) + seq![
            EntryV::Edge {
                source: anchor_vname(m, sp),
                label: "/kythe/edge/defines/binding"@,
                target: v,
                ordinal: None,
            },
        ],
    }) + (match e.parent {
        None => Seq::<EntryV>::empty(),
        Some(pid) => match find_entity(ents, pid) {
            None => Seq::<EntryV>::empty(),
            Some(pe) => seq![
                EntryV::Edge {
                    source: v,
                    label: "/kythe/edge/childof"@,
                    target: entity_node_vname(m, krate, pe),
                    ordinal: None,
                },
            ],
        },
    })
}

/// Where a reference's edge points: at the entity its id names when that
/// entity is in the record, else at the identity computed from the
/// reference's qualified name.
pub open spec fn ref_target_vname(
    m: UnitMeta,
    krate: Seq<char>,
    r: ReferenceV,
    ents: Seq<EntityV>,
) -> VNameV {
    match find_entity(ents, r.target_id) {
        Some(e) => entity_node_vname(m, krate, e),
        None => unresolved_vname(m, r.target_qualname),
    }
}

/// Everything one reference gives rise to: its anchor and one "ref" edge.
pub open spec fn ref_entries(
    m: UnitMeta,
    krate: Seq<char>,
    r: ReferenceV,
    ents: Seq<EntityV>,
) -> Seq<EntryV> {
    anchor_entries(m, r.span) + seq![
        EntryV::Edge {
            source: anchor_vname(m, r.span),
            label: "/kythe/edge/ref"@,
            target: ref_target_vname(m, krate, r, ents),
            ordinal: None,
        },
    ]
}

pub open spec fn entities_entries(
    m: UnitMeta,
    krate: Seq<char>,
    done: Seq<EntityV>,
    ents: Seq<EntityV>,
) -> Seq<EntryV>
    decreases done.len(),
{
    if done.len() == 0 {
        Seq::empty()
    } else {
        entities_entries(m, krate, done.drop_last(), ents) + entity_entries(
            m,
            krate,
            done.last(),
            ents,
        )
    }
}

pub open spec fn refs_entries(
    m: UnitMeta,
    krate: Seq<char>,
    done: Seq<ReferenceV>,
    ents: Seq<EntityV>,
) -> Seq<EntryV>
    decreases done.len(),
{
    if done.len() == 0 {
        Seq::empty()
    } else {
        refs_entries(m, krate, done.drop_last(), ents) + ref_entries(m, krate, done.last(), ents)
    }
}

/// Everything one record gives rise to: every entity's entries, then every
/// reference's entries, in the record's own order.
pub open spec fn crate_entries(m: UnitMeta, rec: RecordV) -> Seq<EntryV> {
    entities_entries(m, rec.name, rec.entities, rec.entities) + refs_entries(
        m,
        rec.name,
        rec.refs,
        rec.entities,
    )
}

// ---------------------------------------------------------------------------
// Structural validity of a record against the known files.
// ---------------------------------------------------------------------------

/// A span is valid when it names a known file and lies inside it.
pub open spec fn span_valid(sp: SpanV, lens: Map<Seq<char>, int>) -> bool {
    lens.contains_key(sp.path) && 0 <= sp.start <= sp.end <= lens[sp.path]
}

pub open spec fn entity_valid(e: EntityV, lens: Map<Seq<char>, int>) -> bool {
    match e.def_span {
        None => true,
        Some(sp) => span_valid(sp, lens),
    }
}

/// A record is valid when every definition span and every reference span
/// lies inside a known file.
pub open spec fn record_valid(rec: RecordV, lens: Map<Seq<char>, int>) -> bool {
    (forall|i: int|
        0 <= i < rec.entities.len() ==> entity_valid(#[trigger] rec.entities[i], lens)) && (forall|
        i: int,
    |
        0 <= i < rec.refs.len() ==> span_valid((#[trigger] rec.refs[i]).span, lens))
}

/// The length map described by an association list, later entries shadowing
/// earlier ones.
pub open spec fn lens_map(s: Seq<(String, usize)>) -> Map<Seq<char>, int>
    decreases s.len(),
{
    if s.len() == 0 {
        Map::empty()
    } else {
        lens_map(s.drop_last()).insert(s.last().0@, s.last().1 as int)
    }
}

proof fn lemma_lens_map_found(s: Seq<(String, usize)>, k: Seq<char>, i: int)
    requires
        0 <= i < s.len(),
        s[i].0@ == k,
        forall|j: int| i < j < s.len() ==> #[trigger] s[j].0@ != k,
    ensures
        lens_map(s).contains_key(k),
        lens_map(s)[k] == s[i].1 as int,
    decreases s.len(),
{
    if i < s.len() - 1 {
        lemma_lens_map_found(s.drop_last(), k, i);
    }
}

proof fn lemma_lens_map_absent(s: Seq<(String, usize)>, k: Seq<char>)
    requires
        forall|j: int| 0 <= j < s.len() ==> #[trigger] s[j].0@ != k,
    ensures
        !lens_map(s).contains_key(k),
    decreases s.len(),
{
    if s.len() > 0 {
        lemma_lens_map_absent(s.drop_last(), k);
    }
}

// ---------------------------------------------------------------------------
// The analyzer itself.
// ---------------------------------------------------------------------------

/// The orchestration state for one compilation unit: the unit's naming
/// context, its file list, and — once the file nodes are emitted — the
/// length of every file, against which analysis records are validated.
pub struct UnitAnalyzer {
    pub corpus: String,
    pub root: String,
    pub language: String,
    pub source_files: Vec<String>,
    pub file_lens: Vec<(String, usize)>,
}

impl UnitAnalyzer {
    /// The naming context entering every identity this analyzer builds.
    pub open spec fn meta(&self) -> UnitMeta {
        UnitMeta { corpus: self.corpus@, root: self.root@, language: self.language@ }
    }

    /// The unit's file list.
    pub open spec fn files_view(&self) -> Seq<Seq<char>> {
        self.source_files@.map_values(|s: String| s@)
    }

    /// The lengths of the files whose nodes have been emitted.
    pub closed spec fn lens(&self) -> Map<Seq<char>, int> {
        lens_map(self.file_lens@)
    }

    /// True before any file node has been emitted.
    pub closed spec fn fresh(&self) -> bool {
        self.file_lens@.len() == 0
    }

    /// Binds a new analyzer to one compilation unit.
    pub fn new(unit: &CompilationUnit) -> (a: UnitAnalyzer)
        ensures
            a.meta() == unit_meta(unit@),
            a.files_view() == unit@.source_files,
            a.fresh(),
    {
        let mut sf: Vec<String> = Vec::new();
        let n = unit.source_files.len();
        let mut i: usize = 0;
        while i < n
            invariant
                i <= n,
                n == unit.source_files@.len(),
                sf@.map_values(|s: String| s@) == unit@.source_files.take(i as int),
            decreases n - i,
        {
            let ghost before = sf@.map_values(|s: String| s@);
            sf.push(unit.source_files[i].clone());
            proof {
                assert(sf@.map_values(|s: String| s@) =~= before.push(
                    unit.source_files@[i as int]@,
                ));
                assert(unit@.source_files.take(i + 1) =~= before.push(
                    unit.source_files@[i as int]@,
                ));
            }
            i = i + 1;
        }
        proof {
            assert(unit@.source_files.take(n as int) =~= unit@.source_files);
        }
        UnitAnalyzer {
            corpus: unit.corpus.clone(),
            root: unit.root.clone(),
            language: unit.language.clone(),
            source_files: sf,
            file_lens: Vec::new(),
        }
    }

    /// Looks up the recorded length of one file.
    fn lens_lookup(&self, path: &String) -> (r: Option<usize>)
        ensures
            r matches Some(l) ==> self.lens().contains_key(path@) && self.lens()[path@] == l as int,
            r is None ==> !self.lens().contains_key(path@),
    {
        let n = self.file_lens.len();
        let mut i: usize = n;
        while i > 0
            invariant
                i <= n,
                n == self.file_lens.len(),
                forall|j: int| i <= j < n ==> #[trigger] self.file_lens@[j].0@ != path@,
            decreases i,
        {
            i = i - 1;
            if self.file_lens[i].0 == *path {
                proof {
                    lemma_lens_map_found(self.file_lens@, path@, i as int);
                }
                return Some(self.file_lens[i].1);
            }
        }
        proof {
            lemma_lens_map_absent(self.file_lens@, path@);
        }
        None
    }

    /// Builds the node identity of one source file.
    fn file_vname_exec(&self, path: &String) -> (v: VName)
        ensures
            v@ == file_vname(self.meta(), path@),
    {
        VName {
            signature: String::new(),
            corpus: self.corpus.clone(),
            root: self.root.clone(),
            path: path.clone(),
            language: self.language.clone(),
        }
    }

    /// Emits the file node of every distinct source file of the unit,
    /// reading each file once and remembering its length.  Fails with
    /// `FileReadError` on the first unreadable file — file nodes are a
    /// prerequisite for everything downstream — and with `WriteError` when
    /// the sink fails.  No flush happens here.
    pub fn emit_file_nodes<R: SourceRoot, W: KytheWriter>(
        &mut self,
        root: &R,
        writer: &mut W,
    ) -> (res: Result<(), KytheError>)
        requires
            old(self).fresh(),
        ensures
            final(self).meta() == old(self).meta(),
            final(self).files_view() == old(self).files_view(),
            final(writer).flushes() == old(writer).flushes(),
            res is Ok ==> final(writer).entries() == old(writer).entries() + file_entries(
                old(self).meta(),
                root.files(),
                distinct_paths(old(self).files_view()),
            ) && final(self).lens() == files_lens(
                root.files(),
                distinct_paths(old(self).files_view()),
            ) && (forall|p: Seq<char>|
                #[trigger] final(self).lens().contains_key(p) <==> distinct_paths(
                    old(self).files_view(),
                ).contains(p)) && (forall|p: Seq<char>|
                #[trigger] distinct_paths(old(self).files_view()).contains(p)
                    ==> root.files().contains_key(p)),
            res matches Err(e) ==> (e is FileReadError || e is WriteError),
            res matches Err(KytheError::FileReadError(p)) ==> old(self).files_view().contains(p@)
                && !root.files().contains_key(p@),
            (forall|i: int|
                0 <= i < old(self).files_view().len() ==> root.files().contains_key(
                    #[trigger] old(self).files_view()[i],
                )) ==> !(res matches Err(KytheError::FileReadError(p))),
    {
        let ghost m0 = self.meta();
        let ghost sf0 = self.files_view();
        let ghost w0 = writer.entries();
        let ghost f0 = writer.flushes();
        let ghost files = root.files();
        let n = self.source_files.len();
        let mut i: usize = 0;
        proof {
            assert(sf0.take(0) =~= Seq::<Seq<char>>::empty());
            assert(w0 + file_entries(m0, files, distinct_paths(sf0.take(0))) =~= w0);
            assert(self.lens() =~= files_lens(files, distinct_paths(sf0.take(0))));
        }
        while i < n
            invariant
                i <= n,
                n == self.source_files@.len(),
                m0 == old(self).meta(),
                sf0 == old(self).files_view(),
                w0 == old(writer).entries(),
                f0 == old(writer).flushes(),
                self.meta() == m0,
                self.files_view() == sf0,
                files == root.files(),
                writer.entries() == w0 + file_entries(
                    m0,
                    files,
                    distinct_paths(sf0.take(i as int)),
                ),
                writer.flushes() == f0,
                self.lens() == files_lens(files, distinct_paths(sf0.take(i as int))),
                forall|p: Seq<char>|
                    #[trigger] self.lens().contains_key(p) <==> distinct_paths(
                        sf0.take(i as int),
                    ).contains(p),
                forall|p: Seq<char>|
                    #[trigger] distinct_paths(sf0.take(i as int)).contains(p)
                        ==> files.contains_key(p),
            decreases n - i,
        {
            let path = self.source_files[i].clone();
            proof {
                assert(sf0.take(i + 1).drop_last() =~= sf0.take(i as int));
                assert(sf0.take(i + 1).last() == sf0[i as int]);
                assert(path@ == sf0[i as int]);
            }
            match self.lens_lookup(&path) {
                Some(_) => {
                    proof {
                        assert(distinct_paths(sf0.take(i as int)).contains(path@));
                        assert(distinct_paths(sf0.take(i + 1)) == distinct_paths(
                            sf0.take(i as int),
                        ));
                    }
                },
                None => {
                    match root.read_file(&path) {
                        None => {
                            proof {
                                assert(sf0.contains(sf0[i as int]));
                            }
                            return Err(KytheError::FileReadError(path));
                        },
                        Some(content) => {
                            let len = content.len();
                            let ghost dp = distinct_paths(sf0.take(i as int));
                            let ghost dp2 = distinct_paths(sf0.take(i + 1));
                            proof {
                                assert(!dp.contains(path@));
                                assert(dp2 == dp.push(path@));
                                assert(dp2.drop_last() =~= dp);
                                assert(dp2.last() == path@);
                            }
                            let node1 = self.file_vname_exec(&path);
                            let e1 = Entry::Fact {
                                node: node1,
                                name: "/kythe/node/kind".to_owned(),
                                value: vec![102u8, 105u8, 108u8, 101u8],
                            };
                            let ghost e1v = e1@;
                            match writer.write_entry(e1) {
                                Ok(_) => {},
                                Err(e) => {
                                    return Err(e);
                                },
                            }
                            let node2 = self.file_vname_exec(&path);
                            let e2 = Entry::Fact {
                                node: node2,
                                name: "/kythe/text".to_owned(),
                                value: content,
                            };
                            let ghost e2v = e2@;
                            match writer.write_entry(e2) {
                                Ok(_) => {},
                                Err(e) => {
                                    return Err(e);
                                },
                            }
                            let ghost lens_before = self.file_lens@;
                            self.file_lens.push((path, len));
                            proof {
                                assert(e1v == file_node_entries(m0, sf0[i as int], files[sf0[i as int]])[0]);
                                assert(e2v == file_node_entries(m0, sf0[i as int], files[sf0[i as int]])[1]);
                                assert(file_entries(m0, files, dp2) == file_entries(m0, files, dp)
                                    + file_node_entries(m0, sf0[i as int], files[sf0[i as int]]));
                                assert(writer.entries() =~= w0 + file_entries(m0, files, dp2));
                                assert(self.file_lens@.drop_last() =~= lens_before);
                                assert(self.lens() =~= files_lens(files, dp2));
                            }
                        },
                    }
                },
            }
            i = i + 1;
        }
        proof {
            assert(sf0.take(n as int) =~= sf0);
        }
        Ok(())
    }

    /// Builds the node identity of one entity.
    fn entity_vname_exec(&self, krate: &String, qualname: &String, kind: EntityKind) -> (v: VName)
        ensures
            v@ == entity_vname(self.meta(), krate@, qualname@, kind),
    {
        let mut sig = krate.clone();
        sig.append(":");
        sig.append(qualname.as_str());
        sig.append("#");
        sig.append(kind_str(kind));
        proof {
            assert(sig@ =~= entity_signature(krate@, qualname@, kind));
        }
        VName {
            signature: sig,
            corpus: self.corpus.clone(),
            root: self.root.clone(),
            path: String::new(),
            language: self.language.clone(),
        }
    }

    /// Builds the fallback identity for a reference whose target is not in
    /// the record.
    fn unresolved_vname_exec(&self, qualname: &String) -> (v: VName)
        ensures
            v@ == unresolved_vname(self.meta(), qualname@),
    {
        VName {
            signature: qualname.clone(),
            corpus: self.corpus.clone(),
            root: self.root.clone(),
            path: String::new(),
            language: self.language.clone(),
        }
    }

    /// Builds the anchor identity of one span.
    fn anchor_vname_exec(&self, sp: &Span) -> (v: VName)
        ensures
            v@ == anchor_vname(self.meta(), sp@),
    {
        let mut sig = "anchor:".to_owned();
        sig.append(dec_string(sp.start).as_str());
        sig.append("-");
        sig.append(dec_string(sp.end).as_str());
        proof {
            assert(sig@ =~= anchor_signature(sp@));
        }
        VName {
            signature: sig,
            corpus: self.corpus.clone(),
            root: self.root.clone(),
            path: sp.path.clone(),
            language: self.language.clone(),
        }
    }

    /// Decides whether one span lies inside a known file.
    fn span_valid_exec(&self, sp: &Span) -> (b: bool)
        ensures
            b == span_valid(sp@, self.lens()),
    {
        match self.lens_lookup(&sp.path) {
            None => false,
            Some(l) => sp.start <= sp.end && (sp.end as usize) <= l,
        }
    }

    /// Decides whether a record meets the structural contract: every
    /// definition span and every reference span lies inside a known file.
    fn record_valid_exec(&self, record: &AnalysisRecord) -> (b: bool)
        ensures
            b == record_valid(record@, self.lens()),
    {
        let n = record.entities.len();
        let mut i: usize = 0;
        while i < n
            invariant
                i <= n,
                n == record@.entities.len(),
                forall|k: int|
                    0 <= k < i ==> entity_valid(#[trigger] record@.entities[k], self.lens()),
            decreases n - i,
        {
            let ok = match &record.entities[i].def_span {
                None => true,
                Some(sp) => self.span_valid_exec(sp),
            };
            if !ok {
                proof {
                    assert(!entity_valid(record@.entities[i as int], self.lens()));
                }
                return false;
            }
            i = i + 1;
        }
        let nr = record.refs.len();
        let mut j: usize = 0;
        while j < nr
            invariant
                j <= nr,
                nr == record@.refs.len(),
                forall|k: int|
                    0 <= k < record@.entities.len() ==> entity_valid(
                        #[trigger] record@.entities[k],
                        self.lens(),
                    ),
                forall|k: int|
                    0 <= k < j ==> span_valid((#[trigger] record@.refs[k]).span, self.lens()),
            decreases nr - j,
        {
            if !self.span_valid_exec(&record.refs[j].span) {
                proof {
                    assert(!span_valid(record@.refs[j as int].span, self.lens()));
                }
                return false;
            }
            j = j + 1;
        }
        true
    }

    /// Emits the three facts of one anchor node.
    fn emit_anchor<W: KytheWriter>(&self, sp: &Span, writer: &mut W) -> (res: Result<
        (),
        KytheError,
    >)
        ensures
            final(writer).flushes() == old(writer).flushes(),
            res is Ok ==> final(writer).entries() == old(writer).entries() + anchor_entries(
                self.meta(),
                sp@,
            ),
            res is Err ==> res == Err::<(), KytheError>(KytheError::WriteError),
    {
        let av1 = self.anchor_vname_exec(sp);
        let e1 = Entry::Fact {
            node: av1,
            name: "/kythe/node/kind".to_owned(),
            value: vec![97u8, 110u8, 99u8, 104u8, 111u8, 114u8],
        };
        match writer.write_entry(e1) {
            Ok(_) => {},
            Err(e) => {
                return Err(e);
            },
        }
        let av2 = self.anchor_vname_exec(sp);
        let e2 = Entry::Fact {
            node: av2,
            name: "/kythe/loc/start".to_owned(),
            value: dec_vec(sp.start),
        };
        match writer.write_entry(e2) {
            Ok(_) => {},
            Err(e) => {
                return Err(e);
            },
        }
        let av3 = self.anchor_vname_exec(sp);
        let e3 = Entry::Fact {
            node: av3,
            name: "/kythe/loc/end".to_owned(),
            value: dec_vec(sp.end),
        };
        match writer.write_entry(e3) {
            Ok(_) => {},
            Err(e) => {
                return Err(e);
            },
        }
        proof {
            assert(writer.entries() =~= old(writer).entries() + anchor_entries(self.meta(), sp@));
        }
        Ok(())
    }

    /// Emits everything one entity gives rise to.
    #[verifier::rlimit(50)]
    fn emit_entity<W: KytheWriter>(
        &self,
        krate: &String,
        e: &Entity,
        entities: &Vec<Entity>,
        writer: &mut W,
    ) -> (res: Result<(), KytheError>)
        ensures
            final(writer).flushes() == old(writer).flushes(),
            res is Ok ==> final(writer).entries() == old(writer).entries() + entity_entries(
                self.meta(),
                krate@,
                e@,
                entities@.map_values(|x: Entity| x@),
            ),
            res is Err ==> res == Err::<(), KytheError>(KytheError::WriteError),
    {
        let v1 = self.entity_vname_exec(krate, &e.qualname, e.kind);
        let f1 = Entry::Fact {
            node: v1,
            name: "/kythe/node/kind".to_owned(),
            value: kind_value_bytes(e.kind),
        };
        match writer.write_entry(f1) {
            Ok(_) => {},
            Err(err) => {
                return Err(err);
            },
        }
        let v2 = self.entity_vname_exec(krate, &e.qualname, e.kind);
        let f2 = Entry::Fact {
            node: v2,
            name: "/kythe/complete".to_owned(),
            value: complete_value_bytes(e.complete),
        };
        match writer.write_entry(f2) {
            Ok(_) => {},
            Err(err) => {
                return Err(err);
            },
        }
        match &e.def_span {
            None => {},
            Some(sp) => {
                match self.emit_anchor(sp, writer) {
                    Ok(_) => {},
                    Err(err) => {
                        return Err(err);
                    },
                }
                let av = self.anchor_vname_exec(sp);
                let tv = self.entity_vname_exec(krate, &e.qualname, e.kind);
                let edge = Entry::Edge {
                    source: av,
                    label: "/kythe/edge/defines/binding".to_owned(),
                    target: tv,
                    ordinal: None,
                };
                match writer.write_entry(edge) {
                    Ok(_) => {},
                    Err(err) => {
                        return Err(err);
                    },
                }
            },
        }
        match &e.parent {
            None => {},
            Some(pid) => {
                match find_entity_exec(entities, *pid) {
                    None => {},
                    Some(jx) => {
                        let pe = &entities[jx];
                        let pv = self.entity_vname_exec(krate, &pe.qualname, pe.kind);
                        let sv = self.entity_vname_exec(krate, &e.qualname, e.kind);
                        let edge = Entry::Edge {
                            source: sv,
                            label: "/kythe/edge/childof".to_owned(),
                            target: pv,
                            ordinal: None,
                        };
                        match writer.write_entry(edge) {
                            Ok(_) => {},
                            Err(err) => {
                                return Err(err);
                            },
                        }
                    },
                }
            },
        }
        proof {
            assert(writer.entries() =~= old(writer).entries() + entity_entries(
                self.meta(),
                krate@,
                e@,
                entities@.map_values(|x: Entity| x@),
            ));
        }
        Ok(())
    }

    /// Emits everything one reference gives rise to.
    #[verifier::rlimit(50)]
    fn emit_reference<W: KytheWriter>(
        &self,
        krate: &String,
        r: &Reference,
        entities: &Vec<Entity>,
        writer: &mut W,
    ) -> (res: Result<(), KytheError>)
        ensures
            final(writer).flushes() == old(writer).flushes(),
            res is Ok ==> final(writer).entries() == old(writer).entries() + ref_entries(
                self.meta(),
                krate@,
                r@,
                entities@.map_values(|x: Entity| x@),
            ),
            res is Err ==> res == Err::<(), KytheError>(KytheError::WriteError),
    {
        match self.emit_anchor(&r.span, writer) {
            Ok(_) => {},
            Err(err) => {
                return Err(err);
            },
        }
        let av = self.anchor_vname_exec(&r.span);
        let tv = match find_entity_exec(entities, r.target_id) {
            Some(jx) => {
                let pe = &entities[jx];
                self.entity_vname_exec(krate, &pe.qualname, pe.kind)
            },
            None => self.unresolved_vname_exec(&r.target_qualname),
        };
        let edge = Entry::Edge {
            source: av,
            label: "/kythe/edge/ref".to_owned(),
            target: tv,
            ordinal: None,
        };
        match writer.write_entry(edge) {
            Ok(_) => {},
            Err(err) => {
                return Err(err);
            },
        }
        proof {
            assert(writer.entries() =~= old(writer).entries() + ref_entries(
                self.meta(),
                krate@,
                r@,
                entities@.map_values(|x: Entity| x@),
            ));
        }
        Ok(())
    }

    /// Translates one analysis record into entries: every entity's node
    /// facts, definition anchor and structural edge, then every reference's
    /// anchor and "ref" edge.  An invalid record — one with a span outside
    /// the known files — is rejected whole, before anything is emitted, and
    /// does not abort the rest of the unit.  No flush happens here.
    pub fn index_crate<W: KytheWriter>(&self, record: &AnalysisRecord, writer: &mut W) -> (res:
        Result<(), KytheError>)
        ensures
            final(writer).flushes() == old(writer).flushes(),
            res is Ok ==> record_valid(record@, self.lens()) && final(writer).entries() == old(
                writer,
            ).entries() + crate_entries(self.meta(), record@),
            res matches Err(KytheError::InvalidAnalysisRecord(n)) ==> !record_valid(
                record@,
                self.lens(),
            ) && n@ == record@.name && final(writer).entries() == old(writer).entries(),
            res matches Err(e) ==> (e is InvalidAnalysisRecord || e is WriteError),
            !record_valid(record@, self.lens()) ==> (res matches Err(
                KytheError::InvalidAnalysisRecord(n),
            ) && n@ == record@.name),
    {
        if !self.record_valid_exec(&record) {
            return Err(KytheError::InvalidAnalysisRecord(record.name.clone()));
        }
        let ghost m = self.meta();
        let ghost recv = record@;
        let ghost w0 = writer.entries();
        let krate = &record.name;
        let n = record.entities.len();
        let mut i: usize = 0;
        proof {
            assert(recv.entities.take(0) =~= Seq::<EntityV>::empty());
            assert(w0 + entities_entries(m, recv.name, recv.entities.take(0), recv.entities)
                =~= w0);
        }
        while i < n
            invariant
                i <= n,
                n == record@.entities.len(),
                m == self.meta(),
                recv == record@,
                w0 == old(writer).entries(),
                krate@ == recv.name,
                record_valid(record@, self.lens()),
                writer.entries() == w0 + entities_entries(
                    m,
                    recv.name,
                    recv.entities.take(i as int),
                    recv.entities,
                ),
                writer.flushes() == old(writer).flushes(),
            decreases n - i,
        {
            proof {
                assert(recv.entities.take(i + 1).drop_last() =~= recv.entities.take(i as int));
                assert(recv.entities.take(i + 1).last() == recv.entities[i as int]);
            }
            match self.emit_entity(krate, &record.entities[i], &record.entities, writer) {
                Ok(_) => {},
                Err(err) => {
                    return Err(err);
                },
            }
            i = i + 1;
        }
        proof {
            assert(recv.entities.take(n as int) =~= recv.entities);
        }
        let ghost w1 = writer.entries();
        let nr = record.refs.len();
        let mut j: usize = 0;
        proof {
            assert(recv.refs.take(0) =~= Seq::<ReferenceV>::empty());
            assert(w1 + refs_entries(m, recv.name, recv.refs.take(0), recv.entities) =~= w1);
        }
        while j < nr
            invariant
                j <= nr,
                nr == record@.refs.len(),
                m == self.meta(),
                recv == record@,
                w0 == old(writer).entries(),
                w1 == w0 + entities_entries(m, recv.name, recv.entities, recv.entities),
                krate@ == recv.name,
                record_valid(record@, self.lens()),
                writer.entries() == w1 + refs_entries(
                    m,
                    recv.name,
                    recv.refs.take(j as int),
                    recv.entities,
                ),
                writer.flushes() == old(writer).flushes(),
            decreases nr - j,
        {
            proof {
                assert(recv.refs.take(j + 1).drop_last() =~= recv.refs.take(j as int));
                assert(recv.refs.take(j + 1).last() == recv.refs[j as int]);
            }
            match self.emit_reference(krate, &record.refs[j], &record.entities, writer) {
                Ok(_) => {},
                Err(err) => {
                    return Err(err);
                },
            }
            j = j + 1;
        }
        proof {
            assert(recv.refs.take(nr as int) =~= recv.refs);
            assert(writer.entries() =~= w0 + crate_entries(m, recv));
        }
        Ok(())
    }
}

fn kind_str(kind: EntityKind) -> (r: &'static str)
    ensures
        r@ == kind_tag(kind),
{
    match kind {
        EntityKind::Function => "function",
        EntityKind::DataType => "record",
        EntityKind::Variable => "variable",
        EntityKind::Module => "module",
        EntityKind::MacroDef => "macro",
    }
}

fn kind_value_bytes(kind: EntityKind) -> (v: Vec<u8>)
    ensures
        v@ == kind_value(kind),
{
    let v = match kind {
        EntityKind::Function => vec![102u8, 117u8, 110u8, 99u8, 116u8, 105u8, 111u8, 110u8],
        EntityKind::DataType => vec![114u8, 101u8, 99u8, 111u8, 114u8, 100u8],
        EntityKind::Variable => vec![118u8, 97u8, 114u8, 105u8, 97u8, 98u8, 108u8, 101u8],
        EntityKind::Module => vec![109u8, 111u8, 100u8, 117u8, 108u8, 101u8],
        EntityKind::MacroDef => vec![109u8, 97u8, 99u8, 114u8, 111u8],
    };
    proof {
        assert(v@ =~= kind_value(kind));
    }
    v
}

fn complete_value_bytes(complete: bool) -> (v: Vec<u8>)
    ensures
        v@ == complete_value(complete),
{
    let v = if complete {
        vec![100u8, 101u8, 102u8, 105u8, 110u8, 105u8, 116u8, 105u8, 111u8, 110u8]
    } else {
        vec![105u8, 110u8, 99u8, 111u8, 109u8, 112u8, 108u8, 101u8, 116u8, 101u8]
    };
    proof {
        assert(v@ =~= complete_value(complete));
    }
    v
}

pub proof fn lemma_find_entity_found(ents: Seq<EntityV>, id: int, i: int)
    requires
        0 <= i < ents.len(),
        ents[i].id == id,
        forall|j: int| 0 <= j < i ==> (#[trigger] ents[j]).id != id,
    ensures
        find_entity(ents, id) == Some(ents[i]),
    decreases i,
{
    if i > 0 {
        lemma_find_entity_found(ents.drop_first(), id, i - 1);
    }
}

pub proof fn lemma_find_entity_absent(ents: Seq<EntityV>, id: int)
    requires
        forall|j: int| 0 <= j < ents.len() ==> (#[trigger] ents[j]).id != id,
    ensures
        find_entity(ents, id) is None,
    decreases ents.len(),
{
    if ents.len() > 0 {
        lemma_find_entity_absent(ents.drop_first(), id);
    }
}

/// Finds the first entity with the given local id, if any.
fn find_entity_exec(entities: &Vec<Entity>, id: u32) -> (r: Option<usize>)
    ensures
        r matches Some(j) ==> j < entities@.len() && find_entity(
            entities@.map_values(|x: Entity| x@),
            id as int,
        ) == Some(entities@.map_values(|x: Entity| x@)[j as int]),
        r is None ==> find_entity(entities@.map_values(|x: Entity| x@), id as int) is None,
{
    let n = entities.len();
    let mut i: usize = 0;
    while i < n
        invariant
            i <= n,
            n == entities@.len(),
            forall|j: int| 0 <= j < i ==> ((#[trigger] entities@[j])@).id != id as int,
        decreases n - i,
    {
        if entities[i].id == id {
            proof {
                let mv = entities@.map_values(|x: Entity| x@);
                assert forall|j: int| 0 <= j < i implies (#[trigger] mv[j]).id != id as int by {
                    assert(mv[j] == entities@[j]@);
                }
                lemma_find_entity_found(mv, id as int, i as int);
            }
            return Some(i);
        }
        i = i + 1;
    }
    proof {
        let mv = entities@.map_values(|x: Entity| x@);
        assert forall|j: int| 0 <= j < mv.len() implies (#[trigger] mv[j]).id != id as int by {
            assert(mv[j] == entities@[j]@);
        }
        lemma_find_entity_absent(mv, id as int);
    }
    None
}

} // verus!
