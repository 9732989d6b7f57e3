use kythe_indexer::analyzers::CompilationUnit;
use kythe_indexer::entries::Entry;
use kythe_indexer::errors::KytheError;
use kythe_indexer::indexer::KytheIndexer;
use kythe_indexer::provider::MemorySourceRoot;
use kythe_indexer::save_analysis::{encode_record, AnalysisRecord, Entity, EntityKind, Reference, Span};
use kythe_indexer::writer::{FailingWriter, MemoryWriter};

fn unit_for(files: &[&str]) -> CompilationUnit {
    CompilationUnit {
        corpus: "corpus".to_string(),
        root: "root".to_string(),
        language: "rust".to_string(),
        source_files: files.iter().map(|s| s.to_string()).collect(),
        arguments: vec!["--edition=2021".to_string()],
    }
}

fn entries_of(w: &MemoryWriter) -> Vec<Entry> {
    let mut out = Vec::new();
    for i in 0..w.entry_count() {
        out.push(w.entry_at(i).clone());
    }
    out
}

fn sample_entity(id: u32, qualname: &str, span: Option<Span>) -> Entity {
    Entity {
        id,
        qualname: qualname.to_string(),
        kind: EntityKind::Function,
        complete: true,
        parent: None,
        def_span: span,
    }
}

fn span(path: &str, start: u32, end: u32) -> Span {
    Span { path: path.to_string(), start, end }
}

fn sample_record() -> AnalysisRecord {
    AnalysisRecord {
        name: "mycrate".to_string(),
        entities: vec![sample_entity(1, "mycrate::foo", Some(span("a.rs", 3, 8)))],
        refs: vec![Reference {
            span: span("a.rs", 10, 12),
            target_id: 1,
            target_qualname: "mycrate::foo".to_string(),
        }],
    }
}

fn root_with(artifacts: Vec<(&str, Vec<u8>)>) -> MemorySourceRoot {
    let mut root = MemorySourceRoot::new();
    root.add_file("a.rs".to_string(), b"fn foo() { foo(); }".to_vec());
    for (name, bytes) in artifacts {
        root.add_artifact(name.to_string(), bytes);
    }
    root
}

#[test]
fn determinism_two_runs() {
    let unit = unit_for(&["a.rs"]);
    let art = encode_record(&sample_record());
    let root = root_with(vec![("mycrate.an", art)]);

    let mut first = KytheIndexer::new(MemoryWriter::new());
    first.index_cu(&unit, &root).expect("first run should succeed");
    let mut second = KytheIndexer::new(MemoryWriter::new());
    second.index_cu(&unit, &root).expect("second run should succeed");

    assert_eq!(entries_of(&first.writer), entries_of(&second.writer));
    assert!(first.writer.entry_count() > 2);
}

#[test]
fn ordering_file_nodes_first() {
    let unit = unit_for(&["a.rs"]);
    let art = encode_record(&sample_record());
    let root = root_with(vec![("mycrate.an", art)]);

    let mut indexer = KytheIndexer::new(MemoryWriter::new());
    indexer.index_cu(&unit, &root).expect("run should succeed");
    let entries = entries_of(&indexer.writer);

    let file_node_at = entries
        .iter()
        .position(|e| match e {
            Entry::Fact { node, name, value } => {
                node.path == "a.rs" && node.signature.is_empty() && name == "/kythe/node/kind"
                    && value == b"file"
            },
            _ => false,
        })
        .expect("the file node fact must be emitted");

    for (i, e) in entries.iter().enumerate() {
        let references_file = match e {
            Entry::Fact { node, .. } => node.path == "a.rs" && !node.signature.is_empty(),
            Entry::Edge { source, target, .. } => source.path == "a.rs" || target.path == "a.rs",
        };
        if references_file {
            assert!(file_node_at < i, "entry {} references a.rs before its file node", i);
        }
    }
}

#[test]
fn fatal_file_error() {
    let unit = unit_for(&["missing.rs"]);
    let root = root_with(vec![]);

    let mut indexer = KytheIndexer::new(MemoryWriter::new());
    let res = indexer.index_cu(&unit, &root);
    match res {
        Err(KytheError::FileReadError(p)) => assert_eq!(p, "missing.rs"),
        other => panic!("expected FileReadError, got {:?}", other.is_ok()),
    }
    assert_eq!(indexer.writer.flush_count(), 0, "nothing may reach flush");
}

#[test]
fn unresolved_ref_still_emitted() {
    let unit = unit_for(&["a.rs"]);
    let mut record = sample_record();
    record.refs = vec![Reference {
        span: span("a.rs", 10, 12),
        target_id: 99,
        target_qualname: "dep::bar".to_string(),
    }];
    let art = encode_record(&record);
    let root = root_with(vec![("mycrate.an", art)]);

    let mut indexer = KytheIndexer::new(MemoryWriter::new());
    let diags = indexer.index_cu(&unit, &root).expect("run should succeed");
    assert!(diags.is_empty());

    let entries = entries_of(&indexer.writer);
    let edge = entries
        .iter()
        .find_map(|e| match e {
            Entry::Edge { source, label, target, .. } if label == "/kythe/edge/ref" => {
                Some((source.clone(), target.clone()))
            },
            _ => None,
        })
        .expect("the ref edge must still be emitted");
    assert_eq!(edge.0.signature, "anchor:10-12");
    assert_eq!(edge.0.path, "a.rs");
    assert_eq!(edge.1.signature, "dep::bar");
    assert!(entries.iter().any(|e| match e {
        Entry::Fact { node, name, value } => {
            node.signature == "anchor:10-12" && name == "/kythe/node/kind" && value == b"anchor"
        },
        _ => false,
    }));
}

#[test]
fn flush_guarantee() {
    let unit = unit_for(&["a.rs"]);
    let art = encode_record(&sample_record());
    let root = root_with(vec![("mycrate.an", art)]);

    let mut indexer = KytheIndexer::new(MemoryWriter::new());
    indexer.index_cu(&unit, &root).expect("run should succeed");
    assert_eq!(indexer.writer.flush_count(), 1, "flush happens exactly once");
    assert_eq!(
        indexer.writer.flush_mark_at(0),
        indexer.writer.entry_count(),
        "the one flush covers every entry of the call"
    );
}

#[test]
fn duplicate_source_files_give_one_node() {
    let unit = unit_for(&["a.rs", "a.rs"]);
    let root = root_with(vec![]);

    let mut indexer = KytheIndexer::new(MemoryWriter::new());
    indexer.index_cu(&unit, &root).expect("run should succeed");
    assert_eq!(indexer.writer.entry_count(), 2, "one kind fact and one text fact");
}

#[test]
fn invalid_record_is_skipped_with_diagnostic() {
    let unit = unit_for(&["a.rs"]);
    let mut record = sample_record();
    // The file handed to the root is 19 bytes long; this span overruns it.
    record.entities[0].def_span = Some(span("a.rs", 0, 5000));
    let art = encode_record(&record);
    let root = root_with(vec![("mycrate.an", art)]);

    let mut indexer = KytheIndexer::new(MemoryWriter::new());
    let diags = indexer.index_cu(&unit, &root).expect("the unit itself still succeeds");
    assert_eq!(diags.len(), 1);
    match &diags[0] {
        KytheError::InvalidAnalysisRecord(name) => assert_eq!(name, "mycrate"),
        _ => panic!("expected InvalidAnalysisRecord"),
    }
    assert_eq!(indexer.writer.entry_count(), 2, "only the file node was emitted");
    assert_eq!(indexer.writer.flush_count(), 1);
}

#[test]
fn entity_emission_exact() {
    let unit = unit_for(&["a.rs"]);
    let record = AnalysisRecord {
        name: "mycrate".to_string(),
        entities: vec![sample_entity(1, "mycrate::foo", Some(span("a.rs", 3, 8)))],
        refs: vec![],
    };
    let art = encode_record(&record);
    let root = root_with(vec![("mycrate.an", art)]);

    let mut indexer = KytheIndexer::new(MemoryWriter::new());
    indexer.index_cu(&unit, &root).expect("run should succeed");
    let entries = entries_of(&indexer.writer);
    assert_eq!(entries.len(), 8);

    match &entries[2] {
        Entry::Fact { node, name, value } => {
            assert_eq!(node.signature, "mycrate:mycrate::foo#function");
            assert_eq!(node.corpus, "corpus");
            assert_eq!(node.root, "root");
            assert_eq!(node.path, "");
            assert_eq!(node.language, "rust");
            assert_eq!(name, "/kythe/node/kind");
            assert_eq!(value, b"function");
        },
        _ => panic!("entry 2 must be the entity kind fact"),
    }
    match &entries[3] {
        Entry::Fact { name, value, .. } => {
            assert_eq!(name, "/kythe/complete");
            assert_eq!(value, b"definition");
        },
        _ => panic!("entry 3 must be the completeness fact"),
    }
    match &entries[5] {
        Entry::Fact { node, name, value } => {
            assert_eq!(node.signature, "anchor:3-8");
            assert_eq!(name, "/kythe/loc/start");
            assert_eq!(value, b"3");
        },
        _ => panic!("entry 5 must be the anchor start fact"),
    }
    match &entries[7] {
        Entry::Edge { source, label, target, .. } => {
            assert_eq!(source.signature, "anchor:3-8");
            assert_eq!(source.path, "a.rs");
            assert_eq!(label, "/kythe/edge/defines/binding");
            assert_eq!(target.signature, "mycrate:mycrate::foo#function");
        },
        _ => panic!("entry 7 must be the binding edge"),
    }
}

#[test]
fn childof_edge_when_parent_resolves() {
    let unit = unit_for(&["a.rs"]);
    let parent = Entity {
        id: 1,
        qualname: "mycrate".to_string(),
        kind: EntityKind::Module,
        complete: true,
        parent: None,
        def_span: None,
    };
    let child = Entity {
        id: 2,
        qualname: "mycrate::foo".to_string(),
        kind: EntityKind::Function,
        complete: true,
        parent: Some(1),
        def_span: None,
    };
    let orphan = Entity {
        id: 3,
        qualname: "mycrate::bar".to_string(),
        kind: EntityKind::Function,
        complete: false,
        parent: Some(42),
        def_span: None,
    };
    let record = AnalysisRecord {
        name: "mycrate".to_string(),
        entities: vec![parent, child, orphan],
        refs: vec![],
    };
    let art = encode_record(&record);
    let root = root_with(vec![("mycrate.an", art)]);

    let mut indexer = KytheIndexer::new(MemoryWriter::new());
    indexer.index_cu(&unit, &root).expect("run should succeed");
    let entries = entries_of(&indexer.writer);

    let childof: Vec<_> = entries
        .iter()
        .filter_map(|e| match e {
            Entry::Edge { source, label, target, .. } if label == "/kythe/edge/childof" => {
                Some((source.signature.clone(), target.signature.clone()))
            },
            _ => None,
        })
        .collect();
    assert_eq!(childof.len(), 1, "only the resolvable parent yields a childof edge");
    assert_eq!(childof[0].0, "mycrate:mycrate::foo#function");
    assert_eq!(childof[0].1, "mycrate:mycrate#module");
}

#[test]
fn write_failure_is_fatal() {
    let unit = unit_for(&["a.rs"]);
    let root = root_with(vec![("mycrate.an", encode_record(&sample_record()))]);
    let mut indexer = KytheIndexer::new(FailingWriter::new());
    match indexer.index_cu(&unit, &root) {
        Err(KytheError::WriteError) => {},
        _ => panic!("a sink failure must abort the unit with WriteError"),
    }
}

#[test]
fn empty_unit_and_root() {
    let unit = unit_for(&[]);
    let root = MemorySourceRoot::new();
    let mut indexer = KytheIndexer::new(MemoryWriter::new());
    let diags = indexer.index_cu(&unit, &root).expect("an empty unit succeeds");
    assert!(diags.is_empty());
    assert_eq!(indexer.writer.entry_count(), 0);
    assert_eq!(indexer.writer.flush_count(), 1);
}
