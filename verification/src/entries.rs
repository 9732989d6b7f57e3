//! The entry model: graph node identities and the entries (facts and edges)
//! that the pipeline emits.

use vstd::prelude::*;
use crate::errors::KytheError;

verus! {

/// The identity of a graph node: a structured name made of a signature, a
/// corpus, a root, a file path and a language.  Node identities are pure
/// functions of these five strings; two nodes are the same node exactly when
/// all five components are equal.
#[derive(Clone, PartialEq, Eq, Debug)]
pub struct VName {
    pub signature: String,
    pub corpus: String,
    pub root: String,
    pub path: String,
    pub language: String,
}

/// The mathematical value of a [`VName`]: its five components as character
/// sequences.
pub ghost struct VNameV {
    pub signature: Seq<char>,
    pub corpus: Seq<char>,
    pub root: Seq<char>,
    pub path: Seq<char>,
    pub language: Seq<char>,
}

impl View for VName {
    type V = VNameV;

    open spec fn view(&self) -> VNameV {
        VNameV {
            signature: self.signature@,
            corpus: self.corpus@,
            root: self.root@,
            path: self.path@,
            language: self.language@,
        }
    }
}

/// One unit of graph output: either a fact attached to a node, or a labeled
/// directed edge between two nodes.
#[derive(Clone, PartialEq, Eq, Debug)]
pub enum Entry {
    Fact { node: VName, name: String, value: Vec<u8> },
    Edge { source: VName, label: String, target: VName, ordinal: Option<u32> },
}

/// The mathematical value of an [`Entry`].
pub ghost enum EntryV {
    Fact { node: VNameV, name: Seq<char>, value: Seq<u8> },
    Edge { source: VNameV, label: Seq<char>, target: VNameV, ordinal: Option<int> },
}

impl View for Entry {
    type V = EntryV;

    open spec fn view(&self) -> EntryV {
        match self {
            Entry::Fact { node, name, value } => EntryV::Fact {
                node: node@,
                name: name@,
                value: value@,
            },
            Entry::Edge { source, label, target, ordinal } => EntryV::Edge {
                source: source@,
                label: label@,
                target: target@,
                ordinal: match ordinal {
                    Some(o) => Some(*o as int),
                    None => None,
                },
            },
        }
    }
}

/// The mathematical value of an optional edge ordinal.
pub open spec fn opt_ordinal_view(v: Option<u32>) -> Option<int> {
    match v {
        Some(o) => Some(o as int),
        None => None,
    }
}

/// A node identity is addressable when at least one of its signature and its
/// path is non-empty; an identity with both empty names nothing.
pub open spec fn vname_wf(v: VNameV) -> bool {
    v.signature.len() > 0 || v.path.len() > 0
}

/// An entry is well formed when every identity in it is addressable and its
/// fact name or edge label is non-empty.
pub open spec fn entry_wf(e: EntryV) -> bool {
    match e {
        EntryV::Fact { node, name, value } => vname_wf(node) && name.len() > 0,
        EntryV::Edge { source, label, target, ordinal } => vname_wf(source) && vname_wf(target)
            && label.len() > 0,
    }
}

impl VName {
    /// Builds a node identity from its five components.
    pub fn new(
        signature: String,
        corpus: String,
        root: String,
        path: String,
        language: String,
    ) -> (v: VName)
        ensures
            v@ == (VNameV {
                signature: signature@,
                corpus: corpus@,
                root: root@,
                path: path@,
                language: language@,
            }),
    {
        VName { signature, corpus, root, path, language }
    }
}

impl Entry {
    /// Builds a fact entry, rejecting one whose node identity or fact name is
    /// empty where the schema requires it to be filled in.
    pub fn new_fact(node: VName, name: String, value: Vec<u8>) -> (r: Result<Entry, KytheError>)
        ensures
            r is Ok <==> entry_wf(EntryV::Fact { node: node@, name: name@, value: value@ }),
            r matches Ok(e) ==> e@ == (EntryV::Fact { node: node@, name: name@, value: value@ }),
            r is Err ==> r == Err::<Entry, KytheError>(KytheError::MalformedEntity),
    {
        if (node.signature.as_str().unicode_len() > 0 || node.path.as_str().unicode_len() > 0)
            && name.as_str().unicode_len() > 0 {
            Ok(Entry::Fact { node, name, value })
        } else {
            Err(KytheError::MalformedEntity)
        }
    }

    /// Builds an edge entry, rejecting one with an unaddressable endpoint or
    /// an empty label.
    pub fn new_edge(source: VName, label: String, target: VName, ordinal: Option<u32>) -> (r:
        Result<Entry, KytheError>)
        ensures
            r is Ok <==> entry_wf(
                EntryV::Edge {
                    source: source@,
                    label: label@,
                    target: target@,
                    ordinal: opt_ordinal_view(ordinal),
                },
            ),
            r matches Ok(e) ==> e@ == (EntryV::Edge {
                source: source@,
                label: label@,
                target: target@,
                ordinal: opt_ordinal_view(ordinal),
            }),
            r is Err ==> r == Err::<Entry, KytheError>(KytheError::MalformedEntity),
    {
        if (source.signature.as_str().unicode_len() > 0 || source.path.as_str().unicode_len() > 0)
            && (target.signature.as_str().unicode_len() > 0
                || target.path.as_str().unicode_len() > 0)
            && label.as_str().unicode_len() > 0 {
            Ok(Entry::Edge { source, label, target, ordinal })
        } else {
            Err(KytheError::MalformedEntity)
        }
    }
}

} // verus!
