//! Analysis records — the toolchain's structured description of one
//! compiled crate — together with the artifact format they are stored in
//! and the loader that decodes a directory of artifacts.
//!
//! An artifact is a single record in a length-prefixed binary layout: every
//! number is a 32-bit little-endian value, every string is a length followed
//! by that many ASCII bytes, and every optional field is a one-byte presence
//! flag followed by the field itself.  A record is the crate name, the
//! entity list and the reference list, and nothing may follow it.

use vstd::prelude::*;
use vstd::slice::slice_subrange;
use crate::errors::KytheError;
use crate::provider::SourceRoot;

verus! {

/// What a described entity is: these are the only entity shapes the graph
/// schema distinguishes.
#[derive(Clone, Copy, PartialEq, Eq, Structural, Debug)]
pub enum EntityKind {
    Function,
    DataType,
    Variable,
    Module,
    MacroDef,
}

/// A byte span inside one source file.
#[derive(Clone, PartialEq, Eq, Debug)]
pub struct Span {
    pub path: String,
    pub start: u32,
    pub end: u32,
}

pub ghost struct SpanV {
    pub path: Seq<char>,
    pub start: int,
    pub end: int,
}

impl View for Span {
    type V = SpanV;

    open spec fn view(&self) -> SpanV {
        SpanV { path: self.path@, start: self.start as int, end: self.end as int }
    }
}

/// One semantic object described by a record: a function, type, variable,
/// module or macro, with its qualified name, its completeness, its optional
/// parent (by local id) and its optional definition span.
#[derive(Clone, PartialEq, Eq, Debug)]
pub struct Entity {
    pub id: u32,
    pub qualname: String,
    pub kind: EntityKind,
    pub complete: bool,
    pub parent: Option<u32>,
    pub def_span: Option<Span>,
}

pub ghost struct EntityV {
    pub id: int,
    pub qualname: Seq<char>,
    pub kind: EntityKind,
    pub complete: bool,
    pub parent: Option<int>,
    pub def_span: Option<SpanV>,
}

impl View for Entity {
    type V = EntityV;

    open spec fn view(&self) -> EntityV {
        EntityV {
            id: self.id as int,
            qualname: self.qualname@,
            kind: self.kind,
            complete: self.complete,
            parent: match self.parent {
                Some(p) => Some(p as int),
                None => None,
            },
            def_span: match self.def_span {
                Some(s) => Some(s@),
                None => None,
            },
        }
    }
}

/// One use site: the span where something is mentioned, the local id of the
/// entity it should resolve to, and the qualified name to fall back on when
/// that id is not defined in the same record.
#[derive(Clone, PartialEq, Eq, Debug)]
pub struct Reference {
    pub span: Span,
    pub target_id: u32,
    pub target_qualname: String,
}

pub ghost struct ReferenceV {
    pub span: SpanV,
    pub target_id: int,
    pub target_qualname: Seq<char>,
}

impl View for Reference {
    type V = ReferenceV;

    open spec fn view(&self) -> ReferenceV {
        ReferenceV {
            span: self.span@,
            target_id: self.target_id as int,
            target_qualname: self.target_qualname@,
        }
    }
}

/// The analysis of one compiled crate.
#[derive(Clone, PartialEq, Eq, Debug)]
pub struct AnalysisRecord {
    pub name: String,
    pub entities: Vec<Entity>,
    pub refs: Vec<Reference>,
}

pub ghost struct RecordV {
    pub name: Seq<char>,
    pub entities: Seq<EntityV>,
    pub refs: Seq<ReferenceV>,
}

impl View for AnalysisRecord {
    type V = RecordV;

    open spec fn view(&self) -> RecordV {
        RecordV {
            name: self.name@,
            entities: self.entities@.map_values(|e: Entity| e@),
            refs: self.refs@.map_values(|r: Reference| r@),
        }
    }
}

// ---------------------------------------------------------------------------
// The artifact format, as a mathematical parser over byte sequences.  Each
// `sp_*` function either consumes a prefix starting at `pos` and returns the
// decoded value with the position after it, or rejects the input.
// ---------------------------------------------------------------------------

pub open spec fn sp_u32(b: Seq<u8>, pos: int) -> Option<(int, int)> {
    if 0 <= pos && pos + 4 <= b.len() {
        Some(
            (
                (b[pos] as int) + 256 * (b[pos + 1] as int) + 65536 * (b[pos + 2] as int)
                    + 16777216 * (b[pos + 3] as int),
                pos + 4,
            ),
        )
    } else {
        None
    }
}

pub open spec fn sp_str(b: Seq<u8>, pos: int) -> Option<(Seq<char>, int)> {
    match sp_u32(b, pos) {
        None => None,
        Some((n, p)) => if p + n <= b.len() && (forall|j: int|
            p <= j < p + n ==> (#[trigger] b[j] as int) < 128) {
            Some((Seq::new(n as nat, |j: int| b[p + j] as char), p + n))
        } else {
            None
        },
    }
}

pub open spec fn kind_code(k: EntityKind) -> int {
    match k {
        EntityKind::Function => 0,
        EntityKind::DataType => 1,
        EntityKind::Variable => 2,
        EntityKind::Module => 3,
        EntityKind::MacroDef => 4,
    }
}

pub open spec fn kind_of_code(c: int) -> EntityKind {
    if c == 0 {
        EntityKind::Function
    } else if c == 1 {
        EntityKind::DataType
    } else if c == 2 {
        EntityKind::Variable
    } else if c == 3 {
        EntityKind::Module
    } else {
        EntityKind::MacroDef
    }
}

pub open spec fn sp_kind(b: Seq<u8>, pos: int) -> Option<(EntityKind, int)> {
    if 0 <= pos < b.len() && (b[pos] as int) <= 4 {
        Some((kind_of_code(b[pos] as int), pos + 1))
    } else {
        None
    }
}

pub open spec fn sp_bool(b: Seq<u8>, pos: int) -> Option<(bool, int)> {
    if 0 <= pos < b.len() && (b[pos] as int) <= 1 {
        Some(((b[pos] as int) == 1, pos + 1))
    } else {
        None
    }
}

pub open spec fn sp_opt_u32(b: Seq<u8>, pos: int) -> Option<(Option<int>, int)> {
    match sp_bool(b, pos) {
        None => None,
        Some((present, p)) => if present {
            match sp_u32(b, p) {
                None => None,
                Some((v, q)) => Some((Some(v), q)),
            }
        } else {
            Some((None, p))
        },
    }
}

pub open spec fn sp_span(b: Seq<u8>, pos: int) -> Option<(SpanV, int)> {
    match sp_str(b, pos) {
        None => None,
        Some((path, p1)) => match sp_u32(b, p1) {
            None => None,
            Some((start, p2)) => match sp_u32(b, p2) {
                None => None,
                Some((end, p3)) => Some((SpanV { path, start, end }, p3)),
            },
        },
    }
}

pub open spec fn sp_opt_span(b: Seq<u8>, pos: int) -> Option<(Option<SpanV>, int)> {
    match sp_bool(b, pos) {
        None => None,
        Some((present, p)) => if present {
            match sp_span(b, p) {
                None => None,
                Some((s, q)) => Some((Some(s), q)),
            }
        } else {
            Some((None, p))
        },
    }
}

pub open spec fn sp_entity(b: Seq<u8>, pos: int) -> Option<(EntityV, int)> {
    match sp_u32(b, pos) {
        None => None,
        Some((id, p1)) => match sp_str(b, p1) {
            None => None,
            Some((qualname, p2)) => match sp_kind(b, p2) {
                None => None,
                Some((kind, p3)) => match sp_bool(b, p3) {
                    None => None,
                    Some((complete, p4)) => match sp_opt_u32(b, p4) {
                        None => None,
                        Some((parent, p5)) => match sp_opt_span(b, p5) {
                            None => None,
                            Some((def_span, p6)) => Some(
                                (EntityV { id, qualname, kind, complete, parent, def_span }, p6),
                            ),
                        },
                    },
                },
            },
        },
    }
}

pub open spec fn sp_reference(b: Seq<u8>, pos: int) -> Option<(ReferenceV, int)> {
    match sp_span(b, pos) {
        None => None,
        Some((span, p1)) => match sp_u32(b, p1) {
            None => None,
            Some((target_id, p2)) => match sp_str(b, p2) {
                None => None,
                Some((target_qualname, p3)) => Some(
                    (ReferenceV { span, target_id, target_qualname }, p3),
                ),
            },
        },
    }
}

pub open spec fn sp_entities(b: Seq<u8>, pos: int, n: nat) -> Option<(Seq<EntityV>, int)>
    decreases n,
{
    if n == 0 {
        Some((Seq::empty(), pos))
    } else {
        match sp_entity(b, pos) {
            None => None,
            Some((e, p)) => match sp_entities(b, p, (n - 1) as nat) {
                None => None,
                Some((rest, q)) => Some((seq![e] + rest, q)),
            },
        }
    }
}

pub open spec fn sp_references(b: Seq<u8>, pos: int, n: nat) -> Option<(Seq<ReferenceV>, int)>
    decreases n,
{
    if n == 0 {
        Some((Seq::empty(), pos))
    } else {
        match sp_reference(b, pos) {
            None => None,
            Some((r, p)) => match sp_references(b, p, (n - 1) as nat) {
                None => None,
                Some((rest, q)) => Some((seq![r] + rest, q)),
            },
        }
    }
}

/// The whole artifact: a record that consumes every byte, or nothing.
pub open spec fn sp_record(b: Seq<u8>) -> Option<RecordV> {
    match sp_str(b, 0) {
        None => None,
        Some((name, p1)) => match sp_u32(b, p1) {
            None => None,
            Some((ne, p2)) => match sp_entities(b, p2, ne as nat) {
                None => None,
                Some((entities, p3)) => match sp_u32(b, p3) {
                    None => None,
                    Some((nr, p4)) => match sp_references(b, p4, nr as nat) {
                        None => None,
                        Some((refs, p5)) => if p5 == b.len() {
                            Some(RecordV { name, entities, refs })
                        } else {
                            None
                        },
                    },
                },
            },
        },
    }
}

// ---------------------------------------------------------------------------
// The executable decoder.  Each function returns exactly what the spec
// parser above says it returns.
// ---------------------------------------------------------------------------

/// Relies on `String::from_utf8`: a sequence of ASCII bytes is valid UTF-8
/// and decodes to exactly the characters with those code points.
#[verifier::external_body]
fn ascii_string(bytes: &[u8]) -> (r: String)
    requires
        forall|j: int| 0 <= j < bytes@.len() ==> (#[trigger] bytes@[j] as int) < 128,
    ensures
        r@ == Seq::new(bytes@.len(), |j: int| bytes@[j] as char),
{
    String::from_utf8(bytes.to_vec()).unwrap()
}

fn parse_u32(b: &Vec<u8>, pos: usize) -> (r: Option<(u32, usize)>)
    requires
        pos <= b@.len(),
    ensures
        r matches Some((v, p)) ==> pos <= p <= b@.len() && sp_u32(b@, pos as int) == Some(
            ((v as int), (p as int)),
        ),
        r is None ==> sp_u32(b@, pos as int) is None,
{
    if b.len() - pos >= 4 {
        let v: u32 = (b[pos] as u32) + 256 * (b[pos + 1] as u32) + 65536 * (b[pos + 2] as u32)
            + 16777216 * (b[pos + 3] as u32);
        Some((v, pos + 4))
    } else {
        None
    }
}

fn parse_str(b: &Vec<u8>, pos: usize) -> (r: Option<(String, usize)>)
    requires
        pos <= b@.len(),
    ensures
        r matches Some((s, p)) ==> pos <= p <= b@.len() && sp_str(b@, pos as int) == Some(
            (s@, (p as int)),
        ),
        r is None ==> sp_str(b@, pos as int) is None,
{
    match parse_u32(b, pos) {
        None => None,
        Some((n, p)) => {
            if (n as usize) <= b.len() - p {
                let q = p + (n as usize);
                let mut j = p;
                while j < q
                    invariant
                        p <= j <= q <= b@.len(),
                        q == p + (n as usize),
                        sp_u32(b@, pos as int) == Some::<(int, int)>((n as int, p as int)),
                        forall|k: int| p <= k < j ==> (#[trigger] b@[k] as int) < 128,
                    decreases q - j,
                {
                    if b[j] >= 128 {
                        proof {
                            let pp = p as int;
                            let nn = n as int;
                            assert(!(forall|k: int|
                                pp <= k < pp + nn ==> (#[trigger] b@[k] as int) < 128)) by {
                                assert(pp <= (j as int) && (j as int) < pp + nn);
                                assert(!((b@[j as int] as int) < 128));
                            }
                        }
                        return None;
                    }
                    j = j + 1;
                }
                let sl = slice_subrange(b.as_slice(), p, q);
                let s = ascii_string(sl);
                proof {
                    assert(s@ =~= Seq::new(n as nat, |k: int| b@[p + k] as char));
                }
                Some((s, q))
            } else {
                None
            }
        },
    }
}

fn parse_kind(b: &Vec<u8>, pos: usize) -> (r: Option<(EntityKind, usize)>)
    requires
        pos <= b@.len(),
    ensures
        r matches Some((v, p)) ==> pos <= p <= b@.len() && sp_kind(b@, pos as int) == Some(
            (v, (p as int)),
        ),
        r is None ==> sp_kind(b@, pos as int) is None,
{
    if pos < b.len() && b[pos] <= 4 {
        let k = match b[pos] {
            0 => EntityKind::Function,
            1 => EntityKind::DataType,
            2 => EntityKind::Variable,
            3 => EntityKind::Module,
            _ => EntityKind::MacroDef,
        };
        Some((k, pos + 1))
    } else {
        None
    }
}

fn parse_bool(b: &Vec<u8>, pos: usize) -> (r: Option<(bool, usize)>)
    requires
        pos <= b@.len(),
    ensures
        r matches Some((v, p)) ==> pos <= p <= b@.len() && sp_bool(b@, pos as int) == Some(
            (v, (p as int)),
        ),
        r is None ==> sp_bool(b@, pos as int) is None,
{
    if pos < b.len() && b[pos] <= 1 {
        Some((b[pos] == 1, pos + 1))
    } else {
        None
    }
}

pub open spec fn opt_u32_view(v: Option<u32>) -> Option<int> {
    match v {
        Some(x) => Some(x as int),
        None => None,
    }
}

fn parse_opt_u32(b: &Vec<u8>, pos: usize) -> (r: Option<(Option<u32>, usize)>)
    requires
        pos <= b@.len(),
    ensures
        r matches Some((v, p)) ==> pos <= p <= b@.len() && sp_opt_u32(b@, pos as int) == Some(
            (opt_u32_view(v), (p as int)),
        ),
        r is None ==> sp_opt_u32(b@, pos as int) is None,
{
    match parse_bool(b, pos) {
        None => None,
        Some((present, p)) => {
            if present {
                match parse_u32(b, p) {
                    None => None,
                    Some((v, q)) => Some((Some(v), q)),
                }
            } else {
                Some((None, p))
            }
        },
    }
}

fn parse_span(b: &Vec<u8>, pos: usize) -> (r: Option<(Span, usize)>)
    requires
        pos <= b@.len(),
    ensures
        r matches Some((v, p)) ==> pos <= p <= b@.len() && sp_span(b@, pos as int) == Some(
            (v@, (p as int)),
        ),
        r is None ==> sp_span(b@, pos as int) is None,
{
    match parse_str(b, pos) {
        None => None,
        Some((path, p1)) => match parse_u32(b, p1) {
            None => None,
            Some((start, p2)) => match parse_u32(b, p2) {
                None => None,
                Some((end, p3)) => Some((Span { path, start, end }, p3)),
            },
        },
    }
}

pub open spec fn opt_span_view(v: Option<Span>) -> Option<SpanV> {
    match v {
        Some(x) => Some(x@),
        None => None,
    }
}

fn parse_opt_span(b: &Vec<u8>, pos: usize) -> (r: Option<(Option<Span>, usize)>)
    requires
        pos <= b@.len(),
    ensures
        r matches Some((v, p)) ==> pos <= p <= b@.len() && sp_opt_span(b@, pos as int) == Some(
            (opt_span_view(v), (p as int)),
        ),
        r is None ==> sp_opt_span(b@, pos as int) is None,
{
    match parse_bool(b, pos) {
        None => None,
        Some((present, p)) => {
            if present {
                match parse_span(b, p) {
                    None => None,
                    Some((s, q)) => Some((Some(s), q)),
                }
            } else {
                Some((None, p))
            }
        },
    }
}

fn parse_entity(b: &Vec<u8>, pos: usize) -> (r: Option<(Entity, usize)>)
    requires
        pos <= b@.len(),
    ensures
        r matches Some((v, p)) ==> pos <= p <= b@.len() && sp_entity(b@, pos as int) == Some(
            (v@, (p as int)),
        ),
        r is None ==> sp_entity(b@, pos as int) is None,
{
    match parse_u32(b, pos) {
        None => None,
        Some((id, p1)) => match parse_str(b, p1) {
            None => None,
            Some((qualname, p2)) => match parse_kind(b, p2) {
                None => None,
                Some((kind, p3)) => match parse_bool(b, p3) {
                    None => None,
                    Some((complete, p4)) => match parse_opt_u32(b, p4) {
                        None => None,
                        Some((parent, p5)) => match parse_opt_span(b, p5) {
                            None => None,
                            Some((def_span, p6)) => Some(
                                (Entity { id, qualname, kind, complete, parent, def_span }, p6),
                            ),
                        },
                    },
                },
            },
        },
    }
}

fn parse_reference(b: &Vec<u8>, pos: usize) -> (r: Option<(Reference, usize)>)
    requires
        pos <= b@.len(),
    ensures
        r matches Some((v, p)) ==> pos <= p <= b@.len() && sp_reference(b@, pos as int) == Some(
            (v@, (p as int)),
        ),
        r is None ==> sp_reference(b@, pos as int) is None,
{
    match parse_span(b, pos) {
        None => None,
        Some((span, p1)) => match parse_u32(b, p1) {
            None => None,
            Some((target_id, p2)) => match parse_str(b, p2) {
                None => None,
                Some((target_qualname, p3)) => Some(
                    (Reference { span, target_id, target_qualname }, p3),
                ),
            },
        },
    }
}

spec fn ents_inv(b: Seq<u8>, pos0: int, n0: nat, out: Seq<EntityV>, p: int, rem: nat) -> bool {
    match sp_entities(b, p, rem) {
        None => sp_entities(b, pos0, n0) is None,
        Some((rest, q)) => sp_entities(b, pos0, n0) == Some::<(Seq<EntityV>, int)>(
            (out + rest, q),
        ),
    }
}

fn parse_entities(b: &Vec<u8>, pos: usize, n: u32) -> (r: Option<(Vec<Entity>, usize)>)
    requires
        pos <= b@.len(),
    ensures
        r matches Some((v, p)) ==> pos <= p <= b@.len() && sp_entities(b@, pos as int, n as nat)
            == Some((v@.map_values(|e: Entity| e@), (p as int))),
        r is None ==> sp_entities(b@, pos as int, n as nat) is None,
{
    let mut out: Vec<Entity> = Vec::new();
    let mut p = pos;
    let mut k: u32 = 0;
    proof {
        assert(out@.map_values(|e: Entity| e@) + sp_entities(b@, pos as int, n as nat)->Some_0.0
            =~= sp_entities(b@, pos as int, n as nat)->Some_0.0);
    }
    while k < n
        invariant
            pos <= p <= b@.len(),
            k <= n,
            ents_inv(
                b@,
                pos as int,
                n as nat,
                out@.map_values(|e: Entity| e@),
                p as int,
                (n - k) as nat,
            ),
        decreases n - k,
    {
        let ghost out_before = out@.map_values(|e: Entity| e@);
        match parse_entity(b, p) {
            None => {
                return None;
            },
            Some((e, p2)) => {
                let ghost ev = e@;
                out.push(e);
                proof {
                    assert(out@.map_values(|e: Entity| e@) =~= out_before.push(ev));
                    let sub = sp_entities(b@, p2 as int, (n - k - 1) as nat);
                    if sub is Some {
                        let rest2 = sub->Some_0.0;
                        assert(out_before + (seq![ev] + rest2) =~= out_before.push(ev) + rest2);
                    }
                }
                p = p2;
                k = k + 1;
            },
        }
    }
    proof {
        assert(out@.map_values(|e: Entity| e@) + Seq::<EntityV>::empty() =~= out@.map_values(
            |e: Entity| e@,
        ));
    }
    Some((out, p))
}

spec fn refs_inv(b: Seq<u8>, pos0: int, n0: nat, out: Seq<ReferenceV>, p: int, rem: nat) -> bool {
    match sp_references(b, p, rem) {
        None => sp_references(b, pos0, n0) is None,
        Some((rest, q)) => sp_references(b, pos0, n0) == Some::<(Seq<ReferenceV>, int)>(
            (out + rest, q),
        ),
    }
}

fn parse_references(b: &Vec<u8>, pos: usize, n: u32) -> (r: Option<(Vec<Reference>, usize)>)
    requires
        pos <= b@.len(),
    ensures
        r matches Some((v, p)) ==> pos <= p <= b@.len() && sp_references(b@, pos as int, n as nat)
            == Some((v@.map_values(|x: Reference| x@), (p as int))),
        r is None ==> sp_references(b@, pos as int, n as nat) is None,
{
    let mut out: Vec<Reference> = Vec::new();
    let mut p = pos;
    let mut k: u32 = 0;
    proof {
        assert(out@.map_values(|x: Reference| x@) + sp_references(
            b@,
            pos as int,
            n as nat,
        )->Some_0.0 =~= sp_references(b@, pos as int, n as nat)->Some_0.0);
    }
    while k < n
        invariant
            pos <= p <= b@.len(),
            k <= n,
            refs_inv(
                b@,
                pos as int,
                n as nat,
                out@.map_values(|x: Reference| x@),
                p as int,
                (n - k) as nat,
            ),
        decreases n - k,
    {
        let ghost out_before = out@.map_values(|x: Reference| x@);
        match parse_reference(b, p) {
            None => {
                return None;
            },
            Some((e, p2)) => {
                let ghost ev = e@;
                out.push(e);
                proof {
                    assert(out@.map_values(|x: Reference| x@) =~= out_before.push(ev));
                    let sub = sp_references(b@, p2 as int, (n - k - 1) as nat);
                    if sub is Some {
                        let rest2 = sub->Some_0.0;
                        assert(out_before + (seq![ev] + rest2) =~= out_before.push(ev) + rest2);
                    }
                }
                p = p2;
                k = k + 1;
            },
        }
    }
    proof {
        assert(out@.map_values(|x: Reference| x@) + Seq::<ReferenceV>::empty() =~= out@.map_values(
            |x: Reference| x@,
        ));
    }
    Some((out, p))
}

/// Decodes one artifact; `None` exactly when the bytes are not a whole,
/// well-formed record.
pub fn parse_record(b: &Vec<u8>) -> (r: Option<AnalysisRecord>)
    ensures
        r matches Some(rec) ==> sp_record(b@) == Some(rec@),
        r is None ==> sp_record(b@) is None,
{
    match parse_str(b, 0) {
        None => None,
        Some((name, p1)) => match parse_u32(b, p1) {
            None => None,
            Some((ne, p2)) => match parse_entities(b, p2, ne) {
                None => None,
                Some((entities, p3)) => match parse_u32(b, p3) {
                    None => None,
                    Some((nr, p4)) => match parse_references(b, p4, nr) {
                        None => None,
                        Some((refs, p5)) => if p5 == b.len() {
                            Some(AnalysisRecord { name, entities, refs })
                        } else {
                            None
                        },
                    },
                },
            },
        },
    }
}

// ---------------------------------------------------------------------------
// The canonical encoding, the inverse direction of the format: what bytes a
// record is stored as.  The encoder lets a producer (and the tests) build
// artifacts that the loader accepts.
// ---------------------------------------------------------------------------

pub open spec fn enc_u32(n: int) -> Seq<u8> {
    seq![
        (n % 256) as u8,
        ((n / 256) % 256) as u8,
        ((n / 65536) % 256) as u8,
        ((n / 16777216) % 256) as u8,
    ]
}

/// A string can be stored when it is ASCII and its length fits the length
/// prefix.
pub open spec fn str_ok(s: Seq<char>) -> bool {
    vstd::utf8::is_ascii_chars(s) && s.len() < 4294967296
}

pub open spec fn enc_str(s: Seq<char>) -> Seq<u8> {
    enc_u32(s.len() as int) + s.map_values(|c: char| c as u8)
}

pub open spec fn enc_bool(v: bool) -> Seq<u8> {
    seq![if v { 1u8 } else { 0u8 }]
}

pub open spec fn enc_opt_u32(v: Option<int>) -> Seq<u8> {
    match v {
        None => enc_bool(false),
        Some(x) => enc_bool(true) + enc_u32(x),
    }
}

pub open spec fn enc_span(s: SpanV) -> Seq<u8> {
    enc_str(s.path) + enc_u32(s.start) + enc_u32(s.end)
}

pub open spec fn enc_opt_span(v: Option<SpanV>) -> Seq<u8> {
    match v {
        None => enc_bool(false),
        Some(s) => enc_bool(true) + enc_span(s),
    }
}

pub open spec fn enc_entity(e: EntityV) -> Seq<u8> {
    enc_u32(e.id) + enc_str(e.qualname) + seq![kind_code(e.kind) as u8] + enc_bool(e.complete)
        + enc_opt_u32(e.parent) + enc_opt_span(e.def_span)
}

pub open spec fn enc_reference(r: ReferenceV) -> Seq<u8> {
    enc_span(r.span) + enc_u32(r.target_id) + enc_str(r.target_qualname)
}

pub open spec fn enc_entities(es: Seq<EntityV>) -> Seq<u8>
    decreases es.len(),
{
    if es.len() == 0 {
        Seq::empty()
    } else {
        enc_entities(es.drop_last()) + enc_entity(es.last())
    }
}

pub open spec fn enc_references(rs: Seq<ReferenceV>) -> Seq<u8>
    decreases rs.len(),
{
    if rs.len() == 0 {
        Seq::empty()
    } else {
        enc_references(rs.drop_last()) + enc_reference(rs.last())
    }
}

pub open spec fn enc_record(r: RecordV) -> Seq<u8> {
    enc_str(r.name) + enc_u32(r.entities.len() as int) + enc_entities(r.entities) + enc_u32(
        r.refs.len() as int,
    ) + enc_references(r.refs)
}

pub open spec fn span_encodable(sp: SpanV) -> bool {
    str_ok(sp.path) && 0 <= sp.start < 4294967296 && 0 <= sp.end < 4294967296
}

pub open spec fn entity_encodable(e: EntityV) -> bool {
    &&& str_ok(e.qualname)
    &&& 0 <= e.id < 4294967296
    &&& match e.parent {
        Some(p) => 0 <= p < 4294967296,
        None => true,
    }
    &&& match e.def_span {
        Some(sp) => span_encodable(sp),
        None => true,
    }
}

pub open spec fn reference_encodable(r: ReferenceV) -> bool {
    str_ok(r.target_qualname) && span_encodable(r.span) && 0 <= r.target_id < 4294967296
}

/// A record can be stored when its strings are ASCII and its counts fit the
/// 32-bit prefixes.
pub open spec fn record_encodable(r: RecordV) -> bool {
    &&& str_ok(r.name)
    &&& r.entities.len() < 4294967296
    &&& r.refs.len() < 4294967296
    &&& forall|i: int| 0 <= i < r.entities.len() ==> entity_encodable(#[trigger] r.entities[i])
    &&& forall|i: int| 0 <= i < r.refs.len() ==> reference_encodable(#[trigger] r.refs[i])
}

fn push_u32(out: &mut Vec<u8>, n: u32)
    ensures
        final(out)@ == old(out)@ + enc_u32(n as int),
{
    let ghost before = out@;
    out.push((n % 256) as u8);
    out.push(((n / 256) % 256) as u8);
    out.push(((n / 65536) % 256) as u8);
    out.push(((n / 16777216) % 256) as u8);
    proof {
        assert(out@ =~= before + enc_u32(n as int));
    }
}

fn push_str(out: &mut Vec<u8>, s: &String)
    requires
        str_ok(s@),
    ensures
        final(out)@ == old(out)@ + enc_str(s@),
{
    let ghost before = out@;
    let bs = s.as_str().as_bytes();
    proof {
        vstd::utf8::is_ascii_chars_encode_utf8(s@);
    }
    push_u32(out, bs.len() as u32);
    let mut i: usize = 0;
    let n = bs.len();
    while i < n
        invariant
            i <= n,
            n == bs@.len(),
            bs@.len() == s@.len(),
            forall|k: int|
                0 <= k < bs@.len() ==> #[trigger] bs@[k] == (s@[k] as u8),
            out@ == before + enc_u32(s@.len() as int) + bs@.take(i as int),
        decreases n - i,
    {
        out.push(bs[i]);
        proof {
            assert(bs@.take(i + 1) =~= bs@.take(i as int).push(bs@[i as int]));
            assert(out@ =~= before + enc_u32(s@.len() as int) + bs@.take(i + 1));
        }
        i = i + 1;
    }
    proof {
        assert(bs@.take(n as int) =~= bs@);
        assert(bs@ =~= s@.map_values(|c: char| c as u8));
        assert(out@ =~= before + enc_str(s@));
    }
}

fn push_bool(out: &mut Vec<u8>, v: bool)
    ensures
        final(out)@ == old(out)@ + enc_bool(v),
{
    let ghost before = out@;
    out.push(if v { 1u8 } else { 0u8 });
    proof {
        assert(out@ =~= before + enc_bool(v));
    }
}

fn push_span(out: &mut Vec<u8>, s: &Span)
    requires
        str_ok(s.path@),
    ensures
        final(out)@ == old(out)@ + enc_span(s@),
{
    push_str(out, &s.path);
    push_u32(out, s.start);
    push_u32(out, s.end);
}

#[verifier::rlimit(50)]
fn push_entity(out: &mut Vec<u8>, e: &Entity)
    requires
        entity_encodable(e@),
    ensures
        final(out)@ == old(out)@ + enc_entity(e@),
{
    push_u32(out, e.id);
    push_str(out, &e.qualname);
    let kind_byte: u8 = match e.kind {
        EntityKind::Function => 0,
        EntityKind::DataType => 1,
        EntityKind::Variable => 2,
        EntityKind::Module => 3,
        EntityKind::MacroDef => 4,
    };
    let ghost mid = out@;
    out.push(kind_byte);
    proof {
        assert(out@ =~= mid + seq![kind_code(e@.kind) as u8]);
    }
    push_bool(out, e.complete);
    match &e.parent {
        None => push_bool(out, false),
        Some(p) => {
            push_bool(out, true);
            push_u32(out, *p);
        },
    }
    match &e.def_span {
        None => push_bool(out, false),
        Some(sp) => {
            push_bool(out, true);
            push_span(out, sp);
        },
    }
    proof {
        assert(out@ =~= old(out)@ + enc_entity(e@));
    }
}

fn push_reference(out: &mut Vec<u8>, r: &Reference)
    requires
        reference_encodable(r@),
    ensures
        final(out)@ == old(out)@ + enc_reference(r@),
{
    push_span(out, &r.span);
    push_u32(out, r.target_id);
    push_str(out, &r.target_qualname);
}

/// Encodes one record as artifact bytes.
pub fn encode_record(r: &AnalysisRecord) -> (b: Vec<u8>)
    requires
        record_encodable(r@),
    ensures
        b@ == enc_record(r@),
{
    let mut out: Vec<u8> = Vec::new();
    proof {
        assert(out@ =~= Seq::<u8>::empty());
        assert(Seq::<u8>::empty() + enc_str(r@.name) =~= enc_str(r@.name));
    }
    push_str(&mut out, &r.name);
    push_u32(&mut out, r.entities.len() as u32);
    let ghost head = out@;
    let mut i: usize = 0;
    let n = r.entities.len();
    while i < n
        invariant
            i <= n,
            n == r@.entities.len(),
            record_encodable(r@),
            out@ == head + enc_entities(r@.entities.take(i as int)),
        decreases n - i,
    {
        proof {
            assert(r@.entities[i as int] == r.entities@[i as int]@);
        }
        push_entity(&mut out, &r.entities[i]);
        proof {
            let es = r@.entities;
            assert(es.take(i + 1).drop_last() =~= es.take(i as int));
            assert(es.take(i + 1).last() == es[i as int]);
            assert(out@ =~= head + enc_entities(es.take(i + 1)));
        }
        i = i + 1;
    }
    proof {
        assert(r@.entities.take(n as int) =~= r@.entities);
    }
    push_u32(&mut out, r.refs.len() as u32);
    let ghost head2 = out@;
    let mut j: usize = 0;
    let m = r.refs.len();
    while j < m
        invariant
            j <= m,
            m == r@.refs.len(),
            record_encodable(r@),
            out@ == head2 + enc_references(r@.refs.take(j as int)),
        decreases m - j,
    {
        proof {
            assert(r@.refs[j as int] == r.refs@[j as int]@);
        }
        push_reference(&mut out, &r.refs[j]);
        proof {
            let rs = r@.refs;
            assert(rs.take(j + 1).drop_last() =~= rs.take(j as int));
            assert(rs.take(j + 1).last() == rs[j as int]);
            assert(out@ =~= head2 + enc_references(rs.take(j + 1)));
        }
        j = j + 1;
    }
    proof {
        assert(r@.refs.take(m as int) =~= r@.refs);
        assert(out@ =~= enc_record(r@));
    }
    out
}

// ---------------------------------------------------------------------------
// The format is lossless: a record's canonical encoding decodes back to
// that record.
// ---------------------------------------------------------------------------

proof fn lemma_subrange_split(b: Seq<u8>, pos: int, x: Seq<u8>, y: Seq<u8>)
    requires
        0 <= pos,
        pos + x.len() + y.len() <= b.len(),
        b.subrange(pos, pos + x.len() + y.len()) == x + y,
    ensures
        b.subrange(pos, pos + x.len()) == x,
        b.subrange(pos + x.len(), pos + x.len() + y.len()) == y,
{
    assert(b.subrange(pos, pos + x.len()) =~= x);
    assert forall|k: int|
        0 <= k < y.len() implies b.subrange(pos + x.len(), pos + x.len() + y.len())[k] == y[k] by {
        assert(b[pos + x.len() + k] == b.subrange(pos, pos + x.len() + y.len())[x.len() + k]);
    }
    assert(b.subrange(pos + x.len(), pos + x.len() + y.len()) =~= y);
}

proof fn lemma_sp_u32_of_enc(b: Seq<u8>, pos: int, n: int)
    requires
        0 <= n < 4294967296,
        0 <= pos,
        pos + 4 <= b.len(),
        b.subrange(pos, pos + 4) == enc_u32(n),
    ensures
        sp_u32(b, pos) == Some::<(int, int)>((n, pos + 4)),
{
    assert(b[pos] == enc_u32(n)[0]);
    assert(b[pos + 1] == enc_u32(n)[1]);
    assert(b[pos + 2] == enc_u32(n)[2]);
    assert(b[pos + 3] == enc_u32(n)[3]);
    assert((b[pos] as int) + 256 * (b[pos + 1] as int) + 65536 * (b[pos + 2] as int) + 16777216 * (
    b[pos + 3] as int) == n) by (nonlinear_arith)
        requires
            0 <= n < 4294967296,
            b[pos] as int == n % 256,
            b[pos + 1] as int == (n / 256) % 256,
            b[pos + 2] as int == (n / 65536) % 256,
            b[pos + 3] as int == (n / 16777216) % 256,
    ;
}

proof fn lemma_sp_str_of_enc(b: Seq<u8>, pos: int, s: Seq<char>)
    requires
        str_ok(s),
        0 <= pos,
        pos + enc_str(s).len() <= b.len(),
        b.subrange(pos, pos + enc_str(s).len()) == enc_str(s),
    ensures
        sp_str(b, pos) == Some::<(Seq<char>, int)>((s, pos + enc_str(s).len())),
{
    let n = s.len() as int;
    let es = enc_str(s);
    let body = s.map_values(|c: char| c as u8);
    lemma_subrange_split(b, pos, enc_u32(n), body);
    lemma_sp_u32_of_enc(b, pos, n);
    let p = pos + 4;
    assert forall|j: int| p <= j < p + n implies (#[trigger] b[j] as int) < 128 by {
        assert(b[j] == b.subrange(p, p + n)[j - p]);
        assert(body[j - p] == s[j - p] as u8);
        assert('\0' <= s[j - p] <= '\u{7f}');
    }
    let decoded = Seq::new(n as nat, |j: int| b[p + j] as char);
    assert forall|j: int| 0 <= j < n implies decoded[j] == s[j] by {
        assert(b[p + j] == b.subrange(p, p + n)[j]);
        assert(body[j] == s[j] as u8);
        assert('\0' <= s[j] <= '\u{7f}');
    }
    assert(decoded =~= s);
}

proof fn lemma_sp_bool_of_enc(b: Seq<u8>, pos: int, v: bool)
    requires
        0 <= pos,
        pos + 1 <= b.len(),
        b.subrange(pos, pos + 1) == enc_bool(v),
    ensures
        sp_bool(b, pos) == Some::<(bool, int)>((v, pos + 1)),
{
    assert(b[pos] == enc_bool(v)[0]);
}

proof fn lemma_sp_kind_of_enc(b: Seq<u8>, pos: int, k: EntityKind)
    requires
        0 <= pos,
        pos + 1 <= b.len(),
        b.subrange(pos, pos + 1) == seq![kind_code(k) as u8],
    ensures
        sp_kind(b, pos) == Some::<(EntityKind, int)>((k, pos + 1)),
{
    assert(b[pos] == seq![kind_code(k) as u8][0]);
}

proof fn lemma_sp_opt_u32_of_enc(b: Seq<u8>, pos: int, v: Option<int>)
    requires
        0 <= pos,
        pos + enc_opt_u32(v).len() <= b.len(),
        b.subrange(pos, pos + enc_opt_u32(v).len()) == enc_opt_u32(v),
        v matches Some(x) ==> 0 <= x < 4294967296,
    ensures
        sp_opt_u32(b, pos) == Some::<(Option<int>, int)>((v, pos + enc_opt_u32(v).len())),
{
    match v {
        None => {
            lemma_sp_bool_of_enc(b, pos, false);
        },
        Some(x) => {
            lemma_subrange_split(b, pos, enc_bool(true), enc_u32(x));
            lemma_sp_bool_of_enc(b, pos, true);
            lemma_sp_u32_of_enc(b, pos + 1, x);
        },
    }
}

proof fn lemma_sp_span_of_enc(b: Seq<u8>, pos: int, sp: SpanV)
    requires
        span_encodable(sp),
        0 <= pos,
        pos + enc_span(sp).len() <= b.len(),
        b.subrange(pos, pos + enc_span(sp).len()) == enc_span(sp),
    ensures
        sp_span(b, pos) == Some::<(SpanV, int)>((sp, pos + enc_span(sp).len())),
{
    let tail = enc_u32(sp.start) + enc_u32(sp.end);
    assert(enc_span(sp) =~= enc_str(sp.path) + tail);
    lemma_subrange_split(b, pos, enc_str(sp.path), tail);
    lemma_sp_str_of_enc(b, pos, sp.path);
    let p1 = pos + enc_str(sp.path).len();
    lemma_subrange_split(b, p1, enc_u32(sp.start), enc_u32(sp.end));
    lemma_sp_u32_of_enc(b, p1, sp.start);
    lemma_sp_u32_of_enc(b, p1 + 4, sp.end);
}

proof fn lemma_sp_opt_span_of_enc(b: Seq<u8>, pos: int, v: Option<SpanV>)
    requires
        0 <= pos,
        pos + enc_opt_span(v).len() <= b.len(),
        b.subrange(pos, pos + enc_opt_span(v).len()) == enc_opt_span(v),
        v matches Some(sp) ==> span_encodable(sp),
    ensures
        sp_opt_span(b, pos) == Some::<(Option<SpanV>, int)>((v, pos + enc_opt_span(v).len())),
{
    match v {
        None => {
            lemma_sp_bool_of_enc(b, pos, false);
        },
        Some(sp) => {
            lemma_subrange_split(b, pos, enc_bool(true), enc_span(sp));
            lemma_sp_bool_of_enc(b, pos, true);
            lemma_sp_span_of_enc(b, pos + 1, sp);
        },
    }
}

#[verifier::rlimit(100)]
proof fn lemma_sp_entity_of_enc(b: Seq<u8>, pos: int, e: EntityV)
    requires
        entity_encodable(e),
        0 <= pos,
        pos + enc_entity(e).len() <= b.len(),
        b.subrange(pos, pos + enc_entity(e).len()) == enc_entity(e),
    ensures
        sp_entity(b, pos) == Some::<(EntityV, int)>((e, pos + enc_entity(e).len())),
{
    let kindb: Seq<u8> = seq![kind_code(e.kind) as u8];
    let rest1 = enc_str(e.qualname) + kindb + enc_bool(e.complete) + enc_opt_u32(e.parent)
        + enc_opt_span(e.def_span);
    assert(enc_entity(e) =~= enc_u32(e.id) + rest1);
    lemma_subrange_split(b, pos, enc_u32(e.id), rest1);
    lemma_sp_u32_of_enc(b, pos, e.id);
    let p1 = pos + 4;
    let rest2 = kindb + enc_bool(e.complete) + enc_opt_u32(e.parent) + enc_opt_span(e.def_span);
    assert(rest1 =~= enc_str(e.qualname) + rest2);
    lemma_subrange_split(b, p1, enc_str(e.qualname), rest2);
    lemma_sp_str_of_enc(b, p1, e.qualname);
    let p2 = p1 + enc_str(e.qualname).len();
    let rest3 = enc_bool(e.complete) + enc_opt_u32(e.parent) + enc_opt_span(e.def_span);
    assert(rest2 =~= kindb + rest3);
    lemma_subrange_split(b, p2, kindb, rest3);
    lemma_sp_kind_of_enc(b, p2, e.kind);
    let p3 = p2 + 1;
    let rest4 = enc_opt_u32(e.parent) + enc_opt_span(e.def_span);
    assert(rest3 =~= enc_bool(e.complete) + rest4);
    lemma_subrange_split(b, p3, enc_bool(e.complete), rest4);
    lemma_sp_bool_of_enc(b, p3, e.complete);
    let p4 = p3 + 1;
    lemma_subrange_split(b, p4, enc_opt_u32(e.parent), enc_opt_span(e.def_span));
    lemma_sp_opt_u32_of_enc(b, p4, e.parent);
    let p5 = p4 + enc_opt_u32(e.parent).len();
    lemma_sp_opt_span_of_enc(b, p5, e.def_span);
}

proof fn lemma_sp_reference_of_enc(b: Seq<u8>, pos: int, r: ReferenceV)
    requires
        reference_encodable(r),
        0 <= pos,
        pos + enc_reference(r).len() <= b.len(),
        b.subrange(pos, pos + enc_reference(r).len()) == enc_reference(r),
    ensures
        sp_reference(b, pos) == Some::<(ReferenceV, int)>((r, pos + enc_reference(r).len())),
{
    let rest1 = enc_u32(r.target_id) + enc_str(r.target_qualname);
    assert(enc_reference(r) =~= enc_span(r.span) + rest1);
    lemma_subrange_split(b, pos, enc_span(r.span), rest1);
    lemma_sp_span_of_enc(b, pos, r.span);
    let p1 = pos + enc_span(r.span).len();
    lemma_subrange_split(b, p1, enc_u32(r.target_id), enc_str(r.target_qualname));
    lemma_sp_u32_of_enc(b, p1, r.target_id);
    lemma_sp_str_of_enc(b, p1 + 4, r.target_qualname);
}

proof fn lemma_enc_entities_first(es: Seq<EntityV>)
    requires
        es.len() > 0,
    ensures
        enc_entities(es) == enc_entity(es[0]) + enc_entities(es.drop_first()),
    decreases es.len(),
{
    if es.len() == 1 {
        assert(es.drop_last() =~= Seq::<EntityV>::empty());
        assert(es.drop_first() =~= Seq::<EntityV>::empty());
        assert(enc_entities(es) =~= enc_entity(es[0]) + enc_entities(es.drop_first()));
    } else {
        lemma_enc_entities_first(es.drop_last());
        assert(es.drop_last().drop_first() =~= es.drop_first().drop_last());
        assert(es.drop_first().last() == es.last());
        assert(enc_entities(es) =~= enc_entity(es[0]) + enc_entities(es.drop_first()));
    }
}

proof fn lemma_enc_references_first(rs: Seq<ReferenceV>)
    requires
        rs.len() > 0,
    ensures
        enc_references(rs) == enc_reference(rs[0]) + enc_references(rs.drop_first()),
    decreases rs.len(),
{
    if rs.len() == 1 {
        assert(rs.drop_last() =~= Seq::<ReferenceV>::empty());
        assert(rs.drop_first() =~= Seq::<ReferenceV>::empty());
        assert(enc_references(rs) =~= enc_reference(rs[0]) + enc_references(rs.drop_first()));
    } else {
        lemma_enc_references_first(rs.drop_last());
        assert(rs.drop_last().drop_first() =~= rs.drop_first().drop_last());
        assert(rs.drop_first().last() == rs.last());
        assert(enc_references(rs) =~= enc_reference(rs[0]) + enc_references(rs.drop_first()));
    }
}

proof fn lemma_sp_entities_of_enc(b: Seq<u8>, pos: int, es: Seq<EntityV>)
    requires
        forall|i: int| 0 <= i < es.len() ==> entity_encodable(#[trigger] es[i]),
        0 <= pos,
        pos + enc_entities(es).len() <= b.len(),
        b.subrange(pos, pos + enc_entities(es).len()) == enc_entities(es),
    ensures
        sp_entities(b, pos, es.len()) == Some::<(Seq<EntityV>, int)>(
            (es, pos + enc_entities(es).len()),
        ),
    decreases es.len(),
{
    if es.len() == 0 {
        assert(es =~= Seq::<EntityV>::empty());
    } else {
        lemma_enc_entities_first(es);
        lemma_subrange_split(b, pos, enc_entity(es[0]), enc_entities(es.drop_first()));
        lemma_sp_entity_of_enc(b, pos, es[0]);
        let p1 = pos + enc_entity(es[0]).len();
        assert forall|i: int|
            0 <= i < es.drop_first().len() implies entity_encodable(
            #[trigger] es.drop_first()[i],
        ) by {
            assert(es.drop_first()[i] == es[i + 1]);
        }
        lemma_sp_entities_of_enc(b, p1, es.drop_first());
        assert(seq![es[0]] + es.drop_first() =~= es);
    }
}

proof fn lemma_sp_references_of_enc(b: Seq<u8>, pos: int, rs: Seq<ReferenceV>)
    requires
        forall|i: int| 0 <= i < rs.len() ==> reference_encodable(#[trigger] rs[i]),
        0 <= pos,
        pos + enc_references(rs).len() <= b.len(),
        b.subrange(pos, pos + enc_references(rs).len()) == enc_references(rs),
    ensures
        sp_references(b, pos, rs.len()) == Some::<(Seq<ReferenceV>, int)>(
            (rs, pos + enc_references(rs).len()),
        ),
    decreases rs.len(),
{
    if rs.len() == 0 {
        assert(rs =~= Seq::<ReferenceV>::empty());
    } else {
        lemma_enc_references_first(rs);
        lemma_subrange_split(b, pos, enc_reference(rs[0]), enc_references(rs.drop_first()));
        lemma_sp_reference_of_enc(b, pos, rs[0]);
        let p1 = pos + enc_reference(rs[0]).len();
        assert forall|i: int|
            0 <= i < rs.drop_first().len() implies reference_encodable(
            #[trigger] rs.drop_first()[i],
        ) by {
            assert(rs.drop_first()[i] == rs[i + 1]);
        }
        lemma_sp_references_of_enc(b, p1, rs.drop_first());
        assert(seq![rs[0]] + rs.drop_first() =~= rs);
    }
}

#[verifier::rlimit(100)]
proof fn lemma_record_tail(b: Seq<u8>, pos: int, r: RecordV)
    requires
        record_encodable(r),
        0 <= pos,
        pos + enc_u32(r.entities.len() as int).len() + enc_entities(r.entities).len() + enc_u32(
            r.refs.len() as int,
        ).len() + enc_references(r.refs).len() <= b.len(),
        b.subrange(
            pos,
            pos + enc_u32(r.entities.len() as int).len() + enc_entities(r.entities).len()
                + enc_u32(r.refs.len() as int).len() + enc_references(r.refs).len(),
        ) == enc_u32(r.entities.len() as int) + enc_entities(r.entities) + enc_u32(
            r.refs.len() as int,
        ) + enc_references(r.refs),
    ensures
        sp_u32(b, pos) == Some::<(int, int)>((r.entities.len() as int, pos + 4)),
        sp_entities(b, pos + 4, r.entities.len()) == Some::<(Seq<EntityV>, int)>(
            (r.entities, pos + 4 + enc_entities(r.entities).len()),
        ),
        sp_u32(b, pos + 4 + enc_entities(r.entities).len()) == Some::<(int, int)>(
            (r.refs.len() as int, pos + 8 + enc_entities(r.entities).len()),
        ),
        sp_references(b, pos + 8 + enc_entities(r.entities).len(), r.refs.len()) == Some::<
            (Seq<ReferenceV>, int),
        >((r.refs, pos + 8 + enc_entities(r.entities).len() + enc_references(r.refs).len())),
{
    let ne = r.entities.len() as int;
    let nr = r.refs.len() as int;
    let rest2 = enc_entities(r.entities) + enc_u32(nr) + enc_references(r.refs);
    assert(enc_u32(ne) + enc_entities(r.entities) + enc_u32(nr) + enc_references(r.refs)
        =~= enc_u32(ne) + rest2);
    lemma_subrange_split(b, pos, enc_u32(ne), rest2);
    lemma_sp_u32_of_enc(b, pos, ne);
    let p2 = pos + 4;
    let rest3 = enc_u32(nr) + enc_references(r.refs);
    assert(rest2 =~= enc_entities(r.entities) + rest3);
    lemma_subrange_split(b, p2, enc_entities(r.entities), rest3);
    lemma_sp_entities_of_enc(b, p2, r.entities);
    let p3 = p2 + enc_entities(r.entities).len();
    lemma_subrange_split(b, p3, enc_u32(nr), enc_references(r.refs));
    lemma_sp_u32_of_enc(b, p3, nr);
    lemma_sp_references_of_enc(b, p3 + 4, r.refs);
}

#[verifier::rlimit(100)]
proof fn lemma_record_head(r: RecordV)
    requires
        record_encodable(r),
    ensures
        sp_str(enc_record(r), 0) == Some::<(Seq<char>, int)>(
            (r.name, enc_str(r.name).len() as int),
        ),
        enc_record(r).subrange(enc_str(r.name).len() as int, enc_record(r).len() as int)
            == enc_u32(r.entities.len() as int) + enc_entities(r.entities) + enc_u32(
            r.refs.len() as int,
        ) + enc_references(r.refs),
        enc_record(r).len() == enc_str(r.name).len() + 8 + enc_entities(r.entities).len()
            + enc_references(r.refs).len(),
{
    let b = enc_record(r);
    let ne = r.entities.len() as int;
    let nr = r.refs.len() as int;
    let tail = enc_u32(ne) + enc_entities(r.entities) + enc_u32(nr) + enc_references(r.refs);
    assert(b =~= enc_str(r.name) + tail);
    assert(b.subrange(0, b.len() as int) =~= b);
    lemma_subrange_split(b, 0, enc_str(r.name), tail);
    lemma_sp_str_of_enc(b, 0, r.name);
}

/// Round trip: a record's canonical encoding decodes to exactly that
/// record.  Together with the encoder's and decoder's contracts this says
/// an artifact written by `encode_record` is always loaded, unchanged.
#[verifier::rlimit(100)]
pub proof fn lemma_record_round_trip(r: RecordV)
    requires
        record_encodable(r),
    ensures
        sp_record(enc_record(r)) == Some(r),
{
    let b = enc_record(r);
    let p1 = enc_str(r.name).len() as int;
    lemma_record_head(r);
    lemma_record_tail(b, p1, r);
    assert(p1 + 8 + enc_entities(r.entities).len() + enc_references(r.refs).len() == b.len());
}

// ---------------------------------------------------------------------------
// The loader: decode every artifact under the root, skipping the ones that
// do not parse and reporting each skip as a diagnostic.
// ---------------------------------------------------------------------------

/// The records of the artifacts that decode, in discovery order.
pub open spec fn loaded_records(arts: Seq<(Seq<char>, Seq<u8>)>) -> Seq<RecordV>
    decreases arts.len(),
{
    if arts.len() == 0 {
        Seq::empty()
    } else {
        let rest = loaded_records(arts.drop_last());
        match sp_record(arts.last().1) {
            Some(r) => rest.push(r),
            None => rest,
        }
    }
}

/// The names of the artifacts that do not decode, in discovery order.
pub open spec fn loader_failures(arts: Seq<(Seq<char>, Seq<u8>)>) -> Seq<Seq<char>>
    decreases arts.len(),
{
    if arts.len() == 0 {
        Seq::empty()
    } else {
        let rest = loader_failures(arts.drop_last());
        match sp_record(arts.last().1) {
            Some(r) => rest,
            None => rest.push(arts.last().0),
        }
    }
}

/// Decodes every analysis artifact under `root`.  A missing or empty
/// analysis directory yields no records and no diagnostics; an artifact
/// that does not decode yields one `AnalysisDeserializationFailed`
/// diagnostic naming it, and the remaining artifacts are still loaded.
pub fn load_analysis<R: SourceRoot>(root: &R) -> (r: (Vec<AnalysisRecord>, Vec<KytheError>))
    ensures
        r.0@.map_values(|x: AnalysisRecord| x@) == loaded_records(root.artifacts()),
        r.1@.len() == loader_failures(root.artifacts()).len(),
        forall|i: int|
            0 <= i < r.1@.len() ==> ((#[trigger] r.1@[i]) matches
                KytheError::AnalysisDeserializationFailed(n) && n@ == loader_failures(
                root.artifacts(),
            )[i]),
{
    let mut recs: Vec<AnalysisRecord> = Vec::new();
    let mut diags: Vec<KytheError> = Vec::new();
    let count = root.artifact_count();
    let mut i: usize = 0;
    proof {
        assert(root.artifacts().take(0) =~= Seq::<(Seq<char>, Seq<u8>)>::empty());
        assert(recs@.map_values(|x: AnalysisRecord| x@) =~= loaded_records(
            root.artifacts().take(0),
        ));
    }
    while i < count
        invariant
            i <= count,
            count == root.artifacts().len(),
            recs@.map_values(|x: AnalysisRecord| x@) == loaded_records(root.artifacts().take(i as int)),
            diags@.len() == loader_failures(root.artifacts().take(i as int)).len(),
            forall|k: int|
                0 <= k < diags@.len() ==> ((#[trigger] diags@[k]) matches
                    KytheError::AnalysisDeserializationFailed(n) && n@ == loader_failures(
                    root.artifacts().take(i as int),
                )[k]),
        decreases count - i,
    {
        let ghost arts = root.artifacts();
        proof {
            assert(arts.take(i + 1).drop_last() =~= arts.take(i as int));
            assert(arts.take(i + 1).last() == arts[i as int]);
        }
        let bytes = root.artifact_bytes(i);
        match parse_record(&bytes) {
            Some(rec) => {
                let ghost before = recs@.map_values(|x: AnalysisRecord| x@);
                let ghost rv = rec@;
                recs.push(rec);
                proof {
                    assert(recs@.map_values(|x: AnalysisRecord| x@) =~= before.push(rv));
                }
            },
            None => {
                let name = root.artifact_name(i);
                diags.push(KytheError::AnalysisDeserializationFailed(name));
            },
        }
        i = i + 1;
    }
    proof {
        assert(root.artifacts().take(count as int) =~= root.artifacts());
    }
    (recs, diags)
}

} // verus!
