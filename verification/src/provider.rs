//! The source root: an abstract view of the place source files and analysis
//! artifacts are read from, and an in-memory implementation of it.

use vstd::prelude::*;

verus! {

/// One compilation unit's surroundings: the readable source files, as a map
/// from path to content, and the analysis artifacts found in the unit's
/// analysis directory, as a finite sequence of (name, bytes) pairs in
/// discovery order.
pub trait SourceRoot: Sized {
    spec fn files(&self) -> Map<Seq<char>, Seq<u8>>;

    spec fn artifacts(&self) -> Seq<(Seq<char>, Seq<u8>)>;

    /// Reads one source file; `None` when the file cannot be read.
    fn read_file(&self, path: &String) -> (r: Option<Vec<u8>>)
        ensures
            r matches Some(c) ==> self.files().contains_key(path@) && c@ == self.files()[path@],
            r is None ==> !self.files().contains_key(path@),
    ;

    /// How many analysis artifacts the analysis directory holds; zero when
    /// the directory is missing or empty.
    fn artifact_count(&self) -> (n: usize)
        ensures n == self.artifacts().len(),
    ;

    /// The name of the `i`-th analysis artifact.
    fn artifact_name(&self, i: usize) -> (r: String)
        requires i < self.artifacts().len(),
        ensures r@ == self.artifacts()[i as int].0,
    ;

    /// The bytes of the `i`-th analysis artifact.
    fn artifact_bytes(&self, i: usize) -> (r: Vec<u8>)
        requires i < self.artifacts().len(),
        ensures r@ == self.artifacts()[i as int].1,
    ;
}

/// The file map described by an association list, later entries shadowing
/// earlier ones.
pub open spec fn files_map(s: Seq<(String, Vec<u8>)>) -> Map<Seq<char>, Seq<u8>>
    decreases s.len(),
{
    if s.len() == 0 {
        Map::empty()
    } else {
        files_map(s.drop_last()).insert(s.last().0@, s.last().1@)
    }
}

proof fn lemma_files_map_found(s: Seq<(String, Vec<u8>)>, k: Seq<char>, i: int)
    requires
        0 <= i < s.len(),
        s[i].0@ == k,
        forall|j: int| i < j < s.len() ==> #[trigger] s[j].0@ != k,
    ensures
        files_map(s).contains_key(k),
        files_map(s)[k] == s[i].1@,
    decreases s.len(),
{
    if i == s.len() - 1 {
    } else {
        lemma_files_map_found(s.drop_last(), k, i);
    }
}

proof fn lemma_files_map_absent(s: Seq<(String, Vec<u8>)>, k: Seq<char>)
    requires
        forall|j: int| 0 <= j < s.len() ==> #[trigger] s[j].0@ != k,
    ensures
        !files_map(s).contains_key(k),
    decreases s.len(),
{
    if s.len() > 0 {
        lemma_files_map_absent(s.drop_last(), k);
    }
}

/// An in-memory source root, for driving the pipeline without a filesystem.
pub struct MemorySourceRoot {
    files: Vec<(String, Vec<u8>)>,
    arts: Vec<(String, Vec<u8>)>,
}

impl MemorySourceRoot {
    /// A root with no files and no artifacts.
    pub fn new() -> (r: MemorySourceRoot)
        ensures
            r.files() == Map::<Seq<char>, Seq<u8>>::empty(),
            r.artifacts() == Seq::<(Seq<char>, Seq<u8>)>::empty(),
    {
        let r = MemorySourceRoot { files: Vec::new(), arts: Vec::new() };
        proof {
            assert(r.artifacts() =~= Seq::<(Seq<char>, Seq<u8>)>::empty());
        }
        r
    }

    /// Makes `path` readable with the given content, replacing any earlier
    /// content under the same path.
    pub fn add_file(&mut self, path: String, content: Vec<u8>)
        ensures
            final(self).files() == old(self).files().insert(path@, content@),
            final(self).artifacts() == old(self).artifacts(),
    {
        let ghost before = self.files@;
        let ghost k = path@;
        let ghost v = content@;
        self.files.push((path, content));
        proof {
            assert(self.files@.drop_last() =~= before);
            assert(self.files() =~= files_map(before).insert(k, v));
        }
    }

    /// Adds one analysis artifact at the end of the discovery order.
    pub fn add_artifact(&mut self, name: String, bytes: Vec<u8>)
        ensures
            final(self).artifacts() == old(self).artifacts().push((name@, bytes@)),
            final(self).files() == old(self).files(),
    {
        let ghost before = self.artifacts();
        let ghost p = (name@, bytes@);
        self.arts.push((name, bytes));
        proof {
            assert(self.artifacts() =~= before.push(p));
            assert(self.files.len() == old(self).files.len());
            assert(self.files@ =~= old(self).files@);
        }
    }
}

impl SourceRoot for MemorySourceRoot {
    closed spec fn files(&self) -> Map<Seq<char>, Seq<u8>> {
        files_map(self.files@)
    }

    closed spec fn artifacts(&self) -> Seq<(Seq<char>, Seq<u8>)> {
        self.arts@.map_values(|p: (String, Vec<u8>)| (p.0@, p.1@))
    }

    fn read_file(&self, path: &String) -> (r: Option<Vec<u8>>) {
        let n = self.files.len();
        let mut i: usize = n;
        while i > 0
            invariant
                i <= n,
                n == self.files.len(),
                forall|j: int| i <= j < n ==> #[trigger] self.files@[j].0@ != path@,
            decreases i,
        {
            i = i - 1;
            if self.files[i].0 == *path {
                proof {
                    lemma_files_map_found(self.files@, path@, i as int);
                }
                return Some(self.files[i].1.clone());
            }
        }
        proof {
            lemma_files_map_absent(self.files@, path@);
        }
        None
    }

    fn artifact_count(&self) -> (n: usize) {
        self.arts.len()
    }

    fn artifact_name(&self, i: usize) -> (r: String) {
        self.arts[i].0.clone()
    }

    fn artifact_bytes(&self, i: usize) -> (r: Vec<u8>) {
        self.arts[i].1.clone()
    }
}

} // verus!
