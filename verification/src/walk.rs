//! The options of a recursive directory walk, and the walker they configure.

use vstd::prelude::*;

verus! {

/// How many threads read directories during a walk.
#[derive(Copy, Clone, Debug, PartialEq, Eq, Structural)]
pub enum Parallelism {
    /// Read on the calling thread.
    Serial,
    /// Read on the process-wide default thread pool.
    RayonDefaultPool,
    /// Read on a new thread pool with this many threads.
    RayonNewPool(usize),
}

/// The options of a recursive walk. That `min_depth` does not exceed
/// `max_depth` is left to the caller.
#[derive(Copy, Clone, Debug, PartialEq, Eq, Structural)]
pub struct WalkDirOptions {
    pub sort: bool,
    pub min_depth: usize,
    pub max_depth: usize,
    pub skip_hidden: bool,
    pub follow_links: bool,
    pub parallelism: Parallelism,
}

/// One entry that a walk reported: its path, and whether it is a regular
/// file.
#[derive(Clone, Debug, PartialEq, Eq)]
pub struct WalkEntry {
    pub path: Vec<u8>,
    pub is_file: bool,
}

/// `std::path::PathBuf`, the root that a walker is built for. It is carried
/// through as it is: nothing here looks inside a path of this type.
#[verifier::external_type_specification]
#[verifier::external_body]
pub struct ExPathBuf(std::path::PathBuf);

/// A configured `jwalk::WalkDir`, ready to be iterated. It is carried
/// through as it is: nothing is known here of what is inside, and the walk
/// itself is left to whoever iterates `dir`.
#[verifier::external_body]
pub struct Walk {
    pub dir: jwalk::WalkDir,
}

impl WalkDirOptions {
    /// The options that a walk has unless told otherwise: every depth,
    /// hidden entries skipped, links not followed, directory order, the
    /// default thread pool.
    pub open spec fn initial() -> WalkDirOptions {
        WalkDirOptions {
            sort: false,
            min_depth: 0,
            max_depth: usize::MAX,
            skip_hidden: true,
            follow_links: false,
            parallelism: Parallelism::RayonDefaultPool,
        }
    }

    pub fn sort(self, sort: bool) -> (r: Self)
        ensures
            r == (WalkDirOptions { sort: sort, ..self }),
    {
        let mut r = self;
        r.sort = sort;
        r
    }

    pub fn min_depth(self, min_depth: usize) -> (r: Self)
        ensures
            r == (WalkDirOptions { min_depth: min_depth, ..self }),
    {
        let mut r = self;
        r.min_depth = min_depth;
        r
    }

    pub fn max_depth(self, max_depth: usize) -> (r: Self)
        ensures
            r == (WalkDirOptions { max_depth: max_depth, ..self }),
    {
        let mut r = self;
        r.max_depth = max_depth;
        r
    }

    pub fn skip_hidden(self, skip_hidden: bool) -> (r: Self)
        ensures
            r == (WalkDirOptions { skip_hidden: skip_hidden, ..self }),
    {
        let mut r = self;
        r.skip_hidden = skip_hidden;
        r
    }

    pub fn follow_links(self, follow_links: bool) -> (r: Self)
        ensures
            r == (WalkDirOptions { follow_links: follow_links, ..self }),
    {
        let mut r = self;
        r.follow_links = follow_links;
        r
    }

    pub fn parallelism(self, parallelism: Parallelism) -> (r: Self)
        ensures
            r == (WalkDirOptions { parallelism: parallelism, ..self }),
    {
        let mut r = self;
        r.parallelism = parallelism;
        r
    }

    /// Configures a `jwalk::WalkDir` rooted at `path`: `WalkDir::new`, then
    /// its setters `sort`, `min_depth`, `max_depth`, `skip_hidden`,
    /// `follow_links` and `parallelism`, in this order, each with the option
    /// of the same name. Where `max_depth` is below `min_depth`, jwalk's
    /// setter raises it to `min_depth`. Nothing is read from disk before the
    /// walker is iterated, and nothing is claimed of the walker here.
    #[verifier::external_body]
    pub fn build(&self, path: std::path::PathBuf) -> (walk: Walk) {
        let parallelism = match self.parallelism {
            Parallelism::Serial => jwalk::Parallelism::Serial,
            Parallelism::RayonDefaultPool => jwalk::Parallelism::RayonDefaultPool,
            Parallelism::RayonNewPool(n) => jwalk::Parallelism::RayonNewPool(n),
        };
        let dir = jwalk::WalkDir::new(path)
            .sort(self.sort)
            .min_depth(self.min_depth)
            .max_depth(self.max_depth)
            .skip_hidden(self.skip_hidden)
            .follow_links(self.follow_links)
            .parallelism(parallelism);
        Walk { dir }
    }
}

impl Default for WalkDirOptions {
    fn default() -> (r: Self)
        ensures
            r == WalkDirOptions::initial(),
    {
        WalkDirOptions {
            sort: false,
            min_depth: 0,
            max_depth: usize::MAX,
            skip_hidden: true,
            follow_links: false,
            parallelism: Parallelism::RayonDefaultPool,
        }
    }
}

impl DeepView for WalkEntry {
    type V = (Seq<u8>, bool);

    open spec fn deep_view(&self) -> (Seq<u8>, bool) {
        (self.path@, self.is_file)
    }
}

/// The paths of the entries that are regular files, in the order of the
/// walk.
pub open spec fn files_among(entries: Seq<(Seq<u8>, bool)>) -> Seq<Seq<u8>> {
    entries.filter(|entry: (Seq<u8>, bool)| entry.1).map_values(|entry: (Seq<u8>, bool)| entry.0)
}

/// One more entry at the end of a walk adds its path to the files where it
/// is a regular file, and nothing where it is not.
pub proof fn lemma_files_among_push(entries: Seq<(Seq<u8>, bool)>, entry: (Seq<u8>, bool))
    ensures
        files_among(entries.push(entry)) == if entry.1 {
            files_among(entries).push(entry.0)
        } else {
            files_among(entries)
        },
{
    let keep = |entry: (Seq<u8>, bool)| entry.1;
    let path = |entry: (Seq<u8>, bool)| entry.0;
    entries.lemma_filter_push(entry, keep);
    if entry.1 {
        entries.filter(keep).lemma_push_map_commute(path, entry);
    }
}

/// Keeps the regular files of a walk and drops every other entry.
pub fn regular_files(entries: Vec<WalkEntry>) -> (files: Vec<Vec<u8>>)
    ensures
        files.deep_view() == files_among(entries.deep_view()),
{
    let ghost all = entries.deep_view();
    let mut files: Vec<Vec<u8>> = Vec::new();
    proof {
        assert(all.take(0) =~= Seq::<(Seq<u8>, bool)>::empty());
        all.take(0).lemma_filter_len(|entry: (Seq<u8>, bool)| entry.1);
        assert(files.deep_view() =~= files_among(all.take(0)));
    }
    for entry in it: entries.into_iter()
        invariant
            it.seq() == entries@,
            all == entries.deep_view(),
            files.deep_view() == files_among(all.take(it.index() as int)),
    {
        let ghost i = it.index() as int;
        let ghost before = files.deep_view();
        proof {
            assert(all.take(i + 1) =~= all.take(i).push(all[i]));
            assert(all[i] == entry.deep_view());
            lemma_files_among_push(all.take(i), all[i]);
        }
        if entry.is_file {
            assert(entry.path.deep_view() =~= entry.path@);
            files.push(entry.path);
            assert(files.deep_view() =~= before.push(all[i].0));
        }
    }
    assert(all.take(all.len() as int) =~= all);
    files
}

/// A path is among the files of a walk exactly where the walk reports it as
/// a regular file.
pub proof fn lemma_files_among_contains(entries: Seq<(Seq<u8>, bool)>, path: Seq<u8>)
    ensures
        files_among(entries).contains(path) <==> entries.contains((path, true)),
    decreases entries.len(),
{
    if entries.len() == 0 {
        assert(files_among(entries) =~= Seq::<Seq<u8>>::empty()) by {
            entries.lemma_filter_len(|entry: (Seq<u8>, bool)| entry.1);
        }
    } else {
        let before = entries.drop_last();
        let last = entries.last();
        assert(before.push(last) =~= entries);
        lemma_files_among_push(before, last);
        lemma_files_among_contains(before, path);
        let files = files_among(before);
        if entries.contains((path, true)) {
            let i = choose|i: int| 0 <= i < entries.len() && entries[i] == (path, true);
            if i < before.len() {
                assert(before[i] == (path, true));
                let j = choose|j: int| 0 <= j < files.len() && files[j] == path;
                assert(files_among(entries)[j] == path);
            } else {
                assert(files.push(path)[files.len() as int] == path);
            }
        }
        if files_among(entries).contains(path) {
            let j = choose|j: int|
                0 <= j < files_among(entries).len() && files_among(entries)[j] == path;
            if j < files.len() {
                assert(files[j] == path);
                let i = choose|i: int| 0 <= i < before.len() && before[i] == (path, true);
                assert(entries[i] == (path, true));
            } else {
                assert(entries[entries.len() - 1] == (path, true));
            }
        }
    }
}

/// The order in which a walk reports its entries decides the order of the
/// files found and nothing else: two walks that report the same set of
/// entries find the same set of files.
pub proof fn lemma_files_among_same_set(first: Seq<(Seq<u8>, bool)>, second: Seq<(Seq<u8>, bool)>)
    requires
        first.to_set() == second.to_set(),
    ensures
        files_among(first).to_set() == files_among(second).to_set(),
{
    assert forall|path: Seq<u8>|
        files_among(first).to_set().contains(path) <==> files_among(second).to_set().contains(
            path,
        ) by {
        lemma_files_among_contains(first, path);
        lemma_files_among_contains(second, path);
        assert(first.contains((path, true)) <==> first.to_set().contains((path, true)));
        assert(second.contains((path, true)) <==> second.to_set().contains((path, true)));
    }
    assert(files_among(first).to_set() =~= files_among(second).to_set());
}

} // verus!
