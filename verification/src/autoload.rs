//! The autoload index: four structures a PHP runtime uses to locate classes,
//! built as a pure, deterministic function of the manifest's autoload
//! directives. Insertion order follows the manifest's package order, so two
//! builds from the same manifest agree byte for byte.

use vstd::prelude::*;

use crate::assoc::{
    assoc_set, assoc_update, lemma_assoc_set_absent, lemma_assoc_set_found, seq_insert_unique,
};
use crate::lock::{strings_view, AutoloadView, ComposerLock, LockView, PackageView};
use crate::{package_qualified, spec_package_qualified};

verus! {

/// The 64-bit digest of a file identifier, used as the key of the files
/// index so the runtime can test "already included" without a string key.
pub uninterp spec fn xxh3_of(identifier: Seq<char>) -> u64;

/// Relies on xxhash_rust::xxh3::xxh3_64: the digest is a function of the
/// input bytes alone, and a str's UTF-8 bytes are a function of its
/// characters alone.
#[verifier::external_body]
fn hash_file_identifier(identifier: &str) -> (r: u64)
    ensures
        r == xxh3_of(identifier@),
{
    xxhash_rust::xxh3::xxh3_64(identifier.as_bytes())
}

/// Model of the files index: digest of the declared identifier to
/// package-qualified path.
pub type FilesIndexView = Seq<(u64, Seq<char>)>;

/// Model of an ordered set of package-qualified base paths.
pub type PathListView = Seq<Seq<char>>;

/// Model of a namespace-prefix table: prefix to base paths.
pub type PrefixPathsView = Seq<(Seq<char>, PathListView)>;

/// Model of the PSR-0 index: first character to prefix table.
pub type Psr0IndexView = Seq<(char, PrefixPathsView)>;

/// Model of a prefix-length table: prefix to its character length.
pub type PrefixLengthsView = Seq<(Seq<char>, int)>;

/// Model of the PSR-4 prefix-length index: first character to length table.
pub type Psr4PrefixIndexView = Seq<(char, PrefixLengthsView)>;

/// The four index structures an autoloader consumes, plus the manifest's
/// content hash threaded through unchanged for the renderer.
#[derive(Debug, PartialEq, Eq)]
pub struct AutoloadIndex {
    pub files: Vec<(u64, String)>,
    pub psr0: Vec<(char, Vec<(String, Vec<String>)>)>,
    pub psr4_paths: Vec<(String, Vec<String>)>,
    pub psr4_prefix: Vec<(char, Vec<(String, usize)>)>,
    pub content_hash: String,
}

/// Mathematical model of the whole index.
#[verifier::ext_equal]
pub struct AutoloadIndexView {
    pub files: FilesIndexView,
    pub psr0: Psr0IndexView,
    pub psr4_paths: PrefixPathsView,
    pub psr4_prefix: Psr4PrefixIndexView,
    pub content_hash: Seq<char>,
}

pub open spec fn files_index_view(v: Seq<(u64, String)>) -> FilesIndexView {
    v.map_values(|p: (u64, String)| (p.0, p.1@))
}

pub open spec fn prefix_paths_view(v: Seq<(String, Vec<String>)>) -> PrefixPathsView {
    v.map_values(|p: (String, Vec<String>)| (p.0@, strings_view(p.1@)))
}

pub open spec fn psr0_index_view(v: Seq<(char, Vec<(String, Vec<String>)>)>) -> Psr0IndexView {
    v.map_values(|p: (char, Vec<(String, Vec<String>)>)| (p.0, prefix_paths_view(p.1@)))
}

pub open spec fn prefix_lengths_view(v: Seq<(String, usize)>) -> PrefixLengthsView {
    v.map_values(|p: (String, usize)| (p.0@, p.1 as int))
}

pub open spec fn psr4_prefix_index_view(
    v: Seq<(char, Vec<(String, usize)>)>,
) -> Psr4PrefixIndexView {
    v.map_values(|p: (char, Vec<(String, usize)>)| (p.0, prefix_lengths_view(p.1@)))
}

impl View for AutoloadIndex {
    type V = AutoloadIndexView;

    open spec fn view(&self) -> AutoloadIndexView {
        AutoloadIndexView {
            files: files_index_view(self.files@),
            psr0: psr0_index_view(self.psr0@),
            psr4_paths: prefix_paths_view(self.psr4_paths@),
            psr4_prefix: psr4_prefix_index_view(self.psr4_prefix@),
            content_hash: self.content_hash@,
        }
    }
}

/// One `files` entry: digest of the identifier maps to the qualified path,
/// a later equal digest overwriting an earlier one.
pub open spec fn spec_add_file(
    files: FilesIndexView,
    name: Seq<char>,
    file: Seq<char>,
) -> FilesIndexView {
    assoc_set(files, xxh3_of(file), spec_package_qualified(name, file))
}

pub open spec fn spec_add_files(
    files: FilesIndexView,
    name: Seq<char>,
    entries: Seq<Seq<char>>,
) -> FilesIndexView
    decreases entries.len(),
{
    if entries.len() == 0 {
        files
    } else {
        spec_add_file(spec_add_files(files, name, entries.drop_last()), name, entries.last())
    }
}

/// Records `base` in one PSR-0 bucket: added to the path set of `prefix`,
/// idempotently.
pub open spec fn spec_bucket_insert(
    bucket: PrefixPathsView,
    prefix: Seq<char>,
    base: Seq<char>,
) -> PrefixPathsView {
    assoc_update(
        bucket,
        prefix,
        Seq::empty(),
        |paths: PathListView| seq_insert_unique(paths, base),
    )
}

/// One PSR-0 entry with the base path already qualified: bucket by the
/// prefix's first character, then record the base under the full prefix.
pub open spec fn spec_psr0_insert(
    psr0: Psr0IndexView,
    prefix: Seq<char>,
    base: Seq<char>,
) -> Psr0IndexView {
    assoc_update(
        psr0,
        prefix[0],
        Seq::empty(),
        |bucket: PrefixPathsView| spec_bucket_insert(bucket, prefix, base),
    )
}

/// One PSR-0 entry: the qualified base path recorded under the prefix.
pub open spec fn spec_add_psr0(
    psr0: Psr0IndexView,
    name: Seq<char>,
    prefix: Seq<char>,
    path: Seq<char>,
) -> Psr0IndexView {
    spec_psr0_insert(psr0, prefix, spec_package_qualified(name, path))
}

pub open spec fn spec_add_psr0_entries(
    psr0: Psr0IndexView,
    name: Seq<char>,
    entries: Seq<(Seq<char>, Seq<char>)>,
) -> Psr0IndexView
    decreases entries.len(),
{
    if entries.len() == 0 {
        psr0
    } else {
        spec_add_psr0(
            spec_add_psr0_entries(psr0, name, entries.drop_last()),
            name,
            entries.last().0,
            entries.last().1,
        )
    }
}

/// Appends `base` to the ordered path list of `prefix`, a fresh prefix
/// starting an empty list.
pub open spec fn spec_paths_push(
    paths: PrefixPathsView,
    prefix: Seq<char>,
    base: Seq<char>,
) -> PrefixPathsView {
    assoc_update(paths, prefix, Seq::empty(), |ps: PathListView| ps.push(base))
}

/// Records the character length of `prefix` under its first character.
pub open spec fn spec_prefix_length_set(
    lengths: Psr4PrefixIndexView,
    prefix: Seq<char>,
) -> Psr4PrefixIndexView {
    assoc_update(
        lengths,
        prefix[0],
        Seq::empty(),
        |bucket: PrefixLengthsView| assoc_set(bucket, prefix, prefix.len() as int),
    )
}

/// One PSR-4 entry: append the qualified base path to the prefix's ordered
/// path list, and record the prefix's character length under its first
/// character.
pub open spec fn spec_add_psr4(
    paths: PrefixPathsView,
    lengths: Psr4PrefixIndexView,
    name: Seq<char>,
    prefix: Seq<char>,
    path: Seq<char>,
) -> (PrefixPathsView, Psr4PrefixIndexView) {
    (
        spec_paths_push(paths, prefix, spec_package_qualified(name, path)),
        spec_prefix_length_set(lengths, prefix),
    )
}

pub open spec fn spec_add_psr4_entries(
    paths: PrefixPathsView,
    lengths: Psr4PrefixIndexView,
    name: Seq<char>,
    entries: Seq<(Seq<char>, Seq<char>)>,
) -> (PrefixPathsView, Psr4PrefixIndexView)
    decreases entries.len(),
{
    if entries.len() == 0 {
        (paths, lengths)
    } else {
        let prev = spec_add_psr4_entries(paths, lengths, name, entries.drop_last());
        spec_add_psr4(prev.0, prev.1, name, entries.last().0, entries.last().1)
    }
}

/// Folds one package's autoload directives into the index. Virtual packages
/// contribute like any other: installability plays no part here.
pub open spec fn spec_add_package(ix: AutoloadIndexView, p: PackageView) -> AutoloadIndexView {
    match p.autoload {
        None => ix,
        Some(a) => {
            let files = match a.files {
                Some(fs) => spec_add_files(ix.files, p.name, fs),
                None => ix.files,
            };
            let psr0 = match a.psr0 {
                Some(es) => spec_add_psr0_entries(ix.psr0, p.name, es),
                None => ix.psr0,
            };
            let psr4 = match a.psr4 {
                Some(es) => spec_add_psr4_entries(ix.psr4_paths, ix.psr4_prefix, p.name, es),
                None => (ix.psr4_paths, ix.psr4_prefix),
            };
            AutoloadIndexView {
                files,
                psr0,
                psr4_paths: psr4.0,
                psr4_prefix: psr4.1,
                content_hash: ix.content_hash,
            }
        },
    }
}

pub open spec fn spec_empty_index(content_hash: Seq<char>) -> AutoloadIndexView {
    AutoloadIndexView {
        files: Seq::empty(),
        psr0: Seq::empty(),
        psr4_paths: Seq::empty(),
        psr4_prefix: Seq::empty(),
        content_hash: content_hash,
    }
}

pub open spec fn spec_autoload_index_from(
    ix: AutoloadIndexView,
    pkgs: Seq<PackageView>,
) -> AutoloadIndexView
    decreases pkgs.len(),
{
    if pkgs.len() == 0 {
        ix
    } else {
        spec_add_package(spec_autoload_index_from(ix, pkgs.drop_last()), pkgs.last())
    }
}

/// The whole index as a function of the manifest alone.
pub open spec fn spec_autoload_index(lock: LockView) -> AutoloadIndexView {
    spec_autoload_index_from(spec_empty_index(lock.content_hash), lock.packages)
}

/// Every PSR-0 and PSR-4 prefix of the package has at least one character;
/// an empty prefix has no first character to bucket by.
pub open spec fn spec_prefixes_nonempty(p: PackageView) -> bool {
    match p.autoload {
        None => true,
        Some(a) => {
            &&& match a.psr0 {
                Some(es) => forall|i: int| 0 <= i < es.len() ==> es[i].0.len() > 0,
                None => true,
            }
            &&& match a.psr4 {
                Some(es) => forall|i: int| 0 <= i < es.len() ==> es[i].0.len() > 0,
                None => true,
            }
        },
    }
}

pub open spec fn spec_lock_prefixes_nonempty(l: LockView) -> bool {
    forall|i: int| 0 <= i < l.packages.len() ==> spec_prefixes_nonempty(#[trigger] l.packages[i])
}

/// Updating the bucket at the first index carrying the prefix is exactly
/// `spec_bucket_insert`.
proof fn lemma_bucket_insert_found(m: PrefixPathsView, prefix: Seq<char>, base: Seq<char>, i: int)
    requires
        0 <= i < m.len(),
        m[i].0 == prefix,
        forall|j: int| 0 <= j < i ==> m[j].0 != prefix,
    ensures
        spec_bucket_insert(m, prefix, base) == m.update(
            i,
            (prefix, seq_insert_unique(m[i].1, base)),
        ),
    decreases i,
{
    if i == 0 {
        assert(spec_bucket_insert(m, prefix, base) =~= m.update(
            0,
            (prefix, seq_insert_unique(m[0].1, base)),
        ));
    } else {
        lemma_bucket_insert_found(m.drop_first(), prefix, base, i - 1);
        assert(m.drop_first()[i - 1] == m[i]);
        assert(spec_bucket_insert(m, prefix, base) =~= m.update(
            i,
            (prefix, seq_insert_unique(m[i].1, base)),
        ));
    }
}

/// Appending a fresh prefix is exactly `spec_bucket_insert` when no entry
/// carries it.
proof fn lemma_bucket_insert_absent(m: PrefixPathsView, prefix: Seq<char>, base: Seq<char>)
    requires
        forall|j: int| 0 <= j < m.len() ==> m[j].0 != prefix,
    ensures
        spec_bucket_insert(m, prefix, base) == m.push(
            (prefix, seq_insert_unique(Seq::empty(), base)),
        ),
    decreases m.len(),
{
    if m.len() == 0 {
        assert(spec_bucket_insert(m, prefix, base) =~= m.push(
            (prefix, seq_insert_unique(Seq::empty(), base)),
        ));
    } else {
        lemma_bucket_insert_absent(m.drop_first(), prefix, base);
        assert(spec_bucket_insert(m, prefix, base) =~= m.push(
            (prefix, seq_insert_unique(Seq::empty(), base)),
        ));
    }
}

/// Updating the bucket of the prefix's first character in place is exactly
/// `spec_psr0_insert`.
proof fn lemma_psr0_insert_found(m: Psr0IndexView, prefix: Seq<char>, base: Seq<char>, i: int)
    requires
        prefix.len() > 0,
        0 <= i < m.len(),
        m[i].0 == prefix[0],
        forall|j: int| 0 <= j < i ==> m[j].0 != prefix[0],
    ensures
        spec_psr0_insert(m, prefix, base) == m.update(
            i,
            (prefix[0], spec_bucket_insert(m[i].1, prefix, base)),
        ),
    decreases i,
{
    if i == 0 {
        assert(spec_psr0_insert(m, prefix, base) =~= m.update(
            0,
            (prefix[0], spec_bucket_insert(m[0].1, prefix, base)),
        ));
    } else {
        lemma_psr0_insert_found(m.drop_first(), prefix, base, i - 1);
        assert(m.drop_first()[i - 1] == m[i]);
        assert(spec_psr0_insert(m, prefix, base) =~= m.update(
            i,
            (prefix[0], spec_bucket_insert(m[i].1, prefix, base)),
        ));
    }
}

/// Appending a fresh first-character bucket is exactly `spec_psr0_insert`.
proof fn lemma_psr0_insert_absent(m: Psr0IndexView, prefix: Seq<char>, base: Seq<char>)
    requires
        prefix.len() > 0,
        forall|j: int| 0 <= j < m.len() ==> m[j].0 != prefix[0],
    ensures
        spec_psr0_insert(m, prefix, base) == m.push(
            (prefix[0], spec_bucket_insert(Seq::empty(), prefix, base)),
        ),
    decreases m.len(),
{
    if m.len() == 0 {
        assert(spec_psr0_insert(m, prefix, base) =~= m.push(
            (prefix[0], spec_bucket_insert(Seq::empty(), prefix, base)),
        ));
    } else {
        lemma_psr0_insert_absent(m.drop_first(), prefix, base);
        assert(spec_psr0_insert(m, prefix, base) =~= m.push(
            (prefix[0], spec_bucket_insert(Seq::empty(), prefix, base)),
        ));
    }
}

/// Appending to the path list at the first index carrying the prefix is
/// exactly `spec_paths_push`.
proof fn lemma_paths_push_found(m: PrefixPathsView, prefix: Seq<char>, base: Seq<char>, i: int)
    requires
        0 <= i < m.len(),
        m[i].0 == prefix,
        forall|j: int| 0 <= j < i ==> m[j].0 != prefix,
    ensures
        spec_paths_push(m, prefix, base) == m.update(i, (prefix, m[i].1.push(base))),
    decreases i,
{
    if i == 0 {
        assert(spec_paths_push(m, prefix, base) =~= m.update(0, (prefix, m[0].1.push(base))));
    } else {
        lemma_paths_push_found(m.drop_first(), prefix, base, i - 1);
        assert(m.drop_first()[i - 1] == m[i]);
        assert(spec_paths_push(m, prefix, base) =~= m.update(i, (prefix, m[i].1.push(base))));
    }
}

/// Appending a fresh prefix is exactly `spec_paths_push` when no entry
/// carries it.
proof fn lemma_paths_push_absent(m: PrefixPathsView, prefix: Seq<char>, base: Seq<char>)
    requires
        forall|j: int| 0 <= j < m.len() ==> m[j].0 != prefix,
    ensures
        spec_paths_push(m, prefix, base) == m.push((prefix, Seq::empty().push(base))),
    decreases m.len(),
{
    if m.len() == 0 {
        assert(spec_paths_push(m, prefix, base) =~= m.push((prefix, Seq::empty().push(base))));
    } else {
        lemma_paths_push_absent(m.drop_first(), prefix, base);
        assert(spec_paths_push(m, prefix, base) =~= m.push((prefix, Seq::empty().push(base))));
    }
}

/// Updating the length bucket of the prefix's first character in place is
/// exactly `spec_prefix_length_set`.
proof fn lemma_prefix_length_set_found(m: Psr4PrefixIndexView, prefix: Seq<char>, i: int)
    requires
        prefix.len() > 0,
        0 <= i < m.len(),
        m[i].0 == prefix[0],
        forall|j: int| 0 <= j < i ==> m[j].0 != prefix[0],
    ensures
        spec_prefix_length_set(m, prefix) == m.update(
            i,
            (prefix[0], assoc_set(m[i].1, prefix, prefix.len() as int)),
        ),
    decreases i,
{
    if i == 0 {
        assert(spec_prefix_length_set(m, prefix) =~= m.update(
            0,
            (prefix[0], assoc_set(m[0].1, prefix, prefix.len() as int)),
        ));
    } else {
        lemma_prefix_length_set_found(m.drop_first(), prefix, i - 1);
        assert(m.drop_first()[i - 1] == m[i]);
        assert(spec_prefix_length_set(m, prefix) =~= m.update(
            i,
            (prefix[0], assoc_set(m[i].1, prefix, prefix.len() as int)),
        ));
    }
}

/// Appending a fresh first-character bucket is exactly
/// `spec_prefix_length_set`.
proof fn lemma_prefix_length_set_absent(m: Psr4PrefixIndexView, prefix: Seq<char>)
    requires
        prefix.len() > 0,
        forall|j: int| 0 <= j < m.len() ==> m[j].0 != prefix[0],
    ensures
        spec_prefix_length_set(m, prefix) == m.push(
            (prefix[0], assoc_set(Seq::empty(), prefix, prefix.len() as int)),
        ),
    decreases m.len(),
{
    if m.len() == 0 {
        assert(spec_prefix_length_set(m, prefix) =~= m.push(
            (prefix[0], assoc_set(Seq::empty(), prefix, prefix.len() as int)),
        ));
    } else {
        lemma_prefix_length_set_absent(m.drop_first(), prefix);
        assert(spec_prefix_length_set(m, prefix) =~= m.push(
            (prefix[0], assoc_set(Seq::empty(), prefix, prefix.len() as int)),
        ));
    }
}


broadcast proof fn lemma_files_index_view_len(v: Seq<(u64, String)>)
    ensures
        #[trigger] files_index_view(v).len() == v.len(),
{
}

broadcast proof fn lemma_files_index_view_index(v: Seq<(u64, String)>, j: int)
    requires
        0 <= j < v.len(),
    ensures
        #[trigger] files_index_view(v)[j] == (v[j].0, v[j].1@),
{
}

broadcast proof fn lemma_strings_view_len(v: Seq<String>)
    ensures
        #[trigger] strings_view(v).len() == v.len(),
{
}

broadcast proof fn lemma_strings_view_index(v: Seq<String>, j: int)
    requires
        0 <= j < v.len(),
    ensures
        #[trigger] strings_view(v)[j] == v[j]@,
{
}

broadcast proof fn lemma_prefix_paths_view_len(v: Seq<(String, Vec<String>)>)
    ensures
        #[trigger] prefix_paths_view(v).len() == v.len(),
{
}

broadcast proof fn lemma_prefix_paths_view_index(v: Seq<(String, Vec<String>)>, j: int)
    requires
        0 <= j < v.len(),
    ensures
        #[trigger] prefix_paths_view(v)[j] == (v[j].0@, strings_view(v[j].1@)),
{
}

broadcast proof fn lemma_psr0_index_view_len(v: Seq<(char, Vec<(String, Vec<String>)>)>)
    ensures
        #[trigger] psr0_index_view(v).len() == v.len(),
{
}

broadcast proof fn lemma_psr0_index_view_index(v: Seq<(char, Vec<(String, Vec<String>)>)>, j: int)
    requires
        0 <= j < v.len(),
    ensures
        #[trigger] psr0_index_view(v)[j] == (v[j].0, prefix_paths_view(v[j].1@)),
{
}

broadcast proof fn lemma_prefix_lengths_view_len(v: Seq<(String, usize)>)
    ensures
        #[trigger] prefix_lengths_view(v).len() == v.len(),
{
}

broadcast proof fn lemma_prefix_lengths_view_index(v: Seq<(String, usize)>, j: int)
    requires
        0 <= j < v.len(),
    ensures
        #[trigger] prefix_lengths_view(v)[j] == (v[j].0@, v[j].1 as int),
{
}

broadcast proof fn lemma_psr4_prefix_index_view_len(v: Seq<(char, Vec<(String, usize)>)>)
    ensures
        #[trigger] psr4_prefix_index_view(v).len() == v.len(),
{
}

broadcast proof fn lemma_psr4_prefix_index_view_index(v: Seq<(char, Vec<(String, usize)>)>, j: int)
    requires
        0 <= j < v.len(),
    ensures
        #[trigger] psr4_prefix_index_view(v)[j] == (v[j].0, prefix_lengths_view(v[j].1@)),
{
}

pub broadcast group group_index_views {
    lemma_files_index_view_len,
    lemma_files_index_view_index,
    lemma_strings_view_len,
    lemma_strings_view_index,
    lemma_prefix_paths_view_len,
    lemma_prefix_paths_view_index,
    lemma_psr0_index_view_len,
    lemma_psr0_index_view_index,
    lemma_prefix_lengths_view_len,
    lemma_prefix_lengths_view_index,
    lemma_psr4_prefix_index_view_len,
    lemma_psr4_prefix_index_view_index,
}

/// Stores `value` under `key` in the files index, overwriting an equal key.
fn files_set(files: &mut Vec<(u64, String)>, key: u64, value: String)
    ensures
        files_index_view(final(files)@) == assoc_set(files_index_view(old(files)@), key, value@),
{
    broadcast use group_index_views;

    let ghost m0 = files_index_view(old(files)@);

    let ghost vv = value@;
    let mut i: usize = 0;
    while i < files.len()
        invariant
            *files == *old(files),
            i <= files.len(),
            m0 == files_index_view(files@),
            value@ == vv,
            forall|j: int| 0 <= j < i ==> m0[j].0 != key,
        decreases files.len() - i,
    {
        if files[i].0 == key {
            files[i] = (key, value);
            proof {
                lemma_assoc_set_found::<u64, Seq<char>>(m0, key, vv, i as int);
                assert(files_index_view(files@) =~= m0.update(i as int, (key, vv)));
            }
            return ;
        }
        i += 1;
    }
    files.push((key, value));
    proof {
        lemma_assoc_set_absent::<u64, Seq<char>>(m0, key, vv);
        assert(files_index_view(files@) =~= m0.push((key, vv)));
    }
}

/// Appends `path` to the ordered path set unless an equal path is present.
fn paths_insert_unique(paths: &mut Vec<String>, path: String)
    ensures
        strings_view(final(paths)@) == seq_insert_unique(strings_view(old(paths)@), path@),
{
broadcast use group_index_views;
        let ghost m0 = strings_view(old(paths)@);
    let mut i: usize = 0;
    while i < paths.len()
        invariant
            *paths == *old(paths),
            i <= paths.len(),
            m0 == strings_view(paths@),
            forall|j: int| 0 <= j < i ==> m0[j] != path@,
        decreases paths.len() - i,
    {
        if paths[i].eq(&path) {
            proof {
                assert(m0[i as int] == path@);
                assert(m0.contains(path@));
            }
            return ;
        }
        i += 1;
    }
    proof {
        assert(!m0.contains(path@));
    }
    paths.push(path);
    proof {
        assert(strings_view(paths@) =~= m0.push(path@));
    }
}

/// Records `base` for `prefix` inside one PSR-0 bucket.
fn psr0_bucket_insert(bucket: &mut Vec<(String, Vec<String>)>, prefix: &String, base: String)
    ensures
        prefix_paths_view(final(bucket)@) == spec_bucket_insert(
            prefix_paths_view(old(bucket)@),
            prefix@,
            base@,
        ),
{
broadcast use group_index_views;
        let ghost m0 = prefix_paths_view(old(bucket)@);
    let ghost bb = base@;
    let mut i: usize = 0;
    while i < bucket.len()
        invariant
            *bucket == *old(bucket),
            i <= bucket.len(),
            m0 == prefix_paths_view(bucket@),
            base@ == bb,
            forall|j: int| 0 <= j < i ==> m0[j].0 != prefix@,
        decreases bucket.len() - i,
    {
        if bucket[i].0.eq(prefix) {
            let ghost prev = m0[i as int].1;
            let mut entry = bucket.remove(i);
            paths_insert_unique(&mut entry.1, base);
            bucket.insert(i, entry);
            proof {
                lemma_bucket_insert_found(m0, prefix@, bb, i as int);
                assert(prefix_paths_view(bucket@) =~= m0.update(
                    i as int,
                    (prefix@, seq_insert_unique(prev, bb)),
                ));
            }
            return ;
        }
        i += 1;
    }
    let mut fresh: Vec<String> = Vec::new();
    fresh.push(base);
    bucket.push((prefix.clone(), fresh));
    proof {
        lemma_bucket_insert_absent(m0, prefix@, bb);
        assert(strings_view(bucket@.last().1@) =~= seq_insert_unique(Seq::empty(), bb));
        assert(prefix_paths_view(bucket@) =~= m0.push(
            (prefix@, seq_insert_unique(Seq::empty(), bb)),
        ));
    }
}

/// Records one PSR-0 entry: bucket by first character, then by full prefix.
fn psr0_insert(
    psr0: &mut Vec<(char, Vec<(String, Vec<String>)>)>,
    first: char,
    prefix: &String,
    base: String,
)
    requires
        prefix@.len() > 0,
        first == prefix@[0],
    ensures
        psr0_index_view(final(psr0)@) == spec_psr0_insert(
            psr0_index_view(old(psr0)@),
            prefix@,
            base@,
        ),
{
broadcast use group_index_views;
        let ghost m0 = psr0_index_view(old(psr0)@);
    let ghost bb = base@;
    let mut i: usize = 0;
    while i < psr0.len()
        invariant
            *psr0 == *old(psr0),
            i <= psr0.len(),
            m0 == psr0_index_view(psr0@),
            base@ == bb,
            prefix@.len() > 0,
            first == prefix@[0],
            forall|j: int| 0 <= j < i ==> m0[j].0 != first,
        decreases psr0.len() - i,
    {
        if psr0[i].0 == first {
            let ghost prev = m0[i as int].1;
            let mut entry = psr0.remove(i);
            psr0_bucket_insert(&mut entry.1, prefix, base);
            psr0.insert(i, entry);
            proof {
                lemma_psr0_insert_found(m0, prefix@, bb, i as int);
                assert(psr0_index_view(psr0@) =~= m0.update(
                    i as int,
                    (first, spec_bucket_insert(prev, prefix@, bb)),
                ));
            }
            return ;
        }
        i += 1;
    }
    let mut fresh_paths: Vec<String> = Vec::new();
    fresh_paths.push(base);
    let mut fresh_bucket: Vec<(String, Vec<String>)> = Vec::new();
    fresh_bucket.push((prefix.clone(), fresh_paths));
    psr0.push((first, fresh_bucket));
    proof {
        lemma_psr0_insert_absent(m0, prefix@, bb);
        assert(seq_insert_unique(Seq::<Seq<char>>::empty(), bb) =~= seq![bb]);
        assert(spec_bucket_insert(Seq::empty(), prefix@, bb) =~= seq![(prefix@, seq![bb])]);
        assert(psr0@.last().1@.len() == 1);
        assert(psr0@.last().1@[0].0@ == prefix@);
        assert(strings_view(psr0@.last().1@[0].1@) =~= seq![bb]);
        assert(prefix_paths_view(psr0@.last().1@) =~= seq![(prefix@, seq![bb])]);
        assert(psr0_index_view(psr0@) =~= m0.push(
            (first, spec_bucket_insert(Seq::empty(), prefix@, bb)),
        ));
    }
}

/// Appends `base` to the ordered path list of `prefix`.
fn psr4_paths_push(paths: &mut Vec<(String, Vec<String>)>, prefix: &String, base: String)
    ensures
        prefix_paths_view(final(paths)@) == spec_paths_push(
            prefix_paths_view(old(paths)@),
            prefix@,
            base@,
        ),
{
broadcast use group_index_views;
        let ghost m0 = prefix_paths_view(old(paths)@);
    let ghost bb = base@;
    let mut i: usize = 0;
    while i < paths.len()
        invariant
            *paths == *old(paths),
            i <= paths.len(),
            m0 == prefix_paths_view(paths@),
            base@ == bb,
            forall|j: int| 0 <= j < i ==> m0[j].0 != prefix@,
        decreases paths.len() - i,
    {
        if paths[i].0.eq(prefix) {
            let ghost prev = m0[i as int].1;
            let mut entry = paths.remove(i);
            entry.1.push(base);
            paths.insert(i, entry);
            proof {
                lemma_paths_push_found(m0, prefix@, bb, i as int);
                assert(strings_view(paths@[i as int].1@) =~= prev.push(bb));
                assert(prefix_paths_view(paths@) =~= m0.update(i as int, (prefix@, prev.push(bb))));
            }
            return ;
        }
        i += 1;
    }
    let mut fresh: Vec<String> = Vec::new();
    fresh.push(base);
    paths.push((prefix.clone(), fresh));
    proof {
        lemma_paths_push_absent(m0, prefix@, bb);
        assert(strings_view(paths@.last().1@) =~= Seq::<Seq<char>>::empty().push(bb));
        assert(prefix_paths_view(paths@) =~= m0.push((prefix@, Seq::empty().push(bb))));
    }
}

/// Records the character length of `prefix` inside one first-character
/// bucket, overwriting an equal prefix.
fn prefix_lengths_set(bucket: &mut Vec<(String, usize)>, prefix: &String, len: usize)
    ensures
        prefix_lengths_view(final(bucket)@) == assoc_set(
            prefix_lengths_view(old(bucket)@),
            prefix@,
            len as int,
        ),
{
broadcast use group_index_views;
        let ghost m0 = prefix_lengths_view(old(bucket)@);
    let mut i: usize = 0;
    while i < bucket.len()
        invariant
            *bucket == *old(bucket),
            i <= bucket.len(),
            m0 == prefix_lengths_view(bucket@),
            forall|j: int| 0 <= j < i ==> m0[j].0 != prefix@,
        decreases bucket.len() - i,
    {
        if bucket[i].0.eq(prefix) {
            bucket[i] = (prefix.clone(), len);
            proof {
                lemma_assoc_set_found::<Seq<char>, int>(m0, prefix@, len as int, i as int);
                assert(prefix_lengths_view(bucket@) =~= m0.update(
                    i as int,
                    (prefix@, len as int),
                ));
            }
            return ;
        }
        i += 1;
    }
    bucket.push((prefix.clone(), len));
    proof {
        lemma_assoc_set_absent::<Seq<char>, int>(m0, prefix@, len as int);
        assert(prefix_lengths_view(bucket@) =~= m0.push((prefix@, len as int)));
    }
}

/// Records one PSR-4 prefix length: bucket by first character, then by the
/// full prefix.
fn psr4_prefix_set(
    lengths: &mut Vec<(char, Vec<(String, usize)>)>,
    first: char,
    prefix: &String,
    len: usize,
)
    requires
        prefix@.len() > 0,
        first == prefix@[0],
        len as int == prefix@.len() as int,
    ensures
        psr4_prefix_index_view(final(lengths)@) == spec_prefix_length_set(
            psr4_prefix_index_view(old(lengths)@),
            prefix@,
        ),
{
broadcast use group_index_views;
        let ghost m0 = psr4_prefix_index_view(old(lengths)@);
    let mut i: usize = 0;
    while i < lengths.len()
        invariant
            *lengths == *old(lengths),
            i <= lengths.len(),
            m0 == psr4_prefix_index_view(lengths@),
            prefix@.len() > 0,
            first == prefix@[0],
            len as int == prefix@.len() as int,
            forall|j: int| 0 <= j < i ==> m0[j].0 != first,
        decreases lengths.len() - i,
    {
        if lengths[i].0 == first {
            let ghost prev = m0[i as int].1;
            let mut entry = lengths.remove(i);
            prefix_lengths_set(&mut entry.1, prefix, len);
            lengths.insert(i, entry);
            proof {
                lemma_prefix_length_set_found(m0, prefix@, i as int);
                assert(psr4_prefix_index_view(lengths@) =~= m0.update(
                    i as int,
                    (first, assoc_set(prev, prefix@, prefix@.len() as int)),
                ));
            }
            return ;
        }
        i += 1;
    }
    let mut fresh_bucket: Vec<(String, usize)> = Vec::new();
    fresh_bucket.push((prefix.clone(), len));
    lengths.push((first, fresh_bucket));
    proof {
        lemma_prefix_length_set_absent(m0, prefix@);
        assert(assoc_set(Seq::<(Seq<char>, int)>::empty(), prefix@, prefix@.len() as int) =~= seq![
            (prefix@, prefix@.len() as int),
        ]);
        assert(prefix_lengths_view(lengths@.last().1@) =~= seq![(prefix@, prefix@.len() as int)]);
        assert(psr4_prefix_index_view(lengths@) =~= m0.push(
            (first, assoc_set(Seq::empty(), prefix@, prefix@.len() as int)),
        ));
    }
}

/// Builds the four autoload index structures from the manifest. Every
/// package's directives are honored, virtual or not, in manifest order; the
/// content hash is threaded through unchanged.
pub fn build_autoload_index(lock: &ComposerLock) -> (r: AutoloadIndex)
    requires
        spec_lock_prefixes_nonempty(lock@),
    ensures
        r@ == spec_autoload_index(lock@),
{
broadcast use group_index_views;
        let mut ix = AutoloadIndex {
        files: Vec::new(),
        psr0: Vec::new(),
        psr4_paths: Vec::new(),
        psr4_prefix: Vec::new(),
        content_hash: lock.content_hash.clone(),
    };
    proof {
        assert(ix@ =~= spec_empty_index(lock@.content_hash));
        assert(lock@.packages.take(0) =~= Seq::<PackageView>::empty());
    }
    let ghost start = spec_empty_index(lock@.content_hash);
    let n = lock.packages.len();
    for pi in 0..n
        invariant
            n == lock.packages.len(),
            spec_lock_prefixes_nonempty(lock@),
            start == spec_empty_index(lock@.content_hash),
            ix@ == spec_autoload_index_from(start, lock@.packages.take(pi as int)),
    {
        let package = &lock.packages[pi];
        proof {
            assert(lock@.packages[pi as int] == package@);
            assert(spec_prefixes_nonempty(package@));
        }
        let ghost snap = ix@;
        match &package.autoload {
            None => {
                proof {
                    assert(spec_add_package(snap, package@) == snap);
                }
            },
            Some(autoload) => {
                let name = &package.name;
                if let Some(files) = &autoload.files {
                    let ghost fentries = strings_view(files@);
                    let m = files.len();
                    proof {
                        assert(fentries.take(0) =~= Seq::<Seq<char>>::empty());
                    }
                    for fi in 0..m
                        invariant
                            m == files.len(),
                            fentries == strings_view(files@),
                            name@ == package@.name,
                            files_index_view(ix.files@) == spec_add_files(
                                snap.files,
                                package@.name,
                                fentries.take(fi as int),
                            ),
                            psr0_index_view(ix.psr0@) == snap.psr0,
                            prefix_paths_view(ix.psr4_paths@) == snap.psr4_paths,
                            psr4_prefix_index_view(ix.psr4_prefix@) == snap.psr4_prefix,
                            ix.content_hash@ == snap.content_hash,
                    {
                        let file = &files[fi];
                        let key = hash_file_identifier(file.as_str());
                        let qualified = package_qualified(name.as_str(), file.as_str());
                        files_set(&mut ix.files, key, qualified);
                        proof {
                            assert(fentries.take(fi + 1).drop_last() =~= fentries.take(fi as int));
                            assert(fentries.take(fi + 1).last() == file@);
                        }
                    }
                    proof {
                        assert(fentries.take(m as int) =~= fentries);
                    }
                }
                if let Some(psr0) = &autoload.psr0 {
                    let ghost zentries = crate::lock::pairs_view(psr0@);
                    let ghost files_after = files_index_view(ix.files@);
                    let m = psr0.len();
                    proof {
                        assert(zentries.take(0) =~= Seq::<(Seq<char>, Seq<char>)>::empty());
                    }
                    for zi in 0..m
                        invariant
                            m == psr0.len(),
                            zentries == crate::lock::pairs_view(psr0@),
                            name@ == package@.name,
                            forall|i: int| 0 <= i < zentries.len() ==> zentries[i].0.len() > 0,
                            files_index_view(ix.files@) == files_after,
                            psr0_index_view(ix.psr0@) == spec_add_psr0_entries(
                                snap.psr0,
                                package@.name,
                                zentries.take(zi as int),
                            ),
                            prefix_paths_view(ix.psr4_paths@) == snap.psr4_paths,
                            psr4_prefix_index_view(ix.psr4_prefix@) == snap.psr4_prefix,
                            ix.content_hash@ == snap.content_hash,
                    {
                        let entry = &psr0[zi];
                        let prefix = &entry.0;
                        let path = &entry.1;
                        proof {
                            assert(zentries[zi as int] == (prefix@, path@));
                            assert(prefix@.len() > 0);
                        }
                        let first = prefix.as_str().get_char(0);
                        let base = package_qualified(name.as_str(), path.as_str());
                        psr0_insert(&mut ix.psr0, first, prefix, base);
                        proof {
                            assert(zentries.take(zi + 1).drop_last() =~= zentries.take(zi as int));
                            assert(zentries.take(zi + 1).last() == (prefix@, path@));
                        }
                    }
                    proof {
                        assert(zentries.take(m as int) =~= zentries);
                    }
                }
                if let Some(psr4) = &autoload.psr4 {
                    let ghost qentries = crate::lock::pairs_view(psr4@);
                    let ghost files_after = files_index_view(ix.files@);
                    let ghost psr0_after = psr0_index_view(ix.psr0@);
                    let m = psr4.len();
                    proof {
                        assert(qentries.take(0) =~= Seq::<(Seq<char>, Seq<char>)>::empty());
                    }
                    for qi in 0..m
                        invariant
                            m == psr4.len(),
                            qentries == crate::lock::pairs_view(psr4@),
                            name@ == package@.name,
                            forall|i: int| 0 <= i < qentries.len() ==> qentries[i].0.len() > 0,
                            files_index_view(ix.files@) == files_after,
                            psr0_index_view(ix.psr0@) == psr0_after,
                            (
                                prefix_paths_view(ix.psr4_paths@),
                                psr4_prefix_index_view(ix.psr4_prefix@),
                            ) == spec_add_psr4_entries(
                                snap.psr4_paths,
                                snap.psr4_prefix,
                                package@.name,
                                qentries.take(qi as int),
                            ),
                            ix.content_hash@ == snap.content_hash,
                    {
                        let entry = &psr4[qi];
                        let prefix = &entry.0;
                        let path = &entry.1;
                        proof {
                            assert(qentries[qi as int] == (prefix@, path@));
                            assert(prefix@.len() > 0);
                        }
                        let first = prefix.as_str().get_char(0);
                        let len = prefix.as_str().unicode_len();
                        let base = package_qualified(name.as_str(), path.as_str());
                        psr4_paths_push(&mut ix.psr4_paths, prefix, base);
                        psr4_prefix_set(&mut ix.psr4_prefix, first, prefix, len);
                        proof {
                            assert(qentries.take(qi + 1).drop_last() =~= qentries.take(qi as int));
                            assert(qentries.take(qi + 1).last() == (prefix@, path@));
                        }
                    }
                    proof {
                        assert(qentries.take(m as int) =~= qentries);
                    }
                }
                proof {
                    assert(ix@ =~= spec_add_package(snap, package@));
                }
            },
        }
        proof {
            assert(lock@.packages.take(pi + 1).drop_last() =~= lock@.packages.take(pi as int));
            assert(lock@.packages.take(pi + 1).last() == package@);
        }
    }
    proof {
        assert(lock@.packages.take(n as int) =~= lock@.packages);
    }
    ix
}

/// Building the index twice from the same manifest yields identical
/// structures: the index is a pure function of the manifest.
pub proof fn lemma_autoload_index_deterministic(a: LockView, b: LockView)
    requires
        a == b,
    ensures
        spec_autoload_index(a) == spec_autoload_index(b),
{
}


/// An ordered set keeps one copy: inserting an element twice is the same as
/// inserting it once.
proof fn lemma_insert_unique_idempotent<T>(s: Seq<T>, x: T)
    ensures
        seq_insert_unique(seq_insert_unique(s, x), x) == seq_insert_unique(s, x),
{
    if !s.contains(x) {
        assert(s.push(x)[s.len() as int] == x);
        assert(s.push(x).contains(x));
    }
}

/// Re-adding the same base path under the same prefix leaves a PSR-0 bucket
/// unchanged.
proof fn lemma_bucket_readd_idempotent(bucket: PrefixPathsView, prefix: Seq<char>, base: Seq<char>)
    ensures
        spec_bucket_insert(spec_bucket_insert(bucket, prefix, base), prefix, base)
            == spec_bucket_insert(bucket, prefix, base),
    decreases bucket.len(),
{
    if bucket.len() == 0 {
        lemma_insert_unique_idempotent(Seq::<Seq<char>>::empty(), base);
        assert(spec_bucket_insert(spec_bucket_insert(bucket, prefix, base), prefix, base)
            =~= spec_bucket_insert(bucket, prefix, base));
    } else if bucket[0].0 == prefix {
        lemma_insert_unique_idempotent(bucket[0].1, base);
        assert(spec_bucket_insert(spec_bucket_insert(bucket, prefix, base), prefix, base)
            =~= spec_bucket_insert(bucket, prefix, base));
    } else {
        lemma_bucket_readd_idempotent(bucket.drop_first(), prefix, base);
        assert(spec_bucket_insert(bucket, prefix, base).drop_first()
            =~= spec_bucket_insert(bucket.drop_first(), prefix, base));
        assert(spec_bucket_insert(spec_bucket_insert(bucket, prefix, base), prefix, base)
            =~= spec_bucket_insert(bucket, prefix, base));
    }
}

/// Re-adding the same PSR-0 entry within a run is idempotent: the path set
/// is keyed by the path string, not counted.
pub proof fn lemma_psr0_readd_idempotent(psr0: Psr0IndexView, prefix: Seq<char>, base: Seq<char>)
    requires
        prefix.len() > 0,
    ensures
        spec_psr0_insert(spec_psr0_insert(psr0, prefix, base), prefix, base) == spec_psr0_insert(
            psr0,
            prefix,
            base,
        ),
    decreases psr0.len(),
{
    if psr0.len() == 0 {
        lemma_bucket_readd_idempotent(Seq::empty(), prefix, base);
        assert(spec_psr0_insert(spec_psr0_insert(psr0, prefix, base), prefix, base)
            =~= spec_psr0_insert(psr0, prefix, base));
    } else if psr0[0].0 == prefix[0] {
        lemma_bucket_readd_idempotent(psr0[0].1, prefix, base);
        assert(spec_psr0_insert(spec_psr0_insert(psr0, prefix, base), prefix, base)
            =~= spec_psr0_insert(psr0, prefix, base));
    } else {
        lemma_psr0_readd_idempotent(psr0.drop_first(), prefix, base);
        assert(spec_psr0_insert(psr0, prefix, base).drop_first()
            =~= spec_psr0_insert(psr0.drop_first(), prefix, base));
        assert(spec_psr0_insert(spec_psr0_insert(psr0, prefix, base), prefix, base)
            =~= spec_psr0_insert(psr0, prefix, base));
    }
}

/// Two packages declaring the same PSR-4 prefix accumulate both base paths,
/// in declaration order.
pub proof fn lemma_psr4_two_packages_accumulate(l: LockView, prefix: Seq<char>, path1: Seq<char>, path2: Seq<char>)
    requires
        prefix.len() > 0,
        l.packages.len() == 2,
        l.packages[0].autoload == Some(
            AutoloadView { files: None, psr0: None, psr4: Some(seq![(prefix, path1)]) },
        ),
        l.packages[1].autoload == Some(
            AutoloadView { files: None, psr0: None, psr4: Some(seq![(prefix, path2)]) },
        ),
    ensures
        spec_autoload_index(l).psr4_paths == seq![
            (
                prefix,
                seq![
                    spec_package_qualified(l.packages[0].name, path1),
                    spec_package_qualified(l.packages[1].name, path2),
                ],
            ),
        ],
{
    let base1 = spec_package_qualified(l.packages[0].name, path1);
    let base2 = spec_package_qualified(l.packages[1].name, path2);
    let pkgs = l.packages;
    let entries1 = seq![(prefix, path1)];
    let entries2 = seq![(prefix, path2)];
    assert(entries1.drop_last() =~= Seq::<(Seq<char>, Seq<char>)>::empty());
    assert(entries2.drop_last() =~= Seq::<(Seq<char>, Seq<char>)>::empty());
    let after1 = spec_paths_push(Seq::empty(), prefix, base1);
    assert(after1 =~~= seq![(prefix, seq![base1])]);
    let after2 = spec_paths_push(after1, prefix, base2);
    assert(after2 =~~= seq![(prefix, seq![base1, base2])]);

    let ix0 = spec_empty_index(l.content_hash);
    assert(spec_add_psr4_entries(ix0.psr4_paths, ix0.psr4_prefix, pkgs[0].name, entries1.drop_last())
        == (ix0.psr4_paths, ix0.psr4_prefix));
    let step1 = spec_add_psr4_entries(ix0.psr4_paths, ix0.psr4_prefix, pkgs[0].name, entries1);
    assert(step1.0 == after1);
    let ix1 = spec_add_package(ix0, pkgs[0]);
    assert(ix1.psr4_paths == after1);
    assert(ix1.psr4_prefix == step1.1);

    assert(spec_add_psr4_entries(ix1.psr4_paths, ix1.psr4_prefix, pkgs[1].name, entries2.drop_last())
        == (ix1.psr4_paths, ix1.psr4_prefix));
    let step2 = spec_add_psr4_entries(ix1.psr4_paths, ix1.psr4_prefix, pkgs[1].name, entries2);
    assert(step2.0 == after2);
    let ix2 = spec_add_package(ix1, pkgs[1]);
    assert(ix2.psr4_paths == after2);

    assert(pkgs.drop_last() =~= seq![pkgs[0]]);
    assert(seq![pkgs[0]].drop_last() =~= Seq::<PackageView>::empty());
    assert(spec_autoload_index_from(ix0, Seq::<PackageView>::empty()) == ix0);
    assert(spec_autoload_index_from(ix0, seq![pkgs[0]]) == ix1);
    assert(spec_autoload_index_from(ix0, pkgs) == ix2);
    assert(spec_autoload_index(l).psr4_paths =~~= seq![(prefix, seq![base1, base2])]);
}

/// Doubles every backslash, the escaping PHP string literals need.
pub open spec fn spec_php_escape(s: Seq<char>) -> Seq<char>
    decreases s.len(),
{
    if s.len() == 0 {
        Seq::empty()
    } else {
        (if s[0] == '\\' {
            seq!['\\', '\\']
        } else {
            seq![s[0]]
        }) + spec_php_escape(s.drop_first())
    }
}

/// Escapes backslashes for embedding a path or class name in PHP source.
pub fn php_escape(s: &str) -> (r: String)
    ensures
        r@ == spec_php_escape(s@),
{
    let mut r = String::new();
    let len = s.unicode_len();
    let mut i: usize = 0;
    while i < len
        invariant
            len == s@.len(),
            i <= len,
            r@ == spec_php_escape(s@.take(i as int)),
        decreases len - i,
    {
        proof {
            reveal_strlit("\\\\");
        }
        let c = s.get_char(i);
        if c == '\\' {
            r.append("\\\\");
        } else {
            let piece = s.substring_char(i, i + 1);
            r.append(piece);
        }
        proof {
            lemma_php_escape_step(s@, i as int);
            assert(s@.subrange(i as int, i + 1) =~= seq![s@[i as int]]);
        }
        i += 1;
    }
    proof {
        assert(s@.take(len as int) =~= s@);
    }
    r
}

/// Escaping one more character appends its escape.
proof fn lemma_php_escape_step(s: Seq<char>, i: int)
    requires
        0 <= i < s.len(),
    ensures
        spec_php_escape(s.take(i + 1)) == spec_php_escape(s.take(i)) + (if s[i] == '\\' {
            seq!['\\', '\\']
        } else {
            seq![s[i]]
        }),
    decreases i,
{
    if i == 0 {
        assert(s.take(1) =~= seq![s[0]]);
        assert(s.take(1).drop_first() =~= Seq::<char>::empty());
        assert(s.take(0) =~= Seq::<char>::empty());
        assert(spec_php_escape(s.take(i + 1)) =~= spec_php_escape(s.take(i)) + (if s[i] == '\\' {
            seq!['\\', '\\']
        } else {
            seq![s[i]]
        }));
    } else {
        lemma_php_escape_step(s.drop_first(), i - 1);
        assert(s.take(i + 1).drop_first() =~= s.drop_first().take(i));
        assert(s.take(i).drop_first() =~= s.drop_first().take(i - 1));
        assert(s.drop_first()[i - 1] == s[i]);
        assert(spec_php_escape(s.take(i + 1)) =~= spec_php_escape(s.take(i)) + (if s[i] == '\\' {
            seq!['\\', '\\']
        } else {
            seq![s[i]]
        }));
    }
}

} // verus!
