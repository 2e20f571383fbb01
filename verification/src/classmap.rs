//! The classmap builder: extracts fully-qualified class names from a source
//! file's statement tree and accumulates a class-name to file-path index.
//! The statement tree is handed in by the surrounding program, which obtains
//! it from an external source analyzer; everything the classmap reads of it
//! is modeled here as a closed tagged variant.

use vstd::prelude::*;

use crate::assoc::{assoc_set, lemma_assoc_set_absent, lemma_assoc_set_found};
use crate::lock::{pairs_view, strings_view};
use crate::str_equal;

verus! {

broadcast use vstd::std_specs::vec::group_vec_axioms;

/// The statement shapes the classmap reads: a class declaration, the two
/// syntactic forms of a namespace, and an inert remainder. An unbraced
/// namespace governs the statements that follow it in the same file; the
/// analyzer already nests those as its body.
#[derive(Debug)]
pub enum PhpStatement {
    Class { name: String },
    BracedNamespace { name: Option<String>, body: Vec<PhpStatement> },
    UnbracedNamespace { name: String, body: Vec<PhpStatement> },
    Other,
}

/// The fully-qualified class names one statement contributes, under the
/// namespace prefix in force.
pub open spec fn spec_statement_classes(s: PhpStatement, prefix: Seq<char>) -> Seq<Seq<char>>
    decreases s,
{
    match s {
        PhpStatement::Class { name } => seq![prefix + name@],
        PhpStatement::BracedNamespace { name, body } => {
            let inner = match name {
                Some(n) => prefix + n@ + seq!['\\'],
                None => prefix,
            };
            spec_statements_classes(body@, inner)
        },
        PhpStatement::UnbracedNamespace { name, body } => {
            spec_statements_classes(body@, prefix + name@ + seq!['\\'])
        },
        PhpStatement::Other => Seq::empty(),
    }
}

/// The class names a statement sequence contributes, in order.
pub open spec fn spec_statements_classes(ss: Seq<PhpStatement>, prefix: Seq<char>) -> Seq<
    Seq<char>,
>
    decreases ss,
{
    if ss.len() == 0 {
        Seq::empty()
    } else {
        spec_statements_classes(ss.drop_last(), prefix) + spec_statement_classes(
            ss.last(),
            prefix,
        )
    }
}

/// Walks the statements and collects every fully-qualified class name
/// declared at the top level or inside namespace blocks, `prefix` being the
/// namespace prefix in force.
pub fn get_classes_of_statements(statements: &Vec<PhpStatement>, prefix: &String) -> (r: Vec<
    String,
>)
    ensures
        strings_view(r@) == spec_statements_classes(statements@, prefix@),
    decreases statements@,
{
    broadcast use crate::autoload::group_index_views;

    let mut out: Vec<String> = Vec::new();
    proof {
        assert(statements@.take(0) =~= Seq::<PhpStatement>::empty());
    }
    let n = statements.len();
    for i in 0..n
        invariant
            n == statements.len(),
            strings_view(out@) == spec_statements_classes(statements@.take(i as int), prefix@),
    {
        match &statements[i] {
            PhpStatement::Class { name } => {
                let mut qualified = prefix.clone();
                qualified.append(name.as_str());
                out.push(qualified);
                proof {
                    assert(spec_statement_classes(statements@[i as int], prefix@) =~= seq![
                        prefix@ + name@,
                    ]);
                    assert(strings_view(out@) =~= spec_statements_classes(
                        statements@.take(i as int),
                        prefix@,
                    ) + seq![prefix@ + name@]);
                }
            },
            PhpStatement::BracedNamespace { name, body } => {
                let inner_prefix = match name {
                    Some(n) => {
                        let mut p = prefix.clone();
                        p.append(n.as_str());
                        p.append("\\");
                        proof {
                            reveal_strlit("\\");
                            assert(p@ =~= prefix@ + n@ + seq!['\\']);
                        }
                        p
                    },
                    None => prefix.clone(),
                };
                proof {
                    assert(decreases_to!(statements@ => statements@[i as int]));
                    assert(decreases_to!(statements@[i as int] => *body));
                    assert(decreases_to!(*body => body@));
                }
                let ghost out0 = out@;
                let ghost subv = spec_statements_classes(body@, inner_prefix@);
                let mut sub = get_classes_of_statements(body, &inner_prefix);
                out.append(&mut sub);
                proof {
                    assert(spec_statement_classes(statements@[i as int], prefix@) == subv);
                    assert(strings_view(out@) =~= strings_view(out0) + subv);
                }
            },
            PhpStatement::UnbracedNamespace { name, body } => {
                let mut p = prefix.clone();
                p.append(name.as_str());
                p.append("\\");
                proof {
                    reveal_strlit("\\");
                    assert(p@ =~= prefix@ + name@ + seq!['\\']);
                }
                proof {
                    assert(decreases_to!(statements@ => statements@[i as int]));
                    assert(decreases_to!(statements@[i as int] => *body));
                    assert(decreases_to!(*body => body@));
                }
                let ghost out0 = out@;
                let ghost subv = spec_statements_classes(body@, p@);
                let mut sub = get_classes_of_statements(body, &p);
                out.append(&mut sub);
                proof {
                    assert(spec_statement_classes(statements@[i as int], prefix@) == subv);
                    assert(strings_view(out@) =~= strings_view(out0) + subv);
                }
            },
            PhpStatement::Other => {
            },
        }
        proof {
            assert(statements@.take(i + 1).drop_last() =~= statements@.take(i as int));
            assert(statements@.take(i + 1).last() == statements@[i as int]);
            assert(spec_statements_classes(statements@.take(i + 1), prefix@)
                == spec_statements_classes(statements@.take(i as int), prefix@)
                + spec_statement_classes(statements@[i as int], prefix@));
            assert(strings_view(out@) =~= spec_statements_classes(
                statements@.take(i + 1),
                prefix@,
            ));
        }
    }
    proof {
        assert(statements@.take(n as int) =~= statements@);
    }
    out
}

/// Model of the class index: fully-qualified class name to the declaring
/// file's path, relative to the package root.
pub type ClassMapView = Seq<(Seq<char>, Seq<char>)>;

/// The class index after recording `classes` against `path`: a repeated
/// class name silently overwrites, last write winning.
pub open spec fn spec_add_classes(
    m: ClassMapView,
    classes: Seq<Seq<char>>,
    path: Seq<char>,
) -> ClassMapView
    decreases classes.len(),
{
    if classes.len() == 0 {
        m
    } else {
        assoc_set(spec_add_classes(m, classes.drop_last(), path), classes.last(), path)
    }
}

broadcast proof fn lemma_pairs_view_len(v: Seq<(String, String)>)
    ensures
        #[trigger] pairs_view(v).len() == v.len(),
{
}

broadcast proof fn lemma_pairs_view_index(v: Seq<(String, String)>, j: int)
    requires
        0 <= j < v.len(),
    ensures
        #[trigger] pairs_view(v)[j] == (v[j].0@, v[j].1@),
{
}

/// Records one class name against a path, overwriting an equal name.
fn classmap_set(map: &mut Vec<(String, String)>, class: String, path: String)
    ensures
        pairs_view(final(map)@) == assoc_set(pairs_view(old(map)@), class@, path@),
{
    broadcast use {lemma_pairs_view_len, lemma_pairs_view_index};

    let ghost m0 = pairs_view(old(map)@);
    let ghost cc = class@;
    let ghost pp = path@;
    let mut i: usize = 0;
    while i < map.len()
        invariant
            *map == *old(map),
            i <= map.len(),
            m0 == pairs_view(map@),
            class@ == cc,
            path@ == pp,
            forall|j: int| 0 <= j < i ==> m0[j].0 != cc,
        decreases map.len() - i,
    {
        if map[i].0.eq(&class) {
            map[i] = (class, path);
            proof {
                lemma_assoc_set_found::<Seq<char>, Seq<char>>(m0, cc, pp, i as int);
                assert(pairs_view(map@) =~= m0.update(i as int, (cc, pp)));
            }
            return ;
        }
        i += 1;
    }
    map.push((class, path));
    proof {
        lemma_assoc_set_absent::<Seq<char>, Seq<char>>(m0, cc, pp);
        assert(pairs_view(map@) =~= m0.push((cc, pp)));
    }
}

/// Records every class of `classes` against `relative_path`, in order.
pub fn add_classes_to_classmap(
    map: &mut Vec<(String, String)>,
    classes: &Vec<String>,
    relative_path: &String,
)
    ensures
        pairs_view(final(map)@) == spec_add_classes(
            pairs_view(old(map)@),
            strings_view(classes@),
            relative_path@,
        ),
{
    let ghost m0 = pairs_view(old(map)@);
    let ghost cs = strings_view(classes@);
    proof {
        assert(cs.take(0) =~= Seq::<Seq<char>>::empty());
    }
    let n = classes.len();
    for i in 0..n
        invariant
            n == classes.len(),
            cs == strings_view(classes@),
            pairs_view(map@) == spec_add_classes(m0, cs.take(i as int), relative_path@),
    {
        let class = classes[i].clone();
        let path = relative_path.clone();
        classmap_set(map, class, path);
        proof {
            assert(cs.take(i + 1).drop_last() =~= cs.take(i as int));
            assert(cs.take(i + 1).last() == classes@[i as int]@);
        }
    }
    proof {
        assert(cs.take(n as int) =~= cs);
    }
}

/// Scans one file's statement tree into the classmap: every class the tree
/// declares is recorded against `relative_path`, last write winning. A file
/// whose bytes fail analysis has no tree, contributes nothing, and leaves
/// the map as it was.
pub fn classmap_of_statements(
    map: &mut Vec<(String, String)>,
    statements: &Vec<PhpStatement>,
    relative_path: &String,
)
    ensures
        pairs_view(final(map)@) == spec_add_classes(
            pairs_view(old(map)@),
            spec_statements_classes(statements@, Seq::empty()),
            relative_path@,
        ),
{
    let empty_prefix = String::new();
    let classes = get_classes_of_statements(statements, &empty_prefix);
    add_classes_to_classmap(map, &classes, relative_path);
}

/// What the directory walk does with one entry: skip a whole directory,
/// skip a single entry, or visit it as a candidate source file.
#[derive(Debug, PartialEq, Eq, Structural)]
pub enum WalkDecision {
    SkipDirectory,
    SkipEntry,
    Visit,
}

/// A name that begins with the hidden-file marker.
pub open spec fn spec_is_hidden(name: Seq<char>) -> bool {
    name.len() > 0 && name[0] == '.'
}

pub open spec fn spec_ends_with(s: Seq<char>, suffix: Seq<char>) -> bool {
    suffix.len() <= s.len() && s.subrange(s.len() - suffix.len(), s.len() as int) == suffix
}

/// A candidate source file: one of the two recognized extensions.
pub open spec fn spec_is_source_file(path: Seq<char>) -> bool {
    spec_ends_with(path, seq!['.', 'p', 'h', 'p']) || spec_ends_with(
        path,
        seq!['.', 'i', 'n', 'c'],
    )
}

/// The walk's rule for one entry: hidden names and third-party JS dependency
/// trees are skipped wholesale, and only the recognized source extensions
/// are visited.
pub open spec fn spec_walk_decision(name: Seq<char>, path: Seq<char>) -> WalkDecision {
    if spec_is_hidden(name) {
        WalkDecision::SkipDirectory
    } else if name == "node_modules"@ {
        WalkDecision::SkipDirectory
    } else if !spec_is_source_file(path) {
        WalkDecision::SkipEntry
    } else {
        WalkDecision::Visit
    }
}

/// Whether `s` ends with `suffix`, character-wise.
pub fn str_ends_with(s: &str, suffix: &str) -> (r: bool)
    ensures
        r == spec_ends_with(s@, suffix@),
{
    let n = s.unicode_len();
    let m = suffix.unicode_len();
    if m > n {
        return false;
    }
    let mut i: usize = 0;
    while i < m
        invariant
            n == s@.len(),
            m == suffix@.len(),
            m <= n,
            i <= m,
            forall|j: int| 0 <= j < i ==> s@[n - m + j] == suffix@[j],
        decreases m - i,
    {
        if s.get_char(n - m + i) != suffix.get_char(i) {
            proof {
                assert(s@.subrange(n - m, n as int)[i as int] != suffix@[i as int]);
            }
            return false;
        }
        i += 1;
    }
    proof {
        assert(s@.subrange(n - m, n as int) =~= suffix@);
    }
    true
}

/// Decides what the directory walk does with one entry, from its file name
/// and its path.
pub fn walk_decision(file_name: &str, path: &str) -> (d: WalkDecision)
    ensures
        d == spec_walk_decision(file_name@, path@),
{
    let hidden = if file_name.unicode_len() > 0 {
        file_name.get_char(0) == '.'
    } else {
        false
    };
    if hidden {
        return WalkDecision::SkipDirectory;
    }
    if str_equal(file_name, "node_modules") {
        return WalkDecision::SkipDirectory;
    }
    let php = str_ends_with(path, ".php");
    let inc = str_ends_with(path, ".inc");
    proof {
        reveal_strlit(".php");
        reveal_strlit(".inc");
        assert(".php"@ =~= seq!['.', 'p', 'h', 'p']);
        assert(".inc"@ =~= seq!['.', 'i', 'n', 'c']);
    }
    if !php && !inc {
        return WalkDecision::SkipEntry;
    }
    WalkDecision::Visit
}

/// How one scan root is read: an absent root yields nothing (not an error),
/// a plain file is scanned by itself, and a directory is walked.
#[derive(Debug, PartialEq, Eq, Structural)]
pub enum ScanRoot {
    Missing,
    SingleFile,
    Directory,
}

pub open spec fn spec_scan_root_mode(exists: bool, is_file: bool) -> ScanRoot {
    if !exists {
        ScanRoot::Missing
    } else if is_file {
        ScanRoot::SingleFile
    } else {
        ScanRoot::Directory
    }
}

/// Classifies a scan root from what the filesystem reports of it.
pub fn scan_root_mode(exists: bool, is_file: bool) -> (m: ScanRoot)
    ensures
        m == spec_scan_root_mode(exists, is_file),
{
    if !exists {
        ScanRoot::Missing
    } else if is_file {
        ScanRoot::SingleFile
    } else {
        ScanRoot::Directory
    }
}

} // verus!
