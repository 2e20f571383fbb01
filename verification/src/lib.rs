//! Core of a PHP dependency installer: the resolved lock manifest, the
//! per-package install plan, and the classmap / autoload index builders.

pub mod assoc;
pub mod autoload;
pub mod classmap;
pub mod install;
pub mod lock;

use vstd::prelude::*;

verus! {

/// A package-qualified path: `<package-name>/<relative-path>`.
pub open spec fn spec_package_qualified(name: Seq<char>, rel: Seq<char>) -> Seq<char> {
    name + seq!['/'] + rel
}

/// Builds `<package-name>/<relative-path>`, the form every index stores paths in.
pub fn package_qualified(name: &str, rel: &str) -> (r: String)
    ensures
        r@ == spec_package_qualified(name@, rel@),
{
    proof {
        reveal_strlit("/");
    }
    let mut r = String::new();
    r.append(name);
    r.append("/");
    r.append(rel);
    r
}

/// Character-wise string equality, the comparison the scanner and the
/// installer decide by.
pub fn str_equal(a: &str, b: &str) -> (r: bool)
    ensures
        r == (a@ == b@),
{
    let n = a.unicode_len();
    let m = b.unicode_len();
    if n != m {
        return false;
    }
    let mut i: usize = 0;
    while i < n
        invariant
            n == a@.len(),
            n == b@.len(),
            i <= n,
            forall|j: int| 0 <= j < i ==> a@[j] == b@[j],
        decreases n - i,
    {
        if a.get_char(i) != b.get_char(i) {
            return false;
        }
        i += 1;
    }
    proof {
        assert(a@ =~= b@);
    }
    true
}

} // verus!
