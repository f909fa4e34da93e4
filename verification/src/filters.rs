//! Package selectors: a filter is a user string that matches a package
//! by name, by exact file name, or as a shell-style glob over the file
//! name.

use vstd::prelude::*;

verus! {

use crate::package::{str_eq, Entry, Metadata, Package, PackageView};

/// Whether `pat` is a valid glob pattern; what `glob::Pattern::new`
/// accepts depends on the pattern string alone.
pub uninterp spec fn glob_ok(pat: Seq<char>) -> bool;

/// Whether the glob pattern `pat` matches `text`; the outcome depends
/// on the two strings alone.
pub uninterp spec fn glob_matches(pat: Seq<char>, text: Seq<char>) -> bool;

/// Relies on glob::Pattern::new: whether a pattern compiles is a
/// function of the pattern string.
#[verifier::external_body]
fn glob_compiles(pattern: &str) -> (r: bool)
    ensures
        r == glob_ok(pattern@),
{
    glob::Pattern::new(pattern).is_ok()
}

/// Relies on glob::Pattern::new and glob::Pattern::matches: an invalid
/// pattern yields nothing, a valid one its match verdict, both
/// functions of the two strings alone.
#[verifier::external_body]
fn glob_match(pattern: &str, text: &str) -> (r: Option<bool>)
    ensures
        r is Some <==> glob_ok(pattern@),
        glob_ok(pattern@) ==> r == Some(glob_matches(pattern@, text@)),
{
    glob::Pattern::new(pattern).ok().map(|p| p.matches(text))
}

/// A package selector: a literal string doubling as a glob pattern.
#[derive(Debug)]
pub struct Filter {
    pub string: String,
}

impl Filter {
    /// The wrapped string is a valid glob pattern.
    pub open spec fn wf(&self) -> bool {
        glob_ok(self.string@)
    }

    /// Whether this filter selects a package: its name equals the
    /// string, or its file name equals the string, or the glob matches
    /// the file name.
    pub open spec fn spec_match(&self, p: PackageView) -> bool {
        ||| p.name == self.string@
        ||| (p.metadata.contains_key(Entry::Filename) && p.metadata[Entry::Filename] is Path
            && (p.metadata[Entry::Filename]->Path_0 == self.string@ || glob_matches(
            self.string@,
            p.metadata[Entry::Filename]->Path_0,
        )))
    }

    /// Wrap a selector string; a string that is no valid glob pattern
    /// yields nothing.
    pub fn new(s: &str) -> (r: Option<Filter>)
        ensures
            r is Some <==> glob_ok(s@),
            r is Some ==> r->0.wf() && r->0.string@ == s@,
    {
        if glob_compiles(s) {
            Some(Filter { string: String::from_str(s) })
        } else {
            None
        }
    }

    /// Whether this filter selects `pkg`.
    pub fn match_pkg(&self, pkg: &Package) -> (r: bool)
        requires
            self.wf(),
            pkg.wf(),
        ensures
            r == self.spec_match(pkg@),
    {
        if str_eq(pkg.name.as_str(), self.string.as_str()) {
            return true;
        }
        match pkg.metadata_get(Entry::Filename) {
            Some(m) => match m {
                Metadata::Path(path) => {
                    if str_eq(path.as_str(), self.string.as_str()) {
                        true
                    } else {
                        match glob_match(self.string.as_str(), path.as_str()) {
                            Some(b) => b,
                            None => {
                                proof {
                                    assert(false);
                                }
                                false
                            },
                        }
                    }
                },
                _ => false,
            },
            None => false,
        }
    }
}

/// Whether any of the filters selects `pkg`.
pub fn match_targets(pkg: &Package, targets: &Vec<Filter>) -> (r: bool)
    requires
        pkg.wf(),
        forall|i: int| 0 <= i < targets@.len() ==> (#[trigger] targets@[i]).wf(),
    ensures
        r == exists|i: int|
            0 <= i < targets@.len() && (#[trigger] targets@[i]).spec_match(pkg@),
{
    let mut i: usize = 0;
    while i < targets.len()
        invariant
            pkg.wf(),
            i <= targets@.len(),
            forall|k: int| 0 <= k < targets@.len() ==> (#[trigger] targets@[k]).wf(),
            forall|k: int| 0 <= k < i ==> !(#[trigger] targets@[k]).spec_match(pkg@),
        decreases targets@.len() - i,
    {
        if targets[i].match_pkg(pkg) {
            return true;
        }
        i += 1;
    }
    false
}

} // verus!
