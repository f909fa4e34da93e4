//! The repository store and emitter: an in-memory mapping from package
//! name to its current record, loaded from a previous index, merged
//! with the pool scan under the alpm version order, and printed back as
//! the per-package `desc`, `depends` and `files` trees.

use vstd::prelude::*;
use core::cmp::Ordering;

verus! {

use crate::alpm::{last_dash, lemma_run_len_is, run_len, vercmp_spec, lemma_vercmp_reflexive};
use crate::desc::{
    desc_order, desc_order_vec, depends_order, depends_order_vec, files_order,
    files_order_vec, parse_desc_spec, parse_into, render_page, render_text,
};
use crate::digest::{sha256_hex, sha256_hex_of};
use crate::error::Error;
use crate::package::{str_eq, Entry, MetaView, Metadata, Package, PackageView};
use crate::roundtrip::fresh_view;

/// The first index holding a package of the given name, or `-1`.
pub open spec fn find_name(s: Seq<PackageView>, name: Seq<char>) -> int
    decreases s.len(),
{
    if s.len() == 0 {
        -1
    } else if s[0].name == name {
        0
    } else {
        let r = find_name(s.skip(1), name);
        if r < 0 {
            -1
        } else {
            r + 1
        }
    }
}

pub proof fn lemma_find_name_is(s: Seq<PackageView>, name: Seq<char>, n: int)
    requires
        0 <= n <= s.len(),
        forall|k: int| 0 <= k < n ==> s[k].name != name,
        n < s.len() ==> s[n].name == name,
    ensures
        find_name(s, name) == if n < s.len() {
            n
        } else {
            -1
        },
    decreases n,
{
    if n == 0 {
    } else {
        assert(forall|k: int| 0 <= k < n - 1 ==> s.skip(1)[k].name == s[k + 1].name);
        lemma_find_name_is(s.skip(1), name, n - 1);
    }
}

pub proof fn lemma_find_name(s: Seq<PackageView>, name: Seq<char>)
    ensures
        -1 <= find_name(s, name) < s.len(),
        find_name(s, name) >= 0 ==> s[find_name(s, name)].name == name && (forall|k: int|
            0 <= k < find_name(s, name) ==> s[k].name != name),
        find_name(s, name) == -1 ==> forall|k: int| 0 <= k < s.len() ==> s[k].name != name,
    decreases s.len(),
{
    if s.len() > 0 && s[0].name != name {
        lemma_find_name(s.skip(1), name);
        assert(forall|k: int| 1 <= k < s.len() ==> #[trigger] s[k] == s.skip(1)[k - 1]);
    }
}

/// The rule of the pool scan: a new name is inserted; a known name is
/// replaced only by a strictly greater version, the first seen winning
/// ties.
pub open spec fn upsert_rule(acc: Seq<PackageView>, p: PackageView) -> Seq<PackageView> {
    let i = find_name(acc, p.name);
    if i < 0 {
        acc.push(p)
    } else if vercmp_spec(acc[i].version, p.version) == Ordering::Less {
        acc.update(i, p)
    } else {
        acc
    }
}

/// The store that results from scanning a pool sequence left to right.
pub open spec fn merge_pool(s: Seq<PackageView>) -> Seq<PackageView>
    decreases s.len(),
{
    if s.len() == 0 {
        Seq::empty()
    } else {
        upsert_rule(merge_pool(s.drop_last()), s.last())
    }
}

/// After a pool package is processed, the entry retained under its name
/// compares not-below it under the alpm order: a collision keeps the
/// strictly greater version.
pub proof fn lemma_merge_step_max(s: Seq<PackageView>, j: int)
    requires
        0 <= j < s.len(),
    ensures
        ({
            let m = merge_pool(s.take(j + 1));
            let i = find_name(m, s[j].name);
            &&& 0 <= i < m.len()
            &&& m[i].name == s[j].name
            &&& vercmp_spec(m[i].version, s[j].version) != Ordering::Less
        }),
{
    let pre = merge_pool(s.take(j + 1).drop_last());
    assert(s.take(j + 1).drop_last() =~= s.take(j));
    assert(s.take(j + 1).last() == s[j]);
    let p = s[j];
    let m = merge_pool(s.take(j + 1));
    assert(m == upsert_rule(pre, p));
    let i0 = find_name(pre, p.name);
    lemma_find_name(pre, p.name);
    if i0 < 0 {
        assert(m == pre.push(p));
        assert(forall|k: int| 0 <= k < pre.len() ==> m[k] == pre[k]);
        lemma_find_name_is(m, p.name, pre.len() as int);
        lemma_vercmp_reflexive(p.version);
    } else if vercmp_spec(pre[i0].version, p.version) == Ordering::Less {
        assert(m == pre.update(i0, p));
        lemma_find_name_is(m, p.name, i0);
        lemma_vercmp_reflexive(p.version);
    } else {
        assert(m == pre);
        lemma_find_name_is(m, p.name, i0);
    }
}

/// What a pool-scan upsert did.
pub enum UpsertOutcome {
    /// The name was new; the package was inserted.
    Added,
    /// The name was known with a strictly smaller version; the previous
    /// record's display form is carried for reporting.
    Updated(String),
    /// The name was known with a version not below the new one.
    Kept,
}

/// One regular file drawn from an index archive: its path inside the
/// archive and its contents, data blocks concatenated, as text.
pub struct LoadedFile {
    pub path: String,
    pub data: String,
}

impl View for LoadedFile {
    type V = (Seq<char>, Seq<char>);

    open spec fn view(&self) -> (Seq<char>, Seq<char>) {
        (self.path@, self.data@)
    }
}

/// The effect of one archive file on the loaded store: a path that does
/// not name a package directory is skipped; otherwise the named record
/// is created or fetched and the desc text folded into it.
pub open spec fn load_file(rs: Seq<PackageView>, path: Seq<char>, data: Seq<char>) -> Option<
    Seq<PackageView>,
> {
    match pkg_meta_of_path(path) {
        None => Some(rs),
        Some((n, v)) => {
            let i = find_name(rs, n);
            let base = if i < 0 {
                fresh_view(n, v)
            } else {
                rs[i]
            };
            match parse_desc_spec(data, base) {
                None => None,
                Some(q) => Some(
                    if i < 0 {
                        rs.push(q)
                    } else {
                        rs.update(i, q)
                    },
                ),
            }
        },
    }
}

pub open spec fn load_all(
    rs: Seq<PackageView>,
    files: Seq<(Seq<char>, Seq<char>)>,
    i: int,
) -> Option<Seq<PackageView>>
    decreases files.len() - i when 0 <= i <= files.len()
{
    if i >= files.len() {
        Some(rs)
    } else {
        match load_file(rs, files[i].0, files[i].1) {
            Some(rs2) => load_all(rs2, files, i + 1),
            None => None,
        }
    }
}

/// Split an index directory name on its last two hyphens: everything
/// before the second-to-last is the name, the rest the version.
pub open spec fn split_name_version(s: Seq<char>) -> Option<(Seq<char>, Seq<char>)> {
    match last_dash(s) {
        None => None,
        Some(d1) => match last_dash(s.take(d1)) {
            None => None,
            Some(d2) => Some((s.take(d2), s.skip(d2 + 1))),
        },
    }
}

/// The directory component of a two-component archive path `dir/file`.
pub open spec fn dir_of_path(s: Seq<char>) -> Option<Seq<char>> {
    let k = run_len(s, |c: char| c != '/') as int;
    if 0 < k < s.len() && s.skip(k + 1).len() > 0 && (forall|i: int|
        0 <= i < s.skip(k + 1).len() ==> #[trigger] s.skip(k + 1)[i] != '/') {
        Some(s.take(k))
    } else {
        None
    }
}

/// The package name and version named by an archive entry path, when
/// the path is a file directly under a `name-version` directory.
pub open spec fn pkg_meta_of_path(s: Seq<char>) -> Option<(Seq<char>, Seq<char>)> {
    match dir_of_path(s) {
        None => None,
        Some(d) => split_name_version(d),
    }
}

/// The position of the last `-` strictly before `hi`.
fn rfind_dash(s: &str, hi: usize) -> (r: Option<usize>)
    requires
        hi <= s@.len(),
    ensures
        match r {
            Some(i) => last_dash(s@.take(hi as int)) == Some(i as int) && i < hi,
            None => last_dash(s@.take(hi as int)) is None,
        },
{
    let ghost whole = s@.take(hi as int);
    let mut i: usize = hi;
    assert(whole.take(hi as int) =~= whole);
    while i > 0
        invariant
            i <= hi <= s@.len(),
            whole == s@.take(hi as int),
            last_dash(whole) == last_dash(whole.take(i as int)),
        decreases i,
    {
        if s.get_char(i - 1) == '-' {
            assert(whole.take(i as int)[i - 1] == s@[i - 1]);
            return Some(i - 1);
        }
        assert(whole.take(i as int)[i - 1] == s@[i - 1]);
        assert(whole.take(i as int).take(i - 1) =~= whole.take(i - 1));
        i -= 1;
    }
    None
}

/// Split a directory name `name-version-release` into its package name
/// and its version, on the last two hyphens.
pub fn parse_entry(name: &str) -> (r: Option<(String, String)>)
    ensures
        match r {
            Some(p) => split_name_version(name@) == Some((p.0@, p.1@)),
            None => split_name_version(name@) is None,
        },
{
    let n = name.unicode_len();
    assert(name@.take(n as int) =~= name@);
    match rfind_dash(name, n) {
        None => None,
        Some(d1) => {
            proof {
                crate::alpm::lemma_last_dash_range(name@);
            }
            match rfind_dash(name, d1) {
                None => None,
                Some(d2) => {
                    let pkg = name.substring_char(0, d2);
                    let ver = name.substring_char(d2 + 1, n);
                    proof {
                        assert(pkg@ =~= name@.take(d2 as int));
                        assert(ver@ =~= name@.skip(d2 as int + 1));
                    }
                    Some((String::from_str(pkg), String::from_str(ver)))
                },
            }
        },
    }
}

/// The package name and version named by an archive entry path.
pub fn get_pkg_metadata(path: &str) -> (r: Option<(String, String)>)
    ensures
        match r {
            Some(p) => pkg_meta_of_path(path@) == Some((p.0@, p.1@)),
            None => pkg_meta_of_path(path@) is None,
        },
{
    let n = path.unicode_len();
    let mut k: usize = 0;
    while k < n && path.get_char(k) != '/'
        invariant
            n == path@.len(),
            k <= n,
            forall|i: int| 0 <= i < k ==> path@[i] != '/',
        decreases n - k,
    {
        k += 1;
    }
    proof {
        lemma_run_len_is(path@, |c: char| c != '/', k as nat);
    }
    if k == 0 || k >= n {
        return None;
    }
    // the rest must be one non-empty component without slashes
    let mut j: usize = k + 1;
    while j < n
        invariant
            n == path@.len(),
            k + 1 <= j <= n,
            run_len(path@, |c: char| c != '/') == k as nat,
            forall|i: int| k + 1 <= i < j ==> path@[i] != '/',
        decreases n - j,
    {
        if path.get_char(j) == '/' {
            assert(path@.skip(k as int + 1)[j - k - 1] == path@[j as int]);
            return None;
        }
        j += 1;
    }
    if k + 1 >= n {
        assert(path@.skip(k as int + 1).len() == 0);
        return None;
    }
    proof {
        assert(forall|i: int|
            0 <= i < path@.skip(k as int + 1).len() ==> #[trigger] path@.skip(k as int + 1)[i]
                == path@[k + 1 + i]);
    }
    let dir = path.substring_char(0, k);
    proof {
        assert(dir@ =~= path@.take(k as int));
    }
    parse_entry(dir)
}

/// The repository store: one record per package name.
pub struct Repo {
    pub cache: Vec<Package>,
}

impl Repo {
    /// The records held, as mathematical values.
    pub open spec fn views(&self) -> Seq<PackageView> {
        self.cache@.map_values(|p: Package| p@)
    }

    /// Every record is well formed and no name occurs twice.
    pub open spec fn wf(&self) -> bool {
        &&& forall|i: int| 0 <= i < self.cache@.len() ==> (#[trigger] self.cache@[i]).wf()
        &&& forall|i: int, j: int|
            0 <= i < j < self.cache@.len() ==> self.cache@[i]@.name != self.cache@[j]@.name
    }

    /// The empty store.
    pub fn new() -> (r: Repo)
        ensures
            r.wf(),
            r.views() == Seq::<PackageView>::empty(),
    {
        let r = Repo { cache: Vec::new() };
        assert(r.views() =~= Seq::<PackageView>::empty());
        r
    }

    /// All records, in storage order; no order is promised to callers.
    pub fn pkgs(&self) -> (r: &Vec<Package>)
        ensures
            r == &self.cache,
    {
        &self.cache
    }

    fn find_index(&self, name: &str) -> (r: Option<usize>)
        requires
            self.wf(),
        ensures
            match r {
                Some(i) => i < self.cache@.len() && find_name(self.views(), name@) == i as int,
                None => find_name(self.views(), name@) == -1,
            },
    {
        let ghost vs = self.views();
        let mut i: usize = 0;
        while i < self.cache.len()
            invariant
                self.wf(),
                vs == self.views(),
                i <= self.cache@.len(),
                vs.len() == self.cache@.len(),
                forall|k: int| 0 <= k < i ==> vs[k].name != name@,
            decreases self.cache@.len() - i,
        {
            assert(vs[i as int] == self.cache@[i as int]@);
            if str_eq(self.cache[i].name.as_str(), name) {
                proof {
                    lemma_find_name_is(vs, name@, i as int);
                }
                return Some(i);
            }
            i += 1;
        }
        proof {
            lemma_find_name_is(vs, name@, vs.len() as int);
        }
        None
    }

    /// The record of the given name, if any.
    pub fn get(&self, pkgname: &str) -> (r: Option<&Package>)
        requires
            self.wf(),
        ensures
            match r {
                Some(p) => find_name(self.views(), pkgname@) >= 0 && p@ == self.views()[
                    find_name(self.views(), pkgname@)
                ] && p.wf(),
                None => find_name(self.views(), pkgname@) == -1,
            },
    {
        match self.find_index(pkgname) {
            Some(i) => {
                assert(self.views()[i as int] == self.cache@[i as int]@);
                Some(&self.cache[i])
            },
            None => None,
        }
    }

    /// Insert or replace under the pool-scan rule: a known name is
    /// replaced only by a strictly greater version.
    pub fn upsert(&mut self, pkg: Package) -> (r: UpsertOutcome)
        requires
            old(self).wf(),
            pkg.wf(),
        ensures
            final(self).wf(),
            final(self).views() == upsert_rule(old(self).views(), pkg@),
            ({
                let i = find_name(old(self).views(), pkg@.name);
                &&& (r is Added <==> i < 0)
                &&& (r is Updated <==> i >= 0 && vercmp_spec(
                    old(self).views()[i].version,
                    pkg@.version,
                ) == Ordering::Less)
                &&& (r is Updated ==> r->Updated_0@ == old(self).views()[i].name + seq!['-']
                    + old(self).views()[i].version)
            }),
    {
        let ghost vs = self.views();
        proof {
            lemma_find_name(vs, pkg@.name);
        }
        match self.find_index(pkg.name.as_str()) {
            None => {
                self.cache.push(pkg);
                proof {
                    assert(forall|k: int|
                        0 <= k < vs.len() ==> vs[k] == old(self).cache@[k]@);
                    assert(self.views() =~= vs.push(pkg@));
                    assert(forall|k: int|
                        0 <= k < old(self).cache@.len() ==> #[trigger] self.cache@[k]
                            == old(self).cache@[k]);
                    assert(self.cache@.last() == pkg);
                    assert forall|k: int|
                        0 <= k < old(self).cache@.len() implies #[trigger] self.cache@[
                        k
                    ]@.name != pkg@.name by {
                        assert(vs[k] == old(self).cache@[k]@);
                        assert(vs[k].name != pkg@.name);
                    }
                    assert(self.wf());
                }
                UpsertOutcome::Added
            },
            Some(i) => {
                assert(vs[i as int] == self.cache@[i as int]@);
                let prev = self.cache[i].display();
                let ord = self.cache[i].version.cmp(&pkg.version);
                match ord {
                    Ordering::Less => {
                        self.cache.set(i, pkg);
                        proof {
                            assert(forall|k: int|
                                0 <= k < vs.len() ==> vs[k] == old(self).cache@[k]@);
                            assert(self.views() =~= vs.update(i as int, pkg@));
                            assert(pkg@.name == vs[i as int].name);
                            assert(forall|k: int|
                                0 <= k < self.cache@.len() && k != i
                                    ==> #[trigger] self.cache@[k] == old(self).cache@[k]);
                            assert(self.wf());
                        }
                        UpsertOutcome::Updated(prev)
                    },
                    _ => {
                        UpsertOutcome::Kept
                    },
                }
            },
        }
    }

    /// Remove the record of the given name, handing it back.
    pub fn remove(&mut self, pkgname: &str) -> (r: Option<Package>)
        requires
            old(self).wf(),
        ensures
            final(self).wf(),
            ({
                let i = find_name(old(self).views(), pkgname@);
                match r {
                    Some(p) => i >= 0 && p@ == old(self).views()[i] && final(self).views()
                        == old(self).views().remove(i),
                    None => i == -1 && final(self).views() == old(self).views(),
                }
            }),
    {
        let ghost vs = self.views();
        proof {
            lemma_find_name(vs, pkgname@);
        }
        match self.find_index(pkgname) {
            None => None,
            Some(i) => {
                assert(vs[i as int] == self.cache@[i as int]@);
                let p = self.cache.remove(i);
                proof {
                    assert(self.views() =~= vs.remove(i as int));
                    assert(forall|k: int|
                        0 <= k < self.cache@.len() ==> self.cache@[k]
                            == if k < i { old(self).cache@[k] } else {
                            old(self).cache@[k + 1]
                        });
                }
                Some(p)
            },
        }
    }

    /// Build a store from a pool scan, newest version winning per name.
    pub fn from_iter(pkgs: Vec<Package>) -> (r: Repo)
        requires
            forall|i: int| 0 <= i < pkgs@.len() ==> (#[trigger] pkgs@[i]).wf(),
        ensures
            r.wf(),
            r.views() == merge_pool(pkgs@.map_values(|p: Package| p@)),
    {
        let ghost all = pkgs@.map_values(|p: Package| p@);
        let mut repo = Repo::new();
        assert(merge_pool(all.take(0)) =~= Seq::<PackageView>::empty()) by {
            assert(all.take(0) =~= Seq::<PackageView>::empty());
        }
        let mut i: usize = 0;
        let n = pkgs.len();
        let mut rest = pkgs;
        // consume from the front to move each package into the store
        while i < n
            invariant
                i <= n,
                n == all.len(),
                rest@.len() == n - i,
                forall|k: int| 0 <= k < rest@.len() ==> (#[trigger] rest@[k])@ == all[i + k],
                forall|k: int| 0 <= k < rest@.len() ==> (#[trigger] rest@[k]).wf(),
                repo.wf(),
                repo.views() == merge_pool(all.take(i as int)),
            decreases n - i,
        {
            let ghost pre = repo.views();
            let p = rest.remove(0);
            assert(p@ == all[i as int]);
            repo.upsert(p);
            proof {
                assert(all.take(i + 1).drop_last() =~= all.take(i as int));
                assert(all.take(i + 1).last() == all[i as int]);
                assert(merge_pool(all.take(i + 1)) == upsert_rule(pre, all[i as int]));
            }
            i += 1;
        }
        assert(all.take(n as int) =~= all);
        repo
    }

    /// Fold a batch of index archive files into the store.
    pub fn load(&mut self, files: &Vec<LoadedFile>) -> (r: Result<(), Error>)
        requires
            old(self).wf(),
        ensures
            final(self).wf(),
            match r {
                Ok(_) => Some(final(self).views()) == load_all(
                    old(self).views(),
                    files@.map_values(|f: LoadedFile| f@),
                    0,
                ),
                Err(er) => load_all(
                    old(self).views(),
                    files@.map_values(|f: LoadedFile| f@),
                    0,
                ) is None && er is MalformedDesc,
            },
    {
        let ghost fs = files@.map_values(|f: LoadedFile| f@);
        let mut i: usize = 0;
        while i < files.len()
            invariant
                self.wf(),
                i <= files@.len(),
                fs == files@.map_values(|f: LoadedFile| f@),
                fs.len() == files@.len(),
                load_all(old(self).views(), fs, 0) == load_all(self.views(), fs, i as int),
            decreases files@.len() - i,
        {
            let ghost pre = self.views();
            assert(fs[i as int] == files@[i as int]@);
            let file = &files[i];
            match get_pkg_metadata(file.path.as_str()) {
                None => {
                },
                Some((n, v)) => {
                    let found = self.find_index(n.as_str());
                    proof {
                        lemma_find_name(pre, n@);
                    }
                    let mut p: Package = match found {
                        Some(idx) => {
                            assert(pre[idx as int] == self.cache@[idx as int]@);
                            self.cache[idx].duplicate()
                        },
                        None => Package::new(n.as_str(), v.as_str()),
                    };
                    proof {
                        if found is None {
                            assert(p@ =~= fresh_view(n@, v@));
                        }
                    }
                    let ghost cpre = self.cache@;
                    match parse_into(&mut p, file.data.as_str()) {
                        Err(er) => {
                            return Err(er);
                        },
                        Ok(_) => {
                            match found {
                                Some(idx) => {
                                    proof {
                                        assert(p@.name == pre[idx as int].name);
                                    }
                                    self.cache.set(idx, p);
                                    proof {
                                        assert(forall|k: int|
                                            0 <= k < pre.len() ==> pre[k] == cpre[k]@);
                                        assert(self.views() =~= pre.update(idx as int, p@));
                                        assert(forall|k: int|
                                            0 <= k < self.cache@.len() && k != idx
                                                ==> #[trigger] self.cache@[k] == cpre[k]);
                                        assert(self.wf());
                                    }
                                },
                                None => {
                                    proof {
                                        assert(p@.name == n@);
                                    }
                                    self.cache.push(p);
                                    proof {
                                        assert(forall|k: int|
                                            0 <= k < pre.len() ==> pre[k] == cpre[k]@);
                                        assert(self.views() =~= pre.push(p@));
                                        assert(forall|k: int|
                                            0 <= k < cpre.len() ==> #[trigger] self.cache@[k]
                                                == cpre[k]);
                                        assert(self.cache@.last() == p);
                                        assert forall|k: int|
                                            0 <= k < cpre.len()
                                                implies #[trigger] self.cache@[k]@.name
                                            != n@ by {
                                            assert(pre[k] == cpre[k]@);
                                            assert(pre[k].name != n@);
                                        }
                                        assert(self.wf());
                                    }
                                },
                            }
                        },
                    }
                },
            }
            i += 1;
        }
        Ok(())
    }
}

/// Which of the three index trees a page belongs to.
#[derive(Clone, Copy, Debug)]
pub enum RepoEntry {
    Desc,
    Depends,
    Files,
}

/// The section order of each index page.
pub open spec fn entry_order(re: RepoEntry) -> Seq<Entry> {
    match re {
        RepoEntry::Desc => desc_order(),
        RepoEntry::Depends => depends_order(),
        RepoEntry::Files => files_order(),
    }
}

/// The file name of each index page inside a package's directory.
pub open spec fn entry_filename(re: RepoEntry) -> Seq<char> {
    match re {
        RepoEntry::Desc => "desc"@,
        RepoEntry::Depends => "depends"@,
        RepoEntry::Files => "files"@,
    }
}

impl RepoEntry {
    /// The file this page is written as.
    pub fn filename(&self) -> (r: &'static str)
        ensures
            r@ == entry_filename(*self),
    {
        match self {
            RepoEntry::Desc => "desc",
            RepoEntry::Depends => "depends",
            RepoEntry::Files => "files",
        }
    }

    /// Print this page for one package: its sections in the fixed
    /// order, those present only.
    pub fn render(&self, pkg: &Package) -> (r: String)
        requires
            pkg.wf(),
        ensures
            r@ == render_text(pkg@, entry_order(*self)),
    {
        match self {
            RepoEntry::Desc => {
                let order = desc_order_vec();
                render_page(pkg, &order)
            },
            RepoEntry::Depends => {
                let order = depends_order_vec();
                render_page(pkg, &order)
            },
            RepoEntry::Files => {
                let order = files_order_vec();
                render_page(pkg, &order)
            },
        }
    }
}

/// The non-empty pages of one package's index directory, each with its
/// file name, in the order requested.
pub open spec fn pages_spec(p: PackageView, es: Seq<RepoEntry>) -> Seq<(Seq<char>, Seq<char>)>
    decreases es.len(),
{
    if es.len() == 0 {
        Seq::empty()
    } else {
        let rest = pages_spec(p, es.skip(1));
        let text = render_text(p, entry_order(es[0]));
        if text.len() == 0 {
            rest
        } else {
            seq![(entry_filename(es[0]), text)] + rest
        }
    }
}

/// Print the requested pages of one package, dropping empty renderings.
pub fn package_pages(pkg: &Package, entries: &Vec<RepoEntry>) -> (r: Vec<(String, String)>)
    requires
        pkg.wf(),
    ensures
        r@.map_values(|t: (String, String)| (t.0@, t.1@)) == pages_spec(pkg@, entries@),
{
    let mut r: Vec<(String, String)> = Vec::new();
    let ghost acc: Seq<(Seq<char>, Seq<char>)> = Seq::empty();
    let mut i: usize = 0;
    proof {
        assert(entries@.skip(0) =~= entries@);
    }
    let mut out: Vec<(String, String)> = Vec::new();
    while i < entries.len()
        invariant
            pkg.wf(),
            i <= entries@.len(),
            out@.map_values(|t: (String, String)| (t.0@, t.1@)) + pages_spec(
                pkg@,
                entries@.skip(i as int),
            ) == pages_spec(pkg@, entries@),
        decreases entries@.len() - i,
    {
        let ghost tail = entries@.skip(i as int);
        proof {
            assert(tail.skip(1) =~= entries@.skip(i + 1));
            assert(tail[0] == entries@[i as int]);
        }
        let e = entries[i];
        let page = e.render(pkg);
        if page.as_str().unicode_len() > 0 {
            let name = String::from_str(e.filename());
            let ghost prior = out@.map_values(|t: (String, String)| (t.0@, t.1@));
            out.push((name, page));
            proof {
                assert(out@.map_values(|t: (String, String)| (t.0@, t.1@)) =~= prior.push(
                    (entry_filename(e), render_text(pkg@, entry_order(e))),
                ));
                assert(prior.push((entry_filename(e), render_text(pkg@, entry_order(e))))
                    + pages_spec(pkg@, tail.skip(1)) =~= prior + (seq![
                    (entry_filename(e), render_text(pkg@, entry_order(e))),
                ] + pages_spec(pkg@, tail.skip(1))));
            }
        }
        i += 1;
    }
    proof {
        assert(entries@.skip(entries@.len() as int) =~= Seq::<RepoEntry>::empty());
        assert(out@.map_values(|t: (String, String)| (t.0@, t.1@)) + Seq::<(
            Seq<char>,
            Seq<char>,
        )>::empty() =~= out@.map_values(|t: (String, String)| (t.0@, t.1@)));
    }
    out
}

/// Whether a file path belongs in the `files` listing: everything not
/// starting with `.` (which hides `.PKGINFO` and its peers).
pub open spec fn keep_path(p: Seq<char>) -> bool {
    p.len() == 0 || p[0] != '.'
}

/// The visible file paths of a package archive, order preserved.
pub fn file_list(paths: &Vec<String>) -> (r: Vec<String>)
    ensures
        r.deep_view() == paths.deep_view().filter(|p: Seq<char>| keep_path(p)),
{
    let ghost pv = paths.deep_view();
    let mut out: Vec<String> = Vec::new();
    let ghost mut acc: Seq<Seq<char>> = Seq::empty();
    proof {
        reveal_with_fuel(Seq::filter, 2);
        assert(pv.take(0) =~= Seq::<Seq<char>>::empty());
        assert(Seq::<Seq<char>>::empty().filter(|p: Seq<char>| keep_path(p))
            =~= Seq::<Seq<char>>::empty());
    }
    let mut i: usize = 0;
    while i < paths.len()
        invariant
            i <= paths@.len(),
            pv == paths.deep_view(),
            pv.len() == paths@.len(),
            acc == pv.take(i as int).filter(|p: Seq<char>| keep_path(p)),
            out@.len() == acc.len(),
            forall|k: int| 0 <= k < acc.len() ==> out@[k]@ == acc[k],
        decreases paths@.len() - i,
    {
        assert(pv[i as int] == paths@[i as int]@);
        let s = &paths[i];
        let keep = if s.as_str().unicode_len() == 0 {
            true
        } else {
            s.as_str().get_char(0) != '.'
        };
        proof {
            reveal_with_fuel(Seq::filter, 2);
            assert(pv.take(i + 1).drop_last() =~= pv.take(i as int));
            assert(pv.take(i + 1).last() == pv[i as int]);
            assert(keep == keep_path(pv[i as int]));
            if keep_path(pv[i as int]) {
                assert(pv.take(i + 1).filter(|p: Seq<char>| keep_path(p)) == pv.take(
                    i as int,
                ).filter(|p: Seq<char>| keep_path(p)).push(pv[i as int]));
            } else {
                assert(pv.take(i + 1).filter(|p: Seq<char>| keep_path(p)) == pv.take(
                    i as int,
                ).filter(|p: Seq<char>| keep_path(p)));
            }
        }
        if keep {
            out.push(s.clone());
            proof {
                acc = acc.push(pv[i as int]);
            }
        }
        i += 1;
    }
    proof {
        assert(pv.take(pv.len() as int) =~= pv);
        assert(out.deep_view() =~~= acc);
    }
    out
}

/// Store the hex digest of the package file's bytes under `SHA256Sum`
/// when the record lacks one, as the emitter computes it on demand.
pub fn ensure_sha256(pkg: &mut Package, data: &Vec<u8>)
    requires
        old(pkg).wf(),
    ensures
        final(pkg).wf(),
        old(pkg)@.metadata.contains_key(Entry::SHA256Sum) ==> final(pkg)@ == old(pkg)@,
        !old(pkg)@.metadata.contains_key(Entry::SHA256Sum) ==> final(pkg)@ == (PackageView {
            metadata: old(pkg)@.metadata.insert(
                Entry::SHA256Sum,
                MetaView::Text(sha256_hex(data@)),
            ),
            ..old(pkg)@
        }),
{
    let missing = match pkg.metadata_get(Entry::SHA256Sum) {
        Some(_) => false,
        None => true,
    };
    if missing {
        let hex = sha256_hex_of(data);
        pkg.metadata_insert(Entry::SHA256Sum, Metadata::Text(hex));
        assert(pkg@ =~= (PackageView {
            metadata: old(pkg)@.metadata.insert(
                Entry::SHA256Sum,
                MetaView::Text(sha256_hex(data@)),
            ),
            ..old(pkg)@
        }));
    } else {
        assert(pkg@ =~= old(pkg)@);
    }
}

/// Store the archive's visible file paths under `Files` when the record
/// lacks a listing, as the emitter computes it on demand.
pub fn ensure_files(pkg: &mut Package, paths: &Vec<String>)
    requires
        old(pkg).wf(),
    ensures
        final(pkg).wf(),
        old(pkg)@.metadata.contains_key(Entry::Files) ==> final(pkg)@ == old(pkg)@,
        !old(pkg)@.metadata.contains_key(Entry::Files) ==> final(pkg)@ == (PackageView {
            metadata: old(pkg)@.metadata.insert(
                Entry::Files,
                MetaView::List(paths.deep_view().filter(|p: Seq<char>| keep_path(p))),
            ),
            ..old(pkg)@
        }),
{
    let missing = match pkg.metadata_get(Entry::Files) {
        Some(_) => false,
        None => true,
    };
    if missing {
        let listed = file_list(paths);
        pkg.metadata_insert(Entry::Files, Metadata::List(listed));
        assert(pkg@ =~= (PackageView {
            metadata: old(pkg)@.metadata.insert(
                Entry::Files,
                MetaView::List(paths.deep_view().filter(|p: Seq<char>| keep_path(p))),
            ),
            ..old(pkg)@
        }));
    } else {
        assert(pkg@ =~= old(pkg)@);
    }
}

} // verus!
