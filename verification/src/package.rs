//! The typed package metadata model: entry keys, tagged values, the
//! architecture tag, version strings and the `Package` record itself.

use vstd::prelude::*;
use core::cmp::Ordering;

verus! {

use crate::alpm::{vercmp_spec, lex_cmp, pkg_vercmp, chars_of};

/// The closed set of recognized metadata keys.
#[derive(Clone, Copy, PartialEq, Eq, Hash, Debug, Structural)]
pub enum Entry {
    Filename,
    Name,
    Base,
    Version,
    Description,
    Groups,
    PackageSize,
    InstallSize,
    SHA256Sum,
    PGPSig,
    Url,
    License,
    Arch,
    BuildDate,
    Packager,
    Replaces,
    Depends,
    Conflicts,
    Provides,
    OptDepends,
    MakeDepends,
    CheckDepends,
    Files,
    Deltas,
    Backups,
    BuildOptions,
    BuildDirectory,
    BuildEnvironment,
    BuildInstalled,
}

/// The value shape each entry kind canonically carries.
#[derive(Clone, Copy, PartialEq, Eq, Debug, Structural)]
pub enum Shape {
    Text,
    Size,
    Timestamp,
    List,
    Path,
}

pub open spec fn shape_of(e: Entry) -> Shape {
    match e {
        Entry::Filename => Shape::Path,
        Entry::Name => Shape::Text,
        Entry::Base => Shape::Text,
        Entry::Version => Shape::Text,
        Entry::Description => Shape::Text,
        Entry::PackageSize => Shape::Size,
        Entry::InstallSize => Shape::Size,
        Entry::SHA256Sum => Shape::Text,
        Entry::PGPSig => Shape::Text,
        Entry::Url => Shape::Text,
        Entry::Arch => Shape::Text,
        Entry::BuildDate => Shape::Timestamp,
        Entry::Packager => Shape::Text,
        _ => Shape::List,
    }
}

/// The canonical value shape of an entry kind, consulted both when
/// parsing `.PKGINFO` and when parsing desc-format files.
pub fn shape(e: Entry) -> (s: Shape)
    ensures
        s == shape_of(e),
{
    match e {
        Entry::Filename => Shape::Path,
        Entry::Name => Shape::Text,
        Entry::Base => Shape::Text,
        Entry::Version => Shape::Text,
        Entry::Description => Shape::Text,
        Entry::PackageSize => Shape::Size,
        Entry::InstallSize => Shape::Size,
        Entry::SHA256Sum => Shape::Text,
        Entry::PGPSig => Shape::Text,
        Entry::Url => Shape::Text,
        Entry::Arch => Shape::Text,
        Entry::BuildDate => Shape::Timestamp,
        Entry::Packager => Shape::Text,
        _ => Shape::List,
    }
}

/// A metadata value: scalar text, a decimal size, a timestamp, an
/// ordered list of lines, or a pool-relative file path.
#[derive(Debug)]
pub enum Metadata {
    Text(String),
    Size(u64),
    Timestamp(i64),
    List(Vec<String>),
    Path(String),
}

/// The mathematical value of a metadata entry.
pub enum MetaView {
    Text(Seq<char>),
    Size(u64),
    Timestamp(i64),
    List(Seq<Seq<char>>),
    Path(Seq<char>),
}

impl View for Metadata {
    type V = MetaView;

    open spec fn view(&self) -> MetaView {
        match self {
            Metadata::Text(s) => MetaView::Text(s@),
            Metadata::Size(n) => MetaView::Size(*n),
            Metadata::Timestamp(n) => MetaView::Timestamp(*n),
            Metadata::List(l) => MetaView::List(l.deep_view()),
            Metadata::Path(s) => MetaView::Path(s@),
        }
    }
}

/// A structural copy of a list of lines.
pub fn clone_lines(l: &Vec<String>) -> (r: Vec<String>)
    ensures
        r.deep_view() == l.deep_view(),
        r@.len() == l@.len(),
        forall|k: int| 0 <= k < l@.len() ==> r@[k]@ == l@[k]@,
{
    let mut out: Vec<String> = Vec::new();
    let mut i: usize = 0;
    while i < l.len()
        invariant
            i <= l@.len(),
            out@.len() == i,
            forall|k: int| 0 <= k < i ==> out@[k]@ == l@[k]@,
        decreases l@.len() - i,
    {
        out.push(l[i].clone());
        i += 1;
    }
    assert(out.deep_view() =~~= l.deep_view());
    out
}

impl Metadata {
    /// A structural copy of the value.
    pub fn duplicate(&self) -> (r: Metadata)
        ensures
            r@ == self@,
    {
        match self {
            Metadata::Text(s) => Metadata::Text(s.clone()),
            Metadata::Size(n) => Metadata::Size(*n),
            Metadata::Timestamp(n) => Metadata::Timestamp(*n),
            Metadata::List(l) => Metadata::List(clone_lines(l)),
            Metadata::Path(s) => Metadata::Path(s.clone()),
        }
    }
}

/// Whether a metadata value has the shape its entry kind calls for.
pub open spec fn matches_shape(e: Entry, m: MetaView) -> bool {
    match shape_of(e) {
        Shape::Text => m is Text,
        Shape::Size => m is Size,
        Shape::Timestamp => m is Timestamp,
        Shape::List => m is List,
        Shape::Path => m is Path,
    }
}

/// Whether two strings are equal, decided character by character.
pub fn str_eq(a: &str, b: &str) -> (r: bool)
    ensures
        r == (a@ == b@),
{
    let na = a.unicode_len();
    let nb = b.unicode_len();
    if na != nb {
        return false;
    }
    let mut i: usize = 0;
    while i < na
        invariant
            na == a@.len(),
            na == b@.len(),
            i <= na,
            forall|k: int| 0 <= k < i ==> a@[k] == b@[k],
        decreases na - i,
    {
        if a.get_char(i) != b.get_char(i) {
            return false;
        }
        i += 1;
    }
    proof {
        assert(a@ =~= b@);
    }
    true
}

/// The architecture tag of a package.
#[derive(Debug)]
pub enum Arch {
    Any,
    Arch(String),
    Unknown,
}

pub enum ArchView {
    Any,
    Arch(Seq<char>),
    Unknown,
}

impl View for Arch {
    type V = ArchView;

    open spec fn view(&self) -> ArchView {
        match self {
            Arch::Any => ArchView::Any,
            Arch::Arch(s) => ArchView::Arch(s@),
            Arch::Unknown => ArchView::Unknown,
        }
    }
}

/// The architecture named by a string: `any` is the wildcard.
pub open spec fn arch_of(s: Seq<char>) -> ArchView {
    if s == "any"@ {
        ArchView::Any
    } else {
        ArchView::Arch(s)
    }
}

impl Arch {
    /// Read an architecture tag from its string form.
    pub fn from_str(s: &str) -> (r: Arch)
        ensures
            r@ == arch_of(s@),
    {
        if str_eq(s, "any") {
            Arch::Any
        } else {
            Arch::Arch(String::from_str(s))
        }
    }

    /// A structural copy of the tag.
    pub fn duplicate(&self) -> (r: Arch)
        ensures
            r@ == self@,
    {
        match self {
            Arch::Any => Arch::Any,
            Arch::Arch(s) => Arch::Arch(s.clone()),
            Arch::Unknown => Arch::Unknown,
        }
    }

    /// Whether a package carrying this tag belongs in a database built
    /// for `target`: either the tags agree or this one is the wildcard.
    pub fn matches_target(&self, target: &Arch) -> (r: bool)
        ensures
            r == (self@ is Any || self@ == target@),
    {
        match (self, target) {
            (Arch::Any, _) => true,
            (Arch::Arch(a), Arch::Arch(b)) => str_eq(a.as_str(), b.as_str()),
            (Arch::Unknown, Arch::Unknown) => true,
            _ => false,
        }
    }
}

impl Default for Arch {
    /// A package starts with no known architecture.
    fn default() -> (r: Self)
        ensures
            r@ is Unknown,
    {
        Arch::Unknown
    }
}

/// An opaque version string, equal by string equality and ordered by
/// the alpm version order.
#[derive(Debug)]
pub struct Version {
    pub text: String,
}

impl View for Version {
    type V = Seq<char>;

    open spec fn view(&self) -> Seq<char> {
        self.text@
    }
}

impl Version {
    pub fn new(s: &str) -> (v: Version)
        ensures
            v@ == s@,
    {
        Version { text: String::from_str(s) }
    }

    pub fn as_str(&self) -> (r: &str)
        ensures
            r@ == self@,
    {
        self.text.as_str()
    }

    /// A structural copy of the version.
    pub fn duplicate(&self) -> (r: Version)
        ensures
            r@ == self@,
    {
        Version { text: self.text.clone() }
    }

    /// Compare under the alpm version order; `Equal` does not imply
    /// string equality (`1.5-1` compares equal to `1.5`).
    pub fn cmp(&self, other: &Version) -> (r: Ordering)
        ensures
            r == vercmp_spec(self@, other@),
    {
        pkg_vercmp(self.text.as_str(), other.text.as_str())
    }
}

/// The mathematical value of a package record.
#[verifier::ext_equal]
pub struct PackageView {
    pub name: Seq<char>,
    pub version: Seq<char>,
    pub arch: ArchView,
    pub metadata: Map<Entry, MetaView>,
}

/// The metadata mapping denoted by a key/value sequence: later pairs
/// win, though a well-formed package never repeats a key.
pub open spec fn md_map(s: Seq<(Entry, Metadata)>) -> Map<Entry, MetaView>
    decreases s.len(),
{
    if s.len() == 0 {
        Map::empty()
    } else {
        md_map(s.drop_last()).insert(s.last().0, s.last().1@)
    }
}

/// No metadata key occurs twice.
pub open spec fn md_unique(s: Seq<(Entry, Metadata)>) -> bool {
    forall|i: int, j: int| 0 <= i < j < s.len() ==> s[i].0 != s[j].0
}

pub proof fn lemma_md_map_contains(s: Seq<(Entry, Metadata)>, e: Entry)
    ensures
        md_map(s).contains_key(e) <==> exists|i: int| 0 <= i < s.len() && s[i].0 == e,
    decreases s.len(),
{
    if s.len() > 0 {
        lemma_md_map_contains(s.drop_last(), e);
        if md_map(s).contains_key(e) {
            if s.last().0 == e {
                assert(s[s.len() - 1].0 == e);
            } else {
                let i = choose|i: int| 0 <= i < s.drop_last().len() && s.drop_last()[i].0 == e;
                assert(s[i].0 == e);
            }
        }
        if exists|i: int| 0 <= i < s.len() && s[i].0 == e {
            let i = choose|i: int| 0 <= i < s.len() && s[i].0 == e;
            if i < s.len() - 1 {
                assert(s.drop_last()[i].0 == e);
            }
        }
    }
}

pub proof fn lemma_md_map_get(s: Seq<(Entry, Metadata)>, i: int)
    requires
        md_unique(s),
        0 <= i < s.len(),
    ensures
        md_map(s).contains_key(s[i].0),
        md_map(s)[s[i].0] == s[i].1@,
    decreases s.len(),
{
    if i == s.len() - 1 {
    } else {
        assert(md_unique(s.drop_last()));
        assert(s.drop_last()[i] == s[i]);
        lemma_md_map_get(s.drop_last(), i);
        assert(s[i].0 != s.last().0);
    }
}

proof fn lemma_md_map_update(s: Seq<(Entry, Metadata)>, i: int, e: Entry, m: Metadata)
    requires
        md_unique(s),
        0 <= i < s.len(),
        s[i].0 == e,
    ensures
        md_map(s.update(i, (e, m))) =~= md_map(s).insert(e, m@),
    decreases s.len(),
{
    let t = s.update(i, (e, m));
    if i == s.len() - 1 {
        assert(t.drop_last() =~= s.drop_last());
        assert(t.last() == (e, m));
        assert(md_map(t) =~= md_map(s).insert(e, m@));
    } else {
        assert(md_unique(s.drop_last()));
        assert(s.drop_last()[i] == s[i]);
        lemma_md_map_update(s.drop_last(), i, e, m);
        assert(t.drop_last() =~= s.drop_last().update(i, (e, m)));
        assert(t.last() == s.last());
        assert(s.last().0 != e);
        assert(md_map(t) =~= md_map(s).insert(e, m@));
    }
}

/// A package record: a non-empty name, a version, an architecture tag
/// and a metadata mapping.
#[derive(Debug)]
pub struct Package {
    pub name: String,
    pub version: Version,
    pub arch: Arch,
    pub metadata: Vec<(Entry, Metadata)>,
}

impl View for Package {
    type V = PackageView;

    open spec fn view(&self) -> PackageView {
        PackageView {
            name: self.name@,
            version: self.version@,
            arch: self.arch@,
            metadata: md_map(self.metadata@),
        }
    }
}

impl Package {
    /// No metadata key is stored twice.
    pub open spec fn wf(&self) -> bool {
        md_unique(self.metadata@)
    }

    /// A fresh record with the given name and version, an unknown
    /// architecture and no metadata.
    pub fn new(pkgname: &str, pkgver: &str) -> (p: Package)
        ensures
            p.wf(),
            p@.name == pkgname@,
            p@.version == pkgver@,
            p@.arch is Unknown,
            p@.metadata == Map::<Entry, MetaView>::empty(),
    {
        Package {
            name: String::from_str(pkgname),
            version: Version::new(pkgver),
            arch: Arch::Unknown,
            metadata: Vec::new(),
        }
    }

    /// Look a metadata entry up by key.
    pub fn metadata_get(&self, e: Entry) -> (r: Option<&Metadata>)
        requires
            self.wf(),
        ensures
            match r {
                Some(m) => self@.metadata.contains_key(e) && m@ == self@.metadata[e],
                None => !self@.metadata.contains_key(e),
            },
    {
        let mut i: usize = 0;
        while i < self.metadata.len()
            invariant
                self.wf(),
                i <= self.metadata@.len(),
                forall|k: int| 0 <= k < i ==> self.metadata@[k].0 != e,
            decreases self.metadata@.len() - i,
        {
            if self.metadata[i].0 == e {
                proof {
                    lemma_md_map_get(self.metadata@, i as int);
                }
                return Some(&self.metadata[i].1);
            }
            i += 1;
        }
        proof {
            lemma_md_map_contains(self.metadata@, e);
        }
        None
    }

    /// Insert a metadata entry, replacing any previous value under the
    /// same key.
    pub fn metadata_insert(&mut self, e: Entry, m: Metadata)
        requires
            old(self).wf(),
        ensures
            final(self).wf(),
            final(self)@.metadata == old(self)@.metadata.insert(e, m@),
            final(self)@.name == old(self)@.name,
            final(self)@.version == old(self)@.version,
            final(self)@.arch == old(self)@.arch,
    {
        let mut i: usize = 0;
        while i < self.metadata.len()
            invariant
                self == old(self),
                old(self).wf(),
                i <= self.metadata@.len(),
                forall|k: int| 0 <= k < i ==> self.metadata@[k].0 != e,
            decreases self.metadata@.len() - i,
        {
            if self.metadata[i].0 == e {
                proof {
                    lemma_md_map_update(self.metadata@, i as int, e, m);
                }
                self.metadata.set(i, (e, m));
                proof {
                    assert(forall|k: int| 0 <= k < self.metadata@.len() ==>
                        self.metadata@[k].0 == old(self).metadata@[k].0);
                    assert(md_unique(self.metadata@));
                }
                return;
            }
            i += 1;
        }
        proof {
            lemma_md_map_contains(self.metadata@, e);
        }
        self.metadata.push((e, m));
        proof {
            let s = old(self).metadata@;
            assert(self.metadata@.drop_last() =~= s);
            assert(self@.metadata =~= old(self)@.metadata.insert(e, m@));
        }
    }

    /// A structural copy of the record.
    pub fn duplicate(&self) -> (r: Package)
        requires
            self.wf(),
        ensures
            r.wf(),
            r@ == self@,
    {
        let mut md: Vec<(Entry, Metadata)> = Vec::new();
        let mut i: usize = 0;
        while i < self.metadata.len()
            invariant
                i <= self.metadata@.len(),
                md@.len() == i,
                forall|k: int| 0 <= k < i ==> md@[k].0 == self.metadata@[k].0
                    && md@[k].1@ == self.metadata@[k].1@,
            decreases self.metadata@.len() - i,
        {
            let p = &self.metadata[i];
            md.push((p.0, p.1.duplicate()));
            i += 1;
        }
        proof {
            lemma_md_map_congruent(md@, self.metadata@);
        }
        Package {
            name: self.name.clone(),
            version: self.version.duplicate(),
            arch: self.arch.duplicate(),
            metadata: md,
        }
    }

    /// The display form `name-version`, which also names the package's
    /// directory inside an index archive.
    pub fn display(&self) -> (r: String)
        ensures
            r@ == self@.name + seq!['-'] + self@.version,
    {
        let mut out = self.name.clone();
        proof {
            reveal_strlit("-");
            assert("-"@ =~= seq!['-']);
        }
        out.append("-");
        out.append(self.version.as_str());
        out
    }

    /// Order by name (lexicographically), then by version under the
    /// alpm order.
    pub fn cmp(&self, other: &Package) -> (r: Ordering)
        ensures
            r == (if lex_cmp(self@.name, other@.name) != Ordering::Equal {
                lex_cmp(self@.name, other@.name)
            } else {
                vercmp_spec(self@.version, other@.version)
            }),
    {
        let an = chars_of(self.name.as_str());
        let bn = chars_of(other.name.as_str());
        let c = lex_cmp_pub(&an, &bn);
        match c {
            Ordering::Equal => self.version.cmp(&other.version),
            _ => c,
        }
    }
}

proof fn lemma_md_map_congruent(a: Seq<(Entry, Metadata)>, b: Seq<(Entry, Metadata)>)
    requires
        a.len() == b.len(),
        forall|k: int| 0 <= k < a.len() ==> a[k].0 == b[k].0 && a[k].1@ == b[k].1@,
    ensures
        md_map(a) =~= md_map(b),
        md_unique(a) == md_unique(b),
    decreases a.len(),
{
    if a.len() > 0 {
        lemma_md_map_congruent(a.drop_last(), b.drop_last());
    }
    assert(md_unique(a) == md_unique(b)) by {
        if md_unique(a) {
            assert(forall|i: int, j: int| 0 <= i < j < b.len() ==> b[i].0 != b[j].0) by {
                assert(forall|i: int, j: int|
                    0 <= i < j < a.len() ==> a[i].0 != a[j].0);
            }
        }
        if md_unique(b) {
            assert(forall|i: int, j: int| 0 <= i < j < a.len() ==> a[i].0 != a[j].0) by {
                assert(forall|i: int, j: int|
                    0 <= i < j < b.len() ==> b[i].0 != b[j].0);
            }
        }
    }
}

/// Lexicographic character comparison of two owned character vectors.
fn lex_cmp_pub(a: &Vec<char>, b: &Vec<char>) -> (r: Ordering)
    ensures
        r == lex_cmp(a@, b@),
    decreases a@.len() + b@.len(),
{
    if a.len() == 0 && b.len() == 0 {
        Ordering::Equal
    } else if a.len() == 0 {
        Ordering::Less
    } else if b.len() == 0 {
        Ordering::Greater
    } else {
        let ca = a[0] as u32;
        let cb = b[0] as u32;
        if ca < cb {
            Ordering::Less
        } else if ca > cb {
            Ordering::Greater
        } else {
            let mut a1: Vec<char> = Vec::new();
            let mut b1: Vec<char> = Vec::new();
            let mut i: usize = 1;
            while i < a.len()
                invariant
                    1 <= i <= a@.len(),
                    a1@ == a@.subrange(1, i as int),
                decreases a@.len() - i,
            {
                a1.push(a[i]);
                assert(a1@ =~= a@.subrange(1, i + 1));
                i += 1;
            }
            let mut j: usize = 1;
            while j < b.len()
                invariant
                    1 <= j <= b@.len(),
                    b1@ == b@.subrange(1, j as int),
                decreases b@.len() - j,
            {
                b1.push(b[j]);
                assert(b1@ =~= b@.subrange(1, j + 1));
                j += 1;
            }
            assert(a1@ =~= a@.skip(1));
            assert(b1@ =~= b@.skip(1));
            lex_cmp_pub(&a1, &b1)
        }
    }
}

} // verus!
