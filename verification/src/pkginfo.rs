//! The `.PKGINFO` reader: a line-oriented `key = value` text found
//! inside every package archive, from which the typed record is built.

use vstd::prelude::*;

verus! {

use crate::alpm::{lemma_run_len_is, run_len};
use crate::desc::{split_lines, split_lines_exec};
use crate::error::Error;
use crate::numfmt::{
    dec_val, dec_val_signed, is_dec_string, is_dec_string_signed, parse_i64, parse_u64,
};
use crate::package::{arch_of, str_eq, Arch, Entry, MetaView, Metadata, Package, PackageView};

pub open spec fn is_ws(c: char) -> bool {
    c == ' ' || c == '\t'
}

/// A string with its trailing blanks removed.
pub open spec fn rtrim(s: Seq<char>) -> Seq<char>
    decreases s.len(),
{
    if s.len() == 0 || !is_ws(s.last()) {
        s
    } else {
        rtrim(s.drop_last())
    }
}

/// A string with its surrounding blanks removed.
pub open spec fn trim(s: Seq<char>) -> Seq<char> {
    rtrim(s.skip(run_len(s, |c: char| is_ws(c)) as int))
}

proof fn lemma_rtrim_is(s: Seq<char>, j: int)
    requires
        0 <= j <= s.len(),
        forall|k: int| j <= k < s.len() ==> is_ws(s[k]),
        j > 0 ==> !is_ws(s[j - 1]),
    ensures
        rtrim(s) == s.take(j),
    decreases s.len(),
{
    if s.len() == 0 {
        assert(s.take(0) =~= s);
    } else if !is_ws(s.last()) {
        assert(j == s.len());
        assert(s.take(j) =~= s);
    } else {
        assert(j < s.len());
        assert(forall|k: int| j <= k < s.drop_last().len() ==> is_ws(s.drop_last()[k]));
        lemma_rtrim_is(s.drop_last(), j);
        assert(s.drop_last().take(j) =~= s.take(j));
    }
}

/// Remove surrounding blanks.
pub(crate) fn trim_exec(s: &str) -> (r: String)
    ensures
        r@ == trim(s@),
{
    let n = s.unicode_len();
    let mut a: usize = 0;
    while a < n && (s.get_char(a) == ' ' || s.get_char(a) == '\t')
        invariant
            n == s@.len(),
            a <= n,
            forall|k: int| 0 <= k < a ==> is_ws(s@[k]),
        decreases n - a,
    {
        a += 1;
    }
    proof {
        lemma_run_len_is(s@, |c: char| is_ws(c), a as nat);
    }
    let mut b: usize = n;
    while b > a && (s.get_char(b - 1) == ' ' || s.get_char(b - 1) == '\t')
        invariant
            n == s@.len(),
            a <= b <= n,
            forall|k: int| b <= k < n ==> is_ws(s@[k]),
        decreases b,
    {
        b -= 1;
    }
    let out = s.substring_char(a, b);
    proof {
        let rest = s@.skip(a as int);
        lemma_rtrim_is(rest, b - a);
        assert(rest.take(b - a) =~= s@.subrange(a as int, b as int));
        assert(forall|k: int| b - a <= k < rest.len() ==> is_ws(rest[k]));
    }
    String::from_str(out)
}

/// The effect of one `key = value` pair on the record being built.
/// The mandatory `pkgname`, `pkgver` and `arch` set the top-level
/// fields; recognized keys set their metadata entry; list-valued keys
/// accumulate; unknown keys change nothing; a number that does not
/// parse is a malformed file.
pub open spec fn apply_info(p: PackageView, key: Seq<char>, value: Seq<char>) -> Option<
    PackageView,
> {
    if key == "pkgname"@ {
        Some(
            PackageView {
                name: value,
                metadata: p.metadata.insert(Entry::Name, MetaView::Text(value)),
                ..p
            },
        )
    } else if key == "pkgver"@ {
        Some(
            PackageView {
                version: value,
                metadata: p.metadata.insert(Entry::Version, MetaView::Text(value)),
                ..p
            },
        )
    } else if key == "arch"@ {
        Some(
            PackageView {
                arch: arch_of(value),
                metadata: p.metadata.insert(Entry::Arch, MetaView::Text(value)),
                ..p
            },
        )
    } else if key == "pkgbase"@ {
        Some(PackageView { metadata: p.metadata.insert(Entry::Base, MetaView::Text(value)), ..p })
    } else if key == "pkgdesc"@ {
        Some(
            PackageView {
                metadata: p.metadata.insert(Entry::Description, MetaView::Text(value)),
                ..p
            },
        )
    } else if key == "url"@ {
        Some(PackageView { metadata: p.metadata.insert(Entry::Url, MetaView::Text(value)), ..p })
    } else if key == "packager"@ {
        Some(
            PackageView {
                metadata: p.metadata.insert(Entry::Packager, MetaView::Text(value)),
                ..p
            },
        )
    } else if key == "builddate"@ {
        if is_dec_string_signed(value) && i64::MIN <= dec_val_signed(value) <= i64::MAX {
            Some(
                PackageView {
                    metadata: p.metadata.insert(
                        Entry::BuildDate,
                        MetaView::Timestamp(dec_val_signed(value) as i64),
                    ),
                    ..p
                },
            )
        } else {
            None
        }
    } else if key == "size"@ {
        if is_dec_string(value) && dec_val(value) <= u64::MAX {
            Some(
                PackageView {
                    metadata: p.metadata.insert(
                        Entry::InstallSize,
                        MetaView::Size(dec_val(value) as u64),
                    ),
                    ..p
                },
            )
        } else {
            None
        }
    } else {
        match info_list_entry(key) {
            Some(e) => Some(
                PackageView {
                    metadata: p.metadata.insert(
                        e,
                        MetaView::List(
                            if p.metadata.contains_key(e) && p.metadata[e] is List {
                                p.metadata[e]->List_0 + seq![value]
                            } else {
                                seq![value]
                            },
                        ),
                    ),
                    ..p
                },
            ),
            None => Some(p),
        }
    }
}

/// The list-valued `.PKGINFO` keys and the entries they accumulate into.
pub open spec fn info_list_entry(key: Seq<char>) -> Option<Entry> {
    if key == "depend"@ {
        Some(Entry::Depends)
    } else if key == "conflict"@ {
        Some(Entry::Conflicts)
    } else if key == "provides"@ {
        Some(Entry::Provides)
    } else if key == "optdepend"@ {
        Some(Entry::OptDepends)
    } else if key == "makedepend"@ {
        Some(Entry::MakeDepends)
    } else if key == "checkdepend"@ {
        Some(Entry::CheckDepends)
    } else if key == "replaces"@ {
        Some(Entry::Replaces)
    } else if key == "license"@ {
        Some(Entry::License)
    } else if key == "group"@ {
        Some(Entry::Groups)
    } else if key == "backup"@ {
        Some(Entry::Backups)
    } else {
        None
    }
}

/// The effect of one raw line: comments and blank lines are skipped, a
/// line without `=` is malformed, and anything else is a key/value pair
/// with surrounding blanks stripped.
pub open spec fn info_line_act(p: PackageView, line: Seq<char>) -> Option<PackageView> {
    if trim(line).len() == 0 {
        Some(p)
    } else if trim(line)[0] == '#' {
        Some(p)
    } else {
        let k = run_len(line, |c: char| c != '=') as int;
        if k >= line.len() {
            None
        } else {
            apply_info(p, trim(line.take(k)), trim(line.skip(k + 1)))
        }
    }
}

/// Fold the lines of a `.PKGINFO` text, in order, over the record.
pub open spec fn pkginfo_from(lines: Seq<Seq<char>>, i: int, p: PackageView) -> Option<
    PackageView,
>
    decreases lines.len() - i when 0 <= i <= lines.len()
{
    if i >= lines.len() {
        Some(p)
    } else {
        match info_line_act(p, lines[i]) {
            Some(q) => pkginfo_from(lines, i + 1, q),
            None => None,
        }
    }
}

/// What parsing a whole `.PKGINFO` text yields, starting from a blank
/// record: the populated record, or nothing when the text is malformed
/// or the mandatory `pkgname` or `pkgver` is missing.
pub open spec fn empty_record() -> PackageView {
    PackageView {
        name: Seq::empty(),
        version: Seq::empty(),
        arch: crate::package::ArchView::Unknown,
        metadata: Map::empty(),
    }
}

pub open spec fn parse_pkginfo_spec(text: Seq<char>) -> Option<PackageView> {
    match pkginfo_from(split_lines(text), 0, empty_record()) {
        None => None,
        Some(p) => if p.name.len() > 0 && p.version.len() > 0 {
            Some(p)
        } else {
            None
        },
    }
}

fn find_eq(line: &str) -> (r: Option<usize>)
    ensures
        ({
            let k = run_len(line@, |c: char| c != '=') as int;
            match r {
                Some(i) => i == k && k < line@.len(),
                None => k >= line@.len(),
            }
        }),
{
    let n = line.unicode_len();
    let mut i: usize = 0;
    while i < n
        invariant
            n == line@.len(),
            i <= n,
            forall|k: int| 0 <= k < i ==> line@[k] != '=',
        decreases n - i,
    {
        if line.get_char(i) == '=' {
            proof {
                lemma_run_len_is(line@, |c: char| c != '=', i as nat);
            }
            return Some(i);
        }
        i += 1;
    }
    proof {
        lemma_run_len_is(line@, |c: char| c != '=', n as nat);
    }
    None
}

/// Record one `key = value` pair.
fn apply_info_exec(pkg: &mut Package, key: &str, value: &str) -> (r: Result<(), Error>)
    requires
        old(pkg).wf(),
    ensures
        final(pkg).wf(),
        match r {
            Ok(_) => apply_info(old(pkg)@, key@, value@) == Some(final(pkg)@),
            Err(er) => apply_info(old(pkg)@, key@, value@) is None && er is MalformedPKGINFO,
        },
{
    let ghost p0 = pkg@;
    if str_eq(key, "pkgname") {
        pkg.name = String::from_str(value);
        pkg.metadata_insert(Entry::Name, Metadata::Text(String::from_str(value)));
        proof {
            assert(pkg@ =~= PackageView {
                name: value@,
                metadata: p0.metadata.insert(Entry::Name, MetaView::Text(value@)),
                ..p0
            });
        }
        Ok(())
    } else if str_eq(key, "pkgver") {
        pkg.version = crate::package::Version::new(value);
        pkg.metadata_insert(Entry::Version, Metadata::Text(String::from_str(value)));
        proof {
            assert(pkg@ =~= PackageView {
                version: value@,
                metadata: p0.metadata.insert(Entry::Version, MetaView::Text(value@)),
                ..p0
            });
        }
        Ok(())
    } else if str_eq(key, "arch") {
        pkg.arch = Arch::from_str(value);
        pkg.metadata_insert(Entry::Arch, Metadata::Text(String::from_str(value)));
        proof {
            assert(pkg@ =~= PackageView {
                arch: arch_of(value@),
                metadata: p0.metadata.insert(Entry::Arch, MetaView::Text(value@)),
                ..p0
            });
        }
        Ok(())
    } else if str_eq(key, "pkgbase") {
        pkg.metadata_insert(Entry::Base, Metadata::Text(String::from_str(value)));
        assert(pkg@ =~= apply_info(p0, key@, value@)->0);
        Ok(())
    } else if str_eq(key, "pkgdesc") {
        pkg.metadata_insert(Entry::Description, Metadata::Text(String::from_str(value)));
        assert(pkg@ =~= apply_info(p0, key@, value@)->0);
        Ok(())
    } else if str_eq(key, "url") {
        pkg.metadata_insert(Entry::Url, Metadata::Text(String::from_str(value)));
        assert(pkg@ =~= apply_info(p0, key@, value@)->0);
        Ok(())
    } else if str_eq(key, "packager") {
        pkg.metadata_insert(Entry::Packager, Metadata::Text(String::from_str(value)));
        assert(pkg@ =~= apply_info(p0, key@, value@)->0);
        Ok(())
    } else if str_eq(key, "builddate") {
        match parse_i64(value) {
            Some(v) => {
                pkg.metadata_insert(Entry::BuildDate, Metadata::Timestamp(v));
                assert(pkg@ =~= apply_info(p0, key@, value@)->0);
                Ok(())
            },
            None => Err(Error::MalformedPKGINFO),
        }
    } else if str_eq(key, "size") {
        match parse_u64(value) {
            Some(v) => {
                pkg.metadata_insert(Entry::InstallSize, Metadata::Size(v));
                assert(pkg@ =~= apply_info(p0, key@, value@)->0);
                Ok(())
            },
            None => Err(Error::MalformedPKGINFO),
        }
    } else {
        match info_list_entry_exec(key) {
            Some(e) => {
                crate::desc::append_list_value(pkg, e, String::from_str(value));
                assert(pkg@ =~= apply_info(p0, key@, value@)->0);
                Ok(())
            },
            None => Ok(()),
        }
    }
}

fn info_list_entry_exec(key: &str) -> (r: Option<Entry>)
    ensures
        r == info_list_entry(key@),
{
    if str_eq(key, "depend") {
        Some(Entry::Depends)
    } else if str_eq(key, "conflict") {
        Some(Entry::Conflicts)
    } else if str_eq(key, "provides") {
        Some(Entry::Provides)
    } else if str_eq(key, "optdepend") {
        Some(Entry::OptDepends)
    } else if str_eq(key, "makedepend") {
        Some(Entry::MakeDepends)
    } else if str_eq(key, "checkdepend") {
        Some(Entry::CheckDepends)
    } else if str_eq(key, "replaces") {
        Some(Entry::Replaces)
    } else if str_eq(key, "license") {
        Some(Entry::License)
    } else if str_eq(key, "group") {
        Some(Entry::Groups)
    } else if str_eq(key, "backup") {
        Some(Entry::Backups)
    } else {
        None
    }
}

/// Parse a whole `.PKGINFO` text and assemble the package record: the
/// mandatory `pkgname` and `pkgver` must be present; the caller then
/// records the file's name and on-disk size.
pub fn parse_pkginfo(data: &str, filename: &str, size: u64) -> (r: Result<Package, Error>)
    ensures
        match r {
            Ok(p) => {
                &&& parse_pkginfo_spec(data@) is Some
                &&& p.wf()
                &&& p@.name == parse_pkginfo_spec(data@)->0.name
                &&& p@.version == parse_pkginfo_spec(data@)->0.version
                &&& p@.arch == parse_pkginfo_spec(data@)->0.arch
                &&& p@.metadata == parse_pkginfo_spec(data@)->0.metadata.insert(
                    Entry::PackageSize,
                    MetaView::Size(size),
                ).insert(Entry::Filename, MetaView::Path(filename@))
            },
            Err(er) => parse_pkginfo_spec(data@) is None && er is MalformedPKGINFO,
        },
{
    let mut pkg = Package::new("", "");
    proof {
        reveal_strlit("");
        assert(pkg@ =~= empty_record());
    }
    let ghost p0 = pkg@;
    let lines = split_lines_exec(data);
    let ghost ll = lines.deep_view();
    let mut i: usize = 0;
    while i < lines.len()
        invariant
            pkg.wf(),
            ll == lines.deep_view(),
            ll == split_lines(data@),
            lines@.len() == ll.len(),
            i <= ll.len(),
            p0 == empty_record(),
            pkginfo_from(ll, 0, p0) == pkginfo_from(ll, i as int, pkg@),
        decreases ll.len() - i,
    {
        assert(ll[i as int] == lines@[i as int]@);
        let line = &lines[i];
        let trimmed = trim_exec(line.as_str());
        let skip_line = if trimmed.as_str().unicode_len() == 0 {
            true
        } else {
            trimmed.as_str().get_char(0) == '#'
        };
        if !skip_line {
            match find_eq(line.as_str()) {
                None => {
                    return Err(Error::MalformedPKGINFO);
                },
                Some(k) => {
                    let lstr = line.as_str();
                    let n2 = lstr.unicode_len();
                    assert(k < n2);
                    let rawkey = lstr.substring_char(0, k);
                    let rawval = lstr.substring_char(k + 1, n2);
                    proof {
                        assert(rawkey@ =~= ll[i as int].take(k as int));
                        assert(rawval@ =~= ll[i as int].skip(k as int + 1));
                    }
                    let key = trim_exec(rawkey);
                    let value = trim_exec(rawval);
                    match apply_info_exec(&mut pkg, key.as_str(), value.as_str()) {
                        Ok(_) => {
                        },
                        Err(er) => {
                            return Err(er);
                        },
                    }
                },
            }
        }
        i += 1;
    }
    if pkg.name.as_str().unicode_len() == 0 || pkg.version.as_str().unicode_len() == 0 {
        return Err(Error::MalformedPKGINFO);
    }
    pkg.metadata_insert(Entry::PackageSize, Metadata::Size(size));
    pkg.metadata_insert(Entry::Filename, Metadata::Path(String::from_str(filename)));
    Ok(pkg)
}

} // verus!
