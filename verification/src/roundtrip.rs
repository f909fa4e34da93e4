//! The round-trip laws of the desc codec: a printed page parses back to
//! a record that prints to the very same bytes, and parsing a saved
//! `desc` restores the package's name, version and architecture.

use vstd::prelude::*;

verus! {

use crate::desc::{
    apply_section, classify, desc_order, entry_for_header, has_header, header_text,
    is_header_shape, lemma_section_end_bounds, lemma_unlines_singleton, meta_lines,
    nl_pos, parse_desc_spec, parse_from, render_lines, render_text, section_end,
    section_lines, split_lines, unlines, LineKind,
};
use crate::numfmt::{
    dec_digits, dec_digits_signed, dec_val, dec_val_signed, lemma_dec_digits_signed_val,
    lemma_dec_digits_val,
};
use crate::package::{
    arch_of, matches_shape, shape_of, ArchView, Entry, MetaView, PackageView, Shape,
};

/// A line that the parser reads back as a value: non-empty, not header
/// shaped, not a known header, and free of newlines.
pub open spec fn line_ok(l: Seq<char>) -> bool {
    classify(l) is Value && (forall|i: int| 0 <= i < l.len() ==> l[i] != '\n')
}

/// A metadata value every line of which prints and reads back cleanly;
/// a list must be non-empty, as an empty one would vanish on re-parse.
pub open spec fn value_ok(m: MetaView) -> bool {
    match m {
        MetaView::Text(s) => line_ok(s),
        MetaView::Path(s) => line_ok(s),
        MetaView::Size(_) => true,
        MetaView::Timestamp(_) => true,
        MetaView::List(l) => l.len() > 0 && (forall|i: int| 0 <= i < l.len() ==> line_ok(
            l[i],
        )),
    }
}

/// A record that the codec can print and read back: every entry has its
/// canonical shape and clean values, and the `Name` and `Version`
/// entries, when present, agree with the record's own fields.
pub open spec fn emittable(p: PackageView) -> bool {
    &&& forall|e: Entry|
        p.metadata.contains_key(e) ==> matches_shape(e, #[trigger] p.metadata[e]) && value_ok(
            p.metadata[e],
        )
    &&& p.metadata.contains_key(Entry::Name) ==> p.metadata[Entry::Name] == MetaView::Text(
        p.name,
    )
    &&& p.metadata.contains_key(Entry::Version) ==> p.metadata[Entry::Version]
        == MetaView::Text(p.version)
}

/// No entry kind occurs twice.
pub open spec fn distinct_entries(order: Seq<Entry>) -> bool {
    forall|i: int, j: int| 0 <= i < j < order.len() ==> order[i] != order[j]
}

/// The blank record that loading starts from.
pub open spec fn fresh_view(name: Seq<char>, version: Seq<char>) -> PackageView {
    PackageView { name, version, arch: ArchView::Unknown, metadata: Map::empty() }
}

/// A non-empty line that does not begin with `%` is a value line.
proof fn lemma_value_classify(l: Seq<char>)
    requires
        l.len() > 0,
        l[0] != '%',
    ensures
        classify(l) is Value,
{
    broadcast use vstd::string::group_string_axioms;

    reveal_strlit("%FILENAME%");
    reveal_strlit("%NAME%");
    reveal_strlit("%BASE%");
    reveal_strlit("%VERSION%");
    reveal_strlit("%DESC%");
    reveal_strlit("%GROUP%");
    reveal_strlit("%CSIZE%");
    reveal_strlit("%ISIZE%");
    reveal_strlit("%SHA256SUM%");
    reveal_strlit("%PGPSIG%");
    reveal_strlit("%URL%");
    reveal_strlit("%LICENSE%");
    reveal_strlit("%ARCH%");
    reveal_strlit("%BUILDDATE%");
    reveal_strlit("%PACKAGER%");
    reveal_strlit("%REPLACES%");
    reveal_strlit("%DEPENDS%");
    reveal_strlit("%CONFLICTS%");
    reveal_strlit("%PROVIDES%");
    reveal_strlit("%OPTDEPENDS%");
    reveal_strlit("%MAKEDEPENDS%");
    reveal_strlit("%CHECKDEPENDS%");
    reveal_strlit("%FILES%");
    reveal_strlit("%DELTAS%");
    assert(entry_for_header(l) is None);
    assert(!is_header_shape(l));
}

/// The decimal rendering of a size is a clean value line.
proof fn lemma_dec_line(n: nat)
    ensures
        line_ok(dec_digits(n)),
{
    lemma_dec_digits_val(n);
    let s = dec_digits(n);
    assert(crate::alpm::is_digit(s[0]));
    lemma_value_classify(s);
    assert(forall|i: int| 0 <= i < s.len() ==> crate::alpm::is_digit(s[i]));
}

/// The decimal rendering of a timestamp is a clean value line.
proof fn lemma_dec_line_signed(n: int)
    ensures
        line_ok(dec_digits_signed(n)),
{
    lemma_dec_digits_signed_val(n);
    let s = dec_digits_signed(n);
    if n < 0 {
        lemma_dec_digits_val((-n) as nat);
        assert(s[0] == '-');
        lemma_value_classify(s);
        assert(forall|i: int|
            1 <= i < s.len() ==> crate::alpm::is_digit(#[trigger] s[i]) && s[i] != '\n') by {
            assert(forall|i: int|
                1 <= i < s.len() ==> s[i] == dec_digits((-n) as nat)[i - 1]);
        }
    } else {
        lemma_dec_line(n as nat);
    }
}

/// Every line a clean metadata value prints as is a clean value line,
/// and there is at least one.
proof fn lemma_meta_lines_ok(m: MetaView)
    requires
        value_ok(m),
    ensures
        meta_lines(m).len() > 0,
        forall|i: int| 0 <= i < meta_lines(m).len() ==> line_ok(#[trigger] meta_lines(m)[i]),
{
    if m is Size {
        lemma_dec_line(m->Size_0 as nat);
    }
    if m is Timestamp {
        lemma_dec_line_signed(m->Timestamp_0 as int);
    }
}

/// A printed header reads back as exactly its own entry, and holds no
/// newline.
#[verifier::rlimit(100)]
proof fn lemma_header_classify(e: Entry)
    requires
        has_header(e),
    ensures
        classify(header_text(e)) == LineKind::Known(e),
        forall|i: int| 0 <= i < header_text(e).len() ==> header_text(e)[i] != '\n',
{
    broadcast use vstd::string::group_string_axioms;

    reveal_strlit("%FILENAME%");
    reveal_strlit("%NAME%");
    reveal_strlit("%BASE%");
    reveal_strlit("%VERSION%");
    reveal_strlit("%DESC%");
    reveal_strlit("%GROUP%");
    reveal_strlit("%CSIZE%");
    reveal_strlit("%ISIZE%");
    reveal_strlit("%SHA256SUM%");
    reveal_strlit("%PGPSIG%");
    reveal_strlit("%URL%");
    reveal_strlit("%LICENSE%");
    reveal_strlit("%ARCH%");
    reveal_strlit("%BUILDDATE%");
    reveal_strlit("%PACKAGER%");
    reveal_strlit("%REPLACES%");
    reveal_strlit("%DEPENDS%");
    reveal_strlit("%CONFLICTS%");
    reveal_strlit("%PROVIDES%");
    reveal_strlit("%OPTDEPENDS%");
    reveal_strlit("%MAKEDEPENDS%");
    reveal_strlit("%CHECKDEPENDS%");
    reveal_strlit("%FILES%");
    reveal_strlit("%DELTAS%");
    match e {
        Entry::Filename => {
            assert(header_text(e) == "%FILENAME%"@);
            assert(entry_for_header(header_text(e)) == Some(e));
            assert(forall|i: int| 0 <= i < "%FILENAME%"@.len() ==> "%FILENAME%"@[i]
                != '\n');
        },
        Entry::Name => {
            assert(header_text(e) == "%NAME%"@);
            assert("%NAME%"@ != "%FILENAME%"@);
            assert(entry_for_header(header_text(e)) == Some(e));
            assert(forall|i: int| 0 <= i < "%NAME%"@.len() ==> "%NAME%"@[i]
                != '\n');
        },
        Entry::Base => {
            assert(header_text(e) == "%BASE%"@);
            assert("%BASE%"@ != "%FILENAME%"@);
            assert("%BASE%"@[1] != "%NAME%"@[1]);
            assert("%BASE%"@ != "%NAME%"@);
            assert(entry_for_header(header_text(e)) == Some(e));
            assert(forall|i: int| 0 <= i < "%BASE%"@.len() ==> "%BASE%"@[i]
                != '\n');
        },
        Entry::Version => {
            assert(header_text(e) == "%VERSION%"@);
            assert("%VERSION%"@ != "%FILENAME%"@);
            assert("%VERSION%"@ != "%NAME%"@);
            assert("%VERSION%"@ != "%BASE%"@);
            assert(entry_for_header(header_text(e)) == Some(e));
            assert(forall|i: int| 0 <= i < "%VERSION%"@.len() ==> "%VERSION%"@[i]
                != '\n');
        },
        Entry::Description => {
            assert(header_text(e) == "%DESC%"@);
            assert("%DESC%"@ != "%FILENAME%"@);
            assert("%DESC%"@[1] != "%NAME%"@[1]);
            assert("%DESC%"@ != "%NAME%"@);
            assert("%DESC%"@[1] != "%BASE%"@[1]);
            assert("%DESC%"@ != "%BASE%"@);
            assert("%DESC%"@ != "%VERSION%"@);
            assert(entry_for_header(header_text(e)) == Some(e));
            assert(forall|i: int| 0 <= i < "%DESC%"@.len() ==> "%DESC%"@[i]
                != '\n');
        },
        Entry::Groups => {
            assert(header_text(e) == "%GROUP%"@);
            assert("%GROUP%"@ != "%FILENAME%"@);
            assert("%GROUP%"@ != "%NAME%"@);
            assert("%GROUP%"@ != "%BASE%"@);
            assert("%GROUP%"@ != "%VERSION%"@);
            assert("%GROUP%"@ != "%DESC%"@);
            assert(entry_for_header(header_text(e)) == Some(e));
            assert(forall|i: int| 0 <= i < "%GROUP%"@.len() ==> "%GROUP%"@[i]
                != '\n');
        },
        Entry::PackageSize => {
            assert(header_text(e) == "%CSIZE%"@);
            assert("%CSIZE%"@ != "%FILENAME%"@);
            assert("%CSIZE%"@ != "%NAME%"@);
            assert("%CSIZE%"@ != "%BASE%"@);
            assert("%CSIZE%"@ != "%VERSION%"@);
            assert("%CSIZE%"@ != "%DESC%"@);
            assert("%CSIZE%"@[1] != "%GROUP%"@[1]);
            assert("%CSIZE%"@ != "%GROUP%"@);
            assert(entry_for_header(header_text(e)) == Some(e));
            assert(forall|i: int| 0 <= i < "%CSIZE%"@.len() ==> "%CSIZE%"@[i]
                != '\n');
        },
        Entry::InstallSize => {
            assert(header_text(e) == "%ISIZE%"@);
            assert("%ISIZE%"@ != "%FILENAME%"@);
            assert("%ISIZE%"@ != "%NAME%"@);
            assert("%ISIZE%"@ != "%BASE%"@);
            assert("%ISIZE%"@ != "%VERSION%"@);
            assert("%ISIZE%"@ != "%DESC%"@);
            assert("%ISIZE%"@[1] != "%GROUP%"@[1]);
            assert("%ISIZE%"@ != "%GROUP%"@);
            assert("%ISIZE%"@[1] != "%CSIZE%"@[1]);
            assert("%ISIZE%"@ != "%CSIZE%"@);
            assert(entry_for_header(header_text(e)) == Some(e));
            assert(forall|i: int| 0 <= i < "%ISIZE%"@.len() ==> "%ISIZE%"@[i]
                != '\n');
        },
        Entry::SHA256Sum => {
            assert(header_text(e) == "%SHA256SUM%"@);
            assert("%SHA256SUM%"@ != "%FILENAME%"@);
            assert("%SHA256SUM%"@ != "%NAME%"@);
            assert("%SHA256SUM%"@ != "%BASE%"@);
            assert("%SHA256SUM%"@ != "%VERSION%"@);
            assert("%SHA256SUM%"@ != "%DESC%"@);
            assert("%SHA256SUM%"@ != "%GROUP%"@);
            assert("%SHA256SUM%"@ != "%CSIZE%"@);
            assert("%SHA256SUM%"@ != "%ISIZE%"@);
            assert(entry_for_header(header_text(e)) == Some(e));
            assert(forall|i: int| 0 <= i < "%SHA256SUM%"@.len() ==> "%SHA256SUM%"@[i]
                != '\n');
        },
        Entry::PGPSig => {
            assert(header_text(e) == "%PGPSIG%"@);
            assert("%PGPSIG%"@ != "%FILENAME%"@);
            assert("%PGPSIG%"@ != "%NAME%"@);
            assert("%PGPSIG%"@ != "%BASE%"@);
            assert("%PGPSIG%"@ != "%VERSION%"@);
            assert("%PGPSIG%"@ != "%DESC%"@);
            assert("%PGPSIG%"@ != "%GROUP%"@);
            assert("%PGPSIG%"@ != "%CSIZE%"@);
            assert("%PGPSIG%"@ != "%ISIZE%"@);
            assert("%PGPSIG%"@ != "%SHA256SUM%"@);
            assert(entry_for_header(header_text(e)) == Some(e));
            assert(forall|i: int| 0 <= i < "%PGPSIG%"@.len() ==> "%PGPSIG%"@[i]
                != '\n');
        },
        Entry::Url => {
            assert(header_text(e) == "%URL%"@);
            assert("%URL%"@ != "%FILENAME%"@);
            assert("%URL%"@ != "%NAME%"@);
            assert("%URL%"@ != "%BASE%"@);
            assert("%URL%"@ != "%VERSION%"@);
            assert("%URL%"@ != "%DESC%"@);
            assert("%URL%"@ != "%GROUP%"@);
            assert("%URL%"@ != "%CSIZE%"@);
            assert("%URL%"@ != "%ISIZE%"@);
            assert("%URL%"@ != "%SHA256SUM%"@);
            assert("%URL%"@ != "%PGPSIG%"@);
            assert(entry_for_header(header_text(e)) == Some(e));
            assert(forall|i: int| 0 <= i < "%URL%"@.len() ==> "%URL%"@[i]
                != '\n');
        },
        Entry::License => {
            assert(header_text(e) == "%LICENSE%"@);
            assert("%LICENSE%"@ != "%FILENAME%"@);
            assert("%LICENSE%"@ != "%NAME%"@);
            assert("%LICENSE%"@ != "%BASE%"@);
            assert("%LICENSE%"@[1] != "%VERSION%"@[1]);
            assert("%LICENSE%"@ != "%VERSION%"@);
            assert("%LICENSE%"@ != "%DESC%"@);
            assert("%LICENSE%"@ != "%GROUP%"@);
            assert("%LICENSE%"@ != "%CSIZE%"@);
            assert("%LICENSE%"@ != "%ISIZE%"@);
            assert("%LICENSE%"@ != "%SHA256SUM%"@);
            assert("%LICENSE%"@ != "%PGPSIG%"@);
            assert("%LICENSE%"@ != "%URL%"@);
            assert(entry_for_header(header_text(e)) == Some(e));
            assert(forall|i: int| 0 <= i < "%LICENSE%"@.len() ==> "%LICENSE%"@[i]
                != '\n');
        },
        Entry::Arch => {
            assert(header_text(e) == "%ARCH%"@);
            assert("%ARCH%"@ != "%FILENAME%"@);
            assert("%ARCH%"@[1] != "%NAME%"@[1]);
            assert("%ARCH%"@ != "%NAME%"@);
            assert("%ARCH%"@[1] != "%BASE%"@[1]);
            assert("%ARCH%"@ != "%BASE%"@);
            assert("%ARCH%"@ != "%VERSION%"@);
            assert("%ARCH%"@[1] != "%DESC%"@[1]);
            assert("%ARCH%"@ != "%DESC%"@);
            assert("%ARCH%"@ != "%GROUP%"@);
            assert("%ARCH%"@ != "%CSIZE%"@);
            assert("%ARCH%"@ != "%ISIZE%"@);
            assert("%ARCH%"@ != "%SHA256SUM%"@);
            assert("%ARCH%"@ != "%PGPSIG%"@);
            assert("%ARCH%"@ != "%URL%"@);
            assert("%ARCH%"@ != "%LICENSE%"@);
            assert(entry_for_header(header_text(e)) == Some(e));
            assert(forall|i: int| 0 <= i < "%ARCH%"@.len() ==> "%ARCH%"@[i]
                != '\n');
        },
        Entry::BuildDate => {
            assert(header_text(e) == "%BUILDDATE%"@);
            assert("%BUILDDATE%"@ != "%FILENAME%"@);
            assert("%BUILDDATE%"@ != "%NAME%"@);
            assert("%BUILDDATE%"@ != "%BASE%"@);
            assert("%BUILDDATE%"@ != "%VERSION%"@);
            assert("%BUILDDATE%"@ != "%DESC%"@);
            assert("%BUILDDATE%"@ != "%GROUP%"@);
            assert("%BUILDDATE%"@ != "%CSIZE%"@);
            assert("%BUILDDATE%"@ != "%ISIZE%"@);
            assert("%BUILDDATE%"@[1] != "%SHA256SUM%"@[1]);
            assert("%BUILDDATE%"@ != "%SHA256SUM%"@);
            assert("%BUILDDATE%"@ != "%PGPSIG%"@);
            assert("%BUILDDATE%"@ != "%URL%"@);
            assert("%BUILDDATE%"@ != "%LICENSE%"@);
            assert("%BUILDDATE%"@ != "%ARCH%"@);
            assert(entry_for_header(header_text(e)) == Some(e));
            assert(forall|i: int| 0 <= i < "%BUILDDATE%"@.len() ==> "%BUILDDATE%"@[i]
                != '\n');
        },
        Entry::Packager => {
            assert(header_text(e) == "%PACKAGER%"@);
            assert("%PACKAGER%"@[1] != "%FILENAME%"@[1]);
            assert("%PACKAGER%"@ != "%FILENAME%"@);
            assert("%PACKAGER%"@ != "%NAME%"@);
            assert("%PACKAGER%"@ != "%BASE%"@);
            assert("%PACKAGER%"@ != "%VERSION%"@);
            assert("%PACKAGER%"@ != "%DESC%"@);
            assert("%PACKAGER%"@ != "%GROUP%"@);
            assert("%PACKAGER%"@ != "%CSIZE%"@);
            assert("%PACKAGER%"@ != "%ISIZE%"@);
            assert("%PACKAGER%"@ != "%SHA256SUM%"@);
            assert("%PACKAGER%"@ != "%PGPSIG%"@);
            assert("%PACKAGER%"@ != "%URL%"@);
            assert("%PACKAGER%"@ != "%LICENSE%"@);
            assert("%PACKAGER%"@ != "%ARCH%"@);
            assert("%PACKAGER%"@ != "%BUILDDATE%"@);
            assert(entry_for_header(header_text(e)) == Some(e));
            assert(forall|i: int| 0 <= i < "%PACKAGER%"@.len() ==> "%PACKAGER%"@[i]
                != '\n');
        },
        Entry::Replaces => {
            assert(header_text(e) == "%REPLACES%"@);
            assert("%REPLACES%"@[1] != "%FILENAME%"@[1]);
            assert("%REPLACES%"@ != "%FILENAME%"@);
            assert("%REPLACES%"@ != "%NAME%"@);
            assert("%REPLACES%"@ != "%BASE%"@);
            assert("%REPLACES%"@ != "%VERSION%"@);
            assert("%REPLACES%"@ != "%DESC%"@);
            assert("%REPLACES%"@ != "%GROUP%"@);
            assert("%REPLACES%"@ != "%CSIZE%"@);
            assert("%REPLACES%"@ != "%ISIZE%"@);
            assert("%REPLACES%"@ != "%SHA256SUM%"@);
            assert("%REPLACES%"@ != "%PGPSIG%"@);
            assert("%REPLACES%"@ != "%URL%"@);
            assert("%REPLACES%"@ != "%LICENSE%"@);
            assert("%REPLACES%"@ != "%ARCH%"@);
            assert("%REPLACES%"@ != "%BUILDDATE%"@);
            assert("%REPLACES%"@[1] != "%PACKAGER%"@[1]);
            assert("%REPLACES%"@ != "%PACKAGER%"@);
            assert(entry_for_header(header_text(e)) == Some(e));
            assert(forall|i: int| 0 <= i < "%REPLACES%"@.len() ==> "%REPLACES%"@[i]
                != '\n');
        },
        Entry::Depends => {
            assert(header_text(e) == "%DEPENDS%"@);
            assert("%DEPENDS%"@ != "%FILENAME%"@);
            assert("%DEPENDS%"@ != "%NAME%"@);
            assert("%DEPENDS%"@ != "%BASE%"@);
            assert("%DEPENDS%"@[1] != "%VERSION%"@[1]);
            assert("%DEPENDS%"@ != "%VERSION%"@);
            assert("%DEPENDS%"@ != "%DESC%"@);
            assert("%DEPENDS%"@ != "%GROUP%"@);
            assert("%DEPENDS%"@ != "%CSIZE%"@);
            assert("%DEPENDS%"@ != "%ISIZE%"@);
            assert("%DEPENDS%"@ != "%SHA256SUM%"@);
            assert("%DEPENDS%"@ != "%PGPSIG%"@);
            assert("%DEPENDS%"@ != "%URL%"@);
            assert("%DEPENDS%"@[1] != "%LICENSE%"@[1]);
            assert("%DEPENDS%"@ != "%LICENSE%"@);
            assert("%DEPENDS%"@ != "%ARCH%"@);
            assert("%DEPENDS%"@ != "%BUILDDATE%"@);
            assert("%DEPENDS%"@ != "%PACKAGER%"@);
            assert("%DEPENDS%"@ != "%REPLACES%"@);
            assert(entry_for_header(header_text(e)) == Some(e));
            assert(forall|i: int| 0 <= i < "%DEPENDS%"@.len() ==> "%DEPENDS%"@[i]
                != '\n');
        },
        Entry::Conflicts => {
            assert(header_text(e) == "%CONFLICTS%"@);
            assert("%CONFLICTS%"@ != "%FILENAME%"@);
            assert("%CONFLICTS%"@ != "%NAME%"@);
            assert("%CONFLICTS%"@ != "%BASE%"@);
            assert("%CONFLICTS%"@ != "%VERSION%"@);
            assert("%CONFLICTS%"@ != "%DESC%"@);
            assert("%CONFLICTS%"@ != "%GROUP%"@);
            assert("%CONFLICTS%"@ != "%CSIZE%"@);
            assert("%CONFLICTS%"@ != "%ISIZE%"@);
            assert("%CONFLICTS%"@[1] != "%SHA256SUM%"@[1]);
            assert("%CONFLICTS%"@ != "%SHA256SUM%"@);
            assert("%CONFLICTS%"@ != "%PGPSIG%"@);
            assert("%CONFLICTS%"@ != "%URL%"@);
            assert("%CONFLICTS%"@ != "%LICENSE%"@);
            assert("%CONFLICTS%"@ != "%ARCH%"@);
            assert("%CONFLICTS%"@[1] != "%BUILDDATE%"@[1]);
            assert("%CONFLICTS%"@ != "%BUILDDATE%"@);
            assert("%CONFLICTS%"@ != "%PACKAGER%"@);
            assert("%CONFLICTS%"@ != "%REPLACES%"@);
            assert("%CONFLICTS%"@ != "%DEPENDS%"@);
            assert(entry_for_header(header_text(e)) == Some(e));
            assert(forall|i: int| 0 <= i < "%CONFLICTS%"@.len() ==> "%CONFLICTS%"@[i]
                != '\n');
        },
        Entry::Provides => {
            assert(header_text(e) == "%PROVIDES%"@);
            assert("%PROVIDES%"@[1] != "%FILENAME%"@[1]);
            assert("%PROVIDES%"@ != "%FILENAME%"@);
            assert("%PROVIDES%"@ != "%NAME%"@);
            assert("%PROVIDES%"@ != "%BASE%"@);
            assert("%PROVIDES%"@ != "%VERSION%"@);
            assert("%PROVIDES%"@ != "%DESC%"@);
            assert("%PROVIDES%"@ != "%GROUP%"@);
            assert("%PROVIDES%"@ != "%CSIZE%"@);
            assert("%PROVIDES%"@ != "%ISIZE%"@);
            assert("%PROVIDES%"@ != "%SHA256SUM%"@);
            assert("%PROVIDES%"@ != "%PGPSIG%"@);
            assert("%PROVIDES%"@ != "%URL%"@);
            assert("%PROVIDES%"@ != "%LICENSE%"@);
            assert("%PROVIDES%"@ != "%ARCH%"@);
            assert("%PROVIDES%"@ != "%BUILDDATE%"@);
            assert("%PROVIDES%"@[2] != "%PACKAGER%"@[2]);
            assert("%PROVIDES%"@ != "%PACKAGER%"@);
            assert("%PROVIDES%"@[1] != "%REPLACES%"@[1]);
            assert("%PROVIDES%"@ != "%REPLACES%"@);
            assert("%PROVIDES%"@ != "%DEPENDS%"@);
            assert("%PROVIDES%"@ != "%CONFLICTS%"@);
            assert(entry_for_header(header_text(e)) == Some(e));
            assert(forall|i: int| 0 <= i < "%PROVIDES%"@.len() ==> "%PROVIDES%"@[i]
                != '\n');
        },
        Entry::OptDepends => {
            assert(header_text(e) == "%OPTDEPENDS%"@);
            assert("%OPTDEPENDS%"@ != "%FILENAME%"@);
            assert("%OPTDEPENDS%"@ != "%NAME%"@);
            assert("%OPTDEPENDS%"@ != "%BASE%"@);
            assert("%OPTDEPENDS%"@ != "%VERSION%"@);
            assert("%OPTDEPENDS%"@ != "%DESC%"@);
            assert("%OPTDEPENDS%"@ != "%GROUP%"@);
            assert("%OPTDEPENDS%"@ != "%CSIZE%"@);
            assert("%OPTDEPENDS%"@ != "%ISIZE%"@);
            assert("%OPTDEPENDS%"@ != "%SHA256SUM%"@);
            assert("%OPTDEPENDS%"@ != "%PGPSIG%"@);
            assert("%OPTDEPENDS%"@ != "%URL%"@);
            assert("%OPTDEPENDS%"@ != "%LICENSE%"@);
            assert("%OPTDEPENDS%"@ != "%ARCH%"@);
            assert("%OPTDEPENDS%"@ != "%BUILDDATE%"@);
            assert("%OPTDEPENDS%"@ != "%PACKAGER%"@);
            assert("%OPTDEPENDS%"@ != "%REPLACES%"@);
            assert("%OPTDEPENDS%"@ != "%DEPENDS%"@);
            assert("%OPTDEPENDS%"@ != "%CONFLICTS%"@);
            assert("%OPTDEPENDS%"@ != "%PROVIDES%"@);
            assert(entry_for_header(header_text(e)) == Some(e));
            assert(forall|i: int| 0 <= i < "%OPTDEPENDS%"@.len() ==> "%OPTDEPENDS%"@[i]
                != '\n');
        },
        Entry::MakeDepends => {
            assert(header_text(e) == "%MAKEDEPENDS%"@);
            assert("%MAKEDEPENDS%"@ != "%FILENAME%"@);
            assert("%MAKEDEPENDS%"@ != "%NAME%"@);
            assert("%MAKEDEPENDS%"@ != "%BASE%"@);
            assert("%MAKEDEPENDS%"@ != "%VERSION%"@);
            assert("%MAKEDEPENDS%"@ != "%DESC%"@);
            assert("%MAKEDEPENDS%"@ != "%GROUP%"@);
            assert("%MAKEDEPENDS%"@ != "%CSIZE%"@);
            assert("%MAKEDEPENDS%"@ != "%ISIZE%"@);
            assert("%MAKEDEPENDS%"@ != "%SHA256SUM%"@);
            assert("%MAKEDEPENDS%"@ != "%PGPSIG%"@);
            assert("%MAKEDEPENDS%"@ != "%URL%"@);
            assert("%MAKEDEPENDS%"@ != "%LICENSE%"@);
            assert("%MAKEDEPENDS%"@ != "%ARCH%"@);
            assert("%MAKEDEPENDS%"@ != "%BUILDDATE%"@);
            assert("%MAKEDEPENDS%"@ != "%PACKAGER%"@);
            assert("%MAKEDEPENDS%"@ != "%REPLACES%"@);
            assert("%MAKEDEPENDS%"@ != "%DEPENDS%"@);
            assert("%MAKEDEPENDS%"@ != "%CONFLICTS%"@);
            assert("%MAKEDEPENDS%"@ != "%PROVIDES%"@);
            assert("%MAKEDEPENDS%"@ != "%OPTDEPENDS%"@);
            assert(entry_for_header(header_text(e)) == Some(e));
            assert(forall|i: int| 0 <= i < "%MAKEDEPENDS%"@.len() ==> "%MAKEDEPENDS%"@[i]
                != '\n');
        },
        Entry::CheckDepends => {
            assert(header_text(e) == "%CHECKDEPENDS%"@);
            assert("%CHECKDEPENDS%"@ != "%FILENAME%"@);
            assert("%CHECKDEPENDS%"@ != "%NAME%"@);
            assert("%CHECKDEPENDS%"@ != "%BASE%"@);
            assert("%CHECKDEPENDS%"@ != "%VERSION%"@);
            assert("%CHECKDEPENDS%"@ != "%DESC%"@);
            assert("%CHECKDEPENDS%"@ != "%GROUP%"@);
            assert("%CHECKDEPENDS%"@ != "%CSIZE%"@);
            assert("%CHECKDEPENDS%"@ != "%ISIZE%"@);
            assert("%CHECKDEPENDS%"@ != "%SHA256SUM%"@);
            assert("%CHECKDEPENDS%"@ != "%PGPSIG%"@);
            assert("%CHECKDEPENDS%"@ != "%URL%"@);
            assert("%CHECKDEPENDS%"@ != "%LICENSE%"@);
            assert("%CHECKDEPENDS%"@ != "%ARCH%"@);
            assert("%CHECKDEPENDS%"@ != "%BUILDDATE%"@);
            assert("%CHECKDEPENDS%"@ != "%PACKAGER%"@);
            assert("%CHECKDEPENDS%"@ != "%REPLACES%"@);
            assert("%CHECKDEPENDS%"@ != "%DEPENDS%"@);
            assert("%CHECKDEPENDS%"@ != "%CONFLICTS%"@);
            assert("%CHECKDEPENDS%"@ != "%PROVIDES%"@);
            assert("%CHECKDEPENDS%"@ != "%OPTDEPENDS%"@);
            assert("%CHECKDEPENDS%"@ != "%MAKEDEPENDS%"@);
            assert(entry_for_header(header_text(e)) == Some(e));
            assert(forall|i: int| 0 <= i < "%CHECKDEPENDS%"@.len() ==> "%CHECKDEPENDS%"@[i]
                != '\n');
        },
        Entry::Files => {
            assert(header_text(e) == "%FILES%"@);
            assert("%FILES%"@ != "%FILENAME%"@);
            assert("%FILES%"@ != "%NAME%"@);
            assert("%FILES%"@ != "%BASE%"@);
            assert("%FILES%"@ != "%VERSION%"@);
            assert("%FILES%"@ != "%DESC%"@);
            assert("%FILES%"@[1] != "%GROUP%"@[1]);
            assert("%FILES%"@ != "%GROUP%"@);
            assert("%FILES%"@[1] != "%CSIZE%"@[1]);
            assert("%FILES%"@ != "%CSIZE%"@);
            assert("%FILES%"@[1] != "%ISIZE%"@[1]);
            assert("%FILES%"@ != "%ISIZE%"@);
            assert("%FILES%"@ != "%SHA256SUM%"@);
            assert("%FILES%"@ != "%PGPSIG%"@);
            assert("%FILES%"@ != "%URL%"@);
            assert("%FILES%"@ != "%LICENSE%"@);
            assert("%FILES%"@ != "%ARCH%"@);
            assert("%FILES%"@ != "%BUILDDATE%"@);
            assert("%FILES%"@ != "%PACKAGER%"@);
            assert("%FILES%"@ != "%REPLACES%"@);
            assert("%FILES%"@ != "%DEPENDS%"@);
            assert("%FILES%"@ != "%CONFLICTS%"@);
            assert("%FILES%"@ != "%PROVIDES%"@);
            assert("%FILES%"@ != "%OPTDEPENDS%"@);
            assert("%FILES%"@ != "%MAKEDEPENDS%"@);
            assert("%FILES%"@ != "%CHECKDEPENDS%"@);
            assert(entry_for_header(header_text(e)) == Some(e));
            assert(forall|i: int| 0 <= i < "%FILES%"@.len() ==> "%FILES%"@[i]
                != '\n');
        },
        Entry::Deltas => {
            assert(header_text(e) == "%DELTAS%"@);
            assert("%DELTAS%"@ != "%FILENAME%"@);
            assert("%DELTAS%"@ != "%NAME%"@);
            assert("%DELTAS%"@ != "%BASE%"@);
            assert("%DELTAS%"@ != "%VERSION%"@);
            assert("%DELTAS%"@ != "%DESC%"@);
            assert("%DELTAS%"@ != "%GROUP%"@);
            assert("%DELTAS%"@ != "%CSIZE%"@);
            assert("%DELTAS%"@ != "%ISIZE%"@);
            assert("%DELTAS%"@ != "%SHA256SUM%"@);
            assert("%DELTAS%"@[1] != "%PGPSIG%"@[1]);
            assert("%DELTAS%"@ != "%PGPSIG%"@);
            assert("%DELTAS%"@ != "%URL%"@);
            assert("%DELTAS%"@ != "%LICENSE%"@);
            assert("%DELTAS%"@ != "%ARCH%"@);
            assert("%DELTAS%"@ != "%BUILDDATE%"@);
            assert("%DELTAS%"@ != "%PACKAGER%"@);
            assert("%DELTAS%"@ != "%REPLACES%"@);
            assert("%DELTAS%"@ != "%DEPENDS%"@);
            assert("%DELTAS%"@ != "%CONFLICTS%"@);
            assert("%DELTAS%"@ != "%PROVIDES%"@);
            assert("%DELTAS%"@ != "%OPTDEPENDS%"@);
            assert("%DELTAS%"@ != "%MAKEDEPENDS%"@);
            assert("%DELTAS%"@ != "%CHECKDEPENDS%"@);
            assert("%DELTAS%"@ != "%FILES%"@);
            assert(entry_for_header(header_text(e)) == Some(e));
            assert(forall|i: int| 0 <= i < "%DELTAS%"@.len() ==> "%DELTAS%"@[i]
                != '\n');
        },
        _ => {
        },
    }
}

/// Splitting the joined lines gives the lines back, as long as none of
/// them holds a newline of its own.
proof fn lemma_split_unlines(ls: Seq<Seq<char>>)
    requires
        forall|i: int, j: int|
            0 <= i < ls.len() && 0 <= j < ls[i].len() ==> #[trigger] ls[i][j] != '\n',
    ensures
        split_lines(unlines(ls)) == ls,
    decreases ls.len(),
{
    if ls.len() == 0 {
    } else {
        let s = unlines(ls);
        let head = ls[0];
        let rest = unlines(ls.skip(1));
        assert(s == head + seq!['\n'] + rest);
        assert(forall|k: int| 0 <= k < head.len() ==> s[k] == head[k] && s[k] != '\n');
        assert(s[head.len() as int] == '\n');
        crate::alpm::lemma_run_len_is(s, |c: char| c != '\n', head.len());
        assert(nl_pos(s) == head.len());
        assert(s.take(head.len() as int) =~= head);
        assert(s.skip(head.len() as int + 1) =~= rest);
        assert(forall|i: int, j: int|
            0 <= i < ls.skip(1).len() && 0 <= j < ls.skip(1)[i].len()
                ==> #[trigger] ls.skip(1)[i][j] == ls[i + 1][j]);
        lemma_split_unlines(ls.skip(1));
        assert(split_lines(s) =~= ls) by {
            assert(split_lines(s) == seq![head] + split_lines(rest));
        }
    }
}

/// A joined non-empty line list ends with a newline.
proof fn lemma_unlines_last(ls: Seq<Seq<char>>)
    requires
        ls.len() > 0,
    ensures
        unlines(ls).len() > 0,
        unlines(ls)[unlines(ls).len() - 1] == '\n',
    decreases ls.len(),
{
    if ls.skip(1).len() == 0 {
        assert(unlines(ls.skip(1)) == Seq::<char>::empty());
    } else {
        lemma_unlines_last(ls.skip(1));
    }
}

/// Every line a clean record prints is free of newlines.
proof fn lemma_render_lines_clean(p: PackageView, order: Seq<Entry>)
    requires
        emittable(p),
        forall|k: int| 0 <= k < order.len() ==> has_header(#[trigger] order[k]),
    ensures
        forall|i: int, j: int|
            0 <= i < render_lines(p, order).len() && 0 <= j < render_lines(p, order)[i].len()
                ==> #[trigger] render_lines(p, order)[i][j] != '\n',
    decreases order.len(),
{
    if order.len() > 0 {
        lemma_render_lines_clean(p, order.skip(1));
        let rest = render_lines(p, order.skip(1));
        let e = order[0];
        if p.metadata.contains_key(e) {
            let m = p.metadata[e];
            lemma_header_classify(e);
            lemma_meta_lines_ok(m);
            let sl = section_lines(e, m);
            assert(forall|i: int, j: int|
                0 <= i < sl.len() && 0 <= j < sl[i].len() ==> #[trigger] sl[i][j] != '\n')
                by {
                assert(sl[0] == header_text(e));
                assert(sl[sl.len() - 1] =~= Seq::<char>::empty());
                assert(forall|i: int|
                    1 <= i < sl.len() - 1 ==> #[trigger] sl[i] == meta_lines(m)[i - 1]);
            }
            assert(render_lines(p, order) == sl + rest);
        }
    }
}

/// Moving a parse across a fixed prefix of lines: the section scan only
/// looks at indices at or past its start.
proof fn lemma_section_end_shift(a: Seq<Seq<char>>, b: Seq<Seq<char>>, i: int)
    requires
        0 <= i <= b.len(),
    ensures
        section_end(a + b, a.len() + i) == a.len() + section_end(b, i),
    decreases b.len() - i,
{
    assert((a + b).len() == a.len() + b.len());
    if i < b.len() {
        assert((a + b)[a.len() + i] == b[i]);
        if classify(b[i]) is Value {
            lemma_section_end_shift(a, b, i + 1);
        }
    }
}

/// A parse that starts past a fixed prefix of lines ignores the prefix.
proof fn lemma_parse_from_shift(
    a: Seq<Seq<char>>,
    b: Seq<Seq<char>>,
    i: int,
    p: PackageView,
)
    requires
        0 <= i <= b.len(),
    ensures
        parse_from(a + b, a.len() + i, p) == parse_from(b, i, p),
    decreases b.len() - i,
{
    let l = a + b;
    if i < b.len() {
        assert(l[a.len() + i] == b[i]);
        match classify(b[i]) {
            LineKind::Separator => {
                lemma_parse_from_shift(a, b, i + 1, p);
            },
            LineKind::Known(e) => {
                lemma_section_end_shift(a, b, i + 1);
                let j = section_end(b, i + 1);
                lemma_section_end_bounds(b, i + 1);
                assert(l.subrange(a.len() + i + 1, a.len() + j) =~= b.subrange(i + 1, j));
                match apply_section(p, e, b.subrange(i + 1, j)) {
                    Some(q) => {
                        lemma_parse_from_shift(a, b, j, q);
                    },
                    None => {
                    },
                }
            },
            LineKind::Unknown => {
                lemma_section_end_shift(a, b, i + 1);
                lemma_section_end_bounds(b, i + 1);
                lemma_parse_from_shift(a, b, section_end(b, i + 1), p);
            },
            LineKind::Value => {
            },
        }
    }
}

/// What one section contributes to a record being rebuilt.
pub open spec fn entry_result(q: PackageView, e: Entry, m: MetaView) -> PackageView {
    if e is Arch {
        PackageView { arch: arch_of(m->Text_0), metadata: q.metadata.insert(e, m), ..q }
    } else {
        PackageView { metadata: q.metadata.insert(e, m), ..q }
    }
}

/// The record rebuilt from the sections of `p` named by `order`.
pub open spec fn absorb(q: PackageView, p: PackageView, order: Seq<Entry>) -> PackageView
    decreases order.len(),
{
    if order.len() == 0 {
        q
    } else {
        let q1 = if p.metadata.contains_key(order[0]) {
            entry_result(q, order[0], p.metadata[order[0]])
        } else {
            q
        };
        absorb(q1, p, order.skip(1))
    }
}

/// One printed section applies back as exactly the value it printed.
proof fn lemma_apply_meta(q: PackageView, e: Entry, m: MetaView)
    requires
        matches_shape(e, m),
        value_ok(m),
        e is Name ==> m == MetaView::Text(q.name),
        e is Version ==> m == MetaView::Text(q.version),
        !q.metadata.contains_key(e),
    ensures
        apply_section(q, e, meta_lines(m)) == Some(entry_result(q, e, m)),
{
    lemma_meta_lines_ok(m);
    let vals = meta_lines(m);
    match shape_of(e) {
        Shape::Size => {
            lemma_dec_digits_val(m->Size_0 as nat);
        },
        Shape::Timestamp => {
            lemma_dec_digits_signed_val(m->Timestamp_0 as int);
        },
        _ => {
        },
    }
    assert(apply_section(q, e, vals) == Some(entry_result(q, e, m))) by {
        if e is Name {
            assert(vals =~= seq![q.name]);
        } else if e is Version {
            assert(vals =~= seq![q.version]);
        } else if e is Arch {
        } else {
            match shape_of(e) {
                Shape::Size => {
                    assert(dec_val(vals[0]) == m->Size_0 as nat);
                },
                Shape::Timestamp => {
                    assert(dec_val_signed(vals[0]) == m->Timestamp_0 as int);
                },
                _ => {
                },
            }
        }
    }
}

/// Parsing the printed sections of `p` into a fresh-enough record `q`
/// rebuilds exactly the entries named by `order`.
proof fn lemma_parse_render_sections(p: PackageView, q: PackageView, order: Seq<Entry>)
    requires
        emittable(p),
        q.name == p.name,
        q.version == p.version,
        forall|k: int| 0 <= k < order.len() ==> has_header(#[trigger] order[k]),
        forall|k: int| 0 <= k < order.len() ==> !q.metadata.contains_key(
            #[trigger] order[k],
        ),
        distinct_entries(order),
    ensures
        parse_from(render_lines(p, order), 0, q) == Some(absorb(q, p, order)),
    decreases order.len(),
{
    if order.len() == 0 {
    } else {
        let e = order[0];
        let tail = order.skip(1);
        assert(forall|k: int| 0 <= k < tail.len() ==> tail[k] == order[k + 1]);
        let rest = render_lines(p, tail);
        if !p.metadata.contains_key(e) {
            lemma_parse_render_sections(p, q, tail);
            assert(render_lines(p, order) == rest);
        } else {
            let m = p.metadata[e];
            let sl = section_lines(e, m);
            let l = render_lines(p, order);
            assert(l == sl + rest);
            let ml = meta_lines(m);
            lemma_header_classify(e);
            lemma_meta_lines_ok(m);
            assert(l[0] == header_text(e));
            assert(classify(l[0]) == LineKind::Known(e));
            assert(forall|k: int| 0 <= k < ml.len() ==> #[trigger] l[1 + k] == ml[k]);
            assert(l[1 + ml.len() as int] =~= Seq::<char>::empty());
            assert(classify(l[(1 + ml.len()) as int]) is Separator);
            let j = 1 + ml.len() as int;
            crate::desc::lemma_section_end_is(l, 1, j);
            assert(l.subrange(1, j) =~= ml);
            let q1 = entry_result(q, e, m);
            lemma_apply_meta(q, e, m);
            // after the section's blank line the remainder is exactly `rest`
            assert(parse_from(l, j, q1) == parse_from(l, j + 1, q1));
            assert(j + 1 == sl.len());
            lemma_parse_from_shift(sl, rest, 0, q1);
            assert(sl + rest =~= l);
            lemma_parse_render_sections(p, q1, tail);
            assert(q1.metadata == q.metadata.insert(e, m));
            assert(forall|k: int| 0 <= k < tail.len() ==> !q1.metadata.contains_key(
                #[trigger] tail[k],
            )) by {
                assert(forall|k: int| 0 <= k < tail.len() ==> tail[k] != e);
            }
            assert(parse_from(l, 0, q) == Some(absorb(q1, p, tail)));
        }
    }
}

/// The record rebuilt by `absorb` carries exactly the entries of `order`
/// that `p` carries, with `p`'s values; its name and version are `q`'s;
/// its architecture follows the `Arch` section when one is printed.
proof fn lemma_absorb_entries(q: PackageView, p: PackageView, order: Seq<Entry>)
    requires
        distinct_entries(order),
        forall|k: int| 0 <= k < order.len() ==> !q.metadata.contains_key(
            #[trigger] order[k],
        ),
    ensures
        ({
            let r = absorb(q, p, order);
            &&& r.name == q.name
            &&& r.version == q.version
            &&& forall|e: Entry|
                order.contains(e) && p.metadata.contains_key(e)
                    ==> r.metadata.contains_key(e) && #[trigger] r.metadata[e]
                    == p.metadata[e]
            &&& forall|e: Entry|
                !(order.contains(e) && p.metadata.contains_key(e))
                    ==> #[trigger] r.metadata.contains_key(e) == q.metadata.contains_key(e)
                    && (q.metadata.contains_key(e) ==> r.metadata[e] == q.metadata[e])
            &&& r.arch == (if order.contains(Entry::Arch) && p.metadata.contains_key(
                Entry::Arch,
            ) {
                arch_of(p.metadata[Entry::Arch]->Text_0)
            } else {
                q.arch
            })
        }),
    decreases order.len(),
{
    if order.len() == 0 {
        assert(forall|e: Entry| !order.contains(e));
    } else {
        let e0 = order[0];
        let tail = order.skip(1);
        assert(forall|k: int| 0 <= k < tail.len() ==> tail[k] == order[k + 1]);
        let q1 = if p.metadata.contains_key(e0) {
            entry_result(q, e0, p.metadata[e0])
        } else {
            q
        };
        assert(forall|k: int| 0 <= k < tail.len() ==> tail[k] != e0);
        lemma_absorb_entries(q1, p, tail);
        let r = absorb(q, p, order);
        assert(r == absorb(q1, p, tail));
        assert(order.contains(e0)) by {
            assert(order[0] == e0);
        }
        assert forall|e: Entry| #[trigger] order.contains(e) implies e == e0
            || tail.contains(e) by {
            let i = choose|i: int| 0 <= i < order.len() && order[i] == e;
            if i > 0 {
                assert(tail[i - 1] == e);
            }
        }
        assert forall|e: Entry| #[trigger] tail.contains(e) implies order.contains(e) by {
            let i = choose|i: int| 0 <= i < tail.len() && tail[i] == e;
            assert(order[i + 1] == e);
        }
        assert forall|e: Entry|
            #![trigger r.metadata[e]]
            #![trigger r.metadata.contains_key(e)]
            order.contains(e) && p.metadata.contains_key(e) implies r.metadata.contains_key(
            e,
        ) && r.metadata[e] == p.metadata[e] by {
            if e == e0 {
                assert(!(tail.contains(e0) && p.metadata.contains_key(e0)));
                assert(q1.metadata.contains_key(e0) && q1.metadata[e0] == p.metadata[e0]);
                assert(absorb(q1, p, tail).metadata.contains_key(e0)
                    == q1.metadata.contains_key(e0));
                assert(absorb(q1, p, tail).metadata[e0] == q1.metadata[e0]);
            } else {
                assert(tail.contains(e));
                assert(absorb(q1, p, tail).metadata[e] == p.metadata[e]);
                assert(absorb(q1, p, tail).metadata.contains_key(e));
            }
        }
        assert forall|e: Entry|
            !(order.contains(e) && p.metadata.contains_key(e))
                implies #[trigger] r.metadata.contains_key(e) == q.metadata.contains_key(e)
                && (q.metadata.contains_key(e) ==> r.metadata[e] == q.metadata[e]) by {
            assert(!(tail.contains(e) && p.metadata.contains_key(e)));
            assert(absorb(q1, p, tail).metadata.contains_key(e)
                == q1.metadata.contains_key(e));
            if e == e0 {
                assert(q1 == q);
            } else {
                assert(q1.metadata.contains_key(e) == q.metadata.contains_key(e));
                if q1.metadata.contains_key(e) {
                    assert(absorb(q1, p, tail).metadata[e] == q1.metadata[e]);
                    assert(q1.metadata[e] == q.metadata[e]);
                }
            }
        }
        assert(r.arch == (if order.contains(Entry::Arch) && p.metadata.contains_key(
            Entry::Arch,
        ) {
            arch_of(p.metadata[Entry::Arch]->Text_0)
        } else {
            q.arch
        })) by {
            if e0 == Entry::Arch {
                assert(!tail.contains(Entry::Arch));
            }
        }
    }
}

/// Two records that agree on the entries of `order` print the same lines.
proof fn lemma_render_congruent(a: PackageView, b: PackageView, order: Seq<Entry>)
    requires
        forall|k: int|
            0 <= k < order.len() ==> a.metadata.contains_key(#[trigger] order[k])
                == b.metadata.contains_key(order[k]) && (a.metadata.contains_key(order[k])
                ==> a.metadata[order[k]] == b.metadata[order[k]]),
    ensures
        render_lines(a, order) == render_lines(b, order),
    decreases order.len(),
{
    if order.len() > 0 {
        let tail = order.skip(1);
        assert(forall|k: int| 0 <= k < tail.len() ==> tail[k] == order[k + 1]);
        lemma_render_congruent(a, b, tail);
    }
}

/// Printing, parsing into a blank record, and printing again gives the
/// same bytes, for any record the codec can print; the parse succeeds.
pub proof fn lemma_round_trip(p: PackageView, order: Seq<Entry>)
    requires
        emittable(p),
        distinct_entries(order),
        forall|k: int| 0 <= k < order.len() ==> has_header(#[trigger] order[k]),
    ensures
        ({
            let parsed = parse_desc_spec(
                render_text(p, order),
                fresh_view(p.name, p.version),
            );
            &&& parsed is Some
            &&& render_text(parsed->0, order) == render_text(p, order)
            &&& parsed->0.name == p.name
            &&& parsed->0.version == p.version
        }),
{
    let q = fresh_view(p.name, p.version);
    let lines = render_lines(p, order);
    let text = render_text(p, order);
    lemma_render_lines_clean(p, order);
    lemma_split_unlines(lines);
    if lines.len() > 0 {
        lemma_unlines_last(lines);
    }
    lemma_parse_render_sections(p, q, order);
    let r = absorb(q, p, order);
    lemma_absorb_entries(q, p, order);
    assert forall|k: int| 0 <= k < order.len() implies r.metadata.contains_key(
        #[trigger] order[k],
    ) == p.metadata.contains_key(order[k]) && (p.metadata.contains_key(order[k])
        ==> r.metadata[order[k]] == p.metadata[order[k]]) by {
        let e = order[k];
        assert(order.contains(e));
        if p.metadata.contains_key(e) {
            assert(absorb(q, p, order).metadata[e] == p.metadata[e]);
            assert(absorb(q, p, order).metadata.contains_key(e));
        } else {
            assert(absorb(q, p, order).metadata.contains_key(e)
                == q.metadata.contains_key(e));
            assert(!q.metadata.contains_key(e));
        }
    }
    lemma_render_congruent(r, p, order);
}

/// Parsing the saved `desc` page of a package yields a record whose
/// name, version and architecture equal the package's own.
pub proof fn lemma_desc_identity(p: PackageView)
    requires
        emittable(p),
        p.metadata.contains_key(Entry::Arch),
        arch_of(p.metadata[Entry::Arch]->Text_0) == p.arch,
    ensures
        ({
            let parsed = parse_desc_spec(
                render_text(p, desc_order()),
                fresh_view(p.name, p.version),
            );
            &&& parsed is Some
            &&& parsed->0.name == p.name
            &&& parsed->0.version == p.version
            &&& parsed->0.arch == p.arch
        }),
{
    lemma_desc_order_headers();
    let q = fresh_view(p.name, p.version);
    let order = desc_order();
    lemma_render_lines_clean(p, order);
    lemma_split_unlines(render_lines(p, order));
    if render_lines(p, order).len() > 0 {
        lemma_unlines_last(render_lines(p, order));
    }
    lemma_parse_render_sections(p, q, order);
    lemma_absorb_entries(q, p, order);
    assert(order.contains(Entry::Arch)) by {
        assert(order[12] == Entry::Arch);
    }
}

/// The `desc` section order names sixteen distinct printable entries.
pub proof fn lemma_desc_order_headers()
    ensures
        distinct_entries(desc_order()),
        forall|k: int| 0 <= k < desc_order().len() ==> has_header(
            #[trigger] desc_order()[k],
        ),
{
}

/// The `depends` section order names six distinct printable entries.
pub proof fn lemma_depends_order_headers()
    ensures
        distinct_entries(crate::desc::depends_order()),
        forall|k: int| 0 <= k < crate::desc::depends_order().len() ==> has_header(
            #[trigger] crate::desc::depends_order()[k],
        ),
{
}

/// The `files` section order names one printable entry.
pub proof fn lemma_files_order_headers()
    ensures
        distinct_entries(crate::desc::files_order()),
        forall|k: int| 0 <= k < crate::desc::files_order().len() ==> has_header(
            #[trigger] crate::desc::files_order()[k],
        ),
{
}

} // verus!
