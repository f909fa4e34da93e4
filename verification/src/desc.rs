//! The `%HEADER%`/blank-line text codec used inside every index file.
//!
//! A file is a sequence of sections: a header line `%NAME%`, zero or
//! more value lines, and a blank line.  The parser is a small state
//! machine over lines; the emitter writes sections in a caller-given
//! order.  Both sides are specified against the same line-level model,
//! which is what the round-trip lemmas are stated over.

use vstd::prelude::*;

verus! {

use crate::alpm::run_len;
use crate::error::Error;
use crate::numfmt::{
    dec_digits, dec_digits_signed, dec_val, dec_val_signed, is_dec_string,
    is_dec_string_signed, i64_to_dec, parse_i64, parse_u64, u64_to_dec,
};
use crate::package::{
    arch_of, clone_lines, shape, shape_of, str_eq, Arch, Entry, MetaView, Metadata, Package,
    PackageView, Shape,
};

/// Whether an entry kind has a printed header form.
pub open spec fn has_header(e: Entry) -> bool {
    !(e is Backups || e is BuildOptions || e is BuildDirectory || e is BuildEnvironment
        || e is BuildInstalled)
}

/// The printed header line of an entry kind, without the newline.
pub open spec fn header_text(e: Entry) -> Seq<char> {
    match e {
        Entry::Filename => "%FILENAME%"@,
        Entry::Name => "%NAME%"@,
        Entry::Base => "%BASE%"@,
        Entry::Version => "%VERSION%"@,
        Entry::Description => "%DESC%"@,
        Entry::Groups => "%GROUP%"@,
        Entry::PackageSize => "%CSIZE%"@,
        Entry::InstallSize => "%ISIZE%"@,
        Entry::SHA256Sum => "%SHA256SUM%"@,
        Entry::PGPSig => "%PGPSIG%"@,
        Entry::Url => "%URL%"@,
        Entry::License => "%LICENSE%"@,
        Entry::Arch => "%ARCH%"@,
        Entry::BuildDate => "%BUILDDATE%"@,
        Entry::Packager => "%PACKAGER%"@,
        Entry::Replaces => "%REPLACES%"@,
        Entry::Depends => "%DEPENDS%"@,
        Entry::Conflicts => "%CONFLICTS%"@,
        Entry::Provides => "%PROVIDES%"@,
        Entry::OptDepends => "%OPTDEPENDS%"@,
        Entry::MakeDepends => "%MAKEDEPENDS%"@,
        Entry::CheckDepends => "%CHECKDEPENDS%"@,
        Entry::Files => "%FILES%"@,
        Entry::Deltas => "%DELTAS%"@,
        _ => Seq::<char>::empty(),
    }
}

/// The known entry whose header line is `l`, if any.
pub open spec fn entry_for_header(l: Seq<char>) -> Option<Entry> {
    if l == "%FILENAME%"@ {
        Some(Entry::Filename)
    } else if l == "%NAME%"@ {
        Some(Entry::Name)
    } else if l == "%BASE%"@ {
        Some(Entry::Base)
    } else if l == "%VERSION%"@ {
        Some(Entry::Version)
    } else if l == "%DESC%"@ {
        Some(Entry::Description)
    } else if l == "%GROUP%"@ {
        Some(Entry::Groups)
    } else if l == "%CSIZE%"@ {
        Some(Entry::PackageSize)
    } else if l == "%ISIZE%"@ {
        Some(Entry::InstallSize)
    } else if l == "%SHA256SUM%"@ {
        Some(Entry::SHA256Sum)
    } else if l == "%PGPSIG%"@ {
        Some(Entry::PGPSig)
    } else if l == "%URL%"@ {
        Some(Entry::Url)
    } else if l == "%LICENSE%"@ {
        Some(Entry::License)
    } else if l == "%ARCH%"@ {
        Some(Entry::Arch)
    } else if l == "%BUILDDATE%"@ {
        Some(Entry::BuildDate)
    } else if l == "%PACKAGER%"@ {
        Some(Entry::Packager)
    } else if l == "%REPLACES%"@ {
        Some(Entry::Replaces)
    } else if l == "%DEPENDS%"@ {
        Some(Entry::Depends)
    } else if l == "%CONFLICTS%"@ {
        Some(Entry::Conflicts)
    } else if l == "%PROVIDES%"@ {
        Some(Entry::Provides)
    } else if l == "%OPTDEPENDS%"@ {
        Some(Entry::OptDepends)
    } else if l == "%MAKEDEPENDS%"@ {
        Some(Entry::MakeDepends)
    } else if l == "%CHECKDEPENDS%"@ {
        Some(Entry::CheckDepends)
    } else if l == "%FILES%"@ {
        Some(Entry::Files)
    } else if l == "%DELTAS%"@ {
        Some(Entry::Deltas)
    } else {
        None
    }
}

/// Whether a character may stand between the `%` marks of a header.
pub open spec fn is_header_char(c: char) -> bool {
    (65 <= c as u32 && c as u32 <= 90) || (48 <= c as u32 && c as u32 <= 57)
}

/// Whether a line has the shape `%[A-Z0-9]+%` of a section header.
pub open spec fn is_header_shape(l: Seq<char>) -> bool {
    l.len() >= 3 && l[0] == '%' && l[l.len() - 1] == '%' && (forall|i: int|
        1 <= i < l.len() - 1 ==> is_header_char(l[i]))
}

/// What a line means to the parser.
pub enum LineKind {
    /// A blank line: ends the current section.
    Separator,
    /// The header of a recognized entry.
    Known(Entry),
    /// A header-shaped line of no recognized entry: its section is skipped.
    Unknown,
    /// A value line.
    Value,
}

pub open spec fn classify(l: Seq<char>) -> LineKind {
    if l.len() == 0 {
        LineKind::Separator
    } else if entry_for_header(l) is Some {
        LineKind::Known(entry_for_header(l)->0)
    } else if is_header_shape(l) {
        LineKind::Unknown
    } else {
        LineKind::Value
    }
}

/// Position of the first newline in `s`, or its length.
pub open spec fn nl_pos(s: Seq<char>) -> int {
    run_len(s, |c: char| c != '\n') as int
}

/// The newline-terminated lines of a text; a trailing unterminated
/// fragment becomes a line of its own, and callers exclude it.
pub open spec fn split_lines(s: Seq<char>) -> Seq<Seq<char>>
    decreases s.len(),
    via split_lines_decreases
{
    if s.len() == 0 {
        Seq::empty()
    } else {
        let k = nl_pos(s);
        if k >= s.len() {
            seq![s]
        } else {
            seq![s.take(k)] + split_lines(s.skip(k + 1))
        }
    }
}

#[via_fn]
proof fn split_lines_decreases(s: Seq<char>) {
    crate::alpm::lemma_run_len_props(s, |c: char| c != '\n');
}

/// The text whose lines, each newline-terminated, are `ls`.
pub open spec fn unlines(ls: Seq<Seq<char>>) -> Seq<char>
    decreases ls.len(),
{
    if ls.len() == 0 {
        Seq::empty()
    } else {
        ls[0] + seq!['\n'] + unlines(ls.skip(1))
    }
}

/// The first index at or after `i` whose line is not a value line.
pub open spec fn section_end(lines: Seq<Seq<char>>, i: int) -> int
    decreases lines.len() - i when 0 <= i <= lines.len()
{
    if i >= lines.len() || !(classify(lines[i]) is Value) {
        i
    } else {
        section_end(lines, i + 1)
    }
}

pub proof fn lemma_section_end_bounds(lines: Seq<Seq<char>>, i: int)
    requires
        0 <= i <= lines.len(),
    ensures
        i <= section_end(lines, i) <= lines.len(),
        forall|k: int| i <= k < section_end(lines, i) ==> classify(lines[k]) is Value,
        section_end(lines, i) < lines.len() ==> !(classify(
            lines[section_end(lines, i)],
        ) is Value),
    decreases lines.len() - i,
{
    if i < lines.len() && classify(lines[i]) is Value {
        lemma_section_end_bounds(lines, i + 1);
    }
}

/// The effect of one recognized section on a package record.
///
/// `Name` and `Version` must agree with the record; `Arch` also sets the
/// architecture field; scalar entries take exactly one value and may not
/// collide; list entries accumulate.
pub open spec fn apply_section(p: PackageView, e: Entry, vals: Seq<Seq<char>>) -> Option<
    PackageView,
> {
    if vals.len() == 0 {
        Some(p)
    } else if e is Name {
        if vals.len() == 1 && vals[0] == p.name {
            Some(PackageView { metadata: p.metadata.insert(e, MetaView::Text(vals[0])), ..p })
        } else {
            None
        }
    } else if e is Version {
        if vals.len() == 1 && vals[0] == p.version {
            Some(PackageView { metadata: p.metadata.insert(e, MetaView::Text(vals[0])), ..p })
        } else {
            None
        }
    } else if e is Arch {
        if vals.len() == 1 {
            Some(
                PackageView {
                    arch: arch_of(vals[0]),
                    metadata: p.metadata.insert(e, MetaView::Text(vals[0])),
                    ..p
                },
            )
        } else {
            None
        }
    } else {
        match shape_of(e) {
            Shape::Text => {
                if vals.len() == 1 && !p.metadata.contains_key(e) {
                    Some(
                        PackageView {
                            metadata: p.metadata.insert(e, MetaView::Text(vals[0])),
                            ..p
                        },
                    )
                } else {
                    None
                }
            },
            Shape::Path => {
                if vals.len() == 1 && !p.metadata.contains_key(e) {
                    Some(
                        PackageView {
                            metadata: p.metadata.insert(e, MetaView::Path(vals[0])),
                            ..p
                        },
                    )
                } else {
                    None
                }
            },
            Shape::Size => {
                if vals.len() == 1 && !p.metadata.contains_key(e) && is_dec_string(vals[0])
                    && dec_val(vals[0]) <= u64::MAX {
                    Some(
                        PackageView {
                            metadata: p.metadata.insert(
                                e,
                                MetaView::Size(dec_val(vals[0]) as u64),
                            ),
                            ..p
                        },
                    )
                } else {
                    None
                }
            },
            Shape::Timestamp => {
                if vals.len() == 1 && !p.metadata.contains_key(e) && is_dec_string_signed(
                    vals[0],
                ) && i64::MIN <= dec_val_signed(vals[0]) <= i64::MAX {
                    Some(
                        PackageView {
                            metadata: p.metadata.insert(
                                e,
                                MetaView::Timestamp(dec_val_signed(vals[0]) as i64),
                            ),
                            ..p
                        },
                    )
                } else {
                    None
                }
            },
            Shape::List => {
                if !p.metadata.contains_key(e) {
                    Some(
                        PackageView {
                            metadata: p.metadata.insert(e, MetaView::List(vals)),
                            ..p
                        },
                    )
                } else if p.metadata[e] is List {
                    Some(
                        PackageView {
                            metadata: p.metadata.insert(
                                e,
                                MetaView::List(p.metadata[e]->List_0 + vals),
                            ),
                            ..p
                        },
                    )
                } else {
                    None
                }
            },
        }
    }
}

/// Parse the lines from index `i` on into `p`: a malformed input is
/// `None`, otherwise the populated record.
pub open spec fn parse_from(lines: Seq<Seq<char>>, i: int, p: PackageView) -> Option<PackageView>
    decreases lines.len() - i when 0 <= i <= lines.len()
    via parse_from_decreases
{
    if i >= lines.len() {
        Some(p)
    } else {
        match classify(lines[i]) {
            LineKind::Separator => parse_from(lines, i + 1, p),
            LineKind::Known(e) => {
                let j = section_end(lines, i + 1);
                match apply_section(p, e, lines.subrange(i + 1, j)) {
                    Some(q) => parse_from(lines, j, q),
                    None => None,
                }
            },
            LineKind::Unknown => parse_from(lines, section_end(lines, i + 1), p),
            LineKind::Value => None,
        }
    }
}

#[via_fn]
proof fn parse_from_decreases(lines: Seq<Seq<char>>, i: int, p: PackageView) {
    if 0 <= i < lines.len() {
        lemma_section_end_bounds(lines, i + 1);
    }
}

/// Parse a whole desc-format text into `p`.  The text must consist of
/// newline-terminated lines; anything else is malformed.
pub open spec fn parse_desc_spec(text: Seq<char>, p: PackageView) -> Option<PackageView> {
    if text.len() > 0 && text[text.len() - 1] != '\n' {
        None
    } else {
        parse_from(split_lines(text), 0, p)
    }
}

/// The value lines a metadata entry prints as.
pub open spec fn meta_lines(m: MetaView) -> Seq<Seq<char>> {
    match m {
        MetaView::Text(s) => seq![s],
        MetaView::Path(s) => seq![s],
        MetaView::Size(n) => seq![dec_digits(n as nat)],
        MetaView::Timestamp(n) => seq![dec_digits_signed(n as int)],
        MetaView::List(l) => l,
    }
}

/// The lines of one printed section: header, values, blank line.
pub open spec fn section_lines(e: Entry, m: MetaView) -> Seq<Seq<char>> {
    seq![header_text(e)] + meta_lines(m) + seq![Seq::<char>::empty()]
}

/// The lines of a page: the sections of the entries of `order` that are
/// present in `p`, in exactly the order given.
pub open spec fn render_lines(p: PackageView, order: Seq<Entry>) -> Seq<Seq<char>>
    decreases order.len(),
{
    if order.len() == 0 {
        Seq::empty()
    } else {
        let rest = render_lines(p, order.skip(1));
        if p.metadata.contains_key(order[0]) {
            section_lines(order[0], p.metadata[order[0]]) + rest
        } else {
            rest
        }
    }
}

/// The full text of a page.
pub open spec fn render_text(p: PackageView, order: Seq<Entry>) -> Seq<char> {
    unlines(render_lines(p, order))
}

/// The section order of a `desc` file.
pub open spec fn desc_order() -> Seq<Entry> {
    seq![
        Entry::Filename,
        Entry::Name,
        Entry::Base,
        Entry::Version,
        Entry::Description,
        Entry::Groups,
        Entry::PackageSize,
        Entry::InstallSize,
        Entry::PGPSig,
        Entry::SHA256Sum,
        Entry::Url,
        Entry::License,
        Entry::Arch,
        Entry::BuildDate,
        Entry::Packager,
        Entry::Replaces,
    ]
}

/// The section order of a `depends` file.
pub open spec fn depends_order() -> Seq<Entry> {
    seq![
        Entry::Depends,
        Entry::Conflicts,
        Entry::Provides,
        Entry::OptDepends,
        Entry::MakeDepends,
        Entry::CheckDepends,
    ]
}

/// The section order of a `files` file.
pub open spec fn files_order() -> Seq<Entry> {
    seq![Entry::Files]
}

pub proof fn lemma_unlines_concat(a: Seq<Seq<char>>, b: Seq<Seq<char>>)
    ensures
        unlines(a + b) == unlines(a) + unlines(b),
    decreases a.len(),
{
    if a.len() == 0 {
        assert(a + b =~= b);
        assert(unlines(a) + unlines(b) =~= unlines(b));
    } else {
        lemma_unlines_concat(a.skip(1), b);
        assert((a + b).skip(1) =~= a.skip(1) + b);
        assert(unlines(a + b) =~= unlines(a) + unlines(b));
    }
}

/// The printed header of an entry kind, when it has one.
pub fn header_str(e: Entry) -> (r: Option<&'static str>)
    ensures
        match r {
            Some(h) => has_header(e) && h@ == header_text(e),
            None => !has_header(e),
        },
{
    match e {
        Entry::Filename => Some("%FILENAME%"),
        Entry::Name => Some("%NAME%"),
        Entry::Base => Some("%BASE%"),
        Entry::Version => Some("%VERSION%"),
        Entry::Description => Some("%DESC%"),
        Entry::Groups => Some("%GROUP%"),
        Entry::PackageSize => Some("%CSIZE%"),
        Entry::InstallSize => Some("%ISIZE%"),
        Entry::SHA256Sum => Some("%SHA256SUM%"),
        Entry::PGPSig => Some("%PGPSIG%"),
        Entry::Url => Some("%URL%"),
        Entry::License => Some("%LICENSE%"),
        Entry::Arch => Some("%ARCH%"),
        Entry::BuildDate => Some("%BUILDDATE%"),
        Entry::Packager => Some("%PACKAGER%"),
        Entry::Replaces => Some("%REPLACES%"),
        Entry::Depends => Some("%DEPENDS%"),
        Entry::Conflicts => Some("%CONFLICTS%"),
        Entry::Provides => Some("%PROVIDES%"),
        Entry::OptDepends => Some("%OPTDEPENDS%"),
        Entry::MakeDepends => Some("%MAKEDEPENDS%"),
        Entry::CheckDepends => Some("%CHECKDEPENDS%"),
        Entry::Files => Some("%FILES%"),
        Entry::Deltas => Some("%DELTAS%"),
        _ => None,
    }
}

pub proof fn lemma_unlines_singleton(l: Seq<char>)
    ensures
        unlines(seq![l]) == l + seq!['\n'],
{
    assert(seq![l].skip(1) =~= Seq::<Seq<char>>::empty());
    assert(unlines(Seq::<Seq<char>>::empty()) == Seq::<char>::empty());
    assert(seq![l][0] == l);
    assert(l + seq!['\n'] + Seq::<char>::empty() =~= l + seq!['\n']);
    assert(unlines(seq![l]) =~= l + seq!['\n']);
}

proof fn lemma_unlines_push(ls: Seq<Seq<char>>, l: Seq<char>)
    ensures
        unlines(ls.push(l)) == unlines(ls) + l + seq!['\n'],
{
    assert(ls.push(l) =~= ls + seq![l]);
    lemma_unlines_concat(ls, seq![l]);
    lemma_unlines_singleton(l);
}

/// Append one printed section: the header, one line per datum, and a
/// blank line.
fn append_section(out: &mut String, e: Entry, m: &Metadata)
    requires
        has_header(e),
    ensures
        final(out)@ == old(out)@ + unlines(section_lines(e, m@)),
{
    proof {
        reveal_strlit("\n");
        assert("\n"@ =~= seq!['\n']);
    }
    match header_str(e) {
        Some(h) => {
            out.append(h);
            out.append("\n");
        },
        None => {
            proof {
                assert(false);
            }
        },
    }
    match m {
        Metadata::Text(s) => {
            out.append(s.as_str());
            out.append("\n");
        },
        Metadata::Path(s) => {
            out.append(s.as_str());
            out.append("\n");
        },
        Metadata::Size(n) => {
            let d = u64_to_dec(*n);
            out.append(d.as_str());
            out.append("\n");
        },
        Metadata::Timestamp(n) => {
            let d = i64_to_dec(*n);
            out.append(d.as_str());
            out.append("\n");
        },
        Metadata::List(l) => {
            let ghost base = out@;
            let mut i: usize = 0;
            while i < l.len()
                invariant
                    i <= l@.len(),
                    out@ == base + unlines(l.deep_view().take(i as int)),
                decreases l@.len() - i,
            {
                out.append(l[i].as_str());
                out.append("\n");
                proof {
                    reveal_strlit("\n");
                    assert("\n"@ =~= seq!['\n']);
                    let lv = l.deep_view();
                    assert(lv.take(i + 1) =~= lv.take(i as int).push(lv[i as int]));
                    lemma_unlines_push(lv.take(i as int), lv[i as int]);
                    assert(lv[i as int] == l@[i as int]@);
                }
                i += 1;
            }
            assert(l.deep_view().take(l@.len() as int) =~= l.deep_view());
        },
    }
    out.append("\n");
    proof {
        let sl = section_lines(e, m@);
        let ml = meta_lines(m@);
        lemma_unlines_concat(seq![header_text(e)] + ml, seq![Seq::<char>::empty()]);
        lemma_unlines_concat(seq![header_text(e)], ml);
        assert(sl =~= (seq![header_text(e)] + ml) + seq![Seq::<char>::empty()]);
        lemma_unlines_singleton(header_text(e));
        lemma_unlines_singleton(Seq::<char>::empty());
        if m@ is Text {
            lemma_unlines_singleton(m@->Text_0);
        }
        if m@ is Path {
            lemma_unlines_singleton(m@->Path_0);
        }
        if m@ is Size {
            lemma_unlines_singleton(dec_digits(m@->Size_0 as nat));
        }
        if m@ is Timestamp {
            lemma_unlines_singleton(dec_digits_signed(m@->Timestamp_0 as int));
        }
        assert(final(out)@ =~= old(out)@ + unlines(section_lines(e, m@)));
    }
}

/// Print the sections of the entries of `order` that `pkg` carries, in
/// exactly that order.
pub fn render_page(pkg: &Package, order: &Vec<Entry>) -> (out: String)
    requires
        pkg.wf(),
        forall|k: int| 0 <= k < order@.len() ==> has_header(#[trigger] order@[k]),
    ensures
        out@ == render_text(pkg@, order@),
{
    let mut out = String::new();
    let mut i: usize = 0;
    proof {
        assert(order@.skip(0) =~= order@);
    }
    while i < order.len()
        invariant
            pkg.wf(),
            i <= order@.len(),
            forall|k: int| 0 <= k < order@.len() ==> has_header(#[trigger] order@[k]),
            out@ + render_text(pkg@, order@.skip(i as int)) == render_text(pkg@, order@),
        decreases order@.len() - i,
    {
        let ghost tail = order@.skip(i as int);
        proof {
            assert(tail.skip(1) =~= order@.skip(i + 1));
            assert(tail[0] == order@[i as int]);
            lemma_unlines_concat(
                if pkg@.metadata.contains_key(tail[0]) {
                    section_lines(tail[0], pkg@.metadata[tail[0]])
                } else {
                    Seq::empty()
                },
                render_lines(pkg@, tail.skip(1)),
            );
            assert(Seq::<Seq<char>>::empty() + render_lines(pkg@, tail.skip(1)) =~= render_lines(
                pkg@,
                tail.skip(1),
            ));
        }
        let e = order[i];
        match pkg.metadata_get(e) {
            Some(m) => {
                append_section(&mut out, e, m);
            },
            None => {
            },
        }
        i += 1;
    }
    proof {
        assert(order@.skip(order@.len() as int) =~= Seq::<Entry>::empty());
    }
    out
}

/// The fixed section order of a `desc` file.
pub fn desc_order_vec() -> (v: Vec<Entry>)
    ensures
        v@ == desc_order(),
        forall|k: int| 0 <= k < v@.len() ==> has_header(#[trigger] v@[k]),
{
    let mut v: Vec<Entry> = Vec::new();
    v.push(Entry::Filename);
    v.push(Entry::Name);
    v.push(Entry::Base);
    v.push(Entry::Version);
    v.push(Entry::Description);
    v.push(Entry::Groups);
    v.push(Entry::PackageSize);
    v.push(Entry::InstallSize);
    v.push(Entry::PGPSig);
    v.push(Entry::SHA256Sum);
    v.push(Entry::Url);
    v.push(Entry::License);
    v.push(Entry::Arch);
    v.push(Entry::BuildDate);
    v.push(Entry::Packager);
    v.push(Entry::Replaces);
    assert(v@ =~= desc_order());
    v
}

/// The fixed section order of a `depends` file.
pub fn depends_order_vec() -> (v: Vec<Entry>)
    ensures
        v@ == depends_order(),
        forall|k: int| 0 <= k < v@.len() ==> has_header(#[trigger] v@[k]),
{
    let mut v: Vec<Entry> = Vec::new();
    v.push(Entry::Depends);
    v.push(Entry::Conflicts);
    v.push(Entry::Provides);
    v.push(Entry::OptDepends);
    v.push(Entry::MakeDepends);
    v.push(Entry::CheckDepends);
    assert(v@ =~= depends_order());
    v
}

/// The fixed section order of a `files` file.
pub fn files_order_vec() -> (v: Vec<Entry>)
    ensures
        v@ == files_order(),
        forall|k: int| 0 <= k < v@.len() ==> has_header(#[trigger] v@[k]),
{
    let mut v: Vec<Entry> = Vec::new();
    v.push(Entry::Files);
    assert(v@ =~= files_order());
    v
}

/// Sort a line into its meaning for the parser.
pub fn classify_line(l: &str) -> (k: LineKind)
    ensures
        k == classify(l@),
{
    let n = l.unicode_len();
    if n == 0 {
        return LineKind::Separator;
    }
    match entry_for_header_exec(l) {
        Some(e) => LineKind::Known(e),
        None => {
            if n >= 3 && l.get_char(0) == '%' && l.get_char(n - 1) == '%' {
                let mut i: usize = 1;
                while i < n - 1
                    invariant
                        n == l@.len(),
                        3 <= n,
                        1 <= i <= n - 1,
                        entry_for_header(l@) is None,
                        l@[0] == '%',
                        l@[n - 1] == '%',
                        forall|k: int| 1 <= k < i ==> is_header_char(l@[k]),
                    decreases n - 1 - i,
                {
                    let u = l.get_char(i) as u32;
                    if !((65 <= u && u <= 90) || (48 <= u && u <= 57)) {
                        assert(!is_header_shape(l@));
                        return LineKind::Value;
                    }
                    i += 1;
                }
                assert(is_header_shape(l@));
                LineKind::Unknown
            } else {
                assert(!is_header_shape(l@));
                LineKind::Value
            }
        },
    }
}

/// Match a line against the known header forms.
fn entry_for_header_exec(l: &str) -> (r: Option<Entry>)
    ensures
        r == entry_for_header(l@),
{
    if str_eq(l, "%FILENAME%") {
        Some(Entry::Filename)
    } else if str_eq(l, "%NAME%") {
        Some(Entry::Name)
    } else if str_eq(l, "%BASE%") {
        Some(Entry::Base)
    } else if str_eq(l, "%VERSION%") {
        Some(Entry::Version)
    } else if str_eq(l, "%DESC%") {
        Some(Entry::Description)
    } else if str_eq(l, "%GROUP%") {
        Some(Entry::Groups)
    } else if str_eq(l, "%CSIZE%") {
        Some(Entry::PackageSize)
    } else if str_eq(l, "%ISIZE%") {
        Some(Entry::InstallSize)
    } else if str_eq(l, "%SHA256SUM%") {
        Some(Entry::SHA256Sum)
    } else if str_eq(l, "%PGPSIG%") {
        Some(Entry::PGPSig)
    } else if str_eq(l, "%URL%") {
        Some(Entry::Url)
    } else if str_eq(l, "%LICENSE%") {
        Some(Entry::License)
    } else if str_eq(l, "%ARCH%") {
        Some(Entry::Arch)
    } else if str_eq(l, "%BUILDDATE%") {
        Some(Entry::BuildDate)
    } else if str_eq(l, "%PACKAGER%") {
        Some(Entry::Packager)
    } else if str_eq(l, "%REPLACES%") {
        Some(Entry::Replaces)
    } else if str_eq(l, "%DEPENDS%") {
        Some(Entry::Depends)
    } else if str_eq(l, "%CONFLICTS%") {
        Some(Entry::Conflicts)
    } else if str_eq(l, "%PROVIDES%") {
        Some(Entry::Provides)
    } else if str_eq(l, "%OPTDEPENDS%") {
        Some(Entry::OptDepends)
    } else if str_eq(l, "%MAKEDEPENDS%") {
        Some(Entry::MakeDepends)
    } else if str_eq(l, "%CHECKDEPENDS%") {
        Some(Entry::CheckDepends)
    } else if str_eq(l, "%FILES%") {
        Some(Entry::Files)
    } else if str_eq(l, "%DELTAS%") {
        Some(Entry::Deltas)
    } else {
        None
    }
}

/// Split a text into its lines; a trailing unterminated fragment
/// becomes a final line of its own.
pub(crate) fn split_lines_exec(s: &str) -> (r: Vec<String>)
    ensures
        r.deep_view() == split_lines(s@),
{
    let n = s.unicode_len();
    let mut r: Vec<String> = Vec::new();
    let ghost mut done: Seq<Seq<char>> = Seq::empty();
    let mut start: usize = 0;
    let mut i: usize = 0;
    proof {
        assert(s@.skip(0) =~= s@);
        assert(done + split_lines(s@) =~= split_lines(s@));
    }
    while i < n
        invariant
            n == s@.len(),
            start <= i <= n,
            forall|k: int| start <= k < i ==> s@[k] != '\n',
            split_lines(s@) == done + split_lines(s@.skip(start as int)),
            r@.len() == done.len(),
            forall|k: int| 0 <= k < done.len() ==> r@[k]@ == done[k],
        decreases n - i,
    {
        if s.get_char(i) == '\n' {
            let line = s.substring_char(start, i);
            r.push(String::from_str(line));
            proof {
                let rem = s@.skip(start as int);
                crate::alpm::lemma_run_len_is(rem, |c: char| c != '\n', (i - start) as nat);
                assert(rem.take(i - start) =~= s@.subrange(start as int, i as int));
                assert(rem.skip(i - start + 1) =~= s@.skip(i + 1));
                assert(line@ =~= rem.take(i - start));
                assert(split_lines(rem) == seq![line@] + split_lines(s@.skip(i + 1)));
                assert(done + (seq![line@] + split_lines(s@.skip(i + 1))) =~= done.push(line@)
                    + split_lines(s@.skip(i + 1)));
                done = done.push(line@);
            }
            start = i + 1;
        }
        i += 1;
    }
    if start < n {
        let tail = s.substring_char(start, n);
        r.push(String::from_str(tail));
        proof {
            let rem = s@.skip(start as int);
            crate::alpm::lemma_run_len_is(rem, |c: char| c != '\n', (n - start) as nat);
            assert(tail@ =~= rem);
            assert(split_lines(rem) == seq![rem]);
            assert(done + seq![rem] =~= done.push(rem));
            done = done.push(rem);
        }
    } else {
        proof {
            assert(s@.skip(n as int) =~= Seq::<char>::empty());
        }
    }
    proof {
        assert(r.deep_view() =~~= done);
    }
    r
}

/// Find the end of the value-line run beginning at `start`.
fn scan_values(lines: &Vec<String>, start: usize) -> (j: usize)
    requires
        start <= lines@.len(),
    ensures
        j == section_end(lines.deep_view(), start as int),
        start <= j <= lines@.len(),
{
    let ghost ll = lines.deep_view();
    let mut j: usize = start;
    loop
        invariant
            start <= j <= ll.len(),
            ll.len() == lines@.len(),
            ll == lines.deep_view(),
            start <= lines@.len(),
            forall|k: int| start <= k < j ==> classify(#[trigger] ll[k]) is Value,
        decreases ll.len() - j,
    {
        if j >= lines.len() {
            proof {
                lemma_section_end_is(ll, start as int, j as int);
            }
            return j;
        }
        let k = classify_line(lines[j].as_str());
        assert(ll[j as int] == lines@[j as int]@);
        match k {
            LineKind::Value => {
                j += 1;
            },
            _ => {
                proof {
                    lemma_section_end_is(ll, start as int, j as int);
                }
                return j;
            },
        }
    }
}

pub proof fn lemma_section_end_is(lines: Seq<Seq<char>>, start: int, j: int)
    requires
        0 <= start <= j <= lines.len(),
        forall|k: int| start <= k < j ==> classify(#[trigger] lines[k]) is Value,
        j < lines.len() ==> !(classify(lines[j]) is Value),
    ensures
        section_end(lines, start) == j,
    decreases j - start,
{
    if start < j {
        lemma_section_end_is(lines, start + 1, j);
    }
}

/// How an already-present entry interacts with new list values.
enum ListPlan {
    Fresh,
    Extend(Vec<String>),
    Collide,
}

/// Record one recognized section on the package.
fn apply_section_exec(pkg: &mut Package, e: Entry, vals: Vec<String>) -> (r: Result<(), Error>)
    requires
        old(pkg).wf(),
    ensures
        final(pkg).wf(),
        final(pkg)@.name == old(pkg)@.name,
        final(pkg)@.version == old(pkg)@.version,
        match r {
            Ok(_) => apply_section(old(pkg)@, e, vals.deep_view()) == Some(final(pkg)@),
            Err(er) => apply_section(old(pkg)@, e, vals.deep_view()) is None
                && er is MalformedDesc,
        },
{
    let ghost vv = vals.deep_view();
    let ghost p0 = pkg@;
    if vals.len() == 0 {
        return Ok(());
    }
    assert(vv[0] == vals@[0]@);
    match e {
        Entry::Name => {
            if vals.len() == 1 && str_eq(vals[0].as_str(), pkg.name.as_str()) {
                pkg.metadata_insert(Entry::Name, Metadata::Text(vals[0].clone()));
                proof {
                    assert(pkg@ =~= PackageView {
                        metadata: p0.metadata.insert(e, MetaView::Text(vv[0])),
                        ..p0
                    });
                }
                Ok(())
            } else {
                Err(Error::MalformedDesc)
            }
        },
        Entry::Version => {
            if vals.len() == 1 && str_eq(vals[0].as_str(), pkg.version.as_str()) {
                pkg.metadata_insert(Entry::Version, Metadata::Text(vals[0].clone()));
                proof {
                    assert(pkg@ =~= PackageView {
                        metadata: p0.metadata.insert(e, MetaView::Text(vv[0])),
                        ..p0
                    });
                }
                Ok(())
            } else {
                Err(Error::MalformedDesc)
            }
        },
        Entry::Arch => {
            if vals.len() == 1 {
                pkg.arch = Arch::from_str(vals[0].as_str());
                pkg.metadata_insert(Entry::Arch, Metadata::Text(vals[0].clone()));
                proof {
                    assert(pkg@ =~= PackageView {
                        arch: arch_of(vv[0]),
                        metadata: p0.metadata.insert(e, MetaView::Text(vv[0])),
                        ..p0
                    });
                }
                Ok(())
            } else {
                Err(Error::MalformedDesc)
            }
        },
        _ => {
            match shape(e) {
                Shape::Text => {
                    if vals.len() == 1 && scalar_free(pkg, e) {
                        pkg.metadata_insert(e, Metadata::Text(vals[0].clone()));
                        proof {
                            assert(pkg@ =~= PackageView {
                                metadata: p0.metadata.insert(e, MetaView::Text(vv[0])),
                                ..p0
                            });
                        }
                        Ok(())
                    } else {
                        Err(Error::MalformedDesc)
                    }
                },
                Shape::Path => {
                    if vals.len() == 1 && scalar_free(pkg, e) {
                        pkg.metadata_insert(e, Metadata::Path(vals[0].clone()));
                        proof {
                            assert(pkg@ =~= PackageView {
                                metadata: p0.metadata.insert(e, MetaView::Path(vv[0])),
                                ..p0
                            });
                        }
                        Ok(())
                    } else {
                        Err(Error::MalformedDesc)
                    }
                },
                Shape::Size => {
                    if vals.len() == 1 && scalar_free(pkg, e) {
                        match parse_u64(vals[0].as_str()) {
                            Some(v) => {
                                pkg.metadata_insert(e, Metadata::Size(v));
                                proof {
                                    assert(pkg@ =~= PackageView {
                                        metadata: p0.metadata.insert(e, MetaView::Size(v)),
                                        ..p0
                                    });
                                }
                                Ok(())
                            },
                            None => Err(Error::MalformedDesc),
                        }
                    } else {
                        Err(Error::MalformedDesc)
                    }
                },
                Shape::Timestamp => {
                    if vals.len() == 1 && scalar_free(pkg, e) {
                        match parse_i64(vals[0].as_str()) {
                            Some(v) => {
                                pkg.metadata_insert(e, Metadata::Timestamp(v));
                                proof {
                                    assert(pkg@ =~= PackageView {
                                        metadata: p0.metadata.insert(
                                            e,
                                            MetaView::Timestamp(v),
                                        ),
                                        ..p0
                                    });
                                }
                                Ok(())
                            },
                            None => Err(Error::MalformedDesc),
                        }
                    } else {
                        Err(Error::MalformedDesc)
                    }
                },
                Shape::List => {
                    let ghost oldlist = p0.metadata[e]->List_0;
                    let plan: ListPlan = match pkg.metadata_get(e) {
                        None => ListPlan::Fresh,
                        Some(m) => match m {
                            Metadata::List(l) => {
                                proof {
                                    assert(forall|k: int| 0 <= k < l@.len()
                                        ==> #[trigger] l.deep_view()[k] == l@[k]@);
                                    assert(l.deep_view().len() == l@.len());
                                }
                                ListPlan::Extend(clone_lines(l))
                            },
                            _ => ListPlan::Collide,
                        },
                    };
                    match plan {
                        ListPlan::Fresh => {
                            pkg.metadata_insert(e, Metadata::List(vals));
                            proof {
                                assert(pkg@ =~= PackageView {
                                    metadata: p0.metadata.insert(e, MetaView::List(vv)),
                                    ..p0
                                });
                            }
                            Ok(())
                        },
                        ListPlan::Extend(mut base) => {
                            proof {
                                assert(forall|k: int| 0 <= k < vals@.len()
                                    ==> #[trigger] vv[k] == vals@[k]@);
                            }
                            let mut t: usize = 0;
                            while t < vals.len()
                                invariant
                                    t <= vals@.len(),
                                    vv == vals.deep_view(),
                                    forall|k: int| 0 <= k < vals@.len()
                                        ==> #[trigger] vv[k] == vals@[k]@,
                                    base@.len() == oldlist.len() + t,
                                    forall|k: int| 0 <= k < oldlist.len()
                                        ==> #[trigger] base@[k]@ == oldlist[k],
                                    forall|k: int| oldlist.len() <= k < oldlist.len() + t
                                        ==> #[trigger] base@[k]@ == vv[k - oldlist.len()],
                                decreases vals@.len() - t,
                            {
                                base.push(vals[t].clone());
                                t += 1;
                            }
                            assert(base.deep_view() =~~= oldlist + vv);
                            pkg.metadata_insert(e, Metadata::List(base));
                            proof {
                                assert(pkg@ =~= PackageView {
                                    metadata: p0.metadata.insert(
                                        e,
                                        MetaView::List(oldlist + vv),
                                    ),
                                    ..p0
                                });
                            }
                            Ok(())
                        },
                        ListPlan::Collide => Err(Error::MalformedDesc),
                    }
                },
            }
        },
    }
}

/// Whether a scalar entry is still absent from the record.
fn scalar_free(pkg: &Package, e: Entry) -> (r: bool)
    requires
        pkg.wf(),
    ensures
        r == !pkg@.metadata.contains_key(e),
{
    match pkg.metadata_get(e) {
        None => true,
        Some(_) => false,
    }
}


/// A successful parse never changes the record's name or version.
pub proof fn lemma_parse_from_fields(lines: Seq<Seq<char>>, i: int, p: PackageView)
    requires
        0 <= i <= lines.len(),
        parse_from(lines, i, p) is Some,
    ensures
        parse_from(lines, i, p)->0.name == p.name,
        parse_from(lines, i, p)->0.version == p.version,
    decreases lines.len() - i,
{
    if i < lines.len() {
        match classify(lines[i]) {
            LineKind::Separator => {
                lemma_parse_from_fields(lines, i + 1, p);
            },
            LineKind::Known(e) => {
                let j = section_end(lines, i + 1);
                lemma_section_end_bounds(lines, i + 1);
                match apply_section(p, e, lines.subrange(i + 1, j)) {
                    Some(q) => {
                        assert(q.name == p.name && q.version == p.version);
                        lemma_parse_from_fields(lines, j, q);
                    },
                    None => {
                    },
                }
            },
            LineKind::Unknown => {
                lemma_section_end_bounds(lines, i + 1);
                lemma_parse_from_fields(lines, section_end(lines, i + 1), p);
            },
            LineKind::Value => {
            },
        }
    }
}


/// Append one value to a list entry, creating the list when absent and
/// starting fresh over a value of another shape.
pub(crate) fn append_list_value(pkg: &mut Package, e: Entry, value: String)
    requires
        old(pkg).wf(),
    ensures
        final(pkg).wf(),
        final(pkg)@.name == old(pkg)@.name,
        final(pkg)@.version == old(pkg)@.version,
        final(pkg)@.arch == old(pkg)@.arch,
        final(pkg)@.metadata == old(pkg)@.metadata.insert(
            e,
            MetaView::List(
                if old(pkg)@.metadata.contains_key(e) && old(pkg)@.metadata[e] is List {
                    old(pkg)@.metadata[e]->List_0 + seq![value@]
                } else {
                    seq![value@]
                },
            ),
        ),
{
    let ghost p0 = pkg@;
    let ghost oldlist = p0.metadata[e]->List_0;
    let base: Option<Vec<String>> = match pkg.metadata_get(e) {
        Some(m) => match m {
            Metadata::List(l) => {
                proof {
                    assert(forall|k: int| 0 <= k < l@.len()
                        ==> #[trigger] l.deep_view()[k] == l@[k]@);
                    assert(l.deep_view().len() == l@.len());
                }
                Some(clone_lines(l))
            },
            _ => None,
        },
        None => None,
    };
    match base {
        Some(mut b) => {
            b.push(value);
            proof {
                assert(b.deep_view() =~~= oldlist + seq![value@]);
            }
            pkg.metadata_insert(e, Metadata::List(b));
        },
        None => {
            let mut v: Vec<String> = Vec::new();
            v.push(value);
            proof {
                assert(v.deep_view() =~~= seq![value@]);
            }
            pkg.metadata_insert(e, Metadata::List(v));
        },
    }
}

/// Feed a whole desc-format buffer into `pkg`, section by section.
pub fn parse_into(pkg: &mut Package, data: &str) -> (r: Result<(), Error>)
    requires
        old(pkg).wf(),
    ensures
        final(pkg).wf(),
        final(pkg)@.name == old(pkg)@.name,
        final(pkg)@.version == old(pkg)@.version,
        match r {
            Ok(_) => parse_desc_spec(data@, old(pkg)@) == Some(final(pkg)@),
            Err(er) => parse_desc_spec(data@, old(pkg)@) is None && er is MalformedDesc,
        },
{
    let n = data.unicode_len();
    if n > 0 && data.get_char(n - 1) != '\n' {
        return Err(Error::MalformedDesc);
    }
    let lines = split_lines_exec(data);
    let ghost ll = lines.deep_view();
    let ghost q0 = pkg@;
    let mut i: usize = 0;
    while i < lines.len()
        invariant
            pkg.wf(),
            ll == lines.deep_view(),
            ll == split_lines(data@),
            i <= ll.len(),
            lines@.len() == ll.len(),
            parse_from(ll, 0, q0) == parse_from(ll, i as int, pkg@),
            pkg@.name == q0.name,
            pkg@.version == q0.version,
            q0 == old(pkg)@,
        decreases ll.len() - i,
    {
        assert(ll[i as int] == lines@[i as int]@);
        let k = classify_line(lines[i].as_str());
        match k {
            LineKind::Separator => {
                i += 1;
            },
            LineKind::Value => {
                return Err(Error::MalformedDesc);
            },
            LineKind::Unknown => {
                let j = scan_values(&lines, i + 1);
                i = j;
            },
            LineKind::Known(e) => {
                let j = scan_values(&lines, i + 1);
                let mut vals: Vec<String> = Vec::new();
                let mut t: usize = i + 1;
                while t < j
                    invariant
                        i + 1 <= t <= j <= ll.len(),
                        lines@.len() == ll.len(),
                        ll == lines.deep_view(),
                        vals@.len() == t - i - 1,
                        forall|k2: int| 0 <= k2 < vals@.len() ==> vals@[k2]@ == ll[i + 1 + k2],
                    decreases j - t,
                {
                    vals.push(lines[t].clone());
                    t += 1;
                }
                assert(vals.deep_view() =~~= ll.subrange(i + 1, j as int));
                match apply_section_exec(pkg, e, vals) {
                    Ok(_) => {
                        i = j;
                    },
                    Err(er) => {
                        return Err(er);
                    },
                }
            },
        }
    }
    Ok(())
}

/// The desc-format reader: a state machine over the sections of one
/// text buffer, populating a package record.
pub struct Parser {
    _private: bool,
}

impl Parser {
    pub fn new() -> (p: Parser) {
        Parser { _private: false }
    }

    /// Read a whole buffer into `pkg`; see `parse_desc_spec` for what a
    /// well-formed buffer does to the record.
    pub fn read(&mut self, pkg: &mut Package, data: &str) -> (r: Result<(), Error>)
        requires
            old(pkg).wf(),
        ensures
            final(pkg).wf(),
            final(pkg)@.name == old(pkg)@.name,
            final(pkg)@.version == old(pkg)@.version,
            match r {
                Ok(_) => parse_desc_spec(data@, old(pkg)@) == Some(final(pkg)@),
                Err(er) => parse_desc_spec(data@, old(pkg)@) is None && er is MalformedDesc,
            },
    {
        parse_into(pkg, data)
    }
}

} // verus!
