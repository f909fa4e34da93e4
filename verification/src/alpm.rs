//! The alpm-style package version comparison: a total order over version
//! strings that segments each string into alphabetic and numeric runs,
//! compares numeric runs by value and alphabetic runs lexicographically,
//! and splits `epoch:pkgver-pkgrel` before comparing component-wise.

use vstd::prelude::*;
use core::cmp::Ordering;

verus! {

pub open spec fn is_digit(c: char) -> bool {
    48 <= c as u32 && c as u32 <= 57
}

pub open spec fn is_alpha(c: char) -> bool {
    (97 <= c as u32 && c as u32 <= 122) || (65 <= c as u32 && c as u32 <= 90)
}

pub open spec fn is_alnum(c: char) -> bool {
    is_digit(c) || is_alpha(c)
}

/// Length of the longest prefix of `s` whose characters all satisfy `f`.
pub open spec fn run_len(s: Seq<char>, f: spec_fn(char) -> bool) -> nat
    decreases s.len(),
{
    if s.len() == 0 || !f(s[0]) {
        0
    } else {
        (1 + run_len(s.skip(1), f)) as nat
    }
}

pub open spec fn sep_len(s: Seq<char>) -> nat {
    run_len(s, |c: char| !is_alnum(c))
}

pub open spec fn digit_len(s: Seq<char>) -> nat {
    run_len(s, |c: char| is_digit(c))
}

pub open spec fn alpha_len(s: Seq<char>) -> nat {
    run_len(s, |c: char| is_alpha(c))
}

pub open spec fn zero_len(s: Seq<char>) -> nat {
    run_len(s, |c: char| c == '0')
}

pub proof fn lemma_run_len_le(s: Seq<char>, f: spec_fn(char) -> bool)
    ensures
        run_len(s, f) <= s.len(),
    decreases s.len(),
{
    if s.len() != 0 && f(s[0]) {
        lemma_run_len_le(s.skip(1), f);
    }
}

/// `run_len` marks a maximal prefix: everything before it satisfies `f`
/// and the character at it, if any, does not.
pub proof fn lemma_run_len_props(s: Seq<char>, f: spec_fn(char) -> bool)
    ensures
        run_len(s, f) <= s.len(),
        forall|i: int| 0 <= i < run_len(s, f) ==> f(s[i]),
        run_len(s, f) < s.len() ==> !f(s[run_len(s, f) as int]),
    decreases s.len(),
{
    if s.len() != 0 && f(s[0]) {
        lemma_run_len_props(s.skip(1), f);
        assert(forall|i: int| 0 <= i < run_len(s.skip(1), f) ==> f(s.skip(1)[i]));
        assert(forall|i: int| 1 <= i < run_len(s, f) ==> f(s[i]) == f(s.skip(1)[i - 1]));
    }
}

/// A prefix count observed element-wise pins down `run_len` exactly.
pub proof fn lemma_run_len_is(s: Seq<char>, f: spec_fn(char) -> bool, n: nat)
    requires
        n <= s.len(),
        forall|i: int| 0 <= i < n ==> f(s[i]),
        n < s.len() ==> !f(s[n as int]),
    ensures
        run_len(s, f) == n,
    decreases n,
{
    if n == 0 {
    } else {
        assert(f(s[0]));
        assert(forall|i: int| 0 <= i < n - 1 ==> f(s.skip(1)[i]) == f(s[i + 1]));
        lemma_run_len_is(s.skip(1), f, (n - 1) as nat);
    }
}

/// Mirror image of a comparison result.
pub open spec fn flip(o: Ordering) -> Ordering {
    match o {
        Ordering::Less => Ordering::Greater,
        Ordering::Equal => Ordering::Equal,
        Ordering::Greater => Ordering::Less,
    }
}

/// Lexicographic comparison of character sequences by code point, a
/// proper prefix ordering before anything longer.
pub open spec fn lex_cmp(a: Seq<char>, b: Seq<char>) -> Ordering
    decreases a.len() + b.len(),
{
    if a.len() == 0 && b.len() == 0 {
        Ordering::Equal
    } else if a.len() == 0 {
        Ordering::Less
    } else if b.len() == 0 {
        Ordering::Greater
    } else if (a[0] as u32) < (b[0] as u32) {
        Ordering::Less
    } else if (a[0] as u32) > (b[0] as u32) {
        Ordering::Greater
    } else {
        lex_cmp(a.skip(1), b.skip(1))
    }
}

/// One round of the segment comparison: strip separators, then compare
/// the leading numeric or alphabetic segments, recursing while equal.
pub open spec fn rpm_cmp(a: Seq<char>, b: Seq<char>) -> Ordering
    decreases a.len() + b.len(),
    via rpm_cmp_decreases
{
    let sa = sep_len(a);
    let sb = sep_len(b);
    let a1 = a.skip(sa as int);
    let b1 = b.skip(sb as int);
    if a1.len() == 0 && b1.len() == 0 {
        Ordering::Equal
    } else if a1.len() == 0 {
        if is_alpha(b1[0]) {
            Ordering::Greater
        } else {
            Ordering::Less
        }
    } else if b1.len() == 0 {
        if is_alpha(a1[0]) {
            Ordering::Less
        } else {
            Ordering::Greater
        }
    } else if sa != sb {
        if sa < sb {
            Ordering::Less
        } else {
            Ordering::Greater
        }
    } else if is_digit(a1[0]) {
        let da = digit_len(a1);
        let db = digit_len(b1);
        if db == 0 {
            Ordering::Greater
        } else {
            let ta = a1.take(da as int).skip(zero_len(a1.take(da as int)) as int);
            let tb = b1.take(db as int).skip(zero_len(b1.take(db as int)) as int);
            if ta.len() > tb.len() {
                Ordering::Greater
            } else if ta.len() < tb.len() {
                Ordering::Less
            } else if lex_cmp(ta, tb) != Ordering::Equal {
                lex_cmp(ta, tb)
            } else {
                rpm_cmp(a1.skip(da as int), b1.skip(db as int))
            }
        }
    } else {
        let da = alpha_len(a1);
        let db = alpha_len(b1);
        if db == 0 {
            Ordering::Less
        } else if lex_cmp(a1.take(da as int), b1.take(db as int)) != Ordering::Equal {
            lex_cmp(a1.take(da as int), b1.take(db as int))
        } else {
            rpm_cmp(a1.skip(da as int), b1.skip(db as int))
        }
    }
}

#[via_fn]
proof fn rpm_cmp_decreases(a: Seq<char>, b: Seq<char>) {
    let sa = sep_len(a);
    let sb = sep_len(b);
    lemma_run_len_le(a, |c: char| !is_alnum(c));
    lemma_run_len_le(b, |c: char| !is_alnum(c));
    let a1 = a.skip(sa as int);
    let b1 = b.skip(sb as int);
    lemma_run_len_le(a1, |c: char| is_digit(c));
    lemma_run_len_le(b1, |c: char| is_digit(c));
    lemma_run_len_le(a1, |c: char| is_alpha(c));
    lemma_run_len_le(b1, |c: char| is_alpha(c));
}

/// The position of the last `-` in `s`, if any.
pub open spec fn last_dash(s: Seq<char>) -> Option<int>
    decreases s.len(),
{
    if s.len() == 0 {
        None
    } else if s[s.len() - 1] == '-' {
        Some(s.len() - 1)
    } else {
        last_dash(s.take(s.len() - 1))
    }
}

/// Split a full version string into epoch, version and optional release:
/// a leading digit run followed by `:` is the epoch (`0` when absent),
/// and everything after the last `-` of the remainder is the release.
pub open spec fn evr_split(s: Seq<char>) -> (Seq<char>, Seq<char>, Option<Seq<char>>) {
    let d = digit_len(s);
    let epoch = if d < s.len() && s[d as int] == ':' {
        if d == 0 {
            seq!['0']
        } else {
            s.take(d as int)
        }
    } else {
        seq!['0']
    };
    let tail = if d < s.len() && s[d as int] == ':' {
        s.skip(d as int + 1)
    } else {
        s
    };
    match last_dash(tail) {
        Some(i) => (epoch, tail.take(i), Some(tail.skip(i + 1))),
        None => (epoch, tail, None),
    }
}

/// The alpm version order over whole version strings: epoch first, then
/// version, then release, the release deciding only when both carry one.
pub open spec fn vercmp_spec(a: Seq<char>, b: Seq<char>) -> Ordering {
    let (ea, va, ra) = evr_split(a);
    let (eb, vb, rb) = evr_split(b);
    if rpm_cmp(ea, eb) != Ordering::Equal {
        rpm_cmp(ea, eb)
    } else if rpm_cmp(va, vb) != Ordering::Equal {
        rpm_cmp(va, vb)
    } else if ra is Some && rb is Some {
        rpm_cmp(ra->0, rb->0)
    } else {
        Ordering::Equal
    }
}

pub proof fn lemma_lex_refl(a: Seq<char>)
    ensures
        lex_cmp(a, a) == Ordering::Equal,
    decreases a.len(),
{
    if a.len() != 0 {
        lemma_lex_refl(a.skip(1));
    }
}

pub proof fn lemma_lex_antisym(a: Seq<char>, b: Seq<char>)
    ensures
        lex_cmp(b, a) == flip(lex_cmp(a, b)),
    decreases a.len() + b.len(),
{
    if a.len() != 0 && b.len() != 0 && a[0] as u32 == b[0] as u32 {
        lemma_lex_antisym(a.skip(1), b.skip(1));
    }
}

pub proof fn lemma_rpm_refl(a: Seq<char>)
    ensures
        rpm_cmp(a, a) == Ordering::Equal,
    decreases a.len(),
{
    let sa = sep_len(a);
    lemma_run_len_props(a, |c: char| !is_alnum(c));
    let a1 = a.skip(sa as int);
    if a1.len() == 0 {
    } else if is_digit(a1[0]) {
        let da = digit_len(a1);
        lemma_run_len_props(a1, |c: char| is_digit(c));
        let ta = a1.take(da as int).skip(zero_len(a1.take(da as int)) as int);
        lemma_lex_refl(ta);
        lemma_rpm_refl(a1.skip(da as int));
    } else {
        assert(is_alnum(a1[0]) && !is_digit(a1[0]));
        let da = alpha_len(a1);
        lemma_run_len_props(a1, |c: char| is_alpha(c));
        lemma_lex_refl(a1.take(da as int));
        lemma_rpm_refl(a1.skip(da as int));
    }
}

pub proof fn lemma_rpm_antisym(a: Seq<char>, b: Seq<char>)
    ensures
        rpm_cmp(b, a) == flip(rpm_cmp(a, b)),
    decreases a.len() + b.len(),
{
    let sa = sep_len(a);
    let sb = sep_len(b);
    lemma_run_len_props(a, |c: char| !is_alnum(c));
    lemma_run_len_props(b, |c: char| !is_alnum(c));
    let a1 = a.skip(sa as int);
    let b1 = b.skip(sb as int);
    if a1.len() == 0 && b1.len() == 0 {
    } else if a1.len() == 0 || b1.len() == 0 {
    } else if sa != sb {
    } else if is_digit(a1[0]) && is_digit(b1[0]) {
        let da = digit_len(a1);
        let db = digit_len(b1);
        lemma_run_len_props(a1, |c: char| is_digit(c));
        lemma_run_len_props(b1, |c: char| is_digit(c));
        let ta = a1.take(da as int).skip(zero_len(a1.take(da as int)) as int);
        let tb = b1.take(db as int).skip(zero_len(b1.take(db as int)) as int);
        lemma_lex_antisym(ta, tb);
        if ta.len() == tb.len() && lex_cmp(ta, tb) == Ordering::Equal {
            lemma_rpm_antisym(a1.skip(da as int), b1.skip(db as int));
        }
    } else if is_digit(a1[0]) && !is_digit(b1[0]) {
        assert(digit_len(b1) == 0);
        assert(alpha_len(a1) == 0);
    } else if !is_digit(a1[0]) && is_digit(b1[0]) {
        assert(digit_len(a1) == 0);
        assert(alpha_len(b1) == 0);
    } else {
        assert(is_alnum(a1[0]) && is_alnum(b1[0]));
        let da = alpha_len(a1);
        let db = alpha_len(b1);
        lemma_run_len_props(a1, |c: char| is_alpha(c));
        lemma_run_len_props(b1, |c: char| is_alpha(c));
        assert(is_alpha(a1[0]) && is_alpha(b1[0]));
        lemma_lex_antisym(a1.take(da as int), b1.take(db as int));
        if lex_cmp(a1.take(da as int), b1.take(db as int)) == Ordering::Equal {
            lemma_rpm_antisym(a1.skip(da as int), b1.skip(db as int));
        }
    }
}

/// Comparing a version with itself yields `Equal`.
pub proof fn lemma_vercmp_reflexive(a: Seq<char>)
    ensures
        vercmp_spec(a, a) == Ordering::Equal,
{
    let (ea, va, ra) = evr_split(a);
    lemma_rpm_refl(ea);
    lemma_rpm_refl(va);
    if ra is Some {
        lemma_rpm_refl(ra->0);
    }
}

/// The order is antisymmetric: swapping the arguments mirrors the result.
pub proof fn lemma_vercmp_antisymmetric(a: Seq<char>, b: Seq<char>)
    ensures
        vercmp_spec(b, a) == flip(vercmp_spec(a, b)),
{
    let (ea, va, ra) = evr_split(a);
    let (eb, vb, rb) = evr_split(b);
    lemma_rpm_antisym(ea, eb);
    lemma_rpm_antisym(va, vb);
    if ra is Some && rb is Some {
        lemma_rpm_antisym(ra->0, rb->0);
    }
}

fn exec_is_digit(c: char) -> (r: bool)
    ensures
        r == is_digit(c),
{
    let u = c as u32;
    48 <= u && u <= 57
}

fn exec_is_alpha(c: char) -> (r: bool)
    ensures
        r == is_alpha(c),
{
    let u = c as u32;
    (97 <= u && u <= 122) || (65 <= u && u <= 90)
}

fn exec_is_alnum(c: char) -> (r: bool)
    ensures
        r == is_alnum(c),
{
    exec_is_digit(c) || exec_is_alpha(c)
}

/// The characters of `s` as a vector, in order.
pub fn chars_of(s: &str) -> (v: Vec<char>)
    ensures
        v@ == s@,
{
    let n = s.unicode_len();
    let mut v: Vec<char> = Vec::new();
    let mut i: usize = 0;
    while i < n
        invariant
            n == s@.len(),
            i <= n,
            v@ == s@.take(i as int),
        decreases n - i,
    {
        v.push(s.get_char(i));
        assert(v@ =~= s@.take(i + 1));
        i += 1;
    }
    assert(v@ =~= s@);
    v
}

fn subvec(v: &Vec<char>, i: usize, j: usize) -> (r: Vec<char>)
    requires
        i <= j <= v@.len(),
    ensures
        r@ == v@.subrange(i as int, j as int),
{
    let mut r: Vec<char> = Vec::new();
    let mut k: usize = i;
    while k < j
        invariant
            i <= k <= j <= v@.len(),
            r@ == v@.subrange(i as int, k as int),
        decreases j - k,
    {
        r.push(v[k]);
        assert(r@ =~= v@.subrange(i as int, k + 1));
        k += 1;
    }
    r
}

fn sep_run_exec(v: &Vec<char>) -> (n: usize)
    ensures
        n == sep_len(v@),
        n <= v@.len(),
{
    let mut i: usize = 0;
    while i < v.len() && !exec_is_alnum(v[i])
        invariant
            i <= v@.len(),
            forall|k: int| 0 <= k < i ==> !is_alnum(v@[k]),
        decreases v@.len() - i,
    {
        i += 1;
    }
    proof {
        lemma_run_len_is(v@, |c: char| !is_alnum(c), i as nat);
    }
    i
}

fn digit_run_exec(v: &Vec<char>) -> (n: usize)
    ensures
        n == digit_len(v@),
        n <= v@.len(),
{
    let mut i: usize = 0;
    while i < v.len() && exec_is_digit(v[i])
        invariant
            i <= v@.len(),
            forall|k: int| 0 <= k < i ==> is_digit(v@[k]),
        decreases v@.len() - i,
    {
        i += 1;
    }
    proof {
        lemma_run_len_is(v@, |c: char| is_digit(c), i as nat);
    }
    i
}

fn alpha_run_exec(v: &Vec<char>) -> (n: usize)
    ensures
        n == alpha_len(v@),
        n <= v@.len(),
{
    let mut i: usize = 0;
    while i < v.len() && exec_is_alpha(v[i])
        invariant
            i <= v@.len(),
            forall|k: int| 0 <= k < i ==> is_alpha(v@[k]),
        decreases v@.len() - i,
    {
        i += 1;
    }
    proof {
        lemma_run_len_is(v@, |c: char| is_alpha(c), i as nat);
    }
    i
}

fn zero_run_exec(v: &Vec<char>) -> (n: usize)
    ensures
        n == zero_len(v@),
        n <= v@.len(),
{
    let mut i: usize = 0;
    while i < v.len() && v[i] == '0'
        invariant
            i <= v@.len(),
            forall|k: int| 0 <= k < i ==> v@[k] == '0',
        decreases v@.len() - i,
    {
        i += 1;
    }
    proof {
        lemma_run_len_is(v@, |c: char| c == '0', i as nat);
    }
    i
}

fn lex_cmp_exec(a: &Vec<char>, b: &Vec<char>) -> (r: Ordering)
    ensures
        r == lex_cmp(a@, b@),
    decreases a@.len() + b@.len(),
{
    if a.len() == 0 && b.len() == 0 {
        Ordering::Equal
    } else if a.len() == 0 {
        Ordering::Less
    } else if b.len() == 0 {
        Ordering::Greater
    } else {
        let ca = a[0] as u32;
        let cb = b[0] as u32;
        if ca < cb {
            Ordering::Less
        } else if ca > cb {
            Ordering::Greater
        } else {
            let a1 = subvec(a, 1, a.len());
            let b1 = subvec(b, 1, b.len());
            assert(a1@ =~= a@.skip(1));
            assert(b1@ =~= b@.skip(1));
            lex_cmp_exec(&a1, &b1)
        }
    }
}

fn rpm_cmp_exec(a: &Vec<char>, b: &Vec<char>) -> (r: Ordering)
    ensures
        r == rpm_cmp(a@, b@),
    decreases a@.len() + b@.len(),
{
    let sa = sep_run_exec(a);
    let sb = sep_run_exec(b);
    let a1 = subvec(a, sa, a.len());
    let b1 = subvec(b, sb, b.len());
    assert(a1@ =~= a@.skip(sa as int));
    assert(b1@ =~= b@.skip(sb as int));
    if a1.len() == 0 && b1.len() == 0 {
        Ordering::Equal
    } else if a1.len() == 0 {
        if exec_is_alpha(b1[0]) {
            Ordering::Greater
        } else {
            Ordering::Less
        }
    } else if b1.len() == 0 {
        if exec_is_alpha(a1[0]) {
            Ordering::Less
        } else {
            Ordering::Greater
        }
    } else if sa != sb {
        if sa < sb {
            Ordering::Less
        } else {
            Ordering::Greater
        }
    } else if exec_is_digit(a1[0]) {
        let da = digit_run_exec(&a1);
        let db = digit_run_exec(&b1);
        if db == 0 {
            Ordering::Greater
        } else {
            let na = subvec(&a1, 0, da);
            let nb = subvec(&b1, 0, db);
            assert(na@ =~= a1@.take(da as int));
            assert(nb@ =~= b1@.take(db as int));
            let za = zero_run_exec(&na);
            let zb = zero_run_exec(&nb);
            let ta = subvec(&na, za, na.len());
            let tb = subvec(&nb, zb, nb.len());
            assert(ta@ =~= na@.skip(za as int));
            assert(tb@ =~= nb@.skip(zb as int));
            if ta.len() > tb.len() {
                Ordering::Greater
            } else if ta.len() < tb.len() {
                Ordering::Less
            } else {
                let c = lex_cmp_exec(&ta, &tb);
                match c {
                    Ordering::Equal => {
                        let ar = subvec(&a1, da, a1.len());
                        let br = subvec(&b1, db, b1.len());
                        assert(ar@ =~= a1@.skip(da as int));
                        assert(br@ =~= b1@.skip(db as int));
                        rpm_cmp_exec(&ar, &br)
                    },
                    _ => c,
                }
            }
        }
    } else {
        let da = alpha_run_exec(&a1);
        let db = alpha_run_exec(&b1);
        if db == 0 {
            Ordering::Less
        } else {
            let na = subvec(&a1, 0, da);
            let nb = subvec(&b1, 0, db);
            assert(na@ =~= a1@.take(da as int));
            assert(nb@ =~= b1@.take(db as int));
            let c = lex_cmp_exec(&na, &nb);
            match c {
                Ordering::Equal => {
                    let ar = subvec(&a1, da, a1.len());
                    let br = subvec(&b1, db, b1.len());
                    assert(ar@ =~= a1@.skip(da as int));
                    assert(br@ =~= b1@.skip(db as int));
                    rpm_cmp_exec(&ar, &br)
                },
                _ => c,
            }
        }
    }
}

fn last_dash_exec(v: &Vec<char>) -> (r: Option<usize>)
    ensures
        match r {
            Some(i) => last_dash(v@) == Some(i as int),
            None => last_dash(v@) is None,
        },
{
    let mut i: usize = v.len();
    assert(v@.take(v@.len() as int) =~= v@);
    while i > 0
        invariant
            i <= v@.len(),
            last_dash(v@) == last_dash(v@.take(i as int)),
        decreases i,
    {
        if v[i - 1] == '-' {
            assert(v@.take(i as int)[i - 1] == v@[i - 1]);
            return Some(i - 1);
        }
        assert(v@.take(i as int).take(i - 1) =~= v@.take(i - 1));
        i -= 1;
    }
    None
}

fn evr_split_exec(v: &Vec<char>) -> (r: (Vec<char>, Vec<char>, Option<Vec<char>>))
    ensures
        r.0@ == evr_split(v@).0,
        r.1@ == evr_split(v@).1,
        r.2 is Some <==> evr_split(v@).2 is Some,
        r.2 is Some ==> r.2->0@ == evr_split(v@).2->0,
{
    let d = digit_run_exec(v);
    let has_epoch = d < v.len() && v[d] == ':';
    let epoch: Vec<char> = if has_epoch && d > 0 {
        let e = subvec(v, 0, d);
        assert(e@ =~= v@.take(d as int));
        e
    } else {
        let mut e: Vec<char> = Vec::new();
        e.push('0');
        assert(e@ =~= seq!['0']);
        e
    };
    let tail: Vec<char> = if has_epoch {
        let t = subvec(v, d + 1, v.len());
        assert(t@ =~= v@.skip(d + 1));
        t
    } else {
        let t = subvec(v, 0, v.len());
        assert(t@ =~= v@);
        t
    };
    match last_dash_exec(&tail) {
        Some(i) => {
            proof {
                lemma_last_dash_range(tail@);
            }
            let ver = subvec(&tail, 0, i);
            let rel = subvec(&tail, i + 1, tail.len());
            assert(ver@ =~= tail@.take(i as int));
            assert(rel@ =~= tail@.skip(i + 1));
            (epoch, ver, Some(rel))
        },
        None => (epoch, tail, None),
    }
}

pub proof fn lemma_last_dash_range(s: Seq<char>)
    ensures
        match last_dash(s) {
            Some(i) => 0 <= i < s.len(),
            None => true,
        },
    decreases s.len(),
{
    if s.len() != 0 && s[s.len() - 1] != '-' {
        lemma_last_dash_range(s.take(s.len() - 1));
    }
}

/// Compare two version strings under the alpm version order.
pub fn pkg_vercmp(a: &str, b: &str) -> (r: Ordering)
    ensures
        r == vercmp_spec(a@, b@),
{
    let av = chars_of(a);
    let bv = chars_of(b);
    let (ae, avr, arel) = evr_split_exec(&av);
    let (be, bvr, brel) = evr_split_exec(&bv);
    let ce = rpm_cmp_exec(&ae, &be);
    match ce {
        Ordering::Equal => {
            let cv = rpm_cmp_exec(&avr, &bvr);
            match cv {
                Ordering::Equal => {
                    match (arel, brel) {
                        (Some(ar), Some(br)) => rpm_cmp_exec(&ar, &br),
                        _ => Ordering::Equal,
                    }
                },
                _ => cv,
            }
        },
        _ => ce,
    }
}

} // verus!
