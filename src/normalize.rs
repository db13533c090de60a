//! Normalization of recognized text into a comparable key and a truncation flag.
use vstd::prelude::*;

use crate::text::{chars_of, string_of};

verus! {

pub open spec fn is_alnum(c: char) -> bool {
    ('a' <= c && c <= 'z') || ('A' <= c && c <= 'Z') || ('0' <= c && c <= '9')
}

pub open spec fn is_alpha(c: char) -> bool {
    ('a' <= c && c <= 'z') || ('A' <= c && c <= 'Z')
}

pub open spec fn kept(c: char) -> bool {
    is_alnum(c) || c == '.'
}

/// The ASCII alphanumerics and periods of `s`, in order.
pub open spec fn keep_chars(s: Seq<char>) -> Seq<char>
    decreases s.len(),
{
    if s.len() == 0 {
        s
    } else {
        let p = keep_chars(s.drop_last());
        if kept(s.last()) {
            p.push(s.last())
        } else {
            p
        }
    }
}

pub open spec fn ends_with_dots(s: Seq<char>, n: int) -> bool {
    n <= s.len() && forall|i: int| s.len() - n <= i < s.len() ==> s[i] == '.'
}

/// `s` with every run of four or more periods cut down to three.
pub open spec fn squeeze(s: Seq<char>) -> Seq<char>
    decreases s.len(),
{
    if s.len() == 0 {
        s
    } else {
        let p = squeeze(s.drop_last());
        if s.last() == '.' && ends_with_dots(p, 3) {
            p
        } else {
            p.push(s.last())
        }
    }
}

/// Ends in exactly two periods.
pub open spec fn ends_two_dots(s: Seq<char>) -> bool {
    &&& ends_with_dots(s, 2)
    &&& (s.len() == 2 || s[s.len() - 3] != '.')
}

/// A dangling pair of periods is completed into an ellipsis.
pub open spec fn fix_tail(s: Seq<char>) -> Seq<char> {
    if ends_two_dots(s) {
        s.push('.')
    } else {
        s
    }
}

pub open spec fn prepared(s: Seq<char>) -> Seq<char> {
    fix_tail(squeeze(keep_chars(s)))
}

/// Whether normalization marks `s` as truncated: it ends in an ellipsis.
pub open spec fn norm_truncated(s: Seq<char>) -> bool {
    ends_with_dots(prepared(s), 3)
}

/// The comparable text of `s`: its prepared form without the trailing ellipsis.
pub open spec fn norm_text(s: Seq<char>) -> Seq<char> {
    let f = prepared(s);
    if ends_with_dots(f, 3) {
        f.subrange(0, f.len() - 3)
    } else {
        f
    }
}

fn is_alnum_char(c: char) -> (r: bool)
    ensures
        r == is_alnum(c),
{
    ('a' <= c && c <= 'z') || ('A' <= c && c <= 'Z') || ('0' <= c && c <= '9')
}

fn is_alpha_char(c: char) -> (r: bool)
    ensures
        r == is_alpha(c),
{
    ('a' <= c && c <= 'z') || ('A' <= c && c <= 'Z')
}

fn ends_with_dots_exec(s: &Vec<char>, n: usize) -> (r: bool)
    ensures
        r == ends_with_dots(s@, n as int),
{
    if n > s.len() {
        return false;
    }
    let mut i: usize = s.len() - n;
    while i < s.len()
        invariant
            n <= s.len(),
            s.len() - n <= i <= s.len(),
            forall|j: int| s.len() - n <= j < i ==> s@[j] == '.',
        decreases s.len() - i,
    {
        if s[i] != '.' {
            return false;
        }
        i += 1;
    }
    true
}

/// Normalizes a character sequence: the truncation flag and the comparable text.
pub fn normalize_chars(s: &Vec<char>) -> (r: (bool, Vec<char>))
    ensures
        r.0 == norm_truncated(s@),
        r.1@ == norm_text(s@),
{
    let mut out: Vec<char> = Vec::new();
    let mut i: usize = 0;
    while i < s.len()
        invariant
            i <= s.len(),
            out@ == squeeze(keep_chars(s@.subrange(0, i as int))),
        decreases s.len() - i,
    {
        let c = s[i];
        proof {
            let pre = s@.subrange(0, i as int);
            let nxt = s@.subrange(0, i + 1);
            assert(nxt.drop_last() =~= pre);
            assert(nxt.last() == c);
            if kept(c) {
                let k = keep_chars(pre).push(c);
                assert(k.drop_last() =~= keep_chars(pre));
            }
        }
        if is_alnum_char(c) || c == '.' {
            if !(c == '.' && ends_with_dots_exec(&out, 3)) {
                out.push(c);
            }
        }
        i += 1;
    }
    assert(s@.subrange(0, s.len() as int) =~= s@);
    let n = out.len();
    if n >= 2 && out[n - 1] == '.' && out[n - 2] == '.' && (n == 2 || out[n - 3] != '.') {
        out.push('.');
    }
    assert(out@ == prepared(s@));
    let truncated = ends_with_dots_exec(&out, 3);
    if truncated {
        out.truncate(out.len() - 3);
    }
    proof {
        if truncated {
            assert(out@ =~= prepared(s@).subrange(0, prepared(s@).len() - 3));
        }
    }
    (truncated, out)
}

/// Normalizes recognized text: keeps ASCII alphanumerics and periods, cuts runs of
/// periods down to three, completes a trailing pair of periods into an ellipsis,
/// and strips a trailing ellipsis, which marks the text as truncated.
pub fn format_string(string: String) -> (r: (bool, String))
    ensures
        r.0 == norm_truncated(string@),
        r.1@ == norm_text(string@),
{
    let v = chars_of(string.as_str());
    let (truncated, text) = normalize_chars(&v);
    (truncated, string_of(&text))
}

// ---------------------------------------------------------------------------
// Lite normalization, for catalog updates
// ---------------------------------------------------------------------------

pub open spec fn lower_spec(c: char) -> char {
    if 'A' <= c && c <= 'Z' {
        ((c as u32) + 32) as char
    } else {
        c
    }
}

/// The ASCII letters and periods of `s`, lowercased, in order.
pub open spec fn keep_lower(s: Seq<char>) -> Seq<char>
    decreases s.len(),
{
    if s.len() == 0 {
        s
    } else {
        let p = keep_lower(s.drop_last());
        if is_alpha(s.last()) || s.last() == '.' {
            p.push(lower_spec(s.last()))
        } else {
            p
        }
    }
}

/// Every ellipsis of `s` replaced by one period, again and again until none is left:
/// a run of periods becomes one period where its length is odd, two where even.
pub open spec fn collapse_ellipses(s: Seq<char>) -> Seq<char>
    decreases s.len(),
{
    if s.len() == 0 {
        s
    } else {
        let p = collapse_ellipses(s.drop_last());
        if s.last() == '.' && ends_with_dots(p, 2) {
            p.drop_last()
        } else {
            p.push(s.last())
        }
    }
}

pub open spec fn lite_text(s: Seq<char>) -> Seq<char> {
    collapse_ellipses(keep_lower(s))
}

fn lower(c: char) -> (r: char)
    ensures
        r == lower_spec(c),
{
    if 'A' <= c && c <= 'Z' {
        ((c as u8) + 32) as char
    } else {
        c
    }
}

pub fn lite_chars(s: &Vec<char>) -> (r: (bool, Vec<char>))
    ensures
        r.0 == ends_with_dots(s@, 3),
        r.1@ == lite_text(s@),
{
    let truncated = ends_with_dots_exec(s, 3);
    let mut low: Vec<char> = Vec::new();
    let mut i: usize = 0;
    while i < s.len()
        invariant
            i <= s.len(),
            low@ == keep_lower(s@.subrange(0, i as int)),
        decreases s.len() - i,
    {
        let c = s[i];
        proof {
            let pre = s@.subrange(0, i as int);
            let nxt = s@.subrange(0, i + 1);
            assert(nxt.drop_last() =~= pre);
            assert(nxt.last() == c);
        }
        if is_alpha_char(c) || c == '.' {
            low.push(lower(c));
        }
        i += 1;
    }
    assert(s@.subrange(0, s.len() as int) =~= s@);
    let mut out: Vec<char> = Vec::new();
    let mut j: usize = 0;
    while j < low.len()
        invariant
            j <= low.len(),
            low@ == keep_lower(s@),
            out@ == collapse_ellipses(low@.subrange(0, j as int)),
        decreases low.len() - j,
    {
        let c = low[j];
        proof {
            let nxt = low@.subrange(0, j + 1);
            assert(nxt.drop_last() =~= low@.subrange(0, j as int));
            assert(nxt.last() == c);
        }
        if c == '.' && ends_with_dots_exec(&out, 2) {
            out.pop();
            proof {
                assert(out@ =~= collapse_ellipses(low@.subrange(0, j as int)).drop_last());
            }
        } else {
            out.push(c);
        }
        j += 1;
    }
    assert(low@.subrange(0, low.len() as int) =~= low@);
    (truncated, out)
}

/// Normalization for catalog updates: the truncation flag is whether the raw text
/// ends in an ellipsis; the text keeps ASCII letters and periods, lowercased, with
/// ellipses replaced by one period until none is left.
pub fn format_string_lite(string: &str) -> (r: (bool, String))
    ensures
        r.0 == ends_with_dots(string@, 3),
        r.1@ == lite_text(string@),
{
    let v = chars_of(string);
    let (truncated, text) = lite_chars(&v);
    (truncated, string_of(&text))
}

// ---------------------------------------------------------------------------
// Idempotence
// ---------------------------------------------------------------------------

pub open spec fn all_kept(s: Seq<char>) -> bool {
    forall|i: int| 0 <= i < s.len() ==> kept(#[trigger] s[i])
}

/// No four periods in a row.
pub open spec fn no_long_run(s: Seq<char>) -> bool {
    forall|i: int|
        0 <= i && i + 3 < s.len() ==> !(#[trigger] s[i] == '.' && s[i + 1] == '.' && s[i + 2]
            == '.' && s[i + 3] == '.')
}

proof fn lemma_keep_chars_kept(s: Seq<char>)
    ensures
        all_kept(keep_chars(s)),
    decreases s.len(),
{
    if s.len() > 0 {
        lemma_keep_chars_kept(s.drop_last());
    }
}

proof fn lemma_keep_chars_identity(s: Seq<char>)
    requires
        all_kept(s),
    ensures
        keep_chars(s) == s,
    decreases s.len(),
{
    if s.len() > 0 {
        assert(all_kept(s.drop_last()));
        lemma_keep_chars_identity(s.drop_last());
        assert(s.drop_last().push(s.last()) =~= s);
    }
}

proof fn lemma_squeeze_shape(s: Seq<char>)
    ensures
        all_kept(s) ==> all_kept(squeeze(s)),
        no_long_run(squeeze(s)),
    decreases s.len(),
{
    if s.len() > 0 {
        let p = squeeze(s.drop_last());
        assert(all_kept(s) ==> all_kept(s.drop_last()));
        lemma_squeeze_shape(s.drop_last());
        if !(s.last() == '.' && ends_with_dots(p, 3)) {
            let q = p.push(s.last());
            assert forall|i: int|
                0 <= i && i + 3 < q.len() implies !(#[trigger] q[i] == '.' && q[i + 1] == '.'
                && q[i + 2] == '.' && q[i + 3] == '.') by {
                if i + 3 == q.len() - 1 && q[i] == '.' && q[i + 1] == '.' && q[i + 2] == '.' {
                    assert(ends_with_dots(p, 3));
                }
            }
        }
    }
}

proof fn lemma_squeeze_identity(s: Seq<char>)
    requires
        no_long_run(s),
    ensures
        squeeze(s) == s,
    decreases s.len(),
{
    if s.len() > 0 {
        let d = s.drop_last();
        assert(no_long_run(d)) by {
            assert forall|i: int|
                0 <= i && i + 3 < d.len() implies !(#[trigger] d[i] == '.' && d[i + 1] == '.'
                && d[i + 2] == '.' && d[i + 3] == '.') by {
                assert(s[i] == d[i]);
            }
        }
        lemma_squeeze_identity(d);
        if s.last() == '.' && ends_with_dots(d, 3) {
            let i = s.len() - 4;
            assert(d[i] == '.' && d[i + 1] == '.' && d[i + 2] == '.');
            assert(s[i] == d[i] && s[i + 1] == d[i + 1] && s[i + 2] == d[i + 2]);
            assert(s[i] == '.' && s[i + 1] == '.' && s[i + 2] == '.' && s[i + 3] == '.');
        }
        assert(d.push(s.last()) =~= s);
    }
}

/// Normalizing text that normalization produced gives it back unchanged, and not
/// marked as truncated.
pub proof fn lemma_normalize_idempotent(s: Seq<char>)
    ensures
        norm_text(norm_text(s)) == norm_text(s),
        !norm_truncated(norm_text(s)),
{
    let q = squeeze(keep_chars(s));
    lemma_keep_chars_kept(s);
    lemma_squeeze_shape(keep_chars(s));
    let n: int = q.len() as int;
    let t = norm_text(s);
    let cut: int = if ends_two_dots(q) {
        n - 2
    } else if ends_with_dots(q, 3) {
        n - 3
    } else {
        n
    };
    assert(t =~= q.subrange(0, cut));
    assert(all_kept(t));
    assert(no_long_run(t)) by {
        assert forall|i: int|
            0 <= i && i + 3 < t.len() implies !(#[trigger] t[i] == '.' && t[i + 1] == '.' && t[i
            + 2] == '.' && t[i + 3] == '.') by {
            assert(t[i] == q[i] && t[i + 1] == q[i + 1] && t[i + 2] == q[i + 2] && t[i + 3] == q[i
                + 3]);
        }
    }
    if ends_with_dots(q, 3) && !ends_two_dots(q) && n >= 4 {
        assert(q[n - 4] != '.') by {
            if q[n - 4] == '.' {
                let i = n - 4;
                assert(q[i] == '.' && q[i + 1] == '.' && q[i + 2] == '.' && q[i + 3] == '.');
            }
        }
    }
    if t.len() > 0 {
        if ends_two_dots(q) {
            assert(n == 2 || q[n - 3] != '.');
            assert(t.last() == q[n - 3] || t.len() == 0);
        } else if ends_with_dots(q, 3) {
            assert(t.last() == q[n - 4]);
        } else {
            assert(t =~= q);
            if ends_with_dots(t, 2) {
                assert(t.len() == 2 || t[t.len() - 3] != '.');
            }
        }
        assert(t.last() != '.' || !ends_with_dots(t, 2));
    }
    assert(!ends_two_dots(t));
    assert(!ends_with_dots(t, 3)) by {
        if ends_with_dots(t, 3) {
            assert(ends_with_dots(t, 2));
            assert(t.last() == '.');
        }
    }
    lemma_keep_chars_identity(t);
    lemma_squeeze_identity(t);
}

/// A small ASCII letter or a period.
pub open spec fn lite_char(c: char) -> bool {
    ('a' <= c && c <= 'z') || c == '.'
}

pub open spec fn all_lite(s: Seq<char>) -> bool {
    forall|i: int| 0 <= i < s.len() ==> lite_char(#[trigger] s[i])
}

/// No three periods in a row.
pub open spec fn no_ellipsis(s: Seq<char>) -> bool {
    forall|i: int|
        0 <= i && i + 2 < s.len() ==> !(#[trigger] s[i] == '.' && s[i + 1] == '.' && s[i + 2]
            == '.')
}

proof fn lemma_keep_lower_shape(s: Seq<char>)
    ensures
        all_lite(keep_lower(s)),
        all_lite(s) ==> keep_lower(s) == s,
    decreases s.len(),
{
    if s.len() > 0 {
        let d = s.drop_last();
        assert(all_lite(s) ==> all_lite(d));
        lemma_keep_lower_shape(d);
        let c = s.last();
        if 'A' <= c && c <= 'Z' {
            assert(lite_char(lower_spec(c)));
        }
        if all_lite(s) {
            assert(lower_spec(c) == c);
            assert(d.push(c) =~= s);
        }
    }
}

proof fn lemma_collapse_shape(s: Seq<char>)
    ensures
        all_lite(s) ==> all_lite(collapse_ellipses(s)),
        no_ellipsis(collapse_ellipses(s)),
    decreases s.len(),
{
    if s.len() > 0 {
        let d = s.drop_last();
        let p = collapse_ellipses(d);
        assert(all_lite(s) ==> all_lite(d));
        lemma_collapse_shape(d);
        if s.last() == '.' && ends_with_dots(p, 2) {
            let q = p.drop_last();
            assert forall|i: int|
                0 <= i && i + 2 < q.len() implies !(#[trigger] q[i] == '.' && q[i + 1] == '.'
                && q[i + 2] == '.') by {
                assert(q[i] == p[i] && q[i + 1] == p[i + 1] && q[i + 2] == p[i + 2]);
            }
        } else {
            let q = p.push(s.last());
            assert forall|i: int|
                0 <= i && i + 2 < q.len() implies !(#[trigger] q[i] == '.' && q[i + 1] == '.'
                && q[i + 2] == '.') by {
                if i + 2 == q.len() - 1 && q[i] == '.' && q[i + 1] == '.' && q[i + 2] == '.' {
                    assert(ends_with_dots(p, 2));
                }
            }
        }
    }
}

proof fn lemma_collapse_identity(s: Seq<char>)
    requires
        no_ellipsis(s),
    ensures
        collapse_ellipses(s) == s,
    decreases s.len(),
{
    if s.len() > 0 {
        let d = s.drop_last();
        assert(no_ellipsis(d)) by {
            assert forall|i: int|
                0 <= i && i + 2 < d.len() implies !(#[trigger] d[i] == '.' && d[i + 1] == '.'
                && d[i + 2] == '.') by {
                assert(s[i] == d[i] && s[i + 1] == d[i + 1] && s[i + 2] == d[i + 2]);
            }
        }
        lemma_collapse_identity(d);
        if s.last() == '.' && ends_with_dots(d, 2) {
            let i = s.len() - 3;
            assert(d[i] == '.' && d[i + 1] == '.');
            assert(s[i] == d[i] && s[i + 1] == d[i + 1]);
            assert(s[i] == '.' && s[i + 1] == '.' && s[i + 2] == '.');
        }
        assert(d.push(s.last()) =~= s);
    }
}

/// Lite normalization gives back text that it produced unchanged.
pub proof fn lemma_lite_idempotent(s: Seq<char>)
    ensures
        lite_text(lite_text(s)) == lite_text(s),
{
    lemma_keep_lower_shape(s);
    lemma_collapse_shape(keep_lower(s));
    let t = lite_text(s);
    lemma_keep_lower_shape(t);
    lemma_collapse_identity(t);
}

} // verus!
