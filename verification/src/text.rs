//! The description normalizer: turns a raw markup-tagged workshop description
//! into fixed-width terminal-friendly text.
//!
//! The steps, in order: keep the first two blank-line-separated paragraphs and
//! rejoin them with a single line break; remove inline markup tags; remove
//! leading whitespace; turn every `[*]` bullet marker into `"  - "`; greedily
//! wrap to lines of at most 100 characters, breaking only at whitespace; trim
//! the result.

use vstd::prelude::*;

verus! {

/// A character with the Unicode `White_Space` property: exactly the characters
/// that `char::is_whitespace` accepts.
pub open spec fn is_ws(c: char) -> bool {
    (c as u32) == 0x20 || (c as u32) == 0x9 || (c as u32) == 0xA || (c as u32) == 0xB
        || (c as u32) == 0xC || (c as u32) == 0xD || (c as u32) == 0x85 || (c as u32) == 0xA0
        || (c as u32) == 0x1680 || (0x2000 <= (c as u32) && (c as u32) <= 0x200A)
        || (c as u32) == 0x2028 || (c as u32) == 0x2029 || (c as u32) == 0x202F
        || (c as u32) == 0x205F || (c as u32) == 0x3000
}

/// A lowercase ASCII letter or an ASCII digit: the characters allowed in the
/// name part of a markup tag.
pub open spec fn is_tag_name_char(c: char) -> bool {
    (('a' as u32) <= (c as u32) && (c as u32) <= ('z' as u32))
        || (('0' as u32) <= (c as u32) && (c as u32) <= ('9' as u32))
}

pub fn ws_char(c: char) -> (r: bool)
    ensures
        r == is_ws(c),
{
    let u = c as u32;
    u == 0x20 || u == 0x9 || u == 0xA || u == 0xB || u == 0xC || u == 0xD || u == 0x85
        || u == 0xA0 || u == 0x1680 || (0x2000 <= u && u <= 0x200A) || u == 0x2028 || u == 0x2029
        || u == 0x202F || u == 0x205F || u == 0x3000
}

pub fn tag_name_char(c: char) -> (r: bool)
    ensures
        r == is_tag_name_char(c),
{
    let u = c as u32;
    (('a' as u32) <= u && u <= ('z' as u32)) || (('0' as u32) <= u && u <= ('9' as u32))
}

// ---------------------------------------------------------------------------
// Paragraphs: a blank line is one line break, optionally preceded by a
// carriage return, followed immediately by another such line break.
// ---------------------------------------------------------------------------

/// Length of a single line break (`\n` or `\r\n`) at `i`, or 0.
pub open spec fn nl_len_at(s: Seq<char>, i: int) -> int {
    if 0 <= i < s.len() && s[i] == '\n' {
        1
    } else if 0 <= i && i + 1 < s.len() && s[i] == '\r' && s[i + 1] == '\n' {
        2
    } else {
        0
    }
}

/// Length of a blank-line paragraph separator (two consecutive line breaks)
/// at `i`, or 0.
pub open spec fn sep_len_at(s: Seq<char>, i: int) -> int {
    let a = nl_len_at(s, i);
    if a > 0 {
        let b = nl_len_at(s, i + a);
        if b > 0 {
            a + b
        } else {
            0
        }
    } else {
        0
    }
}

/// Position of the first paragraph separator at or after `i`; `s.len()` when
/// there is none.
pub open spec fn find_sep(s: Seq<char>, i: int) -> int
    decreases s.len() - i,
{
    if i >= s.len() {
        s.len() as int
    } else if sep_len_at(s, i) > 0 {
        i
    } else {
        find_sep(s, i + 1)
    }
}

pub proof fn lemma_find_sep(s: Seq<char>, i: int)
    requires
        0 <= i <= s.len(),
    ensures
        i <= find_sep(s, i) <= s.len(),
        find_sep(s, i) < s.len() ==> sep_len_at(s, find_sep(s, i)) > 0,
        forall|j: int| i <= j < find_sep(s, i) ==> sep_len_at(s, j) == 0,
    decreases s.len() - i,
{
    if i < s.len() && sep_len_at(s, i) == 0 {
        lemma_find_sep(s, i + 1);
    }
}

/// The first two blank-line-separated paragraphs of `s`, rejoined with a
/// single line break; `s` itself when it has no paragraph separator.
pub open spec fn clip_two_paragraphs(s: Seq<char>) -> Seq<char> {
    let i = find_sep(s, 0);
    if i == s.len() {
        s
    } else {
        let l = sep_len_at(s, i);
        let j = find_sep(s, i + l);
        s.subrange(0, i) + seq!['\n'] + s.subrange(i + l, j)
    }
}

// ---------------------------------------------------------------------------
// Markup tags: `[`, an optional `/`, one or more lowercase-letter-or-digit
// characters, `]`.
// ---------------------------------------------------------------------------

/// End of the run of tag-name characters starting at `i`.
pub open spec fn tag_name_end(s: Seq<char>, i: int) -> int
    decreases s.len() - i,
{
    if 0 <= i < s.len() && is_tag_name_char(s[i]) {
        tag_name_end(s, i + 1)
    } else {
        i
    }
}

/// Length of the markup tag starting at `i`, or 0 when no tag starts there.
pub open spec fn tag_len_at(s: Seq<char>, i: int) -> int {
    if 0 <= i < s.len() && s[i] == '[' {
        let b = if i + 1 < s.len() && s[i + 1] == '/' {
            i + 2
        } else {
            i + 1
        };
        let e = tag_name_end(s, b);
        if e > b && e < s.len() && s[e] == ']' {
            e + 1 - i
        } else {
            0
        }
    } else {
        0
    }
}

pub proof fn lemma_tag_len_at(s: Seq<char>, i: int)
    ensures
        tag_len_at(s, i) == 0 || (3 <= tag_len_at(s, i) && i + tag_len_at(s, i) <= s.len()),
{
}

/// `s` from position `i` on, with every markup tag removed, scanning left to
/// right and never rescanning the text around a removed tag.
pub open spec fn strip_tags_from(s: Seq<char>, i: int) -> Seq<char>
    decreases s.len() - i,
{
    if i < 0 || i >= s.len() {
        Seq::<char>::empty()
    } else if tag_len_at(s, i) > 0 {
        proof {
            lemma_tag_len_at(s, i);
        }
        strip_tags_from(s, i + tag_len_at(s, i))
    } else {
        seq![s[i]] + strip_tags_from(s, i + 1)
    }
}

pub open spec fn strip_tags_spec(s: Seq<char>) -> Seq<char> {
    strip_tags_from(s, 0)
}

// ---------------------------------------------------------------------------
// Leading whitespace, bullets.
// ---------------------------------------------------------------------------

/// End of the run of whitespace starting at `i`.
pub open spec fn ws_prefix_end(s: Seq<char>, i: int) -> int
    decreases s.len() - i,
{
    if 0 <= i < s.len() && is_ws(s[i]) {
        ws_prefix_end(s, i + 1)
    } else {
        i
    }
}

pub proof fn lemma_ws_prefix_end(s: Seq<char>, i: int)
    requires
        0 <= i <= s.len(),
    ensures
        i <= ws_prefix_end(s, i) <= s.len(),
        forall|j: int| i <= j < ws_prefix_end(s, i) ==> is_ws(s[j]),
        ws_prefix_end(s, i) < s.len() ==> !is_ws(s[ws_prefix_end(s, i)]),
    decreases s.len() - i,
{
    if i < s.len() && is_ws(s[i]) {
        lemma_ws_prefix_end(s, i + 1);
    }
}

/// `s` without its leading whitespace.
pub open spec fn lstrip(s: Seq<char>) -> Seq<char> {
    s.skip(ws_prefix_end(s, 0))
}

/// A `[*]` bullet marker stands at `i`.
pub open spec fn bullet_at(s: Seq<char>, i: int) -> bool {
    0 <= i && i + 2 < s.len() && s[i] == '[' && s[i + 1] == '*' && s[i + 2] == ']'
}

/// What a bullet marker becomes: a two-space-indented hyphen.
pub open spec fn bullet_text() -> Seq<char> {
    seq![' ', ' ', '-', ' ']
}

/// `s` from position `i` on, with every `[*]` replaced by `"  - "`.
pub open spec fn replace_bullets_from(s: Seq<char>, i: int) -> Seq<char>
    decreases s.len() - i,
{
    if i < 0 || i >= s.len() {
        Seq::<char>::empty()
    } else if bullet_at(s, i) {
        bullet_text() + replace_bullets_from(s, i + 3)
    } else {
        seq![s[i]] + replace_bullets_from(s, i + 1)
    }
}

pub open spec fn bullets_spec(s: Seq<char>) -> Seq<char> {
    replace_bullets_from(s, 0)
}

// ---------------------------------------------------------------------------
// Greedy line wrap: repeatedly take the longest run of at most 100
// non-line-break characters that is followed by whitespace or by the end of
// the text, emit it with a single line break in place of the following
// whitespace run, and leave a character alone when no such run starts at it.
// ---------------------------------------------------------------------------

/// End of the run of non-line-break characters starting at `i`.
pub open spec fn nonnl_run_end(s: Seq<char>, i: int) -> int
    decreases s.len() - i,
{
    if 0 <= i < s.len() && s[i] != '\n' {
        nonnl_run_end(s, i + 1)
    } else {
        i
    }
}

pub proof fn lemma_nonnl_run_end(s: Seq<char>, i: int)
    requires
        0 <= i <= s.len(),
    ensures
        i <= nonnl_run_end(s, i) <= s.len(),
        forall|j: int| i <= j < nonnl_run_end(s, i) ==> s[j] != '\n',
        nonnl_run_end(s, i) < s.len() ==> s[nonnl_run_end(s, i)] == '\n',
    decreases s.len() - i,
{
    if i < s.len() && s[i] != '\n' {
        lemma_nonnl_run_end(s, i + 1);
    }
}

/// A chunk of `k` characters starting at `i` may end there: the character
/// after it is whitespace, or the text ends there.
pub open spec fn chunk_ok(s: Seq<char>, i: int, k: int) -> bool {
    i + k == s.len() || is_ws(s[i + k])
}

/// The largest `k' <= k` with `chunk_ok`, or 0.
pub open spec fn chunk_len_down(s: Seq<char>, i: int, k: int) -> int
    decreases k,
{
    if k <= 0 {
        0
    } else if chunk_ok(s, i, k) {
        k
    } else {
        chunk_len_down(s, i, k - 1)
    }
}

pub proof fn lemma_chunk_len_down(s: Seq<char>, i: int, k: int)
    requires
        0 <= k,
    ensures
        0 <= chunk_len_down(s, i, k) <= k,
        chunk_len_down(s, i, k) > 0 ==> chunk_ok(s, i, chunk_len_down(s, i, k)),
        forall|m: int| chunk_len_down(s, i, k) < m <= k ==> !chunk_ok(s, i, m),
        chunk_len_down(s, i, k) == 0 && k > 0 ==> !chunk_ok(s, i, k),
    decreases k,
{
    if k > 0 && !chunk_ok(s, i, k) {
        lemma_chunk_len_down(s, i, k - 1);
    }
}

/// Length of the greedy wrap chunk at `i`: the longest run of at most 100
/// non-line-break characters followed by whitespace or end of text; 0 when no
/// such run starts at `i`.
pub open spec fn chunk_len_at(s: Seq<char>, i: int) -> int {
    let r = nonnl_run_end(s, i) - i;
    chunk_len_down(s, i, if r > 100 { 100 } else { r })
}

pub proof fn lemma_chunk_len_at(s: Seq<char>, i: int)
    requires
        0 <= i <= s.len(),
    ensures
        0 <= chunk_len_at(s, i) <= 100,
        i + chunk_len_at(s, i) <= s.len(),
        chunk_len_at(s, i) > 0 ==> chunk_ok(s, i, chunk_len_at(s, i)),
        forall|j: int| i <= j < i + chunk_len_at(s, i) ==> s[j] != '\n',
{
    lemma_nonnl_run_end(s, i);
    let r = nonnl_run_end(s, i) - i;
    lemma_chunk_len_down(s, i, if r > 100 { 100 } else { r });
}

/// The wrapped text from position `i` on: each chunk is emitted with a
/// single line break in place of the one whitespace character that ends it,
/// so indentation after a line break is kept.
pub open spec fn wrap_from(s: Seq<char>, i: int) -> Seq<char>
    decreases s.len() - i,
{
    if i < 0 || i >= s.len() {
        Seq::<char>::empty()
    } else {
        let k = chunk_len_at(s, i);
        if k > 0 {
            proof {
                lemma_chunk_len_at(s, i);
            }
            s.subrange(i, i + k) + seq!['\n'] + wrap_from(
                s,
                if i + k < s.len() {
                    i + k + 1
                } else {
                    i + k
                },
            )
        } else {
            seq![s[i]] + wrap_from(s, i + 1)
        }
    }
}

pub open spec fn wrap_spec(s: Seq<char>) -> Seq<char> {
    wrap_from(s, 0)
}

// ---------------------------------------------------------------------------
// Trim.
// ---------------------------------------------------------------------------

/// Start of the run of whitespace that ends at `j`.
pub open spec fn ws_suffix_start(s: Seq<char>, j: int) -> int
    decreases j,
{
    if 0 < j <= s.len() && is_ws(s[j - 1]) {
        ws_suffix_start(s, j - 1)
    } else {
        j
    }
}

pub proof fn lemma_ws_suffix_start(s: Seq<char>, j: int)
    requires
        0 <= j <= s.len(),
    ensures
        0 <= ws_suffix_start(s, j) <= j,
        forall|m: int| ws_suffix_start(s, j) <= m < j ==> is_ws(s[m]),
        ws_suffix_start(s, j) > 0 ==> !is_ws(s[ws_suffix_start(s, j) - 1]),
    decreases j,
{
    if 0 < j && is_ws(s[j - 1]) {
        lemma_ws_suffix_start(s, j - 1);
    }
}

/// `s` without leading and trailing whitespace.
pub open spec fn trim(s: Seq<char>) -> Seq<char> {
    let a = ws_prefix_end(s, 0);
    if a == s.len() {
        Seq::<char>::empty()
    } else {
        s.subrange(a, ws_suffix_start(s, s.len() as int))
    }
}

// ---------------------------------------------------------------------------
// The normalizer.
// ---------------------------------------------------------------------------

/// The normalized display form of a raw description: the first two paragraphs,
/// tags removed, leading whitespace removed, bullets rewritten, wrapped to 100
/// columns, trimmed.
pub open spec fn normalize_spec(s: Seq<char>) -> Seq<char> {
    trim(wrap_spec(bullets_spec(lstrip(strip_tags_spec(clip_two_paragraphs(s))))))
}

// ---------------------------------------------------------------------------
// Executable code.
// ---------------------------------------------------------------------------

/// Append `v[a..b]` to `out`.
pub(crate) fn append_range(out: &mut Vec<char>, v: &Vec<char>, a: usize, b: usize)
    requires
        a <= b <= v@.len(),
    ensures
        final(out)@ == old(out)@ + v@.subrange(a as int, b as int),
{
    let mut t = a;
    while t < b
        invariant
            a <= t <= b <= v@.len(),
            out@ == old(out)@ + v@.subrange(a as int, t as int),
        decreases b - t,
    {
        out.push(v[t]);
        proof {
            assert(old(out)@ + v@.subrange(a as int, t + 1) =~= (old(out)@ + v@.subrange(
                a as int,
                t as int,
            )).push(v@[t as int]));
        }
        t = t + 1;
    }
    proof {
        assert(v@.subrange(a as int, t as int) =~= v@.subrange(a as int, b as int));
    }
}

/// Length of a single line break at `i`, or 0.
fn nl_len(v: &Vec<char>, i: usize) -> (r: usize)
    requires
        i <= v@.len(),
    ensures
        r as int == nl_len_at(v@, i as int),
        i + r <= v@.len(),
{
    if i < v.len() && v[i] == '\n' {
        1
    } else if i < v.len() && v[i] == '\r' && i + 1 < v.len() && v[i + 1] == '\n' {
        2
    } else {
        0
    }
}

/// Length of a paragraph separator at `i`, or 0.
fn sep_len(v: &Vec<char>, i: usize) -> (r: usize)
    requires
        i <= v@.len(),
    ensures
        r as int == sep_len_at(v@, i as int),
        i + r <= v@.len(),
{
    let n = v.len();
    let a = nl_len(v, i);
    if a > 0 {
        proof {
            assert(i + a <= n);
        }
        let b = nl_len(v, i + a);
        if b > 0 {
            a + b
        } else {
            0
        }
    } else {
        0
    }
}

/// First paragraph separator at or after `from`: its position and length.
fn find_first_sep(v: &Vec<char>, from: usize) -> (r: (usize, usize))
    requires
        from <= v@.len(),
    ensures
        r.0 as int == find_sep(v@, from as int),
        from <= r.0 <= v@.len(),
        r.1 as int == sep_len_at(v@, r.0 as int),
        r.0 + r.1 <= v@.len(),
{
    let mut i = from;
    loop
        invariant
            from <= i <= v@.len(),
            find_sep(v@, from as int) == find_sep(v@, i as int),
        decreases v@.len() - i,
    {
        if i == v.len() {
            return (i, 0);
        }
        let l = sep_len(v, i);
        if l > 0 {
            return (i, l);
        }
        i = i + 1;
    }
}

/// The first two paragraphs, rejoined with a single line break.
pub fn clip_two(v: &Vec<char>) -> (out: Vec<char>)
    ensures
        out@ == clip_two_paragraphs(v@),
{
    let (i, l) = find_first_sep(v, 0);
    if i == v.len() {
        let mut out: Vec<char> = Vec::new();
        append_range(&mut out, v, 0, v.len());
        proof {
            assert(out@ =~= v@);
        }
        out
    } else {
        let (j, _jl) = find_first_sep(v, i + l);
        let mut out: Vec<char> = Vec::new();
        append_range(&mut out, v, 0, i);
        out.push('\n');
        append_range(&mut out, v, i + l, j);
        proof {
            assert(out@ =~= v@.subrange(0, i as int) + seq!['\n'] + v@.subrange(
                i + l,
                j as int,
            ));
        }
        out
    }
}

/// Length of the markup tag starting at `i`, or 0.
fn tag_len(v: &Vec<char>, i: usize) -> (r: usize)
    requires
        i <= v@.len(),
    ensures
        r as int == tag_len_at(v@, i as int),
        i + r <= v@.len(),
{
    proof {
        lemma_tag_len_at(v@, i as int);
    }
    if i < v.len() && v[i] == '[' {
        let b = if i + 1 < v.len() && v[i + 1] == '/' {
            i + 2
        } else {
            i + 1
        };
        let mut e = b;
        while e < v.len() && tag_name_char(v[e])
            invariant
                b <= e <= v@.len(),
                tag_name_end(v@, b as int) == tag_name_end(v@, e as int),
            decreases v@.len() - e,
        {
            e = e + 1;
        }
        if e > b && e < v.len() && v[e] == ']' {
            e + 1 - i
        } else {
            0
        }
    } else {
        0
    }
}

/// Remove every markup tag.
pub fn strip_tags(v: &Vec<char>) -> (out: Vec<char>)
    ensures
        out@ == strip_tags_spec(v@),
{
    let mut out: Vec<char> = Vec::new();
    let mut i: usize = 0;
    while i < v.len()
        invariant
            i <= v@.len(),
            strip_tags_spec(v@) == out@ + strip_tags_from(v@, i as int),
        decreases v@.len() - i,
    {
        let t = tag_len(v, i);
        if t > 0 {
            i = i + t;
        } else {
            proof {
                assert(out@ + strip_tags_from(v@, i as int) =~= out@.push(v@[i as int])
                    + strip_tags_from(v@, i + 1));
            }
            out.push(v[i]);
            i = i + 1;
        }
    }
    proof {
        assert(out@ + strip_tags_from(v@, i as int) =~= out@);
    }
    out
}

/// Remove leading whitespace.
pub fn strip_leading_ws(v: &Vec<char>) -> (out: Vec<char>)
    ensures
        out@ == lstrip(v@),
{
    let mut a: usize = 0;
    while a < v.len() && ws_char(v[a])
        invariant
            a <= v@.len(),
            ws_prefix_end(v@, 0) == ws_prefix_end(v@, a as int),
        decreases v@.len() - a,
    {
        a = a + 1;
    }
    let mut out: Vec<char> = Vec::new();
    append_range(&mut out, v, a, v.len());
    proof {
        assert(out@ =~= v@.skip(a as int));
    }
    out
}

/// Whether a `[*]` bullet marker stands at `i`.
fn is_bullet(v: &Vec<char>, i: usize) -> (r: bool)
    requires
        i <= v@.len(),
    ensures
        r == bullet_at(v@, i as int),
{
    if i < v.len() && v.len() - i > 2 {
        v[i] == '[' && v[i + 1] == '*' && v[i + 2] == ']'
    } else {
        false
    }
}

/// Replace every `[*]` with `"  - "`.
pub fn replace_bullets(v: &Vec<char>) -> (out: Vec<char>)
    ensures
        out@ == bullets_spec(v@),
{
    let mut out: Vec<char> = Vec::new();
    let mut i: usize = 0;
    while i < v.len()
        invariant
            i <= v@.len(),
            bullets_spec(v@) == out@ + replace_bullets_from(v@, i as int),
        decreases v@.len() - i,
    {
        if is_bullet(v, i) {
            let ghost pre = out@;
            proof {
                assert(out@ + replace_bullets_from(v@, i as int) =~= (out@ + bullet_text())
                    + replace_bullets_from(v@, i + 3));
            }
            out.push(' ');
            out.push(' ');
            out.push('-');
            out.push(' ');
            proof {
                assert(out@ =~= pre + bullet_text());
            }
            i = i + 3;
        } else {
            proof {
                assert(out@ + replace_bullets_from(v@, i as int) =~= out@.push(v@[i as int])
                    + replace_bullets_from(v@, i + 1));
            }
            out.push(v[i]);
            i = i + 1;
        }
    }
    proof {
        assert(out@ + replace_bullets_from(v@, i as int) =~= out@);
    }
    out
}

/// Length of the greedy wrap chunk at `i`, or 0.
fn chunk_at(v: &Vec<char>, i: usize) -> (k: usize)
    requires
        i <= v@.len(),
    ensures
        k as int == chunk_len_at(v@, i as int),
        i + k <= v@.len(),
        k <= 100,
{
    proof {
        lemma_nonnl_run_end(v@, i as int);
    }
    let mut r = i;
    while r < v.len() && r - i < 100 && v[r] != '\n'
        invariant
            i <= r <= v@.len(),
            r - i <= 100,
            forall|j: int| i <= j < r ==> v@[j] != '\n',
        decreases v@.len() - r,
    {
        r = r + 1;
    }
    // r - i is the capped non-line-break run length.
    let ghost run = nonnl_run_end(v@, i as int) - i;
    proof {
        if r - i < 100 {
            // stopped at a line break or at the end: the run ends exactly here
            assert(nonnl_run_end(v@, i as int) == r as int) by {
                lemma_nonnl_run_end(v@, i as int);
                if nonnl_run_end(v@, i as int) < r as int {
                    assert(v@[nonnl_run_end(v@, i as int)] != '\n');
                }
                if nonnl_run_end(v@, i as int) > r as int {
                    assert(r < v@.len() && v@[r as int] == '\n');
                }
            }
        } else {
            assert(nonnl_run_end(v@, i as int) >= r as int) by {
                lemma_nonnl_run_end(v@, i as int);
                if nonnl_run_end(v@, i as int) < r as int {
                    assert(v@[nonnl_run_end(v@, i as int)] != '\n');
                }
            }
        }
        assert((if run > 100 { 100int } else { run }) == r - i);
    }
    let mut k = r - i;
    proof {
        lemma_chunk_len_down(v@, i as int, k as int);
    }
    while k >= 1 && i + k < v.len() && !ws_char(v[i + k])
        invariant
            0 <= k <= r - i,
            i + k <= v@.len(),
            chunk_len_down(v@, i as int, (r - i) as int) == chunk_len_down(v@, i as int, k as int),
        decreases k,
    {
        k = k - 1;
    }
    proof {
        if k >= 1 {
            assert(chunk_ok(v@, i as int, k as int));
        }
    }
    k
}

/// Greedy line wrap.
pub fn wrap_lines(v: &Vec<char>) -> (out: Vec<char>)
    ensures
        out@ == wrap_spec(v@),
{
    let mut out: Vec<char> = Vec::new();
    let mut i: usize = 0;
    while i < v.len()
        invariant
            i <= v@.len(),
            wrap_spec(v@) == out@ + wrap_from(v@, i as int),
        decreases v@.len() - i,
    {
        let k = chunk_at(v, i);
        if k > 0 {
            let j = if i + k < v.len() {
                i + k + 1
            } else {
                i + k
            };
            proof {
                assert(out@ + wrap_from(v@, i as int) =~= (out@ + v@.subrange(i as int, i + k)
                    + seq!['\n']) + wrap_from(v@, j as int));
            }
            append_range(&mut out, v, i, i + k);
            out.push('\n');
            i = j;
        } else {
            proof {
                assert(out@ + wrap_from(v@, i as int) =~= out@.push(v@[i as int]) + wrap_from(
                    v@,
                    i + 1,
                ));
            }
            out.push(v[i]);
            i = i + 1;
        }
    }
    proof {
        assert(out@ + wrap_from(v@, i as int) =~= out@);
    }
    out
}

/// Remove leading and trailing whitespace.
pub fn trim_ws(v: &Vec<char>) -> (out: Vec<char>)
    ensures
        out@ == trim(v@),
{
    let mut a: usize = 0;
    while a < v.len() && ws_char(v[a])
        invariant
            a <= v@.len(),
            ws_prefix_end(v@, 0) == ws_prefix_end(v@, a as int),
        decreases v@.len() - a,
    {
        a = a + 1;
    }
    if a == v.len() {
        let out: Vec<char> = Vec::new();
        return out;
    }
    let mut b = v.len();
    proof {
        lemma_ws_prefix_end(v@, 0);
    }
    while b > a + 1 && ws_char(v[b - 1])
        invariant
            a + 1 <= b <= v@.len(),
            a < v@.len(),
            !is_ws(v@[a as int]),
            ws_suffix_start(v@, v@.len() as int) == ws_suffix_start(v@, b as int),
        decreases b,
    {
        b = b - 1;
    }
    proof {
        assert(ws_suffix_start(v@, b as int) == b as int) by {
            if b > a + 1 {
                // stopped at a non-whitespace character
                assert(!is_ws(v@[b - 1]));
            } else {
                assert(!is_ws(v@[b - 1]));
            }
        }
    }
    let mut out: Vec<char> = Vec::new();
    append_range(&mut out, v, a, b);
    out
}

/// Relies on `str::chars`: yields the characters of the slice, in order.
#[verifier::external_body]
pub(crate) fn str_chars(s: &str) -> (out: Vec<char>)
    ensures
        out@ == s@,
{
    s.chars().collect()
}

/// Relies on `String::push`: appends one character at the end.
#[verifier::external_body]
fn push_char(s: &mut String, c: char)
    ensures
        final(s)@ == old(s)@ + seq![c],
{
    s.push(c);
}

/// Build a string from a sequence of characters.
pub fn chars_to_string(v: &Vec<char>) -> (r: String)
    ensures
        r@ == v@,
{
    let mut r = String::new();
    let mut i: usize = 0;
    while i < v.len()
        invariant
            i <= v@.len(),
            r@ == v@.subrange(0, i as int),
        decreases v@.len() - i,
    {
        push_char(&mut r, v[i]);
        proof {
            assert(v@.subrange(0, i as int) + seq![v@[i as int]] =~= v@.subrange(0, i + 1));
        }
        i = i + 1;
    }
    proof {
        assert(v@.subrange(0, i as int) =~= v@);
    }
    r
}

/// Normalize a raw description held as characters.
pub fn normalize_chars(v: &Vec<char>) -> (out: Vec<char>)
    ensures
        out@ == normalize_spec(v@),
{
    let clipped = clip_two(v);
    let stripped = strip_tags(&clipped);
    let unindented = strip_leading_ws(&stripped);
    let bulleted = replace_bullets(&unindented);
    let wrapped = wrap_lines(&bulleted);
    trim_ws(&wrapped)
}

/// Normalize a raw description: keep the first two paragraphs, remove markup
/// tags, rewrite `[*]` bullets, wrap to 100 columns, trim.
pub fn normalize(raw: &str) -> (r: String)
    ensures
        r@ == normalize_spec(raw@),
{
    let v = str_chars(raw);
    let n = normalize_chars(&v);
    chars_to_string(&n)
}

} // verus!
