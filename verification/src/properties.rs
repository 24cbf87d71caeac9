//! Laws of the normalizer and the session, proved against this crate's
//! specifications.

use vstd::prelude::*;
use crate::text::bullet_at;
use crate::text::bullets_spec;
use crate::text::chunk_len_at;
use crate::text::chunk_len_down;
use crate::text::lemma_chunk_len_down;
use crate::text::chunk_ok;
use crate::text::find_sep;
use crate::text::lemma_find_sep;
use crate::text::nl_len_at;
use crate::text::nonnl_run_end;
use crate::text::lemma_nonnl_run_end;
use crate::text::sep_len_at;
use crate::text::strip_tags_from;
use crate::text::tag_len_at;
use crate::text::clip_two_paragraphs;
use crate::text::is_tag_name_char;
use crate::text::is_ws;
use crate::text::lemma_chunk_len_at;
use crate::text::lemma_ws_prefix_end;
use crate::text::lemma_ws_suffix_start;
use crate::text::lstrip;
use crate::text::normalize_spec;
use crate::text::replace_bullets_from;
use crate::text::strip_tags_spec;
use crate::text::trim;
use crate::text::wrap_from;
use crate::text::wrap_spec;
use crate::text::ws_prefix_end;
use crate::text::ws_suffix_start;
use crate::session::CatalogResponse;
use crate::session::SearchQuery;

verus! {

/// `s[i..j]` is one whole markup tag: `[`, an optional `/`, at least one
/// lowercase-letter-or-digit character, `]`.
pub open spec fn tag_shape(s: Seq<char>, i: int, j: int) -> bool {
    &&& 0 <= i
    &&& i + 3 <= j <= s.len()
    &&& s[i] == '['
    &&& s[j - 1] == ']'
    &&& if s[i + 1] == '/' {
        i + 4 <= j && (forall|m: int| i + 2 <= m < j - 1 ==> is_tag_name_char(#[trigger] s[m]))
    } else {
        forall|m: int| i + 1 <= m < j - 1 ==> is_tag_name_char(#[trigger] s[m])
    }
}

/// The text contains a markup tag.
pub open spec fn contains_tag(s: Seq<char>) -> bool {
    exists|i: int, j: int| tag_shape(s, i, j)
}

/// The text contains a `[*]` bullet marker.
pub open spec fn contains_marker(s: Seq<char>) -> bool {
    exists|i: int| bullet_at(s, i)
}

/// A tag of a subrange is a tag of the whole text.
proof fn lemma_tag_sub(s: Seq<char>, a: int, b: int, i: int, j: int)
    requires
        0 <= a <= b <= s.len(),
        tag_shape(s.subrange(a, b), i, j),
    ensures
        tag_shape(s, a + i, a + j),
{
    let t = s.subrange(a, b);
    assert forall|m: int| a <= m < b implies #[trigger] s[m] == t[m - a] by {}
    if t[i + 1] == '/' {
        assert forall|m: int| a + i + 2 <= m < a + j - 1 implies is_tag_name_char(
            #[trigger] s[m],
        ) by {
            assert(s[m] == t[m - a]);
            assert(is_tag_name_char(t[m - a]));
        }
    } else {
        assert forall|m: int| a + i + 1 <= m < a + j - 1 implies is_tag_name_char(
            #[trigger] s[m],
        ) by {
            assert(s[m] == t[m - a]);
            assert(is_tag_name_char(t[m - a]));
        }
    }
    assert(s[a + i] == t[i]);
    assert(s[a + i + 1] == t[i + 1]);
    assert(s[a + j - 1] == t[j - 1]);
}

/// A marker of a subrange is a marker of the whole text.
proof fn lemma_marker_sub(s: Seq<char>, a: int, b: int, i: int)
    requires
        0 <= a <= b <= s.len(),
        bullet_at(s.subrange(a, b), i),
    ensures
        bullet_at(s, a + i),
{
}

// ---------------------------------------------------------------------------
// The bullet pass.
// ---------------------------------------------------------------------------

/// A space-free prefix of the bullet pass's output is a literal prefix of its
/// input: every inserted `"  - "` begins with a space.
proof fn lemma_bullets_prefix(s: Seq<char>, i: int, q: Seq<char>)
    requires
        0 <= i <= s.len(),
        q.len() <= replace_bullets_from(s, i).len(),
        forall|m: int| 0 <= m < q.len() ==> q[m] == replace_bullets_from(s, i)[m],
        forall|m: int| 0 <= m < q.len() ==> q[m] != ' ',
    ensures
        i + q.len() <= s.len(),
        forall|m: int| 0 <= m < q.len() ==> q[m] == s[i + m],
    decreases s.len() - i,
{
    if q.len() == 0 {
    } else if i >= s.len() {
        assert(replace_bullets_from(s, i).len() == 0);
    } else if bullet_at(s, i) {
        assert(replace_bullets_from(s, i)[0] == ' ');
        assert(q[0] != ' ');
    } else {
        assert(q[0] == s[i]);
        let q1 = q.subrange(1, q.len() as int);
        assert forall|m: int| 0 <= m < q1.len() implies q1[m] == replace_bullets_from(
            s,
            i + 1,
        )[m] by {
            assert(q[m + 1] == replace_bullets_from(s, i)[m + 1]);
            assert(replace_bullets_from(s, i)[m + 1] == replace_bullets_from(s, i + 1)[m]);
        }
        lemma_bullets_prefix(s, i + 1, q1);
        assert forall|m: int| 0 <= m < q.len() implies q[m] == s[i + m] by {
            if m >= 1 {
                assert(q1[m - 1] == s[i + 1 + (m - 1)]);
            }
        }
    }
}

/// A tag in the bullet pass's output comes from a tag in its input.
proof fn lemma_bullets_tag(s: Seq<char>, i: int, p: int, q: int)
    requires
        0 <= i <= s.len(),
        tag_shape(replace_bullets_from(s, i), p, q),
    ensures
        contains_tag(s),
    decreases s.len() - i,
{
    let out = replace_bullets_from(s, i);
    if i >= s.len() {
        assert(out.len() == 0);
    } else if bullet_at(s, i) {
        // the inserted text holds no `[`, so the tag lies in the rest
        assert(out[0] == ' ' && out[1] == ' ' && out[2] == '-' && out[3] == ' ');
        assert(p >= 4);
        let rest = replace_bullets_from(s, i + 3);
        assert forall|m: int| 0 <= m < rest.len() implies out[4 + m] == rest[m] by {}
        assert(tag_shape(rest, p - 4, q - 4));
        lemma_bullets_tag(s, i + 3, p - 4, q - 4);
    } else {
        let rest = replace_bullets_from(s, i + 1);
        if p >= 1 {
            assert forall|m: int| 0 <= m < rest.len() implies out[1 + m] == rest[m] by {}
            assert(tag_shape(rest, p - 1, q - 1));
            lemma_bullets_tag(s, i + 1, p - 1, q - 1);
        } else {
            // the tag starts on a kept character; its tail holds no space,
            // so it is literal input text
            let tail = out.subrange(1, q);
            assert forall|m: int| 0 <= m < tail.len() implies tail[m] != ' ' by {
                if m == tail.len() - 1 {
                    assert(out[q - 1] == ']');
                } else if out[1] == '/' && m == 0 {
                } else {
                    assert(is_tag_name_char(out[1 + m]));
                }
            }
            assert forall|m: int| 0 <= m < tail.len() implies tail[m] == rest[m] by {
                assert(out[1 + m] == rest[m]);
            }
            lemma_bullets_prefix(s, i + 1, tail);
            assert(tag_shape(s, i, i + q)) by {
                assert forall|m: int| i <= m < i + q implies #[trigger] s[m] == out[m - i] by {
                    if m > i {
                        assert(tail[(m - i) - 1] == s[i + 1 + ((m - i) - 1)]);
                    }
                }
                assert(s[i] == '[');
                assert(s[i + q - 1] == out[q - 1]);
                if s[i + 1] == '/' {
                    assert forall|m: int| i + 2 <= m < i + q - 1 implies is_tag_name_char(
                        #[trigger] s[m],
                    ) by {
                        assert(s[m] == out[m - i]);
                        assert(is_tag_name_char(out[m - i]));
                    }
                } else {
                    assert forall|m: int| i + 1 <= m < i + q - 1 implies is_tag_name_char(
                        #[trigger] s[m],
                    ) by {
                        assert(s[m] == out[m - i]);
                        assert(is_tag_name_char(out[m - i]));
                    }
                }
            }
        }
    }
}

/// The bullet pass leaves no `[*]` anywhere: distinct markers never overlap,
/// and the inserted text splices none together.
proof fn lemma_bullets_no_marker(s: Seq<char>, i: int, p: int)
    requires
        0 <= i <= s.len(),
    ensures
        !bullet_at(replace_bullets_from(s, i), p),
    decreases s.len() - i,
{
    let out = replace_bullets_from(s, i);
    if bullet_at(out, p) {
        if i >= s.len() {
            assert(out.len() == 0);
        } else if bullet_at(s, i) {
            assert(out[0] == ' ' && out[1] == ' ' && out[2] == '-' && out[3] == ' ');
            assert(p >= 4);
            let rest = replace_bullets_from(s, i + 3);
            assert forall|m: int| 0 <= m < rest.len() implies out[4 + m] == rest[m] by {}
            assert(bullet_at(rest, p - 4));
            lemma_bullets_no_marker(s, i + 3, p - 4);
        } else {
            let rest = replace_bullets_from(s, i + 1);
            if p >= 1 {
                assert forall|m: int| 0 <= m < rest.len() implies out[1 + m] == rest[m] by {}
                assert(bullet_at(rest, p - 1));
                lemma_bullets_no_marker(s, i + 1, p - 1);
            } else {
                let tail = out.subrange(1, 3);
                assert(tail[0] == '*' && tail[1] == ']');
                assert forall|m: int| 0 <= m < tail.len() implies tail[m] == rest[m] by {
                    assert(out[1 + m] == rest[m]);
                }
                lemma_bullets_prefix(s, i + 1, tail);
                assert(s[i + 1] == '*' && s[i + 2] == ']');
                assert(bullet_at(s, i));
            }
        }
    }
}

// ---------------------------------------------------------------------------
// The wrap pass: it copies characters and replaces whitespace runs by single
// line breaks, so a line-break-free stretch of its output is literal input.
// ---------------------------------------------------------------------------

/// A line-break-free prefix of the wrapped text is a literal prefix of its
/// input.
proof fn lemma_wrap_prefix(s: Seq<char>, i: int, m: int)
    requires
        0 <= i <= s.len(),
        0 <= m <= wrap_from(s, i).len(),
        forall|t: int| 0 <= t < m ==> wrap_from(s, i)[t] != '\n',
    ensures
        i + m <= s.len(),
        forall|t: int| 0 <= t < m ==> wrap_from(s, i)[t] == s[i + t],
    decreases s.len() - i,
{
    if m == 0 {
    } else if i >= s.len() {
        assert(wrap_from(s, i).len() == 0);
    } else {
        let k = chunk_len_at(s, i);
        lemma_chunk_len_at(s, i);
        if k > 0 {
            if m > k {
                assert(wrap_from(s, i)[k] == '\n');
            }
        } else {
            let rest = wrap_from(s, i + 1);
            assert forall|t: int| 0 <= t < rest.len() implies wrap_from(s, i)[1 + t]
                == rest[t] by {}
            lemma_wrap_prefix(s, i + 1, m - 1);
            assert forall|t: int| 0 <= t < m implies wrap_from(s, i)[t] == s[i + t] by {
                if t >= 1 {
                    assert(rest[t - 1] == s[i + 1 + (t - 1)]);
                }
            }
        }
    }
}

/// A line-break-free stretch of the wrapped text is a literal substring of
/// its input; hands back where it stands in the input.
proof fn lemma_wrap_sub(s: Seq<char>, i: int, p: int, q: int) -> (o: int)
    requires
        0 <= i <= s.len(),
        0 <= p <= q <= wrap_from(s, i).len(),
        forall|t: int| p <= t < q ==> wrap_from(s, i)[t] != '\n',
    ensures
        i <= o,
        o + (q - p) <= s.len(),
        forall|t: int| 0 <= t < q - p ==> wrap_from(s, i)[p + t] == #[trigger] s[o + t],
    decreases s.len() - i,
{
    if p == q || i >= s.len() {
        i
    } else {
        let k = chunk_len_at(s, i);
        lemma_chunk_len_at(s, i);
        if k > 0 {
            let j = if i + k < s.len() {
                i + k + 1
            } else {
                i + k
            };
            if q <= k {
                i + p
            } else if p >= k + 1 {
                let rest = wrap_from(s, j);
                assert forall|t: int| 0 <= t < rest.len() implies wrap_from(s, i)[k + 1 + t]
                    == rest[t] by {}
                let o = lemma_wrap_sub(s, j, p - (k + 1), q - (k + 1));
                assert forall|t: int| 0 <= t < q - p implies wrap_from(s, i)[p + t]
                    == #[trigger] s[o + t] by {
                    assert(rest[(p - (k + 1)) + t] == s[o + t]);
                }
                o
            } else {
                assert(wrap_from(s, i)[k] == '\n');
                i
            }
        } else {
            let rest = wrap_from(s, i + 1);
            assert forall|t: int| 0 <= t < rest.len() implies wrap_from(s, i)[1 + t]
                == rest[t] by {}
            if p >= 1 {
                let o = lemma_wrap_sub(s, i + 1, p - 1, q - 1);
                assert forall|t: int| 0 <= t < q - p implies wrap_from(s, i)[p + t]
                    == #[trigger] s[o + t] by {
                    assert(rest[(p - 1) + t] == s[o + t]);
                }
                o
            } else {
                lemma_wrap_prefix(s, i + 1, q - 1);
                assert forall|t: int| 0 <= t < q - p implies wrap_from(s, i)[p + t]
                    == #[trigger] s[i + t] by {
                    if t >= 1 {
                        assert(rest[t - 1] == s[i + 1 + (t - 1)]);
                    }
                }
                i
            }
        }
    }
}

/// Tag characters are never line breaks.
proof fn lemma_tag_chars_not_nl(s: Seq<char>, i: int, j: int)
    requires
        tag_shape(s, i, j),
    ensures
        forall|t: int| i <= t < j ==> s[t] != '\n',
{
    assert forall|t: int| i <= t < j implies s[t] != '\n' by {
        if t == i {
        } else if t == j - 1 {
        } else if s[i + 1] == '/' && t == i + 1 {
        } else {
            assert(is_tag_name_char(s[t]));
        }
    }
}

/// A tag in the wrapped text is a tag of the text that was wrapped.
proof fn lemma_wrap_tag(z: Seq<char>, p: int, q: int)
    requires
        tag_shape(wrap_spec(z), p, q),
    ensures
        contains_tag(z),
{
    lemma_tag_chars_not_nl(wrap_spec(z), p, q);
    let o = lemma_wrap_sub(z, 0, p, q);
    assert forall|m: int| o <= m < o + (q - p) implies #[trigger] z[m] == wrap_spec(z)[p + (m
        - o)] by {
        assert(z[o + (m - o)] == wrap_spec(z)[p + (m - o)]);
    }
    assert(tag_shape(z, o, o + (q - p))) by {
        assert(z[o] == wrap_spec(z)[p]);
        assert(z[o + 1] == wrap_spec(z)[p + 1]);
        assert(z[o + (q - p) - 1] == wrap_spec(z)[p + ((q - p) - 1)]);
        if z[o + 1] == '/' {
            assert forall|m: int| o + 2 <= m < o + (q - p) - 1 implies is_tag_name_char(
                #[trigger] z[m],
            ) by {
                assert(z[m] == wrap_spec(z)[p + (m - o)]);
                assert(is_tag_name_char(wrap_spec(z)[p + (m - o)]));
            }
        } else {
            assert forall|m: int| o + 1 <= m < o + (q - p) - 1 implies is_tag_name_char(
                #[trigger] z[m],
            ) by {
                assert(z[m] == wrap_spec(z)[p + (m - o)]);
                assert(is_tag_name_char(wrap_spec(z)[p + (m - o)]));
            }
        }
    }
}

/// A marker in the wrapped text is a marker of the text that was wrapped.
proof fn lemma_wrap_marker(z: Seq<char>, p: int)
    requires
        bullet_at(wrap_spec(z), p),
    ensures
        contains_marker(z),
{
    let o = lemma_wrap_sub(z, 0, p, p + 3);
    assert(z[o + 0] == wrap_spec(z)[p + 0]);
    assert(z[o + 1] == wrap_spec(z)[p + 1]);
    assert(z[o + 2] == wrap_spec(z)[p + 2]);
    assert(bullet_at(z, o));
}

// ---------------------------------------------------------------------------
// Trim and the leading-whitespace pass only cut a subrange.
// ---------------------------------------------------------------------------

/// Trim's bounds: where they stand in the text.
proof fn lemma_trim_bounds(s: Seq<char>)
    requires
        ws_prefix_end(s, 0) < s.len(),
    ensures
        0 <= ws_prefix_end(s, 0) < ws_suffix_start(s, s.len() as int) <= s.len(),
{
    let a = ws_prefix_end(s, 0);
    let b = ws_suffix_start(s, s.len() as int);
    lemma_ws_prefix_end(s, 0);
    lemma_ws_suffix_start(s, s.len() as int);
    if b <= a {
        assert(is_ws(s[a]));
    }
}

// ---------------------------------------------------------------------------
// The laws.
// ---------------------------------------------------------------------------

/// No `[*]` bullet marker survives normalization, for every input: each one
/// the first two paragraphs hold becomes `"  - "`, and the later passes never
/// splice a new one together.
pub proof fn lemma_no_marker_survives(raw: Seq<char>)
    ensures
        !contains_marker(normalize_spec(raw)),
{
    let u = lstrip(strip_tags_spec(clip_two_paragraphs(raw)));
    let b = bullets_spec(u);
    let w = wrap_spec(b);
    assert(normalize_spec(raw) == trim(w));
    if contains_marker(normalize_spec(raw)) {
        let p = choose|p: int| bullet_at(trim(w), p);
        let a = ws_prefix_end(w, 0);
        lemma_ws_prefix_end(w, 0);
        assert(a < w.len()) by {
            if a == w.len() {
                assert(trim(w).len() == 0);
            }
        }
        lemma_trim_bounds(w);
        lemma_marker_sub(w, a, ws_suffix_start(w, w.len() as int), p);
        let pw = choose|pw: int| bullet_at(w, pw);
        lemma_wrap_marker(b, pw);
        let pb = choose|pb: int| bullet_at(b, pb);
        lemma_bullets_no_marker(u, 0, pb);
    }
}

/// Nothing after the tag-removal pass introduces a markup tag: where that
/// single left-to-right pass leaves none in the first two paragraphs, the
/// normalized text holds none either.
pub proof fn lemma_no_tag_survives(raw: Seq<char>)
    requires
        !contains_tag(strip_tags_spec(clip_two_paragraphs(raw))),
    ensures
        !contains_tag(normalize_spec(raw)),
{
    let t = strip_tags_spec(clip_two_paragraphs(raw));
    let u = lstrip(t);
    let b = bullets_spec(u);
    let w = wrap_spec(b);
    assert(normalize_spec(raw) == trim(w));
    if contains_tag(normalize_spec(raw)) {
        let (p, q) = choose|p: int, q: int| tag_shape(trim(w), p, q);
        let a = ws_prefix_end(w, 0);
        lemma_ws_prefix_end(w, 0);
        assert(a < w.len()) by {
            if a == w.len() {
                assert(trim(w).len() == 0);
            }
        }
        lemma_trim_bounds(w);
        lemma_tag_sub(w, a, ws_suffix_start(w, w.len() as int), p, q);
        lemma_wrap_tag(b, a + p, a + q);
        let (pb, qb) = choose|pb: int, qb: int| tag_shape(b, pb, qb);
        lemma_bullets_tag(u, 0, pb, qb);
        let (pu, qu) = choose|pu: int, qu: int| tag_shape(u, pu, qu);
        let au = ws_prefix_end(t, 0);
        lemma_ws_prefix_end(t, 0);
        assert(u =~= t.subrange(au, t.len() as int));
        lemma_tag_sub(t, au, t.len() as int, pu, qu);
    }
}

/// The output depends on the raw text only through its first two paragraphs:
/// texts whose first two paragraphs agree normalize identically, so content
/// confined to the third or a later paragraph never shows in the output.
pub proof fn lemma_first_two_paragraphs_decide(x: Seq<char>, y: Seq<char>)
    requires
        clip_two_paragraphs(x) == clip_two_paragraphs(y),
    ensures
        normalize_spec(x) == normalize_spec(y),
{
}

/// A fetch right after another reuses no cursor: the session stores each
/// response's next-cursor token, so the follow-up fetch runs on that token,
/// and differs from the previous one whenever the service's token does.
pub proof fn lemma_cursor_advances(before: SearchQuery, after: SearchQuery, resp: CatalogResponse)
    requires
        after.cursor == resp.next_cursor,
        after.search_text == before.search_text,
    ensures
        resp.next_cursor@ != before.cursor@ ==> after.cursor@ != before.cursor@,
{
}

// ---------------------------------------------------------------------------
// Already-clean text is a fixed point.
// ---------------------------------------------------------------------------

/// Already-clean text, which normalization leaves alone: no blank-line
/// paragraph separator, no markup tag, no bullet marker, no leading or
/// trailing whitespace, and no stretch between line breaks longer than 100
/// characters.
pub open spec fn clean_text(s: Seq<char>) -> bool {
    &&& find_sep(s, 0) == s.len()
    &&& forall|i: int| tag_len_at(s, i) == 0
    &&& forall|i: int| !bullet_at(s, i)
    &&& s.len() > 0 ==> !is_ws(s[0]) && !is_ws(s[s.len() - 1])
    &&& forall|i: int| 0 <= i <= s.len() ==> (#[trigger] nonnl_run_end(s, i)) - i <= 100
}

proof fn lemma_strip_id(s: Seq<char>, i: int)
    requires
        0 <= i <= s.len(),
        forall|j: int| tag_len_at(s, j) == 0,
    ensures
        strip_tags_from(s, i) == s.skip(i),
    decreases s.len() - i,
{
    if i < s.len() {
        lemma_strip_id(s, i + 1);
        assert(strip_tags_from(s, i) =~= s.skip(i)) by {
            assert(seq![s[i]] + s.skip(i + 1) =~= s.skip(i));
        }
    } else {
        assert(strip_tags_from(s, i) =~= s.skip(i));
    }
}

proof fn lemma_bullets_id(s: Seq<char>, i: int)
    requires
        0 <= i <= s.len(),
        forall|j: int| !bullet_at(s, j),
    ensures
        replace_bullets_from(s, i) == s.skip(i),
    decreases s.len() - i,
{
    if i < s.len() {
        lemma_bullets_id(s, i + 1);
        assert(replace_bullets_from(s, i) =~= s.skip(i)) by {
            assert(seq![s[i]] + s.skip(i + 1) =~= s.skip(i));
        }
    } else {
        assert(replace_bullets_from(s, i) =~= s.skip(i));
    }
}

/// On clean text, from any line start, the wrap emits every line whole,
/// turning the one line break after it back into a line break; only the very
/// last line gains one, which the final trim takes away again.
proof fn lemma_wrap_id(s: Seq<char>, i: int)
    requires
        0 <= i <= s.len(),
        i == 0 || s[i - 1] == '\n',
        find_sep(s, 0) == s.len(),
        s.len() > 0 ==> !is_ws(s[0]),
        forall|j: int| 0 <= j <= s.len() ==> (#[trigger] nonnl_run_end(s, j)) - j <= 100,
    ensures
        i == s.len() ==> wrap_from(s, i) == Seq::<char>::empty(),
        i < s.len() ==> wrap_from(s, i) == s.skip(i) + (if s[s.len() - 1] == '\n' {
            Seq::<char>::empty()
        } else {
            seq!['\n']
        }),
    decreases s.len() - i,
{
    if i < s.len() {
        assert(s[i] != '\n') by {
            if s[i] == '\n' {
                if i == 0 {
                } else {
                    lemma_find_sep(s, 0);
                    assert(nl_len_at(s, i - 1) == 1);
                    assert(nl_len_at(s, i) == 1);
                    assert(sep_len_at(s, i - 1) == 2);
                }
            }
        }
        let r = nonnl_run_end(s, i) - i;
        lemma_nonnl_run_end(s, i);
        assert(chunk_ok(s, i, r)) by {
            if i + r < s.len() {
                assert(s[i + r] == '\n');
            }
        }
        assert(chunk_len_at(s, i) == r) by {
            assert((if r > 100 { 100int } else { r }) == r);
            assert(chunk_len_down(s, i, r) == r);
        }
        if i + r == s.len() {
            assert(s[s.len() - 1] != '\n');
            assert(wrap_from(s, s.len() as int) =~= Seq::<char>::empty());
            assert(wrap_from(s, i) =~= s.skip(i) + seq!['\n']);
        } else {
            lemma_wrap_id(s, i + r + 1);
            if i + r + 1 == s.len() {
                assert(s[s.len() - 1] == '\n');
                assert(wrap_from(s, i) =~= s.skip(i));
            } else {
                assert(wrap_from(s, i) =~= s.skip(i) + (if s[s.len() - 1] == '\n' {
                    Seq::<char>::empty()
                } else {
                    seq!['\n']
                }));
            }
        }
    }
}

/// Normalizing already-clean text changes nothing: the passes only remove
/// what clean text does not hold, and the wrap re-emits every line whole.
pub proof fn lemma_clean_identity(s: Seq<char>)
    requires
        clean_text(s),
    ensures
        normalize_spec(s) == s,
{
    assert(clip_two_paragraphs(s) == s);
    lemma_strip_id(s, 0);
    assert(strip_tags_spec(s) =~= s);
    assert(ws_prefix_end(s, 0) == 0);
    assert(lstrip(s) =~= s);
    lemma_bullets_id(s, 0);
    assert(bullets_spec(s) =~= s);
    if s.len() == 0 {
        assert(wrap_spec(s) =~= s);
        assert(trim(s) =~= s);
        assert(normalize_spec(s) =~= s);
    } else {
        lemma_wrap_id(s, 0);
        let w = wrap_spec(s);
        assert(w =~= s + seq!['\n']);
        assert(ws_prefix_end(w, 0) == 0) by {
            assert(w[0] == s[0]);
        }
        assert(ws_suffix_start(w, w.len() as int) == s.len() as int) by {
            assert(w[w.len() - 1] == '\n');
            assert(is_ws('\n'));
            assert(ws_suffix_start(w, w.len() as int) == ws_suffix_start(w, w.len() - 1));
            assert(w[s.len() - 1] == s[s.len() - 1]);
            assert(ws_suffix_start(w, w.len() - 1) == w.len() - 1);
        }
        assert(trim(w) =~= s);
        assert(normalize_spec(s) =~= s);
    }
}

// ---------------------------------------------------------------------------
// Line lengths.
// ---------------------------------------------------------------------------

/// `[p, q)` spans one whole line of `t`: it runs from the start of the text
/// or from right after a line break, up to a line break or the end of the
/// text, with no line break inside.
pub open spec fn line_span(t: Seq<char>, p: int, q: int) -> bool {
    &&& 0 <= p <= q <= t.len()
    &&& (p == 0 || t[p - 1] == '\n')
    &&& (q == t.len() || t[q] == '\n')
    &&& forall|m: int| p <= m < q ==> t[m] != '\n'
}

/// Start of the line of `t` that position `x` lies on.
spec fn line_start(t: Seq<char>, x: int) -> int
    decreases x,
{
    if 0 < x <= t.len() && t[x - 1] != '\n' {
        line_start(t, x - 1)
    } else {
        x
    }
}

proof fn lemma_line_start(t: Seq<char>, x: int)
    requires
        0 <= x <= t.len(),
    ensures
        0 <= line_start(t, x) <= x,
        line_start(t, x) > 0 ==> t[line_start(t, x) - 1] == '\n',
        forall|m: int| line_start(t, x) <= m < x ==> t[m] != '\n',
    decreases x,
{
    if 0 < x && t[x - 1] != '\n' {
        lemma_line_start(t, x - 1);
    }
}

/// The wrap never slides over a position whose following hundred characters
/// hold whitespace, so a character left alone sits in an overlong word.
proof fn lemma_slide_window(s: Seq<char>, i: int)
    requires
        0 <= i < s.len(),
        s[i] != '\n',
        chunk_len_at(s, i) == 0,
    ensures
        i + 100 < s.len(),
        forall|t: int| 1 <= t <= 100 ==> !is_ws(#[trigger] s[i + t]),
{
    lemma_nonnl_run_end(s, i);
    let r = nonnl_run_end(s, i) - i;
    assert(r > 100) by {
        // a shorter run ends at a line break or at the end, both of which
        // close a chunk, and then the chunk would not have been empty
        if r <= 100 {
            assert(chunk_ok(s, i, r)) by {
                if i + r < s.len() {
                    assert(s[i + r] == '\n');
                }
            }
            assert(chunk_len_down(s, i, r) == r);
        }
    }
    lemma_chunk_len_down(s, i, 100);
    assert forall|t: int| 1 <= t <= 100 implies !is_ws(#[trigger] s[i + t]) by {
        assert(!chunk_ok(s, i, t));
        assert(i + t != s.len());
    }
}

/// Every whole line of the wrapped text fits in a hundred characters, or
/// holds whitespace at most as its first character: an overlong line is one
/// unbreakable word, possibly indented by the single whitespace character
/// that opened it.
proof fn lemma_wrap_line(s: Seq<char>, i: int, p: int, q: int)
    requires
        0 <= i <= s.len(),
        line_span(wrap_from(s, i), p, q),
    ensures
        q - p <= 100 || (forall|m: int| p < m < q ==> !is_ws(wrap_from(s, i)[m])),
    decreases s.len() - i,
{
    let out = wrap_from(s, i);
    if i >= s.len() {
        assert(out.len() == 0);
    } else {
        let k = chunk_len_at(s, i);
        lemma_chunk_len_at(s, i);
        if k > 0 {
            let j = if i + k < s.len() {
                i + k + 1
            } else {
                i + k
            };
            let rest = wrap_from(s, j);
            assert(out[k] == '\n');
            assert forall|t: int| 0 <= t < rest.len() implies out[k + 1 + t] == rest[t] by {}
            if p <= k {
                assert(p == 0) by {
                    if p > 0 {
                        assert(out[p - 1] == s[i + (p - 1)]);
                    }
                }
                assert(q == k) by {
                    if q < k {
                        assert(out[q] == s[i + q]);
                    }
                }
            } else {
                assert(line_span(rest, p - (k + 1), q - (k + 1)));
                lemma_wrap_line(s, j, p - (k + 1), q - (k + 1));
                if q - p > 100 {
                    assert forall|m: int| p < m < q implies !is_ws(out[m]) by {
                        assert(out[m] == rest[m - (k + 1)]);
                    }
                }
            }
        } else {
            let rest = wrap_from(s, i + 1);
            assert forall|t: int| 0 <= t < rest.len() implies out[1 + t] == rest[t] by {}
            if p == 0 {
                if q > 0 {
                    assert(out[0] == s[i]);
                    assert(s[i] != '\n');
                    lemma_slide_window(s, i);
                    assert(line_span(rest, 0, q - 1));
                    if q - 1 <= 100 {
                        lemma_wrap_prefix(s, i + 1, q - 1);
                        assert forall|m: int| 0 < m < q implies !is_ws(out[m]) by {
                            assert(out[m] == rest[m - 1]);
                            assert(rest[m - 1] == s[i + 1 + (m - 1)]);
                            assert(!is_ws(s[i + m]));
                        }
                    } else {
                        lemma_wrap_line(s, i + 1, 0, q - 1);
                        lemma_wrap_prefix(s, i + 1, 1);
                        assert forall|m: int| 0 < m < q implies !is_ws(out[m]) by {
                            assert(out[m] == rest[m - 1]);
                            if m == 1 {
                                assert(rest[0] == s[i + 1]);
                                assert(!is_ws(s[i + 1]));
                            } else {
                                assert(!is_ws(rest[m - 1]));
                            }
                        }
                    }
                }
            } else {
                assert(line_span(rest, p - 1, q - 1));
                lemma_wrap_line(s, i + 1, p - 1, q - 1);
                if q - p > 100 {
                    assert forall|m: int| p < m < q implies !is_ws(out[m]) by {
                        assert(out[m] == rest[m - 1]);
                    }
                }
            }
        }
    }
}

/// Every line of the normalized text has at most 100 characters, except a
/// line carrying a single word longer than that, which is emitted unsplit:
/// an overlong line holds no whitespace past its first character.
pub proof fn lemma_line_lengths(raw: Seq<char>, p: int, q: int)
    requires
        line_span(normalize_spec(raw), p, q),
    ensures
        q - p <= 100 || (forall|m: int| p < m < q ==> !is_ws(normalize_spec(raw)[m])),
{
    let z = bullets_spec(lstrip(strip_tags_spec(clip_two_paragraphs(raw))));
    let w = wrap_spec(z);
    assert(normalize_spec(raw) == trim(w));
    let out = trim(w);
    if q > p {
        let a = ws_prefix_end(w, 0);
        lemma_ws_prefix_end(w, 0);
        assert(a < w.len()) by {
            if a == w.len() {
                assert(out.len() == 0);
            }
        }
        let b = ws_suffix_start(w, w.len() as int);
        lemma_trim_bounds(w);
        lemma_ws_suffix_start(w, w.len() as int);
        assert(out =~= w.subrange(a, b));
        assert forall|m: int| 0 <= m < out.len() implies out[m] == w[a + m] by {}
        // the whole line of `w` that the trimmed line sits on
        let ls = line_start(w, a + p);
        lemma_line_start(w, a + p);
        let le = nonnl_run_end(w, a + q);
        lemma_nonnl_run_end(w, a + q);
        assert(line_span(w, ls, le)) by {
            assert(a + q <= le);
            assert forall|m: int| ls <= m < le implies w[m] != '\n' by {
                if a + p <= m < a + q {
                    assert(out[m - a] != '\n');
                }
            }
            if p > 0 {
                assert(out[p - 1] == w[a + p - 1]);
                assert(ls == a + p) by {
                    if ls < a + p {
                        assert(w[a + p - 1] != '\n');
                    }
                }
            }
            if q < out.len() {
                assert(out[q] == w[a + q]);
                assert(le == a + q);
            }
        }
        lemma_wrap_line(z, 0, ls, le);
        assert(ls <= a + p && a + q <= le);
        if q - p > 100 {
            assert(le - ls > 100);
            assert forall|m: int| p < m < q implies !is_ws(out[m]) by {
                assert(out[m] == w[a + m]);
                assert(ls < a + m < le);
                assert(!is_ws(w[a + m]));
            }
        }
    }
}

/// The replacement text stands at `p` in `u`.
pub open spec fn hyphen_at(u: Seq<char>, p: int) -> bool {
    &&& 0 <= p
    &&& p + 4 <= u.len()
    &&& u[p] == ' '
    &&& u[p + 1] == ' '
    &&& u[p + 2] == '-'
    &&& u[p + 3] == ' '
}

/// Every `[*]` bullet marker of the bullet pass's input yields the
/// two-space-indented hyphen in its output. (Later passes may still consume
/// the indent: the wrap eats a space that ends a chunk, and the final trim
/// eats the indent of a bullet at the very start.)
pub proof fn lemma_bullet_becomes_hyphen(s: Seq<char>, t: int)
    requires
        bullet_at(s, t),
    ensures
        exists|p: int| hyphen_at(bullets_spec(s), p),
{
    lemma_bullet_emitted(s, 0, t);
    let p = choose|p: int| hyphen_at(replace_bullets_from(s, 0), p);
    assert(hyphen_at(bullets_spec(s), p));
}

proof fn lemma_bullet_emitted(s: Seq<char>, i: int, t: int)
    requires
        0 <= i <= t,
        bullet_at(s, t),
    ensures
        exists|p: int| hyphen_at(replace_bullets_from(s, i), p),
    decreases s.len() - i,
{
    let out = replace_bullets_from(s, i);
    if bullet_at(s, i) {
        if t == i {
            assert(hyphen_at(out, 0)) by {
                assert(out[0] == ' ' && out[1] == ' ' && out[2] == '-' && out[3] == ' ');
            }
        } else {
            // distinct markers never overlap
            assert(t >= i + 3) by {
                if t == i + 1 {
                    assert(s[i + 1] == '*' && s[t] == '[');
                }
                if t == i + 2 {
                    assert(s[i + 2] == ']' && s[t] == '[');
                }
            }
            lemma_bullet_emitted(s, i + 3, t);
            let rest = replace_bullets_from(s, i + 3);
            let p = choose|p: int| hyphen_at(rest, p);
            assert forall|m: int| 0 <= m < rest.len() implies out[4 + m] == rest[m] by {}
            assert(hyphen_at(out, p + 4));
        }
    } else {
        assert(t > i);
        lemma_bullet_emitted(s, i + 1, t);
        let rest = replace_bullets_from(s, i + 1);
        let p = choose|p: int| hyphen_at(rest, p);
        assert forall|m: int| 0 <= m < rest.len() implies out[1 + m] == rest[m] by {}
        assert(hyphen_at(out, p + 1));
    }
}

} // verus!



