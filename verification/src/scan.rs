//! Text scanning for the two patterns the decoders need: brace-delimited
//! blocks and quoted key/value pairs.
//!
//! The scanning itself is done by the `regex` crate; the spec functions
//! here state exactly which matches its left-to-right, non-overlapping
//! search yields for the two fixed patterns, so that everything built on
//! top of the scan is verified against that model.

use vstd::prelude::*;

verus! {

/// The characters matched by the pattern class `\s` (the Unicode
/// white-space property).
pub open spec fn is_space(c: char) -> bool {
    ('\t' <= c && c <= '\r') || c == ' ' || c == '\u{85}' || c == '\u{a0}' || c == '\u{1680}' || (
    '\u{2000}' <= c && c <= '\u{200a}') || c == '\u{2028}' || c == '\u{2029}' || c == '\u{202f}'
        || c == '\u{205f}' || c == '\u{3000}'
}

/// Index of the first occurrence of `c` in `s`, or `s.len()` when `s`
/// does not contain `c`.
pub open spec fn find_char(s: Seq<char>, c: char) -> int
    decreases s.len(),
{
    if s.len() == 0 {
        0
    } else if s[0] == c {
        0
    } else {
        1 + find_char(s.drop_first(), c)
    }
}

/// `find_char` is the position of the first occurrence.
pub broadcast proof fn lemma_find_char(s: Seq<char>, c: char)
    ensures
        0 <= #[trigger] find_char(s, c) <= s.len(),
        find_char(s, c) < s.len() ==> s[find_char(s, c)] == c,
        forall|i: int| 0 <= i < find_char(s, c) ==> s[i] != c,
    decreases s.len(),
{
    if s.len() != 0 && s[0] != c {
        lemma_find_char(s.drop_first(), c);
        assert forall|i: int| 0 <= i < find_char(s, c) implies s[i] != c by {
            if i > 0 {
                assert(s.drop_first()[i - 1] == s[i]);
            }
        }
    }
}

/// Number of white-space characters at the front of `s`.
pub open spec fn leading_spaces(s: Seq<char>) -> int
    decreases s.len(),
{
    if s.len() == 0 {
        0
    } else if is_space(s[0]) {
        1 + leading_spaces(s.drop_first())
    } else {
        0
    }
}

/// `leading_spaces` counts exactly the white-space prefix.
pub broadcast proof fn lemma_leading_spaces(s: Seq<char>)
    ensures
        0 <= #[trigger] leading_spaces(s) <= s.len(),
        leading_spaces(s) < s.len() ==> !is_space(s[leading_spaces(s)]),
        forall|i: int| 0 <= i < leading_spaces(s) ==> is_space(s[i]),
    decreases s.len(),
{
    if s.len() != 0 && is_space(s[0]) {
        lemma_leading_spaces(s.drop_first());
        assert forall|i: int| 0 <= i < leading_spaces(s) implies is_space(s[i]) by {
            if i > 0 {
                assert(s.drop_first()[i - 1] == s[i]);
            }
        }
    }
}

/// The match of the quoted-pair pattern anchored at the start of `s`
/// (whose first character is `"`): the key, the value, and the index just
/// past the match; `None` when no match starts here.
///
/// A match is `"`, one or more non-quote characters, `"`, any white
/// space, `"`, one or more non-quote characters, `"`.
pub open spec fn pair_at(s: Seq<char>) -> Option<(Seq<char>, Seq<char>, int)>
    recommends
        s.len() > 0,
        s[0] == '"',
{
    let j = find_char(s.drop_first(), '"');
    if j >= s.len() - 1 || j < 1 {
        None
    } else {
        let t = s.subrange(2 + j, s.len() as int);
        let w = leading_spaces(t);
        if w >= t.len() || t[w] != '"' {
            None
        } else {
            let u = t.subrange(w + 1, t.len() as int);
            let m = find_char(u, '"');
            if m >= u.len() || m < 1 {
                None
            } else {
                Some((s.subrange(1, 1 + j), u.subrange(0, m), 2 + j + w + 1 + m + 1))
            }
        }
    }
}

/// All quoted key/value pairs of `s`, in scan order: the leftmost match
/// of the quoted-pair pattern is taken, and scanning resumes just past
/// it.
pub open spec fn quoted_pairs(s: Seq<char>) -> Seq<(Seq<char>, Seq<char>)>
    decreases s.len(),
    via quoted_pairs_decreases
{
    if s.len() == 0 {
        Seq::empty()
    } else if s[0] == '"' {
        match pair_at(s) {
            Some((k, v, end)) => seq![(k, v)] + quoted_pairs(s.subrange(end, s.len() as int)),
            None => quoted_pairs(s.drop_first()),
        }
    } else {
        quoted_pairs(s.drop_first())
    }
}

#[via_fn]
proof fn quoted_pairs_decreases(s: Seq<char>) {
    if s.len() != 0 && s[0] == '"' {
        lemma_find_char(s.drop_first(), '"');
        let j = find_char(s.drop_first(), '"');
        if 1 <= j < s.len() - 1 {
            let t = s.subrange(2 + j, s.len() as int);
            lemma_leading_spaces(t);
            let w = leading_spaces(t);
            if w < t.len() && t[w] == '"' {
                let u = t.subrange(w + 1, t.len() as int);
                lemma_find_char(u, '"');
            }
        }
    }
}

/// All brace blocks of `s`, in scan order: a block runs from a `{` to the
/// nearest following `}` (its interior may hold further `{`, but no `}`),
/// and scanning resumes just past the closing brace.
pub open spec fn brace_blocks(s: Seq<char>) -> Seq<Seq<char>>
    decreases s.len(),
    via brace_blocks_decreases
{
    if s.len() == 0 {
        Seq::empty()
    } else if s[0] == '{' {
        let j = find_char(s.drop_first(), '}');
        if j >= s.len() - 1 {
            Seq::empty()
        } else {
            seq![s.subrange(1, 1 + j)] + brace_blocks(s.subrange(2 + j, s.len() as int))
        }
    } else {
        brace_blocks(s.drop_first())
    }
}

#[via_fn]
proof fn brace_blocks_decreases(s: Seq<char>) {
    if s.len() != 0 && s[0] == '{' {
        lemma_find_char(s.drop_first(), '}');
    }
}

/// A text without `{` holds no block.
proof fn lemma_brace_blocks_none(s: Seq<char>)
    requires
        !s.contains('{'),
    ensures
        brace_blocks(s) == Seq::<Seq<char>>::empty(),
    decreases s.len(),
{
    if s.len() > 0 {
        assert(s[0] != '{');
        assert forall|i: int| 0 <= i < s.drop_first().len() implies s.drop_first()[i] != '{' by {
            assert(s.drop_first()[i] == s[i + 1]);
        }
        lemma_brace_blocks_none(s.drop_first());
    }
}

/// A prefix without `{` contributes no block.
proof fn lemma_brace_blocks_prefix(sep: Seq<char>, s: Seq<char>)
    requires
        !sep.contains('{'),
    ensures
        brace_blocks(sep + s) == brace_blocks(s),
    decreases sep.len(),
{
    if sep.len() == 0 {
        assert(sep + s =~= s);
    } else {
        let t = sep + s;
        assert(t[0] == sep[0]);
        assert(sep[0] != '{');
        assert(t.drop_first() =~= sep.drop_first() + s);
        assert forall|i: int| 0 <= i < sep.drop_first().len() implies sep.drop_first()[i]
            != '{' by {
            assert(sep.drop_first()[i] == sep[i + 1]);
        }
        lemma_brace_blocks_prefix(sep.drop_first(), s);
    }
}

/// One block at the front: a `{`, a body without `}`, and the `}`
/// closing it; scanning resumes after the closing brace.
proof fn lemma_brace_blocks_step(body: Seq<char>, rest: Seq<char>)
    requires
        !body.contains('}'),
    ensures
        brace_blocks(seq!['{'] + body + seq!['}'] + rest) == seq![body] + brace_blocks(rest),
{
    let s = seq!['{'] + body + seq!['}'] + rest;
    assert(s[0] == '{');
    let d = s.drop_first();
    assert(d =~= body + seq!['}'] + rest);
    lemma_find_char(d, '}');
    let j = find_char(d, '}');
    assert(d[body.len() as int] == '}');
    if j < body.len() {
        assert(d[j] == body[j]);
        assert(body[j] == '}');
        assert(body.contains('}'));
    }
    assert(j == body.len());
    assert(s.subrange(1, 1 + j) =~= body);
    assert(s.subrange(2 + j, s.len() as int) =~= rest);
    assert(brace_blocks(s) == seq![body] + brace_blocks(rest));
}

/// The text of a list of brace blocks: before each block a separator,
/// after the last block a tail.
pub open spec fn blocks_text(seps: Seq<Seq<char>>, bodies: Seq<Seq<char>>, tail: Seq<char>) -> Seq<
    char,
>
    recommends
        seps.len() == bodies.len(),
    decreases bodies.len(),
{
    if bodies.len() == 0 {
        tail
    } else {
        seps.first() + (seq!['{'] + bodies.first() + seq!['}'] + blocks_text(
            seps.drop_first(),
            bodies.drop_first(),
            tail,
        ))
    }
}

/// Law: a text holding `K` non-nested brace blocks — `K` bodies free
/// of `}`, between separators and a tail free of `{` — scans to
/// exactly those `K` bodies, in order.
pub proof fn lemma_brace_blocks_structure(
    seps: Seq<Seq<char>>,
    bodies: Seq<Seq<char>>,
    tail: Seq<char>,
)
    requires
        seps.len() == bodies.len(),
        forall|i: int| 0 <= i < seps.len() ==> !(#[trigger] seps[i]).contains('{'),
        forall|i: int| 0 <= i < bodies.len() ==> !(#[trigger] bodies[i]).contains('}'),
        !tail.contains('{'),
    ensures
        brace_blocks(blocks_text(seps, bodies, tail)) == bodies,
    decreases bodies.len(),
{
    if bodies.len() == 0 {
        lemma_brace_blocks_none(tail);
        assert(brace_blocks(blocks_text(seps, bodies, tail)) =~= bodies);
    } else {
        let rest = blocks_text(seps.drop_first(), bodies.drop_first(), tail);
        assert(seps[0] == seps.first());
        assert(bodies[0] == bodies.first());
        lemma_brace_blocks_prefix(seps.first(), seq!['{'] + bodies.first() + seq!['}'] + rest);
        lemma_brace_blocks_step(bodies.first(), rest);
        assert(forall|i: int|
            0 <= i < seps.drop_first().len() ==> (#[trigger] seps.drop_first()[i]) == seps[i + 1]);
        assert(forall|i: int|
            0 <= i < bodies.drop_first().len() ==> (#[trigger] bodies.drop_first()[i]) == bodies[
                i + 1
            ]);
        lemma_brace_blocks_structure(seps.drop_first(), bodies.drop_first(), tail);
        assert(seq![bodies.first()] + bodies.drop_first() =~= bodies);
    }
}

/// Relies on `regex::Regex::new` and `Regex::captures_iter` with the
/// fixed pattern `\{([^}]*)\}`. The pattern is valid and far under the
/// engine's default limits, so building it always succeeds and the
/// result is always present. The non-overlapping left-to-right matches
/// capture, for each `{` reached by the scan, the text up to the
/// nearest following `}`, which is what `brace_blocks` states.
#[verifier::external_body]
pub fn scan_brace_blocks(text: &str) -> (r: Option<Vec<String>>)
    ensures
        r is Some,
        r matches Some(blocks) ==> blocks.deep_view() == brace_blocks(text@),
{
    let re = match regex::Regex::new(r"\{([^}]*)\}") {
        Ok(re) => re,
        Err(_) => return None,
    };
    Some(re.captures_iter(text).map(|c| c[1].to_string()).collect())
}

/// Relies on `regex::Regex::new` and `Regex::captures_iter` with the
/// fixed pattern `"([^"]+)"\s*"([^"]+)"`. The pattern is valid and far
/// under the engine's default limits, so building it always succeeds
/// and the result is always present. The non-overlapping left-to-right
/// matches are the quoted key/value pairs that `quoted_pairs` states.
#[verifier::external_body]
pub fn scan_quoted_pairs(text: &str) -> (r: Option<Vec<(String, String)>>)
    ensures
        r is Some,
        r matches Some(ps) ==> ps.deep_view() == quoted_pairs(text@),
{
    let re = match regex::Regex::new(r#""([^"]+)"\s*"([^"]+)""#) {
        Ok(re) => re,
        Err(_) => return None,
    };
    Some(re.captures_iter(text).map(|c| (c[1].to_string(), c[2].to_string())).collect())
}

} // verus!
