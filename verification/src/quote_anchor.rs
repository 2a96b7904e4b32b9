//! Locating a rendered quote inside raw Markdown, so that an inline annotation
//! marker `(quote)[#id]` can replace it.
//!
//! Positions are character indices.

use vstd::prelude::*;
use crate::text::{
    is_ws, trim_start, starts_with, find, find_from, str_chars, chars_to_string, slice_range,
    push_all, push_range, push_str, find_vec, find_vec_from, matches_at, lemma_find_from_bounds,
    is_whitespace, views, lemma_views_push, skip_ws, occurs_at,
};
use crate::store::{spec_strip_comments_section, comments_section_start};

verus! {

// ---------------------------------------------------------------------------
// Stripping inline formatting
// ---------------------------------------------------------------------------

/// A formatting marker of one character.
pub open spec fn is_marker(c: char) -> bool {
    c == '*' || c == '_' || c == '`'
}

/// A doubled formatting marker (`**`, `__`, `~~`) starts at `pos`.
pub open spec fn double_marker_at(raw: Seq<char>, pos: int) -> bool {
    0 <= pos && pos + 2 <= raw.len() && raw[pos] == raw[pos + 1] && (raw[pos] == '*' || raw[pos]
        == '_' || raw[pos] == '~')
}

/// `raw` from `pos` on without inline formatting markers, `'\n'` read as `' '`,
/// with the index in `raw` of each character kept.
pub open spec fn strip_from(raw: Seq<char>, pos: int) -> (Seq<char>, Seq<int>)
    decreases raw.len() - pos,
{
    if pos < 0 || pos >= raw.len() {
        (Seq::empty(), Seq::empty())
    } else if double_marker_at(raw, pos) {
        strip_from(raw, pos + 2)
    } else if is_marker(raw[pos]) {
        strip_from(raw, pos + 1)
    } else {
        let rest = strip_from(raw, pos + 1);
        (seq![if raw[pos] == '\n' { ' ' } else { raw[pos] }] + rest.0, seq![pos] + rest.1)
    }
}

/// The text of `raw` without inline formatting, and for each of its characters
/// the index it stands at in `raw`.
pub open spec fn spec_strip_inline_markdown(raw: Seq<char>) -> (Seq<char>, Seq<int>) {
    strip_from(raw, 0)
}

proof fn lemma_strip_from(raw: Seq<char>, pos: int)
    requires
        0 <= pos,
    ensures
        strip_from(raw, pos).0.len() == strip_from(raw, pos).1.len(),
        forall|k: int|
            0 <= k < strip_from(raw, pos).1.len() ==> pos <= #[trigger] strip_from(raw, pos).1[k]
                < raw.len(),
    decreases raw.len() - pos,
{
    if pos < raw.len() {
        if double_marker_at(raw, pos) {
            lemma_strip_from(raw, pos + 2);
        } else if is_marker(raw[pos]) {
            lemma_strip_from(raw, pos + 1);
        } else {
            lemma_strip_from(raw, pos + 1);
            let rest = strip_from(raw, pos + 1);
            assert forall|k: int| 0 <= k < strip_from(raw, pos).1.len() implies pos
                <= #[trigger] strip_from(raw, pos).1[k] < raw.len() by {
                if k > 0 {
                    assert(strip_from(raw, pos).1[k] == rest.1[k - 1]);
                }
            }
        }
    }
}

/// Strip inline Markdown formatting (`**`, `__`, `~~`, `*`, `_`, `` ` ``) from
/// `raw`, normalising `\n` to space. Returns (stripped_text, char_map) where
/// `char_map[i]` is the index in `raw` of the i-th character of `stripped_text`.
pub fn strip_inline_markdown(raw: &[char]) -> (r: (Vec<char>, Vec<usize>))
    ensures
        r.0@ == spec_strip_inline_markdown(raw@).0,
        r.1@.map_values(|x: usize| x as int) == spec_strip_inline_markdown(raw@).1,
        r.0@.len() == r.1@.len(),
        forall|k: int| 0 <= k < r.1@.len() ==> r.1@[k] < raw@.len(),
{
    let mut stripped: Vec<char> = Vec::new();
    let mut char_map: Vec<usize> = Vec::new();
    let mut pos: usize = 0;
    proof {
        lemma_strip_from(raw@, 0);
    }
    assert(stripped@ + strip_from(raw@, 0).0 =~= strip_from(raw@, 0).0);
    assert(char_map@.map_values(|x: usize| x as int) + strip_from(raw@, 0).1 =~= strip_from(raw@, 0).1);
    while pos < raw.len()
        invariant
            pos <= raw@.len(),
            stripped@ + strip_from(raw@, pos as int).0 == strip_from(raw@, 0).0,
            char_map@.map_values(|x: usize| x as int) + strip_from(raw@, pos as int).1 == strip_from(
                raw@,
                0,
            ).1,
            stripped@.len() == char_map@.len(),
            forall|k: int| 0 <= k < char_map@.len() ==> char_map@[k] < raw@.len(),
        decreases raw@.len() - pos,
    {
        let c = raw[pos];
        if pos + 1 < raw.len() && raw[pos + 1] == c && (c == '*' || c == '_' || c == '~') {
            pos = pos + 2;
        } else if c == '*' || c == '_' || c == '`' {
            pos = pos + 1;
        } else {
            let ghost old_s = stripped@;
            let ghost old_m = char_map@;
            let d = if c == '\n' {
                ' '
            } else {
                c
            };
            stripped.push(d);
            char_map.push(pos);
            let ghost rest = strip_from(raw@, pos + 1);
            assert(strip_from(raw@, pos as int).0 == seq![d] + rest.0);
            assert(stripped@ + rest.0 =~= old_s + (seq![d] + rest.0));
            assert(char_map@.map_values(|x: usize| x as int) =~= old_m.map_values(|x: usize| x as int).push(
                pos as int,
            ));
            assert(char_map@.map_values(|x: usize| x as int) + rest.1 =~= old_m.map_values(
                |x: usize| x as int,
            ) + (seq![pos as int] + rest.1));
            pos = pos + 1;
        }
    }
    assert(stripped@ + Seq::<char>::empty() =~= stripped@);
    assert(char_map@.map_values(|x: usize| x as int) + Seq::<int>::empty() =~= char_map@.map_values(
        |x: usize| x as int,
    ));
    (stripped, char_map)
}

// ---------------------------------------------------------------------------
// Mapping back to the raw text
// ---------------------------------------------------------------------------

/// `pos` moved back over a formatting marker that ends there.
pub open spec fn spec_absorb_preceding(raw: Seq<char>, pos: int) -> int {
    if pos >= 2 && double_marker_at(raw, pos - 2) {
        pos - 2
    } else if pos >= 1 && pos <= raw.len() && is_marker(raw[pos - 1]) {
        pos - 1
    } else {
        pos
    }
}

/// `pos` moved forward over a formatting marker that starts there.
pub open spec fn spec_absorb_following(raw: Seq<char>, pos: int) -> int {
    if double_marker_at(raw, pos) {
        pos + 2
    } else if 0 <= pos && pos + 1 <= raw.len() && is_marker(raw[pos]) {
        pos + 1
    } else {
        pos
    }
}

/// The raw index of the stripped character `k`, or `raw.len()` past the end.
pub open spec fn raw_index(map: Seq<int>, k: int, raw_len: int) -> int {
    if 0 <= k < map.len() {
        map[k]
    } else {
        raw_len
    }
}

/// The raw range of the stripped range `[start, end)`, widened over adjacent markers.
pub open spec fn spec_map_to_raw(start: int, end: int, map: Seq<int>, raw: Seq<char>) -> (int, int) {
    (
        spec_absorb_preceding(raw, raw_index(map, start, raw.len() as int)),
        spec_absorb_following(raw, raw_index(map, end, raw.len() as int)),
    )
}

fn absorb_preceding_markers(raw: &[char], pos: usize) -> (r: usize)
    requires
        pos <= raw@.len(),
    ensures
        r == spec_absorb_preceding(raw@, pos as int),
        r <= pos,
{
    if pos >= 2 {
        let a = raw[pos - 2];
        if raw[pos - 1] == a && (a == '*' || a == '_' || a == '~') {
            return pos - 2;
        }
    }
    if pos >= 1 {
        let one = raw[pos - 1];
        if one == '*' || one == '_' || one == '`' {
            return pos - 1;
        }
    }
    pos
}

fn absorb_following_markers(raw: &[char], pos: usize) -> (r: usize)
    requires
        pos <= raw@.len(),
    ensures
        r == spec_absorb_following(raw@, pos as int),
        pos <= r <= raw@.len(),
{
    if raw.len() - pos >= 2 {
        let a = raw[pos];
        if raw[pos + 1] == a && (a == '*' || a == '_' || a == '~') {
            return pos + 2;
        }
    }
    if pos < raw.len() {
        let one = raw[pos];
        if one == '*' || one == '_' || one == '`' {
            return pos + 1;
        }
    }
    pos
}

/// Map a (stripped_start, stripped_end) range back to raw positions, then widen
/// raw_start/raw_end to absorb immediately-adjacent formatting markers.
fn map_to_raw(stripped_start: usize, stripped_end: usize, char_map: &[usize], raw: &[char]) -> (r: (
    usize,
    usize,
))
    requires
        forall|k: int| 0 <= k < char_map@.len() ==> char_map@[k] < raw@.len(),
    ensures
        (r.0 as int, r.1 as int) == spec_map_to_raw(
            stripped_start as int,
            stripped_end as int,
            char_map@.map_values(|x: usize| x as int),
            raw@,
        ),
        r.0 <= raw@.len(),
        r.1 <= raw@.len(),
{
    let raw_start = if stripped_start < char_map.len() {
        char_map[stripped_start]
    } else {
        raw.len()
    };
    let raw_end = if stripped_end < char_map.len() {
        char_map[stripped_end]
    } else {
        raw.len()
    };
    (absorb_preceding_markers(raw, raw_start), absorb_following_markers(raw, raw_end))
}

// ---------------------------------------------------------------------------
// Finding the quote
// ---------------------------------------------------------------------------

/// The index of the first whitespace character of `s`, or its length.
pub open spec fn first_ws(s: Seq<char>) -> int
    decreases s.len(),
{
    if s.len() == 0 {
        0
    } else if is_ws(s[0]) {
        0
    } else {
        1 + first_ws(s.drop_first())
    }
}

pub proof fn lemma_first_ws(s: Seq<char>)
    ensures
        0 <= first_ws(s) <= s.len(),
        forall|j: int| 0 <= j < first_ws(s) ==> !is_ws(#[trigger] s[j]),
        first_ws(s) < s.len() ==> is_ws(s[first_ws(s)]),
    decreases s.len(),
{
    if s.len() > 0 && !is_ws(s[0]) {
        lemma_first_ws(s.drop_first());
        assert forall|j: int| 0 <= j < first_ws(s) implies !is_ws(#[trigger] s[j]) by {
            if j > 0 {
                assert(s[j] == s.drop_first()[j - 1]);
            }
        }
    }
}

pub proof fn lemma_trim_start_len(s: Seq<char>)
    ensures
        trim_start(s).len() <= s.len(),
        trim_start(s).len() > 0 ==> !is_ws(trim_start(s)[0]),
        s.skip(s.len() - trim_start(s).len()) == trim_start(s),
        forall|j: int| 0 <= j < s.len() - trim_start(s).len() ==> is_ws(#[trigger] s[j]),
    decreases s.len(),
{
    if s.len() > 0 && is_ws(s[0]) {
        lemma_trim_start_len(s.drop_first());
        assert(s.skip(s.len() - trim_start(s).len()) =~= s.drop_first().skip(
            s.drop_first().len() - trim_start(s.drop_first()).len(),
        ));
        assert forall|j: int| 0 <= j < s.len() - trim_start(s).len() implies is_ws(#[trigger] s[j]) by {
            if j > 0 {
                assert(s[j] == s.drop_first()[j - 1]);
            }
        }
    } else {
        assert(s.skip(0) =~= s);
    }
}

/// The words of `s` (`str::split_whitespace`).
pub open spec fn words(s: Seq<char>) -> Seq<Seq<char>>
    decreases s.len(),
{
    let t = trim_start(s);
    if t.len() == 0 {
        Seq::empty()
    } else {
        proof {
            lemma_trim_start_len(s);
            lemma_first_ws(t);
        }
        let k = first_ws(t);
        seq![t.take(k)] + words(t.skip(k))
    }
}

/// The number of leading whitespace characters of `s`.
pub open spec fn leading_ws(s: Seq<char>) -> int {
    s.len() - trim_start(s).len()
}

/// Where matching `parts[i..]` from `cursor` ends, each part preceded by some
/// whitespace.
pub open spec fn match_parts(st: Seq<char>, parts: Seq<Seq<char>>, i: int, cursor: int) -> Option<int>
    decreases parts.len() - i,
{
    if i < 0 || i >= parts.len() {
        Some(cursor)
    } else {
        let ws = leading_ws(st.skip(cursor));
        if ws == 0 {
            None
        } else if !starts_with(st.skip(cursor + ws), parts[i]) {
            None
        } else {
            match_parts(st, parts, i + 1, cursor + ws + parts[i].len())
        }
    }
}

/// The first match, from index `from` on, of the words `parts` separated by
/// whitespace of any kind and length.
pub open spec fn search_words(st: Seq<char>, parts: Seq<Seq<char>>, from: int) -> Option<(int, int)>
    decreases st.len() + 1 - from,
{
    if from < 0 || from >= st.len() || parts.len() == 0 {
        None
    } else {
        match find_from(st, parts[0], from) {
            None => None,
            Some(abs) => match match_parts(st, parts, 1, abs + parts[0].len()) {
                Some(c) => Some((abs, c)),
                None => {
                    proof {
                        lemma_find_from_bounds(st, parts[0], from);
                    }
                    search_words(st, parts, abs + 1)
                },
            },
        }
    }
}

/// Where `rendered_quote` stands in `raw`, ignoring inline formatting markers,
/// or else with any whitespace read as any whitespace.
pub open spec fn spec_find_in_markdown(raw: Seq<char>, quote: Seq<char>) -> Option<(int, int)> {
    let (st, map) = spec_strip_inline_markdown(raw);
    match find(st, quote) {
        Some(start) => Some(spec_map_to_raw(start, start + quote.len(), map, raw)),
        None => {
            let parts = words(quote);
            if parts.len() == 0 {
                None
            } else {
                match search_words(st, parts, 0) {
                    Some((a, c)) => Some(spec_map_to_raw(a, c, map, raw)),
                    None => None,
                }
            }
        },
    }
}

proof fn lemma_strip_from_sorted(raw: Seq<char>, pos: int)
    requires
        0 <= pos,
    ensures
        forall|i: int, j: int|
            0 <= i < j < strip_from(raw, pos).1.len() ==> #[trigger] strip_from(raw, pos).1[i]
                < #[trigger] strip_from(raw, pos).1[j],
    decreases raw.len() - pos,
{
    if pos < raw.len() {
        if double_marker_at(raw, pos) {
            lemma_strip_from_sorted(raw, pos + 2);
            assert(strip_from(raw, pos) == strip_from(raw, pos + 2));
        } else if is_marker(raw[pos]) {
            lemma_strip_from_sorted(raw, pos + 1);
            assert(strip_from(raw, pos) == strip_from(raw, pos + 1));
        } else {
            lemma_strip_from_sorted(raw, pos + 1);
            lemma_strip_from(raw, pos + 1);
            let rest = strip_from(raw, pos + 1).1;
            let m = strip_from(raw, pos).1;
            assert(m =~= seq![pos] + rest);
            assert forall|i: int, j: int| 0 <= i < j < m.len() implies #[trigger] m[i] < #[trigger] m[j] by {
                assert(m[j] == rest[j - 1]);
                assert(pos + 1 <= rest[j - 1]);
                if i > 0 {
                    assert(m[i] == rest[i - 1]);
                    assert(rest[i - 1] < rest[j - 1]);
                } else {
                    assert(m[i] == pos);
                }
            }
        }
    }
}

proof fn lemma_match_parts_ge(st: Seq<char>, parts: Seq<Seq<char>>, i: int, cursor: int)
    ensures
        match_parts(st, parts, i, cursor) matches Some(c) ==> c >= cursor,
    decreases parts.len() - i,
{
    if 0 <= i < parts.len() {
        let ws = leading_ws(st.skip(cursor));
        lemma_trim_start_len(st.skip(cursor));
        if ws != 0 && starts_with(st.skip(cursor + ws), parts[i]) {
            lemma_match_parts_ge(st, parts, i + 1, cursor + ws + parts[i].len());
        }
    }
}

proof fn lemma_search_words_ordered(st: Seq<char>, parts: Seq<Seq<char>>, from: int)
    ensures
        search_words(st, parts, from) matches Some((a, c)) ==> 0 <= a <= c,
    decreases st.len() + 1 - from,
{
    if 0 <= from < st.len() && parts.len() > 0 {
        lemma_find_from_bounds(st, parts[0], from);
        if let Some(abs) = find_from(st, parts[0], from) {
            lemma_match_parts_ge(st, parts, 1, abs + parts[0].len());
            if match_parts(st, parts, 1, abs + parts[0].len()) is None {
                lemma_search_words_ordered(st, parts, abs + 1);
            }
        }
    }
}

/// A range found for a quote never ends before it starts.
proof fn lemma_find_in_markdown_ordered(raw: Seq<char>, quote: Seq<char>)
    ensures
        spec_find_in_markdown(raw, quote) matches Some((a, b)) ==> a <= b,
{
    let (st, map) = spec_strip_inline_markdown(raw);
    lemma_strip_from(raw, 0);
    lemma_strip_from_sorted(raw, 0);
    let (start, end) = match find(st, quote) {
        Some(k) => {
            lemma_find_from_bounds(st, quote, 0);
            (k, k + quote.len())
        },
        None => {
            lemma_search_words_ordered(st, words(quote), 0);
            match search_words(st, words(quote), 0) {
                Some((a, c)) => (a, c),
                None => (0, 0),
            }
        },
    };
    let n = raw.len() as int;
    let p = raw_index(map, start, n);
    let q = raw_index(map, end, n);
    if 0 <= start < map.len() && 0 <= end < map.len() && start < end {
        assert(map[start] < map[end]);
    }
    assert(start >= 0 ==> p <= q);
}


/// `str::split_whitespace`.
pub fn split_whitespace(s: &[char]) -> (r: Vec<Vec<char>>)
    ensures
        views(r@) == words(s@),
{
    let mut out: Vec<Vec<char>> = Vec::new();
    let mut pos: usize = 0;
    assert(s@.skip(0) =~= s@);
    assert(views(out@) =~= Seq::<Seq<char>>::empty());
    while pos < s.len()
        invariant
            pos <= s@.len(),
            views(out@) + words(s@.skip(pos as int)) == words(s@),
        decreases s@.len() - pos,
    {
        let ghost rest = s@.skip(pos as int);
        let mut b = pos;
        while b < s.len() && is_whitespace(s[b])
            invariant
                pos <= b <= s@.len(),
                trim_start(rest) == trim_start(s@.skip(b as int)),
            decreases s@.len() - b,
        {
            assert(s@.skip(b as int).drop_first() =~= s@.skip(b + 1));
            b = b + 1;
        }
        if b == s.len() {
            assert(s@.skip(b as int) =~= Seq::<char>::empty());
            assert(words(rest) == Seq::<Seq<char>>::empty());
            assert(views(out@) + Seq::<Seq<char>>::empty() =~= views(out@));
            assert(s@.skip(s@.len() as int) =~= Seq::<char>::empty());
            pos = b;
        } else {
            let ghost t = s@.skip(b as int);
            assert(trim_start(t) == t);
            let mut e = b;
            while e < s.len() && !is_whitespace(s[e])
                invariant
                    b <= e <= s@.len(),
                    t == s@.skip(b as int),
                    first_ws(t) == (e - b) + first_ws(s@.skip(e as int)),
                decreases s@.len() - e,
            {
                assert(s@.skip(e as int).drop_first() =~= s@.skip(e + 1));
                e = e + 1;
            }
            let word = slice_range(s, b, e);
            proof {
                assert(first_ws(t) == e - b);
                assert(word@ =~= t.take(e - b));
                assert(t.skip(e - b) =~= s@.skip(e as int));
                lemma_views_push(out@, word);
            }
            let ghost before = views(out@);
            out.push(word);
            assert(words(rest) == seq![word@] + words(s@.skip(e as int)));
            assert(before + words(rest) =~= views(out@) + words(s@.skip(e as int)));
            pos = e;
        }
    }
    assert(s@.skip(pos as int) =~= Seq::<char>::empty());
    assert(views(out@) + Seq::<Seq<char>>::empty() =~= views(out@));
    out
}


/// Where matching the words `parts[1..]` from `cursor` ends, as `match_parts` says.
fn match_parts_exec(st: &[char], parts: &Vec<Vec<char>>, cursor0: usize) -> (r: Option<usize>)
    requires
        cursor0 <= st@.len(),
    ensures
        r matches Some(c) ==> match_parts(st@, views(parts@), 1, cursor0 as int) == Some(c as int) && c
            <= st@.len(),
        r is None ==> match_parts(st@, views(parts@), 1, cursor0 as int) is None,
{
    let ghost pv = views(parts@);
    let mut i: usize = 1;
    let mut cursor = cursor0;
    if parts.len() <= 1 {
        return Some(cursor0);
    }
    while i < parts.len()
        invariant
            pv == views(parts@),
            1 <= i <= parts@.len(),
            cursor <= st@.len(),
            match_parts(st@, pv, 1, cursor0 as int) == match_parts(st@, pv, i as int, cursor as int),
        decreases parts@.len() - i,
    {
        let r = skip_ws(st, cursor, st.len());
        proof {
            assert(st@.subrange(cursor as int, st@.len() as int) =~= st@.skip(cursor as int));
            assert(leading_ws(st@.skip(cursor as int)) == r - cursor);
        }
        if r == cursor {
            return None;
        }
        let part = &parts[i];
        assert(pv[i as int] == part@);
        let ok = matches_at(st, r, part);
        proof {
            if r + part@.len() <= st@.len() {
                assert(st@.skip(r as int).take(part@.len() as int) =~= st@.subrange(
                    r as int,
                    r + part@.len(),
                ));
            }
        }
        if !ok {
            return None;
        }
        cursor = r + part.len();
        i = i + 1;
    }
    Some(cursor)
}

fn search_words_exec(st: &[char], parts: &Vec<Vec<char>>) -> (r: Option<(usize, usize)>)
    requires
        parts@.len() > 0,
    ensures
        r matches Some((a, c)) ==> search_words(st@, views(parts@), 0) == Some((a as int, c as int))
            && c <= st@.len(),
        r is None ==> search_words(st@, views(parts@), 0) is None,
{
    let ghost pv = views(parts@);
    let first = &parts[0];
    assert(pv[0] == first@);
    let mut from: usize = 0;
    while from < st.len()
        invariant
            pv == views(parts@),
            parts@.len() > 0,
            pv[0] == first@,
            from <= st@.len(),
            search_words(st@, pv, 0) == search_words(st@, pv, from as int),
        decreases st@.len() - from,
    {
        proof {
            lemma_find_from_bounds(st@, first@, from as int);
        }
        match find_vec_from(st, first, from) {
            None => {
                return None;
            },
            Some(abs) => {
                let c0 = abs + first.len();
                match match_parts_exec(st, parts, c0) {
                    Some(c) => {
                        return Some((abs, c));
                    },
                    None => {
                        proof {
                            if first@.len() == 0 {
                                assert(st@.subrange(from as int, from as int) =~= first@);
                                assert(occurs_at(st@, first@, from as int));
                            }
                        }
                        from = abs + 1;
                    },
                }
            },
        }
    }
    None
}

/// Find `rendered_quote` in `raw` markdown, ignoring inline formatting markers
/// and treating any whitespace as equivalent to any whitespace.
/// Returns the (raw_start, raw_end) positions.
pub fn find_in_markdown(raw: &[char], rendered_quote: &[char]) -> (r: Option<(usize, usize)>)
    ensures
        match spec_find_in_markdown(raw@, rendered_quote@) {
            Some((a, b)) => r matches Some((x, y)) && x as int == a && y as int == b && a <= b && b
                <= raw@.len(),
            None => r is None,
        },
{
    proof {
        lemma_find_in_markdown_ordered(raw@, rendered_quote@);
    }
    let (stripped, char_map) = strip_inline_markdown(raw);
    let ghost map = char_map@.map_values(|x: usize| x as int);
    if let Some(start) = find_vec(&stripped, rendered_quote) {
        proof {
            lemma_find_from_bounds(stripped@, rendered_quote@, 0);
        }
        let end = start + rendered_quote.len();
        return Some(map_to_raw(start, end, &char_map, raw));
    }
    let parts = split_whitespace(rendered_quote);
    if parts.len() == 0 {
        return None;
    }
    match search_words_exec(&stripped, &parts) {
        Some((a, c)) => Some(map_to_raw(a, c, &char_map, raw)),
        None => None,
    }
}

/// The text of a file whose Markdown is `content` once the first place where
/// `quote` is rendered in its body has been replaced by `(quote)[#ann_id]`;
/// `None` where the quote is not found.
pub open spec fn spec_inline_marker(content: Seq<char>, quote: Seq<char>, ann_id: Seq<char>) -> Option<
    Seq<char>,
> {
    let body = spec_strip_comments_section(content);
    match spec_find_in_markdown(body, quote) {
        None => None,
        Some((s, e)) => {
            let rs = if s < body.len() { s } else { body.len() as int };
            let re = if e < body.len() { e } else { body.len() as int };
            Some(content.take(rs) + "("@ + quote + ")[#"@ + ann_id + "]"@ + content.skip(re))
        },
    }
}

/// Insert the inline marker `(quote)[#ann_id]` in place of the first rendering of
/// `quote` in the body of the Markdown text `content` (the prose annotation step
/// of annotating a file).
pub fn insert_inline_marker(content: &str, quote: &str, ann_id: &str) -> (r: Option<String>)
    ensures
        match spec_inline_marker(content@, quote@, ann_id@) {
            Some(t) => r matches Some(x) && x@ == t,
            None => r is None,
        },
{
    let c = str_chars(content);
    let q = str_chars(quote);
    let k = comments_section_start(&c);
    let body = slice_range(&c, 0, k);
    assert(body@ =~= spec_strip_comments_section(content@));
    let (s, e) = match find_in_markdown(&body, &q) {
        Some(p) => p,
        None => return None,
    };
    let rs = if s < body.len() { s } else { body.len() };
    let re = if e < body.len() { e } else { body.len() };
    let mut out = slice_range(&c, 0, rs);
    push_str(&mut out, "(");
    push_all(&mut out, &q);
    push_str(&mut out, ")[#");
    push_str(&mut out, ann_id);
    push_str(&mut out, "]");
    push_range(&mut out, &c, re, c.len());
    assert(c@.take(rs as int) =~= c@.subrange(0, rs as int));
    assert(c@.skip(re as int) =~= c@.subrange(re as int, c@.len() as int));
    proof {
        let sp = spec_find_in_markdown(body@, q@);
        assert(sp == Some((s as int, e as int)));
        assert(spec_inline_marker(content@, quote@, ann_id@) == Some(
            c@.take(rs as int) + "("@ + q@ + ")[#"@ + ann_id@ + "]"@ + c@.skip(re as int),
        ));
        assert(out@ =~= c@.take(rs as int) + "("@ + q@ + ")[#"@ + ann_id@ + "]"@ + c@.skip(re as int));
    }
    Some(chars_to_string(&out))
}

/// No formatting marker character, line break or strikethrough tilde.
pub open spec fn plain_text(t: Seq<char>) -> bool {
    forall|k: int|
        0 <= k < t.len() ==> #[trigger] t[k] != '*' && t[k] != '_' && t[k] != '`' && t[k] != '~'
            && t[k] != '\n'
}

proof fn lemma_strip_wrapped_from(raw: Seq<char>, m: Seq<char>, t: Seq<char>, j: int)
    requires
        m.len() == 2,
        raw == m + t + m,
        m[0] == m[1],
        m[0] == '*' || m[0] == '_' || m[0] == '~',
        plain_text(t),
        0 <= j <= t.len(),
    ensures
        strip_from(raw, 2 + j).0 == t.skip(j),
    decreases t.len() - j,
{
    let pos = 2 + j;
    if j == t.len() {
        assert(raw[pos] == m[0] && raw[pos + 1] == m[1]);
        assert(double_marker_at(raw, pos));
        assert(strip_from(raw, pos + 2).0 =~= Seq::<char>::empty());
        assert(t.skip(j) =~= Seq::<char>::empty());
    } else {
        lemma_strip_wrapped_from(raw, m, t, j + 1);
        assert(raw[pos] == t[j]);
        assert(!double_marker_at(raw, pos));
        assert(!is_marker(raw[pos]));
        assert(t.skip(j) =~= seq![t[j]] + t.skip(j + 1));
    }
}

/// Text wrapped in a doubled marker (`**`, `__` or `~~`, strikethrough
/// included) reads without its markers: the stripped text of `~~x~~` is `x`,
/// so a quote of what is rendered there is found.
pub proof fn law_strip_wrapped_text(m: Seq<char>, t: Seq<char>)
    requires
        m == seq!['~', '~'] || m == seq!['*', '*'] || m == seq!['_', '_'],
        plain_text(t),
    ensures
        spec_strip_inline_markdown(m + t + m).0 == t,
        spec_find_in_markdown(m + t + m, t) is Some,
{
    let raw = m + t + m;
    assert(double_marker_at(raw, 0));
    lemma_strip_wrapped_from(raw, m, t, 0);
    assert(t.skip(0) =~= t);
    assert(t.subrange(0, t.len() as int) =~= t);
    assert(occurs_at(t, t, 0));
    assert(find(t, t) == Some(0int));
}

proof fn lemma_strip_single_from(raw: Seq<char>, c: char, t: Seq<char>, j: int)
    requires
        raw == seq![c] + t + seq![c],
        c == '*' || c == '_' || c == '`',
        plain_text(t),
        t.len() > 0,
        0 <= j <= t.len(),
    ensures
        strip_from(raw, 1 + j).0 == t.skip(j),
    decreases t.len() - j,
{
    let pos = 1 + j;
    if j == t.len() {
        assert(raw[pos] == c);
        assert(!double_marker_at(raw, pos));
        assert(is_marker(raw[pos]));
        assert(strip_from(raw, pos + 1).0 =~= Seq::<char>::empty());
        assert(t.skip(j) =~= Seq::<char>::empty());
    } else {
        lemma_strip_single_from(raw, c, t, j + 1);
        assert(raw[pos] == t[j]);
        assert(!double_marker_at(raw, pos));
        assert(!is_marker(raw[pos]));
        assert(t.skip(j) =~= seq![t[j]] + t.skip(j + 1));
    }
}

/// Text wrapped in a single marker (`*`, `_` or a backtick) reads without
/// its markers: the stripped text of `*x*` is `x`.
pub proof fn law_strip_single_marked_text(c: char, t: Seq<char>)
    requires
        c == '*' || c == '_' || c == '`',
        plain_text(t),
        t.len() > 0,
    ensures
        spec_strip_inline_markdown(seq![c] + t + seq![c]).0 == t,
{
    let raw = seq![c] + t + seq![c];
    assert(raw[1] == t[0]);
    assert(!double_marker_at(raw, 0));
    assert(is_marker(raw[0]));
    lemma_strip_single_from(raw, c, t, 0);
    assert(t.skip(0) =~= t);
}

proof fn lemma_strip_shift(a: Seq<char>, b: Seq<char>, q: int)
    requires
        0 <= q,
    ensures
        strip_from(a + b, a.len() + q).0 == strip_from(b, q).0,
    decreases b.len() - q,
{
    let raw = a + b;
    let pos = a.len() + q;
    if q < b.len() {
        assert(raw[pos] == b[q]);
        if q + 1 < b.len() {
            assert(raw[pos + 1] == b[q + 1]);
        }
        assert(double_marker_at(raw, pos) == double_marker_at(b, q));
        if double_marker_at(b, q) {
            lemma_strip_shift(a, b, q + 2);
        } else {
            lemma_strip_shift(a, b, q + 1);
        }
    }
}

proof fn lemma_strip_concat_from(a: Seq<char>, b: Seq<char>, pos: int)
    requires
        0 <= pos <= a.len(),
        !(a.len() > 0 && b.len() > 0 && a.last() == b[0] && (b[0] == '*' || b[0] == '_' || b[0]
            == '~')),
    ensures
        strip_from(a + b, pos).0 == strip_from(a, pos).0 + strip_from(b, 0).0,
    decreases a.len() - pos,
{
    let raw = a + b;
    if pos == a.len() {
        lemma_strip_shift(a, b, 0);
        assert(strip_from(a, pos).0 =~= Seq::<char>::empty());
        assert(strip_from(a, pos).0 + strip_from(b, 0).0 =~= strip_from(b, 0).0);
    } else {
        assert(raw[pos] == a[pos]);
        if pos + 1 < a.len() {
            assert(raw[pos + 1] == a[pos + 1]);
            assert(double_marker_at(raw, pos) == double_marker_at(a, pos));
        } else {
            assert(!double_marker_at(a, pos));
            if b.len() > 0 {
                assert(raw[pos + 1] == b[0]);
                assert(a.last() == a[pos]);
            }
            assert(!double_marker_at(raw, pos));
        }
        if double_marker_at(a, pos) {
            lemma_strip_concat_from(a, b, pos + 2);
        } else if is_marker(a[pos]) {
            lemma_strip_concat_from(a, b, pos + 1);
        } else {
            lemma_strip_concat_from(a, b, pos + 1);
            let d = if a[pos] == '\n' { ' ' } else { a[pos] };
            assert(strip_from(raw, pos).0 == seq![d] + strip_from(raw, pos + 1).0);
            assert(strip_from(a, pos).0 == seq![d] + strip_from(a, pos + 1).0);
            assert(seq![d] + (strip_from(a, pos + 1).0 + strip_from(b, 0).0) =~= (seq![d]
                + strip_from(a, pos + 1).0) + strip_from(b, 0).0);
        }
    }
}

/// Stripping works piece by piece: the stripped text of `a + b` is that of
/// `a` followed by that of `b`, unless a doubled marker straddles the seam.
/// With the laws on marked text, `Use ~~old~~ new values` strips to
/// `Use old new values`.
pub proof fn law_strip_concat(a: Seq<char>, b: Seq<char>)
    requires
        !(a.len() > 0 && b.len() > 0 && a.last() == b[0] && (b[0] == '*' || b[0] == '_' || b[0]
            == '~')),
    ensures
        spec_strip_inline_markdown(a + b).0 == spec_strip_inline_markdown(a).0
            + spec_strip_inline_markdown(b).0,
{
    lemma_strip_concat_from(a, b, 0);
}

} // verus!
