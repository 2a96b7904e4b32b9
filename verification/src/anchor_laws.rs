//! What placing a code block anchor twice gives: the second placement finds
//! the anchor that the first one wrote and changes nothing.

use vstd::prelude::*;
use crate::text::{
    find_char_from, lemma_find_char_from_bounds, lines, strip_cr, trim, trim_start, trim_end,
    starts_with, occurs_at, is_ws,
};
use crate::store::{
    line_end, line_text, find_close, fenced_end_from, normalize_crlf, lemma_line_end,
    lemma_find_close_bounds, is_closing_fence, spec_detect_fence, anchor_in_line, first_anchor,
    spec_find_anchor, spec_ensure_anchor, anchor_separator, spec_strip_comments_section,
    section_patterns, law_strip_comments_section_prefix,
};
use crate::markdown_laws::{lemma_lines_append, lemma_lines_single};

verus! {

/// `s` and `t` hold the same characters before `e`, and the last of them
/// ends a line.
pub open spec fn same_lines_before(s: Seq<char>, t: Seq<char>, e: int) -> bool {
    &&& 0 < e <= s.len()
    &&& e <= t.len()
    &&& s[e - 1] == '\n'
    &&& forall|i: int| 0 <= i < e ==> #[trigger] s[i] == t[i]
}

proof fn lemma_line_end_agree(s: Seq<char>, t: Seq<char>, q: int, e: int)
    requires
        same_lines_before(s, t, e),
        0 <= q < e,
    ensures
        line_end(s, q) == line_end(t, q),
        q < line_end(s, q) <= e,
{
    lemma_find_char_from_bounds(s, '\n', q);
    lemma_find_char_from_bounds(t, '\n', q);
    if find_char_from(s, '\n', q) is None {
        assert(s[e - 1] != '\n');
    }
    let k = find_char_from(s, '\n', q)->0;
    if k >= e {
        assert(s[e - 1] != '\n');
    }
    assert(t[k] == s[k]);
    match find_char_from(t, '\n', q) {
        Some(k2) => {
            if k2 < k {
                assert(s[k2] == t[k2]);
            }
            if k2 > k {
                assert(t[k] != '\n');
            }
        },
        None => {
            assert(t[k] != '\n');
        },
    }
}

proof fn lemma_line_text_agree(s: Seq<char>, t: Seq<char>, q: int, e: int)
    requires
        same_lines_before(s, t, e),
        0 <= q < e,
    ensures
        line_text(s, q) == line_text(t, q),
{
    lemma_line_end_agree(s, t, q, e);
    let le = line_end(s, q);
    assert(s.subrange(q, le) =~= t.subrange(q, le));
}

proof fn lemma_find_close_agree(
    s: Seq<char>,
    t: Seq<char>,
    q: int,
    e: int,
    fence_char: char,
    fence_len: nat,
    cp: int,
)
    requires
        same_lines_before(s, t, e),
        0 <= q,
        find_close(s, q, fence_char, fence_len) == Some(cp),
        cp < e,
    ensures
        find_close(t, q, fence_char, fence_len) == Some(cp),
    decreases s.len() - q,
{
    lemma_find_close_bounds(s, q, fence_char, fence_len);
    lemma_line_text_agree(s, t, q, e);
    if !is_closing_fence(line_text(s, q), fence_char, fence_len) {
        lemma_line_end(s, q);
        lemma_line_end_agree(s, t, q, e);
        lemma_find_close_agree(s, t, line_end(s, q), e, fence_char, fence_len, cp);
    }
}

/// A fenced block ends after a line break, or at the end of the text.
proof fn lemma_fenced_end_shape(s: Seq<char>, prefix: Seq<char>, pos: int)
    ensures
        fenced_end_from(s, prefix, pos) matches Some(x) ==> pos < x <= s.len() && (x == s.len()
            || s[x - 1] == '\n'),
    decreases s.len() - pos,
{
    if 0 <= pos < s.len() {
        lemma_line_end(s, pos);
        let le = line_end(s, pos);
        let fence = spec_detect_fence(line_text(s, pos));
        if fence.0 {
            lemma_find_close_bounds(s, le, fence.1, fence.2);
            if let Some(cp) = find_close(s, le, fence.1, fence.2) {
                lemma_line_end(s, cp);
                lemma_find_char_from_bounds(s, '\n', cp);
                lemma_fenced_end_shape(s, prefix, line_end(s, cp));
            }
        } else {
            lemma_fenced_end_shape(s, prefix, le);
        }
    }
}

proof fn lemma_fenced_end_agree(s: Seq<char>, t: Seq<char>, prefix: Seq<char>, pos: int, e: int)
    requires
        same_lines_before(s, t, e),
        fenced_end_from(s, prefix, pos) matches Some(x) && x <= e,
    ensures
        fenced_end_from(t, prefix, pos) == fenced_end_from(s, prefix, pos),
    decreases s.len() - pos,
{
    let x = fenced_end_from(s, prefix, pos)->0;
    lemma_fenced_end_shape(s, prefix, pos);
    lemma_line_end(s, pos);
    lemma_line_end_agree(s, t, pos, e);
    lemma_line_text_agree(s, t, pos, e);
    let le = line_end(s, pos);
    let fence = spec_detect_fence(line_text(s, pos));
    if fence.0 {
        lemma_find_close_bounds(s, le, fence.1, fence.2);
        let cp = find_close(s, le, fence.1, fence.2)->0;
        lemma_line_end(s, cp);
        let cle = line_end(s, cp);
        if !starts_with(normalize_crlf(s.subrange(le, cp)), prefix) {
            lemma_fenced_end_shape(s, prefix, cle);
        }
        lemma_find_close_agree(s, t, le, e, fence.1, fence.2, cp);
        lemma_line_end_agree(s, t, cp, e);
        assert(s.subrange(le, cp) =~= t.subrange(le, cp));
        if !starts_with(normalize_crlf(s.subrange(le, cp)), prefix) {
            lemma_fenced_end_agree(s, t, prefix, cle, e);
        }
    } else {
        lemma_fenced_end_agree(s, t, prefix, le, e);
    }
}

/// The anchor line for `handle`, with its line break.
pub open spec fn anchor_line(handle: Seq<char>) -> Seq<char> {
    "[comments](#"@ + handle + ")\n"@
}

proof fn lemma_anchor_line_chars(handle: Seq<char>)
    requires
        forall|k: int| 0 <= k < handle.len() ==> #[trigger] handle[k] != ')' && handle[k] != '\n',
    ensures
        anchor_line(handle).len() == handle.len() + 14,
        anchor_line(handle)[0] == '[',
        anchor_line(handle).last() == '\n',
        forall|k: int|
            0 <= k < anchor_line(handle).len() - 1 ==> #[trigger] anchor_line(handle)[k] != '\n',
        anchor_line(handle) == ("[comments](#"@ + handle + seq![')']) + seq!['\n'],
{
    reveal_strlit("[comments](#");
    reveal_strlit(")\n");
    let open = "[comments](#"@;
    assert(open =~= seq!['[', 'c', 'o', 'm', 'm', 'e', 'n', 't', 's', ']', '(', '#']);
    assert(")\n"@ =~= seq![')', '\n']);
    assert(anchor_line(handle) =~= (open + handle + seq![')']) + seq!['\n']);
    assert forall|k: int| 0 <= k < anchor_line(handle).len() - 1 implies #[trigger] anchor_line(
        handle,
    )[k] != '\n' by {
        if k >= 12 && k < 12 + handle.len() {
            assert(anchor_line(handle)[k] == handle[k - 12]);
        }
    }
}

/// The patterns that open a comments section start with a line break and
/// hold no `'['`.
proof fn lemma_section_pattern_chars()
    ensures
        forall|i: int|
            0 <= i < section_patterns().len() ==> (#[trigger] section_patterns()[i]).len() > 0
                && section_patterns()[i][0] == '\n' && forall|k: int|
                0 <= k < section_patterns()[i].len() ==> section_patterns()[i][k] != '[',
{
    reveal_strlit("\n---\n\n## Comments");
    reveal_strlit("\n---\n## Comments");
    reveal_strlit("\n---\n\n# Comments");
    reveal_strlit("\n---\n# Comments");
    reveal_strlit("\n# Comments");
    reveal_strlit("\n## Comments");
    assert("\n---\n\n## Comments"@ =~= seq![
        '\n', '-', '-', '-', '\n', '\n', '#', '#', ' ', 'C', 'o', 'm', 'm', 'e', 'n', 't', 's',
    ]);
    assert("\n---\n## Comments"@ =~= seq![
        '\n', '-', '-', '-', '\n', '#', '#', ' ', 'C', 'o', 'm', 'm', 'e', 'n', 't', 's',
    ]);
    assert("\n---\n\n# Comments"@ =~= seq![
        '\n', '-', '-', '-', '\n', '\n', '#', ' ', 'C', 'o', 'm', 'm', 'e', 'n', 't', 's',
    ]);
    assert("\n---\n# Comments"@ =~= seq![
        '\n', '-', '-', '-', '\n', '#', ' ', 'C', 'o', 'm', 'm', 'e', 'n', 't', 's',
    ]);
    assert("\n# Comments"@ =~= seq!['\n', '#', ' ', 'C', 'o', 'm', 'm', 'e', 'n', 't', 's']);
    assert("\n## Comments"@ =~= seq!['\n', '#', '#', ' ', 'C', 'o', 'm', 'm', 'e', 'n', 't', 's']);
}

/// Text that holds no comments section heading holds none after an anchor
/// line is put in right after one of its line breaks.
proof fn lemma_insert_keeps_no_section(c: Seq<char>, cp: int, handle: Seq<char>)
    requires
        0 < cp <= c.len(),
        c[cp - 1] == '\n',
        forall|k: int| 0 <= k < handle.len() ==> #[trigger] handle[k] != ')' && handle[k] != '\n',
        forall|i: int, j: int|
            0 <= i < section_patterns().len() && 0 <= j ==> !#[trigger] occurs_at(
                c,
                section_patterns()[i],
                j,
            ),
    ensures
        forall|i: int, j: int|
            0 <= i < section_patterns().len() && 0 <= j ==> !#[trigger] occurs_at(
                c.take(cp) + anchor_line(handle) + c.skip(cp),
                section_patterns()[i],
                j,
            ),
{
    lemma_section_pattern_chars();
    lemma_anchor_line_chars(handle);
    let line = anchor_line(handle);
    let l = line.len() as int;
    let c1 = c.take(cp) + line + c.skip(cp);
    assert(c1.len() == c.len() + l);
    assert forall|i: int, j: int|
        0 <= i < section_patterns().len() && 0 <= j implies !#[trigger] occurs_at(
        c1,
        section_patterns()[i],
        j,
    ) by {
        let p = section_patterns()[i];
        let m = p.len() as int;
        if occurs_at(c1, p, j) {
            assert(forall|k: int| 0 <= k < m ==> #[trigger] p[k] == c1[j + k]) by {
                assert forall|k: int| 0 <= k < m implies #[trigger] p[k] == c1[j + k] by {
                    assert(c1.subrange(j, j + m)[k] == c1[j + k]);
                }
            }
            if j + m <= cp {
                assert(c.subrange(j, j + m) =~= p) by {
                    assert forall|k: int| 0 <= k < m implies c.subrange(j, j + m)[k] == p[k] by {
                        assert(p[k] == c1[j + k]);
                    }
                }
                assert(occurs_at(c, p, j));
            } else if j <= cp {
                assert(p[cp - j] == c1[cp]);
                assert(c1[cp] == line[0]);
            } else if j >= cp + l {
                assert(c.subrange(j - l, j - l + m) =~= p) by {
                    assert forall|k: int| 0 <= k < m implies c.subrange(j - l, j - l + m)[k]
                        == p[k] by {
                        assert(p[k] == c1[j + k]);
                    }
                }
                assert(occurs_at(c, p, j - l));
            } else {
                assert(p[0] == c1[j]);
                assert(c1[j] == line[j - cp]);
                assert(j == cp + l - 1);
                assert(c.subrange(cp - 1, cp - 1 + m) =~= p) by {
                    assert forall|k: int| 0 <= k < m implies c.subrange(cp - 1, cp - 1 + m)[k]
                        == p[k] by {
                        if k > 0 {
                            assert(p[k] == c1[j + k]);
                        }
                    }
                }
                assert(occurs_at(c, p, cp - 1));
            }
        }
    }
}

/// The anchor written right after the closing fence is found there.
proof fn lemma_anchor_found(handle: Seq<char>, rest: Seq<char>)
    requires
        forall|k: int| 0 <= k < handle.len() ==> #[trigger] handle[k] != ')' && handle[k] != '\n',
    ensures
        spec_find_anchor(anchor_line(handle) + rest) == Some(handle),
{
    reveal_strlit("[comments](#");
    lemma_anchor_line_chars(handle);
    let open = "[comments](#"@;
    let x = open + handle + seq![')'];
    let line = anchor_line(handle);
    assert(line == x + seq!['\n']);
    assert forall|j: int| 0 <= j < x.len() implies x[j] != '\n' by {
        assert(x[j] == line[j]);
    }
    lemma_lines_single(x);
    lemma_lines_append(line, rest);
    assert(strip_cr(x) == x);
    let ls = lines(line + rest);
    assert(ls =~= seq![x] + lines(rest));
    let first = if ls.len() > 3 {
        ls.take(3)
    } else {
        ls
    };
    assert(first.len() > 0 && first[0] == x);
    assert(!is_ws(x.last()));
    assert(trim_end(x) == x);
    assert(!is_ws(x[0]));
    assert(trim_start(x) == x);
    assert(trim(x) == x);
    assert(x.take(open.len() as int) =~= open);
    assert(starts_with(x, open));
    let after = x.skip(open.len() as int);
    assert(after =~= handle + seq![')']);
    lemma_find_char_from_bounds(after, ')', 0);
    assert(after[handle.len() as int] == ')');
    match find_char_from(after, ')', 0) {
        Some(k) => {
            if k < handle.len() {
                assert(after[k] == handle[k]);
            }
        },
        None => {},
    }
    assert(after.take(handle.len() as int) =~= handle);
    assert(anchor_in_line(trim(first[0])) == Some(handle));
}

/// Placing the anchor of a code block a second time finds the anchor that
/// the first placement wrote, or kept, and changes nothing: for text without
/// a comments section that ends with a line break, and a proposed handle
/// without `')'` or line breaks.
pub proof fn law_ensure_anchor_idempotent(
    content: Seq<char>,
    prefix: Seq<char>,
    handle: Seq<char>,
    other_handle: Seq<char>,
)
    requires
        spec_strip_comments_section(content) == content,
        content.len() > 0,
        content.last() == '\n',
        forall|k: int| 0 <= k < handle.len() ==> #[trigger] handle[k] != ')' && handle[k] != '\n',
        spec_ensure_anchor(content, prefix, handle) is Some,
    ensures
        spec_ensure_anchor((spec_ensure_anchor(content, prefix, handle)->0).0, prefix, other_handle)
            == spec_ensure_anchor(content, prefix, handle),
{
    let first = spec_ensure_anchor(content, prefix, handle)->0;
    let cp = fenced_end_from(content, prefix, 0)->0;
    if spec_find_anchor(content.skip(cp)) is None {
        lemma_fenced_end_shape(content, prefix, 0);
        assert(content[cp - 1] == '\n');
        assert(anchor_separator(content, cp) =~= Seq::<char>::empty());
        let c1 = content.take(cp) + anchor_line(handle) + content.skip(cp);
        assert(first.0 =~= c1);
        law_strip_comments_section_prefix(content);
        lemma_section_pattern_chars();
        assert forall|i: int, j: int| 0 <= i < section_patterns().len() && 0 <= j implies !#[trigger] occurs_at(
            content,
            section_patterns()[i],
            j,
        ) by {
            if j >= content.len() {
                assert(!occurs_at(content, section_patterns()[i], j));
            }
        }
        lemma_insert_keeps_no_section(content, cp, handle);
        law_strip_comments_section_prefix(c1);
        let r = spec_strip_comments_section(c1);
        if r.len() < c1.len() {
            let i = choose|i: int|
                0 <= i < section_patterns().len() && occurs_at(
                    c1,
                    #[trigger] section_patterns()[i],
                    r.len() as int,
                );
            assert(occurs_at(c1, section_patterns()[i], r.len() as int));
        }
        assert(r =~= c1);
        assert(same_lines_before(content, c1, cp));
        lemma_fenced_end_agree(content, c1, prefix, 0, cp);
        assert(c1.skip(cp) =~= anchor_line(handle) + content.skip(cp));
        lemma_anchor_found(handle, content.skip(cp));
    }
}

/// `k` empty lines.
pub open spec fn blank_lines(k: nat) -> Seq<char> {
    Seq::new(k, |i: int| '\n')
}

proof fn lemma_lines_after_blanks(k: nat, u: Seq<char>)
    ensures
        lines(blank_lines(k) + u) == Seq::new(k, |i: int| Seq::<char>::empty()) + lines(u),
    decreases k,
{
    if k == 0 {
        assert(blank_lines(0) + u =~= u);
        assert(Seq::new(0, |i: int| Seq::<char>::empty()) + lines(u) =~= lines(u));
    } else {
        let k1 = (k - 1) as nat;
        lemma_lines_after_blanks(k1, u);
        let nl = seq!['\n'];
        assert(blank_lines(k) + u =~= nl + (blank_lines(k1) + u));
        lemma_lines_append(nl, blank_lines(k1) + u);
        let e = Seq::<char>::empty();
        lemma_lines_single(e);
        assert(e + seq!['\n'] =~= nl);
        assert(strip_cr(e) =~= e);
        assert(Seq::new(k, |i: int| Seq::<char>::empty()) + lines(u) =~= seq![e] + (Seq::new(
            k1,
            |i: int| Seq::<char>::empty(),
        ) + lines(u)));
    }
}

proof fn lemma_first_anchor_skips_blanks(ls: Seq<Seq<char>>, k: int)
    requires
        0 <= k <= ls.len(),
        forall|i: int| 0 <= i < k ==> (#[trigger] ls[i]).len() == 0,
    ensures
        first_anchor(ls) == first_anchor(ls.skip(k)),
    decreases k,
{
    if k > 0 {
        assert(ls[0].len() == 0);
        assert(trim_end(ls[0]) == ls[0]);
        assert(trim_start(ls[0]) == ls[0]);
        assert(trim(ls[0]).len() == 0);
        assert(anchor_in_line(trim(ls[0])) is None);
        let t = ls.drop_first();
        assert forall|i: int| 0 <= i < k - 1 implies (#[trigger] t[i]).len() == 0 by {
            assert(t[i] == ls[i + 1]);
        }
        lemma_first_anchor_skips_blanks(t, k - 1);
        assert(t.skip(k - 1) =~= ls.skip(k));
        assert(first_anchor(ls) == first_anchor(t));
    } else {
        assert(ls.skip(0) =~= ls);
    }
}

/// An anchor on any of the first three lines after a closing fence is found:
/// behind up to two empty lines, the line `[comments](#handle)` gives
/// `handle`.
pub proof fn law_anchor_found_behind_blank_lines(handle: Seq<char>, k: nat, rest: Seq<char>)
    requires
        k <= 2,
        forall|j: int| 0 <= j < handle.len() ==> #[trigger] handle[j] != ')' && handle[j] != '\n',
    ensures
        spec_find_anchor(blank_lines(k) + anchor_line(handle) + rest) == Some(handle),
{
    reveal_strlit("[comments](#");
    lemma_anchor_line_chars(handle);
    let open = "[comments](#"@;
    let x = open + handle + seq![')'];
    let line = anchor_line(handle);
    assert forall|j: int| 0 <= j < x.len() implies x[j] != '\n' by {
        assert(x[j] == line[j]);
    }
    lemma_lines_single(x);
    lemma_lines_append(line, rest);
    assert(strip_cr(x) == x);
    let u = line + rest;
    assert(lines(u) =~= seq![x] + lines(rest));
    lemma_lines_after_blanks(k, u);
    assert(blank_lines(k) + anchor_line(handle) + rest =~= blank_lines(k) + u);
    let ls = lines(blank_lines(k) + u);
    assert(ls =~= Seq::new(k, |i: int| Seq::<char>::empty()) + (seq![x] + lines(rest)));
    assert(ls[k as int] == x);
    let first = if ls.len() > 3 {
        ls.take(3)
    } else {
        ls
    };
    assert(first.len() > k);
    assert(first[k as int] == x);
    assert forall|i: int| 0 <= i < k implies (#[trigger] first[i]).len() == 0 by {
        assert(first[i] == ls[i]);
    }
    lemma_first_anchor_skips_blanks(first, k as int);
    assert(first.skip(k as int)[0] == x);
    assert(!is_ws(x.last()));
    assert(trim_end(x) == x);
    assert(!is_ws(x[0]));
    assert(trim_start(x) == x);
    assert(x.take(open.len() as int) =~= open);
    let after = x.skip(open.len() as int);
    assert(after =~= handle + seq![')']);
    lemma_find_char_from_bounds(after, ')', 0);
    assert(after[handle.len() as int] == ')');
    match find_char_from(after, ')', 0) {
        Some(j) => {
            if j < handle.len() {
                assert(after[j] == handle[j]);
            }
        },
        None => {},
    }
    assert(after.take(handle.len() as int) =~= handle);
    assert(anchor_in_line(trim(x)) == Some(handle));
}

/// A code block already followed, within its first three lines, by its
/// anchor `[comments](#handle)` keeps it: placing the anchor returns the text
/// unchanged and `handle`, whatever handle is proposed.
pub proof fn law_existing_anchor_reused(
    content: Seq<char>,
    prefix: Seq<char>,
    cp: int,
    k: nat,
    handle: Seq<char>,
    rest: Seq<char>,
    proposed: Seq<char>,
)
    requires
        prefix.len() > 0,
        fenced_end_from(spec_strip_comments_section(content), prefix, 0) == Some(cp),
        spec_strip_comments_section(content).skip(cp) == blank_lines(k) + anchor_line(handle) + rest,
        k <= 2,
        forall|j: int| 0 <= j < handle.len() ==> #[trigger] handle[j] != ')' && handle[j] != '\n',
    ensures
        spec_ensure_anchor(content, prefix, proposed) == Some((content, handle)),
{
    law_anchor_found_behind_blank_lines(handle, k, rest);
}

} // verus!
