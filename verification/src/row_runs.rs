//! How the renderer turns a row of terminal cells into styled runs of text:
//! the colour of each cell (its foreground, or its background where the
//! cell is shown inverse), its characters, and the grouping of neighbouring
//! cells of one style into a single run.

use vstd::prelude::*;
use crate::renderer::{palette_color, ansi_palette_color};
use crate::text::{chars_to_string, str_chars};

verus! {

/// A colour of a cell's style as the terminal reports it.
#[derive(Debug, Clone, Copy, PartialEq, Eq, Structural)]
pub enum StyleColor {
    /// The terminal's default colour.
    Default,
    /// An index into the 256-colour palette.
    Palette(u8),
    /// A direct colour.
    Rgb(u8, u8, u8),
}

/// The style of a cell.
#[derive(Debug, Clone, Copy, PartialEq, Eq, Structural)]
pub struct CellStyle {
    pub fg_color: StyleColor,
    pub bg_color: StyleColor,
    pub bold: bool,
    pub italic: bool,
    pub inverse: bool,
}

/// A cell: its style and the code points of its grapheme cluster (none for
/// an empty cell).
#[derive(Debug)]
pub struct Cell {
    pub style: CellStyle,
    pub graphemes: Vec<u32>,
}

/// A run of text drawn in one colour and style.
#[derive(Debug)]
pub struct CellRun {
    pub text: String,
    pub fg: (u8, u8, u8),
    pub bold: bool,
    pub italic: bool,
}

/// The mathematical content of a [`CellRun`], and of a cell as a run of its
/// own.
pub struct RunModel {
    pub text: Seq<char>,
    pub fg: (u8, u8, u8),
    pub bold: bool,
    pub italic: bool,
}

impl View for CellRun {
    type V = RunModel;

    open spec fn view(&self) -> RunModel {
        RunModel { text: self.text@, fg: self.fg, bold: self.bold, italic: self.italic }
    }
}

/// The RGB value of a style colour: `None` for the default colour.
pub open spec fn color_rgb(c: StyleColor) -> Option<(u8, u8, u8)> {
    match c {
        StyleColor::Default => None,
        StyleColor::Palette(i) => Some(palette_color(i as int)),
        StyleColor::Rgb(r, g, b) => Some((r, g, b)),
    }
}

/// The RGB value of a style colour, `None` for the terminal default (for
/// which the caller puts white in the foreground and black in the
/// background).
pub fn ghostty_color_to_rgb(c: StyleColor) -> (r: Option<(u8, u8, u8)>)
    ensures
        r == color_rgb(c),
{
    match c {
        StyleColor::Default => None,
        StyleColor::Palette(i) => Some(ansi_palette_color(i as usize)),
        StyleColor::Rgb(r, g, b) => Some((r, g, b)),
    }
}

/// The colour text is drawn in: the foreground (white by default), or for
/// an inverse cell the background (black by default).
pub open spec fn drawn_fg(s: CellStyle) -> (u8, u8, u8) {
    if s.inverse {
        match color_rgb(s.bg_color) {
            Some(c) => c,
            None => (0, 0, 0),
        }
    } else {
        match color_rgb(s.fg_color) {
            Some(c) => c,
            None => (255, 255, 255),
        }
    }
}

/// Whether `n` is a Unicode scalar value (what `char::from_u32` accepts).
pub open spec fn is_scalar(n: u32) -> bool {
    n < 0xD800 || (0xE000 <= n && n <= 0x10FFFF)
}

/// `char::from_u32`: the character of a scalar value, `None` for a
/// surrogate or a number past `0x10FFFF`, as its documentation states.
#[verifier::external_body]
fn char_from_u32(n: u32) -> (r: Option<char>)
    ensures
        match r {
            Some(c) => is_scalar(n) && c as u32 == n && c == n as char,
            None => !is_scalar(n),
        },
{
    char::from_u32(n)
}

/// The characters of the code points `cps` that are scalar values, in order.
pub open spec fn scalar_chars(cps: Seq<u32>) -> Seq<char>
    decreases cps.len(),
{
    if cps.len() == 0 {
        Seq::empty()
    } else {
        let rest = scalar_chars(cps.drop_last());
        if is_scalar(cps.last()) {
            rest.push(cps.last() as char)
        } else {
            rest
        }
    }
}

/// The text of a cell: a space for an empty cell, else the characters of
/// its code points (invalid ones dropped).
pub open spec fn cell_text(cps: Seq<u32>) -> Seq<char> {
    if cps.len() == 0 {
        seq![' ']
    } else {
        scalar_chars(cps)
    }
}

/// The text of the cell whose grapheme cluster is `cps`.
pub fn cell_text_of(cps: &[u32]) -> (r: String)
    ensures
        r@ == cell_text(cps@),
{
    if cps.len() == 0 {
        return chars_to_string(&[' ']);
    }
    let mut out: Vec<char> = Vec::new();
    let mut i: usize = 0;
    while i < cps.len()
        invariant
            i <= cps@.len(),
            out@ == scalar_chars(cps@.take(i as int)),
        decreases cps@.len() - i,
    {
        assert(cps@.take(i + 1).drop_last() =~= cps@.take(i as int));
        assert(cps@.take(i + 1).last() == cps@[i as int]);
        match char_from_u32(cps[i]) {
            Some(c) => {
                out.push(c);
            },
            None => {},
        }
        i = i + 1;
    }
    assert(cps@.take(cps@.len() as int) =~= cps@);
    chars_to_string(&out)
}

/// A cell as a run of its own: its text, drawn colour and style.
pub open spec fn cell_model(c: Cell) -> RunModel {
    RunModel {
        text: cell_text(c.graphemes@),
        fg: drawn_fg(c.style),
        bold: c.style.bold,
        italic: c.style.italic,
    }
}

/// Whether two runs are drawn alike.
pub open spec fn same_style(a: RunModel, b: RunModel) -> bool {
    a.fg == b.fg && a.bold == b.bold && a.italic == b.italic
}

/// The runs closed so far and the run being extended, after the cells
/// `cells`: a cell drawn like the current run extends it; otherwise the
/// current run is closed (and kept unless its text is empty) and the cell
/// starts the next one.
pub open spec fn fold_runs(cells: Seq<RunModel>) -> (Seq<RunModel>, Option<RunModel>)
    decreases cells.len(),
{
    if cells.len() == 0 {
        (Seq::empty(), None)
    } else {
        let (done, cur) = fold_runs(cells.drop_last());
        let c = cells.last();
        match cur {
            None => (done, Some(c)),
            Some(r) => if same_style(r, c) {
                (done, Some(RunModel { text: r.text + c.text, ..r }))
            } else {
                (if r.text.len() > 0 { done.push(r) } else { done }, Some(c))
            },
        }
    }
}

/// The runs of a row of cells: those closed by [`fold_runs`] and the last
/// one, each with some text.
pub open spec fn runs_of(cells: Seq<RunModel>) -> Seq<RunModel> {
    let (done, cur) = fold_runs(cells);
    match cur {
        Some(r) => if r.text.len() > 0 {
            done.push(r)
        } else {
            done
        },
        None => done,
    }
}

/// The runs of models of `cells`.
pub open spec fn cell_models(cells: Seq<Cell>) -> Seq<RunModel> {
    cells.map_values(|c: Cell| cell_model(c))
}

fn cell_run(c: &Cell) -> (r: CellRun)
    ensures
        r@ == cell_model(*c),
{
    let fg = if c.style.inverse {
        match ghostty_color_to_rgb(c.style.bg_color) {
            Some(x) => x,
            None => (0, 0, 0),
        }
    } else {
        match ghostty_color_to_rgb(c.style.fg_color) {
            Some(x) => x,
            None => (255, 255, 255),
        }
    };
    CellRun { text: cell_text_of(c.graphemes.as_slice()), fg, bold: c.style.bold, italic: c.style.italic }
}

fn append_text(a: &String, b: &String) -> (r: String)
    ensures
        r@ == a@ + b@,
{
    let mut v = str_chars(a.as_str());
    let w = str_chars(b.as_str());
    let mut i: usize = 0;
    while i < w.len()
        invariant
            i <= w@.len(),
            v@ == a@ + w@.take(i as int),
        decreases w@.len() - i,
    {
        v.push(w[i]);
        assert(w@.take(i + 1) =~= w@.take(i as int).push(w@[i as int]));
        i = i + 1;
    }
    assert(w@.take(w@.len() as int) =~= w@);
    chars_to_string(&v)
}

/// The styled runs of a row of cells (see [`runs_of`]).
pub fn build_row_runs(cells: &Vec<Cell>) -> (r: Vec<CellRun>)
    ensures
        r@.map_values(|x: CellRun| x@) == runs_of(cell_models(cells@)),
{
    let ghost ms = cell_models(cells@);
    let mut runs: Vec<CellRun> = Vec::new();
    let mut cur: Option<CellRun> = None;
    let mut i: usize = 0;
    while i < cells.len()
        invariant
            i <= cells@.len(),
            ms == cell_models(cells@),
            fold_runs(ms.take(i as int)) == (
                runs@.map_values(|x: CellRun| x@),
                match cur {
                    Some(x) => Some(x@),
                    None => None::<RunModel>,
                },
            ),
        decreases cells@.len() - i,
    {
        let c = cell_run(&cells[i]);
        assert(ms.take(i + 1).drop_last() =~= ms.take(i as int));
        assert(ms.take(i + 1).last() == c@);
        let ghost prev = runs@;
        cur = match cur {
            None => Some(c),
            Some(r) => if r.fg.0 == c.fg.0 && r.fg.1 == c.fg.1 && r.fg.2 == c.fg.2 && r.bold == c.bold && r.italic == c.italic {
                let t = append_text(&r.text, &c.text);
                Some(CellRun { text: t, fg: r.fg, bold: r.bold, italic: r.italic })
            } else {
                if r.text.as_str().unicode_len() > 0 {
                    runs.push(r);
                    assert(runs@.map_values(|x: CellRun| x@) =~= prev.map_values(|x: CellRun| x@).push(
                        runs@.last()@,
                    ));
                }
                Some(c)
            },
        };
        i = i + 1;
    }
    assert(ms.take(cells@.len() as int) =~= ms);
    let ghost prev = runs@;
    match cur {
        Some(r) => if r.text.as_str().unicode_len() > 0 {
            runs.push(r);
            assert(runs@.map_values(|x: CellRun| x@) =~= prev.map_values(|x: CellRun| x@).push(runs@.last()@));
        },
        None => {},
    }
    runs
}

// ---------------------------------------------------------------------------
// The row cache
// ---------------------------------------------------------------------------

/// One row as the terminal reports it for a frame: its line, whether it
/// changed since the last frame, and its cells.
#[derive(Debug)]
pub struct RowUpdate {
    pub line: u16,
    pub dirty: bool,
    pub cells: Vec<Cell>,
}

/// The runs of each cached row.
pub open spec fn cache_models(cache: Seq<Vec<CellRun>>) -> Seq<Seq<RunModel>> {
    cache.map_values(|row: Vec<CellRun>| row@.map_values(|x: CellRun| x@))
}

/// `cache` with empty rows added up to and including `line`.
pub open spec fn grown(cache: Seq<Seq<RunModel>>, line: int) -> Seq<Seq<RunModel>> {
    if line < cache.len() {
        cache
    } else {
        cache + Seq::new((line + 1 - cache.len()) as nat, |i: int| Seq::<RunModel>::empty())
    }
}

/// The cache after one row, and whether it changed: a row that changed, or
/// that lies past the cached ones, has its runs rebuilt; the cache grows to
/// hold it and takes the new runs where they differ from the cached ones.
pub open spec fn row_step(cache: Seq<Seq<RunModel>>, u: RowUpdate) -> (Seq<Seq<RunModel>>, bool) {
    if u.dirty || u.line >= cache.len() {
        let runs = runs_of(cell_models(u.cells@));
        let g = grown(cache, u.line as int);
        if g[u.line as int] != runs {
            (g.update(u.line as int, runs), true)
        } else {
            (g, false)
        }
    } else {
        (cache, false)
    }
}

/// The cache after the rows `rows`, one after another, and whether any
/// changed it.
pub open spec fn rows_step(cache: Seq<Seq<RunModel>>, rows: Seq<RowUpdate>) -> (Seq<Seq<RunModel>>, bool)
    decreases rows.len(),
{
    if rows.len() == 0 {
        (cache, false)
    } else {
        let (c, changed) = rows_step(cache, rows.drop_last());
        let (c2, changed2) = row_step(c, rows.last());
        (c2, changed || changed2)
    }
}

/// The cache after a frame of `rows` on a terminal of `num_rows` rows: the
/// rows' updates, then the rows past the terminal's end dropped; and
/// whether the cache changed.
pub open spec fn frame_step(cache: Seq<Seq<RunModel>>, rows: Seq<RowUpdate>, num_rows: u16) -> (
    Seq<Seq<RunModel>>,
    bool,
) {
    let (c, changed) = rows_step(cache, rows);
    if c.len() > num_rows {
        (c.take(num_rows as int), true)
    } else {
        (c, changed)
    }
}

fn runs_equal(a: &Vec<CellRun>, b: &Vec<CellRun>) -> (r: bool)
    ensures
        r == (a@.map_values(|x: CellRun| x@) == b@.map_values(|x: CellRun| x@)),
{
    let ghost am = a@.map_values(|x: CellRun| x@);
    let ghost bm = b@.map_values(|x: CellRun| x@);
    if a.len() != b.len() {
        assert(am.len() != bm.len());
        return false;
    }
    let mut i: usize = 0;
    while i < a.len()
        invariant
            i <= a@.len(),
            a@.len() == b@.len(),
            am == a@.map_values(|x: CellRun| x@),
            bm == b@.map_values(|x: CellRun| x@),
            forall|j: int| 0 <= j < i ==> am[j] == bm[j],
        decreases a@.len() - i,
    {
        let x = &a[i];
        let y = &b[i];
        let same = crate::kdl_tree::str_eq(x.text.as_str(), y.text.as_str()) && x.fg.0 == y.fg.0 && x.fg.1 == y.fg.1
            && x.fg.2 == y.fg.2 && x.bold == y.bold && x.italic == y.italic;
        if !same {
            assert(am[i as int] != bm[i as int]);
            return false;
        }
        assert(am[i as int] == bm[i as int]);
        i = i + 1;
    }
    assert(am =~= bm);
    true
}

/// Bring the row cache up to date with a frame (see [`frame_step`]):
/// rebuild the runs of the rows that changed or are new, drop rows past
/// `num_rows`, and tell whether anything in the cache changed (so that the
/// text need not be laid out again when nothing did).
pub fn update_row_cache(cache: &mut Vec<Vec<CellRun>>, rows: &Vec<RowUpdate>, num_rows: u16) -> (changed: bool)
    ensures
        (cache_models(final(cache)@), changed) == frame_step(cache_models(old(cache)@), rows@, num_rows),
{
    let ghost start = cache_models(cache@);
    let mut changed = false;
    let mut k: usize = 0;
    while k < rows.len()
        invariant
            k <= rows@.len(),
            (cache_models(cache@), changed) == rows_step(start, rows@.take(k as int)),
        decreases rows@.len() - k,
    {
        assert(rows@.take(k + 1).drop_last() =~= rows@.take(k as int));
        let u = &rows[k];
        let ghost before = cache_models(cache@);
        let line = u.line as usize;
        if u.dirty || line >= cache.len() {
            let runs = build_row_runs(&u.cells);
            while cache.len() <= line
                invariant
                    before.len() <= cache@.len(),
                    cache@.len() > before.len() ==> cache@.len() <= line + 1,
                    cache_models(cache@) == before + Seq::new(
                        (cache@.len() - before.len()) as nat,
                        |i: int| Seq::<RunModel>::empty(),
                    ),
                decreases line + 1 - cache@.len(),
            {
                let ghost prev = cache@;
                let e: Vec<CellRun> = Vec::new();
                assert(e@.map_values(|x: CellRun| x@) =~= Seq::<RunModel>::empty());
                cache.push(e);
                assert(cache_models(cache@) =~= cache_models(prev).push(Seq::<RunModel>::empty()));
                assert(cache_models(cache@) =~= before + Seq::new(
                    (cache@.len() - before.len()) as nat,
                    |i: int| Seq::<RunModel>::empty(),
                ));
            }
            proof {
                if line < before.len() {
                    assert(cache_models(cache@) =~= before);
                }
                assert(cache_models(cache@) =~= grown(before, line as int));
            }
            if !runs_equal(&cache[line], &runs) {
                let ghost g = cache_models(cache@);
                let ghost rm = runs@.map_values(|x: CellRun| x@);
                cache.set(line, runs);
                assert(cache_models(cache@) =~= g.update(line as int, rm));
                changed = true;
            }
        }
        k = k + 1;
    }
    assert(rows@.take(rows@.len() as int) =~= rows@);
    if cache.len() > num_rows as usize {
        let ghost c = cache_models(cache@);
        cache.truncate(num_rows as usize);
        assert(cache_models(cache@) =~= c.take(num_rows as int));
        changed = true;
    }
    changed
}

/// The line break laid out between two rows.
pub open spec fn row_break() -> RunModel {
    RunModel { text: seq!['\n'], fg: (255, 255, 255), bold: false, italic: false }
}

/// The spans of text laid out for the rows `rows`: their runs, row after
/// row, with a white line break between two rows.
pub open spec fn spans_of(rows: Seq<Seq<RunModel>>) -> Seq<RunModel>
    decreases rows.len(),
{
    if rows.len() == 0 {
        Seq::empty()
    } else if rows.len() == 1 {
        rows[0]
    } else {
        spans_of(rows.drop_last()).push(row_break()) + rows.last()
    }
}

fn clone_run(r: &CellRun) -> (c: CellRun)
    ensures
        c@ == r@,
{
    CellRun { text: r.text.clone(), fg: r.fg, bold: r.bold, italic: r.italic }
}

/// The spans of text laid out for the cached rows (see [`spans_of`]).
pub fn row_spans(cache: &Vec<Vec<CellRun>>) -> (r: Vec<CellRun>)
    ensures
        r@.map_values(|x: CellRun| x@) == spans_of(cache_models(cache@)),
{
    let ghost rows = cache_models(cache@);
    let mut out: Vec<CellRun> = Vec::new();
    let mut i: usize = 0;
    assert(rows.take(0) =~= Seq::<Seq<RunModel>>::empty());
    assert(out@.map_values(|x: CellRun| x@) =~= Seq::<RunModel>::empty());
    while i < cache.len()
        invariant
            i <= cache@.len(),
            rows == cache_models(cache@),
            out@.map_values(|x: CellRun| x@) == spans_of(rows.take(i as int)),
        decreases cache@.len() - i,
    {
        let ghost before = out@.map_values(|x: CellRun| x@);
        let ghost row = rows[i as int];
        assert(rows.take(i + 1).drop_last() =~= rows.take(i as int));
        assert(rows.take(i + 1).last() == row);
        if i > 0 {
            let br = CellRun { text: "\n".to_string(), fg: (255, 255, 255), bold: false, italic: false };
            proof {
                reveal_strlit("\n");
                assert(br.text@ =~= seq!['\n']);
                assert(br@ == row_break());
            }
            out.push(br);
            assert(out@.map_values(|x: CellRun| x@) =~= before.push(row_break()));
        }
        let ghost mid = out@.map_values(|x: CellRun| x@);
        let r = &cache[i];
        let mut j: usize = 0;
        while j < r.len()
            invariant
                j <= r@.len(),
                row == r@.map_values(|x: CellRun| x@),
                out@.map_values(|x: CellRun| x@) == mid + row.take(j as int),
            decreases r@.len() - j,
        {
            let ghost prev = out@.map_values(|x: CellRun| x@);
            out.push(clone_run(&r[j]));
            assert(out@.map_values(|x: CellRun| x@) =~= prev.push(row[j as int]));
            assert(row.take(j + 1) =~= row.take(j as int).push(row[j as int]));
            j = j + 1;
        }
        assert(row.take(r@.len() as int) =~= row);
        proof {
            if i == 0 {
                assert(rows.take(1) =~= seq![row]);
                assert(mid =~= Seq::<RunModel>::empty());
            }
            assert(out@.map_values(|x: CellRun| x@) =~= spans_of(rows.take(i + 1)));
        }
        i = i + 1;
    }
    assert(rows.take(cache@.len() as int) =~= rows);
    out
}

// ---------------------------------------------------------------------------
// Laws
// ---------------------------------------------------------------------------

/// The texts of `rs`, one after another.
pub open spec fn joined(rs: Seq<RunModel>) -> Seq<char>
    decreases rs.len(),
{
    if rs.len() == 0 {
        Seq::empty()
    } else {
        joined(rs.drop_last()) + rs.last().text
    }
}

/// The text of an optional run.
pub open spec fn text_of(r: Option<RunModel>) -> Seq<char> {
    match r {
        Some(x) => x.text,
        None => Seq::empty(),
    }
}

proof fn lemma_fold_runs(cells: Seq<RunModel>)
    ensures
        (fold_runs(cells).1 is None) == (cells.len() == 0),
        cells.len() == 0 ==> fold_runs(cells).0.len() == 0,
        joined(fold_runs(cells).0) + text_of(fold_runs(cells).1) == joined(cells),
        forall|i: int| 0 <= i < fold_runs(cells).0.len() ==> (#[trigger] fold_runs(cells).0[i]).text.len() > 0,
    decreases cells.len(),
{
    if cells.len() == 0 {
        assert(joined(Seq::<RunModel>::empty()) + Seq::<char>::empty() =~= Seq::<char>::empty());
    } else {
        let prefix = cells.drop_last();
        lemma_fold_runs(prefix);
        let (done, cur) = fold_runs(prefix);
        let c = cells.last();
        match cur {
            None => {
                assert(done.len() == 0);
                assert(joined(done) =~= Seq::<char>::empty());
                assert(joined(prefix) =~= Seq::<char>::empty());
                assert(joined(fold_runs(cells).0) + text_of(fold_runs(cells).1) =~= joined(cells));
            },
            Some(r) => {
                if same_style(r, c) {
                    assert(joined(done) + (r.text + c.text) =~= (joined(done) + r.text) + c.text);
                } else if r.text.len() > 0 {
                    let d2 = done.push(r);
                    assert(d2.drop_last() =~= done);
                    assert(joined(d2) == joined(done) + r.text);
                    assert forall|i: int| 0 <= i < d2.len() implies (#[trigger] d2[i]).text.len() > 0 by {
                        if i < done.len() {
                            assert(d2[i] == done[i]);
                        }
                    }
                } else {
                    assert(r.text =~= Seq::<char>::empty());
                    assert(joined(done) + r.text =~= joined(done));
                }
            },
        }
    }
}

/// Grouping a row into runs loses, repeats and reorders no character: the
/// runs' texts, one after another, are the cells' texts, one after
/// another; and no run is empty.
pub proof fn law_runs_keep_text(cells: Seq<RunModel>)
    ensures
        joined(runs_of(cells)) == joined(cells),
        forall|i: int| 0 <= i < runs_of(cells).len() ==> (#[trigger] runs_of(cells)[i]).text.len() > 0,
{
    lemma_fold_runs(cells);
    let (done, cur) = fold_runs(cells);
    match cur {
        Some(r) => {
            if r.text.len() > 0 {
                let d2 = done.push(r);
                assert(d2.drop_last() =~= done);
                assert forall|i: int| 0 <= i < d2.len() implies (#[trigger] d2[i]).text.len() > 0 by {
                    if i < done.len() {
                        assert(d2[i] == done[i]);
                    }
                }
            } else {
                assert(joined(done) + r.text =~= joined(done));
            }
        },
        None => {
            assert(joined(done) + Seq::<char>::empty() =~= joined(done));
        },
    }
}

/// Each character of `r` with the colour and style it is drawn in.
pub open spec fn styled_chars_of(r: RunModel) -> Seq<(char, (u8, u8, u8), bool, bool)> {
    r.text.map_values(|ch: char| (ch, r.fg, r.bold, r.italic))
}

/// Each character of the runs `rs`, in order, with the colour and style it
/// is drawn in.
pub open spec fn styled_chars(rs: Seq<RunModel>) -> Seq<(char, (u8, u8, u8), bool, bool)>
    decreases rs.len(),
{
    if rs.len() == 0 {
        Seq::empty()
    } else {
        styled_chars(rs.drop_last()) + styled_chars_of(rs.last())
    }
}

/// The styled characters of an optional run.
pub open spec fn styled_opt(r: Option<RunModel>) -> Seq<(char, (u8, u8, u8), bool, bool)> {
    match r {
        Some(x) => styled_chars_of(x),
        None => Seq::empty(),
    }
}

proof fn lemma_fold_runs_styled(cells: Seq<RunModel>)
    ensures
        styled_chars(fold_runs(cells).0) + styled_opt(fold_runs(cells).1) == styled_chars(cells),
    decreases cells.len(),
{
    if cells.len() == 0 {
        assert(styled_chars(Seq::<RunModel>::empty()) + styled_opt(None) =~= styled_chars(cells));
    } else {
        let prefix = cells.drop_last();
        lemma_fold_runs_styled(prefix);
        lemma_fold_runs(prefix);
        let (done, cur) = fold_runs(prefix);
        let c = cells.last();
        match cur {
            None => {
                assert(styled_chars(done) =~= Seq::empty());
                assert(styled_chars(prefix) =~= Seq::empty());
                assert(styled_chars(fold_runs(cells).0) + styled_opt(fold_runs(cells).1)
                    =~= styled_chars(cells));
            },
            Some(r) => {
                if same_style(r, c) {
                    let m = RunModel { text: r.text + c.text, ..r };
                    assert(styled_chars_of(m) =~= styled_chars_of(r) + styled_chars_of(c));
                    assert(styled_chars(done) + styled_chars_of(m) =~= (styled_chars(done)
                        + styled_chars_of(r)) + styled_chars_of(c));
                } else if r.text.len() > 0 {
                    let d2 = done.push(r);
                    assert(d2.drop_last() =~= done);
                    assert(styled_chars(d2) == styled_chars(done) + styled_chars_of(r));
                    assert(styled_chars(d2) + styled_chars_of(c) =~= (styled_chars(done)
                        + styled_chars_of(r)) + styled_chars_of(c));
                } else {
                    assert(styled_chars_of(r) =~= Seq::empty());
                    assert(styled_chars(done) + styled_chars_of(c) =~= (styled_chars(done)
                        + styled_chars_of(r)) + styled_chars_of(c));
                }
            },
        }
    }
}

/// Grouping a row into runs keeps every character's look: the characters of
/// the runs, one after another, each with its run's colour, boldness and
/// slant, are those of the cells, each with its own cell's. So a cell is
/// never drawn in another cell's colour or style (an italic cell stays
/// italic even beside an upright one of the same colour).
pub proof fn law_runs_keep_style(cells: Seq<RunModel>)
    ensures
        styled_chars(runs_of(cells)) == styled_chars(cells),
{
    lemma_fold_runs_styled(cells);
    let (done, cur) = fold_runs(cells);
    match cur {
        Some(r) => {
            if r.text.len() > 0 {
                let d2 = done.push(r);
                assert(d2.drop_last() =~= done);
            } else {
                assert(styled_chars_of(r) =~= Seq::empty());
                assert(styled_chars(done) + styled_chars_of(r) =~= styled_chars(done));
            }
        },
        None => {
            assert(styled_chars(done) + styled_opt(None) =~= styled_chars(done));
        },
    }
}

proof fn lemma_clean_rows(cache: Seq<Seq<RunModel>>, rows: Seq<RowUpdate>)
    requires
        forall|i: int| 0 <= i < rows.len() ==> !(#[trigger] rows[i]).dirty && rows[i].line < cache.len(),
    ensures
        rows_step(cache, rows) == (cache, false),
    decreases rows.len(),
{
    if rows.len() > 0 {
        let prefix = rows.drop_last();
        assert forall|i: int| 0 <= i < prefix.len() implies !(#[trigger] prefix[i]).dirty && prefix[i].line
            < cache.len() by {
            assert(prefix[i] == rows[i]);
        }
        lemma_clean_rows(cache, prefix);
        assert(rows.last() == rows[rows.len() - 1]);
    }
}

/// A frame in which no row changed and no row is new leaves the cache as
/// it was and reports no change, so that the text is not laid out again;
/// and after any frame the cache holds no more rows than the terminal.
pub proof fn law_row_cache_frames(cache: Seq<Seq<RunModel>>, rows: Seq<RowUpdate>, num_rows: u16)
    ensures
        frame_step(cache, rows, num_rows).0.len() <= num_rows,
        (forall|i: int| 0 <= i < rows.len() ==> !(#[trigger] rows[i]).dirty && rows[i].line < cache.len())
            && cache.len() <= num_rows ==> frame_step(cache, rows, num_rows) == (cache, false),
{
    if (forall|i: int| 0 <= i < rows.len() ==> !(#[trigger] rows[i]).dirty && rows[i].line < cache.len()) {
        lemma_clean_rows(cache, rows);
    }
}

} // verus!
