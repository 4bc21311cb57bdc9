//! Screen geometry: which part of each table column a horizontally
//! scrolled viewport shows, how many list items fit, the container table's
//! columns, and where popups go.

use crate::config::same_text;
use crate::layout::ColWidth;
use crate::session::Mode;
use crate::text::{
    chars_of, decimal, decimal_string, is_keyish, keyish, lead_ws, lead_ws_len, str_width, str_width_of,
};
use vstd::prelude::*;
use vstd::string::StringExecFns;

verus! {

/// Where column `i` starts when columns of `ws` are laid out after a
/// two-cell selection marker, two cells apart.
pub open spec fn col_start(ws: Seq<u16>, i: int) -> int
    decreases i,
{
    if i <= 0 {
        2
    } else {
        col_start(ws, i - 1) + ws[i - 1] + 2
    }
}

proof fn lemma_col_start_bound(ws: Seq<u16>, i: int)
    requires
        0 <= i <= ws.len(),
    ensures
        2 <= col_start(ws, i) <= 2 + i * 65537,
    decreases i,
{
    if i > 0 {
        lemma_col_start_bound(ws, i - 1);
    }
}

/// Positions in a table, measured from the selection marker: each column's
/// `[start, end)`, the columns before `anchored` frozen on the left.
pub struct TableViewport {
    pub columns: Vec<(usize, usize)>,
    pub anchored: usize,
    pub frozen_width: usize,
    pub width: usize,
    pub max_offset: usize,
}

impl TableViewport {
    /// Lay out columns of `widths` for a viewport `width` cells wide, the
    /// first `anchored` columns frozen.
    pub fn new(widths: &[u16], anchored: usize, width: u16) -> (r: TableViewport)
        requires
            widths@.len() < 65535,
        ensures
            r.columns@.len() == widths@.len(),
            forall|i: int| 0 <= i < widths@.len() ==> #[trigger] r.columns@[i] == (
                col_start(widths@, i) as usize,
                (col_start(widths@, i) + widths@[i]) as usize,
            ),
            r.anchored == anchored,
            r.width == width,
            r.frozen_width == if anchored < widths@.len() {
                col_start(widths@, anchored as int)
            } else {
                col_start(widths@, widths@.len() as int) - 2
            },
            r.max_offset == if r.frozen_width < width {
                if col_start(widths@, widths@.len() as int) - 2 > width {
                    col_start(widths@, widths@.len() as int) - 2 - width
                } else {
                    0
                }
            } else {
                0
            },
    {
        let n = widths.len();
        let mut columns: Vec<(usize, usize)> = Vec::new();
        let mut end: usize = 2;
        let mut k: usize = 0;
        while k < n
            invariant
                n == widths@.len(),
                n < 65535,
                k <= n,
                end == col_start(widths@, k as int),
                columns@.len() == k,
                forall|i: int| 0 <= i < k ==> #[trigger] columns@[i] == (
                    col_start(widths@, i) as usize,
                    (col_start(widths@, i) + widths@[i]) as usize,
                ),
            decreases n - k,
        {
            proof {
                lemma_col_start_bound(widths@, k as int);
                assert(k * 65537 <= 65535 * 65537) by (nonlinear_arith)
                    requires
                        k < 65535,
                ;
            }
            let start = end;
            end = end + (widths[k] as usize);
            columns.push((start, end));
            end = end + 2;
            k = k + 1;
        }
        proof {
            lemma_col_start_bound(widths@, n as int);
        }
        let total = end - 2;
        proof {
            if anchored < n {
                lemma_col_start_bound(widths@, anchored as int);
                assert(anchored * 65537 <= 65535 * 65537) by (nonlinear_arith)
                    requires
                        anchored < 65535,
                ;
            }
        }
        let frozen_width = if anchored < n { columns[anchored].0 } else { total };
        let w = width as usize;
        let max_offset = if frozen_width < w {
            if total > w { total - w } else { 0 }
        } else {
            0
        };
        TableViewport { columns, anchored, frozen_width, width: w, max_offset }
    }
}

/// What column `i` shows at horizontal `offset`: its visible cells on
/// screen, its index, and how far into the column they start.
pub open spec fn visible_range(vp: TableViewport, offset: int, i: int) -> Option<(u16, u16, usize, u16)> {
    let (start, end) = vp.columns@[i];
    let (left, right, shift) = if i < vp.anchored {
        (0int, vp.width as int, 0int)
    } else {
        (vp.frozen_width + offset, vp.width + offset, offset)
    };
    let vs = if start >= left { start as int } else { left };
    let ve = if end <= right { end as int } else { right };
    if vs < ve {
        Some(((vs - shift) as u16, (ve - shift) as u16, i as usize, (vs - start) as u16))
    } else {
        None
    }
}

/// The visible ranges of the first `n` columns, in order.
pub open spec fn visible_ranges(vp: TableViewport, offset: int, n: int) -> Seq<(u16, u16, usize, u16)>
    decreases n,
{
    if n <= 0 {
        Seq::empty()
    } else {
        visible_ranges(vp, offset, n - 1) + match visible_range(vp, offset, n - 1) {
            Some(r) => seq![r],
            None => Seq::empty(),
        }
    }
}

impl TableViewport {
    /// Visible ranges of the columns at horizontal `offset` (see
    /// `visible_range`), columns entirely out of view left out.
    pub fn ranges(&self, offset: usize) -> (r: Vec<(u16, u16, usize, u16)>)
        requires
            self.frozen_width + offset + self.width <= usize::MAX,
            forall|i: int| 0 <= i < self.columns@.len() ==> (#[trigger] self.columns@[i]).0 <= self.columns@[i].1
                && self.columns@[i].1 - self.columns@[i].0 <= 65535,
            self.width <= 65535,
        ensures
            r@ == visible_ranges(*self, offset as int, self.columns@.len() as int),
    {
        let mut out: Vec<(u16, u16, usize, u16)> = Vec::new();
        let n = self.columns.len();
        let mut i: usize = 0;
        while i < n
            invariant
                n == self.columns@.len(),
                i <= n,
                self.frozen_width + offset + self.width <= usize::MAX,
                self.width <= 65535,
                forall|j: int| 0 <= j < self.columns@.len() ==> (#[trigger] self.columns@[j]).0 <= self.columns@[j].1
                    && self.columns@[j].1 - self.columns@[j].0 <= 65535,
                out@ == visible_ranges(*self, offset as int, i as int),
            decreases n - i,
        {
            let (start, end) = self.columns[i];
            let (left, right, shift) = if i < self.anchored {
                (0, self.width, 0)
            } else {
                (self.frozen_width + offset, self.width + offset, offset)
            };
            let vs = if start >= left { start } else { left };
            let ve = if end <= right { end } else { right };
            if vs < ve {
                proof {
                    assert(self.columns@[i as int].1 - self.columns@[i as int].0 <= 65535);
                }
                let item = ((vs - shift) as u16, (ve - shift) as u16, i, (vs - start) as u16);
                out.push(item);
            }
            i = i + 1;
        }
        out
    }
}

/// How many of `hs` fit, one after another, in `rows` rows.
pub open spec fn fit_items(hs: Seq<usize>, rows: int) -> int
    decreases hs.len(),
{
    if hs.len() == 0 || hs[0] > rows {
        0
    } else {
        1 + fit_items(hs.drop_first(), rows - hs[0])
    }
}

/// How many list items, from `offset` on, fit in `rows` rows: at least one.
pub fn visible_items(heights: &[usize], offset: usize, rows: usize) -> (r: usize)
    ensures
        r == {
            let k = fit_items(if offset <= heights@.len() { heights@.skip(offset as int) } else { Seq::empty() }, rows as int);
            if k < 1 { 1 } else { k }
        },
{
    let ghost hs = if offset <= heights@.len() { heights@.skip(offset as int) } else { Seq::<usize>::empty() };
    let n = heights.len();
    let mut count: usize = 0;
    let mut used: usize = 0;
    let mut i = offset;
    proof {
        if offset > n {
            assert(fit_items(hs, rows as int) == 0);
        } else {
            assert(heights@.skip(offset as int).skip(0) =~= hs);
        }
    }
    while i < n
        invariant
            n == heights@.len(),
            offset <= i <= n || (offset > n && i == offset),
            count == i - offset,
            used <= rows,
            offset <= n ==> fit_items(hs, rows as int) == count + fit_items(heights@.skip(i as int), rows - used),
            hs == (if offset <= heights@.len() { heights@.skip(offset as int) } else { Seq::<usize>::empty() }),
        ensures
            offset <= n ==> fit_items(hs, rows as int) == count,
            offset > n ==> count == 0,
        decreases n - i,
    {
        let h = heights[i];
        let ghost t = heights@.skip(i as int);
        assert(t[0] == h);
        if h > rows - used {
            break;
        }
        assert(t.drop_first() =~= heights@.skip(i + 1));
        used = used + h;
        count = count + 1;
        i = i + 1;
    }
    if count < 1 { 1 } else { count }
}

/// Terminal cells the header takes besides the information and hint areas.
pub const HEADER_CHROME: u16 = 28;

/// The narrowest information area of the header.
pub const HEADER_INFO_MIN: u16 = 44;

/// The width of the header's key-hint area.
pub const HEADER_HINTS_WIDTH: u16 = 46;

/// Whether a frame this wide has room for the header's key hints.
pub fn header_hints_fit(frame_width: u16) -> (r: bool)
    ensures
        r == (frame_width - HEADER_CHROME >= HEADER_INFO_MIN + HEADER_HINTS_WIDTH),
{
    let inner = if frame_width > HEADER_CHROME { frame_width - HEADER_CHROME } else { 0 };
    inner >= HEADER_INFO_MIN + HEADER_HINTS_WIDTH
}

/// A rectangle of terminal cells.
#[derive(Clone, Copy, Debug, PartialEq, Eq, Structural)]
pub struct Rect {
    pub x: u16,
    pub y: u16,
    pub width: u16,
    pub height: u16,
}

/// `r` lies on the screen: its right and bottom edges fit in a `u16`.
pub open spec fn on_screen(r: Rect) -> bool {
    r.x + r.width <= 65535 && r.y + r.height <= 65535
}

/// A `width` × `height` rectangle centered in `r`, shrunk to fit it.
pub open spec fn centered(width: int, height: int, r: Rect) -> Rect {
    let w = if width < r.width { width } else { r.width as int };
    let h = if height < r.height { height } else { r.height as int };
    Rect { x: (r.x + (r.width - w) / 2) as u16, y: (r.y + (r.height - h) / 2) as u16, width: w as u16, height: h as u16 }
}

/// Center a fixed-size rectangle within `r`, clamped to `r`'s bounds.
pub fn centered_rect_exact(width: u16, height: u16, r: Rect) -> (c: Rect)
    requires
        on_screen(r),
    ensures
        c == centered(width as int, height as int, r),
{
    let w = if width < r.width { width } else { r.width };
    let h = if height < r.height { height } else { r.height };
    Rect { x: r.x + (r.width - w) / 2, y: r.y + (r.height - h) / 2, width: w, height: h }
}

/// `percent` (at most 100) of `total`, rounded down, but at least `min`.
pub open spec fn popup_size(total: u16, percent: u16, min: u16) -> int {
    let p = total * (if percent < 100 { percent as int } else { 100 }) / 100;
    if p < min { min as int } else { p }
}

/// A rectangle `percent_x` × `percent_y` of `r` (each at most 100), but at
/// least `min_width` × `min_height`, centered in `r` and clamped to it.
pub fn centered_rect_with_min(percent_x: u16, percent_y: u16, min_width: u16, min_height: u16, r: Rect) -> (c: Rect)
    requires
        on_screen(r),
    ensures
        c == centered(popup_size(r.width, percent_x, min_width), popup_size(r.height, percent_y, min_height), r),
{
    let px: u32 = if percent_x < 100 { percent_x as u32 } else { 100 };
    let py: u32 = if percent_y < 100 { percent_y as u32 } else { 100 };
    assert((r.width as u32) * px <= 65535 * 100) by (nonlinear_arith)
        requires
            px <= 100,
            r.width <= 65535,
    ;
    assert((r.height as u32) * py <= 65535 * 100) by (nonlinear_arith)
        requires
            py <= 100,
            r.height <= 65535,
    ;
    let pw = ((r.width as u32) * px / 100) as u16;
    let ph = ((r.height as u32) * py / 100) as u16;
    let w = if pw < min_width { min_width } else { pw };
    let h = if ph < min_height { min_height } else { ph };
    centered_rect_exact(w, h, r)
}

/// Sum of `ws`.
pub open spec fn sum_of(ws: Seq<usize>) -> int
    decreases ws.len(),
{
    if ws.len() == 0 {
        0
    } else {
        sum_of(ws.drop_last()) + ws.last()
    }
}

/// Number of non-zero entries of `ws`.
pub open spec fn nonzero_count(ws: Seq<usize>) -> int
    decreases ws.len(),
{
    if ws.len() == 0 {
        0
    } else {
        nonzero_count(ws.drop_last()) + if ws.last() > 0 { 1int } else { 0int }
    }
}

/// Columns of the container table.
pub const CONTAINER_COLUMNS: usize = 8;

/// Gap between two container-table columns.
pub const C_GAP: usize = 2;

/// Width of the container table's shown columns: their widths plus one gap
/// between each two shown (non-zero) columns.
pub open spec fn columns_width(ws: Seq<usize>) -> int {
    sum_of(ws) + if nonzero_count(ws) > 0 { (nonzero_count(ws) - 1) * 2 } else { 0 }
}

proof fn lemma_nonzero_count_bound(ws: Seq<usize>)
    ensures
        0 <= nonzero_count(ws) <= ws.len(),
        sum_of(ws) >= 0,
    decreases ws.len(),
{
    if ws.len() > 0 {
        lemma_nonzero_count_bound(ws.drop_last());
    }
}

proof fn lemma_sum_prefix(ws: Seq<usize>, k: int, j: int)
    requires
        0 <= k <= j <= ws.len(),
    ensures
        sum_of(ws.take(k)) <= sum_of(ws.take(j)),
    decreases j - k,
{
    if k < j {
        lemma_sum_prefix(ws, k, j - 1);
        assert(ws.take(j).drop_last() =~= ws.take(j - 1));
    }
}

/// The total width of the container table's columns (see `columns_width`),
/// which must fit in a `usize`.
pub fn container_columns_width(widths: &[usize; CONTAINER_COLUMNS]) -> (r: usize)
    requires
        columns_width(widths@) <= usize::MAX,
    ensures
        r == columns_width(widths@),
{
    let mut sum: usize = 0;
    let mut count: usize = 0;
    let mut k: usize = 0;
    proof {
        lemma_nonzero_count_bound(widths@);
        assert(widths@.take(8) =~= widths@);
    }
    while k < 8
        invariant
            widths@.len() == 8,
            columns_width(widths@) <= usize::MAX,
            sum_of(widths@) <= columns_width(widths@),
            k <= 8,
            sum == sum_of(widths@.take(k as int)),
            count == nonzero_count(widths@.take(k as int)),
            count <= k,
        decreases 8 - k,
    {
        assert(widths@.take(k + 1).drop_last() =~= widths@.take(k as int));
        proof {
            lemma_sum_prefix(widths@, k + 1, 8);
            assert(widths@.take(8) =~= widths@);
        }
        sum = sum + widths[k];
        if widths[k] > 0 {
            count = count + 1;
        }
        k = k + 1;
    }
    assert(widths@.take(8) =~= widths@);
    if count > 0 { sum + (count - 1) * C_GAP } else { sum }
}

proof fn lemma_columns_width_bound(ws: Seq<usize>)
    requires
        ws.len() == 8,
        forall|i: int| 0 <= i < 8 ==> ws[i] <= 0x1000_0000,
    ensures
        columns_width(ws) <= 0x8000_0010,
{
    lemma_nonzero_count_bound(ws);
    assert forall|k: int| 0 <= k <= 8 implies sum_of(#[trigger] ws.take(k)) <= k * 0x1000_0000 by {
        lemma_sum_prefix_bound(ws, k);
    }
    assert(ws.take(8) =~= ws);
}

proof fn lemma_sum_prefix_bound(ws: Seq<usize>, k: int)
    requires
        0 <= k <= ws.len(),
        forall|i: int| 0 <= i < ws.len() ==> ws[i] <= 0x1000_0000,
    ensures
        sum_of(ws.take(k)) <= k * 0x1000_0000,
    decreases k,
{
    if k > 0 {
        lemma_sum_prefix_bound(ws, k - 1);
        assert(ws.take(k).drop_last() =~= ws.take(k - 1));
    }
}

/// The largest of `xs`, or `dflt` when there are none.
pub open spec fn max_or(xs: Seq<int>, dflt: int) -> int
    decreases xs.len(),
{
    if xs.len() == 0 {
        dflt
    } else if xs.len() == 1 {
        xs[0]
    } else {
        let m = max_or(xs.drop_last(), dflt);
        if m > xs.last() { m } else { xs.last() }
    }
}

/// `x` kept within `[lo, hi]`.
pub open spec fn clamp(x: int, lo: int, hi: int) -> int {
    if x < lo { lo } else if x > hi { hi } else { x }
}

/// Characters `n` takes in decimal, a minus sign included.
pub open spec fn decimal_len(n: i32) -> int {
    if n < 0 { decimal((-(n as int)) as nat).len() + 1int } else { decimal(n as nat).len() as int }
}

/// The widest name (display columns), or 4 with no names.
pub open spec fn widest(names: Seq<String>, dflt: int) -> int {
    max_or(names.map_values(|s: String| str_width(s@) as int), dflt)
}

/// Width of shown columns (see `columns_width`) over integers.
pub open spec fn shown_width(ws: Seq<int>) -> int {
    columns_width(ws.map_values(|w: int| w as usize))
}

/// The container table's column widths for `available` cells, given the
/// widest container name, state and restart count: the percentage columns
/// go first, then the usage columns, then the ready column; a state column
/// that still does not fit shrinks; the name column takes what is left (at
/// most its widest name).
pub open spec fn container_widths(nw: int, sw: int, rw: int, available: int) -> Seq<int> {
    let w0 = seq![8int, 5, sw, rw, 7, 9, 8, 9];
    let w1 = if shown_width(w0) <= available { w0 } else { w0.update(5, 0).update(7, 0) };
    let w2 = if shown_width(w1) <= available { w1 } else { w1.update(4, 0).update(6, 0) };
    let w3 = if shown_width(w2) <= available { w2 } else { w2.update(1, 0) };
    let w4 = if shown_width(w3) > available {
        let room = if available > 8 + rw + 4 { available - (8 + rw + 4) } else { 0 };
        w3.update(2, if room < sw { room } else { sw })
    } else {
        w3
    };
    let other = shown_width(w4.update(0, 0));
    let gap = if other > 0 { 2int } else { 0 };
    let left = if available > other + gap { available - (other + gap) } else { 0 };
    w4.update(0, if left < nw { left } else { nw })
}

fn widest_of(names: &Vec<String>, dflt: usize) -> (r: usize)
    ensures
        r == widest(names@, dflt as int),
{
    let ghost ws = names@.map_values(|s: String| str_width(s@) as int);
    let n = names.len();
    if n == 0 {
        return dflt;
    }
    let mut m = str_width_of(names[0].as_str());
    let mut k: usize = 1;
    assert(ws.take(1) =~= seq![ws[0]]);
    while k < n
        invariant
            n == names@.len(),
            ws == names@.map_values(|s: String| str_width(s@) as int),
            1 <= k <= n,
            m == max_or(ws.take(k as int), dflt as int),
        decreases n - k,
    {
        let w = str_width_of(names[k].as_str());
        proof {
            let t = ws.take(k + 1);
            assert(t.drop_last() =~= ws.take(k as int));
            assert(t.last() == w);
            if k == 1 {
                assert(ws.take(1) =~= seq![ws[0]]);
            }
        }
        if w > m {
            m = w;
        }
        k = k + 1;
    }
    assert(ws.take(n as int) =~= ws);
    m
}


/// The widths as integers.
pub open spec fn as_ints(w: Seq<usize>) -> Seq<int> {
    w.map_values(|x: usize| x as int)
}

proof fn lemma_shown_width(w: Seq<usize>)
    ensures
        shown_width(as_ints(w)) == columns_width(w),
{
    assert(as_ints(w).map_values(|x: int| x as usize) =~= w);
}

fn decimal_len_of(n: i32) -> (r: usize)
    ensures
        r == decimal_len(n),
        r <= 11,
{
    let m: u64 = if n < 0 { (-(n as i64)) as u64 } else { n as u64 };
    let d = decimal_string(m);
    let cs = crate::text::chars_of(d.as_str());
    proof {
        lemma_decimal_len(m as nat);
    }
    if n < 0 { cs.len() + 1 } else { cs.len() }
}

/// `10` to the power `k`.
pub open spec fn pow10(k: nat) -> nat
    decreases k,
{
    if k == 0 { 1 } else { 10 * pow10((k - 1) as nat) }
}

proof fn lemma_decimal_len_upto(n: nat, k: nat)
    requires
        k >= 1,
        n < pow10(k),
    ensures
        decimal(n).len() <= k,
    decreases k,
{
    if n >= 10 {
        if k == 1 {
            assert(pow10(1) == 10) by {
                reveal_with_fuel(pow10, 2);
            }
        } else {
            let p = pow10((k - 1) as nat);
            assert(n / 10 < p) by (nonlinear_arith)
                requires
                    n < 10 * p,
                    n >= 10,
            ;
            lemma_decimal_len_upto(n / 10, (k - 1) as nat);
        }
    }
}

proof fn lemma_decimal_len(n: nat)
    ensures
        n <= 0x8000_0000 ==> decimal(n).len() <= 10,
        decimal(n).len() >= 1,
    decreases n,
{
    if n >= 10 {
        lemma_decimal_len(n / 10);
    }
    if n <= 0x8000_0000 {
        assert(pow10(10) == 10_000_000_000) by {
            reveal_with_fuel(pow10, 11);
        }
        lemma_decimal_len_upto(n, 10);
    }
}


/// Width of the restarts column: the longest restart count, at least 8.
pub open spec fn restart_width(restarts: Seq<i32>) -> int {
    let m = max_or(restarts.map_values(|n: i32| decimal_len(n)), 8);
    if m < 8 { 8 } else { m }
}

fn max_decimal_len(restarts: &Vec<i32>) -> (r: usize)
    ensures
        r == max_or(restarts@.map_values(|n: i32| decimal_len(n)), 8),
        r <= 11,
{
    let ghost ls = restarts@.map_values(|n: i32| decimal_len(n));
    let n = restarts.len();
    if n == 0 {
        return 8;
    }
    let mut m = decimal_len_of(restarts[0]);
    assert(ls.take(1) =~= seq![ls[0]]);
    let mut k: usize = 1;
    while k < n
        invariant
            n == restarts@.len(),
            ls == restarts@.map_values(|n: i32| decimal_len(n)),
            1 <= k <= n,
            m == max_or(ls.take(k as int), 8),
            m <= 11,
        decreases n - k,
    {
        let w = decimal_len_of(restarts[k]);
        proof {
            let t = ls.take(k + 1);
            assert(t.drop_last() =~= ls.take(k as int));
            assert(t.last() == w);
        }
        if w > m {
            m = w;
        }
        k = k + 1;
    }
    assert(ls.take(n as int) =~= ls);
    m
}

fn shown_width_of(w: &[usize; CONTAINER_COLUMNS]) -> (r: usize)
    requires
        forall|i: int| 0 <= i < 8 ==> w@[i] <= 0x1000_0000,
    ensures
        r == shown_width(as_ints(w@)),
        r <= 0x8000_0010,
{
    proof {
        lemma_shown_width(w@);
        lemma_columns_width_bound(w@);
    }
    container_columns_width(w)
}

#[verifier::rlimit(60)]
/// The container table's column widths for `available` cells (see
/// `container_widths`): `names` are the container names, `states` their
/// state texts, `restarts` their restart counts.
pub fn container_column_widths(names: &Vec<String>, states: &Vec<String>, restarts: &Vec<i32>, available: usize) -> (r: [usize; CONTAINER_COLUMNS])
    ensures
        as_ints(r@) == container_widths(
            clamp(widest(names@, 4), 8, 40),
            clamp(widest(states@, 7), 7, 32),
            restart_width(restarts@),
            available as int,
        ),
{
    let nw0 = widest_of(names, 4);
    let nw = if nw0 < 8 { 8 } else if nw0 > 40 { 40 } else { nw0 };
    let sw0 = widest_of(states, 7);
    let sw = if sw0 < 7 { 7 } else if sw0 > 32 { 32 } else { sw0 };
    let rw0 = max_decimal_len(restarts);
    let rw = if rw0 < 8 { 8 } else { rw0 };
    let ghost spec_w = container_widths(nw as int, sw as int, rw as int, available as int);
    let mut w: [usize; CONTAINER_COLUMNS] = [8, 5, sw, rw, 7, 9, 8, 9];
    let ghost w0 = seq![8int, 5, sw as int, rw as int, 7, 9, 8, 9];
    assert(as_ints(w@) =~= w0);
    if shown_width_of(&w) > available {
        w.set(5, 0);
        w.set(7, 0);
        assert(as_ints(w@) =~= w0.update(5, 0).update(7, 0));
    }
    let ghost w1 = as_ints(w@);
    if shown_width_of(&w) > available {
        w.set(4, 0);
        w.set(6, 0);
        assert(as_ints(w@) =~= w1.update(4, 0).update(6, 0));
    }
    let ghost w2 = as_ints(w@);
    if shown_width_of(&w) > available {
        w.set(1, 0);
        assert(as_ints(w@) =~= w2.update(1, 0));
    }
    let ghost w3 = as_ints(w@);
    if shown_width_of(&w) > available {
        let room = if available > 8 + rw + 2 * C_GAP { available - (8 + rw + 2 * C_GAP) } else { 0 };
        w.set(2, if room < sw { room } else { sw });
        assert(as_ints(w@) =~= w3.update(2, if room < sw { room as int } else { sw as int }));
    }
    let ghost w4 = as_ints(w@);
    w.set(0, 0);
    assert(as_ints(w@) =~= w4.update(0, 0));
    let other = shown_width_of(&w);
    let gap = if other > 0 { C_GAP } else { 0 };
    let left = if available > other + gap { available - (other + gap) } else { 0 };
    w.set(0, if left < nw { left } else { nw });
    assert(as_ints(w@) =~= w4.update(0, if left < nw { left as int } else { nw as int }));
    w
}

/// Display width of a table cell in terminal columns, at most `u16::MAX`.
pub fn cell_width(s: &str) -> (r: u16)
    ensures
        r == if str_width(s@) > u16::MAX { u16::MAX as usize } else { str_width(s@) },
{
    let w = str_width_of(s);
    if w > 65535 {
        65535
    } else {
        w as u16
    }
}

/// A document view's title, with the active search and the current match
/// (` title · /query [2/5] `), or `[no matches]`.
pub open spec fn doc_title_text(title: Seq<char>, filter: Seq<char>, matches: nat, current: nat) -> Seq<char> {
    if filter.len() == 0 {
        " "@ + title + " "@
    } else if matches == 0 {
        " "@ + title + " · /"@ + filter + " [no matches] "@
    } else {
        " "@ + title + " · /"@ + filter + " ["@ + decimal((if current < matches - 1 { current } else { (matches - 1) as nat }) + 1)
            + "/"@ + decimal(matches) + "] "@
    }
}

/// A document view's title for search `filter` with `matches` matching
/// lines, the cursor on match `current` (from 0).
pub fn doc_title(title: &str, filter: &str, matches: usize, current: usize) -> (r: String)
    ensures
        r@ == doc_title_text(title@, filter@, matches as nat, current as nat),
{
    let mut t = String::from_str(" ");
    t.append(title);
    if filter.is_empty() {
        t.append(" ");
        return t;
    }
    t.append(" · /");
    t.append(filter);
    if matches == 0 {
        t.append(" [no matches] ");
        return t;
    }
    let cur = if current < matches - 1 { current } else { matches - 1 } + 1;
    t.append(" [");
    let c = decimal_string(cur as u64);
    t.append(c.as_str());
    t.append("/");
    let m = decimal_string(matches as u64);
    t.append(m.as_str());
    t.append("] ");
    t
}

/// The tone of the status bar's sync indicator.
#[derive(Clone, Copy, Debug, PartialEq, Eq, Structural)]
pub enum SyncTone {
    Static,
    Live,
    Syncing,
}

/// Whether `mode` shows a static document: a fetched detail, diff or
/// explanation, a directory listing read once, or a search inside a detail
/// or diff.
pub open spec fn static_document(mode: Mode, doc_filter_return: Mode) -> bool {
    match mode {
        Mode::Detail | Mode::Diff | Mode::Explain | Mode::PvcExplore => true,
        Mode::DocFilter => doc_filter_return == Mode::Detail || doc_filter_return == Mode::Diff,
        _ => false,
    }
}

/// The status indicator for views without an active refresh source: a
/// static document says so; table data is live once the watch has synced.
pub fn sync_indicator(mode: Mode, doc_filter_return: Mode, synced: bool) -> (r: (&'static str, SyncTone))
    ensures
        r.1 == (if static_document(mode, doc_filter_return) {
            SyncTone::Static
        } else if synced {
            SyncTone::Live
        } else {
            SyncTone::Syncing
        }),
        r.0@ == match r.1 {
            SyncTone::Static => "○ static"@,
            SyncTone::Live => "● live"@,
            SyncTone::Syncing => "○ syncing"@,
        },
{
    let static_doc = match mode {
        Mode::Detail | Mode::Diff | Mode::Explain | Mode::PvcExplore => true,
        Mode::DocFilter => doc_filter_return == Mode::Detail || doc_filter_return == Mode::Diff,
        _ => false,
    };
    if static_doc {
        ("○ static", SyncTone::Static)
    } else if synced {
        ("● live", SyncTone::Live)
    } else {
        ("○ syncing", SyncTone::Syncing)
    }
}

/// The frame title: the program's name, then the connected cluster's
/// Kubernetes revision when it is known.
pub fn header_title(server_version: &str) -> (r: String)
    ensures
        r@ == if server_version@.len() == 0 {
            " sofka "@
        } else {
            " sofka "@ + "· K8s Rev: "@ + server_version@ + " "@
        },
{
    let mut t = String::from_str(" sofka ");
    if crate::text::chars_of(server_version).len() > 0 {
        t.append("· K8s Rev: ");
        t.append(server_version);
        t.append(" ");
    }
    t
}

/// What a piece of a describe-style line is: a comment, a key, the `: `
/// after it, the padding that aligns its value, the value, a section
/// header, or other text.
#[derive(Clone, Copy, Debug, PartialEq, Eq, Structural)]
pub enum YamlPart {
    Comment,
    Key,
    Separator,
    Padding,
    Value,
    Header,
    Text,
}

/// The first index at or after `i` where `: ` starts, or the length when
/// there is none.
pub open spec fn colon_space(cs: Seq<char>, i: int) -> int
    decreases cs.len() - i,
{
    if i < 0 || i + 1 >= cs.len() {
        cs.len() as int
    } else if cs[i] == ':' && cs[i + 1] == ' ' {
        i
    } else {
        colon_space(cs, i + 1)
    }
}

proof fn lemma_colon_space(cs: Seq<char>, i: int)
    requires
        0 <= i,
    ensures
        colon_space(cs, i) <= cs.len(),
        colon_space(cs, i) < cs.len() ==> colon_space(cs, i) + 1 < cs.len() && i <= colon_space(cs, i),
    decreases cs.len() - i,
{
    if i + 1 < cs.len() && !(cs[i] == ':' && cs[i + 1] == ' ') {
        lemma_colon_space(cs, i + 1);
    }
}

/// The pieces of a describe-style line: a comment (first non-blank `#`)
/// whole; `key: value` (a key-like text before the first `: `) as key,
/// separator, alignment padding and value, the last two when present; a
/// key-like text ending in `:` as a section header; anything else whole.
pub open spec fn yaml_parts_of(cs: Seq<char>) -> Seq<(Seq<char>, YamlPart)> {
    let t = cs.skip(lead_ws(cs));
    let idx = colon_space(cs, 0);
    if t.len() > 0 && t[0] == '#' {
        seq![(cs, YamlPart::Comment)]
    } else if idx < cs.len() && keyish(cs.take(idx)) {
        let after = cs.skip(idx + 2);
        let ws = lead_ws(after);
        let value = after.skip(ws);
        seq![(cs.take(idx), YamlPart::Key), (seq![':', ' '], YamlPart::Separator)] + (if ws > 0 {
            seq![(after.take(ws), YamlPart::Padding)]
        } else {
            Seq::empty()
        }) + (if value.len() > 0 {
            seq![(value, YamlPart::Value)]
        } else {
            Seq::empty()
        })
    } else if t.len() > 0 && t.last() == ':' && keyish(t.drop_last()) {
        seq![(cs, YamlPart::Header)]
    } else {
        seq![(cs, YamlPart::Text)]
    }
}

/// The texts and kinds of `parts`.
pub open spec fn parts_view(parts: Seq<(String, YamlPart)>) -> Seq<(Seq<char>, YamlPart)> {
    parts.map_values(|p: (String, YamlPart)| (p.0@, p.1))
}

/// Split a describe-style line into the pieces it is colored by (see
/// `yaml_parts_of`).
pub fn yaml_parts(line: &str) -> (r: Vec<(String, YamlPart)>)
    ensures
        parts_view(r@) == yaml_parts_of(line@),
{
    let cs = chars_of(line);
    let n = cs.len();
    let lead = lead_ws_len(&cs);
    let whole = String::from_str(line);
    if lead < n && cs[lead] == '#' {
        let r = vec![(whole, YamlPart::Comment)];
        assert(parts_view(r@) =~= yaml_parts_of(line@));
        return r;
    }
    proof {
        lemma_colon_space(line@, 0);
    }
    let mut idx: usize = 0;
    while idx < n && idx + 1 < n && !(cs[idx] == ':' && cs[idx + 1] == ' ')
        invariant
            cs@ == line@,
            n == cs@.len(),
            idx <= n,
            colon_space(cs@, idx as int) == colon_space(cs@, 0),
        decreases n - idx,
    {
        idx = idx + 1;
    }
    let found = idx < n && idx + 1 < n;
    if !found {
        assert(colon_space(cs@, 0) == n);
    }
    if found {
        let key = crate::logs::subrange_string(&cs, 0, idx);
        assert(key@ =~= line@.take(idx as int));
        if is_keyish(key.as_str()) {
            let after = crate::logs::subrange_string(&cs, idx + 2, n);
            let after_cs = chars_of(after.as_str());
            assert(after@ =~= line@.skip(idx + 2));
            let ws = lead_ws_len(&after_cs);
            let mut r: Vec<(String, YamlPart)> = Vec::new();
            r.push((key, YamlPart::Key));
            r.push((String::from_str(": "), YamlPart::Separator));
            let ghost head = parts_view(r@);
            proof {
                reveal_strlit(": ");
                assert(": "@ =~= seq![':', ' ']);
                assert(head =~= seq![(line@.take(idx as int), YamlPart::Key), (seq![':', ' '], YamlPart::Separator)]);
            }
            let m = after_cs.len();
            if ws > 0 {
                let pad = crate::logs::subrange_string(&after_cs, 0, ws);
                r.push((pad, YamlPart::Padding));
                assert(pad@ =~= after@.take(ws as int));
            }
            let ghost mid = parts_view(r@);
            if ws < m {
                let value = crate::logs::subrange_string(&after_cs, ws, m);
                assert(value@ =~= after@.skip(ws as int));
                r.push((value, YamlPart::Value));
            }
            proof {
                let after_s = line@.skip(idx + 2);
                let value_s = after_s.skip(ws as int);
                let pad_part: Seq<(Seq<char>, YamlPart)> = if ws > 0 { seq![(after_s.take(ws as int), YamlPart::Padding)] } else { Seq::empty() };
                let val_part: Seq<(Seq<char>, YamlPart)> = if value_s.len() > 0 { seq![(value_s, YamlPart::Value)] } else { Seq::empty() };
                assert(mid =~= head + pad_part);
                assert(parts_view(r@) =~= head + pad_part + val_part);
            }
            return r;
        }
    }
    let t = crate::logs::subrange_string(&cs, lead, n);
    assert(t@ =~= line@.skip(lead as int));
    let tn = n - lead;
    if tn > 0 && cs[n - 1] == ':' {
        let head = crate::logs::subrange_string(&cs, lead, n - 1);
        assert(head@ =~= t@.drop_last());
        if is_keyish(head.as_str()) {
            let r = vec![(whole, YamlPart::Header)];
            assert(parts_view(r@) =~= yaml_parts_of(line@));
            return r;
        }
    }
    let r = vec![(whole, YamlPart::Text)];
    assert(parts_view(r@) =~= yaml_parts_of(line@));
    r
}

/// How a resource table column is sized when nothing is configured for
/// it, by its header: NAME takes most of the surplus, the volatile numbers
/// keep a fixed width, STATUS a fixed one (a cell wider for nodes), the
/// long texts of CRD and Flux views get caps or weights, and any other
/// column shares the space with weight one.
pub open spec fn header_rule(h: Seq<char>, nodes: bool) -> ColWidth {
    if h == "NAME"@ {
        ColWidth::Flex(6)
    } else if h == "NAMESPACE"@ {
        ColWidth::Flex(2)
    } else if h == "NODE"@ || h == "CLAIM"@ || h == "VOLUME"@ || h == "HOSTS"@ {
        ColWidth::Flex(1)
    } else if h == "AGE"@ {
        ColWidth::Cap(7)
    } else if h == "CPU"@ || h == "MEM"@ {
        ColWidth::Exact(8)
    } else if h == "%CPU"@ || h == "%MEM"@ || h == "PODS"@ {
        ColWidth::Exact(5)
    } else if h == "STATUS"@ {
        ColWidth::Exact(if nodes { 27 } else { 26 })
    } else if h == "READY"@ || h == "RESTARTS"@ {
        ColWidth::Cap(10)
    } else if h == "GROUP"@ {
        ColWidth::Cap(30)
    } else if h == "KIND"@ || h == "VERSIONS"@ {
        ColWidth::Cap(20)
    } else if h == "SCOPE"@ {
        ColWidth::Cap(12)
    } else if h == "MESSAGE"@ {
        ColWidth::Flex(4)
    } else if h == "REVISION"@ {
        ColWidth::Flex(2)
    } else if h == "SUSPENDED"@ {
        ColWidth::Cap(9)
    } else {
        ColWidth::Flex(1)
    }
}

/// The sizing rule of a resource table column: a configured width wins,
/// then a metric column's fixed width, then the rule for its header (see
/// `header_rule`).
pub open spec fn column_rule_of(configured: Option<u16>, metric: Option<u16>, h: Seq<char>, nodes: bool) -> ColWidth {
    match configured {
        Some(w) => ColWidth::Exact(w),
        None => match metric {
            Some(w) => ColWidth::Exact(w),
            None => header_rule(h, nodes),
        },
    }
}

/// The sizing rule of a resource table column (see `column_rule_of`);
/// `nodes` is whether the table lists nodes.
pub fn column_rule(configured: Option<u16>, metric: Option<u16>, header: &String, nodes: bool) -> (r: ColWidth)
    ensures
        r == column_rule_of(configured, metric, header@, nodes),
{
    if let Some(w) = configured {
        return ColWidth::Exact(w);
    }
    if let Some(w) = metric {
        return ColWidth::Exact(w);
    }
    if same_text(header, "NAME") {
        ColWidth::Flex(6)
    } else if same_text(header, "NAMESPACE") {
        ColWidth::Flex(2)
    } else if same_text(header, "NODE") || same_text(header, "CLAIM") || same_text(header, "VOLUME") || same_text(
        header,
        "HOSTS",
    ) {
        ColWidth::Flex(1)
    } else if same_text(header, "AGE") {
        ColWidth::Cap(7)
    } else if same_text(header, "CPU") || same_text(header, "MEM") {
        ColWidth::Exact(8)
    } else if same_text(header, "%CPU") || same_text(header, "%MEM") || same_text(header, "PODS") {
        ColWidth::Exact(5)
    } else if same_text(header, "STATUS") {
        ColWidth::Exact(if nodes { 27 } else { 26 })
    } else if same_text(header, "READY") || same_text(header, "RESTARTS") {
        ColWidth::Cap(10)
    } else if same_text(header, "GROUP") {
        ColWidth::Cap(30)
    } else if same_text(header, "KIND") || same_text(header, "VERSIONS") {
        ColWidth::Cap(20)
    } else if same_text(header, "SCOPE") {
        ColWidth::Cap(12)
    } else if same_text(header, "MESSAGE") {
        ColWidth::Flex(4)
    } else if same_text(header, "REVISION") {
        ColWidth::Flex(2)
    } else if same_text(header, "SUSPENDED") {
        ColWidth::Cap(9)
    } else {
        ColWidth::Flex(1)
    }
}

/// Rows of a resource table that fit a frame `height` rows high: all but
/// the borders and the header, at least one.
pub open spec fn table_rows_of(height: u16) -> int {
    if height <= 4 { 1 } else { height - 3 }
}

/// Rows of a resource table that fit (see `table_rows_of`).
pub fn table_rows(height: u16) -> (r: usize)
    ensures
        r == table_rows_of(height),
{
    if height <= 4 { 1 } else { (height - 3) as usize }
}

/// The selection and first shown row of a table of `count` rows showing
/// `rows` of them: a selection past the end moves to the last row; the
/// first shown row stays within the table and moves just enough to keep
/// the selection in view.
pub open spec fn table_scroll_of(count: int, selected: Option<usize>, offset: int, rows: int) -> (Option<int>, int) {
    if count == 0 {
        (
            match selected {
                Some(i) => Some(i as int),
                None => None,
            },
            0,
        )
    } else {
        let sel = match selected {
            Some(i) => Some(if i >= count { count - 1 } else { i as int }),
            None => None,
        };
        let off = if offset < count - 1 { offset } else { count - 1 };
        (
            sel,
            match sel {
                Some(s) => if s < off {
                    s
                } else if s >= off + rows {
                    s + 1 - rows
                } else {
                    off
                },
                None => off,
            },
        )
    }
}

/// Keep a table's selection and first shown row in range (see
/// `table_scroll_of`); `rows` is at least one.
pub fn table_scroll(count: usize, selected: Option<usize>, offset: usize, rows: usize) -> (r: (Option<usize>, usize))
    requires
        rows >= 1,
    ensures
        (
            match r.0 {
                Some(i) => Some(i as int),
                None => None,
            },
            r.1 as int,
        ) == table_scroll_of(count as int, selected, offset as int, rows as int),
{
    if count == 0 {
        return (selected, 0);
    }
    let sel = match selected {
        Some(i) => Some(if i >= count { count - 1 } else { i }),
        None => None,
    };
    let mut off = if offset < count - 1 { offset } else { count - 1 };
    if let Some(s) = sel {
        if s < off {
            off = s;
        } else if s - off >= rows {
            off = s + 1 - rows;
        }
    }
    (sel, off)
}

/// Cells a resource table's columns can share in a frame `width` cells
/// wide with `ncols` columns: all but the borders, the selection marker
/// and two cells between each two columns, none when that is more than
/// the width.
pub open spec fn table_budget_of(width: u16, ncols: u16) -> int {
    let gaps = if ncols == 0 { 0 } else { 2 * (ncols - 1) };
    let b = width - 4 - gaps;
    if b < 0 { 0 } else { b }
}

/// Cells a resource table's columns can share (see `table_budget_of`).
pub fn table_budget(width: u16, ncols: u16) -> (r: u16)
    ensures
        r == table_budget_of(width, ncols),
{
    let w = if width > 4 { width - 4 } else { 0 };
    let gaps: u32 = if ncols == 0 { 0 } else { 2 * (ncols as u32 - 1) };
    if (w as u32) > gaps { (w as u32 - gaps) as u16 } else { 0 }
}

/// How a piece of a resource table's title is drawn.
#[derive(Clone, Copy, Debug, PartialEq, Eq, Structural)]
pub enum TitleTone {
    /// The resource kind.
    Kind,
    /// The row count.
    Count,
    /// The faults-only marker.
    Faults,
    /// Scroll arrows and the filter's location.
    Dim,
    /// The count of marked rows.
    Marked,
    /// The active filter.
    Filter,
    /// An active filter that does not parse.
    BadFilter,
    /// The closing space.
    Plain,
}

/// The pieces of a resource table's title: the kind, the row count, then
/// the faults marker, an arrow for each side there are more columns to
/// scroll to, the count of marked rows, the active filter (red when it
/// does not parse) with where it is applied, and a closing space.
pub open spec fn table_title_of(
    kind: Seq<char>,
    count: u64,
    faults: bool,
    col_offset: int,
    col_scroll_max: int,
    marked: u64,
    filter: Seq<char>,
    filter_bad: bool,
    location: Seq<char>,
) -> Seq<(Seq<char>, TitleTone)> {
    let head = seq![(" "@ + kind + " "@, TitleTone::Kind), ("["@ + decimal(count as nat) + "]"@, TitleTone::Count)];
    let f = if faults { seq![(" [faults]"@, TitleTone::Faults)] } else { Seq::empty() };
    let l = if col_offset > 0 { seq![(" ←"@, TitleTone::Dim)] } else { Seq::empty() };
    let r = if col_offset < col_scroll_max { seq![(" →"@, TitleTone::Dim)] } else { Seq::empty() };
    let m = if marked > 0 { seq![(" ✓"@ + decimal(marked as nat), TitleTone::Marked)] } else { Seq::empty() };
    let q = if filter.len() > 0 {
        seq![(" /"@ + filter, if filter_bad { TitleTone::BadFilter } else { TitleTone::Filter }), (location, TitleTone::Dim)]
    } else {
        Seq::empty()
    };
    head + f + l + r + m + q + seq![(" "@, TitleTone::Plain)]
}

/// The pieces of a resource table's title (see `table_title_of`).
pub fn table_title(
    kind: &str,
    count: u64,
    faults: bool,
    col_offset: usize,
    col_scroll_max: usize,
    marked: u64,
    filter: &str,
    filter_bad: bool,
    location: &str,
) -> (r: Vec<(String, TitleTone)>)
    ensures
        r@.map_values(|p: (String, TitleTone)| (p.0@, p.1)) == table_title_of(
            kind@,
            count,
            faults,
            col_offset as int,
            col_scroll_max as int,
            marked,
            filter@,
            filter_bad,
            location@,
        ),
{
    let ghost spec_r = table_title_of(kind@, count, faults, col_offset as int, col_scroll_max as int, marked, filter@, filter_bad, location@);
    let mut out: Vec<(String, TitleTone)> = Vec::new();
    let mut k = String::from_str(" ");
    k.append(kind);
    k.append(" ");
    out.push((k, TitleTone::Kind));
    let mut c = String::from_str("[");
    let d = decimal_string(count);
    c.append(d.as_str());
    c.append("]");
    out.push((c, TitleTone::Count));
    let ghost head = seq![(" "@ + kind@ + " "@, TitleTone::Kind), ("["@ + decimal(count as nat) + "]"@, TitleTone::Count)];
    assert(out@.map_values(|p: (String, TitleTone)| (p.0@, p.1)) =~= head);
    let ghost mut acc = head;
    if faults {
        out.push((String::from_str(" [faults]"), TitleTone::Faults));
        proof { acc = acc + seq![(" [faults]"@, TitleTone::Faults)]; }
    }
    assert(out@.map_values(|p: (String, TitleTone)| (p.0@, p.1)) =~= acc);
    if col_offset > 0 {
        out.push((String::from_str(" ←"), TitleTone::Dim));
        proof { acc = acc + seq![(" ←"@, TitleTone::Dim)]; }
    }
    assert(out@.map_values(|p: (String, TitleTone)| (p.0@, p.1)) =~= acc);
    if col_offset < col_scroll_max {
        out.push((String::from_str(" →"), TitleTone::Dim));
        proof { acc = acc + seq![(" →"@, TitleTone::Dim)]; }
    }
    assert(out@.map_values(|p: (String, TitleTone)| (p.0@, p.1)) =~= acc);
    if marked > 0 {
        let mut m = String::from_str(" ✓");
        let n = decimal_string(marked);
        m.append(n.as_str());
        out.push((m, TitleTone::Marked));
        proof { acc = acc + seq![(" ✓"@ + decimal(marked as nat), TitleTone::Marked)]; }
    }
    assert(out@.map_values(|p: (String, TitleTone)| (p.0@, p.1)) =~= acc);
    if crate::text::chars_of(filter).len() > 0 {
        let mut f = String::from_str(" /");
        f.append(filter);
        let tone = if filter_bad { TitleTone::BadFilter } else { TitleTone::Filter };
        out.push((f, tone));
        out.push((String::from_str(location), TitleTone::Dim));
        proof { acc = acc + seq![(" /"@ + filter@, tone), (location@, TitleTone::Dim)]; }
    }
    assert(out@.map_values(|p: (String, TitleTone)| (p.0@, p.1)) =~= acc);
    out.push((String::from_str(" "), TitleTone::Plain));
    proof { acc = acc + seq![(" "@, TitleTone::Plain)]; }
    assert(out@.map_values(|p: (String, TitleTone)| (p.0@, p.1)) =~= acc);
    assert(acc =~= spec_r);
    out
}

/// The fixed width of a metric column: a trend sparkline takes twelve
/// cells, a node's pod count and utilisation five, another percentage
/// seven, any other value eight.
pub open spec fn metric_width_of(trend: bool, node_count: bool, percentage: bool) -> u16 {
    if trend {
        12
    } else if node_count {
        5
    } else if percentage {
        7
    } else {
        8
    }
}

/// The fixed width of a metric column (see `metric_width_of`); `node_count`
/// is whether it is a node's pod count or CPU or memory utilisation.
pub fn metric_width(trend: bool, node_count: bool, percentage: bool) -> (r: u16)
    ensures
        r == metric_width_of(trend, node_count, percentage),
{
    if trend {
        12
    } else if node_count {
        5
    } else if percentage {
        7
    } else {
        8
    }
}

/// What each column needs before the widths are split: the sort column at
/// least its header and arrow (two cells more, capped at `u16::MAX`), and
/// the NAME column two cells more (capped) for the port-forward marker
/// while forwards run.
pub open spec fn column_needs_of(needed: Seq<u16>, sort_col: Option<usize>, sort_header: u16, name_col: int, forwarding: bool) -> Seq<u16> {
    Seq::new(
        needed.len(),
        |i: int|
            {
                let a = if sort_col == Some(i as usize) {
                    let h = if sort_header + 2 > u16::MAX { u16::MAX } else { (sort_header + 2) as u16 };
                    if needed[i] >= h { needed[i] } else { h }
                } else {
                    needed[i]
                };
                if forwarding && i == name_col {
                    if a + 2 > u16::MAX { u16::MAX } else { (a + 2) as u16 }
                } else {
                    a
                }
            },
    )
}

/// What each column needs (see `column_needs_of`); `sort_header` is the
/// sort column's header width.
pub fn column_needs(needed: &Vec<u16>, sort_col: Option<usize>, sort_header: u16, name_col: usize, forwarding: bool) -> (r: Vec<u16>)
    ensures
        r@ == column_needs_of(needed@, sort_col, sort_header, name_col as int, forwarding),
{
    let h = sort_header.saturating_add(2);
    let mut out: Vec<u16> = Vec::new();
    let mut i: usize = 0;
    while i < needed.len()
        invariant
            i <= needed@.len(),
            h == if sort_header + 2 > u16::MAX { u16::MAX } else { (sort_header + 2) as u16 },
            out@ == column_needs_of(needed@, sort_col, sort_header, name_col as int, forwarding).take(i as int),
        decreases needed.len() - i,
    {
        let mut a = needed[i];
        if sort_col == Some(i) && a < h {
            a = h;
        }
        if forwarding && i == name_col {
            a = a.saturating_add(2);
        }
        out.push(a);
        assert(out@ =~= column_needs_of(needed@, sort_col, sort_header, name_col as int, forwarding).take(i + 1));
        i = i + 1;
    }
    assert(column_needs_of(needed@, sort_col, sort_header, name_col as int, forwarding).take(needed@.len() as int)
        =~= column_needs_of(needed@, sort_col, sort_header, name_col as int, forwarding));
    out
}

/// The floor of a flexible column after the split: its need, except that
/// the NAME column and those before it are floored at most at their share
/// of the frame (`width - 4` over twice the columns up to NAME).
pub open spec fn flex_floor(i: int, needed: u16, name_col: int, width: u16) -> int {
    if i <= name_col {
        let share = (if width >= 4 { width - 4 } else { 0 }) / (2 * (name_col + 1));
        if needed <= share { needed as int } else { share }
    } else {
        needed as int
    }
}

/// The widths after flexible columns are widened to their floor (see
/// `flex_floor`); other columns keep the split's width.
pub open spec fn widened_of(widths: Seq<u16>, rules: Seq<(ColWidth, u16)>, name_col: int, width: u16) -> Seq<u16> {
    Seq::new(
        widths.len(),
        |i: int|
            if rules[i].0 is Flex && flex_floor(i, rules[i].1, name_col, width) > widths[i] {
                flex_floor(i, rules[i].1, name_col, width) as u16
            } else {
                widths[i]
            },
    )
}

/// Widen the flexible columns to their floor (see `widened_of`).
pub fn widen_flex(widths: &mut Vec<u16>, rules: &[(ColWidth, u16)], name_col: usize, width: u16)
    requires
        old(widths)@.len() == rules@.len(),
        name_col < 32767,
    ensures
        final(widths)@ == widened_of(old(widths)@, rules@, name_col as int, width),
{
    let ghost w0 = widths@;
    let share: u16 = (if width >= 4 { width - 4 } else { 0 }) / (2 * (name_col as u16 + 1));
    let mut i: usize = 0;
    while i < widths.len()
        invariant
            widths@.len() == w0.len(),
            w0.len() == rules@.len(),
            name_col < 32767,
            share as int == (if width >= 4 { width - 4 } else { 0 }) / (2 * (name_col + 1)),
            i <= w0.len(),
            forall|j: int| 0 <= j < i ==> widths@[j] == #[trigger] widened_of(w0, rules@, name_col as int, width)[j],
            forall|j: int| i <= j < w0.len() ==> widths@[j] == w0[j],
        decreases w0.len() - i,
    {
        if let ColWidth::Flex(_) = rules[i].0 {
            let need = rules[i].1;
            let floor = if i <= name_col { if need <= share { need } else { share } } else { need };
            if floor > widths[i] {
                widths.set(i, floor);
            }
        }
        i = i + 1;
    }
    assert(widths@ =~= widened_of(w0, rules@, name_col as int, width));
}

} // verus!
