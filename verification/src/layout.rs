//! Splitting a terminal row between table columns.

use vstd::prelude::*;

verus! {

/// A flex/unsatisfied column entry: (column index, weight, content width).
pub type FlexCol = (usize, u32, u32);

/// Largest weight, content width or budget the layout works with (a `u16`).
pub open spec fn fits_u16(x: int) -> bool {
    0 <= x <= 65535
}

/// Sum of the weights of `cols`.
pub open spec fn weight_total(cols: Seq<FlexCol>) -> int
    decreases cols.len(),
{
    if cols.len() == 0 {
        0
    } else {
        weight_total(cols.drop_last()) + cols.last().1
    }
}

/// `a + b`, clamped at `u16::MAX` (saturating addition).
pub open spec fn sat_add(a: int, b: int) -> u16 {
    if a + b >= 65535 {
        65535u16
    } else {
        (a + b) as u16
    }
}

/// Every column's share of `budget` by weight, rounded down, added in order.
pub open spec fn with_shares(widths: Seq<u16>, cols: Seq<FlexCol>, budget: int, total: int) -> Seq<u16>
    decreases cols.len(),
{
    if cols.len() == 0 {
        widths
    } else {
        let prev = with_shares(widths, cols.drop_last(), budget, total);
        let c = cols.last();
        prev.update(c.0 as int, sat_add(prev[c.0 as int] as int, budget * c.1 / total))
    }
}

/// How many cells the rounded-down shares hand out in total.
pub open spec fn shares_sum(cols: Seq<FlexCol>, budget: int, total: int) -> int
    decreases cols.len(),
{
    if cols.len() == 0 {
        0
    } else {
        shares_sum(cols.drop_last(), budget, total) + budget * cols.last().1 / total
    }
}

/// One extra cell for each of the first `rem` columns, in order.
pub open spec fn with_remainder(widths: Seq<u16>, cols: Seq<FlexCol>, rem: int) -> Seq<u16>
    decreases cols.len(),
{
    if cols.len() == 0 {
        widths
    } else {
        let prev = with_remainder(widths, cols.drop_last(), rem);
        let i = cols.last().0 as int;
        if cols.len() <= rem {
            prev.update(i, sat_add(prev[i] as int, 1))
        } else {
            prev
        }
    }
}

/// `left` extra cells spread over `cols` by weight: rounded-down shares first,
/// then the remainder one cell at a time from the first column on. Nothing
/// changes when the weights sum to zero.
pub open spec fn spread(widths: Seq<u16>, cols: Seq<FlexCol>, left: int) -> Seq<u16> {
    let total = weight_total(cols);
    if total == 0 {
        widths
    } else {
        with_remainder(
            with_shares(widths, cols, left, total),
            cols,
            left - shares_sum(cols, left, total),
        )
    }
}

/// Column entries that a share computation may touch.
pub open spec fn valid_cols(cols: Seq<FlexCol>, n: int) -> bool {
    forall|k: int|
        0 <= k < cols.len() ==> (#[trigger] cols[k]).0 < n && fits_u16(cols[k].1 as int)
            && fits_u16(cols[k].2 as int)
}

proof fn lemma_weight_total_bound(cols: Seq<FlexCol>)
    requires
        forall|k: int| 0 <= k < cols.len() ==> fits_u16((#[trigger] cols[k]).1 as int),
    ensures
        0 <= weight_total(cols) <= cols.len() * 65535,
    decreases cols.len(),
{
    if cols.len() > 0 {
        let p = cols.drop_last();
        assert forall|k: int| 0 <= k < p.len() implies fits_u16((#[trigger] p[k]).1 as int) by {
            assert(p[k] == cols[k]);
        }
        lemma_weight_total_bound(p);
    }
}

proof fn lemma_share_le(budget: int, w: int, total: int)
    requires
        budget >= 0,
        w >= 0,
        total > 0,
    ensures
        (budget * w / total) * total <= budget * w,
        budget * w / total >= 0,
{
    assert((budget * w / total) * total <= budget * w) by (nonlinear_arith)
        requires
            budget >= 0,
            w >= 0,
            total > 0,
    ;
    assert(budget * w / total >= 0) by (nonlinear_arith)
        requires
            budget >= 0,
            w >= 0,
            total > 0,
    ;
}

proof fn lemma_shares_sum_bound(cols: Seq<FlexCol>, budget: int, total: int)
    requires
        budget >= 0,
        total > 0,
    ensures
        shares_sum(cols, budget, total) * total <= budget * weight_total(cols),
        shares_sum(cols, budget, total) >= 0,
    decreases cols.len(),
{
    if cols.len() > 0 {
        let p = cols.drop_last();
        lemma_shares_sum_bound(p, budget, total);
        let w = cols.last().1 as int;
        lemma_share_le(budget, w, total);
        let s = shares_sum(p, budget, total);
        let t = weight_total(p);
        let sh = budget * w / total;
        assert((s + sh) * total == s * total + sh * total) by (nonlinear_arith);
        assert(budget * (t + w) == budget * t + budget * w) by (nonlinear_arith);
    }
}

proof fn lemma_shares_fit(cols: Seq<FlexCol>, k: int, budget: int)
    requires
        budget >= 0,
        weight_total(cols) > 0,
        0 <= k <= cols.len(),
        forall|j: int| 0 <= j < cols.len() ==> fits_u16((#[trigger] cols[j]).1 as int),
    ensures
        0 <= shares_sum(cols.take(k), budget, weight_total(cols)) <= budget,
    decreases cols.len() - k,
{
    let total = weight_total(cols);
    lemma_shares_sum_bound(cols.take(k), budget, total);
    lemma_weight_total_prefix(cols, k);
    let s = shares_sum(cols.take(k), budget, total);
    let t = weight_total(cols.take(k));
    assert(budget * t <= budget * total) by (nonlinear_arith)
        requires
            budget >= 0,
            t <= total,
    ;
    assert(s <= budget) by (nonlinear_arith)
        requires
            s * total <= budget * total,
            total > 0,
    ;
}

proof fn lemma_weight_total_prefix(cols: Seq<FlexCol>, k: int)
    requires
        0 <= k <= cols.len(),
        forall|j: int| 0 <= j < cols.len() ==> fits_u16((#[trigger] cols[j]).1 as int),
    ensures
        0 <= weight_total(cols.take(k)) <= weight_total(cols),
    decreases cols.len(),
{
    if k < cols.len() {
        let p = cols.drop_last();
        assert(p.take(k) =~= cols.take(k));
        assert forall|j: int| 0 <= j < p.len() implies fits_u16((#[trigger] p[j]).1 as int) by {
            assert(p[j] == cols[j]);
        }
        lemma_weight_total_prefix(p, k);
    } else {
        assert(cols.take(k) =~= cols);
        lemma_weight_total_bound(cols);
    }
}

/// Add `left` extra cells to `widths` proportionally to each column's weight,
/// handing out the integer-division remainder one cell at a time.
pub fn share_by_weight(left: u32, cols: &[FlexCol], widths: &mut Vec<u16>)
    requires
        left <= 65535,
        cols@.len() < 65536,
        valid_cols(cols@, old(widths)@.len() as int),
    ensures
        final(widths)@ == spread(old(widths)@, cols@, left as int),
{
    let n = cols.len();
    let mut total: u32 = 0;
    let mut k: usize = 0;
    while k < n
        invariant
            n == cols@.len(),
            n < 65536,
            k <= n,
            valid_cols(cols@, widths@.len() as int),
            total as int == weight_total(cols@.take(k as int)),
            total <= k * 65535,
        decreases n - k,
    {
        assert(cols@.take(k + 1).drop_last() =~= cols@.take(k as int));
        assert(cols@[k as int].1 <= 65535);
        total = total + cols[k].1;
        k = k + 1;
    }
    assert(cols@.take(n as int) =~= cols@);
    if total == 0 {
        return;
    }
    let ghost w0 = widths@;
    let ghost tot = total as int;
    let budget = left;
    let mut left = left;
    let mut k: usize = 0;
    while k < n
        invariant
            n == cols@.len(),
            n < 65536,
            k <= n,
            budget <= 65535,
            tot == weight_total(cols@),
            tot == total,
            tot > 0,
            valid_cols(cols@, w0.len() as int),
            widths@.len() == w0.len(),
            widths@ == with_shares(w0, cols@.take(k as int), budget as int, tot),
            left as int == budget - shares_sum(cols@.take(k as int), budget as int, tot),
        decreases n - k,
    {
        let (i, w, _) = cols[k];
        assert(cols@.take(k + 1).drop_last() =~= cols@.take(k as int));
        assert(cols@.take(k + 1).last() == cols@[k as int]);
        proof {
            lemma_shares_fit(cols@, k as int, budget as int);
            lemma_shares_fit(cols@, k + 1, budget as int);
        }
        assert(shares_sum(cols@.take(k + 1), budget as int, tot) == shares_sum(
            cols@.take(k as int),
            budget as int,
            tot,
        ) + (budget as int) * (w as int) / tot);
        assert((budget as int) * (w as int) <= 65535 * 65535) by (nonlinear_arith)
            requires
                budget <= 65535,
                w <= 65535,
        ;
        let share = budget * w / total;
        widths.set(i, widths[i].saturating_add(share as u16));
        left = left - share;
        k = k + 1;
    }
    assert(cols@.take(n as int) =~= cols@);
    let ghost shared = widths@;
    let ghost rem = left as int;
    let mut k: usize = 0;
    while k < n
        invariant
            n == cols@.len(),
            k <= n,
            valid_cols(cols@, shared.len() as int),
            widths@.len() == shared.len(),
            widths@ == with_remainder(shared, cols@.take(k as int), rem),
            rem >= 0,
            left as int == if k <= rem { rem - k } else { 0 },
        decreases n - k,
    {
        assert(cols@.take(k + 1).drop_last() =~= cols@.take(k as int));
        assert(cols@.take(k + 1).last() == cols@[k as int]);
        let (i, _, _) = cols[k];
        if left > 0 {
            widths.set(i, widths[i].saturating_add(1));
            left = left - 1;
        }
        k = k + 1;
    }
    assert(cols@.take(n as int) =~= cols@);
}


/// How a table column's width is decided when splitting the frame.
#[derive(Clone, Copy, Debug, PartialEq, Eq)]
pub enum ColWidth {
    /// User-configured width, honored exactly.
    Exact(u16),
    /// Sized to the widest visible value, never above the cap.
    Cap(u16),
    /// Sized to the widest visible value when it fits; surplus and deficit
    /// are shared between Flex columns proportionally to the weight.
    Flex(u16),
}

/// Width a column holds before any flex sharing: an exact width as given, a
/// capped one at its content clamped to the cap, a flex one at zero.
pub open spec fn initial_width(rule: ColWidth, needed: u16) -> u16 {
    match rule {
        ColWidth::Exact(w) => w,
        ColWidth::Cap(cap) => if needed <= cap { needed } else { cap },
        ColWidth::Flex(_) => 0u16,
    }
}

pub open spec fn initial_widths(cols: Seq<(ColWidth, u16)>) -> Seq<u16> {
    Seq::new(cols.len(), |i: int| initial_width(cols[i].0, cols[i].1))
}

pub open spec fn sum_widths(ws: Seq<u16>) -> int
    decreases ws.len(),
{
    if ws.len() == 0 {
        0
    } else {
        sum_widths(ws.drop_last()) + ws.last()
    }
}

/// The flex columns of `cols`, in order: (index, weight, content width).
pub open spec fn flex_cols(cols: Seq<(ColWidth, u16)>) -> Seq<FlexCol>
    decreases cols.len(),
{
    if cols.len() == 0 {
        Seq::empty()
    } else {
        let prev = flex_cols(cols.drop_last());
        match cols.last().0 {
            ColWidth::Flex(w) => prev.push(((cols.len() - 1) as usize, w as u32, cols.last().1 as u32)),
            _ => prev,
        }
    }
}

/// Whether a column's weight-share of `left` covers its content width.
pub open spec fn covered(left: int, c: FlexCol, total: int) -> bool {
    left * c.1 / total >= c.2
}

/// `p` is the first column of `unsat` whose share is covered.
pub open spec fn is_first_covered(left: int, unsat: Seq<FlexCol>, total: int, p: int) -> bool {
    &&& 0 <= p < unsat.len()
    &&& covered(left, unsat[p], total)
    &&& forall|q: int| 0 <= q < p ==> !covered(left, #[trigger] unsat[q], total)
}

/// The waterfall: while some unsatisfied column's weight-share covers its
/// content, the first such column gets its full content width (taken out of
/// `left`) and leaves the unsatisfied list (swapped with the last entry, as
/// `Vec::swap_remove` does). Returns what is left, the columns still
/// unsatisfied, and the widths.
pub open spec fn waterfall(left: int, unsat: Seq<FlexCol>, widths: Seq<u16>) -> (int, Seq<FlexCol>, Seq<u16>)
    decreases unsat.len(),
{
    let total = weight_total(unsat);
    if total == 0 || unsat.len() == 0 {
        (left, unsat, widths)
    } else if exists|p: int| is_first_covered(left, unsat, total, p) {
        let p = choose|p: int| is_first_covered(left, unsat, total, p);
        let c = unsat[p];
        waterfall(
            left - c.2,
            unsat.update(p, unsat.last()).drop_last(),
            widths.update(c.0 as int, c.2 as u16),
        )
    } else {
        (left, unsat, widths)
    }
}

/// Column widths for `budget` cells: exact and capped columns first, then the
/// flex waterfall; the final surplus is spread over all flex columns when
/// every one of them was satisfied, else the deficit is shared by the
/// unsatisfied ones.
pub open spec fn distributed(budget: int, cols: Seq<(ColWidth, u16)>) -> Seq<u16> {
    let widths = initial_widths(cols);
    let fixed = sum_widths(widths);
    let left = if budget >= fixed { budget - fixed } else { 0 };
    let flex = flex_cols(cols);
    let (l, unsat, w) = waterfall(left, flex, widths);
    if unsat.len() == 0 {
        spread(w, flex, l)
    } else {
        spread(w, unsat, l)
    }
}

proof fn lemma_first_covered_unique(left: int, unsat: Seq<FlexCol>, total: int, p: int, q: int)
    requires
        is_first_covered(left, unsat, total, p),
        is_first_covered(left, unsat, total, q),
    ensures
        p == q,
{
    if p < q {
        assert(!covered(left, unsat[p], total));
    } else if q < p {
        assert(!covered(left, unsat[q], total));
    }
}

proof fn lemma_sum_widths_bound(ws: Seq<u16>)
    ensures
        0 <= sum_widths(ws) <= ws.len() * 65535,
    decreases ws.len(),
{
    if ws.len() > 0 {
        lemma_sum_widths_bound(ws.drop_last());
    }
}

proof fn lemma_flex_cols_valid(cols: Seq<(ColWidth, u16)>)
    ensures
        valid_cols(flex_cols(cols), cols.len() as int),
        flex_cols(cols).len() <= cols.len(),
    decreases cols.len(),
{
    if cols.len() > 0 {
        lemma_flex_cols_valid(cols.drop_last());
    }
}

proof fn lemma_covered_le_left(left: int, c: FlexCol, total: int)
    requires
        left >= 0,
        total > 0,
        0 <= c.1 <= total,
        covered(left, c, total),
    ensures
        c.2 <= left,
{
    assert(left * c.1 / total <= left) by (nonlinear_arith)
        requires
            left >= 0,
            total > 0,
            0 <= c.1 <= total,
    ;
}

proof fn lemma_weight_le_total(cols: Seq<FlexCol>, k: int)
    requires
        0 <= k < cols.len(),
        forall|j: int| 0 <= j < cols.len() ==> fits_u16((#[trigger] cols[j]).1 as int),
    ensures
        cols[k].1 <= weight_total(cols),
    decreases cols.len(),
{
    let p = cols.drop_last();
    assert forall|j: int| 0 <= j < p.len() implies fits_u16((#[trigger] p[j]).1 as int) by {
        assert(p[j] == cols[j]);
    }
    if k < cols.len() - 1 {
        assert(p[k] == cols[k]);
        lemma_weight_le_total(p, k);
        lemma_weight_total_bound(p);
    } else {
        lemma_weight_total_bound(p);
    }
}

/// Split `budget` cells across columns. Exact/Cap columns take their width
/// first; each Flex column then gets its full content width whenever its
/// weight-share covers it (a waterfall, so a short NAME frees space for a
/// long EXTERNAL-IP), and the final surplus or deficit is shared by weight.
/// Padding is always trimmed before data.
pub fn distribute_column_widths(budget: u16, cols: &[(ColWidth, u16)]) -> (widths: Vec<u16>)
    requires
        cols@.len() < 65536,
    ensures
        widths@ == distributed(budget as int, cols@),
{
    let n = cols.len();
    let mut widths: Vec<u16> = Vec::new();
    let mut fixed: u32 = 0;
    let mut flex: Vec<FlexCol> = Vec::new();
    let mut unsat: Vec<FlexCol> = Vec::new();
    let mut k: usize = 0;
    while k < n
        invariant
            n == cols@.len(),
            n < 65536,
            k <= n,
            widths@ == initial_widths(cols@.take(k as int)),
            fixed as int == sum_widths(widths@),
            flex@ == flex_cols(cols@.take(k as int)),
            unsat@ == flex@,
        decreases n - k,
    {
        proof {
            lemma_sum_widths_bound(widths@);
        }
        let (rule, needed) = cols[k];
        let w = match rule {
            ColWidth::Exact(w) => w,
            ColWidth::Cap(cap) => if needed <= cap { needed } else { cap },
            ColWidth::Flex(weight) => {
                flex.push((k, weight as u32, needed as u32));
                unsat.push((k, weight as u32, needed as u32));
                0
            },
        };
        let ghost before = widths@;
        widths.push(w);
        fixed = fixed + w as u32;
        assert(cols@.take(k + 1).drop_last() =~= cols@.take(k as int));
        assert(widths@.drop_last() =~= before);
        assert(widths@ =~= initial_widths(cols@.take(k + 1)));
        k = k + 1;
    }
    assert(cols@.take(n as int) =~= cols@);
    let mut left: u32 = if budget as u32 >= fixed { budget as u32 - fixed } else { 0 };
    proof {
        lemma_flex_cols_valid(cols@);
    }
    let ghost flex_all = flex@;
    let ghost left0 = left as int;
    let ghost widths0 = widths@;
    loop
        invariant
            n == widths@.len(),
            n < 65536,
            left <= 65535,
            valid_cols(unsat@, n as int),
            unsat@.len() <= n,
            waterfall(left as int, unsat@, widths@) == waterfall(left0, flex_all, widths0),
        ensures
            waterfall(left as int, unsat@, widths@) == (left as int, unsat@, widths@),
            waterfall(left as int, unsat@, widths@) == waterfall(left0, flex_all, widths0),
            valid_cols(unsat@, n as int),
            left <= 65535,
            n == widths@.len(),
        decreases unsat@.len(),
    {
        let m = unsat.len();
        let mut total: u32 = 0;
        let mut j: usize = 0;
        while j < m
            invariant
                m == unsat@.len(),
                m <= n,
                n < 65536,
                j <= m,
                valid_cols(unsat@, n as int),
                total as int == weight_total(unsat@.take(j as int)),
                total <= j * 65535,
            decreases m - j,
        {
            assert(unsat@.take(j + 1).drop_last() =~= unsat@.take(j as int));
            total = total + unsat[j].1;
            j = j + 1;
        }
        assert(unsat@.take(m as int) =~= unsat@);
        if total == 0 || m == 0 {
            break;
        }
        let mut p: usize = 0;
        let mut found = false;
        while p < m && !found
            invariant
                m == unsat@.len(),
                p <= m,
                left <= 65535,
                total > 0,
                total as int == weight_total(unsat@),
                valid_cols(unsat@, n as int),
                forall|q: int| 0 <= q < p ==> !covered(left as int, #[trigger] unsat@[q], total as int),
                found ==> p < m && covered(left as int, unsat@[p as int], total as int),
            decreases m - p + if found { 0int } else { 1 },
        {
            let (_, w, need) = unsat[p];
            assert((left as int) * (w as int) <= 65535 * 65535) by (nonlinear_arith)
                requires
                    left <= 65535,
                    w <= 65535,
            ;
            if left * w / total >= need {
                found = true;
            } else {
                p = p + 1;
            }
        }
        if !found {
            assert forall|q: int| !is_first_covered(left as int, unsat@, total as int, q) by {
                if 0 <= q < m {
                    assert(!covered(left as int, unsat@[q], total as int));
                }
            }
            break;
        }
        assert(is_first_covered(left as int, unsat@, total as int, p as int));
        proof {
            let c = choose|q: int| is_first_covered(left as int, unsat@, total as int, q);
            lemma_first_covered_unique(left as int, unsat@, total as int, c, p as int);
            lemma_weight_le_total(unsat@, p as int);
            lemma_covered_le_left(left as int, unsat@[p as int], total as int);
        }
        let ghost prev = unsat@;
        let (i, _, need) = unsat.swap_remove(p);
        widths.set(i, need as u16);
        left = left - need;
        assert forall|q: int| 0 <= q < unsat@.len() implies (#[trigger] unsat@[q]).0 < n && fits_u16(
            unsat@[q].1 as int,
        ) && fits_u16(unsat@[q].2 as int) by {
            if q == p {
                assert(unsat@[q] == prev[prev.len() - 1]);
            } else {
                assert(unsat@[q] == prev[q]);
            }
        }
    }
    if unsat.len() == 0 {
        share_by_weight(left, flex.as_slice(), &mut widths);
    } else {
        share_by_weight(left, unsat.as_slice(), &mut widths);
    }
    widths
}


proof fn lemma_sum_widths_update(ws: Seq<u16>, i: int, v: u16)
    requires
        0 <= i < ws.len(),
    ensures
        sum_widths(ws.update(i, v)) == sum_widths(ws) - ws[i] + v,
    decreases ws.len(),
{
    let u = ws.update(i, v);
    if i == ws.len() - 1 {
        assert(u.drop_last() =~= ws.drop_last());
    } else {
        assert(u.drop_last() =~= ws.drop_last().update(i, v));
        lemma_sum_widths_update(ws.drop_last(), i, v);
    }
}

proof fn lemma_sum_widths_ge(ws: Seq<u16>, i: int)
    requires
        0 <= i < ws.len(),
    ensures
        ws[i] <= sum_widths(ws),
    decreases ws.len(),
{
    lemma_sum_widths_bound(ws.drop_last());
    if i < ws.len() - 1 {
        lemma_sum_widths_ge(ws.drop_last(), i);
    }
}

/// Every entry has a positive weight.
pub open spec fn weights_positive(us: Seq<FlexCol>) -> bool {
    forall|k: int| 0 <= k < us.len() ==> (#[trigger] us[k]).1 > 0
}

/// No two entries name the same column.
pub open spec fn distinct_columns(us: Seq<FlexCol>) -> bool {
    forall|a: int, b: int| 0 <= a < b < us.len() ==> (#[trigger] us[a]).0 != (#[trigger] us[b]).0
}

/// The columns of `us` are still at width zero in `ws`.
pub open spec fn still_zero(ws: Seq<u16>, us: Seq<FlexCol>) -> bool {
    forall|k: int| 0 <= k < us.len() ==> ws[(#[trigger] us[k]).0 as int] == 0
}

proof fn lemma_positive_total(us: Seq<FlexCol>)
    requires
        us.len() > 0,
        weights_positive(us),
        forall|k: int| 0 <= k < us.len() ==> fits_u16((#[trigger] us[k]).1 as int),
    ensures
        weight_total(us) > 0,
    decreases us.len(),
{
    let p = us.drop_last();
    assert(us[us.len() - 1].1 > 0);
    assert forall|k: int| 0 <= k < p.len() implies fits_u16((#[trigger] p[k]).1 as int) by {
        assert(p[k] == us[k]);
    }
    lemma_weight_total_bound(p);
}

proof fn lemma_waterfall_total(left: int, unsat: Seq<FlexCol>, widths: Seq<u16>)
    requires
        left >= 0,
        valid_cols(unsat, widths.len() as int),
        weights_positive(unsat),
        distinct_columns(unsat),
        still_zero(widths, unsat),
    ensures
        ({
            let (l, u, w) = waterfall(left, unsat, widths);
            &&& l >= 0
            &&& sum_widths(w) + l == sum_widths(widths) + left
            &&& w.len() == widths.len()
            &&& valid_cols(u, widths.len() as int)
            &&& weights_positive(u)
        }),
    decreases unsat.len(),
{
    let total = weight_total(unsat);
    if total == 0 || unsat.len() == 0 {
    } else if exists|p: int| is_first_covered(left, unsat, total, p) {
        let p = choose|p: int| is_first_covered(left, unsat, total, p);
        let c = unsat[p];
        assert(valid_cols(unsat, widths.len() as int));
        lemma_weight_le_total(unsat, p);
        lemma_covered_le_left(left, c, total);
        let nu = unsat.update(p, unsat.last()).drop_last();
        let nw = widths.update(c.0 as int, c.2 as u16);
        assert(widths[c.0 as int] == 0);
        lemma_sum_widths_update(widths, c.0 as int, c.2 as u16);
        assert forall|k: int| 0 <= k < nu.len() implies (#[trigger] nu[k]).0 < nw.len() && fits_u16(nu[k].1 as int)
            && fits_u16(nu[k].2 as int) by {
            if k == p {
                assert(nu[k] == unsat[unsat.len() - 1]);
            } else {
                assert(nu[k] == unsat[k]);
            }
        }
        assert forall|k: int| 0 <= k < nu.len() implies (#[trigger] nu[k]).1 > 0 by {
            if k == p {
                assert(nu[k] == unsat[unsat.len() - 1]);
            } else {
                assert(nu[k] == unsat[k]);
            }
        }
        assert forall|a: int, b: int| 0 <= a < b < nu.len() implies (#[trigger] nu[a]).0 != (#[trigger] nu[b]).0 by {
            let ia = if a == p { unsat.len() - 1 } else { a };
            let ib = if b == p { unsat.len() - 1 } else { b };
            assert(nu[a] == unsat[ia] && nu[b] == unsat[ib]);
            if ia < ib {
                assert(unsat[ia].0 != unsat[ib].0);
            } else {
                assert(unsat[ib].0 != unsat[ia].0);
            }
        }
        assert forall|k: int| 0 <= k < nu.len() implies nw[(#[trigger] nu[k]).0 as int] == 0 by {
            let ik = if k == p { unsat.len() - 1 } else { k };
            assert(nu[k] == unsat[ik]);
            assert(ik != p);
            if ik < p {
                assert(unsat[ik].0 != unsat[p].0);
            } else {
                assert(unsat[p].0 != unsat[ik].0);
            }
            assert(widths[unsat[ik].0 as int] == 0);
        }
        lemma_waterfall_total(left - c.2, nu, nw);
    }
}

proof fn lemma_shares_sum_nonneg_prefix(cols: Seq<FlexCol>, budget: int, total: int)
    requires
        budget >= 0,
        total > 0,
        cols.len() > 0,
    ensures
        shares_sum(cols.drop_last(), budget, total) <= shares_sum(cols, budget, total),
{
    lemma_share_le(budget, cols.last().1 as int, total);
}

proof fn lemma_with_shares_sum(w: Seq<u16>, cols: Seq<FlexCol>, budget: int, total: int)
    requires
        budget >= 0,
        total > 0,
        valid_cols(cols, w.len() as int),
        sum_widths(w) + shares_sum(cols, budget, total) <= 65535,
    ensures
        sum_widths(with_shares(w, cols, budget, total)) == sum_widths(w) + shares_sum(cols, budget, total),
        with_shares(w, cols, budget, total).len() == w.len(),
    decreases cols.len(),
{
    if cols.len() > 0 {
        let d = cols.drop_last();
        assert forall|k: int| 0 <= k < d.len() implies (#[trigger] d[k]).0 < w.len() && fits_u16(d[k].1 as int)
            && fits_u16(d[k].2 as int) by {
            assert(d[k] == cols[k]);
        }
        lemma_shares_sum_nonneg_prefix(cols, budget, total);
        lemma_with_shares_sum(w, d, budget, total);
        let prev = with_shares(w, d, budget, total);
        let c = cols.last();
        assert(cols[cols.len() - 1] == c);
        let sh = budget * c.1 / total;
        lemma_share_le(budget, c.1 as int, total);
        lemma_sum_widths_ge(prev, c.0 as int);
        lemma_sum_widths_update(prev, c.0 as int, sat_add(prev[c.0 as int] as int, sh));
    }
}

proof fn lemma_with_remainder_sum(w: Seq<u16>, cols: Seq<FlexCol>, rem: int)
    requires
        0 <= rem,
        valid_cols(cols, w.len() as int),
        sum_widths(w) + rem <= 65535,
    ensures
        sum_widths(with_remainder(w, cols, rem)) == sum_widths(w) + if rem < cols.len() { rem } else { cols.len() as int },
        with_remainder(w, cols, rem).len() == w.len(),
    decreases cols.len(),
{
    if cols.len() > 0 {
        let d = cols.drop_last();
        assert forall|k: int| 0 <= k < d.len() implies (#[trigger] d[k]).0 < w.len() && fits_u16(d[k].1 as int)
            && fits_u16(d[k].2 as int) by {
            assert(d[k] == cols[k]);
        }
        lemma_with_remainder_sum(w, d, rem);
        let prev = with_remainder(w, d, rem);
        let i = cols.last().0 as int;
        assert(cols[cols.len() - 1] == cols.last());
        if cols.len() <= rem {
            lemma_sum_widths_ge(prev, i);
            lemma_sum_widths_update(prev, i, sat_add(prev[i] as int, 1));
        }
    }
}

proof fn lemma_remainder_small(cols: Seq<FlexCol>, budget: int, total: int)
    requires
        budget >= 0,
        total > 0,
    ensures
        shares_sum(cols, budget, total) * total + cols.len() * (total - 1) >= budget * weight_total(cols),
    decreases cols.len(),
{
    if cols.len() > 0 {
        let d = cols.drop_last();
        lemma_remainder_small(d, budget, total);
        let w = cols.last().1 as int;
        let x = budget * w;
        vstd::arithmetic::mul::lemma_mul_nonnegative(budget, w);
        vstd::arithmetic::div_mod::lemma_fundamental_div_mod(x, total);
        vstd::arithmetic::div_mod::lemma_mod_bound(x, total);
        vstd::arithmetic::mul::lemma_mul_is_commutative(total, x / total);
        let s = shares_sum(d, budget, total);
        vstd::arithmetic::mul::lemma_mul_is_distributive_add_other_way(total, s, x / total);
        vstd::arithmetic::mul::lemma_mul_is_distributive_add(budget, weight_total(d), w);
        vstd::arithmetic::mul::lemma_mul_is_distributive_add_other_way(total - 1, d.len() as int, 1);
    }
}

proof fn lemma_spread_sum(w: Seq<u16>, cols: Seq<FlexCol>, left: int)
    requires
        left >= 0,
        weight_total(cols) > 0,
        valid_cols(cols, w.len() as int),
        sum_widths(w) + left <= 65535,
    ensures
        sum_widths(spread(w, cols, left)) == sum_widths(w) + left,
{
    let total = weight_total(cols);
    lemma_shares_sum_bound(cols, left, total);
    let s = shares_sum(cols, left, total);
    assert(s <= left) by (nonlinear_arith)
        requires
            s * total <= left * total,
            total > 0,
    ;
    lemma_with_shares_sum(w, cols, left, total);
    lemma_remainder_small(cols, left, total);
    assert(cols.len() > 0) by {
        if cols.len() == 0 {
            assert(weight_total(cols) == 0);
        }
    }
    assert(left - s < cols.len()) by (nonlinear_arith)
        requires
            s * total + cols.len() * (total - 1) >= left * total,
            total > 0,
            cols.len() > 0,
    ;
    let shared = with_shares(w, cols, left, total);
    assert forall|k: int| 0 <= k < cols.len() implies (#[trigger] cols[k]).0 < shared.len() && fits_u16(cols[k].1 as int)
        && fits_u16(cols[k].2 as int) by {
        assert(cols[k].0 < w.len());
    }
    lemma_with_remainder_sum(shared, cols, left - s);
}

proof fn lemma_flex_cols_shape(cols: Seq<(ColWidth, u16)>)
    requires
        cols.len() < 65536,
    ensures
        distinct_columns(flex_cols(cols)),
        still_zero(initial_widths(cols), flex_cols(cols)),
        forall|k: int| 0 <= k < flex_cols(cols).len() ==> (#[trigger] flex_cols(cols)[k]).0 < cols.len()
            && cols[flex_cols(cols)[k].0 as int].0 == ColWidth::Flex(flex_cols(cols)[k].1 as u16),
        (exists|i: int| 0 <= i < cols.len() && #[trigger] cols[i].0 is Flex) ==> flex_cols(cols).len() > 0,
    decreases cols.len(),
{
    if cols.len() > 0 {
        let d = cols.drop_last();
        lemma_flex_cols_shape(d);
        lemma_flex_cols_valid(d);
        let fd = flex_cols(d);
        let f = flex_cols(cols);
        let n1 = cols.len() - 1;
        assert(cols[n1] == cols.last());
        assert forall|k: int| 0 <= k < fd.len() implies (#[trigger] fd[k]).0 < d.len() && cols[fd[k].0 as int] == d[fd[k].0 as int] by {}
        assert forall|k: int| 0 <= k < fd.len() implies initial_widths(cols)[(#[trigger] fd[k]).0 as int] == 0 by {
            assert(initial_widths(d)[fd[k].0 as int] == 0);
        }
        let is_flex = cols.last().0 is Flex;
        if is_flex {
            let wt = cols.last().0->Flex_0;
            let e = (n1 as usize, wt as u32, cols.last().1 as u32);
            assert(f == fd.push(e));
            assert forall|k: int| 0 <= k < f.len() implies (#[trigger] f[k]).0 < cols.len()
                && cols[f[k].0 as int].0 == ColWidth::Flex(f[k].1 as u16) by {
                if k < fd.len() {
                    assert(f[k] == fd[k]);
                    assert(fd[k].0 < d.len());
                    assert(cols[fd[k].0 as int] == d[fd[k].0 as int]);
                } else {
                    assert(f[k] == e);
                    assert(e.0 == n1);
                    assert(cols[n1].0 == ColWidth::Flex(wt));
                    assert(e.1 as u16 == wt);
                }
            }
            assert forall|a: int, b: int| 0 <= a < b < f.len() implies (#[trigger] f[a]).0 != (#[trigger] f[b]).0 by {
                assert(f[a] == fd[a]);
                assert(fd[a].0 < d.len());
                if b < fd.len() {
                    assert(f[b] == fd[b]);
                } else {
                    assert(f[b] == e);
                }
            }
            assert forall|k: int| 0 <= k < f.len() implies initial_widths(cols)[(#[trigger] f[k]).0 as int] == 0 by {
                if k < fd.len() {
                    assert(f[k] == fd[k]);
                } else {
                    assert(f[k] == e);
                }
            }
        } else {
            assert(f == fd);
            assert forall|k: int| 0 <= k < f.len() implies (#[trigger] f[k]).0 < cols.len()
                && cols[f[k].0 as int].0 == ColWidth::Flex(f[k].1 as u16) by {
                assert(f[k] == fd[k]);
            }
            if exists|i: int| 0 <= i < cols.len() && #[trigger] cols[i].0 is Flex {
                let i = choose|i: int| 0 <= i < cols.len() && #[trigger] cols[i].0 is Flex;
                assert(i < d.len());
                assert(d[i].0 is Flex);
            }
        }
    }
}

/// The widths use the whole budget whenever the exact and capped columns
/// fit in it and there is a flex column, every flex column having a
/// positive weight: the surplus or deficit is always shared out in full.
pub proof fn law_widths_fill_budget(budget: u16, cols: Seq<(ColWidth, u16)>)
    requires
        cols.len() < 65536,
        sum_widths(initial_widths(cols)) <= budget,
        exists|i: int| 0 <= i < cols.len() && #[trigger] cols[i].0 is Flex,
        forall|i: int| 0 <= i < cols.len() && #[trigger] cols[i].0 is Flex ==> cols[i].0->Flex_0 > 0,
    ensures
        sum_widths(distributed(budget as int, cols)) == budget,
{
    let widths = initial_widths(cols);
    let fixed = sum_widths(widths);
    let left = budget - fixed;
    let flex = flex_cols(cols);
    lemma_flex_cols_shape(cols);
    lemma_flex_cols_valid(cols);
    assert forall|k: int| 0 <= k < flex.len() implies (#[trigger] flex[k]).1 > 0 by {
        let i = flex[k].0 as int;
        assert(cols[i].0 is Flex);
    }
    lemma_waterfall_total(left, flex, widths);
    let (l, unsat, w) = waterfall(left, flex, widths);
    if unsat.len() == 0 {
        lemma_positive_total(flex);
        lemma_spread_sum(w, flex, l);
    } else {
        lemma_positive_total(unsat);
        lemma_spread_sum(w, unsat, l);
    }
}

/// Whether column `i` is among the entries of `us`.
pub open spec fn has_col(us: Seq<FlexCol>, i: int) -> bool {
    exists|q: int| 0 <= q < us.len() && #[trigger] us[q].0 as int == i
}

/// Entries of `us` name different columns.
pub open spec fn cols_apart(us: Seq<FlexCol>) -> bool {
    forall|a: int, b: int| 0 <= a < b < us.len() ==> #[trigger] us[a].0 != #[trigger] us[b].0
}

/// Each entry of `us` is a flex column of `cols` with its weight and
/// content width.
pub open spec fn entries_of_cols(cols: Seq<(ColWidth, u16)>, us: Seq<FlexCol>) -> bool {
    forall|q: int|
        0 <= q < us.len() ==> (#[trigger] us[q]).0 < cols.len() && us[q].1 <= 65535 && cols[us[q].0 as int].0
            == ColWidth::Flex(us[q].1 as u16) && us[q].2 == cols[us[q].0 as int].1
}

/// The waterfall's state: the flex columns still unsatisfied hold no
/// width; the others hold exactly their content width.
pub open spec fn fall_state(cols: Seq<(ColWidth, u16)>, us: Seq<FlexCol>, ws: Seq<u16>) -> bool {
    &&& ws.len() == cols.len()
    &&& cols_apart(us)
    &&& entries_of_cols(cols, us)
    &&& forall|i: int|
        0 <= i < cols.len() && (#[trigger] cols[i].0) is Flex ==> if has_col(us, i) {
            ws[i] == 0
        } else {
            ws[i] == cols[i].1
        }
}

proof fn lemma_flex_start(cols: Seq<(ColWidth, u16)>)
    requires
        cols.len() < 65536,
    ensures
        fall_state(cols, flex_cols(cols), initial_widths(cols)),
        forall|q: int| 0 <= q < flex_cols(cols).len() ==> (#[trigger] flex_cols(cols)[q]).0 < cols.len(),
        forall|i: int| 0 <= i < cols.len() && (#[trigger] cols[i].0) is Flex ==> has_col(flex_cols(cols), i),
    decreases cols.len(),
{
    let f = flex_cols(cols);
    let w = initial_widths(cols);
    if cols.len() > 0 {
        let d = cols.drop_last();
        lemma_flex_start(d);
        let fd = flex_cols(d);
        assert forall|q: int| 0 <= q < fd.len() implies (#[trigger] fd[q]).0 < cols.len() - 1 && fd[q].1 <= 65535
            && cols[fd[q].0 as int].0 == ColWidth::Flex(fd[q].1 as u16) && fd[q].2 == cols[fd[q].0 as int].1 by {
            assert(d[fd[q].0 as int] == cols[fd[q].0 as int]);
        }
        let n = cols.len() - 1;
        match cols.last().0 {
            ColWidth::Flex(wt) => {
                let e: FlexCol = (n as usize, wt as u32, cols.last().1 as u32);
                assert(f == fd.push(e));
                assert forall|a: int, b: int| 0 <= a < b < f.len() implies #[trigger] f[a].0 != #[trigger] f[b].0 by {
                    if b < fd.len() {
                        assert(f[a] == fd[a] && f[b] == fd[b]);
                    } else {
                        assert(f[a] == fd[a]);
                    }
                }
                assert forall|q: int| 0 <= q < f.len() implies (#[trigger] f[q]).0 < cols.len() && f[q].1 <= 65535
                    && cols[f[q].0 as int].0 == ColWidth::Flex(f[q].1 as u16) && f[q].2 == cols[f[q].0 as int].1 by {
                    if q < fd.len() {
                        assert(f[q] == fd[q]);
                    }
                }
                assert forall|i: int| 0 <= i < cols.len() && (#[trigger] cols[i].0) is Flex implies has_col(f, i) && w[i] == 0 by {
                    if i < n {
                        assert(d[i] == cols[i]);
                        assert(d[i].0 is Flex);
                        assert(has_col(fd, i));
                        let q = choose|q: int| 0 <= q < fd.len() && #[trigger] fd[q].0 as int == i;
                        assert(f[q] == fd[q]);
                    } else {
                        assert(f[fd.len() as int] == e);
                    }
                }
            },
            _ => {
                assert(f == fd);
                assert forall|i: int| 0 <= i < cols.len() && (#[trigger] cols[i].0) is Flex implies has_col(f, i) && w[i] == 0 by {
                    assert(i < n);
                    assert(d[i] == cols[i]);
                    assert(d[i].0 is Flex);
                    assert(has_col(fd, i));
                }
            },
        }
    } else {
        assert(f.len() == 0);
    }
}

proof fn lemma_first_exists(left: int, us: Seq<FlexCol>, total: int, q: int)
    requires
        0 <= q < us.len(),
        covered(left, us[q], total),
    ensures
        exists|p: int| is_first_covered(left, us, total, p),
    decreases q,
{
    if exists|r: int| 0 <= r < q && covered(left, #[trigger] us[r], total) {
        let r = choose|r: int| 0 <= r < q && covered(left, #[trigger] us[r], total);
        lemma_first_exists(left, us, total, r);
    } else {
        assert(is_first_covered(left, us, total, q));
    }
}

proof fn lemma_fall(cols: Seq<(ColWidth, u16)>, left: int, us: Seq<FlexCol>, ws: Seq<u16>)
    requires
        fall_state(cols, us, ws),
        left >= 0,
    ensures
        ({
            let (l, u, w) = waterfall(left, us, ws);
            &&& fall_state(cols, u, w)
            &&& l >= 0
            &&& forall|i: int| 0 <= i < cols.len() && !((#[trigger] cols[i].0) is Flex) ==> w[i] == ws[i]
            &&& u.len() > 0 ==> weight_total(u) == 0 || forall|q: int| 0 <= q < u.len() ==> !covered(l, #[trigger] u[q], weight_total(u))
        }),
    decreases us.len(),
{
    let total = weight_total(us);
    if total == 0 || us.len() == 0 {
    } else if exists|p: int| is_first_covered(left, us, total, p) {
        let p = choose|p: int| is_first_covered(left, us, total, p);
        let c = us[p];
        let n = us.len() - 1;
        let u2 = us.update(p, us.last()).drop_last();
        let w2 = ws.update(c.0 as int, c.2 as u16);
        assert forall|k: int| 0 <= k < us.len() implies fits_u16((#[trigger] us[k]).1 as int) by {}
        lemma_weight_le_total(us, p);
        lemma_covered_le_left(left, c, total);
        assert forall|r: int| 0 <= r < u2.len() implies #[trigger] u2[r] == if r == p { us[n] } else { us[r] } by {}
        assert forall|a: int, b: int| 0 <= a < b < u2.len() implies #[trigger] u2[a].0 != #[trigger] u2[b].0 by {
            let ia = if a == p { n } else { a };
            let ib = if b == p { n } else { b };
            assert(u2[a] == us[ia] && u2[b] == us[ib]);
            assert(ia != ib);
            if ia < ib {
                assert(us[ia].0 != us[ib].0);
            } else {
                assert(us[ib].0 != us[ia].0);
            }
        }
        assert forall|q: int| 0 <= q < u2.len() implies (#[trigger] u2[q]).0 < cols.len() && u2[q].1 <= 65535
            && cols[u2[q].0 as int].0 == ColWidth::Flex(u2[q].1 as u16) && u2[q].2 == cols[u2[q].0 as int].1 by {
            let iq = if q == p { n } else { q };
            assert(u2[q] == us[iq]);
        }
        assert forall|i: int| 0 <= i < cols.len() && (#[trigger] cols[i].0) is Flex implies if has_col(u2, i) {
            w2[i] == 0
        } else {
            w2[i] == cols[i].1
        } by {
            if i == c.0 as int {
                if has_col(u2, i) {
                    let r = choose|r: int| 0 <= r < u2.len() && #[trigger] u2[r].0 as int == i;
                    let ir = if r == p { n } else { r };
                    assert(u2[r] == us[ir]);
                    assert(ir != p);
                    if ir < p {
                        assert(us[ir].0 != us[p].0);
                    } else {
                        assert(us[p].0 != us[ir].0);
                    }
                }
                assert(w2[i] == c.2 as u16);
            } else {
                assert(w2[i] == ws[i]);
                if has_col(us, i) {
                    let q = choose|q: int| 0 <= q < us.len() && #[trigger] us[q].0 as int == i;
                    assert(q != p);
                    if q == n {
                        assert(u2[p] == us[n]);
                        assert(has_col(u2, i));
                    } else {
                        assert(u2[q] == us[q]);
                        assert(has_col(u2, i));
                    }
                } else {
                    if has_col(u2, i) {
                        let r = choose|r: int| 0 <= r < u2.len() && #[trigger] u2[r].0 as int == i;
                        let ir = if r == p { n } else { r };
                        assert(u2[r] == us[ir]);
                        assert(has_col(us, i));
                    }
                }
            }
        }
        lemma_fall(cols, left - c.2, u2, w2);
        assert forall|i: int| 0 <= i < cols.len() && !((#[trigger] cols[i].0) is Flex) implies w2[i] == ws[i] by {
            assert(cols[c.0 as int].0 == ColWidth::Flex(c.1 as u16));
        }
    } else {
        assert forall|q: int| 0 <= q < us.len() implies !covered(left, #[trigger] us[q], total) by {
            if covered(left, us[q], total) {
                lemma_first_exists(left, us, total, q);
            }
        }
    }
}

proof fn lemma_shares_frame(w: Seq<u16>, us: Seq<FlexCol>, b: int, t: int)
    requires
        b >= 0,
        t > 0,
        cols_apart(us),
        forall|q: int| 0 <= q < us.len() ==> (#[trigger] us[q]).0 < w.len(),
    ensures
        with_shares(w, us, b, t).len() == w.len(),
        forall|i: int| 0 <= i < w.len() ==> with_shares(w, us, b, t)[i] >= w[i],
        forall|i: int| 0 <= i < w.len() && !has_col(us, i) ==> with_shares(w, us, b, t)[i] == w[i],
        forall|q: int| 0 <= q < us.len() ==> with_shares(w, us, b, t)[(#[trigger] us[q]).0 as int] == sat_add(
            w[us[q].0 as int] as int,
            b * us[q].1 / t,
        ),
    decreases us.len(),
{
    if us.len() > 0 {
        let d = us.drop_last();
        assert forall|a: int, c: int| 0 <= a < c < d.len() implies #[trigger] d[a].0 != #[trigger] d[c].0 by {
            assert(d[a] == us[a] && d[c] == us[c]);
        }
        lemma_shares_frame(w, d, b, t);
        let prev = with_shares(w, d, b, t);
        let x = us.last();
        lemma_share_le(b, x.1 as int, t);
        assert forall|i: int| 0 <= i < w.len() && !has_col(us, i) implies with_shares(w, us, b, t)[i] == w[i] by {
            assert(i != x.0 as int) by {
                if i == x.0 as int {
                    assert(us[us.len() - 1].0 as int == i);
                }
            }
            if has_col(d, i) {
                let q = choose|q: int| 0 <= q < d.len() && #[trigger] d[q].0 as int == i;
                assert(us[q] == d[q]);
            }
        }
        assert forall|q: int| 0 <= q < us.len() implies with_shares(w, us, b, t)[(#[trigger] us[q]).0 as int] == sat_add(
            w[us[q].0 as int] as int,
            b * us[q].1 / t,
        ) by {
            if q < d.len() {
                assert(us[q] == d[q]);
                assert(us[q].0 != x.0);
                assert(d[q].0 as int == us[q].0 as int);
            } else {
                assert(!has_col(d, x.0 as int)) by {
                    if has_col(d, x.0 as int) {
                        let r = choose|r: int| 0 <= r < d.len() && #[trigger] d[r].0 as int == x.0 as int;
                        assert(us[r] == d[r]);
                    }
                }
            }
        }
    }
}

proof fn lemma_remainder_frame(w: Seq<u16>, us: Seq<FlexCol>, rem: int)
    requires
        cols_apart(us),
        forall|q: int| 0 <= q < us.len() ==> (#[trigger] us[q]).0 < w.len(),
    ensures
        with_remainder(w, us, rem).len() == w.len(),
        forall|i: int| 0 <= i < w.len() ==> with_remainder(w, us, rem)[i] >= w[i],
        forall|i: int| 0 <= i < w.len() && !has_col(us, i) ==> with_remainder(w, us, rem)[i] == w[i],
        forall|i: int| 0 <= i < w.len() ==> with_remainder(w, us, rem)[i] <= w[i] + 1,
    decreases us.len(),
{
    if us.len() > 0 {
        let d = us.drop_last();
        assert forall|a: int, c: int| 0 <= a < c < d.len() implies #[trigger] d[a].0 != #[trigger] d[c].0 by {
            assert(d[a] == us[a] && d[c] == us[c]);
        }
        lemma_remainder_frame(w, d, rem);
        let x = us.last();
        assert(!has_col(d, x.0 as int)) by {
            if has_col(d, x.0 as int) {
                let r = choose|r: int| 0 <= r < d.len() && #[trigger] d[r].0 as int == x.0 as int;
                assert(us[r] == d[r]);
            }
        }
        assert forall|i: int| 0 <= i < w.len() && !has_col(us, i) implies with_remainder(w, us, rem)[i] == w[i] by {
            assert(i != x.0 as int) by {
                if i == x.0 as int {
                    assert(us[us.len() - 1].0 as int == i);
                }
            }
            if has_col(d, i) {
                let q = choose|q: int| 0 <= q < d.len() && #[trigger] d[q].0 as int == i;
                assert(us[q] == d[q]);
            }
        }
    }
}

proof fn lemma_weight_total_nonneg(us: Seq<FlexCol>)
    ensures
        weight_total(us) >= 0,
    decreases us.len(),
{
    if us.len() > 0 {
        lemma_weight_total_nonneg(us.drop_last());
    }
}

proof fn lemma_spread_grows(w: Seq<u16>, us: Seq<FlexCol>, left: int)
    requires
        left >= 0,
        cols_apart(us),
        forall|q: int| 0 <= q < us.len() ==> (#[trigger] us[q]).0 < w.len(),
    ensures
        spread(w, us, left).len() == w.len(),
        forall|i: int| 0 <= i < w.len() ==> spread(w, us, left)[i] >= w[i],
        forall|i: int| 0 <= i < w.len() && !has_col(us, i) ==> spread(w, us, left)[i] == w[i],
        weight_total(us) > 0 ==> forall|q: int|
            0 <= q < us.len() ==> spread(w, us, left)[(#[trigger] us[q]).0 as int] <= sat_add(
                w[us[q].0 as int] as int,
                left * us[q].1 / weight_total(us),
            ) + 1,
        weight_total(us) > 0 ==> forall|q: int|
            0 <= q < us.len() ==> spread(w, us, left)[(#[trigger] us[q]).0 as int] >= sat_add(
                w[us[q].0 as int] as int,
                left * us[q].1 / weight_total(us),
            ),
{
    let t = weight_total(us);
    lemma_weight_total_nonneg(us);
    if t > 0 {
        lemma_shares_frame(w, us, left, t);
        let x = with_shares(w, us, left, t);
        let rem = left - shares_sum(us, left, t);
        lemma_remainder_frame(x, us, rem);
        let r = with_remainder(x, us, rem);
        assert(spread(w, us, left) == r);
        assert forall|i: int| 0 <= i < w.len() implies spread(w, us, left)[i] >= w[i] by {
            assert(r[i] >= x[i] && x[i] >= w[i]);
        }
        assert forall|i: int| 0 <= i < w.len() && !has_col(us, i) implies spread(w, us, left)[i] == w[i] by {
            assert(r[i] == x[i] && x[i] == w[i]);
        }
        assert forall|q: int| 0 <= q < us.len() implies spread(w, us, left)[(#[trigger] us[q]).0 as int] <= sat_add(
            w[us[q].0 as int] as int,
            left * us[q].1 / t,
        ) + 1 by {
            let i = us[q].0 as int;
            assert(r[i] <= x[i] + 1);
        }
        assert forall|q: int| 0 <= q < us.len() implies spread(w, us, left)[(#[trigger] us[q]).0 as int] >= sat_add(
            w[us[q].0 as int] as int,
            left * us[q].1 / t,
        ) by {
            let i = us[q].0 as int;
            assert(r[i] >= x[i]);
        }
    }
}

/// While the split leaves some flexible column narrower than its content,
/// no flexible column is wider than its content: the cells left after the
/// columns the waterfall satisfied go only to the columns still short,
/// never to a column that already shows all of its content. (When every
/// flexible column fits, each gets at least its content.)
pub proof fn law_no_flex_padding_while_another_is_cut(budget: int, cols: Seq<(ColWidth, u16)>)
    requires
        cols.len() < 65536,
    ensures
        (exists|i: int| 0 <= i < cols.len() && (#[trigger] cols[i].0) is Flex && distributed(budget, cols)[i] < cols[i].1)
            ==> forall|j: int| 0 <= j < cols.len() && (#[trigger] cols[j].0) is Flex ==> distributed(budget, cols)[j] <= cols[j].1,
{
    let widths = initial_widths(cols);
    let fixed = sum_widths(widths);
    let left = if budget >= fixed { budget - fixed } else { 0 };
    let flex = flex_cols(cols);
    lemma_flex_start(cols);
    lemma_fall(cols, left, flex, widths);
    let (l, unsat, w) = waterfall(left, flex, widths);
    let r = distributed(budget, cols);
    if unsat.len() == 0 {
        lemma_spread_grows(w, flex, l);
        assert forall|i: int| 0 <= i < cols.len() && (#[trigger] cols[i].0) is Flex implies r[i] >= cols[i].1 by {
            assert(!has_col(unsat, i));
        }
    } else {
        assert forall|q: int| 0 <= q < unsat.len() implies (#[trigger] unsat[q]).0 < w.len() by {}
        lemma_spread_grows(w, unsat, l);
        let t = weight_total(unsat);
        lemma_weight_total_nonneg(unsat);
        assert forall|j: int| 0 <= j < cols.len() && (#[trigger] cols[j].0) is Flex implies r[j] <= cols[j].1 by {
            if has_col(unsat, j) {
                let q = choose|q: int| 0 <= q < unsat.len() && #[trigger] unsat[q].0 as int == j;
                assert(w[j] == 0);
                if t > 0 {
                    let c = unsat[q];
                    assert(!covered(l, c, t));
                    lemma_share_le(l, c.1 as int, t);
                    assert(r == spread(w, unsat, l));
                    assert(r[j] <= sat_add(0, l * c.1 / t) + 1);
                    assert(c.2 == cols[j].1);
                } else {
                    assert(r == w);
                }
            } else {
                assert(w[j] == cols[j].1);
                assert(r == spread(w, unsat, l));
            }
        }
    }
}

/// Exact and capped columns are never touched by the sharing out of
/// flexible space: an exact column gets its configured width, a capped one
/// its content width up to the cap. When every flexible column fits, each
/// gets at least its content width.
pub proof fn law_fixed_columns_keep_their_width(budget: int, cols: Seq<(ColWidth, u16)>)
    requires
        cols.len() < 65536,
    ensures
        forall|i: int|
            0 <= i < cols.len() ==> match #[trigger] cols[i].0 {
                ColWidth::Exact(w) => distributed(budget, cols)[i] == w,
                ColWidth::Cap(c) => distributed(budget, cols)[i] == if cols[i].1 <= c { cols[i].1 } else { c },
                ColWidth::Flex(_) => true,
            },
        (forall|i: int| 0 <= i < cols.len() && (#[trigger] cols[i].0) is Flex ==> distributed(budget, cols)[i] >= cols[i].1)
            || (forall|j: int| 0 <= j < cols.len() && (#[trigger] cols[j].0) is Flex ==> distributed(budget, cols)[j] <= cols[j].1),
{
    let widths = initial_widths(cols);
    let fixed = sum_widths(widths);
    let left = if budget >= fixed { budget - fixed } else { 0 };
    let flex = flex_cols(cols);
    lemma_flex_start(cols);
    lemma_fall(cols, left, flex, widths);
    let (l, unsat, w) = waterfall(left, flex, widths);
    let r = distributed(budget, cols);
    let us = if unsat.len() == 0 { flex } else { unsat };
    assert forall|q: int| 0 <= q < us.len() implies (#[trigger] us[q]).0 < w.len() by {}
    lemma_spread_grows(w, us, l);
    assert(r == spread(w, us, l));
    assert forall|i: int| 0 <= i < cols.len() && !((#[trigger] cols[i].0) is Flex) implies r[i] == widths[i] by {
        if has_col(us, i) {
            let q = choose|q: int| 0 <= q < us.len() && #[trigger] us[q].0 as int == i;
            assert(cols[us[q].0 as int].0 == ColWidth::Flex(us[q].1 as u16));
        }
    }
    law_no_flex_padding_while_another_is_cut(budget, cols);
    if unsat.len() == 0 {
        assert forall|i: int| 0 <= i < cols.len() && (#[trigger] cols[i].0) is Flex implies r[i] >= cols[i].1 by {
            assert(!has_col(unsat, i));
        }
    }
}

proof fn lemma_weighted_pair(l: int, t: int, wa: int, wb: int, ra: int, rb: int)
    requires
        l >= 0,
        t > 0,
        wa >= 0,
        wb >= 0,
        l * wa / t <= ra <= l * wa / t + 1,
        l * wb / t <= rb <= l * wb / t + 1,
    ensures
        ra * wb <= rb * wa + wa + wb,
{
    let sa = l * wa / t;
    let sb = l * wb / t;
    assert(sa * t <= l * wa) by (nonlinear_arith)
        requires
            t > 0,
            sa == l * wa / t,
    ;
    assert((sb + 1) * t > l * wb) by (nonlinear_arith)
        requires
            t > 0,
            sb == l * wb / t,
    ;
    assert(sa * wb * t <= l * wa * wb) by (nonlinear_arith)
        requires
            sa * t <= l * wa,
            wb >= 0,
    ;
    assert(l * wb * wa <= (sb + 1) * t * wa) by (nonlinear_arith)
        requires
            (sb + 1) * t > l * wb,
            wa >= 0,
    ;
    assert(sa * wb <= (sb + 1) * wa) by (nonlinear_arith)
        requires
            sa * wb * t <= l * wa * wb,
            l * wb * wa <= (sb + 1) * t * wa,
            t > 0,
    ;
    assert(ra * wb <= (sa + 1) * wb) by (nonlinear_arith)
        requires
            ra <= sa + 1,
            wb >= 0,
    ;
    assert(sb * wa <= rb * wa) by (nonlinear_arith)
        requires
            sb <= rb,
            wa >= 0,
    ;
    assert(ra * wb <= rb * wa + wa + wb) by (nonlinear_arith)
        requires
            ra * wb <= (sa + 1) * wb,
            sa * wb <= (sb + 1) * wa,
            sb * wa <= rb * wa,
    ;
}

/// Columns cut short share the space by weight: when two flexible columns
/// both end narrower than their content, with weights `wa` and `wb`, their
/// widths `ra` and `rb` keep `ra * wb <= rb * wa + wa + wb` (each has its
/// weight's share, give or take the cell of rounding).
pub proof fn law_short_columns_share_by_weight(budget: int, cols: Seq<(ColWidth, u16)>, a: int, b: int)
    requires
        cols.len() < 65536,
        0 <= a < cols.len(),
        0 <= b < cols.len(),
        cols[a].0 is Flex,
        cols[b].0 is Flex,
        distributed(budget, cols)[a] < cols[a].1,
        distributed(budget, cols)[b] < cols[b].1,
    ensures
        distributed(budget, cols)[a] * cols[b].0->Flex_0 <= distributed(budget, cols)[b] * cols[a].0->Flex_0
            + cols[a].0->Flex_0 + cols[b].0->Flex_0,
{
    let widths = initial_widths(cols);
    let fixed = sum_widths(widths);
    let left = if budget >= fixed { budget - fixed } else { 0 };
    let flex = flex_cols(cols);
    lemma_flex_start(cols);
    lemma_fall(cols, left, flex, widths);
    let (l, unsat, w) = waterfall(left, flex, widths);
    let r = distributed(budget, cols);
    let wa = cols[a].0->Flex_0 as int;
    let wb = cols[b].0->Flex_0 as int;
    if unsat.len() == 0 {
        lemma_spread_grows(w, flex, l);
        assert(!has_col(unsat, a));
        assert(r[a] >= cols[a].1);
    } else {
        assert forall|q: int| 0 <= q < unsat.len() implies (#[trigger] unsat[q]).0 < w.len() by {}
        lemma_spread_grows(w, unsat, l);
        lemma_weight_total_nonneg(unsat);
        assert(r == spread(w, unsat, l));
        let t = weight_total(unsat);
        assert(has_col(unsat, a)) by {
            if !has_col(unsat, a) {
                assert(r[a] == w[a]);
            }
        }
        assert(has_col(unsat, b)) by {
            if !has_col(unsat, b) {
                assert(r[b] == w[b]);
            }
        }
        let qa = choose|q: int| 0 <= q < unsat.len() && #[trigger] unsat[q].0 as int == a;
        let qb = choose|q: int| 0 <= q < unsat.len() && #[trigger] unsat[q].0 as int == b;
        let ca = unsat[qa];
        let cb = unsat[qb];
        assert(ca.1 as int == wa && cb.1 as int == wb);
        if t == 0 {
            lemma_weight_zero(unsat, qa);
            lemma_weight_zero(unsat, qb);
            assert(wa == 0 && wb == 0);
        } else {
            assert(w[a] == 0 && w[b] == 0);
            assert(!covered(l, ca, t) && !covered(l, cb, t));
            lemma_share_le(l, wa, t);
            lemma_share_le(l, wb, t);
            assert(sat_add(0, l * wa / t) == l * wa / t);
            assert(sat_add(0, l * wb / t) == l * wb / t);
            lemma_weighted_pair(l, t, wa, wb, r[a] as int, r[b] as int);
        }
    }
}

proof fn lemma_weight_zero(us: Seq<FlexCol>, q: int)
    requires
        0 <= q < us.len(),
        weight_total(us) == 0,
    ensures
        us[q].1 == 0,
    decreases us.len(),
{
    lemma_weight_total_nonneg(us.drop_last());
    if q < us.len() - 1 {
        assert(us.drop_last()[q] == us[q]);
        lemma_weight_zero(us.drop_last(), q);
    }
}

} // verus!
