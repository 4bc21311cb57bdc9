//! Wrapping a styled line into terminal rows: a greedy fill, glyph by
//! glyph, that moves a glyph which does not fit whole to the next row. The
//! row count is the one `wrapped_height` computes for the raw line.

use crate::text::{
    after_escape, chars_of, cols, cols_of, is_esc, lemma_after_escape, push_char, rows_from, stripped_from,
    wrapped_rows,
};
use vstd::prelude::*;

verus! {

/// Rows the characters of `cs` from `i` on take at `w` columns, starting on
/// row `rows` with `col` columns filled: a character that does not fit on a
/// row that holds something starts the next one.
pub open spec fn plain_rows(cs: Seq<char>, i: int, w: int, rows: int, col: int) -> int
    decreases cs.len() - i,
{
    if i < 0 || i >= cs.len() {
        rows
    } else if col + cols(cs[i]) > w && col > 0 {
        plain_rows(cs, i + 1, w, rows + 1, cols(cs[i]) as int)
    } else {
        plain_rows(cs, i + 1, w, rows, col + cols(cs[i]))
    }
}

/// The rows of `cs` from `i` on filled greedily at `w` columns, after the
/// finished rows `done` and the current row `cur` with `col` columns used.
pub open spec fn wrap_from(cs: Seq<char>, i: int, w: int, done: Seq<Seq<char>>, cur: Seq<char>, col: int) -> Seq<Seq<char>>
    decreases cs.len() - i,
{
    if i < 0 || i >= cs.len() {
        done.push(cur)
    } else if col + cols(cs[i]) > w && col > 0 {
        wrap_from(cs, i + 1, w, done.push(cur), seq![cs[i]], cols(cs[i]) as int)
    } else {
        wrap_from(cs, i + 1, w, done, cur.push(cs[i]), col + cols(cs[i]))
    }
}

/// The rows the text `cs` fills at `width` columns (zero counts as one); an
/// empty text still takes one row.
pub open spec fn wrap_rows(cs: Seq<char>, width: nat) -> Seq<Seq<char>> {
    wrap_from(cs, 0, if width == 0 { 1 } else { width as int }, Seq::empty(), Seq::empty(), 0)
}

/// The characters of `text`, each with style `s`.
pub open spec fn tag<S>(text: Seq<char>, s: S) -> Seq<(char, S)> {
    text.map_values(|c: char| (c, s))
}

/// The characters of a line of styled spans, each with its span's style.
pub open spec fn styled<S>(spans: Seq<(String, S)>) -> Seq<(char, S)>
    decreases spans.len(),
{
    if spans.len() == 0 {
        Seq::empty()
    } else {
        styled(spans.drop_last()) + tag(spans.last().0@, spans.last().1)
    }
}

/// The characters of styled characters, without their styles.
pub open spec fn letters<S>(s: Seq<(char, S)>) -> Seq<char> {
    s.map_values(|p: (char, S)| p.0)
}

/// The styled characters of rows of spans, row after row.
pub open spec fn joined<S>(rows: Seq<Seq<(String, S)>>) -> Seq<(char, S)>
    decreases rows.len(),
{
    if rows.len() == 0 {
        Seq::empty()
    } else {
        joined(rows.drop_last()) + styled(rows.last())
    }
}

/// The rows of spans as `Seq`s.
pub open spec fn rows_view<S>(rows: Seq<Vec<(String, S)>>) -> Seq<Seq<(String, S)>> {
    rows.map_values(|r: Vec<(String, S)>| r@)
}

proof fn lemma_styled_concat<S>(a: Seq<(String, S)>, b: Seq<(String, S)>)
    ensures
        styled(a + b) == styled(a) + styled(b),
    decreases b.len(),
{
    if b.len() == 0 {
        assert(a + b =~= a);
        assert(styled(a) + styled(b) =~= styled(a));
    } else {
        lemma_styled_concat(a, b.drop_last());
        assert((a + b).drop_last() =~= a + b.drop_last());
        assert((a + b).last() == b.last());
        assert(styled(a) + styled(b) =~= styled(a) + styled(b.drop_last()) + tag(b.last().0@, b.last().1));
    }
}

proof fn lemma_letters_concat<S>(a: Seq<(char, S)>, b: Seq<(char, S)>)
    ensures
        letters(a + b) == letters(a) + letters(b),
{
    assert(letters(a + b) =~= letters(a) + letters(b));
}

proof fn lemma_letters_tag<S>(t: Seq<char>, s: S)
    ensures
        letters(tag(t, s)) == t,
        tag(t, s).len() == t.len(),
{
    assert(letters(tag(t, s)) =~= t);
}

proof fn lemma_styled_push<S>(a: Seq<(String, S)>, x: (String, S))
    ensures
        styled(a.push(x)) == styled(a) + tag(x.0@, x.1),
{
    assert(a.push(x).drop_last() =~= a);
}

proof fn lemma_joined_push<S>(a: Seq<Seq<(String, S)>>, r: Seq<(String, S)>)
    ensures
        joined(a.push(r)) == joined(a) + styled(r),
{
    assert(a.push(r).drop_last() =~= a);
}

proof fn lemma_styled_step<S>(spans: Seq<(String, S)>, k: int)
    requires
        0 <= k < spans.len(),
    ensures
        styled(spans.take(k + 1)) == styled(spans.take(k)) + tag(spans[k].0@, spans[k].1),
        styled(spans.take(k + 1)).len() <= styled(spans).len(),
        forall|j: int|
            0 <= j < spans[k].0@.len() ==> #[trigger] styled(spans)[styled(spans.take(k)).len() + j] == (spans[k].0@[j], spans[k].1),
{
    assert(spans.take(k + 1).drop_last() =~= spans.take(k));
    assert(spans.take(k + 1).last() == spans[k]);
    assert(spans =~= spans.take(k + 1) + spans.skip(k + 1));
    lemma_styled_concat(spans.take(k + 1), spans.skip(k + 1));
    let pre = styled(spans.take(k));
    let t = tag(spans[k].0@, spans[k].1);
    assert forall|j: int| 0 <= j < spans[k].0@.len() implies #[trigger] styled(spans)[pre.len() + j] == (spans[k].0@[j], spans[k].1) by {
        assert(styled(spans)[pre.len() + j] == (pre + t)[pre.len() + j]);
    }
}

/// Greedily split a line of styled spans into rows of at most `width`
/// columns (zero counts as one), breaking spans where needed: a glyph that
/// does not fit on a row that already holds something moves whole to the
/// next row, and an empty line still takes one row. The rows hold the
/// line's characters in order, each with its span's style.
pub fn wrap_line<S: Copy>(spans: Vec<(String, S)>, width: usize) -> (rows: Vec<Vec<(String, S)>>)
    ensures
        joined(rows_view(rows@)) == styled(spans@),
        rows@.len() == wrap_rows(letters(styled(spans@)), width as nat).len(),
        forall|r: int|
            0 <= r < rows@.len() ==> letters(styled(#[trigger] rows@[r]@)) == wrap_rows(letters(styled(spans@)), width as nat)[r],
{
    let w: usize = if width == 0 { 1 } else { width };
    let ghost fl = styled(spans@);
    let ghost f = letters(fl);
    let mut out: Vec<Vec<(String, S)>> = Vec::new();
    let mut cur: Vec<(String, S)> = Vec::new();
    let mut col: usize = 0;
    let ghost mut done: Seq<Seq<char>> = Seq::empty();
    let mut si: usize = 0;
    proof {
        assert(spans@.take(0) =~= Seq::<(String, S)>::empty());
        assert(fl.take(0) =~= Seq::<(char, S)>::empty());
        assert(joined(rows_view(out@)) + styled(cur@) =~= Seq::<(char, S)>::empty());
        assert(letters(styled(cur@)) =~= Seq::<char>::empty());
    }
    while si < spans.len()
        invariant
            fl == styled(spans@),
            f == letters(fl),
            w == (if width == 0 { 1 } else { width }),
            si <= spans@.len(),
            styled(spans@.take(si as int)).len() <= fl.len(),
            wrap_rows(f, width as nat) == wrap_from(f, styled(spans@.take(si as int)).len() as int, w as int, done, letters(styled(cur@)), col as int),
            joined(rows_view(out@)) + styled(cur@) == fl.take(styled(spans@.take(si as int)).len() as int),
            done.len() == out@.len(),
            forall|r: int| 0 <= r < done.len() ==> #[trigger] done[r] == letters(styled(out@[r]@)),
        decreases spans.len() - si,
    {
        let s = spans[si].1;
        let cs = chars_of(spans[si].0.as_str());
        let ghost pre = styled(spans@.take(si as int));
        proof {
            lemma_styled_step(spans@, si as int);
            lemma_letters_tag(cs@, s);
        }
        let mut buf = String::new();
        let mut has = false;
        let mut ci: usize = 0;
        proof {
            assert(tag(buf@, s) =~= Seq::<(char, S)>::empty());
            assert(letters(styled(cur@)) + buf@ =~= letters(styled(cur@)));
            assert(joined(rows_view(out@)) + styled(cur@) + tag(buf@, s) =~= joined(rows_view(out@)) + styled(cur@));
        }
        while ci < cs.len()
            invariant
                fl == styled(spans@),
                f == letters(fl),
                w == (if width == 0 { 1 } else { width }),
                si < spans@.len(),
                s == spans@[si as int].1,
                cs@ == spans@[si as int].0@,
                pre == styled(spans@.take(si as int)),
                styled(spans@.take(si + 1)) == pre + tag(cs@, s),
                styled(spans@.take(si + 1)).len() <= fl.len(),
                forall|j: int| 0 <= j < cs@.len() ==> #[trigger] fl[pre.len() + j] == (cs@[j], s),
                ci <= cs@.len(),
                has == (buf@.len() > 0),
                wrap_rows(f, width as nat) == wrap_from(f, pre.len() + ci, w as int, done, letters(styled(cur@)) + buf@, col as int),
                joined(rows_view(out@)) + styled(cur@) + tag(buf@, s) == fl.take(pre.len() + ci),
                done.len() == out@.len(),
                forall|r: int| 0 <= r < done.len() ==> #[trigger] done[r] == letters(styled(out@[r]@)),
            decreases cs.len() - ci,
        {
            let c = cs[ci];
            let cw = cols_of(c);
            let ghost p = pre.len() + ci;
            proof {
                lemma_styled_step(spans@, si as int);
                assert(fl[p] == (c, s));
                assert(f[p] == c);
                lemma_letters_tag(cs@, s);
                assert(tag(cs@, s).len() == cs@.len());
            }
            if col > 0 && (col > w || cw > w - col) {
                let ghost cur_text = letters(styled(cur@)) + buf@;
                if has {
                    let piece = buf;
                    buf = String::new();
                    has = false;
                    let ghost before = cur@;
                    cur.push((piece, s));
                    proof {
                        lemma_styled_push(before, (piece, s));
                        lemma_letters_concat(styled(before), tag(piece@, s));
                        lemma_letters_tag(piece@, s);
                        assert(tag(buf@, s) =~= Seq::<(char, S)>::empty());
                        assert(joined(rows_view(out@)) + styled(cur@) + tag(buf@, s) =~= joined(rows_view(out@)) + styled(before) + tag(piece@, s));
                    }
                } else {
                    assert(buf@ =~= Seq::<char>::empty());
                    assert(tag(buf@, s) =~= Seq::<(char, S)>::empty());
                    assert(letters(styled(cur@)) + buf@ =~= letters(styled(cur@)));
                    assert(joined(rows_view(out@)) + styled(cur@) + tag(buf@, s) =~= joined(rows_view(out@)) + styled(cur@));
                }
                assert(letters(styled(cur@)) == cur_text);
                let row = cur;
                cur = Vec::new();
                let ghost out_before = rows_view(out@);
                out.push(row);
                proof {
                    assert(rows_view(out@) =~= out_before.push(row@));
                    lemma_joined_push(out_before, row@);
                    done = done.push(cur_text);
                    assert(styled(cur@) =~= Seq::<(char, S)>::empty());
                    assert(letters(styled(cur@)) =~= Seq::<char>::empty());
                }
                col = 0;
            }
            let ghost buf_before = buf@;
            push_char(&mut buf, c);
            has = true;
            col = col + cw;
            proof {
                assert(tag(buf@, s) =~= tag(buf_before, s).push((c, s)));
                assert(fl.take(p + 1) =~= fl.take(p).push(fl[p]));
                assert(letters(styled(cur@)) + buf@ =~= (letters(styled(cur@)) + buf_before).push(c));
                if letters(styled(cur@)) + buf_before == Seq::<char>::empty() {
                    assert((letters(styled(cur@)) + buf_before).push(c) =~= seq![c]);
                }
            }
            ci = ci + 1;
        }
        if has {
            let ghost before = cur@;
            cur.push((buf, s));
            proof {
                lemma_styled_push(before, (buf, s));
                lemma_letters_concat(styled(before), tag(buf@, s));
                lemma_letters_tag(buf@, s);
            }
        } else {
            assert(buf@ =~= Seq::<char>::empty());
            assert(tag(buf@, s) =~= Seq::<(char, S)>::empty());
            assert(letters(styled(cur@)) + buf@ =~= letters(styled(cur@)));
            assert(joined(rows_view(out@)) + styled(cur@) + tag(buf@, s) =~= joined(rows_view(out@)) + styled(cur@));
        }
        si = si + 1;
    }
    proof {
        assert(spans@.take(spans@.len() as int) =~= spans@);
        assert(fl.take(fl.len() as int) =~= fl);
    }
    let ghost out_before = rows_view(out@);
    let ghost last = letters(styled(cur@));
    let last_row = cur;
    out.push(last_row);
    proof {
        assert(rows_view(out@) =~= out_before.push(last_row@));
        lemma_joined_push(out_before, last_row@);
        let rows = wrap_rows(f, width as nat);
        assert(rows == done.push(last));
        assert forall|r: int| 0 <= r < out@.len() implies letters(styled(#[trigger] out@[r]@)) == rows[r] by {
            if r < done.len() {
                assert(done[r] == letters(styled(out@[r]@)));
            }
        }
    }
    out
}

proof fn lemma_wrap_len(cs: Seq<char>, i: int, w: int, done: Seq<Seq<char>>, cur: Seq<char>, col: int)
    ensures
        wrap_from(cs, i, w, done, cur, col).len() == plain_rows(cs, i, w, done.len() + 1int, col),
    decreases cs.len() - i,
{
    if 0 <= i < cs.len() {
        if col + cols(cs[i]) > w && col > 0 {
            lemma_wrap_len(cs, i + 1, w, done.push(cur), seq![cs[i]], cols(cs[i]) as int);
        } else {
            lemma_wrap_len(cs, i + 1, w, done, cur.push(cs[i]), col + cols(cs[i]));
        }
    }
}

proof fn lemma_plain_shift(c: char, rest: Seq<char>, k: int, w: int, rows: int, col: int)
    requires
        0 <= k <= rest.len(),
    ensures
        plain_rows(seq![c] + rest, k + 1, w, rows, col) == plain_rows(rest, k, w, rows, col),
    decreases rest.len() - k,
{
    let x = seq![c] + rest;
    if k < rest.len() {
        assert(x[k + 1] == rest[k]);
        if col + cols(rest[k]) > w && col > 0 {
            lemma_plain_shift(c, rest, k + 1, w, rows + 1, cols(rest[k]) as int);
        } else {
            lemma_plain_shift(c, rest, k + 1, w, rows, col + cols(rest[k]));
        }
    }
}

proof fn lemma_rows_stripped(cs: Seq<char>, i: int, w: int, rows: int, col: int)
    requires
        0 <= i <= cs.len(),
    ensures
        rows_from(cs, i, w, rows, col) == plain_rows(stripped_from(cs, i), 0, w, rows, col),
    decreases cs.len() - i,
{
    if i < cs.len() {
        if is_esc(cs[i]) {
            lemma_after_escape(cs, i);
            lemma_rows_stripped(cs, after_escape(cs, i), w, rows, col);
        } else {
            let c = cs[i];
            let rest = stripped_from(cs, i + 1);
            assert(stripped_from(cs, i) == seq![c] + rest);
            assert((seq![c] + rest)[0] == c);
            if col + cols(c) > w && col > 0 {
                lemma_rows_stripped(cs, i + 1, w, rows + 1, cols(c) as int);
                lemma_plain_shift(c, rest, 0, w, rows + 1, cols(c) as int);
            } else {
                lemma_rows_stripped(cs, i + 1, w, rows, col + cols(c));
                lemma_plain_shift(c, rest, 0, w, rows, col + cols(c));
            }
        }
    }
}

/// The height counted for a raw log line is the number of rows its visible
/// text (escape sequences removed) wraps into, at every width.
pub proof fn law_height_matches_wrap(raw: Seq<char>, width: nat)
    ensures
        wrapped_rows(raw, width) == wrap_rows(stripped_from(raw, 0), width).len(),
{
    let w = if width == 0 { 1 } else { width as int };
    lemma_rows_stripped(raw, 0, w, 1, 0);
    lemma_wrap_len(stripped_from(raw, 0), 0, w, Seq::empty(), Seq::empty(), 0);
}

/// The rows of the lines `lines`, line after line, each line wrapped at
/// `width` columns.
pub open spec fn all_rows<S>(lines: Seq<Seq<(String, S)>>, width: nat) -> Seq<Seq<char>>
    decreases lines.len(),
{
    if lines.len() == 0 {
        Seq::empty()
    } else {
        all_rows(lines.drop_last(), width) + wrap_rows(letters(styled(lines.last())), width)
    }
}

/// The lines of spans as `Seq`s.
pub open spec fn lines_view<S>(lines: Seq<Vec<(String, S)>>) -> Seq<Seq<(String, S)>> {
    lines.map_values(|l: Vec<(String, S)>| l@)
}

/// The rows of a viewport `height` rows tall, scrolled `row_offset` rows
/// down the wrapped lines: at most `height` rows, from row `row_offset` on.
pub fn visible_wrapped_rows<S: Copy>(lines: Vec<Vec<(String, S)>>, width: usize, row_offset: usize, height: usize) -> (r: Vec<Vec<(String, S)>>)
    ensures
        ({
            let all = all_rows(lines_view(lines@), width as nat);
            &&& r@.len() == (if row_offset >= all.len() {
                0
            } else if height <= all.len() - row_offset {
                height as int
            } else {
                all.len() - row_offset
            })
            &&& forall|i: int| 0 <= i < r@.len() ==> letters(styled(#[trigger] r@[i]@)) == all[row_offset + i]
        }),
{
    let ghost lv = lines_view(lines@);
    let mut lines = lines;
    let ghost l0 = lines@;
    let n = lines.len();
    let mut out: Vec<Vec<(String, S)>> = Vec::new();
    let ghost mut seen: int = 0;
    let mut skip_left: usize = row_offset;
    let mut k: usize = 0;
    proof {
        assert(lv.take(0) =~= Seq::<Seq<(String, S)>>::empty());
        assert(lines@ =~= l0.skip(0));
    }
    while k < n
        invariant
            n == l0.len(),
            lv == lines_view(l0),
            k <= n,
            lines@ == l0.skip(k as int),
            seen == all_rows(lv.take(k as int), width as nat).len(),
            skip_left == (if row_offset >= seen { row_offset - seen } else { 0 }),
            out@.len() == (if row_offset >= seen {
                0
            } else if height <= seen - row_offset {
                height as int
            } else {
                seen - row_offset
            }),
            forall|i: int| 0 <= i < out@.len() ==> letters(styled(#[trigger] out@[i]@)) == all_rows(lv.take(k as int), width as nat)[row_offset + i],
        decreases n - k,
    {
        let line = lines.remove(0);
        assert(l0[k as int] == line);
        let ghost before = all_rows(lv.take(k as int), width as nat);
        let ghost lrows = wrap_rows(letters(styled(line@)), width as nat);
        proof {
            assert(lv.take(k + 1).drop_last() =~= lv.take(k as int));
            assert(lv.take(k + 1).last() == line@);
        }
        let rows = wrap_line(line, width);
        let ghost after = before + lrows;
        assert(all_rows(lv.take(k + 1), width as nat) == after);
        let mut rows = rows;
        let ghost r0 = rows@;
        let m = rows.len();
        let mut j: usize = 0;
        assert(rows@ =~= r0.skip(0));
        while j < m
            invariant
                m == r0.len(),
                m == lrows.len(),
                forall|t: int| 0 <= t < m ==> letters(styled(#[trigger] r0[t]@)) == lrows[t],
                j <= m,
                rows@ == r0.skip(j as int),
                seen == before.len() + j,
                skip_left == (if row_offset >= seen { row_offset - seen } else { 0 }),
                after == before + lrows,
                out@.len() == (if row_offset >= seen {
                    0
                } else if height <= seen - row_offset {
                    height as int
                } else {
                    seen - row_offset
                }),
                forall|i: int| 0 <= i < out@.len() ==> letters(styled(#[trigger] out@[i]@)) == after[row_offset + i],
            decreases m - j,
        {
            let row = rows.remove(0);
            assert(r0[j as int] == row);
            if skip_left > 0 {
                skip_left = skip_left - 1;
            } else if out.len() < height {
                out.push(row);
                proof {
                    assert(after[seen] == lrows[j as int]);
                }
            }
            proof {
                seen = seen + 1;
            }
            assert(rows@ =~= r0.skip(j + 1));
            j = j + 1;
        }
        proof {
            assert(lines@ =~= l0.skip(k + 1));
        }
        k = k + 1;
    }
    proof {
        assert(lv.take(n as int) =~= lv);
    }
    out
}

} // verus!
