//! Tables rendered to a deterministic SVG grid: a collapsed table model is
//! measured (column widths, word-wrapped cells, nested grids) and emitted as
//! a standalone `<svg>` string. The same model and width always give the same
//! bytes.

use vstd::prelude::*;

use crate::slug::{word_state, words};
use crate::markup::escaped;
use vstd::relations::injective_on;
use vstd::set_lib::{lemma_int_range, lemma_map_size, lemma_subset_equality, set_int_range};
use crate::text::{chars_of, copy_range, is_whitespace, is_ws, push_all, signed_decimal, trim};

verus! {

/// Font size, in px, of every `<text>` line.
pub const FONT_PX: i64 = 15;

/// Per-character advance, in whole px, used to size wrapping so that text
/// never overflows its cell (about 0.6em of the font).
pub const AVG_CHAR_W: i64 = 9;

/// Vertical advance between wrapped lines.
pub const LINE_H: i64 = 20;

/// Horizontal cell padding.
pub const PAD_X: i64 = 6;

/// Vertical cell padding.
pub const PAD_Y: i64 = 4;

/// Grid line and border thickness.
pub const BORDER: i64 = 1;

/// Baseline offset from the top of a line box.
pub const BASELINE_DY: i64 = 15;

/// Minimum column width, in px, before proportional space is shared out.
pub const MIN_COL_W: i64 = 40;

/// Character-count clamp used to weight a column's proportional width.
pub const MIN_CHARS: usize = 3;

pub const MAX_CHARS: usize = 24;

// ---------------------------------------------------------------------
// Line capacity
// ---------------------------------------------------------------------

/// Characters that fit on one line inside a `content_w`-px-wide box.
pub open spec fn line_capacity_spec(content_w: int) -> nat {
    let usable = content_w - 2 * PAD_X;
    if usable <= 0 {
        1
    } else if usable / (AVG_CHAR_W as int) >= 1 {
        (usable / (AVG_CHAR_W as int)) as nat
    } else {
        1
    }
}

pub fn line_capacity(content_w: i64) -> (r: usize)
    requires
        -0x2_0000_0000 <= content_w <= 0x2_0000_0000,
    ensures
        r == line_capacity_spec(content_w as int),
        r >= 1,
{
    let usable = content_w - 2 * PAD_X;
    if usable <= 0 {
        return 1;
    }
    let q = usable / AVG_CHAR_W;
    if q >= 1 {
        q as usize
    } else {
        1
    }
}

// ---------------------------------------------------------------------
// Column widths
// ---------------------------------------------------------------------

/// `a / n` rounded toward zero, as integer division does in Rust.
pub open spec fn div_trunc(a: int, n: int) -> int {
    if a >= 0 {
        a / n
    } else {
        -((-a) / n)
    }
}

/// `avail` split into `n` equal integer columns, the `avail % n` leftover
/// pixels going to the lowest-indexed columns.
pub open spec fn equal_widths_spec(n: nat, avail: int) -> Seq<int> {
    let base = div_trunc(avail, n as int);
    let leftover = avail - base * n;
    Seq::new(n, |i: int| base + if i < leftover { 1int } else { 0int })
}

/// Split `avail` px across `n` equal columns via the largest-remainder
/// method: every column gets `avail / n`, and the leftover pixels go to the
/// lowest-indexed columns so the result is deterministic.
pub fn equal_widths(n: usize, avail: i64) -> (r: Vec<i64>)
    ensures
        r@.len() == n,
        forall|i: int| 0 <= i < n ==> r@[i] == #[trigger] equal_widths_spec(n as nat, avail as int)[i],
        avail >= 0 ==> forall|i: int| 0 <= i < n ==> 0 <= #[trigger] r@[i] <= avail,
{
    let mut r: Vec<i64> = Vec::new();
    if n == 0 {
        return r;
    }
    let nn = n as i128;
    let a = avail as i128;
    let base: i128 = if a >= 0 {
        a / nn
    } else {
        -((-a) / nn)
    };
    proof {
        if a >= 0 {
            assert(0 <= base <= a && base <= base * nn <= a) by (nonlinear_arith)
                requires
                    base == a / nn,
                    a >= 0,
                    nn >= 1,
            ;
        } else {
            assert(a <= base <= 0 && a <= base * nn <= 0) by (nonlinear_arith)
                requires
                    base == -((-a) / (nn as int)),
                    a < 0,
                    nn >= 1,
            ;
        }
    }
    let leftover: i128 = a - base * nn;
    proof {
        if a >= 0 {
            assert(0 <= leftover < nn) by (nonlinear_arith)
                requires
                    base == a / nn,
                    leftover == a - base * nn,
                    a >= 0,
                    nn >= 1,
            ;
        } else {
            assert(-nn < leftover <= 0) by (nonlinear_arith)
                requires
                    base == -((-a) / (nn as int)),
                    leftover == a - base * nn,
                    a < 0,
                    nn >= 1,
            ;
        }
    }
    let ghost spec_r = equal_widths_spec(n as nat, avail as int);
    let mut i: usize = 0;
    while i < n
        invariant
            i <= n,
            r@.len() == i,
            nn == n,
            a == avail,
            base == div_trunc(avail as int, n as int),
            leftover == avail - base * n,
            i64::MIN <= base <= i64::MAX,
            leftover < nn,
            base * nn + leftover == a,
            base >= 0 ==> base <= base * nn,
            a < 0 ==> leftover <= 0,
            a >= 0 ==> base >= 0,
            spec_r == equal_widths_spec(n as nat, avail as int),
            forall|k: int| 0 <= k < i ==> r@[k] == spec_r[k],
            avail >= 0 ==> forall|k: int| 0 <= k < i ==> 0 <= #[trigger] r@[k] <= avail,
            a >= 0 ==> base <= a,
        decreases n - i,
    {
        let w: i128 = if (i as i128) < leftover {
            base + 1
        } else {
            base
        };
        proof {
            if (i as i128) < leftover {
                assert(base + 1 <= a);
            }
        }
        r.push(w as i64);
        i += 1;
    }
    r
}

/// A column's character count clamped into the weighting range.
pub open spec fn clamp_weight(l: nat) -> int {
    if l < MIN_CHARS {
        MIN_CHARS as int
    } else if l > MAX_CHARS {
        MAX_CHARS as int
    } else {
        l as int
    }
}

/// The sum of the clamped weights of the first `n` columns.
pub open spec fn weight_sum(char_len: Seq<usize>, n: int) -> int
    decreases n,
{
    if n <= 0 {
        0
    } else {
        weight_sum(char_len, n - 1) + clamp_weight(char_len[n - 1] as nat)
    }
}

/// The width every column gets before proportional space is shared out.
pub open spec fn min_col_width(n: nat, avail: int) -> int {
    if MIN_COL_W <= avail / (n as int) {
        MIN_COL_W as int
    } else {
        avail / (n as int)
    }
}

/// The pixels left to share out proportionally.
pub open spec fn remaining_width(n: nat, avail: int) -> int {
    let r = avail - min_col_width(n, avail) * n;
    if r > 0 {
        r
    } else {
        0
    }
}

/// Column `i`'s proportional share of the remaining pixels, as a whole part
/// and a remainder over the weight sum.
pub open spec fn share_whole(char_len: Seq<usize>, avail: int, i: int) -> int {
    remaining_width(char_len.len(), avail) * clamp_weight(char_len[i] as nat) / weight_sum(
        char_len,
        char_len.len() as int,
    )
}

pub open spec fn share_rem(char_len: Seq<usize>, avail: int, i: int) -> int {
    remaining_width(char_len.len(), avail) * clamp_weight(char_len[i] as nat) % weight_sum(
        char_len,
        char_len.len() as int,
    )
}

/// The sum of the whole shares of the first `n` columns.
pub open spec fn whole_sum(char_len: Seq<usize>, avail: int, n: int) -> int
    decreases n,
{
    if n <= 0 {
        0
    } else {
        whole_sum(char_len, avail, n - 1) + share_whole(char_len, avail, n - 1)
    }
}

/// Whether column `j` is served before column `i` when leftover pixels are
/// handed out: larger remainder first, ties by lower index.
pub open spec fn served_before(char_len: Seq<usize>, avail: int, j: int, i: int) -> bool {
    share_rem(char_len, avail, j) > share_rem(char_len, avail, i) || (share_rem(
        char_len,
        avail,
        j,
    ) == share_rem(char_len, avail, i) && j < i)
}

/// How many of the first `n` columns are served before column `i`.
pub open spec fn served_count(char_len: Seq<usize>, avail: int, i: int, n: int) -> nat
    decreases n,
{
    if n <= 0 {
        0
    } else {
        served_count(char_len, avail, i, n - 1) + if served_before(char_len, avail, n - 1, i) {
            1nat
        } else {
            0nat
        }
    }
}

/// Integer column widths: an equal minimum floor, then the remaining pixels
/// shared out proportionally to the clamped character weights by the
/// largest-remainder method, ties broken by column index.
pub open spec fn column_widths_spec(char_len: Seq<usize>, avail: int) -> Seq<int> {
    let n = char_len.len();
    let leftover = remaining_width(n, avail) - whole_sum(char_len, avail, n as int);
    Seq::new(
        n,
        |i: int|
            min_col_width(n, avail) + share_whole(char_len, avail, i) + if served_count(
                char_len,
                avail,
                i,
                n as int,
            ) < leftover {
                1int
            } else {
                0int
            },
    )
}

proof fn lemma_weight_sum_covers(char_len: Seq<usize>, n: int, i: int)
    requires
        0 <= i < n <= char_len.len(),
    ensures
        clamp_weight(char_len[i] as nat) <= weight_sum(char_len, n),
    decreases n,
{
    lemma_weight_sum_bounds(char_len, n - 1);
    if i < n - 1 {
        lemma_weight_sum_covers(char_len, n - 1, i);
    }
}

proof fn lemma_weight_sum_bounds(char_len: Seq<usize>, n: int)
    requires
        0 <= n <= char_len.len(),
    ensures
        3 * n <= weight_sum(char_len, n) <= 24 * n,
    decreases n,
{
    if n > 0 {
        lemma_weight_sum_bounds(char_len, n - 1);
    }
}

fn column_widths(char_len: &Vec<usize>, avail: i64) -> (r: Vec<i64>)
    requires
        0 <= avail <= 0x1_0000_0000_0000,
        char_len@.len() <= 0x1_0000_0000_0000,
    ensures
        r@.len() == char_len@.len(),
        forall|i: int|
            0 <= i < char_len@.len() ==> r@[i] == #[trigger] column_widths_spec(char_len@, avail as int)[i],
        forall|i: int| 0 <= i < char_len@.len() ==> 0 <= #[trigger] r@[i] <= avail + 1,
{
    let n = char_len.len();
    let mut r: Vec<i64> = Vec::new();
    if n == 0 {
        return r;
    }
    let ghost cl = char_len@;
    let nn = n as i64;
    let per = avail / nn;
    let min_w = if MIN_COL_W <= per {
        MIN_COL_W
    } else {
        per
    };
    proof {
        assert(0 <= per <= avail) by (nonlinear_arith)
            requires
                per == avail / nn,
                avail >= 0,
                nn >= 1,
        ;
        assert(min_w * nn <= avail) by (nonlinear_arith)
            requires
                per == avail / nn,
                min_w <= per,
                0 <= min_w,
                avail >= 0,
                nn >= 1,
        ;
    }
    let rest = avail - min_w * nn;
    let remaining = if rest > 0 {
        rest
    } else {
        0
    };
    assert(remaining == remaining_width(n as nat, avail as int));
    assert(min_w == min_col_width(n as nat, avail as int));
    // Weights and their sum.
    let mut wsum: i64 = 0;
    let mut i: usize = 0;
    while i < n
        invariant
            i <= n,
            n == cl.len(),
            cl == char_len@,
            n <= 0x1_0000_0000_0000,
            wsum == weight_sum(cl, i as int),
            3 * i <= wsum <= 24 * i,
        decreases n - i,
    {
        let l = char_len[i];
        let w: i64 = if l < MIN_CHARS {
            MIN_CHARS as i64
        } else if l > MAX_CHARS {
            MAX_CHARS as i64
        } else {
            l as i64
        };
        wsum = wsum + w;
        i += 1;
    }
    assert(wsum == weight_sum(cl, n as int));
    // Whole shares and remainders.
    let mut whole: Vec<i64> = Vec::new();
    let mut rems: Vec<i64> = Vec::new();
    let mut whole_total: i128 = 0;
    i = 0;
    while i < n
        invariant
            i <= n,
            n == cl.len(),
            cl == char_len@,
            n <= 0x1_0000_0000_0000,
            wsum == weight_sum(cl, n as int),
            3 * n <= wsum,
            0 <= remaining <= 0x1_0000_0000_0000,
            remaining == remaining_width(n as nat, avail as int),
            whole@.len() == i,
            rems@.len() == i,
            forall|k: int| 0 <= k < i ==> whole@[k] == share_whole(cl, avail as int, k),
            forall|k: int| 0 <= k < i ==> rems@[k] == share_rem(cl, avail as int, k),
            forall|k: int| 0 <= k < i ==> 0 <= #[trigger] whole@[k] <= remaining,
            whole_total == whole_sum(cl, avail as int, i as int),
            0 <= whole_total <= remaining * i,
        decreases n - i,
    {
        let l = char_len[i];
        let w: i64 = if l < MIN_CHARS {
            MIN_CHARS as i64
        } else if l > MAX_CHARS {
            MAX_CHARS as i64
        } else {
            l as i64
        };
        assert(w == clamp_weight(cl[i as int] as nat));
        proof {
            assert(0 <= remaining * w <= remaining * 24) by (nonlinear_arith)
                requires
                    0 <= remaining,
                    3 <= w <= 24,
            ;
        }
        let prod = remaining * w;
        let q = prod / wsum;
        let rm = prod % wsum;
        proof {
            lemma_weight_sum_bounds(cl, n as int);
            lemma_weight_sum_covers(cl, n as int, i as int);
            assert(0 <= q <= remaining) by (nonlinear_arith)
                requires
                    q == prod / wsum,
                    prod == remaining * w,
                    0 <= remaining,
                    3 <= w <= 24,
                    wsum >= w,
            ;
            assert(remaining * i + remaining == remaining * (i + 1)) by (nonlinear_arith);
            assert(remaining * (i + 1) <= remaining * n) by (nonlinear_arith)
                requires
                    i + 1 <= n,
                    0 <= remaining,
            ;
            assert(remaining * n <= 0x1_0000_0000_0000 * 0x1_0000_0000_0000) by (nonlinear_arith)
                requires
                    0 <= remaining <= 0x1_0000_0000_0000,
                    n <= 0x1_0000_0000_0000,
            ;
            lemma_weight_sum_bounds(cl, n as int);
            lemma_weight_sum_covers(cl, n as int, i as int);
        }
        whole.push(q);
        rems.push(rm);
        whole_total = whole_total + q as i128;
        i += 1;
    }
    proof {
        assert(whole_total <= remaining * n);
    }
    let leftover: i128 = remaining as i128 - whole_total as i128;
    let ghost spec_r = column_widths_spec(cl, avail as int);
    // Each column's place in the serving order decides whether it gets one of
    // the leftover pixels.
    i = 0;
    while i < n
        invariant
            i <= n,
            n == cl.len(),
            cl == char_len@,
            n <= 0x1_0000_0000_0000,
            whole@.len() == n,
            rems@.len() == n,
            forall|k: int| 0 <= k < n ==> whole@[k] == share_whole(cl, avail as int, k),
            forall|k: int| 0 <= k < n ==> rems@[k] == share_rem(cl, avail as int, k),
            forall|k: int| 0 <= k < n ==> 0 <= #[trigger] whole@[k] <= remaining,
            leftover == remaining - whole_sum(cl, avail as int, n as int),
            remaining == remaining_width(n as nat, avail as int),
            min_w == min_col_width(n as nat, avail as int),
            0 <= min_w,
            min_w * n + remaining == avail || remaining == 0,
            min_w <= avail,
            avail <= 0x1_0000_0000_0000,
            0 <= remaining <= avail,
            spec_r == column_widths_spec(cl, avail as int),
            r@.len() == i,
            forall|k: int| 0 <= k < i ==> r@[k] == spec_r[k],
            forall|k: int| 0 <= k < i ==> 0 <= #[trigger] r@[k] <= avail + 1,
        decreases n - i,
    {
        let mut count: usize = 0;
        let mut j: usize = 0;
        while j < n
            invariant
                j <= n,
                i < n,
                n == cl.len(),
                rems@.len() == n,
                forall|k: int| 0 <= k < n ==> rems@[k] == share_rem(cl, avail as int, k),
                count == served_count(cl, avail as int, i as int, j as int),
                count <= j,
            decreases n - j,
        {
            if rems[j] > rems[i] || (rems[j] == rems[i] && j < i) {
                count += 1;
            }
            j += 1;
        }
        let bump: i64 = if (count as i128) < leftover {
            1
        } else {
            0
        };
        proof {
            assert(whole@[i as int] <= remaining);
            assert(min_w + remaining <= avail) by (nonlinear_arith)
                requires
                    min_w * n + remaining == avail || remaining == 0,
                    0 <= min_w <= avail,
                    n >= 1,
            ;
        }
        r.push(min_w + whole[i] + bump);
        i += 1;
    }
    r
}

// ---------------------------------------------------------------------
// Word wrapping
// ---------------------------------------------------------------------

/// One word fed to the wrapper: lines finished so far and the line being
/// filled become new ones. A word longer than a line is hard-broken.
pub open spec fn wrap_word(
    lines: Seq<Seq<char>>,
    cur: Seq<char>,
    word: Seq<char>,
    max: nat,
) -> (Seq<Seq<char>>, Seq<char>)
    decreases word.len(),
{
    if max >= 1 && word.len() > max {
        let done = if cur.len() > 0 {
            lines.push(cur)
        } else {
            lines
        };
        wrap_word(done.push(word.take(max as int)), Seq::empty(), word.skip(max as int), max)
    } else if word.len() == 0 {
        (lines, cur)
    } else if cur.len() == 0 {
        (lines, word)
    } else if cur.len() + 1 + word.len() <= max {
        (lines, cur + seq![' '] + word)
    } else {
        (lines.push(cur), word)
    }
}

/// The wrapper's state after the words `ws`.
pub open spec fn wrap_state(ws: Seq<Seq<char>>, max: nat) -> (Seq<Seq<char>>, Seq<char>)
    decreases ws.len(),
{
    if ws.len() == 0 {
        (Seq::empty(), Seq::empty())
    } else {
        let (lines, cur) = wrap_state(ws.drop_last(), max);
        wrap_word(lines, cur, ws.last(), max)
    }
}

/// Greedy word-wrap of `text` to at most `max_chars` characters per line
/// (at least one). Always at least one line: an empty one for an empty
/// text.
pub open spec fn wrapped(text: Seq<char>, max_chars: nat) -> Seq<Seq<char>> {
    let max = if max_chars >= 1 {
        max_chars
    } else {
        1
    };
    let (lines, cur) = wrap_state(words(text), max);
    if cur.len() > 0 || lines.len() == 0 {
        lines.push(cur)
    } else {
        lines
    }
}

/// The character views of a list of lines.
pub open spec fn line_views(v: Seq<Vec<char>>) -> Seq<Seq<char>> {
    v.map_values(|x: Vec<char>| x@)
}

fn wrap_one_word(
    lines: &mut Vec<Vec<char>>,
    cur: &mut Vec<char>,
    word: &Vec<char>,
    max: usize,
)
    requires
        max >= 1,
    ensures
        (line_views(final(lines)@), final(cur)@) == wrap_word(
            line_views(old(lines)@),
            old(cur)@,
            word@,
            max as nat,
        ),
{
    let mut from: usize = 0;
    let ghost goal = wrap_word(line_views(lines@), cur@, word@, max as nat);
    assert(word@.skip(0) =~= word@);
    while word.len() - from > max
        invariant
            from <= word@.len(),
            max >= 1,
            goal == wrap_word(line_views(lines@), cur@, word@.skip(from as int), max as nat),
        decreases word.len() - from,
    {
        let ghost rest = word@.skip(from as int);
        let ghost before = line_views(lines@);
        let ghost old_cur = cur@;
        if cur.len() > 0 {
            let mut done: Vec<char> = Vec::new();
            std::mem::swap(&mut done, cur);
            lines.push(done);
            assert(line_views(lines@) =~= before.push(old_cur));
        }
        let piece = copy_range(word, from, from + max);
        assert(piece@ =~= rest.take(max as int));
        let ghost mid = line_views(lines@);
        lines.push(piece);
        assert(line_views(lines@) =~= mid.push(piece@));
        assert(rest.skip(max as int) =~= word@.skip((from + max) as int));
        assert(cur@ =~= Seq::<char>::empty());
        assert(wrap_word(before, old_cur, rest, max as nat) == wrap_word(
            line_views(lines@),
            Seq::empty(),
            rest.skip(max as int),
            max as nat,
        ));
        from = from + max;
    }
    let rest = copy_range(word, from, word.len());
    assert(rest@ =~= word@.skip(from as int));
    if rest.len() == 0 {
        return;
    }
    if cur.len() == 0 {
        *cur = rest;
    } else if rest.len() < max && cur.len() <= max - 1 - rest.len() {
        cur.push(' ');
        push_all(cur, &rest);
    } else {
        let ghost before = line_views(lines@);
        let mut done = rest;
        std::mem::swap(&mut done, cur);
        lines.push(done);
        assert(line_views(lines@) =~= before.push(done@));
    }
}

/// Greedy word-wrap of `text` to at most `max_chars` characters per line.
/// Words longer than a line are hard-broken; the result always has at least
/// one line.
pub fn wrap(text: &[char], max_chars: usize) -> (r: Vec<Vec<char>>)
    ensures
        line_views(r@) == wrapped(text@, max_chars as nat),
{
    let max = if max_chars >= 1 {
        max_chars
    } else {
        1
    };
    let mut lines: Vec<Vec<char>> = Vec::new();
    let mut cur: Vec<char> = Vec::new();
    let mut word: Vec<char> = Vec::new();
    let ghost mut done: Seq<Seq<char>> = Seq::empty();
    let mut i: usize = 0;
    assert(line_views(lines@) =~= Seq::<Seq<char>>::empty());
    while i < text.len()
        invariant
            i <= text@.len(),
            max >= 1,
            word_state(text@.take(i as int)) == (done, word@),
            wrap_state(done, max as nat) == (line_views(lines@), cur@),
        decreases text.len() - i,
    {
        let c = text[i];
        assert(text@.take(i + 1).drop_last() == text@.take(i as int));
        if is_whitespace(c) {
            if word.len() > 0 {
                wrap_one_word(&mut lines, &mut cur, &word, max);
                proof {
                    let next = done.push(word@);
                    assert(next.drop_last() =~= done);
                    done = next;
                }
                word = Vec::new();
            }
        } else {
            word.push(c);
        }
        i += 1;
    }
    assert(text@.take(text@.len() as int) == text@);
    if word.len() > 0 {
        wrap_one_word(&mut lines, &mut cur, &word, max);
        proof {
            let next = done.push(word@);
            assert(next.drop_last() =~= done);
            done = next;
        }
    }
    assert(done == words(text@));
    if cur.len() > 0 || lines.len() == 0 {
        let ghost before = line_views(lines@);
        lines.push(cur);
        assert(line_views(lines@) =~= before.push(cur@));
    }
    lines
}

// ---------------------------------------------------------------------
// The table model and its layout
// ---------------------------------------------------------------------

/// A table collapsed for layout. Header cells and captions are plain
/// white-space-collapsed text; each body cell carries its own text plus at
/// most one nested table rendered as an inner grid. Ragged body rows are
/// padded at layout time.
pub struct TableModel {
    pub caption: Option<String>,
    /// Header cells stay text-only.
    pub headers: Option<Vec<String>>,
    /// Body rows; each cell is text plus an optional nested grid.
    pub rows: Vec<Vec<Cell>>,
}

/// One body cell: its own text plus at most one nested table.
pub struct Cell {
    pub text: String,
    pub sub: Option<TableModel>,
}

/// A measured grid: its column widths, its rows, its total height (caption
/// included) and its caption lines.
pub struct GridShape {
    pub widths: Seq<int>,
    pub rows: Seq<RowShape>,
    pub height: int,
    pub caption_lines: Seq<Seq<char>>,
}

/// A measured row: whether it is the header, its cells and its height.
pub struct RowShape {
    pub is_header: bool,
    pub cells: Seq<CellShape>,
    pub height: int,
}

/// A measured cell: its wrapped lines and the nested grid drawn below them.
pub struct CellShape {
    pub lines: Seq<Seq<char>>,
    pub sub: Option<GridShape>,
}

/// The number of header cells.
pub open spec fn header_count(m: TableModel) -> nat {
    match m.headers {
        Some(h) => h@.len(),
        None => 0,
    }
}

/// Header cell `c`'s text; empty past the end of a short header.
pub open spec fn header_text(m: TableModel, c: int) -> Seq<char> {
    match m.headers {
        Some(h) => if 0 <= c < h@.len() {
            h@[c]@
        } else {
            Seq::empty()
        },
        None => Seq::empty(),
    }
}

/// The length of the longest of the first `n` body rows.
pub open spec fn widest_row(rows: Seq<Vec<Cell>>, n: int) -> nat
    decreases n,
{
    if n <= 0 {
        0
    } else {
        let w = rows[n - 1]@.len();
        let prev = widest_row(rows, n - 1);
        if w > prev {
            w
        } else {
            prev
        }
    }
}

/// The column count: the widest of the header and the body rows.
pub open spec fn col_count(m: TableModel) -> nat {
    let b = widest_row(m.rows@, m.rows@.len() as int);
    if header_count(m) > b {
        header_count(m)
    } else {
        b
    }
}

/// Body cell `c`'s text in `row`; empty past the end of a ragged row.
pub open spec fn cell_text(row: Seq<Cell>, c: int) -> Seq<char> {
    if 0 <= c < row.len() {
        row[c].text@
    } else {
        Seq::empty()
    }
}

/// The weight a body cell gives its column: its character count, raised
/// to `MAX_CHARS` when it holds a nested table so the inner grid gets room.
pub open spec fn cell_weight(row: Seq<Cell>, c: int) -> nat {
    if 0 <= c < row.len() {
        let chars = row[c].text@.len();
        if row[c].sub is Some && chars < MAX_CHARS {
            MAX_CHARS as nat
        } else {
            chars
        }
    } else {
        0
    }
}

/// The largest weight column `c` gets from the first `n` body rows.
pub open spec fn body_weight(rows: Seq<Vec<Cell>>, c: int, n: int) -> nat
    decreases n,
{
    if n <= 0 {
        0
    } else {
        let w = cell_weight(rows[n - 1]@, c);
        let prev = body_weight(rows, c, n - 1);
        if w > prev {
            w
        } else {
            prev
        }
    }
}

/// Column `c`'s character weight: its widest header or body cell.
pub open spec fn char_weight(m: TableModel, c: int) -> nat {
    let h = header_text(m, c).len();
    let b = body_weight(m.rows@, c, m.rows@.len() as int);
    if h > b {
        h
    } else {
        b
    }
}

pub open spec fn char_weights(m: TableModel) -> Seq<usize> {
    Seq::new(col_count(m), |c: int| char_weight(m, c) as usize)
}

/// The pixels left for columns once the borders are drawn.
pub open spec fn avail_width(width: int, cols: nat) -> int {
    if width - (cols + 1) * BORDER > 0 {
        width - (cols + 1) * BORDER
    } else {
        0
    }
}

/// Column widths: proportional at the top level, equal for nested grids.
pub open spec fn grid_widths(m: TableModel, width: int, equal: bool) -> Seq<int> {
    let avail = avail_width(width, col_count(m));
    if equal {
        equal_widths_spec(col_count(m), avail)
    } else {
        column_widths_spec(char_weights(m), avail)
    }
}

/// The caption's lines: wrapped to the full width, none for a blank one.
pub open spec fn caption_lines_spec(m: TableModel, width: int) -> Seq<Seq<char>> {
    match m.caption {
        Some(c) => if trim(c@).len() > 0 {
            wrapped(c@, line_capacity_spec(width))
        } else {
            Seq::empty()
        },
        None => Seq::empty(),
    }
}

pub open spec fn caption_height(lines: Seq<Seq<char>>) -> int {
    if lines.len() == 0 {
        0
    } else {
        lines.len() * LINE_H + 2 * PAD_Y
    }
}

/// The width a nested grid gets: its cell's content width.
pub open spec fn sub_width(w: int) -> int {
    if w - 2 * PAD_X > 0 {
        w - 2 * PAD_X
    } else {
        0
    }
}

/// The laid-out header row.
pub open spec fn header_row(m: TableModel, widths: Seq<int>) -> RowShape {
    let cells = Seq::new(
        widths.len(),
        |c: int|
            CellShape {
                lines: wrapped(header_text(m, c), line_capacity_spec(widths[c])),
                sub: None,
            },
    );
    RowShape { is_header: true, cells, height: text_rows_height(cells, cells.len() as int) + 2 * PAD_Y }
}

/// The tallest of the first `n` text-only cells (at least one line).
pub open spec fn text_rows_height(cells: Seq<CellShape>, n: int) -> int
    decreases n,
{
    if n <= 0 {
        LINE_H as int
    } else {
        let h = cells[n - 1].lines.len() * LINE_H;
        let prev = text_rows_height(cells, n - 1);
        if h > prev {
            h
        } else {
            prev
        }
    }
}

/// How tall a body cell is: its lines, or its text (if any), a separator
/// and its nested grid.
pub open spec fn cell_height(text: Seq<char>, cell: CellShape) -> int {
    let has_text = trim(text).len() > 0;
    match cell.sub {
        Some(g) => (if has_text {
            cell.lines.len() * LINE_H
        } else {
            0
        }) + (if has_text {
            PAD_Y as int
        } else {
            0
        }) + g.height,
        None => cell.lines.len() * LINE_H,
    }
}

/// The tallest of the first `n` cells of body row `row` (at least one line).
pub open spec fn body_cells_height(row: Seq<Cell>, cells: Seq<CellShape>, n: int) -> int
    decreases n,
{
    if n <= 0 {
        LINE_H as int
    } else {
        let h = cell_height(cell_text(row, n - 1), cells[n - 1]);
        let prev = body_cells_height(row, cells, n - 1);
        if h > prev {
            h
        } else {
            prev
        }
    }
}

/// Body cell `c` of row `r`, laid out in a column `widths[c]` px wide. A
/// nested table becomes an inner grid as wide as the cell's content, dropped
/// when it has no columns.
pub open spec fn body_cell(m: TableModel, r: int, widths: Seq<int>, c: int) -> CellShape
    decreases m, 0int, c,
{
    if 0 <= r < m.rows@.len() && 0 <= c < widths.len() {
        let row = m.rows@[r]@;
        let w = widths[c];
        let sub = if c < row.len() && row[c].sub is Some {
            let g = layout_spec(row[c].sub->0, sub_width(w), true);
            if g.widths.len() > 0 {
                Some(g)
            } else {
                None
            }
        } else {
            None
        };
        CellShape { lines: wrapped(cell_text(row, c), line_capacity_spec(w)), sub }
    } else {
        CellShape { lines: Seq::empty(), sub: None }
    }
}

/// The first `n` laid-out cells of body row `r`.
pub open spec fn body_cells(m: TableModel, r: int, widths: Seq<int>, n: int) -> Seq<CellShape>
    decreases m, 0int, n,
{
    if n <= 0 {
        Seq::empty()
    } else {
        body_cells(m, r, widths, n - 1).push(body_cell(m, r, widths, n - 1))
    }
}

/// Body row `r`, sized to its tallest cell plus padding.
pub open spec fn body_row(m: TableModel, r: int, widths: Seq<int>) -> RowShape
    decreases m, 1int, r,
{
    let cells = body_cells(m, r, widths, widths.len() as int);
    let row = if 0 <= r < m.rows@.len() {
        m.rows@[r]@
    } else {
        Seq::empty()
    };
    RowShape {
        is_header: false,
        cells,
        height: body_cells_height(row, cells, widths.len() as int) + 2 * PAD_Y,
    }
}

/// The first `n` laid-out body rows.
pub open spec fn body_rows(m: TableModel, widths: Seq<int>, n: int) -> Seq<RowShape>
    decreases m, 1int, n,
{
    if n <= 0 {
        Seq::empty()
    } else {
        body_rows(m, widths, n - 1).push(body_row(m, n - 1, widths))
    }
}

/// The vertical extent of the first `n` rows, each with the border below it.
pub open spec fn rows_extent(rows: Seq<RowShape>, n: int) -> int
    decreases n,
{
    if n <= 0 {
        0
    } else {
        rows_extent(rows, n - 1) + rows[n - 1].height + BORDER
    }
}

/// `model` measured into a grid exactly `width` px wide. The top-level grid
/// shares column space proportionally; nested grids use equal columns.
pub open spec fn layout_spec(m: TableModel, width: int, equal: bool) -> GridShape
    decreases m, 2int, 0int,
{
    let cols = col_count(m);
    let caption_lines = caption_lines_spec(m, width);
    let ch = caption_height(caption_lines);
    if cols == 0 {
        GridShape { widths: Seq::empty(), rows: Seq::empty(), height: ch, caption_lines }
    } else {
        let widths = grid_widths(m, width, equal);
        let head = match m.headers {
            Some(h) => seq![header_row(m, widths)],
            None => Seq::empty(),
        };
        let rows = head + body_rows(m, widths, m.rows@.len() as int);
        GridShape {
            widths,
            rows,
            height: ch + BORDER + rows_extent(rows, rows.len() as int),
            caption_lines,
        }
    }
}

/// The bound every laid-out height and column count stays within.
pub const LAYOUT_LIMIT: i64 = 0x100_0000_0000;

/// Whether `model`'s layout, and that of every nested table in it, stays
/// within [`LAYOUT_LIMIT`].
pub open spec fn layout_fits(m: TableModel, width: int, equal: bool) -> bool
    decreases m,
{
    let g = layout_spec(m, width, equal);
    &&& g.height <= LAYOUT_LIMIT
    &&& col_count(m) < LAYOUT_LIMIT
    &&& forall|r: int, c: int|
        0 <= r < m.rows@.len() && 0 <= c < m.rows@[r]@.len() && c < g.widths.len() && (
        #[trigger] m.rows@[r]@[c]).sub is Some ==> layout_fits(
            m.rows@[r]@[c].sub->0,
            sub_width(g.widths[c]),
            true,
        )
}

// ---------------------------------------------------------------------
// Facts about the layout
// ---------------------------------------------------------------------

proof fn lemma_text_rows_height(cells: Seq<CellShape>, n: int, k: int)
    requires
        0 <= k < n <= cells.len(),
    ensures
        cells[k].lines.len() * LINE_H <= text_rows_height(cells, n),
    decreases n,
{
    if k < n - 1 {
        lemma_text_rows_height(cells, n - 1, k);
    }
}

proof fn lemma_text_rows_height_min(cells: Seq<CellShape>, n: int)
    ensures
        LINE_H <= text_rows_height(cells, n),
    decreases n,
{
    if n > 0 {
        lemma_text_rows_height_min(cells, n - 1);
    }
}

proof fn lemma_body_cells_height(row: Seq<Cell>, cells: Seq<CellShape>, n: int, k: int)
    requires
        0 <= k < n <= cells.len(),
    ensures
        cell_height(cell_text(row, k), cells[k]) <= body_cells_height(row, cells, n),
    decreases n,
{
    if k < n - 1 {
        lemma_body_cells_height(row, cells, n - 1, k);
    }
}

proof fn lemma_body_cells_height_min(row: Seq<Cell>, cells: Seq<CellShape>, n: int)
    ensures
        LINE_H <= body_cells_height(row, cells, n),
    decreases n,
{
    if n > 0 {
        lemma_body_cells_height_min(row, cells, n - 1);
    }
}

proof fn lemma_body_cells(m: TableModel, r: int, widths: Seq<int>, n: int)
    requires
        0 <= n,
    ensures
        body_cells(m, r, widths, n).len() == n,
        forall|k: int|
            0 <= k < n ==> #[trigger] body_cells(m, r, widths, n)[k] == body_cell(m, r, widths, k),
    decreases n,
{
    if n > 0 {
        lemma_body_cells(m, r, widths, n - 1);
    }
}

proof fn lemma_body_rows(m: TableModel, widths: Seq<int>, n: int)
    requires
        0 <= n,
    ensures
        body_rows(m, widths, n).len() == n,
        forall|k: int| 0 <= k < n ==> #[trigger] body_rows(m, widths, n)[k] == body_row(m, k, widths),
    decreases n,
{
    if n > 0 {
        lemma_body_rows(m, widths, n - 1);
    }
}

/// Every row of a laid-out grid is at least one line tall.
proof fn lemma_row_heights(m: TableModel, width: int, equal: bool)
    ensures
        forall|k: int|
            0 <= k < layout_spec(m, width, equal).rows.len() ==> #[trigger] layout_spec(
                m,
                width,
                equal,
            ).rows[k].height >= LINE_H + 2 * PAD_Y,
{
    let g = layout_spec(m, width, equal);
    if col_count(m) > 0 {
        let widths = grid_widths(m, width, equal);
        lemma_body_rows(m, widths, m.rows@.len() as int);
        assert forall|k: int| 0 <= k < g.rows.len() implies #[trigger] g.rows[k].height >= LINE_H + 2
            * PAD_Y by {
            let head_len: int = if m.headers is Some {
                1
            } else {
                0
            };
            if k < head_len {
                let hr = header_row(m, widths);
                lemma_text_rows_height_min(hr.cells, hr.cells.len() as int);
            } else {
                let br = body_row(m, k - head_len, widths);
                let row = if 0 <= k - head_len < m.rows@.len() {
                    m.rows@[k - head_len]@
                } else {
                    Seq::empty()
                };
                lemma_body_cells_height_min(row, br.cells, widths.len() as int);
            }
        }
    }
}

proof fn lemma_rows_extent(rows: Seq<RowShape>, k: int, n: int)
    requires
        0 <= k <= n <= rows.len(),
        forall|i: int| 0 <= i < rows.len() ==> #[trigger] rows[i].height >= 0,
    ensures
        0 <= rows_extent(rows, k) <= rows_extent(rows, n),
        k < n ==> rows_extent(rows, k) + rows[k].height + BORDER <= rows_extent(rows, n),
    decreases n,
{
    if k < n {
        lemma_rows_extent(rows, k, n - 1);
    } else {
        lemma_rows_extent_nonneg(rows, n);
    }
}

proof fn lemma_rows_extent_nonneg(rows: Seq<RowShape>, n: int)
    requires
        n <= rows.len(),
        forall|i: int| 0 <= i < rows.len() ==> #[trigger] rows[i].height >= 0,
    ensures
        0 <= rows_extent(rows, n),
    decreases n,
{
    if n > 0 {
        lemma_rows_extent_nonneg(rows, n - 1);
    }
}

// ---------------------------------------------------------------------
// The measured grid
// ---------------------------------------------------------------------

/// A fully measured grid ready to emit at any offset.
struct GridLayout {
    widths: Vec<i64>,
    rows: Vec<RowLayout>,
    height: i64,
    caption_lines: Vec<Vec<char>>,
}

/// A header or body row after layout.
struct RowLayout {
    is_header: bool,
    cells: Vec<CellLayout>,
    height: i64,
}

/// One laid-out cell: its wrapped lines plus an optional nested grid.
struct CellLayout {
    lines: Vec<Vec<char>>,
    sub: Option<Box<GridLayout>>,
}

spec fn grid_as(g: GridLayout, s: GridShape) -> bool
    decreases g,
{
    &&& g.widths@.len() == s.widths.len()
    &&& forall|c: int| 0 <= c < s.widths.len() ==> #[trigger] g.widths@[c] == s.widths[c]
    &&& g.height == s.height
    &&& line_views(g.caption_lines@) == s.caption_lines
    &&& g.rows@.len() == s.rows.len()
    &&& forall|r: int| 0 <= r < g.rows@.len() ==> row_as(#[trigger] g.rows@[r], s.rows[r])
}

spec fn row_as(row: RowLayout, s: RowShape) -> bool
    decreases row,
{
    &&& row.is_header == s.is_header
    &&& row.height == s.height
    &&& row.cells@.len() == s.cells.len()
    &&& forall|c: int| 0 <= c < row.cells@.len() ==> cell_as(#[trigger] row.cells@[c], s.cells[c])
}

spec fn cell_as(cell: CellLayout, s: CellShape) -> bool
    decreases cell,
{
    &&& line_views(cell.lines@) == s.lines
    &&& match (cell.sub, s.sub) {
        (Some(b), Some(t)) => grid_as(*b, t),
        (None, None) => true,
        _ => false,
    }
}

// ---------------------------------------------------------------------
// Measuring
// ---------------------------------------------------------------------

/// Grid dimensions of a table, for its report line: rows (counting a
/// header row) and columns (the widest of header and body rows).
pub fn model_dimensions(model: &TableModel) -> (r: (usize, usize))
    requires
        model.rows@.len() < usize::MAX,
    ensures
        r.0 == model.rows@.len() + (if model.headers is Some { 1int } else { 0int }),
        r.1 == col_count(*model),
{
    let cols = column_count(model);
    let rows = model.rows.len() + if model.headers.is_some() {
        1
    } else {
        0
    };
    (rows, cols)
}

fn column_count(model: &TableModel) -> (r: usize)
    ensures
        r == col_count(*model),
{
    let mut b: usize = 0;
    let mut i: usize = 0;
    while i < model.rows.len()
        invariant
            i <= model.rows@.len(),
            b == widest_row(model.rows@, i as int),
        decreases model.rows.len() - i,
    {
        let w = model.rows[i].len();
        if w > b {
            b = w;
        }
        i += 1;
    }
    let h: usize = match &model.headers {
        Some(h) => h.len(),
        None => 0,
    };
    if h > b {
        h
    } else {
        b
    }
}

fn caption_lines_of(model: &TableModel, width: i64) -> (r: Vec<Vec<char>>)
    requires
        0 <= width <= 0x2_0000_0000,
    ensures
        line_views(r@) == caption_lines_spec(*model, width as int),
{
    let none: Vec<Vec<char>> = Vec::new();
    assert(line_views(none@) =~= Seq::<Seq<char>>::empty());
    match &model.caption {
        Some(c) => {
            let v = chars_of(c.as_str());
            let (a, b) = crate::text::trim_bounds(&v);
            if a < b {
                wrap(&v, line_capacity(width))
            } else {
                none
            }
        },
        None => none,
    }
}

fn weights_of(model: &TableModel, cols: usize) -> (r: Vec<usize>)
    requires
        cols == col_count(*model),
    ensures
        r@ == char_weights(*model),
{
    let mut out: Vec<usize> = Vec::new();
    let mut c: usize = 0;
    while c < cols
        invariant
            c <= cols,
            cols == col_count(*model),
            out@.len() == c,
            forall|k: int| 0 <= k < c ==> out@[k] == char_weight(*model, k),
        decreases cols - c,
    {
        let hl: usize = match &model.headers {
            Some(h) => if c < h.len() {
                chars_of(h[c].as_str()).len()
            } else {
                0
            },
            None => 0,
        };
        let mut bw: usize = 0;
        let mut r: usize = 0;
        while r < model.rows.len()
            invariant
                r <= model.rows@.len(),
                bw == body_weight(model.rows@, c as int, r as int),
            decreases model.rows.len() - r,
        {
            let row = &model.rows[r];
            let w: usize = if c < row.len() {
                let n = chars_of(row[c].text.as_str()).len();
                if row[c].sub.is_some() && n < MAX_CHARS {
                    MAX_CHARS
                } else {
                    n
                }
            } else {
                0
            };
            if w > bw {
                bw = w;
            }
            r += 1;
        }
        out.push(if hl > bw {
            hl
        } else {
            bw
        });
        c += 1;
    }
    assert(out@ =~= char_weights(*model));
    out
}

/// The header row, wrapped to the column widths.
fn layout_header_row(model: &TableModel, widths: &Vec<i64>, Ghost(ws): Ghost<Seq<int>>) -> (row: RowLayout)
    requires
        widths@.len() == ws.len(),
        forall|c: int| 0 <= c < ws.len() ==> #[trigger] widths@[c] == ws[c],
        forall|c: int| 0 <= c < ws.len() ==> 0 <= #[trigger] ws[c] <= 0x2_0000_0000,
        header_row(*model, ws).height <= LAYOUT_LIMIT,
    ensures
        row_as(row, header_row(*model, ws)),
{
    let ghost hr = header_row(*model, ws);
    let mut cells: Vec<CellLayout> = Vec::new();
    let mut content_h: i64 = LINE_H;
    let mut c: usize = 0;
    while c < widths.len()
        invariant
            c <= widths@.len(),
            widths@.len() == ws.len(),
            forall|k: int| 0 <= k < ws.len() ==> #[trigger] widths@[k] == ws[k],
            forall|k: int| 0 <= k < ws.len() ==> 0 <= #[trigger] ws[k] <= 0x2_0000_0000,
            hr == header_row(*model, ws),
            hr.height <= LAYOUT_LIMIT,
            cells@.len() == c,
            forall|k: int| 0 <= k < c ==> cell_as(#[trigger] cells@[k], hr.cells[k]),
            content_h == text_rows_height(hr.cells, c as int),
        decreases widths.len() - c,
    {
        let text: Vec<char> = match &model.headers {
            Some(h) => if c < h.len() {
                chars_of(h[c].as_str())
            } else {
                Vec::new()
            },
            None => Vec::new(),
        };
        assert(text@ == header_text(*model, c as int));
        let lines = wrap(&text, line_capacity(widths[c]));
        proof {
            lemma_text_rows_height(hr.cells, hr.cells.len() as int, c as int);
            lemma_text_rows_height_min(hr.cells, hr.cells.len() as int);
        }
        let h = lines.len() as i64 * LINE_H;
        if h > content_h {
            content_h = h;
        }
        cells.push(CellLayout { lines, sub: None });
        c += 1;
    }
    RowLayout { is_header: true, cells, height: content_h + 2 * PAD_Y }
}

proof fn lemma_layout_height(m: TableModel, width: int, equal: bool)
    ensures
        0 <= caption_height(layout_spec(m, width, equal).caption_lines) <= layout_spec(
            m,
            width,
            equal,
        ).height,
{
    let g = layout_spec(m, width, equal);
    lemma_row_heights(m, width, equal);
    if col_count(m) > 0 {
        lemma_rows_extent_nonneg(g.rows, g.rows.len() as int);
    }
}

/// Body row `r`, its cells wrapped to the column widths and any nested
/// table laid out inside its cell.
fn layout_body_row(model: &TableModel, r: usize, widths: &Vec<i64>, Ghost(ws): Ghost<Seq<int>>) -> (row:
    RowLayout)
    requires
        r < model.rows@.len(),
        widths@.len() == ws.len(),
        forall|c: int| 0 <= c < ws.len() ==> #[trigger] widths@[c] == ws[c],
        forall|c: int| 0 <= c < ws.len() ==> 0 <= #[trigger] ws[c] <= 0x2_0000_0000,
        body_row(*model, r as int, ws).height <= LAYOUT_LIMIT,
        forall|c: int|
            0 <= c < model.rows@[r as int]@.len() && c < ws.len() && (#[trigger] model.rows@[r as int]@[c]).sub is Some ==> layout_fits(
                model.rows@[r as int]@[c].sub->0,
                sub_width(ws[c]),
                true,
            ),
    ensures
        row_as(row, body_row(*model, r as int, ws)),
    decreases *model, 0int,
{
    let ghost br = body_row(*model, r as int, ws);
    let ghost mrow = model.rows@[r as int]@;
    proof {
        lemma_body_cells(*model, r as int, ws, ws.len() as int);
        lemma_body_cells_height_min(mrow, br.cells, ws.len() as int);
    }
    let cells_in = &model.rows[r];
    let mut cells: Vec<CellLayout> = Vec::new();
    let mut content_h: i64 = LINE_H;
    let mut c: usize = 0;
    while c < widths.len()
        invariant
            c <= widths@.len(),
            r < model.rows@.len(),
            *cells_in == model.rows@[r as int],
            mrow == cells_in@,
            widths@.len() == ws.len(),
            forall|k: int| 0 <= k < ws.len() ==> #[trigger] widths@[k] == ws[k],
            forall|k: int| 0 <= k < ws.len() ==> 0 <= #[trigger] ws[k] <= 0x2_0000_0000,
            br == body_row(*model, r as int, ws),
            br.height <= LAYOUT_LIMIT,
            br.cells.len() == ws.len(),
            forall|k: int| 0 <= k < ws.len() ==> #[trigger] br.cells[k] == body_cell(*model, r as int, ws, k),
            br.height == body_cells_height(mrow, br.cells, ws.len() as int) + 2 * PAD_Y,
            forall|k: int|
                0 <= k < mrow.len() && k < ws.len() && (#[trigger] mrow[k]).sub is Some ==> layout_fits(
                    mrow[k].sub->0,
                    sub_width(ws[k]),
                    true,
                ),
            cells@.len() == c,
            forall|k: int| 0 <= k < c ==> cell_as(#[trigger] cells@[k], br.cells[k]),
            content_h == body_cells_height(mrow, br.cells, c as int),
        decreases widths.len() - c,
    {
        let text: Vec<char> = if c < cells_in.len() {
            chars_of(cells_in[c].text.as_str())
        } else {
            Vec::new()
        };
        assert(text@ == cell_text(mrow, c as int));
        let (ta, tb) = crate::text::trim_bounds(&text);
        let has_text = ta < tb;
        let w = widths[c];
        let lines = wrap(&text, line_capacity(w));
        let sub_w: i64 = if w - 2 * PAD_X > 0 {
            w - 2 * PAD_X
        } else {
            0
        };
        let sub: Option<Box<GridLayout>> = if c < cells_in.len() {
            match &cells_in[c].sub {
                Some(sm) => {
                    assert(layout_fits(*sm, sub_width(ws[c as int]), true));
                    let g = layout_grid_impl(sm, sub_w, true);
                    if g.widths.len() > 0 {
                        Some(Box::new(g))
                    } else {
                        None
                    }
                },
                None => None,
            }
        } else {
            None
        };
        let ghost cs = br.cells[c as int];
        assert(cs == body_cell(*model, r as int, ws, c as int));
        proof {
            lemma_body_cells_height(mrow, br.cells, ws.len() as int, c as int);
            match cs.sub {
                Some(t) => {
                    lemma_layout_height(mrow[c as int].sub->0, sub_width(ws[c as int]), true);
                },
                None => {},
            }
        }
        let h: i64 = match &sub {
            Some(g) => {
                let text_h: i64 = if has_text {
                    lines.len() as i64 * LINE_H
                } else {
                    0
                };
                let sep: i64 = if has_text {
                    PAD_Y
                } else {
                    0
                };
                text_h + sep + g.height
            },
            None => lines.len() as i64 * LINE_H,
        };
        assert(h == cell_height(cell_text(mrow, c as int), cs));
        if h > content_h {
            content_h = h;
        }
        cells.push(CellLayout { lines, sub });
        c += 1;
    }
    RowLayout { is_header: false, cells, height: content_h + 2 * PAD_Y }
}

/// `model` measured into a grid exactly `width` px wide, sharing column
/// space proportionally (nested grids use equal columns).
fn layout_grid(model: &TableModel, width: i64) -> (g: GridLayout)
    requires
        0 <= width <= 0x2_0000_0000,
        layout_fits(*model, width as int, false),
    ensures
        grid_as(g, layout_spec(*model, width as int, false)),
{
    layout_grid_impl(model, width, false)
}

/// `model` measured into a grid exactly `width` px wide; nested grids use
/// equal columns.
fn layout_grid_impl(model: &TableModel, width: i64, equal: bool) -> (g: GridLayout)
    requires
        0 <= width <= 0x2_0000_0000,
        layout_fits(*model, width as int, equal),
    ensures
        grid_as(g, layout_spec(*model, width as int, equal)),
    decreases *model, 1int,
{
    let ghost s = layout_spec(*model, width as int, equal);
    proof {
        lemma_row_heights(*model, width as int, equal);
        lemma_layout_height(*model, width as int, equal);
    }
    let cols = column_count(model);
    let caption_lines = caption_lines_of(model, width);
    let ch: i64 = if caption_lines.len() == 0 {
        0
    } else {
        caption_lines.len() as i64 * LINE_H + 2 * PAD_Y
    };
    if cols == 0 {
        return GridLayout { widths: Vec::new(), rows: Vec::new(), height: ch, caption_lines };
    }
    let char_len = weights_of(model, cols);
    let c1 = cols as i64 + 1;
    let avail = if width - c1 > 0 {
        width - c1
    } else {
        0
    };
    let widths = if equal {
        equal_widths(cols, avail)
    } else {
        column_widths(&char_len, avail)
    };
    let ghost ws = grid_widths(*model, width as int, equal);
    assert(ws == s.widths);
    assert(forall|c: int| 0 <= c < ws.len() ==> #[trigger] widths@[c] == ws[c]);
    let ghost head_len: int = if model.headers.is_some() {
        1
    } else {
        0
    };
    proof {
        lemma_body_rows(*model, ws, model.rows@.len() as int);
        assert(s.rows.len() == head_len + model.rows@.len());
    }
    let mut rows: Vec<RowLayout> = Vec::new();
    let mut y: i64 = ch + BORDER;
    if model.headers.is_some() {
        proof {
            lemma_rows_extent(s.rows, 0, s.rows.len() as int);
            assert(s.rows[0] == header_row(*model, ws));
        }
        let hr = layout_header_row(model, &widths, Ghost(ws));
        y = y + hr.height + BORDER;
        rows.push(hr);
    }
    let mut r: usize = 0;
    while r < model.rows.len()
        invariant
            r <= model.rows@.len(),
            s == layout_spec(*model, width as int, equal),
            col_count(*model) > 0,
            ws == s.widths,
            ws == grid_widths(*model, width as int, equal),
            widths@.len() == ws.len(),
            forall|c: int| 0 <= c < ws.len() ==> #[trigger] widths@[c] == ws[c],
            forall|c: int| 0 <= c < ws.len() ==> 0 <= #[trigger] ws[c] <= 0x2_0000_0000,
            s.height <= LAYOUT_LIMIT,
            layout_fits(*model, width as int, equal),
            forall|k: int| 0 <= k < s.rows.len() ==> #[trigger] s.rows[k].height >= LINE_H + 2 * PAD_Y,
            s.rows.len() == head_len + model.rows@.len(),
            forall|k: int| 0 <= k < model.rows@.len() ==> s.rows[head_len + k] == body_row(*model, k, ws),
            s.height == ch + BORDER + rows_extent(s.rows, s.rows.len() as int),
            rows@.len() == head_len + r,
            forall|k: int| 0 <= k < rows@.len() ==> row_as(#[trigger] rows@[k], s.rows[k]),
            y == ch + BORDER + rows_extent(s.rows, rows@.len() as int),
        decreases model.rows.len() - r,
    {
        proof {
            lemma_rows_extent(s.rows, head_len + r, s.rows.len() as int);
        }
        let br = layout_body_row(model, r, &widths, Ghost(ws));
        y = y + br.height + BORDER;
        rows.push(br);
        r += 1;
    }
    GridLayout { widths, rows, height: y, caption_lines }
}

// ---------------------------------------------------------------------
// Emitting
// ---------------------------------------------------------------------

/// The sum of the first `n` column widths.
pub open spec fn widths_sum(ws: Seq<int>, n: int) -> int
    decreases n,
{
    if n <= 0 {
        0
    } else {
        widths_sum(ws, n - 1) + ws[n - 1]
    }
}

/// A grid's total width: its columns and the borders framing them.
pub open spec fn total_width(g: GridShape) -> int {
    widths_sum(g.widths, g.widths.len() as int) + (g.widths.len() + 1) * BORDER
}

/// The left content edge of column `c` (just past its left border).
pub open spec fn col_left(ws: Seq<int>, c: int) -> int {
    BORDER + widths_sum(ws, c) + c * BORDER
}

/// The top of the grid box, below the caption.
pub open spec fn grid_top(g: GridShape) -> int {
    caption_height(g.caption_lines)
}

/// The top of row `r`.
pub open spec fn row_top(g: GridShape, r: int) -> int {
    grid_top(g) + BORDER + rows_extent(g.rows, r)
}

/// The bottom of the grid box.
pub open spec fn grid_bottom(g: GridShape) -> int {
    row_top(g, g.rows.len() as int)
}

/// `k + 0.5` as a decimal.
pub open spec fn half(k: int) -> Seq<char> {
    signed_decimal(k) + ".5"@
}

/// One `<text>` line at baseline (`x`, `y`), bold for headers and captions,
/// its content escaped.
pub open spec fn text_el(x: int, y: int, bold: bool, line: Seq<char>) -> Seq<char> {
    "<text x=\""@ + signed_decimal(x) + "\" y=\""@ + signed_decimal(y)
        + "\" font-family=\"DejaVu Sans\" font-size=\"15\""@ + (if bold {
        " font-weight=\"bold\""@
    } else {
        Seq::empty()
    }) + " fill=\"black\">"@ + escaped(line, false) + "</text>"@
}

/// The first `n` of `lines` drawn one below the other from `top`, blank
/// ones skipped.
pub open spec fn lines_out(lines: Seq<Seq<char>>, n: int, x: int, top: int, bold: bool) -> Seq<
    char,
>
    decreases n,
{
    if n <= 0 {
        Seq::empty()
    } else {
        let i = n - 1;
        lines_out(lines, i, x, top, bold) + if lines[i].len() == 0 {
            Seq::empty()
        } else {
            text_el(x, top + PAD_Y + i * LINE_H + BASELINE_DY, bold, lines[i])
        }
    }
}

/// The grid's outer border, inset half a pixel so its stroke stays on the
/// canvas.
pub open spec fn border_el(g: GridShape, ox: int, oy: int) -> Seq<char> {
    "<rect x=\""@ + half(ox) + "\" y=\""@ + half(oy + grid_top(g)) + "\" width=\""@ + signed_decimal(
        total_width(g) - 1,
    ) + "\" height=\""@ + signed_decimal(grid_bottom(g) - grid_top(g) - 1)
        + "\" fill=\"none\" stroke=\"black\" stroke-width=\"1\"/>"@
}

/// The vertical rule right of column `c`.
pub open spec fn vline_el(g: GridShape, ox: int, oy: int, c: int) -> Seq<char> {
    let lx = ox + col_left(g.widths, c) + g.widths[c];
    "<line x1=\""@ + half(lx) + "\" y1=\""@ + half(oy + grid_top(g)) + "\" x2=\""@ + half(lx)
        + "\" y2=\""@ + half(oy + grid_bottom(g) - 1)
        + "\" stroke=\"black\" stroke-width=\"1\"/>"@
}

/// The horizontal rule below row `r`, heavier below a header.
pub open spec fn hline_el(g: GridShape, ox: int, oy: int, r: int) -> Seq<char> {
    let ly = oy + row_top(g, r) + g.rows[r].height;
    "<line x1=\""@ + half(ox) + "\" y1=\""@ + half(ly) + "\" x2=\""@ + half(
        ox + total_width(g) - 1,
    ) + "\" y2=\""@ + half(ly) + "\" stroke=\"black\" stroke-width=\""@ + (if g.rows[r].is_header {
        "2"@
    } else {
        "1"@
    }) + "\"/>"@
}

pub open spec fn vlines_out(g: GridShape, ox: int, oy: int, n: int) -> Seq<char>
    decreases n,
{
    if n <= 0 {
        Seq::empty()
    } else {
        vlines_out(g, ox, oy, n - 1) + vline_el(g, ox, oy, n - 1)
    }
}

pub open spec fn hlines_out(g: GridShape, ox: int, oy: int, n: int) -> Seq<char>
    decreases n,
{
    if n <= 0 {
        Seq::empty()
    } else {
        hlines_out(g, ox, oy, n - 1) + hline_el(g, ox, oy, n - 1)
    }
}

/// Whether some line holds text.
pub open spec fn any_text(lines: Seq<Seq<char>>) -> bool {
    exists|i: int| 0 <= i < lines.len() && #[trigger] lines[i].len() > 0
}

/// The left content edge of a cell in column `c`.
pub open spec fn cell_x(g: GridShape, ox: int, c: int) -> int {
    ox + col_left(g.widths, c) + PAD_X
}

/// Where the nested grid of cell (`r`, `c`) starts: below the cell's text,
/// if any, and a separator.
pub open spec fn sub_y(g: GridShape, oy: int, r: int, c: int) -> int {
    let cell = g.rows[r].cells[c];
    let has_text = any_text(cell.lines);
    oy + row_top(g, r) + PAD_Y + (if has_text {
        cell.lines.len() * LINE_H
    } else {
        0
    }) + (if has_text {
        PAD_Y as int
    } else {
        0
    })
}

/// Cell (`r`, `c`): its text lines, then its nested grid.
pub open spec fn cell_out(g: GridShape, ox: int, oy: int, r: int, c: int) -> Seq<char>
    decreases g, 0int, c,
{
    if 0 <= r < g.rows.len() && 0 <= c < g.rows[r].cells.len() {
        let cell = g.rows[r].cells[c];
        lines_out(
            cell.lines,
            cell.lines.len() as int,
            cell_x(g, ox, c),
            oy + row_top(g, r),
            g.rows[r].is_header,
        ) + match cell.sub {
            Some(t) => emit_spec(t, cell_x(g, ox, c), sub_y(g, oy, r, c)),
            None => Seq::empty(),
        }
    } else {
        Seq::empty()
    }
}

/// The first `n` cells of row `r`.
pub open spec fn cells_out(g: GridShape, ox: int, oy: int, r: int, n: int) -> Seq<char>
    decreases g, 0int, n,
{
    if n <= 0 {
        Seq::empty()
    } else {
        cells_out(g, ox, oy, r, n - 1) + cell_out(g, ox, oy, r, n - 1)
    }
}

/// The cells of the first `n` rows.
pub open spec fn rows_out(g: GridShape, ox: int, oy: int, n: int) -> Seq<char>
    decreases g, 1int, n,
{
    if n <= 0 || n > g.rows.len() {
        Seq::empty()
    } else {
        rows_out(g, ox, oy, n - 1) + cells_out(g, ox, oy, n - 1, g.rows[n - 1].cells.len() as int)
    }
}

/// `g` drawn with its top-left corner at (`ox`, `oy`): caption lines, outer
/// border, interior rules, then cell contents.
pub open spec fn emit_spec(g: GridShape, ox: int, oy: int) -> Seq<char>
    decreases g, 2int, 0int,
{
    if g.widths.len() == 0 {
        Seq::empty()
    } else {
        lines_out(g.caption_lines, g.caption_lines.len() as int, ox + PAD_X, oy, true) + border_el(
            g,
            ox,
            oy,
        ) + vlines_out(g, ox, oy, g.widths.len() - 1) + hlines_out(g, ox, oy, g.rows.len() - 1)
            + rows_out(g, ox, oy, g.rows.len() as int)
    }
}

/// The shape facts every laid-out grid has: non-negative column widths, at
/// least one row when there is a column, one cell per column in each row,
/// and a height that ends at the bottom of the grid box.
pub open spec fn well_shaped(g: GridShape) -> bool
    decreases g,
{
    &&& forall|c: int| 0 <= c < g.widths.len() ==> 0 <= #[trigger] g.widths[c]
    &&& g.widths.len() > 0 ==> g.rows.len() > 0
    &&& g.widths.len() > 0 ==> g.height == grid_bottom(g)
    &&& forall|r: int|
        0 <= r < g.rows.len() ==> (#[trigger] g.rows[r]).cells.len() == g.widths.len()
            && g.rows[r].height >= 0
    &&& forall|r: int, c: int|
        0 <= r < g.rows.len() && 0 <= c < g.rows[r].cells.len() && (
        #[trigger] g.rows[r].cells[c]).sub is Some ==> well_shaped(g.rows[r].cells[c].sub->0)
}

/// Whether `g`, drawn at (`ox`, `oy`), keeps every coordinate it writes
/// within [`LAYOUT_LIMIT`], nested grids included.
pub open spec fn placed(g: GridShape, ox: int, oy: int) -> bool
    decreases g,
{
    &&& 0 <= ox
    &&& 0 <= oy
    &&& ox + total_width(g) <= LAYOUT_LIMIT
    &&& oy + g.height <= LAYOUT_LIMIT
    &&& forall|r: int, c: int|
        0 <= r < g.rows.len() && 0 <= c < g.rows[r].cells.len() ==> (
        #[trigger] g.rows[r].cells[c]).lines.len() * LINE_H <= LAYOUT_LIMIT && (g.rows[r].cells[c].sub
            is Some ==> placed(g.rows[r].cells[c].sub->0, cell_x(g, ox, c), sub_y(g, oy, r, c)))
}

proof fn lemma_widest_row_empty(rows: Seq<Vec<Cell>>, n: int)
    requires
        n <= 0,
    ensures
        widest_row(rows, n) == 0,
{
}

proof fn lemma_grid_widths_nonneg(m: TableModel, width: int, equal: bool)
    ensures
        grid_widths(m, width, equal).len() == col_count(m),
        forall|c: int|
            0 <= c < col_count(m) ==> 0 <= #[trigger] grid_widths(m, width, equal)[c],
{
    let n = col_count(m);
    let avail = avail_width(width, n);
    if n > 0 {
        if equal {
            assert forall|c: int| 0 <= c < n implies 0 <= #[trigger] grid_widths(m, width, equal)[c] by {
                assert(0 <= avail / (n as int)) by (nonlinear_arith)
                    requires
                        avail >= 0,
                        n > 0,
                ;
            }
        } else {
            let cl = char_weights(m);
            lemma_weight_sum_bounds(cl, n as int);
            assert forall|c: int| 0 <= c < n implies 0 <= #[trigger] grid_widths(m, width, equal)[c] by {
                let rem = remaining_width(n, avail);
                let w = clamp_weight(cl[c] as nat);
                let ws = weight_sum(cl, n as int);
                assert(0 <= avail / (n as int)) by (nonlinear_arith)
                    requires
                        avail >= 0,
                        n > 0,
                ;
                assert(0 <= rem * w / ws) by (nonlinear_arith)
                    requires
                        rem >= 0,
                        w >= 3,
                        ws >= 3,
                ;
            }
        }
    }
}

/// Every grid the layout produces is well shaped.
#[verifier::spinoff_prover]
#[verifier::rlimit(40)]
proof fn lemma_layout_well_shaped(m: TableModel, width: int, equal: bool)
    ensures
        well_shaped(layout_spec(m, width, equal)),
    decreases m,
{
    let g = layout_spec(m, width, equal);
    lemma_row_heights(m, width, equal);
    if col_count(m) > 0 {
        let ws = grid_widths(m, width, equal);
        lemma_grid_widths_nonneg(m, width, equal);
        lemma_body_rows(m, ws, m.rows@.len() as int);
        let head_len: int = if m.headers is Some {
            1
        } else {
            0
        };
        if m.rows@.len() == 0 {
            lemma_widest_row_empty(m.rows@, 0);
        }
        assert forall|r: int| 0 <= r < g.rows.len() implies (#[trigger] g.rows[r]).cells.len()
            == g.widths.len() && g.rows[r].height >= 0 by {
            if r >= head_len {
                lemma_body_cells(m, r - head_len, ws, ws.len() as int);
            }
        }
        assert forall|r: int, c: int|
            0 <= r < g.rows.len() && 0 <= c < g.rows[r].cells.len() && (
            #[trigger] g.rows[r].cells[c]).sub is Some implies well_shaped(
            g.rows[r].cells[c].sub->0,
        ) by {
            if r >= head_len {
                let k = r - head_len;
                lemma_body_cells(m, k, ws, ws.len() as int);
                let row = m.rows@[k]@;
                assert(g.rows[r].cells[c] == body_cell(m, k, ws, c));
                lemma_layout_well_shaped(row[c].sub->0, sub_width(ws[c]), true);
            }
        }
    }
}

proof fn lemma_widths_sum(ws: Seq<int>, k: int, n: int)
    requires
        0 <= k <= n <= ws.len(),
        forall|c: int| 0 <= c < ws.len() ==> 0 <= #[trigger] ws[c],
    ensures
        0 <= widths_sum(ws, k) <= widths_sum(ws, n),
        k < n ==> widths_sum(ws, k) + ws[k] <= widths_sum(ws, n),
    decreases n,
{
    if k < n {
        lemma_widths_sum(ws, k, n - 1);
    } else if n > 0 {
        lemma_widths_sum(ws, n - 1, n - 1);
    }
}

fn push_half(out: &mut Vec<char>, k: i64)
    ensures
        final(out)@ == old(out)@ + half(k as int),
{
    crate::text::push_signed_decimal(out, k);
    crate::text::push_str(out, ".5");
    assert(final(out)@ =~= old(out)@ + half(k as int));
}

fn push_int(out: &mut Vec<char>, k: i64)
    ensures
        final(out)@ == old(out)@ + signed_decimal(k as int),
{
    crate::text::push_signed_decimal(out, k);
}

fn push_text_el(out: &mut Vec<char>, x: i64, y: i64, bold: bool, line: &Vec<char>)
    ensures
        final(out)@ == old(out)@ + text_el(x as int, y as int, bold, line@),
{
    let ghost start = out@;
    crate::text::push_str(out, "<text x=\"");
    push_int(out, x);
    crate::text::push_str(out, "\" y=\"");
    push_int(out, y);
    crate::text::push_str(out, "\" font-family=\"DejaVu Sans\" font-size=\"15\"");
    let ghost before_weight = out@;
    if bold {
        crate::text::push_str(out, " font-weight=\"bold\"");
    }
    assert(out@ == before_weight + (if bold {
        " font-weight=\"bold\""@
    } else {
        Seq::empty()
    }));
    crate::text::push_str(out, " fill=\"black\">");
    let text = crate::text::string_of(line);
    let esc = crate::markup::escape_text(text.as_str());
    crate::text::push_str(out, esc.as_str());
    crate::text::push_str(out, "</text>");
    assert(out@ =~= start + text_el(x as int, y as int, bold, line@));
}

/// Draws `lines` one below the other from `top`, skipping blank ones.
fn emit_lines(
    out: &mut Vec<char>,
    lines: &Vec<Vec<char>>,
    x: i64,
    top: i64,
    bold: bool,
    Ghost(sl): Ghost<Seq<Seq<char>>>,
)
    requires
        line_views(lines@) == sl,
        0 <= top <= 2 * LAYOUT_LIMIT,
        sl.len() * LINE_H <= 2 * LAYOUT_LIMIT,
    ensures
        final(out)@ == old(out)@ + lines_out(sl, sl.len() as int, x as int, top as int, bold),
{
    let ghost start = out@;
    let mut i: usize = 0;
    while i < lines.len()
        invariant
            i <= lines@.len(),
            line_views(lines@) == sl,
            0 <= top <= 2 * LAYOUT_LIMIT,
            sl.len() * LINE_H <= 2 * LAYOUT_LIMIT,
            out@ == start + lines_out(sl, i as int, x as int, top as int, bold),
        decreases lines.len() - i,
    {
        let ghost prev = out@;
        assert(sl[i as int] == lines@[i as int]@);
        if lines[i].len() > 0 {
            proof {
                assert(i * LINE_H <= sl.len() * LINE_H) by (nonlinear_arith)
                    requires
                        i < sl.len(),
                ;
            }
            let y = top + PAD_Y + i as i64 * LINE_H + BASELINE_DY;
            push_text_el(out, x, y, bold, &lines[i]);
        }
        assert(out@ =~= start + lines_out(sl, i + 1, x as int, top as int, bold));
        i += 1;
    }
}

/// The left content edge of each column, and the grid's total width.
fn col_lefts(widths: &Vec<i64>, Ghost(ws): Ghost<Seq<int>>) -> (r: (Vec<i64>, i64))
    requires
        widths@.len() == ws.len(),
        forall|c: int| 0 <= c < ws.len() ==> #[trigger] widths@[c] == ws[c],
        forall|c: int| 0 <= c < ws.len() ==> 0 <= #[trigger] ws[c],
        widths_sum(ws, ws.len() as int) + (ws.len() + 1) * BORDER <= LAYOUT_LIMIT,
    ensures
        r.0@.len() == ws.len(),
        forall|c: int| 0 <= c < ws.len() ==> #[trigger] r.0@[c] == col_left(ws, c),
        r.1 == widths_sum(ws, ws.len() as int) + (ws.len() + 1) * BORDER,
{
    let mut lefts: Vec<i64> = Vec::new();
    let mut x: i64 = BORDER;
    let mut c: usize = 0;
    while c < widths.len()
        invariant
            c <= ws.len(),
            widths@.len() == ws.len(),
            forall|k: int| 0 <= k < ws.len() ==> #[trigger] widths@[k] == ws[k],
            forall|k: int| 0 <= k < ws.len() ==> 0 <= #[trigger] ws[k],
            widths_sum(ws, ws.len() as int) + (ws.len() + 1) * BORDER <= LAYOUT_LIMIT,
            lefts@.len() == c,
            forall|k: int| 0 <= k < c ==> #[trigger] lefts@[k] == col_left(ws, k),
            x == col_left(ws, c as int),
        decreases widths.len() - c,
    {
        proof {
            lemma_widths_sum(ws, c as int, ws.len() as int);
        }
        lefts.push(x);
        x = x + widths[c] + BORDER;
        c += 1;
    }
    (lefts, x)
}

/// The top of each row, and the bottom of the grid box.
fn row_tops(grid: &GridLayout, Ghost(s): Ghost<GridShape>) -> (r: (Vec<i64>, i64))
    requires
        grid_as(*grid, s),
        well_shaped(s),
        s.widths.len() > 0,
        0 <= s.height <= LAYOUT_LIMIT,
    ensures
        r.0@.len() == s.rows.len(),
        forall|k: int| 0 <= k < s.rows.len() ==> #[trigger] r.0@[k] == row_top(s, k),
        r.1 == grid_bottom(s),
{
    let mut tops: Vec<i64> = Vec::new();
    proof {
        assert forall|i: int| 0 <= i < s.rows.len() implies #[trigger] s.rows[i].height >= 0 by {
            assert(s.rows[i].cells.len() == s.widths.len());
        }
        lemma_rows_extent_nonneg(s.rows, s.rows.len() as int);
    }
    assert(grid.caption_lines@.len() == s.caption_lines.len());
    let ch: i64 = if grid.caption_lines.len() == 0 {
        0
    } else {
        grid.caption_lines.len() as i64 * LINE_H + 2 * PAD_Y
    };
    assert(grid.caption_lines@.len() == s.caption_lines.len());
    let mut y: i64 = ch + BORDER;
    let mut k: usize = 0;
    while k < grid.rows.len()
        invariant
            k <= s.rows.len(),
            grid_as(*grid, s),
            well_shaped(s),
            s.widths.len() > 0,
            0 <= s.height <= LAYOUT_LIMIT,
            ch == caption_height(s.caption_lines),
            tops@.len() == k,
            forall|j: int| 0 <= j < k ==> #[trigger] tops@[j] == row_top(s, j),
            y == row_top(s, k as int),
        decreases grid.rows.len() - k,
    {
        proof {
            lemma_rows_extent(s.rows, k as int, s.rows.len() as int);
            assert(row_as(grid.rows@[k as int], s.rows[k as int]));
        }
        tops.push(y);
        y = y + grid.rows[k].height + BORDER;
        k += 1;
    }
    (tops, y)
}

fn push_vline(out: &mut Vec<char>, lx: i64, y1: i64, y2: i64)
    ensures
        final(out)@ == old(out)@ + "<line x1=\""@ + half(lx as int) + "\" y1=\""@ + half(y1 as int)
            + "\" x2=\""@ + half(lx as int) + "\" y2=\""@ + half(y2 as int)
            + "\" stroke=\"black\" stroke-width=\"1\"/>"@,
{
    let ghost start = out@;
    crate::text::push_str(out, "<line x1=\"");
    push_half(out, lx);
    crate::text::push_str(out, "\" y1=\"");
    push_half(out, y1);
    crate::text::push_str(out, "\" x2=\"");
    push_half(out, lx);
    crate::text::push_str(out, "\" y2=\"");
    push_half(out, y2);
    crate::text::push_str(out, "\" stroke=\"black\" stroke-width=\"1\"/>");
    assert(out@ =~= start + "<line x1=\""@ + half(lx as int) + "\" y1=\""@ + half(y1 as int)
        + "\" x2=\""@ + half(lx as int) + "\" y2=\""@ + half(y2 as int)
        + "\" stroke=\"black\" stroke-width=\"1\"/>"@);
}

fn push_hline(out: &mut Vec<char>, x1: i64, ly: i64, x2: i64, heavy: bool)
    ensures
        final(out)@ == old(out)@ + "<line x1=\""@ + half(x1 as int) + "\" y1=\""@ + half(ly as int)
            + "\" x2=\""@ + half(x2 as int) + "\" y2=\""@ + half(ly as int)
            + "\" stroke=\"black\" stroke-width=\""@ + (if heavy {
            "2"@
        } else {
            "1"@
        }) + "\"/>"@,
{
    let ghost start = out@;
    crate::text::push_str(out, "<line x1=\"");
    push_half(out, x1);
    crate::text::push_str(out, "\" y1=\"");
    push_half(out, ly);
    crate::text::push_str(out, "\" x2=\"");
    push_half(out, x2);
    crate::text::push_str(out, "\" y2=\"");
    push_half(out, ly);
    crate::text::push_str(out, "\" stroke=\"black\" stroke-width=\"");
    let ghost mid = out@;
    if heavy {
        crate::text::push_str(out, "2");
    } else {
        crate::text::push_str(out, "1");
    }
    crate::text::push_str(out, "\"/>");
    assert(out@ =~= start + "<line x1=\""@ + half(x1 as int) + "\" y1=\""@ + half(ly as int)
        + "\" x2=\""@ + half(x2 as int) + "\" y2=\""@ + half(ly as int)
        + "\" stroke=\"black\" stroke-width=\""@ + (if heavy {
        "2"@
    } else {
        "1"@
    }) + "\"/>"@);
}

/// The grid's outer border and its interior rules.
#[verifier::spinoff_prover]
#[verifier::rlimit(40)]
fn emit_rules(
    grid: &GridLayout,
    ox: i64,
    oy: i64,
    total_w: i64,
    bottom: i64,
    lefts: &Vec<i64>,
    tops: &Vec<i64>,
    out: &mut Vec<char>,
    Ghost(s): Ghost<GridShape>,
)
    requires
        grid_as(*grid, s),
        well_shaped(s),
        s.widths.len() > 0,
        placed(s, ox as int, oy as int),
        total_w == total_width(s),
        bottom == grid_bottom(s),
        lefts@.len() == s.widths.len(),
        forall|c: int| 0 <= c < s.widths.len() ==> #[trigger] lefts@[c] == col_left(s.widths, c),
        tops@.len() == s.rows.len(),
        forall|k: int| 0 <= k < s.rows.len() ==> #[trigger] tops@[k] == row_top(s, k),
    ensures
        final(out)@ == old(out)@ + border_el(s, ox as int, oy as int) + vlines_out(
            s,
            ox as int,
            oy as int,
            s.widths.len() - 1,
        ) + hlines_out(s, ox as int, oy as int, s.rows.len() - 1),
{
    let ghost start = out@;
    let ghost ws = s.widths;
    proof {
        assert forall|i: int| 0 <= i < s.rows.len() implies #[trigger] s.rows[i].height >= 0 by {
            assert(s.rows[i].cells.len() == s.widths.len());
        }
        lemma_rows_extent_nonneg(s.rows, s.rows.len() as int);
        lemma_widths_sum(ws, 0, ws.len() as int);
    }
    assert(grid.caption_lines@.len() == s.caption_lines.len());
    let ch: i64 = if grid.caption_lines.len() == 0 {
        0
    } else {
        grid.caption_lines.len() as i64 * LINE_H + 2 * PAD_Y
    };
    crate::text::push_str(out, "<rect x=\"");
    push_half(out, ox);
    crate::text::push_str(out, "\" y=\"");
    push_half(out, oy + ch);
    crate::text::push_str(out, "\" width=\"");
    push_int(out, total_w - 1);
    crate::text::push_str(out, "\" height=\"");
    push_int(out, bottom - ch - 1);
    crate::text::push_str(out, "\" fill=\"none\" stroke=\"black\" stroke-width=\"1\"/>");
    assert(out@ =~= start + border_el(s, ox as int, oy as int));
    let ghost after_border = out@;
    assert(forall|k: int| 0 <= k < ws.len() ==> #[trigger] grid.widths@[k] == ws[k]);
    assert(forall|k: int| 0 <= k < ws.len() ==> 0 <= #[trigger] ws[k]);
    assert(0 <= ox && 0 <= oy && ox + total_w <= LAYOUT_LIMIT && oy + s.height <= LAYOUT_LIMIT);
    assert(forall|k: int|
        0 <= k < s.rows.len() ==> #[trigger] grid.rows@[k].height == s.rows[k].height
            && grid.rows@[k].is_header == s.rows[k].is_header) by {
        assert forall|k: int| 0 <= k < s.rows.len() implies #[trigger] grid.rows@[k].height
            == s.rows[k].height && grid.rows@[k].is_header == s.rows[k].is_header by {
            assert(row_as(grid.rows@[k], s.rows[k]));
        }
    }
    let cols = grid.widths.len();
    let mut c: usize = 0;
    while c + 1 < cols
        invariant
            c + 1 <= cols,
            cols == ws.len(),
            grid.widths@.len() == ws.len(),
            forall|k: int| 0 <= k < ws.len() ==> #[trigger] grid.widths@[k] == ws[k],
            forall|k: int| 0 <= k < ws.len() ==> 0 <= #[trigger] ws[k],
            ws == s.widths,
            0 <= ox && 0 <= oy && ox + total_w <= LAYOUT_LIMIT && oy + s.height <= LAYOUT_LIMIT,
            total_w == total_width(s),
            bottom == grid_bottom(s),
            ch == grid_top(s),
            lefts@.len() == ws.len(),
            forall|k: int| 0 <= k < ws.len() ==> #[trigger] lefts@[k] == col_left(ws, k),
            bottom <= s.height,
            0 <= ch < bottom,
            out@ == after_border + vlines_out(s, ox as int, oy as int, c as int),
        decreases cols - c,
    {
        proof {
            lemma_widths_sum(ws, c as int, ws.len() as int);
        }
        let lx = ox + lefts[c] + grid.widths[c];
        let ghost prev = out@;
        push_vline(out, lx, oy + ch, oy + bottom - 1);
        assert(out@ =~= prev + vline_el(s, ox as int, oy as int, c as int));
        c += 1;
    }
    let ghost after_v = out@;
    let nrows = grid.rows.len();
    let mut r: usize = 0;
    while r + 1 < nrows
        invariant
            r + 1 <= nrows,
            nrows == s.rows.len(),
            grid.rows@.len() == s.rows.len(),
            forall|k: int|
                0 <= k < s.rows.len() ==> #[trigger] grid.rows@[k].height == s.rows[k].height
                    && grid.rows@[k].is_header == s.rows[k].is_header,
            0 <= ox && 0 <= oy && ox + total_w <= LAYOUT_LIMIT && oy + s.height <= LAYOUT_LIMIT,
            total_w == total_width(s),
            total_w >= 1,
            s.widths.len() > 0,
            bottom == grid_bottom(s),
            bottom <= s.height,
            tops@.len() == s.rows.len(),
            forall|k: int| 0 <= k < s.rows.len() ==> #[trigger] tops@[k] == row_top(s, k),
            forall|i: int| 0 <= i < s.rows.len() ==> #[trigger] s.rows[i].height >= 0,
            out@ == after_v + hlines_out(s, ox as int, oy as int, r as int),
        decreases nrows - r,
    {
        proof {
            lemma_rows_extent(s.rows, r as int, s.rows.len() as int);
        }
        let ly = oy + tops[r] + grid.rows[r].height;
        let ghost prev = out@;
        push_hline(out, ox, ly, ox + total_w - 1, grid.rows[r].is_header);
        assert(out@ =~= prev + hline_el(s, ox as int, oy as int, r as int));
        r += 1;
    }
    assert(out@ =~= start + border_el(s, ox as int, oy as int) + vlines_out(
        s,
        ox as int,
        oy as int,
        s.widths.len() - 1,
    ) + hlines_out(s, ox as int, oy as int, s.rows.len() - 1));
}

fn has_text_line(lines: &Vec<Vec<char>>, Ghost(sl): Ghost<Seq<Seq<char>>>) -> (r: bool)
    requires
        line_views(lines@) == sl,
    ensures
        r == any_text(sl),
{
    let mut i: usize = 0;
    while i < lines.len()
        invariant
            i <= lines@.len(),
            line_views(lines@) == sl,
            forall|k: int| 0 <= k < i ==> sl[k].len() == 0,
        decreases lines.len() - i,
    {
        assert(sl[i as int] == lines@[i as int]@);
        if lines[i].len() > 0 {
            return true;
        }
        i += 1;
    }
    false
}

/// The cells of row `r`: each one's text lines, then its nested grid.
#[verifier::spinoff_prover]
#[verifier::rlimit(40)]
fn emit_row_cells(
    grid: &GridLayout,
    r: usize,
    ox: i64,
    oy: i64,
    lefts: &Vec<i64>,
    top: i64,
    out: &mut Vec<char>,
    Ghost(s): Ghost<GridShape>,
)
    requires
        grid_as(*grid, s),
        well_shaped(s),
        placed(s, ox as int, oy as int),
        s.widths.len() > 0,
        r < s.rows.len(),
        lefts@.len() == s.widths.len(),
        forall|c: int| 0 <= c < s.widths.len() ==> #[trigger] lefts@[c] == col_left(s.widths, c),
        top == row_top(s, r as int),
        0 <= top <= s.height,
    ensures
        final(out)@ == old(out)@ + cells_out(
            s,
            ox as int,
            oy as int,
            r as int,
            s.rows[r as int].cells.len() as int,
        ),
    decreases *grid, 0int,
{
    let ghost start = out@;
    let ghost srow = s.rows[r as int];
    let row = &grid.rows[r];
    assert(row_as(*row, srow));
    proof {
        lemma_widths_sum(s.widths, 0, s.widths.len() as int);
    }
    let mut c: usize = 0;
    while c < row.cells.len()
        invariant
            c <= row.cells@.len(),
            *row == grid.rows@[r as int],
            row_as(*row, srow),
            srow == s.rows[r as int],
            r < s.rows.len(),
            grid_as(*grid, s),
            well_shaped(s),
            placed(s, ox as int, oy as int),
            s.widths.len() > 0,
            srow.cells.len() == s.widths.len(),
            lefts@.len() == s.widths.len(),
            forall|k: int| 0 <= k < s.widths.len() ==> #[trigger] lefts@[k] == col_left(s.widths, k),
            forall|k: int| 0 <= k < s.widths.len() ==> 0 <= #[trigger] s.widths[k],
            top == row_top(s, r as int),
            0 <= top <= s.height,
            out@ == start + cells_out(s, ox as int, oy as int, r as int, c as int),
        decreases row.cells.len() - c,
    {
        let ghost sc = srow.cells[c as int];
        let cell = &row.cells[c];
        assert(cell_as(*cell, sc));
        proof {
            lemma_widths_sum(s.widths, c as int, s.widths.len() as int);
        }
        let cx = ox + lefts[c] + PAD_X;
        let ghost prev = out@;
        emit_lines(out, &cell.lines, cx, oy + top, row.is_header, Ghost(sc.lines));
        match &cell.sub {
            Some(b) => {
                let ghost t = sc.sub->0;
                let has_text = has_text_line(&cell.lines, Ghost(sc.lines));
                let text_h: i64 = if has_text {
                    cell.lines.len() as i64 * LINE_H
                } else {
                    0
                };
                let sep: i64 = if has_text {
                    PAD_Y
                } else {
                    0
                };
                let sy = oy + top + PAD_Y + text_h + sep;
                assert(sy == sub_y(s, oy as int, r as int, c as int));
                assert(cx == cell_x(s, ox as int, c as int));
                emit_grid(b, cx, sy, out, Ghost(t));
            },
            None => {},
        }
        assert(out@ =~= prev + cell_out(s, ox as int, oy as int, r as int, c as int));
        c += 1;
    }
}

/// `grid` drawn with its top-left corner at (`ox`, `oy`).
fn emit_grid(grid: &GridLayout, ox: i64, oy: i64, out: &mut Vec<char>, Ghost(s): Ghost<GridShape>)
    requires
        grid_as(*grid, s),
        well_shaped(s),
        placed(s, ox as int, oy as int),
    ensures
        final(out)@ == old(out)@ + emit_spec(s, ox as int, oy as int),
    decreases *grid, 1int,
{
    let ghost start = out@;
    if grid.widths.len() == 0 {
        assert(out@ =~= start + emit_spec(s, ox as int, oy as int));
        return;
    }
    assert(forall|c: int| 0 <= c < s.widths.len() ==> #[trigger] grid.widths@[c] == s.widths[c]);
    proof {
        lemma_widths_sum(s.widths, 0, s.widths.len() as int);
        assert(0 <= ox && ox + total_width(s) <= LAYOUT_LIMIT);
    }
    let (lefts, total_w) = col_lefts(&grid.widths, Ghost(s.widths));
    proof {
        assert forall|i: int| 0 <= i < s.rows.len() implies #[trigger] s.rows[i].height >= 0 by {
            assert(s.rows[i].cells.len() == s.widths.len());
        }
        lemma_rows_extent_nonneg(s.rows, s.rows.len() as int);
    }
    let (tops, bottom) = row_tops(grid, Ghost(s));
    emit_lines(out, &grid.caption_lines, ox + PAD_X, oy, true, Ghost(s.caption_lines));
    emit_rules(grid, ox, oy, total_w, bottom, &lefts, &tops, out, Ghost(s));
    let ghost mid = out@;
    let mut r: usize = 0;
    while r < grid.rows.len()
        invariant
            r <= s.rows.len(),
            grid_as(*grid, s),
            well_shaped(s),
            placed(s, ox as int, oy as int),
            s.widths.len() > 0,
            lefts@.len() == s.widths.len(),
            forall|c: int| 0 <= c < s.widths.len() ==> #[trigger] lefts@[c] == col_left(s.widths, c),
            tops@.len() == s.rows.len(),
            forall|k: int| 0 <= k < s.rows.len() ==> #[trigger] tops@[k] == row_top(s, k),
            forall|i: int| 0 <= i < s.rows.len() ==> #[trigger] s.rows[i].height >= 0,
            out@ == mid + rows_out(s, ox as int, oy as int, r as int),
        decreases grid.rows.len() - r,
    {
        proof {
            lemma_rows_extent(s.rows, r as int, s.rows.len() as int);
        }
        let ghost prev = out@;
        emit_row_cells(grid, r, ox, oy, &lefts, tops[r], out, Ghost(s));
        assert(out@ =~= mid + rows_out(s, ox as int, oy as int, r + 1));
        r += 1;
    }
    assert(out@ =~= start + emit_spec(s, ox as int, oy as int));
}

// ---------------------------------------------------------------------
// The whole picture
// ---------------------------------------------------------------------

/// The `<svg>` root `w` by `h` px, with its white background.
pub open spec fn svg_open(w: int, h: int) -> Seq<char> {
    "<svg xmlns=\"http://www.w3.org/2000/svg\" width=\""@ + signed_decimal(w) + "\" height=\""@
        + signed_decimal(h) + "\" viewBox=\"0 0 "@ + signed_decimal(w) + " "@ + signed_decimal(h)
        + "\">"@ + "<rect x=\"0\" y=\"0\" width=\""@ + signed_decimal(w) + "\" height=\""@
        + signed_decimal(h) + "\" fill=\"white\"/>"@
}

/// A minimal valid picture for an empty model: a bordered white box one
/// line tall.
pub open spec fn empty_svg_spec(w: int) -> Seq<char> {
    let h = LINE_H + 2 * PAD_Y;
    svg_open(w, h) + "<rect x=\"0.5\" y=\"0.5\" width=\""@ + signed_decimal(w - 1)
        + "\" height=\""@ + signed_decimal(h - 1)
        + "\" fill=\"none\" stroke=\"black\" stroke-width=\"1\"/></svg>"@
}

/// `model` rendered as a standalone SVG exactly `max_w` px wide.
pub open spec fn table_svg(m: TableModel, max_w: int) -> Seq<char> {
    let g = layout_spec(m, max_w, false);
    if g.widths.len() == 0 {
        empty_svg_spec(max_w)
    } else {
        svg_open(max_w, g.height) + emit_spec(g, 0, 0) + "</svg>"@
    }
}

fn push_svg_open(out: &mut Vec<char>, w: i64, h: i64)
    ensures
        final(out)@ == old(out)@ + svg_open(w as int, h as int),
{
    let ghost start = out@;
    crate::text::push_str(out, "<svg xmlns=\"http://www.w3.org/2000/svg\" width=\"");
    push_int(out, w);
    crate::text::push_str(out, "\" height=\"");
    push_int(out, h);
    crate::text::push_str(out, "\" viewBox=\"0 0 ");
    push_int(out, w);
    crate::text::push_str(out, " ");
    push_int(out, h);
    crate::text::push_str(out, "\">");
    crate::text::push_str(out, "<rect x=\"0\" y=\"0\" width=\"");
    push_int(out, w);
    crate::text::push_str(out, "\" height=\"");
    push_int(out, h);
    crate::text::push_str(out, "\" fill=\"white\"/>");
    assert(out@ =~= start + svg_open(w as int, h as int));
}

/// A minimal valid SVG for an empty model: a bordered white box.
pub fn empty_svg(max_w: i64) -> (r: String)
    requires
        max_w > i64::MIN,
    ensures
        r@ == empty_svg_spec(max_w as int),
{
    let h = LINE_H + 2 * PAD_Y;
    let mut out: Vec<char> = Vec::new();
    push_svg_open(&mut out, max_w, h);
    crate::text::push_str(&mut out, "<rect x=\"0.5\" y=\"0.5\" width=\"");
    push_int(&mut out, max_w - 1);
    crate::text::push_str(&mut out, "\" height=\"");
    push_int(&mut out, h - 1);
    crate::text::push_str(
        &mut out,
        "\" fill=\"none\" stroke=\"black\" stroke-width=\"1\"/></svg>",
    );
    assert(out@ =~= empty_svg_spec(max_w as int));
    crate::text::string_of(&out)
}

/// Render `model` as a standalone SVG string exactly `max_w` px wide. An
/// empty model (no header and no non-empty row) gives a minimal bordered
/// box. The same model and width always give the same string.
pub fn render_table_svg(model: &TableModel, max_w: u32) -> (r: String)
    requires
        layout_fits(*model, max_w as int, false),
        placed(layout_spec(*model, max_w as int, false), 0, 0),
    ensures
        r@ == table_svg(*model, max_w as int),
{
    let w = max_w as i64;
    let grid = layout_grid(model, w);
    let ghost s = layout_spec(*model, w as int, false);
    if grid.widths.len() == 0 {
        return empty_svg(w);
    }
    proof {
        lemma_layout_well_shaped(*model, w as int, false);
    }
    let mut out: Vec<char> = Vec::new();
    push_svg_open(&mut out, w, grid.height);
    emit_grid(&grid, 0, 0, &mut out, Ghost(s));
    crate::text::push_str(&mut out, "</svg>");
    assert(out@ =~= table_svg(*model, max_w as int));
    crate::text::string_of(&out)
}

// ---------------------------------------------------------------------
// Laws
// ---------------------------------------------------------------------

/// All lines at most `max` long.
pub open spec fn lines_fit(lines: Seq<Seq<char>>, max: nat) -> bool {
    forall|i: int| 0 <= i < lines.len() ==> #[trigger] lines[i].len() <= max
}

proof fn lemma_wrap_word_fits(lines: Seq<Seq<char>>, cur: Seq<char>, word: Seq<char>, max: nat)
    requires
        max >= 1,
        lines_fit(lines, max),
        cur.len() <= max,
    ensures
        lines_fit(wrap_word(lines, cur, word, max).0, max),
        wrap_word(lines, cur, word, max).1.len() <= max,
    decreases word.len(),
{
    if word.len() > max {
        let done = if cur.len() > 0 {
            lines.push(cur)
        } else {
            lines
        };
        let next = done.push(word.take(max as int));
        assert(lines_fit(next, max)) by {
            assert forall|i: int| 0 <= i < next.len() implies #[trigger] next[i].len() <= max by {
                if i < lines.len() {
                    assert(next[i] == lines[i]);
                }
            }
        }
        lemma_wrap_word_fits(next, Seq::empty(), word.skip(max as int), max);
    } else if word.len() > 0 && cur.len() > 0 && cur.len() + 1 + word.len() > max {
        assert(lines_fit(lines.push(cur), max)) by {
            assert forall|i: int| 0 <= i < lines.len() + 1 implies #[trigger] lines.push(cur)[i].len()
                <= max by {
                if i < lines.len() {
                    assert(lines.push(cur)[i] == lines[i]);
                }
            }
        }
    }
}

proof fn lemma_wrap_state_fits(ws: Seq<Seq<char>>, max: nat)
    requires
        max >= 1,
    ensures
        lines_fit(wrap_state(ws, max).0, max),
        wrap_state(ws, max).1.len() <= max,
    decreases ws.len(),
{
    if ws.len() > 0 {
        lemma_wrap_state_fits(ws.drop_last(), max);
        let (lines, cur) = wrap_state(ws.drop_last(), max);
        lemma_wrap_word_fits(lines, cur, ws.last(), max);
    }
}

/// Word-wrapping gives at least one line, and no line longer than the
/// capacity (at least one character).
pub proof fn law_wrapped_lines_fit(text: Seq<char>, max_chars: nat)
    ensures
        wrapped(text, max_chars).len() >= 1,
        lines_fit(wrapped(text, max_chars), if max_chars >= 1 {
            max_chars
        } else {
            1
        }),
{
    let max: nat = if max_chars >= 1 {
        max_chars
    } else {
        1
    };
    lemma_wrap_state_fits(words(text), max);
    let (lines, cur) = wrap_state(words(text), max);
    if cur.len() > 0 || lines.len() == 0 {
        let r = lines.push(cur);
        assert(lines_fit(r, max)) by {
            assert forall|i: int| 0 <= i < r.len() implies #[trigger] r[i].len() <= max by {
                if i < lines.len() {
                    assert(r[i] == lines[i]);
                }
            }
        }
    }
}

proof fn lemma_equal_widths_prefix(n: nat, avail: int, k: int)
    requires
        n >= 1,
        avail >= 0,
        0 <= k <= n,
    ensures
        widths_sum(equal_widths_spec(n, avail), k) == k * (avail / (n as int)) + if k < avail % (
        n as int) {
            k
        } else {
            avail % (n as int)
        },
    decreases k,
{
    let b = avail / (n as int);
    let r = avail % (n as int);
    assert(0 <= r < n && avail == b * n + r) by (nonlinear_arith)
        requires
            n >= 1,
            b == avail / (n as int),
            r == avail % (n as int),
    ;
    let ws = equal_widths_spec(n, avail);
    if k == 0 {
        assert(k * b == 0);
    } else {
        lemma_equal_widths_prefix(n, avail, k - 1);
        assert(k * b == (k - 1) * b + b) by (nonlinear_arith);
        assert(div_trunc(avail, n as int) == b);
        assert(avail - b * n == r);
        assert(ws[k - 1] == b + if k - 1 < r {
            1int
        } else {
            0int
        });
        assert(widths_sum(ws, k) == widths_sum(ws, k - 1) + ws[k - 1]);
    }
}

/// Equal columns share out exactly the available width.
pub proof fn law_equal_widths_fill(n: nat, avail: int)
    requires
        n >= 1,
        avail >= 0,
    ensures
        widths_sum(equal_widths_spec(n, avail), n as int) == avail,
{
    lemma_equal_widths_prefix(n, avail, n as int);
    assert(avail == n * (avail / (n as int)) + avail % (n as int)) by (nonlinear_arith)
        requires
            n >= 1,
    ;
    assert(avail % (n as int) < n) by (nonlinear_arith)
        requires
            n >= 1,
    ;
}

// The proportional split fills the available width exactly.

/// The pixels handed out one by one after the whole shares.
pub open spec fn leftover_px(char_len: Seq<usize>, avail: int) -> int {
    remaining_width(char_len.len(), avail) - whole_sum(char_len, avail, char_len.len() as int)
}

/// Column `i`'s place in the serving order.
pub open spec fn serve_rank(char_len: Seq<usize>, avail: int, i: int) -> nat {
    served_count(char_len, avail, i, char_len.len() as int)
}

/// How many of the first `k` columns get a leftover pixel.
pub open spec fn bump_count(char_len: Seq<usize>, avail: int, k: int) -> int
    decreases k,
{
    if k <= 0 {
        0
    } else {
        bump_count(char_len, avail, k - 1) + if serve_rank(char_len, avail, k - 1) < leftover_px(
            char_len,
            avail,
        ) {
            1int
        } else {
            0int
        }
    }
}

/// The sum of the first `k` remainders.
pub open spec fn rem_sum(char_len: Seq<usize>, avail: int, k: int) -> int
    decreases k,
{
    if k <= 0 {
        0
    } else {
        rem_sum(char_len, avail, k - 1) + share_rem(char_len, avail, k - 1)
    }
}

proof fn lemma_share_sums(char_len: Seq<usize>, avail: int, k: int)
    requires
        char_len.len() >= 1,
        0 <= k <= char_len.len(),
        avail >= 0,
    ensures
        rem_sum(char_len, avail, k) + weight_sum(char_len, char_len.len() as int) * whole_sum(
            char_len,
            avail,
            k,
        ) == remaining_width(char_len.len(), avail) * weight_sum(char_len, k),
        0 <= rem_sum(char_len, avail, k) <= k * (weight_sum(char_len, char_len.len() as int) - 1),
    decreases k,
{
    let n = char_len.len();
    let ws = weight_sum(char_len, n as int);
    lemma_weight_sum_bounds(char_len, n as int);
    if k > 0 {
        lemma_share_sums(char_len, avail, k - 1);
        let rem = remaining_width(n, avail);
        let w = clamp_weight(char_len[k - 1] as nat);
        let q = share_whole(char_len, avail, k - 1);
        let r = share_rem(char_len, avail, k - 1);
        assert(rem * w == q * ws + r && 0 <= r < ws) by (nonlinear_arith)
            requires
                ws >= 3,
                q == rem * w / ws,
                r == rem * w % ws,
        ;
        let a = whole_sum(char_len, avail, k);
        let b = whole_sum(char_len, avail, k - 1);
        assert(a == b + q);
        assert(ws * a == ws * b + ws * q) by (nonlinear_arith)
            requires
                a == b + q,
        ;
        let c = weight_sum(char_len, k);
        let d = weight_sum(char_len, k - 1);
        assert(c == d + w);
        assert(rem * c == rem * d + rem * w) by (nonlinear_arith)
            requires
                c == d + w,
        ;
        assert(k * (ws - 1) == (k - 1) * (ws - 1) + (ws - 1)) by (nonlinear_arith);
    }
}

/// Whole shares and leftover pixels together make up the remaining width,
/// and fewer pixels are left over than there are columns.
proof fn lemma_leftover_range(char_len: Seq<usize>, avail: int)
    requires
        char_len.len() >= 1,
        avail >= 0,
    ensures
        0 <= leftover_px(char_len, avail) < char_len.len(),
{
    let n = char_len.len();
    let ws = weight_sum(char_len, n as int);
    lemma_weight_sum_bounds(char_len, n as int);
    lemma_share_sums(char_len, avail, n as int);
    let rem = remaining_width(n, avail);
    let l = leftover_px(char_len, avail);
    let rs = rem_sum(char_len, avail, n as int);
    assert(rs == ws * l) by (nonlinear_arith)
        requires
            rs + ws * whole_sum(char_len, avail, n as int) == rem * ws,
            l == rem - whole_sum(char_len, avail, n as int),
    ;
    assert(0 <= l < n) by (nonlinear_arith)
        requires
            rs == ws * l,
            0 <= rs <= n * (ws - 1),
            ws >= 3,
            n >= 1,
    ;
}

proof fn lemma_served_count_bound(char_len: Seq<usize>, avail: int, i: int, k: int)
    requires
        0 <= k,
    ensures
        served_count(char_len, avail, i, k) + (if 0 <= i < k {
            1int
        } else {
            0int
        }) <= k,
    decreases k,
{
    if k > 0 {
        lemma_served_count_bound(char_len, avail, i, k - 1);
    }
}

/// A column served before another ranks strictly ahead of it.
proof fn lemma_served_count_order(char_len: Seq<usize>, avail: int, i: int, j: int, k: int)
    requires
        0 <= k,
        served_before(char_len, avail, i, j),
    ensures
        served_count(char_len, avail, i, k) + (if 0 <= i < k {
            1int
        } else {
            0int
        }) <= served_count(char_len, avail, j, k),
    decreases k,
{
    if k > 0 {
        lemma_served_count_order(char_len, avail, i, j, k - 1);
    }
}

proof fn lemma_rank_injective(char_len: Seq<usize>, avail: int)
    ensures
        injective_on(
            |i: int| serve_rank(char_len, avail, i) as int,
            set_int_range(0, char_len.len() as int),
        ),
{
    let n = char_len.len() as int;
    let f = |i: int| serve_rank(char_len, avail, i) as int;
    assert forall|a: int, b: int|
        set_int_range(0, n).contains(a) && set_int_range(0, n).contains(b) && #[trigger] f(a)
            == #[trigger] f(b) implies a == b by {
        if a != b {
            if served_before(char_len, avail, a, b) {
                lemma_served_count_order(char_len, avail, a, b, n);
            } else {
                assert(served_before(char_len, avail, b, a));
                lemma_served_count_order(char_len, avail, b, a, n);
            }
        }
    }
}

/// The columns of rank below `l`, among the first `k`.
pub open spec fn ranked_below(char_len: Seq<usize>, avail: int, l: int, k: int) -> Set<int> {
    Set::new(|i: int| 0 <= i < k && serve_rank(char_len, avail, i) < l)
}

proof fn lemma_bump_count_set(char_len: Seq<usize>, avail: int, k: int)
    requires
        0 <= k,
    ensures
        ranked_below(char_len, avail, leftover_px(char_len, avail), k).finite(),
        bump_count(char_len, avail, k) == ranked_below(
            char_len,
            avail,
            leftover_px(char_len, avail),
            k,
        ).len(),
    decreases k,
{
    let l = leftover_px(char_len, avail);
    let cur = ranked_below(char_len, avail, l, k);
    if k == 0 {
        assert(cur =~= Set::<int>::empty());
    } else {
        lemma_bump_count_set(char_len, avail, k - 1);
        let prev = ranked_below(char_len, avail, l, k - 1);
        if serve_rank(char_len, avail, k - 1) < l {
            assert(cur =~= prev.insert(k - 1));
        } else {
            assert(cur =~= prev);
        }
    }
}

/// Exactly `leftover` columns get a leftover pixel.
proof fn lemma_bump_count(char_len: Seq<usize>, avail: int)
    requires
        char_len.len() >= 1,
        avail >= 0,
    ensures
        bump_count(char_len, avail, char_len.len() as int) == leftover_px(char_len, avail),
{
    let n = char_len.len() as int;
    let l = leftover_px(char_len, avail);
    lemma_leftover_range(char_len, avail);
    let f = |i: int| serve_rank(char_len, avail, i) as int;
    let all = set_int_range(0, n);
    lemma_int_range(0, n);
    lemma_rank_injective(char_len, avail);
    // The ranks of all columns are exactly 0 .. n.
    let image = all.map(f);
    lemma_map_size(all, image, f);
    assert(image.subset_of(set_int_range(0, n))) by {
        assert forall|t: int| image.contains(t) implies set_int_range(0, n).contains(t) by {
            let i = choose|i: int| all.contains(i) && f(i) == t;
            lemma_served_count_bound(char_len, avail, i, n);
        }
    }
    lemma_subset_equality(image, set_int_range(0, n));
    // The columns ranked below `l` map onto 0 .. l.
    let low = ranked_below(char_len, avail, l, n);
    lemma_bump_count_set(char_len, avail, n);
    let low_image = low.map(f);
    assert(injective_on(f, low)) by {
        assert forall|a: int, b: int|
            low.contains(a) && low.contains(b) && #[trigger] f(a) == #[trigger] f(b) implies a
                == b by {
            assert(all.contains(a) && all.contains(b));
        }
    }
    lemma_map_size(low, low_image, f);
    assert(low_image =~= set_int_range(0, l)) by {
        assert forall|t: int| set_int_range(0, l).contains(t) implies low_image.contains(t) by {
            assert(image.contains(t));
            let i = choose|i: int| all.contains(i) && f(i) == t;
            assert(low.contains(i));
        }
    }
    lemma_int_range(0, l);
}

proof fn lemma_column_widths_prefix(char_len: Seq<usize>, avail: int, k: int)
    requires
        0 <= k <= char_len.len(),
    ensures
        widths_sum(column_widths_spec(char_len, avail), k) == k * min_col_width(
            char_len.len(),
            avail,
        ) + whole_sum(char_len, avail, k) + bump_count(char_len, avail, k),
    decreases k,
{
    let m0 = min_col_width(char_len.len(), avail);
    assert(0 * m0 == 0);
    if k > 0 {
        lemma_column_widths_prefix(char_len, avail, k - 1);
        let m = min_col_width(char_len.len(), avail);
        assert(k * m == (k - 1) * m + m) by (nonlinear_arith);
        let cw = column_widths_spec(char_len, avail);
        assert(cw[k - 1] == m + share_whole(char_len, avail, k - 1) + if serve_rank(
            char_len,
            avail,
            k - 1,
        ) < leftover_px(char_len, avail) {
            1int
        } else {
            0int
        });
        assert(widths_sum(cw, k) == widths_sum(cw, k - 1) + cw[k - 1]);
    }
}

/// Proportional column widths share out exactly the available width:
/// the equal floor, the whole shares and the leftover pixels add up to it.
pub proof fn law_column_widths_fill(char_len: Seq<usize>, avail: int)
    requires
        char_len.len() >= 1,
        avail >= 0,
    ensures
        widths_sum(column_widths_spec(char_len, avail), char_len.len() as int) == avail,
{
    let n = char_len.len();
    lemma_column_widths_prefix(char_len, avail, n as int);
    lemma_bump_count(char_len, avail);
    let m = min_col_width(n, avail);
    assert(m * n <= avail) by (nonlinear_arith)
        requires
            n >= 1,
            avail >= 0,
            m <= avail / (n as int),
    ;
    assert(n * m == m * n) by (nonlinear_arith);
}

/// When the columns fit, the grid spans exactly the width it was laid out
/// in: column widths plus borders add up to it.
pub proof fn law_grid_spans_width(m: TableModel, width: int, equal: bool)
    requires
        col_count(m) >= 1,
        width >= col_count(m) + 1,
    ensures
        total_width(layout_spec(m, width, equal)) == width,
{
    let n = col_count(m);
    let avail = avail_width(width, n);
    lemma_grid_widths_nonneg(m, width, equal);
    if equal {
        law_equal_widths_fill(n, avail);
    } else {
        law_column_widths_fill(char_weights(m), avail);
    }
}

} // verus!
