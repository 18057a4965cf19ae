//! Text graphs of a utilization history: one block glyph per sample, or a
//! braille dot matrix with the samples joined by Bresenham lines.
use vstd::prelude::*;
use crate::text::{char_from_code, push_char};
use vstd::arithmetic::div_mod::{lemma_div_is_ordered, lemma_fundamental_div_mod, lemma_fundamental_div_mod_converse};

verus! {

/// Character columns of a braille graph.
pub const GRAPH_CHAR_WIDTH: usize = 28;

/// Dot columns of a braille graph: two per character.
pub const CANVAS_WIDTH: usize = 2 * GRAPH_CHAR_WIDTH;

/// Utilization is counted in hundredths of a percent; this is 100 %.
pub const FULL_SCALE: u32 = 10000;

/// A utilization clamped to `0 ..= FULL_SCALE`.
pub open spec fn level(v: u32) -> int {
    if v > FULL_SCALE {
        FULL_SCALE as int
    } else {
        v as int
    }
}

/// Glyph index of a sample: `round(level / FULL_SCALE * 8)`, halves upward.
pub open spec fn block_index(v: u32) -> int {
    (8 * level(v) + FULL_SCALE / 2) / (FULL_SCALE as int)
}

/// The nine block glyphs, from blank to full.
pub open spec fn block_glyph_spec(i: int) -> char {
    if i <= 0 {
        ' '
    } else if i == 1 {
        '\u{2581}'
    } else if i == 2 {
        '\u{2582}'
    } else if i == 3 {
        '\u{2583}'
    } else if i == 4 {
        '\u{2584}'
    } else if i == 5 {
        '\u{2585}'
    } else if i == 6 {
        '\u{2586}'
    } else if i == 7 {
        '\u{2587}'
    } else {
        '\u{2588}'
    }
}

fn block_glyph(i: u32) -> (c: char)
    requires
        i <= 8,
    ensures
        c == block_glyph_spec(i as int),
{
    match i {
        0 => ' ',
        1 => '\u{2581}',
        2 => '\u{2582}',
        3 => '\u{2583}',
        4 => '\u{2584}',
        5 => '\u{2585}',
        6 => '\u{2586}',
        7 => '\u{2587}',
        _ => '\u{2588}',
    }
}

/// One glyph per sample, its height in nine levels.
pub fn block_graph(data: &[u32]) -> (r: String)
    ensures
        r@.len() == data@.len(),
        forall|i: int| 0 <= i < data@.len() ==> r@[i] == block_glyph_spec(block_index(#[trigger] data@[i])),
{
    let mut out = String::new();
    let mut i: usize = 0;
    while i < data.len()
        invariant
            i <= data@.len(),
            out@.len() == i,
            forall|j: int| 0 <= j < i ==> out@[j] == block_glyph_spec(block_index(#[trigger] data@[j])),
        decreases data@.len() - i,
    {
        let v = if data[i] > FULL_SCALE { FULL_SCALE } else { data[i] };
        let index = (8 * v + FULL_SCALE / 2) / FULL_SCALE;
        push_char(&mut out, block_glyph(index));
        i += 1;
    }
    out
}


/// Dot column of sample `i` of `n`: the samples spread evenly from the first
/// column to the last, `round(i * (CANVAS_WIDTH - 1) / (n - 1))` with halves
/// upward; a lone sample stands in the middle.
pub open spec fn column_of(i: int, n: int) -> int {
    if n == 1 {
        (CANVAS_WIDTH - 1) / 2
    } else {
        (2 * i * (CANVAS_WIDTH - 1) + (n - 1)) / (2 * (n - 1))
    }
}

/// Dot row of a sample on a canvas `height` dots tall:
/// `round((1 - level / FULL_SCALE) * (height - 1))`, halves downward on screen.
/// Full scale is the top row.
pub open spec fn row_of(v: u32, height: int) -> int {
    (2 * (FULL_SCALE - level(v)) * (height - 1) + FULL_SCALE) / (2 * FULL_SCALE as int)
}

/// Where sample `i` of `data` is plotted.
pub open spec fn sample_point(data: Seq<u32>, height: int, i: int) -> (int, int) {
    (column_of(i, data.len() as int), row_of(data[i], height))
}

pub open spec fn abs(a: int) -> int {
    if a < 0 {
        -a
    } else {
        a
    }
}

pub open spec fn step_toward(a: int, b: int) -> int {
    if a < b {
        1
    } else {
        -1
    }
}

/// The dots that Bresenham's walk lights from `(x, y)` with error term `err`
/// towards `(x1, y1)`, taking at most `fuel` dots.
pub open spec fn walk(
    x: int,
    y: int,
    err: int,
    x1: int,
    y1: int,
    dx: int,
    dy: int,
    sx: int,
    sy: int,
    fuel: nat,
) -> Set<(int, int)>
    decreases fuel,
{
    if fuel == 0 {
        Set::empty()
    } else if x == x1 && y == y1 {
        set![(x, y)]
    } else {
        let e2 = 2 * err;
        let x2 = if e2 >= dy { x + sx } else { x };
        let err2 = if e2 >= dy { err + dy } else { err };
        let y2 = if e2 <= dx { y + sy } else { y };
        let err3 = if e2 <= dx { err2 + dx } else { err2 };
        set![(x, y)].union(walk(x2, y2, err3, x1, y1, dx, dy, sx, sy, (fuel - 1) as nat))
    }
}

/// The integer Bresenham line from `p` to `q`, both ends included.
pub open spec fn line(p: (int, int), q: (int, int)) -> Set<(int, int)> {
    let dx = abs(q.0 - p.0);
    let dy = -abs(q.1 - p.1);
    walk(
        p.0,
        p.1,
        dx + dy,
        q.0,
        q.1,
        dx,
        dy,
        step_toward(p.0, q.0),
        step_toward(p.1, q.1),
        (dx - dy + 1) as nat,
    )
}

/// The dots lit after plotting samples `0 ..= k` and joining each to the one before.
pub open spec fn plot_upto(data: Seq<u32>, height: int, k: nat) -> Set<(int, int)>
    decreases k,
{
    if k == 0 {
        set![sample_point(data, height, 0)]
    } else {
        plot_upto(data, height, (k - 1) as nat).union(
            line(sample_point(data, height, k - 1), sample_point(data, height, k as int)),
        )
    }
}

/// The dots of the whole curve.
pub open spec fn plot(data: Seq<u32>, height: int) -> Set<(int, int)> {
    plot_upto(data, height, (data.len() - 1) as nat)
}

/// The dots set in a row-major canvas `CANVAS_WIDTH` dots wide.
pub open spec fn lit_of(pix: Seq<u8>) -> Set<(int, int)> {
    Set::new(
        |p: (int, int)|
            0 <= p.0 < CANVAS_WIDTH && 0 <= p.1 && p.1 * CANVAS_WIDTH + p.0 < pix.len()
                && pix[p.1 * CANVAS_WIDTH + p.0] != 0,
    )
}

pub open spec fn dot(lit: Set<(int, int)>, x: int, y: int, bit: int) -> int {
    if lit.contains((x, y)) {
        bit
    } else {
        0
    }
}

/// The braille pattern of character cell (`row`, `col`): the left column of
/// dots carries bits 0x01, 0x02, 0x04, 0x40 from the top down, the right
/// column 0x08, 0x10, 0x20, 0x80.
pub open spec fn cell_bits(lit: Set<(int, int)>, row: int, col: int) -> int {
    let x = 2 * col;
    let y = 4 * row;
    dot(lit, x, y, 0x01) + dot(lit, x, y + 1, 0x02) + dot(lit, x, y + 2, 0x04) + dot(
        lit,
        x + 1,
        y,
        0x08,
    ) + dot(lit, x + 1, y + 1, 0x10) + dot(lit, x + 1, y + 2, 0x20) + dot(lit, x, y + 3, 0x40)
        + dot(lit, x + 1, y + 3, 0x80)
}

/// A blank for an empty cell, else the braille character of its pattern.
pub open spec fn cell_char(lit: Set<(int, int)>, row: int, col: int) -> char {
    let b = cell_bits(lit, row, col);
    if b == 0 {
        ' '
    } else {
        (0x2800 + b) as char
    }
}

/// Character `i` of the graph text: rows of `GRAPH_CHAR_WIDTH` cells, each row
/// but the last followed by a newline.
pub open spec fn text_char(lit: Set<(int, int)>, i: int) -> char {
    let w = GRAPH_CHAR_WIDTH + 1;
    if i % w == GRAPH_CHAR_WIDTH {
        '\n'
    } else {
        cell_char(lit, i / w, i % w)
    }
}

/// The graph text of `rows` character rows.
pub open spec fn braille_text(lit: Set<(int, int)>, rows: int) -> Seq<char> {
    Seq::new((rows * (GRAPH_CHAR_WIDTH + 1) - 1) as nat, |i: int| text_char(lit, i))
}


/// Lights dot (`x`, `y`) of the canvas.
fn set_pixel(pix: &mut Vec<u8>, x: usize, y: usize)
    requires
        x < CANVAS_WIDTH,
        y * CANVAS_WIDTH + x < old(pix).len(),
    ensures
        final(pix)@.len() == old(pix)@.len(),
        lit_of(final(pix)@) == lit_of(old(pix)@).insert((x as int, y as int)),
{
    assert(CANVAS_WIDTH == 56);
    let idx = y * CANVAS_WIDTH + x;
    pix.set(idx, 1);
    assert(lit_of(pix@) =~= lit_of(old(pix)@).insert((x as int, y as int)));
}

/// The error term of Bresenham's walk after `a` steps along x and `b` along y.
proof fn lemma_err_bounds(dx: int, big_b: int, a: int, b: int, err: int)
    requires
        0 <= a <= dx <= CANVAS_WIDTH,
        0 <= b <= big_b,
        err == dx * (1 + b) - big_b * (1 + a),
    ensures
        -(64 * big_b + 64) <= err <= 64 * big_b + 64,
{
    assert(0 <= dx * (1 + b) <= 64 * big_b + 64) by (nonlinear_arith)
        requires
            0 <= dx <= CANVAS_WIDTH,
            0 <= b <= big_b,
    ;
    assert(0 <= big_b * (1 + a) <= big_b * 57) by (nonlinear_arith)
        requires
            0 <= a <= CANVAS_WIDTH,
            0 <= big_b,
    ;
}

/// While the walk has not arrived, it steps along an axis only where that
/// axis has distance left, and it steps along at least one.
proof fn lemma_bresenham_step(dx: int, big_b: int, a: int, b: int, err: int)
    requires
        0 <= a <= dx,
        0 <= b <= big_b,
        err == dx * (1 + b) - big_b * (1 + a),
        !(a == dx && b == big_b),
    ensures
        2 * err >= -big_b ==> a < dx,
        2 * err <= dx ==> b < big_b,
        2 * err >= -big_b || 2 * err <= dx,
{
    if a == dx {
        assert(dx * (1 + b) <= dx * big_b) by (nonlinear_arith)
            requires
                0 <= dx,
                1 + b <= big_b,
        ;
        assert(big_b * (1 + a) == big_b + dx * big_b) by (nonlinear_arith)
            requires
                a == dx,
        ;
    }
    if b == big_b {
        assert(err == dx + big_b * (dx - a - 1)) by (nonlinear_arith)
            requires
                b == big_b,
                err == dx * (1 + b) - big_b * (1 + a),
        ;
        if a < dx {
            assert(big_b * (dx - a - 1) >= 0) by (nonlinear_arith)
                requires
                    a < dx,
                    0 <= big_b,
            ;
        }
    }
}

/// Draws the Bresenham line from (`x0`, `y0`) to (`x1`, `y1`).
fn draw_line(pix: &mut Vec<u8>, height: usize, x0: usize, y0: usize, x1: usize, y1: usize)
    requires
        old(pix)@.len() == CANVAS_WIDTH * height,
        x0 < CANVAS_WIDTH,
        x1 < CANVAS_WIDTH,
        y0 < height,
        y1 < height,
    ensures
        final(pix)@.len() == old(pix)@.len(),
        lit_of(final(pix)@) == lit_of(old(pix)@).union(
            line((x0 as int, y0 as int), (x1 as int, y1 as int)),
        ),
{
    let tx = x1 as i128;
    let ty = y1 as i128;
    let mut x = x0 as i128;
    let mut y = y0 as i128;
    let dx: i128 = if x < tx { tx - x } else { x - tx };
    let dy: i128 = if y < ty { y - ty } else { ty - y };
    let sx: i128 = if x < tx { 1 } else { -1 };
    let sy: i128 = if y < ty { 1 } else { -1 };
    let mut err: i128 = dx + dy;
    let ghost big_b: int = -dy;
    let ghost mut a: int = 0;
    let ghost mut b: int = 0;
    let ghost mut fuel: nat = (dx - dy + 1) as nat;
    let ghost target = lit_of(old(pix)@).union(
        line((x0 as int, y0 as int), (x1 as int, y1 as int)),
    );
    assert(err == dx * (1 + b) - big_b * (1 + a));
    loop
        invariant_except_break
            pix@.len() == CANVAS_WIDTH * height,
            x0 < CANVAS_WIDTH,
            y0 < height,
            x1 < CANVAS_WIDTH,
            y1 < height,
            tx == x1,
            ty == y1,
            dx == abs(x1 - x0),
            dy == -abs(y1 - y0),
            big_b == -dy,
            sx == step_toward(x0 as int, x1 as int),
            sy == step_toward(y0 as int, y1 as int),
            0 <= a <= dx,
            0 <= b <= big_b,
            sx == 1 ==> x == x0 + a,
            sx == -1 ==> x == x0 - a,
            sy == 1 ==> y == y0 + b,
            sy == -1 ==> y == y0 - b,
            err == dx * (1 + b) - big_b * (1 + a),
            fuel >= (dx - a) + (big_b - b) + 1,
            lit_of(pix@).union(walk(x as int, y as int, err as int, tx as int, ty as int, dx as int, dy as int, sx as int, sy as int, fuel)) == target,
        ensures
            pix@.len() == CANVAS_WIDTH * height,
            lit_of(pix@) == target,
        decreases (dx - a) + (big_b - b),
    {
        proof {
            lemma_err_bounds(dx as int, big_b, a, b, err as int);
        }
        assert(CANVAS_WIDTH == 56);
        set_pixel(pix, x as usize, y as usize);
        if x == tx && y == ty {
            assert(lit_of(pix@) =~= target);
            break;
        }
        proof {
            lemma_bresenham_step(dx as int, big_b, a, b, err as int);
        }
        let ghost x_prev = x;
        let ghost y_prev = y;
        let ghost err_prev = err;
        let e2 = 2 * err;
        if e2 >= dy {
            err = err + dy;
            x = x + sx;
            proof {
                assert(dx * (1 + b) - big_b * (1 + (a + 1)) == dx * (1 + b) - big_b * (1 + a) - big_b) by (nonlinear_arith);
                a = a + 1;
            }
        }
        if e2 <= dx {
            err = err + dx;
            y = y + sy;
            proof {
                assert(dx * (1 + (b + 1)) - big_b * (1 + a) == dx * (1 + b) - big_b * (1 + a) + dx) by (nonlinear_arith);
                b = b + 1;
            }
        }
        proof {
            assert(walk(x_prev as int, y_prev as int, err_prev as int, tx as int, ty as int, dx as int, dy as int, sx as int, sy as int, fuel)
                == set![(x_prev as int, y_prev as int)].union(walk(x as int, y as int, err as int, tx as int, ty as int, dx as int, dy as int, sx as int, sy as int, (fuel - 1) as nat)));
            fuel = (fuel - 1) as nat;
            assert(lit_of(pix@).union(walk(x as int, y as int, err as int, tx as int, ty as int, dx as int, dy as int, sx as int, sy as int, fuel)) =~= target);
        }
    }
}


/// Where sample `i` is plotted on a canvas `height` dots tall.
fn dot_of(data: &[u32], i: usize, height: usize) -> (p: (usize, usize))
    requires
        i < data@.len(),
        height >= 1,
    ensures
        p.0 as int == column_of(i as int, data@.len() as int),
        p.1 as int == row_of(data@[i as int], height as int),
        p.0 < CANVAS_WIDTH,
        p.1 < height,
{
    let n = data.len();
    let x: usize = if n == 1 {
        (CANVAS_WIDTH - 1) / 2
    } else {
        let m = (n - 1) as u128;
        let num = 2 * (i as u128) * ((CANVAS_WIDTH - 1) as u128) + m;
        let q = num / (2 * m);
        proof {
            lemma_fundamental_div_mod(num as int, 2 * m as int);
            assert(q < 56) by (nonlinear_arith)
                requires
                    (2 * m) * q + (num as int) % (2 * m as int) == num,
                    (num as int) % (2 * m as int) >= 0,
                    num == 2 * i * 55 + m,
                    i <= m,
                    m >= 1,
            ;
        }
        q as usize
    };
    let v = if data[i] > FULL_SCALE { FULL_SCALE } else { data[i] };
    let h1 = (height - 1) as u128;
    let span = (FULL_SCALE - v) as u128;
    assert(2 * span * h1 <= 20000 * h1) by (nonlinear_arith)
        requires
            span <= 10000,
    ;
    let num = 2 * span * h1 + FULL_SCALE as u128;
    let y = num / (2 * FULL_SCALE as u128);
    proof {
        lemma_fundamental_div_mod(num as int, 20000);
        assert(y < height) by (nonlinear_arith)
            requires
                20000 * y + (num as int) % 20000 == num,
                (num as int) % 20000 >= 0,
                num <= 20000 * h1 + 10000,
                h1 + 1 == height,
        ;
    }
    (x, y as usize)
}

/// `dot(lit_of(pix), x, y, bit)` for a dot inside the canvas.
fn dot_bit(pix: &Vec<u8>, x: usize, y: usize, bit: u32) -> (r: u32)
    requires
        x < CANVAS_WIDTH,
        y * CANVAS_WIDTH + x < pix.len(),
    ensures
        r as int == dot(lit_of(pix@), x as int, y as int, bit as int),
{
    if pix[y * CANVAS_WIDTH + x] != 0 {
        bit
    } else {
        0
    }
}

/// The braille pattern of one character cell.
fn cell_pattern(pix: &Vec<u8>, rows: usize, row: usize, col: usize) -> (r: u32)
    requires
        pix.len() == CANVAS_WIDTH * 4 * rows,
        row < rows,
        col < GRAPH_CHAR_WIDTH,
    ensures
        r as int == cell_bits(lit_of(pix@), row as int, col as int),
        r <= 255,
{
    assert(CANVAS_WIDTH == 56);
    assert((4 * row + 3) * 56 + 2 * col + 1 < pix.len()) by (nonlinear_arith)
        requires
            pix.len() == 56 * 4 * rows,
            row < rows,
            col < 28,
    ;
    let x = 2 * col;
    let y = 4 * row;
    dot_bit(pix, x, y, 0x01) + dot_bit(pix, x, y + 1, 0x02) + dot_bit(pix, x, y + 2, 0x04)
        + dot_bit(pix, x + 1, y, 0x08) + dot_bit(pix, x + 1, y + 1, 0x10) + dot_bit(
        pix,
        x + 1,
        y + 2,
        0x20,
    ) + dot_bit(pix, x, y + 3, 0x40) + dot_bit(pix, x + 1, y + 3, 0x80)
}

proof fn lemma_text_index(row: int, col: int)
    requires
        row >= 0,
        0 <= col <= GRAPH_CHAR_WIDTH,
    ensures
        (row * (GRAPH_CHAR_WIDTH + 1) + col) / (GRAPH_CHAR_WIDTH + 1) as int == row,
        (row * (GRAPH_CHAR_WIDTH + 1) + col) % (GRAPH_CHAR_WIDTH + 1) as int == col,
{
    lemma_fundamental_div_mod_converse(row * 29 + col, 29, row, col);
}

/// A multi-row dot graph of `data`: each sample is a dot, evenly spaced across
/// `GRAPH_CHAR_WIDTH` braille cells per row, joined to the sample before it by
/// a Bresenham line. Empty data or no rows give an empty string. The canvas
/// of `4 * vertical_lines` by `CANVAS_WIDTH` dots must be addressable.
pub fn braille_graph(data: &[u32], vertical_lines: usize) -> (r: String)
    requires
        vertical_lines * 4 * CANVAS_WIDTH <= usize::MAX,
    ensures
        data@.len() == 0 || vertical_lines == 0 ==> r@.len() == 0,
        data@.len() > 0 && vertical_lines > 0 ==> r@ == braille_text(
            plot(data@, 4 * vertical_lines as int),
            vertical_lines as int,
        ),
{
    if data.len() == 0 || vertical_lines == 0 {
        return String::new();
    }
    assert(CANVAS_WIDTH == 56);
    let height = vertical_lines * 4;
    let size = CANVAS_WIDTH * height;
    let mut pix: Vec<u8> = Vec::new();
    while pix.len() < size
        invariant
            pix@.len() <= size,
            forall|k: int| 0 <= k < pix@.len() ==> pix@[k] == 0,
        decreases size - pix@.len(),
    {
        pix.push(0);
    }
    assert(lit_of(pix@) =~= Set::empty());

    let n = data.len();
    let first = dot_of(data, 0, height);
    set_pixel(&mut pix, first.0, first.1);
    assert(lit_of(pix@) =~= plot_upto(data@, height as int, 0));
    let mut last = first;
    let mut k: usize = 1;
    while k < n
        invariant
            1 <= k <= n,
            n == data@.len(),
            height >= 1,
            pix@.len() == CANVAS_WIDTH * height,
            last.0 as int == column_of(k - 1, n as int),
            last.1 as int == row_of(data@[k - 1], height as int),
            last.0 < CANVAS_WIDTH,
            last.1 < height,
            lit_of(pix@) == plot_upto(data@, height as int, (k - 1) as nat),
        decreases n - k,
    {
        let pt = dot_of(data, k, height);
        draw_line(&mut pix, height, last.0, last.1, pt.0, pt.1);
        last = pt;
        k += 1;
    }
    let ghost lit = lit_of(pix@);
    assert(lit == plot(data@, height as int));

    let mut out = String::new();
    let mut row: usize = 0;
    while row < vertical_lines
        invariant
            row <= vertical_lines,
            vertical_lines * 4 * CANVAS_WIDTH <= usize::MAX,
            pix@.len() == CANVAS_WIDTH * 4 * vertical_lines,
            lit == lit_of(pix@),
            row == 0 ==> out@.len() == 0,
            row > 0 ==> out@ =~= Seq::new((row * 29 - 1) as nat, |i: int| text_char(lit, i)),
        decreases vertical_lines - row,
    {
        if row > 0 {
            push_char(&mut out, '\n');
            proof {
                lemma_text_index(row - 1, 28);
            }
        }
        assert(out@ =~= Seq::new((row * 29) as nat, |i: int| text_char(lit, i)));
        let mut col: usize = 0;
        while col < GRAPH_CHAR_WIDTH
            invariant
                row < vertical_lines,
                col <= GRAPH_CHAR_WIDTH,
                pix@.len() == CANVAS_WIDTH * 4 * vertical_lines,
                lit == lit_of(pix@),
                out@ =~= Seq::new((row * 29 + col) as nat, |i: int| text_char(lit, i)),
            decreases GRAPH_CHAR_WIDTH - col,
        {
            let bits = cell_pattern(&pix, vertical_lines, row, col);
            let c = if bits == 0 {
                ' '
            } else {
                match char_from_code(0x2800 + bits) {
                    Some(c) => c,
                    None => ' ',
                }
            };
            proof {
                lemma_text_index(row as int, col as int);
            }
            push_char(&mut out, c);
            col += 1;
        }
        row += 1;
    }
    out
}


/// The dots of row `y` from column `a` to column `b`.
pub open spec fn span(a: int, b: int, y: int) -> Set<(int, int)> {
    Set::new(|p: (int, int)| a <= p.0 <= b && p.1 == y)
}

/// A level walk steps right one dot at a time.
proof fn lemma_level_walk(x: int, x1: int, y: int, dx: int, fuel: nat)
    requires
        x <= x1,
        dx > 0,
        fuel >= x1 - x + 1,
    ensures
        walk(x, y, dx, x1, y, dx, 0, 1, -1, fuel) == span(x, x1, y),
    decreases x1 - x,
{
    if x < x1 {
        lemma_level_walk(x + 1, x1, y, dx, (fuel - 1) as nat);
    }
    assert(walk(x, y, dx, x1, y, dx, 0, 1, -1, fuel) =~= span(x, x1, y));
}

/// A level Bresenham line is the whole span between its ends.
proof fn lemma_level_line(a: int, b: int, y: int)
    requires
        a <= b,
    ensures
        line((a, y), (b, y)) == span(a, b, y),
{
    if a < b {
        lemma_level_walk(a, b, y, b - a, (b - a + 1) as nat);
    } else {
        assert(line((a, y), (b, y)) =~= span(a, b, y));
    }
}

proof fn lemma_columns_ordered(i: int, n: int)
    requires
        n >= 2,
        0 < i < n,
    ensures
        column_of(i - 1, n) <= column_of(i, n),
{
    assert(CANVAS_WIDTH == 56);
    lemma_div_is_ordered(
        2 * (i - 1) * (CANVAS_WIDTH - 1) + (n - 1),
        2 * i * (CANVAS_WIDTH - 1) + (n - 1),
        2 * (n - 1),
    );
}

proof fn lemma_constant_plot_upto(data: Seq<u32>, height: int, k: nat)
    requires
        data.len() >= 2,
        k < data.len(),
        forall|i: int| 0 <= i < data.len() ==> #[trigger] data[i] == data[0],
    ensures
        plot_upto(data, height, k) == span(0, column_of(k as int, data.len() as int), row_of(data[0], height)),
    decreases k,
{
    let n = data.len() as int;
    let y = row_of(data[0], height);
    if k == 0 {
        lemma_fundamental_div_mod_converse(n - 1, 2 * (n - 1), 0, n - 1);
        assert(plot_upto(data, height, k) =~= span(0, 0, y));
    } else {
        lemma_constant_plot_upto(data, height, (k - 1) as nat);
        lemma_columns_ordered(k as int, n);
        lemma_level_line(column_of(k - 1, n), column_of(k as int, n), y);
        assert(plot_upto(data, height, k) =~= span(0, column_of(k as int, n), y));
    }
}

/// A constant sequence of two or more samples plots a level line across the
/// whole canvas, so each row of the graph repeats one character: blank rows
/// and the row that holds the line.
pub proof fn lemma_constant_is_flat(data: Seq<u32>, rows: int)
    requires
        data.len() >= 2,
        rows >= 1,
        forall|i: int| 0 <= i < data.len() ==> #[trigger] data[i] == data[0],
    ensures
        plot(data, 4 * rows) == span(0, CANVAS_WIDTH - 1, row_of(data[0], 4 * rows)),
        forall|r: int, c: int|
            0 <= r < rows && 0 <= c < GRAPH_CHAR_WIDTH ==> #[trigger] cell_char(plot(data, 4 * rows), r, c)
                == cell_char(plot(data, 4 * rows), r, 0),
{
    let n = data.len() as int;
    assert(CANVAS_WIDTH == 56);
    lemma_constant_plot_upto(data, 4 * rows, (n - 1) as nat);
    lemma_fundamental_div_mod_converse(
        2 * (n - 1) * (CANVAS_WIDTH - 1) + (n - 1),
        2 * (n - 1),
        55,
        n - 1,
    );
}

} // verus!
