//! The remap filter: for each destination pixel, which source column (X map)
//! and which source row (Y map) the transcoding engine samples.
use vstd::prelude::*;
use vstd::arithmetic::div_mod::{lemma_div_by_multiple, lemma_fundamental_div_mod, lemma_multiply_divide_le};
use crate::pgm::{count_of, lemma_row_text_tokens, lemma_rows_text_lines, header_text, image_text, push_header, push_int_decimal, row_text, rows_text};

verus! {

/// Source and target geometry of the remap.
pub struct FilterConfig {
    pub width: u32,
    pub height: u32,
    pub target_width: u32,
}

/// Why a map file could not be produced. Creating, writing and flushing the
/// file fail for different reasons and call for different remedies.
pub enum Error {
    CreateFilter { message: String },
    WriteFilter { message: String },
    FlushFilter { message: String },
}

/// Which of the two maps to produce.
#[derive(Clone, Copy, PartialEq, Eq, Structural, Debug)]
pub enum Axis {
    X,
    Y,
}

/// Division rounding toward zero.
pub open spec fn trunc_div(n: int, d: int) -> int {
    if n >= 0 {
        n / d
    } else {
        -((-n) / d)
    }
}

/// `2 * tw^2` times the unrounded source column of destination column `x`.
///
/// With `tx = (x / tw - 0.5) * 2`, `sx = x - (tw - w) / 2` and
/// `offset = tx^2 * (tw - w) / 2`, negated when `tx < 0`, the unrounded value is
/// `sx - offset`; scaling by the common denominator keeps it exact.
pub open spec fn column_numer(w: int, tw: int, x: int) -> int {
    let d = tw - w;
    2 * x * tw * tw - d * tw * tw - signed_offset_numer(w, tw, x)
}

/// `2 * tw^2` times the signed offset at column `x`.
pub open spec fn signed_offset_numer(w: int, tw: int, x: int) -> int {
    let t = 2 * x - tw;
    if t < 0 {
        -(t * t * (tw - w))
    } else {
        t * t * (tw - w)
    }
}

pub open spec fn column_denom(tw: int) -> int {
    2 * tw * tw
}

/// The X map's value at destination column `x`: the source column, truncated
/// toward zero. It may be negative or past the source's width.
pub open spec fn x_map_at(w: int, tw: int, x: int) -> int {
    trunc_div(column_numer(w, tw, x), column_denom(tw))
}

/// The value of a map at destination pixel (`x`, `y`).
pub open spec fn map_cell(c: FilterConfig, axis: Axis, y: int, x: int) -> int {
    match axis {
        Axis::X => x_map_at(c.width as int, c.target_width as int, x),
        Axis::Y => y,
    }
}

/// One row of a map.
pub open spec fn map_row(c: FilterConfig, axis: Axis, y: int) -> Seq<int> {
    Seq::new(c.target_width as nat, |x: int| map_cell(c, axis, y, x))
}

/// A whole map: `height` rows of `target_width` values.
pub open spec fn map_grid(c: FilterConfig, axis: Axis) -> Seq<Seq<int>> {
    Seq::new(c.height as nat, |y: int| map_row(c, axis, y))
}

/// The image file holding a map.
pub open spec fn map_image(c: FilterConfig, axis: Axis) -> Seq<u8> {
    image_text(c.target_width as nat, c.height as nat, map_grid(c, axis))
}

/// The target width for a source width: `floor(w / (4/3) * (16/9))`, that is
/// `floor(4w/3)`, capped at `u32::MAX` and rounded down to an even number.
pub open spec fn superview_width_of(w: int) -> int {
    let wide = (4 * w) / 3;
    let capped = if wide > 4294967295 { 4294967295 } else { wide };
    capped / 2 * 2
}

proof fn lemma_trunc_div_bound(n: int, d: int, k: int)
    requires
        d > 0,
        k >= 0,
        -(d * k) <= n <= d * k,
    ensures
        -k <= trunc_div(n, d) <= k,
{
    if n >= 0 {
        lemma_multiply_divide_le(n, d, k);
        assert(n / d >= 0) by {
            lemma_fundamental_div_mod(n, d);
            assert(d * (n / d) + n % d == n);
            assert((n / d) >= 0) by (nonlinear_arith)
                requires
                    d * (n / d) + n % d == n,
                    0 <= n % d < d,
                    n >= 0,
                    d > 0,
            ;
        }
    } else {
        lemma_multiply_divide_le(-n, d, k);
        assert((-n) / d >= 0) by {
            lemma_fundamental_div_mod(-n, d);
            assert(((-n) / d) >= 0) by (nonlinear_arith)
                requires
                    d * ((-n) / d) + (-n) % d == -n,
                    0 <= (-n) % d < d,
                    -n >= 0,
                    d > 0,
            ;
        }
    }
}

proof fn lemma_column_numer_bound(w: int, tw: int, x: int)
    requires
        0 <= x < tw <= 0xffff_ffff,
        0 <= w <= 0xffff_ffff,
    ensures
        -(column_denom(tw) * 0x2_0000_0000) <= column_numer(w, tw, x) <= column_denom(
            tw,
        ) * 0x2_0000_0000,
        -0x10_0000_0000_0000_0000_0000_0000 < column_numer(w, tw, x) < 0x10_0000_0000_0000_0000_0000_0000,
{
    let d = tw - w;
    let t = 2 * x - tw;
    let sq = tw * tw;
    assert(0 <= t * t <= sq) by (nonlinear_arith)
        requires
            -tw <= t < tw,
            sq == tw * tw,
    ;
    let ad = if d < 0 { -d } else { d };
    assert(0 <= ad <= 0xffff_ffff);
    let so = signed_offset_numer(w, tw, x);
    let big_a = 2 * x * sq;
    let big_b = d * sq;
    let big_m = sq * ad;
    let big_t = tw * sq;
    assert(-big_m <= so <= big_m) by (nonlinear_arith)
        requires
            0 <= t * t <= sq,
            0 <= ad,
            d == ad || d == -ad,
            so == t * t * d || so == -(t * t * d),
            big_m == sq * ad,
    ;
    assert(-big_m <= big_b <= big_m) by (nonlinear_arith)
        requires
            0 <= sq,
            0 <= ad,
            d == ad || d == -ad,
            big_b == d * sq,
            big_m == sq * ad,
    ;
    assert(0 <= big_a <= 2 * big_t) by (nonlinear_arith)
        requires
            0 <= x < tw,
            0 <= sq,
            big_a == 2 * x * sq,
            big_t == tw * sq,
    ;
    assert(big_t + big_m <= sq * 0x2_0000_0000) by (nonlinear_arith)
        requires
            0 <= sq,
            tw + ad <= 0x2_0000_0000,
            big_t == tw * sq,
            big_m == sq * ad,
    ;
    assert(sq <= 0xffff_ffff * 0xffff_ffff) by (nonlinear_arith)
        requires
            sq == tw * tw,
            0 <= tw <= 0xffff_ffff,
    ;
    assert(column_numer(w, tw, x) == big_a - big_b - so) by (nonlinear_arith)
        requires
            sq == tw * tw,
            big_a == 2 * x * sq,
            big_b == d * sq,
            d == tw - w,
            so == signed_offset_numer(w, tw, x),
    ;
    assert(column_denom(tw) * 0x2_0000_0000 == 2 * sq * 0x2_0000_0000) by (nonlinear_arith)
        requires
            sq == tw * tw,
    ;
}

/// When the target is as wide as the source, the X map is the identity:
/// every destination column samples the same source column.
pub proof fn lemma_same_width_is_identity(c: FilterConfig)
    requires
        c.target_width == c.width,
    ensures
        forall|y: int, x: int|
            0 <= y < c.height && 0 <= x < c.target_width ==> #[trigger] map_grid(c, Axis::X)[y][x]
                == x,
{
    let tw = c.target_width as int;
    assert forall|y: int, x: int| 0 <= y < c.height && 0 <= x < c.target_width implies #[trigger] map_grid(
        c,
        Axis::X,
    )[y][x] == x by {
        let den = column_denom(tw);
        assert(signed_offset_numer(c.width as int, tw, x) == 0) by (nonlinear_arith)
            requires
                tw == c.width,
        ;
        assert(column_numer(c.width as int, tw, x) == x * den) by (nonlinear_arith)
            requires
                tw == c.width,
                den == 2 * tw * tw,
                signed_offset_numer(c.width as int, tw, x) == 0,
        ;
        assert(den > 0) by (nonlinear_arith)
            requires
                den == 2 * tw * tw,
                tw > 0,
        ;
        assert(x * den >= 0) by (nonlinear_arith)
            requires
                x >= 0,
                den > 0,
        ;
        lemma_div_by_multiple(x, den);
    }
}

/// The Y map passes the row index through: every pixel of row `y` holds `y`.
pub proof fn lemma_y_map_is_row_index(c: FilterConfig)
    ensures
        forall|y: int, x: int|
            0 <= y < c.height && 0 <= x < c.target_width ==> #[trigger] map_grid(c, Axis::Y)[y][x]
                == y,
{
}

/// Columns `x` and `target_width - x` lie at the same distance from the centre:
/// their offsets have equal magnitude and opposite sign, so their unrounded
/// source columns sum to the source width, and after truncation toward zero the
/// two map values sum to the source width or one less.
pub proof fn lemma_mirror_columns(c: FilterConfig, x: int)
    requires
        0 < x < c.target_width,
    ensures
        signed_offset_numer(c.width as int, c.target_width as int, x) == -signed_offset_numer(
            c.width as int,
            c.target_width as int,
            c.target_width - x,
        ),
        column_numer(c.width as int, c.target_width as int, x) + column_numer(
            c.width as int,
            c.target_width as int,
            c.target_width - x,
        ) == c.width * column_denom(c.target_width as int),
        c.width - 1 <= x_map_at(c.width as int, c.target_width as int, x) + x_map_at(
            c.width as int,
            c.target_width as int,
            c.target_width - x,
        ) <= c.width,
{
    let w = c.width as int;
    let tw = c.target_width as int;
    let m = tw - x;
    let t = 2 * x - tw;
    let d = tw - w;
    assert(2 * m - tw == -t);
    assert((-t) * (-t) * d == t * t * d) by (nonlinear_arith);
    if t == 0 {
        assert(t * t * d == 0) by (nonlinear_arith)
            requires
                t == 0,
        ;
    }
    let n1 = column_numer(w, tw, x);
    let n2 = column_numer(w, tw, m);
    let den = column_denom(tw);
    assert(n1 + n2 == w * den) by (nonlinear_arith)
        requires
            m == tw - x,
            n1 == 2 * x * tw * tw - (tw - w) * tw * tw - signed_offset_numer(w, tw, x),
            n2 == 2 * m * tw * tw - (tw - w) * tw * tw - signed_offset_numer(w, tw, m),
            signed_offset_numer(w, tw, x) == -signed_offset_numer(w, tw, m),
            den == 2 * tw * tw,
    ;
    assert(den > 0) by (nonlinear_arith)
        requires
            den == 2 * tw * tw,
            tw > 0,
    ;
    lemma_trunc_div_pair(n1, n2, den, w);
}

proof fn lemma_cancel_lt(d: int, a: int, b: int)
    requires
        d > 0,
        d * a < d * b,
    ensures
        a < b,
{
    assert(a < b) by (nonlinear_arith)
        requires
            d > 0,
            d * a < d * b,
    ;
}

/// Bounds of a quotient rounded toward zero.
proof fn lemma_trunc_div_step(n: int, d: int)
    requires
        d > 0,
    ensures
        n >= 0 ==> d * trunc_div(n, d) <= n < d * trunc_div(n, d) + d,
        n < 0 ==> d * trunc_div(n, d) - d < n <= d * trunc_div(n, d),
{
    if n >= 0 {
        lemma_fundamental_div_mod(n, d);
    } else {
        lemma_fundamental_div_mod(-n, d);
        assert(d * trunc_div(n, d) == -(d * ((-n) / d))) by (nonlinear_arith)
            requires
                trunc_div(n, d) == -((-n) / d),
        ;
    }
}

proof fn lemma_trunc_div_pair(n1: int, n2: int, d: int, w: int)
    requires
        d > 0,
        w >= 0,
        n1 + n2 == w * d,
    ensures
        w - 1 <= trunc_div(n1, d) + trunc_div(n2, d) <= w,
{
    let q1 = trunc_div(n1, d);
    let q2 = trunc_div(n2, d);
    lemma_trunc_div_step(n1, d);
    lemma_trunc_div_step(n2, d);
    assert(d * (q1 + q2) == d * q1 + d * q2) by (nonlinear_arith);
    assert(d * (q1 + q2 + 1) == d * (q1 + q2) + d) by (nonlinear_arith);
    assert(d * (q1 + q2 + 2) == d * (q1 + q2) + 2 * d) by (nonlinear_arith);
    assert(d * (q1 + q2 - 1) == d * (q1 + q2) - d) by (nonlinear_arith);
    assert(w * d == d * w) by (nonlinear_arith);
    if n1 >= 0 && n2 >= 0 {
        assert(d * (w + 1) == d * w + d) by (nonlinear_arith);
        lemma_cancel_lt(d, q1 + q2, w + 1);
        lemma_cancel_lt(d, w, q1 + q2 + 2);
    } else if n1 < 0 && n2 < 0 {
        assert(w * d >= 0) by (nonlinear_arith)
            requires
                w >= 0,
                d > 0,
        ;
    } else {
        lemma_cancel_lt(d, w, q1 + q2 + 1);
        lemma_cancel_lt(d, q1 + q2 - 1, w);
    }
}

/// A map's image is the header `P2 <target_width> <height> 65535` followed by
/// exactly `height` lines, each holding exactly `target_width` values, every
/// value followed by one space.
pub proof fn lemma_map_image_layout(c: FilterConfig, axis: Axis)
    ensures
        map_image(c, axis) == header_text(c.target_width as nat, c.height as nat) + rows_text(
            map_grid(c, axis),
        ),
        map_grid(c, axis).len() == c.height,
        count_of(rows_text(map_grid(c, axis)), 10u8) == c.height,
        forall|y: int|
            0 <= y < c.height ==> (#[trigger] map_grid(c, axis)[y]).len() == c.target_width
                && count_of(row_text(map_grid(c, axis)[y]), 32u8) == c.target_width && count_of(
                row_text(map_grid(c, axis)[y]),
                10u8,
            ) == 0,
{
    lemma_rows_text_lines(map_grid(c, axis));
    assert forall|y: int| 0 <= y < c.height implies (#[trigger] map_grid(c, axis)[y]).len()
        == c.target_width && count_of(row_text(map_grid(c, axis)[y]), 32u8) == c.target_width
        && count_of(row_text(map_grid(c, axis)[y]), 10u8) == 0 by {
        lemma_row_text_tokens(map_grid(c, axis)[y]);
    }
}

impl FilterConfig {
    /// The geometry for a source of `width` by `height` pixels.
    pub fn for_source(width: u32, height: u32) -> (r: FilterConfig)
        ensures
            r.width == width,
            r.height == height,
            r.target_width == superview_width_of(width as int),
    {
        FilterConfig { width, height, target_width: superview_width(width) }
    }
}

/// `floor(w / (4/3) * (16/9))` rounded down to an even number, as the encoder
/// requires even dimensions.
pub fn superview_width(width: u32) -> (r: u32)
    ensures
        r == superview_width_of(width as int),
{
    let wide: u64 = (4 * (width as u64)) / 3;
    let capped: u64 = if wide > 4294967295 {
        4294967295
    } else {
        wide
    };
    (capped / 2 * 2) as u32
}

/// The X map's value at destination column `x`.
pub fn x_map_value(config: &FilterConfig, x: u32) -> (r: i64)
    requires
        x < config.target_width,
    ensures
        r == x_map_at(config.width as int, config.target_width as int, x as int),
{
    let tw: i128 = config.target_width as i128;
    let w: i128 = config.width as i128;
    let xi: i128 = x as i128;
    proof {
        lemma_column_numer_bound(w as int, tw as int, xi as int);
    }
    let d: i128 = tw - w;
    let t: i128 = 2 * xi - tw;
    assert(0 <= t * t <= tw * tw) by (nonlinear_arith)
        requires
            -tw <= t < tw,
    ;
    assert(tw * tw <= 0xffff_ffff * 0xffff_ffff) by (nonlinear_arith)
        requires
            0 <= tw <= 0xffff_ffff,
    ;
    let tt: i128 = t * t;
    let sq: i128 = tw * tw;
    assert(-0x1_0000_0000_0000_0000_0000_0000 < tt * d < 0x1_0000_0000_0000_0000_0000_0000)
        by (nonlinear_arith)
        requires
            0 <= tt <= 0xffff_ffff * 0xffff_ffff,
            -0xffff_ffff <= d <= 0xffff_ffff,
    ;
    assert(-0x1_0000_0000_0000_0000_0000_0000 < d * sq < 0x1_0000_0000_0000_0000_0000_0000)
        by (nonlinear_arith)
        requires
            0 <= sq <= 0xffff_ffff * 0xffff_ffff,
            -0xffff_ffff <= d <= 0xffff_ffff,
    ;
    assert(0 <= 2 * xi * sq < 0x4_0000_0000_0000_0000_0000_0000) by (nonlinear_arith)
        requires
            0 <= sq <= 0xffff_ffff * 0xffff_ffff,
            0 <= xi <= 0xffff_ffff,
    ;
    let off: i128 = tt * d;
    let signed_off: i128 = if t < 0 {
        -off
    } else {
        off
    };
    let n: i128 = 2 * xi * sq - d * sq - signed_off;
    let den: i128 = 2 * sq;
    assert(n == column_numer(w as int, tw as int, xi as int)) by (nonlinear_arith)
        requires
            sq == tw * tw,
            tt == t * t,
            off == tt * d,
            signed_off == signed_offset_numer(w as int, tw as int, xi as int),
            n == 2 * xi * sq - d * sq - signed_off,
            d == tw - w,
            t == 2 * xi - tw,
    ;
    assert(den == column_denom(tw as int)) by (nonlinear_arith)
        requires
            den == 2 * sq,
            sq == tw * tw,
    ;
    assert(den > 0) by (nonlinear_arith)
        requires
            den == 2 * sq,
            sq == tw * tw,
            tw > 0,
    ;
    proof {
        lemma_trunc_div_bound(n as int, den as int, 0x2_0000_0000);
    }
    if n >= 0 {
        let q: u128 = (n as u128) / (den as u128);
        q as i64
    } else {
        let q: u128 = ((-n) as u128) / (den as u128);
        -(q as i64)
    }
}


/// The image text of one map: the header `P2 <target_width> <height> 65535`,
/// then `height` rows of `target_width` values.
pub fn render_map(config: &FilterConfig, axis: Axis) -> (r: Vec<u8>)
    ensures
        r@ == map_image(*config, axis),
{
    let mut out: Vec<u8> = Vec::new();
    push_header(&mut out, config.target_width, config.height);
    let ghost head = header_text(config.target_width as nat, config.height as nat);
    let ghost grid = map_grid(*config, axis);
    assert(out@ =~= head + rows_text(grid.take(0)));
    let mut y: u32 = 0;
    while y < config.height
        invariant
            y <= config.height,
            head == header_text(config.target_width as nat, config.height as nat),
            grid == map_grid(*config, axis),
            out@ == head + rows_text(grid.take(y as int)),
        decreases config.height - y,
    {
        let ghost row = map_row(*config, axis, y as int);
        let ghost done = out@;
        assert(row.take(0) =~= Seq::<int>::empty());
        assert(out@ =~= done + row_text(row.take(0)));
        let mut x: u32 = 0;
        while x < config.target_width
            invariant
                x <= config.target_width,
                y < config.height,
                row == map_row(*config, axis, y as int),
                out@ == done + row_text(row.take(x as int)),
            decreases config.target_width - x,
        {
            let v: i64 = match axis {
                Axis::X => x_map_value(config, x),
                Axis::Y => y as i64,
            };
            let ghost before = out@;
            push_int_decimal(&mut out, v);
            out.push(32u8);
            proof {
                assert(row.take(x + 1).drop_last() =~= row.take(x as int));
                assert(row.take(x + 1).last() == v as int);
                assert(out@ =~= done + row_text(row.take(x + 1)));
            }
            x = x + 1;
        }
        out.push(10u8);
        proof {
            assert(row.take(config.target_width as int) =~= row);
            assert(grid.take(y + 1).drop_last() =~= grid.take(y as int));
            assert(grid.take(y + 1).last() == row);
            assert(out@ =~= head + rows_text(grid.take(y + 1)));
        }
        y = y + 1;
    }
    assert(grid.take(config.height as int) =~= grid);
    out
}

} // verus!
