use vstd::prelude::*;
use vstd::arithmetic::div_mod::lemma_div_is_ordered;
use vstd::arithmetic::div_mod::lemma_div_by_multiple;
use vstd::arithmetic::div_mod::lemma_div_pos_is_pos;

verus! {

/// A color with one byte per channel.
#[derive(Clone, Copy, Debug, PartialEq, Eq, Structural)]
pub struct Rgb {
    pub r: u8,
    pub g: u8,
    pub b: u8,
}

impl Rgb {
    pub fn new(r: u8, g: u8, b: u8) -> (c: Rgb)
        ensures
            c.r == r,
            c.g == g,
            c.b == b,
    {
        Rgb { r, g, b }
    }
}

/// Step `i` of `n` of the affine blend from channel value `c0` to `c1`,
/// rounded down; with no steps at all the blend stays at `c0`.
pub open spec fn blend(c0: int, c1: int, i: int, n: int) -> int {
    if n == 0 { c0 } else { (c0 * (n - i) + c1 * i) / n }
}

/// Every channel of `c` is the blend of the matching channels of `c0` and `c1`.
pub open spec fn is_blend(c: Rgb, c0: Rgb, c1: Rgb, i: int, n: int) -> bool {
    &&& c.r == blend(c0.r as int, c1.r as int, i, n)
    &&& c.g == blend(c0.g as int, c1.g as int, i, n)
    &&& c.b == blend(c0.b as int, c1.b as int, i, n)
}

/// A blend of two channel values is a channel value.
pub proof fn lemma_blend_in_range(c0: int, c1: int, i: int, n: int)
    requires
        0 <= c0 <= 255,
        0 <= c1 <= 255,
        0 <= i <= n,
        0 < n,
    ensures
        0 <= c0 * (n - i) + c1 * i <= 255 * n,
        0 <= blend(c0, c1, i, n) <= 255,
{
    let num = c0 * (n - i) + c1 * i;
    assert(0 <= num <= 255 * n) by (nonlinear_arith)
        requires
            num == c0 * (n - i) + c1 * i,
            0 <= c0 <= 255,
            0 <= c1 <= 255,
            0 <= i <= n,
    ;
    lemma_div_is_ordered(num, 255 * n, n);
    lemma_div_by_multiple(255, n);
    lemma_div_pos_is_pos(num, n);
}

fn blend_channel(c0: u8, c1: u8, i: usize, n: usize) -> (r: u8)
    requires
        i <= n,
    ensures
        r == blend(c0 as int, c1 as int, i as int, n as int),
{
    if n == 0 {
        return c0;
    }
    proof {
        lemma_blend_in_range(c0 as int, c1 as int, i as int, n as int);
    }
    let num: u128 = (c0 as u128) * ((n - i) as u128) + (c1 as u128) * (i as u128);
    (num / (n as u128)) as u8
}

/// The color at step `i` of `n` from `c0` to `c1`.
pub fn blend_color(c0: Rgb, c1: Rgb, i: usize, n: usize) -> (c: Rgb)
    requires
        i <= n,
    ensures
        is_blend(c, c0, c1, i as int, n as int),
{
    Rgb {
        r: blend_channel(c0.r, c1.r, i, n),
        g: blend_channel(c0.g, c1.g, i, n),
        b: blend_channel(c0.b, c1.b, i, n),
    }
}

/// The `count + 1` colors of a blend from `c0` to `c1` in `count` steps.
pub fn interpolate_color(c0: Rgb, c1: Rgb, count: usize) -> (colors: Vec<Rgb>)
    requires
        count < usize::MAX,
    ensures
        colors@.len() == count + 1,
        forall|i: int| 0 <= i <= count ==> is_blend(#[trigger] colors@[i], c0, c1, i, count as int),
{
    let mut colors: Vec<Rgb> = Vec::new();
    let mut i: usize = 0;
    while i <= count
        invariant
            i <= count + 1,
            count < usize::MAX,
            colors@.len() == i,
            forall|k: int| 0 <= k < i ==> is_blend(#[trigger] colors@[k], c0, c1, k, count as int),
        decreases count + 1 - i,
    {
        let c = blend_color(c0, c1, i, count);
        colors.push(c);
        i = i + 1;
    }
    colors
}

/// The blend starts exactly at `c0` and, when it has at least one step,
/// ends exactly at `c1`. Where `c0` is not above `c1` it never goes down,
/// where it is not below it never goes up, and where the two are equal it
/// stays put.
pub proof fn lemma_blend_affine(c0: int, c1: int, n: int)
    requires
        0 <= c0 <= 255,
        0 <= c1 <= 255,
        0 <= n,
    ensures
        blend(c0, c1, 0, n) == c0,
        n > 0 ==> blend(c0, c1, n, n) == c1,
        forall|i: int|
            0 <= i < n ==> (c0 <= c1 ==> blend(c0, c1, i, n) <= #[trigger] blend(c0, c1, i + 1, n)) && (
            c0 >= c1 ==> blend(c0, c1, i, n) >= blend(c0, c1, i + 1, n)),
        forall|i: int| 0 <= i <= n ==> #[trigger] blend(c0, c0, i, n) == c0,
{
    if n > 0 {
        assert(c0 * (n - 0) + c1 * 0 == c0 * n) by (nonlinear_arith);
        lemma_div_by_multiple(c0, n);
        assert(c0 * (n - n) + c1 * n == c1 * n) by (nonlinear_arith);
        lemma_div_by_multiple(c1, n);
        assert forall|i: int| 0 <= i < n implies (c0 <= c1 ==> blend(c0, c1, i, n)
            <= #[trigger] blend(c0, c1, i + 1, n)) && (c0 >= c1 ==> blend(c0, c1, i, n) >= blend(
            c0,
            c1,
            i + 1,
            n,
        )) by {
            let x = c0 * (n - i) + c1 * i;
            let y = c0 * (n - (i + 1)) + c1 * (i + 1);
            assert(y == x + (c1 - c0)) by (nonlinear_arith)
                requires
                    x == c0 * (n - i) + c1 * i,
                    y == c0 * (n - (i + 1)) + c1 * (i + 1),
            ;
            if c0 <= c1 {
                lemma_div_is_ordered(x, y, n);
            }
            if c0 >= c1 {
                lemma_div_is_ordered(y, x, n);
            }
        }
        assert forall|i: int| 0 <= i <= n implies #[trigger] blend(c0, c0, i, n) == c0 by {
            assert(c0 * (n - i) + c0 * i == c0 * n) by (nonlinear_arith);
            lemma_div_by_multiple(c0, n);
        }
    }
}

} // verus!
