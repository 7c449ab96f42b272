//! Chunk coordinates, the chunk file name and the active window.

use vstd::prelude::*;
use vstd::string::*;

verus! {

/// Position of a chunk in chunk-grid space.
#[derive(Clone, Copy, Debug, PartialEq, Eq, Structural, Hash)]
pub struct ChunkCoord {
    pub x: u32,
    pub y: u32,
}

impl ChunkCoord {
    pub fn new(x: u32, y: u32) -> (r: ChunkCoord)
        ensures
            r.x == x,
            r.y == y,
    {
        ChunkCoord { x, y }
    }
}

/// The ten decimal digits, in order.
pub open spec fn decimal_digits() -> Seq<char> {
    seq!['0', '1', '2', '3', '4', '5', '6', '7', '8', '9']
}

/// The decimal form of `n`: most significant digit first, no sign, no padding.
pub open spec fn decimal(n: nat) -> Seq<char>
    decreases n,
{
    if n < 10 {
        seq![decimal_digits()[n as int]]
    } else {
        decimal(n / 10).push(decimal_digits()[(n % 10) as int])
    }
}

/// Name of the file that holds a persisted chunk: `"<x>,<y>.json"`.
pub open spec fn chunk_file_name(c: ChunkCoord) -> Seq<char> {
    decimal(c.x as nat) + seq![','] + decimal(c.y as nat) + seq!['.', 'j', 's', 'o', 'n']
}

/// The decimal digit `d` as a one-character string.
fn digit_str(d: u32) -> (r: &'static str)
    requires
        d < 10,
    ensures
        r@ == seq![decimal_digits()[d as int]],
{
    proof {
        reveal_strlit("0");
        reveal_strlit("1");
        reveal_strlit("2");
        reveal_strlit("3");
        reveal_strlit("4");
        reveal_strlit("5");
        reveal_strlit("6");
        reveal_strlit("7");
        reveal_strlit("8");
        reveal_strlit("9");
    }
    match d {
        0 => "0",
        1 => "1",
        2 => "2",
        3 => "3",
        4 => "4",
        5 => "5",
        6 => "6",
        7 => "7",
        8 => "8",
        _ => "9",
    }
}

/// Appends the decimal form of `n` to `s`.
fn append_decimal(s: &mut String, n: u32)
    ensures
        final(s)@ == old(s)@ + decimal(n as nat),
    decreases n,
{
    if n < 10 {
        s.append(digit_str(n));
    } else {
        append_decimal(s, n / 10);
        s.append(digit_str(n % 10));
        assert(decimal(n as nat) == decimal((n / 10) as nat).push(decimal_digits()[(n % 10) as int]));
    }
}

/// The file name under which the chunk at `coord` is persisted.
pub fn chunk_file(coord: ChunkCoord) -> (r: String)
    ensures
        r@ == chunk_file_name(coord),
{
    let mut name = String::new();
    append_decimal(&mut name, coord.x);
    name.append(",");
    append_decimal(&mut name, coord.y);
    name.append(".json");
    proof {
        reveal_strlit(",");
        reveal_strlit(".json");
    }
    name
}

/// A half-open rectangle of chunk coordinates: `min <= c < max` on each axis.
#[derive(Clone, Copy, Debug, PartialEq, Eq, Structural)]
pub struct Window {
    pub min: ChunkCoord,
    pub max: ChunkCoord,
}

pub open spec fn in_window(w: Window, c: ChunkCoord) -> bool {
    &&& w.min.x <= c.x < w.max.x
    &&& w.min.y <= c.y < w.max.y
}

/// Lower edge on one axis: `v - half`, stopping at zero, then raised to `floor`.
pub open spec fn window_low(v: u32, half: u32, floor: u32) -> u32 {
    let d: u32 = if v >= half { (v - half) as u32 } else { 0 };
    if d >= floor { d } else { floor }
}

/// Upper (exclusive) edge on one axis: `v + half`, lowered to `ceiling`.
pub open spec fn window_high(v: u32, half: u32, ceiling: u32) -> u32 {
    if v + half <= ceiling { (v + half) as u32 } else { ceiling }
}

/// The window of half-extents `(half_x, half_y)` around `v`, kept inside
/// `[min_chunk, max_chunk]`.
pub open spec fn active_window_of(
    v: ChunkCoord,
    half_x: u32,
    half_y: u32,
    min_chunk: u32,
    max_chunk: u32,
) -> Window {
    Window {
        min: ChunkCoord { x: window_low(v.x, half_x, min_chunk), y: window_low(v.y, half_y, min_chunk) },
        max: ChunkCoord { x: window_high(v.x, half_x, max_chunk), y: window_high(v.y, half_y, max_chunk) },
    }
}

/// `c` lies more than `margin` chunks beyond `w` on at least one of its four sides.
pub open spec fn beyond_margin(w: Window, c: ChunkCoord, margin: u32) -> bool {
    ||| (c.x as int) < w.min.x - margin
    ||| (c.x as int) > w.max.x + margin
    ||| (c.y as int) < w.min.y - margin
    ||| (c.y as int) > w.max.y + margin
}

/// `ceil(a / b)` for a positive `b`.
pub open spec fn ceil_div(a: nat, b: nat) -> nat
    recommends
        b > 0,
{
    ((a + b - 1) as nat) / b
}

/// The number of chunks that cover `visible` tiles scaled by `multiplier`,
/// rounded up, and no more than `u32::MAX`.
pub open spec fn half_extent_of(visible: u32, chunk_size: u32, multiplier: u32) -> u32 {
    let n = ceil_div((visible * multiplier) as nat, chunk_size as nat);
    if n <= u32::MAX { n as u32 } else { u32::MAX }
}

/// How many chunks the window reaches out from the viewpoint on one axis,
/// given the visible extent in tiles.
pub fn half_extent(visible: u32, chunk_size: u32, multiplier: u32) -> (r: u32)
    requires
        chunk_size > 0,
    ensures
        r == half_extent_of(visible, chunk_size, multiplier),
{
    assert((visible as int) * (multiplier as int) <= 0xffff_fffe_0000_0001) by (nonlinear_arith)
        requires
            visible <= u32::MAX,
            multiplier <= u32::MAX,
    ;
    let scaled: u64 = visible as u64 * multiplier as u64;
    let n: u64 = (scaled + (chunk_size as u64 - 1)) / chunk_size as u64;
    if n <= u32::MAX as u64 {
        n as u32
    } else {
        u32::MAX
    }
}

/// The active window around `viewpoint`.
pub fn active_window(
    viewpoint: ChunkCoord,
    half_x: u32,
    half_y: u32,
    min_chunk: u32,
    max_chunk: u32,
) -> (r: Window)
    ensures
        r == active_window_of(viewpoint, half_x, half_y, min_chunk, max_chunk),
{
    Window {
        min: ChunkCoord { x: low_edge(viewpoint.x, half_x, min_chunk), y: low_edge(viewpoint.y, half_y, min_chunk) },
        max: ChunkCoord { x: high_edge(viewpoint.x, half_x, max_chunk), y: high_edge(viewpoint.y, half_y, max_chunk) },
    }
}

fn low_edge(v: u32, half: u32, floor: u32) -> (r: u32)
    ensures
        r == window_low(v, half, floor),
{
    let d = v.saturating_sub(half);
    if d >= floor { d } else { floor }
}

fn high_edge(v: u32, half: u32, ceiling: u32) -> (r: u32)
    ensures
        r == window_high(v, half, ceiling),
{
    if v as u64 + half as u64 <= ceiling as u64 {
        v + half
    } else {
        ceiling
    }
}

/// Whether a resident chunk at `c` is to be evicted: it lies more than
/// `margin` chunks beyond the window on some side.
pub fn should_evict(w: &Window, c: ChunkCoord, margin: u32) -> (r: bool)
    ensures
        r == beyond_margin(*w, c, margin),
{
    (c.x as u64) + (margin as u64) < w.min.x as u64
        || c.x as u64 > w.max.x as u64 + margin as u64
        || (c.y as u64) + (margin as u64) < w.min.y as u64
        || c.y as u64 > w.max.y as u64 + margin as u64
}

/// Eviction treats all four sides alike: for a window that no clamp has cut,
/// a chunk is beyond the margin exactly when, on some axis, it lies more than
/// the half-extent plus the margin away from the viewpoint.
pub proof fn lemma_eviction_symmetric(
    v: ChunkCoord,
    half_x: u32,
    half_y: u32,
    min_chunk: u32,
    max_chunk: u32,
    margin: u32,
    c: ChunkCoord,
)
    requires
        v.x - half_x >= min_chunk,
        v.y - half_y >= min_chunk,
        v.x + half_x <= max_chunk,
        v.y + half_y <= max_chunk,
    ensures
        beyond_margin(active_window_of(v, half_x, half_y, min_chunk, max_chunk), c, margin) <==> (
        abs_diff(c.x, v.x) > half_x + margin || abs_diff(c.y, v.y) > half_y + margin),
{
}

/// The distance between two values on one axis.
pub open spec fn abs_diff(a: u32, b: u32) -> int {
    if a >= b { a - b } else { b - a }
}

/// A window that no clamp has cut is exactly the coordinates `c` with
/// `v - half <= c < v + half` on each axis.
pub proof fn lemma_window_unclamped(
    v: ChunkCoord,
    half_x: u32,
    half_y: u32,
    min_chunk: u32,
    max_chunk: u32,
    c: ChunkCoord,
)
    requires
        v.x - half_x >= min_chunk,
        v.y - half_y >= min_chunk,
        v.x + half_x <= max_chunk,
        v.y + half_y <= max_chunk,
    ensures
        in_window(active_window_of(v, half_x, half_y, min_chunk, max_chunk), c) <==> (
        v.x - half_x <= c.x < v.x + half_x && v.y - half_y <= c.y < v.y + half_y),
{
}

} // verus!
