//! Tile addressing and the web-mercator projection.
//!
//! The projection is computed in fixed-point integer arithmetic: positions
//! come in as micro-degrees and leave as pixel coordinates on the "world
//! bitmap", the square bitmap of `256 * 2^zoom` pixels per side that holds
//! the whole world at one zoom level.

use vstd::prelude::*;

use vstd::arithmetic::div_mod::lemma_div_is_ordered;
use vstd::arithmetic::div_mod::lemma_div_is_ordered_by_denominator;
use vstd::arithmetic::div_mod::lemma_div_multiples_vanish;
use vstd::arithmetic::div_mod::lemma_fundamental_div_mod;
use vstd::arithmetic::div_mod::lemma_multiply_divide_lt;
use vstd::arithmetic::mul::lemma_mul_inequality;
use vstd::arithmetic::mul::lemma_mul_upper_bound;
use vstd::arithmetic::power2::lemma2_to64;
use vstd::arithmetic::power2::lemma_pow2_adds;
use vstd::arithmetic::power2::lemma_pow2_pos;
use vstd::arithmetic::power2::lemma_pow2_strictly_increases;
use vstd::arithmetic::power2::pow2;

use crate::map::MAX_ZOOM;
use crate::position::Position;
use crate::position::LON_LIMIT_MICRO;

verus! {

/// Tiles are square bitmaps of this many pixels on a side.
pub const TILE_SIZE: u32 = 256;

/// Coordinate of one tile in the tile pyramid.
///
/// At zoom level `z` the world is divided into a `2^z * 2^z` grid of tiles;
/// `x` grows eastward from the antimeridian and `y` grows southward from the
/// north edge of the mercator square.
#[derive(Debug, Clone, Copy, PartialEq, Eq, Structural)]
pub struct TileId {
    pub x: u32,
    pub y: u32,
    pub zoom: u8,
}

/// Number of tiles per side of the pyramid at `zoom`: `2^zoom`.
pub open spec fn spec_tiles_per_side(zoom: nat) -> int {
    pow2(zoom) as int
}

/// Pixels per side of the world bitmap at `zoom`: `256 * 2^zoom`.
pub open spec fn world_size(zoom: nat) -> int {
    256 * (pow2(zoom) as int)
}

/// `2^zoom`, computed by doubling.
pub fn tiles_per_side(zoom: u8) -> (r: u32)
    requires
        zoom <= MAX_ZOOM,
    ensures
        r == spec_tiles_per_side(zoom as nat),
        1 <= r <= 0x80000,
{
    let mut i: u8 = 0;
    let mut p: u32 = 1;
    proof {
        lemma2_to64();
    }
    while i < zoom
        invariant
            i <= zoom <= MAX_ZOOM,
            p == pow2(i as nat),
        decreases zoom - i,
    {
        proof {
            lemma_pow2_adds(i as nat, 1);
            lemma_pow2_strictly_increases(i as nat, 19);
            lemma2_to64();
        }
        p = p * 2;
        i = i + 1;
    }
    proof {
        if (zoom as nat) < 19 {
            lemma_pow2_strictly_increases(zoom as nat, 19);
        }
        lemma2_to64();
    }
    p
}

/// `256 * 2^zoom`, the side of the world bitmap in pixels.
pub fn world_size_pixels(zoom: u8) -> (r: u32)
    requires
        zoom <= MAX_ZOOM,
    ensures
        r == world_size(zoom as nat),
        256 <= r <= 0x8000000,
{
    let p = tiles_per_side(zoom);
    256 * p
}

/// A pixel position on the world bitmap of one zoom level.
#[derive(Debug, Clone, Copy, PartialEq, Eq, Structural)]
pub struct Pixels {
    pub x: u32,
    pub y: u32,
}

/// An axis-aligned rectangle in screen pixels; `y` grows downward.
/// The bounds are inclusive on all four sides.
#[derive(Debug, Clone, Copy, PartialEq, Eq, Structural)]
pub struct PixelRect {
    pub min_x: i64,
    pub min_y: i64,
    pub max_x: i64,
    pub max_y: i64,
}

impl PixelRect {
    /// Two rectangles intersect when they share at least one point.
    pub open spec fn spec_intersects(self, other: PixelRect) -> bool {
        &&& self.min_x <= other.max_x
        &&& other.min_x <= self.max_x
        &&& self.min_y <= other.max_y
        &&& other.min_y <= self.max_y
    }

    /// Well-formed: the minimum corner is not past the maximum corner.
    pub open spec fn wf(self) -> bool {
        &&& self.min_x <= self.max_x
        &&& self.min_y <= self.max_y
    }

    /// All four coordinates lie within `[-bound, bound]`.
    pub open spec fn within(self, bound: int) -> bool {
        &&& -bound <= self.min_x <= bound
        &&& -bound <= self.min_y <= bound
        &&& -bound <= self.max_x <= bound
        &&& -bound <= self.max_y <= bound
    }

    /// Whether this rectangle and `other` share at least one point.
    pub fn intersects(&self, other: &PixelRect) -> (r: bool)
        ensures
            r == self.spec_intersects(*other),
    {
        self.min_x <= other.max_x && other.min_x <= self.max_x && self.min_y <= other.max_y
            && other.min_y <= self.max_y
    }
}

impl TileId {
    /// A tile address is valid when it lies inside the pyramid.
    pub open spec fn valid(self) -> bool {
        &&& self.zoom <= MAX_ZOOM
        &&& (self.x as int) < spec_tiles_per_side(self.zoom as nat)
        &&& (self.y as int) < spec_tiles_per_side(self.zoom as nat)
    }

    /// Pixel position of this tile's north-west corner on the world bitmap.
    pub fn position_on_world_bitmap(&self) -> (p: Pixels)
        requires
            self.valid(),
        ensures
            p.x == self.x * 256,
            p.y == self.y * 256,
            p.x < world_size(self.zoom as nat),
            p.y < world_size(self.zoom as nat),
    {
        proof {
            if (self.zoom as nat) < 19 {
                lemma_pow2_strictly_increases(self.zoom as nat, 19);
            }
            lemma2_to64();
        }
        Pixels { x: self.x * 256, y: self.y * 256 }
    }

    /// The tile directly north, unless this tile is on the north edge.
    pub open spec fn spec_north(self) -> Option<TileId> {
        if self.y == 0 {
            None
        } else {
            Some(TileId { x: self.x, y: (self.y - 1) as u32, zoom: self.zoom })
        }
    }

    /// The tile directly south, unless this tile is on the south edge.
    pub open spec fn spec_south(self) -> Option<TileId> {
        if self.y + 1 < spec_tiles_per_side(self.zoom as nat) {
            Some(TileId { x: self.x, y: (self.y + 1) as u32, zoom: self.zoom })
        } else {
            None
        }
    }

    /// The tile directly west, unless this tile is on the west edge.
    pub open spec fn spec_west(self) -> Option<TileId> {
        if self.x == 0 {
            None
        } else {
            Some(TileId { x: (self.x - 1) as u32, y: self.y, zoom: self.zoom })
        }
    }

    /// The tile directly east, unless this tile is on the east edge.
    pub open spec fn spec_east(self) -> Option<TileId> {
        if self.x + 1 < spec_tiles_per_side(self.zoom as nat) {
            Some(TileId { x: (self.x + 1) as u32, y: self.y, zoom: self.zoom })
        } else {
            None
        }
    }

    /// Neighbor to the north, with pyramid-boundary handling.
    pub fn north(&self) -> (r: Option<TileId>)
        requires
            self.valid(),
        ensures
            r == self.spec_north(),
            r matches Some(t) ==> t.valid(),
    {
        if self.y == 0 {
            None
        } else {
            Some(TileId { x: self.x, y: self.y - 1, zoom: self.zoom })
        }
    }

    /// Neighbor to the south, with pyramid-boundary handling.
    pub fn south(&self) -> (r: Option<TileId>)
        requires
            self.valid(),
        ensures
            r == self.spec_south(),
            r matches Some(t) ==> t.valid(),
    {
        let per_side = tiles_per_side(self.zoom);
        if self.y + 1 < per_side {
            Some(TileId { x: self.x, y: self.y + 1, zoom: self.zoom })
        } else {
            None
        }
    }

    /// Neighbor to the west, with pyramid-boundary handling.
    pub fn west(&self) -> (r: Option<TileId>)
        requires
            self.valid(),
        ensures
            r == self.spec_west(),
            r matches Some(t) ==> t.valid(),
    {
        if self.x == 0 {
            None
        } else {
            Some(TileId { x: self.x - 1, y: self.y, zoom: self.zoom })
        }
    }

    /// Neighbor to the east, with pyramid-boundary handling.
    pub fn east(&self) -> (r: Option<TileId>)
        requires
            self.valid(),
        ensures
            r == self.spec_east(),
            r matches Some(t) ==> t.valid(),
    {
        let per_side = tiles_per_side(self.zoom);
        if self.x + 1 < per_side {
            Some(TileId { x: self.x + 1, y: self.y, zoom: self.zoom })
        } else {
            None
        }
    }
}

/// Neighbor symmetry: for a tile away from the pyramid edge, going south
/// then north returns to the same tile, and so does going west then east.
pub proof fn lemma_neighbor_symmetry(t: TileId)
    requires
        t.valid(),
        0 < t.x,
        t.x + 1 < spec_tiles_per_side(t.zoom as nat),
        0 < t.y,
        t.y + 1 < spec_tiles_per_side(t.zoom as nat),
    ensures
        t.spec_south() matches Some(s) && s.spec_north() == Some(t),
        t.spec_west() matches Some(w) && w.spec_east() == Some(t),
{
    if (t.zoom as nat) < 19 {
        lemma_pow2_strictly_increases(t.zoom as nat, 19);
    }
    lemma2_to64();
}

/// The longitude leg of the forward projection: the world-bitmap `x` pixel
/// of a longitude, before the east-edge clamp.
pub open spec fn world_x_of(lon_micro: int, zoom: nat) -> int {
    (world_size(zoom) * (lon_micro + 180_000_000)) / 360_000_000
}

/// Longitude whose projection lands on the west edge of the world-bitmap
/// pixel column `x`: the inverse of the projection's longitude leg, up to
/// the width of one pixel.
pub open spec fn spec_unproject_x(x: int, zoom: nat) -> int {
    (x * 360_000_000) / world_size(zoom) - 180_000_000
}

/// Longitude of the west edge of world-bitmap pixel column `x`.
pub fn unproject_x(x: u32, zoom: u8) -> (lon: i64)
    requires
        zoom <= MAX_ZOOM,
        (x as int) < world_size(zoom as nat),
    ensures
        lon == spec_unproject_x(x as int, zoom as nat),
        -LON_LIMIT_MICRO <= lon < LON_LIMIT_MICRO,
{
    let ws = world_size_pixels(zoom) as u64;
    let scaled: u64 = (x as u64) * 360_000_000;
    proof {
        let w = ws as int;
        assert((x as int) * 360_000_000 <= (w - 1) * 360_000_000) by {
            lemma_mul_inequality(x as int, w - 1, 360_000_000);
        }
        assert((w - 1) * 360_000_000 < w * 360_000_000) by {
            vstd::arithmetic::mul::lemma_mul_is_distributive_sub_other_way(360_000_000, w, 1);
        }
        lemma_multiply_divide_lt(scaled as int, w, 360_000_000);
        vstd::arithmetic::div_mod::lemma_div_pos_is_pos(scaled as int, w);
    }
    let q: u64 = scaled / ws;
    (q as i64) - 180_000_000
}

/// Round trip of the projection's longitude leg: mapping a longitude to a
/// world-bitmap pixel column and back recovers the longitude, up to the
/// width of one pixel in micro-degrees.
pub proof fn lemma_unproject_project_x(lon: int, zoom: nat)
    requires
        zoom <= MAX_ZOOM,
        -180_000_000 <= lon < 180_000_000,
    ensures
        ({
            let back = spec_unproject_x(world_x_of(lon, zoom), zoom);
            &&& back <= lon
            &&& lon <= back + 360_000_000int / world_size(zoom) + 1
        }),
{
    let t = world_size(zoom);
    let c = 360_000_000int;
    let l = lon + 180_000_000;
    lemma_pow2_pos(zoom);
    assert(t >= 256);
    let a = t * l;
    lemma_mul_upper_bound(t, t, l, c);
    assert(a >= 0) by {
        lemma_mul_inequality(0, l, t);
    }
    let x = a / c;
    // x * c == a - (a % c)
    lemma_fundamental_div_mod(a, c);
    let r = a % c;
    assert(x * c == a - r);
    let back_plus = (x * c) / t;
    // upper direction: x * c <= a  ==>  (x * c) / t <= l
    lemma_div_is_ordered(x * c, a, t);
    lemma_div_multiples_vanish(l, t);
    assert((t * l) / t == l);
    assert(back_plus <= l);
    // lower direction: x * c == t * l - r
    lemma_fundamental_div_mod(x * c, t);
    let rr = (x * c) % t;
    assert(back_plus * t == t * l - r - rr);
    // l - back_plus == (r + rr) / t, and r + rr <= c - 1 + t - 1
    assert(t * (l - back_plus) == r + rr) by {
        assert(back_plus * t == t * back_plus) by {
            vstd::arithmetic::mul::lemma_mul_is_commutative(back_plus, t);
        }
        assert(t * l - t * back_plus == t * (l - back_plus)) by {
            vstd::arithmetic::mul::lemma_mul_is_distributive_sub(t, l, back_plus);
        }
    }
    // bound l - back_plus by c / t + 1, comparing after scaling by t
    let d = c / t;
    lemma_fundamental_div_mod(c, t);
    assert(t * d == c - c % t);
    assert(t * (d + 1) == c - c % t + t) by {
        vstd::arithmetic::mul::lemma_mul_is_distributive_add(t, d, 1);
    }
    assert(c % t < t) by {
        vstd::arithmetic::div_mod::lemma_mod_bound(c, t);
    }
    assert(t * (d + 1) >= c + 1);
    assert(r + rr <= c - 1 + t - 1);
    // t * (l - back_plus) == r + rr and r + rr is a multiple of t plus r
    // rr == (t - r % t) % t, so r + rr == t * ceil(r / t) <= c - 1 + t - 1
    // conclude by comparing multiples of t
    if l - back_plus > d + 1 {
        assert(l - back_plus >= d + 2);
        assert(t * (l - back_plus) >= t * (d + 2)) by {
            lemma_mul_inequality(d + 2, l - back_plus, t);
            vstd::arithmetic::mul::lemma_mul_is_commutative(l - back_plus, t);
            vstd::arithmetic::mul::lemma_mul_is_commutative(d + 2, t);
        }
        assert(t * (d + 2) == t * (d + 1) + t) by {
            vstd::arithmetic::mul::lemma_mul_is_distributive_add(t, d + 1, 1);
        }
        assert(t * (d + 2) >= c + 1 + t);
        assert(r + rr >= c + 1 + t);
        assert(false);
    }
}

/// pi scaled by 2^32.
pub const PI_Q32: u128 = 13_493_037_704;

/// ln(2) scaled by 2^32.
pub const LN2_Q32: u128 = 2_977_044_471;

/// 1/(2*pi) scaled by 2^32.
pub const INV_TWO_PI_Q32: u128 = 683_565_275;

/// sin of the mercator latitude limit scaled by 2^32; the sine of any
/// latitude within the mercator-valid range stays at or below this value.
pub const SIN_LIMIT_Q32: u128 = 4_278_955_980;

/// One as a binary fraction scaled by 2^32.
pub const ONE_Q32: u128 = 0x1_0000_0000;

/// One half as a binary fraction scaled by 2^32.
pub const HALF_Q32: u128 = 0x8000_0000;

/// The product of two bounded non-negative values, divided by a positive
/// value, is bounded by the product of the bounds divided the same way.
proof fn lemma_muldiv_bound(a: int, amax: int, b: int, bmax: int, d: int)
    requires
        0 <= a <= amax,
        0 <= b <= bmax,
        0 < d,
    ensures
        0 <= a * b <= amax * bmax,
        0 <= (a * b) / d <= (amax * bmax) / d,
{
    lemma_mul_upper_bound(a, amax, b, bmax);
    vstd::arithmetic::mul::lemma_mul_nonnegative(a, b);
    lemma_div_is_ordered(a * b, amax * bmax, d);
    vstd::arithmetic::div_mod::lemma_div_pos_is_pos(a * b, d);
}

/// A value at least a multiple of the divisor divides to at least that
/// multiplier: `x >= d * c` implies `x / d >= c`.
proof fn lemma_div_ge_multiple(x: int, c: int, d: int)
    requires
        0 < d,
        d * c <= x,
    ensures
        c <= x / d,
{
    lemma_div_is_ordered(d * c, x, d);
    lemma_div_multiples_vanish(c, d);
}

/// One step of the mantissa-squaring loop of the base-two logarithm:
/// square in Q32 and renormalize into `[1, 2)`.
pub open spec fn spec_square_mm(mm: int) -> int {
    let sq = (mm * mm) / 0x1_0000_0000;
    if sq >= 0x2_0000_0000 {
        sq / 2
    } else {
        sq
    }
}

/// The logarithm bit one squaring step emits: 1 when the square left
/// `[1, 2)`.
pub open spec fn spec_square_bit(mm: int) -> int {
    if (mm * mm) / 0x1_0000_0000 >= 0x2_0000_0000 {
        1
    } else {
        0
    }
}

/// The mantissa after `n` squaring steps.
pub open spec fn spec_mm_after(mm: int, n: nat) -> int
    decreases n,
{
    if n == 0 {
        mm
    } else {
        spec_square_mm(spec_mm_after(mm, (n - 1) as nat))
    }
}

/// The binary fraction (as an `n`-bit integer) accumulated by `n` squaring
/// steps: the first `n` fraction bits of the base-two logarithm of `mm`.
pub open spec fn spec_frac_after(mm: int, n: nat) -> int
    decreases n,
{
    if n == 0 {
        0
    } else {
        2 * spec_frac_after(mm, (n - 1) as nat) + spec_square_bit(spec_mm_after(mm, (n - 1) as nat))
    }
}

/// The binary exponent of `r`, searched upward from `k`: the first `k`
/// with `r < 2 * 2^k` (stopping at 64).
pub open spec fn spec_log2_from(r: int, k: nat) -> nat
    decreases 64 - k,
{
    if k >= 64 {
        64
    } else if r < 2 * (pow2(k) as int) {
        k
    } else {
        spec_log2_from(r, k + 1)
    }
}

/// The latitude leg of the projection as one mathematical definition: the
/// fixed-point evaluation of the mercator ordinate `atanh(sin(latitude))`,
/// stage by stage — the sine series, the quotient `(1 + sin) / (1 - sin)`,
/// its base-two logarithm by normalization and repeated squaring, and the
/// final offset from the equator row. [`mercator_y_norm_q32`] computes
/// exactly this value.
pub open spec fn spec_mercator_y_norm_q32(lat_micro: int) -> int {
    let mag = if lat_micro < 0 {
        -lat_micro
    } else {
        lat_micro
    };
    let phi = (mag * (PI_Q32 as int)) / 180_000_000;
    let x2 = (phi * phi) / 0x1_0000_0000;
    let p3 = (phi * x2) / 0x1_0000_0000;
    let p5 = (p3 * x2) / 0x1_0000_0000;
    let p7 = (p5 * x2) / 0x1_0000_0000;
    let p9 = (p7 * x2) / 0x1_0000_0000;
    let p11 = (p9 * x2) / 0x1_0000_0000;
    let p13 = (p11 * x2) / 0x1_0000_0000;
    let p15 = (p13 * x2) / 0x1_0000_0000;
    let plus = phi + p5 / 120 + p9 / 362_880 + p13 / 6_227_020_800;
    let minus = p3 / 6 + p7 / 5040 + p11 / 39_916_800 + p15 / 1_307_674_368_000;
    let sin_raw = if plus >= minus {
        plus - minus
    } else {
        0
    };
    let s = if sin_raw > (SIN_LIMIT_Q32 as int) {
        SIN_LIMIT_Q32 as int
    } else {
        sin_raw
    };
    let num = 0x1_0000_0000 + s;
    let den = 0x1_0000_0000 - s;
    let ratio = (num * 0x1_0000_0000) / den;
    let k = spec_log2_from(ratio, 32);
    let m = (ratio * 0x1_0000_0000) / (pow2(k) as int);
    let frac = spec_frac_after(m, 32);
    let log2_q32 = (k - 32) * 0x1_0000_0000 + frac;
    let ln_q32 = (log2_q32 * (LN2_Q32 as int)) / 0x1_0000_0000;
    let atanh_q32 = ln_q32 / 2;
    let off = (atanh_q32 * (INV_TWO_PI_Q32 as int)) / 0x1_0000_0000;
    if lat_micro < 0 {
        let south = 0x8000_0000 + off;
        if south > 0xFFFF_FFFF {
            0xFFFF_FFFF
        } else {
            south
        }
    } else {
        if off >= 0x8000_0000 {
            0
        } else {
            0x8000_0000 - off
        }
    }
}

/// The latitude leg of the forward projection: the vertical position of a
/// latitude on the mercator square, as a binary fraction of the square's
/// height scaled by 2^32 (0 is the north edge, 2^31 the equator). The
/// result is exactly [`spec_mercator_y_norm_q32`] of the latitude.
#[verifier::spinoff_prover]
#[verifier::rlimit(50)]
fn mercator_y_norm_q32(lat_micro: i64) -> (y: u64)
    requires
        -85_051_128 <= lat_micro <= 85_051_128,
    ensures
        y as int == spec_mercator_y_norm_q32(lat_micro as int),
        y < 0x1_0000_0000,
        lat_micro == 0 ==> y == 0x8000_0000,
        lat_micro >= 0 ==> y <= 0x8000_0000,
        lat_micro <= 0 ==> y >= 0x8000_0000,
{
    let neg: bool = lat_micro < 0;
    let mag: u128 = if lat_micro < 0 {
        (-lat_micro) as u128
    } else {
        lat_micro as u128
    };
    // latitude in radians, scaled by 2^32
    let phi: u128 = mag * PI_Q32 / 180_000_000;
    assert(phi < 0x2_0000_0000);
    // phi squared, still scaled by 2^32
    proof {
        lemma_muldiv_bound(phi as int, 0x2_0000_0000, phi as int, 0x2_0000_0000, 0x1_0000_0000);
    }
    let x2: u128 = phi * phi / ONE_Q32;
    assert(x2 <= 0x4_0000_0000);
    // odd powers of phi, scaled by 2^32
    proof {
        lemma_muldiv_bound(phi as int, 0x2_0000_0000, x2 as int, 0x4_0000_0000, 0x1_0000_0000);
    }
    let p3: u128 = phi * x2 / ONE_Q32;
    assert(p3 <= 0x8_0000_0000);
    proof {
        lemma_muldiv_bound(p3 as int, 0x8_0000_0000, x2 as int, 0x4_0000_0000, 0x1_0000_0000);
    }
    let p5: u128 = p3 * x2 / ONE_Q32;
    assert(p5 <= 0x20_0000_0000);
    proof {
        lemma_muldiv_bound(p5 as int, 0x20_0000_0000, x2 as int, 0x4_0000_0000, 0x1_0000_0000);
    }
    let p7: u128 = p5 * x2 / ONE_Q32;
    assert(p7 <= 0x80_0000_0000);
    proof {
        lemma_muldiv_bound(p7 as int, 0x80_0000_0000, x2 as int, 0x4_0000_0000, 0x1_0000_0000);
    }
    let p9: u128 = p7 * x2 / ONE_Q32;
    assert(p9 <= 0x200_0000_0000);
    proof {
        lemma_muldiv_bound(p9 as int, 0x200_0000_0000, x2 as int, 0x4_0000_0000, 0x1_0000_0000);
    }
    let p11: u128 = p9 * x2 / ONE_Q32;
    assert(p11 <= 0x800_0000_0000);
    proof {
        lemma_muldiv_bound(p11 as int, 0x800_0000_0000, x2 as int, 0x4_0000_0000, 0x1_0000_0000);
    }
    let p13: u128 = p11 * x2 / ONE_Q32;
    assert(p13 <= 0x2000_0000_0000);
    proof {
        lemma_muldiv_bound(p13 as int, 0x2000_0000_0000, x2 as int, 0x4_0000_0000, 0x1_0000_0000);
    }
    let p15: u128 = p13 * x2 / ONE_Q32;
    assert(p15 <= 0x8000_0000_0000);
    // alternating sine series: sin = phi - phi^3/3! + phi^5/5! - ...
    let plus: u128 = phi + p5 / 120 + p9 / 362_880 + p13 / 6_227_020_800;
    let minus: u128 = p3 / 6 + p7 / 5040 + p11 / 39_916_800 + p15 / 1_307_674_368_000;
    let sin_raw: u128 = if plus >= minus {
        plus - minus
    } else {
        0
    };
    // the series keeps the sine within the mercator-valid range on its own;
    // the clamp makes the bound needed below locally evident
    let s: u128 = if sin_raw > SIN_LIMIT_Q32 {
        SIN_LIMIT_Q32
    } else {
        sin_raw
    };
    // atanh(s) = ln((1 + s) / (1 - s)) / 2
    let num: u128 = ONE_Q32 + s;
    let den: u128 = ONE_Q32 - s;
    assert(den >= 16_011_316);
    let rnum: u128 = num * ONE_Q32;
    proof {
        lemma_div_is_ordered_by_denominator(rnum as int, 16_011_316, den as int);
        vstd::arithmetic::div_mod::lemma_div_pos_is_pos(rnum as int, den as int);
        lemma_div_ge_multiple(rnum as int, 0x1_0000_0000, den as int);
        assert(den as int * 0x1_0000_0000 <= rnum as int) by {
            lemma_mul_inequality(den as int, num as int, 0x1_0000_0000);
        }
    }
    let ratio: u128 = rnum / den;
    assert(ratio >= 0x1_0000_0000);
    assert(ratio < 0x400_0000_0000);
    // normalize: find k with 2^k <= ratio < 2^(k+1)
    let mut k: u64 = 32;
    let mut pw: u128 = ONE_Q32;
    proof {
        lemma2_to64();
    }
    while ratio >= 2 * pw
        invariant
            32 <= k <= 41,
            pw == pow2(k as nat),
            pw <= ratio < 0x400_0000_0000,
            ratio == 0x1_0000_0000 ==> k == 32,
            spec_log2_from(ratio as int, 32) == spec_log2_from(ratio as int, k as nat),
        decreases 42 - k,
    {
        proof {
            lemma_pow2_adds(k as nat, 1);
            lemma2_to64();
            if k + 1 > 41 {
                assert(k == 41);
                assert(pow2(42) == 0x400_0000_0000) by {
                    vstd::arithmetic::power2::lemma2_to64_rest();
                }
                assert(false);
            }
            assert(spec_log2_from(ratio as int, k as nat) == spec_log2_from(
                ratio as int,
                (k + 1) as nat,
            ));
        }
        pw = 2 * pw;
        k = k + 1;
    }
    proof {
        assert(spec_log2_from(ratio as int, k as nat) == k as nat);
        assert(spec_log2_from(ratio as int, 32) == k as nat);
    }
    // mantissa in [1, 2), scaled by 2^32
    let mnum: u128 = ratio * ONE_Q32;
    proof {
        lemma_div_ge_multiple(mnum as int, 0x1_0000_0000, pw as int);
        assert(pw as int * 0x1_0000_0000 <= mnum as int) by {
            lemma_mul_inequality(pw as int, ratio as int, 0x1_0000_0000);
        }
        assert((mnum as int) < (pw as int) * 0x2_0000_0000) by (nonlinear_arith)
            requires
                (ratio as int) < 2 * (pw as int),
                (mnum as int) == (ratio as int) * 0x1_0000_0000,
        ;
        lemma_multiply_divide_lt(mnum as int, pw as int, 0x2_0000_0000);
    }
    let m: u128 = mnum / pw;
    assert(0x1_0000_0000 <= m < 0x2_0000_0000);
    // binary digits of log2(m): square the mantissa 32 times
    let mut frac: u128 = 0;
    let mut mm: u128 = m;
    let mut i: u64 = 0;
    while i < 32
        invariant
            i <= 32,
            0x1_0000_0000 <= mm < 0x2_0000_0000,
            frac < pow2(i as nat),
            m == 0x1_0000_0000 ==> (mm == 0x1_0000_0000 && frac == 0),
            mm as int == spec_mm_after(m as int, i as nat),
            frac as int == spec_frac_after(m as int, i as nat),
        decreases 32 - i,
    {
        proof {
            lemma_muldiv_bound(mm as int, 0x1_FFFF_FFFF, mm as int, 0x1_FFFF_FFFF, 0x1_0000_0000);
            assert(0x1_0000_0000int * 0x1_0000_0000 <= (mm as int) * (mm as int)) by {
                lemma_mul_inequality(0x1_0000_0000, mm as int, mm as int);
                lemma_mul_inequality(0x1_0000_0000, mm as int, 0x1_0000_0000);
                vstd::arithmetic::mul::lemma_mul_is_commutative(mm as int, 0x1_0000_0000);
            }
            lemma_div_ge_multiple((mm as int) * (mm as int), 0x1_0000_0000, 0x1_0000_0000);
            lemma_pow2_adds(i as nat, 1);
            lemma2_to64();
            assert(spec_mm_after(m as int, (i + 1) as nat) == spec_square_mm(
                spec_mm_after(m as int, i as nat),
            ));
            assert(spec_frac_after(m as int, (i + 1) as nat) == 2 * spec_frac_after(
                m as int,
                i as nat,
            ) + spec_square_bit(spec_mm_after(m as int, i as nat)));
        }
        let sq: u128 = mm * mm / ONE_Q32;
        assert(0x1_0000_0000 <= sq < 0x4_0000_0000);
        if sq >= 2 * ONE_Q32 {
            mm = sq / 2;
            frac = frac * 2 + 1;
        } else {
            mm = sq;
            frac = frac * 2;
        }
        i = i + 1;
    }
    proof {
        lemma2_to64();
    }
    assert(frac < 0x1_0000_0000);
    // log2(ratio / 2^32), scaled by 2^32
    let log2_q32: u128 = (k - 32) as u128 * ONE_Q32 + frac;
    assert(log2_q32 < 0xA_0000_0000);
    // natural logarithm, then atanh = ln / 2
    let ln_q32: u128 = log2_q32 * LN2_Q32 / ONE_Q32;
    proof {
        lemma_muldiv_bound(
            log2_q32 as int,
            0xA_0000_0000,
            LN2_Q32 as int,
            LN2_Q32 as int,
            0x1_0000_0000,
        );
    }
    let atanh_q32: u128 = ln_q32 / 2;
    assert(atanh_q32 < 0x3_8000_0000);
    // offset from the equator: atanh(sin) / (2 * pi) of the square's height
    let off: u128 = atanh_q32 * INV_TWO_PI_Q32 / ONE_Q32;
    proof {
        lemma_muldiv_bound(
            atanh_q32 as int,
            0x3_8000_0000,
            INV_TWO_PI_Q32 as int,
            INV_TWO_PI_Q32 as int,
            0x1_0000_0000,
        );
    }
    assert(off < 0x9000_0000);
    let y128: u128 = if neg {
        let south: u128 = HALF_Q32 + off;
        if south > 0xFFFF_FFFF {
            0xFFFF_FFFF
        } else {
            south
        }
    } else {
        if off >= HALF_Q32 {
            0
        } else {
            HALF_Q32 - off
        }
    };
    proof {
        if lat_micro == 0 {
            assert(mag == 0);
            assert(phi == 0) by {
                vstd::arithmetic::div_mod::lemma_div_of0(180_000_000);
            }
        }
        assert(y128 as int == spec_mercator_y_norm_q32(lat_micro as int));
    }
    y128 as u64
}

/// The world-bitmap pixel column of a longitude, with the east edge
/// clamped onto the last column.
pub open spec fn spec_project_x(lon_micro: int, zoom: nat) -> int {
    if world_x_of(lon_micro, zoom) < world_size(zoom) {
        world_x_of(lon_micro, zoom)
    } else {
        world_size(zoom) - 1
    }
}

/// The world-bitmap pixel row of a latitude: the world size scaled by the
/// fixed-point mercator ordinate.
pub open spec fn spec_world_y_of(lat_micro: int, zoom: nat) -> int {
    (world_size(zoom) * spec_mercator_y_norm_q32(lat_micro)) / 0x1_0000_0000
}

/// The tile containing a position: its projected pixel, floor-divided by
/// the tile size.
pub open spec fn spec_tile_id(lon_micro: int, lat_micro: int, zoom: nat) -> TileId {
    TileId {
        x: (spec_project_x(lon_micro, zoom) / 256) as u32,
        y: (spec_world_y_of(lat_micro, zoom) / 256) as u32,
        zoom: zoom as u8,
    }
}

/// The world-bitmap pixel row of a latitude at `zoom`: exactly
/// [`spec_world_y_of`], always inside the bitmap, the equator on the
/// middle row, northern latitudes at or above it, southern at or below.
pub fn world_row(lat_micro: i64, zoom: u8) -> (r: u32)
    requires
        zoom <= MAX_ZOOM,
        -85_051_128 <= lat_micro <= 85_051_128,
    ensures
        r as int == spec_world_y_of(lat_micro as int, zoom as nat),
        (r as int) < world_size(zoom as nat),
        lat_micro == 0 ==> r as int == world_size(zoom as nat) / 2,
        lat_micro >= 0 ==> r as int <= world_size(zoom as nat) / 2,
        lat_micro <= 0 ==> r as int >= world_size(zoom as nat) / 2,
{
    let ws = world_size_pixels(zoom);
    let wsl = ws as u64;
    let ynorm: u64 = mercator_y_norm_q32(lat_micro);
    proof {
        lemma_mul_upper_bound(wsl as int, 0x8000000, ynorm as int, 0xFFFF_FFFF);
        vstd::arithmetic::mul::lemma_mul_nonnegative(wsl as int, ynorm as int);
    }
    let ynum: u128 = (wsl as u128) * (ynorm as u128);
    let py128: u128 = ynum / 0x1_0000_0000;
    proof {
        // the row stays inside the bitmap
        assert((ynum as int) < (wsl as int) * 0x1_0000_0000) by {
            vstd::arithmetic::mul::lemma_mul_strict_inequality(
                ynorm as int,
                0x1_0000_0000,
                wsl as int,
            );
            vstd::arithmetic::mul::lemma_mul_is_commutative(ynorm as int, wsl as int);
        }
        lemma_multiply_divide_lt(ynum as int, 0x1_0000_0000, wsl as int);
        // ws * 2^31 == (ws / 2) * 2^32, since ws is even
        let h = (wsl as int) / 2;
        assert(wsl as int == 2 * h);
        assert((wsl as int) * 0x8000_0000 == h * 0x1_0000_0000) by (nonlinear_arith)
            requires
                wsl as int == 2 * h,
        ;
        if ynorm == 0x8000_0000 {
            assert(ynum as int == h * 0x1_0000_0000);
            lemma_div_multiples_vanish(h, 0x1_0000_0000);
            assert(0x1_0000_0000int * h == h * 0x1_0000_0000) by {
                vstd::arithmetic::mul::lemma_mul_is_commutative(0x1_0000_0000int, h);
            }
        }
        if ynorm <= 0x8000_0000 {
            assert(ynum as int <= h * 0x1_0000_0000) by {
                lemma_mul_inequality(ynorm as int, 0x8000_0000, wsl as int);
                vstd::arithmetic::mul::lemma_mul_is_commutative(ynorm as int, wsl as int);
            }
            lemma_div_is_ordered(ynum as int, h * 0x1_0000_0000, 0x1_0000_0000);
            lemma_div_multiples_vanish(h, 0x1_0000_0000);
            assert(0x1_0000_0000int * h == h * 0x1_0000_0000) by {
                vstd::arithmetic::mul::lemma_mul_is_commutative(0x1_0000_0000int, h);
            }
        }
        if ynorm >= 0x8000_0000 {
            assert(h * 0x1_0000_0000 <= ynum as int) by {
                lemma_mul_inequality(0x8000_0000, ynorm as int, wsl as int);
                vstd::arithmetic::mul::lemma_mul_is_commutative(ynorm as int, wsl as int);
            }
            lemma_div_is_ordered(h * 0x1_0000_0000, ynum as int, 0x1_0000_0000);
            lemma_div_multiples_vanish(h, 0x1_0000_0000);
            assert(0x1_0000_0000int * h == h * 0x1_0000_0000) by {
                vstd::arithmetic::mul::lemma_mul_is_commutative(0x1_0000_0000int, h);
            }
        }
    }
    py128 as u32
}

impl Position {
    /// Forward spherical-mercator projection of this position onto the
    /// world bitmap at `zoom`, scaled by `256 * 2^zoom`: exactly
    /// [`spec_project_x`] and [`spec_world_y_of`] of its coordinates.
    ///
    /// The longitude leg is exact integer arithmetic; the latitude leg is
    /// the fixed-point mercator ordinate of [`mercator_y_norm_q32`]. The
    /// east edge of the bitmap is clamped to the last pixel column.
    pub fn project(&self, zoom: u8) -> (p: Pixels)
        requires
            zoom <= MAX_ZOOM,
            self.mercator_valid(),
        ensures
            p.x as int == spec_project_x(self.lon() as int, zoom as nat),
            p.y as int == spec_world_y_of(self.lat() as int, zoom as nat),
            (p.x as int) < world_size(zoom as nat),
            (p.y as int) < world_size(zoom as nat),
            self.lon() < LON_LIMIT_MICRO ==> p.x as int == world_x_of(self.lon() as int, zoom as nat),
            self.lon() == LON_LIMIT_MICRO ==> p.x as int == world_size(zoom as nat) - 1,
            self.lat() == 0 ==> p.y as int == world_size(zoom as nat) / 2,
            self.lat() >= 0 ==> p.y as int <= world_size(zoom as nat) / 2,
            self.lat() <= 0 ==> p.y as int >= world_size(zoom as nat) / 2,
    {
        let ws = world_size_pixels(zoom);
        let wsl = ws as u64;
        // longitude: ws * (lon + 180e6) / 360e6
        let lon = self.x();
        let shifted: u64 = (lon + 180_000_000) as u64;
        proof {
            lemma_mul_upper_bound(wsl as int, 0x8000000, shifted as int, 360_000_000);
            vstd::arithmetic::mul::lemma_mul_nonnegative(wsl as int, shifted as int);
        }
        let xnum: u64 = wsl * shifted;
        let px: u64 = xnum / 360_000_000;
        proof {
            if shifted < 360_000_000 {
                assert((xnum as int) < (wsl as int) * 360_000_000) by {
                    vstd::arithmetic::mul::lemma_mul_strict_inequality(
                        shifted as int,
                        360_000_000,
                        wsl as int,
                    );
                    vstd::arithmetic::mul::lemma_mul_is_commutative(shifted as int, wsl as int);
                }
                lemma_multiply_divide_lt(xnum as int, 360_000_000, wsl as int);
                assert((xnum as int) / 360_000_000 == world_x_of(self.lon() as int, zoom as nat))
                    by {
                    vstd::arithmetic::mul::lemma_mul_is_commutative(wsl as int, shifted as int);
                }
            } else {
                assert(shifted == 360_000_000);
                assert(xnum as int == 360_000_000 * (wsl as int)) by {
                    vstd::arithmetic::mul::lemma_mul_is_commutative(wsl as int, shifted as int);
                }
                lemma_div_multiples_vanish(wsl as int, 360_000_000);
                assert(px == wsl);
                assert((xnum as int) / 360_000_000 == world_x_of(self.lon() as int, zoom as nat))
                    by {
                    vstd::arithmetic::mul::lemma_mul_is_commutative(wsl as int, shifted as int);
                }
            }
            assert(px as int == world_x_of(self.lon() as int, zoom as nat));
        }
        let pxc: u32 = if px >= wsl {
            ws - 1
        } else {
            px as u32
        };
        let py: u32 = world_row(self.y(), zoom);
        Pixels { x: pxc, y: py }
    }

    /// Tile containing this position at `zoom`: the world-bitmap pixel
    /// floor-divided by the tile size — exactly [`spec_tile_id`] of the
    /// coordinates. The tile address is always valid.
    pub fn tile_id(&self, zoom: u8) -> (t: TileId)
        requires
            zoom <= MAX_ZOOM,
            self.mercator_valid(),
        ensures
            t == spec_tile_id(self.lon() as int, self.lat() as int, zoom as nat),
            t.valid(),
            t.zoom == zoom,
            self.lon() < LON_LIMIT_MICRO ==> t.x as int == world_x_of(self.lon() as int, zoom as nat) / 256,
    {
        let p = self.project(zoom);
        proof {
            lemma_pow2_pos(zoom as nat);
        }
        TileId { x: p.x / 256, y: p.y / 256, zoom }
    }
}

/// Latitude of a world-bitmap pixel row: the inverse of the projection's
/// latitude leg, found by bisection on the fixed-point ordinate and then
/// verified, so an answer provably projects back onto the requested row.
/// (Rows whose latitude the bisection fails to land on yield `None`.)
pub fn unproject_y(y: u32, zoom: u8) -> (r: Option<i64>)
    requires
        zoom <= MAX_ZOOM,
        (y as int) < world_size(zoom as nat),
    ensures
        r matches Some(lat) ==> {
            &&& -85_051_128 <= lat <= 85_051_128
            &&& spec_world_y_of(lat as int, zoom as nat) == y as int
        },
{
    let mut lo: i64 = -85_051_128;
    let mut hi: i64 = 85_051_128;
    let mut steps: u8 = 0;
    while steps < 60 && lo < hi
        invariant
            -85_051_128 <= lo <= 85_051_128,
            -85_051_128 <= hi <= 85_051_128,
            zoom <= MAX_ZOOM,
        decreases 60 - steps,
    {
        let mid: i64 = lo + (hi - lo) / 2;
        let row = world_row(mid, zoom);
        if row > y {
            // too far south on the bitmap: move north, toward greater latitudes
            lo = if mid < 85_051_128 {
                mid + 1
            } else {
                mid
            };
        } else if row < y {
            hi = if mid > -85_051_128 {
                mid - 1
            } else {
                mid
            };
        } else {
            lo = mid;
            hi = mid;
        }
        steps = steps + 1;
    }
    let row = world_row(lo, zoom);
    if row == y {
        Some(lo)
    } else {
        None
    }
}

/// Inverse-scale a screen-space drag vector (in pixels, `y` growing
/// downward) into a geographic offset in micro-degrees (east and north
/// positive), linearized at the scale of the projection's longitude leg.
pub open spec fn spec_screen_to_micro(d: int, zoom: nat) -> int {
    if d >= 0 {
        (d * 360_000_000) / world_size(zoom)
    } else {
        -(((-d) * 360_000_000) / world_size(zoom))
    }
}

/// Scale a screen-space drag vector into the geographic offset it spans:
/// the first component is micro-degrees of longitude (east positive), the
/// second micro-degrees of latitude (north positive).
pub fn screen_delta_to_position_delta(dx: i32, dy: i32, zoom: u8) -> (r: (i64, i64))
    requires
        zoom <= MAX_ZOOM,
    ensures
        r.0 == spec_screen_to_micro(dx as int, zoom as nat),
        r.1 == -spec_screen_to_micro(dy as int, zoom as nat),
        -0x10_0000_0000_0000 <= r.0 <= 0x10_0000_0000_0000,
        -0x10_0000_0000_0000 <= r.1 <= 0x10_0000_0000_0000,
{
    let ws = world_size_pixels(zoom) as u64;
    let mag_x: u64 = if dx >= 0 {
        dx as u64
    } else {
        (-(dx as i64)) as u64
    };
    proof {
        lemma_div_is_ordered_by_denominator((mag_x as int) * 360_000_000, 256, ws as int);
        vstd::arithmetic::div_mod::lemma_div_pos_is_pos((mag_x as int) * 360_000_000, ws as int);
        lemma_div_is_ordered((mag_x as int) * 360_000_000, 0x8000_0000int * 360_000_000, 256);
    }
    let sx: u64 = mag_x * 360_000_000 / ws;
    let rx: i64 = if dx >= 0 {
        sx as i64
    } else {
        -(sx as i64)
    };
    let mag_y: u64 = if dy >= 0 {
        dy as u64
    } else {
        (-(dy as i64)) as u64
    };
    proof {
        lemma_div_is_ordered_by_denominator((mag_y as int) * 360_000_000, 256, ws as int);
        vstd::arithmetic::div_mod::lemma_div_pos_is_pos((mag_y as int) * 360_000_000, ws as int);
        lemma_div_is_ordered((mag_y as int) * 360_000_000, 0x8000_0000int * 360_000_000, 256);
    }
    let sy: u64 = mag_y * 360_000_000 / ws;
    let ry: i64 = if dy >= 0 {
        -(sy as i64)
    } else {
        sy as i64
    };
    (rx, ry)
}

} // verus!
