use vstd::prelude::*;

verus! {

/// Sub-pixel steps per pixel in a fixed-point coordinate.
pub const SUBPIXEL: i64 = 32;

/// Smallest scaled coordinate that still has an `i16` pixel part.
pub const SCALED_MIN: i64 = -1048576;

/// Largest scaled coordinate that still has an `i16` pixel part.
pub const SCALED_MAX: i64 = 1048575;

/// One displacement map: a source coordinate per output pixel, row by row,
/// each given in thirty-seconds of a pixel.
pub struct DisplacementMap {
    pub width: usize,
    pub height: usize,
    pub values: Vec<i32>,
}

/// A source location: whole pixel plus a fraction in thirty-seconds.
#[derive(Clone, Copy, Debug, PartialEq, Eq, Structural)]
pub struct FixedPoint {
    pub x: i16,
    pub y: i16,
    pub fx: u8,
    pub fy: u8,
}

/// Source locations for every output pixel, row by row.
pub struct LookupTable {
    pub width: usize,
    pub height: usize,
    pub entries: Vec<FixedPoint>,
}

#[derive(Clone, Copy, Debug, PartialEq, Eq, Structural)]
pub enum PrepError {
    /// Both maps are present but differ in size, or a map's values do not fill its size.
    SizeMismatch,
}

pub open spec fn clamp_scaled(v: int) -> int {
    if v < SCALED_MIN {
        SCALED_MIN as int
    } else if v > SCALED_MAX {
        SCALED_MAX as int
    } else {
        v
    }
}

/// The fixed-point location a pair of scaled coordinates stands for,
/// saturated to the range of an `i16` pixel part.
pub open spec fn fixed_of(vx: int, vy: int) -> FixedPoint {
    FixedPoint {
        x: (clamp_scaled(vx) / 32) as i16,
        y: (clamp_scaled(vy) / 32) as i16,
        fx: (clamp_scaled(vx) % 32) as u8,
        fy: (clamp_scaled(vy) % 32) as u8,
    }
}

impl DisplacementMap {
    pub open spec fn is_empty_map(&self) -> bool {
        self.values@.len() == 0
    }

    pub open spec fn is_complete(&self) -> bool {
        self.values@.len() == self.width * self.height
    }
}

impl LookupTable {
    pub open spec fn wf(&self) -> bool {
        &&& self.entries@.len() == self.width * self.height
        &&& (self.entries@.len() == 0 ==> self.width == 0 && self.height == 0)
        &&& forall|i: int| 0 <= i < self.entries@.len() ==> #[trigger] self.entries@[i].fx < 32
            && self.entries@[i].fy < 32
    }

    pub open spec fn is_empty_table(&self) -> bool {
        self.entries@.len() == 0
    }

    /// The table with no entries, standing for absent maps.
    pub fn empty() -> (t: LookupTable)
        ensures
            t.wf(),
            t.is_empty_table(),
            t.width == 0,
            t.height == 0,
    {
        LookupTable { width: 0, height: 0, entries: Vec::new() }
    }

    pub fn is_empty(&self) -> (r: bool)
        ensures
            r == self.is_empty_table(),
    {
        self.entries.len() == 0
    }
}

/// Whether `prepare` succeeds on these maps.
pub open spec fn prepare_ok(mapx: &DisplacementMap, mapy: &DisplacementMap) -> bool {
    mapx.is_empty_map() || mapy.is_empty_map() || (mapx.width == mapy.width && mapx.height
        == mapy.height && mapx.is_complete() && mapy.is_complete())
}

/// Split a scaled coordinate into its pixel part and fraction, saturating.
fn to_fixed(vx: i32, vy: i32) -> (p: FixedPoint)
    ensures
        p == fixed_of(vx as int, vy as int),
        p.fx < 32,
        p.fy < 32,
{
    let cx: i64 = if (vx as i64) < SCALED_MIN {
        SCALED_MIN
    } else if (vx as i64) > SCALED_MAX {
        SCALED_MAX
    } else {
        vx as i64
    };
    let cy: i64 = if (vy as i64) < SCALED_MIN {
        SCALED_MIN
    } else if (vy as i64) > SCALED_MAX {
        SCALED_MAX
    } else {
        vy as i64
    };
    // Shift to non-negative so that division rounds toward negative infinity.
    let ux: i64 = cx - SCALED_MIN;
    let uy: i64 = cy - SCALED_MIN;
    proof {
        lemma_shifted_div(cx as int);
        lemma_shifted_div(cy as int);
    }
    let x = (ux / SUBPIXEL - 32768) as i16;
    let y = (uy / SUBPIXEL - 32768) as i16;
    let fx = (ux % SUBPIXEL) as u8;
    let fy = (uy % SUBPIXEL) as u8;
    FixedPoint { x, y, fx, fy }
}

proof fn lemma_shifted_div(c: int)
    requires
        SCALED_MIN <= c <= SCALED_MAX,
    ensures
        (c - SCALED_MIN) / 32 - 32768 == c / 32,
        (c - SCALED_MIN) % 32 == c % 32,
        -32768 <= c / 32 <= 32767,
        0 <= c % 32 < 32,
{
    let u = c - SCALED_MIN;
    assert(u == c + 32768 * 32);
    assert((c + 32768 * 32) / 32 == c / 32 + 32768) by {
        vstd::arithmetic::div_mod::lemma_fundamental_div_mod(c, 32);
        vstd::arithmetic::div_mod::lemma_fundamental_div_mod_converse(
            c + 32768 * 32,
            32,
            c / 32 + 32768,
            c % 32,
        );
    }
    assert((c + 32768 * 32) % 32 == c % 32) by {
        vstd::arithmetic::div_mod::lemma_fundamental_div_mod(c, 32);
        vstd::arithmetic::div_mod::lemma_fundamental_div_mod_converse(
            c + 32768 * 32,
            32,
            c / 32 + 32768,
            c % 32,
        );
    }
}

/// Turn a pair of displacement maps into a lookup table. An absent or empty map
/// gives the empty table.
pub fn prepare(mapx: &DisplacementMap, mapy: &DisplacementMap) -> (r: Result<
    LookupTable,
    PrepError,
>)
    ensures
        r.is_ok() <==> prepare_ok(mapx, mapy),
        r is Err ==> r->Err_0 == PrepError::SizeMismatch,
        r matches Ok(t) ==> {
            &&& t.wf()
            &&& (mapx.is_empty_map() || mapy.is_empty_map()) ==> t.is_empty_table()
            &&& !(mapx.is_empty_map() || mapy.is_empty_map()) ==> {
                &&& t.width == mapx.width
                &&& t.height == mapx.height
                &&& forall|i: int|
                    0 <= i < t.entries@.len() ==> #[trigger] t.entries@[i] == fixed_of(
                        mapx.values@[i] as int,
                        mapy.values@[i] as int,
                    )
            }
        },
{
    if mapx.values.len() == 0 || mapy.values.len() == 0 {
        return Ok(LookupTable::empty());
    }
    if mapx.width != mapy.width || mapx.height != mapy.height {
        return Err(PrepError::SizeMismatch);
    }
    let n = match mapx.width.checked_mul(mapx.height) {
        Some(n) => n,
        None => return Err(PrepError::SizeMismatch),
    };
    if mapx.values.len() != n || mapy.values.len() != n {
        return Err(PrepError::SizeMismatch);
    }
    let mut entries: Vec<FixedPoint> = Vec::with_capacity(n);
    let mut i: usize = 0;
    while i < n
        invariant
            n == mapx.values@.len(),
            n == mapy.values@.len(),
            i <= n,
            entries@.len() == i,
            forall|j: int|
                0 <= j < i ==> #[trigger] entries@[j] == fixed_of(
                    mapx.values@[j] as int,
                    mapy.values@[j] as int,
                ) && entries@[j].fx < 32 && entries@[j].fy < 32,
        decreases n - i,
    {
        let p = to_fixed(mapx.values[i], mapy.values[i]);
        entries.push(p);
        i = i + 1;
    }
    proof {
        if mapx.width == 0 || mapx.height == 0 {
            assert(mapx.width * mapx.height == 0) by (nonlinear_arith)
                requires mapx.width == 0 || mapx.height == 0;
        }
    }
    Ok(LookupTable { width: mapx.width, height: mapx.height, entries })
}

} // verus!
