use crate::math::{IVec2, IVec3};
use vstd::arithmetic::div_mod::{
    lemma_fundamental_div_mod, lemma_fundamental_div_mod_converse, lemma_mod_bound,
};
use vstd::arithmetic::power2::{lemma2_to64, lemma_pow2_strictly_increases, lemma_pow2_unfold, pow2};
use vstd::prelude::*;

verus! {

/// The largest number of doublings between samples.
pub const MAX_UPSAMPLING: i32 = 30;

/// The largest origin of a chunk along each axis, and the least its
/// negative, that a grid of samples can be laid over.
pub const MAX_ORIGIN: i32 = 0x4000_0000;

/// The largest buffer, in voxels along each axis, round the samples of a
/// field in space.
pub const MAX_BUFFER: i32 = 0xffff;

/// The distance between samples, in voxels: 2 to the power `upsampling`.
pub open spec fn spec_step(upsampling: int) -> int {
    pow2(upsampling as nat) as int
}

/// The sample at or below the world coordinate `world`.
pub open spec fn spec_sample_of(world: int, upsampling: int) -> int {
    world / spec_step(upsampling)
}

/// How far the world coordinate `world` lies above its sample, in voxels.
pub open spec fn spec_offset_of(world: int, upsampling: int) -> int {
    world % spec_step(upsampling)
}

/// The distance between samples is positive and at most 2 to the power 30.
pub proof fn lemma_step(upsampling: int)
    requires
        0 <= upsampling <= 30,
    ensures
        1 <= spec_step(upsampling) <= 0x4000_0000,
        upsampling <= 5 ==> spec_step(upsampling) <= 32 && 32int % spec_step(upsampling) == 0,
{
    lemma2_to64();
    if upsampling < 30 {
        lemma_pow2_strictly_increases(upsampling as nat, 30);
    }
    vstd::arithmetic::power2::lemma_pow2_pos(upsampling as nat);
    if upsampling == 0 {
        assert(spec_step(upsampling) == 1);
    } else if upsampling == 1 {
        assert(spec_step(upsampling) == 2);
    } else if upsampling == 2 {
        assert(spec_step(upsampling) == 4);
    } else if upsampling == 3 {
        assert(spec_step(upsampling) == 8);
    } else if upsampling == 4 {
        assert(spec_step(upsampling) == 16);
    } else if upsampling == 5 {
        assert(spec_step(upsampling) == 32);
    }
}

/// The distance between samples.
fn step_of(upsampling: i32) -> (step: i64)
    requires
        0 <= upsampling <= 30,
    ensures
        step == spec_step(upsampling as int),
        1 <= step <= 0x4000_0000,
{
    let mut step: i64 = 1;
    let mut k: i32 = 0;
    proof {
        lemma2_to64();
    }
    while k < upsampling
        invariant
            0 <= k <= upsampling <= 30,
            step == spec_step(k as int),
            1 <= step <= 0x4000_0000,
        decreases upsampling - k,
    {
        proof {
            lemma_pow2_unfold((k + 1) as nat);
            lemma_step(k + 1);
        }
        step = step * 2;
        k += 1;
    }
    step
}

/// The quotient of `value` by `step`, rounded down.
fn floor_div(value: i64, step: i64) -> (quotient: i64)
    requires
        -0x1_0000_0000 <= value <= 0x1_0000_0000,
        1 <= step <= 0x4000_0000,
    ensures
        quotient == value as int / step as int,
        -0x1_0000_0000 <= quotient <= 0x1_0000_0000,
{
    proof {
        lemma_quotient_bounds(value as int, step as int, 0x1_0000_0000);
    }
    if value >= 0 {
        value / step
    } else {
        let up: i64 = -value + step - 1;
        let q: i64 = up / step;
        proof {
            let r = (up as int) % (step as int);
            lemma_fundamental_div_mod(up as int, step as int);
            lemma_mod_bound(up as int, step as int);
            assert(value == (-q) * step + (step - 1 - r)) by (nonlinear_arith)
                requires
                    up == step * q + r,
                    up == -value + step - 1,
            ;
            lemma_fundamental_div_mod_converse(
                value as int,
                step as int,
                -(q as int),
                step - 1 - r,
            );
        }
        -q
    }
}

/// A square grid of samples of a field over the plane, laid over the
/// footprint of a chunk and a buffer round it.
#[derive(Clone, Copy, Debug)]
pub struct SampleGrid2D {
    upsampling: i32,
    min_point: IVec2,
    size: IVec2,
}

/// Where a world position lies among the samples of a plane: the places of
/// the four samples round it, and how far it lies from the first towards
/// the others.
#[derive(Clone, Copy, Debug, PartialEq, Eq, Structural)]
pub struct Corners2D {
    /// The place of the sample at or below the position on both axes.
    pub index_00: u64,
    /// The place of the next sample along x.
    pub index_10: u64,
    /// The place of the next sample along y.
    pub index_01: u64,
    /// The place of the next sample along both.
    pub index_11: u64,
    /// How far the position lies above its sample along x, in voxels.
    pub offset_x: i32,
    /// How far the position lies above its sample along y, in voxels.
    pub offset_y: i32,
    /// The distance between samples, in voxels.
    pub step: i32,
}

impl SampleGrid2D {
    /// The grid has at least one sample along each axis, and few enough
    /// to count them.
    #[verifier::type_invariant]
    spec fn valid(self) -> bool {
        &&& 0 <= self.upsampling <= 30
        &&& -0x8000_0000 <= self.min_point.x <= 0x4000_0000
        &&& -0x8000_0000 <= self.min_point.y <= 0x4000_0000
        &&& 1 <= self.size.x <= 0x2_0000
        &&& 1 <= self.size.y <= 0x2_0000
    }

    /// The number of doublings between samples.
    pub closed spec fn spec_upsampling(&self) -> int {
        self.upsampling as int
    }

    /// The sample with the least coordinates.
    pub closed spec fn spec_min_point(&self) -> IVec2 {
        self.min_point
    }

    /// The number of samples along each axis.
    pub closed spec fn spec_size(&self) -> IVec2 {
        self.size
    }

    /// Whether the grid holds the sample `point`.
    pub open spec fn contains(&self, point: IVec2) -> bool {
        &&& self.spec_min_point().x <= point.x < self.spec_min_point().x + self.spec_size().x
        &&& self.spec_min_point().y <= point.y < self.spec_min_point().y + self.spec_size().y
    }

    /// The place of the sample `point` in the list of samples: row by row,
    /// x ascending within a row.
    pub open spec fn spec_index_of(&self, point: IVec2) -> int {
        (point.x - self.spec_min_point().x) + (point.y - self.spec_min_point().y)
            * self.spec_size().x
    }

    /// Whether the grid holds the four samples round the world position
    /// `world`.
    pub open spec fn covers(&self, world: IVec2) -> bool {
        let x = spec_sample_of(world.x as int, self.spec_upsampling());
        let y = spec_sample_of(world.y as int, self.spec_upsampling());
        &&& self.spec_min_point().x <= x
        &&& x + 1 < self.spec_min_point().x + self.spec_size().x
        &&& self.spec_min_point().y <= y
        &&& y + 1 < self.spec_min_point().y + self.spec_size().y
    }

    /// Whether a grid of samples can be laid out as asked.
    pub open spec fn spec_can_make(
        upsampling: i32,
        chunk_origin: IVec2,
        buffer: Option<i16>,
    ) -> bool {
        &&& 0 <= upsampling <= MAX_UPSAMPLING
        &&& -MAX_ORIGIN <= chunk_origin.x <= MAX_ORIGIN
        &&& -MAX_ORIGIN <= chunk_origin.y <= MAX_ORIGIN
        &&& match buffer {
            Some(b) => 0 <= b,
            None => true,
        }
    }

    /// A grid over the chunk whose least corner is `chunk_origin`, with
    /// samples every 2 to the power `upsampling` voxels, from the sample
    /// at or below the origin to the one above the far edge of the chunk,
    /// and `buffer` more samples on every side.
    #[verifier::rlimit(50)]
    pub fn new(upsampling: i32, chunk_origin: IVec2, buffer: Option<i16>) -> (grid: SampleGrid2D)
        requires
            Self::spec_can_make(upsampling, chunk_origin, buffer),
        ensures
            grid.spec_upsampling() == upsampling,
            ({
                let b = match buffer {
                    Some(b) => b as int,
                    None => 0int,
                };
                let u = upsampling as int;
                &&& grid.spec_min_point().x == spec_sample_of(chunk_origin.x as int, u) - b
                &&& grid.spec_min_point().y == spec_sample_of(chunk_origin.y as int, u) - b
                &&& grid.spec_min_point().x + grid.spec_size().x == spec_sample_of(
                    chunk_origin.x + 32,
                    u,
                ) + 1 + b
                &&& grid.spec_min_point().y + grid.spec_size().y == spec_sample_of(
                    chunk_origin.y + 32,
                    u,
                ) + 1 + b
            }),
    {
        let b: i64 = match buffer {
            Some(b) => b as i64,
            None => 0,
        };
        let step: i64 = step_of(upsampling);
        let min_x: i64 = floor_div(chunk_origin.x as i64, step) - b;
        let min_y: i64 = floor_div(chunk_origin.y as i64, step) - b;
        let max_x: i64 = floor_div(chunk_origin.x as i64 + 32, step) + 1 + b;
        let max_y: i64 = floor_div(chunk_origin.y as i64 + 32, step) + 1 + b;
        proof {
            lemma_span(chunk_origin.x as int, 32, step as int);
            lemma_span(chunk_origin.y as int, 32, step as int);
            lemma_quotient_bounds(chunk_origin.x as int, step as int, 0x4000_0000);
            lemma_quotient_bounds(chunk_origin.y as int, step as int, 0x4000_0000);
        }
        SampleGrid2D {
            upsampling,
            min_point: IVec2::new(min_x as i32, min_y as i32),
            size: IVec2::new((max_x - min_x) as i32, (max_y - min_y) as i32),
        }
    }

    /// The number of samples.
    pub fn sample_count(&self) -> (count: u64)
        ensures
            count == self.spec_size().x * self.spec_size().y,
            count >= 1,
    {
        proof {
            use_type_invariant(self);
            assert(1 <= self.size.x * self.size.y <= 0x2_0000 * 0x2_0000) by (nonlinear_arith)
                requires
                    1 <= self.size.x <= 0x2_0000,
                    1 <= self.size.y <= 0x2_0000,
            ;
        }
        self.size.x as u64 * self.size.y as u64
    }

    /// The sample at place `index` of the list of samples.
    #[verifier::rlimit(50)]
    pub fn sample_point(&self, index: u64) -> (point: IVec2)
        requires
            index < self.spec_size().x * self.spec_size().y,
        ensures
            self.contains(point),
            self.spec_index_of(point) == index,
    {
        proof {
            use_type_invariant(self);
        }
        let width: u64 = self.size.x as u64;
        let column: u64 = index % width;
        let row: u64 = index / width;
        proof {
            lemma_fundamental_div_mod(index as int, width as int);
            vstd::arithmetic::div_mod::lemma_multiply_divide_lt(
                index as int,
                width as int,
                self.size.y as int,
            );
            assert(width * row == row * width) by (nonlinear_arith);
        }
        IVec2::new(
            (self.min_point.x as i64 + column as i64) as i32,
            (self.min_point.y as i64 + row as i64) as i32,
        )
    }

    /// The place of the sample `point` in the list of samples.
    pub fn index_of(&self, point: IVec2) -> (index: u64)
        requires
            self.contains(point),
        ensures
            index == self.spec_index_of(point),
            index < self.spec_size().x * self.spec_size().y,
    {
        proof {
            use_type_invariant(self);
        }
        let column: i64 = point.x as i64 - self.min_point.x as i64;
        let row: i64 = point.y as i64 - self.min_point.y as i64;
        proof {
            lemma_index_in_rows(column as int, row as int, self.size.x as int, self.size.y as int);
        }
        (column + row * self.size.x as i64) as u64
    }

    /// The world position of the sample `point`: its coordinates times the
    /// distance between samples.
    pub fn world_point(&self, point: IVec2) -> (world: (i64, i64))
        ensures
            world.0 == point.x * spec_step(self.spec_upsampling()),
            world.1 == point.y * spec_step(self.spec_upsampling()),
    {
        proof {
            use_type_invariant(self);
        }
        let step: i64 = step_of(self.upsampling);
        proof {
            lemma_product_bounds(point.x as int, step as int);
            lemma_product_bounds(point.y as int, step as int);
        }
        (point.x as i64 * step, point.y as i64 * step)
    }

    /// Where the world position `world` lies among the samples.
    #[verifier::rlimit(50)]
    pub fn locate(&self, world: IVec2) -> (corners: Corners2D)
        requires
            self.covers(world),
        ensures
            ({
                let u = self.spec_upsampling();
                let at = IVec2 {
                    x: spec_sample_of(world.x as int, u) as i32,
                    y: spec_sample_of(world.y as int, u) as i32,
                };
                &&& self.contains(at)
                &&& corners.index_00 == self.spec_index_of(at)
                &&& corners.index_10 == corners.index_00 + 1
                &&& corners.index_01 == corners.index_00 + self.spec_size().x
                &&& corners.index_11 == corners.index_00 + self.spec_size().x + 1
                &&& corners.index_11 < self.spec_size().x * self.spec_size().y
                &&& corners.offset_x == spec_offset_of(world.x as int, u)
                &&& corners.offset_y == spec_offset_of(world.y as int, u)
                &&& corners.step == spec_step(u)
                &&& 0 <= corners.offset_x < corners.step
                &&& 0 <= corners.offset_y < corners.step
            }),
    {
        proof {
            use_type_invariant(self);
        }
        let step: i64 = step_of(self.upsampling);
        let x: i64 = floor_div(world.x as i64, step);
        let y: i64 = floor_div(world.y as i64, step);
        let column: i64 = x - self.min_point.x as i64;
        let row: i64 = y - self.min_point.y as i64;
        proof {
            lemma_fundamental_div_mod(world.x as int, step as int);
            lemma_fundamental_div_mod(world.y as int, step as int);
            lemma_mod_bound(world.x as int, step as int);
            lemma_mod_bound(world.y as int, step as int);
            lemma_index_in_rows(
                column as int + 1,
                row as int + 1,
                self.size.x as int,
                self.size.y as int,
            );
            lemma_index_in_rows(column as int, row as int, self.size.x as int, self.size.y as int);
            assert((row + 1) * self.size.x == row * self.size.x + self.size.x)
                by (nonlinear_arith);
            lemma_product_bounds(x as int, step as int);
            lemma_product_bounds(y as int, step as int);
            assert(step * x == x * step && step * y == y * step) by (nonlinear_arith);
        }
        let index: u64 = (column + row * self.size.x as i64) as u64;
        let width: u64 = self.size.x as u64;
        Corners2D {
            index_00: index,
            index_10: index + 1,
            index_01: index + width,
            index_11: index + width + 1,
            offset_x: (world.x as i64 - x * step) as i32,
            offset_y: (world.y as i64 - y * step) as i32,
            step: step as i32,
        }
    }
}

/// The samples below and above a span of `length` voxels from `origin`
/// are at most `length` samples apart, and not in the wrong order.
proof fn lemma_span(origin: int, length: int, step: int)
    requires
        1 <= step,
        0 <= length,
    ensures
        origin / step <= (origin + length) / step <= origin / step + length,
{
    lemma_fundamental_div_mod(origin, step);
    lemma_fundamental_div_mod(origin + length, step);
    lemma_mod_bound(origin, step);
    lemma_mod_bound(origin + length, step);
    let a = origin / step;
    let b = (origin + length) / step;
    assert(a <= b <= a + length) by (nonlinear_arith)
        requires
            1 <= step,
            0 <= length,
            origin == step * a + origin % step,
            origin + length == step * b + (origin + length) % step,
            0 <= origin % step < step,
            0 <= (origin + length) % step < step,
    ;
}

/// A quotient lies as near to zero as what is divided.
proof fn lemma_quotient_bounds(value: int, step: int, bound: int)
    requires
        1 <= step,
        0 <= bound,
        -bound <= value <= bound,
    ensures
        -bound <= value / step <= bound,
{
    lemma_fundamental_div_mod(value, step);
    lemma_mod_bound(value, step);
    let q = value / step;
    assert(-bound <= q <= bound) by (nonlinear_arith)
        requires
            1 <= step,
            0 <= bound,
            -bound <= value <= bound,
            value == step * q + value % step,
            0 <= value % step < step,
    ;
}

/// A place in a list of rows lies within the list.
proof fn lemma_index_in_rows(column: int, row: int, width: int, height: int)
    requires
        0 <= column < width <= 0x2_0000,
        0 <= row < height <= 0x2_0000,
    ensures
        0 <= column + row * width < width * height <= 0x4_0000_0000,
        0 <= row * width,
{
    assert(0 <= row * width && column + row * width < width * height && width * height
        <= 0x4_0000_0000) by (nonlinear_arith)
        requires
            0 <= column < width <= 0x2_0000,
            0 <= row < height <= 0x2_0000,
    ;
}

/// A coordinate times a distance between samples fits 64 bits.
proof fn lemma_product_bounds(value: int, step: int)
    requires
        -0x1_0000_0000 <= value <= 0x1_0000_0000,
        1 <= step <= 0x4000_0000,
    ensures
        -0x4000_0000_0000_0000 <= value * step <= 0x4000_0000_0000_0000,
{
    assert(-0x4000_0000_0000_0000 <= value * step <= 0x4000_0000_0000_0000) by (nonlinear_arith)
        requires
            -0x1_0000_0000 <= value <= 0x1_0000_0000,
            1 <= step <= 0x4000_0000,
    ;
}

/// The world position of a sample lies at that sample, no way above it:
/// there the samples round the position start with the sample itself, and
/// interpolation gives its value.
pub proof fn lemma_sample_of_grid_point(point: int, upsampling: int)
    requires
        0 <= upsampling <= 30,
    ensures
        spec_sample_of(point * spec_step(upsampling), upsampling) == point,
        spec_offset_of(point * spec_step(upsampling), upsampling) == 0,
{
    lemma_step(upsampling);
    let step = spec_step(upsampling);
    lemma_fundamental_div_mod_converse(point * step, step, point, 0);
}

/// Over a chunk whose origin is a multiple of the chunk's length, with at
/// most 5 doublings between samples, the grid of samples with `buffer`
/// samples on every side holds the samples round each world coordinate
/// from `buffer` samples below the chunk to `buffer` samples above it.
pub proof fn lemma_region_covered(origin: int, world: int, upsampling: int, buffer: int)
    requires
        0 <= upsampling <= 5,
        origin % 32 == 0,
        0 <= buffer,
        origin - buffer * spec_step(upsampling) <= world < origin + 32 + buffer * spec_step(
            upsampling,
        ),
    ensures
        spec_sample_of(origin, upsampling) - buffer <= spec_sample_of(world, upsampling),
        spec_sample_of(world, upsampling) + 1 < spec_sample_of(origin + 32, upsampling) + 1
            + buffer,
{
    lemma_step(upsampling);
    let step = spec_step(upsampling);
    let per_chunk = 32int / step;
    lemma_fundamental_div_mod(32, step);
    lemma_fundamental_div_mod(origin, 32);
    let chunk = origin / 32;
    let first = chunk * per_chunk;
    assert(origin == first * step) by (nonlinear_arith)
        requires
            origin == 32 * chunk,
            32 == step * per_chunk,
            first == chunk * per_chunk,
    ;
    lemma_fundamental_div_mod_converse(origin, step, first, 0);
    assert(origin + 32 == (first + per_chunk) * step) by (nonlinear_arith)
        requires
            origin == first * step,
            32 == step * per_chunk,
    ;
    lemma_fundamental_div_mod_converse(origin + 32, step, first + per_chunk, 0);
    lemma_fundamental_div_mod(world, step);
    lemma_mod_bound(world, step);
    let at = world / step;
    assert(first - buffer <= at < first + per_chunk + buffer) by (nonlinear_arith)
        requires
            1 <= step,
            world == step * at + world % step,
            0 <= world % step < step,
            first * step - buffer * step <= world < (first + per_chunk) * step + buffer * step,
    ;
}

/// A grid of samples of a field over space, laid over a chunk and a buffer
/// round it.
#[derive(Clone, Copy, Debug)]
pub struct SampleGrid3D {
    upsampling: i32,
    min_point: IVec3,
    size: IVec3,
}

/// Where a world position lies among the samples of space: the places of
/// the eight samples round it, and how far it lies from the first towards
/// the others. The three digits of a name tell whether the sample is the
/// next along x, along z and along y, in this order.
#[derive(Clone, Copy, Debug, PartialEq, Eq, Structural)]
pub struct Corners3D {
    pub index_000: u64,
    pub index_100: u64,
    pub index_010: u64,
    pub index_110: u64,
    pub index_001: u64,
    pub index_101: u64,
    pub index_011: u64,
    pub index_111: u64,
    /// How far the position lies above its sample along x, in voxels.
    pub offset_x: i32,
    /// How far the position lies above its sample along z, in voxels.
    pub offset_z: i32,
    /// How far the position lies above its sample along y, in voxels.
    pub offset_y: i32,
    /// The distance between samples, in voxels.
    pub step: i32,
}

impl SampleGrid3D {
    /// The grid has at least one sample along each axis, and few enough
    /// to count them.
    #[verifier::type_invariant]
    spec fn valid(self) -> bool {
        &&& 0 <= self.upsampling <= 30
        &&& -0x8000_0000 <= self.min_point.x <= 0x4001_0000
        &&& -0x8000_0000 <= self.min_point.y <= 0x4001_0000
        &&& -0x8000_0000 <= self.min_point.z <= 0x4001_0000
        &&& 1 <= self.size.x <= 0x4_0000
        &&& 1 <= self.size.y <= 0x4_0000
        &&& 1 <= self.size.z <= 0x4_0000
    }

    /// The number of doublings between samples.
    pub closed spec fn spec_upsampling(&self) -> int {
        self.upsampling as int
    }

    /// The sample with the least coordinates.
    pub closed spec fn spec_min_point(&self) -> IVec3 {
        self.min_point
    }

    /// The number of samples along each axis.
    pub closed spec fn spec_size(&self) -> IVec3 {
        self.size
    }

    /// The number of samples.
    pub open spec fn spec_sample_count(&self) -> int {
        self.spec_size().x * self.spec_size().z * self.spec_size().y
    }

    /// Whether the grid holds the sample `point`.
    pub open spec fn contains(&self, point: IVec3) -> bool {
        &&& self.spec_min_point().x <= point.x < self.spec_min_point().x + self.spec_size().x
        &&& self.spec_min_point().y <= point.y < self.spec_min_point().y + self.spec_size().y
        &&& self.spec_min_point().z <= point.z < self.spec_min_point().z + self.spec_size().z
    }

    /// The place of the sample `point` in the list of samples: layer by
    /// layer along y, in a layer row by row along z, x ascending in a row.
    pub open spec fn spec_index_of(&self, point: IVec3) -> int {
        (point.x - self.spec_min_point().x) + (point.z - self.spec_min_point().z)
            * self.spec_size().x + (point.y - self.spec_min_point().y) * (self.spec_size().x
            * self.spec_size().z)
    }

    /// Whether the grid holds the eight samples round the world position
    /// `world`.
    pub open spec fn covers(&self, world: IVec3) -> bool {
        let x = spec_sample_of(world.x as int, self.spec_upsampling());
        let y = spec_sample_of(world.y as int, self.spec_upsampling());
        let z = spec_sample_of(world.z as int, self.spec_upsampling());
        &&& self.spec_min_point().x <= x
        &&& x + 1 < self.spec_min_point().x + self.spec_size().x
        &&& self.spec_min_point().y <= y
        &&& y + 1 < self.spec_min_point().y + self.spec_size().y
        &&& self.spec_min_point().z <= z
        &&& z + 1 < self.spec_min_point().z + self.spec_size().z
    }

    /// Whether a grid of samples can be laid out as asked.
    pub open spec fn spec_can_make(
        upsampling: i32,
        chunk_origin: IVec3,
        buffer: Option<IVec3>,
    ) -> bool {
        &&& 0 <= upsampling <= MAX_UPSAMPLING
        &&& -MAX_ORIGIN <= chunk_origin.x <= MAX_ORIGIN
        &&& -MAX_ORIGIN <= chunk_origin.y <= MAX_ORIGIN
        &&& -MAX_ORIGIN <= chunk_origin.z <= MAX_ORIGIN
        &&& match buffer {
            Some(b) => 0 <= b.x <= MAX_BUFFER && 0 <= b.y <= MAX_BUFFER && 0 <= b.z <= MAX_BUFFER,
            None => true,
        }
    }

    /// A grid over the chunk whose least corner is `chunk_origin` and
    /// `buffer` voxels round it, with samples every 2 to the power
    /// `upsampling` voxels: from the sample at or below the least corner of
    /// that region to the one above its far corner.
    #[verifier::rlimit(50)]
    pub fn new(upsampling: i32, chunk_origin: IVec3, buffer: Option<IVec3>) -> (grid: SampleGrid3D)
        requires
            Self::spec_can_make(upsampling, chunk_origin, buffer),
        ensures
            grid.spec_upsampling() == upsampling,
            ({
                let b = match buffer {
                    Some(b) => b,
                    None => IVec3 { x: 0, y: 0, z: 0 },
                };
                let u = upsampling as int;
                &&& grid.spec_min_point().x == spec_sample_of(chunk_origin.x - b.x, u)
                &&& grid.spec_min_point().y == spec_sample_of(chunk_origin.y - b.y, u)
                &&& grid.spec_min_point().z == spec_sample_of(chunk_origin.z - b.z, u)
                &&& grid.spec_min_point().x + grid.spec_size().x == spec_sample_of(
                    chunk_origin.x + 32 + b.x,
                    u,
                ) + 1
                &&& grid.spec_min_point().y + grid.spec_size().y == spec_sample_of(
                    chunk_origin.y + 32 + b.y,
                    u,
                ) + 1
                &&& grid.spec_min_point().z + grid.spec_size().z == spec_sample_of(
                    chunk_origin.z + 32 + b.z,
                    u,
                ) + 1
            }),
    {
        let b = match buffer {
            Some(b) => b,
            None => IVec3::splat(0),
        };
        let step: i64 = step_of(upsampling);
        let low_x: i64 = chunk_origin.x as i64 - b.x as i64;
        let low_y: i64 = chunk_origin.y as i64 - b.y as i64;
        let low_z: i64 = chunk_origin.z as i64 - b.z as i64;
        let min_x: i64 = floor_div(low_x, step);
        let min_y: i64 = floor_div(low_y, step);
        let min_z: i64 = floor_div(low_z, step);
        let max_x: i64 = floor_div(chunk_origin.x as i64 + 32 + b.x as i64, step) + 1;
        let max_y: i64 = floor_div(chunk_origin.y as i64 + 32 + b.y as i64, step) + 1;
        let max_z: i64 = floor_div(chunk_origin.z as i64 + 32 + b.z as i64, step) + 1;
        proof {
            lemma_span(low_x as int, 32 + 2 * b.x, step as int);
            lemma_span(low_y as int, 32 + 2 * b.y, step as int);
            lemma_span(low_z as int, 32 + 2 * b.z, step as int);
            lemma_quotient_bounds(low_x as int, step as int, 0x4001_0000);
            lemma_quotient_bounds(low_y as int, step as int, 0x4001_0000);
            lemma_quotient_bounds(low_z as int, step as int, 0x4001_0000);
        }
        SampleGrid3D {
            upsampling,
            min_point: IVec3::new(min_x as i32, min_y as i32, min_z as i32),
            size: IVec3::new(
                (max_x - min_x) as i32,
                (max_y - min_y) as i32,
                (max_z - min_z) as i32,
            ),
        }
    }

    /// The number of samples.
    pub fn sample_count(&self) -> (count: u64)
        ensures
            count == self.spec_sample_count(),
            count >= 1,
    {
        proof {
            use_type_invariant(self);
            lemma_index_in_layers(
                0,
                0,
                0,
                self.size.x as int,
                self.size.z as int,
                self.size.y as int,
            );
        }
        self.size.x as u64 * self.size.z as u64 * self.size.y as u64
    }

    /// The sample at place `index` of the list of samples.
    #[verifier::rlimit(50)]
    pub fn sample_point(&self, index: u64) -> (point: IVec3)
        requires
            index < self.spec_sample_count(),
        ensures
            self.contains(point),
            self.spec_index_of(point) == index,
    {
        proof {
            use_type_invariant(self);
            lemma_index_in_layers(
                0,
                0,
                0,
                self.size.x as int,
                self.size.z as int,
                self.size.y as int,
            );
        }
        let width: u64 = self.size.x as u64;
        let layer: u64 = width * self.size.z as u64;
        let column: u64 = index % width;
        let row: u64 = (index / width) % self.size.z as u64;
        let level: u64 = index / layer;
        proof {
            let depth = self.size.z as int;
            let across = index as int / width as int;
            lemma_fundamental_div_mod(index as int, width as int);
            lemma_fundamental_div_mod(across, depth);
            lemma_mod_bound(across, depth);
            vstd::arithmetic::div_mod::lemma_div_denominator(index as int, width as int, depth);
            vstd::arithmetic::div_mod::lemma_multiply_divide_lt(
                index as int,
                layer as int,
                self.size.y as int,
            );
            assert(index == column + row * width + level * (width * depth)) by (nonlinear_arith)
                requires
                    index == width * across + column,
                    across == depth * level + row,
            ;
        }
        IVec3::new(
            (self.min_point.x as i64 + column as i64) as i32,
            (self.min_point.y as i64 + level as i64) as i32,
            (self.min_point.z as i64 + row as i64) as i32,
        )
    }

    /// The place of the sample `point` in the list of samples.
    pub fn index_of(&self, point: IVec3) -> (index: u64)
        requires
            self.contains(point),
        ensures
            index == self.spec_index_of(point),
            index < self.spec_sample_count(),
    {
        proof {
            use_type_invariant(self);
        }
        let column: i64 = point.x as i64 - self.min_point.x as i64;
        let row: i64 = point.z as i64 - self.min_point.z as i64;
        let level: i64 = point.y as i64 - self.min_point.y as i64;
        proof {
            lemma_index_in_layers(
                column as int,
                row as int,
                level as int,
                self.size.x as int,
                self.size.z as int,
                self.size.y as int,
            );
        }
        let layer: i64 = self.size.x as i64 * self.size.z as i64;
        (column + row * self.size.x as i64 + level * layer) as u64
    }

    /// The world position of the sample `point`: its coordinates times the
    /// distance between samples.
    pub fn world_point(&self, point: IVec3) -> (world: (i64, i64, i64))
        ensures
            world.0 == point.x * spec_step(self.spec_upsampling()),
            world.1 == point.y * spec_step(self.spec_upsampling()),
            world.2 == point.z * spec_step(self.spec_upsampling()),
    {
        proof {
            use_type_invariant(self);
        }
        let step: i64 = step_of(self.upsampling);
        proof {
            lemma_product_bounds(point.x as int, step as int);
            lemma_product_bounds(point.y as int, step as int);
            lemma_product_bounds(point.z as int, step as int);
        }
        (point.x as i64 * step, point.y as i64 * step, point.z as i64 * step)
    }

    /// Where the world position `world` lies among the samples.
    #[verifier::rlimit(50)]
    pub fn locate(&self, world: IVec3) -> (corners: Corners3D)
        requires
            self.covers(world),
        ensures
            ({
                let u = self.spec_upsampling();
                let at = IVec3 {
                    x: spec_sample_of(world.x as int, u) as i32,
                    y: spec_sample_of(world.y as int, u) as i32,
                    z: spec_sample_of(world.z as int, u) as i32,
                };
                let layer = self.spec_size().x * self.spec_size().z;
                &&& self.contains(at)
                &&& corners.index_000 == self.spec_index_of(at)
                &&& corners.index_100 == corners.index_000 + 1
                &&& corners.index_010 == corners.index_000 + self.spec_size().x
                &&& corners.index_110 == corners.index_000 + self.spec_size().x + 1
                &&& corners.index_001 == corners.index_000 + layer
                &&& corners.index_101 == corners.index_000 + 1 + layer
                &&& corners.index_011 == corners.index_000 + self.spec_size().x + layer
                &&& corners.index_111 == corners.index_000 + self.spec_size().x + 1 + layer
                &&& corners.index_111 < self.spec_sample_count()
                &&& corners.offset_x == spec_offset_of(world.x as int, u)
                &&& corners.offset_y == spec_offset_of(world.y as int, u)
                &&& corners.offset_z == spec_offset_of(world.z as int, u)
                &&& corners.step == spec_step(u)
                &&& 0 <= corners.offset_x < corners.step
                &&& 0 <= corners.offset_y < corners.step
                &&& 0 <= corners.offset_z < corners.step
            }),
    {
        proof {
            use_type_invariant(self);
        }
        let step: i64 = step_of(self.upsampling);
        let x: i64 = floor_div(world.x as i64, step);
        let y: i64 = floor_div(world.y as i64, step);
        let z: i64 = floor_div(world.z as i64, step);
        let column: i64 = x - self.min_point.x as i64;
        let row: i64 = z - self.min_point.z as i64;
        let level: i64 = y - self.min_point.y as i64;
        proof {
            lemma_fundamental_div_mod(world.x as int, step as int);
            lemma_fundamental_div_mod(world.y as int, step as int);
            lemma_fundamental_div_mod(world.z as int, step as int);
            lemma_mod_bound(world.x as int, step as int);
            lemma_mod_bound(world.y as int, step as int);
            lemma_mod_bound(world.z as int, step as int);
            lemma_index_in_layers(
                column as int,
                row as int,
                level as int,
                self.size.x as int,
                self.size.z as int,
                self.size.y as int,
            );
            lemma_index_in_layers(
                column as int + 1,
                row as int + 1,
                level as int + 1,
                self.size.x as int,
                self.size.z as int,
                self.size.y as int,
            );
            assert((row + 1) * self.size.x == row * self.size.x + self.size.x)
                by (nonlinear_arith);
            assert((level + 1) * (self.size.x * self.size.z) == level * (self.size.x * self.size.z)
                + self.size.x * self.size.z) by (nonlinear_arith);
            lemma_product_bounds(x as int, step as int);
            lemma_product_bounds(y as int, step as int);
            lemma_product_bounds(z as int, step as int);
            assert(step * x == x * step && step * y == y * step && step * z == z * step)
                by (nonlinear_arith);
        }
        let width: u64 = self.size.x as u64;
        let layer: u64 = width * self.size.z as u64;
        let index: u64 = (column + row * self.size.x as i64 + level * (layer as i64)) as u64;
        Corners3D {
            index_000: index,
            index_100: index + 1,
            index_010: index + width,
            index_110: index + width + 1,
            index_001: index + layer,
            index_101: index + 1 + layer,
            index_011: index + width + layer,
            index_111: index + width + 1 + layer,
            offset_x: (world.x as i64 - x * step) as i32,
            offset_z: (world.z as i64 - z * step) as i32,
            offset_y: (world.y as i64 - y * step) as i32,
            step: step as i32,
        }
    }
}

/// A place in a list of layers of rows lies within the list.
proof fn lemma_index_in_layers(
    column: int,
    row: int,
    level: int,
    width: int,
    depth: int,
    height: int,
)
    requires
        0 <= column < width <= 0x4_0000,
        0 <= row < depth <= 0x4_0000,
        0 <= level < height <= 0x4_0000,
    ensures
        0 <= column + row * width + level * (width * depth) < width * depth * height
            <= 0x40_0000_0000_0000,
        0 <= row * width,
        0 <= column + row * width < width * depth <= 0x10_0000_0000,
        0 <= level * (width * depth),
{
    assert(0 <= row * width && column + row * width < width * depth && width * depth
        <= 0x10_0000_0000) by (nonlinear_arith)
        requires
            0 <= column < width <= 0x4_0000,
            0 <= row < depth <= 0x4_0000,
    ;
    let layer = width * depth;
    assert(0 <= level * layer && column + row * width + level * layer < layer * height && layer
        * height <= 0x40_0000_0000_0000) by (nonlinear_arith)
        requires
            0 <= column + row * width < layer <= 0x10_0000_0000,
            0 <= level < height <= 0x4_0000,
    ;
}

} // verus!
