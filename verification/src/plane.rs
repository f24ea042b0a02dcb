//! A rectangular grid mesh and its colouring by elevation.
//!
//! The plane is a lattice of `(width_segments + 1) * (height_segments + 1)`
//! vertices, stored row by row, and two triangles per lattice cell. A vertex
//! is known by its lattice coordinates; its place in world space follows from
//! them and from the extents of the plane. Applying a heightmap gives every
//! vertex an elevation sample and the colour band that the sample falls in.

use crate::binary32::exponent;
use crate::binary32::less;
use crate::binary32::less_than;
use crate::binary32::scaled_value;
use crate::binary32::significand;
use crate::binary32::ZERO;
use crate::noise::gradient_stream;
use crate::noise::identity;
use crate::noise::Noise2D;
use crate::noise::PerlinNoise;
use crate::random::drawn;
use crate::random::shuffled;
use vstd::arithmetic::div_mod::lemma_fundamental_div_mod_converse;
use vstd::arithmetic::power2::lemma2_to64;
use vstd::arithmetic::power2::pow2;
use vstd::prelude::*;

verus! {

/// Why a plane could not be built.
#[derive(Clone, Copy, Debug, PartialEq, Eq, Structural)]
pub enum MeshError {
    /// A plane was asked for with no segments along one of its sides.
    Degenerate,
}

/// The colour band of a vertex.
#[derive(Clone, Copy, Debug, PartialEq, Eq, Structural)]
pub enum Band {
    /// No elevation has been applied yet.
    Placeholder,
    /// Below 0.0.
    Water,
    /// From 0.0, below 0.1.
    Lowland,
    /// From 0.1, below 0.2.
    Hill,
    /// From 0.2, below 0.3.
    Upland,
    /// From 0.3, below 0.4.
    HighGround,
    /// From 0.4 upwards, and whatever is not a number.
    Peak,
}

/// The binary32 pattern of 0.1, the upper limit of the lowland band.
pub const LOWLAND_LIMIT: u32 = 0x3dcc_cccd;

/// The binary32 pattern of 0.2, the upper limit of the hill band.
pub const HILL_LIMIT: u32 = 0x3e4c_cccd;

/// The binary32 pattern of 0.3, the upper limit of the upland band.
pub const UPLAND_LIMIT: u32 = 0x3e99_999a;

/// The binary32 pattern of 0.4, the upper limit of the high ground band.
pub const HIGH_GROUND_LIMIT: u32 = 0x3ecc_cccd;

/// The binary32 pattern of 0.5.
pub const HALF: u32 = 0x3f00_0000;

/// The binary32 pattern of 1.0.
pub const ONE: u32 = 0x3f80_0000;

/// The binary32 pattern of 2.0.
pub const TWO: u32 = 0x4000_0000;

/// The seed of the noise field that shapes the terrain.
pub const TERRAIN_SEED: u32 = 0;

/// The table size of the noise field that shapes the terrain.
pub const TERRAIN_TABLE_SIZE: usize = 256;

/// The number of octaves of the noise field that shapes the terrain.
pub const TERRAIN_OCTAVES: u32 = 3;

/// Whether the pattern encodes the binary32 value nearest to the fraction
/// `numerator / denominator`: a value `m * 2^e`, with `e` below zero, that
/// is no more than half a unit of its last place away from the fraction.
pub open spec fn nearest_to(bits: u32, numerator: int, denominator: int) -> bool {
    let scale = pow2((-exponent(bits)) as nat);
    let twice_the_error = 2 * (denominator * significand(bits) - numerator * scale);
    exponent(bits) < 0 && -denominator <= twice_the_error <= denominator
}

/// The named patterns encode what their names say: the band limits are the
/// binary32 values nearest to 1/10, 2/10, 3/10 and 4/10, and 0.5, 1.0 and
/// 2.0 are exact.
pub proof fn lemma_named_patterns()
    ensures
        nearest_to(LOWLAND_LIMIT, 1, 10),
        nearest_to(HILL_LIMIT, 2, 10),
        nearest_to(UPLAND_LIMIT, 3, 10),
        nearest_to(HIGH_GROUND_LIMIT, 4, 10),
        scaled_value(ZERO) == 0,
        2 * significand(HALF) == pow2((-exponent(HALF)) as nat),
        significand(ONE) == pow2((-exponent(ONE)) as nat),
        significand(TWO) == 2 * pow2((-exponent(TWO)) as nat),
{
    lemma2_to64();
    assert(exponent(LOWLAND_LIMIT) == -27 && significand(LOWLAND_LIMIT) == 13421773);
    assert(exponent(HILL_LIMIT) == -26 && significand(HILL_LIMIT) == 13421773);
    assert(exponent(UPLAND_LIMIT) == -25 && significand(UPLAND_LIMIT) == 10066330);
    assert(exponent(HIGH_GROUND_LIMIT) == -25 && significand(HIGH_GROUND_LIMIT) == 13421773);
    assert(exponent(HALF) == -24 && significand(HALF) == 0x80_0000);
    assert(exponent(ONE) == -23 && significand(ONE) == 0x80_0000);
    assert(exponent(TWO) == -22 && significand(TWO) == 0x80_0000);
    assert(0 * pow2(0) == 0) by (nonlinear_arith);
}

/// The band of an elevation sample: the first limit that the sample is
/// below decides, and a sample below none of them is a peak.
pub open spec fn band_of(height: u32) -> Band {
    if less(height, ZERO) {
        Band::Water
    } else if less(height, LOWLAND_LIMIT) {
        Band::Lowland
    } else if less(height, HILL_LIMIT) {
        Band::Hill
    } else if less(height, UPLAND_LIMIT) {
        Band::Upland
    } else if less(height, HIGH_GROUND_LIMIT) {
        Band::HighGround
    } else {
        Band::Peak
    }
}

impl Band {
    /// The colour of the band: red, green and blue as binary32 patterns.
    pub open spec fn rgb(self) -> Seq<u32> {
        match self {
            Band::Placeholder => seq![HALF, ZERO, HALF],
            Band::Water => seq![ZERO, ZERO, ONE],
            Band::Lowland => seq![ZERO, ONE, ZERO],
            Band::Hill => seq![ONE, ONE, ZERO],
            Band::Upland => seq![ONE, HALF, ZERO],
            Band::HighGround => seq![ONE, ZERO, ZERO],
            Band::Peak => seq![ONE, ONE, ONE],
        }
    }

    /// Returns the band of an elevation sample, a binary32 pattern.
    pub fn of(height: u32) -> (band: Band)
        ensures
            band == band_of(height),
            band != Band::Placeholder,
    {
        if less_than(height, ZERO) {
            Band::Water
        } else if less_than(height, LOWLAND_LIMIT) {
            Band::Lowland
        } else if less_than(height, HILL_LIMIT) {
            Band::Hill
        } else if less_than(height, UPLAND_LIMIT) {
            Band::Upland
        } else if less_than(height, HIGH_GROUND_LIMIT) {
            Band::HighGround
        } else {
            Band::Peak
        }
    }

    /// Returns the colour of the band: red, green and blue as binary32
    /// patterns.
    pub fn color(self) -> (color: [u32; 3])
        ensures
            color@ == self.rgb(),
    {
        let color: [u32; 3] = match self {
            Band::Placeholder => [HALF, ZERO, HALF],
            Band::Water => [ZERO, ZERO, ONE],
            Band::Lowland => [ZERO, ONE, ZERO],
            Band::Hill => [ONE, ONE, ZERO],
            Band::Upland => [ONE, HALF, ZERO],
            Band::HighGround => [ONE, ZERO, ZERO],
            Band::Peak => [ONE, ONE, ONE],
        };
        assert(color@ =~= self.rgb());
        color
    }
}

/// Returns the colour of an elevation sample: red, green and blue as
/// binary32 patterns.
pub fn get_color(height: u32) -> (color: [u32; 3])
    ensures
        color@ == band_of(height).rgb(),
{
    Band::of(height).color()
}

/// A vertex of the plane: its lattice coordinates, its elevation sample as a
/// binary32 pattern, and its colour band.
///
/// In world space the vertex stands at
/// `x = -width / 2 + column * (width / width_segments)` and
/// `z = -height / 2 + row * (height / height_segments)`, at an elevation of
/// three times its sample.
#[derive(Clone, Copy, Debug, PartialEq, Eq, Structural)]
pub struct Vertex {
    pub column: u32,
    pub row: u32,
    pub height: u32,
    pub band: Band,
}

/// The number of vertices of a plane with `ws` by `hs` segments.
pub open spec fn vertex_count(ws: int, hs: int) -> int {
    (ws + 1) * (hs + 1)
}

/// The number of indices of a plane with `ws` by `hs` segments: six for each
/// lattice cell.
pub open spec fn index_count(ws: int, hs: int) -> int {
    ws * hs * 6
}

/// Whether the buffers of a plane with `ws` by `hs` segments can be held:
/// every vertex needs a 32-bit index, and both lengths a `usize`.
pub open spec fn fits(ws: u32, hs: u32) -> bool {
    &&& vertex_count(ws as int, hs as int) <= 0x1_0000_0000
    &&& vertex_count(ws as int, hs as int) <= usize::MAX
    &&& index_count(ws as int, hs as int) <= usize::MAX
}

/// The vertex with index `i` of a flat plane with `ws` segments across.
pub open spec fn flat_vertex(ws: int, i: int) -> Vertex {
    Vertex {
        column: (i % (ws + 1)) as u32,
        row: (i / (ws + 1)) as u32,
        height: ZERO,
        band: Band::Placeholder,
    }
}

/// The vertex with index `i` of a plane with `ws` segments across, lifted
/// to the elevation sample `height`.
pub open spec fn lifted_vertex(ws: int, i: int, height: u32) -> Vertex {
    Vertex {
        column: (i % (ws + 1)) as u32,
        row: (i / (ws + 1)) as u32,
        height,
        band: band_of(height),
    }
}

/// The vertices of a flat plane, row by row.
pub open spec fn flat_vertices(ws: int, hs: int) -> Seq<Vertex> {
    Seq::new(vertex_count(ws, hs) as nat, |i: int| flat_vertex(ws, i))
}

/// The vertices of a plane lifted by one elevation sample per vertex.
pub open spec fn lifted_vertices(ws: int, hs: int, heights: Seq<u32>) -> Seq<Vertex> {
    Seq::new(vertex_count(ws, hs) as nat, |i: int| lifted_vertex(ws, i, heights[i]))
}

/// The index of corner `corner` of the lattice cell `(column, row)`: corner
/// 0 is the vertex `(column, row)` itself, 1 its neighbour in the row, 2 its
/// neighbour in the column, 3 the vertex across.
pub open spec fn quad_corner(ws: int, column: int, row: int, corner: int) -> int {
    let a = column + row * (ws + 1);
    if corner == 0 {
        a
    } else if corner == 1 {
        a + 1
    } else if corner == 2 {
        a + (ws + 1)
    } else {
        a + (ws + 1) + 1
    }
}

/// The corner that slot `slot` of a cell's six indices refers to: the
/// triangles are (1, 0, 2) and (1, 2, 3).
pub open spec fn winding(slot: int) -> int {
    if slot == 0 {
        1
    } else if slot == 1 {
        0
    } else if slot == 2 {
        2
    } else if slot == 3 {
        1
    } else if slot == 4 {
        2
    } else {
        3
    }
}

/// Entry `k` of the index buffer of a plane with `ws` segments across. The
/// cells follow each other row by row, six indices each.
pub open spec fn triangle_index(ws: int, k: int) -> int {
    let cell = k / 6;
    quad_corner(ws, cell % ws, cell / ws, winding(k % 6))
}

/// The index buffer of a plane with `ws` by `hs` segments.
pub open spec fn triangle_indices(ws: int, hs: int) -> Seq<u32> {
    Seq::new(index_count(ws, hs) as nat, |k: int| triangle_index(ws, k) as u32)
}

/// What a plane is: its extents as binary32 patterns, its segment counts
/// and its two buffers.
pub struct PlaneModel {
    pub width: u32,
    pub height: u32,
    pub width_segments: u32,
    pub height_segments: u32,
    pub vertices: Seq<Vertex>,
    pub indices: Seq<u32>,
}

impl PlaneModel {
    /// The flat plane with the given extents and segment counts.
    pub open spec fn flat(width: u32, height: u32, ws: u32, hs: u32) -> PlaneModel {
        PlaneModel {
            width,
            height,
            width_segments: ws,
            height_segments: hs,
            vertices: flat_vertices(ws as int, hs as int),
            indices: triangle_indices(ws as int, hs as int),
        }
    }

    /// The plane with every vertex replaced by the one that `heights` gives
    /// for its place in the lattice; the rest stays as it is.
    pub open spec fn lifted(self, heights: Seq<u32>) -> PlaneModel {
        PlaneModel {
            vertices: lifted_vertices(
                self.width_segments as int,
                self.height_segments as int,
                heights,
            ),
            ..self
        }
    }

    /// The invariant of a plane: at least one segment each way, one vertex
    /// per lattice point, standing at its own place in the row-major order
    /// and within reach of a 32-bit index, and the index buffer of the
    /// lattice.
    pub open spec fn wf(self) -> bool {
        &&& self.width_segments >= 1
        &&& self.height_segments >= 1
        &&& self.vertices.len() <= 0x1_0000_0000
        &&& self.vertices.len() == vertex_count(
            self.width_segments as int,
            self.height_segments as int,
        )
        &&& forall|i: int|
            0 <= i < self.vertices.len() ==> {
                &&& (#[trigger] self.vertices[i]).column == i % (self.width_segments + 1)
                &&& self.vertices[i].row == i / (self.width_segments + 1)
            }
        &&& self.indices == triangle_indices(
            self.width_segments as int,
            self.height_segments as int,
        )
    }
}

/// A rectangular grid mesh.
///
/// `width` and `height` are the extents in world space, as binary32
/// patterns; the plane carries them for whoever places the vertices.
#[derive(Debug)]
pub struct Plane {
    pub width: u32,
    pub height: u32,
    pub width_segments: u32,
    pub height_segments: u32,
    pub vertices: Vec<Vertex>,
    pub indices: Vec<u32>,
}

impl View for Plane {
    type V = PlaneModel;

    open spec fn view(&self) -> PlaneModel {
        PlaneModel {
            width: self.width,
            height: self.height,
            width_segments: self.width_segments,
            height_segments: self.height_segments,
            vertices: self.vertices@,
            indices: self.indices@,
        }
    }
}

/// Quotient and remainder of a number written as `q * d + r`.
proof fn lemma_split(q: int, d: int, r: int)
    requires
        0 <= r < d,
    ensures
        (q * d + r) / d == q,
        (q * d + r) % d == r,
{
    lemma_fundamental_div_mod_converse(q * d + r, d, q, r);
}

/// Row `row` of `rows` rows of `stride` entries ends where the rows end, or
/// before.
proof fn lemma_row_end(row: int, rows: int, stride: int)
    by (nonlinear_arith)
    requires
        0 <= row < rows,
        0 <= stride,
    ensures
        (row + 1) * stride == row * stride + stride,
        row * stride + stride <= rows * stride,
        0 <= row * stride,
{
}

/// Returns whether the buffers of a plane with `ws` by `hs` segments can be
/// held.
pub fn grid_fits(ws: u32, hs: u32) -> (r: bool)
    ensures
        r == fits(ws, hs),
{
    assert((ws + 1) * (hs + 1) <= 0x1_0000_0000 * 0x1_0000_0000 && ws * hs <= 0xffff_ffff
        * 0xffff_ffff) by (nonlinear_arith)
        requires
            0 <= ws <= 0xffff_ffff,
            0 <= hs <= 0xffff_ffff,
    ;
    let vertices: u128 = (ws as u128 + 1) * (hs as u128 + 1);
    let indices: u128 = (ws as u128) * (hs as u128) * 6;
    vertices <= 0x1_0000_0000 && vertices <= usize::MAX as u128 && indices <= usize::MAX as u128
}

impl Plane {
    /// Builds the flat plane with `ws` by `hs` segments.
    ///
    /// The vertices stand row by row, `ws + 1` to a row, each with elevation
    /// zero and the placeholder band. Every lattice cell gives two triangles,
    /// wound (1, 0, 2) and (1, 2, 3) over its corners. A plane without
    /// segments along one side is refused.
    pub fn new(width: u32, height: u32, ws: u32, hs: u32) -> (r: Result<Plane, MeshError>)
        requires
            fits(ws, hs),
        ensures
            ws == 0 || hs == 0 ==> r == Err::<Plane, MeshError>(MeshError::Degenerate),
            ws != 0 && hs != 0 ==> r is Ok && r->Ok_0@ == PlaneModel::flat(width, height, ws, hs),
            r matches Ok(plane) ==> {
                &&& plane@.wf()
                &&& plane.vertices@.len() == (ws + 1) * (hs + 1)
                &&& plane.indices@.len() == ws * hs * 6
                &&& forall|k: int|
                    0 <= k < plane.indices@.len() ==> (#[trigger] plane.indices@[k])
                        < plane.vertices@.len()
            },
    {
        if ws == 0 || hs == 0 {
            return Err(MeshError::Degenerate);
        }
        proof {
            assert((ws + 1) * 2 <= (ws + 1) * (hs + 1)) by (nonlinear_arith)
                requires
                    ws >= 0,
                    hs >= 1,
            ;
        }
        let stride: u32 = ws + 1;
        let vertices = Self::lattice(ws, hs, None);
        let mut indices: Vec<u32> = Vec::new();
        let mut row: u32 = 0;
        let mut row_start: u32 = 0;
        let mut cells: usize = 0;
        while row < hs
            invariant
                ws >= 1,
                fits(ws, hs),
                stride == ws + 1,
                row <= hs,
                row_start == row * stride,
                cells == row * ws,
                indices@ == Seq::new((cells * 6) as nat, |k: int| triangle_index(ws as int, k) as u32),
            decreases hs - row,
        {
            let mut column: u32 = 0;
            proof {
                lemma_row_end(row as int, hs as int, ws as int);
                lemma_row_end(row as int, hs as int, stride as int);
                lemma_row_end(hs as int, hs as int + 1, stride as int);
                assert(hs * ws == ws * hs) by (nonlinear_arith);
            }
            while column < ws
                invariant
                    ws >= 1,
                    fits(ws, hs),
                    stride == ws + 1,
                    row < hs,
                    column <= ws,
                    row_start == row * stride,
                    row * stride + stride <= hs * stride,
                    (hs + 1) * stride == hs * stride + stride,
                    row * ws + ws <= hs * ws,
                    hs * ws == ws * hs,
                    cells == row * ws + column,
                    indices@ == Seq::new(
                        (cells * 6) as nat,
                        |k: int| triangle_index(ws as int, k) as u32,
                    ),
                decreases ws - column,
            {
                let a: u32 = row_start + column;
                let b: u32 = a + 1;
                let c: u32 = a + stride;
                let d: u32 = c + 1;
                proof {
                    lemma_split(row as int, ws as int, column as int);
                    let cell = cells as int;
                    assert forall|slot: int| 0 <= slot < 6 implies #[trigger] triangle_index(
                        ws as int,
                        cell * 6 + slot,
                    ) == quad_corner(ws as int, column as int, row as int, winding(slot)) by {
                        lemma_split(cell, 6, slot);
                    }
                    assert(triangle_index(ws as int, cell * 6 + 0) == b);
                    assert(triangle_index(ws as int, cell * 6 + 1) == a);
                    assert(triangle_index(ws as int, cell * 6 + 2) == c);
                    assert(triangle_index(ws as int, cell * 6 + 3) == b);
                    assert(triangle_index(ws as int, cell * 6 + 4) == c);
                    assert(triangle_index(ws as int, cell * 6 + 5) == d);
                }
                indices.push(b);
                indices.push(a);
                indices.push(c);
                indices.push(b);
                indices.push(c);
                indices.push(d);
                column += 1;
                cells += 1;
            }
            proof {
                lemma_row_end(row as int, hs as int, ws as int);
            }
            row += 1;
            row_start += stride;
        }
        let plane = Plane { width, height, width_segments: ws, height_segments: hs, vertices, indices };
        proof {
            assert(hs * ws == ws * hs) by (nonlinear_arith);
            assert(plane.indices@ == triangle_indices(ws as int, hs as int));
            lemma_indices_in_range(ws as int, hs as int);
            lemma_vertices_in_place(ws, hs);
        }
        Ok(plane)
    }

    /// Lays out the vertices of the lattice row by row: flat where `heights`
    /// is `None`, and lifted by one sample per vertex otherwise.
    fn lattice(ws: u32, hs: u32, heights: Option<&Vec<u32>>) -> (vertices: Vec<Vertex>)
        requires
            vertex_count(ws as int, hs as int) <= usize::MAX,
            heights matches Some(samples) ==> samples@.len() == vertex_count(ws as int, hs as int),
        ensures
            vertices@ == (match heights {
                Some(samples) => lifted_vertices(ws as int, hs as int, samples@),
                None => flat_vertices(ws as int, hs as int),
            }),
    {
        let stride: u64 = ws as u64 + 1;
        let rows: u64 = hs as u64 + 1;
        let mut vertices: Vec<Vertex> = Vec::new();
        let mut row: u64 = 0;
        let mut count: usize = 0;
        while row < rows
            invariant
                stride == ws + 1,
                rows == hs + 1,
                row <= rows,
                vertex_count(ws as int, hs as int) <= usize::MAX,
                heights matches Some(samples) ==> samples@.len() == vertex_count(
                    ws as int,
                    hs as int,
                ),
                count == row * stride,
                vertices@.len() == count,
                forall|i: int|
                    0 <= i < count ==> #[trigger] vertices@[i] == (match heights {
                        Some(samples) => lifted_vertex(ws as int, i, samples@[i]),
                        None => flat_vertex(ws as int, i),
                    }),
            decreases rows - row,
        {
            let mut column: u64 = 0;
            proof {
                lemma_row_end(row as int, rows as int, stride as int);
                assert(rows * stride == stride * rows) by (nonlinear_arith);
            }
            while column < stride
                invariant
                    stride == ws + 1,
                    rows == hs + 1,
                    row < rows,
                    column <= stride,
                    vertex_count(ws as int, hs as int) <= usize::MAX,
                    heights matches Some(samples) ==> samples@.len() == vertex_count(
                        ws as int,
                        hs as int,
                    ),
                    row * stride + stride <= rows * stride,
                    rows * stride == stride * rows,
                    count == row * stride + column,
                    vertices@.len() == count,
                    forall|i: int|
                        0 <= i < count ==> #[trigger] vertices@[i] == (match heights {
                            Some(samples) => lifted_vertex(ws as int, i, samples@[i]),
                            None => flat_vertex(ws as int, i),
                        }),
                decreases stride - column,
            {
                proof {
                    lemma_split(row as int, stride as int, column as int);
                }
                let vertex = match heights {
                    Some(samples) => {
                        let height: u32 = samples[count];
                        Vertex { column: column as u32, row: row as u32, height, band: Band::of(height) }
                    },
                    None => Vertex {
                        column: column as u32,
                        row: row as u32,
                        height: ZERO,
                        band: Band::Placeholder,
                    },
                };
                vertices.push(vertex);
                column += 1;
                count += 1;
            }
            proof {
                lemma_row_end(row as int, rows as int, stride as int);
            }
            row += 1;
        }
        proof {
            assert(rows * stride == stride * rows) by (nonlinear_arith);
        }
        vertices
    }

    /// Lifts the plane by one elevation sample per vertex, `heights[i]` for
    /// vertex `i` of the row-major order, each a binary32 pattern.
    ///
    /// Replaces the whole vertex buffer: vertex `i` keeps its place in the
    /// lattice, takes `heights[i]` as its elevation sample and the band of
    /// that sample as its colour. Nothing of the old vertices enters the new
    /// ones, and the index buffer is left alone.
    pub fn lift(&mut self, heights: &Vec<u32>)
        requires
            heights@.len() == vertex_count(
                old(self).width_segments as int,
                old(self).height_segments as int,
            ),
        ensures
            final(self)@ == old(self)@.lifted(heights@),
            old(self)@.wf() ==> final(self)@.wf(),
            forall|i: int|
                0 <= i < final(self).vertices@.len() ==> (#[trigger] final(self).vertices@[i]).band
                    != Band::Placeholder,
    {
        let count = heights.len();
        proof {
            lemma_vertices_in_place(self.width_segments, self.height_segments);
        }
        self.vertices = Self::lattice(self.width_segments, self.height_segments, Some(heights));
    }

    /// Samples `noise` at every vertex and lifts the plane by the samples.
    ///
    /// `xs[column]` and `zs[row]` are the world coordinates of the lattice
    /// lines, as binary32 patterns; the vertex at `(column, row)` is sampled
    /// at `(xs[column], zs[row])`. The plane is lifted, as by `lift`, by
    /// whatever the noise returned there.
    pub fn apply_heightmap<N: Noise2D>(&mut self, noise: &N, xs: &Vec<u32>, zs: &Vec<u32>)
        requires
            xs@.len() == old(self).width_segments + 1,
            zs@.len() == old(self).height_segments + 1,
            vertex_count(old(self).width_segments as int, old(self).height_segments as int)
                <= usize::MAX,
        ensures
            exists|heights: Seq<u32>|
                #![trigger old(self)@.lifted(heights)]
                samples_of(noise, xs@, zs@, heights) && final(self)@ == old(self)@.lifted(heights),
            old(self)@.wf() ==> final(self)@.wf(),
            final(self).indices@ == old(self).indices@,
            forall|i: int|
                0 <= i < final(self).vertices@.len() ==> (#[trigger] final(self).vertices@[i]).band
                    != Band::Placeholder,
    {
        let heights = sample(noise, xs, zs);
        self.lift(&heights);
    }
}

/// Whether `heights` holds one sample of `noise` for every point of the
/// lattice whose lines stand at `xs` and `zs`, row by row: sample `i` is a
/// value that the noise may return at column `i % xs.len()` and row
/// `i / xs.len()`.
pub open spec fn samples_of<N: Noise2D>(
    noise: &N,
    xs: Seq<u32>,
    zs: Seq<u32>,
    heights: Seq<u32>,
) -> bool {
    &&& heights.len() == xs.len() * zs.len()
    &&& forall|i: int|
        0 <= i < heights.len() ==> call_ensures(
            N::get_noise,
            (noise, xs[i % (xs.len() as int)], zs[i / (xs.len() as int)]),
            #[trigger] heights[i],
        )
}

/// Whether `noise` has one value at every point: whatever it may return at
/// a point, it may return nothing else there.
pub open spec fn single_valued<N: Noise2D>(noise: &N) -> bool {
    forall|x: u32, z: u32, a: u32, b: u32|
        call_ensures(N::get_noise, (noise, x, z), a) && call_ensures(N::get_noise, (noise, x, z), b)
            ==> a == b
}

/// A noise with one value at every point gives the same samples whenever it
/// is sampled over the same lattice lines, so applying it to a plane a
/// second time changes nothing: the vertices come from the lattice and the
/// samples, and from nothing that was there before.
pub proof fn lemma_heightmap_idempotent<N: Noise2D>(
    plane: PlaneModel,
    noise: &N,
    xs: Seq<u32>,
    zs: Seq<u32>,
    first: Seq<u32>,
    second: Seq<u32>,
)
    requires
        single_valued(noise),
        samples_of(noise, xs, zs, first),
        samples_of(noise, xs, zs, second),
    ensures
        first == second,
        plane.lifted(first).lifted(second) == plane.lifted(first),
{
    assert forall|i: int| 0 <= i < first.len() implies first[i] == second[i] by {
        let x = xs[i % (xs.len() as int)];
        let z = zs[i / (xs.len() as int)];
        assert(call_ensures(N::get_noise, (noise, x, z), first[i]));
        assert(call_ensures(N::get_noise, (noise, x, z), second[i]));
    }
    assert(first =~= second);
}

/// Samples `noise` at every point of the lattice whose lines stand at `xs`
/// and `zs`, row by row.
pub fn sample<N: Noise2D>(noise: &N, xs: &Vec<u32>, zs: &Vec<u32>) -> (heights: Vec<u32>)
    requires
        xs@.len() * zs@.len() <= usize::MAX,
        forall|x: u32, z: u32| call_requires(N::get_noise, (noise, x, z)),
    ensures
        samples_of(noise, xs@, zs@, heights@),
{
    let columns: usize = xs.len();
    let rows: usize = zs.len();
    let mut heights: Vec<u32> = Vec::new();
    let mut row: usize = 0;
    while row < rows
        invariant
            columns == xs@.len(),
            rows == zs@.len(),
            columns * rows <= usize::MAX,
            row <= rows,
            heights@.len() == row * columns,
            forall|i: int|
                0 <= i < heights@.len() ==> call_ensures(
                    N::get_noise,
                    (noise, xs@[i % (columns as int)], zs@[i / (columns as int)]),
                    #[trigger] heights@[i],
                ),
        decreases rows - row,
    {
        let mut column: usize = 0;
        proof {
            lemma_row_end(row as int, rows as int, columns as int);
            assert(rows * columns == columns * rows) by (nonlinear_arith);
        }
        while column < columns
            invariant
                columns == xs@.len(),
                rows == zs@.len(),
                columns * rows <= usize::MAX,
                    row < rows,
                column <= columns,
                row * columns + columns <= rows * columns,
                rows * columns == columns * rows,
                heights@.len() == row * columns + column,
                forall|i: int|
                    0 <= i < heights@.len() ==> call_ensures(
                        N::get_noise,
                        (noise, xs@[i % (columns as int)], zs@[i / (columns as int)]),
                        #[trigger] heights@[i],
                    ),
            decreases columns - column,
        {
            proof {
                lemma_split(row as int, columns as int, column as int);
            }
            heights.push(noise.get_noise(xs[column], zs[row]));
            column += 1;
        }
        proof {
            lemma_row_end(row as int, rows as int, columns as int);
        }
        row += 1;
    }
    proof {
        assert(rows * columns == columns * rows) by (nonlinear_arith);
    }
    heights
}

/// Builds the noise field that shapes the terrain: seed 0, a table of 256
/// entries, three octaves that start at frequency 0.5 and weight 1.0, each
/// octave with half the weight and twice the frequency of the one before.
pub fn terrain_noise() -> (field: PerlinNoise)
    ensures
        field@.wf(),
        field@.seed == TERRAIN_SEED,
        field@.size == TERRAIN_TABLE_SIZE,
        field@.octaves == TERRAIN_OCTAVES,
        field@.frequency == HALF,
        field@.amplitude == ONE,
        field@.gain == HALF,
        field@.lacunarity == TWO,
        field@.permutation == shuffled(0, identity(256)) + shuffled(0, identity(256)),
        field@.gradients == Seq::new(256, |i: int| drawn(gradient_stream(0), 256)[i] / 256),
{
    match PerlinNoise::new(
        TERRAIN_SEED,
        TERRAIN_TABLE_SIZE,
        HALF,
        ONE,
        TERRAIN_OCTAVES,
        HALF,
        TWO,
    ) {
        Ok(field) => field,
        Err(_) => unreached(),
    }
}

impl PlaneModel {
    /// Triangle `t` of a plane belongs to lattice cell `t / 2`, which lies
    /// inside the lattice. The first triangle of a cell runs over the
    /// corners (1, 0, 2) and the second over (1, 2, 3). Its three indices
    /// are pairwise distinct, and so are the lattice points of the three
    /// vertices that they refer to.
    pub proof fn lemma_winding(self, t: int)
        requires
            self.wf(),
            0 <= t < 2 * (self.width_segments * self.height_segments),
        ensures
            ({
                let ws = self.width_segments as int;
                let column = (t / 2) % ws;
                let row = (t / 2) / ws;
                let first = self.indices[3 * t] as int;
                let second = self.indices[3 * t + 1] as int;
                let third = self.indices[3 * t + 2] as int;
                &&& 0 <= column < self.width_segments
                &&& 0 <= row < self.height_segments
                &&& t % 2 == 0 ==> {
                    &&& first == quad_corner(ws, column, row, 1)
                    &&& second == quad_corner(ws, column, row, 0)
                    &&& third == quad_corner(ws, column, row, 2)
                }
                &&& t % 2 == 1 ==> {
                    &&& first == quad_corner(ws, column, row, 1)
                    &&& second == quad_corner(ws, column, row, 2)
                    &&& third == quad_corner(ws, column, row, 3)
                }
                &&& first != second && second != third && first != third
                &&& 0 <= first < self.vertices.len()
                &&& 0 <= second < self.vertices.len()
                &&& 0 <= third < self.vertices.len()
                &&& self.vertices[first] != self.vertices[second]
                &&& self.vertices[second] != self.vertices[third]
                &&& self.vertices[first] != self.vertices[third]
            }),
    {
        let ws = self.width_segments as int;
        let hs = self.height_segments as int;
        assert(index_count(ws, hs) == 6 * (ws * hs)) by (nonlinear_arith);
        lemma_indices_in_range(ws, hs);
        lemma_cell_of(ws, hs, t / 2);
        let first = self.indices[3 * t] as int;
        let second = self.indices[3 * t + 1] as int;
        let third = self.indices[3 * t + 2] as int;
        assert(first == triangle_index(ws, 3 * t));
        assert(second == triangle_index(ws, 3 * t + 1));
        assert(third == triangle_index(ws, 3 * t + 2));
        lemma_vertices_in_place(self.width_segments, self.height_segments);
        if self.vertices[first] == self.vertices[second] {
            lemma_place_determines_index(ws, first, second);
        }
        if self.vertices[second] == self.vertices[third] {
            lemma_place_determines_index(ws, second, third);
        }
        if self.vertices[first] == self.vertices[third] {
            lemma_place_determines_index(ws, first, third);
        }
    }

    /// Lifting a plane twice by the same samples gives what lifting it once
    /// gives; more, whatever a plane was lifted by before leaves no trace.
    pub proof fn lemma_lift_overwrites(self, before: Seq<u32>, heights: Seq<u32>)
        ensures
            self.lifted(heights).lifted(heights) == self.lifted(heights),
            self.lifted(before).lifted(heights) == self.lifted(heights),
    {
    }

    /// Lifting leaves the index buffer alone and gives every vertex one of
    /// the six bands of an elevation.
    pub proof fn lemma_lift_colours(self, heights: Seq<u32>)
        ensures
            self.lifted(heights).indices == self.indices,
            forall|i: int|
                0 <= i < self.lifted(heights).vertices.len() ==> (#[trigger] self.lifted(
                    heights,
                ).vertices[i]).band != Band::Placeholder,
    {
    }
}

/// Two vertex indices with the same lattice coordinates are the same index.
proof fn lemma_place_determines_index(ws: int, i: int, j: int)
    by (nonlinear_arith)
    requires
        ws >= 1,
        0 <= i,
        0 <= j,
        i % (ws + 1) == j % (ws + 1),
        i / (ws + 1) == j / (ws + 1),
    ensures
        i == j,
{
}

/// Every entry of the index buffer refers to a vertex.
pub proof fn lemma_indices_in_range(ws: int, hs: int)
    requires
        ws >= 1,
        hs >= 1,
    ensures
        forall|k: int|
            0 <= k < index_count(ws, hs) ==> 0 <= #[trigger] triangle_index(ws, k) < vertex_count(
                ws,
                hs,
            ),
{
    assert forall|k: int| 0 <= k < index_count(ws, hs) implies 0 <= #[trigger] triangle_index(
        ws,
        k,
    ) < vertex_count(ws, hs) by {
        lemma_cell_of(ws, hs, k / 6);
        let column = (k / 6) % ws;
        let row = (k / 6) / ws;
        lemma_row_end(row, hs, ws + 1);
        lemma_row_end(hs, hs + 1, ws + 1);
    }
}

/// The lattice coordinates that the row-major order gives to vertex `i` are
/// those of a lattice point, so they are kept as they are in 32 bits.
proof fn lemma_vertices_in_place(ws: u32, hs: u32)
    ensures
        forall|i: int|
            0 <= i < vertex_count(ws as int, hs as int) ==> {
                &&& (#[trigger] (i % (ws + 1))) as u32 == i % (ws + 1)
                &&& (i / (ws + 1)) as u32 == i / (ws + 1)
            },
{
    assert forall|i: int| 0 <= i < vertex_count(ws as int, hs as int) implies {
        &&& (#[trigger] (i % (ws + 1))) as u32 == i % (ws + 1)
        &&& (i / (ws + 1)) as u32 == i / (ws + 1)
    } by {
        lemma_cell_of(ws + 1, hs + 1, i);
    }
}

/// A cell number below `ws * hs` splits into a column below `ws` and a row
/// below `hs`.
proof fn lemma_cell_of(ws: int, hs: int, cell: int)
    by (nonlinear_arith)
    requires
        ws >= 1,
        0 <= cell < ws * hs,
    ensures
        0 <= cell % ws < ws,
        0 <= cell / ws < hs,
        cell == (cell / ws) * ws + cell % ws,
{
}

} // verus!
