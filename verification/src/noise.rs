//! The lattice of a two-dimensional gradient noise field.
//!
//! A field of table size `N` owns a permutation of `0..N`, stored twice in a
//! row so that a lookup one past a cell coordinate needs no wrap-around, and
//! `N` gradient directions. Evaluating noise at a point starts here: the
//! point is floored and wrapped into a cell, and the four corners of the cell
//! are sent through the permutation to their gradients. Blending the four
//! contributions is rounding arithmetic and is left to the caller.

use crate::binary32::floor;
use crate::binary32::floor_value;
use crate::binary32::has_floor;
use crate::random::drawn;
use crate::random::fill_seeded;
use crate::random::shuffle_seeded;
use crate::random::shuffled;
use vstd::arithmetic::div_mod::lemma_fundamental_div_mod;
use vstd::arithmetic::div_mod::lemma_fundamental_div_mod_converse;
use vstd::prelude::*;

verus! {

/// Why a noise field could not be built or sampled.
#[derive(Clone, Copy, Debug, PartialEq, Eq, Structural)]
pub enum NoiseError {
    /// A field was asked for with no octaves; its normalising weight would
    /// be zero.
    ZeroOctaves,
    /// A sample coordinate is an infinity or a NaN, or its floor does not
    /// fit in an `i64`.
    InvalidCoordinate,
}

/// A source of coherent noise over the plane.
///
/// Coordinates and values are binary32 patterns. Nothing is asked of an
/// implementation; what one promises of `get_noise` is carried over to the
/// samples taken with it.
pub trait Noise2D {
    /// Evaluates the source at `(x, y)`.
    fn get_noise(&self, x: u32, y: u32) -> u32;
}

/// The number of distinct gradient directions: an angle is a count of
/// 1/2^24 th parts of a full turn.
pub const ANGLE_STEPS: u32 = 0x100_0000;

/// A gradient of the field: its place in the gradient table and its
/// direction, in steps of 1/2^24 of a full turn counted from the x axis.
#[derive(Clone, Copy, Debug, PartialEq, Eq, Structural)]
pub struct Gradient {
    pub index: usize,
    pub angle: u32,
}

/// The lattice cell of a sample point and the gradients at its corners.
///
/// `column` and `row` are the floored coordinates wrapped into the table.
/// "Right" is one column further, "top" one row further.
#[derive(Clone, Copy, Debug, PartialEq, Eq, Structural)]
pub struct CellSample {
    pub column: usize,
    pub row: usize,
    pub bottom_left: Gradient,
    pub bottom_right: Gradient,
    pub top_left: Gradient,
    pub top_right: Gradient,
}

/// The sequence `0, 1, .., n - 1`.
pub open spec fn identity(n: nat) -> Seq<usize> {
    Seq::new(n, |i: int| i as usize)
}

/// Whether `order` lists every index below its length exactly once.
pub open spec fn is_permutation(order: Seq<usize>) -> bool {
    &&& forall|i: int| 0 <= i < order.len() ==> (#[trigger] order[i]) < order.len()
    &&& forall|i: int, j: int| 0 <= i < j < order.len() ==> order[i] != order[j]
}

/// The seed of the generator that draws the gradient directions of the
/// field with seed `seed`; the permutation is drawn from `seed` itself.
pub open spec fn gradient_stream(seed: u32) -> u64 {
    (seed + 0x1_0000_0000) as u64
}

/// The coordinate `floored` wrapped into a table of `size` entries: the
/// remainder of the Euclidean division, which lies in `0..size` for
/// negative coordinates too.
pub open spec fn wrapped(floored: int, size: int) -> int {
    floored % size
}

/// What a noise field is: its parameters and its two tables.
pub struct NoiseModel {
    pub seed: u32,
    pub size: nat,
    pub frequency: u32,
    pub amplitude: u32,
    pub octaves: u32,
    pub gain: u32,
    pub lacunarity: u32,
    pub permutation: Seq<usize>,
    pub gradients: Seq<u32>,
}

impl NoiseModel {
    /// The field with the given parameters whose permutation table is
    /// `order` twice in a row and whose gradient directions are the top
    /// twenty-four bits of `words`.
    pub open spec fn assemble(
        seed: u32,
        frequency: u32,
        amplitude: u32,
        octaves: u32,
        gain: u32,
        lacunarity: u32,
        order: Seq<usize>,
        words: Seq<u32>,
    ) -> NoiseModel {
        NoiseModel {
            seed,
            size: order.len(),
            frequency,
            amplitude,
            octaves,
            gain,
            lacunarity,
            permutation: order + order,
            gradients: Seq::new(words.len(), |i: int| words[i] / 256),
        }
    }

    /// The invariant of a field: at least one octave, a table size of at
    /// least one, a permutation of `0..size` followed by a copy of itself,
    /// and one direction per permutation value.
    pub open spec fn wf(self) -> bool {
        &&& self.octaves >= 1
        &&& self.size >= 1
        &&& self.permutation.len() == 2 * self.size
        &&& is_permutation(self.permutation.take(self.size as int))
        &&& forall|i: int|
            0 <= i < self.size ==> self.permutation[i + self.size] == #[trigger] self.permutation[i]
        &&& self.gradients.len() == self.size
        &&& forall|i: int| 0 <= i < self.size ==> (#[trigger] self.gradients[i]) < ANGLE_STEPS
    }

    /// The gradient that the corner `(column + dx, row + dy)` selects: the
    /// permutation applied to the column, offset by the row, and applied
    /// again.
    pub open spec fn corner(self, column: int, row: int, dx: int, dy: int) -> Gradient {
        let index = self.permutation[self.permutation[column + dx] + row + dy];
        Gradient { index, angle: self.gradients[index as int] }
    }

    /// The cell `(column, row)` with the gradients of its four corners.
    pub open spec fn cell(self, column: int, row: int) -> CellSample {
        CellSample {
            column: column as usize,
            row: row as usize,
            bottom_left: self.corner(column, row, 0, 0),
            bottom_right: self.corner(column, row, 1, 0),
            top_left: self.corner(column, row, 0, 1),
            top_right: self.corner(column, row, 1, 1),
        }
    }

    /// The cell of the point whose floored coordinates are `x` and `y`.
    pub open spec fn cell_at(self, x: int, y: int) -> CellSample {
        self.cell(wrapped(x, self.size as int), wrapped(y, self.size as int))
    }
}

/// A gradient noise field: fractal parameters, a doubled permutation table
/// and a table of gradient directions.
///
/// The four real parameters are binary32 bit patterns. The field never
/// changes after it is built.
#[derive(Debug)]
pub struct PerlinNoise {
    seed: u32,
    size: usize,
    frequency: u32,
    amplitude: u32,
    octaves: u32,
    gain: u32,
    lacunarity: u32,
    permutation: Vec<usize>,
    gradients: Vec<u32>,
}

impl View for PerlinNoise {
    type V = NoiseModel;

    closed spec fn view(&self) -> NoiseModel {
        NoiseModel {
            seed: self.seed,
            size: self.size as nat,
            frequency: self.frequency,
            amplitude: self.amplitude,
            octaves: self.octaves,
            gain: self.gain,
            lacunarity: self.lacunarity,
            permutation: self.permutation@,
            gradients: self.gradients@,
        }
    }
}

/// Wraps a floored coordinate into a table of `size` entries.
pub fn wrap(floored: i64, size: usize) -> (r: usize)
    requires
        size >= 1,
    ensures
        r == wrapped(floored as int, size as int),
{
    let modulus: u64 = size as u64;
    if floored >= 0 {
        let r: u64 = (floored as u64) % modulus;
        r as usize
    } else {
        let below: u64 = (-(floored + 1)) as u64;
        let r: u64 = below % modulus;
        proof {
            let q = below as int / modulus as int;
            lemma_fundamental_div_mod(below as int, modulus as int);
            assert(floored as int == (-q - 1) * modulus + (modulus - 1 - r)) by (nonlinear_arith)
                requires
                    below as int == modulus * q + r,
                    floored as int == -(below as int) - 1,
            ;
            lemma_fundamental_div_mod_converse(
                floored as int,
                modulus as int,
                -q - 1,
                modulus - 1 - r,
            );
        }
        (modulus - 1 - r) as usize
    }
}

/// A sequence that holds what `identity(n)` holds, each value once, lists
/// every index below `n` exactly once.
proof fn lemma_rearranged_identity(n: nat, order: Seq<usize>)
    requires
        n <= usize::MAX,
        order.to_multiset() == identity(n).to_multiset(),
    ensures
        order.len() == n,
        is_permutation(order),
{
    let id = identity(n);
    id.to_multiset_ensures();
    order.to_multiset_ensures();
    assert forall|i: int| 0 <= i < order.len() implies (#[trigger] order[i]) < order.len() by {
        assert(order.contains(order[i]));
        assert(id.to_multiset().count(order[i]) > 0);
        assert(id.contains(order[i]));
        let j = choose|j: int| 0 <= j < id.len() && id[j] == order[i];
        assert(id[j] == j);
    }
    assert(id.no_duplicates());
    id.lemma_multiset_has_no_duplicates();
    order.lemma_multiset_has_no_duplicates_conv();
}

impl PerlinNoise {
    #[verifier::type_invariant]
    spec fn inv(&self) -> bool {
        self@.wf() && 2 * self.size <= usize::MAX
    }

    /// Builds the field from a permutation and from random words that were
    /// drawn beforehand.
    ///
    /// The table size is the length of `order`. The permutation table is
    /// `order` followed by a copy of itself; the direction of gradient `i` is
    /// the top twenty-four bits of `words[i]`, read as a fraction of a full
    /// turn. A field without octaves is refused.
    pub fn from_tables(
        seed: u32,
        frequency: u32,
        amplitude: u32,
        octaves: u32,
        gain: u32,
        lacunarity: u32,
        order: Vec<usize>,
        words: Vec<u32>,
    ) -> (r: Result<PerlinNoise, NoiseError>)
        requires
            order@.len() >= 1,
            2 * order@.len() <= usize::MAX,
            is_permutation(order@),
            words@.len() == order@.len(),
        ensures
            octaves == 0 ==> r == Err::<PerlinNoise, NoiseError>(NoiseError::ZeroOctaves),
            octaves != 0 ==> r is Ok && r->Ok_0@ == NoiseModel::assemble(
                seed,
                frequency,
                amplitude,
                octaves,
                gain,
                lacunarity,
                order@,
                words@,
            ),
            r matches Ok(field) ==> field@.wf(),
    {
        if octaves == 0 {
            return Err(NoiseError::ZeroOctaves);
        }
        let size: usize = order.len();
        let mut permutation: Vec<usize> = Vec::new();
        let mut i: usize = 0;
        while i < 2 * size
            invariant
                size == order@.len(),
                2 * size <= usize::MAX,
                i <= 2 * size,
                permutation@ == (order@ + order@).take(i as int),
            decreases 2 * size - i,
        {
            let from: usize = if i < size { i } else { i - size };
            permutation.push(order[from]);
            i += 1;
        }
        assert(permutation@ == order@ + order@);
        let mut gradients: Vec<u32> = Vec::new();
        let mut k: usize = 0;
        while k < size
            invariant
                size == words@.len(),
                k <= size,
                gradients@ == Seq::new(k as nat, |j: int| words@[j] / 256),
            decreases size - k,
        {
            gradients.push(words[k] / 256);
            k += 1;
        }
        assert(permutation@.take(size as int) == order@);
        Ok(
            PerlinNoise {
                seed,
                size,
                frequency,
                amplitude,
                octaves,
                gain,
                lacunarity,
                permutation,
                gradients,
            },
        )
    }

    /// Builds the field with table size `size` that belongs to `seed`.
    ///
    /// The permutation is `0..size` shuffled by a generator seeded with
    /// `seed`; the gradient directions come from a second generator, seeded
    /// with `gradient_stream(seed)`. Equal arguments therefore give equal
    /// fields. A field without octaves is refused.
    pub fn new(
        seed: u32,
        size: usize,
        frequency: u32,
        amplitude: u32,
        octaves: u32,
        gain: u32,
        lacunarity: u32,
    ) -> (r: Result<PerlinNoise, NoiseError>)
        requires
            size >= 1,
            2 * size <= usize::MAX,
        ensures
            octaves == 0 ==> r == Err::<PerlinNoise, NoiseError>(NoiseError::ZeroOctaves),
            octaves != 0 ==> r is Ok && r->Ok_0@ == NoiseModel::assemble(
                seed,
                frequency,
                amplitude,
                octaves,
                gain,
                lacunarity,
                shuffled(seed as u64, identity(size as nat)),
                drawn(gradient_stream(seed), size as nat),
            ),
            r matches Ok(field) ==> field@.wf() && field@.size == size,
    {
        if octaves == 0 {
            return Err(NoiseError::ZeroOctaves);
        }
        let mut order: Vec<usize> = Vec::new();
        let mut words: Vec<u32> = Vec::new();
        let mut i: usize = 0;
        while i < size
            invariant
                i <= size,
                order@ == identity(i as nat),
                words@.len() == i,
            decreases size - i,
        {
            order.push(i);
            words.push(0);
            i += 1;
        }
        shuffle_seeded(seed as u64, &mut order);
        proof {
            lemma_rearranged_identity(size as nat, order@);
        }
        fill_seeded(seed as u64 + 0x1_0000_0000, &mut words);
        Self::from_tables(seed, frequency, amplitude, octaves, gain, lacunarity, order, words)
    }

    /// Finds the lattice cell of the point `(x, y)`, given as binary32
    /// patterns, and the gradients at the cell's four corners.
    ///
    /// Each coordinate is floored and wrapped into the table; a corner is
    /// sent through the permutation twice, first by column, then by row. A
    /// coordinate without a floor is refused.
    pub fn locate(&self, x: u32, y: u32) -> (r: Result<CellSample, NoiseError>)
        ensures
            r == (if has_floor(x) && has_floor(y) {
                Ok::<CellSample, NoiseError>(self@.cell_at(floor_value(x), floor_value(y)))
            } else {
                Err::<CellSample, NoiseError>(NoiseError::InvalidCoordinate)
            }),
    {
        proof {
            use_type_invariant(self);
        }
        let column: usize = match floor(x) {
            Some(floored) => wrap(floored, self.size),
            None => {
                return Err(NoiseError::InvalidCoordinate);
            },
        };
        let row: usize = match floor(y) {
            Some(floored) => wrap(floored, self.size),
            None => {
                return Err(NoiseError::InvalidCoordinate);
            },
        };
        Ok(self.cell(column, row))
    }

    /// The cell `(column, row)` of the table with the gradients of its four
    /// corners.
    pub fn cell(&self, column: usize, row: usize) -> (r: CellSample)
        requires
            column < self@.size,
            row < self@.size,
        ensures
            r == self@.cell(column as int, row as int),
    {
        CellSample {
            column,
            row,
            bottom_left: self.corner(column, row),
            bottom_right: self.corner(column + 1, row),
            top_left: self.corner(column, row + 1),
            top_right: self.corner(column + 1, row + 1),
        }
    }

    /// The gradient selected by the lattice point `(x, y)`, each coordinate
    /// at most one past the table.
    fn corner(&self, x: usize, y: usize) -> (r: Gradient)
        requires
            x <= self@.size,
            y <= self@.size,
        ensures
            r == self@.corner(x as int, y as int, 0, 0),
            r.index < self@.size,
            r.angle < ANGLE_STEPS,
    {
        proof {
            use_type_invariant(self);
            self@.lemma_values_in_range();
        }
        let by_column: usize = self.permutation[x];
        let index: usize = self.permutation[by_column + y];
        Gradient { index, angle: self.gradients[index] }
    }

    /// The seed that the tables were drawn from.
    pub fn seed(&self) -> (r: u32)
        ensures
            r == self@.seed,
    {
        self.seed
    }

    /// The table size: the number of gradients, and half the length of
    /// the permutation table.
    pub fn size(&self) -> (r: usize)
        ensures
            r == self@.size,
            r >= 1,
    {
        proof {
            use_type_invariant(self);
        }
        self.size
    }

    /// The frequency of the first octave, a binary32 pattern.
    pub fn frequency(&self) -> (r: u32)
        ensures
            r == self@.frequency,
    {
        self.frequency
    }

    /// The weight of the first octave, a binary32 pattern.
    pub fn amplitude(&self) -> (r: u32)
        ensures
            r == self@.amplitude,
    {
        self.amplitude
    }

    /// The number of octaves, at least one.
    pub fn octaves(&self) -> (r: u32)
        ensures
            r == self@.octaves,
            r >= 1,
    {
        proof {
            use_type_invariant(self);
        }
        self.octaves
    }

    /// The factor on the weight from one octave to the next, a binary32
    /// pattern.
    pub fn gain(&self) -> (r: u32)
        ensures
            r == self@.gain,
    {
        self.gain
    }

    /// The factor on the frequency from one octave to the next, a binary32
    /// pattern.
    pub fn lacunarity(&self) -> (r: u32)
        ensures
            r == self@.lacunarity,
    {
        self.lacunarity
    }

    /// The permutation table, twice the table size long.
    pub fn permutation(&self) -> (r: &Vec<usize>)
        ensures
            r@ == self@.permutation,
            self@.wf(),
    {
        proof {
            use_type_invariant(self);
        }
        &self.permutation
    }

    /// The gradient directions, one per permutation value, each below
    /// `ANGLE_STEPS`.
    pub fn gradients(&self) -> (r: &Vec<u32>)
        ensures
            r@ == self@.gradients,
            self@.wf(),
    {
        proof {
            use_type_invariant(self);
        }
        &self.gradients
    }
}

impl NoiseModel {
    /// Every value of the doubled table is an index into the gradients, and
    /// so into the first half of the table.
    pub proof fn lemma_values_in_range(self)
        requires
            self.wf(),
        ensures
            forall|i: int| 0 <= i < 2 * self.size ==> (#[trigger] self.permutation[i]) < self.size,
    {
        let half = self.permutation.take(self.size as int);
        assert forall|i: int| 0 <= i < 2 * self.size implies (#[trigger] self.permutation[i])
            < self.size by {
            let j = if i < self.size { i } else { i - self.size };
            assert(half[j] < half.len());
            assert(self.permutation[j + self.size] == self.permutation[j]);
        }
    }
}

} // verus!
