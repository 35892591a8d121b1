use vstd::prelude::*;
use crate::fixed::isqrt;
use crate::fixed::root;
use crate::fixed::floor_div;
use crate::fixed::lemma_quotient_bounds;
use crate::fixed::saturate;
use crate::fixed::saturate_to_i32;
use crate::fixed::ONE;
use crate::shaders::ease;
use crate::shaders::eased;
use crate::shaders::lemma_mixed_between;
use crate::shaders::mix;
use crate::shaders::mixed;

verus! {

/// The pseudo-random value of the lattice corner `(x, y, z)`: the corner's
/// coordinates folded into one number, scrambled by a cubic polynomial in
/// arithmetic modulo `2^32`, and cut to 31 bits.
pub open spec fn lattice_value(x: i32, y: i32, z: i32) -> i32 {
    let folded = x.wrapping_add(y.wrapping_mul(57)).wrapping_add(z.wrapping_mul(113));
    let n = folded.wrapping_shl(13) ^ folded;
    let cubic = n.wrapping_mul(
        n.wrapping_mul(n.wrapping_mul(15731).wrapping_add(789221)).wrapping_add(1376312589),
    );
    cubic & 0x7fffffff
}

/// Hashes a lattice corner to a pseudo-random value in `0..2^31`. Gradient
/// noise maps the value to `[-1, 1]` and blends the eight corners of a cell.
pub fn lattice_hash(x: i32, y: i32, z: i32) -> (h: i32)
    ensures
        h == lattice_value(x, y, z),
        0 <= h <= 0x7fffffff,
{
    let folded: i32 = x.wrapping_add(y.wrapping_mul(57)).wrapping_add(z.wrapping_mul(113));
    let n: i32 = folded.wrapping_shl(13) ^ folded;
    let cubic: i32 = n.wrapping_mul(
        n.wrapping_mul(n.wrapping_mul(15731).wrapping_add(789221)).wrapping_add(1376312589),
    );
    assert(0 <= (cubic & 0x7fffffff) <= 0x7fffffff) by (bit_vector);
    cubic & 0x7fffffff
}

/// The lattice cell a fixed-point coordinate lies in: its whole part.
pub open spec fn lattice_cell(x: int) -> int {
    x / (ONE as int)
}

/// Where in its lattice cell a fixed-point coordinate lies: its fractional
/// part, a weight.
pub open spec fn lattice_offset(x: int) -> int {
    x % (ONE as int)
}

/// The noise value of a lattice corner, between minus one and one: one
/// minus the corner's hash over `2^30`.
pub open spec fn corner_noise(x: int, y: int, z: int) -> int {
    ONE - lattice_value(x as i32, y as i32, z as i32) / 16384
}

/// Lattice noise at the fixed-point position `(x, y, z)`: the noise values
/// of the eight corners of the position's cell, blended along `x`, then
/// along `y`, then along `z`, each time by the smooth step of the position's
/// offset in the cell.
pub open spec fn gradient_noise(x: int, y: int, z: int) -> int {
    let xi = lattice_cell(x);
    let yi = lattice_cell(y);
    let zi = lattice_cell(z);
    let u = eased(lattice_offset(x));
    let v = eased(lattice_offset(y));
    let w = eased(lattice_offset(z));
    let near = mixed(
        mixed(corner_noise(xi, yi, zi), corner_noise(xi + 1, yi, zi), u),
        mixed(corner_noise(xi, yi + 1, zi), corner_noise(xi + 1, yi + 1, zi), u),
        v,
    );
    let far = mixed(
        mixed(corner_noise(xi, yi, zi + 1), corner_noise(xi + 1, yi, zi + 1), u),
        mixed(corner_noise(xi, yi + 1, zi + 1), corner_noise(xi + 1, yi + 1, zi + 1), u),
        v,
    );
    mixed(near, far, w)
}

/// The noise value of a lattice corner.
fn corner(x: i32, y: i32, z: i32) -> (c: i32)
    ensures
        c == corner_noise(x as int, y as int, z as int),
        -ONE <= c <= ONE,
{
    ONE - lattice_hash(x, y, z) / 16384
}

/// Splits a fixed-point coordinate into its lattice cell and the smooth
/// step of its offset in the cell.
fn split(x: i32) -> (parts: (i32, i32))
    ensures
        parts.0 == lattice_cell(x as int),
        parts.1 == eased(lattice_offset(x as int)),
        -0x8000 <= parts.0 < 0x8000,
        0 <= parts.1 <= ONE,
{
    let cell: i128 = floor_div(x as i128, ONE as i128);
    proof {
        vstd::arithmetic::div_mod::lemma_fundamental_div_mod(x as int, ONE as int);
        vstd::arithmetic::div_mod::lemma_mod_bound(x as int, ONE as int);
        let q = (x as int) / (ONE as int);
        let r = (x as int) % (ONE as int);
        assert(-0x8000 <= q < 0x8000 && x - q * 65536 == r) by (nonlinear_arith)
            requires
                x == 65536 * q + r,
                0 <= r < 65536,
                -0x8000_0000 <= x < 0x8000_0000,
        ;
    }
    let offset: i128 = x as i128 - cell * (ONE as i128);
    (cell as i32, ease(offset as i32))
}

/// Lattice noise between minus one and one at a fixed-point position: the
/// pseudo-random values of the eight corners of the position's cell,
/// blended smoothly.
pub fn perlin_noise(x: i32, y: i32, z: i32) -> (n: i32)
    ensures
        n == gradient_noise(x as int, y as int, z as int),
        -ONE <= n <= ONE,
{
    let (xi, u) = split(x);
    let (yi, v) = split(y);
    let (zi, w) = split(z);
    let aaa: i32 = corner(xi, yi, zi);
    let aba: i32 = corner(xi, yi + 1, zi);
    let aab: i32 = corner(xi, yi, zi + 1);
    let abb: i32 = corner(xi, yi + 1, zi + 1);
    let baa: i32 = corner(xi + 1, yi, zi);
    let bba: i32 = corner(xi + 1, yi + 1, zi);
    let bab: i32 = corner(xi + 1, yi, zi + 1);
    let bbb: i32 = corner(xi + 1, yi + 1, zi + 1);
    let x1: i32 = mix(aaa, baa, u);
    let x2: i32 = mix(aba, bba, u);
    let x3: i32 = mix(aab, bab, u);
    let x4: i32 = mix(abb, bbb, u);
    proof {
        lemma_mixed_between(aaa as int, baa as int, u as int, -ONE as int, ONE as int);
        lemma_mixed_between(aba as int, bba as int, u as int, -ONE as int, ONE as int);
        lemma_mixed_between(aab as int, bab as int, u as int, -ONE as int, ONE as int);
        lemma_mixed_between(abb as int, bbb as int, u as int, -ONE as int, ONE as int);
    }
    let y1: i32 = mix(x1, x2, v);
    let y2: i32 = mix(x3, x4, v);
    proof {
        lemma_mixed_between(x1 as int, x2 as int, v as int, -ONE as int, ONE as int);
        lemma_mixed_between(x3 as int, x4 as int, v as int, -ONE as int, ONE as int);
        lemma_mixed_between(y1 as int, y2 as int, w as int, -ONE as int, ONE as int);
    }
    mix(y1, y2, w)
}

/// One octave of a fractal sum: lattice noise at the position scaled by
/// `frequency`, each coordinate brought into 32 bits, times `amplitude`,
/// rounded down.
pub open spec fn octave(x: int, y: int, z: int, frequency: int, amplitude: int) -> int {
    (amplitude * gradient_noise(
        saturate(x * frequency),
        saturate(y * frequency),
        saturate(z * frequency),
    )) / (ONE as int)
}

/// The sum of `octaves` octaves that begin at the given frequency and
/// amplitude, the frequency doubling and the amplitude halving from each
/// octave to the next. No octaves sum to zero.
pub open spec fn fractal_sum(x: int, y: int, z: int, octaves: int, frequency: int, amplitude: int) -> int
    decreases octaves,
{
    if octaves <= 0 {
        0
    } else {
        octave(x, y, z, frequency, amplitude) + fractal_sum(
            x,
            y,
            z,
            octaves - 1,
            2 * frequency,
            amplitude / 2,
        )
    }
}

/// Octaves without amplitude add nothing.
pub proof fn lemma_silent_octaves(x: int, y: int, z: int, octaves: int, frequency: int)
    ensures
        fractal_sum(x, y, z, octaves, frequency, 0) == 0,
    decreases octaves,
{
    if octaves > 0 {
        let g = gradient_noise(
            saturate(x * frequency),
            saturate(y * frequency),
            saturate(z * frequency),
        );
        assert(0 * g == 0) by (nonlinear_arith);
        lemma_silent_octaves(x, y, z, octaves - 1, 2 * frequency);
    }
}

/// Fractal noise: the sum of `octaves` octaves of lattice noise, the first
/// at frequency one and amplitude one half. The sum lies strictly between
/// minus one and one; no octaves, or a negative count, give zero.
pub fn fbm3d(x: i32, y: i32, z: i32, octaves: i32) -> (value: i32)
    ensures
        value == fractal_sum(x as int, y as int, z as int, octaves as int, 1, ONE / 2),
        -ONE < value < ONE,
        octaves <= 0 ==> value == 0,
{
    let mut value: i32 = 0;
    let mut amplitude: i32 = ONE / 2;
    let mut frequency: i64 = 1;
    let mut k: i32 = 0;
    while k < octaves && amplitude > 0
        invariant
            0 <= k,
            k <= octaves || octaves < 0,
            0 <= amplitude <= ONE / 2,
            1 <= frequency,
            frequency * amplitude <= ONE / 2,
            -ONE + 2 * amplitude <= value <= ONE - 2 * amplitude,
            amplitude == 0 ==> -ONE < value < ONE,
            value + fractal_sum(
                x as int,
                y as int,
                z as int,
                octaves - k,
                frequency as int,
                amplitude as int,
            ) == fractal_sum(x as int, y as int, z as int, octaves as int, 1, ONE / 2),
        decreases octaves - k,
    {
        proof {
            assert(frequency <= ONE / 2) by (nonlinear_arith)
                requires
                    frequency * amplitude <= ONE / 2,
                    amplitude >= 1,
                    frequency >= 1,
            ;
            assert(-0x8000_0000_0000 <= x * frequency <= 0x8000_0000_0000) by (nonlinear_arith)
                requires
                    -0x8000_0000 <= x <= 0x8000_0000,
                    1 <= frequency <= 0x1_0000,
            ;
            assert(-0x8000_0000_0000 <= y * frequency <= 0x8000_0000_0000) by (nonlinear_arith)
                requires
                    -0x8000_0000 <= y <= 0x8000_0000,
                    1 <= frequency <= 0x1_0000,
            ;
            assert(-0x8000_0000_0000 <= z * frequency <= 0x8000_0000_0000) by (nonlinear_arith)
                requires
                    -0x8000_0000 <= z <= 0x8000_0000,
                    1 <= frequency <= 0x1_0000,
            ;
        }
        let noise: i32 = perlin_noise(
            saturate_to_i32((x as i128) * (frequency as i128)),
            saturate_to_i32((y as i128) * (frequency as i128)),
            saturate_to_i32((z as i128) * (frequency as i128)),
        );
        proof {
            assert(-amplitude * ONE <= amplitude * noise <= amplitude * ONE) by (nonlinear_arith)
                requires
                    0 <= amplitude,
                    -ONE <= noise <= ONE,
            ;
            lemma_quotient_bounds(amplitude * noise, ONE as int, -amplitude, amplitude as int);
            assert(-0x1_0000_0000 <= amplitude * noise <= 0x1_0000_0000) by (nonlinear_arith)
                requires
                    0 <= amplitude <= 0x8000,
                    -0x1_0000 <= noise <= 0x1_0000,
            ;
            assert((2 * frequency) * (amplitude / 2) <= ONE / 2) by (nonlinear_arith)
                requires
                    frequency * amplitude <= ONE / 2,
                    0 <= amplitude / 2,
                    2 * (amplitude / 2) <= amplitude,
                    frequency >= 1,
            ;
        }
        let term: i128 = floor_div((amplitude as i128) * (noise as i128), ONE as i128);
        value = value + term as i32;
        frequency = 2 * frequency;
        amplitude = amplitude / 2;
        k = k + 1;
    }
    proof {
        if k < octaves {
            lemma_silent_octaves(x as int, y as int, z as int, octaves - k, frequency as int);
        }
    }
    value
}

/// The amplitude of octave `k` of a fractal sum: one half for the first
/// octave, halved from each octave to the next, and nothing from the
/// seventeenth octave on, where sixteen fractional bits are used up.
pub open spec fn octave_amplitude(k: int) -> int
    decreases k,
{
    if k <= 0 {
        ONE / 2
    } else {
        octave_amplitude(k - 1) / 2
    }
}

/// The position at which octave `k` of a fractal sum at `(x, y)` takes its
/// sample: the position with both coordinates doubled `k` times, each
/// brought into 32 bits.
pub open spec fn octave_position(x: int, y: int, k: int) -> (int, int)
    decreases k,
{
    if k <= 0 {
        (x, y)
    } else {
        let before = octave_position(x, y, k - 1);
        (saturate(2 * before.0), saturate(2 * before.1))
    }
}

/// How many octaves of a fractal sum can add to it: as many as were asked
/// for, but none for a negative count, and no more than sixteen.
pub open spec fn sounding_octaves(octaves: int) -> int {
    if octaves <= 0 {
        0
    } else if octaves >= 16 {
        16
    } else {
        octaves
    }
}

/// The positions at which a fractal sum of `octaves` octaves at `(x, y)`
/// takes its samples, one for each octave that can add to the sum.
pub fn octave_positions(x: i32, y: i32, octaves: i32) -> (positions: Vec<(i32, i32)>)
    ensures
        positions.len() == sounding_octaves(octaves as int),
        forall|k: int|
            0 <= k < positions.len() ==> (#[trigger] positions[k].0) as int == octave_position(
                x as int,
                y as int,
                k,
            ).0 && positions[k].1 as int == octave_position(x as int, y as int, k).1,
{
    let mut positions: Vec<(i32, i32)> = Vec::new();
    let mut px: i32 = x;
    let mut py: i32 = y;
    let mut k: i32 = 0;
    while k < octaves && k < 16
        invariant
            0 <= k <= sounding_octaves(octaves as int),
            positions.len() == k,
            (px as int, py as int) == octave_position(x as int, y as int, k as int),
            forall|j: int|
                0 <= j < positions.len() ==> (#[trigger] positions[j].0) as int == octave_position(
                    x as int,
                    y as int,
                    j,
                ).0 && positions[j].1 as int == octave_position(x as int, y as int, j).1,
        decreases 16 - k,
    {
        positions.push((px, py));
        px = saturate_to_i32(2 * (px as i128));
        py = saturate_to_i32(2 * (py as i128));
        k = k + 1;
    }
    positions
}

/// The sum of the first `k` samples, each weighted by the amplitude of its
/// octave and rounded down.
pub open spec fn weighted_samples(samples: Seq<i32>, k: int) -> int
    decreases k,
{
    if k <= 0 {
        0
    } else {
        weighted_samples(samples, k - 1) + (octave_amplitude(k - 1) * samples[k - 1]) / (
        ONE as int)
    }
}

/// The ridge of a sample between zero and one: `1 - |2 n - 1|`, which is
/// one for a sample of one half and falls to zero towards both ends.
pub open spec fn ridge(sample: int) -> int {
    if 2 * sample >= ONE {
        2 * ONE - 2 * sample
    } else {
        2 * sample
    }
}

/// The sum of the ridges of the first `k` samples, each weighted by the
/// amplitude of its octave and rounded down.
pub open spec fn weighted_ridges(samples: Seq<i32>, k: int) -> int
    decreases k,
{
    if k <= 0 {
        0
    } else {
        weighted_ridges(samples, k - 1) + (octave_amplitude(k - 1) * ridge(samples[k - 1] as int))
            / (ONE as int)
    }
}

/// Every sample is a noise value between zero and one.
pub open spec fn unit_samples(samples: Seq<i32>) -> bool {
    forall|k: int| 0 <= k < samples.len() ==> 0 <= #[trigger] samples[k] <= ONE
}

/// Fractal noise from the samples of its octaves: sample `k`, a noise
/// value between zero and one taken at the position of octave `k`, is
/// weighted by the amplitude of its octave. No samples sum to zero; samples
/// beyond the sixteenth add nothing; and the sum lies between zero and one.
pub fn fbm(samples: &Vec<i32>) -> (value: i32)
    requires
        unit_samples(samples@),
    ensures
        value == weighted_samples(samples@, sounding_octaves(samples.len() as int)),
        0 <= value <= ONE,
{
    let mut value: i32 = 0;
    let mut amplitude: i32 = ONE / 2;
    let mut k: usize = 0;
    while k < samples.len() && k < 16
        invariant
            0 <= k <= 16,
            k <= samples.len(),
            unit_samples(samples@),
            amplitude == octave_amplitude(k as int),
            0 <= amplitude <= ONE / 2,
            0 <= value <= ONE - 2 * amplitude,
            value == weighted_samples(samples@, k as int),
        decreases 16 - k,
    {
        let sample: i32 = samples[k];
        proof {
            assert(0 <= amplitude * sample <= amplitude * ONE) by (nonlinear_arith)
                requires
                    0 <= amplitude,
                    0 <= sample <= ONE,
            ;
            lemma_quotient_bounds(amplitude * sample, ONE as int, 0, amplitude as int);
            assert(amplitude * sample <= 0x8000 * 0x1_0000) by (nonlinear_arith)
                requires
                    0 <= amplitude <= 0x8000,
                    0 <= sample <= 0x1_0000,
            ;
        }
        value = value + ((amplitude as i64) * (sample as i64) / (ONE as i64)) as i32;
        amplitude = amplitude / 2;
        k = k + 1;
    }
    value
}

/// Ridged fractal noise from the samples of its octaves: as `fbm`, but each
/// sample is folded into a ridge first, which gives sharp crests where the
/// samples pass one half.
pub fn ridge_noise(samples: &Vec<i32>) -> (value: i32)
    requires
        unit_samples(samples@),
    ensures
        value == weighted_ridges(samples@, sounding_octaves(samples.len() as int)),
        0 <= value <= ONE,
{
    let mut value: i32 = 0;
    let mut amplitude: i32 = ONE / 2;
    let mut k: usize = 0;
    while k < samples.len() && k < 16
        invariant
            0 <= k <= 16,
            k <= samples.len(),
            unit_samples(samples@),
            amplitude == octave_amplitude(k as int),
            0 <= amplitude <= ONE / 2,
            0 <= value <= ONE - 2 * amplitude,
            value == weighted_ridges(samples@, k as int),
        decreases 16 - k,
    {
        let sample: i32 = samples[k];
        let fold: i32 = if 2 * sample >= ONE {
            2 * ONE - 2 * sample
        } else {
            2 * sample
        };
        proof {
            assert(0 <= amplitude * fold <= amplitude * ONE) by (nonlinear_arith)
                requires
                    0 <= amplitude,
                    0 <= fold <= ONE,
            ;
            lemma_quotient_bounds(amplitude * fold, ONE as int, 0, amplitude as int);
            assert(amplitude * fold <= 0x8000 * 0x1_0000) by (nonlinear_arith)
                requires
                    0 <= amplitude <= 0x8000,
                    0 <= fold <= 0x1_0000,
            ;
        }
        value = value + ((amplitude as i64) * (fold as i64) / (ONE as i64)) as i32;
        amplitude = amplitude / 2;
        k = k + 1;
    }
    value
}

/// Cell `k` of the nine lattice cells around the position `(x, y)`, column
/// by column: the whole coordinates of the cell of the position itself, moved
/// by `k / 3 - 1` along `x` and by `k % 3 - 1` along `y`.
pub open spec fn nearby_cell(x: int, y: int, k: int) -> (int, int) {
    (lattice_cell(x) + k / 3 - 1, lattice_cell(y) + k % 3 - 1)
}

/// The distance from `(x, y)` to the feature point of the cell `cell`,
/// which lies in the cell at the offset `jitter`.
pub open spec fn feature_distance(x: int, y: int, cell: (int, int), jitter: (i32, i32)) -> int {
    let dx = x - (cell.0 * ONE + jitter.0);
    let dy = y - (cell.1 * ONE + jitter.1);
    root(dx * dx + dy * dy)
}

/// The least of the distances from `(x, y)` to the feature points of the
/// first `k` of the nine cells around it. Before any cell, it is as far as
/// the numbers reach.
pub open spec fn least_distance(x: int, y: int, jitter: Seq<(i32, i32)>, k: int) -> int
    decreases k,
{
    if k <= 0 {
        0x7fff_ffff
    } else {
        let before = least_distance(x, y, jitter, k - 1);
        let here = feature_distance(x, y, nearby_cell(x, y, k - 1), jitter[k - 1]);
        if here < before {
            here
        } else {
            before
        }
    }
}

/// Every offset places its feature point inside its cell.
pub open spec fn unit_jitter(jitter: Seq<(i32, i32)>) -> bool {
    forall|k: int|
        0 <= k < jitter.len() ==> 0 <= (#[trigger] jitter[k]).0 <= ONE && 0 <= jitter[k].1 <= ONE
}

/// The nine lattice cells around a position, by their whole coordinates, in
/// the order in which `voronoi_noise` takes their offsets.
pub fn voronoi_cells(x: i32, y: i32) -> (cells: Vec<(i32, i32)>)
    ensures
        cells.len() == 9,
        forall|k: int|
            0 <= k < 9 ==> (#[trigger] cells[k].0) as int == nearby_cell(x as int, y as int, k).0
                && cells[k].1 as int == nearby_cell(x as int, y as int, k).1,
{
    let (cx, _) = split(x);
    let (cy, _) = split(y);
    let mut cells: Vec<(i32, i32)> = Vec::new();
    let mut k: i32 = 0;
    while k < 9
        invariant
            0 <= k <= 9,
            cells.len() == k,
            cx == lattice_cell(x as int),
            cy == lattice_cell(y as int),
            -0x8000 <= cx < 0x8000,
            -0x8000 <= cy < 0x8000,
            forall|j: int|
                0 <= j < k ==> (#[trigger] cells[j].0) as int == nearby_cell(x as int, y as int, j).0
                    && cells[j].1 as int == nearby_cell(x as int, y as int, j).1,
        decreases 9 - k,
    {
        cells.push((cx + k / 3 - 1, cy + k % 3 - 1));
        k = k + 1;
    }
    cells
}

/// Cell noise: the distance from the position `(x, y)` to the nearest of
/// the feature points of the nine lattice cells around it. `jitter` holds
/// for each of the nine cells, in the order of `voronoi_cells`, where in
/// the cell its feature point lies. The distance is never negative, and
/// never more than the diagonal of a cell, since the feature point of the
/// position's own cell is that near.
pub fn voronoi_noise(x: i32, y: i32, jitter: &Vec<(i32, i32)>) -> (distance: i32)
    requires
        jitter.len() == 9,
        unit_jitter(jitter@),
    ensures
        distance == least_distance(x as int, y as int, jitter@, 9),
        0 <= distance <= 92681,
{
    let (cx, _) = split(x);
    let (cy, _) = split(y);
    let mut least: i32 = 0x7fff_ffff;
    let mut k: usize = 0;
    while k < 9
        invariant
            0 <= k <= 9,
            jitter.len() == 9,
            unit_jitter(jitter@),
            cx == lattice_cell(x as int),
            cy == lattice_cell(y as int),
            -0x8000 <= cx < 0x8000,
            -0x8000 <= cy < 0x8000,
            least == least_distance(x as int, y as int, jitter@, k as int),
            0 <= least,
            k > 0 ==> least <= 3 * ONE,
            k > 4 ==> least <= 92681,
        decreases 9 - k,
    {
        let offset: (i32, i32) = jitter[k];
        let cell_x: i64 = cx as i64 + (k as i64) / 3 - 1;
        let cell_y: i64 = cy as i64 + (k as i64) % 3 - 1;
        proof {
            vstd::arithmetic::div_mod::lemma_fundamental_div_mod(x as int, ONE as int);
            vstd::arithmetic::div_mod::lemma_mod_bound(x as int, ONE as int);
            vstd::arithmetic::div_mod::lemma_fundamental_div_mod(y as int, ONE as int);
            vstd::arithmetic::div_mod::lemma_mod_bound(y as int, ONE as int);
            assert(cell_x * ONE == ONE * cx + ONE * (k / 3 - 1)) by (nonlinear_arith)
                requires
                    cell_x == cx + k / 3 - 1,
            ;
            assert(cell_y * ONE == ONE * cy + ONE * (k % 3 - 1)) by (nonlinear_arith)
                requires
                    cell_y == cy + k % 3 - 1,
            ;
            assert(-ONE <= ONE * (k / 3 - 1) <= ONE) by (nonlinear_arith)
                requires
                    -1 <= k / 3 - 1 <= 1,
                    ONE == 0x1_0000,
            ;
            assert(-ONE <= ONE * (k % 3 - 1) <= ONE) by (nonlinear_arith)
                requires
                    -1 <= k % 3 - 1 <= 1,
                    ONE == 0x1_0000,
            ;
            assert(-0x8000_0000 <= ONE * cx <= 0x8000_0000) by (nonlinear_arith)
                requires
                    -0x8000 <= cx <= 0x8000,
                    ONE == 0x1_0000,
            ;
            assert(-0x8000_0000 <= ONE * cy <= 0x8000_0000) by (nonlinear_arith)
                requires
                    -0x8000 <= cy <= 0x8000,
                    ONE == 0x1_0000,
            ;
            assert(x == ONE * cx + (x as int) % (ONE as int));
            assert(y == ONE * cy + (y as int) % (ONE as int));
            assert(0 <= offset.0 <= ONE && 0 <= offset.1 <= ONE);
        }
        let dx: i64 = x as i64 - (cell_x * (ONE as i64) + offset.0 as i64);
        let dy: i64 = y as i64 - (cell_y * (ONE as i64) + offset.1 as i64);
        proof {
            assert(-0x2_0000 <= dx < 0x2_0000);
            assert(-0x2_0000 <= dy < 0x2_0000);
            assert(0 <= dx * dx <= 17179869184) by (nonlinear_arith)
                requires
                    -0x2_0000 <= dx <= 0x2_0000,
            ;
            assert(0 <= dy * dy <= 17179869184) by (nonlinear_arith)
                requires
                    -0x2_0000 <= dy <= 0x2_0000,
            ;
        }
        let square: u64 = (dx * dx + dy * dy) as u64;
        let here: u64 = isqrt(square);
        proof {
            if here > 3 * ONE {
                assert(here * here >= 38655098881) by (nonlinear_arith)
                    requires
                        here >= 196609,
                ;
                assert(dx * dx <= 17179869184 && dy * dy <= 17179869184);
                assert(here * here <= square);
                assert(false);
            }
            if k == 4 {
                // The cell of the position itself: its feature point is
                // within one cell along either axis.
                assert(-0x1_0000 <= dx <= 0x1_0000);
                assert(-0x1_0000 <= dy <= 0x1_0000);
                assert(dx * dx <= 4294967296) by (nonlinear_arith)
                    requires
                        -0x1_0000 <= dx <= 0x1_0000,
                ;
                assert(dy * dy <= 4294967296) by (nonlinear_arith)
                    requires
                        -0x1_0000 <= dy <= 0x1_0000,
                ;
                if here > 92681 {
                    assert(here * here >= 8589953124) by (nonlinear_arith)
                        requires
                            here >= 92682,
                    ;
                    assert(here * here <= square);
                    assert(false);
                }
            }
        }
        if (here as i32) < least {
            least = here as i32;
        }
        k = k + 1;
    }
    least
}

} // verus!
