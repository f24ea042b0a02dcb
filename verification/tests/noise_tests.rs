use terrain::noise::{wrap, CellSample, Gradient, NoiseError, PerlinNoise, ANGLE_STEPS};
use terrain::plane::terrain_noise;

fn bits(value: f32) -> u32 {
    value.to_bits()
}

/// A field of table size four with a known permutation and known angles.
fn small_field() -> PerlinNoise {
    PerlinNoise::from_tables(
        7,
        bits(0.5),
        bits(1.0),
        3,
        bits(0.5),
        bits(2.0),
        vec![2, 0, 3, 1],
        vec![0x0000_0100, 0x0000_02ff, 0xffff_ffff, 0x8000_0000],
    )
    .unwrap()
}

#[test]
fn zero_octaves_are_refused() {
    let field = PerlinNoise::new(0, 256, bits(0.5), bits(1.0), 0, bits(0.5), bits(2.0));
    assert_eq!(field.err(), Some(NoiseError::ZeroOctaves));
    let field = PerlinNoise::from_tables(0, 0, 0, 0, 0, 0, vec![0], vec![0]);
    assert_eq!(field.err(), Some(NoiseError::ZeroOctaves));
}

#[test]
fn one_octave_is_enough() {
    let field = PerlinNoise::new(3, 1, bits(0.5), bits(1.0), 1, bits(0.5), bits(2.0)).unwrap();
    assert_eq!(field.octaves(), 1);
    assert_eq!(field.size(), 1);
    assert_eq!(field.permutation(), &vec![0, 0]);
}

#[test]
fn parameters_are_kept() {
    let field = PerlinNoise::new(42, 16, bits(0.25), bits(1.5), 5, bits(0.75), bits(3.0)).unwrap();
    assert_eq!(field.seed(), 42);
    assert_eq!(field.size(), 16);
    assert_eq!(f32::from_bits(field.frequency()), 0.25);
    assert_eq!(f32::from_bits(field.amplitude()), 1.5);
    assert_eq!(field.octaves(), 5);
    assert_eq!(f32::from_bits(field.gain()), 0.75);
    assert_eq!(f32::from_bits(field.lacunarity()), 3.0);
}

#[test]
fn permutation_table_is_a_doubled_permutation() {
    for (seed, size) in [(0u32, 256usize), (1, 256), (9, 5), (77, 1000)] {
        let field = PerlinNoise::new(seed, size, bits(0.5), bits(1.0), 3, bits(0.5), bits(2.0))
            .unwrap();
        let table = field.permutation();
        assert_eq!(table.len(), 2 * size);
        let mut seen = vec![false; size];
        for i in 0..size {
            assert!(table[i] < size);
            assert!(!seen[table[i]]);
            seen[table[i]] = true;
            assert_eq!(table[i + size], table[i]);
        }
    }
}

#[test]
fn gradients_are_angles() {
    let field = PerlinNoise::new(0, 256, bits(0.5), bits(1.0), 3, bits(0.5), bits(2.0)).unwrap();
    assert_eq!(field.gradients().len(), 256);
    assert!(field.gradients().iter().all(|&angle| angle < ANGLE_STEPS));
}

#[test]
fn tables_are_drawn_not_copied() {
    let field = PerlinNoise::new(0, 256, bits(0.5), bits(1.0), 3, bits(0.5), bits(2.0)).unwrap();
    let identity: Vec<usize> = (0..256).collect();
    assert_ne!(&field.permutation()[..256], &identity[..]);
    assert!(field.gradients().iter().any(|&angle| angle != 0));
    let first = field.gradients()[0];
    assert!(field.gradients().iter().any(|&angle| angle != first));
}

#[test]
fn equal_seeds_give_equal_fields() {
    let a = PerlinNoise::new(5, 256, bits(0.5), bits(1.0), 3, bits(0.5), bits(2.0)).unwrap();
    let b = PerlinNoise::new(5, 256, bits(0.5), bits(1.0), 3, bits(0.5), bits(2.0)).unwrap();
    assert_eq!(a.permutation(), b.permutation());
    assert_eq!(a.gradients(), b.gradients());
    let c = PerlinNoise::new(6, 256, bits(0.5), bits(1.0), 3, bits(0.5), bits(2.0)).unwrap();
    assert_ne!(a.permutation(), c.permutation());
    assert_ne!(a.gradients(), c.gradients());
}

#[test]
fn from_tables_doubles_the_order_and_keeps_the_top_bits() {
    let field = small_field();
    assert_eq!(field.size(), 4);
    assert_eq!(field.seed(), 7);
    assert_eq!(field.permutation(), &vec![2, 0, 3, 1, 2, 0, 3, 1]);
    assert_eq!(field.gradients(), &vec![1, 2, 0x00ff_ffff, 0x0080_0000]);
}

#[test]
fn wrap_is_the_euclidean_remainder() {
    assert_eq!(wrap(0, 256), 0);
    assert_eq!(wrap(255, 256), 255);
    assert_eq!(wrap(256, 256), 0);
    assert_eq!(wrap(257, 256), 1);
    assert_eq!(wrap(-1, 256), 255);
    assert_eq!(wrap(-256, 256), 0);
    assert_eq!(wrap(-257, 256), 255);
    assert_eq!(wrap(-3, 255), 252);
    assert_eq!(wrap(i64::MAX, 7), 0);
    assert_eq!(wrap(i64::MIN, 7), 6);
    assert_eq!(wrap(i64::MIN, 1), 0);
    assert_eq!(wrap(-5, usize::MAX), usize::MAX - 5);
    for floored in -1000i64..1000 {
        for size in [1usize, 2, 3, 7, 256] {
            assert_eq!(wrap(floored, size) as i64, floored.rem_euclid(size as i64));
        }
    }
}

#[test]
fn locate_finds_the_cell_and_its_corners() {
    let field = small_field();
    let found = field.locate(bits(1.5), bits(2.25)).unwrap();
    let expected = CellSample {
        column: 1,
        row: 2,
        bottom_left: Gradient { index: 3, angle: 0x0080_0000 },
        bottom_right: Gradient { index: 0, angle: 1 },
        top_left: Gradient { index: 1, angle: 2 },
        top_right: Gradient { index: 3, angle: 0x0080_0000 },
    };
    assert_eq!(found, expected);
    assert_eq!(field.cell(1, 2), expected);
}

#[test]
fn locate_in_the_last_cell_reads_the_second_copy() {
    let field = small_field();
    let found = field.locate(bits(3.0), bits(3.999)).unwrap();
    // Column 3 and its neighbour 4; row 3 and its neighbour 4.
    assert_eq!(found.column, 3);
    assert_eq!(found.row, 3);
    assert_eq!(found.bottom_left.index, 2); // table[table[3] + 3] = table[4]
    assert_eq!(found.bottom_right.index, 0); // table[table[4] + 3] = table[5]
    assert_eq!(found.top_left.index, 0); // table[table[3] + 4] = table[5]
    assert_eq!(found.top_right.index, 3); // table[table[4] + 4] = table[6]
}

#[test]
fn locate_wraps_coordinates_outside_the_table() {
    let field = small_field();
    let inside = field.locate(bits(1.5), bits(2.25)).unwrap();
    assert_eq!(field.locate(bits(5.5), bits(6.25)).unwrap(), inside);
    assert_eq!(field.locate(bits(-2.5), bits(-1.75)).unwrap(), inside);
    assert_eq!(field.locate(bits(4_000_001.0), bits(-4_000_002.0)).unwrap(), inside);
    let corner = field.locate(bits(-0.5), bits(-0.0)).unwrap();
    assert_eq!(corner.column, 3);
    assert_eq!(corner.row, 0);
}

#[test]
fn locate_refuses_coordinates_without_a_floor() {
    let field = small_field();
    let bad = [f32::NAN, f32::INFINITY, f32::NEG_INFINITY, 1.0e30, -1.0e30, f32::MAX];
    for value in bad {
        assert_eq!(field.locate(bits(value), bits(0.0)), Err(NoiseError::InvalidCoordinate));
        assert_eq!(field.locate(bits(0.0), bits(value)), Err(NoiseError::InvalidCoordinate));
    }
    assert!(field.locate(bits(-9_223_372_036_854_775_808.0), bits(9.0e18)).is_ok());
}

#[test]
fn locate_is_repeatable() {
    let field = terrain_noise();
    for step in 0..200 {
        let x = bits(step as f32 * 0.37 - 20.0);
        let y = bits(step as f32 * 1.7 + 3.0);
        assert_eq!(field.locate(x, y), field.locate(x, y));
    }
}

#[test]
fn locate_stays_inside_the_tables() {
    let field = terrain_noise();
    for step in 0..2000 {
        let x = bits(step as f32 * 0.731 - 700.0);
        let y = bits(step as f32 * -0.419 + 300.0);
        let found = field.locate(x, y).unwrap();
        assert!(found.column < 256 && found.row < 256);
        for corner in [found.bottom_left, found.bottom_right, found.top_left, found.top_right] {
            assert!(corner.index < 256);
            assert_eq!(corner.angle, field.gradients()[corner.index]);
        }
    }
}

#[test]
fn terrain_noise_has_the_terrain_parameters() {
    let field = terrain_noise();
    assert_eq!(field.seed(), 0);
    assert_eq!(field.size(), 256);
    assert_eq!(field.octaves(), 3);
    assert_eq!(f32::from_bits(field.frequency()), 0.5);
    assert_eq!(f32::from_bits(field.amplitude()), 1.0);
    assert_eq!(f32::from_bits(field.gain()), 0.5);
    assert_eq!(f32::from_bits(field.lacunarity()), 2.0);
    let again = PerlinNoise::new(0, 256, bits(0.5), bits(1.0), 3, bits(0.5), bits(2.0)).unwrap();
    assert_eq!(field.permutation(), again.permutation());
    assert_eq!(field.gradients(), again.gradients());
}
