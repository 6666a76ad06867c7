use voxel_world::noise::{basic_perlin, perlin as quiet};
use voxel_world::noise::basic_perlin::{
    dot_grid_gradient3, get_gradient_vector3d, lerp, noise2d, noise3d, NoiseField, Vector3,
};
use voxel_world::noise::fade::fade;
use voxel_world::noise::perlin::{
    amplify, cell, cell_noise, decay, dot_grid_gradient, frac, get_gradient_vector2d,
    hold_octaves, interpolate, perlin, random_gradient, scale_cell, scramble, Vector2,
    MAX_FREQUENCY, MAX_OCTAVES, ONE,
};

#[test]
fn one_has_sixteen_fractional_bits() {
    assert_eq!(ONE, 65536);
    assert_eq!(MAX_OCTAVES, 16);
    assert_eq!(MAX_FREQUENCY, 1 << 32);
}

#[test]
fn scramble_mixes_both_words() {
    assert_eq!(scramble(0, 0), 0);
    assert_eq!(scramble(1, 2), 1341445860);
    assert_eq!(scramble(132, 0), 3802855360);
    assert_eq!(scramble(scramble(132, 3), 4), 3529826320);
    assert_ne!(scramble(1, 2), scramble(2, 1));
}

#[test]
fn gradient_table_has_the_four_axis_directions() {
    assert_eq!(get_gradient_vector2d(0), Vector2 { x: ONE, y: 0 });
    assert_eq!(get_gradient_vector2d(1), Vector2 { x: 0, y: ONE });
    assert_eq!(get_gradient_vector2d(2), Vector2 { x: -ONE, y: 0 });
    assert_eq!(get_gradient_vector2d(3), Vector2 { x: 0, y: -ONE });
    assert_eq!(get_gradient_vector2d(4), Vector2 { x: ONE, y: 0 });
    assert_eq!(get_gradient_vector2d(7), Vector2 { x: 0, y: -ONE });
    assert_eq!(get_gradient_vector2d(-1), Vector2 { x: 0, y: -ONE });
}

#[test]
fn gradient_table_in_space_has_the_six_axis_directions() {
    let expected = [
        (ONE, 0, 0),
        (ONE, 0, 0),
        (ONE, 0, 0),
        (-ONE, 0, 0),
        (-ONE, 0, 0),
        (-ONE, 0, 0),
        (0, ONE, 0),
        (0, ONE, 0),
        (0, ONE, 0),
        (0, -ONE, 0),
        (0, -ONE, 0),
        (0, -ONE, 0),
        (0, 0, ONE),
        (0, 0, ONE),
        (0, 0, -ONE),
        (0, 0, -ONE),
    ];
    for (v, (x, y, z)) in expected.iter().enumerate() {
        assert_eq!(get_gradient_vector3d(v as i32), Vector3 { x: *x, y: *y, z: *z });
        assert_eq!(get_gradient_vector3d(v as i32 + 16), Vector3 { x: *x, y: *y, z: *z });
        assert_eq!(x * x + y * y + z * z, ONE * ONE);
    }
}

#[test]
fn lattice_points_get_their_gradient_from_the_hash() {
    assert_eq!(random_gradient(132, 0, 0), Vector2 { x: -ONE, y: 0 });
    assert_eq!(random_gradient(132, 1, 0), Vector2 { x: 0, y: ONE });
    assert_eq!(random_gradient(132, 0, 1), Vector2 { x: ONE, y: 0 });
    assert_eq!(random_gradient(132, 1, 1), Vector2 { x: 0, y: ONE });
    assert_eq!(random_gradient(132, 3, 4), Vector2 { x: 0, y: -ONE });
    assert_eq!(random_gradient(132, u32::MAX, 0), Vector2 { x: 0, y: ONE });
}

#[test]
fn gradients_are_unit_vectors() {
    let mut seen = [false; 4];
    for seed in [0u32, 7, 132, u32::MAX] {
        for ix in (0u32..40).chain(u32::MAX - 40..=u32::MAX) {
            for iy in (0u32..40).chain(u32::MAX - 40..=u32::MAX) {
                let gradient = random_gradient(seed, ix, iy);
                assert_eq!(gradient.x * gradient.x + gradient.y * gradient.y, ONE * ONE);
                assert_eq!(random_gradient(seed, ix, iy), gradient);
                let quarter = if gradient.x == ONE {
                    0
                } else if gradient.y == ONE {
                    1
                } else if gradient.x == -ONE {
                    2
                } else {
                    3
                };
                seen[quarter] = true;
            }
        }
    }
    assert_eq!(seen, [true; 4]);
}

#[test]
fn dot_product_follows_the_gradient() {
    assert_eq!(dot_grid_gradient(132, 0, 0, 100, 20), -100);
    assert_eq!(dot_grid_gradient(132, 1, 0, 100, 20), 20);
    assert_eq!(dot_grid_gradient(132, 0, 1, 100, 20), 100);
    assert_eq!(dot_grid_gradient(132, 3, 4, 100, 20), -20);
    assert_eq!(dot_grid_gradient(132, 3, 4, -ONE, ONE), -ONE);
    assert_eq!(dot_grid_gradient(132, 3, 4, 0, 0), 0);
}

#[test]
fn dot_product_in_space_follows_the_gradient() {
    assert_eq!(dot_grid_gradient3(132, 3, 4, 5, 100, 20, 7), 7);
    assert_eq!(dot_grid_gradient3(132, 3, 4, 5, 100, 20, -ONE), -ONE);
    assert_eq!(dot_grid_gradient3(132, 3, 4, 5, 0, 0, 0), 0);
    for iz in 0u32..50 {
        let dot = dot_grid_gradient3(132, 3, 4, iz, 100, 20, 7);
        assert!([100, -100, 20, -20, 7, -7].contains(&dot));
    }
}

#[test]
fn interpolate_runs_from_the_first_to_the_second() {
    assert_eq!(interpolate(0, ONE, 0), 0);
    assert_eq!(interpolate(0, ONE, ONE), ONE);
    assert_eq!(interpolate(0, ONE, ONE / 2), ONE / 2);
    assert_eq!(interpolate(100, -100, ONE / 4), 50);
    assert_eq!(interpolate(-7, -7, 12345), -7);
    assert_eq!(interpolate(0, -1, 1), -1);
    assert_eq!(interpolate(0, 1, 1), 0);
}

#[test]
fn lerp_takes_the_weight_first() {
    assert_eq!(lerp(0, 10, 20), 10);
    assert_eq!(lerp(ONE, 10, 20), 20);
    assert_eq!(lerp(ONE / 2, 10, 20), 15);
    assert_eq!(lerp(ONE / 4, 100, -100), 50);
}

#[test]
fn fade_is_the_quintic_curve() {
    assert_eq!(fade(0), 0);
    assert_eq!(fade(ONE), ONE);
    assert_eq!(fade(ONE / 2), ONE / 2);
    assert_eq!(fade(ONE / 4), 6784);
    assert_eq!(fade(3 * ONE / 4), 58752);
    assert_eq!(fade(1), 0);
    assert_eq!(fade(1000), 2);
    assert_eq!(fade(ONE - 1), ONE - 1);
}

#[test]
fn fade_never_falls() {
    let mut last = 0;
    let mut t = 0;
    while t <= ONE {
        let value = fade(t);
        assert!(value >= last);
        assert!(value <= ONE);
        last = value;
        t += 64;
    }
}

#[test]
fn cells_and_places_of_coordinates() {
    assert_eq!(cell(0), 0);
    assert_eq!(frac(0), 0);
    assert_eq!(cell(ONE - 1), 0);
    assert_eq!(frac(ONE - 1), ONE - 1);
    assert_eq!(cell(ONE), 1);
    assert_eq!(frac(ONE), 0);
    assert_eq!(cell(-1), u32::MAX);
    assert_eq!(frac(-1), ONE - 1);
    assert_eq!(cell(-ONE), u32::MAX);
    assert_eq!(frac(-ONE), 0);
    assert_eq!(cell(5 * ONE + 17), 5);
    assert_eq!(frac(5 * ONE + 17), 17);
    assert_eq!(cell(i64::MAX), u32::MAX);
    assert_eq!(cell(i64::MIN), 0);
}

#[test]
fn scaling_multiplies_by_the_frequency() {
    assert_eq!(scale_cell(10 * ONE, ONE), (10, 0));
    assert_eq!(scale_cell(10 * ONE, ONE / 2), (5, 0));
    assert_eq!(scale_cell(5 * ONE, 6554), (0, 32770));
    assert_eq!(scale_cell(-5 * ONE, 6554), (u32::MAX, 32766));
    assert_eq!(scale_cell(3, ONE / 2), (0, 1));
    assert_eq!(scale_cell(-3, ONE / 2), (u32::MAX, ONE - 2));
    assert_eq!(scale_cell(0, MAX_FREQUENCY), (0, 0));
    assert_eq!(scale_cell(i64::MAX, 1 << 48).1, 0);
}

#[test]
fn amplitude_decays_by_the_persistence() {
    assert_eq!(decay(ONE, ONE / 2), ONE / 2);
    assert_eq!(decay(ONE, ONE), ONE);
    assert_eq!(decay(ONE, 0), 0);
    assert_eq!(decay(1, ONE / 2), 0);
    assert_eq!(decay(6554, ONE / 2), 3277);
    assert_eq!(amplify(ONE, 12345), 12345);
    assert_eq!(amplify(ONE / 2, -3), -2);
    assert_eq!(amplify(0, ONE), 0);
    assert_eq!(amplify(ONE, -ONE), -ONE);
}

#[test]
fn octave_counts_are_held() {
    assert_eq!(hold_octaves(-5), 0);
    assert_eq!(hold_octaves(0), 0);
    assert_eq!(hold_octaves(4), 4);
    assert_eq!(hold_octaves(16), 16);
    assert_eq!(hold_octaves(17), 16);
    assert_eq!(hold_octaves(i32::MAX), 16);
}

#[test]
fn noise_has_the_expected_values() {
    assert_eq!(noise2d(132, 16384, 49152), 10653);
    assert_eq!(noise2d(132, -32768, 98304), -16384);
    assert_eq!(noise2d(132, 100000, 200000), -32571);
    assert_eq!(noise2d(7, 16384, 49152), -10654);
    assert_eq!(noise2d(7, 100000, 200000), -15548);
    assert_eq!(perlin(132, 100000, 200000), -32571);
    assert_eq!(perlin(132, 16384, 49152), 10653);
    assert_eq!(noise3d(132, 32768, 32768, 32768), 16384);
    assert_eq!(noise3d(132, 16384, 49152, 100000), 14485);
    assert_eq!(noise3d(132, -32768, 98304, -5), -16388);
}

#[test]
fn perlin_blends_with_the_fade_curve() {
    let mut x: i64 = -200_000;
    while x < 200_000 {
        assert_eq!(perlin(132, x, 3 * x + 5), noise2d(132, x, 3 * x + 5));
        x += 1_237;
    }
    // Halfway along the lower edge of a cell the two corners weigh the same.
    let left = dot_grid_gradient(132, 0, 0, ONE / 4, 0);
    let right = dot_grid_gradient(132, 1, 0, ONE / 4 - ONE, 0);
    assert_eq!(perlin(132, ONE / 4, 0), interpolate(left, right, fade(ONE / 4)));
    assert_ne!(perlin(132, ONE / 4, 0), interpolate(left, right, ONE / 4));
}

#[test]
fn noise_is_zero_on_the_lattice() {
    for seed in [0u32, 7, 132, u32::MAX] {
        for x in -3i64..4 {
            for y in -3i64..4 {
                assert_eq!(noise2d(seed, x * ONE, y * ONE), 0);
                assert_eq!(perlin(seed, x * ONE, y * ONE), 0);
                assert_eq!(noise3d(seed, x * ONE, y * ONE, 2 * ONE), 0);
            }
        }
    }
}

#[test]
fn noise_stays_within_one() {
    let mut x: i64 = -300_000;
    while x < 300_000 {
        let mut y: i64 = -300_000;
        while y < 300_000 {
            let value = noise2d(132, x, y);
            assert!(-ONE <= value && value <= ONE);
            let same = perlin(132, x, y);
            assert!(-ONE <= same && same <= ONE);
            let deep = noise3d(132, x, y, x - y);
            assert!(-ONE <= deep && deep <= ONE);
            y += 7919;
        }
        x += 7919;
    }
}

#[test]
fn noise_meets_where_cells_meet() {
    // The last point of a cell and the first point of the next differ by
    // no more than a step inside a cell does.
    for y in [0i64, 1000, 32768, 65000] {
        for cell_x in -2i64..3 {
            let border = cell_x * ONE;
            let before = noise2d(132, border - 1, y);
            let at = noise2d(132, border, y);
            let after = noise2d(132, border + 1, y);
            assert!((at - before).abs() <= 4, "{} {} {}", before, at, after);
            assert!((after - at).abs() <= 4, "{} {} {}", before, at, after);
        }
    }
    // On the border itself the cell on either side gives the same value.
    for fy in [0i64, 1, 500, 32768, ONE - 1, ONE] {
        for cx in [0u32, 1, 41, u32::MAX] {
            let left = cell_noise(132, cx, 9, ONE, fy, fade(ONE), fade(fy));
            let right = cell_noise(132, cx.wrapping_add(1), 9, 0, fy, fade(0), fade(fy));
            assert_eq!(left, right);
            let low = cell_noise(132, 9, cx, fy, ONE, fade(fy), fade(ONE));
            let high = cell_noise(132, 9, cx.wrapping_add(1), fy, 0, fade(fy), fade(0));
            assert_eq!(low, high);
        }
    }
}

#[test]
fn noise_changes_little_between_neighbouring_points() {
    let mut x: i64 = -70_000;
    while x < 140_000 {
        let here = noise2d(132, x, 23_456);
        let next = noise2d(132, x + 1, 23_456);
        assert!((next - here).abs() <= 5, "{} {} {}", x, here, next);
        let up = noise2d(132, 23_456, x + 1);
        let down = noise2d(132, 23_456, x);
        assert!((up - down).abs() <= 5, "{} {} {}", x, down, up);
        x += 1;
    }
}

#[test]
fn sampling_is_repeatable() {
    let field = NoiseField::new(132, 4, 6554, ONE / 2).unwrap();
    let copy = NoiseField::new(132, 4, 6554, ONE / 2).unwrap();
    let mut x: i64 = -1_000_000;
    while x < 1_000_000 {
        let first = field.sample(x, 3 * x + 11);
        assert_eq!(field.sample(x, 3 * x + 11), first);
        assert_eq!(copy.sample(x, 3 * x + 11), first);
        assert_eq!(field.sample3(x, 3 * x + 11, -x), field.sample3(x, 3 * x + 11, -x));
        x += 99_991;
    }
}

#[test]
fn field_sums_its_octaves() {
    let field = NoiseField::new(5, 4, 6554, ONE / 2).unwrap();
    assert_eq!(field.sample(123456, -654321), -1011);
    let three = NoiseField::new(5, 3, 6554, ONE / 2).unwrap();
    assert_eq!(three.sample3(123456, -654321, 777777), -1402);
    let none = NoiseField::new(5, 0, 6554, ONE / 2).unwrap();
    assert_eq!(none.sample(123456, -654321), 0);
    let one = NoiseField::new(132, 1, ONE, ONE / 2).unwrap();
    assert_eq!(one.sample(100000, 200000), noise2d(132, 100000, 200000));
}

#[test]
fn field_stays_within_one() {
    let loud = NoiseField::new(9, 16, 40000, ONE).unwrap();
    let mut hit_a_bound = false;
    let mut x: i64 = -2_000_000;
    while x < 2_000_000 {
        let value = loud.sample(x, 77_777 - x);
        assert!(-ONE <= value && value <= ONE);
        hit_a_bound = hit_a_bound || value == ONE || value == -ONE;
        let deep = loud.sample3(x, 77_777 - x, 3 * x);
        assert!(-ONE <= deep && deep <= ONE);
        x += 13_331;
    }
    assert!(hit_a_bound);
}

#[test]
fn field_at_the_limits_of_its_settings() {
    let field = NoiseField::new(5, MAX_OCTAVES, MAX_FREQUENCY, ONE).unwrap();
    assert_eq!(field.sample(123456, -654321), 0);
    for (x, y) in [(i64::MAX, i64::MIN), (i64::MIN, i64::MAX), (0, 0), (-1, 1)] {
        let value = field.sample(x, y);
        assert!(-ONE <= value && value <= ONE);
    }
}

#[test]
fn settings_outside_the_limits_make_no_field() {
    assert!(NoiseField::new(1, 16, 0, 0).is_some());
    assert!(NoiseField::new(1, 17, 6554, ONE / 2).is_none());
    assert!(NoiseField::new(1, 4, -1, ONE / 2).is_none());
    assert!(NoiseField::new(1, 4, MAX_FREQUENCY + 1, ONE / 2).is_none());
    assert!(NoiseField::new(1, 4, 6554, -1).is_none());
    assert!(NoiseField::new(1, 4, 6554, ONE + 1).is_none());
    assert!(NoiseField::new(u32::MAX, 0, MAX_FREQUENCY, ONE).is_some());
}

#[test]
fn terrain_field_has_the_expected_values() {
    let field = NoiseField::terrain();
    let expected = [0, -6498, -12349, -16456, -17894, -16384, -12481, -7480, -3036, -505, 0, 505];
    for (wx, value) in expected.iter().enumerate() {
        assert_eq!(field.sample(wx as i64 * ONE, 0), *value);
    }
    let same = NoiseField::new(132, 1, 6554, ONE / 2).unwrap();
    for wx in -20i64..20 {
        assert_eq!(same.sample(wx * ONE, 5 * ONE), field.sample(wx * ONE, 5 * ONE));
    }
}

#[test]
fn octave_noise_with_fixed_settings() {
    assert_eq!(basic_perlin::perlin_noise2d(9, 500 * ONE, 700 * ONE, 4), 32667);
    assert_eq!(basic_perlin::perlin_noise2d(9, 1234567, 7654321, 16), -22132);
    assert_eq!(basic_perlin::perlin_noise2d(9, 1234567, 7654321, 40), -22132);
    assert_eq!(basic_perlin::perlin_noise2d(9, 1234567, 7654321, 0), 0);
    assert_eq!(basic_perlin::perlin_noise2d(9, 1234567, 7654321, -3), 0);
    assert_eq!(basic_perlin::perlin_noise3d(9, 500 * ONE, 700 * ONE, 300 * ONE, 4), 7771);
    assert_eq!(basic_perlin::perlin_noise3d(9, 500 * ONE, 700 * ONE, 300 * ONE, -1), 0);
}

#[test]
fn quiet_octave_noise_with_fixed_settings() {
    assert_eq!(quiet::perlin_noise2d(9, 50 * ONE, 70 * ONE, 4), 3274);
    assert_eq!(quiet::perlin_noise2d(9, 1234567, 7654321, 20), 421);
    assert_eq!(quiet::perlin_noise2d(9, 1234567, 7654321, 0), 0);
    assert_eq!(quiet::perlin_noise2d(9, 1234567, 7654321, -1), 0);
}

#[test]
fn seeds_give_different_fields() {
    let first = NoiseField::new(1, 3, 6554, ONE / 2).unwrap();
    let second = NoiseField::new(2, 3, 6554, ONE / 2).unwrap();
    let mut differ = 0;
    for wx in 0i64..50 {
        if first.sample(wx * ONE + 777, 4321) != second.sample(wx * ONE + 777, 4321) {
            differ += 1;
        }
    }
    assert!(differ > 25);
}

#[test]
fn terrain_field_changes_little_between_neighbouring_points() {
    let field = NoiseField::terrain();
    let mut x: i64 = -700_000;
    while x < 1_400_000 {
        let here = field.sample(x, 234_567);
        assert!((field.sample(x + 1, 234_567) - here).abs() <= 6);
        let there = field.sample(234_567, x);
        assert!((field.sample(234_567, x + 1) - there).abs() <= 6);
        x += 7;
    }
}

#[test]
fn fade_rises_by_at_most_two() {
    for t in 0..ONE {
        let step = fade(t + 1) - fade(t);
        assert!(0 <= step && step <= 2);
    }
}

#[test]
fn noise_stays_within_seven_eighths() {
    let limit = 7 * ONE / 8;
    let mut least = 0;
    let mut most = 0;
    for seed in [7u32, 132] {
        let mut x: i64 = -400_000;
        while x < 400_000 {
            let mut y: i64 = -400_000;
            while y < 400_000 {
                let value = noise2d(seed, x, y);
                assert!(-limit <= value && value <= limit);
                least = least.min(value);
                most = most.max(value);
                y += 4_099;
            }
            x += 4_099;
        }
    }
    assert!(least < -ONE / 4 && most > ONE / 4);
}

#[test]
fn fade_passes_one_half_in_the_middle() {
    for t in 0..=ONE {
        if t <= ONE / 2 {
            assert!(fade(t) <= ONE / 2);
        }
        if t >= ONE / 2 {
            assert!(fade(t) >= ONE / 2);
        }
    }
}
