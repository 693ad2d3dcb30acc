use perlin_noise::fixed::{LIMIT, ONE};
use perlin_noise::perlin::Perlin;
use perlin_noise::permutation::lookup;

fn configured(octaves: usize, frequency: i64, lacunarity: i64, persistence: i64) -> Perlin {
    let mut perlin = Perlin::new();
    perlin.set_octave_count(octaves);
    perlin.set_frequency(frequency);
    perlin.set_lacuranity(lacunarity);
    perlin.set_persistence(persistence);
    perlin
}

#[test]
fn default_value_at_origin_is_zero() {
    let perlin = Perlin::new();
    assert_eq!(perlin.get_value(0, 0, 0), 0);
}

#[test]
fn default_settings_are_six_one_two_half() {
    let fresh = Perlin::new();
    let spelled = configured(6, ONE, 2 * ONE, ONE / 2);
    for step in 0..200 {
        let (x, y, z) = (12345 * step, -777 * step, 99 * step + 5);
        assert_eq!(fresh.get_value(x, y, z), spelled.get_value(x, y, z));
    }
}

#[test]
fn default_values_match_recorded_samples() {
    let perlin = Perlin::new();
    assert_eq!(perlin.get_value(32768, 32768, 32768), -16384);
    assert_eq!(perlin.get_value(81920, 163840, 245760), 13869);
    assert_eq!(perlin.get_value(-32768, -81920, 465305), 21224);
    assert_eq!(perlin.get_value(671744, 0, 32768), -2544);
    assert_eq!(perlin.get_value(12345678, -9876543, 555), 30004);
    assert_eq!(perlin.get_value(i64::MAX, i64::MIN, 12345), 31848);
}

#[test]
fn repeated_calls_agree() {
    let perlin = configured(3, 24248, 142213, 39321);
    let first = perlin.get_value(216268, -288359, 360448);
    assert_eq!(first, 11480);
    for _ in 0..10 {
        assert_eq!(perlin.get_value(216268, -288359, 360448), first);
    }
}

#[test]
fn sum_outside_unit_range_is_divided_by_total_amplitude() {
    let perlin = Perlin::new();
    // The six weighted samples sum to 85628 and the amplitudes to 129024.
    assert_eq!(perlin.get_value(1883857, 8817650, 14193675), 43493);
    assert_eq!(perlin.get_value(809728, 12289280, 360448), 57836);
}

#[test]
fn sum_inside_unit_range_is_returned_as_it_is() {
    let perlin = Perlin::new();
    assert_eq!(perlin.get_value(1897168, 8817650, 14193675), 65531);
    assert_eq!(perlin.get_value(1897167, 8817650, 14193675), 33288);
}

#[test]
fn single_octave_is_the_lattice_noise() {
    let perlin = configured(1, ONE, 2 * ONE, ONE / 2);
    assert_eq!(perlin.get_value(81920, 163840, 245760), -2515);
    assert_eq!(perlin.get_value(809728, 12289280, 360448), 67917);
    for step in 0..300 {
        let (x, y, z) = (4321 * step, 999 * step - 70000, -13 * step);
        assert_eq!(perlin.get_value(x, y, z), perlin.generate_noise(x, y, z));
    }
}

#[test]
fn frequency_scales_the_coordinates() {
    let perlin = configured(1, 2 * ONE, 2 * ONE, ONE / 2);
    assert_eq!(perlin.get_value(40960, 81920, 122880), -2515);
}

#[test]
fn single_octave_on_lattice_points_is_zero() {
    let perlin = configured(1, ONE, 2 * ONE, ONE / 2);
    for i in -4..5 {
        for j in -4..5 {
            assert_eq!(perlin.get_value(i * ONE, j * ONE, (i + j) * ONE), 0);
        }
    }
}

#[test]
fn ten_octaves_at_frequency_four_stay_in_range_on_grid() {
    let perlin = configured(10, 4 * ONE, 2 * ONE, ONE / 2);
    let grid = [0, ONE / 2, ONE, 671744];
    for x in grid {
        for y in grid {
            for z in grid {
                let value = perlin.get_value(x, y, z);
                assert!(-ONE <= value && value <= ONE);
                assert_eq!(value, 0);
            }
        }
    }
}

#[test]
fn values_stay_within_two_for_non_negative_persistence() {
    for persistence in [0, 1, ONE / 3, ONE / 2, ONE - 1, ONE, 3 * ONE] {
        let perlin = configured(8, ONE, 2 * ONE, persistence);
        for step in 0..300 {
            let value = perlin.get_value(809728 + 6151 * step, 12289280 - 977 * step, 360448 + step);
            assert!(-2 * ONE <= value && value <= 2 * ONE);
        }
    }
}

#[test]
fn larger_persistence_weighs_later_octaves_more() {
    // The first octave samples a lattice point, the second one the middle of
    // a cell, where the noise is minus one half.
    let point = (ONE, ONE, ONE);
    let at = |persistence: i64| {
        configured(2, ONE, 3 * ONE / 2, persistence).get_value(point.0, point.1, point.2)
    };
    assert_eq!(at(ONE / 4), -8192);
    assert_eq!(at(ONE / 2), -16384);
    assert_eq!(at(3 * ONE / 4), -24576);
    assert_eq!(at(ONE), -32768);
}

#[test]
fn setter_changes_later_values_only() {
    let mut perlin = Perlin::new();
    let before = perlin.get_value(81920, 163840, 245760);
    assert_eq!(before, 13869);
    perlin.set_octave_count(1);
    let after = perlin.get_value(81920, 163840, 245760);
    assert_eq!(before, 13869);
    assert_eq!(after, -2515);
    assert_eq!(perlin.get_value(81920, 163840, 245760), after);
    perlin.set_octave_count(6);
    assert_eq!(perlin.get_value(81920, 163840, 245760), before);
}

#[test]
fn each_setter_changes_its_own_setting() {
    let point = (216268, -288359, 360448);
    let mut perlin = Perlin::new();
    perlin.set_octave_count(3);
    assert_eq!(
        perlin.get_value(point.0, point.1, point.2),
        configured(3, ONE, 2 * ONE, ONE / 2).get_value(point.0, point.1, point.2)
    );
    perlin.set_frequency(24248);
    assert_eq!(
        perlin.get_value(point.0, point.1, point.2),
        configured(3, 24248, 2 * ONE, ONE / 2).get_value(point.0, point.1, point.2)
    );
    perlin.set_lacuranity(142213);
    assert_eq!(
        perlin.get_value(point.0, point.1, point.2),
        configured(3, 24248, 142213, ONE / 2).get_value(point.0, point.1, point.2)
    );
    perlin.set_persistence(39321);
    assert_eq!(perlin.get_value(point.0, point.1, point.2), 11480);
}

#[test]
fn no_octaves_give_zero() {
    let perlin = configured(0, ONE, 2 * ONE, ONE / 2);
    assert_eq!(perlin.get_value(12345, 678, 9), 0);
    assert_eq!(perlin.get_value(809728, 12289280, 360448), 0);
}

#[test]
fn vanishing_total_amplitude_saturates() {
    // With persistence minus one the amplitudes cancel in pairs.
    let four = configured(4, ONE, 2 * ONE, -ONE);
    assert_eq!(four.get_value(809728, 12289280, 360448), LIMIT);
    let two = configured(2, ONE, ONE, -ONE);
    assert_eq!(two.get_value(809728, 12289280, 360448), 0);
}

#[test]
fn growing_amplitudes_saturate() {
    let perlin = configured(70, ONE, ONE, 4 * ONE);
    assert_eq!(perlin.get_value(809728, 12289280, 360448), ONE);
}

#[test]
fn coordinates_saturate_when_scaled_out_of_range() {
    let perlin = configured(6, 1 << 40, 2 * ONE, ONE / 2);
    assert_eq!(perlin.get_value(1 << 50, 3, 4), -7);
    let default = Perlin::new();
    assert_eq!(default.get_value(1 << 62, -(1 << 62), 1 << 61), -5);
}

#[test]
fn neighbouring_points_give_neighbouring_values() {
    let single = configured(1, 5 * ONE / 2, 2 * ONE, ONE / 2);
    assert_eq!(single.get_value(100000, 200000, 300000), 19574);
    assert_eq!(single.get_value(100001, 200000, 300000), 19574);
    let perlin = Perlin::new();
    for step in 0..400 {
        let (x, y, z) = (81920 + 173 * step, 163840 - 59 * step, 245760 + 7 * step);
        let here = perlin.get_value(x, y, z);
        // Six octaves at lacunarity two move their sample points by
        // 1 + 2 + 4 + 8 + 16 + 32 units in total for one unit of x.
        assert!((perlin.get_value(x + 1, y, z) - here).abs() <= 9 * 63);
        assert!((perlin.get_value(x, y + 1, z) - here).abs() <= 9 * 63);
        assert!((perlin.get_value(x, y, z + 1) - here).abs() <= 9 * 63);
    }
}

#[test]
fn value_jumps_where_the_sum_crosses_the_unit_range() {
    let perlin = Perlin::new();
    let inside = perlin.get_value(1897168, 8817650, 14193675);
    let outside = perlin.get_value(1897167, 8817650, 14193675);
    assert_eq!(inside, 65531);
    assert_eq!(outside, 33288);
}

#[test]
fn single_octave_at_origin_is_the_gradient_of_its_lattice_point() {
    let perlin = configured(1, ONE, 2 * ONE, ONE / 2);
    let hash = lookup(i64::from(lookup(i64::from(lookup(0)))));
    assert_eq!(hash, 36);
    assert_eq!(perlin.get_value(0, 0, 0), Perlin::grad(hash, 0, 0, 0));
    assert_eq!(perlin.get_value(0, 0, 0), 0);
}
