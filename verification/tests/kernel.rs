use perlin_noise::fixed::ONE;
use perlin_noise::kernel::GRAD_LIMIT;
use perlin_noise::perlin::Perlin;

#[test]
fn fade_fixes_the_ends_and_the_middle() {
    assert_eq!(Perlin::fade(0), 0);
    assert_eq!(Perlin::fade(ONE / 2), ONE / 2);
    assert_eq!(Perlin::fade(ONE), ONE);
}

#[test]
fn fade_follows_the_quintic() {
    assert_eq!(Perlin::fade(1), 0);
    assert_eq!(Perlin::fade(ONE / 4), 6784);
    assert_eq!(Perlin::fade(3 * ONE / 4), 58752);
    assert_eq!(Perlin::fade(ONE - 1), ONE - 1);
}

#[test]
fn fade_never_decreases() {
    let mut previous = 0;
    for t in 0..=ONE {
        let f = Perlin::fade(t);
        assert!(previous <= f && f <= ONE);
        previous = f;
    }
}

#[test]
fn lerp_reaches_both_ends() {
    assert_eq!(Perlin::lerp(0, -5, 7), -5);
    assert_eq!(Perlin::lerp(ONE, -5, 7), 7);
    assert_eq!(Perlin::lerp(0, i64::MAX, i64::MIN), i64::MAX);
    assert_eq!(Perlin::lerp(ONE, i64::MAX, i64::MIN), i64::MIN);
}

#[test]
fn lerp_rounds_down() {
    assert_eq!(Perlin::lerp(ONE / 2, -5, 7), 1);
    assert_eq!(Perlin::lerp(ONE / 2, 0, -3), -2);
    assert_eq!(Perlin::lerp(ONE / 4, 100, -100), 50);
    assert_eq!(Perlin::lerp(1, 0, -1), -1);
    assert_eq!(Perlin::lerp(ONE - 1, 10, 20), 19);
}

#[test]
fn grad_picks_components_and_signs() {
    let expected = [11, 9, -9, -11, 101, 99, -99, -101, 110, 90, -90, -110, 11, 90, 9, -110];
    for (hash, want) in expected.iter().enumerate() {
        assert_eq!(Perlin::grad(hash as u8, 1, 10, 100), *want);
    }
}

#[test]
fn grad_reads_only_the_low_four_bits() {
    assert_eq!(Perlin::grad(0x1f, 1, 10, 100), -110);
    assert_eq!(Perlin::grad(255, -3, 5, -7), 2);
    for hash in 0..=255u8 {
        assert_eq!(Perlin::grad(hash, 7, -11, 13), Perlin::grad(hash & 15, 7, -11, 13));
    }
}

#[test]
fn grad_accepts_its_whole_range() {
    assert_eq!(Perlin::grad(0, GRAD_LIMIT, GRAD_LIMIT, 0), 2 * GRAD_LIMIT);
    assert_eq!(Perlin::grad(3, GRAD_LIMIT, GRAD_LIMIT, 0), -2 * GRAD_LIMIT);
}

#[test]
fn noise_matches_recorded_samples() {
    let perlin = Perlin::new();
    assert_eq!(perlin.generate_noise(32768, 32768, 32768), -16384);
    assert_eq!(perlin.generate_noise(81920, 163840, 245760), -2515);
    assert_eq!(perlin.generate_noise(671744, 0, 32768), 13840);
    assert_eq!(perlin.generate_noise(12345678, -9876543, 555), 21083);
}

#[test]
fn noise_takes_negative_coordinates() {
    let perlin = Perlin::new();
    assert_eq!(perlin.generate_noise(-32768, -81920, 465305), 4245);
    assert_eq!(perlin.generate_noise(i64::MAX, i64::MIN, 0), -2);
}

#[test]
fn noise_is_zero_on_the_lattice() {
    let perlin = Perlin::new();
    for i in -3..4 {
        for j in -3..4 {
            for k in -3..4 {
                assert_eq!(perlin.generate_noise(i * ONE, j * ONE, k * ONE), 0);
            }
        }
    }
}

#[test]
fn noise_repeats_every_256_cells() {
    let perlin = Perlin::new();
    let period = 256 * ONE;
    assert_eq!(
        perlin.generate_noise(81920 + period, 163840 - 2 * period, 245760 + 1000 * period),
        -2515
    );
    for step in 0..50 {
        let x = 1000 * step - 20000;
        let y = 77777 * step;
        let z = -31 * step;
        assert_eq!(
            perlin.generate_noise(x + period, y, z - period),
            perlin.generate_noise(x, y, z)
        );
    }
}

#[test]
fn noise_can_exceed_one_but_not_two() {
    let perlin = Perlin::new();
    assert_eq!(perlin.generate_noise(809728, 12289280, 360448), 67917);
    for step in 0..2000 {
        let n = perlin.generate_noise(809728 + 37 * step, 12289280 - 91 * step, 360448 + 5 * step);
        assert!(-2 * ONE <= n && n <= 2 * ONE);
    }
}

#[test]
fn noise_does_not_depend_on_the_settings() {
    let mut perlin = Perlin::new();
    perlin.set_octave_count(1);
    perlin.set_frequency(7 * ONE);
    perlin.set_persistence(3);
    perlin.set_lacuranity(-ONE);
    assert_eq!(perlin.generate_noise(81920, 163840, 245760), -2515);
}

#[test]
fn noise_changes_by_at_most_nine_per_step() {
    let perlin = Perlin::new();
    for step in 0..3000 {
        let (x, y, z) = (65530 + step, 131071 - 7 * step, -65540 + 3 * step);
        let here = perlin.generate_noise(x, y, z);
        assert!((perlin.generate_noise(x + 1, y, z) - here).abs() <= 9);
        assert!((perlin.generate_noise(x, y + 1, z) - here).abs() <= 9);
        assert!((perlin.generate_noise(x, y, z + 1) - here).abs() <= 9);
    }
}

#[test]
fn noise_is_continuous_across_cell_faces() {
    let perlin = Perlin::new();
    for cell in -5..6 {
        let face = cell * ONE;
        let before = perlin.generate_noise(face - 1, 40000, 90000);
        let on = perlin.generate_noise(face, 40000, 90000);
        assert!((on - before).abs() <= 9);
        let before = perlin.generate_noise(40000, face - 1, 90000);
        let on = perlin.generate_noise(40000, face, 90000);
        assert!((on - before).abs() <= 9);
        let before = perlin.generate_noise(40000, 90000, face - 1);
        let on = perlin.generate_noise(40000, 90000, face);
        assert!((on - before).abs() <= 9);
    }
}
