use perlin_noise::permutation::{lookup, PERMUTATION};

#[test]
fn table_starts_and_ends_as_recorded() {
    assert_eq!(PERMUTATION.len(), 256);
    assert_eq!(&PERMUTATION[..8], &[151, 160, 137, 91, 90, 15, 131, 13]);
    assert_eq!(&PERMUTATION[250..], &[78, 66, 215, 61, 156, 180]);
}

#[test]
fn table_holds_every_byte_once() {
    let mut seen = [false; 256];
    for value in PERMUTATION {
        assert!(!seen[value as usize]);
        seen[value as usize] = true;
    }
    assert!(seen.iter().all(|s| *s));
}

#[test]
fn lookup_reads_the_table() {
    assert_eq!(lookup(0), 151);
    assert_eq!(lookup(1), 160);
    assert_eq!(lookup(36), 0);
    assert_eq!(lookup(255), 180);
    for i in 0..256 {
        assert_eq!(lookup(i), PERMUTATION[i as usize]);
    }
}

#[test]
fn lookup_masks_to_eight_bits() {
    assert_eq!(lookup(256), 151);
    assert_eq!(lookup(511), 180);
    assert_eq!(lookup(-1), 180);
    assert_eq!(lookup(-256), 151);
    assert_eq!(lookup(i64::MAX), 180);
    assert_eq!(lookup(i64::MIN), 151);
    for i in -600..600 {
        assert_eq!(lookup(i), lookup(i + 256));
    }
}
