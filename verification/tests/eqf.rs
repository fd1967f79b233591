use spotiamp::eqf::{byte_to_db_scaled, parse_first_preset, NAME_LEN};

const MAGIC: &[u8] = b"Winamp EQ library file v1.1";

fn synth_eqf(name: &str, bands: [u8; 10], preamp: u8) -> Vec<u8> {
    let mut v = Vec::new();
    v.extend_from_slice(MAGIC); // 27 bytes
    v.extend_from_slice(&[0x1A, b'!', b'-', b'-']); // -> 31-byte header
    let mut name_field = [0u8; NAME_LEN];
    name_field[..name.len()].copy_from_slice(name.as_bytes());
    v.extend_from_slice(&name_field);
    v.extend_from_slice(&bands);
    v.push(preamp);
    v
}

fn db(value: u8) -> f32 {
    byte_to_db_scaled(value) as f32 / 63.0
}

#[test]
fn parses_name_bands_and_preamp() {
    let file = synth_eqf("Rock", [0, 63, 31, 31, 31, 31, 31, 31, 31, 31], 0);
    let preset = parse_first_preset(&file).expect("valid preset");
    assert_eq!(preset.name, "Rock");
    assert_eq!(preset.bands.len(), 10);
    // 0 -> +20 dB, 63 -> -20 dB, 31 -> ~0 dB, and the preamp (0) -> +20 dB.
    assert!((db(preset.bands[0]) - 20.0).abs() < 0.01);
    assert!((db(preset.bands[1]) + 20.0).abs() < 0.01);
    assert!(db(preset.bands[2]).abs() < 0.5);
    assert!((db(preset.preamp) - 20.0).abs() < 0.01);
}

#[test]
fn rejects_non_eqf() {
    assert!(parse_first_preset(b"not an eqf file at all").is_none());
}

#[test]
fn slider_gain_is_exact_in_63rds_of_a_db() {
    assert_eq!(byte_to_db_scaled(0), 1260);
    assert_eq!(byte_to_db_scaled(63), -1260);
    assert_eq!(byte_to_db_scaled(31), 20);
    assert_eq!(byte_to_db_scaled(32), -20);
    // positions past the bottom read as the bottom
    assert_eq!(byte_to_db_scaled(200), -1260);
}

#[test]
fn blank_name_becomes_preset() {
    let file = synth_eqf("   ", [10; 10], 40);
    let preset = parse_first_preset(&file).expect("valid preset");
    assert_eq!(preset.name, "Preset");
    assert_eq!(preset.bands, vec![10; 10]);
    assert_eq!(preset.preamp, 40);
}

#[test]
fn name_stops_at_nul_and_keeps_latin1() {
    let mut file = synth_eqf("Jazz", [1, 2, 3, 4, 5, 6, 7, 8, 9, 10], 11);
    // a byte above 0x7F reads as the Latin-1 character with that code point
    file[31 + 4] = 0xE9;
    let preset = parse_first_preset(&file).expect("valid preset");
    assert_eq!(preset.name, "Jazzé");
    assert_eq!(preset.bands, vec![1, 2, 3, 4, 5, 6, 7, 8, 9, 10]);
    assert_eq!(preset.preamp, 11);
}

#[test]
fn truncated_entry_is_rejected() {
    let file = synth_eqf("Pop", [31; 10], 31);
    assert!(parse_first_preset(&file[..file.len() - 1]).is_none());
    assert!(parse_first_preset(&file[..20]).is_none());
}
