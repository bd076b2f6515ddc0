use perfwin::pdh::{
    adapter_luid_key, luid_key, parse_engine, parse_hex_u32, parse_hex_u64, parse_luid, parse_pid,
};

#[test]
fn parses_gpu_engine_instance_two_part_luid() {
    let value = "pid_1234_luid_0x00000000_0x0000abcd_phys_0_eng_0_engtype_3D";
    assert_eq!(parse_pid(value), Some(1234));
    assert_eq!(parse_luid(value), Some("0xabcd".to_string()));
    assert_eq!(parse_engine(value), "3d");
}

#[test]
fn parses_gpu_engine_instance_nonzero_high() {
    let value = "pid_2188_luid_0x00000001_0x0001193e_phys_0_eng_0_engtype_3D";
    assert_eq!(parse_pid(value), Some(2188));
    assert_eq!(parse_luid(value), Some("0x10001193e".to_string()));
    assert_eq!(parse_engine(value), "3d");
}

#[test]
fn parses_gpu_instance_without_pid() {
    let value = "luid_0x00000000_0x0000abcd_phys_0_eng_1_engtype_VideoDecode";
    assert_eq!(parse_pid(value), None);
    assert_eq!(parse_luid(value), Some("0xabcd".to_string()));
    assert_eq!(parse_engine(value), "videodecode");
}

#[test]
fn parses_legacy_single_hex_luid() {
    let value = "pid_1234_luid_0x000000000000abcd_phys_0_eng_0_engtype_3D";
    assert_eq!(parse_luid(value), Some("0xabcd".to_string()));
}

#[test]
fn luid_without_phys_ends_at_eng() {
    let value = "luid_0x00000002_0x00000010_eng_3_engtype_Copy";
    assert_eq!(parse_luid(value), Some("0x200000010".to_string()));
    assert_eq!(parse_engine(value), "copy");
}

#[test]
fn luid_missing_or_empty_is_none() {
    assert_eq!(parse_luid("pid_1_phys_0_eng_0"), None);
    assert_eq!(parse_luid("pid_1_luid___phys_0"), None);
    assert_eq!(parse_luid("luid_0xZZ_0x1_phys_0"), None);
}

#[test]
fn engine_defaults_to_unknown() {
    assert_eq!(parse_engine("pid_1_luid_0x0_0x1_phys_0_eng_0"), "unknown");
    assert_eq!(parse_engine("pid_1_engtype__x"), "unknown");
}

#[test]
fn pid_requires_terminating_underscore_and_digits() {
    assert_eq!(parse_pid("pid_77"), None);
    assert_eq!(parse_pid("pid_x7_luid"), None);
    assert_eq!(parse_pid("pid_+42_luid"), Some(42));
    assert_eq!(parse_pid("pid_4294967296_luid"), None);
    assert_eq!(parse_pid("pid_4294967295_luid"), Some(u32::MAX));
}

#[test]
fn hex_parsing_follows_from_str_radix() {
    assert_eq!(parse_hex_u32("  0x1A2b "), Some(0x1a2b));
    assert_eq!(parse_hex_u32("0x0xff"), Some(0xff));
    assert_eq!(parse_hex_u32("0XfF"), Some(0xff));
    assert_eq!(parse_hex_u32("0x"), None);
    assert_eq!(parse_hex_u32("0x100000000"), None);
    assert_eq!(parse_hex_u64("0x100000000"), Some(0x1_0000_0000));
    assert_eq!(parse_hex_u64("-1"), None);
}

#[test]
fn adapter_key_matches_instance_key() {
    assert_eq!(adapter_luid_key(1, 0x1193e), "0x10001193e");
    assert_eq!(adapter_luid_key(0, 0xabcd), "0xabcd");
    assert_eq!(adapter_luid_key(-1, 0), "0xffffffff00000000");
    assert_eq!(adapter_luid_key(0, 0), "0x0");
}

#[test]
fn luid_key_reads_back() {
    for v in [0u64, 1, 0xabcd, 0x1_0001_193e, u64::MAX] {
        assert_eq!(parse_hex_u64(&luid_key(v)), Some(v));
    }
    assert_eq!(luid_key(0x1_0001_193e), "0x10001193e");
}

#[test]
fn instance_luid_matches_adapter_key() {
    let cases: [(i32, u32); 4] = [(0, 0xABCD), (1, 0x0001_193E), (-1, 0), (0x7fff_ffff, u32::MAX)];
    for (high, low) in cases {
        let name = format!(
            "pid_4242_luid_0x{:08X}_0x{:08X}_phys_0_eng_3_engtype_Copy",
            high as u32, low
        );
        assert_eq!(parse_luid(&name), Some(adapter_luid_key(high, low)));
    }
}
