use perfwin::hwinfo::{
    all_entries_by_name, entries_fit, parse_fixed_string, read_entries, read_header, required_len,
    validate_header, HeaderError, SensorEntry, SensorType, HWINFO_ENTRY_SIZE, HWINFO_HEADER_MAGIC,
    HWINFO_HEADER_SIZE,
};

fn put_u32(mem: &mut Vec<u8>, off: usize, v: u32) {
    mem[off..off + 4].copy_from_slice(&v.to_le_bytes());
}

fn put_f64(mem: &mut Vec<u8>, off: usize, v: f64) {
    mem[off..off + 8].copy_from_slice(&v.to_bits().to_le_bytes());
}

fn put_text(mem: &mut Vec<u8>, off: usize, text: &str) {
    mem[off..off + text.len()].copy_from_slice(text.as_bytes());
}

/// A shared-memory image with the given entries (type code, name, unit, value).
fn image(entries: &[(u32, &str, &str, f64)], stride: usize) -> Vec<u8> {
    let offset = 64;
    let mut mem = vec![0u8; offset + stride * entries.len() + HWINFO_ENTRY_SIZE];
    put_u32(&mut mem, 0, HWINFO_HEADER_MAGIC);
    put_u32(&mut mem, 4, 2);
    put_u32(&mut mem, 32, offset as u32);
    put_u32(&mut mem, 36, stride as u32);
    put_u32(&mut mem, 40, entries.len() as u32);
    for (i, (code, name, unit, value)) in entries.iter().enumerate() {
        let base = offset + i * stride;
        put_u32(&mut mem, base, *code);
        put_u32(&mut mem, base + 4, i as u32);
        put_u32(&mut mem, base + 8, 100 + i as u32);
        put_text(&mut mem, base + 12, name);
        put_text(&mut mem, base + 268, unit);
        put_f64(&mut mem, base + 284, *value);
        put_f64(&mut mem, base + 292, *value - 1.0);
        put_f64(&mut mem, base + 300, *value + 1.0);
        put_f64(&mut mem, base + 308, *value);
    }
    mem
}

#[test]
fn test_header_size() {
    assert_eq!(HWINFO_HEADER_SIZE, 44);
}

#[test]
fn test_entry_size() {
    let size = HWINFO_ENTRY_SIZE;
    assert!(size >= 312 && size <= 320, "Entry size should be around 312 bytes, got {}", size);
}

#[test]
fn test_sensor_entry_label() {
    let entry = SensorEntry {
        sensor_type: SensorType::Temp,
        sensor_index: 0,
        id: 1,
        name_original: "Original".to_string(),
        name_user: "User".to_string(),
        unit: "C".to_string(),
        value_bits: 45.0f64.to_bits(),
        value_min_bits: 30.0f64.to_bits(),
        value_max_bits: 80.0f64.to_bits(),
        value_avg_bits: 50.0f64.to_bits(),
    };
    assert_eq!(entry.label(), "User");
}

#[test]
fn sensor_entry_label_falls_back_to_original() {
    let entry = SensorEntry {
        sensor_type: SensorType::Fan,
        sensor_index: 0,
        id: 1,
        name_original: "Original".to_string(),
        name_user: String::new(),
        unit: "RPM".to_string(),
        value_bits: 0,
        value_min_bits: 0,
        value_max_bits: 0,
        value_avg_bits: 0,
    };
    assert_eq!(entry.label(), "Original");
}

#[test]
fn test_duplicate_sensor_names() {
    let mut specs: Vec<(u32, String, &str, f64)> = Vec::new();
    for i in 0..120 {
        specs.push((1, format!("Sensor {}", i), "C", i as f64));
    }
    specs.push((1, "Drive Temperature".to_string(), "C", 40.0));
    specs.push((1, "Drive Temperature".to_string(), "C", 32.0));
    specs.push((1, "Drive Temperature".to_string(), "C", 35.0));
    let borrowed: Vec<(u32, &str, &str, f64)> =
        specs.iter().map(|(c, n, u, v)| (*c, n.as_str(), *u, *v)).collect();
    let mem = image(&borrowed, HWINFO_ENTRY_SIZE);
    let header = validate_header(&mem).unwrap();
    let entries = read_entries(&mem, &header);
    let named = all_entries_by_name(&entries);
    assert!(named.len() > 100, "应该有至少100个传感器");
    let duplicate_names: Vec<&String> =
        named.iter().map(|(k, _)| k).filter(|k| k.contains(" #")).collect();
    for name in &duplicate_names {
        assert!(name.contains(" #2") || name.contains(" #3"), "同名编号格式正确: {}", name);
    }
    assert_eq!(duplicate_names.len(), 2);
    let second = named.iter().find(|(k, _)| k == "Drive Temperature #2").unwrap();
    assert_eq!(f64::from_bits(second.1.value_bits), 32.0);
    let third = named.iter().find(|(k, _)| k == "Drive Temperature #3").unwrap();
    assert_eq!(f64::from_bits(third.1.value_bits), 35.0);
}

#[test]
fn every_reading_kept_under_distinct_names() {
    let mem = image(
        &[(2, "Fan", "RPM", 900.0), (1, "Temp", "C", 40.0), (2, "Fan", "RPM", 950.0), (2, "Fan", "%", 55.0)],
        HWINFO_ENTRY_SIZE,
    );
    let header = validate_header(&mem).unwrap();
    let entries = read_entries(&mem, &header);
    let named = all_entries_by_name(&entries);
    assert_eq!(named.len(), 4);
    let expect = [("Fan", "RPM", 900.0), ("Temp", "C", 40.0), ("Fan #2", "RPM", 950.0), ("Fan #3", "%", 55.0)];
    for (name, unit, value) in expect {
        let found = named.iter().find(|(k, _)| k == name).unwrap();
        assert_eq!(found.1.unit, unit);
        assert_eq!(f64::from_bits(found.1.value_bits), value);
    }
}

#[test]
fn later_reading_replaces_clashing_name() {
    let mem = image(
        &[(1, "X #2", "A", 1.0), (1, "X", "B", 2.0), (1, "X", "C", 3.0)],
        HWINFO_ENTRY_SIZE,
    );
    let header = read_header(&mem);
    let entries = read_entries(&mem, &header);
    let named = all_entries_by_name(&entries);
    assert_eq!(named.len(), 2);
    let x2 = named.iter().find(|(k, _)| k == "X #2").unwrap();
    assert_eq!(x2.1.unit, "C");
    assert_eq!(f64::from_bits(x2.1.value_bits), 3.0);
}

#[test]
fn entries_skip_unset_type_and_map_unknown_codes() {
    let mem = image(
        &[(0, "gone", "", 0.0), (7, "CPU Usage", "%", 12.5), (42, "Odd", "?", 1.0)],
        HWINFO_ENTRY_SIZE + 4,
    );
    let header = validate_header(&mem).unwrap();
    assert!(entries_fit(mem.len(), &header));
    let entries = read_entries(&mem, &header);
    assert_eq!(entries.len(), 2);
    assert_eq!(entries[0].sensor_type, SensorType::Usage);
    assert_eq!(entries[0].name_original, "CPU Usage");
    assert_eq!(entries[0].unit, "%");
    assert_eq!(entries[0].sensor_index, 1);
    assert_eq!(entries[0].id, 101);
    assert_eq!(f64::from_bits(entries[0].value_bits), 12.5);
    assert_eq!(f64::from_bits(entries[0].value_min_bits), 11.5);
    assert_eq!(f64::from_bits(entries[0].value_max_bits), 13.5);
    assert_eq!(entries[1].sensor_type, SensorType::Other);
}

#[test]
fn header_magic_is_checked() {
    let mut mem = image(&[], HWINFO_ENTRY_SIZE);
    assert!(validate_header(&mem).is_ok());
    put_u32(&mut mem, 0, 0x1234);
    assert_eq!(validate_header(&mem).unwrap_err(), HeaderError::MagicMismatch(0x1234));
}

#[test]
fn required_length_covers_last_entry() {
    let mem = image(&[(1, "a", "", 0.0), (1, "b", "", 0.0)], 320);
    let header = read_header(&mem);
    assert_eq!(required_len(&header), 64 + 320 + 316);
    assert!(entries_fit(64 + 320 + 316, &header));
    assert!(!entries_fit(64 + 320 + 315, &header));
}

#[test]
fn fixed_string_stops_at_zero_and_replaces_invalid_bytes() {
    assert_eq!(parse_fixed_string(b"CPU\0junk"), "CPU");
    assert_eq!(parse_fixed_string(b"full"), "full");
    assert_eq!(parse_fixed_string(&[0x41, 0xff, 0x42, 0]), "A\u{fffd}B");
    assert_eq!(parse_fixed_string(&[0xc2, 0xb0, 0x43]), "°C");
}

#[test]
fn sensor_type_codes_round_trip() {
    for code in 0u32..9 {
        let t = SensorType::try_from(code).unwrap();
        assert_eq!(t.code(), code);
    }
    assert!(SensorType::try_from(9u32).is_err());
    assert_eq!(SensorType::try_from(0u32).unwrap(), SensorType::Unset);
}
