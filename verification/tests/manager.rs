use perfwin::hwinfo_manager::{
    add_shared_memory_setting, hwinfo_exe_under, ini_enables_shared_memory, module_hwinfo_path,
    plan_shared_memory_fix, HWiNFOManager, HwinfoPathError,
};

#[test]
fn test_new_with_path() {
    let manager = HWiNFOManager::new(Some("C:\\path\\to\\HWiNFO64.EXE"), None);
    assert!(manager.is_ok());
    let manager = manager.unwrap();
    assert_eq!(manager.path(), "C:\\path\\to\\HWiNFO64.EXE");
}

#[test]
fn ini_path_sits_beside_executable() {
    let manager = HWiNFOManager::new(Some("/opt/hw/HWiNFO64.EXE"), None).unwrap();
    assert_eq!(manager.ini_path(), "/opt/hw/HWiNFO64.INI");
}

#[test]
fn default_path_uses_executable_directory() {
    let manager = HWiNFOManager::new(None, Some("/usr/lib/python/perfwin.so")).unwrap();
    assert_eq!(manager.path(), "/usr/lib/python/HWiNFO64/HWiNFO64.EXE");
    assert_eq!(manager.ini_path(), "/usr/lib/python/HWiNFO64/HWiNFO64.INI");
}

#[test]
fn path_errors() {
    assert_eq!(HWiNFOManager::new(None, None).err(), Some(HwinfoPathError::CurrentExeUnavailable));
    assert_eq!(HWiNFOManager::new(None, Some("/")).err(), Some(HwinfoPathError::NoExeDirectory));
    assert_eq!(HWiNFOManager::new(Some("/"), None).err(), Some(HwinfoPathError::NoHwinfoDirectory));
}

#[test]
fn shared_memory_flag_detection() {
    assert!(ini_enables_shared_memory("[Settings]\nSensorsSM=1\n"));
    assert!(!ini_enables_shared_memory("[Settings]\nSensorsSM=0\n"));
    assert!(!ini_enables_shared_memory(""));
}

#[test]
fn setting_goes_to_end_of_settings_section() {
    let out = add_shared_memory_setting("[Settings]\nA=1\n[Other]\nB=2\n");
    assert_eq!(out, "[Settings]\nA=1\nSensorsSM=1\n[Other]\nB=2\n");
    let out = add_shared_memory_setting("X=1\n[Settings]\nA=1");
    assert_eq!(out, "X=1\n[Settings]\nA=1\nSensorsSM=1");
}

#[test]
fn settings_section_is_added_when_missing() {
    assert_eq!(add_shared_memory_setting("[Other]\nB=2"), "[Other]\nB=2\n[Settings]\nSensorsSM=1\n");
    assert_eq!(add_shared_memory_setting("[Other]\n"), "[Other]\n[Settings]\nSensorsSM=1\n");
    assert_eq!(add_shared_memory_setting(""), "[Settings]\nSensorsSM=1\n");
}

#[test]
fn fix_plan_writes_only_when_needed() {
    assert_eq!(plan_shared_memory_fix(Some("[Settings]\nSensorsSM=1\n")), None);
    assert_eq!(
        plan_shared_memory_fix(Some("[Settings]\nSensorsSM=0\n")),
        Some("[Settings]\nSensorsSM=0\n\nSensorsSM=1".to_string())
    );
    assert_eq!(plan_shared_memory_fix(None), Some("[Settings]\n\nSensorsSM=1".to_string()));
    let fixed = plan_shared_memory_fix(Some("[Other]\nB=2")).unwrap();
    assert!(ini_enables_shared_memory(&fixed));
    assert_eq!(plan_shared_memory_fix(Some(&fixed)), None);
}

#[test]
fn bundled_hwinfo_sits_under_module_directory() {
    assert_eq!(
        hwinfo_exe_under(Some("/opt/py/perfwin".to_string())),
        "/opt/py/perfwin\\HWiNFO64\\HWiNFO64.EXE"
    );
    assert_eq!(hwinfo_exe_under(None), "\\HWiNFO64\\HWiNFO64.EXE");
    assert_eq!(
        module_hwinfo_path("/opt/py/perfwin/perfwin.so"),
        "/opt/py/perfwin\\HWiNFO64\\HWiNFO64.EXE"
    );
}
