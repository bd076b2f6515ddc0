use perfwin::data::{FilterError, ProcessFilter};
use perfwin::monitor::{
    hwinfo_restarted_after, HwinfoRepair,
    duration_reached, initial_pdh_failures, next_pdh_failures, plan_sample, should_check_hwinfo,
    use_hwinfo_gpu_fallback, PdhOutcome, PDH_FAILURE_THRESHOLD,
};

#[test]
fn fallback_after_three_failures() {
    let mut f = initial_pdh_failures(true);
    assert_eq!(f, 0);
    for _ in 0..2 {
        f = next_pdh_failures(f, PdhOutcome::Failed);
        assert!(!use_hwinfo_gpu_fallback(f));
    }
    f = next_pdh_failures(f, PdhOutcome::Failed);
    assert!(use_hwinfo_gpu_fallback(f));
    f = next_pdh_failures(f, PdhOutcome::Collected);
    assert_eq!(f, 0);
    assert!(!use_hwinfo_gpu_fallback(f));
    assert_eq!(initial_pdh_failures(false), PDH_FAILURE_THRESHOLD);
    assert_eq!(next_pdh_failures(7, PdhOutcome::Unavailable), PDH_FAILURE_THRESHOLD);
    assert_eq!(next_pdh_failures(u32::MAX, PdhOutcome::Failed), u32::MAX);
}

#[test]
fn duration_and_hwinfo_checks() {
    assert!(!duration_reached(None, u128::MAX));
    assert!(!duration_reached(Some(10), 9));
    assert!(duration_reached(Some(10), 10));
    assert!(should_check_hwinfo(false, false, true));
    assert!(!should_check_hwinfo(true, false, true));
    assert!(!should_check_hwinfo(false, true, true));
    assert!(!should_check_hwinfo(false, false, false));
}

#[test]
fn sample_plans() {
    let by_name = Some(ProcessFilter::Name("a".to_string()));
    let p = plan_sample(true, true, &by_name, None, Some(5));
    assert!(p.cpu_percent && p.processes && p.aggregated && p.any_process_data);
    assert_eq!(p.top_n_gpu, Some(5));
    let pids = Some(ProcessFilter::Pids(vec![1]));
    assert!(!plan_sample(true, true, &pids, None, None).aggregated);
    assert!(!plan_sample(true, false, &by_name, None, None).aggregated);
    let none = plan_sample(false, true, &None, None, None);
    assert!(!none.any_process_data && !none.processes && !none.cpu_percent);
    assert!(plan_sample(false, true, &None, Some(1), None).any_process_data);
}

#[test]
fn filter_options_take_first_given_criterion() {
    let f = ProcessFilter::from_options(
        Some(vec![4, 2]),
        Some("a.exe".to_string()),
        Some(vec!["b.exe".to_string()]),
        Some("c.*".to_string()),
    );
    assert!(matches!(f, Ok(ProcessFilter::Pids(ref p)) if *p == vec![4, 2]));
    let f = ProcessFilter::from_options(
        None,
        Some("a.exe".to_string()),
        Some(vec!["b.exe".to_string()]),
        None,
    );
    assert!(matches!(f, Ok(ProcessFilter::Names(ref n)) if *n == vec!["b.exe".to_string()]));
    let f = ProcessFilter::from_options(None, Some("a.exe".to_string()), None, Some("c".to_string()));
    assert!(matches!(f, Ok(ProcessFilter::Name(ref n)) if n == "a.exe"));
    let f = ProcessFilter::from_options(None, None, None, Some("c.*".to_string()));
    assert!(matches!(f, Ok(ProcessFilter::NameRegex(ref p)) if p == "c.*"));
    assert!(matches!(
        ProcessFilter::from_options(None, None, None, None),
        Err(FilterError::NoCriterion)
    ));
}

#[test]
fn hwinfo_counts_as_restarted_after_first_success() {
    assert!(!hwinfo_restarted_after(false, HwinfoRepair::NotNeeded));
    assert!(!hwinfo_restarted_after(false, HwinfoRepair::Failed));
    assert!(hwinfo_restarted_after(false, HwinfoRepair::Succeeded));
    assert!(hwinfo_restarted_after(true, HwinfoRepair::NotNeeded));
    assert!(hwinfo_restarted_after(true, HwinfoRepair::Failed));
    assert!(!should_check_hwinfo(false, hwinfo_restarted_after(false, HwinfoRepair::Succeeded), true));
}
