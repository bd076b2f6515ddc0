use perfwin::data::{ProcessFilter, ProcessRecord};
use perfwin::processes::{
    aggregate_processes, create_placeholder_process, filter_processes_from_cache, selected_where,
    top_n_indices, Selected,
};

fn rec(pid: u32, name: &str, handles: u32) -> ProcessRecord {
    ProcessRecord { pid, name: name.to_string(), handle_count: handles }
}

fn sample() -> Vec<ProcessRecord> {
    vec![
        rec(10, "chrome.exe", 100),
        rec(11, "explorer.exe", 50),
        rec(12, "chrome.exe", 30),
        rec(13, "code.exe", 7),
        rec(12, "dup.exe", 1),
    ]
}

#[test]
fn pid_filter_keeps_request_order_and_placeholders() {
    let filter = Some(ProcessFilter::Pids(vec![13, 99, 12, 10]));
    let sel = filter_processes_from_cache(&filter, &sample());
    assert_eq!(
        sel,
        vec![Selected::Cached(3), Selected::Placeholder(99), Selected::Cached(2), Selected::Cached(0)]
    );
}

#[test]
fn placeholder_record() {
    let p = create_placeholder_process(99);
    assert_eq!(p.pid, 99);
    assert_eq!(p.name, "<unknown>");
    assert_eq!(p.handle_count, 0);
}

#[test]
fn name_filters() {
    let s = sample();
    let one = filter_processes_from_cache(&Some(ProcessFilter::Name("chrome.exe".to_string())), &s);
    assert_eq!(one, vec![Selected::Cached(0), Selected::Cached(2)]);
    let many = filter_processes_from_cache(
        &Some(ProcessFilter::Names(vec!["code.exe".to_string(), "explorer.exe".to_string()])),
        &s,
    );
    assert_eq!(many, vec![Selected::Cached(1), Selected::Cached(3)]);
    let none = filter_processes_from_cache(&Some(ProcessFilter::Name("nope".to_string())), &s);
    assert!(none.is_empty());
    assert!(filter_processes_from_cache(&None, &s).is_empty());
}

#[test]
fn regex_filter() {
    let s = sample();
    let re = filter_processes_from_cache(&Some(ProcessFilter::NameRegex("^c.*\\.exe$".to_string())), &s);
    assert_eq!(re, vec![Selected::Cached(0), Selected::Cached(2), Selected::Cached(3)]);
    let bad = filter_processes_from_cache(&Some(ProcessFilter::NameRegex("(".to_string())), &s);
    assert!(bad.is_empty());
}

#[test]
fn aggregation_groups_by_first_appearance() {
    let groups = aggregate_processes(&sample()).unwrap();
    let names: Vec<&str> = groups.iter().map(|g| g.name.as_str()).collect();
    assert_eq!(names, vec!["chrome.exe", "explorer.exe", "code.exe", "dup.exe"]);
    assert_eq!(groups[0].pids, vec![10, 12]);
    assert_eq!(groups[0].members, vec![0, 2]);
    assert_eq!(groups[0].handle_count_total, 130);
    assert_eq!(groups[0].process_count(), 2);
    assert_eq!(groups[3].pids, vec![12]);
}

#[test]
fn aggregation_refuses_handle_overflow() {
    let recs = vec![rec(1, "a", u32::MAX), rec(2, "b", 5), rec(3, "a", 1)];
    assert!(aggregate_processes(&recs).is_none());
    let ok = vec![rec(1, "a", u32::MAX - 1), rec(3, "a", 1)];
    assert_eq!(aggregate_processes(&ok).unwrap()[0].handle_count_total, u32::MAX);
}

#[test]
fn top_n_is_stable_descending() {
    let keys = vec![5u64, 9, 5, 1, 9];
    assert_eq!(top_n_indices(&keys, 3), vec![1, 4, 0]);
    assert_eq!(top_n_indices(&keys, 10), vec![1, 4, 0, 2, 3]);
    assert_eq!(top_n_indices(&keys, 0), Vec::<usize>::new());
    assert_eq!(top_n_indices(&Vec::new(), 4), Vec::<usize>::new());
}

#[test]
fn matches_select_their_indices_in_order() {
    assert_eq!(
        selected_where(&vec![true, false, true, true, false]),
        vec![Selected::Cached(0), Selected::Cached(2), Selected::Cached(3)]
    );
    assert_eq!(selected_where(&vec![false, false]), Vec::<Selected>::new());
    assert_eq!(selected_where(&Vec::new()), Vec::<Selected>::new());
}
