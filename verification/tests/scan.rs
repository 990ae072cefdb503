use std::collections::HashSet;

use free_cpus::get;
use free_cpus::free_cores;
use free_cpus::occupied_cores;
use free_cpus::status::classify_status;
use free_cpus::status::parse_core_id;

fn lines(parts: &[&str]) -> Vec<Vec<u8>> {
    parts.iter().map(|s| s.as_bytes().to_vec()).collect()
}

fn set(elems: &[usize]) -> HashSet<usize> {
    elems.iter().copied().collect()
}

#[test]
fn empty_system_all_cores_free() {
    let statuses: Vec<Option<Vec<Vec<u8>>>> = Vec::new();
    assert_eq!(get(4, &statuses), set(&[0, 1, 2, 3]));
}

#[test]
fn one_pinned_user_process() {
    let statuses = vec![Some(lines(&[
        "Name:\tworker",
        "VmSize:\t1024 kB",
        "Cpus_allowed_list:\t2",
    ]))];
    assert_eq!(get(4, &statuses), set(&[0, 1, 3]));
}

#[test]
fn kernel_thread_ignored() {
    let statuses = vec![Some(lines(&["Cpus_allowed_list:\t0"]))];
    assert_eq!(get(2, &statuses), set(&[0, 1]));
}

#[test]
fn floating_process_ignored() {
    let statuses = vec![Some(lines(&["VmSize:\t4096 kB", "Cpus_allowed_list:\t0-3"]))];
    assert_eq!(get(4, &statuses), set(&[0, 1, 2, 3]));
}

#[test]
fn multiple_pins_plus_noise() {
    let statuses = vec![
        Some(lines(&["VmSize:\t1024 kB", "Cpus_allowed_list:\t0"])),
        Some(lines(&["VmSize:\t1024 kB", "Cpus_allowed_list:\t0,2"])),
        Some(lines(&["VmSize:\t1024 kB", "Cpus_allowed_list:\t3"])),
        Some(lines(&["Cpus_allowed_list:\t1"])),
    ];
    assert_eq!(get(4, &statuses), set(&[1, 2]));
}

#[test]
fn race_tolerance_unreadable_status() {
    let statuses = vec![
        None,
        Some(lines(&["VmSize:\t1024 kB", "Cpus_allowed_list:\t2"])),
    ];
    assert_eq!(get(4, &statuses), set(&[0, 1, 3]));
}

#[test]
fn result_is_within_core_range() {
    let statuses = vec![
        Some(lines(&["VmSize:\t8 kB", "Cpus_allowed_list:\t1"])),
        Some(lines(&["VmSize:\t8 kB", "Cpus_allowed_list:\t7"])),
    ];
    for n in 1..6usize {
        let free = get(n, &statuses);
        assert!(free.iter().all(|&c| c < n));
    }
}

#[test]
fn result_is_complement_of_occupied() {
    let statuses = vec![
        Some(lines(&["VmSize:\t8 kB", "Cpus_allowed_list:\t0"])),
        Some(lines(&["Cpus_allowed_list:\t1"])),
        Some(lines(&["VmSize:\t8 kB", "Cpus_allowed_list:\t2,3"])),
        Some(lines(&["VmSize:\t8 kB", "Cpus_allowed_list:\t5"])),
        None,
    ];
    let n = 8usize;
    let occupied = occupied_cores(&statuses);
    assert_eq!(occupied, set(&[0, 5]));
    let expected: HashSet<usize> = (0..n).filter(|c| !occupied.contains(c)).collect();
    assert_eq!(get(n, &statuses), expected);
}

#[test]
fn two_calls_on_same_snapshot_agree() {
    let statuses = vec![
        Some(lines(&["VmSize:\t8 kB", "Cpus_allowed_list:\t1"])),
        Some(lines(&["VmSize:\t8 kB", "Cpus_allowed_list:\t3"])),
    ];
    assert_eq!(get(4, &statuses), get(4, &statuses));
}

#[test]
fn unreadable_entries_change_nothing() {
    let base = vec![
        Some(lines(&["VmSize:\t8 kB", "Cpus_allowed_list:\t1"])),
        Some(lines(&["VmSize:\t8 kB", "Cpus_allowed_list:\t3"])),
    ];
    let mut noisy = base.clone();
    noisy.insert(0, None);
    noisy.insert(2, None);
    noisy.push(None);
    assert_eq!(get(4, &base), get(4, &noisy));
}

#[test]
fn two_processes_on_one_core_collapse() {
    let statuses = vec![
        Some(lines(&["VmSize:\t8 kB", "Cpus_allowed_list:\t1"])),
        Some(lines(&["VmSize:\t16 kB", "Cpus_allowed_list:\t1"])),
    ];
    assert_eq!(occupied_cores(&statuses), set(&[1]));
    assert_eq!(get(2, &statuses), set(&[0]));
}

#[test]
fn pin_beyond_core_count_is_discarded() {
    let statuses = vec![Some(lines(&["VmSize:\t8 kB", "Cpus_allowed_list:\t5"]))];
    assert_eq!(get(2, &statuses), set(&[0, 1]));
}

#[test]
fn zero_free_cores_is_a_valid_answer() {
    let statuses = vec![Some(lines(&["VmSize:\t8 kB", "Cpus_allowed_list:\t0"]))];
    assert_eq!(get(1, &statuses), set(&[]));
}

#[test]
fn classify_pinned_process() {
    let status = lines(&["Name:\tworker", "VmSize:\t1024 kB", "Cpus_allowed_list:\t2"]);
    assert_eq!(classify_status(&status), Some(2));
}

#[test]
fn classify_without_vmsize_yields_nothing() {
    let status = lines(&["Name:\tkthread", "Cpus_allowed_list:\t0"]);
    assert_eq!(classify_status(&status), None);
}

#[test]
fn classify_range_value_yields_nothing() {
    let status = lines(&["VmSize:\t8 kB", "Cpus_allowed_list:\t0-3"]);
    assert_eq!(classify_status(&status), None);
}

#[test]
fn classify_enumeration_value_yields_nothing() {
    let status = lines(&["VmSize:\t8 kB", "Cpus_allowed_list:\t0,2"]);
    assert_eq!(classify_status(&status), None);
}

#[test]
fn classify_unparsable_value_yields_nothing() {
    let status = lines(&["VmSize:\t8 kB", "Cpus_allowed_list:\tabc"]);
    assert_eq!(classify_status(&status), None);
}

#[test]
fn classify_empty_value_yields_nothing() {
    let status = lines(&["VmSize:\t8 kB", "Cpus_allowed_list:\t"]);
    assert_eq!(classify_status(&status), None);
}

#[test]
fn classify_gate_requires_vmsize_first() {
    let status = lines(&["Cpus_allowed_list:\t2", "VmSize:\t8 kB"]);
    assert_eq!(classify_status(&status), None);
}

#[test]
fn classify_tolerates_later_lines() {
    let status = lines(&[
        "Name:\tworker",
        "VmSize:\t1024 kB",
        "Cpus_allowed_list:\t3",
        "Mems_allowed_list:\t0",
    ]);
    assert_eq!(classify_status(&status), Some(3));
}

#[test]
fn parse_bare_integer() {
    assert_eq!(parse_core_id(&b"2".to_vec()), Some(2));
    assert_eq!(parse_core_id(&b"0".to_vec()), Some(0));
    assert_eq!(parse_core_id(&b"127".to_vec()), Some(127));
}

#[test]
fn parse_leading_plus() {
    assert_eq!(parse_core_id(&b"+2".to_vec()), Some(2));
    assert_eq!(parse_core_id(&b"+".to_vec()), None);
}

#[test]
fn parse_rejects_non_digits_and_empty() {
    assert_eq!(parse_core_id(&b"".to_vec()), None);
    assert_eq!(parse_core_id(&b"2 ".to_vec()), None);
    assert_eq!(parse_core_id(&b" 2".to_vec()), None);
    assert_eq!(parse_core_id(&b"2x".to_vec()), None);
    assert_eq!(parse_core_id(&b"-2".to_vec()), None);
}

#[test]
fn parse_rejects_overflow() {
    assert_eq!(parse_core_id(&b"99999999999999999999999999".to_vec()), None);
}

#[test]
fn full_query_reports_count_and_free_set() {
    let statuses = vec![Some(lines(&["VmSize:\t8 kB", "Cpus_allowed_list:\t0"]))];
    let (n, free) = free_cores(&statuses);
    assert!(n >= 1);
    assert!(free.iter().all(|&c| c < n));
    assert!(!free.contains(&0));
    let expected: HashSet<usize> = (1..n).collect();
    assert_eq!(free, expected);
}
