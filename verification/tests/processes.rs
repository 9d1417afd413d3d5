use tako::processes::{
    count_current_user_threads, count_user_threads, current_user, is_process_name, process_threads,
    ProcEntry,
};

fn entry(name: &str, status: &str) -> ProcEntry {
    ProcEntry {
        name: Some(name.to_string()),
        status: Some(status.to_string()),
    }
}

const STATUS: &str = "Name:\tserver\nUmask:\t0022\nState:\tS (sleeping)\nTgid:\t42\n\
Uid:\t1000\t1001\t1002\t1003\nGid:\t1000\t1000\t1000\t1000\nVmPeak:\t  1000 kB\nThreads:\t12\n\
SigQ:\t0/100\n";

#[test]
fn count_current_user_threads_sees_at_least_this_process() {
    let uid = nix::unistd::getuid().as_raw();
    let status = format!("Name:\ttest\nUid:\t{uid}\t{uid}\t{uid}\t{uid}\nThreads:\t1\n");
    let entries = vec![entry("1", STATUS), entry("2", &status)];
    let n = count_current_user_threads(&entries).expect("proc scan should succeed under test");
    assert!(n >= 1, "expected at least 1 thread, got {n}");
    assert_eq!(uid, current_user());
    assert_eq!(Some(n), count_user_threads(&entries, uid));
}

#[test]
fn status_charges_the_real_user() {
    assert_eq!(process_threads(STATUS, 1000), 12);
    assert_eq!(process_threads(STATUS, 1001), 0);
    assert_eq!(process_threads(STATUS, 0), 0);
}

#[test]
fn status_lines_may_end_in_any_way() {
    assert_eq!(process_threads("Uid: 7\r\nThreads: 3\r\n", 7), 3);
    assert_eq!(process_threads("Uid: 7\nThreads: 3", 7), 3);
    assert_eq!(process_threads("Threads: 3\r\nUid: 7\r", 7), 3);
    assert_eq!(process_threads("\n\nUid:7\n\nThreads:3\n\n", 7), 3);
}

#[test]
fn last_line_of_a_kind_decides() {
    assert_eq!(process_threads("Uid: 7\nUid: 8\nThreads: 3\nThreads: 4\n", 8), 4);
    assert_eq!(process_threads("Uid: 7\nUid: 8\nThreads: 3\n", 7), 0);
    assert_eq!(process_threads("Uid: 7\nUid:\nThreads: 3\n", 7), 0);
    assert_eq!(process_threads("Uid: 7\nThreads: 3\nThreads: x\n", 7), 0);
}

#[test]
fn labels_are_matched_exactly() {
    assert_eq!(process_threads(" Uid: 7\nThreads: 3\n", 7), 0);
    assert_eq!(process_threads("uid: 7\nThreads: 3\n", 7), 0);
    assert_eq!(process_threads("Uid: 7\nThreads 3\n", 7), 0);
    assert_eq!(process_threads("Uid: 7\nNonThreads: 3\n", 7), 0);
    assert_eq!(process_threads("Uid: 7 x\nThreads:\u{2003}3\u{a0}\n", 7), 3);
    assert_eq!(process_threads("Uid: 7x\nThreads: 3\n", 7), 0);
    assert_eq!(process_threads("Uid: 7\nThreads: 3 4\n", 7), 0);
    assert_eq!(process_threads("", 7), 0);
}

#[test]
fn numbers_of_threads_are_signed() {
    assert_eq!(process_threads("Uid: 7\nThreads: -3\n", 7), -3);
    assert_eq!(
        process_threads("Uid: 7\nThreads: 9223372036854775807\n", 7),
        i64::MAX
    );
    assert_eq!(process_threads("Uid: 7\nThreads: 9223372036854775808\n", 7), 0);
    assert_eq!(process_threads("Uid: 4294967295\nThreads: 2\n", u32::MAX), 2);
    assert_eq!(process_threads("Uid: 4294967296\nThreads: 2\n", 0), 0);
}

#[test]
fn process_names_are_numbers() {
    assert!(is_process_name("1"));
    assert!(is_process_name("0123456789"));
    assert!(is_process_name(""));
    assert!(!is_process_name("self"));
    assert!(!is_process_name("12a"));
    assert!(!is_process_name("-1"));
    assert!(!is_process_name("\u{661}"));
}

#[test]
fn only_readable_processes_count() {
    let entries = vec![
        entry("1", STATUS),
        entry("self", STATUS),
        ProcEntry {
            name: Some("2".to_string()),
            status: None,
        },
        ProcEntry {
            name: None,
            status: Some(STATUS.to_string()),
        },
        entry("3", "Uid: 1000\nThreads: 5\n"),
        entry("4", "Uid: 1\nThreads: 100\n"),
    ];
    assert_eq!(count_user_threads(&entries, 1000), Some(17));
    assert_eq!(count_user_threads(&entries, 1), Some(100));
    assert_eq!(count_user_threads(&entries, 2), Some(0));
    assert_eq!(count_user_threads(&vec![], 2), Some(0));
}

#[test]
fn count_that_overflows_is_not_given() {
    let most = "Uid: 1\nThreads: 9223372036854775807\n";
    let one = "Uid: 1\nThreads: 1\n";
    let minus = "Uid: 1\nThreads: -1\n";
    let entries = vec![entry("1", most), entry("2", one), entry("3", minus)];
    assert_eq!(count_user_threads(&entries, 1), None);
    let entries = vec![entry("1", most), entry("3", minus), entry("2", one)];
    assert_eq!(count_user_threads(&entries, 1), Some(i64::MAX));
}

#[test]
fn count_covers_each_process() {
    let entries = vec![
        entry("1", "Uid: 1\nThreads: 4\n"),
        entry("2", "Uid: 1\nThreads: 9\n"),
    ];
    assert_eq!(count_user_threads(&entries, 1), Some(13));
}
