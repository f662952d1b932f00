use zyris_docker::system::{
    cpu_count, cpu_spent, cpu_times, disk_usage, host_figures, meminfo_kb, parse_proc_stat, pid_named,
    process_list, process_running, BlockCounts, ProcEntry,
};

const MEMINFO: &str = "MemTotal:       16000 kB\nMemFree:          100 kB\nMemAvailable:    6000 kB\nSwapTotal:        2000 kB\nSwapFree:         2500 kB\n";

fn entry(name: &str, stat: Option<&str>, cmdline: Option<&[u8]>) -> ProcEntry {
    ProcEntry {
        name: name.as_bytes().to_vec(),
        stat: stat.map(str::to_string),
        cmdline: cmdline.map(|bytes| bytes.to_vec()),
    }
}

#[test]
fn parses_proc_stat_with_spaces_in_comm() {
    let stat = "1234 (my cool proc) S 1 2 3 4 5 6 0 0 0 0 0 0 0 100 50 0 10 0 0 0 0 0 100 200 0";
    let p = parse_proc_stat(1234, stat, &None).unwrap();
    assert_eq!(p.pid, 1234);
    assert_eq!(p.name, "my cool proc");
    assert_eq!(p.state, "S");
    assert_eq!(p.rss_bytes, 100 * 4096);
    assert_eq!(p.cpu_secs, (100 + 50 + 10) / 100);
    assert_eq!(p.cmdline, "");
}

#[test]
fn a_name_may_hold_brackets() {
    let p = parse_proc_stat(7, "7 (a) (b)) R 1", &None).unwrap();
    assert_eq!(p.name, "a) (b)");
    assert_eq!(p.state, "R");
    assert_eq!((p.rss_bytes, p.cpu_secs), (0, 0));
}

#[test]
fn a_stat_without_brackets_is_no_process() {
    assert!(parse_proc_stat(7, "7 sh S 1", &None).is_none());
    let p = parse_proc_stat(7, "7 sh) S", &None).unwrap();
    assert_eq!(p.name, "");
}

#[test]
fn figures_wrap_like_machine_words() {
    let max = u64::MAX.to_string();
    let mut fields = vec!["0".to_string(); 24];
    fields[0] = "S".to_string();
    fields[14] = max.clone();
    fields[15] = "101".to_string();
    fields[23] = max;
    let p = parse_proc_stat(1, &format!("1 (x) {}", fields.join(" ")), &None).unwrap();
    assert_eq!(p.cpu_secs, 1);
    assert_eq!(p.rss_bytes, u64::MAX - 4095);
}

#[test]
fn a_command_line_is_joined_with_spaces() {
    let bytes = b"nginx\0-g\0\0daemon off;\0".to_vec();
    let p = parse_proc_stat(1, "1 (nginx) S", &Some(bytes)).unwrap();
    assert_eq!(p.cmdline, "nginx -g daemon off;");
    let p = parse_proc_stat(1, "1 (odd) S", &Some(b"a\xff\0b".to_vec())).unwrap();
    assert_eq!(p.cmdline, "a\u{fffd} b");
}

#[test]
fn only_entries_with_a_number_and_a_stat_are_processes() {
    let entries = vec![
        entry("self", Some("9 (self) S"), None),
        entry("12", Some("12 (nginx) S"), Some(b"nginx\0")),
        entry("13", None, None),
        entry("14", Some("broken"), None),
        entry("15", Some("15 (sh) R"), None),
    ];
    let all = process_list(&entries);
    let pids: Vec<i32> = all.iter().map(|p| p.pid).collect();
    assert_eq!(pids, [12, 15]);
    assert!(process_running("nginx", &entries));
    assert!(!process_running("ngin", &entries));
    assert!(!process_running("self", &entries));
    assert_eq!(pid_named(&b"12".to_vec()), Some(12));
    assert_eq!(pid_named(&b"12a".to_vec()), None);
    assert_eq!(pid_named(&b"2147483648".to_vec()), None);
}

#[test]
fn processor_times_come_from_the_last_full_line_about_all() {
    let t = cpu_times("cpu  10 20 30 40 50\ncpu0 1 1 1 1\nintr 5\n");
    assert_eq!((t.user, t.nice, t.system, t.idle), (10, 20, 30, 40));
    let t = cpu_times("cpu 1 2 3\n");
    assert_eq!((t.user, t.nice, t.system, t.idle), (0, 0, 0, 0));
    let t = cpu_times("cpu 1 x 2 3 4\ncpu 9 9\n");
    assert_eq!((t.user, t.nice, t.system, t.idle), (1, 2, 3, 4));
    let later = cpu_times("cpu 15 20 31 44\n");
    let earlier = cpu_times("cpu 10 20 30 40\n");
    assert_eq!(cpu_spent(&earlier, &later), (6, 4));
    assert_eq!(cpu_spent(&later, &earlier), (0, 0));
}

#[test]
fn processors_are_counted() {
    assert_eq!(cpu_count("cpu  1 2 3 4\ncpu0 1 1 1 1\ncpu1 1 1 1 1\nintr 5\n"), 2);
    assert_eq!(cpu_count("cpu 1 2 3 4\n"), 0);
}

#[test]
fn memory_is_told_in_bytes() {
    assert_eq!(meminfo_kb(MEMINFO, "MemTotal:"), 16000 * 1024);
    assert_eq!(meminfo_kb(MEMINFO, "Nothing:"), 0);
    assert_eq!(meminfo_kb("MemTotal: much\nMemTotal: 5\n", "MemTotal:"), 0);
}

#[test]
fn disk_usage_is_what_is_not_free() {
    assert_eq!(disk_usage(Some(BlockCounts { block: 4096, blocks: 10, free: 4 })), (40960, 24576));
    assert_eq!(disk_usage(Some(BlockCounts { block: 1, blocks: 3, free: 4 })), (3, 0));
    assert_eq!(disk_usage(None), (0, 0));
}

#[test]
fn the_figures_of_a_host_add_up() {
    let entries = vec![entry("1", Some("1 (init) S"), None)];
    let counts = Some(BlockCounts { block: 512, blocks: 8, free: 2 });
    let f = host_figures("srv-a\n", MEMINFO, &entries, counts);
    assert_eq!(f.hostname, "srv-a");
    assert_eq!(f.mem_total_bytes, 16000 * 1024);
    assert_eq!(f.mem_available_bytes, 6000 * 1024);
    assert_eq!(f.mem_used_bytes, 10000 * 1024);
    assert_eq!(f.swap_total_bytes, 2000 * 1024);
    assert_eq!(f.swap_used_bytes, 0);
    assert_eq!(f.process_count, 1);
    assert_eq!((f.disk_total_bytes, f.disk_used_bytes), (4096, 3072));
}
