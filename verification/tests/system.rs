use omni_runner::system;

const DF: &str = "Filesystem     1024-blocks      Used Available Capacity Mounted on\n/dev/sda1        524288000  52428800 471859200      10% /\n";

#[test]
fn test_memory_total_from_meminfo() {
    let meminfo = "MemTotal:       16384000 kB\nMemFree:         1000 kB\n";
    assert_eq!(system::get_memory_total_mb(meminfo), 16000);
    // Without a readable MemTotal, 8 GB is assumed.
    assert_eq!(system::get_memory_total_mb(""), 8192);
    assert_eq!(system::get_memory_total_mb("MemTotal: lots kB\n"), 8192);
}

#[test]
fn test_memory_total_not_below_used() {
    let meminfo = "MemTotal: 2097152 kB\nMemAvailable: 1048576 kB\n";
    let total = system::get_memory_total_mb(meminfo);
    let used = system::memory_used_mb(meminfo);
    assert_eq!(total, 2048);
    assert_eq!(used, 1024);
    assert!(total >= used);
}

#[test]
fn test_disk_figures_from_df() {
    let used = system::get_disk_used_gb(DF);
    let total = system::get_disk_total_gb(DF);
    assert_eq!(used, 50);
    assert_eq!(total, 500);
    assert!(used > 0);
    assert!(total > used);
}

#[test]
fn test_disk_figures_unreadable() {
    assert_eq!(system::get_disk_used_gb(""), 0);
    assert_eq!(system::get_disk_total_gb("Filesystem 1024-blocks Used\n"), 0);
    assert_eq!(system::get_disk_total_gb("header\n/dev/x\n"), 0);
    assert_eq!(system::get_disk_used_gb("header\n/dev/x 10 abc 5 1% /\n"), 0);
}

#[test]
fn test_memory_used_from_meminfo() {
    let meminfo = "MemTotal:       16384000 kB\nMemFree:         1000 kB\nMemAvailable:    8192000 kB\n";
    assert_eq!(system::memory_used_mb(meminfo), (16384000 - 8192000) / 1024);
}

#[test]
fn test_memory_used_defaults() {
    assert_eq!(system::memory_used_mb(""), 8192);
    assert_eq!(system::memory_used_mb("MemAvailable: 9000000 kB\n"), 0);
    assert_eq!(system::memory_used_mb("MemAvailable: 1024 kB\r\n"), (8192 * 1024 - 1024) / 1024);
}

#[test]
fn test_memory_used_last_value_wins_and_bad_values_ignored() {
    let meminfo = "MemTotal: 4096 kB\nMemTotal: 8192 kB\nMemAvailable: abc kB\nMemAvailable: 1024 kB\nMemAvailable: x\n";
    assert_eq!(system::memory_used_mb(meminfo), 7);
}

#[test]
fn test_cpu_counters() {
    let stat = "cpu  10 20 30 40 50\ncpu0 1 2 3 4\n";
    assert_eq!(system::cpu_counters(stat), Some((40, 150)));
    assert_eq!(system::cpu_counters("cpu 1 2 3\n"), None);
    assert_eq!(system::cpu_counters(""), None);
    assert_eq!(system::cpu_counters("cpu 1 x 2 3 4"), Some((4, 10)));
    let big = format!("cpu {} {} {} {}", u64::MAX, u64::MAX, 0, 7);
    assert_eq!(system::cpu_counters(&big), Some((7, 2 * (u64::MAX as u128) + 7)));
}
