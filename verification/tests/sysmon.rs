use aria_shell::config::{RawSection, Section};
use aria_shell::procfs::{
    counter, cpu_times, diskstats, meminfo, mounts, netdev, stat_line, unescape, user_name, users, virtual_iface,
};
use aria_shell::sysmon::{process_order, Column, CpuTimes, MonitorConfig, ProcessRow, Value};

const STAT_A: &str = "cpu  100 0 100 800 0 0 0 0 0 0\ncpu0 50 0 50 400 0 0 0 0 0 0\ncpu1 50 0 50 400 0 0 0 0 0 0\nintr 1 2 3\n";

#[test]
fn config_and_values() {
    let c = MonitorConfig::from_raw(&RawSection::default());
    assert_eq!((c.interval, c.history), (2, 60));
    assert!(c.disks.is_empty());
    assert_eq!((c.processes, c.sort), (10, Column::Cpu));
    assert_eq!(Column::parse("mem"), Some(Column::Mem));
    assert!(Column::Pid.descending_by_default() && !Column::Name.descending_by_default());
    assert_eq!(Value::parse("net"), Some(Value::Net));
    assert_eq!(Value::parse("x"), None);
    assert_eq!(Value::Temp.default_format(), "{temp}°");
}

#[test]
fn meminfo_in_bytes() {
    let m = meminfo(
        "MemTotal:       16000 kB\nMemFree:         1000 kB\nMemAvailable:    6000 kB\nBuffers:          500 kB\nCached:          3000 kB\nSwapTotal:       8000 kB\nSwapFree:        7000 kB\nSReclaimable:     500 kB\n",
    );
    assert_eq!(m.total, 16000 * 1024);
    assert_eq!(m.used, 10000 * 1024);
    assert_eq!(m.cached, 4000 * 1024);
    assert_eq!(m.swap_used, 1000 * 1024);
}

#[test]
fn stat_line_with_odd_name() {
    let line = "1234 (Web Content (x)) S 1 1234 1234 0 -1 4194560 100 0 0 0 250 50 0 0 20 0 30 0 1000 200000 1500 18446744073709551615 1 1 0 0 0 0 0 0 0 0 0 0 17 3 0 0 0 0 0 0 0 0 0 0 0 0 0";
    let (name, state, ticks, rss) = stat_line(line).unwrap();
    assert_eq!(name, "Web Content (x)");
    assert_eq!(state, 'S');
    assert_eq!(ticks, 300);
    assert_eq!(rss, 1500);
}

#[test]
fn passwd_users() {
    let u = users("root:x:0:0:root:/root:/bin/bash\ndave:x:1000:1000::/home/dave:/bin/fish\n");
    assert_eq!(user_name(&u, 1000).as_deref(), Some("dave"));
    assert_eq!(user_name(&u, 0).as_deref(), Some("root"));
}

#[test]
fn cpu_lines_total_and_idle() {
    let a = cpu_times(STAT_A);
    assert_eq!(a.len(), 3);
    assert_eq!(a[0], CpuTimes { total: 1000, idle: 800 });
    assert_eq!(a[1], CpuTimes { total: 500, idle: 400 });
}

#[test]
fn disk_and_net_counters_by_name() {
    let d = diskstats(
        " 259       0 nvme0n1 1000 0 80000 0 2000 0 160000 0 0 0 0 0 0 0 0 0 0\n 259       1 nvme0n1p1 10 0 800 0 20 0 1600 0 0 0 0 0 0 0 0 0 0\n",
    );
    assert_eq!(counter(&d, "nvme0n1"), Some((80000, 160000)));
    assert_eq!(counter(&d, "nvme0n1p1"), Some((800, 1600)));
    let n = netdev(
        "Inter-|   Receive                                                |  Transmit\n face |bytes    packets errs drop fifo frame compressed multicast|bytes    packets errs drop fifo colls carrier compressed\n    lo: 1000 10 0 0 0 0 0 0 1000 10 0 0 0 0 0 0\n  eth0: 5000 50 0 0 0 0 0 0 3000 30 0 0 0 0 0 0\n",
    );
    assert_eq!(counter(&n, "eth0"), Some((5000, 3000)));
    assert_eq!(n.len(), 2);
    assert!(virtual_iface("veth1a2b") && virtual_iface("docker0") && !virtual_iface("wlan0"));
    assert!(virtual_iface("lo"));
}

#[test]
fn octal_escapes_in_mount_points() {
    assert_eq!(unescape("/mnt/big\\040disk"), "/mnt/big disk");
    assert_eq!(unescape("/a\\\\b"), "/a\\\\b");
    assert_eq!(unescape("/x\\04"), "/x\\04");
    assert_eq!(unescape("/x\\400"), "/x\\400");
}

#[test]
fn stat_line_without_enough_fields() {
    assert_eq!(stat_line("1 (a) S 1"), None);
    assert_eq!(stat_line("no parens"), None);
}

#[test]
fn a_sort_name_reads_back() {
    for c in Column::ALL {
        assert_eq!(Column::parse(c.name()), Some(c));
    }
    assert_eq!(MonitorConfig::from_raw(&RawSection::from_pairs(vec![("sort".into(), "bogus".into()), ("interval".into(), "0".into()), ("history".into(), "1".into())])).sort, Column::Cpu);
    let c = MonitorConfig::from_raw(&RawSection::from_pairs(vec![("interval".into(), "0".into()), ("history".into(), "1".into())]));
    assert_eq!((c.interval, c.history), (1, 2));
}

#[test]
fn real_mounts_only() {
    let text = "proc /proc proc rw 0 0\n/dev/nvme0n1p2 / ext4 rw 0 0\ntmpfs /tmp tmpfs rw 0 0\n/dev/sda1 /mnt/big\\040disk ext4 rw 0 0\nnfs:/x /net nfs rw 0 0\n/dev/nvme0n1p2 / ext4 rw,remount 0 0\n/dev/nvme0n1p2 /home btrfs subvol=@home 0 0\n";
    let m = mounts(text, &[]);
    assert_eq!(
        m.iter().map(|m| m.point.as_str()).collect::<Vec<_>>(),
        ["/", "/mnt/big disk"],
        "one per device, / first"
    );
    let m = mounts(text, &["/home".to_owned(), "/".to_owned()]);
    assert_eq!(
        m.iter().map(|m| m.point.as_str()).collect::<Vec<_>>(),
        ["/", "/home"]
    );
    let m = mounts(text, &["/tmp".to_owned()]);
    assert_eq!(m.len(), 1);
    assert_eq!(m[0].fs, "tmpfs");
}

#[test]
fn later_mounts_win_and_fuse_is_skipped() {
    let text = "/dev/sdb1 /data ext4 rw 0 0\n/dev/sdc1 /data xfs rw 0 0\n/dev/sdd1 /a ext4 rw 0 0\nsshfs#x /remote fuse.sshfs rw 0 0\n/dev/sde1 /b fuseblk rw 0 0\nshort line\n";
    let m = mounts(text, &[]);
    let got: Vec<(&str, &str)> = m.iter().map(|m| (m.point.as_str(), m.device.as_str())).collect();
    assert_eq!(got, [("/a", "/dev/sdd1"), ("/data", "/dev/sdc1")]);
}

fn row(pid: u32, name: &str, user: &str, cpu_key: u64, rss: u64) -> ProcessRow {
    ProcessRow { pid, name: name.into(), user: user.into(), cpu_key, rss }
}

#[test]
fn process_table_order() {
    let rows = vec![
        row(30, "bash", "root", 5, 100),
        row(10, "Xorg", "gdm", 9, 300),
        row(20, "alacritty", "me", 5, 200),
        row(40, "Bash", "me", 0, 300),
    ];
    assert_eq!(process_order(&rows, Column::Name, false, 10), vec![2, 0, 3, 1], "case-insensitive, ties in order");
    assert_eq!(process_order(&rows, Column::Name, true, 10), vec![1, 0, 3, 2], "ties stay in order when reversed");
    assert_eq!(process_order(&rows, Column::Pid, false, 10), vec![1, 2, 0, 3]);
    assert_eq!(process_order(&rows, Column::Cpu, true, 2), vec![1, 0]);
    assert_eq!(process_order(&rows, Column::Mem, true, 10), vec![1, 3, 2, 0]);
    assert_eq!(process_order(&rows, Column::User, false, 10), vec![1, 2, 3, 0]);
    assert!(process_order(&rows, Column::Pid, false, 0).is_empty());
    assert!(process_order(&[], Column::Pid, false, 5).is_empty());
}
