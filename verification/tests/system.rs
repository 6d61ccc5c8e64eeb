use mudshark_core::commands::common::remainder_after_tokens;
use mudshark_core::commands::bios::parse_section;
use mudshark_core::commands::bluetooth::{annotate, parse_controllers, parse_rfkill};
use mudshark_core::commands::disk::parse_disks;
use mudshark_core::commands::group::parse_groups;
use mudshark_core::commands::memory::{
    memory_report, meminfo_get, meminfo_in_range, parse_meminfo, report_in_range, to_json as memory_json,
    to_table as memory_table,
};
use mudshark_core::commands::network_adapter::{is_network_class, parse_lspci};
use mudshark_core::commands::network_interface::{build_interfaces, parse_addr, parse_link};
use mudshark_core::commands::os::operating_system;
use mudshark_core::commands::package::parse_packages;
use mudshark_core::commands::process::{parse_processes, rss_in_range};
use mudshark_core::commands::processor::{normalize_key, parse_lscpu};
use mudshark_core::commands::service::parse_services;
use mudshark_core::commands::timezone::parse_timezone;
use mudshark_core::commands::usb::{parse_devices as parse_usb, parse_line as parse_usb_line};
use mudshark_core::commands::user::parse_users;
use mudshark_core::commands::video_device::{is_display_class, parse_devices as parse_video};
use mudshark_core::commands::volume::parse_volumes;
use mudshark_core::text::chars_of;

#[test]
fn packages_from_dpkg_query() {
    let text = "bash\t5.1-6ubuntu1\tamd64\tinstall ok installed\nbroken line\n\nzlib1g\t1:1.2.11\tamd64\tinstall ok installed\textra\n";
    let p = parse_packages(text);
    assert_eq!(p.len(), 2);
    assert_eq!(p[0].name, "bash");
    assert_eq!(p[0].version, "5.1-6ubuntu1");
    assert_eq!(p[0].architecture, "amd64");
    assert_eq!(p[0].status, "install ok installed");
    assert_eq!(p[1].name, "zlib1g");
    assert_eq!(p[1].status, "install ok installed\textra");
}

#[test]
fn groups_from_group_file() {
    let g = parse_groups("root:x:0:\nsudo:x:27:alice, bob,,\nbad:x\nodd:x:abc:carol\n");
    assert_eq!(g.len(), 3);
    assert_eq!(g[0].name, "root");
    assert_eq!(g[0].gid, 0);
    assert!(g[0].members.is_empty());
    assert_eq!(g[1].gid, 27);
    assert_eq!(g[1].members, vec!["alice".to_string(), "bob".to_string()]);
    assert_eq!(g[2].gid, 0);
    assert_eq!(g[2].members, vec!["carol".to_string()]);
}

#[test]
fn users_from_passwd() {
    let u = parse_users("root:x:0:0:root:/root:/bin/bash\nalice:x:1000:1000:Alice,,,:/home/alice:/bin/zsh\nshort:x:1\n");
    assert_eq!(u.len(), 2);
    assert_eq!(u[1].name, "alice");
    assert_eq!(u[1].uid, 1000);
    assert_eq!(u[1].gid, 1000);
    assert_eq!(u[1].gecos, "Alice,,,");
    assert_eq!(u[1].home, "/home/alice");
    assert_eq!(u[1].shell, "/bin/zsh");
}

#[test]
fn services_from_systemctl() {
    let s = parse_services(
        "ssh.service loaded active running OpenBSD Secure Shell server\ncron.service   loaded active running   Regular background program\nx y z\n",
    );
    assert_eq!(s.len(), 2);
    assert_eq!(s[0].unit, "ssh.service");
    assert_eq!(s[0].load, "loaded");
    assert_eq!(s[0].active, "active");
    assert_eq!(s[0].sub, "running");
    assert_eq!(s[0].description, "OpenBSD Secure Shell server");
    assert_eq!(s[1].description, "Regular background program");
}

#[test]
fn volumes_from_df() {
    let v = parse_volumes(
        "Filesystem Type 1B-blocks Used Avail Use% Mounted on\n/dev/sda1 ext4 1000 400 600 40% /\n/dev/sdb1 vfat 2048 1024 1024 50% /media/my  disk\nshort line\n",
    );
    assert_eq!(v.len(), 2);
    assert_eq!(v[0].source, "/dev/sda1");
    assert_eq!(v[0].fstype, "ext4");
    assert_eq!(v[0].size, 1000);
    assert_eq!(v[0].used, 400);
    assert_eq!(v[0].available, 600);
    assert_eq!(v[0].use_percent, 40);
    assert_eq!(v[0].mountpoint, "/");
    assert_eq!(v[1].mountpoint, "/media/my disk");
    assert!(parse_volumes("").is_empty());
}

#[test]
fn usb_devices_from_lsusb() {
    let d = parse_usb("Bus 001 Device 002: ID 8087:0024 Intel Corp. Integrated Rate Matching Hub\nBus 002 Device 001: ID 1d6b:0003 Linux Foundation 3.0 root hub\ngarbage\n");
    assert_eq!(d.len(), 2);
    assert_eq!(d[0].bus, "001");
    assert_eq!(d[0].device, "002");
    assert_eq!(d[0].vendor_id, "8087");
    assert_eq!(d[0].product_id, "0024");
    assert_eq!(d[0].id, "8087:0024");
    assert_eq!(d[0].description, "Intel Corp. Integrated Rate Matching Hub");
    assert!(parse_usb_line("Bus 001 Dev 002: ID 8087:0024 x").is_none());
    let nocolon = parse_usb_line("Bus 003 Device 004: ID abcd").unwrap();
    assert_eq!(nocolon.vendor_id, "");
    assert_eq!(nocolon.product_id, "");
    assert_eq!(nocolon.description, "");
}

#[test]
fn disks_from_lsblk() {
    let d = parse_disks(
        "NAME=\"sda\" TYPE=\"disk\" SIZE=\"500107862016\" MODEL=\"Samsung SSD 860\" SERIAL=\"S3Z\" FSTYPE=\"\" MOUNTPOINT=\"\"\nNAME=\"sda1\" TYPE=\"part\" SIZE=\"x\" MODEL=\"\" SERIAL=\"\" FSTYPE=\"ext4\" MOUNTPOINT=\"/\"\n\n",
    );
    assert_eq!(d.len(), 2);
    assert_eq!(d[0].name, "sda");
    assert_eq!(d[0].dtype, "disk");
    assert_eq!(d[0].size, 500107862016);
    assert_eq!(d[0].model, "Samsung SSD 860");
    assert_eq!(d[0].serial, "S3Z");
    assert_eq!(d[1].size, 0);
    assert_eq!(d[1].fstype, "ext4");
    assert_eq!(d[1].mountpoint, "/");
}

#[test]
fn timezone_last_assignment_wins() {
    let t = parse_timezone("Timezone=Europe/Berlin\nLocalRTC=no\nCanNTP=yes\nNTP=yes\nNTPSynchronized=no\nTimezone=UTC\n");
    assert_eq!(t.timezone, "UTC");
    assert!(!t.local_rtc);
    assert!(t.can_ntp);
    assert!(t.ntp);
    assert!(!t.ntp_synchronized);
    let empty = parse_timezone("");
    assert_eq!(empty.timezone, "");
    assert!(!empty.ntp);
}

#[test]
fn operating_system_from_os_release_and_uname() {
    let os = operating_system(
        "NAME=\"Ubuntu\"\nVERSION=\"22.04.3 LTS (Jammy Jellyfish)\"\nID=ubuntu\nVERSION_ID=\"22.04\"\nPRETTY_NAME=\"Ubuntu 22.04.3 LTS\"\n",
        "Linux 6.5.0-14-generic x86_64\n",
    );
    assert_eq!(os.name, "Ubuntu");
    assert_eq!(os.version, "22.04.3 LTS (Jammy Jellyfish)");
    assert_eq!(os.id, "ubuntu");
    assert_eq!(os.version_id, "22.04");
    assert_eq!(os.pretty_name, "Ubuntu 22.04.3 LTS");
    assert_eq!(os.kernel_name, "Linux");
    assert_eq!(os.kernel_release, "6.5.0-14-generic");
    assert_eq!(os.kernel_machine, "x86_64");
    let bare = operating_system("", "Linux");
    assert_eq!(bare.name, "");
    assert_eq!(bare.kernel_release, "");
}

#[test]
fn processor_keys_are_normalised() {
    assert_eq!(normalize_key(&chars_of("CPU(s)")), "cpus");
    assert_eq!(normalize_key(&chars_of("Thread(s) per core")), "threads_per_core");
    assert_eq!(normalize_key(&chars_of("Model name")), "model_name");
    assert_eq!(normalize_key(&chars_of("  L1d cache: ")), "l1d_cache");
    assert_eq!(normalize_key(&chars_of("NUMA node0 CPU(s)")), "numa_node0_cpus");
    let f = parse_lscpu("Architecture:            x86_64\nCPU(s):                  8\nModel name:              Intel(R) Core(TM) i7\nFlags:\nno colon here\n");
    assert_eq!(f.len(), 3);
    assert_eq!(f[0].key, "architecture");
    assert_eq!(f[0].value, "x86_64");
    assert_eq!(f[1].key, "cpus");
    assert_eq!(f[1].value, "8");
    assert_eq!(f[2].key, "model_name");
    assert_eq!(f[2].value, "Intel(R) Core(TM) i7");
}

#[test]
fn bios_section_fields() {
    let text = "# dmidecode 3.3\nGetting SMBIOS data from sysfs.\n\nHandle 0x0000, DMI type 0, 26 bytes\nBIOS Information\n\tVendor: LENOVO\n\tVersion: N2IET98W (1.76 )\n\tCharacteristics:\n\t\tPCI is supported\n\nHandle 0x0001\nOther Section\n\tVendor: X\n";
    let f = parse_section(text, "BIOS Information");
    assert_eq!(f.len(), 2);
    assert_eq!(f[0].key, "vendor");
    assert_eq!(f[0].value, "LENOVO");
    assert_eq!(f[1].key, "version");
    assert_eq!(f[1].value, "N2IET98W (1.76 )");
    assert!(parse_section(text, "Missing").is_empty());
}

const LSPCI: &str = "00:02.0 VGA compatible controller: Intel Corporation UHD Graphics 620\n\tSubsystem: Lenovo Device 2292\n\tKernel driver in use: i915\n00:14.3 Network controller: Intel Corporation Wireless-AC 9560\n\tKernel driver in use: iwlwifi\n00:1f.6 Ethernet controller: Intel Corporation Ethernet Connection (7) I219-V\n\tKernel driver in use: e1000e\n\tKernel modules: e1000e\n01:00.0 3D controller: NVIDIA Corporation GP108M\n";

#[test]
fn network_adapters_from_lspci() {
    assert!(is_network_class("Ethernet controller"));
    assert!(is_network_class("Network controller"));
    assert!(!is_network_class("VGA compatible controller"));
    let a = parse_lspci(LSPCI);
    assert_eq!(a.len(), 2);
    assert_eq!(a[0].slot, "00:14.3");
    assert_eq!(a[0].class, "Network controller");
    assert_eq!(a[0].description, "Intel Corporation Wireless-AC 9560");
    assert_eq!(a[0].driver, "iwlwifi");
    assert_eq!(a[1].slot, "00:1f.6");
    assert_eq!(a[1].driver, "e1000e");
}

#[test]
fn video_devices_from_lspci() {
    assert!(is_display_class("VGA compatible controller"));
    assert!(is_display_class("3D controller"));
    assert!(!is_display_class("Network controller"));
    let d = parse_video(LSPCI);
    assert_eq!(d.len(), 2);
    assert_eq!(d[0].slot, "00:02.0");
    assert_eq!(d[0].description, "Intel Corporation UHD Graphics 620");
    assert_eq!(d[0].driver, Some("i915".to_string()));
    assert_eq!(d[1].slot, "01:00.0");
    assert_eq!(d[1].driver, None);
}

#[test]
fn network_interfaces_from_ip() {
    let link = "1: lo: <LOOPBACK,UP,LOWER_UP> mtu 65536 qdisc noqueue state UNKNOWN mode DEFAULT group default qlen 1000\\    link/loopback 00:00:00:00:00:00 brd 00:00:00:00:00:00\n2: eth0: <BROADCAST,MULTICAST,UP,LOWER_UP> mtu 1500 qdisc fq_codel state UP mode DEFAULT group default qlen 1000\\    link/ether 52:54:00:12:34:56 brd ff:ff:ff:ff:ff:ff\n";
    let addr = "1: lo    inet 127.0.0.1/8 scope host lo\\       valid_lft forever preferred_lft forever\n2: eth0    inet 10.0.2.15/24 brd 10.0.2.255 scope global dynamic eth0\\       valid_lft 86000sec\n2: eth0    inet6 fe80::5054:ff:fe12:3456/64 scope link \\       valid_lft forever\n";
    let l = parse_link("2: eth0: <UP> mtu 1500 state UP link/ether 52:54:00:12:34:56").unwrap();
    assert_eq!(l, ("eth0".to_string(), "UP".to_string(), "52:54:00:12:34:56".to_string(), 1500));
    let (name, a) = parse_addr("2: eth0    inet6 fe80::1/64 scope link").unwrap();
    assert_eq!(name, "eth0");
    assert_eq!(a.family, "ipv6");
    assert_eq!(a.address, "fe80::1");
    assert_eq!(a.prefixlen, 64);
    let ifs = build_interfaces(link, addr);
    assert_eq!(ifs.len(), 2);
    assert_eq!(ifs[0].name, "lo");
    assert_eq!(ifs[0].state, "UNKNOWN");
    assert_eq!(ifs[0].mac, "00:00:00:00:00:00");
    assert_eq!(ifs[0].mtu, 65536);
    assert_eq!(ifs[0].addresses.len(), 1);
    assert_eq!(ifs[0].addresses[0].family, "ipv4");
    assert_eq!(ifs[0].addresses[0].address, "127.0.0.1");
    assert_eq!(ifs[0].addresses[0].prefixlen, 8);
    assert_eq!(ifs[1].name, "eth0");
    assert_eq!(ifs[1].state, "UP");
    assert_eq!(ifs[1].mtu, 1500);
    assert_eq!(ifs[1].addresses.len(), 2);
    assert_eq!(ifs[1].addresses[1].family, "ipv6");
    assert_eq!(ifs[1].addresses[1].prefixlen, 64);
}

#[test]
fn bluetooth_controllers_with_rfkill_state() {
    let listed = parse_controllers("Controller 00:1A:7D:DA:71:13 myhost [default]\nController 11:22:33:44:55:66 other host\nAgent registered\n");
    assert_eq!(listed.len(), 2);
    assert_eq!(listed[0], ("00:1A:7D:DA:71:13".to_string(), "myhost".to_string(), true));
    assert_eq!(listed[1], ("11:22:33:44:55:66".to_string(), "other host".to_string(), false));
    let rf = parse_rfkill("0: hci0: Bluetooth\n\tSoft blocked: no\n\tHard blocked: no\n");
    assert_eq!(rf, vec![(false, false)]);
    let c = annotate(listed, &rf);
    assert_eq!(c.len(), 2);
    assert_eq!(c[0].soft_blocked, Some(false));
    assert_eq!(c[0].hard_blocked, Some(false));
    assert!(c[0].default);
    assert_eq!(c[1].soft_blocked, None);
    assert_eq!(c[1].hard_blocked, None);
    let rf2 = parse_rfkill("0: hci0: Bluetooth\n\tSoft blocked: yes\n\tHard blocked: no\n1: hci1: Bluetooth\n\tHard blocked: yes\n");
    assert_eq!(rf2, vec![(true, false), (false, true)]);
}

#[test]
fn memory_figures_like_free() {
    let text = "MemTotal:       16000000 kB\nMemFree:         2000000 kB\nMemAvailable:    8000000 kB\nBuffers:          500000 kB\nCached:          4000000 kB\nSwapCached:            0 kB\nShmem:            300000 kB\nSReclaimable:     250000 kB\nSwapTotal:       2000000 kB\nSwapFree:        1500000 kB\nHugePages_Total:       0\nbogus line\n";
    assert!(meminfo_in_range(text));
    let e = parse_meminfo(text);
    assert_eq!(meminfo_get(&e, "MemTotal"), 16384000000);
    assert_eq!(meminfo_get(&e, "HugePages_Total"), 0);
    assert_eq!(meminfo_get(&e, "Missing"), 0);
    assert!(report_in_range(&e));
    let r = memory_report(&e, "T".to_string());
    assert_eq!(r.memory.total, 16384000000);
    assert_eq!(r.memory.free, 2048000000);
    assert_eq!(r.memory.buffers, 512000000);
    assert_eq!(r.memory.cached, 4352000000);
    assert_eq!(r.memory.used, 9472000000);
    assert_eq!(r.memory.available, 8192000000);
    assert_eq!(r.memory.shared, 307200000);
    assert_eq!(r.swap.total, 2048000000);
    assert_eq!(r.swap.free, 1536000000);
    assert_eq!(r.swap.used, 512000000);
    assert_eq!(
        memory_json(&r).to_compact_string(),
        "{\"timestamp\":\"T\",\"unit\":\"bytes\",\"memory\":{\"total\":16384000000,\"used\":9472000000,\"free\":2048000000,\"available\":8192000000,\"buffers\":512000000,\"cached\":4352000000,\"shared\":307200000},\"swap\":{\"total\":2048000000,\"used\":512000000,\"free\":1536000000}}"
    );
    let t = memory_table(&r);
    assert_eq!(
        t,
        "Metric           Size\n----------  ---------\nTotal        15.2 GiB\nUsed          8.8 GiB\nFree          1.9 GiB\nAvailable     7.6 GiB\nBuffers     488.2 MiB\nCached        4.0 GiB\nShared      292.9 MiB\nSwap Total    1.9 GiB\nSwap Used   488.2 MiB\nSwap Free     1.4 GiB\n"
    );
}

#[test]
fn memory_used_saturates_at_zero() {
    let e = parse_meminfo("MemTotal: 10 kB\nMemFree: 20 kB\nSwapTotal: 1 kB\nSwapFree: 5 kB\n");
    let r = memory_report(&e, String::new());
    assert_eq!(r.memory.used, 0);
    assert_eq!(r.swap.used, 0);
}

#[test]
fn memory_sizes_out_of_range_are_detected() {
    assert!(!meminfo_in_range("MemTotal: 18446744073709551615 kB\n"));
    assert!(meminfo_in_range("MemTotal: 18014398509481983 kB\n"));
    let e = parse_meminfo("Cached: 18014398509481983 kB\nSReclaimable: 18014398509481983 kB\n");
    assert!(!report_in_range(&e));
}

#[test]
fn processes_from_ps() {
    let text = "    1     0 root      0.0  0.1 167772 systemd         /sbin/init splash\n  742     1 message+  0.5  0.0   9876 dbus-daemon     @dbus-daemon --system --nofork\nshort line\n";
    assert!(rss_in_range(text));
    let p = parse_processes(text);
    assert_eq!(p.len(), 2);
    assert_eq!(p[0].pid, 1);
    assert_eq!(p[0].ppid, 0);
    assert_eq!(p[0].user, "root");
    assert_eq!(p[0].cpu_percent, "0.0");
    assert_eq!(p[0].mem_percent, "0.1");
    assert_eq!(p[0].rss_bytes, 167772 * 1024);
    assert_eq!(p[0].comm, "systemd");
    assert_eq!(p[0].args, "/sbin/init splash");
    assert_eq!(p[1].pid, 742);
    assert_eq!(p[1].user, "message+");
    assert_eq!(p[1].args, "@dbus-daemon --system --nofork");
    assert!(!rss_in_range("1 0 root 0.0 0.0 18014398509481984 x y\n"));
}

#[test]
fn remainder_after_tokens_counts_words() {
    assert_eq!(remainder_after_tokens(&chars_of("  a b  c "), 0), "a b  c ");
    assert_eq!(remainder_after_tokens(&chars_of("   "), 0), "");
    assert_eq!(remainder_after_tokens(&chars_of("  a b  c "), 1), "b  c ");
    assert_eq!(remainder_after_tokens(&chars_of("  a b  c "), 2), "c ");
    assert_eq!(remainder_after_tokens(&chars_of("  a b  c "), 3), "");
    assert_eq!(remainder_after_tokens(&chars_of("a b c"), 3), "");
    assert_eq!(remainder_after_tokens(&chars_of("a b"), 5), "");
}

#[test]
fn normalised_keys_are_snake_case() {
    for raw in ["CPU(s)", "  --Weird__Key--  ", "L1d cache:", "(x)", "", "__", "Café Größe 9"] {
        let k = normalize_key(&chars_of(raw));
        assert!(k.chars().all(|c| c.is_ascii_lowercase() || c.is_ascii_digit() || c == '_'));
        assert!(!k.starts_with('_') && !k.ends_with('_'));
        assert!(!k.contains("__"));
        let expected: String = raw.chars().filter(|c| c.is_ascii_alphanumeric()).map(|c| c.to_ascii_lowercase()).collect();
        assert_eq!(k.replace('_', ""), expected);
        assert_eq!(normalize_key(&chars_of(&k)), k);
    }
    assert_eq!(normalize_key(&chars_of("  --Weird__Key--  ")), "weird_key");
    assert_eq!(normalize_key(&chars_of("Café Größe 9")), "caf_gr_e_9");
}
