use mudshark_core::commands::battery::{
    battery_from_uevent, is_battery_type, parse_uevent, sort_by_name as sort_batteries, to_json as battery_json,
    to_table as battery_table, uevent_get,
};
use mudshark_core::commands::cinnamon_actions::{action_name, is_nemo_action, sort_by_file, Action};
use mudshark_core::commands::cinnamon_applet::{applet_from_definition, parse_applets};
use mudshark_core::commands::cinnamon_desktop::{
    cinnamon_version, collect_settings, gsettings_value, setting_queries, to_json as desktop_json,
    to_table as desktop_table, Desktop,
};
use mudshark_core::commands::cinnamon_extension::{parse_extensions, to_table as extension_table};
use mudshark_core::commands::environment::{sort_by_name as sort_vars, EnvVar};
use mudshark_core::commands::provider::{probe_result, provider_names, to_json as provider_json, to_table as provider_table};
use mudshark_core::commands::scheduled_job::{
    collect_jobs, looks_like_cron_field, parse_crontab, parse_timers, to_json as jobs_json, to_table as jobs_table, Job,
};
use mudshark_core::commands::video_configuration::{parse_xrandr, to_table as outputs_table};
use mudshark_core::text::chars_of;

fn cron(j: &Job) -> (String, String) {
    match j {
        Job::Cron { schedule, command } => (schedule.clone(), command.clone()),
        Job::Timer { .. } => panic!("expected a cron job"),
    }
}

#[test]
fn timers_keep_the_raw_schedule() {
    let t = parse_timers(
        "Mon 2024-01-01 00:00:00 UTC 5h left Sun 2023-12-31 00:00:00 UTC 19h ago logrotate.timer logrotate.service\n\n   \nsolo\n",
    );
    assert_eq!(t.len(), 1);
    match &t[0] {
        Job::Timer { unit, activates, schedule } => {
            assert_eq!(unit, "logrotate.timer");
            assert_eq!(activates, "logrotate.service");
            assert_eq!(schedule, "Mon 2024-01-01 00:00:00 UTC 5h left Sun 2023-12-31 00:00:00 UTC 19h ago");
        },
        Job::Cron { .. } => panic!("expected a timer"),
    }
    let minimal = parse_timers("a.timer a.service\n");
    match &minimal[0] {
        Job::Timer { schedule, .. } => assert_eq!(schedule, ""),
        Job::Cron { .. } => panic!("expected a timer"),
    }
}

#[test]
fn crontab_entries() {
    let c = parse_crontab(
        "# m h dom mon dow command\nSHELL=/bin/sh\n@daily   /usr/bin/backup --all\n*/5 * * * * /usr/bin/check  --quiet\n@reboot\n0 1 * * *\nMAILTO=a b c d e f\n  30 2 * * 1-5   run.sh  \n",
    );
    assert_eq!(c.len(), 3);
    assert_eq!(cron(&c[0]), ("@daily".to_string(), "/usr/bin/backup --all".to_string()));
    assert_eq!(cron(&c[1]), ("*/5 * * * *".to_string(), "/usr/bin/check  --quiet".to_string()));
    assert_eq!(cron(&c[2]), ("30 2 * * 1-5".to_string(), "run.sh".to_string()));
}

#[test]
fn cron_field_heuristic() {
    assert!(looks_like_cron_field(&chars_of("*/5")));
    assert!(looks_like_cron_field(&chars_of("1,15-20")));
    assert!(!looks_like_cron_field(&chars_of("")));
    assert!(!looks_like_cron_field(&chars_of("SHELL=/bin/sh")));
    assert!(!looks_like_cron_field(&chars_of("mon")));
}

#[test]
fn jobs_are_timers_then_cron_entries() {
    let all = collect_jobs("x.timer x.service\n", Some("@hourly /bin/tick\n"));
    assert_eq!(all.len(), 2);
    assert!(matches!(all[0], Job::Timer { .. }));
    assert_eq!(cron(&all[1]), ("@hourly".to_string(), "/bin/tick".to_string()));
    let timers_only = collect_jobs("x.timer x.service\n", None);
    assert_eq!(timers_only.len(), 1);
}

#[test]
fn jobs_output() {
    let jobs = parse_crontab("@daily /bin/x\n");
    assert_eq!(jobs_table(&jobs), "Type  Name  Schedule  Detail\n----  ----  --------  ------\ncron        @daily    /bin/x\n");
    let mut all = parse_timers("u.timer u.service\n");
    all.extend(jobs);
    assert_eq!(
        jobs_json(&all, &"T".to_string()).to_compact_string(),
        "{\"timestamp\":\"T\",\"jobs\":[{\"type\":\"timer\",\"unit\":\"u.timer\",\"activates\":\"u.service\",\"schedule\":\"\"},{\"type\":\"cron\",\"schedule\":\"@daily\",\"command\":\"/bin/x\"}]}"
    );
}

const UEVENT: &str = "POWER_SUPPLY_NAME=BAT0\nPOWER_SUPPLY_STATUS=Discharging\nPOWER_SUPPLY_CAPACITY=87\nPOWER_SUPPLY_ENERGY_FULL=50000000\nPOWER_SUPPLY_ENERGY_NOW=43500000\nPOWER_SUPPLY_MANUFACTURER=SMP\nPOWER_SUPPLY_MODEL_NAME=5B10W13930\n";

#[test]
fn uevent_pairs_last_value_wins() {
    let p = parse_uevent(" A = 1 \nno equals\nB=x=y\nA=2\n");
    assert_eq!(p.len(), 3);
    assert_eq!(p[0], ("A".to_string(), "1".to_string()));
    assert_eq!(p[1], ("B".to_string(), "x=y".to_string()));
    assert_eq!(uevent_get(&p, "A"), Some("2".to_string()));
    assert_eq!(uevent_get(&p, "C"), None);
}

#[test]
fn battery_from_its_uevent() {
    let b = battery_from_uevent(UEVENT, "ignored");
    assert_eq!(b.name, "BAT0");
    assert_eq!(b.status, "Discharging");
    assert_eq!(b.capacity, Some(87));
    assert_eq!(b.energy_full, Some(50000000));
    assert_eq!(b.energy_now, Some(43500000));
    assert_eq!(b.manufacturer, "SMP");
    assert_eq!(b.model_name, "5B10W13930");
    let sparse = battery_from_uevent("POWER_SUPPLY_CAPACITY=abc\n", "BAT1");
    assert_eq!(sparse.name, "BAT1");
    assert_eq!(sparse.status, "");
    assert_eq!(sparse.capacity, None);
    assert_eq!(sparse.energy_now, None);
    assert!(is_battery_type("Battery\n"));
    assert!(!is_battery_type("Mains\n"));
    assert!(!is_battery_type("battery"));
}

#[test]
fn batteries_sorted_and_rendered() {
    let list = vec![
        battery_from_uevent("POWER_SUPPLY_NAME=BAT1\n", "x"),
        battery_from_uevent(UEVENT, "y"),
    ];
    let sorted = sort_batteries(&list);
    assert_eq!(sorted[0].name, "BAT0");
    assert_eq!(sorted[1].name, "BAT1");
    assert_eq!(
        battery_json(&sorted[1..], &"T".to_string()).to_compact_string(),
        "{\"timestamp\":\"T\",\"batteries\":[{\"name\":\"BAT1\",\"status\":\"\",\"capacity\":null,\"energy_full\":null,\"energy_now\":null,\"manufacturer\":\"\",\"model_name\":\"\"}]}"
    );
    let table = battery_table(&sorted[..1]);
    let row = table.lines().nth(2).unwrap();
    assert_eq!(row, "BAT0  Discharging       87%           50000000          43500000  SMP           5B10W13930");
}

#[test]
fn applets_from_gsettings() {
    let a = parse_applets("['panel1:left:0:menu@cinnamon.org:0', 'panel1:right:3:sound@cinnamon.org']\n");
    assert_eq!(a.len(), 2);
    assert_eq!(a[0].raw, "panel1:left:0:menu@cinnamon.org:0");
    assert_eq!(a[0].panel, "panel1");
    assert_eq!(a[0].position, "left");
    assert_eq!(a[0].order, "0");
    assert_eq!(a[0].uuid, "menu@cinnamon.org");
    assert_eq!(a[0].instance, "0");
    assert_eq!(a[1].instance, "");
    assert!(parse_applets("@as []\n").is_empty());
    let extra = applet_from_definition("a:b:c:d:e:f".to_string());
    assert_eq!(extra.instance, "e:f");
}

#[test]
fn extensions_from_gsettings() {
    let e = parse_extensions("  ['transparent-panels@germanfr', 'watermark@germanfr']\n");
    assert_eq!(e, vec!["transparent-panels@germanfr".to_string(), "watermark@germanfr".to_string()]);
    assert!(parse_extensions("@as []").is_empty());
    assert_eq!(extension_table(&e), "UUID\n---------------------------\ntransparent-panels@germanfr\nwatermark@germanfr\n");
}

#[test]
fn desktop_version_and_settings() {
    assert_eq!(cinnamon_version("Cinnamon 5.6.8\n"), Some("5.6.8".to_string()));
    assert_eq!(cinnamon_version("  5.2.7  \nextra"), Some("5.2.7".to_string()));
    assert_eq!(cinnamon_version("Cinnamon \n"), Some("Cinnamon".to_string()));
    assert_eq!(cinnamon_version("\n5.0"), None);
    assert_eq!(cinnamon_version(""), None);
    assert_eq!(gsettings_value("'Mint-Y-Dark'\n"), Some("Mint-Y-Dark".to_string()));
    assert_eq!(gsettings_value("''\n"), None);
    assert_eq!(gsettings_value("'\n"), Some("'".to_string()));
    assert_eq!(gsettings_value("true\n"), Some("true".to_string()));
    let q = setting_queries();
    assert_eq!(q.len(), 5);
    assert_eq!(q[4].schema, "org.cinnamon");
    assert_eq!(q[4].key, "theme name");
    let outs = vec![Some("'Mint-Y'\n".to_string()), None, Some("''".to_string()), Some("'Ubuntu 10'".to_string())];
    let settings = collect_settings(&q, &outs);
    assert_eq!(settings.len(), 2);
    assert_eq!(settings[0].key, "gtk_theme");
    assert_eq!(settings[0].label, "GTK Theme");
    assert_eq!(settings[1].key, "font_name");
    assert_eq!(settings[1].value, "Ubuntu 10");
    let d = Desktop { timestamp: "T".to_string(), version: None, settings };
    assert_eq!(
        desktop_table(&d),
        "Property   Value\n---------  ---------\nVersion    unknown\nGTK Theme  Mint-Y\nFont       Ubuntu 10\n"
    );
    assert_eq!(
        desktop_json(&d).to_compact_string(),
        "{\"timestamp\":\"T\",\"gtk_theme\":\"Mint-Y\",\"font_name\":\"Ubuntu 10\"}"
    );
    let v = Desktop { timestamp: "T".to_string(), version: Some("6.0".to_string()), settings: Vec::new() };
    assert_eq!(desktop_json(&v).to_compact_string(), "{\"timestamp\":\"T\",\"version\":\"6.0\"}");
}

#[test]
fn nemo_actions() {
    assert_eq!(
        action_name("[Nemo Action]\nName[de]=Öffnen\nName=   \nName=Open Terminal\nExec=x\n"),
        Some("Open Terminal".to_string())
    );
    assert_eq!(action_name("[Nemo Action]\nExec=x\n"), None);
    assert!(is_nemo_action("open.nemo_action"));
    assert!(is_nemo_action("a.b.nemo_action"));
    assert!(!is_nemo_action(".nemo_action"));
    assert!(!is_nemo_action("x.nemo_action.bak"));
    assert!(!is_nemo_action("nemo_action"));
    let a = vec![
        Action { file: "b.nemo_action".to_string(), path: "/2".to_string(), name: None },
        Action { file: "a.nemo_action".to_string(), path: "/1".to_string(), name: Some("A".to_string()) },
        Action { file: "b.nemo_action".to_string(), path: "/3".to_string(), name: None },
    ];
    let s = sort_by_file(&a);
    assert_eq!(s[0].path, "/1");
    assert_eq!(s[1].path, "/2");
    assert_eq!(s[2].path, "/3");
}

#[test]
fn environment_sorted_stably_by_name() {
    let v = vec![
        EnvVar { name: "PATH".to_string(), value: "/bin".to_string() },
        EnvVar { name: "HOME".to_string(), value: "/root".to_string() },
        EnvVar { name: "PATH".to_string(), value: "/usr/bin".to_string() },
        EnvVar { name: "Z".to_string(), value: "".to_string() },
        EnvVar { name: "A".to_string(), value: "1".to_string() },
    ];
    let s = sort_vars(&v);
    let names: Vec<(&str, &str)> = s.iter().map(|e| (e.name.as_str(), e.value.as_str())).collect();
    assert_eq!(names, vec![("A", "1"), ("HOME", "/root"), ("PATH", "/bin"), ("PATH", "/usr/bin"), ("Z", "")]);
}

#[test]
fn providers_probe_results() {
    assert_eq!(provider_names(), vec!["apt".to_string(), "dpkg".to_string(), "flatpak".to_string(), "snap".to_string()]);
    let apt = probe_result("apt", Some("\n  apt 2.4.11 (amd64)\nSupported modules:\n"));
    assert!(apt.available);
    assert_eq!(apt.version, Some("apt 2.4.11 (amd64)".to_string()));
    let snap = probe_result("snap", None);
    assert!(!snap.available);
    assert_eq!(snap.version, None);
    let quiet = probe_result("dpkg", Some(""));
    assert!(quiet.available);
    assert_eq!(quiet.version, None);
    let all = vec![apt, snap];
    assert_eq!(
        provider_table(&all),
        "Provider  Available  Version\n--------  ---------  ------------------\napt       yes        apt 2.4.11 (amd64)\nsnap      no         -\n"
    );
    assert_eq!(
        provider_json(&all, &"T".to_string()).to_compact_string(),
        "{\"timestamp\":\"T\",\"providers\":[{\"name\":\"apt\",\"available\":true,\"version\":\"apt 2.4.11 (amd64)\"},{\"name\":\"snap\",\"available\":false,\"version\":null}]}"
    );
}

#[test]
fn xrandr_outputs() {
    let o = parse_xrandr("Screen 0: minimum 320 x 200, current 1920 x 1080, maximum 16384 x 16384\neDP-1 connected primary 1920x1080+0+0 (normal left inverted right x axis y axis) 309mm x 174mm\n   1920x1080     60.02*+\nHDMI-1 disconnected (normal left inverted right x axis y axis)\nDP-1 connected (normal left inverted right x axis y axis)\n\n");
    assert_eq!(o.len(), 3);
    assert_eq!(o[0].name, "eDP-1");
    assert!(o[0].connected);
    assert!(o[0].primary);
    assert_eq!(o[0].resolution, Some("1920x1080".to_string()));
    assert!(!o[1].connected);
    assert_eq!(o[1].resolution, None);
    assert!(o[2].connected);
    assert_eq!(o[2].resolution, None);
    assert_eq!(
        outputs_table(&o[..2]),
        "Output  Connected  Primary  Resolution\n------  ---------  -------  ----------\neDP-1   yes        yes      1920x1080\nHDMI-1  no         no       -\n"
    );
}
