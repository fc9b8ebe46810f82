use minfetch::config::{
    config_location, detect_theme, load_config, parse_args, parse_color, parse_config,
    parse_icons, parse_rows, ColorMode, Config, IconMode, ReadError, Theme,
};
use minfetch::fetch::{
    command_output, cpu, disk, environment_value, fetched_row, format_usage, format_uptime, gpu,
    hostname, mem_kib, memory, parse_boottime, parse_cpuinfo, parse_drm_uevent,
    parse_ioreg_temperature, parse_millidegrees, parse_vm_stat, sysinfo_cpu, sysinfo_disk,
    sysinfo_memory, temperature, uptime, FetchResult, MISSING,
};
use minfetch::render::{
    colorize, icon, json_escape, label_text, load_logo, os_logo, pad_display, render,
    render_probe, render_with_color, truncate, version_string, DEFAULT_LOGO, LINUX_LOGO,
};
use minfetch::rows::{fetch_snapshot, rows, terminal_size, Fetched};
use unicode_width::UnicodeWidthStr;

fn strings(values: &[&str]) -> Vec<String> {
    values.iter().map(|value| value.to_string()).collect()
}

fn row(label: &str, value: &str) -> (String, String) {
    (label.to_string(), value.to_string())
}

fn ok(value: &str) -> FetchResult {
    Ok(value.to_string())
}

fn failed(error: &str) -> FetchResult {
    Err(error.to_string())
}

fn no_fallback() -> Option<String> {
    None
}

fn no_file(_: &str) -> Option<String> {
    None
}

fn sample_fetched() -> Fetched {
    Fetched {
        hostname: ok("box"),
        user: ok("ana"),
        os: "linux".to_string(),
        kernel: ok("Linux 6.1"),
        uptime: ok("1h 2m"),
        shell: failed("SHELL is unset"),
        terminal: ok("xterm"),
        cpu: ok("Test CPU (2 cores)"),
        gpu: failed("no DRM GPU identity"),
        memory: ok("1.00 GiB / 2.00 GiB (50%)"),
        disk: ok("3.00 GiB / 9.00 GiB (33%)"),
        desktop: failed("XDG_CURRENT_DESKTOP/DESKTOP_SESSION is unset"),
        temperature: ok("40 °C"),
    }
}

#[test]
fn readout_never_exceeds_the_pane_height() {
    let rows = vec![
        row("os", "linux"),
        row("kernel", "Linux 6.1"),
        row("shell", "zsh"),
        row("cpu", "Test CPU"),
    ];
    for height in 0..6 {
        let output = render(&rows, Some(LINUX_LOGO), 12, height, IconMode::Off);
        assert!(output.matches('\n').count() <= height);
        let wide = render(&rows, Some(LINUX_LOGO), 200, height, IconMode::Unicode);
        assert!(wide.matches('\n').count() <= height);
    }
    assert_eq!(render(&rows, None, 80, 0, IconMode::Off), "");
}

#[test]
fn plain_readout_has_no_escape_codes() {
    let rows = vec![row("user", "ana"), row("hostname", "box"), row("os", "linux")];
    for width in [10, 30, 31, 80] {
        let output = render_with_color(&rows, Some(LINUX_LOGO), width, 20, IconMode::Nerd, false);
        assert!(!output.contains('\x1b'));
    }
    let colored = render_with_color(&rows, None, 80, 20, IconMode::Off, true);
    assert!(colored.contains("\x1b[36m"));
}

#[test]
fn identity_header_replaces_user_and_hostname_rows() {
    let rows = vec![row("hostname", "box"), row("user", "ana"), row("os", "linux")];
    assert_eq!(
        render(&rows, None, 80, 10, IconMode::Off),
        "ana@box\n-------\nOS:  linux\n"
    );
    assert_eq!(
        render(&rows, Some("/\\\n\\/"), 80, 10, IconMode::Off),
        "/\\  ana@box\n\\/  -------\n    OS:  linux\n"
    );
}

#[test]
fn tall_logo_is_dropped_when_rows_would_not_fit() {
    let rows = vec![row("os", "linux")];
    assert_eq!(render(&rows, Some("a\nb\nc"), 5, 4, IconMode::Off), "a\nb\nc\nOS:\n");
    assert_eq!(render(&rows, Some("a\nb\nc"), 5, 3, IconMode::Off), "OS:\n\n");
}

#[test]
fn rows_keep_only_the_selected_ones_in_fetch_order() {
    let (shown, errors) = rows(false, None, sample_fetched());
    let labels: Vec<&str> = shown.iter().map(|(label, _)| label.as_str()).collect();
    assert_eq!(
        labels,
        vec![
            "hostname", "user", "os", "kernel", "uptime", "shell", "terminal", "cpu", "gpu",
            "memory", "disk"
        ]
    );
    assert_eq!(shown[5], row("shell", MISSING));
    assert_eq!(
        errors,
        strings(&[
            "shell: SHELL is unset",
            "gpu: no DRM GPU identity",
            "desktop: XDG_CURRENT_DESKTOP/DESKTOP_SESSION is unset",
        ])
    );

    let selected = strings(&["temperature", "uptime", "os"]);
    let (shown, errors) = rows(true, Some(&selected), sample_fetched());
    assert_eq!(shown, vec![row("os", "linux"), row("temperature", "40 °C")]);
    assert_eq!(errors.len(), 3);
}

#[test]
fn theme_flag_overrides_the_config_theme() {
    let config = parse_config("theme = mono\ncolor = always\n").unwrap();
    let (options, _, _) = parse_args(&strings(&["--theme", "subtle"]), config, false).unwrap();
    assert_eq!(options.theme, Some(Theme::Subtle));
    assert_eq!(options.color, ColorMode::Always);
}

#[test]
fn no_color_keeps_colour_off_whatever_the_flags() {
    let (options, _, _) = parse_args(&[], Config::default(), true).unwrap();
    assert_eq!(options.color, ColorMode::Never);
    let config = parse_config("color = always").unwrap();
    let (options, _, _) = parse_args(&strings(&["--verbose"]), config, true).unwrap();
    assert_eq!(options.color, ColorMode::Never);
    let (options, _, _) =
        parse_args(&strings(&["--color", "always"]), Config::default(), true).unwrap();
    assert_eq!(options.color, ColorMode::Never);
    let (options, _, _) =
        parse_args(&strings(&["--color", "always"]), Config::default(), false).unwrap();
    assert_eq!(options.color, ColorMode::Always);
    assert!(parse_args(&strings(&["--color", "bright"]), Config::default(), true).is_err());
}

#[test]
fn config_defaults_apply_and_each_flag_overrides_its_own_field() {
    let text = "color = always
icons = nerd
logo = art.txt
rows = os, cpu
theme = mono
";
    let (options, help, version) = parse_args(&[], parse_config(text).unwrap(), false).unwrap();
    assert_eq!(options.color, ColorMode::Always);
    assert_eq!(options.icons, IconMode::Nerd);
    assert_eq!(options.logo.as_deref(), Some("art.txt"));
    assert_eq!(options.rows, Some(strings(&["os", "cpu"])));
    assert_eq!(options.theme, Some(Theme::Mono));
    assert!(!help && !version && !options.json && !options.probe);
    let args = strings(&["--icons", "on", "--logo", "none"]);
    let (options, _, _) = parse_args(&args, parse_config(text).unwrap(), false).unwrap();
    assert_eq!(options.icons, IconMode::Unicode);
    assert_eq!(options.logo.as_deref(), Some("none"));
    assert_eq!(options.theme, Some(Theme::Mono));
    assert_eq!(options.rows, Some(strings(&["os", "cpu"])));
    let (options, _, _) = parse_args(&strings(&["--logo"]), Config::default(), false).unwrap();
    assert_eq!(options.logo.as_deref(), Some("auto"));
}

#[test]
fn rows_never_exceed_the_pane_width() {
    let rows = vec![row("os", "abcd")];
    assert_eq!(render(&rows, Some("/\\"), 12, 4, IconMode::Off), "/\\  OS:  ab…\n");
    let rows = vec![row("hostname", "box"), row("user", "anastasia"), row("os", "linux")];
    assert_eq!(
        render(&rows, Some("/\\"), 14, 4, IconMode::Off),
        "/\\  anastasia…\n    ----------\n    OS:  linux\n"
    );
    let rows = vec![
        row("os", "linux with a rather long name"),
        row("kernel", "Linux 6.1.0-13-amd64 #1 SMP PREEMPT_DYNAMIC"),
        row("cpu", "Test CPU"),
    ];
    for width in 0..60 {
        for icons in [IconMode::Off, IconMode::Unicode, IconMode::Nerd] {
            if width >= 11 {
                let output = render(&rows, Some(LINUX_LOGO), width, 20, icons);
                assert!(output.lines().all(|line| line.chars().count() <= width));
            }
            let plain = render(&rows, None, width, 20, icons);
            assert!(plain.lines().all(|line| line.chars().count() <= width));
        }
    }
}

#[test]
fn color_is_on_only_on_a_terminal_with_a_colored_theme() {
    assert!(Theme::Subtle.color_enabled(ColorMode::Auto.enabled(true)));
    assert!(Theme::Subtle.color_enabled(ColorMode::Always.enabled(true)));
    assert!(!Theme::Mono.color_enabled(ColorMode::Always.enabled(true)));
    assert!(!Theme::Subtle.color_enabled(ColorMode::Always.enabled(false)));
    assert!(!Theme::Subtle.color_enabled(ColorMode::Never.enabled(true)));
}

#[test]
fn argument_errors_name_the_flag() {
    let cases = [
        (vec!["--color", "bright"], "invalid --color value bright"),
        (vec!["--color"], "--color needs auto, always, or never"),
        (vec!["--theme", "bright"], "invalid --theme value bright"),
        (vec!["--theme"], "--theme needs subtle or mono"),
        (vec!["--icons", "emoji"], "invalid --icons value emoji"),
        (vec!["--icons"], "--icons needs on, off, or nerd"),
        (vec!["--config"], "--config needs a path"),
        (vec!["--unknown"], "unknown option --unknown"),
        (vec!["value"], "unexpected argument value"),
    ];
    for (arguments, message) in cases {
        match parse_args(&strings(&arguments), Config::default(), false) {
            Err(error) => assert_eq!(error, message),
            Ok(_) => panic!("accepted {arguments:?}"),
        }
    }
}

#[test]
fn switches_and_values_are_read() {
    let args = strings(&[
        "-h", "-V", "--probe", "--json", "--icons", "nerd", "--logo", "art.txt", "--no-icons",
        "--config", "x",
    ]);
    let (options, help, version) = parse_args(&args, Config::default(), false).unwrap();
    assert!(help && version && options.probe && options.json);
    assert_eq!(options.icons, IconMode::Off);
    assert_eq!(options.logo.as_deref(), Some("art.txt"));
    let (options, _, _) =
        parse_args(&strings(&["--debug-sysinfo", "--logo"]), Config::default(), false).unwrap();
    assert!(options.probe);
    assert_eq!(options.logo.as_deref(), Some("auto"));
}

#[test]
fn config_errors_carry_line_numbers() {
    assert_eq!(parse_color("bright", 2).err().as_deref(), Some("invalid color on config line 2"));
    assert_eq!(parse_icons("emoji", 4).err().as_deref(), Some("invalid icons on config line 4"));
    assert_eq!(parse_rows(" , ", 3).err().as_deref(), Some("invalid rows on config line 3"));
    assert_eq!(
        parse_config("# comment\n\nbroken").err().as_deref(),
        Some("config line 3 needs key = value")
    );
    assert_eq!(
        parse_config("theme = bright").err().as_deref(),
        Some("invalid theme on config line 1")
    );
    assert_eq!(
        parse_config("color = auto\nsize = 3").err().as_deref(),
        Some("unknown config key `size` on line 2")
    );
    let config = parse_config("  icons = nerd  # glyphs\r\nrows = cpu,,gpu ,\n").unwrap();
    assert_eq!(config.icons, Some(IconMode::Nerd));
    assert_eq!(config.rows, Some(strings(&["cpu", "gpu"])));
    assert_eq!(parse_rows("disk", 1), Ok(strings(&["disk"])));
}

#[test]
fn config_is_looked_for_in_the_usual_places() {
    assert_eq!(
        config_location(Some("my.conf"), Some("/x"), Some("/home/ana")).as_deref(),
        Some("my.conf")
    );
    assert_eq!(
        config_location(None, Some("/x"), Some("/home/ana")).as_deref(),
        Some("/x/minfetch/config")
    );
    assert_eq!(
        config_location(None, Some("/x/"), None).as_deref(),
        Some("/x/minfetch/config")
    );
    assert_eq!(
        config_location(None, None, Some("/home/ana")).as_deref(),
        Some("/home/ana/.config/minfetch/config")
    );
    assert_eq!(config_location(None, None, None), None);
}

#[test]
fn missing_default_config_is_empty_but_missing_explicit_config_fails() {
    let missing = || ReadError {
        not_found: true,
        message: "No such file or directory (os error 2)".to_string(),
    };
    let config = load_config(false, "/home/ana/.config/minfetch/config", Err(missing())).unwrap();
    assert!(config.color.is_none() && config.rows.is_none() && config.theme.is_none());
    assert_eq!(
        load_config(true, "my.conf", Err(missing())).err().as_deref(),
        Some("cannot read config my.conf: No such file or directory (os error 2)")
    );
    assert_eq!(
        load_config(true, "my.conf", Ok("logo = auto".to_string())).unwrap().logo.as_deref(),
        Some("auto")
    );
}

#[test]
fn pane_size_prefers_the_terminal_then_the_environment() {
    assert_eq!(terminal_size(Some((100, 40)), Some("120"), Some("50")), (100, 40));
    assert_eq!(terminal_size(Some((0, 40)), Some("120"), Some("x")), (120, 24));
    assert_eq!(terminal_size(None, Some("+90"), None), (90, 24));
    assert_eq!(terminal_size(None, None, None), (80, 24));
}

#[test]
fn snapshot_is_fetched_again_after_a_resize() {
    let first = (vec![row("os", "linux")], Vec::new());
    let again = || ((120, 50), (vec![row("os", "macos")], strings(&["cpu: gone"])));
    let kept = fetch_snapshot((80, 24), first, false, again);
    assert_eq!(kept, ((80, 24), vec![row("os", "linux")], Vec::new()));
    let first = (vec![row("os", "linux")], Vec::new());
    let redone = fetch_snapshot((80, 24), first, true, again);
    assert_eq!(redone, ((120, 50), vec![row("os", "macos")], strings(&["cpu: gone"])));
}

#[test]
fn formulas_give_exact_values() {
    assert_eq!(format_uptime(59), "0m");
    assert_eq!(format_uptime(3_600), "1h 0m");
    assert_eq!(format_uptime(86_400), "1d 0h 0m");
    assert_eq!(format_usage(1_610_612_736, 4_294_967_296), "1.50 GiB / 4.00 GiB (37%)");
    assert_eq!(format_usage(5, 0), "0.00 GiB / 0.00 GiB (0%)");
    assert_eq!(format_usage(u64::MAX, 1), "17179869184.00 GiB / 0.00 GiB (18446744073709551615%)");
    assert_eq!(parse_vm_stat("Pages free: 3.\n", 100_000), Some(100_000 - 3 * 4096));
    assert_eq!(parse_vm_stat("Pages free: 99999999.\n", 10), Some(0));
}

#[test]
fn machine_readings_are_parsed_strictly() {
    assert_eq!(mem_kib("MemTotal: 5 kB\nMemAvailable:   16111376 kB", "MemAvailable"), Some(16_111_376));
    assert_eq!(parse_boottime("garbage"), None);
    assert_eq!(parse_boottime("{ sec = 12, usec = 0 }"), Some(12));
    assert_eq!(parse_cpuinfo("model name :   \nprocessor : 0\n"), None);
    assert_eq!(parse_millidegrees(" 45500 \n"), Some(45));
    assert_eq!(parse_millidegrees("-1500"), Some(-1));
    assert_eq!(parse_ioreg_temperature("\"temperature\" = 54"), Some(54));
    assert_eq!(parse_drm_uevent("PCI_ID=1002:73bf\n"), None);
}

#[test]
fn environment_rows_name_every_variable_tried() {
    assert_eq!(
        environment_value(&["XDG_CURRENT_DESKTOP", "DESKTOP_SESSION"], &[None, Some(String::new())]),
        failed("XDG_CURRENT_DESKTOP/DESKTOP_SESSION is unset")
    );
    assert_eq!(
        environment_value(&["USER", "USERNAME"], &[Some(String::new()), Some("ana".to_string())]),
        ok("ana")
    );
    assert_eq!(hostname(&[Some("box".to_string()), None], || ok("other")), ok("box"));
    assert_eq!(hostname(&[None, None], || ok("other")), ok("other"));
}

#[test]
fn command_output_is_trimmed() {
    assert_eq!(command_output("uname -sr", "  Linux 6.1 \n"), ok("Linux 6.1"));
    assert_eq!(command_output("hostname", " \n"), failed("hostname: returned no output"));
}

#[test]
fn disk_usage_comes_from_df_or_the_fallback() {
    let df = "Filesystem 1024-blocks Used Available Capacity Mounted on\n/dev/vda 4194304 1048576 3145728 25% /\n";
    assert_eq!(disk(ok(df), no_fallback), ok("1.00 GiB / 4.00 GiB (25%)"));
    assert_eq!(disk(ok("header only\n"), no_fallback), failed("df -kP /: returned no filesystem row"));
    assert_eq!(disk(ok("h\n/dev/vda x 1\n"), no_fallback), failed("df -kP /: invalid total"));
    assert_eq!(disk(ok("h\n/dev/vda 1\n"), no_fallback), failed("df -kP /: invalid used"));
    assert_eq!(disk(failed("df -kP /: gone"), || Some("fallback".to_string())), ok("fallback"));
}

#[test]
fn uptime_comes_from_proc_or_the_boot_time() {
    assert_eq!(uptime(Some("12345 0"), || ok("unused"), || None), ok("3h 25m"));
    assert_eq!(
        uptime(Some("12345.67 1.0"), || ok("{ sec = 1000, usec = 0 }"), || Some(4_600)),
        ok("1h 0m")
    );
    assert_eq!(
        uptime(None, || ok("{ sec = 9000, usec = 0 }"), || Some(100)),
        failed("kern.boottime: invalid value")
    );
    assert_eq!(uptime(None, || failed("sysctl: gone"), || Some(1)), failed("sysctl: gone"));
}

#[test]
fn cpu_comes_from_cpuinfo_sysctl_or_the_fallback() {
    let info = "processor\t: 0\nmodel name\t: Test CPU\n";
    assert_eq!(cpu(Some(info), || ok("x"), || ok("y"), no_fallback), ok("Test CPU (1 cores)"));
    assert_eq!(cpu(None, || ok("Apple M1"), || ok("8"), no_fallback), ok("Apple M1 (8 cores)"));
    assert_eq!(cpu(None, || failed("sysctl: gone"), || ok("8"), no_fallback), failed("sysctl: gone"));
    assert_eq!(
        cpu(None, || failed("sysctl: gone"), || ok("8"), || Some("Fallback (4 cores)".to_string())),
        ok("Fallback (4 cores)")
    );
}

#[test]
fn memory_comes_from_meminfo_sysctl_or_the_fallback() {
    let info = "MemTotal: 2097152 kB\nMemAvailable: 1048576 kB\n";
    assert_eq!(
        memory(Some(info), || ok("x"), || ok("y"), no_fallback),
        ok("1.00 GiB / 2.00 GiB (50%)")
    );
    assert_eq!(
        memory(Some("MemTotal: 1048576 kB\n"), || ok("x"), || ok("y"), no_fallback),
        ok("0.00 GiB / 1.00 GiB (0%)")
    );
    assert_eq!(
        memory(None, || ok("4294967296"), || ok("Pages free: 262144.\n"), no_fallback),
        ok("3.00 GiB / 4.00 GiB (75%)")
    );
    assert_eq!(
        memory(None, || ok("lots"), || ok(""), no_fallback),
        failed("hw.memsize: invalid digit found in string")
    );
}

#[test]
fn temperature_and_gpu_follow_the_platform() {
    let zones = || {
        Ok(vec![
            ("acpitz\n".to_string(), Some("30000\n".to_string())),
            ("CPU-thermal\n".to_string(), Some("55000\n".to_string())),
        ])
    };
    assert_eq!(temperature("linux", zones, || ok("x")), ok("55 °C"));
    let ioreg = || ok("\"temperature\" = 3538944\n");
    assert_eq!(temperature("macos", || Ok(Vec::new()), ioreg), ok("54 °C"));
    assert_eq!(
        temperature("freebsd", || Ok(Vec::new()), || ok("x")),
        failed("CPU temperature is unsupported on this platform")
    );
    let cards = || {
        Ok(vec![
            ("renderD128".to_string(), Some("DRIVER=other\n".to_string())),
            ("card0".to_string(), Some("DRIVER=i915\n".to_string())),
        ])
    };
    assert_eq!(gpu("linux", cards, || ok("x")), ok("i915"));
    assert_eq!(
        gpu("windows", || Ok(Vec::new()), || ok("x")),
        failed("GPU identity is unsupported on this platform")
    );
}

#[test]
fn sysinfo_values_are_summarized() {
    assert_eq!(sysinfo_cpu(Some("Xeon"), None, 4).as_deref(), Some("Xeon (4 cores)"));
    assert_eq!(sysinfo_cpu(Some("Xeon"), Some(2), 4).as_deref(), Some("Xeon (2 cores)"));
    assert_eq!(sysinfo_cpu(Some(""), Some(2), 4), None);
    assert_eq!(sysinfo_cpu(None, Some(2), 4), None);
    assert_eq!(sysinfo_memory(0, 0), None);
    assert_eq!(
        sysinfo_memory(4_294_967_296, 1_073_741_824).as_deref(),
        Some("3.00 GiB / 4.00 GiB (75%)")
    );
    let disks = [(false, 1_073_741_824, 0), (true, 2_147_483_648, 1_073_741_824)];
    assert_eq!(sysinfo_disk(&disks).as_deref(), Some("1.00 GiB / 2.00 GiB (50%)"));
    assert_eq!(sysinfo_disk(&disks[..1]).as_deref(), Some("1.00 GiB / 1.00 GiB (100%)"));
    assert_eq!(sysinfo_disk(&[]), None);
}

#[test]
fn failed_fetches_add_one_diagnostic_each() {
    let mut errors = vec!["earlier".to_string()];
    assert_eq!(fetched_row("cpu", ok("Xeon"), &mut errors), row("cpu", "Xeon"));
    assert_eq!(fetched_row("gpu", failed("none"), &mut errors), row("gpu", MISSING));
    assert_eq!(errors, strings(&["earlier", "gpu: none"]));
}

#[test]
fn json_escapes_control_characters() {
    assert_eq!(json_escape("a\tb\\c\r"), "a\\tb\\\\c\\r");
    assert_eq!(json_escape("\u{1}\u{7f}é"), "\\u0001\\u007fé");
}

#[test]
fn labels_icons_and_padding() {
    assert_eq!(icon("os", false), "• os:");
    assert!(label_text("os", IconMode::Unicode).starts_with("• os"));
    assert_eq!(icon("os", true), "\u{f17c} OS:");
    assert_eq!(icon("weather", true), "\u{f128} Weather:");
    assert_eq!(label_text("memory", IconMode::Off), "Memory:");
    assert_eq!(label_text("", IconMode::Off), "");
    assert_eq!(pad_display("猫", 4), "猫  ");
    assert_eq!(pad_display("long", 2), "long");
    assert_eq!(colorize("OS:", false), "OS:");
    assert_eq!(colorize("OS:", true), "\x1b[36mOS:\x1b[0m");
    assert_eq!(truncate("猫猫猫", 4), "猫…");
    assert_eq!(truncate("abc", 3), "abc");
    assert_eq!(truncate("abcd", 3), "ab…");
}

#[test]
fn probe_lists_every_row_and_error() {
    let rows = vec![row("os", "linux"), row("cpu", MISSING)];
    assert_eq!(
        render_probe(&rows, &["cpu: gone".to_string()], 100, 30, true, "linux", "aarch64"),
        "minfetch probe\nplatform: linux\narchitecture: aarch64\nstdout_tty: true\nterminal_size: 100x30\nrows:\nos: linux\ncpu: —\nerrors:\n  cpu: gone\n"
    );
    assert_eq!(
        render_probe(&[], &[], 1, 2, false, "macos", "x86_64"),
        "minfetch probe\nplatform: macos\narchitecture: x86_64\nstdout_tty: false\nterminal_size: 1x2\nrows:\n"
    );
}

#[test]
fn themes_version_and_logos() {
    assert_eq!(detect_theme(true, Some("0;15")), Theme::Mono);
    assert_eq!(detect_theme(true, Some("12;8")), Theme::Subtle);
    assert_eq!(detect_theme(true, Some("0;256")), Theme::Subtle);
    assert_eq!(minfetch::config::parse_colorfgbg("+7"), Some(Theme::Mono));
    assert_eq!(version_string(), "minfetch 0.1.0");
    assert_eq!(os_logo("plan9"), DEFAULT_LOGO);
    assert_eq!(os_logo("linux"), LINUX_LOGO);
    assert_eq!(load_logo(Some("art.txt"), true, "linux", no_file), None);
}

#[test]
fn resize_flag_is_cleared_when_read() {
    let flag = std::sync::atomic::AtomicBool::new(false);
    assert!(!minfetch::resize::resize_seen(&flag));
    flag.store(true, std::sync::atomic::Ordering::Relaxed);
    assert!(minfetch::resize::resize_seen(&flag));
    assert!(!minfetch::resize::resize_seen(&flag));
}

#[test]
fn flag_aliases_read_as_the_flags_they_stand_for() {
    let read = |args: &[&str]| {
        let (options, _, _) = parse_args(&strings(args), Config::default(), false).unwrap();
        (options.icons, options.color)
    };
    assert_eq!(read(&["--icons", "on", "--no-icons"]), read(&["--icons", "on", "--icons", "off"]));
    assert_eq!(read(&["--color", "always", "--color-no"]), read(&["--color", "always", "--color", "never"]));
    assert_eq!(read(&["--no-color"]), (IconMode::Off, ColorMode::Never));
}

#[test]
fn json_escaped_text_has_no_raw_control_characters() {
    let escaped = json_escape("\u{0}a\u{1f}\n\u{85}");
    assert!(escaped.chars().all(|c| c >= ' '));
    assert_eq!(escaped, "\\u0000a\\u001f\\n\\u0085");
}

/// Reads the inside of a JSON string literal back (the escapes that the
/// readout writes).
fn unescape(text: &str) -> String {
    let mut out = String::new();
    let mut chars = text.chars();
    while let Some(c) = chars.next() {
        if c != '\\' {
            out.push(c);
            continue;
        }
        match chars.next() {
            Some('n') => out.push('\n'),
            Some('r') => out.push('\r'),
            Some('t') => out.push('\t'),
            Some('u') => {
                let digits: String = chars.by_ref().take(4).collect();
                let code = u32::from_str_radix(&digits, 16).unwrap();
                out.push(char::from_u32(code).unwrap());
            }
            Some(other) => out.push(other),
            None => panic!("dangling backslash"),
        }
    }
    out
}

#[test]
fn json_escaping_reads_back_as_the_text() {
    for text in ["plain", "quote \" and \\ slash", "tab\tline\nfeed\r", "\u{0}\u{1f}\u{7f}\u{9f}", "José 机器 ◉"] {
        assert_eq!(unescape(&json_escape(text)), text);
    }
}

#[test]
fn colour_adds_nothing_but_codes() {
    let rows = vec![row("user", "ana"), row("hostname", "box"), row("os", "linux"), row("cpu", "Xeon")];
    for width in [8, 20, 30, 31, 80] {
        for logo in [None, Some("/\\\n\\/")] {
            let coloured = render_with_color(&rows, logo, width, 10, IconMode::Unicode, true);
            let plain = render_with_color(&rows, logo, width, 10, IconMode::Unicode, false);
            assert_eq!(coloured.replace("\x1b[36m", "").replace("\x1b[0m", ""), plain);
        }
    }
}

#[test]
fn wide_and_symbol_values_never_exceed_the_pane_width() {
    let rows = vec![
        row("hostname", "机器"),
        row("user", "José"),
        row("os", "linux"),
        row("cpu", "猫猫猫猫猫猫猫猫 处理器"),
        row("gpu", MISSING),
        row("temperature", "40 °C"),
        row("shell", "Ελληνικά и кириллица"),
    ];
    for width in 0..50 {
        for icons in [IconMode::Off, IconMode::Unicode, IconMode::Nerd] {
            let plain = render(&rows, None, width, 20, icons);
            assert!(plain.lines().all(|line| UnicodeWidthStr::width(line) <= width));
            if width >= 11 {
                let beside = render(&rows, Some(LINUX_LOGO), width, 20, icons);
                assert!(beside.lines().all(|line| UnicodeWidthStr::width(line) <= width));
            }
        }
    }
    for width in 0..12 {
        let cut = truncate("猫猫猫 — 40 °C", width);
        assert!(UnicodeWidthStr::width(cut.as_str()) <= width);
    }
    assert_eq!(truncate("猫猫猫", 5), "猫猫…");
}

#[test]
fn icons_flag_over_config_shows_the_os_bullet() {
    let config = parse_config("rows = os, user\nicons = off\nlogo = none\ntheme = mono\n").unwrap();
    let args = strings(&["--config", "x", "--icons", "on"]);
    let (options, _, _) = parse_args(&args, config, false).unwrap();
    let (shown, _) = rows(options.no_term, options.rows.as_deref(), sample_fetched());
    let output = render(&shown, None, 80, 24, options.icons);
    assert!(output.contains("• os"));
    assert!(!output.contains("hostname"));
}

#[test]
fn plain_text_of_any_script_never_exceeds_the_pane_width() {
    let rows = vec![
        row("os", "ǅǈǋ Ǳ ȸ"),
        row("kernel", "مرحب بك"),
        row("shell", "สวัสดีครับ"),
        row("terminal", "नमस्ते दुनिया"),
        row("cpu", "😀 fast 🚀"),
        row("gpu", "ཀ ᄀ 𝔸"),
    ];
    for width in 0..40 {
        for icons in [IconMode::Off, IconMode::Unicode, IconMode::Nerd] {
            let plain = render(&rows, None, width, 20, icons);
            assert!(plain.lines().all(|line| UnicodeWidthStr::width(line) <= width));
            if width >= 11 {
                let beside = render(&rows, Some(LINUX_LOGO), width, 20, icons);
                assert!(beside.lines().all(|line| UnicodeWidthStr::width(line) <= width));
            }
        }
        for (_, value) in &rows {
            let cut = truncate(value, width);
            assert!(UnicodeWidthStr::width(cut.as_str()) <= width);
        }
    }
}
