use minfetch::config::{
    detect_theme, load_config, parse_args, parse_color, parse_colorfgbg, parse_config,
    parse_icons, parse_rows, ColorMode, Config, IconMode, ReadError, Theme,
};
use minfetch::fetch::{
    drm_gpu, fetched_row, format_uptime, format_usage, mem_kib, parse_boottime, parse_cpuinfo,
    parse_drm_uevent, parse_ioreg_temperature, parse_millidegrees, parse_system_profiler_gpu,
    parse_vm_stat, sysinfo_cpu, sysinfo_disk, sysinfo_memory, thermal_temperature, MISSING,
};
use minfetch::render::{
    label_text, load_logo, os_logo, render, render_json, render_probe, render_with_color,
    truncate, version_string,
};

fn strings(values: &[&str]) -> Vec<String> {
    values.iter().map(|value| value.to_string()).collect()
}

fn no_file(_: &str) -> Option<String> {
    None
}

#[test]
fn parses_meminfo_values() {
    assert_eq!(mem_kib("MemTotal: 1024 kB", "MemTotal"), Some(1024));
}

#[test]
fn formats_compact_fastfetch_style_stats() {
    assert_eq!(format_uptime(3), "0m");
    assert_eq!(format_uptime(3_660), "1h 1m");
    assert_eq!(format_uptime(93_784), "1d 2h 3m");
    assert_eq!(
        parse_boottime("{ sec = 1787264167, usec = 728186 }"),
        Some(1_787_264_167)
    );
    assert_eq!(
        format_usage(8 * 1024_u64.pow(3), 16 * 1024_u64.pow(3)),
        "8.00 GiB / 16.00 GiB (50%)"
    );
    assert_eq!(format_usage(0, 0), "0.00 GiB / 0.00 GiB (0%)");
}

#[test]
fn parses_vm_stat_fixture() {
    let fixture =
        "Page size of 4096 bytes\nPages free: 10.\nPages inactive: 20.\nPages speculative: 5.\n";
    assert_eq!(parse_vm_stat(fixture, 200 * 4096), Some(165 * 4096));
}

#[test]
fn parses_cpuinfo_fixture() {
    let fixture = "processor\t: 0\nmodel name\t: Test CPU\nprocessor\t: 1\n";
    assert_eq!(parse_cpuinfo(fixture).as_deref(), Some("Test CPU (2 cores)"));
}

#[test]
fn parses_linux_temperature_fixture() {
    let fixture = "62000\n";
    assert_eq!(parse_millidegrees(fixture), Some(62));
}

#[test]
fn parses_macos_temperature_fixture() {
    let fixture = "+-o IOHWSensor  <class IOHWSensor>\n    {\n      \"type\" = \"temperature\"\n      \"temperature\" = 3538944\n      \"location\" = \"CPU\"\n    }\n";
    assert_eq!(parse_ioreg_temperature(fixture), Some(54));
}

#[test]
fn parses_linux_gpu_fixture() {
    let fixture = "DRIVER=amdgpu\nPCI_CLASS=30000\nPCI_ID=1002:73bf\nPCI_SUBSYS_ID=1DA2:E445\n";
    assert_eq!(
        parse_drm_uevent(fixture).as_deref(),
        Some("amdgpu (1002:73bf)")
    );
}

#[test]
fn parses_macos_gpu_fixture() {
    let fixture = "Graphics/Displays:\n\n    Apple M1 Pro:\n\n      Chipset Model: Apple M1 Pro\n      Type: GPU\n      Bus: Built-In\n";
    assert_eq!(
        parse_system_profiler_gpu(fixture).as_deref(),
        Some("Apple M1 Pro")
    );
}

#[test]
fn missing_hardware_paths_return_errors() {
    assert!(thermal_temperature(&[]).is_err());
    assert!(drm_gpu(&[]).is_err());
}

#[test]
fn parses_linux_hardware_directories() {
    let zones = vec![("x86_pkg_temp\n".to_string(), Some("62000\n".to_string()))];
    let cards = vec![(
        "card0".to_string(),
        Some("DRIVER=amdgpu\nPCI_ID=1002:73bf\n".to_string()),
    )];
    assert_eq!(thermal_temperature(&zones).as_deref(), Ok("62 °C"));
    assert_eq!(drm_gpu(&cards).as_deref(), Ok("amdgpu (1002:73bf)"));
}

#[test]
fn sysinfo_fallbacks_report_host_values() {
    let system = sysinfo::System::new_all();
    let brand = system.cpus().first().map(|cpu| cpu.brand().to_string());
    let cores = sysinfo::System::physical_core_count();
    assert!(sysinfo_cpu(brand.as_deref(), cores, system.cpus().len()).is_some());
    assert!(sysinfo_memory(system.total_memory(), system.available_memory()).is_some());
    let disks = sysinfo::Disks::new_with_refreshed_list();
    let listed: Vec<(bool, u64, u64)> = disks
        .list()
        .iter()
        .map(|disk| {
            (
                disk.mount_point() == std::path::Path::new("/"),
                disk.total_space(),
                disk.available_space(),
            )
        })
        .collect();
    assert!(sysinfo_disk(&listed).is_some());
}

#[test]
fn missing_proc_fixtures_stay_unavailable() {
    assert!(parse_cpuinfo("").is_none());
    assert!(mem_kib("not proc data", "MemTotal").is_none());
    assert!(parse_millidegrees("-273151").is_none());
    assert!(parse_millidegrees("invalid").is_none());
    assert!(parse_ioreg_temperature("temperature = nope").is_none());
    assert!(parse_system_profiler_gpu("no chipset here").is_none());
    assert_eq!(parse_drm_uevent("DRIVER=amdgpu\n").as_deref(), Some("amdgpu"));
}

#[test]
fn piped_output_never_loads_a_logo() {
    let read = |_: &str| Some("logo".to_string());
    assert!(load_logo(Some("/definitely/not/a/logo"), false, "linux", read).is_none());
}

#[test]
fn logo_modes_select_the_os_logo() {
    assert!(load_logo(None, true, "macos", no_file).is_none());
    assert!(load_logo(Some("none"), true, "macos", no_file).is_none());
    assert_eq!(
        load_logo(Some("auto"), true, "macos", no_file),
        Some(os_logo("macos"))
    );
}

#[test]
fn custom_logo_files_and_invalid_config_paths_report_their_result() {
    let read = |path: &str| {
        if path == "/tmp/minfetch-logo" {
            Some("logo".to_string())
        } else {
            None
        }
    };
    assert_eq!(
        load_logo(Some("/tmp/minfetch-logo"), true, "linux", read).as_deref(),
        Some("logo")
    );

    let failure = ReadError {
        not_found: false,
        message: "Is a directory (os error 21)".to_string(),
    };
    assert!(load_config(true, "/tmp", Err(failure)).is_err());
}

#[test]
fn logo_flag_selects_auto_without_consuming_the_next_flag() {
    let args = strings(&["--logo", "--icons", "off"]);
    let (options, _, _) = parse_args(&args, Config::default(), false).unwrap();
    assert_eq!(options.logo.as_deref(), Some("auto"));
    assert_eq!(options.icons, IconMode::Off);
}

#[test]
fn flags_disable_icons_and_color() {
    let args = strings(&[
        "--icons",
        "off",
        "--color",
        "never",
        "--no-terminator",
        "--no-term",
        "--verbose",
    ]);
    let (options, help, version) = parse_args(&args, Config::default(), false).unwrap();
    assert_eq!(options.color, ColorMode::Never);
    assert_eq!(options.icons, IconMode::Off);
    assert!(options.no_terminator && options.no_term && options.verbose);
    assert!(!help && !version);
}

#[test]
fn defaults_hide_icons_and_logo() {
    let (options, _, _) =
        parse_args(&[], Config::default(), false).expect("parse default options");
    assert_eq!(options.icons, IconMode::Off);
    assert!(options.logo.is_none());
}

#[test]
fn color_modes_parse_and_never_disables_output() {
    let args = strings(&["--color", "always"]);
    let (options, _, _) = parse_args(&args, Config::default(), false).unwrap();
    assert_eq!(options.color, ColorMode::Always);
    assert!(!ColorMode::Never.enabled(true));
    assert!(!ColorMode::Always.enabled(false));
}

#[test]
fn invalid_config_values_and_flags_are_rejected() {
    assert!(parse_color("bright", 2).is_err());
    assert!(parse_icons("emoji", 2).is_err());
    assert!(parse_rows("", 2).is_err());
    assert!(parse_rows("os, unknown", 2).is_err());
    for arguments in [
        vec!["--color", "bright"],
        vec!["--color"],
        vec!["--theme", "bright"],
        vec!["--theme"],
        vec!["--icons", "emoji"],
        vec!["--icons"],
        vec!["--config"],
        vec!["--unknown"],
        vec!["value"],
    ] {
        assert!(parse_args(&strings(&arguments), Config::default(), false).is_err());
    }
    for content in ["broken", "theme = bright", "unknown = value"] {
        assert!(parse_config(content).is_err());
    }
}

#[test]
fn colorfgbg_detects_dark_and_light_backgrounds() {
    assert_eq!(parse_colorfgbg("15;0"), Some(Theme::Subtle));
    assert_eq!(parse_colorfgbg("0;7"), Some(Theme::Mono));
    assert_eq!(parse_colorfgbg("7"), Some(Theme::Mono));
}

#[test]
fn malformed_colorfgbg_uses_the_fallback() {
    assert_eq!(parse_colorfgbg("not-a-palette"), None);
    assert_eq!(parse_colorfgbg("1;99"), None);
    assert_eq!(detect_theme(true, None), Theme::Subtle);
    assert_eq!(detect_theme(true, Some("not-a-palette")), Theme::Subtle);
    assert_eq!(detect_theme(false, Some("0;7")), Theme::Subtle);
}

#[test]
fn parses_config_defaults() {
    let config =
        parse_config("color = never\nicons = off\nlogo = none\nrows = os, user\ntheme = mono\n")
            .unwrap();

    assert_eq!(config.color, Some(ColorMode::Never));
    assert_eq!(config.icons, Some(IconMode::Off));
    assert_eq!(config.logo.as_deref(), Some("none"));
    assert_eq!(
        config.rows.as_deref(),
        Some(["os".to_string(), "user".to_string()].as_slice())
    );
    assert_eq!(config.theme, Some(Theme::Mono));
}

#[test]
fn explicit_theme_overrides_config_theme() {
    let path = "/tmp/minfetch-theme";
    let configured_config =
        load_config(true, path, Ok("theme = mono\n".to_string())).expect("config");
    let explicit_config =
        load_config(true, path, Ok("theme = mono\n".to_string())).expect("config");

    let (configured, _, _) = parse_args(&strings(&["--config", path]), configured_config, false)
        .expect("parse configured args");
    let (explicit, _, _) = parse_args(
        &strings(&["--config", path, "--theme", "subtle"]),
        explicit_config,
        false,
    )
    .expect("parse explicit args");

    assert_eq!(configured.theme, Some(Theme::Mono));
    assert_eq!(explicit.theme, Some(Theme::Subtle));
}

#[test]
fn probe_output_includes_environment_and_fetch_results() {
    let rows = vec![("os".to_string(), "test-os".to_string())];
    let output = render_probe(
        &rows,
        &["cpu: fixture failure".to_string()],
        80,
        24,
        false,
        "linux",
        "x86_64",
    );

    assert!(output.contains("minfetch probe"));
    assert!(output.contains("platform:"));
    assert!(output.contains("architecture:"));
    assert!(output.contains("terminal_size: 80x24"));
    assert!(output.contains("os: test-os"));
    assert!(output.contains("  cpu: fixture failure"));
    assert!(!output.contains("\x1b["));
}

#[test]
fn json_output_escapes_row_values() {
    let rows = vec![("user\"name".to_string(), "line\nvalue".to_string())];
    assert_eq!(
        render_json(&rows),
        "{\"rows\":[{\"label\":\"user\\\"name\",\"value\":\"line\\nvalue\"}]}\n"
    );
}

#[test]
fn color_wraps_labels_without_changing_layout_width() {
    let rows = vec![("os".to_string(), "macos".to_string())];
    assert_eq!(
        render_with_color(&rows, None, 40, 4, IconMode::Off, true),
        "\x1b[36mOS: \x1b[0m macos\n"
    );
}

#[test]
fn version_contains_package_version() {
    assert!(version_string().contains("0.1.0"));
}

#[test]
fn layout_stacks_logo_in_a_narrow_pane() {
    let rows = vec![("os".to_string(), "macos".to_string())];
    assert_eq!(
        render(&rows, Some("/\\"), 8, 4, IconMode::Off),
        "/\\\nOS:\nma…\n"
    );
}

#[test]
fn layout_uses_side_by_side_logo_when_wide() {
    let rows = vec![("os".to_string(), "macos".to_string())];
    assert_eq!(
        render(&rows, Some("/\\"), 20, 4, IconMode::Off),
        "/\\  OS:  macos\n"
    );
}

#[test]
fn layout_uses_single_column_at_thirty() {
    let rows = vec![
        ("os".to_string(), "macos".to_string()),
        ("user".to_string(), "matheus".to_string()),
    ];
    assert_eq!(
        render(&rows, None, 30, 4, IconMode::Off),
        "OS:\nmacos\nUser:\nmatheus\n"
    );
}

#[test]
fn layout_truncates_to_height() {
    let rows = vec![
        ("one".to_string(), "1".to_string()),
        ("two".to_string(), "2".to_string()),
    ];
    assert_eq!(render(&rows, None, 80, 1, IconMode::Off), "One:  1\n");
}

#[test]
fn truncation_respects_wide_glyphs() {
    assert_eq!(truncate("hello", 0), "");
    assert_eq!(truncate("hello", 1), "…");
    assert_eq!(truncate("猫猫", 3), "猫…");
}

#[test]
fn icon_modes_keep_labels_readable() {
    assert_eq!(label_text("cpu", IconMode::Off), "CPU:");
    assert!(label_text("cpu", IconMode::Unicode).starts_with('◈'));
    assert!(label_text("cpu", IconMode::Nerd).contains("CPU:"));
}

#[test]
fn failed_rows_stay_missing_and_collect_diagnostics() {
    let labels = [
        "hostname", "user", "shell", "uptime", "cpu", "memory", "disk", "kernel", "terminal",
        "desktop",
    ];
    let mut errors = Vec::new();
    let rows = labels
        .iter()
        .map(|label| fetched_row(label, Err("fixture failure".to_string()), &mut errors))
        .collect::<Vec<_>>();

    assert!(rows.iter().all(|(_, value)| value == MISSING));
    assert_eq!(errors.len(), labels.len());
    assert!(errors.iter().all(|error| error.contains("fixture failure")));
    let output = render(&rows, None, 80, 20, IconMode::Off);
    assert_eq!(output.matches(MISSING).count(), rows.len());
}
