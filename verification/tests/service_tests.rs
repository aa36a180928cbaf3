use ttspotify::config::EXIT_CONFIG_ERROR;
use ttspotify::service::{
    disable_report, enabled_instance_units, escape_specifiers, exec_start_binary,
    exec_start_config_arg, exec_start_line, installed_unit_version, known_instances,
    no_session_hint, parse_running_units, parse_unit_health, refreshed_unit,
    systemd_escape_instance, trim_each_lines, unescape_specifiers, unit_file_contents,
    unit_version_from_contents, wants_symlink, UnitHealth, UNIT_FILE_VERSION,
};

/// A unit as v0.7.0 wrote it: stamp 2, configs still at the data root, and
/// none of the restart limits that release's successor added.
const LEGACY_UNIT: &str = r#"# ttspotify-unit-version: 2
[Unit]
Description=TTSpotify Bot (%i)

[Service]
Type=simple
WorkingDirectory=/home/u/.config/ttspotify
ExecStart="/home/u/.local/bin/ttspotify" --config "/home/u/.config/ttspotify/%I.json"
Restart=on-failure
RestartSec=2
"#;

const ROOT: &str = "/home/u/.config/ttspotify";
const CONFIGS: &str = "/home/u/.config/ttspotify/config";

#[test]
fn a_current_unit_is_left_alone() {
    let unit = unit_file_contents(
        "\"/home/u/.local/bin/ttspotify\" --config \"/home/u/.config/ttspotify/config/%I.json\"",
        CONFIGS,
        None,
    );
    assert_eq!(refreshed_unit(&unit, ROOT, CONFIGS, None), None);
}

#[test]
fn a_stale_unit_is_rebuilt_at_the_current_version() {
    let out = refreshed_unit(LEGACY_UNIT, ROOT, CONFIGS, None)
        .expect("stamp 2 is older than the current template");
    assert_eq!(unit_version_from_contents(&out), UNIT_FILE_VERSION);
    assert!(out.contains("StartLimitBurst="));
    assert!(out.contains("RestartSec=30"));
}

#[test]
fn an_unstamped_unit_counts_as_stale() {
    let unit = LEGACY_UNIT.replace("# ttspotify-unit-version: 2\n", "");
    assert!(refreshed_unit(&unit, ROOT, CONFIGS, None).is_some());
}

#[test]
fn the_refresh_keeps_the_binary_the_unit_already_ran() {
    let out = refreshed_unit(LEGACY_UNIT, ROOT, CONFIGS, None).unwrap();
    assert!(out.contains("ExecStart=\"/home/u/.local/bin/ttspotify\""));
}

#[test]
fn the_legacy_config_path_is_repointed_at_the_config_dir() {
    let out = refreshed_unit(LEGACY_UNIT, ROOT, CONFIGS, None).unwrap();
    assert!(out.contains("--config \"/home/u/.config/ttspotify/config/%I.json\""));
    assert!(!out.contains("--config \"/home/u/.config/ttspotify/%I.json\""));
}

#[test]
fn the_pre_0_7_lowercase_instance_path_is_repointed_too() {
    let unit = LEGACY_UNIT
        .replace("# ttspotify-unit-version: 2\n", "")
        .replace("/ttspotify/%I.json", "/ttspotify/%i.json");
    let out = refreshed_unit(&unit, ROOT, CONFIGS, None).unwrap();
    assert!(out.contains("--config \"/home/u/.config/ttspotify/config/%I.json\""));
}

#[test]
fn a_hand_written_config_path_survives_the_refresh() {
    let unit = LEGACY_UNIT.replace(
        "--config \"/home/u/.config/ttspotify/%I.json\"",
        "--config \"/srv/bots/%I.json\"",
    );
    let out = refreshed_unit(&unit, ROOT, CONFIGS, None).unwrap();
    assert!(out.contains("--config \"/srv/bots/%I.json\""));
}

#[test]
fn a_refreshed_unit_needs_no_second_refresh() {
    let out = refreshed_unit(LEGACY_UNIT, ROOT, CONFIGS, Some("/home/u/.local/share/ttspotify/lib"))
        .unwrap();
    assert_eq!(refreshed_unit(&out, ROOT, CONFIGS, Some("/home/u/.local/share/ttspotify/lib")), None);
    assert_eq!(installed_unit_version(Some(&out)), Some((UNIT_FILE_VERSION, UNIT_FILE_VERSION)));
    assert_eq!(installed_unit_version(Some(LEGACY_UNIT)), Some((2, UNIT_FILE_VERSION)));
    assert_eq!(installed_unit_version(None), None);
}

#[test]
fn config_arg_is_read_quoted_or_bare() {
    assert_eq!(
        exec_start_config_arg("ExecStart=\"/opt/b\" --config \"/x/%I.json\"\n").as_deref(),
        Some("/x/%I.json")
    );
    assert_eq!(
        exec_start_config_arg("ExecStart=/opt/b --config /x/%I.json\n").as_deref(),
        Some("/x/%I.json")
    );
    assert_eq!(exec_start_config_arg("ExecStart=/opt/b\n"), None);
}

#[test]
fn a_percent_in_a_path_survives_the_round_trip() {
    let unit = LEGACY_UNIT.replace("/home/u/.local/bin/ttspotify", "/home/50%%u/bot");
    let out = refreshed_unit(&unit, ROOT, CONFIGS, None).unwrap();
    assert!(out.contains("ExecStart=\"/home/50%%u/bot\""));
}

#[test]
fn a_unit_between_crashes_reads_as_restarting_not_stopped() {
    let output = "ActiveState=activating\nSubState=auto-restart\nResult=exit-code\n";
    assert_eq!(parse_unit_health(output), UnitHealth::Restarting);
}

#[test]
fn a_unit_that_gave_up_reads_as_failed() {
    let failed = "ActiveState=failed\nSubState=failed\nResult=exit-code\n";
    assert_eq!(parse_unit_health(failed), UnitHealth::Failed);
    let limit = "ActiveState=inactive\nSubState=dead\nResult=start-limit-hit\n";
    assert_eq!(parse_unit_health(limit), UnitHealth::Failed);
}

#[test]
fn a_clean_stop_and_a_running_bot_are_told_apart() {
    let stopped = "ActiveState=inactive\nSubState=dead\nResult=success\n";
    assert_eq!(parse_unit_health(stopped), UnitHealth::Stopped);
    let running = "ActiveState=active\nSubState=running\nResult=success\n";
    assert_eq!(parse_unit_health(running), UnitHealth::Running);
    assert_eq!(parse_unit_health(""), UnitHealth::Stopped);
}

#[test]
fn the_unit_stops_retrying_a_bot_that_cannot_connect() {
    let unit = unit_file_contents("\"/opt/bot\" --config \"/c/%i.json\"", "/c", None);
    assert!(unit.contains("StartLimitBurst="));
    assert!(unit.contains("StartLimitIntervalSec="));
    assert!(!unit.contains("RestartSec=2\n"));
}

#[test]
fn unit_file_does_not_restart_on_config_error() {
    let unit = unit_file_contents(
        "\"/opt/bot\" --config \"/home/u/.config/ttspotify/%i.json\"",
        "/home/u/.config/ttspotify",
        Some("/home/u/.local/share/ttspotify/lib"),
    );
    assert!(unit.contains(&format!("RestartPreventExitStatus={}", EXIT_CONFIG_ERROR)));
    assert!(!unit.contains("RestartForceExitStatus"));
    assert!(unit.contains("Restart=on-failure"));
    assert!(unit.contains("TimeoutStopSec="));
    assert!(unit.contains("ExecStart=\"/opt/bot\""));
}

#[test]
fn unit_file_sandboxes_with_writable_bot_dirs() {
    let unit = unit_file_contents(
        "\"/opt/bot\" --config \"/home/u/.config/ttspotify/%i.json\"",
        "/home/u/.config/ttspotify",
        Some("/home/u/.local/share/ttspotify/lib"),
    );
    assert!(unit.contains("ProtectSystem=strict"));
    assert!(unit.contains("PrivateTmp=true"));
    assert!(unit.contains("NoNewPrivileges=true"));
    assert!(unit.contains("ReadWritePaths=-/home/u/.config/ttspotify"));
    assert!(unit.contains("ReadWritePaths=-/home/u/.local/share/ttspotify/lib"));
    assert!(unit.contains("ReadWritePaths=-%h/.cache"));
    assert!(unit.contains("WorkingDirectory=/home/u/.config/ttspotify"));
}

#[test]
fn a_path_with_a_percent_survives_the_round_trip() {
    let unit = unit_file_contents(
        &format!("\"{}\" --config \"/x/%I.json\"", escape_specifiers("/home/50%user/bot")),
        "/x",
        None,
    );
    assert_eq!(exec_start_binary(&unit).as_deref(), Some("/home/50%user/bot"));
}

#[test]
fn a_percent_in_a_path_is_kept_literal() {
    let unit = unit_file_contents(
        "\"/home/50%u ser/bot\" --config \"/x/%I.json\"",
        "/home/50%user/.config/ttspotify",
        None,
    );
    assert!(unit.contains("WorkingDirectory=/home/50%%user/.config/ttspotify"), "{unit}");
    assert!(unit.contains("%I.json"), "{unit}");
}

#[test]
fn escaping_specifiers_is_undone_by_unescaping() {
    for path in ["/home/50%user/bot", "%%", "/plain/path", "%"] {
        assert_eq!(unescape_specifiers(&escape_specifiers(path)), path, "{path}");
    }
    assert_eq!(escape_specifiers("/a%b"), "/a%%b");
}

#[test]
fn unit_file_carries_current_version_stamp() {
    let unit = unit_file_contents("\"/opt/bot\" --config \"/x/%i.json\"", "/x", None);
    assert_eq!(unit_version_from_contents(&unit), UNIT_FILE_VERSION);
}

#[test]
fn unit_version_parses_stamp_and_defaults_to_zero() {
    assert_eq!(unit_version_from_contents("[Unit]\n# ttspotify-unit-version: 7\n[Service]\n"), 7);
    assert_eq!(unit_version_from_contents("[Unit]\nExecStart=x\n"), 0);
    assert_eq!(unit_version_from_contents("# ttspotify-unit-version: banana\n"), 0);
}

#[test]
fn unit_file_without_tools_dir_omits_its_rw_line() {
    let unit = unit_file_contents("\"/opt/bot\" --config \"/x/%i.json\"", "/x", None);
    assert!(unit.contains("ReadWritePaths=-/x"));
    assert!(unit.contains("ReadWritePaths=-%h/.local/share/ttspotify"));
    assert!(!unit.contains("ReadWritePaths=-/home"));
}

#[test]
fn escape_instance_passes_plain_names_through() {
    assert_eq!(systemd_escape_instance("myserver"), "myserver");
    assert_eq!(systemd_escape_instance("srv_2.home:x"), "srv_2.home:x");
}

#[test]
fn escape_instance_encodes_specials_like_systemd_escape() {
    assert_eq!(systemd_escape_instance("my server"), r"my\x20server");
    assert_eq!(systemd_escape_instance("a/b"), "a-b");
    assert_eq!(systemd_escape_instance(".hidden"), r"\x2ehidden");
}

#[test]
fn escape_instance_encodes_each_byte_of_a_wider_character() {
    assert_eq!(systemd_escape_instance("é"), r"\xc3\xa9");
}

#[test]
fn parses_unit_names_from_first_column() {
    let out = "ttspotify@home.service loaded active running TTSpotify bot (home)\n\
               ttspotify@work.service loaded active running TTSpotify bot (work)\n";
    assert_eq!(parse_running_units(out), vec!["ttspotify@home.service", "ttspotify@work.service"]);
}

#[test]
fn ignores_foreign_units_and_blank_lines() {
    let out = "\nother@x.service loaded active running Something else\n\
               ttspotify@home.service loaded active running TTSpotify bot\n\n";
    assert_eq!(parse_running_units(out), vec!["ttspotify@home.service"]);
}

#[test]
fn empty_output_is_empty() {
    assert!(parse_running_units("").is_empty());
}

#[test]
fn known_instances_takes_enabled_units_and_drops_the_template() {
    let unit_files = "ttspotify@.service     enabled enabled\n\
                      ttspotify@home.service enabled enabled\n";
    assert_eq!(known_instances(unit_files, &[], &[]), vec!["ttspotify@home.service"]);
    assert_eq!(enabled_instance_units(unit_files), vec!["ttspotify@home.service"]);
}

#[test]
fn known_instances_merges_sources_without_duplicates() {
    let unit_files = "ttspotify@home.service enabled enabled\n";
    let running = vec!["ttspotify@home.service".to_string(), "ttspotify@work.service".to_string()];
    let configs = vec!["home".to_string(), "spare".to_string()];
    assert_eq!(
        known_instances(unit_files, &running, &configs),
        vec!["ttspotify@home.service", "ttspotify@work.service", "ttspotify@spare.service"]
    );
}

#[test]
fn known_instances_escapes_config_names() {
    assert_eq!(
        known_instances("", &[], &["my server".to_string()]),
        vec![r"ttspotify@my\x20server.service"]
    );
}

#[test]
fn exec_start_binary_reads_the_quoted_path_we_write() {
    let unit = unit_file_contents(
        "\"/usr/local/bin/tt spotify\" --config \"/x/%i.json\"",
        "/x",
        None,
    );
    assert_eq!(exec_start_binary(&unit).as_deref(), Some("/usr/local/bin/tt spotify"));
}

#[test]
fn exec_start_binary_reads_a_hand_edited_unquoted_path() {
    assert_eq!(
        exec_start_binary("[Service]\nExecStart=/usr/bin/ttspotify --config /x.json\n").as_deref(),
        Some("/usr/bin/ttspotify")
    );
    assert_eq!(exec_start_binary("[Service]\nType=simple\n"), None);
    assert_eq!(exec_start_binary("ExecStart=\n"), None);
}

#[test]
fn the_exec_start_line_reads_back_as_the_binary_it_names() {
    let line = exec_start_line("/opt/my bot%x", "/c");
    assert_eq!(line, "\"/opt/my bot%%x\" --config \"/c/%I.json\"");
    let unit = unit_file_contents(&line, "/c", None);
    assert_eq!(exec_start_binary(&unit).as_deref(), Some("/opt/my bot%x"));
    assert_eq!(exec_start_config_arg(&unit).as_deref(), Some("/c/%I.json"));
}

#[test]
fn known_instances_ignores_foreign_units_and_empty_input() {
    assert!(known_instances("", &[], &[]).is_empty());
    assert!(known_instances("other@x.service enabled enabled\n", &[], &[]).is_empty());
}

#[test]
fn the_small_service_texts() {
    let hint = no_session_hint("ttspotify");
    assert!(hint.ends_with("run a bot in this terminal: ttspotify run <name>"), "{hint}");
    assert_eq!(
        wants_symlink("/home/u/.config/systemd/user", "ttspotify@home.service"),
        "/home/u/.config/systemd/user/default.target.wants/ttspotify@home.service"
    );
    assert_eq!(
        disable_report("ttspotify@home.service", true, true, true, false).as_deref(),
        Some("  ttspotify@home.service stopped and disabled.")
    );
    assert_eq!(disable_report("ttspotify@home.service", false, false, false, false), None);
    let lines = trim_each_lines(&vec![vec![' ', 'a', ' '], vec!['b']]);
    assert_eq!(lines, vec![vec!['a'], vec!['b']]);
}

#[test]
fn every_instance_string_is_addressable() {
    for name in [".hidden", "my server", "a/b:c_d.e", "tab\there", "ünï"] {
        let escaped = systemd_escape_instance(name);
        assert!(!escaped.starts_with('.'), "{escaped}");
        assert!(
            escaped.chars().all(|c| c.is_ascii_alphanumeric() || "-:_.\\".contains(c)),
            "{escaped}"
        );
    }
}

#[test]
fn a_refreshed_unit_reads_back_the_binary_the_old_one_ran() {
    let old = LEGACY_UNIT.replace("/home/u/.local/bin/ttspotify", "/opt/E%%x/tt bot");
    let configs = "/home/Eve/ExecStart=/config";
    let out = refreshed_unit(&old, ROOT, configs, Some("/home/Eve/lib")).unwrap();
    assert_eq!(exec_start_binary(&old).as_deref(), Some("/opt/E%x/tt bot"));
    assert_eq!(exec_start_binary(&out).as_deref(), Some("/opt/E%x/tt bot"));
}

#[test]
fn a_unit_reads_back_its_binary_whatever_its_directories_hold() {
    let line = exec_start_line("/srv/E 100%/bot", "/data/ExecStart=x");
    let unit = unit_file_contents(&line, "/data/ExecStart=x", Some("/tools/E"));
    assert_eq!(exec_start_binary(&unit).as_deref(), Some("/srv/E 100%/bot"));
}
