use ttspotify::config::{
    choose_config, config_file_stem, config_text_problem, is_valid_gender, kick_delay_label,
    kick_delay_options, list_configs_from, needs_top_up, parse_config_choice, parse_file_problem,
    parse_gender, read_failure_reason, sanitise_config_name, several_configs_notice, AdminMode,
    BotConfig, ConfigChoice, Correction, EnabledServices, ScannedFile, UserGender,
    DEFAULT_RAMP_STEP_BITS,
};
use ttspotify::services::Service;

fn names() -> Vec<String> {
    vec!["home".to_string(), "work".to_string()]
}

#[test]
fn a_number_picks_the_bot_beside_it() {
    assert_eq!(parse_config_choice("1", &names()), Some(0));
    assert_eq!(parse_config_choice(" 2 \n", &names()), Some(1));
}

#[test]
fn a_name_works_as_well_as_its_number() {
    assert_eq!(parse_config_choice("work", &names()), Some(1));
    assert_eq!(parse_config_choice("elsewhere", &names()), None);
}

#[test]
fn out_of_range_numbers_are_refused_rather_than_clamped() {
    assert_eq!(parse_config_choice("3", &names()), None);
    assert_eq!(parse_config_choice("0", &names()), None);
    assert_eq!(parse_config_choice("", &names()), None);
    assert_eq!(parse_config_choice("-1", &names()), None);
}

#[test]
fn one_config_is_not_a_choice_and_none_is_not_an_answer() {
    let one = vec![("home".to_string(), "/x/home.json".to_string())];
    assert_eq!(choose_config(&one, false), ConfigChoice::Run { index: 0, announce: false });
    assert_eq!(one[0].1, "/x/home.json");
    // Interactivity is irrelevant when there is nothing to choose between.
    assert_eq!(choose_config(&one, true), ConfigChoice::Run { index: 0, announce: false });
    assert_eq!(choose_config(&[], true), ConfigChoice::NoConfig);
}

#[test]
fn without_a_terminal_several_configs_still_start_the_first() {
    let many = vec![
        ("home".to_string(), "/x/home.json".to_string()),
        ("work".to_string(), "/x/work.json".to_string()),
    ];
    match choose_config(&many, false) {
        ConfigChoice::Run { index, announce } => {
            assert_eq!(many[index].1, "/x/home.json");
            assert!(announce, "the run says which bot it took");
        }
        other => panic!("expected the first config to run, got {other:?}"),
    }
}

#[test]
fn several_configs_with_a_terminal_means_asking() {
    let many = vec![
        ("home".to_string(), "/x/home.json".to_string()),
        ("work".to_string(), "/x/work.json".to_string()),
    ];
    assert_eq!(choose_config(&many, true), ConfigChoice::Ask);
    assert_eq!(
        several_configs_notice("home"),
        "Several bots are configured; running \"home\". Pass --config to pick another."
    );
}

#[test]
fn a_hand_edited_delay_is_offered_alongside_the_presets() {
    assert_eq!(kick_delay_options(30), vec![0, 10, 30, 60]);
    assert_eq!(kick_delay_options(45), vec![0, 10, 30, 45, 60]);
    assert_eq!(kick_delay_options(600), vec![0, 10, 30, 60, 600]);
}

#[test]
fn a_small_hand_edited_delay_sorts_before_the_presets() {
    assert_eq!(kick_delay_options(5), vec![0, 5, 10, 30, 60]);
    assert_eq!(kick_delay_options(20), vec![0, 10, 20, 30, 60]);
}

#[test]
fn delays_are_written_in_the_largest_unit_that_fits() {
    assert_eq!(kick_delay_label(0), "Instantly");
    assert_eq!(kick_delay_label(1), "1 second");
    assert_eq!(kick_delay_label(30), "30 seconds");
    assert_eq!(kick_delay_label(60), "1 minute");
    assert_eq!(kick_delay_label(300), "5 minutes");
    assert_eq!(kick_delay_label(45), "45 seconds");
}

#[test]
fn a_service_is_read_however_it_was_capitalised() {
    for spelling in ["YouTube", "youtube", "YOUTUBE", " yt "] {
        assert_eq!(Service::parse(spelling), Some(Service::YouTube), "{spelling}");
    }
    assert_eq!(Service::parse("soundcloud"), None);
    assert_eq!(Service::parse_or_default("soundcloud"), Service::Spotify);
}

#[test]
fn a_name_too_long_for_a_service_is_refused_up_front() {
    assert_eq!(sanitise_config_name(&"a".repeat(61)), None);
    assert_eq!(sanitise_config_name(&"a".repeat(60)), Some("a".repeat(60)));
}

#[test]
fn control_characters_never_reach_a_file_name() {
    assert_eq!(sanitise_config_name("one\ntwo"), Some("onetwo".to_string()));
    assert_eq!(sanitise_config_name("tab\there"), Some("tabhere".to_string()));
    assert_eq!(sanitise_config_name("\n\t"), None);
}

#[test]
fn every_accepted_spelling_maps_to_its_gender() {
    let cases = [
        ("male", UserGender::Male),
        ("m", UserGender::Male),
        ("man", UserGender::Male),
        ("MALE", UserGender::Male),
        ("Man", UserGender::Male),
        ("female", UserGender::Female),
        ("f", UserGender::Female),
        ("woman", UserGender::Female),
        ("FEMALE", UserGender::Female),
        ("Woman", UserGender::Female),
        ("neutral", UserGender::Neutral),
        ("n", UserGender::Neutral),
        ("nb", UserGender::Neutral),
        ("NEUTRAL", UserGender::Neutral),
        ("NB", UserGender::Neutral),
    ];
    for (word, want) in cases {
        assert!(is_valid_gender(word), "{word} should be accepted");
        assert_eq!(parse_gender(word), want, "{word}");
    }
}

#[test]
fn a_word_that_is_not_a_gender_is_refused() {
    for s in ["", "other", "xyz", "ma", "fem", "neutral!"] {
        assert!(!is_valid_gender(s), "{s} should be refused");
    }
}

#[test]
fn an_unrecognised_word_still_parses_as_neutral() {
    for s in ["", "xyz", "other"] {
        assert_eq!(parse_gender(s), UserGender::Neutral, "{s}");
    }
}

#[test]
fn validate_default_config_is_clean() {
    let mut cfg = BotConfig::default();
    assert!(cfg.validate().is_empty(), "default config should need no corrections");
}

#[test]
fn validate_clamps_volume_to_max() {
    let mut cfg = BotConfig::default();
    cfg.max_volume = 60;
    cfg.volume = 90;
    let warnings = cfg.validate();
    assert_eq!(cfg.volume, 60);
    assert!(!warnings.is_empty());
}

#[test]
fn validate_clamps_max_volume_over_100() {
    let mut cfg = BotConfig::default();
    cfg.max_volume = 200;
    cfg.volume = 150;
    cfg.validate();
    assert_eq!(cfg.max_volume, 100);
    assert_eq!(cfg.volume, 100);
}

#[test]
fn validate_fixes_zero_ports() {
    let mut cfg = BotConfig::default();
    cfg.tcp_port = 0;
    cfg.udp_port = 99999;
    cfg.validate();
    assert_eq!(cfg.tcp_port, 10333);
    assert_eq!(cfg.udp_port, 10333);
}

#[test]
fn a_config_name_cannot_escape_the_configs_folder() {
    assert_eq!(sanitise_config_name("../../evil"), Some("evil".to_string()));
    assert_eq!(
        sanitise_config_name(r"C:\windows\system32"),
        Some("Cwindowssystem32".to_string())
    );
    assert_eq!(sanitise_config_name("my/server"), Some("myserver".to_string()));
}

#[test]
fn a_config_name_loses_a_typed_json_suffix() {
    assert_eq!(sanitise_config_name("myserver.json"), Some("myserver".to_string()));
    assert_eq!(sanitise_config_name(" myserver "), Some("myserver".to_string()));
}

#[test]
fn a_name_that_is_only_punctuation_is_rejected() {
    assert_eq!(sanitise_config_name("   "), None);
    assert_eq!(sanitise_config_name("..."), None);
    assert_eq!(sanitise_config_name("/"), None);
    assert_eq!(sanitise_config_name(".json"), None);
}

#[test]
fn all_is_reserved_because_the_commands_use_it_for_every_bot() {
    assert_eq!(sanitise_config_name("all"), None);
    assert_eq!(sanitise_config_name("ALL"), None);
    assert_eq!(sanitise_config_name(" All "), None);
    assert_eq!(sanitise_config_name("tray"), None);
    assert_eq!(sanitise_config_name("hall"), Some("hall".to_string()));
    assert_eq!(sanitise_config_name("all-servers"), Some("all-servers".to_string()));
}

#[test]
fn a_sanitised_name_is_sanitised_again_unchanged() {
    for raw in ["../../evil", " my server.json ", "a\tb", "x.json.json"] {
        let once = sanitise_config_name(raw).unwrap();
        assert_eq!(sanitise_config_name(&once), Some(once.clone()), "{raw}");
    }
}

#[test]
fn validate_reenables_services_when_none_are_left() {
    let mut cfg = BotConfig::default();
    cfg.enabled_services = EnabledServices::from_names(&["spotfy".to_string()]);
    assert!(!cfg.enabled_services.spotify && !cfg.enabled_services.youtube);
    let warnings = cfg.validate();
    assert!(cfg.enabled_services.spotify && cfg.enabled_services.youtube);
    assert!(!warnings.is_empty());
}

#[test]
fn the_enabled_services_names_read_back() {
    let yt_only = EnabledServices::from_names(&["YouTube".to_string()]);
    assert!(!yt_only.spotify, "matching is case-insensitive");
    assert!(yt_only.youtube);
    assert_eq!(yt_only.only(), Some(Service::YouTube));
    assert_eq!(yt_only.names(), vec!["youtube"]);
    let both = EnabledServices::default();
    assert_eq!(both.names(), vec!["spotify", "youtube"]);
    assert_eq!(EnabledServices::from_names(&both.names().iter().map(|s| s.to_string()).collect::<Vec<_>>()), both);
    assert_eq!(both.display(), "Spotify, YouTube");
    assert_eq!(yt_only.display(), "YouTube");
    assert!(yt_only.allows(Service::YouTube) && !yt_only.allows(Service::Spotify));
}

#[test]
fn validate_moves_the_default_service_off_a_disabled_one() {
    let mut cfg = BotConfig::default();
    cfg.enabled_services = EnabledServices { spotify: false, youtube: true };
    cfg.default_service = Service::Spotify;
    let warnings = cfg.validate();
    assert_eq!(cfg.default_service, Service::YouTube);
    assert!(warnings.is_empty());

    let mut cfg = BotConfig::default();
    cfg.enabled_services = EnabledServices { spotify: true, youtube: false };
    cfg.default_service = Service::YouTube;
    cfg.validate();
    assert_eq!(cfg.default_service, Service::Spotify);
}

#[test]
fn validate_fixes_empty_host_and_name() {
    let mut cfg = BotConfig::default();
    cfg.host = "  ".to_string();
    cfg.bot_name = String::new();
    cfg.validate();
    assert_eq!(cfg.host, "localhost");
    assert_eq!(cfg.bot_name, "Spotify");
}

#[test]
fn validate_fixes_bad_ramp_and_batch() {
    let mut cfg = BotConfig::default();
    cfg.volume_ramp_step_bits = 0.0f32.to_bits();
    cfg.radio_batch_size = 0;
    cfg.search_limit = 50;
    cfg.validate();
    assert_eq!(f32::from_bits(cfg.volume_ramp_step_bits), 0.03);
    assert_eq!(cfg.radio_batch_size, 1);
    assert_eq!(cfg.search_limit, 20);
}

#[test]
fn validate_clamps_jitter_buffer_over_2000() {
    let mut cfg = BotConfig::default();
    cfg.jitter_buffer_ms = 10_000;
    let warnings = cfg.validate();
    assert_eq!(cfg.jitter_buffer_ms, 2000);
    assert!(!warnings.is_empty());
}

#[test]
fn validate_accepts_jitter_buffer_zero_and_default() {
    let mut cfg = BotConfig::default();
    cfg.jitter_buffer_ms = 0;
    assert!(cfg.validate().is_empty());
    cfg.jitter_buffer_ms = 400;
    assert!(cfg.validate().is_empty());
}

#[test]
fn validate_settles_after_one_pass() {
    let mut cfg = BotConfig::default();
    cfg.max_volume = 250;
    cfg.volume = 240;
    cfg.tcp_port = -4;
    cfg.search_limit = 0;
    cfg.volume_ramp_step_bits = f32::NAN.to_bits();
    cfg.enabled_services = EnabledServices { spotify: false, youtube: false };
    let first = cfg.validate();
    assert!(!first.is_empty());
    let settled = cfg.clone();
    assert!(cfg.validate().is_empty(), "a second pass has nothing left to fix");
    assert_eq!(cfg, settled);
}

#[test]
fn each_correction_is_reported_in_order_with_what_was_seen() {
    let mut cfg = BotConfig::default();
    cfg.max_volume = 120;
    cfg.volume = 110;
    cfg.search_limit = 30;
    cfg.udp_port = 0;
    let corrections = cfg.validate();
    assert_eq!(
        corrections,
        vec![
            Correction::MaxVolume { max_volume: 120 },
            Correction::Volume { volume: 110, max_volume: 100 },
            Correction::SearchLimit { search_limit: 30, clamped: 20 },
            Correction::UdpPort { port: 0 },
        ]
    );
    assert_eq!(corrections[0].message(), "max_volume 120 > 100, clamped to 100");
    assert_eq!(corrections[3].message(), "udp_port 0 out of range, reset to 10333");
}

#[test]
fn the_default_ramp_step_is_three_hundredths() {
    assert_eq!(f32::from_bits(DEFAULT_RAMP_STEP_BITS), 0.03);
    assert_eq!(BotConfig::default().admin_mode, AdminMode::Both);
}

#[test]
fn a_broken_config_text_says_what_is_wrong_with_it() {
    let typed = |t: &str| -> Option<String> {
        serde_json::from_str::<serde_json::Value>(t).err().map(|e| e.to_string())
    };
    assert_eq!(config_text_problem("", typed("")), Some("is empty".to_string()));
    let junk = config_text_problem("not json", typed("not json")).unwrap();
    assert!(junk.starts_with("is not valid JSON: "), "{junk}");
    let nohost = config_text_problem("{\"tcpPort\":1}", None).unwrap();
    assert!(nohost.contains("host"), "{nohost}");
    assert_eq!(config_text_problem("{\"host\":\"h\"}", None), None);
    assert_eq!(
        config_text_problem("{\"host\":\"h\"}", Some("bad port".to_string())),
        Some("is not valid: bad port".to_string())
    );
    assert_eq!(
        read_failure_reason("Permission denied (os error 13)"),
        "cannot be read (Permission denied)"
    );
}

#[test]
fn json_that_names_no_server_is_refused_when_loading() {
    let err = parse_file_problem("/x/notaconfig.json", r#"{"foo": "bar", "num": 42}"#, None)
        .unwrap();
    assert!(err.contains("does not name a server"), "{err}");
    assert!(parse_file_problem("/x/empty.json", "{}", None).is_some());
    assert_eq!(parse_file_problem("/x/anon.json", r#"{"host": "tt.example.org", "username": ""}"#, None), None);
    assert_eq!(
        parse_file_problem("/x/bad.json", "{}", Some("expected value")),
        Some("Failed to parse /x/bad.json: expected value".to_string())
    );
}

#[test]
fn the_scan_keeps_bots_and_explains_the_rest_in_name_order() {
    assert_eq!(config_file_stem("work.json"), Some("work".to_string()));
    assert_eq!(config_file_stem("credentials.json"), None);
    assert_eq!(config_file_stem("notes.txt"), None);
    let found = vec![
        ScannedFile { file_name: "work.json".to_string(), path: "/c/work.json".to_string(), problem: None },
        ScannedFile {
            file_name: "junk.json".to_string(),
            path: "/c/junk.json".to_string(),
            problem: Some("is empty".to_string()),
        },
        ScannedFile { file_name: "home.json".to_string(), path: "/c/home.json".to_string(), problem: None },
        ScannedFile { file_name: "settings.json".to_string(), path: "/c/settings.json".to_string(), problem: None },
    ];
    let (configs, problems) = list_configs_from(found);
    assert_eq!(
        configs,
        vec![
            ("home".to_string(), "/c/home.json".to_string()),
            ("work".to_string(), "/c/work.json".to_string()),
        ]
    );
    assert_eq!(problems, vec!["junk.json is empty".to_string()]);
}

#[test]
fn a_config_is_topped_up_only_when_its_text_changes() {
    assert!(!needs_top_up("{\"a\":1}\n", "  {\"a\":1}"));
    assert!(needs_top_up("{\"a\":1}", "{\"a\":1,\"b\":2}"));
}

#[test]
fn a_sanitised_name_never_starts_or_ends_with_a_dot() {
    for raw in ["..hidden..", ". a", "a.json.", "x.y", " .json"] {
        if let Some(n) = sanitise_config_name(raw) {
            assert!(!n.starts_with('.') && !n.ends_with('.'), "{raw} -> {n}");
        }
    }
    // The dots trimmed off last can leave a space or a `.json` at an end,
    // which a second pass then takes off.
    assert_eq!(sanitise_config_name(". a"), Some(" a".to_string()));
    assert_eq!(sanitise_config_name(" a"), Some("a".to_string()));
    assert_eq!(sanitise_config_name("a.json."), Some("a.json".to_string()));
}

#[test]
fn a_sanitised_name_only_leaves_characters_out() {
    fn is_subsequence(a: &str, b: &str) -> bool {
        let mut rest = b.chars();
        a.chars().all(|c| rest.any(|d| d == c))
    }
    for raw in ["../../evil", " my:server?.json ", "a\tb", "C:\\windows\\system32", ". a"] {
        let n = sanitise_config_name(raw).unwrap();
        assert!(is_subsequence(&n, raw), "{raw} -> {n}");
    }
}
