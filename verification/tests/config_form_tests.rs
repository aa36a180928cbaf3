use ttspotify::admins::{join_admins, parse_admin_list};
use ttspotify::config::{AdminMode, BotConfig};
use ttspotify::config_form::{
    admin_mode_to_index, index_to_admin_mode, mode_uses_username_list, non_empty, select_or_first,
    service_row, ConfigForm, NumberTexts, ParsedNumbers, ADMIN_MODES, ADMIN_MODE_LABELS,
};
use ttspotify::services::Service;

/// The decimal settings printed the way the editor shows them.
fn numbers(cfg: &BotConfig) -> NumberTexts {
    NumberTexts {
        normalisation_gain_db: f64::from_bits(cfg.normalisation_pregain_db_bits).to_string(),
        normalisation_threshold_dbfs: f64::from_bits(cfg.normalisation_threshold_dbfs_bits)
            .to_string(),
        normalisation_knee_db: f64::from_bits(cfg.normalisation_knee_db_bits).to_string(),
        volume_ramp_step: f32::from_bits(cfg.volume_ramp_step_bits).to_string(),
        radio_delay: f32::from_bits(cfg.radio_delay_bits).to_string(),
    }
}

/// The form's decimal boxes read the way saving reads them.
fn parsed(form: &ConfigForm) -> ParsedNumbers {
    ParsedNumbers {
        normalisation_gain_db: form.normalisation_gain_db.trim().parse::<f64>().ok().map(f64::to_bits),
        normalisation_threshold_dbfs: form
            .normalisation_threshold_dbfs
            .trim()
            .parse::<f64>()
            .ok()
            .map(f64::to_bits),
        normalisation_knee_db: form.normalisation_knee_db.trim().parse::<f64>().ok().map(f64::to_bits),
        volume_ramp_step: form.volume_ramp_step.trim().parse::<f32>().ok().map(f32::to_bits),
        radio_delay: form.radio_delay.trim().parse::<f32>().ok().map(f32::to_bits),
    }
}

fn open(cfg: &BotConfig) -> ConfigForm {
    ConfigForm::from_config(cfg, numbers(cfg))
}

fn save(form: &ConfigForm, original: &BotConfig) -> BotConfig {
    form.apply(original, parsed(form))
}

fn base() -> BotConfig {
    BotConfig {
        host: "example.com".to_string(),
        username: "bot".to_string(),
        volume: 50,
        max_volume: 100,
        ..Default::default()
    }
}

#[test]
fn the_kick_seconds_box_only_counts_when_the_bot_is_set_to_come_back() {
    let cfg = base();
    let mut form = open(&cfg);
    assert!(!form.rejoin_after_kick);

    form.rejoin_after_kick_seconds = 30;
    assert_eq!(save(&form, &cfg).rejoin_after_kick_seconds, None);

    form.rejoin_after_kick = true;
    assert_eq!(save(&form, &cfg).rejoin_after_kick_seconds, Some(30));

    form.rejoin_after_kick_seconds = 0;
    assert_eq!(save(&form, &cfg).rejoin_after_kick_seconds, Some(0));
}

#[test]
fn a_negative_kick_delay_becomes_zero() {
    let cfg = base();
    let mut form = open(&cfg);
    form.rejoin_after_kick = true;
    form.rejoin_after_kick_seconds = -5;
    assert_eq!(save(&form, &cfg).rejoin_after_kick_seconds, Some(0));
}

#[test]
fn a_kick_delay_survives_a_round_trip_through_the_form() {
    let cfg = BotConfig { rejoin_after_kick_seconds: Some(30), ..base() };
    let form = open(&cfg);
    assert_eq!(save(&form, &cfg), cfg);
}

#[test]
fn a_config_survives_a_round_trip_through_the_form() {
    let cfg = base();
    let form = open(&cfg);
    assert_eq!(save(&form, &cfg), cfg, "opening and saving altered the config");
}

#[test]
fn a_config_with_admins_licences_and_one_service_survives_the_form() {
    let mut cfg = base();
    cfg.admins = vec!["alice".to_string(), "bob".to_string()];
    cfg.admin_mode = AdminMode::List;
    cfg.license_name = Some("BearWare.dk".to_string());
    cfg.license_key = Some("KEY-123".to_string());
    cfg.enabled_services.spotify = false;
    cfg.default_service = Service::YouTube;
    cfg.normalisation_pregain_db_bits = (-3.5f64).to_bits();
    cfg.radio_delay_bits = 2.5f32.to_bits();
    cfg.default_language = "es".to_string();
    let form = open(&cfg);
    assert_eq!(form.admin_users, "alice, bob");
    assert_eq!(save(&form, &cfg), cfg);
}

#[test]
fn settings_the_form_never_shows_are_preserved() {
    let mut cfg = base();
    cfg.repeat_track = true;
    cfg.repeat_queue = true;
    cfg.shuffle = true;

    let mut form = open(&cfg);
    form.host = "changed.example.com".to_string();
    let saved = save(&form, &cfg);

    assert_eq!(saved.host, "changed.example.com");
    assert!(saved.repeat_track);
    assert!(saved.repeat_queue);
    assert!(saved.shuffle);
}

#[test]
fn normalisation_settings_round_trip_and_reject_garbage() {
    let mut cfg = base();
    cfg.normalisation_pregain_db_bits = (-3.5f64).to_bits();
    let mut form = open(&cfg);
    assert_eq!(form.normalisation_gain_db, "-3.5");
    form.normalisation_gain_db = "6".to_string();
    form.normalisation_type = "Album".to_string();
    form.normalisation_knee_db = "not a number".to_string();
    let saved = save(&form, &cfg);
    assert_eq!(f64::from_bits(saved.normalisation_pregain_db_bits), 6.0);
    assert_eq!(saved.normalisation_type, "album", "combo text is lowercased");
    assert_eq!(saved.normalisation_knee_db_bits, cfg.normalisation_knee_db_bits);
}

#[test]
fn service_checkboxes_round_trip_and_gate_the_save() {
    let cfg = base();
    let mut form = open(&cfg);
    assert!(form.spotify_enabled && form.youtube_enabled, "defaults are on");
    form.spotify_enabled = false;
    let saved = save(&form, &cfg);
    assert!(!saved.enabled_services.spotify);
    assert!(saved.enabled_services.youtube);
    assert_eq!(saved.default_service, Service::YouTube);
    assert!(form.validate().is_empty());

    form.youtube_enabled = false;
    assert!(
        form.validate().iter().any(|e| e.contains("service")),
        "no-services form must fail validation"
    );
}

#[test]
fn with_both_services_the_dropdown_names_the_default() {
    let cfg = base();
    let mut form = open(&cfg);
    assert_eq!(form.default_service, "Spotify");
    form.default_service = "YouTube".to_string();
    assert_eq!(save(&form, &cfg).default_service, Service::YouTube);
    form.default_service = "nonsense".to_string();
    assert_eq!(save(&form, &cfg).default_service, Service::Spotify);
}

#[test]
fn an_empty_channel_becomes_the_root_channel() {
    let cfg = base();
    let mut form = open(&cfg);
    form.channel_name = "   ".to_string();
    assert_eq!(save(&form, &cfg).channel_name, "/");
}

#[test]
fn blank_licence_fields_are_absent_rather_than_empty() {
    let cfg = base();
    let mut form = open(&cfg);
    form.license_name = "  ".to_string();
    form.license_key = String::new();
    let saved = save(&form, &cfg);
    assert_eq!(saved.license_name, None);
    assert_eq!(saved.license_key, None);
}

#[test]
fn a_licence_is_trimmed_but_kept() {
    let cfg = base();
    let mut form = open(&cfg);
    form.license_name = "  BearWare.dk  ".to_string();
    assert_eq!(save(&form, &cfg).license_name, Some("BearWare.dk".to_string()));
    assert_eq!(non_empty(" x "), Some("x".to_string()));
    assert_eq!(non_empty(" \t"), None);
}

#[test]
fn an_unparseable_number_keeps_the_previous_value() {
    let mut cfg = base();
    cfg.volume_ramp_step_bits = 0.05f32.to_bits();
    cfg.radio_delay_bits = 2.5f32.to_bits();

    let mut form = open(&cfg);
    form.volume_ramp_step = "not a number".to_string();
    form.radio_delay = String::new();

    let saved = save(&form, &cfg);
    assert_eq!(f32::from_bits(saved.volume_ramp_step_bits), 0.05);
    assert_eq!(f32::from_bits(saved.radio_delay_bits), 2.5);
}

#[test]
fn whole_numbers_are_clamped_into_their_fields() {
    let cfg = base();
    let mut form = open(&cfg);
    form.volume = 300;
    form.max_volume = -2;
    form.jitter_buffer_ms = -1;
    form.search_limit = 256;
    form.radio_batch_size = 7;
    let saved = save(&form, &cfg);
    assert_eq!(saved.volume, 255);
    assert_eq!(saved.max_volume, 0);
    assert_eq!(saved.jitter_buffer_ms, 0);
    assert_eq!(saved.search_limit, 255);
    assert_eq!(saved.radio_batch_size, 7);
}

#[test]
fn a_missing_language_falls_back_to_english() {
    let cfg = base();
    let mut form = open(&cfg);
    form.default_language = "   ".to_string();
    assert_eq!(save(&form, &cfg).default_language, "en");
}

#[test]
fn a_language_is_lowercased() {
    let cfg = base();
    let mut form = open(&cfg);
    form.default_language = "  ES ".to_string();
    assert_eq!(save(&form, &cfg).default_language, "es");
}

#[test]
fn a_good_form_has_nothing_to_report() {
    assert!(open(&base()).validate().is_empty());
}

#[test]
fn the_required_fields_are_reported_when_blank() {
    let cfg = base();
    let mut form = open(&cfg);
    form.host = "  ".to_string();
    form.username = String::new();
    let errors = form.validate();
    assert_eq!(errors.len(), 2, "got: {errors:?}");
    assert!(errors.iter().any(|e| e.contains("Host")));
    assert!(errors.iter().any(|e| e.contains("Username")));
}

#[test]
fn a_default_volume_above_the_maximum_is_rejected() {
    let cfg = base();
    let mut form = open(&cfg);
    form.volume = 90;
    form.max_volume = 50;
    assert!(form.validate().iter().any(|e| e.contains("max volume")));
}

#[test]
fn every_problem_is_reported_in_order() {
    let mut form = open(&base());
    form.host = String::new();
    form.username = " ".to_string();
    form.volume = 90;
    form.max_volume = 50;
    form.spotify_enabled = false;
    form.youtube_enabled = false;
    assert_eq!(
        form.validate(),
        vec![
            "Host is required.".to_string(),
            "Username is required.".to_string(),
            "Default volume cannot exceed max volume.".to_string(),
            "At least one service must be enabled.".to_string(),
        ]
    );
}

#[test]
fn every_admin_mode_survives_the_dropdown() {
    for mode in ADMIN_MODES {
        assert_eq!(index_to_admin_mode(admin_mode_to_index(mode)), mode);
    }
}

#[test]
fn an_unexpected_dropdown_index_gives_the_restrictive_mode() {
    assert_eq!(index_to_admin_mode(99), AdminMode::Both);
}

#[test]
fn the_username_list_is_only_used_by_the_modes_that_read_it() {
    assert!(!mode_uses_username_list(admin_mode_to_index(AdminMode::Everyone)));
    assert!(!mode_uses_username_list(admin_mode_to_index(AdminMode::TtRights)));
    assert!(mode_uses_username_list(admin_mode_to_index(AdminMode::List)));
    assert!(mode_uses_username_list(admin_mode_to_index(AdminMode::Both)));
}

#[test]
fn there_is_a_label_for_every_admin_mode() {
    assert_eq!(ADMIN_MODES.len(), ADMIN_MODE_LABELS.len());
}

#[test]
fn the_admin_list_is_trimmed_and_blank_names_dropped() {
    assert_eq!(
        parse_admin_list(" alice ,, bob,"),
        vec!["alice".to_string(), "bob".to_string()]
    );
    assert!(parse_admin_list("").is_empty());
    let names = vec!["alice".to_string(), "bob".to_string(), "carol".to_string()];
    assert_eq!(join_admins(&names), "alice, bob, carol");
    assert_eq!(parse_admin_list(&join_admins(&names)), names);
}

#[test]
fn a_dropdown_selects_its_value_or_falls_back_to_the_first() {
    let services = ["Spotify", "YouTube"];
    assert_eq!(select_or_first(&services, "youtube"), 1);
    assert_eq!(select_or_first(&services, "SPOTIFY"), 0);
    assert_eq!(select_or_first(&services, "soundcloud"), 0);
    assert_eq!(service_row(true, true), None);
    assert_eq!(service_row(true, false), Some("Spotify"));
    assert_eq!(service_row(false, true), Some("YouTube"));
}

#[test]
fn a_config_saved_from_untidy_answers_is_carried_unchanged_afterwards() {
    let cfg = base();
    let mut form = open(&cfg);
    form.host = "  tt.example.org  ".to_string();
    form.admin_users = " alice ,, bob,  , carol ".to_string();
    form.admin_mode_index = admin_mode_to_index(AdminMode::List);
    form.default_language = "  ES ".to_string();
    form.channel_name = "   ".to_string();
    form.license_name = "  Name ".to_string();
    form.license_key = " ".to_string();
    form.rejoin_after_kick = true;
    form.rejoin_after_kick_seconds = -7;
    let first = save(&form, &cfg);
    assert_eq!(first.host, "tt.example.org");
    assert_eq!(first.admins, vec!["alice", "bob", "carol"]);
    assert_eq!(first.default_language, "es");
    assert_eq!(first.channel_name, "/");
    assert_eq!(first.license_name, Some("Name".to_string()));
    assert_eq!(first.license_key, None);
    assert_eq!(first.rejoin_after_kick_seconds, Some(0));
    let again = save(&open(&first), &first);
    assert_eq!(again, first);
}

#[test]
fn a_language_outside_ascii_is_kept_lowercased() {
    let cfg = base();
    let mut form = open(&cfg);
    form.default_language = "  ÉS ".to_string();
    assert_eq!(save(&form, &cfg).default_language, "és");
}
