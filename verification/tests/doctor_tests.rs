use ttspotify::config::EnabledServices;
use ttspotify::doctor::{
    describe_services, doctor_fixes, fallback_pulse_paths, instance_state, libpulse_from_ldconfig,
    libpulse_hint, next_steps, sdk_status, yes_no, BotCheck, DoctorFacts, Hints,
};
use ttspotify::service::UnitHealth;

#[test]
fn libpulse_is_read_from_the_ldconfig_line_for_it() {
    let out = "\tlibpulse-simple.so.0 (libc6,x86-64) => /lib/x86_64-linux-gnu/libpulse-simple.so.0\n\
               \tlibpulse.so.0 (libc6,x86-64) => /lib/x86_64-linux-gnu/libpulse.so.0\n";
    assert_eq!(
        libpulse_from_ldconfig(out).as_deref(),
        Some("/lib/x86_64-linux-gnu/libpulse.so.0")
    );
}

#[test]
fn a_similarly_named_library_is_not_mistaken_for_libpulse() {
    let out = "\tlibpulse-simple.so.0 (libc6,x86-64) => /lib/libpulse-simple.so.0\n\
               \tlibpulsecommon-15.99.so (libc6,x86-64) => /lib/libpulsecommon-15.99.so\n";
    assert_eq!(libpulse_from_ldconfig(out), None);
    assert_eq!(libpulse_from_ldconfig(""), None);
}

#[test]
fn the_fallback_places_are_searched_in_order() {
    let paths = fallback_pulse_paths();
    assert_eq!(paths.len(), 5);
    assert_eq!(paths[0], "/usr/lib/x86_64-linux-gnu/libpulse.so.0");
    assert_eq!(paths[4], "/lib/libpulse.so.0");
}

#[test]
fn a_missing_libpulse_gets_a_hint_and_a_present_one_none() {
    assert_eq!(libpulse_hint(Some("/lib/libpulse.so.0")), None);
    let hint = libpulse_hint(None).unwrap();
    assert!(hint.starts_with("libpulse.so.0 is not installed"), "{hint}");
    assert!(hint.ends_with("sudo apt install libpulse0"), "{hint}");
}

#[test]
fn sdk_status_prefers_the_marker_but_still_notices_the_library() {
    assert_eq!(sdk_status(Some("v5.22a\n".to_string()), true), "v5.22a");
    assert_eq!(sdk_status(None, true), "present, version unknown");
    assert_eq!(sdk_status(Some("  ".to_string()), true), "present, version unknown");
    assert_eq!(sdk_status(None, false), "not downloaded yet (fetched on first run)");
}

#[test]
fn instance_state_separates_running_from_enabled() {
    let unit = "ttspotify@home.service".to_string();
    let this = std::slice::from_ref(&unit);
    let none: Vec<String> = Vec::new();
    let up = UnitHealth::Running;
    let down = UnitHealth::Stopped;
    assert_eq!(instance_state(&unit, this, this, up), "running, starts at login");
    assert_eq!(instance_state(&unit, &none, this, down), "enabled but not running");
    assert_eq!(
        instance_state(&unit, this, &none, up),
        "running, but not enabled (it will not come back after a reboot)"
    );
    assert_eq!(instance_state(&unit, &none, &none, down), "not running");
}

#[test]
fn a_bot_in_a_crash_loop_is_not_reported_as_merely_stopped() {
    let unit = "ttspotify@home.service".to_string();
    let none: Vec<String> = Vec::new();
    assert_eq!(
        instance_state(&unit, &none, &none, UnitHealth::Restarting),
        "failing and being restarted"
    );
    assert_eq!(
        instance_state(&unit, &none, &none, UnitHealth::Failed),
        "failed - it starts and then stops"
    );
}

#[test]
fn instance_state_does_not_confuse_one_bot_with_another() {
    let home = "ttspotify@home.service".to_string();
    let work = "ttspotify@work.service".to_string();
    let other = std::slice::from_ref(&work);
    assert_eq!(instance_state(&home, other, other, UnitHealth::Stopped), "not running");
}

#[test]
fn the_small_words_of_the_report() {
    assert_eq!(yes_no(true), "yes");
    assert_eq!(yes_no(false), "no");
    assert_eq!(describe_services(true, true), "Spotify and YouTube");
    assert_eq!(describe_services(true, false), "Spotify only");
    assert_eq!(describe_services(false, true), "YouTube only");
    assert_eq!(describe_services(false, false), "none enabled");
}

fn hints() -> Hints {
    Hints {
        install_binary: "run: ttspotify install".to_string(),
        create_bot: "run: ttspotify add <name>".to_string(),
        sign_in_spotify: "run: ttspotify auth".to_string(),
        install_youtube_tools: "run: ttspotify yt install".to_string(),
        update_youtube_tools: "run: ttspotify yt update".to_string(),
        install_service: "run: ttspotify service install".to_string(),
    }
}

fn healthy() -> DoctorFacts {
    DoctorFacts {
        program: "ttspotify".to_string(),
        on_path: true,
        bots: vec![BotCheck {
            name: "home".to_string(),
            config_path: "/c/home.json".to_string(),
            health: UnitHealth::Running,
            services: Some(EnabledServices { spotify: true, youtube: true }),
        }],
        unusable_files: false,
        configs_dir: "/c".to_string(),
        spotify_login_cached: true,
        yt_dlp_installed: true,
        js_runtime_installed: true,
        libpulse_present: true,
        systemd_booted: true,
        systemd_reachable: true,
        unit_version: Some((6, 6)),
        linger: Some(true),
        any_enabled: true,
        linger_user: "u".to_string(),
        service_binary_missing: false,
    }
}

#[test]
fn a_healthy_install_gets_no_suggestions() {
    let fixes = doctor_fixes(&healthy(), &hints());
    assert!(fixes.is_empty(), "{fixes:?}");
    assert_eq!(next_steps(&fixes), vec!["Nothing looks wrong.".to_string()]);
}

#[test]
fn each_problem_gets_its_own_fix_in_the_order_checked() {
    let mut f = healthy();
    f.on_path = false;
    f.bots.push(BotCheck {
        name: "work".to_string(),
        config_path: "/c/work.json".to_string(),
        health: UnitHealth::Restarting,
        services: None,
    });
    f.spotify_login_cached = false;
    f.js_runtime_installed = false;
    f.libpulse_present = false;
    f.unit_version = Some((2, 6));
    f.linger = Some(false);
    let fixes = doctor_fixes(&f, &hints());
    assert_eq!(
        fixes,
        vec![
            "Put the binary on your PATH - run: ttspotify install".to_string(),
            "See why work will not stay up - run: ttspotify logs work".to_string(),
            "Repair /c/work.json by hand, or replace it: ttspotify remove work then ttspotify add work"
                .to_string(),
            "Sign in to Spotify once - run: ttspotify auth".to_string(),
            "Add the JavaScript runtime YouTube needs - run: ttspotify yt update".to_string(),
            "Install the audio library: sudo apt install libpulse0".to_string(),
            "Refresh the service file - run: ttspotify service install".to_string(),
            "Keep bots running after logout: loginctl enable-linger u".to_string(),
        ]
    );
    let steps = next_steps(&fixes);
    assert_eq!(steps[0], "Suggested next steps:");
    assert_eq!(steps[1], "  1. Put the binary on your PATH - run: ttspotify install");
    assert_eq!(steps.len(), fixes.len() + 1);
}

#[test]
fn no_bots_and_no_service_suggest_creating_one_only() {
    let mut f = healthy();
    f.bots.clear();
    f.unit_version = None;
    f.yt_dlp_installed = false;
    let fixes = doctor_fixes(&f, &hints());
    // Nobody wants Spotify or YouTube yet, and with no bots there is nothing
    // to run in the background.
    assert_eq!(fixes, vec!["Create one - run: ttspotify add <name>".to_string()]);
}

#[test]
fn an_unreachable_systemd_and_a_missing_service_binary_are_named() {
    let mut f = healthy();
    f.systemd_reachable = false;
    f.service_binary_missing = true;
    f.yt_dlp_installed = false;
    let fixes = doctor_fixes(&f, &hints());
    assert_eq!(
        fixes,
        vec![
            "Install the YouTube tools - run: ttspotify yt install".to_string(),
            "Log in properly (not with plain `su`) to manage bots as services".to_string(),
            "Point the service at this binary - run: ttspotify install".to_string(),
        ]
    );
    let mut f = healthy();
    f.systemd_booted = false;
    f.service_binary_missing = true;
    f.unusable_files = true;
    assert_eq!(
        doctor_fixes(&f, &hints()),
        vec!["Repair or delete the unusable file(s) in /c".to_string()]
    );
}
