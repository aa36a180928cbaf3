use ttspotify::config::{AdminMode, EnabledServices};
use ttspotify::editor::{
    admin_mode_from_word, admin_mode_word, answer_bool, answer_choice, answer_number,
    answer_secret, edit_target, menu_action, parse_answer, pick_named, secret_shown, EditTarget, MenuAction, services_from_word, services_word, GENDERS, NORM_METHODS,
    NORM_TYPES, QUALITIES,
};

#[test]
fn empty_answers_keep_what_is_already_there() {
    assert_eq!(answer_bool("", true), Some(true));
    assert_eq!(answer_bool("  \n", false), Some(false));
    assert_eq!(answer_choice("", &QUALITIES, "HIGH").as_deref(), Some("HIGH"));
    assert_eq!(answer_number("", 42u8), Some(42));
}

#[test]
fn yes_and_no_are_read_in_the_forms_people_type() {
    for yes in ["y", "Y", "yes", "on", "true"] {
        assert_eq!(answer_bool(yes, false), Some(true), "{yes}");
    }
    for no in ["n", "NO", "off", "false"] {
        assert_eq!(answer_bool(no, true), Some(false), "{no}");
    }
    assert_eq!(answer_bool("maybe", true), None);
}

#[test]
fn a_choice_can_be_its_number_or_its_name() {
    assert_eq!(answer_choice("1", &QUALITIES, "HIGH").as_deref(), Some("VERY_HIGH"));
    assert_eq!(answer_choice("normal", &QUALITIES, "HIGH").as_deref(), Some("NORMAL"));
    assert_eq!(answer_choice("Album", &NORM_TYPES, "auto").as_deref(), Some("album"));
}

#[test]
fn an_invalid_choice_is_refused_rather_than_written_to_the_config() {
    assert_eq!(answer_choice("9", &QUALITIES, "HIGH"), None);
    assert_eq!(answer_choice("0", &QUALITIES, "HIGH"), None);
    assert_eq!(answer_choice("LOSSLESS", &QUALITIES, "HIGH"), None);
}

#[test]
fn numbers_are_parsed_in_the_type_the_field_uses() {
    assert_eq!(answer_number("200", 100u8), Some(200));
    assert_eq!(answer_number::<u8>("300", 100), None);
    assert_eq!(answer_number("1.5", 0.25f32), Some(1.5));
    assert_eq!(answer_number::<u32>("abc", 5), None);
}

#[test]
fn the_offered_lists_are_the_editor_s() {
    assert_eq!(GENDERS, ["neutral", "male", "female"]);
    assert_eq!(NORM_METHODS, ["dynamic", "basic"]);
    assert_eq!(answer_choice("2", &NORM_METHODS, "dynamic").as_deref(), Some("basic"));
    assert_eq!(answer_choice(" FEMALE ", &GENDERS, "neutral").as_deref(), Some("female"));
}

#[test]
fn a_password_answer_keeps_clears_or_replaces() {
    assert_eq!(answer_secret("", "hunter2"), "hunter2");
    assert_eq!(answer_secret("  -  ", "hunter2"), "");
    assert_eq!(answer_secret(" new pass ", "hunter2"), "new pass");
    assert_eq!(secret_shown(""), "none set");
    assert_eq!(secret_shown("x"), "unchanged");
}

#[test]
fn admin_modes_and_services_have_editor_words_that_read_back() {
    for mode in [AdminMode::Everyone, AdminMode::TtRights, AdminMode::List, AdminMode::Both] {
        assert_eq!(admin_mode_from_word(admin_mode_word(mode)), mode);
    }
    assert_eq!(admin_mode_from_word("whatever"), AdminMode::Both);
    for e in [
        EnabledServices { spotify: true, youtube: false },
        EnabledServices { spotify: false, youtube: true },
        EnabledServices { spotify: true, youtube: true },
    ] {
        assert_eq!(services_from_word(services_word(e)), e);
    }
}

#[test]
fn a_number_answer_is_the_trimmed_text_read_by_its_type() {
    assert_eq!(parse_answer::<u8>("200"), Some(200));
    assert_eq!(parse_answer::<u8>("300"), None);
    assert_eq!(parse_answer::<i32>("-4"), Some(-4));
    assert_eq!(answer_number("  17 \n", 3u16), Some(17));
    assert_eq!(answer_number::<i32>(" 1 2 ", 3), None);
}

#[test]
fn the_menu_reads_its_numbers_and_nothing_else() {
    assert_eq!(menu_action(" 1 "), MenuAction::Server);
    assert_eq!(menu_action("4"), MenuAction::Services);
    assert_eq!(menu_action("7"), MenuAction::SaveAndQuit);
    assert_eq!(menu_action("8"), MenuAction::QuitWithoutSaving);
    assert_eq!(menu_action("  "), MenuAction::Nothing);
    assert_eq!(menu_action("9"), MenuAction::Unknown);
    assert_eq!(menu_action("save"), MenuAction::Unknown);
}

#[test]
fn editing_by_name_finds_the_config_or_lists_the_ones_there_are() {
    let names = vec!["home".to_string(), "work".to_string()];
    assert_eq!(pick_named(&names, "work"), Ok(1));
    assert_eq!(
        pick_named(&names, "Work"),
        Err("No config named \"Work\". Available: home, work.".to_string())
    );
    assert_eq!(pick_named(&[], "x"), Err("No config named \"x\". Available: .".to_string()));
}

#[test]
fn a_typed_option_picks_the_first_that_matches_ignoring_case() {
    assert_eq!(answer_choice("high", &["HIGH", "high"], "NORMAL").as_deref(), Some("HIGH"));
}

#[test]
fn edit_refuses_when_there_are_no_configs_whatever_the_name() {
    assert_eq!(edit_target(&[], None), EditTarget::NoConfigs);
    assert_eq!(edit_target(&[], Some("home")), EditTarget::NoConfigs);
    let names = vec!["home".to_string(), "work".to_string()];
    assert_eq!(edit_target(&names, None), EditTarget::Ask);
    assert_eq!(edit_target(&names, Some("work")), EditTarget::Open(1));
    assert_eq!(
        edit_target(&names, Some("play")),
        EditTarget::Unknown("No config named \"play\". Available: home, work.".to_string())
    );
}
