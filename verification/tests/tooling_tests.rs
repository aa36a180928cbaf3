use ttspotify::man::{
    assemble_man_page, commands_section, man_arg_label, roff_escape, ManArg, ManCommand,
    ManSubcommand, MAN_PREAMBLE,
};
use ttspotify::postupdate::{runtime_warning, tools_lack_runtime, unit_notice, Mode, NoticeLevel};
use ttspotify::service::UnitRefresh;
use ttspotify::update::binary_name;

#[test]
fn roff_escapes_backslashes_hyphens_and_request_lines() {
    assert_eq!(roff_escape("run --config"), "run \\-\\-config");
    assert_eq!(roff_escape(r"C:\bots"), r"C:\ebots");
    assert_eq!(roff_escape(".hidden\n'quoted\nplain"), "\\&.hidden\n\\&'quoted\nplain");
    assert_eq!(roff_escape(""), "");
    assert_eq!(roff_escape("trailing\n"), "trailing");
}

#[test]
fn an_option_is_labelled_with_its_flags_and_values() {
    let path = vec!["PATH".to_string()];
    assert_eq!(
        man_arg_label(Some('c'), Some("config"), true, Some(&path), "config"),
        "-c, --config <PATH>"
    );
    // A switch reports a value name but takes no value.
    let purge = vec!["PURGE".to_string()];
    assert_eq!(man_arg_label(None, Some("purge"), false, Some(&purge), "purge"), "--purge");
    let name = vec!["NAME".to_string()];
    assert_eq!(man_arg_label(None, None, true, Some(&name), "name"), "<NAME>");
    assert_eq!(man_arg_label(None, None, false, None, "shell"), "<shell>");
    let two = vec!["A".to_string(), "B".to_string()];
    assert_eq!(man_arg_label(Some('x'), None, true, Some(&two), "x"), "-x <A> <B>");
}

fn arg(long: &str, help: Option<&str>, hidden: bool) -> ManArg {
    ManArg {
        short: None,
        long: Some(long.to_string()),
        takes_values: false,
        value_names: None,
        id: long.to_string(),
        help: help.map(str::to_string),
        hidden,
    }
}

#[test]
fn the_commands_section_spells_out_every_shown_command() {
    let commands = vec![
        ManCommand {
            name: "uninstall".to_string(),
            about: Some("Remove the binary".to_string()),
            hidden: false,
            args: vec![arg("purge", Some("Also ask about configs"), false), arg("secret", None, true)],
            children: vec![],
        },
        ManCommand {
            name: "post-update".to_string(),
            about: None,
            hidden: true,
            args: vec![],
            children: vec![],
        },
        ManCommand {
            name: "service".to_string(),
            about: None,
            hidden: false,
            args: vec![],
            children: vec![ManSubcommand {
                name: "install".to_string(),
                about: Some("Install the unit".to_string()),
                hidden: false,
            }],
        },
    ];
    assert_eq!(
        commands_section(&commands).unwrap(),
        ".SH COMMANDS\n\
         .SS uninstall\nRemove the binary\n.TP\n\\fB\\-\\-purge\\fR\nAlso ask about configs\n\
         .SS service\n.TP\n\\fBservice install\\fR\nInstall the unit\n"
    );
    let hidden_only = vec![commands[1].clone()];
    assert_eq!(commands_section(&hidden_only), None);
    assert_eq!(commands_section(&[]), None);
}

#[test]
fn the_page_keeps_the_preamble_only_from_its_first_section() {
    let first = format!("{MAN_PREAMBLE}.TH T 1\n");
    let second = format!("{MAN_PREAMBLE}.SH NAME\n");
    let page = assemble_man_page(&[first.clone(), second, ".SH VERSION\n".to_string()]);
    assert_eq!(page, format!("{first}.SH NAME\n.SH VERSION\n"));
    assert_eq!(page.matches(".ds Aq").count(), 2);
    assert_eq!(assemble_man_page(&[]), "");
}

#[test]
fn a_refreshed_unit_is_printed_in_a_terminal_and_logged_at_startup() {
    let refreshed = UnitRefresh::Refreshed(2);
    let (level, text) = unit_notice(Mode::Interactive, &refreshed, "run: ttspotify service install")
        .unwrap();
    assert_eq!(level, NoticeLevel::Print);
    assert_eq!(
        text,
        "Service file updated (was version 2). It takes effect the next time each bot restarts; \
         the previous file is kept as ttspotify@.service.bak."
    );
    let (level, _) = unit_notice(Mode::Startup, &refreshed, "x").unwrap();
    assert_eq!(level, NoticeLevel::Info);
}

#[test]
fn a_failed_refresh_says_how_to_do_it_by_hand() {
    let failed = UnitRefresh::Failed("read-only file system".to_string());
    let (level, text) = unit_notice(Mode::Startup, &failed, "run: ttspotify service install").unwrap();
    assert_eq!(level, NoticeLevel::Warn);
    assert_eq!(
        text,
        "Your systemd service file is from an older release and could not be updated \
         automatically (read-only file system). To refresh it, run: ttspotify service install"
    );
    assert_eq!(unit_notice(Mode::Startup, &UnitRefresh::Current, "x"), None);
    assert_eq!(unit_notice(Mode::Interactive, &UnitRefresh::NotInstalled, "x"), None);
}

#[test]
fn only_yt_dlp_without_a_runtime_needs_the_tools_updated() {
    assert!(tools_lack_runtime(true, false));
    assert!(!tools_lack_runtime(true, true));
    assert!(!tools_lack_runtime(false, false));
    assert!(runtime_warning("run: ttspotify yt update").ends_with("To fix it, run: ttspotify yt update"));
}

#[test]
fn the_archive_names_the_binary_per_platform() {
    assert_eq!(binary_name(true), "tt-spotify-bot.exe");
    assert_eq!(binary_name(false), "tt-spotify-bot");
}
