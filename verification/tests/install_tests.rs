use ttspotify::install::{
    candidate_dirs, destination, find_existing, is_cargo_build, known_names, path_lists_dir,
    runs_from_install_dir, same_dir, search_dirs, tools_root,
};

/// The candidate directories with nothing resolved on disk, so each is
/// compared as written.
fn unresolved(path_env: &str, home: &str) -> Vec<String> {
    let found: Vec<(String, Option<String>)> =
        search_dirs(path_env, home).into_iter().map(|d| (d, None)).collect();
    candidate_dirs(&found)
}

#[test]
fn known_names_cover_both_shipped_names_without_repeating_them() {
    assert_eq!(
        known_names("ttspotify"),
        vec!["ttspotify".to_string(), "tt-spotify-bot".to_string()]
    );
    assert_eq!(
        known_names("ttbot"),
        vec!["ttspotify".to_string(), "tt-spotify-bot".to_string(), "ttbot".to_string()]
    );
}

#[test]
fn candidate_dirs_keep_path_order_and_add_the_usual_places() {
    let dirs = unresolved("/usr/bin:/opt/x", "/home/u");
    assert_eq!(dirs[0], "/usr/bin");
    assert_eq!(dirs[1], "/opt/x");
    assert!(dirs.contains(&"/usr/local/bin".to_string()));
    assert!(dirs.contains(&"/home/u/.local/bin".to_string()));
    assert_eq!(dirs.iter().filter(|d| *d == "/usr/bin").count(), 1);
}

#[test]
fn candidate_dirs_ignores_empty_path_entries() {
    let dirs = unresolved("/usr/bin::", "/home/u");
    assert!(!dirs.iter().any(|d| d.is_empty()));
}

#[test]
fn a_relative_path_entry_is_not_an_install_directory() {
    let dirs = unresolved(".:/usr/bin:relative/bin", "/home/u");
    assert!(!dirs.iter().any(|d| d == "."));
    assert!(!dirs.iter().any(|d| d == "relative/bin"));
    assert!(dirs.iter().any(|d| d == "/usr/bin"));
}

#[test]
fn one_directory_behind_a_symlink_is_searched_once() {
    let found = vec![
        ("/usr/bin".to_string(), Some("/usr/bin".to_string())),
        ("/bin".to_string(), Some("/usr/bin".to_string())),
        ("/usr/bin/".to_string(), None),
        ("".to_string(), None),
        ("/opt/x".to_string(), None),
    ];
    assert_eq!(candidate_dirs(&found), vec!["/usr/bin".to_string(), "/opt/x".to_string()]);
    assert!(same_dir("/bin", "/usr/bin", Some("/usr/bin"), Some("/usr/bin")));
    assert!(!same_dir("/bin", "/usr/bin", None, Some("/usr/bin")));
    assert!(same_dir("/usr//bin/", "/usr/bin", None, None));
}

#[test]
fn path_membership_is_exact_not_substring() {
    assert!(path_lists_dir("/usr/bin:/home/u/.local/bin", "/home/u/.local/bin"));
    assert!(!path_lists_dir("/usr/bin", "/usr/bin/extra"));
    assert!(!path_lists_dir("/usr/binary", "/usr/bin"));
    assert!(!path_lists_dir("", "/usr/bin"));
}

#[test]
fn purge_never_offers_the_directory_the_binary_lives_in() {
    assert_eq!(tools_root("/home/u/.local/bin/lib"), "/home/u/.local/bin/lib");
    assert_eq!(tools_root("/home/u/.local/share/ttspotify/lib"), "/home/u/.local/share/ttspotify");
}

#[test]
fn a_cargo_build_is_never_offered_an_install() {
    assert!(is_cargo_build("/home/u/src/bot/target/debug/tt-spotify-bot"));
    assert!(is_cargo_build("/home/u/src/bot/target/release/tt-spotify-bot"));
    assert!(!is_cargo_build("/usr/local/bin/ttspotify"));
    assert!(!is_cargo_build("/home/u/.local/bin/ttspotify"));
    assert!(!is_cargo_build("/opt/debug/ttspotify"));
}

#[test]
fn running_from_an_install_directory_counts_as_installed() {
    let dirs = vec!["/usr/local/bin".to_string(), "/home/u/.local/bin".to_string()];
    assert!(runs_from_install_dir("/usr/local/bin/ttspotify", &dirs));
    assert!(!runs_from_install_dir("/home/u/Downloads/tt-spotify-bot", &dirs));
}

#[test]
fn destination_replaces_an_existing_install_before_inventing_a_new_one() {
    assert_eq!(
        destination(&["/usr/local/bin/ttspotify".to_string()], "/home/u"),
        "/usr/local/bin/ttspotify"
    );
    assert_eq!(destination(&[], "/home/u"), "/home/u/.local/bin/ttspotify");
}

fn file(path: &str, target: Option<&str>) -> (String, Option<String>) {
    (path.to_string(), target.map(|t| t.to_string()))
}

#[test]
fn two_spellings_of_one_installed_file_are_one_install() {
    let files = vec![
        file("/usr/bin/ttspotify", Some("/usr/bin/ttspotify")),
        file("/bin/ttspotify", Some("/usr/bin/ttspotify")),
        file("/home/u/.local/bin/tt-spotify-bot", Some("/home/u/.local/bin/tt-spotify-bot")),
    ];
    assert_eq!(
        find_existing(&files, None),
        vec!["/usr/bin/ttspotify".to_string(), "/home/u/.local/bin/tt-spotify-bot".to_string()]
    );
}

#[test]
fn the_running_copy_is_the_source_and_not_a_rival_install() {
    let files = vec![
        file("/home/u/.local/bin/ttspotify", Some("/home/u/.local/bin/ttspotify")),
        file("/usr/local/bin/ttspotify", Some("/opt/tt/ttspotify")),
    ];
    let running = file("/home/u/./.local/bin/ttspotify", Some("/home/u/.local/bin/ttspotify"));
    assert_eq!(find_existing(&files, Some(&running)), vec!["/usr/local/bin/ttspotify".to_string()]);
    // A file that does not resolve is compared as written.
    let unresolved = vec![file("/usr/bin/ttspotify", None), file("/usr/bin//ttspotify", None)];
    assert_eq!(find_existing(&unresolved, None), vec!["/usr/bin/ttspotify".to_string()]);
    assert!(find_existing(&[], None).is_empty());
}
