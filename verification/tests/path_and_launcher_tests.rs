use file_tree::launcher::{Legendary, LegendaryGameInfo};
use file_tree::order::{str_eqx, str_lt};
use file_tree::path_key::PathKey;

fn strings(items: &[&str]) -> Vec<String> {
    items.iter().map(|s| s.to_string()).collect()
}

#[test]
fn path_key_splits_and_drops_empty_segments() {
    let key = PathKey::from_display_path("save//sub/file.dat", '/').unwrap();
    assert_eq!(key.segments, strings(&["save", "sub", "file.dat"]));
}

#[test]
fn path_key_rejects_empty_input() {
    assert!(PathKey::from_display_path("", '/').is_err());
    assert!(PathKey::from_display_path("///", '/').is_err());
}

#[test]
fn path_key_keeps_single_segment() {
    let key = PathKey::from_display_path("file.dat", '/').unwrap();
    assert_eq!(key.segments, strings(&["file.dat"]));
}

#[test]
fn path_key_splits_registry_separator() {
    let key = PathKey::from_display_path("HKEY_CURRENT_USER\\Software\\Game", '\\').unwrap();
    assert_eq!(key.segments, strings(&["HKEY_CURRENT_USER", "Software", "Game"]));
}

#[test]
fn segment_order_is_lexicographic() {
    assert!(str_lt("alpha", "beta"));
    assert!(!str_lt("beta", "alpha"));
    assert!(!str_lt("alpha", "alpha"));
    assert!(str_lt("alp", "alpha"));
    assert!(str_lt("Zeta", "alpha"));
}

#[test]
fn string_equality_is_by_content() {
    assert!(str_eqx("same", "same"));
    assert!(!str_eqx("same", "sam"));
    assert!(!str_eqx("", "a"));
    assert!(str_eqx("", ""));
}

#[test]
fn parse_command_finds_launcher_and_game_id() {
    let commands = strings(&["wine", "/usr/bin/legendary", "launch", "gameid", "--opt"]);
    let parsed = Legendary::parse_command(&commands);
    assert_eq!(
        parsed,
        Some(("/usr/bin/legendary".to_string(), "gameid".to_string()))
    );
}

#[test]
fn parse_command_without_launcher_is_none() {
    let commands = strings(&["wine", "game.exe"]);
    assert_eq!(Legendary::parse_command(&commands), None);
}

#[test]
fn parse_command_without_launch_verb_is_none() {
    let commands = strings(&["/usr/bin/legendary", "list-installed"]);
    assert_eq!(Legendary::parse_command(&commands), None);
}

#[test]
fn parse_command_without_game_id_is_none() {
    let commands = strings(&["/usr/bin/legendary", "launch"]);
    assert_eq!(Legendary::parse_command(&commands), None);
}

#[test]
fn find_title_picks_matching_game() {
    let games = vec![
        LegendaryGameInfo {
            app_name: "alpha".to_string(),
            title: "Alpha Adventures".to_string(),
        },
        LegendaryGameInfo {
            app_name: "beta".to_string(),
            title: "Beta Blast".to_string(),
        },
    ];
    assert_eq!(
        Legendary::find_title(&games, "beta"),
        Some("Beta Blast".to_string())
    );
    assert_eq!(Legendary::find_title(&games, "gamma"), None);
}
