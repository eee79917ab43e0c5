use modswitch::config_store::{load, AppConfig, LoadOutcome};

fn cfg(m: &str, g: &str, l: &str) -> AppConfig {
    AppConfig {
        mods_folder: m.to_string(),
        game_folder: g.to_string(),
        modded_launcher: l.to_string(),
    }
}

#[test]
fn render_writes_the_exact_file() {
    let c = cfg("C:\\Mods", "C:\\Games\\WW", "C:\\Tools\\launcher.exe");
    let text = c.render();
    assert_eq!(
        text,
        "mods_folder = \"C:\\\\Mods\"\ngame_folder = \"C:\\\\Games\\\\WW\"\nmodded_launcher = \"C:\\\\Tools\\\\launcher.exe\"\n"
    );
}

#[test]
fn parse_reads_the_exact_file() {
    let text = "mods_folder = \"C:\\\\Mods\"\ngame_folder = \"C:\\\\Games\\\\WW\"\nmodded_launcher = \"C:\\\\Tools\\\\launcher.exe\"\n";
    let c = AppConfig::parse(text).expect("well-formed file must parse");
    assert_eq!(c.mods_folder, "C:\\Mods");
    assert_eq!(c.game_folder, "C:\\Games\\WW");
    assert_eq!(c.modded_launcher, "C:\\Tools\\launcher.exe");
}

#[test]
fn round_trip_load_save_load() {
    let c = cfg("D:\\mod files", "D:\\Game", "D:\\Game\\mod_launcher.exe");
    let saved = c.render();
    let c2 = AppConfig::parse(saved.as_str()).expect("rendered file must parse");
    assert_eq!(c2.mods_folder, c.mods_folder);
    assert_eq!(c2.game_folder, c.game_folder);
    assert_eq!(c2.modded_launcher, c.modded_launcher);
    let saved_again = c2.render();
    assert_eq!(saved_again, saved);
}

#[test]
fn round_trip_keeps_plain_values() {
    let c = cfg("mods", "game", "launcher");
    let c2 = AppConfig::parse(c.render().as_str()).unwrap();
    assert_eq!(c2.mods_folder, "mods");
    assert_eq!(c2.game_folder, "game");
    assert_eq!(c2.modded_launcher, "launcher");
}

#[test]
fn parse_rejects_garbage() {
    assert!(AppConfig::parse("not a config at all").is_none());
    assert!(AppConfig::parse("").is_none());
}

#[test]
fn parse_rejects_truncated_file() {
    let text = "mods_folder = \"a\"\ngame_folder = \"b\"\n";
    assert!(AppConfig::parse(text).is_none());
}

#[test]
fn parse_rejects_trailing_text() {
    let text = "mods_folder = \"a\"\ngame_folder = \"b\"\nmodded_launcher = \"c\"\nextra";
    assert!(AppConfig::parse(text).is_none());
}

#[test]
fn parse_rejects_stray_backslash() {
    let text = "mods_folder = \"a\\x\"\ngame_folder = \"b\"\nmodded_launcher = \"c\"\n";
    assert!(AppConfig::parse(text).is_none());
}

#[test]
fn load_of_missing_file_reports_missing() {
    let (outcome, file_remains) = load(None);
    assert!(matches!(outcome, LoadOutcome::Missing));
    assert!(!file_remains);
}

#[test]
fn load_of_corrupt_file_deletes_it() {
    let (outcome, file_remains) = load(Some("mods_folder = broken".to_string()));
    assert!(matches!(outcome, LoadOutcome::Corrupt));
    assert!(!file_remains);
}

#[test]
fn load_of_good_file_keeps_it() {
    let text = cfg("a", "b", "c").render();
    let (outcome, file_remains) = load(Some(text));
    match outcome {
        LoadOutcome::Loaded(c) => {
            assert_eq!(c.mods_folder, "a");
            assert_eq!(c.game_folder, "b");
            assert_eq!(c.modded_launcher, "c");
        }
        _ => panic!("a rendered file must load"),
    }
    assert!(file_remains);
}
