use schwimark::cli::{add_tag, confirmation_from_words, parse_confirmation, parse_update_menu, Confirmation, UpdateField};
use schwimark::config::{Config, ConfigError};

fn s(x: &str) -> String {
    x.to_string()
}

#[test]
fn update_menu_letters() {
    assert_eq!(parse_update_menu("nu\n"), vec![UpdateField::Name, UpdateField::Url]);
    assert_eq!(
        parse_update_menu("d a+-x"),
        vec![UpdateField::Description, UpdateField::Application, UpdateField::AddTags, UpdateField::RemoveTags]
    );
    assert!(parse_update_menu("").is_empty());
}

#[test]
fn clear_confirmation() {
    assert_eq!(parse_confirmation("y"), Confirmation::Yes);
    assert_eq!(parse_confirmation(" Y \n"), Confirmation::Yes);
    assert_eq!(parse_confirmation("n"), Confirmation::No);
    assert_eq!(parse_confirmation("N"), Confirmation::No);
    assert_eq!(parse_confirmation("yes"), Confirmation::Again);
    assert_eq!(parse_confirmation("y n"), Confirmation::Again);
    assert_eq!(parse_confirmation(""), Confirmation::Again);
    assert_eq!(parse_confirmation("'y"), Confirmation::Again);
    assert_eq!(parse_confirmation("'y'"), Confirmation::Yes);
    assert_eq!(confirmation_from_words(None), Confirmation::Again);
}

#[test]
fn entered_tags_are_deduplicated() {
    let mut tags = vec![];
    assert!(add_tag(&mut tags, s("a")));
    assert!(add_tag(&mut tags, s("b")));
    assert!(!add_tag(&mut tags, s("a")));
    assert_eq!(tags, vec![s("a"), s("b")]);
}

#[test]
fn config_defaults() {
    let c = Config::new(s("/c/config.toml"), s("/d/schwimark.db"));
    assert_eq!(c.config_file, "/c/config.toml");
    assert_eq!(c.database_file, "/d/schwimark.db");
    assert_eq!(c.dmenu_command, "dmenu");
    assert_eq!(c.dmenu_mark_search_args, "");
    assert_eq!(c.dmenu_tag_search_args, "");
}

#[test]
fn config_command_line_overrides_file() {
    let mut c = Config::new(s("/c/config.toml"), s("/d/default.db"));
    let mut file = Config::new(s(""), s("/f/file.db"));
    file.dmenu_command = s("rofi -dmenu");
    file.dmenu_tag_search_args = s("-p tag");
    let r = c.load_config(&file, None, Some(s("fzf")), Some(s("-m")), None);
    assert_eq!(r, Ok(()));
    assert_eq!(c.config_file, "/c/config.toml");
    assert_eq!(c.database_file, "/f/file.db");
    assert_eq!(c.dmenu_command, "fzf");
    assert_eq!(c.dmenu_mark_search_args, "-m");
    assert_eq!(c.dmenu_tag_search_args, "-p tag");
}

#[test]
fn config_refuses_empty_database_path() {
    let mut c = Config::new(s("/c/config.toml"), s("/d/default.db"));
    let file = Config::new(s(""), s("/f/file.db"));
    assert_eq!(c.load_config(&file, Some(s("")), Some(s("x")), None, None), Err(ConfigError::EmptyDatabasePath));
    assert_eq!(c.database_file, "/d/default.db");
    assert_eq!(c.dmenu_command, "dmenu");
}
