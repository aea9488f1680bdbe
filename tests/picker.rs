use schwimark::config::Config;
use schwimark::mark::MarkShort;
use schwimark::picker::{
    build_invocation, candidate_line, mark_candidates, parse_mark_selection, parse_tag_selection,
    picker_command, picker_input, PickerError, SearchKind,
};
use schwimark::text::{decimal_string, parse_i64};

fn s(x: &str) -> String {
    x.to_string()
}

#[test]
fn empty_candidates_launch_nothing() {
    assert_eq!(picker_input(&vec![]), None);
}

#[test]
fn candidates_are_joined_by_newlines() {
    assert_eq!(picker_input(&vec![s("1\ta"), s("2\tb")]), Some(s("1\ta\n2\tb")));
    assert_eq!(picker_input(&vec![s("only")]), Some(s("only")));
}

#[test]
fn candidate_line_has_id_name_and_tags() {
    assert_eq!(candidate_line(12, &s("repo"), &vec![s("dev"), s("web")]), "12\trepo\tdev\tweb");
    assert_eq!(candidate_line(3, &s("x"), &vec![]), "3\tx");
    let shorts = vec![MarkShort { id: 7, name: s("n"), tags: vec![s("t")] }];
    assert_eq!(mark_candidates(&shorts), vec![s("7\tn\tt")]);
}

#[test]
fn decimal_text() {
    assert_eq!(decimal_string(0), "0");
    assert_eq!(decimal_string(1090), "1090");
    assert_eq!(decimal_string(-42), "-42");
    assert_eq!(decimal_string(i64::MIN), "-9223372036854775808");
    assert_eq!(decimal_string(i64::MAX), "9223372036854775807");
}

#[test]
fn integer_parsing() {
    assert_eq!(parse_i64("17"), Some(17));
    assert_eq!(parse_i64("+17"), Some(17));
    assert_eq!(parse_i64("-17"), Some(-17));
    assert_eq!(parse_i64("-9223372036854775808"), Some(i64::MIN));
    assert_eq!(parse_i64("9223372036854775808"), None);
    assert_eq!(parse_i64("99999999999999999999999"), None);
    assert_eq!(parse_i64("1a"), None);
    assert_eq!(parse_i64("-"), None);
    assert_eq!(parse_i64(""), None);
}

#[test]
fn mark_selection_reads_leading_id() {
    assert_eq!(parse_mark_selection("12\trepo\tdev\n"), Ok(Some(12)));
    assert_eq!(parse_mark_selection("  5 x"), Ok(Some(5)));
    assert_eq!(parse_mark_selection(""), Ok(None));
    assert_eq!(parse_mark_selection(" \n"), Ok(None));
    assert_eq!(parse_mark_selection("repo\t1"), Err(PickerError::MalformedSelection));
    assert_eq!(parse_mark_selection("99999999999999999999"), Err(PickerError::MalformedSelection));
}

#[test]
fn tag_selection_drops_final_newline() {
    assert_eq!(parse_tag_selection("dev\n"), Some(s("dev")));
    assert_eq!(parse_tag_selection("dev"), Some(s("dev")));
    assert_eq!(parse_tag_selection("\n"), None);
    assert_eq!(parse_tag_selection(""), None);
}

#[test]
fn picker_command_appends_search_arguments() {
    let mut config = Config::new(s("c.toml"), s("d.db"));
    config.dmenu_command = s("dmenu -i -l '20'");
    config.dmenu_mark_search_args = s("-p \"pick a mark\"");
    config.dmenu_tag_search_args = s("-p tag");
    let c = picker_command(&config, SearchKind::Marks).unwrap();
    assert_eq!(c.program, "dmenu");
    assert_eq!(c.args, vec![s("-i"), s("-l"), s("20"), s("-p"), s("pick a mark")]);
    let t = picker_command(&config, SearchKind::Tags).unwrap();
    assert_eq!(t.args, vec![s("-i"), s("-l"), s("20"), s("-p"), s("tag")]);
}

#[test]
fn picker_command_errors() {
    let mut config = Config::new(s("c.toml"), s("d.db"));
    config.dmenu_command = s("dmenu 'unclosed");
    assert_eq!(picker_command(&config, SearchKind::Marks).err(), Some(PickerError::InvalidQuoting));
    config.dmenu_command = s("");
    assert_eq!(picker_command(&config, SearchKind::Marks).err(), Some(PickerError::EmptyCommand));
    config.dmenu_command = s("rofi -dmenu");
    config.dmenu_tag_search_args = s("\"x");
    assert_eq!(picker_command(&config, SearchKind::Tags).err(), Some(PickerError::InvalidQuoting));
    let default = Config::new(s("c.toml"), s("d.db"));
    let c = picker_command(&default, SearchKind::Marks).unwrap();
    assert_eq!(c.program, "dmenu");
    assert!(c.args.is_empty());
}

#[test]
fn build_invocation_from_words() {
    let c = build_invocation(Some(vec![s("fzf"), s("-m")]), Some(vec![s("--x")])).unwrap();
    assert_eq!(c.program, "fzf");
    assert_eq!(c.args, vec![s("-m"), s("--x")]);
    assert_eq!(build_invocation(Some(vec![]), Some(vec![])).err(), Some(PickerError::EmptyCommand));
    assert_eq!(build_invocation(None, Some(vec![])).err(), Some(PickerError::InvalidQuoting));
}
