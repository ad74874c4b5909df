use wordcount::counter::process;
use wordcount::format::display;
use wordcount::options::{parse_args, Config, Diag};

fn args_of(raw: &[&str]) -> Vec<Vec<char>> {
    raw.iter().map(|a| a.chars().collect()).collect()
}

#[test]
fn config_new_enables_nothing() {
    let c = Config::new();
    assert!(!c.bytes && !c.lines && !c.chars && !c.words);
}

#[test]
fn config_default_enables_bytes_lines_words() {
    let mut c = Config::new();
    c.default();
    assert!(c.bytes && c.lines && c.words);
    assert!(!c.chars);
}

#[test]
fn no_flags_no_files_gives_default_selection() {
    let p = parse_args(&args_of(&[]));
    assert!(p.config.bytes && p.config.lines && p.config.words);
    assert!(!p.config.chars);
    assert_eq!(p.files_start, None);
    assert!(p.diags.is_empty());
}

#[test]
fn no_flags_with_files_gives_default_selection() {
    let p = parse_args(&args_of(&["foo.txt", "bar.txt"]));
    assert!(p.config.bytes && p.config.lines && p.config.words);
    assert!(!p.config.chars);
    assert_eq!(p.files_start, Some(0));
}

#[test]
fn single_flag_enables_only_that_field() {
    let p = parse_args(&args_of(&["-l"]));
    assert!(p.config.lines);
    assert!(!p.config.bytes && !p.config.words && !p.config.chars);
    assert_eq!(p.files_start, None);
}

#[test]
fn line_flag_on_two_line_input() {
    let p = parse_args(&args_of(&["-l"]));
    let o = process(b"a b\nc\n", None);
    assert_eq!(o.lines, 2);
    assert_eq!(display(&p.config, &o), "       2");
}

#[test]
fn separate_flag_arguments_accumulate() {
    let p = parse_args(&args_of(&["-l", "-w"]));
    assert!(p.config.lines && p.config.words);
    assert!(!p.config.bytes && !p.config.chars);
    assert_eq!(p.files_start, None);
}

#[test]
fn combined_letters_in_one_token() {
    let p = parse_args(&args_of(&["-lwc"]));
    assert!(p.config.lines && p.config.words && p.config.bytes);
    assert!(!p.config.chars);
}

#[test]
fn unknown_letter_yields_diagnostic_only() {
    let p = parse_args(&args_of(&["-x"]));
    assert_eq!(p.diags, vec![Diag::Unsupported('x')]);
    assert!(!p.config.bytes && !p.config.lines && !p.config.chars && !p.config.words);
    assert_eq!(p.files_start, None);
}

#[test]
fn chars_flag_is_accepted_with_stub_notice() {
    let p = parse_args(&args_of(&["-m"]));
    assert!(p.config.chars);
    assert!(!p.config.bytes && !p.config.lines && !p.config.words);
    assert_eq!(p.diags, vec![Diag::CharsUnimplemented]);
}

#[test]
fn diagnostics_keep_scan_order() {
    let p = parse_args(&args_of(&["-xm", "-y"]));
    assert_eq!(
        p.diags,
        vec![
            Diag::Unsupported('x'),
            Diag::CharsUnimplemented,
            Diag::Unsupported('y'),
        ]
    );
}

#[test]
fn lone_dash_is_a_flag_argument_with_no_letters() {
    let p = parse_args(&args_of(&["-"]));
    assert!(!p.config.bytes && !p.config.lines && !p.config.chars && !p.config.words);
    assert_eq!(p.files_start, None);
    assert!(p.diags.is_empty());
}

#[test]
fn empty_argument_starts_the_file_list() {
    let p = parse_args(&args_of(&[""]));
    assert_eq!(p.files_start, Some(0));
    assert!(p.config.bytes && p.config.lines && p.config.words);
}

#[test]
fn scan_stops_at_first_non_flag_argument() {
    let p = parse_args(&args_of(&["a.txt", "-l"]));
    assert_eq!(p.files_start, Some(0));
    assert!(p.config.bytes && p.config.lines && p.config.words);
    assert!(!p.config.chars);
}

#[test]
fn flags_before_files_are_honored() {
    let p = parse_args(&args_of(&["-w", "a.txt", "b.txt"]));
    assert!(p.config.words);
    assert!(!p.config.bytes && !p.config.lines && !p.config.chars);
    assert_eq!(p.files_start, Some(1));
}
