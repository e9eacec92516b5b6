use minigrep::grep_directory;
use minigrep::grep_file_list;
use minigrep::grep_stream;
use minigrep::matcher::Matcher;
use minigrep::output::FileData;

fn lines_of(text: &str) -> Vec<Vec<u8>> {
    let mut out: Vec<Vec<u8>> = Vec::new();
    for line in text.lines() {
        out.push(line.as_bytes().to_vec());
    }
    out
}

fn file_of(label: &str, text: &str) -> FileData {
    FileData { label: label.to_string(), lines: lines_of(text) }
}

const INPUT: &str = "foo bar\nbar baz\nbar baz FOO\nfoo baz";

#[test]
fn grep_match_ending_case_insensitive() {
    let m = Matcher::compile("foo$", true).unwrap();
    let out = grep_stream(&m, &lines_of(INPUT), false, false);
    assert_eq!("bar baz FOO\n", String::from_utf8(out).expect("Not UTF-8"));
}

#[test]
fn grep_match_ending_case_insensitive_with_color() {
    colored::control::set_override(true);
    let m = Matcher::compile("foo$", true).unwrap();
    let out = grep_stream(&m, &lines_of(INPUT), false, true);
    assert_eq!(
        "bar baz \u{1b}[1;31mFOO\u{1b}[0m\n",
        String::from_utf8(out).expect("Not UTF-8")
    );
}

#[test]
fn grep_match_multiple_lines() {
    let m = Matcher::compile("foo", false).unwrap();
    let out = grep_stream(&m, &lines_of(INPUT), false, false);
    assert_eq!("foo bar\nfoo baz\n", String::from_utf8(out).expect("Not UTF-8"));
}

#[test]
fn grep_match_case_sensitive() {
    let m = Matcher::compile("FOO", false).unwrap();
    let out = grep_stream(&m, &lines_of(INPUT), false, false);
    assert_eq!("bar baz FOO\n", String::from_utf8(out).expect("Not UTF-8"));
}

#[test]
fn grep_match_multiple_lines_with_linenumbers() {
    let m = Matcher::compile("foo", false).unwrap();
    let out = grep_stream(&m, &lines_of(INPUT), true, false);
    assert_eq!("1:foo bar\n4:foo baz\n", String::from_utf8(out).expect("Not UTF-8"));
}

#[test]
fn test_tmp_dir_recursive() {
    let files = vec![
        file_of("foo.txt", "bar baz\nfoo bar\nbaz Foo"),
        file_of("bar.txt", "bar baz\nbaz bar\nfoo foo FOO"),
        file_of("baz.txt", "bar baz\n"),
    ];
    let m = Matcher::compile("foo", true).unwrap();
    let out = grep_directory(&m, &files, false, false, false);
    let actual = String::from_utf8(out).expect("Not UTF-8");
    let expected = "foo bar\nbaz Foo\nfoo foo FOO\n\n";
    assert_eq!(expected, actual);
}

#[test]
fn test_tmp_files_with_names_no_color() {
    colored::control::set_override(true);
    let filename = "poem.txt";
    let files = vec![file_of(
        filename,
        "I'm nobody! Who are you?\nAre you nobody, too?\nThen there's a pair of us - don't tell!\nThey'd banish us, you know.\nHow dreary to be somebody!\nHow public, like a frog\nTo tell your name the livelong day\nTo an admiring bog!\n",
    )];
    let m = Matcher::compile("nobody", true).unwrap();
    let out = grep_file_list(&m, &files, true, true, false);
    let actual = String::from_utf8(out).expect("Not UTF-8");
    let expected = format!(
        "\u{1b}[35m{}\u{1b}[0m\n1:I'm nobody! Who are you?\n2:Are you nobody, too?\n\n",
        filename
    );
    assert_eq!(expected, actual);
}

#[test]
fn file_list_prints_header_even_with_zero_matches() {
    colored::control::set_override(true);
    let files = vec![file_of("a.txt", "bar baz"), file_of("b.txt", "foo")];
    let m = Matcher::compile("foo", false).unwrap();
    let out = grep_file_list(&m, &files, true, false, false);
    let actual = String::from_utf8(out).expect("Not UTF-8");
    let expected = "\u{1b}[35ma.txt\u{1b}[0m\n\n\u{1b}[35mb.txt\u{1b}[0m\nfoo\n\n";
    assert_eq!(expected, actual);
}

#[test]
fn file_list_separator_after_every_file_without_labels() {
    let files = vec![file_of("a.txt", "bar baz"), file_of("b.txt", "foo")];
    let m = Matcher::compile("foo", false).unwrap();
    let out = grep_file_list(&m, &files, false, false, false);
    let actual = String::from_utf8(out).expect("Not UTF-8");
    assert_eq!("\nfoo\n\n", actual);
}

#[test]
fn directory_header_only_for_files_with_matches() {
    colored::control::set_override(true);
    let files = vec![file_of("a.txt", "bar baz"), file_of("b.txt", "foo")];
    let m = Matcher::compile("foo", false).unwrap();
    let out = grep_directory(&m, &files, true, false, false);
    let actual = String::from_utf8(out).expect("Not UTF-8");
    let expected = "\u{1b}[35mb.txt\u{1b}[0m\nfoo\n\n";
    assert_eq!(expected, actual);
}

#[test]
fn directory_without_matches_still_ends_with_one_separator() {
    let files = vec![file_of("a.txt", "bar baz"), file_of("b.txt", "baz bar")];
    let m = Matcher::compile("foo", false).unwrap();
    let out = grep_directory(&m, &files, false, false, false);
    assert_eq!("\n", String::from_utf8(out).expect("Not UTF-8"));
}

#[test]
fn line_numbers_restart_for_every_file() {
    let files = vec![
        file_of("a.txt", "bar\nfoo\nbaz"),
        file_of("b.txt", "baz\nbar\nfoo"),
    ];
    let m = Matcher::compile("foo", false).unwrap();
    let out = grep_file_list(&m, &files, false, true, false);
    assert_eq!("2:foo\n\n3:foo\n\n", String::from_utf8(out).expect("Not UTF-8"));
}

#[test]
fn line_numbers_with_two_digits() {
    let text = "a\na\na\na\na\na\na\na\na\na\na\nfoo a";
    let m = Matcher::compile("foo", false).unwrap();
    let out = grep_stream(&m, &lines_of(text), true, false);
    assert_eq!("12:foo a\n", String::from_utf8(out).expect("Not UTF-8"));
}

#[test]
fn every_match_on_a_line_is_decorated() {
    colored::control::set_override(true);
    let m = Matcher::compile("o", false).unwrap();
    let out = grep_stream(&m, &lines_of("foo"), false, true);
    assert_eq!(
        "f\u{1b}[1;31mo\u{1b}[0m\u{1b}[1;31mo\u{1b}[0m\n",
        String::from_utf8(out).expect("Not UTF-8")
    );
}

#[test]
fn empty_input_produces_no_output() {
    let m = Matcher::compile("foo", false).unwrap();
    let out = grep_stream(&m, &Vec::new(), true, false);
    assert_eq!("", String::from_utf8(out).expect("Not UTF-8"));
}

#[test]
fn multibyte_matches_keep_the_line_intact() {
    let m = Matcher::compile("ö", true).unwrap();
    let out = grep_stream(&m, &lines_of("xÖy\nabc"), false, false);
    assert_eq!("xÖy\n", String::from_utf8(out).expect("Not UTF-8"));
}

#[test]
fn linenumber_and_color_combine() {
    colored::control::set_override(true);
    let m = Matcher::compile("foo", false).unwrap();
    let out = grep_stream(&m, &lines_of(INPUT), true, true);
    assert_eq!(
        "1:\u{1b}[1;31mfoo\u{1b}[0m bar\n4:\u{1b}[1;31mfoo\u{1b}[0m baz\n",
        String::from_utf8(out).expect("Not UTF-8")
    );
}

#[test]
fn empty_width_pattern_is_deterministic() {
    let m = Matcher::compile("x*", false).unwrap();
    let out = grep_stream(&m, &lines_of("ab"), false, false);
    assert_eq!("ab\n", String::from_utf8(out).expect("Not UTF-8"));
}
