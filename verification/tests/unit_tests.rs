use minigrep::Args;
use minigrep::GrepError;
use minigrep::MatchSpan;
use minigrep::SourceKind;
use minigrep::annotate::annotate;
use minigrep::matcher::Matcher;

fn args_with(recursive: bool, filenames: Vec<String>) -> Args {
    Args {
        insensitive: false,
        query: "foo".to_string(),
        names: false,
        linenumber: false,
        color: false,
        recursive,
        filenames,
    }
}

#[test]
fn invalid_pattern_is_rejected() {
    let r = Matcher::compile("(", false);
    assert!(matches!(r, Err(GrepError::InvalidPattern)));
}

#[test]
fn valid_pattern_compiles() {
    assert!(Matcher::compile("fo+o?.*$", true).is_ok());
}

#[test]
fn source_kind_stream_when_no_filenames() {
    let r = args_with(false, vec![]).source_kind();
    assert_eq!(r, Ok(SourceKind::Stream));
}

#[test]
fn source_kind_file_list_for_named_files() {
    let r = args_with(false, vec!["a".to_string(), "b".to_string()]).source_kind();
    assert_eq!(r, Ok(SourceKind::FileList));
}

#[test]
fn source_kind_directory_for_single_recursive_path() {
    let r = args_with(true, vec!["dir".to_string()]).source_kind();
    assert_eq!(r, Ok(SourceKind::Directory));
}

#[test]
fn source_kind_rejects_recursive_with_two_paths() {
    let r = args_with(true, vec!["a".to_string(), "b".to_string()]).source_kind();
    assert_eq!(r, Err(GrepError::RecursiveNeedsSingleDirectory));
}

#[test]
fn source_kind_rejects_recursive_with_no_path() {
    let r = args_with(true, vec![]).source_kind();
    assert_eq!(r, Err(GrepError::RecursiveNeedsSingleDirectory));
}

#[test]
fn find_all_spans_are_ordered_and_in_bounds() {
    let m = Matcher::compile("o", false).unwrap();
    let line = b"foo od".to_vec();
    let spans = m.find_all(&line);
    assert_eq!(
        spans,
        vec![
            MatchSpan { start: 1, end: 2 },
            MatchSpan { start: 2, end: 3 },
            MatchSpan { start: 4, end: 5 },
        ]
    );
    for w in spans.windows(2) {
        assert!(w[0].end <= w[1].start);
    }
    for s in &spans {
        assert!(s.start <= s.end && s.end <= line.len());
    }
}

#[test]
fn annotate_returns_none_without_matches() {
    let line = b"bar baz".to_vec();
    let m = Matcher::compile("foo", false).unwrap();
    let spans = m.find_all(&line);
    assert!(spans.is_empty());
    assert!(annotate(&line, &spans, 1, false).is_none());
}

#[test]
fn annotate_segments_cover_the_line_exactly() {
    let line = b"foo bar foo".to_vec();
    let m = Matcher::compile("foo", false).unwrap();
    let spans = m.find_all(&line);
    let a = annotate(&line, &spans, 7, true).unwrap();
    assert_eq!(a.line_number, 7);
    let texts: Vec<&[u8]> = a.segments.iter().map(|s| s.text.as_slice()).collect();
    assert_eq!(
        texts,
        vec![
            &b""[..],
            &b"foo"[..],
            &b" bar "[..],
            &b"foo"[..],
            &b""[..],
        ]
    );
    let flags: Vec<bool> = a.segments.iter().map(|s| s.emphasized).collect();
    assert_eq!(flags, vec![false, true, false, true, false]);
    let mut rebuilt: Vec<u8> = Vec::new();
    for s in &a.segments {
        rebuilt.extend_from_slice(&s.text);
    }
    assert_eq!(rebuilt, line);
}

#[test]
fn annotate_without_emphasis_marks_no_segment() {
    let line = b"foo".to_vec();
    let m = Matcher::compile("foo", false).unwrap();
    let spans = m.find_all(&line);
    let a = annotate(&line, &spans, 1, false).unwrap();
    assert!(a.segments.iter().all(|s| !s.emphasized));
}

#[test]
fn case_insensitive_matcher_finds_other_case() {
    let m = Matcher::compile("foo", true).unwrap();
    let line = b"FOO".to_vec();
    assert_eq!(m.find_all(&line).len(), 1);
    let ms = Matcher::compile("foo", false).unwrap();
    assert!(ms.find_all(&line).is_empty());
}
