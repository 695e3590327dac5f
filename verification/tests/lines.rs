use release_history::{parse_line, parse_releases, Program, ReleaseError, Version};

fn program(name: &str, versions: &[(u16, u16, u16)]) -> Program {
    let mut release_history = Vec::new();
    for (major, minor, patch) in versions {
        release_history.push(Version::new(*major, *minor, *patch));
    }
    Program::new(name.to_string(), release_history)
}

#[test]
fn line_with_two_versions() {
    let parsed = parse_line("widget,1.2.3,2.0.0", 1);
    assert_eq!(parsed, Ok(program("widget", &[(1, 2, 3), (2, 0, 0)])));
    let record = parsed.unwrap();
    assert_eq!(record.name, "widget");
    assert_eq!(
        record.release_history,
        vec![Version::new(1, 2, 3), Version::new(2, 0, 0)]
    );
}

#[test]
fn line_without_comma() {
    let parsed = parse_line("gadget", 1);
    assert_eq!(parsed, Ok(program("gadget", &[])));
    assert!(parsed.unwrap().release_history.is_empty());
}

#[test]
fn name_is_taken_verbatim() {
    assert_eq!(parse_line("  my tool ,1.0.0", 1), Ok(program("  my tool ", &[(1, 0, 0)])));
    assert_eq!(parse_line(",1.0.0", 1), Ok(program("", &[(1, 0, 0)])));
    assert_eq!(parse_line("", 1), Ok(program("", &[])));
    assert_eq!(parse_line("größe,1.0.0", 1), Ok(program("größe", &[(1, 0, 0)])));
    assert_eq!(parse_line("1.2.3", 1), Ok(program("1.2.3", &[])));
}

#[test]
fn malformed_version_names_line_and_token() {
    assert_eq!(
        parse_line("widget,1.2.3,2.0", 7),
        Err(ReleaseError::MalformedVersion { line: 7, token: "2.0".to_string() })
    );
    assert_eq!(
        parse_line("widget,1.x.3,also bad", 3),
        Err(ReleaseError::MalformedVersion { line: 3, token: "1.x.3".to_string() })
    );
}

#[test]
fn empty_version_field_is_malformed() {
    assert_eq!(
        parse_line("widget,", 1),
        Err(ReleaseError::MalformedVersion { line: 1, token: String::new() })
    );
    assert_eq!(
        parse_line("widget,1.0.0,,2.0.0", 1),
        Err(ReleaseError::MalformedVersion { line: 1, token: String::new() })
    );
    assert_eq!(
        parse_line("widget, 1.0.0", 1),
        Err(ReleaseError::MalformedVersion { line: 1, token: " 1.0.0".to_string() })
    );
}

#[test]
fn release_list_in_order() {
    let text = "widget,1.2.3,2.0.0\ngadget\ntool,0.1.0\n";
    assert_eq!(
        parse_releases(text),
        Ok(vec![
            program("widget", &[(1, 2, 3), (2, 0, 0)]),
            program("gadget", &[]),
            program("tool", &[(0, 1, 0)]),
        ])
    );
}

#[test]
fn last_line_needs_no_line_feed() {
    assert_eq!(
        parse_releases("a,1.0.0\nb,2.0.0"),
        Ok(vec![program("a", &[(1, 0, 0)]), program("b", &[(2, 0, 0)])])
    );
}

#[test]
fn empty_text_is_an_empty_collection() {
    assert_eq!(parse_releases(""), Ok(vec![]));
    assert_eq!(parse_releases("\n"), Ok(vec![]));
    assert_eq!(parse_releases("\n\n\r\n"), Ok(vec![]));
}

#[test]
fn blank_lines_at_the_end_are_ignored() {
    assert_eq!(parse_releases("a,1.0.0\n\n\n"), Ok(vec![program("a", &[(1, 0, 0)])]));
    assert_eq!(parse_releases("a,1.0.0\r\n\r\n"), Ok(vec![program("a", &[(1, 0, 0)])]));
}

#[test]
fn blank_line_before_a_record_is_a_record() {
    assert_eq!(
        parse_releases("a,1.0.0\n\nb,2.0.0\n"),
        Ok(vec![program("a", &[(1, 0, 0)]), program("", &[]), program("b", &[(2, 0, 0)])])
    );
}

#[test]
fn carriage_return_belongs_to_the_line_ending() {
    assert_eq!(
        parse_releases("a,1.0.0\r\nb,2.0.0\r\n"),
        Ok(vec![program("a", &[(1, 0, 0)]), program("b", &[(2, 0, 0)])])
    );
    assert_eq!(
        parse_releases("a,1.0.0\r"),
        Err(ReleaseError::MalformedVersion { line: 1, token: "1.0.0\r".to_string() })
    );
}

#[test]
fn malformed_version_is_reported_with_its_line() {
    assert_eq!(
        parse_releases("a,1.0.0\nb,1.x.0\nc,9\n"),
        Err(ReleaseError::MalformedVersion { line: 2, token: "1.x.0".to_string() })
    );
    assert_eq!(
        parse_releases("\n\nc,99999.0.0"),
        Err(ReleaseError::MalformedVersion { line: 3, token: "99999.0.0".to_string() })
    );
}

#[test]
fn no_text_gives_a_malformed_record() {
    for text in ["", ",", "\n,\n", "x", ",,", "a,b"] {
        match parse_releases(text) {
            Err(ReleaseError::MalformedRecord { .. }) => panic!("{:?}", text),
            _ => {}
        }
    }
}
