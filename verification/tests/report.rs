use release_history::{render, Program, Version};

#[test]
fn empty_collection_renders_nothing() {
    assert_eq!(render(&Vec::new()), "");
}

#[test]
fn one_program_one_version() {
    let collection = vec![Program::new("x".to_string(), vec![Version::new(1, 0, 0)])];
    let header = "Program x release history";
    let rule = "-".repeat(header.chars().count());
    assert_eq!(rule.len(), 25);
    let report = render(&collection);
    let lines: Vec<&str> = report.lines().collect();
    assert_eq!(lines, vec![rule.as_str(), header, rule.as_str(), "1.0.0"]);
    assert_eq!(
        report,
        "-------------------------\nProgram x release history\n-------------------------\n1.0.0\n"
    );
}

#[test]
fn programs_and_versions_in_order() {
    let collection = vec![
        Program::new(
            "widget".to_string(),
            vec![Version::new(1, 2, 3), Version::new(2, 0, 0), Version::new(1, 9, 9)],
        ),
        Program::new("gadget".to_string(), vec![]),
        Program::new("tool".to_string(), vec![Version::new(0, 1, 0)]),
    ];
    let expected = "\
------------------------------
Program widget release history
------------------------------
1.2.3
2.0.0
1.9.9
------------------------------
Program gadget release history
------------------------------
----------------------------
Program tool release history
----------------------------
0.1.0
";
    assert_eq!(render(&collection), expected);
}

#[test]
fn rule_is_as_long_as_the_header() {
    for name in ["", "a", "a longer name", "größe", "名前"] {
        let report = render(&vec![Program::new(name.to_string(), vec![])]);
        let lines: Vec<&str> = report.lines().collect();
        assert_eq!(lines.len(), 3);
        assert_eq!(lines[1], format!("Program {} release history", name));
        assert_eq!(lines[0].chars().count(), lines[1].chars().count());
        assert!(lines[0].chars().all(|c| c == '-'));
        assert_eq!(lines[0], lines[2]);
    }
}
