use zabrze::config::abbrev::{Abbrev, Action, Trigger};

struct TestCapture {
    name: &'static str,
    value: &'static str,
}

struct TestMatch {
    left: &'static str,
    right: &'static str,
    captures: &'static [TestCapture],
    has_placeholder: bool,
}

struct Scenario {
    testname: &'static str,
    abbr: Abbrev,
    command: &'static str,
    last_arg: &'static str,
    expected: Option<TestMatch>,
}

fn abbrev(trigger: Trigger, snippet: &str, cursor: Option<&str>) -> Abbrev {
    Abbrev {
        name: None,
        trigger,
        snippet: snippet.to_string(),
        cursor: cursor.map(|c| c.to_string()),
        action: Action::ReplaceLast,
        context: None,
        condition: None,
        global: false,
        evaluate: false,
    }
}

#[test]
fn abbrev_test_do_match() {
    let scenarios = &[
        Scenario {
            testname: "should match non-global if first arg",
            abbr: abbrev(Trigger::Abbr("test".to_string()), "TEST", Some("{}")),
            command: "test",
            last_arg: "test",
            expected: Some(TestMatch {
                left: "TEST",
                right: "",
                captures: &[],
                has_placeholder: false,
            }),
        },
        Scenario {
            testname: "should not match non-global if second arg",
            abbr: abbrev(Trigger::Abbr("test".to_string()), "TEST", Some("{}")),
            command: "echo test",
            last_arg: "test",
            expected: None,
        },
        Scenario {
            testname: "should match global",
            abbr: {
                let mut a = abbrev(Trigger::Abbr("test".to_string()), "TEST", Some("{}"));
                a.global = true;
                a
            },
            command: "echo test",
            last_arg: "test",
            expected: Some(TestMatch {
                left: "TEST",
                right: "",
                captures: &[],
                has_placeholder: false,
            }),
        },
        Scenario {
            testname: "should match global with context",
            abbr: {
                let mut a = abbrev(Trigger::Abbr("test".to_string()), "TEST", Some("{}"));
                a.global = true;
                a.context = Some("^echo ".to_string());
                a
            },
            command: "echo test",
            last_arg: "test",
            expected: Some(TestMatch {
                left: "TEST",
                right: "",
                captures: &[],
                has_placeholder: false,
            }),
        },
        Scenario {
            testname: "should not match global with context",
            abbr: {
                let mut a = abbrev(Trigger::Abbr("test".to_string()), "TEST", Some("{}"));
                a.global = true;
                a.context = Some("^printf ".to_string());
                a
            },
            command: "echo test",
            last_arg: "test",
            expected: None,
        },
        Scenario {
            testname: "should not match if context is invalid",
            abbr: {
                let mut a = abbrev(Trigger::Abbr("test".to_string()), "TEST", Some("{}"));
                a.global = true;
                a.context = Some("(echo".to_string());
                a
            },
            command: "echo test",
            last_arg: "test",
            expected: None,
        },
        Scenario {
            testname: "should match with placeholder",
            abbr: abbrev(Trigger::Abbr("test".to_string()), "TE{}ST", Some("{}")),
            command: "test",
            last_arg: "test",
            expected: Some(TestMatch {
                left: "TE",
                right: "ST",
                captures: &[],
                has_placeholder: true,
            }),
        },
        Scenario {
            testname: "should not match if cursor is none",
            abbr: abbrev(Trigger::Abbr("test".to_string()), "TE{}ST", None),
            command: "test",
            last_arg: "test",
            expected: Some(TestMatch {
                left: "TE{}ST",
                right: "",
                captures: &[],
                has_placeholder: false,
            }),
        },
        Scenario {
            testname: "should match with custom placeholder",
            abbr: abbrev(Trigger::Abbr("test".to_string()), "TE\u{1F447}ST", Some("\u{1F447}")),
            command: "test",
            last_arg: "test",
            expected: Some(TestMatch {
                left: "TE",
                right: "ST",
                captures: &[],
                has_placeholder: true,
            }),
        },
        Scenario {
            testname: "should match abbrev-pattern",
            abbr: abbrev(Trigger::Regex(r"\.py$".to_string()), "python3", Some("{}")),
            command: "test.py",
            last_arg: "test.py",
            expected: Some(TestMatch {
                left: "python3",
                right: "",
                captures: &[],
                has_placeholder: false,
            }),
        },
        Scenario {
            testname: "should capture named groups (?P<...>)",
            abbr: abbrev(Trigger::Regex(r"^\.(?P<digits>\d+)$".to_string()), r".\$$n", Some("{}")),
            command: ".3",
            last_arg: ".3",
            expected: Some(TestMatch {
                left: r".\$$n",
                right: "",
                captures: &[TestCapture { name: "digits", value: "3" }],
                has_placeholder: false,
            }),
        },
        Scenario {
            testname: "should capture named groups (?<...>)",
            abbr: abbrev(Trigger::Regex(r"^\.(?<digits>\d+)$".to_string()), r".\$$n", Some("{}")),
            command: ".42",
            last_arg: ".42",
            expected: Some(TestMatch {
                left: r".\$$n",
                right: "",
                captures: &[TestCapture { name: "digits", value: "42" }],
                has_placeholder: false,
            }),
        },
    ];

    for s in scenarios {
        let actual = s.abbr.do_match(s.command, s.last_arg);

        match (actual, &s.expected) {
            (Some(actual), Some(expected)) => {
                assert_eq!(actual.left_snippet(), expected.left, "{}", s.testname);
                assert_eq!(actual.right_snippet(), expected.right, "{}", s.testname);

                assert_eq!(actual.captures.len(), expected.captures.len(), "{}", s.testname);
                for (i, capture) in actual.captures.iter().enumerate() {
                    assert_eq!(
                        capture.name, expected.captures[i].name,
                        "{}.captures[{i}]",
                        s.testname
                    );
                    assert_eq!(
                        capture.value, expected.captures[i].value,
                        "{}.captures[{i}]",
                        s.testname
                    );
                }

                assert_eq!(actual.has_placeholder(), expected.has_placeholder, "{}", s.testname);
            }
            (None, None) => { /* ok */ }
            _ => panic!("{}", s.testname),
        }
    }
}

#[test]
fn abbrev_test_empty_cursor_never_splits() {
    let a = abbrev(Trigger::Abbr("test".to_string()), "TE{}ST", Some(""));
    let m = a.do_match("test", "test").unwrap();
    assert_eq!(m.left_snippet(), "TE{}ST");
    assert_eq!(m.right_snippet(), "");
    assert!(!m.has_placeholder());
}
