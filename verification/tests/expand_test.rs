use zabrze::config::Config;
use zabrze::config::abbrev::{Abbrev, Action, Trigger};
use zabrze::expand::{Expansion, ExpansionVariable, ExpandResult, expand, find_last_command_index};

fn rule(name: &str, trigger: Trigger, snippet: &str) -> Abbrev {
    Abbrev {
        name: Some(name.to_string()),
        trigger,
        snippet: snippet.to_string(),
        cursor: Some("{}".to_string()),
        action: Action::ReplaceLast,
        context: None,
        condition: None,
        global: false,
        evaluate: false,
    }
}

fn test_config() -> Config {
    let mut abbrevs = Vec::new();

    abbrevs.push(rule("git", Trigger::Abbr("g".to_string()), "git"));

    let mut r = rule("git commit", Trigger::Abbr("c".to_string()), "commit");
    r.global = true;
    r.context = Some("^git ".to_string());
    abbrevs.push(r);

    let mut r = rule(">/dev/null", Trigger::Abbr("null".to_string()), ">/dev/null");
    r.global = true;
    abbrevs.push(r);

    let mut r = rule("$HOME", Trigger::Abbr("home".to_string()), "$HOME");
    r.evaluate = true;
    abbrevs.push(r);

    let mut r = rule("git commit -m ''", Trigger::Abbr("cm".to_string()), "commit -m '{}'");
    r.global = true;
    r.context = Some("^git ".to_string());
    abbrevs.push(r);

    let mut r = rule(
        "sudo apt install -y",
        Trigger::Abbr("install".to_string()),
        "sudo apt install -y",
    );
    r.action = Action::ReplaceAll;
    r.global = true;
    r.context = Some("^apt ".to_string());
    r.condition = Some("(( ${+commands[apt]} ))".to_string());
    abbrevs.push(r);

    let mut r = rule("trash", Trigger::Abbr("rm".to_string()), "trash");
    r.condition = Some("(( ${+commands[trash]} ))".to_string());
    abbrevs.push(r);

    abbrevs.push(rule("rm -r", Trigger::Abbr("rm".to_string()), "rm -r"));

    abbrevs.push(rule("never matched", Trigger::Abbr("rm".to_string()), "never"));

    let mut r = rule("cd ..", Trigger::Regex(r"\.\.$".to_string()), "cd $abbr");
    r.evaluate = true;
    abbrevs.push(r);

    let mut r = rule(".N", Trigger::Regex(r"^\.(?<n>\d+)$".to_string()), r"awk '{print \$$n}'");
    r.evaluate = true;
    abbrevs.push(r);

    Config { abbrevs }
}

fn expansion(replacing_index: usize, end_index: usize, left_snippet: &str) -> Expansion {
    Expansion {
        replacing_index,
        end_index,
        suffix: "".to_string(),
        left_snippet: left_snippet.to_string(),
        right_snippet: "".to_string(),
        condition: None,
        variables: vec![],
        evaluate: false,
        has_placeholder: false,
    }
}

#[test]
fn test_expand() {
    let config = test_config();

    struct Scenario<'a> {
        pub testname: &'a str,
        pub lbuffer: &'a str,
        pub expected: ExpandResult,
    }

    let scenarios = &[
        Scenario {
            testname: "empty",
            lbuffer: "",
            expected: ExpandResult {
                command: "".to_string(),
                last_arg: "".to_string(),
                expansions: Vec::new(),
            },
        },
        Scenario {
            testname: "simple abbr",
            lbuffer: "g",
            expected: ExpandResult {
                command: "g".to_string(),
                last_arg: "g".to_string(),
                expansions: vec![expansion(0, 1, "git")],
            },
        },
        Scenario {
            testname: "simple abbr with leading command",
            lbuffer: "echo hello; g",
            expected: ExpandResult {
                command: "g".to_string(),
                last_arg: "g".to_string(),
                expansions: vec![expansion(12, 13, "git")],
            },
        },
        Scenario {
            testname: "global abbr",
            lbuffer: "echo hello null",
            expected: ExpandResult {
                command: "echo hello null".to_string(),
                last_arg: "null".to_string(),
                expansions: vec![expansion(11, 15, ">/dev/null")],
            },
        },
        Scenario {
            testname: "global abbr with context",
            lbuffer: "echo hello; git c",
            expected: ExpandResult {
                command: "git c".to_string(),
                last_arg: "c".to_string(),
                expansions: vec![expansion(16, 17, "commit")],
            },
        },
        Scenario {
            testname: "global abbr with miss matched context",
            lbuffer: "echo git c",
            expected: ExpandResult {
                command: "echo git c".to_string(),
                last_arg: "c".to_string(),
                expansions: Vec::new(),
            },
        },
        Scenario {
            testname: "no matched abbr",
            lbuffer: "echo",
            expected: ExpandResult {
                command: "echo".to_string(),
                last_arg: "echo".to_string(),
                expansions: Vec::new(),
            },
        },
        Scenario {
            testname: "simple abbr with evaluate=true",
            lbuffer: "home",
            expected: ExpandResult {
                command: "home".to_string(),
                last_arg: "home".to_string(),
                expansions: vec![{
                    let mut e = expansion(0, 4, "$HOME");
                    e.evaluate = true;
                    e
                }],
            },
        },
        Scenario {
            testname: "simple abbr with placeholder",
            lbuffer: "git cm",
            expected: ExpandResult {
                command: "git cm".to_string(),
                last_arg: "cm".to_string(),
                expansions: vec![{
                    let mut e = expansion(4, 6, "commit -m '");
                    e.right_snippet = "'".to_string();
                    e.has_placeholder = true;
                    e
                }],
            },
        },
        Scenario {
            testname: "replace-all action",
            lbuffer: "apt install",
            expected: ExpandResult {
                command: "apt install".to_string(),
                last_arg: "install".to_string(),
                expansions: vec![{
                    let mut e = expansion(0, 11, "sudo apt install -y");
                    e.condition = Some("(( ${+commands[apt]} ))".to_string());
                    e
                }],
            },
        },
        Scenario {
            testname: "prepend action",
            lbuffer: "..",
            expected: ExpandResult {
                command: "..".to_string(),
                last_arg: "..".to_string(),
                expansions: vec![{
                    let mut e = expansion(0, 2, "cd $abbr");
                    e.evaluate = true;
                    e
                }],
            },
        },
        Scenario {
            testname: "prepend action 2",
            lbuffer: "pwd; ../..",
            expected: ExpandResult {
                command: "../..".to_string(),
                last_arg: "../..".to_string(),
                expansions: vec![{
                    let mut e = expansion(5, 10, "cd $abbr");
                    e.evaluate = true;
                    e
                }],
            },
        },
        Scenario {
            testname: "conditional",
            lbuffer: "rm",
            expected: ExpandResult {
                command: "rm".to_string(),
                last_arg: "rm".to_string(),
                expansions: vec![
                    {
                        let mut e = expansion(0, 2, "trash");
                        e.condition = Some("(( ${+commands[trash]} ))".to_string());
                        e
                    },
                    expansion(0, 2, "rm -r"),
                ],
            },
        },
        Scenario {
            testname: "with captures",
            lbuffer: ".2",
            expected: ExpandResult {
                command: ".2".to_string(),
                last_arg: ".2".to_string(),
                expansions: vec![{
                    let mut e = expansion(0, 2, r"awk '{print \$$n}'");
                    e.variables = vec![ExpansionVariable {
                        name: "n".to_string(),
                        value: "2".to_string(),
                    }];
                    e.evaluate = true;
                    e
                }],
            },
        },
    ];

    for s in scenarios {
        let actual = expand(&config, s.lbuffer);

        assert_eq!(actual, s.expected, "{}", s.testname);
    }
}

#[test]
fn test_find_last_command_index() {
    assert_eq!(find_last_command_index("git commit"), 0);
    assert_eq!(find_last_command_index("echo hello; git commit"), 11);
    assert_eq!(find_last_command_index("echo hello && git commit"), 13);
    assert_eq!(find_last_command_index("seq 10 | tail -3 | cat"), 18);
}
