use zabrze::config::Config;
use zabrze::config::abbrev::{Abbrev, Action, Trigger};
use zabrze::list::list;

fn rule(name: &str, trigger: Trigger, snippet: &str) -> Abbrev {
    Abbrev {
        name: Some(name.to_string()),
        trigger,
        snippet: snippet.to_string(),
        cursor: Some("{}".to_string()),
        action: Action::ReplaceLast,
        context: None,
        condition: None,
        global: false,
        evaluate: false,
    }
}

fn test_config() -> Config {
    let mut abbrevs = Vec::new();

    abbrevs.push(rule("git", Trigger::Abbr("g".to_string()), "git"));

    let mut r = rule("git commit", Trigger::Abbr("c".to_string()), "commit");
    r.global = true;
    r.context = Some("^git ".to_string());
    abbrevs.push(r);

    let mut r = rule(">/dev/null", Trigger::Abbr("null".to_string()), ">/dev/null");
    r.global = true;
    abbrevs.push(r);

    let mut r = rule("$HOME", Trigger::Abbr("home".to_string()), "$HOME");
    r.evaluate = true;
    abbrevs.push(r);

    let mut r = rule("..", Trigger::Abbr(r"^\.\.(/\.\.)*$".to_string()), "cd");
    r.action = Action::Prepend;
    abbrevs.push(r);

    Config { abbrevs }
}

#[test]
fn test_list() {
    let config = test_config();

    let output = list(&config);

    let expected = r"g=git
c=commit
null='>/dev/null'
home='$HOME'
^\.\.(/\.\.)*$=cd
";

    assert_eq!(output, expected);
}
