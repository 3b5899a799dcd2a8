use zabrze::config::Config;
use zabrze::config::abbrev::{Abbrev, Action, Trigger};
use zabrze::expand::render;

fn rule(trigger: Trigger, snippet: &str) -> Abbrev {
    Abbrev {
        name: None,
        trigger,
        snippet: snippet.to_string(),
        cursor: Some("{}".to_string()),
        action: Action::ReplaceLast,
        context: None,
        condition: None,
        global: false,
        evaluate: false,
    }
}

#[test]
fn test_render_nothing_without_match() {
    let config = Config { abbrevs: vec![rule(Trigger::Abbr("g".to_string()), "git")] };
    assert_eq!(render(&config, "", ""), "");
    assert_eq!(render(&config, "echo", ""), "");
}

#[test]
fn test_render_simple() {
    let config = Config { abbrevs: vec![rule(Trigger::Abbr("g".to_string()), "git")] };
    assert_eq!(
        render(&config, "g", ""),
        "local command=g;local abbr=g;\
         local left_snippet=git;\
         LBUFFER=''\"${left_snippet}\";RBUFFER='';__zabrze_has_placeholder=;\n"
    );
}

#[test]
fn test_render_keeps_rbuffer_and_prefix() {
    let mut r = rule(Trigger::Abbr("c".to_string()), "commit");
    r.global = true;
    let config = Config { abbrevs: vec![r] };
    assert_eq!(
        render(&config, "git c", "rest"),
        "local command='git c';local abbr=c;\
         local left_snippet=commit;\
         LBUFFER='git '\"${left_snippet}\";RBUFFER=rest;__zabrze_has_placeholder=;\n"
    );
}

#[test]
fn test_render_evaluate_marker() {
    let mut r = rule(Trigger::Abbr("home".to_string()), "$HOME");
    r.evaluate = true;
    let config = Config { abbrevs: vec![r] };
    assert_eq!(
        render(&config, "home", ""),
        "local command=home;local abbr=home;\
         local left_snippet='$HOME';\
         LBUFFER=''\"${(e)left_snippet}\";RBUFFER='';__zabrze_has_placeholder=;\n"
    );
}

#[test]
fn test_render_placeholder() {
    let config = Config { abbrevs: vec![rule(Trigger::Abbr("x".to_string()), "A{}B")] };
    assert_eq!(
        render(&config, "x", ""),
        "local command=x;local abbr=x;\
         local left_snippet=A;local right_snippet=B;\
         LBUFFER=''\"${left_snippet}\";RBUFFER=\"${right_snippet}\"'';\
         __zabrze_has_placeholder=1;\n"
    );
}

#[test]
fn test_render_conditional_chain() {
    let mut trash = rule(Trigger::Abbr("rm".to_string()), "trash");
    trash.condition = Some("(( ${+commands[trash]} ))".to_string());
    let rm_r = rule(Trigger::Abbr("rm".to_string()), "rm -r");
    let config = Config { abbrevs: vec![trash, rm_r] };
    assert_eq!(
        render(&config, "rm", ""),
        "local command=rm;local abbr=rm;\
         if eval '(( ${+commands[trash]} ))';then \
         local left_snippet=trash;\
         LBUFFER=''\"${left_snippet}\";RBUFFER='';__zabrze_has_placeholder=;\
         else local left_snippet='rm -r';\
         LBUFFER=''\"${left_snippet}\";RBUFFER='';__zabrze_has_placeholder=;\
         fi\n"
    );
}

#[test]
fn test_render_captures_as_variables() {
    let mut r = rule(Trigger::Regex(r"^\.(?<n>\d+)$".to_string()), r"awk '{print \$$n}'");
    r.evaluate = true;
    let config = Config { abbrevs: vec![r] };
    assert_eq!(
        render(&config, ".2", ""),
        "local command=.2;local abbr=.2;\
         local n=2;\
         local left_snippet='awk '\\''{print \\$$n}'\\''';\
         LBUFFER=''\"${(e)left_snippet}\";RBUFFER='';__zabrze_has_placeholder=;\n"
    );
}

#[test]
fn test_render_prepend() {
    let mut cd = rule(Trigger::Regex(r"\.\.$".to_string()), "cd");
    cd.action = Action::Prepend;
    let config = Config { abbrevs: vec![cd] };
    assert_eq!(
        render(&config, "..", ""),
        "local command=..;local abbr=..;\
         local left_snippet=cd;\
         LBUFFER=''\"${left_snippet}\"' '..;RBUFFER='';__zabrze_has_placeholder=;\n"
    );
}
