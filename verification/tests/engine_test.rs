use zabrze::config::Config;
use zabrze::config::abbrev::{Abbrev, Action, ExpandError, Trigger};
use zabrze::expand::{expand, find_last_command_index, find_matches, match_diagnostics, render};

fn rule(trigger: Trigger, snippet: &str) -> Abbrev {
    Abbrev {
        name: None,
        trigger,
        snippet: snippet.to_string(),
        cursor: Some("{}".to_string()),
        action: Action::ReplaceLast,
        context: None,
        condition: None,
        global: false,
        evaluate: false,
    }
}

#[test]
fn test_split_on_first_marker_only() {
    // A marker that occurs twice splits at the first occurrence; the second
    // stays literal text in the right half.
    let a = rule(Trigger::Abbr("x".to_string()), "TE{}S{}T");
    let m = a.do_match("x", "x").unwrap();
    assert_eq!(m.left_snippet(), "TE");
    assert_eq!(m.right_snippet(), "S{}T");
    assert!(m.has_placeholder());

    // A marker that never occurs leaves the snippet whole.
    let b = rule(Trigger::Abbr("x".to_string()), "foo bar");
    let m = b.do_match("x", "x").unwrap();
    assert_eq!(m.left_snippet(), "foo bar");
    assert_eq!(m.right_snippet(), "");
    assert!(!m.has_placeholder());
}

#[test]
fn test_chain_stops_at_first_unconditional() {
    let mut trash = rule(Trigger::Abbr("rm".to_string()), "trash");
    trash.condition = Some("(( ${+commands[trash]} ))".to_string());
    let rm_r = rule(Trigger::Abbr("rm".to_string()), "rm -r");
    let never = rule(Trigger::Abbr("rm".to_string()), "never");
    let rules = vec![trash, rm_r, never];

    let matches = find_matches(&rules, "rm", "rm");
    assert_eq!(matches.len(), 2);
    assert_eq!(matches[0].left_snippet(), "trash");
    assert!(matches[0].condition().is_some());
    assert_eq!(matches[1].left_snippet(), "rm -r");
    assert!(matches[1].condition().is_none());
}

#[test]
fn test_prepend_span() {
    let mut cd = rule(Trigger::Regex(r"^\.\.(/\.\.)*$".to_string()), "cd");
    cd.action = Action::Prepend;
    let config = Config { abbrevs: vec![cd] };

    let result = expand(&config, "..");
    assert_eq!(result.expansions.len(), 1);
    let e = &result.expansions[0];
    assert_eq!(e.replacing_index, 0);
    assert_eq!(e.end_index, 0);
    assert_eq!(e.suffix, " ");
    assert_eq!(e.left_snippet, "cd");
}

#[test]
fn test_no_further_expansion_on_expanded_output() {
    // After `g` expands to `git`, a second run on the expanded buffer
    // matches nothing and emits nothing.
    let config = Config { abbrevs: vec![rule(Trigger::Abbr("g".to_string()), "git")] };

    let first = expand(&config, "g");
    assert_eq!(first.expansions.len(), 1);
    assert_eq!(first.expansions[0].left_snippet, "git");

    let second = expand(&config, "git");
    assert_eq!(second.expansions.len(), 0);
    assert_eq!(render(&config, "git", ""), "");
}

#[test]
fn test_end_to_end_simple_trigger() {
    let config = Config { abbrevs: vec![rule(Trigger::Abbr("g".to_string()), "git")] };

    let result = expand(&config, "g");
    assert_eq!(result.expansions.len(), 1);
    let e = &result.expansions[0];
    assert_eq!(e.left_snippet, "git");
    assert_eq!(e.replacing_index, 0);
    assert_eq!(e.end_index, 1);
    assert!(!e.has_placeholder);
}

#[test]
fn test_end_to_end_pattern_trigger() {
    let py = rule(Trigger::Regex(r"\.py$".to_string()), "python3");
    let config = Config { abbrevs: vec![py] };

    let result = expand(&config, "test.py");
    assert_eq!(result.expansions.len(), 1);
    assert_eq!(result.expansions[0].left_snippet, "python3");
}

#[test]
fn test_invalid_trigger_regex_is_error() {
    let a = rule(Trigger::Regex("(".to_string()), "oops");
    assert!(matches!(a.do_match_impl("x", "x"), Err(ExpandError::RegexError(_))));
    assert!(a.do_match("x", "x").is_none());
}

#[test]
fn test_invalid_context_regex_is_error() {
    let mut a = rule(Trigger::Abbr("x".to_string()), "y");
    a.context = Some("(".to_string());
    assert!(matches!(a.do_match_impl("x", "x"), Err(ExpandError::RegexError(_))));
    assert!(a.do_match("x", "x").is_none());
}

#[test]
fn test_invalid_regex_skips_only_that_rule() {
    let bad = rule(Trigger::Regex("(".to_string()), "oops");
    let good = rule(Trigger::Abbr("g".to_string()), "git");
    let config = Config { abbrevs: vec![bad, good] };

    let result = expand(&config, "g");
    assert_eq!(result.expansions.len(), 1);
    assert_eq!(result.expansions[0].left_snippet, "git");
}

#[test]
fn test_leading_whitespace_is_kept_out_of_the_span() {
    let config = Config { abbrevs: vec![rule(Trigger::Abbr("g".to_string()), "git")] };

    let result = expand(&config, "  g");
    assert_eq!(result.command, "g");
    assert_eq!(result.last_arg, "g");
    assert_eq!(result.expansions.len(), 1);
    assert_eq!(result.expansions[0].replacing_index, 2);
    assert_eq!(result.expansions[0].end_index, 3);
}

#[test]
fn test_double_ampersand_starts_a_new_command() {
    let config = Config { abbrevs: vec![rule(Trigger::Abbr("g".to_string()), "git")] };

    let result = expand(&config, "true && g");
    assert_eq!(result.command, "g");
    assert_eq!(result.expansions.len(), 1);
    assert_eq!(result.expansions[0].replacing_index, 8);
    assert_eq!(result.expansions[0].end_index, 9);
}

#[test]
fn test_diagnostics_name_failing_rules() {
    let mut bad_named = rule(Trigger::Regex("(".to_string()), "oops");
    bad_named.name = Some("broken".to_string());
    let bad_unnamed = rule(Trigger::Regex("[".to_string()), "fallback label");
    let good = rule(Trigger::Abbr("g".to_string()), "git");
    let unreached = rule(Trigger::Regex(")".to_string()), "never scanned");
    let config = Config { abbrevs: vec![bad_named, bad_unnamed, good, unreached] };

    let diagnostics = match_diagnostics(&config.abbrevs, "g", "g");
    assert_eq!(diagnostics.len(), 2);
    assert_eq!(diagnostics[0].index, 0);
    assert_eq!(diagnostics[0].label, "broken");
    assert_eq!(diagnostics[1].index, 1);
    assert_eq!(diagnostics[1].label, "fallback label");
}

#[test]
fn test_multibyte_buffer_indices() {
    // Indices count characters, so a multi-byte token keeps its span whole.
    let config = Config { abbrevs: vec![rule(Trigger::Abbr("\u{1F447}".to_string()), "down")] };

    let result = expand(&config, "echo \u{1F447}");
    assert_eq!(result.expansions.len(), 0);

    let mut g = rule(Trigger::Abbr("\u{1F447}".to_string()), "down");
    g.global = true;
    let config = Config { abbrevs: vec![g] };
    let result = expand(&config, "echo \u{1F447}");
    assert_eq!(result.expansions.len(), 1);
    assert_eq!(result.expansions[0].replacing_index, 5);
    assert_eq!(result.expansions[0].end_index, 6);
}

#[test]
fn test_escaped_separator_does_not_cut_the_command() {
    assert_eq!(find_last_command_index(r"echo a\; b"), 0);
    assert_eq!(find_last_command_index(r"echo a\; b; c"), 11);
    assert_eq!(find_last_command_index(r"echo a\| b"), 0);

    let mut g = rule(Trigger::Abbr("b".to_string()), "bat");
    g.global = true;
    let config = Config { abbrevs: vec![g] };
    let result = expand(&config, r"echo a\; b");
    assert_eq!(result.command, r"echo a\; b");
    assert_eq!(result.last_arg, "b");
    assert_eq!(result.expansions.len(), 1);
    assert_eq!(result.expansions[0].replacing_index, 9);
}
