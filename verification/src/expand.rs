//! The expansion engine: cuts the edit buffer into command and token, walks
//! the rules in declaration order building the candidate chain, computes
//! each candidate's replacement span, and renders the chain as shell code.

use vstd::prelude::*;
use vstd::string::*;

use crate::config::Config;
use crate::config::abbrev::{Abbrev, Action, ExpandError, Match, caps_view, match_error, match_of,
    selects, split_of, trigger_captures};
use crate::shell::{escape_str, escaped};
use crate::strutil::{after_last_space, lemma_after_last_space_le, lemma_concat_assoc, trim_start,
    trim_start_spec, split_last_word};

verus! {

/// The outcome of one engine evaluation of a buffer snapshot.
#[derive(Debug, PartialEq, Eq)]
pub struct ExpandResult {
    pub command: String,
    pub last_arg: String,
    pub expansions: Vec<Expansion>,
}

/// One capture handed to the shell as a local variable.
#[derive(Debug, PartialEq, Eq)]
pub struct ExpansionVariable {
    pub name: String,
    pub value: String,
}

/// One candidate of the chain, with its replacement span: the buffer
/// characters from `replacing_index` up to `end_index` are replaced by the
/// snippet, followed by `suffix`.
#[derive(Debug, PartialEq, Eq)]
pub struct Expansion {
    pub replacing_index: usize,
    pub end_index: usize,
    pub suffix: String,
    pub left_snippet: String,
    pub right_snippet: String,
    pub condition: Option<String>,
    pub variables: Vec<ExpansionVariable>,
    pub evaluate: bool,
    pub has_placeholder: bool,
}

/// The character sequences of a variable list.
pub open spec fn vars_view(vs: Seq<ExpansionVariable>) -> Seq<(Seq<char>, Seq<char>)> {
    vs.map_values(|v: ExpansionVariable| (v.name@, v.value@))
}

/// The mathematical content of an `Expansion`.
pub ghost struct ExpansionView {
    pub replacing_index: int,
    pub end_index: int,
    pub suffix: Seq<char>,
    pub left_snippet: Seq<char>,
    pub right_snippet: Seq<char>,
    pub condition: Option<Seq<char>>,
    pub variables: Seq<(Seq<char>, Seq<char>)>,
    pub evaluate: bool,
    pub has_placeholder: bool,
}

impl View for Expansion {
    type V = ExpansionView;

    open spec fn view(&self) -> ExpansionView {
        ExpansionView {
            replacing_index: self.replacing_index as int,
            end_index: self.end_index as int,
            suffix: self.suffix@,
            left_snippet: self.left_snippet@,
            right_snippet: self.right_snippet@,
            condition: match self.condition {
                Some(c) => Some(c@),
                None => None,
            },
            variables: vars_view(self.variables@),
            evaluate: self.evaluate,
            has_placeholder: self.has_placeholder,
        }
    }
}

/// A character that ends one command and starts the next.
pub open spec fn is_separator_char(c: char) -> bool {
    c == ';' || c == '&' || c == '|' || c == '(' || c == '`' || c == '\n'
}

fn is_separator(c: char) -> (r: bool)
    ensures
        r == is_separator_char(c),
{
    c == ';' || c == '&' || c == '|' || c == '(' || c == '`' || c == '\n'
}

/// A separator character of `s` at position `j` that counts: one not
/// escaped by a backslash right before it.
pub open spec fn unescaped_separator_at(s: Seq<char>, j: int) -> bool {
    &&& 0 <= j < s.len()
    &&& is_separator_char(s[j])
    &&& (j == 0 || s[j - 1] != '\\')
}

/// Position just after the last unescaped command separator of `s`; 0 when
/// `s` holds none.
pub open spec fn command_start(s: Seq<char>) -> int
    decreases s.len(),
{
    if s.len() == 0 {
        0
    } else if unescaped_separator_at(s, s.len() - 1) {
        s.len() as int
    } else {
        command_start(s.drop_last())
    }
}

proof fn lemma_command_start_at(s: Seq<char>, k: int)
    requires
        0 <= k <= s.len(),
        forall|j: int| k <= j < s.len() ==> !unescaped_separator_at(s, j),
        k > 0 ==> unescaped_separator_at(s, k - 1),
    ensures
        command_start(s) == k,
    decreases s.len(),
{
    if s.len() == 0 {
    } else if k == s.len() {
    } else {
        assert(!unescaped_separator_at(s, s.len() - 1));
        assert forall|j: int| k <= j < s.drop_last().len() implies !unescaped_separator_at(
            s.drop_last(),
            j,
        ) by {
            assert(s.drop_last()[j] == s[j]);
            assert(j > 0 ==> s.drop_last()[j - 1] == s[j - 1]);
            assert(!unescaped_separator_at(s, j));
        }
        if k > 0 {
            assert(s.drop_last()[k - 1] == s[k - 1]);
            assert(k - 1 > 0 ==> s.drop_last()[k - 2] == s[k - 2]);
        }
        lemma_command_start_at(s.drop_last(), k);
    }
}

pub proof fn lemma_command_start_le(s: Seq<char>)
    ensures
        0 <= command_start(s) <= s.len(),
    decreases s.len(),
{
    if s.len() == 0 {
    } else if unescaped_separator_at(s, s.len() - 1) {
    } else {
        lemma_command_start_le(s.drop_last());
    }
}

/// Character position just after the last unescaped command separator in
/// `line`.
pub fn find_last_command_index(line: &str) -> (r: usize)
    ensures
        r == command_start(line@),
{
    let len = line.unicode_len();
    let mut k: usize = len;
    while k > 0 && !(is_separator(line.get_char(k - 1)) && (k == 1 || line.get_char(k - 2) != '\\'))
        invariant
            len == line@.len(),
            k <= len,
            forall|j: int| k <= j < len ==> !unescaped_separator_at(line@, j),
        decreases k,
    {
        k -= 1;
    }
    proof {
        lemma_command_start_at(line@, k as int);
    }
    k
}

/// The current command: the text after the last separator, with leading
/// whitespace dropped.
pub open spec fn spec_command(lb: Seq<char>) -> Seq<char> {
    trim_start_spec(lb.skip(command_start(lb)))
}

/// The current token: the trailing word of the current command.
pub open spec fn spec_last_arg(lb: Seq<char>) -> Seq<char> {
    spec_command(lb).skip(after_last_space(spec_command(lb)))
}

/// The rules of `rules` that produce a match on (`command`, `token`), in
/// order, cut just after the first one that carries no condition.
pub open spec fn candidate_rules(rules: Seq<Abbrev>, command: Seq<char>, token: Seq<char>) -> Seq<
    Abbrev,
>
    decreases rules.len(),
{
    if rules.len() == 0 {
        Seq::empty()
    } else {
        let a = rules.first();
        let rest = candidate_rules(rules.drop_first(), command, token);
        if selects(a, command, token) {
            if a.condition is Some {
                seq![a] + rest
            } else {
                seq![a]
            }
        } else {
            rest
        }
    }
}

/// The scan of `rules` never stops: every rule that matches carries a
/// condition.
pub open spec fn open_chain(rules: Seq<Abbrev>, command: Seq<char>, token: Seq<char>) -> bool {
    forall|i: int|
        0 <= i < rules.len() ==> (selects(#[trigger] rules[i], command, token) ==> rules[i].condition
            is Some)
}

proof fn lemma_open_chain_drop(rules: Seq<Abbrev>, command: Seq<char>, token: Seq<char>)
    requires
        rules.len() > 0,
        open_chain(rules, command, token),
    ensures
        open_chain(rules.drop_first(), command, token),
{
    assert forall|j: int|
        0 <= j < rules.drop_first().len() && selects(
            #[trigger] rules.drop_first()[j],
            command,
            token,
        ) implies rules.drop_first()[j].condition is Some by {
        assert(rules.drop_first()[j] == rules[j + 1]);
    }
}

/// While no scanned rule has closed the chain, appending one more rule
/// appends at most that rule to the candidates.
proof fn lemma_candidates_push(rules: Seq<Abbrev>, a: Abbrev, command: Seq<char>, token: Seq<char>)
    requires
        open_chain(rules, command, token),
    ensures
        candidate_rules(rules.push(a), command, token) == candidate_rules(rules, command, token) + (
        if selects(a, command, token) {
            seq![a]
        } else {
            Seq::<Abbrev>::empty()
        }),
    decreases rules.len(),
{
    let rp = rules.push(a);
    let tail: Seq<Abbrev> = if selects(a, command, token) {
        seq![a]
    } else {
        Seq::empty()
    };
    if rules.len() == 0 {
        assert(rp.first() == a);
        assert(rp.drop_first() =~= Seq::<Abbrev>::empty());
        assert(candidate_rules(rules, command, token) == Seq::<Abbrev>::empty());
        assert(candidate_rules(rp.drop_first(), command, token) == Seq::<Abbrev>::empty());
        if selects(a, command, token) {
            if a.condition is Some {
                assert(candidate_rules(rp, command, token) == seq![a] + Seq::<Abbrev>::empty());
                assert(seq![a] + Seq::<Abbrev>::empty() =~= seq![a]);
            } else {
                assert(candidate_rules(rp, command, token) == seq![a]);
            }
            assert(Seq::<Abbrev>::empty() + seq![a] =~= seq![a]);
        } else {
            assert(candidate_rules(rp, command, token) == Seq::<Abbrev>::empty());
            assert(Seq::<Abbrev>::empty() + Seq::<Abbrev>::empty() =~= Seq::<Abbrev>::empty());
        }
    } else {
        let f = rules.first();
        assert(rp.first() == f);
        assert(rp.drop_first() =~= rules.drop_first().push(a));
        lemma_open_chain_drop(rules, command, token);
        lemma_candidates_push(rules.drop_first(), a, command, token);
        let cd = candidate_rules(rules.drop_first(), command, token);
        if selects(f, command, token) {
            assert(rules[0] == f);
            assert(f.condition is Some);
            assert((seq![f] + cd) + tail =~= seq![f] + (cd + tail));
        } else {
            assert(candidate_rules(rp, command, token) == cd + tail);
        }
    }
}

/// Once a matching rule without a condition is reached, the chain is what
/// was collected before it plus that rule; the rules after it contribute
/// nothing.
pub proof fn lemma_candidates_stop(rules: Seq<Abbrev>, k: int, command: Seq<char>, token: Seq<
    char,
>)
    requires
        0 <= k < rules.len(),
        open_chain(rules.take(k), command, token),
        selects(rules[k], command, token),
        rules[k].condition is None,
    ensures
        candidate_rules(rules, command, token) == candidate_rules(rules.take(k), command, token)
            + seq![rules[k]],
    decreases k,
{
    if k == 0 {
        assert(rules.first() == rules[0]);
        assert(candidate_rules(rules, command, token) == seq![rules[0]]);
        assert(rules.take(0) =~= Seq::<Abbrev>::empty());
        assert(candidate_rules(rules.take(0), command, token) + seq![rules[0]] =~= seq![
            rules[0],
        ]);
    } else {
        let f = rules.first();
        assert(rules.drop_first().take(k - 1) =~= rules.take(k).drop_first());
        assert(open_chain(rules.drop_first().take(k - 1), command, token)) by {
            lemma_open_chain_drop(rules.take(k), command, token);
        }
        assert(rules.drop_first()[k - 1] == rules[k]);
        lemma_candidates_stop(rules.drop_first(), k - 1, command, token);
        let cdk = candidate_rules(rules.drop_first().take(k - 1), command, token);
        if selects(f, command, token) {
            assert(rules.take(k)[0] == f);
            assert(f.condition is Some);
            assert(candidate_rules(rules, command, token) == seq![f] + (cdk + seq![rules[k]]));
            assert(candidate_rules(rules.take(k), command, token) == seq![f] + cdk);
            assert(seq![f] + (cdk + seq![rules[k]]) =~= (seq![f] + cdk) + seq![rules[k]]);
        } else {
            assert(rules.take(k)[0] == f);
            assert(candidate_rules(rules.take(k), command, token) == cdk);
        }
    }
}

/// Every candidate of the chain is a rule that matches.
pub proof fn lemma_chain_members_select(
    rules: Seq<Abbrev>,
    command: Seq<char>,
    token: Seq<char>,
    i: int,
)
    requires
        0 <= i < candidate_rules(rules, command, token).len(),
    ensures
        selects(candidate_rules(rules, command, token)[i], command, token),
    decreases rules.len(),
{
    if rules.len() > 0 {
        let f = rules.first();
        if selects(f, command, token) {
            if f.condition is Some {
                if i > 0 {
                    lemma_chain_members_select(rules.drop_first(), command, token, i - 1);
                }
            }
        } else {
            lemma_chain_members_select(rules.drop_first(), command, token, i);
        }
    }
}

/// In the chain every candidate but the last carries a condition: the first
/// one without a condition ends it.
pub proof fn lemma_chain_inner_conditional(
    rules: Seq<Abbrev>,
    command: Seq<char>,
    token: Seq<char>,
    i: int,
)
    requires
        0 <= i,
        i + 1 < candidate_rules(rules, command, token).len(),
    ensures
        candidate_rules(rules, command, token)[i].condition is Some,
    decreases rules.len(),
{
    if rules.len() > 0 {
        let f = rules.first();
        if selects(f, command, token) {
            if f.condition is Some {
                if i > 0 {
                    lemma_chain_inner_conditional(rules.drop_first(), command, token, i - 1);
                }
            }
        } else {
            lemma_chain_inner_conditional(rules.drop_first(), command, token, i);
        }
    }
}

/// When no matching rule is unconditional, the scan runs to the end and
/// the chain is exactly the matching rules, in declaration order.
pub proof fn lemma_chain_complete_when_all_conditional(
    rules: Seq<Abbrev>,
    command: Seq<char>,
    token: Seq<char>,
)
    requires
        open_chain(rules, command, token),
    ensures
        candidate_rules(rules, command, token) == rules.filter(
            |a: Abbrev| selects(a, command, token),
        ),
    decreases rules.len(),
{
    reveal(Seq::filter);
    let pred = |a: Abbrev| selects(a, command, token);
    if rules.len() == 0 {
        assert(rules.filter(pred) == rules);
        assert(candidate_rules(rules, command, token) =~= rules);
    } else {
        let r0 = rules.drop_last();
        let a = rules.last();
        assert(open_chain(r0, command, token)) by {
            assert forall|i: int|
                0 <= i < r0.len() && selects(#[trigger] r0[i], command, token) implies r0[i].condition
                is Some by {
                assert(r0[i] == rules[i]);
            }
        }
        lemma_chain_complete_when_all_conditional(r0, command, token);
        lemma_candidates_push(r0, a, command, token);
        assert(r0.push(a) =~= rules);
        if selects(a, command, token) {
            assert(rules.filter(pred) == r0.filter(pred).push(a));
            assert(r0.filter(pred).push(a) =~= r0.filter(pred) + seq![a]);
        } else {
            assert(rules.filter(pred) == r0.filter(pred));
            assert(candidate_rules(rules, command, token) == candidate_rules(r0, command, token)
                + Seq::<Abbrev>::empty());
            assert(candidate_rules(r0, command, token) + Seq::<Abbrev>::empty()
                =~= candidate_rules(r0, command, token));
        }
    }
}

/// On a buffer where no rule matches, the chain is empty: re-running the
/// engine on an already expanded buffer that no rule matches expands
/// nothing further.
pub proof fn lemma_no_match_no_expansion(rules: Seq<Abbrev>, command: Seq<char>, token: Seq<char>)
    requires
        forall|i: int| 0 <= i < rules.len() ==> !selects(#[trigger] rules[i], command, token),
    ensures
        candidate_rules(rules, command, token) == Seq::<Abbrev>::empty(),
    decreases rules.len(),
{
    if rules.len() > 0 {
        assert(!selects(rules[0], command, token));
        assert forall|i: int| 0 <= i < rules.drop_first().len() implies !selects(
            #[trigger] rules.drop_first()[i],
            command,
            token,
        ) by {
            assert(rules.drop_first()[i] == rules[i + 1]);
        }
        lemma_no_match_no_expansion(rules.drop_first(), command, token);
    }
}

/// Walks the rules in order, collecting matches, and stops right after the
/// first match without a condition: the chain's guaranteed fallback.
pub fn find_matches(abbrevs: &[Abbrev], command: &str, last_arg: &str) -> (r: Vec<Match>)
    ensures
        r@.len() == candidate_rules(abbrevs@, command@, last_arg@).len(),
        forall|i: int|
            0 <= i < r@.len() ==> match_of(
                candidate_rules(abbrevs@, command@, last_arg@)[i],
                last_arg@,
                #[trigger] r@[i],
            ),
{
    let ghost rules = abbrevs@;
    let ghost c = command@;
    let ghost t = last_arg@;
    let mut matches: Vec<Match> = Vec::new();
    let mut i: usize = 0;
    while i < abbrevs.len()
        invariant
            rules == abbrevs@,
            c == command@,
            t == last_arg@,
            i <= rules.len(),
            open_chain(rules.take(i as int), c, t),
            matches@.len() == candidate_rules(rules.take(i as int), c, t).len(),
            forall|j: int|
                0 <= j < matches@.len() ==> match_of(
                    candidate_rules(rules.take(i as int), c, t)[j],
                    t,
                    #[trigger] matches@[j],
                ),
        decreases rules.len() - i,
    {
        proof {
            assert(rules.take(i as int).push(rules[i as int]) =~= rules.take(i + 1));
            lemma_candidates_push(rules.take(i as int), rules[i as int], c, t);
        }
        let abbr = &abbrevs[i];
        let m_opt = abbr.do_match(command, last_arg);
        match m_opt {
            Some(m) => {
                let has_condition = m.condition.is_some();
                proof {
                    assert(candidate_rules(rules.take(i + 1), c, t) == candidate_rules(
                        rules.take(i as int),
                        c,
                        t,
                    ) + seq![rules[i as int]]);
                }
                matches.push(m);
                if !has_condition {
                    proof {
                        lemma_candidates_stop(rules, i as int, c, t);
                    }
                    return matches;
                }
                proof {
                    assert forall|j: int|
                        0 <= j < rules.take(i + 1).len() && selects(
                            #[trigger] rules.take(i + 1)[j],
                            c,
                            t,
                        ) implies rules.take(i + 1)[j].condition is Some by {
                        if j < i {
                            assert(rules.take(i + 1)[j] == rules.take(i as int)[j]);
                        } else {
                            assert(rules.take(i + 1)[j] == rules[i as int]);
                        }
                    }
                }
            },
            None => {
                proof {
                    assert(candidate_rules(rules.take(i + 1), c, t) =~= candidate_rules(
                        rules.take(i as int),
                        c,
                        t,
                    ));
                    assert forall|j: int|
                        0 <= j < rules.take(i + 1).len() && selects(
                            #[trigger] rules.take(i + 1)[j],
                            c,
                            t,
                        ) implies rules.take(i + 1)[j].condition is Some by {
                        if j < i {
                            assert(rules.take(i + 1)[j] == rules.take(i as int)[j]);
                        } else {
                            assert(rules.take(i + 1)[j] == rules[i as int]);
                        }
                    }
                }
            },
        }
        i += 1;
    }
    proof {
        assert(rules.take(rules.len() as int) =~= rules);
    }
    matches
}

/// One recoverable per-rule failure met during a scan: the position and
/// label of the rule whose regex did not compile, with the error.
#[derive(Debug)]
pub struct MatchDiagnostic {
    pub index: usize,
    pub label: String,
    pub error: ExpandError,
}

/// The positions, counted from `k`, of the rules whose evaluation fails
/// with a diagnostic before the scan stops.
pub open spec fn error_indices_from(
    rules: Seq<Abbrev>,
    command: Seq<char>,
    token: Seq<char>,
    k: int,
) -> Seq<int>
    decreases rules.len(),
{
    if rules.len() == 0 {
        Seq::empty()
    } else {
        let head: Seq<int> = if match_error(rules.first(), command, token) {
            seq![k]
        } else {
            Seq::empty()
        };
        if selects(rules.first(), command, token) && rules.first().condition is None {
            head
        } else {
            head + error_indices_from(rules.drop_first(), command, token, k + 1)
        }
    }
}

proof fn lemma_errors_push(rules: Seq<Abbrev>, a: Abbrev, command: Seq<char>, token: Seq<char>, k: int)
    requires
        open_chain(rules, command, token),
    ensures
        error_indices_from(rules.push(a), command, token, k) == error_indices_from(
            rules,
            command,
            token,
            k,
        ) + (if match_error(a, command, token) {
            seq![k + rules.len()]
        } else {
            Seq::<int>::empty()
        }),
    decreases rules.len(),
{
    let rp = rules.push(a);
    let tail: Seq<int> = if match_error(a, command, token) {
        seq![k + rules.len()]
    } else {
        Seq::empty()
    };
    if rules.len() == 0 {
        assert(rp.first() == a);
        assert(rp.drop_first() =~= Seq::<Abbrev>::empty());
        assert(error_indices_from(rp.drop_first(), command, token, k + 1) == Seq::<int>::empty());
        if match_error(a, command, token) {
            assert(!selects(a, command, token));
            assert(error_indices_from(rp, command, token, k) == seq![k] + Seq::<int>::empty());
            assert(seq![k] + Seq::<int>::empty() =~= seq![k]);
            assert(Seq::<int>::empty() + tail =~= tail);
        } else {
            if selects(a, command, token) && a.condition is None {
                assert(error_indices_from(rp, command, token, k) == Seq::<int>::empty());
            } else {
                assert(error_indices_from(rp, command, token, k) == Seq::<int>::empty()
                    + Seq::<int>::empty());
            }
            assert(error_indices_from(rp, command, token, k) =~= Seq::<int>::empty());
            assert(error_indices_from(rules, command, token, k) + tail =~= Seq::<int>::empty());
        }
    } else {
        let f = rules.first();
        assert(rp.first() == f);
        assert(rp.drop_first() =~= rules.drop_first().push(a));
        lemma_open_chain_drop(rules, command, token);
        lemma_errors_push(rules.drop_first(), a, command, token, k + 1);
        assert(rules[0] == f);
        if selects(f, command, token) {
            assert(f.condition is Some);
        }
        let head: Seq<int> = if match_error(f, command, token) {
            seq![k]
        } else {
            Seq::empty()
        };
        let ed = error_indices_from(rules.drop_first(), command, token, k + 1);
        assert(k + 1 + rules.drop_first().len() == k + rules.len());
        assert(error_indices_from(rp, command, token, k) == head + (ed + tail));
        assert(error_indices_from(rules, command, token, k) == head + ed);
        assert(head + (ed + tail) =~= (head + ed) + tail);
    }
}

proof fn lemma_errors_stop(rules: Seq<Abbrev>, j: int, command: Seq<char>, token: Seq<char>, k: int)
    requires
        0 <= j < rules.len(),
        open_chain(rules.take(j), command, token),
        selects(rules[j], command, token),
        rules[j].condition is None,
    ensures
        error_indices_from(rules, command, token, k) == error_indices_from(
            rules.take(j),
            command,
            token,
            k,
        ),
    decreases j,
{
    if j == 0 {
        assert(rules.first() == rules[0]);
        assert(!match_error(rules[0], command, token));
        assert(error_indices_from(rules, command, token, k) =~= Seq::<int>::empty());
        assert(rules.take(0) =~= Seq::<Abbrev>::empty());
    } else {
        let f = rules.first();
        assert(rules.drop_first().take(j - 1) =~= rules.take(j).drop_first());
        assert(open_chain(rules.drop_first().take(j - 1), command, token)) by {
            lemma_open_chain_drop(rules.take(j), command, token);
        }
        assert(rules.drop_first()[j - 1] == rules[j]);
        lemma_errors_stop(rules.drop_first(), j - 1, command, token, k + 1);
        assert(rules.take(j)[0] == f);
        if selects(f, command, token) {
            assert(f.condition is Some);
        }
    }
}

/// Scans the rules as `find_matches` does and reports, instead of the
/// matches, the rules that failed with a regex error before the scan
/// stopped, each identified by its position and label.
pub fn match_diagnostics(abbrevs: &[Abbrev], command: &str, last_arg: &str) -> (r: Vec<
    MatchDiagnostic,
>)
    ensures
        r@.len() == error_indices_from(abbrevs@, command@, last_arg@, 0).len(),
        forall|j: int|
            0 <= j < r@.len() ==> (#[trigger] r@[j]).index as int == error_indices_from(
                abbrevs@,
                command@,
                last_arg@,
                0,
            )[j] && 0 <= r@[j].index < abbrevs@.len() && r@[j].label@ == crate::config::abbrev::label_view(
                abbrevs@[r@[j].index as int],
            ),
{
    let ghost rules = abbrevs@;
    let ghost c = command@;
    let ghost t = last_arg@;
    let mut diags: Vec<MatchDiagnostic> = Vec::new();
    let mut i: usize = 0;
    while i < abbrevs.len()
        invariant
            rules == abbrevs@,
            c == command@,
            t == last_arg@,
            i <= rules.len(),
            open_chain(rules.take(i as int), c, t),
            diags@.len() == error_indices_from(rules.take(i as int), c, t, 0).len(),
            forall|j: int|
                0 <= j < diags@.len() ==> (#[trigger] diags@[j]).index as int
                    == error_indices_from(rules.take(i as int), c, t, 0)[j] && 0 <= diags@[j].index
                    < i && diags@[j].label@ == crate::config::abbrev::label_view(
                    rules[diags@[j].index as int],
                ),
        decreases rules.len() - i,
    {
        proof {
            assert(rules.take(i as int).push(rules[i as int]) =~= rules.take(i + 1));
            lemma_errors_push(rules.take(i as int), rules[i as int], c, t, 0);
        }
        let abbr = &abbrevs[i];
        match abbr.do_match_impl(command, last_arg) {
            Err(error) => {
                let label = abbr.label().to_owned();
                diags.push(MatchDiagnostic { index: i, label, error });
                proof {
                    assert forall|j: int|
                        0 <= j < rules.take(i + 1).len() && selects(
                            #[trigger] rules.take(i + 1)[j],
                            c,
                            t,
                        ) implies rules.take(i + 1)[j].condition is Some by {
                        if j < i {
                            assert(rules.take(i + 1)[j] == rules.take(i as int)[j]);
                        } else {
                            assert(rules.take(i + 1)[j] == rules[i as int]);
                        }
                    }
                }
            },
            Ok(m_opt) => {
                let stop = match m_opt {
                    Some(m) => m.condition.is_none(),
                    None => false,
                };
                if stop {
                    proof {
                        lemma_errors_stop(rules, i as int, c, t, 0);
                    }
                    return diags;
                }
                proof {
                    assert forall|j: int|
                        0 <= j < rules.take(i + 1).len() && selects(
                            #[trigger] rules.take(i + 1)[j],
                            c,
                            t,
                        ) implies rules.take(i + 1)[j].condition is Some by {
                        if j < i {
                            assert(rules.take(i + 1)[j] == rules.take(i as int)[j]);
                        } else {
                            assert(rules.take(i + 1)[j] == rules[i as int]);
                        }
                    }
                }
            },
        }
        i += 1;
    }
    proof {
        assert(rules.take(rules.len() as int) =~= rules);
    }
    diags
}

/// The expansion that rule `a` induces on buffer `lb`: snippet halves,
/// captures, and the replacement span its action asks for.
pub open spec fn expansion_view_of_rule(a: Abbrev, lb: Seq<char>) -> ExpansionView {
    let command = spec_command(lb);
    let token = spec_last_arg(lb);
    let cmd_start = lb.len() - command.len();
    let arg_start = lb.len() - token.len();
    ExpansionView {
        replacing_index: match a.action {
            Action::ReplaceLast => arg_start as int,
            Action::ReplaceAll => cmd_start as int,
            Action::Prepend => cmd_start as int,
        },
        end_index: match a.action {
            Action::Prepend => cmd_start as int,
            _ => lb.len() as int,
        },
        suffix: match a.action {
            Action::Prepend => " "@,
            _ => Seq::empty(),
        },
        left_snippet: split_of(a).0,
        right_snippet: split_of(a).1,
        condition: match a.condition {
            Some(c) => Some(c@),
            None => None,
        },
        variables: trigger_captures(a.trigger, token),
        evaluate: a.evaluate,
        has_placeholder: split_of(a).2,
    }
}

/// Builds the `Expansion` for one match, given the two span anchors.
fn expansion_of_match(
    m: &Match,
    last_arg_start_index: usize,
    command_start_index: usize,
    lblen: usize,
    Ghost(a): Ghost<Abbrev>,
    Ghost(lb): Ghost<Seq<char>>,
) -> (e: Expansion)
    requires
        match_of(a, spec_last_arg(lb), *m),
        lblen == lb.len(),
        command_start_index == lb.len() - spec_command(lb).len(),
        last_arg_start_index == lb.len() - spec_last_arg(lb).len(),
    ensures
        e@ == expansion_view_of_rule(a, lb),
{
    let (replacing_index, end_index) = match *m.action() {
        Action::ReplaceLast => (last_arg_start_index, lblen),
        Action::ReplaceAll => (command_start_index, lblen),
        Action::Prepend => (command_start_index, command_start_index),
    };
    let suffix = match *m.action() {
        Action::Prepend => " ".to_owned(),
        _ => String::new(),
    };
    let mut variables: Vec<ExpansionVariable> = Vec::new();
    let mut j: usize = 0;
    while j < m.captures.len()
        invariant
            j <= m.captures@.len(),
            variables@.len() == j,
            forall|k: int|
                0 <= k < j ==> (#[trigger] variables@[k]).name@ == m.captures@[k].name@
                    && variables@[k].value@ == m.captures@[k].value@,
        decreases m.captures@.len() - j,
    {
        let name = m.captures[j].name.clone();
        let value = m.captures[j].value.clone();
        variables.push(ExpansionVariable { name, value });
        j += 1;
    }
    proof {
        assert(vars_view(variables@) =~= caps_view(m.captures@));
    }
    let e = Expansion {
        replacing_index,
        end_index,
        suffix,
        left_snippet: m.left_snippet().to_owned(),
        right_snippet: m.right_snippet().to_owned(),
        condition: match m.condition() {
            Some(c) => Some(c.to_owned()),
            None => None,
        },
        variables,
        evaluate: m.evaluate(),
        has_placeholder: m.has_placeholder(),
    };
    e
}

/// One evaluation of a buffer snapshot: segments the buffer, builds the
/// candidate chain, and computes each candidate's replacement span.
pub fn expand(config: &Config, lbuffer: &str) -> (r: ExpandResult)
    ensures
        r.command@ == spec_command(lbuffer@),
        r.last_arg@ == spec_last_arg(lbuffer@),
        spec_last_arg(lbuffer@).len() == 0 ==> r.expansions@.len() == 0,
        spec_last_arg(lbuffer@).len() > 0 ==> r.expansions@.len() == candidate_rules(
            config.abbrevs@,
            spec_command(lbuffer@),
            spec_last_arg(lbuffer@),
        ).len(),
        forall|i: int|
            0 <= i < r.expansions@.len() ==> (#[trigger] r.expansions@[i])@
                == expansion_view_of_rule(
                candidate_rules(
                    config.abbrevs@,
                    spec_command(lbuffer@),
                    spec_last_arg(lbuffer@),
                )[i],
                lbuffer@,
            ),
{
    let lblen = lbuffer.unicode_len();
    let command_index = find_last_command_index(lbuffer);
    proof {
        lemma_command_start_le(lbuffer@);
    }
    let region = lbuffer.substring_char(command_index, lblen);
    let command = trim_start(region);
    let last_arg = split_last_word(command);
    proof {
        lemma_after_last_space_le(command@);
    }
    let clen = command.unicode_len();
    let alen = last_arg.unicode_len();

    if alen == 0 {
        return ExpandResult {
            command: command.to_owned(),
            last_arg: last_arg.to_owned(),
            expansions: Vec::new(),
        };
    }

    let last_arg_start_index = lblen - alen;
    let command_start_index = lblen - clen;

    let matches = find_matches(config.abbrevs.as_slice(), command, last_arg);
    let ghost chain = candidate_rules(config.abbrevs@, spec_command(lbuffer@), spec_last_arg(
        lbuffer@,
    ));

    let mut expansions: Vec<Expansion> = Vec::new();
    let mut i: usize = 0;
    while i < matches.len()
        invariant
            matches@.len() == chain.len(),
            forall|j: int|
                0 <= j < matches@.len() ==> match_of(chain[j], spec_last_arg(lbuffer@), #[trigger] matches@[j]),
            i <= matches@.len(),
            expansions@.len() == i,
            forall|j: int|
                0 <= j < i ==> (#[trigger] expansions@[j])@ == expansion_view_of_rule(
                    chain[j],
                    lbuffer@,
                ),
            lblen == lbuffer@.len(),
            command_start_index == lbuffer@.len() - spec_command(lbuffer@).len(),
            last_arg_start_index == lbuffer@.len() - spec_last_arg(lbuffer@).len(),
        decreases matches@.len() - i,
    {
        let e = expansion_of_match(
            &matches[i],
            last_arg_start_index,
            command_start_index,
            lblen,
            Ghost(chain[i as int]),
            Ghost(lbuffer@),
        );
        expansions.push(e);
        i += 1;
    }

    ExpandResult { command: command.to_owned(), last_arg: last_arg.to_owned(), expansions }
}

/// The `local name=value;` assignments for the captures of one candidate.
pub open spec fn vars_text(vars: Seq<(Seq<char>, Seq<char>)>) -> Seq<char>
    decreases vars.len(),
{
    if vars.len() == 0 {
        Seq::empty()
    } else {
        "local "@ + escaped(vars.first().0) + "="@ + escaped(vars.first().1) + ";"@ + vars_text(
            vars.drop_first(),
        )
    }
}

/// The guard that opens one branch: `if`/`elif` with the rule's condition,
/// `else` for an unconditional branch after guarded ones, nothing before
/// any guard was opened.
pub open spec fn guard_text(cond: Option<Seq<char>>, has_if: bool) -> Seq<char> {
    match cond {
        Some(c) => (if has_if {
            "elif eval "@
        } else {
            "if eval "@
        }) + escaped(c) + ";then "@,
        None => if has_if {
            "else "@
        } else {
            Seq::empty()
        },
    }
}

pub open spec fn left_line_text(l: Seq<char>) -> Seq<char> {
    "local left_snippet="@ + escaped(l) + ";"@
}

pub open spec fn right_line_text(r: Seq<char>) -> Seq<char> {
    "local right_snippet="@ + escaped(r) + ";"@
}

/// The command-substitution marker of an evaluated snippet.
pub open spec fn ev_text(evaluate: bool) -> Seq<char> {
    if evaluate {
        "(e)"@
    } else {
        Seq::empty()
    }
}

/// The untouched buffer text left of the replacement span.
pub open spec fn prefix_text(e: ExpansionView, lb: Seq<char>) -> Seq<char> {
    escaped(lb.subrange(0, e.replacing_index))
}

/// The action's glue after the snippet, when it has one.
pub open spec fn sfx_text(e: ExpansionView) -> Seq<char> {
    if e.suffix.len() == 0 {
        Seq::empty()
    } else {
        escaped(e.suffix)
    }
}

/// The untouched buffer text right of the replacement span, when there is
/// any.
pub open spec fn tail_text(e: ExpansionView, lb: Seq<char>) -> Seq<char> {
    if e.end_index == lb.len() {
        Seq::empty()
    } else {
        escaped(lb.subrange(e.end_index, lb.len() as int))
    }
}

pub open spec fn lbuffer_ph_text(e: ExpansionView, lb: Seq<char>) -> Seq<char> {
    "LBUFFER="@ + prefix_text(e, lb) + "\"${"@ + ev_text(e.evaluate) + "left_snippet}\";"@
}

pub open spec fn rbuffer_ph_text(e: ExpansionView, lb: Seq<char>, rb: Seq<char>) -> Seq<char> {
    "RBUFFER=\"${"@ + ev_text(e.evaluate) + "right_snippet}\""@ + sfx_text(e) + tail_text(e, lb)
        + escaped(rb) + ";"@
}

pub open spec fn lbuffer_simple_text(e: ExpansionView, lb: Seq<char>) -> Seq<char> {
    "LBUFFER="@ + prefix_text(e, lb) + "\"${"@ + ev_text(e.evaluate) + "left_snippet}\""@
        + sfx_text(e) + tail_text(e, lb) + ";"@
}

pub open spec fn rbuffer_simple_text(rb: Seq<char>) -> Seq<char> {
    "RBUFFER="@ + escaped(rb) + ";"@
}

/// The shell text of one branch of the conditional chain: its guard, its
/// capture assignments, and the buffer-variable assignments of its span.
pub open spec fn branch_text(e: ExpansionView, lb: Seq<char>, rb: Seq<char>, has_if: bool) -> Seq<
    char,
> {
    guard_text(e.condition, has_if) + vars_text(e.variables) + left_line_text(e.left_snippet) + (
    if e.has_placeholder {
        right_line_text(e.right_snippet) + lbuffer_ph_text(e, lb) + rbuffer_ph_text(e, lb, rb)
            + "__zabrze_has_placeholder=1;"@
    } else {
        lbuffer_simple_text(e, lb) + rbuffer_simple_text(rb) + "__zabrze_has_placeholder=;"@
    })
}

/// The conditional chain: one branch per candidate, stopping right after
/// the first one without a guard, closed by `fi` when a guard was opened.
pub open spec fn chain_text(exps: Seq<ExpansionView>, lb: Seq<char>, rb: Seq<char>, has_if: bool) -> Seq<
    char,
>
    decreases exps.len(),
{
    if exps.len() == 0 {
        if has_if {
            "fi"@
        } else {
            Seq::empty()
        }
    } else {
        let e = exps.first();
        if e.condition is Some {
            branch_text(e, lb, rb, has_if) + chain_text(exps.drop_first(), lb, rb, true)
        } else {
            branch_text(e, lb, rb, has_if) + (if has_if {
                "fi"@
            } else {
                Seq::empty()
            })
        }
    }
}

/// The whole emitted script: nothing when no candidate matched, else the
/// command and token bindings followed by the conditional chain.
pub open spec fn script_text(
    command: Seq<char>,
    last_arg: Seq<char>,
    exps: Seq<ExpansionView>,
    lb: Seq<char>,
    rb: Seq<char>,
) -> Seq<char> {
    if exps.len() == 0 {
        Seq::empty()
    } else {
        "local command="@ + escaped(command) + ";"@ + "local abbr="@ + escaped(last_arg) + ";"@
            + chain_text(exps, lb, rb, false) + "\n"@
    }
}

/// The mathematical contents of a list of expansions.
pub open spec fn expansions_view(es: Seq<Expansion>) -> Seq<ExpansionView> {
    es.map_values(|e: Expansion| e.view())
}

/// Appends the branch guard to `out`.
fn emit_guard(out: &mut String, e: &Expansion, has_if: bool)
    ensures
        final(out)@ == old(out)@ + guard_text(e@.condition, has_if),
{
    match &e.condition {
        Some(c) => {
            if has_if {
                out.append("elif eval ");
            } else {
                out.append("if eval ");
            }
            let esc = escape_str(c.as_str());
            out.append(esc.as_str());
            out.append(";then ");
        },
        None => {
            if has_if {
                out.append("else ");
            }
        },
    }
    proof {
        assert(final(out)@ =~= old(out)@ + guard_text(e@.condition, has_if));
    }
}

/// Appends the capture assignments to `out`.
fn emit_vars(out: &mut String, e: &Expansion)
    ensures
        final(out)@ == old(out)@ + vars_text(e@.variables),
{
    let ghost base = out@;
    let ghost vv = e@.variables;
    proof {
        assert(vv.skip(0) =~= vv);
    }
    let mut j: usize = 0;
    while j < e.variables.len()
        invariant
            vv == vars_view(e.variables@),
            j <= e.variables@.len(),
            out@ + vars_text(vv.skip(j as int)) == base + vars_text(vv),
        decreases e.variables@.len() - j,
    {
        proof {
            assert(vv.skip(j as int).first() == vv[j as int]);
            assert(vv.skip(j as int).drop_first() =~= vv.skip(j + 1));
        }
        let ghost out_before = out@;
        out.append("local ");
        let escn = escape_str(e.variables[j].name.as_str());
        out.append(escn.as_str());
        out.append("=");
        let escv = escape_str(e.variables[j].value.as_str());
        out.append(escv.as_str());
        out.append(";");
        proof {
            assert(out@ + vars_text(vv.skip(j + 1)) =~= out_before + vars_text(vv.skip(j as int)));
        }
        j += 1;
    }
    proof {
        assert(vv.skip(vv.len() as int) =~= Seq::<(Seq<char>, Seq<char>)>::empty());
        assert(out@ =~= base + vars_text(vv));
    }
}

/// Appends the `LBUFFER` assignment of a branch with a placeholder.
fn emit_lbuffer_ph(out: &mut String, e: &Expansion, lbuffer: &str)
    requires
        e.replacing_index <= lbuffer@.len(),
    ensures
        final(out)@ == old(out)@ + lbuffer_ph_text(e@, lbuffer@),
{
    out.append("LBUFFER=");
    let prefix = lbuffer.substring_char(0, e.replacing_index);
    let escp = escape_str(prefix);
    out.append(escp.as_str());
    out.append("\"${");
    if e.evaluate {
        out.append("(e)");
    }
    out.append("left_snippet}\";");
    proof {
        assert(final(out)@ =~= old(out)@ + lbuffer_ph_text(e@, lbuffer@));
    }
}

/// Appends the `RBUFFER` assignment of a branch with a placeholder.
fn emit_rbuffer_ph(out: &mut String, e: &Expansion, lbuffer: &str, rbuffer: &str)
    requires
        e.end_index <= lbuffer@.len(),
    ensures
        final(out)@ == old(out)@ + rbuffer_ph_text(e@, lbuffer@, rbuffer@),
{
    let lblen = lbuffer.unicode_len();
    out.append("RBUFFER=\"${");
    if e.evaluate {
        out.append("(e)");
    }
    out.append("right_snippet}\"");
    if !e.suffix.as_str().is_empty() {
        let escs = escape_str(e.suffix.as_str());
        out.append(escs.as_str());
    }
    if e.end_index < lblen {
        let tail = lbuffer.substring_char(e.end_index, lblen);
        let esct = escape_str(tail);
        out.append(esct.as_str());
    }
    let escrb = escape_str(rbuffer);
    out.append(escrb.as_str());
    out.append(";");
    proof {
        assert(final(out)@ =~= old(out)@ + rbuffer_ph_text(e@, lbuffer@, rbuffer@));
    }
}

/// Appends the `LBUFFER` assignment of a branch without a placeholder.
fn emit_lbuffer_simple(out: &mut String, e: &Expansion, lbuffer: &str)
    requires
        e.replacing_index <= lbuffer@.len(),
        e.end_index <= lbuffer@.len(),
    ensures
        final(out)@ == old(out)@ + lbuffer_simple_text(e@, lbuffer@),
{
    let lblen = lbuffer.unicode_len();
    out.append("LBUFFER=");
    let prefix = lbuffer.substring_char(0, e.replacing_index);
    let escp = escape_str(prefix);
    out.append(escp.as_str());
    out.append("\"${");
    if e.evaluate {
        out.append("(e)");
    }
    out.append("left_snippet}\"");
    if !e.suffix.as_str().is_empty() {
        let escs = escape_str(e.suffix.as_str());
        out.append(escs.as_str());
    }
    if e.end_index < lblen {
        let tail = lbuffer.substring_char(e.end_index, lblen);
        let esct = escape_str(tail);
        out.append(esct.as_str());
    }
    out.append(";");
    proof {
        assert(final(out)@ =~= old(out)@ + lbuffer_simple_text(e@, lbuffer@));
    }
}

/// Appends the shell text of one branch to `out`.
fn emit_branch(out: &mut String, e: &Expansion, lbuffer: &str, rbuffer: &str, has_if: bool)
    requires
        e.replacing_index <= lbuffer@.len(),
        e.end_index <= lbuffer@.len(),
    ensures
        final(out)@ == old(out)@ + branch_text(e@, lbuffer@, rbuffer@, has_if),
{
    let ghost c0 = out@;
    let ghost gt = guard_text(e@.condition, has_if);
    let ghost vt = vars_text(e@.variables);
    let ghost llt = left_line_text(e@.left_snippet);
    emit_guard(out, e, has_if);
    emit_vars(out, e);
    out.append("local left_snippet=");
    let escl = escape_str(e.left_snippet.as_str());
    out.append(escl.as_str());
    out.append(";");
    proof {
        let x2 = c0 + gt + vt;
        lemma_concat_assoc(x2, "local left_snippet="@, escaped(e@.left_snippet));
        lemma_concat_assoc(x2, "local left_snippet="@ + escaped(e@.left_snippet), ";"@);
        assert(out@ == x2 + llt);
    }
    let ghost after_left = out@;
    if e.has_placeholder {
        let ghost rlt = right_line_text(e@.right_snippet);
        out.append("local right_snippet=");
        let escr = escape_str(e.right_snippet.as_str());
        out.append(escr.as_str());
        out.append(";");
        proof {
            lemma_concat_assoc(after_left, "local right_snippet="@, escaped(e@.right_snippet));
            lemma_concat_assoc(
                after_left,
                "local right_snippet="@ + escaped(e@.right_snippet),
                ";"@,
            );
            assert(out@ == after_left + rlt);
        }
        emit_lbuffer_ph(out, e, lbuffer);
        emit_rbuffer_ph(out, e, lbuffer, rbuffer);
        out.append("__zabrze_has_placeholder=1;");
        proof {
            let lbt = lbuffer_ph_text(e@, lbuffer@);
            let rbt = rbuffer_ph_text(e@, lbuffer@, rbuffer@);
            let flag = "__zabrze_has_placeholder=1;"@;
            assert(out@ == after_left + rlt + lbt + rbt + flag);
            let x3 = c0 + gt + vt + llt;
            lemma_concat_assoc(x3, rlt, lbt);
            lemma_concat_assoc(x3, rlt + lbt, rbt);
            lemma_concat_assoc(x3, rlt + lbt + rbt, flag);
            assert(out@ == x3 + (rlt + lbt + rbt + flag));
            lemma_concat_assoc(c0, gt, vt);
            lemma_concat_assoc(c0, gt + vt, llt);
            lemma_concat_assoc(c0, gt + vt + llt, rlt + lbt + rbt + flag);
            assert(out@ == c0 + (gt + vt + llt + (rlt + lbt + rbt + flag)));
            assert(branch_text(e@, lbuffer@, rbuffer@, has_if) == gt + vt + llt + (rlt + lbt + rbt
                + flag));
        }
    } else {
        emit_lbuffer_simple(out, e, lbuffer);
        out.append("RBUFFER=");
        let escrb = escape_str(rbuffer);
        out.append(escrb.as_str());
        out.append(";");
        out.append("__zabrze_has_placeholder=;");
        proof {
            let lbt = lbuffer_simple_text(e@, lbuffer@);
            let rbt = rbuffer_simple_text(rbuffer@);
            let flag = "__zabrze_has_placeholder=;"@;
            let x4 = after_left + lbt;
            lemma_concat_assoc(x4, "RBUFFER="@, escaped(rbuffer@));
            lemma_concat_assoc(x4, "RBUFFER="@ + escaped(rbuffer@), ";"@);
            assert(out@ == x4 + rbt + flag);
            let x3 = c0 + gt + vt + llt;
            lemma_concat_assoc(x3, lbt, rbt);
            lemma_concat_assoc(x3, lbt + rbt, flag);
            assert(out@ == x3 + (lbt + rbt + flag));
            lemma_concat_assoc(c0, gt, vt);
            lemma_concat_assoc(c0, gt + vt, llt);
            lemma_concat_assoc(c0, gt + vt + llt, lbt + rbt + flag);
            assert(out@ == c0 + (gt + vt + llt + (lbt + rbt + flag)));
            assert(branch_text(e@, lbuffer@, rbuffer@, has_if) == gt + vt + llt + (lbt + rbt
                + flag));
        }
    }
}

/// Renders an evaluation outcome as the shell script the caller prints:
/// empty when no candidate matched.
pub fn emit(result: &ExpandResult, lbuffer: &str, rbuffer: &str) -> (out: String)
    requires
        forall|i: int|
            0 <= i < result.expansions@.len() ==> (#[trigger] result.expansions@[i]).replacing_index
                <= lbuffer@.len() && result.expansions@[i].end_index <= lbuffer@.len(),
    ensures
        out@ == script_text(
            result.command@,
            result.last_arg@,
            expansions_view(result.expansions@),
            lbuffer@,
            rbuffer@,
        ),
{
    let ghost evs = expansions_view(result.expansions@);
    let ghost target = script_text(result.command@, result.last_arg@, evs, lbuffer@, rbuffer@);
    let mut out = String::new();
    if result.expansions.len() == 0 {
        return out;
    }
    out.append("local command=");
    let escc = escape_str(result.command.as_str());
    out.append(escc.as_str());
    out.append(";");
    out.append("local abbr=");
    let esca = escape_str(result.last_arg.as_str());
    out.append(esca.as_str());
    out.append(";");
    let mut has_if = false;
    let mut i: usize = 0;
    proof {
        assert(evs.skip(0) =~= evs);
        assert(out@ + chain_text(evs.skip(0), lbuffer@, rbuffer@, false) + "\n"@ =~= target);
    }
    while i < result.expansions.len()
        invariant
            evs == expansions_view(result.expansions@),
            target == script_text(result.command@, result.last_arg@, evs, lbuffer@, rbuffer@),
            i <= result.expansions@.len(),
            out@ + chain_text(evs.skip(i as int), lbuffer@, rbuffer@, has_if) + "\n"@ == target,
            forall|k: int|
                0 <= k < result.expansions@.len() ==> (
                #[trigger] result.expansions@[k]).replacing_index <= lbuffer@.len()
                    && result.expansions@[k].end_index <= lbuffer@.len(),
        decreases result.expansions@.len() - i,
    {
        let e = &result.expansions[i];
        proof {
            assert(evs.skip(i as int).first() == evs[i as int]);
            assert(evs.skip(i as int).drop_first() =~= evs.skip(i + 1));
        }
        let ghost out_before = out@;
        emit_branch(&mut out, e, lbuffer, rbuffer, has_if);
        match &e.condition {
            Some(_) => {
                proof {
                    assert(out@ + chain_text(evs.skip(i + 1), lbuffer@, rbuffer@, true) + "\n"@
                        =~= out_before + chain_text(evs.skip(i as int), lbuffer@, rbuffer@, has_if)
                        + "\n"@);
                }
                has_if = true;
            },
            None => {
                if has_if {
                    out.append("fi");
                }
                out.append("\n");
                proof {
                    assert(out@ =~= target);
                }
                return out;
            },
        }
        i += 1;
    }
    proof {
        assert(evs.skip(evs.len() as int) =~= Seq::<ExpansionView>::empty());
    }
    if has_if {
        out.append("fi");
    }
    out.append("\n");
    proof {
        assert(out@ =~= target);
    }
    out
}

/// The script the engine emits for a buffer snapshot under a rule set.
pub open spec fn render_spec(rules: Seq<Abbrev>, lb: Seq<char>, rb: Seq<char>) -> Seq<char> {
    let command = spec_command(lb);
    let token = spec_last_arg(lb);
    if token.len() == 0 {
        Seq::empty()
    } else {
        script_text(
            command,
            token,
            candidate_rules(rules, command, token).map_values(
                |a: Abbrev| expansion_view_of_rule(a, lb),
            ),
            lb,
            rb,
        )
    }
}

/// The command region and its token never outgrow the buffer.
pub proof fn lemma_segment_bounds(lb: Seq<char>)
    ensures
        spec_last_arg(lb).len() <= spec_command(lb).len(),
        spec_command(lb).len() <= lb.len(),
{
    lemma_command_start_le(lb);
    crate::strutil::lemma_trim_start_len(lb.skip(command_start(lb)));
    lemma_after_last_space_le(spec_command(lb));
}

/// One whole engine run: evaluates the buffer against the rules and renders
/// the resulting chain as shell code.
pub fn render(config: &Config, lbuffer: &str, rbuffer: &str) -> (out: String)
    ensures
        out@ == render_spec(config.abbrevs@, lbuffer@, rbuffer@),
{
    let result = expand(config, lbuffer);
    let ghost lb = lbuffer@;
    let ghost command = spec_command(lb);
    let ghost token = spec_last_arg(lb);
    let ghost chain = candidate_rules(config.abbrevs@, command, token);
    proof {
        lemma_segment_bounds(lb);
        assert forall|i: int|
            0 <= i < result.expansions@.len() implies (
        #[trigger] result.expansions@[i]).replacing_index <= lbuffer@.len()
            && result.expansions@[i].end_index <= lbuffer@.len() by {
            assert(result.expansions@[i]@ == expansion_view_of_rule(chain[i], lb));
        }
    }
    let out = emit(&result, lbuffer, rbuffer);
    proof {
        if token.len() == 0 {
            assert(out@ =~= render_spec(config.abbrevs@, lb, rbuffer@));
        } else {
            assert(expansions_view(result.expansions@) =~= chain.map_values(
                |a: Abbrev| expansion_view_of_rule(a, lb),
            ));
        }
    }
    out
}

} // verus!
