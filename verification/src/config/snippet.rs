//! One expansion rule in the newer declaration shape. It differs from the
//! classic shape in three points: the trigger variants carry the newer
//! names, an empty cursor marker is ignored rather than split on, and a
//! rule can ask for the whole expansion to be rolled back when its
//! evaluated snippet fails.

use vstd::prelude::*;
use vstd::string::*;

use crate::pattern::{pairs_view, regex_captures, regex_match_text, regex_capture_text,
    regex_matches, regex_valid};
use crate::strutil::{find_sub, find_substr, lemma_find_sub_first};

verus! {

#[derive(Debug)]
pub enum ExpandError {
    Regex(regex::Error),
}

/// The predicate that decides whether a rule applies to the current token:
/// either an exact text or a regular-expression pattern.
#[derive(Debug)]
pub enum Trigger {
    Text(String),
    Regex(String),
}

/// Whether every regular expression the trigger needs compiles.
pub open spec fn trigger_valid(t: Trigger) -> bool {
    match t {
        Trigger::Text(_) => true,
        Trigger::Regex(p) => regex_valid(p@),
    }
}

/// Whether the trigger applies to `token`: exact equality for a text
/// trigger, a pattern match for a regex trigger.
pub open spec fn trigger_matches(t: Trigger, token: Seq<char>) -> bool {
    match t {
        Trigger::Text(s) => s@ == token,
        Trigger::Regex(p) => regex_matches(p@, token),
    }
}

/// The captures a successful trigger match yields: none for a text trigger,
/// the participating named groups in declaration order for a pattern.
pub open spec fn trigger_captures(t: Trigger, token: Seq<char>) -> Seq<(Seq<char>, Seq<char>)> {
    match t {
        Trigger::Text(_) => Seq::empty(),
        Trigger::Regex(p) => regex_captures(p@, token),
    }
}

/// One named group that participated in a pattern match, with the text it
/// matched.
#[derive(Debug, PartialEq, Eq)]
pub struct Capture {
    pub name: String,
    pub value: String,
}

/// The character sequences of a capture list.
pub open spec fn caps_view(cs: Seq<Capture>) -> Seq<(Seq<char>, Seq<char>)> {
    cs.map_values(|c: Capture| (c.name@, c.value@))
}

impl Trigger {
    /// Decides the trigger against `last_arg` and extracts the captures.
    pub fn match_pattern(&self, last_arg: &str) -> (r: Result<Option<Vec<Capture>>, ExpandError>)
        ensures
            r is Ok <==> trigger_valid(*self),
            r matches Ok(o) ==> ((o is Some) <==> trigger_matches(*self, last_arg@)),
            r matches Ok(o) ==> (o matches Some(caps) ==> caps_view(caps@) == trigger_captures(
                *self,
                last_arg@,
            )),
    {
        match self {
            Trigger::Text(trigger) => {
                if crate::strutil::str_eq(trigger.as_str(), last_arg) {
                    let caps: Vec<Capture> = Vec::new();
                    proof {
                        assert(caps_view(caps@) =~= trigger_captures(*self, last_arg@));
                    }
                    Ok(Some(caps))
                } else {
                    Ok(None)
                }
            },
            Trigger::Regex(regex) => {
                match regex_capture_text(regex.as_str(), last_arg) {
                    Err(e) => Err(ExpandError::Regex(e)),
                    Ok(None) => Ok(None),
                    Ok(Some(pairs)) => {
                        let mut caps: Vec<Capture> = Vec::new();
                        let mut i: usize = 0;
                        while i < pairs.len()
                            invariant
                                i <= pairs@.len(),
                                caps@.len() == i,
                                forall|j: int|
                                    0 <= j < i ==> (#[trigger] caps@[j]).name@ == pairs@[j].0@
                                        && caps@[j].value@ == pairs@[j].1@,
                            decreases pairs@.len() - i,
                        {
                            let name = pairs[i].0.clone();
                            let value = pairs[i].1.clone();
                            caps.push(Capture { name, value });
                            i += 1;
                        }
                        proof {
                            assert(caps_view(caps@) =~= pairs_view(pairs@));
                        }
                        Ok(Some(caps))
                    },
                }
            },
        }
    }
}

/// The replacement strategy of a rule.
#[derive(Debug, Clone, Copy, PartialEq, Eq, Structural)]
pub enum Action {
    ReplaceLast,
    ReplaceAll,
    Prepend,
}

/// One expansion rule.
#[derive(Debug)]
pub struct Snippet {
    pub name: Option<String>,
    pub trigger: Trigger,
    pub snippet: String,
    pub cursor: Option<String>,
    pub action: Action,
    pub context: Option<String>,
    pub condition: Option<String>,
    pub global: bool,
    pub evaluate: bool,
    pub abort_on_error: bool,
}

/// The scope gate: a non-global rule applies only when the token is the
/// whole command.
pub open spec fn scope_ok(a: Snippet, command: Seq<char>, token: Seq<char>) -> bool {
    a.global || command == token
}

/// Whether the context regex, if any, compiles.
pub open spec fn context_valid(a: Snippet) -> bool {
    match a.context {
        Some(c) => regex_valid(c@),
        None => true,
    }
}

/// Whether the context constraint holds of the current command; no context
/// means it always holds.
pub open spec fn context_holds(a: Snippet, command: Seq<char>) -> bool {
    match a.context {
        Some(c) => regex_matches(c@, command),
        None => true,
    }
}

/// The rule produces a match on (`command`, `token`).
pub open spec fn selects(a: Snippet, command: Seq<char>, token: Seq<char>) -> bool {
    &&& scope_ok(a, command, token)
    &&& trigger_valid(a.trigger)
    &&& trigger_matches(a.trigger, token)
    &&& context_valid(a)
    &&& context_holds(a, command)
}

/// The rule's evaluation fails with a diagnostic: a regex it needs does not
/// compile, at the point where matching would consult it.
pub open spec fn match_error(a: Snippet, command: Seq<char>, token: Seq<char>) -> bool {
    &&& scope_ok(a, command, token)
    &&& (!trigger_valid(a.trigger) || (trigger_matches(a.trigger, token) && !context_valid(a)))
}

/// The snippet split at the first occurrence of the cursor marker:
/// (text left of the cursor, text right of it, whether a marker was found).
/// An empty marker never splits.
pub open spec fn split_of(a: Snippet) -> (Seq<char>, Seq<char>, bool) {
    match a.cursor {
        Some(cur) => if cur@.len() == 0 {
            (a.snippet@, Seq::empty(), false)
        } else {
            match find_sub(a.snippet@, cur@) {
                Some(i) => (
                    a.snippet@.subrange(0, i),
                    a.snippet@.subrange(i + cur@.len(), a.snippet@.len() as int),
                    true,
                ),
                None => (a.snippet@, Seq::empty(), false),
            }
        },
        None => (a.snippet@, Seq::empty(), false),
    }
}

/// `m` is exactly the match that rule `a` produces on `token`.
pub open spec fn match_of(a: Snippet, token: Seq<char>, m: Match) -> bool {
    &&& m.action == a.action
    &&& m.condition == a.condition
    &&& m.evaluate == a.evaluate
    &&& m.abort_on_error == a.abort_on_error
    &&& caps_view(m.captures@) == trigger_captures(a.trigger, token)
    &&& m.left_view() == split_of(a).0
    &&& m.right_view() == split_of(a).1
    &&& m.placeholder_view() == split_of(a).2
}

impl Snippet {
    /// Evaluates the rule, treating a regex error as a non-match; the
    /// diagnostic-carrying variant is `do_match_impl`.
    pub fn do_match(&self, command: &str, last_arg: &str) -> (r: Option<Match>)
        ensures
            (r is Some) <==> selects(*self, command@, last_arg@),
            r matches Some(m) ==> match_of(*self, last_arg@, m),
    {
        match self.do_match_impl(command, last_arg) {
            Ok(m) => m,
            Err(_) => None,
        }
    }

    /// Evaluates the rule on the current (`command`, `last_arg`) pair:
    /// scope gate, then trigger, then context, then the cursor split.
    pub fn do_match_impl(&self, command: &str, last_arg: &str) -> (r: Result<
        Option<Match>,
        ExpandError,
    >)
        ensures
            (r is Err) <==> match_error(*self, command@, last_arg@),
            r matches Ok(o) ==> ((o is Some) <==> selects(*self, command@, last_arg@)),
            r matches Ok(o) ==> (o matches Some(m) ==> match_of(*self, last_arg@, m)),
    {
        if !(self.global || crate::strutil::str_eq(command, last_arg)) {
            return Ok(None);
        }
        let captures = match self.trigger.match_pattern(last_arg) {
            Err(e) => return Err(e),
            Ok(None) => return Ok(None),
            Ok(Some(captures)) => captures,
        };
        match self.match_context(command) {
            Err(e) => return Err(e),
            Ok(false) => return Ok(None),
            Ok(true) => {},
        }
        let matched_snippet = self.split_snippet();
        Ok(
            Some(
                Match {
                    action: self.action,
                    condition: match &self.condition {
                        Some(c) => Some(c.clone()),
                        None => None,
                    },
                    evaluate: self.evaluate,
                    abort_on_error: self.abort_on_error,
                    matched_snippet,
                    captures,
                },
            ),
        )
    }

    /// Splits the snippet template at the first occurrence of the rule's
    /// cursor marker, if the rule has a non-empty one and it occurs.
    fn split_snippet(&self) -> (r: MatchedSnippet)
        ensures
            r.left_view() == split_of(*self).0,
            r.right_view() == split_of(*self).1,
            r.placeholder_view() == split_of(*self).2,
    {
        match &self.cursor {
            Some(cursor) => {
                if cursor.as_str().unicode_len() == 0 {
                    return MatchedSnippet::Simple(self.snippet.clone());
                }
                match find_substr(self.snippet.as_str(), cursor.as_str()) {
                    Some(i) => {
                        proof {
                            lemma_find_sub_first(self.snippet@, cursor@);
                        }
                        let snip = self.snippet.as_str();
                        let slen = snip.unicode_len();
                        let clen = cursor.as_str().unicode_len();
                        let left = snip.substring_char(0, i);
                        let right = snip.substring_char(i + clen, slen);
                        MatchedSnippet::WithPlaceholder {
                            left: left.to_owned(),
                            right: right.to_owned(),
                        }
                    },
                    None => MatchedSnippet::Simple(self.snippet.clone()),
                }
            },
            None => MatchedSnippet::Simple(self.snippet.clone()),
        }
    }

    /// Decides the context constraint against the current command.
    fn match_context(&self, command: &str) -> (r: Result<bool, ExpandError>)
        ensures
            (r is Ok) <==> context_valid(*self),
            r matches Ok(b) ==> b == context_holds(*self, command@),
    {
        let context = match &self.context {
            Some(context) => context,
            None => return Ok(true),  // No context means always match
        };
        match regex_match_text(context.as_str(), command) {
            Ok(b) => Ok(b),
            Err(e) => Err(ExpandError::Regex(e)),
        }
    }
}

/// A non-global rule reaches its trigger only when the token is the entire
/// command.
pub proof fn lemma_non_global_needs_whole_command(a: Snippet, command: Seq<char>, token: Seq<char>)
    requires
        !a.global,
        selects(a, command, token),
    ensures
        command == token,
{
}

/// The outcome of a successful rule evaluation.
#[derive(Debug)]
pub struct Match {
    pub action: Action,
    pub condition: Option<String>,
    pub evaluate: bool,
    pub abort_on_error: bool,
    pub matched_snippet: MatchedSnippet,
    pub captures: Vec<Capture>,
}

impl Match {
    pub open spec fn left_view(self) -> Seq<char> {
        self.matched_snippet.left_view()
    }

    pub open spec fn right_view(self) -> Seq<char> {
        self.matched_snippet.right_view()
    }

    pub open spec fn placeholder_view(self) -> bool {
        self.matched_snippet.placeholder_view()
    }

    pub fn left_snippet(&self) -> (r: &str)
        ensures
            r@ == self.left_view(),
    {
        match &self.matched_snippet {
            MatchedSnippet::Simple(s) => s.as_str(),
            MatchedSnippet::WithPlaceholder { left, right: _ } => left.as_str(),
        }
    }

    pub fn right_snippet(&self) -> (r: &str)
        ensures
            r@ == self.right_view(),
    {
        proof {
            reveal_strlit("");
            assert(""@ =~= Seq::<char>::empty());
        }
        match &self.matched_snippet {
            MatchedSnippet::Simple(_) => "",
            MatchedSnippet::WithPlaceholder { left: _, right } => right.as_str(),
        }
    }

    pub fn has_placeholder(&self) -> (r: bool)
        ensures
            r == self.placeholder_view(),
    {
        match &self.matched_snippet {
            MatchedSnippet::Simple(_) => false,
            MatchedSnippet::WithPlaceholder { left: _, right: _ } => true,
        }
    }

    pub fn action(&self) -> (r: &Action)
        ensures
            *r == self.action,
    {
        &self.action
    }

    pub fn condition(&self) -> (r: Option<&str>)
        ensures
            (r is Some) <==> (self.condition is Some),
            r matches Some(c) ==> (self.condition matches Some(sc) && c@ == sc@),
    {
        match &self.condition {
            Some(c) => Some(c.as_str()),
            None => None,
        }
    }

    pub fn evaluate(&self) -> (r: bool)
        ensures
            r == self.evaluate,
    {
        self.evaluate
    }

    pub fn abort_on_error(&self) -> (r: bool)
        ensures
            r == self.abort_on_error,
    {
        self.abort_on_error
    }
}

/// A snippet after the cursor split: either unsplit, or cut into the text
/// left and right of the cursor position.
#[derive(Debug)]
pub enum MatchedSnippet {
    Simple(String),
    WithPlaceholder { left: String, right: String },
}

impl MatchedSnippet {
    pub open spec fn left_view(self) -> Seq<char> {
        match self {
            MatchedSnippet::Simple(s) => s@,
            MatchedSnippet::WithPlaceholder { left, right } => left@,
        }
    }

    pub open spec fn right_view(self) -> Seq<char> {
        match self {
            MatchedSnippet::Simple(s) => Seq::empty(),
            MatchedSnippet::WithPlaceholder { left, right } => right@,
        }
    }

    pub open spec fn placeholder_view(self) -> bool {
        match self {
            MatchedSnippet::Simple(s) => false,
            MatchedSnippet::WithPlaceholder { left, right } => true,
        }
    }
}

pub fn default_cursor() -> (r: Option<String>)
    ensures
        r matches Some(c) && c@ == "{}"@,
{
    Some(String::from_str("{}"))
}

pub fn default_as_false() -> (r: bool)
    ensures
        r == false,
{
    false
}

} // verus!
