//! The `trigger=snippet` listing of a rule set.

use vstd::prelude::*;
use vstd::string::*;

use crate::config::Config;
use crate::config::abbrev::{Abbrev, Trigger};
use crate::shell::{escape_str, escaped};
use crate::strutil::lemma_concat_assoc;

verus! {

/// The text a trigger is listed under: the literal text or the pattern
/// source.
pub open spec fn trigger_text(t: Trigger) -> Seq<char> {
    match t {
        Trigger::Abbr(s) => s@,
        Trigger::Regex(p) => p@,
    }
}

/// One listing line per rule: its trigger, `=`, and its quoted snippet.
pub open spec fn list_text(rules: Seq<Abbrev>) -> Seq<char>
    decreases rules.len(),
{
    if rules.len() == 0 {
        Seq::empty()
    } else {
        trigger_text(rules.first().trigger) + "="@ + escaped(rules.first().snippet@) + "\n"@
            + list_text(rules.drop_first())
    }
}

/// Renders the listing of every rule, in declaration order.
pub fn list(config: &Config) -> (out: String)
    ensures
        out@ == list_text(config.abbrevs@),
{
    let ghost rules = config.abbrevs@;
    let mut out = String::new();
    proof {
        assert(rules.skip(0) =~= rules);
        assert(out@ + list_text(rules) =~= list_text(rules));
    }
    let mut i: usize = 0;
    while i < config.abbrevs.len()
        invariant
            rules == config.abbrevs@,
            i <= rules.len(),
            out@ + list_text(rules.skip(i as int)) == list_text(rules),
        decreases rules.len() - i,
    {
        proof {
            assert(rules.skip(i as int).first() == rules[i as int]);
            assert(rules.skip(i as int).drop_first() =~= rules.skip(i + 1));
        }
        let ghost out_before = out@;
        let abbr = &config.abbrevs[i];
        match &abbr.trigger {
            Trigger::Abbr(s) => out.append(s.as_str()),
            Trigger::Regex(p) => out.append(p.as_str()),
        }
        out.append("=");
        let esc = escape_str(abbr.snippet.as_str());
        out.append(esc.as_str());
        out.append("\n");
        proof {
            let line = trigger_text(rules[i as int].trigger) + "="@ + escaped(
                rules[i as int].snippet@,
            ) + "\n"@;
            assert(out@ == out_before + line) by {
                let tt = trigger_text(rules[i as int].trigger);
                lemma_concat_assoc(out_before, tt, "="@);
                lemma_concat_assoc(out_before, tt + "="@, escaped(rules[i as int].snippet@));
                lemma_concat_assoc(
                    out_before,
                    tt + "="@ + escaped(rules[i as int].snippet@),
                    "\n"@,
                );
            }
            lemma_concat_assoc(out_before, line, list_text(rules.skip(i + 1)));
            assert(line + list_text(rules.skip(i + 1)) == list_text(rules.skip(i as int)));
        }
        i += 1;
    }
    proof {
        assert(rules.skip(rules.len() as int) =~= Seq::<Abbrev>::empty());
        assert(out@ + list_text(rules.skip(rules.len() as int)) =~= out@);
    }
    out
}

} // verus!
