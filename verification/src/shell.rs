//! Trusted boundary to the `shell-escape` crate, with the quoting rules
//! stated in full.

use vstd::prelude::*;

verus! {

/// A character the shell reads as itself, needing no quoting: the
/// allowlist of `shell_escape::unix::escape`.
pub open spec fn shell_safe_char(c: char) -> bool {
    ||| ('a' <= c && c <= 'z')
    ||| ('A' <= c && c <= 'Z')
    ||| ('0' <= c && c <= '9')
    ||| c == '-'
    ||| c == '_'
    ||| c == '='
    ||| c == '/'
    ||| c == ','
    ||| c == '.'
    ||| c == '+'
}

/// How one character reads inside a single-quoted shell word: `'` and `!`
/// must step outside the quotes and be escaped there.
pub open spec fn escaped_char(c: char) -> Seq<char> {
    if c == '\'' || c == '!' {
        seq!['\'', '\\', c, '\'']
    } else {
        seq![c]
    }
}

pub open spec fn escaped_body(s: Seq<char>) -> Seq<char>
    decreases s.len(),
{
    if s.len() == 0 {
        Seq::empty()
    } else {
        escaped_char(s.first()) + escaped_body(s.drop_first())
    }
}

/// The quoted form of a string, safe to interpolate into emitted shell
/// code: a non-empty string of wholly safe characters passes through
/// unchanged; anything else is wrapped in single quotes with `'` and `!`
/// rewritten. Opaque so that proofs about emitted text need not unfold the
/// quoting rules; `reveal(escaped)` serves a caller that does.
#[verifier::opaque]
pub open spec fn escaped(s: Seq<char>) -> Seq<char> {
    if s.len() > 0 && (forall|i: int| 0 <= i < s.len() ==> shell_safe_char(s[i])) {
        s
    } else {
        seq!['\''] + escaped_body(s) + seq!['\'']
    }
}

/// Relies on shell_escape::unix::escape: it returns its input unchanged
/// when that is non-empty and wholly allowlisted, and otherwise wraps it in
/// single quotes, rewriting each `'` and `!` as `'\x'` for the character x.
/// The emitted code targets zsh, so the unix rules are the ones meant on
/// every platform.
#[verifier::external_body]
pub fn escape_str(s: &str) -> (r: String)
    ensures
        r@ == escaped(s@),
{
    shell_escape::unix::escape(std::borrow::Cow::from(s)).into_owned()
}

} // verus!
