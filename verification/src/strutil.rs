//! Character-level string helpers for the expansion engine.
//!
//! All indices in this crate count characters (Unicode scalar values), so a
//! computed cut can never land inside the encoding of a multi-byte character.

use vstd::prelude::*;
use vstd::string::*;

verus! {

/// A character on which the edit buffer is cut into words, following the
/// White_Space property that `char::is_whitespace` tests.
pub open spec fn is_space_char(c: char) -> bool {
    ||| c == ' '
    ||| c == '\t'
    ||| c == '\n'
    ||| c == '\r'
    ||| c == '\u{000B}'
    ||| c == '\u{000C}'
    ||| c == '\u{0085}'
    ||| c == '\u{00A0}'
    ||| c == '\u{1680}'
    ||| c == '\u{2000}'
    ||| c == '\u{2001}'
    ||| c == '\u{2002}'
    ||| c == '\u{2003}'
    ||| c == '\u{2004}'
    ||| c == '\u{2005}'
    ||| c == '\u{2006}'
    ||| c == '\u{2007}'
    ||| c == '\u{2008}'
    ||| c == '\u{2009}'
    ||| c == '\u{200A}'
    ||| c == '\u{2028}'
    ||| c == '\u{2029}'
    ||| c == '\u{202F}'
    ||| c == '\u{205F}'
    ||| c == '\u{3000}'
}

pub fn is_space(c: char) -> (r: bool)
    ensures
        r == is_space_char(c),
{
    c == ' ' || c == '\t' || c == '\n' || c == '\r' || c == '\u{000B}' || c == '\u{000C}'
        || c == '\u{0085}' || c == '\u{00A0}' || c == '\u{1680}' || c == '\u{2000}'
        || c == '\u{2001}' || c == '\u{2002}' || c == '\u{2003}' || c == '\u{2004}'
        || c == '\u{2005}' || c == '\u{2006}' || c == '\u{2007}' || c == '\u{2008}'
        || c == '\u{2009}' || c == '\u{200A}' || c == '\u{2028}' || c == '\u{2029}'
        || c == '\u{202F}' || c == '\u{205F}' || c == '\u{3000}'
}

/// Character equality of two string slices.
pub fn str_eq(a: &str, b: &str) -> (r: bool)
    ensures
        r == (a@ == b@),
{
    let alen = a.unicode_len();
    let blen = b.unicode_len();
    if alen != blen {
        return false;
    }
    let mut i: usize = 0;
    while i < alen
        invariant
            alen == a@.len(),
            alen == b@.len(),
            i <= alen,
            forall|j: int| 0 <= j < i ==> a@[j] == b@[j],
        decreases alen - i,
    {
        if a.get_char(i) != b.get_char(i) {
            return false;
        }
        i += 1;
    }
    proof {
        assert(a@ =~= b@);
    }
    true
}

/// The needle `m` occurs in `s` starting at character position `i`.
pub open spec fn occurs_at(s: Seq<char>, m: Seq<char>, i: int) -> bool {
    &&& 0 <= i
    &&& i + m.len() <= s.len()
    &&& s.subrange(i, i + m.len() as int) == m
}

/// Position of the first occurrence of `m` in `s`, if any.
pub open spec fn find_sub(s: Seq<char>, m: Seq<char>) -> Option<int>
    decreases s.len(),
{
    if m.len() > s.len() {
        None
    } else if s.take(m.len() as int) == m {
        Some(0)
    } else if s.len() == 0 {
        None
    } else {
        match find_sub(s.drop_first(), m) {
            Some(i) => Some(i + 1),
            None => None,
        }
    }
}

/// `find_sub` names the first occurrence: the returned position carries the
/// needle and no earlier position does; `None` means no position does.
pub proof fn lemma_find_sub_first(s: Seq<char>, m: Seq<char>)
    ensures
        match find_sub(s, m) {
            Some(i) => occurs_at(s, m, i) && (forall|j: int| 0 <= j < i ==> !occurs_at(s, m, j)),
            None => forall|j: int| !occurs_at(s, m, j),
        },
    decreases s.len(),
{
    if m.len() > s.len() {
        assert(forall|j: int| !occurs_at(s, m, j));
    } else if s.take(m.len() as int) == m {
        assert(s.subrange(0, m.len() as int) == m);
    } else if s.len() == 0 {
        assert(s.take(m.len() as int) =~= m);
    } else {
        lemma_find_sub_first(s.drop_first(), m);
        assert forall|j: int| 1 <= j && occurs_at(s, m, j) implies occurs_at(
            s.drop_first(),
            m,
            j - 1,
        ) by {
            assert(s.drop_first().subrange(j - 1, j - 1 + m.len() as int) =~= s.subrange(
                j,
                j + m.len() as int,
            ));
        }
        assert forall|j: int| 0 <= j && occurs_at(s.drop_first(), m, j) implies occurs_at(
            s,
            m,
            j + 1,
        ) by {
            assert(s.subrange(j + 1, j + 1 + m.len() as int) =~= s.drop_first().subrange(
                j,
                j + m.len() as int,
            ));
        }
        assert(!occurs_at(s, m, 0)) by {
            assert(s.take(m.len() as int) == s.subrange(0, m.len() as int));
        }
    }
}

/// Whether `m` occurs in `s` at position `i`, decided character by character.
fn match_at(s: &str, m: &str, i: usize, slen: usize, mlen: usize) -> (r: bool)
    requires
        slen == s@.len(),
        mlen == m@.len(),
        i + mlen <= slen,
    ensures
        r == occurs_at(s@, m@, i as int),
{
    let mut j: usize = 0;
    while j < mlen
        invariant
            slen == s@.len(),
            mlen == m@.len(),
            i + mlen <= slen,
            j <= mlen,
            forall|k: int| 0 <= k < j ==> s@[i + k] == m@[k],
        decreases mlen - j,
    {
        if s.get_char(i + j) != m.get_char(j) {
            assert(s@.subrange(i as int, i + mlen as int)[j as int] != m@[j as int]);
            return false;
        }
        j += 1;
    }
    proof {
        assert(s@.subrange(i as int, i + mlen as int) =~= m@);
    }
    true
}

/// First occurrence of `m` in `s`, as a character position.
pub fn find_substr(s: &str, m: &str) -> (r: Option<usize>)
    ensures
        match r {
            Some(i) => find_sub(s@, m@) == Some(i as int),
            None => find_sub(s@, m@) is None,
        },
{
    proof {
        lemma_find_sub_first(s@, m@);
    }
    let slen = s.unicode_len();
    let mlen = m.unicode_len();
    if mlen > slen {
        return None;
    }
    if mlen == 0 {
        proof {
            assert(s@.subrange(0, 0) =~= m@);
        }
        return Some(0);
    }
    let mut i: usize = 0;
    while i <= slen - mlen
        invariant
            slen == s@.len(),
            mlen == m@.len(),
            1 <= mlen <= slen,
            i <= slen - mlen + 1,
            forall|j: int| 0 <= j < i ==> !occurs_at(s@, m@, j),
        decreases slen - mlen + 1 - i,
    {
        if match_at(s, m, i, slen, mlen) {
            proof {
                lemma_find_sub_first(s@, m@);
                match find_sub(s@, m@) {
                    Some(k) => {
                        if k < i {
                            assert(!occurs_at(s@, m@, k));
                        } else if k > i {
                            assert(!occurs_at(s@, m@, i as int));
                        }
                    },
                    None => {
                        assert(!occurs_at(s@, m@, i as int));
                    },
                }
            }
            return Some(i);
        }
        i += 1;
    }
    proof {
        assert forall|j: int| !occurs_at(s@, m@, j) by {
            if 0 <= j && j + m@.len() <= s@.len() {
                assert(j < i);
            }
        }
    }
    None
}

/// What is left of `s` once every leading whitespace character is dropped.
pub open spec fn trim_start_spec(s: Seq<char>) -> Seq<char>
    decreases s.len(),
{
    if s.len() > 0 && is_space_char(s.first()) {
        trim_start_spec(s.drop_first())
    } else {
        s
    }
}

/// Concatenation of sequences is associative.
pub proof fn lemma_concat_assoc<A>(a: Seq<A>, b: Seq<A>, c: Seq<A>)
    ensures
        a + b + c == a + (b + c),
{
    assert(a + b + c =~= a + (b + c));
}

pub proof fn lemma_trim_start_len(s: Seq<char>)
    ensures
        trim_start_spec(s).len() <= s.len(),
    decreases s.len(),
{
    if s.len() > 0 && is_space_char(s.first()) {
        lemma_trim_start_len(s.drop_first());
    }
}

proof fn lemma_trim_start_at(s: Seq<char>, k: int)
    requires
        0 <= k <= s.len(),
        forall|j: int| 0 <= j < k ==> is_space_char(s[j]),
        k < s.len() ==> !is_space_char(s[k]),
    ensures
        trim_start_spec(s) == s.skip(k),
    decreases k,
{
    if k == 0 {
        assert(s.skip(0) =~= s);
    } else {
        assert(is_space_char(s.first()));
        lemma_trim_start_at(s.drop_first(), k - 1);
        assert(s.drop_first().skip(k - 1) =~= s.skip(k));
    }
}

/// Drops leading whitespace, returning a tail slice of `s`.
pub fn trim_start(s: &str) -> (r: &str)
    ensures
        r@ == trim_start_spec(s@),
        r@.len() <= s@.len(),
{
    let len = s.unicode_len();
    let mut k: usize = 0;
    while k < len && is_space(s.get_char(k))
        invariant
            len == s@.len(),
            k <= len,
            forall|j: int| 0 <= j < k ==> is_space_char(s@[j]),
        decreases len - k,
    {
        k += 1;
    }
    proof {
        lemma_trim_start_at(s@, k as int);
    }
    s.substring_char(k, len)
}

/// Position just after the last whitespace character of `s`; 0 when `s`
/// holds none.
pub open spec fn after_last_space(s: Seq<char>) -> int
    decreases s.len(),
{
    if s.len() == 0 {
        0
    } else if is_space_char(s.last()) {
        s.len() as int
    } else {
        after_last_space(s.drop_last())
    }
}

proof fn lemma_after_last_space_at(s: Seq<char>, k: int)
    requires
        0 <= k <= s.len(),
        forall|j: int| k <= j < s.len() ==> !is_space_char(s[j]),
        k > 0 ==> is_space_char(s[k - 1]),
    ensures
        after_last_space(s) == k,
    decreases s.len(),
{
    if s.len() == 0 {
    } else if k == s.len() {
    } else {
        assert(!is_space_char(s.last()));
        lemma_after_last_space_at(s.drop_last(), k);
    }
}

pub proof fn lemma_after_last_space_le(s: Seq<char>)
    ensures
        0 <= after_last_space(s) <= s.len(),
    decreases s.len(),
{
    if s.len() == 0 {
    } else if is_space_char(s.last()) {
    } else {
        lemma_after_last_space_le(s.drop_last());
    }
}

/// The trailing word of `s`: everything after the last whitespace character.
pub fn split_last_word(s: &str) -> (r: &str)
    ensures
        r@ == s@.skip(after_last_space(s@)),
{
    let len = s.unicode_len();
    let mut k: usize = len;
    while k > 0 && !is_space(s.get_char(k - 1))
        invariant
            len == s@.len(),
            k <= len,
            forall|j: int| k <= j < len ==> !is_space_char(s@[j]),
        decreases k,
    {
        k -= 1;
    }
    proof {
        lemma_after_last_space_at(s@, k as int);
    }
    s.substring_char(k, len)
}

} // verus!
