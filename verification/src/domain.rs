//! The domain-name grammar: dot-separated labels (letters, digits, hyphens,
//! alphanumeric at both ends, at most 63 characters) followed by a final
//! all-alphabetic label of at least two characters.

use vstd::prelude::*;
use crate::text::{is_alnum, is_alpha, alnum_char, alpha_char, find_char};

verus! {

pub open spec fn is_label_char(c: char) -> bool {
    is_alnum(c) || c == '-'
}

/// One non-final domain label.
pub open spec fn is_label(s: Seq<char>) -> bool {
    &&& 1 <= s.len() <= 63
    &&& is_alnum(s[0])
    &&& is_alnum(s[s.len() - 1])
    &&& forall|i: int| 0 <= i < s.len() ==> is_label_char(s[i])
}

/// The final label: at least two characters, all alphabetic.
pub open spec fn is_tld(s: Seq<char>) -> bool {
    s.len() >= 2 && forall|i: int| 0 <= i < s.len() ==> is_alpha(s[i])
}

/// Zero or more labels, each followed by a dot, then a final label.
pub open spec fn valid_name(s: Seq<char>) -> bool
    decreases s.len(),
{
    ||| is_tld(s)
    ||| exists|i: int|
        0 < i < s.len() && s[i] == '.' && is_label(s.take(i)) && valid_name(s.skip(i + 1))
}

/// A full domain name: at least one label and a dot before the final label.
pub open spec fn valid_domain(s: Seq<char>) -> bool {
    (exists|i: int| 0 <= i < s.len() && s[i] == '.') && valid_name(s)
}

pub fn check_label(s: &str) -> (r: bool)
    ensures
        r == is_label(s@),
{
    let n = s.unicode_len();
    if n < 1 || n > 63 {
        return false;
    }
    if !alnum_char(s.get_char(0)) {
        return false;
    }
    if !alnum_char(s.get_char(n - 1)) {
        return false;
    }
    let mut i: usize = 0;
    while i < n
        invariant
            i <= n,
            n == s@.len(),
            forall|j: int| 0 <= j < i ==> is_label_char(s@[j]),
        decreases n - i,
    {
        let c = s.get_char(i);
        if !(alnum_char(c) || c == '-') {
            return false;
        }
        i += 1;
    }
    true
}

pub fn check_tld(s: &str) -> (r: bool)
    ensures
        r == is_tld(s@),
{
    let n = s.unicode_len();
    if n < 2 {
        return false;
    }
    let mut i: usize = 0;
    while i < n
        invariant
            i <= n,
            n == s@.len(),
            forall|j: int| 0 <= j < i ==> is_alpha(s@[j]),
        decreases n - i,
    {
        if !alpha_char(s.get_char(i)) {
            return false;
        }
        i += 1;
    }
    true
}

/// A name can split as label-dot-rest only at its first dot.
proof fn lemma_split_forced(s: Seq<char>, i: int)
    requires
        0 <= i < s.len(),
        s[i] == '.',
        forall|j: int| 0 <= j < i ==> s[j] != '.',
    ensures
        valid_name(s) == (is_tld(s) || (0 < i && is_label(s.take(i)) && valid_name(
            s.skip(i + 1),
        ))),
{
    if valid_name(s) && !is_tld(s) {
        let j = choose|j: int|
            0 < j < s.len() && s[j] == '.' && is_label(s.take(j)) && valid_name(s.skip(j + 1));
        if j < i {
            assert(s[j] != '.');
        }
        if j > i {
            assert(is_label_char(s.take(j)[i]));
        }
        assert(j == i);
    }
    if !valid_name(s) && !is_tld(s) && 0 < i && is_label(s.take(i)) && valid_name(s.skip(i + 1)) {
        assert(0 < i < s.len() && s[i] == '.' && is_label(s.take(i)) && valid_name(s.skip(i + 1)));
        assert(false);
    }
}

pub fn check_name(s: &str) -> (r: bool)
    ensures
        r == valid_name(s@),
    decreases s@.len(),
{
    match find_char(s, '.') {
        None => {
            let r = check_tld(s);
            proof {
                if !is_tld(s@) {
                    assert forall|j: int|
                        !(0 < j < s@.len() && s@[j] == '.' && is_label(s@.take(j)) && valid_name(
                            s@.skip(j + 1),
                        )) by {
                        if 0 < j < s@.len() {
                            assert(s@[j] != '.');
                        }
                    }
                }
            }
            r
        },
        Some(i) => {
            proof {
                lemma_split_forced(s@, i as int);
                if is_tld(s@) {
                    assert(is_alpha(s@[i as int]));
                }
            }
            if i == 0 {
                false
            } else {
                let n = s.unicode_len();
                let head = s.substring_char(0, i);
                let tail = s.substring_char(i + 1, n);
                proof {
                    assert(head@ =~= s@.take(i as int));
                    assert(tail@ =~= s@.skip(i as int + 1));
                }
                if check_label(head) {
                    check_name(tail)
                } else {
                    false
                }
            }
        },
    }
}

pub fn is_valid_domain(s: &str) -> (r: bool)
    ensures
        r == valid_domain(s@),
{
    match find_char(s, '.') {
        None => false,
        Some(_) => check_name(s),
    }
}

/// A string without letters has no final alphabetic label, so it is no
/// domain name.
pub proof fn lemma_no_alpha_not_name(s: Seq<char>)
    requires
        forall|k: int| 0 <= k < s.len() ==> !is_alpha(s[k]),
    ensures
        !valid_name(s),
        !valid_domain(s),
    decreases s.len(),
{
    if is_tld(s) {
        assert(is_alpha(s[0]));
    }
    if exists|i: int|
        0 < i < s.len() && s[i] == '.' && is_label(s.take(i)) && valid_name(s.skip(i + 1)) {
        let i = choose|i: int|
            0 < i < s.len() && s[i] == '.' && is_label(s.take(i)) && valid_name(s.skip(i + 1));
        assert forall|k: int| 0 <= k < s.skip(i + 1).len() implies !is_alpha(
            #[trigger] s.skip(i + 1)[k],
        ) by {
            assert(s.skip(i + 1)[k] == s[i + 1 + k]);
        }
        lemma_no_alpha_not_name(s.skip(i + 1));
    }
}

} // verus!
