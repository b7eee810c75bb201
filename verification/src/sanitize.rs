//! The input sanitizer: trims a candidate identifier and accepts it only if
//! it is a syntactically valid domain name or IP address.

use vstd::prelude::*;
use crate::text::{spec_trim, trim_front, trim_back, trim, is_space, is_alpha, is_digit};
use crate::domain::{valid_domain, is_valid_domain, lemma_no_alpha_not_name};
use crate::ip::{
    valid_ip, is_valid_ip, digit_run_pieces, has_overflow_run, lemma_digit_runs_chars,
    lemma_overflow_runs_not_ipv4, lemma_no_colon_not_ipv6,
};

verus! {

/// An identifier is accepted when it is a valid domain name or IP address.
pub open spec fn accepted(s: Seq<char>) -> bool {
    valid_domain(s) || valid_ip(s)
}

/// What sanitizing returns: the trimmed input when accepted, nothing
/// otherwise.
pub open spec fn spec_sanitize(raw: Seq<char>) -> Option<Seq<char>> {
    if accepted(spec_trim(raw)) {
        Some(spec_trim(raw))
    } else {
        None
    }
}

/// Validates and normalizes a raw identifier. Rejection is an ordinary
/// outcome, not a fault: the caller decides whether to re-prompt or skip.
pub fn sanitize_input(input: &str) -> (r: Option<String>)
    ensures
        match r {
            Some(id) => spec_sanitize(input@) == Some(id@),
            None => spec_sanitize(input@) is None,
        },
{
    let trimmed = trim(input);
    if is_valid_domain(trimmed) || is_valid_ip(trimmed) {
        Some(trimmed.to_owned())
    } else {
        None
    }
}

/// Trimming a string without whitespace leaves it unchanged.
proof fn lemma_trim_no_space(s: Seq<char>)
    requires
        forall|k: int| 0 <= k < s.len() ==> !is_space(s[k]),
    ensures
        spec_trim(s) == s,
{
    assert(trim_front(s) == s);
    assert(trim_back(s) == s);
}

/// Any string that is an IP address once trimmed is accepted, and the
/// sanitizer returns exactly the trimmed form.
pub proof fn lemma_ip_accepted_trimmed(raw: Seq<char>)
    requires
        valid_ip(spec_trim(raw)),
    ensures
        spec_sanitize(raw) == Some(spec_trim(raw)),
{
}

/// Any string that is a domain name once trimmed is accepted, and the
/// sanitizer returns exactly the trimmed form.
pub proof fn lemma_domain_accepted_trimmed(raw: Seq<char>)
    requires
        valid_domain(spec_trim(raw)),
    ensures
        spec_sanitize(raw) == Some(spec_trim(raw)),
{
}

/// A dotted quad of digit runs with an out-of-range run is rejected: it
/// fails IPv4 parsing, it has no colons so it is no IPv6 address, and it
/// has no letters so it is no domain name.
pub proof fn lemma_out_of_range_octets_rejected(raw: Seq<char>)
    requires
        digit_run_pieces(raw, 4),
        has_overflow_run(raw, 4),
    ensures
        spec_sanitize(raw) is None,
{
    lemma_digit_runs_chars(raw, 4);
    assert forall|k: int| 0 <= k < raw.len() implies !is_space(raw[k]) && !is_alpha(raw[k])
        && raw[k] != ':' by {
        assert(is_digit(raw[k]) || raw[k] == '.');
    }
    lemma_trim_no_space(raw);
    lemma_overflow_runs_not_ipv4(raw, 4);
    lemma_no_colon_not_ipv6(raw);
    lemma_no_alpha_not_name(raw);
}

} // verus!
