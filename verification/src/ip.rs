//! The textual grammars of IPv4 and IPv6 addresses: four dotted decimal
//! octets without leading zeros, and colon-separated hexadecimal groups with
//! at most one `::` compression and an optional trailing embedded IPv4 part.

use vstd::prelude::*;
use crate::text::{is_digit, is_hex_digit, digit_val, digit_char, hex_digit_char, find_char};

verus! {

/// Decimal value of a digit string, most significant first.
pub open spec fn dec_value(s: Seq<char>) -> int
    decreases s.len(),
{
    if s.len() == 0 {
        0
    } else {
        dec_value(s.drop_last()) * 10 + digit_val(s.last())
    }
}

/// One dotted-quad octet: one to three digits, value at most 255, no
/// leading zero.
pub open spec fn is_octet(s: Seq<char>) -> bool {
    &&& 1 <= s.len() <= 3
    &&& forall|i: int| 0 <= i < s.len() ==> is_digit(s[i])
    &&& dec_value(s) <= 255
    &&& s.len() > 1 ==> s[0] != '0'
}

/// Exactly `n` octets separated by dots.
pub open spec fn ipv4_pieces(s: Seq<char>, n: nat) -> bool
    decreases n,
{
    if n == 0 {
        false
    } else if n == 1 {
        is_octet(s)
    } else {
        exists|i: int|
            0 < i < s.len() && s[i] == '.' && is_octet(s.take(i)) && ipv4_pieces(
                s.skip(i + 1),
                (n - 1) as nat,
            )
    }
}

pub open spec fn valid_ipv4(s: Seq<char>) -> bool {
    ipv4_pieces(s, 4)
}

/// Every character of a dotted quad is a digit or a dot.
proof fn lemma_ipv4_chars(s: Seq<char>, n: nat)
    requires
        ipv4_pieces(s, n),
    ensures
        forall|k: int| 0 <= k < s.len() ==> is_digit(s[k]) || s[k] == '.',
    decreases n,
{
    if n > 1 {
        let i = choose|i: int|
            0 < i < s.len() && s[i] == '.' && is_octet(s.take(i)) && ipv4_pieces(
                s.skip(i + 1),
                (n - 1) as nat,
            );
        lemma_ipv4_chars(s.skip(i + 1), (n - 1) as nat);
        assert forall|k: int| 0 <= k < s.len() implies is_digit(s[k]) || s[k] == '.' by {
            if k < i {
                assert(is_digit(s.take(i)[k]));
            } else if k > i {
                assert(is_digit(s.skip(i + 1)[k - i - 1]) || s.skip(i + 1)[k - i - 1] == '.');
            }
        }
    }
}

/// A dotted quad of `n` octets is at least `2n - 1` characters long.
proof fn lemma_ipv4_len(s: Seq<char>, n: nat)
    requires
        ipv4_pieces(s, n),
    ensures
        s.len() >= 2 * n - 1,
    decreases n,
{
    if n > 1 {
        let i = choose|i: int|
            0 < i < s.len() && s[i] == '.' && is_octet(s.take(i)) && ipv4_pieces(
                s.skip(i + 1),
                (n - 1) as nat,
            );
        lemma_ipv4_len(s.skip(i + 1), (n - 1) as nat);
    }
}

/// A dotted quad can split as octet-dot-rest only at its first dot.
proof fn lemma_ipv4_split_forced(s: Seq<char>, i: int, n: nat)
    requires
        n >= 2,
        0 <= i < s.len(),
        s[i] == '.',
        forall|j: int| 0 <= j < i ==> s[j] != '.',
    ensures
        ipv4_pieces(s, n) == (0 < i && is_octet(s.take(i)) && ipv4_pieces(
            s.skip(i + 1),
            (n - 1) as nat,
        )),
{
    if ipv4_pieces(s, n) {
        let j = choose|j: int|
            0 < j < s.len() && s[j] == '.' && is_octet(s.take(j)) && ipv4_pieces(
                s.skip(j + 1),
                (n - 1) as nat,
            );
        if j < i {
            assert(s[j] != '.');
        }
        if j > i {
            assert(is_digit(s.take(j)[i]));
        }
        assert(j == i);
    }
    if !ipv4_pieces(s, n) && 0 < i && is_octet(s.take(i)) && ipv4_pieces(
        s.skip(i + 1),
        (n - 1) as nat,
    ) {
        assert(0 < i < s.len() && s[i] == '.' && is_octet(s.take(i)) && ipv4_pieces(
            s.skip(i + 1),
            (n - 1) as nat,
        ));
        assert(false);
    }
}

/// Checks one octet.
pub fn parse_octet(s: &str) -> (r: bool)
    ensures
        r == is_octet(s@),
{
    let n = s.unicode_len();
    if n < 1 || n > 3 {
        return false;
    }
    let mut i: usize = 0;
    let mut v: u32 = 0;
    while i < n
        invariant
            i <= n,
            n == s@.len(),
            n <= 3,
            forall|j: int| 0 <= j < i ==> is_digit(s@[j]),
            v == dec_value(s@.take(i as int)),
            i == 0 ==> v == 0,
            i <= 1 ==> v <= 9,
            i <= 2 ==> v <= 99,
            v <= 999,
        decreases n - i,
    {
        let c = s.get_char(i);
        if !digit_char(c) {
            return false;
        }
        proof {
            assert(s@.take(i + 1).drop_last() =~= s@.take(i as int));
            assert(s@.take(i + 1).last() == s@[i as int]);
        }
        v = v * 10 + (c as u32 - '0' as u32);
        i += 1;
    }
    proof {
        assert(s@.take(n as int) =~= s@);
    }
    if v > 255 {
        return false;
    }
    if n > 1 && s.get_char(0) == '0' {
        return false;
    }
    true
}

/// Checks `n` dot-separated octets.
pub fn check_ipv4_pieces(s: &str, n: u8) -> (r: bool)
    requires
        1 <= n,
    ensures
        r == ipv4_pieces(s@, n as nat),
    decreases n,
{
    match find_char(s, '.') {
        None => {
            if n == 1 {
                parse_octet(s)
            } else {
                proof {
                    assert forall|i: int|
                        !(0 < i < s@.len() && s@[i] == '.' && is_octet(s@.take(i)) && ipv4_pieces(
                            s@.skip(i + 1),
                            (n - 1) as nat,
                        )) by {
                        if 0 < i < s@.len() {
                            assert(s@[i] != '.');
                        }
                    }
                }
                false
            }
        },
        Some(i) => {
            if n == 1 {
                proof {
                    if is_octet(s@) {
                        assert(is_digit(s@[i as int]));
                    }
                }
                false
            } else {
                proof {
                    lemma_ipv4_split_forced(s@, i as int, n as nat);
                }
                if i == 0 {
                    false
                } else {
                    let len = s.unicode_len();
                    let head = s.substring_char(0, i);
                    let tail = s.substring_char(i + 1, len);
                    proof {
                        assert(head@ =~= s@.take(i as int));
                        assert(tail@ =~= s@.skip(i as int + 1));
                    }
                    if parse_octet(head) {
                        check_ipv4_pieces(tail, n - 1)
                    } else {
                        false
                    }
                }
            }
        },
    }
}

pub fn is_valid_ipv4(s: &str) -> (r: bool)
    ensures
        r == valid_ipv4(s@),
{
    check_ipv4_pieces(s, 4)
}

/// One group of an IPv6 address: one to four hexadecimal digits.
pub open spec fn is_hex_group(s: Seq<char>) -> bool {
    1 <= s.len() <= 4 && forall|i: int| 0 <= i < s.len() ==> is_hex_digit(s[i])
}

/// Exactly `n` hexadecimal groups separated by single colons.
pub open spec fn hex_groups(s: Seq<char>, n: nat) -> bool
    decreases n,
{
    if n == 0 {
        false
    } else if n == 1 {
        is_hex_group(s)
    } else {
        exists|i: int|
            0 < i < s.len() && s[i] == ':' && is_hex_group(s.take(i)) && hex_groups(
                s.skip(i + 1),
                (n - 1) as nat,
            )
    }
}

/// Exactly `n` sixteen-bit units: hexadecimal groups separated by single
/// colons, where the last two units may instead be written as an embedded
/// dotted-quad IPv4 address.
pub open spec fn tail_groups(s: Seq<char>, n: nat) -> bool
    decreases n,
{
    if n == 0 {
        false
    } else if n == 1 {
        is_hex_group(s)
    } else {
        ||| (n == 2 && valid_ipv4(s))
        ||| exists|i: int|
            0 < i < s.len() && s[i] == ':' && is_hex_group(s.take(i)) && tail_groups(
                s.skip(i + 1),
                (n - 1) as nat,
            )
    }
}

/// One `::` compression at position `j`, with `a` groups before it and `b`
/// sixteen-bit units after it.
pub open spec fn compressed_at(s: Seq<char>, j: int, a: nat, b: nat) -> bool {
    &&& 0 <= j
    &&& j + 2 <= s.len()
    &&& s[j] == ':'
    &&& s[j + 1] == ':'
    &&& a + b <= 7
    &&& if j == 0 {
        a == 0
    } else {
        hex_groups(s.take(j), a)
    }
    &&& if j + 2 == s.len() {
        b == 0
    } else {
        tail_groups(s.skip(j + 2), b)
    }
}

/// The textual IPv6 grammar: eight units, or a single `::` standing for at
/// least one zero group.
pub open spec fn valid_ipv6(s: Seq<char>) -> bool {
    tail_groups(s, 8) || exists|j: int, a: nat, b: nat| compressed_at(s, j, a, b)
}

/// Group lists start and end with a hexadecimal digit and never contain
/// two adjacent colons.
proof fn lemma_hex_shape(s: Seq<char>, n: nat)
    requires
        hex_groups(s, n),
    ensures
        s.len() >= 1,
        is_hex_digit(s[0]),
        is_hex_digit(s[s.len() - 1]),
        forall|k: int| 0 <= k < s.len() - 1 ==> !(#[trigger] s[k] == ':' && s[k + 1] == ':'),
    decreases n,
{
    if n == 1 {
    } else {
        let i = choose|i: int|
            0 < i < s.len() && s[i] == ':' && is_hex_group(s.take(i)) && hex_groups(
                s.skip(i + 1),
                (n - 1) as nat,
            );
        lemma_hex_shape(s.skip(i + 1), (n - 1) as nat);
        assert(is_hex_digit(s.take(i)[0]));
        assert(s[s.len() - 1] == s.skip(i + 1)[s.len() - i - 2]);
        assert forall|k: int| 0 <= k < s.len() - 1 implies !(#[trigger] s[k] == ':' && s[k + 1] == ':') by {
            if k < i - 1 {
                assert(is_hex_digit(s.take(i)[k]));
            } else if k == i - 1 {
                assert(is_hex_digit(s.take(i)[k]));
            } else if k == i {
                assert(s[i + 1] == s.skip(i + 1)[0]);
            } else {
                assert(s[k] == s.skip(i + 1)[k - i - 1]);
                assert(s[k + 1] == s.skip(i + 1)[k - i]);
            }
        }
    }
}

/// Unit lists likewise start and end with a hexadecimal digit and never
/// contain two adjacent colons.
proof fn lemma_tail_shape(s: Seq<char>, n: nat)
    requires
        tail_groups(s, n),
    ensures
        s.len() >= 1,
        is_hex_digit(s[0]),
        is_hex_digit(s[s.len() - 1]),
        forall|k: int| 0 <= k < s.len() - 1 ==> !(#[trigger] s[k] == ':' && s[k + 1] == ':'),
    decreases n,
{
    if n == 1 {
    } else if n == 2 && valid_ipv4(s) {
        lemma_ipv4_shape(s, 4);
    } else {
        let i = choose|i: int|
            0 < i < s.len() && s[i] == ':' && is_hex_group(s.take(i)) && tail_groups(
                s.skip(i + 1),
                (n - 1) as nat,
            );
        lemma_tail_shape(s.skip(i + 1), (n - 1) as nat);
        assert(is_hex_digit(s.take(i)[0]));
        assert(s[s.len() - 1] == s.skip(i + 1)[s.len() - i - 2]);
        assert forall|k: int| 0 <= k < s.len() - 1 implies !(#[trigger] s[k] == ':' && s[k + 1] == ':') by {
            if k < i - 1 {
                assert(is_hex_digit(s.take(i)[k]));
            } else if k == i - 1 {
                assert(is_hex_digit(s.take(i)[k]));
            } else if k == i {
                assert(s[i + 1] == s.skip(i + 1)[0]);
            } else {
                assert(s[k] == s.skip(i + 1)[k - i - 1]);
                assert(s[k + 1] == s.skip(i + 1)[k - i]);
            }
        }
    }
}

/// A dotted quad starts and ends with a digit.
proof fn lemma_ipv4_shape(s: Seq<char>, n: nat)
    requires
        ipv4_pieces(s, n),
    ensures
        s.len() >= 1,
        is_digit(s[0]),
        is_digit(s[s.len() - 1]),
        forall|k: int| 0 <= k < s.len() ==> is_digit(s[k]) || s[k] == '.',
    decreases n,
{
    lemma_ipv4_chars(s, n);
    if n == 1 {
    } else {
        let i = choose|i: int|
            0 < i < s.len() && s[i] == '.' && is_octet(s.take(i)) && ipv4_pieces(
                s.skip(i + 1),
                (n - 1) as nat,
            );
        lemma_ipv4_shape(s.skip(i + 1), (n - 1) as nat);
        assert(is_digit(s.take(i)[0]));
        assert(s[s.len() - 1] == s.skip(i + 1)[s.len() - i - 2]);
    }
}

/// A list of `n` groups is at least `2n - 1` characters long.
proof fn lemma_hex_len(s: Seq<char>, n: nat)
    requires
        hex_groups(s, n),
    ensures
        s.len() >= 2 * n - 1,
    decreases n,
{
    if n > 1 {
        let i = choose|i: int|
            0 < i < s.len() && s[i] == ':' && is_hex_group(s.take(i)) && hex_groups(
                s.skip(i + 1),
                (n - 1) as nat,
            );
        lemma_hex_len(s.skip(i + 1), (n - 1) as nat);
    }
}

/// A list of `n` units is at least `2n - 1` characters long.
proof fn lemma_tail_len(s: Seq<char>, n: nat)
    requires
        tail_groups(s, n),
    ensures
        s.len() >= 2 * n - 1,
    decreases n,
{
    if n == 1 {
    } else if n == 2 && valid_ipv4(s) {
        lemma_ipv4_len(s, 4);
    } else if n > 1 {
        let i = choose|i: int|
            0 < i < s.len() && s[i] == ':' && is_hex_group(s.take(i)) && tail_groups(
                s.skip(i + 1),
                (n - 1) as nat,
            );
        lemma_tail_len(s.skip(i + 1), (n - 1) as nat);
    }
}

/// A group list can split as group-colon-rest only at its first colon.
proof fn lemma_hex_split_forced(s: Seq<char>, i: int, n: nat)
    requires
        n >= 2,
        0 <= i < s.len(),
        s[i] == ':',
        forall|j: int| 0 <= j < i ==> s[j] != ':',
    ensures
        hex_groups(s, n) == (0 < i && is_hex_group(s.take(i)) && hex_groups(
            s.skip(i + 1),
            (n - 1) as nat,
        )),
{
    if hex_groups(s, n) {
        let j = choose|j: int|
            0 < j < s.len() && s[j] == ':' && is_hex_group(s.take(j)) && hex_groups(
                s.skip(j + 1),
                (n - 1) as nat,
            );
        if j < i {
            assert(s[j] != ':');
        }
        if j > i {
            assert(is_hex_digit(s.take(j)[i]));
        }
        assert(j == i);
    }
    if !hex_groups(s, n) && 0 < i && is_hex_group(s.take(i)) && hex_groups(
        s.skip(i + 1),
        (n - 1) as nat,
    ) {
        assert(0 < i < s.len() && s[i] == ':' && is_hex_group(s.take(i)) && hex_groups(
            s.skip(i + 1),
            (n - 1) as nat,
        ));
        assert(false);
    }
}

/// A unit list can split as group-colon-rest only at its first colon, and a
/// colon rules out the embedded-IPv4 form.
proof fn lemma_tail_split_forced(s: Seq<char>, i: int, n: nat)
    requires
        n >= 2,
        0 <= i < s.len(),
        s[i] == ':',
        forall|j: int| 0 <= j < i ==> s[j] != ':',
    ensures
        tail_groups(s, n) == (0 < i && is_hex_group(s.take(i)) && tail_groups(
            s.skip(i + 1),
            (n - 1) as nat,
        )),
{
    if valid_ipv4(s) {
        lemma_ipv4_shape(s, 4);
        assert(is_digit(s[i]) || s[i] == '.');
        assert(false);
    }
    if tail_groups(s, n) {
        let j = choose|j: int|
            0 < j < s.len() && s[j] == ':' && is_hex_group(s.take(j)) && tail_groups(
                s.skip(j + 1),
                (n - 1) as nat,
            );
        if j < i {
            assert(s[j] != ':');
        }
        if j > i {
            assert(is_hex_digit(s.take(j)[i]));
        }
        assert(j == i);
    }
    if !tail_groups(s, n) && 0 < i && is_hex_group(s.take(i)) && tail_groups(
        s.skip(i + 1),
        (n - 1) as nat,
    ) {
        assert(0 < i < s.len() && s[i] == ':' && is_hex_group(s.take(i)) && tail_groups(
            s.skip(i + 1),
            (n - 1) as nat,
        ));
        assert(false);
    }
}

/// Checks one hexadecimal group.
pub fn check_hex_group(s: &str) -> (r: bool)
    ensures
        r == is_hex_group(s@),
{
    let n = s.unicode_len();
    if n < 1 || n > 4 {
        return false;
    }
    let mut i: usize = 0;
    while i < n
        invariant
            i <= n,
            n == s@.len(),
            forall|j: int| 0 <= j < i ==> is_hex_digit(s@[j]),
        decreases n - i,
    {
        if !hex_digit_char(s.get_char(i)) {
            return false;
        }
        i += 1;
    }
    true
}

/// Counts the colon-separated hexadecimal groups; `None` when the string is
/// not a well-formed group list.
pub fn count_hex_groups(s: &str) -> (r: Option<usize>)
    ensures
        match r {
            Some(n) => 1 <= n && hex_groups(s@, n as nat) && forall|m: nat|
                hex_groups(s@, m) ==> m == n as nat,
            None => forall|m: nat| !hex_groups(s@, m),
        },
    decreases s@.len(),
{
    match find_char(s, ':') {
        None => {
            let ok = check_hex_group(s);
            proof {
                assert forall|m: nat| m != 1 implies !hex_groups(s@, m) by {
                    if m >= 2 && hex_groups(s@, m) {
                        let i = choose|i: int|
                            0 < i < s@.len() && s@[i] == ':' && is_hex_group(s@.take(i))
                                && hex_groups(s@.skip(i + 1), (m - 1) as nat);
                        assert(s@[i] != ':');
                    }
                }
            }
            if ok {
                Some(1)
            } else {
                None
            }
        },
        Some(i) => {
            proof {
                if is_hex_group(s@) {
                    assert(is_hex_digit(s@[i as int]));
                }
            }
            if i == 0 {
                proof {
                    assert forall|m: nat| !hex_groups(s@, m) by {
                        if m >= 2 {
                            lemma_hex_split_forced(s@, 0, m);
                        }
                    }
                }
                None
            } else {
                let len = s.unicode_len();
                let head = s.substring_char(0, i);
                let tail = s.substring_char(i + 1, len);
                proof {
                    assert(head@ =~= s@.take(i as int));
                    assert(tail@ =~= s@.skip(i as int + 1));
                    assert forall|m: nat| m >= 2 implies hex_groups(s@, m) == (is_hex_group(
                        head@,
                    ) && hex_groups(tail@, (m - 1) as nat)) by {
                        lemma_hex_split_forced(s@, i as int, m);
                    }
                }
                if check_hex_group(head) {
                    match count_hex_groups(tail) {
                        Some(n) => {
                            proof {
                                lemma_hex_len(tail@, n as nat);
                            }
                            Some(n + 1)
                        },
                        None => None,
                    }
                } else {
                    None
                }
            }
        },
    }
}

/// Counts the sixteen-bit units, allowing a trailing embedded IPv4 address;
/// `None` when the string is not a well-formed unit list.
pub fn count_tail_groups(s: &str) -> (r: Option<usize>)
    ensures
        match r {
            Some(n) => 1 <= n && tail_groups(s@, n as nat) && forall|m: nat|
                tail_groups(s@, m) ==> m == n as nat,
            None => forall|m: nat| !tail_groups(s@, m),
        },
    decreases s@.len(),
{
    match find_char(s, ':') {
        None => {
            proof {
                assert forall|m: nat| m >= 3 implies !tail_groups(s@, m) by {
                    if tail_groups(s@, m) {
                        let i = choose|i: int|
                            0 < i < s@.len() && s@[i] == ':' && is_hex_group(s@.take(i))
                                && tail_groups(s@.skip(i + 1), (m - 1) as nat);
                        assert(s@[i] != ':');
                    }
                }
                if tail_groups(s@, 2) && !valid_ipv4(s@) {
                    let i = choose|i: int|
                        0 < i < s@.len() && s@[i] == ':' && is_hex_group(s@.take(i)) && tail_groups(
                            s@.skip(i + 1),
                            1,
                        );
                    assert(s@[i] != ':');
                }
            }
            if check_hex_group(s) {
                proof {
                    if valid_ipv4(s@) {
                        lemma_ipv4_shape(s@, 4);
                        let i = choose|i: int|
                            0 < i < s@.len() && s@[i] == '.' && is_octet(s@.take(i)) && ipv4_pieces(
                                s@.skip(i + 1),
                                3,
                            );
                        assert(is_hex_digit(s@[i]));
                    }
                }
                Some(1)
            } else if check_ipv4_pieces(s, 4) {
                Some(2)
            } else {
                None
            }
        },
        Some(i) => {
            proof {
                if is_hex_group(s@) {
                    assert(is_hex_digit(s@[i as int]));
                }
                assert forall|m: nat| m >= 2 implies tail_groups(s@, m) == (0 < i as int
                    && is_hex_group(s@.take(i as int)) && tail_groups(
                    s@.skip(i as int + 1),
                    (m - 1) as nat,
                )) by {
                    lemma_tail_split_forced(s@, i as int, m);
                }
            }
            if i == 0 {
                None
            } else {
                let len = s.unicode_len();
                let head = s.substring_char(0, i);
                let tail = s.substring_char(i + 1, len);
                proof {
                    assert(head@ =~= s@.take(i as int));
                    assert(tail@ =~= s@.skip(i as int + 1));
                }
                if check_hex_group(head) {
                    match count_tail_groups(tail) {
                        Some(n) => {
                            proof {
                                lemma_tail_len(tail@, n as nat);
                            }
                            Some(n + 1)
                        },
                        None => None,
                    }
                } else {
                    None
                }
            }
        },
    }
}

/// Index of the first `::`, if any.
pub fn find_double_colon(s: &str) -> (r: Option<usize>)
    ensures
        match r {
            Some(j) => j + 1 < s@.len() && s@[j as int] == ':' && s@[j + 1] == ':' && forall|k: int|
                0 <= k < j ==> !(#[trigger] s@[k] == ':' && s@[k + 1] == ':'),
            None => forall|k: int| 0 <= k && k + 1 < s@.len() ==> !(#[trigger] s@[k] == ':' && s@[k + 1]
                == ':'),
        },
{
    let n = s.unicode_len();
    if n < 2 {
        return None;
    }
    let mut j: usize = 0;
    while j + 1 < n
        invariant
            j + 1 <= n,
            n == s@.len(),
            forall|k: int| 0 <= k < j ==> !(#[trigger] s@[k] == ':' && s@[k + 1] == ':'),
        decreases n - j,
    {
        if s.get_char(j) == ':' && s.get_char(j + 1) == ':' {
            return Some(j);
        }
        j += 1;
    }
    None
}

/// A compression can only sit at the first `::`.
proof fn lemma_compress_forced(s: Seq<char>, j: int)
    requires
        0 <= j,
        j + 1 < s.len(),
        s[j] == ':',
        s[j + 1] == ':',
        forall|k: int| 0 <= k < j ==> !(#[trigger] s[k] == ':' && s[k + 1] == ':'),
    ensures
        forall|j2: int, a: nat, b: nat| compressed_at(s, j2, a, b) ==> j2 == j,
{
    assert forall|j2: int, a: nat, b: nat| compressed_at(s, j2, a, b) implies j2 == j by {
        if j2 < j {
            assert(!(s[j2] == ':' && s[j2 + 1] == ':'));
        }
        if j2 > j {
            lemma_hex_shape(s.take(j2), a);
            if j2 == j + 1 {
                assert(s.take(j2)[j2 - 1] == s[j]);
            } else {
                assert(s.take(j2)[j] == s[j]);
                assert(s.take(j2)[j + 1] == s[j + 1]);
            }
        }
    }
}

/// Checks the full textual IPv6 grammar.
pub fn is_valid_ipv6(s: &str) -> (r: bool)
    ensures
        r == valid_ipv6(s@),
{
    let n = s.unicode_len();
    match find_double_colon(s) {
        None => {
            proof {
                assert forall|j: int, a: nat, b: nat| !compressed_at(s@, j, a, b) by {
                    if compressed_at(s@, j, a, b) {
                        assert(!(s@[j] == ':' && s@[j + 1] == ':'));
                    }
                }
            }
            match count_tail_groups(s) {
                Some(c) => c == 8,
                None => false,
            }
        },
        Some(j) => {
            proof {
                lemma_compress_forced(s@, j as int);
                if tail_groups(s@, 8) {
                    lemma_tail_shape(s@, 8);
                    assert(!(s@[j as int] == ':' && s@[j as int + 1] == ':'));
                }
            }
            let a_opt: Option<usize> = if j == 0 {
                Some(0)
            } else {
                let left = s.substring_char(0, j);
                proof {
                    assert(left@ =~= s@.take(j as int));
                }
                count_hex_groups(left)
            };
            match a_opt {
                None => {
                    proof {
                        assert forall|j2: int, a: nat, b: nat|
                            !compressed_at(s@, j2, a, b) by {
                            if compressed_at(s@, j2, a, b) {
                                assert(j2 == j as int);
                            }
                        }
                    }
                    false
                },
                Some(a) => {
                    let b_opt: Option<usize> = if j + 2 == n {
                        Some(0)
                    } else {
                        let right = s.substring_char(j + 2, n);
                        proof {
                            assert(right@ =~= s@.skip(j as int + 2));
                        }
                        count_tail_groups(right)
                    };
                    match b_opt {
                        None => {
                            proof {
                                assert forall|j2: int, a2: nat, b2: nat|
                                    !compressed_at(s@, j2, a2, b2) by {
                                    if compressed_at(s@, j2, a2, b2) {
                                        assert(j2 == j as int);
                                    }
                                }
                            }
                            false
                        },
                        Some(b) => {
                            let ok = a <= 7 && b <= 7 && a + b <= 7;
                            proof {
                                if ok {
                                    assert(compressed_at(s@, j as int, a as nat, b as nat));
                                } else {
                                    assert forall|j2: int, a2: nat, b2: nat|
                                        !compressed_at(s@, j2, a2, b2) by {
                                        if compressed_at(s@, j2, a2, b2) {
                                            assert(j2 == j as int);
                                            assert(a2 == a as nat);
                                            assert(b2 == b as nat);
                                        }
                                    }
                                }
                            }
                            ok
                        },
                    }
                },
            }
        },
    }
}

/// Either textual IP form.
pub open spec fn valid_ip(s: Seq<char>) -> bool {
    valid_ipv4(s) || valid_ipv6(s)
}

pub fn is_valid_ip(s: &str) -> (r: bool)
    ensures
        r == valid_ip(s@),
{
    is_valid_ipv4(s) || is_valid_ipv6(s)
}

/// A non-empty run of decimal digits.
pub open spec fn all_digits(s: Seq<char>) -> bool {
    s.len() >= 1 && forall|i: int| 0 <= i < s.len() ==> is_digit(s[i])
}

/// Exactly `n` digit runs separated by dots: the shape of a dotted quad,
/// whether or not its runs are in range.
pub open spec fn digit_run_pieces(s: Seq<char>, n: nat) -> bool
    decreases n,
{
    if n == 0 {
        false
    } else if n == 1 {
        all_digits(s)
    } else {
        exists|i: int|
            0 < i < s.len() && s[i] == '.' && all_digits(s.take(i)) && digit_run_pieces(
                s.skip(i + 1),
                (n - 1) as nat,
            )
    }
}

/// Some run of the dotted shape has a decimal value above 255.
pub open spec fn has_overflow_run(s: Seq<char>, n: nat) -> bool
    decreases n,
{
    if n == 0 {
        false
    } else if n == 1 {
        dec_value(s) > 255
    } else {
        exists|i: int|
            0 < i < s.len() && s[i] == '.' && all_digits(s.take(i)) && (dec_value(s.take(i)) > 255
                || has_overflow_run(s.skip(i + 1), (n - 1) as nat))
    }
}

/// Every character of a dotted digit shape is a digit or a dot.
pub proof fn lemma_digit_runs_chars(s: Seq<char>, n: nat)
    requires
        digit_run_pieces(s, n),
    ensures
        forall|k: int| 0 <= k < s.len() ==> is_digit(s[k]) || s[k] == '.',
    decreases n,
{
    if n > 1 {
        let i = choose|i: int|
            0 < i < s.len() && s[i] == '.' && all_digits(s.take(i)) && digit_run_pieces(
                s.skip(i + 1),
                (n - 1) as nat,
            );
        lemma_digit_runs_chars(s.skip(i + 1), (n - 1) as nat);
        assert forall|k: int| 0 <= k < s.len() implies is_digit(s[k]) || s[k] == '.' by {
            if k < i {
                assert(is_digit(s.take(i)[k]));
            } else if k > i {
                assert(is_digit(s.skip(i + 1)[k - i - 1]) || s.skip(i + 1)[k - i - 1] == '.');
            }
        }
    }
}

/// A dotted shape with an out-of-range run is not a valid dotted quad.
pub proof fn lemma_overflow_runs_not_ipv4(s: Seq<char>, n: nat)
    requires
        digit_run_pieces(s, n),
        has_overflow_run(s, n),
    ensures
        !ipv4_pieces(s, n),
    decreases n,
{
    if n == 1 {
    } else {
        let i1 = choose|i: int|
            0 < i < s.len() && s[i] == '.' && all_digits(s.take(i)) && digit_run_pieces(
                s.skip(i + 1),
                (n - 1) as nat,
            );
        let i2 = choose|i: int|
            0 < i < s.len() && s[i] == '.' && all_digits(s.take(i)) && (dec_value(s.take(i)) > 255
                || has_overflow_run(s.skip(i + 1), (n - 1) as nat));
        if i1 < i2 {
            assert(is_digit(s.take(i2)[i1]));
        }
        if i2 < i1 {
            assert(is_digit(s.take(i1)[i2]));
        }
        assert(i1 == i2);
        if ipv4_pieces(s, n) {
            assert forall|j: int| 0 <= j < i1 implies s[j] != '.' by {
                assert(is_digit(s.take(i1)[j]));
            }
            lemma_ipv4_split_forced(s, i1, n);
            if dec_value(s.take(i1)) > 255 {
                assert(!is_octet(s.take(i1)));
            } else {
                lemma_overflow_runs_not_ipv4(s.skip(i1 + 1), (n - 1) as nat);
            }
        }
    }
}

/// A string without colons is not an IPv6 address.
pub proof fn lemma_no_colon_not_ipv6(s: Seq<char>)
    requires
        forall|k: int| 0 <= k < s.len() ==> s[k] != ':',
    ensures
        !valid_ipv6(s),
{
    if tail_groups(s, 8) {
        let i = choose|i: int|
            0 < i < s.len() && s[i] == ':' && is_hex_group(s.take(i)) && tail_groups(
                s.skip(i + 1),
                7,
            );
        assert(s[i] != ':');
    }
    if exists|j: int, a: nat, b: nat| compressed_at(s, j, a, b) {
        let (j, a, b) = choose|j: int, a: nat, b: nat| compressed_at(s, j, a, b);
        assert(s[j] != ':');
    }
}

} // verus!
