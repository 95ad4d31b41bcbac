//! Host-resolution decisions: recognizing literal IP addresses, choosing
//! between connecting directly and querying a DNS service record, and
//! folding a lookup's outcome back into a host and port. The lookups
//! themselves are I/O and live with the driver; every decision is here.

use vstd::prelude::*;
use vstd::std_specs::iter::IteratorSpec;
use vstd::string::StringExecFns;

use crate::errors::PingError;

verus! {

pub open spec fn is_digit(c: char) -> bool {
    '0' as u32 <= c as u32 && c as u32 <= '9' as u32
}

pub open spec fn digit_val(c: char) -> nat {
    (c as u32 - '0' as u32) as nat
}

pub open spec fn is_hex_digit(c: char) -> bool {
    is_digit(c) || ('a' as u32 <= c as u32 && c as u32 <= 'f' as u32) || ('A' as u32 <= c as u32
        && c as u32 <= 'F' as u32)
}

/// The number a digit string denotes.
pub open spec fn dec_value(s: Seq<char>) -> nat
    decreases s.len(),
{
    if s.len() == 0 {
        0
    } else {
        dec_value(s.drop_last()) * 10 + digit_val(s.last())
    }
}

/// One dotted-quad part: one to three digits, no leading zero, at most 255.
pub open spec fn is_dec_octet(s: Seq<char>) -> bool {
    &&& 1 <= s.len() <= 3
    &&& (forall|i: int| 0 <= i < s.len() ==> is_digit(#[trigger] s[i]))
    &&& (s.len() > 1 ==> s[0] != '0')
    &&& dec_value(s) <= 255
}

/// One colon-separated part: one to four hexadecimal digits.
pub open spec fn is_hex_group(s: Seq<char>) -> bool {
    1 <= s.len() <= 4 && (forall|i: int| 0 <= i < s.len() ==> is_hex_digit(#[trigger] s[i]))
}

/// The first position at or after `from` holding `c`, or the length.
pub open spec fn find_from(s: Seq<char>, c: char, from: int) -> int
    decreases s.len() - from,
{
    if from >= s.len() {
        s.len() as int
    } else if s[from] == c {
        from
    } else {
        find_from(s, c, from + 1)
    }
}

pub proof fn lemma_find_from(s: Seq<char>, c: char, from: int)
    ensures
        from <= s.len() ==> from <= find_from(s, c, from) <= s.len(),
        0 <= from <= s.len() ==> (find_from(s, c, from) < s.len() ==> s[find_from(s, c, from)]
            == c),
        0 <= from <= s.len() ==> (forall|t: int|
            from <= t < find_from(s, c, from) ==> #[trigger] s[t] != c),
    decreases s.len() - from,
{
    if from < s.len() && s[from] != c {
        lemma_find_from(s, c, from + 1);
    }
}

/// The first position at or after `from` where `::` begins, or the length.
pub open spec fn find_double_colon(s: Seq<char>, from: int) -> int
    decreases s.len() - from,
{
    if from + 2 > s.len() {
        s.len() as int
    } else if s[from] == ':' && s[from + 1] == ':' {
        from
    } else {
        find_double_colon(s, from + 1)
    }
}

/// Exactly `count` dot-separated octets from `from` to the end.
pub open spec fn octets_from(s: Seq<char>, from: int, count: int) -> bool
    decreases count,
{
    if count <= 0 {
        false
    } else if count == 1 {
        &&& 0 <= from <= s.len()
        &&& find_from(s, '.', from) >= s.len()
        &&& is_dec_octet(s.subrange(from, s.len() as int))
    } else {
        let j = find_from(s, '.', from);
        &&& 0 <= from
        &&& j < s.len()
        &&& is_dec_octet(s.subrange(from, j))
        &&& octets_from(s, j + 1, count - 1)
    }
}

/// A literal IPv4 address: four dot-separated octets.
pub open spec fn ipv4_literal(s: Seq<char>) -> bool {
    octets_from(s, 0, 4)
}

/// The number of 16-bit units written from `from` to the end: hexadecimal
/// groups separated by single colons, where the last part may instead be
/// a literal IPv4 address standing for two units.
pub open spec fn units_from(s: Seq<char>, from: int) -> Option<int>
    decreases s.len() - from,
        via units_from_decreases
{
    let j = find_from(s, ':', from);
    if j >= s.len() {
        if is_hex_group(s.subrange(from, s.len() as int)) {
            Some(1int)
        } else if octets_from(s, from, 4) {
            Some(2int)
        } else {
            None
        }
    } else {
        if is_hex_group(s.subrange(from, j)) {
            match units_from(s, j + 1) {
                Some(u) => Some(u + 1),
                None => None,
            }
        } else {
            None
        }
    }
}

#[via_fn]
proof fn units_from_decreases(s: Seq<char>, from: int) {
    lemma_find_from(s, ':', from);
}

/// The number of hexadecimal groups separated by single colons filling
/// `from..end` exactly.
pub open spec fn hex_units_to(s: Seq<char>, from: int, end: int) -> Option<int>
    decreases end - from,
        via hex_units_to_decreases
{
    let j = find_from(s, ':', from);
    if from < 0 || end > s.len() {
        None
    } else if j >= end {
        if is_hex_group(s.subrange(from, end)) {
            Some(1int)
        } else {
            None
        }
    } else {
        if is_hex_group(s.subrange(from, j)) {
            match hex_units_to(s, j + 1, end) {
                Some(u) => Some(u + 1),
                None => None,
            }
        } else {
            None
        }
    }
}

#[via_fn]
proof fn hex_units_to_decreases(s: Seq<char>, from: int, end: int) {
    lemma_find_from(s, ':', from);
}

/// A literal IPv6 address: eight units of hexadecimal groups, a trailing
/// embedded IPv4 address counting as two, with `::` standing once for
/// one or more zero units.
pub open spec fn ipv6_literal(s: Seq<char>) -> bool {
    let dc = find_double_colon(s, 0);
    if dc >= s.len() {
        units_from(s, 0) == Some(8int)
    } else {
        let lu = if dc == 0 {
            Some(0int)
        } else {
            hex_units_to(s, 0, dc)
        };
        let ru = if dc + 2 == s.len() {
            Some(0int)
        } else {
            units_from(s, dc + 2)
        };
        match (lu, ru) {
            (Some(a), Some(b)) => a + b <= 7,
            _ => false,
        }
    }
}

/// A literal IP address of either family.
pub open spec fn ip_literal(s: Seq<char>) -> bool {
    ipv4_literal(s) || ipv6_literal(s)
}

/// A found unit count is at least one and bounded by the span scanned.
proof fn lemma_units_from_bound(s: Seq<char>, from: int)
    requires
        0 <= from <= s.len(),
    ensures
        match units_from(s, from) {
            Some(u) => 1 <= u <= s.len() - from + 1,
            None => true,
        },
    decreases s.len() - from,
{
    lemma_find_from(s, ':', from);
    let j = find_from(s, ':', from);
    if j < s.len() && is_hex_group(s.subrange(from, j)) {
        lemma_units_from_bound(s, j + 1);
    }
}

/// A found group count is at least one and bounded by the span scanned.
proof fn lemma_hex_units_to_bound(s: Seq<char>, from: int, end: int)
    requires
        0 <= from <= end <= s.len(),
    ensures
        match hex_units_to(s, from, end) {
            Some(u) => 1 <= u <= end - from + 1,
            None => true,
        },
    decreases end - from,
{
    lemma_find_from(s, ':', from);
    let j = find_from(s, ':', from);
    if j < end && is_hex_group(s.subrange(from, j)) {
        lemma_hex_units_to_bound(s, j + 1, end);
    }
}

/// Collects a string's characters for positional scanning.
fn str_chars_vec(s: &str) -> (r: Vec<char>)
    ensures
        r@ == s@,
{
    let mut it = s.chars();
    let mut out: Vec<char> = Vec::new();
    let ghost mut processed: int = 0;
    loop
        invariant
            it.obeys_prophetic_iter_laws(),
            0 <= processed <= s@.len(),
            it.remaining() == s@.skip(processed),
            out@ == s@.take(processed),
        decreases s@.len() - processed,
    {
        match it.next() {
            None => {
                assert(s@.skip(processed).len() == 0);
                assert(s@.take(processed) =~= s@);
                return out;
            },
            Some(c) => {
                proof {
                    assert(s@.skip(processed)[0] == s@[processed]);
                    assert(s@.take(processed + 1) =~= s@.take(processed) + seq![s@[processed]]);
                    assert(s@.skip(processed).drop_first() =~= s@.skip(processed + 1));
                }
                out.push(c);
                proof {
                    processed = processed + 1;
                    assert(out@ =~= s@.take(processed));
                }
            },
        }
    }
}

/// Finds the first occurrence of `c` at or after `from`.
fn find_char(cs: &Vec<char>, c: char, from: usize) -> (r: usize)
    requires
        from <= cs@.len(),
    ensures
        r == find_from(cs@, c, from as int),
        from <= r <= cs@.len(),
{
    let mut i: usize = from;
    loop
        invariant
            from <= i <= cs@.len(),
            find_from(cs@, c, from as int) == find_from(cs@, c, i as int),
        decreases cs@.len() - i,
    {
        if i >= cs.len() {
            return i;
        }
        if cs[i] == c {
            return i;
        }
        i = i + 1;
    }
}

/// Finds the first position at or after `from` where `::` begins.
fn find_double(cs: &Vec<char>, from: usize) -> (r: usize)
    requires
        from <= cs@.len(),
    ensures
        r == find_double_colon(cs@, from as int),
        r <= cs@.len(),
        r < cs@.len() ==> r + 2 <= cs@.len(),
{
    let mut i: usize = from;
    loop
        invariant
            from <= i,
            i <= cs@.len() + 1,
            find_double_colon(cs@, from as int) == find_double_colon(cs@, i as int),
        decreases cs@.len() + 2 - i,
    {
        if i >= cs.len() || i + 1 >= cs.len() {
            return cs.len();
        }
        if cs[i] == ':' && cs[i + 1] == ':' {
            return i;
        }
        i = i + 1;
    }
}

/// Checks that `cs[from..to]` is one dotted-quad octet.
fn check_dec_octet(cs: &Vec<char>, from: usize, to: usize) -> (r: bool)
    requires
        from <= to <= cs@.len(),
    ensures
        r == is_dec_octet(cs@.subrange(from as int, to as int)),
{
    let ghost sub = cs@.subrange(from as int, to as int);
    let len: usize = to - from;
    if len < 1 || len > 3 {
        return false;
    }
    let mut i: usize = from;
    let mut val: u32 = 0;
    while i < to
        invariant
            from <= i <= to,
            to <= cs@.len(),
            to - from <= 3,
            sub == cs@.subrange(from as int, to as int),
            forall|t: int| 0 <= t < i - from ==> is_digit(#[trigger] sub[t]),
            val == dec_value(cs@.subrange(from as int, i as int)),
            i - from == 0 ==> val == 0,
            i - from == 1 ==> val <= 9,
            i - from == 2 ==> val <= 99,
            val <= 999,
        decreases to - i,
    {
        let c: char = cs[i];
        let cu: u32 = c as u32;
        if cu < 48 || cu > 57 {
            assert(sub[i - from] == cs@[i as int]);
            assert(!is_digit(sub[i - from]));
            return false;
        }
        proof {
            assert(sub[i - from] == cs@[i as int]);
            assert(cs@.subrange(from as int, i as int + 1).drop_last() =~= cs@.subrange(
                from as int,
                i as int,
            ));
            assert(cs@.subrange(from as int, i as int + 1).last() == cs@[i as int]);
        }
        val = val * 10 + (cu - 48);
        i = i + 1;
    }
    assert(cs@.subrange(from as int, i as int) == sub);
    if len > 1 && cs[from] == '0' {
        assert(sub[0] == cs@[from as int]);
        return false;
    }
    assert(sub[0] == cs@[from as int]);
    val <= 255
}

/// Checks that `cs[from..to]` is one hexadecimal group.
fn check_hex_group(cs: &Vec<char>, from: usize, to: usize) -> (r: bool)
    requires
        from <= to <= cs@.len(),
    ensures
        r == is_hex_group(cs@.subrange(from as int, to as int)),
{
    let ghost sub = cs@.subrange(from as int, to as int);
    let len: usize = to - from;
    if len < 1 || len > 4 {
        return false;
    }
    let mut i: usize = from;
    while i < to
        invariant
            from <= i <= to,
            to <= cs@.len(),
            sub == cs@.subrange(from as int, to as int),
            forall|t: int| 0 <= t < i - from ==> is_hex_digit(#[trigger] sub[t]),
        decreases to - i,
    {
        let cu: u32 = cs[i] as u32;
        let ok: bool = (cu >= 48 && cu <= 57) || (cu >= 97 && cu <= 102) || (cu >= 65 && cu <= 70);
        if !ok {
            assert(sub[i - from] == cs@[i as int]);
            return false;
        }
        proof {
            assert(sub[i - from] == cs@[i as int]);
        }
        i = i + 1;
    }
    true
}

/// Checks `count` dot-separated octets from `from` to the end.
fn octets_check(cs: &Vec<char>, from: usize, count: usize) -> (r: bool)
    requires
        from <= cs@.len(),
        1 <= count,
    ensures
        r == octets_from(cs@, from as int, count as int),
    decreases count,
{
    let j: usize = find_char(cs, '.', from);
    if count == 1 {
        if j < cs.len() {
            return false;
        }
        check_dec_octet(cs, from, cs.len())
    } else {
        if j >= cs.len() {
            return false;
        }
        if !check_dec_octet(cs, from, j) {
            return false;
        }
        octets_check(cs, j + 1, count - 1)
    }
}

/// Counts the 16-bit units written from `from` to the end.
fn units_check(cs: &Vec<char>, from: usize) -> (r: Option<usize>)
    requires
        from <= cs@.len(),
    ensures
        match units_from(cs@, from as int) {
            Some(u) => r matches Some(x) && x == u,
            None => r is None,
        },
    decreases cs@.len() - from,
{
    let j: usize = find_char(cs, ':', from);
    if j >= cs.len() {
        if check_hex_group(cs, from, cs.len()) {
            Some(1)
        } else if octets_check(cs, from, 4) {
            Some(2)
        } else {
            None
        }
    } else {
        if !check_hex_group(cs, from, j) {
            return None;
        }
        match units_check(cs, j + 1) {
            Some(u) => {
                proof {
                    lemma_units_from_bound(cs@, j as int + 1);
                }
                Some(u + 1)
            },
            None => None,
        }
    }
}

/// Counts the hexadecimal groups filling `from..end` exactly.
fn hex_units_check(cs: &Vec<char>, from: usize, end: usize) -> (r: Option<usize>)
    requires
        from <= end <= cs@.len(),
    ensures
        match hex_units_to(cs@, from as int, end as int) {
            Some(u) => r matches Some(x) && x == u,
            None => r is None,
        },
    decreases end - from,
{
    let j: usize = find_char(cs, ':', from);
    if j >= end {
        if check_hex_group(cs, from, end) {
            Some(1)
        } else {
            None
        }
    } else {
        if !check_hex_group(cs, from, j) {
            return None;
        }
        match hex_units_check(cs, j + 1, end) {
            Some(u) => {
                proof {
                    lemma_hex_units_to_bound(cs@, j as int + 1, end as int);
                }
                Some(u + 1)
            },
            None => None,
        }
    }
}

/// Checks the IPv6 literal grammar.
fn check_ipv6(cs: &Vec<char>) -> (r: bool)
    ensures
        r == ipv6_literal(cs@),
{
    let dc: usize = find_double(cs, 0);
    if dc >= cs.len() {
        match units_check(cs, 0) {
            Some(u) => u == 8,
            None => false,
        }
    } else {
        let lu: Option<usize> = if dc == 0 {
            Some(0)
        } else {
            hex_units_check(cs, 0, dc)
        };
        let ru: Option<usize> = if dc + 2 == cs.len() {
            Some(0)
        } else {
            units_check(cs, dc + 2)
        };
        match (lu, ru) {
            (Some(a), Some(b)) => a <= 7 && b <= 7 && a + b <= 7,
            _ => false,
        }
    }
}

/// Decides whether `host` is a literal IP address of either family.
pub fn is_ip_literal(host: &str) -> (r: bool)
    ensures
        r == ip_literal(host@),
{
    let cs = str_chars_vec(host);
    if octets_check(&cs, 0, 4) {
        return true;
    }
    check_ipv6(&cs)
}

/// The first step of host resolution: a literal address is used as it
/// stands, anything else is tried as a DNS service record first.
pub enum ResolvePlan {
    /// Connect to this host and port directly, skipping every lookup
    /// decision.
    Direct(String, u16),
    /// Query this service-record name.
    QuerySrv(String),
}

/// Plans the resolution of `hostname`: a literal IP address bypasses the
/// SRV lookup entirely and keeps the caller's default port; any other
/// name is first tried as `_minecraft._tcp.<hostname>`.
pub fn plan_resolution(hostname: &str, default_port: u16) -> (r: ResolvePlan)
    ensures
        match r {
            ResolvePlan::Direct(h, p) => ip_literal(hostname@) && h@ == hostname@ && p
                == default_port,
            ResolvePlan::QuerySrv(n) => !ip_literal(hostname@) && n@ == "_minecraft._tcp."@
                + hostname@,
        },
{
    if is_ip_literal(hostname) {
        ResolvePlan::Direct(hostname.to_owned(), default_port)
    } else {
        let prefix: String = "_minecraft._tcp.".to_owned();
        ResolvePlan::QuerySrv(prefix.concat(hostname))
    }
}

/// What an SRV lookup reported, as plain values.
pub enum SrvOutcome {
    /// The lookup succeeded; the first record's target host and port.
    Found(String, u16),
    /// The lookup succeeded but returned no records.
    NoRecords,
    /// The lookup mechanism itself failed (no resolver, no such domain).
    LookupError,
}

/// Folds an SRV outcome into the endpoint to contact: a found record
/// overrides both host and port, an empty answer is an error, and a
/// failed lookup falls back silently to the original name and port.
pub fn apply_srv_outcome(hostname: &str, default_port: u16, outcome: SrvOutcome) -> (r: Result<
    (String, u16),
    PingError,
>)
    ensures
        match outcome {
            SrvOutcome::Found(h, p) => r matches Ok((rh, rp)) && rh@ == h@ && rp == p,
            SrvOutcome::NoRecords => r == Err::<(String, u16), PingError>(
                PingError::SrvResolutionFailed,
            ),
            SrvOutcome::LookupError => r matches Ok((rh, rp)) && rh@ == hostname@ && rp
                == default_port,
        },
{
    match outcome {
        SrvOutcome::Found(h, p) => Ok((h, p)),
        SrvOutcome::NoRecords => Err(PingError::SrvResolutionFailed),
        SrvOutcome::LookupError => Ok((hostname.to_owned(), default_port)),
    }
}

} // verus!
