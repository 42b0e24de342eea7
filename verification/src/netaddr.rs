//! Recognition of IPv6 address literals, with the syntax that
//! `<Ipv6Addr as FromStr>` accepts: eight colon-separated groups of one to
//! four hex digits, at most one `::` standing for a run of zero groups, and
//! an optional trailing dotted-quad IPv4 address counting as two groups.

use vstd::prelude::*;
use crate::text::{all_digits, decimal_value, find_char, first_idx, is_digit, parse_u64_range};

verus! {

/// Index of the first `::` in `s`, or `s.len()` when absent.
pub open spec fn dcolon_idx(s: Seq<char>) -> nat
    decreases s.len(),
{
    if s.len() < 2 {
        s.len()
    } else if s[0] == ':' && s[1] == ':' {
        0
    } else {
        1 + dcolon_idx(s.drop_first())
    }
}

pub open spec fn is_hex(c: char) -> bool {
    ('0' <= c && c <= '9') || ('a' <= c && c <= 'f') || ('A' <= c && c <= 'F')
}

/// One to four hex digits.
pub open spec fn is_h16(p: Seq<char>) -> bool {
    1 <= p.len() <= 4 && forall|i: int| 0 <= i < p.len() ==> is_hex(#[trigger] p[i])
}

/// A decimal octet: one to three digits, no leading zero, at most 255.
pub open spec fn is_dec_octet(p: Seq<char>) -> bool {
    &&& 1 <= p.len() <= 3
    &&& all_digits(p)
    &&& (p.len() == 1 || p[0] != '0')
    &&& decimal_value(p) <= 255
}

pub open spec fn add_count(o: Option<nat>, k: nat) -> Option<nat> {
    match o {
        Some(n) => Some(n + k),
        None => None,
    }
}

/// Number of `.`-separated decimal octets when every piece is one.
pub open spec fn octet_count(s: Seq<char>) -> Option<nat>
    decreases s.len(),
{
    let j = first_idx(s, '.');
    if !is_dec_octet(s.take(j as int)) {
        None
    } else if j >= s.len() {
        Some(1)
    } else {
        add_count(octet_count(s.skip(j + 1int)), 1)
    }
}

/// Dotted-quad IPv4 address (`<Ipv4Addr as FromStr>` syntax).
pub open spec fn is_ipv4_literal(s: Seq<char>) -> bool {
    octet_count(s) == Some(4nat)
}

/// Number of `:`-separated hex groups when every piece is one.
pub open spec fn h16_count(s: Seq<char>) -> Option<nat>
    decreases s.len(),
{
    let j = first_idx(s, ':');
    if !is_h16(s.take(j as int)) {
        None
    } else if j >= s.len() {
        Some(1)
    } else {
        add_count(h16_count(s.skip(j + 1int)), 1)
    }
}

/// Like `h16_count`, but the last piece may also be an IPv4 address, which
/// stands for two groups.
pub open spec fn group_count(s: Seq<char>) -> Option<nat>
    decreases s.len(),
{
    let j = first_idx(s, ':');
    let p = s.take(j as int);
    if j >= s.len() {
        if is_h16(p) {
            Some(1)
        } else if is_ipv4_literal(p) {
            Some(2)
        } else {
            None
        }
    } else if !is_h16(p) {
        None
    } else {
        add_count(group_count(s.skip(j + 1int)), 1)
    }
}

/// `s` is an IPv6 address literal.
pub open spec fn is_ipv6_literal(s: Seq<char>) -> bool {
    let k = dcolon_idx(s);
    if k >= s.len() {
        group_count(s) == Some(8nat)
    } else {
        let head = s.take(k as int);
        let tail = s.skip(k + 2int);
        let hn = if head.len() == 0 {
            Some(0nat)
        } else {
            h16_count(head)
        };
        let tn = if tail.len() == 0 {
            Some(0nat)
        } else {
            group_count(tail)
        };
        &&& hn is Some
        &&& tn is Some
        &&& hn.unwrap() + tn.unwrap() <= 7
    }
}

fn is_hex_char(c: char) -> (r: bool)
    ensures
        r == is_hex(c),
{
    ('0' <= c && c <= '9') || ('a' <= c && c <= 'f') || ('A' <= c && c <= 'F')
}

fn h16_range(s: &[char], from: usize, to: usize) -> (r: bool)
    requires
        from <= to <= s@.len(),
    ensures
        r == is_h16(s@.subrange(from as int, to as int)),
{
    let ghost t = s@.subrange(from as int, to as int);
    if to - from < 1 || to - from > 4 {
        return false;
    }
    let mut i = from;
    while i < to
        invariant
            from <= i <= to <= s@.len(),
            t == s@.subrange(from as int, to as int),
            forall|j: int| 0 <= j < i - from ==> is_hex(#[trigger] t[j]),
        decreases to - i,
    {
        if !is_hex_char(s[i]) {
            assert(t[i - from] == s@[i as int]);
            return false;
        }
        assert(t[i - from] == s@[i as int]);
        i = i + 1;
    }
    true
}

fn dec_octet_range(s: &[char], from: usize, to: usize) -> (r: bool)
    requires
        from <= to <= s@.len(),
    ensures
        r == is_dec_octet(s@.subrange(from as int, to as int)),
{
    let ghost t = s@.subrange(from as int, to as int);
    if to - from < 1 || to - from > 3 {
        return false;
    }
    let mut i = from;
    while i < to
        invariant
            from <= i <= to <= s@.len(),
            t == s@.subrange(from as int, to as int),
            forall|j: int| 0 <= j < i - from ==> is_digit(#[trigger] t[j]),
        decreases to - i,
    {
        if !('0' <= s[i] && s[i] <= '9') {
            assert(t[i - from] == s@[i as int]);
            return false;
        }
        assert(t[i - from] == s@[i as int]);
        i = i + 1;
    }
    if to - from > 1 && s[from] == '0' {
        return false;
    }
    assert(!(t.len() > 0 && t[0] == '+'));
    match parse_u64_range(s, from, to) {
        Some(v) => v <= 255,
        None => false,
    }
}

/// `octet_count` of `s[from..to]`.
fn octet_count_range(s: &[char], from: usize, to: usize) -> (r: Option<usize>)
    requires
        from <= to <= s@.len(),
    ensures
        r is Some <==> octet_count(s@.subrange(from as int, to as int)) is Some,
        r is Some ==> r.unwrap() == octet_count(s@.subrange(from as int, to as int)).unwrap(),
{
    let ghost whole = s@.subrange(from as int, to as int);
    let mut pos = from;
    let mut cnt: usize = 0;
    loop
        invariant
            from <= pos <= to <= s@.len(),
            cnt <= pos - from,
            whole == s@.subrange(from as int, to as int),
            octet_count(whole) == add_count(octet_count(s@.subrange(pos as int, to as int)), cnt as nat),
        decreases to - pos,
    {
        let j = find_char(s, pos, to, '.');
        let ghost rest = s@.subrange(pos as int, to as int);
        assert(rest.take((j - pos) as int) =~= s@.subrange(pos as int, j as int));
        if !dec_octet_range(s, pos, j) {
            return None;
        }
        if j >= to {
            return Some(cnt + 1);
        }
        assert(rest.skip((j - pos) + 1) =~= s@.subrange(j + 1, to as int));
        cnt = cnt + 1;
        pos = j + 1;
    }
}

/// `h16_count` of `s[from..to]`.
fn h16_count_range(s: &[char], from: usize, to: usize) -> (r: Option<usize>)
    requires
        from <= to <= s@.len(),
    ensures
        r is Some <==> h16_count(s@.subrange(from as int, to as int)) is Some,
        r is Some ==> r.unwrap() == h16_count(s@.subrange(from as int, to as int)).unwrap(),
{
    let ghost whole = s@.subrange(from as int, to as int);
    let mut pos = from;
    let mut cnt: usize = 0;
    loop
        invariant
            from <= pos <= to <= s@.len(),
            cnt <= pos - from,
            whole == s@.subrange(from as int, to as int),
            h16_count(whole) == add_count(h16_count(s@.subrange(pos as int, to as int)), cnt as nat),
        decreases to - pos,
    {
        let j = find_char(s, pos, to, ':');
        let ghost rest = s@.subrange(pos as int, to as int);
        assert(rest.take((j - pos) as int) =~= s@.subrange(pos as int, j as int));
        if !h16_range(s, pos, j) {
            return None;
        }
        if j >= to {
            return Some(cnt + 1);
        }
        assert(rest.skip((j - pos) + 1) =~= s@.subrange(j + 1, to as int));
        cnt = cnt + 1;
        pos = j + 1;
    }
}

/// `group_count` of `s[from..to]`.
fn group_count_range(s: &[char], from: usize, to: usize) -> (r: Option<usize>)
    requires
        from <= to <= s@.len(),
    ensures
        r is Some <==> group_count(s@.subrange(from as int, to as int)) is Some,
        r is Some ==> r.unwrap() == group_count(s@.subrange(from as int, to as int)).unwrap(),
{
    let ghost whole = s@.subrange(from as int, to as int);
    let mut pos = from;
    let mut cnt: usize = 0;
    loop
        invariant
            from <= pos <= to <= s@.len(),
            cnt <= pos - from,
            whole == s@.subrange(from as int, to as int),
            group_count(whole) == add_count(group_count(s@.subrange(pos as int, to as int)), cnt as nat),
        decreases to - pos,
    {
        let j = find_char(s, pos, to, ':');
        let ghost rest = s@.subrange(pos as int, to as int);
        assert(rest.take((j - pos) as int) =~= s@.subrange(pos as int, j as int));
        if j >= to {
            if h16_range(s, pos, j) {
                return Some(cnt + 1);
            }
            match octet_count_range(s, pos, j) {
                Some(n) => {
                    if n == 4 {
                        return Some(cnt + 2);
                    }
                    return None;
                },
                None => {
                    return None;
                },
            }
        }
        if !h16_range(s, pos, j) {
            return None;
        }
        assert(rest.skip((j - pos) + 1) =~= s@.subrange(j + 1, to as int));
        cnt = cnt + 1;
        pos = j + 1;
    }
}

/// `s` holds `::` at index `i`.
pub open spec fn dcolon_at(s: Seq<char>, i: int) -> bool {
    0 <= i && i + 1 < s.len() && s[i] == ':' && s[i + 1] == ':'
}

proof fn lemma_dcolon_unique(s: Seq<char>, k: int)
    requires
        0 <= k <= s.len(),
        forall|i: int| 0 <= i < k ==> !#[trigger] dcolon_at(s, i),
        k + 1 < s.len() ==> s[k] == ':' && s[k + 1] == ':',
        k + 1 >= s.len() ==> k == s.len(),
    ensures
        dcolon_idx(s) == k,
    decreases s.len(),
{
    if s.len() >= 2 && k > 0 {
        let t = s.drop_first();
        assert(!dcolon_at(s, 0));
        assert forall|i: int| 0 <= i < k - 1 implies !#[trigger] dcolon_at(t, i) by {
            assert(!dcolon_at(s, i + 1));
            if i + 1 < t.len() {
                assert(t[i] == s[i + 1] && t[i + 1] == s[i + 2]);
            }
        }
        if k - 1 + 1 < t.len() {
            assert(t[k - 1] == s[k] && t[k] == s[k + 1]);
        }
        lemma_dcolon_unique(t, k - 1);
    }
}

/// Index of the first `::` in `s`, or `s.len()`.
fn find_dcolon(s: &[char]) -> (r: usize)
    ensures
        r == dcolon_idx(s@),
        r <= s@.len(),
        r < s@.len() ==> r + 2 <= s@.len(),
{
    let n = s.len();
    if n < 2 {
        proof {
            lemma_dcolon_unique(s@, n as int);
        }
        return n;
    }
    let mut i: usize = 0;
    while i + 1 < n && !(s[i] == ':' && s[i + 1] == ':')
        invariant
            n == s@.len(),
            n >= 2,
            i + 1 <= n,
            forall|j: int| 0 <= j < i ==> !#[trigger] dcolon_at(s@, j),
        decreases n - i,
    {
        i = i + 1;
    }
    if i + 1 >= n {
        proof {
            lemma_dcolon_unique(s@, n as int);
        }
        n
    } else {
        proof {
            lemma_dcolon_unique(s@, i as int);
        }
        i
    }
}

/// Whether `s[from..to]` is an IPv6 address literal.
pub fn is_ipv6_range(s: &[char], from: usize, to: usize) -> (r: bool)
    requires
        from <= to <= s@.len(),
    ensures
        r == is_ipv6_literal(s@.subrange(from as int, to as int)),
{
    let mut part: Vec<char> = Vec::new();
    let mut i = from;
    while i < to
        invariant
            from <= i <= to <= s@.len(),
            part@ == s@.subrange(from as int, i as int),
        decreases to - i,
    {
        part.push(s[i]);
        i = i + 1;
        assert(part@ =~= s@.subrange(from as int, i as int));
    }
    is_ipv6_chars(&part)
}

/// Whether the characters `s` form an IPv6 address literal.
pub fn is_ipv6_chars(s: &[char]) -> (r: bool)
    ensures
        r == is_ipv6_literal(s@),
{
    let n = s.len();
    let k = find_dcolon(s);
    if k >= n {
        assert(s@.subrange(0, n as int) =~= s@);
        return match group_count_range(s, 0, n) {
            Some(c) => c == 8,
            None => false,
        };
    }
    assert(s@.subrange(0, k as int) =~= s@.take(k as int));
    assert(s@.subrange(k + 2, n as int) =~= s@.skip(k + 2));
    let hn: Option<usize> = if k == 0 {
        Some(0)
    } else {
        h16_count_range(s, 0, k)
    };
    let tn: Option<usize> = if k + 2 == n {
        Some(0)
    } else {
        group_count_range(s, k + 2, n)
    };
    match (hn, tn) {
        (Some(a), Some(b)) => a <= 7 && b <= 7 - a,
        _ => false,
    }
}

} // verus!
