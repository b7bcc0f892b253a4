//! Character-level string helpers with their mathematical meaning.
use vstd::prelude::*;
use vstd::string::*;

verus! {

pub open spec fn starts_with(s: Seq<char>, p: Seq<char>) -> bool {
    p.len() <= s.len() && s.subrange(0, p.len() as int) == p
}

pub open spec fn ends_with(s: Seq<char>, p: Seq<char>) -> bool {
    p.len() <= s.len() && s.subrange(s.len() - p.len(), s.len() as int) == p
}

/// `s` with every leading occurrence of `p` removed, repeatedly.
pub open spec fn trim_start_all(s: Seq<char>, p: Seq<char>) -> Seq<char>
    decreases s.len(),
{
    if p.len() > 0 && starts_with(s, p) {
        trim_start_all(s.subrange(p.len() as int, s.len() as int), p)
    } else {
        s
    }
}

/// `s` with every trailing occurrence of `p` removed, repeatedly.
pub open spec fn trim_end_all(s: Seq<char>, p: Seq<char>) -> Seq<char>
    decreases s.len(),
{
    if p.len() > 0 && ends_with(s, p) {
        trim_end_all(s.subrange(0, s.len() - p.len()), p)
    } else {
        s
    }
}

/// The first `n` characters of `s`, or all of `s` when it is shorter.
pub open spec fn prefix_upto(s: Seq<char>, n: nat) -> Seq<char> {
    if s.len() <= n {
        s
    } else {
        s.subrange(0, n as int)
    }
}

/// The characters of `s` before its first `/`.
pub open spec fn first_segment(s: Seq<char>) -> Seq<char>
    decreases s.len(),
{
    if s.len() == 0 || s[0] == '/' {
        Seq::empty()
    } else {
        seq![s[0]] + first_segment(s.subrange(1, s.len() as int))
    }
}

/// The end of `s` that holds at most `n` slashes and begins at the start of `s`
/// or just after a slash.
pub open spec fn tail_segments(s: Seq<char>, n: nat) -> Seq<char>
    decreases s.len(),
{
    if s.len() == 0 {
        s
    } else if s.last() == '/' {
        if n == 0 {
            Seq::empty()
        } else {
            tail_segments(s.drop_last(), (n - 1) as nat) + seq!['/']
        }
    } else {
        tail_segments(s.drop_last(), n) + seq![s.last()]
    }
}

pub open spec fn is_digit(c: char) -> bool {
    '0' <= c && c <= '9'
}

pub open spec fn all_digits(s: Seq<char>) -> bool {
    forall|i: int| 0 <= i < s.len() ==> is_digit(#[trigger] s[i])
}

pub open spec fn digit_value(c: char) -> nat {
    ((c as u32) - ('0' as u32)) as nat
}

/// The number written by the decimal digits `s`.
pub open spec fn decimal_value(s: Seq<char>) -> nat
    decreases s.len(),
{
    if s.len() == 0 {
        0
    } else {
        decimal_value(s.drop_last()) * 10 + digit_value(s.last())
    }
}

/// The digits of an unsigned decimal literal: an optional leading `+` is dropped.
pub open spec fn unsigned_digits(s: Seq<char>) -> Seq<char> {
    if s.len() > 0 && s[0] == '+' {
        s.subrange(1, s.len() as int)
    } else {
        s
    }
}

/// What reading `s` as a `u64` gives: an optional `+`, then at least one digit,
/// with a value that fits.
pub open spec fn parse_u64_spec(s: Seq<char>) -> Option<u64> {
    let d = unsigned_digits(s);
    if d.len() > 0 && all_digits(d) && decimal_value(d) <= u64::MAX {
        Some(decimal_value(d) as u64)
    } else {
        None
    }
}

pub open spec fn digit_char(d: nat) -> char {
    if d == 0 {
        '0'
    } else if d == 1 {
        '1'
    } else if d == 2 {
        '2'
    } else if d == 3 {
        '3'
    } else if d == 4 {
        '4'
    } else if d == 5 {
        '5'
    } else if d == 6 {
        '6'
    } else if d == 7 {
        '7'
    } else if d == 8 {
        '8'
    } else {
        '9'
    }
}

/// The decimal digits of `n`, without leading zeros.
pub open spec fn decimal(n: nat) -> Seq<char>
    decreases n,
{
    if n < 10 {
        seq![digit_char(n)]
    } else {
        decimal(n / 10) + seq![digit_char(n % 10)]
    }
}

/// Whether `p` occurs in `s` at character position `at`.
pub fn matches_at(s: &str, at: usize, p: &str) -> (r: bool)
    requires
        at <= s@.len(),
    ensures
        r == (at + p@.len() <= s@.len() && s@.subrange(at as int, at + p@.len()) == p@),
{
    let slen = s.unicode_len();
    let plen = p.unicode_len();
    if plen > slen - at {
        return false;
    }
    let mut i: usize = 0;
    while i < plen
        invariant
            i <= plen,
            plen == p@.len(),
            slen == s@.len(),
            at + plen <= slen,
            forall|j: int| 0 <= j < i ==> s@[at + j] == p@[j],
        decreases plen - i,
    {
        if s.get_char(at + i) != p.get_char(i) {
            assert(s@.subrange(at as int, at + plen)[i as int] != p@[i as int]);
            return false;
        }
        i += 1;
    }
    assert(s@.subrange(at as int, at + plen) =~= p@);
    true
}

pub fn str_starts_with(s: &str, p: &str) -> (r: bool)
    ensures
        r == starts_with(s@, p@),
{
    matches_at(s, 0, p)
}

pub fn str_eq(a: &str, b: &str) -> (r: bool)
    ensures
        r == (a@ == b@),
{
    if a.unicode_len() != b.unicode_len() {
        return false;
    }
    let r = matches_at(a, 0, b);
    assert(a@.subrange(0, a@.len() as int) =~= a@);
    r
}

pub fn str_ends_with(s: &str, p: &str) -> (r: bool)
    ensures
        r == ends_with(s@, p@),
{
    let slen = s.unicode_len();
    let plen = p.unicode_len();
    if plen > slen {
        return false;
    }
    matches_at(s, slen - plen, p)
}

/// `s` without its leading occurrences of `p` (`str::trim_start_matches`).
pub fn trim_start<'a>(s: &'a str, p: &str) -> (r: &'a str)
    ensures
        r@ == trim_start_all(s@, p@),
{
    let slen = s.unicode_len();
    let plen = p.unicode_len();
    if plen == 0 {
        return s;
    }
    let mut at: usize = 0;
    assert(s@.subrange(0, slen as int) =~= s@);
    while matches_at(s, at, p)
        invariant
            at <= slen,
            slen == s@.len(),
            plen == p@.len(),
            plen > 0,
            trim_start_all(s@.subrange(at as int, slen as int), p@) == trim_start_all(s@, p@),
        decreases slen - at,
    {
        let ghost rest = s@.subrange(at as int, slen as int);
        assert(rest.subrange(0, plen as int) =~= s@.subrange(at as int, at + plen));
        assert(rest.subrange(plen as int, rest.len() as int) =~= s@.subrange(
            at + plen,
            slen as int,
        ));
        at = at + plen;
    }
    let ghost rest = s@.subrange(at as int, slen as int);
    assert(plen <= rest.len() ==> rest.subrange(0, plen as int) =~= s@.subrange(
        at as int,
        at + plen,
    ));
    s.substring_char(at, slen)
}

/// `s` without its trailing occurrences of `p` (`str::trim_end_matches`).
pub fn trim_end<'a>(s: &'a str, p: &str) -> (r: &'a str)
    ensures
        r@ == trim_end_all(s@, p@),
{
    let slen = s.unicode_len();
    let plen = p.unicode_len();
    if plen == 0 {
        return s;
    }
    let mut end: usize = slen;
    assert(s@.subrange(0, slen as int) =~= s@);
    while plen <= end && matches_at(s, end - plen, p)
        invariant
            end <= slen,
            slen == s@.len(),
            plen == p@.len(),
            plen > 0,
            trim_end_all(s@.subrange(0, end as int), p@) == trim_end_all(s@, p@),
        decreases end,
    {
        let ghost head = s@.subrange(0, end as int);
        assert(head.subrange(head.len() - plen, head.len() as int) =~= s@.subrange(
            end - plen,
            end as int,
        ));
        assert(head.subrange(0, head.len() - plen) =~= s@.subrange(0, end - plen));
        end = end - plen;
    }
    let ghost head = s@.subrange(0, end as int);
    assert(plen <= head.len() ==> head.subrange(head.len() - plen, head.len() as int)
        =~= s@.subrange(end - plen, end as int));
    s.substring_char(0, end)
}

/// The first `n` characters of `s`, or all of it when it is shorter.
pub fn take_chars(s: &str, n: usize) -> (r: &str)
    ensures
        r@ == prefix_upto(s@, n as nat),
{
    let slen = s.unicode_len();
    if slen <= n {
        assert(s@.subrange(0, slen as int) =~= s@);
        s.substring_char(0, slen)
    } else {
        s.substring_char(0, n)
    }
}

/// The characters of `s` from position `from` up to the next `/`.
pub fn segment_from(s: &str, from: usize) -> (r: &str)
    requires
        from <= s@.len(),
    ensures
        r@ == first_segment(s@.subrange(from as int, s@.len() as int)),
{
    let slen = s.unicode_len();
    let mut end: usize = from;
    while end < slen && s.get_char(end) != '/'
        invariant
            from <= end <= slen,
            slen == s@.len(),
            first_segment(s@.subrange(from as int, slen as int)) == s@.subrange(
                from as int,
                end as int,
            ) + first_segment(s@.subrange(end as int, slen as int)),
        decreases slen - end,
    {
        let ghost rest = s@.subrange(end as int, slen as int);
        assert(rest.subrange(1, rest.len() as int) =~= s@.subrange(end + 1, slen as int));
        assert(s@.subrange(from as int, end as int) + seq![s@[end as int]] =~= s@.subrange(
            from as int,
            end + 1,
        ));
        assert(first_segment(rest) == seq![rest[0]] + first_segment(
            rest.subrange(1, rest.len() as int),
        ));
        end = end + 1;
    }
    let ghost rest = s@.subrange(end as int, slen as int);
    assert(first_segment(rest) =~= Seq::<char>::empty());
    assert(s@.subrange(from as int, end as int) + Seq::<char>::empty() =~= s@.subrange(
        from as int,
        end as int,
    ));
    s.substring_char(from, end)
}

/// The end of `s` after its second-to-last `/`: the last two path segments.
pub fn last_two_segments(s: &str) -> (r: &str)
    ensures
        r@ == tail_segments(s@, 1),
{
    let slen = s.unicode_len();
    let mut i: usize = slen;
    let mut left: usize = 1;
    assert(s@.subrange(0, slen as int) =~= s@);
    assert(s@ + s@.subrange(slen as int, slen as int) =~= s@);
    while i > 0 && !(left == 0 && s.get_char(i - 1) == '/')
        invariant
            i <= slen,
            slen == s@.len(),
            left <= 1,
            tail_segments(s@, 1) == tail_segments(s@.subrange(0, i as int), left as nat)
                + s@.subrange(i as int, slen as int),
        decreases i,
    {
        let c = s.get_char(i - 1);
        let ghost head = s@.subrange(0, i as int);
        assert(head.drop_last() =~= s@.subrange(0, i - 1));
        assert(head.last() == c);
        assert(seq![c] + s@.subrange(i as int, slen as int) =~= s@.subrange(
            i - 1,
            slen as int,
        ));
        if c == '/' {
            left = left - 1;
        }
        i = i - 1;
        assert(tail_segments(s@, 1) == tail_segments(s@.subrange(0, i as int), left as nat)
            + s@.subrange(i as int, slen as int));
    }
    assert(tail_segments(s@.subrange(0, i as int), left as nat) =~= Seq::<char>::empty());
    assert(Seq::<char>::empty() + s@.subrange(i as int, slen as int) =~= s@.subrange(
        i as int,
        slen as int,
    ));
    s.substring_char(i, slen)
}

/// Reads `s` as a `u64` the way `str::parse::<u64>` does.
pub fn parse_u64(s: &str) -> (r: Option<u64>)
    ensures
        r == parse_u64_spec(s@),
{
    let slen = s.unicode_len();
    let mut start: usize = 0;
    if slen > 0 && s.get_char(0) == '+' {
        start = 1;
    }
    let ghost d = unsigned_digits(s@);
    assert(d =~= s@.subrange(start as int, slen as int));
    if start == slen {
        return None;
    }
    let mut value: u64 = 0;
    let mut i: usize = start;
    assert(s@.subrange(start as int, i as int) =~= Seq::<char>::empty());
    while i < slen
        invariant
            start <= i <= slen,
            start < slen,
            slen == s@.len(),
            d == s@.subrange(start as int, slen as int),
            d == unsigned_digits(s@),
            all_digits(s@.subrange(start as int, i as int)),
            value == decimal_value(s@.subrange(start as int, i as int)),
        decreases slen - i,
    {
        let c = s.get_char(i);
        assert(d[i - start] == c);
        if !('0' <= c && c <= '9') {
            assert(!all_digits(d));
            return None;
        }
        let digit: u64 = (c as u32 - '0' as u32) as u64;
        let ghost next = s@.subrange(start as int, i + 1);
        assert(next.drop_last() =~= s@.subrange(start as int, i as int));
        assert(decimal_value(next) == value * 10 + digit);
        assert(all_digits(next));
        if value > (u64::MAX - digit) / 10 {
            proof {
                assert(d.subrange(0, (i + 1 - start) as int) =~= next);
                assert((value * 10 + digit) > u64::MAX) by (nonlinear_arith)
                    requires
                        value > (u64::MAX - digit) / 10,
                        digit <= 9,
                ;
                if all_digits(d) {
                    lemma_decimal_value_prefix_bound(d, (i + 1 - start) as nat);
                }
            }
            return None;
        }
        assert(value * 10 + digit <= u64::MAX) by (nonlinear_arith)
            requires
                value <= (u64::MAX - digit) / 10,
                digit <= 9,
        ;
        value = value * 10 + digit;
        i = i + 1;
    }
    Some(value)
}

/// A prefix of a run of digits has a value no larger than the whole run.
pub proof fn lemma_decimal_value_prefix_bound(d: Seq<char>, n: nat)
    requires
        n <= d.len(),
        all_digits(d),
    ensures
        decimal_value(d.subrange(0, n as int)) <= decimal_value(d),
    decreases d.len() - n,
{
    if n < d.len() {
        lemma_decimal_value_prefix_bound(d, n + 1);
        let a = d.subrange(0, n + 1 as int);
        assert(a.drop_last() =~= d.subrange(0, n as int));
        assert(is_digit(d[n as int]));
        assert(decimal_value(a) == decimal_value(d.subrange(0, n as int)) * 10 + digit_value(
            a.last(),
        ));
    } else {
        assert(d.subrange(0, n as int) =~= d);
    }
}

fn push_digit(out: &mut String, d: u64)
    requires
        d < 10,
    ensures
        final(out)@ == old(out)@ + seq![digit_char(d as nat)],
{
    proof {
        reveal_strlit("0");
        reveal_strlit("1");
        reveal_strlit("2");
        reveal_strlit("3");
        reveal_strlit("4");
        reveal_strlit("5");
        reveal_strlit("6");
        reveal_strlit("7");
        reveal_strlit("8");
        reveal_strlit("9");
    }
    if d == 0 {
        out.append("0");
    } else if d == 1 {
        out.append("1");
    } else if d == 2 {
        out.append("2");
    } else if d == 3 {
        out.append("3");
    } else if d == 4 {
        out.append("4");
    } else if d == 5 {
        out.append("5");
    } else if d == 6 {
        out.append("6");
    } else if d == 7 {
        out.append("7");
    } else if d == 8 {
        out.append("8");
    } else {
        out.append("9");
    }
}

/// Appends the decimal digits of `n` to `out`.
pub fn push_decimal(out: &mut String, n: u64)
    ensures
        final(out)@ == old(out)@ + decimal(n as nat),
    decreases n,
{
    if n < 10 {
        push_digit(out, n);
    } else {
        push_decimal(out, n / 10);
        push_digit(out, n % 10);
        assert(out@ =~= old(out)@ + decimal(n as nat));
    }
}

/// The decimal digits of `n` (`n.to_string()`).
pub fn decimal_string(n: u64) -> (r: String)
    ensures
        r@ == decimal(n as nat),
{
    let mut out = String::new();
    push_decimal(&mut out, n);
    assert(out@ =~= decimal(n as nat));
    out
}

} // verus!
