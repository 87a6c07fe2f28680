use vstd::prelude::*;

use crate::text;
use crate::text::{append_range, chars_of, matches_at, scan_run, string_of, trim_bounds, CharClass};

verus! {

/// The value of a string of ASCII digits, read in base ten.
pub open spec fn digits_value(d: Seq<char>) -> nat
    decreases d.len(),
{
    if d.len() == 0 {
        0
    } else {
        (digits_value(d.drop_last()) * 10 + (d.last() as int - '0' as int)) as nat
    }
}

pub open spec fn all_ascii_digits(d: Seq<char>) -> bool {
    forall|i: int| 0 <= i < d.len() ==> text::is_ascii_digit(#[trigger] d[i])
}

/// What `str::parse` gives for an unsigned integer type whose largest value is `max`:
/// an optional `+` followed by at least one ASCII digit, of a value no larger than `max`.
pub open spec fn parse_decimal(s: Seq<char>, max: nat) -> Option<nat> {
    if s.len() > 0 && s[0] == '+' {
        unsigned_digits(s.drop_first(), max)
    } else {
        unsigned_digits(s, max)
    }
}

/// At least one ASCII digit, of a value no larger than `max`.
pub open spec fn unsigned_digits(d: Seq<char>, max: nat) -> Option<nat> {
    if d.len() > 0 && all_ascii_digits(d) && digits_value(d) <= max {
        Some(digits_value(d))
    } else {
        None
    }
}

/// Reads `s[lo..hi]` as `str::parse` reads an unsigned integer no larger than `max`.
pub fn parse_unsigned(s: &Vec<char>, lo: usize, hi: usize, max: u64) -> (r: Option<u64>)
    requires
        lo <= hi <= s@.len(),
    ensures
        match r {
            Some(v) => parse_decimal(s@.subrange(lo as int, hi as int), max as nat) == Some(v as nat),
            None => parse_decimal(s@.subrange(lo as int, hi as int), max as nat) is None,
        },
{
    let ghost whole = s@.subrange(lo as int, hi as int);
    let start = if lo < hi && s[lo] == '+' {
        lo + 1
    } else {
        lo
    };
    assert(lo < hi ==> whole[0] == s@[lo as int]);
    assert(start > lo ==> whole.drop_first() =~= s@.subrange(start as int, hi as int));
    assert(start == lo ==> whole =~= s@.subrange(start as int, hi as int));
    assert(parse_decimal(whole, max as nat) == unsigned_digits(s@.subrange(start as int, hi as int), max as nat));
    if start == hi {
        return None;
    }
    let mut acc: u128 = 0;
    let mut over = false;
    let mut i = start;
    while i < hi
        invariant
            lo <= start <= i <= hi <= s@.len(),
            start < hi,
            parse_decimal(s@.subrange(lo as int, hi as int), max as nat) == unsigned_digits(s@.subrange(start as int, hi as int), max as nat),
            all_ascii_digits(s@.subrange(start as int, i as int)),
            !over ==> acc as nat == digits_value(s@.subrange(start as int, i as int)) && acc <= max,
            over ==> digits_value(s@.subrange(start as int, i as int)) > max,
        decreases hi - i,
    {
        let c = s[i];
        if !('0' <= c && c <= '9') {
            assert(s@.subrange(start as int, hi as int)[i - start] == c);
            return None;
        }
        let ghost prefix = s@.subrange(start as int, i as int);
        let ghost next = s@.subrange(start as int, i + 1);
        assert(next.drop_last() =~= prefix);
        assert(next.last() == c);
        assert(all_ascii_digits(next)) by {
            assert forall|k: int| 0 <= k < next.len() implies text::is_ascii_digit(#[trigger] next[k]) by {
                if k < prefix.len() {
                    assert(next[k] == prefix[k]);
                }
            }
        }
        if !over {
            let digit = (c as u32 - '0' as u32) as u128;
            acc = acc * 10 + digit;
            if acc > max as u128 {
                over = true;
            }
        }
        i = i + 1;
    }
    if over {
        None
    } else {
        Some(acc as u64)
    }
}


/// The text of an optional string, as characters.
pub open spec fn chars_opt(r: Option<String>) -> Option<Seq<char>> {
    match r {
        Some(s) => Some(s@),
        None => None,
    }
}

/// The module that an entry of the reactor build order names: `t`, a line without its
/// surrounding white space, is a non-empty run of decimal digits, a dot, a non-empty
/// run of white space, and then at least one character up to the end, none of them a
/// line feed; that last part is the module (`^\d+\.\s+(.+)$`).
pub open spec fn reactor_entry(t: Seq<char>) -> Option<Seq<char>> {
    let d = text::run_end(t, 0, text::CharClass::DecimalDigit);
    let w = text::run_end(t, d + 1, text::CharClass::WhiteSpace);
    if 0 < d < t.len() && t[d] == '.' && d + 1 < w < t.len() && text::run_end(
        t,
        w,
        text::CharClass::Except('\n'),
    ) == t.len() {
        Some(text::trim(t.subrange(w, t.len() as int)))
    } else {
        None
    }
}

/// The module that a reactor build order line names, read from the line without its
/// surrounding white space.
pub open spec fn reactor_module(line: Seq<char>) -> Option<Seq<char>> {
    reactor_entry(text::trim(line))
}

/// Reads the module of a reactor build order entry such as `1. com.example:module-name`.
pub fn parse_reactor_module(line: &str) -> (r: Option<String>)
    ensures
        chars_opt(r) == reactor_module(line@),
{
    let s = chars_of(line);
    let (lo, hi) = trim_bounds(&s, 0, s.len());
    assert(s@.subrange(0, s@.len() as int) =~= s@);
    let mut t: Vec<char> = Vec::new();
    append_range(&mut t, &s, lo, hi);
    assert(t@ =~= text::trim(line@));
    let n = t.len();
    let d = scan_run(&t, 0, CharClass::DecimalDigit);
    if d == 0 || d >= n || t[d] != '.' {
        return None;
    }
    let w = scan_run(&t, d + 1, CharClass::WhiteSpace);
    if w <= d + 1 || w >= n {
        return None;
    }
    let e = scan_run(&t, w, CharClass::Except('\n'));
    if e != n {
        return None;
    }
    let (a, b) = trim_bounds(&t, w, n);
    let mut m: Vec<char> = Vec::new();
    append_range(&mut m, &t, a, b);
    Some(string_of(&m))
}

pub open spec fn info_tag() -> Seq<char> {
    seq!['[', 'I', 'N', 'F', 'O', ']']
}

pub open spec fn building_word() -> Seq<char> {
    seq!['B', 'u', 'i', 'l', 'd', 'i', 'n', 'g']
}

/// The module of a match of `\[INFO\]\s+Building\s+([^\s]+)` that starts at `p`:
/// `[INFO]`, white space, `Building`, white space, and the longest run of other
/// characters after it.
pub open spec fn module_start_at(s: Seq<char>, p: int) -> Option<Seq<char>> {
    let w1 = p + 6;
    let b = text::run_end(s, w1, text::CharClass::WhiteSpace);
    let w2 = b + 8;
    let n = text::run_end(s, w2, text::CharClass::WhiteSpace);
    let e = text::run_end(s, n, text::CharClass::NonWhiteSpace);
    if text::occurs_at(s, info_tag(), p) && b > w1 && text::occurs_at(s, building_word(), b) && n
        > w2 && e > n {
        Some(s.subrange(n, e))
    } else {
        None
    }
}

/// The module of the first match that starts at or after `p`.
pub open spec fn module_start_from(s: Seq<char>, p: int) -> Option<Seq<char>>
    decreases s.len() + 1 - p,
{
    if p < 0 || p > s.len() {
        None
    } else {
        match module_start_at(s, p) {
            Some(m) => Some(m),
            None => module_start_from(s, p + 1),
        }
    }
}

fn info_tag_chars() -> (v: Vec<char>)
    ensures
        v@ == info_tag(),
{
    let v = vec!['[', 'I', 'N', 'F', 'O', ']'];
    assert(v@ =~= info_tag());
    v
}

fn building_word_chars() -> (v: Vec<char>)
    ensures
        v@ == building_word(),
{
    let v = vec!['B', 'u', 'i', 'l', 'd', 'i', 'n', 'g'];
    assert(v@ =~= building_word());
    v
}

fn module_start_at_exec(s: &Vec<char>, p: usize, info: &Vec<char>, building: &Vec<char>) -> (r:
    Option<(usize, usize)>)
    requires
        p <= s@.len() <= usize::MAX,
        info@ == info_tag(),
        building@ == building_word(),
    ensures
        match r {
            Some((n, e)) => n <= e <= s@.len() && module_start_at(s@, p as int) == Some(
                s@.subrange(n as int, e as int),
            ),
            None => module_start_at(s@, p as int) is None,
        },
{
    if !matches_at(s, info, p) {
        return None;
    }
    let w1 = p + 6;
    let b = scan_run(s, w1, CharClass::WhiteSpace);
    if b <= w1 || !matches_at(s, building, b) {
        return None;
    }
    let w2 = b + 8;
    let n = scan_run(s, w2, CharClass::WhiteSpace);
    if n <= w2 {
        return None;
    }
    let e = scan_run(s, n, CharClass::NonWhiteSpace);
    if e <= n {
        return None;
    }
    Some((n, e))
}

/// Reads the module that a line such as `[INFO] Building com.example:module 1.0` starts.
pub fn parse_module_start(line: &str) -> (r: Option<String>)
    ensures
        chars_opt(r) == module_start_from(line@, 0),
{
    let s = chars_of(line);
    let info = info_tag_chars();
    let building = building_word_chars();
    let len = s.len();
    let mut p: usize = 0;
    loop
        invariant
            len == s@.len(),
            s@ == line@,
            info@ == info_tag(),
            building@ == building_word(),
            p <= len,
            module_start_from(s@, 0) == module_start_from(s@, p as int),
        decreases len - p,
    {
        match module_start_at_exec(&s, p, &info, &building) {
            Some((n, e)) => {
                let mut m: Vec<char> = Vec::new();
                append_range(&mut m, &s, n, e);
                return Some(string_of(&m));
            },
            None => {},
        }
        if p == len {
            assert(module_start_from(s@, len + 1) is None);
            return None;
        }
        p = p + 1;
    }
}


pub open spec fn tests_run_label() -> Seq<char> {
    seq!['T', 'e', 's', 't', 's', ' ', 'r', 'u', 'n', ':', ' ']
}

pub open spec fn failures_label() -> Seq<char> {
    seq![',', ' ', 'F', 'a', 'i', 'l', 'u', 'r', 'e', 's', ':', ' ']
}

pub open spec fn errors_label() -> Seq<char> {
    seq![',', ' ', 'E', 'r', 'r', 'o', 'r', 's', ':', ' ']
}

pub open spec fn skipped_label() -> Seq<char> {
    seq![',', ' ', 'S', 'k', 'i', 'p', 'p', 'e', 'd', ':', ' ']
}

/// The four numbers of a match of
/// `Tests run: (\d+), Failures: (\d+), Errors: (\d+), Skipped: (\d+)` that starts at `p`,
/// as the runs of decimal digits that they are written with.
pub open spec fn test_results_at(s: Seq<char>, p: int) -> Option<
    (Seq<char>, Seq<char>, Seq<char>, Seq<char>),
> {
    let a0 = p + 11;
    let a1 = text::run_end(s, a0, text::CharClass::DecimalDigit);
    let b0 = a1 + 12;
    let b1 = text::run_end(s, b0, text::CharClass::DecimalDigit);
    let c0 = b1 + 10;
    let c1 = text::run_end(s, c0, text::CharClass::DecimalDigit);
    let d0 = c1 + 11;
    let d1 = text::run_end(s, d0, text::CharClass::DecimalDigit);
    if text::occurs_at(s, tests_run_label(), p) && a1 > a0 && text::occurs_at(s, failures_label(), a1)
        && b1 > b0 && text::occurs_at(s, errors_label(), b1) && c1 > c0 && text::occurs_at(
        s,
        skipped_label(),
        c1,
    ) && d1 > d0 {
        Some((s.subrange(a0, a1), s.subrange(b0, b1), s.subrange(c0, c1), s.subrange(d0, d1)))
    } else {
        None
    }
}

/// The numbers of the first match that starts at or after `p`.
pub open spec fn test_results_from(s: Seq<char>, p: int) -> Option<
    (Seq<char>, Seq<char>, Seq<char>, Seq<char>),
>
    decreases s.len() + 1 - p,
{
    if p < 0 || p > s.len() {
        None
    } else {
        match test_results_at(s, p) {
            Some(m) => Some(m),
            None => test_results_from(s, p + 1),
        }
    }
}

/// Tests run, failures, errors and skipped tests of a Surefire summary line: the
/// numbers of its first match, each read as a `u32` by `str::parse`; none where
/// nothing matches or where one of the numbers does not read as a `u32`.
pub open spec fn test_counts(line: Seq<char>) -> Option<(u32, u32, u32, u32)> {
    match test_results_from(line, 0) {
        None => None,
        Some((a, b, c, d)) => match (
            parse_decimal(a, u32::MAX as nat),
            parse_decimal(b, u32::MAX as nat),
            parse_decimal(c, u32::MAX as nat),
            parse_decimal(d, u32::MAX as nat),
        ) {
            (Some(x), Some(y), Some(z), Some(w)) => Some((x as u32, y as u32, z as u32, w as u32)),
            _ => None,
        },
    }
}

struct CountBounds {
    a0: usize,
    a1: usize,
    b0: usize,
    b1: usize,
    c0: usize,
    c1: usize,
    d0: usize,
    d1: usize,
}

struct CountLabels {
    run: Vec<char>,
    failures: Vec<char>,
    errors: Vec<char>,
    skipped: Vec<char>,
}

impl CountLabels {
    spec fn wf(&self) -> bool {
        &&& self.run@ == tests_run_label()
        &&& self.failures@ == failures_label()
        &&& self.errors@ == errors_label()
        &&& self.skipped@ == skipped_label()
    }

    fn new() -> (l: Self)
        ensures
            l.wf(),
    {
        let run = vec!['T', 'e', 's', 't', 's', ' ', 'r', 'u', 'n', ':', ' '];
        let failures = vec![',', ' ', 'F', 'a', 'i', 'l', 'u', 'r', 'e', 's', ':', ' '];
        let errors = vec![',', ' ', 'E', 'r', 'r', 'o', 'r', 's', ':', ' '];
        let skipped = vec![',', ' ', 'S', 'k', 'i', 'p', 'p', 'e', 'd', ':', ' '];
        assert(run@ =~= tests_run_label());
        assert(failures@ =~= failures_label());
        assert(errors@ =~= errors_label());
        assert(skipped@ =~= skipped_label());
        CountLabels { run, failures, errors, skipped }
    }
}

fn test_results_at_exec(s: &Vec<char>, p: usize, labels: &CountLabels) -> (r: Option<CountBounds>)
    requires
        p <= s@.len() <= usize::MAX,
        labels.wf(),
    ensures
        match r {
            Some(k) => {
                &&& k.a0 <= k.a1 <= s@.len()
                &&& k.b0 <= k.b1 <= s@.len()
                &&& k.c0 <= k.c1 <= s@.len()
                &&& k.d0 <= k.d1 <= s@.len()
                &&& test_results_at(s@, p as int) == Some(
                    (
                        s@.subrange(k.a0 as int, k.a1 as int),
                        s@.subrange(k.b0 as int, k.b1 as int),
                        s@.subrange(k.c0 as int, k.c1 as int),
                        s@.subrange(k.d0 as int, k.d1 as int),
                    ),
                )
            },
            None => test_results_at(s@, p as int) is None,
        },
{
    if !matches_at(s, &labels.run, p) {
        return None;
    }
    let a0 = p + 11;
    let a1 = scan_run(s, a0, CharClass::DecimalDigit);
    if a1 <= a0 || !matches_at(s, &labels.failures, a1) {
        return None;
    }
    let b0 = a1 + 12;
    let b1 = scan_run(s, b0, CharClass::DecimalDigit);
    if b1 <= b0 || !matches_at(s, &labels.errors, b1) {
        return None;
    }
    let c0 = b1 + 10;
    let c1 = scan_run(s, c0, CharClass::DecimalDigit);
    if c1 <= c0 || !matches_at(s, &labels.skipped, c1) {
        return None;
    }
    let d0 = c1 + 11;
    let d1 = scan_run(s, d0, CharClass::DecimalDigit);
    if d1 <= d0 {
        return None;
    }
    Some(CountBounds { a0, a1, b0, b1, c0, c1, d0, d1 })
}

/// Reads tests run, failures, errors and skipped tests from a line such as
/// `Tests run: 5, Failures: 1, Errors: 0, Skipped: 0`.
pub fn parse_test_results(line: &str) -> (r: Option<(u32, u32, u32, u32)>)
    ensures
        r == test_counts(line@),
{
    let s = chars_of(line);
    let labels = CountLabels::new();
    let len = s.len();
    let mut p: usize = 0;
    loop
        invariant
            len == s@.len(),
            s@ == line@,
            labels.wf(),
            p <= len,
            test_results_from(s@, 0) == test_results_from(s@, p as int),
        decreases len - p,
    {
        match test_results_at_exec(&s, p, &labels) {
            Some(k) => {
                let max = u32::MAX as u64;
                let run = parse_unsigned(&s, k.a0, k.a1, max);
                let failed = parse_unsigned(&s, k.b0, k.b1, max);
                let errored = parse_unsigned(&s, k.c0, k.c1, max);
                let skipped = parse_unsigned(&s, k.d0, k.d1, max);
                return match (run, failed, errored, skipped) {
                    (Some(x), Some(y), Some(z), Some(w)) => Some(
                        (x as u32, y as u32, z as u32, w as u32),
                    ),
                    _ => None,
                };
            },
            None => {},
        }
        if p == len {
            assert(test_results_from(s@, len + 1) is None);
            return None;
        }
        p = p + 1;
    }
}


/// `decimal(n)` reads back as `n`.
pub proof fn lemma_decimal_value(n: nat)
    ensures
        digits_value(text::decimal(n)) == n,
    decreases n,
{
    text::lemma_decimal(n);
    if n >= 10 {
        lemma_decimal_value(n / 10);
        let d = text::decimal(n);
        assert(d.drop_last() =~= text::decimal(n / 10));
        assert(d.last() == text::digit_char(n % 10));
        assert((n / 10) * 10 + n % 10 == n);
        assert(text::digit_char(n % 10) as int == n % 10 + 48);
        assert('0' as int == 48);
        assert(digits_value(d) == digits_value(text::decimal(n / 10)) * 10 + (n % 10));
    } else {
        let d = text::decimal(n);
        assert(text::digit_char(n) as int == n + 48);
        assert(d.drop_last() =~= Seq::<char>::empty());
        assert('0' as int == 48);
        assert(digits_value(d.drop_last()) == 0);
        assert(d.last() as int == n + 48);
        assert(digits_value(d) == n);
    }
}

/// A number written in base ten reads back with `str::parse` where it fits.
pub proof fn lemma_parse_decimal(n: nat, max: nat)
    requires
        n <= max,
    ensures
        parse_decimal(text::decimal(n), max) == Some(n),
{
    text::lemma_decimal(n);
    lemma_decimal_value(n);
    assert(text::is_ascii_digit(text::decimal(n)[0]));
}

/// A Surefire summary line with these counts: `Tests run: a, Failures: b, Errors: c,
/// Skipped: d`.
pub open spec fn results_line(a: u32, b: u32, c: u32, d: u32) -> Seq<char> {
    tests_run_label() + text::decimal(a as nat) + failures_label() + text::decimal(b as nat)
        + errors_label() + text::decimal(c as nat) + skipped_label() + text::decimal(d as nat)
}

#[verifier::rlimit(60)]
#[verifier::spinoff_prover]
/// Every summary line gives back its four counts, whatever follows it as long as it
/// does not go on with a digit.
pub proof fn lemma_test_counts_round_trip(a: u32, b: u32, c: u32, d: u32, rest: Seq<char>)
    requires
        rest.len() == 0 || !text::is_decimal_digit(rest[0]),
    ensures
        test_counts(results_line(a, b, c, d) + rest) == Some((a, b, c, d)),
{
    let da = text::decimal(a as nat);
    let db = text::decimal(b as nat);
    let dc = text::decimal(c as nat);
    let dd = text::decimal(d as nat);
    text::lemma_decimal(a as nat);
    text::lemma_decimal(b as nat);
    text::lemma_decimal(c as nat);
    text::lemma_decimal(d as nat);
    let s = results_line(a, b, c, d) + rest;
    let a0 = 11int;
    let a1 = a0 + da.len();
    let b0 = a1 + 12;
    let b1 = b0 + db.len();
    let c0 = b1 + 10;
    let c1 = c0 + dc.len();
    let d0 = c1 + 11;
    let d1 = d0 + dd.len();
    assert(s.len() == d1 + rest.len());
    assert(s.subrange(0, a0) =~= tests_run_label());
    assert(s.subrange(a0, a1) =~= da);
    assert(s.subrange(a1, b0) =~= failures_label());
    assert(s.subrange(b0, b1) =~= db);
    assert(s.subrange(b1, c0) =~= errors_label());
    assert(s.subrange(c0, c1) =~= dc);
    assert(s.subrange(c1, d0) =~= skipped_label());
    assert(s.subrange(d0, d1) =~= dd);
    assert(s.subrange(d1, s.len() as int) =~= rest);
    assert forall|k: int| a0 <= k < a1 implies text::in_class(
        text::CharClass::DecimalDigit,
        #[trigger] s[k],
    ) by {
        assert(s[k] == s.subrange(a0, a1)[k - a0]);
    }
    assert(s[a1] == s.subrange(a1, b0)[0]);
    text::lemma_run_end(s, a0, a1, text::CharClass::DecimalDigit);
    assert forall|k: int| b0 <= k < b1 implies text::in_class(
        text::CharClass::DecimalDigit,
        #[trigger] s[k],
    ) by {
        assert(s[k] == s.subrange(b0, b1)[k - b0]);
    }
    assert(s[b1] == s.subrange(b1, c0)[0]);
    text::lemma_run_end(s, b0, b1, text::CharClass::DecimalDigit);
    assert forall|k: int| c0 <= k < c1 implies text::in_class(
        text::CharClass::DecimalDigit,
        #[trigger] s[k],
    ) by {
        assert(s[k] == s.subrange(c0, c1)[k - c0]);
    }
    assert(s[c1] == s.subrange(c1, d0)[0]);
    text::lemma_run_end(s, c0, c1, text::CharClass::DecimalDigit);
    assert forall|k: int| d0 <= k < d1 implies text::in_class(
        text::CharClass::DecimalDigit,
        #[trigger] s[k],
    ) by {
        assert(s[k] == s.subrange(d0, d1)[k - d0]);
    }
    if rest.len() > 0 {
        assert(s[d1] == rest[0]);
    }
    text::lemma_run_end(s, d0, d1, text::CharClass::DecimalDigit);
    assert(test_results_at(s, 0) == Some((da, db, dc, dd)));
    lemma_parse_decimal(a as nat, u32::MAX as nat);
    lemma_parse_decimal(b as nat, u32::MAX as nat);
    lemma_parse_decimal(c as nat, u32::MAX as nat);
    lemma_parse_decimal(d as nat, u32::MAX as nat);
}


pub open spec fn all_in(s: Seq<char>, class: text::CharClass) -> bool {
    forall|k: int| 0 <= k < s.len() ==> text::in_class(class, #[trigger] s[k])
}

/// An entry of the reactor build order, `n. name`, with white space around it, gives
/// back the module's name, for a name without line feeds that starts and ends with
/// other characters than white space.
#[verifier::rlimit(40)]
pub proof fn lemma_reactor_module_round_trip(lead: Seq<char>, n: nat, name: Seq<char>, trail: Seq<char>)
    requires
        all_in(lead, text::CharClass::WhiteSpace),
        all_in(trail, text::CharClass::WhiteSpace),
        name.len() > 0,
        !text::is_white_space(name[0]),
        !text::is_white_space(name.last()),
        all_in(name, text::CharClass::Except('\n')),
    ensures
        reactor_module(lead + text::decimal(n) + seq!['.', ' '] + name + trail) == Some(name),
{
    let dec = text::decimal(n);
    text::lemma_decimal(n);
    let core = dec + seq!['.', ' '] + name;
    assert(lead + dec + seq!['.', ' '] + name + trail =~= lead + core + trail);
    assert(core[0] == dec[0]);
    assert(core.last() == name.last());
    assert(!text::is_white_space(core[0]));
    text::lemma_trim_around(lead, core, trail);
    let d = dec.len() as int;
    assert forall|k: int| 0 <= k < d implies text::in_class(text::CharClass::DecimalDigit, #[trigger] core[k]) by {
        assert(core[k] == dec[k]);
    }
    assert(core[d] == '.');
    text::lemma_run_end(core, 0, d, text::CharClass::DecimalDigit);
    assert(core[d + 1] == ' ');
    assert(core[d + 2] == name[0]);
    text::lemma_run_end(core, d + 1, d + 2, text::CharClass::WhiteSpace);
    assert forall|k: int| d + 2 <= k < core.len() implies text::in_class(
        text::CharClass::Except('\n'),
        #[trigger] core[k],
    ) by {
        assert(core[k] == name[k - d - 2]);
    }
    text::lemma_run_end(core, d + 2, core.len() as int, text::CharClass::Except('\n'));
    assert(core.subrange(d + 2, core.len() as int) =~= Seq::<char>::empty() + name + Seq::<char>::empty());
    text::lemma_trim_around(Seq::<char>::empty(), name, Seq::<char>::empty());
}

/// A line `[INFO]`, white space, `Building`, white space, a name without white space,
/// and then nothing or white space first, gives back the name.
#[verifier::rlimit(40)]
pub proof fn lemma_module_start_round_trip(gap1: Seq<char>, gap2: Seq<char>, name: Seq<char>, rest: Seq<char>)
    requires
        gap1.len() > 0,
        gap2.len() > 0,
        all_in(gap1, text::CharClass::WhiteSpace),
        all_in(gap2, text::CharClass::WhiteSpace),
        name.len() > 0,
        all_in(name, text::CharClass::NonWhiteSpace),
        rest.len() == 0 || text::is_white_space(rest[0]),
    ensures
        module_start_from(info_tag() + gap1 + building_word() + gap2 + name + rest, 0) == Some(name),
{
    let s = info_tag() + gap1 + building_word() + gap2 + name + rest;
    let b: int = 6 + gap1.len() as int;
    let w2: int = b + 8;
    let n: int = w2 + gap2.len();
    let e: int = n + name.len();
    assert(s.subrange(0, 6) =~= info_tag());
    assert(s.subrange(6, b) =~= gap1);
    assert(s.subrange(b, w2) =~= building_word());
    assert(s.subrange(w2, n) =~= gap2);
    assert(s.subrange(n, e) =~= name);
    assert forall|k: int| 6 <= k < b implies text::in_class(text::CharClass::WhiteSpace, #[trigger] s[k]) by {
        assert(s[k] == s.subrange(6, b)[k - 6]);
    }
    assert(s[b] == 'B');
    text::lemma_run_end(s, 6, b, text::CharClass::WhiteSpace);
    assert forall|k: int| w2 <= k < n implies text::in_class(text::CharClass::WhiteSpace, #[trigger] s[k]) by {
        assert(s[k] == s.subrange(w2, n)[k - w2]);
    }
    assert(s[n] == name[0]);
    text::lemma_run_end(s, w2, n, text::CharClass::WhiteSpace);
    assert forall|k: int| n <= k < e implies text::in_class(text::CharClass::NonWhiteSpace, #[trigger] s[k]) by {
        assert(s[k] == s.subrange(n, e)[k - n]);
    }
    if rest.len() > 0 {
        assert(s[e] == rest[0]);
    }
    text::lemma_run_end(s, n, e, text::CharClass::NonWhiteSpace);
    assert(module_start_at(s, 0) == Some(name));
}

} // verus!
