use vstd::prelude::*;

use crate::maven_line;
use crate::stack_trace;
use crate::stack_trace::filter_lines;
use crate::text;
use crate::text::{append_range, chars_of, matches_at, scan_run, search_from, string_of, CharClass};

verus! {

pub open spec fn failure_open() -> Seq<char> {
    seq!['<', 'f', 'a', 'i', 'l', 'u', 'r', 'e']
}

pub open spec fn failure_close() -> Seq<char> {
    seq![']', ']', '>', '<', '/', 'f', 'a', 'i', 'l', 'u', 'r', 'e', '>']
}

pub open spec fn error_open() -> Seq<char> {
    seq!['<', 'e', 'r', 'r', 'o', 'r']
}

pub open spec fn error_close() -> Seq<char> {
    seq![']', ']', '>', '<', '/', 'e', 'r', 'r', 'o', 'r', '>']
}

pub open spec fn message_attr() -> Seq<char> {
    seq!['m', 'e', 's', 's', 'a', 'g', 'e', '=', '"']
}

pub open spec fn cdata_open() -> Seq<char> {
    seq!['>', '<', '!', '[', 'C', 'D', 'A', 'T', 'A', '[']
}

/// What follows a `message="` found at `j`, up to the end of the element: the message
/// up to the next quote, anything but `>` up to a `>` that `<![CDATA[` follows, and the
/// character data up to the first `close` after it. The message, the character data
/// and the index after `close`.
pub open spec fn element_rest(s: Seq<char>, close: Seq<char>, j: int) -> Option<
    (Seq<char>, Seq<char>, int),
> {
    let m0 = j + 9;
    let m1 = text::index_of_char(s, m0, '"');
    let g = text::index_of_char(s, m1 + 1, '>');
    let c0 = g + 10;
    if m1 < s.len() && text::occurs_at(s, cdata_open(), g) {
        match text::find_from(s, close, c0) {
            Some(k) => Some((s.subrange(m0, m1), s.subrange(c0, k), k + close.len())),
            None => None,
        }
    } else {
        None
    }
}

/// Among the places `a..=j` where `message="` may follow the element's name, the last
/// one from which the rest of the element matches (the longest `[^>]*` first).
pub open spec fn element_from(s: Seq<char>, close: Seq<char>, a: int, j: int) -> Option<
    (Seq<char>, Seq<char>, int),
>
    decreases j + 1 - a,
{
    if j < a {
        None
    } else if text::occurs_at(s, message_attr(), j) && element_rest(s, close, j) is Some {
        element_rest(s, close, j)
    } else {
        element_from(s, close, a, j - 1)
    }
}

/// A match of `<name[^>]*message="([^"]*)"[^>]*><!\[CDATA\[([\s\S]*?)\]\]></name>` that
/// starts at `st`, where `open` is `<name` and `close` is `]]></name>`.
pub open spec fn element_at(s: Seq<char>, open: Seq<char>, close: Seq<char>, st: int) -> Option<
    (Seq<char>, Seq<char>, int),
> {
    if text::occurs_at(s, open, st) {
        let a = st + open.len();
        element_from(s, close, a, text::index_of_char(s, a, '>'))
    } else {
        None
    }
}

/// The first match that starts at or after `from`.
pub open spec fn next_element(s: Seq<char>, open: Seq<char>, close: Seq<char>, from: int) -> Option<
    (Seq<char>, Seq<char>, int),
>
    decreases s.len() + 1 - from,
{
    if from < 0 || from > s.len() {
        None
    } else {
        match element_at(s, open, close, from) {
            Some(m) => Some(m),
            None => next_element(s, open, close, from + 1),
        }
    }
}

/// Message and character data of each match, one after the other from `from`,
/// each search starting where the match before it ended.
pub open spec fn elements(s: Seq<char>, open: Seq<char>, close: Seq<char>, from: int) -> Seq<
    (Seq<char>, Seq<char>),
>
    decreases s.len() + 1 - from,
{
    match next_element(s, open, close, from) {
        Some((msg, data, end)) => if from < end <= s.len() {
            seq![(msg, data)] + elements(s, open, close, end)
        } else {
            seq![]
        },
        None => seq![],
    }
}

pub open spec fn assertion_label() -> Seq<char> {
    seq!['A', 's', 's', 'e', 'r', 't', 'i', 'o', 'n', ':', ' ']
}

pub open spec fn error_label() -> Seq<char> {
    seq!['E', 'r', 'r', 'o', 'r', ':', ' ']
}

/// One reported element: the label, the message, a line feed and the stack trace
/// without its framework lines.
pub open spec fn report(label: Seq<char>, m: (Seq<char>, Seq<char>)) -> Seq<char> {
    label + m.0 + seq!['\n'] + stack_trace::filtered_trace(m.1)
}

pub open spec fn reports(label: Seq<char>, ms: Seq<(Seq<char>, Seq<char>)>) -> Seq<Seq<char>>
    decreases ms.len(),
{
    if ms.len() == 0 {
        seq![]
    } else {
        seq![report(label, ms[0])] + reports(label, ms.drop_first())
    }
}

/// The failures of a Surefire XML report, then its errors, each as a report; none
/// where there is neither.
pub open spec fn xml_failure_reports(s: Seq<char>) -> Seq<Seq<char>> {
    reports(assertion_label(), elements(s, failure_open(), failure_close(), 0)) + reports(
        error_label(),
        elements(s, error_open(), error_close(), 0),
    )
}

/// The reports joined by empty lines, or none where there is none.
pub open spec fn xml_failures(s: Seq<char>) -> Option<Seq<char>> {
    let all = xml_failure_reports(s);
    if all.len() == 0 {
        None
    } else {
        Some(stack_trace::join(all, seq!['\n', '\n']))
    }
}

struct Patterns {
    open: Vec<char>,
    close: Vec<char>,
    message: Vec<char>,
    cdata: Vec<char>,
}

impl Patterns {
    spec fn wf(&self) -> bool {
        &&& self.message@ == message_attr()
        &&& self.cdata@ == cdata_open()
        &&& self.close@.len() > 0
    }
}

fn element_rest_exec(s: &Vec<char>, pats: &Patterns, j: usize) -> (r: Option<
    (usize, usize, usize, usize, usize),
>)
    requires
        pats.wf(),
        text::occurs_at(s@, message_attr(), j as int),
    ensures
        match r {
            Some((m0, m1, c0, k, end)) => {
                &&& m0 <= m1 <= c0 <= k < end <= s@.len()
                &&& j < end
                &&& element_rest(s@, pats.close@, j as int) == Some(
                    (s@.subrange(m0 as int, m1 as int), s@.subrange(c0 as int, k as int), end as int),
                )
            },
            None => element_rest(s@, pats.close@, j as int) is None,
        },
{
    let len = s.len();
    let m0 = j + 9;
    let m1 = scan_run(s, m0, CharClass::Except('"'));
    if m1 >= len {
        return None;
    }
    let g = scan_run(s, m1 + 1, CharClass::Except('>'));
    if !matches_at(s, &pats.cdata, g) {
        return None;
    }
    let c0 = g + 10;
    match search_from(s, &pats.close, c0) {
        Some(k) => {
            let end = k + pats.close.len();
            Some((m0, m1, c0, k, end))
        },
        None => None,
    }
}

fn element_at_exec(s: &Vec<char>, pats: &Patterns, st: usize) -> (r: Option<
    (usize, usize, usize, usize, usize),
>)
    requires
        pats.wf(),
        st <= s@.len() <= usize::MAX,
    ensures
        match r {
            Some((m0, m1, c0, k, end)) => {
                &&& m0 <= m1 <= c0 <= k < end <= s@.len()
                &&& st < end
                &&& element_at(s@, pats.open@, pats.close@, st as int) == Some(
                    (s@.subrange(m0 as int, m1 as int), s@.subrange(c0 as int, k as int), end as int),
                )
            },
            None => element_at(s@, pats.open@, pats.close@, st as int) is None,
        },
{
    if !matches_at(s, &pats.open, st) {
        return None;
    }
    let a = st + pats.open.len();
    let g = scan_run(s, a, CharClass::Except('>'));
    let mut j = g;
    loop
        invariant
            pats.wf(),
            st <= a <= j <= s@.len(),
            element_at(s@, pats.open@, pats.close@, st as int) == element_from(
                s@,
                pats.close@,
                a as int,
                j as int,
            ),
        decreases j - a,
    {
        if matches_at(s, &pats.message, j) {
            match element_rest_exec(s, pats, j) {
                Some(m) => {
                    return Some(m);
                },
                None => {},
            }
        }
        if j == a {
            assert(element_from(s@, pats.close@, a as int, a - 1) is None);
            return None;
        }
        j = j - 1;
    }
}

fn next_element_exec(s: &Vec<char>, pats: &Patterns, from: usize) -> (r: Option<
    (usize, usize, usize, usize, usize),
>)
    requires
        pats.wf(),
        from <= s@.len(),
    ensures
        match r {
            Some((m0, m1, c0, k, end)) => {
                &&& m0 <= m1 <= c0 <= k < end <= s@.len()
                &&& from < end
                &&& next_element(s@, pats.open@, pats.close@, from as int) == Some(
                    (s@.subrange(m0 as int, m1 as int), s@.subrange(c0 as int, k as int), end as int),
                )
            },
            None => next_element(s@, pats.open@, pats.close@, from as int) is None,
        },
{
    let len = s.len();
    let mut st = from;
    loop
        invariant
            pats.wf(),
            len == s@.len(),
            from <= st <= len,
            next_element(s@, pats.open@, pats.close@, from as int) == next_element(
                s@,
                pats.open@,
                pats.close@,
                st as int,
            ),
        decreases len - st,
    {
        match element_at_exec(s, pats, st) {
            Some(m) => {
                return Some(m);
            },
            None => {},
        }
        if st == len {
            assert(next_element(s@, pats.open@, pats.close@, len + 1) is None);
            return None;
        }
        st = st + 1;
    }
}

/// The report of each match in `s`, in order.
fn collect_reports(s: &Vec<char>, pats: &Patterns, label: &Vec<char>) -> (out: Vec<Vec<char>>)
    requires
        pats.wf(),
    ensures
        out@.len() == reports(label@, elements(s@, pats.open@, pats.close@, 0)).len(),
        forall|i: int|
            0 <= i < out@.len() ==> (#[trigger] out@[i])@ == reports(
                label@,
                elements(s@, pats.open@, pats.close@, 0),
            )[i],
{
    let len = s.len();
    let mut out: Vec<Vec<char>> = Vec::new();
    let mut from: usize = 0;
    let ghost mut view: Seq<Seq<char>> = seq![];
    loop
        invariant
            pats.wf(),
            len == s@.len(),
            from <= len,
            out@.len() == view.len(),
            forall|i: int| 0 <= i < out@.len() ==> (#[trigger] out@[i])@ == view[i],
            reports(label@, elements(s@, pats.open@, pats.close@, 0)) == view + reports(
                label@,
                elements(s@, pats.open@, pats.close@, from as int),
            ),
        decreases len - from,
    {
        match next_element_exec(s, pats, from) {
            Some((m0, m1, c0, k, end)) => {
                let ghost msg = s@.subrange(m0 as int, m1 as int);
                let ghost data = s@.subrange(c0 as int, k as int);
                let ghost rest = elements(s@, pats.open@, pats.close@, end as int);
                assert(elements(s@, pats.open@, pats.close@, from as int) == seq![(msg, data)] + rest);
                assert((seq![(msg, data)] + rest).drop_first() =~= rest);
                let mut entry: Vec<char> = Vec::new();
                append_range(&mut entry, label, 0, label.len());
                append_range(&mut entry, s, m0, m1);
                entry.push('\n');
                let filtered = filter_lines(s, c0, k);
                append_range(&mut entry, &filtered, 0, filtered.len());
                assert(label@.subrange(0, label@.len() as int) =~= label@);
                assert(filtered@.subrange(0, filtered@.len() as int) =~= filtered@);
                assert(entry@ =~= report(label@, (msg, data)));
                out.push(entry);
                assert(reports(label@, seq![(msg, data)] + rest) =~= seq![report(label@, (msg, data))]
                    + reports(label@, rest));
                assert(view + (seq![report(label@, (msg, data))] + reports(label@, rest)) =~= view.push(
                    report(label@, (msg, data)),
                ) + reports(label@, rest));
                proof {
                    view = view.push(report(label@, (msg, data)));
                }
                from = end;
            },
            None => {
                assert(reports(label@, elements(s@, pats.open@, pats.close@, from as int)) =~= seq![]);
                assert(view + Seq::<Seq<char>>::empty() =~= view);
                return out;
            },
        }
    }
}


fn patterns(open: Vec<char>, close: Vec<char>) -> (p: Patterns)
    requires
        close@.len() > 0,
    ensures
        p.wf(),
        p.open@ == open@,
        p.close@ == close@,
{
    let message = vec!['m', 'e', 's', 's', 'a', 'g', 'e', '=', '"'];
    let cdata = vec!['>', '<', '!', '[', 'C', 'D', 'A', 'T', 'A', '['];
    assert(message@ =~= message_attr());
    assert(cdata@ =~= cdata_open());
    Patterns { open, close, message, cdata }
}

/// Collects the failures and errors of a Surefire XML report: for each
/// `<failure message="..." ...><![CDATA[...]]></failure>`, `Assertion: `, the message, a
/// line feed and the stack trace without its framework lines; then the same for each
/// `<error ...>` with `Error: `. The reports are joined by empty lines; none where
/// there is no report.
pub fn extract_xml_failures(content: &str) -> (r: Option<String>)
    ensures
        maven_line::chars_opt(r) == xml_failures(content@),
{
    let s = chars_of(content);
    let failure_pats = patterns(
        vec!['<', 'f', 'a', 'i', 'l', 'u', 'r', 'e'],
        vec![']', ']', '>', '<', '/', 'f', 'a', 'i', 'l', 'u', 'r', 'e', '>'],
    );
    let error_pats = patterns(
        vec!['<', 'e', 'r', 'r', 'o', 'r'],
        vec![']', ']', '>', '<', '/', 'e', 'r', 'r', 'o', 'r', '>'],
    );
    assert(failure_pats.open@ =~= failure_open());
    assert(failure_pats.close@ =~= failure_close());
    assert(error_pats.open@ =~= error_open());
    assert(error_pats.close@ =~= error_close());
    let assertion = vec!['A', 's', 's', 'e', 'r', 't', 'i', 'o', 'n', ':', ' '];
    let error = vec!['E', 'r', 'r', 'o', 'r', ':', ' '];
    assert(assertion@ =~= assertion_label());
    assert(error@ =~= error_label());
    let failures = collect_reports(&s, &failure_pats, &assertion);
    let errors = collect_reports(&s, &error_pats, &error);
    let ghost all = xml_failure_reports(s@);
    let nf = failures.len();
    let ne = errors.len();
    if nf == 0 && ne == 0 {
        return None;
    }
    let mut out: Vec<char> = Vec::new();
    let mut i: usize = 0;
    while i < nf
        invariant
            all == xml_failure_reports(s@),
            all.len() == nf + ne,
            nf == failures@.len(),
            forall|k: int| 0 <= k < nf ==> (#[trigger] failures@[k])@ == all[k],
            i <= nf,
            out@ == stack_trace::join(all.take(i as int), seq!['\n', '\n']),
        decreases nf - i,
    {
        proof {
            stack_trace::lemma_join_push(all.take(i as int), all[i as int], seq!['\n', '\n']);
            assert(all.take(i as int).push(all[i as int]) =~= all.take(i + 1));
        }
        if i > 0 {
            out.push('\n');
            out.push('\n');
        }
        let part = &failures[i];
        append_range(&mut out, part, 0, part.len());
        assert(part@.subrange(0, part@.len() as int) =~= part@);
        i = i + 1;
    }
    let mut j: usize = 0;
    while j < ne
        invariant
            all == xml_failure_reports(s@),
            all.len() == nf + ne,
            ne == errors@.len(),
            forall|k: int| 0 <= k < ne ==> (#[trigger] errors@[k])@ == all[nf + k],
            j <= ne,
            out@ == stack_trace::join(all.take(nf + j), seq!['\n', '\n']),
        decreases ne - j,
    {
        proof {
            stack_trace::lemma_join_push(all.take(nf + j), all[nf + j], seq!['\n', '\n']);
            assert(all.take(nf + j).push(all[nf + j]) =~= all.take(nf + j + 1));
        }
        if nf > 0 || j > 0 {
            out.push('\n');
            out.push('\n');
        }
        let part = &errors[j];
        append_range(&mut out, part, 0, part.len());
        assert(part@.subrange(0, part@.len() as int) =~= part@);
        j = j + 1;
    }
    assert(all.take((nf + ne) as int) =~= all);
    Some(string_of(&out))
}


proof fn lemma_reports_long(label: Seq<char>, ms: Seq<(Seq<char>, Seq<char>)>)
    ensures
        reports(label, ms).len() == ms.len(),
        forall|i: int| 0 <= i < ms.len() ==> (#[trigger] reports(label, ms)[i]).len() >= label.len(),
    decreases ms.len(),
{
    if ms.len() > 0 {
        lemma_reports_long(label, ms.drop_first());
        assert forall|i: int| 0 <= i < ms.len() implies (#[trigger] reports(label, ms)[i]).len() >= label.len() by {
            if i > 0 {
                assert(reports(label, ms)[i] == reports(label, ms.drop_first())[i - 1]);
            }
        }
    }
}

proof fn lemma_join_ends_with_last(ls: Seq<Seq<char>>, sep: Seq<char>)
    requires
        ls.len() > 0,
    ensures
        stack_trace::join(ls, sep).len() >= ls.last().len(),
{
}

/// The failures of a report, where there are any, are never shown as an empty text.
pub proof fn lemma_xml_failures_not_empty(s: Seq<char>)
    ensures
        xml_failures(s) matches Some(x) ==> x.len() > 0,
{
    let f = elements(s, failure_open(), failure_close(), 0);
    let e = elements(s, error_open(), error_close(), 0);
    lemma_reports_long(assertion_label(), f);
    lemma_reports_long(error_label(), e);
    let all = xml_failure_reports(s);
    if all.len() > 0 {
        lemma_join_ends_with_last(all, seq!['\n', '\n']);
        if e.len() > 0 {
            assert(all.last() == reports(error_label(), e)[e.len() - 1]);
        } else {
            assert(all.last() == reports(assertion_label(), f)[f.len() - 1]);
        }
    }
}


/// A `<failure>` element as Surefire writes it: its message, then its stack trace as
/// character data.
#[verifier::opaque]
pub open spec fn failure_element(msg: Seq<char>, trace: Seq<char>) -> Seq<char> {
    failure_open() + seq![' '] + message_attr() + msg + seq!['"'] + cdata_open() + trace
        + failure_close()
}

proof fn lemma_candidates_skip(s: Seq<char>, close: Seq<char>, a: int, lo: int, hi: int)
    requires
        a <= lo <= hi,
        forall|j: int| lo < j <= hi ==> !text::occurs_at(s, message_attr(), j),
    ensures
        element_from(s, close, a, hi) == element_from(s, close, a, lo),
    decreases hi - lo,
{
    if lo < hi {
        lemma_candidates_skip(s, close, a, lo, hi - 1);
    }
}

#[verifier::rlimit(40)]
#[verifier::spinoff_prover]
proof fn lemma_failure_layout(msg: Seq<char>, trace: Seq<char>, t: Seq<char>)
    ensures
        ({
            let s = failure_element(msg, trace) + t;
            let q: int = 18 + msg.len() as int;
            let c0: int = q + 11;
            let k: int = c0 + trace.len();
            &&& failure_element(msg, trace).len() == k + 13
            &&& s.len() == k + 13 + t.len()
            &&& text::occurs_at(s, failure_open(), 0)
            &&& s[8] == ' '
            &&& s.subrange(9, 18) == message_attr()
            &&& forall|i: int| 9 <= i < 18 ==> s[i] == message_attr()[i - 9]
            &&& forall|i: int| 18 <= i < q ==> s[i] == msg[i - 18]
            &&& s.subrange(18, q) == msg
            &&& s[q] == '"'
            &&& text::occurs_at(s, cdata_open(), q + 1)
            &&& forall|i: int| q + 1 <= i < c0 ==> s[i] == cdata_open()[i - q - 1]
            &&& s.subrange(c0, k) == trace
            &&& s.subrange(k, k + 13) == failure_close()
            &&& s[k] == ']'
            &&& s[k + 1] == ']'
        }),
{
    reveal(failure_element);
    let e = failure_element(msg, trace);
    let s = e + t;
    let m = msg.len() as int;
    let q = 18 + m;
    let c0 = q + 11;
    let k = c0 + trace.len();
    assert(e.len() == k + 13);
    assert(s.subrange(0, 8) =~= failure_open());
    assert(s.subrange(9, 18) =~= message_attr());
    assert(s.subrange(18, q) =~= msg);
    assert(s.subrange(q + 1, c0) =~= cdata_open());
    assert(s.subrange(c0, k) =~= trace);
    assert(s.subrange(k, k + 13) =~= failure_close());
    assert forall|i: int| 9 <= i < 18 implies s[i] == message_attr()[i - 9] by {
        assert(s[i] == s.subrange(9, 18)[i - 9]);
    }
    assert forall|i: int| 18 <= i < q implies s[i] == msg[i - 18] by {
        assert(s[i] == s.subrange(18, q)[i - 18]);
    }
    assert forall|i: int| q + 1 <= i < c0 implies s[i] == cdata_open()[i - q - 1] by {
        assert(s[i] == s.subrange(q + 1, c0)[i - q - 1]);
    }
    assert(s[k] == s.subrange(k, k + 13)[0]);
    assert(s[k + 1] == s.subrange(k, k + 13)[1]);
}

#[verifier::rlimit(40)]
#[verifier::spinoff_prover]
proof fn lemma_not_candidate(msg: Seq<char>, trace: Seq<char>, t: Seq<char>, j: int)
    requires
        forall|k: int| 0 <= k < msg.len() ==> msg[k] != '"',
        !(msg.len() >= 8 && msg.subrange(msg.len() - 8, msg.len() as int) == message_attr().take(8)),
        9 < j <= 19 + msg.len(),
    ensures
        !text::occurs_at(failure_element(msg, trace) + t, message_attr(), j),
{
    lemma_failure_layout(msg, trace, t);
    let s = failure_element(msg, trace) + t;
    let m = msg.len() as int;
    let q = 18 + m;
    if text::occurs_at(s, message_attr(), j) {
        assert(s.subrange(j, j + 9)[8] == '"');
        assert(s[j + 8] == '"');
        if j + 8 < q {
            assert(msg[j + 8 - 18] == '"');
        } else if j + 8 > q {
            assert(s[j + 8] == cdata_open()[j + 8 - q - 1]);
        } else if m >= 8 {
            assert forall|i: int| 0 <= i < 8 implies msg.subrange(m - 8, m)[i] == message_attr().take(8)[i] by {
                assert(s.subrange(j, j + 9)[i] == s[j + i]);
                assert(s[j + i] == msg[m - 8 + i]);
            }
            assert(msg.subrange(m - 8, m) =~= message_attr().take(8));
        } else {
            assert(s.subrange(j, j + 9)[7 - m] == s[17]);
            assert(s[17] == message_attr()[8]);
        }
    }
}

#[verifier::spinoff_prover]
proof fn lemma_no_later_candidate(msg: Seq<char>, trace: Seq<char>, t: Seq<char>)
    requires
        forall|k: int| 0 <= k < msg.len() ==> msg[k] != '"',
        !(msg.len() >= 8 && msg.subrange(msg.len() - 8, msg.len() as int) == message_attr().take(8)),
    ensures
        9 <= text::index_of_char(failure_element(msg, trace) + t, 8, '>') <= 19 + msg.len(),
        forall|j: int|
            9 < j <= text::index_of_char(failure_element(msg, trace) + t, 8, '>') ==> !text::occurs_at(
                failure_element(msg, trace) + t,
                message_attr(),
                j,
            ),
{
    lemma_failure_layout(msg, trace, t);
    let s = failure_element(msg, trace) + t;
    let q = 18 + msg.len() as int;
    assert(s[q + 1] == cdata_open()[0]);
    text::lemma_run_end_bound(s, 9, q + 1, text::CharClass::Except('>'));
    assert(text::run_end(s, 8, text::CharClass::Except('>')) == text::run_end(s, 9, text::CharClass::Except('>')));
    let g0 = text::index_of_char(s, 8, '>');
    assert forall|j: int| 9 < j <= g0 implies !text::occurs_at(s, message_attr(), j) by {
        lemma_not_candidate(msg, trace, t, j);
    }
}

#[verifier::rlimit(40)]
#[verifier::spinoff_prover]
proof fn lemma_first_close(msg: Seq<char>, trace: Seq<char>, t: Seq<char>)
    requires
        !text::contains(trace, failure_close()),
    ensures
        text::find_from(failure_element(msg, trace) + t, failure_close(), 29 + msg.len() as int) == Some(
            29 + msg.len() as int + trace.len(),
        ),
{
    lemma_failure_layout(msg, trace, t);
    let s = failure_element(msg, trace) + t;
    let close = failure_close();
    let c0: int = 29 + msg.len() as int;
    let k: int = c0 + trace.len();
    assert forall|p: int| c0 <= p < k implies !text::occurs_at(s, close, p) by {
        if text::occurs_at(s, close, p) {
            if p + 13 <= k {
                assert(s.subrange(p, p + 13) =~= trace.subrange(p - c0, p - c0 + 13));
                assert(text::occurs_at(trace, close, p - c0));
            } else {
                let d = k - p;
                assert(s.subrange(p, p + 13)[d] == s[k]);
                assert(s.subrange(p, p + 13)[d + 1] == s[k + 1]);
            }
        }
    }
    assert(text::occurs_at(s, close, k));
    text::lemma_find_from(s, close, c0, k);
}

/// The message and trace conditions under which a failure element reads back.
pub open spec fn readable_failure(msg: Seq<char>, trace: Seq<char>) -> bool {
    &&& forall|k: int| 0 <= k < msg.len() ==> msg[k] != '"'
    &&& !(msg.len() >= 8 && msg.subrange(msg.len() - 8, msg.len() as int) == message_attr().take(8))
    &&& !text::contains(trace, failure_close())
}

/// The first match in a failure element followed by any text is that element.
#[verifier::rlimit(50)]
#[verifier::spinoff_prover]
proof fn lemma_failure_element_first(msg: Seq<char>, trace: Seq<char>, t: Seq<char>)
    requires
        readable_failure(msg, trace),
    ensures
        next_element(failure_element(msg, trace) + t, failure_open(), failure_close(), 0) == Some(
            (msg, trace, failure_element(msg, trace).len() as int),
        ),
{
    let s = failure_element(msg, trace) + t;
    let q: int = 18 + msg.len() as int;
    let k: int = q + 11 + trace.len();
    let close = failure_close();
    lemma_failure_layout(msg, trace, t);
    lemma_no_later_candidate(msg, trace, t);
    lemma_first_close(msg, trace, t);
    let g0 = text::index_of_char(s, 8, '>');
    lemma_candidates_skip(s, close, 8, 9, g0);
    text::lemma_run_end(s, 18, q, text::CharClass::Except('"'));
    text::lemma_run_end(s, q + 1, q + 1, text::CharClass::Except('>'));
    assert(text::occurs_at(s, message_attr(), 9));
    assert(element_rest(s, close, 9) == Some((msg, trace, k + 13)));
    assert(element_from(s, close, 8, 9) == Some((msg, trace, k + 13)));
    assert(element_at(s, failure_open(), close, 0) == Some((msg, trace, k + 13)));
}

/// A failure element gives back its message and its stack trace, where the message
/// holds no quote and does not end with `message=`, and the trace does not hold the
/// element's closing `]]></failure>`.
pub proof fn lemma_failure_element_round_trip(msg: Seq<char>, trace: Seq<char>)
    requires
        forall|k: int| 0 <= k < msg.len() ==> msg[k] != '"',
        !(msg.len() >= 8 && msg.subrange(msg.len() - 8, msg.len() as int) == message_attr().take(8)),
        !text::contains(trace, failure_close()),
    ensures
        elements(failure_element(msg, trace), failure_open(), failure_close(), 0) == seq![(msg, trace)],
{
    let e = failure_element(msg, trace);
    let close = failure_close();
    assert(e + Seq::<char>::empty() =~= e);
    lemma_failure_element_first(msg, trace, Seq::<char>::empty());
    assert(next_element(e, failure_open(), close, e.len() as int + 1) is None);
    assert(next_element(e, failure_open(), close, e.len() as int) is None);
    assert(elements(e, failure_open(), close, e.len() as int) =~= seq![]);
    assert(seq![(msg, trace)] + Seq::<(Seq<char>, Seq<char>)>::empty() =~= seq![(msg, trace)]);
}


proof fn lemma_reports_index(label: Seq<char>, ms: Seq<(Seq<char>, Seq<char>)>)
    ensures
        reports(label, ms).len() == ms.len(),
        forall|i: int| 0 <= i < ms.len() ==> #[trigger] reports(label, ms)[i] == report(label, ms[i]),
    decreases ms.len(),
{
    if ms.len() > 0 {
        lemma_reports_index(label, ms.drop_first());
        assert forall|i: int| 0 <= i < ms.len() implies #[trigger] reports(label, ms)[i] == report(label, ms[i]) by {
            if i > 0 {
                assert(reports(label, ms)[i] == reports(label, ms.drop_first())[i - 1]);
                assert(ms.drop_first()[i - 1] == ms[i]);
            }
        }
    }
}

/// Every `<failure>` element of a report, and then every `<error>` element, gives one
/// report of its own, in the order in which they stand: `Assertion: ` or `Error: `, the
/// message, a line feed, and the element's stack trace without framework lines.
pub proof fn lemma_every_element_reported(s: Seq<char>)
    ensures
        xml_failure_reports(s).len() == elements(s, failure_open(), failure_close(), 0).len()
            + elements(s, error_open(), error_close(), 0).len(),
        forall|i: int|
            0 <= i < elements(s, failure_open(), failure_close(), 0).len() ==> #[trigger] xml_failure_reports(s)[i]
                == "Assertion: "@ + elements(s, failure_open(), failure_close(), 0)[i].0 + "\n"@
                + stack_trace::filtered_trace(elements(s, failure_open(), failure_close(), 0)[i].1),
        forall|j: int|
            0 <= j < elements(s, error_open(), error_close(), 0).len() ==> xml_failure_reports(s)[elements(
                s,
                failure_open(),
                failure_close(),
                0,
            ).len() + j] == "Error: "@ + elements(s, error_open(), error_close(), 0)[j].0 + "\n"@
                + stack_trace::filtered_trace(#[trigger] elements(s, error_open(), error_close(), 0)[j].1),
{
    reveal_strlit("Assertion: ");
    reveal_strlit("Error: ");
    reveal_strlit("\n");
    assert("Assertion: "@ =~= assertion_label());
    assert("Error: "@ =~= error_label());
    assert("\n"@ =~= seq!['\n']);
    let f = elements(s, failure_open(), failure_close(), 0);
    let e = elements(s, error_open(), error_close(), 0);
    lemma_reports_index(assertion_label(), f);
    lemma_reports_index(error_label(), e);
    let all = xml_failure_reports(s);
    assert forall|j: int| 0 <= j < e.len() implies all[f.len() + j] == reports(error_label(), e)[j] by {}
}

/// The failures of a report are its reports joined by empty lines (`\n\n`
/// between two of them); none where it has no `<failure>` or `<error>` element.
pub proof fn lemma_reports_joined(s: Seq<char>)
    ensures
        xml_failures(s) == if elements(s, failure_open(), failure_close(), 0).len() + elements(
            s,
            error_open(),
            error_close(),
            0,
        ).len() == 0 {
            None
        } else {
            Some(stack_trace::join(xml_failure_reports(s), "\n\n"@))
        },
{
    reveal_strlit("\n\n");
    assert("\n\n"@ =~= seq!['\n', '\n']);
    lemma_every_element_reported(s);
}

/// A match found after a prefix, with its end moved by `d`.
pub open spec fn moved(r: Option<(Seq<char>, Seq<char>, int)>, d: int) -> Option<(Seq<char>, Seq<char>, int)> {
    match r {
        Some((a, b, e)) => Some((a, b, e + d)),
        None => None,
    }
}

proof fn lemma_element_rest_shift(p: Seq<char>, t: Seq<char>, close: Seq<char>, j: int)
    requires
        0 <= j,
    ensures
        element_rest(p + t, close, p.len() + j) == moved(element_rest(t, close, j), p.len() as int),
{
    let n = p.len() as int;
    let s = p + t;
    let m0 = j + 9;
    text::lemma_run_end_shift(p, t, m0, text::CharClass::Except('"'));
    let m1 = text::index_of_char(t, m0, '"');
    text::lemma_run_end_shift(p, t, m1 + 1, text::CharClass::Except('>'));
    let g = text::index_of_char(t, m1 + 1, '>');
    text::lemma_occurs_at_shift(p, t, cdata_open(), g);
    text::lemma_find_from_shift(p, t, close, g + 10);
    assert(text::index_of_char(s, n + m0, '"') == n + m1);
    assert(text::index_of_char(s, n + m1 + 1, '>') == n + g);
    if m1 < t.len() && text::occurs_at(t, cdata_open(), g) {
        match text::find_from(t, close, g + 10) {
            Some(k) => {
                assert(s.subrange(n + m0, n + m1) =~= t.subrange(m0, m1));
                assert(s.subrange(n + g + 10, n + k) =~= t.subrange(g + 10, k));
            },
            None => {},
        }
    }
}

proof fn lemma_element_from_shift(p: Seq<char>, t: Seq<char>, close: Seq<char>, a: int, j: int)
    requires
        0 <= a,
    ensures
        element_from(p + t, close, p.len() + a, p.len() + j) == moved(element_from(t, close, a, j), p.len() as int),
    decreases j + 1 - a,
{
    if j >= a {
        text::lemma_occurs_at_shift(p, t, message_attr(), j);
        lemma_element_rest_shift(p, t, close, j);
        lemma_element_from_shift(p, t, close, a, j - 1);
    }
}

proof fn lemma_next_element_shift(p: Seq<char>, t: Seq<char>, open: Seq<char>, close: Seq<char>, from: int)
    requires
        0 <= from,
    ensures
        next_element(p + t, open, close, p.len() + from) == moved(next_element(t, open, close, from), p.len() as int),
    decreases t.len() + 1 - from,
{
    if from <= t.len() {
        text::lemma_occurs_at_shift(p, t, open, from);
        let a = from + open.len();
        text::lemma_run_end_shift(p, t, a, text::CharClass::Except('>'));
        lemma_element_from_shift(p, t, close, a, text::index_of_char(t, a, '>'));
        lemma_next_element_shift(p, t, open, close, from + 1);
    }
}

/// The matches after a prefix are the matches of the rest.
proof fn lemma_elements_shift(p: Seq<char>, t: Seq<char>, open: Seq<char>, close: Seq<char>, from: int)
    requires
        0 <= from,
    ensures
        elements(p + t, open, close, p.len() + from) == elements(t, open, close, from),
    decreases t.len() + 1 - from,
{
    lemma_next_element_shift(p, t, open, close, from);
    match next_element(t, open, close, from) {
        Some((msg, data, end)) => {
            if from < end <= t.len() {
                lemma_elements_shift(p, t, open, close, end);
            }
        },
        None => {},
    }
}

/// Failure elements one after the other.
pub open spec fn failure_elements(ms: Seq<(Seq<char>, Seq<char>)>) -> Seq<char>
    decreases ms.len(),
{
    if ms.len() == 0 {
        seq![]
    } else {
        failure_element(ms[0].0, ms[0].1) + failure_elements(ms.drop_first())
    }
}

/// A report made of failure elements, one after the other, gives back each of them, in
/// order, where each message holds no quote and does not end with `message=` and each
/// trace does not hold `]]></failure>`; so each is reported.
pub proof fn lemma_failure_elements_round_trip(ms: Seq<(Seq<char>, Seq<char>)>)
    requires
        forall|i: int| 0 <= i < ms.len() ==> readable_failure(#[trigger] ms[i].0, ms[i].1),
    ensures
        elements(failure_elements(ms), failure_open(), failure_close(), 0) == ms,
        xml_failure_reports(failure_elements(ms)).len() >= ms.len(),
        forall|i: int|
            0 <= i < ms.len() ==> #[trigger] xml_failure_reports(failure_elements(ms))[i] == "Assertion: "@
                + ms[i].0 + "\n"@ + stack_trace::filtered_trace(ms[i].1),
    decreases ms.len(),
{
    let s = failure_elements(ms);
    if ms.len() == 0 {
        assert(next_element(s, failure_open(), failure_close(), 1) is None);
        assert(next_element(s, failure_open(), failure_close(), 0) is None) by {
            assert(!text::occurs_at(s, failure_open(), 0));
        }
    } else {
        let e = failure_element(ms[0].0, ms[0].1);
        let rest = failure_elements(ms.drop_first());
        assert(readable_failure(ms[0].0, ms[0].1));
        assert forall|i: int| 0 <= i < ms.drop_first().len() implies readable_failure(
            #[trigger] ms.drop_first()[i].0,
            ms.drop_first()[i].1,
        ) by {
            assert(ms.drop_first()[i] == ms[i + 1]);
        }
        lemma_failure_elements_round_trip(ms.drop_first());
        lemma_failure_element_first(ms[0].0, ms[0].1, rest);
        lemma_failure_layout(ms[0].0, ms[0].1, rest);
        lemma_elements_shift(e, rest, failure_open(), failure_close(), 0);
        assert(e.len() + 0 == e.len());
        assert(elements(s, failure_open(), failure_close(), 0) == seq![(ms[0].0, ms[0].1)] + elements(
            rest,
            failure_open(),
            failure_close(),
            0,
        ));
        assert(seq![(ms[0].0, ms[0].1)] + ms.drop_first() =~= ms);
    }
    lemma_every_element_reported(s);
}

} // verus!
