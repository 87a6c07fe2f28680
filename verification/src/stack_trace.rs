use vstd::prelude::*;

use crate::text;
use crate::text::{append_range, chars_of, matches_at, string_of, trim_bounds};

verus! {

/// The pieces of `s` that line feeds end, and the piece after the last line feed.
pub open spec fn split_lf(s: Seq<char>) -> (Seq<Seq<char>>, Seq<char>)
    decreases s.len(),
{
    if s.len() == 0 {
        (seq![], seq![])
    } else {
        let (ended, rest) = split_lf(s.drop_last());
        if s.last() == '\n' {
            (ended.push(rest), seq![])
        } else {
            (ended, rest.push(s.last()))
        }
    }
}

/// A line ended by a line feed, without the carriage return before it.
pub open spec fn strip_cr(l: Seq<char>) -> Seq<char> {
    if l.len() > 0 && l.last() == '\r' {
        l.drop_last()
    } else {
        l
    }
}

pub open spec fn strip_cr_all(ls: Seq<Seq<char>>) -> Seq<Seq<char>>
    decreases ls.len(),
{
    if ls.len() == 0 {
        seq![]
    } else {
        strip_cr_all(ls.drop_last()).push(strip_cr(ls.last()))
    }
}

/// The lines of `s`, as `str::lines` gives them: the pieces between line feeds, each
/// piece that a line feed ends without a carriage return before it, and the last
/// piece only where it is not empty.
pub open spec fn lines(s: Seq<char>) -> Seq<Seq<char>> {
    let (ended, rest) = split_lf(s);
    if rest.len() == 0 {
        strip_cr_all(ended)
    } else {
        strip_cr_all(ended).push(rest)
    }
}

/// The elements of `ls` joined, with `sep` between each two of them.
pub open spec fn join(ls: Seq<Seq<char>>, sep: Seq<char>) -> Seq<char>
    decreases ls.len(),
{
    if ls.len() == 0 {
        seq![]
    } else if ls.len() == 1 {
        ls[0]
    } else {
        join(ls.drop_last(), sep) + sep + ls.last()
    }
}

/// The package prefixes of the frames that a stack trace is shown without.
pub open spec fn framework_prefixes() -> Seq<Seq<char>> {
    seq![
        seq!['a', 't', ' ', 'i', 'o'],
        seq!['a', 't', ' ', 'j', 'a', 'v', 'a'],
        seq!['a', 't', ' ', 'k', 'o', 't', 'l', 'i', 'n'],
        seq!['a', 't', ' ', 'o', 'r', 'g'],
        seq!['a', 't', ' ', 'f', 'e', 'i', 'g', 'n'],
        seq!['a', 't', ' ', 'j', 'd', 'k'],
        seq!['a', 't', ' ', 'c', 'o', 'm'],
    ]
}

/// A line that, without its surrounding white space, starts with one of the
/// framework prefixes.
pub open spec fn is_framework_line(l: Seq<char>) -> bool {
    exists|i: int|
        0 <= i < framework_prefixes().len() && text::starts_with(
            text::trim(l),
            #[trigger] framework_prefixes()[i],
        )
}

/// The lines of `ls` that are not framework lines, in order.
pub open spec fn kept_lines(ls: Seq<Seq<char>>) -> Seq<Seq<char>>
    decreases ls.len(),
{
    if ls.len() == 0 {
        seq![]
    } else if is_framework_line(ls.last()) {
        kept_lines(ls.drop_last())
    } else {
        kept_lines(ls.drop_last()).push(ls.last())
    }
}

/// A stack trace without its framework lines: the lines that are kept, joined by
/// line feeds.
pub open spec fn filtered_trace(s: Seq<char>) -> Seq<char> {
    join(kept_lines(lines(s)), seq!['\n'])
}

fn framework_prefix_chars() -> (v: Vec<Vec<char>>)
    ensures
        v@.len() == framework_prefixes().len(),
        forall|i: int| 0 <= i < v@.len() ==> (#[trigger] v@[i])@ == framework_prefixes()[i],
{
    let v = vec![
        vec!['a', 't', ' ', 'i', 'o'],
        vec!['a', 't', ' ', 'j', 'a', 'v', 'a'],
        vec!['a', 't', ' ', 'k', 'o', 't', 'l', 'i', 'n'],
        vec!['a', 't', ' ', 'o', 'r', 'g'],
        vec!['a', 't', ' ', 'f', 'e', 'i', 'g', 'n'],
        vec!['a', 't', ' ', 'j', 'd', 'k'],
        vec!['a', 't', ' ', 'c', 'o', 'm'],
    ];
    assert(v@[0]@ =~= framework_prefixes()[0]);
    assert(v@[1]@ =~= framework_prefixes()[1]);
    assert(v@[2]@ =~= framework_prefixes()[2]);
    assert(v@[3]@ =~= framework_prefixes()[3]);
    assert(v@[4]@ =~= framework_prefixes()[4]);
    assert(v@[5]@ =~= framework_prefixes()[5]);
    assert(v@[6]@ =~= framework_prefixes()[6]);
    v
}

/// Whether `s[a..b]` is a framework line.
fn framework_line(s: &Vec<char>, a: usize, b: usize, prefixes: &Vec<Vec<char>>) -> (r: bool)
    requires
        a <= b <= s@.len(),
        prefixes@.len() == framework_prefixes().len(),
        forall|i: int| 0 <= i < prefixes@.len() ==> (#[trigger] prefixes@[i])@ == framework_prefixes()[i],
    ensures
        r == is_framework_line(s@.subrange(a as int, b as int)),
{
    let (ta, tb) = trim_bounds(s, a, b);
    let ghost t = s@.subrange(ta as int, tb as int);
    let mut i: usize = 0;
    while i < prefixes.len()
        invariant
            a <= ta <= tb <= b <= s@.len(),
            t == s@.subrange(ta as int, tb as int),
            t == text::trim(s@.subrange(a as int, b as int)),
            prefixes@.len() == framework_prefixes().len(),
            forall|k: int| 0 <= k < prefixes@.len() ==> (#[trigger] prefixes@[k])@ == framework_prefixes()[k],
            i <= prefixes@.len(),
            forall|k: int| 0 <= k < i ==> !text::starts_with(t, #[trigger] framework_prefixes()[k]),
        decreases prefixes@.len() - i,
    {
        let p = &prefixes[i];
        if p.len() <= tb - ta && matches_at(s, p, ta) {
            assert(t.subrange(0, p@.len() as int) =~= s@.subrange(ta as int, ta + p@.len()));
            assert(text::starts_with(t, framework_prefixes()[i as int]));
            return true;
        }
        assert(!text::starts_with(t, framework_prefixes()[i as int])) by {
            if p@.len() <= t.len() {
                assert(t.subrange(0, p@.len() as int) =~= s@.subrange(ta as int, ta + p@.len()));
            }
        }
        i = i + 1;
    }
    false
}

pub proof fn lemma_join_push(ls: Seq<Seq<char>>, x: Seq<char>, sep: Seq<char>)
    ensures
        join(ls.push(x), sep) == if ls.len() == 0 {
            x
        } else {
            join(ls, sep) + sep + x
        },
{
    assert(ls.push(x).drop_last() =~= ls);
}

/// `s[lo..hi]` without its framework lines.
pub fn filter_lines(s: &Vec<char>, lo: usize, hi: usize) -> (out: Vec<char>)
    requires
        lo <= hi <= s@.len(),
    ensures
        out@ == filtered_trace(s@.subrange(lo as int, hi as int)),
{
    let prefixes = framework_prefix_chars();
    let mut out: Vec<char> = Vec::new();
    let mut count: usize = 0;
    let mut cs = lo;
    let mut i = lo;
    while i < hi
        invariant
            lo <= cs <= i <= hi <= s@.len(),
            prefixes@.len() == framework_prefixes().len(),
            forall|k: int| 0 <= k < prefixes@.len() ==> (#[trigger] prefixes@[k])@ == framework_prefixes()[k],
            split_lf(s@.subrange(lo as int, i as int)).1 == s@.subrange(cs as int, i as int),
            out@ == join(kept_lines(strip_cr_all(split_lf(s@.subrange(lo as int, i as int)).0)), seq!['\n']),
            count == kept_lines(strip_cr_all(split_lf(s@.subrange(lo as int, i as int)).0)).len(),
            count <= i - lo,
        decreases hi - i,
    {
        let ghost prefix = s@.subrange(lo as int, i as int);
        let ghost next = s@.subrange(lo as int, i + 1);
        assert(next.drop_last() =~= prefix);
        assert(next.last() == s@[i as int]);
        let ghost ended = split_lf(prefix).0;
        if s[i] == '\n' {
            let le = if i > cs && s[i - 1] == '\r' {
                i - 1
            } else {
                i
            };
            let ghost piece = s@.subrange(cs as int, i as int);
            assert(strip_cr(piece) == s@.subrange(cs as int, le as int)) by {
                if i > cs && s@[i - 1] == '\r' {
                    assert(piece.drop_last() =~= s@.subrange(cs as int, le as int));
                }
            }
            assert(strip_cr_all(ended.push(piece)) == strip_cr_all(ended).push(strip_cr(piece))) by {
                assert(ended.push(piece).drop_last() =~= ended);
            }
            let ghost stripped = strip_cr_all(ended);
            assert(stripped.push(strip_cr(piece)).drop_last() =~= stripped);
            proof {
                lemma_join_push(kept_lines(stripped), strip_cr(piece), seq!['\n']);
            }
            if !framework_line(s, cs, le, &prefixes) {
                if count > 0 {
                    out.push('\n');
                }
                append_range(&mut out, s, cs, le);
                count = count + 1;
            }
            cs = i + 1;
            assert(s@.subrange(cs as int, i + 1) =~= Seq::<char>::empty());
        } else {
            assert(s@.subrange(cs as int, i + 1) =~= s@.subrange(cs as int, i as int).push(s@[i as int]));
        }
        i = i + 1;
    }
    let ghost whole = s@.subrange(lo as int, hi as int);
    let ghost stripped = strip_cr_all(split_lf(whole).0);
    if cs < hi {
        assert(stripped.push(s@.subrange(cs as int, hi as int)).drop_last() =~= stripped);
        proof {
            lemma_join_push(kept_lines(stripped), s@.subrange(cs as int, hi as int), seq!['\n']);
        }
        if !framework_line(s, cs, hi, &prefixes) {
            if count > 0 {
                out.push('\n');
            }
            append_range(&mut out, s, cs, hi);
        }
    }
    out
}

/// Removes from a stack trace the lines of framework frames: those that, without
/// their surrounding white space, start with `at io`, `at java`, `at kotlin`, `at org`,
/// `at feign`, `at jdk` or `at com`. The lines that stay are joined by line feeds.
pub fn filter_stack_trace(content: &str) -> (r: String)
    ensures
        r@ == filtered_trace(content@),
{
    let s = chars_of(content);
    let out = filter_lines(&s, 0, s.len());
    assert(s@.subrange(0, s@.len() as int) =~= content@);
    string_of(&out)
}


/// `l` holds no line feed.
pub open spec fn no_lf(l: Seq<char>) -> bool {
    forall|k: int| 0 <= k < l.len() ==> l[k] != '\n'
}

/// Lines that a join by line feeds gives back unchanged: none holds a line feed or
/// ends with a carriage return, and the last one is not empty.
pub open spec fn plain_lines(ls: Seq<Seq<char>>) -> bool {
    &&& forall|i: int| 0 <= i < ls.len() ==> no_lf(#[trigger] ls[i])
    &&& forall|i: int| 0 <= i < ls.len() ==> !(ls[i].len() > 0 && #[trigger] ls[i].last() == '\r')
    &&& ls.len() > 0 ==> ls.last().len() > 0
}

proof fn lemma_split_append(x: Seq<char>, y: Seq<char>)
    requires
        no_lf(y),
    ensures
        split_lf(x + y) == (split_lf(x).0, split_lf(x).1 + y),
    decreases y.len(),
{
    if y.len() == 0 {
        assert(x + y =~= x);
        assert(split_lf(x).1 + y =~= split_lf(x).1);
    } else {
        assert((x + y).drop_last() =~= x + y.drop_last());
        lemma_split_append(x, y.drop_last());
        assert(split_lf(x).1 + y.drop_last() + seq![y.last()] =~= split_lf(x).1 + y);
        assert((split_lf(x).1 + y.drop_last()).push(y.last()) =~= split_lf(x).1 + y);
    }
}

proof fn lemma_split_join(ls: Seq<Seq<char>>)
    requires
        ls.len() > 0,
        forall|i: int| 0 <= i < ls.len() ==> no_lf(#[trigger] ls[i]),
    ensures
        split_lf(join(ls, seq!['\n'])) == (ls.drop_last(), ls.last()),
    decreases ls.len(),
{
    if ls.len() == 1 {
        lemma_split_append(Seq::<char>::empty(), ls[0]);
        assert(Seq::<char>::empty() + ls[0] =~= ls[0]);
        assert(split_lf(Seq::<char>::empty()).1 + ls[0] =~= ls[0]);
        assert(ls.drop_last() =~= Seq::<Seq<char>>::empty());
    } else {
        let front = ls.drop_last();
        assert forall|i: int| 0 <= i < front.len() implies no_lf(#[trigger] front[i]) by {
            assert(front[i] == ls[i]);
        }
        lemma_split_join(front);
        let j = join(front, seq!['\n']);
        assert(no_lf(ls.last()));
        lemma_split_append(j.push('\n'), ls.last());
        assert(j + seq!['\n'] + ls.last() =~= j.push('\n') + ls.last());
        assert(j.push('\n').drop_last() =~= j);
        assert(front.drop_last().push(front.last()) =~= front);
        assert(Seq::<char>::empty() + ls.last() =~= ls.last());
    }
}

proof fn lemma_strip_cr_all_plain(ls: Seq<Seq<char>>)
    requires
        forall|i: int| 0 <= i < ls.len() ==> !(ls[i].len() > 0 && #[trigger] ls[i].last() == '\r'),
    ensures
        strip_cr_all(ls) == ls,
    decreases ls.len(),
{
    if ls.len() > 0 {
        let front = ls.drop_last();
        assert forall|i: int| 0 <= i < front.len() implies !(front[i].len() > 0 && #[trigger] front[i].last()
            == '\r') by {
            assert(front[i] == ls[i]);
        }
        lemma_strip_cr_all_plain(front);
        assert(front.push(ls.last()) =~= ls);
    }
}

/// Plain lines joined by line feeds read back as the same lines.
pub proof fn lemma_lines_of_join(ls: Seq<Seq<char>>)
    requires
        plain_lines(ls),
    ensures
        lines(join(ls, seq!['\n'])) == ls,
{
    if ls.len() == 0 {
    } else {
        lemma_split_join(ls);
        let front = ls.drop_last();
        assert forall|i: int| 0 <= i < front.len() implies !(front[i].len() > 0 && #[trigger] front[i].last()
            == '\r') by {
            assert(front[i] == ls[i]);
        }
        lemma_strip_cr_all_plain(front);
        assert(front.push(ls.last()) =~= ls);
    }
}

proof fn lemma_split_no_lf(s: Seq<char>)
    ensures
        forall|i: int| 0 <= i < split_lf(s).0.len() ==> no_lf(#[trigger] split_lf(s).0[i]),
        no_lf(split_lf(s).1),
    decreases s.len(),
{
    if s.len() > 0 {
        lemma_split_no_lf(s.drop_last());
        let (ended, rest) = split_lf(s.drop_last());
        if s.last() == '\n' {
            assert forall|i: int| 0 <= i < ended.push(rest).len() implies no_lf(#[trigger] ended.push(rest)[i]) by {
                if i < ended.len() {
                    assert(ended.push(rest)[i] == ended[i]);
                }
            }
        } else {
            assert forall|k: int| 0 <= k < rest.push(s.last()).len() implies rest.push(s.last())[k] != '\n' by {
                if k < rest.len() {
                    assert(rest.push(s.last())[k] == rest[k]);
                }
            }
        }
    }
}

proof fn lemma_strip_cr_all_no_lf(ls: Seq<Seq<char>>)
    requires
        forall|i: int| 0 <= i < ls.len() ==> no_lf(#[trigger] ls[i]),
    ensures
        strip_cr_all(ls).len() == ls.len(),
        forall|i: int| 0 <= i < ls.len() ==> no_lf(#[trigger] strip_cr_all(ls)[i]),
    decreases ls.len(),
{
    if ls.len() > 0 {
        let front = ls.drop_last();
        assert forall|i: int| 0 <= i < front.len() implies no_lf(#[trigger] front[i]) by {
            assert(front[i] == ls[i]);
        }
        lemma_strip_cr_all_no_lf(front);
        let l = ls.last();
        assert(no_lf(l));
        assert(no_lf(strip_cr(l))) by {
            if l.len() > 0 && l.last() == '\r' {
                assert forall|k: int| 0 <= k < l.drop_last().len() implies l.drop_last()[k] != '\n' by {
                    assert(l.drop_last()[k] == l[k]);
                }
            }
        }
        assert forall|i: int| 0 <= i < ls.len() implies no_lf(#[trigger] strip_cr_all(ls)[i]) by {
            if i < front.len() {
                assert(strip_cr_all(ls)[i] == strip_cr_all(front)[i]);
            }
        }
    }
}

/// No line of `str::lines` holds a line feed.
pub proof fn lemma_lines_no_lf(s: Seq<char>)
    ensures
        forall|i: int| 0 <= i < lines(s).len() ==> no_lf(#[trigger] lines(s)[i]),
{
    lemma_split_no_lf(s);
    let (ended, rest) = split_lf(s);
    lemma_strip_cr_all_no_lf(ended);
    if rest.len() > 0 {
        assert forall|i: int| 0 <= i < lines(s).len() implies no_lf(#[trigger] lines(s)[i]) by {
            if i < ended.len() {
                assert(lines(s)[i] == strip_cr_all(ended)[i]);
            }
        }
    }
}

proof fn lemma_kept_lines_facts(ls: Seq<Seq<char>>)
    requires
        forall|i: int| 0 <= i < ls.len() ==> no_lf(#[trigger] ls[i]),
    ensures
        forall|i: int| 0 <= i < kept_lines(ls).len() ==> no_lf(#[trigger] kept_lines(ls)[i]),
        forall|i: int| 0 <= i < kept_lines(ls).len() ==> !is_framework_line(#[trigger] kept_lines(ls)[i]),
    decreases ls.len(),
{
    if ls.len() > 0 {
        let front = ls.drop_last();
        assert forall|i: int| 0 <= i < front.len() implies no_lf(#[trigger] front[i]) by {
            assert(front[i] == ls[i]);
        }
        lemma_kept_lines_facts(front);
        let k = kept_lines(front);
        if !is_framework_line(ls.last()) {
            assert(no_lf(ls.last()));
            assert forall|i: int| 0 <= i < k.push(ls.last()).len() implies no_lf(#[trigger] k.push(ls.last())[i])
                && !is_framework_line(k.push(ls.last())[i]) by {
                if i < k.len() {
                    assert(k.push(ls.last())[i] == k[i]);
                }
            }
        }
    }
}

proof fn lemma_kept_lines_of_kept(ls: Seq<Seq<char>>)
    requires
        forall|i: int| 0 <= i < ls.len() ==> !is_framework_line(#[trigger] ls[i]),
    ensures
        kept_lines(ls) == ls,
    decreases ls.len(),
{
    if ls.len() > 0 {
        let front = ls.drop_last();
        assert forall|i: int| 0 <= i < front.len() implies !is_framework_line(#[trigger] front[i]) by {
            assert(front[i] == ls[i]);
        }
        lemma_kept_lines_of_kept(front);
        assert(front.push(ls.last()) =~= ls);
    }
}

/// The lines of a filtered stack trace are exactly the lines of the trace that are not
/// framework lines, in their order, where those lines come back unchanged from being
/// joined (none ends with a carriage return, and the last is not empty).
pub proof fn lemma_filtered_lines(s: Seq<char>)
    requires
        forall|i: int|
            0 <= i < kept_lines(lines(s)).len() ==> !(kept_lines(lines(s))[i].len() > 0
                && #[trigger] kept_lines(lines(s))[i].last() == '\r'),
        kept_lines(lines(s)).len() > 0 ==> kept_lines(lines(s)).last().len() > 0,
    ensures
        lines(filtered_trace(s)) == kept_lines(lines(s)),
        forall|i: int|
            0 <= i < lines(filtered_trace(s)).len() ==> !is_framework_line(
                #[trigger] lines(filtered_trace(s))[i],
            ),
{
    lemma_lines_no_lf(s);
    lemma_kept_lines_facts(lines(s));
    lemma_lines_of_join(kept_lines(lines(s)));
}

/// Filtering a stack trace a second time changes nothing, under the same conditions.
pub proof fn lemma_filter_idempotent(s: Seq<char>)
    requires
        forall|i: int|
            0 <= i < kept_lines(lines(s)).len() ==> !(kept_lines(lines(s))[i].len() > 0
                && #[trigger] kept_lines(lines(s))[i].last() == '\r'),
        kept_lines(lines(s)).len() > 0 ==> kept_lines(lines(s)).last().len() > 0,
    ensures
        filtered_trace(filtered_trace(s)) == filtered_trace(s),
{
    lemma_filtered_lines(s);
    lemma_lines_no_lf(s);
    lemma_kept_lines_facts(lines(s));
    lemma_kept_lines_of_kept(kept_lines(lines(s)));
}


proof fn lemma_strip_cr_all_index(ls: Seq<Seq<char>>)
    ensures
        strip_cr_all(ls).len() == ls.len(),
        forall|i: int| 0 <= i < ls.len() ==> #[trigger] strip_cr_all(ls)[i] == strip_cr(ls[i]),
    decreases ls.len(),
{
    if ls.len() > 0 {
        lemma_strip_cr_all_index(ls.drop_last());
        assert forall|i: int| 0 <= i < ls.len() implies #[trigger] strip_cr_all(ls)[i] == strip_cr(ls[i]) by {
            if i < ls.len() - 1 {
                assert(strip_cr_all(ls)[i] == strip_cr_all(ls.drop_last())[i]);
                assert(ls.drop_last()[i] == ls[i]);
            }
        }
    }
}

proof fn lemma_strip_cr_framework(l: Seq<char>)
    ensures
        is_framework_line(strip_cr(l)) == is_framework_line(l),
{
    if l.len() > 0 && l.last() == '\r' {
        assert(l.drop_last().push('\r') =~= l);
        text::lemma_trim_push_white_space(l.drop_last(), '\r');
    }
}

/// No line of a filtered stack trace, read back, is a framework line.
pub proof fn lemma_filtered_no_framework_line(s: Seq<char>)
    ensures
        forall|i: int|
            0 <= i < lines(filtered_trace(s)).len() ==> !is_framework_line(
                #[trigger] lines(filtered_trace(s))[i],
            ),
{
    lemma_lines_no_lf(s);
    lemma_kept_lines_facts(lines(s));
    let k = kept_lines(lines(s));
    if k.len() > 0 {
        lemma_split_join(k);
        let front = k.drop_last();
        lemma_strip_cr_all_index(front);
        assert forall|i: int| 0 <= i < lines(filtered_trace(s)).len() implies !is_framework_line(
            #[trigger] lines(filtered_trace(s))[i],
        ) by {
            if i < front.len() {
                assert(front[i] == k[i]);
                lemma_strip_cr_framework(k[i]);
                assert(lines(filtered_trace(s))[i] == strip_cr_all(front)[i]);
            } else {
                assert(lines(filtered_trace(s))[i] == k.last());
            }
        }
    }
}

} // verus!
