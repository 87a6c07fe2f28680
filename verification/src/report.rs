use vstd::prelude::*;

use crate::progress;
use crate::progress::{find_module, BuildStatus, ModuleInfo, MvnOutput};
use crate::stack_trace;
use crate::surefire;
use crate::surefire::extract_xml_failures;
use crate::stack_trace::filter_stack_trace;
use crate::text;
use crate::text::{append_range, chars_of, concat, has_substring, matches_at, push_decimal, string_of};

verus! {

/// A line of eighty `=`.
pub open spec fn rule() -> Seq<char> {
    Seq::new(80, |i: int| '=')
}

pub open spec fn status_icon(s: BuildStatus) -> Seq<char> {
    match s {
        BuildStatus::Success => "OK"@,
        BuildStatus::Failure => "FAIL"@,
        BuildStatus::Building => "..."@,
    }
}

pub open spec fn overall_label(s: BuildStatus) -> Seq<char> {
    match s {
        BuildStatus::Success => "OK SUCCESS"@,
        BuildStatus::Failure => "FAIL FAILURE"@,
        BuildStatus::Building => "... BUILDING"@,
    }
}

/// A line of the build summary.
pub enum SummaryItemModel {
    Text(Seq<char>),
    /// A module's status icon, name, and the nanoseconds it took to build, where both
    /// ends are known.
    Module { icon: Seq<char>, name: Seq<char>, elapsed: Option<u64> },
    /// The nanoseconds the whole build took.
    TotalTime(u64),
}

/// The time from `start` to `end`, or none where one of them is unknown; none below
/// zero.
pub open spec fn elapsed(m: progress::ModuleState) -> Option<u64> {
    match (m.start, m.end) {
        (Some(s), Some(e)) => Some(
            if e >= s {
                (e - s) as u64
            } else {
                0
            },
        ),
        _ => None,
    }
}

/// One line for each module of the reactor order that is known, in that order.
pub open spec fn module_items(order: Seq<Seq<char>>, ms: Seq<progress::ModuleState>) -> Seq<
    SummaryItemModel,
>
    decreases order.len(),
{
    if order.len() == 0 {
        seq![]
    } else {
        module_items(order.drop_last(), ms) + match progress::module_pos(ms, order.last()) {
            Some(i) => seq![
                SummaryItemModel::Module {
                    icon: status_icon(ms[i].status),
                    name: ms[i].name,
                    elapsed: elapsed(ms[i]),
                },
            ],
            None => seq![],
        }
    }
}

/// Tests run, passed (never below zero) and failed, failures and errors together.
pub open spec fn tests_line(run: u32, failed: u32, errored: u32) -> Seq<char> {
    let failed_total = failed + errored;
    let passed = if run >= failed_total {
        run - failed_total
    } else {
        0
    };
    "Tests: "@ + text::decimal(run as nat) + " run, "@ + text::decimal(passed as nat) + " passed, "@
        + text::decimal(failed_total as nat) + " failed"@
}

/// The reactor build order as the summary lists it: after an empty line a heading,
/// then one numbered line per module; nothing where the order is empty.
pub open spec fn order_items(order: Seq<Seq<char>>) -> Seq<SummaryItemModel> {
    if order.len() == 0 {
        seq![]
    } else {
        seq![SummaryItemModel::Text("\nReactor Build Order:"@)] + Seq::new(
            order.len(),
            |i: int| SummaryItemModel::Text("  "@ + text::decimal((i + 1) as nat) + ". "@ + order[i]),
        )
    }
}

/// The build summary.
pub open spec fn summary(o: &MvnOutput) -> Seq<SummaryItemModel> {
    seq![
        SummaryItemModel::Text(seq!['\n'] + rule()),
        SummaryItemModel::Text("BUILD SUMMARY"@),
        SummaryItemModel::Text(rule()),
    ] + order_items(progress::strs(o.reactor_order@)) + seq![
        SummaryItemModel::Text("\nModule Status:"@),
    ] + module_items(progress::strs(o.reactor_order@), progress::mods(o.modules@)) + seq![
        SummaryItemModel::Text("\nOverall Status: "@ + overall_label(o.overall_status)),
    ] + match o.overall_time {
        Some(t) => seq![SummaryItemModel::TotalTime(t)],
        None => seq![],
    } + if o.tests_run > 0 {
        seq![SummaryItemModel::Text(tests_line(o.tests_run, o.tests_failed, o.tests_errored))]
    } else {
        seq![]
    }
}

/// A line of the build summary.
pub enum SummaryItem {
    Text(String),
    Module { icon: String, name: String, elapsed: Option<u64> },
    TotalTime(u64),
}

impl View for SummaryItem {
    type V = SummaryItemModel;

    open spec fn view(&self) -> SummaryItemModel {
        match self {
            SummaryItem::Text(s) => SummaryItemModel::Text(s@),
            SummaryItem::Module { icon, name, elapsed } => SummaryItemModel::Module {
                icon: icon@,
                name: name@,
                elapsed: *elapsed,
            },
            SummaryItem::TotalTime(t) => SummaryItemModel::TotalTime(*t),
        }
    }
}

pub open spec fn items(v: Seq<SummaryItem>) -> Seq<SummaryItemModel> {
    v.map_values(|x: SummaryItem| x@)
}

fn push_item(v: &mut Vec<SummaryItem>, x: SummaryItem)
    ensures
        items(final(v)@) == items(old(v)@).push(x@),
{
    v.push(x);
    assert(items(v@) =~= items(old(v)@).push(x@));
}

fn rule_chars() -> (v: Vec<char>)
    ensures
        v@ == rule(),
{
    let mut v: Vec<char> = Vec::new();
    let mut i: usize = 0;
    while i < 80
        invariant
            i <= 80,
            v@ == Seq::new(i as nat, |k: int| '='),
        decreases 80 - i,
    {
        v.push('=');
        assert(v@ =~= Seq::new((i + 1) as nat, |k: int| '='));
        i = i + 1;
    }
    assert(v@ =~= rule());
    v
}

fn status_icon_string(s: BuildStatus) -> (r: String)
    ensures
        r@ == status_icon(s),
{
    broadcast use vstd::string::group_string_axioms;

    match s {
        BuildStatus::Success => "OK".to_string(),
        BuildStatus::Failure => "FAIL".to_string(),
        BuildStatus::Building => "...".to_string(),
    }
}

fn overall_label_string(s: BuildStatus) -> (r: String)
    ensures
        r@ == overall_label(s),
{
    broadcast use vstd::string::group_string_axioms;

    match s {
        BuildStatus::Success => "OK SUCCESS".to_string(),
        BuildStatus::Failure => "FAIL FAILURE".to_string(),
        BuildStatus::Building => "... BUILDING".to_string(),
    }
}

fn elapsed_exec(m: &ModuleInfo) -> (r: Option<u64>)
    ensures
        r == elapsed(m@),
{
    match (m.start_time, m.end_time) {
        (Some(s), Some(e)) => Some(
            if e >= s {
                e - s
            } else {
                0
            },
        ),
        _ => None,
    }
}

fn tests_line_string(run: u32, failed: u32, errored: u32) -> (r: String)
    requires
        failed + errored <= u32::MAX,
    ensures
        r@ == tests_line(run, failed, errored),
{
    let failed_total = failed + errored;
    let passed = run.saturating_sub(failed_total);
    let mut v = chars_of("Tests: ");
    push_decimal(&mut v, run as u64);
    let a = chars_of(" run, ");
    append_range(&mut v, &a, 0, a.len());
    push_decimal(&mut v, passed as u64);
    let b = chars_of(" passed, ");
    append_range(&mut v, &b, 0, b.len());
    push_decimal(&mut v, failed_total as u64);
    let c = chars_of(" failed");
    append_range(&mut v, &c, 0, c.len());
    assert(a@.subrange(0, a@.len() as int) =~= a@);
    assert(b@.subrange(0, b@.len() as int) =~= b@);
    assert(c@.subrange(0, c@.len() as int) =~= c@);
    assert(v@ =~= tests_line(run, failed, errored));
    string_of(&v)
}

/// The lines of the build summary, in order; the times are left for the caller to
/// write out.
pub fn summary_items(output: &MvnOutput) -> (r: Vec<SummaryItem>)
    requires
        output.tests_run > 0 ==> output.tests_failed + output.tests_errored <= u32::MAX,
    ensures
        items(r@) == summary(output),
{
    broadcast use vstd::string::group_string_axioms;

    let mut r: Vec<SummaryItem> = Vec::new();
    let mut first = vec!['\n'];
    let rule_line = rule_chars();
    append_range(&mut first, &rule_line, 0, rule_line.len());
    assert(rule_line@.subrange(0, rule_line@.len() as int) =~= rule_line@);
    assert(first@ =~= seq!['\n'] + rule());
    push_item(&mut r, SummaryItem::Text(string_of(&first)));
    push_item(&mut r, SummaryItem::Text("BUILD SUMMARY".to_string()));
    push_item(&mut r, SummaryItem::Text(string_of(&rule_line)));
    let ghost banner = items(r@);
    let ghost order = progress::strs(output.reactor_order@);
    if output.reactor_order.len() > 0 {
        push_item(&mut r, SummaryItem::Text("\nReactor Build Order:".to_string()));
        let ghost top = items(r@);
        let ghost lines = Seq::new(
            order.len(),
            |i: int| SummaryItemModel::Text("  "@ + text::decimal((i + 1) as nat) + ". "@ + order[i]),
        );
        let mut i: usize = 0;
        while i < output.reactor_order.len()
            invariant
                i <= output.reactor_order@.len(),
                order == progress::strs(output.reactor_order@),
                lines.len() == order.len(),
                forall|k: int| 0 <= k < order.len() ==> #[trigger] lines[k] == SummaryItemModel::Text(
                    "  "@ + text::decimal((k + 1) as nat) + ". "@ + order[k],
                ),
                items(r@) == top + lines.take(i as int),
            decreases output.reactor_order@.len() - i,
        {
            let mut v = chars_of("  ");
            push_decimal(&mut v, (i as u64) + 1);
            append_str(&mut v, ". ");
            append_str(&mut v, output.reactor_order[i].as_str());
            assert(v@ =~= "  "@ + text::decimal((i + 1) as nat) + ". "@ + order[i as int]);
            push_item(&mut r, SummaryItem::Text(string_of(&v)));
            assert(lines.take(i + 1) =~= lines.take(i as int).push(lines[i as int]));
            i = i + 1;
        }
        assert(lines.take(lines.len() as int) =~= lines);
        assert(items(r@) =~= banner + order_items(order));
    } else {
        assert(banner + order_items(order) =~= banner);
    }
    push_item(&mut r, SummaryItem::Text("\nModule Status:".to_string()));
    let ghost head = items(r@);
    let ghost ms = progress::mods(output.modules@);
    let mut i: usize = 0;
    while i < output.reactor_order.len()
        invariant
            i <= output.reactor_order@.len(),
            order == progress::strs(output.reactor_order@),
            ms == progress::mods(output.modules@),
            items(r@) == head + module_items(order.take(i as int), ms),
        decreases output.reactor_order@.len() - i,
    {
        assert(order.take(i + 1).drop_last() =~= order.take(i as int));
        assert(order.take(i + 1).last() == output.reactor_order@[i as int]@);
        match find_module(&output.modules, &output.reactor_order[i]) {
            Some(k) => {
                let m = &output.modules[k];
                push_item(
                    &mut r,
                    SummaryItem::Module {
                        icon: status_icon_string(m.status),
                        name: m.name.clone(),
                        elapsed: elapsed_exec(m),
                    },
                );
            },
            None => {},
        }
        i = i + 1;
    }
    assert(order.take(order.len() as int) =~= order);
    push_item(
        &mut r,
        SummaryItem::Text(concat("\nOverall Status: ", overall_label_string(output.overall_status).as_str())),
    );
    match output.overall_time {
        Some(t) => {
            push_item(&mut r, SummaryItem::TotalTime(t));
        },
        None => {},
    }
    if output.tests_run > 0 {
        push_item(
            &mut r,
            SummaryItem::Text(tests_line_string(output.tests_run, output.tests_failed, output.tests_errored)),
        );
    }
    assert(items(r@) =~= summary(output));
    r
}


/// What is shown after the summary: the Surefire reports found, each after an empty
/// line under its module's name in brackets and an empty line;
/// where there is none and the build failed, Maven's error messages, or where there
/// is none of those either, where the reports were looked for.
pub open spec fn closing(o: &MvnOutput, reports: Seq<(Seq<char>, Seq<char>)>) -> Seq<Seq<char>> {
    if reports.len() > 0 {
        seq![seq!['\n'] + rule(), "TEST FAILURES"@, rule()] + Seq::new(
            reports.len(),
            |i: int| "\n["@ + reports[i].0 + "]\n\n"@ + reports[i].1,
        )
    } else if o.overall_status == BuildStatus::Failure {
        if o.maven_errors@.len() > 0 {
            seq![seq!['\n'] + rule(), "BUILD ERRORS"@, rule(), Seq::<char>::empty()] + progress::strs(
                o.maven_errors@,
            )
        } else {
            seq![
                seq!['\n'] + rule(),
                "TEST FAILURE DETAILS"@,
                rule(),
                "\nNo surefire-reports found in target directories."@,
                "Check the following:"@,
            ] + Seq::new(
                o.reactor_order@.len(),
                |i: int| "  - "@ + o.reactor_order@[i]@ + "/target/surefire-reports/"@,
            )
        }
    } else {
        seq![]
    }
}

pub open spec fn pairs(v: Seq<(String, String)>) -> Seq<(Seq<char>, Seq<char>)> {
    v.map_values(|p: (String, String)| (p.0@, p.1@))
}

fn push_line(v: &mut Vec<String>, x: String)
    ensures
        progress::strs(final(v)@) == progress::strs(old(v)@).push(x@),
{
    v.push(x);
    assert(progress::strs(v@) =~= progress::strs(old(v)@).push(x@));
}

fn chars_string(s: &String) -> (v: Vec<char>)
    ensures
        v@ == s@,
{
    chars_of(s.as_str())
}

/// Appends the characters of `s` to `v`.
fn append_str(v: &mut Vec<char>, s: &str)
    ensures
        final(v)@ == old(v)@ + s@,
{
    let w = chars_of(s);
    append_range(v, &w, 0, w.len());
    assert(w@.subrange(0, w@.len() as int) =~= w@);
}

/// The lines shown after the summary, given the Surefire reports found as pairs of
/// module and report.
pub fn closing_lines(output: &MvnOutput, reports: &Vec<(String, String)>) -> (r: Vec<String>)
    ensures
        progress::strs(r@) == closing(output, pairs(reports@)),
{
    broadcast use vstd::string::group_string_axioms;

    let mut r: Vec<String> = Vec::new();
    assert(progress::strs(r@) =~= Seq::<Seq<char>>::empty());
    let rule_line = rule_chars();
    let mut first = vec!['\n'];
    append_range(&mut first, &rule_line, 0, rule_line.len());
    assert(rule_line@.subrange(0, rule_line@.len() as int) =~= rule_line@);
    assert(first@ =~= seq!['\n'] + rule());
    if reports.len() > 0 {
        push_line(&mut r, string_of(&first));
        push_line(&mut r, "TEST FAILURES".to_string());
        push_line(&mut r, string_of(&rule_line));
        let ghost head = progress::strs(r@);
        let ghost body = Seq::new(
            reports@.len(),
            |i: int| "\n["@ + pairs(reports@)[i].0 + "]\n\n"@ + pairs(reports@)[i].1,
        );
        let mut i: usize = 0;
        while i < reports.len()
            invariant
                i <= reports@.len(),
                body.len() == reports@.len(),
                forall|k: int| 0 <= k < reports@.len() ==> #[trigger] body[k] == "\n["@ + pairs(reports@)[k].0
                    + "]\n\n"@ + pairs(reports@)[k].1,
                progress::strs(r@) == head + body.take(i as int),
            decreases reports@.len() - i,
        {
            let mut v = chars_of("\n[");
            append_str(&mut v, reports[i].0.as_str());
            append_str(&mut v, "]\n\n");
            append_str(&mut v, reports[i].1.as_str());
            assert(v@ =~= body[i as int]);
            push_line(&mut r, string_of(&v));
            assert(body.take(i + 1) =~= body.take(i as int).push(body[i as int]));
            i = i + 1;
        }
        assert(body.take(body.len() as int) =~= body);
    } else if output.overall_status == BuildStatus::Failure {
        push_line(&mut r, string_of(&first));
        if output.maven_errors.len() > 0 {
            push_line(&mut r, "BUILD ERRORS".to_string());
            push_line(&mut r, string_of(&rule_line));
            push_line(&mut r, String::new());
            let ghost head = progress::strs(r@);
            let mut i: usize = 0;
            while i < output.maven_errors.len()
                invariant
                    i <= output.maven_errors@.len(),
                    progress::strs(r@) == head + progress::strs(output.maven_errors@).take(i as int),
                decreases output.maven_errors@.len() - i,
            {
                push_line(&mut r, output.maven_errors[i].clone());
                assert(progress::strs(output.maven_errors@).take(i + 1) =~= progress::strs(
                    output.maven_errors@,
                ).take(i as int).push(output.maven_errors@[i as int]@));
                i = i + 1;
            }
            assert(progress::strs(output.maven_errors@).take(output.maven_errors@.len() as int)
                =~= progress::strs(output.maven_errors@));
        } else {
            push_line(&mut r, "TEST FAILURE DETAILS".to_string());
            push_line(&mut r, string_of(&rule_line));
            push_line(&mut r, "\nNo surefire-reports found in target directories.".to_string());
            push_line(&mut r, "Check the following:".to_string());
            let ghost head = progress::strs(r@);
            let ghost body = Seq::new(
                output.reactor_order@.len(),
                |i: int| "  - "@ + output.reactor_order@[i]@ + "/target/surefire-reports/"@,
            );
            let mut i: usize = 0;
            while i < output.reactor_order.len()
                invariant
                    i <= output.reactor_order@.len(),
                    body.len() == output.reactor_order@.len(),
                    forall|k: int| 0 <= k < output.reactor_order@.len() ==> #[trigger] body[k] == "  - "@
                        + output.reactor_order@[k]@ + "/target/surefire-reports/"@,
                    progress::strs(r@) == head + body.take(i as int),
                decreases output.reactor_order@.len() - i,
            {
                let mut v = chars_of("  - ");
                append_str(&mut v, output.reactor_order[i].as_str());
                append_str(&mut v, "/target/surefire-reports/");
                assert(v@ =~= body[i as int]);
                push_line(&mut r, string_of(&v));
                assert(body.take(i + 1) =~= body.take(i as int).push(body[i as int]));
                i = i + 1;
            }
            assert(body.take(body.len() as int) =~= body);
        }
    }
    assert(progress::strs(r@) =~= closing(output, pairs(reports@)));
    r
}

/// The stack trace that is copied to the clipboard: that of the only report, where
/// copying is asked for and exactly one report was found.
pub fn clipboard_text(enabled: bool, reports: &Vec<(String, String)>) -> (r: Option<String>)
    ensures
        match r {
            Some(t) => enabled && reports@.len() == 1 && t@ == reports@[0].1@,
            None => !(enabled && reports@.len() == 1),
        },
{
    if enabled && reports.len() == 1 {
        Some(reports[0].1.clone())
    } else {
        None
    }
}

pub open spec fn ends_with(s: Seq<char>, p: Seq<char>) -> bool {
    text::occurs_at(s, p, s.len() - p.len())
}

/// The heading of a report file.
pub open spec fn report_heading(filename: Seq<char>) -> Seq<char> {
    "--- "@ + filename + " ---\n"@
}

/// What a file of a module's `surefire-reports` directory adds to the test failures
/// shown: for an XML report (`TEST-*.xml`), its failures and errors, where there are
/// any; for a file whose name does not start with `TEST-`, the whole file without
/// framework lines, where it mentions `FAILURE` or `ERROR`; each under a heading
/// with the file's name.
pub open spec fn report_entry(filename: Seq<char>, content: Seq<char>) -> Option<Seq<char>> {
    if text::starts_with(filename, "TEST-"@) && ends_with(filename, ".xml"@) {
        match surefire::xml_failures(content) {
            Some(x) => if x.len() > 0 {
                Some(report_heading(filename) + x)
            } else {
                None
            },
            None => None,
        }
    } else if !text::starts_with(filename, "TEST-"@) {
        if text::contains(content, "FAILURE"@) || text::contains(content, "ERROR"@) {
            Some(report_heading(filename) + stack_trace::filtered_trace(content))
        } else {
            None
        }
    } else {
        None
    }
}

/// The report that the file `filename` of a module's `surefire-reports` directory,
/// which holds `content`, adds to the test failures shown.
pub fn surefire_report_entry(filename: &str, content: &str) -> (r: Option<String>)
    ensures
        crate::maven_line::chars_opt(r) == report_entry(filename@, content@),
{
    let name = chars_of(filename);
    let test_prefix = chars_of("TEST-");
    let xml_suffix = chars_of(".xml");
    let is_test = matches_at(&name, &test_prefix, 0);
    let is_xml = xml_suffix.len() <= name.len() && matches_at(&name, &xml_suffix, name.len() - xml_suffix.len());
    let mut heading = chars_of("--- ");
    append_str(&mut heading, filename);
    append_str(&mut heading, " ---\n");
    assert(heading@ =~= report_heading(filename@));
    if is_test && is_xml {
        match extract_xml_failures(content) {
            Some(extracted) => {
                let body = chars_string(&extracted);
                if body.len() > 0 {
                    append_range(&mut heading, &body, 0, body.len());
                    assert(body@.subrange(0, body@.len() as int) =~= body@);
                    Some(string_of(&heading))
                } else {
                    None
                }
            },
            None => None,
        }
    } else if !is_test {
        let text = chars_of(content);
        if has_substring(&text, &chars_of("FAILURE")) || has_substring(&text, &chars_of("ERROR")) {
            let filtered = filter_stack_trace(content);
            append_str(&mut heading, filtered.as_str());
            Some(string_of(&heading))
        } else {
            None
        }
    } else {
        None
    }
}


/// The index of the last `c` in `s`, or -1.
pub open spec fn last_index_of(s: Seq<char>, c: char) -> int
    decreases s.len(),
{
    if s.len() == 0 {
        -1
    } else if s.last() == c {
        s.len() - 1
    } else {
        last_index_of(s.drop_last(), c)
    }
}

/// The extension of a file's name, as `Path::extension` gives it: what follows the
/// last dot, where there is a dot that is not the name's first character; none for
/// `..`.
pub open spec fn extension(name: Seq<char>) -> Option<Seq<char>> {
    let d = last_index_of(name, '.');
    if name == seq!['.', '.'] || d <= 0 {
        None
    } else {
        Some(name.subrange(d + 1, name.len() as int))
    }
}

/// A file of a `surefire-reports` directory that is read: a `.txt` or `.xml` file.
pub open spec fn is_report_file(name: Seq<char>) -> bool {
    extension(name) == Some(seq!['t', 'x', 't']) || extension(name) == Some(seq!['x', 'm', 'l'])
}

/// The report files among `names`, in their order.
pub open spec fn report_names(names: Seq<Seq<char>>) -> Seq<Seq<char>>
    decreases names.len(),
{
    if names.len() == 0 {
        seq![]
    } else if is_report_file(names.last()) {
        report_names(names.drop_last()).push(names.last())
    } else {
        report_names(names.drop_last())
    }
}

/// `a` comes before `b`, or is `b`, in the order of their characters' code points
/// (which is the order of their UTF-8 bytes).
pub open spec fn name_le(a: Seq<char>, b: Seq<char>) -> bool
    decreases a.len(),
{
    if a.len() == 0 {
        true
    } else if b.len() == 0 {
        false
    } else if (a[0] as u32) < (b[0] as u32) {
        true
    } else if (a[0] as u32) > (b[0] as u32) {
        false
    } else {
        name_le(a.drop_first(), b.drop_first())
    }
}

pub open spec fn name_order() -> spec_fn(Seq<char>, Seq<char>) -> bool {
    |a: Seq<char>, b: Seq<char>| name_le(a, b)
}

proof fn lemma_name_le_total(a: Seq<char>, b: Seq<char>)
    ensures
        name_le(a, b) || name_le(b, a),
    decreases a.len(),
{
    if a.len() > 0 && b.len() > 0 && (a[0] as u32) == (b[0] as u32) {
        lemma_name_le_total(a.drop_first(), b.drop_first());
    }
}

proof fn lemma_name_le_reflexive(a: Seq<char>)
    ensures
        name_le(a, a),
    decreases a.len(),
{
    if a.len() > 0 {
        lemma_name_le_reflexive(a.drop_first());
    }
}

proof fn lemma_same_code_point(x: char, y: char)
    requires
        (x as u32) == (y as u32),
    ensures
        x == y,
{
}

proof fn lemma_name_le_antisymmetric(a: Seq<char>, b: Seq<char>)
    requires
        name_le(a, b),
        name_le(b, a),
    ensures
        a == b,
    decreases a.len(),
{
    if a.len() > 0 && b.len() > 0 {
        lemma_same_code_point(a[0], b[0]);
        lemma_name_le_antisymmetric(a.drop_first(), b.drop_first());
        assert(a =~= seq![a[0]] + a.drop_first());
        assert(b =~= seq![b[0]] + b.drop_first());
    } else {
        assert(a.len() == 0 && b.len() == 0);
        assert(a =~= b);
    }
}

proof fn lemma_name_le_transitive(a: Seq<char>, b: Seq<char>, c: Seq<char>)
    requires
        name_le(a, b),
        name_le(b, c),
    ensures
        name_le(a, c),
    decreases a.len(),
{
    if a.len() > 0 && b.len() > 0 && c.len() > 0 && (a[0] as u32) == (b[0] as u32) && (b[0] as u32)
        == (c[0] as u32) {
        lemma_name_le_transitive(a.drop_first(), b.drop_first(), c.drop_first());
    }
}

/// The order of names is a total order.
pub proof fn lemma_name_order_total()
    ensures
        vstd::relations::total_ordering(name_order()),
{
    assert forall|a: Seq<char>| #[trigger] name_order()(a, a) by {
        lemma_name_le_reflexive(a);
    }
    assert forall|a: Seq<char>, b: Seq<char>| #[trigger] name_order()(a, b) && #[trigger] name_order()(b, a)
        implies a == b by {
        lemma_name_le_antisymmetric(a, b);
    }
    assert forall|a: Seq<char>, b: Seq<char>, c: Seq<char>| #[trigger] name_order()(a, b)
        && #[trigger] name_order()(b, c) implies name_order()(a, c) by {
        lemma_name_le_transitive(a, b, c);
    }
    assert forall|a: Seq<char>, b: Seq<char>| #[trigger] name_order()(a, b) || #[trigger] name_order()(b, a) by {
        lemma_name_le_total(a, b);
    }
}

/// The report files are fixed by the names they are chosen from: any two orderings of
/// the same names are one and the same.
pub proof fn lemma_report_order_unique(x: Seq<Seq<char>>, y: Seq<Seq<char>>)
    requires
        vstd::relations::sorted_by(x, name_order()),
        vstd::relations::sorted_by(y, name_order()),
        x.to_multiset() == y.to_multiset(),
    ensures
        x == y,
{
    lemma_name_order_total();
    vstd::seq_lib::lemma_sorted_unique(x, y, name_order());
}

/// Whether `a` comes before `b`, or is `b`.
fn name_le_exec(a: &String, b: &String) -> (r: bool)
    ensures
        r == name_le(a@, b@),
{
    let x = chars_of(a.as_str());
    let y = chars_of(b.as_str());
    let mut k: usize = 0;
    assert(x@.skip(0) =~= x@);
    assert(y@.skip(0) =~= y@);
    loop
        invariant
            k <= x@.len(),
            k <= y@.len(),
            name_le(a@, b@) == name_le(x@.skip(k as int), y@.skip(k as int)),
            x@ == a@,
            y@ == b@,
        decreases x@.len() - k,
    {
        if k == x.len() {
            return true;
        }
        if k == y.len() {
            return false;
        }
        assert(x@.skip(k as int)[0] == x@[k as int]);
        assert(y@.skip(k as int)[0] == y@[k as int]);
        let cx = x[k] as u32;
        let cy = y[k] as u32;
        if cx < cy {
            return true;
        }
        if cx > cy {
            return false;
        }
        assert(x@.skip(k as int).drop_first() =~= x@.skip(k + 1));
        assert(y@.skip(k as int).drop_first() =~= y@.skip(k + 1));
        k = k + 1;
    }
}

/// Whether the file `name` is a `.txt` or `.xml` file.
fn is_report_file_exec(name: &String) -> (r: bool)
    ensures
        r == is_report_file(name@),
{
    let v = chars_of(name.as_str());
    let n = v.len();
    let mut j = n;
    assert(v@.take(n as int) =~= v@);
    while j > 0 && v[j - 1] != '.'
        invariant
            n == v@.len(),
            j <= n,
            last_index_of(v@, '.') == last_index_of(v@.take(j as int), '.'),
        decreases j,
    {
        assert(v@.take(j as int).drop_last() =~= v@.take(j - 1));
        j = j - 1;
    }
    if j == 0 {
        assert(v@.take(0) =~= Seq::<char>::empty());
    } else {
        assert(v@.take(j as int).last() == '.');
    }
    let dots = n == 2 && v[0] == '.' && v[1] == '.';
    assert(dots == (v@ == seq!['.', '.'])) by {
        if v@ == seq!['.', '.'] {
            assert(v@[0] == '.' && v@[1] == '.');
        }
        if dots {
            assert(v@ =~= seq!['.', '.']);
        }
    }
    if dots || j <= 1 {
        return false;
    }
    let d = j - 1;
    let txt = vec!['t', 'x', 't'];
    let xml = vec!['x', 'm', 'l'];
    let ghost ext = v@.subrange(d + 1, n as int);
    let r = n - (d + 1) == 3 && (matches_at(&v, &txt, d + 1) || matches_at(&v, &xml, d + 1));
    assert(r == (ext == seq!['t', 'x', 't'] || ext == seq!['x', 'm', 'l'])) by {
        if n - (d + 1) == 3 {
            assert(ext =~= v@.subrange(d + 1, d + 1 + 3));
            assert(txt@ =~= seq!['t', 'x', 't']);
            assert(xml@ =~= seq!['x', 'm', 'l']);
        }
    }
    r
}

/// Inserting `x` after the names not after it keeps the names in order.
proof fn lemma_insert_sorted(s: Seq<Seq<char>>, p: int, x: Seq<char>)
    requires
        vstd::relations::sorted_by(s, name_order()),
        0 <= p <= s.len(),
        forall|j: int| 0 <= j < p ==> name_le(#[trigger] s[j], x),
        p == s.len() || !name_le(s[p], x),
    ensures
        vstd::relations::sorted_by(s.insert(p, x), name_order()),
{
    let t = s.insert(p, x);
    if p < s.len() {
        lemma_name_le_total(s[p], x);
    }
    assert forall|i: int, j: int| 0 <= i < j < t.len() implies #[trigger] name_order()(t[i], t[j]) by {
        if j < p {
            assert(name_order()(s[i], s[j]));
        } else if j == p {
        } else if i < p {
            assert(name_order()(s[i], s[j - 1]));
        } else if i == p {
            if j - 1 > p {
                assert(name_order()(s[p], s[j - 1]));
                lemma_name_le_transitive(x, s[p], s[j - 1]);
            }
        } else {
            assert(name_order()(s[i - 1], s[j - 1]));
        }
    }
}

/// The `.txt` and `.xml` files among the names of a `surefire-reports` directory, in
/// the order of their names' bytes.
pub fn report_files(names: Vec<String>) -> (r: Vec<String>)
    ensures
        vstd::relations::sorted_by(progress::strs(r@), name_order()),
        progress::strs(r@).to_multiset() == report_names(progress::strs(names@)).to_multiset(),
{
    broadcast use vstd::seq_lib::group_to_multiset_ensures;

    let ghost all = progress::strs(names@);
    let mut out: Vec<String> = Vec::new();
    let mut i: usize = 0;
    assert(progress::strs(out@) =~= Seq::<Seq<char>>::empty());
    assert(all.take(0) =~= Seq::<Seq<char>>::empty());
    while i < names.len()
        invariant
            i <= names@.len(),
            all == progress::strs(names@),
            vstd::relations::sorted_by(progress::strs(out@), name_order()),
            progress::strs(out@).to_multiset() == report_names(all.take(i as int)).to_multiset(),
        decreases names@.len() - i,
    {
        assert(all.take(i + 1).drop_last() =~= all.take(i as int));
        assert(all.take(i + 1).last() == names@[i as int]@);
        if is_report_file_exec(&names[i]) {
            let x = names[i].clone();
            let mut p: usize = 0;
            while p < out.len() && name_le_exec(&out[p], &x)
                invariant
                    p <= out@.len(),
                    forall|j: int| 0 <= j < p ==> name_le(#[trigger] progress::strs(out@)[j], x@),
                decreases out@.len() - p,
            {
                p = p + 1;
            }
            let ghost before = progress::strs(out@);
            proof {
                lemma_insert_sorted(before, p as int, x@);
            }
            out.insert(p, x);
            assert(progress::strs(out@) =~= before.insert(p as int, names@[i as int]@));
            assert(report_names(all.take(i + 1)) == report_names(all.take(i as int)).push(names@[i as int]@));
            proof {
                vstd::seq_lib::to_multiset_insert(before, p as int, names@[i as int]@);
                vstd::seq_lib::to_multiset_build(report_names(all.take(i as int)), names@[i as int]@);
            }
        } else {
            assert(report_names(all.take(i + 1)) == report_names(all.take(i as int)));
        }
        i = i + 1;
    }
    assert(all.take(names@.len() as int) =~= all);
    out
}


proof fn lemma_module_items_contains(order: Seq<Seq<char>>, ms: Seq<progress::ModuleState>, k: int, i: int)
    requires
        0 <= k < order.len(),
        progress::module_pos(ms, order[k]) == Some(i),
    ensures
        module_items(order, ms).contains(
            SummaryItemModel::Module {
                icon: status_icon(ms[i].status),
                name: ms[i].name,
                elapsed: elapsed(ms[i]),
            },
        ),
    decreases order.len(),
{
    let item = SummaryItemModel::Module {
        icon: status_icon(ms[i].status),
        name: ms[i].name,
        elapsed: elapsed(ms[i]),
    };
    let front = module_items(order.drop_last(), ms);
    if k == order.len() - 1 {
        let all = module_items(order, ms);
        assert(all == front + seq![item]);
        assert(all[front.len() as int] == item);
    } else {
        assert(order.drop_last()[k] == order[k]);
        lemma_module_items_contains(order.drop_last(), ms, k, i);
        let j = choose|j: int| 0 <= j < front.len() && front[j] == item;
        assert(module_items(order, ms)[j] == item);
    }
}

/// Every module of the reactor order that is tracked has its line in the summary:
/// its name, `OK` where it built, `FAIL` where it failed, `...` where it is still
/// building, and the time from its start to its end where both are known (never
/// below zero).
pub proof fn lemma_summary_shows_module(o: &MvnOutput, k: int, i: int)
    requires
        0 <= k < o.reactor_order@.len(),
        progress::module_pos(progress::mods(o.modules@), o.reactor_order@[k]@) == Some(i),
    ensures
        0 <= i < o.modules@.len(),
        o.modules@[i].name@ == o.reactor_order@[k]@,
        summary(o).contains(
            SummaryItemModel::Module {
                icon: match o.modules@[i].status {
                    BuildStatus::Success => "OK"@,
                    BuildStatus::Failure => "FAIL"@,
                    BuildStatus::Building => "..."@,
                },
                name: o.modules@[i].name@,
                elapsed: match (o.modules@[i].start_time, o.modules@[i].end_time) {
                    (Some(s), Some(e)) => Some(
                        if e >= s {
                            (e - s) as u64
                        } else {
                            0u64
                        },
                    ),
                    _ => None,
                },
            },
        ),
{
    let order = progress::strs(o.reactor_order@);
    let ms = progress::mods(o.modules@);
    progress::lemma_module_pos_facts(ms, order[k]);
    lemma_module_items_contains(order, ms, k, i);
    let item = SummaryItemModel::Module {
        icon: status_icon(ms[i].status),
        name: ms[i].name,
        elapsed: elapsed(ms[i]),
    };
    let head = seq![
        SummaryItemModel::Text(seq!['\n'] + rule()),
        SummaryItemModel::Text("BUILD SUMMARY"@),
        SummaryItemModel::Text(rule()),
    ] + order_items(order) + seq![SummaryItemModel::Text("\nModule Status:"@)];
    let mi = module_items(order, ms);
    let j = choose|j: int| 0 <= j < mi.len() && mi[j] == item;
    let sm = summary(o);
    assert(sm[head.len() + j] == mi[j]);
}

/// Where reports were found, what follows the summary is the heading, and then each
/// report, in order, on a line of its own after its module's name in brackets.
pub proof fn lemma_closing_shows_every_report(o: &MvnOutput, reports: Seq<(Seq<char>, Seq<char>)>)
    requires
        reports.len() > 0,
    ensures
        closing(o, reports).len() == 3 + reports.len(),
        closing(o, reports)[0] == seq!['\n'] + Seq::new(80, |i: int| '='),
        closing(o, reports)[1] == "TEST FAILURES"@,
        closing(o, reports)[2] == Seq::new(80, |i: int| '='),
        forall|i: int|
            0 <= i < reports.len() ==> #[trigger] closing(o, reports)[3 + i] == "\n["@ + reports[i].0
                + "]\n\n"@ + reports[i].1,
{
}

proof fn lemma_module_items_only(order: Seq<Seq<char>>, ms: Seq<progress::ModuleState>, j: int)
    requires
        0 <= j < module_items(order, ms).len(),
    ensures
        exists|k: int, i: int|
            #![trigger order[k], ms[i]]
            0 <= k < order.len() && progress::module_pos(ms, order[k]) == Some(i)
                && module_items(order, ms)[j] == (SummaryItemModel::Module {
                icon: status_icon(ms[i].status),
                name: ms[i].name,
                elapsed: elapsed(ms[i]),
            }),
    decreases order.len(),
{
    let front = module_items(order.drop_last(), ms);
    let all = module_items(order, ms);
    if j < front.len() {
        lemma_module_items_only(order.drop_last(), ms, j);
        let (k, i) = choose|k: int, i: int|
            #![trigger order.drop_last()[k], ms[i]]
            0 <= k < order.drop_last().len() && progress::module_pos(ms, order.drop_last()[k]) == Some(i)
                && front[j] == SummaryItemModel::Module {
                icon: status_icon(ms[i].status),
                name: ms[i].name,
                elapsed: elapsed(ms[i]),
            };
        assert(order.drop_last()[k] == order[k]);
        assert(all[j] == front[j]);
        assert(ms[i] == ms[i]);
    } else {
        let k = order.len() - 1;
        let i = progress::module_pos(ms, order.last()).unwrap();
        assert(order[k] == order.last());
        assert(all[j] == SummaryItemModel::Module {
            icon: status_icon(ms[i].status),
            name: ms[i].name,
            elapsed: elapsed(ms[i]),
        });
        assert(ms[i] == ms[i]);
    }
}

/// The summary shows no other module line than those of the modules of the reactor
/// order that are tracked: each line of a module carries that module's name, `OK`
/// where it built, `FAIL` where it failed and `...` where it is still building, and
/// its time.
pub proof fn lemma_summary_module_lines_only(o: &MvnOutput, j: int)
    requires
        0 <= j < summary(o).len(),
        (summary(o)[j] is Module),
    ensures
        exists|k: int, i: int|
            #![trigger o.reactor_order@[k], o.modules@[i]]
            0 <= k < o.reactor_order@.len() && progress::module_pos(
                progress::mods(o.modules@),
                o.reactor_order@[k]@,
            ) == Some(i) && summary(o)[j] == (SummaryItemModel::Module {
                icon: match o.modules@[i].status {
                    BuildStatus::Success => "OK"@,
                    BuildStatus::Failure => "FAIL"@,
                    BuildStatus::Building => "..."@,
                },
                name: o.modules@[i].name@,
                elapsed: match (o.modules@[i].start_time, o.modules@[i].end_time) {
                    (Some(s), Some(e)) => Some(
                        if e >= s {
                            (e - s) as u64
                        } else {
                            0u64
                        },
                    ),
                    _ => None,
                },
            }),
{
    let order = progress::strs(o.reactor_order@);
    let ms = progress::mods(o.modules@);
    let head = seq![
        SummaryItemModel::Text(seq!['\n'] + rule()),
        SummaryItemModel::Text("BUILD SUMMARY"@),
        SummaryItemModel::Text(rule()),
    ] + order_items(order) + seq![SummaryItemModel::Text("\nModule Status:"@)];
    let mi = module_items(order, ms);
    let sm = summary(o);
    assert(sm == head + mi + (seq![SummaryItemModel::Text("\nOverall Status: "@ + overall_label(o.overall_status))]
        + match o.overall_time {
        Some(t) => seq![SummaryItemModel::TotalTime(t)],
        None => seq![],
    } + if o.tests_run > 0 {
        seq![SummaryItemModel::Text(tests_line(o.tests_run, o.tests_failed, o.tests_errored))]
    } else {
        seq![]
    }));
    if j < head.len() {
        if j >= 3 && j < 3 + order_items(order).len() {
            assert(sm[j] == order_items(order)[j - 3]);
        }
        assert(!(sm[j] is Module));
    } else if j >= head.len() + mi.len() {
        assert(!(sm[j] is Module));
    } else {
        assert(sm[j] == mi[j - head.len()]);
        lemma_module_items_only(order, ms, j - head.len());
        let (k, i) = choose|k: int, i: int|
            #![trigger order[k], ms[i]]
            0 <= k < order.len() && progress::module_pos(ms, order[k]) == Some(i)
                && mi[j - head.len()] == SummaryItemModel::Module {
                icon: status_icon(ms[i].status),
                name: ms[i].name,
                elapsed: elapsed(ms[i]),
            };
        progress::lemma_module_pos_facts(ms, order[k]);
        assert(order[k] == o.reactor_order@[k]@);
        assert(ms[i] == o.modules@[i]@);
    }
}

/// After the module lines, the summary shows the build's status (`OK SUCCESS`,
/// `FAIL FAILURE` or `... BUILDING`), then its total time where it is known, then,
/// where tests ran, how many ran, passed (never below zero) and failed.
pub proof fn lemma_summary_status_lines(o: &MvnOutput)
    ensures
        ({
            let order = progress::strs(o.reactor_order@);
            let before: int = 4 + order_items(order).len() as int + module_items(order, progress::mods(o.modules@)).len() as int;
            let failed = o.tests_failed + o.tests_errored;
            &&& summary(o)[before] == SummaryItemModel::Text(
                "\nOverall Status: "@ + match o.overall_status {
                    BuildStatus::Success => "OK SUCCESS"@,
                    BuildStatus::Failure => "FAIL FAILURE"@,
                    BuildStatus::Building => "... BUILDING"@,
                },
            )
            &&& summary(o).len() == before + 1 + (if o.overall_time is Some {
                1int
            } else {
                0int
            }) + (if o.tests_run > 0 {
                1int
            } else {
                0int
            })
            &&& o.overall_time matches Some(t) ==> summary(o)[before + 1] == SummaryItemModel::TotalTime(t)
            &&& o.tests_run > 0 ==> summary(o).last() == SummaryItemModel::Text(
                "Tests: "@ + text::decimal(o.tests_run as nat) + " run, "@ + text::decimal(
                    (if o.tests_run >= failed {
                        o.tests_run - failed
                    } else {
                        0
                    }) as nat,
                ) + " passed, "@ + text::decimal(failed as nat) + " failed"@,
            )
        }),
{
}

/// Where no report was found: after a failed build, Maven's error messages under a
/// heading where there are any, and otherwise, under another heading, where each
/// module's reports were looked for; after any other build, nothing.
pub proof fn lemma_closing_without_reports(o: &MvnOutput)
    ensures
        o.overall_status != BuildStatus::Failure ==> closing(o, seq![]).len() == 0,
        o.overall_status == BuildStatus::Failure && o.maven_errors@.len() > 0 ==> {
            &&& closing(o, seq![]).len() == 4 + o.maven_errors@.len()
            &&& closing(o, seq![])[1] == "BUILD ERRORS"@
            &&& closing(o, seq![])[3].len() == 0
            &&& forall|i: int|
                0 <= i < o.maven_errors@.len() ==> #[trigger] closing(o, seq![])[4 + i] == o.maven_errors@[i]@
        },
        o.overall_status == BuildStatus::Failure && o.maven_errors@.len() == 0 ==> {
            &&& closing(o, seq![]).len() == 5 + o.reactor_order@.len()
            &&& closing(o, seq![])[1] == "TEST FAILURE DETAILS"@
            &&& closing(o, seq![])[3] == "\nNo surefire-reports found in target directories."@
            &&& closing(o, seq![])[4] == "Check the following:"@
            &&& forall|i: int|
                0 <= i < o.reactor_order@.len() ==> #[trigger] closing(o, seq![])[5 + i] == "  - "@
                    + o.reactor_order@[i]@ + "/target/surefire-reports/"@
        },
{
}

} // verus!
