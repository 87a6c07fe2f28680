use vstd::prelude::*;

use crate::maven_line;
use crate::text;
use crate::maven_line::{parse_module_start, parse_reactor_module, parse_test_results};
use crate::text::{chars_of, concat, has_substring, matches_at, push_decimal, string_of, trim_bounds, append_range};

verus! {

/// Where a module, or the whole build, stands.
#[derive(PartialEq, Eq, Structural, Clone, Copy, Debug)]
pub enum BuildStatus {
    Building,
    Success,
    Failure,
}

/// What is known of a module: its name, when it last started building and when it was
/// first seen done (in nanoseconds since the build started), and its status.
pub struct ModuleState {
    pub name: Seq<char>,
    pub start: Option<u64>,
    pub end: Option<u64>,
    pub status: BuildStatus,
}

/// Everything that the reading of Maven's output has gathered so far.
#[verifier::ext_equal]
pub struct BuildState {
    pub reactor_order: Seq<Seq<char>>,
    pub modules: Seq<ModuleState>,
    pub test_failures: Seq<Seq<Seq<char>>>,
    pub overall_status: BuildStatus,
    pub overall_time: Option<u64>,
    pub tests_run: u32,
    pub tests_failed: u32,
    pub tests_errored: u32,
    pub tests_skipped: u32,
    pub maven_errors: Seq<Seq<char>>,
    pub current_test_failure: Option<Seq<Seq<char>>>,
    pub in_failure_section: bool,
    pub current_module: Option<Seq<char>>,
    pub reactor_printed: bool,
    pub printed_modules: Seq<Seq<char>>,
}

/// What the reading of a line asks to be shown.
pub enum EffectModel {
    /// Clear the spinner's line on the error stream.
    ClearSpinner,
    /// Print a line on the standard output.
    Print(Seq<char>),
}

/// Once Maven has exited with `exit_code` (none where a signal ended it): a build
/// that exited otherwise than with 0 and was never seen to end has failed.
pub open spec fn after_exit(m: BuildState, exit_code: Option<i32>) -> BuildState {
    if exit_code != Some(0i32) && m.overall_status == BuildStatus::Building {
        BuildState { overall_status: BuildStatus::Failure, ..m }
    } else {
        m
    }
}

/// The state before the first line.
pub open spec fn initial_state() -> BuildState {
    BuildState {
        reactor_order: seq![],
        modules: seq![],
        test_failures: seq![],
        overall_status: BuildStatus::Building,
        overall_time: None,
        tests_run: 0,
        tests_failed: 0,
        tests_errored: 0,
        tests_skipped: 0,
        maven_errors: seq![],
        current_test_failure: None,
        in_failure_section: false,
        current_module: None,
        reactor_printed: false,
        printed_modules: seq![],
    }
}

/// The index of the first module named `name`.
pub open spec fn module_pos(ms: Seq<ModuleState>, name: Seq<char>) -> Option<int>
    decreases ms.len(),
{
    if ms.len() == 0 {
        None
    } else {
        match module_pos(ms.drop_last(), name) {
            Some(i) => Some(i),
            None => if ms.last().name == name {
                Some(ms.len() - 1)
            } else {
                None
            },
        }
    }
}

/// A module that has not started building.
pub open spec fn fresh_module(name: Seq<char>) -> ModuleState {
    ModuleState { name, start: None, end: None, status: BuildStatus::Building }
}

/// `ms` with `m` in place of the module of its name, or with `m` added.
pub open spec fn put_module(ms: Seq<ModuleState>, m: ModuleState) -> Seq<ModuleState> {
    match module_pos(ms, m.name) {
        Some(i) => ms.update(i, m),
        None => ms.push(m),
    }
}

/// `ms` with the module `name`, if there is one, seen done at `now` unless it was
/// seen done before.
pub open spec fn close_module(ms: Seq<ModuleState>, name: Seq<char>, now: u64) -> Seq<ModuleState> {
    match module_pos(ms, name) {
        Some(i) => if ms[i].end is None {
            ms.update(i, ModuleState { end: Some(now), ..ms[i] })
        } else {
            ms
        },
        None => ms,
    }
}

/// `ms` with the current module, if there is one, seen done at `now` (unless it was
/// before) and given `status`.
pub open spec fn finish_module(ms: Seq<ModuleState>, name: Seq<char>, status: BuildStatus, now: u64) -> Seq<
    ModuleState,
> {
    match module_pos(ms, name) {
        Some(i) => ms.update(
            i,
            ModuleState {
                end: if ms[i].end is None {
                    Some(now)
                } else {
                    ms[i].end
                },
                status,
                ..ms[i]
            },
        ),
        None => ms,
    }
}

/// The printed reactor build order: a heading after an empty line, one numbered line
/// per module, and an empty line.
pub open spec fn reactor_listing(order: Seq<Seq<char>>) -> Seq<EffectModel> {
    seq![EffectModel::Print("\nReactor Build Order:"@)] + Seq::new(
        order.len(),
        |i: int| EffectModel::Print("  "@ + text::decimal((i + 1) as nat) + ". "@ + order[i]),
    ) + seq![EffectModel::Print(Seq::<char>::empty())]
}

/// A module starts building at `now`.
pub open spec fn module_start_step(m: BuildState, name: Seq<char>, now: u64) -> (BuildState, Seq<
    EffectModel,
>) {
    let is_new = !m.reactor_order.contains(name);
    let order = if is_new {
        m.reactor_order.push(name)
    } else {
        m.reactor_order
    };
    let list_single = !m.reactor_printed && !is_new && order.len() == 1;
    let listing = if list_single {
        reactor_listing(order)
    } else {
        seq![]
    };
    let closed = match m.current_module {
        Some(prev) => close_module(m.modules, prev, now),
        None => m.modules,
    };
    let announce = !m.printed_modules.contains(name);
    let announcement = if announce {
        seq![EffectModel::ClearSpinner, EffectModel::Print("> Building "@ + name)]
    } else {
        seq![]
    };
    let tracked_modules = if module_pos(closed, name) is Some {
        closed
    } else {
        closed.push(fresh_module(name))
    };
    let i = module_pos(tracked_modules, name).unwrap();
    let started = tracked_modules.update(
        i,
        ModuleState { start: Some(now), status: BuildStatus::Building, ..tracked_modules[i] },
    );
    (
        BuildState {
            reactor_order: order,
            modules: started,
            current_module: Some(name),
            reactor_printed: m.reactor_printed || list_single,
            printed_modules: if announce {
                m.printed_modules.push(name)
            } else {
                m.printed_modules
            },
            ..m
        },
        listing + announcement,
    )
}

/// The build ends with `status` at `now`.
pub open spec fn build_end_step(m: BuildState, status: BuildStatus, now: u64) -> BuildState {
    BuildState {
        overall_status: status,
        modules: match m.current_module {
            Some(cur) => finish_module(m.modules, cur, status, now),
            None => m.modules,
        },
        current_module: None,
        overall_time: Some(now),
        ..m
    }
}

/// `s` without the copies of `p` that it starts with, as `str::trim_start_matches`.
pub open spec fn strip_leading(s: Seq<char>, p: Seq<char>) -> Seq<char>
    decreases s.len(),
{
    if p.len() > 0 && text::starts_with(s, p) {
        strip_leading(s.subrange(p.len() as int, s.len() as int), p)
    } else {
        s
    }
}

/// The message of an `[ERROR]` line.
pub open spec fn error_message(line: Seq<char>) -> Seq<char> {
    text::trim(strip_leading(line, "[ERROR]"@))
}

/// What a line of Maven's output, read at `now`, does to the state, and what it asks
/// to be shown. The checks come in this order, and the first that holds decides.
pub open spec fn step(m: BuildState, line: Seq<char>, now: u64) -> (BuildState, Seq<EffectModel>) {
    if text::contains(line, "The Reactor build order:"@) {
        (m, seq![])
    } else if maven_line::reactor_module(line) is Some {
        let name = maven_line::reactor_module(line).unwrap();
        (
            BuildState {
                reactor_order: m.reactor_order.push(name),
                modules: put_module(m.modules, fresh_module(name)),
                ..m
            },
            seq![],
        )
    } else if maven_line::module_start_from(line, 0) is Some {
        module_start_step(m, maven_line::module_start_from(line, 0).unwrap(), now)
    } else if text::contains(line, "FAILURE"@) && text::contains(line, "in"@) {
        (BuildState { in_failure_section: true, current_test_failure: Some(seq![]), ..m }, seq![])
    } else if m.in_failure_section {
        if text::trim(line).len() == 0 {
            (
                BuildState {
                    in_failure_section: false,
                    current_test_failure: None,
                    test_failures: match m.current_test_failure {
                        Some(f) => m.test_failures.push(f),
                        None => m.test_failures,
                    },
                    ..m
                },
                seq![],
            )
        } else {
            (
                BuildState {
                    current_test_failure: match m.current_test_failure {
                        Some(f) => Some(f.push(line)),
                        None => None,
                    },
                    ..m
                },
                seq![],
            )
        }
    } else if maven_line::test_counts(line) is Some {
        let (run, failed, errored, skipped) = maven_line::test_counts(line).unwrap();
        (
            BuildState {
                tests_run: (m.tests_run + run) as u32,
                tests_failed: (m.tests_failed + failed) as u32,
                tests_errored: (m.tests_errored + errored) as u32,
                tests_skipped: (m.tests_skipped + skipped) as u32,
                ..m
            },
            seq![],
        )
    } else if text::starts_with(line, "[ERROR]"@) {
        let msg = error_message(line);
        if msg.len() > 0 && !m.maven_errors.contains(msg) {
            (BuildState { maven_errors: m.maven_errors.push(msg), ..m }, seq![])
        } else {
            (m, seq![])
        }
    } else if text::contains(line, "BUILD SUCCESS"@) {
        (build_end_step(m, BuildStatus::Success, now), seq![])
    } else if text::contains(line, "BUILD FAILURE"@) {
        (build_end_step(m, BuildStatus::Failure, now), seq![])
    } else {
        (m, seq![])
    }
}

/// A line that adds test counts to the totals.
pub open spec fn is_counts_line(m: BuildState, line: Seq<char>) -> bool {
    &&& !text::contains(line, "The Reactor build order:"@)
    &&& maven_line::reactor_module(line) is None
    &&& maven_line::module_start_from(line, 0) is None
    &&& !(text::contains(line, "FAILURE"@) && text::contains(line, "in"@))
    &&& !m.in_failure_section
    &&& maven_line::test_counts(line) is Some
}

/// Reading `line` keeps every total within `u32`.
pub open spec fn step_fits(m: BuildState, line: Seq<char>) -> bool {
    is_counts_line(m, line) ==> {
        let (run, failed, errored, skipped) = maven_line::test_counts(line).unwrap();
        &&& m.tests_run + run <= u32::MAX
        &&& m.tests_failed + failed <= u32::MAX
        &&& m.tests_errored + errored <= u32::MAX
        &&& m.tests_skipped + skipped <= u32::MAX
    }
}


pub open spec fn strs(v: Seq<String>) -> Seq<Seq<char>> {
    v.map_values(|s: String| s@)
}

/// A module of the build, as `ModuleState` describes it.
pub struct ModuleInfo {
    pub name: String,
    pub start_time: Option<u64>,
    pub end_time: Option<u64>,
    pub status: BuildStatus,
}

impl View for ModuleInfo {
    type V = ModuleState;

    open spec fn view(&self) -> ModuleState {
        ModuleState {
            name: self.name@,
            start: self.start_time,
            end: self.end_time,
            status: self.status,
        }
    }
}

pub open spec fn mods(v: Seq<ModuleInfo>) -> Seq<ModuleState> {
    v.map_values(|m: ModuleInfo| m@)
}

/// The stack trace lines gathered for a failed test.
pub struct TestFailure {
    pub stack_trace: Vec<String>,
}

impl View for TestFailure {
    type V = Seq<Seq<char>>;

    open spec fn view(&self) -> Seq<Seq<char>> {
        strs(self.stack_trace@)
    }
}

pub open spec fn fails(v: Seq<TestFailure>) -> Seq<Seq<Seq<char>>> {
    v.map_values(|f: TestFailure| f@)
}

/// What the build's summary is made from.
pub struct MvnOutput {
    pub reactor_order: Vec<String>,
    pub modules: Vec<ModuleInfo>,
    pub test_failures: Vec<TestFailure>,
    pub overall_status: BuildStatus,
    /// Nanoseconds from the start of the build to its end.
    pub overall_time: Option<u64>,
    pub tests_run: u32,
    pub tests_failed: u32,
    pub tests_errored: u32,
    pub tests_skipped: u32,
    pub maven_errors: Vec<String>,
}

/// Reads Maven's output line by line.
pub struct BuildTracker {
    pub output: MvnOutput,
    pub current_test_failure: Option<TestFailure>,
    pub in_failure_section: bool,
    pub current_module: Option<String>,
    pub reactor_printed: bool,
    pub printed_modules: Vec<String>,
}

impl View for BuildTracker {
    type V = BuildState;

    open spec fn view(&self) -> BuildState {
        BuildState {
            reactor_order: strs(self.output.reactor_order@),
            modules: mods(self.output.modules@),
            test_failures: fails(self.output.test_failures@),
            overall_status: self.output.overall_status,
            overall_time: self.output.overall_time,
            tests_run: self.output.tests_run,
            tests_failed: self.output.tests_failed,
            tests_errored: self.output.tests_errored,
            tests_skipped: self.output.tests_skipped,
            maven_errors: strs(self.output.maven_errors@),
            current_test_failure: match self.current_test_failure {
                Some(f) => Some(f@),
                None => None,
            },
            in_failure_section: self.in_failure_section,
            current_module: match self.current_module {
                Some(s) => Some(s@),
                None => None,
            },
            reactor_printed: self.reactor_printed,
            printed_modules: strs(self.printed_modules@),
        }
    }
}

/// What the reading of a line asks to be shown.
pub enum Effect {
    ClearSpinner,
    Print(String),
}

impl View for Effect {
    type V = EffectModel;

    open spec fn view(&self) -> EffectModel {
        match self {
            Effect::ClearSpinner => EffectModel::ClearSpinner,
            Effect::Print(s) => EffectModel::Print(s@),
        }
    }
}

pub open spec fn effs(v: Seq<Effect>) -> Seq<EffectModel> {
    v.map_values(|e: Effect| e@)
}

/// The header line of a failed test starts an empty stack trace.
pub fn parse_test_failure_header(_line: &str) -> (r: Option<TestFailure>)
    ensures
        r matches Some(f) && f@ == Seq::<Seq<char>>::empty(),
{
    let f = TestFailure { stack_trace: Vec::new() };
    assert(f@ =~= Seq::<Seq<char>>::empty());
    Some(f)
}

proof fn lemma_module_pos(ms: Seq<ModuleState>, name: Seq<char>, i: int)
    requires
        0 <= i <= ms.len(),
        forall|j: int| 0 <= j < i ==> ms[j].name != name,
        i == ms.len() || ms[i].name == name,
    ensures
        module_pos(ms, name) == if i == ms.len() {
            None
        } else {
            Some(i)
        },
    decreases ms.len(),
{
    if ms.len() > 0 {
        if i == ms.len() {
            lemma_module_pos(ms.drop_last(), name, i - 1);
        } else if i == ms.len() - 1 {
            lemma_module_pos(ms.drop_last(), name, i);
        } else {
            lemma_module_pos(ms.drop_last(), name, i);
        }
    }
}

/// The index of the first module named `name`.
pub fn find_module(ms: &Vec<ModuleInfo>, name: &String) -> (r: Option<usize>)
    ensures
        match r {
            Some(i) => i < ms@.len() && module_pos(mods(ms@), name@) == Some(i as int),
            None => module_pos(mods(ms@), name@) is None,
        },
{
    let mut i: usize = 0;
    while i < ms.len()
        invariant
            i <= ms@.len(),
            forall|j: int| 0 <= j < i ==> mods(ms@)[j].name != name@,
        decreases ms@.len() - i,
    {
        if ms[i].name == *name {
            proof {
                lemma_module_pos(mods(ms@), name@, i as int);
            }
            return Some(i);
        }
        i = i + 1;
    }
    proof {
        lemma_module_pos(mods(ms@), name@, i as int);
    }
    None
}

/// Whether `v` holds `x`.
fn holds_string(v: &Vec<String>, x: &String) -> (b: bool)
    ensures
        b == strs(v@).contains(x@),
{
    let mut i: usize = 0;
    while i < v.len()
        invariant
            i <= v@.len(),
            forall|j: int| 0 <= j < i ==> strs(v@)[j] != x@,
        decreases v@.len() - i,
    {
        if v[i] == *x {
            assert(strs(v@)[i as int] == x@);
            return true;
        }
        i = i + 1;
    }
    false
}

fn push_string(v: &mut Vec<String>, x: String)
    ensures
        strs(final(v)@) == strs(old(v)@).push(x@),
{
    v.push(x);
    assert(strs(v@) =~= strs(old(v)@).push(x@));
}

fn push_effect(v: &mut Vec<Effect>, e: Effect)
    ensures
        effs(final(v)@) == effs(old(v)@).push(e@),
{
    v.push(e);
    assert(effs(v@) =~= effs(old(v)@).push(e@));
}

fn copy_module(m: &ModuleInfo) -> (r: ModuleInfo)
    ensures
        r@ == m@,
{
    ModuleInfo { name: m.name.clone(), start_time: m.start_time, end_time: m.end_time, status: m.status }
}

fn set_module(ms: &mut Vec<ModuleInfo>, i: usize, m: ModuleInfo)
    requires
        i < old(ms)@.len(),
    ensures
        mods(final(ms)@) == mods(old(ms)@).update(i as int, m@),
{
    let ghost mv = m@;
    ms.set(i, m);
    assert(mods(ms@) =~= mods(old(ms)@).update(i as int, mv));
}

fn push_module(ms: &mut Vec<ModuleInfo>, m: ModuleInfo)
    ensures
        mods(final(ms)@) == mods(old(ms)@).push(m@),
{
    let ghost mv = m@;
    ms.push(m);
    assert(mods(ms@) =~= mods(old(ms)@).push(mv));
}

/// Appends the printed reactor build order to `effects`.
fn push_listing(effects: &mut Vec<Effect>, order: &Vec<String>)
    ensures
        effs(final(effects)@) == effs(old(effects)@) + reactor_listing(strs(order@)),
{
    broadcast use vstd::string::group_string_axioms;

    let ghost listing = reactor_listing(strs(order@));
    let ghost lines = Seq::new(
        order@.len(),
        |i: int| EffectModel::Print("  "@ + text::decimal((i + 1) as nat) + ". "@ + strs(order@)[i]),
    );
    push_effect(effects, Effect::Print("\nReactor Build Order:".to_string()));
    let ghost base = effs(effects@);
    let mut i: usize = 0;
    while i < order.len()
        invariant
            i <= order@.len(),
            lines.len() == order@.len(),
            forall|k: int| 0 <= k < order@.len() ==> #[trigger] lines[k] == EffectModel::Print(
                "  "@ + text::decimal((k + 1) as nat) + ". "@ + strs(order@)[k],
            ),
            effs(effects@) == base + lines.take(i as int),
        decreases order@.len() - i,
    {
        let mut v = chars_of("  ");
        push_decimal(&mut v, (i as u64) + 1);
        let dot = chars_of(". ");
        append_range(&mut v, &dot, 0, dot.len());
        let name = chars_of(order[i].as_str());
        append_range(&mut v, &name, 0, name.len());
        assert(dot@.subrange(0, dot@.len() as int) =~= dot@);
        assert(name@.subrange(0, name@.len() as int) =~= name@);
        assert(v@ =~= "  "@ + text::decimal((i + 1) as nat) + ". "@ + strs(order@)[i as int]);
        push_effect(effects, Effect::Print(string_of(&v)));
        assert(lines.take(i + 1) =~= lines.take(i as int).push(lines[i as int]));
        i = i + 1;
    }
    push_effect(effects, Effect::Print(String::new()));
    assert(lines.take(order@.len() as int) =~= lines);
    assert(effs(effects@) =~= effs(old(effects)@) + listing);
}

/// The module `name`, if there is one, seen done at `now` unless it was before.
fn close_module_exec(ms: &mut Vec<ModuleInfo>, name: &String, now: u64)
    ensures
        mods(final(ms)@) == close_module(mods(old(ms)@), name@, now),
{
    match find_module(ms, name) {
        Some(i) => {
            if ms[i].end_time.is_none() {
                let mut m = copy_module(&ms[i]);
                m.end_time = Some(now);
                assert(m@ == ModuleState { end: Some(now), ..mods(old(ms)@)[i as int] });
                set_module(ms, i, m);
            }
        },
        None => {},
    }
}

/// The module `name`, if there is one, seen done at `now` unless it was before, and
/// given `status`.
fn finish_module_exec(ms: &mut Vec<ModuleInfo>, name: &String, status: BuildStatus, now: u64)
    ensures
        mods(final(ms)@) == finish_module(mods(old(ms)@), name@, status, now),
{
    match find_module(ms, name) {
        Some(i) => {
            let mut m = copy_module(&ms[i]);
            if m.end_time.is_none() {
                m.end_time = Some(now);
            }
            m.status = status;
            set_module(ms, i, m);
        },
        None => {},
    }
}

/// `line` without the copies of `p` it starts with, as indices into `s`, the
/// characters of `line`.
fn strip_leading_exec(s: &Vec<char>, p: &Vec<char>) -> (i: usize)
    ensures
        i <= s@.len(),
        s@.subrange(i as int, s@.len() as int) == strip_leading(s@, p@),
{
    let n = s.len();
    let mut i: usize = 0;
    assert(s@.subrange(0, n as int) =~= s@);
    while p.len() > 0 && matches_at(s, p, i)
        invariant
            n == s@.len(),
            i <= n,
            strip_leading(s@, p@) == strip_leading(s@.subrange(i as int, n as int), p@),
        decreases n - i,
    {
        let ghost t = s@.subrange(i as int, n as int);
        assert(t.subrange(0, p@.len() as int) =~= s@.subrange(i as int, i + p@.len()));
        assert(t.subrange(p@.len() as int, t.len() as int) =~= s@.subrange(i + p@.len(), n as int));
        i = i + p.len();
    }
    let ghost t = s@.subrange(i as int, n as int);
    assert(p@.len() > 0 ==> !text::starts_with(t, p@)) by {
        if p@.len() > 0 && p@.len() <= t.len() {
            assert(t.subrange(0, p@.len() as int) =~= s@.subrange(i as int, i + p@.len()));
        }
    }
    i
}

impl BuildTracker {
    /// A tracker that has read no line.
    pub fn new() -> (t: Self)
        ensures
            t@ == initial_state(),
    {
        let t = BuildTracker {
            output: MvnOutput {
                reactor_order: Vec::new(),
                modules: Vec::new(),
                test_failures: Vec::new(),
                overall_status: BuildStatus::Building,
                overall_time: None,
                tests_run: 0,
                tests_failed: 0,
                tests_errored: 0,
                tests_skipped: 0,
                maven_errors: Vec::new(),
            },
            current_test_failure: None,
            in_failure_section: false,
            current_module: None,
            reactor_printed: false,
            printed_modules: Vec::new(),
        };
        assert(t@ =~= initial_state());
        t
    }

    /// A module starts building at `now`.
    fn start_module(&mut self, name: String, now: u64) -> (effects: Vec<Effect>)
        ensures
            final(self)@ == module_start_step(old(self)@, name@, now).0,
            effs(effects@) == module_start_step(old(self)@, name@, now).1,
    {
        broadcast use vstd::string::group_string_axioms;

        let ghost m = self@;
        let is_new = !holds_string(&self.output.reactor_order, &name);
        if is_new {
            push_string(&mut self.output.reactor_order, name.clone());
        }
        let mut effects: Vec<Effect> = Vec::new();
        assert(effs(effects@) =~= Seq::<EffectModel>::empty());
        if !self.reactor_printed && !is_new && self.output.reactor_order.len() == 1 {
            push_listing(&mut effects, &self.output.reactor_order);
            self.reactor_printed = true;
        }
        let ghost listed = effs(effects@);
        match self.current_module.take() {
            Some(prev) => {
                close_module_exec(&mut self.output.modules, &prev, now);
            },
            None => {},
        }
        let ghost closed = mods(self.output.modules@);
        let announce = !holds_string(&self.printed_modules, &name);
        if announce {
            push_effect(&mut effects, Effect::ClearSpinner);
            push_effect(&mut effects, Effect::Print(concat("> Building ", name.as_str())));
            push_string(&mut self.printed_modules, name.clone());
        }
        let i = match find_module(&self.output.modules, &name) {
            Some(i) => i,
            None => {
                let k = self.output.modules.len();
                push_module(
                    &mut self.output.modules,
                    ModuleInfo {
                        name: name.clone(),
                        start_time: None,
                        end_time: None,
                        status: BuildStatus::Building,
                    },
                );
                assert(mods(self.output.modules@).drop_last() =~= closed);
                k
            },
        };
        let mut started = copy_module(&self.output.modules[i]);
        started.start_time = Some(now);
        started.status = BuildStatus::Building;
        set_module(&mut self.output.modules, i, started);
        self.current_module = Some(name);
        assert(effs(effects@) =~= module_start_step(m, name@, now).1);
        assert(self@ =~= module_start_step(m, name@, now).0);
        effects
    }

    /// Whether every total stays within `u32` when `line` is read.
    pub fn fits(&self, line: &str) -> (b: bool)
        ensures
            b == step_fits(self@, line@),
    {
        let s = chars_of(line);
        if has_substring(&s, &chars_of("The Reactor build order:")) {
            return true;
        }
        if parse_reactor_module(line).is_some() {
            return true;
        }
        if parse_module_start(line).is_some() {
            return true;
        }
        if has_substring(&s, &chars_of("FAILURE")) && has_substring(&s, &chars_of("in")) {
            return true;
        }
        if self.in_failure_section {
            return true;
        }
        match parse_test_results(line) {
            Some((run, failed, errored, skipped)) => {
                run <= u32::MAX - self.output.tests_run && failed <= u32::MAX
                    - self.output.tests_failed && errored <= u32::MAX - self.output.tests_errored
                    && skipped <= u32::MAX - self.output.tests_skipped
            },
            None => true,
        }
    }

    /// Reads one line of Maven's output at `now`, in nanoseconds since the build started,
    /// and returns what is to be shown. The one `now` is both when a module that was
    /// building is seen done and when the next one starts.
    pub fn process_line(&mut self, line: &str, now: u64) -> (effects: Vec<Effect>)
        requires
            step_fits(old(self)@, line@),
        ensures
            final(self)@ == step(old(self)@, line@, now).0,
            effs(effects@) == step(old(self)@, line@, now).1,
    {
        let ghost m = self@;
        let s = chars_of(line);
        let no_effects: Vec<Effect> = Vec::new();
        assert(effs(no_effects@) =~= Seq::<EffectModel>::empty());
        if has_substring(&s, &chars_of("The Reactor build order:")) {
            return no_effects;
        }
        match parse_reactor_module(line) {
            Some(module) => {
                push_string(&mut self.output.reactor_order, module.clone());
                let fresh = ModuleInfo {
                    name: module,
                    start_time: None,
                    end_time: None,
                    status: BuildStatus::Building,
                };
                let ghost fresh_view = fresh@;
                match find_module(&self.output.modules, &fresh.name) {
                    Some(i) => {
                        set_module(&mut self.output.modules, i, fresh);
                    },
                    None => {
                        push_module(&mut self.output.modules, fresh);
                    },
                }
                assert(self@ =~= step(m, line@, now).0);
                return no_effects;
            },
            None => {},
        }
        match parse_module_start(line) {
            Some(name) => {
                return self.start_module(name, now);
            },
            None => {},
        }
        if has_substring(&s, &chars_of("FAILURE")) && has_substring(&s, &chars_of("in")) {
            self.in_failure_section = true;
            match parse_test_failure_header(line) {
                Some(failure) => {
                    self.current_test_failure = Some(failure);
                },
                None => {},
            }
            assert(self@ =~= step(m, line@, now).0);
            return no_effects;
        }
        if self.in_failure_section {
            let (a, b) = trim_bounds(&s, 0, s.len());
            assert(s@.subrange(0, s@.len() as int) =~= s@);
            if a == b {
                self.in_failure_section = false;
                match self.current_test_failure.take() {
                    Some(failure) => {
                        let ghost f = failure@;
                        self.output.test_failures.push(failure);
                        assert(fails(self.output.test_failures@) =~= m.test_failures.push(f));
                    },
                    None => {},
                }
            } else {
                match self.current_test_failure.take() {
                    Some(failure) => {
                        let mut failure = failure;
                        push_string(&mut failure.stack_trace, line.to_owned());
                        self.current_test_failure = Some(failure);
                    },
                    None => {},
                }
            }
            assert(self@ =~= step(m, line@, now).0);
            return no_effects;
        }
        match parse_test_results(line) {
            Some((run, failed, errored, skipped)) => {
                self.output.tests_run = self.output.tests_run + run;
                self.output.tests_failed = self.output.tests_failed + failed;
                self.output.tests_errored = self.output.tests_errored + errored;
                self.output.tests_skipped = self.output.tests_skipped + skipped;
                assert(self@ =~= step(m, line@, now).0);
                return no_effects;
            },
            None => {},
        }
        let error_tag = chars_of("[ERROR]");
        if matches_at(&s, &error_tag, 0) {
            let i = strip_leading_exec(&s, &error_tag);
            let (a, b) = trim_bounds(&s, i, s.len());
            let mut msg_chars: Vec<char> = Vec::new();
            append_range(&mut msg_chars, &s, a, b);
            let msg = string_of(&msg_chars);
            assert(msg@ == error_message(line@));
            if a < b && !holds_string(&self.output.maven_errors, &msg) {
                push_string(&mut self.output.maven_errors, msg);
            }
            assert(self@ =~= step(m, line@, now).0);
            return no_effects;
        }
        if has_substring(&s, &chars_of("BUILD SUCCESS")) {
            self.end_build(BuildStatus::Success, now);
            return no_effects;
        }
        if has_substring(&s, &chars_of("BUILD FAILURE")) {
            self.end_build(BuildStatus::Failure, now);
            return no_effects;
        }
        no_effects
    }

    /// Takes Maven's exit code into account once it has exited.
    pub fn finish(&mut self, exit_code: Option<i32>)
        ensures
            final(self)@ == after_exit(old(self)@, exit_code),
    {
        let exited_cleanly = match exit_code {
            Some(code) => code == 0,
            None => false,
        };
        if !exited_cleanly && self.output.overall_status == BuildStatus::Building {
            self.output.overall_status = BuildStatus::Failure;
        }
        assert(self@ =~= after_exit(old(self)@, exit_code));
    }

    /// The build ends with `status` at `now`.
    fn end_build(&mut self, status: BuildStatus, now: u64)
        ensures
            final(self)@ == build_end_step(old(self)@, status, now),
    {
        self.output.overall_status = status;
        match self.current_module.take() {
            Some(cur) => {
                finish_module_exec(&mut self.output.modules, &cur, status, now);
            },
            None => {},
        }
        self.output.overall_time = Some(now);
        assert(self@ =~= build_end_step(old(self)@, status, now));
    }
}


/// `s` holds no element twice.
pub open spec fn distinct<A>(s: Seq<A>) -> bool {
    forall|i: int, j: int| 0 <= i < j < s.len() ==> s[i] != s[j]
}

/// No two modules share a name.
pub open spec fn names_distinct(ms: Seq<ModuleState>) -> bool {
    forall|i: int, j: int| 0 <= i < j < ms.len() ==> ms[i].name != ms[j].name
}

/// What every state reached from the initial one keeps: each module is tracked once,
/// announced once, and each Maven error message is kept once and is not empty.
pub open spec fn well_formed(m: BuildState) -> bool {
    &&& names_distinct(m.modules)
    &&& distinct(m.printed_modules)
    &&& distinct(m.maven_errors)
    &&& forall|i: int| 0 <= i < m.maven_errors.len() ==> (#[trigger] m.maven_errors[i]).len() > 0
}

pub proof fn lemma_module_pos_facts(ms: Seq<ModuleState>, name: Seq<char>)
    ensures
        match module_pos(ms, name) {
            Some(i) => 0 <= i < ms.len() && ms[i].name == name,
            None => forall|k: int| 0 <= k < ms.len() ==> (#[trigger] ms[k]).name != name,
        },
    decreases ms.len(),
{
    if ms.len() > 0 {
        lemma_module_pos_facts(ms.drop_last(), name);
        assert forall|k: int| 0 <= k < ms.len() - 1 implies ms[k] == ms.drop_last()[k] by {}
    }
}

proof fn lemma_update_same_name(ms: Seq<ModuleState>, i: int, m: ModuleState)
    requires
        names_distinct(ms),
        0 <= i < ms.len(),
        m.name == ms[i].name,
    ensures
        names_distinct(ms.update(i, m)),
{
    assert forall|a: int, b: int| 0 <= a < b < ms.len() implies ms.update(i, m)[a].name != ms.update(
        i,
        m,
    )[b].name by {
        assert(ms.update(i, m)[a].name == ms[a].name);
        assert(ms.update(i, m)[b].name == ms[b].name);
    }
}

proof fn lemma_push_new_name(ms: Seq<ModuleState>, m: ModuleState)
    requires
        names_distinct(ms),
        module_pos(ms, m.name) is None,
    ensures
        names_distinct(ms.push(m)),
{
    lemma_module_pos_facts(ms, m.name);
    assert forall|a: int, b: int| 0 <= a < b < ms.len() + 1 implies ms.push(m)[a].name != ms.push(
        m,
    )[b].name by {
        if b == ms.len() {
            assert(ms[a].name != m.name);
        } else {
            assert(ms.push(m)[a] == ms[a]);
            assert(ms.push(m)[b] == ms[b]);
        }
    }
}

proof fn lemma_close_keeps_names(ms: Seq<ModuleState>, name: Seq<char>, now: u64)
    requires
        names_distinct(ms),
    ensures
        names_distinct(close_module(ms, name, now)),
        close_module(ms, name, now).len() == ms.len(),
        forall|k: int| 0 <= k < ms.len() ==> (#[trigger] close_module(ms, name, now)[k]).name == ms[k].name,
{
    lemma_module_pos_facts(ms, name);
    match module_pos(ms, name) {
        Some(i) => {
            if ms[i].end is None {
                lemma_update_same_name(ms, i, ModuleState { end: Some(now), ..ms[i] });
            }
        },
        None => {},
    }
}

proof fn lemma_finish_keeps_names(ms: Seq<ModuleState>, name: Seq<char>, status: BuildStatus, now: u64)
    requires
        names_distinct(ms),
    ensures
        names_distinct(finish_module(ms, name, status, now)),
{
    lemma_module_pos_facts(ms, name);
    match module_pos(ms, name) {
        Some(i) => {
            lemma_update_same_name(
                ms,
                i,
                ModuleState {
                    end: if ms[i].end is None {
                        Some(now)
                    } else {
                        ms[i].end
                    },
                    status,
                    ..ms[i]
                },
            );
        },
        None => {},
    }
}

proof fn lemma_push_distinct<A>(s: Seq<A>, x: A)
    requires
        distinct(s),
        !s.contains(x),
    ensures
        distinct(s.push(x)),
{
    assert forall|i: int, j: int| 0 <= i < j < s.len() + 1 implies s.push(x)[i] != s.push(x)[j] by {
        if j == s.len() {
            assert(s[i] != x);
        } else {
            assert(s.push(x)[i] == s[i]);
            assert(s.push(x)[j] == s[j]);
        }
    }
}

/// The state before the first line is well formed.
pub proof fn lemma_initial_well_formed()
    ensures
        well_formed(initial_state()),
{
}

/// Reading a line keeps a state well formed: a module is never tracked twice, a
/// module's start is announced once, and Maven's error messages are kept without
/// duplicates and without empty ones.
pub proof fn lemma_step_keeps_well_formed(m: BuildState, line: Seq<char>, now: u64)
    requires
        well_formed(m),
    ensures
        well_formed(step(m, line, now).0),
{
    let next = step(m, line, now).0;
    if text::contains(line, "The Reactor build order:"@) {
    } else if maven_line::reactor_module(line) is Some {
        let name = maven_line::reactor_module(line).unwrap();
        lemma_module_pos_facts(m.modules, name);
        match module_pos(m.modules, name) {
            Some(i) => lemma_update_same_name(m.modules, i, fresh_module(name)),
            None => lemma_push_new_name(m.modules, fresh_module(name)),
        }
    } else if maven_line::module_start_from(line, 0) is Some {
        let name = maven_line::module_start_from(line, 0).unwrap();
        let closed = match m.current_module {
            Some(prev) => close_module(m.modules, prev, now),
            None => m.modules,
        };
        match m.current_module {
            Some(prev) => lemma_close_keeps_names(m.modules, prev, now),
            None => {},
        }
        let tracked_modules = if module_pos(closed, name) is Some {
            closed
        } else {
            closed.push(fresh_module(name))
        };
        if module_pos(closed, name) is None {
            lemma_push_new_name(closed, fresh_module(name));
            assert(tracked_modules.drop_last() =~= closed);
        }
        lemma_module_pos_facts(tracked_modules, name);
        let i = module_pos(tracked_modules, name).unwrap();
        lemma_update_same_name(
            tracked_modules,
            i,
            ModuleState { start: Some(now), status: BuildStatus::Building, ..tracked_modules[i] },
        );
        if !m.printed_modules.contains(name) {
            lemma_push_distinct(m.printed_modules, name);
        }
    } else if text::contains(line, "FAILURE"@) && text::contains(line, "in"@) {
    } else if m.in_failure_section {
    } else if maven_line::test_counts(line) is Some {
    } else if text::starts_with(line, "[ERROR]"@) {
        let msg = error_message(line);
        if msg.len() > 0 && !m.maven_errors.contains(msg) {
            lemma_push_distinct(m.maven_errors, msg);
        }
    } else if text::contains(line, "BUILD SUCCESS"@) {
        match m.current_module {
            Some(cur) => lemma_finish_keeps_names(m.modules, cur, BuildStatus::Success, now),
            None => {},
        }
    } else if text::contains(line, "BUILD FAILURE"@) {
        match m.current_module {
            Some(cur) => lemma_finish_keeps_names(m.modules, cur, BuildStatus::Failure, now),
            None => {},
        }
    }
}

/// The test totals never go down, and what was once in the reactor order stays there,
/// in its place.
pub proof fn lemma_step_monotone(m: BuildState, line: Seq<char>, now: u64)
    requires
        step_fits(m, line),
    ensures
        step(m, line, now).0.tests_run >= m.tests_run,
        step(m, line, now).0.tests_failed >= m.tests_failed,
        step(m, line, now).0.tests_errored >= m.tests_errored,
        step(m, line, now).0.tests_skipped >= m.tests_skipped,
        step(m, line, now).0.reactor_order.len() >= m.reactor_order.len(),
        step(m, line, now).0.reactor_order.take(m.reactor_order.len() as int) == m.reactor_order,
        step(m, line, now).0.test_failures.take(m.test_failures.len() as int) == m.test_failures,
        step(m, line, now).0.maven_errors.take(m.maven_errors.len() as int) == m.maven_errors,
{
    let next = step(m, line, now).0;
    assert(next.reactor_order.take(m.reactor_order.len() as int) =~= m.reactor_order);
    assert(next.test_failures.take(m.test_failures.len() as int) =~= m.test_failures);
    assert(next.maven_errors.take(m.maven_errors.len() as int) =~= m.maven_errors);
}

/// Once Maven has exited, a build that was seen to end keeps its status; one that was
/// not stays building where Maven exited with 0, and has failed otherwise.
pub proof fn lemma_after_exit(m: BuildState, exit_code: Option<i32>)
    ensures
        m.overall_status != BuildStatus::Building ==> after_exit(m, exit_code).overall_status
            == m.overall_status,
        m.overall_status == BuildStatus::Building ==> after_exit(m, exit_code).overall_status == if exit_code
            == Some(0i32) {
            BuildStatus::Building
        } else {
            BuildStatus::Failure
        },
{
}


/// The module whose start `line` reports, where the line is read as such a report.
pub open spec fn started_module(line: Seq<char>) -> Option<Seq<char>> {
    if !text::contains(line, "The Reactor build order:"@) && maven_line::reactor_module(line) is None {
        maven_line::module_start_from(line, 0)
    } else {
        None
    }
}

/// Once the reactor order has been listed it stays listed, and a line then shows at
/// most the announcement of a module that was not announced before.
pub proof fn lemma_listed_once(m: BuildState, line: Seq<char>, now: u64)
    requires
        m.reactor_printed,
    ensures
        step(m, line, now).0.reactor_printed,
        step(m, line, now).1 == match started_module(line) {
            Some(name) => if m.printed_modules.contains(name) {
                Seq::<EffectModel>::empty()
            } else {
                seq![EffectModel::ClearSpinner, EffectModel::Print("> Building "@ + name)]
            },
            None => Seq::<EffectModel>::empty(),
        },
{
    match started_module(line) {
        Some(name) => {
            let r = module_start_step(m, name, now).1;
            if m.printed_modules.contains(name) {
                assert(r =~= Seq::<EffectModel>::empty());
            } else {
                assert(r =~= seq![EffectModel::ClearSpinner, EffectModel::Print("> Building "@ + name)]);
            }
        },
        None => {},
    }
}


/// A line that starts a module appends the module to the reactor order unless it is
/// there already, makes it the current module, tracks it as building since `now`,
/// and announces it the first time it starts.
pub proof fn lemma_module_start_effect(m: BuildState, line: Seq<char>, now: u64)
    requires
        started_module(line) is Some,
    ensures
        ({
            let n = started_module(line).unwrap();
            let (next, shown) = step(m, line, now);
            &&& next.reactor_order == if m.reactor_order.contains(n) {
                m.reactor_order
            } else {
                m.reactor_order.push(n)
            }
            &&& next.current_module == Some(n)
            &&& exists|i: int|
                0 <= i < next.modules.len() && next.modules[i].name == n && next.modules[i].start == Some(now)
                    && next.modules[i].status == BuildStatus::Building
            &&& next.printed_modules.contains(n)
            &&& !m.printed_modules.contains(n) ==> shown.contains(EffectModel::Print("> Building "@ + n))
            &&& next.tests_run == m.tests_run
            &&& next.maven_errors == m.maven_errors
        }),
{
    let n = started_module(line).unwrap();
    let (next, shown) = step(m, line, now);
    let closed = match m.current_module {
        Some(prev) => close_module(m.modules, prev, now),
        None => m.modules,
    };
    let tracked_modules = if module_pos(closed, n) is Some {
        closed
    } else {
        closed.push(fresh_module(n))
    };
    if module_pos(closed, n) is None {
        assert(tracked_modules.drop_last() =~= closed);
    }
    lemma_module_pos_facts(tracked_modules, n);
    let i = module_pos(tracked_modules, n).unwrap();
    assert(next.modules[i].name == n);
    if m.printed_modules.contains(n) {
    } else {
        assert(next.printed_modules[next.printed_modules.len() - 1] == n);
        let listing = if !m.reactor_printed && m.reactor_order.contains(n) && m.reactor_order.len() == 1 {
            reactor_listing(m.reactor_order)
        } else {
            seq![]
        };
        assert(shown[listing.len() as int + 1] == EffectModel::Print("> Building "@ + n));
    }
}

/// A reactor entry appends its module to the reactor order and tracks it afresh: not
/// started, not done, building.
pub proof fn lemma_reactor_entry_effect(m: BuildState, line: Seq<char>, now: u64)
    requires
        !text::contains(line, "The Reactor build order:"@),
        maven_line::reactor_module(line) is Some,
    ensures
        ({
            let n = maven_line::reactor_module(line).unwrap();
            let (next, shown) = step(m, line, now);
            &&& next.reactor_order == m.reactor_order.push(n)
            &&& exists|i: int|
                0 <= i < next.modules.len() && next.modules[i] == ModuleState {
                    name: n,
                    start: None,
                    end: None,
                    status: BuildStatus::Building,
                }
            &&& shown.len() == 0
        }),
{
    let n = maven_line::reactor_module(line).unwrap();
    lemma_module_pos_facts(m.modules, n);
    let next = step(m, line, now).0;
    match module_pos(m.modules, n) {
        Some(i) => {
            assert(next.modules[i] == fresh_module(n));
        },
        None => {
            assert(next.modules[m.modules.len() as int] == fresh_module(n));
        },
    }
}

/// A line of test totals adds its four numbers to the totals, and changes nothing
/// else.
pub proof fn lemma_counts_effect(m: BuildState, line: Seq<char>, now: u64)
    requires
        is_counts_line(m, line),
        step_fits(m, line),
    ensures
        ({
            let (run, failed, errored, skipped) = maven_line::test_counts(line).unwrap();
            let (next, shown) = step(m, line, now);
            &&& next.tests_run == m.tests_run + run
            &&& next.tests_failed == m.tests_failed + failed
            &&& next.tests_errored == m.tests_errored + errored
            &&& next.tests_skipped == m.tests_skipped + skipped
            &&& next.reactor_order == m.reactor_order
            &&& next.modules == m.modules
            &&& next.maven_errors == m.maven_errors
            &&& shown.len() == 0
        }),
{
}

/// A line that no check before the `[ERROR]` one takes.
pub open spec fn passes_early_checks(m: BuildState, line: Seq<char>) -> bool {
    &&& !text::contains(line, "The Reactor build order:"@)
    &&& maven_line::reactor_module(line) is None
    &&& maven_line::module_start_from(line, 0) is None
    &&& !(text::contains(line, "FAILURE"@) && text::contains(line, "in"@))
    &&& !m.in_failure_section
    &&& maven_line::test_counts(line) is None
}

/// An `[ERROR]` line adds its message (trimmed, without the leading `[ERROR]`s) to
/// Maven's errors where it is not empty and not there already, and changes nothing
/// else.
pub proof fn lemma_error_line_effect(m: BuildState, line: Seq<char>, now: u64)
    requires
        passes_early_checks(m, line),
        text::starts_with(line, "[ERROR]"@),
    ensures
        ({
            let msg = text::trim(strip_leading(line, "[ERROR]"@));
            let (next, shown) = step(m, line, now);
            &&& next == (BuildState {
                maven_errors: if msg.len() > 0 && !m.maven_errors.contains(msg) {
                    m.maven_errors.push(msg)
                } else {
                    m.maven_errors
                },
                ..m
            })
            &&& msg.len() > 0 ==> next.maven_errors.contains(msg)
            &&& shown.len() == 0
        }),
{
    let msg = text::trim(strip_leading(line, "[ERROR]"@));
    let next = step(m, line, now).0;
    if msg.len() > 0 && !m.maven_errors.contains(msg) {
        assert(next.maven_errors[m.maven_errors.len() as int] == msg);
    }
}

/// A line that reports the build's outcome ends the build: `BUILD SUCCESS` with
/// success, `BUILD FAILURE` with failure, at `now`. The module being built takes the
/// same status and, unless it was seen done before, ends at `now`; no module is
/// current any more, and nothing else changes.
pub proof fn lemma_outcome_line_effect(m: BuildState, line: Seq<char>, now: u64)
    requires
        passes_early_checks(m, line),
        !text::starts_with(line, "[ERROR]"@),
        text::contains(line, "BUILD SUCCESS"@) || text::contains(line, "BUILD FAILURE"@),
    ensures
        ({
            let status = if text::contains(line, "BUILD SUCCESS"@) {
                BuildStatus::Success
            } else {
                BuildStatus::Failure
            };
            let (next, shown) = step(m, line, now);
            &&& next.overall_status == status
            &&& next.overall_time == Some(now)
            &&& next.current_module is None
            &&& next.modules.len() == m.modules.len()
            &&& forall|i: int|
                0 <= i < m.modules.len() ==> #[trigger] next.modules[i] == if m.current_module == Some(
                    m.modules[i].name,
                ) && module_pos(m.modules, m.modules[i].name) == Some(i) {
                    ModuleState {
                        end: if m.modules[i].end is None {
                            Some(now)
                        } else {
                            m.modules[i].end
                        },
                        status,
                        ..m.modules[i]
                    }
                } else {
                    m.modules[i]
                }
            &&& next.reactor_order == m.reactor_order
            &&& next.maven_errors == m.maven_errors
            &&& next.test_failures == m.test_failures
            &&& next.tests_run == m.tests_run
            &&& next.printed_modules == m.printed_modules
            &&& shown.len() == 0
        }),
{
    let next = step(m, line, now).0;
    match m.current_module {
        Some(c) => {
            lemma_module_pos_facts(m.modules, c);
            match module_pos(m.modules, c) {
                Some(j) => {
                    assert forall|i: int| 0 <= i < m.modules.len() && i != j implies !(m.current_module == Some(
                        m.modules[i].name,
                    ) && module_pos(m.modules, m.modules[i].name) == Some(i)) by {}
                },
                None => {
                    assert forall|i: int| 0 <= i < m.modules.len() implies !(m.current_module == Some(
                        m.modules[i].name,
                    ) && module_pos(m.modules, m.modules[i].name) == Some(i)) by {}
                },
            }
        },
        None => {},
    }
}

/// A line that holds `FAILURE` and `in` opens a test failure with nothing gathered
/// yet; within it, each line that is not blank is gathered, and a blank line closes
/// it, adding what was gathered to the test failures.
pub proof fn lemma_failure_section_effect(m: BuildState, line: Seq<char>, now: u64)
    requires
        !text::contains(line, "The Reactor build order:"@),
        maven_line::reactor_module(line) is None,
        maven_line::module_start_from(line, 0) is None,
    ensures
        ({
            let (next, shown) = step(m, line, now);
            &&& text::contains(line, "FAILURE"@) && text::contains(line, "in"@) ==> next == (BuildState {
                in_failure_section: true,
                current_test_failure: Some(Seq::<Seq<char>>::empty()),
                ..m
            })
            &&& !(text::contains(line, "FAILURE"@) && text::contains(line, "in"@)) && m.in_failure_section
                && text::trim(line).len() > 0 ==> next == (BuildState {
                current_test_failure: match m.current_test_failure {
                    Some(f) => Some(f.push(line)),
                    None => None,
                },
                ..m
            })
            &&& !(text::contains(line, "FAILURE"@) && text::contains(line, "in"@)) && m.in_failure_section
                && text::trim(line).len() == 0 ==> next == (BuildState {
                in_failure_section: false,
                current_test_failure: None,
                test_failures: match m.current_test_failure {
                    Some(f) => m.test_failures.push(f),
                    None => m.test_failures,
                },
                ..m
            })
            &&& shown.len() == 0
        }),
{
}

/// What a line that starts module `n` shows: in a single-module build, the first time
/// its only module starts, the reactor order (a heading after an empty line, `  1. `
/// and the module's name, an empty line); then, the first time `n` starts, its
/// announcement after the spinner's line is cleared. Nothing else.
pub proof fn lemma_module_start_shows(m: BuildState, line: Seq<char>, now: u64)
    requires
        started_module(line) is Some,
    ensures
        ({
            let n = started_module(line).unwrap();
            let (next, shown) = step(m, line, now);
            &&& shown == (if !m.reactor_printed && m.reactor_order == seq![n] {
                seq![
                    EffectModel::Print("\nReactor Build Order:"@),
                    EffectModel::Print("  1. "@ + n),
                    EffectModel::Print(Seq::<char>::empty()),
                ]
            } else {
                Seq::<EffectModel>::empty()
            }) + (if !m.printed_modules.contains(n) {
                seq![EffectModel::ClearSpinner, EffectModel::Print("> Building "@ + n)]
            } else {
                Seq::<EffectModel>::empty()
            })
            &&& next.reactor_printed == (m.reactor_printed || m.reactor_order == seq![n])
        }),
{
    let n = started_module(line).unwrap();
    reveal_strlit("  1. ");
    reveal_strlit("  ");
    reveal_strlit(". ");
    assert(text::decimal(1) == seq!['1']);
    assert("  1. "@ =~= "  "@ + text::decimal(1) + ". "@);
    let listed = m.reactor_order.contains(n) && m.reactor_order.len() == 1;
    if listed {
        assert(m.reactor_order[0] == n);
        assert(m.reactor_order =~= seq![n]);
    }
    if m.reactor_order == seq![n] {
        assert(m.reactor_order[0] == n);
        assert(listed);
    }
    let listing = reactor_listing(m.reactor_order);
    if !m.reactor_printed && listed {
        assert(listing =~= seq![
            EffectModel::Print("\nReactor Build Order:"@),
            EffectModel::Print("  1. "@ + n),
            EffectModel::Print(Seq::<char>::empty()),
        ]);
    }
}

} // verus!
