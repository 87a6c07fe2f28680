use vstd::prelude::*;

use crate::maven_line;
use crate::progress;
use crate::maven_line::parse_unsigned;
use crate::progress::strs;
use crate::text::chars_of;

verus! {

/// What the command line asks for.
pub enum CommandModel {
    /// Show the usage.
    Help,
    /// Show the help of the Maven command `maven`.
    MavenHelp(Seq<char>),
    /// No argument is left for Maven.
    MissingArguments,
    /// Run the Maven command with its arguments.
    Run {
        maven: Seq<char>,
        args: Seq<Seq<char>>,
        log_file: Option<Seq<char>>,
        show_jokes: bool,
        joke_interval: u64,
        clipboard: bool,
    },
}

/// `args` without any copy of `x`.
pub open spec fn without(args: Seq<Seq<char>>, x: Seq<char>) -> Seq<Seq<char>>
    decreases args.len(),
{
    if args.len() == 0 {
        seq![]
    } else if args.last() == x {
        without(args.drop_last(), x)
    } else {
        without(args.drop_last(), x).push(args.last())
    }
}

/// The index of the first argument that is `a` or `b`.
pub open spec fn arg_pos(args: Seq<Seq<char>>, a: Seq<char>, b: Seq<char>) -> Option<int>
    decreases args.len(),
{
    if args.len() == 0 {
        None
    } else {
        match arg_pos(args.drop_last(), a, b) {
            Some(i) => Some(i),
            None => if args.last() == a || args.last() == b {
                Some(args.len() - 1)
            } else {
                None
            },
        }
    }
}

/// The log file named after the first `-l` or `--log-file`, and the arguments without
/// the option and its value.
pub open spec fn take_log_file(args: Seq<Seq<char>>) -> (Option<Seq<char>>, Seq<Seq<char>>) {
    match arg_pos(args, "-l"@, "--log-file"@) {
        Some(p) => if p + 1 < args.len() {
            (Some(args[p + 1]), args.remove(p + 1).remove(p))
        } else {
            (None, args.remove(p))
        },
        None => (None, args),
    }
}

/// The joke interval given after the first `-ji` where it reads as a `u64` (30
/// seconds otherwise), and the arguments without the option and that value.
pub open spec fn take_joke_interval(args: Seq<Seq<char>>) -> (u64, Seq<Seq<char>>) {
    match arg_pos(args, "-ji"@, "-ji"@) {
        Some(p) => if p + 1 < args.len() && maven_line::parse_decimal(args[p + 1], u64::MAX as nat) is Some {
            (
                maven_line::parse_decimal(args[p + 1], u64::MAX as nat).unwrap() as u64,
                args.remove(p + 1).remove(p),
            )
        } else {
            (30, args.remove(p))
        },
        None => (30, args),
    }
}

/// What the arguments after the program's name ask for.
pub open spec fn command(args: Seq<Seq<char>>) -> CommandModel {
    if args.contains("-h"@) || args.contains("--help"@) {
        CommandModel::Help
    } else {
        let use_mvnd = args.contains("--mvnd"@);
        let a1 = without(args, "--mvnd"@);
        let maven = if use_mvnd {
            "mvnd"@
        } else {
            "mvn"@
        };
        if a1.contains("--mvnhelp"@) {
            CommandModel::MavenHelp(maven)
        } else {
            let (log_file, a2) = take_log_file(a1);
            let has_ji = a2.contains("-ji"@);
            let (joke_interval, a3) = take_joke_interval(a2);
            let show_jokes = a3.contains("-j"@) || has_ji;
            let a4 = without(a3, "-j"@);
            let clipboard = a4.contains("--clip"@);
            let a5 = without(a4, "--clip"@);
            if a5.len() == 0 {
                CommandModel::MissingArguments
            } else {
                CommandModel::Run { maven, args: a5, log_file, show_jokes, joke_interval, clipboard }
            }
        }
    }
}

/// What the command line asks for.
pub enum Command {
    Help,
    MavenHelp(String),
    MissingArguments,
    Run(RunOptions),
}

/// How to run Maven.
pub struct RunOptions {
    pub maven: String,
    pub args: Vec<String>,
    pub log_file: Option<String>,
    pub show_jokes: bool,
    pub joke_interval: u64,
    pub clipboard: bool,
}

impl View for Command {
    type V = CommandModel;

    open spec fn view(&self) -> CommandModel {
        match self {
            Command::Help => CommandModel::Help,
            Command::MavenHelp(m) => CommandModel::MavenHelp(m@),
            Command::MissingArguments => CommandModel::MissingArguments,
            Command::Run(o) => CommandModel::Run {
                maven: o.maven@,
                args: progress::strs(o.args@),
                log_file: maven_line::chars_opt(o.log_file),
                show_jokes: o.show_jokes,
                joke_interval: o.joke_interval,
                clipboard: o.clipboard,
            },
        }
    }
}


/// Whether `a` is `lit`.
fn is_arg(a: &String, lit: &str) -> (b: bool)
    ensures
        b == (a@ == lit@),
{
    broadcast use vstd::string::group_string_axioms;

    let l = lit.to_string();
    *a == l
}

/// Whether one of `args` is `lit`.
fn holds_arg(args: &Vec<String>, lit: &str) -> (b: bool)
    ensures
        b == strs(args@).contains(lit@),
{
    let mut i: usize = 0;
    while i < args.len()
        invariant
            i <= args@.len(),
            forall|j: int| 0 <= j < i ==> strs(args@)[j] != lit@,
        decreases args@.len() - i,
    {
        if is_arg(&args[i], lit) {
            assert(strs(args@)[i as int] == lit@);
            return true;
        }
        i = i + 1;
    }
    false
}

/// `args` without any copy of `lit`, as `Vec::retain` leaves them.
fn without_arg(args: Vec<String>, lit: &str) -> (r: Vec<String>)
    ensures
        strs(r@) == without(strs(args@), lit@),
{
    let mut r: Vec<String> = Vec::new();
    let mut i: usize = 0;
    let ghost all = strs(args@);
    assert(strs(r@) =~= without(all.take(0), lit@));
    while i < args.len()
        invariant
            i <= args@.len(),
            all == strs(args@),
            strs(r@) == without(all.take(i as int), lit@),
        decreases args@.len() - i,
    {
        assert(all.take(i + 1).drop_last() =~= all.take(i as int));
        assert(all.take(i + 1).last() == args@[i as int]@);
        if !is_arg(&args[i], lit) {
            r.push(args[i].clone());
            assert(strs(r@) =~= without(all.take(i as int), lit@).push(args@[i as int]@));
        }
        i = i + 1;
    }
    assert(all.take(args@.len() as int) =~= all);
    r
}

proof fn lemma_arg_pos(args: Seq<Seq<char>>, a: Seq<char>, b: Seq<char>, i: int)
    requires
        0 <= i <= args.len(),
        forall|j: int| 0 <= j < i ==> args[j] != a && args[j] != b,
        i == args.len() || args[i] == a || args[i] == b,
    ensures
        arg_pos(args, a, b) == if i == args.len() {
            None
        } else {
            Some(i)
        },
    decreases args.len(),
{
    if args.len() > 0 {
        if i == args.len() {
            lemma_arg_pos(args.drop_last(), a, b, i - 1);
        } else {
            lemma_arg_pos(args.drop_last(), a, b, i);
        }
    }
}

/// The index of the first argument that is `a` or `b`.
fn find_arg(args: &Vec<String>, a: &str, b: &str) -> (r: Option<usize>)
    ensures
        match r {
            Some(i) => i < args@.len() && arg_pos(strs(args@), a@, b@) == Some(i as int),
            None => arg_pos(strs(args@), a@, b@) is None,
        },
{
    let mut i: usize = 0;
    while i < args.len()
        invariant
            i <= args@.len(),
            forall|j: int| 0 <= j < i ==> strs(args@)[j] != a@ && strs(args@)[j] != b@,
        decreases args@.len() - i,
    {
        if is_arg(&args[i], a) || is_arg(&args[i], b) {
            proof {
                lemma_arg_pos(strs(args@), a@, b@, i as int);
            }
            return Some(i);
        }
        i = i + 1;
    }
    proof {
        lemma_arg_pos(strs(args@), a@, b@, i as int);
    }
    None
}

fn remove_arg(args: &mut Vec<String>, i: usize)
    requires
        i < old(args)@.len(),
    ensures
        strs(final(args)@) == strs(old(args)@).remove(i as int),
{
    args.remove(i);
    assert(strs(args@) =~= strs(old(args)@).remove(i as int));
}

/// Reads the arguments given after the program's name: `-h` or `--help` asks for the
/// usage; `--mvnd` runs `mvnd` in place of `mvn`; `--mvnhelp` asks for Maven's help;
/// `-l` or `--log-file` names a file for Maven's output; `-j` shows jokes during the
/// build, and `-ji` with a number of seconds shows them at that interval; `--clip`
/// copies a single failure's stack trace. The rest goes to Maven.
pub fn parse_args(args: Vec<String>) -> (c: Command)
    ensures
        c@ == command(strs(args@)),
{
    broadcast use vstd::string::group_string_axioms;

    if holds_arg(&args, "-h") || holds_arg(&args, "--help") {
        return Command::Help;
    }
    let use_mvnd = holds_arg(&args, "--mvnd");
    let mut args = without_arg(args, "--mvnd");
    let maven = if use_mvnd {
        "mvnd".to_string()
    } else {
        "mvn".to_string()
    };
    if holds_arg(&args, "--mvnhelp") {
        return Command::MavenHelp(maven);
    }
    let ghost a1 = strs(args@);
    let mut log_file: Option<String> = None;
    match find_arg(&args, "-l", "--log-file") {
        Some(pos) => {
            if pos < args.len() - 1 {
                log_file = Some(args[pos + 1].clone());
                remove_arg(&mut args, pos + 1);
            }
            remove_arg(&mut args, pos);
        },
        None => {},
    }
    assert(take_log_file(a1) == (maven_line::chars_opt(log_file), strs(args@)));
    let ghost a2 = strs(args@);
    let has_ji = holds_arg(&args, "-ji");
    let mut joke_interval: u64 = 30;
    match find_arg(&args, "-ji", "-ji") {
        Some(pos) => {
            if pos < args.len() - 1 {
                let value = chars_of(args[pos + 1].as_str());
                match parse_unsigned(&value, 0, value.len(), u64::MAX) {
                    Some(interval) => {
                        assert(value@.subrange(0, value@.len() as int) =~= value@);
                        joke_interval = interval;
                        remove_arg(&mut args, pos + 1);
                    },
                    None => {
                        assert(value@.subrange(0, value@.len() as int) =~= value@);
                    },
                }
            }
            remove_arg(&mut args, pos);
        },
        None => {},
    }
    assert(take_joke_interval(a2) == (joke_interval, strs(args@)));
    let show_jokes = holds_arg(&args, "-j") || has_ji;
    let args = without_arg(args, "-j");
    let clipboard = holds_arg(&args, "--clip");
    let args = without_arg(args, "--clip");
    if args.len() == 0 {
        return Command::MissingArguments;
    }
    Command::Run(RunOptions { maven, args, log_file, show_jokes, joke_interval, clipboard })
}


proof fn lemma_without(args: Seq<Seq<char>>, x: Seq<char>, y: Seq<char>)
    ensures
        !without(args, x).contains(x),
        !args.contains(y) ==> !without(args, x).contains(y),
    decreases args.len(),
{
    if args.len() > 0 {
        lemma_without(args.drop_last(), x, y);
        let w = without(args.drop_last(), x);
        if !args.contains(y) {
            assert(!args.drop_last().contains(y)) by {
                if args.drop_last().contains(y) {
                    let k = choose|k: int| 0 <= k < args.drop_last().len() && args.drop_last()[k] == y;
                    assert(args[k] == y);
                }
            }
        }
        if args.last() != x {
            assert forall|k: int| 0 <= k < w.push(args.last()).len() implies w.push(args.last())[k] != x by {
                if k < w.len() {
                    assert(w.push(args.last())[k] == w[k]);
                }
            }
            if !args.contains(y) {
                assert(args[args.len() - 1] != y);
                assert forall|k: int| 0 <= k < w.push(args.last()).len() implies w.push(args.last())[k] != y by {
                    if k < w.len() {
                        assert(w.push(args.last())[k] == w[k]);
                    }
                }
            }
        }
    }
}

proof fn lemma_remove_keeps_out(args: Seq<Seq<char>>, i: int, y: Seq<char>)
    requires
        0 <= i < args.len(),
        !args.contains(y),
    ensures
        !args.remove(i).contains(y),
{
    assert forall|k: int| 0 <= k < args.remove(i).len() implies args.remove(i)[k] != y by {
        if k < i {
            assert(args.remove(i)[k] == args[k]);
        } else {
            assert(args.remove(i)[k] == args[k + 1]);
        }
    }
}

proof fn lemma_takes_keep_out(args: Seq<Seq<char>>, y: Seq<char>)
    requires
        !args.contains(y),
    ensures
        !take_log_file(args).1.contains(y),
        !take_joke_interval(args).1.contains(y),
{
    match arg_pos(args, "-l"@, "--log-file"@) {
        Some(p) => {
            lemma_arg_pos_facts(args, "-l"@, "--log-file"@);
            lemma_remove_keeps_out(args, p, y);
            if p + 1 < args.len() {
                lemma_remove_keeps_out(args, p + 1, y);
                lemma_remove_keeps_out(args.remove(p + 1), p, y);
            }
        },
        None => {},
    }
    match arg_pos(args, "-ji"@, "-ji"@) {
        Some(p) => {
            lemma_arg_pos_facts(args, "-ji"@, "-ji"@);
            lemma_remove_keeps_out(args, p, y);
            if p + 1 < args.len() {
                lemma_remove_keeps_out(args, p + 1, y);
                lemma_remove_keeps_out(args.remove(p + 1), p, y);
            }
        },
        None => {},
    }
}

proof fn lemma_arg_pos_facts(args: Seq<Seq<char>>, a: Seq<char>, b: Seq<char>)
    ensures
        arg_pos(args, a, b) matches Some(p) ==> 0 <= p < args.len(),
    decreases args.len(),
{
    if args.len() > 0 {
        lemma_arg_pos_facts(args.drop_last(), a, b);
    }
}

/// The options that the wrapper itself reads never reach Maven: the arguments it
/// runs Maven with hold no `--mvnd`, `-j`, `--clip`, `-h`, `--help` or `--mvnhelp`;
/// and `-ji` shows jokes as `-j` does.
pub proof fn lemma_run_args_clean(args: Seq<Seq<char>>)
    ensures
        command(args) matches CommandModel::Run { args: rest, .. } ==> {
            &&& !rest.contains("--mvnd"@)
            &&& !rest.contains("-j"@)
            &&& !rest.contains("--clip"@)
            &&& !rest.contains("-h"@)
            &&& !rest.contains("--help"@)
            &&& !rest.contains("--mvnhelp"@)
        },
        command(args) matches CommandModel::Run { show_jokes, .. } ==> (take_log_file(
            without(args, "--mvnd"@),
        ).1.contains("-ji"@) ==> show_jokes),
{
    if !(args.contains("-h"@) || args.contains("--help"@)) {
        let a1 = without(args, "--mvnd"@);
        if !a1.contains("--mvnhelp"@) {
            let a2 = take_log_file(a1).1;
            let a3 = take_joke_interval(a2).1;
            let a4 = without(a3, "-j"@);
            let a5 = without(a4, "--clip"@);
            let words = seq!["--mvnd"@, "-h"@, "--help"@, "--mvnhelp"@];
            assert forall|i: int| 0 <= i < 4 implies !a5.contains(#[trigger] words[i]) by {
                let y = words[i];
                lemma_without(args, "--mvnd"@, y);
                if i == 1 || i == 2 {
                    assert(!args.contains(y));
                }
                assert(!a1.contains(y));
                lemma_takes_keep_out(a1, y);
                lemma_takes_keep_out(a2, y);
                lemma_without(a3, "-j"@, y);
                lemma_without(a4, "--clip"@, y);
            }
            assert(!a5.contains(words[0]));
            assert(!a5.contains(words[1]));
            assert(!a5.contains(words[2]));
            assert(!a5.contains(words[3]));
            lemma_without(a3, "-j"@, "--clip"@);
            lemma_without(a4, "--clip"@, "-j"@);
            lemma_without(a4, "--clip"@, "--clip"@);
        }
    }
}

/// A word that the wrapper reads as one of its own options.
pub open spec fn is_option_word(w: Seq<char>) -> bool {
    ||| w == "-h"@
    ||| w == "--help"@
    ||| w == "--mvnd"@
    ||| w == "--mvnhelp"@
    ||| w == "-l"@
    ||| w == "--log-file"@
    ||| w == "-ji"@
    ||| w == "-j"@
    ||| w == "--clip"@
}

proof fn lemma_without_absent(s: Seq<Seq<char>>, x: Seq<char>)
    requires
        !s.contains(x),
    ensures
        without(s, x) == s,
    decreases s.len(),
{
    if s.len() > 0 {
        assert(!s.drop_last().contains(x)) by {
            if s.drop_last().contains(x) {
                let k = choose|k: int| 0 <= k < s.drop_last().len() && s.drop_last()[k] == x;
                assert(s[k] == x);
            }
        }
        lemma_without_absent(s.drop_last(), x);
        assert(s[s.len() - 1] != x);
        assert(s.drop_last().push(s.last()) =~= s);
    }
}

/// `-l` and `--log-file` are read alike: either, put before a file name and
/// arguments that hold none of the wrapper's options, names the log file and leaves
/// those arguments to Maven, run with `mvn`, no jokes and no clipboard.
pub proof fn lemma_log_file_option(opt: Seq<char>, f: Seq<char>, rest: Seq<Seq<char>>)
    requires
        opt == "-l"@ || opt == "--log-file"@,
        f != "-h"@,
        f != "--help"@,
        f != "--mvnd"@,
        f != "--mvnhelp"@,
        plain_args(rest),
    ensures
        command(seq![opt, f] + rest) == if rest.len() == 0 {
            CommandModel::MissingArguments
        } else {
            CommandModel::Run {
                maven: "mvn"@,
                args: rest,
                log_file: Some(f),
                show_jokes: false,
                joke_interval: 30,
                clipboard: false,
            }
        },
{
    reveal_strlit("-h");
    reveal_strlit("--help");
    reveal_strlit("--mvnd");
    reveal_strlit("--mvnhelp");
    reveal_strlit("-l");
    reveal_strlit("--log-file");
    reveal_strlit("-ji");
    reveal_strlit("-j");
    reveal_strlit("--clip");
    let args = seq![opt, f] + rest;
    assert forall|k: int| 0 <= k < args.len() implies args[k] != "-h"@ && args[k] != "--help"@
        && args[k] != "--mvnd"@ && args[k] != "--mvnhelp"@ by {
        if k >= 2 {
            assert(args[k] == rest[k - 2]);
        } else if k == 0 {
            assert(("-l"@)[1] != ("-h"@)[1]);
            assert(("--log-file"@)[2] != ("--help"@)[2]);
            assert(("--log-file"@)[2] != ("--mvnd"@)[2]);
            assert(("--log-file"@)[2] != ("--mvnhelp"@)[2]);
        }
    }
    assert(!args.contains("-h"@));
    assert(!args.contains("--help"@));
    assert(!args.contains("--mvnd"@));
    assert(!args.contains("--mvnhelp"@));
    lemma_without_absent(args, "--mvnd"@);
    lemma_arg_pos(args, "-l"@, "--log-file"@, 0);
    assert(args.remove(1).remove(0) =~= rest);
    assert(take_log_file(args) == (Some(f), rest));
    assert(!rest.contains("-ji"@));
    assert(!rest.contains("-j"@));
    assert(!rest.contains("--clip"@));
    lemma_arg_pos(rest, "-ji"@, "-ji"@, rest.len() as int);
    assert(take_joke_interval(rest) == (30u64, rest));
    lemma_without_absent(rest, "-j"@);
    lemma_without_absent(rest, "--clip"@);
}

/// `w`, with `--log-file` read as `-l`.
pub open spec fn short_log_option(w: Seq<char>) -> Seq<char> {
    if w == "--log-file"@ {
        "-l"@
    } else {
        w
    }
}

/// `args`, with each `--log-file` read as `-l`.
pub open spec fn short_log_options(args: Seq<Seq<char>>) -> Seq<Seq<char>> {
    args.map_values(|w: Seq<char>| short_log_option(w))
}

/// `c`, with each `--log-file` that it hands on read as `-l`.
pub open spec fn short_log_command(c: CommandModel) -> CommandModel {
    match c {
        CommandModel::Run { maven, args, log_file, show_jokes, joke_interval, clipboard } => CommandModel::Run {
            maven,
            args: short_log_options(args),
            log_file: match log_file {
                Some(f) => Some(short_log_option(f)),
                None => None,
            },
            show_jokes,
            joke_interval,
            clipboard,
        },
        _ => c,
    }
}

proof fn lemma_short_contains(s: Seq<Seq<char>>, y: Seq<char>)
    requires
        y != "-l"@,
        y != "--log-file"@,
    ensures
        short_log_options(s).contains(y) == s.contains(y),
{
    if s.contains(y) {
        let k = choose|k: int| 0 <= k < s.len() && s[k] == y;
        assert(short_log_options(s)[k] == y);
    }
    if short_log_options(s).contains(y) {
        let k = choose|k: int| 0 <= k < short_log_options(s).len() && short_log_options(s)[k] == y;
        assert(s[k] == y);
    }
}

proof fn lemma_short_without(s: Seq<Seq<char>>, x: Seq<char>)
    requires
        x != "-l"@,
        x != "--log-file"@,
    ensures
        without(short_log_options(s), x) == short_log_options(without(s, x)),
    decreases s.len(),
{
    if s.len() > 0 {
        lemma_short_without(s.drop_last(), x);
        assert(short_log_options(s).drop_last() =~= short_log_options(s.drop_last()));
        let w = without(s.drop_last(), x);
        assert(short_log_options(w.push(s.last())) =~= short_log_options(w).push(
            short_log_option(s.last()),
        ));
    }
}

proof fn lemma_short_arg_pos(s: Seq<Seq<char>>, a: Seq<char>, b: Seq<char>)
    requires
        (a == "-l"@ && b == "--log-file"@) || (a != "-l"@ && a != "--log-file"@ && b != "-l"@ && b
            != "--log-file"@),
    ensures
        arg_pos(short_log_options(s), a, b) == arg_pos(s, a, b),
    decreases s.len(),
{
    if s.len() > 0 {
        lemma_short_arg_pos(s.drop_last(), a, b);
        assert(short_log_options(s).drop_last() =~= short_log_options(s.drop_last()));
    }
}

proof fn lemma_short_remove(s: Seq<Seq<char>>, i: int)
    requires
        0 <= i < s.len(),
    ensures
        short_log_options(s.remove(i)) == short_log_options(s).remove(i),
{
    assert(short_log_options(s.remove(i)) =~= short_log_options(s).remove(i));
}

proof fn lemma_short_take_log_file(s: Seq<Seq<char>>)
    ensures
        take_log_file(short_log_options(s)) == (
            match take_log_file(s).0 {
                Some(f) => Some(short_log_option(f)),
                None => None,
            },
            short_log_options(take_log_file(s).1),
        ),
{
    lemma_short_arg_pos(s, "-l"@, "--log-file"@);
    lemma_arg_pos_facts(s, "-l"@, "--log-file"@);
    match arg_pos(s, "-l"@, "--log-file"@) {
        Some(p) => {
            lemma_short_remove(s, p);
            if p + 1 < s.len() {
                lemma_short_remove(s, p + 1);
                lemma_short_remove(s.remove(p + 1), p);
            }
        },
        None => {},
    }
}

proof fn lemma_short_parse(w: Seq<char>)
    ensures
        maven_line::parse_decimal(short_log_option(w), u64::MAX as nat) == maven_line::parse_decimal(
            w,
            u64::MAX as nat,
        ),
{
    if w == "--log-file"@ {
        reveal_strlit("-l");
        reveal_strlit("--log-file");
        assert(!maven_line::all_ascii_digits("-l"@)) by {
            assert(!crate::text::is_ascii_digit(("-l"@)[0]));
        }
        assert(!maven_line::all_ascii_digits("--log-file"@)) by {
            assert(!crate::text::is_ascii_digit(("--log-file"@)[0]));
        }
    }
}

proof fn lemma_short_take_joke_interval(s: Seq<Seq<char>>)
    ensures
        take_joke_interval(short_log_options(s)) == (
            take_joke_interval(s).0,
            short_log_options(take_joke_interval(s).1),
        ),
{
    reveal_strlit("-l");
    reveal_strlit("--log-file");
    reveal_strlit("-ji");
    assert(("-ji"@)[1] != ("-l"@)[1]);
    assert(("-ji"@).len() != ("--log-file"@).len());
    lemma_short_arg_pos(s, "-ji"@, "-ji"@);
    lemma_arg_pos_facts(s, "-ji"@, "-ji"@);
    match arg_pos(s, "-ji"@, "-ji"@) {
        Some(p) => {
            lemma_short_remove(s, p);
            if p + 1 < s.len() {
                lemma_short_parse(s[p + 1]);
                lemma_short_remove(s, p + 1);
                lemma_short_remove(s.remove(p + 1), p);
            }
        },
        None => {},
    }
}

/// `-l` and `--log-file` are read alike: reading every `--log-file` on the command
/// line as `-l` changes the command only in that the same reading applies to what it
/// hands on (the log file's name and Maven's arguments).
pub proof fn lemma_log_file_spellings(args: Seq<Seq<char>>)
    ensures
        command(short_log_options(args)) == short_log_command(command(args)),
{
    reveal_strlit("-h");
    reveal_strlit("--help");
    reveal_strlit("--mvnd");
    reveal_strlit("--mvnhelp");
    reveal_strlit("-l");
    reveal_strlit("--log-file");
    reveal_strlit("-ji");
    reveal_strlit("-j");
    reveal_strlit("--clip");
    assert(("-h"@)[1] != ("-l"@)[1]);
    assert(("-j"@)[1] != ("-l"@)[1]);
    assert(("-ji"@)[1] != ("-l"@)[1]);
    assert(("--help"@).len() != ("--log-file"@).len());
    assert(("--mvnd"@).len() != ("--log-file"@).len());
    assert(("--mvnhelp"@).len() != ("--log-file"@).len());
    assert(("--clip"@).len() != ("--log-file"@).len());
    assert(("-ji"@).len() != ("--log-file"@).len());
    assert(("-h"@).len() != ("--log-file"@).len());
    assert(("-j"@).len() != ("--log-file"@).len());
    assert(("--help"@).len() != ("-l"@).len());
    assert(("--mvnd"@).len() != ("-l"@).len());
    assert(("--mvnhelp"@).len() != ("-l"@).len());
    assert(("--clip"@).len() != ("-l"@).len());
    let m = short_log_options(args);
    lemma_short_contains(args, "-h"@);
    lemma_short_contains(args, "--help"@);
    lemma_short_contains(args, "--mvnd"@);
    let a1 = without(args, "--mvnd"@);
    lemma_short_without(args, "--mvnd"@);
    lemma_short_contains(a1, "--mvnhelp"@);
    lemma_short_take_log_file(a1);
    let a2 = take_log_file(a1).1;
    lemma_short_contains(a2, "-ji"@);
    lemma_short_take_joke_interval(a2);
    let a3 = take_joke_interval(a2).1;
    lemma_short_contains(a3, "-j"@);
    lemma_short_without(a3, "-j"@);
    let a4 = without(a3, "-j"@);
    lemma_short_contains(a4, "--clip"@);
    lemma_short_without(a4, "--clip"@);
}

/// Holds none of the wrapper's own options.
pub open spec fn plain_args(rest: Seq<Seq<char>>) -> bool {
    forall|k: int| 0 <= k < rest.len() ==> !is_option_word(#[trigger] rest[k])
}

proof fn lemma_option_words()
    ensures
        ("-h"@).len() == 2 && ("-h"@)[0] == '-' && ("-h"@)[1] == 'h',
        ("-j"@).len() == 2 && ("-j"@)[0] == '-' && ("-j"@)[1] == 'j',
        ("-l"@).len() == 2 && ("-l"@)[0] == '-' && ("-l"@)[1] == 'l',
        ("-ji"@).len() == 3 && ("-ji"@)[0] == '-',
        ("--help"@).len() == 6 && ("--help"@)[0] == '-' && ("--help"@)[2] == 'h',
        ("--mvnd"@).len() == 6 && ("--mvnd"@)[0] == '-' && ("--mvnd"@)[2] == 'm',
        ("--clip"@).len() == 6 && ("--clip"@)[0] == '-' && ("--clip"@)[2] == 'c',
        ("--mvnhelp"@).len() == 9 && ("--mvnhelp"@)[0] == '-',
        ("--log-file"@).len() == 10 && ("--log-file"@)[0] == '-',
{
    reveal_strlit("-h");
    reveal_strlit("--help");
    reveal_strlit("--mvnd");
    reveal_strlit("--mvnhelp");
    reveal_strlit("-l");
    reveal_strlit("--log-file");
    reveal_strlit("-ji");
    reveal_strlit("-j");
    reveal_strlit("--clip");
}

proof fn lemma_not_in(s: Seq<Seq<char>>, y: Seq<char>)
    requires
        forall|k: int| 0 <= k < s.len() ==> s[k] != y,
    ensures
        !s.contains(y),
        arg_pos(s, y, y) is None,
        without(s, y) == s,
{
    lemma_arg_pos(s, y, y, s.len() as int);
    lemma_without_absent(s, y);
}

proof fn lemma_plain_facts(rest: Seq<Seq<char>>)
    requires
        plain_args(rest),
    ensures
        !rest.contains("-h"@),
        !rest.contains("--help"@),
        !rest.contains("--mvnd"@),
        !rest.contains("--mvnhelp"@),
        !rest.contains("-ji"@),
        !rest.contains("-j"@),
        !rest.contains("--clip"@),
        without(rest, "--mvnd"@) == rest,
        without(rest, "-j"@) == rest,
        without(rest, "--clip"@) == rest,
        take_log_file(rest) == (Option::<Seq<char>>::None, rest),
        take_joke_interval(rest) == (30u64, rest),
{
    lemma_without_absent(rest, "--mvnd"@);
    lemma_without_absent(rest, "-j"@);
    lemma_without_absent(rest, "--clip"@);
    lemma_arg_pos(rest, "-l"@, "--log-file"@, rest.len() as int);
    lemma_arg_pos(rest, "-ji"@, "-ji"@, rest.len() as int);
}

proof fn lemma_insert_at(s: Seq<Seq<char>>, i: int, x: Seq<char>)
    requires
        0 <= i <= s.len(),
    ensures
        without(s.insert(i, x), x) == without(s, x),
        forall|k: int| 0 <= k < i ==> #[trigger] s.insert(i, x)[k] == s[k],
        forall|k: int| i < k <= s.len() ==> #[trigger] s.insert(i, x)[k] == s[k - 1],
        s.insert(i, x)[i] == x,
        s.insert(i, x).len() == s.len() + 1,
    decreases s.len(),
{
    if i == s.len() {
        assert(s.insert(i, x) =~= s.push(x));
        assert(s.push(x).drop_last() =~= s);
    } else {
        lemma_insert_at(s.drop_last(), i, x);
        assert(s.insert(i, x).drop_last() =~= s.drop_last().insert(i, x));
        assert(s.insert(i, x).last() == s.last());
    }
}

/// Arguments that hold none of the wrapper's options all go to `mvn`: no log file, no
/// jokes (their interval stays at 30 seconds), no clipboard.
pub proof fn lemma_plain_args_run(rest: Seq<Seq<char>>)
    requires
        plain_args(rest),
        rest.len() > 0,
    ensures
        command(rest) == (CommandModel::Run {
            maven: "mvn"@,
            args: rest,
            log_file: None,
            show_jokes: false,
            joke_interval: 30,
            clipboard: false,
        }),
{
    lemma_plain_facts(rest);
}

/// `--mvnd`, wherever it stands, runs `mvnd` in place of `mvn`, with the other
/// arguments.
pub proof fn lemma_mvnd_option(rest: Seq<Seq<char>>, i: int)
    requires
        plain_args(rest),
        rest.len() > 0,
        0 <= i <= rest.len(),
    ensures
        command(rest.insert(i, "--mvnd"@)) == (CommandModel::Run {
            maven: "mvnd"@,
            args: rest,
            log_file: None,
            show_jokes: false,
            joke_interval: 30,
            clipboard: false,
        }),
{
    lemma_option_words();
    lemma_plain_facts(rest);
    let args = rest.insert(i, "--mvnd"@);
    lemma_insert_at(rest, i, "--mvnd"@);
    assert(args[i] == "--mvnd"@);
    assert forall|k: int| 0 <= k < args.len() implies args[k] != "-h"@ && args[k] != "--help"@ by {
        if k > i {
            assert(args[k] == rest[k - 1]);
        }
    }
    assert(!args.contains("-h"@));
    assert(!args.contains("--help"@));
}

/// `-j`, wherever it stands, shows jokes during the build, at the default interval.
pub proof fn lemma_jokes_option(rest: Seq<Seq<char>>, i: int)
    requires
        plain_args(rest),
        rest.len() > 0,
        0 <= i <= rest.len(),
    ensures
        command(rest.insert(i, "-j"@)) == (CommandModel::Run {
            maven: "mvn"@,
            args: rest,
            log_file: None,
            show_jokes: true,
            joke_interval: 30,
            clipboard: false,
        }),
{
    lemma_option_words();
    lemma_plain_facts(rest);
    let args = rest.insert(i, "-j"@);
    lemma_insert_at(rest, i, "-j"@);
    assert forall|k: int| 0 <= k < args.len() implies args[k] != "-h"@ && args[k] != "--help"@ && args[k]
        != "--mvnd"@ && args[k] != "--mvnhelp"@ && args[k] != "-l"@ && args[k] != "--log-file"@ && args[k]
        != "-ji"@ && args[k] != "--clip"@ by {
        if k > i {
            assert(args[k] == rest[k - 1]);
        }
    }
    lemma_not_in(args, "-h"@);
    lemma_not_in(args, "--help"@);
    lemma_not_in(args, "--mvnd"@);
    lemma_not_in(args, "--mvnhelp"@);
    lemma_not_in(args, "-ji"@);
    lemma_not_in(args, "--clip"@);
    lemma_arg_pos(args, "-l"@, "--log-file"@, args.len() as int);
    assert(args.contains("-j"@)) by {
        assert(args[i] == "-j"@);
    }
}

/// `--clip`, wherever it stands, asks for a single failure's stack trace to be
/// copied.
pub proof fn lemma_clip_option(rest: Seq<Seq<char>>, i: int)
    requires
        plain_args(rest),
        rest.len() > 0,
        0 <= i <= rest.len(),
    ensures
        command(rest.insert(i, "--clip"@)) == (CommandModel::Run {
            maven: "mvn"@,
            args: rest,
            log_file: None,
            show_jokes: false,
            joke_interval: 30,
            clipboard: true,
        }),
{
    lemma_option_words();
    lemma_plain_facts(rest);
    let args = rest.insert(i, "--clip"@);
    lemma_insert_at(rest, i, "--clip"@);
    assert forall|k: int| 0 <= k < args.len() implies args[k] != "-h"@ && args[k] != "--help"@ && args[k]
        != "--mvnd"@ && args[k] != "--mvnhelp"@ && args[k] != "-l"@ && args[k] != "--log-file"@ && args[k]
        != "-ji"@ && args[k] != "-j"@ by {
        if k > i {
            assert(args[k] == rest[k - 1]);
        }
    }
    lemma_not_in(args, "-h"@);
    lemma_not_in(args, "--help"@);
    lemma_not_in(args, "--mvnd"@);
    lemma_not_in(args, "--mvnhelp"@);
    lemma_not_in(args, "-ji"@);
    lemma_not_in(args, "-j"@);
    lemma_arg_pos(args, "-l"@, "--log-file"@, args.len() as int);
    assert(args.contains("--clip"@)) by {
        assert(args[i] == "--clip"@);
    }
}

/// `-ji` followed by a number of seconds, wherever they stand, shows jokes at that
/// interval; neither reaches Maven.
pub proof fn lemma_joke_interval_option(rest: Seq<Seq<char>>, i: int, n: u64)
    requires
        plain_args(rest),
        rest.len() > 0,
        0 <= i <= rest.len(),
    ensures
        command(rest.insert(i, "-ji"@).insert(i + 1, crate::text::decimal(n as nat))) == (CommandModel::Run {
            maven: "mvn"@,
            args: rest,
            log_file: None,
            show_jokes: true,
            joke_interval: n,
            clipboard: false,
        }),
{
    lemma_option_words();
    lemma_plain_facts(rest);
    let d = crate::text::decimal(n as nat);
    crate::text::lemma_decimal(n as nat);
    assert(crate::text::is_ascii_digit(d[0]));
    maven_line::lemma_parse_decimal(n as nat, u64::MAX as nat);
    let r1 = rest.insert(i, "-ji"@);
    let args = r1.insert(i + 1, d);
    lemma_insert_at(rest, i, "-ji"@);
    lemma_insert_at(r1, i + 1, d);
    assert forall|k: int| 0 <= k < args.len() implies args[k] != "-h"@ && args[k] != "--help"@ && args[k]
        != "--mvnd"@ && args[k] != "--mvnhelp"@ && args[k] != "-l"@ && args[k] != "--log-file"@ by {
        if k > i + 1 {
            assert(args[k] == rest[k - 2]);
        } else if k < i {
            assert(args[k] == rest[k]);
        } else if k == i + 1 {
            assert(args[k] == d);
        }
    }
    lemma_not_in(args, "-h"@);
    lemma_not_in(args, "--help"@);
    lemma_not_in(args, "--mvnd"@);
    lemma_not_in(args, "--mvnhelp"@);
    lemma_arg_pos(args, "-l"@, "--log-file"@, args.len() as int);
    assert(args[i] == "-ji"@);
    assert(args.contains("-ji"@));
    assert forall|k: int| 0 <= k < i implies args[k] != "-ji"@ by {
        assert(args[k] == rest[k]);
    }
    lemma_arg_pos(args, "-ji"@, "-ji"@, i);
    assert(args[i + 1] == d);
    assert(args.remove(i + 1).remove(i) =~= rest);
}

} // verus!
