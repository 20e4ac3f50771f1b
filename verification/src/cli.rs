//! The command line's decisions: which mode runs with which arguments, the
//! engine routing of a single pair, and the basename bookkeeping of
//! normalisation.
use vstd::prelude::*;
use crate::order::str_eq;

verus! {

/// The texts of a list of arguments.
pub open spec fn texts(args: Seq<String>) -> Seq<Seq<char>> {
    args.map_values(|s: String| s@)
}

/// Some argument of `a` is exactly `x`.
pub open spec fn has_arg(a: Seq<Seq<char>>, x: Seq<char>) -> bool {
    exists|i: int| 0 <= i < a.len() && a[i] == x
}

/// The flags of the single-pair form.
pub open spec fn is_pair_flag(x: Seq<char>) -> bool {
    x == "--cpu"@ || x == "--gpu"@ || x == "--profile"@
}

/// The arguments of the single-pair form that are not flags, in order.
pub open spec fn positionals(a: Seq<Seq<char>>) -> Seq<Seq<char>>
    decreases a.len(),
{
    if a.len() == 0 {
        Seq::empty()
    } else {
        let p = positionals(a.drop_last());
        if is_pair_flag(a.last()) {
            p
        } else {
            p.push(a.last())
        }
    }
}

/// What the `score-many` arguments have set so far.
pub struct ScoreManyScan {
    pub orig: Option<Seq<char>>,
    pub vars: Option<Seq<char>>,
    pub no_cache: bool,
    pub profile: bool,
}

/// Scans the `score-many` arguments from position `i`: `--orig` and
/// `--vars` take the next argument as their value (or clear it when none
/// follows), `--no-cache` and `--profile` are switches, and anything else is
/// refused (the offending argument is returned).
pub open spec fn score_many_scan(a: Seq<Seq<char>>, i: int, st: ScoreManyScan) -> Result<
    ScoreManyScan,
    Seq<char>,
>
    decreases a.len() + 1 - i,
{
    if i < 0 || i >= a.len() {
        Ok(st)
    } else {
        let next = if i + 1 < a.len() {
            Some(a[i + 1])
        } else {
            None
        };
        if a[i] == "--orig"@ {
            score_many_scan(
                a,
                i + 2,
                ScoreManyScan { orig: next, vars: st.vars, no_cache: st.no_cache, profile: st.profile },
            )
        } else if a[i] == "--vars"@ {
            score_many_scan(
                a,
                i + 2,
                ScoreManyScan { orig: st.orig, vars: next, no_cache: st.no_cache, profile: st.profile },
            )
        } else if a[i] == "--no-cache"@ {
            score_many_scan(
                a,
                i + 1,
                ScoreManyScan { orig: st.orig, vars: st.vars, no_cache: true, profile: st.profile },
            )
        } else if a[i] == "--profile"@ {
            score_many_scan(
                a,
                i + 1,
                ScoreManyScan { orig: st.orig, vars: st.vars, no_cache: st.no_cache, profile: true },
            )
        } else {
            Err(a[i])
        }
    }
}

/// What the `normalize` arguments have set so far.
pub struct NormalizeScan {
    pub out: Option<Seq<char>>,
    pub inputs: Seq<Seq<char>>,
}

/// Scans the `normalize` arguments from position `i`: `--out` takes the
/// next argument as the output directory (or clears it when none follows);
/// every other argument is an input.
pub open spec fn normalize_scan(a: Seq<Seq<char>>, i: int, st: NormalizeScan) -> NormalizeScan
    decreases a.len() + 1 - i,
{
    if i < 0 || i >= a.len() {
        st
    } else if a[i] == "--out"@ {
        let next = if i + 1 < a.len() {
            Some(a[i + 1])
        } else {
            None
        };
        normalize_scan(a, i + 2, NormalizeScan { out: next, inputs: st.inputs })
    } else {
        normalize_scan(a, i + 1, NormalizeScan { out: st.out, inputs: st.inputs.push(a[i]) })
    }
}

/// The mode selected by a command line, by argument texts.
pub enum CommandSpec {
    Help,
    Pair {
        force_cpu: bool,
        force_gpu: bool,
        profile: bool,
        original: Seq<char>,
        distorted: Seq<char>,
    },
    ScoreMany { orig: Seq<char>, vars: Seq<char>, no_cache: bool, profile: bool },
    Normalize { out_dir: Seq<char>, inputs: Seq<Seq<char>> },
}

/// Why a command line is refused, by argument texts.
pub enum CliErrorSpec {
    UnexpectedArgument(Seq<char>),
    ScoreManyMissing,
    NormalizeMissing,
    ExclusiveEngines,
    Usage,
}

/// The mode a command line `args` (program name first) selects: a first
/// argument `score-many` or `normalize` selects that mode; otherwise
/// `--help` or `-h` anywhere asks for help; otherwise it is the single-pair
/// form, whose engine flags exclude each other and which takes exactly two
/// images.
pub open spec fn command_spec(args: Seq<Seq<char>>) -> Result<CommandSpec, CliErrorSpec> {
    if args.len() >= 2 && args[1] == "score-many"@ {
        match score_many_scan(
            args,
            2,
            ScoreManyScan { orig: None, vars: None, no_cache: false, profile: false },
        ) {
            Err(x) => Err(CliErrorSpec::UnexpectedArgument(x)),
            Ok(st) => if st.orig is Some && st.vars is Some {
                Ok(
                    CommandSpec::ScoreMany {
                        orig: st.orig.unwrap(),
                        vars: st.vars.unwrap(),
                        no_cache: st.no_cache,
                        profile: st.profile,
                    },
                )
            } else {
                Err(CliErrorSpec::ScoreManyMissing)
            },
        }
    } else if args.len() >= 2 && args[1] == "normalize"@ {
        let st = normalize_scan(args, 2, NormalizeScan { out: None, inputs: Seq::empty() });
        if st.out is Some && st.inputs.len() > 0 {
            Ok(CommandSpec::Normalize { out_dir: st.out.unwrap(), inputs: st.inputs })
        } else {
            Err(CliErrorSpec::NormalizeMissing)
        }
    } else {
        let rest = args.drop_first();
        if has_arg(rest, "--help"@) || has_arg(rest, "-h"@) {
            Ok(CommandSpec::Help)
        } else if has_arg(rest, "--cpu"@) && has_arg(rest, "--gpu"@) {
            Err(CliErrorSpec::ExclusiveEngines)
        } else if positionals(rest).len() != 2 {
            Err(CliErrorSpec::Usage)
        } else {
            Ok(
                CommandSpec::Pair {
                    force_cpu: has_arg(rest, "--cpu"@),
                    force_gpu: has_arg(rest, "--gpu"@),
                    profile: has_arg(rest, "--profile"@),
                    original: positionals(rest)[0],
                    distorted: positionals(rest)[1],
                },
            )
        }
    }
}

/// The single-pair form: engine flags and the two image paths.
#[derive(Debug)]
pub struct PairArgs {
    pub force_cpu: bool,
    pub force_gpu: bool,
    pub profile: bool,
    pub original: String,
    pub distorted: String,
}

/// The batch form: the shared original, the variants' directory and flags.
#[derive(Debug)]
pub struct ScoreManyArgs {
    pub orig: String,
    pub vars: String,
    pub no_cache: bool,
    pub profile: bool,
}

/// The normalisation form: the output directory and the input images.
#[derive(Debug)]
pub struct NormalizeArgs {
    pub out_dir: String,
    pub inputs: Vec<String>,
}

/// The mode a command line selects.
#[derive(Debug)]
pub enum Command {
    Help,
    Pair(PairArgs),
    ScoreMany(ScoreManyArgs),
    Normalize(NormalizeArgs),
}

/// Why a command line is refused.
#[derive(Debug)]
pub enum CliError {
    /// `score-many` met an argument it does not know (carried).
    UnexpectedArgument(String),
    /// `score-many` lacks `--orig <file>` or `--vars <dir>`.
    ScoreManyMissing,
    /// `normalize` lacks `--out <dir>` or any input.
    NormalizeMissing,
    /// `--cpu` and `--gpu` were both given.
    ExclusiveEngines,
    /// The single-pair form did not get exactly two images.
    Usage,
}

impl View for Command {
    type V = CommandSpec;

    open spec fn view(&self) -> CommandSpec {
        match self {
            Command::Help => CommandSpec::Help,
            Command::Pair(p) => CommandSpec::Pair {
                force_cpu: p.force_cpu,
                force_gpu: p.force_gpu,
                profile: p.profile,
                original: p.original@,
                distorted: p.distorted@,
            },
            Command::ScoreMany(s) => CommandSpec::ScoreMany {
                orig: s.orig@,
                vars: s.vars@,
                no_cache: s.no_cache,
                profile: s.profile,
            },
            Command::Normalize(n) => CommandSpec::Normalize {
                out_dir: n.out_dir@,
                inputs: texts(n.inputs@),
            },
        }
    }
}

impl View for CliError {
    type V = CliErrorSpec;

    open spec fn view(&self) -> CliErrorSpec {
        match self {
            CliError::UnexpectedArgument(s) => CliErrorSpec::UnexpectedArgument(s@),
            CliError::ScoreManyMissing => CliErrorSpec::ScoreManyMissing,
            CliError::NormalizeMissing => CliErrorSpec::NormalizeMissing,
            CliError::ExclusiveEngines => CliErrorSpec::ExclusiveEngines,
            CliError::Usage => CliErrorSpec::Usage,
        }
    }
}

/// The outcome of parsing, by texts.
pub open spec fn outcome_view(r: Result<Command, CliError>) -> Result<CommandSpec, CliErrorSpec> {
    match r {
        Ok(c) => Ok(c@),
        Err(e) => Err(e@),
    }
}

/// The text of an optional argument.
pub open spec fn opt_text(o: Option<String>) -> Option<Seq<char>> {
    match o {
        Some(s) => Some(s@),
        None => None,
    }
}

fn is_text(s: &String, lit: &str) -> (r: bool)
    ensures
        r == (s@ == lit@),
{
    str_eq(s.as_str(), lit)
}

fn parse_score_many(args: &Vec<String>) -> (r: Result<Command, CliError>)
    requires
        args@.len() >= 2,
        texts(args@)[1] == "score-many"@,
    ensures
        outcome_view(r) == command_spec(texts(args@)),
{
    let ghost a = texts(args@);
    let ghost init = ScoreManyScan { orig: None, vars: None, no_cache: false, profile: false };
    let mut orig: Option<String> = None;
    let mut vars: Option<String> = None;
    let mut no_cache = false;
    let mut profile = false;
    let mut i: usize = 2;
    while i < args.len()
        invariant
            a == texts(args@),
            a.len() == args@.len(),
            a[1] == "score-many"@,
            init == (ScoreManyScan { orig: None, vars: None, no_cache: false, profile: false }),
            2 <= i <= args@.len(),
            score_many_scan(a, 2, init) == score_many_scan(
                a,
                i as int,
                ScoreManyScan { orig: opt_text(orig), vars: opt_text(vars), no_cache, profile },
            ),
        decreases args@.len() + 1 - i,
    {
        let arg = &args[i];
        assert(a[i as int] == arg@);
        let ghost st = ScoreManyScan { orig: opt_text(orig), vars: opt_text(vars), no_cache, profile };
        let next: Option<String> = if i + 1 < args.len() {
            assert(a[i + 1] == args@[i + 1]@);
            Some(args[i + 1].clone())
        } else {
            None
        };
        assert(opt_text(next) == (if i + 1 < a.len() {
            Some(a[i + 1])
        } else {
            None::<Seq<char>>
        }));
        if is_text(arg, "--orig") {
            orig = next;
            let ghost st2 = ScoreManyScan { orig: opt_text(orig), vars: opt_text(vars), no_cache, profile };
            assert(score_many_scan(a, i as int, st) == score_many_scan(a, i + 2, st2));
            assert(score_many_scan(a, i + 2, st2) == score_many_scan(a, (if i + 1 < args.len() { i + 2 } else { i + 1 }) as int, st2));
            i = if i + 1 < args.len() {
                i + 2
            } else {
                i + 1
            };
        } else if is_text(arg, "--vars") {
            vars = next;
            let ghost st2 = ScoreManyScan { orig: opt_text(orig), vars: opt_text(vars), no_cache, profile };
            assert(score_many_scan(a, i as int, st) == score_many_scan(a, i + 2, st2));
            assert(score_many_scan(a, i + 2, st2) == score_many_scan(a, (if i + 1 < args.len() { i + 2 } else { i + 1 }) as int, st2));
            i = if i + 1 < args.len() {
                i + 2
            } else {
                i + 1
            };
        } else if is_text(arg, "--no-cache") {
            no_cache = true;
            let ghost st2 = ScoreManyScan { orig: opt_text(orig), vars: opt_text(vars), no_cache, profile };
            assert(score_many_scan(a, i as int, st) == score_many_scan(a, i + 1, st2));
            i = i + 1;
        } else if is_text(arg, "--profile") {
            profile = true;
            let ghost st2 = ScoreManyScan { orig: opt_text(orig), vars: opt_text(vars), no_cache, profile };
            assert(score_many_scan(a, i as int, st) == score_many_scan(a, i + 1, st2));
            i = i + 1;
        } else {
            assert(score_many_scan(a, i as int, st) == Err::<ScoreManyScan, Seq<char>>(a[i as int]));
            let bad = arg.clone();
            assert(bad@ == a[i as int]);
            return Err(CliError::UnexpectedArgument(bad));
        }
    }
    match (orig, vars) {
        (Some(o), Some(v)) => Ok(Command::ScoreMany(ScoreManyArgs { orig: o, vars: v, no_cache, profile })),
        _ => Err(CliError::ScoreManyMissing),
    }
}

fn parse_normalize(args: &Vec<String>) -> (r: Result<Command, CliError>)
    requires
        args@.len() >= 2,
        texts(args@)[1] == "normalize"@,
        texts(args@)[1] != "score-many"@,
    ensures
        outcome_view(r) == command_spec(texts(args@)),
{
    let ghost a = texts(args@);
    let ghost init = NormalizeScan { out: None, inputs: Seq::empty() };
    let mut out: Option<String> = None;
    let mut inputs: Vec<String> = Vec::new();
    assert(texts(inputs@) =~= Seq::<Seq<char>>::empty());
    let mut i: usize = 2;
    while i < args.len()
        invariant
            a == texts(args@),
            a.len() == args@.len(),
            2 <= i <= args@.len(),
            normalize_scan(a, 2, init) == normalize_scan(
                a,
                i as int,
                NormalizeScan { out: opt_text(out), inputs: texts(inputs@) },
            ),
        decreases args@.len() + 1 - i,
    {
        let arg = &args[i];
        assert(a[i as int] == arg@);
        let ghost st = NormalizeScan { out: opt_text(out), inputs: texts(inputs@) };
        if is_text(arg, "--out") {
            if i + 1 < args.len() {
                assert(a[i + 1] == args@[i + 1]@);
                out = Some(args[i + 1].clone());
            } else {
                out = None;
            }
            let ghost st2 = NormalizeScan { out: opt_text(out), inputs: texts(inputs@) };
            assert(normalize_scan(a, i as int, st) == normalize_scan(a, i + 2, st2));
            assert(normalize_scan(a, i + 2, st2) == normalize_scan(a, (if i + 1 < args.len() { i + 2 } else { i + 1 }) as int, st2));
            i = if i + 1 < args.len() {
                i + 2
            } else {
                i + 1
            };
        } else {
            let ghost before = inputs@;
            inputs.push(arg.clone());
            assert(texts(inputs@) =~= texts(before).push(a[i as int]));
            let ghost st2 = NormalizeScan { out: opt_text(out), inputs: texts(inputs@) };
            assert(normalize_scan(a, i as int, st) == normalize_scan(a, i + 1, st2));
            i = i + 1;
        }
    }
    match out {
        Some(o) => {
            if inputs.len() > 0 {
                Ok(Command::Normalize(NormalizeArgs { out_dir: o, inputs }))
            } else {
                Err(CliError::NormalizeMissing)
            }
        },
        None => Err(CliError::NormalizeMissing),
    }
}

fn parse_pair(args: &Vec<String>) -> (r: Result<Command, CliError>)
    requires
        args@.len() >= 1,
        !(args@.len() >= 2 && texts(args@)[1] == "score-many"@),
        !(args@.len() >= 2 && texts(args@)[1] == "normalize"@),
    ensures
        outcome_view(r) == command_spec(texts(args@)),
{
    let ghost a = texts(args@);
    let ghost rest = a.drop_first();
    let mut help = false;
    let mut force_cpu = false;
    let mut force_gpu = false;
    let mut profile = false;
    let mut pos: Vec<String> = Vec::new();
    let mut i: usize = 1;
    while i < args.len()
        invariant
            a == texts(args@),
            rest == a.drop_first(),
            1 <= i <= args@.len(),
            help == (has_arg(rest.subrange(0, i - 1), "--help"@) || has_arg(
                rest.subrange(0, i - 1),
                "-h"@,
            )),
            force_cpu == has_arg(rest.subrange(0, i - 1), "--cpu"@),
            force_gpu == has_arg(rest.subrange(0, i - 1), "--gpu"@),
            profile == has_arg(rest.subrange(0, i - 1), "--profile"@),
            texts(pos@) == positionals(rest.subrange(0, i - 1)),
        decreases args@.len() - i,
    {
        let arg = &args[i];
        let ghost pre = rest.subrange(0, i - 1);
        let ghost cur = rest.subrange(0, i as int);
        assert(cur =~= pre.push(arg@));
        assert(cur.drop_last() =~= pre);
        let is_help = is_text(arg, "--help") || is_text(arg, "-h");
        let is_cpu = is_text(arg, "--cpu");
        let is_gpu = is_text(arg, "--gpu");
        let is_prof = is_text(arg, "--profile");
        proof {
            assert forall|x: Seq<char>| has_arg(cur, x) == (has_arg(pre, x) || arg@ == x) by {
                if has_arg(cur, x) {
                    let j = choose|j: int| 0 <= j < cur.len() && cur[j] == x;
                    if j < pre.len() {
                        assert(pre[j] == x);
                    }
                }
                if has_arg(pre, x) {
                    let j = choose|j: int| 0 <= j < pre.len() && pre[j] == x;
                    assert(cur[j] == x);
                }
                if arg@ == x {
                    assert(cur[cur.len() - 1] == x);
                }
            }
        }
        help = help || is_help;
        force_cpu = force_cpu || is_cpu;
        force_gpu = force_gpu || is_gpu;
        profile = profile || is_prof;
        if !(is_cpu || is_gpu || is_prof) {
            let ghost before = pos@;
            pos.push(arg.clone());
            assert(texts(pos@) =~= texts(before).push(arg@));
        }
        i = i + 1;
    }
    assert(rest.subrange(0, i - 1) =~= rest);
    if help {
        return Ok(Command::Help);
    }
    if force_cpu && force_gpu {
        return Err(CliError::ExclusiveEngines);
    }
    if pos.len() != 2 {
        return Err(CliError::Usage);
    }
    assert(texts(pos@)[0] == pos@[0]@);
    assert(texts(pos@)[1] == pos@[1]@);
    let original = pos[0].clone();
    let distorted = pos[1].clone();
    Ok(Command::Pair(PairArgs { force_cpu, force_gpu, profile, original, distorted }))
}

/// Parses a command line (program name first) into the mode it selects,
/// or the reason it is refused.
pub fn parse_command(args: &Vec<String>) -> (r: Result<Command, CliError>)
    requires
        args@.len() >= 1,
    ensures
        outcome_view(r) == command_spec(texts(args@)),
{
    if args.len() >= 2 {
        assert(texts(args@)[1] == args@[1]@);
        if is_text(&args[1], "score-many") {
            return parse_score_many(args);
        }
        if is_text(&args[1], "normalize") {
            return parse_normalize(args);
        }
    }
    parse_pair(args)
}

/// The image paths of a single-pair command line: its arguments other than
/// the literal flags `--cpu`, `--gpu` and `--profile`, in order.
pub open spec fn image_paths(rest: Seq<Seq<char>>) -> Seq<Seq<char>> {
    rest.filter(|x: Seq<char>| x != "--cpu"@ && x != "--gpu"@ && x != "--profile"@)
}

proof fn lemma_positionals_are_paths(rest: Seq<Seq<char>>)
    ensures
        positionals(rest) == image_paths(rest),
    decreases rest.len(),
{
    reveal(Seq::filter);
    if rest.len() > 0 {
        let pred = |x: Seq<char>| x != "--cpu"@ && x != "--gpu"@ && x != "--profile"@;
        lemma_positionals_are_paths(rest.drop_last());
        assert(image_paths(rest) == rest.filter(pred));
        assert(image_paths(rest.drop_last()) == rest.drop_last().filter(pred));
        assert(rest.filter(pred) == (if pred(rest.last()) {
            rest.drop_last().filter(pred).push(rest.last())
        } else {
            rest.drop_last().filter(pred)
        }));
    }
}

/// The single-pair form, by argument texts: when the first argument selects
/// no subcommand, no help is asked for and the two engine flags are not
/// both given, none of `--cpu`, `--gpu`, `--profile` is ever taken for an
/// image; the command is a pair exactly when the remaining arguments are
/// two, which are then the original and the distorted image in that order,
/// and each flag is set exactly when it occurs. Otherwise it is a usage
/// error.
pub proof fn lemma_pair_form(a: Seq<Seq<char>>)
    requires
        a.len() >= 1,
        !(a.len() >= 2 && (a[1] == "score-many"@ || a[1] == "normalize"@)),
        !has_arg(a.drop_first(), "--help"@),
        !has_arg(a.drop_first(), "-h"@),
        !(has_arg(a.drop_first(), "--cpu"@) && has_arg(a.drop_first(), "--gpu"@)),
    ensures
        ({
            let rest = a.drop_first();
            let paths = image_paths(rest);
            command_spec(a) == if paths.len() == 2 {
                Ok::<CommandSpec, CliErrorSpec>(
                    CommandSpec::Pair {
                        force_cpu: has_arg(rest, "--cpu"@),
                        force_gpu: has_arg(rest, "--gpu"@),
                        profile: has_arg(rest, "--profile"@),
                        original: paths[0],
                        distorted: paths[1],
                    },
                )
            } else {
                Err::<CommandSpec, CliErrorSpec>(CliErrorSpec::Usage)
            }
        }),
{
    lemma_positionals_are_paths(a.drop_first());
}

/// One option of the `score-many` form, as written on the command line.
pub enum ScoreManyOption {
    /// `--orig <file>`
    Orig(Seq<char>),
    /// `--vars <dir>`
    Vars(Seq<char>),
    /// `--no-cache`
    NoCache,
    /// `--profile`
    Profile,
}

/// The argument texts of one `score-many` option.
pub open spec fn option_texts(o: ScoreManyOption) -> Seq<Seq<char>> {
    match o {
        ScoreManyOption::Orig(v) => seq!["--orig"@, v],
        ScoreManyOption::Vars(v) => seq!["--vars"@, v],
        ScoreManyOption::NoCache => seq!["--no-cache"@],
        ScoreManyOption::Profile => seq!["--profile"@],
    }
}

/// The argument texts of a list of `score-many` options, in order.
pub open spec fn options_texts(opts: Seq<ScoreManyOption>) -> Seq<Seq<char>>
    decreases opts.len(),
{
    if opts.len() == 0 {
        Seq::empty()
    } else {
        option_texts(opts[0]) + options_texts(opts.drop_first())
    }
}

spec fn apply_option(st: ScoreManyScan, o: ScoreManyOption) -> ScoreManyScan {
    match o {
        ScoreManyOption::Orig(v) => ScoreManyScan {
            orig: Some(v),
            vars: st.vars,
            no_cache: st.no_cache,
            profile: st.profile,
        },
        ScoreManyOption::Vars(v) => ScoreManyScan {
            orig: st.orig,
            vars: Some(v),
            no_cache: st.no_cache,
            profile: st.profile,
        },
        ScoreManyOption::NoCache => ScoreManyScan {
            orig: st.orig,
            vars: st.vars,
            no_cache: true,
            profile: st.profile,
        },
        ScoreManyOption::Profile => ScoreManyScan {
            orig: st.orig,
            vars: st.vars,
            no_cache: st.no_cache,
            profile: true,
        },
    }
}

spec fn apply_options(st: ScoreManyScan, opts: Seq<ScoreManyOption>) -> ScoreManyScan
    decreases opts.len(),
{
    if opts.len() == 0 {
        st
    } else {
        apply_options(apply_option(st, opts[0]), opts.drop_first())
    }
}

proof fn lemma_scan_options(pre: Seq<Seq<char>>, opts: Seq<ScoreManyOption>, st: ScoreManyScan)
    ensures
        score_many_scan(pre + options_texts(opts), pre.len() as int, st) == Ok::<
            ScoreManyScan,
            Seq<char>,
        >(apply_options(st, opts)),
    decreases opts.len(),
{
    reveal_strlit("--orig");
    reveal_strlit("--vars");
    reveal_strlit("--no-cache");
    reveal_strlit("--profile");
    let a = pre + options_texts(opts);
    let i = pre.len() as int;
    if opts.len() == 0 {
        assert(a =~= pre);
    } else {
        let o = opts[0];
        let t = option_texts(o);
        let pre2 = pre + t;
        assert(a =~= pre2 + options_texts(opts.drop_first()));
        lemma_scan_options(pre2, opts.drop_first(), apply_option(st, o));
        assert(a[i] == t[0]);
        if t.len() == 2 {
            assert(a[i + 1] == t[1]);
        }
        match o {
            ScoreManyOption::Orig(v) => {
                assert(a[i] == "--orig"@);
            },
            ScoreManyOption::Vars(v) => {
                assert(a[i] == "--vars"@);
                assert("--vars"@[2] != "--orig"@[2]);
                assert(a[i] != "--orig"@);
            },
            ScoreManyOption::NoCache => {
                assert(a[i] != "--orig"@);
                assert(a[i] != "--vars"@);
            },
            ScoreManyOption::Profile => {
                assert(a[i] != "--orig"@);
                assert(a[i] != "--vars"@);
                assert(a[i] != "--no-cache"@);
            },
        }
    }
}

proof fn lemma_apply_options(st: ScoreManyScan, opts: Seq<ScoreManyOption>)
    ensures
        apply_options(st, opts).no_cache == (st.no_cache || exists|i: int|
            0 <= i < opts.len() && opts[i] is NoCache),
        apply_options(st, opts).profile == (st.profile || exists|i: int|
            0 <= i < opts.len() && opts[i] is Profile),
        (forall|i: int| 0 <= i < opts.len() ==> !(opts[i] is Orig)) ==> apply_options(st, opts).orig
            == st.orig,
        (forall|i: int| 0 <= i < opts.len() ==> !(opts[i] is Vars)) ==> apply_options(st, opts).vars
            == st.vars,
        forall|k: int, v: Seq<char>|
            0 <= k < opts.len() && opts[k] == ScoreManyOption::Orig(v) && (forall|j: int|
                k < j < opts.len() ==> !(opts[j] is Orig)) ==> apply_options(st, opts).orig
                == Some(v),
        forall|k: int, v: Seq<char>|
            0 <= k < opts.len() && opts[k] == ScoreManyOption::Vars(v) && (forall|j: int|
                k < j < opts.len() ==> !(opts[j] is Vars)) ==> apply_options(st, opts).vars
                == Some(v),
    decreases opts.len(),
{
    if opts.len() > 0 {
        let r = opts.drop_first();
        let st2 = apply_option(st, opts[0]);
        lemma_apply_options(st2, r);
        assert forall|i: int| 0 <= i < r.len() implies r[i] == opts[i + 1] by {}
        if exists|i: int| 0 <= i < opts.len() && opts[i] is NoCache {
            let i = choose|i: int| 0 <= i < opts.len() && opts[i] is NoCache;
            if i > 0 {
                assert(r[i - 1] is NoCache);
            }
        }
        if exists|i: int| 0 <= i < opts.len() && opts[i] is Profile {
            let i = choose|i: int| 0 <= i < opts.len() && opts[i] is Profile;
            if i > 0 {
                assert(r[i - 1] is Profile);
            }
        }
        if exists|i: int| 0 <= i < r.len() && r[i] is NoCache {
            let i = choose|i: int| 0 <= i < r.len() && r[i] is NoCache;
            assert(opts[i + 1] is NoCache);
        }
        if exists|i: int| 0 <= i < r.len() && r[i] is Profile {
            let i = choose|i: int| 0 <= i < r.len() && r[i] is Profile;
            assert(opts[i + 1] is Profile);
        }
        if forall|i: int| 0 <= i < opts.len() ==> !(opts[i] is Orig) {
            assert(!(opts[0] is Orig));
            assert forall|i: int| 0 <= i < r.len() implies !(r[i] is Orig) by {
                assert(!(opts[i + 1] is Orig));
            }
        }
        if forall|i: int| 0 <= i < opts.len() ==> !(opts[i] is Vars) {
            assert(!(opts[0] is Vars));
            assert forall|i: int| 0 <= i < r.len() implies !(r[i] is Vars) by {
                assert(!(opts[i + 1] is Vars));
            }
        }
        assert forall|k: int, v: Seq<char>|
            0 <= k < opts.len() && opts[k] == ScoreManyOption::Orig(v) && (forall|j: int|
                k < j < opts.len() ==> !(opts[j] is Orig)) implies apply_options(st, opts).orig
            == Some(v) by {
            if k == 0 {
                assert forall|i: int| 0 <= i < r.len() implies !(r[i] is Orig) by {
                    assert(!(opts[i + 1] is Orig));
                }
            } else {
                assert(r[k - 1] == ScoreManyOption::Orig(v));
                assert forall|j: int| k - 1 < j < r.len() implies !(r[j] is Orig) by {
                    assert(!(opts[j + 1] is Orig));
                }
            }
        }
        assert forall|k: int, v: Seq<char>|
            0 <= k < opts.len() && opts[k] == ScoreManyOption::Vars(v) && (forall|j: int|
                k < j < opts.len() ==> !(opts[j] is Vars)) implies apply_options(st, opts).vars
            == Some(v) by {
            if k == 0 {
                assert forall|i: int| 0 <= i < r.len() implies !(r[i] is Vars) by {
                    assert(!(opts[i + 1] is Vars));
                }
            } else {
                assert(r[k - 1] == ScoreManyOption::Vars(v));
                assert forall|j: int| k - 1 < j < r.len() implies !(r[j] is Vars) by {
                    assert(!(opts[j + 1] is Vars));
                }
            }
        }
    }
}

/// The `score-many` form, by argument texts: a command line made of the
/// program name, `score-many` and any list of options (`--orig <file>`,
/// `--vars <dir>`, `--no-cache`, `--profile`) that gives both a file and a
/// directory selects batch scoring of the last file given against the last
/// directory given, with `no_cache` and `profile` set exactly when their
/// switch occurs; one that lacks either is refused as incomplete.
pub proof fn lemma_score_many_form(prog: Seq<char>, opts: Seq<ScoreManyOption>)
    ensures
        forall|ko: int, o: Seq<char>, kv: int, v: Seq<char>|
            0 <= ko < opts.len() && opts[ko] == ScoreManyOption::Orig(o) && (forall|j: int|
                ko < j < opts.len() ==> !(opts[j] is Orig)) && 0 <= kv < opts.len() && opts[kv]
                == ScoreManyOption::Vars(v) && (forall|j: int|
                kv < j < opts.len() ==> !(opts[j] is Vars)) ==> command_spec(
                seq![prog, "score-many"@] + options_texts(opts),
            ) == Ok::<CommandSpec, CliErrorSpec>(
                CommandSpec::ScoreMany {
                    orig: o,
                    vars: v,
                    no_cache: exists|i: int| 0 <= i < opts.len() && opts[i] is NoCache,
                    profile: exists|i: int| 0 <= i < opts.len() && opts[i] is Profile,
                },
            ),
        (forall|i: int| 0 <= i < opts.len() ==> !(opts[i] is Orig)) || (forall|i: int|
            0 <= i < opts.len() ==> !(opts[i] is Vars)) ==> command_spec(
            seq![prog, "score-many"@] + options_texts(opts),
        ) == Err::<CommandSpec, CliErrorSpec>(CliErrorSpec::ScoreManyMissing),
{
    let pre = seq![prog, "score-many"@];
    let init = ScoreManyScan { orig: None, vars: None, no_cache: false, profile: false };
    lemma_scan_options(pre, opts, init);
    lemma_apply_options(init, opts);
    let a = pre + options_texts(opts);
    assert(a[1] == "score-many"@);
    assert(a.len() >= 2);
}

/// Below this many pixels the single-pair form runs the CPU engine unless
/// the GPU is forced.
pub const GPU_ROUTE_MIN_PIXELS: u64 = 500000u64;

/// The engine a single pair is scored with.
#[derive(Clone, Copy, Debug, PartialEq, Eq, Structural)]
pub enum Engine {
    /// The in-process CPU engine.
    Cpu,
    /// The GPU engine (the CPU engine takes over when no device is usable).
    Gpu,
}

/// How a single pair is scored.
#[derive(Clone, Copy, Debug, PartialEq, Eq, Structural)]
pub struct PairPlan {
    pub engine: Engine,
    /// The CPU engine was chosen by the size rule rather than by `--cpu`
    /// (a note says so).
    pub routing_note: bool,
    /// The original has alpha: score over two backgrounds (0.1 and 0.9) and
    /// keep the worse score; otherwise one pass over background 0.5.
    pub worst_of_backgrounds: bool,
}

/// A `w x h` pair is routed to the CPU engine by size: the GPU is not
/// forced and the pair has fewer than `GPU_ROUTE_MIN_PIXELS` pixels.
pub open spec fn routed_to_cpu(force_gpu: bool, w: usize, h: usize) -> bool {
    !force_gpu && w * h < GPU_ROUTE_MIN_PIXELS
}

/// Decides how a single `w x h` pair is scored: the CPU engine when forced
/// or routed by size, the GPU engine otherwise; the dual background pass
/// only when the original image has alpha.
pub fn plan_pair(force_cpu: bool, force_gpu: bool, w: usize, h: usize, orig_has_alpha: bool) -> (r:
    PairPlan)
    ensures
        r.engine == (if force_cpu || routed_to_cpu(force_gpu, w, h) {
            Engine::Cpu
        } else {
            Engine::Gpu
        }),
        r.routing_note == (routed_to_cpu(force_gpu, w, h) && !force_cpu),
        r.worst_of_backgrounds == orig_has_alpha,
{
    assert((w as u128) * (h as u128) <= (u64::MAX as u128) * (u64::MAX as u128)) by (
    nonlinear_arith)
        requires
            w <= u64::MAX,
            h <= u64::MAX,
    ;
    let routed = !force_gpu && (w as u128) * (h as u128) < GPU_ROUTE_MIN_PIXELS as u128;
    let engine = if force_cpu || routed {
        Engine::Cpu
    } else {
        Engine::Gpu
    };
    PairPlan { engine, routing_note: routed && !force_cpu, worst_of_backgrounds: orig_has_alpha }
}

/// Forcing an engine is never overridden by the size rule: `--gpu` is
/// never routed to the CPU (and gets no routing note), and `--cpu` always
/// runs the CPU engine without a routing note.
pub proof fn lemma_forced_engines_not_routed(w: usize, h: usize)
    ensures
        !routed_to_cpu(true, w, h),
        routed_to_cpu(false, w, h) == (w * h < GPU_ROUTE_MIN_PIXELS),
{
}

/// The basenames already written by one normalisation run, so that two
/// inputs with the same basename cannot overwrite each other.
pub struct NameSet {
    names: Vec<String>,
}

impl NameSet {
    /// The basenames seen so far.
    pub closed spec fn contents(self) -> Set<Seq<char>> {
        Set::new(|x: Seq<char>| exists|i: int| 0 <= i < self.names@.len() && self.names@[i]@ == x)
    }

    /// An empty set.
    pub fn new() -> (r: Self)
        ensures
            r.contents() == Set::<Seq<char>>::empty(),
    {
        let r = NameSet { names: Vec::new() };
        assert(r.contents() =~= Set::<Seq<char>>::empty());
        r
    }

    /// Adds `name`; returns whether it was new (false means a collision).
    pub fn insert(&mut self, name: String) -> (fresh: bool)
        ensures
            fresh == !old(self).contents().contains(name@),
            final(self).contents() == old(self).contents().insert(name@),
    {
        let mut i: usize = 0;
        while i < self.names.len()
            invariant
                i <= self.names@.len(),
                forall|j: int| 0 <= j < i ==> self.names@[j]@ != name@,
            decreases self.names@.len() - i,
        {
            if str_eq(self.names[i].as_str(), name.as_str()) {
                proof {
                    assert(old(self).contents().contains(name@));
                    assert(old(self).contents().insert(name@) =~= old(self).contents());
                }
                return false;
            }
            i = i + 1;
        }
        let ghost before = self.names@;
        self.names.push(name);
        proof {
            assert(self.contents() =~= old(self).contents().insert(self.names@[before.len() as int]@)) by {
                assert forall|x: Seq<char>| self.contents().contains(x) <==> old(self).contents().insert(self.names@[before.len() as int]@).contains(x) by {
                    if self.contents().contains(x) {
                        let j = choose|j: int| 0 <= j < self.names@.len() && self.names@[j]@ == x;
                        if j < before.len() {
                            assert(before[j]@ == x);
                        }
                    }
                    if old(self).contents().contains(x) {
                        let j = choose|j: int| 0 <= j < before.len() && before[j]@ == x;
                        assert(self.names@[j]@ == x);
                    }
                }
            }
        }
        true
    }
}

} // verus!
