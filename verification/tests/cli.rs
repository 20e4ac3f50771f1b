use ssimulacra2_vulkan::cli::{parse_command, plan_pair, CliError, Command, Engine, NameSet};

fn args(v: &[&str]) -> Vec<String> {
    let mut a = vec!["ssimulacra2-vulkan".to_string()];
    a.extend(v.iter().map(|s| s.to_string()));
    a
}

#[test]
fn single_pair_with_flags() {
    match parse_command(&args(&["--profile", "a.png", "--gpu", "b.png"])).unwrap() {
        Command::Pair(p) => {
            assert!(p.profile && p.force_gpu && !p.force_cpu);
            assert_eq!((p.original.as_str(), p.distorted.as_str()), ("a.png", "b.png"));
        }
        other => panic!("unexpected {other:?}"),
    }
}

#[test]
fn engine_flags_exclude_each_other_before_the_count_check() {
    assert!(matches!(parse_command(&args(&["--cpu", "--gpu", "a", "b"])), Err(CliError::ExclusiveEngines)));
    assert!(matches!(parse_command(&args(&["--cpu", "--gpu"])), Err(CliError::ExclusiveEngines)));
}

#[test]
fn pair_needs_exactly_two_images() {
    assert!(matches!(parse_command(&args(&[])), Err(CliError::Usage)));
    assert!(matches!(parse_command(&args(&["a"])), Err(CliError::Usage)));
    assert!(matches!(parse_command(&args(&["a", "b", "c"])), Err(CliError::Usage)));
}

#[test]
fn help_anywhere_wins_in_the_pair_form() {
    assert!(matches!(parse_command(&args(&["a", "-h"])), Ok(Command::Help)));
    assert!(matches!(parse_command(&args(&["--cpu", "--gpu", "--help"])), Ok(Command::Help)));
    // but not inside a subcommand
    assert!(matches!(parse_command(&args(&["normalize", "--help"])), Err(CliError::NormalizeMissing)));
}

#[test]
fn score_many_arguments() {
    match parse_command(&args(&["score-many", "--vars", "d", "--orig", "o.png", "--no-cache"])).unwrap() {
        Command::ScoreMany(s) => {
            assert_eq!((s.orig.as_str(), s.vars.as_str()), ("o.png", "d"));
            assert!(s.no_cache && !s.profile);
        }
        other => panic!("unexpected {other:?}"),
    }
    match parse_command(&args(&["score-many", "--orig", "x", "--bogus", "--vars"])) {
        Err(CliError::UnexpectedArgument(a)) => assert_eq!(a, "--bogus"),
        other => panic!("unexpected {other:?}"),
    }
    // a trailing --orig clears the value given before
    assert!(matches!(
        parse_command(&args(&["score-many", "--orig", "x", "--vars", "d", "--orig"])),
        Err(CliError::ScoreManyMissing)
    ));
}

#[test]
fn normalize_arguments() {
    match parse_command(&args(&["normalize", "a.png", "--out", "dir", "b.png"])).unwrap() {
        Command::Normalize(n) => {
            assert_eq!(n.out_dir, "dir");
            assert_eq!(n.inputs, vec!["a.png".to_string(), "b.png".to_string()]);
        }
        other => panic!("unexpected {other:?}"),
    }
    assert!(matches!(parse_command(&args(&["normalize", "--out", "dir"])), Err(CliError::NormalizeMissing)));
    assert!(matches!(parse_command(&args(&["normalize", "a.png"])), Err(CliError::NormalizeMissing)));
}

#[test]
fn small_pairs_route_to_the_cpu_unless_forced() {
    let p = plan_pair(false, false, 128, 96, false);
    assert_eq!(p.engine, Engine::Cpu);
    assert!(p.routing_note && !p.worst_of_backgrounds);
    let g = plan_pair(false, true, 128, 96, false);
    assert_eq!(g.engine, Engine::Gpu);
    assert!(!g.routing_note);
    let c = plan_pair(true, false, 128, 96, true);
    assert_eq!(c.engine, Engine::Cpu);
    assert!(!c.routing_note && c.worst_of_backgrounds);
    let big = plan_pair(false, false, 2048, 2048, false);
    assert_eq!(big.engine, Engine::Gpu);
    assert!(!big.routing_note);
    // the threshold itself is not below the threshold
    assert_eq!(plan_pair(false, false, 500, 1000, false).engine, Engine::Gpu);
    assert_eq!(plan_pair(false, false, 499, 1002, false).engine, Engine::Cpu);
}

#[test]
fn basename_collisions_are_detected() {
    let mut s = NameSet::new();
    assert!(s.insert("same.png".to_string()));
    assert!(s.insert("other.png".to_string()));
    assert!(!s.insert("same.png".to_string()));
}
