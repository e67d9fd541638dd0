use tfhe_regex::compiler::Compiler;
use tfhe_regex::machine::Machine;

fn accepts(pattern: &str, input: &str) -> bool {
    let program = Compiler::compile(pattern).unwrap();
    let mut machine = Machine::new(program);
    machine.run(input.to_string())
}

#[test]
fn alternation_should_fail() {
    let program = Compiler::compile(r"0a|bcd$").unwrap();
    let mut machine = Machine::new(program);
    assert!(!machine.run("0b".to_string()));
    machine.reset();
    assert!(!machine.run("bce".to_string()));
}

#[test]
fn alternation_should_fail_2() {
    let program = Compiler::compile(r"a(bc|ed)42$").unwrap();
    let mut machine = Machine::new(program);
    assert!(!machine.run("abd42".to_string()));
    machine.reset();
    assert!(!machine.run("abed42".to_string()));
}

#[test]
fn alternation_should_succeed_in_group() {
    let program = Compiler::compile(r"a(bc|ed)42$").unwrap();
    let mut machine = Machine::new(program);
    assert!(machine.run("abc42".to_string()));
    machine.reset();
    assert!(machine.run("aed42".to_string()));
}

#[test]
fn alternation_string_numbered_matching_should_succeed() {
    let program = Compiler::compile(r"^hel(ab{2}|l{3,}o)bc$").unwrap();
    let mut machine = Machine::new(program);
    assert!(machine.run("helabbbc".to_string()));
    machine.reset();
    assert!(machine.run("helllllllobc".to_string()));
}

#[test]
fn alternation_string_numbered_matching_should_fail() {
    let program = Compiler::compile(r"^hel(ab{2}|l{3,}o)bc$").unwrap();
    let mut machine = Machine::new(program);
    assert!(!machine.run("helabbc".to_string()));
    machine.reset();
    assert!(!machine.run("helllobc".to_string()));
}

#[test]
fn repetition_with_range_should_succeed() {
    let program = Compiler::compile(r"^01[b-e]{4}56$").unwrap();
    let mut machine = Machine::new(program);
    assert!(machine.run("01bbbb56".to_string()));
    machine.reset();
    assert!(machine.run("01bcde56".to_string()));
}

#[test]
fn repetition_with_range_should_fail() {
    let program = Compiler::compile(r"^01[b-e]{4}56$").unwrap();
    let mut machine = Machine::new(program);
    assert!(!machine.run("01bb56".to_string()));
    machine.reset();
    assert!(!machine.run("01bcfg56".to_string()));
}

#[test]
fn repetition_with_range_should_succeed_1() {
    let program = Compiler::compile(r"^hel(a[b-e]{2}|[l-n]{3,}o)bc$").unwrap();
    let mut machine = Machine::new(program);
    assert!(machine.run("helacdbc".to_string()));
    machine.reset();
    assert!(machine.run("hellllobc".to_string()));
}

#[test]
fn reset_gives_fresh_run() {
    // Running, resetting and running again returns what a fresh machine
    // returns on the second input.
    let program = Compiler::compile(r"^abc$").unwrap();
    let mut machine = Machine::new(program.clone());
    assert!(!machine.run("abx".to_string()));
    machine.reset();
    let rerun = machine.run("abc".to_string());
    let mut fresh = Machine::new(program);
    assert_eq!(rerun, fresh.run("abc".to_string()));
    assert!(rerun);
}

#[test]
fn quantifier_counts_accept_exact_run_lengths() {
    // Bracketed by anchors, a{2,4} accepts exactly runs of 2 to 4.
    assert!(!accepts(r"^a{2,4}$", "a"));
    assert!(accepts(r"^a{2,4}$", "aa"));
    assert!(accepts(r"^a{2,4}$", "aaa"));
    assert!(accepts(r"^a{2,4}$", "aaaa"));
    assert!(!accepts(r"^a{2,4}$", "aaaaa"));
    assert!(!accepts(r"^a{2,4}$", ""));
}

#[test]
fn quantifier_at_least_accepts_all_longer_runs() {
    assert!(!accepts(r"^a{3,}$", "aa"));
    assert!(accepts(r"^a{3,}$", "aaa"));
    assert!(accepts(r"^a{3,}$", "aaaaaaa"));
}

#[test]
fn anchors_pin_the_match() {
    // ^p rejects any input whose match does not begin at position 0.
    assert!(accepts(r"^ab", "abx"));
    assert!(!accepts(r"^ab", "xab"));
    // p$ rejects unless the match ends at the end of the input.
    assert!(accepts(r"ab$", "xab"));
    assert!(!accepts(r"ab$", "abx"));
    // ^p$ is exact.
    assert!(accepts(r"^ab$", "ab"));
    assert!(!accepts(r"^ab$", "xab"));
    assert!(!accepts(r"^ab$", "abx"));
}

#[test]
fn seed_scenarios() {
    assert!(accepts(r"^abc$", "abc"));
    assert!(!accepts(r"^abc$", "abccc"));
    assert!(accepts(r"^ab+c$", "abbc"));
    assert!(!accepts(r"^ab{2,4}c$", "abbbbbc"));
    assert!(accepts(r"^[^ade]$", "b"));
    assert!(accepts(r"^hel(ab{2}|l{3,}o)bc$", "helllllllobc"));
    assert!(accepts(r"^01[b-e]{4}56$", "01bcde56"));
}

#[test]
fn empty_pattern_accepts_only_empty_input() {
    assert!(accepts(r"", ""));
    assert!(!accepts(r"", "x"));
}

#[test]
fn repetition_at_end_of_input_is_skipped() {
    // A starred atom standing at the end of the input consumes nothing.
    assert!(accepts(r"^ab*$", "a"));
    assert!(accepts(r"^ab*$", "abb"));
    assert!(accepts(r"^a[b-c]*$", "a"));
    assert!(accepts(r"^ab?$", "a"));
}

#[test]
fn three_way_alternation_tries_every_branch() {
    assert!(accepts(r"^(ab|cd|ef)$", "ab"));
    assert!(accepts(r"^(ab|cd|ef)$", "cd"));
    assert!(accepts(r"^(ab|cd|ef)$", "ef"));
    assert!(!accepts(r"^(ab|cd|ef)$", "gh"));
}

#[test]
fn any_character_matches_every_byte_but_newline() {
    assert!(accepts(r"^a.c$", "abc"));
    assert!(accepts(r"^a.c$", "a!c"));
    assert!(!accepts(r"^a.c$", "a\nc"));
}
