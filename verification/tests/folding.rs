use guest_profiler::collapse::{collapse, find_pattern};
use guest_profiler::signature::{folded_signature, signature};
use guest_profiler::symbols::SymbolError;

fn names(list: &[&str]) -> Vec<String> {
    list.iter().map(|s| s.to_string()).collect()
}

fn cycle() -> Vec<Vec<String>> {
    vec![names(&["a", "b", "c"])]
}

fn translator() -> Vec<Vec<String>> {
    vec![names(&[
        "kernel::dbt::translate::translate_with_stack",
        "kernel::dbt::translate::FunctionTranslator::translate_block",
        "kernel::dbt::translate::FunctionTranslator::translate_statement",
    ])]
}

#[test]
fn a_pattern_written_k_times_folds_to_one() {
    for k in 1..6 {
        let mut stack = Vec::new();
        for _ in 0..k {
            stack.extend(names(&["a", "b", "c"]));
        }
        stack.extend(names(&["x", "y"]));
        assert_eq!(collapse(&stack, &cycle()), names(&["a", "b", "c", "x", "y"]), "k = {}", k);
    }
}

#[test]
fn a_stack_inside_one_run_folds_to_one_period() {
    let stack = names(&["a", "b", "c", "a", "b", "c", "a", "b", "c"]);
    assert_eq!(collapse(&stack, &cycle()), names(&["a", "b", "c"]));
}

#[test]
fn names_before_a_run_stay() {
    let stack = names(&["main", "run", "a", "b", "c", "a", "b", "c", "leaf"]);
    assert_eq!(collapse(&stack, &cycle()), names(&["main", "run", "a", "b", "c", "leaf"]));
}

#[test]
fn a_stack_without_a_pattern_is_unchanged() {
    let stack = names(&["main", "b", "c", "x", "c", "b"]);
    assert_eq!(collapse(&stack, &cycle()), stack);
    assert_eq!(collapse(&stack, &Vec::new()), stack);
    assert_eq!(collapse(&Vec::new(), &cycle()), Vec::<String>::new());
}

#[test]
fn a_single_pass_through_a_pattern_is_unchanged() {
    let stack = names(&["main", "a", "b", "c", "leaf"]);
    assert_eq!(collapse(&stack, &cycle()), stack);
}

#[test]
fn a_partial_period_at_the_end_of_a_run_is_kept() {
    let stack = names(&["a", "b", "c", "a", "b", "c", "a", "b", "leaf"]);
    assert_eq!(collapse(&stack, &cycle()), names(&["a", "b", "c", "a", "b", "leaf"]));
    let stack = names(&["a", "b", "c", "a", "b", "c", "a"]);
    assert_eq!(collapse(&stack, &cycle()), names(&["a", "b", "c", "a"]));
    let stack = names(&["a", "b", "c", "a"]);
    assert_eq!(collapse(&stack, &cycle()), names(&["a", "b", "c", "a"]));
}

#[test]
fn a_run_shorter_than_a_period_is_unchanged() {
    let stack = names(&["a", "b", "x"]);
    assert_eq!(collapse(&stack, &cycle()), stack);
    let stack = names(&["a"]);
    assert_eq!(collapse(&stack, &cycle()), stack);
    let stack = names(&["a", "x", "a", "b", "y"]);
    assert_eq!(collapse(&stack, &cycle()), stack);
}

#[test]
fn the_name_that_ends_a_run_is_read_again() {
    let stack = names(&["a", "b", "c", "a", "b", "c", "x", "a", "b", "c", "a", "b", "c", "y"]);
    assert_eq!(collapse(&stack, &cycle()), names(&["a", "b", "c", "x", "a", "b", "c", "y"]));
    let patterns = vec![names(&["a", "b"]), names(&["c", "d"])];
    let stack = names(&["a", "b", "a", "b", "c", "d", "c", "d", "c", "d", "e"]);
    assert_eq!(collapse(&stack, &patterns), names(&["a", "b", "c", "d", "e"]));
}

#[test]
fn a_pattern_of_one_name_folds_its_repeats() {
    let patterns = vec![names(&["r"])];
    let stack = names(&["m", "r", "r", "r", "r", "x", "r"]);
    assert_eq!(collapse(&stack, &patterns), names(&["m", "r", "x", "r"]));
}

#[test]
fn the_first_pattern_that_begins_with_a_name_is_taken() {
    let patterns = vec![names(&["a", "b"]), names(&["a", "c"])];
    let stack = names(&["a", "c", "a", "c", "a", "c"]);
    assert_eq!(collapse(&stack, &patterns), stack);
    let stack = names(&["a", "b", "a", "b", "a", "c"]);
    assert_eq!(collapse(&stack, &patterns), names(&["a", "b", "a", "c"]));
}

#[test]
fn a_pattern_without_names_is_never_found() {
    let patterns = vec![Vec::new(), names(&["a", "b"])];
    let stack = names(&["a", "b", "a", "b"]);
    assert_eq!(find_pattern(&patterns, &"a".to_string()), Some(1));
    assert_eq!(collapse(&stack, &patterns), names(&["a", "b"]));
    assert_eq!(collapse(&stack, &vec![Vec::new()]), stack);
}

#[test]
fn find_pattern_looks_at_first_names_only() {
    let patterns = vec![names(&["a", "b"]), names(&["c"]), names(&["a"])];
    assert_eq!(find_pattern(&patterns, &"a".to_string()), Some(0));
    assert_eq!(find_pattern(&patterns, &"c".to_string()), Some(1));
    assert_eq!(find_pattern(&patterns, &"b".to_string()), None);
    assert_eq!(find_pattern(&Vec::new(), &"a".to_string()), None);
}

#[test]
fn deep_recursion_of_the_translator_stays_short() {
    let cycle = &translator()[0];
    let mut stack = names(&["main", "kernel::start"]);
    for _ in 0..1000 {
        stack.extend(cycle.iter().cloned());
    }
    stack.push(cycle[0].clone());
    stack.push("kernel::dbt::emit".to_string());
    let folded = collapse(&stack, &translator());
    let mut expected = names(&["main", "kernel::start"]);
    expected.extend(cycle.iter().cloned());
    expected.push(cycle[0].clone());
    expected.push("kernel::dbt::emit".to_string());
    assert_eq!(folded, expected);
}

#[test]
fn folding_twice_changes_nothing_more() {
    let stack = names(&["m", "a", "b", "c", "a", "b", "c", "a", "b", "c", "a", "z", "a", "b"]);
    let once = collapse(&stack, &cycle());
    assert_eq!(once, names(&["m", "a", "b", "c", "a", "z", "a", "b"]));
    assert_eq!(collapse(&once, &cycle()), once);
}

#[test]
fn a_signature_joins_the_names_with_semicolons() {
    assert_eq!(signature(&names(&["main", "run", "leaf"])), "main;run;leaf");
    assert_eq!(signature(&names(&["main"])), "main");
    assert_eq!(signature(&Vec::new()), "");
    assert_eq!(signature(&names(&["", ""])), ";");
    assert_eq!(signature(&names(&["a;b", "c"])), "a;b;c");
}

#[test]
fn a_folded_signature_flattens_folds_and_joins() {
    let groups = vec![
        Ok(names(&["main"])),
        Ok(names(&["a", "b"])),
        Ok(names(&["c", "a", "b", "c"])),
        Err(SymbolError::NoFrames),
        Ok(names(&["leaf"])),
    ];
    assert_eq!(folded_signature(&groups, &cycle()), "main;a;b;c;???;leaf");
    assert_eq!(folded_signature(&groups, &Vec::new()), "main;a;b;c;a;b;c;???;leaf");
    assert_eq!(folded_signature(&Vec::new(), &cycle()), "");
}
