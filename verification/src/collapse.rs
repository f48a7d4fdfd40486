//! Folding of recursive call cycles.
//!
//! A pattern is one period of a known cycle of calls. Where a stack runs
//! through such a cycle again and again, the fold keeps the first period and
//! what the run goes on with after its last whole period, and drops the periods
//! in between.

use vstd::prelude::*;

verus! {

/// Whether `pattern` begins with `name`. An empty pattern begins with nothing.
pub open spec fn starts_with(pattern: Seq<Seq<char>>, name: Seq<char>) -> bool {
    pattern.len() > 0 && pattern[0] == name
}

/// The index of the first pattern from `from` on that begins with `name`.
pub open spec fn pattern_for(patterns: Seq<Seq<Seq<char>>>, name: Seq<char>, from: int) -> Option<
    int,
>
    decreases patterns.len() - from + 1,
{
    if from < 0 || from >= patterns.len() {
        None
    } else if starts_with(patterns[from], name) {
        Some(from)
    } else {
        pattern_for(patterns, name, from + 1)
    }
}

/// How many further names follow the pattern cyclically, when the `matched`
/// names from `start` on already do.
pub open spec fn run_beyond(
    names: Seq<Seq<char>>,
    start: int,
    pattern: Seq<Seq<char>>,
    matched: nat,
) -> nat
    decreases names.len() - start - matched,
{
    if pattern.len() > 0 && 0 <= start && start + matched < names.len() && names[start + matched]
        == pattern[(matched % pattern.len()) as int] {
        1 + run_beyond(names, start, pattern, matched + 1)
    } else {
        0
    }
}

/// The length of the run that begins at `start`, whose name begins `pattern`:
/// that name and every name after it that follows the pattern cyclically.
pub open spec fn run_length(names: Seq<Seq<char>>, start: int, pattern: Seq<Seq<char>>) -> nat {
    1 + run_beyond(names, start, pattern, 1)
}

/// How many names stand for a run of `run` names along a pattern of `period`
/// names: the run itself while it is shorter than a period, else one period
/// and the part of a period that the run ends with.
pub open spec fn kept(period: nat, run: nat) -> nat {
    if period == 0 || run < period {
        run
    } else {
        period + run % period
    }
}

/// What stands for a run of `run` names along `pattern`.
pub open spec fn folded(pattern: Seq<Seq<char>>, run: nat) -> Seq<Seq<char>> {
    Seq::new(kept(pattern.len(), run), |k: int| pattern[k % (pattern.len() as int)])
}

/// The fold of the names from `at` on.
pub open spec fn collapse_from(names: Seq<Seq<char>>, patterns: Seq<Seq<Seq<char>>>, at: int) -> Seq<
    Seq<char>,
>
    decreases names.len() - at,
    via collapse_from_terminates
{
    if at < 0 || at >= names.len() {
        Seq::empty()
    } else {
        match pattern_for(patterns, names[at], 0) {
            None => seq![names[at]] + collapse_from(names, patterns, at + 1),
            Some(p) => {
                let run = run_length(names, at, patterns[p]);
                folded(patterns[p], run) + collapse_from(names, patterns, at + run)
            },
        }
    }
}

#[via_fn]
proof fn collapse_from_terminates(names: Seq<Seq<char>>, patterns: Seq<Seq<Seq<char>>>, at: int) {
    if 0 <= at < names.len() {
        match pattern_for(patterns, names[at], 0) {
            None => {},
            Some(p) => {
                lemma_run_bound(names, at, patterns[p], 1);
            },
        }
    }
}

/// A run ends within the names.
pub proof fn lemma_run_bound(
    names: Seq<Seq<char>>,
    start: int,
    pattern: Seq<Seq<char>>,
    matched: nat,
)
    requires
        start + matched <= names.len(),
    ensures
        start + matched + run_beyond(names, start, pattern, matched) <= names.len(),
    decreases names.len() - start - matched,
{
    if pattern.len() > 0 && 0 <= start && start + matched < names.len() && names[start + matched]
        == pattern[(matched % pattern.len()) as int] {
        lemma_run_bound(names, start, pattern, matched + 1);
    }
}

/// The pattern that is found for a name begins with it, and no pattern before
/// it does.
pub proof fn lemma_pattern_for(patterns: Seq<Seq<Seq<char>>>, name: Seq<char>, from: int)
    requires
        0 <= from,
    ensures
        pattern_for(patterns, name, from) matches Some(p) ==> from <= p < patterns.len()
            && starts_with(patterns[p], name) && forall|q: int|
            from <= q < p ==> !starts_with(#[trigger] patterns[q], name),
        pattern_for(patterns, name, from) is None ==> forall|q: int|
            from <= q < patterns.len() ==> !starts_with(#[trigger] patterns[q], name),
    decreases patterns.len() - from + 1,
{
    if from < patterns.len() && !starts_with(patterns[from], name) {
        lemma_pattern_for(patterns, name, from + 1);
    }
}

/// The fold of a stack of names, outermost first: the names are read from left
/// to right; a name that begins a pattern opens a run, which is replaced by
/// what `folded` keeps of it; any other name stays.
pub open spec fn collapsed(names: Seq<Seq<char>>, patterns: Seq<Seq<Seq<char>>>) -> Seq<Seq<char>> {
    collapse_from(names, patterns, 0)
}

/// `pattern` written `times` times in a row.
pub open spec fn repeated(pattern: Seq<Seq<char>>, times: nat) -> Seq<Seq<char>>
    decreases times,
{
    if times == 0 {
        Seq::empty()
    } else {
        repeated(pattern, (times - 1) as nat) + pattern
    }
}

/// Whether no name of `names` begins a pattern.
pub open spec fn begins_no_pattern(names: Seq<Seq<char>>, patterns: Seq<Seq<Seq<char>>>) -> bool {
    forall|j: int| 0 <= j < names.len() ==> pattern_for(patterns, #[trigger] names[j], 0) is None
}

/// What is kept of a run: never more than the run itself nor as much as two
/// periods; the run as it is while it is shorter than two periods; and, once
/// the run holds a whole period, the pattern first.
pub proof fn lemma_folded(pattern: Seq<Seq<char>>, run: nat)
    requires
        pattern.len() > 0,
    ensures
        folded(pattern, run).len() <= run,
        folded(pattern, run).len() < 2 * pattern.len(),
        run < 2 * pattern.len() ==> folded(pattern, run).len() == run,
        run >= pattern.len() ==> folded(pattern, run).take(pattern.len() as int) == pattern,
{
    let period = pattern.len() as int;
    assert(0 <= run as int % period < period) by (nonlinear_arith)
        requires
            period > 0,
    ;
    assert(run >= period ==> period + run as int % period <= run) by (nonlinear_arith)
        requires
            period > 0,
    ;
    assert(period <= run < 2 * period ==> run as int % period == run - period) by (nonlinear_arith)
        requires
            period > 0,
    ;
    if run >= period {
        assert forall|k: int| 0 <= k < period implies #[trigger] folded(pattern, run).take(
            period,
        )[k] == pattern[k] by {
            vstd::arithmetic::div_mod::lemma_small_mod(k as nat, period as nat);
        }
        assert(folded(pattern, run).take(period) =~= pattern);
    }
}

/// Names none of which begins a pattern fold to themselves, whatever stands
/// before them.
pub proof fn lemma_rest_unchanged(names: Seq<Seq<char>>, patterns: Seq<Seq<Seq<char>>>, at: int)
    requires
        0 <= at <= names.len(),
        begins_no_pattern(names.skip(at), patterns),
    ensures
        collapse_from(names, patterns, at) == names.skip(at),
    decreases names.len() - at,
{
    if at < names.len() {
        assert(names.skip(at)[0] == names[at]);
        assert forall|j: int| 0 <= j < names.skip(at + 1).len() implies pattern_for(
            patterns,
            #[trigger] names.skip(at + 1)[j],
            0,
        ) is None by {
            assert(names.skip(at + 1)[j] == names.skip(at)[j + 1]);
        }
        lemma_rest_unchanged(names, patterns, at + 1);
        assert(seq![names[at]] + names.skip(at + 1) =~= names.skip(at));
    } else {
        assert(names.skip(at) =~= Seq::<Seq<char>>::empty());
    }
}

/// A stack in which no name begins a pattern is its own fold.
pub proof fn lemma_unmatched_unchanged(names: Seq<Seq<char>>, patterns: Seq<Seq<Seq<char>>>)
    requires
        begins_no_pattern(names, patterns),
    ensures
        collapsed(names, patterns) == names,
{
    assert(names.skip(0) =~= names);
    lemma_rest_unchanged(names, patterns, 0);
}

/// The names of a repeated pattern are those of the pattern, taken cyclically.
pub proof fn lemma_repeated(pattern: Seq<Seq<char>>, times: nat)
    requires
        pattern.len() > 0,
    ensures
        repeated(pattern, times).len() == times * pattern.len(),
        forall|j: int|
            0 <= j < times * pattern.len() ==> #[trigger] repeated(pattern, times)[j]
                == pattern[j % (pattern.len() as int)],
    decreases times,
{
    let period = pattern.len() as int;
    if times > 0 {
        let fewer = (times - 1) as nat;
        lemma_repeated(pattern, fewer);
        assert(times * period == fewer * period + period) by (nonlinear_arith)
            requires
                fewer == times - 1,
        ;
        assert forall|j: int| 0 <= j < times * period implies #[trigger] repeated(pattern, times)[j]
            == pattern[j % period] by {
            if j >= fewer * period {
                let r = j - fewer * period;
                vstd::arithmetic::div_mod::lemma_mod_multiples_vanish(fewer as int, r, period);
                vstd::arithmetic::div_mod::lemma_small_mod(r as nat, period as nat);
                assert(period * fewer + r == j) by (nonlinear_arith)
                    requires
                        r == j - fewer * period,
                ;
            }
        }
    } else {
        assert(times * period == 0) by (nonlinear_arith)
            requires
                times == 0,
        ;
    }
}

/// A pattern written one or more times, with names behind it none of which
/// begins a pattern, folds to the pattern once and those names unchanged:
/// however often it was written. The pattern is the one that is found for
/// its first name.
pub proof fn lemma_repeats_fold_once(
    pattern: Seq<Seq<char>>,
    times: nat,
    rest: Seq<Seq<char>>,
    patterns: Seq<Seq<Seq<char>>>,
)
    requires
        times >= 1,
        pattern.len() > 0,
        pattern_for(patterns, pattern[0], 0) matches Some(p) && patterns[p] == pattern,
        begins_no_pattern(rest, patterns),
    ensures
        collapsed(repeated(pattern, times) + rest, patterns) == pattern + rest,
{
    let period = pattern.len() as int;
    let whole = (times * pattern.len()) as int;
    let names = repeated(pattern, times) + rest;
    let p = pattern_for(patterns, pattern[0], 0).unwrap();
    lemma_repeated(pattern, times);
    lemma_pattern_for(patterns, pattern[0], 0);
    assert(whole >= period) by (nonlinear_arith)
        requires
            whole == times * period,
            times >= 1,
            period > 0,
    ;
    vstd::arithmetic::div_mod::lemma_mod_multiples_basic(times as int, period);
    vstd::arithmetic::div_mod::lemma_small_mod(0, period as nat);
    assert(names[0] == repeated(pattern, times)[0]);
    assert(names[0] == pattern[0]);
    if rest.len() > 0 {
        assert(names[whole] == rest[0]);
        assert(pattern_for(patterns, rest[0], 0) is None);
        lemma_pattern_for(patterns, rest[0], 0);
        assert(names[whole] != pattern[0]);
    }
    lemma_run_through(names, pattern, whole, 1);
    assert(run_length(names, 0, pattern) == whole);
    assert(folded(pattern, whole as nat) =~= pattern) by {
        assert(kept(period as nat, whole as nat) == period);
        assert forall|k: int| 0 <= k < period implies #[trigger] folded(pattern, whole as nat)[k]
            == pattern[k] by {
            vstd::arithmetic::div_mod::lemma_small_mod(k as nat, period as nat);
        }
    }
    assert(names.skip(whole) =~= rest);
    lemma_rest_unchanged(names, patterns, whole);
}

/// Where the first `whole` names follow the pattern cyclically and the next
/// one does not go on with it, the run is `whole` names long.
proof fn lemma_run_through(names: Seq<Seq<char>>, pattern: Seq<Seq<char>>, whole: int, matched: nat)
    requires
        pattern.len() > 0,
        matched <= whole <= names.len(),
        forall|j: int| 0 <= j < whole ==> #[trigger] names[j] == pattern[j % (pattern.len() as int)],
        whole < names.len() ==> names[whole] != pattern[whole % (pattern.len() as int)],
    ensures
        matched + run_beyond(names, 0, pattern, matched) == whole,
    decreases whole - matched,
{
    if matched < whole {
        lemma_run_through(names, pattern, whole, matched + 1);
    }
}

/// Finds the first pattern that begins with `name`.
pub fn find_pattern(patterns: &Vec<Vec<String>>, name: &String) -> (found: Option<usize>)
    ensures
        found matches Some(p) ==> p < patterns@.len() && patterns@[p as int]@.len() > 0
            && pattern_for(patterns.deep_view(), name@, 0) == Some(p as int),
        found is None ==> pattern_for(patterns.deep_view(), name@, 0) is None,
{
    let mut p: usize = 0;
    while p < patterns.len()
        invariant
            p <= patterns@.len(),
            pattern_for(patterns.deep_view(), name@, 0) == pattern_for(
                patterns.deep_view(),
                name@,
                p as int,
            ),
        decreases patterns@.len() - p,
    {
        let pattern = &patterns[p];
        assert(patterns.deep_view()[p as int] == pattern.deep_view());
        if pattern.len() > 0 {
            assert(pattern.deep_view()[0] == pattern@[0]@);
            if pattern[0] == *name {
                return Some(p);
            }
        }
        p += 1;
    }
    None
}

/// Measures the run along `pattern` that begins at `start`.
fn measure_run(names: &Vec<String>, start: usize, pattern: &Vec<String>) -> (run: usize)
    requires
        start < names@.len(),
        pattern@.len() > 0,
    ensures
        run == run_length(names.deep_view(), start as int, pattern.deep_view()),
        1 <= run <= names@.len() - start,
{
    let period: usize = pattern.len();
    let left: usize = names.len() - start;
    let mut run: usize = 1;
    while run < left && names[start + run] == pattern[run % period]
        invariant
            1 <= run <= left,
            left == names@.len() - start,
            names@.len() <= usize::MAX,
            period == pattern@.len(),
            period > 0,
            run_length(names.deep_view(), start as int, pattern.deep_view()) == run + run_beyond(
                names.deep_view(),
                start as int,
                pattern.deep_view(),
                run as nat,
            ),
            run < left ==> (names.deep_view()[start + run] == pattern.deep_view()[(run
                % period) as int] <==> names@[start + run]@ == pattern@[(run % period) as int]@),
        decreases left - run,
    {
        run += 1;
        proof {
            if run < left {
                assert(names.deep_view()[start + run] == names@[start + run]@);
                assert(pattern.deep_view()[(run % period) as int] == pattern@[(run
                    % period) as int]@);
            }
        }
    }
    run
}

/// Folds the recursive runs of a stack of names, outermost first.
///
/// The patterns are tried in their order, and a pattern without names is
/// never found. A stack in which no pattern is gone through twice in a row
/// comes back as it is.
pub fn collapse(names: &Vec<String>, patterns: &Vec<Vec<String>>) -> (out: Vec<String>)
    ensures
        out.deep_view() == collapsed(names.deep_view(), patterns.deep_view()),
{
    let ghost all = names.deep_view();
    let ghost known = patterns.deep_view();
    let mut out: Vec<String> = Vec::new();
    let mut at: usize = 0;
    assert(out.deep_view() =~= Seq::<Seq<char>>::empty());
    while at < names.len()
        invariant
            at <= names@.len(),
            all == names.deep_view(),
            known == patterns.deep_view(),
            out.deep_view() + collapse_from(all, known, at as int) == collapsed(all, known),
        decreases names@.len() - at,
    {
        let ghost before = out.deep_view();
        assert(all[at as int] == names@[at as int]@);
        match find_pattern(patterns, &names[at]) {
            None => {
                out.push(names[at].clone());
                proof {
                    assert(out.deep_view() =~= before + seq![all[at as int]]);
                    assert(before + (seq![all[at as int]] + collapse_from(all, known, at + 1))
                        =~= (before + seq![all[at as int]]) + collapse_from(all, known, at + 1));
                }
                at += 1;
            },
            Some(p) => {
                let pattern = &patterns[p];
                let ghost cycle = pattern.deep_view();
                assert(known[p as int] == cycle);
                let period: usize = pattern.len();
                let run: usize = measure_run(names, at, pattern);
                assert(run >= period ==> period + run % period <= run) by (nonlinear_arith)
                    requires
                        period > 0,
                ;
                let keep: usize = if run < period {
                    run
                } else {
                    period + run % period
                };
                let mut k: usize = 0;
                while k < keep
                    invariant
                        k <= keep,
                        period == pattern@.len(),
                        period > 0,
                        cycle == pattern.deep_view(),
                        keep == kept(period as nat, run as nat),
                        out.deep_view() == before + folded(cycle, run as nat).take(k as int),
                    decreases keep - k,
                {
                    let ghost so_far = out.deep_view();
                    out.push(pattern[k % period].clone());
                    proof {
                        let next = pattern@[(k % period) as int]@;
                        assert(cycle[(k % period) as int] == next);
                        assert(out.deep_view() =~= so_far.push(next));
                        assert(folded(cycle, run as nat).take(k + 1) =~= folded(
                            cycle,
                            run as nat,
                        ).take(k as int).push(next));
                        assert(out.deep_view() =~= before + folded(cycle, run as nat).take(k + 1));
                    }
                    k += 1;
                }
                proof {
                    assert(folded(cycle, run as nat).take(keep as int) =~= folded(
                        cycle,
                        run as nat,
                    ));
                    assert(before + (folded(cycle, run as nat) + collapse_from(
                        all,
                        known,
                        at + run,
                    )) =~= (before + folded(cycle, run as nat)) + collapse_from(
                        all,
                        known,
                        at + run,
                    ));
                }
                at += run;
            },
        }
    }
    assert(out.deep_view() + Seq::<Seq<char>>::empty() =~= out.deep_view());
    out
}

} // verus!
