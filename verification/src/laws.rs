//! What holds of every grammar, separator and input: the properties that
//! make the separator-aware combinators safe to compose.

use crate::grammar::{Branch, Grammar, Step};
use crate::outcome::{leaf_model, ErrorKind, Mode, OutcomeModel, ValueModel};
use crate::semantics::{
    alt_spec, branch_output, chain_spec, commit, keep_if, many_kind, many_spec, no_progress,
    parse_spec, trimmed_spec, wrap_spec, ws_spec,
};
use crate::separator::{
    after_separator, all_separators, lemma_eat_prepend, lemma_eat_splits,
    lemma_run_length_bounds, lemma_run_length_prepend, whitespace_bytes,
};
use vstd::prelude::*;

verus! {

/// How the outcome on an input with more separator bytes in front relates
/// to a success on the input itself: it is the same success, or neither run
/// consumed anything, the separator bytes included.
pub open spec fn same_or_untouched(
    short: OutcomeModel,
    long: OutcomeModel,
    lead: Seq<u8>,
    input: Seq<u8>,
) -> bool {
    short matches OutcomeModel::Success(rest, value) ==> {
        ||| long == short
        ||| rest == input && long == OutcomeModel::Success(lead + input, value)
    }
}

/// The separator, then the grammar: more separator bytes in front change
/// nothing at all.
pub proof fn lemma_wrap_ignores_lead(
    g: Grammar,
    set: Seq<u8>,
    mode: Mode,
    lead: Seq<u8>,
    input: Seq<u8>,
)
    requires
        all_separators(set, lead),
    ensures
        wrap_spec(g, set, mode, lead + input) == wrap_spec(g, set, mode, input),
{
    lemma_eat_prepend(set, lead, input);
}

/// A grammar that succeeds on an input succeeds with the same output when
/// more separator bytes stand in front; it leaves the same input, unless
/// it consumed nothing in either run.
pub proof fn lemma_parse_tolerates_lead(
    g: Grammar,
    set: Seq<u8>,
    mode: Mode,
    lead: Seq<u8>,
    input: Seq<u8>,
)
    requires
        all_separators(set, lead),
    ensures
        same_or_untouched(
            parse_spec(g, set, mode, input),
            parse_spec(g, set, mode, lead + input),
            lead,
            input,
        ),
    decreases g, 1nat, 0nat,
{
    lemma_eat_prepend(set, lead, input);
    match g {
        Grammar::Chain { lead: led, steps } => {
            if !led {
                lemma_chain_tolerates_lead(steps@, set, mode, 0, lead, input, Seq::empty());
            }
        },
        Grammar::Many { at_least_one, element } => {
            lemma_many_tolerates_lead(*element, at_least_one, set, mode, lead, input);
        },
        _ => {},
    }
}

/// The same for a repetition that has found nothing yet. Skipped
/// separator bytes do not count as consumed, so the first round stalls on
/// the longer input exactly where it stalls on the shorter one.
pub proof fn lemma_many_tolerates_lead(
    element: Grammar,
    at_least_one: bool,
    set: Seq<u8>,
    mode: Mode,
    lead: Seq<u8>,
    input: Seq<u8>,
)
    requires
        all_separators(set, lead),
    ensures
        same_or_untouched(
            many_spec(element, at_least_one, set, mode, input, Seq::empty()),
            many_spec(element, at_least_one, set, mode, lead + input, Seq::empty()),
            lead,
            input,
        ),
{
    let found = Seq::<ValueModel>::empty();
    lemma_wrap_ignores_lead(element, set, mode, lead, input);
    lemma_run_length_prepend(set, lead, input);
    let short = many_spec(element, at_least_one, set, mode, input, found);
    let long = many_spec(element, at_least_one, set, mode, lead + input, found);
    match wrap_spec(element, set, mode, input) {
        OutcomeModel::Success(rest, value) => {
            assert(no_progress(set, lead + input, rest) == no_progress(set, input, rest));
            if !no_progress(set, input, rest) {
                let next = many_spec(element, at_least_one, set, mode, rest, found.push(value));
                assert(short == next);
                assert(long == next);
            }
        },
        OutcomeModel::Recoverable(_) => {
            if !at_least_one {
                assert(short == OutcomeModel::Success(input, ValueModel::List(found)));
                assert(long == OutcomeModel::Success(lead + input, ValueModel::List(found)));
            }
        },
        _ => {},
    }
}

/// The same for the steps of a sequence from step `i` on.
pub proof fn lemma_chain_tolerates_lead(
    steps: Seq<Step>,
    set: Seq<u8>,
    mode: Mode,
    i: nat,
    lead: Seq<u8>,
    input: Seq<u8>,
    kept: Seq<ValueModel>,
)
    requires
        all_separators(set, lead),
    ensures
        same_or_untouched(
            chain_spec(steps, set, mode, i, input, kept),
            chain_spec(steps, set, mode, i, lead + input, kept),
            lead,
            input,
        ),
    decreases steps, 0nat, steps.len() - i,
{
    if i < steps.len() {
        let step = steps[i as int];
        lemma_parse_tolerates_lead(step.parser, set, mode, lead, input);
        match parse_spec(step.parser, set, mode, input) {
            OutcomeModel::Success(rest, value) => {
                if parse_spec(step.parser, set, mode, lead + input) != OutcomeModel::Success(
                    rest,
                    value,
                ) {
                    lemma_chain_tolerates_lead(
                        steps,
                        set,
                        mode,
                        i + 1,
                        lead,
                        input,
                        keep_if(kept, step.keep, value),
                    );
                }
            },
            _ => {},
        }
    }
}

/// Leading separator bytes do not change what a grammar produces: where
/// the grammar, run with trailing separators skipped, succeeds on an input,
/// it succeeds with the same output and the same remaining input when any
/// run of separator bytes stands in front.
pub proof fn law_leading_separator_ignored(
    g: Grammar,
    set: Seq<u8>,
    mode: Mode,
    lead: Seq<u8>,
    input: Seq<u8>,
)
    requires
        all_separators(set, lead),
        trimmed_spec(g, set, mode, input) is Success,
    ensures
        trimmed_spec(g, set, mode, lead + input) == trimmed_spec(g, set, mode, input),
{
    lemma_parse_tolerates_lead(g, set, mode, lead, input);
    lemma_eat_prepend(set, lead, input);
}

/// The same for whitespace, the default separator.
pub proof fn law_leading_whitespace_ignored(g: Grammar, mode: Mode, lead: Seq<u8>, input: Seq<u8>)
    requires
        all_separators(whitespace_bytes(), lead),
        ws_spec(g, mode, input) is Success,
    ensures
        ws_spec(g, mode, lead + input) == ws_spec(g, mode, input),
{
    law_leading_separator_ignored(g, whitespace_bytes(), mode, lead, input);
}

/// A grammar that starts by skipping separators returns the very same
/// outcome, errors included, when more separator bytes stand in front.
/// Every grammar does so but a sequence without a leading skip and a
/// repetition.
pub proof fn law_separator_consumed_once(
    g: Grammar,
    set: Seq<u8>,
    mode: Mode,
    lead: Seq<u8>,
    input: Seq<u8>,
)
    requires
        all_separators(set, lead),
        !(g matches Grammar::Chain { lead: false, .. }),
        !(g is Many),
    ensures
        parse_spec(g, set, mode, lead + input) == parse_spec(g, set, mode, input),
{
    lemma_eat_prepend(set, lead, input);
}

/// After a run with trailing separators skipped, no separator byte is left
/// at the start of the remaining input.
pub proof fn law_trailing_separator_consumed(g: Grammar, set: Seq<u8>, mode: Mode, input: Seq<u8>)
    ensures
        trimmed_spec(g, set, mode, input) matches OutcomeModel::Success(rest, _) ==> rest.len() == 0
            || !set.contains(rest[0]),
{
    match parse_spec(g, set, mode, input) {
        OutcomeModel::Success(rest, _) => {
            lemma_eat_splits(set, rest);
        },
        _ => {},
    }
}

/// A branch that fails recoverably commits nothing: the next branch runs
/// on the input the alternation started with, not on what the failed
/// branch, or the separator skipped before it, may have consumed.
pub proof fn law_alt_backtracks_to_start(
    branches: Seq<Branch>,
    complete: bool,
    set: Seq<u8>,
    mode: Mode,
    i: nat,
    start: Seq<u8>,
)
    requires
        i < branches.len(),
        parse_spec(branches[i as int].parser, set, mode, start) is Recoverable,
    ensures
        alt_spec(branches, complete, set, mode, i, start) == alt_spec(
            branches,
            complete,
            set,
            mode,
            i + 1,
            start,
        ),
{
}

/// Of two branches of which the first fails recoverably, the second
/// decides, on the same input.
pub proof fn law_alt_second_branch(
    first: Branch,
    second: Branch,
    set: Seq<u8>,
    mode: Mode,
    start: Seq<u8>,
)
    requires
        parse_spec(first.parser, set, mode, start) is Recoverable,
    ensures
        alt_spec(seq![first, second], false, set, mode, 0, start) == (match parse_spec(
            second.parser,
            set,
            mode,
            start,
        ) {
            OutcomeModel::Success(rest, value) => OutcomeModel::Success(
                rest,
                branch_output(second, value),
            ),
            OutcomeModel::Recoverable(_) => OutcomeModel::Recoverable(
                leaf_model(start, ErrorKind::Alt),
            ),
            other => other,
        }),
{
    let branches = seq![first, second];
    assert(branches[0] == first);
    assert(branches[1] == second);
    assert(alt_spec(branches, false, set, mode, 0, start) == alt_spec(
        branches,
        false,
        set,
        mode,
        1,
        start,
    ));
    assert(alt_spec(branches, false, set, mode, 2, start) == OutcomeModel::Recoverable(
        leaf_model(start, ErrorKind::Alt),
    ));
}

/// The first branch that does not fail recoverably decides: where it asks
/// for more input or fails for good, so does the alternation, and no later
/// branch is tried.
pub proof fn law_alt_short_circuit(
    branches: Seq<Branch>,
    set: Seq<u8>,
    mode: Mode,
    i: nat,
    start: Seq<u8>,
)
    requires
        i < branches.len(),
        forall|j: int|
            0 <= j < i ==> (#[trigger] parse_spec(branches[j].parser, set, mode, start))
                is Recoverable,
        parse_spec(branches[i as int].parser, set, mode, start) is Incomplete || parse_spec(
            branches[i as int].parser,
            set,
            mode,
            start,
        ) is Fatal,
    ensures
        alt_spec(branches, false, set, mode, 0, start) == parse_spec(
            branches[i as int].parser,
            set,
            mode,
            start,
        ),
{
    lemma_alt_skips_recoverable(branches, false, set, mode, i, 0, start);
}

/// Branches that fail recoverably are passed over.
pub proof fn lemma_alt_skips_recoverable(
    branches: Seq<Branch>,
    complete: bool,
    set: Seq<u8>,
    mode: Mode,
    i: nat,
    from: nat,
    start: Seq<u8>,
)
    requires
        from <= i <= branches.len(),
        forall|j: int|
            from <= j < i ==> (#[trigger] parse_spec(branches[j].parser, set, mode, start))
                is Recoverable,
    ensures
        alt_spec(branches, complete, set, mode, from, start) == alt_spec(
            branches,
            complete,
            set,
            mode,
            i,
            start,
        ),
    decreases i - from,
{
    if from < i {
        assert(parse_spec(branches[from as int].parser, set, mode, start) is Recoverable);
        lemma_alt_skips_recoverable(branches, complete, set, mode, i, from + 1, start);
    }
}

/// Of two branches of which the first asks for more input, the second is
/// never tried, whatever it would return.
pub proof fn law_alt_incomplete_wins(
    first: Branch,
    second: Branch,
    set: Seq<u8>,
    mode: Mode,
    start: Seq<u8>,
)
    requires
        parse_spec(first.parser, set, mode, start) is Incomplete,
    ensures
        alt_spec(seq![first, second], false, set, mode, 0, start) == parse_spec(
            first.parser,
            set,
            mode,
            start,
        ),
{
    let branches = seq![first, second];
    assert(branches[0] == first);
}

/// A committed parser never fails recoverably: it succeeds, asks for more
/// input, or fails for good.
pub proof fn law_commit_is_final(g: Grammar, set: Seq<u8>, mode: Mode, input: Seq<u8>)
    ensures
        !(parse_spec(Grammar::Commit(Box::new(g)), set, mode, input) is Recoverable),
        parse_spec(g, set, mode, after_separator(set, input)) matches OutcomeModel::Recoverable(e)
            ==> parse_spec(Grammar::Commit(Box::new(g)), set, mode, input) == OutcomeModel::Fatal(
            e,
        ),
{
}

/// Once a committed branch has failed, no later branch of the alternation
/// is tried.
pub proof fn law_alt_stops_at_commit(
    inner: Grammar,
    later: Branch,
    complete: bool,
    set: Seq<u8>,
    mode: Mode,
    start: Seq<u8>,
)
    requires
        parse_spec(inner, set, mode, after_separator(set, start)) is Recoverable,
    ensures
        alt_spec(
            seq![Branch { parser: Grammar::Commit(Box::new(inner)), replace: None }, later],
            complete,
            set,
            mode,
            0,
            start,
        ) is Fatal,
{
    let first = Branch { parser: Grammar::Commit(Box::new(inner)), replace: None };
    let branches = seq![first, later];
    assert(branches[0] == first);
    assert(parse_spec(first.parser, set, mode, start) == commit(
        parse_spec(inner, set, mode, after_separator(set, start)),
    ));
}

/// The zero-consumption guard: an element that, run where the separator
/// ends, matches and leaves all it was given ends the repetition with a
/// fatal error at the input the round started with.
pub proof fn law_many_rejects_empty_match(
    element: Grammar,
    at_least_one: bool,
    set: Seq<u8>,
    mode: Mode,
    cursor: Seq<u8>,
    found: Seq<ValueModel>,
)
    requires
        parse_spec(element, set, mode, after_separator(set, cursor)) matches OutcomeModel::Success(
            rest,
            _,
        ) && rest.len() >= after_separator(set, cursor).len(),
    ensures
        many_spec(element, at_least_one, set, mode, cursor, found) == OutcomeModel::Fatal(
            leaf_model(cursor, many_kind(at_least_one)),
        ),
{
    lemma_run_length_bounds(set, cursor);
    lemma_eat_splits(set, cursor);
    assert(wrap_spec(element, set, mode, cursor) == parse_spec(
        element,
        set,
        mode,
        after_separator(set, cursor),
    ));
}

/// An element that matches on every input never lets a repetition
/// succeed: sooner or later it matches without consuming, and the
/// repetition ends with a fatal error.
pub proof fn law_many_of_always_matching(
    element: Grammar,
    at_least_one: bool,
    set: Seq<u8>,
    mode: Mode,
    cursor: Seq<u8>,
    found: Seq<ValueModel>,
)
    requires
        forall|input: Seq<u8>| (#[trigger] wrap_spec(element, set, mode, input)) is Success,
    ensures
        many_spec(element, at_least_one, set, mode, cursor, found) is Fatal,
    decreases cursor.len(),
{
    match wrap_spec(element, set, mode, cursor) {
        OutcomeModel::Success(rest, value) => {
            if rest.len() < cursor.len() {
                law_many_of_always_matching(
                    element,
                    at_least_one,
                    set,
                    mode,
                    rest,
                    found.push(value),
                );
            }
        },
        _ => {},
    }
}

} // verus!
