//! The cursor only moves forward: whatever a grammar leaves on success is
//! the end of the input it was given.

use crate::grammar::{Branch, Case, Grammar, ListParts, Step, SwitchParts};
use crate::outcome::{Mode, OutcomeModel, ValueModel};
use crate::semantics::{
    alt_spec, attempt_spec, cases_spec, chain_spec, empty_slots, keep_if, list_spec, many_spec,
    no_progress, parse_spec, permutation_spec, separated_list_spec, switch_spec, trimmed_spec,
    whole_permutation_spec, wrap_spec, Attempt,
};
use crate::separator::{after_separator, lemma_run_length_bounds};
use crate::token::lemma_token_suffix;
use vstd::prelude::*;

verus! {

/// `rest` is what is left of `input` after some of its first bytes.
pub open spec fn is_suffix(rest: Seq<u8>, input: Seq<u8>) -> bool {
    rest.len() <= input.len() && rest == input.skip(input.len() - rest.len())
}

/// On success, the outcome leaves a suffix of `input`.
pub open spec fn leaves_suffix(outcome: OutcomeModel, input: Seq<u8>) -> bool {
    outcome matches OutcomeModel::Success(rest, _) ==> is_suffix(rest, input)
}

/// Every input is a suffix of itself.
pub proof fn lemma_suffix_of_itself(input: Seq<u8>)
    ensures
        is_suffix(input, input),
{
    assert(input.skip(0) =~= input);
}

/// A suffix of a suffix is a suffix.
pub proof fn lemma_suffix_of_suffix(last: Seq<u8>, middle: Seq<u8>, input: Seq<u8>)
    requires
        is_suffix(last, middle),
        is_suffix(middle, input),
    ensures
        is_suffix(last, input),
{
    assert(last =~= input.skip(input.len() - last.len()));
}

/// The separator parser leaves a suffix of its input.
pub proof fn lemma_eat_leaves_suffix(set: Seq<u8>, input: Seq<u8>)
    ensures
        is_suffix(after_separator(set, input), input),
{
    lemma_run_length_bounds(set, input);
}

/// What holds of an outcome on the input after the separator holds of it
/// on the whole input.
pub proof fn lemma_suffix_after_separator(outcome: OutcomeModel, set: Seq<u8>, input: Seq<u8>)
    requires
        leaves_suffix(outcome, after_separator(set, input)),
    ensures
        leaves_suffix(outcome, input),
{
    lemma_eat_leaves_suffix(set, input);
    if let OutcomeModel::Success(rest, _) = outcome {
        lemma_suffix_of_suffix(rest, after_separator(set, input), input);
    }
}

/// Every grammar leaves a suffix of its input: the cursor only moves
/// forward.
pub proof fn law_remaining_is_suffix(g: Grammar, set: Seq<u8>, mode: Mode, input: Seq<u8>)
    ensures
        leaves_suffix(parse_spec(g, set, mode, input), input),
    decreases g, 1nat, 0nat,
{
    let start = after_separator(set, input);
    let outcome = parse_spec(g, set, mode, input);
    match g {
        Grammar::Token(t) => {
            lemma_token_suffix(t, mode, start);
            lemma_suffix_after_separator(outcome, set, input);
        },
        Grammar::Chain { lead, steps } => {
            if lead {
                lemma_chain_leaves_suffix(steps@, set, mode, 0, start, Seq::empty());
                lemma_suffix_after_separator(outcome, set, input);
            } else {
                lemma_chain_leaves_suffix(steps@, set, mode, 0, input, Seq::empty());
            }
        },
        Grammar::Alt { complete, branches } => {
            lemma_alt_leaves_suffix(branches@, complete, set, mode, 0, start);
            lemma_suffix_after_separator(outcome, set, input);
        },
        Grammar::Permutation(items) => {
            lemma_permutation_leaves_suffix(
                items@,
                set,
                mode,
                start,
                start,
                empty_slots(items@.len()),
                items@.len(),
            );
            assert(outcome == whole_permutation_spec(items@, set, mode, start));
            lemma_suffix_after_separator(outcome, set, input);
        },
        Grammar::Switch(parts) => {
            lemma_switch_leaves_suffix(*parts, set, mode, start);
            lemma_suffix_after_separator(outcome, set, input);
        },
        Grammar::Many { at_least_one, element } => {
            lemma_many_leaves_suffix(*element, at_least_one, set, mode, input, Seq::empty());
        },
        Grammar::SeparatedList(parts) => {
            lemma_separated_list_leaves_suffix(*parts, set, mode, start);
            lemma_suffix_after_separator(outcome, set, input);
        },
        Grammar::Commit(inner) => {
            law_remaining_is_suffix(*inner, set, mode, start);
            lemma_suffix_after_separator(outcome, set, input);
        },
    }
}

/// The separator, then a grammar, leaves a suffix of the input.
pub proof fn lemma_wrap_leaves_suffix(g: Grammar, set: Seq<u8>, mode: Mode, input: Seq<u8>)
    ensures
        leaves_suffix(wrap_spec(g, set, mode, input), input),
    decreases g, 2nat, 0nat,
{
    law_remaining_is_suffix(g, set, mode, after_separator(set, input));
    lemma_suffix_after_separator(wrap_spec(g, set, mode, input), set, input);
}

/// The steps of a sequence from step `i` on leave a suffix of the input
/// they start at.
pub proof fn lemma_chain_leaves_suffix(
    steps: Seq<Step>,
    set: Seq<u8>,
    mode: Mode,
    i: nat,
    cursor: Seq<u8>,
    kept: Seq<ValueModel>,
)
    ensures
        leaves_suffix(chain_spec(steps, set, mode, i, cursor, kept), cursor),
    decreases steps, 0nat, steps.len() - i,
{
    lemma_suffix_of_itself(cursor);
    if i < steps.len() {
        let step = steps[i as int];
        law_remaining_is_suffix(step.parser, set, mode, cursor);
        if let OutcomeModel::Success(next, value) = parse_spec(step.parser, set, mode, cursor) {
            let kept_next = keep_if(kept, step.keep, value);
            lemma_chain_leaves_suffix(steps, set, mode, i + 1, next, kept_next);
            if let OutcomeModel::Success(rest, _) = chain_spec(
                steps,
                set,
                mode,
                i + 1,
                next,
                kept_next,
            ) {
                lemma_suffix_of_suffix(rest, next, cursor);
            }
        }
    }
}

/// The branches of an alternation from branch `i` on leave a suffix of the
/// input the alternation started with.
pub proof fn lemma_alt_leaves_suffix(
    branches: Seq<Branch>,
    complete: bool,
    set: Seq<u8>,
    mode: Mode,
    i: nat,
    start: Seq<u8>,
)
    ensures
        leaves_suffix(alt_spec(branches, complete, set, mode, i, start), start),
    decreases branches, 0nat, branches.len() - i,
{
    if i < branches.len() {
        law_remaining_is_suffix(branches[i as int].parser, set, mode, start);
        lemma_alt_leaves_suffix(branches, complete, set, mode, i + 1, start);
    }
}

/// A slot that a pass fills leaves a suffix of the input the pass ran on,
/// and an outcome that ends the permutation is no success.
pub proof fn lemma_attempt_leaves_suffix(
    items: Seq<Grammar>,
    set: Seq<u8>,
    mode: Mode,
    cursor: Seq<u8>,
    slots: Seq<Option<ValueModel>>,
    i: nat,
)
    ensures
        attempt_spec(items, set, mode, cursor, slots, i) matches Attempt::Filled(_, rest, _)
            ==> is_suffix(rest, cursor),
        attempt_spec(items, set, mode, cursor, slots, i) matches Attempt::Abort(outcome)
            ==> !(outcome is Success),
    decreases items, 0nat, items.len() - i,
{
    if i < items.len() {
        law_remaining_is_suffix(items[i as int], set, mode, cursor);
        lemma_attempt_leaves_suffix(items, set, mode, cursor, slots, i + 1);
    }
}

/// A permutation leaves a suffix of the input it stands at.
pub proof fn lemma_permutation_leaves_suffix(
    items: Seq<Grammar>,
    set: Seq<u8>,
    mode: Mode,
    start: Seq<u8>,
    cursor: Seq<u8>,
    slots: Seq<Option<ValueModel>>,
    budget: nat,
)
    ensures
        leaves_suffix(permutation_spec(items, set, mode, start, cursor, slots, budget), cursor),
    decreases items, 0nat, items.len() + 1 + budget,
{
    lemma_suffix_of_itself(cursor);
    if budget > 0 {
        lemma_attempt_leaves_suffix(items, set, mode, cursor, slots, 0);
        if let Attempt::Filled(i, next, value) = attempt_spec(items, set, mode, cursor, slots, 0) {
            let slots_next = slots.update(i, Some(value));
            let budget_next = (budget - 1) as nat;
            lemma_permutation_leaves_suffix(items, set, mode, start, next, slots_next, budget_next);
            if let OutcomeModel::Success(rest, _) = permutation_spec(
                items,
                set,
                mode,
                start,
                next,
                slots_next,
                budget_next,
            ) {
                lemma_suffix_of_suffix(rest, next, cursor);
            }
        }
    }
}

/// The cases of a switch leave a suffix of what the selector left.
pub proof fn lemma_cases_leave_suffix(
    cases: Seq<Case>,
    set: Seq<u8>,
    mode: Mode,
    i: nat,
    start: Seq<u8>,
    rest: Seq<u8>,
    selected: ValueModel,
)
    ensures
        leaves_suffix(cases_spec(cases, set, mode, i, start, rest, selected), rest),
    decreases cases, 0nat, cases.len() - i,
{
    if i < cases.len() {
        law_remaining_is_suffix(cases[i as int].parser, set, mode, rest);
        lemma_cases_leave_suffix(cases, set, mode, i + 1, start, rest, selected);
    }
}

/// A switch leaves a suffix of the input it started with.
pub proof fn lemma_switch_leaves_suffix(
    parts: SwitchParts,
    set: Seq<u8>,
    mode: Mode,
    start: Seq<u8>,
)
    ensures
        leaves_suffix(switch_spec(parts, set, mode, start), start),
    decreases parts, 1nat, 0nat,
{
    law_remaining_is_suffix(parts.selector, set, mode, start);
    if let OutcomeModel::Success(middle, value) = parse_spec(parts.selector, set, mode, start) {
        lemma_cases_leave_suffix(parts.cases@, set, mode, 0, start, middle, value);
        if let OutcomeModel::Success(rest, _) = cases_spec(
            parts.cases@,
            set,
            mode,
            0,
            start,
            middle,
            value,
        ) {
            lemma_suffix_of_suffix(rest, middle, start);
        }
    }
}

/// A repetition leaves a suffix of the input it stands at.
pub proof fn lemma_many_leaves_suffix(
    element: Grammar,
    at_least_one: bool,
    set: Seq<u8>,
    mode: Mode,
    cursor: Seq<u8>,
    found: Seq<ValueModel>,
)
    ensures
        leaves_suffix(many_spec(element, at_least_one, set, mode, cursor, found), cursor),
    decreases element, 3nat, cursor.len(),
{
    lemma_suffix_of_itself(cursor);
    lemma_wrap_leaves_suffix(element, set, mode, cursor);
    if let OutcomeModel::Success(next, value) = wrap_spec(element, set, mode, cursor) {
        if !no_progress(set, cursor, next) {
            lemma_many_leaves_suffix(element, at_least_one, set, mode, next, found.push(value));
            if let OutcomeModel::Success(rest, _) = many_spec(
                element,
                at_least_one,
                set,
                mode,
                next,
                found.push(value),
            ) {
                lemma_suffix_of_suffix(rest, next, cursor);
            }
        }
    }
}

/// The delimiters and elements of a separated list leave a suffix of the
/// input they stand at.
pub proof fn lemma_list_leaves_suffix(
    parts: ListParts,
    set: Seq<u8>,
    mode: Mode,
    cursor: Seq<u8>,
    found: Seq<ValueModel>,
)
    ensures
        leaves_suffix(list_spec(parts, set, mode, cursor, found), cursor),
    decreases parts, 0nat, cursor.len(),
{
    lemma_suffix_of_itself(cursor);
    lemma_wrap_leaves_suffix(parts.delimiter, set, mode, cursor);
    if let OutcomeModel::Success(middle, _) = wrap_spec(parts.delimiter, set, mode, cursor) {
        if !no_progress(set, cursor, middle) {
            lemma_wrap_leaves_suffix(parts.element, set, mode, middle);
            if let OutcomeModel::Success(next, value) = wrap_spec(
                parts.element,
                set,
                mode,
                middle,
            ) {
                if !no_progress(set, middle, next) {
                    lemma_suffix_of_suffix(next, middle, cursor);
                    lemma_list_leaves_suffix(parts, set, mode, next, found.push(value));
                    if let OutcomeModel::Success(rest, _) = list_spec(
                        parts,
                        set,
                        mode,
                        next,
                        found.push(value),
                    ) {
                        lemma_suffix_of_suffix(rest, next, cursor);
                    }
                }
            }
        }
    }
}

/// A separated list leaves a suffix of the input it started with.
pub proof fn lemma_separated_list_leaves_suffix(
    parts: ListParts,
    set: Seq<u8>,
    mode: Mode,
    start: Seq<u8>,
)
    ensures
        leaves_suffix(separated_list_spec(parts, set, mode, start), start),
    decreases parts, 1nat, 0nat,
{
    lemma_wrap_leaves_suffix(parts.element, set, mode, start);
    if let OutcomeModel::Success(next, value) = wrap_spec(parts.element, set, mode, start) {
        if !no_progress(set, start, next) {
            lemma_list_leaves_suffix(parts, set, mode, next, seq![value]);
            if let OutcomeModel::Success(rest, _) = list_spec(parts, set, mode, next, seq![value]) {
                lemma_suffix_of_suffix(rest, next, start);
            }
        }
    }
}

/// A grammar run with trailing separators skipped leaves a suffix of its
/// input.
pub proof fn law_trimmed_remaining_is_suffix(g: Grammar, set: Seq<u8>, mode: Mode, input: Seq<u8>)
    ensures
        leaves_suffix(trimmed_spec(g, set, mode, input), input),
{
    law_remaining_is_suffix(g, set, mode, input);
    if let OutcomeModel::Success(middle, _) = parse_spec(g, set, mode, input) {
        lemma_eat_leaves_suffix(set, middle);
        lemma_suffix_of_suffix(after_separator(set, middle), middle, input);
    }
}

} // verus!
