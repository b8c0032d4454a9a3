//! What a grammar means: the outcome of every combinator on every input,
//! with the separator spliced in before each sub-parser.

use crate::grammar::{Branch, Case, Grammar, ListParts, Step, SwitchParts};
use crate::outcome::{leaf_model, node_model, ErrorKind, Mode, OutcomeModel, ValueModel};
use crate::separator::{after_separator, run_length, whitespace_bytes};
use crate::token::token_spec;
use vstd::prelude::*;

verus! {

/// The output of a sequence: the one kept value by itself, or the tuple of
/// the kept values.
pub open spec fn gather(kept: Seq<ValueModel>) -> ValueModel {
    if kept.len() == 1 {
        kept[0]
    } else {
        ValueModel::Tuple(kept)
    }
}

/// The kept values after a step that produced `value`.
pub open spec fn keep_if(kept: Seq<ValueModel>, keep: bool, value: ValueModel) -> Seq<ValueModel> {
    if keep {
        kept.push(value)
    } else {
        kept
    }
}

/// The output of a branch whose parser produced `value`.
pub open spec fn branch_output(branch: Branch, value: ValueModel) -> ValueModel {
    match branch.replace {
        Some(c) => c.model(),
        None => value,
    }
}

/// An error of a switch's selector or case, under the switch's own context.
pub open spec fn retag(start: Seq<u8>, outcome: OutcomeModel) -> OutcomeModel {
    match outcome {
        OutcomeModel::Recoverable(e) => OutcomeModel::Recoverable(
            node_model(start, ErrorKind::Switch, e),
        ),
        OutcomeModel::Fatal(e) => OutcomeModel::Fatal(node_model(start, ErrorKind::Switch, e)),
        other => other,
    }
}

/// The outcome of a committed parser: a mismatch is a fatal error.
pub open spec fn commit(outcome: OutcomeModel) -> OutcomeModel {
    match outcome {
        OutcomeModel::Recoverable(e) => OutcomeModel::Fatal(e),
        other => other,
    }
}

/// The error kind of a repetition.
pub open spec fn many_kind(at_least_one: bool) -> ErrorKind {
    if at_least_one {
        ErrorKind::Many1
    } else {
        ErrorKind::Many0
    }
}

/// What one pass over the unfilled slots of a permutation came to.
pub ghost enum Attempt {
    /// The slot with this index matched: the input left and its output.
    Filled(int, Seq<u8>, ValueModel),
    /// No unfilled slot matched.
    Stuck,
    /// A slot's parser returned an outcome that ends the permutation.
    Abort(OutcomeModel),
}

/// Every slot is filled.
pub open spec fn all_filled(slots: Seq<Option<ValueModel>>) -> bool {
    forall|i: int| 0 <= i < slots.len() ==> (#[trigger] slots[i]) is Some
}

/// The values of the slots, in declaration order.
pub open spec fn slot_values(slots: Seq<Option<ValueModel>>) -> Seq<ValueModel> {
    Seq::new(slots.len(), |i: int| slots[i].unwrap())
}

/// The outcome of a permutation once no pass can fill another slot.
pub open spec fn conclude(
    start: Seq<u8>,
    cursor: Seq<u8>,
    slots: Seq<Option<ValueModel>>,
) -> OutcomeModel {
    if all_filled(slots) {
        OutcomeModel::Success(cursor, ValueModel::Tuple(slot_values(slots)))
    } else {
        OutcomeModel::Recoverable(
            node_model(
                start,
                ErrorKind::Permutation,
                leaf_model(cursor, ErrorKind::Permutation),
            ),
        )
    }
}

/// An attempt that started at `cursor` and left `rest` consumed nothing but
/// separator bytes, if it consumed anything.
pub open spec fn no_progress(set: Seq<u8>, cursor: Seq<u8>, rest: Seq<u8>) -> bool {
    rest.len() + run_length(set, cursor) >= cursor.len()
}

/// The outcome of a grammar on an input, with the separator `set` skipped
/// before every sub-parser.
pub open spec fn parse_spec(g: Grammar, set: Seq<u8>, mode: Mode, input: Seq<u8>) -> OutcomeModel
    decreases g, 1nat, 0nat,
{
    match g {
        Grammar::Token(t) => token_spec(t, mode, after_separator(set, input)),
        Grammar::Chain { lead, steps } => chain_spec(
            steps@,
            set,
            mode,
            0,
            if lead {
                after_separator(set, input)
            } else {
                input
            },
            Seq::empty(),
        ),
        Grammar::Alt { complete, branches } => alt_spec(
            branches@,
            complete,
            set,
            mode,
            0,
            after_separator(set, input),
        ),
        Grammar::Permutation(items) => whole_permutation_spec(
            items@,
            set,
            mode,
            after_separator(set, input),
        ),
        Grammar::Switch(parts) => switch_spec(*parts, set, mode, after_separator(set, input)),
        Grammar::Many { at_least_one, element } => many_spec(
            *element,
            at_least_one,
            set,
            mode,
            input,
            Seq::empty(),
        ),
        Grammar::SeparatedList(parts) => separated_list_spec(
            *parts,
            set,
            mode,
            after_separator(set, input),
        ),
        Grammar::Commit(inner) => commit(parse_spec(*inner, set, mode, after_separator(set, input))),
    }
}

/// The separator, then the grammar.
pub open spec fn wrap_spec(g: Grammar, set: Seq<u8>, mode: Mode, input: Seq<u8>) -> OutcomeModel
    decreases g, 2nat, 0nat,
{
    parse_spec(g, set, mode, after_separator(set, input))
}

/// The steps of a sequence from step `i` on: each step starts where the one
/// before it stopped, and the first outcome that is no success ends the fold.
pub open spec fn chain_spec(
    steps: Seq<Step>,
    set: Seq<u8>,
    mode: Mode,
    i: nat,
    cursor: Seq<u8>,
    kept: Seq<ValueModel>,
) -> OutcomeModel
    decreases steps, 0nat, steps.len() - i,
{
    if i >= steps.len() {
        OutcomeModel::Success(cursor, gather(kept))
    } else {
        match parse_spec(steps[i as int].parser, set, mode, cursor) {
            OutcomeModel::Success(rest, value) => chain_spec(
                steps,
                set,
                mode,
                i + 1,
                rest,
                keep_if(kept, steps[i as int].keep, value),
            ),
            other => other,
        }
    }
}

/// The branches of an alternation from branch `i` on, each on the input the
/// alternation started with.
pub open spec fn alt_spec(
    branches: Seq<Branch>,
    complete: bool,
    set: Seq<u8>,
    mode: Mode,
    i: nat,
    start: Seq<u8>,
) -> OutcomeModel
    decreases branches, 0nat, branches.len() - i,
{
    if i >= branches.len() {
        OutcomeModel::Recoverable(leaf_model(start, ErrorKind::Alt))
    } else {
        match parse_spec(branches[i as int].parser, set, mode, start) {
            OutcomeModel::Success(rest, value) => OutcomeModel::Success(
                rest,
                branch_output(branches[i as int], value),
            ),
            OutcomeModel::Recoverable(_) => alt_spec(branches, complete, set, mode, i + 1, start),
            OutcomeModel::Incomplete(needed) => if complete {
                alt_spec(branches, complete, set, mode, i + 1, start)
            } else {
                OutcomeModel::Incomplete(needed)
            },
            OutcomeModel::Fatal(e) => OutcomeModel::Fatal(e),
        }
    }
}

/// One pass over the slots of a permutation from slot `i` on: the first
/// unfilled slot whose parser does not fail recoverably decides. An item
/// that has no slot counts as unfilled.
pub open spec fn attempt_spec(
    items: Seq<Grammar>,
    set: Seq<u8>,
    mode: Mode,
    cursor: Seq<u8>,
    slots: Seq<Option<ValueModel>>,
    i: nat,
) -> Attempt
    decreases items, 0nat, items.len() - i,
{
    if i >= items.len() {
        Attempt::Stuck
    } else if i < slots.len() && slots[i as int] is Some {
        attempt_spec(items, set, mode, cursor, slots, i + 1)
    } else {
        match parse_spec(items[i as int], set, mode, cursor) {
            OutcomeModel::Success(rest, value) => Attempt::Filled(i as int, rest, value),
            OutcomeModel::Recoverable(_) => attempt_spec(items, set, mode, cursor, slots, i + 1),
            other => Attempt::Abort(other),
        }
    }
}

/// A permutation with `budget` slots still to fill: passes over the slots,
/// each starting again at the first slot, until a pass fills nothing.
pub open spec fn permutation_spec(
    items: Seq<Grammar>,
    set: Seq<u8>,
    mode: Mode,
    start: Seq<u8>,
    cursor: Seq<u8>,
    slots: Seq<Option<ValueModel>>,
    budget: nat,
) -> OutcomeModel
    decreases items, 0nat, items.len() + 1 + budget,
{
    if budget == 0 {
        conclude(start, cursor, slots)
    } else {
        match attempt_spec(items, set, mode, cursor, slots, 0) {
            Attempt::Filled(i, rest, value) => permutation_spec(
                items,
                set,
                mode,
                start,
                rest,
                slots.update(i, Some(value)),
                (budget - 1) as nat,
            ),
            Attempt::Stuck => conclude(start, cursor, slots),
            Attempt::Abort(outcome) => outcome,
        }
    }
}

/// As many unfilled slots as a permutation has items.
pub open spec fn empty_slots(count: nat) -> Seq<Option<ValueModel>> {
    Seq::new(count, |i: int| None)
}

/// A permutation from its start: no slot is filled, and there are as many
/// slots to fill as there are items.
pub open spec fn whole_permutation_spec(
    items: Seq<Grammar>,
    set: Seq<u8>,
    mode: Mode,
    start: Seq<u8>,
) -> OutcomeModel
    decreases items, 0nat, 2 * items.len() + 2,
{
    permutation_spec(items, set, mode, start, start, empty_slots(items.len()), items.len())
}

/// A switch: the selector, then the cases on what the selector left. An
/// error of the selector comes back under the switch's own context.
pub open spec fn switch_spec(
    parts: SwitchParts,
    set: Seq<u8>,
    mode: Mode,
    start: Seq<u8>,
) -> OutcomeModel
    decreases parts, 1nat, 0nat,
{
    match parse_spec(parts.selector, set, mode, start) {
        OutcomeModel::Success(rest, value) => cases_spec(
            parts.cases@,
            set,
            mode,
            0,
            start,
            rest,
            value,
        ),
        other => retag(start, other),
    }
}

/// The cases of a switch from case `i` on: the first case whose pattern
/// equals the selector's output parses what the selector left.
pub open spec fn cases_spec(
    cases: Seq<Case>,
    set: Seq<u8>,
    mode: Mode,
    i: nat,
    start: Seq<u8>,
    rest: Seq<u8>,
    selected: ValueModel,
) -> OutcomeModel
    decreases cases, 0nat, cases.len() - i,
{
    if i >= cases.len() {
        OutcomeModel::Recoverable(leaf_model(start, ErrorKind::Switch))
    } else if selected == ValueModel::Bytes(cases[i as int].pattern@) {
        retag(start, parse_spec(cases[i as int].parser, set, mode, rest))
    } else {
        cases_spec(cases, set, mode, i + 1, start, rest, selected)
    }
}

/// A repetition that has matched `found` so far and goes on at `cursor`:
/// the separator and the element, until the element fails recoverably. An
/// element that matches without consuming a byte of its own is a fatal
/// error.
pub open spec fn many_spec(
    element: Grammar,
    at_least_one: bool,
    set: Seq<u8>,
    mode: Mode,
    cursor: Seq<u8>,
    found: Seq<ValueModel>,
) -> OutcomeModel
    decreases element, 3nat, cursor.len(),
{
    match wrap_spec(element, set, mode, cursor) {
        OutcomeModel::Success(rest, value) => if no_progress(set, cursor, rest) {
            OutcomeModel::Fatal(leaf_model(cursor, many_kind(at_least_one)))
        } else {
            many_spec(element, at_least_one, set, mode, rest, found.push(value))
        },
        OutcomeModel::Recoverable(_) => if at_least_one && found.len() == 0 {
            OutcomeModel::Recoverable(leaf_model(cursor, ErrorKind::Many1))
        } else {
            OutcomeModel::Success(cursor, ValueModel::List(found))
        },
        other => other,
    }
}

/// A separated list: a first element, which must be there and must consume
/// a byte of its own, then delimiters and elements.
pub open spec fn separated_list_spec(
    parts: ListParts,
    set: Seq<u8>,
    mode: Mode,
    start: Seq<u8>,
) -> OutcomeModel
    decreases parts, 1nat, 0nat,
{
    match wrap_spec(parts.element, set, mode, start) {
        OutcomeModel::Success(rest, value) => if no_progress(set, start, rest) {
            OutcomeModel::Fatal(leaf_model(start, ErrorKind::SeparatedList))
        } else {
            list_spec(parts, set, mode, rest, seq![value])
        },
        OutcomeModel::Recoverable(_) => OutcomeModel::Recoverable(
            leaf_model(start, ErrorKind::SeparatedList),
        ),
        other => other,
    }
}

/// A separated list that has matched `found` so far and looks for a
/// delimiter and another element at `cursor`. It ends, with what it has
/// found and at `cursor`, where the delimiter or the element fails
/// recoverably, or where the delimiter matches without consuming a byte of
/// its own. An element that does so is a fatal error.
pub open spec fn list_spec(
    parts: ListParts,
    set: Seq<u8>,
    mode: Mode,
    cursor: Seq<u8>,
    found: Seq<ValueModel>,
) -> OutcomeModel
    decreases parts, 0nat, cursor.len(),
{
    match wrap_spec(parts.delimiter, set, mode, cursor) {
        OutcomeModel::Success(middle, _) => if no_progress(set, cursor, middle) {
            OutcomeModel::Success(cursor, ValueModel::List(found))
        } else {
            match wrap_spec(parts.element, set, mode, middle) {
                OutcomeModel::Success(rest, value) => if no_progress(set, middle, rest) {
                    OutcomeModel::Fatal(leaf_model(middle, ErrorKind::SeparatedList))
                } else {
                    list_spec(parts, set, mode, rest, found.push(value))
                },
                OutcomeModel::Recoverable(_) => OutcomeModel::Success(
                    cursor,
                    ValueModel::List(found),
                ),
                other => other,
            }
        },
        OutcomeModel::Recoverable(_) => OutcomeModel::Success(cursor, ValueModel::List(found)),
        other => other,
    }
}

/// The grammar with separators skipped before every sub-parser and once
/// more after the whole grammar.
pub open spec fn trimmed_spec(g: Grammar, set: Seq<u8>, mode: Mode, input: Seq<u8>) -> OutcomeModel {
    match parse_spec(g, set, mode, input) {
        OutcomeModel::Success(rest, value) => OutcomeModel::Success(
            after_separator(set, rest),
            value,
        ),
        other => other,
    }
}

/// The grammar with whitespace skipped before every sub-parser and after
/// the whole grammar.
pub open spec fn ws_spec(g: Grammar, mode: Mode, input: Seq<u8>) -> OutcomeModel {
    trimmed_spec(g, whitespace_bytes(), mode, input)
}

} // verus!
