//! Running a grammar: every combinator, with the separator skipped before
//! each of its sub-parsers.

use crate::grammar::{Branch, Grammar, ListParts, Step, SwitchParts};
use crate::outcome::{
    lemma_list_model, lemma_models_push, lemma_tuple_model, models, slot_models, ErrorContext,
    ErrorKind, Mode, Outcome, OutcomeModel, Value, ValueModel,
};
use crate::semantics::{
    alt_spec, attempt_spec, cases_spec, chain_spec, conclude, empty_slots, list_spec,
    many_kind, many_spec, no_progress, parse_spec, permutation_spec, retag, separated_list_spec,
    slot_values, switch_spec, trimmed_spec, whole_permutation_spec, wrap_spec, ws_spec, Attempt,
};
use crate::separator::{skip_separator, Separator};
use crate::token::run_token;
use vstd::prelude::*;

verus! {

/// What one pass over the unfilled slots of a permutation came to.
pub enum Pass<'a> {
    /// The slot with this index matched: the input left and its output.
    Filled(usize, &'a [u8], Value<'a>),
    /// No unfilled slot matched.
    Stuck,
    /// A slot's parser returned an outcome that ends the permutation.
    Abort(Outcome<'a>),
}

impl<'a> View for Pass<'a> {
    type V = Attempt;

    open spec fn view(&self) -> Attempt {
        match self {
            Pass::Filled(i, rest, value) => Attempt::Filled(*i as int, rest@, value@),
            Pass::Stuck => Attempt::Stuck,
            Pass::Abort(outcome) => Attempt::Abort(outcome@),
        }
    }
}

/// Whether two byte strings are equal.
pub fn bytes_equal(a: &[u8], b: &[u8]) -> (r: bool)
    ensures
        r == (a@ == b@),
{
    if a.len() != b.len() {
        return false;
    }
    let mut i: usize = 0;
    while i < a.len()
        invariant
            i <= a.len(),
            a.len() == b.len(),
            forall|j: int| 0 <= j < i ==> a@[j] == b@[j],
        decreases a.len() - i,
    {
        if a[i] != b[i] {
            return false;
        }
        i += 1;
    }
    assert(a@ =~= b@);
    true
}

/// Runs a grammar on an input, skipping the separator before every
/// sub-parser.
pub fn sep<'a>(g: &Grammar, separator: &Separator, mode: Mode, input: &'a [u8]) -> (r: Outcome<'a>)
    ensures
        r@ == parse_spec(*g, separator@, mode, input@),
    decreases g, 1nat, 0nat,
{
    match g {
        Grammar::Token(t) => run_token(t, mode, skip_separator(input, separator)),
        Grammar::Chain { lead, steps } => {
            let start = if *lead {
                skip_separator(input, separator)
            } else {
                input
            };
            chain_sep(steps, separator, mode, start)
        },
        Grammar::Alt { complete, branches } => alt_sep(
            branches,
            *complete,
            separator,
            mode,
            skip_separator(input, separator),
        ),
        Grammar::Permutation(items) => permutation_sep(
            items,
            separator,
            mode,
            skip_separator(input, separator),
        ),
        Grammar::Switch(parts) => switch_sep(
            parts,
            separator,
            mode,
            skip_separator(input, separator),
        ),
        Grammar::Many { at_least_one, element } => many_sep(
            element,
            *at_least_one,
            separator,
            mode,
            input,
        ),
        Grammar::SeparatedList(parts) => separated_list_sep(
            parts,
            separator,
            mode,
            skip_separator(input, separator),
        ),
        Grammar::Commit(inner) => match sep(
            inner,
            separator,
            mode,
            skip_separator(input, separator),
        ) {
            Outcome::Recoverable(e) => Outcome::Fatal(e),
            other => other,
        },
    }
}

/// Skips the separator, then runs the grammar.
pub fn wrap_sep<'a>(g: &Grammar, separator: &Separator, mode: Mode, input: &'a [u8]) -> (r:
    Outcome<'a>)
    ensures
        r@ == wrap_spec(*g, separator@, mode, input@),
    decreases g, 2nat, 0nat,
{
    sep(g, separator, mode, skip_separator(input, separator))
}

/// Runs the steps of a sequence from left to right and gathers the kept
/// outputs.
pub fn chain_sep<'a>(steps: &Vec<Step>, separator: &Separator, mode: Mode, input: &'a [u8]) -> (r:
    Outcome<'a>)
    ensures
        r@ == chain_spec(steps@, separator@, mode, 0, input@, Seq::empty()),
    decreases steps@, 0nat, 0nat,
{
    let mut cursor = input;
    let mut kept: Vec<Value<'a>> = Vec::new();
    let mut i: usize = 0;
    assert(models(kept@) =~= Seq::empty());
    while i < steps.len()
        invariant
            i <= steps.len(),
            chain_spec(steps@, separator@, mode, i as nat, cursor@, models(kept@)) == chain_spec(steps@, separator@, mode, 0, input@, Seq::empty()),
        decreases steps.len() - i,
    {
        match sep(&steps[i].parser, separator, mode, cursor) {
            Outcome::Success(rest, value) => {
                if steps[i].keep {
                    proof {
                        lemma_models_push(kept@, value);
                    }
                    kept.push(value);
                }
                cursor = rest;
            },
            other => {
                return other;
            },
        }
        i += 1;
    }
    if kept.len() == 1 {
        match kept.pop() {
            Some(only) => Outcome::Success(cursor, only),
            None => Outcome::Success(cursor, Value::Tuple(kept)),
        }
    } else {
        proof {
            lemma_tuple_model(kept);
        }
        Outcome::Success(cursor, Value::Tuple(kept))
    }
}

/// Tries the branches in order, each on the input the alternation started
/// with.
pub fn alt_sep<'a>(
    branches: &Vec<Branch>,
    complete: bool,
    separator: &Separator,
    mode: Mode,
    start: &'a [u8],
) -> (r: Outcome<'a>)
    ensures
        r@ == alt_spec(branches@, complete, separator@, mode, 0, start@),
    decreases branches@, 0nat, 0nat,
{
    let mut i: usize = 0;
    while i < branches.len()
        invariant
            i <= branches.len(),
            alt_spec(branches@, complete, separator@, mode, i as nat, start@) == alt_spec(branches@, complete, separator@, mode, 0, start@),
        decreases branches.len() - i,
    {
        match sep(&branches[i].parser, separator, mode, start) {
            Outcome::Success(rest, value) => {
                let output = match branches[i].replace {
                    Some(c) => c.value(),
                    None => value,
                };
                return Outcome::Success(rest, output);
            },
            Outcome::Recoverable(_) => {},
            Outcome::Incomplete(needed) => {
                if !complete {
                    return Outcome::Incomplete(needed);
                }
            },
            Outcome::Fatal(e) => {
                return Outcome::Fatal(e);
            },
        }
        i += 1;
    }
    Outcome::Recoverable(ErrorContext::leaf(start, ErrorKind::Alt))
}

/// One pass over the slots: tries the unfilled ones in declaration order
/// until one does not fail recoverably.
pub fn permutation_iterator_sep<'a>(
    items: &Vec<Grammar>,
    separator: &Separator,
    mode: Mode,
    cursor: &'a [u8],
    slots: &Vec<Option<Value<'a>>>,
) -> (r: Pass<'a>)
    ensures
        r@ == attempt_spec(items@, separator@, mode, cursor@, slot_models(slots@), 0),
        r matches Pass::Filled(i, _, _) ==> i < items.len(),
    decreases items@, 0nat, 0nat,
{
    let mut i: usize = 0;
    while i < items.len()
        invariant
            i <= items.len(),
            attempt_spec(items@, separator@, mode, cursor@, slot_models(slots@), i as nat) == attempt_spec(items@, separator@, mode, cursor@, slot_models(slots@), 0),
        decreases items.len() - i,
    {
        if i >= slots.len() || slots[i].is_none() {
            match sep(&items[i], separator, mode, cursor) {
                Outcome::Success(rest, value) => {
                    return Pass::Filled(i, rest, value);
                },
                Outcome::Recoverable(_) => {},
                other => {
                    return Pass::Abort(other);
                },
            }
        }
        i += 1;
    }
    Pass::Stuck
}

/// Ends a permutation: the outputs in declaration order when every slot is
/// filled, a recoverable error otherwise.
pub fn permutation_unwrap<'a>(
    start: &'a [u8],
    cursor: &'a [u8],
    filled: Vec<Option<Value<'a>>>,
) -> (r: Outcome<'a>)
    ensures
        r@ == conclude(start@, cursor@, slot_models(filled@)),
{
    let ghost before = filled@;
    let mut slots = filled;
    let mut reversed: Vec<Value<'a>> = Vec::new();
    while slots.len() > 0
        invariant
            before == filled@,
            slots@.len() + reversed@.len() == before.len(),
            slots@ == before.take(slots@.len() as int),
            forall|k: int|
                0 <= k < reversed@.len() ==> before[before.len() - 1 - k] == Some(
                    #[trigger] reversed@[k],
                ),
        decreases slots.len(),
    {
        match slots.pop() {
            Some(Some(value)) => {
                reversed.push(value);
            },
            _ => {
                proof {
                    let at = slots@.len() as int;
                    assert(before[at] is None);
                    assert(slot_models(before)[at] is None);
                }
                return Outcome::Recoverable(
                    ErrorContext::node(
                        start,
                        ErrorKind::Permutation,
                        ErrorContext::leaf(cursor, ErrorKind::Permutation),
                    ),
                );
            },
        }
    }
    let ghost turned = reversed@;
    let mut values: Vec<Value<'a>> = Vec::new();
    while reversed.len() > 0
        invariant
            before == filled@,
            turned.len() == before.len(),
            reversed@.len() + values@.len() == turned.len(),
            reversed@ == turned.take(reversed@.len() as int),
            forall|k: int| 0 <= k < values@.len() ==> before[k] == Some(#[trigger] values@[k]),
            forall|k: int|
                0 <= k < turned.len() ==> before[before.len() - 1 - k] == Some(#[trigger] turned[k]),
        decreases reversed.len(),
    {
        match reversed.pop() {
            Some(value) => {
                proof {
                    let k = values@.len() as int;
                    assert(turned[turned.len() - 1 - k] == value);
                }
                values.push(value);
            },
            None => {},
        }
    }
    proof {
        lemma_tuple_model(values);
        assert forall|i: int| 0 <= i < before.len() implies (#[trigger] slot_models(
            before,
        )[i]) is Some by {
            assert(before[before.len() - 1 - (before.len() - 1 - i)] == Some(
                turned[before.len() - 1 - i],
            ));
        }
        assert(models(values@) =~= slot_values(slot_models(before)));
    }
    Outcome::Success(cursor, Value::Tuple(values))
}

/// Matches every item exactly once, in whatever order the input has them.
pub fn permutation_sep<'a>(
    items: &Vec<Grammar>,
    separator: &Separator,
    mode: Mode,
    start: &'a [u8],
) -> (r: Outcome<'a>)
    ensures
        r@ == whole_permutation_spec(items@, separator@, mode, start@),
    decreases items@, 0nat, 1nat,
{
    let mut slots: Vec<Option<Value<'a>>> = Vec::new();
    while slots.len() < items.len()
        invariant
            slots.len() <= items.len(),
            forall|k: int| 0 <= k < slots@.len() ==> (#[trigger] slots@[k]) is None,
        decreases items.len() - slots.len(),
    {
        slots.push(None);
    }
    assert(slot_models(slots@) =~= empty_slots(items@.len()));
    let mut cursor = start;
    let mut budget: usize = items.len();
    while budget > 0
        invariant
            slots.len() == items.len(),
            permutation_spec(
                items@,
                separator@,
                mode,
                start@,
                cursor@,
                slot_models(slots@),
                budget as nat,
            ) == whole_permutation_spec(items@, separator@, mode, start@),
        decreases budget,
    {
        match permutation_iterator_sep(items, separator, mode, cursor, &slots) {
            Pass::Filled(i, rest, value) => {
                proof {
                    assert(slot_models(slots@.update(i as int, Some(value))) =~= slot_models(
                        slots@,
                    ).update(i as int, Some(value@)));
                }
                slots.set(i, Some(value));
                cursor = rest;
            },
            Pass::Stuck => {
                return permutation_unwrap(start, cursor, slots);
            },
            Pass::Abort(outcome) => {
                return outcome;
            },
        }
        budget -= 1;
    }
    permutation_unwrap(start, cursor, slots)
}

/// Puts an error of a switch's selector or case under the switch's own
/// context.
pub fn switch_error<'a>(start: &'a [u8], outcome: Outcome<'a>) -> (r: Outcome<'a>)
    ensures
        r@ == retag(start@, outcome@),
{
    match outcome {
        Outcome::Recoverable(e) => Outcome::Recoverable(
            ErrorContext::node(start, ErrorKind::Switch, e),
        ),
        Outcome::Fatal(e) => Outcome::Fatal(ErrorContext::node(start, ErrorKind::Switch, e)),
        other => other,
    }
}

/// Runs the selector, then the first case whose pattern equals its output.
pub fn switch_sep<'a>(
    parts: &SwitchParts,
    separator: &Separator,
    mode: Mode,
    start: &'a [u8],
) -> (r: Outcome<'a>)
    ensures
        r@ == switch_spec(*parts, separator@, mode, start@),
    decreases parts, 1nat, 0nat,
{
    match sep(&parts.selector, separator, mode, start) {
        Outcome::Success(rest, selected) => {
            let mut i: usize = 0;
            while i < parts.cases.len()
                invariant
                    i <= parts.cases.len(),
                    cases_spec(parts.cases@, separator@, mode, i as nat, start@, rest@, selected@)
                        == switch_spec(*parts, separator@, mode, start@),
                decreases parts.cases.len() - i,
            {
                let hit = match &selected {
                    Value::Bytes(b) => bytes_equal(b, parts.cases[i].pattern.as_slice()),
                    _ => false,
                };
                assert(hit == (selected@ == ValueModel::Bytes(parts.cases@[i as int].pattern@)));
                if hit {
                    let outcome = sep(&parts.cases[i].parser, separator, mode, rest);
                    return switch_error(start, outcome);
                }
                i += 1;
            }
            Outcome::Recoverable(ErrorContext::leaf(start, ErrorKind::Switch))
        },
        other => switch_error(start, other),
    }
}

/// The error kind of a repetition.
pub fn repetition_kind(at_least_one: bool) -> (k: ErrorKind)
    ensures
        k == many_kind(at_least_one),
{
    if at_least_one {
        ErrorKind::Many1
    } else {
        ErrorKind::Many0
    }
}

/// Skips the separator and runs the grammar; also says whether the run
/// came back without having consumed a byte beyond the separator.
fn attempt_sep<'a>(g: &Grammar, separator: &Separator, mode: Mode, cursor: &'a [u8]) -> (r: (
    Outcome<'a>,
    bool,
))
    ensures
        r.0@ == wrap_spec(*g, separator@, mode, cursor@),
        r.0@ matches OutcomeModel::Success(rest, _) ==> r.1 == no_progress(
            separator@,
            cursor@,
            rest,
        ),
    decreases g, 2nat, 1nat,
{
    let start = skip_separator(cursor, separator);
    let outcome = sep(g, separator, mode, start);
    let stalled = match &outcome {
        Outcome::Success(rest, _) => rest.len() >= start.len(),
        _ => false,
    };
    (outcome, stalled)
}

/// Matches the element, each time after the separator, until it fails
/// recoverably. An element that matches without consuming a byte of its
/// own is a fatal error.
pub fn many_sep<'a>(
    element: &Grammar,
    at_least_one: bool,
    separator: &Separator,
    mode: Mode,
    input: &'a [u8],
) -> (r: Outcome<'a>)
    ensures
        r@ == many_spec(*element, at_least_one, separator@, mode, input@, Seq::empty()),
    decreases element, 3nat, 0nat,
{
    let mut cursor = input;
    let mut found: Vec<Value<'a>> = Vec::new();
    assert(models(found@) =~= Seq::empty());
    loop
        invariant
            many_spec(*element, at_least_one, separator@, mode, cursor@, models(found@))
                == many_spec(*element, at_least_one, separator@, mode, input@, Seq::empty()),
        decreases cursor.len(),
    {
        match attempt_sep(element, separator, mode, cursor) {
            (Outcome::Success(rest, value), stalled) => {
                if stalled {
                    return Outcome::Fatal(
                        ErrorContext::leaf(cursor, repetition_kind(at_least_one)),
                    );
                }
                proof {
                    lemma_models_push(found@, value);
                }
                found.push(value);
                cursor = rest;
            },
            (Outcome::Recoverable(_), _) => {
                if at_least_one && found.len() == 0 {
                    return Outcome::Recoverable(ErrorContext::leaf(cursor, ErrorKind::Many1));
                }
                proof {
                    lemma_list_model(found);
                }
                return Outcome::Success(cursor, Value::List(found));
            },
            (other, _) => {
                return other;
            },
        }
    }
}

/// Matches a first element, then a delimiter and an element as often as
/// both match.
pub fn separated_list_sep<'a>(
    parts: &ListParts,
    separator: &Separator,
    mode: Mode,
    start: &'a [u8],
) -> (r: Outcome<'a>)
    ensures
        r@ == separated_list_spec(*parts, separator@, mode, start@),
    decreases parts, 1nat, 0nat,
{
    let mut found: Vec<Value<'a>> = Vec::new();
    let mut cursor = start;
    match attempt_sep(&parts.element, separator, mode, start) {
        (Outcome::Success(rest, value), stalled) => {
            if stalled {
                return Outcome::Fatal(ErrorContext::leaf(start, ErrorKind::SeparatedList));
            }
            found.push(value);
            assert(models(found@) =~= seq![value@]);
            cursor = rest;
        },
        (Outcome::Recoverable(_), _) => {
            return Outcome::Recoverable(ErrorContext::leaf(start, ErrorKind::SeparatedList));
        },
        (other, _) => {
            return other;
        },
    }
    loop
        invariant
            list_spec(*parts, separator@, mode, cursor@, models(found@)) == separated_list_spec(
                *parts,
                separator@,
                mode,
                start@,
            ),
        decreases cursor.len(),
    {
        match attempt_sep(&parts.delimiter, separator, mode, cursor) {
            (Outcome::Success(middle, _), stalled) => {
                if stalled {
                    proof {
                        lemma_list_model(found);
                    }
                    return Outcome::Success(cursor, Value::List(found));
                }
                match attempt_sep(&parts.element, separator, mode, middle) {
                    (Outcome::Success(rest, value), stalled) => {
                        if stalled {
                            return Outcome::Fatal(
                                ErrorContext::leaf(middle, ErrorKind::SeparatedList),
                            );
                        }
                        proof {
                            lemma_models_push(found@, value);
                        }
                        found.push(value);
                        cursor = rest;
                    },
                    (Outcome::Recoverable(_), _) => {
                        proof {
                            lemma_list_model(found);
                        }
                        return Outcome::Success(cursor, Value::List(found));
                    },
                    (other, _) => {
                        return other;
                    },
                }
            },
            (Outcome::Recoverable(_), _) => {
                proof {
                    lemma_list_model(found);
                }
                return Outcome::Success(cursor, Value::List(found));
            },
            (other, _) => {
                return other;
            },
        }
    }
}

/// Runs a grammar with the separator skipped before every sub-parser and
/// once more after the whole grammar.
pub fn trimmed<'a>(g: &Grammar, separator: &Separator, mode: Mode, input: &'a [u8]) -> (r: Outcome<
    'a,
>)
    ensures
        r@ == trimmed_spec(*g, separator@, mode, input@),
{
    match sep(g, separator, mode, input) {
        Outcome::Success(rest, value) => Outcome::Success(skip_separator(rest, separator), value),
        other => other,
    }
}

/// Runs a grammar with whitespace skipped before every sub-parser and after
/// the whole grammar.
pub fn ws<'a>(g: &Grammar, mode: Mode, input: &'a [u8]) -> (r: Outcome<'a>)
    ensures
        r@ == ws_spec(*g, mode, input@),
{
    let separator = Separator::whitespace();
    trimmed(g, &separator, mode, input)
}

} // verus!
