//! What holds of a permutation of distinct tokens: the order in which the
//! tokens stand in the input does not matter, and none of them may be
//! missing.

use crate::grammar::Grammar;
use crate::outcome::{Mode, OutcomeModel, ValueModel};
use crate::semantics::{
    all_filled, attempt_spec, conclude, empty_slots, parse_spec, permutation_spec, slot_values,
    whole_permutation_spec, Attempt,
};
use crate::separator::{
    after_separator, all_separators, lemma_eat_nothing, lemma_eat_prepend, lemma_eat_twice,
};
use crate::token::{agree, tag_spec, Token};
use vstd::prelude::*;

verus! {

/// The bytes of a tag parser.
pub open spec fn tag_of(g: Grammar) -> Seq<u8> {
    match g {
        Grammar::Token(Token::Tag(bytes)) => bytes@,
        _ => Seq::empty(),
    }
}

/// Every item is a tag that starts with a byte that is no separator, and no
/// two tags agree as far as both reach: at any input at most one of them
/// can match.
pub open spec fn distinct_tokens(items: Seq<Grammar>, set: Seq<u8>) -> bool {
    &&& forall|i: int|
        0 <= i < items.len() ==> {
            &&& (#[trigger] items[i]) matches Grammar::Token(Token::Tag(_))
            &&& tag_of(items[i]).len() > 0
            &&& !set.contains(tag_of(items[i])[0])
        }
    &&& forall|i: int, j: int|
        0 <= i < items.len() && 0 <= j < items.len() && i != j ==> !agree(
            tag_of(#[trigger] items[i]),
            tag_of(#[trigger] items[j]),
        )
}

/// `order` names slots of a permutation of `count` items, none of them twice.
pub open spec fn valid_order(order: Seq<int>, count: nat) -> bool {
    &&& forall|j: int| 0 <= j < order.len() ==> 0 <= #[trigger] order[j] < count
    &&& forall|j: int, k: int|
        0 <= j < order.len() && 0 <= k < order.len() && j != k ==> order[j] != order[k]
}

/// Every gap is made of separator bytes.
pub open spec fn valid_gaps(gaps: Seq<Seq<u8>>, set: Seq<u8>) -> bool {
    forall|j: int| 0 <= j < gaps.len() ==> all_separators(set, #[trigger] gaps[j])
}

/// The input that holds, from position `j` of `order` on, each gap and the
/// token of the slot that `order` names there, and then `tail`.
pub open spec fn arranged(
    items: Seq<Grammar>,
    order: Seq<int>,
    gaps: Seq<Seq<u8>>,
    j: nat,
    tail: Seq<u8>,
) -> Seq<u8>
    decreases order.len() - j,
{
    if j >= order.len() {
        tail
    } else {
        gaps[j as int] + (tag_of(items[order[j as int]]) + arranged(
            items,
            order,
            gaps,
            j + 1,
            tail,
        ))
    }
}

/// The slots after the first `j` tokens of `order` have matched.
pub open spec fn filled_by(items: Seq<Grammar>, order: Seq<int>, j: nat) -> Seq<
    Option<ValueModel>,
> {
    Seq::new(
        items.len(),
        |k: int|
            if order.take(j as int).contains(k) {
                Some(ValueModel::Bytes(tag_of(items[k])))
            } else {
                None
            },
    )
}

/// The output of a permutation of tags: every tag, in declaration order.
pub open spec fn all_tags(items: Seq<Grammar>) -> ValueModel {
    ValueModel::Tuple(Seq::new(items.len(), |k: int| ValueModel::Bytes(tag_of(items[k]))))
}

/// At an input that holds separator bytes and then the token of slot `o`,
/// the parser of slot `o` matches that token, and the parser of any other
/// slot fails recoverably.
pub proof fn lemma_token_at(
    items: Seq<Grammar>,
    set: Seq<u8>,
    mode: Mode,
    k: int,
    o: int,
    lead: Seq<u8>,
    rest: Seq<u8>,
)
    requires
        distinct_tokens(items, set),
        0 <= k < items.len(),
        0 <= o < items.len(),
        all_separators(set, lead),
    ensures
        k == o ==> parse_spec(items[k], set, mode, lead + (tag_of(items[o]) + rest))
            == OutcomeModel::Success(rest, ValueModel::Bytes(tag_of(items[o]))),
        k != o ==> parse_spec(items[k], set, mode, lead + (tag_of(items[o]) + rest))
            is Recoverable,
{
    let token = tag_of(items[o]);
    let after = token + rest;
    assert(after[0] == token[0]);
    lemma_eat_nothing(set, after);
    lemma_eat_prepend(set, lead, after);
    assert(items[k] matches Grammar::Token(Token::Tag(_)));
    assert(parse_spec(items[k], set, mode, lead + after) == tag_spec(
        tag_of(items[k]),
        mode,
        after,
    ));
    if k == o {
        assert forall|i: int| 0 <= i < after.len() && i < token.len() implies after[i]
            == token[i] by {}
        assert(after.skip(token.len() as int) =~= rest);
        assert(after.take(token.len() as int) =~= token);
    } else {
        let other = tag_of(items[k]);
        assert(!agree(tag_of(items[o]), tag_of(items[k])));
        let i = choose|i: int| 0 <= i < token.len() && i < other.len() && token[i] != other[i];
        assert(after[i] == token[i]);
    }
}

/// A pass over the slots after `j` tokens have matched, at an input that
/// holds the next token of `order`, fills the slot of that token.
pub proof fn lemma_pass_fills(
    items: Seq<Grammar>,
    set: Seq<u8>,
    mode: Mode,
    order: Seq<int>,
    j: nat,
    lead: Seq<u8>,
    rest: Seq<u8>,
    i: nat,
)
    requires
        distinct_tokens(items, set),
        valid_order(order, items.len()),
        j < order.len(),
        all_separators(set, lead),
        i <= order[j as int],
    ensures
        attempt_spec(
            items,
            set,
            mode,
            lead + (tag_of(items[order[j as int]]) + rest),
            filled_by(items, order, j),
            i,
        ) == Attempt::Filled(
            order[j as int],
            rest,
            ValueModel::Bytes(tag_of(items[order[j as int]])),
        ),
    decreases order[j as int] - i,
{
    let o = order[j as int];
    lemma_token_at(items, set, mode, i as int, o, lead, rest);
    if i < o {
        lemma_pass_fills(items, set, mode, order, j, lead, rest, i + 1);
    } else {
        let before = order.take(j as int);
        if before.contains(o) {
            let at = choose|at: int| 0 <= at < before.len() && before[at] == o;
            assert(order[at] == order[j as int]);
        }
        assert(filled_by(items, order, j)[o] is None);
    }
}

/// Filling the slot of the next token of `order` gives the slots after one
/// more token.
pub proof fn lemma_filled_by_next(items: Seq<Grammar>, order: Seq<int>, j: nat)
    requires
        valid_order(order, items.len()),
        j < order.len(),
    ensures
        filled_by(items, order, j).update(
            order[j as int],
            Some(ValueModel::Bytes(tag_of(items[order[j as int]]))),
        ) == filled_by(items, order, j + 1),
{
    let o = order[j as int];
    let before = order.take(j as int);
    let after = order.take(j + 1 as int);
    let left = filled_by(items, order, j).update(o, Some(ValueModel::Bytes(tag_of(items[o]))));
    let right = filled_by(items, order, j + 1);
    assert(after[j as int] == o);
    assert forall|k: int| 0 <= k < items.len() implies left[k] == right[k] by {
        if before.contains(k) {
            let at = choose|at: int| 0 <= at < before.len() && before[at] == k;
            assert(after[at] == k);
        }
        if after.contains(k) && k != o {
            let at = choose|at: int| 0 <= at < after.len() && after[at] == k;
            assert(before[at] == k);
        }
    }
    assert(left =~= right);
}

/// A permutation that stands before the `j`-th token of `order` comes to
/// what it comes to once all tokens of `order` have matched.
pub proof fn lemma_rounds(
    items: Seq<Grammar>,
    set: Seq<u8>,
    mode: Mode,
    order: Seq<int>,
    gaps: Seq<Seq<u8>>,
    tail: Seq<u8>,
    start: Seq<u8>,
    j: nat,
    lead: Seq<u8>,
    budget: nat,
)
    requires
        distinct_tokens(items, set),
        valid_order(order, items.len()),
        valid_gaps(gaps, set),
        gaps.len() == order.len(),
        j < order.len(),
        all_separators(set, lead),
        budget >= order.len() - j,
    ensures
        permutation_spec(
            items,
            set,
            mode,
            start,
            lead + (tag_of(items[order[j as int]]) + arranged(items, order, gaps, j + 1, tail)),
            filled_by(items, order, j),
            budget,
        ) == permutation_spec(
            items,
            set,
            mode,
            start,
            tail,
            filled_by(items, order, order.len()),
            (budget - (order.len() - j)) as nat,
        ),
    decreases order.len() - j,
{
    let next = arranged(items, order, gaps, j + 1, tail);
    lemma_pass_fills(items, set, mode, order, j, lead, next, 0);
    lemma_filled_by_next(items, order, j);
    if j + 1 < order.len() {
        lemma_rounds(
            items,
            set,
            mode,
            order,
            gaps,
            tail,
            start,
            j + 1,
            gaps[j + 1 as int],
            (budget - 1) as nat,
        );
    }
}

/// A pass at an input where the parser of every unfilled slot fails
/// recoverably fills nothing.
pub proof fn lemma_pass_stuck(
    items: Seq<Grammar>,
    set: Seq<u8>,
    mode: Mode,
    cursor: Seq<u8>,
    slots: Seq<Option<ValueModel>>,
    i: nat,
)
    requires
        slots.len() == items.len(),
        forall|k: int|
            0 <= k < items.len() && slots[k] is None ==> (#[trigger] parse_spec(
                items[k],
                set,
                mode,
                cursor,
            )) is Recoverable,
    ensures
        attempt_spec(items, set, mode, cursor, slots, i) == Attempt::Stuck,
    decreases items.len() - i,
{
    if i < items.len() {
        if slots[i as int] is None {
            assert(parse_spec(items[i as int], set, mode, cursor) is Recoverable);
        }
        lemma_pass_stuck(items, set, mode, cursor, slots, i + 1);
    }
}

/// Order independence: whatever the order in which the tokens of a
/// permutation of distinct tags stand in the input, and whatever separator
/// bytes stand before each of them, the permutation succeeds, leaves what
/// follows the last token, and returns the tags in declaration order.
pub proof fn law_permutation_order_independent(
    parsers: Vec<Grammar>,
    set: Seq<u8>,
    mode: Mode,
    order: Seq<int>,
    gaps: Seq<Seq<u8>>,
    tail: Seq<u8>,
)
    requires
        parsers@.len() > 0,
        distinct_tokens(parsers@, set),
        valid_order(order, parsers@.len()),
        order.len() == parsers@.len(),
        forall|k: int| 0 <= k < parsers@.len() ==> order.contains(k),
        valid_gaps(gaps, set),
        gaps.len() == order.len(),
    ensures
        parse_spec(
            Grammar::Permutation(parsers),
            set,
            mode,
            arranged(parsers@, order, gaps, 0, tail),
        ) == OutcomeModel::Success(tail, all_tags(parsers@)),
{
    let items = parsers@;
    let count = items.len();
    let first = tag_of(items[order[0]]);
    let start = first + arranged(items, order, gaps, 1, tail);
    let input = arranged(items, order, gaps, 0, tail);
    assert(input == gaps[0] + start);
    assert(start[0] == first[0]);
    lemma_eat_nothing(set, start);
    lemma_eat_prepend(set, gaps[0], start);
    assert(after_separator(set, input) == start);
    assert(Seq::<u8>::empty() + start =~= start);
    assert(filled_by(items, order, 0) =~= empty_slots(count));
    lemma_rounds(items, set, mode, order, gaps, tail, start, 0, Seq::empty(), count);
    let slots = filled_by(items, order, count);
    assert(order.take(count as int) =~= order);
    assert(all_filled(slots));
    assert(slot_values(slots) =~= Seq::new(
        count,
        |k: int| ValueModel::Bytes(tag_of(items[k])),
    ));
    assert(permutation_spec(items, set, mode, start, tail, slots, 0) == conclude(
        start,
        tail,
        slots,
    ));
    assert(whole_permutation_spec(items, set, mode, start) == OutcomeModel::Success(
        tail,
        all_tags(items),
    ));
}

/// Completeness: where the input holds the tokens of some slots of a
/// permutation of distinct tags, in any order, but not the token of every
/// slot, and the parsers of the missing slots fail recoverably at what
/// follows, the permutation fails recoverably. It never succeeds.
pub proof fn law_permutation_needs_every_token(
    parsers: Vec<Grammar>,
    set: Seq<u8>,
    mode: Mode,
    order: Seq<int>,
    gaps: Seq<Seq<u8>>,
    tail: Seq<u8>,
    missing: int,
)
    requires
        distinct_tokens(parsers@, set),
        valid_order(order, parsers@.len()),
        order.len() < parsers@.len(),
        valid_gaps(gaps, set),
        gaps.len() == order.len(),
        0 <= missing < parsers@.len(),
        !order.contains(missing),
        forall|k: int|
            0 <= k < parsers@.len() && !order.contains(k) ==> (#[trigger] parse_spec(
                parsers@[k],
                set,
                mode,
                tail,
            )) is Recoverable,
    ensures
        parse_spec(
            Grammar::Permutation(parsers),
            set,
            mode,
            arranged(parsers@, order, gaps, 0, tail),
        ) is Recoverable,
{
    let items = parsers@;
    let count = items.len();
    let present = order.len();
    let slots = filled_by(items, order, present);
    assert(order.take(present as int) =~= order);
    assert(slots[missing] is None);
    if present == 0 {
        let start = after_separator(set, tail);
        lemma_eat_twice(set, tail);
        assert forall|k: int| 0 <= k < count && slots[k] is None implies (#[trigger] parse_spec(
            items[k],
            set,
            mode,
            start,
        )) is Recoverable by {
            assert(parse_spec(items[k], set, mode, tail) is Recoverable);
        }
        assert(slots =~= empty_slots(count));
        lemma_pass_stuck(items, set, mode, start, slots, 0);
        assert(whole_permutation_spec(items, set, mode, start) == conclude(start, start, slots));
    } else {
        let first = tag_of(items[order[0]]);
        let start = first + arranged(items, order, gaps, 1, tail);
        assert(start[0] == first[0]);
        lemma_eat_nothing(set, start);
        lemma_eat_prepend(set, gaps[0], start);
        assert(Seq::<u8>::empty() + start =~= start);
        assert(filled_by(items, order, 0) =~= empty_slots(count));
        lemma_rounds(items, set, mode, order, gaps, tail, start, 0, Seq::empty(), count);
        assert forall|k: int| 0 <= k < count && slots[k] is None implies (#[trigger] parse_spec(
            items[k],
            set,
            mode,
            tail,
        )) is Recoverable by {}
        lemma_pass_stuck(items, set, mode, tail, slots, 0);
        assert(whole_permutation_spec(items, set, mode, start) == conclude(start, tail, slots));
    }
}

} // verus!
