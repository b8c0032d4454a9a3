//! The separator parser: which bytes may be skipped between tokens, and how
//! far a run of them reaches. It never fails: where no separator byte
//! stands at the start of the input, it skips nothing.

use crate::outcome::{Outcome, OutcomeModel, Value, ValueModel};
use nom::InputTakeAtPosition;
use vstd::prelude::*;
use vstd::slice::slice_subrange;

verus! {

/// The set of bytes that count as separators.
#[derive(Debug)]
pub struct Separator {
    /// The separator bytes, in any order.
    pub bytes: Vec<u8>,
}

impl View for Separator {
    type V = Seq<u8>;

    open spec fn view(&self) -> Seq<u8> {
        self.bytes@
    }
}

/// The bytes skipped by default: space, tab, carriage return and line feed.
pub open spec fn whitespace_bytes() -> Seq<u8> {
    seq![32u8, 9u8, 13u8, 10u8]
}

/// Every byte of `run` is a separator byte.
pub open spec fn all_separators(set: Seq<u8>, run: Seq<u8>) -> bool {
    forall|i: int| 0 <= i < run.len() ==> set.contains(#[trigger] run[i])
}

/// The length of the longest prefix of `input` made of separator bytes.
pub open spec fn run_length(set: Seq<u8>, input: Seq<u8>) -> nat
    decreases input.len(),
{
    if input.len() == 0 || !set.contains(input[0]) {
        0
    } else {
        1 + run_length(set, input.drop_first())
    }
}

/// The separator bytes at the start of `input`.
pub open spec fn separator_run(set: Seq<u8>, input: Seq<u8>) -> Seq<u8> {
    input.take(run_length(set, input) as int)
}

/// What is left of `input` once the separator bytes at its start are
/// skipped.
pub open spec fn after_separator(set: Seq<u8>, input: Seq<u8>) -> Seq<u8> {
    input.skip(run_length(set, input) as int)
}

/// What the separator parser returns: always a success, with the leading
/// run of separator bytes split off.
pub open spec fn eat_spec(set: Seq<u8>, input: Seq<u8>) -> OutcomeModel {
    OutcomeModel::Success(
        after_separator(set, input),
        ValueModel::Bytes(separator_run(set, input)),
    )
}

/// The run of separator bytes ends inside the input or at its end, and is
/// made of separator bytes only.
pub proof fn lemma_run_length_bounds(set: Seq<u8>, input: Seq<u8>)
    ensures
        run_length(set, input) <= input.len(),
        all_separators(set, input.take(run_length(set, input) as int)),
        run_length(set, input) < input.len() ==> !set.contains(
            input[run_length(set, input) as int],
        ),
    decreases input.len(),
{
    if input.len() == 0 || !set.contains(input[0]) {
    } else {
        let tail = input.drop_first();
        lemma_run_length_bounds(set, tail);
        let k = run_length(set, input) as int;
        assert forall|i: int| 0 <= i < k implies set.contains(#[trigger] input.take(k)[i]) by {
            if i > 0 {
                assert(input.take(k)[i] == tail.take(k - 1)[i - 1]);
            }
        }
    }
}

/// A split point that follows separator bytes only and stands at the end of
/// the input or before a byte that is no separator is the end of the run.
pub proof fn lemma_run_length_unique(set: Seq<u8>, input: Seq<u8>, k: int)
    requires
        0 <= k <= input.len(),
        all_separators(set, input.take(k)),
        k < input.len() ==> !set.contains(input[k]),
    ensures
        run_length(set, input) == k,
    decreases input.len(),
{
    if k == 0 {
    } else {
        assert(input.take(k)[0] == input[0]);
        let tail = input.drop_first();
        assert forall|i: int| 0 <= i < k - 1 implies set.contains(#[trigger] tail.take(k - 1)[i]) by {
            assert(tail.take(k - 1)[i] == input.take(k)[i + 1]);
        }
        lemma_run_length_unique(set, tail, k - 1);
    }
}

/// Separator bytes in front of an input are part of its leading run.
pub proof fn lemma_run_length_prepend(set: Seq<u8>, lead: Seq<u8>, input: Seq<u8>)
    requires
        all_separators(set, lead),
    ensures
        run_length(set, lead + input) == lead.len() + run_length(set, input),
{
    let k = run_length(set, input) as int;
    let whole = lead + input;
    lemma_run_length_bounds(set, input);
    assert forall|i: int| 0 <= i < lead.len() + k implies set.contains(
        #[trigger] whole.take(lead.len() + k)[i],
    ) by {
        if i < lead.len() {
            assert(whole.take(lead.len() + k)[i] == lead[i]);
        } else {
            assert(whole.take(lead.len() + k)[i] == input.take(k)[i - lead.len()]);
        }
    }
    if lead.len() + k < whole.len() {
        assert(whole[lead.len() + k] == input[k]);
    }
    lemma_run_length_unique(set, whole, lead.len() + k);
}

/// The separator parser leaves the same input whether or not more
/// separator bytes stand in front.
pub proof fn lemma_eat_prepend(set: Seq<u8>, lead: Seq<u8>, input: Seq<u8>)
    requires
        all_separators(set, lead),
    ensures
        after_separator(set, lead + input) == after_separator(set, input),
{
    lemma_run_length_prepend(set, lead, input);
    lemma_run_length_bounds(set, input);
    let k = run_length(set, input) as int;
    assert((lead + input).skip(lead.len() + k) =~= input.skip(k));
}

/// The separator parser splits the input in two: separator bytes only in
/// the first part, none at the start of the second.
pub proof fn lemma_eat_splits(set: Seq<u8>, input: Seq<u8>)
    ensures
        separator_run(set, input) + after_separator(set, input) == input,
        separator_run(set, input).len() + after_separator(set, input).len() == input.len(),
        all_separators(set, separator_run(set, input)),
        after_separator(set, input).len() > 0 ==> !set.contains(after_separator(set, input)[0]),
{
    lemma_run_length_bounds(set, input);
    let k = run_length(set, input) as int;
    assert(input.take(k) + input.skip(k) =~= input);
}

/// An input that does not start with a separator byte is left as it is.
pub proof fn lemma_eat_nothing(set: Seq<u8>, input: Seq<u8>)
    requires
        input.len() > 0 ==> !set.contains(input[0]),
    ensures
        after_separator(set, input) == input,
        separator_run(set, input) == Seq::<u8>::empty(),
{
    assert(input.skip(0) =~= input);
    assert(input.take(0) =~= Seq::<u8>::empty());
}

/// Skipping separators twice skips no more than skipping them once.
pub proof fn lemma_eat_twice(set: Seq<u8>, input: Seq<u8>)
    ensures
        after_separator(set, after_separator(set, input)) == after_separator(set, input),
{
    lemma_eat_splits(set, input);
    lemma_eat_nothing(set, after_separator(set, input));
}

impl Separator {
    /// A separator made of the given bytes.
    pub fn new(bytes: Vec<u8>) -> (s: Separator)
        ensures
            s@ == bytes@,
    {
        Separator { bytes }
    }

    /// The default separator: space, tab, carriage return and line feed.
    pub fn whitespace() -> (s: Separator)
        ensures
            s@ == whitespace_bytes(),
    {
        let mut bytes: Vec<u8> = Vec::new();
        bytes.push(32u8);
        bytes.push(9u8);
        bytes.push(13u8);
        bytes.push(10u8);
        assert(bytes@ =~= whitespace_bytes());
        Separator { bytes }
    }

    /// Whether `b` is a separator byte.
    pub fn contains(&self, b: u8) -> (r: bool)
        ensures
            r == self@.contains(b),
    {
        let mut i: usize = 0;
        while i < self.bytes.len()
            invariant
                i <= self.bytes.len(),
                forall|j: int| 0 <= j < i ==> self.bytes@[j] != b,
            decreases self.bytes.len() - i,
        {
            if self.bytes[i] == b {
                return true;
            }
            i += 1;
        }
        false
    }

    /// Whether a run of separator bytes ends before `b`.
    pub fn stops(&self, b: u8) -> (r: bool)
        ensures
            r == !self@.contains(b),
    {
        !self.contains(b)
    }
}

/// Calls nom's `split_at_position` on a byte slice. nom looks for the first
/// byte for which the predicate holds, here the first byte that is no
/// separator. Where it finds one, it returns the input from that byte on
/// and the bytes before it. Where every byte is a separator, it returns an
/// error that asks for more input; the error is dropped here, and the
/// result is `None`.
#[verifier::external_body]
fn split_at_separator_end<'a>(input: &'a [u8], separator: &Separator) -> (r: Option<
    (&'a [u8], &'a [u8]),
>)
    ensures
        match r {
            Some((rest, taken)) => {
                &&& taken@.len() < input@.len()
                &&& taken@ == input@.take(taken@.len() as int)
                &&& rest@ == input@.skip(taken@.len() as int)
                &&& all_separators(separator@, taken@)
                &&& !separator@.contains(rest@[0])
            },
            None => all_separators(separator@, input@),
        },
{
    input.split_at_position(|b: u8| separator.stops(b)).ok()
}

/// Splits the input after the leading run of separator bytes: what is left,
/// and the run.
pub fn split_separator<'a>(input: &'a [u8], separator: &Separator) -> (r: (&'a [u8], &'a [u8]))
    ensures
        r.0@ == after_separator(separator@, input@),
        r.1@ == separator_run(separator@, input@),
        r.0@.len() + r.1@.len() == input@.len(),
{
    match split_at_separator_end(input, separator) {
        Some((rest, taken)) => {
            proof {
                lemma_run_length_unique(separator@, input@, taken@.len() as int);
            }
            (rest, taken)
        },
        None => {
            proof {
                assert(input@.take(input@.len() as int) =~= input@);
                lemma_run_length_unique(separator@, input@, input@.len() as int);
            }
            let rest = slice_subrange(input, input.len(), input.len());
            assert(rest@ =~= input@.skip(input@.len() as int));
            (rest, input)
        },
    }
}

/// What is left of the input once the leading separator bytes are skipped.
pub fn skip_separator<'a>(input: &'a [u8], separator: &Separator) -> (rest: &'a [u8])
    ensures
        rest@ == after_separator(separator@, input@),
        rest@.len() + run_length(separator@, input@) == input@.len(),
{
    proof {
        lemma_run_length_bounds(separator@, input@);
    }
    split_separator(input, separator).0
}

/// The separator parser: splits the leading run of separator bytes off the
/// input. It always succeeds.
pub fn eat_separator<'a>(input: &'a [u8], separator: &Separator) -> (r: Outcome<'a>)
    ensures
        r@ == eat_spec(separator@, input@),
{
    let (rest, taken) = split_separator(input, separator);
    Outcome::Success(rest, Value::Bytes(taken))
}

/// Splits leading whitespace (space, tab, carriage return, line feed) off
/// the input.
pub fn sp<'a>(input: &'a [u8]) -> (r: Outcome<'a>)
    ensures
        r@ == eat_spec(whitespace_bytes(), input@),
{
    let separator = Separator::whitespace();
    eat_separator(input, &separator)
}

} // verus!
