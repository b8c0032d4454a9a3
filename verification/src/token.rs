//! Primitive token parsers: the leaves of a grammar. They know nothing of
//! separators.

use crate::outcome::{
    leaf_model, ErrorContext, ErrorKind, Mode, Needed, Outcome, OutcomeModel, Value, ValueModel,
};
use vstd::prelude::*;
use vstd::slice::slice_subrange;

verus! {

/// A value that a grammar supplies by itself.
#[derive(Debug, Clone, Copy, PartialEq, Eq, Structural)]
pub enum Constant {
    Number(u64),
    Flag(bool),
}

impl Constant {
    /// The constant as an output value.
    pub open spec fn model(self) -> ValueModel {
        match self {
            Constant::Number(n) => ValueModel::Number(n),
            Constant::Flag(f) => ValueModel::Flag(f),
        }
    }

    /// The constant as an output value.
    pub fn value<'a>(self) -> (v: Value<'a>)
        ensures
            v@ == self.model(),
    {
        match self {
            Constant::Number(n) => Value::Number(n),
            Constant::Flag(f) => Value::Flag(f),
        }
    }
}

/// A primitive parser.
#[derive(Debug)]
pub enum Token {
    /// Matches exactly these bytes.
    Tag(Vec<u8>),
    /// Takes this many bytes, whatever they are.
    Take(usize),
    /// Takes all the input that is left.
    Rest,
    /// Never matches; reports this error code.
    Fail(u32),
    /// Matches without consuming anything and produces the constant.
    Constant(Constant),
    /// Tries the inner parser; a mismatch becomes a success that consumes nothing.
    Opt(Box<Token>),
}

/// The two byte strings are equal as far as both reach.
pub open spec fn agree(a: Seq<u8>, b: Seq<u8>) -> bool {
    forall|i: int| 0 <= i < a.len() && i < b.len() ==> a[i] == b[i]
}

/// What a parser that ran out of input reports: a mismatch at the end of a
/// complete input, a request for more on a stream.
pub open spec fn need_more_spec(mode: Mode, input: Seq<u8>, wanted: usize) -> OutcomeModel {
    match mode {
        Mode::Complete => OutcomeModel::Recoverable(leaf_model(input, ErrorKind::Eof)),
        Mode::Streaming => OutcomeModel::Incomplete(Needed::Size(wanted)),
    }
}

/// What the tag parser returns.
pub open spec fn tag_spec(tag: Seq<u8>, mode: Mode, input: Seq<u8>) -> OutcomeModel {
    if !agree(input, tag) {
        OutcomeModel::Recoverable(leaf_model(input, ErrorKind::Tag))
    } else if input.len() >= tag.len() {
        OutcomeModel::Success(
            input.skip(tag.len() as int),
            ValueModel::Bytes(input.take(tag.len() as int)),
        )
    } else {
        need_more_spec(mode, input, tag.len() as usize)
    }
}

/// What the take parser returns.
pub open spec fn take_spec(count: usize, mode: Mode, input: Seq<u8>) -> OutcomeModel {
    if input.len() >= count {
        OutcomeModel::Success(input.skip(count as int), ValueModel::Bytes(input.take(count as int)))
    } else {
        need_more_spec(mode, input, count)
    }
}

/// What an optional parser makes of the inner parser's outcome on `input`.
pub open spec fn opt_spec(inner: OutcomeModel, input: Seq<u8>) -> OutcomeModel {
    match inner {
        OutcomeModel::Success(rest, value) => OutcomeModel::Success(
            rest,
            ValueModel::Present(Box::new(value)),
        ),
        OutcomeModel::Recoverable(_) => OutcomeModel::Success(input, ValueModel::Absent),
        other => other,
    }
}

/// What a primitive parser returns on an input.
pub open spec fn token_spec(token: Token, mode: Mode, input: Seq<u8>) -> OutcomeModel
    decreases token,
{
    match token {
        Token::Tag(tag) => tag_spec(tag@, mode, input),
        Token::Take(count) => take_spec(count, mode, input),
        Token::Rest => OutcomeModel::Success(
            input.skip(input.len() as int),
            ValueModel::Bytes(input),
        ),
        Token::Fail(code) => OutcomeModel::Recoverable(
            leaf_model(input, ErrorKind::Custom(code)),
        ),
        Token::Constant(c) => OutcomeModel::Success(input, c.model()),
        Token::Opt(inner) => opt_spec(token_spec(*inner, mode, input), input),
    }
}

/// A successful primitive parser returns a suffix of its input.
pub proof fn lemma_token_suffix(token: Token, mode: Mode, input: Seq<u8>)
    ensures
        token_spec(token, mode, input) matches OutcomeModel::Success(rest, _) ==> {
            &&& rest.len() <= input.len()
            &&& rest == input.skip(input.len() - rest.len())
        },
    decreases token,
{
    match token {
        Token::Opt(inner) => {
            lemma_token_suffix(*inner, mode, input);
            assert(input.skip(0) =~= input);
        },
        Token::Constant(_) => {
            assert(input.skip(0) =~= input);
        },
        _ => {},
    }
}

/// Reports that the input ended too early.
fn need_more<'a>(mode: Mode, input: &'a [u8], wanted: usize) -> (r: Outcome<'a>)
    ensures
        r@ == need_more_spec(mode, input@, wanted),
{
    match mode {
        Mode::Complete => Outcome::Recoverable(ErrorContext::leaf(input, ErrorKind::Eof)),
        Mode::Streaming => Outcome::Incomplete(Needed::Size(wanted)),
    }
}

/// Matches `bytes` at the start of the input.
pub fn tag<'a>(bytes: &[u8], mode: Mode, input: &'a [u8]) -> (r: Outcome<'a>)
    ensures
        r@ == tag_spec(bytes@, mode, input@),
{
    let mut i: usize = 0;
    while i < bytes.len() && i < input.len()
        invariant
            i <= bytes.len(),
            i <= input.len(),
            forall|j: int| 0 <= j < i ==> input@[j] == bytes@[j],
        decreases bytes.len() - i,
    {
        if input[i] != bytes[i] {
            return Outcome::Recoverable(ErrorContext::leaf(input, ErrorKind::Tag));
        }
        i += 1;
    }
    if input.len() >= bytes.len() {
        let taken = slice_subrange(input, 0, bytes.len());
        let rest = slice_subrange(input, bytes.len(), input.len());
        Outcome::Success(rest, Value::Bytes(taken))
    } else {
        need_more(mode, input, bytes.len())
    }
}

/// Takes `count` bytes off the start of the input.
pub fn take<'a>(count: usize, mode: Mode, input: &'a [u8]) -> (r: Outcome<'a>)
    ensures
        r@ == take_spec(count, mode, input@),
{
    if input.len() >= count {
        let taken = slice_subrange(input, 0, count);
        let rest = slice_subrange(input, count, input.len());
        Outcome::Success(rest, Value::Bytes(taken))
    } else {
        need_more(mode, input, count)
    }
}

/// Runs a primitive parser on an input.
pub fn run_token<'a>(token: &Token, mode: Mode, input: &'a [u8]) -> (r: Outcome<'a>)
    ensures
        r@ == token_spec(*token, mode, input@),
    decreases token,
{
    match token {
        Token::Tag(bytes) => tag(bytes.as_slice(), mode, input),
        Token::Take(count) => take(*count, mode, input),
        Token::Rest => {
            let rest = slice_subrange(input, input.len(), input.len());
            assert(input@.subrange(0, input@.len() as int) =~= input@);
            Outcome::Success(rest, Value::Bytes(input))
        },
        Token::Fail(code) => Outcome::Recoverable(
            ErrorContext::leaf(input, ErrorKind::Custom(*code)),
        ),
        Token::Constant(c) => Outcome::Success(input, c.value()),
        Token::Opt(inner) => match run_token(inner, mode, input) {
            Outcome::Success(rest, value) => Outcome::Success(rest, Value::Present(Box::new(value))),
            Outcome::Recoverable(_) => Outcome::Success(input, Value::Absent),
            other => other,
        },
    }
}

} // verus!
