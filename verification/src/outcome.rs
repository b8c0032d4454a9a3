//! The three-outcome result model shared by every parser of the crate.

use vstd::prelude::*;

verus! {

/// Whether the input is a prefix of a stream that may still grow, or all there is.
#[derive(Debug, Clone, Copy, PartialEq, Eq, Structural)]
pub enum Mode {
    /// More bytes may arrive: a parser that runs out of input asks for more.
    Streaming,
    /// The whole input is buffered: running out of input is a mismatch.
    Complete,
}

/// How much more input a parser would need before it can decide.
#[derive(Debug, Clone, Copy, PartialEq, Eq, Structural)]
pub enum Needed {
    /// More input is needed, the amount is not known.
    Unknown,
    /// The total number of bytes the parser wanted to see.
    Size(usize),
}

/// Which parser reported an error.
#[derive(Debug, Clone, Copy, PartialEq, Eq, Structural)]
pub enum ErrorKind {
    /// A fixed byte string did not match.
    Tag,
    /// The input, known to be complete, ended too early.
    Eof,
    /// No branch of an alternation matched.
    Alt,
    /// Some slot of a permutation could not be filled.
    Permutation,
    /// The selector of a switch failed, no case matched, or the case failed.
    Switch,
    /// A zero-or-more repetition met an element that consumed nothing.
    Many0,
    /// A one-or-more repetition found no element, or one that consumed nothing.
    Many1,
    /// A separated list found no element, or one that consumed nothing.
    SeparatedList,
    /// An error code chosen by the grammar's author.
    Custom(u32),
}

/// Where and why a parser failed, with the failure that led to it, if any.
#[derive(Debug, PartialEq, Eq)]
pub struct ErrorContext<'a> {
    /// The input that was left when the failing parser started.
    pub position: &'a [u8],
    /// The parser that failed.
    pub kind: ErrorKind,
    /// The inner failure this one was built from.
    pub cause: Option<Box<ErrorContext<'a>>>,
}

/// The mathematical value of an [`ErrorContext`].
pub ghost struct ErrorModel {
    pub position: Seq<u8>,
    pub kind: ErrorKind,
    pub cause: Option<Box<ErrorModel>>,
}

impl<'a> ErrorContext<'a> {
    /// The context as a mathematical value, causes included.
    pub open spec fn model(&self) -> ErrorModel
        decreases self,
    {
        ErrorModel {
            position: self.position@,
            kind: self.kind,
            cause: match self.cause {
                Some(inner) => Some(Box::new((*inner).model())),
                None => None,
            },
        }
    }
}

/// An error with no inner cause.
pub open spec fn leaf_model(position: Seq<u8>, kind: ErrorKind) -> ErrorModel {
    ErrorModel { position, kind, cause: None }
}

/// An error built on top of an inner failure.
pub open spec fn node_model(position: Seq<u8>, kind: ErrorKind, cause: ErrorModel) -> ErrorModel {
    ErrorModel { position, kind, cause: Some(Box::new(cause)) }
}

impl<'a> ErrorContext<'a> {
    /// An error of the given kind at the given input, with no inner cause.
    pub fn leaf(position: &'a [u8], kind: ErrorKind) -> (e: ErrorContext<'a>)
        ensures
            e@ == leaf_model(position@, kind),
    {
        ErrorContext { position, kind, cause: None }
    }

    /// An error of the given kind at the given input, built on `cause`.
    pub fn node(position: &'a [u8], kind: ErrorKind, cause: ErrorContext<'a>) -> (e: ErrorContext<
        'a,
    >)
        ensures
            e@ == node_model(position@, kind, cause@),
    {
        ErrorContext { position, kind, cause: Some(Box::new(cause)) }
    }
}

impl<'a> View for ErrorContext<'a> {
    type V = ErrorModel;

    open spec fn view(&self) -> ErrorModel {
        self.model()
    }
}

/// What a successful parser produced.
#[derive(Debug, PartialEq, Eq)]
pub enum Value<'a> {
    /// A run of input bytes.
    Bytes(&'a [u8]),
    /// A number supplied by the grammar.
    Number(u64),
    /// A truth value supplied by the grammar.
    Flag(bool),
    /// An optional parser that did not match.
    Absent,
    /// An optional parser that matched.
    Present(Box<Value<'a>>),
    /// The outputs of a sequence, in declaration order.
    Tuple(Vec<Value<'a>>),
    /// The outputs of a repetition, in match order.
    List(Vec<Value<'a>>),
}

/// The mathematical value of a [`Value`].
pub ghost enum ValueModel {
    Bytes(Seq<u8>),
    Number(u64),
    Flag(bool),
    Absent,
    Present(Box<ValueModel>),
    Tuple(Seq<ValueModel>),
    List(Seq<ValueModel>),
}

impl<'a> Value<'a> {
    /// The value as a mathematical value, nested values included.
    pub open spec fn model(&self) -> ValueModel
        decreases self,
    {
        match self {
            Value::Bytes(b) => ValueModel::Bytes(b@),
            Value::Number(n) => ValueModel::Number(*n),
            Value::Flag(f) => ValueModel::Flag(*f),
            Value::Absent => ValueModel::Absent,
            Value::Present(inner) => ValueModel::Present(Box::new((*inner).model())),
            Value::Tuple(items) => ValueModel::Tuple(
                Seq::new(
                    items.len() as nat,
                    |i: int|
                        if 0 <= i < items.len() {
                            items[i].model()
                        } else {
                            ValueModel::Absent
                        },
                ),
            ),
            Value::List(items) => ValueModel::List(
                Seq::new(
                    items.len() as nat,
                    |i: int|
                        if 0 <= i < items.len() {
                            items[i].model()
                        } else {
                            ValueModel::Absent
                        },
                ),
            ),
        }
    }
}

impl<'a> View for Value<'a> {
    type V = ValueModel;

    open spec fn view(&self) -> ValueModel {
        self.model()
    }
}

/// The mathematical values of a run of values.
pub open spec fn models(values: Seq<Value>) -> Seq<ValueModel> {
    Seq::new(values.len(), |i: int| values[i]@)
}

/// The mathematical values of the slots of a permutation.
pub open spec fn slot_models(slots: Seq<Option<Value>>) -> Seq<Option<ValueModel>> {
    Seq::new(
        slots.len(),
        |i: int|
            match slots[i] {
                Some(v) => Some(v@),
                None => None,
            },
    )
}

/// Appending a value appends its mathematical value.
pub proof fn lemma_models_push(values: Seq<Value>, value: Value)
    ensures
        models(values.push(value)) == models(values).push(value@),
{
    assert(models(values.push(value)) =~= models(values).push(value@));
}

/// A tuple is the tuple of the mathematical values of its items.
pub proof fn lemma_tuple_model(items: Vec<Value>)
    ensures
        Value::Tuple(items)@ == ValueModel::Tuple(models(items@)),
{
    let left = Value::Tuple(items)@;
    assert(left->Tuple_0 =~= models(items@));
}

/// A list is the list of the mathematical values of its items.
pub proof fn lemma_list_model(items: Vec<Value>)
    ensures
        Value::List(items)@ == ValueModel::List(models(items@)),
{
    let left = Value::List(items)@;
    assert(left->List_0 =~= models(items@));
}

/// The result of running a parser on an input.
#[derive(Debug, PartialEq, Eq)]
pub enum Outcome<'a> {
    /// The parser matched: the input that is left, and what was produced.
    Success(&'a [u8], Value<'a>),
    /// The parser did not match here; a sibling may still be tried.
    Recoverable(ErrorContext<'a>),
    /// The buffered input ended before the parser could decide.
    Incomplete(Needed),
    /// The parser failed for good; no alternative may be tried.
    Fatal(ErrorContext<'a>),
}

/// The mathematical value of an [`Outcome`].
pub ghost enum OutcomeModel {
    Success(Seq<u8>, ValueModel),
    Recoverable(ErrorModel),
    Incomplete(Needed),
    Fatal(ErrorModel),
}

impl<'a> View for Outcome<'a> {
    type V = OutcomeModel;

    open spec fn view(&self) -> OutcomeModel {
        match self {
            Outcome::Success(rest, value) => OutcomeModel::Success(rest@, value@),
            Outcome::Recoverable(e) => OutcomeModel::Recoverable(e@),
            Outcome::Incomplete(n) => OutcomeModel::Incomplete(*n),
            Outcome::Fatal(e) => OutcomeModel::Fatal(e@),
        }
    }
}

} // verus!
