//! The grammar tree: which combinator wraps which sub-parsers.

use crate::token::{Constant, Token};
use vstd::prelude::*;
use vstd::slice::slice_to_vec;

verus! {

/// One step of a sequence.
#[derive(Debug)]
pub struct Step {
    /// The parser that runs at this step.
    pub parser: Grammar,
    /// Whether the step's output is part of the sequence's output.
    pub keep: bool,
}

/// One branch of an alternation.
#[derive(Debug)]
pub struct Branch {
    /// The parser that is tried.
    pub parser: Grammar,
    /// The constant that replaces the parser's output, if any.
    pub replace: Option<Constant>,
}

/// One case of a switch.
#[derive(Debug)]
pub struct Case {
    /// The bytes the selector's output must equal.
    pub pattern: Vec<u8>,
    /// The parser that runs after the selector when the pattern matches.
    pub parser: Grammar,
}

/// The selector and the cases of a switch.
#[derive(Debug)]
pub struct SwitchParts {
    /// The parser whose output picks the case.
    pub selector: Grammar,
    /// The cases, tried in declaration order.
    pub cases: Vec<Case>,
}

/// The two parsers of a separated list.
#[derive(Debug)]
pub struct ListParts {
    /// The parser that matches between two elements.
    pub delimiter: Grammar,
    /// The parser that matches one element.
    pub element: Grammar,
}

/// A grammar: a tree of combinators over primitive tokens.
#[derive(Debug)]
pub enum Grammar {
    /// A primitive parser.
    Token(Token),
    /// A sequence of steps. With `lead`, separators are skipped once before
    /// the first step, whatever that step is.
    Chain { lead: bool, steps: Vec<Step> },
    /// The first branch that matches wins. With `complete`, a branch that
    /// asks for more input is passed over like one that does not match.
    Alt { complete: bool, branches: Vec<Branch> },
    /// Every parser matches exactly once, in any order.
    Permutation(Vec<Grammar>),
    /// The selector's output picks the case that parses what follows.
    Switch(Box<SwitchParts>),
    /// The element, again and again, until it does not match.
    Many { at_least_one: bool, element: Box<Grammar> },
    /// Elements with a delimiter between each two of them.
    SeparatedList(Box<ListParts>),
    /// The parser, with no way back: where it does not match, the error is
    /// fatal, and no alternative is tried.
    Commit(Box<Grammar>),
}

/// The steps of a sequence that keeps every output.
pub open spec fn kept_steps(parsers: Seq<Grammar>) -> Seq<Step> {
    Seq::new(parsers.len(), |i: int| Step { parser: parsers[i], keep: true })
}

/// The branches of an alternation that replaces no output.
pub open spec fn plain_branches(parsers: Seq<Grammar>) -> Seq<Branch> {
    Seq::new(parsers.len(), |i: int| Branch { parser: parsers[i], replace: None })
}

impl Step {
    /// A step whose output is kept.
    pub fn kept(parser: Grammar) -> (s: Step)
        ensures
            s == (Step { parser, keep: true }),
    {
        Step { parser, keep: true }
    }

    /// A step whose output is dropped.
    pub fn dropped(parser: Grammar) -> (s: Step)
        ensures
            s == (Step { parser, keep: false }),
    {
        Step { parser, keep: false }
    }
}

impl Branch {
    /// A branch that returns its parser's output.
    pub fn plain(parser: Grammar) -> (b: Branch)
        ensures
            b == (Branch { parser, replace: None }),
    {
        Branch { parser, replace: None }
    }

    /// A branch that returns `constant` in place of its parser's output.
    pub fn mapped(parser: Grammar, constant: Constant) -> (b: Branch)
        ensures
            b == (Branch { parser, replace: Some(constant) }),
    {
        Branch { parser, replace: Some(constant) }
    }
}

impl Case {
    /// A case that runs `parser` when the selector produced `pattern`.
    pub fn new(pattern: Vec<u8>, parser: Grammar) -> (c: Case)
        ensures
            c == (Case { pattern, parser }),
    {
        Case { pattern, parser }
    }
}

/// The items of a vector in reverse order.
pub fn reversed<T>(items: Vec<T>) -> (r: Vec<T>)
    ensures
        r@.len() == items@.len(),
        forall|i: int| 0 <= i < r@.len() ==> r@[i] == items@[items@.len() - 1 - i],
{
    let mut left = items;
    let mut r: Vec<T> = Vec::new();
    while left.len() > 0
        invariant
            left@.len() + r@.len() == items@.len(),
            left@ == items@.take(left@.len() as int),
            forall|i: int| 0 <= i < r@.len() ==> r@[i] == items@[items@.len() - 1 - i],
        decreases left.len(),
    {
        match left.pop() {
            Some(item) => {
                r.push(item);
            },
            None => {},
        }
    }
    r
}

/// Steps that keep the output of every parser.
pub fn into_steps(parsers: Vec<Grammar>) -> (steps: Vec<Step>)
    ensures
        steps@ == kept_steps(parsers@),
{
    let mut left = reversed(parsers);
    let ghost turned = left@;
    let mut steps: Vec<Step> = Vec::new();
    while left.len() > 0
        invariant
            turned.len() == parsers@.len(),
            forall|i: int| 0 <= i < turned.len() ==> turned[i] == parsers@[parsers@.len() - 1 - i],
            left@.len() + steps@.len() == turned.len(),
            left@ == turned.take(left@.len() as int),
            forall|i: int|
                0 <= i < steps@.len() ==> steps@[i] == (Step { parser: parsers@[i], keep: true }),
        decreases left.len(),
    {
        match left.pop() {
            Some(parser) => {
                steps.push(Step::kept(parser));
            },
            None => {},
        }
    }
    assert(steps@ =~= kept_steps(parsers@));
    steps
}

/// Branches that return the output of their parsers.
pub fn into_branches(parsers: Vec<Grammar>) -> (branches: Vec<Branch>)
    ensures
        branches@ == plain_branches(parsers@),
{
    let mut left = reversed(parsers);
    let ghost turned = left@;
    let mut branches: Vec<Branch> = Vec::new();
    while left.len() > 0
        invariant
            turned.len() == parsers@.len(),
            forall|i: int| 0 <= i < turned.len() ==> turned[i] == parsers@[parsers@.len() - 1 - i],
            left@.len() + branches@.len() == turned.len(),
            left@ == turned.take(left@.len() as int),
            forall|i: int|
                0 <= i < branches@.len() ==> branches@[i] == (Branch {
                    parser: parsers@[i],
                    replace: None,
                }),
        decreases left.len(),
    {
        match left.pop() {
            Some(parser) => {
                branches.push(Branch::plain(parser));
            },
            None => {},
        }
    }
    assert(branches@ =~= plain_branches(parsers@));
    branches
}

impl Grammar {
    /// The parser that matches exactly `bytes`.
    pub fn tag(bytes: &[u8]) -> (g: Grammar)
        ensures
            g matches Grammar::Token(Token::Tag(held)) && held@ == bytes@,
    {
        Grammar::Token(Token::Tag(slice_to_vec(bytes)))
    }

    /// The parser that takes `count` bytes.
    pub fn take(count: usize) -> (g: Grammar)
        ensures
            g == Grammar::Token(Token::Take(count)),
    {
        Grammar::Token(Token::Take(count))
    }

    /// The parser that takes all the input that is left.
    pub fn rest() -> (g: Grammar)
        ensures
            g == Grammar::Token(Token::Rest),
    {
        Grammar::Token(Token::Rest)
    }

    /// The parser that never matches and reports `code`.
    pub fn fail(code: u32) -> (g: Grammar)
        ensures
            g == Grammar::Token(Token::Fail(code)),
    {
        Grammar::Token(Token::Fail(code))
    }

    /// The parser that consumes nothing and produces `constant`.
    pub fn constant(constant: Constant) -> (g: Grammar)
        ensures
            g == Grammar::Token(Token::Constant(constant)),
    {
        Grammar::Token(Token::Constant(constant))
    }

    /// The parser that tries `token` and succeeds without it where it does
    /// not match.
    pub fn opt(token: Token) -> (g: Grammar)
        ensures
            g == Grammar::Token(Token::Opt(Box::new(token))),
    {
        Grammar::Token(Token::Opt(Box::new(token)))
    }

    /// The parsers one after the other; the output is the tuple of their
    /// outputs, or the output itself where there is one parser.
    pub fn tuple(parsers: Vec<Grammar>) -> (g: Grammar)
        ensures
            g matches Grammar::Chain { lead, steps } && !lead && steps@ == kept_steps(parsers@),
    {
        Grammar::Chain { lead: false, steps: into_steps(parsers) }
    }

    /// Two parsers one after the other; the output is the pair of their
    /// outputs.
    pub fn pair(first: Grammar, second: Grammar) -> (g: Grammar)
        ensures
            g matches Grammar::Chain { lead, steps } && lead && steps@ == seq![
                Step { parser: first, keep: true },
                Step { parser: second, keep: true },
            ],
    {
        let mut steps: Vec<Step> = Vec::new();
        steps.push(Step::kept(first));
        steps.push(Step::kept(second));
        Grammar::Chain { lead: true, steps }
    }

    /// Three parsers one after the other; the output is that of the one in
    /// the middle.
    pub fn delimited(open: Grammar, inner: Grammar, close: Grammar) -> (g: Grammar)
        ensures
            g matches Grammar::Chain { lead, steps } && lead && steps@ == seq![
                Step { parser: open, keep: false },
                Step { parser: inner, keep: true },
                Step { parser: close, keep: false },
            ],
    {
        let mut steps: Vec<Step> = Vec::new();
        steps.push(Step::dropped(open));
        steps.push(Step::kept(inner));
        steps.push(Step::dropped(close));
        Grammar::Chain { lead: true, steps }
    }

    /// Three parsers one after the other; the output is the pair of the
    /// outputs of the first and the last.
    pub fn separated_pair(first: Grammar, middle: Grammar, second: Grammar) -> (g: Grammar)
        ensures
            g matches Grammar::Chain { lead, steps } && lead && steps@ == seq![
                Step { parser: first, keep: true },
                Step { parser: middle, keep: false },
                Step { parser: second, keep: true },
            ],
    {
        let mut steps: Vec<Step> = Vec::new();
        steps.push(Step::kept(first));
        steps.push(Step::dropped(middle));
        steps.push(Step::kept(second));
        Grammar::Chain { lead: true, steps }
    }

    /// Two parsers one after the other; the output is that of the second.
    pub fn preceded(first: Grammar, second: Grammar) -> (g: Grammar)
        ensures
            g matches Grammar::Chain { lead, steps } && lead && steps@ == seq![
                Step { parser: first, keep: false },
                Step { parser: second, keep: true },
            ],
    {
        let mut steps: Vec<Step> = Vec::new();
        steps.push(Step::dropped(first));
        steps.push(Step::kept(second));
        Grammar::Chain { lead: true, steps }
    }

    /// Two parsers one after the other; the output is that of the first.
    pub fn terminated(first: Grammar, second: Grammar) -> (g: Grammar)
        ensures
            g matches Grammar::Chain { lead, steps } && lead && steps@ == seq![
                Step { parser: first, keep: true },
                Step { parser: second, keep: false },
            ],
    {
        let mut steps: Vec<Step> = Vec::new();
        steps.push(Step::kept(first));
        steps.push(Step::dropped(second));
        Grammar::Chain { lead: true, steps }
    }

    /// A chain of steps of which some bind their output; the output is made
    /// of the bound outputs, in declaration order.
    pub fn do_parse(steps: Vec<Step>) -> (g: Grammar)
        ensures
            g == (Grammar::Chain { lead: true, steps }),
    {
        Grammar::Chain { lead: true, steps }
    }

    /// The first of the parsers that matches, for a stream.
    pub fn alt(parsers: Vec<Grammar>) -> (g: Grammar)
        ensures
            g matches Grammar::Alt { complete, branches } && !complete && branches@
                == plain_branches(parsers@),
    {
        Grammar::Alt { complete: false, branches: into_branches(parsers) }
    }

    /// The first of the branches that matches, for a stream.
    pub fn alt_mapped(branches: Vec<Branch>) -> (g: Grammar)
        ensures
            g == (Grammar::Alt { complete: false, branches }),
    {
        Grammar::Alt { complete: false, branches }
    }

    /// The first of the branches that matches, for an input that is all
    /// there: a branch that asks for more input is passed over.
    pub fn alt_complete(branches: Vec<Branch>) -> (g: Grammar)
        ensures
            g == (Grammar::Alt { complete: true, branches }),
    {
        Grammar::Alt { complete: true, branches }
    }

    /// Every parser exactly once, in any order.
    pub fn permutation(parsers: Vec<Grammar>) -> (g: Grammar)
        ensures
            g == Grammar::Permutation(parsers),
    {
        Grammar::Permutation(parsers)
    }

    /// The selector, then the first case whose pattern equals its output.
    pub fn switch(selector: Grammar, cases: Vec<Case>) -> (g: Grammar)
        ensures
            g == Grammar::Switch(Box::new(SwitchParts { selector, cases })),
    {
        Grammar::Switch(Box::new(SwitchParts { selector, cases }))
    }

    /// The element, as often as it matches.
    pub fn many0(element: Grammar) -> (g: Grammar)
        ensures
            g == (Grammar::Many { at_least_one: false, element: Box::new(element) }),
    {
        Grammar::Many { at_least_one: false, element: Box::new(element) }
    }

    /// The element, as often as it matches, and once at least.
    pub fn many1(element: Grammar) -> (g: Grammar)
        ensures
            g == (Grammar::Many { at_least_one: true, element: Box::new(element) }),
    {
        Grammar::Many { at_least_one: true, element: Box::new(element) }
    }

    /// The parser, committed: a mismatch becomes a fatal error.
    pub fn return_error(parser: Grammar) -> (g: Grammar)
        ensures
            g == Grammar::Commit(Box::new(parser)),
    {
        Grammar::Commit(Box::new(parser))
    }

    /// Elements with `delimiter` between each two of them.
    pub fn separated_list(delimiter: Grammar, element: Grammar) -> (g: Grammar)
        ensures
            g == Grammar::SeparatedList(Box::new(ListParts { delimiter, element })),
    {
        Grammar::SeparatedList(Box::new(ListParts { delimiter, element }))
    }
}

} // verus!
