use ws_combinators::engine::{sep, trimmed, ws};
use ws_combinators::grammar::{Branch, Grammar};
use ws_combinators::outcome::{ErrorContext, ErrorKind, Mode, Needed, Outcome, Value};
use ws_combinators::separator::Separator;
use ws_combinators::token::{Constant, Token};

fn three_tags() -> Grammar {
    Grammar::permutation(vec![
        Grammar::tag(b"abcd"),
        Grammar::tag(b"efg"),
        Grammar::tag(b"hi"),
    ])
}

fn three_values<'a>() -> Value<'a> {
    Value::Tuple(vec![
        Value::Bytes(&b"abcd"[..]),
        Value::Bytes(&b"efg"[..]),
        Value::Bytes(&b"hi"[..]),
    ])
}

#[test]
fn leading_separator_changes_nothing_for_a_token() {
    let abc = Grammar::tag(b"abc");
    let alone = ws(&abc, Mode::Streaming, &b"abc def"[..]);
    assert_eq!(alone, Outcome::Success(&b"def"[..], Value::Bytes(&b"abc"[..])));
    assert_eq!(ws(&abc, Mode::Streaming, &b" abc def"[..]), alone);
    assert_eq!(ws(&abc, Mode::Streaming, &b"\r\n\t  abc def"[..]), alone);
}

#[test]
fn leading_separator_changes_nothing_for_a_repetition() {
    let many = Grammar::many0(Grammar::tag(b"ab"));
    let alone = ws(&many, Mode::Streaming, &b"X"[..]);
    assert_eq!(alone, Outcome::Success(&b"X"[..], Value::List(vec![])));
    assert_eq!(ws(&many, Mode::Streaming, &b"  \tX"[..]), alone);

    let some = ws(&many, Mode::Streaming, &b"ab abX"[..]);
    assert_eq!(
        some,
        Outcome::Success(
            &b"X"[..],
            Value::List(vec![Value::Bytes(&b"ab"[..]), Value::Bytes(&b"ab"[..])])
        )
    );
    assert_eq!(ws(&many, Mode::Streaming, &b" \n ab abX"[..]), some);
}

#[test]
fn leading_separator_changes_nothing_for_an_empty_sequence() {
    let empty = Grammar::tuple(vec![]);
    let alone = ws(&empty, Mode::Streaming, &b"x"[..]);
    assert_eq!(alone, Outcome::Success(&b"x"[..], Value::Tuple(vec![])));
    assert_eq!(ws(&empty, Mode::Streaming, &b"   x"[..]), alone);
}

#[test]
fn a_custom_separator_is_consumed_like_whitespace() {
    let dashes = Separator::new(vec![b'-', b'_']);
    let abc = Grammar::tag(b"abc");
    let alone = trimmed(&abc, &dashes, Mode::Streaming, &b"abc--def"[..]);
    assert_eq!(alone, Outcome::Success(&b"def"[..], Value::Bytes(&b"abc"[..])));
    assert_eq!(trimmed(&abc, &dashes, Mode::Streaming, &b"-_-abc--def"[..]), alone);
}

#[test]
fn a_failed_branch_leaves_the_input_to_the_next_branch() {
    // the first branch matches "a", skips the blank and fails at "c"
    let branches = Grammar::alt(vec![
        Grammar::pair(Grammar::tag(b"a"), Grammar::tag(b"b")),
        Grammar::pair(Grammar::tag(b"a"), Grammar::tag(b"c")),
    ]);
    assert_eq!(
        sep(&branches, &Separator::whitespace(), Mode::Streaming, &b" a c!"[..]),
        Outcome::Success(
            &b"!"[..],
            Value::Tuple(vec![Value::Bytes(&b"a"[..]), Value::Bytes(&b"c"[..])])
        )
    );
}

#[test]
fn a_failed_alternation_reports_where_it_started() {
    let branches = Grammar::alt(vec![
        Grammar::pair(Grammar::tag(b"a"), Grammar::tag(b"b")),
        Grammar::pair(Grammar::tag(b"a"), Grammar::tag(b"c")),
    ]);
    assert_eq!(
        sep(&branches, &Separator::whitespace(), Mode::Streaming, &b"  a d"[..]),
        Outcome::Recoverable(ErrorContext::leaf(&b"a d"[..], ErrorKind::Alt))
    );
}

#[test]
fn a_permutation_does_not_depend_on_the_order_of_its_tokens() {
    let perm = three_tags();
    let inputs: [&[u8]; 6] = [
        b"abcd efg hi!",
        b"abcd hi efg!",
        b"efg abcd hi!",
        b"efg hi abcd!",
        b"hi abcd efg!",
        b"hi efg abcd!",
    ];
    for input in inputs {
        assert_eq!(
            sep(&perm, &Separator::whitespace(), Mode::Streaming, input),
            Outcome::Success(&b"!"[..], three_values())
        );
    }
}

#[test]
fn a_permutation_does_not_depend_on_the_gaps_between_its_tokens() {
    let perm = three_tags();
    assert_eq!(
        sep(&perm, &Separator::whitespace(), Mode::Streaming, &b"hiefgabcd!"[..]),
        Outcome::Success(&b"!"[..], three_values())
    );
    assert_eq!(
        sep(&perm, &Separator::whitespace(), Mode::Streaming, &b"\t\thi\r\nefg   abcd !"[..]),
        Outcome::Success(&b" !"[..], three_values())
    );
}

#[test]
fn a_permutation_with_a_token_missing_fails_recoverably() {
    let perm = three_tags();
    assert_eq!(
        sep(&perm, &Separator::whitespace(), Mode::Complete, &b"efg abcd"[..]),
        Outcome::Recoverable(ErrorContext::node(
            &b"efg abcd"[..],
            ErrorKind::Permutation,
            ErrorContext::leaf(&b""[..], ErrorKind::Permutation)
        ))
    );
    assert_eq!(
        sep(&perm, &Separator::whitespace(), Mode::Streaming, &b" hi abcd xyz"[..]),
        Outcome::Recoverable(ErrorContext::node(
            &b"hi abcd xyz"[..],
            ErrorKind::Permutation,
            ErrorContext::leaf(&b" xyz"[..], ErrorKind::Permutation)
        ))
    );
}

#[test]
fn a_permutation_with_no_token_present_fails_recoverably() {
    let one = Grammar::permutation(vec![Grammar::tag(b"abcd")]);
    assert_eq!(
        sep(&one, &Separator::whitespace(), Mode::Streaming, &b"  xyz"[..]),
        Outcome::Recoverable(ErrorContext::node(
            &b"xyz"[..],
            ErrorKind::Permutation,
            ErrorContext::leaf(&b"xyz"[..], ErrorKind::Permutation)
        ))
    );
}

#[test]
fn an_incomplete_branch_hides_a_later_branch_that_would_match() {
    let branches = Grammar::alt(vec![Grammar::tag(b"abcd"), Grammar::tag(b"ab")]);
    assert_eq!(
        sep(&branches, &Separator::whitespace(), Mode::Streaming, &b" ab"[..]),
        Outcome::Incomplete(Needed::Size(4))
    );
}

#[test]
fn a_fatal_branch_hides_a_later_branch_that_would_match() {
    let stuck = Grammar::many0(Grammar::constant(Constant::Number(0)));
    let branches = Grammar::alt(vec![stuck, Grammar::tag(b"ab")]);
    assert_eq!(
        sep(&branches, &Separator::whitespace(), Mode::Streaming, &b" ab"[..]),
        Outcome::Fatal(ErrorContext::leaf(&b"ab"[..], ErrorKind::Many0))
    );
}

#[test]
fn the_complete_variant_passes_over_an_incomplete_branch() {
    let branches = Grammar::alt_complete(vec![
        Branch::plain(Grammar::tag(b"abcd")),
        Branch::plain(Grammar::tag(b"ab")),
    ]);
    assert_eq!(
        sep(&branches, &Separator::whitespace(), Mode::Streaming, &b" ab"[..]),
        Outcome::Success(&b""[..], Value::Bytes(&b"ab"[..]))
    );
}

#[test]
fn the_complete_variant_fails_recoverably_when_every_branch_is_incomplete() {
    let branches = Grammar::alt_complete(vec![
        Branch::plain(Grammar::tag(b"abcd")),
        Branch::plain(Grammar::tag(b"abc")),
    ]);
    assert_eq!(
        sep(&branches, &Separator::whitespace(), Mode::Streaming, &b" ab"[..]),
        Outcome::Recoverable(ErrorContext::leaf(&b"ab"[..], ErrorKind::Alt))
    );
}

#[test]
fn the_complete_variant_does_not_pass_over_a_fatal_branch() {
    let stuck = Grammar::many1(Grammar::constant(Constant::Flag(true)));
    let branches = Grammar::alt_complete(vec![
        Branch::plain(stuck),
        Branch::plain(Grammar::tag(b"ab")),
    ]);
    assert_eq!(
        sep(&branches, &Separator::whitespace(), Mode::Complete, &b"ab"[..]),
        Outcome::Fatal(ErrorContext::leaf(&b"ab"[..], ErrorKind::Many1))
    );
}

#[test]
fn a_repetition_rejects_an_element_that_matches_nothing() {
    let constant = Grammar::many0(Grammar::constant(Constant::Number(7)));
    assert_eq!(
        sep(&constant, &Separator::whitespace(), Mode::Complete, &b"abc"[..]),
        Outcome::Fatal(ErrorContext::leaf(&b"abc"[..], ErrorKind::Many0))
    );
    let at_least_one = Grammar::many1(Grammar::constant(Constant::Number(7)));
    assert_eq!(
        sep(&at_least_one, &Separator::whitespace(), Mode::Complete, &b"abc"[..]),
        Outcome::Fatal(ErrorContext::leaf(&b"abc"[..], ErrorKind::Many1))
    );
}

#[test]
fn a_repetition_rejects_an_optional_element_once_it_matches_nothing() {
    let optional = Grammar::many0(Grammar::opt(Token::Tag(b"ab".to_vec())));
    // "ab" matches; in the next round the blanks are skipped and the
    // element matches nothing: skipped blanks do not count as consumed
    assert_eq!(
        sep(&optional, &Separator::whitespace(), Mode::Complete, &b"ab  c"[..]),
        Outcome::Fatal(ErrorContext::leaf(&b"  c"[..], ErrorKind::Many0))
    );
}

#[test]
fn a_repetition_of_an_empty_sequence_is_rejected_on_empty_input() {
    let empty = Grammar::many0(Grammar::tuple(vec![]));
    assert_eq!(
        sep(&empty, &Separator::whitespace(), Mode::Complete, &b""[..]),
        Outcome::Fatal(ErrorContext::leaf(&b""[..], ErrorKind::Many0))
    );
}
