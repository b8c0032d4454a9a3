use ws_combinators::engine::{bytes_equal, sep, trimmed, wrap_sep, ws};
use ws_combinators::grammar::{Case, Grammar, Step};
use ws_combinators::outcome::{ErrorContext, ErrorKind, Mode, Needed, Outcome, Value};
use ws_combinators::separator::{eat_separator, skip_separator, sp, split_separator, Separator};
use ws_combinators::token::{run_token, Constant, Token};

fn white() -> Separator {
    Separator::whitespace()
}

#[test]
fn whitespace_is_space_tab_carriage_return_and_line_feed() {
    let s = white();
    for b in 0..=255u8 {
        let expected = b == b' ' || b == b'\t' || b == b'\r' || b == b'\n';
        assert_eq!(s.contains(b), expected);
        assert_eq!(s.stops(b), !expected);
    }
}

#[test]
fn sp_without_leading_whitespace_takes_nothing() {
    assert_eq!(sp(&b"abc "[..]), Outcome::Success(&b"abc "[..], Value::Bytes(&b""[..])));
}

#[test]
fn the_separator_never_fails() {
    assert_eq!(
        sp(&b" \t\r\n"[..]),
        Outcome::Success(&b""[..], Value::Bytes(&b" \t\r\n"[..]))
    );
    assert_eq!(sp(&b""[..]), Outcome::Success(&b""[..], Value::Bytes(&b""[..])));
    assert_eq!(
        eat_separator(&b"   "[..], &white()),
        Outcome::Success(&b""[..], Value::Bytes(&b"   "[..]))
    );
}

#[test]
fn the_input_is_split_at_the_first_byte_that_is_no_separator() {
    assert_eq!(
        eat_separator(&b"\n\n x y"[..], &white()),
        Outcome::Success(&b"x y"[..], Value::Bytes(&b"\n\n "[..]))
    );
    assert_eq!(split_separator(&b"\n\n x y"[..], &white()), (&b"x y"[..], &b"\n\n "[..]));
    assert_eq!(skip_separator(&b"\n\n x y"[..], &white()), &b"x y"[..]);
    assert_eq!(skip_separator(&b"x y"[..], &white()), &b"x y"[..]);
}

#[test]
fn a_separator_of_spaces_and_tabs_stops_at_a_line_end() {
    let blanks = Separator::new(vec![b' ', b'\t']);
    assert_eq!(
        eat_separator(&b" \t\nabc"[..], &blanks),
        Outcome::Success(&b"\nabc"[..], Value::Bytes(&b" \t"[..]))
    );
    let pair = Grammar::tuple(vec![Grammar::take(3), Grammar::tag(b"de")]);
    assert_eq!(
        trimmed(&pair, &blanks, Mode::Streaming, &b" \t abc de fg"[..]),
        Outcome::Success(
            &b"fg"[..],
            Value::Tuple(vec![Value::Bytes(&b"abc"[..]), Value::Bytes(&b"de"[..])])
        )
    );
    assert_eq!(
        trimmed(&pair, &blanks, Mode::Streaming, &b"abc\nde fg"[..]),
        Outcome::Recoverable(ErrorContext::leaf(&b"\nde fg"[..], ErrorKind::Tag))
    );
}

#[test]
fn an_empty_separator_skips_nothing() {
    let none = Separator::new(Vec::new());
    assert_eq!(
        eat_separator(&b" abc"[..], &none),
        Outcome::Success(&b" abc"[..], Value::Bytes(&b""[..]))
    );
    assert_eq!(
        sep(&Grammar::tag(b"abc"), &none, Mode::Streaming, &b" abc"[..]),
        Outcome::Recoverable(ErrorContext::leaf(&b" abc"[..], ErrorKind::Tag))
    );
}

#[test]
fn a_tag_matches_mismatches_or_asks_for_its_length() {
    let t = Token::Tag(b"abcd".to_vec());
    assert_eq!(
        run_token(&t, Mode::Streaming, &b"abcdef"[..]),
        Outcome::Success(&b"ef"[..], Value::Bytes(&b"abcd"[..]))
    );
    assert_eq!(
        run_token(&t, Mode::Streaming, &b"abxdef"[..]),
        Outcome::Recoverable(ErrorContext::leaf(&b"abxdef"[..], ErrorKind::Tag))
    );
    assert_eq!(
        run_token(&t, Mode::Streaming, &b"ax"[..]),
        Outcome::Recoverable(ErrorContext::leaf(&b"ax"[..], ErrorKind::Tag))
    );
    assert_eq!(run_token(&t, Mode::Streaming, &b"ab"[..]), Outcome::Incomplete(Needed::Size(4)));
    assert_eq!(run_token(&t, Mode::Streaming, &b""[..]), Outcome::Incomplete(Needed::Size(4)));
    assert_eq!(
        run_token(&t, Mode::Complete, &b"ab"[..]),
        Outcome::Recoverable(ErrorContext::leaf(&b"ab"[..], ErrorKind::Eof))
    );
}

#[test]
fn take_returns_its_count_or_asks_for_it() {
    let t = Token::Take(3);
    assert_eq!(
        run_token(&t, Mode::Streaming, &b"abcd"[..]),
        Outcome::Success(&b"d"[..], Value::Bytes(&b"abc"[..]))
    );
    assert_eq!(
        run_token(&t, Mode::Streaming, &b"abc"[..]),
        Outcome::Success(&b""[..], Value::Bytes(&b"abc"[..]))
    );
    assert_eq!(run_token(&t, Mode::Streaming, &b"ab"[..]), Outcome::Incomplete(Needed::Size(3)));
    assert_eq!(
        run_token(&t, Mode::Complete, &b"ab"[..]),
        Outcome::Recoverable(ErrorContext::leaf(&b"ab"[..], ErrorKind::Eof))
    );
    assert_eq!(
        run_token(&Token::Take(0), Mode::Streaming, &b""[..]),
        Outcome::Success(&b""[..], Value::Bytes(&b""[..]))
    );
}

#[test]
fn the_other_tokens() {
    assert_eq!(
        run_token(&Token::Rest, Mode::Streaming, &b"abc"[..]),
        Outcome::Success(&b""[..], Value::Bytes(&b"abc"[..]))
    );
    assert_eq!(
        run_token(&Token::Fail(42), Mode::Streaming, &b"abc"[..]),
        Outcome::Recoverable(ErrorContext::leaf(&b"abc"[..], ErrorKind::Custom(42)))
    );
    assert_eq!(
        run_token(&Token::Constant(Constant::Flag(true)), Mode::Streaming, &b"abc"[..]),
        Outcome::Success(&b"abc"[..], Value::Flag(true))
    );
    let maybe = Token::Opt(Box::new(Token::Tag(b"ab".to_vec())));
    assert_eq!(
        run_token(&maybe, Mode::Streaming, &b"abc"[..]),
        Outcome::Success(&b"c"[..], Value::Present(Box::new(Value::Bytes(&b"ab"[..]))))
    );
    assert_eq!(
        run_token(&maybe, Mode::Streaming, &b"xbc"[..]),
        Outcome::Success(&b"xbc"[..], Value::Absent)
    );
    assert_eq!(run_token(&maybe, Mode::Streaming, &b"a"[..]), Outcome::Incomplete(Needed::Size(2)));
}

#[test]
fn wrapping_skips_the_separator_first() {
    let inner = Grammar::tuple(vec![]);
    assert_eq!(
        wrap_sep(&inner, &white(), Mode::Streaming, &b"  x"[..]),
        Outcome::Success(&b"x"[..], Value::Tuple(vec![]))
    );
    assert_eq!(
        wrap_sep(&inner, &white(), Mode::Streaming, &b"  "[..]),
        Outcome::Success(&b""[..], Value::Tuple(vec![]))
    );
}

#[test]
fn an_empty_sequence_consumes_nothing() {
    assert_eq!(
        sep(&Grammar::tuple(vec![]), &white(), Mode::Streaming, &b"  x"[..]),
        Outcome::Success(&b"  x"[..], Value::Tuple(vec![]))
    );
}

#[test]
fn a_sequence_of_one_returns_the_output_itself() {
    assert_eq!(
        sep(&Grammar::tuple(vec![Grammar::take(2)]), &white(), Mode::Streaming, &b" abc"[..]),
        Outcome::Success(&b"c"[..], Value::Bytes(&b"ab"[..]))
    );
}

#[test]
fn a_sequence_stops_at_the_first_step_that_fails() {
    let three = Grammar::tuple(vec![Grammar::tag(b"a"), Grammar::tag(b"b"), Grammar::tag(b"c")]);
    assert_eq!(
        sep(&three, &white(), Mode::Streaming, &b"a x c"[..]),
        Outcome::Recoverable(ErrorContext::leaf(&b"x c"[..], ErrorKind::Tag))
    );
    assert_eq!(sep(&three, &white(), Mode::Streaming, &b"a b "[..]), Outcome::Incomplete(Needed::Size(1)));
}

#[test]
fn delimited_keeps_the_middle() {
    let parens = Grammar::delimited(Grammar::tag(b"("), Grammar::take(2), Grammar::tag(b")"));
    assert_eq!(
        ws(&parens, Mode::Streaming, &b" ( ab ) x"[..]),
        Outcome::Success(&b"x"[..], Value::Bytes(&b"ab"[..]))
    );
}

#[test]
fn separated_pair_drops_the_middle() {
    let entry = Grammar::separated_pair(Grammar::take(1), Grammar::tag(b":"), Grammar::take(1));
    assert_eq!(
        ws(&entry, Mode::Streaming, &b"a : b;"[..]),
        Outcome::Success(
            &b";"[..],
            Value::Tuple(vec![Value::Bytes(&b"a"[..]), Value::Bytes(&b"b"[..])])
        )
    );
}

#[test]
fn a_chain_that_binds_nothing_returns_the_empty_tuple() {
    let chain = Grammar::do_parse(vec![
        Step::dropped(Grammar::tag(b"a")),
        Step::dropped(Grammar::tag(b"b")),
    ]);
    assert_eq!(
        ws(&chain, Mode::Streaming, &b" a b c"[..]),
        Outcome::Success(&b"c"[..], Value::Tuple(vec![]))
    );
}

#[test]
fn a_repetition_collects_in_match_order() {
    let many = Grammar::many0(Grammar::take(1));
    assert_eq!(
        sep(&many, &white(), Mode::Complete, &b" b a c "[..]),
        Outcome::Success(
            &b" "[..],
            Value::List(vec![
                Value::Bytes(&b"b"[..]),
                Value::Bytes(&b"a"[..]),
                Value::Bytes(&b"c"[..]),
            ])
        )
    );
}

#[test]
fn a_repetition_that_matches_nothing_leaves_the_separator() {
    let many = Grammar::many0(Grammar::tag(b"ab"));
    assert_eq!(
        sep(&many, &white(), Mode::Streaming, &b"  X"[..]),
        Outcome::Success(&b"  X"[..], Value::List(vec![]))
    );
}

#[test]
fn a_repetition_hands_on_a_request_for_more_input() {
    let many = Grammar::many0(Grammar::tag(b"ab"));
    assert_eq!(sep(&many, &white(), Mode::Streaming, &b"ab a"[..]), Outcome::Incomplete(Needed::Size(2)));
    assert_eq!(sep(&many, &white(), Mode::Streaming, &b"ab "[..]), Outcome::Incomplete(Needed::Size(2)));
}

#[test]
fn many1_needs_one_element() {
    let many = Grammar::many1(Grammar::tag(b"ab"));
    assert_eq!(
        sep(&many, &white(), Mode::Streaming, &b" X"[..]),
        Outcome::Recoverable(ErrorContext::leaf(&b" X"[..], ErrorKind::Many1))
    );
    assert_eq!(
        sep(&many, &white(), Mode::Streaming, &b" ab X"[..]),
        Outcome::Success(&b" X"[..], Value::List(vec![Value::Bytes(&b"ab"[..])]))
    );
}

#[test]
fn a_separated_list_alternates_elements_and_delimiters() {
    let list = Grammar::separated_list(Grammar::tag(b","), Grammar::tag(b"ab"));
    assert_eq!(
        ws(&list, Mode::Streaming, &b"ab , ab,ab ;"[..]),
        Outcome::Success(
            &b";"[..],
            Value::List(vec![
                Value::Bytes(&b"ab"[..]),
                Value::Bytes(&b"ab"[..]),
                Value::Bytes(&b"ab"[..]),
            ])
        )
    );
}

#[test]
fn a_separated_list_stops_before_a_delimiter_that_no_element_follows() {
    let list = Grammar::separated_list(Grammar::tag(b","), Grammar::tag(b"ab"));
    assert_eq!(
        sep(&list, &white(), Mode::Streaming, &b"ab, cd"[..]),
        Outcome::Success(&b", cd"[..], Value::List(vec![Value::Bytes(&b"ab"[..])]))
    );
}

#[test]
fn a_separated_list_needs_one_element() {
    let list = Grammar::separated_list(Grammar::tag(b","), Grammar::tag(b"ab"));
    assert_eq!(
        sep(&list, &white(), Mode::Streaming, &b" cd"[..]),
        Outcome::Recoverable(ErrorContext::leaf(&b"cd"[..], ErrorKind::SeparatedList))
    );
}

#[test]
fn a_separated_list_rejects_an_element_that_matches_nothing() {
    let first = Grammar::separated_list(Grammar::tag(b","), Grammar::take(0));
    assert_eq!(
        sep(&first, &white(), Mode::Streaming, &b" cd"[..]),
        Outcome::Fatal(ErrorContext::leaf(&b"cd"[..], ErrorKind::SeparatedList))
    );
    let later = Grammar::separated_list(
        Grammar::tag(b","),
        Grammar::opt(Token::Tag(b"ab".to_vec())),
    );
    assert_eq!(
        sep(&later, &white(), Mode::Streaming, &b"ab,cd"[..]),
        Outcome::Fatal(ErrorContext::leaf(&b"cd"[..], ErrorKind::SeparatedList))
    );
    // blanks that are skipped before the element do not count as consumed
    assert_eq!(
        sep(&later, &white(), Mode::Streaming, &b"ab, cd"[..]),
        Outcome::Fatal(ErrorContext::leaf(&b" cd"[..], ErrorKind::SeparatedList))
    );
}

#[test]
fn a_separated_list_stops_at_a_delimiter_that_matches_nothing() {
    let list = Grammar::separated_list(Grammar::take(0), Grammar::tag(b"ab"));
    assert_eq!(
        sep(&list, &white(), Mode::Streaming, &b"abab"[..]),
        Outcome::Success(&b"ab"[..], Value::List(vec![Value::Bytes(&b"ab"[..])]))
    );
}

#[test]
fn a_switch_takes_the_first_case_that_matches() {
    let sw = Grammar::switch(
        Grammar::take(2),
        vec![
            Case::new(b"ab".to_vec(), Grammar::take(1)),
            Case::new(b"ab".to_vec(), Grammar::take(2)),
        ],
    );
    assert_eq!(
        sep(&sw, &white(), Mode::Streaming, &b"ab xyz"[..]),
        Outcome::Success(&b"yz"[..], Value::Bytes(&b"x"[..]))
    );
}

#[test]
fn a_switch_keeps_the_error_of_its_selector_as_the_cause() {
    let sw = Grammar::switch(
        Grammar::tag(b"abcd"),
        vec![Case::new(b"abcd".to_vec(), Grammar::take(2))],
    );
    assert_eq!(
        sep(&sw, &white(), Mode::Streaming, &b" abxd"[..]),
        Outcome::Recoverable(ErrorContext::node(
            &b"abxd"[..],
            ErrorKind::Switch,
            ErrorContext::leaf(&b"abxd"[..], ErrorKind::Tag)
        ))
    );
    assert_eq!(sep(&sw, &white(), Mode::Streaming, &b" ab"[..]), Outcome::Incomplete(Needed::Size(4)));
}

#[test]
fn a_switch_keeps_the_error_of_its_case_as_the_cause() {
    let sw = Grammar::switch(
        Grammar::take(4),
        vec![Case::new(b"abcd".to_vec(), Grammar::tag(b"ef"))],
    );
    assert_eq!(
        sep(&sw, &white(), Mode::Complete, &b"abcd x"[..]),
        Outcome::Recoverable(ErrorContext::node(
            &b"abcd x"[..],
            ErrorKind::Switch,
            ErrorContext::leaf(&b"x"[..], ErrorKind::Tag)
        ))
    );
    assert_eq!(sep(&sw, &white(), Mode::Streaming, &b"abcd e"[..]), Outcome::Incomplete(Needed::Size(2)));
}

#[test]
fn a_switch_keeps_a_fatal_error_fatal() {
    let stuck = Grammar::many0(Grammar::constant(Constant::Number(0)));
    let sw = Grammar::switch(Grammar::take(4), vec![Case::new(b"abcd".to_vec(), stuck)]);
    // the repetition skips the blank, and its element consumes nothing
    assert_eq!(
        sep(&sw, &white(), Mode::Complete, &b"abcd x"[..]),
        Outcome::Fatal(ErrorContext::node(
            &b"abcd x"[..],
            ErrorKind::Switch,
            ErrorContext::leaf(&b" x"[..], ErrorKind::Many0)
        ))
    );
}

#[test]
fn a_switch_on_an_output_that_is_no_byte_string_matches_no_case() {
    let sw = Grammar::switch(
        Grammar::constant(Constant::Number(1)),
        vec![Case::new(Vec::new(), Grammar::take(1))],
    );
    assert_eq!(
        sep(&sw, &white(), Mode::Streaming, &b" x"[..]),
        Outcome::Recoverable(ErrorContext::leaf(&b"x"[..], ErrorKind::Switch))
    );
}

#[test]
fn trailing_separators_are_skipped_to_the_end_of_the_input() {
    assert_eq!(
        ws(&Grammar::tag(b"ab"), Mode::Streaming, &b"ab  "[..]),
        Outcome::Success(&b""[..], Value::Bytes(&b"ab"[..]))
    );
    assert_eq!(
        ws(&Grammar::tag(b"ab"), Mode::Complete, &b"ab  "[..]),
        Outcome::Success(&b""[..], Value::Bytes(&b"ab"[..]))
    );
}

#[test]
fn byte_strings_compare_by_content() {
    assert!(bytes_equal(b"", b""));
    assert!(bytes_equal(b"abc", b"abc"));
    assert!(!bytes_equal(b"abc", b"abd"));
    assert!(!bytes_equal(b"abc", b"ab"));
    assert!(!bytes_equal(b"ab", b"abc"));
}

#[test]
fn a_committed_parser_fails_for_good() {
    let committed = Grammar::return_error(Grammar::tag(b"ab"));
    assert_eq!(
        sep(&committed, &white(), Mode::Streaming, &b" xy"[..]),
        Outcome::Fatal(ErrorContext::leaf(&b"xy"[..], ErrorKind::Tag))
    );
    assert_eq!(
        sep(&committed, &white(), Mode::Streaming, &b" abc"[..]),
        Outcome::Success(&b"c"[..], Value::Bytes(&b"ab"[..]))
    );
    assert_eq!(
        sep(&committed, &white(), Mode::Streaming, &b" a"[..]),
        Outcome::Incomplete(Needed::Size(2))
    );
}

#[test]
fn a_committed_branch_lets_no_later_branch_run() {
    let branches = Grammar::alt(vec![
        Grammar::return_error(Grammar::tag(b"ab")),
        Grammar::tag(b"xy"),
    ]);
    assert_eq!(
        sep(&branches, &white(), Mode::Streaming, &b" xy"[..]),
        Outcome::Fatal(ErrorContext::leaf(&b"xy"[..], ErrorKind::Tag))
    );
    let free = Grammar::alt(vec![Grammar::tag(b"ab"), Grammar::tag(b"xy")]);
    assert_eq!(
        sep(&free, &white(), Mode::Streaming, &b" xy"[..]),
        Outcome::Success(&b""[..], Value::Bytes(&b"xy"[..]))
    );
}

#[test]
fn a_fatal_error_ends_a_sequence_a_permutation_and_a_repetition() {
    let bad = || Grammar::return_error(Grammar::tag(b"ab"));
    let fatal = || Outcome::Fatal(ErrorContext::leaf(&b"xy"[..], ErrorKind::Tag));
    let chain = Grammar::tuple(vec![Grammar::tag(b"x"), bad()]);
    assert_eq!(sep(&chain, &white(), Mode::Streaming, &b"x xy"[..]), fatal());
    let perm = Grammar::permutation(vec![bad(), Grammar::tag(b"xy")]);
    assert_eq!(sep(&perm, &white(), Mode::Streaming, &b" xy"[..]), fatal());
    let many = Grammar::many0(bad());
    assert_eq!(sep(&many, &white(), Mode::Streaming, &b"ab xy"[..]), fatal());
}
