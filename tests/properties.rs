use rlex::{DefaultState, DefaultToken, Rlex, RlexError};

fn lexer(source: &str) -> Rlex<DefaultState, DefaultToken> {
    Rlex::new(source, DefaultState::Default).unwrap()
}

#[test]
fn empty_source_is_rejected() {
    let r: Result<Rlex<DefaultState, DefaultToken>, RlexError> = Rlex::new("", DefaultState::Default);
    assert_eq!(r.err(), Some(RlexError::EmptySource));
}

#[test]
fn non_empty_source_starts_at_zero() {
    let mut r = lexer("x");
    assert_eq!(r.pos(), 0);
    assert!(r.at_start());
    assert!(r.at_end());
    assert!(r.at_mark());
    let mut r = lexer("héllo");
    assert_eq!(r.pos(), 0);
    assert_eq!(r.char(), 'h');
}

#[test]
fn stepping_saturates_at_both_ends() {
    let mut r = lexer("abc");
    for _ in 0..10 {
        r.next();
    }
    assert_eq!(r.pos(), 2);
    r.next_by(usize::MAX);
    assert_eq!(r.pos(), 2);
    for _ in 0..10 {
        r.prev();
    }
    assert_eq!(r.pos(), 0);
    r.goto_end();
    r.prev_by(usize::MAX);
    assert_eq!(r.pos(), 0);
    r.prev_by(2);
    assert_eq!(r.pos(), 0);
}

#[test]
fn goto_pos_clamps() {
    let mut r = lexer("abc");
    r.goto_pos(1);
    assert_eq!(r.pos(), 1);
    r.goto_pos(99);
    assert_eq!(r.pos(), 2);
    r.goto_pos(0);
    assert_eq!(r.pos(), 0);
}

#[test]
fn peeks_leave_the_position() {
    let mut r = lexer("abcde");
    r.goto_pos(2);
    assert_eq!(r.peek(), 'd');
    assert_eq!(r.pos(), 2);
    assert_eq!(r.peek_by(9), 'e');
    assert_eq!(r.pos(), 2);
    assert_eq!(r.peek_back(), 'b');
    assert_eq!(r.pos(), 2);
    assert_eq!(r.peek_back_by(9), 'a');
    assert_eq!(r.pos(), 2);
    assert!(r.next_is('d'));
    assert!(r.prev_by_is('a', 2));
    assert_eq!(r.pos(), 2);
    assert_eq!(r.peek_bounded(2), Some('e'));
    assert_eq!(r.pos(), 2);
}

#[test]
fn bounded_peeks_give_nothing_past_the_edges() {
    let mut r = lexer("abc");
    assert_eq!(r.peek_bounded(0), Some('a'));
    assert_eq!(r.peek_bounded(2), Some('c'));
    assert_eq!(r.peek_bounded(3), None);
    assert_eq!(r.peek_back_bounded(1), None);
    r.goto_end();
    assert_eq!(r.peek_bounded(1), None);
    assert_eq!(r.peek(), 'c');
    assert_eq!(r.peek_back_bounded(2), Some('a'));
    assert_eq!(r.peek_back_bounded(3), None);
}

#[test]
fn mark_slice_in_either_order() {
    let mut r = lexer("abcd");
    r.goto_pos(1);
    r.mark();
    r.goto_pos(2);
    assert_eq!(r.str_from_mark(), "bc");
    r.mark();
    r.goto_pos(1);
    assert_eq!(r.str_from_mark(), "bc");
    r.goto_mark();
    assert_eq!(r.pos(), 2);
    assert!(r.at_mark());
}

#[test]
fn quote_states_with_escapes_and_mixed_kinds() {
    let mut r = lexer(r#"a\"b"#);
    r.goto_end();
    assert!(!r.is_in_quote());
    let mut r = lexer(r#""it's""#);
    r.goto_pos(3);
    assert!(r.is_in_quote());
    r.goto_end();
    assert!(r.is_in_quote());
    let mut r = lexer("x'y");
    r.goto_pos(0);
    assert!(!r.is_in_quote());
    r.goto_pos(1);
    assert!(r.is_in_quote());
}

#[test]
fn tokens_come_out_in_push_order() {
    let mut r = lexer("abc");
    assert_eq!(r.token_pop(), None);
    assert!(r.token_prev().is_none());
    r.token_push(DefaultToken::Default);
    r.token_push(DefaultToken::Default);
    assert_eq!(r.toks().len(), 2);
    assert_eq!(r.token_consume(), vec![DefaultToken::Default, DefaultToken::Default]);
}

#[test]
fn multibyte_ranges_are_exact() {
    let mut r = lexer("aé✓𝄞z");
    assert_eq!(r.str_from_rng(0, 0), "a");
    assert_eq!(r.str_from_rng(1, 1), "é");
    assert_eq!(r.str_from_rng(2, 3), "✓𝄞");
    assert_eq!(r.str_from_rng(4, 1), "é✓𝄞z");
    assert_eq!(r.str_from_rng(3, 50), "𝄞z");
    r.goto_pos(3);
    assert_eq!(r.char(), '𝄞');
    assert_eq!(r.str_from_start(), "aé✓𝄞");
    assert_eq!(r.str_from_end(), "𝄞z");
    r.mark();
    r.goto_pos(1);
    assert_eq!(r.str_from_mark(), "é✓𝄞");
    assert_eq!(r.str_from_mark().chars().count(), 3);
    assert_eq!(r.src(), "aé✓𝄞z");
}

#[test]
fn next_until_steps_first_and_reports_misses() {
    let mut r = lexer("aab");
    assert!(r.next_until('a'));
    assert_eq!(r.pos(), 1);
    assert!(!r.next_until('q'));
    assert_eq!(r.pos(), 2);
    assert!(r.prev_until('a'));
    assert_eq!(r.pos(), 1);
    assert!(r.prev_until('a'));
    assert_eq!(r.pos(), 0);
    assert!(!r.prev_until('q'));
    assert_eq!(r.pos(), 0);
    r.goto_end();
    assert!(r.next_until('b'));
    assert_eq!(r.pos(), 2);
}

#[test]
fn collection_is_independent_of_position() {
    let mut r = lexer("xé");
    assert_eq!(r.collect_pop(), None);
    r.next();
    r.collect();
    r.collect_push('!');
    assert_eq!(r.str_from_collection(), "é!");
    assert_eq!(r.pos(), 1);
    assert_eq!(r.collect_pop(), Some('!'));
    assert_eq!(r.str_from_collection(), "é");
}

#[test]
fn trace_lines_are_numbered_and_formatted() {
    let mut r = lexer("ab");
    r.trace_on();
    r.next();
    r.pos();
    r.char();
    r.at_end();
    r.next_by(3);
    r.goto_pos(12);
    r.peek_by(0);
    r.next_by_is('b', 1);
    r.collect_push('z');
    r.collect_pop();
    r.is_in_quote();
    r.state();
    let expected = "0:next()\n1:pos() -> 1\n2:char() -> b\n3:at_end() -> true\n4:next_by(3)\n\
5:goto_pos(12)\n6:peek_by(0) -> b\n7:next_by_is(b, 1)\n8:collect_push(z)\n\
9:collect_pop() -> Some('z')\n10:is_in_quote() -> false\n11:state() -> Default\n";
    assert_eq!(r.trace_emit(), expected);
}

#[test]
fn trace_off_stops_logging_and_clear_empties() {
    let mut r = lexer("ab");
    r.next();
    assert_eq!(r.trace_emit(), "");
    r.trace_on();
    r.prev();
    r.trace_off();
    r.next();
    assert_eq!(r.trace_emit(), "0:prev()\n");
    r.trace_clear();
    assert_eq!(r.trace_emit(), "");
    assert_eq!(r.pos(), 1);
}
