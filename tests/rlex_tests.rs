use rlex::{DefaultState, DefaultToken, Rlex, RlexError};

#[derive(Debug, PartialEq, Eq)]
enum State {
    Init,
    Open,
    Closed,
}

#[derive(Debug, PartialEq, Eq, Clone, Copy)]
enum Token {
    Tok1,
    Tok2,
    Tok3,
}

fn lexer(source: &str) -> Rlex<State, Token> {
    Rlex::new(source, State::Init).unwrap()
}

#[test]
fn test_trace() {
    let mut r: Rlex<State, Token> = lexer("abcd");
    r.token_push(Token::Tok1);
    r.trace_on();
    r.toks();
    assert!(r.trace_emit() == "0:toks() -> [Tok1]\n");
    r.trace_clear();
    r.src();
    assert!(r.trace_emit() == "0:src()\n");
    r.trace_clear();
    r.token_push(Token::Tok1);
    assert!(r.trace_emit() == "0:token_push(Tok1)\n");
}

#[test]
fn test_src() {
    let mut r: Rlex<State, Token> = lexer("abcd");
    assert!(r.src() == "abcd");
}

#[test]
fn test_tokens() {
    let mut r: Rlex<State, Token> = lexer("abcd");
    r.token_push(Token::Tok1);
    assert!(r.token_prev().unwrap() == &Token::Tok1);
    assert!(r.token_pop().unwrap() == Token::Tok1);
    assert!(r.token_prev() == None);
    r.token_push(Token::Tok1);
    r.token_push(Token::Tok2);
    assert!(r.token_consume() == vec![Token::Tok1, Token::Tok2]);
}

#[test]
fn test_rlex_next_and_prev() {
    let mut r: Rlex<State, Token> = lexer("abcd");
    assert_eq!(r.char(), 'a');
    r.next();
    assert_eq!(r.char(), 'b');
    r.next();
    assert_eq!(r.char(), 'c');
    r.next();
    assert_eq!(r.char(), 'd');
    r.next();
    assert_eq!(r.char(), 'd');
    r.next();
    assert_eq!(r.char(), 'd');
    r.prev();
    assert_eq!(r.char(), 'c');
    r.prev();
    assert_eq!(r.char(), 'b');
    r.prev();
    assert_eq!(r.char(), 'a');
    r.prev();
    assert_eq!(r.char(), 'a');
    r.prev();
    assert_eq!(r.char(), 'a');
}

#[test]
fn test_rlex_at_start_and_at_end() {
    let mut r: Rlex<State, Token> = lexer("abcd");
    while !r.at_end() {
        r.next();
    }
    assert!(r.at_end());
    while !r.at_start() {
        r.prev();
    }
    assert!(r.at_start());
}

#[test]
fn test_rlex_next_by() {
    let mut r: Rlex<State, Token> = lexer("abcd");
    r.next_by(0);
    assert!(r.char() == 'a');
    r.next_by(1);
    assert!(r.char() == 'b');
    r.goto_start();
    r.next_by(2);
    assert!(r.char() == 'c');
    r.goto_start();
    r.next_by(3);
    assert!(r.char() == 'd');
    r.goto_start();
    r.next_by(4);
    assert!(r.char() == 'd');
}

#[test]
fn test_rlex_peek() {
    let mut r: Rlex<State, Token> = lexer("abcd");
    assert!(r.peek() == 'b');
    r.goto_end();
    assert!(r.peek() == 'd');
}

#[test]
fn test_rlex_peek_by() {
    let mut r: Rlex<State, Token> = lexer("abcd");
    assert!(r.peek_by(0) == 'a');
    assert!(r.peek_by(1) == 'b');
    assert!(r.peek_by(2) == 'c');
    assert!(r.peek_by(3) == 'd');
    assert!(r.peek_by(4) == 'd');
}

#[test]
fn test_rlex_peek_back() {
    let mut r: Rlex<State, Token> = lexer("abcd");
    r.goto_end();
    assert!(r.peek_back() == 'c');
    r.goto_start();
    assert!(r.peek_back() == 'a');
}

#[test]
fn test_rlex_peek_back_by() {
    let mut r: Rlex<State, Token> = lexer("abcd");
    r.goto_end();
    assert!(r.peek_back_by(0) == 'd');
    assert!(r.peek_back_by(1) == 'c');
    assert!(r.peek_back_by(2) == 'b');
    assert!(r.peek_back_by(3) == 'a');
    assert!(r.peek_back_by(4) == 'a');
}

#[test]
fn test_rlex_str_from() {
    let mut r: Rlex<State, Token> = lexer("abcd");
    r.next();
    assert!(r.str_from_start() == "ab");
    r.goto_end();
    assert!(r.str_from_start() == "abcd");
    r.prev();
    r.mark();
    r.next();
    assert!(r.str_from_mark() == "cd");
    r.goto_start();
    assert!(r.str_from_end() == "abcd");
    r.next();
    assert!(r.str_from_end() == "bcd");
    r.next();
    assert!(r.str_from_end() == "cd");
    r.next();
    assert!(r.str_from_end() == "d");
    assert!(r.str_from_rng(0, 0) == "a");
    assert!(r.str_from_rng(0, 1) == "ab");
    assert!(r.str_from_rng(0, 2) == "abc");
    assert!(r.str_from_rng(0, 3) == "abcd");
    assert!(r.str_from_rng(0, 22) == "abcd");
    assert!(r.str_from_rng(22, 0) == "abcd");
}

#[test]
fn test_rlex_is_in_quote() {
    let mut r: Rlex<State, Token> = lexer("\"Hello, I am Quoted!\"");
    while !r.at_end() {
        assert!(r.is_in_quote());
        r.next();
    }
    assert!(!r.is_in_quote());
    assert!(r.char() == '"');
    let mut r: Rlex<State, Token> = lexer("Hello, I am not Quoted!");
    while !r.at_end() {
        assert!(!r.is_in_quote());
        r.next();
    }
    let mut r: Rlex<State, Token> = lexer("<p name='bob'>");
    r.next_until('b');
    assert!(r.is_in_quote());
    r.next_until('\'');
    assert!(!r.is_in_quote());
}

#[test]
fn test_rlex_next_until_and_prev_until() {
    let mut r: Rlex<State, Token> = lexer("abcd");
    r.next_until('c');
    assert!(r.pos() == 2);
    r.next();
    r.prev_until('b');
    assert!(r.pos() == 1);
}

#[test]
fn test_rlex_surrounding_comparisons() {
    let mut r: Rlex<State, Token> = lexer("abcd");
    assert!(r.next_is('b'));
    assert!(r.next_by_is('a', 0));
    assert!(r.next_by_is('b', 1));
    assert!(r.next_by_is('c', 2));
    assert!(r.next_by_is('d', 3));
    assert!(r.next_by_is('d', 4));
    r.goto_end();
    assert!(r.prev_is('c'));
    assert!(r.prev_by_is('d', 0));
    assert!(r.prev_by_is('c', 1));
    assert!(r.prev_by_is('b', 2));
    assert!(r.prev_by_is('a', 3));
    assert!(r.prev_by_is('a', 4));
}

#[test]
fn test_rlex_state() {
    let mut r: Rlex<State, Token> = lexer("abcd");
    assert!(r.state() == &State::Init);
    r.state_set(State::Open);
    assert!(r.state() == &State::Open);
}

#[test]
fn test_rlex_collect() {
    let mut r: Rlex<State, Token> = lexer("abcd");
    r.collect();
    assert!(r.str_from_collection() == "a");
    let c = r.collect_pop();
    assert!(c.unwrap() == 'a');
    r.collect_push('a');
    assert!(r.str_from_collection() == "a");
    r.collect_clear();
    assert!(r.str_from_collection() == "");
}
