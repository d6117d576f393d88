//! The cursor: navigation, lookahead, marking, range extraction, quote detection,
//! the token and collection accumulators, and the trace log.
use vstd::prelude::*;
use vstd::string::*;
use vstd::utf8::encode_utf8;
use crate::encoding::{lemma_len_le_bytes, slice_symbols};
use crate::model::{
    LexView, QuoteScan, bool_text, decimal, inside_quote, joined, logged_result, logged_value,
    quote_scan, trace_line,
};
use crate::text::{debug_text, push_bool, push_char, push_decimal};

verus! {

/// Why a cursor could not be built.
#[derive(Debug, PartialEq, Eq, Clone, Copy)]
pub enum RlexError {
    /// The source text holds no symbol.
    EmptySource,
}

/// The symbols of the source and the two positions into them.
struct Tape {
    source: String,
    chars: Vec<char>,
    position: usize,
    max_position: usize,
    marked_position: usize,
}

/// A cursor over the symbols of a string, with a caller-defined state `S`, a stack of
/// caller-defined tokens `T`, a collection buffer and an optional trace log.
pub struct Rlex<S, T> {
    tape: Tape,
    state: S,
    collection: Vec<char>,
    collection_str: String,
    tokens: Vec<T>,
    should_trace: bool,
    trace: Vec<String>,
}

impl<S, T> View for Rlex<S, T> {
    type V = LexView<S, T>;

    closed spec fn view(&self) -> LexView<S, T> {
        LexView {
            symbols: self.tape.chars@,
            position: self.tape.position as nat,
            marked: self.tape.marked_position as nat,
            state: self.state,
            tokens: self.tokens@,
            collection: self.collection@,
            tracing: self.should_trace,
            log: self.trace@.map_values(|line: String| line@),
        }
    }
}

impl Tape {
    /// The source and its symbols agree, there is at least one symbol, both positions
    /// index a symbol, and the encoding's length fits in a usize.
    #[verifier::type_invariant]
    spec fn inv(&self) -> bool {
        &&& self.chars@.len() >= 1
        &&& self.source@ == self.chars@
        &&& self.max_position == self.chars@.len() - 1
        &&& self.position <= self.max_position
        &&& self.marked_position <= self.max_position
        &&& encode_utf8(self.chars@).len() <= usize::MAX
    }

    /// The index of the last symbol.
    spec fn max(&self) -> nat {
        (self.chars@.len() - 1) as nat
    }

    /// Position after one step forward.
    spec fn forward_one(&self) -> nat {
        if self.position < self.max() {
            (self.position + 1) as nat
        } else {
            self.position as nat
        }
    }

    /// Position after one step back.
    spec fn back_one(&self) -> nat {
        if self.position > 0 {
            (self.position - 1) as nat
        } else {
            0
        }
    }

    /// Moves one symbol forward, unless at the end.
    fn advance(&mut self)
        ensures
            final(self).chars@ == old(self).chars@,
            final(self).marked_position == old(self).marked_position,
            final(self).position == old(self).forward_one(),
            final(self).max_position == old(self).max_position,
    {
        proof { use_type_invariant(&*self); }
        if self.position < self.max_position {
            self.position += 1;
        }
    }

    /// Moves one symbol back, unless at the start.
    fn retreat(&mut self)
        ensures
            final(self).chars@ == old(self).chars@,
            final(self).marked_position == old(self).marked_position,
            final(self).position == old(self).back_one(),
    {
        proof { use_type_invariant(&*self); }
        if self.position > 0 {
            self.position -= 1;
        }
    }

    /// Moves to `pos`, or to the end where `pos` lies past it.
    fn move_to(&mut self, pos: usize)
        ensures
            final(self).chars@ == old(self).chars@,
            final(self).marked_position == old(self).marked_position,
            final(self).position == (if pos > old(self).max() { old(self).max() } else { pos as nat }),
    {
        proof { use_type_invariant(&*self); }
        if pos > self.max_position {
            self.position = self.max_position;
        } else {
            self.position = pos;
        }
    }

    /// The symbol under the cursor.
    fn current(&self) -> (c: char)
        ensures
            c == self.chars@[self.position as int],
    {
        proof { use_type_invariant(self); }
        self.chars[self.position]
    }

    /// Moves `n` symbols forward, saturating at the end; once there, the remaining steps
    /// would change nothing and are not taken.
    fn advance_by(&mut self, n: usize)
        ensures
            final(self).chars@ == old(self).chars@,
            final(self).marked_position == old(self).marked_position,
            final(self).position == (if old(self).position + n > old(self).max() {
                old(self).max()
            } else {
                (old(self).position + n) as nat
            }),
    {
        proof { use_type_invariant(&*self); }
        let mut count: usize = 0;
        while count != n && self.position < self.max_position
            invariant
                count <= n,
                self.chars@ == old(self).chars@,
                self.max_position == old(self).max(),
                self.marked_position == old(self).marked_position,
                self.position == (if old(self).position + count > old(self).max() {
                    old(self).max()
                } else {
                    (old(self).position + count) as nat
                }),
            decreases n - count,
        {
            self.advance();
            count += 1;
        }
    }

    /// Moves `n` symbols back, saturating at the start; once there, the remaining steps
    /// would change nothing and are not taken.
    fn retreat_by(&mut self, n: usize)
        ensures
            final(self).chars@ == old(self).chars@,
            final(self).marked_position == old(self).marked_position,
            final(self).position == (if old(self).position >= n {
                (old(self).position - n) as nat
            } else {
                0
            }),
    {
        let mut left: usize = n;
        while left != 0 && self.position > 0
            invariant
                left <= n,
                self.chars@ == old(self).chars@,
                self.marked_position == old(self).marked_position,
                self.position == (if old(self).position >= n - left {
                    (old(self).position - (n - left)) as nat
                } else {
                    0
                }),
            decreases left,
        {
            self.retreat();
            left -= 1;
        }
    }

    /// The symbol `n` places ahead, saturating at the end.
    fn peek_ahead(&self, n: usize) -> (c: char)
        ensures
            c == self.chars@[(if self.position + n > self.max() {
                self.max()
            } else {
                (self.position + n) as nat
            }) as int],
    {
        proof { use_type_invariant(self); }
        if n > self.max_position - self.position {
            self.chars[self.max_position]
        } else {
            self.chars[self.position + n]
        }
    }

    /// The symbol `n` places back, saturating at the start.
    fn peek_behind(&self, n: usize) -> (c: char)
        ensures
            c == self.chars@[(if self.position >= n {
                (self.position - n) as nat
            } else {
                0
            }) as int],
    {
        proof { use_type_invariant(self); }
        if n > self.position {
            self.chars[0]
        } else {
            self.chars[self.position - n]
        }
    }

    /// The source text of symbols `lo` through `hi`, both included.
    fn slice(&self, lo: usize, hi: usize) -> (r: &str)
        requires
            lo <= hi <= self.max(),
        ensures
            r@ == self.chars@.subrange(lo as int, hi + 1),
    {
        proof { use_type_invariant(self); }
        slice_symbols(self.source.as_str(), &self.chars, lo, hi)
    }
}

impl<S, T> Rlex<S, T> {
    /// Appends a numbered line holding `msg` to the trace.
    fn trace_log(&mut self, msg: &str)
        ensures
            final(self)@ == (LexView {
                log: old(self)@.log.push(trace_line(old(self)@.log.len(), msg@)),
                ..old(self)@
            }),
    {
        let mut line = String::new();
        push_decimal(&mut line, self.trace.len());
        line.append(":");
        line.append(msg);
        line.append("\n");
        self.trace.push(line);
        proof {
            assert(self@.log =~= old(self)@.log.push(trace_line(old(self)@.log.len(), msg@)));
        }
    }

    /// Traces `msg` when tracing is on.
    fn trace_text(&mut self, msg: &str)
        ensures
            final(self)@ == old(self)@.logged(msg@),
    {
        if self.should_trace {
            self.trace_log(msg);
        }
    }

    /// Traces `prefix`, `n` in decimal, and `suffix`, when tracing is on.
    fn trace_num(&mut self, prefix: &str, n: usize, suffix: &str)
        ensures
            final(self)@ == old(self)@.logged(prefix@ + decimal(n as nat) + suffix@),
    {
        if self.should_trace {
            let mut msg = String::from_str(prefix);
            push_decimal(&mut msg, n);
            msg.append(suffix);
            self.trace_log(msg.as_str());
        }
    }

    /// Traces `prefix`, the symbol `c`, and `suffix`, when tracing is on.
    fn trace_char(&mut self, prefix: &str, c: char, suffix: &str)
        ensures
            final(self)@ == old(self)@.logged(prefix@ + seq![c] + suffix@),
    {
        if self.should_trace {
            let mut msg = String::from_str(prefix);
            push_char(&mut msg, c);
            msg.append(suffix);
            assert(msg@ =~= prefix@ + seq![c] + suffix@);
            self.trace_log(msg.as_str());
        }
    }

    /// Traces `prefix` followed by the symbol `c`, when tracing is on.
    fn trace_char_result(&mut self, prefix: &str, c: char)
        ensures
            final(self)@ == old(self)@.logged(prefix@.push(c)),
    {
        if self.should_trace {
            let mut msg = String::from_str(prefix);
            push_char(&mut msg, c);
            self.trace_log(msg.as_str());
        }
    }

    /// Traces `prefix` followed by `true` or `false`, when tracing is on.
    fn trace_bool(&mut self, prefix: &str, b: bool)
        ensures
            final(self)@ == old(self)@.logged(prefix@ + bool_text(b)),
    {
        if self.should_trace {
            let mut msg = String::from_str(prefix);
            push_bool(&mut msg, b);
            self.trace_log(msg.as_str());
        }
    }

    /// Traces `prefix` followed by `text` when tracing is on; `text` renders a value.
    fn trace_rendered_result(&mut self, prefix: &str, text: &str)
        ensures
            logged_result(old(self)@, final(self)@, prefix@),
    {
        if self.should_trace {
            let mut msg = String::from_str(prefix);
            msg.append(text);
            self.trace_log(msg.as_str());
            assert(old(self)@.logged(prefix@ + text@) == self@);
        } else {
            assert(old(self)@.logged(prefix@ + text@) == self@);
        }
    }

    /// Traces `prefix`, `text` and `suffix` when tracing is on; `text` renders a value.
    fn trace_rendered(&mut self, prefix: &str, text: &str, suffix: &str)
        ensures
            logged_value(old(self)@, final(self)@, prefix@, suffix@),
    {
        if self.should_trace {
            let mut msg = String::from_str(prefix);
            msg.append(text);
            msg.append(suffix);
            self.trace_log(msg.as_str());
            assert(old(self)@.logged(prefix@ + text@ + suffix@) == self@);
        } else {
            assert(old(self)@.logged(prefix@ + text@ + suffix@) == self@);
        }
    }
}

impl<S: std::fmt::Debug, T: std::fmt::Debug> Rlex<S, T> {
    /// The `Debug` text of `v` when tracing is on, else nothing.
    fn rendered<V: std::fmt::Debug>(&self, v: &V) -> String {
        if self.should_trace {
            debug_text(v)
        } else {
            String::new()
        }
    }

    /// Creates a cursor over `source` at its first symbol, with `state` as its state.
    /// Fails where `source` is empty.
    pub fn new(source: &str, state: S) -> (r: Result<Rlex<S, T>, RlexError>)
        ensures
            r is Err <==> source@.len() == 0,
            r matches Ok(lex) ==> lex@ == (LexView::<S, T> {
                symbols: source@,
                position: 0,
                marked: 0,
                state,
                tokens: seq![],
                collection: seq![],
                tracing: false,
                log: seq![],
            }),
    {
        let mut chars: Vec<char> = Vec::new();
        for c in it: source.chars()
            invariant
                chars@ == it.seq().take(it.index() as int),
        {
            chars.push(c);
        }
        assert(chars@ == source@);
        if chars.len() == 0 {
            return Err(RlexError::EmptySource);
        }
        // The encoding is held in memory, so its length fits in a usize.
        let bytes = source.as_bytes();
        let byte_len = bytes.len();
        assert(byte_len == encode_utf8(source@).len());
        let length = chars.len();
        let tape = Tape {
            source: source.to_owned(),
            chars,
            position: 0,
            max_position: length - 1,
            marked_position: 0,
        };
        let lex = Rlex {
            tape,
            state,
            collection: Vec::new(),
            collection_str: String::new(),
            tokens: Vec::new(),
            should_trace: false,
            trace: Vec::new(),
        };
        assert(lex@.log =~= Seq::<Seq<char>>::empty());
        Ok(lex)
    }

    /// Turns tracing on.
    pub fn trace_on(&mut self)
        ensures
            final(self)@ == (LexView { tracing: true, ..old(self)@ }),
    {
        self.should_trace = true;
    }

    /// Turns tracing off.
    pub fn trace_off(&mut self)
        ensures
            final(self)@ == (LexView { tracing: false, ..old(self)@ }),
    {
        self.should_trace = false;
    }

    /// The whole trace: its lines joined in order.
    pub fn trace_emit(&self) -> (r: String)
        ensures
            r@ == joined(self@.log),
    {
        let mut trace = String::new();
        let mut i: usize = 0;
        assert(self@.log.take(0) =~= Seq::<Seq<char>>::empty());
        while i < self.trace.len()
            invariant
                i <= self.trace@.len(),
                self@.log.len() == self.trace@.len(),
                trace@ == joined(self@.log.take(i as int)),
            decreases self.trace@.len() - i,
        {
            trace.append(self.trace[i].as_str());
            assert(self@.log.take(i + 1).drop_last() =~= self@.log.take(i as int));
            i += 1;
        }
        assert(self@.log.take(i as int) =~= self@.log);
        trace
    }

    /// Empties the trace.
    pub fn trace_clear(&mut self)
        ensures
            final(self)@ == (LexView { log: seq![], ..old(self)@ }),
    {
        self.trace = Vec::new();
        assert(self@.log =~= Seq::<Seq<char>>::empty());
    }

    /// The token stack, bottom first.
    pub fn toks(&mut self) -> (r: &Vec<T>)
        ensures
            r@ == old(self)@.tokens,
            logged_result(old(self)@, final(self)@, "toks() -> "@),
    {
        let text = self.rendered(&self.tokens);
        self.trace_rendered_result("toks() -> ", text.as_str());
        &self.tokens
    }

    /// The source text.
    pub fn src(&mut self) -> (r: &str)
        ensures
            r@ == old(self)@.symbols,
            final(self)@ == old(self)@.logged("src()"@),
    {
        self.trace_text("src()");
        proof { use_type_invariant(&self.tape); }
        self.tape.source.as_str()
    }

    /// Takes the token stack, ending the cursor's life.
    pub fn token_consume(self) -> (r: Vec<T>)
        ensures
            r@ == self@.tokens,
    {
        self.tokens
    }

    /// Pushes `tok` onto the token stack.
    pub fn token_push(&mut self, tok: T)
        ensures
            logged_value(
                (LexView { tokens: old(self)@.tokens.push(tok), ..old(self)@ }),
                final(self)@,
                "token_push("@,
                ")"@,
            ),
    {
        let text = self.rendered(&tok);
        self.trace_rendered("token_push(", text.as_str(), ")");
        let ghost traced = self@;
        self.tokens.push(tok);
        proof {
            let d = choose|d: Seq<char>| #[trigger] old(self)@.logged("token_push("@ + d + ")"@) == traced;
            let pushed = LexView { tokens: old(self)@.tokens.push(tok), ..old(self)@ };
            assert(pushed.logged("token_push("@ + d + ")"@) == self@);
        }
    }

    /// Pops the top token; `None` when the stack is empty.
    pub fn token_pop(&mut self) -> (r: Option<T>)
        ensures
            old(self)@.tokens.len() == 0 ==> r is None && logged_result(old(self)@, final(self)@, "token_pop() -> "@),
            old(self)@.tokens.len() > 0 ==> r == Some(old(self)@.tokens.last()) && logged_result(
                (LexView { tokens: old(self)@.tokens.drop_last(), ..old(self)@ }),
                final(self)@,
                "token_pop() -> "@,
            ),
    {
        let tok = self.tokens.pop();
        let text = self.rendered(&tok);
        self.trace_rendered_result("token_pop() -> ", text.as_str());
        tok
    }

    /// The top token, left in place; `None` when the stack is empty.
    pub fn token_prev(&mut self) -> (r: Option<&T>)
        ensures
            r is None <==> old(self)@.tokens.len() == 0,
            r matches Some(t) ==> *t == old(self)@.tokens.last(),
            logged_result(old(self)@, final(self)@, "token_prev() -> "@),
    {
        let text = self.rendered(&self.tokens.last());
        self.trace_rendered_result("token_prev() -> ", text.as_str());
        self.tokens.last()
    }

    /// The current state.
    pub fn state(&mut self) -> (r: &S)
        ensures
            *r == old(self)@.state,
            logged_result(old(self)@, final(self)@, "state() -> "@),
    {
        let text = self.rendered(&self.state);
        self.trace_rendered_result("state() -> ", text.as_str());
        &self.state
    }

    /// Replaces the state with `state`.
    pub fn state_set(&mut self, state: S)
        ensures
            logged_value(
                (LexView { state, ..old(self)@ }),
                final(self)@,
                "state_set("@,
                ")"@,
            ),
    {
        let text = self.rendered(&state);
        self.trace_rendered("state_set(", text.as_str(), ")");
        let ghost traced = self@;
        self.state = state;
        proof {
            let d = choose|d: Seq<char>| #[trigger] old(self)@.logged("state_set("@ + d + ")"@) == traced;
            assert((LexView { state, ..old(self)@ }).logged("state_set("@ + d + ")"@) == self@);
        }
    }

    /// The index of the current symbol.
    pub fn pos(&mut self) -> (r: usize)
        ensures
            r == old(self)@.position,
            final(self)@ == old(self)@.logged("pos() -> "@ + decimal(r as nat)),
    {
        if self.should_trace {
            let mut msg = String::from_str("pos() -> ");
            push_decimal(&mut msg, self.tape.position);
            self.trace_log(msg.as_str());
        }
        self.tape.position
    }

    /// Steps one symbol forward; at the end, stays there.
    pub fn next(&mut self) -> (r: &Rlex<S, T>)
        ensures
            final(self)@ == old(self)@.at(old(self)@.forward_one()).logged("next()"@),
    {
        self.trace_text("next()");
        self.tape.advance();
        self
    }

    /// Steps `by` symbols forward, stopping at the end.
    pub fn next_by(&mut self, by: usize) -> (r: &Rlex<S, T>)
        ensures
            final(self)@ == old(self)@.at(old(self)@.forward_by(by as nat)).logged(
                "next_by("@ + decimal(by as nat) + ")"@,
            ),
    {
        self.trace_num("next_by(", by, ")");
        self.tape.advance_by(by);
        self
    }

    /// Steps forward once, then on until the current symbol is `search` or the end is
    /// reached. Returns whether `search` was found.
    pub fn next_until(&mut self, search: char) -> (found: bool)
        ensures
            old(self)@.forward_stop(old(self)@.forward_one(), search, final(self)@.position),
            found == (final(self)@.current() == search),
            final(self)@ == old(self)@.at(final(self)@.position).logged(
                "next_until("@ + seq![search] + ")"@,
            ),
    {
        self.trace_char("next_until(", search, ")");
        let ghost base = self@;
        self.tape.advance();
        let ghost from = self@.position;
        proof { use_type_invariant(&self.tape); }
        loop
            invariant
                self.tape.chars@ == old(self)@.symbols,
                from == old(self)@.forward_one(),
                from <= self@.position <= old(self)@.max_position(),
                forall|k: int| from <= k < self@.position ==> old(self)@.symbols[k] != search,
                self@ == base.at(self@.position),
                base == old(self)@.logged("next_until("@ + seq![search] + ")"@),
            decreases old(self)@.max_position() - self@.position,
        {
            proof { use_type_invariant(&self.tape); }
            if self.tape.current() == search {
                return true;
            }
            if self.tape.position == self.tape.max_position {
                return false;
            }
            self.tape.advance();
        }
    }

    /// Steps one symbol back; at the start, stays there.
    pub fn prev(&mut self) -> (r: &Rlex<S, T>)
        ensures
            final(self)@ == old(self)@.at(old(self)@.back_one()).logged("prev()"@),
    {
        self.trace_text("prev()");
        self.tape.retreat();
        self
    }

    /// Steps `by` symbols back, stopping at the start.
    pub fn prev_by(&mut self, by: usize) -> (r: &Rlex<S, T>)
        ensures
            final(self)@ == old(self)@.at(old(self)@.back_by(by as nat)).logged(
                "prev_by("@ + decimal(by as nat) + ")"@,
            ),
    {
        self.trace_num("prev_by(", by, ")");
        self.tape.retreat_by(by);
        self
    }

    /// Steps back once, then on until the current symbol is `search` or the start is
    /// reached. Returns whether `search` was found.
    pub fn prev_until(&mut self, search: char) -> (found: bool)
        ensures
            old(self)@.backward_stop(old(self)@.back_one(), search, final(self)@.position),
            found == (final(self)@.current() == search),
            final(self)@ == old(self)@.at(final(self)@.position).logged(
                "prev_until("@ + seq![search] + ")"@,
            ),
    {
        self.trace_char("prev_until(", search, ")");
        let ghost base = self@;
        self.tape.retreat();
        let ghost from = self@.position;
        proof { use_type_invariant(&self.tape); }
        loop
            invariant
                self.tape.chars@ == old(self)@.symbols,
                from == old(self)@.back_one(),
                self@.position <= from,
                forall|k: int| self@.position < k <= from ==> old(self)@.symbols[k] != search,
                self@ == base.at(self@.position),
                base == old(self)@.logged("prev_until("@ + seq![search] + ")"@),
            decreases self@.position,
        {
            proof { use_type_invariant(&self.tape); }
            if self.tape.current() == search {
                return true;
            }
            if self.tape.position == 0 {
                return false;
            }
            self.tape.retreat();
        }
    }

    /// Whether the symbol after the current one is `check`; at the end, the current
    /// symbol is compared.
    pub fn next_is(&mut self, check: char) -> (r: bool)
        ensures
            r == (old(self)@.symbols[old(self)@.forward_one() as int] == check),
            final(self)@ == old(self)@.logged("next_is("@ + seq![check] + ")"@),
    {
        proof { use_type_invariant(&self.tape); }
        self.trace_char("next_is(", check, ")");
        let c = self.tape.peek_ahead(1);
        c == check
    }

    /// Whether the symbol `by` places ahead is `check`; past the end, the last symbol
    /// is compared.
    pub fn next_by_is(&mut self, check: char, by: usize) -> (r: bool)
        ensures
            r == (old(self)@.symbols[old(self)@.forward_by(by as nat) as int] == check),
            final(self)@ == old(self)@.logged(
                "next_by_is("@ + seq![check] + ", "@ + decimal(by as nat) + ")"@,
            ),
    {
        proof { use_type_invariant(&self.tape); }
        if self.should_trace {
            let mut msg = String::from_str("next_by_is(");
            push_char(&mut msg, check);
            msg.append(", ");
            push_decimal(&mut msg, by);
            msg.append(")");
            assert(msg@ =~= "next_by_is("@ + seq![check] + ", "@ + decimal(by as nat) + ")"@);
            self.trace_log(msg.as_str());
        }
        let c = self.tape.peek_ahead(by);
        c == check
    }

    /// Whether the symbol before the current one is `check`; at the start, the current
    /// symbol is compared.
    pub fn prev_is(&mut self, check: char) -> (r: bool)
        ensures
            r == (old(self)@.symbols[old(self)@.back_one() as int] == check),
            final(self)@ == old(self)@.logged("prev_is("@ + seq![check] + ")"@),
    {
        proof { use_type_invariant(&self.tape); }
        self.trace_char("prev_is(", check, ")");
        let c = self.tape.peek_behind(1);
        c == check
    }

    /// Whether the symbol `by` places back is `check`; before the start, the first
    /// symbol is compared.
    pub fn prev_by_is(&mut self, check: char, by: usize) -> (r: bool)
        ensures
            r == (old(self)@.symbols[old(self)@.back_by(by as nat) as int] == check),
            final(self)@ == old(self)@.logged(
                "prev_by_is("@ + seq![check] + ", "@ + decimal(by as nat) + ")"@,
            ),
    {
        proof { use_type_invariant(&self.tape); }
        if self.should_trace {
            let mut msg = String::from_str("prev_by_is(");
            push_char(&mut msg, check);
            msg.append(", ");
            push_decimal(&mut msg, by);
            msg.append(")");
            assert(msg@ =~= "prev_by_is("@ + seq![check] + ", "@ + decimal(by as nat) + ")"@);
            self.trace_log(msg.as_str());
        }
        let c = self.tape.peek_behind(by);
        c == check
    }

    /// The current symbol.
    pub fn char(&mut self) -> (r: char)
        ensures
            r == old(self)@.current(),
            final(self)@ == old(self)@.logged("char() -> "@.push(r)),
    {
        proof { use_type_invariant(&self.tape); }
        let c = self.tape.current();
        self.trace_char_result("char() -> ", c);
        c
    }

    /// Whether the cursor is at the last symbol.
    pub fn at_end(&mut self) -> (r: bool)
        ensures
            r == (old(self)@.position == old(self)@.max_position()),
            final(self)@ == old(self)@.logged("at_end() -> "@ + bool_text(r)),
    {
        proof { use_type_invariant(&self.tape); }
        let is_at_end = self.tape.position == self.tape.max_position;
        self.trace_bool("at_end() -> ", is_at_end);
        is_at_end
    }

    /// Whether the cursor is at the first symbol.
    pub fn at_start(&mut self) -> (r: bool)
        ensures
            r == (old(self)@.position == 0),
            final(self)@ == old(self)@.logged("at_start() -> "@ + bool_text(r)),
    {
        proof { use_type_invariant(&self.tape); }
        let is_at_start = self.tape.position == 0;
        self.trace_bool("at_start() -> ", is_at_start);
        is_at_start
    }

    /// Whether the cursor is at the mark.
    pub fn at_mark(&mut self) -> (r: bool)
        ensures
            r == (old(self)@.position == old(self)@.marked),
            final(self)@ == old(self)@.logged("at_mark() -> "@ + bool_text(r)),
    {
        proof { use_type_invariant(&self.tape); }
        let is_at_mark = self.tape.marked_position == self.tape.position;
        self.trace_bool("at_mark() -> ", is_at_mark);
        is_at_mark
    }

    /// Sets the mark to the current position.
    pub fn mark(&mut self) -> (r: &Rlex<S, T>)
        ensures
            final(self)@ == (LexView { marked: old(self)@.position, ..old(self)@ }).logged(
                "mark()"@,
            ),
    {
        self.trace_text("mark()");
        proof { use_type_invariant(&self.tape); }
        self.tape.marked_position = self.tape.position;
        self
    }

    /// Moves to `pos`, or to the last symbol where `pos` lies past it.
    pub fn goto_pos(&mut self, pos: usize) -> (r: &Rlex<S, T>)
        ensures
            final(self)@ == old(self)@.at(old(self)@.clamp(pos as nat)).logged(
                "goto_pos("@ + decimal(pos as nat) + ")"@,
            ),
    {
        self.trace_num("goto_pos(", pos, ")");
        self.tape.move_to(pos);
        self
    }

    /// Moves to the mark.
    pub fn goto_mark(&mut self) -> (r: &Rlex<S, T>)
        ensures
            final(self)@ == old(self)@.at(old(self)@.marked).logged("goto_mark()"@),
    {
        self.trace_text("goto_mark()");
        proof { use_type_invariant(&self.tape); }
        self.tape.position = self.tape.marked_position;
        self
    }

    /// Moves to the first symbol.
    pub fn goto_start(&mut self) -> (r: &Rlex<S, T>)
        ensures
            final(self)@ == old(self)@.at(0).logged("goto_start()"@),
    {
        self.trace_text("goto_start()");
        proof { use_type_invariant(&self.tape); }
        self.tape.position = 0;
        self
    }

    /// Moves to the last symbol.
    pub fn goto_end(&mut self) -> (r: &Rlex<S, T>)
        ensures
            final(self)@ == old(self)@.at(old(self)@.max_position()).logged("goto_end()"@),
    {
        self.trace_text("goto_end()");
        proof { use_type_invariant(&self.tape); }
        self.tape.position = self.tape.max_position;
        self
    }

    /// The symbol after the current one, or the last symbol at the end. The position
    /// is left as it was.
    pub fn peek(&mut self) -> (r: char)
        ensures
            r == old(self)@.symbols[old(self)@.forward_one() as int],
            final(self)@ == old(self)@.logged("peek() -> "@.push(r)),
    {
        proof { use_type_invariant(&self.tape); }
        let c = self.tape.peek_ahead(1);
        self.trace_char_result("peek() -> ", c);
        c
    }

    /// The symbol `by` places ahead, or the last symbol where that lies past the end.
    /// The position is left as it was.
    pub fn peek_by(&mut self, by: usize) -> (r: char)
        ensures
            r == old(self)@.symbols[old(self)@.forward_by(by as nat) as int],
            final(self)@ == old(self)@.logged(
                "peek_by("@ + decimal(by as nat) + ") -> "@.push(r),
            ),
    {
        proof { use_type_invariant(&self.tape); }
        let c = self.tape.peek_ahead(by);
        if self.should_trace {
            let mut msg = String::from_str("peek_by(");
            push_decimal(&mut msg, by);
            msg.append(") -> ");
            push_char(&mut msg, c);
            assert(msg@ =~= "peek_by("@ + decimal(by as nat) + ") -> "@.push(c));
            self.trace_log(msg.as_str());
        }
        c
    }

    /// The symbol before the current one, or the first symbol at the start. The position
    /// is left as it was.
    pub fn peek_back(&mut self) -> (r: char)
        ensures
            r == old(self)@.symbols[old(self)@.back_one() as int],
            final(self)@ == old(self)@.logged("peek_back() -> "@.push(r)),
    {
        proof { use_type_invariant(&self.tape); }
        let c = self.tape.peek_behind(1);
        self.trace_char_result("peek_back() -> ", c);
        c
    }

    /// The symbol `by` places back, or the first symbol where that lies before the
    /// start. The position is left as it was.
    pub fn peek_back_by(&mut self, by: usize) -> (r: char)
        ensures
            r == old(self)@.symbols[old(self)@.back_by(by as nat) as int],
            final(self)@ == old(self)@.logged(
                "peek_back_by("@ + decimal(by as nat) + ") -> "@.push(r),
            ),
    {
        proof { use_type_invariant(&self.tape); }
        let c = self.tape.peek_behind(by);
        if self.should_trace {
            let mut msg = String::from_str("peek_back_by(");
            push_decimal(&mut msg, by);
            msg.append(") -> ");
            push_char(&mut msg, c);
            assert(msg@ =~= "peek_back_by("@ + decimal(by as nat) + ") -> "@.push(c));
            self.trace_log(msg.as_str());
        }
        c
    }

    /// The symbol exactly `by` places ahead, or `None` where that lies past the end.
    /// The position is left as it was.
    pub fn peek_bounded(&mut self, by: usize) -> (r: Option<char>)
        ensures
            r == (if old(self)@.position + by <= old(self)@.max_position() {
                Some(old(self)@.symbols[old(self)@.position + by])
            } else {
                None::<char>
            }),
            logged_result(old(self)@, final(self)@, "peek_bounded("@ + decimal(by as nat) + ") -> "@),
    {
        proof { use_type_invariant(&self.tape); }
        let r = if by <= self.tape.max_position - self.tape.position {
            Some(self.tape.chars[self.tape.position + by])
        } else {
            None
        };
        let text = self.rendered(&r);
        let mut head = String::from_str("peek_bounded(");
        push_decimal(&mut head, by);
        head.append(") -> ");
        self.trace_rendered_result(head.as_str(), text.as_str());
        r
    }

    /// The symbol exactly `by` places back, or `None` where that lies before the start.
    /// The position is left as it was.
    pub fn peek_back_bounded(&mut self, by: usize) -> (r: Option<char>)
        ensures
            r == (if old(self)@.position >= by {
                Some(old(self)@.symbols[old(self)@.position - by])
            } else {
                None::<char>
            }),
            logged_result(old(self)@, final(self)@, "peek_back_bounded("@ + decimal(by as nat) + ") -> "@),
    {
        proof { use_type_invariant(&self.tape); }
        let r = if by <= self.tape.position {
            Some(self.tape.chars[self.tape.position - by])
        } else {
            None
        };
        let text = self.rendered(&r);
        let mut head = String::from_str("peek_back_bounded(");
        push_decimal(&mut head, by);
        head.append(") -> ");
        self.trace_rendered_result(head.as_str(), text.as_str());
        r
    }

    /// The source text of symbols `start` through `end`, both included, after clamping
    /// both to the last index; the two may come in either order.
    pub fn str_from_rng(&mut self, start: usize, end: usize) -> (r: &str)
        ensures
            r@ == old(self)@.range_text(start as nat, end as nat),
            final(self)@ == old(self)@,
    {
        proof { use_type_invariant(&self.tape); }
        let mut start = start;
        let mut end = end;
        if start > self.tape.max_position {
            start = self.tape.max_position;
        }
        if end > self.tape.max_position {
            end = self.tape.max_position;
        }
        if start > end {
            let swap = start;
            start = end;
            end = swap;
        }
        self.tape.slice(start, end)
    }

    /// The source text from the mark to the current position, both included, whichever
    /// comes first.
    pub fn str_from_mark(&self) -> (r: &str)
        ensures
            r@ == self@.range_text(self@.marked, self@.position),
    {
        proof { use_type_invariant(&self.tape); }
        let (start, end) = if self.tape.marked_position <= self.tape.position {
            (self.tape.marked_position, self.tape.position)
        } else {
            (self.tape.position, self.tape.marked_position)
        };
        self.tape.slice(start, end)
    }

    /// The source text from the first symbol through the current one.
    pub fn str_from_start(&self) -> (r: &str)
        ensures
            r@ == self@.through_current(),
    {
        proof { use_type_invariant(&self.tape); }
        self.tape.slice(0, self.tape.position)
    }

    /// The source text from the current symbol through the last one.
    pub fn str_from_end(&self) -> (r: &str)
        ensures
            r@ == self@.from_current(),
    {
        proof { use_type_invariant(&self.tape); }
        self.tape.slice(self.tape.position, self.tape.max_position)
    }

    /// Whether the current position lies inside an open quoted span: the symbols from
    /// the first through the current one are scanned afresh on every call.
    pub fn is_in_quote(&mut self) -> (r: bool)
        ensures
            r == inside_quote(old(self)@.through_current()),
            final(self)@ == old(self)@.logged("is_in_quote() -> "@ + bool_text(r)),
    {
        proof { use_type_invariant(&self.tape); }
        proof { lemma_len_le_bytes(self.tape.chars@); }
        let mut in_big_quote = false;
        let mut in_lil_quote = false;
        let mut escaped = false;
        let mut i: usize = 0;
        while i <= self.tape.position
            invariant
                self.tape.position <= self.tape.max_position,
                self.tape.max_position == self.tape.chars@.len() - 1,
                self.tape.chars@.len() <= usize::MAX,
                i <= self.tape.position + 1,
                quote_scan(self.tape.chars@.take(i as int)) == (QuoteScan {
                    in_double: in_big_quote,
                    in_single: in_lil_quote,
                    escaped,
                }),
            decreases self.tape.position + 1 - i,
        {
            let c = self.tape.chars[i];
            proof {
                let prefix = self.tape.chars@.take(i + 1);
                assert(prefix.drop_last() =~= self.tape.chars@.take(i as int));
                assert(prefix.last() == c);
            }
            if escaped {
                escaped = false;
            } else if c == '\\' {
                escaped = true;
            } else if c == '"' {
                in_big_quote = !in_big_quote;
            } else if c == '\'' {
                in_lil_quote = !in_lil_quote;
            }
            i += 1;
        }
        assert(self.tape.chars@.take(i as int) =~= self@.through_current());
        let result = in_big_quote || in_lil_quote;
        self.trace_bool("is_in_quote() -> ", result);
        result
    }

    /// Appends the current symbol to the collection.
    pub fn collect(&mut self)
        ensures
            final(self)@ == (LexView {
                collection: old(self)@.collection.push(old(self)@.current()),
                ..old(self)@
            }).logged("collect()"@),
    {
        self.trace_text("collect()");
        let c = self.tape.current();
        self.collection.push(c);
    }

    /// The collection as a string; the string is kept until the next call.
    pub fn str_from_collection(&mut self) -> (r: &str)
        ensures
            r@ == old(self)@.collection,
            final(self)@ == old(self)@,
    {
        let mut text = String::new();
        let mut i: usize = 0;
        while i < self.collection.len()
            invariant
                i <= self.collection@.len(),
                text@ == self.collection@.take(i as int),
            decreases self.collection@.len() - i,
        {
            push_char(&mut text, self.collection[i]);
            assert(self.collection@.take(i + 1) =~= self.collection@.take(i as int).push(self.collection@[i as int]));
            i += 1;
        }
        assert(self.collection@.take(i as int) =~= self.collection@);
        self.collection_str = text;
        self.collection_str.as_str()
    }

    /// Empties the collection.
    pub fn collect_clear(&mut self)
        ensures
            final(self)@ == (LexView { collection: seq![], ..old(self)@ }).logged(
                "collect_clear()"@,
            ),
    {
        self.trace_text("collect_clear()");
        self.collection = Vec::new();
        self.collection_str = String::new();
    }

    /// Removes and returns the last collected symbol; `None` when the collection is
    /// empty.
    pub fn collect_pop(&mut self) -> (r: Option<char>)
        ensures
            old(self)@.collection.len() == 0 ==> r is None && logged_result(
                old(self)@,
                final(self)@,
                "collect_pop() -> "@,
            ),
            old(self)@.collection.len() > 0 ==> r == Some(old(self)@.collection.last())
                && logged_result(
                (LexView { collection: old(self)@.collection.drop_last(), ..old(self)@ }),
                final(self)@,
                "collect_pop() -> "@,
            ),
    {
        let option = self.collection.pop();
        let text = self.rendered(&option);
        self.trace_rendered_result("collect_pop() -> ", text.as_str());
        option
    }

    /// Appends `c` to the collection.
    pub fn collect_push(&mut self, c: char)
        ensures
            final(self)@ == (LexView { collection: old(self)@.collection.push(c), ..old(self)@ }).logged(
                "collect_push("@ + seq![c] + ")"@,
            ),
    {
        self.trace_char("collect_push(", c, ")");
        self.collection.push(c);
    }
}

} // verus!
