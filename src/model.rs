//! The mathematical model of a cursor, and the spec functions that its contracts use.
use vstd::prelude::*;

verus! {

/// What a cursor holds, as mathematical values.
pub struct LexView<S, T> {
    /// The symbols of the source, in order; never empty.
    pub symbols: Seq<char>,
    /// Index of the current symbol.
    pub position: nat,
    /// Index remembered by `mark`.
    pub marked: nat,
    /// The caller's mode value.
    pub state: S,
    /// The token stack, bottom first.
    pub tokens: Seq<T>,
    /// The scratch buffer of collected symbols.
    pub collection: Seq<char>,
    /// Whether operations append lines to the log.
    pub tracing: bool,
    /// The trace log, one line per entry, oldest first.
    pub log: Seq<Seq<char>>,
}

impl<S, T> LexView<S, T> {
    /// The index of the last symbol.
    pub open spec fn max_position(self) -> nat {
        (self.symbols.len() - 1) as nat
    }

    /// The invariant that every cursor keeps.
    pub open spec fn valid(self) -> bool {
        &&& self.symbols.len() >= 1
        &&& self.position <= self.max_position()
        &&& self.marked <= self.max_position()
    }

    /// The symbol under the cursor.
    pub open spec fn current(self) -> char {
        self.symbols[self.position as int]
    }

    /// The symbols from the first through the current one.
    pub open spec fn through_current(self) -> Seq<char> {
        self.symbols.subrange(0, self.position as int + 1)
    }

    /// The symbols from the current one through the last.
    pub open spec fn from_current(self) -> Seq<char> {
        self.symbols.subrange(self.position as int, self.symbols.len() as int)
    }

    /// The same cursor at another position.
    pub open spec fn at(self, p: nat) -> Self {
        LexView { position: p, ..self }
    }

    /// `p` clamped to the last index.
    pub open spec fn clamp(self, p: nat) -> nat {
        if p > self.max_position() {
            self.max_position()
        } else {
            p
        }
    }

    /// Position after one step forward: saturates at the last index.
    pub open spec fn forward_one(self) -> nat {
        if self.position < self.max_position() {
            self.position + 1
        } else {
            self.position
        }
    }

    /// Position after one step back: saturates at zero.
    pub open spec fn back_one(self) -> nat {
        if self.position > 0 {
            (self.position - 1) as nat
        } else {
            0
        }
    }

    /// Position after `n` steps forward.
    pub open spec fn forward_by(self, n: nat) -> nat {
        self.clamp(self.position + n)
    }

    /// Position after `n` steps back.
    pub open spec fn back_by(self, n: nat) -> nat {
        if self.position >= n {
            (self.position - n) as nat
        } else {
            0
        }
    }

    /// `p` is where a forward search for `c` that starts at `from` stops: the first index
    /// at or after `from` that holds `c`, or the last index where none does.
    pub open spec fn forward_stop(self, from: nat, c: char, p: nat) -> bool {
        &&& from <= p <= self.max_position()
        &&& forall|k: int| from <= k < p ==> self.symbols[k] != c
        &&& (self.symbols[p as int] == c || p == self.max_position())
    }

    /// `p` is where a backward search for `c` that starts at `from` stops: the last index
    /// at or before `from` that holds `c`, or zero where none does.
    pub open spec fn backward_stop(self, from: nat, c: char, p: nat) -> bool {
        &&& p <= from
        &&& forall|k: int| p < k <= from ==> self.symbols[k] != c
        &&& (self.symbols[p as int] == c || p == 0)
    }

    /// The cursor after `msg` was traced: one more log line when tracing is on.
    pub open spec fn logged(self, msg: Seq<char>) -> Self {
        if self.tracing {
            LexView { log: self.log.push(trace_line(self.log.len(), msg)), ..self }
        } else {
            self
        }
    }

    /// Symbols `a` through `b`, both included, in either order, after clamping both
    /// to the last index.
    pub open spec fn range_text(self, a: nat, b: nat) -> Seq<char> {
        let x = self.clamp(a);
        let y = self.clamp(b);
        if x <= y {
            self.symbols.subrange(x as int, y as int + 1)
        } else {
            self.symbols.subrange(y as int, x as int + 1)
        }
    }
}

/// `new` is `old` with one more log line, whose message is `prefix`, some text, and
/// `suffix`, when tracing is on; the text renders a value of the caller's type.
pub open spec fn logged_value<S, T>(
    old: LexView<S, T>,
    new: LexView<S, T>,
    prefix: Seq<char>,
    suffix: Seq<char>,
) -> bool {
    exists|d: Seq<char>| #[trigger] old.logged(prefix + d + suffix) == new
}

/// `new` is `old` with one more log line, whose message is `prefix` followed by some
/// text, when tracing is on; the text renders a value of the caller's type.
pub open spec fn logged_result<S, T>(old: LexView<S, T>, new: LexView<S, T>, prefix: Seq<char>) -> bool {
    exists|d: Seq<char>| #[trigger] old.logged(prefix + d) == new
}

/// The decimal digit for `d`, where `d < 10`.
pub open spec fn digit(d: nat) -> char {
    ((d + 48) as u32) as char
}

/// Decimal rendering of `n`, without leading zeros.
pub open spec fn decimal(n: nat) -> Seq<char>
    decreases n,
{
    if n < 10 {
        seq![digit(n)]
    } else {
        decimal(n / 10).push(digit(n % 10))
    }
}

/// `"true"` or `"false"`.
pub open spec fn bool_text(b: bool) -> Seq<char> {
    if b {
        "true"@
    } else {
        "false"@
    }
}

/// A trace line: its sequence number, a colon, the message and a line break.
pub open spec fn trace_line(n: nat, msg: Seq<char>) -> Seq<char> {
    decimal(n) + ":"@ + msg + "\n"@
}

/// All lines of a log, in order, joined.
pub open spec fn joined(log: Seq<Seq<char>>) -> Seq<char>
    decreases log.len(),
{
    if log.len() == 0 {
        Seq::empty()
    } else {
        joined(log.drop_last()) + log.last()
    }
}

/// Where the quote scanner stands after some prefix of the input.
pub struct QuoteScan {
    /// Inside an open `"` span.
    pub in_double: bool,
    /// Inside an open `'` span.
    pub in_single: bool,
    /// The previous symbol was an unescaped backslash.
    pub escaped: bool,
}

/// The scanner before any symbol.
pub open spec fn quote_start() -> QuoteScan {
    QuoteScan { in_double: false, in_single: false, escaped: false }
}

/// One symbol of the scan: an escaped symbol is skipped, a backslash escapes the next
/// one, and each kind of quote toggles its own flag.
pub open spec fn quote_step(q: QuoteScan, c: char) -> QuoteScan {
    if q.escaped {
        QuoteScan { escaped: false, ..q }
    } else if c == '\\' {
        QuoteScan { escaped: true, ..q }
    } else if c == '"' {
        QuoteScan { in_double: !q.in_double, ..q }
    } else if c == '\'' {
        QuoteScan { in_single: !q.in_single, ..q }
    } else {
        q
    }
}

/// The scanner after all of `s`.
pub open spec fn quote_scan(s: Seq<char>) -> QuoteScan
    decreases s.len(),
{
    if s.len() == 0 {
        quote_start()
    } else {
        quote_step(quote_scan(s.drop_last()), s.last())
    }
}

/// Whether the end of `s` lies inside an open quoted span of either kind.
pub open spec fn inside_quote(s: Seq<char>) -> bool {
    quote_scan(s).in_double || quote_scan(s).in_single
}

} // verus!
