use vstd::prelude::*;
use vstd::string::StringSliceAdditionalSpecFns;

verus! {

/// The answer of a sub-parse: the value and the position after it.
pub type ParseResult = Result<(i64, int), &'static str>;

pub open spec fn is_ascii_ws(c: u8) -> bool {
    c == 0x20 || c == 0x09 || c == 0x0A || c == 0x0C || c == 0x0D
}

pub open spec fn is_digit(c: u8) -> bool {
    0x30 <= c <= 0x39
}

/// First position at or after `p` that is not ASCII whitespace.
pub open spec fn skip_ws_spec(b: Seq<u8>, p: int) -> int
    decreases b.len() - p,
{
    if p < 0 || p >= b.len() || !is_ascii_ws(b[p]) {
        p
    } else {
        skip_ws_spec(b, p + 1)
    }
}

/// End of the run of digits that starts at `p`.
pub open spec fn digits_end(b: Seq<u8>, p: int) -> int
    decreases b.len() - p,
{
    if p < 0 || p >= b.len() || !is_digit(b[p]) {
        p
    } else {
        digits_end(b, p + 1)
    }
}

/// Decimal value of the digits `b[q..e]`.
pub open spec fn decimal(b: Seq<u8>, q: int, e: int) -> int
    decreases e - q,
{
    if e <= q {
        0
    } else {
        decimal(b, q, e - 1) * 10 + (b[e - 1] - 0x30)
    }
}

/// Whether the byte at `p` (after whitespace) is `ch`.
pub open spec fn next_is(b: Seq<u8>, p: int, ch: u8) -> bool {
    let q = skip_ws_spec(b, p);
    0 <= q < b.len() && b[q] == ch
}

/// number := digit+, after optional whitespace.
pub open spec fn number_spec(b: Seq<u8>, p: int) -> ParseResult {
    let q = skip_ws_spec(b, p);
    let e = digits_end(b, q);
    if e == q {
        Err("expected number")
    } else if decimal(b, q, e) > i64::MAX {
        Err("integer overflow")
    } else {
        Ok((decimal(b, q, e) as i64, e))
    }
}

/// factor := '+' factor | '-' factor | '(' expr ')' | number
pub open spec fn factor_spec(b: Seq<u8>, p: int) -> ParseResult
    decreases b.len() - p, 0int,
{
    let q = skip_ws_spec(b, p);
    if p < 0 || q < p {
        Err("expected number")
    } else if next_is(b, p, 0x2B) {
        factor_spec(b, q + 1)
    } else if next_is(b, p, 0x2D) {
        match factor_spec(b, q + 1) {
            Ok((v, r)) => if v == i64::MIN {
                Err("integer overflow")
            } else {
                Ok((-v as i64, r))
            },
            Err(e) => Err(e),
        }
    } else if next_is(b, p, 0x28) {
        match expr_spec(b, q + 1) {
            Ok((v, r)) => if next_is(b, r, 0x29) {
                Ok((v, skip_ws_spec(b, r) + 1))
            } else {
                Err("missing closing ')'")
            },
            Err(e) => Err(e),
        }
    } else {
        number_spec(b, q)
    }
}

/// The value of `lhs op rhs` for a multiplicative operator, or the error.
pub open spec fn mul_op(op: u8, lhs: i64, rhs: i64) -> Result<i64, &'static str> {
    if op == 0x2A {
        match lhs.checked_mul(rhs) {
            Some(v) => Ok(v),
            None => Err("integer overflow"),
        }
    } else if rhs == 0 {
        Err("division by zero")
    } else if op == 0x2F {
        match lhs.checked_div(rhs) {
            Some(v) => Ok(v),
            None => Err("integer overflow"),
        }
    } else {
        match lhs.checked_rem(rhs) {
            Some(v) => Ok(v),
            None => Err("integer overflow"),
        }
    }
}

/// The value of `lhs op rhs` for an additive operator, or the error.
pub open spec fn add_op(op: u8, lhs: i64, rhs: i64) -> Result<i64, &'static str> {
    if op == 0x2B {
        match lhs.checked_add(rhs) {
            Some(v) => Ok(v),
            None => Err("integer overflow"),
        }
    } else {
        match lhs.checked_sub(rhs) {
            Some(v) => Ok(v),
            None => Err("integer overflow"),
        }
    }
}

pub open spec fn mul_op_at(b: Seq<u8>, p: int) -> Option<u8> {
    if next_is(b, p, 0x2A) {
        Some(0x2Au8)
    } else if next_is(b, p, 0x2F) {
        Some(0x2Fu8)
    } else if next_is(b, p, 0x25) {
        Some(0x25u8)
    } else {
        None
    }
}

pub open spec fn add_op_at(b: Seq<u8>, p: int) -> Option<u8> {
    if next_is(b, p, 0x2B) {
        Some(0x2Bu8)
    } else if next_is(b, p, 0x2D) {
        Some(0x2Du8)
    } else {
        None
    }
}

/// The rest of a term after a factor that ended at `p` with value `acc`:
/// ( ('*' | '/' | '%') factor )*, evaluated left to right. (Every factor
/// ends after its first byte, so the continuation always lies further on.)
pub open spec fn term_rest(b: Seq<u8>, p: int, acc: i64) -> ParseResult
    decreases b.len() - p, 1int,
{
    match mul_op_at(b, p) {
        None => Ok((acc, skip_ws_spec(b, p))),
        Some(op) => {
            let q = skip_ws_spec(b, p);
            if p < 0 || q < p {
                Err("expected number")
            } else {
                match factor_spec(b, q + 1) {
                    Err(e) => Err(e),
                    Ok((rhs, r)) => match mul_op(op, acc, rhs) {
                        Err(e) => Err(e),
                        Ok(v) => if p < r <= b.len() {
                            term_rest(b, r, v)
                        } else {
                            Err("expected number")
                        },
                    },
                }
            }
        },
    }
}

/// term := factor ( ('*' | '/' | '%') factor )*
pub open spec fn term_spec(b: Seq<u8>, p: int) -> ParseResult
    decreases b.len() - p, 2int,
{
    if p < 0 {
        Err("expected number")
    } else {
        match factor_spec(b, p) {
            Err(e) => Err(e),
            Ok((v, r)) => if p < r <= b.len() {
                term_rest(b, r, v)
            } else {
                Err("expected number")
            },
        }
    }
}

/// The rest of an expression after a term that ended at `p` with value
/// `acc`: ( ('+' | '-') term )*, evaluated left to right.
pub open spec fn expr_rest(b: Seq<u8>, p: int, acc: i64) -> ParseResult
    decreases b.len() - p, 3int,
{
    match add_op_at(b, p) {
        None => Ok((acc, skip_ws_spec(b, p))),
        Some(op) => {
            let q = skip_ws_spec(b, p);
            if p < 0 || q < p {
                Err("expected number")
            } else {
                match term_spec(b, q + 1) {
                    Err(e) => Err(e),
                    Ok((rhs, r)) => match add_op(op, acc, rhs) {
                        Err(e) => Err(e),
                        Ok(v) => if p < r <= b.len() {
                            expr_rest(b, r, v)
                        } else {
                            Err("expected number")
                        },
                    },
                }
            }
        },
    }
}

/// expr := term ( ('+' | '-') term )*
pub open spec fn expr_spec(b: Seq<u8>, p: int) -> ParseResult
    decreases b.len() - p, 4int,
{
    if p < 0 {
        Err("expected number")
    } else {
        match term_spec(b, p) {
            Err(e) => Err(e),
            Ok((v, r)) => if p < r <= b.len() {
                expr_rest(b, r, v)
            } else {
                Err("expected number")
            },
        }
    }
}

/// The value of a whole `calc` expression: an `expr` followed by nothing
/// but whitespace.
pub open spec fn eval_spec(b: Seq<u8>) -> Result<i64, &'static str> {
    match expr_spec(b, 0) {
        Err(e) => Err(e),
        Ok((v, r)) => if skip_ws_spec(b, r) == b.len() {
            Ok(v)
        } else {
            Err("unexpected trailing input")
        },
    }
}


/// Whether a sub-parse answered as its specification says: on success the
/// value and the position after it, otherwise the same error.
pub open spec fn agrees(spec: ParseResult, r: Result<i64, &'static str>, pos: int) -> bool {
    match spec {
        Ok((v, p)) => r == Ok::<i64, &'static str>(v) && pos == p,
        Err(e) => r == Err::<i64, &'static str>(e),
    }
}

proof fn lemma_skip_ws_bounds(b: Seq<u8>, p: int)
    requires
        0 <= p <= b.len(),
    ensures
        p <= skip_ws_spec(b, p) <= b.len(),
        skip_ws_spec(b, p) < b.len() ==> !is_ascii_ws(b[skip_ws_spec(b, p)]),
        skip_ws_spec(b, skip_ws_spec(b, p)) == skip_ws_spec(b, p),
    decreases b.len() - p,
{
    if p < b.len() && is_ascii_ws(b[p]) {
        lemma_skip_ws_bounds(b, p + 1);
    }
}

proof fn lemma_digits_end(b: Seq<u8>, q: int, e: int)
    requires
        0 <= q <= e <= b.len(),
        forall|k: int| q <= k < e ==> is_digit(#[trigger] b[k]),
        e == b.len() || !is_digit(b[e]),
    ensures
        digits_end(b, q) == e,
    decreases e - q,
{
    if q < e {
        lemma_digits_end(b, q + 1, e);
    }
}

proof fn lemma_decimal_mono(b: Seq<u8>, q: int, e1: int, e2: int)
    requires
        q <= e1 <= e2,
        forall|k: int| q <= k < e2 ==> is_digit(#[trigger] b[k]),
    ensures
        0 <= decimal(b, q, e1) <= decimal(b, q, e2),
    decreases e2 - q,
{
    if e2 > q {
        if e1 < e2 {
            lemma_decimal_mono(b, q, e1, e2 - 1);
        } else {
            lemma_decimal_mono(b, q, e1 - 1, e2 - 1);
        }
    }
}

/// Recursive-descent evaluator for `calc` expressions over the bytes of the
/// expression text.
pub struct CalcParser<'a> {
    bytes: &'a [u8],
    pos: usize,
}

impl<'a> View for CalcParser<'a> {
    type V = (Seq<u8>, int);

    closed spec fn view(&self) -> (Seq<u8>, int) {
        (self.bytes@, self.pos as int)
    }
}

impl<'a> CalcParser<'a> {
    pub closed spec fn inv(&self) -> bool {
        self.pos <= self.bytes@.len()
    }

    pub fn new(expr: &'a str) -> (p: CalcParser<'a>)
        ensures
            p@ == (expr.spec_bytes(), 0int),
            p.inv(),
    {
        CalcParser { bytes: expr.as_bytes(), pos: 0 }
    }

    pub fn skip_ws(&mut self)
        requires
            old(self).inv(),
        ensures
            final(self).inv(),
            final(self)@ == (old(self)@.0, skip_ws_spec(old(self)@.0, old(self)@.1)),
    {
        let n = self.bytes.len();
        while self.pos < n && (self.bytes[self.pos] == 0x20 || self.bytes[self.pos] == 0x09
            || self.bytes[self.pos] == 0x0A || self.bytes[self.pos] == 0x0C || self.bytes[self.pos]
            == 0x0D)
            invariant
                n == self.bytes@.len(),
                old(self)@.1 <= self.pos <= n,
                self.bytes@ == old(self)@.0,
                skip_ws_spec(self.bytes@, self.pos as int) == skip_ws_spec(
                    self.bytes@,
                    old(self)@.1,
                ),
            decreases n - self.pos,
        {
            self.pos += 1;
        }
    }

    pub fn consume(&mut self, ch: u8) -> (r: bool)
        requires
            old(self).inv(),
        ensures
            final(self).inv(),
            r == next_is(old(self)@.0, old(self)@.1, ch),
            final(self)@.0 == old(self)@.0,
            final(self)@.1 == skip_ws_spec(old(self)@.0, old(self)@.1) + (if r {
                1int
            } else {
                0int
            }),
    {
        self.skip_ws();
        if self.pos < self.bytes.len() && self.bytes[self.pos] == ch {
            self.pos += 1;
            true
        } else {
            false
        }
    }

    pub fn parse_number(&mut self) -> (r: Result<i64, &'static str>)
        requires
            old(self).inv(),
        ensures
            final(self).inv(),
            final(self)@.0 == old(self)@.0,
            agrees(number_spec(old(self)@.0, old(self)@.1), r, final(self)@.1),
            r is Ok ==> old(self)@.1 < final(self)@.1,
    {
        let ghost b = self.bytes@;
        proof {
            lemma_skip_ws_bounds(b, self.pos as int);
        }
        self.skip_ws();
        let start = self.pos;
        let n = self.bytes.len();
        let mut value: i64 = 0;
        while self.pos < n && 0x30 <= self.bytes[self.pos] && self.bytes[self.pos] <= 0x39
            invariant
                n == b.len(),
                self.bytes@ == b,
                b == old(self)@.0,
                start <= self.pos <= n,
                start == skip_ws_spec(b, old(self)@.1),
                forall|k: int| start <= k < self.pos ==> is_digit(#[trigger] b[k]),
                value as int == decimal(b, start as int, self.pos as int),
            decreases n - self.pos,
        {
            let digit = (self.bytes[self.pos] - 0x30) as i64;
            proof {
                lemma_decimal_mono(b, start as int, self.pos as int, self.pos as int);
            }
            let grown = match value.checked_mul(10) {
                Some(v) => v,
                None => {
                    proof {
                        self.lemma_overflow_persists(b, start as int);
                    }
                    return Err("integer overflow");
                },
            };
            value = match grown.checked_add(digit) {
                Some(v) => v,
                None => {
                    proof {
                        self.lemma_overflow_persists(b, start as int);
                    }
                    return Err("integer overflow");
                },
            };
            self.pos += 1;
        }
        proof {
            lemma_digits_end(b, start as int, self.pos as int);
        }
        if self.pos == start {
            return Err("expected number");
        }
        Ok(value)
    }

    pub fn parse_factor(&mut self) -> (r: Result<i64, &'static str>)
        requires
            old(self).inv(),
        ensures
            final(self).inv(),
            final(self)@.0 == old(self)@.0,
            agrees(factor_spec(old(self)@.0, old(self)@.1), r, final(self)@.1),
            r is Ok ==> old(self)@.1 < final(self)@.1,
        decreases old(self)@.0.len() - old(self)@.1, 0int,
    {
        let ghost b = self.bytes@;
        let ghost p = self.pos as int;
        proof {
            lemma_skip_ws_bounds(b, p);
        }
        if self.consume(0x2B) {
            return self.parse_factor();
        }
        if self.consume(0x2D) {
            return match self.parse_factor() {
                Ok(v) => if v == i64::MIN {
                    Err("integer overflow")
                } else {
                    Ok(-v)
                },
                Err(e) => Err(e),
            };
        }
        if self.consume(0x28) {
            let v = match self.parse_expr() {
                Ok(v) => v,
                Err(e) => {
                    return Err(e);
                },
            };
            let ghost r = self.pos as int;
            proof {
                lemma_skip_ws_bounds(b, r);
            }
            if !self.consume(0x29) {
                return Err("missing closing ')'");
            }
            return Ok(v);
        }
        self.parse_number()
    }

    pub fn parse_term(&mut self) -> (r: Result<i64, &'static str>)
        requires
            old(self).inv(),
        ensures
            final(self).inv(),
            final(self)@.0 == old(self)@.0,
            agrees(term_spec(old(self)@.0, old(self)@.1), r, final(self)@.1),
            r is Ok ==> old(self)@.1 < final(self)@.1,
        decreases old(self)@.0.len() - old(self)@.1, 1int,
    {
        let ghost b = self.bytes@;
        let ghost p0 = self.pos as int;
        let mut value = match self.parse_factor() {
            Ok(v) => v,
            Err(e) => {
                return Err(e);
            },
        };
        loop
            invariant
                self.inv(),
                self.bytes@ == b,
                b == old(self)@.0,
                p0 == old(self)@.1,
                p0 < self.pos <= b.len(),
                term_spec(b, p0) == term_rest(b, self.pos as int, value),
            decreases b.len() - self.pos,
        {
            let ghost p = self.pos as int;
            proof {
                lemma_skip_ws_bounds(b, p);
            }
            let op: u8 = if self.consume(0x2A) {
                0x2A
            } else if self.consume(0x2F) {
                0x2F
            } else if self.consume(0x25) {
                0x25
            } else {
                return Ok(value);
            };
            assert(mul_op_at(b, p) == Some(op));
            let rhs = match self.parse_factor() {
                Ok(v) => v,
                Err(e) => {
                    return Err(e);
                },
            };
            value = if op == 0x2A {
                match value.checked_mul(rhs) {
                    Some(v) => v,
                    None => {
                        return Err("integer overflow");
                    },
                }
            } else {
                if rhs == 0 {
                    return Err("division by zero");
                }
                if op == 0x2F {
                    match value.checked_div(rhs) {
                        Some(v) => v,
                        None => {
                            return Err("integer overflow");
                        },
                    }
                } else {
                    match value.checked_rem(rhs) {
                        Some(v) => v,
                        None => {
                            return Err("integer overflow");
                        },
                    }
                }
            };
        }
    }

    pub fn parse_expr(&mut self) -> (r: Result<i64, &'static str>)
        requires
            old(self).inv(),
        ensures
            final(self).inv(),
            final(self)@.0 == old(self)@.0,
            agrees(expr_spec(old(self)@.0, old(self)@.1), r, final(self)@.1),
            r is Ok ==> old(self)@.1 < final(self)@.1,
        decreases old(self)@.0.len() - old(self)@.1, 2int,
    {
        let ghost b = self.bytes@;
        let ghost p0 = self.pos as int;
        let mut value = match self.parse_term() {
            Ok(v) => v,
            Err(e) => {
                return Err(e);
            },
        };
        loop
            invariant
                self.inv(),
                self.bytes@ == b,
                b == old(self)@.0,
                p0 == old(self)@.1,
                p0 < self.pos <= b.len(),
                expr_spec(b, p0) == expr_rest(b, self.pos as int, value),
            decreases b.len() - self.pos,
        {
            let ghost p = self.pos as int;
            proof {
                lemma_skip_ws_bounds(b, p);
            }
            let op: u8 = if self.consume(0x2B) {
                0x2B
            } else if self.consume(0x2D) {
                0x2D
            } else {
                return Ok(value);
            };
            assert(add_op_at(b, p) == Some(op));
            let rhs = match self.parse_term() {
                Ok(v) => v,
                Err(e) => {
                    return Err(e);
                },
            };
            value = if op == 0x2B {
                match value.checked_add(rhs) {
                    Some(v) => v,
                    None => {
                        return Err("integer overflow");
                    },
                }
            } else {
                match value.checked_sub(rhs) {
                    Some(v) => v,
                    None => {
                        return Err("integer overflow");
                    },
                }
            };
        }
    }

    /// Once the digits read so far, with the next one, exceed `i64::MAX`, so
    /// does the whole run of digits.
    proof fn lemma_overflow_persists(&self, b: Seq<u8>, start: int)
        requires
            self.bytes@ == b,
            0 <= start <= self.pos < b.len(),
            is_digit(b[self.pos as int]),
            forall|k: int| start <= k < self.pos ==> is_digit(#[trigger] b[k]),
            decimal(b, start, self.pos as int) * 10 + (b[self.pos as int] - 0x30) > i64::MAX,
        ensures
            decimal(b, start, digits_end(b, start)) > i64::MAX,
    {
        let e = self.digits_end_from(b, start);
        lemma_decimal_mono(b, start, self.pos as int + 1, e);
    }

    proof fn digits_end_from(&self, b: Seq<u8>, start: int) -> (e: int)
        requires
            0 <= start <= self.pos < b.len(),
            is_digit(b[self.pos as int]),
            forall|k: int| start <= k < self.pos ==> is_digit(#[trigger] b[k]),
        ensures
            e == digits_end(b, start),
            self.pos < e <= b.len(),
            forall|k: int| start <= k < e ==> is_digit(#[trigger] b[k]),
        decreases b.len() - start,
    {
        if start < self.pos {
            self.digits_end_from(b, start + 1)
        } else {
            lemma_digits_run(b, start + 1);
            assert(digits_end(b, start) == digits_end(b, start + 1));
            digits_end(b, start)
        }
    }
}

/// Evaluates a `calc` expression: integer `+ - * / %` with the usual
/// precedence, unary signs and parentheses, in checked 64-bit arithmetic.
pub fn eval_calc_expression(expr: &str) -> (r: Result<i64, &'static str>)
    ensures
        r == eval_spec(expr.spec_bytes()),
{
    let mut parser = CalcParser::new(expr);
    let value = match parser.parse_expr() {
        Ok(v) => v,
        Err(e) => {
            return Err(e);
        },
    };
    parser.skip_ws();
    if parser.pos != parser.bytes.len() {
        return Err("unexpected trailing input");
    }
    Ok(value)
}

proof fn lemma_digits_run(b: Seq<u8>, q: int)
    requires
        0 <= q <= b.len(),
    ensures
        q <= digits_end(b, q) <= b.len(),
        forall|k: int| q <= k < digits_end(b, q) ==> is_digit(#[trigger] b[k]),
    decreases b.len() - q,
{
    if q < b.len() && is_digit(b[q]) {
        lemma_digits_run(b, q + 1);
    }
}

} // verus!

verus! {

// ---------------------------------------------------------------------------
// The grammar of `calc` expressions, and the law that the evaluator follows it
//
//   expr   := term ( ('+' | '-') term )*
//   term   := factor ( ('*' | '/' | '%') factor )*
//   factor := '+' factor | '-' factor | '(' expr ')' | digit+
//
// with ASCII whitespace allowed before every token.

/// `b[p..q]` is whitespace only.
pub open spec fn ws_between(b: Seq<u8>, p: int, q: int) -> bool {
    0 <= p <= q <= b.len() && forall|k: int| p <= k < q ==> is_ascii_ws(#[trigger] b[k])
}

/// After whitespace from `p`, the token at `t` is the byte `c`.
pub open spec fn token_at(b: Seq<u8>, p: int, t: int, c: u8) -> bool {
    ws_between(b, p, t) && t < b.len() && b[t] == c
}

pub open spec fn is_mul_byte(c: u8) -> bool {
    c == 0x2A || c == 0x2F || c == 0x25
}

pub open spec fn is_add_byte(c: u8) -> bool {
    c == 0x2B || c == 0x2D
}

/// A derivation tree of the grammar, with the positions of its tokens.
pub ghost enum Derivation {
    /// `digit+`, the digits starting at the position given.
    Number(int),
    /// `'+' factor`, the sign at the position given.
    Plus(int, Box<Derivation>),
    /// `'-' factor`, the sign at the position given.
    Minus(int, Box<Derivation>),
    /// `'(' expr ')'`: the opening parenthesis at the first position, the
    /// expression ending at the second.
    Paren(int, int, Box<Derivation>),
    /// A term or an expression: the first operand, ending at the position
    /// given, then the operators and operands after it.
    Chain(int, Box<Derivation>, Box<Derivation>),
    /// No more operators.
    Done,
    /// One more operator, at the first position, and its operand, ending at
    /// the second; then the rest.
    More(int, int, Box<Derivation>, Box<Derivation>),
}

/// The value of the `factor` that `d` derives from `b[p..q]` (whitespace
/// first, the last token ending at `q`), or `None` if `d` derives no factor
/// there or a value does not fit.
pub open spec fn factor_value(d: Derivation, b: Seq<u8>, p: int, q: int) -> Option<i64>
    decreases d,
{
    match d {
        Derivation::Number(t) => if ws_between(b, p, t) && t < q <= b.len() && (forall|k: int|
            t <= k < q ==> is_digit(#[trigger] b[k])) && decimal(b, t, q) <= i64::MAX {
            Some(decimal(b, t, q) as i64)
        } else {
            None
        },
        Derivation::Plus(t, f) => if token_at(b, p, t, 0x2B) && t + 1 < q {
            factor_value(*f, b, t + 1, q)
        } else {
            None
        },
        Derivation::Minus(t, f) => if token_at(b, p, t, 0x2D) && t + 1 < q {
            match factor_value(*f, b, t + 1, q) {
                Some(w) => if w != i64::MIN {
                    Some((-w) as i64)
                } else {
                    None
                },
                None => None,
            }
        } else {
            None
        },
        Derivation::Paren(t, r, e) => if token_at(b, p, t, 0x28) && t + 1 < r < q && token_at(
            b,
            r,
            q - 1,
            0x29,
        ) {
            expr_value(*e, b, t + 1, r)
        } else {
            None
        },
        _ => None,
    }
}

/// The value of `( ('*' | '/' | '%') factor )*` derived by `d` from `b[r..q]`
/// after a prefix of value `acc`, evaluated left to right; `None` also on a
/// division by zero or a result that does not fit.
pub open spec fn term_tail_value(d: Derivation, b: Seq<u8>, r: int, acc: i64, q: int) -> Option<i64>
    decreases d,
{
    match d {
        Derivation::Done => if r == q && 0 <= r <= b.len() {
            Some(acc)
        } else {
            None
        },
        Derivation::More(t, s, f, rest) => if ws_between(b, r, t) && t < b.len() && is_mul_byte(b[t])
            && t + 1 < s <= q {
            match factor_value(*f, b, t + 1, s) {
                Some(w) => match mul_op(b[t], acc, w) {
                    Ok(x) => term_tail_value(*rest, b, s, x, q),
                    Err(_) => None,
                },
                None => None,
            }
        } else {
            None
        },
        _ => None,
    }
}

/// The value of the `term` that `d` derives from `b[p..q]`.
pub open spec fn term_value(d: Derivation, b: Seq<u8>, p: int, q: int) -> Option<i64>
    decreases d,
{
    match d {
        Derivation::Chain(r, f, tail) => if p < r <= q {
            match factor_value(*f, b, p, r) {
                Some(w) => term_tail_value(*tail, b, r, w, q),
                None => None,
            }
        } else {
            None
        },
        _ => None,
    }
}

/// The value of `( ('+' | '-') term )*` derived by `d` from `b[r..q]` after
/// a prefix of value `acc`, evaluated left to right.
pub open spec fn expr_tail_value(d: Derivation, b: Seq<u8>, r: int, acc: i64, q: int) -> Option<i64>
    decreases d,
{
    match d {
        Derivation::Done => if r == q && 0 <= r <= b.len() {
            Some(acc)
        } else {
            None
        },
        Derivation::More(t, s, f, rest) => if ws_between(b, r, t) && t < b.len() && is_add_byte(b[t])
            && t + 1 < s <= q {
            match term_value(*f, b, t + 1, s) {
                Some(w) => match add_op(b[t], acc, w) {
                    Ok(x) => expr_tail_value(*rest, b, s, x, q),
                    Err(_) => None,
                },
                None => None,
            }
        } else {
            None
        },
        _ => None,
    }
}

/// The value of the `expr` that `d` derives from `b[p..q]`.
pub open spec fn expr_value(d: Derivation, b: Seq<u8>, p: int, q: int) -> Option<i64>
    decreases d,
{
    match d {
        Derivation::Chain(r, f, tail) => if p < r <= q {
            match term_value(*f, b, p, r) {
                Some(w) => expr_tail_value(*tail, b, r, w, q),
                None => None,
            }
        } else {
            None
        },
        _ => None,
    }
}

/// The text derives from `expr`, followed by nothing but whitespace, with
/// the value `v`.
pub open spec fn derives_calc(b: Seq<u8>, v: i64) -> bool {
    exists|d: Derivation, q: int|
        #![trigger expr_value(d, b, 0, q)]
        expr_value(d, b, 0, q) == Some(v) && ws_between(b, q, b.len() as int)
}


proof fn lemma_skip_to(b: Seq<u8>, p: int, t: int)
    requires
        ws_between(b, p, t),
        t == b.len() || !is_ascii_ws(b[t]),
    ensures
        skip_ws_spec(b, p) == t,
    decreases t - p,
{
    if p < t {
        lemma_skip_to(b, p + 1, t);
    }
}

proof fn lemma_ws_to_skip(b: Seq<u8>, p: int)
    requires
        0 <= p <= b.len(),
    ensures
        ws_between(b, p, skip_ws_spec(b, p)),
        p <= skip_ws_spec(b, p) <= b.len(),
        skip_ws_spec(b, skip_ws_spec(b, p)) == skip_ws_spec(b, p),
        skip_ws_spec(b, p) < b.len() ==> !is_ascii_ws(b[skip_ws_spec(b, p)]),
    decreases b.len() - p,
{
    lemma_skip_ws_bounds(b, p);
    if p < b.len() && is_ascii_ws(b[p]) {
        lemma_ws_to_skip(b, p + 1);
    }
}

/// No digit directly at `q`.
pub open spec fn ends_number(b: Seq<u8>, q: int) -> bool {
    0 <= q <= b.len() && (q == b.len() || !is_digit(b[q]))
}

/// What may follow a term: no digit directly, and no `*`, `/` or `%` next.
pub open spec fn ends_term(b: Seq<u8>, q: int) -> bool {
    ends_number(b, q) && mul_op_at(b, q) is None
}

/// What may follow an expression: also no `+` or `-` next.
pub open spec fn ends_expr(b: Seq<u8>, q: int) -> bool {
    ends_term(b, q) && add_op_at(b, q) is None
}

proof fn lemma_factor_bounds(d: Derivation, b: Seq<u8>, p: int, q: int)
    requires
        factor_value(d, b, p, q) is Some,
    ensures
        0 <= p < q <= b.len(),
    decreases d,
{
    match d {
        Derivation::Plus(t, f) => lemma_factor_bounds(*f, b, t + 1, q),
        Derivation::Minus(t, f) => lemma_factor_bounds(*f, b, t + 1, q),
        _ => {},
    }
}

/// A tail ends no earlier than it starts, and when nothing follows its end
/// that continues a number, nothing continues one at its start either.
proof fn lemma_term_tail_bounds(d: Derivation, b: Seq<u8>, r: int, acc: i64, q: int)
    requires
        term_tail_value(d, b, r, acc, q) is Some,
    ensures
        0 <= r <= q <= b.len(),
        ends_term(b, q) ==> ends_number(b, r),
    decreases d,
{
    match d {
        Derivation::More(t, s, f, rest) => {
            let w = factor_value(*f, b, t + 1, s).unwrap();
            lemma_term_tail_bounds(*rest, b, s, mul_op(b[t], acc, w).unwrap(), q);
            if r < t {
                assert(is_ascii_ws(b[r]));
            }
        },
        _ => {},
    }
}

proof fn lemma_expr_tail_bounds(d: Derivation, b: Seq<u8>, r: int, acc: i64, q: int)
    requires
        expr_tail_value(d, b, r, acc, q) is Some,
    ensures
        0 <= r <= q <= b.len(),
        ends_expr(b, q) ==> ends_term(b, r),
    decreases d,
{
    match d {
        Derivation::More(t, s, f, rest) => {
            let w = term_value(*f, b, t + 1, s).unwrap();
            lemma_expr_tail_bounds(*rest, b, s, add_op(b[t], acc, w).unwrap(), q);
            if r < t {
                assert(is_ascii_ws(b[r]));
            }
            lemma_skip_to(b, r, t);
        },
        _ => {},
    }
}

proof fn lemma_term_bounds(d: Derivation, b: Seq<u8>, p: int, q: int)
    requires
        term_value(d, b, p, q) is Some,
    ensures
        0 <= p < q <= b.len(),
{
    if let Derivation::Chain(r, f, tail) = d {
        lemma_factor_bounds(*f, b, p, r);
        lemma_term_tail_bounds(*tail, b, r, factor_value(*f, b, p, r).unwrap(), q);
    }
}

proof fn lemma_expr_bounds(d: Derivation, b: Seq<u8>, p: int, q: int)
    requires
        expr_value(d, b, p, q) is Some,
    ensures
        0 <= p < q <= b.len(),
{
    if let Derivation::Chain(r, f, tail) = d {
        lemma_term_bounds(*f, b, p, r);
        lemma_expr_tail_bounds(*tail, b, r, term_value(*f, b, p, r).unwrap(), q);
    }
}


/// A derived factor, where no digit follows, is what the evaluator reads.
proof fn lemma_factor_complete(d: Derivation, b: Seq<u8>, p: int, q: int)
    requires
        factor_value(d, b, p, q) is Some,
        ends_number(b, q),
    ensures
        factor_spec(b, p) == Ok::<(i64, int), &'static str>((factor_value(d, b, p, q).unwrap(), q)),
    decreases d,
{
    lemma_factor_bounds(d, b, p, q);
    match d {
        Derivation::Number(t) => {
            lemma_skip_to(b, p, t);
            lemma_skip_to(b, t, t);
            lemma_digits_end(b, t, q);
        },
        Derivation::Plus(t, f) => {
            lemma_skip_to(b, p, t);
            lemma_factor_complete(*f, b, t + 1, q);
        },
        Derivation::Minus(t, f) => {
            lemma_skip_to(b, p, t);
            lemma_factor_complete(*f, b, t + 1, q);
        },
        Derivation::Paren(t, r, e) => {
            lemma_skip_to(b, p, t);
            lemma_skip_to(b, r, q - 1);
            lemma_skip_to(b, q - 1, q - 1);
            if r < q - 1 {
                assert(is_ascii_ws(b[r]));
            }
            assert(ends_expr(b, r));
            lemma_expr_complete(*e, b, t + 1, r);
        },
        _ => {},
    }
}

proof fn lemma_term_tail_complete(d: Derivation, b: Seq<u8>, r: int, acc: i64, q: int)
    requires
        term_tail_value(d, b, r, acc, q) is Some,
        ends_term(b, q),
    ensures
        term_rest(b, r, acc) == Ok::<(i64, int), &'static str>(
            (term_tail_value(d, b, r, acc, q).unwrap(), skip_ws_spec(b, q)),
        ),
    decreases d,
{
    match d {
        Derivation::More(t, s, f, rest) => {
            lemma_skip_to(b, r, t);
            let w = factor_value(*f, b, t + 1, s).unwrap();
            let x = mul_op(b[t], acc, w).unwrap();
            lemma_term_tail_bounds(*rest, b, s, x, q);
            lemma_factor_complete(*f, b, t + 1, s);
            lemma_term_tail_complete(*rest, b, s, x, q);
            assert(mul_op_at(b, r) == Some(b[t]));
        },
        _ => {},
    }
}

proof fn lemma_term_complete(d: Derivation, b: Seq<u8>, p: int, q: int)
    requires
        term_value(d, b, p, q) is Some,
        ends_term(b, q),
    ensures
        term_spec(b, p) == Ok::<(i64, int), &'static str>(
            (term_value(d, b, p, q).unwrap(), skip_ws_spec(b, q)),
        ),
    decreases d,
{
    if let Derivation::Chain(r, f, tail) = d {
        let w = factor_value(*f, b, p, r).unwrap();
        lemma_factor_bounds(*f, b, p, r);
        lemma_term_tail_bounds(*tail, b, r, w, q);
        lemma_factor_complete(*f, b, p, r);
        lemma_term_tail_complete(*tail, b, r, w, q);
    }
}

/// A derived tail read from any point in the whitespace before it.
proof fn lemma_expr_tail_complete(d: Derivation, b: Seq<u8>, r: int, acc: i64, q: int, r2: int)
    requires
        expr_tail_value(d, b, r, acc, q) is Some,
        ends_expr(b, q),
        ws_between(b, r, r2),
    ensures
        expr_rest(b, r2, acc) == Ok::<(i64, int), &'static str>(
            (expr_tail_value(d, b, r, acc, q).unwrap(), skip_ws_spec(b, q)),
        ),
    decreases d,
{
    match d {
        Derivation::Done => {
            lemma_ws_to_skip(b, q);
            assert(ws_between(b, r2, skip_ws_spec(b, q)));
            let e = skip_ws_spec(b, q);
            if e < b.len() {
                lemma_skip_to(b, r2, e);
            } else {
                lemma_skip_to(b, r2, e);
            }
        },
        Derivation::More(t, s, f, rest) => {
            if r2 > t {
                assert(is_ascii_ws(b[t]));
            }
            lemma_skip_to(b, r2, t);
            let w = term_value(*f, b, t + 1, s).unwrap();
            let x = add_op(b[t], acc, w).unwrap();
            lemma_expr_tail_bounds(*rest, b, s, x, q);
            lemma_term_bounds(*f, b, t + 1, s);
            lemma_term_complete(*f, b, t + 1, s);
            lemma_ws_to_skip(b, s);
            lemma_expr_tail_complete(*rest, b, s, x, q, skip_ws_spec(b, s));
            assert(add_op_at(b, r2) == Some(b[t]));
        },
        _ => {},
    }
}

proof fn lemma_expr_complete(d: Derivation, b: Seq<u8>, p: int, q: int)
    requires
        expr_value(d, b, p, q) is Some,
        ends_expr(b, q),
    ensures
        expr_spec(b, p) == Ok::<(i64, int), &'static str>(
            (expr_value(d, b, p, q).unwrap(), skip_ws_spec(b, q)),
        ),
    decreases d,
{
    if let Derivation::Chain(r, f, tail) = d {
        let w = term_value(*f, b, p, r).unwrap();
        lemma_term_bounds(*f, b, p, r);
        lemma_expr_tail_bounds(*tail, b, r, w, q);
        lemma_term_complete(*f, b, p, r);
        lemma_ws_to_skip(b, r);
        lemma_expr_tail_complete(*tail, b, r, w, q, skip_ws_spec(b, r));
    }
}


/// What the evaluator reads as a factor has a derivation.
proof fn lemma_factor_sound(b: Seq<u8>, p: int) -> (d: Derivation)
    requires
        0 <= p <= b.len(),
    ensures
        factor_spec(b, p) matches Ok((v, r)) ==> p < r <= b.len() && factor_value(d, b, p, r) == Some(
            v,
        ),
    decreases b.len() - p, 0int,
{
    lemma_ws_to_skip(b, p);
    let t = skip_ws_spec(b, p);
    if next_is(b, p, 0x2B) {
        let f = lemma_factor_sound(b, t + 1);
        Derivation::Plus(t, Box::new(f))
    } else if next_is(b, p, 0x2D) {
        let f = lemma_factor_sound(b, t + 1);
        Derivation::Minus(t, Box::new(f))
    } else if next_is(b, p, 0x28) {
        let e = lemma_expr_sound(b, t + 1);
        match expr_spec(b, t + 1) {
            Ok((v, r1)) => {
                let qe = e.1;
                if next_is(b, r1, 0x29) {
                    lemma_ws_to_skip(b, qe);
                    lemma_ws_to_skip(b, r1);
                    assert(ws_between(b, qe, skip_ws_spec(b, r1)));
                }
                Derivation::Paren(t, qe, Box::new(e.0))
            },
            Err(_) => Derivation::Done,
        }
    } else {
        lemma_ws_to_skip(b, t);
        lemma_digits_run(b, t);
        Derivation::Number(t)
    }
}

proof fn lemma_term_rest_sound(b: Seq<u8>, r0: int, acc: i64) -> (res: (Derivation, int))
    requires
        0 <= r0 <= b.len(),
    ensures
        term_rest(b, r0, acc) matches Ok((v, e)) ==> r0 <= res.1 <= b.len() && term_tail_value(
            res.0,
            b,
            r0,
            acc,
            res.1,
        ) == Some(v) && e == skip_ws_spec(b, res.1),
    decreases b.len() - r0, 1int,
{
    lemma_ws_to_skip(b, r0);
    let t = skip_ws_spec(b, r0);
    match mul_op_at(b, r0) {
        None => (Derivation::Done, r0),
        Some(op) => {
            let f = lemma_factor_sound(b, t + 1);
            match factor_spec(b, t + 1) {
                Ok((w, s)) => match mul_op(op, acc, w) {
                    Ok(x) => {
                        if r0 < s <= b.len() {
                            let rest = lemma_term_rest_sound(b, s, x);
                            assert(b[t] == op);
                            (Derivation::More(t, s, Box::new(f), Box::new(rest.0)), rest.1)
                        } else {
                            (Derivation::Done, r0)
                        }
                    },
                    Err(_) => (Derivation::Done, r0),
                },
                Err(_) => (Derivation::Done, r0),
            }
        },
    }
}

proof fn lemma_term_sound(b: Seq<u8>, p: int) -> (res: (Derivation, int))
    requires
        0 <= p <= b.len(),
    ensures
        term_spec(b, p) matches Ok((v, e)) ==> p < res.1 <= b.len() && term_value(res.0, b, p, res.1)
            == Some(v) && e == skip_ws_spec(b, res.1),
    decreases b.len() - p, 2int,
{
    let f = lemma_factor_sound(b, p);
    match factor_spec(b, p) {
        Ok((w, r)) => {
            if p < r <= b.len() {
                let tail = lemma_term_rest_sound(b, r, w);
                (Derivation::Chain(r, Box::new(f), Box::new(tail.0)), tail.1)
            } else {
                (Derivation::Done, p)
            }
        },
        Err(_) => (Derivation::Done, p),
    }
}

/// A tail read from the end `r1` of the whitespace after `a` is a tail from
/// `a` too, ending where its reading ends.
proof fn lemma_expr_tail_from_earlier(
    d: Derivation,
    b: Seq<u8>,
    a: int,
    r1: int,
    acc: i64,
    q: int,
) -> (res: (Derivation, int))
    requires
        expr_tail_value(d, b, r1, acc, q) is Some,
        ws_between(b, a, r1),
        r1 == skip_ws_spec(b, a),
    ensures
        expr_tail_value(res.0, b, a, acc, res.1) == expr_tail_value(d, b, r1, acc, q),
        skip_ws_spec(b, res.1) == skip_ws_spec(b, q),
        a <= res.1 <= b.len(),
{
    lemma_ws_to_skip(b, a);
    match d {
        Derivation::Done => (Derivation::Done, a),
        _ => {
            lemma_expr_tail_bounds(d, b, r1, acc, q);
            (d, q)
        },
    }
}

proof fn lemma_expr_rest_sound(b: Seq<u8>, r0: int, acc: i64) -> (res: (Derivation, int))
    requires
        0 <= r0 <= b.len(),
    ensures
        expr_rest(b, r0, acc) matches Ok((v, e)) ==> r0 <= res.1 <= b.len() && expr_tail_value(
            res.0,
            b,
            r0,
            acc,
            res.1,
        ) == Some(v) && e == skip_ws_spec(b, res.1),
    decreases b.len() - r0, 3int,
{
    lemma_ws_to_skip(b, r0);
    let t = skip_ws_spec(b, r0);
    match add_op_at(b, r0) {
        None => (Derivation::Done, r0),
        Some(op) => {
            let f = lemma_term_sound(b, t + 1);
            match term_spec(b, t + 1) {
                Ok((w, r1)) => match add_op(op, acc, w) {
                    Ok(x) => {
                        if r0 < r1 <= b.len() {
                            let qs = f.1;
                            lemma_ws_to_skip(b, qs);
                            let rest = lemma_expr_rest_sound(b, r1, x);
                            assert(b[t] == op);
                            if expr_rest(b, r1, x) is Ok {
                                let back = lemma_expr_tail_from_earlier(rest.0, b, qs, r1, x, rest.1);
                                (Derivation::More(t, qs, Box::new(f.0), Box::new(back.0)), back.1)
                            } else {
                                (Derivation::Done, r0)
                            }
                        } else {
                            (Derivation::Done, r0)
                        }
                    },
                    Err(_) => (Derivation::Done, r0),
                },
                Err(_) => (Derivation::Done, r0),
            }
        },
    }
}

proof fn lemma_expr_sound(b: Seq<u8>, p: int) -> (res: (Derivation, int))
    requires
        0 <= p <= b.len(),
    ensures
        expr_spec(b, p) matches Ok((v, e)) ==> p < res.1 <= b.len() && expr_value(res.0, b, p, res.1)
            == Some(v) && e == skip_ws_spec(b, res.1),
    decreases b.len() - p, 4int,
{
    let f = lemma_term_sound(b, p);
    match term_spec(b, p) {
        Ok((w, r1)) => {
            if p < r1 <= b.len() {
                let qt = f.1;
                lemma_ws_to_skip(b, qt);
                let rest = lemma_expr_rest_sound(b, r1, w);
                if expr_rest(b, r1, w) is Ok {
                    let back = lemma_expr_tail_from_earlier(rest.0, b, qt, r1, w, rest.1);
                    (Derivation::Chain(qt, Box::new(f.0), Box::new(back.0)), back.1)
                } else {
                    (Derivation::Done, p)
                }
            } else {
                (Derivation::Done, p)
            }
        },
        Err(_) => (Derivation::Done, p),
    }
}

/// `calc` succeeds with `v` exactly when the text derives from the grammar
/// (`expr`, then only whitespace) with no division by zero and every
/// literal and intermediate result fitting in `i64`, `v` being the value
/// evaluated left to right with truncating `/` and `%`.
pub proof fn law_calc_follows_grammar(b: Seq<u8>, v: i64)
    ensures
        (eval_spec(b) == Ok::<i64, &'static str>(v)) == derives_calc(b, v),
{
    if eval_spec(b) == Ok::<i64, &'static str>(v) {
        let res = lemma_expr_sound(b, 0);
        let q = res.1;
        lemma_ws_to_skip(b, q);
        assert(expr_value(res.0, b, 0, q) == Some(v));
        assert(ws_between(b, q, b.len() as int));
    }
    if derives_calc(b, v) {
        let (d, q) = choose|d: Derivation, q: int|
            #![trigger expr_value(d, b, 0, q)]
            expr_value(d, b, 0, q) == Some(v) && ws_between(b, q, b.len() as int);
        lemma_expr_bounds(d, b, 0, q);
        lemma_skip_to(b, q, b.len() as int);
        assert(ends_expr(b, q));
        lemma_expr_complete(d, b, 0, q);
        lemma_skip_to(b, b.len() as int, b.len() as int);
    }
}

} // verus!
