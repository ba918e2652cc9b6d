//! Building expressions from tokens, by recursive descent.
use crate::expr::{reason, Error, ErrorV, Expr, ExprV};
use crate::lexer::views;
use vstd::prelude::*;

verus! {

pub open spec fn is_digit(c: char) -> bool {
    '0' <= c && c <= '9'
}

/// A non-empty run of decimal digits.
pub open spec fn is_digits(s: Seq<char>) -> bool {
    s.len() > 0 && forall|i: int| 0 <= i < s.len() ==> is_digit(#[trigger] s[i])
}

/// The value of a run of decimal digits.
pub open spec fn digits_value(s: Seq<char>) -> int
    decreases s.len(),
{
    if s.len() == 0 {
        0
    } else {
        digits_value(s.drop_last()) * 10 + (s.last() as int - '0' as int)
    }
}

/// The integer that a numeral denotes: digits, with an optional sign before them.
pub open spec fn numeral_value(s: Seq<char>) -> Option<int> {
    if is_digits(s) {
        Some(digits_value(s))
    } else if s.len() > 1 && s[0] == '+' && is_digits(s.drop_first()) {
        Some(digits_value(s.drop_first()))
    } else if s.len() > 1 && s[0] == '-' && is_digits(s.drop_first()) {
        Some(-digits_value(s.drop_first()))
    } else {
        None
    }
}

pub open spec fn in_i64(v: int) -> bool {
    i64::MIN <= v <= i64::MAX
}

/// The expression that a single token stands for.
pub open spec fn atom_of(t: Seq<char>) -> ExprV {
    if t == "true"@ {
        ExprV::Boolean(true)
    } else if t == "false"@ {
        ExprV::Boolean(false)
    } else {
        match numeral_value(t) {
            Some(v) if in_i64(v) => ExprV::Number(v),
            _ => ExprV::Symbol(t),
        }
    }
}

/// Parses the expression that starts at token `i`: the expression and the
/// index of the token after it.
pub open spec fn parse_at(toks: Seq<Seq<char>>, i: int) -> Result<(ExprV, int), ErrorV>
    decreases toks.len() - i, 0int,
{
    if i < 0 || i >= toks.len() {
        Err(ErrorV::Reason("could not get token"@))
    } else if toks[i] == "("@ {
        items_at(toks, i + 1, Seq::empty())
    } else if toks[i] == ")"@ {
        Err(ErrorV::Reason("unexpected )"@))
    } else {
        Ok((atom_of(toks[i]), i + 1))
    }
}

/// Parses the items of a list from token `j` on, `acc` having been read
/// before them, up to and including the closing parenthesis.
pub open spec fn items_at(toks: Seq<Seq<char>>, j: int, acc: Seq<ExprV>) -> Result<(ExprV, int), ErrorV>
    decreases toks.len() - j, 1int,
{
    if j < 0 || j >= toks.len() {
        Err(ErrorV::Reason("could not find closing )"@))
    } else if toks[j] == ")"@ {
        Ok((ExprV::List(acc), j + 1))
    } else {
        match parse_at(toks, j) {
            Err(e) => Err(e),
            // `parse_at` always moves forward (`lemma_parse_advances`), so
            // the second test never fails.
            Ok((e, k)) => if j < k <= toks.len() {
                items_at(toks, k, acc.push(e))
            } else {
                Err(ErrorV::Reason("could not find closing )"@))
            },
        }
    }
}

/// A successful parse consumes at least one token and stays within the input.
pub proof fn lemma_parse_advances(toks: Seq<Seq<char>>, i: int)
    ensures
        parse_at(toks, i) matches Ok((_, k)) ==> i < k <= toks.len(),
    decreases toks.len() - i, 0int,
{
    if 0 <= i < toks.len() && toks[i] == "("@ {
        lemma_items_advance(toks, i + 1, Seq::empty());
    }
}

/// A successful read of list items ends after token `j`, within the input.
pub proof fn lemma_items_advance(toks: Seq<Seq<char>>, j: int, acc: Seq<ExprV>)
    ensures
        items_at(toks, j, acc) matches Ok((_, k)) ==> j < k <= toks.len(),
    decreases toks.len() - j, 1int,
{
    if 0 <= j < toks.len() && toks[j] != ")"@ {
        lemma_parse_advances(toks, j);
        if let Ok((e, k)) = parse_at(toks, j) {
            if j < k <= toks.len() {
                lemma_items_advance(toks, k, acc.push(e));
            }
        }
    }
}

/// Whether two texts are equal.
pub fn same_text(a: &str, b: &str) -> (r: bool)
    ensures
        r == (a@ == b@),
{
    let n = a.unicode_len();
    if n != b.unicode_len() {
        return false;
    }
    let mut i: usize = 0;
    while i < n
        invariant
            n == a@.len() == b@.len(),
            i <= n,
            a@.take(i as int) == b@.take(i as int),
        decreases n - i,
    {
        if a.get_char(i) != b.get_char(i) {
            return false;
        }
        assert(a@.take(i + 1) == a@.take(i as int).push(a@[i as int]));
        assert(b@.take(i + 1) == b@.take(i as int).push(b@[i as int]));
        i = i + 1;
    }
    assert(a@ == a@.take(n as int));
    assert(b@ == b@.take(n as int));
    true
}

/// The largest magnitude that is tracked exactly while reading digits: one past
/// the magnitude of `i64::MIN`.
const CAP: u64 = 9223372036854775809;

proof fn lemma_digits_nonneg(s: Seq<char>)
    requires
        forall|i: int| 0 <= i < s.len() ==> is_digit(#[trigger] s[i]),
    ensures
        digits_value(s) >= 0,
    decreases s.len(),
{
    if s.len() > 0 {
        lemma_digits_nonneg(s.drop_last());
    }
}

/// The value of the digits `t[from..]`, capped at `CAP`; `None` where one of
/// them is not a digit or there are none.
fn read_digits(t: &str, from: usize) -> (r: Option<u64>)
    requires
        from <= t@.len(),
    ensures
        r is Some <==> is_digits(t@.skip(from as int)),
        r matches Some(m) ==> m as int == if digits_value(t@.skip(from as int)) < CAP {
            digits_value(t@.skip(from as int))
        } else {
            CAP as int
        },
{
    let n = t.unicode_len();
    if from >= n {
        return None;
    }
    let mut m: u64 = 0;
    let mut i: usize = from;
    while i < n
        invariant
            n == t@.len(),
            from <= i <= n,
            is_digits(t@.subrange(from as int, i as int)) || i == from,
            m <= CAP,
            digits_value(t@.subrange(from as int, i as int)) >= 0,
            m as int == if digits_value(t@.subrange(from as int, i as int)) < CAP {
                digits_value(t@.subrange(from as int, i as int))
            } else {
                CAP as int
            },
        decreases n - i,
    {
        let c = t.get_char(i);
        let ghost pre = t@.subrange(from as int, i as int);
        let ghost next = t@.subrange(from as int, i + 1);
        if !('0' <= c && c <= '9') {
            assert(t@.skip(from as int)[i - from] == c);
            return None;
        }
        assert(next.drop_last() == pre);
        assert(next.last() == c);
        let d = (c as u32 - '0' as u32) as u64;
        if m > 922337203685477580 {
            m = CAP;
        } else {
            m = m * 10 + d;
            if m > CAP {
                m = CAP;
            }
        }
        i = i + 1;
    }
    assert(t@.subrange(from as int, n as int) == t@.skip(from as int));
    Some(m)
}

/// The value of a numeral that fits in an `i64`; `None` for any other text.
pub fn numeral(t: &str) -> (r: Option<i64>)
    ensures
        r matches Some(v) ==> numeral_value(t@) == Some(v as int),
        r is None ==> !(numeral_value(t@) matches Some(v) && in_i64(v)),
{
    let n = t.unicode_len();
    if n == 0 {
        return None;
    }
    let c = t.get_char(0);
    assert(t@.skip(0) == t@);
    assert(t@.skip(1) == t@.drop_first());
    if c == '+' || c == '-' {
        if n == 1 {
            return None;
        }
        assert(!is_digits(t@)) by {
            assert(!is_digit(t@[0]));
        }
        match read_digits(t, 1) {
            None => None,
            Some(m) => {
                if c == '+' {
                    if m < CAP - 1 {
                        Some(m as i64)
                    } else {
                        None
                    }
                } else {
                    if m < CAP - 1 {
                        Some(-(m as i64))
                    } else if m == CAP - 1 {
                        Some(i64::MIN)
                    } else {
                        None
                    }
                }
            },
        }
    } else {
        match read_digits(t, 0) {
            None => None,
            Some(m) => if m < CAP - 1 {
                Some(m as i64)
            } else {
                None
            },
        }
    }
}

/// The expression for a single token: a boolean, a number, or else a symbol.
pub fn parse_atom(t: &str) -> (r: Expr)
    ensures
        r@ == atom_of(t@),
{
    if same_text(t, "true") {
        Expr::Boolean(true)
    } else if same_text(t, "false") {
        Expr::Boolean(false)
    } else {
        match numeral(t) {
            Some(v) => Expr::Number(v),
            None => Expr::Symbol(String::from_str(t)),
        }
    }
}

/// The view of a parse's outcome.
pub open spec fn parsed(r: Result<(Expr, usize), Error>) -> Result<(ExprV, int), ErrorV> {
    match r {
        Ok((e, k)) => Ok((e@, k as int)),
        Err(e) => Err(e@),
    }
}

/// Parses the expression that starts at token `pos`, and gives the index of
/// the token after it.
pub fn parse(tokens: &Vec<String>, pos: usize) -> (r: Result<(Expr, usize), Error>)
    ensures
        parsed(r) == parse_at(views(tokens@), pos as int),
    decreases tokens.len() - pos, 0int,
{
    let ghost toks = views(tokens@);
    if pos >= tokens.len() {
        return Err(reason("could not get token"));
    }
    let t = tokens[pos].as_str();
    assert(toks[pos as int] == t@);
    if same_text(t, "(") {
        read_seq(tokens, pos + 1)
    } else if same_text(t, ")") {
        Err(reason("unexpected )"))
    } else {
        Ok((parse_atom(t), pos + 1))
    }
}

/// Reads the items of a list from token `pos` on, up to and including the
/// closing parenthesis.
pub fn read_seq(tokens: &Vec<String>, pos: usize) -> (r: Result<(Expr, usize), Error>)
    ensures
        parsed(r) == items_at(views(tokens@), pos as int, Seq::empty()),
    decreases tokens.len() - pos, 1int,
{
    let ghost toks = views(tokens@);
    let mut res: Vec<Expr> = Vec::new();
    let mut j: usize = pos;
    loop
        invariant
            pos <= j,
            toks == views(tokens@),
            items_at(toks, j as int, Expr::view_items(res@)) == items_at(
                toks,
                pos as int,
                Seq::empty(),
            ),
        decreases tokens.len() - j,
    {
        if j >= tokens.len() {
            return Err(reason("could not find closing )"));
        }
        assert(toks[j as int] == tokens@[j as int]@);
        if same_text(tokens[j].as_str(), ")") {
            return Ok((Expr::List(res), j + 1));
        }
        proof {
            lemma_parse_advances(toks, j as int);
        }
        match parse(tokens, j) {
            Err(e) => {
                return Err(e);
            },
            Ok((e, k)) => {
                let ghost before = res@;
                res.push(e);
                assert(res@.drop_last() == before);
                j = k;
            },
        }
    }
}

} // verus!
