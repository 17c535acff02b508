//! Lexical structure of parametric expressions such as `width / 2` or
//! `80 mm`: numbers with an optional unit, identifiers and the four
//! arithmetic operators.
use vstd::prelude::*;
use crate::error::CadError;
use crate::text::{
    chars_contain, chars_end_with, chars_of, contains_seq, ends_with, str_eq,
};

verus! {

/// A token of a parametric expression.  Numbers keep their literal text and
/// the unit written after them; their value is read by the evaluator.
#[derive(Debug, Clone, PartialEq, Eq)]
pub enum Token {
    Number { literal: String, unit: Option<String> },
    Ident(String),
    Plus,
    Minus,
    Star,
    Slash,
}

/// A token with its texts taken as character sequences.
pub enum TokenView {
    Number { literal: Seq<char>, unit: Option<Seq<char>> },
    Ident(Seq<char>),
    Plus,
    Minus,
    Star,
    Slash,
}

impl View for Token {
    type V = TokenView;

    open spec fn view(&self) -> TokenView {
        match self {
            Token::Number { literal, unit } => TokenView::Number {
                literal: literal@,
                unit: match unit {
                    Some(u) => Some(u@),
                    None => None,
                },
            },
            Token::Ident(name) => TokenView::Ident(name@),
            Token::Plus => TokenView::Plus,
            Token::Minus => TokenView::Minus,
            Token::Star => TokenView::Star,
            Token::Slash => TokenView::Slash,
        }
    }
}

pub open spec fn token_views(tokens: Seq<Token>) -> Seq<TokenView> {
    tokens.map_values(|t: Token| t@)
}

/// Unicode `White_Space`, the property behind `char::is_whitespace`.
pub open spec fn is_whitespace(c: char) -> bool {
    let u = c as u32;
    ||| 0x09 <= u <= 0x0d
    ||| u == 0x20
    ||| u == 0x85
    ||| u == 0xa0
    ||| u == 0x1680
    ||| 0x2000 <= u <= 0x200a
    ||| u == 0x2028
    ||| u == 0x2029
    ||| u == 0x202f
    ||| u == 0x205f
    ||| u == 0x3000
}

pub open spec fn is_digit(c: char) -> bool {
    '0' as u32 <= c as u32 <= '9' as u32
}

pub open spec fn is_alpha(c: char) -> bool {
    ('A' as u32 <= c as u32 <= 'Z' as u32) || ('a' as u32 <= c as u32 <= 'z' as u32)
}

pub open spec fn is_operator(c: char) -> bool {
    c == '+' || c == '-' || c == '*' || c == '/'
}

/// Characters that may continue an identifier.
pub open spec fn is_ident_char(c: char) -> bool {
    is_alpha(c) || is_digit(c) || c == '_'
}

/// Characters of a number literal.
pub open spec fn is_number_char(c: char) -> bool {
    is_digit(c) || c == '.'
}

/// A run of digits and dots that reads as a decimal number: at least one
/// digit and at most one dot (`5`, `5.`, `.5`, `5.25`).
pub open spec fn valid_number_literal(s: Seq<char>) -> bool {
    &&& exists|k: int| 0 <= k < s.len() && is_digit(#[trigger] s[k])
    &&& forall|a: int, b: int| 0 <= a < b < s.len() && #[trigger] s[a] == '.' ==> #[trigger] s[b] != '.'
}

/// End of the run starting at `i` of characters satisfying the chosen class:
/// number characters, whitespace, unit characters or identifier characters.
pub open spec fn run_end(cs: Seq<char>, i: int, class: int) -> int
    decreases cs.len() - i,
{
    if 0 <= i < cs.len() && in_class(cs[i], class) {
        run_end(cs, i + 1, class)
    } else {
        i
    }
}

pub open spec fn in_class(c: char, class: int) -> bool {
    if class == 0 {
        is_number_char(c)
    } else if class == 1 {
        is_whitespace(c)
    } else if class == 2 {
        !is_whitespace(c) && !is_operator(c)
    } else {
        is_ident_char(c)
    }
}

pub proof fn lemma_run_end(cs: Seq<char>, i: int, class: int)
    requires
        0 <= i <= cs.len(),
    ensures
        i <= run_end(cs, i, class) <= cs.len(),
        forall|k: int| i <= k < run_end(cs, i, class) ==> in_class(#[trigger] cs[k], class),
        run_end(cs, i, class) < cs.len() ==> !in_class(cs[run_end(cs, i, class)], class),
    decreases cs.len() - i,
{
    if i < cs.len() && in_class(cs[i], class) {
        lemma_run_end(cs, i + 1, class);
    }
}

/// Prepend tokens to a scan result, keeping a failure a failure.
pub open spec fn join(prefix: Seq<TokenView>, rest: Option<Seq<TokenView>>) -> Option<Seq<TokenView>> {
    match rest {
        Some(r) => Some(prefix + r),
        None => None,
    }
}

/// The tokens of `cs` from position `i` on, or `None` when the text holds a
/// character no token can start with or a number literal that does not read
/// as a number.  After a number, blanks are skipped and a following letter
/// starts its unit, which runs to the next blank or operator.
pub open spec fn scan(cs: Seq<char>, i: int) -> Option<Seq<TokenView>>
    decreases cs.len() - i,
{
    if i < 0 || i >= cs.len() {
        Some(Seq::empty())
    } else {
        let c = cs[i];
        if is_whitespace(c) {
            scan(cs, i + 1)
        } else if is_number_char(c) {
            let j = run_end(cs, i, 0);
            proof {
                lemma_run_end(cs, i, 0);
                lemma_run_end(cs, j, 1);
            }
            let literal = cs.subrange(i, j);
            if !valid_number_literal(literal) {
                None
            } else {
                let k = run_end(cs, j, 1);
                if k < cs.len() && is_alpha(cs[k]) {
                    let u = run_end(cs, k, 2);
                    proof {
                        lemma_run_end(cs, k, 2);
                    }
                    join(
                        seq![TokenView::Number { literal, unit: Some(cs.subrange(k, u)) }],
                        scan(cs, u),
                    )
                } else {
                    join(seq![TokenView::Number { literal, unit: None }], scan(cs, k))
                }
            }
        } else if is_alpha(c) || c == '_' {
            let j = run_end(cs, i, 3);
            proof {
                lemma_run_end(cs, i, 3);
            }
            join(seq![TokenView::Ident(cs.subrange(i, j))], scan(cs, j))
        } else if c == '+' {
            join(seq![TokenView::Plus], scan(cs, i + 1))
        } else if c == '-' {
            join(seq![TokenView::Minus], scan(cs, i + 1))
        } else if c == '*' {
            join(seq![TokenView::Star], scan(cs, i + 1))
        } else if c == '/' {
            join(seq![TokenView::Slash], scan(cs, i + 1))
        } else {
            None
        }
    }
}

fn whitespace(c: char) -> (r: bool)
    ensures
        r == is_whitespace(c),
{
    let u = c as u32;
    (0x09 <= u && u <= 0x0d) || u == 0x20 || u == 0x85 || u == 0xa0 || u == 0x1680 || (0x2000 <= u
        && u <= 0x200a) || u == 0x2028 || u == 0x2029 || u == 0x202f || u == 0x205f || u == 0x3000
}

fn digit(c: char) -> (r: bool)
    ensures
        r == is_digit(c),
{
    '0' as u32 <= c as u32 && c as u32 <= '9' as u32
}

fn alpha(c: char) -> (r: bool)
    ensures
        r == is_alpha(c),
{
    ('A' as u32 <= c as u32 && c as u32 <= 'Z' as u32) || ('a' as u32 <= c as u32 && c as u32
        <= 'z' as u32)
}

fn class_member(c: char, class: u8) -> (r: bool)
    requires
        class <= 3,
    ensures
        r == in_class(c, class as int),
{
    if class == 0 {
        digit(c) || c == '.'
    } else if class == 1 {
        whitespace(c)
    } else if class == 2 {
        !whitespace(c) && !(c == '+' || c == '-' || c == '*' || c == '/')
    } else {
        alpha(c) || digit(c) || c == '_'
    }
}

fn run_end_at(cs: &Vec<char>, i: usize, class: u8) -> (end: usize)
    requires
        i <= cs.len(),
        class <= 3,
    ensures
        end == run_end(cs@, i as int, class as int),
{
    let mut k = i;
    while k < cs.len() && class_member(cs[k], class)
        invariant
            i <= k <= cs.len(),
            class <= 3,
            run_end(cs@, i as int, class as int) == run_end(cs@, k as int, class as int),
        decreases cs.len() - k,
    {
        k = k + 1;
    }
    k
}

fn number_literal_ok(cs: &Vec<char>, from: usize, to: usize) -> (r: bool)
    requires
        from <= to <= cs.len(),
        forall|k: int| from <= k < to ==> is_number_char(#[trigger] cs@[k]),
    ensures
        r == valid_number_literal(cs@.subrange(from as int, to as int)),
{
    let ghost s = cs@.subrange(from as int, to as int);
    let mut dots: usize = 0;
    let mut digits = false;
    let mut k = from;
    let ghost mut dot_at: int = -1;
    while k < to
        invariant
            from <= k <= to <= cs.len(),
            s == cs@.subrange(from as int, to as int),
            dots <= 2,
            digits == exists|m: int| 0 <= m < k - from && is_digit(#[trigger] s[m]),
            dots == 0 ==> forall|m: int| 0 <= m < k - from ==> #[trigger] s[m] != '.',
            dots == 1 ==> 0 <= dot_at < k - from && s[dot_at] == '.' && forall|m: int|
                0 <= m < k - from && m != dot_at ==> #[trigger] s[m] != '.',
            dots == 2 ==> exists|a: int, b: int| 0 <= a < b < k - from && #[trigger] s[a] == '.' && #[trigger] s[b] == '.',
        decreases to - k,
    {
        if cs[k] == '.' {
            if dots == 1 {
                assert(s[dot_at] == '.' && s[k - from] == '.');
                dots = 2;
            } else if dots == 0 {
                dots = 1;
                proof {
                    dot_at = k - from;
                }
            }
        } else if digit(cs[k]) {
            digits = true;
            assert(is_digit(s[k - from]));
        }
        k = k + 1;
    }
    digits && dots <= 1
}

/// Split an expression into tokens.  Fails with `InvalidExpression(input)`
/// exactly when `scan` fails.
pub fn tokenize(input: &str) -> (r: Result<Vec<Token>, CadError>)
    ensures
        match r {
            Ok(tokens) => scan(input@, 0) == Some(token_views(tokens@)),
            Err(e) => scan(input@, 0) is None && (e matches CadError::InvalidExpression(m) && m@ == input@),
        },
{
    let cs = chars_of(input);
    let mut tokens: Vec<Token> = Vec::new();
    let mut i: usize = 0;
    while i < cs.len()
        invariant
            cs@ == input@,
            i <= cs.len(),
            scan(cs@, 0) == join(token_views(tokens@), scan(cs@, i as int)),
        decreases cs.len() - i,
    {
        let c = cs[i];
        let ghost before = tokens@;
        if whitespace(c) {
            i = i + 1;
        } else if digit(c) || c == '.' {
            let j = run_end_at(&cs, i, 0);
            proof {
                lemma_run_end(cs@, i as int, 0);
            }
            if !number_literal_ok(&cs, i, j) {
                return Err(CadError::InvalidExpression(input.to_owned()));
            }
            let literal = input.substring_char(i, j).to_owned();
            let k = run_end_at(&cs, j, 1);
            proof {
                lemma_run_end(cs@, j as int, 1);
            }
            if k < cs.len() && alpha(cs[k]) {
                let u = run_end_at(&cs, k, 2);
                proof {
                    lemma_run_end(cs@, k as int, 2);
                }
                let unit = input.substring_char(k, u).to_owned();
                tokens.push(Token::Number { literal, unit: Some(unit) });
                i = u;
            } else {
                tokens.push(Token::Number { literal, unit: None });
                i = k;
            }
        } else if alpha(c) || c == '_' {
            let j = run_end_at(&cs, i, 3);
            proof {
                lemma_run_end(cs@, i as int, 3);
            }
            let name = input.substring_char(i, j).to_owned();
            tokens.push(Token::Ident(name));
            i = j;
        } else if c == '+' {
            tokens.push(Token::Plus);
            i = i + 1;
        } else if c == '-' {
            tokens.push(Token::Minus);
            i = i + 1;
        } else if c == '*' {
            tokens.push(Token::Star);
            i = i + 1;
        } else if c == '/' {
            tokens.push(Token::Slash);
            i = i + 1;
        } else {
            return Err(CadError::InvalidExpression(input.to_owned()));
        }
        assert(token_views(tokens@) =~= token_views(before) + token_views(tokens@).subrange(
            before.len() as int,
            tokens@.len() as int,
        ));
    }
    Ok(tokens)
}

/// Identifier names of a token sequence, each once, in order of first use.
pub open spec fn distinct_idents(ts: Seq<TokenView>) -> Seq<Seq<char>>
    decreases ts.len(),
{
    if ts.len() == 0 {
        Seq::empty()
    } else {
        let prev = distinct_idents(ts.drop_last());
        match ts.last() {
            TokenView::Ident(name) => if prev.contains(name) {
                prev
            } else {
                prev.push(name)
            },
            _ => prev,
        }
    }
}

pub open spec fn string_views(v: Seq<String>) -> Seq<Seq<char>> {
    v.map_values(|s: String| s@)
}

/// Identifier names referenced by a parametric expression (e.g.
/// `hole_diameter / 2`), each once, in order of first use; none when the
/// expression does not tokenize.
pub fn parameter_names_in_expr(expr: &str) -> (names: Vec<String>)
    ensures
        string_views(names@) == match scan(expr@, 0) {
            Some(ts) => distinct_idents(ts),
            None => Seq::empty(),
        },
{
    let tokens = match tokenize(expr) {
        Ok(tokens) => tokens,
        Err(_) => return Vec::new(),
    };
    let ghost ts = token_views(tokens@);
    let mut names: Vec<String> = Vec::new();
    let mut i: usize = 0;
    while i < tokens.len()
        invariant
            i <= tokens.len(),
            ts == token_views(tokens@),
            string_views(names@) == distinct_idents(ts.subrange(0, i as int)),
        decreases tokens.len() - i,
    {
        proof {
            assert(ts.subrange(0, i + 1).drop_last() =~= ts.subrange(0, i as int));
        }
        match &tokens[i] {
            Token::Ident(ident) => {
                let mut seen = false;
                let mut k: usize = 0;
                while k < names.len()
                    invariant
                        k <= names.len(),
                        seen == exists|m: int| 0 <= m < k && #[trigger] names@[m]@ == ident@,
                    decreases names.len() - k,
                {
                    if str_eq(names[k].as_str(), ident.as_str()) {
                        seen = true;
                    }
                    k = k + 1;
                }
                proof {
                    let prev = string_views(names@);
                    if seen {
                        let m = choose|m: int| 0 <= m < k && #[trigger] names@[m]@ == ident@;
                        assert(prev[m] == ident@);
                    } else {
                        assert forall|m: int| 0 <= m < prev.len() implies prev[m] != ident@ by {
                            assert(names@[m]@ == prev[m]);
                        }
                    }
                }
                if !seen {
                    names.push(ident.clone());
                    proof {
                        assert(string_views(names@) =~= distinct_idents(ts.subrange(0, i as int)).push(ident@));
                    }
                }
            },
            _ => {},
        }
        i = i + 1;
    }
    assert(ts.subrange(0, i as int) =~= ts);
    names
}

/// Parameters whose name ends in `_rad` or `_deg`, or mentions `angle`, are
/// angles; every other parameter is a length.
pub open spec fn is_angle_parameter_spec(name: Seq<char>) -> bool {
    ends_with(name, "_rad"@) || ends_with(name, "_deg"@) || contains_seq(name, "angle"@)
}

pub fn is_angle_parameter(name: &str) -> (r: bool)
    ensures
        r == is_angle_parameter_spec(name@),
{
    let cs = chars_of(name);
    chars_end_with(&cs, &chars_of("_rad")) || chars_end_with(&cs, &chars_of("_deg")) || chars_contain(
        &cs,
        &chars_of("angle"),
    )
}

/// The token at `k` names the identifier `x`.
pub open spec fn names_at(ts: Seq<TokenView>, k: int, x: Seq<char>) -> bool {
    0 <= k < ts.len() && ts[k] == TokenView::Ident(x)
}

/// Some token before `k` names `x`.
pub open spec fn named_before(ts: Seq<TokenView>, k: int, x: Seq<char>) -> bool {
    exists|m: int| m < k && #[trigger] names_at(ts, m, x)
}

/// The names taken from a token sequence are its identifiers (never a
/// number or a number's unit word), each exactly once, in the order each
/// is first seen: whatever names a later entry, an earlier entry was named
/// before it.
pub proof fn law_parameter_names_are_first_seen_identifiers(ts: Seq<TokenView>)
    ensures
        forall|i: int, j: int|
            0 <= i < j < distinct_idents(ts).len() ==> #[trigger] distinct_idents(ts)[i]
                != #[trigger] distinct_idents(ts)[j],
        forall|x: Seq<char>|
            #[trigger] distinct_idents(ts).contains(x) <==> exists|k: int| #[trigger]
                names_at(ts, k, x),
        forall|i: int, j: int, k: int|
            #![trigger names_at(ts, k, distinct_idents(ts)[j]), distinct_idents(ts)[i]]
            0 <= i < j < distinct_idents(ts).len() && names_at(ts, k, distinct_idents(ts)[j])
                ==> named_before(ts, k, distinct_idents(ts)[i]),
    decreases ts.len(),
{
    if ts.len() > 0 {
        let prev_ts = ts.drop_last();
        law_parameter_names_are_first_seen_identifiers(prev_ts);
        let prev = distinct_idents(prev_ts);
        let d = distinct_idents(ts);
        let last = ts.len() - 1;
        // `fresh` is the name the last token adds, if it adds one.
        let fresh: Option<Seq<char>> = match ts.last() {
            TokenView::Ident(name) => if prev.contains(name) {
                None
            } else {
                Some(name)
            },
            _ => None,
        };
        assert(d == match fresh {
            Some(n) => prev.push(n),
            None => prev,
        });
        assert forall|k: int, x: Seq<char>| 0 <= k < last implies names_at(ts, k, x) == names_at(
            prev_ts,
            k,
            x,
        ) by {
            assert(ts[k] == prev_ts[k]);
        }
        assert forall|x: Seq<char>| names_at(ts, last, x) implies prev.contains(x) || fresh
            == Some(x) by {}
        assert forall|x: Seq<char>| #[trigger] d.contains(x) <==> exists|k: int| #[trigger]
            names_at(ts, k, x) by {
            if d.contains(x) {
                let w = d.index_of(x);
                if w < prev.len() {
                    assert(prev[w] == x);
                    assert(prev.contains(x));
                    let k = choose|k: int| #[trigger] names_at(prev_ts, k, x);
                    assert(names_at(ts, k, x));
                } else {
                    assert(names_at(ts, last, x));
                }
            }
            if exists|k: int| #[trigger] names_at(ts, k, x) {
                let k = choose|k: int| #[trigger] names_at(ts, k, x);
                if k < last {
                    assert(names_at(prev_ts, k, x));
                    assert(prev.contains(x));
                    let w = prev.index_of(x);
                    assert(d[w] == x);
                } else {
                    if prev.contains(x) {
                        let w = prev.index_of(x);
                        assert(d[w] == x);
                    } else {
                        assert(d[prev.len() as int] == x);
                    }
                }
            }
        }
        assert forall|i: int, j: int| 0 <= i < j < d.len() implies #[trigger] d[i] != #[trigger] d[j] by {
            if j >= prev.len() {
                assert(d[i] == prev[i]);
                assert(prev.contains(d[i]));
            } else {
                assert(d[i] == prev[i] && d[j] == prev[j]);
            }
        }
        assert forall|i: int, j: int, k: int|
            #![trigger names_at(ts, k, distinct_idents(ts)[j]), distinct_idents(ts)[i]]
            0 <= i < j < distinct_idents(ts).len() && names_at(ts, k, distinct_idents(ts)[j])
                implies named_before(ts, k, distinct_idents(ts)[i]) by {
            assert(d[i] == prev[i]);
            assert(prev.contains(d[i]));
            let m0 = choose|m: int| #[trigger] names_at(prev_ts, m, d[i]);
            assert(names_at(ts, m0, d[i]));
            if j < prev.len() {
                assert(d[j] == prev[j]);
                assert(prev.contains(d[j]));
                let kk = if k < last {
                    k
                } else {
                    choose|kk: int| #[trigger] names_at(prev_ts, kk, d[j])
                };
                assert(names_at(prev_ts, kk, prev[j]));
                assert(kk <= k);
                let m = choose|m: int| m < kk && #[trigger] names_at(prev_ts, m, prev[i]);
                assert(names_at(ts, m, d[i]));
                assert(m < k);
            } else {
                assert(fresh == Some(d[j]));
                assert(!prev.contains(d[j]));
                if k < last {
                    assert(names_at(prev_ts, k, d[j]));
                }
                assert(k == last);
                assert(m0 < k);
            }
        }
    } else {
        assert(distinct_idents(ts).len() == 0);
    }
}
} // verus!
