//! The shell's command line: `.builtin args`, `? args`, `name = expr`, or an
//! expression (a literal, a variable, or a call of an exported function).
//!
//! Every parser works on the window `[p, e)` of the characters of the input
//! and returns the window that is left. A literal is read after trimming
//! white space from both ends of its window, so a window can also shrink from
//! the right. `ParseError::Error` lets an enclosing choice try its next
//! alternative; `ParseError::Failure` ends the parse.
use vstd::prelude::*;
use vstd::string::*;

verus! {

broadcast use vstd::std_specs::vec::axiom_vec_index_decreases;

/// One line typed at the shell.
#[derive(Debug, PartialEq)]
pub enum Line<'a> {
    /// `.name arg ...`, or `? arg ...` for help.
    Builtin(&'a str, Vec<&'a str>),
    Expr(Expr<'a>),
    /// `name = expr`.
    Assignment(&'a str, Expr<'a>),
}

/// An expression: a literal, a variable, or a call of an exported function.
#[derive(Debug, PartialEq)]
pub enum Expr<'a> {
    Literal(Literal<'a>),
    Ident(&'a str),
    FunctionCall(&'a str, Vec<Expr<'a>>),
}

/// A literal value.
#[derive(Debug, PartialEq)]
pub enum Literal<'a> {
    Record(Record<'a>),
    String(&'a str),
    Num(usize),
    Ident(&'a str),
}

/// A record literal: `{name: expr, ...}`.
#[derive(Debug, PartialEq)]
pub struct Record<'a> {
    pub fields: Vec<(&'a str, Expr<'a>)>,
}

/// Why a parse stopped: `Error` lets an enclosing choice try another
/// alternative, `Failure` does not.
#[derive(Debug, PartialEq, Eq, Clone, Copy, Structural)]
pub enum ParseError {
    Error,
    Failure,
}

/// The abstract value of an expression.
pub ghost enum ExprV {
    Literal(LiteralV),
    Ident(Seq<char>),
    FunctionCall(Seq<char>, Seq<ExprV>),
}

/// The abstract value of a literal.
pub ghost enum LiteralV {
    Record(Seq<(Seq<char>, ExprV)>),
    String(Seq<char>),
    Num(nat),
    Ident(Seq<char>),
}

/// The abstract value of a line.
pub ghost enum LineV {
    Builtin(Seq<char>, Seq<Seq<char>>),
    Expr(ExprV),
    Assignment(Seq<char>, ExprV),
}

pub open spec fn view_expr(x: &Expr) -> ExprV
    decreases x, 0nat,
{
    match x {
        Expr::Literal(l) => ExprV::Literal(view_literal(l)),
        Expr::Ident(n) => ExprV::Ident(n@),
        Expr::FunctionCall(n, args) => ExprV::FunctionCall(n@, view_exprs(args, args.len() as int)),
    }
}

pub open spec fn view_exprs(xs: &Vec<Expr>, n: int) -> Seq<ExprV>
    decreases xs, n,
{
    if n <= 0 || n > xs.len() {
        Seq::empty()
    } else {
        view_exprs(xs, n - 1).push(view_expr(&xs[n - 1]))
    }
}

pub open spec fn view_literal(l: &Literal) -> LiteralV
    decreases l, 0nat,
{
    match l {
        Literal::Record(r) => LiteralV::Record(view_fields(&r.fields, r.fields.len() as int)),
        Literal::String(s) => LiteralV::String(s@),
        Literal::Num(v) => LiteralV::Num(*v as nat),
        Literal::Ident(s) => LiteralV::Ident(s@),
    }
}

pub open spec fn view_fields(fs: &Vec<(&str, Expr)>, n: int) -> Seq<(Seq<char>, ExprV)>
    decreases fs, n,
{
    if n <= 0 || n > fs.len() {
        Seq::empty()
    } else {
        view_fields(fs, n - 1).push((fs[n - 1].0@, view_expr(&fs[n - 1].1)))
    }
}

pub open spec fn view_strs(xs: Seq<&str>) -> Seq<Seq<char>> {
    xs.map_values(|x: &str| x@)
}

pub open spec fn view_line(l: &Line) -> LineV {
    match l {
        Line::Builtin(n, args) => LineV::Builtin(n@, view_strs(args@)),
        Line::Expr(x) => LineV::Expr(view_expr(x)),
        Line::Assignment(n, x) => LineV::Assignment(n@, view_expr(x)),
    }
}

// ---------------------------------------------------------------------------
// Character classes and runs.

/// White space as the shell's separators know it: space, tab, CR, LF.
pub open spec fn is_space(c: char) -> bool {
    c == ' ' || c == '\t' || c == '\r' || c == '\n'
}

/// Unicode `White_Space`.
pub open spec fn is_unicode_space(c: char) -> bool {
    ('\u{9}' <= c && c <= '\u{d}') || c == ' ' || c == '\u{85}' || c == '\u{a0}' || c == '\u{1680}'
        || ('\u{2000}' <= c && c <= '\u{200a}') || c == '\u{2028}' || c == '\u{2029}' || c == '\u{202f}'
        || c == '\u{205f}' || c == '\u{3000}'
}

pub open spec fn is_alpha(c: char) -> bool {
    ('a' <= c && c <= 'z') || ('A' <= c && c <= 'Z')
}

pub open spec fn is_digit(c: char) -> bool {
    '0' <= c && c <= '9'
}

pub open spec fn is_ident_tail(c: char) -> bool {
    is_alpha(c) || c == '-' || c == '/'
}

/// The character classes whose runs the grammar skips.
#[derive(Clone, Copy, PartialEq, Eq, Structural)]
pub enum CharClass {
    /// `is_space`.
    Space,
    /// Anything but Unicode white space.
    NonSpace,
    /// Unicode white space.
    UnicodeSpace,
    /// Anything but `"`.
    NonQuote,
    /// Letters, `-` and `/`.
    IdentTail,
    /// Decimal digits.
    Digit,
}

pub open spec fn in_class(c: char, k: CharClass) -> bool {
    match k {
        CharClass::Space => is_space(c),
        CharClass::NonSpace => !is_unicode_space(c),
        CharClass::UnicodeSpace => is_unicode_space(c),
        CharClass::NonQuote => c != '"',
        CharClass::IdentTail => is_ident_tail(c),
        CharClass::Digit => is_digit(c),
    }
}

/// The end of the run of characters of class `k` that starts at `p`.
pub open spec fn skip_run(s: Seq<char>, p: int, e: int, k: CharClass) -> int
    decreases e - p,
{
    if p < e && in_class(s[p], k) { skip_run(s, p + 1, e, k) } else { p }
}

pub open spec fn skip_space(s: Seq<char>, p: int, e: int) -> int {
    skip_run(s, p, e, CharClass::Space)
}

pub open spec fn skip_non_space(s: Seq<char>, p: int, e: int) -> int {
    skip_run(s, p, e, CharClass::NonSpace)
}

pub open spec fn skip_unicode_space(s: Seq<char>, p: int, e: int) -> int {
    skip_run(s, p, e, CharClass::UnicodeSpace)
}

pub open spec fn skip_non_quote(s: Seq<char>, p: int, e: int) -> int {
    skip_run(s, p, e, CharClass::NonQuote)
}

pub open spec fn skip_ident_tail(s: Seq<char>, p: int, e: int) -> int {
    skip_run(s, p, e, CharClass::IdentTail)
}

pub open spec fn skip_digits(s: Seq<char>, p: int, e: int) -> int {
    skip_run(s, p, e, CharClass::Digit)
}

/// The start of the run of Unicode white space that ends the window.
pub open spec fn trim_end(s: Seq<char>, p: int, e: int) -> int
    decreases e - p,
{
    if p < e && is_unicode_space(s[e - 1]) { trim_end(s, p, e - 1) } else { e }
}

/// The decimal value of the digits `s[p..q]`.
pub open spec fn digits_value(s: Seq<char>, p: int, q: int) -> nat
    decreases q - p,
{
    if q <= p {
        0
    } else {
        digits_value(s, p, q - 1) * 10 + ((s[q - 1] as int - '0' as int) as nat)
    }
}

// ---------------------------------------------------------------------------
// The grammar.

/// `ident`: optional white space, a letter, letters or `-` or `/`, optional
/// white space. Yields the end of the trailing white space and the name.
pub open spec fn spec_ident(s: Seq<char>, p: int, e: int) -> Result<(int, Seq<char>), ParseError> {
    let a = skip_space(s, p, e);
    if a < e && is_alpha(s[a]) {
        let b = skip_ident_tail(s, a + 1, e);
        Ok((skip_space(s, b, e), s.subrange(a, b)))
    } else {
        Err(ParseError::Error)
    }
}

/// `"..."`: the characters between a pair of double quotes.
pub open spec fn spec_quoted(s: Seq<char>, p: int, e: int) -> Result<(int, Seq<char>), ParseError> {
    if p < e && s[p] == '"' {
        let q = skip_non_quote(s, p + 1, e);
        if q < e { Ok((q + 1, s.subrange(p + 1, q))) } else { Err(ParseError::Error) }
    } else {
        Err(ParseError::Error)
    }
}

/// A builtin's argument: a quoted string, or else a run of non-space characters
/// (possibly empty).
pub open spec fn spec_builtin_argument(s: Seq<char>, p: int, e: int) -> (int, Seq<char>) {
    match spec_quoted(s, p, e) {
        Ok(r) => r,
        Err(_) => {
            let q = skip_non_space(s, p, e);
            (q, s.subrange(p, q))
        },
    }
}

/// The arguments that follow `args` from `p` on: white space, then an argument, again and again.
pub open spec fn spec_more_arguments(s: Seq<char>, p: int, e: int, args: Seq<Seq<char>>) -> (int, Seq<Seq<char>>)
    decreases e - p,
{
    let q = skip_space(s, p, e);
    if p < q {
        let (r, a) = spec_builtin_argument(s, q, e);
        if p < r && r <= e {
            spec_more_arguments(s, r, e, args.push(a))
        } else {
            (p, args)
        }
    } else {
        (p, args)
    }
}

/// Arguments separated by white space.
pub open spec fn spec_arguments(s: Seq<char>, p: int, e: int) -> (int, Seq<Seq<char>>) {
    let (q, a) = spec_builtin_argument(s, p, e);
    spec_more_arguments(s, q, e, seq![a])
}

pub open spec fn help() -> Seq<char> {
    seq!['h', 'e', 'l', 'p']
}

/// `.name args`.
pub open spec fn spec_builtin_call(s: Seq<char>, p: int, e: int) -> Result<(int, Seq<char>, Seq<Seq<char>>), ParseError> {
    if p < e && s[p] == '.' {
        match spec_ident(s, p + 1, e) {
            Ok((q, name)) => if q == e {
                Ok((e, name, Seq::empty()))
            } else {
                let (r, args) = spec_arguments(s, q, e);
                Ok((r, name, args))
            },
            Err(err) => Err(err),
        }
    } else {
        Err(ParseError::Error)
    }
}

/// `? args`, a call of `help`; the arguments are dropped when they reach the
/// end of the window.
pub open spec fn spec_special_char(s: Seq<char>, p: int, e: int) -> Result<(int, Seq<char>, Seq<Seq<char>>), ParseError> {
    if p < e && s[p] == '?' {
        let (r, args) = spec_arguments(s, p + 1, e);
        if r == e { Ok((e, help(), Seq::empty())) } else { Ok((r, help(), args)) }
    } else {
        Err(ParseError::Error)
    }
}

/// `.name args`, or else `? args`.
pub open spec fn spec_builtin(s: Seq<char>, p: int, e: int) -> Result<(int, Seq<char>, Seq<Seq<char>>), ParseError> {
    match spec_builtin_call(s, p, e) {
        Err(ParseError::Error) => spec_special_char(s, p, e),
        r => r,
    }
}

/// The window after a successful parse lies inside the window before it.
pub open spec fn inside(p: int, e: int, p2: int, e2: int) -> bool {
    p <= p2 <= e2 <= e
}

/// An expression: a function call, else a literal, else a variable.
pub open spec fn spec_expr(s: Seq<char>, p: int, e: int) -> Result<(int, int, ExprV), ParseError>
    decreases e - p, 3nat,
{
    match spec_function_call(s, p, e) {
        Ok((q, e2, name, args)) => Ok((q, e2, ExprV::FunctionCall(name, args))),
        Err(ParseError::Failure) => Err(ParseError::Failure),
        Err(ParseError::Error) => match spec_literal(s, p, e) {
            Ok((q, e2, l)) => Ok((q, e2, ExprV::Literal(l))),
            Err(ParseError::Failure) => Err(ParseError::Failure),
            Err(ParseError::Error) => match spec_ident(s, p, e) {
                Ok((q, name)) => Ok((q, e, ExprV::Ident(name))),
                Err(err) => Err(err),
            },
        },
    }
}

/// `name(expr, ...)`; once the `(` is read, any error is a failure.
pub open spec fn spec_function_call(s: Seq<char>, p: int, e: int) -> Result<(int, int, Seq<char>, Seq<ExprV>), ParseError>
    decreases e - p, 2nat,
{
    match spec_ident(s, p, e) {
        Ok((q, name)) => if p < q && q < e && s[q] == '(' {
            match spec_expr_list(s, q + 1, e) {
                Ok((r, e2, args)) => if inside(q + 1, e, r, e2) && r < e2 && s[r] == ')' {
                    Ok((r + 1, e2, name, args))
                } else {
                    Err(ParseError::Failure)
                },
                Err(_) => Err(ParseError::Failure),
            }
        } else {
            Err(ParseError::Error)
        },
        Err(err) => Err(err),
    }
}

/// Expressions separated by `,` (possibly none).
pub open spec fn spec_expr_list(s: Seq<char>, p: int, e: int) -> Result<(int, int, Seq<ExprV>), ParseError>
    decreases e - p, 4nat,
{
    match spec_expr(s, p, e) {
        Err(ParseError::Error) => Ok((p, e, Seq::empty())),
        Err(ParseError::Failure) => Err(ParseError::Failure),
        Ok((q, e2, x)) => if inside(p, e, q, e2) {
            spec_expr_list_tail(s, q, e2, seq![x])
        } else {
            Err(ParseError::Failure)
        },
    }
}

pub open spec fn spec_expr_list_tail(s: Seq<char>, p: int, e: int, xs: Seq<ExprV>) -> Result<(int, int, Seq<ExprV>), ParseError>
    decreases e - p, 0nat,
{
    if p < e && s[p] == ',' {
        match spec_expr(s, p + 1, e) {
            Err(ParseError::Error) => Ok((p, e, xs)),
            Err(ParseError::Failure) => Err(ParseError::Failure),
            Ok((q, e2, x)) => if inside(p + 1, e, q, e2) {
                spec_expr_list_tail(s, q, e2, xs.push(x))
            } else {
                Err(ParseError::Failure)
            },
        }
    } else {
        Ok((p, e, xs))
    }
}

/// A literal, read after trimming white space from both ends of the window:
/// a number that fits in `usize`, a record, a quoted string, or a name.
pub open spec fn spec_literal(s: Seq<char>, p: int, e: int) -> Result<(int, int, LiteralV), ParseError>
    decreases e - p, 2nat,
{
    let a = skip_unicode_space(s, p, e);
    let b = trim_end(s, a, e);
    let d = skip_digits(s, a, b);
    if a < d && digits_value(s, a, d) <= usize::MAX {
        Ok((d, b, LiteralV::Num(digits_value(s, a, d))))
    } else if a < b && s[a] == '{' && inside(p, e, a, b) {
        spec_record(s, a, b)
    } else {
        match spec_quoted(s, a, b) {
            Ok((q, text)) => Ok((q, b, LiteralV::String(text))),
            Err(_) => match spec_ident(s, a, b) {
                Ok((q, name)) => Ok((q, b, LiteralV::Ident(name))),
                Err(err) => Err(err),
            },
        }
    }
}

/// `{name: expr, ...}` starting at the `{`; after it any error is a failure.
pub open spec fn spec_record(s: Seq<char>, p: int, e: int) -> Result<(int, int, LiteralV), ParseError>
    decreases e - p, 1nat,
{
    if p < e {
        match spec_field_list(s, p + 1, e) {
            Ok((r, e2, fields)) => if inside(p + 1, e, r, e2) && r < e2 && s[r] == '}' {
                Ok((r + 1, e2, LiteralV::Record(fields)))
            } else {
                Err(ParseError::Failure)
            },
            Err(_) => Err(ParseError::Failure),
        }
    } else {
        Err(ParseError::Error)
    }
}

/// `name: expr`.
pub open spec fn spec_field(s: Seq<char>, p: int, e: int) -> Result<(int, int, (Seq<char>, ExprV)), ParseError>
    decreases e - p, 0nat,
{
    match spec_ident(s, p, e) {
        Ok((q, name)) => if p < q && q < e && s[q] == ':' {
            match spec_expr(s, q + 1, e) {
                Ok((r, e2, x)) => Ok((r, e2, (name, x))),
                Err(err) => Err(err),
            }
        } else {
            Err(ParseError::Error)
        },
        Err(err) => Err(err),
    }
}

/// Fields separated by `,` (possibly none).
pub open spec fn spec_field_list(s: Seq<char>, p: int, e: int) -> Result<(int, int, Seq<(Seq<char>, ExprV)>), ParseError>
    decreases e - p, 1nat,
{
    match spec_field(s, p, e) {
        Err(ParseError::Error) => Ok((p, e, Seq::empty())),
        Err(ParseError::Failure) => Err(ParseError::Failure),
        Ok((q, e2, f)) => if inside(p, e, q, e2) && p < q {
            spec_field_list_tail(s, q, e2, seq![f])
        } else {
            Err(ParseError::Failure)
        },
    }
}

pub open spec fn spec_field_list_tail(
    s: Seq<char>,
    p: int,
    e: int,
    fs: Seq<(Seq<char>, ExprV)>,
) -> Result<(int, int, Seq<(Seq<char>, ExprV)>), ParseError>
    decreases e - p, 0nat,
{
    if p < e && s[p] == ',' {
        match spec_field(s, p + 1, e) {
            Err(ParseError::Error) => Ok((p, e, fs)),
            Err(ParseError::Failure) => Err(ParseError::Failure),
            Ok((q, e2, f)) => if inside(p + 1, e, q, e2) {
                spec_field_list_tail(s, q, e2, fs.push(f))
            } else {
                Err(ParseError::Failure)
            },
        }
    } else {
        Ok((p, e, fs))
    }
}

/// `name = expr`; once the `=` is read, any error is a failure.
pub open spec fn spec_assignment(s: Seq<char>, p: int, e: int) -> Result<(int, int, Seq<char>, ExprV), ParseError> {
    match spec_ident(s, p, e) {
        Ok((q, name)) => {
            let a = skip_space(s, q, e);
            if a < e && s[a] == '=' {
                match spec_expr(s, skip_space(s, a + 1, e), e) {
                    Ok((r, e2, x)) => Ok((r, e2, name, x)),
                    Err(_) => Err(ParseError::Failure),
                }
            } else {
                Err(ParseError::Error)
            }
        },
        Err(err) => Err(err),
    }
}

/// A whole line: a builtin, else an assignment, else an expression.
pub open spec fn spec_line(s: Seq<char>) -> Result<(int, int, LineV), ParseError> {
    let e = s.len() as int;
    match spec_builtin(s, 0, e) {
        Ok((q, name, args)) => Ok((q, e, LineV::Builtin(name, args))),
        Err(ParseError::Failure) => Err(ParseError::Failure),
        Err(ParseError::Error) => match spec_assignment(s, 0, e) {
            Ok((q, e2, name, x)) => Ok((q, e2, LineV::Assignment(name, x))),
            Err(ParseError::Failure) => Err(ParseError::Failure),
            Err(ParseError::Error) => match spec_expr(s, 0, e) {
                Ok((q, e2, x)) => Ok((q, e2, LineV::Expr(x))),
                Err(err) => Err(err),
            },
        },
    }
}


// ---------------------------------------------------------------------------
// Executable parsers.

fn is_unicode_space_exec(c: char) -> (r: bool)
    ensures
        r == is_unicode_space(c),
{
    ('\u{9}' <= c && c <= '\u{d}') || c == ' ' || c == '\u{85}' || c == '\u{a0}' || c == '\u{1680}'
        || ('\u{2000}' <= c && c <= '\u{200a}') || c == '\u{2028}' || c == '\u{2029}' || c == '\u{202f}'
        || c == '\u{205f}' || c == '\u{3000}'
}

fn in_class_exec(c: char, k: CharClass) -> (r: bool)
    ensures
        r == in_class(c, k),
{
    match k {
        CharClass::Space => c == ' ' || c == '\t' || c == '\r' || c == '\n',
        CharClass::NonSpace => !is_unicode_space_exec(c),
        CharClass::UnicodeSpace => is_unicode_space_exec(c),
        CharClass::NonQuote => c != '"',
        CharClass::IdentTail => ('a' <= c && c <= 'z') || ('A' <= c && c <= 'Z') || c == '-' || c == '/',
        CharClass::Digit => '0' <= c && c <= '9',
    }
}

fn skip_run_at(s: &str, p: usize, e: usize, k: CharClass) -> (r: usize)
    requires
        p <= e <= s@.len(),
    ensures
        r == skip_run(s@, p as int, e as int, k),
        p <= r <= e,
{
    let mut q = p;
    while q < e && in_class_exec(s.get_char(q), k)
        invariant
            p <= q <= e,
            e <= s@.len(),
            skip_run(s@, p as int, e as int, k) == skip_run(s@, q as int, e as int, k),
        decreases e - q,
    {
        q = q + 1;
    }
    q
}

fn trim_end_at(s: &str, p: usize, e: usize) -> (r: usize)
    requires
        p <= e <= s@.len(),
    ensures
        r == trim_end(s@, p as int, e as int),
        p <= r <= e,
{
    let mut q = e;
    while p < q && is_unicode_space_exec(s.get_char(q - 1))
        invariant
            p <= q <= e,
            e <= s@.len(),
            trim_end(s@, p as int, e as int) == trim_end(s@, p as int, q as int),
        decreases q - p,
    {
        q = q - 1;
    }
    q
}

fn ident_at<'a>(s: &'a str, p: usize, e: usize) -> (r: Result<(usize, &'a str), ParseError>)
    requires
        p <= e <= s@.len(),
    ensures
        match r {
            Ok((q, name)) => spec_ident(s@, p as int, e as int) == Ok::<(int, Seq<char>), ParseError>((q as int, name@)) && p < q <= e,
            Err(err) => spec_ident(s@, p as int, e as int) == Err::<(int, Seq<char>), ParseError>(err),
        },
{
    let a = skip_run_at(s, p, e, CharClass::Space);
    if a < e {
        let c = s.get_char(a);
        if ('a' <= c && c <= 'z') || ('A' <= c && c <= 'Z') {
            let b = skip_run_at(s, a + 1, e, CharClass::IdentTail);
            let q = skip_run_at(s, b, e, CharClass::Space);
            return Ok((q, s.substring_char(a, b)));
        }
    }
    Err(ParseError::Error)
}

fn quoted_at<'a>(s: &'a str, p: usize, e: usize) -> (r: Result<(usize, &'a str), ParseError>)
    requires
        p <= e <= s@.len(),
    ensures
        match r {
            Ok((q, text)) => spec_quoted(s@, p as int, e as int) == Ok::<(int, Seq<char>), ParseError>((q as int, text@)) && p < q <= e,
            Err(err) => spec_quoted(s@, p as int, e as int) == Err::<(int, Seq<char>), ParseError>(err),
        },
{
    if p < e && s.get_char(p) == '"' {
        let q = skip_run_at(s, p + 1, e, CharClass::NonQuote);
        if q < e {
            return Ok((q + 1, s.substring_char(p + 1, q)));
        }
    }
    Err(ParseError::Error)
}

fn builtin_argument_at<'a>(s: &'a str, p: usize, e: usize) -> (r: (usize, &'a str))
    requires
        p <= e <= s@.len(),
    ensures
        spec_builtin_argument(s@, p as int, e as int) == (r.0 as int, r.1@),
        p <= r.0 <= e,
{
    match quoted_at(s, p, e) {
        Ok(r) => r,
        Err(_) => {
            let q = skip_run_at(s, p, e, CharClass::NonSpace);
            (q, s.substring_char(p, q))
        },
    }
}

fn arguments_at<'a>(s: &'a str, p: usize, e: usize) -> (r: (usize, Vec<&'a str>))
    requires
        p <= e <= s@.len(),
    ensures
        spec_arguments(s@, p as int, e as int) == (r.0 as int, view_strs(r.1@)),
        p <= r.0 <= e,
{
    let (q0, a) = builtin_argument_at(s, p, e);
    let mut args: Vec<&'a str> = Vec::new();
    args.push(a);
    let mut q = q0;
    proof {
        assert(view_strs(args@) =~= seq![a@]);
    }
    loop
        invariant
            p <= q <= e,
            e <= s@.len(),
            spec_arguments(s@, p as int, e as int) == spec_more_arguments(s@, q as int, e as int, view_strs(args@)),
        decreases e - q,
    {
        let t = skip_run_at(s, q, e, CharClass::Space);
        if q < t {
            let (r, a) = builtin_argument_at(s, t, e);
            let ghost before = args@;
            args.push(a);
            proof {
                assert(view_strs(args@) =~= view_strs(before).push(a@));
            }
            q = r;
        } else {
            return (q, args);
        }
    }
}

/// Reads `.name args`, or else `? args`.
pub fn builtin<'a>(input: &'a str) -> (r: Result<(&'a str, (&'a str, Vec<&'a str>)), ParseError>)
    ensures
        match r {
            Ok((rest, (name, args))) => spec_builtin(input@, 0, input@.len() as int) is Ok && {
                let v = spec_builtin(input@, 0, input@.len() as int)->Ok_0;
                rest_is(rest, input, v.0, input@.len() as int) && name@ == v.1 && view_strs(args@) == v.2
            },
            Err(err) => spec_builtin(input@, 0, input@.len() as int) == Err::<(int, Seq<char>, Seq<Seq<char>>), ParseError>(err),
        },
{
    let e = input.unicode_len();
    match builtin_at(input, 0, e) {
        Ok((q, name, args)) => {
            let rest = input.substring_char(q, e);
            assert(rest_is(rest, input, q as int, e as int));
            Ok((rest, (name, args)))
        },
        Err(err) => Err(err),
    }
}

fn builtin_call_at<'a>(s: &'a str, p: usize, e: usize) -> (r: Result<(usize, &'a str, Vec<&'a str>), ParseError>)
    requires
        p <= e <= s@.len(),
    ensures
        match r {
            Ok((q, name, args)) => spec_builtin_call(s@, p as int, e as int)
                == Ok::<(int, Seq<char>, Seq<Seq<char>>), ParseError>((q as int, name@, view_strs(args@))) && p <= q <= e,
            Err(err) => spec_builtin_call(s@, p as int, e as int) == Err::<(int, Seq<char>, Seq<Seq<char>>), ParseError>(err),
        },
{
    if !(p < e && s.get_char(p) == '.') {
        return Err(ParseError::Error);
    }
    match ident_at(s, p + 1, e) {
        Ok((q, name)) => {
            if q == e {
                let args: Vec<&'a str> = Vec::new();
                proof {
                    assert(view_strs(args@) =~= Seq::<Seq<char>>::empty());
                }
                Ok((e, name, args))
            } else {
                let (r, args) = arguments_at(s, q, e);
                Ok((r, name, args))
            }
        },
        Err(err) => Err(err),
    }
}

fn special_char_at<'a>(s: &'a str, p: usize, e: usize) -> (r: Result<(usize, &'a str, Vec<&'a str>), ParseError>)
    requires
        p <= e <= s@.len(),
    ensures
        match r {
            Ok((q, name, args)) => spec_special_char(s@, p as int, e as int)
                == Ok::<(int, Seq<char>, Seq<Seq<char>>), ParseError>((q as int, name@, view_strs(args@))) && p <= q <= e,
            Err(err) => spec_special_char(s@, p as int, e as int) == Err::<(int, Seq<char>, Seq<Seq<char>>), ParseError>(err),
        },
{
    if !(p < e && s.get_char(p) == '?') {
        return Err(ParseError::Error);
    }
    let (r, args) = arguments_at(s, p + 1, e);
    let topic = "help";
    proof {
        reveal_strlit("help");
        assert(topic@ =~= help());
    }
    if r == e {
        let none: Vec<&'a str> = Vec::new();
        proof {
            assert(view_strs(none@) =~= Seq::<Seq<char>>::empty());
        }
        Ok((e, topic, none))
    } else {
        Ok((r, topic, args))
    }
}

fn builtin_at<'a>(s: &'a str, p: usize, e: usize) -> (r: Result<(usize, &'a str, Vec<&'a str>), ParseError>)
    requires
        p <= e <= s@.len(),
    ensures
        match r {
            Ok((q, name, args)) => spec_builtin(s@, p as int, e as int)
                == Ok::<(int, Seq<char>, Seq<Seq<char>>), ParseError>((q as int, name@, view_strs(args@))) && p <= q <= e,
            Err(err) => spec_builtin(s@, p as int, e as int) == Err::<(int, Seq<char>, Seq<Seq<char>>), ParseError>(err),
        },
{
    match builtin_call_at(s, p, e) {
        Err(ParseError::Error) => special_char_at(s, p, e),
        r => r,
    }
}

proof fn lemma_view_exprs_prefix(a: &Vec<Expr>, b: &Vec<Expr>, n: int)
    requires
        0 <= n <= a.len(),
        n <= b.len(),
        forall|k: int| 0 <= k < n ==> a[k] == b[k],
    ensures
        view_exprs(a, n) == view_exprs(b, n),
    decreases n,
{
    if n > 0 {
        lemma_view_exprs_prefix(a, b, n - 1);
    }
}

proof fn lemma_view_fields_prefix(a: &Vec<(&str, Expr)>, b: &Vec<(&str, Expr)>, n: int)
    requires
        0 <= n <= a.len(),
        n <= b.len(),
        forall|k: int| 0 <= k < n ==> a[k] == b[k],
    ensures
        view_fields(a, n) == view_fields(b, n),
    decreases n,
{
    if n > 0 {
        lemma_view_fields_prefix(a, b, n - 1);
    }
}

proof fn lemma_skip_run_class(s: Seq<char>, p: int, e: int, k: CharClass)
    requires
        p <= e,
    ensures
        p <= skip_run(s, p, e, k) <= e,
        forall|j: int| p <= j < skip_run(s, p, e, k) ==> in_class(#[trigger] s[j], k),
    decreases e - p,
{
    if p < e && in_class(s[p], k) {
        lemma_skip_run_class(s, p + 1, e, k);
    }
}

proof fn lemma_digits_grow(s: Seq<char>, a: int, k: int, m: int)
    requires
        a <= k <= m,
        forall|j: int| a <= j < m ==> is_digit(#[trigger] s[j]),
    ensures
        digits_value(s, a, k) <= digits_value(s, a, m),
    decreases m - k,
{
    if k < m {
        lemma_digits_grow(s, a, k, m - 1);
    }
}

/// The value of the digits `s[a..d]`, if it fits in `usize`.
#[verifier::loop_isolation(false)]
fn number_at(s: &str, a: usize, d: usize) -> (r: Option<usize>)
    requires
        a <= d <= s@.len(),
        forall|j: int| a <= j < d ==> is_digit(#[trigger] s@[j]),
    ensures
        match r {
            Some(v) => v as nat == digits_value(s@, a as int, d as int),
            None => digits_value(s@, a as int, d as int) > usize::MAX,
        },
{
    let mut v: usize = 0;
    let mut k = a;
    while k < d
        invariant
            a <= k <= d,
            d <= s@.len(),
            v as nat == digits_value(s@, a as int, k as int),
        decreases d - k,
    {
        let c = s.get_char(k);
        assert(is_digit(s@[k as int]));
        let digit = (c as u32 - '0' as u32) as usize;
        assert(digits_value(s@, a as int, k + 1) == v * 10 + digit);
        if v > (usize::MAX - digit) / 10 {
            proof {
                assert(v * 10 + digit > usize::MAX) by (nonlinear_arith)
                    requires
                        v > (usize::MAX - digit) / 10,
                        digit <= 9,
                ;
                lemma_digits_grow(s@, a as int, k + 1, d as int);
            }
            return None;
        }
        proof {
            assert(v * 10 + digit <= usize::MAX) by (nonlinear_arith)
                requires
                    v <= (usize::MAX - digit) / 10,
                    digit <= 9,
            ;
        }
        v = v * 10 + digit;
        k = k + 1;
    }
    Some(v)
}

fn expr_at<'a>(s: &'a str, p: usize, e: usize) -> (r: Result<(usize, usize, Expr<'a>), ParseError>)
    requires
        p <= e <= s@.len(),
    ensures
        match r {
            Ok((q, e2, x)) => spec_expr(s@, p as int, e as int) == Ok::<(int, int, ExprV), ParseError>((q as int, e2 as int, view_expr(&x)))
                && inside(p as int, e as int, q as int, e2 as int),
            Err(err) => spec_expr(s@, p as int, e as int) == Err::<(int, int, ExprV), ParseError>(err),
        },
    decreases e - p, 3nat,
{
    match function_call_at(s, p, e) {
        Ok((q, e2, name, args)) => return Ok((q, e2, Expr::FunctionCall(name, args))),
        Err(ParseError::Failure) => return Err(ParseError::Failure),
        Err(ParseError::Error) => {},
    }
    match literal_at(s, p, e) {
        Ok((q, e2, l)) => return Ok((q, e2, Expr::Literal(l))),
        Err(ParseError::Failure) => return Err(ParseError::Failure),
        Err(ParseError::Error) => {},
    }
    match ident_at(s, p, e) {
        Ok((q, name)) => Ok((q, e, Expr::Ident(name))),
        Err(err) => Err(err),
    }
}

fn function_call_at<'a>(s: &'a str, p: usize, e: usize) -> (r: Result<(usize, usize, &'a str, Vec<Expr<'a>>), ParseError>)
    requires
        p <= e <= s@.len(),
    ensures
        match r {
            Ok((q, e2, name, args)) => spec_function_call(s@, p as int, e as int)
                == Ok::<(int, int, Seq<char>, Seq<ExprV>), ParseError>((q as int, e2 as int, name@, view_exprs(&args, args.len() as int)))
                && inside(p as int, e as int, q as int, e2 as int),
            Err(err) => spec_function_call(s@, p as int, e as int) == Err::<(int, int, Seq<char>, Seq<ExprV>), ParseError>(err),
        },
    decreases e - p, 2nat,
{
    let (q, name) = match ident_at(s, p, e) {
        Ok(x) => x,
        Err(err) => return Err(err),
    };
    if !(q < e && s.get_char(q) == '(') {
        return Err(ParseError::Error);
    }
    match expr_list_at(s, q + 1, e) {
        Ok((r, e2, args)) => {
            if r < e2 && s.get_char(r) == ')' {
                Ok((r + 1, e2, name, args))
            } else {
                Err(ParseError::Failure)
            }
        },
        Err(_) => Err(ParseError::Failure),
    }
}

fn expr_list_at<'a>(s: &'a str, p: usize, e: usize) -> (r: Result<(usize, usize, Vec<Expr<'a>>), ParseError>)
    requires
        p <= e <= s@.len(),
    ensures
        match r {
            Ok((q, e2, xs)) => spec_expr_list(s@, p as int, e as int)
                == Ok::<(int, int, Seq<ExprV>), ParseError>((q as int, e2 as int, view_exprs(&xs, xs.len() as int)))
                && inside(p as int, e as int, q as int, e2 as int),
            Err(err) => spec_expr_list(s@, p as int, e as int) == Err::<(int, int, Seq<ExprV>), ParseError>(err),
        },
    decreases e - p, 4nat,
{
    match expr_at(s, p, e) {
        Err(ParseError::Error) => {
            let xs: Vec<Expr<'a>> = Vec::new();
            Ok((p, e, xs))
        },
        Err(ParseError::Failure) => Err(ParseError::Failure),
        Ok((q, e2, x)) => {
            let mut xs: Vec<Expr<'a>> = Vec::new();
            xs.push(x);
            proof {
                assert(view_exprs(&xs, 0) =~= Seq::<ExprV>::empty());
                assert(view_exprs(&xs, 1) =~= seq![view_expr(&x)]);
            }
            expr_list_tail_at(s, q, e2, xs)
        },
    }
}

fn expr_list_tail_at<'a>(s: &'a str, p: usize, e: usize, xs: Vec<Expr<'a>>) -> (r: Result<(usize, usize, Vec<Expr<'a>>), ParseError>)
    requires
        p <= e <= s@.len(),
    ensures
        match r {
            Ok((q, e2, ys)) => spec_expr_list_tail(s@, p as int, e as int, view_exprs(&xs, xs.len() as int))
                == Ok::<(int, int, Seq<ExprV>), ParseError>((q as int, e2 as int, view_exprs(&ys, ys.len() as int)))
                && inside(p as int, e as int, q as int, e2 as int),
            Err(err) => spec_expr_list_tail(s@, p as int, e as int, view_exprs(&xs, xs.len() as int))
                == Err::<(int, int, Seq<ExprV>), ParseError>(err),
        },
    decreases e - p, 0nat,
{
    if !(p < e && s.get_char(p) == ',') {
        return Ok((p, e, xs));
    }
    match expr_at(s, p + 1, e) {
        Err(ParseError::Error) => Ok((p, e, xs)),
        Err(ParseError::Failure) => Err(ParseError::Failure),
        Ok((q, e2, x)) => {
            let ghost before = xs;
            let ghost vx = view_expr(&x);
            let mut xs = xs;
            xs.push(x);
            proof {
                lemma_view_exprs_prefix(&before, &xs, before.len() as int);
                assert(view_exprs(&xs, xs.len() as int) == view_exprs(&before, before.len() as int).push(vx));
            }
            expr_list_tail_at(s, q, e2, xs)
        },
    }
}

fn literal_at<'a>(s: &'a str, p: usize, e: usize) -> (r: Result<(usize, usize, Literal<'a>), ParseError>)
    requires
        p <= e <= s@.len(),
    ensures
        match r {
            Ok((q, e2, l)) => spec_literal(s@, p as int, e as int) == Ok::<(int, int, LiteralV), ParseError>((q as int, e2 as int, view_literal(&l)))
                && inside(p as int, e as int, q as int, e2 as int),
            Err(err) => spec_literal(s@, p as int, e as int) == Err::<(int, int, LiteralV), ParseError>(err),
        },
    decreases e - p, 2nat,
{
    let a = skip_run_at(s, p, e, CharClass::UnicodeSpace);
    let b = trim_end_at(s, a, e);
    let d = skip_run_at(s, a, b, CharClass::Digit);
    if a < d {
        proof {
            lemma_skip_run_class(s@, a as int, b as int, CharClass::Digit);
        }
        if let Some(v) = number_at(s, a, d) {
            return Ok((d, b, Literal::Num(v)));
        }
    }
    if a < b && s.get_char(a) == '{' {
        return record_at(s, a, b);
    }
    match quoted_at(s, a, b) {
        Ok((q, text)) => Ok((q, b, Literal::String(text))),
        Err(_) => match ident_at(s, a, b) {
            Ok((q, name)) => Ok((q, b, Literal::Ident(name))),
            Err(err) => Err(err),
        },
    }
}

fn record_at<'a>(s: &'a str, p: usize, e: usize) -> (r: Result<(usize, usize, Literal<'a>), ParseError>)
    requires
        p < e <= s@.len(),
    ensures
        match r {
            Ok((q, e2, l)) => spec_record(s@, p as int, e as int) == Ok::<(int, int, LiteralV), ParseError>((q as int, e2 as int, view_literal(&l)))
                && inside(p as int, e as int, q as int, e2 as int),
            Err(err) => spec_record(s@, p as int, e as int) == Err::<(int, int, LiteralV), ParseError>(err),
        },
    decreases e - p, 1nat,
{
    match field_list_at(s, p + 1, e) {
        Ok((r, e2, fields)) => {
            if r < e2 && s.get_char(r) == '}' {
                Ok((r + 1, e2, Literal::Record(Record { fields })))
            } else {
                Err(ParseError::Failure)
            }
        },
        Err(_) => Err(ParseError::Failure),
    }
}

fn field_at<'a>(s: &'a str, p: usize, e: usize) -> (r: Result<(usize, usize, (&'a str, Expr<'a>)), ParseError>)
    requires
        p <= e <= s@.len(),
    ensures
        match r {
            Ok((q, e2, f)) => spec_field(s@, p as int, e as int)
                == Ok::<(int, int, (Seq<char>, ExprV)), ParseError>((q as int, e2 as int, (f.0@, view_expr(&f.1))))
                && inside(p as int, e as int, q as int, e2 as int) && p < q,
            Err(err) => spec_field(s@, p as int, e as int) == Err::<(int, int, (Seq<char>, ExprV)), ParseError>(err),
        },
    decreases e - p, 0nat,
{
    let (q, name) = match ident_at(s, p, e) {
        Ok(x) => x,
        Err(err) => return Err(err),
    };
    if !(q < e && s.get_char(q) == ':') {
        return Err(ParseError::Error);
    }
    match expr_at(s, q + 1, e) {
        Ok((r, e2, x)) => Ok((r, e2, (name, x))),
        Err(err) => Err(err),
    }
}

fn field_list_at<'a>(s: &'a str, p: usize, e: usize) -> (r: Result<(usize, usize, Vec<(&'a str, Expr<'a>)>), ParseError>)
    requires
        p <= e <= s@.len(),
    ensures
        match r {
            Ok((q, e2, fs)) => spec_field_list(s@, p as int, e as int)
                == Ok::<(int, int, Seq<(Seq<char>, ExprV)>), ParseError>((q as int, e2 as int, view_fields(&fs, fs.len() as int)))
                && inside(p as int, e as int, q as int, e2 as int),
            Err(err) => spec_field_list(s@, p as int, e as int) == Err::<(int, int, Seq<(Seq<char>, ExprV)>), ParseError>(err),
        },
    decreases e - p, 1nat,
{
    match field_at(s, p, e) {
        Err(ParseError::Error) => {
            let fs: Vec<(&'a str, Expr<'a>)> = Vec::new();
            Ok((p, e, fs))
        },
        Err(ParseError::Failure) => Err(ParseError::Failure),
        Ok((q, e2, f)) => {
            let ghost vf = (f.0@, view_expr(&f.1));
            let mut fs: Vec<(&'a str, Expr<'a>)> = Vec::new();
            fs.push(f);
            proof {
                assert(view_fields(&fs, 0) =~= Seq::<(Seq<char>, ExprV)>::empty());
                assert(view_fields(&fs, 1) =~= seq![vf]);
            }
            field_list_tail_at(s, q, e2, fs)
        },
    }
}

fn field_list_tail_at<'a>(s: &'a str, p: usize, e: usize, fs: Vec<(&'a str, Expr<'a>)>) -> (r: Result<(usize, usize, Vec<(&'a str, Expr<'a>)>), ParseError>)
    requires
        p <= e <= s@.len(),
    ensures
        match r {
            Ok((q, e2, gs)) => spec_field_list_tail(s@, p as int, e as int, view_fields(&fs, fs.len() as int))
                == Ok::<(int, int, Seq<(Seq<char>, ExprV)>), ParseError>((q as int, e2 as int, view_fields(&gs, gs.len() as int)))
                && inside(p as int, e as int, q as int, e2 as int),
            Err(err) => spec_field_list_tail(s@, p as int, e as int, view_fields(&fs, fs.len() as int))
                == Err::<(int, int, Seq<(Seq<char>, ExprV)>), ParseError>(err),
        },
    decreases e - p, 0nat,
{
    if !(p < e && s.get_char(p) == ',') {
        return Ok((p, e, fs));
    }
    match field_at(s, p + 1, e) {
        Err(ParseError::Error) => Ok((p, e, fs)),
        Err(ParseError::Failure) => Err(ParseError::Failure),
        Ok((q, e2, f)) => {
            let ghost before = fs;
            let ghost vf = (f.0@, view_expr(&f.1));
            let mut fs = fs;
            fs.push(f);
            proof {
                lemma_view_fields_prefix(&before, &fs, before.len() as int);
                assert(view_fields(&fs, fs.len() as int) == view_fields(&before, before.len() as int).push(vf));
            }
            field_list_tail_at(s, q, e2, fs)
        },
    }
}


fn assignment_at<'a>(s: &'a str, p: usize, e: usize) -> (r: Result<(usize, usize, &'a str, Expr<'a>), ParseError>)
    requires
        p <= e <= s@.len(),
    ensures
        match r {
            Ok((q, e2, name, x)) => spec_assignment(s@, p as int, e as int)
                == Ok::<(int, int, Seq<char>, ExprV), ParseError>((q as int, e2 as int, name@, view_expr(&x)))
                && inside(p as int, e as int, q as int, e2 as int),
            Err(err) => spec_assignment(s@, p as int, e as int) == Err::<(int, int, Seq<char>, ExprV), ParseError>(err),
        },
{
    let (q, name) = match ident_at(s, p, e) {
        Ok(x) => x,
        Err(err) => return Err(err),
    };
    let a = skip_run_at(s, q, e, CharClass::Space);
    if !(a < e && s.get_char(a) == '=') {
        return Err(ParseError::Error);
    }
    let b = skip_run_at(s, a + 1, e, CharClass::Space);
    match expr_at(s, b, e) {
        Ok((r, e2, x)) => Ok((r, e2, name, x)),
        Err(_) => Err(ParseError::Failure),
    }
}

/// What a parse of a whole input left over: the characters of `input` in the
/// window `[q, e)`.
pub open spec fn rest_is(rest: &str, input: &str, q: int, e: int) -> bool {
    0 <= q <= e <= input@.len() && rest@ == input@.subrange(q, e)
}

impl<'a> Line<'a> {
    /// Reads one command line: a builtin, else an assignment, else an
    /// expression. Yields what is left of the input and the line.
    pub fn parse(input: &'a str) -> (r: Result<(&'a str, Line<'a>), ParseError>)
        ensures
            match r {
                Ok((rest, line)) => spec_line(input@) is Ok && {
                    let v = spec_line(input@)->Ok_0;
                    rest_is(rest, input, v.0, v.1) && view_line(&line) == v.2
                },
                Err(err) => spec_line(input@) == Err::<(int, int, LineV), ParseError>(err),
            },
    {
        let e = input.unicode_len();
        match builtin_at(input, 0, e) {
            Ok((q, name, args)) => {
                let rest = input.substring_char(q, e);
                assert(rest_is(rest, input, q as int, e as int));
                return Ok((rest, Line::Builtin(name, args)));
            },
            Err(ParseError::Failure) => return Err(ParseError::Failure),
            Err(ParseError::Error) => {},
        }
        match assignment_at(input, 0, e) {
            Ok((q, e2, name, x)) => {
                let rest = input.substring_char(q, e2);
                assert(rest_is(rest, input, q as int, e2 as int));
                return Ok((rest, Line::Assignment(name, x)));
            },
            Err(ParseError::Failure) => return Err(ParseError::Failure),
            Err(ParseError::Error) => {},
        }
        match expr_at(input, 0, e) {
            Ok((q, e2, x)) => {
                let rest = input.substring_char(q, e2);
                assert(rest_is(rest, input, q as int, e2 as int));
                Ok((rest, Line::Expr(x)))
            },
            Err(err) => Err(err),
        }
    }
}

impl<'a> Expr<'a> {
    /// Reads an expression: a function call, else a literal, else a variable.
    pub fn parse(input: &'a str) -> (r: Result<(&'a str, Expr<'a>), ParseError>)
        ensures
            match r {
                Ok((rest, x)) => spec_expr(input@, 0, input@.len() as int) is Ok && {
                    let v = spec_expr(input@, 0, input@.len() as int)->Ok_0;
                    rest_is(rest, input, v.0, v.1) && view_expr(&x) == v.2
                },
                Err(err) => spec_expr(input@, 0, input@.len() as int) == Err::<(int, int, ExprV), ParseError>(err),
            },
    {
        let e = input.unicode_len();
        match expr_at(input, 0, e) {
            Ok((q, e2, x)) => {
                let rest = input.substring_char(q, e2);
                assert(rest_is(rest, input, q as int, e2 as int));
                Ok((rest, x))
            },
            Err(err) => Err(err),
        }
    }
}

impl<'a> Literal<'a> {
    /// Reads a literal after trimming white space from both ends of the input.
    pub fn parse(input: &'a str) -> (r: Result<(&'a str, Literal<'a>), ParseError>)
        ensures
            match r {
                Ok((rest, l)) => spec_literal(input@, 0, input@.len() as int) is Ok && {
                    let v = spec_literal(input@, 0, input@.len() as int)->Ok_0;
                    rest_is(rest, input, v.0, v.1) && view_literal(&l) == v.2
                },
                Err(err) => spec_literal(input@, 0, input@.len() as int) == Err::<(int, int, LiteralV), ParseError>(err),
            },
    {
        let e = input.unicode_len();
        match literal_at(input, 0, e) {
            Ok((q, e2, l)) => {
                let rest = input.substring_char(q, e2);
                assert(rest_is(rest, input, q as int, e2 as int));
                Ok((rest, l))
            },
            Err(err) => Err(err),
        }
    }
}

/// Reads `name(expr, ...)`.
pub fn function_call<'a>(input: &'a str) -> (r: Result<(&'a str, (&'a str, Vec<Expr<'a>>)), ParseError>)
    ensures
        match r {
            Ok((rest, (name, args))) => spec_function_call(input@, 0, input@.len() as int) is Ok && {
                let v = spec_function_call(input@, 0, input@.len() as int)->Ok_0;
                rest_is(rest, input, v.0, v.1) && name@ == v.2 && view_exprs(&args, args.len() as int) == v.3
            },
            Err(err) => spec_function_call(input@, 0, input@.len() as int) == Err::<(int, int, Seq<char>, Seq<ExprV>), ParseError>(err),
        },
{
    let e = input.unicode_len();
    match function_call_at(input, 0, e) {
        Ok((q, e2, name, args)) => {
            let rest = input.substring_char(q, e2);
            assert(rest_is(rest, input, q as int, e2 as int));
            Ok((rest, (name, args)))
        },
        Err(err) => Err(err),
    }
}

/// Reads a name with the white space around it.
pub fn ident<'a>(input: &'a str) -> (r: Result<(&'a str, &'a str), ParseError>)
    ensures
        match r {
            Ok((rest, name)) => spec_ident(input@, 0, input@.len() as int) is Ok && {
                let v = spec_ident(input@, 0, input@.len() as int)->Ok_0;
                rest_is(rest, input, v.0, input@.len() as int) && name@ == v.1
            },
            Err(err) => spec_ident(input@, 0, input@.len() as int) == Err::<(int, Seq<char>), ParseError>(err),
        },
{
    let e = input.unicode_len();
    match ident_at(input, 0, e) {
        Ok((q, name)) => {
            let rest = input.substring_char(q, e);
            assert(rest_is(rest, input, q as int, e as int));
            Ok((rest, name))
        },
        Err(err) => Err(err),
    }
}

/// Reads `.name args`.
pub fn builtin_call<'a>(input: &'a str) -> (r: Result<(&'a str, (&'a str, Vec<&'a str>)), ParseError>)
    ensures
        match r {
            Ok((rest, (name, args))) => spec_builtin_call(input@, 0, input@.len() as int) is Ok && {
                let v = spec_builtin_call(input@, 0, input@.len() as int)->Ok_0;
                rest_is(rest, input, v.0, input@.len() as int) && name@ == v.1 && view_strs(args@) == v.2
            },
            Err(err) => spec_builtin_call(input@, 0, input@.len() as int) == Err::<(int, Seq<char>, Seq<Seq<char>>), ParseError>(err),
        },
{
    let e = input.unicode_len();
    match builtin_call_at(input, 0, e) {
        Ok((q, name, args)) => {
            let rest = input.substring_char(q, e);
            assert(rest_is(rest, input, q as int, e as int));
            Ok((rest, (name, args)))
        },
        Err(err) => Err(err),
    }
}

/// Reads `? args`.
pub fn special_char<'a>(input: &'a str) -> (r: Result<(&'a str, (&'a str, Vec<&'a str>)), ParseError>)
    ensures
        match r {
            Ok((rest, (name, args))) => spec_special_char(input@, 0, input@.len() as int) is Ok && {
                let v = spec_special_char(input@, 0, input@.len() as int)->Ok_0;
                rest_is(rest, input, v.0, input@.len() as int) && name@ == v.1 && view_strs(args@) == v.2
            },
            Err(err) => spec_special_char(input@, 0, input@.len() as int) == Err::<(int, Seq<char>, Seq<Seq<char>>), ParseError>(err),
        },
{
    let e = input.unicode_len();
    match special_char_at(input, 0, e) {
        Ok((q, name, args)) => {
            let rest = input.substring_char(q, e);
            assert(rest_is(rest, input, q as int, e as int));
            Ok((rest, (name, args)))
        },
        Err(err) => Err(err),
    }
}

} // verus!
