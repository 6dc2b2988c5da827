//! Derived-value expressions of presets: `sub(extras.limit, extras.usedCost)`,
//! `mul(div(a, b), 100)`, `42`, `balance.total`.
//!
//! A number literal is kept as its text; evaluating it is floating point and is
//! done outside this library.

use vstd::prelude::*;
use crate::path::{is_ascii_digit, is_ascii_alphanumeric};
use crate::text::{is_whitespace, trim, trim_start, trim_end, push_char, copy_range, trim_chars, string_of, find_char};
use crate::fmt::int_text;

verus! {

broadcast use vstd::string::group_string_axioms;

#[derive(Clone, Copy, PartialEq, Eq, Debug, Structural)]
pub enum Op {
    Add,
    Sub,
    Mul,
    Div,
}

pub enum Expr {
    Call(Op, Box<Expr>, Box<Expr>),
    Ref(String),
    /// A number literal, as written.
    Num(String),
}

pub enum ExprV {
    Call(Op, Box<ExprV>, Box<ExprV>),
    Ref(Seq<char>),
    Num(Seq<char>),
}

pub open spec fn expr_view(e: Expr) -> ExprV
    decreases e,
{
    match e {
        Expr::Call(op, a, b) => ExprV::Call(op, Box::new(expr_view(*a)), Box::new(expr_view(*b))),
        Expr::Ref(r) => ExprV::Ref(r@),
        Expr::Num(n) => ExprV::Num(n@),
    }
}

impl View for Expr {
    type V = ExprV;

    open spec fn view(&self) -> ExprV {
        expr_view(*self)
    }
}

// ------------------------------------------------------------------ number literals

pub open spec fn all_digits(s: Seq<char>) -> bool {
    forall|i: int| 0 <= i < s.len() ==> is_ascii_digit(#[trigger] s[i])
}

/// Position of the first `c` (or `d`) in `s`, or its length.
pub open spec fn pos_of(s: Seq<char>, c: char, d: char) -> int
    decreases s.len(),
{
    if s.len() == 0 {
        0
    } else if s[0] == c || s[0] == d {
        0
    } else {
        1 + pos_of(s.drop_first(), c, d)
    }
}

/// `Digit+ | Digit+ '.' Digit* | Digit* '.' Digit+`
pub open spec fn is_mantissa(m: Seq<char>) -> bool {
    let p = pos_of(m, '.', '.');
    if p >= m.len() {
        m.len() > 0 && all_digits(m)
    } else {
        m.len() >= 2 && all_digits(m.take(p)) && all_digits(m.skip(p + 1))
    }
}

/// `Sign? Digit+`
pub open spec fn is_signed_digits(t: Seq<char>) -> bool {
    let u = if t.len() > 0 && (t[0] == '+' || t[0] == '-') { t.skip(1) } else { t };
    u.len() > 0 && all_digits(u)
}

/// `( Digit+ | Digit+ '.' Digit* | Digit* '.' Digit+ ) ( 'e' Sign? Digit+ )?`, `e` in either case.
pub open spec fn is_number_text(s: Seq<char>) -> bool {
    let k = pos_of(s, 'e', 'E');
    is_mantissa(s.take(k)) && (k >= s.len() || is_signed_digits(s.skip(k + 1)))
}

pub open spec fn ascii_lower(c: char) -> char {
    if 'A' <= c <= 'Z' { ((c as int) + 32) as char } else { c }
}

pub open spec fn is_word_ignoring_case(s: Seq<char>, w: Seq<char>) -> bool {
    s.len() == w.len() && forall|i: int| 0 <= i < s.len() ==> ascii_lower(#[trigger] s[i]) == w[i]
}

/// The texts that `str::parse::<f64>` accepts:
/// `Sign? ( 'inf' | 'infinity' | 'nan' | Number )`, the words in any case.
pub open spec fn is_float_text(s: Seq<char>) -> bool {
    let u = if s.len() > 0 && (s[0] == '+' || s[0] == '-') { s.skip(1) } else { s };
    is_word_ignoring_case(u, seq!['i', 'n', 'f']) || is_word_ignoring_case(
        u,
        seq!['i', 'n', 'f', 'i', 'n', 'i', 't', 'y'],
    ) || is_word_ignoring_case(u, seq!['n', 'a', 'n']) || is_number_text(u)
}

fn digit_c(c: char) -> (r: bool)
    ensures
        r == is_ascii_digit(c),
{
    '0' <= c && c <= '9'
}

fn all_digits_range(s: &[char], a: usize, b: usize) -> (r: bool)
    requires
        a <= b <= s@.len(),
    ensures
        r == all_digits(s@.subrange(a as int, b as int)),
{
    let mut i = a;
    while i < b
        invariant
            a <= i <= b,
            b <= s@.len(),
            forall|k: int| a <= k < i ==> is_ascii_digit(#[trigger] s@[k]),
        decreases b - i,
    {
        if !digit_c(s[i]) {
            assert(!is_ascii_digit(s@.subrange(a as int, b as int)[i - a]));
            return false;
        }
        i = i + 1;
    }
    assert forall|k: int| 0 <= k < b - a implies is_ascii_digit(
        #[trigger] s@.subrange(a as int, b as int)[k],
    ) by {
        assert(s@.subrange(a as int, b as int)[k] == s@[a + k]);
    }
    true
}

pub(crate) fn pos_of_range(s: &[char], a: usize, b: usize, c: char, d: char) -> (r: usize)
    requires
        a <= b <= s@.len(),
    ensures
        a <= r <= b,
        r - a == pos_of(s@.subrange(a as int, b as int), c, d),
{
    let mut i = a;
    while i < b && s[i] != c && s[i] != d
        invariant
            a <= i <= b,
            b <= s@.len(),
            pos_of(s@.subrange(a as int, b as int), c, d) == (i - a) + pos_of(
                s@.subrange(i as int, b as int),
                c,
                d,
            ),
        decreases b - i,
    {
        assert(s@.subrange(i as int, b as int).drop_first() =~= s@.subrange(i + 1, b as int));
        i = i + 1;
    }
    i
}

fn word_ignoring_case(s: &[char], a: usize, w: &[char]) -> (r: bool)
    requires
        a <= s@.len(),
    ensures
        r == is_word_ignoring_case(s@.skip(a as int), w@),
{
    let n = s.len();
    if n - a != w.len() {
        return false;
    }
    let mut i: usize = 0;
    while i < w.len()
        invariant
            n == s@.len(),
            a <= s@.len(),
            s@.len() - a == w@.len(),
            i <= w@.len(),
            forall|k: int| 0 <= k < i ==> ascii_lower(#[trigger] s@.skip(a as int)[k]) == w@[k],
        decreases w.len() - i,
    {
        let c = s[a + i];
        let lc = if 'A' <= c && c <= 'Z' { ((c as u32) + 32) as u8 as char } else { c };
        assert(lc == ascii_lower(s@.skip(a as int)[i as int]));
        if lc != w[i] {
            return false;
        }
        i = i + 1;
    }
    true
}

/// Whether `str::parse::<f64>` accepts `s`.
pub fn is_float_chars(s: &[char]) -> (r: bool)
    ensures
        r == is_float_text(s@),
{
    let a: usize = if s.len() > 0 && (s[0] == '+' || s[0] == '-') { 1 } else { 0 };
    assert(s@.skip(0) =~= s@);
    let inf = ['i', 'n', 'f'];
    let infinity = ['i', 'n', 'f', 'i', 'n', 'i', 't', 'y'];
    let nan = ['n', 'a', 'n'];
    assert(inf@ =~= seq!['i', 'n', 'f']);
    assert(infinity@ =~= seq!['i', 'n', 'f', 'i', 'n', 'i', 't', 'y']);
    assert(nan@ =~= seq!['n', 'a', 'n']);
    if word_ignoring_case(s, a, &inf) || word_ignoring_case(s, a, &infinity) || word_ignoring_case(
        s,
        a,
        &nan,
    ) {
        return true;
    }
    let n = s.len();
    let ghost u = s@.skip(a as int);
    assert(u =~= s@.subrange(a as int, n as int));
    let k = pos_of_range(s, a, n, 'e', 'E');
    let ghost m = u.take(k - a);
    assert(m =~= s@.subrange(a as int, k as int));
    let p = pos_of_range(s, a, k, '.', '.');
    let mant = if p >= k {
        k > a && all_digits_range(s, a, k)
    } else {
        assert(m.take(p - a) =~= s@.subrange(a as int, p as int));
        assert(m.skip(p - a + 1) =~= s@.subrange(p + 1, k as int));
        k - a >= 2 && all_digits_range(s, a, p) && all_digits_range(s, p + 1, k)
    };
    if !mant {
        return false;
    }
    if k >= n {
        return true;
    }
    let ghost t = u.skip(k - a + 1);
    assert(t =~= s@.subrange(k + 1, n as int));
    let b: usize = if k + 1 < n && (s[k + 1] == '+' || s[k + 1] == '-') { k + 2 } else { k + 1 };
    assert(b == k + 1 ==> t =~= s@.subrange(b as int, n as int));
    assert(b == k + 2 ==> t.skip(1) =~= s@.subrange(b as int, n as int));
    b < n && all_digits_range(s, b, n)
}

// ------------------------------------------------------------------ references

pub open spec fn is_ref_char(c: char) -> bool {
    is_ascii_alphanumeric(c) || c == '_' || c == '-' || c == '[' || c == ']'
}

/// `<namespace>.<path>`: dot-separated non-empty segments of name characters
/// (letters, digits, `_`, `-`, `[`, `]`), at least two of them, whose brackets are
/// array subscripts `[digits]` as a JSON path has them (it reads as a path).
pub open spec fn is_ref_text(s: Seq<char>) -> bool {
    &&& crate::path::path_tokens(s) is Some
    &&& s.contains('.')
    &&& forall|i: int| 0 <= i < s.len() ==> (#[trigger] s[i] == '.' || is_ref_char(s[i]))
    &&& s[0] != '.'
    &&& s.last() != '.'
    &&& forall|i: int| 0 <= i < s.len() - 1 ==> !(#[trigger] s[i] == '.' && s[i + 1] == '.')
}

fn is_ref_char_exec(c: char) -> (r: bool)
    ensures
        r == is_ref_char(c),
{
    ('a' <= c && c <= 'z') || ('A' <= c && c <= 'Z') || ('0' <= c && c <= '9') || c == '_' || c
        == '-' || c == '[' || c == ']'
}

/// Whether `s` is a reference such as `extras.limit` or `usage.costSeries[0]`.
pub fn is_ref_chars(s: &[char]) -> (r: bool)
    ensures
        r == is_ref_text(s@),
{
    let n = s.len();
    if n == 0 {
        return false;
    }
    let mut has_dot = false;
    let mut i: usize = 0;
    while i < n
        invariant
            n == s@.len(),
            n > 0,
            i <= n,
            has_dot == exists|k: int| 0 <= k < i && s@[k] == '.',
            forall|k: int| 0 <= k < i ==> (#[trigger] s@[k] == '.' || is_ref_char(s@[k])),
            forall|k: int| 0 <= k < i && k < n - 1 ==> !(#[trigger] s@[k] == '.' && s@[k + 1] == '.'),
        decreases n - i,
    {
        let c = s[i];
        if c == '.' {
            has_dot = true;
            if i + 1 < n && s[i + 1] == '.' {
                assert(!is_ref_text(s@));
                return false;
            }
        } else if !is_ref_char_exec(c) {
            assert(!is_ref_text(s@));
            return false;
        }
        i = i + 1;
    }
    assert(has_dot == s@.contains('.'));
    if !(has_dot && s[0] != '.' && s[n - 1] != '.') {
        return false;
    }
    let text = crate::text::string_of(s);
    crate::path::tokenize(text.as_str()).is_some()
}

/// `Some(s)` when `s` is a reference such as `balance.total` or `usage.costSeries[0]`.
pub fn parse_ref(s: &str) -> (r: Option<&str>)
    ensures
        r is Some <==> is_ref_text(s@),
        r matches Some(x) ==> x@ == s@,
{
    let cs = crate::text::chars_of(s);
    if is_ref_chars(&cs) {
        Some(s)
    } else {
        None
    }
}

} // verus!

verus! {

// ------------------------------------------------------------------ argument lists

/// Splits `inner` at the commas outside parentheses; `depth` counts open parentheses.
pub open spec fn split_scan(
    inner: Seq<char>,
    i: int,
    depth: int,
    start: int,
    parts: Seq<Seq<char>>,
) -> Result<Seq<Seq<char>>, Seq<char>>
    decreases inner.len() - i,
{
    if i < 0 || i >= inner.len() {
        Ok(parts.push(inner.subrange(start, inner.len() as int)))
    } else if inner[i] == '(' {
        split_scan(inner, i + 1, depth + 1, start, parts)
    } else if inner[i] == ')' {
        if depth == 0 {
            Err("括号不匹配"@)
        } else {
            split_scan(inner, i + 1, depth - 1, start, parts)
        }
    } else if inner[i] == ',' && depth == 0 {
        split_scan(inner, i + 1, depth, i + 1, parts.push(inner.subrange(start, i)))
    } else {
        split_scan(inner, i + 1, depth, start, parts)
    }
}

pub open spec fn split_args_spec(inner: Seq<char>) -> Result<Seq<Seq<char>>, Seq<char>> {
    split_scan(inner, 0, 0, 0, Seq::empty())
}

pub proof fn lemma_split_scan_shorter(
    inner: Seq<char>,
    i: int,
    depth: int,
    start: int,
    parts: Seq<Seq<char>>,
)
    requires
        0 <= start <= i <= inner.len(),
        forall|k: int| 0 <= k < parts.len() ==> (#[trigger] parts[k]).len() <= inner.len(),
    ensures
        split_scan(inner, i, depth, start, parts) matches Ok(ps) ==> forall|k: int|
            0 <= k < ps.len() ==> (#[trigger] ps[k]).len() <= inner.len(),
    decreases inner.len() - i,
{
    if i >= inner.len() {
    } else if inner[i] == '(' {
        lemma_split_scan_shorter(inner, i + 1, depth + 1, start, parts);
    } else if inner[i] == ')' {
        if depth != 0 {
            lemma_split_scan_shorter(inner, i + 1, depth - 1, start, parts);
        }
    } else if inner[i] == ',' && depth == 0 {
        let p2 = parts.push(inner.subrange(start, i));
        assert forall|k: int| 0 <= k < p2.len() implies (#[trigger] p2[k]).len() <= inner.len() by {
            if k < parts.len() {
                assert(p2[k] == parts[k]);
            }
        }
        lemma_split_scan_shorter(inner, i + 1, depth, i + 1, p2);
    } else {
        lemma_split_scan_shorter(inner, i + 1, depth, start, parts);
    }
}

fn split_args(inner: &[char]) -> (r: Result<Vec<Vec<char>>, String>)
    ensures
        match (r, split_args_spec(inner@)) {
            (Ok(v), Ok(ps)) => v@.map_values(|x: Vec<char>| x@) == ps,
            (Err(e), Err(m)) => e@ == m,
            _ => false,
        },
{
    let mut parts: Vec<Vec<char>> = Vec::new();
    let mut depth: usize = 0;
    let mut start: usize = 0;
    let mut i: usize = 0;
    assert(parts@.map_values(|x: Vec<char>| x@) =~= Seq::<Seq<char>>::empty());
    while i < inner.len()
        invariant
            start <= i <= inner@.len(),
            depth <= i,
            split_args_spec(inner@) == split_scan(
                inner@,
                i as int,
                depth as int,
                start as int,
                parts@.map_values(|x: Vec<char>| x@),
            ),
        decreases inner.len() - i,
    {
        let c = inner[i];
        if c == '(' {
            depth = depth + 1;
        } else if c == ')' {
            if depth == 0 {
                return Err("括号不匹配".to_string());
            }
            depth = depth - 1;
        } else if c == ',' && depth == 0 {
            let piece = copy_range(inner, start, i);
            let ghost old_parts = parts@.map_values(|x: Vec<char>| x@);
            parts.push(piece);
            assert(parts@.map_values(|x: Vec<char>| x@) =~= old_parts.push(inner@.subrange(start as int, i as int)));
            start = i + 1;
        }
        i = i + 1;
    }
    let piece = copy_range(inner, start, inner.len());
    let ghost old_parts = parts@.map_values(|x: Vec<char>| x@);
    parts.push(piece);
    assert(parts@.map_values(|x: Vec<char>| x@) =~= old_parts.push(inner@.subrange(start as int, inner@.len() as int)));
    Ok(parts)
}

// ------------------------------------------------------------------ expressions

pub open spec fn op_named(name: Seq<char>) -> Option<Op> {
    if name == seq!['a', 'd', 'd'] {
        Some(Op::Add)
    } else if name == seq!['s', 'u', 'b'] {
        Some(Op::Sub)
    } else if name == seq!['m', 'u', 'l'] {
        Some(Op::Mul)
    } else if name == seq!['d', 'i', 'v'] {
        Some(Op::Div)
    } else {
        None
    }
}

pub proof fn lemma_trim_shorter(s: Seq<char>)
    ensures
        trim(s).len() <= s.len(),
{
    lemma_trim_start_shorter(s);
    lemma_trim_end_shorter(trim_start(s));
}

proof fn lemma_trim_start_shorter(s: Seq<char>)
    ensures
        trim_start(s).len() <= s.len(),
    decreases s.len(),
{
    if s.len() > 0 && is_whitespace(s[0]) {
        lemma_trim_start_shorter(s.drop_first());
    }
}

proof fn lemma_trim_end_shorter(s: Seq<char>)
    ensures
        trim_end(s).len() <= s.len(),
    decreases s.len(),
{
    if s.len() > 0 && is_whitespace(s.last()) {
        lemma_trim_end_shorter(s.drop_last());
    }
}

/// What `parse_expr` gives for the text `s0`.
pub open spec fn parse_expr_spec(s0: Seq<char>) -> Result<ExprV, Seq<char>>
    decreases s0.len(),
{
    let s = trim(s0);
    proof {
        lemma_trim_shorter(s0);
    }
    if s.len() == 0 {
        Err("空表达式"@)
    } else if is_float_text(s) {
        Ok(ExprV::Num(s))
    } else if s.contains('(') {
        let paren = pos_of(s, '(', '(');
        if s.last() != ')' {
            Err("缺少右括号: "@ + s)
        } else {
            let name = trim(s.subrange(0, paren));
            let inner = s.subrange(paren + 1, s.len() - 1);
            match split_args_spec(inner) {
                Err(e) => Err(e),
                Ok(args) => {
                    proof {
                        lemma_pos_of_bound(s, '(', '(');
                        lemma_split_scan_shorter(inner, 0, 0, 0, Seq::empty());
                    }
                    if args.len() != 2 {
                        Err("运算符 "@ + name + " 需要 2 个参数(实际 "@ + int_text(args.len() as int) + ")"@)
                    } else {
                        match op_named(name) {
                            None => Err("未知运算符: "@ + name + "(支持 add/sub/mul/div)"@),
                            Some(op) => match parse_expr_spec(args[0]) {
                                Err(e) => Err(e),
                                Ok(a) => match parse_expr_spec(args[1]) {
                                    Err(e) => Err(e),
                                    Ok(b) => Ok(ExprV::Call(op, Box::new(a), Box::new(b))),
                                },
                            },
                        }
                    }
                },
            }
        }
    } else if is_ref_text(s) {
        Ok(ExprV::Ref(s))
    } else {
        Err("非法引用或字面量: "@ + s)
    }
}

pub proof fn lemma_pos_of_bound(s: Seq<char>, c: char, d: char)
    ensures
        0 <= pos_of(s, c, d) <= s.len(),
        pos_of(s, c, d) < s.len() ==> (s[pos_of(s, c, d)] == c || s[pos_of(s, c, d)] == d),
        forall|k: int| 0 <= k < pos_of(s, c, d) ==> #[trigger] s[k] != c && s[k] != d,
        (s.contains(c) || s.contains(d)) ==> pos_of(s, c, d) < s.len(),
    decreases s.len(),
{
    if s.len() > 0 && !(s[0] == c || s[0] == d) {
        lemma_pos_of_bound(s.drop_first(), c, d);
        assert forall|k: int| 0 <= k < pos_of(s, c, d) implies #[trigger] s[k] != c && s[k] != d by {
            if k > 0 {
                assert(s[k] == s.drop_first()[k - 1]);
            }
        }
        if s.contains(c) {
            let k = choose|k: int| 0 <= k < s.len() && s[k] == c;
            assert(s.drop_first()[k - 1] == c);
        }
        if s.contains(d) {
            let k = choose|k: int| 0 <= k < s.len() && s[k] == d;
            assert(s.drop_first()[k - 1] == d);
        }
    }
}

fn op_named_exec(name: &[char]) -> (r: Option<Op>)
    ensures
        r == op_named(name@),
{
    let add = ['a', 'd', 'd'];
    let sub = ['s', 'u', 'b'];
    let mul = ['m', 'u', 'l'];
    let div = ['d', 'i', 'v'];
    assert(add@ =~= seq!['a', 'd', 'd']);
    assert(sub@ =~= seq!['s', 'u', 'b']);
    assert(mul@ =~= seq!['m', 'u', 'l']);
    assert(div@ =~= seq!['d', 'i', 'v']);
    if chars_eq(name, &add) {
        Some(Op::Add)
    } else if chars_eq(name, &sub) {
        Some(Op::Sub)
    } else if chars_eq(name, &mul) {
        Some(Op::Mul)
    } else if chars_eq(name, &div) {
        Some(Op::Div)
    } else {
        None
    }
}

/// Whether two character sequences are equal.
pub fn chars_eq(a: &[char], b: &[char]) -> (r: bool)
    ensures
        r == (a@ == b@),
{
    if a.len() != b.len() {
        return false;
    }
    let mut i: usize = 0;
    while i < a.len()
        invariant
            a@.len() == b@.len(),
            i <= a@.len(),
            forall|k: int| 0 <= k < i ==> a@[k] == b@[k],
        decreases a.len() - i,
    {
        if a[i] != b[i] {
            return false;
        }
        i = i + 1;
    }
    assert(a@ =~= b@);
    true
}

fn parse_expr_chars(s0: &[char]) -> (r: Result<Expr, String>)
    ensures
        match (r, parse_expr_spec(s0@)) {
            (Ok(e), Ok(v)) => e@ == v,
            (Err(e), Err(m)) => e@ == m,
            _ => false,
        },
    decreases s0@.len(),
{
    let s = trim_chars(s0);
    proof {
        lemma_trim_shorter(s0@);
    }
    if s.len() == 0 {
        return Err("空表达式".to_string());
    }
    if is_float_chars(&s) {
        return Ok(Expr::Num(string_of(&s)));
    }
    match find_char(&s, '(') {
        Some(paren) => {
            proof {
                lemma_pos_of_bound(s@, '(', '(');
            }
            assert(s@.contains('('));
            assert(paren == pos_of(s@, '(', '('));
            if s[s.len() - 1] != ')' {
                let mut e = "缺少右括号: ".to_string();
                let st = string_of(&s);
                e.append(st.as_str());
                return Err(e);
            }
            let name_raw = copy_range(&s, 0, paren);
            let name = trim_chars(&name_raw);
            let inner = copy_range(&s, paren + 1, s.len() - 1);
            let args = match split_args(&inner) {
                Ok(a) => a,
                Err(e) => return Err(e),
            };
            proof {
                lemma_split_scan_shorter(inner@, 0, 0, 0, Seq::empty());
                assert(args@.map_values(|x: Vec<char>| x@).len() == args@.len());
            }
            if args.len() != 2 {
                let mut e = "运算符 ".to_string();
                let nm = string_of(&name);
                e.append(nm.as_str());
                e.append(" 需要 2 个参数(实际 ");
                crate::fmt::push_digits(&mut e, args.len() as u64);
                e.append(")");
                return Err(e);
            }
            let op = match op_named_exec(&name) {
                Some(op) => op,
                None => {
                    let mut e = "未知运算符: ".to_string();
                    let nm = string_of(&name);
                    e.append(nm.as_str());
                    e.append("(支持 add/sub/mul/div)");
                    return Err(e);
                },
            };
            assert(args@[0]@ == args@.map_values(|x: Vec<char>| x@)[0]);
            assert(args@[1]@ == args@.map_values(|x: Vec<char>| x@)[1]);
            let a = match parse_expr_chars(&args[0]) {
                Ok(a) => a,
                Err(e) => return Err(e),
            };
            let b = match parse_expr_chars(&args[1]) {
                Ok(b) => b,
                Err(e) => return Err(e),
            };
            Ok(Expr::Call(op, Box::new(a), Box::new(b)))
        },
        None => {
            if is_ref_chars(&s) {
                Ok(Expr::Ref(string_of(&s)))
            } else {
                let mut e = "非法引用或字面量: ".to_string();
                let st = string_of(&s);
                e.append(st.as_str());
                Err(e)
            }
        },
    }
}

/// Parses a derived-value expression: a number, a reference, or `add|sub|mul|div(a, b)`.
pub fn parse_expr(s: &str) -> (r: Result<Expr, String>)
    ensures
        match (r, parse_expr_spec(s@)) {
            (Ok(e), Ok(v)) => e@ == v,
            (Err(e), Err(m)) => e@ == m,
            _ => false,
        },
{
    let cs = crate::text::chars_of(s);
    parse_expr_chars(&cs)
}

} // verus!
