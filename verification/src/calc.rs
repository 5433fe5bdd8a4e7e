//! The grammar of the launcher's quick-math feature: `+ - * / %`, parentheses,
//! unary `+` and `-`, and decimals.
//!
//! An expression is read into a postfix program for a stack machine: a number
//! pushes itself, a minus sign negates the top, and a binary operator takes its
//! two operands from the top. The machine's arithmetic is the caller's.
use crate::text::{from_range, is_whitespace, to_chars, white};
use vstd::prelude::*;

verus! {

/// One instruction of a program.
#[derive(Debug, PartialEq, Eq)]
pub enum Op {
    /// Push the number with this decimal notation.
    Num(String),
    /// Negate the top.
    Neg,
    /// Take the right operand, then the left, and push their sum.
    Add,
    /// ... their difference.
    Sub,
    /// ... their product.
    Mul,
    /// ... their quotient.
    Div,
    /// ... the remainder.
    Rem,
}

/// What an instruction says.
pub ghost enum Step {
    Num(Seq<char>),
    Neg,
    Add,
    Sub,
    Mul,
    Div,
    Rem,
}

impl View for Op {
    type V = Step;

    open spec fn view(&self) -> Step {
        match *self {
            Op::Num(s) => Step::Num(s@),
            Op::Neg => Step::Neg,
            Op::Add => Step::Add,
            Op::Sub => Step::Sub,
            Op::Mul => Step::Mul,
            Op::Div => Step::Div,
            Op::Rem => Step::Rem,
        }
    }
}

/// What a program says.
pub open spec fn steps(p: Seq<Op>) -> Seq<Step> {
    p.map_values(|o: Op| o@)
}

/// The syntax tree of an expression.
pub ghost enum Expr {
    Num(Seq<char>),
    Paren(Box<Expr>),
    Neg(Box<Expr>),
    Pos(Box<Expr>),
    Bin(Box<Expr>, char, Box<Expr>),
}

pub open spec fn is_digit(c: char) -> bool {
    '0' <= c <= '9'
}

/// A character that can stand in a number.
pub open spec fn in_number(c: char) -> bool {
    is_digit(c) || c == '.'
}

pub open spec fn is_add_op(c: char) -> bool {
    c == '+' || c == '-'
}

pub open spec fn is_mul_op(c: char) -> bool {
    c == '*' || c == '/' || c == '%'
}

/// A character that makes an input look like math.
pub open spec fn is_operator(c: char) -> bool {
    is_add_op(c) || is_mul_op(c)
}

/// The notation of a number: digits around at most one point, with at least one digit.
pub open spec fn is_number(s: Seq<char>) -> bool {
    &&& forall|i: int| 0 <= i < s.len() ==> in_number(#[trigger] s[i])
    &&& exists|i: int| 0 <= i < s.len() && is_digit(#[trigger] s[i])
    &&& forall|i: int, j: int| 0 <= i < j < s.len() ==> !(#[trigger] s[i] == '.' && #[trigger] s[j] == '.')
}

/// A number, a parenthesised expression, or a signed factor.
pub open spec fn is_factor(e: Expr) -> bool
    decreases e, 0int,
{
    match e {
        Expr::Num(s) => is_number(s),
        Expr::Paren(x) => is_sum(*x),
        Expr::Neg(x) => is_factor(*x),
        Expr::Pos(x) => is_factor(*x),
        Expr::Bin(..) => false,
    }
}

/// Factors joined by `*`, `/` and `%`, grouped to the left.
pub open spec fn is_term(e: Expr) -> bool
    decreases e, 1int,
{
    match e {
        Expr::Bin(l, op, r) => is_mul_op(op) && is_term(*l) && is_factor(*r),
        _ => is_factor(e),
    }
}

/// Terms joined by `+` and `-`, grouped to the left: the trees of the grammar.
pub open spec fn is_sum(e: Expr) -> bool
    decreases e, 2int,
{
    match e {
        Expr::Bin(l, op, r) => if is_add_op(op) {
            is_sum(*l) && is_term(*r)
        } else {
            is_term(e)
        },
        _ => is_factor(e),
    }
}

/// How a tree is written.
pub open spec fn written(e: Expr) -> Seq<char>
    decreases e,
{
    match e {
        Expr::Num(s) => s,
        Expr::Paren(x) => seq!['('] + written(*x) + seq![')'],
        Expr::Neg(x) => seq!['-'] + written(*x),
        Expr::Pos(x) => seq!['+'] + written(*x),
        Expr::Bin(l, op, r) => written(*l) + seq![op] + written(*r),
    }
}

pub open spec fn step_of(op: char) -> Step {
    if op == '+' {
        Step::Add
    } else if op == '-' {
        Step::Sub
    } else if op == '*' {
        Step::Mul
    } else if op == '/' {
        Step::Div
    } else {
        Step::Rem
    }
}

/// The program of a tree: operands first, left before right, then the operator.
pub open spec fn postfix(e: Expr) -> Seq<Step>
    decreases e,
{
    match e {
        Expr::Num(s) => seq![Step::Num(s)],
        Expr::Paren(x) => postfix(*x),
        Expr::Neg(x) => postfix(*x) + seq![Step::Neg],
        Expr::Pos(x) => postfix(*x),
        Expr::Bin(l, op, r) => postfix(*l) + postfix(*r) + seq![step_of(op)],
    }
}

/// The input without white space.
pub open spec fn compact(s: Seq<char>) -> Seq<char> {
    s.filter(|c: char| !white(c))
}

pub open spec fn has_operator(s: Seq<char>) -> bool {
    exists|i: int| 0 <= i < s.len() && is_operator(#[trigger] s[i])
}

/// The end of the run of number characters that starts at `i`.
spec fn number_end(s: Seq<char>, i: int) -> int
    decreases s.len() - i,
{
    if 0 <= i < s.len() && in_number(s[i]) {
        number_end(s, i + 1)
    } else {
        i
    }
}

// Recursive descent over `s` from position `i`: the tree read and the position
// after it. The comparisons of positions always hold; they show termination.

spec fn read_factor(s: Seq<char>, i: int) -> Option<(Expr, int)>
    decreases s.len() - i, 0int,
{
    if !(0 <= i < s.len()) {
        None
    } else if s[i] == '(' {
        match read_sum(s, i + 1) {
            Some((e, k)) => if 0 <= k < s.len() && s[k] == ')' {
                Some((Expr::Paren(Box::new(e)), k + 1))
            } else {
                None
            },
            None => None,
        }
    } else if s[i] == '-' {
        match read_factor(s, i + 1) {
            Some((e, k)) => Some((Expr::Neg(Box::new(e)), k)),
            None => None,
        }
    } else if s[i] == '+' {
        match read_factor(s, i + 1) {
            Some((e, k)) => Some((Expr::Pos(Box::new(e)), k)),
            None => None,
        }
    } else {
        let k = number_end(s, i);
        if is_number(s.subrange(i, k)) {
            Some((Expr::Num(s.subrange(i, k)), k))
        } else {
            None
        }
    }
}

spec fn read_term(s: Seq<char>, i: int) -> Option<(Expr, int)>
    decreases s.len() - i, 1int,
{
    match read_factor(s, i) {
        Some((e, k)) => if i < k <= s.len() {
            read_term_tail(s, e, k)
        } else {
            None
        },
        None => None,
    }
}

/// Extends the term `l`, which ends at `j`.
spec fn read_term_tail(s: Seq<char>, l: Expr, j: int) -> Option<(Expr, int)>
    decreases s.len() - j, 2int,
{
    if 0 <= j < s.len() && is_mul_op(s[j]) {
        match read_factor(s, j + 1) {
            Some((r, k)) => if j < k <= s.len() {
                read_term_tail(s, Expr::Bin(Box::new(l), s[j], Box::new(r)), k)
            } else {
                None
            },
            None => None,
        }
    } else {
        Some((l, j))
    }
}

spec fn read_sum(s: Seq<char>, i: int) -> Option<(Expr, int)>
    decreases s.len() - i, 3int,
{
    match read_term(s, i) {
        Some((e, k)) => if i < k <= s.len() {
            read_sum_tail(s, e, k)
        } else {
            None
        },
        None => None,
    }
}

/// Extends the sum `l`, which ends at `j`.
spec fn read_sum_tail(s: Seq<char>, l: Expr, j: int) -> Option<(Expr, int)>
    decreases s.len() - j, 4int,
{
    if 0 <= j < s.len() && is_add_op(s[j]) {
        match read_term(s, j + 1) {
            Some((r, k)) => if j < k <= s.len() {
                read_sum_tail(s, Expr::Bin(Box::new(l), s[j], Box::new(r)), k)
            } else {
                None
            },
            None => None,
        }
    } else {
        Some((l, j))
    }
}

/// The tree `e` is written in `s` from `i` up to `k`.
spec fn spans(s: Seq<char>, e: Expr, i: int, k: int) -> bool {
    0 <= i < k <= s.len() && s.subrange(i, k) == written(e)
}

proof fn lemma_number_end(s: Seq<char>, i: int)
    requires
        0 <= i <= s.len(),
    ensures
        i <= number_end(s, i) <= s.len(),
        forall|j: int| i <= j < number_end(s, i) ==> in_number(#[trigger] s[j]),
        number_end(s, i) < s.len() ==> !in_number(s[number_end(s, i)]),
    decreases s.len() - i,
{
    if i < s.len() && in_number(s[i]) {
        lemma_number_end(s, i + 1);
    }
}

// What is read is a tree of the grammar that is written there.

proof fn lemma_factor_sound(s: Seq<char>, i: int)
    requires
        0 <= i,
    ensures
        read_factor(s, i) matches Some((e, k)) ==> is_factor(e) && spans(s, e, i, k),
    decreases s.len() - i, 0int,
{
    if i < s.len() {
        if s[i] == '(' {
            lemma_sum_sound(s, i + 1);
            if let Some((e, k)) = read_sum(s, i + 1) {
                if 0 <= k < s.len() && s[k] == ')' {
                    assert(s.subrange(i, k + 1) == seq!['('] + s.subrange(i + 1, k) + seq![')']);
                }
            }
        } else if s[i] == '-' || s[i] == '+' {
            lemma_factor_sound(s, i + 1);
            if let Some((e, k)) = read_factor(s, i + 1) {
                assert(s.subrange(i, k) == seq![s[i]] + s.subrange(i + 1, k));
            }
        } else {
            lemma_number_end(s, i);
            let k = number_end(s, i);
            if is_number(s.subrange(i, k)) {
                assert(s.subrange(i, k).len() > 0);
            }
        }
    }
}

proof fn lemma_term_sound(s: Seq<char>, i: int)
    requires
        0 <= i,
    ensures
        read_term(s, i) matches Some((e, k)) ==> is_term(e) && spans(s, e, i, k),
    decreases s.len() - i, 1int,
{
    lemma_factor_sound(s, i);
    if let Some((e, k)) = read_factor(s, i) {
        if i < k <= s.len() {
            lemma_term_tail_sound(s, e, i, k);
        }
    }
}

proof fn lemma_term_tail_sound(s: Seq<char>, l: Expr, i: int, j: int)
    requires
        is_term(l),
        spans(s, l, i, j),
    ensures
        read_term_tail(s, l, j) matches Some((e, k)) ==> is_term(e) && spans(s, e, i, k),
    decreases s.len() - j, 2int,
{
    if j < s.len() && is_mul_op(s[j]) {
        lemma_factor_sound(s, j + 1);
        if let Some((r, k)) = read_factor(s, j + 1) {
            let b = Expr::Bin(Box::new(l), s[j], Box::new(r));
            assert(s.subrange(i, k) == s.subrange(i, j) + seq![s[j]] + s.subrange(j + 1, k));
            lemma_term_tail_sound(s, b, i, k);
        }
    }
}

proof fn lemma_sum_sound(s: Seq<char>, i: int)
    requires
        0 <= i,
    ensures
        read_sum(s, i) matches Some((e, k)) ==> is_sum(e) && spans(s, e, i, k),
    decreases s.len() - i, 3int,
{
    lemma_term_sound(s, i);
    if let Some((e, k)) = read_term(s, i) {
        if i < k <= s.len() {
            lemma_sum_tail_sound(s, e, i, k);
        }
    }
}

proof fn lemma_sum_tail_sound(s: Seq<char>, l: Expr, i: int, j: int)
    requires
        is_sum(l),
        spans(s, l, i, j),
    ensures
        read_sum_tail(s, l, j) matches Some((e, k)) ==> is_sum(e) && spans(s, e, i, k),
    decreases s.len() - j, 4int,
{
    if j < s.len() && is_add_op(s[j]) {
        lemma_term_sound(s, j + 1);
        if let Some((r, k)) = read_term(s, j + 1) {
            let b = Expr::Bin(Box::new(l), s[j], Box::new(r));
            assert(s.subrange(i, k) == s.subrange(i, j) + seq![s[j]] + s.subrange(j + 1, k));
            lemma_sum_tail_sound(s, b, i, k);
        }
    }
}

// What is written is read: the tree at hand is found, whatever follows it that
// cannot continue it.

/// The character at `k` does not continue a number that ends there.
spec fn number_stops(s: Seq<char>, k: int) -> bool {
    k < s.len() ==> !in_number(s[k])
}

proof fn lemma_number_found(s: Seq<char>, i: int, k: int)
    requires
        0 <= i <= k <= s.len(),
        forall|j: int| i <= j < k ==> in_number(#[trigger] s[j]),
        number_stops(s, k),
    ensures
        number_end(s, i) == k,
    decreases k - i,
{
    if i < k {
        lemma_number_found(s, i + 1, k);
    }
}

proof fn lemma_written_nonempty(e: Expr)
    requires
        is_sum(e) || is_term(e) || is_factor(e),
    ensures
        written(e).len() > 0,
    decreases e,
{
    match e {
        Expr::Num(s) => {
            assert(is_factor(e));
        },
        _ => {},
    }
}

proof fn lemma_factor_found(s: Seq<char>, e: Expr, i: int, k: int)
    requires
        is_factor(e),
        spans(s, e, i, k),
        number_stops(s, k),
    ensures
        read_factor(s, i) == Some((e, k)),
    decreases e, 0int,
{
    let t = s.subrange(i, k);
    match e {
        Expr::Num(n) => {
            assert forall|j: int| i <= j < k implies in_number(#[trigger] s[j]) by {
                assert(s[j] == t[j - i]);
            }
            assert(in_number(s[i]));
            lemma_number_found(s, i, k);
        },
        Expr::Paren(x) => {
            let w = written(*x);
            lemma_written_nonempty(*x);
            assert(t[0] == '(' && t.last() == ')');
            assert(s[i] == t[0] && s[k - 1] == t.last());
            assert(s.subrange(i + 1, k - 1) == t.subrange(1, t.len() - 1));
            assert(t.subrange(1, t.len() - 1) == w);
            lemma_sum_found(s, *x, i + 1, k - 1);
        },
        Expr::Neg(x) => {
            lemma_written_nonempty(*x);
            assert(s[i] == t[0]);
            assert(s.subrange(i + 1, k) == t.drop_first());
            assert(t.drop_first() == written(*x));
            lemma_factor_found(s, *x, i + 1, k);
        },
        Expr::Pos(x) => {
            lemma_written_nonempty(*x);
            assert(s[i] == t[0]);
            assert(s.subrange(i + 1, k) == t.drop_first());
            assert(t.drop_first() == written(*x));
            lemma_factor_found(s, *x, i + 1, k);
        },
        Expr::Bin(..) => {},
    }
}

/// The two operands of a binary tree written from `i` up to `k`, and where they meet.
proof fn lemma_split(s: Seq<char>, l: Expr, op: char, r: Expr, i: int, k: int) -> (j: int)
    requires
        is_sum(l) || is_term(l),
        is_term(r) || is_factor(r),
        spans(s, Expr::Bin(Box::new(l), op, Box::new(r)), i, k),
    ensures
        i < j < k,
        s[j] == op,
        spans(s, l, i, j),
        spans(s, r, j + 1, k),
{
    let t = s.subrange(i, k);
    let wl = written(l);
    let wr = written(r);
    lemma_written_nonempty(l);
    lemma_written_nonempty(r);
    let j = i + wl.len();
    assert(t == wl + seq![op] + wr);
    assert(k - i == t.len());
    assert(t.len() == wl.len() + 1 + wr.len());
    assert(s[j] == t[j - i]);
    assert(s.subrange(i, j) == t.subrange(0, wl.len() as int));
    assert(t.subrange(0, wl.len() as int) == wl);
    assert(s.subrange(j + 1, k) == t.subrange(wl.len() as int + 1, t.len() as int));
    assert(t.subrange(wl.len() as int + 1, t.len() as int) == wr);
    j
}

/// Reading a term from `i` comes by the term `e` and goes on from its end.
proof fn lemma_term_reached(s: Seq<char>, e: Expr, i: int, k: int)
    requires
        is_term(e),
        spans(s, e, i, k),
        number_stops(s, k),
    ensures
        read_term(s, i) == read_term_tail(s, e, k),
    decreases e, 1int,
{
    match e {
        Expr::Bin(l, op, r) => {
            let j = lemma_split(s, *l, op, *r, i, k);
            lemma_term_reached(s, *l, i, j);
            lemma_factor_found(s, *r, j + 1, k);
        },
        _ => {
            lemma_factor_found(s, e, i, k);
        },
    }
}

proof fn lemma_term_found(s: Seq<char>, e: Expr, i: int, k: int)
    requires
        is_term(e),
        spans(s, e, i, k),
        number_stops(s, k),
        k < s.len() ==> !is_mul_op(s[k]),
    ensures
        read_term(s, i) == Some((e, k)),
    decreases e, 2int,
{
    lemma_term_reached(s, e, i, k);
}

/// Reading a sum from `i` comes by the sum `e` and goes on from its end.
proof fn lemma_sum_reached(s: Seq<char>, e: Expr, i: int, k: int)
    requires
        is_sum(e),
        spans(s, e, i, k),
        number_stops(s, k),
        k < s.len() ==> !is_mul_op(s[k]),
    ensures
        read_sum(s, i) == read_sum_tail(s, e, k),
    decreases e, 3int,
{
    match e {
        Expr::Bin(l, op, r) => {
            if is_add_op(op) {
                let j = lemma_split(s, *l, op, *r, i, k);
                lemma_sum_reached(s, *l, i, j);
                lemma_term_found(s, *r, j + 1, k);
            } else {
                lemma_term_found(s, e, i, k);
            }
        },
        _ => {
            lemma_term_found(s, e, i, k);
        },
    }
}

proof fn lemma_sum_found(s: Seq<char>, e: Expr, i: int, k: int)
    requires
        is_sum(e),
        spans(s, e, i, k),
        number_stops(s, k),
        k < s.len() ==> !is_operator(s[k]),
    ensures
        read_sum(s, i) == Some((e, k)),
    decreases e, 4int,
{
    lemma_sum_reached(s, e, i, k);
}

/// The program of the tree that starts at `i` is appended to `out`.
spec fn reads(
    found: Option<(Expr, int)>,
    r: Option<usize>,
    before: Seq<Op>,
    after: Seq<Op>,
    len: int,
) -> bool {
    match found {
        Some((e, k)) => {
            &&& 0 <= k <= len
            &&& r is Some
            &&& r->0 == k
            &&& steps(after) == steps(before) + postfix(e)
        },
        None => r is None,
    }
}

fn peek(s: &Vec<char>, i: usize) -> (r: Option<char>)
    ensures
        r == if i < s@.len() {
            Some(s@[i as int])
        } else {
            None
        },
{
    if i < s.len() {
        Some(s[i])
    } else {
        None
    }
}

fn push_op(out: &mut Vec<Op>, op: Op)
    ensures
        steps(final(out)@) == steps(old(out)@).push(op@),
{
    out.push(op);
    assert(steps(out@) =~= steps(old(out)@).push(op@));
}

fn binary(c: char) -> (op: Op)
    ensures
        op@ == step_of(c),
{
    if c == '+' {
        Op::Add
    } else if c == '-' {
        Op::Sub
    } else if c == '*' {
        Op::Mul
    } else if c == '/' {
        Op::Div
    } else {
        Op::Rem
    }
}

fn number(s: &Vec<char>, start: usize, out: &mut Vec<Op>) -> (r: Option<usize>)
    requires
        start < s@.len(),
        s@[start as int] != '(' && !is_add_op(s@[start as int]),
    ensures
        reads(read_factor(s@, start as int), r, old(out)@, final(out)@, s@.len() as int),
{
    let mut i: usize = start;
    let mut point: Option<usize> = None;
    let mut points_ok = true;
    let mut digit = false;
    while i < s.len() && (('0' <= s[i] && s[i] <= '9') || s[i] == '.')
        invariant
            start <= i <= s@.len(),
            start < s@.len(),
            number_end(s@, start as int) == number_end(s@, i as int),
            forall|j: int| start <= j < i ==> in_number(#[trigger] s@[j]),
            digit <==> exists|j: int| start <= j < i && is_digit(#[trigger] s@[j]),
            point is None ==> forall|j: int| start <= j < i ==> #[trigger] s@[j] != '.',
            point matches Some(p) ==> start <= p < i && s@[p as int] == '.',
            points_ok && point is Some ==> forall|j: int|
                start <= j < i && #[trigger] s@[j] == '.' ==> j == point->0,
            !points_ok ==> exists|j: int, k: int|
                start <= j < k < i && #[trigger] s@[j] == '.' && #[trigger] s@[k] == '.',
        decreases s@.len() - i,
    {
        if s[i] == '.' {
            if point.is_some() {
                points_ok = false;
            } else {
                point = Some(i);
            }
        } else {
            digit = true;
        }
        i = i + 1;
    }
    let ghost t = s@.subrange(start as int, i as int);
    assert(number_end(s@, start as int) == i);
    proof {
        assert forall|j: int| 0 <= j < t.len() implies in_number(#[trigger] t[j]) by {
            assert(t[j] == s@[start + j]);
        }
        if digit {
            let j = choose|j: int| start <= j < i && is_digit(#[trigger] s@[j]);
            assert(t[j - start] == s@[j]);
        } else {
            assert forall|j: int| 0 <= j < t.len() implies !is_digit(#[trigger] t[j]) by {
                assert(t[j] == s@[start + j]);
            }
        }
        if points_ok {
            assert forall|j: int, k: int| 0 <= j < k < t.len() implies !(#[trigger] t[j] == '.'
                && #[trigger] t[k] == '.') by {
                assert(t[j] == s@[start + j]);
                assert(t[k] == s@[start + k]);
            }
        } else {
            let (j, k) = choose|j: int, k: int|
                start <= j < k < i && #[trigger] s@[j] == '.' && #[trigger] s@[k] == '.';
            assert(t[j - start] == '.' && t[k - start] == '.');
        }
        assert(is_number(t) <==> digit && points_ok);
    }
    if digit && points_ok {
        push_op(out, Op::Num(from_range(s, start, i)));
        assert(steps(out@) =~= steps(old(out)@) + postfix(Expr::Num(t)));
        Some(i)
    } else {
        None
    }
}

fn factor(s: &Vec<char>, i: usize, out: &mut Vec<Op>) -> (r: Option<usize>)
    requires
        i <= s@.len(),
    ensures
        reads(read_factor(s@, i as int), r, old(out)@, final(out)@, s@.len() as int),
    decreases s@.len() - i, 0int,
{
    let n: usize = s.len();
    match peek(s, i) {
        None => None,
        Some(c) => if c == '(' {
            match expr(s, i + 1, out) {
                Some(k) => if peek(s, k) == Some(')') {
                    Some(k + 1)
                } else {
                    None
                },
                None => None,
            }
        } else if c == '-' {
            match factor(s, i + 1, out) {
                Some(k) => {
                    push_op(out, Op::Neg);
                    proof {
                        let e = (read_factor(s@, i + 1)->0).0;
                        assert(steps(out@) =~= steps(old(out)@) + postfix(Expr::Neg(Box::new(e))));
                    }
                    Some(k)
                },
                None => None,
            }
        } else if c == '+' {
            factor(s, i + 1, out)
        } else {
            number(s, i, out)
        },
    }
}

fn term(s: &Vec<char>, i: usize, out: &mut Vec<Op>) -> (r: Option<usize>)
    requires
        i <= s@.len(),
    ensures
        reads(read_term(s@, i as int), r, old(out)@, final(out)@, s@.len() as int),
    decreases s@.len() - i, 1int,
{
    proof {
        lemma_factor_sound(s@, i as int);
    }
    let mut j: usize = match factor(s, i, out) {
        Some(k) => k,
        None => return None,
    };
    let ghost mut l = (read_factor(s@, i as int)->0).0;
    while j < s.len() && (s[j] == '*' || s[j] == '/' || s[j] == '%')
        invariant
            i < j <= s@.len(),
            read_term(s@, i as int) == read_term_tail(s@, l, j as int),
            steps(out@) == steps(old(out)@) + postfix(l),
        decreases s@.len() - j,
    {
        let c = s[j];
        proof {
            lemma_factor_sound(s@, j + 1);
        }
        let k: usize = match factor(s, j + 1, out) {
            Some(k) => k,
            None => return None,
        };
        push_op(out, binary(c));
        proof {
            let r = (read_factor(s@, j + 1)->0).0;
            let b = Expr::Bin(Box::new(l), c, Box::new(r));
            assert(steps(out@) =~= steps(old(out)@) + postfix(b));
            l = b;
        }
        j = k;
    }
    Some(j)
}

fn expr(s: &Vec<char>, i: usize, out: &mut Vec<Op>) -> (r: Option<usize>)
    requires
        i <= s@.len(),
    ensures
        reads(read_sum(s@, i as int), r, old(out)@, final(out)@, s@.len() as int),
    decreases s@.len() - i, 2int,
{
    proof {
        lemma_term_sound(s@, i as int);
    }
    let mut j: usize = match term(s, i, out) {
        Some(k) => k,
        None => return None,
    };
    let ghost mut l = (read_term(s@, i as int)->0).0;
    while j < s.len() && (s[j] == '+' || s[j] == '-')
        invariant
            i < j <= s@.len(),
            read_sum(s@, i as int) == read_sum_tail(s@, l, j as int),
            steps(out@) == steps(old(out)@) + postfix(l),
        decreases s@.len() - j,
    {
        let c = s[j];
        proof {
            lemma_term_sound(s@, j + 1);
        }
        let k: usize = match term(s, j + 1, out) {
            Some(k) => k,
            None => return None,
        };
        push_op(out, binary(c));
        proof {
            let r = (read_term(s@, j + 1)->0).0;
            let b = Expr::Bin(Box::new(l), c, Box::new(r));
            assert(steps(out@) =~= steps(old(out)@) + postfix(b));
            l = b;
        }
        j = k;
    }
    Some(j)
}

/// `e` is a reading of the input `s` as math: without white space the input is how
/// `e` is written, and it holds an operator.
pub open spec fn is_math(s: Seq<char>, e: Expr) -> bool {
    &&& is_sum(e)
    &&& written(e) == compact(s)
    &&& has_operator(compact(s))
}

/// The program of `input`, or `None` if it is not a complete, valid expression,
/// which includes the case that it holds no operator at all (so that a plain app
/// search like "5" is not treated as math).
pub fn parse(input: &str) -> (r: Option<Vec<Op>>)
    ensures
        r is Some <==> exists|e: Expr| is_math(input@, e),
        forall|e: Expr|
            is_math(input@, e) ==> r is Some && steps(r->0@) == #[trigger] postfix(e),
{
    let all = to_chars(input);
    let mut s: Vec<char> = Vec::new();
    let mut operator = false;
    let mut i: usize = 0;
    let ghost keep = |c: char| !white(c);
    while i < all.len()
        invariant
            i <= all@.len(),
            all@ == input@,
            keep == (|c: char| !white(c)),
            s@ == all@.take(i as int).filter(keep),
            operator == has_operator(s@),
        decreases all@.len() - i,
    {
        let c = all[i];
        assert(all@.take(i + 1).drop_last() == all@.take(i as int));
        reveal_with_fuel(Seq::filter, 1);
        let ghost before = s@;
        if !is_whitespace(c) {
            s.push(c);
            if c == '+' || c == '-' || c == '*' || c == '/' || c == '%' {
                operator = true;
                assert(is_operator(s@[s@.len() - 1]));
            } else {
                assert(has_operator(s@) ==> has_operator(before));
            }
            assert(has_operator(before) ==> has_operator(s@)) by {
                if has_operator(before) {
                    let k = choose|k: int| 0 <= k < before.len() && is_operator(#[trigger] before[k]);
                    assert(is_operator(s@[k]));
                }
            }
        }
        i = i + 1;
    }
    assert(all@.take(all@.len() as int) == input@);
    assert(s@ == compact(input@));
    if !operator {
        return None;
    }
    let mut out: Vec<Op> = Vec::new();
    let end = expr(&s, 0, &mut out);
    proof {
        lemma_sum_sound(s@, 0);
        assert(s@.subrange(0, s@.len() as int) == s@);
        assert forall|e: Expr| #[trigger] is_math(input@, e) implies read_sum(s@, 0) == Some(
            (e, s@.len() as int),
        ) by {
            lemma_written_nonempty(e);
            lemma_sum_found(s@, e, 0, s@.len() as int);
        }
        assert(steps(Seq::<Op>::empty()) =~= Seq::<Step>::empty());
        if let Some((e, k)) = read_sum(s@, 0) {
            assert(steps(out@) =~= postfix(e));
            if k == s@.len() {
                assert(is_math(input@, e));
            }
        }
    }
    match end {
        Some(k) => if k == s.len() {
            Some(out)
        } else {
            None
        },
        None => None,
    }
}

/// The grammar is unambiguous: two trees that are written alike are one.
pub proof fn one_reading(a: Expr, b: Expr)
    requires
        is_sum(a),
        is_sum(b),
        written(a) == written(b),
    ensures
        a == b,
{
    let s = written(a);
    assert(s.subrange(0, s.len() as int) == s);
    lemma_written_nonempty(a);
    lemma_sum_found(s, a, 0, s.len() as int);
    lemma_sum_found(s, b, 0, s.len() as int);
}

/// A bare number is not math, however it is spaced.
pub proof fn bare_number_is_not_math(s: Seq<char>, e: Expr)
    requires
        is_number(compact(s)),
    ensures
        !is_math(s, e),
{
    let t = compact(s);
    if has_operator(t) {
        let i = choose|i: int| 0 <= i < t.len() && is_operator(#[trigger] t[i]);
        assert(in_number(t[i]));
    }
}

/// The number of values on the stack after a program that starts with `d` of them;
/// `None` if an instruction lacks operands.
pub open spec fn depth_after(p: Seq<Step>, d: int) -> Option<int>
    decreases p.len(),
{
    if p.len() == 0 {
        Some(d)
    } else {
        match depth_after(p.drop_last(), d) {
            None => None,
            Some(n) => match p.last() {
                Step::Num(_) => Some(n + 1),
                Step::Neg => if n >= 1 {
                    Some(n)
                } else {
                    None
                },
                _ => if n >= 2 {
                    Some(n - 1)
                } else {
                    None
                },
            },
        }
    }
}

proof fn lemma_depth_concat(p: Seq<Step>, q: Seq<Step>, d: int, n: int)
    requires
        depth_after(p, d) == Some(n),
    ensures
        depth_after(p + q, d) == depth_after(q, n),
    decreases q.len(),
{
    if q.len() == 0 {
        assert(p + q == p);
    } else {
        assert((p + q).drop_last() == p + q.drop_last());
        lemma_depth_concat(p, q.drop_last(), d, n);
    }
}

/// The program of a tree never lacks an operand, and leaves exactly one value more
/// than it found.
pub proof fn program_leaves_one_value(e: Expr, d: int)
    requires
        d >= 0,
    ensures
        depth_after(postfix(e), d) == Some(d + 1),
    decreases e,
{
    match e {
        Expr::Num(s) => {
            assert(postfix(e).drop_last() == Seq::<Step>::empty());
            assert(depth_after(Seq::<Step>::empty(), d) == Some(d));
        },
        Expr::Paren(x) => {
            program_leaves_one_value(*x, d);
        },
        Expr::Neg(x) => {
            program_leaves_one_value(*x, d);
            assert(postfix(e).drop_last() == postfix(*x));
        },
        Expr::Pos(x) => {
            program_leaves_one_value(*x, d);
        },
        Expr::Bin(l, op, r) => {
            program_leaves_one_value(*l, d);
            program_leaves_one_value(*r, d + 1);
            lemma_depth_concat(postfix(*l), postfix(*r), d, d + 1);
            assert(postfix(e).drop_last() == postfix(*l) + postfix(*r));
        },
    }
}

/// An arithmetic: the values of notations, negation, and the binary operators. An operator
/// may have no value, as a division by zero.
#[verifier::reject_recursive_types(T)]
pub ghost struct Arithmetic<T> {
    pub num: spec_fn(Seq<char>) -> T,
    pub neg: spec_fn(T) -> T,
    pub bin: spec_fn(Step, T, T) -> Option<T>,
}

/// The value of a tree.
pub open spec fn value<T>(e: Expr, a: Arithmetic<T>) -> Option<T>
    decreases e,
{
    match e {
        Expr::Num(s) => Some((a.num)(s)),
        Expr::Paren(x) => value(*x, a),
        Expr::Neg(x) => match value(*x, a) {
            Some(v) => Some((a.neg)(v)),
            None => None,
        },
        Expr::Pos(x) => value(*x, a),
        Expr::Bin(l, op, r) => match (value(*l, a), value(*r, a)) {
            (Some(x), Some(y)) => (a.bin)(step_of(op), x, y),
            _ => None,
        },
    }
}

/// The stack after an instruction; `None` if it lacks operands or has no value.
pub open spec fn stepped<T>(stack: Option<Seq<T>>, i: Step, a: Arithmetic<T>) -> Option<Seq<T>> {
    match stack {
        None => None,
        Some(s) => match i {
            Step::Num(n) => Some(s.push((a.num)(n))),
            Step::Neg => if s.len() >= 1 {
                Some(s.drop_last().push((a.neg)(s.last())))
            } else {
                None
            },
            _ => if s.len() >= 2 {
                match (a.bin)(i, s[s.len() - 2], s.last()) {
                    Some(v) => Some(s.drop_last().drop_last().push(v)),
                    None => None,
                }
            } else {
                None
            },
        },
    }
}

/// The stack after a program.
pub open spec fn stack_after<T>(p: Seq<Step>, stack: Option<Seq<T>>, a: Arithmetic<T>) -> Option<
    Seq<T>,
>
    decreases p.len(),
{
    if p.len() == 0 {
        stack
    } else {
        stepped(stack_after(p.drop_last(), stack, a), p.last(), a)
    }
}

proof fn lemma_stack_concat<T>(
    p: Seq<Step>,
    q: Seq<Step>,
    stack: Option<Seq<T>>,
    a: Arithmetic<T>,
)
    ensures
        stack_after(p + q, stack, a) == stack_after(q, stack_after(p, stack, a), a),
    decreases q.len(),
{
    if q.len() == 0 {
        assert(p + q == p);
    } else {
        assert((p + q).drop_last() == p + q.drop_last());
        lemma_stack_concat(p, q.drop_last(), stack, a);
    }
}

proof fn lemma_no_stack<T>(p: Seq<Step>, a: Arithmetic<T>)
    ensures
        stack_after(p, None::<Seq<T>>, a) is None,
    decreases p.len(),
{
    if p.len() > 0 {
        lemma_no_stack(p.drop_last(), a);
    }
}

/// Whatever the arithmetic, the program of a tree pushes the value of the tree, and has
/// none exactly if the tree has none.
pub proof fn program_computes_its_tree<T>(e: Expr, s: Seq<T>, a: Arithmetic<T>)
    ensures
        stack_after(postfix(e), Some(s), a) == match value(e, a) {
            Some(v) => Some(s.push(v)),
            None => None,
        },
    decreases e,
{
    match e {
        Expr::Num(n) => {
            assert(postfix(e).drop_last() == Seq::<Step>::empty());
            assert(stack_after(Seq::<Step>::empty(), Some(s), a) == Some(s));
        },
        Expr::Paren(x) => {
            program_computes_its_tree(*x, s, a);
        },
        Expr::Pos(x) => {
            program_computes_its_tree(*x, s, a);
        },
        Expr::Neg(x) => {
            program_computes_its_tree(*x, s, a);
            assert(postfix(e).drop_last() == postfix(*x));
            if let Some(v) = value(*x, a) {
                assert(s.push(v).drop_last() =~= s);
            }
        },
        Expr::Bin(l, op, r) => {
            program_computes_its_tree(*l, s, a);
            lemma_stack_concat(postfix(*l), postfix(*r), Some(s), a);
            assert(postfix(e).drop_last() == postfix(*l) + postfix(*r));
            match value(*l, a) {
                Some(x) => {
                    program_computes_its_tree(*r, s.push(x), a);
                    if let Some(y) = value(*r, a) {
                        let t = s.push(x).push(y);
                        assert(t[t.len() - 2] == x);
                        assert(t.drop_last().drop_last() =~= s);
                    }
                },
                None => {
                    lemma_no_stack(postfix(*r), a);
                },
            }
        },
    }
}

proof fn lemma_compact_add(a: Seq<char>, b: Seq<char>)
    ensures
        compact(a + b) == compact(a) + compact(b),
{
    Seq::filter_distributes_over_add(a, b, |c: char| !white(c));
}

proof fn lemma_compact_one(c: char)
    requires
        !white(c),
    ensures
        compact(seq![c]) == seq![c],
{
    let keep = |c: char| !white(c);
    assert(seq![c] =~= Seq::<char>::empty().push(c));
    Seq::<char>::empty().lemma_filter_push(c, keep);
    assert(Seq::<char>::empty().filter(keep) =~= Seq::<char>::empty());
}

proof fn lemma_compact_twice(s: Seq<char>)
    ensures
        compact(compact(s)) == compact(s),
    decreases s.len(),
{
    if s.len() > 0 {
        let a = s.drop_last();
        lemma_compact_twice(a);
        assert(s =~= a + seq![s.last()]);
        lemma_compact_add(a, seq![s.last()]);
        lemma_compact_add(compact(a), compact(seq![s.last()]));
        if white(s.last()) {
            let keep = |c: char| !white(c);
            assert(seq![s.last()] =~= Seq::<char>::empty().push(s.last()));
            Seq::<char>::empty().lemma_filter_push(s.last(), keep);
            assert(compact(seq![s.last()]) =~= Seq::<char>::empty());
            assert(compact(Seq::<char>::empty()) =~= Seq::<char>::empty());
        } else {
            lemma_compact_one(s.last());
        }
    } else {
        assert(compact(s) =~= s);
    }
}

/// White space has no influence, wherever it stands: the input reads as it does without.
pub proof fn white_space_has_no_influence(s: Seq<char>, e: Expr)
    ensures
        is_math(s, e) <==> is_math(compact(s), e),
{
    lemma_compact_twice(s);
}

/// An input in brackets.
pub open spec fn bracketed(s: Seq<char>) -> Seq<char> {
    seq!['('] + s + seq![')']
}

proof fn lemma_compact_bracketed(s: Seq<char>)
    ensures
        compact(bracketed(s)) == bracketed(compact(s)),
{
    lemma_compact_add(seq!['('] + s, seq![')']);
    lemma_compact_add(seq!['('], s);
    lemma_compact_one('(');
    lemma_compact_one(')');
}

proof fn lemma_operator_within(a: Seq<char>, s: Seq<char>, b: Seq<char>)
    requires
        has_operator(s),
    ensures
        has_operator(a + s + b),
{
    let i = choose|i: int| 0 <= i < s.len() && is_operator(#[trigger] s[i]);
    assert((a + s + b)[a.len() + i] == s[i]);
}

/// Brackets around an expression keep its value.
pub proof fn brackets_keep_the_value<T>(s: Seq<char>, e: Expr, a: Arithmetic<T>)
    requires
        is_math(s, e),
    ensures
        is_math(bracketed(s), Expr::Paren(Box::new(e))),
        value(Expr::Paren(Box::new(e)), a) == value(e, a),
{
    lemma_compact_bracketed(s);
    lemma_operator_within(seq!['('], compact(s), seq![')']);
    let p = Expr::Paren(Box::new(e));
    assert(is_factor(p));
    assert(is_sum(p));
    assert(written(p) == bracketed(compact(s)));
}

/// Two expressions in brackets, joined by an operator, read as such: the operator is
/// applied to their values, and there is no value where one of them or the operator has
/// none.
pub proof fn bracketed_operands_compute<T>(
    s: Seq<char>,
    x: Expr,
    op: char,
    t: Seq<char>,
    y: Expr,
    a: Arithmetic<T>,
)
    requires
        is_math(s, x),
        is_math(t, y),
        is_operator(op),
    ensures
        ({
            let e = Expr::Bin(
                Box::new(Expr::Paren(Box::new(x))),
                op,
                Box::new(Expr::Paren(Box::new(y))),
            );
            &&& is_math(bracketed(s) + seq![op] + bracketed(t), e)
            &&& value(e, a) == match (value(x, a), value(y, a)) {
                (Some(v), Some(w)) => (a.bin)(step_of(op), v, w),
                _ => None,
            }
        }),
{
    let l = Expr::Paren(Box::new(x));
    let r = Expr::Paren(Box::new(y));
    let e = Expr::Bin(Box::new(l), op, Box::new(r));
    let text = bracketed(s) + seq![op] + bracketed(t);
    lemma_compact_bracketed(s);
    lemma_compact_bracketed(t);
    lemma_compact_one(op);
    lemma_compact_add(bracketed(s) + seq![op], bracketed(t));
    lemma_compact_add(bracketed(s), seq![op]);
    assert(written(l) == bracketed(compact(s)));
    assert(written(r) == bracketed(compact(t)));
    assert(written(e) == written(l) + seq![op] + written(r));
    assert(written(e) == compact(text));
    assert(is_operator(seq![op][0]));
    lemma_operator_within(bracketed(compact(s)), seq![op], bracketed(compact(t)));
    assert(is_factor(l) && is_factor(r));
    assert(is_term(l) && is_term(r));
    assert(is_sum(l));
    if is_mul_op(op) {
        assert(is_term(e));
    }
    assert(is_sum(e));
    assert(value(l, a) == value(x, a));
    assert(value(r, a) == value(y, a));
}

/// The notation of a number: digits, of which there is at least one, and at most one point.
pub open spec fn numeral(s: Seq<char>) -> bool {
    &&& forall|i: int| 0 <= i < s.len() ==> ('0' <= #[trigger] s[i] <= '9' || s[i] == '.')
    &&& exists|i: int| 0 <= i < s.len() && '0' <= #[trigger] s[i] <= '9'
    &&& forall|i: int, j: int|
        0 <= i < s.len() && 0 <= j < s.len() && #[trigger] s[i] == '.' && #[trigger] s[j] == '.'
            ==> i == j
}

/// The instruction of a plus or minus sign between operands.
pub open spec fn sum_sign(op: char, i: Step) -> bool {
    (op == '+' && i == Step::Add) || (op == '-' && i == Step::Sub)
}

/// The instruction of a sign of multiplication, division or remainder.
pub open spec fn product_sign(op: char, i: Step) -> bool {
    (op == '*' && i == Step::Mul) || (op == '/' && i == Step::Div) || (op == '%' && i == Step::Rem)
}

/// The input is math, and its program is `p`.
pub open spec fn reads_as(s: Seq<char>, p: Seq<Step>) -> bool {
    exists|e: Expr| #[trigger] is_math(s, e) && postfix(e) == p
}

proof fn lemma_numeral(s: Seq<char>)
    requires
        numeral(s),
    ensures
        is_number(s),
        compact(s) == s,
        is_factor(Expr::Num(s)),
        is_term(Expr::Num(s)),
        is_sum(Expr::Num(s)),
        written(Expr::Num(s)) == s,
        postfix(Expr::Num(s)) == seq![Step::Num(s)],
{
    let i = choose|i: int| 0 <= i < s.len() && '0' <= #[trigger] s[i] <= '9';
    assert(is_digit(s[i]));
    assert forall|i: int| 0 <= i < s.len() implies in_number(#[trigger] s[i]) by {}
    lemma_no_white(s);
    lemma_number_tree(s);
}

proof fn lemma_number_tree(s: Seq<char>)
    requires
        is_number(s),
    ensures
        is_factor(Expr::Num(s)),
        is_term(Expr::Num(s)),
        is_sum(Expr::Num(s)),
        postfix(Expr::Num(s)) == seq![Step::Num(s)],
{
    let e = Expr::Num(s);
    assert(is_factor(e));
    assert(is_term(e));
    assert(is_sum(e));
}

/// A factor that is written `a`, without white space, and has the program `p`.
spec fn stands_for(x: Expr, a: Seq<char>, p: Seq<Step>) -> bool {
    &&& is_factor(x) && is_term(x) && is_sum(x)
    &&& written(x) == a && compact(a) == a && postfix(x) == p
}

/// Two texts without white space, joined by an operator.
proof fn lemma_joined(a: Seq<char>, q: char, b: Seq<char>)
    requires
        compact(a) == a,
        compact(b) == b,
        is_operator(q),
    ensures
        compact(a + seq![q] + b) == a + seq![q] + b,
        has_operator(a + seq![q] + b),
{
    lemma_compact_one(q);
    lemma_compact_add(a, seq![q]);
    lemma_compact_add(a + seq![q], b);
    assert(is_operator(seq![q][0]));
    lemma_operator_within(a, seq![q], b);
}

/// The tree of a product.
proof fn lemma_product(l: Expr, q: char, i: Step, r: Expr) -> (e: Expr)
    requires
        is_term(l),
        is_factor(r),
        product_sign(q, i),
        compact(written(l)) == written(l),
        compact(written(r)) == written(r),
    ensures
        is_term(e),
        is_sum(e),
        written(e) == written(l) + seq![q] + written(r),
        compact(written(e)) == written(e),
        postfix(e) == postfix(l) + postfix(r) + seq![i],
        is_math(written(e), e),
{
    let e = Expr::Bin(Box::new(l), q, Box::new(r));
    assert(is_term(e));
    assert(is_sum(e));
    lemma_joined(written(l), q, written(r));
    e
}

/// The tree of a sum.
proof fn lemma_sum(l: Expr, q: char, i: Step, r: Expr) -> (e: Expr)
    requires
        is_sum(l),
        is_term(r),
        sum_sign(q, i),
        compact(written(l)) == written(l),
        compact(written(r)) == written(r),
    ensures
        is_sum(e),
        written(e) == written(l) + seq![q] + written(r),
        compact(written(e)) == written(e),
        postfix(e) == postfix(l) + postfix(r) + seq![i],
        is_math(written(e), e),
{
    let e = Expr::Bin(Box::new(l), q, Box::new(r));
    assert(is_sum(e));
    lemma_joined(written(l), q, written(r));
    e
}

/// A product on the right of a sum.
proof fn lemma_three_right(x: Expr, p: char, i: Step, y: Expr, q: char, j: Step, z: Expr) -> (e: Expr)
    requires
        is_sum(x) && is_term(y) && is_factor(z),
        compact(written(x)) == written(x),
        compact(written(y)) == written(y),
        compact(written(z)) == written(z),
        sum_sign(p, i) && product_sign(q, j),
    ensures
        is_math(written(x) + seq![p] + written(y) + seq![q] + written(z), e),
        postfix(e) == postfix(x) + (postfix(y) + postfix(z) + seq![j]) + seq![i],
{
    let r = lemma_product(y, q, j, z);
    let e = lemma_sum(x, p, i, r);
    lemma_regroup(written(x) + seq![p], written(y) + seq![q], written(z));
    lemma_regroup(written(x) + seq![p], written(y), seq![q]);
    e
}

proof fn lemma_regroup(a: Seq<char>, b: Seq<char>, c: Seq<char>)
    ensures
        a + (b + c) == a + b + c,
{
    assert(a + (b + c) =~= a + b + c);
}

/// A product or a sum, grouped to the left.
proof fn lemma_three_left(x: Expr, p: char, i: Step, y: Expr, q: char, j: Step, z: Expr) -> (e: Expr)
    requires
        is_sum(x) && is_term(x) && is_term(y) && is_factor(y) && is_factor(z) && is_term(z),
        compact(written(x)) == written(x),
        compact(written(y)) == written(y),
        compact(written(z)) == written(z),
        (sum_sign(p, i) && sum_sign(q, j)) || (product_sign(p, i) && (product_sign(q, j)
            || sum_sign(q, j))),
    ensures
        is_math(written(x) + seq![p] + written(y) + seq![q] + written(z), e),
        postfix(e) == postfix(x) + postfix(y) + seq![i] + postfix(z) + seq![j],
{
    if product_sign(p, i) {
        let l = lemma_product(x, p, i, y);
        if product_sign(q, j) {
            lemma_product(l, q, j, z)
        } else {
            lemma_sum(l, q, j, z)
        }
    } else {
        let l = lemma_sum(x, p, i, y);
        lemma_sum(l, q, j, z)
    }
}

proof fn lemma_no_white(s: Seq<char>)
    requires
        forall|i: int| 0 <= i < s.len() ==> !white(#[trigger] s[i]),
    ensures
        compact(s) == s,
    decreases s.len(),
{
    if s.len() == 0 {
        assert(compact(s) =~= s);
    } else {
        let a = s.drop_last();
        assert forall|i: int| 0 <= i < a.len() implies !white(#[trigger] a[i]) by {
            assert(a[i] == s[i]);
        }
        lemma_no_white(a);
        assert(s =~= a + seq![s.last()]);
        lemma_compact_add(a, seq![s.last()]);
        lemma_compact_one(s.last());
    }
}

/// `*`, `/` and `%` bind tighter than `+` and `-`, on either side: `a+b*c` computes `b*c`
/// first, and `a*b+c` computes `a*b` first.
pub proof fn products_bind_tighter(
    a: Seq<char>,
    p: char,
    add: Step,
    b: Seq<char>,
    m: char,
    product: Step,
    c: Seq<char>,
)
    requires
        numeral(a),
        numeral(b),
        numeral(c),
        sum_sign(p, add),
        product_sign(m, product),
    ensures
        reads_as(
            a + seq![p] + b + seq![m] + c,
            seq![Step::Num(a), Step::Num(b), Step::Num(c), product, add],
        ),
        reads_as(
            a + seq![m] + b + seq![p] + c,
            seq![Step::Num(a), Step::Num(b), product, Step::Num(c), add],
        ),
{
    lemma_numeral(a);
    lemma_numeral(b);
    lemma_numeral(c);
    let (x, y, z) = (Expr::Num(a), Expr::Num(b), Expr::Num(c));
    let e = lemma_three_right(x, p, add, y, m, product, z);
    lemma_program_right(Step::Num(a), Step::Num(b), Step::Num(c), product, add);
    let f = lemma_three_left(x, m, product, y, p, add, z);
    lemma_program_left(Step::Num(a), Step::Num(b), product, Step::Num(c), add);
}

proof fn lemma_program_right(a: Step, b: Step, c: Step, i: Step, j: Step)
    ensures
        seq![a] + (seq![b] + seq![c] + seq![i]) + seq![j] == seq![a, b, c, i, j],
{
    assert(seq![a] + (seq![b] + seq![c] + seq![i]) + seq![j] =~= seq![a, b, c, i, j]);
}

proof fn lemma_program_left(a: Step, b: Step, i: Step, c: Step, j: Step)
    ensures
        seq![a] + seq![b] + seq![i] + seq![c] + seq![j] == seq![a, b, i, c, j],
{
    assert(seq![a] + seq![b] + seq![i] + seq![c] + seq![j] =~= seq![a, b, i, c, j]);
}

/// Operators of one kind are applied from left to right.
pub proof fn equal_operators_group_to_the_left(
    a: Seq<char>,
    p: char,
    first: Step,
    b: Seq<char>,
    q: char,
    second: Step,
    c: Seq<char>,
)
    requires
        numeral(a),
        numeral(b),
        numeral(c),
        (sum_sign(p, first) && sum_sign(q, second)) || (product_sign(p, first) && product_sign(
            q,
            second,
        )),
    ensures
        reads_as(
            a + seq![p] + b + seq![q] + c,
            seq![Step::Num(a), Step::Num(b), first, Step::Num(c), second],
        ),
{
    lemma_numeral(a);
    lemma_numeral(b);
    lemma_numeral(c);
    let e = lemma_three_left(Expr::Num(a), p, first, Expr::Num(b), q, second, Expr::Num(c));
    lemma_program_left(Step::Num(a), Step::Num(b), first, Step::Num(c), second);
}

/// Adding or subtracting a number at the end of an expression is done last: it applies to
/// the value of all that stands before.
pub proof fn trailing_number_is_added_last(s: Seq<char>, before: Seq<Step>, p: char, add: Step, n: Seq<char>)
    requires
        reads_as(s, before),
        sum_sign(p, add),
        numeral(n),
    ensures
        reads_as(s + seq![p] + n, before + seq![Step::Num(n), add]),
{
    let e = choose|e: Expr| #[trigger] is_math(s, e) && postfix(e) == before;
    lemma_numeral(n);
    let t = s + seq![p] + n;
    lemma_compact_one(p);
    lemma_compact_add(s, seq![p]);
    lemma_compact_add(s + seq![p], n);
    let f = Expr::Bin(Box::new(e), p, Box::new(Expr::Num(n)));
    assert(is_sum(f));
    assert(written(f) =~= compact(t));
    assert(is_operator(compact(t)[compact(s).len() as int]));
    assert(postfix(f) =~= before + seq![Step::Num(n), add]);
    assert(is_math(t, f));
}

/// A sign before a number belongs to the number alone, before an operator and after it: a
/// minus negates it, a plus changes nothing.
pub proof fn signs_bind_tightest(a: Seq<char>, p: char, i: Step, b: Seq<char>)
    requires
        numeral(a),
        numeral(b),
        sum_sign(p, i) || product_sign(p, i),
    ensures
        reads_as(
            seq!['-'] + a + seq![p] + b,
            seq![Step::Num(a), Step::Neg, Step::Num(b), i],
        ),
        reads_as(
            a + seq![p] + (seq!['-'] + b),
            seq![Step::Num(a), Step::Num(b), Step::Neg, i],
        ),
        reads_as(seq!['+'] + a + seq![p] + b, seq![Step::Num(a), Step::Num(b), i]),
        reads_as(a + seq![p] + (seq!['+'] + b), seq![Step::Num(a), Step::Num(b), i]),
        reads_as(seq!['-'] + a, seq![Step::Num(a), Step::Neg]),
        reads_as(seq!['+'] + a, seq![Step::Num(a)]),
{
    lemma_numeral(a);
    lemma_numeral(b);
    lemma_signed(a);
    lemma_signed(b);
    lemma_signs(a, p, i, b);
}

proof fn lemma_signs(a: Seq<char>, p: char, i: Step, b: Seq<char>)
    requires
        stands_for(Expr::Num(a), a, seq![Step::Num(a)]),
        stands_for(Expr::Num(b), b, seq![Step::Num(b)]),
        signed(a),
        signed(b),
        sum_sign(p, i) || product_sign(p, i),
    ensures
        reads_as(
            seq!['-'] + a + seq![p] + b,
            seq![Step::Num(a), Step::Neg, Step::Num(b), i],
        ),
        reads_as(
            a + seq![p] + (seq!['-'] + b),
            seq![Step::Num(a), Step::Num(b), Step::Neg, i],
        ),
        reads_as(seq!['+'] + a + seq![p] + b, seq![Step::Num(a), Step::Num(b), i]),
        reads_as(a + seq![p] + (seq!['+'] + b), seq![Step::Num(a), Step::Num(b), i]),
        reads_as(seq!['-'] + a, seq![Step::Num(a), Step::Neg]),
        reads_as(seq!['+'] + a, seq![Step::Num(a)]),
{
    let (x, y) = (Expr::Num(a), Expr::Num(b));
    let (nx, ny) = (Expr::Neg(Box::new(x)), Expr::Neg(Box::new(y)));
    let (px, py) = (Expr::Pos(Box::new(x)), Expr::Pos(Box::new(y)));
    lemma_pair(nx, seq!['-'] + a, seq![Step::Num(a), Step::Neg], p, i, y, b, seq![Step::Num(b)]);
    lemma_pair(x, a, seq![Step::Num(a)], p, i, ny, seq!['-'] + b, seq![Step::Num(b), Step::Neg]);
    lemma_pair(px, seq!['+'] + a, seq![Step::Num(a)], p, i, y, b, seq![Step::Num(b)]);
    lemma_pair(x, a, seq![Step::Num(a)], p, i, py, seq!['+'] + b, seq![Step::Num(b)]);
    assert(seq![Step::Num(a), Step::Neg] + seq![Step::Num(b)] + seq![i] =~= seq![
        Step::Num(a),
        Step::Neg,
        Step::Num(b),
        i,
    ]);
    assert(seq![Step::Num(a)] + seq![Step::Num(b), Step::Neg] + seq![i] =~= seq![
        Step::Num(a),
        Step::Num(b),
        Step::Neg,
        i,
    ]);
    assert(seq![Step::Num(a)] + seq![Step::Num(b)] + seq![i] =~= seq![
        Step::Num(a),
        Step::Num(b),
        i,
    ]);
    assert(is_operator((seq!['-'] + a)[0]));
    assert(is_operator((seq!['+'] + a)[0]));
    assert(is_math(seq!['-'] + a, nx));
    assert(is_math(seq!['+'] + a, px));
}

/// The number with the notation `a`, under either sign.
spec fn signed(a: Seq<char>) -> bool {
    &&& stands_for(
        Expr::Neg(Box::new(Expr::Num(a))),
        seq!['-'] + a,
        seq![Step::Num(a), Step::Neg],
    )
    &&& stands_for(Expr::Pos(Box::new(Expr::Num(a))), seq!['+'] + a, seq![Step::Num(a)])
}

proof fn lemma_signed(a: Seq<char>)
    requires
        numeral(a),
    ensures
        signed(a),
{
    lemma_numeral(a);
    let n = Expr::Neg(Box::new(Expr::Num(a)));
    let p = Expr::Pos(Box::new(Expr::Num(a)));
    assert(is_factor(n) && is_factor(p));
    assert(is_term(n) && is_term(p));
    assert(is_sum(n) && is_sum(p));
    lemma_compact_one('-');
    lemma_compact_one('+');
    lemma_compact_add(seq!['-'], a);
    lemma_compact_add(seq!['+'], a);
    assert(postfix(n) =~= seq![Step::Num(a), Step::Neg]);
}

/// Two factors joined by an operator.
proof fn lemma_pair(
    x: Expr,
    a: Seq<char>,
    left: Seq<Step>,
    p: char,
    i: Step,
    y: Expr,
    b: Seq<char>,
    right: Seq<Step>,
)
    requires
        stands_for(x, a, left),
        stands_for(y, b, right),
        sum_sign(p, i) || product_sign(p, i),
    ensures
        reads_as(a + seq![p] + b, left + right + seq![i]),
{
    let e = if product_sign(p, i) {
        lemma_product(x, p, i, y)
    } else {
        lemma_sum(x, p, i, y)
    };
    assert(is_math(a + seq![p] + b, e));
}

/// What stands in brackets is computed first, also under a minus sign.
pub proof fn brackets_come_first(
    s: Seq<char>,
    left: Seq<Step>,
    p: char,
    i: Step,
    t: Seq<char>,
    right: Seq<Step>,
)
    requires
        reads_as(s, left),
        reads_as(t, right),
        sum_sign(p, i) || product_sign(p, i),
    ensures
        reads_as(
            seq!['('] + s + seq![')'] + seq![p] + (seq!['('] + t + seq![')']),
            left + right + seq![i],
        ),
        reads_as(seq!['('] + s + seq![')'], left),
        reads_as(seq!['-'] + (seq!['('] + s + seq![')']), left + seq![Step::Neg]),
{
    let x = choose|e: Expr| #[trigger] is_math(s, e) && postfix(e) == left;
    let y = choose|e: Expr| #[trigger] is_math(t, e) && postfix(e) == right;
    let a = Arithmetic::<int> { num: |n: Seq<char>| 0int, neg: |v: int| v, bin: |o: Step, v: int, w: int| None };
    let l = Expr::Paren(Box::new(x));
    let r = Expr::Paren(Box::new(y));
    brackets_keep_the_value(s, x, a);
    assert(postfix(l) == left && postfix(r) == right);
    bracketed_operands_compute(s, x, p, t, y, a);
    let e = Expr::Bin(Box::new(l), p, Box::new(r));
    assert(postfix(e) =~= left + right + seq![i]);
    assert(is_math(bracketed(s) + seq![p] + bracketed(t), e));
    let n = Expr::Neg(Box::new(l));
    let u = seq!['-'] + bracketed(s);
    lemma_compact_one('-');
    lemma_compact_add(seq!['-'], bracketed(s));
    assert(is_factor(l));
    assert(is_factor(n));
    assert(is_sum(n));
    assert(written(n) == compact(u));
    assert(is_operator(compact(u)[0]));
    assert(postfix(n) == left + seq![Step::Neg]);
    assert(is_math(u, n));
}

/// The input is an operand, without regard to white space, and its program is `p`.
pub open spec fn operand(s: Seq<char>, p: Seq<Step>) -> bool {
    exists|e: Expr| #[trigger] is_factor(e) && written(e) == compact(s) && postfix(e) == p
}

/// The input is a product, or an operand alone, and its program is `p`.
pub open spec fn product(s: Seq<char>, p: Seq<Step>) -> bool {
    exists|e: Expr| #[trigger] is_term(e) && written(e) == compact(s) && postfix(e) == p
}

/// The input is a sum, or a product alone, and its program is `p`.
pub open spec fn sum(s: Seq<char>, p: Seq<Step>) -> bool {
    exists|e: Expr| #[trigger] is_sum(e) && written(e) == compact(s) && postfix(e) == p
}

/// A number is an operand, whose program pushes it.
pub proof fn numbers_are_operands(n: Seq<char>)
    requires
        numeral(n),
    ensures
        operand(n, seq![Step::Num(n)]),
{
    lemma_numeral(n);
    assert(is_factor(Expr::Num(n)));
}

/// An operand with a sign before it is an operand: a minus negates it, a plus does nothing.
pub proof fn signed_operands_are_operands(s: Seq<char>, p: Seq<Step>)
    requires
        operand(s, p),
    ensures
        operand(seq!['-'] + s, p + seq![Step::Neg]),
        operand(seq!['+'] + s, p),
{
    let e = choose|e: Expr| #[trigger] is_factor(e) && written(e) == compact(s) && postfix(e) == p;
    lemma_compact_one('-');
    lemma_compact_one('+');
    lemma_compact_add(seq!['-'], s);
    lemma_compact_add(seq!['+'], s);
    assert(is_factor(Expr::Neg(Box::new(e))));
    assert(is_factor(Expr::Pos(Box::new(e))));
}

/// A sum in brackets is an operand, and computes the same.
pub proof fn bracketed_sums_are_operands(s: Seq<char>, p: Seq<Step>)
    requires
        sum(s, p),
    ensures
        operand(seq!['('] + s + seq![')'], p),
{
    let e = choose|e: Expr| #[trigger] is_sum(e) && written(e) == compact(s) && postfix(e) == p;
    lemma_compact_bracketed(s);
    assert(is_factor(Expr::Paren(Box::new(e))));
}

/// An operand is a product, and a product is a sum.
pub proof fn operands_are_products_are_sums(s: Seq<char>, p: Seq<Step>)
    ensures
        operand(s, p) ==> product(s, p),
        product(s, p) ==> sum(s, p),
{
    if operand(s, p) {
        let e = choose|e: Expr| #[trigger]
            is_factor(e) && written(e) == compact(s) && postfix(e) == p;
        assert(is_term(e));
    }
    if product(s, p) {
        let e = choose|e: Expr| #[trigger]
            is_term(e) && written(e) == compact(s) && postfix(e) == p;
        assert(is_sum(e));
    }
}

/// A product and an operand, joined by `*`, `/` or `%`, are a product: both are computed, and
/// then the operator.
pub proof fn products_extend_to_the_right(
    s: Seq<char>,
    p: Seq<Step>,
    op: char,
    i: Step,
    t: Seq<char>,
    q: Seq<Step>,
)
    requires
        product(s, p),
        product_sign(op, i),
        operand(t, q),
    ensures
        product(s + seq![op] + t, p + q + seq![i]),
{
    let x = choose|e: Expr| #[trigger] is_term(e) && written(e) == compact(s) && postfix(e) == p;
    let y = choose|e: Expr| #[trigger] is_factor(e) && written(e) == compact(t) && postfix(e) == q;
    lemma_compact_one(op);
    lemma_compact_add(s, seq![op]);
    lemma_compact_add(s + seq![op], t);
    assert(is_term(Expr::Bin(Box::new(x), op, Box::new(y))));
}

/// A sum and a product, joined by `+` or `-`, are a sum: both are computed, and then the
/// operator.
pub proof fn sums_extend_to_the_right(
    s: Seq<char>,
    p: Seq<Step>,
    op: char,
    i: Step,
    t: Seq<char>,
    q: Seq<Step>,
)
    requires
        sum(s, p),
        sum_sign(op, i),
        product(t, q),
    ensures
        sum(s + seq![op] + t, p + q + seq![i]),
{
    let x = choose|e: Expr| #[trigger] is_sum(e) && written(e) == compact(s) && postfix(e) == p;
    let y = choose|e: Expr| #[trigger] is_term(e) && written(e) == compact(t) && postfix(e) == q;
    lemma_compact_one(op);
    lemma_compact_add(s, seq![op]);
    lemma_compact_add(s + seq![op], t);
    assert(is_sum(Expr::Bin(Box::new(x), op, Box::new(y))));
}

/// An input is math exactly if it is a sum that holds one of `+ - * / %`.
pub proof fn sums_with_an_operator_are_math(s: Seq<char>, p: Seq<Step>)
    ensures
        reads_as(s, p) <==> sum(s, p) && exists|i: int|
            0 <= i < s.len() && (#[trigger] s[i] == '+' || s[i] == '-' || s[i] == '*' || s[i] == '/'
                || s[i] == '%'),
{
    if reads_as(s, p) {
        let e = choose|e: Expr| #[trigger] is_math(s, e) && postfix(e) == p;
        assert(is_sum(e));
        math_is_well_shaped(s, p);
    }
    if sum(s, p) && exists|i: int|
        0 <= i < s.len() && (#[trigger] s[i] == '+' || s[i] == '-' || s[i] == '*' || s[i] == '/'
            || s[i] == '%') {
        let e = choose|e: Expr| #[trigger] is_sum(e) && written(e) == compact(s) && postfix(e) == p;
        let i = choose|i: int|
            0 <= i < s.len() && (#[trigger] s[i] == '+' || s[i] == '-' || s[i] == '*' || s[i] == '/'
                || s[i] == '%');
        let t = compact(s);
        s.lemma_filter_contains(|c: char| !white(c), i);
        let k = choose|k: int| 0 <= k < t.len() && t[k] == s[i];
        assert(is_operator(t[k]));
        assert(is_math(s, e));
    }
}

/// A character that an operand can begin with.
pub open spec fn begins_operand(c: char) -> bool {
    '0' <= c <= '9' || c == '.' || c == '(' || c == '+' || c == '-'
}

/// A character that an operand can end with.
pub open spec fn ends_operand(c: char) -> bool {
    '0' <= c <= '9' || c == '.' || c == ')'
}

/// `d` can follow `c`: operands are joined by operators, never by nothing.
pub open spec fn can_follow(c: char, d: char) -> bool {
    if c == ')' {
        d == '+' || d == '-' || d == '*' || d == '/' || d == '%' || d == ')'
    } else if '0' <= c <= '9' || c == '.' {
        '0' <= d <= '9' || d == '.' || d == '+' || d == '-' || d == '*' || d == '/' || d == '%' || d
            == ')'
    } else {
        begins_operand(d)
    }
}

/// How many brackets are open after a text.
pub open spec fn open_brackets(t: Seq<char>) -> int
    decreases t.len(),
{
    if t.len() == 0 {
        0
    } else {
        open_brackets(t.drop_last()) + (if t.last() == '(' {
            1int
        } else if t.last() == ')' {
            -1int
        } else {
            0int
        })
    }
}

/// The shape that every expression has.
pub open spec fn well_shaped(t: Seq<char>) -> bool {
    &&& t.len() > 0
    &&& begins_operand(t[0])
    &&& ends_operand(t.last())
    &&& forall|i: int, j: int|
        0 <= i && j == i + 1 && j < t.len() ==> can_follow(#[trigger] t[i], #[trigger] t[j])
    &&& open_brackets(t) == 0
    &&& forall|n: int| 0 <= n <= t.len() ==> open_brackets(#[trigger] t.take(n)) >= 0
}

proof fn lemma_brackets_concat(a: Seq<char>, b: Seq<char>)
    ensures
        open_brackets(a + b) == open_brackets(a) + open_brackets(b),
    decreases b.len(),
{
    if b.len() == 0 {
        assert(a + b =~= a);
    } else {
        assert((a + b).drop_last() =~= a + b.drop_last());
        lemma_brackets_concat(a, b.drop_last());
    }
}

proof fn lemma_brackets_one(c: char)
    ensures
        open_brackets(seq![c]) == if c == '(' {
            1int
        } else if c == ')' {
            -1int
        } else {
            0int
        },
{
    assert(seq![c].drop_last() =~= Seq::<char>::empty());
    assert(open_brackets(Seq::<char>::empty()) == 0);
}

/// A character before a text.
proof fn lemma_shape_prefix(c: char, t: Seq<char>)
    requires
        c == '+' || c == '-',
        well_shaped(t),
    ensures
        well_shaped(seq![c] + t),
{
    let u = seq![c] + t;
    lemma_brackets_one(c);
    lemma_brackets_concat(seq![c], t);
    assert forall|i: int, j: int| 0 <= i && j == i + 1 && j < u.len() implies can_follow(
        #[trigger] u[i],
        #[trigger] u[j],
    ) by {
        if i > 0 {
            assert(can_follow(t[i - 1], t[j - 1]));
        }
    }
    assert forall|n: int| 0 <= n <= u.len() implies open_brackets(#[trigger] u.take(n)) >= 0 by {
        if n > 0 {
            assert(u.take(n) =~= seq![c] + t.take(n - 1));
            lemma_brackets_concat(seq![c], t.take(n - 1));
        } else {
            assert(u.take(n) =~= Seq::<char>::empty());
        }
    }
}

proof fn lemma_shape_brackets(t: Seq<char>)
    requires
        well_shaped(t),
    ensures
        well_shaped(seq!['('] + t + seq![')']),
{
    let u = seq!['('] + t + seq![')'];
    lemma_brackets_one('(');
    lemma_brackets_one(')');
    lemma_brackets_concat(seq!['('], t);
    lemma_brackets_concat(seq!['('] + t, seq![')']);
    assert forall|i: int, j: int| 0 <= i && j == i + 1 && j < u.len() implies can_follow(
        #[trigger] u[i],
        #[trigger] u[j],
    ) by {
        if 0 < i && j < u.len() - 1 {
            assert(can_follow(t[i - 1], t[j - 1]));
        } else if i == 0 {
            assert(u[j] == t[0]);
        } else {
            assert(u[i] == t.last());
        }
    }
    assert forall|n: int| 0 <= n <= u.len() implies open_brackets(#[trigger] u.take(n)) >= 0 by {
        if n == 0 {
            assert(u.take(n) =~= Seq::<char>::empty());
        } else if n < u.len() {
            assert(u.take(n) =~= seq!['('] + t.take(n - 1));
            lemma_brackets_concat(seq!['('], t.take(n - 1));
        } else {
            assert(u.take(n) =~= u);
        }
    }
}

proof fn lemma_shape_joined(a: Seq<char>, op: char, b: Seq<char>)
    requires
        well_shaped(a),
        well_shaped(b),
        op == '+' || op == '-' || op == '*' || op == '/' || op == '%',
    ensures
        well_shaped(a + seq![op] + b),
{
    let u = a + seq![op] + b;
    let k = a.len() as int;
    lemma_brackets_one(op);
    lemma_brackets_concat(a, seq![op]);
    lemma_brackets_concat(a + seq![op], b);
    assert forall|i: int, j: int| 0 <= i && j == i + 1 && j < u.len() implies can_follow(
        #[trigger] u[i],
        #[trigger] u[j],
    ) by {
        if j < k {
            assert(can_follow(a[i], a[j]));
        } else if i > k {
            assert(can_follow(b[i - k - 1], b[j - k - 1]));
        } else if j == k {
            assert(u[i] == a.last());
        } else {
            assert(u[j] == b[0]);
        }
    }
    assert forall|n: int| 0 <= n <= u.len() implies open_brackets(#[trigger] u.take(n)) >= 0 by {
        if n <= k {
            assert(u.take(n) =~= a.take(n));
        } else {
            assert(u.take(n) =~= a + seq![op] + b.take(n - k - 1));
            lemma_brackets_concat(a + seq![op], b.take(n - k - 1));
        }
    }
}

proof fn lemma_shape_number(s: Seq<char>)
    requires
        is_number(s),
    ensures
        well_shaped(s),
{
    let d = choose|i: int| 0 <= i < s.len() && is_digit(#[trigger] s[i]);
    assert(in_number(s[0]) && in_number(s[s.len() - 1]));
    assert forall|i: int, j: int| 0 <= i && j == i + 1 && j < s.len() implies can_follow(
        #[trigger] s[i],
        #[trigger] s[j],
    ) by {
        assert(in_number(s[i]) && in_number(s[j]));
    }
    assert forall|n: int| 0 <= n <= s.len() implies open_brackets(#[trigger] s.take(n)) >= 0 by {
        lemma_no_brackets(s, n);
    }
    lemma_no_brackets(s, s.len() as int);
    assert(s.take(s.len() as int) =~= s);
}

proof fn lemma_no_brackets(s: Seq<char>, n: int)
    requires
        0 <= n <= s.len(),
        forall|i: int| 0 <= i < s.len() ==> in_number(#[trigger] s[i]),
    ensures
        open_brackets(s.take(n)) == 0,
    decreases n,
{
    if n > 0 {
        lemma_no_brackets(s, n - 1);
        assert(s.take(n).drop_last() =~= s.take(n - 1));
        assert(in_number(s[n - 1]));
    }
}

proof fn lemma_shape(e: Expr)
    requires
        is_sum(e) || is_term(e) || is_factor(e),
    ensures
        well_shaped(written(e)),
    decreases e,
{
    reveal_with_fuel(is_sum, 3);
    reveal_with_fuel(is_term, 3);
    reveal_with_fuel(is_factor, 3);
    match e {
        Expr::Num(s) => {
            lemma_shape_number(s);
        },
        Expr::Paren(x) => {
            lemma_shape(*x);
            lemma_shape_brackets(written(*x));
        },
        Expr::Neg(x) => {
            lemma_shape(*x);
            lemma_shape_prefix('-', written(*x));
        },
        Expr::Pos(x) => {
            lemma_shape(*x);
            lemma_shape_prefix('+', written(*x));
        },
        Expr::Bin(l, op, r) => {
            assert(is_operator(op));
            lemma_shape(*l);
            lemma_shape(*r);
            lemma_shape_joined(written(*l), op, written(*r));
        },
    }
}

/// What is not an expression is not math: without white space, an input that is math
/// begins and ends with an operand, joins operands by operators only, closes every bracket
/// that it opens, and holds one of `+ - * / %`.
pub proof fn math_is_well_shaped(s: Seq<char>, p: Seq<Step>)
    requires
        reads_as(s, p),
    ensures
        well_shaped(s.filter(|c: char| !white(c))),
        exists|i: int|
            0 <= i < s.len() && (#[trigger] s[i] == '+' || s[i] == '-' || s[i] == '*' || s[i] == '/'
                || s[i] == '%'),
{
    let e = choose|e: Expr| #[trigger] is_math(s, e) && postfix(e) == p;
    lemma_shape(e);
    let t = compact(s);
    let i = choose|i: int| 0 <= i < t.len() && is_operator(#[trigger] t[i]);
    assert(t.contains(t[i]));
    s.lemma_filter_contains_rev(|c: char| !white(c), t[i]);
    let k = choose|k: int| 0 <= k < s.len() && s[k] == t[i];
    assert(s[k] == '+' || s[k] == '-' || s[k] == '*' || s[k] == '/' || s[k] == '%');
}

proof fn lemma_numbers(e: Expr, k: int)
    requires
        is_sum(e) || is_term(e) || is_factor(e),
        0 <= k < postfix(e).len(),
    ensures
        postfix(e)[k] matches Step::Num(n) ==> numeral(n),
    decreases e,
{
    reveal_with_fuel(is_sum, 3);
    reveal_with_fuel(is_term, 3);
    reveal_with_fuel(is_factor, 3);
    match e {
        Expr::Num(s) => {
            let i = choose|i: int| 0 <= i < s.len() && is_digit(#[trigger] s[i]);
            assert('0' <= s[i] <= '9');
            assert forall|i: int| 0 <= i < s.len() implies ('0' <= #[trigger] s[i] <= '9' || s[i]
                == '.') by {
                assert(in_number(s[i]));
            }
        },
        Expr::Paren(x) => lemma_numbers(*x, k),
        Expr::Pos(x) => lemma_numbers(*x, k),
        Expr::Neg(x) => {
            if k < postfix(*x).len() {
                lemma_numbers(*x, k);
            }
        },
        Expr::Bin(l, op, r) => {
            if k < postfix(*l).len() {
                lemma_numbers(*l, k);
            } else if k < postfix(*l).len() + postfix(*r).len() {
                lemma_numbers(*r, k - postfix(*l).len());
            }
        },
    }
}

/// Every number of a program is the notation of one.
pub proof fn programs_hold_numerals(s: Seq<char>, p: Seq<Step>, k: int)
    requires
        reads_as(s, p),
        0 <= k < p.len(),
    ensures
        p[k] matches Step::Num(n) ==> numeral(n),
{
    let e = choose|e: Expr| #[trigger] is_math(s, e) && postfix(e) == p;
    lemma_numbers(e, k);
}

/// An input has one program.
pub proof fn programs_are_unique(s: Seq<char>, p: Seq<Step>, q: Seq<Step>)
    requires
        reads_as(s, p),
        reads_as(s, q),
    ensures
        p == q,
{
    let d = choose|e: Expr| #[trigger] is_math(s, e) && postfix(e) == p;
    let e = choose|e: Expr| #[trigger] is_math(s, e) && postfix(e) == q;
    one_reading(d, e);
}

/// `s` without the characters `c` at its end.
pub open spec fn without_trailing(s: Seq<char>, c: char) -> Seq<char>
    decreases s.len(),
{
    if s.len() > 0 && s.last() == c {
        without_trailing(s.drop_last(), c)
    } else {
        s
    }
}

fn trailing_start(v: &Vec<char>, end: usize, c: char) -> (r: usize)
    requires
        end <= v@.len(),
    ensures
        r <= end,
        v@.take(r as int) == without_trailing(v@.take(end as int), c),
{
    let mut i: usize = end;
    while i > 0 && v[i - 1] == c
        invariant
            i <= end,
            end <= v@.len(),
            without_trailing(v@.take(i as int), c) == without_trailing(v@.take(end as int), c),
        decreases i,
    {
        assert(v@.take(i as int).drop_last() == v@.take(i - 1));
        i = i - 1;
    }
    i
}

proof fn lemma_without_trailing(s: Seq<char>, c: char)
    ensures
        without_trailing(s, c).len() <= s.len(),
        without_trailing(s, c) == s.take(without_trailing(s, c).len() as int),
        forall|i: int| without_trailing(s, c).len() <= i < s.len() ==> #[trigger] s[i] == c,
        without_trailing(s, c).len() > 0 ==> without_trailing(s, c).last() != c,
    decreases s.len(),
{
    if s.len() > 0 && s.last() == c {
        let t = s.drop_last();
        lemma_without_trailing(t, c);
        let n = without_trailing(t, c).len() as int;
        assert(t.take(n) =~= s.take(n));
        assert forall|i: int| n <= i < s.len() implies #[trigger] s[i] == c by {
            if i < t.len() {
                assert(t[i] == c);
            }
        }
    } else {
        assert(s.take(s.len() as int) =~= s);
    }
}

/// Of a notation only its end is dropped, all the zeros there and then all the points: up to
/// `z` stands what has no zero at its end, and up to the length of the result what then has
/// no point at its end.
pub proof fn only_zeros_and_points_are_dropped(s: Seq<char>) -> (z: int)
    ensures
        ({
            let r = without_trailing(without_trailing(s, '0'), '.');
            &&& r.len() <= z <= s.len()
            &&& r == s.take(r.len() as int)
            &&& forall|i: int| z <= i < s.len() ==> #[trigger] s[i] == '0'
            &&& forall|i: int| r.len() <= i < z ==> #[trigger] s[i] == '.'
            &&& z > 0 ==> s[z - 1] != '0'
            &&& r.len() > 0 ==> s[r.len() - 1] != '.'
        }),
{
    let a = without_trailing(s, '0');
    let z = a.len() as int;
    let r = without_trailing(a, '.');
    lemma_without_trailing(s, '0');
    lemma_without_trailing(a, '.');
    assert(a.take(r.len() as int) =~= s.take(r.len() as int));
    assert forall|i: int| r.len() <= i < z implies #[trigger] s[i] == '.' by {
        assert(a[i] == '.');
    }
    z
}

/// A fixed-point notation in its compact form: zeros at its end are dropped, then
/// points at its end.
pub fn trim_decimals(s: &str) -> (r: String)
    ensures
        r@ == without_trailing(without_trailing(s@, '0'), '.'),
{
    let v = to_chars(s);
    let a: usize = trailing_start(&v, v.len(), '0');
    let b: usize = trailing_start(&v, a, '.');
    assert(v@.take(v@.len() as int) == s@);
    assert(v@.subrange(0, b as int) == v@.take(b as int));
    from_range(&v, 0, b)
}

} // verus!
