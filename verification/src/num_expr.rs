//! Number-expression parser shared by the batch-edit input boxes.
//!
//! One line of chained operations, for example:
//! - `100`    → set to 100
//! - `+2` / `-2` → add 2 / add -2
//! - `x2` / `X2` / `*2` / `×2` → multiply by 2
//! - `/2` / `÷2` → divide by 2
//! - `20%` / `x.2` → multiply by 0.2 (a percentage is a factor)
//! - `x3/7`   → multiply by 3, then divide by 7
//! - `3x2`    → set to 3, then multiply by 2
//!
//! Rules: a first token that starts with a digit sets the value (with a `%`
//! suffix it is a factor); later tokens must start with an operator; `%` is
//! only allowed with no operator or a multiplication; dividing by zero is
//! invalid. The Chinese full stop `。` counts as a decimal point.
//!
//! Numbers are kept as the decimal literal that was typed; the caller turns
//! them into floating-point values.

use vstd::prelude::*;

verus! {

/// A number of the expression: `±text`, divided by 100 when `percent`.
/// `text` is the literal as typed: ASCII digits and at most one `.`, with at
/// least one digit.
pub struct Decimal {
    pub negative: bool,
    pub text: String,
    pub percent: bool,
}

/// One operation, applied in input order.
pub enum NumOp {
    /// Replace the value.
    Assign(Decimal),
    /// Add (a negative number subtracts).
    Add(Decimal),
    /// Multiply.
    Mul(Decimal),
    /// Divide (the divisor is not zero).
    Div(Decimal),
}

/// A decimal as plain values: (negative, literal text, percent).
pub type DecimalView = (bool, Seq<char>, bool);

/// An operation as plain values: (kind, number) with kind 0 = set, 1 = add,
/// 2 = multiply, 3 = divide.
pub type NumOpView = (u8, DecimalView);

impl View for Decimal {
    type V = DecimalView;

    open spec fn view(&self) -> DecimalView {
        (self.negative, self.text@, self.percent)
    }
}

impl View for NumOp {
    type V = NumOpView;

    open spec fn view(&self) -> NumOpView {
        match self {
            NumOp::Assign(d) => (0u8, d@),
            NumOp::Add(d) => (1u8, d@),
            NumOp::Mul(d) => (2u8, d@),
            NumOp::Div(d) => (3u8, d@),
        }
    }
}

/// Unicode `White_Space` (what `char::is_whitespace` and `str::trim` test).
pub open spec fn is_white_space(c: char) -> bool {
    ('\u{9}' <= c && c <= '\u{d}') || c == ' ' || c == '\u{85}' || c == '\u{a0}' || c == '\u{1680}'
        || ('\u{2000}' <= c && c <= '\u{200a}') || c == '\u{2028}' || c == '\u{2029}' || c == '\u{202f}'
        || c == '\u{205f}' || c == '\u{3000}'
}

/// `s` without its leading white space.
pub open spec fn trim_start(s: Seq<char>) -> Seq<char>
    decreases s.len(),
{
    if s.len() > 0 && is_white_space(s[0]) {
        trim_start(s.drop_first())
    } else {
        s
    }
}

/// `s` without its trailing white space.
pub open spec fn trim_end(s: Seq<char>) -> Seq<char>
    decreases s.len(),
{
    if s.len() > 0 && is_white_space(s.last()) {
        trim_end(s.drop_last())
    } else {
        s
    }
}

/// The text that is parsed: the input trimmed, `。` read as `.`.
pub open spec fn prepared(input: Seq<char>) -> Seq<char> {
    trim_end(trim_start(input)).map_values(|c: char| if c == '。' { '.' } else { c })
}

/// Operator kind of a character: 0 add, 1 subtract, 2 multiply, 3 divide.
pub open spec fn op_kind(c: char) -> Option<u8> {
    if c == '+' {
        Some(0u8)
    } else if c == '-' {
        Some(1u8)
    } else if c == 'x' || c == 'X' || c == '*' || c == '×' {
        Some(2u8)
    } else if c == '/' || c == '÷' {
        Some(3u8)
    } else {
        None
    }
}

/// A character of a number literal.
pub open spec fn is_num_char(c: char) -> bool {
    ('0' <= c && c <= '9') || c == '.'
}

/// End of the run of number characters that starts at `i`.
pub open spec fn num_end(cs: Seq<char>, i: nat) -> nat
    decreases cs.len() - i,
{
    if i < cs.len() && is_num_char(cs[i as int]) {
        num_end(cs, i + 1)
    } else {
        i
    }
}

/// A run of number characters starts at `s` and ends within the text.
pub proof fn lemma_num_end_bounds(cs: Seq<char>, s: nat)
    requires
        s <= cs.len(),
    ensures
        s <= num_end(cs, s) <= cs.len(),
    decreases cs.len() - s,
{
    if s < cs.len() && is_num_char(cs[s as int]) {
        lemma_num_end_bounds(cs, s + 1);
    }
}

/// Number of `.` in `t`.
pub open spec fn dot_count(t: Seq<char>) -> nat
    decreases t.len(),
{
    if t.len() == 0 {
        0
    } else {
        dot_count(t.drop_last()) + if t.last() == '.' { 1nat } else { 0nat }
    }
}

/// A run of number characters that reads as a number: at most one `.` and
/// at least one digit.
pub open spec fn valid_literal(t: Seq<char>) -> bool {
    &&& dot_count(t) <= 1
    &&& exists|i: int| 0 <= i < t.len() && #[trigger] t[i] != '.'
}

/// The literal's value is zero: it has no digit other than `0`.
pub open spec fn literal_is_zero(t: Seq<char>) -> bool {
    forall|i: int| 0 <= i < t.len() ==> #[trigger] t[i] == '0' || t[i] == '.'
}

/// The operation of one token: operator `op`, literal `lit`, `%` suffix `pct`;
/// `first` for the first token. `None` when the token is invalid.
pub open spec fn token_op(op: Option<u8>, lit: Seq<char>, pct: bool, first: bool) -> Option<NumOpView> {
    match op {
        Some(k) => if k == 0 {
            if pct { None } else { Some((1u8, (false, lit, false))) }
        } else if k == 1 {
            if pct { None } else { Some((1u8, (true, lit, false))) }
        } else if k == 2 {
            Some((2u8, (false, lit, pct)))
        } else {
            if pct || literal_is_zero(lit) { None } else { Some((3u8, (false, lit, false))) }
        },
        None => if !first {
            None
        } else if pct {
            Some((2u8, (false, lit, true)))
        } else {
            Some((0u8, (false, lit, false)))
        },
    }
}

/// Parses the tokens of `cs` from position `i`: an optional operator, a
/// number literal, an optional `%`, repeated to the end.
pub open spec fn parse_tokens(cs: Seq<char>, i: nat, first: bool) -> Option<Seq<NumOpView>>
    decreases cs.len() - i,
{
    if i >= cs.len() {
        Some(Seq::empty())
    } else {
        let op = op_kind(cs[i as int]);
        let s: nat = if op is Some { i + 1 } else { i };
        let e = num_end(cs, s);
        let lit = cs.subrange(s as int, e as int);
        let pct = e < cs.len() && cs[e as int] == '%';
        let next: nat = if pct { e + 1 } else { e };
        if e <= s || !valid_literal(lit) {
            None
        } else {
            match token_op(op, lit, pct, first) {
                Some(o) => match {
                    proof {
                        lemma_num_end_bounds(cs, s);
                    }
                    parse_tokens(cs, next, false)
                } {
                    Some(rest) => Some(seq![o] + rest),
                    None => None,
                },
                None => None,
            }
        }
    }
}

/// The parse of an input line: `None` for an empty line or any invalid token.
pub open spec fn spec_parse_num_expr(input: Seq<char>) -> Option<Seq<NumOpView>> {
    let cs = prepared(input);
    if cs.len() == 0 {
        None
    } else {
        parse_tokens(cs, 0, true)
    }
}

/// A literal with a digit other than `0`: a non-zero number.
pub open spec fn has_nonzero_digit(t: Seq<char>) -> bool {
    exists|j: int| 0 <= j < t.len() && t[j] != '0' && #[trigger] t[j] != '.'
}

/// What every operation of a parse satisfies: a division divides by a
/// non-zero, non-percentage number; only a multiplication carries a
/// percentage; only an addition is negative; an assignment stands only first
/// (and only when parsing from the first token); every literal has a digit
/// and at most one `.`.
pub open spec fn well_formed_ops(ops: Seq<NumOpView>, first: bool) -> bool {
    forall|k: int|
        0 <= k < ops.len() ==> {
            let o = #[trigger] ops[k];
            &&& o.0 <= 3
            &&& o.0 == 3 ==> has_nonzero_digit(o.1.1) && !o.1.2
            &&& o.1.2 ==> o.0 == 2
            &&& o.1.0 ==> o.0 == 1
            &&& o.0 == 0 ==> k == 0 && first
            &&& dot_count(o.1.1) <= 1
            &&& exists|j: int| 0 <= j < o.1.1.len() && #[trigger] o.1.1[j] != '.'
        }
}

proof fn lemma_tokens_well_formed(cs: Seq<char>, i: nat, first: bool)
    ensures
        parse_tokens(cs, i, first) matches Some(ops) ==> well_formed_ops(ops, first),
    decreases cs.len() - i,
{
    if i < cs.len() {
        let op = op_kind(cs[i as int]);
        let s: nat = if op is Some { i + 1 } else { i };
        let e = num_end(cs, s);
        let lit = cs.subrange(s as int, e as int);
        let pct = e < cs.len() && cs[e as int] == '%';
        let next: nat = if pct { e + 1 } else { e };
        lemma_num_end_bounds(cs, s);
        if e > s && valid_literal(lit) {
            if let Some(o) = token_op(op, lit, pct, first) {
                lemma_tokens_well_formed(cs, next, false);
                if let Some(rest) = parse_tokens(cs, next, false) {
                    let ops = seq![o] + rest;
                    assert forall|k: int| 0 <= k < ops.len() implies {
                        let o = #[trigger] ops[k];
                        &&& o.0 <= 3
                        &&& o.0 == 3 ==> has_nonzero_digit(o.1.1) && !o.1.2
                        &&& o.1.2 ==> o.0 == 2
                        &&& o.1.0 ==> o.0 == 1
                        &&& o.0 == 0 ==> k == 0 && first
                        &&& dot_count(o.1.1) <= 1
                        &&& exists|j: int| 0 <= j < o.1.1.len() && #[trigger] o.1.1[j] != '.'
                    } by {
                        if k == 0 {
                            assert(ops[0] == o);
                            if o.0 == 3 {
                                assert(!literal_is_zero(lit));
                                let j = choose|j: int| 0 <= j < lit.len() && !(lit[j] == '0' || lit[j] == '.');
                                assert(lit[j] != '0' && lit[j] != '.');
                            }
                            let j = choose|j: int| 0 <= j < lit.len() && lit[j] != '.';
                            assert(o.1.1[j] != '.');
                        } else {
                            assert(ops[k] == rest[k - 1]);
                        }
                    }
                }
            }
        }
    }
}

/// Every operation of a parsed expression is well formed (see
/// `well_formed_ops`): in particular a division never divides by zero,
/// wherever the token stands.
pub proof fn lemma_parse_well_formed(input: Seq<char>)
    ensures
        spec_parse_num_expr(input) matches Some(ops) ==> well_formed_ops(ops, true),
{
    lemma_tokens_well_formed(prepared(input), 0, true);
}

/// `lit` is a number as typed: digits and at most one `.`, with a digit.
pub open spec fn typed_number(lit: Seq<char>) -> bool {
    &&& forall|i: int| 0 <= i < lit.len() ==> #[trigger] is_num_char(lit[i])
    &&& dot_count(lit) <= 1
    &&& exists|i: int| 0 <= i < lit.len() && #[trigger] lit[i] != '.'
}

proof fn lemma_num_run_to_end(cs: Seq<char>, i: nat)
    requires
        i <= cs.len(),
        forall|k: int| i <= k < cs.len() ==> #[trigger] is_num_char(cs[k]),
    ensures
        num_end(cs, i) == cs.len(),
    decreases cs.len() - i,
{
    if i < cs.len() {
        lemma_num_run_to_end(cs, i + 1);
    }
}

/// A text that neither starts nor ends with white space and has no `。` is
/// parsed as it is.
proof fn lemma_parse_one_token(t: Seq<char>)
    requires
        t.len() > 0,
        !is_white_space(t[0]),
        !is_white_space(t.last()),
        forall|i: int| 0 <= i < t.len() ==> #[trigger] t[i] != '。',
    ensures
        spec_parse_num_expr(t) == parse_tokens(t, 0, true),
{
    assert(trim_start(t) == t);
    assert(trim_end(t) == t);
    assert(t.map_values(|c: char| if c == '。' { '.' } else { c }) =~= t);
}

proof fn lemma_typed_number_facts(lit: Seq<char>)
    requires
        typed_number(lit),
    ensures
        lit.len() > 0,
        valid_literal(lit),
        has_nonzero_digit(lit) <==> !literal_is_zero(lit),
        forall|i: int| 0 <= i < lit.len() ==> #[trigger] lit[i] != '。' && !is_white_space(lit[i]) && lit[i] != '%',
{
    let j = choose|i: int| 0 <= i < lit.len() && #[trigger] lit[i] != '.';
    assert(is_num_char(lit[j]));
    if has_nonzero_digit(lit) {
        let k = choose|k: int| 0 <= k < lit.len() && lit[k] != '0' && #[trigger] lit[k] != '.';
        assert(!(lit[k] == '0' || lit[k] == '.'));
    }
    if !literal_is_zero(lit) {
        let k = choose|k: int| 0 <= k < lit.len() && !(#[trigger] lit[k] == '0' || lit[k] == '.');
        assert(lit[k] != '0' && lit[k] != '.');
    }
    assert forall|i: int| 0 <= i < lit.len() implies #[trigger] lit[i] != '。' && !is_white_space(lit[i]) && lit[i]
        != '%' by {
        assert(is_num_char(lit[i]));
    }
}

/// Parsing `head + lit + tail`, where `head` is empty or an operator, and
/// `tail` is empty or `%`.
proof fn lemma_one_token_parse(head: Seq<char>, lit: Seq<char>, tail: Seq<char>)
    requires
        typed_number(lit),
        head.len() == 0 || (head.len() == 1 && op_kind(head[0]) is Some),
        tail.len() == 0 || tail == seq!['%'],
    ensures
        spec_parse_num_expr(head + lit + tail) == match token_op(
            if head.len() == 0 { None } else { op_kind(head[0]) },
            lit,
            tail.len() == 1,
            true,
        ) {
            Some(o) => Some(seq![o]),
            None => None::<Seq<NumOpView>>,
        },
{
    lemma_typed_number_facts(lit);
    let t = head + lit + tail;
    let h = head.len();
    let n = lit.len();
    assert forall|i: int| 0 <= i < t.len() implies #[trigger] t[i] != '。' by {
        if i < h {
            assert(t[i] == head[i]);
        } else if i < h + n {
            assert(t[i] == lit[i - h]);
        } else {
            assert(t[i] == '%');
        }
    }
    assert(!is_white_space(t[0])) by {
        if h == 0 {
            assert(t[0] == lit[0]);
        }
    }
    assert(!is_white_space(t.last())) by {
        if tail.len() == 0 {
            assert(t.last() == lit[n - 1]);
        }
    }
    lemma_parse_one_token(t);
    assert forall|k: int| h <= k < h + n implies #[trigger] is_num_char(t[k]) by {
        assert(t[k] == lit[k - h]);
    }
    if tail.len() == 0 {
        lemma_num_run_to_end(t, h as nat);
    } else {
        assert(t[(h + n) as int] == '%');
        lemma_num_end_prefix(t, h as nat, (h + n) as nat);
    }
    assert(t.subrange(h as int, (h + n) as int) =~= lit);
    let next: nat = (h + n + tail.len()) as nat;
    assert(next == t.len());
    assert(parse_tokens(t, next, false) == Some(Seq::<NumOpView>::empty()));
    if h == 1 {
        assert(t[0] == head[0]);
    }
    let o = token_op(if h == 0 { None } else { op_kind(head[0]) }, lit, tail.len() == 1, true);
    if o is Some {
        assert(seq![o.unwrap()] + Seq::<NumOpView>::empty() =~= seq![o.unwrap()]);
    }
}

/// A line of one token reads as its operation: a number alone sets the value,
/// with `%` it is a factor; `+` adds, `-` adds the negated number, `x`, `X`,
/// `*` and `×` multiply (a `%` is a factor), `/` and `÷` divide by a non-zero
/// number and give nothing for zero; `+`, `-`, `/` and `÷` refuse a `%`.
pub proof fn lemma_single_token_operation(c: char, lit: Seq<char>)
    requires
        typed_number(lit),
    ensures
        spec_parse_num_expr(lit) == Some(seq![(0u8, (false, lit, false))]),
        spec_parse_num_expr(lit.push('%')) == Some(seq![(2u8, (false, lit, true))]),
        c == '+' ==> spec_parse_num_expr(seq![c] + lit) == Some(seq![(1u8, (false, lit, false))]),
        c == '-' ==> spec_parse_num_expr(seq![c] + lit) == Some(seq![(1u8, (true, lit, false))]),
        (c == 'x' || c == 'X' || c == '*' || c == '×') ==> spec_parse_num_expr(seq![c] + lit) == Some(
            seq![(2u8, (false, lit, false))],
        ) && spec_parse_num_expr((seq![c] + lit).push('%')) == Some(seq![(2u8, (false, lit, true))]),
        (c == '/' || c == '÷') ==> spec_parse_num_expr(seq![c] + lit) == if has_nonzero_digit(lit) {
            Some(seq![(3u8, (false, lit, false))])
        } else {
            None::<Seq<NumOpView>>
        },
        (c == '+' || c == '-' || c == '/' || c == '÷') ==> spec_parse_num_expr((seq![c] + lit).push('%')) is None,
{
    lemma_typed_number_facts(lit);
    let e = Seq::<char>::empty();
    let pc = seq!['%'];
    lemma_one_token_parse(e, lit, e);
    assert(e + lit + e =~= lit);
    lemma_one_token_parse(e, lit, pc);
    assert(e + lit + pc =~= lit.push('%'));
    if op_kind(c) is Some {
        lemma_one_token_parse(seq![c], lit, e);
        assert(seq![c] + lit + e =~= seq![c] + lit);
        lemma_one_token_parse(seq![c], lit, pc);
        assert(seq![c] + lit + pc =~= (seq![c] + lit).push('%'));
    }
}

proof fn lemma_num_end_prefix(cs: Seq<char>, i: nat, e: nat)
    requires
        i <= e < cs.len(),
        forall|k: int| i <= k < e ==> #[trigger] is_num_char(cs[k]),
        !is_num_char(cs[e as int]),
    ensures
        num_end(cs, i) == e,
    decreases e - i,
{
    if i < e {
        lemma_num_end_prefix(cs, i + 1, e);
    }
}

/// Unicode `White_Space`.
fn white_space(c: char) -> (r: bool)
    ensures
        r == is_white_space(c),
{
    ('\u{9}' <= c && c <= '\u{d}') || c == ' ' || c == '\u{85}' || c == '\u{a0}' || c == '\u{1680}'
        || ('\u{2000}' <= c && c <= '\u{200a}') || c == '\u{2028}' || c == '\u{2029}' || c == '\u{202f}'
        || c == '\u{205f}' || c == '\u{3000}'
}

proof fn lemma_trim_start(s: Seq<char>, k: int)
    requires
        0 <= k <= s.len(),
        forall|j: int| 0 <= j < k ==> is_white_space(#[trigger] s[j]),
        k == s.len() || !is_white_space(s[k]),
    ensures
        trim_start(s) == s.skip(k),
    decreases k,
{
    if k > 0 {
        lemma_trim_start(s.drop_first(), k - 1);
        assert(s.drop_first().skip(k - 1) =~= s.skip(k));
    } else {
        assert(s.skip(0) =~= s);
    }
}

proof fn lemma_trim_end(s: Seq<char>, k: int)
    requires
        0 <= k <= s.len(),
        forall|j: int| k <= j < s.len() ==> is_white_space(#[trigger] s[j]),
        k == 0 || !is_white_space(s[k - 1]),
    ensures
        trim_end(s) == s.take(k),
    decreases s.len() - k,
{
    if k < s.len() {
        lemma_trim_end(s.drop_last(), k);
        assert(s.drop_last().take(k) =~= s.take(k));
    } else {
        assert(s.take(k) =~= s);
    }
}

/// The text that is parsed: trimmed, `。` replaced by `.`.
fn prepare(input: &str) -> (r: Vec<char>)
    ensures
        r@ == prepared(input@),
{
    let cs = crate::text::chars_of(input);
    let n = cs.len();
    let mut a: usize = 0;
    while a < n && white_space(cs[a])
        invariant
            a <= n,
            n == cs@.len(),
            forall|j: int| 0 <= j < a ==> is_white_space(#[trigger] cs@[j]),
        decreases n - a,
    {
        a += 1;
    }
    proof {
        lemma_trim_start(cs@, a as int);
    }
    let mut b: usize = n;
    while b > a && white_space(cs[b - 1])
        invariant
            a <= b <= n,
            n == cs@.len(),
            forall|j: int| b <= j < n ==> is_white_space(#[trigger] cs@[j]),
        decreases b - a,
    {
        b -= 1;
    }
    let ghost t = cs@.skip(a as int);
    proof {
        assert forall|j: int| b - a <= j < t.len() implies is_white_space(#[trigger] t[j]) by {
            assert(t[j] == cs@[j + a]);
        }
        if b > a {
            assert(t[b - a - 1] == cs@[b - 1]);
        }
        lemma_trim_end(t, (b - a) as int);
    }
    let mut r: Vec<char> = Vec::new();
    let mut i: usize = a;
    while i < b
        invariant
            a <= i <= b <= n,
            n == cs@.len(),
            r@ == cs@.subrange(a as int, i as int).map_values(|c: char| if c == '。' { '.' } else { c }),
        decreases b - i,
    {
        let c = cs[i];
        r.push(if c == '。' { '.' } else { c });
        i += 1;
        proof {
            assert(r@ =~= cs@.subrange(a as int, i as int).map_values(
                |c: char| if c == '。' { '.' } else { c },
            ));
        }
    }
    proof {
        assert(t.take((b - a) as int) =~= cs@.subrange(a as int, b as int));
    }
    r
}

fn operator_of(c: char) -> (r: Option<u8>)
    ensures
        r == op_kind(c),
{
    if c == '+' {
        Some(0u8)
    } else if c == '-' {
        Some(1u8)
    } else if c == 'x' || c == 'X' || c == '*' || c == '×' {
        Some(2u8)
    } else if c == '/' || c == '÷' {
        Some(3u8)
    } else {
        None
    }
}

/// The literal `cs[s..e]` as a string, with its validity and zero test.
fn read_literal(cs: &Vec<char>, s: usize, e: usize) -> (r: (String, bool, bool))
    requires
        s <= e <= cs@.len(),
    ensures
        r.0@ == cs@.subrange(s as int, e as int),
        r.1 == valid_literal(cs@.subrange(s as int, e as int)),
        r.2 == literal_is_zero(cs@.subrange(s as int, e as int)),
{
    let ghost t = cs@.subrange(s as int, e as int);
    let mut text = String::new();
    let mut dots: usize = 0;
    let mut has_digit = false;
    let mut zero = true;
    let mut k: usize = s;
    while k < e
        invariant
            s <= k <= e <= cs@.len(),
            t == cs@.subrange(s as int, e as int),
            text@ == t.take(k - s),
            dots == dot_count(t.take(k - s)),
            dots <= k - s,
            has_digit == (exists|i: int| 0 <= i < k - s && #[trigger] t[i] != '.'),
            zero == (forall|i: int| 0 <= i < k - s ==> #[trigger] t[i] == '0' || t[i] == '.'),
        decreases e - k,
    {
        let c = cs[k];
        proof {
            assert(t[k - s] == c);
            assert(t.take(k - s + 1).drop_last() =~= t.take(k - s));
            assert(t.take(k - s + 1).last() == c);
        }
        crate::text::push_char(&mut text, c);
        if c == '.' {
            dots += 1;
        } else {
            has_digit = true;
        }
        if c != '0' && c != '.' {
            zero = false;
        }
        k += 1;
        proof {
            assert(text@ =~= t.take(k - s));
        }
    }
    proof {
        assert(t.take(e - s) =~= t);
    }
    (text, dots <= 1 && has_digit, zero)
}

/// Parses an expression line. `None` means invalid: empty line, operator
/// without a number, malformed number, division by zero, misplaced `%`, or a
/// later token without an operator.
pub fn parse_num_expr(input: &str) -> (r: Option<Vec<NumOp>>)
    ensures
        match r {
            Some(ops) => spec_parse_num_expr(input@) == Some(ops@.map_values(|o: NumOp| o@)),
            None => spec_parse_num_expr(input@) is None,
        },
{
    let cs = prepare(input);
    if cs.len() == 0 {
        return None;
    }
    let n = cs.len();
    let mut ops: Vec<NumOp> = Vec::new();
    let mut i: usize = 0;
    let mut first = true;
    while i < n
        invariant
            i <= n,
            n == cs@.len(),
            cs@ == prepared(input@),
            parse_tokens(cs@, 0, true) == match parse_tokens(cs@, i as nat, first) {
                Some(rest) => Some(ops@.map_values(|o: NumOp| o@) + rest),
                None => None::<Seq<NumOpView>>,
            },
        decreases n - i,
    {
        let ghost i0 = i as nat;
        let ghost first0 = first;
        let op = operator_of(cs[i]);
        if op.is_some() {
            i += 1;
        }
        let start = i;
        while i < n && (('0' <= cs[i] && cs[i] <= '9') || cs[i] == '.')
            invariant
                start <= i <= n,
                n == cs@.len(),
                num_end(cs@, start as nat) == num_end(cs@, i as nat),
            decreases n - i,
        {
            i += 1;
        }
        proof {
            assert(num_end(cs@, i as nat) == i);
        }
        if start == i {
            return None;
        }
        let (text, valid, zero) = read_literal(&cs, start, i);
        if !valid {
            return None;
        }
        let is_pct = i < n && cs[i] == '%';
        if is_pct {
            i += 1;
        }
        let o: NumOp = match op {
            Some(k) => {
                if k == 0 {
                    if is_pct {
                        return None;
                    }
                    NumOp::Add(Decimal { negative: false, text, percent: false })
                } else if k == 1 {
                    if is_pct {
                        return None;
                    }
                    NumOp::Add(Decimal { negative: true, text, percent: false })
                } else if k == 2 {
                    NumOp::Mul(Decimal { negative: false, text, percent: is_pct })
                } else {
                    if is_pct || zero {
                        return None;
                    }
                    NumOp::Div(Decimal { negative: false, text, percent: false })
                }
            },
            None => {
                if !first {
                    return None;
                }
                if is_pct {
                    NumOp::Mul(Decimal { negative: false, text, percent: true })
                } else {
                    NumOp::Assign(Decimal { negative: false, text, percent: false })
                }
            },
        };
        proof {
            assert(token_op(op, cs@.subrange(start as int, num_end(cs@, start as nat) as int), is_pct, first0)
                == Some(o@));
        }
        let ghost before = ops@.map_values(|o: NumOp| o@);
        ops.push(o);
        first = false;
        proof {
            assert(ops@.map_values(|o: NumOp| o@) =~= before.push(o@));
            match parse_tokens(cs@, i as nat, false) {
                Some(rest) => {
                    assert(before + (seq![o@] + rest) =~= before.push(o@) + rest);
                },
                None => {},
            }
        }
    }
    proof {
        assert(ops@.map_values(|o: NumOp| o@) + Seq::<NumOpView>::empty() =~= ops@.map_values(
            |o: NumOp| o@,
        ));
    }
    Some(ops)
}

} // verus!
