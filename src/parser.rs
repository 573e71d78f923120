use vstd::prelude::*;
use vstd::string::StrSliceExecFns;
use vstd::string::StringExecFns;
use crate::nodes::{Node, Operator, Root};

verus! {

broadcast use vstd::string::group_string_axioms;

// ---------------------------------------------------------------------------
// The grammar, over the characters `t` of a template and index ranges in it.
// ---------------------------------------------------------------------------

pub open spec fn is_ws(c: char) -> bool {
    c == ' ' || c == '\t' || c == '\n' || c == '\r'
}

pub open spec fn is_digit(c: char) -> bool {
    '0' <= c && c <= '9'
}

pub open spec fn is_ident_start(c: char) -> bool {
    ('a' <= c && c <= 'z') || ('A' <= c && c <= 'Z') || c == '_'
}

pub open spec fn is_ident_char(c: char) -> bool {
    is_ident_start(c) || is_digit(c)
}

pub open spec fn opens_at(t: Seq<char>, i: int) -> bool {
    0 <= i && i + 1 < t.len() && t[i] == '{' && t[i + 1] == '{'
}

pub open spec fn closes_at(t: Seq<char>, i: int) -> bool {
    0 <= i && i + 1 < t.len() && t[i] == '}' && t[i + 1] == '}'
}

/// The first `{{` at or after `i`, or `t.len()` if there is none.
pub open spec fn next_open(t: Seq<char>, i: int) -> int
    decreases t.len() - i,
{
    if i >= t.len() {
        t.len() as int
    } else if opens_at(t, i) {
        i
    } else {
        next_open(t, i + 1)
    }
}

/// The first `}}` at or after `i`, or `t.len()` if there is none.
pub open spec fn next_close(t: Seq<char>, i: int) -> int
    decreases t.len() - i,
{
    if i >= t.len() {
        t.len() as int
    } else if closes_at(t, i) {
        i
    } else {
        next_close(t, i + 1)
    }
}

/// `lo` moved past leading whitespace of `t[lo..hi]`.
pub open spec fn trim_lo(t: Seq<char>, lo: int, hi: int) -> int
    decreases hi - lo,
{
    if lo < hi && is_ws(t[lo]) {
        trim_lo(t, lo + 1, hi)
    } else {
        lo
    }
}

/// `hi` moved back over trailing whitespace of `t[lo..hi]`.
pub open spec fn trim_hi(t: Seq<char>, lo: int, hi: int) -> int
    decreases hi - lo,
{
    if lo < hi && is_ws(t[hi - 1]) {
        trim_hi(t, lo, hi - 1)
    } else {
        hi
    }
}

/// Where the digits of a literal start: after an optional leading `-`.
pub open spec fn unsigned_start(t: Seq<char>, lo: int, hi: int) -> int {
    if lo < hi && t[lo] == '-' {
        lo + 1
    } else {
        lo
    }
}

pub open spec fn all_digits(t: Seq<char>, lo: int, hi: int) -> bool {
    forall|i: int| lo <= i < hi ==> is_digit(#[trigger] t[i])
}

pub open spec fn digits_value(t: Seq<char>, lo: int, hi: int) -> int
    decreases hi - lo,
{
    if hi <= lo {
        0
    } else {
        digits_value(t, lo, hi - 1) * 10 + (t[hi - 1] as int - '0' as int)
    }
}

/// An optional `-` followed by one or more decimal digits.
pub open spec fn is_int_literal(t: Seq<char>, lo: int, hi: int) -> bool {
    let u = unsigned_start(t, lo, hi);
    u < hi && all_digits(t, u, hi)
}

pub open spec fn int_literal_value(t: Seq<char>, lo: int, hi: int) -> int {
    let u = unsigned_start(t, lo, hi);
    if u > lo {
        -digits_value(t, u, hi)
    } else {
        digits_value(t, u, hi)
    }
}

pub open spec fn fits_i64(v: int) -> bool {
    i64::MIN <= v <= i64::MAX
}

pub open spec fn dots(t: Seq<char>, lo: int, hi: int) -> int
    decreases hi - lo,
{
    if hi <= lo {
        0
    } else {
        dots(t, lo, hi - 1) + if t[hi - 1] == '.' {
            1int
        } else {
            0int
        }
    }
}

/// An optional `-`, then digits with at most one `.` between two digits.
pub open spec fn is_float_literal(t: Seq<char>, lo: int, hi: int) -> bool {
    let u = unsigned_start(t, lo, hi);
    &&& u < hi
    &&& is_digit(t[u])
    &&& is_digit(t[hi - 1])
    &&& forall|i: int| u <= i < hi ==> is_digit(#[trigger] t[i]) || t[i] == '.'
    &&& dots(t, u, hi) <= 1
}

pub open spec fn is_identifier(t: Seq<char>, lo: int, hi: int) -> bool {
    &&& lo < hi
    &&& is_ident_start(t[lo])
    &&& forall|i: int| lo <= i < hi ==> is_ident_char(#[trigger] t[i])
}

pub open spec fn is_int_leaf(t: Seq<char>, lo: int, hi: int) -> bool {
    is_int_literal(t, lo, hi) && fits_i64(int_literal_value(t, lo, hi))
}

pub open spec fn is_leaf(t: Seq<char>, lo: int, hi: int) -> bool {
    is_int_leaf(t, lo, hi) || is_float_literal(t, lo, hi) || is_identifier(t, lo, hi)
}

pub open spec fn is_additive(c: char) -> bool {
    c == '+' || c == '-'
}

pub open spec fn is_multiplicative(c: char) -> bool {
    c == '*' || c == '/'
}

/// The last `+` or `-` in `t[lo..hi]`, or -1.
pub open spec fn last_additive(t: Seq<char>, lo: int, hi: int) -> int
    decreases hi - lo,
{
    if hi <= lo {
        -1
    } else if is_additive(t[hi - 1]) {
        hi - 1
    } else {
        last_additive(t, lo, hi - 1)
    }
}

/// The last `*` or `/` in `t[lo..hi]`, or -1.
pub open spec fn last_multiplicative(t: Seq<char>, lo: int, hi: int) -> int
    decreases hi - lo,
{
    if hi <= lo {
        -1
    } else if is_multiplicative(t[hi - 1]) {
        hi - 1
    } else {
        last_multiplicative(t, lo, hi - 1)
    }
}

/// The operator at which a compound expression splits: the last of the
/// loosest-binding kind, so that `*` and `/` bind tighter than `+` and `-`
/// and operators of one kind associate to the left.
pub open spec fn split_point(t: Seq<char>, lo: int, hi: int) -> int {
    let a = last_additive(t, lo, hi);
    if a >= 0 {
        a
    } else {
        last_multiplicative(t, lo, hi)
    }
}

pub open spec fn operator_of(c: char) -> Operator {
    if c == '+' {
        Operator::Add
    } else if c == '-' {
        Operator::Sub
    } else if c == '*' {
        Operator::Mul
    } else {
        Operator::Div
    }
}

/// Whether the block content `t[lo..hi]` is an expression.
pub open spec fn expr_valid(t: Seq<char>, lo: int, hi: int) -> bool
    decreases hi - lo,
{
    let a = trim_lo(t, lo, hi);
    let b = trim_hi(t, a, hi);
    if !(lo <= a <= b <= hi) {
        false
    } else if is_leaf(t, a, b) {
        true
    } else {
        let k = split_point(t, a, b);
        if a <= k < b {
            expr_valid(t, a, k) && expr_valid(t, k + 1, b)
        } else {
            false
        }
    }
}

/// Whether `n` is the expression that the block content `t[lo..hi]` denotes.
pub open spec fn expr_denotes(t: Seq<char>, lo: int, hi: int, n: Node) -> bool
    decreases hi - lo,
{
    let a = trim_lo(t, lo, hi);
    let b = trim_hi(t, a, hi);
    if !(lo <= a <= b <= hi) {
        false
    } else if is_int_leaf(t, a, b) {
        n == Node::Int(int_literal_value(t, a, b) as i64)
    } else if is_float_literal(t, a, b) {
        n is Float && n->Float_0@ == t.subrange(a, b)
    } else if is_identifier(t, a, b) {
        n is Identifier && n->Identifier_0@ == t.subrange(a, b)
    } else {
        let k = split_point(t, a, b);
        if a <= k < b {
            match n {
                Node::Math { operator, lhs, rhs } => operator == operator_of(t[k]) && expr_denotes(
                    t,
                    a,
                    k,
                    *lhs,
                ) && expr_denotes(t, k + 1, b, *rhs),
                _ => false,
            }
        } else {
            false
        }
    }
}

/// A piece of a template: literal text `t[lo..hi]`, or a block whose
/// content, between the delimiters, is `t[lo..hi]`.
pub enum Segment {
    Lit(int, int),
    Block(int, int),
}

/// Why a template does not parse.
pub enum ScanError {
    Unterminated,
    Invalid(int, int),
}

/// A template from `i` on, cut into segments; the first fault in source
/// order if it cannot be.
pub open spec fn scan(t: Seq<char>, i: int) -> Result<Seq<Segment>, ScanError>
    decreases t.len() - i,
{
    let j = next_open(t, i);
    if i > t.len() {
        Err(ScanError::Unterminated)
    } else if j >= t.len() {
        Ok(seq![Segment::Lit(i, t.len() as int)])
    } else {
        let k = next_close(t, j + 2);
        if k >= t.len() || !(i <= j && j + 2 <= k && k + 2 <= t.len()) {
            Err(ScanError::Unterminated)
        } else if !expr_valid(t, j + 2, k) {
            Err(ScanError::Invalid(j + 2, k))
        } else {
            match scan(t, k + 2) {
                Err(e) => Err(e),
                Ok(rest) => Ok(seq![Segment::Lit(i, j), Segment::Block(j + 2, k)] + rest),
            }
        }
    }
}

pub open spec fn segment_denotes(t: Seq<char>, s: Segment, n: Node) -> bool {
    match s {
        Segment::Lit(lo, hi) => n is Text && n->Text_0@ == t.subrange(lo, hi),
        Segment::Block(lo, hi) => match n {
            Node::VariableBlock(e) => expr_denotes(t, lo, hi, *e),
            _ => false,
        },
    }
}

pub open spec fn nodes_denote(t: Seq<char>, segs: Seq<Segment>, nodes: Seq<Node>) -> bool {
    &&& nodes.len() == segs.len()
    &&& forall|i: int| 0 <= i < segs.len() ==> segment_denotes(t, segs[i], #[trigger] nodes[i])
}

/// Whether `t` holds a `{{` anywhere.
pub open spec fn has_open(t: Seq<char>) -> bool {
    exists|i: int| opens_at(t, i)
}

/// Why a template is rejected.
#[derive(Debug)]
pub enum SyntaxError {
    UnterminatedBlock,
    InvalidExpression(String),
}

/// A scan result with `done` put in front of its segments.
pub open spec fn prefixed(
    done: Seq<Segment>,
    r: Result<Seq<Segment>, ScanError>,
) -> Result<Seq<Segment>, ScanError> {
    match r {
        Ok(rest) => Ok(done + rest),
        Err(e) => Err(e),
    }
}

/// What `parse` returns on a template `t`, stated over `scan`.
pub open spec fn parse_outcome(t: Seq<char>, r: Result<Root, SyntaxError>) -> bool {
    match scan(t, 0) {
        Ok(segs) => r is Ok && nodes_denote(t, segs, r->Ok_0.children@),
        Err(ScanError::Unterminated) => r is Err && r->Err_0 is UnterminatedBlock,
        Err(ScanError::Invalid(lo, hi)) => {
            let a = trim_lo(t, lo, hi);
            let b = trim_hi(t, a, hi);
            r is Err && r->Err_0 is InvalidExpression && r->Err_0->InvalidExpression_0@
                == t.subrange(a, b)
        },
    }
}

// ---------------------------------------------------------------------------
// The scanner and the expression parser.
// ---------------------------------------------------------------------------

fn to_chars(s: &str) -> (r: Vec<char>)
    ensures
        r@ == s@,
{
    let mut v: Vec<char> = Vec::new();
    for c in it: s.chars()
        invariant
            v@ == it.seq().take(it.index() as int),
    {
        v.push(c);
        proof {
            assert(v@ =~= it.seq().take(it.index() as int + 1));
        }
    }
    v
}

fn is_ws_char(c: char) -> (r: bool)
    ensures
        r == is_ws(c),
{
    c == ' ' || c == '\t' || c == '\n' || c == '\r'
}

fn is_digit_char(c: char) -> (r: bool)
    ensures
        r == is_digit(c),
{
    '0' <= c && c <= '9'
}

fn find_open(t: &Vec<char>, i: usize) -> (r: usize)
    requires
        i <= t.len(),
    ensures
        r == next_open(t@, i as int),
        i <= r <= t.len(),
        r < t.len() ==> opens_at(t@, r as int),
{
    let mut j = i;
    while j < t.len() && !(j + 1 < t.len() && t[j] == '{' && t[j + 1] == '{')
        invariant
            i <= j <= t.len(),
            next_open(t@, i as int) == next_open(t@, j as int),
        decreases t.len() - j,
    {
        j = j + 1;
    }
    j
}

fn find_close(t: &Vec<char>, i: usize) -> (r: usize)
    requires
        i <= t.len(),
    ensures
        r == next_close(t@, i as int),
        i <= r <= t.len(),
        r < t.len() ==> closes_at(t@, r as int),
{
    let mut j = i;
    while j < t.len() && !(j + 1 < t.len() && t[j] == '}' && t[j + 1] == '}')
        invariant
            i <= j <= t.len(),
            next_close(t@, i as int) == next_close(t@, j as int),
        decreases t.len() - j,
    {
        j = j + 1;
    }
    j
}

fn skip_ws(t: &Vec<char>, lo: usize, hi: usize) -> (r: usize)
    requires
        lo <= hi <= t.len(),
    ensures
        r == trim_lo(t@, lo as int, hi as int),
        lo <= r <= hi,
{
    let mut a = lo;
    while a < hi && is_ws_char(t[a])
        invariant
            lo <= a <= hi <= t.len(),
            trim_lo(t@, lo as int, hi as int) == trim_lo(t@, a as int, hi as int),
        decreases hi - a,
    {
        a = a + 1;
    }
    a
}

fn skip_ws_back(t: &Vec<char>, lo: usize, hi: usize) -> (r: usize)
    requires
        lo <= hi <= t.len(),
    ensures
        r == trim_hi(t@, lo as int, hi as int),
        lo <= r <= hi,
{
    let mut b = hi;
    while lo < b && is_ws_char(t[b - 1])
        invariant
            lo <= b <= hi <= t.len(),
            trim_hi(t@, lo as int, hi as int) == trim_hi(t@, lo as int, b as int),
        decreases b - lo,
    {
        b = b - 1;
    }
    b
}

/// The value of an integer literal that fits in `i64`.
fn parse_int(t: &Vec<char>, lo: usize, hi: usize) -> (r: Option<i64>)
    requires
        lo <= hi <= t.len(),
    ensures
        r is Some <==> is_int_leaf(t@, lo as int, hi as int),
        r is Some ==> r->0 == int_literal_value(t@, lo as int, hi as int),
{
    let u: usize = if lo < hi && t[lo] == '-' {
        lo + 1
    } else {
        lo
    };
    if u >= hi {
        return None;
    }
    let limit: u64 = 9223372036854775808;
    let mut acc: u64 = 0;
    let mut over = false;
    let mut i = u;
    while i < hi
        invariant
            u <= i <= hi <= t.len(),
            u == unsigned_start(t@, lo as int, hi as int),
            u < hi,
            all_digits(t@, u as int, i as int),
            !over ==> acc == digits_value(t@, u as int, i as int) && acc <= limit,
            over ==> digits_value(t@, u as int, i as int) > limit,
            limit == 9223372036854775808u64,
        decreases hi - i,
    {
        let c = t[i];
        if !is_digit_char(c) {
            proof {
                assert(!is_digit(t@[i as int]));
                assert(!all_digits(t@, u as int, hi as int));
            }
            return None;
        }
        let d = (c as u32 - '0' as u32) as u64;
        let ghost prev = digits_value(t@, u as int, i as int);
        assert(digits_value(t@, u as int, i as int + 1) == prev * 10 + d);
        if !over {
            if acc > (limit - d) / 10 {
                over = true;
                assert(prev * 10 + d > limit) by (nonlinear_arith)
                    requires
                        prev == acc,
                        acc > (limit - d) / 10,
                        d <= 9,
                        limit == 9223372036854775808u64,
                ;
            } else {
                assert(acc * 10 + d <= limit) by (nonlinear_arith)
                    requires
                        acc <= (limit - d) / 10,
                        d <= 9,
                        limit == 9223372036854775808u64,
                ;
                acc = acc * 10 + d;
            }
        } else {
            assert(prev * 10 + d > limit) by (nonlinear_arith)
                requires
                    prev > limit,
                    d >= 0,
            ;
        }
        i = i + 1;
    }
    if over {
        None
    } else if u > lo {
        Some((0 - (acc as i128)) as i64)
    } else if acc < limit {
        Some(acc as i64)
    } else {
        None
    }
}

fn is_float_text(t: &Vec<char>, lo: usize, hi: usize) -> (r: bool)
    requires
        lo <= hi <= t.len(),
    ensures
        r == is_float_literal(t@, lo as int, hi as int),
{
    let u: usize = if lo < hi && t[lo] == '-' {
        lo + 1
    } else {
        lo
    };
    if u >= hi || !is_digit_char(t[u]) || !is_digit_char(t[hi - 1]) {
        return false;
    }
    let mut n: usize = 0;
    let mut i = u;
    while i < hi
        invariant
            u <= i <= hi <= t.len(),
            u == unsigned_start(t@, lo as int, hi as int),
            n == dots(t@, u as int, i as int),
            n <= 1,
            forall|j: int| u <= j < i ==> is_digit(#[trigger] t@[j]) || t@[j] == '.',
        decreases hi - i,
    {
        let c = t[i];
        if c == '.' {
            if n == 1 {
                proof {
                    assert(dots(t@, u as int, i as int + 1) == 2);
                    lemma_dots_grow(t@, u as int, i as int + 1, hi as int);
                    assert(dots(t@, u as int, hi as int) >= 2);
                }
                return false;
            }
            n = n + 1;
        } else if !is_digit_char(c) {
            assert(!(is_digit(t@[i as int]) || t@[i as int] == '.'));
            return false;
        }
        i = i + 1;
    }
    true
}

proof fn lemma_dots_grow(t: Seq<char>, lo: int, mid: int, hi: int)
    requires
        lo <= mid <= hi,
    ensures
        dots(t, lo, mid) <= dots(t, lo, hi),
    decreases hi - mid,
{
    if mid < hi {
        lemma_dots_grow(t, lo, mid, hi - 1);
    }
}

fn is_identifier_text(t: &Vec<char>, lo: usize, hi: usize) -> (r: bool)
    requires
        lo <= hi <= t.len(),
    ensures
        r == is_identifier(t@, lo as int, hi as int),
{
    if lo >= hi {
        return false;
    }
    let c = t[lo];
    if !(('a' <= c && c <= 'z') || ('A' <= c && c <= 'Z') || c == '_') {
        return false;
    }
    let mut i = lo;
    while i < hi
        invariant
            lo <= i <= hi <= t.len(),
            forall|j: int| lo <= j < i ==> is_ident_char(#[trigger] t@[j]),
        decreases hi - i,
    {
        let c = t[i];
        if !(('a' <= c && c <= 'z') || ('A' <= c && c <= 'Z') || c == '_' || is_digit_char(c)) {
            return false;
        }
        i = i + 1;
    }
    true
}

fn find_split(t: &Vec<char>, lo: usize, hi: usize) -> (r: Option<usize>)
    requires
        lo <= hi <= t.len(),
    ensures
        match r {
            Some(k) => k == split_point(t@, lo as int, hi as int) && lo <= k < hi,
            None => split_point(t@, lo as int, hi as int) == -1,
        },
{
    let mut b = hi;
    while lo < b && !(t[b - 1] == '+' || t[b - 1] == '-')
        invariant
            lo <= b <= hi <= t.len(),
            last_additive(t@, lo as int, hi as int) == last_additive(t@, lo as int, b as int),
        decreases b - lo,
    {
        b = b - 1;
    }
    if lo < b {
        return Some(b - 1);
    }
    let mut b = hi;
    while lo < b && !(t[b - 1] == '*' || t[b - 1] == '/')
        invariant
            lo <= b <= hi <= t.len(),
            last_multiplicative(t@, lo as int, hi as int) == last_multiplicative(
                t@,
                lo as int,
                b as int,
            ),
        decreases b - lo,
    {
        b = b - 1;
    }
    if lo < b {
        Some(b - 1)
    } else {
        None
    }
}

fn operator_at(c: char) -> (r: Operator)
    ensures
        r == operator_of(c),
{
    if c == '+' {
        Operator::Add
    } else if c == '-' {
        Operator::Sub
    } else if c == '*' {
        Operator::Mul
    } else {
        Operator::Div
    }
}

fn text_of(src: &str, lo: usize, hi: usize) -> (r: String)
    requires
        lo <= hi <= src@.len(),
    ensures
        r@ == src@.subrange(lo as int, hi as int),
{
    String::from_str(src.substring_char(lo, hi))
}

/// Parses the block content `t[lo..hi]` as an expression.
fn parse_expr(src: &str, t: &Vec<char>, lo: usize, hi: usize) -> (r: Option<Node>)
    requires
        t@ == src@,
        lo <= hi <= t.len(),
    ensures
        r is Some <==> expr_valid(t@, lo as int, hi as int),
        r is Some ==> expr_denotes(t@, lo as int, hi as int, r->0),
    decreases hi - lo,
{
    let a = skip_ws(t, lo, hi);
    let b = skip_ws_back(t, a, hi);
    if let Some(v) = parse_int(t, a, b) {
        return Some(Node::Int(v));
    }
    if is_float_text(t, a, b) {
        return Some(Node::Float(text_of(src, a, b)));
    }
    if is_identifier_text(t, a, b) {
        return Some(Node::Identifier(text_of(src, a, b)));
    }
    match find_split(t, a, b) {
        None => None,
        Some(k) => {
            let operator = operator_at(t[k]);
            match parse_expr(src, t, a, k) {
                None => None,
                Some(lhs) => match parse_expr(src, t, k + 1, b) {
                    None => None,
                    Some(rhs) => Some(Node::Math { operator, lhs: Box::new(lhs), rhs: Box::new(rhs) }),
                },
            }
        },
    }
}

/// Parses a template into its text spans and blocks, in source order.
pub fn parse(src: &str) -> (r: Result<Root, SyntaxError>)
    ensures
        parse_outcome(src@, r),
{
    let t = to_chars(src);
    let n = t.len();
    let mut children: Vec<Node> = Vec::new();
    let ghost mut done: Seq<Segment> = Seq::empty();
    let mut i: usize = 0;
    proof {
        assert(prefixed(done, scan(t@, 0)) == scan(t@, 0)) by {
            match scan(t@, 0) {
                Ok(rest) => assert(done + rest =~= rest),
                Err(e) => {},
            }
        }
    }
    loop
        invariant
            t@ == src@,
            n == t.len(),
            i <= n,
            scan(t@, 0) == prefixed(done, scan(t@, i as int)),
            nodes_denote(t@, done, children@),
        decreases n - i,
    {
        let j = find_open(&t, i);
        if j >= n {
            let ghost lit = Segment::Lit(i as int, n as int);
            children.push(Node::Text(text_of(src, i, n)));
            proof {
                assert(scan(t@, i as int) == Ok::<Seq<Segment>, ScanError>(seq![lit]));
                assert(nodes_denote(t@, done.push(lit), children@)) by {
                    assert forall|m: int| 0 <= m < done.push(lit).len() implies segment_denotes(
                        t@,
                        done.push(lit)[m],
                        #[trigger] children@[m],
                    ) by {
                        if m < done.len() {
                            assert(segment_denotes(t@, done[m], children@[m]));
                        }
                    }
                }
                assert(done + seq![lit] =~= done.push(lit));
            }
            return Ok(Root { children });
        }
        let k = find_close(&t, j + 2);
        if k >= n {
            return Err(SyntaxError::UnterminatedBlock);
        }
        match parse_expr(src, &t, j + 2, k) {
            None => {
                let a = skip_ws(&t, j + 2, k);
                let b = skip_ws_back(&t, a, k);
                return Err(SyntaxError::InvalidExpression(text_of(src, a, b)));
            },
            Some(e) => {
                let ghost lit = Segment::Lit(i as int, j as int);
                let ghost block = Segment::Block(j + 2, k as int);
                children.push(Node::Text(text_of(src, i, j)));
                children.push(Node::VariableBlock(Box::new(e)));
                proof {
                    let d2 = done.push(lit).push(block);
                    assert(nodes_denote(t@, d2, children@)) by {
                        assert forall|m: int| 0 <= m < d2.len() implies segment_denotes(
                            t@,
                            d2[m],
                            #[trigger] children@[m],
                        ) by {
                            if m < done.len() {
                                assert(segment_denotes(t@, done[m], children@[m]));
                            }
                        }
                    }
                    match scan(t@, k + 2) {
                        Ok(rest) => {
                            assert(done + (seq![lit, block] + rest) =~= d2 + rest);
                        },
                        Err(e) => {},
                    }
                    done = d2;
                }
                i = k + 2;
            },
        }
    }
}

/// A parsed template.
#[derive(Debug)]
pub struct Parser {
    pub root: Root,
}

impl Parser {
    /// Parses `text`; fails on an unterminated block or on a block that
    /// holds no expression.
    pub fn new(text: &str) -> (r: Result<Parser, SyntaxError>)
        ensures
            r is Ok ==> parse_outcome(text@, Ok(r->Ok_0.root)),
            r is Err ==> parse_outcome(text@, Err(r->Err_0)),
    {
        match parse(text) {
            Ok(root) => Ok(Parser { root }),
            Err(e) => Err(e),
        }
    }
}

} // verus!
