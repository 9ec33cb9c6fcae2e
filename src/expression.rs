//! The filter language: clauses `field OP value` joined by `and`.

use vstd::prelude::*;
use crate::errors::ExpressionError;
use crate::text::{
    chars_of, contains, contains_exec, is_ws, is_ws_char, range_is, range_views, ranges_within,
    split, split_ranges, trim, trim_left, trim_range,
};

verus! {

/// The task field that a clause tests.
#[derive(Debug, Clone, Copy, PartialEq, Eq, Structural)]
pub enum LeftVar {
    Name,
    Description,
    Date,
    Category,
    Done,
}

/// The comparison that a clause makes.
#[derive(Debug, Clone, Copy, PartialEq, Eq, Structural)]
pub enum Op {
    Equals,
    NotEquals,
    Greater,
    Less,
    GrEquals,
    LeEquals,
    Like,
}

/// A parsed clause in the model: field, operator and the raw value text.
pub type ClauseView = (LeftVar, Op, Seq<char>);

pub open spec fn clause_view(c: (LeftVar, Op, String)) -> ClauseView {
    (c.0, c.1, c.2@)
}

pub open spec fn clauses_view(v: Seq<(LeftVar, Op, String)>) -> Seq<ClauseView> {
    v.map_values(|c: (LeftVar, Op, String)| clause_view(c))
}

pub open spec fn like_word() -> Seq<char> {
    seq!['l', 'i', 'k', 'e']
}

pub open spec fn and_word() -> Seq<char> {
    seq!['a', 'n', 'd']
}

/// The characters that are operators on their own.
pub open spec fn is_op_char(c: char) -> bool {
    c == '<' || c == '=' || c == '>'
}

/// The operator characters of `s`, in order.
pub open spec fn op_chars(s: Seq<char>) -> Seq<char>
    decreases s.len(),
{
    if s.len() == 0 {
        seq![]
    } else if is_op_char(s.last()) {
        op_chars(s.drop_last()).push(s.last())
    } else {
        op_chars(s.drop_last())
    }
}

/// The operator token of a clause: `like` where the clause holds that word,
/// else its operator characters.
pub open spec fn op_text(e: Seq<char>) -> Seq<char> {
    if contains(e, like_word()) {
        like_word()
    } else {
        op_chars(e)
    }
}

/// The operator that a token names.
pub open spec fn resolve_op(t: Seq<char>) -> Result<Op, ExpressionError> {
    if t == seq!['<'] {
        Ok(Op::Less)
    } else if t == seq!['<', '='] {
        Ok(Op::LeEquals)
    } else if t == seq!['='] {
        Ok(Op::Equals)
    } else if t == seq!['!', '='] {
        Ok(Op::NotEquals)
    } else if t == seq!['>'] {
        Ok(Op::Greater)
    } else if t == seq!['>', '='] {
        Ok(Op::GrEquals)
    } else if t == like_word() {
        Ok(Op::Like)
    } else {
        Err(ExpressionError::OpParseError)
    }
}

pub open spec fn field_word(f: LeftVar) -> Seq<char> {
    match f {
        LeftVar::Name => seq!['n', 'a', 'm', 'e'],
        LeftVar::Description => seq!['d', 'e', 's', 'c', 'r', 'i', 'p', 't', 'i', 'o', 'n'],
        LeftVar::Date => seq!['d', 'a', 't', 'e'],
        LeftVar::Category => seq!['c', 'a', 't', 'e', 'g', 'o', 'r', 'y'],
        LeftVar::Done => seq!['s', 't', 'a', 't', 'u', 's'],
    }
}

/// The field that a word names; `status` names the done flag.
pub open spec fn resolve_field(t: Seq<char>) -> Result<LeftVar, ExpressionError> {
    if t == field_word(LeftVar::Name) {
        Ok(LeftVar::Name)
    } else if t == field_word(LeftVar::Description) {
        Ok(LeftVar::Description)
    } else if t == field_word(LeftVar::Date) {
        Ok(LeftVar::Date)
    } else if t == field_word(LeftVar::Category) {
        Ok(LeftVar::Category)
    } else if t == field_word(LeftVar::Done) {
        Ok(LeftVar::Done)
    } else {
        Err(ExpressionError::ArgParseError)
    }
}

/// One double quote taken off each end, where there is one.
pub open spec fn strip_quotes(s: Seq<char>) -> Seq<char> {
    let s1 = if s.len() > 0 && s[0] == '"' {
        s.drop_first()
    } else {
        s
    };
    if s1.len() > 0 && s1.last() == '"' {
        s1.drop_last()
    } else {
        s1
    }
}

/// One side of a clause: trimmed, then unquoted.
pub open spec fn operand(s: Seq<char>) -> Seq<char> {
    strip_quotes(trim(s))
}

/// The non-empty operands of the pieces, in order.
pub open spec fn operands_of(pieces: Seq<Seq<char>>) -> Seq<Seq<char>>
    decreases pieces.len(),
{
    if pieces.len() == 0 {
        seq![]
    } else {
        let r = operands_of(pieces.drop_last());
        let v = operand(pieces.last());
        if v.len() > 0 {
            r.push(v)
        } else {
            r
        }
    }
}

/// What parsing one clause gives.
pub open spec fn parse_expr_spec(e: Seq<char>) -> Result<ClauseView, ExpressionError> {
    let t = op_text(e);
    match resolve_op(t) {
        Err(err) => Err(err),
        Ok(op) => {
            let args = operands_of(split(e, t));
            if args.len() != 2 {
                Err(ExpressionError::ExprParseError)
            } else {
                match resolve_field(args[0]) {
                    Err(err) => Err(err),
                    Ok(f) => Ok((f, op, args[1])),
                }
            }
        },
    }
}

/// The clauses of the pieces, each trimmed and parsed, or `None` where any
/// piece fails.
pub open spec fn parse_clauses(pieces: Seq<Seq<char>>) -> Option<Seq<ClauseView>>
    decreases pieces.len(),
{
    if pieces.len() == 0 {
        Some(seq![])
    } else {
        match (parse_clauses(pieces.drop_last()), parse_expr_spec(trim(pieces.last()))) {
            (Some(r), Ok(c)) => Some(r.push(c)),
            _ => None,
        }
    }
}

/// What parsing a whole filter gives: its pieces between the words `and`,
/// every one a clause, or a single parse error.
pub open spec fn parse_args_spec(s: Seq<char>) -> Result<Seq<ClauseView>, ExpressionError> {
    match parse_clauses(split(s, and_word())) {
        Some(r) => Ok(r),
        None => Err(ExpressionError::ExprParseError),
    }
}

/// Where the first word of `t` ends, looking from `i`.
pub open spec fn word_end(t: Seq<char>, i: int) -> int
    decreases t.len() - i,
{
    if i < 0 || i >= t.len() || is_ws(t[i]) {
        i
    } else {
        word_end(t, i + 1)
    }
}

/// The first white-space separated word of `s`, if any.
pub open spec fn first_word(s: Seq<char>) -> Option<Seq<char>> {
    let t = trim_left(s);
    if t.len() == 0 {
        None
    } else {
        Some(t.subrange(0, word_end(t, 0)))
    }
}

/// The characters of a word, as a vector.
fn word_chars(w: &str) -> (r: Vec<char>)
    ensures
        r@ == w@,
{
    chars_of(w)
}

/// Resolves a field word.
fn match_arg(s: &Vec<char>, a: usize, b: usize) -> (r: Result<LeftVar, ExpressionError>)
    requires
        a <= b <= s.len(),
    ensures
        r == resolve_field(s@.subrange(a as int, b as int)),
{
    proof {
        reveal_strlit("name");
        reveal_strlit("description");
        reveal_strlit("date");
        reveal_strlit("category");
        reveal_strlit("status");
    }
    let w = word_chars("name");
    assert(w@ =~= field_word(LeftVar::Name));
    if range_is(s, a, b, &w) {
        return Ok(LeftVar::Name);
    }
    let w = word_chars("description");
    assert(w@ =~= field_word(LeftVar::Description));
    if range_is(s, a, b, &w) {
        return Ok(LeftVar::Description);
    }
    let w = word_chars("date");
    assert(w@ =~= field_word(LeftVar::Date));
    if range_is(s, a, b, &w) {
        return Ok(LeftVar::Date);
    }
    let w = word_chars("category");
    assert(w@ =~= field_word(LeftVar::Category));
    if range_is(s, a, b, &w) {
        return Ok(LeftVar::Category);
    }
    let w = word_chars("status");
    assert(w@ =~= field_word(LeftVar::Done));
    if range_is(s, a, b, &w) {
        return Ok(LeftVar::Done);
    }
    Err(ExpressionError::ArgParseError)
}

/// The vector holding `like`.
fn like_chars() -> (r: Vec<char>)
    ensures
        r@ == like_word(),
{
    proof {
        reveal_strlit("like");
    }
    let w = word_chars("like");
    assert(w@ =~= like_word());
    w
}

/// Resolves an operator token.
fn match_op(t: &Vec<char>) -> (r: Result<Op, ExpressionError>)
    ensures
        r == resolve_op(t@),
{
    if t.len() == 1 {
        if t[0] == '<' {
            assert(t@ =~= seq!['<']);
            return Ok(Op::Less);
        } else if t[0] == '=' {
            assert(t@ =~= seq!['=']);
            return Ok(Op::Equals);
        } else if t[0] == '>' {
            assert(t@ =~= seq!['>']);
            return Ok(Op::Greater);
        }
        assert(t@ != seq!['<'] && t@ != seq!['='] && t@ != seq!['>']) by {
            assert(seq!['<'][0] == '<' && seq!['='][0] == '=' && seq!['>'][0] == '>');
        }
    } else if t.len() == 2 && t[1] == '=' {
        if t[0] == '<' {
            assert(t@ =~= seq!['<', '=']);
            return Ok(Op::LeEquals);
        } else if t[0] == '!' {
            assert(t@ =~= seq!['!', '=']);
            return Ok(Op::NotEquals);
        } else if t[0] == '>' {
            assert(t@ =~= seq!['>', '=']);
            return Ok(Op::GrEquals);
        }
        assert(t@ != seq!['<', '='] && t@ != seq!['!', '='] && t@ != seq!['>', '=']) by {
            assert(seq!['<', '='][0] == '<' && seq!['!', '='][0] == '!' && seq!['>', '='][0]
                == '>');
        }
    } else if t.len() == 2 {
        assert(t@ != seq!['<', '='] && t@ != seq!['!', '='] && t@ != seq!['>', '=']) by {
            assert(seq!['<', '='][1] == '=' && seq!['!', '='][1] == '=' && seq!['>', '='][1]
                == '=');
        }
    } else if t.len() == 4 {
        let w = like_chars();
        if range_is(t, 0, t.len(), &w) {
            assert(t@.subrange(0, t@.len() as int) =~= t@);
            return Ok(Op::Like);
        }
        assert(t@.subrange(0, t@.len() as int) =~= t@);
    }
    Err(ExpressionError::OpParseError)
}

/// The operator characters of `s`.
fn op_chars_exec(s: &Vec<char>) -> (r: Vec<char>)
    ensures
        r@ == op_chars(s@),
{
    let mut r: Vec<char> = Vec::new();
    let mut i: usize = 0;
    while i < s.len()
        invariant
            i <= s.len(),
            r@ == op_chars(s@.subrange(0, i as int)),
        decreases s.len() - i,
    {
        assert(s@.subrange(0, i + 1).drop_last() =~= s@.subrange(0, i as int));
        let c = s[i];
        if c == '<' || c == '=' || c == '>' {
            r.push(c);
        }
        i = i + 1;
    }
    assert(s@.subrange(0, s@.len() as int) =~= s@);
    r
}

/// Narrows `[a, b)` by one double quote at each end, where there is one.
fn strip_quotes_range(s: &Vec<char>, a: usize, b: usize) -> (r: (usize, usize))
    requires
        a <= b <= s.len(),
    ensures
        a <= r.0 <= r.1 <= b,
        s@.subrange(r.0 as int, r.1 as int) == strip_quotes(s@.subrange(a as int, b as int)),
{
    let mut x = a;
    if x < b && s[x] == '"' {
        x = x + 1;
    }
    assert(s@.subrange(x as int, b as int) =~= (if a < b && s@[a as int] == '"' {
        s@.subrange(a as int, b as int).drop_first()
    } else {
        s@.subrange(a as int, b as int)
    }));
    let mut y = b;
    if x < y && s[y - 1] == '"' {
        y = y - 1;
        assert(s@.subrange(x as int, y as int) =~= s@.subrange(x as int, b as int).drop_last());
    }
    (x, y)
}

/// The ranges of the non-empty operands among the pieces `rs` of `s`.
fn operand_ranges(s: &Vec<char>, rs: &Vec<(usize, usize)>) -> (r: Vec<(usize, usize)>)
    requires
        ranges_within(rs@, s@.len() as int),
    ensures
        range_views(s@, r@) == operands_of(range_views(s@, rs@)),
        ranges_within(r@, s@.len() as int),
{
    let mut r: Vec<(usize, usize)> = Vec::new();
    let mut i: usize = 0;
    while i < rs.len()
        invariant
            i <= rs.len(),
            ranges_within(rs@, s@.len() as int),
            ranges_within(r@, s@.len() as int),
            range_views(s@, r@) == operands_of(range_views(s@, rs@.subrange(0, i as int))),
        decreases rs.len() - i,
    {
        let ghost pre = range_views(s@, rs@.subrange(0, i as int));
        assert(range_views(s@, rs@.subrange(0, i + 1)) =~= pre.push(
            s@.subrange(rs@[i as int].0 as int, rs@[i as int].1 as int),
        ));
        assert(range_views(s@, rs@.subrange(0, i + 1)).drop_last() =~= pre);
        let (a, b) = rs[i];
        let (ta, tb) = trim_range(s, a, b);
        let (qa, qb) = strip_quotes_range(s, ta, tb);
        if qa < qb {
            let ghost old_r = r@;
            r.push((qa, qb));
            assert(range_views(s@, r@) =~= range_views(s@, old_r).push(
                s@.subrange(qa as int, qb as int),
            ));
        }
        i = i + 1;
    }
    assert(rs@.subrange(0, rs@.len() as int) =~= rs@);
    r
}

pub open spec fn result_view(r: Result<(LeftVar, Op, String), ExpressionError>) -> Result<
    ClauseView,
    ExpressionError,
> {
    match r {
        Ok(c) => Ok(clause_view(c)),
        Err(e) => Err(e),
    }
}

/// Parses one clause `field OP value` into its field, operator and raw value.
fn parse_expr(expression: &str) -> (r: Result<(LeftVar, Op, String), ExpressionError>)
    ensures
        result_view(r) == parse_expr_spec(expression@),
{
    let s = chars_of(expression);
    let like = like_chars();
    let t = if contains_exec(&s, &like) {
        like
    } else {
        op_chars_exec(&s)
    };
    let op = match match_op(&t) {
        Ok(op) => op,
        Err(e) => {
            return Err(e);
        },
    };
    assert(t@.len() > 0);
    let pieces = split_ranges(&s, &t);
    let args = operand_ranges(&s, &pieces);
    if args.len() != 2 {
        return Err(ExpressionError::ExprParseError);
    }
    assert(range_views(s@, args@)[0] == s@.subrange(args@[0].0 as int, args@[0].1 as int));
    assert(range_views(s@, args@)[1] == s@.subrange(args@[1].0 as int, args@[1].1 as int));
    let left = match match_arg(&s, args[0].0, args[0].1) {
        Ok(f) => f,
        Err(e) => {
            return Err(e);
        },
    };
    let right = String::from_str(expression.substring_char(args[1].0, args[1].1));
    Ok((left, op, right))
}

/// Parses a filter: clauses joined by the word `and`, each trimmed. Fails
/// with `ExprParseError` where any clause fails.
pub fn parse_args(args: &str) -> (r: Result<Vec<(LeftVar, Op, String)>, ExpressionError>)
    ensures
        match r {
            Ok(v) => parse_args_spec(args@) == Ok::<Seq<ClauseView>, ExpressionError>(
                clauses_view(v@),
            ),
            Err(e) => parse_args_spec(args@) == Err::<Seq<ClauseView>, ExpressionError>(e),
        },
{
    let s = chars_of(args);
    proof {
        reveal_strlit("and");
    }
    let and = word_chars("and");
    assert(and@ =~= and_word());
    let pieces = split_ranges(&s, &and);
    let ghost all = range_views(s@, pieces@);
    let mut out: Vec<(LeftVar, Op, String)> = Vec::new();
    let mut failed = false;
    let mut i: usize = 0;
    while i < pieces.len()
        invariant
            i <= pieces.len(),
            all == range_views(s@, pieces@),
            all == split(s@, and_word()),
            ranges_within(pieces@, s@.len() as int),
            s@ == args@,
            failed ==> parse_clauses(all.subrange(0, i as int)) is None,
            !failed ==> parse_clauses(all.subrange(0, i as int)) == Some(clauses_view(out@)),
        decreases pieces.len() - i,
    {
        assert(all.subrange(0, i + 1).drop_last() =~= all.subrange(0, i as int));
        assert(all.subrange(0, i + 1).last() == s@.subrange(
            pieces@[i as int].0 as int,
            pieces@[i as int].1 as int,
        ));
        let (a, b) = trim_range(&s, pieces[i].0, pieces[i].1);
        let clause = parse_expr(args.substring_char(a, b));
        match clause {
            Ok(c) => {
                if !failed {
                    let ghost old_out = out@;
                    out.push(c);
                    assert(clauses_view(out@) =~= clauses_view(old_out).push(clause_view(c)));
                }
            },
            Err(_) => {
                failed = true;
            },
        }
        i = i + 1;
    }
    assert(all.subrange(0, all.len() as int) =~= all);
    if failed {
        return Err(ExpressionError::ExprParseError);
    }
    Ok(out)
}

/// Tells whether the first white-space separated word of `command` is
/// `other`; fails with `ArgParseError` where `command` has no word.
pub fn command_equals(command: &str, other: &str) -> (r: Result<bool, ExpressionError>)
    ensures
        match first_word(command@) {
            None => r == Err::<bool, ExpressionError>(ExpressionError::ArgParseError),
            Some(w) => r == Ok::<bool, ExpressionError>(w == other@),
        },
{
    let s = chars_of(command);
    let o = chars_of(other);
    let mut x: usize = 0;
    assert(s@.subrange(0, s@.len() as int) =~= s@);
    while x < s.len() && is_ws_char(s[x])
        invariant
            x <= s.len(),
            trim_left(s@) == trim_left(s@.subrange(x as int, s@.len() as int)),
        decreases s.len() - x,
    {
        assert(s@.subrange(x as int, s@.len() as int).drop_first() =~= s@.subrange(
            x + 1,
            s@.len() as int,
        ));
        x = x + 1;
    }
    assert(s@.subrange(0, s@.len() as int) =~= s@);
    let ghost t = s@.subrange(x as int, s@.len() as int);
    assert(trim_left(t) == t);
    if x == s.len() {
        return Err(ExpressionError::ArgParseError);
    }
    let mut y: usize = x;
    while y < s.len() && !is_ws_char(s[y])
        invariant
            x <= y <= s.len(),
            t == s@.subrange(x as int, s@.len() as int),
            word_end(t, 0) == word_end(t, y - x),
        decreases s.len() - y,
    {
        y = y + 1;
    }
    assert(t.subrange(0, y - x) =~= s@.subrange(x as int, y as int));
    Ok(range_is(&s, x, y, &o))
}

} // verus!
