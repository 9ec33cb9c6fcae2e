//! Laws of the parser and the store, proved over the models that the
//! operations' contracts use.

use vstd::prelude::*;
use crate::date::parsed_date_of;
use crate::errors::{ExpressionError, TaskError, TaskMgrError};
use crate::expression::{
    and_word, like_word, op_chars, op_text, parse_args_spec, parse_clauses, parse_expr_spec,
    resolve_op, is_op_char, field_word, resolve_field, operand, operands_of, strip_quotes,
    ClauseView, LeftVar, Op,
};
use crate::filter::{dates_ok, keep_matching, task_matches};
use crate::task_manager::{
    delete_spec, filter_text, find_spec, first_named, select_all_text, select_spec,
    select_where_text, toggle_spec,
    update_spec,
};
use crate::task_model::TaskView;
use crate::text::{contains, is_ws, occurs_at, split, split_from, find_from, trim, trim_left, trim_right};

verus! {

// ---- searching text ----

/// A text without the first character of `p` does not hold `p`.
pub proof fn lemma_no_first_char(s: Seq<char>, p: Seq<char>)
    requires
        p.len() > 0,
        forall|k: int| 0 <= k < s.len() ==> s[k] != p[0],
    ensures
        !contains(s, p),
{
    assert forall|i: int| !occurs_at(s, p, i) by {
        if occurs_at(s, p, i) {
            assert(s.subrange(i, i + p.len())[0] == p[0]);
        }
    }
}

/// An occurrence of `p` in a part of `s` is an occurrence in `s`.
pub proof fn lemma_contains_subrange(s: Seq<char>, p: Seq<char>, a: int, b: int)
    requires
        0 <= a <= b <= s.len(),
        contains(s.subrange(a, b), p),
    ensures
        contains(s, p),
{
    let i = choose|i: int| occurs_at(s.subrange(a, b), p, i);
    assert(s.subrange(a + i, a + i + p.len()) =~= s.subrange(a, b).subrange(i, i + p.len()));
    assert(occurs_at(s, p, a + i));
}

/// `p` stands in `a + b` only inside `a` or inside `b`, unless the last
/// character of `a` and the first of `b` both occur in `p`.
pub proof fn lemma_no_occ_concat(a: Seq<char>, b: Seq<char>, p: Seq<char>)
    requires
        p.len() > 0,
        !contains(a, p),
        !contains(b, p),
        a.len() == 0 || b.len() == 0 || !p.contains(a.last()) || !p.contains(b[0]),
    ensures
        !contains(a + b, p),
{
    let s = a + b;
    assert forall|i: int| !occurs_at(s, p, i) by {
        if occurs_at(s, p, i) {
            if i + p.len() <= a.len() {
                assert(a.subrange(i, i + p.len()) =~= s.subrange(i, i + p.len()));
                assert(occurs_at(a, p, i));
            } else if i >= a.len() {
                assert(b.subrange(i - a.len(), i - a.len() + p.len()) =~= s.subrange(
                    i,
                    i + p.len(),
                ));
                assert(occurs_at(b, p, i - a.len()));
            } else {
                let k = a.len() - 1 - i;
                assert(s.subrange(i, i + p.len())[k] == p[k]);
                assert(s.subrange(i, i + p.len())[k + 1] == p[k + 1]);
                assert(p[k] == a.last());
                assert(p[k + 1] == b[0]);
            }
        }
    }
}

/// `find_from` gives the first occurrence.
pub proof fn lemma_find_exact(s: Seq<char>, p: Seq<char>, i: int, k: int)
    requires
        0 <= i <= k,
        p.len() > 0,
        occurs_at(s, p, k),
        forall|j: int| i <= j < k ==> !occurs_at(s, p, j),
    ensures
        find_from(s, p, i) == k,
    decreases k - i,
{
    if i < k {
        lemma_find_exact(s, p, i + 1, k);
    }
}

/// `find_from` gives -1 where nothing occurs from `i` on.
pub proof fn lemma_find_none(s: Seq<char>, p: Seq<char>, i: int)
    requires
        0 <= i,
        p.len() > 0,
        forall|j: int| i <= j ==> !occurs_at(s, p, j),
    ensures
        find_from(s, p, i) == -1,
    decreases s.len() - i,
{
    if i + p.len() <= s.len() {
        lemma_find_none(s, p, i + 1);
    }
}

/// A text without `p` is one piece.
pub proof fn lemma_split_none(s: Seq<char>, p: Seq<char>)
    requires
        p.len() > 0,
        !contains(s, p),
    ensures
        split(s, p) == seq![s],
{
    lemma_find_none(s, p, 0);
    assert(s.subrange(0, s.len() as int) =~= s);
}

/// `x + p + y` splits at `p` into `x` and `y`, where `x` holds no first
/// character of `p` and `y` holds no `p`.
pub proof fn lemma_split_once(x: Seq<char>, p: Seq<char>, y: Seq<char>)
    requires
        p.len() > 0,
        forall|k: int| 0 <= k < x.len() ==> x[k] != p[0],
        !contains(y, p),
    ensures
        split(x + p + y, p) == seq![x, y],
{
    let s = x + p + y;
    let n = x.len() as int;
    let m = n + p.len();
    assert(s.subrange(n, m) =~= p);
    assert forall|j: int| 0 <= j < n implies !occurs_at(s, p, j) by {
        if occurs_at(s, p, j) {
            assert(s.subrange(j, j + p.len())[0] == p[0]);
            assert(s[j] == x[j]);
        }
    }
    lemma_find_exact(s, p, 0, n);
    assert forall|j: int| m <= j implies !occurs_at(s, p, j) by {
        if occurs_at(s, p, j) {
            assert(y.subrange(j - m, j - m + p.len()) =~= s.subrange(j, j + p.len()));
            assert(occurs_at(y, p, j - m));
        }
    }
    lemma_find_none(s, p, m);
    assert(s.subrange(0, n) =~= x);
    assert(s.subrange(m, s.len() as int) =~= y);
    assert(split_from(s, p, m) == seq![y]);
    assert(split(s, p) =~= seq![x, y]);
}

// ---- operator characters ----

pub proof fn lemma_op_chars_add(a: Seq<char>, b: Seq<char>)
    ensures
        op_chars(a + b) == op_chars(a) + op_chars(b),
    decreases b.len(),
{
    if b.len() == 0 {
        assert(a + b =~= a);
        assert(op_chars(a) + op_chars(b) =~= op_chars(a));
    } else {
        assert((a + b).drop_last() =~= a + b.drop_last());
        lemma_op_chars_add(a, b.drop_last());
        if is_op_char(b.last()) {
            assert(op_chars(a) + op_chars(b) =~= (op_chars(a) + op_chars(b.drop_last())).push(
                b.last(),
            ));
        }
    }
}

pub proof fn lemma_op_chars_none(s: Seq<char>)
    requires
        forall|k: int| 0 <= k < s.len() ==> !is_op_char(s[k]),
    ensures
        op_chars(s) == Seq::<char>::empty(),
    decreases s.len(),
{
    if s.len() > 0 {
        lemma_op_chars_none(s.drop_last());
    }
}

/// A text with no operator character and no `like` has no operator.
pub proof fn lemma_no_operator(s: Seq<char>)
    requires
        forall|k: int| 0 <= k < s.len() ==> !is_op_char(s[k]),
        !contains(s, like_word()),
    ensures
        parse_expr_spec(s) == Err::<ClauseView, ExpressionError>(ExpressionError::OpParseError),
{
    lemma_op_chars_none(s);
    assert(op_text(s) == Seq::<char>::empty());
    let e = Seq::<char>::empty();
    assert(e != seq!['<'] && e != seq!['<', '='] && e != seq!['='] && e != seq!['!', '=']);
    assert(e != seq!['>'] && e != seq!['>', '='] && e != like_word());
}

// ---- operator-less filters ----

/// Holds no operator character and no `like`.
pub open spec fn operatorless(s: Seq<char>) -> bool {
    &&& forall|k: int| 0 <= k < s.len() ==> !is_op_char(s[k])
    &&& !contains(s, like_word())
}

proof fn lemma_operatorless_subrange(s: Seq<char>, a: int, b: int)
    requires
        0 <= a <= b <= s.len(),
        operatorless(s),
    ensures
        operatorless(s.subrange(a, b)),
{
    if contains(s.subrange(a, b), like_word()) {
        lemma_contains_subrange(s, like_word(), a, b);
    }
}

proof fn lemma_operatorless_trim(s: Seq<char>)
    requires
        operatorless(s),
    ensures
        operatorless(trim(s)),
{
    lemma_operatorless_trim_left(s);
    lemma_operatorless_trim_right(trim_left(s));
}

proof fn lemma_operatorless_trim_left(s: Seq<char>)
    requires
        operatorless(s),
    ensures
        operatorless(trim_left(s)),
    decreases s.len(),
{
    if s.len() > 0 && is_ws(s[0]) {
        assert(s.drop_first() =~= s.subrange(1, s.len() as int));
        lemma_operatorless_subrange(s, 1, s.len() as int);
        lemma_operatorless_trim_left(s.drop_first());
    }
}

proof fn lemma_operatorless_trim_right(s: Seq<char>)
    requires
        operatorless(s),
    ensures
        operatorless(trim_right(s)),
    decreases s.len(),
{
    if s.len() > 0 && is_ws(s.last()) {
        assert(s.drop_last() =~= s.subrange(0, s.len() - 1));
        lemma_operatorless_subrange(s, 0, s.len() - 1);
        lemma_operatorless_trim_right(s.drop_last());
    }
}

proof fn lemma_first_piece_fails(ps: Seq<Seq<char>>)
    requires
        ps.len() > 0,
        parse_expr_spec(trim(ps[0])) is Err,
    ensures
        parse_clauses(ps) is None,
    decreases ps.len(),
{
    if ps.len() > 1 {
        lemma_first_piece_fails(ps.drop_last());
    }
}

/// A filter with no operator character and no `like` (the empty and the
/// all-white-space ones among them) does not parse.
pub proof fn lemma_operatorless_fails(s: Seq<char>)
    requires
        forall|k: int| 0 <= k < s.len() ==> !is_op_char(s[k]),
        !contains(s, like_word()),
    ensures
        parse_args_spec(s) is Err,
{
    let ps = split(s, and_word());
    let k = find_from(s, and_word(), 0);
    let first = if k < 0 || k + 3 > s.len() {
        s.subrange(0, s.len() as int)
    } else {
        s.subrange(0, k)
    };
    assert(ps.len() > 0 && ps[0] == first);
    crate::text::lemma_find_from_first(s, and_word(), 0);
    lemma_operatorless_subrange(s, 0, if k < 0 || k + 3 > s.len() { s.len() as int } else { k });
    lemma_operatorless_trim(first);
    lemma_no_operator(trim(first));
    lemma_first_piece_fails(ps);
}

// ---- the store ----

/// `first_named` finds the first task with the name, and -1 only where no
/// task from `i` on has it.
pub proof fn lemma_first_named(ts: Seq<TaskView>, n: Seq<char>, i: int)
    requires
        0 <= i,
    ensures
        first_named(ts, n, i) == -1 || (i <= first_named(ts, n, i) < ts.len() && ts[first_named(
            ts,
            n,
            i,
        )].name == n),
        forall|j: int|
            i <= j < ts.len() && (first_named(ts, n, i) == -1 || j < first_named(ts, n, i))
                ==> ts[j].name != n,
    decreases ts.len() - i,
{
    if i < ts.len() && ts[i].name != n {
        lemma_first_named(ts, n, i + 1);
    }
}

/// Lookup by name sees only names.
proof fn lemma_first_named_same_names(ts: Seq<TaskView>, us: Seq<TaskView>, n: Seq<char>, i: int)
    requires
        ts.len() == us.len(),
        forall|j: int| 0 <= j < ts.len() ==> ts[j].name == us[j].name,
    ensures
        first_named(ts, n, i) == first_named(us, n, i),
    decreases ts.len() - i,
{
    if 0 <= i < ts.len() && ts[i].name != n {
        lemma_first_named_same_names(ts, us, n, i + 1);
    }
}

/// Where at most one task has the name `n`, after deleting `n` no task has
/// it; deleting a name that no task has fails with not-found and changes
/// nothing.
pub proof fn lemma_delete_then_find(ts: Seq<TaskView>, n: Seq<char>)
    requires
        forall|i: int, j: int|
            0 <= i < j < ts.len() && ts[i].name == n ==> ts[j].name != n,
    ensures
        find_spec(delete_spec(ts, n).1, n) == -1,
        find_spec(ts, n) == -1 ==> delete_spec(ts, n) == (
            Err::<(), TaskMgrError>(TaskMgrError::TaskNotFound),
            ts,
        ),
{
    lemma_first_named(ts, n, 0);
    let i = find_spec(ts, n);
    let us = delete_spec(ts, n).1;
    if i >= 0 {
        assert forall|j: int| 0 <= j < us.len() implies us[j].name != n by {
            if j < i {
                assert(us[j] == ts[j]);
            } else {
                assert(us[j] == ts[j + 1]);
            }
        }
    }
    lemma_first_named(us, n, 0);
}

/// An update of a name that no task has, or with a date that does not read,
/// fails and leaves the store as it was.
pub proof fn lemma_failed_update_keeps_store(
    ts: Seq<TaskView>,
    task_name: Seq<char>,
    name: Seq<char>,
    desc: Seq<char>,
    date: Seq<char>,
    cat: Seq<char>,
)
    ensures
        find_spec(ts, task_name) == -1 ==> update_spec(ts, task_name, name, desc, date, cat) == (
            Err::<(), TaskMgrError>(TaskMgrError::TaskUpdateError),
            ts,
        ),
        parsed_date_of(date) is None ==> update_spec(ts, task_name, name, desc, date, cat).0 is Err
            && update_spec(ts, task_name, name, desc, date, cat).1 == ts,
{
}

/// Flipping the done flag of a task twice gives the store back.
pub proof fn lemma_toggle_twice(ts: Seq<TaskView>, n: Seq<char>)
    ensures
        toggle_spec(toggle_spec(ts, n), n) == ts,
{
    let us = toggle_spec(ts, n);
    lemma_first_named(ts, n, 0);
    lemma_first_named_same_names(ts, us, n, 0);
    let i = find_spec(ts, n);
    if i >= 0 {
        assert(toggle_spec(us, n) =~= ts);
    }
}

/// A query whose filter parses but holds a date clause whose value does not
/// read as a date fails with the date error, whatever the store holds.
pub proof fn lemma_bad_date_aborts(ts: Seq<TaskView>, query: Seq<char>, cs: Seq<ClauseView>, i: int)
    requires
        trim(query).len() > 0,
        trim(query) != select_all_text(),
        parse_args_spec(filter_text(trim(query))) == Ok::<Seq<ClauseView>, ExpressionError>(cs),
        0 <= i < cs.len(),
        cs[i].0 == LeftVar::Date,
        parsed_date_of(cs[i].2) is None,
    ensures
        select_spec(ts, query) == Err::<Seq<TaskView>, TaskMgrError>(
            TaskMgrError::GeneralTaskError(TaskError::TaskDateParseError),
        ),
{
    assert(!crate::filter::clause_date_ok(cs[i]));
}

proof fn lemma_push_contains(s: Seq<TaskView>, x: TaskView, t: TaskView)
    ensures
        s.push(x).contains(t) <==> (s.contains(t) || t == x),
{
    if s.push(x).contains(t) {
        let k = choose|k: int| 0 <= k < s.push(x).len() && s.push(x)[k] == t;
        if k < s.len() {
            assert(s[k] == t);
        }
    }
    if s.contains(t) {
        let k = choose|k: int| 0 <= k < s.len() && s[k] == t;
        assert(s.push(x)[k] == t);
    }
    if t == x {
        assert(s.push(x)[s.len() as int] == t);
    }
}

/// A `name like v` clause keeps exactly the tasks whose name holds `v`, in
/// store order.
pub proof fn lemma_name_like(ts: Seq<TaskView>, v: Seq<char>)
    ensures
        forall|t: TaskView|
            keep_matching(ts, (LeftVar::Name, Op::Like, v)).contains(t) <==> (ts.contains(t)
                && contains(t.name, v)),
    decreases ts.len(),
{
    let c = (LeftVar::Name, Op::Like, v);
    if ts.len() == 0 {
        assert forall|t: TaskView| !keep_matching(ts, c).contains(t) && !ts.contains(t) by {}
    } else {
        let d = ts.drop_last();
        let x = ts.last();
        lemma_name_like(d, v);
        assert(ts =~= d.push(x));
        let r = keep_matching(d, c);
        assert forall|t: TaskView|
            keep_matching(ts, c).contains(t) <==> (ts.contains(t) && contains(t.name, v)) by {
            lemma_push_contains(d, x, t);
            lemma_push_contains(r, x, t);
            assert(task_matches(t, c) == contains(t.name, v));
        }
    }
}

// ---- well-formed clauses ----

/// The token that writes an operator.
pub open spec fn op_word(o: Op) -> Seq<char> {
    match o {
        Op::Less => seq!['<'],
        Op::LeEquals => seq!['<', '='],
        Op::Equals => seq!['='],
        Op::NotEquals => seq!['!', '='],
        Op::Greater => seq!['>'],
        Op::GrEquals => seq!['>', '='],
        Op::Like => like_word(),
    }
}

/// All white space (possibly empty).
pub open spec fn is_blank(w: Seq<char>) -> bool {
    forall|k: int| 0 <= k < w.len() ==> is_ws(w[k])
}

/// A value that a clause with operator `o` carries through unchanged: not
/// empty, no white space or double quote at either end, no `like` and no
/// `and` in it, and for a symbolic operator no operator character.
pub open spec fn plain_value(v: Seq<char>, o: Op) -> bool {
    &&& v.len() > 0
    &&& !is_ws(v[0]) && !is_ws(v.last())
    &&& v[0] != '"' && v.last() != '"'
    &&& !contains(v, like_word())
    &&& !contains(v, and_word())
    &&& o != Op::Like ==> forall|k: int| 0 <= k < v.len() ==> !is_op_char(v[k])
}

proof fn lemma_trim_left_blank(w: Seq<char>, z: Seq<char>)
    requires
        is_blank(w),
    ensures
        trim_left(w + z) == trim_left(z),
    decreases w.len(),
{
    if w.len() > 0 {
        assert((w + z)[0] == w[0]);
        assert((w + z).drop_first() =~= w.drop_first() + z);
        lemma_trim_left_blank(w.drop_first(), z);
    } else {
        assert(w + z =~= z);
    }
}

proof fn lemma_trim_right_blank(z: Seq<char>, w: Seq<char>)
    requires
        is_blank(w),
    ensures
        trim_right(z + w) == trim_right(z),
    decreases w.len(),
{
    if w.len() > 0 {
        assert((z + w).last() == w.last());
        assert((z + w).drop_last() =~= z + w.drop_last());
        lemma_trim_right_blank(z, w.drop_last());
    } else {
        assert(z + w =~= z);
    }
}

/// White space around a text that starts and ends with other characters is
/// what `trim` takes off.
proof fn lemma_trim_around(w1: Seq<char>, m: Seq<char>, w2: Seq<char>)
    requires
        is_blank(w1),
        is_blank(w2),
        m.len() > 0,
        !is_ws(m[0]),
        !is_ws(m.last()),
    ensures
        trim(w1 + m + w2) == m,
{
    assert(w1 + m + w2 =~= w1 + (m + w2));
    lemma_trim_left_blank(w1, m + w2);
    assert((m + w2)[0] == m[0]);
    lemma_trim_right_blank(m, w2);
}

proof fn lemma_not_in(p: Seq<char>, c: char)
    requires
        forall|k: int| 0 <= k < p.len() ==> p[k] != c,
    ensures
        !p.contains(c),
{
}

/// What the field words are made of.
proof fn lemma_field_word(f: LeftVar)
    ensures
        field_word(f).len() > 0,
        forall|k: int|
            0 <= k < field_word(f).len() ==> {
                let c = #[trigger] field_word(f)[k];
                'a' <= c <= 'z' && c != 'l'
            },
        !contains(field_word(f), and_word()),
{
    let w = field_word(f);
    assert forall|k: int| 0 <= k < w.len() implies {
        let c = #[trigger] w[k];
        'a' <= c <= 'z' && c != 'l'
    } by {
        match f {
            LeftVar::Description => {
                assert(k == 0 || k == 1 || k == 2 || k == 3 || k == 4 || k == 5 || k == 6 || k == 7
                    || k == 8 || k == 9 || k == 10);
            },
            LeftVar::Category => {
                assert(k == 0 || k == 1 || k == 2 || k == 3 || k == 4 || k == 5 || k == 6 || k == 7);
            },
            LeftVar::Done => {
                assert(k == 0 || k == 1 || k == 2 || k == 3 || k == 4 || k == 5);
            },
            _ => {
                assert(k == 0 || k == 1 || k == 2 || k == 3);
            },
        }
    }
    assert forall|i: int| !occurs_at(w, and_word(), i) by {
        if occurs_at(w, and_word(), i) {
            let sub = w.subrange(i, i + 3);
            assert(sub[0] == 'a' && sub[1] == 'n');
            assert(w[i] == 'a' && w[i + 1] == 'n');
            match f {
                LeftVar::Description => {
                    assert(i == 0 || i == 1 || i == 2 || i == 3 || i == 4 || i == 5 || i == 6 || i
                        == 7 || i == 8);
                },
                LeftVar::Category => {
                    assert(i == 0 || i == 1 || i == 2 || i == 3 || i == 4 || i == 5);
                },
                LeftVar::Done => {
                    assert(i == 0 || i == 1 || i == 2 || i == 3);
                },
                _ => {
                    assert(i == 0 || i == 1);
                },
            }
        }
    }
}

/// Nothing made of white space holds a pattern without white space.
proof fn lemma_blank_no_occ(w: Seq<char>, p: Seq<char>)
    requires
        is_blank(w),
        p.len() > 0,
        !is_ws(p[0]),
    ensures
        !contains(w, p),
{
    lemma_no_first_char(w, p);
}

/// A pattern with no white space in it stands in a clause only inside one
/// of its words, where it can stand across two words only if those meet
/// without white space and both touching characters are in the pattern.
proof fn lemma_no_occ_clause(
    w1: Seq<char>,
    fw: Seq<char>,
    w2: Seq<char>,
    ow: Seq<char>,
    w3: Seq<char>,
    v: Seq<char>,
    w4: Seq<char>,
    p: Seq<char>,
)
    requires
        p.len() > 0,
        forall|k: int| 0 <= k < p.len() ==> !is_ws(#[trigger] p[k]),
        is_blank(w1),
        is_blank(w2),
        is_blank(w3),
        is_blank(w4),
        fw.len() > 0,
        ow.len() > 0,
        v.len() > 0,
        !contains(fw, p),
        !contains(ow, p),
        !contains(v, p),
        !p.contains(fw.last()) || !p.contains(ow[0]),
        !p.contains(ow.last()) || !p.contains(v[0]),
    ensures
        !contains(w1 + fw + w2 + ow + w3 + v + w4, p),
{
    assert forall|c: char| is_ws(c) implies !p.contains(c) by {
        lemma_not_in(p, c);
    }
    lemma_blank_no_occ(w1, p);
    lemma_blank_no_occ(w2, p);
    lemma_blank_no_occ(w3, p);
    lemma_blank_no_occ(w4, p);
    let s2 = w1 + fw;
    lemma_no_occ_concat(w1, fw, p);
    let s3 = s2 + w2;
    lemma_no_occ_concat(s2, w2, p);
    assert(s2.last() == fw.last());
    let s4 = s3 + ow;
    if w2.len() == 0 {
        assert(s3.last() == fw.last());
    } else {
        assert(s3.last() == w2.last());
    }
    lemma_no_occ_concat(s3, ow, p);
    let s5 = s4 + w3;
    assert(s4.last() == ow.last());
    lemma_no_occ_concat(s4, w3, p);
    let s6 = s5 + v;
    if w3.len() == 0 {
        assert(s5.last() == ow.last());
    } else {
        assert(s5.last() == w3.last());
    }
    lemma_no_occ_concat(s5, v, p);
    assert(s6.last() == v.last());
    lemma_no_occ_concat(s6, w4, p);
}

proof fn lemma_like_word_chars()
    ensures
        forall|k: int| 0 <= k < 4 ==> {
            let c = #[trigger] like_word()[k];
            'a' <= c <= 'z'
        },
        like_word().len() == 4,
        like_word()[0] == 'l',
{
    assert forall|k: int| 0 <= k < 4 implies {
        let c = #[trigger] like_word()[k];
        'a' <= c <= 'z'
    } by {
        assert(k == 0 || k == 1 || k == 2 || k == 3);
    }
}

proof fn lemma_and_word_chars()
    ensures
        forall|k: int| 0 <= k < 3 ==> {
            let c = #[trigger] and_word()[k];
            'a' <= c <= 'z'
        },
        and_word().len() == 3,
        and_word()[0] == 'a',
{
    assert forall|k: int| 0 <= k < 3 implies {
        let c = #[trigger] and_word()[k];
        'a' <= c <= 'z'
    } by {
        assert(k == 0 || k == 1 || k == 2);
    }
}

/// The symbolic operators other than `!=`, whose `!` is no operator
/// character, are written with operator characters alone.
proof fn lemma_op_word(o: Op)
    requires
        o != Op::Like,
        o != Op::NotEquals,
    ensures
        op_word(o).len() > 0,
        forall|k: int| 0 <= k < op_word(o).len() ==> is_op_char(#[trigger] op_word(o)[k]),
        op_chars(op_word(o)) == op_word(o),
        resolve_op(op_word(o)) == Ok::<Op, ExpressionError>(o),
{
    let w = op_word(o);
    assert forall|k: int| 0 <= k < w.len() implies is_op_char(#[trigger] w[k]) by {
        assert(k == 0 || k == 1);
    }
    if w.len() == 1 {
        let a = w.drop_last();
        assert(a =~= Seq::<char>::empty());
        assert(op_chars(a) == Seq::<char>::empty());
        assert(op_chars(w) == op_chars(a).push(w.last()));
        assert(op_chars(w) =~= w);
    } else {
        let a = w.drop_last();
        let b = a.drop_last();
        assert(b =~= Seq::<char>::empty());
        assert(op_chars(b) == Seq::<char>::empty());
        assert(a.last() == w[0]);
        assert(op_chars(a) == op_chars(b).push(a.last()));
        assert(op_chars(w) == op_chars(a).push(w.last()));
        assert(op_chars(w) =~= w);
    }
}

proof fn lemma_resolve_field(f: LeftVar)
    ensures
        resolve_field(field_word(f)) == Ok::<LeftVar, ExpressionError>(f),
{
    let n = field_word(LeftVar::Name);
    let d = field_word(LeftVar::Date);
    assert(n[0] != d[0]);
    if f == LeftVar::Date {
        assert(d != n);
    }
}

/// Letters are neither white space, nor operator characters, nor quotes.
proof fn lemma_letter(c: char)
    requires
        'a' <= c <= 'z',
    ensures
        !is_ws(c),
        !is_op_char(c),
        c != '"',
{
}

/// The operands of two pieces that keep a non-empty operand each.
proof fn lemma_two_operands(x: Seq<char>, y: Seq<char>)
    requires
        operand(x).len() > 0,
        operand(y).len() > 0,
    ensures
        operands_of(seq![x, y]) == seq![operand(x), operand(y)],
{
    let ps = seq![x, y];
    assert(ps.drop_last() =~= seq![x]);
    assert(seq![x].drop_last() =~= Seq::<Seq<char>>::empty());
    assert(operands_of(Seq::<Seq<char>>::empty()) == Seq::<Seq<char>>::empty());
    assert(seq![x].last() == x);
    assert(operands_of(seq![x]) == operands_of(seq![x].drop_last()).push(operand(x)));
    assert(operands_of(seq![x]) =~= seq![operand(x)]);
    assert(ps.last() == y);
    assert(operands_of(ps) =~= seq![operand(x), operand(y)]);
}

/// One clause `field OP value`, with any white space before, around and
/// after the operator and around the whole, parses back to its field,
/// operator and value.
pub proof fn lemma_expr_round_trip(
    w1: Seq<char>,
    f: LeftVar,
    w2: Seq<char>,
    o: Op,
    w3: Seq<char>,
    v: Seq<char>,
    w4: Seq<char>,
)
    requires
        is_blank(w1),
        is_blank(w2),
        is_blank(w3),
        is_blank(w4),
        o != Op::NotEquals,
        plain_value(v, o),
    ensures
        parse_expr_spec(w1 + field_word(f) + w2 + op_word(o) + w3 + v + w4) == Ok::<
            ClauseView,
            ExpressionError,
        >((f, o, v)),
{
    lemma_plain_written(v, o);
    lemma_expr_round_trip_written(w1, f, w2, o, w3, v, v, w4);
}

/// A well-formed clause `field OP value`, whatever white space stands around
/// it and around its operator, parses as a filter of exactly that clause:
/// same field, same operator, same value. (`!=` is left out: its `!` is no
/// operator character, so `field!=value` reads as `field!` `=` `value`.)
pub proof fn lemma_clause_round_trip(
    w1: Seq<char>,
    f: LeftVar,
    w2: Seq<char>,
    o: Op,
    w3: Seq<char>,
    v: Seq<char>,
    w4: Seq<char>,
)
    requires
        is_blank(w1),
        is_blank(w2),
        is_blank(w3),
        is_blank(w4),
        o != Op::NotEquals,
        plain_value(v, o),
    ensures
        parse_args_spec(w1 + field_word(f) + w2 + op_word(o) + w3 + v + w4) == Ok::<
            Seq<ClauseView>,
            ExpressionError,
        >(seq![(f, o, v)]),
{
    lemma_plain_written(v, o);
    lemma_clause_round_trip_written(w1, f, w2, o, w3, v, v, w4);
}

proof fn lemma_expr_round_trip_written(
    w1: Seq<char>,
    f: LeftVar,
    w2: Seq<char>,
    o: Op,
    w3: Seq<char>,
    wv: Seq<char>,
    v: Seq<char>,
    w4: Seq<char>,
)
    requires
        is_blank(w1),
        is_blank(w2),
        is_blank(w3),
        is_blank(w4),
        o != Op::NotEquals,
        written_ok(wv, v, o),
    ensures
        parse_expr_spec(w1 + field_word(f) + w2 + op_word(o) + w3 + wv + w4) == Ok::<
            ClauseView,
            ExpressionError,
        >((f, o, v)),
{
    let fw = field_word(f);
    let ow = op_word(o);
    let e = w1 + fw + w2 + ow + w3 + wv + w4;
    let x = w1 + fw + w2;
    let y = w3 + wv + w4;
    assert(e =~= x + ow + y);
    lemma_field_word(f);
    lemma_like_word_chars();
    assert forall|k: int| 0 <= k < fw.len() implies !is_ws(#[trigger] fw[k]) && !is_op_char(fw[k])
        && fw[k] != '"' by {
        lemma_letter(fw[k]);
    }
    assert forall|c: char| is_ws(c) || is_op_char(c) implies !like_word().contains(c) by {
        assert forall|k: int| 0 <= k < like_word().len() implies like_word()[k] != c by {
            lemma_letter(like_word()[k]);
        }
        lemma_not_in(like_word(), c);
    }
    // the two sides, trimmed and unquoted
    lemma_trim_around(w1, fw, w2);
    assert(strip_quotes(fw) == fw);
    lemma_trim_around(w3, wv, w4);
    assert(operand(x) == fw);
    assert(operand(y) == v);
    lemma_blank_no_occ(w3, like_word());
    lemma_blank_no_occ(w4, like_word());
    if o == Op::Like {
        assert(e.subrange(x.len() as int, x.len() + 4int) =~= like_word());
        assert(occurs_at(e, like_word(), x.len() as int));
        assert(op_text(e) == like_word());
        lemma_no_occ_concat(w3, wv, like_word());
        assert((w3 + wv).last() == wv.last());
        lemma_no_occ_concat(w3 + wv, w4, like_word());
        assert forall|k: int| 0 <= k < x.len() implies x[k] != like_word()[0] by {
            if k < w1.len() {
                assert(x[k] == w1[k]);
            } else if k < w1.len() + fw.len() {
                assert(x[k] == fw[k - w1.len()]);
            } else {
                assert(x[k] == w2[k - w1.len() - fw.len()]);
            }
        }
        lemma_split_once(x, like_word(), y);
        assert(split(e, op_text(e)) == seq![x, y]);
    } else {
        lemma_op_word(o);
        assert forall|k: int| 0 <= k < ow.len() implies !is_ws(#[trigger] ow[k]) by {}
        lemma_no_first_char(fw, like_word());
        lemma_no_first_char(ow, like_word());
        lemma_no_occ_clause(w1, fw, w2, ow, w3, wv, w4, like_word());
        lemma_op_chars_none(w1);
        lemma_op_chars_none(fw);
        lemma_op_chars_none(w2);
        lemma_op_chars_none(w3);
        lemma_op_chars_none(wv);
        lemma_op_chars_none(w4);
        lemma_op_chars_add(w1, fw);
        lemma_op_chars_add(w1 + fw, w2);
        lemma_op_chars_add(w1 + fw + w2, ow);
        lemma_op_chars_add(w1 + fw + w2 + ow, w3);
        lemma_op_chars_add(w1 + fw + w2 + ow + w3, wv);
        lemma_op_chars_add(w1 + fw + w2 + ow + w3 + wv, w4);
        assert(op_chars(e) =~= ow);
        assert(op_text(e) == ow);
        assert forall|k: int| 0 <= k < y.len() implies y[k] != ow[0] by {
            if k < w3.len() {
                assert(y[k] == w3[k]);
            } else if k < w3.len() + wv.len() {
                assert(y[k] == wv[k - w3.len()]);
            } else {
                assert(y[k] == w4[k - w3.len() - wv.len()]);
            }
        }
        lemma_no_first_char(y, ow);
        assert forall|k: int| 0 <= k < x.len() implies x[k] != ow[0] by {
            if k < w1.len() {
                assert(x[k] == w1[k]);
            } else if k < w1.len() + fw.len() {
                assert(x[k] == fw[k - w1.len()]);
            } else {
                assert(x[k] == w2[k - w1.len() - fw.len()]);
            }
        }
        lemma_split_once(x, ow, y);
        assert(split(e, op_text(e)) == seq![x, y]);
    }
    lemma_two_operands(x, y);
    lemma_resolve_field(f);
}

proof fn lemma_clause_round_trip_written(
    w1: Seq<char>,
    f: LeftVar,
    w2: Seq<char>,
    o: Op,
    w3: Seq<char>,
    wv: Seq<char>,
    v: Seq<char>,
    w4: Seq<char>,
)
    requires
        is_blank(w1),
        is_blank(w2),
        is_blank(w3),
        is_blank(w4),
        o != Op::NotEquals,
        written_ok(wv, v, o),
    ensures
        parse_args_spec(w1 + field_word(f) + w2 + op_word(o) + w3 + wv + w4) == Ok::<
            Seq<ClauseView>,
            ExpressionError,
        >(seq![(f, o, v)]),
{
    let fw = field_word(f);
    let ow = op_word(o);
    let c = w1 + fw + w2 + ow + w3 + wv + w4;
    let a = and_word();
    lemma_field_word(f);
    lemma_and_word_chars();
    lemma_like_word_chars();
    assert forall|k: int| 0 <= k < a.len() implies !is_ws(#[trigger] a[k]) by {
        lemma_letter(a[k]);
    }
    assert forall|ch: char| is_op_char(ch) || ch == 'l' || ch == 'e' implies !a.contains(ch) by {
        assert forall|k: int| 0 <= k < a.len() implies a[k] != ch by {
            assert(k == 0 || k == 1 || k == 2);
        }
        lemma_not_in(a, ch);
    }
    if o == Op::Like {
        assert forall|k: int| 0 <= k < ow.len() implies ow[k] != a[0] by {
            assert(k == 0 || k == 1 || k == 2 || k == 3);
        }
        assert(ow.last() == 'e');
    } else {
        lemma_op_word(o);
        assert forall|k: int| 0 <= k < ow.len() implies ow[k] != a[0] by {}
    }
    lemma_no_first_char(ow, a);
    lemma_no_occ_clause(w1, fw, w2, ow, w3, wv, w4, a);
    lemma_split_none(c, a);
    let m = fw + w2 + ow + w3 + wv;
    assert(c =~= w1 + m + w4);
    lemma_letter(fw[0]);
    assert(m[0] == fw[0]);
    assert(m.last() == wv.last());
    lemma_trim_around(w1, m, w4);
    let e = Seq::<char>::empty();
    assert(e + fw + w2 + ow + w3 + wv + e =~= m);
    lemma_expr_round_trip_written(e, f, w2, o, w3, wv, v, e);
    assert(seq![c].drop_last() =~= Seq::<Seq<char>>::empty());
    assert(parse_clauses(Seq::<Seq<char>>::empty()) == Some(Seq::<ClauseView>::empty()));
    assert(seq![c].last() == c);
    assert(Seq::<ClauseView>::empty().push((f, o, v)) =~= seq![(f, o, v)]);
}

/// What the written value of a clause needs for the clause to parse back:
/// `wv` is how it is written, `v` the value read from it.
pub open spec fn written_ok(wv: Seq<char>, v: Seq<char>, o: Op) -> bool {
    &&& wv.len() > 0
    &&& !is_ws(wv[0]) && !is_ws(wv.last())
    &&& strip_quotes(wv) == v
    &&& v.len() > 0
    &&& !contains(wv, like_word())
    &&& !contains(wv, and_word())
    &&& o != Op::Like ==> forall|k: int| 0 <= k < wv.len() ==> !is_op_char(wv[k])
}

proof fn lemma_plain_written(v: Seq<char>, o: Op)
    requires
        plain_value(v, o),
    ensures
        written_ok(v, v, o),
{
}

/// A value between double quotes.
pub open spec fn quoted(v: Seq<char>) -> Seq<char> {
    seq!['"'] + v + seq!['"']
}

/// How a value is written: as it is, or between double quotes.
pub open spec fn written(v: Seq<char>, in_quotes: bool) -> Seq<char> {
    if in_quotes {
        quoted(v)
    } else {
        v
    }
}

proof fn lemma_quoted_written(v: Seq<char>, o: Op)
    requires
        plain_value(v, o),
    ensures
        written_ok(quoted(v), v, o),
{
    let q = seq!['"'];
    let wv = quoted(v);
    lemma_like_word_chars();
    lemma_and_word_chars();
    assert forall|k: int| 0 <= k < like_word().len() implies like_word()[k] != '"' by {
        lemma_letter(like_word()[k]);
    }
    assert forall|k: int| 0 <= k < and_word().len() implies and_word()[k] != '"' by {
        lemma_letter(and_word()[k]);
    }
    lemma_not_in(like_word(), '"');
    lemma_not_in(and_word(), '"');
    lemma_no_first_char(q, like_word());
    lemma_no_first_char(q, and_word());
    lemma_no_occ_concat(q, v, like_word());
    lemma_no_occ_concat(q + v, q, like_word());
    lemma_no_occ_concat(q, v, and_word());
    lemma_no_occ_concat(q + v, q, and_word());
    assert(wv.drop_first() =~= v + q);
    assert((v + q).drop_last() =~= v);
    assert(strip_quotes(wv) == v);
    if o != Op::Like {
        assert forall|k: int| 0 <= k < wv.len() implies !is_op_char(wv[k]) by {
            if 1 <= k < wv.len() - 1 {
                assert(wv[k] == v[k - 1]);
            }
        }
    }
}

/// The members of what a clause keeps are the tasks that meet it.
pub proof fn lemma_keep_matching_members(ts: Seq<TaskView>, c: ClauseView)
    ensures
        forall|t: TaskView|
            keep_matching(ts, c).contains(t) <==> (ts.contains(t) && task_matches(t, c)),
    decreases ts.len(),
{
    if ts.len() == 0 {
        assert forall|t: TaskView| !keep_matching(ts, c).contains(t) && !ts.contains(t) by {}
    } else {
        let d = ts.drop_last();
        let x = ts.last();
        lemma_keep_matching_members(d, c);
        assert(ts =~= d.push(x));
        let r = keep_matching(d, c);
        assert forall|t: TaskView|
            keep_matching(ts, c).contains(t) <==> (ts.contains(t) && task_matches(t, c)) by {
            lemma_push_contains(d, x, t);
            lemma_push_contains(r, x, t);
        }
    }
}

/// A query `select * where` followed by one well-formed clause, its value
/// bare or between double quotes, gives the tasks that meet that clause.
#[verifier::rlimit(60)]
pub proof fn lemma_select_one_clause(
    ts: Seq<TaskView>,
    f: LeftVar,
    w2: Seq<char>,
    o: Op,
    w3: Seq<char>,
    v: Seq<char>,
    in_quotes: bool,
)
    requires
        is_blank(w2),
        is_blank(w3),
        o != Op::NotEquals,
        plain_value(v, o),
        f == LeftVar::Date ==> parsed_date_of(v) is Some,
    ensures
        select_spec(
            ts,
            select_where_text() + seq![' '] + field_word(f) + w2 + op_word(o) + w3 + written(
                v,
                in_quotes,
            ),
        ) == Ok::<Seq<TaskView>, TaskMgrError>(keep_matching(ts, (f, o, v))),
{
    let wv = written(v, in_quotes);
    lemma_written_ok(v, o, in_quotes);
    let sp = seq![' '];
    let fw = field_word(f);
    let ow = op_word(o);
    let tail = sp + fw + w2 + ow + w3 + wv;
    let query = select_where_text() + sp + fw + w2 + ow + w3 + wv;
    assert(query =~= select_where_text() + tail);
    lemma_one_clause_tail(sp, f, w2, o, w3, wv, v);
    lemma_query_shape(tail);
    lemma_select_parsed(ts, query, seq![(f, o, v)]);
}

proof fn lemma_one_clause_tail(
    sp: Seq<char>,
    f: LeftVar,
    w2: Seq<char>,
    o: Op,
    w3: Seq<char>,
    wv: Seq<char>,
    v: Seq<char>,
)
    requires
        sp == seq![' '],
        is_blank(w2),
        is_blank(w3),
        o != Op::NotEquals,
        written_ok(wv, v, o),
    ensures
        (sp + field_word(f) + w2 + op_word(o) + w3 + wv).len() > 0,
        !is_ws((sp + field_word(f) + w2 + op_word(o) + w3 + wv).last()),
        parse_args_spec(sp + field_word(f) + w2 + op_word(o) + w3 + wv) == Ok::<
            Seq<ClauseView>,
            ExpressionError,
        >(seq![(f, o, v)]),
{
    let tail = sp + field_word(f) + w2 + op_word(o) + w3 + wv;
    assert(tail.last() == wv.last());
    let e = Seq::<char>::empty();
    assert(is_blank(sp));
    assert(tail + e =~= tail);
    lemma_clause_round_trip_written(sp, f, w2, o, w3, wv, v, e);
}

proof fn lemma_written_ok(v: Seq<char>, o: Op, in_quotes: bool)
    requires
        plain_value(v, o),
    ensures
        written_ok(written(v, in_quotes), v, o),
{
    if in_quotes {
        lemma_quoted_written(v, o);
    } else {
        lemma_plain_written(v, o);
    }
}

/// A query made of `select * where` and a filter ending in other than white
/// space is its own trim, is not `select *`, and has that filter.
proof fn lemma_query_shape(tail: Seq<char>)
    requires
        tail.len() > 0,
        !is_ws(tail.last()),
    ensures
        trim(select_where_text() + tail) == select_where_text() + tail,
        select_where_text() + tail != select_all_text(),
        filter_text(select_where_text() + tail) == tail,
{
    let p = select_where_text();
    let query = p + tail;
    let e = Seq::<char>::empty();
    assert(e + query + e =~= query);
    assert(query[0] == 's');
    assert(query.last() == tail.last());
    lemma_trim_around(e, query, e);
    assert(query.len() > select_all_text().len());
    assert(query.subrange(0, p.len() as int) =~= p);
    assert(query.subrange(p.len() as int, query.len() as int) =~= tail);
}

/// A query whose filter parses to one clause, with a date that reads where
/// the clause is on the date, gives the tasks that meet the clause.
proof fn lemma_select_parsed(ts: Seq<TaskView>, query: Seq<char>, cs: Seq<ClauseView>)
    requires
        trim(query) == query,
        query.len() > 0,
        query != select_all_text(),
        cs.len() == 1,
        parse_args_spec(filter_text(query)) == Ok::<Seq<ClauseView>, ExpressionError>(cs),
        cs[0].0 == LeftVar::Date ==> parsed_date_of(cs[0].2) is Some,
    ensures
        select_spec(ts, query) == Ok::<Seq<TaskView>, TaskMgrError>(keep_matching(ts, cs[0])),
{
    assert(crate::filter::clause_date_ok(cs[0]));
    assert(dates_ok(cs));
    assert(cs.drop_last() =~= Seq::<ClauseView>::empty());
    assert(crate::filter::filter_all(ts, cs.drop_last()) == ts);
    assert(cs.last() == cs[0]);
    assert(crate::filter::filter_all(ts, cs) == keep_matching(ts, cs[0]));
}

/// `select * where name="v"` on a store that holds one task, named `v`,
/// gives exactly that task; on any store it gives exactly the tasks named
/// `v`, in store order.
pub proof fn lemma_select_quoted_name(ts: Seq<TaskView>, v: Seq<char>)
    requires
        plain_value(v, Op::Equals),
    ensures
        select_spec(ts, "select * where name=\""@ + v + "\""@) == Ok::<
            Seq<TaskView>,
            TaskMgrError,
        >(keep_matching(ts, (LeftVar::Name, Op::Equals, v))),
        forall|t: TaskView|
            keep_matching(ts, (LeftVar::Name, Op::Equals, v)).contains(t) <==> (ts.contains(t)
                && t.name == v),
        ts.len() == 1 && ts[0].name == v ==> select_spec(
            ts,
            "select * where name=\""@ + v + "\""@,
        ) == Ok::<Seq<TaskView>, TaskMgrError>(ts),
{
    let e = Seq::<char>::empty();
    reveal_strlit("select * where name=\"");
    reveal_strlit("\"");
    assert("select * where name=\""@ + v + "\""@ =~= select_where_text() + seq![' '] + field_word(
        LeftVar::Name,
    ) + e + op_word(Op::Equals) + e + written(v, true));
    lemma_select_one_clause(ts, LeftVar::Name, e, Op::Equals, e, v, true);
    lemma_keep_matching_members(ts, (LeftVar::Name, Op::Equals, v));
    assert forall|t: TaskView|
        keep_matching(ts, (LeftVar::Name, Op::Equals, v)).contains(t) <==> (ts.contains(t)
            && t.name == v) by {
        assert(task_matches(t, (LeftVar::Name, Op::Equals, v)) == (t.name == v));
    }
    if ts.len() == 1 && ts[0].name == v {
        let c = (LeftVar::Name, Op::Equals, v);
        assert(ts.drop_last() =~= Seq::<TaskView>::empty());
        assert(keep_matching(ts.drop_last(), c) == Seq::<TaskView>::empty());
        assert(task_matches(ts.last(), c));
        assert(keep_matching(ts, c) == keep_matching(ts.drop_last(), c).push(ts.last()));
        assert(keep_matching(ts, c) =~= ts);
    }
}

/// `select * where name like "v"` gives exactly the tasks whose name holds
/// `v`, in store order.
pub proof fn lemma_select_name_like(ts: Seq<TaskView>, v: Seq<char>)
    requires
        plain_value(v, Op::Like),
    ensures
        select_spec(ts, "select * where name like \""@ + v + "\""@) == Ok::<
            Seq<TaskView>,
            TaskMgrError,
        >(keep_matching(ts, (LeftVar::Name, Op::Like, v))),
        forall|t: TaskView|
            keep_matching(ts, (LeftVar::Name, Op::Like, v)).contains(t) <==> (ts.contains(t)
                && contains(t.name, v)),
{
    let sp = seq![' '];
    reveal_strlit("select * where name like \"");
    reveal_strlit("\"");
    assert("select * where name like \""@ + v + "\""@ =~= select_where_text() + seq![' ']
        + field_word(LeftVar::Name) + sp + op_word(Op::Like) + sp + written(v, true));
    lemma_select_one_clause(ts, LeftVar::Name, sp, Op::Like, sp, v, true);
    lemma_keep_matching_members(ts, (LeftVar::Name, Op::Like, v));
    assert forall|t: TaskView|
        keep_matching(ts, (LeftVar::Name, Op::Like, v)).contains(t) <==> (ts.contains(t)
            && contains(t.name, v)) by {
        assert(task_matches(t, (LeftVar::Name, Op::Like, v)) == contains(t.name, v));
    }
}

// ---- white space around a whole filter ----

/// Searching after a prefix is searching the rest, shifted.
proof fn lemma_find_shift(x: Seq<char>, s: Seq<char>, p: Seq<char>, i: int)
    requires
        0 <= i,
        p.len() > 0,
    ensures
        find_from(x + s, p, i + x.len()) == if find_from(s, p, i) == -1 {
            -1
        } else {
            find_from(s, p, i) + x.len()
        },
    decreases s.len() - i,
{
    let t = x + s;
    let j = i + x.len();
    if i + p.len() <= s.len() {
        assert(t.subrange(j, j + p.len()) =~= s.subrange(i, i + p.len()));
        lemma_find_shift(x, s, p, i + 1);
    }
}

/// Splitting after a prefix is splitting the rest.
proof fn lemma_split_shift(x: Seq<char>, s: Seq<char>, p: Seq<char>, i: int)
    requires
        0 <= i <= s.len(),
        p.len() > 0,
    ensures
        split_from(x + s, p, i + x.len()) == split_from(s, p, i),
    decreases s.len() - i,
{
    let t = x + s;
    let j = i + x.len();
    lemma_find_shift(x, s, p, i);
    let k = find_from(s, p, i);
    crate::text::lemma_find_from_first(s, p, i);
    if k < i || k + p.len() > s.len() {
        assert(t.subrange(j, t.len() as int) =~= s.subrange(i, s.len() as int));
    } else {
        assert(t.subrange(j, k + x.len()) =~= s.subrange(i, k));
        lemma_split_shift(x, s, p, k + p.len());
        assert(k + x.len() + p.len() == (k + p.len()) + x.len());
    }
}

/// White space before a text joins its first piece.
proof fn lemma_split_blank_prefix(w: Seq<char>, s: Seq<char>, p: Seq<char>)
    requires
        is_blank(w),
        p.len() > 0,
        !is_ws(p[0]),
    ensures
        split(w + s, p) == split(s, p).update(0, w + split(s, p)[0]),
        split(s, p).len() > 0,
{
    let t = w + s;
    assert forall|j: int| 0 <= j < w.len() implies !occurs_at(t, p, j) by {
        if occurs_at(t, p, j) {
            assert(t.subrange(j, j + p.len())[0] == p[0]);
            assert(t[j] == w[j]);
        }
    }
    lemma_find_shift(w, s, p, 0);
    crate::text::lemma_find_from_first(t, p, 0);
    crate::text::lemma_find_from_first(s, p, 0);
    let k = find_from(s, p, 0);
    if k >= 0 {
        assert(find_from(t, p, 0) == k + w.len()) by {
            assert(t.subrange(k + w.len(), k + w.len() + p.len()) =~= s.subrange(k, k + p.len()));
            assert forall|j: int| 0 <= j < k + w.len() implies !occurs_at(t, p, j) by {
                if w.len() <= j && occurs_at(t, p, j) {
                    assert(s.subrange(j - w.len(), j - w.len() + p.len()) =~= t.subrange(
                        j,
                        j + p.len(),
                    ));
                    assert(occurs_at(s, p, j - w.len()));
                }
            }
            lemma_find_exact(t, p, 0, k + w.len());
        }
        assert(t.subrange(0, k + w.len()) =~= w + s.subrange(0, k));
        lemma_split_shift(w, s, p, k + p.len());
        assert(k + w.len() + p.len() == (k + p.len()) + w.len());
    } else {
        assert(forall|j: int| w.len() <= j ==> !occurs_at(t, p, j)) by {
            assert forall|j: int| w.len() <= j implies !occurs_at(t, p, j) by {
                if occurs_at(t, p, j) {
                    assert(s.subrange(j - w.len(), j - w.len() + p.len()) =~= t.subrange(
                        j,
                        j + p.len(),
                    ));
                    assert(occurs_at(s, p, j - w.len()));
                }
            }
        }
        lemma_find_none(t, p, 0);
        assert(t.subrange(0, t.len() as int) =~= w + s.subrange(0, s.len() as int));
    }
    assert(split(w + s, p) =~= split(s, p).update(0, w + split(s, p)[0]));
}

/// White space after a text adds no occurrence of a pattern without white
/// space.
proof fn lemma_find_suffix(s: Seq<char>, w: Seq<char>, p: Seq<char>, i: int)
    requires
        0 <= i,
        is_blank(w),
        p.len() > 0,
        forall|k: int| 0 <= k < p.len() ==> !is_ws(#[trigger] p[k]),
    ensures
        find_from(s + w, p, i) == find_from(s, p, i),
    decreases (s + w).len() - i,
{
    let t = s + w;
    if i + p.len() <= t.len() {
        if i + p.len() <= s.len() {
            assert(t.subrange(i, i + p.len()) =~= s.subrange(i, i + p.len()));
        } else if occurs_at(t, p, i) {
            let k = if i <= s.len() { s.len() - i } else { 0 };
            assert(t.subrange(i, i + p.len())[k] == p[k]);
            assert(t[i + k] == w[i + k - s.len()]);
        }
        lemma_find_suffix(s, w, p, i + 1);
    }
}

/// White space after a text joins its last piece.
proof fn lemma_split_suffix(s: Seq<char>, w: Seq<char>, p: Seq<char>, i: int)
    requires
        0 <= i <= s.len(),
        is_blank(w),
        p.len() > 0,
        forall|k: int| 0 <= k < p.len() ==> !is_ws(#[trigger] p[k]),
    ensures
        split_from(s, p, i).len() > 0,
        split_from(s + w, p, i) == split_from(s, p, i).update(
            split_from(s, p, i).len() - 1,
            split_from(s, p, i).last() + w,
        ),
    decreases s.len() - i,
{
    let t = s + w;
    lemma_find_suffix(s, w, p, i);
    let k = find_from(s, p, i);
    crate::text::lemma_find_from_first(s, p, i);
    if k < i || k + p.len() > s.len() {
        assert(t.subrange(i, t.len() as int) =~= s.subrange(i, s.len() as int) + w);
        assert(split_from(t, p, i) =~= split_from(s, p, i).update(0, s.subrange(i, s.len() as int) + w));
    } else {
        lemma_split_suffix(s, w, p, k + p.len());
        assert(t.subrange(i, k) =~= s.subrange(i, k));
        let rest = split_from(s, p, k + p.len());
        assert(split_from(s, p, i) == seq![s.subrange(i, k)] + rest);
        assert(split_from(t, p, i) =~= (seq![s.subrange(i, k)] + rest).update(
            rest.len() as int,
            rest.last() + w,
        ));
    }
}

proof fn lemma_trim_append_blank(s: Seq<char>, w: Seq<char>)
    requires
        is_blank(w),
    ensures
        trim(s + w) == trim(s),
    decreases s.len(),
{
    if s.len() == 0 {
        assert(s + w =~= w);
        lemma_trim_left_blank(w, Seq::<char>::empty());
        assert(w + Seq::<char>::empty() =~= w);
    } else if is_ws(s[0]) {
        assert((s + w).drop_first() =~= s.drop_first() + w);
        lemma_trim_append_blank(s.drop_first(), w);
    } else {
        assert((s + w)[0] == s[0]);
        lemma_trim_right_blank(s, w);
    }
}

proof fn lemma_parse_clauses_same_trims(ps: Seq<Seq<char>>, qs: Seq<Seq<char>>)
    requires
        ps.len() == qs.len(),
        forall|k: int| 0 <= k < ps.len() ==> trim(#[trigger] ps[k]) == trim(qs[k]),
    ensures
        parse_clauses(ps) == parse_clauses(qs),
    decreases ps.len(),
{
    if ps.len() > 0 {
        lemma_parse_clauses_same_trims(ps.drop_last(), qs.drop_last());
        assert(trim(ps[ps.len() - 1]) == trim(qs[qs.len() - 1]));
    }
}

/// White space before and after a filter never changes what it parses to.
pub proof fn lemma_filter_blank_around(w1: Seq<char>, s: Seq<char>, w2: Seq<char>)
    requires
        is_blank(w1),
        is_blank(w2),
    ensures
        parse_args_spec(w1 + s + w2) == parse_args_spec(s),
{
    let a = and_word();
    lemma_and_word_chars();
    assert forall|k: int| 0 <= k < a.len() implies !is_ws(#[trigger] a[k]) by {
        lemma_letter(a[k]);
    }
    let ps = split(s, a);
    lemma_split_suffix(s, w2, a, 0);
    let ps1 = split(s + w2, a);
    lemma_split_blank_prefix(w1, s + w2, a);
    let ps2 = split(w1 + (s + w2), a);
    assert(w1 + s + w2 =~= w1 + (s + w2));
    assert forall|k: int| 0 <= k < ps.len() implies trim(#[trigger] ps2[k]) == trim(ps[k]) by {
        if k == ps.len() - 1 {
            lemma_trim_append_blank(ps[k], w2);
        }
        if k == 0 {
            lemma_trim_left_blank(w1, ps1[0]);
        }
    }
    lemma_parse_clauses_same_trims(ps2, ps);
}

} // verus!
