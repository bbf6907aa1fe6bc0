//! Filter predicates offered by the engine, and the split between those the
//! MySQL dialect can evaluate (pushed down) and those the engine keeps.
use vstd::prelude::*;
use crate::values::Cell;

verus! {

#[derive(Clone, Copy, Debug, PartialEq, Eq, Structural)]
pub enum CmpOp {
    Eq,
    NotEq,
    Lt,
    LtEq,
    Gt,
    GtEq,
}

/// A literal in a predicate.
#[derive(Clone, Debug)]
pub enum Scalar {
    Null,
    Int(i64),
    Text(String),
}

/// A predicate over the columns of a table, by column index.
#[derive(Debug)]
pub enum Expr {
    Column(usize),
    Literal(Scalar),
    Compare(CmpOp, Box<Expr>, Box<Expr>),
    And(Box<Expr>, Box<Expr>),
    Or(Box<Expr>, Box<Expr>),
    Not(Box<Expr>),
    IsNull(Box<Expr>),
    /// A function of the engine, by name, that the dialect has no
    /// counterpart for.
    EngineFunction(String, Box<Expr>),
}

/// Whether the dialect can evaluate the predicate: it calls no engine
/// function and names only columns of the table.
pub open spec fn expressible(e: Expr, n_columns: nat) -> bool
    decreases e,
{
    match e {
        Expr::Column(i) => i < n_columns,
        Expr::Literal(_) => true,
        Expr::Compare(_, a, b) => expressible(*a, n_columns) && expressible(*b, n_columns),
        Expr::And(a, b) => expressible(*a, n_columns) && expressible(*b, n_columns),
        Expr::Or(a, b) => expressible(*a, n_columns) && expressible(*b, n_columns),
        Expr::Not(a) => expressible(*a, n_columns),
        Expr::IsNull(a) => expressible(*a, n_columns),
        Expr::EngineFunction(_, _) => false,
    }
}

/// Decides whether the dialect can evaluate the predicate.
pub fn is_expressible(e: &Expr, n_columns: usize) -> (r: bool)
    ensures
        r == expressible(*e, n_columns as nat),
    decreases e,
{
    match e {
        Expr::Column(i) => *i < n_columns,
        Expr::Literal(_) => true,
        Expr::Compare(_, a, b) => is_expressible(a, n_columns) && is_expressible(b, n_columns),
        Expr::And(a, b) => is_expressible(a, n_columns) && is_expressible(b, n_columns),
        Expr::Or(a, b) => is_expressible(a, n_columns) && is_expressible(b, n_columns),
        Expr::Not(a) => is_expressible(a, n_columns),
        Expr::IsNull(a) => is_expressible(a, n_columns),
        Expr::EngineFunction(_, _) => false,
    }
}

pub open spec fn pushable(n_columns: nat) -> spec_fn(Expr) -> bool {
    |e: Expr| expressible(e, n_columns)
}

pub open spec fn kept_local(n_columns: nat) -> spec_fn(Expr) -> bool {
    |e: Expr| !expressible(e, n_columns)
}

/// How a relation answers for one offered filter.
#[derive(Clone, Copy, Debug, PartialEq, Eq, Structural)]
pub enum PushdownSupport {
    /// The backend evaluates the filter; the engine need not apply it again.
    Exact,
    /// The engine applies the filter to the rows it receives.
    Unsupported,
}

/// The filters a relation receives, split into those compiled into the
/// backend query and those the engine applies afterwards, each in the order
/// offered. None is dropped.
pub fn split_filters(filters: Vec<Expr>, n_columns: usize) -> (r: (Vec<Expr>, Vec<Expr>))
    ensures
        r.0@ == filters@.filter(pushable(n_columns as nat)),
        r.1@ == filters@.filter(kept_local(n_columns as nat)),
{
    let ghost all = filters@;
    let mut rest = filters;
    let mut pushed: Vec<Expr> = Vec::new();
    let mut local: Vec<Expr> = Vec::new();
    let ghost mut k: int = 0;
    while rest.len() > 0
        invariant
            0 <= k <= all.len(),
            rest@ == all.skip(k),
            pushed@ == all.take(k).filter(pushable(n_columns as nat)),
            local@ == all.take(k).filter(kept_local(n_columns as nat)),
        decreases rest@.len(),
    {
        let e = rest.remove(0);
        proof {
            reveal(Seq::filter);
            assert(all.take(k + 1).drop_last() =~= all.take(k));
            assert(all.take(k + 1).last() == e);
        }
        if is_expressible(&e, n_columns) {
            pushed.push(e);
        } else {
            local.push(e);
        }
        proof {
            k = k + 1;
            assert(rest@ =~= all.skip(k));
        }
    }
    proof {
        assert(all.take(k) =~= all);
    }
    (pushed, local)
}

/// For each offered filter, in order, whether the backend evaluates it.
pub fn filters_support(filters: &Vec<Expr>, n_columns: usize) -> (r: Vec<PushdownSupport>)
    ensures
        r@.len() == filters@.len(),
        forall|i: int|
            0 <= i < r@.len() ==> (#[trigger] r@[i] == PushdownSupport::Exact <==> expressible(
                filters@[i],
                n_columns as nat,
            )),
{
    let mut r: Vec<PushdownSupport> = Vec::new();
    let mut k: usize = 0;
    while k < filters.len()
        invariant
            k <= filters@.len(),
            r@.len() == k,
            forall|i: int|
                0 <= i < k ==> (#[trigger] r@[i] == PushdownSupport::Exact <==> expressible(
                    filters@[i],
                    n_columns as nat,
                )),
        decreases filters@.len() - k,
    {
        if is_expressible(&filters[k], n_columns) {
            r.push(PushdownSupport::Exact);
        } else {
            r.push(PushdownSupport::Unsupported);
        }
        k = k + 1;
    }
    r
}

/// Whether every filter of `fs` holds of a row, under a semantics of filters.
pub open spec fn all_hold(fs: Seq<Expr>, row: Seq<Cell>, holds: spec_fn(Expr, Seq<Cell>) -> bool) -> bool {
    forall|i: int| 0 <= i < fs.len() ==> holds(#[trigger] fs[i], row)
}

/// The rows of which every filter of `fs` holds, in their order.
pub open spec fn select_rows(
    rows: Seq<Seq<Cell>>,
    fs: Seq<Expr>,
    holds: spec_fn(Expr, Seq<Cell>) -> bool,
) -> Seq<Seq<Cell>> {
    rows.filter(|row: Seq<Cell>| all_hold(fs, row, holds))
}

proof fn lemma_filter_twice(rows: Seq<Seq<Cell>>, p: spec_fn(Seq<Cell>) -> bool, q: spec_fn(Seq<Cell>) -> bool)
    ensures
        rows.filter(p).filter(q) == rows.filter(|row: Seq<Cell>| p(row) && q(row)),
    decreases rows.len(),
{
    reveal(Seq::filter);
    if rows.len() > 0 {
        lemma_filter_twice(rows.drop_last(), p, q);
        if p(rows.last()) {
            assert(rows.filter(p).drop_last() =~= rows.drop_last().filter(p));
        }
    }
}

proof fn lemma_filter_same(rows: Seq<Seq<Cell>>, p: spec_fn(Seq<Cell>) -> bool, q: spec_fn(Seq<Cell>) -> bool)
    requires
        forall|row: Seq<Cell>| #[trigger] p(row) == q(row),
    ensures
        rows.filter(p) == rows.filter(q),
{
    assert(p == q);
}

/// Under any semantics of filters (the backend's and the engine's agreeing),
/// evaluating the pushed filters in the backend and the rest in the engine
/// selects the same rows as a plain scan with every filter applied by the
/// engine.
pub proof fn lemma_federated_matches_plain(
    rows: Seq<Seq<Cell>>,
    filters: Seq<Expr>,
    n_columns: nat,
    holds: spec_fn(Expr, Seq<Cell>) -> bool,
)
    ensures
        select_rows(
            select_rows(rows, filters.filter(pushable(n_columns)), holds),
            filters.filter(kept_local(n_columns)),
            holds,
        ) == select_rows(rows, filters, holds),
{
    let pushed = filters.filter(pushable(n_columns));
    let local = filters.filter(kept_local(n_columns));
    let p = |row: Seq<Cell>| all_hold(pushed, row, holds);
    let q = |row: Seq<Cell>| all_hold(local, row, holds);
    lemma_filter_twice(rows, p, q);
    assert forall|row: Seq<Cell>| (#[trigger] p(row) && q(row)) == all_hold(filters, row, holds) by {
        if all_hold(filters, row, holds) {
            assert forall|i: int| 0 <= i < pushed.len() implies holds(#[trigger] pushed[i], row) by {
                assert(pushed.contains(pushed[i]));
                filters.lemma_filter_contains_rev(pushable(n_columns), pushed[i]);
            }
            assert forall|i: int| 0 <= i < local.len() implies holds(#[trigger] local[i], row) by {
                assert(local.contains(local[i]));
                filters.lemma_filter_contains_rev(kept_local(n_columns), local[i]);
            }
        }
        if p(row) && q(row) {
            assert forall|i: int| 0 <= i < filters.len() implies holds(#[trigger] filters[i], row) by {
                if expressible(filters[i], n_columns) {
                    filters.lemma_filter_contains(pushable(n_columns), i);
                } else {
                    filters.lemma_filter_contains(kept_local(n_columns), i);
                }
            }
        }
    }
    lemma_filter_same(
        rows,
        |row: Seq<Cell>| p(row) && q(row),
        |row: Seq<Cell>| all_hold(filters, row, holds),
    );
}

} // verus!
