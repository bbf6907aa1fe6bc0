//! Rendering of queries in the MySQL dialect.
use vstd::prelude::*;
use crate::filter::{CmpOp, Expr, Scalar, expressible};

verus! {

pub open spec fn digit_char(d: nat) -> char {
    ((d % 10) + 48) as char
}

/// The decimal digits of a natural number.
pub open spec fn nat_text(n: nat) -> Seq<char>
    decreases n,
{
    if n < 10 {
        seq![digit_char(n)]
    } else {
        nat_text(n / 10).push(digit_char(n % 10))
    }
}

/// The decimal text of an integer, with a leading minus sign when negative.
pub open spec fn int_text(v: int) -> Seq<char> {
    if v < 0 {
        seq!['-'] + nat_text((-v) as nat)
    } else {
        nat_text(v as nat)
    }
}

/// An identifier with each backtick doubled.
pub open spec fn escape_ident(s: Seq<char>) -> Seq<char>
    decreases s.len(),
{
    if s.len() == 0 {
        s
    } else {
        escape_ident(s.drop_last()) + if s.last() == '`' { seq!['`', '`'] } else { seq![s.last()] }
    }
}

/// An identifier quoted with backticks.
pub open spec fn quote_ident(s: Seq<char>) -> Seq<char> {
    seq!['`'] + escape_ident(s) + seq!['`']
}

/// Text with each quote doubled and each backslash escaped.
pub open spec fn escape_text(s: Seq<char>) -> Seq<char>
    decreases s.len(),
{
    if s.len() == 0 {
        s
    } else {
        escape_text(s.drop_last()) + if s.last() == '\'' {
            seq!['\'', '\'']
        } else if s.last() == '\\' {
            seq!['\\', '\\']
        } else {
            seq![s.last()]
        }
    }
}

/// A string literal.
pub open spec fn quote_text(s: Seq<char>) -> Seq<char> {
    seq!['\''] + escape_text(s) + seq!['\'']
}

pub open spec fn op_text(op: CmpOp) -> Seq<char> {
    match op {
        CmpOp::Eq => seq![' ', '=', ' '],
        CmpOp::NotEq => seq![' ', '<', '>', ' '],
        CmpOp::Lt => seq![' ', '<', ' '],
        CmpOp::LtEq => seq![' ', '<', '=', ' '],
        CmpOp::Gt => seq![' ', '>', ' '],
        CmpOp::GtEq => seq![' ', '>', '=', ' '],
    }
}

pub open spec fn scalar_text(v: Scalar) -> Seq<char> {
    match v {
        Scalar::Null => seq!['N', 'U', 'L', 'L'],
        Scalar::Int(i) => int_text(i as int),
        Scalar::Text(s) => quote_text(s@),
    }
}

pub open spec fn paren(s: Seq<char>) -> Seq<char> {
    seq!['('] + s + seq![')']
}

/// A predicate in the dialect; `columns` holds the column names.
pub open spec fn expr_text(e: Expr, columns: Seq<Seq<char>>) -> Seq<char>
    decreases e,
{
    match e {
        Expr::Column(i) => quote_ident(columns[i as int]),
        Expr::Literal(v) => scalar_text(v),
        Expr::Compare(op, a, b) => paren(expr_text(*a, columns) + op_text(op) + expr_text(*b, columns)),
        Expr::And(a, b) => paren(expr_text(*a, columns) + seq![' ', 'A', 'N', 'D', ' '] + expr_text(*b, columns)),
        Expr::Or(a, b) => paren(expr_text(*a, columns) + seq![' ', 'O', 'R', ' '] + expr_text(*b, columns)),
        Expr::Not(a) => paren(seq!['N', 'O', 'T', ' '] + expr_text(*a, columns)),
        Expr::IsNull(a) => paren(expr_text(*a, columns) + seq![' ', 'I', 'S', ' ', 'N', 'U', 'L', 'L']),
        Expr::EngineFunction(_, _) => Seq::empty(),
    }
}

/// Appends the characters of `s`.
pub fn push_chars(out: &mut Vec<char>, s: &str)
    ensures
        final(out)@ == old(out)@ + s@,
{
    let n = s.unicode_len();
    let mut k: usize = 0;
    while k < n
        invariant
            n == s@.len(),
            k <= n,
            out@ == old(out)@ + s@.take(k as int),
        decreases n - k,
    {
        let c = s.get_char(k);
        out.push(c);
        proof {
            assert(s@.take(k as int + 1) =~= s@.take(k as int).push(c));
        }
        k = k + 1;
    }
    proof {
        assert(s@.take(n as int) =~= s@);
    }
}

fn push_nat(out: &mut Vec<char>, n: u64)
    ensures
        final(out)@ == old(out)@ + nat_text(n as nat),
    decreases n,
{
    if n >= 10 {
        push_nat(out, n / 10);
    }
    let d = ((n % 10) as u8 + 48) as char;
    out.push(d);
    proof {
        assert(d == digit_char(n as nat));
        if n >= 10 {
            assert(digit_char(n as nat) == digit_char((n % 10) as nat));
        }
    }
    assert(final(out)@ =~= old(out)@ + nat_text(n as nat));
}

pub fn push_int(out: &mut Vec<char>, v: i64)
    ensures
        final(out)@ == old(out)@ + int_text(v as int),
{
    if v < 0 {
        out.push('-');
        let m: u64 = (0 - (v as i128)) as u64;
        push_nat(out, m);
        assert(final(out)@ =~= old(out)@ + int_text(v as int));
    } else {
        push_nat(out, v as u64);
    }
}

/// Appends a quoted identifier.
pub fn push_ident(out: &mut Vec<char>, s: &str)
    ensures
        final(out)@ == old(out)@ + quote_ident(s@),
{
    out.push('`');
    let n = s.unicode_len();
    let mut k: usize = 0;
    while k < n
        invariant
            n == s@.len(),
            k <= n,
            out@ == old(out)@ + seq!['`'] + escape_ident(s@.take(k as int)),
        decreases n - k,
    {
        let c = s.get_char(k);
        if c == '`' {
            out.push('`');
            out.push('`');
        } else {
            out.push(c);
        }
        proof {
            assert(s@.take(k as int + 1).drop_last() =~= s@.take(k as int));
        }
        k = k + 1;
    }
    out.push('`');
    proof {
        assert(s@.take(n as int) =~= s@);
    }
    assert(final(out)@ =~= old(out)@ + quote_ident(s@));
}

/// Appends a string literal.
pub fn push_text(out: &mut Vec<char>, s: &str)
    ensures
        final(out)@ == old(out)@ + quote_text(s@),
{
    out.push('\'');
    let n = s.unicode_len();
    let mut k: usize = 0;
    while k < n
        invariant
            n == s@.len(),
            k <= n,
            out@ == old(out)@ + seq!['\''] + escape_text(s@.take(k as int)),
        decreases n - k,
    {
        let c = s.get_char(k);
        if c == '\'' {
            out.push('\'');
            out.push('\'');
        } else if c == '\\' {
            out.push('\\');
            out.push('\\');
        } else {
            out.push(c);
        }
        proof {
            assert(s@.take(k as int + 1).drop_last() =~= s@.take(k as int));
        }
        k = k + 1;
    }
    out.push('\'');
    proof {
        assert(s@.take(n as int) =~= s@);
    }
    assert(final(out)@ =~= old(out)@ + quote_text(s@));
}


/// The names of the columns, as characters.
pub open spec fn names_of(columns: Seq<String>) -> Seq<Seq<char>> {
    columns.map_values(|s: String| s@)
}

/// Appends a predicate that the dialect can evaluate.
pub fn push_expr(out: &mut Vec<char>, e: &Expr, columns: &Vec<String>)
    requires
        expressible(*e, columns@.len()),
    ensures
        final(out)@ == old(out)@ + expr_text(*e, names_of(columns@)),
    decreases e,
{
    let ghost names = names_of(columns@);
    match e {
        Expr::Column(i) => {
            push_ident(out, columns[*i].as_str());
        },
        Expr::Literal(v) => match v {
            Scalar::Null => {
                push_chars(out, "NULL");
                proof {
                    reveal_strlit("NULL");
                }
            },
            Scalar::Int(i) => push_int(out, *i),
            Scalar::Text(t) => push_text(out, t.as_str()),
        },
        Expr::Compare(op, a, b) => {
            out.push('(');
            push_expr(out, a, columns);
            let o = match op {
                CmpOp::Eq => " = ",
                CmpOp::NotEq => " <> ",
                CmpOp::Lt => " < ",
                CmpOp::LtEq => " <= ",
                CmpOp::Gt => " > ",
                CmpOp::GtEq => " >= ",
            };
            proof {
                reveal_strlit(" = ");
                reveal_strlit(" <> ");
                reveal_strlit(" < ");
                reveal_strlit(" <= ");
                reveal_strlit(" > ");
                reveal_strlit(" >= ");
            }
            assert(o@ == op_text(*op));
            push_chars(out, o);
            push_expr(out, b, columns);
            out.push(')');
        },
        Expr::And(a, b) => {
            out.push('(');
            push_expr(out, a, columns);
            push_chars(out, " AND ");
            proof {
                reveal_strlit(" AND ");
            }
            push_expr(out, b, columns);
            out.push(')');
        },
        Expr::Or(a, b) => {
            out.push('(');
            push_expr(out, a, columns);
            push_chars(out, " OR ");
            proof {
                reveal_strlit(" OR ");
            }
            push_expr(out, b, columns);
            out.push(')');
        },
        Expr::Not(a) => {
            push_chars(out, "(NOT ");
            proof {
                reveal_strlit("(NOT ");
            }
            push_expr(out, a, columns);
            out.push(')');
        },
        Expr::IsNull(a) => {
            out.push('(');
            push_expr(out, a, columns);
            push_chars(out, " IS NULL)");
            proof {
                reveal_strlit(" IS NULL)");
            }
        },
        Expr::EngineFunction(_, _) => {},
    }
    assert(final(out)@ =~= old(out)@ + expr_text(*e, names));
}


/// A table of the backend: its database, when given, and its name.
#[derive(Clone, Debug)]
pub struct TableName {
    pub schema: Option<String>,
    pub table: String,
}

/// The table as the dialect names it.
pub open spec fn table_text(name: TableName) -> Seq<char> {
    match name.schema {
        Some(s) => quote_ident(s@) + seq!['.'] + quote_ident(name.table@),
        None => quote_ident(name.table@),
    }
}

/// The projected columns, separated by commas.
pub open spec fn column_list(p: Seq<usize>, names: Seq<Seq<char>>) -> Seq<char>
    decreases p.len(),
{
    if p.len() == 0 {
        Seq::empty()
    } else if p.len() == 1 {
        quote_ident(names[p[0] as int])
    } else {
        column_list(p.drop_last(), names) + seq![',', ' '] + quote_ident(names[p.last() as int])
    }
}

/// The filters joined by AND.
pub open spec fn conjunction(fs: Seq<Expr>, names: Seq<Seq<char>>) -> Seq<char>
    decreases fs.len(),
{
    if fs.len() == 0 {
        Seq::empty()
    } else if fs.len() == 1 {
        expr_text(fs[0], names)
    } else {
        conjunction(fs.drop_last(), names) + seq![' ', 'A', 'N', 'D', ' '] + expr_text(fs.last(), names)
    }
}

/// `SELECT <columns> FROM <table>[ WHERE <filters>][ LIMIT <n>]`; every column
/// when there is no projection, the constant 1 when the projection is empty.
pub open spec fn select_text(
    name: TableName,
    names: Seq<Seq<char>>,
    projection: Option<Seq<usize>>,
    filters: Seq<Expr>,
    limit: Option<u64>,
) -> Seq<char> {
    seq!['S', 'E', 'L', 'E', 'C', 'T', ' '] + match projection {
        None => seq!['*'],
        Some(p) => if p.len() == 0 { seq!['1'] } else { column_list(p, names) },
    } + seq![' ', 'F', 'R', 'O', 'M', ' '] + table_text(name) + if filters.len() == 0 {
        Seq::empty()
    } else {
        seq![' ', 'W', 'H', 'E', 'R', 'E', ' '] + conjunction(filters, names)
    } + match limit {
        None => Seq::empty(),
        Some(n) => seq![' ', 'L', 'I', 'M', 'I', 'T', ' '] + nat_text(n as nat),
    }
}

pub open spec fn valid_projection(p: Seq<usize>, n_columns: nat) -> bool {
    forall|i: int| 0 <= i < p.len() ==> #[trigger] p[i] < n_columns
}

pub open spec fn all_expressible(fs: Seq<Expr>, n_columns: nat) -> bool {
    forall|i: int| 0 <= i < fs.len() ==> expressible(#[trigger] fs[i], n_columns)
}

/// Relies on `String`'s `FromIterator<char>`: the string of the characters,
/// in order.
#[verifier::external_body]
fn string_of(chars: &Vec<char>) -> (r: String)
    ensures
        r@ == chars@,
{
    chars.iter().collect()
}

fn push_table(out: &mut Vec<char>, name: &TableName)
    ensures
        final(out)@ == old(out)@ + table_text(*name),
{
    match &name.schema {
        Some(s) => {
            push_ident(out, s.as_str());
            out.push('.');
        },
        None => {},
    }
    push_ident(out, name.table.as_str());
    assert(final(out)@ =~= old(out)@ + table_text(*name));
}

/// Compiles a scan of the table into one query of the dialect.
pub fn select_sql(
    name: &TableName,
    columns: &Vec<String>,
    projection: &Option<Vec<usize>>,
    filters: &Vec<Expr>,
    limit: Option<u64>,
) -> (r: String)
    requires
        projection matches Some(p) ==> valid_projection(p@, columns@.len()),
        all_expressible(filters@, columns@.len()),
    ensures
        r@ == select_text(
            *name,
            names_of(columns@),
            match projection {
                Some(p) => Some(p@),
                None => None,
            },
            filters@,
            limit,
        ),
{
    let ghost names = names_of(columns@);
    let mut out: Vec<char> = Vec::new();
    push_chars(&mut out, "SELECT ");
    proof {
        reveal_strlit("SELECT ");
    }
    let ghost head = out@;
    match projection {
        None => out.push('*'),
        Some(p) => {
            if p.len() == 0 {
                out.push('1');
            } else {
                let mut k: usize = 0;
                while k < p.len()
                    invariant
                        k <= p@.len(),
                        valid_projection(p@, columns@.len()),
                        names == names_of(columns@),
                        out@ == head + column_list(p@.take(k as int), names),
                    decreases p@.len() - k,
                {
                    proof {
                        assert(p@.take(k as int + 1).drop_last() =~= p@.take(k as int));
                    }
                    if k > 0 {
                        out.push(',');
                        out.push(' ');
                    }
                    push_ident(&mut out, columns[p[k]].as_str());
                    assert(out@ =~= head + column_list(p@.take(k as int + 1), names));
                    k = k + 1;
                }
                assert(p@.take(k as int) =~= p@);
            }
        },
    }
    let ghost cols = out@;
    push_chars(&mut out, " FROM ");
    proof {
        reveal_strlit(" FROM ");
    }
    push_table(&mut out, name);
    let ghost before_where = out@;
    if filters.len() > 0 {
        push_chars(&mut out, " WHERE ");
        proof {
            reveal_strlit(" WHERE ");
        }
        let ghost w = out@;
        let mut k: usize = 0;
        while k < filters.len()
            invariant
                k <= filters@.len(),
                all_expressible(filters@, columns@.len()),
                names == names_of(columns@),
                out@ == w + conjunction(filters@.take(k as int), names),
            decreases filters@.len() - k,
        {
            proof {
                assert(filters@.take(k as int + 1).drop_last() =~= filters@.take(k as int));
            }
            if k > 0 {
                push_chars(&mut out, " AND ");
                proof {
                    reveal_strlit(" AND ");
                }
            }
            push_expr(&mut out, &filters[k], columns);
            assert(out@ =~= w + conjunction(filters@.take(k as int + 1), names));
            k = k + 1;
        }
        assert(filters@.take(k as int) =~= filters@);
    }
    let ghost before_limit = out@;
    match limit {
        None => {},
        Some(n) => {
            push_chars(&mut out, " LIMIT ");
            proof {
                reveal_strlit(" LIMIT ");
            }
            push_nat(&mut out, n);
        },
    }
    assert(out@ =~= select_text(
        *name,
        names,
        match projection {
            Some(p) => Some(p@),
            None => None,
        },
        filters@,
        limit,
    ));
    string_of(&out)
}

} // verus!
