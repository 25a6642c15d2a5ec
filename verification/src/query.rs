//! SQL query-string assembly: named-parameter rewriting, SELECT / UPDATE /
//! DELETE builders, batch INSERT placeholders, and a conservative syntax
//! screen. Pure string work; no database is touched.

use vstd::prelude::*;
use vstd::string::StringExecFns;
use vstd::string::StrSliceExecFns;

use crate::strutil::contains_seq;
use crate::strutil::contains_str;
use crate::strutil::join;
use crate::strutil::push_char;
use crate::strutil::push_dec;
use crate::strutil::spec_dec;
use crate::strutil::spec_join;
use crate::strutil::starts_with_seq;
use crate::strutil::starts_with_str;

verus! {

/// Errors of the query builders.
#[derive(Clone, Copy, PartialEq, Eq, Structural, Debug)]
pub enum QueryError {
    /// A ':' in the SQL text is not followed by a parameter name.
    EmptyParamName,
    /// A batch insert was given no value rows.
    NoValues,
    /// A batch insert was given no columns.
    NoColumns,
    /// A value row's length differs from the column count.
    RowLengthMismatch,
}

/// The text str::to_uppercase assigns to a character sequence.
pub uninterp spec fn upper_of(s: Seq<char>) -> Seq<char>;

/// Relies on str::to_uppercase: the result depends on the characters alone.
#[verifier::external_body]
fn to_upper(s: &str) -> (r: String)
    ensures
        r@ == upper_of(s@),
{
    s.to_uppercase()
}

/// The SELECT statement the builder assembles: columns (or '*'), table,
/// then optional WHERE, ORDER BY, LIMIT and OFFSET parts.
pub open spec fn spec_select_query(
    table: Seq<char>,
    columns: Seq<Seq<char>>,
    where_clauses: Seq<Seq<char>>,
    order_by: Option<Seq<char>>,
    limit: Option<u32>,
    offset: Option<u32>,
) -> Seq<char> {
    "SELECT "@ + (if columns.len() == 0 {
        "*"@
    } else {
        spec_join(columns, ", "@)
    }) + " FROM "@ + table + (if where_clauses.len() > 0 {
        " WHERE "@ + spec_join(where_clauses, " AND "@)
    } else {
        Seq::<char>::empty()
    }) + (match order_by {
        Some(o) => " ORDER BY "@ + o,
        None => Seq::<char>::empty(),
    }) + (match limit {
        Some(l) => " LIMIT "@ + spec_dec(l as int),
        None => Seq::<char>::empty(),
    }) + (match offset {
        Some(o) => " OFFSET "@ + spec_dec(o as int),
        None => Seq::<char>::empty(),
    })
}

/// Build a SELECT statement; empty `columns` means '*', empty
/// `where_clauses` means no WHERE part.
#[verifier::rlimit(30)]
pub fn build_select_query(
    table: &str,
    columns: Vec<String>,
    where_clauses: Vec<String>,
    order_by: Option<String>,
    limit: Option<u32>,
    offset: Option<u32>,
) -> (r: String)
    ensures
        r@ == spec_select_query(
            table@,
            columns.deep_view(),
            where_clauses.deep_view(),
            match order_by {
                Some(o) => Some(o@),
                None => None,
            },
            limit,
            offset,
        ),
{
    let mut query = String::new();
    query.append("SELECT ");
    if columns.len() == 0 {
        query.append("*");
    } else {
        let joined = join(&columns, ", ");
        query.append(joined.as_str());
    }
    query.append(" FROM ");
    query.append(table);
    if where_clauses.len() > 0 {
        query.append(" WHERE ");
        let joined = join(&where_clauses, " AND ");
        query.append(joined.as_str());
    }
    if let Some(order) = &order_by {
        query.append(" ORDER BY ");
        query.append(order.as_str());
    }
    if let Some(lim) = limit {
        query.append(" LIMIT ");
        push_dec(&mut query, lim as u64);
    }
    if let Some(off) = offset {
        query.append(" OFFSET ");
        push_dec(&mut query, off as u64);
    }
    query
}

/// The UPDATE statement the builder assembles.
pub open spec fn spec_update_query(
    table: Seq<char>,
    set_clauses: Seq<Seq<char>>,
    where_clauses: Seq<Seq<char>>,
) -> Seq<char> {
    "UPDATE "@ + table + " SET "@ + spec_join(set_clauses, ", "@) + (if where_clauses.len() > 0 {
        " WHERE "@ + spec_join(where_clauses, " AND "@)
    } else {
        Seq::<char>::empty()
    })
}

/// Build an UPDATE statement; empty `where_clauses` means no WHERE part.
pub fn build_update_query(table: &str, set_clauses: Vec<String>, where_clauses: Vec<String>) -> (r:
    String)
    ensures
        r@ == spec_update_query(table@, set_clauses.deep_view(), where_clauses.deep_view()),
{
    let mut query = String::new();
    query.append("UPDATE ");
    query.append(table);
    query.append(" SET ");
    let joined = join(&set_clauses, ", ");
    query.append(joined.as_str());
    if where_clauses.len() > 0 {
        query.append(" WHERE ");
        let joined_w = join(&where_clauses, " AND ");
        query.append(joined_w.as_str());
    }
    query
}

/// The DELETE statement the builder assembles.
pub open spec fn spec_delete_query(table: Seq<char>, where_clauses: Seq<Seq<char>>) -> Seq<char> {
    "DELETE FROM "@ + table + (if where_clauses.len() > 0 {
        " WHERE "@ + spec_join(where_clauses, " AND "@)
    } else {
        Seq::<char>::empty()
    })
}

/// Build a DELETE statement; empty `where_clauses` means no WHERE part.
pub fn build_delete_query(table: &str, where_clauses: Vec<String>) -> (r: String)
    ensures
        r@ == spec_delete_query(table@, where_clauses.deep_view()),
{
    let mut query = String::new();
    query.append("DELETE FROM ");
    query.append(table);
    if where_clauses.len() > 0 {
        query.append(" WHERE ");
        let joined = join(&where_clauses, " AND ");
        query.append(joined.as_str());
    }
    query
}

/// One '$n' placeholder.
pub open spec fn spec_placeholder_item(idx: int) -> Seq<char> {
    seq!['$'] + spec_dec(idx)
}

/// One parenthesised row of `ncols` placeholders counting up from `start`.
pub open spec fn spec_placeholder_row(start: int, ncols: int) -> Seq<char> {
    seq!['('] + spec_join(
        Seq::new(ncols as nat, |i: int| spec_placeholder_item(start + i)),
        ", "@,
    ) + seq![')']
}

/// The INSERT statement the batch builder assembles: row `r` (from 0) uses
/// placeholders `$(r * ncols + 1)` through `$(r * ncols + ncols)`.
pub open spec fn spec_batch_insert(table: Seq<char>, columns: Seq<Seq<char>>, nrows: int) -> Seq<
    char,
> {
    "INSERT INTO "@ + table + " ("@ + spec_join(columns, ", "@) + ") VALUES "@ + spec_join(
        Seq::new(
            nrows as nat,
            |r: int| spec_placeholder_row(r * columns.len() + 1, columns.len() as int),
        ),
        ", "@,
    )
}

/// Build a batch INSERT statement with one placeholder row per value row.
/// `row_sizes` gives each value row's length; every row must match the
/// column count, there must be at least one row and one column.
pub fn batch_insert(table: &str, columns: Vec<String>, row_sizes: Vec<usize>) -> (r: Result<
    String,
    QueryError,
>)
    requires
        row_sizes@.len() * columns@.len() + 1 <= u64::MAX,
    ensures
        match r {
            Ok(q) => {
                &&& row_sizes@.len() > 0
                &&& columns@.len() > 0
                &&& forall|i: int| 0 <= i < row_sizes@.len() ==> row_sizes@[i] == columns@.len()
                &&& q@ == spec_batch_insert(
                    table@,
                    columns.deep_view(),
                    row_sizes@.len() as int,
                )
            },
            Err(e) => match e {
                QueryError::NoValues => row_sizes@.len() == 0,
                QueryError::NoColumns => row_sizes@.len() > 0 && columns@.len() == 0,
                QueryError::RowLengthMismatch => row_sizes@.len() > 0 && columns@.len() > 0
                    && exists|i: int|
                    0 <= i < row_sizes@.len() && row_sizes@[i] != columns@.len(),
                _ => false,
            },
        },
{
    let nrows = row_sizes.len();
    let ncols = columns.len();
    if nrows == 0 {
        return Err(QueryError::NoValues);
    }
    if ncols == 0 {
        return Err(QueryError::NoColumns);
    }
    let mut ri: usize = 0;
    while ri < nrows
        invariant
            nrows == row_sizes@.len(),
            ncols == columns@.len(),
            nrows >= 1,
            ncols >= 1,
            ri <= nrows,
            forall|i: int| 0 <= i < ri ==> row_sizes@[i] == ncols,
        decreases nrows - ri,
    {
        if row_sizes[ri] != ncols {
            proof {
                assert((ri as int) < row_sizes@.len() && row_sizes@[ri as int]
                    != columns@.len());
            }
            return Err(QueryError::RowLengthMismatch);
        }
        ri += 1;
    }
    let mut query = String::new();
    query.append("INSERT INTO ");
    query.append(table);
    query.append(" (");
    let joined_cols = join(&columns, ", ");
    query.append(joined_cols.as_str());
    query.append(") VALUES ");
    let ghost rows_model = Seq::new(
        nrows as nat,
        |r: int| spec_placeholder_row(r * columns@.len() + 1, columns@.len() as int),
    );
    let mut rows: Vec<String> = Vec::new();
    let mut r_i: usize = 0;
    while r_i < nrows
        invariant
            nrows == row_sizes@.len(),
            ncols == columns@.len(),
            nrows * ncols + 1 <= u64::MAX,
            nrows >= 1,
            ncols >= 1,
            r_i <= nrows,
            rows_model == Seq::new(
                nrows as nat,
                |r: int| spec_placeholder_row(r * columns@.len() + 1, columns@.len() as int),
            ),
            rows.deep_view() == rows_model.take(r_i as int),
        decreases nrows - r_i,
    {
        let ghost start = r_i as int * ncols as int + 1;
        let ghost items_model = Seq::new(
            ncols as nat,
            |i: int| spec_placeholder_item(start + i),
        );
        proof {
            assert(r_i as int * ncols as int + ncols as int <= nrows as int * ncols as int)
                by (nonlinear_arith)
                requires
                    r_i < nrows,
                    ncols == ncols,
                    0 <= r_i as int,
                    0 <= ncols as int,
                    r_i as int + 1 <= nrows as int,
            ;
        }
        let mut items: Vec<String> = Vec::new();
        let mut ci: usize = 0;
        while ci < ncols
            invariant
                nrows * ncols + 1 <= u64::MAX,
                r_i < nrows,
                ncols >= 1,
                start == r_i as int * ncols as int + 1,
                r_i as int * ncols as int + ncols as int <= nrows as int * ncols as int,
                items_model == Seq::new(ncols as nat, |i: int| spec_placeholder_item(start + i)),
                ci <= ncols,
                items.deep_view() == items_model.take(ci as int),
            decreases ncols - ci,
        {
            let idx: u64 = (r_i as u64) * (ncols as u64) + (ci as u64) + 1;
            let mut item = String::new();
            push_char(&mut item, '$');
            push_dec(&mut item, idx);
            proof {
                assert(item@ == spec_placeholder_item(start + ci as int));
            }
            crate::strutil::push_string(&mut items, item);
            proof {
                assert(items.deep_view() =~= items_model.take(ci as int + 1));
            }
            ci += 1;
        }
        proof {
            assert(items_model.take(ncols as int) =~= items_model);
        }
        let mut row = String::new();
        push_char(&mut row, '(');
        let joined_items = join(&items, ", ");
        row.append(joined_items.as_str());
        push_char(&mut row, ')');
        proof {
            assert(row@ == spec_placeholder_row(start, ncols as int));
        }
        crate::strutil::push_string(&mut rows, row);
        proof {
            assert(rows.deep_view() =~= rows_model.take(r_i as int + 1));
        }
        r_i += 1;
    }
    proof {
        assert(rows_model.take(nrows as int) =~= rows_model);
    }
    let joined_rows = join(&rows, ", ");
    query.append(joined_rows.as_str());
    Ok(query)
}

/// Whether one dangerous pattern disqualifies the (uppercased) SQL text:
/// it occurs, and never as a word surrounded by spaces.
pub open spec fn spec_bad_pattern(u: Seq<char>, bare: Seq<char>, spaced: Seq<char>) -> bool {
    contains_seq(u, bare) && !contains_seq(u, spaced)
}

/// The syntax screen on the uppercased SQL text: none of the dangerous
/// patterns disqualifies it, and it starts with a known statement keyword.
pub open spec fn spec_query_syntax_ok(u: Seq<char>) -> bool {
    &&& !spec_bad_pattern(u, "--"@, " -- "@)
    &&& !spec_bad_pattern(u, "/*"@, " /* "@)
    &&& !spec_bad_pattern(u, "*/"@, " */ "@)
    &&& !spec_bad_pattern(u, ";"@, " ; "@)
    &&& !spec_bad_pattern(u, "DROP"@, " DROP "@)
    &&& !spec_bad_pattern(u, "DELETE"@, " DELETE "@)
    &&& !spec_bad_pattern(u, "UPDATE"@, " UPDATE "@)
    &&& !spec_bad_pattern(u, "INSERT"@, " INSERT "@)
    &&& !spec_bad_pattern(u, "EXEC"@, " EXEC "@)
    &&& !spec_bad_pattern(u, "EXECUTE"@, " EXECUTE "@)
    &&& !spec_bad_pattern(u, "TRUNCATE"@, " TRUNCATE "@)
    &&& !spec_bad_pattern(u, "ALTER"@, " ALTER "@)
    &&& !spec_bad_pattern(u, "CREATE"@, " CREATE "@)
    &&& {
        ||| starts_with_seq(u, "SELECT"@)
        ||| starts_with_seq(u, "INSERT"@)
        ||| starts_with_seq(u, "UPDATE"@)
        ||| starts_with_seq(u, "DELETE"@)
        ||| starts_with_seq(u, "WITH"@)
    }
}

fn bad_pattern(u: &str, bare: &str, spaced: &str) -> (r: bool)
    ensures
        r == spec_bad_pattern(u@, bare@, spaced@),
{
    contains_str(u, bare) && !contains_str(u, spaced)
}

/// A conservative screen over the uppercased SQL text: reject comment and
/// statement-separator tokens and data-definition keywords unless they
/// stand as space-surrounded words, and require a SELECT / INSERT /
/// UPDATE / DELETE / WITH start.
pub fn validate_query_syntax(sql: &str) -> (r: bool)
    ensures
        r == spec_query_syntax_ok(upper_of(sql@)),
{
    let upper = to_upper(sql);
    let u = upper.as_str();
    if bad_pattern(u, "--", " -- ") {
        return false;
    }
    if bad_pattern(u, "/*", " /* ") {
        return false;
    }
    if bad_pattern(u, "*/", " */ ") {
        return false;
    }
    if bad_pattern(u, ";", " ; ") {
        return false;
    }
    if bad_pattern(u, "DROP", " DROP ") {
        return false;
    }
    if bad_pattern(u, "DELETE", " DELETE ") {
        return false;
    }
    if bad_pattern(u, "UPDATE", " UPDATE ") {
        return false;
    }
    if bad_pattern(u, "INSERT", " INSERT ") {
        return false;
    }
    if bad_pattern(u, "EXEC", " EXEC ") {
        return false;
    }
    if bad_pattern(u, "EXECUTE", " EXECUTE ") {
        return false;
    }
    if bad_pattern(u, "TRUNCATE", " TRUNCATE ") {
        return false;
    }
    if bad_pattern(u, "ALTER", " ALTER ") {
        return false;
    }
    if bad_pattern(u, "CREATE", " CREATE ") {
        return false;
    }
    starts_with_str(u, "SELECT") || starts_with_str(u, "INSERT") || starts_with_str(u, "UPDATE")
        || starts_with_str(u, "DELETE") || starts_with_str(u, "WITH")
}

/// A character a parameter name may hold: ASCII letters, digits and '_'.
pub open spec fn is_name_char(c: char) -> bool {
    (48 <= c as u32 && c as u32 <= 57) || (65 <= c as u32 && c as u32 <= 90) || (97 <= c as u32
        && c as u32 <= 122) || c == '_'
}

/// The length of the leading run of name characters.
pub open spec fn name_run_len(s: Seq<char>) -> nat
    decreases s.len(),
{
    if s.len() == 0 || !is_name_char(s[0]) {
        0
    } else {
        1 + name_run_len(s.drop_first())
    }
}

pub proof fn lemma_name_run_len_le(s: Seq<char>)
    ensures
        name_run_len(s) <= s.len(),
    decreases s.len(),
{
    if s.len() > 0 && is_name_char(s[0]) {
        lemma_name_run_len_le(s.drop_first());
    }
}

proof fn lemma_name_run_char(s: Seq<char>, k: int)
    requires
        0 <= k <= s.len(),
        forall|j: int| 0 <= j < k ==> is_name_char(s[j]),
        k == s.len() || !is_name_char(s[k]),
    ensures
        name_run_len(s) == k,
    decreases k,
{
    if k == 0 {
    } else {
        assert(is_name_char(s[0]));
        lemma_name_run_char(s.drop_first(), k - 1);
    }
}

/// The rewritten SQL and the parameter names for the text `s`, numbering
/// placeholders from `next`: each ':' followed by a non-empty run of name
/// characters becomes '$' and the next number, and the name is collected;
/// `None` when some ':' has no name character after it.
pub open spec fn spec_prepare(s: Seq<char>, next: int) -> Option<(Seq<char>, Seq<Seq<char>>)>
    decreases s.len(),
    via spec_prepare_decreases
{
    if s.len() == 0 {
        Some((Seq::<char>::empty(), Seq::<Seq<char>>::empty()))
    } else if s[0] != ':' {
        match spec_prepare(s.drop_first(), next) {
            Some(r) => Some((seq![s[0]] + r.0, r.1)),
            None => None,
        }
    } else {
        let k = name_run_len(s.drop_first());
        if k == 0 {
            None
        } else {
            match spec_prepare(s.skip(1 + k as int), next + 1) {
                Some(r) => Some(
                    (
                        seq!['$'] + spec_dec(next) + r.0,
                        seq![s.subrange(1, 1 + k as int)] + r.1,
                    ),
                ),
                None => None,
            }
        }
    }
}

#[via_fn]
proof fn spec_prepare_decreases(s: Seq<char>, next: int) {
    if s.len() > 0 && s[0] == ':' {
        lemma_name_run_len_le(s.drop_first());
    }
}

fn is_name_char_exec(c: char) -> (r: bool)
    ensures
        r == is_name_char(c),
{
    let u = c as u32;
    (48 <= u && u <= 57) || (65 <= u && u <= 90) || (97 <= u && u <= 122) || c == '_'
}

/// The first position at or after `p` whose character is no name
/// character (or the end of the text).
pub fn name_run_end(sql: &str, p: usize, n: usize) -> (e: usize)
    requires
        n == sql@.len(),
        p <= n,
    ensures
        p <= e <= n,
        e - p == name_run_len(sql@.skip(p as int)),
{
    let mut e = p;
    while e < n && is_name_char_exec(sql.get_char(e))
        invariant
            n == sql@.len(),
            p <= e <= n,
            forall|j: int| p <= j < e ==> is_name_char(sql@[j]),
        decreases n - e,
    {
        e += 1;
    }
    proof {
        let s = sql@.skip(p as int);
        assert forall|j: int| 0 <= j < e - p implies is_name_char(s[j]) by {
            assert(s[j] == sql@[p + j]);
        }
        if e < n {
            assert(s[e - p] == sql@[e as int]);
        }
        lemma_name_run_char(s, e - p);
    }
    e
}

fn prepare_from(sql: &str, pos: usize, next: u64) -> (r: Option<(String, Vec<String>)>)
    requires
        pos <= sql@.len(),
        next as int <= 1 + pos as int / 2,
    ensures
        match spec_prepare(sql@.skip(pos as int), next as int) {
            Some(p) => r matches Some(q) && q.0@ == p.0 && q.1.deep_view() == p.1,
            None => r is None,
        },
    decreases sql@.len() - pos,
{
    let n = sql.unicode_len();
    let ghost s = sql@.skip(pos as int);
    if pos == n {
        let out: Vec<String> = Vec::new();
        proof {
            assert(out.deep_view() =~= Seq::<Seq<char>>::empty());
        }
        return Some((String::new(), out));
    }
    let c = sql.get_char(pos);
    proof {
        assert(s[0] == sql@[pos as int]);
        assert(s.drop_first() =~= sql@.skip(pos as int + 1));
    }
    if c != ':' {
        match prepare_from(sql, pos + 1, next) {
            None => None,
            Some((rest_s, rest_names)) => {
                let mut out = String::new();
                push_char(&mut out, c);
                let res = out.concat(rest_s.as_str());
                proof {
                    assert(res@ == seq![c] + rest_s@);
                }
                Some((res, rest_names))
            },
        }
    } else {
        let e = name_run_end(sql, pos + 1, n);
        proof {
            assert(name_run_len(s.drop_first()) == e - (pos + 1));
        }
        if e == pos + 1 {
            return None;
        }
        let name = sql.substring_char(pos + 1, e).to_owned();
        proof {
            assert(name@ =~= s.subrange(1, 1 + (e - pos - 1) as int));
            assert(s.skip(1 + (e - pos - 1) as int) =~= sql@.skip(e as int));
        }
        match prepare_from(sql, e, next + 1) {
            None => None,
            Some((rest_s, rest_names)) => {
                let mut out = String::new();
                push_char(&mut out, '$');
                push_dec(&mut out, next);
                let res = out.concat(rest_s.as_str());
                let ghost nv = name@;
                let ghost rnv = rest_names.deep_view();
                let mut names = rest_names;
                names.insert(0, name);
                proof {
                    assert(res@ == (seq!['$'] + spec_dec(next as int)) + rest_s@);
                    assert(res@ =~= seq!['$'] + spec_dec(next as int) + rest_s@);
                    assert(names.deep_view() =~~= seq![nv] + rnv);
                }
                Some((res, names))
            },
        }
    }
}

/// Rewrite ':name' parameters to numbered '$1', '$2', ... placeholders,
/// returning the rewritten SQL and the parameter names in order of first
/// appearance. Fails when a ':' is not followed by a name character.
pub fn prepare_query(sql: &str) -> (r: Result<(String, Vec<String>), QueryError>)
    ensures
        match spec_prepare(sql@, 1) {
            Some(p) => r matches Ok(q) && q.0@ == p.0 && q.1.deep_view() == p.1,
            None => r matches Err(e) && e == QueryError::EmptyParamName,
        },
{
    proof {
        assert(sql@.skip(0) =~= sql@);
    }
    match prepare_from(sql, 0, 1) {
        Some(p) => Ok(p),
        None => Err(QueryError::EmptyParamName),
    }
}

} // verus!

