//! The statements that write components and reshape category tables. The
//! connection runs them; where PostgreSQL has to be asked something first
//! (a column's type, whether ids are generated), its answer is an argument.
//! A component whose id reads `__mpn__<MPN>` is one identified by its MPN.

use vstd::prelude::*;
use crate::altium::library::{keyed_view, sort_by_key, sort_keyed};
use crate::db::{
    absent_from, late_columns,
    add_column_sql, add_column_sql_spec, base_column_names, base_columns, component_select,
    component_select_spec, component_values, component_values_spec, create_table_sql,
    create_table_sql_spec, custom_columns, custom_columns_spec, drop_column_sql,
    drop_column_sql_spec, missing_base_columns, missing_late_columns_spec, order_by_mpn,
    pg_cast_expression, pg_cast_spec, placeholders, push_order_by_mpn, qi, qi_spec, quote_all,
    quoted_all, rename_column_sql, rename_column_sql_spec, sql_param, sql_param_spec, Component,
};
use crate::import::{entries_view, lookup, lookup_value, Entry};
use crate::text::{
    chars_of, has_prefix, join_strings, join_with, push_str, starts_with_at, str_eq,
    string_from_range, strings_view, trim_seq, trim_str,
};

verus! {

broadcast use vstd::string::group_string_axioms;

// ---------------------------------------------------------------------------
// Shared pieces
// ---------------------------------------------------------------------------

/// The MPN a marked id (`__mpn__<MPN>`) stands for.
pub open spec fn marked_mpn(id: Seq<char>) -> Option<Seq<char>> {
    if has_prefix(id, "__mpn__"@) {
        Some(id.skip(7))
    } else {
        None
    }
}

/// Splits a marked id into the MPN it stands for.
pub fn marked_mpn_of(id: &str) -> (r: Option<String>)
    ensures
        match r {
            Some(m) => marked_mpn(id@) == Some(m@),
            None => marked_mpn(id@) is None,
        },
{
    let v = chars_of(id);
    let marker = chars_of("__mpn__");
    proof {
        reveal_strlit("__mpn__");
    }
    assert(v@.skip(0) =~= v@);
    if starts_with_at(&v, 0, &marker) {
        Some(string_from_range(&v, 7, v.len()))
    } else {
        None
    }
}

/// The key a component is edited under: its id, or its MPN marked as such
/// when it has no id.
pub open spec fn component_key_spec(c: Component) -> Seq<char> {
    if c.id@.len() == 0 {
        "__mpn__"@ + c.mpn@
    } else {
        c.id@
    }
}

pub fn component_key(c: &Component) -> (r: String)
    ensures
        r@ == component_key_spec(*c),
{
    if c.id.as_str().is_empty() {
        let mut r = "__mpn__".to_owned();
        push_str(&mut r, c.mpn.as_str());
        r
    } else {
        c.id.clone()
    }
}

/// The id a copy is made from: the component's id, or its MPN when it has
/// none (PostgreSQL finds the row by either).
pub open spec fn clone_source_spec(c: Component) -> Seq<char> {
    if c.id@.len() == 0 {
        c.mpn@
    } else {
        c.id@
    }
}

pub fn clone_source(c: &Component) -> (r: String)
    ensures
        r@ == clone_source_spec(*c),
{
    if c.id.as_str().is_empty() {
        c.mpn.clone()
    } else {
        c.id.clone()
    }
}

/// A component without an id is found again by its MPN: its key is marked
/// and names that MPN.
pub proof fn component_key_names_mpn(c: Component)
    requires
        c.id@.len() == 0,
    ensures
        marked_mpn(component_key_spec(c)) == Some(c.mpn@),
{
    reveal_strlit("__mpn__");
    let k = component_key_spec(c);
    assert(k.take(7) =~= "__mpn__"@);
    assert(k.skip(7) =~= c.mpn@);
}

/// The message when a write touched no row.
pub open spec fn not_found_spec(id: Seq<char>, t: Seq<char>) -> Seq<char> {
    "component '"@ + id + "' was not found in table '"@ + t + "'"@
}

pub fn not_found_message(id: &str, t: &str) -> (r: String)
    ensures
        r@ == not_found_spec(id@, t@),
{
    let mut r = "component '".to_owned();
    push_str(&mut r, id);
    push_str(&mut r, "' was not found in table '");
    push_str(&mut r, t);
    push_str(&mut r, "'");
    r
}

fn append_strings(r: &mut Vec<String>, xs: &Vec<String>)
    ensures
        strings_view(final(r)@) == strings_view(old(r)@) + strings_view(xs@),
{
    let ghost r0 = strings_view(r@);
    let ghost xv = strings_view(xs@);
    let mut i: usize = 0;
    while i < xs.len()
        invariant
            i <= xs@.len(),
            xv == strings_view(xs@),
            strings_view(r@) == r0 + xv.take(i as int),
        decreases xs@.len() - i,
    {
        let ghost before = strings_view(r@);
        r.push(xs[i].clone());
        assert(strings_view(r@) =~= before.push(xv[i as int]));
        assert(xv.take(i + 1) =~= xv.take(i as int).push(xv[i as int]));
        assert(strings_view(r@) =~= r0 + xv.take(i + 1));
        i += 1;
    }
    assert(xv.take(xs@.len() as int) =~= xv);
}

/// Placeholders `1..=n`: `$1, $2, ...` for PostgreSQL, `?` for SQLite.
pub fn numbered_params(pg: bool, n: usize) -> (r: Vec<String>)
    ensures
        strings_view(r@) == placeholders(pg, 1, n as nat),
{
    let mut r: Vec<String> = Vec::new();
    let mut i: usize = 0;
    while i < n
        invariant
            i <= n,
            strings_view(r@) == placeholders(pg, 1, i as nat),
        decreases n - i,
    {
        let p = sql_param(pg, i + 1);
        let ghost before = strings_view(r@);
        let ghost pv = p@;
        r.push(p);
        assert(strings_view(r@) =~= before.push(pv));
        assert(placeholders(pg, 1, (i + 1) as nat) =~= placeholders(pg, 1, i as nat).push(pv));
        i += 1;
    }
    r
}

/// The PostgreSQL parameter for a column, given the column's type and type
/// category as the catalog reports them (`None` when it has no such
/// column).
pub open spec fn column_missing_spec(table: Seq<char>, column: Seq<char>) -> Seq<char> {
    "PostgreSQL column '"@ + column + "' was not found in table '"@ + table + "'"@
}

pub fn pg_column_cast(table: &str, column: &str, n: usize, found: Option<(String, String)>) -> (r:
    Result<String, String>)
    ensures
        match found {
            Some(p) => r matches Ok(s) && s@ == pg_cast_spec(n as nat, p.0@, p.1@),
            None => r matches Err(m) && m@ == column_missing_spec(table@, column@),
        },
{
    match found {
        Some((ty, category)) => Ok(pg_cast_expression(n, ty.as_str(), category.as_str())),
        None => {
            let mut m = "PostgreSQL column '".to_owned();
            push_str(&mut m, column);
            push_str(&mut m, "' was not found in table '");
            push_str(&mut m, table);
            push_str(&mut m, "'");
            Err(m)
        },
    }
}

// ---------------------------------------------------------------------------
// Inserting components
// ---------------------------------------------------------------------------

/// The columns an insert fills: the standard ones, then the table's custom
/// ones.
pub open spec fn insert_columns_spec(cols: Seq<Seq<char>>) -> Seq<Seq<char>> {
    base_columns() + custom_columns_spec(cols)
}

pub fn insert_columns(table_columns: &[String]) -> (r: Vec<String>)
    ensures
        strings_view(r@) == insert_columns_spec(strings_view(table_columns@)),
{
    let mut r = base_column_names();
    let custom = custom_columns(table_columns);
    append_strings(&mut r, &custom);
    r
}

/// The value given for column `k` among `es`, else empty.
pub open spec fn given_or_empty(es: Seq<Entry>, k: Seq<char>) -> Seq<char> {
    match lookup(es, k) {
        Some(x) => x,
        None => Seq::empty(),
    }
}

/// The values an insert stores: the component's standard values, then for
/// each custom column of the table the value given for it (else empty).
pub open spec fn insert_values_spec(x: Component, cols: Seq<Seq<char>>, es: Seq<Entry>) -> Seq<
    Seq<char>,
> {
    component_values_spec(x) + custom_columns_spec(cols).map_values(
        |k: Seq<char>| given_or_empty(es, k),
    )
}

pub fn insert_values(x: &Component, table_columns: &[String], custom_values: &Vec<(String, String)>) -> (r:
    Vec<String>)
    ensures
        strings_view(r@) == insert_values_spec(
            *x,
            strings_view(table_columns@),
            entries_view(custom_values@),
        ),
{
    let ghost es = entries_view(custom_values@);
    let mut r = component_values(x);
    let ghost r0 = strings_view(r@);
    let custom = custom_columns(table_columns);
    let ghost cv = strings_view(custom@);
    let mut i: usize = 0;
    while i < custom.len()
        invariant
            i <= custom@.len(),
            cv == strings_view(custom@),
            es == entries_view(custom_values@),
            strings_view(r@) == r0 + cv.take(i as int).map_values(
                |k: Seq<char>| given_or_empty(es, k),
            ),
        decreases custom@.len() - i,
    {
        let v = match lookup_value(custom_values, custom[i].as_str()) {
            Some(s) => s,
            None => String::new(),
        };
        let ghost before = strings_view(r@);
        r.push(v);
        assert(cv.take(i + 1).map_values(|k: Seq<char>| given_or_empty(es, k)) =~= cv.take(
            i as int,
        ).map_values(|k: Seq<char>| given_or_empty(es, k)).push(given_or_empty(es, cv[i as int])));
        assert(strings_view(r@) =~= before.push(given_or_empty(es, cv[i as int])));
        i += 1;
    }
    assert(cv.take(custom@.len() as int) =~= cv);
    r
}

/// `INSERT INTO <t> (<columns>) VALUES (<params>)`.
pub open spec fn insert_sql_spec(t: Seq<char>, cols: Seq<Seq<char>>, ps: Seq<Seq<char>>) -> Seq<
    char,
> {
    "INSERT INTO "@ + qi_spec(t) + " ("@ + join_with(quoted_all(cols), ","@) + ") VALUES ("@
        + join_with(ps, ","@) + ")"@
}

pub fn insert_sql(t: &str, columns: &[String], params: &[String]) -> (r: String)
    ensures
        r@ == insert_sql_spec(t@, strings_view(columns@), strings_view(params@)),
{
    let mut r = "INSERT INTO ".to_owned();
    push_str(&mut r, qi(t).as_str());
    push_str(&mut r, " (");
    push_str(&mut r, join_strings(&quote_all(columns), ",").as_str());
    push_str(&mut r, ") VALUES (");
    push_str(&mut r, join_strings(params, ",").as_str());
    push_str(&mut r, ")");
    r
}

/// The insert for a table whose ids PostgreSQL does not generate: the next
/// id is one past the largest.
pub open spec fn insert_next_id_sql_spec(t: Seq<char>, cols: Seq<Seq<char>>, ps: Seq<Seq<char>>) -> Seq<
    char,
> {
    "INSERT INTO "@ + qi_spec(t) + " ("@ + qi_spec("id"@) + ", "@ + join_with(
        quoted_all(cols),
        ","@,
    ) + ") SELECT COALESCE(MAX("@ + qi_spec("id"@) + "), 0) + 1, "@ + join_with(ps, ","@)
        + " FROM "@ + qi_spec(t)
}

/// The statement that adds a component: a plain insert on SQLite; on
/// PostgreSQL one that returns the new id, numbering it itself when the
/// table does not generate ids.
pub open spec fn add_component_sql_spec(
    pg: bool,
    t: Seq<char>,
    cols: Seq<Seq<char>>,
    ps: Seq<Seq<char>>,
    has_generated_id: bool,
) -> Seq<char> {
    if !pg {
        insert_sql_spec(t, cols, ps)
    } else if has_generated_id {
        insert_sql_spec(t, cols, ps) + " RETURNING "@ + qi_spec("id"@)
    } else {
        insert_next_id_sql_spec(t, cols, ps) + " RETURNING "@ + qi_spec("id"@)
    }
}

pub fn add_component_sql(
    pg: bool,
    t: &str,
    columns: &[String],
    params: &[String],
    has_generated_id: bool,
) -> (r: String)
    ensures
        r@ == add_component_sql_spec(
            pg,
            t@,
            strings_view(columns@),
            strings_view(params@),
            has_generated_id,
        ),
{
    if !pg {
        return insert_sql(t, columns, params);
    }
    let mut r = if has_generated_id {
        insert_sql(t, columns, params)
    } else {
        let mut s = "INSERT INTO ".to_owned();
        push_str(&mut s, qi(t).as_str());
        push_str(&mut s, " (");
        push_str(&mut s, qi("id").as_str());
        push_str(&mut s, ", ");
        push_str(&mut s, join_strings(&quote_all(columns), ",").as_str());
        push_str(&mut s, ") SELECT COALESCE(MAX(");
        push_str(&mut s, qi("id").as_str());
        push_str(&mut s, "), 0) + 1, ");
        push_str(&mut s, join_strings(params, ",").as_str());
        push_str(&mut s, " FROM ");
        push_str(&mut s, qi(t).as_str());
        s
    };
    push_str(&mut r, " RETURNING ");
    push_str(&mut r, qi("id").as_str());
    r
}

/// `SELECT COUNT(*) FROM <t> WHERE "MPN"=<param>`.
pub open spec fn mpn_count_sql_spec(t: Seq<char>, param: Seq<char>) -> Seq<char> {
    "SELECT COUNT(*) FROM "@ + qi_spec(t) + " WHERE "@ + qi_spec("MPN"@) + "="@ + param
}

pub fn mpn_count_sql(t: &str, param: &str) -> (r: String)
    ensures
        r@ == mpn_count_sql_spec(t@, param@),
{
    let mut r = "SELECT COUNT(*) FROM ".to_owned();
    push_str(&mut r, qi(t).as_str());
    push_str(&mut r, " WHERE ");
    push_str(&mut r, qi("MPN").as_str());
    push_str(&mut r, "=");
    push_str(&mut r, param);
    r
}

// ---------------------------------------------------------------------------
// Updating and deleting components
// ---------------------------------------------------------------------------

/// `<column>=<param>` for each column and its parameter.
pub open spec fn set_clauses(cols: Seq<Seq<char>>, ps: Seq<Seq<char>>) -> Seq<Seq<char>> {
    Seq::new(cols.len(), |i: int| qi_spec(cols[i]) + "="@ + ps[i])
}

/// Which row an update writes: by MPN (PostgreSQL, marked id), by the id
/// as text (PostgreSQL), or by id (SQLite); the key is parameter 19.
pub open spec fn update_where_spec(pg: bool, by_mpn: bool) -> Seq<char> {
    if pg && by_mpn {
        qi_spec("MPN"@) + "=$19::text"@
    } else if pg {
        "CAST("@ + qi_spec("id"@) + " AS text)=$19::text"@
    } else {
        qi_spec("id"@) + "="@ + sql_param_spec(false, 19)
    }
}

/// The key of the row an update writes: the MPN of a marked id, the MPN
/// when there is no id, else the id.
pub open spec fn update_key_spec(x: Component) -> Seq<char> {
    match marked_mpn(x.id@) {
        Some(m) => m,
        None => if x.id@.len() == 0 {
            x.mpn@
        } else {
            x.id@
        },
    }
}

pub open spec fn update_sql_spec(pg: bool, t: Seq<char>, x: Component, ps: Seq<Seq<char>>) -> Seq<
    char,
> {
    "UPDATE "@ + qi_spec(t) + " SET "@ + join_with(set_clauses(base_columns(), ps), ","@)
        + " WHERE "@ + update_where_spec(pg, marked_mpn(x.id@) is Some)
}

/// The update that writes a component's standard values, with its
/// parameter values; `set_params` are the parameters of the standard
/// columns (`?` on SQLite, the column casts on PostgreSQL).
pub fn update_statement(pg: bool, t: &str, x: &Component, set_params: &[String]) -> (r: (
    String,
    Vec<String>,
))
    requires
        set_params@.len() == 18,
    ensures
        r.0@ == update_sql_spec(pg, t@, *x, strings_view(set_params@)),
        strings_view(r.1@) == component_values_spec(*x).push(update_key_spec(*x)),
{
    let names = base_column_names();
    let ghost nv = strings_view(names@);
    let ghost pv = strings_view(set_params@);
    let mut sets: Vec<String> = Vec::new();
    assert(base_columns().len() == 18);
    assert(nv.len() == names@.len());
    assert(strings_view(sets@) =~= set_clauses(nv.take(0), pv.take(0)));
    let mut i: usize = 0;
    while i < names.len()
        invariant
            i <= names@.len() == 18,
            set_params@.len() == 18,
            nv == strings_view(names@),
            nv == base_columns(),
            pv == strings_view(set_params@),
            strings_view(sets@) == set_clauses(nv.take(i as int), pv.take(i as int)),
        decreases names@.len() - i,
    {
        let mut s = qi(names[i].as_str());
        push_str(&mut s, "=");
        push_str(&mut s, set_params[i].as_str());
        let ghost before = strings_view(sets@);
        let ghost sv = s@;
        sets.push(s);
        assert(set_clauses(nv.take(i + 1), pv.take(i + 1)) =~= set_clauses(
            nv.take(i as int),
            pv.take(i as int),
        ).push(sv));
        assert(strings_view(sets@) =~= before.push(sv));
        i += 1;
    }
    assert(nv.take(18) =~= nv);
    assert(pv.take(18) =~= pv);
    let key_mpn = marked_mpn_of(x.id.as_str());
    let mut sql = "UPDATE ".to_owned();
    push_str(&mut sql, qi(t).as_str());
    push_str(&mut sql, " SET ");
    push_str(&mut sql, join_strings(&sets, ",").as_str());
    push_str(&mut sql, " WHERE ");
    if pg && key_mpn.is_some() {
        push_str(&mut sql, qi("MPN").as_str());
        push_str(&mut sql, "=$19::text");
    } else if pg {
        push_str(&mut sql, "CAST(");
        push_str(&mut sql, qi("id").as_str());
        push_str(&mut sql, " AS text)=$19::text");
    } else {
        push_str(&mut sql, qi("id").as_str());
        push_str(&mut sql, "=");
        push_str(&mut sql, sql_param(false, 19).as_str());
    }
    let mut vals = component_values(x);
    let key = match key_mpn {
        Some(m) => m,
        None => if x.id.as_str().is_empty() {
            x.mpn.clone()
        } else {
            x.id.clone()
        },
    };
    let ghost before = strings_view(vals@);
    let ghost kv = key@;
    vals.push(key);
    assert(strings_view(vals@) =~= before.push(kv));
    (sql, vals)
}

/// `DELETE` of a component: on PostgreSQL by id as text or by MPN (the
/// same parameter), on SQLite by id.
pub open spec fn delete_sql_spec(pg: bool, t: Seq<char>) -> Seq<char> {
    if pg {
        "DELETE FROM "@ + qi_spec(t) + " WHERE CAST(\"id\" AS text)=$1 OR "@ + qi_spec("MPN"@)
            + "=$1"@
    } else {
        "DELETE FROM "@ + qi_spec(t) + " WHERE \"id\"=?"@
    }
}

pub fn delete_sql(pg: bool, t: &str) -> (r: String)
    ensures
        r@ == delete_sql_spec(pg, t@),
{
    let mut r = "DELETE FROM ".to_owned();
    push_str(&mut r, qi(t).as_str());
    if pg {
        push_str(&mut r, " WHERE CAST(\"id\" AS text)=$1 OR ");
        push_str(&mut r, qi("MPN").as_str());
        push_str(&mut r, "=$1");
    } else {
        push_str(&mut r, " WHERE \"id\"=?");
    }
    r
}

// ---------------------------------------------------------------------------
// Copying components and tables
// ---------------------------------------------------------------------------

/// The columns of `cols` other than `id` and `MPN`, in order.
pub open spec fn without_id_mpn(cols: Seq<Seq<char>>) -> Seq<Seq<char>>
    decreases cols.len(),
{
    if cols.len() == 0 {
        Seq::empty()
    } else {
        without_id_mpn(cols.drop_last()) + if cols.last() != "id"@ && cols.last() != "MPN"@ {
            seq![cols.last()]
        } else {
            Seq::<Seq<char>>::empty()
        }
    }
}

/// The columns of `cols` other than `id`, in order.
pub open spec fn without_id(cols: Seq<Seq<char>>) -> Seq<Seq<char>>
    decreases cols.len(),
{
    if cols.len() == 0 {
        Seq::empty()
    } else {
        without_id(cols.drop_last()) + if cols.last() != "id"@ {
            seq![cols.last()]
        } else {
            Seq::<Seq<char>>::empty()
        }
    }
}

fn columns_except(cols: &[String], also_mpn: bool) -> (r: Vec<String>)
    ensures
        strings_view(r@) == if also_mpn {
            without_id_mpn(strings_view(cols@))
        } else {
            without_id(strings_view(cols@))
        },
{
    let ghost cv = strings_view(cols@);
    let mut r: Vec<String> = Vec::new();
    let mut i: usize = 0;
    while i < cols.len()
        invariant
            i <= cols@.len(),
            cv == strings_view(cols@),
            strings_view(r@) == if also_mpn {
                without_id_mpn(cv.take(i as int))
            } else {
                without_id(cv.take(i as int))
            },
        decreases cols@.len() - i,
    {
        proof {
            assert(cv.take(i + 1).drop_last() =~= cv.take(i as int));
            assert(cv.take(i + 1).last() == cv[i as int]);
        }
        let ghost before = strings_view(r@);
        let c = cols[i].as_str();
        if !str_eq(c, "id") && !(also_mpn && str_eq(c, "MPN")) {
            r.push(cols[i].clone());
            assert(strings_view(r@) =~= before.push(cv[i as int]));
        } else {
            assert(strings_view(r@) =~= before + Seq::<Seq<char>>::empty());
        }
        i += 1;
    }
    assert(cv.take(cols@.len() as int) =~= cv);
    r
}

/// The copy of a component under a new MPN: every column but `id` and
/// `MPN` is copied from the row with the given id (parameter 2; on
/// PostgreSQL the id as text, or the MPN); `mpn_param` is parameter 1.
pub open spec fn clone_component_sql_spec(
    pg: bool,
    t: Seq<char>,
    cols: Seq<Seq<char>>,
    mpn_param: Seq<char>,
) -> Seq<char> {
    let list = join_with(quoted_all(without_id_mpn(cols)), ","@);
    let id_param = if pg {
        "$2::text"@
    } else {
        "?"@
    };
    let id_column = if pg {
        "CAST(\"id\" AS text)"@
    } else {
        "\"id\""@
    };
    "INSERT INTO "@ + qi_spec(t) + " ("@ + qi_spec("MPN"@) + ","@ + list + ") SELECT "@ + mpn_param
        + ","@ + list + " FROM "@ + qi_spec(t) + " WHERE "@ + id_column + "="@ + id_param + if pg {
        " OR "@ + qi_spec("MPN"@) + "="@ + id_param
    } else {
        ""@
    }
}

pub fn clone_component_sql(pg: bool, t: &str, table_columns: &[String], mpn_param: &str) -> (r:
    String)
    ensures
        r@ == clone_component_sql_spec(pg, t@, strings_view(table_columns@), mpn_param@),
{
    let list = join_strings(&quote_all(&columns_except(table_columns, true)), ",");
    let id_param = if pg {
        "$2::text"
    } else {
        "?"
    };
    let mut r = "INSERT INTO ".to_owned();
    push_str(&mut r, qi(t).as_str());
    push_str(&mut r, " (");
    push_str(&mut r, qi("MPN").as_str());
    push_str(&mut r, ",");
    push_str(&mut r, list.as_str());
    push_str(&mut r, ") SELECT ");
    push_str(&mut r, mpn_param);
    push_str(&mut r, ",");
    push_str(&mut r, list.as_str());
    push_str(&mut r, " FROM ");
    push_str(&mut r, qi(t).as_str());
    push_str(&mut r, " WHERE ");
    push_str(
        &mut r,
        if pg {
            "CAST(\"id\" AS text)"
        } else {
            "\"id\""
        },
    );
    push_str(&mut r, "=");
    push_str(&mut r, id_param);
    if pg {
        push_str(&mut r, " OR ");
        push_str(&mut r, qi("MPN").as_str());
        push_str(&mut r, "=");
        push_str(&mut r, id_param);
    }
    proof {
        if pg {
            assert(r@ =~= clone_component_sql_spec(pg, t@, strings_view(table_columns@), mpn_param@));
        } else {
            reveal_strlit("");
            assert(r@ =~= clone_component_sql_spec(pg, t@, strings_view(table_columns@), mpn_param@));
        }
    }
    r
}

/// The columns of table `old` that a copy `new` (with columns `new_cols`)
/// lacks, `id` aside, each once, in order.
pub open spec fn columns_to_add(old_cols: Seq<Seq<char>>, new_cols: Seq<Seq<char>>) -> Seq<Seq<char>>
    decreases old_cols.len(),
{
    if old_cols.len() == 0 {
        Seq::empty()
    } else {
        let prev = columns_to_add(old_cols.drop_last(), new_cols);
        let c = old_cols.last();
        prev + if c != "id"@ && !new_cols.contains(c) && !prev.contains(c) {
            seq![c]
        } else {
            Seq::<Seq<char>>::empty()
        }
    }
}

pub fn clone_table_columns(old_cols: &[String], new_cols: &[String]) -> (r: Vec<String>)
    ensures
        strings_view(r@) == columns_to_add(strings_view(old_cols@), strings_view(new_cols@)),
{
    let ghost ov = strings_view(old_cols@);
    let ghost nv = strings_view(new_cols@);
    let mut r: Vec<String> = Vec::new();
    let mut i: usize = 0;
    while i < old_cols.len()
        invariant
            i <= old_cols@.len(),
            ov == strings_view(old_cols@),
            nv == strings_view(new_cols@),
            strings_view(r@) == columns_to_add(ov.take(i as int), nv),
        decreases old_cols@.len() - i,
    {
        proof {
            assert(ov.take(i + 1).drop_last() =~= ov.take(i as int));
            assert(ov.take(i + 1).last() == ov[i as int]);
        }
        let ghost before = strings_view(r@);
        let c = old_cols[i].as_str();
        if !str_eq(c, "id") && !crate::db::contains_string(new_cols, c)
            && !crate::db::contains_string(&r, c) {
            r.push(old_cols[i].clone());
            assert(strings_view(r@) =~= before.push(ov[i as int]));
        } else {
            assert(strings_view(r@) =~= before + Seq::<Seq<char>>::empty());
        }
        i += 1;
    }
    assert(ov.take(old_cols@.len() as int) =~= ov);
    r
}

/// The copy of all rows of `old` into `new`, every column but `id`; none
/// when `old` has no other column.
pub open spec fn copy_rows_sql_spec(old: Seq<char>, new: Seq<char>, old_cols: Seq<Seq<char>>) -> Option<
    Seq<char>,
> {
    let cols = without_id(old_cols);
    let list = join_with(quoted_all(cols), ","@);
    if cols.len() == 0 {
        None
    } else {
        Some("INSERT INTO "@ + qi_spec(new) + " ("@ + list + ") SELECT "@ + list + " FROM "@ + qi_spec(old))
    }
}

pub fn copy_rows_sql(old: &str, new: &str, old_cols: &[String]) -> (r: Option<String>)
    ensures
        match r {
            Some(s) => copy_rows_sql_spec(old@, new@, strings_view(old_cols@)) == Some(s@),
            None => copy_rows_sql_spec(old@, new@, strings_view(old_cols@)) is None,
        },
{
    let cols = columns_except(old_cols, false);
    if cols.len() == 0 {
        return None;
    }
    let list = join_strings(&quote_all(&cols), ",");
    let mut r = "INSERT INTO ".to_owned();
    push_str(&mut r, qi(new).as_str());
    push_str(&mut r, " (");
    push_str(&mut r, list.as_str());
    push_str(&mut r, ") SELECT ");
    push_str(&mut r, list.as_str());
    push_str(&mut r, " FROM ");
    push_str(&mut r, qi(old).as_str());
    Some(r)
}

// ---------------------------------------------------------------------------
// Custom values
// ---------------------------------------------------------------------------

/// The key a component is found by: the MPN of a marked id, else the id.
pub open spec fn row_key(id: Seq<char>) -> Seq<char> {
    match marked_mpn(id) {
        Some(m) => m,
        None => id,
    }
}

/// The query for one custom value of a component, and its parameter.
pub open spec fn custom_value_query_spec(pg: bool, t: Seq<char>, id: Seq<char>, col: Seq<char>) -> (
    Seq<char>,
    Seq<char>,
) {
    let by_mpn = marked_mpn(id) is Some;
    if pg {
        let w = if by_mpn {
            qi_spec("MPN"@) + "=$1::text"@
        } else {
            "CAST("@ + qi_spec("id"@) + " AS text)=$1::text"@
        };
        ("SELECT CAST("@ + qi_spec(col) + " AS text) FROM "@ + qi_spec(t) + " WHERE "@ + w, row_key(id))
    } else {
        let wc = if by_mpn {
            "MPN"@
        } else {
            "id"@
        };
        ("SELECT "@ + qi_spec(col) + " FROM "@ + qi_spec(t) + " WHERE "@ + qi_spec(wc) + "=?"@, row_key(id))
    }
}

pub fn custom_value_query(pg: bool, t: &str, id: &str, col: &str) -> (r: (String, String))
    ensures
        (r.0@, r.1@) == custom_value_query_spec(pg, t@, id@, col@),
{
    let m = marked_mpn_of(id);
    let by_mpn = m.is_some();
    let key = match m {
        Some(x) => x,
        None => id.to_owned(),
    };
    let mut r = if pg {
        "SELECT CAST(".to_owned()
    } else {
        "SELECT ".to_owned()
    };
    if pg {
        push_str(&mut r, qi(col).as_str());
        push_str(&mut r, " AS text) FROM ");
        push_str(&mut r, qi(t).as_str());
        push_str(&mut r, " WHERE ");
        if by_mpn {
            push_str(&mut r, qi("MPN").as_str());
            push_str(&mut r, "=$1::text");
        } else {
            push_str(&mut r, "CAST(");
            push_str(&mut r, qi("id").as_str());
            push_str(&mut r, " AS text)=$1::text");
        }
    } else {
        push_str(&mut r, qi(col).as_str());
        push_str(&mut r, " FROM ");
        push_str(&mut r, qi(t).as_str());
        push_str(&mut r, " WHERE ");
        push_str(
            &mut r,
            qi(
                if by_mpn {
                    "MPN"
                } else {
                    "id"
                },
            ).as_str(),
        );
        push_str(&mut r, "=?");
    }
    proof {
        if pg && by_mpn {
            assert(r@ =~= custom_value_query_spec(pg, t@, id@, col@).0);
        } else if pg {
            assert(r@ =~= custom_value_query_spec(pg, t@, id@, col@).0);
        } else if by_mpn {
            assert(r@ =~= custom_value_query_spec(pg, t@, id@, col@).0);
        } else {
            assert(r@ =~= custom_value_query_spec(pg, t@, id@, col@).0);
        }
    }
    (r, key)
}

/// The update of one custom value (parameter 1, written by `value_param`)
/// of the component with the given id (parameter 2), with its parameter
/// values: on PostgreSQL the row is found by MPN for a marked id, else by
/// id as text; on SQLite by id.
pub open spec fn set_custom_value_spec(
    pg: bool,
    t: Seq<char>,
    id: Seq<char>,
    col: Seq<char>,
    v: Seq<char>,
    value_param: Seq<char>,
) -> (Seq<char>, Seq<Seq<char>>) {
    let id_param = if pg {
        "$2::text"@
    } else {
        "?"@
    };
    let w = if pg && marked_mpn(id) is Some {
        qi_spec("MPN"@) + "="@ + id_param
    } else if pg {
        "CAST("@ + qi_spec("id"@) + " AS text)="@ + id_param
    } else {
        qi_spec("id"@) + "="@ + id_param
    };
    (
        "UPDATE "@ + qi_spec(t) + " SET "@ + qi_spec(col) + "="@ + value_param + " WHERE "@ + w,
        seq![
            v,
            if pg {
                row_key(id)
            } else {
                id
            },
        ],
    )
}

pub fn set_custom_value_statement(
    pg: bool,
    t: &str,
    id: &str,
    col: &str,
    v: &str,
    value_param: &str,
) -> (r: (String, Vec<String>))
    ensures
        (r.0@, strings_view(r.1@)) == set_custom_value_spec(pg, t@, id@, col@, v@, value_param@),
{
    let m = marked_mpn_of(id);
    let id_param = if pg {
        "$2::text"
    } else {
        "?"
    };
    let mut r = "UPDATE ".to_owned();
    push_str(&mut r, qi(t).as_str());
    push_str(&mut r, " SET ");
    push_str(&mut r, qi(col).as_str());
    push_str(&mut r, "=");
    push_str(&mut r, value_param);
    push_str(&mut r, " WHERE ");
    if pg && m.is_some() {
        push_str(&mut r, qi("MPN").as_str());
        push_str(&mut r, "=");
    } else if pg {
        push_str(&mut r, "CAST(");
        push_str(&mut r, qi("id").as_str());
        push_str(&mut r, " AS text)=");
    } else {
        push_str(&mut r, qi("id").as_str());
        push_str(&mut r, "=");
    }
    push_str(&mut r, id_param);
    let key = if pg {
        match m {
            Some(x) => x,
            None => id.to_owned(),
        }
    } else {
        id.to_owned()
    };
    let mut vals: Vec<String> = Vec::new();
    vals.push(v.to_owned());
    vals.push(key);
    assert(strings_view(vals@) =~= seq![v@, vals@[1]@]);
    proof {
        if pg && m is Some {
            assert(r@ =~= set_custom_value_spec(pg, t@, id@, col@, v@, value_param@).0);
        } else if pg {
            assert(r@ =~= set_custom_value_spec(pg, t@, id@, col@, v@, value_param@).0);
        } else {
            assert(r@ =~= set_custom_value_spec(pg, t@, id@, col@, v@, value_param@).0);
        }
    }
    (r, vals)
}

// ---------------------------------------------------------------------------
// Inserting spreadsheet rows
// ---------------------------------------------------------------------------

/// The entries of a row that an insert stores: those naming a column of the
/// table other than `id`, with a value.
pub open spec fn insertable(es: Seq<Entry>, cols: Seq<Seq<char>>) -> Seq<Entry>
    decreases es.len(),
{
    if es.len() == 0 {
        Seq::empty()
    } else {
        insertable(es.drop_last(), cols) + if cols.contains(es.last().0) && es.last().0 != "id"@
            && es.last().1.len() > 0 {
            seq![es.last()]
        } else {
            Seq::<Entry>::empty()
        }
    }
}

/// The (column, value) pairs a row insert stores, ordered by column name.
pub open spec fn row_insert_spec(es: Seq<Entry>, cols: Seq<Seq<char>>) -> Seq<Entry> {
    sort_by_key(insertable(es, cols))
}

pub fn row_insert_entries(table_columns: &[String], values: &Vec<(String, String)>) -> (r: Vec<
    (String, String),
>)
    ensures
        entries_view(r@) == row_insert_spec(entries_view(values@), strings_view(table_columns@)),
{
    let ghost ev = entries_view(values@);
    let ghost cv = strings_view(table_columns@);
    let mut kept: Vec<(String, String)> = Vec::new();
    let mut i: usize = 0;
    while i < values.len()
        invariant
            i <= values@.len(),
            ev == entries_view(values@),
            cv == strings_view(table_columns@),
            entries_view(kept@) == insertable(ev.take(i as int), cv),
        decreases values@.len() - i,
    {
        proof {
            assert(ev.take(i + 1).drop_last() =~= ev.take(i as int));
            assert(ev.take(i + 1).last() == ev[i as int]);
        }
        let ghost before = entries_view(kept@);
        let k = values[i].0.as_str();
        if crate::db::contains_string(table_columns, k) && !str_eq(k, "id")
            && !values[i].1.as_str().is_empty() {
            kept.push((values[i].0.clone(), values[i].1.clone()));
            assert(entries_view(kept@) =~= before.push(ev[i as int]));
        } else {
            assert(entries_view(kept@) =~= before + Seq::<Entry>::empty());
        }
        i += 1;
    }
    assert(ev.take(values@.len() as int) =~= ev);
    let r = sort_keyed(kept);
    assert(keyed_view(r@) =~= entries_view(r@));
    r
}

// ---------------------------------------------------------------------------
// Table upkeep
// ---------------------------------------------------------------------------

/// What makes a category table ready: created when it does not exist, else
/// given the standard columns it lacks.
pub open spec fn ensure_table_spec(pg: bool, t: Seq<char>, exists: bool, cols: Seq<Seq<char>>) -> Seq<
    Seq<char>,
> {
    if !exists {
        seq![create_table_sql_spec(pg, t)]
    } else {
        missing_late_columns_spec(cols).map_values(|c: Seq<char>| add_column_sql_spec(t, c))
    }
}

fn add_columns_sql(t: &str, cols: &Vec<String>, out: &mut Vec<String>)
    ensures
        strings_view(final(out)@) == strings_view(old(out)@) + strings_view(cols@).map_values(
            |c: Seq<char>| add_column_sql_spec(t@, c),
        ),
{
    let ghost o0 = strings_view(out@);
    let ghost cv = strings_view(cols@);
    let mut i: usize = 0;
    while i < cols.len()
        invariant
            i <= cols@.len(),
            cv == strings_view(cols@),
            strings_view(out@) == o0 + cv.take(i as int).map_values(
                |c: Seq<char>| add_column_sql_spec(t@, c),
            ),
        decreases cols@.len() - i,
    {
        let q = add_column_sql(t, cols[i].as_str());
        let ghost before = strings_view(out@);
        let ghost qv = q@;
        out.push(q);
        assert(strings_view(out@) =~= before.push(qv));
        assert(cv.take(i + 1).map_values(|c: Seq<char>| add_column_sql_spec(t@, c)) =~= cv.take(
            i as int,
        ).map_values(|c: Seq<char>| add_column_sql_spec(t@, c)).push(qv));
        i += 1;
    }
    assert(cv.take(cols@.len() as int) =~= cv);
}

/// The statements that make table `t` ready, given whether it exists and
/// its columns.
pub fn ensure_table_statements(pg: bool, t: &str, exists: bool, table_columns: &[String]) -> (r: Vec<
    String,
>)
    ensures
        strings_view(r@) == ensure_table_spec(pg, t@, exists, strings_view(table_columns@)),
{
    let mut r: Vec<String> = Vec::new();
    if !exists {
        let c = create_table_sql(pg, t);
        let ghost cv = c@;
        r.push(c);
        assert(strings_view(r@) =~= seq![cv]);
    } else {
        let missing = missing_base_columns(table_columns);
        add_columns_sql(t, &missing, &mut r);
        assert(strings_view(r@) =~= strings_view(missing@).map_values(
            |c: Seq<char>| add_column_sql_spec(t@, c),
        ));
    }
    r
}

/// Columns with `a` renamed to `b`.
pub open spec fn renamed(cols: Seq<Seq<char>>, a: Seq<char>, b: Seq<char>) -> Seq<Seq<char>> {
    cols.map_values(|c: Seq<char>| if c == a {
        b
    } else {
        c
    })
}

/// Columns without `x`.
pub open spec fn removed(cols: Seq<Seq<char>>, x: Seq<char>) -> Seq<Seq<char>>
    decreases cols.len(),
{
    if cols.len() == 0 {
        Seq::empty()
    } else {
        removed(cols.drop_last(), x) + if cols.last() != x {
            seq![cols.last()]
        } else {
            Seq::<Seq<char>>::empty()
        }
    }
}

/// A table's columns and the statements so far.
pub type Upkeep = (Seq<Seq<char>>, Seq<Seq<char>>);

/// Renames column `a` to `b` when the table has `a` and not `b`.
pub open spec fn rename_step(t: Seq<char>, st: Upkeep, a: Seq<char>, b: Seq<char>) -> Upkeep {
    if st.0.contains(a) && !st.0.contains(b) {
        (renamed(st.0, a, b), st.1.push(rename_column_sql_spec(t, a, b)))
    } else {
        st
    }
}

/// Drops column `x` when the table has it.
pub open spec fn drop_step(t: Seq<char>, st: Upkeep, x: Seq<char>) -> Upkeep {
    if st.0.contains(x) {
        (removed(st.0, x), st.1.push(drop_column_sql_spec(t, x)))
    } else {
        st
    }
}

/// Bringing an older table with columns `cols` up to date: old column
/// names are renamed to the current ones, retired columns dropped, and
/// missing standard columns added; each step sees the columns as the steps
/// before it left them. The columns it leaves, and its statements.
pub open spec fn migration_run(t: Seq<char>, cols: Seq<Seq<char>>) -> Upkeep {
    let d = retired_dropped(t, renames_done(t, (cols, Seq::empty())));
    let added = missing_late_columns_spec(d.0);
    (d.0 + added, d.1 + added.map_values(|c: Seq<char>| add_column_sql_spec(t, c)))
}

/// The renaming steps of bringing a table up to date.
pub open spec fn renames_done(t: Seq<char>, s0: Upkeep) -> Upkeep {
    let s1 = rename_step(t, s0, "Design Item ID"@, "MPN"@);
    let s2 = rename_step(t, s1, "Symbols"@, "Library Ref"@);
    let s3 = rename_step(t, s2, "Symbol Reference"@, "Library Ref"@);
    let s4 = rename_step(t, s3, "Footprints"@, "Footprint Ref"@);
    let s5 = rename_step(t, s4, "Footprint Reference"@, "Footprint Ref"@);
    rename_step(t, s5, "Datasheet"@, "ComponentLink1URL"@)
}

/// The dropping steps of bringing a table up to date.
pub open spec fn retired_dropped(t: Seq<char>, s6: Upkeep) -> Upkeep {
    let d1 = drop_step(t, s6, "Comment"@);
    let d2 = drop_step(t, d1, "Footprint Filters"@);
    let d3 = drop_step(t, d2, "Keywords"@);
    let d4 = drop_step(t, d3, "No BOM"@);
    let d5 = drop_step(t, d4, "Schematic Only"@);
    let d6 = drop_step(t, d5, "No Sim"@);
    drop_step(t, d6, "Manufacturer Part Number"@)
}

pub open spec fn migration_spec(t: Seq<char>, cols: Seq<Seq<char>>) -> Seq<Seq<char>> {
    migration_run(t, cols).1
}

fn rename_step_exec(t: &str, cols: &mut Vec<String>, out: &mut Vec<String>, a: &str, b: &str)
    ensures
        (strings_view(final(cols)@), strings_view(final(out)@)) == rename_step(
            t@,
            (strings_view(old(cols)@), strings_view(old(out)@)),
            a@,
            b@,
        ),
{
    if crate::db::contains_string(cols, a) && !crate::db::contains_string(cols, b) {
        let ghost c0 = strings_view(cols@);
        let mut next: Vec<String> = Vec::new();
        let mut i: usize = 0;
        while i < cols.len()
            invariant
                i <= cols@.len(),
                c0 == strings_view(cols@),
                strings_view(next@) == renamed(c0.take(i as int), a@, b@),
            decreases cols@.len() - i,
        {
            let ghost before = strings_view(next@);
            let c = if str_eq(cols[i].as_str(), a) {
                b.to_owned()
            } else {
                cols[i].clone()
            };
            let ghost cv = c@;
            next.push(c);
            assert(strings_view(next@) =~= before.push(cv));
            assert(renamed(c0.take(i + 1), a@, b@) =~= renamed(c0.take(i as int), a@, b@).push(cv));
            i += 1;
        }
        assert(c0.take(cols@.len() as int) =~= c0);
        *cols = next;
        assert(strings_view(cols@) =~= renamed(c0, a@, b@));
        let q = rename_column_sql(t, a, b);
        let ghost before = strings_view(out@);
        let ghost qv = q@;
        out.push(q);
        assert(strings_view(out@) =~= before.push(qv));
    }
}

fn drop_step_exec(t: &str, cols: &mut Vec<String>, out: &mut Vec<String>, x: &str)
    ensures
        (strings_view(final(cols)@), strings_view(final(out)@)) == drop_step(
            t@,
            (strings_view(old(cols)@), strings_view(old(out)@)),
            x@,
        ),
{
    if crate::db::contains_string(cols, x) {
        let ghost c0 = strings_view(cols@);
        let mut kept: Vec<String> = Vec::new();
        let mut i: usize = 0;
        while i < cols.len()
            invariant
                i <= cols@.len(),
                c0 == strings_view(cols@),
                strings_view(kept@) == removed(c0.take(i as int), x@),
            decreases cols@.len() - i,
        {
            proof {
                assert(c0.take(i + 1).drop_last() =~= c0.take(i as int));
                assert(c0.take(i + 1).last() == c0[i as int]);
            }
            let ghost before = strings_view(kept@);
            if !str_eq(cols[i].as_str(), x) {
                kept.push(cols[i].clone());
                assert(strings_view(kept@) =~= before.push(c0[i as int]));
            } else {
                assert(strings_view(kept@) =~= before + Seq::<Seq<char>>::empty());
            }
            i += 1;
        }
        assert(c0.take(cols@.len() as int) =~= c0);
        *cols = kept;
        let q = drop_column_sql(t, x);
        let ghost before = strings_view(out@);
        let ghost qv = q@;
        out.push(q);
        assert(strings_view(out@) =~= before.push(qv));
    }
}

/// The statements that bring table `t`, with columns `table_columns`, up to
/// date.
pub fn migration_statements(t: &str, table_columns: &[String]) -> (r: Vec<String>)
    ensures
        strings_view(r@) == migration_spec(t@, strings_view(table_columns@)),
{
    let mut cols: Vec<String> = Vec::new();
    let mut i: usize = 0;
    while i < table_columns.len()
        invariant
            i <= table_columns@.len(),
            strings_view(cols@) == strings_view(table_columns@).take(i as int),
        decreases table_columns@.len() - i,
    {
        let ghost before = strings_view(cols@);
        cols.push(table_columns[i].clone());
        assert(strings_view(cols@) =~= before.push(table_columns@[i as int]@));
        assert(strings_view(table_columns@).take(i + 1) =~= strings_view(table_columns@).take(
            i as int,
        ).push(table_columns@[i as int]@));
        i += 1;
    }
    assert(strings_view(table_columns@).take(table_columns@.len() as int) =~= strings_view(table_columns@));
    let mut out: Vec<String> = Vec::new();
    assert(strings_view(out@) =~= Seq::<Seq<char>>::empty());
    rename_step_exec(t, &mut cols, &mut out, "Design Item ID", "MPN");
    rename_step_exec(t, &mut cols, &mut out, "Symbols", "Library Ref");
    rename_step_exec(t, &mut cols, &mut out, "Symbol Reference", "Library Ref");
    rename_step_exec(t, &mut cols, &mut out, "Footprints", "Footprint Ref");
    rename_step_exec(t, &mut cols, &mut out, "Footprint Reference", "Footprint Ref");
    rename_step_exec(t, &mut cols, &mut out, "Datasheet", "ComponentLink1URL");
    drop_step_exec(t, &mut cols, &mut out, "Comment");
    drop_step_exec(t, &mut cols, &mut out, "Footprint Filters");
    drop_step_exec(t, &mut cols, &mut out, "Keywords");
    drop_step_exec(t, &mut cols, &mut out, "No BOM");
    drop_step_exec(t, &mut cols, &mut out, "Schematic Only");
    drop_step_exec(t, &mut cols, &mut out, "No Sim");
    drop_step_exec(t, &mut cols, &mut out, "Manufacturer Part Number");
    let missing = missing_base_columns(&cols);
    add_columns_sql(t, &missing, &mut out);
    out
}

// ---------------------------------------------------------------------------
// Queries
// ---------------------------------------------------------------------------

/// The components of a table whose MPN is like parameter 1, by MPN.
pub open spec fn mpn_like_sql_spec(pg: bool, t: Seq<char>) -> Seq<char> {
    component_select_spec(pg, t) + " WHERE "@ + qi_spec("MPN"@) + " LIKE "@ + sql_param_spec(pg, 1)
        + order_by_mpn()
}

pub fn mpn_like_sql(pg: bool, t: &str) -> (r: String)
    ensures
        r@ == mpn_like_sql_spec(pg, t@),
{
    let mut r = component_select(pg, t);
    push_str(&mut r, " WHERE ");
    push_str(&mut r, qi("MPN").as_str());
    push_str(&mut r, " LIKE ");
    push_str(&mut r, sql_param(pg, 1).as_str());
    push_order_by_mpn(&mut r);
    r
}

/// The pattern an MPN search matches (`%<query>%`); none for a blank query.
pub open spec fn mpn_pattern_spec(q: Seq<char>) -> Option<Seq<char>> {
    if trim_seq(q).len() == 0 {
        None
    } else {
        Some("%"@ + q + "%"@)
    }
}

pub fn mpn_pattern(q: &str) -> (r: Option<String>)
    ensures
        match r {
            Some(p) => mpn_pattern_spec(q@) == Some(p@),
            None => mpn_pattern_spec(q@) is None,
        },
{
    if trim_str(q).len() == 0 {
        None
    } else {
        let mut p = "%".to_owned();
        push_str(&mut p, q);
        push_str(&mut p, "%");
        Some(p)
    }
}

/// Whether a table named by parameter 1 exists.
pub open spec fn table_exists_sql_spec(pg: bool) -> Seq<char> {
    if pg {
        "SELECT EXISTS (SELECT 1 FROM information_schema.tables WHERE table_schema=current_schema() AND table_name=$1)"@
    } else {
        "SELECT COUNT(*) > 0 FROM sqlite_master WHERE type='table' AND name=?"@
    }
}

pub fn table_exists_sql(pg: bool) -> (r: String)
    ensures
        r@ == table_exists_sql_spec(pg),
{
    if pg {
        "SELECT EXISTS (SELECT 1 FROM information_schema.tables WHERE table_schema=current_schema() AND table_name=$1)".to_owned()
    } else {
        "SELECT COUNT(*) > 0 FROM sqlite_master WHERE type='table' AND name=?".to_owned()
    }
}

/// The category tables, by name (SQLite's own tables left out).
pub open spec fn tables_sql_spec(pg: bool) -> Seq<char> {
    if pg {
        "SELECT table_name FROM information_schema.tables WHERE table_schema=current_schema() AND table_type='BASE TABLE' ORDER BY table_name"@
    } else {
        "SELECT name FROM sqlite_master WHERE type='table' AND name NOT LIKE 'sqlite_%' ORDER BY name"@
    }
}

pub fn tables_sql(pg: bool) -> (r: String)
    ensures
        r@ == tables_sql_spec(pg),
{
    if pg {
        "SELECT table_name FROM information_schema.tables WHERE table_schema=current_schema() AND table_type='BASE TABLE' ORDER BY table_name".to_owned()
    } else {
        "SELECT name FROM sqlite_master WHERE type='table' AND name NOT LIKE 'sqlite_%' ORDER BY name".to_owned()
    }
}

/// The columns of table `t` in order: on PostgreSQL from the information
/// schema (the table is parameter 1), on SQLite its `table_info`, whose
/// second field is the name.
pub open spec fn columns_sql_spec(pg: bool, t: Seq<char>) -> Seq<char> {
    if pg {
        "SELECT column_name FROM information_schema.columns WHERE table_schema=current_schema() AND table_name=$1 ORDER BY ordinal_position"@
    } else {
        "PRAGMA table_info("@ + qi_spec(t) + ")"@
    }
}

pub fn columns_sql(pg: bool, t: &str) -> (r: String)
    ensures
        r@ == columns_sql_spec(pg, t@),
{
    if pg {
        "SELECT column_name FROM information_schema.columns WHERE table_schema=current_schema() AND table_name=$1 ORDER BY ordinal_position".to_owned()
    } else {
        let mut r = "PRAGMA table_info(".to_owned();
        push_str(&mut r, qi(t).as_str());
        push_str(&mut r, ")");
        r
    }
}

// ---------------------------------------------------------------------------
// Laws
// ---------------------------------------------------------------------------

/// An insert names as many columns as it stores values: each value goes to
/// the column at its position, whatever custom values were given.
pub proof fn insert_columns_match_values(x: Component, cols: Seq<Seq<char>>, es: Seq<Entry>)
    ensures
        insert_columns_spec(cols).len() == insert_values_spec(x, cols, es).len(),
        forall|i: int|
            base_columns().len() <= i < insert_columns_spec(cols).len() ==> #[trigger] insert_values_spec(
                x,
                cols,
                es,
            )[i] == given_or_empty(es, insert_columns_spec(cols)[i]),
{
    assert(base_columns().len() == 18);
    assert(component_values_spec(x).len() == 18);
}

proof fn lemma_concat_contains(a: Seq<Seq<char>>, b: Seq<Seq<char>>, x: Seq<char>)
    ensures
        (a + b).contains(x) <==> (a.contains(x) || b.contains(x)),
{
    if (a + b).contains(x) {
        let i = choose|i: int| 0 <= i < (a + b).len() && (a + b)[i] == x;
        if i < a.len() {
            assert(a[i] == x);
        } else {
            assert(b[i - a.len()] == x);
        }
    }
    if a.contains(x) {
        let i = choose|i: int| 0 <= i < a.len() && a[i] == x;
        assert((a + b)[i] == x);
    }
    if b.contains(x) {
        let i = choose|i: int| 0 <= i < b.len() && b[i] == x;
        assert((a + b)[i + a.len()] == x);
    }
}

proof fn lemma_last_contains(s: Seq<Seq<char>>, x: Seq<char>)
    requires
        s.len() > 0,
    ensures
        s.contains(x) <==> (s.drop_last().contains(x) || s.last() == x),
{
    assert(s =~= s.drop_last() + seq![s.last()]);
    lemma_concat_contains(s.drop_last(), seq![s.last()], x);
    if seq![s.last()].contains(x) {
        let i = choose|i: int| 0 <= i < 1 && seq![s.last()][i] == x;
    }
    if s.last() == x {
        assert(seq![s.last()][0] == x);
    }
}

proof fn lemma_removed_contains(s: Seq<Seq<char>>, x: Seq<char>, c: Seq<char>)
    ensures
        removed(s, x).contains(c) <==> (c != x && s.contains(c)),
    decreases s.len(),
{
    if s.len() > 0 {
        lemma_removed_contains(s.drop_last(), x, c);
        lemma_last_contains(s, c);
        let tail = if s.last() != x {
            seq![s.last()]
        } else {
            Seq::<Seq<char>>::empty()
        };
        lemma_concat_contains(removed(s.drop_last(), x), tail, c);
        if tail.contains(c) {
            let i = choose|i: int| 0 <= i < tail.len() && tail[i] == c;
        }
        if s.last() == c && c != x {
            assert(tail[0] == c);
        }
    } else {
        assert(!s.contains(c));
    }
}

proof fn lemma_renamed_contains(s: Seq<Seq<char>>, a: Seq<char>, b: Seq<char>, c: Seq<char>)
    requires
        a != b,
    ensures
        renamed(s, a, b).contains(c) <==> ((c != a && s.contains(c)) || (c == b && s.contains(a))),
{
    let r = renamed(s, a, b);
    if r.contains(c) {
        let i = choose|i: int| 0 <= i < r.len() && r[i] == c;
        assert(s[i] == a || s[i] == c);
    }
    if c != a && s.contains(c) {
        let i = choose|i: int| 0 <= i < s.len() && s[i] == c;
        assert(r[i] == c);
    }
    if c == b && s.contains(a) {
        let i = choose|i: int| 0 <= i < s.len() && s[i] == a;
        assert(r[i] == c);
    }
}

proof fn lemma_rename_step(t: Seq<char>, st: Upkeep, a: Seq<char>, b: Seq<char>)
    requires
        a != b,
    ensures
        forall|c: Seq<char>|
            c != b && #[trigger] rename_step(t, st, a, b).0.contains(c) ==> st.0.contains(c),
        forall|c: Seq<char>|
            c != a && #[trigger] st.0.contains(c) ==> rename_step(t, st, a, b).0.contains(c),
        rename_step(t, st, a, b).0.contains(a) ==> rename_step(t, st, a, b).0.contains(b),
        rename_step(t, st, a, b).1.len() <= st.1.len() + 1,
{
    if st.0.contains(a) && !st.0.contains(b) {
        assert forall|c: Seq<char>|
            c != b && #[trigger] rename_step(t, st, a, b).0.contains(c) implies st.0.contains(c) by {
            lemma_renamed_contains(st.0, a, b, c);
        }
        assert forall|c: Seq<char>|
            c != a && #[trigger] st.0.contains(c) implies rename_step(t, st, a, b).0.contains(c) by {
            lemma_renamed_contains(st.0, a, b, c);
        }
        lemma_renamed_contains(st.0, a, b, a);
    }
}

proof fn lemma_drop_step(t: Seq<char>, st: Upkeep, x: Seq<char>)
    ensures
        forall|c: Seq<char>| #[trigger] drop_step(t, st, x).0.contains(c) ==> st.0.contains(c),
        forall|c: Seq<char>|
            c != x && #[trigger] st.0.contains(c) ==> drop_step(t, st, x).0.contains(c),
        !drop_step(t, st, x).0.contains(x),
{
    if st.0.contains(x) {
        assert forall|c: Seq<char>| #[trigger] drop_step(t, st, x).0.contains(c) implies st.0.contains(c) by {
            lemma_removed_contains(st.0, x, c);
        }
        assert forall|c: Seq<char>|
            c != x && #[trigger] st.0.contains(c) implies drop_step(t, st, x).0.contains(c) by {
            lemma_removed_contains(st.0, x, c);
        }
        lemma_removed_contains(st.0, x, x);
    }
}

proof fn lemma_absent_from(xs: Seq<Seq<char>>, cols: Seq<Seq<char>>, c: Seq<char>)
    ensures
        absent_from(xs, cols).contains(c) ==> xs.contains(c) && !cols.contains(c),
        xs.contains(c) ==> cols.contains(c) || absent_from(xs, cols).contains(c),
    decreases xs.len(),
{
    if xs.len() > 0 {
        lemma_absent_from(xs.drop_last(), cols, c);
        lemma_last_contains(xs, c);
        let tail = if !cols.contains(xs.last()) {
            seq![xs.last()]
        } else {
            Seq::<Seq<char>>::empty()
        };
        lemma_concat_contains(absent_from(xs.drop_last(), cols), tail, c);
        if tail.contains(c) {
            let i = choose|i: int| 0 <= i < tail.len() && tail[i] == c;
        }
        if xs.last() == c && !cols.contains(c) {
            assert(tail[0] == c);
        }
    } else {
        assert(!xs.contains(c));
    }
}

proof fn lemma_absent_none(xs: Seq<Seq<char>>, cols: Seq<Seq<char>>)
    requires
        forall|c: Seq<char>| #[trigger] xs.contains(c) ==> cols.contains(c),
    ensures
        absent_from(xs, cols).len() == 0,
    decreases xs.len(),
{
    if xs.len() > 0 {
        assert forall|c: Seq<char>| #[trigger] xs.drop_last().contains(c) implies cols.contains(c) by {
            lemma_last_contains(xs, c);
        }
        lemma_absent_none(xs.drop_last(), cols);
        lemma_last_contains(xs, xs.last());
    }
}

/// The old column names that migration renames, each with its new name.
pub open spec fn renamed_pairs_hold(cols: Seq<Seq<char>>) -> bool {
    &&& cols.contains("Design Item ID"@) ==> cols.contains("MPN"@)
    &&& cols.contains("Symbols"@) ==> cols.contains("Library Ref"@)
    &&& cols.contains("Symbol Reference"@) ==> cols.contains("Library Ref"@)
    &&& cols.contains("Footprints"@) ==> cols.contains("Footprint Ref"@)
    &&& cols.contains("Footprint Reference"@) ==> cols.contains("Footprint Ref"@)
    &&& cols.contains("Datasheet"@) ==> cols.contains("ComponentLink1URL"@)
}

/// No retired column is left.
pub open spec fn retired_gone(cols: Seq<Seq<char>>) -> bool {
    &&& !cols.contains("Comment"@)
    &&& !cols.contains("Footprint Filters"@)
    &&& !cols.contains("Keywords"@)
    &&& !cols.contains("No BOM"@)
    &&& !cols.contains("Schematic Only"@)
    &&& !cols.contains("No Sim"@)
    &&& !cols.contains("Manufacturer Part Number"@)
}

proof fn lemma_renames_done(t: Seq<char>, s0: Upkeep)
    ensures
        renamed_pairs_hold(renames_done(t, s0).0),
{
    reveal_strlit("Design Item ID");
    reveal_strlit("MPN");
    reveal_strlit("Symbols");
    reveal_strlit("Library Ref");
    reveal_strlit("Symbol Reference");
    reveal_strlit("Footprints");
    reveal_strlit("Footprint Ref");
    reveal_strlit("Footprint Reference");
    reveal_strlit("Datasheet");
    reveal_strlit("ComponentLink1URL");
    // The names are told apart by their lengths and a few of their letters.
    assert("Design Item ID"@.len() == 14 && "Design Item ID"@[0] == 'D');
    assert("MPN"@.len() == 3 && "MPN"@[0] == 'M');
    assert("Symbols"@.len() == 7 && "Symbols"@[0] == 'S');
    assert("Library Ref"@.len() == 11 && "Library Ref"@[0] == 'L');
    assert("Symbol Reference"@.len() == 16 && "Symbol Reference"@[0] == 'S');
    assert("Footprints"@.len() == 10 && "Footprints"@[0] == 'F');
    assert("Footprint Ref"@.len() == 13 && "Footprint Ref"@[0] == 'F');
    assert("Footprint Reference"@.len() == 19 && "Footprint Reference"@[0] == 'F');
    assert("Datasheet"@.len() == 9 && "Datasheet"@[0] == 'D');
    assert("ComponentLink1URL"@.len() == 17 && "ComponentLink1URL"@[0] == 'C');
    let s1 = rename_step(t, s0, "Design Item ID"@, "MPN"@);
    let s2 = rename_step(t, s1, "Symbols"@, "Library Ref"@);
    let s3 = rename_step(t, s2, "Symbol Reference"@, "Library Ref"@);
    let s4 = rename_step(t, s3, "Footprints"@, "Footprint Ref"@);
    let s5 = rename_step(t, s4, "Footprint Reference"@, "Footprint Ref"@);
    let s6 = rename_step(t, s5, "Datasheet"@, "ComponentLink1URL"@);
    lemma_rename_step(t, s0, "Design Item ID"@, "MPN"@);
    lemma_rename_step(t, s1, "Symbols"@, "Library Ref"@);
    lemma_rename_step(t, s2, "Symbol Reference"@, "Library Ref"@);
    lemma_rename_step(t, s3, "Footprints"@, "Footprint Ref"@);
    lemma_rename_step(t, s4, "Footprint Reference"@, "Footprint Ref"@);
    lemma_rename_step(t, s5, "Datasheet"@, "ComponentLink1URL"@);
}

proof fn lemma_retired_dropped(t: Seq<char>, s6: Upkeep)
    requires
        renamed_pairs_hold(s6.0),
    ensures
        renamed_pairs_hold(retired_dropped(t, s6).0),
        retired_gone(retired_dropped(t, s6).0),
{
    reveal_strlit("MPN");
    reveal_strlit("Library Ref");
    reveal_strlit("Footprint Ref");
    reveal_strlit("ComponentLink1URL");
    reveal_strlit("Comment");
    reveal_strlit("Footprint Filters");
    reveal_strlit("Keywords");
    reveal_strlit("No BOM");
    reveal_strlit("Schematic Only");
    reveal_strlit("No Sim");
    reveal_strlit("Manufacturer Part Number");
    // The names are told apart by their lengths and a few of their letters.
    assert("MPN"@.len() == 3 && "MPN"@[0] == 'M');
    assert("Library Ref"@.len() == 11 && "Library Ref"@[0] == 'L');
    assert("Footprint Ref"@.len() == 13 && "Footprint Ref"@[0] == 'F');
    assert("ComponentLink1URL"@.len() == 17 && "ComponentLink1URL"@[0] == 'C');
    assert("Comment"@.len() == 7 && "Comment"@[0] == 'C');
    assert("Footprint Filters"@.len() == 17 && "Footprint Filters"@[0] == 'F');
    assert("Keywords"@.len() == 8 && "Keywords"@[0] == 'K');
    assert("No BOM"@.len() == 6 && "No BOM"@[0] == 'N');
    assert("Schematic Only"@.len() == 14 && "Schematic Only"@[0] == 'S');
    assert("No Sim"@.len() == 6 && "No Sim"@[0] == 'N');
    assert("Manufacturer Part Number"@.len() == 24 && "Manufacturer Part Number"@[0] == 'M');
    let d1 = drop_step(t, s6, "Comment"@);
    let d2 = drop_step(t, d1, "Footprint Filters"@);
    let d3 = drop_step(t, d2, "Keywords"@);
    let d4 = drop_step(t, d3, "No BOM"@);
    let d5 = drop_step(t, d4, "Schematic Only"@);
    let d6 = drop_step(t, d5, "No Sim"@);
    let d7 = drop_step(t, d6, "Manufacturer Part Number"@);
    lemma_drop_step(t, s6, "Comment"@);
    lemma_drop_step(t, d1, "Footprint Filters"@);
    lemma_drop_step(t, d2, "Keywords"@);
    lemma_drop_step(t, d3, "No BOM"@);
    lemma_drop_step(t, d4, "Schematic Only"@);
    lemma_drop_step(t, d5, "No Sim"@);
    lemma_drop_step(t, d6, "Manufacturer Part Number"@);
}

/// None of the renamed or retired names is a column that migration adds.
proof fn lemma_not_late(c: Seq<char>)
    requires
        c == "Design Item ID"@ || c == "Symbols"@ || c == "Symbol Reference"@ || c == "Footprints"@
            || c == "Footprint Reference"@ || c == "Datasheet"@ || c == "Comment"@ || c
            == "Footprint Filters"@ || c == "Keywords"@ || c == "No BOM"@ || c == "Schematic Only"@
            || c == "No Sim"@ || c == "Manufacturer Part Number"@,
    ensures
        !late_columns().contains(c),
{
    reveal_strlit("Design Item ID");
    reveal_strlit("Symbols");
    reveal_strlit("Symbol Reference");
    reveal_strlit("Footprints");
    reveal_strlit("Footprint Reference");
    reveal_strlit("Datasheet");
    reveal_strlit("Comment");
    reveal_strlit("Footprint Filters");
    reveal_strlit("Keywords");
    reveal_strlit("No BOM");
    reveal_strlit("Schematic Only");
    reveal_strlit("No Sim");
    reveal_strlit("Manufacturer Part Number");
    reveal_strlit("ComponentLink1Description");
    reveal_strlit("ComponentLink1URL");
    reveal_strlit("ComponentLink2Description");
    reveal_strlit("ComponentLink2URL");
    reveal_strlit("ComponentLink3Description");
    reveal_strlit("ComponentLink3URL");
    reveal_strlit("Library Path");
    reveal_strlit("Footprint Path");
    reveal_strlit("Footprint Ref 2");
    reveal_strlit("Footprint Path 2");
    reveal_strlit("Footprint Ref 3");
    reveal_strlit("Footprint Path 3");
    // The names are told apart by their lengths and a few of their letters.
    assert("Design Item ID"@.len() == 14 && "Design Item ID"@[0] == 'D');
    assert("Symbols"@.len() == 7 && "Symbols"@[0] == 'S');
    assert("Symbol Reference"@.len() == 16 && "Symbol Reference"@[0] == 'S');
    assert("Footprints"@.len() == 10 && "Footprints"@[0] == 'F');
    assert("Footprint Reference"@.len() == 19 && "Footprint Reference"@[0] == 'F');
    assert("Datasheet"@.len() == 9 && "Datasheet"@[0] == 'D');
    assert("Comment"@.len() == 7 && "Comment"@[0] == 'C');
    assert("Footprint Filters"@.len() == 17 && "Footprint Filters"@[0] == 'F');
    assert("Keywords"@.len() == 8 && "Keywords"@[0] == 'K');
    assert("No BOM"@.len() == 6 && "No BOM"@[0] == 'N');
    assert("Schematic Only"@.len() == 14 && "Schematic Only"@[0] == 'S');
    assert("No Sim"@.len() == 6 && "No Sim"@[0] == 'N');
    assert("Manufacturer Part Number"@.len() == 24 && "Manufacturer Part Number"@[0] == 'M');
    assert("ComponentLink1Description"@.len() == 25 && "ComponentLink1Description"@[0] == 'C');
    assert("ComponentLink1URL"@.len() == 17 && "ComponentLink1URL"@[0] == 'C');
    assert("ComponentLink2Description"@.len() == 25 && "ComponentLink2Description"@[0] == 'C');
    assert("ComponentLink2URL"@.len() == 17 && "ComponentLink2URL"@[0] == 'C');
    assert("ComponentLink3Description"@.len() == 25 && "ComponentLink3Description"@[0] == 'C');
    assert("ComponentLink3URL"@.len() == 17 && "ComponentLink3URL"@[0] == 'C');
    assert("Library Path"@.len() == 12 && "Library Path"@[0] == 'L');
    assert("Footprint Path"@.len() == 14 && "Footprint Path"@[0] == 'F');
    assert("Footprint Ref 2"@.len() == 15 && "Footprint Ref 2"@[0] == 'F');
    assert("Footprint Path 2"@.len() == 16 && "Footprint Path 2"@[0] == 'F');
    assert("Footprint Ref 3"@.len() == 15 && "Footprint Ref 3"@[0] == 'F');
    assert("Footprint Path 3"@.len() == 16 && "Footprint Path 3"@[0] == 'F');
    if late_columns().contains(c) {
        let i = choose|i: int| 0 <= i < late_columns().len() && late_columns()[i] == c;
        assert(c.len() == late_columns()[i].len() && c[0] == late_columns()[i][0]);
        assert(false);
    }
}

/// Bringing a table up to date settles it: on the columns that migration
/// leaves, migration has nothing more to do, so running it at every start
/// changes a table once.
pub proof fn migration_settles(t: Seq<char>, cols: Seq<Seq<char>>)
    ensures
        migration_spec(t, migration_run(t, cols).0) == Seq::<Seq<char>>::empty(),
{
    let s6 = renames_done(t, (cols, Seq::empty()));
    lemma_renames_done(t, (cols, Seq::empty()));
    let d = retired_dropped(t, s6);
    lemma_retired_dropped(t, s6);
    let f = migration_run(t, cols).0;
    let added = missing_late_columns_spec(d.0);
    assert(f == d.0 + added);
    assert forall|c: Seq<char>| #[trigger] f.contains(c) <==> (d.0.contains(c) || added.contains(c)) by {
        lemma_concat_contains(d.0, added, c);
    }
    assert forall|c: Seq<char>| #[trigger] added.contains(c) implies late_columns().contains(c) by {
        lemma_absent_from(late_columns(), d.0, c);
    }
    assert forall|c: Seq<char>| #[trigger] late_columns().contains(c) implies f.contains(c) by {
        lemma_absent_from(late_columns(), d.0, c);
    }
    lemma_absent_none(late_columns(), f);
    lemma_not_late("Design Item ID"@);
    lemma_not_late("Symbols"@);
    lemma_not_late("Symbol Reference"@);
    lemma_not_late("Footprints"@);
    lemma_not_late("Footprint Reference"@);
    lemma_not_late("Datasheet"@);
    lemma_not_late("Comment"@);
    lemma_not_late("Footprint Filters"@);
    lemma_not_late("Keywords"@);
    lemma_not_late("No BOM"@);
    lemma_not_late("Schematic Only"@);
    lemma_not_late("No Sim"@);
    lemma_not_late("Manufacturer Part Number"@);
    assert(renamed_pairs_hold(f));
    assert(retired_gone(f));
    let e: Upkeep = (f, Seq::empty());
    assert(renames_done(t, e) == e);
    assert(retired_dropped(t, e) == e);
    assert(missing_late_columns_spec(f).len() == 0);
    assert(migration_spec(t, f) =~= Seq::<Seq<char>>::empty());
}

} // verus!
