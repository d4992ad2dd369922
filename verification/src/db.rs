//! The component database's SQL text and connection settings: quoting,
//! parameter placeholders, statements for the component tables, PostgreSQL
//! connection strings and the conversion of text values to PostgreSQL
//! parameter kinds. Executing statements is the caller's part.

use vstd::prelude::*;
use crate::text::{
    chars_eq, chars_of, dec, eq_ignore_ascii_case, find_char, find_first, is_whitespace,
    join_strings, join_with, lower_chars, lower_seq, parse_i64_chars, parse_i64_radix, push_char,
    push_dec, push_str, str_eq, string_from_chars, strings_view, trim_chars, trim_seq,
    char_is_whitespace, chars_eq_ignore_ascii_case,
};
use crate::altium::sch::{is_float_text, is_float_text_exec};

verus! {

broadcast use vstd::string::group_string_axioms;

/// A component row of a category table.
#[derive(Debug, Clone, Default)]
pub struct Component {
    pub id: String,
    pub mpn: String,
    pub manufacturer: String,
    pub description: String,
    pub verified: bool,
    pub library_ref: String,
    pub library_path: String,
    pub footprint_ref: String,
    pub footprint_path: String,
    pub footprint_ref2: String,
    pub footprint_path2: String,
    pub footprint_ref3: String,
    pub footprint_path3: String,
    pub component_link1_description: String,
    pub component_link1_url: String,
    pub component_link2_description: String,
    pub component_link2_url: String,
    pub component_link3_description: String,
    pub component_link3_url: String,
}

/// The standard columns of every category table, in storage order.
pub open spec fn base_columns() -> Seq<Seq<char>> {
    seq![
        "MPN"@,
        "Manufacturer"@,
        "Description"@,
        "Verified"@,
        "Library Ref"@,
        "Library Path"@,
        "Footprint Ref"@,
        "Footprint Path"@,
        "Footprint Ref 2"@,
        "Footprint Path 2"@,
        "Footprint Ref 3"@,
        "Footprint Path 3"@,
        "ComponentLink1Description"@,
        "ComponentLink1URL"@,
        "ComponentLink2Description"@,
        "ComponentLink2URL"@,
        "ComponentLink3Description"@,
        "ComponentLink3URL"@,
    ]
}

/// The standard column names.
pub fn base_column_names() -> (v: Vec<String>)
    ensures
        strings_view(v@) == base_columns(),
{
    let mut v: Vec<String> = Vec::new();
    v.push("MPN".to_owned());
    v.push("Manufacturer".to_owned());
    v.push("Description".to_owned());
    v.push("Verified".to_owned());
    v.push("Library Ref".to_owned());
    v.push("Library Path".to_owned());
    v.push("Footprint Ref".to_owned());
    v.push("Footprint Path".to_owned());
    v.push("Footprint Ref 2".to_owned());
    v.push("Footprint Path 2".to_owned());
    v.push("Footprint Ref 3".to_owned());
    v.push("Footprint Path 3".to_owned());
    v.push("ComponentLink1Description".to_owned());
    v.push("ComponentLink1URL".to_owned());
    v.push("ComponentLink2Description".to_owned());
    v.push("ComponentLink2URL".to_owned());
    v.push("ComponentLink3Description".to_owned());
    v.push("ComponentLink3URL".to_owned());
    assert(strings_view(v@) =~= base_columns());
    v
}

// ---------------------------------------------------------------------------
// Quoting and placeholders
// ---------------------------------------------------------------------------

/// `s` with every `"` doubled.
pub open spec fn double_quotes(s: Seq<char>) -> Seq<char>
    decreases s.len(),
{
    if s.len() == 0 {
        Seq::empty()
    } else {
        double_quotes(s.drop_last()) + if s.last() == '"' {
            seq!['"', '"']
        } else {
            seq![s.last()]
        }
    }
}

/// A quoted SQL identifier.
pub open spec fn qi_spec(s: Seq<char>) -> Seq<char> {
    seq!['"'] + double_quotes(s) + seq!['"']
}

/// Quotes an SQL identifier.
pub fn qi(s: &str) -> (r: String)
    ensures
        r@ == qi_spec(s@),
{
    let v = chars_of(s);
    let mut r = String::new();
    push_char(&mut r, '"');
    let mut i: usize = 0;
    while i < v.len()
        invariant
            i <= v@.len(),
            v@ == s@,
            r@ == seq!['"'] + double_quotes(v@.take(i as int)),
        decreases v@.len() - i,
    {
        proof {
            assert(v@.take(i + 1).drop_last() =~= v@.take(i as int));
            assert(v@.take(i + 1).last() == v@[i as int]);
        }
        push_char(&mut r, v[i]);
        if v[i] == '"' {
            push_char(&mut r, '"');
        }
        assert(r@ =~= seq!['"'] + double_quotes(v@.take(i + 1)));
        i += 1;
    }
    push_char(&mut r, '"');
    assert(v@.take(v@.len() as int) =~= v@);
    assert(r@ =~= qi_spec(s@));
    r
}

/// Placeholder of parameter `n`: `$n` for PostgreSQL, `?` for SQLite.
pub open spec fn sql_param_spec(pg: bool, n: nat) -> Seq<char> {
    if pg {
        seq!['$'] + dec(n)
    } else {
        "?"@
    }
}

pub fn sql_param(pg: bool, n: usize) -> (r: String)
    ensures
        r@ == sql_param_spec(pg, n as nat),
{
    if pg {
        let mut r = String::new();
        push_char(&mut r, '$');
        push_dec(&mut r, n as u64);
        assert(r@ =~= seq!['$'] + dec(n as nat));
        r
    } else {
        "?".to_owned()
    }
}

/// PostgreSQL cast of text parameter `n` to column type `ty`; numeric
/// (`N`) and boolean (`B`) categories map the empty text to NULL. The wire
/// parameter stays text, so domains and user-defined types work too.
pub open spec fn pg_cast_spec(n: nat, ty: Seq<char>, category: Seq<char>) -> Seq<char> {
    let value = if category == "N"@ || category == "B"@ {
        "NULLIF($"@ + dec(n) + "::text, '')"@
    } else {
        "$"@ + dec(n) + "::text"@
    };
    "CAST("@ + value + " AS "@ + ty + ")"@
}

pub fn pg_cast_expression(n: usize, ty: &str, category: &str) -> (r: String)
    ensures
        r@ == pg_cast_spec(n as nat, ty@, category@),
{
    let mut value = String::new();
    if str_eq(category, "N") || str_eq(category, "B") {
        push_str(&mut value, "NULLIF($");
        push_dec(&mut value, n as u64);
        push_str(&mut value, "::text, '')");
    } else {
        push_str(&mut value, "$");
        push_dec(&mut value, n as u64);
        push_str(&mut value, "::text");
    }
    let mut r = String::new();
    push_str(&mut r, "CAST(");
    push_str(&mut r, value.as_str());
    push_str(&mut r, " AS ");
    push_str(&mut r, ty);
    push_str(&mut r, ")");
    assert(r@ =~= pg_cast_spec(n as nat, ty@, category@));
    r
}

// ---------------------------------------------------------------------------
// PostgreSQL values
// ---------------------------------------------------------------------------

#[derive(Debug, Clone, Copy, PartialEq, Eq, Structural)]
pub enum PgValueKind {
    Text,
    Integer,
    Boolean,
    Float,
}

/// How a column of the given `information_schema` data type and UDT name
/// takes its values.
pub open spec fn pg_kind_spec(data_type: Seq<char>, udt_name: Seq<char>) -> PgValueKind {
    if data_type == "smallint"@ || data_type == "integer"@ || data_type == "bigint"@ || (data_type
        == "USER-DEFINED"@ && (udt_name == "serial"@ || udt_name == "bigserial"@)) {
        PgValueKind::Integer
    } else if data_type == "boolean"@ {
        PgValueKind::Boolean
    } else if data_type == "real"@ || data_type == "double precision"@ || data_type == "numeric"@
        || data_type == "decimal"@ {
        PgValueKind::Float
    } else {
        PgValueKind::Text
    }
}

pub fn pg_value_kind(data_type: &str, udt_name: &str) -> (k: PgValueKind)
    ensures
        k == pg_kind_spec(data_type@, udt_name@),
{
    if str_eq(data_type, "smallint") || str_eq(data_type, "integer") || str_eq(data_type, "bigint")
        || (str_eq(data_type, "USER-DEFINED") && (str_eq(udt_name, "serial") || str_eq(
        udt_name,
        "bigserial",
    ))) {
        PgValueKind::Integer
    } else if str_eq(data_type, "boolean") {
        PgValueKind::Boolean
    } else if str_eq(data_type, "real") || str_eq(data_type, "double precision") || str_eq(
        data_type,
        "numeric",
    ) || str_eq(data_type, "decimal") {
        PgValueKind::Float
    } else {
        PgValueKind::Text
    }
}

/// A parameter value converted for its column kind; floats keep their
/// text, which `f64` parses.
#[derive(Debug, Clone)]
pub enum PgValue {
    Text(String),
    Integer(i64),
    Boolean(bool),
    Float(String),
}

pub enum PgValueSpec {
    Text(Seq<char>),
    Integer(i64),
    Boolean(bool),
    Float(Seq<char>),
}

impl View for PgValue {
    type V = PgValueSpec;

    open spec fn view(&self) -> PgValueSpec {
        match self {
            PgValue::Text(s) => PgValueSpec::Text(s@),
            PgValue::Integer(i) => PgValueSpec::Integer(*i),
            PgValue::Boolean(b) => PgValueSpec::Boolean(*b),
            PgValue::Float(s) => PgValueSpec::Float(s@),
        }
    }
}

/// Boolean spellings: 1/true/t/yes/y and 0/false/f/no/n, trimmed, in any
/// ASCII case.
pub open spec fn pg_bool_spec(v: Seq<char>) -> Option<bool> {
    let l = lower_seq(trim_seq(v));
    if l == "1"@ || l == "true"@ || l == "t"@ || l == "yes"@ || l == "y"@ {
        Some(true)
    } else if l == "0"@ || l == "false"@ || l == "f"@ || l == "no"@ || l == "n"@ {
        Some(false)
    } else {
        None
    }
}

/// The conversion of a text value for a column kind: integers as
/// `i64::from_str` reads them, booleans by their spellings, floats as
/// `f64::from_str` accepts them; anything else is an error naming the kind.
pub open spec fn pg_convert_spec(kind: PgValueKind, v: Seq<char>) -> Result<PgValueSpec, Seq<char>> {
    match kind {
        PgValueKind::Text => Ok(PgValueSpec::Text(v)),
        PgValueKind::Integer => match parse_i64_radix(v, 10) {
            Some(i) => Ok(PgValueSpec::Integer(i)),
            None => Err("invalid PostgreSQL integer value: "@ + v),
        },
        PgValueKind::Boolean => match pg_bool_spec(v) {
            Some(b) => Ok(PgValueSpec::Boolean(b)),
            None => Err("invalid PostgreSQL boolean value: "@ + v),
        },
        PgValueKind::Float => if is_float_text(v) {
            Ok(PgValueSpec::Float(v))
        } else {
            Err("invalid PostgreSQL numeric value: "@ + v)
        },
    }
}

fn is_any_of(l: &[char], a: &str, b: &str, c: &str, d: &str, e: &str) -> (r: bool)
    ensures
        r == (l@ == a@ || l@ == b@ || l@ == c@ || l@ == d@ || l@ == e@),
{
    chars_eq(l, &chars_of(a)) || chars_eq(l, &chars_of(b)) || chars_eq(l, &chars_of(c))
        || chars_eq(l, &chars_of(d)) || chars_eq(l, &chars_of(e))
}

fn message(prefix: &str, v: &str) -> (m: String)
    ensures
        m@ == prefix@ + v@,
{
    let mut m = String::new();
    push_str(&mut m, prefix);
    push_str(&mut m, v);
    assert(m@ =~= prefix@ + v@);
    m
}

/// Converts a text value for a column of the given kind.
pub fn convert_pg_value(kind: PgValueKind, value: &str) -> (r: Result<PgValue, String>)
    ensures
        match r {
            Ok(x) => pg_convert_spec(kind, value@) == Ok::<PgValueSpec, Seq<char>>(x@),
            Err(m) => pg_convert_spec(kind, value@) == Err::<PgValueSpec, Seq<char>>(m@),
        },
{
    match kind {
        PgValueKind::Text => Ok(PgValue::Text(value.to_owned())),
        PgValueKind::Integer => match parse_i64_chars(&chars_of(value), 10) {
            Some(i) => Ok(PgValue::Integer(i)),
            None => Err(message("invalid PostgreSQL integer value: ", value)),
        },
        PgValueKind::Boolean => {
            let l = lower_chars(&trim_chars(&chars_of(value)));
            if is_any_of(&l, "1", "true", "t", "yes", "y") {
                Ok(PgValue::Boolean(true))
            } else if is_any_of(&l, "0", "false", "f", "no", "n") {
                Ok(PgValue::Boolean(false))
            } else {
                Err(message("invalid PostgreSQL boolean value: ", value))
            }
        },
        PgValueKind::Float => {
            if is_float_text_exec(&chars_of(value)) {
                Ok(PgValue::Float(value.to_owned()))
            } else {
                Err(message("invalid PostgreSQL numeric value: ", value))
            }
        },
    }
}


// ---------------------------------------------------------------------------
// PostgreSQL connection strings
// ---------------------------------------------------------------------------

/// `key=value` for a setting whose trimmed value is not empty.
pub open spec fn pg_pair(key: Seq<char>, v: Seq<char>) -> Seq<Seq<char>> {
    if trim_seq(v).len() == 0 {
        Seq::empty()
    } else {
        seq![key + "="@ + trim_seq(v)]
    }
}

/// The libpq connection string of the given settings: `key=value` pairs
/// separated by single spaces, values trimmed, empty settings left out.
pub open spec fn pg_conn_spec(
    host: Seq<char>,
    port: Seq<char>,
    database: Seq<char>,
    user: Seq<char>,
    password: Seq<char>,
) -> Seq<char> {
    join_with(
        pg_pair("host"@, host) + pg_pair("port"@, port) + pg_pair("dbname"@, database) + pg_pair(
            "user"@,
            user,
        ) + pg_pair("password"@, password),
        " "@,
    )
}

fn push_pair(parts: &mut Vec<String>, key: &str, value: &str)
    ensures
        strings_view(final(parts)@) == strings_view(old(parts)@) + pg_pair(key@, value@),
{
    let t = trim_chars(&chars_of(value));
    if t.len() > 0 {
        let mut e = String::new();
        push_str(&mut e, key);
        push_str(&mut e, "=");
        let tv = string_from_chars(&t);
        push_str(&mut e, tv.as_str());
        let ghost ev = e@;
        assert(ev =~= key@ + "="@ + trim_seq(value@));
        parts.push(e);
        assert(strings_view(parts@) =~= strings_view(old(parts)@).push(ev));
    } else {
        assert(strings_view(parts@) =~= strings_view(old(parts)@) + Seq::<Seq<char>>::empty());
    }
}

/// Builds a PostgreSQL connection string from its settings.
pub fn postgres_connection_string(
    host: &str,
    port: &str,
    database: &str,
    user: &str,
    password: &str,
) -> (r: String)
    ensures
        r@ == pg_conn_spec(host@, port@, database@, user@, password@),
{
    let mut parts: Vec<String> = Vec::new();
    assert(strings_view(parts@) =~= Seq::<Seq<char>>::empty());
    push_pair(&mut parts, "host", host);
    push_pair(&mut parts, "port", port);
    push_pair(&mut parts, "dbname", database);
    push_pair(&mut parts, "user", user);
    push_pair(&mut parts, "password", password);
    assert(strings_view(parts@) =~= pg_pair("host"@, host@) + pg_pair("port"@, port@) + pg_pair(
        "dbname"@,
        database@,
    ) + pg_pair("user"@, user@) + pg_pair("password"@, password@));
    join_strings(&parts, " ")
}

/// Whitespace-separated words (`str::split_whitespace`): the finished
/// words and the word in progress.
pub open spec fn words_acc(s: Seq<char>) -> (Seq<Seq<char>>, Seq<char>)
    decreases s.len(),
{
    if s.len() == 0 {
        (Seq::empty(), Seq::empty())
    } else {
        let (ws, cur) = words_acc(s.drop_last());
        if is_whitespace(s.last()) {
            if cur.len() > 0 {
                (ws.push(cur), Seq::empty())
            } else {
                (ws, Seq::empty())
            }
        } else {
            (ws, cur.push(s.last()))
        }
    }
}

pub open spec fn words(s: Seq<char>) -> Seq<Seq<char>> {
    let (ws, cur) = words_acc(s);
    if cur.len() > 0 {
        ws.push(cur)
    } else {
        ws
    }
}

pub open spec fn is_quote(c: char) -> bool {
    c == '\'' || c == '"'
}

pub open spec fn trim_quotes_start(s: Seq<char>) -> Seq<char>
    decreases s.len(),
{
    if s.len() > 0 && is_quote(s[0]) {
        trim_quotes_start(s.drop_first())
    } else {
        s
    }
}

pub open spec fn trim_quotes_end(s: Seq<char>) -> Seq<char>
    decreases s.len(),
{
    if s.len() > 0 && is_quote(s.last()) {
        trim_quotes_end(s.drop_last())
    } else {
        s
    }
}

/// `s` without leading and trailing quote characters (`'` and `"`).
pub open spec fn trim_quotes(s: Seq<char>) -> Seq<char> {
    trim_quotes_end(trim_quotes_start(s))
}

/// Which setting a connection-string key names (ASCII case ignored):
/// 0 host, 1 port, 2 database (`dbname`/`database`), 3 user
/// (`user`/`username`), 4 password (`password`/`pass`).
pub open spec fn pg_key_index(k: Seq<char>) -> Option<int> {
    let l = lower_seq(k);
    if l == "host"@ {
        Some(0)
    } else if l == "port"@ {
        Some(1)
    } else if l == "dbname"@ || l == "database"@ {
        Some(2)
    } else if l == "user"@ || l == "username"@ {
        Some(3)
    } else if l == "password"@ || l == "pass"@ {
        Some(4)
    } else {
        None
    }
}

pub open spec fn pg_fields_step(f: Seq<Seq<char>>, w: Seq<char>) -> Seq<Seq<char>> {
    match find_first(w, |c: char| c == '=') {
        Some(e) => match pg_key_index(w.take(e)) {
            Some(i) => f.update(i, trim_quotes(w.skip(e + 1))),
            None => f,
        },
        None => f,
    }
}

pub open spec fn pg_fields_run(f: Seq<Seq<char>>, ws: Seq<Seq<char>>) -> Seq<Seq<char>>
    decreases ws.len(),
{
    if ws.len() == 0 {
        f
    } else {
        pg_fields_step(pg_fields_run(f, ws.drop_last()), ws.last())
    }
}

pub open spec fn no_fields() -> Seq<Seq<char>> {
    seq![Seq::empty(), Seq::empty(), Seq::empty(), Seq::empty(), Seq::empty()]
}

/// The settings (host, port, database, user, password) of a connection
/// string: each `key=value` word sets its setting (the last one wins),
/// quotes around values are dropped, other words are ignored.
pub open spec fn parse_pg_spec(s: Seq<char>) -> Seq<Seq<char>> {
    pg_fields_run(no_fields(), words(s))
}

fn trim_quotes_exec(v: &[char]) -> (r: Vec<char>)
    ensures
        r@ == trim_quotes(v@),
{
    let mut a: usize = 0;
    assert(v@.skip(0) =~= v@);
    while a < v.len() && (v[a] == '\'' || v[a] == '"')
        invariant
            a <= v@.len(),
            trim_quotes_start(v@) == trim_quotes_start(v@.skip(a as int)),
        decreases v@.len() - a,
    {
        assert(v@.skip(a as int).drop_first() =~= v@.skip(a + 1));
        a += 1;
    }
    assert(trim_quotes_start(v@.skip(a as int)) == v@.skip(a as int));
    let mut b: usize = v.len();
    while b > a && (v[b - 1] == '\'' || v[b - 1] == '"')
        invariant
            a <= b <= v@.len(),
            trim_quotes(v@) == trim_quotes_end(v@.subrange(a as int, b as int)),
            trim_quotes_start(v@) == v@.skip(a as int),
        decreases b - a,
    {
        assert(v@.subrange(a as int, b as int).drop_last() =~= v@.subrange(a as int, b - 1));
        b -= 1;
    }
    vstd::slice::slice_to_vec(vstd::slice::slice_subrange(v, a, b))
}

fn pg_key_index_exec(k: &[char]) -> (r: Option<usize>)
    ensures
        match r {
            Some(i) => pg_key_index(k@) == Some(i as int),
            None => pg_key_index(k@) is None,
        },
{
    let l = lower_chars(k);
    if chars_eq(&l, &chars_of("host")) {
        Some(0)
    } else if chars_eq(&l, &chars_of("port")) {
        Some(1)
    } else if chars_eq(&l, &chars_of("dbname")) || chars_eq(&l, &chars_of("database")) {
        Some(2)
    } else if chars_eq(&l, &chars_of("user")) || chars_eq(&l, &chars_of("username")) {
        Some(3)
    } else if chars_eq(&l, &chars_of("password")) || chars_eq(&l, &chars_of("pass")) {
        Some(4)
    } else {
        None
    }
}

fn pg_fields_step_exec(f: &mut Vec<Vec<char>>, w: &[char])
    requires
        old(f)@.len() == 5,
    ensures
        final(f)@.len() == 5,
        final(f)@.map_values(|x: Vec<char>| x@) == pg_fields_step(
            old(f)@.map_values(|x: Vec<char>| x@),
            w@,
        ),
{
    let ghost f0 = f@.map_values(|x: Vec<char>| x@);
    let e = match find_char(w, '=') {
        Some(e) => e,
        None => return ,
    };
    let key = vstd::slice::slice_subrange(w, 0, e);
    let val = vstd::slice::slice_subrange(w, e + 1, w.len());
    assert(key@ =~= w@.take(e as int));
    assert(val@ =~= w@.skip(e + 1));
    match pg_key_index_exec(key) {
        Some(i) => {
            let t = trim_quotes_exec(val);
            let ghost tv = t@;
            f.set(i, t);
            assert(f@.map_values(|x: Vec<char>| x@) =~= f0.update(i as int, tv));
        },
        None => {},
    }
}

/// Reads the settings (host, port, database, user, password) of a
/// PostgreSQL connection string.
pub fn parse_postgres_connection_string(value: &str) -> (r: [String; 5])
    ensures
        strings_view(r@) == parse_pg_spec(value@),
{
    let v = chars_of(value);
    let mut f: Vec<Vec<char>> = Vec::new();
    f.push(Vec::new());
    f.push(Vec::new());
    f.push(Vec::new());
    f.push(Vec::new());
    f.push(Vec::new());
    assert(f@.map_values(|x: Vec<char>| x@) =~= no_fields());
    let mut cur: Vec<char> = Vec::new();
    let mut i: usize = 0;
    while i < v.len()
        invariant
            i <= v@.len(),
            v@ == value@,
            f@.len() == 5,
            f@.map_values(|x: Vec<char>| x@) == pg_fields_run(no_fields(), words_acc(v@.take(i as int)).0),
            cur@ == words_acc(v@.take(i as int)).1,
        decreases v@.len() - i,
    {
        proof {
            assert(v@.take(i + 1).drop_last() =~= v@.take(i as int));
            assert(v@.take(i + 1).last() == v@[i as int]);
        }
        if char_is_whitespace(v[i]) {
            if cur.len() > 0 {
                let ghost ws = words_acc(v@.take(i as int)).0;
                pg_fields_step_exec(&mut f, &cur);
                assert(ws.push(cur@).drop_last() =~= ws);
                cur = Vec::new();
            }
        } else {
            cur.push(v[i]);
        }
        i += 1;
    }
    assert(v@.take(v@.len() as int) =~= v@);
    if cur.len() > 0 {
        let ghost ws = words_acc(v@).0;
        pg_fields_step_exec(&mut f, &cur);
        assert(ws.push(cur@).drop_last() =~= ws);
    }
    let ghost fv = f@.map_values(|x: Vec<char>| x@);
    assert(fv == parse_pg_spec(value@));
    let r = [
        string_from_chars(&f[0]),
        string_from_chars(&f[1]),
        string_from_chars(&f[2]),
        string_from_chars(&f[3]),
        string_from_chars(&f[4]),
    ];
    assert(strings_view(r@) =~= fv);
    r
}

/// Whether a configured database kind selects PostgreSQL (`postgres` or
/// `postgresql`, ASCII case ignored); anything else is SQLite.
pub open spec fn is_postgres_kind_spec(kind: Seq<char>) -> bool {
    eq_ignore_ascii_case(kind, "postgres"@) || eq_ignore_ascii_case(kind, "postgresql"@)
}

pub fn is_postgres_kind(kind: &str) -> (r: bool)
    ensures
        r == is_postgres_kind_spec(kind@),
{
    let k = chars_of(kind);
    chars_eq_ignore_ascii_case(&k, &chars_of("postgres")) || chars_eq_ignore_ascii_case(
        &k,
        &chars_of("postgresql"),
    )
}


// ---------------------------------------------------------------------------
// Statements
// ---------------------------------------------------------------------------

pub open spec fn quoted_all(cols: Seq<Seq<char>>) -> Seq<Seq<char>> {
    cols.map_values(|c: Seq<char>| qi_spec(c))
}

/// The id column as text: PostgreSQL ids are cast to `varchar`.
pub open spec fn id_select_spec(pg: bool) -> Seq<char> {
    if pg {
        "CAST("@ + qi_spec("id"@) + " AS varchar)"@
    } else {
        qi_spec("id"@)
    }
}

/// `SELECT <id>, <standard columns> FROM <table>`.
pub open spec fn component_select_spec(pg: bool, t: Seq<char>) -> Seq<char> {
    "SELECT "@ + id_select_spec(pg) + ", "@ + join_with(quoted_all(base_columns()), ", "@)
        + " FROM "@ + qi_spec(t)
}

/// ` ORDER BY "MPN"`.
pub open spec fn order_by_mpn() -> Seq<char> {
    " ORDER BY "@ + qi_spec("MPN"@)
}

/// The query for all components of a table, by MPN.
pub open spec fn component_sql_spec(pg: bool, t: Seq<char>) -> Seq<char> {
    component_select_spec(pg, t) + order_by_mpn()
}

pub(crate) fn quote_all(cols: &[String]) -> (r: Vec<String>)
    ensures
        strings_view(r@) == quoted_all(strings_view(cols@)),
{
    let mut r: Vec<String> = Vec::new();
    let mut i: usize = 0;
    while i < cols.len()
        invariant
            i <= cols@.len(),
            strings_view(r@) == quoted_all(strings_view(cols@.take(i as int))),
        decreases cols@.len() - i,
    {
        let q = qi(cols[i].as_str());
        let ghost qv = q@;
        let ghost before = r@;
        r.push(q);
        proof {
            assert(strings_view(cols@.take(i + 1)) =~= strings_view(cols@.take(i as int)).push(
                cols@[i as int]@,
            ));
            assert(strings_view(r@) =~= strings_view(before).push(qv));
        }
        i += 1;
    }
    assert(cols@.take(cols@.len() as int) =~= cols@);
    r
}

pub(crate) fn component_select(pg: bool, t: &str) -> (r: String)
    ensures
        r@ == component_select_spec(pg, t@),
{
    let mut r = String::new();
    push_str(&mut r, "SELECT ");
    if pg {
        push_str(&mut r, "CAST(");
        push_str(&mut r, qi("id").as_str());
        push_str(&mut r, " AS varchar)");
    } else {
        push_str(&mut r, qi("id").as_str());
    }
    push_str(&mut r, ", ");
    let cols = quote_all(&base_column_names());
    push_str(&mut r, join_strings(&cols, ", ").as_str());
    push_str(&mut r, " FROM ");
    push_str(&mut r, qi(t).as_str());
    assert(r@ =~= component_select_spec(pg, t@));
    r
}

pub(crate) fn push_order_by_mpn(r: &mut String)
    ensures
        final(r)@ == old(r)@ + order_by_mpn(),
{
    push_str(r, " ORDER BY ");
    push_str(r, qi("MPN").as_str());
    assert(final(r)@ =~= old(r)@ + order_by_mpn());
}

/// The query for all components of table `t`, ordered by MPN.
pub fn component_sql(pg: bool, t: &str) -> (r: String)
    ensures
        r@ == component_sql_spec(pg, t@),
{
    let mut r = component_select(pg, t);
    push_order_by_mpn(&mut r);
    r
}

/// Placeholders `first..first+n-1` joined by commas.
pub open spec fn placeholders(pg: bool, first: nat, n: nat) -> Seq<Seq<char>> {
    Seq::new(n, |i: int| sql_param_spec(pg, (first + i) as nat))
}

pub open spec fn filters_view(f: Seq<(String, Vec<String>)>) -> Seq<(Seq<char>, Seq<Seq<char>>)> {
    f.map_values(|x: (String, Vec<String>)| (x.0@, strings_view(x.1@)))
}

/// The conditions and parameter values of the search filters from the
/// first on: each filter with values adds `AND <column> IN (<params>)`;
/// parameters are numbered from `next`.
pub open spec fn filter_clauses(pg: bool, fs: Seq<(Seq<char>, Seq<Seq<char>>)>, next: nat) -> (
    Seq<char>,
    Seq<Seq<char>>,
)
    decreases fs.len(),
{
    if fs.len() == 0 {
        (Seq::empty(), Seq::empty())
    } else {
        let (col, vs) = fs[0];
        let (rest_sql, rest_vals) = filter_clauses(
            pg,
            fs.drop_first(),
            next + vs.len(),
        );
        if vs.len() == 0 {
            (rest_sql, rest_vals)
        } else {
            (
                " AND "@ + qi_spec(col) + " IN ("@ + join_with(
                    placeholders(pg, next, vs.len()),
                    ","@,
                ) + ")"@ + rest_sql,
                vs + rest_vals,
            )
        }
    }
}

/// The search query over table `t` and its parameter values: the
/// components whose filtered columns hold one of the filter's values, by MPN.
pub open spec fn search_sql_spec(
    pg: bool,
    t: Seq<char>,
    fs: Seq<(Seq<char>, Seq<Seq<char>>)>,
) -> (Seq<char>, Seq<Seq<char>>) {
    let (clauses, vals) = filter_clauses(pg, fs, 1);
    (component_select_spec(pg, t) + " WHERE 1=1"@ + clauses + order_by_mpn(), vals)
}

fn push_placeholders(r: &mut String, pg: bool, first: usize, n: usize)
    requires
        first + n <= usize::MAX,
    ensures
        final(r)@ == old(r)@ + join_with(placeholders(pg, first as nat, n as nat), ","@),
{
    let mut ps: Vec<String> = Vec::new();
    let mut i: usize = 0;
    while i < n
        invariant
            i <= n,
            first + n <= usize::MAX,
            strings_view(ps@) == placeholders(pg, first as nat, i as nat),
        decreases n - i,
    {
        let p = sql_param(pg, first + i);
        let ghost pv = p@;
        let ghost before = ps@;
        ps.push(p);
        assert(strings_view(ps@) =~= strings_view(before).push(pv));
        assert(placeholders(pg, first as nat, (i + 1) as nat) =~= placeholders(pg, first as nat, i as nat).push(pv));
        i += 1;
    }
    let j = join_strings(&ps, ",");
    push_str(r, j.as_str());
}

/// Number of filter values in all.
pub open spec fn values_count(fs: Seq<(Seq<char>, Seq<Seq<char>>)>) -> nat
    decreases fs.len(),
{
    if fs.len() == 0 {
        0
    } else {
        fs[0].1.len() + values_count(fs.drop_first())
    }
}

/// The search query over table `t` for the given (column, values) filters,
/// with its parameter values in placeholder order. (The values must be
/// fewer than `usize::MAX` in all, as they are collected in one vector.)
pub fn search_sql(pg: bool, t: &str, filters: &[(String, Vec<String>)]) -> (r: (String, Vec<String>))
    requires
        values_count(filters_view(filters@)) < usize::MAX,
    ensures
        (r.0@, strings_view(r.1@)) == search_sql_spec(pg, t@, filters_view(filters@)),
{
    let ghost fv = filters_view(filters@);
    let mut sql = component_select(pg, t);
    push_str(&mut sql, " WHERE 1=1");
    let ghost head = sql@;
    let mut vals: Vec<String> = Vec::new();
    let mut k: usize = 0;
    assert(fv.skip(0) =~= fv);
    assert(sql@.skip(head.len() as int) =~= Seq::<char>::empty());
    assert(strings_view(vals@) =~= Seq::<Seq<char>>::empty());
    while k < filters.len()
        invariant
            k <= filters@.len(),
            fv == filters_view(filters@),
            values_count(fv) < usize::MAX,
            vals@.len() + values_count(fv.skip(k as int)) == values_count(fv),
            sql@.len() >= head.len(),
            sql@.take(head.len() as int) == head,
            ({
                let (cs, vs) = filter_clauses(pg, fv.skip(k as int), (vals@.len() + 1) as nat);
                let (call, vall) = filter_clauses(pg, fv, 1);
                call == sql@.skip(head.len() as int) + cs && vall == strings_view(vals@) + vs
            }),
        decreases filters@.len() - k,
    {
        let ghost s0 = sql@;
        let ghost v0 = vals@;
        let ghost n0 = (vals@.len() + 1) as nat;
        let ghost rest = fv.skip(k as int);
        assert(rest[0] == fv[k as int]);
        assert(rest.drop_first() =~= fv.skip(k + 1));
        let col = &filters[k].0;
        let vs = &filters[k].1;
        assert(fv[k as int] == (col@, strings_view(vs@)));
        if vs.len() > 0 {
            push_str(&mut sql, " AND ");
            push_str(&mut sql, qi(col.as_str()).as_str());
            push_str(&mut sql, " IN (");
            push_placeholders(&mut sql, pg, vals.len() + 1, vs.len());
            push_str(&mut sql, ")");
            let mut j: usize = 0;
            while j < vs.len()
                invariant
                    j <= vs@.len(),
                    v0.len() + vs@.len() < usize::MAX,
                    vals@ == v0 + vs@.take(j as int),
                decreases vs@.len() - j,
            {
                vals.push(vs[j].clone());
                assert(vals@ =~= v0 + vs@.take(j + 1));
                j += 1;
            }
            assert(vs@.take(vs@.len() as int) =~= vs@);
            proof {
                let clause = " AND "@ + qi_spec(col@) + " IN ("@ + join_with(
                    placeholders(pg, n0, vs@.len()),
                    ","@,
                ) + ")"@;
                assert(sql@ =~= s0 + clause);
                assert(sql@.take(head.len() as int) =~= s0.take(head.len() as int));
                assert(sql@.skip(head.len() as int) =~= s0.skip(head.len() as int) + clause);
                assert(strings_view(vals@) =~= strings_view(v0) + strings_view(vs@));
            }
        }
        k += 1;
    }
    assert(fv.skip(filters@.len() as int) =~= Seq::<(Seq<char>, Seq<Seq<char>>)>::empty());
    let ghost body = sql@;
    push_order_by_mpn(&mut sql);
    proof {
        assert(body =~= head + body.skip(head.len() as int));
        assert(strings_view(vals@) + Seq::<Seq<char>>::empty() =~= strings_view(vals@));
        assert(body.skip(head.len() as int) + Seq::<char>::empty() =~= body.skip(head.len() as int));
    }
    (sql, vals)
}


/// `ALTER TABLE <t> ADD COLUMN <col> TEXT NOT NULL DEFAULT ''`.
pub open spec fn add_column_sql_spec(t: Seq<char>, col: Seq<char>) -> Seq<char> {
    "ALTER TABLE "@ + qi_spec(t) + " ADD COLUMN "@ + qi_spec(col) + " TEXT NOT NULL DEFAULT ''"@
}

pub fn add_column_sql(t: &str, col: &str) -> (r: String)
    ensures
        r@ == add_column_sql_spec(t@, col@),
{
    let mut r = String::new();
    push_str(&mut r, "ALTER TABLE ");
    push_str(&mut r, qi(t).as_str());
    push_str(&mut r, " ADD COLUMN ");
    push_str(&mut r, qi(col).as_str());
    push_str(&mut r, " TEXT NOT NULL DEFAULT ''");
    assert(r@ =~= add_column_sql_spec(t@, col@));
    r
}

/// `ALTER TABLE <t> RENAME COLUMN <old> TO <new>`.
pub open spec fn rename_column_sql_spec(t: Seq<char>, old: Seq<char>, new: Seq<char>) -> Seq<char> {
    "ALTER TABLE "@ + qi_spec(t) + " RENAME COLUMN "@ + qi_spec(old) + " TO "@ + qi_spec(new)
}

pub fn rename_column_sql(t: &str, old: &str, new: &str) -> (r: String)
    ensures
        r@ == rename_column_sql_spec(t@, old@, new@),
{
    let mut r = String::new();
    push_str(&mut r, "ALTER TABLE ");
    push_str(&mut r, qi(t).as_str());
    push_str(&mut r, " RENAME COLUMN ");
    push_str(&mut r, qi(old).as_str());
    push_str(&mut r, " TO ");
    push_str(&mut r, qi(new).as_str());
    assert(r@ =~= rename_column_sql_spec(t@, old@, new@));
    r
}

/// `ALTER TABLE <t> DROP COLUMN <col>`.
pub open spec fn drop_column_sql_spec(t: Seq<char>, col: Seq<char>) -> Seq<char> {
    "ALTER TABLE "@ + qi_spec(t) + " DROP COLUMN "@ + qi_spec(col)
}

pub fn drop_column_sql(t: &str, col: &str) -> (r: String)
    ensures
        r@ == drop_column_sql_spec(t@, col@),
{
    let mut r = String::new();
    push_str(&mut r, "ALTER TABLE ");
    push_str(&mut r, qi(t).as_str());
    push_str(&mut r, " DROP COLUMN ");
    push_str(&mut r, qi(col).as_str());
    assert(r@ =~= drop_column_sql_spec(t@, col@));
    r
}

/// `DROP TABLE IF EXISTS <t>`.
pub open spec fn drop_table_sql_spec(t: Seq<char>) -> Seq<char> {
    "DROP TABLE IF EXISTS "@ + qi_spec(t)
}

pub fn drop_table_sql(t: &str) -> (r: String)
    ensures
        r@ == drop_table_sql_spec(t@),
{
    let mut r = String::new();
    push_str(&mut r, "DROP TABLE IF EXISTS ");
    push_str(&mut r, qi(t).as_str());
    assert(r@ =~= drop_table_sql_spec(t@));
    r
}

/// `ALTER TABLE <old> RENAME TO <new>`.
pub open spec fn rename_table_sql_spec(old: Seq<char>, new: Seq<char>) -> Seq<char> {
    "ALTER TABLE "@ + qi_spec(old) + " RENAME TO "@ + qi_spec(new)
}

pub fn rename_table_sql(old: &str, new: &str) -> (r: String)
    ensures
        r@ == rename_table_sql_spec(old@, new@),
{
    let mut r = String::new();
    push_str(&mut r, "ALTER TABLE ");
    push_str(&mut r, qi(old).as_str());
    push_str(&mut r, " RENAME TO ");
    push_str(&mut r, qi(new).as_str());
    assert(r@ =~= rename_table_sql_spec(old@, new@));
    r
}

/// The distinct non-empty values of a column, sorted.
pub open spec fn distinct_values_sql_spec(t: Seq<char>, col: Seq<char>) -> Seq<char> {
    "SELECT DISTINCT "@ + qi_spec(col) + " FROM "@ + qi_spec(t) + " WHERE "@ + qi_spec(col)
        + " IS NOT NULL AND "@ + qi_spec(col) + " <> '' ORDER BY "@ + qi_spec(col)
}

pub fn distinct_values_sql(t: &str, col: &str) -> (r: String)
    ensures
        r@ == distinct_values_sql_spec(t@, col@),
{
    let q = qi(col);
    let mut r = String::new();
    push_str(&mut r, "SELECT DISTINCT ");
    push_str(&mut r, q.as_str());
    push_str(&mut r, " FROM ");
    push_str(&mut r, qi(t).as_str());
    push_str(&mut r, " WHERE ");
    push_str(&mut r, q.as_str());
    push_str(&mut r, " IS NOT NULL AND ");
    push_str(&mut r, q.as_str());
    push_str(&mut r, " <> '' ORDER BY ");
    push_str(&mut r, q.as_str());
    assert(r@ =~= distinct_values_sql_spec(t@, col@));
    r
}

/// Definition of a standard column: `Verified` is a `BIGINT` defaulting to
/// 0, the others `TEXT` defaulting to the empty text.
pub open spec fn column_def(x: Seq<char>) -> Seq<char> {
    qi_spec(x) + " "@ + (if x == "Verified"@ {
        "BIGINT"@
    } else {
        "TEXT"@
    }) + " NOT NULL DEFAULT "@ + (if x == "Verified"@ {
        "0"@
    } else {
        "''"@
    })
}

/// `CREATE TABLE` for a category table: an auto-numbered id (BIGSERIAL
/// primary key on PostgreSQL, INTEGER PRIMARY KEY AUTOINCREMENT on SQLite)
/// and the standard columns.
pub open spec fn create_table_sql_spec(pg: bool, t: Seq<char>) -> Seq<char> {
    "CREATE TABLE "@ + qi_spec(t) + " ("@ + qi_spec("id"@) + " "@ + (if pg {
        "BIGSERIAL"@
    } else {
        "INTEGER PRIMARY KEY AUTOINCREMENT"@
    }) + " "@ + (if pg {
        "PRIMARY KEY"@
    } else {
        ""@
    }) + ", "@ + join_with(base_columns().map_values(|x: Seq<char>| column_def(x)), ", "@)
        + ")"@
}

pub fn create_table_sql(pg: bool, t: &str) -> (r: String)
    ensures
        r@ == create_table_sql_spec(pg, t@),
{
    let names = base_column_names();
    let ghost nv = strings_view(names@);
    let mut defs: Vec<String> = Vec::new();
    let mut i: usize = 0;
    while i < names.len()
        invariant
            i <= names@.len(),
            nv == strings_view(names@),
            strings_view(defs@) == nv.take(i as int).map_values(|x: Seq<char>| column_def(x)),
        decreases names@.len() - i,
    {
        let verified = str_eq(names[i].as_str(), "Verified");
        let mut d = qi(names[i].as_str());
        push_str(&mut d, " ");
        push_str(
            &mut d,
            if verified {
                "BIGINT"
            } else {
                "TEXT"
            },
        );
        push_str(&mut d, " NOT NULL DEFAULT ");
        push_str(
            &mut d,
            if verified {
                "0"
            } else {
                "''"
            },
        );
        let ghost dv = d@;
        assert(dv =~= column_def(nv[i as int]));
        let ghost before = defs@;
        defs.push(d);
        assert(strings_view(defs@) =~= strings_view(before).push(dv));
        assert(nv.take(i + 1).map_values(|x: Seq<char>| column_def(x)) =~= nv.take(
            i as int,
        ).map_values(|x: Seq<char>| column_def(x)).push(dv));
        i += 1;
    }
    assert(nv.take(names@.len() as int) =~= nv);
    let mut r = String::new();
    push_str(&mut r, "CREATE TABLE ");
    push_str(&mut r, qi(t).as_str());
    push_str(&mut r, " (");
    push_str(&mut r, qi("id").as_str());
    push_str(&mut r, " ");
    push_str(
        &mut r,
        if pg {
            "BIGSERIAL"
        } else {
            "INTEGER PRIMARY KEY AUTOINCREMENT"
        },
    );
    push_str(&mut r, " ");
    push_str(
        &mut r,
        if pg {
            "PRIMARY KEY"
        } else {
            ""
        },
    );
    push_str(&mut r, ", ");
    push_str(&mut r, join_strings(&defs, ", ").as_str());
    push_str(&mut r, ")");
    assert(r@ =~= create_table_sql_spec(pg, t@));
    r
}

// ---------------------------------------------------------------------------
// Component values and columns
// ---------------------------------------------------------------------------

/// The values of a component for the standard columns, in column order;
/// `Verified` is written `1` or `0`.
pub open spec fn component_values_spec(c: Component) -> Seq<Seq<char>> {
    seq![
        c.mpn@,
        c.manufacturer@,
        c.description@,
        if c.verified {
            "1"@
        } else {
            "0"@
        },
        c.library_ref@,
        c.library_path@,
        c.footprint_ref@,
        c.footprint_path@,
        c.footprint_ref2@,
        c.footprint_path2@,
        c.footprint_ref3@,
        c.footprint_path3@,
        c.component_link1_description@,
        c.component_link1_url@,
        c.component_link2_description@,
        c.component_link2_url@,
        c.component_link3_description@,
        c.component_link3_url@,
    ]
}

pub fn component_values(c: &Component) -> (v: Vec<String>)
    ensures
        strings_view(v@) == component_values_spec(*c),
{
    let mut v: Vec<String> = Vec::new();
    v.push(c.mpn.clone());
    v.push(c.manufacturer.clone());
    v.push(c.description.clone());
    v.push(
        if c.verified {
            "1".to_owned()
        } else {
            "0".to_owned()
        },
    );
    v.push(c.library_ref.clone());
    v.push(c.library_path.clone());
    v.push(c.footprint_ref.clone());
    v.push(c.footprint_path.clone());
    v.push(c.footprint_ref2.clone());
    v.push(c.footprint_path2.clone());
    v.push(c.footprint_ref3.clone());
    v.push(c.footprint_path3.clone());
    v.push(c.component_link1_description.clone());
    v.push(c.component_link1_url.clone());
    v.push(c.component_link2_description.clone());
    v.push(c.component_link2_url.clone());
    v.push(c.component_link3_description.clone());
    v.push(c.component_link3_url.clone());
    assert(strings_view(v@) =~= component_values_spec(*c));
    v
}

/// The columns of a table beyond `id` and the standard ones, in order.
pub open spec fn custom_columns_spec(cols: Seq<Seq<char>>) -> Seq<Seq<char>>
    decreases cols.len(),
{
    if cols.len() == 0 {
        Seq::empty()
    } else {
        custom_columns_spec(cols.drop_last()) + if cols.last() != "id"@ && !base_columns().contains(
            cols.last(),
        ) {
            seq![cols.last()]
        } else {
            Seq::<Seq<char>>::empty()
        }
    }
}

pub(crate) fn contains_string(v: &[String], s: &str) -> (r: bool)
    ensures
        r == strings_view(v@).contains(s@),
{
    let ghost sv = strings_view(v@);
    let mut i: usize = 0;
    while i < v.len()
        invariant
            i <= v@.len(),
            sv == strings_view(v@),
            forall|j: int| 0 <= j < i ==> sv[j] != s@,
        decreases v@.len() - i,
    {
        if str_eq(v[i].as_str(), s) {
            assert(sv[i as int] == s@);
            return true;
        }
        i += 1;
    }
    false
}

pub fn custom_columns(cols: &[String]) -> (r: Vec<String>)
    ensures
        strings_view(r@) == custom_columns_spec(strings_view(cols@)),
{
    let base = base_column_names();
    let ghost cv = strings_view(cols@);
    let mut r: Vec<String> = Vec::new();
    let mut i: usize = 0;
    while i < cols.len()
        invariant
            i <= cols@.len(),
            cv == strings_view(cols@),
            strings_view(base@) == base_columns(),
            strings_view(r@) == custom_columns_spec(cv.take(i as int)),
        decreases cols@.len() - i,
    {
        proof {
            assert(cv.take(i + 1).drop_last() =~= cv.take(i as int));
            assert(cv.take(i + 1).last() == cv[i as int]);
        }
        let ghost before = r@;
        if !str_eq(cols[i].as_str(), "id") && !contains_string(&base, cols[i].as_str()) {
            r.push(cols[i].clone());
            assert(strings_view(r@) =~= strings_view(before).push(cv[i as int]));
        } else {
            assert(strings_view(r@) =~= strings_view(before) + Seq::<Seq<char>>::empty());
        }
        i += 1;
    }
    assert(cv.take(cols@.len() as int) =~= cv);
    r
}

/// The columns added to older tables, in the order they are added.
pub open spec fn late_columns() -> Seq<Seq<char>> {
    seq![
        "ComponentLink1Description"@,
        "ComponentLink1URL"@,
        "ComponentLink2Description"@,
        "ComponentLink2URL"@,
        "ComponentLink3Description"@,
        "ComponentLink3URL"@,
        "Library Path"@,
        "Footprint Path"@,
        "Footprint Ref 2"@,
        "Footprint Path 2"@,
        "Footprint Ref 3"@,
        "Footprint Path 3"@,
    ]
}

/// The names of `xs` missing from `cols`, in order.
pub open spec fn absent_from(xs: Seq<Seq<char>>, cols: Seq<Seq<char>>) -> Seq<Seq<char>>
    decreases xs.len(),
{
    if xs.len() == 0 {
        Seq::empty()
    } else {
        absent_from(xs.drop_last(), cols) + if !cols.contains(xs.last()) {
            seq![xs.last()]
        } else {
            Seq::<Seq<char>>::empty()
        }
    }
}

/// The late columns a table with columns `cols` lacks, in order.
pub open spec fn missing_late_columns_spec(cols: Seq<Seq<char>>) -> Seq<Seq<char>> {
    absent_from(late_columns(), cols)
}

pub fn missing_base_columns(cols: &[String]) -> (r: Vec<String>)
    ensures
        strings_view(r@) == missing_late_columns_spec(strings_view(cols@)),
{
    let mut late: Vec<String> = Vec::new();
    late.push("ComponentLink1Description".to_owned());
    late.push("ComponentLink1URL".to_owned());
    late.push("ComponentLink2Description".to_owned());
    late.push("ComponentLink2URL".to_owned());
    late.push("ComponentLink3Description".to_owned());
    late.push("ComponentLink3URL".to_owned());
    late.push("Library Path".to_owned());
    late.push("Footprint Path".to_owned());
    late.push("Footprint Ref 2".to_owned());
    late.push("Footprint Path 2".to_owned());
    late.push("Footprint Ref 3".to_owned());
    late.push("Footprint Path 3".to_owned());
    let ghost lv = strings_view(late@);
    assert(lv =~= late_columns());
    let ghost cv = strings_view(cols@);
    let mut r: Vec<String> = Vec::new();
    let mut i: usize = 0;
    while i < late.len()
        invariant
            i <= late@.len(),
            lv == strings_view(late@),
            cv == strings_view(cols@),
            strings_view(r@) == absent_from(lv.take(i as int), cv),
        decreases late@.len() - i,
    {
        proof {
            assert(lv.take(i + 1).drop_last() =~= lv.take(i as int));
            assert(lv.take(i + 1).last() == lv[i as int]);
        }
        let ghost before = r@;
        if !contains_string(cols, late[i].as_str()) {
            r.push(late[i].clone());
            assert(strings_view(r@) =~= strings_view(before).push(lv[i as int]));
        } else {
            assert(strings_view(r@) =~= strings_view(before) + Seq::<Seq<char>>::empty());
        }
        i += 1;
    }
    assert(lv.take(late@.len() as int) =~= lv);
    r
}


// ---------------------------------------------------------------------------
// Connection string round trip
// ---------------------------------------------------------------------------

/// A setting that survives a connection string: once trimmed, it holds no
/// whitespace and neither starts nor ends with a quote.
pub open spec fn plain_setting(v: Seq<char>) -> bool {
    let t = trim_seq(v);
    (forall|i: int| 0 <= i < t.len() ==> !is_whitespace(#[trigger] t[i])) && (t.len() == 0 || (
    !is_quote(t[0]) && !is_quote(t.last())))
}

pub open spec fn no_space(s: Seq<char>) -> bool {
    forall|i: int| 0 <= i < s.len() ==> !is_whitespace(#[trigger] s[i])
}

proof fn lemma_words_append_word(p: Seq<char>, s: Seq<char>)
    requires
        no_space(s),
    ensures
        words_acc(p + s) == (words_acc(p).0, words_acc(p).1 + s),
    decreases s.len(),
{
    if s.len() == 0 {
        assert(p + s =~= p);
        assert(words_acc(p).1 + s =~= words_acc(p).1);
    } else {
        lemma_words_append_word(p, s.drop_last());
        assert((p + s).drop_last() =~= p + s.drop_last());
        assert((p + s).last() == s.last());
        assert(!is_whitespace(s[s.len() - 1]));
        assert(words_acc(p).1 + s.drop_last() + seq![s.last()] =~= words_acc(p).1 + s);
        assert((words_acc(p).1 + s.drop_last()).push(s.last()) =~= words_acc(p).1 + s);
    }
}

pub open spec fn plain_words(ws: Seq<Seq<char>>) -> bool {
    forall|i: int| 0 <= i < ws.len() ==> (#[trigger] ws[i]).len() > 0 && no_space(ws[i])
}

proof fn lemma_words_acc_join(ws: Seq<Seq<char>>)
    requires
        ws.len() >= 1,
        plain_words(ws),
    ensures
        words_acc(join_with(ws, " "@)) == (ws.drop_last(), ws.last()),
    decreases ws.len(),
{
    reveal_strlit(" ");
    if ws.len() == 1 {
        lemma_words_append_word(Seq::empty(), ws[0]);
        assert(Seq::<char>::empty() + ws[0] =~= ws[0]);
        assert(words_acc(Seq::<char>::empty()).1 + ws[0] =~= ws[0]);
        assert(ws.drop_last() =~= Seq::<Seq<char>>::empty());
    } else {
        let init = ws.drop_last();
        assert(plain_words(init)) by {
            assert forall|i: int| 0 <= i < init.len() implies (#[trigger] init[i]).len() > 0 && no_space(init[i]) by {
                assert(init[i] == ws[i]);
            }
        }
        lemma_words_acc_join(init);
        let j = join_with(init, " "@);
        let js = j + " "@;
        assert(js.drop_last() =~= j);
        assert(js.last() == ' ');
        assert(init.last().len() > 0) by {
            assert(init.last() == ws[ws.len() - 2]);
        }
        assert(words_acc(js) == (init.drop_last().push(init.last()), Seq::<char>::empty()));
        assert(init.drop_last().push(init.last()) =~= init);
        assert(ws.last() == ws[ws.len() - 1]);
        lemma_words_append_word(js, ws.last());
        assert(Seq::<char>::empty() + ws.last() =~= ws.last());
    }
}

/// Words of joined plain words are those words.
proof fn lemma_words_join(ws: Seq<Seq<char>>)
    requires
        plain_words(ws),
    ensures
        words(join_with(ws, " "@)) == ws,
{
    if ws.len() == 0 {
        assert(words_acc(Seq::<char>::empty()) == (Seq::<Seq<char>>::empty(), Seq::<char>::empty()));
    } else {
        lemma_words_acc_join(ws);
        assert(ws.last().len() > 0) by {
            assert(ws.last() == ws[ws.len() - 1]);
        }
        assert(ws.drop_last().push(ws.last()) =~= ws);
    }
}

proof fn lemma_fields_run_append(f: Seq<Seq<char>>, a: Seq<Seq<char>>, b: Seq<Seq<char>>)
    ensures
        pg_fields_run(f, a + b) == pg_fields_run(pg_fields_run(f, a), b),
    decreases b.len(),
{
    if b.len() == 0 {
        assert(a + b =~= a);
    } else {
        lemma_fields_run_append(f, a, b.drop_last());
        assert((a + b).drop_last() =~= a + b.drop_last());
        assert((a + b).last() == b.last());
    }
}

/// Reading the pair word `key=t` sets setting `i` to `t`.
proof fn lemma_pair_step(f: Seq<Seq<char>>, key: Seq<char>, t: Seq<char>, i: int)
    requires
        f.len() == 5,
        forall|j: int| 0 <= j < key.len() ==> #[trigger] key[j] != '=',
        pg_key_index(key) == Some(i),
        t.len() == 0 || (!is_quote(t[0]) && !is_quote(t.last())),
    ensures
        pg_fields_step(f, key + "="@ + t) == f.update(i, t),
{
    reveal_strlit("=");
    let w = key + "="@ + t;
    assert(w[key.len() as int] == '=');
    assert forall|j: int| 0 <= j < key.len() implies !(|c: char| c == '=')(#[trigger] w[j]) by {
        assert(w[j] == key[j]);
    }
    crate::text::lemma_find_first_at(w, |c: char| c == '=', key.len() as int);
    assert(w.take(key.len() as int) =~= key);
    assert(w.skip(key.len() as int + 1) =~= t);
    assert(trim_quotes_start(t) == t);
    assert(trim_quotes_end(t) == t);
}

proof fn lemma_pair_run(f: Seq<Seq<char>>, key: Seq<char>, v: Seq<char>, i: int)
    requires
        f.len() == 5,
        0 <= i < 5,
        forall|j: int| 0 <= j < key.len() ==> #[trigger] key[j] != '=',
        pg_key_index(key) == Some(i),
        plain_setting(v),
        f[i] == Seq::<char>::empty(),
    ensures
        pg_fields_run(f, pg_pair(key, v)) == f.update(i, trim_seq(v)),
{
    if trim_seq(v).len() == 0 {
        assert(pg_fields_run(f, Seq::<Seq<char>>::empty()) == f);
        assert(trim_seq(v) =~= Seq::<char>::empty());
        assert(f.update(i, trim_seq(v)) =~= f);
    } else {
        let w = key + "="@ + trim_seq(v);
        assert(pg_pair(key, v) == seq![w]);
        assert(seq![w].drop_last() =~= Seq::<Seq<char>>::empty());
        assert(seq![w].last() == w);
        assert(pg_fields_run(f, Seq::<Seq<char>>::empty()) == f);
        assert(pg_fields_run(f, seq![w]) == pg_fields_step(f, w));
        lemma_pair_step(f, key, trim_seq(v), i);
    }
}

proof fn lemma_pair_plain(key: Seq<char>, v: Seq<char>)
    requires
        key.len() > 0,
        no_space(key),
        plain_setting(v),
    ensures
        plain_words(pg_pair(key, v)),
{
    reveal_strlit("=");
    if trim_seq(v).len() > 0 {
        let w = key + "="@ + trim_seq(v);
        assert forall|i: int| 0 <= i < w.len() implies !is_whitespace(#[trigger] w[i]) by {
            if i < key.len() {
                assert(w[i] == key[i]);
            } else if i == key.len() {
                assert(w[i] == '=');
            } else {
                assert(w[i] == trim_seq(v)[i - key.len() - 1]);
            }
        }
    }
}

proof fn lemma_plain_concat(a: Seq<Seq<char>>, b: Seq<Seq<char>>)
    requires
        plain_words(a),
        plain_words(b),
    ensures
        plain_words(a + b),
{
    assert forall|i: int| 0 <= i < (a + b).len() implies (#[trigger] (a + b)[i]).len() > 0 && no_space((a + b)[i]) by {
        if i < a.len() {
            assert((a + b)[i] == a[i]);
        } else {
            assert((a + b)[i] == b[i - a.len()]);
        }
    }
}

/// Reading back the connection string built from settings gives the
/// settings, trimmed, for settings that hold no whitespace and do not start
/// or end with a quote (empty settings stay empty).
pub proof fn connection_string_round_trip(
    host: Seq<char>,
    port: Seq<char>,
    database: Seq<char>,
    user: Seq<char>,
    password: Seq<char>,
)
    requires
        plain_setting(host),
        plain_setting(port),
        plain_setting(database),
        plain_setting(user),
        plain_setting(password),
    ensures
        parse_pg_spec(pg_conn_spec(host, port, database, user, password)) == seq![
            trim_seq(host),
            trim_seq(port),
            trim_seq(database),
            trim_seq(user),
            trim_seq(password),
        ],
{
    reveal_strlit("host");
    reveal_strlit("port");
    reveal_strlit("dbname");
    reveal_strlit("user");
    reveal_strlit("password");
    reveal_strlit("database");
    reveal_strlit("username");
    reveal_strlit("pass");
    let a = pg_pair("host"@, host);
    let b = pg_pair("port"@, port);
    let c = pg_pair("dbname"@, database);
    let d = pg_pair("user"@, user);
    let e = pg_pair("password"@, password);
    assert(lower_seq("host"@) =~= "host"@);
    assert(lower_seq("port"@) =~= "port"@);
    assert(lower_seq("dbname"@) =~= "dbname"@);
    assert(lower_seq("user"@) =~= "user"@);
    assert(lower_seq("password"@) =~= "password"@);
    assert("port"@[0] != "host"@[0]);
    assert("user"@[0] != "host"@[0]);
    assert("user"@[0] != "port"@[0]);
    assert("user"@ != "dbname"@);
    assert("user"@ != "database"@);
    assert("password"@[0] != "database"@[0]);
    assert("password"@[0] != "username"@[0]);
    assert("password"@ != "host"@);
    assert("password"@ != "port"@);
    assert("password"@ != "dbname"@);
    assert("password"@ != "user"@);
    lemma_pair_plain("host"@, host);
    lemma_pair_plain("port"@, port);
    lemma_pair_plain("dbname"@, database);
    lemma_pair_plain("user"@, user);
    lemma_pair_plain("password"@, password);
    lemma_plain_concat(a, b);
    lemma_plain_concat(a + b, c);
    lemma_plain_concat(a + b + c, d);
    lemma_plain_concat(a + b + c + d, e);
    lemma_words_join(a + b + c + d + e);
    let f0 = no_fields();
    lemma_fields_run_append(f0, a + b + c + d, e);
    lemma_fields_run_append(f0, a + b + c, d);
    lemma_fields_run_append(f0, a + b, c);
    lemma_fields_run_append(f0, a, b);
    lemma_pair_run(f0, "host"@, host, 0);
    let f1 = f0.update(0, trim_seq(host));
    lemma_pair_run(f1, "port"@, port, 1);
    let f2 = f1.update(1, trim_seq(port));
    lemma_pair_run(f2, "dbname"@, database, 2);
    let f3 = f2.update(2, trim_seq(database));
    lemma_pair_run(f3, "user"@, user, 3);
    let f4 = f3.update(3, trim_seq(user));
    lemma_pair_run(f4, "password"@, password, 4);
    assert(f4.update(4, trim_seq(password)) =~= seq![
        trim_seq(host),
        trim_seq(port),
        trim_seq(database),
        trim_seq(user),
        trim_seq(password),
    ]);
}

} // verus!
