//! The Altium `.DbLib` database link file: an INI document naming the
//! database connection, the tables used as component libraries and the map
//! from table columns to component parameters.

use vstd::prelude::*;
use crate::text::{
    dec, push_char, push_dec,
    chars_eq, chars_eq_ignore_ascii_case, chars_of, eq_ignore_ascii_case, find_first, has_prefix,
    lemma_find_first, lower_seq, push_str, string_from_chars,
};
use crate::paths::{file_stem_spec, file_stem, set_extension_spec, set_extension};

verus! {

broadcast use vstd::string::group_string_axioms;

#[derive(Clone, Debug)]
pub struct AltiumDbl {
    pub connection_string: String,
    pub database_links: Vec<(String, String)>,
    pub libraries: Vec<Library>,
}

#[derive(Clone, Debug)]
pub struct Library {
    pub name: String,
    pub table: String,
    pub enabled: bool,
    pub user_where: bool,
    pub user_where_text: String,
    pub fields: Vec<Field>,
}

#[derive(Clone, Debug)]
pub struct Field {
    pub column: String,
    pub parameter: String,
    pub is_key: bool,
    pub visible_on_add: bool,
    pub add_mode: u8,
    pub remove_mode: u8,
    pub update_mode: u8,
}

/// Mathematical content of a [`Field`].
pub struct FieldSpec {
    pub column: Seq<char>,
    pub parameter: Seq<char>,
    pub is_key: bool,
    pub visible_on_add: bool,
    pub add_mode: u8,
    pub remove_mode: u8,
    pub update_mode: u8,
}

/// Mathematical content of a [`Library`].
pub struct LibrarySpec {
    pub name: Seq<char>,
    pub table: Seq<char>,
    pub enabled: bool,
    pub user_where: bool,
    pub user_where_text: Seq<char>,
    pub fields: Seq<FieldSpec>,
}

/// Mathematical content of an [`AltiumDbl`].
pub struct DblSpec {
    pub connection_string: Seq<char>,
    pub database_links: Seq<(Seq<char>, Seq<char>)>,
    pub libraries: Seq<LibrarySpec>,
}

impl View for Field {
    type V = FieldSpec;

    open spec fn view(&self) -> FieldSpec {
        FieldSpec {
            column: self.column@,
            parameter: self.parameter@,
            is_key: self.is_key,
            visible_on_add: self.visible_on_add,
            add_mode: self.add_mode,
            remove_mode: self.remove_mode,
            update_mode: self.update_mode,
        }
    }
}

pub open spec fn fields_view(v: Seq<Field>) -> Seq<FieldSpec> {
    v.map_values(|f: Field| f@)
}

impl View for Library {
    type V = LibrarySpec;

    open spec fn view(&self) -> LibrarySpec {
        LibrarySpec {
            name: self.name@,
            table: self.table@,
            enabled: self.enabled,
            user_where: self.user_where,
            user_where_text: self.user_where_text@,
            fields: fields_view(self.fields@),
        }
    }
}

pub open spec fn libraries_view(v: Seq<Library>) -> Seq<LibrarySpec> {
    v.map_values(|l: Library| l@)
}

pub open spec fn links_view(v: Seq<(String, String)>) -> Seq<(Seq<char>, Seq<char>)> {
    v.map_values(|p: (String, String)| (p.0@, p.1@))
}

impl View for AltiumDbl {
    type V = DblSpec;

    open spec fn view(&self) -> DblSpec {
        DblSpec {
            connection_string: self.connection_string@,
            database_links: links_view(self.database_links@),
            libraries: libraries_view(self.libraries@),
        }
    }
}

// ---------------------------------------------------------------------------
// Defaults
// ---------------------------------------------------------------------------

pub open spec fn field_spec(column: Seq<char>, parameter: Seq<char>, is_key: bool, visible_on_add: bool) -> FieldSpec {
    FieldSpec {
        column,
        parameter,
        is_key,
        visible_on_add,
        add_mode: 0,
        remove_mode: 0,
        update_mode: 0,
    }
}

impl Field {
    fn new(column: &str, parameter: &str, is_key: bool, visible_on_add: bool) -> (f: Self)
        ensures
            f@ == field_spec(column@, parameter@, is_key, visible_on_add),
    {
        Field {
            column: column.to_owned(),
            parameter: parameter.to_owned(),
            is_key,
            visible_on_add,
            add_mode: 0,
            remove_mode: 0,
            update_mode: 0,
        }
    }
}

/// Column names of the standard fields, in their canonical order.
pub open spec fn base_columns() -> Seq<Seq<char>> {
    seq![
        "MPN"@,
        "Manufacturer"@,
        "Library Ref"@,
        "Library Path"@,
        "Footprint Ref"@,
        "Footprint Path"@,
        "Footprint Ref 2"@,
        "Footprint Path 2"@,
        "Footprint Ref 3"@,
        "Footprint Path 3"@,
        "ComponentLink1Description"@,
        "ComponentLink1URL"@,
        "ComponentLink2Description"@,
        "ComponentLink2URL"@,
        "ComponentLink3Description"@,
        "ComponentLink3URL"@,
        "Description"@,
        "Verified"@,
    ]
}

/// Parameter names of the standard fields, aligned with `base_columns`.
pub open spec fn base_parameters() -> Seq<Seq<char>> {
    seq![
        "MPN"@,
        "Manufacturer"@,
        "[Library Ref]"@,
        "[Library Path]"@,
        "[Footprint Ref]"@,
        "[Footprint Path]"@,
        "[Footprint Ref 2]"@,
        "[Footprint Path 2]"@,
        "[Footprint Ref 3]"@,
        "[Footprint Path 3]"@,
        "ComponentLink1Description"@,
        "ComponentLink1URL"@,
        "ComponentLink2Description"@,
        "ComponentLink2URL"@,
        "ComponentLink3Description"@,
        "ComponentLink3URL"@,
        "[Description]"@,
        "Verified"@,
    ]
}

/// The standard fields: `MPN` is the key and visible on add; all others are
/// plain, hidden on add, with every mode 0.
pub open spec fn base_fields_spec() -> Seq<FieldSpec> {
    Seq::new(18, |i: int| field_spec(base_columns()[i], base_parameters()[i], i == 0, i == 0))
}

fn base_fields() -> (v: Vec<Field>)
    ensures
        fields_view(v@) == base_fields_spec(),
{
    let v = vec![
        Field::new("MPN", "MPN", true, true),
        Field::new("Manufacturer", "Manufacturer", false, false),
        Field::new("Library Ref", "[Library Ref]", false, false),
        Field::new("Library Path", "[Library Path]", false, false),
        Field::new("Footprint Ref", "[Footprint Ref]", false, false),
        Field::new("Footprint Path", "[Footprint Path]", false, false),
        Field::new("Footprint Ref 2", "[Footprint Ref 2]", false, false),
        Field::new("Footprint Path 2", "[Footprint Path 2]", false, false),
        Field::new("Footprint Ref 3", "[Footprint Ref 3]", false, false),
        Field::new("Footprint Path 3", "[Footprint Path 3]", false, false),
        Field::new("ComponentLink1Description", "ComponentLink1Description", false, false),
        Field::new("ComponentLink1URL", "ComponentLink1URL", false, false),
        Field::new("ComponentLink2Description", "ComponentLink2Description", false, false),
        Field::new("ComponentLink2URL", "ComponentLink2URL", false, false),
        Field::new("ComponentLink3Description", "ComponentLink3Description", false, false),
        Field::new("ComponentLink3URL", "ComponentLink3URL", false, false),
        Field::new("Description", "[Description]", false, false),
        Field::new("Verified", "Verified", false, false),
    ];
    assert(fields_view(v@) =~= base_fields_spec());
    v
}

/// ODBC connection string naming a data source.
pub open spec fn connection_string_spec(dsn: Seq<char>) -> Seq<char> {
    "Provider=MSDASQL.1;Persist Security Info=False;Data Source="@ + dsn
}

fn connection_string_for(dsn: &str) -> (s: String)
    ensures
        s@ == connection_string_spec(dsn@),
{
    let mut s = "Provider=MSDASQL.1;Persist Security Info=False;Data Source=".to_owned();
    push_str(&mut s, dsn);
    s
}

/// The data source name derived from a database file: its file stem.
pub open spec fn default_dsn_spec(db_path: Seq<char>) -> Seq<char> {
    match file_stem_spec(db_path) {
        Some(s) => s,
        None => Seq::empty(),
    }
}

fn default_dsn(db_path: &str) -> (s: String)
    ensures
        s@ == default_dsn_spec(db_path@),
{
    match file_stem(db_path) {
        Some(s) => s,
        None => String::new(),
    }
}

/// The data source that a loaded link file is pointed at.
pub open spec fn effective_dsn_spec(db_path: Seq<char>, dsn: Seq<char>) -> Seq<char> {
    if crate::text::trim_seq(dsn).len() == 0 {
        default_dsn_spec(db_path)
    } else {
        crate::text::trim_seq(dsn)
    }
}

/// The standard `[DatabaseLinks]` entries.
pub open spec fn default_links_spec(cs: Seq<char>) -> Seq<(Seq<char>, Seq<char>)> {
    seq![
        ("ConnectionString"@, cs),
        ("AddMode"@, "3"@),
        ("RemoveMode"@, "1"@),
        ("UpdateMode"@, "2"@),
        ("ViewMode"@, "0"@),
        ("LeftQuote"@, "["@),
        ("RightQuote"@, "]"@),
        ("QuoteTableNames"@, "1"@),
        ("UseTableSchemaName"@, "0"@),
        ("DefaultColumnType"@, "VARCHAR(255)"@),
        ("LibraryDatabaseType"@, ""@),
        ("LibraryDatabasePath"@, ""@),
        ("DatabasePathRelative"@, "0"@),
        ("TopPanelCollapsed"@, "0"@),
        ("LibrarySearchPath"@, ""@),
        ("OrcadMultiValueDelimiter"@, ","@),
        ("SearchSubDirectories"@, "0"@),
        ("SchemaName"@, ""@),
        ("LastFocusedTable"@, ""@),
    ]
}

fn link(k: &str, v: &str) -> (p: (String, String))
    ensures
        p.0@ == k@,
        p.1@ == v@,
{
    (k.to_owned(), v.to_owned())
}

fn default_database_links(connection_string: &str) -> (v: Vec<(String, String)>)
    ensures
        links_view(v@) == default_links_spec(connection_string@),
{
    let v = vec![
        link("ConnectionString", connection_string),
        link("AddMode", "3"),
        link("RemoveMode", "1"),
        link("UpdateMode", "2"),
        link("ViewMode", "0"),
        link("LeftQuote", "["),
        link("RightQuote", "]"),
        link("QuoteTableNames", "1"),
        link("UseTableSchemaName", "0"),
        link("DefaultColumnType", "VARCHAR(255)"),
        link("LibraryDatabaseType", ""),
        link("LibraryDatabasePath", ""),
        link("DatabasePathRelative", "0"),
        link("TopPanelCollapsed", "0"),
        link("LibrarySearchPath", ""),
        link("OrcadMultiValueDelimiter", ","),
        link("SearchSubDirectories", "0"),
        link("SchemaName", ""),
        link("LastFocusedTable", ""),
    ];
    assert(links_view(v@) =~= default_links_spec(connection_string@));
    v
}

/// SQLite's own tables (`sqlite_*`, any case) are not component libraries.
pub open spec fn is_internal_table_spec(name: Seq<char>) -> bool {
    has_prefix(lower_seq(name), "sqlite_"@)
}

fn is_internal_table(name: &str) -> (r: bool)
    ensures
        r == is_internal_table_spec(name@),
{
    let lower = crate::text::lower_chars(&chars_of(name));
    let prefix = chars_of("sqlite_");
    let r = crate::text::starts_with_at(&lower, 0, &prefix);
    assert(lower@.skip(0) =~= lower@);
    r
}

/// A new library for a table: enabled, no user filter, standard fields.
pub open spec fn create_library_spec(name: Seq<char>) -> LibrarySpec {
    LibrarySpec {
        name,
        table: name,
        enabled: true,
        user_where: false,
        user_where_text: Seq::empty(),
        fields: base_fields_spec(),
    }
}

pub fn create_library(name: &str) -> (l: Library)
    ensures
        l@ == create_library_spec(name@),
{
    Library {
        name: name.to_owned(),
        table: name.to_owned(),
        enabled: true,
        user_where: false,
        user_where_text: String::new(),
        fields: base_fields(),
    }
}

/// The `.DbLib` path kept beside a database file.
pub fn dbl_path_for_db(db_path: &str) -> (p: String)
    ensures
        p@ == set_extension_spec(db_path@, "DbLib"@),
{
    set_extension(db_path, "DbLib")
}


// ---------------------------------------------------------------------------
// Writing
// ---------------------------------------------------------------------------

/// Each line followed by a newline.
pub open spec fn join_lines(ls: Seq<Seq<char>>) -> Seq<char>
    decreases ls.len(),
{
    if ls.len() == 0 {
        Seq::empty()
    } else {
        join_lines(ls.drop_last()) + ls.last() + seq!['\n']
    }
}

pub proof fn lemma_join_lines_append(a: Seq<Seq<char>>, b: Seq<Seq<char>>)
    ensures
        join_lines(a + b) == join_lines(a) + join_lines(b),
    decreases b.len(),
{
    if b.len() == 0 {
        assert(a + b =~= a);
    } else {
        assert((a + b).drop_last() =~= a + b.drop_last());
        lemma_join_lines_append(a, b.drop_last());
    }
}

pub open spec fn bool_text(b: bool, t: Seq<char>, f: Seq<char>) -> Seq<char> {
    if b {
        t
    } else {
        f
    }
}

/// One `[DatabaseLinks]` line; `ConnectionString` takes the current
/// connection string.
pub open spec fn link_line(p: (Seq<char>, Seq<char>), cs: Seq<char>) -> Seq<char> {
    p.0 + "="@ + if p.0 == "ConnectionString"@ {
        cs
    } else {
        p.1
    }
}

pub open spec fn link_lines(links: Seq<(Seq<char>, Seq<char>)>, cs: Seq<char>) -> Seq<Seq<char>> {
    links.map_values(|p: (Seq<char>, Seq<char>)| link_line(p, cs))
}

/// The `[TableN]` block of the library numbered `n` (from 1).
pub open spec fn table_block(l: LibrarySpec, n: nat) -> Seq<Seq<char>> {
    seq![
        "[Table"@ + dec(n) + "]"@,
        "SchemaName="@,
        "TableName="@ + l.table,
        "Enabled="@ + bool_text(l.enabled, "True"@, "False"@),
        "UserWhere="@ + bool_text(l.user_where, "1"@, "0"@),
        "UserWhereText="@ + l.user_where_text,
    ]
}

pub open spec fn table_lines(libs: Seq<LibrarySpec>) -> Seq<Seq<char>>
    decreases libs.len(),
{
    if libs.len() == 0 {
        seq![]
    } else {
        table_lines(libs.drop_last()) + table_block(libs.last(), libs.len())
    }
}

/// The `Options=` value describing one field of table `t`.
pub open spec fn field_options(t: Seq<char>, f: FieldSpec) -> Seq<char> {
    "FieldName="@ + t + "."@ + f.column + "|TableNameOnly="@ + t + "|FieldNameOnly="@ + f.column
        + "|FieldType="@ + bool_text(f.is_key, "0"@, "1"@) + "|ParameterName="@ + f.parameter
        + "|VisibleOnAdd="@ + bool_text(f.visible_on_add, "True"@, "False"@) + "|AddMode="@ + dec(
        f.add_mode as nat,
    ) + "|RemoveMode="@ + dec(f.remove_mode as nat) + "|UpdateMode="@ + dec(f.update_mode as nat)
}

/// `[FieldMapN]` blocks for fields of table `t`, numbered from `first`.
pub open spec fn field_blocks(t: Seq<char>, fields: Seq<FieldSpec>, first: nat) -> Seq<Seq<char>>
    decreases fields.len(),
{
    if fields.len() == 0 {
        seq![]
    } else {
        field_blocks(t, fields.drop_last(), first) + seq![
            "[FieldMap"@ + dec((first + fields.len() - 1) as nat) + "]"@,
            "Options="@ + field_options(t, fields.last()),
        ]
    }
}

pub open spec fn total_fields(libs: Seq<LibrarySpec>) -> nat
    decreases libs.len(),
{
    if libs.len() == 0 {
        0
    } else {
        total_fields(libs.drop_last()) + libs.last().fields.len()
    }
}

pub open spec fn fieldmap_lines(libs: Seq<LibrarySpec>) -> Seq<Seq<char>>
    decreases libs.len(),
{
    if libs.len() == 0 {
        seq![]
    } else {
        fieldmap_lines(libs.drop_last()) + field_blocks(
            libs.last().table,
            libs.last().fields,
            total_fields(libs.drop_last()) + 1,
        )
    }
}

/// All lines of the `.DbLib` text.
pub open spec fn ini_lines(d: DblSpec) -> Seq<Seq<char>> {
    seq!["[OutputDatabaseLinkFile]"@, "Version=1.1"@, "[DatabaseLinks]"@] + link_lines(
        d.database_links,
        d.connection_string,
    ) + table_lines(d.libraries) + fieldmap_lines(d.libraries)
}

/// The `.DbLib` text.
pub open spec fn ini_text(d: DblSpec) -> Seq<char> {
    join_lines(ini_lines(d))
}

/// Appends `line` and a newline.
fn push_line(s: &mut String, line: &String)
    ensures
        final(s)@ == old(s)@ + line@ + seq!['\n'],
{
    push_str(s, line.as_str());
    push_char(s, '\n');
}

fn push_bool(s: &mut String, b: bool, t: &str, f: &str)
    ensures
        final(s)@ == old(s)@ + bool_text(b, t@, f@),
{
    if b {
        push_str(s, t);
    } else {
        push_str(s, f);
    }
}

#[verifier::rlimit(60)]
fn options_line(table: &String, f: &Field) -> (s: String)
    ensures
        s@ == "Options="@ + field_options(table@, f@),
{
    let mut s = String::new();
    push_str(&mut s, "Options=FieldName=");
    push_str(&mut s, table.as_str());
    push_str(&mut s, ".");
    push_str(&mut s, f.column.as_str());
    push_str(&mut s, "|TableNameOnly=");
    push_str(&mut s, table.as_str());
    push_str(&mut s, "|FieldNameOnly=");
    push_str(&mut s, f.column.as_str());
    push_str(&mut s, "|FieldType=");
    push_bool(&mut s, f.is_key, "0", "1");
    push_str(&mut s, "|ParameterName=");
    push_str(&mut s, f.parameter.as_str());
    push_str(&mut s, "|VisibleOnAdd=");
    push_bool(&mut s, f.visible_on_add, "True", "False");
    push_str(&mut s, "|AddMode=");
    push_dec(&mut s, f.add_mode as u64);
    push_str(&mut s, "|RemoveMode=");
    push_dec(&mut s, f.remove_mode as u64);
    push_str(&mut s, "|UpdateMode=");
    push_dec(&mut s, f.update_mode as u64);
    proof {
        reveal_strlit("Options=FieldName=");
        reveal_strlit("Options=");
        reveal_strlit("FieldName=");
        assert("Options=FieldName="@ =~= "Options="@ + "FieldName="@);
    }
    assert(s@ =~= "Options="@ + field_options(table@, f@));
    s
}

fn bracket_line(prefix: &str, n: u64) -> (s: String)
    ensures
        s@ == prefix@ + dec(n as nat) + "]"@,
{
    let mut s = String::new();
    push_str(&mut s, prefix);
    push_dec(&mut s, n);
    push_str(&mut s, "]");
    s
}

fn kv_line(key: &str, value: &str) -> (s: String)
    ensures
        s@ == key@ + value@,
{
    let mut s = String::new();
    push_str(&mut s, key);
    push_str(&mut s, value);
    s
}

fn bool_line(key: &str, b: bool, t: &str, f: &str) -> (s: String)
    ensures
        s@ == key@ + bool_text(b, t@, f@),
{
    let mut s = String::new();
    push_str(&mut s, key);
    push_bool(&mut s, b, t, f);
    s
}


pub proof fn lemma_join_lines_push(a: Seq<Seq<char>>, l: Seq<char>)
    ensures
        join_lines(a.push(l)) == join_lines(a) + l + seq!['\n'],
{
    assert(a.push(l).drop_last() =~= a);
}

fn push_links(s: &mut String, links: &Vec<(String, String)>, cs: &String)
    ensures
        final(s)@ == old(s)@ + join_lines(link_lines(links_view(links@), cs@)),
{
    let ghost start = s@;
    let ghost lv = links_view(links@);
    let cs_key = chars_of("ConnectionString");
    let mut i: usize = 0;
    assert(link_lines(lv.take(0), cs@) =~= Seq::<Seq<char>>::empty());
    while i < links.len()
        invariant
            i <= links@.len(),
            lv == links_view(links@),
            cs_key@ == "ConnectionString"@,
            s@ == start + join_lines(link_lines(lv.take(i as int), cs@)),
        decreases links@.len() - i,
    {
        let key = chars_of(links[i].0.as_str());
        let mut line = String::new();
        push_str(&mut line, links[i].0.as_str());
        push_str(&mut line, "=");
        if chars_eq(&key, &cs_key) {
            push_str(&mut line, cs.as_str());
        } else {
            push_str(&mut line, links[i].1.as_str());
        }
        proof {
            assert(line@ == link_line(lv[i as int], cs@));
            assert(link_lines(lv.take(i + 1), cs@) =~= link_lines(lv.take(i as int), cs@).push(
                link_line(lv[i as int], cs@),
            ));
            lemma_join_lines_push(link_lines(lv.take(i as int), cs@), line@);
        }
        push_line(s, &line);
        i += 1;
    }
    assert(lv.take(links@.len() as int) =~= lv);
}

proof fn lemma_join_six(
    prev: Seq<Seq<char>>,
    l1: Seq<char>,
    l2: Seq<char>,
    l3: Seq<char>,
    l4: Seq<char>,
    l5: Seq<char>,
    l6: Seq<char>,
)
    ensures
        join_lines(prev + seq![l1, l2, l3, l4, l5, l6]) == join_lines(prev) + l1 + seq!['\n'] + l2
            + seq!['\n'] + l3 + seq!['\n'] + l4 + seq!['\n'] + l5 + seq!['\n'] + l6 + seq!['\n'],
{
    assert(prev + seq![l1, l2, l3, l4, l5, l6] =~= prev.push(l1).push(l2).push(l3).push(l4).push(
        l5,
    ).push(l6));
    lemma_join_lines_push(prev, l1);
    lemma_join_lines_push(prev.push(l1), l2);
    lemma_join_lines_push(prev.push(l1).push(l2), l3);
    lemma_join_lines_push(prev.push(l1).push(l2).push(l3), l4);
    lemma_join_lines_push(prev.push(l1).push(l2).push(l3).push(l4), l5);
    lemma_join_lines_push(prev.push(l1).push(l2).push(l3).push(l4).push(l5), l6);
}

proof fn lemma_join_two(prev: Seq<Seq<char>>, l1: Seq<char>, l2: Seq<char>)
    ensures
        join_lines(prev + seq![l1, l2]) == join_lines(prev) + l1 + seq!['\n'] + l2 + seq!['\n'],
{
    assert(prev + seq![l1, l2] =~= prev.push(l1).push(l2));
    lemma_join_lines_push(prev, l1);
    lemma_join_lines_push(prev.push(l1), l2);
}

fn table_block_text(lib: &Library, n: u64) -> (t: String)
    ensures
        t@ == join_lines(table_block(lib@, n as nat)),
{
    let l1 = bracket_line("[Table", n);
    let l2 = kv_line("SchemaName=", "");
    let l3 = kv_line("TableName=", lib.table.as_str());
    let l4 = bool_line("Enabled=", lib.enabled, "True", "False");
    let l5 = bool_line("UserWhere=", lib.user_where, "1", "0");
    let l6 = kv_line("UserWhereText=", lib.user_where_text.as_str());
    let mut t = String::new();
    push_line(&mut t, &l1);
    push_line(&mut t, &l2);
    push_line(&mut t, &l3);
    push_line(&mut t, &l4);
    push_line(&mut t, &l5);
    push_line(&mut t, &l6);
    proof {
        reveal_strlit("");
        assert(l2@ =~= "SchemaName="@);
        assert(table_block(lib@, n as nat) =~= seq![l1@, l2@, l3@, l4@, l5@, l6@]);
        lemma_join_six(Seq::empty(), l1@, l2@, l3@, l4@, l5@, l6@);
        assert(Seq::<Seq<char>>::empty() + seq![l1@, l2@, l3@, l4@, l5@, l6@] =~= seq![
            l1@,
            l2@,
            l3@,
            l4@,
            l5@,
            l6@,
        ]);
        assert(join_lines(Seq::<Seq<char>>::empty()) =~= Seq::<char>::empty());
    }
    assert(t@ =~= join_lines(table_block(lib@, n as nat)));
    t
}

fn push_tables(s: &mut String, libs: &Vec<Library>)
    ensures
        final(s)@ == old(s)@ + join_lines(table_lines(libraries_view(libs@))),
{
    let ghost start = s@;
    let ghost lv = libraries_view(libs@);
    let mut i: usize = 0;
    assert(lv.take(0) =~= Seq::<LibrarySpec>::empty());
    while i < libs.len()
        invariant
            i <= libs@.len(),
            lv == libraries_view(libs@),
            s@ == start + join_lines(table_lines(lv.take(i as int))),
        decreases libs@.len() - i,
    {
        let blk = table_block_text(&libs[i], (i + 1) as u64);
        push_str(s, blk.as_str());
        proof {
            let prev = table_lines(lv.take(i as int));
            assert(lv.take(i + 1).drop_last() =~= lv.take(i as int));
            assert(lv.take(i + 1).last() == libs@[i as int]@);
            assert(table_lines(lv.take(i + 1)) == prev + table_block(libs@[i as int]@, (i + 1) as nat));
            lemma_join_lines_append(prev, table_block(libs@[i as int]@, (i + 1) as nat));
            assert(s@ =~= start + join_lines(table_lines(lv.take(i + 1))));
        }
        i += 1;
    }
    assert(lv.take(libs@.len() as int) =~= lv);
}


pub proof fn lemma_total_fields_take(libs: Seq<LibrarySpec>, k: int)
    requires
        0 <= k <= libs.len(),
    ensures
        total_fields(libs.take(k)) <= total_fields(libs),
    decreases libs.len() - k,
{
    if k < libs.len() {
        assert(libs.drop_last().take(k) =~= libs.take(k));
        lemma_total_fields_take(libs.drop_last(), k);
    } else {
        assert(libs.take(k) =~= libs);
    }
}

fn field_block_text(table: &String, f: &Field, n: u64) -> (t: String)
    ensures
        t@ == join_lines(seq!["[FieldMap"@ + dec(n as nat) + "]"@, "Options="@ + field_options(table@, f@)]),
{
    let l1 = bracket_line("[FieldMap", n);
    let l2 = options_line(table, f);
    let mut t = String::new();
    push_line(&mut t, &l1);
    push_line(&mut t, &l2);
    proof {
        lemma_join_two(Seq::empty(), l1@, l2@);
        assert(Seq::<Seq<char>>::empty() + seq![l1@, l2@] =~= seq![l1@, l2@]);
        assert(join_lines(Seq::<Seq<char>>::empty()) =~= Seq::<char>::empty());
    }
    assert(t@ =~= join_lines(seq![l1@, l2@]));
    t
}

fn push_fieldmaps(s: &mut String, libs: &Vec<Library>)
    requires
        total_fields(libraries_view(libs@)) < u64::MAX,
    ensures
        final(s)@ == old(s)@ + join_lines(fieldmap_lines(libraries_view(libs@))),
{
    let ghost start = s@;
    let ghost lv = libraries_view(libs@);
    let mut fm: u64 = 1;
    let mut i: usize = 0;
    assert(lv.take(0) =~= Seq::<LibrarySpec>::empty());
    while i < libs.len()
        invariant
            i <= libs@.len(),
            lv == libraries_view(libs@),
            total_fields(lv) < u64::MAX,
            fm == total_fields(lv.take(i as int)) + 1,
            s@ == start + join_lines(fieldmap_lines(lv.take(i as int))),
        decreases libs@.len() - i,
    {
        let lib = &libs[i];
        let ghost base = total_fields(lv.take(i as int));
        let ghost fv = fields_view(lib.fields@);
        let ghost mid = s@;
        proof {
            assert(lv.take(i + 1).drop_last() =~= lv.take(i as int));
            assert(lv.take(i + 1).last() == lib@);
            lemma_total_fields_take(lv, i + 1);
            assert(fv.take(0) =~= Seq::<FieldSpec>::empty());
        }
        let mut j: usize = 0;
        while j < lib.fields.len()
            invariant
                j <= lib.fields@.len(),
                fv == fields_view(lib.fields@),
                base + fv.len() <= total_fields(lv),
                total_fields(lv) < u64::MAX,
                fm == base + 1 + j,
                s@ == mid + join_lines(field_blocks(lib.table@, fv.take(j as int), (base + 1) as nat)),
            decreases lib.fields@.len() - j,
        {
            let blk = field_block_text(&lib.table, &lib.fields[j], fm);
            push_str(s, blk.as_str());
            proof {
                let prev = field_blocks(lib.table@, fv.take(j as int), (base + 1) as nat);
                let two = seq![
                    "[FieldMap"@ + dec(fm as nat) + "]"@,
                    "Options="@ + field_options(lib.table@, lib.fields@[j as int]@),
                ];
                assert(fv.take(j + 1).drop_last() =~= fv.take(j as int));
                assert(fv.take(j + 1).last() == lib.fields@[j as int]@);
                assert(field_blocks(lib.table@, fv.take(j + 1), (base + 1) as nat) == prev + two);
                lemma_join_lines_append(prev, two);
                assert(s@ =~= mid + join_lines(field_blocks(lib.table@, fv.take(j + 1), (base + 1) as nat)));
            }
            fm = fm + 1;
            j += 1;
        }
        proof {
            assert(fv.take(fv.len() as int) =~= fv);
            lemma_join_lines_append(fieldmap_lines(lv.take(i as int)), field_blocks(lib.table@, fv, (base + 1) as nat));
        }
        i += 1;
    }
    assert(lv.take(libs@.len() as int) =~= lv);
}

impl AltiumDbl {
    pub fn to_ini(&self) -> (s: String)
        requires
            total_fields(self@.libraries) < u64::MAX,
        ensures
            s@ == ini_text(self@),
    {
        let mut s = String::new();
        let h1 = "[OutputDatabaseLinkFile]".to_owned();
        let h2 = "Version=1.1".to_owned();
        let h3 = "[DatabaseLinks]".to_owned();
        push_line(&mut s, &h1);
        push_line(&mut s, &h2);
        push_line(&mut s, &h3);
        let ghost s0 = s@;
        push_links(&mut s, &self.database_links, &self.connection_string);
        let ghost s1 = s@;
        push_tables(&mut s, &self.libraries);
        let ghost s2 = s@;
        push_fieldmaps(&mut s, &self.libraries);
        proof {
            let hdr = seq!["[OutputDatabaseLinkFile]"@, "Version=1.1"@, "[DatabaseLinks]"@];
            let ll = link_lines(self@.database_links, self@.connection_string);
            let tl = table_lines(self@.libraries);
            let fl = fieldmap_lines(self@.libraries);
            assert(hdr =~= Seq::<Seq<char>>::empty().push(h1@).push(h2@).push(h3@));
            lemma_join_lines_push(Seq::<Seq<char>>::empty(), h1@);
            lemma_join_lines_push(Seq::<Seq<char>>::empty().push(h1@), h2@);
            lemma_join_lines_push(Seq::<Seq<char>>::empty().push(h1@).push(h2@), h3@);
            assert(join_lines(Seq::<Seq<char>>::empty()) =~= Seq::<char>::empty());
            assert(s0 =~= join_lines(hdr));
            lemma_join_lines_append(hdr, ll);
            lemma_join_lines_append(hdr + ll, tl);
            lemma_join_lines_append(hdr + ll + tl, fl);
            assert(s@ =~= ini_text(self@));
        }
        s
    }
}


// ---------------------------------------------------------------------------
// Reading
// ---------------------------------------------------------------------------

/// `str::split_once('=')`.
pub open spec fn split_once_eq(s: Seq<char>) -> Option<(Seq<char>, Seq<char>)> {
    match find_first(s, |c: char| c == '=') {
        Some(i) => Some((s.take(i), s.skip(i + 1))),
        None => None,
    }
}

/// `str::parse::<u8>`.
pub open spec fn parse_u8(s: Seq<char>) -> Option<u8> {
    match crate::text::parse_u64(s) {
        Some(x) => if x <= 255 {
            Some(x as u8)
        } else {
            None
        },
        None => None,
    }
}

/// What the parts of an `Options=` value set, later parts overriding
/// earlier ones.
pub struct OptionsSpec {
    pub column: Seq<char>,
    pub table: Seq<char>,
    pub parameter: Seq<char>,
    pub field_type: u8,
    pub visible: bool,
    pub add_mode: u8,
    pub remove_mode: u8,
    pub update_mode: u8,
}

pub open spec fn options_init() -> OptionsSpec {
    OptionsSpec {
        column: Seq::empty(),
        table: Seq::empty(),
        parameter: Seq::empty(),
        field_type: 1,
        visible: false,
        add_mode: 0,
        remove_mode: 0,
        update_mode: 0,
    }
}

pub open spec fn or_default(v: Option<u8>, d: u8) -> u8 {
    match v {
        Some(x) => x,
        None => d,
    }
}

/// One `KEY=VALUE` part of an `Options=` value.
pub open spec fn options_step(o: OptionsSpec, part: Seq<char>) -> OptionsSpec {
    match split_once_eq(part) {
        None => o,
        Some((k, v)) => if k == "FieldNameOnly"@ {
            OptionsSpec { column: v, ..o }
        } else if k == "TableNameOnly"@ {
            OptionsSpec { table: v, ..o }
        } else if k == "ParameterName"@ {
            OptionsSpec { parameter: v, ..o }
        } else if k == "FieldType"@ {
            OptionsSpec { field_type: or_default(parse_u8(v), 1), ..o }
        } else if k == "VisibleOnAdd"@ {
            OptionsSpec { visible: eq_ignore_ascii_case(v, "true"@), ..o }
        } else if k == "AddMode"@ {
            OptionsSpec { add_mode: or_default(parse_u8(v), 0), ..o }
        } else if k == "RemoveMode"@ {
            OptionsSpec { remove_mode: or_default(parse_u8(v), 0), ..o }
        } else if k == "UpdateMode"@ {
            OptionsSpec { update_mode: or_default(parse_u8(v), 0), ..o }
        } else {
            o
        },
    }
}

pub open spec fn options_run(parts: Seq<Seq<char>>) -> OptionsSpec
    decreases parts.len(),
{
    if parts.len() == 0 {
        options_init()
    } else {
        options_step(options_run(parts.drop_last()), parts.last())
    }
}

/// The field settings of an `Options=` value (parts separated by `|`).
pub open spec fn parse_options(v: Seq<char>) -> OptionsSpec {
    options_run(crate::text::split_seq(v, '|'))
}

/// Reader state between lines: the document so far, the current section
/// and the library that the current `[TableN]` section created.
pub struct IniState {
    pub dbl: DblSpec,
    pub section: Seq<char>,
    pub last: Option<int>,
}

pub open spec fn ini_init() -> IniState {
    IniState {
        dbl: DblSpec {
            connection_string: Seq::empty(),
            database_links: Seq::empty(),
            libraries: Seq::empty(),
        },
        section: Seq::empty(),
        last: None,
    }
}

pub open spec fn new_table(name: Seq<char>) -> LibrarySpec {
    LibrarySpec {
        name,
        table: name,
        enabled: true,
        user_where: false,
        user_where_text: Seq::empty(),
        fields: Seq::empty(),
    }
}

pub open spec fn with_libraries(st: IniState, libs: Seq<LibrarySpec>) -> IniState {
    IniState { dbl: DblSpec { libraries: libs, ..st.dbl }, ..st }
}

/// A `KEY=VALUE` line inside a `[TableN]` section.
pub open spec fn table_step(st: IniState, k: Seq<char>, v: Seq<char>) -> IniState {
    let libs = st.dbl.libraries;
    if k == "TableName"@ {
        if is_internal_table_spec(v) {
            IniState { last: None, ..st }
        } else {
            IniState { last: Some(libs.len() as int), ..with_libraries(st, libs.push(new_table(v))) }
        }
    } else if k == "Enabled"@ {
        match st.last {
            Some(i) => with_libraries(st, libs.update(i, LibrarySpec { enabled: eq_ignore_ascii_case(v, "true"@), ..libs[i] })),
            None => st,
        }
    } else if k == "UserWhere"@ {
        match st.last {
            Some(i) => with_libraries(st, libs.update(i, LibrarySpec { user_where: v == "1"@, ..libs[i] })),
            None => st,
        }
    } else if k == "UserWhereText"@ {
        match st.last {
            Some(i) => with_libraries(st, libs.update(i, LibrarySpec { user_where_text: v, ..libs[i] })),
            None => st,
        }
    } else {
        st
    }
}

/// The field an `Options=` value describes.
pub open spec fn options_field(o: OptionsSpec) -> FieldSpec {
    FieldSpec {
        column: o.column,
        parameter: o.parameter,
        is_key: o.field_type == 0,
        visible_on_add: o.visible,
        add_mode: o.add_mode,
        remove_mode: o.remove_mode,
        update_mode: o.update_mode,
    }
}

/// Whether a library's table is `t`.
pub open spec fn table_is(t: Seq<char>) -> spec_fn(LibrarySpec) -> bool {
    |l: LibrarySpec| l.table == t
}

/// An `Options=` line: the field joins the first library of its table.
pub open spec fn fieldmap_step(st: IniState, v: Seq<char>) -> IniState {
    let o = parse_options(v);
    let libs = st.dbl.libraries;
    if o.column.len() > 0 && !is_internal_table_spec(o.table) {
        match find_first(libs, table_is(o.table)) {
            Some(i) => with_libraries(st, libs.update(i, LibrarySpec { fields: libs[i].fields.push(options_field(o)), ..libs[i] })),
            None => st,
        }
    } else {
        st
    }
}

/// One line of the document.
pub open spec fn ini_step(st: IniState, raw: Seq<char>) -> IniState {
    let line = crate::text::trim_seq(raw);
    if line.len() == 0 {
        st
    } else if line[0] == '[' && line.last() == ']' {
        IniState { section: line.subrange(1, line.len() - 1), last: None, ..st }
    } else {
        match split_once_eq(line) {
            None => st,
            Some((k0, v0)) => ini_kv(st, crate::text::trim_seq(k0), crate::text::trim_seq(v0)),
        }
    }
}

/// A `KEY=VALUE` line (key and value trimmed) in the current section.
pub open spec fn ini_kv(st: IniState, k: Seq<char>, v: Seq<char>) -> IniState {
    if st.section == "DatabaseLinks"@ {
        IniState {
            dbl: DblSpec {
                connection_string: if k == "ConnectionString"@ {
                    v
                } else {
                    st.dbl.connection_string
                },
                database_links: st.dbl.database_links.push((k, v)),
                ..st.dbl
            },
            ..st
        }
    } else if has_prefix(st.section, "Table"@) {
        table_step(st, k, v)
    } else if has_prefix(st.section, "FieldMap"@) && k == "Options"@ {
        fieldmap_step(st, v)
    } else {
        st
    }
}

pub open spec fn ini_run(st: IniState, lines: Seq<Seq<char>>) -> IniState
    decreases lines.len(),
{
    if lines.len() == 0 {
        st
    } else {
        ini_step(ini_run(st, lines.drop_last()), lines.last())
    }
}

/// The document a `.DbLib` text describes: its lines (split at `\n`,
/// trimmed, blank ones skipped) read in order.
pub open spec fn from_ini_spec(content: Seq<char>) -> DblSpec {
    ini_run(ini_init(), crate::text::split_seq(content, '\n')).dbl
}


fn find_eq(v: &[char]) -> (r: Option<usize>)
    ensures
        match r {
            Some(i) => i < v.len() && find_first(v@, |c: char| c == '=') == Some(i as int),
            None => find_first(v@, |c: char| c == '=') is None,
        },
{
    let mut i: usize = 0;
    while i < v.len()
        invariant
            i <= v@.len(),
            find_first(v@.take(i as int), |c: char| c == '=') is None,
        decreases v@.len() - i,
    {
        assert(v@.take(i + 1).drop_last() =~= v@.take(i as int));
        if v[i] == '=' {
            proof {
                lemma_find_first(v@.take(i as int), |c: char| c == '=');
                assert forall|j: int| 0 <= j < i implies !(#[trigger] v@[j] == '=') by {
                    assert(v@.take(i as int)[j] == v@[j]);
                }
                crate::text::lemma_find_first_at(v@, |c: char| c == '=', i as int);
            }
            return Some(i);
        }
        i += 1;
    }
    assert(v@.take(v@.len() as int) =~= v@);
    None
}

pub fn parse_u8_chars(v: &[char]) -> (r: Option<u8>)
    ensures
        r == parse_u8(v@),
{
    match crate::text::parse_u64_chars(v) {
        Some(x) => if x <= 255 {
            Some(x as u8)
        } else {
            None
        },
        None => None,
    }
}

fn is_lit(v: &[char], lit: &str) -> (r: bool)
    ensures
        r == (v@ == lit@),
{
    let l = chars_of(lit);
    chars_eq(v, &l)
}

/// The settings read from an `Options=` value.
pub struct OptionsExec {
    pub column: Vec<char>,
    pub table: Vec<char>,
    pub parameter: Vec<char>,
    pub field_type: u8,
    pub visible: bool,
    pub add_mode: u8,
    pub remove_mode: u8,
    pub update_mode: u8,
}

impl View for OptionsExec {
    type V = OptionsSpec;

    open spec fn view(&self) -> OptionsSpec {
        OptionsSpec {
            column: self.column@,
            table: self.table@,
            parameter: self.parameter@,
            field_type: self.field_type,
            visible: self.visible,
            add_mode: self.add_mode,
            remove_mode: self.remove_mode,
            update_mode: self.update_mode,
        }
    }
}

fn copy_chars(v: &[char]) -> (r: Vec<char>)
    ensures
        r@ == v@,
{
    vstd::slice::slice_to_vec(v)
}

fn options_step_exec(o: &mut OptionsExec, part: &[char])
    ensures
        final(o)@ == options_step(old(o)@, part@),
{
    let e = match find_eq(part) {
        Some(e) => e,
        None => return ,
    };
    let k = &part[0..e];
    let v = &part[e + 1..part.len()];
    assert(k@ =~= part@.take(e as int));
    assert(v@ =~= part@.skip(e + 1));
    if is_lit(k, "FieldNameOnly") {
        o.column = copy_chars(v);
    } else if is_lit(k, "TableNameOnly") {
        o.table = copy_chars(v);
    } else if is_lit(k, "ParameterName") {
        o.parameter = copy_chars(v);
    } else if is_lit(k, "FieldType") {
        o.field_type = match parse_u8_chars(v) {
            Some(x) => x,
            None => 1,
        };
    } else if is_lit(k, "VisibleOnAdd") {
        let t = chars_of("true");
        o.visible = chars_eq_ignore_ascii_case(v, &t);
    } else if is_lit(k, "AddMode") {
        o.add_mode = match parse_u8_chars(v) {
            Some(x) => x,
            None => 0,
        };
    } else if is_lit(k, "RemoveMode") {
        o.remove_mode = match parse_u8_chars(v) {
            Some(x) => x,
            None => 0,
        };
    } else if is_lit(k, "UpdateMode") {
        o.update_mode = match parse_u8_chars(v) {
            Some(x) => x,
            None => 0,
        };
    }
}

fn parse_options_exec(v: &[char]) -> (o: OptionsExec)
    ensures
        o@ == parse_options(v@),
{
    let ranges = crate::text::split_ranges(v, '|');
    let ghost parts = crate::text::split_seq(v@, '|');
    let mut o = OptionsExec {
        column: Vec::new(),
        table: Vec::new(),
        parameter: Vec::new(),
        field_type: 1,
        visible: false,
        add_mode: 0,
        remove_mode: 0,
        update_mode: 0,
    };
    assert(o@ =~= options_init());
    let mut k: usize = 0;
    while k < ranges.len()
        invariant
            k <= ranges@.len(),
            ranges@.len() == parts.len(),
            parts == crate::text::split_seq(v@, '|'),
            forall|j: int|
                0 <= j < ranges@.len() ==> (#[trigger] ranges@[j]).0 <= ranges@[j].1 <= v@.len()
                    && v@.subrange(ranges@[j].0 as int, ranges@[j].1 as int) == parts[j],
            o@ == options_run(parts.take(k as int)),
        decreases ranges@.len() - k,
    {
        let (a, b) = ranges[k];
        assert(parts.take(k + 1).drop_last() =~= parts.take(k as int));
        options_step_exec(&mut o, &v[a..b]);
        k += 1;
    }
    assert(parts.take(ranges@.len() as int) =~= parts);
    o
}

/// Ghost view of the reader state.
pub open spec fn state_of(d: DblSpec, section: Seq<char>, last: Option<usize>) -> IniState {
    IniState {
        dbl: d,
        section,
        last: match last {
            Some(i) => Some(i as int),
            None => None,
        },
    }
}

pub open spec fn last_ok(d: DblSpec, last: Option<usize>) -> bool {
    last matches Some(i) ==> i < d.libraries.len()
}

fn table_step_exec(dbl: &mut AltiumDbl, last: &mut Option<usize>, k: &[char], v: &[char], section: Ghost<Seq<char>>)
    requires
        last_ok(old(dbl)@, *old(last)),
    ensures
        last_ok(final(dbl)@, *final(last)),
        state_of(final(dbl)@, section@, *final(last)) == table_step(state_of(old(dbl)@, section@, *old(last)), k@, v@),
{
    let ghost st = state_of(dbl@, section@, *last);
    if is_lit(k, "TableName") {
        let vs = string_from_chars(v);
        if is_internal_table(vs.as_str()) {
            *last = None;
        } else {
            let lib = Library {
                name: string_from_chars(v),
                table: vs,
                enabled: true,
                user_where: false,
                user_where_text: String::new(),
                fields: Vec::new(),
            };
            assert(fields_view(lib.fields@) =~= Seq::<FieldSpec>::empty());
            assert(lib@ =~= new_table(v@));
            dbl.libraries.push(lib);
            *last = Some(dbl.libraries.len() - 1);
            assert(libraries_view(dbl.libraries@) =~= st.dbl.libraries.push(new_table(v@)));
        }
    } else if is_lit(k, "Enabled") {
        if let Some(i) = *last {
            let t = chars_of("true");
            let b = chars_eq_ignore_ascii_case(v, &t);
            dbl.libraries[i].enabled = b;
            assert(libraries_view(dbl.libraries@) =~= st.dbl.libraries.update(i as int, LibrarySpec { enabled: b, ..st.dbl.libraries[i as int] }));
        }
    } else if is_lit(k, "UserWhere") {
        if let Some(i) = *last {
            let b = is_lit(v, "1");
            dbl.libraries[i].user_where = b;
            assert(libraries_view(dbl.libraries@) =~= st.dbl.libraries.update(i as int, LibrarySpec { user_where: b, ..st.dbl.libraries[i as int] }));
        }
    } else if is_lit(k, "UserWhereText") {
        if let Some(i) = *last {
            let t = string_from_chars(v);
            dbl.libraries[i].user_where_text = t;
            assert(libraries_view(dbl.libraries@) =~= st.dbl.libraries.update(i as int, LibrarySpec { user_where_text: v@, ..st.dbl.libraries[i as int] }));
        }
    }
}

fn fieldmap_step_exec(dbl: &mut AltiumDbl, v: &[char], section: Ghost<Seq<char>>, last: Ghost<Option<usize>>)
    ensures
        final(dbl)@.connection_string == old(dbl)@.connection_string,
        final(dbl)@.database_links == old(dbl)@.database_links,
        final(dbl)@.libraries.len() == old(dbl)@.libraries.len(),
        state_of(final(dbl)@, section@, last@) == fieldmap_step(state_of(old(dbl)@, section@, last@), v@),
{
    let ghost st = state_of(dbl@, section@, last@);
    let o = parse_options_exec(v);
    if o.column.len() == 0 {
        return ;
    }
    let table = string_from_chars(&o.table);
    if is_internal_table(table.as_str()) {
        return ;
    }
    let ghost lv = libraries_view(dbl.libraries@);
    let mut i: usize = 0;
    while i < dbl.libraries.len()
        invariant
            i <= dbl.libraries@.len(),
            lv == libraries_view(dbl.libraries@),
            dbl@ == st.dbl,
            st.dbl == old(dbl)@,
            st == state_of(old(dbl)@, section@, last@),
            o@ == parse_options(v@),
            o@.column.len() > 0,
            !is_internal_table_spec(o@.table),
            table@ == o.table@,
            find_first(lv.take(i as int), table_is(o.table@)) is None,
        decreases dbl.libraries@.len() - i,
    {
        assert(lv.take(i + 1).drop_last() =~= lv.take(i as int));
        let tv = chars_of(dbl.libraries[i].table.as_str());
        if chars_eq(&tv, &o.table) {
            proof {
                lemma_find_first(lv.take(i as int), table_is(o.table@));
                assert forall|j: int| 0 <= j < i implies !table_is(o.table@)(#[trigger] lv[j]) by {
                    assert(lv.take(i as int)[j] == lv[j]);
                }
                crate::text::lemma_find_first_at(lv, table_is(o.table@), i as int);
            }
            let f = Field {
                column: string_from_chars(&o.column),
                parameter: string_from_chars(&o.parameter),
                is_key: o.field_type == 0,
                visible_on_add: o.visible,
                add_mode: o.add_mode,
                remove_mode: o.remove_mode,
                update_mode: o.update_mode,
            };
            assert(f@ =~= options_field(o@));
            dbl.libraries[i].fields.push(f);
            assert(fields_view(dbl.libraries@[i as int].fields@) =~= lv[i as int].fields.push(options_field(o@)));
            assert(libraries_view(dbl.libraries@) =~= lv.update(i as int, LibrarySpec { fields: lv[i as int].fields.push(options_field(o@)), ..lv[i as int] }));
            assert(dbl@.connection_string == st.dbl.connection_string);
            assert(dbl@.database_links == st.dbl.database_links);
            proof {
                let newl = lv.update(i as int, LibrarySpec { fields: lv[i as int].fields.push(options_field(o@)), ..lv[i as int] });
                assert(o@.column.len() > 0);
                assert(!is_internal_table_spec(o@.table));
                assert(find_first(st.dbl.libraries, table_is(o@.table)) == Some(i as int));
                assert(fieldmap_step(st, v@) == with_libraries(st, newl));
                assert(dbl@ =~= DblSpec { libraries: newl, ..st.dbl });
            }
            return ;
        }
        i += 1;
    }
    assert(lv.take(lv.len() as int) =~= lv);
}

fn apply_line(dbl: &mut AltiumDbl, section: &mut Vec<char>, last: &mut Option<usize>, raw: &[char])
    requires
        last_ok(old(dbl)@, *old(last)),
    ensures
        last_ok(final(dbl)@, *final(last)),
        state_of(final(dbl)@, final(section)@, *final(last)) == ini_step(state_of(old(dbl)@, old(section)@, *old(last)), raw@),
{
    let line = crate::text::trim_chars(raw);
    if line.len() == 0 {
        return ;
    }
    let n = line.len();
    if line[0] == '[' && line[n - 1] == ']' {
        *section = copy_chars(&line[1..n - 1]);
        *last = None;
        return ;
    }
    let e = match find_eq(&line) {
        Some(e) => e,
        None => return ,
    };
    assert(line@.take(e as int) =~= line@.subrange(0, e as int));
    assert(line@.skip(e + 1) =~= line@.subrange(e + 1, n as int));
    let k = crate::text::trim_chars(&line[0..e]);
    let v = crate::text::trim_chars(&line[e + 1..n]);
    if is_lit(section, "DatabaseLinks") {
        let ks = string_from_chars(&k);
        let vs = string_from_chars(&v);
        if is_lit(&k, "ConnectionString") {
            dbl.connection_string = string_from_chars(&v);
        }
        dbl.database_links.push((ks, vs));
        assert(links_view(dbl.database_links@) =~= links_view(old(dbl).database_links@).push((k@, v@)));
        return ;
    }
    let table_prefix = chars_of("Table");
    let fm_prefix = chars_of("FieldMap");
    assert(section@.skip(0) =~= section@);
    if crate::text::starts_with_at(section, 0, &table_prefix) {
        table_step_exec(dbl, last, &k, &v, Ghost(section@));
    } else if crate::text::starts_with_at(section, 0, &fm_prefix) && is_lit(&k, "Options") {
        fieldmap_step_exec(dbl, &v, Ghost(section@), Ghost(*last));
    }
}

impl AltiumDbl {
    pub fn from_ini(content: &str) -> (r: Result<Self, String>)
        ensures
            r matches Ok(d) && d@ == from_ini_spec(content@),
    {
        let mut dbl = AltiumDbl {
            connection_string: String::new(),
            database_links: Vec::new(),
            libraries: Vec::new(),
        };
        let mut section: Vec<char> = Vec::new();
        let mut last: Option<usize> = None;
        let v = chars_of(content);
        let ranges = crate::text::split_ranges(&v, '\n');
        let ghost lines = crate::text::split_seq(v@, '\n');
        assert(links_view(dbl.database_links@) =~= Seq::<(Seq<char>, Seq<char>)>::empty());
        assert(libraries_view(dbl.libraries@) =~= Seq::<LibrarySpec>::empty());
        assert(state_of(dbl@, section@, last) =~= ini_init());
        let mut k: usize = 0;
        while k < ranges.len()
            invariant
                k <= ranges@.len(),
                ranges@.len() == lines.len(),
                lines == crate::text::split_seq(content@, '\n'),
                forall|j: int|
                    0 <= j < ranges@.len() ==> (#[trigger] ranges@[j]).0 <= ranges@[j].1 <= v@.len()
                        && v@.subrange(ranges@[j].0 as int, ranges@[j].1 as int) == lines[j],
                last_ok(dbl@, last),
                state_of(dbl@, section@, last) == ini_run(ini_init(), lines.take(k as int)),
            decreases ranges@.len() - k,
        {
            let (a, b) = ranges[k];
            assert(lines.take(k + 1).drop_last() =~= lines.take(k as int));
            apply_line(&mut dbl, &mut section, &mut last, &v[a..b]);
            k += 1;
        }
        assert(lines.take(ranges@.len() as int) =~= lines);
        Ok(dbl)
    }
}


// ---------------------------------------------------------------------------
// Editing
// ---------------------------------------------------------------------------

/// Whether a link's key is `k`.
pub open spec fn link_key_is(k: Seq<char>) -> spec_fn((Seq<char>, Seq<char>)) -> bool {
    |p: (Seq<char>, Seq<char>)| p.0 == k
}

/// The first link with key `k` takes value `v`; without one, `(k, v)` is
/// appended.
pub open spec fn set_link_spec(links: Seq<(Seq<char>, Seq<char>)>, k: Seq<char>, v: Seq<char>) -> Seq<(Seq<char>, Seq<char>)> {
    match find_first(links, link_key_is(k)) {
        Some(i) => links.update(i, (links[i].0, v)),
        None => links.push((k, v)),
    }
}

/// Libraries whose table is not `t`, in order.
pub open spec fn retain_spec(libs: Seq<LibrarySpec>, t: Seq<char>) -> Seq<LibrarySpec>
    decreases libs.len(),
{
    if libs.len() == 0 {
        Seq::empty()
    } else if libs.last().table == t {
        retain_spec(libs.drop_last(), t)
    } else {
        retain_spec(libs.drop_last(), t).push(libs.last())
    }
}

/// Whether a field's column is `c`.
pub open spec fn column_is(c: Seq<char>) -> spec_fn(FieldSpec) -> bool {
    |f: FieldSpec| f.column == c
}

/// Fields with the first occurrence of each column kept.
pub open spec fn dedup_spec(fs: Seq<FieldSpec>) -> Seq<FieldSpec>
    decreases fs.len(),
{
    if fs.len() == 0 {
        Seq::empty()
    } else {
        let r = dedup_spec(fs.drop_last());
        if find_first(r, column_is(fs.last().column)) is Some {
            r
        } else {
            r.push(fs.last())
        }
    }
}

/// Fields whose column is not a standard one, in order.
pub open spec fn extra_fields(fs: Seq<FieldSpec>) -> Seq<FieldSpec>
    decreases fs.len(),
{
    if fs.len() == 0 {
        Seq::empty()
    } else if base_columns().contains(fs.last().column) {
        extra_fields(fs.drop_last())
    } else {
        extra_fields(fs.drop_last()).push(fs.last())
    }
}

/// The standard fields first, in canonical order, each taken from the
/// library when it has one with that column; then the other fields. Fields
/// repeating an earlier column are dropped.
pub open spec fn ordered_fields(fs: Seq<FieldSpec>) -> Seq<FieldSpec> {
    let d = dedup_spec(fs);
    ordered_base(d) + extra_fields(d)
}

pub open spec fn with_ordered_fields(l: LibrarySpec) -> LibrarySpec {
    LibrarySpec { fields: ordered_fields(l.fields), ..l }
}

fn copy_field(f: &Field) -> (r: Field)
    ensures
        r@ == f@,
{
    Field {
        column: f.column.clone(),
        parameter: f.parameter.clone(),
        is_key: f.is_key,
        visible_on_add: f.visible_on_add,
        add_mode: f.add_mode,
        remove_mode: f.remove_mode,
        update_mode: f.update_mode,
    }
}

fn find_column(fs: &Vec<Field>, c: &str) -> (r: Option<usize>)
    ensures
        match r {
            Some(j) => j < fs@.len() && find_first(fields_view(fs@), column_is(c@)) == Some(j as int),
            None => find_first(fields_view(fs@), column_is(c@)) is None,
        },
{
    let ghost fv = fields_view(fs@);
    let cv = chars_of(c);
    let mut i: usize = 0;
    while i < fs.len()
        invariant
            i <= fs@.len(),
            fv == fields_view(fs@),
            cv@ == c@,
            find_first(fv.take(i as int), column_is(c@)) is None,
        decreases fs@.len() - i,
    {
        assert(fv.take(i + 1).drop_last() =~= fv.take(i as int));
        let col = chars_of(fs[i].column.as_str());
        if chars_eq(&col, &cv) {
            proof {
                lemma_find_first(fv.take(i as int), column_is(c@));
                assert forall|j: int| 0 <= j < i implies !column_is(c@)(#[trigger] fv[j]) by {
                    assert(fv.take(i as int)[j] == fv[j]);
                }
                crate::text::lemma_find_first_at(fv, column_is(c@), i as int);
            }
            return Some(i);
        }
        i += 1;
    }
    assert(fv.take(fv.len() as int) =~= fv);
    None
}

fn dedup_fields(fs: &Vec<Field>) -> (r: Vec<Field>)
    ensures
        fields_view(r@) == dedup_spec(fields_view(fs@)),
{
    let ghost fv = fields_view(fs@);
    let mut r: Vec<Field> = Vec::new();
    let mut i: usize = 0;
    assert(fv.take(0) =~= Seq::<FieldSpec>::empty());
    assert(fields_view(r@) =~= Seq::<FieldSpec>::empty());
    while i < fs.len()
        invariant
            i <= fs@.len(),
            fv == fields_view(fs@),
            fields_view(r@) == dedup_spec(fv.take(i as int)),
        decreases fs@.len() - i,
    {
        assert(fv.take(i + 1).drop_last() =~= fv.take(i as int));
        assert(fv.take(i + 1).last() == fs@[i as int]@);
        if find_column(&r, fs[i].column.as_str()).is_none() {
            let f = copy_field(&fs[i]);
            r.push(f);
            assert(fields_view(r@) =~= dedup_spec(fv.take(i as int)).push(fs@[i as int]@));
        }
        i += 1;
    }
    assert(fv.take(fv.len() as int) =~= fv);
    r
}

fn is_base_column(c: &str) -> (r: bool)
    ensures
        r == base_columns().contains(c@),
{
    let base = base_fields();
    let found = find_column(&base, c);
    proof {
        crate::text::lemma_find_first(base_fields_spec(), column_is(c@));
        if base_columns().contains(c@) {
            let k = choose|k: int| 0 <= k < base_columns().len() && base_columns()[k] == c@;
            assert(base_fields_spec()[k].column == base_columns()[k]);
        }
        if let Some(j) = find_first(base_fields_spec(), column_is(c@)) {
            assert(base_fields_spec()[j].column == base_columns()[j]);
        }
    }
    found.is_some()
}

fn order_fields(fs: &Vec<Field>) -> (r: Vec<Field>)
    ensures
        fields_view(r@) == ordered_fields(fields_view(fs@)),
{
    let d = dedup_fields(fs);
    let base = base_fields();
    let ghost dv = fields_view(d@);
    let mut r: Vec<Field> = Vec::new();
    let mut i: usize = 0;
    assert(fields_view(r@) =~= Seq::<FieldSpec>::empty());
    assert(fields_view(base@).len() == base@.len());
    while i < base.len()
        invariant
            i <= base@.len(),
            base@.len() == 18,
            fields_view(base@) == base_fields_spec(),
            dv == fields_view(d@),
            dv == dedup_spec(fields_view(fs@)),
            fields_view(r@).len() == i,
            forall|k: int| 0 <= k < i ==> #[trigger] fields_view(r@)[k] == match find_first(dv, column_is(base_columns()[k])) {
                Some(j) => dv[j],
                None => base_fields_spec()[k],
            },
        decreases base@.len() - i,
    {
        assert(fields_view(base@)[i as int] == base@[i as int]@);
        assert(base@[i as int].column@ == base_columns()[i as int]);
        let f = match find_column(&d, base[i].column.as_str()) {
            Some(j) => copy_field(&d[j]),
            None => copy_field(&base[i]),
        };
        let ghost before = fields_view(r@);
        r.push(f);
        assert(fields_view(r@) =~= before.push(f@));
        i += 1;
    }
    let ghost head = fields_view(r@);
    let mut k: usize = 0;
    assert(dv.take(0) =~= Seq::<FieldSpec>::empty());
    assert(head =~= head + extra_fields(dv.take(0)));
    while k < d.len()
        invariant
            k <= d@.len(),
            dv == fields_view(d@),
            fields_view(r@) == head + extra_fields(dv.take(k as int)),
        decreases d@.len() - k,
    {
        assert(dv.take(k + 1).drop_last() =~= dv.take(k as int));
        assert(dv.take(k + 1).last() == d@[k as int]@);
        if !is_base_column(d[k].column.as_str()) {
            let f = copy_field(&d[k]);
            let ghost before = fields_view(r@);
            r.push(f);
            assert(fields_view(r@) =~= before.push(f@));
            assert(extra_fields(dv.take(k + 1)) == extra_fields(dv.take(k as int)).push(d@[k as int]@));
            assert(fields_view(r@) =~= head + extra_fields(dv.take(k + 1)));
        } else {
            assert(extra_fields(dv.take(k + 1)) == extra_fields(dv.take(k as int)));
        }
        k += 1;
    }
    assert(dv.take(dv.len() as int) =~= dv);
    assert(head =~= Seq::new(
        18,
        |i: int|
            match find_first(dv, column_is(base_columns()[i])) {
                Some(j) => dv[j],
                None => base_fields_spec()[i],
            },
    ));
    r
}

impl AltiumDbl {
    pub fn new(db_path: &str) -> (d: Self)
        ensures
            d@.connection_string == connection_string_spec(default_dsn_spec(db_path@)),
            d@.database_links == default_links_spec(connection_string_spec(default_dsn_spec(db_path@))),
            d@.libraries == Seq::<LibrarySpec>::empty(),
    {
        let dsn = default_dsn(db_path);
        let connection_string = connection_string_for(dsn.as_str());
        let d = AltiumDbl {
            database_links: default_database_links(connection_string.as_str()),
            connection_string,
            libraries: Vec::new(),
        };
        assert(libraries_view(d.libraries@) =~= Seq::<LibrarySpec>::empty());
        d
    }

    pub fn set_database_link(&mut self, key: &str, value: &str)
        ensures
            final(self)@ == (DblSpec { database_links: set_link_spec(old(self)@.database_links, key@, value@), ..old(self)@ }),
    {
        let ghost lv = links_view(self.database_links@);
        let kv = chars_of(key);
        let mut i: usize = 0;
        while i < self.database_links.len()
            invariant
                i <= self.database_links@.len(),
                lv == links_view(self.database_links@),
                *self == *old(self),
                kv@ == key@,
                find_first(lv.take(i as int), link_key_is(key@)) is None,
            decreases self.database_links@.len() - i,
        {
            assert(lv.take(i + 1).drop_last() =~= lv.take(i as int));
            let k = chars_of(self.database_links[i].0.as_str());
            if chars_eq(&k, &kv) {
                proof {
                    lemma_find_first(lv.take(i as int), link_key_is(key@));
                    assert forall|j: int| 0 <= j < i implies !link_key_is(key@)(#[trigger] lv[j]) by {
                        assert(lv.take(i as int)[j] == lv[j]);
                    }
                    crate::text::lemma_find_first_at(lv, link_key_is(key@), i as int);
                }
                self.database_links[i].1 = value.to_owned();
                assert(links_view(self.database_links@) =~= lv.update(i as int, (lv[i as int].0, value@)));
                return ;
            }
            i += 1;
        }
        assert(lv.take(lv.len() as int) =~= lv);
        self.database_links.push((key.to_owned(), value.to_owned()));
        assert(links_view(self.database_links@) =~= lv.push((key@, value@)));
    }

    pub fn set_connection_string(&mut self, cs: String)
        ensures
            final(self)@ == (DblSpec {
                connection_string: cs@,
                database_links: set_link_spec(old(self)@.database_links, "ConnectionString"@, cs@),
                ..old(self)@
            }),
    {
        self.connection_string = cs.clone();
        self.set_database_link("ConnectionString", cs.as_str());
    }

    pub fn set_dsn(&mut self, dsn: &str)
        ensures
            final(self)@ == (DblSpec {
                connection_string: connection_string_spec(crate::text::trim_seq(dsn@)),
                database_links: set_link_spec(
                    old(self)@.database_links,
                    "ConnectionString"@,
                    connection_string_spec(crate::text::trim_seq(dsn@)),
                ),
                ..old(self)@
            }),
    {
        let t = string_from_chars(&crate::text::trim_str(dsn));
        self.set_connection_string(connection_string_for(t.as_str()));
    }

    /// Reads a link file's text and points it at the database: at the data source
    /// named by `dsn` once trimmed, or at the database file's stem where that is blank.
    pub fn load_text(content: &str, db_path: &str, dsn: &str) -> (r: Result<Self, String>)
        ensures
            r matches Ok(d) && d@ == (DblSpec {
                connection_string: connection_string_spec(effective_dsn_spec(db_path@, dsn@)),
                database_links: set_link_spec(
                    from_ini_spec(content@).database_links,
                    "ConnectionString"@,
                    connection_string_spec(effective_dsn_spec(db_path@, dsn@)),
                ),
                ..from_ini_spec(content@)
            }),
    {
        match Self::from_ini(content) {
            Ok(mut dbl) => {
                let t = crate::text::trim_str(dsn);
                let effective = if t.len() == 0 {
                    default_dsn(db_path)
                } else {
                    string_from_chars(&t)
                };
                dbl.set_connection_string(connection_string_for(effective.as_str()));
                Ok(dbl)
            },
            Err(e) => Err(e),
        }
    }

    /// What saving writes over a file that now holds `existing` (`None` where there is
    /// no such file or it cannot be read): nothing when the file already holds the text.
    pub fn save_text(&self, existing: Option<&str>) -> (r: Option<String>)
        requires
            total_fields(self@.libraries) < u64::MAX,
        ensures
            match existing {
                Some(e) => if e@ == ini_text(self@) { r is None } else { r matches Some(t) && t@ == ini_text(self@) },
                None => r matches Some(t) && t@ == ini_text(self@),
            },
    {
        let content = self.to_ini();
        match existing {
            Some(e) => {
                if crate::text::str_eq(e, content.as_str()) {
                    None
                } else {
                    Some(content)
                }
            },
            None => Some(content),
        }
    }

    pub fn find_library(&self, table_name: &str) -> (r: Option<&Library>)
        ensures
            match find_first(self@.libraries, table_is(table_name@)) {
                Some(i) => r matches Some(l) && *l == self.libraries@[i],
                None => r is None,
            },
    {
        let ghost lv = self@.libraries;
        let tv = chars_of(table_name);
        let mut i: usize = 0;
        while i < self.libraries.len()
            invariant
                i <= self.libraries@.len(),
                lv == libraries_view(self.libraries@),
                tv@ == table_name@,
                find_first(lv.take(i as int), table_is(table_name@)) is None,
            decreases self.libraries@.len() - i,
        {
            assert(lv.take(i + 1).drop_last() =~= lv.take(i as int));
            let t = chars_of(self.libraries[i].table.as_str());
            if chars_eq(&t, &tv) {
                proof {
                    lemma_find_first(lv.take(i as int), table_is(table_name@));
                    assert forall|j: int| 0 <= j < i implies !table_is(table_name@)(#[trigger] lv[j]) by {
                        assert(lv.take(i as int)[j] == lv[j]);
                    }
                    crate::text::lemma_find_first_at(lv, table_is(table_name@), i as int);
                }
                return Some(&self.libraries[i]);
            }
            i += 1;
        }
        assert(lv.take(lv.len() as int) =~= lv);
        None
    }

    fn library_index(&self, table_name: &str) -> (r: Option<usize>)
        ensures
            match r {
                Some(i) => i < self.libraries@.len() && find_first(self@.libraries, table_is(table_name@)) == Some(i as int),
                None => find_first(self@.libraries, table_is(table_name@)) is None,
            },
    {
        let ghost lv = self@.libraries;
        let tv = chars_of(table_name);
        let mut i: usize = 0;
        while i < self.libraries.len()
            invariant
                i <= self.libraries@.len(),
                lv == libraries_view(self.libraries@),
                tv@ == table_name@,
                find_first(lv.take(i as int), table_is(table_name@)) is None,
            decreases self.libraries@.len() - i,
        {
            assert(lv.take(i + 1).drop_last() =~= lv.take(i as int));
            let t = chars_of(self.libraries[i].table.as_str());
            if chars_eq(&t, &tv) {
                proof {
                    lemma_find_first(lv.take(i as int), table_is(table_name@));
                    assert forall|j: int| 0 <= j < i implies !table_is(table_name@)(#[trigger] lv[j]) by {
                        assert(lv.take(i as int)[j] == lv[j]);
                    }
                    crate::text::lemma_find_first_at(lv, table_is(table_name@), i as int);
                }
                return Some(i);
            }
            i += 1;
        }
        assert(lv.take(lv.len() as int) =~= lv);
        None
    }

    pub fn find_library_mut(&mut self, table_name: &str) -> (r: Option<&mut Library>)
        ensures
            match find_first(old(self)@.libraries, table_is(table_name@)) {
                Some(i) => (r matches Some(l) && *l == old(self).libraries@[i]
                    && final(self).libraries@ == old(self).libraries@.update(i, *final(l))
                    && final(self).connection_string == old(self).connection_string
                    && final(self).database_links == old(self).database_links),
                None => r is None && *final(self) == *old(self),
            },
    {
        match self.library_index(table_name) {
            Some(i) => Some(&mut self.libraries[i]),
            None => None,
        }
    }

    pub fn add_library(&mut self, lib: Library)
        ensures
            final(self)@ == (DblSpec { libraries: old(self)@.libraries.push(lib@), ..old(self)@ }),
    {
        self.libraries.push(lib);
        assert(libraries_view(self.libraries@) =~= libraries_view(old(self).libraries@).push(lib@));
    }

    pub fn remove_library(&mut self, table_name: &str)
        ensures
            final(self)@ == (DblSpec { libraries: retain_spec(old(self)@.libraries, table_name@), ..old(self)@ }),
    {
        let mut rest: Vec<Library> = Vec::new();
        std::mem::swap(&mut rest, &mut self.libraries);
        let ghost orig = libraries_view(rest@);
        let tv = chars_of(table_name);
        let mut k: usize = 0;
        assert(orig.take(0) =~= Seq::<LibrarySpec>::empty());
        assert(libraries_view(self.libraries@) =~= Seq::<LibrarySpec>::empty());
        assert(orig.skip(0) =~= orig);
        let n0 = rest.len();
        assert(orig.len() == n0);
        while rest.len() > 0
            invariant
                k <= orig.len(),
                libraries_view(rest@) == orig.skip(k as int),
                rest@.len() == orig.len() - k,
                orig.len() <= usize::MAX,
                libraries_view(self.libraries@) == retain_spec(orig.take(k as int), table_name@),
                self.connection_string == old(self).connection_string,
                self.database_links == old(self).database_links,
                orig == libraries_view(old(self).libraries@),
                tv@ == table_name@,
            decreases rest@.len(),
        {
            let ghost r0 = rest@;
            let lib = rest.remove(0);
            assert(lib == r0[0]);
            assert(libraries_view(r0)[0] == r0[0]@);
            assert(orig.skip(k as int)[0] == orig[k as int]);
            assert(orig.take(k + 1).drop_last() =~= orig.take(k as int));
            assert forall|j: int| 0 <= j < rest@.len() implies #[trigger] libraries_view(rest@)[j] == orig.skip(k + 1)[j] by {
                assert(rest@[j] == r0[j + 1]);
                assert(libraries_view(r0)[j + 1] == orig.skip(k as int)[j + 1]);
            }
            assert(orig.take(k + 1).last() == lib@);
            assert(libraries_view(rest@) =~= orig.skip(k + 1));
            let t = chars_of(lib.table.as_str());
            if !chars_eq(&t, &tv) {
                let ghost before = libraries_view(self.libraries@);
                self.libraries.push(lib);
                assert(libraries_view(self.libraries@) =~= before.push(lib@));
            }
            k += 1;
        }
        assert(orig.take(k as int) =~= orig);
    }

    pub fn ensure_base_fields(&mut self)
        ensures
            final(self)@ == (DblSpec { libraries: old(self)@.libraries.map_values(|l: LibrarySpec| with_ordered_fields(l)), ..old(self)@ }),
    {
        let ghost orig = self@.libraries;
        let mut i: usize = 0;
        while i < self.libraries.len()
            invariant
                i <= self.libraries@.len(),
                self.libraries@.len() == orig.len(),
                orig == libraries_view(old(self).libraries@),
                self.connection_string == old(self).connection_string,
                self.database_links == old(self).database_links,
                forall|j: int| 0 <= j < i ==> #[trigger] self.libraries@[j]@ == with_ordered_fields(orig[j]),
                forall|j: int| i <= j < orig.len() ==> #[trigger] self.libraries@[j]@ == orig[j],
            decreases self.libraries@.len() - i,
        {
            let fields = order_fields(&self.libraries[i].fields);
            let ghost prev = self.libraries@;
            assert(prev[i as int]@ == orig[i as int]);
            self.libraries[i].fields = fields;
            assert(self.libraries@[i as int]@ == with_ordered_fields(orig[i as int]));
            assert forall|j: int| 0 <= j < self.libraries@.len() && j != i implies #[trigger] self.libraries@[j] == prev[j] by {}
            i += 1;
        }
        assert(libraries_view(self.libraries@) =~= orig.map_values(|l: LibrarySpec| with_ordered_fields(l)));
    }
}

// ---------------------------------------------------------------------------
// Editing laws
// ---------------------------------------------------------------------------

/// The library `find_library` gives for table `t`.
pub open spec fn found_library(libs: Seq<LibrarySpec>, t: Seq<char>) -> Option<LibrarySpec> {
    match find_first(libs, table_is(t)) {
        Some(i) => Some(libs[i]),
        None => None,
    }
}

proof fn lemma_found_push(libs: Seq<LibrarySpec>, l: LibrarySpec, t: Seq<char>)
    ensures
        found_library(libs.push(l), t) == match found_library(libs, t) {
            Some(x) => Some(x),
            None => if l.table == t {
                Some(l)
            } else {
                None
            },
        },
{
    let s = libs.push(l);
    assert(s.drop_last() =~= libs);
    lemma_find_first(libs, table_is(t));
    if let Some(i) = find_first(libs, table_is(t)) {
        assert(s[i] == libs[i]);
    }
}

/// Setting a link and reading it back gives the value set, and every link
/// under another key reads as before.
pub proof fn set_link_read_back(
    links: Seq<(Seq<char>, Seq<char>)>,
    k: Seq<char>,
    v: Seq<char>,
    other: Seq<char>,
)
    requires
        other != k,
    ensures
        find_first(set_link_spec(links, k, v), link_key_is(k)) matches Some(i) && set_link_spec(
            links,
            k,
            v,
        )[i] == (k, v),
        match find_first(links, link_key_is(other)) {
            Some(j) => find_first(set_link_spec(links, k, v), link_key_is(other)) == Some(j)
                && set_link_spec(links, k, v)[j] == links[j],
            None => find_first(set_link_spec(links, k, v), link_key_is(other)) is None,
        },
{
    let r = set_link_spec(links, k, v);
    lemma_find_first(links, link_key_is(k));
    lemma_find_first(links, link_key_is(other));
    match find_first(links, link_key_is(k)) {
        Some(i) => {
            assert(link_key_is(k)(r[i]));
            assert forall|m: int| 0 <= m < i implies !link_key_is(k)(#[trigger] r[m]) by {
                assert(r[m] == links[m]);
            }
            crate::text::lemma_find_first_at(r, link_key_is(k), i);
            match find_first(links, link_key_is(other)) {
                Some(j) => {
                    assert(j != i);
                    assert(r[j] == links[j]);
                    assert forall|m: int| 0 <= m < j implies !link_key_is(other)(#[trigger] r[m]) by {
                        if m != i {
                            assert(r[m] == links[m]);
                        }
                    }
                    crate::text::lemma_find_first_at(r, link_key_is(other), j);
                },
                None => {
                    assert forall|m: int| 0 <= m < r.len() implies !link_key_is(other)(#[trigger] r[m]) by {
                        if m != i {
                            assert(r[m] == links[m]);
                        }
                    }
                    crate::text::lemma_find_first_none(r, link_key_is(other));
                },
            }
        },
        None => {
            let n = links.len() as int;
            assert(link_key_is(k)(r[n]));
            assert forall|m: int| 0 <= m < n implies !link_key_is(k)(#[trigger] r[m]) by {
                assert(r[m] == links[m]);
            }
            crate::text::lemma_find_first_at(r, link_key_is(k), n);
            match find_first(links, link_key_is(other)) {
                Some(j) => {
                    assert(r[j] == links[j]);
                    assert forall|m: int| 0 <= m < j implies !link_key_is(other)(#[trigger] r[m]) by {
                        assert(r[m] == links[m]);
                    }
                    crate::text::lemma_find_first_at(r, link_key_is(other), j);
                },
                None => {
                    assert forall|m: int| 0 <= m < r.len() implies !link_key_is(other)(#[trigger] r[m]) by {
                        if m < n {
                            assert(r[m] == links[m]);
                        }
                    }
                    crate::text::lemma_find_first_none(r, link_key_is(other));
                },
            }
        },
    }
}

/// A library added for a table that has none is the one found for it.
pub proof fn added_library_is_found(libs: Seq<LibrarySpec>, l: LibrarySpec)
    requires
        found_library(libs, l.table) is None,
    ensures
        found_library(libs.push(l), l.table) == Some(l),
{
    lemma_found_push(libs, l, l.table);
}

/// After removing a table's library none is found for it, and every other
/// table finds the library it found before.
pub proof fn removed_library_is_gone(libs: Seq<LibrarySpec>, t: Seq<char>, other: Seq<char>)
    requires
        other != t,
    ensures
        found_library(retain_spec(libs, t), t) is None,
        found_library(retain_spec(libs, t), other) == found_library(libs, other),
    decreases libs.len(),
{
    if libs.len() == 0 {
        lemma_find_first(retain_spec(libs, t), table_is(t));
        lemma_find_first(retain_spec(libs, t), table_is(other));
    } else {
        let d = libs.drop_last();
        removed_library_is_gone(d, t, other);
        assert(d.push(libs.last()) =~= libs);
        lemma_found_push(d, libs.last(), t);
        lemma_found_push(d, libs.last(), other);
        if libs.last().table != t {
            lemma_found_push(retain_spec(d, t), libs.last(), t);
            lemma_found_push(retain_spec(d, t), libs.last(), other);
        }
    }
}

// ---------------------------------------------------------------------------
// Field order law
// ---------------------------------------------------------------------------

/// Whether no two fields share a column.
pub open spec fn columns_distinct(fs: Seq<FieldSpec>) -> bool {
    forall|i: int, j: int| 0 <= i < j < fs.len() ==> (#[trigger] fs[i]).column != (#[trigger] fs[j]).column
}

/// Whether Altium reads a standard column under its own bracketed name:
/// the symbol and footprint library columns and `Description`.
pub open spec fn bracketed_column(c: Seq<char>) -> bool {
    has_prefix(c, "Library "@) || has_prefix(c, "Footprint "@) || c == "Description"@
}

/// The standard fields map each column to a parameter of the same name,
/// put in square brackets for the symbol and footprint library columns and
/// `Description` (so `Library Ref` maps to `[Library Ref]`, which Altium
/// takes as the symbol reference); only `MPN` is the key and shown on add.
pub proof fn base_field_parameters(i: int)
    requires
        0 <= i < 18,
    ensures
        base_fields_spec()[i].column == base_columns()[i],
        base_fields_spec()[i].parameter == if bracketed_column(base_columns()[i]) {
            seq!['['] + base_columns()[i] + seq![']']
        } else {
            base_columns()[i]
        },
        base_fields_spec()[i].is_key == (base_columns()[i] == "MPN"@),
        base_fields_spec()[i].visible_on_add == (base_columns()[i] == "MPN"@),
{
    reveal_strlit("MPN");
    reveal_strlit("Manufacturer");
    reveal_strlit("Library Ref");
    reveal_strlit("Library Path");
    reveal_strlit("Footprint Ref");
    reveal_strlit("Footprint Path");
    reveal_strlit("Footprint Ref 2");
    reveal_strlit("Footprint Path 2");
    reveal_strlit("Footprint Ref 3");
    reveal_strlit("Footprint Path 3");
    reveal_strlit("ComponentLink1Description");
    reveal_strlit("ComponentLink1URL");
    reveal_strlit("ComponentLink2Description");
    reveal_strlit("ComponentLink2URL");
    reveal_strlit("ComponentLink3Description");
    reveal_strlit("ComponentLink3URL");
    reveal_strlit("Description");
    reveal_strlit("Verified");
    reveal_strlit("[Library Ref]");
    reveal_strlit("[Library Path]");
    reveal_strlit("[Footprint Ref]");
    reveal_strlit("[Footprint Path]");
    reveal_strlit("[Footprint Ref 2]");
    reveal_strlit("[Footprint Path 2]");
    reveal_strlit("[Footprint Ref 3]");
    reveal_strlit("[Footprint Path 3]");
    reveal_strlit("[Description]");
    reveal_strlit("Library ");
    reveal_strlit("Footprint ");
    let c = base_columns()[i];
    let p = base_parameters()[i];
    if 2 <= i < 10 {
        assert(has_prefix(c, "Library "@) || has_prefix(c, "Footprint "@)) by {
            if i < 4 {
                assert(c.take(8) =~= "Library "@);
            } else {
                assert(c.take(10) =~= "Footprint "@);
            }
        }
        assert(p =~= seq!['['] + c + seq![']']);
    } else if i == 16 {
        assert(p =~= seq!['['] + c + seq![']']);
    } else {
        assert(!bracketed_column(c)) by {
            assert(c.len() < 8 || c.take(8)[0] != "Library "@[0] || c.take(8)[1] != "Library "@[1]);
            assert(c.len() < 10 || c.take(10)[0] != "Footprint "@[0]);
            assert(c.len() != "Description"@.len() || c[0] != "Description"@[0]);
        }
        assert(p == c);
    }
    assert(i == 0 || c != "MPN"@) by {
        if i != 0 {
            assert(c.len() != 3 || c[0] != 'M' || c[1] != 'P');
        }
    }
}

/// The `.DbLib` maps exactly the category table's standard columns: each
/// standard field's column is a standard column of the table, and each of
/// the table's standard columns has a standard field.
pub proof fn dbl_fields_cover_table_columns()
    ensures
        base_columns().len() == crate::db::base_columns().len(),
        forall|i: int| 0 <= i < base_columns().len() ==> crate::db::base_columns().contains(#[trigger] base_columns()[i]),
        forall|i: int|
            0 <= i < crate::db::base_columns().len() ==> base_columns().contains(
                #[trigger] crate::db::base_columns()[i],
            ),
{
    let a = base_columns();
    let b = crate::db::base_columns();
    assert forall|i: int| 0 <= i < a.len() implies b.contains(#[trigger] a[i]) by {
        let j = if i < 2 { i } else if i < 16 { i + 2 } else { i - 14 };
        assert(b[j] == a[i]);
    }
    assert forall|i: int| 0 <= i < b.len() implies a.contains(#[trigger] b[i]) by {
        let j = if i < 2 { i } else if i < 4 { i + 14 } else { i - 2 };
        assert(a[j] == b[i]);
    }
}

/// The standard column names differ from each other.
proof fn lemma_base_columns_distinct()
    ensures
        forall|i: int, j: int|
            0 <= i < j < 18 ==> #[trigger] base_columns()[i] != #[trigger] base_columns()[j],
{
    reveal_strlit("MPN");
    reveal_strlit("Manufacturer");
    reveal_strlit("Library Ref");
    reveal_strlit("Library Path");
    reveal_strlit("Footprint Ref");
    reveal_strlit("Footprint Path");
    reveal_strlit("Footprint Ref 2");
    reveal_strlit("Footprint Path 2");
    reveal_strlit("Footprint Ref 3");
    reveal_strlit("Footprint Path 3");
    reveal_strlit("ComponentLink1Description");
    reveal_strlit("ComponentLink1URL");
    reveal_strlit("ComponentLink2Description");
    reveal_strlit("ComponentLink2URL");
    reveal_strlit("ComponentLink3Description");
    reveal_strlit("ComponentLink3URL");
    reveal_strlit("Description");
    reveal_strlit("Verified");
    // The names are told apart by their lengths and a few of their letters.
    assert(base_columns()[0].len() == 3 && base_columns()[0][0] == 'M');
    assert(base_columns()[1].len() == 12 && base_columns()[1][0] == 'M');
    assert(base_columns()[2].len() == 11 && base_columns()[2][0] == 'L');
    assert(base_columns()[3].len() == 12 && base_columns()[3][0] == 'L');
    assert(base_columns()[4].len() == 13 && base_columns()[4][0] == 'F');
    assert(base_columns()[5].len() == 14 && base_columns()[5][0] == 'F');
    assert(base_columns()[6].len() == 15 && base_columns()[6][0] == 'F' && base_columns()[6][14] == '2');
    assert(base_columns()[7].len() == 16 && base_columns()[7][0] == 'F' && base_columns()[7][15] == '2');
    assert(base_columns()[8].len() == 15 && base_columns()[8][0] == 'F' && base_columns()[8][14] == '3');
    assert(base_columns()[9].len() == 16 && base_columns()[9][0] == 'F' && base_columns()[9][15] == '3');
    assert(base_columns()[10].len() == 25 && base_columns()[10][0] == 'C' && base_columns()[10][13] == '1');
    assert(base_columns()[11].len() == 17 && base_columns()[11][0] == 'C' && base_columns()[11][13] == '1');
    assert(base_columns()[12].len() == 25 && base_columns()[12][0] == 'C' && base_columns()[12][13] == '2');
    assert(base_columns()[13].len() == 17 && base_columns()[13][0] == 'C' && base_columns()[13][13] == '2');
    assert(base_columns()[14].len() == 25 && base_columns()[14][0] == 'C' && base_columns()[14][13] == '3');
    assert(base_columns()[15].len() == 17 && base_columns()[15][0] == 'C' && base_columns()[15][13] == '3');
    assert(base_columns()[16].len() == 11 && base_columns()[16][0] == 'D');
    assert(base_columns()[17].len() == 8 && base_columns()[17][0] == 'V');
}

proof fn lemma_dedup_distinct(fs: Seq<FieldSpec>)
    ensures
        columns_distinct(dedup_spec(fs)),
    decreases fs.len(),
{
    if fs.len() > 0 {
        lemma_dedup_distinct(fs.drop_last());
        let r = dedup_spec(fs.drop_last());
        crate::text::lemma_find_first(r, column_is(fs.last().column));
        if find_first(r, column_is(fs.last().column)) is None {
            let s = r.push(fs.last());
            assert forall|i: int, j: int| 0 <= i < j < s.len() implies (#[trigger] s[i]).column
                != (#[trigger] s[j]).column by {
                if j == r.len() {
                    assert(!column_is(fs.last().column)(r[i]));
                } else {
                    assert(s[i] == r[i] && s[j] == r[j]);
                }
            }
        }
    }
}

proof fn lemma_dedup_of_distinct(fs: Seq<FieldSpec>)
    requires
        columns_distinct(fs),
    ensures
        dedup_spec(fs) == fs,
    decreases fs.len(),
{
    if fs.len() > 0 {
        let d = fs.drop_last();
        assert forall|i: int, j: int| 0 <= i < j < d.len() implies (#[trigger] d[i]).column
            != (#[trigger] d[j]).column by {
            assert(d[i] == fs[i] && d[j] == fs[j]);
        }
        lemma_dedup_of_distinct(d);
        assert forall|m: int| 0 <= m < d.len() implies !column_is(fs.last().column)(#[trigger] d[m]) by {
            assert(d[m] == fs[m]);
            assert(fs[m].column != fs[fs.len() - 1].column);
        }
        crate::text::lemma_find_first_none(d, column_is(fs.last().column));
        assert(d.push(fs.last()) =~= fs);
    }
}

/// The fields kept by `extra_fields` are fields of the list whose column
/// is not a standard one, and they keep the list's distinct columns.
proof fn lemma_extra_fields(fs: Seq<FieldSpec>)
    ensures
        forall|i: int| 0 <= i < extra_fields(fs).len() ==> !base_columns().contains(
            (#[trigger] extra_fields(fs)[i]).column,
        ),
        forall|i: int|
            0 <= i < extra_fields(fs).len() ==> exists|j: int|
                0 <= j < fs.len() && fs[j] == #[trigger] extra_fields(fs)[i],
        columns_distinct(fs) ==> columns_distinct(extra_fields(fs)),
    decreases fs.len(),
{
    if fs.len() > 0 {
        let d = fs.drop_last();
        lemma_extra_fields(d);
        let e = extra_fields(d);
        assert forall|i: int| 0 <= i < e.len() implies exists|j: int|
            0 <= j < fs.len() && fs[j] == #[trigger] e[i] by {
            let j = choose|j: int| 0 <= j < d.len() && d[j] == e[i];
            assert(fs[j] == d[j]);
        }
        if !base_columns().contains(fs.last().column) {
            let s = e.push(fs.last());
            assert(s[e.len() as int] == fs[fs.len() - 1]);
            if columns_distinct(fs) {
                assert forall|i: int, j: int| 0 <= i < j < d.len() implies (#[trigger] d[i]).column
                    != (#[trigger] d[j]).column by {
                    assert(d[i] == fs[i] && d[j] == fs[j]);
                }
                assert forall|i: int, j: int| 0 <= i < j < s.len() implies (#[trigger] s[i]).column
                    != (#[trigger] s[j]).column by {
                    if j == e.len() {
                        let k = choose|k: int| 0 <= k < d.len() && d[k] == e[i];
                        assert(fs[k] == d[k]);
                        assert(fs[k].column != fs[fs.len() - 1].column);
                    } else {
                        assert(s[i] == e[i] && s[j] == e[j]);
                    }
                }
            }
        } else if columns_distinct(fs) {
            assert forall|i: int, j: int| 0 <= i < j < d.len() implies (#[trigger] d[i]).column
                != (#[trigger] d[j]).column by {
                assert(d[i] == fs[i] && d[j] == fs[j]);
            }
        }
    }
}

proof fn lemma_extra_fields_append(a: Seq<FieldSpec>, b: Seq<FieldSpec>)
    ensures
        extra_fields(a + b) == extra_fields(a) + extra_fields(b),
    decreases b.len(),
{
    if b.len() == 0 {
        assert(a + b =~= a);
        assert(extra_fields(a) + extra_fields(b) =~= extra_fields(a));
    } else {
        lemma_extra_fields_append(a, b.drop_last());
        assert((a + b).drop_last() =~= a + b.drop_last());
        assert((a + b).last() == b.last());
        if base_columns().contains(b.last().column) {
        } else {
            assert(extra_fields(a) + extra_fields(b.drop_last()).push(b.last()) =~= (extra_fields(a)
                + extra_fields(b.drop_last())).push(b.last()));
        }
    }
}

proof fn lemma_extra_fields_all_base(fs: Seq<FieldSpec>)
    requires
        forall|i: int| 0 <= i < fs.len() ==> base_columns().contains(#[trigger] fs[i].column),
    ensures
        extra_fields(fs) == Seq::<FieldSpec>::empty(),
    decreases fs.len(),
{
    if fs.len() > 0 {
        let d = fs.drop_last();
        assert forall|i: int| 0 <= i < d.len() implies base_columns().contains(#[trigger] d[i].column) by {
            assert(d[i] == fs[i]);
        }
        lemma_extra_fields_all_base(d);
        assert(base_columns().contains(fs[fs.len() - 1].column));
    }
}

proof fn lemma_extra_fields_none_base(fs: Seq<FieldSpec>)
    requires
        forall|i: int| 0 <= i < fs.len() ==> !base_columns().contains(#[trigger] fs[i].column),
    ensures
        extra_fields(fs) == fs,
    decreases fs.len(),
{
    if fs.len() > 0 {
        let d = fs.drop_last();
        assert forall|i: int| 0 <= i < d.len() implies !base_columns().contains(#[trigger] d[i].column) by {
            assert(d[i] == fs[i]);
        }
        lemma_extra_fields_none_base(d);
        assert(!base_columns().contains(fs[fs.len() - 1].column));
        assert(d.push(fs.last()) =~= fs);
    }
}

/// The standard part of `ordered_fields`: one field per standard column,
/// in order.
pub open spec fn ordered_base(d: Seq<FieldSpec>) -> Seq<FieldSpec> {
    Seq::new(
        18,
        |i: int|
            match find_first(d, column_is(base_columns()[i])) {
                Some(j) => d[j],
                None => base_fields_spec()[i],
            },
    )
}

proof fn lemma_ordered_base_columns(d: Seq<FieldSpec>)
    ensures
        forall|i: int| 0 <= i < 18 ==> (#[trigger] ordered_base(d)[i]).column == base_columns()[i],
{
    assert forall|i: int| 0 <= i < 18 implies (#[trigger] ordered_base(d)[i]).column
        == base_columns()[i] by {
        crate::text::lemma_find_first(d, column_is(base_columns()[i]));
    }
}

/// Looking a column up among the deduplicated fields finds the same field
/// as looking it up among all of them.
proof fn lemma_dedup_find(fs: Seq<FieldSpec>, c: Seq<char>)
    ensures
        match find_first(dedup_spec(fs), column_is(c)) {
            Some(j) => find_first(fs, column_is(c)) matches Some(k) && 0 <= j < dedup_spec(fs).len()
                && 0 <= k < fs.len() && dedup_spec(fs)[j] == fs[k],
            None => find_first(fs, column_is(c)) is None,
        },
    decreases fs.len(),
{
    crate::text::lemma_find_first(fs, column_is(c));
    crate::text::lemma_find_first(dedup_spec(fs), column_is(c));
    if fs.len() > 0 {
        let d = fs.drop_last();
        let r = dedup_spec(d);
        lemma_dedup_find(d, c);
        crate::text::lemma_find_first(r, column_is(c));
        crate::text::lemma_find_first(d, column_is(c));
        crate::text::lemma_find_first(r, column_is(fs.last().column));
        if find_first(r, column_is(fs.last().column)) is None {
            let s2 = r.push(fs.last());
            assert(s2.drop_last() =~= r);
        }
    }
}

/// What `ensure_base_fields` makes of a library's fields: the eighteen
/// standard columns first, in their fixed order, each slot holding the
/// library's first field of that column or else the standard default;
/// then the library's other columns, each by its first field, in the order
/// in which they first occur; no column twice.
pub proof fn ordered_fields_shape(fs: Seq<FieldSpec>)
    ensures
        ordered_fields(fs).len() >= 18,
        forall|i: int| 0 <= i < 18 ==> (#[trigger] ordered_fields(fs)[i]).column == base_columns()[i],
        forall|i: int|
            0 <= i < 18 ==> #[trigger] ordered_fields(fs)[i] == match find_first(fs, column_is(base_columns()[i])) {
                Some(k) => fs[k],
                None => base_fields_spec()[i],
            },
        ordered_fields(fs).skip(18) == extra_fields(dedup_spec(fs)),
        forall|i: int|
            18 <= i < ordered_fields(fs).len() ==> !base_columns().contains((#[trigger] ordered_fields(fs)[i]).column)
                && (find_first(fs, column_is(ordered_fields(fs)[i].column)) matches Some(k)
                && fs[k] == ordered_fields(fs)[i]),
        columns_distinct(ordered_fields(fs)),
{
    let d = dedup_spec(fs);
    let b = ordered_base(d);
    let e = extra_fields(d);
    let o = ordered_fields(fs);
    assert(o =~= b + e);
    lemma_base_columns_distinct();
    lemma_dedup_distinct(fs);
    lemma_extra_fields(d);
    lemma_ordered_base_columns(d);
    assert forall|i: int| 0 <= i < 18 implies #[trigger] o[i] == match find_first(fs, column_is(base_columns()[i])) {
        Some(k) => fs[k],
        None => base_fields_spec()[i],
    } by {
        lemma_dedup_find(fs, base_columns()[i]);
        assert(o[i] == b[i]);
    }
    assert(o.skip(18) =~= e);
    assert forall|i: int| 18 <= i < o.len() implies !base_columns().contains((#[trigger] o[i]).column)
        && (find_first(fs, column_is(o[i].column)) matches Some(k) && fs[k] == o[i]) by {
        assert(o[i] == e[i - 18]);
        let j = choose|j: int| 0 <= j < d.len() && d[j] == e[i - 18];
        // d[j] is the first field of its column among the deduplicated ones
        assert forall|m: int| 0 <= m < j implies !column_is(d[j].column)(#[trigger] d[m]) by {}
        crate::text::lemma_find_first_at(d, column_is(d[j].column), j);
        lemma_dedup_find(fs, d[j].column);
    }
    assert forall|i: int| 0 <= i < b.len() implies base_columns().contains(#[trigger] b[i].column) by {
        assert(base_columns()[i] == b[i].column);
    }
    assert forall|i: int, j: int| 0 <= i < j < o.len() implies (#[trigger] o[i]).column
        != (#[trigger] o[j]).column by {
        if j < 18 {
            assert(o[i].column == base_columns()[i] && o[j].column == base_columns()[j]);
        } else if i < 18 {
            assert(o[j] == e[j - 18]);
            assert(base_columns().contains(o[i].column));
        } else {
            assert(o[i] == e[i - 18] && o[j] == e[j - 18]);
        }
    }
}

/// Putting a library's fields in order twice does no more than once: once
/// `ensure_base_fields` has run, running it again leaves the fields as they
/// are.
pub proof fn ordered_fields_settle(fs: Seq<FieldSpec>)
    ensures
        ordered_fields(ordered_fields(fs)) == ordered_fields(fs),
{
    let d = dedup_spec(fs);
    let b = ordered_base(d);
    let e = extra_fields(d);
    let o = ordered_fields(fs);
    assert(o =~= b + e);
    lemma_base_columns_distinct();
    lemma_dedup_distinct(fs);
    lemma_extra_fields(d);
    lemma_ordered_base_columns(d);
    // every column of the ordered list appears once
    assert forall|i: int| 0 <= i < b.len() implies base_columns().contains(#[trigger] b[i].column) by {
        assert(base_columns()[i] == b[i].column);
    }
    assert forall|i: int, j: int| 0 <= i < j < o.len() implies (#[trigger] o[i]).column
        != (#[trigger] o[j]).column by {
        if j < 18 {
            assert(o[i].column == base_columns()[i] && o[j].column == base_columns()[j]);
        } else if i < 18 {
            assert(o[j] == e[j - 18]);
            assert(base_columns().contains(o[i].column));
        } else {
            assert(o[i] == e[i - 18] && o[j] == e[j - 18]);
        }
    }
    lemma_dedup_of_distinct(o);
    // each standard column is found at its own place
    assert forall|i: int| 0 <= i < 18 implies find_first(o, column_is(base_columns()[i])) == Some(i) by {
        assert(o[i] == b[i]);
        assert forall|m: int| 0 <= m < i implies !column_is(base_columns()[i])(#[trigger] o[m]) by {
            assert(o[m] == b[m]);
            assert(base_columns()[m] != base_columns()[i]);
        }
        crate::text::lemma_find_first_at(o, column_is(base_columns()[i]), i);
    }
    assert(ordered_base(o) =~= b);
    lemma_extra_fields_append(b, e);
    lemma_extra_fields_all_base(b);
    lemma_extra_fields_none_base(e);
    assert(extra_fields(o) =~= e);
    assert(ordered_fields(o) =~= b + e);
}

} // verus!
