//! Settings and small decisions of the component manager: defaults,
//! preview theme, browse targets, name proposals for copies, and which
//! component fields the search shows.

use vstd::prelude::*;
use crate::db::{base_columns, component_values_spec, pg_conn_spec, postgres_connection_string, Component};
use crate::altium::library::{keyed_view, sort_by_key, sort_keyed, Keyed};
use crate::paths::{extension, extension_spec, file_stem, file_stem_spec};
use crate::text::{
    chars_eq_ignore_ascii_case, chars_of, dec, eq_ignore_ascii_case, push_char,
    push_dec, push_str, str_eq, string_from_range, strings_view,
};

verus! {

broadcast use vstd::string::group_string_axioms;

/// Preview background when the dark theme is active.
pub const DARK_BG: &'static str = "#1E1E1E";
/// Preview background when the light theme is active.
pub const LIGHT_BG: &'static str = "#FFFFFF";

pub fn default_database_type() -> (s: String)
    ensures
        s@ == "sqlite"@,
{
    "sqlite".to_owned()
}

pub fn default_pg_host() -> (s: String)
    ensures
        s@ == "localhost"@,
{
    "localhost".to_owned()
}

pub fn default_pg_port() -> (s: String)
    ensures
        s@ == "5432"@,
{
    "5432".to_owned()
}

/// Minutes before an update is announced again after "remind me later".
pub fn default_remind_minutes() -> (m: u64)
    ensures
        m == 30,
{
    30
}

/// The database a configuration names: its type (SQLite when it gives
/// none) and connection: for SQLite the database file, else the DSN when
/// no PostgreSQL setting is given, else a PostgreSQL connection string
/// (host `localhost` and port `5432` where they are not given).
pub open spec fn config_type_spec(database_type: Seq<char>) -> Seq<char> {
    if database_type.len() == 0 {
        "sqlite"@
    } else {
        database_type
    }
}

pub fn config_database_type(database_type: &str) -> (r: String)
    ensures
        r@ == config_type_spec(database_type@),
{
    if database_type.is_empty() {
        "sqlite".to_owned()
    } else {
        database_type.to_owned()
    }
}

pub open spec fn config_dsn_spec(
    dsn: Seq<char>,
    host: Seq<char>,
    port: Seq<char>,
    database: Seq<char>,
    user: Seq<char>,
    password: Seq<char>,
) -> Seq<char> {
    if host.len() == 0 && port.len() == 0 && database.len() == 0 && user.len() == 0 && password.len()
        == 0 {
        dsn
    } else {
        pg_conn_spec(
            if host.len() == 0 {
                "localhost"@
            } else {
                host
            },
            if port.len() == 0 {
                "5432"@
            } else {
                port
            },
            database,
            user,
            password,
        )
    }
}

pub fn config_dsn(dsn: &str, host: &str, port: &str, database: &str, user: &str, password: &str) -> (r:
    String)
    ensures
        r@ == config_dsn_spec(dsn@, host@, port@, database@, user@, password@),
{
    if host.is_empty() && port.is_empty() && database.is_empty() && user.is_empty()
        && password.is_empty() {
        dsn.to_owned()
    } else {
        postgres_connection_string(
            if host.is_empty() {
                "localhost"
            } else {
                host
            },
            if port.is_empty() {
                "5432"
            } else {
                port
            },
            database,
            user,
            password,
        )
    }
}

/// Whether a database type names SQLite (in any letter case).
pub open spec fn is_sqlite_spec(kind: Seq<char>) -> bool {
    eq_ignore_ascii_case(kind, "sqlite"@)
}

pub fn is_sqlite_kind(kind: &str) -> (r: bool)
    ensures
        r == is_sqlite_spec(kind@),
{
    chars_eq_ignore_ascii_case(&chars_of(kind), &chars_of("sqlite"))
}

/// What the database is opened with: the database file for SQLite, else
/// the connection string.
pub open spec fn open_target_spec(kind: Seq<char>, db_path: Seq<char>, connection: Seq<char>) -> Seq<
    char,
> {
    if is_sqlite_spec(kind) {
        db_path
    } else {
        connection
    }
}

pub fn open_target(kind: &str, db_path: &str, connection: &str) -> (r: String)
    ensures
        r@ == open_target_spec(kind@, db_path@, connection@),
{
    if is_sqlite_kind(kind) {
        db_path.to_owned()
    } else {
        connection.to_owned()
    }
}

/// The database file named after a configuration file with stem `stem`:
/// the stem without a trailing `.config`, with extension `.sqlite`.
pub open spec fn config_db_name_spec(stem: Seq<char>) -> Seq<char> {
    let base = if stem.len() >= 7 && stem.skip(stem.len() - 7) == ".config"@ {
        stem.take(stem.len() - 7)
    } else {
        stem
    };
    base + ".sqlite"@
}

pub fn config_db_name(stem: &str) -> (r: String)
    ensures
        r@ == config_db_name_spec(stem@),
{
    let v = chars_of(stem);
    let suffix = chars_of(".config");
    proof {
        reveal_strlit(".config");
    }
    let mut r = if v.len() >= 7 && crate::text::starts_with_at(&v, v.len() - 7, &suffix) {
        proof {
            assert(v@.skip(v@.len() - 7).take(7) =~= v@.skip(v@.len() - 7));
        }
        string_from_range(&v, 0, v.len() - 7)
    } else {
        proof {
            if v@.len() >= 7 {
                assert(v@.skip(v@.len() - 7).take(7) =~= v@.skip(v@.len() - 7));
            }
        }
        stem.to_owned()
    };
    push_str(&mut r, ".sqlite");
    r
}

#[derive(Clone, Copy, PartialEq, Eq, Debug, Structural)]
pub enum Theme {
    System,
    Light,
    Dark,
}

/// Whether previews use the dark theme; the system theme follows
/// `system_dark`.
pub open spec fn is_dark_spec(theme: Theme, system_dark: bool) -> bool {
    match theme {
        Theme::Dark => true,
        Theme::Light => false,
        Theme::System => system_dark,
    }
}

pub fn preview_bg(theme: Theme, system_dark: bool) -> (bg: &'static str)
    ensures
        bg@ == if is_dark_spec(theme, system_dark) {
            DARK_BG@
        } else {
            LIGHT_BG@
        },
{
    let dark = match theme {
        Theme::Dark => true,
        Theme::Light => false,
        Theme::System => system_dark,
    };
    if dark {
        DARK_BG
    } else {
        LIGHT_BG
    }
}

/// What a library browser picks for.
#[derive(Clone, Copy, PartialEq, Eq, Debug, Structural)]
pub enum BrowseTarget {
    Symbols,
    DefaultSymbol,
    Footprint1,
    Footprint2,
    Footprint3,
    DefaultFootprint,
}

impl BrowseTarget {
    /// Whether the target is a schematic symbol (else a footprint).
    pub fn is_symbols(self) -> (r: bool)
        ensures
            r == (self == BrowseTarget::Symbols || self == BrowseTarget::DefaultSymbol),
    {
        match self {
            BrowseTarget::Symbols | BrowseTarget::DefaultSymbol => true,
            _ => false,
        }
    }
}

/// Name proposed on attempt `attempt` for a copy of `base`: the name itself
/// first, then `base_1`, `base_2`, ...
pub open spec fn name_candidate_spec(base: Seq<char>, attempt: nat) -> Seq<char> {
    if attempt == 0 {
        base
    } else {
        base + seq!['_'] + dec(attempt)
    }
}

pub fn name_candidate(base: &str, attempt: u64) -> (s: String)
    ensures
        s@ == name_candidate_spec(base@, attempt as nat),
{
    let mut s = base.to_owned();
    if attempt > 0 {
        push_char(&mut s, '_');
        push_dec(&mut s, attempt);
        assert(s@ =~= base@ + seq!['_'] + dec(attempt as nat));
    }
    s
}

/// The stem of a browsed library file name (empty when it has none).
pub fn browse_file_stem(name: &str) -> (s: String)
    ensures
        s@ == match file_stem_spec(name@) {
            Some(t) => t,
            None => Seq::empty(),
        },
{
    match file_stem(name) {
        Some(s) => s,
        None => String::new(),
    }
}

/// Whether a folder entry is listed when browsing for symbols (else
/// footprints): folders, and files with extension `SchLib` (else `PcbLib`)
/// in any letter case.
pub open spec fn browse_listed(name: Seq<char>, is_dir: bool, symbols: bool) -> bool {
    is_dir || match extension_spec(name) {
        Some(x) => eq_ignore_ascii_case(
            x,
            if symbols {
                "schlib"@
            } else {
                "pcblib"@
            },
        ),
        None => false,
    }
}

/// The key a listing is ordered by: `0` for a folder or `1` for a file,
/// then the name, so that folders come first and each group is in name
/// order.
pub open spec fn browse_key(name: Seq<char>, is_dir: bool) -> Seq<char> {
    (if is_dir {
        seq!['0']
    } else {
        seq!['1']
    }) + name
}

pub open spec fn browse_kept(es: Seq<(Seq<char>, bool)>, symbols: bool) -> Seq<Keyed>
    decreases es.len(),
{
    if es.len() == 0 {
        Seq::empty()
    } else {
        browse_kept(es.drop_last(), symbols) + if browse_listed(es.last().0, es.last().1, symbols) {
            seq![(browse_key(es.last().0, es.last().1), es.last().0)]
        } else {
            Seq::<Keyed>::empty()
        }
    }
}

/// The listing of a folder's (name, is folder) entries: the listed ones,
/// folders first, each group by name.
pub open spec fn browse_listing_spec(es: Seq<(Seq<char>, bool)>, symbols: bool) -> Seq<
    (Seq<char>, bool),
> {
    sort_by_key(browse_kept(es, symbols)).map_values(
        |k: Keyed| (k.1, k.0.len() > 0 && k.0[0] == '0'),
    )
}

pub open spec fn entries_of(v: Seq<(String, bool)>) -> Seq<(Seq<char>, bool)> {
    v.map_values(|e: (String, bool)| (e.0@, e.1))
}

pub fn browse_listing(entries: &Vec<(String, bool)>, symbols: bool) -> (r: Vec<(String, bool)>)
    ensures
        entries_of(r@) == browse_listing_spec(entries_of(entries@), symbols),
{
    let ghost ev = entries_of(entries@);
    let wanted = chars_of(
        if symbols {
            "schlib"
        } else {
            "pcblib"
        },
    );
    let mut kept: Vec<(String, String)> = Vec::new();
    let mut i: usize = 0;
    while i < entries.len()
        invariant
            i <= entries@.len(),
            ev == entries_of(entries@),
            wanted@ == (if symbols {
                "schlib"@
            } else {
                "pcblib"@
            }),
            keyed_view(kept@) == browse_kept(ev.take(i as int), symbols),
        decreases entries@.len() - i,
    {
        proof {
            assert(ev.take(i + 1).drop_last() =~= ev.take(i as int));
            assert(ev.take(i + 1).last() == ev[i as int]);
        }
        let name = &entries[i].0;
        let is_dir = entries[i].1;
        let listed = is_dir || match extension(name.as_str()) {
            Some(x) => chars_eq_ignore_ascii_case(&chars_of(x.as_str()), &wanted),
            None => false,
        };
        let ghost before = keyed_view(kept@);
        if listed {
            let mut key = if is_dir {
                "0".to_owned()
            } else {
                "1".to_owned()
            };
            proof {
                reveal_strlit("0");
                reveal_strlit("1");
            }
            push_str(&mut key, name.as_str());
            assert(key@ =~= browse_key(name@, is_dir));
            let ghost kv = (key@, name@);
            kept.push((key, name.clone()));
            assert(keyed_view(kept@) =~= before.push(kv));
        } else {
            assert(keyed_view(kept@) =~= before + Seq::<Keyed>::empty());
        }
        i += 1;
    }
    assert(ev.take(entries@.len() as int) =~= ev);
    let sorted = sort_keyed(kept);
    let ghost sv = keyed_view(sorted@);
    let mut r: Vec<(String, bool)> = Vec::new();
    let mut j: usize = 0;
    while j < sorted.len()
        invariant
            j <= sorted@.len(),
            sv == keyed_view(sorted@),
            entries_of(r@) == sv.take(j as int).map_values(
                |k: Keyed| (k.1, k.0.len() > 0 && k.0[0] == '0'),
            ),
        decreases sorted@.len() - j,
    {
        let kc = chars_of(sorted[j].0.as_str());
        let dir = kc.len() > 0 && kc[0] == '0';
        let ghost before = entries_of(r@);
        let ghost item = (sv[j as int].1, dir);
        r.push((sorted[j].1.clone(), dir));
        assert(entries_of(r@) =~= before.push(item));
        assert(sv.take(j + 1).map_values(|k: Keyed| (k.1, k.0.len() > 0 && k.0[0] == '0'))
            =~= sv.take(j as int).map_values(|k: Keyed| (k.1, k.0.len() > 0 && k.0[0] == '0')).push(
            item,
        ));
        j += 1;
    }
    assert(sv.take(sorted@.len() as int) =~= sv);
    r
}

/// The standard fields shown in search details, with the component field
/// that holds each.
pub open spec fn standard_value_spec(c: Component, column: Seq<char>) -> Option<Seq<char>> {
    if column == "Manufacturer"@ {
        Some(c.manufacturer@)
    } else if column == "Library Ref"@ {
        Some(c.library_ref@)
    } else if column == "Library Path"@ {
        Some(c.library_path@)
    } else if column == "Footprint Ref"@ {
        Some(c.footprint_ref@)
    } else if column == "Footprint Path"@ {
        Some(c.footprint_path@)
    } else if column == "Footprint Ref 2"@ {
        Some(c.footprint_ref2@)
    } else if column == "Footprint Path 2"@ {
        Some(c.footprint_path2@)
    } else if column == "Footprint Ref 3"@ {
        Some(c.footprint_ref3@)
    } else if column == "Footprint Path 3"@ {
        Some(c.footprint_path3@)
    } else if column == "Description"@ {
        Some(c.description@)
    } else if column == "ComponentLink1Description"@ {
        Some(c.component_link1_description@)
    } else if column == "ComponentLink1URL"@ {
        Some(c.component_link1_url@)
    } else if column == "ComponentLink2Description"@ {
        Some(c.component_link2_description@)
    } else if column == "ComponentLink2URL"@ {
        Some(c.component_link2_url@)
    } else if column == "ComponentLink3Description"@ {
        Some(c.component_link3_description@)
    } else if column == "ComponentLink3URL"@ {
        Some(c.component_link3_url@)
    } else {
        None
    }
}

/// The values written for a component line up with the table's standard
/// columns: the first is its MPN, the one under `Verified` is `1` or `0`,
/// and every other column holds the component field that the column names
/// (the one search details show under that name).
pub proof fn stored_values_match_columns(c: Component)
    ensures
        component_values_spec(c).len() == base_columns().len(),
        base_columns()[0] == "MPN"@ && component_values_spec(c)[0] == c.mpn@,
        base_columns()[3] == "Verified"@ && component_values_spec(c)[3] == (if c.verified {
            "1"@
        } else {
            "0"@
        }),
        forall|i: int|
            0 <= i < base_columns().len() && i != 0 && i != 3 ==> standard_value_spec(
                c,
                #[trigger] base_columns()[i],
            ) == Some(component_values_spec(c)[i]),
{
    reveal_strlit("MPN");
    reveal_strlit("Manufacturer");
    reveal_strlit("Description");
    reveal_strlit("Verified");
    reveal_strlit("Library Ref");
    reveal_strlit("Library Path");
    reveal_strlit("Footprint Ref");
    reveal_strlit("Footprint Path");
    reveal_strlit("Footprint Ref 2");
    reveal_strlit("Footprint Path 2");
    reveal_strlit("Footprint Ref 3");
    reveal_strlit("Footprint Path 3");
    reveal_strlit("ComponentLink1Description");
    reveal_strlit("ComponentLink1URL");
    reveal_strlit("ComponentLink2Description");
    reveal_strlit("ComponentLink2URL");
    reveal_strlit("ComponentLink3Description");
    reveal_strlit("ComponentLink3URL");
    let cols = base_columns();
    assert(standard_value_spec(c, cols[1]) == Some(c.manufacturer@));
    assert(standard_value_spec(c, cols[2]) == Some(c.description@)) by {
        assert(cols[2].len() != "Manufacturer"@.len());
        assert(cols[2][0] != "Library Ref"@[0]);
        assert(cols[2][0] != "Library Path"@[0]);
        assert(cols[2][0] != "Footprint Ref"@[0]);
        assert(cols[2][0] != "Footprint Path"@[0]);
        assert(cols[2][0] != "Footprint Ref 2"@[0]);
        assert(cols[2][0] != "Footprint Path 2"@[0]);
        assert(cols[2][0] != "Footprint Ref 3"@[0]);
        assert(cols[2][0] != "Footprint Path 3"@[0]);
    }
    assert(standard_value_spec(c, cols[4]) == Some(c.library_ref@)) by {
        assert(cols[4].len() != "Manufacturer"@.len());
    }
    assert(standard_value_spec(c, cols[5]) == Some(c.library_path@)) by {
        assert(cols[5][0] != "Manufacturer"@[0]);
        assert(cols[5].len() != "Library Ref"@.len());
    }
    assert(standard_value_spec(c, cols[6]) == Some(c.footprint_ref@)) by {
        assert(cols[6][0] != "Manufacturer"@[0]);
        assert(cols[6][0] != "Library Ref"@[0]);
        assert(cols[6][0] != "Library Path"@[0]);
    }
    assert(standard_value_spec(c, cols[7]) == Some(c.footprint_path@)) by {
        assert(cols[7][0] != "Manufacturer"@[0]);
        assert(cols[7][0] != "Library Ref"@[0]);
        assert(cols[7][0] != "Library Path"@[0]);
        assert(cols[7].len() != "Footprint Ref"@.len());
    }
    assert(standard_value_spec(c, cols[8]) == Some(c.footprint_ref2@)) by {
        assert(cols[8][0] != "Manufacturer"@[0]);
        assert(cols[8][0] != "Library Ref"@[0]);
        assert(cols[8][0] != "Library Path"@[0]);
        assert(cols[8].len() != "Footprint Ref"@.len());
        assert(cols[8].len() != "Footprint Path"@.len());
    }
    assert(standard_value_spec(c, cols[9]) == Some(c.footprint_path2@)) by {
        assert(cols[9][0] != "Manufacturer"@[0]);
        assert(cols[9][0] != "Library Ref"@[0]);
        assert(cols[9][0] != "Library Path"@[0]);
        assert(cols[9].len() != "Footprint Ref"@.len());
        assert(cols[9].len() != "Footprint Path"@.len());
        assert(cols[9].len() != "Footprint Ref 2"@.len());
    }
    assert(standard_value_spec(c, cols[10]) == Some(c.footprint_ref3@)) by {
        assert(cols[10][0] != "Manufacturer"@[0]);
        assert(cols[10][0] != "Library Ref"@[0]);
        assert(cols[10][0] != "Library Path"@[0]);
        assert(cols[10].len() != "Footprint Ref"@.len());
        assert(cols[10].len() != "Footprint Path"@.len());
        assert(cols[10][14] != "Footprint Ref 2"@[14]);
        assert(cols[10].len() != "Footprint Path 2"@.len());
    }
    assert(standard_value_spec(c, cols[11]) == Some(c.footprint_path3@)) by {
        assert(cols[11][0] != "Manufacturer"@[0]);
        assert(cols[11][0] != "Library Ref"@[0]);
        assert(cols[11][0] != "Library Path"@[0]);
        assert(cols[11].len() != "Footprint Ref"@.len());
        assert(cols[11].len() != "Footprint Path"@.len());
        assert(cols[11].len() != "Footprint Ref 2"@.len());
        assert(cols[11][15] != "Footprint Path 2"@[15]);
        assert(cols[11].len() != "Footprint Ref 3"@.len());
    }
    assert forall|i: int| 12 <= i < 18 implies standard_value_spec(c, #[trigger] cols[i])
        == Some(component_values_spec(c)[i]) by {
        assert(cols[i][0] == 'C');
        assert("Manufacturer"@[0] != 'C');
        assert("Library Ref"@[0] != 'C');
        assert("Library Path"@[0] != 'C');
        assert("Footprint Ref"@[0] != 'C');
        assert("Footprint Path"@[0] != 'C');
        assert("Footprint Ref 2"@[0] != 'C');
        assert("Footprint Path 2"@[0] != 'C');
        assert("Footprint Ref 3"@[0] != 'C');
        assert("Footprint Path 3"@[0] != 'C');
        assert("Description"@[0] != 'C');
        assert(cols[12].len() == 25 && cols[12][13] == '1');
        assert(cols[13].len() == 17 && cols[13][13] == '1');
        assert(cols[14].len() == 25 && cols[14][13] == '2');
        assert(cols[15].len() == 17 && cols[15][13] == '2');
        assert(cols[16].len() == 25 && cols[16][13] == '3');
        assert(cols[17].len() == 17 && cols[17][13] == '3');
    }
}

/// The value of a standard field of a component, or `None` for a custom
/// field (which is looked up in the database).
pub fn standard_value(c: &Component, column: &str) -> (r: Option<String>)
    ensures
        match r {
            Some(s) => standard_value_spec(*c, column@) == Some(s@),
            None => standard_value_spec(*c, column@) is None,
        },
{
    if str_eq(column, "Manufacturer") {
        Some(c.manufacturer.clone())
    } else if str_eq(column, "Library Ref") {
        Some(c.library_ref.clone())
    } else if str_eq(column, "Library Path") {
        Some(c.library_path.clone())
    } else if str_eq(column, "Footprint Ref") {
        Some(c.footprint_ref.clone())
    } else if str_eq(column, "Footprint Path") {
        Some(c.footprint_path.clone())
    } else if str_eq(column, "Footprint Ref 2") {
        Some(c.footprint_ref2.clone())
    } else if str_eq(column, "Footprint Path 2") {
        Some(c.footprint_path2.clone())
    } else if str_eq(column, "Footprint Ref 3") {
        Some(c.footprint_ref3.clone())
    } else if str_eq(column, "Footprint Path 3") {
        Some(c.footprint_path3.clone())
    } else if str_eq(column, "Description") {
        Some(c.description.clone())
    } else if str_eq(column, "ComponentLink1Description") {
        Some(c.component_link1_description.clone())
    } else if str_eq(column, "ComponentLink1URL") {
        Some(c.component_link1_url.clone())
    } else if str_eq(column, "ComponentLink2Description") {
        Some(c.component_link2_description.clone())
    } else if str_eq(column, "ComponentLink2URL") {
        Some(c.component_link2_url.clone())
    } else if str_eq(column, "ComponentLink3Description") {
        Some(c.component_link3_description.clone())
    } else if str_eq(column, "ComponentLink3URL") {
        Some(c.component_link3_url.clone())
    } else {
        None
    }
}

/// The columns offered as search parameters: all but `id`, `MPN` and
/// `Verified`, in table order.
pub open spec fn search_columns_spec(cols: Seq<Seq<char>>) -> Seq<Seq<char>>
    decreases cols.len(),
{
    if cols.len() == 0 {
        Seq::empty()
    } else {
        search_columns_spec(cols.drop_last()) + if cols.last() == "id"@ || cols.last() == "MPN"@
            || cols.last() == "Verified"@ {
            Seq::<Seq<char>>::empty()
        } else {
            seq![cols.last()]
        }
    }
}

pub fn search_param_columns(cols: &[String]) -> (r: Vec<String>)
    ensures
        strings_view(r@) == search_columns_spec(strings_view(cols@)),
{
    let ghost cv = strings_view(cols@);
    let mut r: Vec<String> = Vec::new();
    let mut i: usize = 0;
    while i < cols.len()
        invariant
            i <= cols@.len(),
            cv == strings_view(cols@),
            strings_view(r@) == search_columns_spec(cv.take(i as int)),
        decreases cols@.len() - i,
    {
        proof {
            assert(cv.take(i + 1).drop_last() =~= cv.take(i as int));
            assert(cv.take(i + 1).last() == cv[i as int]);
        }
        let ghost before = r@;
        let c = cols[i].as_str();
        if !(str_eq(c, "id") || str_eq(c, "MPN") || str_eq(c, "Verified")) {
            r.push(cols[i].clone());
            assert(strings_view(r@) =~= strings_view(before).push(cv[i as int]));
        } else {
            assert(strings_view(r@) =~= strings_view(before) + Seq::<Seq<char>>::empty());
        }
        i += 1;
    }
    assert(cv.take(cols@.len() as int) =~= cv);
    r
}

} // verus!
