//! Importing components: from an LCSC product description and from the
//! rows of a spreadsheet. The values of a component are kept as an
//! ordered list of (column, value) entries with distinct columns; assigning
//! a column again replaces its value in place.

use vstd::prelude::*;
use crate::db::{base_columns, Component};
use crate::paths::{file_stem, file_stem_spec, relative_library_path, relative_library_path_spec};
use crate::text::{
    chars_eq_ignore_ascii_case, chars_of, eq_ignore_ascii_case, push_str, str_eq,
    string_from_chars, strings_view, trim_chars, trim_seq,
};

verus! {

broadcast use vstd::string::group_string_axioms;

pub type Entry = (Seq<char>, Seq<char>);

pub open spec fn entries_view(v: Seq<(String, String)>) -> Seq<Entry> {
    v.map_values(|e: (String, String)| (e.0@, e.1@))
}

/// Index of the entry for column `k`.
pub open spec fn key_index(es: Seq<Entry>, k: Seq<char>) -> Option<int>
    decreases es.len(),
{
    if es.len() == 0 {
        None
    } else {
        match key_index(es.drop_last(), k) {
            Some(i) => Some(i),
            None => if es.last().0 == k {
                Some(es.len() - 1)
            } else {
                None
            },
        }
    }
}

pub proof fn lemma_key_index(es: Seq<Entry>, k: Seq<char>)
    ensures
        match key_index(es, k) {
            Some(i) => 0 <= i < es.len() && es[i].0 == k && forall|j: int| 0 <= j < i ==> (#[trigger] es[j]).0 != k,
            None => forall|j: int| 0 <= j < es.len() ==> (#[trigger] es[j]).0 != k,
        },
    decreases es.len(),
{
    if es.len() > 0 {
        lemma_key_index(es.drop_last(), k);
        assert forall|j: int| 0 <= j < es.len() - 1 implies es.drop_last()[j] == es[j] by {}
    }
}

pub proof fn lemma_key_index_at(es: Seq<Entry>, k: Seq<char>, i: int)
    requires
        0 <= i < es.len(),
        es[i].0 == k,
        forall|j: int| 0 <= j < i ==> (#[trigger] es[j]).0 != k,
    ensures
        key_index(es, k) == Some(i),
{
    lemma_key_index(es, k);
}

pub proof fn lemma_key_index_none(es: Seq<Entry>, k: Seq<char>)
    requires
        forall|j: int| 0 <= j < es.len() ==> (#[trigger] es[j]).0 != k,
    ensures
        key_index(es, k) is None,
{
    lemma_key_index(es, k);
}

/// Sets `k` to `val`: in place when `k` is already there, else at the end.
pub open spec fn assign(es: Seq<Entry>, k: Seq<char>, val: Seq<char>) -> Seq<Entry> {
    match key_index(es, k) {
        Some(i) => es.update(i, (k, val)),
        None => es.push((k, val)),
    }
}

/// The entries after the assignments `asg`, in order.
pub open spec fn assign_all(es: Seq<Entry>, asg: Seq<Entry>) -> Seq<Entry>
    decreases asg.len(),
{
    if asg.len() == 0 {
        es
    } else {
        let prev = assign_all(es, asg.drop_last());
        assign(prev, asg.last().0, asg.last().1)
    }
}

/// The value of column `k`, if set.
pub open spec fn lookup(es: Seq<Entry>, k: Seq<char>) -> Option<Seq<char>> {
    match key_index(es, k) {
        Some(i) => Some(es[i].1),
        None => None,
    }
}

fn find_key(v: &Vec<(String, String)>, k: &str) -> (r: Option<usize>)
    ensures
        match r {
            Some(i) => i < v@.len() && key_index(entries_view(v@), k@) == Some(
                i as int,
            ),
            None => key_index(entries_view(v@), k@) is None,
        },
{
    let ghost ev = entries_view(v@);
    let mut i: usize = 0;
    while i < v.len()
        invariant
            i <= v@.len(),
            ev == entries_view(v@),
            forall|j: int| 0 <= j < i ==> (#[trigger] ev[j]).0 != k@,
        decreases v@.len() - i,
    {
        if str_eq(v[i].0.as_str(), k) {
            proof {
                lemma_key_index_at(ev, k@, i as int);
            }
            return Some(i);
        }
        i += 1;
    }
    proof {
        lemma_key_index_none(ev, k@);
    }
    None
}

/// Sets column `k` to `val`.
pub fn assign_value(v: &mut Vec<(String, String)>, k: &str, val: &str)
    ensures
        entries_view(final(v)@) == assign(entries_view(old(v)@), k@, val@),
{
    let ghost e0 = entries_view(v@);
    match find_key(v, k) {
        Some(i) => {
            v.set(i, (k.to_owned(), val.to_owned()));
            assert(entries_view(v@) =~= e0.update(i as int, (k@, val@)));
        },
        None => {
            v.push((k.to_owned(), val.to_owned()));
            assert(entries_view(v@) =~= e0.push((k@, val@)));
        },
    }
}

/// The value of column `k`.
pub fn lookup_value(v: &Vec<(String, String)>, k: &str) -> (r: Option<String>)
    ensures
        match r {
            Some(s) => lookup(entries_view(v@), k@) == Some(s@),
            None => lookup(entries_view(v@), k@) is None,
        },
{
    match find_key(v, k) {
        Some(i) => Some(v[i].1.clone()),
        None => None,
    }
}

fn value_or_empty(v: &Vec<(String, String)>, k: &str) -> (s: String)
    ensures
        s@ == match lookup(entries_view(v@), k@) {
            Some(x) => x,
            None => Seq::empty(),
        },
{
    match lookup_value(v, k) {
        Some(s) => s,
        None => String::new(),
    }
}

// ---------------------------------------------------------------------------
// Library defaults
// ---------------------------------------------------------------------------

/// The configured default symbol and footprint libraries and the folders
/// they are kept under.
#[derive(Clone, Debug)]
pub struct LibraryDefaults {
    pub symbol: String,
    pub symbols_folder: String,
    pub footprint: String,
    pub footprints_folder: String,
}

/// The reference named after a library file: its stem, or the (trimmed)
/// path itself when it has none.
pub open spec fn library_ref_spec(path: Seq<char>) -> Seq<char> {
    match file_stem_spec(trim_seq(path)) {
        Some(s) => s,
        None => trim_seq(path),
    }
}

pub fn library_ref(path: &str) -> (s: String)
    ensures
        s@ == library_ref_spec(path@),
{
    let t = string_from_chars(&trim_chars(&chars_of(path)));
    match file_stem(t.as_str()) {
        Some(s) => s,
        None => t,
    }
}

// ---------------------------------------------------------------------------
// LCSC products
// ---------------------------------------------------------------------------

/// What a JSON member holds, as far as the import reads it.
#[derive(Clone, Debug)]
pub enum JsonText {
    Absent,
    Text(String),
    Other,
}

pub enum JsonTextSpec {
    Absent,
    Text(Seq<char>),
    Other,
}

impl View for JsonText {
    type V = JsonTextSpec;

    open spec fn view(&self) -> JsonTextSpec {
        match self {
            JsonText::Absent => JsonTextSpec::Absent,
            JsonText::Text(s) => JsonTextSpec::Text(s@),
            JsonText::Other => JsonTextSpec::Other,
        }
    }
}

/// One parameter of an LCSC product.
#[derive(Clone, Debug)]
pub struct LcscParam {
    pub param_name_en: JsonText,
    pub param_name: JsonText,
    pub param_value_en: JsonText,
    pub param_value: JsonText,
}

/// The members of an LCSC product description that the import reads;
/// `parent_catalog` is the `catalogNameEn` of the last entry of
/// `parentCatalogList`, and `params` the `paramVOList` when it is an array.
#[derive(Clone, Debug)]
pub struct LcscProduct {
    pub catalog_name: JsonText,
    pub catalog_name_en: JsonText,
    pub category_name_en: JsonText,
    pub parent_catalog: JsonText,
    pub product_model: JsonText,
    pub brand_name_en: JsonText,
    pub product_name_en: JsonText,
    pub pdf_url: JsonText,
    pub encap_standard: JsonText,
    pub params: Option<Vec<LcscParam>>,
}

/// The first member that is present (whatever it holds).
pub open spec fn first_present(a: JsonTextSpec, b: JsonTextSpec) -> JsonTextSpec {
    match a {
        JsonTextSpec::Absent => b,
        _ => a,
    }
}

/// The trimmed text of a member when it is text that is not blank.
pub open spec fn nonblank(j: JsonTextSpec) -> Option<Seq<char>> {
    match j {
        JsonTextSpec::Text(s) => if trim_seq(s).len() > 0 {
            Some(trim_seq(s))
        } else {
            None
        },
        _ => None,
    }
}

/// The trimmed text of a member, empty when it is not text.
pub open spec fn text_or_empty(j: JsonTextSpec) -> Seq<char> {
    match j {
        JsonTextSpec::Text(s) => trim_seq(s),
        _ => Seq::empty(),
    }
}

/// The category of a product: the first present of `catalogName`,
/// `catalogNameEn` and `categoryNameEn` when it is non-blank text, else the
/// last parent catalog's name.
pub open spec fn lcsc_category_spec(p: LcscProduct) -> Option<Seq<char>> {
    match nonblank(first_present(first_present(p.catalog_name@, p.catalog_name_en@), p.category_name_en@)) {
        Some(c) => Some(c),
        None => nonblank(p.parent_catalog@),
    }
}

fn nonblank_exec(j: &JsonText) -> (r: Option<String>)
    ensures
        match r {
            Some(s) => nonblank(j@) == Some(s@),
            None => nonblank(j@) is None,
        },
{
    match j {
        JsonText::Text(s) => {
            let t = trim_chars(&chars_of(s.as_str()));
            if t.len() > 0 {
                Some(string_from_chars(&t))
            } else {
                None
            }
        },
        _ => None,
    }
}

fn text_or_empty_exec(j: &JsonText) -> (r: String)
    ensures
        r@ == text_or_empty(j@),
{
    match j {
        JsonText::Text(s) => string_from_chars(&trim_chars(&chars_of(s.as_str()))),
        _ => String::new(),
    }
}

fn first_present_exec<'a>(a: &'a JsonText, b: &'a JsonText) -> (r: &'a JsonText)
    ensures
        r@ == first_present(a@, b@),
{
    match a {
        JsonText::Absent => b,
        _ => a,
    }
}

/// The category an LCSC product is filed under.
pub fn lcsc_category(p: &LcscProduct) -> (r: Result<String, String>)
    ensures
        match r {
            Ok(c) => lcsc_category_spec(*p) == Some(c@),
            Err(m) => lcsc_category_spec(*p) is None && m@ == "LCSC response has no category"@,
        },
{
    let first = first_present_exec(first_present_exec(&p.catalog_name, &p.catalog_name_en), &p.category_name_en);
    match nonblank_exec(first) {
        Some(c) => Ok(c),
        None => match nonblank_exec(&p.parent_catalog) {
            Some(c) => Ok(c),
            None => Err("LCSC response has no category".to_owned()),
        },
    }
}

/// A parameter's (name, value) when both are non-blank text.
pub open spec fn param_entry(q: LcscParam) -> Option<Entry> {
    let name = text_or_empty(first_present(q.param_name_en@, q.param_name@));
    let value = text_or_empty(first_present(q.param_value_en@, q.param_value@));
    if name.len() > 0 && value.len() > 0 {
        Some((name, value))
    } else {
        None
    }
}

pub open spec fn param_entries(ps: Seq<LcscParam>) -> Seq<Entry>
    decreases ps.len(),
{
    if ps.len() == 0 {
        Seq::empty()
    } else {
        param_entries(ps.drop_last()) + match param_entry(ps.last()) {
            Some(e) => seq![e],
            None => Seq::<Entry>::empty(),
        }
    }
}

/// The library columns filled from the defaults: reference and path of the
/// default symbol, then of the default footprint, for those configured.
pub open spec fn default_library_entries(d: LibraryDefaults) -> Seq<Entry> {
    (if trim_seq(d.symbol@).len() > 0 {
        seq![
            ("Library Ref"@, library_ref_spec(d.symbol@)),
            ("Library Path"@, relative_library_path_spec(d.symbols_folder@, trim_seq(d.symbol@))),
        ]
    } else {
        Seq::<Entry>::empty()
    }) + (if trim_seq(d.footprint@).len() > 0 {
        seq![
            ("Footprint Ref"@, library_ref_spec(d.footprint@)),
            ("Footprint Path"@, relative_library_path_spec(d.footprints_folder@, trim_seq(d.footprint@))),
        ]
    } else {
        Seq::<Entry>::empty()
    })
}

/// The assignments an LCSC product makes, in order: unverified; the MPN
/// (the product model, else the code); manufacturer, description and
/// datasheet link; the package when given; the default libraries; then
/// every parameter with a name and a value.
pub open spec fn lcsc_assignments(code: Seq<char>, p: LcscProduct, d: LibraryDefaults) -> Seq<Entry> {
    let package = text_or_empty(p.encap_standard@);
    seq![
        ("Verified"@, "0"@),
        ("MPN"@, lcsc_mpn_spec(code, p)),
        ("Manufacturer"@, text_or_empty(p.brand_name_en@)),
        ("Description"@, text_or_empty(p.product_name_en@)),
        ("ComponentLink1Description"@, "Datasheet"@),
        ("ComponentLink1URL"@, text_or_empty(p.pdf_url@)),
    ] + (if package.len() > 0 {
        seq![("Package"@, package)]
    } else {
        Seq::<Entry>::empty()
    }) + default_library_entries(d) + match p.params {
        Some(ps) => param_entries(ps@),
        None => Seq::<Entry>::empty(),
    }
}

/// The MPN an LCSC product is imported under: its product model, else the
/// LCSC code.
pub open spec fn lcsc_mpn_spec(code: Seq<char>, p: LcscProduct) -> Seq<char> {
    let model = text_or_empty(p.product_model@);
    if model.len() == 0 {
        code
    } else {
        model
    }
}

pub fn lcsc_mpn(code: &str, p: &LcscProduct) -> (r: String)
    ensures
        r@ == lcsc_mpn_spec(code@, *p),
{
    let model = text_or_empty_exec(&p.product_model);
    if model.as_str().is_empty() {
        code.to_owned()
    } else {
        model
    }
}

fn assign_entries(v: &mut Vec<(String, String)>, asg: &Vec<(String, String)>)
    ensures
        entries_view(final(v)@) == assign_all(entries_view(old(v)@), entries_view(asg@)),
{
    let ghost e0 = entries_view(v@);
    let ghost av = entries_view(asg@);
    let mut i: usize = 0;
    while i < asg.len()
        invariant
            i <= asg@.len(),
            av == entries_view(asg@),
            entries_view(v@) == assign_all(e0, av.take(i as int)),
        decreases asg@.len() - i,
    {
        proof {
            assert(av.take(i + 1).drop_last() =~= av.take(i as int));
            assert(av.take(i + 1).last() == av[i as int]);
        }
        assign_value(v, asg[i].0.as_str(), asg[i].1.as_str());
        i += 1;
    }
    assert(av.take(asg@.len() as int) =~= av);
}

fn push_entry(v: &mut Vec<(String, String)>, k: &str, val: String)
    ensures
        entries_view(final(v)@) == entries_view(old(v)@).push((k@, val@)),
{
    let ghost e0 = entries_view(v@);
    let ghost vv = val@;
    v.push((k.to_owned(), val));
    assert(entries_view(v@) =~= e0.push((k@, vv)));
}

fn default_library_entries_exec(d: &LibraryDefaults, asg: &mut Vec<(String, String)>)
    ensures
        entries_view(final(asg)@) == entries_view(old(asg)@) + default_library_entries(*d),
{
    let ghost e0 = entries_view(asg@);
    let symbol = trim_chars(&chars_of(d.symbol.as_str()));
    if symbol.len() > 0 {
        let s = string_from_chars(&symbol);
        push_entry(asg, "Library Ref", library_ref(d.symbol.as_str()));
        push_entry(asg, "Library Path", relative_library_path(d.symbols_folder.as_str(), s.as_str()));
    }
    let ghost e1 = entries_view(asg@);
    assert(e1 =~= e0 + (if trim_seq(d.symbol@).len() > 0 {
        seq![
            ("Library Ref"@, library_ref_spec(d.symbol@)),
            ("Library Path"@, relative_library_path_spec(d.symbols_folder@, trim_seq(d.symbol@))),
        ]
    } else {
        Seq::<Entry>::empty()
    }));
    let footprint = trim_chars(&chars_of(d.footprint.as_str()));
    if footprint.len() > 0 {
        let f = string_from_chars(&footprint);
        push_entry(asg, "Footprint Ref", library_ref(d.footprint.as_str()));
        push_entry(asg, "Footprint Path", relative_library_path(d.footprints_folder.as_str(), f.as_str()));
    }
    assert(entries_view(asg@) =~= entries_view(old(asg)@) + default_library_entries(*d));
}

fn param_entries_exec(ps: &Vec<LcscParam>, asg: &mut Vec<(String, String)>)
    ensures
        entries_view(final(asg)@) == entries_view(old(asg)@) + param_entries(ps@),
{
    let ghost e0 = entries_view(asg@);
    let mut i: usize = 0;
    while i < ps.len()
        invariant
            i <= ps@.len(),
            entries_view(asg@) == e0 + param_entries(ps@.take(i as int)),
        decreases ps@.len() - i,
    {
        proof {
            assert(ps@.take(i + 1).drop_last() =~= ps@.take(i as int));
            assert(ps@.take(i + 1).last() == ps@[i as int]);
        }
        let q = &ps[i];
        let name = text_or_empty_exec(first_present_exec(&q.param_name_en, &q.param_name));
        let value = text_or_empty_exec(first_present_exec(&q.param_value_en, &q.param_value));
        let ghost before = entries_view(asg@);
        if !name.as_str().is_empty() && !value.as_str().is_empty() {
            let ghost nv = name@;
            let ghost vv = value@;
            asg.push((name, value));
            assert(entries_view(asg@) =~= before.push((nv, vv)));
        }
        assert(entries_view(asg@) =~= e0 + param_entries(ps@.take(i + 1)));
        i += 1;
    }
    assert(ps@.take(ps@.len() as int) =~= ps@);
}

/// The assignments an LCSC product makes.
pub fn lcsc_assignment_list(code: &str, p: &LcscProduct, d: &LibraryDefaults) -> (r: Vec<
    (String, String),
>)
    ensures
        entries_view(r@) == lcsc_assignments(code@, *p, *d),
{
    let mut asg: Vec<(String, String)> = Vec::new();
    let mpn = lcsc_mpn(code, p);
    push_entry(&mut asg, "Verified", "0".to_owned());
    push_entry(&mut asg, "MPN", mpn);
    push_entry(&mut asg, "Manufacturer", text_or_empty_exec(&p.brand_name_en));
    push_entry(&mut asg, "Description", text_or_empty_exec(&p.product_name_en));
    push_entry(&mut asg, "ComponentLink1Description", "Datasheet".to_owned());
    push_entry(&mut asg, "ComponentLink1URL", text_or_empty_exec(&p.pdf_url));
    let package = text_or_empty_exec(&p.encap_standard);
    if !package.as_str().is_empty() {
        push_entry(&mut asg, "Package", package);
    }
    let ghost head = entries_view(asg@);
    default_library_entries_exec(d, &mut asg);
    let ghost mid = entries_view(asg@);
    match &p.params {
        Some(ps) => param_entries_exec(ps, &mut asg),
        None => {},
    }
    assert(entries_view(asg@) =~= lcsc_assignments(code@, *p, *d));
    asg
}

/// The values of the component imported from an LCSC product.
pub fn lcsc_values(code: &str, p: &LcscProduct, d: &LibraryDefaults) -> (r: Vec<(String, String)>)
    ensures
        entries_view(r@) == assign_all(Seq::empty(), lcsc_assignments(code@, *p, *d)),
{
    let asg = lcsc_assignment_list(code, p, d);
    let mut v: Vec<(String, String)> = Vec::new();
    assert(entries_view(v@) =~= Seq::<Entry>::empty());
    assign_entries(&mut v, &asg);
    v
}


// ---------------------------------------------------------------------------
// Saving imported values
// ---------------------------------------------------------------------------

/// The component holding the standard values among `es` (absent ones
/// empty; unverified).
pub open spec fn component_matches(c: Component, es: Seq<Entry>) -> bool {
    let get = |k: Seq<char>| match lookup(es, k) {
        Some(x) => x,
        None => Seq::<char>::empty(),
    };
    &&& c.id@ == Seq::<char>::empty()
    &&& c.mpn@ == get("MPN"@)
    &&& c.manufacturer@ == get("Manufacturer"@)
    &&& c.description@ == get("Description"@)
    &&& !c.verified
    &&& c.library_ref@ == get("Library Ref"@)
    &&& c.library_path@ == get("Library Path"@)
    &&& c.footprint_ref@ == get("Footprint Ref"@)
    &&& c.footprint_path@ == get("Footprint Path"@)
    &&& c.footprint_ref2@ == Seq::<char>::empty()
    &&& c.footprint_path2@ == Seq::<char>::empty()
    &&& c.footprint_ref3@ == Seq::<char>::empty()
    &&& c.footprint_path3@ == Seq::<char>::empty()
    &&& c.component_link1_description@ == get("ComponentLink1Description"@)
    &&& c.component_link1_url@ == get("ComponentLink1URL"@)
    &&& c.component_link2_description@ == Seq::<char>::empty()
    &&& c.component_link2_url@ == Seq::<char>::empty()
    &&& c.component_link3_description@ == Seq::<char>::empty()
    &&& c.component_link3_url@ == Seq::<char>::empty()
}

pub fn component_from_values(values: &Vec<(String, String)>) -> (c: Component)
    ensures
        component_matches(c, entries_view(values@)),
{
    Component {
        id: String::new(),
        mpn: value_or_empty(values, "MPN"),
        manufacturer: value_or_empty(values, "Manufacturer"),
        description: value_or_empty(values, "Description"),
        verified: false,
        library_ref: value_or_empty(values, "Library Ref"),
        library_path: value_or_empty(values, "Library Path"),
        footprint_ref: value_or_empty(values, "Footprint Ref"),
        footprint_path: value_or_empty(values, "Footprint Path"),
        footprint_ref2: String::new(),
        footprint_path2: String::new(),
        footprint_ref3: String::new(),
        footprint_path3: String::new(),
        component_link1_description: value_or_empty(values, "ComponentLink1Description"),
        component_link1_url: value_or_empty(values, "ComponentLink1URL"),
        component_link2_description: String::new(),
        component_link2_url: String::new(),
        component_link3_description: String::new(),
        component_link3_url: String::new(),
    }
}

/// The stem of a (trimmed) library file path, empty when it has none.
pub open spec fn stem_or_empty(path: Seq<char>) -> Seq<char> {
    match file_stem_spec(trim_seq(path)) {
        Some(s) => s,
        None => Seq::empty(),
    }
}

/// The value imported under `k`, empty when none.
pub open spec fn imported_or_empty(es: Seq<Entry>, k: Seq<char>) -> Seq<char> {
    match lookup(es, k) {
        Some(x) => x,
        None => Seq::empty(),
    }
}

/// The standard columns whose imported values a saved component keeps.
pub open spec fn kept_column(k: Seq<char>) -> bool {
    k == "Manufacturer"@ || k == "Description"@ || k == "Library Ref"@ || k == "Library Path"@ || k
        == "Footprint Ref"@ || k == "Footprint Path"@ || k == "ComponentLink1Description"@ || k
        == "ComponentLink1URL"@
}

/// A component saved from imported values shows, under each standard
/// column an import fills, the value imported under that column's name
/// (empty when none): the same field that the table stores under that
/// column and that search details show under it; its MPN is the imported
/// MPN.
pub proof fn saved_component_keeps_imported_values(c: Component, es: Seq<Entry>, k: Seq<char>)
    requires
        component_matches(c, es),
        kept_column(k),
    ensures
        crate::settings::standard_value_spec(c, k) == Some(imported_or_empty(es, k)),
        c.mpn@ == imported_or_empty(es, "MPN"@),
{
    crate::settings::stored_values_match_columns(c);
    let cols = base_columns();
    let v = crate::db::component_values_spec(c);
    assert(cols[1] == "Manufacturer"@ && v[1] == c.manufacturer@);
    assert(cols[2] == "Description"@ && v[2] == c.description@);
    assert(cols[4] == "Library Ref"@ && v[4] == c.library_ref@);
    assert(cols[5] == "Library Path"@ && v[5] == c.library_path@);
    assert(cols[6] == "Footprint Ref"@ && v[6] == c.footprint_ref@);
    assert(cols[7] == "Footprint Path"@ && v[7] == c.footprint_path@);
    assert(cols[12] == "ComponentLink1Description"@ && v[12] == c.component_link1_description@);
    assert(cols[13] == "ComponentLink1URL"@ && v[13] == c.component_link1_url@);
}

/// A new component with the given MPN, filed with the default libraries:
/// their stems as references and their paths relative to the library
/// folders; everything else empty and unverified.
pub open spec fn new_component_matches(c: Component, mpn: Seq<char>, d: LibraryDefaults) -> bool {
    &&& c.id@ == Seq::<char>::empty()
    &&& c.mpn@ == mpn
    &&& c.manufacturer@ == Seq::<char>::empty()
    &&& c.description@ == Seq::<char>::empty()
    &&& !c.verified
    &&& c.library_ref@ == stem_or_empty(d.symbol@)
    &&& c.library_path@ == relative_library_path_spec(d.symbols_folder@, d.symbol@)
    &&& c.footprint_ref@ == stem_or_empty(d.footprint@)
    &&& c.footprint_path@ == relative_library_path_spec(d.footprints_folder@, d.footprint@)
    &&& c.footprint_ref2@ == Seq::<char>::empty()
    &&& c.footprint_path2@ == Seq::<char>::empty()
    &&& c.footprint_ref3@ == Seq::<char>::empty()
    &&& c.footprint_path3@ == Seq::<char>::empty()
    &&& c.component_link1_description@ == Seq::<char>::empty()
    &&& c.component_link1_url@ == Seq::<char>::empty()
    &&& c.component_link2_description@ == Seq::<char>::empty()
    &&& c.component_link2_url@ == Seq::<char>::empty()
    &&& c.component_link3_description@ == Seq::<char>::empty()
    &&& c.component_link3_url@ == Seq::<char>::empty()
}

fn stem_or_empty_exec(path: &str) -> (r: String)
    ensures
        r@ == stem_or_empty(path@),
{
    let t = string_from_chars(&trim_chars(&chars_of(path)));
    match file_stem(t.as_str()) {
        Some(s) => s,
        None => String::new(),
    }
}

pub fn new_component(mpn: &str, d: &LibraryDefaults) -> (c: Component)
    ensures
        new_component_matches(c, mpn@, *d),
{
    Component {
        id: String::new(),
        mpn: mpn.to_owned(),
        manufacturer: String::new(),
        description: String::new(),
        verified: false,
        library_ref: stem_or_empty_exec(d.symbol.as_str()),
        library_path: relative_library_path(d.symbols_folder.as_str(), d.symbol.as_str()),
        footprint_ref: stem_or_empty_exec(d.footprint.as_str()),
        footprint_path: relative_library_path(d.footprints_folder.as_str(), d.footprint.as_str()),
        footprint_ref2: String::new(),
        footprint_path2: String::new(),
        footprint_ref3: String::new(),
        footprint_path3: String::new(),
        component_link1_description: String::new(),
        component_link1_url: String::new(),
        component_link2_description: String::new(),
        component_link2_url: String::new(),
        component_link3_description: String::new(),
        component_link3_url: String::new(),
    }
}

/// Index of the first component whose MPN equals `mpn` ignoring ASCII
/// case.
pub fn find_by_mpn(comps: &[Component], mpn: &str) -> (r: Option<usize>)
    ensures
        match r {
            Some(i) => i < comps@.len() && eq_ignore_ascii_case(comps@[i as int].mpn@, mpn@)
                && forall|j: int| 0 <= j < i ==> !eq_ignore_ascii_case(comps@[j].mpn@, mpn@),
            None => forall|j: int|
                0 <= j < comps@.len() ==> !eq_ignore_ascii_case(#[trigger] comps@[j].mpn@, mpn@),
        },
{
    let m = chars_of(mpn);
    let mut i: usize = 0;
    while i < comps.len()
        invariant
            i <= comps@.len(),
            m@ == mpn@,
            forall|j: int| 0 <= j < i ==> !eq_ignore_ascii_case(#[trigger] comps@[j].mpn@, mpn@),
        decreases comps@.len() - i,
    {
        if chars_eq_ignore_ascii_case(&chars_of(comps[i].mpn.as_str()), &m) {
            return Some(i);
        }
        i += 1;
    }
    None
}

/// Whether a column is a custom one (neither `id` nor standard).
pub open spec fn is_custom(k: Seq<char>) -> bool {
    k != "id"@ && !base_columns().contains(k)
}

/// The custom columns set in `es` that `cols` lacks, in order.
pub open spec fn new_columns_spec(es: Seq<Entry>, cols: Seq<Seq<char>>) -> Seq<Seq<char>>
    decreases es.len(),
{
    if es.len() == 0 {
        Seq::empty()
    } else {
        new_columns_spec(es.drop_last(), cols) + if is_custom(es.last().0) && !cols.contains(
            es.last().0,
        ) {
            seq![es.last().0]
        } else {
            Seq::<Seq<char>>::empty()
        }
    }
}

/// The custom values of `es` whose column `cols` has, in order.
pub open spec fn custom_values_spec(es: Seq<Entry>, cols: Seq<Seq<char>>) -> Seq<Entry>
    decreases es.len(),
{
    if es.len() == 0 {
        Seq::empty()
    } else {
        custom_values_spec(es.drop_last(), cols) + if is_custom(es.last().0) && cols.contains(
            es.last().0,
        ) {
            seq![es.last()]
        } else {
            Seq::<Entry>::empty()
        }
    }
}

fn contains_str(v: &[String], s: &str) -> (r: bool)
    ensures
        r == strings_view(v@).contains(s@),
{
    let ghost sv = strings_view(v@);
    let mut i: usize = 0;
    while i < v.len()
        invariant
            i <= v@.len(),
            sv == strings_view(v@),
            forall|j: int| 0 <= j < i ==> sv[j] != s@,
        decreases v@.len() - i,
    {
        if str_eq(v[i].as_str(), s) {
            assert(sv[i as int] == s@);
            return true;
        }
        i += 1;
    }
    false
}

fn is_custom_exec(base: &Vec<String>, k: &str) -> (r: bool)
    requires
        strings_view(base@) == base_columns(),
    ensures
        r == is_custom(k@),
{
    !str_eq(k, "id") && !contains_str(base, k)
}

/// The columns to add to a new category table for the imported values.
pub fn new_columns(values: &Vec<(String, String)>, cols: &[String]) -> (r: Vec<String>)
    ensures
        strings_view(r@) == new_columns_spec(entries_view(values@), strings_view(cols@)),
{
    let base = crate::db::base_column_names();
    let ghost ev = entries_view(values@);
    let mut r: Vec<String> = Vec::new();
    let mut i: usize = 0;
    while i < values.len()
        invariant
            i <= values@.len(),
            ev == entries_view(values@),
            strings_view(base@) == base_columns(),
            strings_view(r@) == new_columns_spec(ev.take(i as int), strings_view(cols@)),
        decreases values@.len() - i,
    {
        proof {
            assert(ev.take(i + 1).drop_last() =~= ev.take(i as int));
            assert(ev.take(i + 1).last() == ev[i as int]);
        }
        let ghost before = strings_view(r@);
        let k = values[i].0.as_str();
        if is_custom_exec(&base, k) && !contains_str(cols, k) {
            r.push(values[i].0.clone());
            assert(strings_view(r@) =~= before.push(ev[i as int].0));
        } else {
            assert(strings_view(r@) =~= before + Seq::<Seq<char>>::empty());
        }
        i += 1;
    }
    assert(ev.take(values@.len() as int) =~= ev);
    r
}

/// The custom values to store for a component, given its table's columns.
pub fn custom_values_to_save(values: &Vec<(String, String)>, cols: &[String]) -> (r: Vec<
    (String, String),
>)
    ensures
        entries_view(r@) == custom_values_spec(entries_view(values@), strings_view(cols@)),
{
    let base = crate::db::base_column_names();
    let ghost ev = entries_view(values@);
    let mut r: Vec<(String, String)> = Vec::new();
    let mut i: usize = 0;
    while i < values.len()
        invariant
            i <= values@.len(),
            ev == entries_view(values@),
            strings_view(base@) == base_columns(),
            entries_view(r@) == custom_values_spec(ev.take(i as int), strings_view(cols@)),
        decreases values@.len() - i,
    {
        proof {
            assert(ev.take(i + 1).drop_last() =~= ev.take(i as int));
            assert(ev.take(i + 1).last() == ev[i as int]);
        }
        let ghost before = entries_view(r@);
        let k = values[i].0.as_str();
        if is_custom_exec(&base, k) && contains_str(cols, k) {
            r.push((values[i].0.clone(), values[i].1.clone()));
            assert(entries_view(r@) =~= before.push(ev[i as int]));
        } else {
            assert(entries_view(r@) =~= before + Seq::<Entry>::empty());
        }
        i += 1;
    }
    assert(ev.take(values@.len() as int) =~= ev);
    r
}

// ---------------------------------------------------------------------------
// Spreadsheet rows
// ---------------------------------------------------------------------------

/// The assignments of a spreadsheet row: for each non-blank (trimmed)
/// header, the cell under it when the row has one and it is not empty.
pub open spec fn row_assignments(headers: Seq<Seq<char>>, cells: Seq<Seq<char>>) -> Seq<Entry>
    decreases headers.len(),
{
    if headers.len() == 0 {
        Seq::empty()
    } else {
        let i = headers.len() - 1;
        let h = trim_seq(headers.last());
        row_assignments(headers.drop_last(), cells) + if h.len() > 0 && i < cells.len()
            && cells[i].len() > 0 {
            seq![(h, cells[i])]
        } else {
            Seq::<Entry>::empty()
        }
    }
}

/// The values of a spreadsheet row under the given headers.
pub fn row_values(headers: &[String], cells: &[String]) -> (r: Vec<(String, String)>)
    ensures
        entries_view(r@) == assign_all(
            Seq::empty(),
            row_assignments(strings_view(headers@), strings_view(cells@)),
        ),
{
    let ghost hv = strings_view(headers@);
    let ghost cv = strings_view(cells@);
    let mut asg: Vec<(String, String)> = Vec::new();
    let mut i: usize = 0;
    while i < headers.len()
        invariant
            i <= headers@.len(),
            hv == strings_view(headers@),
            cv == strings_view(cells@),
            entries_view(asg@) == row_assignments(hv.take(i as int), cv),
        decreases headers@.len() - i,
    {
        proof {
            assert(hv.take(i + 1).drop_last() =~= hv.take(i as int));
            assert(hv.take(i + 1).last() == hv[i as int]);
        }
        let h = trim_chars(&chars_of(headers[i].as_str()));
        let ghost before = entries_view(asg@);
        if h.len() > 0 && i < cells.len() && !cells[i].as_str().is_empty() {
            push_entry(&mut asg, string_from_chars(&h).as_str(), cells[i].clone());
        } else {
            assert(before + Seq::<Entry>::empty() =~= before);
        }
        i += 1;
    }
    assert(hv.take(headers@.len() as int) =~= hv);
    let mut v: Vec<(String, String)> = Vec::new();
    assert(entries_view(v@) =~= Seq::<Entry>::empty());
    assign_entries(&mut v, &asg);
    v
}

/// What a spreadsheet row is, before the database is asked.
#[derive(Clone, Debug, PartialEq, Eq)]
pub enum RowKind {
    /// No (non-blank) MPN: skipped.
    NoMpn,
    /// No (non-blank) category: skipped.
    NoCategory,
    /// A component to import into `category` when that table exists and
    /// has no component `mpn` yet.
    Candidate { mpn: String, category: String },
}

pub enum RowKindSpec {
    NoMpn,
    NoCategory,
    Candidate { mpn: Seq<char>, category: Seq<char> },
}

impl View for RowKind {
    type V = RowKindSpec;

    open spec fn view(&self) -> RowKindSpec {
        match self {
            RowKind::NoMpn => RowKindSpec::NoMpn,
            RowKind::NoCategory => RowKindSpec::NoCategory,
            RowKind::Candidate { mpn, category } => RowKindSpec::Candidate {
                mpn: mpn@,
                category: category@,
            },
        }
    }
}

pub open spec fn trimmed_value(es: Seq<Entry>, k: Seq<char>) -> Seq<char> {
    match lookup(es, k) {
        Some(x) => trim_seq(x),
        None => Seq::empty(),
    }
}

pub open spec fn row_kind_spec(es: Seq<Entry>) -> RowKindSpec {
    let mpn = trimmed_value(es, "MPN"@);
    let category = trimmed_value(es, "Category"@);
    if mpn.len() == 0 {
        RowKindSpec::NoMpn
    } else if category.len() == 0 {
        RowKindSpec::NoCategory
    } else {
        RowKindSpec::Candidate { mpn, category }
    }
}

fn trimmed_value_exec(values: &Vec<(String, String)>, k: &str) -> (s: String)
    ensures
        s@ == trimmed_value(entries_view(values@), k@),
{
    match lookup_value(values, k) {
        Some(x) => string_from_chars(&trim_chars(&chars_of(x.as_str()))),
        None => String::new(),
    }
}

pub fn row_kind(values: &Vec<(String, String)>) -> (r: RowKind)
    ensures
        r@ == row_kind_spec(entries_view(values@)),
{
    let mpn = trimmed_value_exec(values, "MPN");
    let category = trimmed_value_exec(values, "Category");
    if mpn.as_str().is_empty() {
        RowKind::NoMpn
    } else if category.as_str().is_empty() {
        RowKind::NoCategory
    } else {
        RowKind::Candidate { mpn, category }
    }
}

/// Sets `k` to `val` unless `k` already has a value.
pub open spec fn assign_missing(es: Seq<Entry>, k: Seq<char>, val: Seq<char>) -> Seq<Entry> {
    if lookup(es, k) is Some {
        es
    } else {
        assign(es, k, val)
    }
}

/// A row ready to insert: the trimmed MPN, then the default libraries for
/// the library columns the row leaves unset.
pub open spec fn complete_row_spec(es: Seq<Entry>, mpn: Seq<char>, d: LibraryDefaults) -> Seq<Entry> {
    let e1 = assign(es, "MPN"@, mpn);
    let sym = trim_seq(d.symbol@);
    let fp = trim_seq(d.footprint@);
    let e2 = if sym.len() > 0 {
        assign_missing(e1, "Library Ref"@, library_ref_spec(d.symbol@))
    } else {
        e1
    };
    let e3 = if sym.len() > 0 {
        assign_missing(e2, "Library Path"@, relative_library_path_spec(d.symbols_folder@, sym))
    } else {
        e2
    };
    let e4 = if fp.len() > 0 {
        assign_missing(e3, "Footprint Ref"@, library_ref_spec(d.footprint@))
    } else {
        e3
    };
    if fp.len() > 0 {
        assign_missing(e4, "Footprint Path"@, relative_library_path_spec(d.footprints_folder@, fp))
    } else {
        e4
    }
}

fn assign_missing_exec(v: &mut Vec<(String, String)>, k: &str, val: String)
    ensures
        entries_view(final(v)@) == assign_missing(entries_view(old(v)@), k@, val@),
{
    if lookup_value(v, k).is_none() {
        assign_value(v, k, val.as_str());
    }
}

pub fn complete_row(values: &mut Vec<(String, String)>, mpn: &str, d: &LibraryDefaults)
    ensures
        entries_view(final(values)@) == complete_row_spec(entries_view(old(values)@), mpn@, *d),
{
    assign_value(values, "MPN", mpn);
    let sym = string_from_chars(&trim_chars(&chars_of(d.symbol.as_str())));
    let fp = string_from_chars(&trim_chars(&chars_of(d.footprint.as_str())));
    if !sym.as_str().is_empty() {
        assign_missing_exec(values, "Library Ref", library_ref(d.symbol.as_str()));
        assign_missing_exec(
            values,
            "Library Path",
            relative_library_path(d.symbols_folder.as_str(), sym.as_str()),
        );
    }
    if !fp.as_str().is_empty() {
        assign_missing_exec(values, "Footprint Ref", library_ref(d.footprint.as_str()));
        assign_missing_exec(
            values,
            "Footprint Path",
            relative_library_path(d.footprints_folder.as_str(), fp.as_str()),
        );
    }
}


// ---------------------------------------------------------------------------
// Messages and codes
// ---------------------------------------------------------------------------

/// What `str::to_uppercase` makes of a text.
pub uninterp spec fn unicode_upper(s: Seq<char>) -> Seq<char>;

/// Calls `str::to_uppercase`; claimed only that its result depends on the
/// text alone (the Unicode case mapping is left unsaid).
#[verifier::external_body]
fn to_uppercase(s: &str) -> (r: String)
    ensures
        r@ == unicode_upper(s@),
{
    s.to_uppercase()
}

/// The LCSC part numbers of a comma-separated list: trimmed, blank ones
/// dropped, upper-cased.
pub open spec fn lcsc_codes_spec(pieces: Seq<Seq<char>>) -> Seq<Seq<char>>
    decreases pieces.len(),
{
    if pieces.len() == 0 {
        Seq::empty()
    } else {
        lcsc_codes_spec(pieces.drop_last()) + if trim_seq(pieces.last()).len() > 0 {
            seq![unicode_upper(trim_seq(pieces.last()))]
        } else {
            Seq::<Seq<char>>::empty()
        }
    }
}

pub fn parse_lcsc_codes(input: &str) -> (r: Vec<String>)
    ensures
        strings_view(r@) == lcsc_codes_spec(crate::text::split_seq(input@, ',')),
{
    let v = chars_of(input);
    let ranges = crate::text::split_ranges(&v, ',');
    let ghost pieces = crate::text::split_seq(v@, ',');
    let mut r: Vec<String> = Vec::new();
    let mut k: usize = 0;
    while k < ranges.len()
        invariant
            k <= ranges@.len() == pieces.len(),
            v@ == input@,
            pieces == crate::text::split_seq(v@, ','),
            forall|j: int|
                0 <= j < ranges@.len() ==> (#[trigger] ranges@[j]).0 <= ranges@[j].1 <= v@.len()
                    && v@.subrange(ranges@[j].0 as int, ranges@[j].1 as int) == pieces[j],
            strings_view(r@) == lcsc_codes_spec(pieces.take(k as int)),
        decreases ranges@.len() - k,
    {
        let (a, b) = ranges[k];
        proof {
            assert(pieces.take(k + 1).drop_last() =~= pieces.take(k as int));
            assert(pieces.take(k + 1).last() == pieces[k as int]);
        }
        let t = trim_chars(vstd::slice::slice_subrange(&v, a, b));
        let ghost before = strings_view(r@);
        if t.len() > 0 {
            let u = to_uppercase(string_from_chars(&t).as_str());
            let ghost uv = u@;
            r.push(u);
            assert(strings_view(r@) =~= before.push(uv));
        } else {
            assert(strings_view(r@) =~= before + Seq::<Seq<char>>::empty());
        }
        k += 1;
    }
    assert(pieces.take(ranges@.len() as int) =~= pieces);
    r
}

/// The report line of one failed LCSC part.
pub fn lcsc_failure(code: &str, error: &str) -> (r: String)
    ensures
        r@ == code@ + ": "@ + error@,
{
    let mut r = code.to_owned();
    push_str(&mut r, ": ");
    push_str(&mut r, error);
    r
}

/// The status after an LCSC import: whether every part went in, and the
/// message.
pub open spec fn lcsc_summary_spec(imported: nat, updated: nat, failed: Seq<Seq<char>>) -> (bool, Seq<char>) {
    if failed.len() == 0 {
        (true, "LCSC import complete: "@ + crate::text::dec(imported) + " added, "@ + crate::text::dec(updated) + " updated"@)
    } else {
        (
            false,
            "LCSC import: "@ + crate::text::dec(imported) + " added, "@ + crate::text::dec(updated)
                + " updated; failed: "@ + crate::text::join_with(failed, "; "@),
        )
    }
}

pub fn lcsc_summary(imported: u64, updated: u64, failed: &[String]) -> (r: (bool, String))
    ensures
        (r.0, r.1@) == lcsc_summary_spec(imported as nat, updated as nat, strings_view(failed@)),
{
    let mut m = String::new();
    if failed.len() == 0 {
        push_str(&mut m, "LCSC import complete: ");
        crate::text::push_dec(&mut m, imported);
        push_str(&mut m, " added, ");
        crate::text::push_dec(&mut m, updated);
        push_str(&mut m, " updated");
        (true, m)
    } else {
        push_str(&mut m, "LCSC import: ");
        crate::text::push_dec(&mut m, imported);
        push_str(&mut m, " added, ");
        crate::text::push_dec(&mut m, updated);
        push_str(&mut m, " updated; failed: ");
        push_str(&mut m, crate::text::join_strings(failed, "; ").as_str());
        (false, m)
    }
}

/// The status after a spreadsheet import.
pub open spec fn sheet_summary_spec(imported: nat, no_table: nat, duplicate: nat, no_id: nat) -> Seq<char> {
    "Imported: "@ + crate::text::dec(imported) + ", skipped (no matching category table): "@
        + crate::text::dec(no_table) + ", skipped (duplicate MPN): "@ + crate::text::dec(duplicate)
        + ", skipped (no MPN): "@ + crate::text::dec(no_id)
}

pub fn sheet_summary(imported: u64, no_table: u64, duplicate: u64, no_id: u64) -> (r: String)
    ensures
        r@ == sheet_summary_spec(imported as nat, no_table as nat, duplicate as nat, no_id as nat),
{
    let mut m = String::new();
    push_str(&mut m, "Imported: ");
    crate::text::push_dec(&mut m, imported);
    push_str(&mut m, ", skipped (no matching category table): ");
    crate::text::push_dec(&mut m, no_table);
    push_str(&mut m, ", skipped (duplicate MPN): ");
    crate::text::push_dec(&mut m, duplicate);
    push_str(&mut m, ", skipped (no MPN): ");
    crate::text::push_dec(&mut m, no_id);
    assert(m@ =~= sheet_summary_spec(imported as nat, no_table as nat, duplicate as nat, no_id as nat));
    m
}


// ---------------------------------------------------------------------------
// Assignment laws
// ---------------------------------------------------------------------------

pub open spec fn distinct_keys(es: Seq<Entry>) -> bool {
    forall|i: int, j: int| 0 <= i < j < es.len() ==> es[i].0 != es[j].0
}

/// The value last assigned to `k`.
pub open spec fn last_assigned(asg: Seq<Entry>, k: Seq<char>) -> Option<Seq<char>>
    decreases asg.len(),
{
    if asg.len() == 0 {
        None
    } else if asg.last().0 == k {
        Some(asg.last().1)
    } else {
        last_assigned(asg.drop_last(), k)
    }
}

proof fn lemma_assign(es: Seq<Entry>, k: Seq<char>, v: Seq<char>, k2: Seq<char>)
    requires
        distinct_keys(es),
    ensures
        distinct_keys(assign(es, k, v)),
        lookup(assign(es, k, v), k2) == if k2 == k {
            Some(v)
        } else {
            lookup(es, k2)
        },
{
    lemma_key_index(es, k);
    lemma_key_index(es, k2);
    let r = assign(es, k, v);
    lemma_key_index(r, k2);
    match key_index(es, k) {
        Some(i) => {
            assert(r == es.update(i, (k, v)));
            if k2 == k {
                lemma_key_index_at(r, k2, i);
            } else {
                match key_index(es, k2) {
                    Some(j) => {
                        assert(j != i);
                        assert forall|m: int| 0 <= m < j implies (#[trigger] r[m]).0 != k2 by {
                            if m != i {
                                assert(r[m] == es[m]);
                            }
                        }
                        lemma_key_index_at(r, k2, j);
                    },
                    None => {
                        assert forall|m: int| 0 <= m < r.len() implies (#[trigger] r[m]).0 != k2 by {
                            if m != i {
                                assert(r[m] == es[m]);
                            }
                        }
                        lemma_key_index_none(r, k2);
                    },
                }
            }
        },
        None => {
            assert(r == es.push((k, v)));
            if k2 == k {
                lemma_key_index_at(r, k2, es.len() as int);
            } else {
                match key_index(es, k2) {
                    Some(j) => {
                        lemma_key_index_at(r, k2, j);
                    },
                    None => {
                        lemma_key_index_none(r, k2);
                    },
                }
            }
        },
    }
}

/// Assigning `k` gives `k` the new value and leaves every other column's
/// value as it was.
proof fn lemma_assign_lookup(es: Seq<Entry>, k: Seq<char>, v: Seq<char>, k2: Seq<char>)
    ensures
        lookup(assign(es, k, v), k2) == if k2 == k {
            Some(v)
        } else {
            lookup(es, k2)
        },
{
    lemma_key_index(es, k);
    lemma_key_index(es, k2);
    let r = assign(es, k, v);
    lemma_key_index(r, k2);
    match key_index(es, k) {
        Some(i) => {
            if k2 == k {
                lemma_key_index_at(r, k2, i);
            } else {
                match key_index(es, k2) {
                    Some(j) => {
                        assert forall|m: int| 0 <= m < j implies (#[trigger] r[m]).0 != k2 by {
                            if m != i {
                                assert(r[m] == es[m]);
                            }
                        }
                        lemma_key_index_at(r, k2, j);
                    },
                    None => {
                        assert forall|m: int| 0 <= m < r.len() implies (#[trigger] r[m]).0 != k2 by {
                            if m != i {
                                assert(r[m] == es[m]);
                            }
                        }
                        lemma_key_index_none(r, k2);
                    },
                }
            }
        },
        None => {
            if k2 == k {
                lemma_key_index_at(r, k2, es.len() as int);
            } else {
                match key_index(es, k2) {
                    Some(j) => {
                        lemma_key_index_at(r, k2, j);
                    },
                    None => {
                        lemma_key_index_none(r, k2);
                    },
                }
            }
        },
    }
}

/// Filling a missing column never changes a column that already has a
/// value, and leaves every other column as it was.
proof fn lemma_assign_missing_lookup(es: Seq<Entry>, k: Seq<char>, v: Seq<char>, k2: Seq<char>)
    ensures
        lookup(assign_missing(es, k, v), k2) == if k2 == k && lookup(es, k) is None {
            Some(v)
        } else {
            lookup(es, k2)
        },
{
    if lookup(es, k) is None {
        lemma_assign_lookup(es, k, v, k2);
    }
}

/// Whether `k` is one of the library columns that a row may leave to the
/// defaults.
pub open spec fn is_library_column(k: Seq<char>) -> bool {
    k == "Library Ref"@ || k == "Library Path"@ || k == "Footprint Ref"@ || k == "Footprint Path"@
}

/// Completing a row sets its MPN to the one given; a column the row
/// already sets keeps its value, the MPN aside; a library column the row
/// leaves unset gets the default's value when a default symbol (for
/// `Library Ref`, `Library Path`) or footprint (for `Footprint Ref`,
/// `Footprint Path`) is configured, and stays unset otherwise; every
/// other column is left alone.
pub proof fn complete_row_keeps_row_values(es: Seq<Entry>, mpn: Seq<char>, d: LibraryDefaults, k: Seq<char>)
    ensures
        lookup(complete_row_spec(es, mpn, d), "MPN"@) == Some(mpn),
        k != "MPN"@ && lookup(es, k) is Some ==> lookup(complete_row_spec(es, mpn, d), k) == lookup(es, k),
        k != "MPN"@ && !is_library_column(k) ==> lookup(complete_row_spec(es, mpn, d), k) == lookup(es, k),
        lookup(es, "Library Ref"@) is None && trim_seq(d.symbol@).len() > 0 ==> lookup(
            complete_row_spec(es, mpn, d),
            "Library Ref"@,
        ) == Some(library_ref_spec(d.symbol@)),
        lookup(es, "Library Path"@) is None && trim_seq(d.symbol@).len() > 0 ==> lookup(
            complete_row_spec(es, mpn, d),
            "Library Path"@,
        ) == Some(relative_library_path_spec(d.symbols_folder@, trim_seq(d.symbol@))),
        lookup(es, "Footprint Ref"@) is None && trim_seq(d.footprint@).len() > 0 ==> lookup(
            complete_row_spec(es, mpn, d),
            "Footprint Ref"@,
        ) == Some(library_ref_spec(d.footprint@)),
        lookup(es, "Footprint Path"@) is None && trim_seq(d.footprint@).len() > 0 ==> lookup(
            complete_row_spec(es, mpn, d),
            "Footprint Path"@,
        ) == Some(relative_library_path_spec(d.footprints_folder@, trim_seq(d.footprint@))),
        lookup(es, "Library Ref"@) is None && trim_seq(d.symbol@).len() == 0 ==> lookup(
            complete_row_spec(es, mpn, d),
            "Library Ref"@,
        ) is None,
        lookup(es, "Footprint Ref"@) is None && trim_seq(d.footprint@).len() == 0 ==> lookup(
            complete_row_spec(es, mpn, d),
            "Footprint Ref"@,
        ) is None,
{
    reveal_strlit("MPN");
    reveal_strlit("Library Ref");
    reveal_strlit("Library Path");
    reveal_strlit("Footprint Ref");
    reveal_strlit("Footprint Path");
    let sym = trim_seq(d.symbol@);
    let fp = trim_seq(d.footprint@);
    let e1 = assign(es, "MPN"@, mpn);
    let e2 = if sym.len() > 0 {
        assign_missing(e1, "Library Ref"@, library_ref_spec(d.symbol@))
    } else {
        e1
    };
    let e3 = if sym.len() > 0 {
        assign_missing(e2, "Library Path"@, relative_library_path_spec(d.symbols_folder@, sym))
    } else {
        e2
    };
    let e4 = if fp.len() > 0 {
        assign_missing(e3, "Footprint Ref"@, library_ref_spec(d.footprint@))
    } else {
        e3
    };
    let keys = seq!["MPN"@, "Library Ref"@, "Library Path"@, "Footprint Ref"@, "Footprint Path"@, k];
    assert forall|m: int| 0 <= m < keys.len() implies {
        let q = #[trigger] keys[m];
        &&& lookup(e1, q) == if q == "MPN"@ { Some(mpn) } else { lookup(es, q) }
        &&& lookup(e2, q) == if sym.len() > 0 && q == "Library Ref"@ && lookup(e1, q) is None {
            Some(library_ref_spec(d.symbol@))
        } else {
            lookup(e1, q)
        }
        &&& lookup(e3, q) == if sym.len() > 0 && q == "Library Path"@ && lookup(e2, q) is None {
            Some(relative_library_path_spec(d.symbols_folder@, sym))
        } else {
            lookup(e2, q)
        }
        &&& lookup(e4, q) == if fp.len() > 0 && q == "Footprint Ref"@ && lookup(e3, q) is None {
            Some(library_ref_spec(d.footprint@))
        } else {
            lookup(e3, q)
        }
        &&& lookup(complete_row_spec(es, mpn, d), q) == if fp.len() > 0 && q == "Footprint Path"@
            && lookup(e4, q) is None {
            Some(relative_library_path_spec(d.footprints_folder@, fp))
        } else {
            lookup(e4, q)
        }
    } by {
        let q = keys[m];
        lemma_assign_lookup(es, "MPN"@, mpn, q);
        lemma_assign_missing_lookup(e1, "Library Ref"@, library_ref_spec(d.symbol@), q);
        lemma_assign_missing_lookup(e2, "Library Path"@, relative_library_path_spec(d.symbols_folder@, sym), q);
        lemma_assign_missing_lookup(e3, "Footprint Ref"@, library_ref_spec(d.footprint@), q);
        lemma_assign_missing_lookup(e4, "Footprint Path"@, relative_library_path_spec(d.footprints_folder@, fp), q);
    }
    assert(keys[0] == "MPN"@);
    assert(keys[1] == "Library Ref"@);
    assert(keys[2] == "Library Path"@);
    assert(keys[3] == "Footprint Ref"@);
    assert(keys[4] == "Footprint Path"@);
    assert(keys[5] == k);
    assert("MPN"@ != "Library Ref"@ && "MPN"@ != "Library Path"@ && "MPN"@ != "Footprint Ref"@
        && "MPN"@ != "Footprint Path"@) by {
        assert("MPN"@.len() != "Library Ref"@.len());
        assert("MPN"@.len() != "Library Path"@.len());
        assert("MPN"@.len() != "Footprint Ref"@.len());
        assert("MPN"@.len() != "Footprint Path"@.len());
    }
    assert("Library Ref"@ != "Library Path"@ && "Library Ref"@ != "Footprint Ref"@ && "Library Ref"@
        != "Footprint Path"@ && "Library Path"@ != "Footprint Ref"@ && "Library Path"@
        != "Footprint Path"@ && "Footprint Ref"@ != "Footprint Path"@) by {
        assert("Library Ref"@.len() != "Library Path"@.len());
        assert("Library Ref"@[0] != "Footprint Ref"@[0]);
        assert("Library Ref"@[0] != "Footprint Path"@[0]);
        assert("Library Path"@[0] != "Footprint Ref"@[0]);
        assert("Library Path"@[0] != "Footprint Path"@[0]);
        assert("Footprint Ref"@.len() != "Footprint Path"@.len());
    }
}

/// After a series of assignments, each column appears once and holds the
/// value last assigned to it, as in a map that each assignment overwrites.
pub proof fn assigned_values_are_the_last(asg: Seq<Entry>, k: Seq<char>)
    ensures
        distinct_keys(assign_all(Seq::empty(), asg)),
        lookup(assign_all(Seq::empty(), asg), k) == last_assigned(asg, k),
    decreases asg.len(),
{
    if asg.len() == 0 {
        lemma_key_index_none(Seq::<Entry>::empty(), k);
    } else {
        assigned_values_are_the_last(asg.drop_last(), k);
        let prev = assign_all(Seq::<Entry>::empty(), asg.drop_last());
        lemma_assign(prev, asg.last().0, asg.last().1, k);
    }
}

/// The last assignment to `k` in `a + b` is the last one in `b`, else the
/// last one in `a`.
proof fn lemma_last_assigned_append(a: Seq<Entry>, b: Seq<Entry>, k: Seq<char>)
    ensures
        last_assigned(a + b, k) == match last_assigned(b, k) {
            Some(v) => Some(v),
            None => last_assigned(a, k),
        },
    decreases b.len(),
{
    if b.len() == 0 {
        assert(a + b =~= a);
    } else {
        lemma_last_assigned_append(a, b.drop_last(), k);
        assert((a + b).drop_last() =~= a + b.drop_last());
        assert((a + b).last() == b.last());
    }
}

/// A list that never assigns `k` leaves it unassigned.
proof fn lemma_last_assigned_absent(asg: Seq<Entry>, k: Seq<char>)
    requires
        forall|j: int| 0 <= j < asg.len() ==> (#[trigger] asg[j]).0 != k,
    ensures
        last_assigned(asg, k) is None,
    decreases asg.len(),
{
    if asg.len() > 0 {
        assert forall|j: int| 0 <= j < asg.drop_last().len() implies (#[trigger] asg.drop_last()[j]).0 != k by {
            assert(asg.drop_last()[j] == asg[j]);
        }
        lemma_last_assigned_absent(asg.drop_last(), k);
        assert(asg[asg.len() - 1].0 != k);
    }
}

/// Whether none of a product's parameters is named `k`.
pub open spec fn params_avoid(p: LcscProduct, k: Seq<char>) -> bool {
    match p.params {
        Some(ps) => forall|j: int| 0 <= j < param_entries(ps@).len() ==> (#[trigger] param_entries(ps@)[j]).0 != k,
        None => true,
    }
}

/// What an LCSC import stores under the standard columns: `0` under
/// `Verified`; under `MPN` the product model, or the LCSC code when it has
/// none; its brand under `Manufacturer`, its product name under
/// `Description`, and a `Datasheet` link to its PDF; unless one of the
/// product's own parameters, applied last, has that column's name.
pub proof fn lcsc_import_stores(code: Seq<char>, p: LcscProduct, d: LibraryDefaults, k: Seq<char>)
    requires
        params_avoid(p, k),
    ensures
        k == "Verified"@ ==> lookup(assign_all(Seq::empty(), lcsc_assignments(code, p, d)), k) == Some("0"@),
        k == "MPN"@ ==> lookup(assign_all(Seq::empty(), lcsc_assignments(code, p, d)), k) == Some(
            if text_or_empty(p.product_model@).len() == 0 {
                code
            } else {
                text_or_empty(p.product_model@)
            },
        ),
        k == "Manufacturer"@ ==> lookup(assign_all(Seq::empty(), lcsc_assignments(code, p, d)), k) == Some(
            text_or_empty(p.brand_name_en@),
        ),
        k == "Description"@ ==> lookup(assign_all(Seq::empty(), lcsc_assignments(code, p, d)), k) == Some(
            text_or_empty(p.product_name_en@),
        ),
        k == "ComponentLink1Description"@ ==> lookup(assign_all(Seq::empty(), lcsc_assignments(code, p, d)), k)
            == Some("Datasheet"@),
        k == "ComponentLink1URL"@ ==> lookup(assign_all(Seq::empty(), lcsc_assignments(code, p, d)), k) == Some(
            text_or_empty(p.pdf_url@),
        ),
{
    reveal_strlit("Verified");
    reveal_strlit("MPN");
    reveal_strlit("Manufacturer");
    reveal_strlit("Description");
    reveal_strlit("ComponentLink1Description");
    reveal_strlit("ComponentLink1URL");
    reveal_strlit("Package");
    reveal_strlit("Library Ref");
    reveal_strlit("Library Path");
    reveal_strlit("Footprint Ref");
    reveal_strlit("Footprint Path");
    let asg = lcsc_assignments(code, p, d);
    assigned_values_are_the_last(asg, k);
    let package = text_or_empty(p.encap_standard@);
    let head = seq![
        ("Verified"@, "0"@),
        ("MPN"@, lcsc_mpn_spec(code, p)),
        ("Manufacturer"@, text_or_empty(p.brand_name_en@)),
        ("Description"@, text_or_empty(p.product_name_en@)),
        ("ComponentLink1Description"@, "Datasheet"@),
        ("ComponentLink1URL"@, text_or_empty(p.pdf_url@)),
    ];
    let pkg = if package.len() > 0 {
        seq![("Package"@, package)]
    } else {
        Seq::<Entry>::empty()
    };
    let defs = default_library_entries(d);
    let params = match p.params {
        Some(ps) => param_entries(ps@),
        None => Seq::<Entry>::empty(),
    };
    assert(asg == head + pkg + defs + params);
    let standard = k == "Verified"@ || k == "MPN"@ || k == "Manufacturer"@ || k == "Description"@ || k
        == "ComponentLink1Description"@ || k == "ComponentLink1URL"@;
    if standard {
        lemma_last_assigned_append(head + pkg + defs, params, k);
        lemma_last_assigned_append(head + pkg, defs, k);
        lemma_last_assigned_append(head, pkg, k);
        lemma_last_assigned_absent(params, k);
        assert forall|j: int| 0 <= j < defs.len() implies (#[trigger] defs[j]).0 != k by {
            assert(defs[j].0 == "Library Ref"@ || defs[j].0 == "Library Path"@ || defs[j].0 == "Footprint Ref"@
                || defs[j].0 == "Footprint Path"@);
            assert(k.len() != 11 || k[0] != 'L');
            assert(k.len() != 12 || k[0] != 'L');
            assert(k.len() != 13 || k[0] != 'F');
            assert(k.len() != 14 || k[0] != 'F');
        }
        lemma_last_assigned_absent(defs, k);
        assert forall|j: int| 0 <= j < pkg.len() implies (#[trigger] pkg[j]).0 != k by {
            assert(pkg[j].0 == "Package"@);
            assert(k.len() != 7 || k[0] != 'P');
        }
        lemma_last_assigned_absent(pkg, k);
        // the six head columns are told apart by their lengths and first letters
        assert(head[5].0.len() == 17);
        assert(head[4].0.len() == 25);
        assert(head[3].0.len() == 11);
        assert(head[2].0.len() == 12);
        assert(head[1].0.len() == 3);
        assert(head[0].0.len() == 8);
        reveal_with_fuel(last_assigned, 7);
        assert(head.drop_last() =~= seq![head[0], head[1], head[2], head[3], head[4]]);
        assert(head.drop_last().drop_last() =~= seq![head[0], head[1], head[2], head[3]]);
        assert(head.drop_last().drop_last().drop_last() =~= seq![head[0], head[1], head[2]]);
        assert(head.drop_last().drop_last().drop_last().drop_last() =~= seq![head[0], head[1]]);
        assert(head.drop_last().drop_last().drop_last().drop_last().drop_last() =~= seq![head[0]]);
    }
}

} // verus!
