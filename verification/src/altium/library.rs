//! Libraries as files: `.SchLib` and `.PcbLib` files are OLE compound
//! files (read with the `cfb` crate) holding one storage per symbol or
//! footprint. This module finds those storages, parses them, and picks the
//! symbol or footprint a preview shows.

use std::io::Read;
use vstd::prelude::*;
use crate::altium::pcblib::{
    courtyard_layers_spec, footprint_spec, parse_courtyard_layers, parse_footprint,
    prims_view, wide_strings_spec, Footprint, PcbLib, PrimSpec,
};
use crate::altium::sch::{
    font_sizes_spec, font_sizes_view, parse_font_sizes, parse_symbol, symbol_spec, SchLib, Symbol, SymbolSpec,
};
use crate::text::{
    chars_eq_ignore_ascii_case, chars_of, eq_ignore_ascii_case, push_str, str_eq, strings_view,
};

verus! {

broadcast use vstd::string::group_string_axioms;

// ---------------------------------------------------------------------------
// Compound files
// ---------------------------------------------------------------------------

/// An entry of a compound file: its path components (as `Path::iter`
/// gives them, the root included), name and kind.
#[derive(Clone, Debug)]
pub struct OleEntry {
    pub path: Vec<String>,
    pub name: String,
    pub is_stream: bool,
    pub is_storage: bool,
}

pub struct OleEntrySpec {
    pub path: Seq<Seq<char>>,
    pub name: Seq<char>,
    pub is_stream: bool,
    pub is_storage: bool,
}

impl View for OleEntry {
    type V = OleEntrySpec;

    open spec fn view(&self) -> OleEntrySpec {
        OleEntrySpec {
            path: strings_view(self.path@),
            name: self.name@,
            is_stream: self.is_stream,
            is_storage: self.is_storage,
        }
    }
}

pub open spec fn entries_view(v: Seq<OleEntry>) -> Seq<OleEntrySpec> {
    v.map_values(|e: OleEntry| e@)
}

/// The entries `cfb::CompoundFile::walk` lists for a compound file held in
/// memory, or the text of the error `cfb::CompoundFile::open` reports.
pub uninterp spec fn ole_listing(data: Seq<u8>) -> Result<Seq<OleEntrySpec>, Seq<char>>;

/// The bytes of the stream at `path` of a compound file held in memory,
/// when it opens and has such a stream.
pub uninterp spec fn ole_stream(data: Seq<u8>, path: Seq<Seq<char>>) -> Option<Seq<u8>>;

/// Opens the compound file in `data` with `cfb::CompoundFile::open` and
/// lists its entries with `walk`, each entry converted to plain values
/// (path components through `to_string_lossy`); on failure, the error's
/// text. Claimed: the outcome depends on the bytes alone.
#[verifier::external_body]
fn read_ole_listing(data: &[u8]) -> (r: Result<Vec<OleEntry>, String>)
    ensures
        match r {
            Ok(v) => ole_listing(data@) == Ok::<Seq<OleEntrySpec>, Seq<char>>(entries_view(v@)),
            Err(m) => ole_listing(data@) == Err::<Seq<OleEntrySpec>, Seq<char>>(m@),
        },
{
    match cfb::CompoundFile::open(std::io::Cursor::new(data)) {
        Ok(comp) => Ok(
            comp.walk().map(|e| OleEntry {
                path: e.path().iter().map(|c| c.to_string_lossy().into_owned()).collect(),
                name: e.name().to_owned(),
                is_stream: e.is_stream(),
                is_storage: e.is_storage(),
            }).collect(),
        ),
        Err(e) => Err(e.to_string()),
    }
}

/// Opens the compound file in `data` with `cfb::CompoundFile::open`, opens
/// the stream at `path` with `open_stream` and reads it to its end.
/// Claimed: the outcome depends on the bytes and the path alone.
#[verifier::external_body]
fn read_ole_stream(data: &[u8], path: &[String]) -> (r: Option<Vec<u8>>)
    ensures
        match r {
            Some(b) => ole_stream(data@, strings_view(path@)) == Some(b@),
            None => ole_stream(data@, strings_view(path@)) is None,
        },
{
    let mut comp = cfb::CompoundFile::open(std::io::Cursor::new(data)).ok()?;
    let mut stream = comp.open_stream(path.iter().collect::<std::path::PathBuf>()).ok()?;
    let mut buf = Vec::new();
    stream.read_to_end(&mut buf).ok()?;
    Some(buf)
}

fn path2(a: &str, b: &str) -> (r: Vec<String>)
    ensures
        strings_view(r@) == seq![a@, b@],
{
    let mut r: Vec<String> = Vec::new();
    r.push(a.to_owned());
    r.push(b.to_owned());
    assert(strings_view(r@) =~= seq![a@, b@]);
    r
}

fn path1(a: &str) -> (r: Vec<String>)
    ensures
        strings_view(r@) == seq![a@],
{
    let mut r: Vec<String> = Vec::new();
    r.push(a.to_owned());
    assert(strings_view(r@) =~= seq![a@]);
    r
}

/// Path components without the root (`/` or `\`).
pub open spec fn named_components(p: Seq<Seq<char>>) -> Seq<Seq<char>>
    decreases p.len(),
{
    if p.len() == 0 {
        Seq::empty()
    } else {
        named_components(p.drop_last()) + if p.last() == "/"@ || p.last() == "\\"@ {
            Seq::<Seq<char>>::empty()
        } else {
            seq![p.last()]
        }
    }
}

fn named_components_exec(p: &Vec<String>) -> (r: Vec<String>)
    ensures
        strings_view(r@) == named_components(strings_view(p@)),
{
    let ghost pv = strings_view(p@);
    let mut r: Vec<String> = Vec::new();
    let mut i: usize = 0;
    while i < p.len()
        invariant
            i <= p@.len(),
            pv == strings_view(p@),
            strings_view(r@) == named_components(pv.take(i as int)),
        decreases p@.len() - i,
    {
        proof {
            assert(pv.take(i + 1).drop_last() =~= pv.take(i as int));
            assert(pv.take(i + 1).last() == pv[i as int]);
        }
        let ghost before = strings_view(r@);
        if !(str_eq(p[i].as_str(), "/") || str_eq(p[i].as_str(), "\\")) {
            r.push(p[i].clone());
            assert(strings_view(r@) =~= before.push(pv[i as int]));
        } else {
            assert(strings_view(r@) =~= before + Seq::<Seq<char>>::empty());
        }
        i += 1;
    }
    assert(pv.take(p@.len() as int) =~= pv);
    r
}

// ---------------------------------------------------------------------------
// Ordering names
// ---------------------------------------------------------------------------

/// What `str::to_lowercase` makes of a text.
pub uninterp spec fn unicode_lower(s: Seq<char>) -> Seq<char>;

/// Calls `str::to_lowercase`; claimed only that its result depends on the
/// text alone (the Unicode case mapping is left unsaid).
#[verifier::external_body]
fn to_lowercase(s: &str) -> (r: String)
    ensures
        r@ == unicode_lower(s@),
{
    s.to_lowercase()
}

/// `String`'s order: lexicographic by character, a proper prefix first.
pub open spec fn text_lt(a: Seq<char>, b: Seq<char>) -> bool
    decreases a.len(),
{
    if a.len() == 0 {
        b.len() > 0
    } else if b.len() == 0 {
        false
    } else if a[0] != b[0] {
        a[0] < b[0]
    } else {
        text_lt(a.drop_first(), b.drop_first())
    }
}

fn text_lt_exec(a: &[char], b: &[char]) -> (r: bool)
    ensures
        r == text_lt(a@, b@),
{
    let mut i: usize = 0;
    assert(a@.skip(0) =~= a@);
    assert(b@.skip(0) =~= b@);
    while i < a.len() && i < b.len() && a[i] == b[i]
        invariant
            i <= a@.len(),
            i <= b@.len(),
            text_lt(a@, b@) == text_lt(a@.skip(i as int), b@.skip(i as int)),
        decreases a@.len() - i,
    {
        assert(a@.skip(i as int).drop_first() =~= a@.skip(i + 1));
        assert(b@.skip(i as int).drop_first() =~= b@.skip(i + 1));
        i += 1;
    }
    if i == a.len() {
        i < b.len()
    } else if i == b.len() {
        false
    } else {
        a[i] < b[i]
    }
}

pub type Keyed = (Seq<char>, Seq<char>);

/// Inserts `x` after the entries whose key is not greater than its own.
pub open spec fn insert_by_key(s: Seq<Keyed>, x: Keyed) -> Seq<Keyed>
    decreases s.len(),
{
    if s.len() == 0 {
        seq![x]
    } else if text_lt(x.0, s[0].0) {
        seq![x] + s
    } else {
        seq![s[0]] + insert_by_key(s.drop_first(), x)
    }
}

/// Stable sort by key (`slice::sort_by_key`).
pub open spec fn sort_by_key(s: Seq<Keyed>) -> Seq<Keyed>
    decreases s.len(),
{
    if s.len() == 0 {
        Seq::empty()
    } else {
        insert_by_key(sort_by_key(s.drop_last()), s.last())
    }
}

pub open spec fn keyed_view(v: Seq<(String, String)>) -> Seq<Keyed> {
    v.map_values(|e: (String, String)| (e.0@, e.1@))
}

/// Position where `insert_by_key` puts `x`.
proof fn lemma_insert_at(s: Seq<Keyed>, x: Keyed, p: int)
    requires
        0 <= p <= s.len(),
        forall|j: int| 0 <= j < p ==> !text_lt(x.0, (#[trigger] s[j]).0),
        p < s.len() ==> text_lt(x.0, s[p].0),
    ensures
        insert_by_key(s, x) == s.take(p) + seq![x] + s.skip(p),
    decreases s.len(),
{
    if s.len() == 0 {
        assert(s.take(p) + seq![x] + s.skip(p) =~= seq![x]);
    } else if p == 0 {
        assert(s.take(0) + seq![x] + s.skip(0) =~= seq![x] + s);
    } else {
        let t = s.drop_first();
        assert forall|j: int| 0 <= j < p - 1 implies !text_lt(x.0, (#[trigger] t[j]).0) by {
            assert(t[j] == s[j + 1]);
        }
        lemma_insert_at(t, x, p - 1);
        assert(s.take(p) + seq![x] + s.skip(p) =~= seq![s[0]] + (t.take(p - 1) + seq![x] + t.skip(
            p - 1,
        )));
    }
}

fn insert_keyed(v: &mut Vec<(String, String)>, x: (String, String))
    ensures
        keyed_view(final(v)@) == insert_by_key(keyed_view(old(v)@), (x.0@, x.1@)),
{
    let ghost kv = keyed_view(v@);
    let ghost xv = (x.0@, x.1@);
    let xk = chars_of(x.0.as_str());
    let mut p: usize = 0;
    while p < v.len() && !text_lt_exec(&xk, &chars_of(v[p].0.as_str()))
        invariant
            p <= v@.len(),
            kv == keyed_view(v@),
            xk@ == xv.0,
            forall|j: int| 0 <= j < p ==> !text_lt(xv.0, (#[trigger] kv[j]).0),
        decreases v@.len() - p,
    {
        p += 1;
    }
    proof {
        lemma_insert_at(kv, xv, p as int);
    }
    v.insert(p, x);
    assert(keyed_view(v@) =~= kv.take(p as int) + seq![xv] + kv.skip(p as int));
}

/// Sorts (key, name) pairs stably by key.
pub fn sort_keyed(v: Vec<(String, String)>) -> (r: Vec<(String, String)>)
    ensures
        keyed_view(r@) == sort_by_key(keyed_view(v@)),
{
    let ghost kv = keyed_view(v@);
    let mut r: Vec<(String, String)> = Vec::new();
    let mut i: usize = 0;
    while i < v.len()
        invariant
            i <= v@.len(),
            kv == keyed_view(v@),
            keyed_view(r@) == sort_by_key(kv.take(i as int)),
        decreases v@.len() - i,
    {
        proof {
            assert(kv.take(i + 1).drop_last() =~= kv.take(i as int));
            assert(kv.take(i + 1).last() == kv[i as int]);
        }
        insert_keyed(&mut r, (v[i].0.clone(), v[i].1.clone()));
        i += 1;
    }
    assert(kv.take(v@.len() as int) =~= kv);
    r
}

// ---------------------------------------------------------------------------
// Sorting law
// ---------------------------------------------------------------------------

/// Whether keyed entries are in key order.
pub open spec fn keys_sorted(s: Seq<Keyed>) -> bool {
    forall|i: int, j: int| 0 <= i < j < s.len() ==> !text_lt(#[trigger] s[j].0, #[trigger] s[i].0)
}

proof fn lemma_text_lt_irreflexive(a: Seq<char>)
    ensures
        !text_lt(a, a),
    decreases a.len(),
{
    if a.len() > 0 {
        lemma_text_lt_irreflexive(a.drop_first());
    }
}

proof fn lemma_text_lt_transitive(a: Seq<char>, b: Seq<char>, c: Seq<char>)
    requires
        text_lt(a, b),
        text_lt(b, c),
    ensures
        text_lt(a, c),
    decreases a.len(),
{
    if a.len() > 0 && b.len() > 0 && c.len() > 0 && a[0] == b[0] && b[0] == c[0] {
        lemma_text_lt_transitive(a.drop_first(), b.drop_first(), c.drop_first());
    }
}

/// Where `x` goes among sorted entries: after those whose key is not
/// greater than its own.
proof fn lemma_insert_place(s: Seq<Keyed>, x: Keyed) -> (p: int)
    ensures
        0 <= p <= s.len(),
        forall|j: int| 0 <= j < p ==> !text_lt(x.0, (#[trigger] s[j]).0),
        p < s.len() ==> text_lt(x.0, s[p].0),
        insert_by_key(s, x) == s.insert(p, x),
{
    let f = |e: Keyed| text_lt(x.0, e.0);
    crate::text::lemma_find_first(s, f);
    let p = match crate::text::find_first(s, f) {
        Some(i) => i,
        None => s.len() as int,
    };
    assert forall|j: int| 0 <= j < p implies !text_lt(x.0, (#[trigger] s[j]).0) by {
        assert(!f(s[j]));
    }
    if p < s.len() {
        assert(f(s[p]));
    }
    lemma_insert_at(s, x, p);
    assert(s.take(p) + seq![x] + s.skip(p) =~= s.insert(p, x));
    p
}

proof fn lemma_insert_sorted(s: Seq<Keyed>, x: Keyed)
    requires
        keys_sorted(s),
    ensures
        keys_sorted(insert_by_key(s, x)),
        insert_by_key(s, x).to_multiset() == s.to_multiset().insert(x),
{
    broadcast use vstd::seq_lib::group_to_multiset_ensures;

    let p = lemma_insert_place(s, x);
    let r = s.insert(p, x);
    assert forall|i: int, j: int| 0 <= i < j < r.len() implies !text_lt(
        #[trigger] r[j].0,
        #[trigger] r[i].0,
    ) by {
        if i < p && j < p {
            assert(r[i] == s[i] && r[j] == s[j]);
        } else if i < p && j == p {
            assert(r[i] == s[i] && r[j] == x);
        } else if i < p {
            assert(r[i] == s[i] && r[j] == s[j - 1]);
        } else if i == p {
            assert(r[i] == x && r[j] == s[j - 1]);
            if text_lt(s[j - 1].0, x.0) {
                lemma_text_lt_transitive(s[j - 1].0, x.0, s[p].0);
                if j - 1 == p {
                    lemma_text_lt_irreflexive(s[p].0);
                }
            }
        } else {
            assert(r[i] == s[i - 1] && r[j] == s[j - 1]);
        }
    }
}

/// Sorting by key puts the entries in key order and keeps every entry, as
/// often as it occurs.
pub proof fn sort_by_key_sorts(s: Seq<Keyed>)
    ensures
        keys_sorted(sort_by_key(s)),
        sort_by_key(s).to_multiset() == s.to_multiset(),
    decreases s.len(),
{
    broadcast use vstd::seq_lib::group_to_multiset_ensures;

    if s.len() == 0 {
        assert(sort_by_key(s) =~= s);
    } else {
        sort_by_key_sorts(s.drop_last());
        lemma_insert_sorted(sort_by_key(s.drop_last()), s.last());
        assert(s.drop_last().push(s.last()) =~= s);
    }
}

/// Each name keyed by its lowercase form.
pub open spec fn with_lower_keys(ns: Seq<Seq<char>>) -> Seq<Keyed>
    decreases ns.len(),
{
    if ns.len() == 0 {
        Seq::empty()
    } else {
        with_lower_keys(ns.drop_last()).push((unicode_lower(ns.last()), ns.last()))
    }
}

/// The names of keyed entries.
pub open spec fn names_of(ks: Seq<Keyed>) -> Seq<Seq<char>>
    decreases ks.len(),
{
    if ks.len() == 0 {
        Seq::empty()
    } else {
        names_of(ks.drop_last()).push(ks.last().1)
    }
}

/// Names ordered by their lowercase form, stably.
pub open spec fn sort_names_spec(names: Seq<Seq<char>>) -> Seq<Seq<char>> {
    names_of(sort_by_key(with_lower_keys(names)))
}

pub fn sort_names(names: &Vec<String>) -> (r: Vec<String>)
    ensures
        strings_view(r@) == sort_names_spec(strings_view(names@)),
{
    let ghost nv = strings_view(names@);
    let mut keyed: Vec<(String, String)> = Vec::new();
    let mut i: usize = 0;
    while i < names.len()
        invariant
            i <= names@.len(),
            nv == strings_view(names@),
            keyed_view(keyed@) == with_lower_keys(nv.take(i as int)),
        decreases names@.len() - i,
    {
        proof {
            assert(nv.take(i + 1).drop_last() =~= nv.take(i as int));
            assert(nv.take(i + 1).last() == nv[i as int]);
        }
        let k = to_lowercase(names[i].as_str());
        let ghost before = keyed_view(keyed@);
        let ghost kv = (k@, names@[i as int]@);
        keyed.push((k, names[i].clone()));
        assert(keyed_view(keyed@) =~= before.push(kv));
        i += 1;
    }
    assert(nv.take(names@.len() as int) =~= nv);
    let sorted = sort_keyed(keyed);
    let ghost sv = keyed_view(sorted@);
    let mut r: Vec<String> = Vec::new();
    let mut j: usize = 0;
    while j < sorted.len()
        invariant
            j <= sorted@.len(),
            sv == keyed_view(sorted@),
            strings_view(r@) == names_of(sv.take(j as int)),
        decreases sorted@.len() - j,
    {
        proof {
            assert(sv.take(j + 1).drop_last() =~= sv.take(j as int));
            assert(sv.take(j + 1).last() == sv[j as int]);
        }
        let ghost before = strings_view(r@);
        r.push(sorted[j].1.clone());
        assert(strings_view(r@) =~= before.push(sv[j as int].1));
        j += 1;
    }
    assert(sv.take(sorted@.len() as int) =~= sv);
    r
}


// ---------------------------------------------------------------------------
// PCB libraries
// ---------------------------------------------------------------------------

pub struct FootprintSpec {
    pub name: Seq<char>,
    pub prims: Seq<PrimSpec>,
}

impl View for Footprint {
    type V = FootprintSpec;

    open spec fn view(&self) -> FootprintSpec {
        FootprintSpec { name: self.name@, prims: prims_view(self.prims@) }
    }
}

/// The footprint a `<Name>/Data` stream entry stands for (storages
/// `Library` and `FileVersionInfo` hold no footprint).
pub open spec fn footprint_storage(e: OleEntrySpec) -> Option<Seq<char>> {
    let c = named_components(e.path);
    if e.is_stream && eq_ignore_ascii_case(e.name, "Data"@) && c.len() == 2 && c[0] != "Library"@
        && c[0] != "FileVersionInfo"@ {
        Some(c[0])
    } else {
        None
    }
}

pub open spec fn footprint_storages(es: Seq<OleEntrySpec>) -> Seq<Seq<char>>
    decreases es.len(),
{
    if es.len() == 0 {
        Seq::empty()
    } else {
        footprint_storages(es.drop_last()) + match footprint_storage(es.last()) {
            Some(n) => seq![n],
            None => Seq::<Seq<char>>::empty(),
        }
    }
}

/// The footprint stored under `n`, when its `Data` stream reads and parses
/// (with its `WideStrings` stream when there is one).
pub open spec fn footprint_of(data: Seq<u8>, n: Seq<char>) -> Option<FootprintSpec> {
    match ole_stream(data, seq![n, "Data"@]) {
        None => None,
        Some(d) => {
            let w = match ole_stream(data, seq![n, "WideStrings"@]) {
                Some(b) => wide_strings_spec(b),
                None => Seq::empty(),
            };
            match footprint_spec(d, w) {
                Some(ps) => Some(FootprintSpec { name: n, prims: ps }),
                None => None,
            }
        },
    }
}

pub open spec fn footprints_of(data: Seq<u8>, names: Seq<Seq<char>>) -> Seq<FootprintSpec>
    decreases names.len(),
{
    if names.len() == 0 {
        Seq::empty()
    } else {
        footprints_of(data, names.drop_last()) + match footprint_of(data, names.last()) {
            Some(f) => seq![f],
            None => Seq::<FootprintSpec>::empty(),
        }
    }
}

/// A `.PcbLib` file's footprints (by name, ignoring case) and its courtyard
/// layers (from `Library/Data`), or the error of a file that does not open.
pub open spec fn pcb_library_spec(data: Seq<u8>) -> Result<(Seq<FootprintSpec>, Seq<u8>), Seq<char>> {
    match ole_listing(data) {
        Err(e) => Err("OLE: "@ + e),
        Ok(es) => Ok(
            (
                footprints_of(data, sort_names_spec(footprint_storages(es))),
                match ole_stream(data, seq!["Library"@, "Data"@]) {
                    Some(d) => courtyard_layers_spec(d),
                    None => Seq::empty(),
                },
            ),
        ),
    }
}

/// The footprints a compound file's entries hold, in listing order.
pub fn footprint_storage_names(es: &Vec<OleEntry>) -> (r: Vec<String>)
    ensures
        strings_view(r@) == footprint_storages(entries_view(es@)),
{
    let ghost ev = entries_view(es@);
    let data_name = chars_of("Data");
    let mut r: Vec<String> = Vec::new();
    let mut i: usize = 0;
    while i < es.len()
        invariant
            i <= es@.len(),
            ev == entries_view(es@),
            data_name@ == "Data"@,
            strings_view(r@) == footprint_storages(ev.take(i as int)),
        decreases es@.len() - i,
    {
        proof {
            assert(ev.take(i + 1).drop_last() =~= ev.take(i as int));
            assert(ev.take(i + 1).last() == ev[i as int]);
        }
        let e = &es[i];
        let c = named_components_exec(&e.path);
        let ghost before = strings_view(r@);
        if e.is_stream && chars_eq_ignore_ascii_case(&chars_of(e.name.as_str()), &data_name)
            && c.len() == 2 && !str_eq(c[0].as_str(), "Library") && !str_eq(
            c[0].as_str(),
            "FileVersionInfo",
        ) {
            r.push(c[0].clone());
            assert(strings_view(r@) =~= before.push(strings_view(c@)[0]));
        } else {
            assert(strings_view(r@) =~= before + Seq::<Seq<char>>::empty());
        }
        i += 1;
    }
    assert(ev.take(es@.len() as int) =~= ev);
    r
}

fn footprint_of_exec(data: &[u8], n: &String) -> (r: Option<Footprint>)
    ensures
        match r {
            Some(f) => footprint_of(data@, n@) == Some(f@),
            None => footprint_of(data@, n@) is None,
        },
{
    let stream = read_ole_stream(data, &path2(n.as_str(), "Data"))?;
    let wide = read_ole_stream(data, &path2(n.as_str(), "WideStrings"));
    let w = match &wide {
        Some(b) => Some(b.as_slice()),
        None => None,
    };
    parse_footprint(n.as_str(), &stream, w)
}

/// Reads a `.PcbLib` file held in memory.
pub fn read_pcb_library(data: &[u8]) -> (r: Result<PcbLib, String>)
    ensures
        match r {
            Ok(lib) => pcb_library_spec(data@) == Ok::<(Seq<FootprintSpec>, Seq<u8>), Seq<char>>(
                (lib.footprints@.map_values(|f: Footprint| f@), lib.courtyard_layers@),
            ),
            Err(m) => pcb_library_spec(data@) == Err::<(Seq<FootprintSpec>, Seq<u8>), Seq<char>>(m@),
        },
{
    let entries = match read_ole_listing(data) {
        Ok(v) => v,
        Err(e) => {
            let mut m = "OLE: ".to_owned();
            push_str(&mut m, e.as_str());
            return Err(m);
        },
    };
    let names = sort_names(&footprint_storage_names(&entries));
    let ghost nv = strings_view(names@);
    let mut footprints: Vec<Footprint> = Vec::new();
    let mut i: usize = 0;
    while i < names.len()
        invariant
            i <= names@.len(),
            nv == strings_view(names@),
            footprints@.map_values(|f: Footprint| f@) == footprints_of(data@, nv.take(i as int)),
        decreases names@.len() - i,
    {
        proof {
            assert(nv.take(i + 1).drop_last() =~= nv.take(i as int));
            assert(nv.take(i + 1).last() == nv[i as int]);
        }
        let ghost before = footprints@.map_values(|f: Footprint| f@);
        match footprint_of_exec(data, &names[i]) {
            Some(f) => {
                let ghost fv = f@;
                footprints.push(f);
                assert(footprints@.map_values(|f: Footprint| f@) =~= before.push(fv));
            },
            None => {
                assert(before + Seq::<FootprintSpec>::empty() =~= before);
            },
        }
        i += 1;
    }
    assert(nv.take(names@.len() as int) =~= nv);
    let courtyard_layers = match read_ole_stream(data, &path2("Library", "Data")) {
        Some(d) => parse_courtyard_layers(&d),
        None => Vec::new(),
    };
    Ok(PcbLib { footprints, courtyard_layers })
}

// ---------------------------------------------------------------------------
// Schematic libraries
// ---------------------------------------------------------------------------

/// The symbol a top-level storage stands for (`FileHeader` and `Storage`
/// hold none).
pub open spec fn symbol_storage(e: OleEntrySpec) -> Option<Seq<char>> {
    if e.is_storage && named_components(e.path).len() == 1 && !eq_ignore_ascii_case(
        e.name,
        "FileHeader"@,
    ) && !eq_ignore_ascii_case(e.name, "Storage"@) {
        Some(e.name)
    } else {
        None
    }
}

pub open spec fn symbol_storages(es: Seq<OleEntrySpec>) -> Seq<Seq<char>>
    decreases es.len(),
{
    if es.len() == 0 {
        Seq::empty()
    } else {
        symbol_storages(es.drop_last()) + match symbol_storage(es.last()) {
            Some(n) => seq![n],
            None => Seq::<Seq<char>>::empty(),
        }
    }
}

pub open spec fn symbols_of(data: Seq<u8>, names: Seq<Seq<char>>) -> Seq<SymbolSpec>
    decreases names.len(),
{
    if names.len() == 0 {
        Seq::empty()
    } else {
        symbols_of(data, names.drop_last()) + match ole_stream(data, seq![names.last(), "Data"@]) {
            Some(d) => match symbol_spec(names.last(), d) {
                Some(s) => seq![s],
                None => Seq::<SymbolSpec>::empty(),
            },
            None => Seq::<SymbolSpec>::empty(),
        }
    }
}

/// A `.SchLib` file's symbols (in storage order) and the font sizes of its
/// `FileHeader`, or the error of a file that does not open.
pub open spec fn sch_library_spec(data: Seq<u8>) -> Result<
    (Seq<SymbolSpec>, Seq<(usize, Seq<char>)>),
    Seq<char>,
> {
    match ole_listing(data) {
        Err(e) => Err("OLE: "@ + e),
        Ok(es) => Ok(
            (
                symbols_of(data, symbol_storages(es)),
                match ole_stream(data, seq!["FileHeader"@]) {
                    Some(d) => font_sizes_spec(d),
                    None => Seq::empty(),
                },
            ),
        ),
    }
}

/// The symbols a compound file's entries hold, in listing order.
pub fn symbol_storage_names(es: &Vec<OleEntry>) -> (r: Vec<String>)
    ensures
        strings_view(r@) == symbol_storages(entries_view(es@)),
{
    let ghost ev = entries_view(es@);
    let header = chars_of("FileHeader");
    let storage = chars_of("Storage");
    let mut r: Vec<String> = Vec::new();
    let mut i: usize = 0;
    while i < es.len()
        invariant
            i <= es@.len(),
            ev == entries_view(es@),
            header@ == "FileHeader"@,
            storage@ == "Storage"@,
            strings_view(r@) == symbol_storages(ev.take(i as int)),
        decreases es@.len() - i,
    {
        proof {
            assert(ev.take(i + 1).drop_last() =~= ev.take(i as int));
            assert(ev.take(i + 1).last() == ev[i as int]);
        }
        let e = &es[i];
        let c = named_components_exec(&e.path);
        let n = chars_of(e.name.as_str());
        let ghost before = strings_view(r@);
        if e.is_storage && c.len() == 1 && !chars_eq_ignore_ascii_case(&n, &header)
            && !chars_eq_ignore_ascii_case(&n, &storage) {
            r.push(e.name.clone());
            assert(strings_view(r@) =~= before.push(ev[i as int].name));
        } else {
            assert(strings_view(r@) =~= before + Seq::<Seq<char>>::empty());
        }
        i += 1;
    }
    assert(ev.take(es@.len() as int) =~= ev);
    r
}

/// Reads a `.SchLib` file held in memory.
pub fn read_sch_library(data: &[u8]) -> (r: Result<SchLib, String>)
    ensures
        match r {
            Ok(lib) => sch_library_spec(data@) == Ok::<
                (Seq<SymbolSpec>, Seq<(usize, Seq<char>)>),
                Seq<char>,
            >(
                (
                    lib.symbols@.map_values(|s: Symbol| s@),
                    font_sizes_view(lib.font_sizes@),
                ),
            ),
            Err(m) => sch_library_spec(data@) == Err::<
                (Seq<SymbolSpec>, Seq<(usize, Seq<char>)>),
                Seq<char>,
            >(m@),
        },
{
    let entries = match read_ole_listing(data) {
        Ok(v) => v,
        Err(e) => {
            let mut m = "OLE: ".to_owned();
            push_str(&mut m, e.as_str());
            return Err(m);
        },
    };
    let font_sizes = match read_ole_stream(data, &path1("FileHeader")) {
        Some(d) => parse_font_sizes(&d),
        None => Vec::new(),
    };
    let names = symbol_storage_names(&entries);
    let ghost nv = strings_view(names@);
    let mut symbols: Vec<Symbol> = Vec::new();
    let mut i: usize = 0;
    while i < names.len()
        invariant
            i <= names@.len(),
            nv == strings_view(names@),
            symbols@.map_values(|s: Symbol| s@) == symbols_of(data@, nv.take(i as int)),
        decreases names@.len() - i,
    {
        proof {
            assert(nv.take(i + 1).drop_last() =~= nv.take(i as int));
            assert(nv.take(i + 1).last() == nv[i as int]);
        }
        let ghost before = symbols@.map_values(|s: Symbol| s@);
        match read_ole_stream(data, &path2(names[i].as_str(), "Data")) {
            Some(d) => match parse_symbol(names[i].as_str(), &d) {
                Some(sym) => {
                    let ghost sv = sym@;
                    symbols.push(sym);
                    assert(symbols@.map_values(|s: Symbol| s@) =~= before.push(sv));
                },
                None => {
                    assert(before + Seq::<SymbolSpec>::empty() =~= before);
                },
            },
            None => {
                assert(before + Seq::<SymbolSpec>::empty() =~= before);
            },
        }
        i += 1;
    }
    assert(nv.take(names@.len() as int) =~= nv);
    assert(symbols@.map_values(|s: Symbol| s@) == symbols_of(data@, symbol_storages(entries_view(entries@))));
    assert(font_sizes_view(font_sizes@) == match ole_stream(data@, seq!["FileHeader"@]) {
        Some(d) => font_sizes_spec(d),
        None => Seq::empty(),
    });
    Ok(SchLib { symbols, font_sizes })
}


// ---------------------------------------------------------------------------
// Choosing what to show
// ---------------------------------------------------------------------------

/// Index of the first symbol named `name` or referenced as `name`.
pub open spec fn named_symbol(syms: Seq<SymbolSpec>, name: Seq<char>) -> Option<int>
    decreases syms.len(),
{
    if syms.len() == 0 {
        None
    } else {
        match named_symbol(syms.drop_last(), name) {
            Some(i) => Some(i),
            None => if syms.last().name == name || syms.last().lib_reference == name {
                Some(syms.len() - 1)
            } else {
                None
            },
        }
    }
}

/// The symbol a preview of `name` shows: the named one, else the first;
/// `None` for an empty library.
pub open spec fn pick_symbol_spec(syms: Seq<SymbolSpec>, name: Seq<char>) -> Option<int> {
    match named_symbol(syms, name) {
        Some(i) => Some(i),
        None => if syms.len() > 0 {
            Some(0)
        } else {
            None
        },
    }
}

/// Picks the symbol to show for `name`.
pub fn pick_symbol(lib: &SchLib, name: &str) -> (r: Result<usize, String>)
    ensures
        match r {
            Ok(i) => pick_symbol_spec(lib.symbols@.map_values(|s: Symbol| s@), name@) == Some(i as int),
            Err(m) => pick_symbol_spec(lib.symbols@.map_values(|s: Symbol| s@), name@) is None
                && m@ == "library has no symbols"@,
        },
{
    let ghost sv = lib.symbols@.map_values(|s: Symbol| s@);
    let mut i: usize = 0;
    while i < lib.symbols.len()
        invariant
            i <= lib.symbols@.len(),
            sv == lib.symbols@.map_values(|s: Symbol| s@),
            named_symbol(sv.take(i as int), name@) is None,
        decreases lib.symbols@.len() - i,
    {
        proof {
            assert(sv.take(i + 1).drop_last() =~= sv.take(i as int));
            assert(sv.take(i + 1).last() == sv[i as int]);
        }
        if str_eq(lib.symbols[i].name.as_str(), name) || str_eq(
            lib.symbols[i].lib_reference.as_str(),
            name,
        ) {
            proof {
                lemma_named_symbol_prefix(sv, name@, i + 1);
            }
            return Ok(i);
        }
        i += 1;
    }
    assert(sv.take(lib.symbols@.len() as int) =~= sv);
    if lib.symbols.len() > 0 {
        Ok(0)
    } else {
        Err("library has no symbols".to_owned())
    }
}

/// A hit in a prefix is the hit of the whole.
proof fn lemma_named_symbol_prefix(s: Seq<SymbolSpec>, name: Seq<char>, k: int)
    requires
        0 <= k <= s.len(),
        named_symbol(s.take(k), name) is Some,
    ensures
        named_symbol(s, name) == named_symbol(s.take(k), name),
    decreases s.len() - k,
{
    if k < s.len() {
        assert(s.take(k + 1).drop_last() =~= s.take(k));
        lemma_named_symbol_prefix(s, name, k + 1);
    } else {
        assert(s.take(k) =~= s);
    }
}

/// Multi-part symbols show their first part only.
pub fn symbol_part(sym: &Symbol) -> (p: Option<i64>)
    ensures
        p == if sym.part_count > 1 {
            Some(1i64)
        } else {
            None::<i64>
        },
{
    if sym.part_count > 1 {
        Some(1)
    } else {
        None
    }
}

/// Index of the first footprint named `name`.
pub open spec fn named_footprint(fps: Seq<FootprintSpec>, name: Seq<char>) -> Option<int>
    decreases fps.len(),
{
    if fps.len() == 0 {
        None
    } else {
        match named_footprint(fps.drop_last(), name) {
            Some(i) => Some(i),
            None => if fps.last().name == name {
                Some(fps.len() - 1)
            } else {
                None
            },
        }
    }
}

pub open spec fn pick_footprint_spec(fps: Seq<FootprintSpec>, name: Seq<char>) -> Option<int> {
    match named_footprint(fps, name) {
        Some(i) => Some(i),
        None => if fps.len() > 0 {
            Some(0)
        } else {
            None
        },
    }
}

proof fn lemma_named_footprint_prefix(s: Seq<FootprintSpec>, name: Seq<char>, k: int)
    requires
        0 <= k <= s.len(),
        named_footprint(s.take(k), name) is Some,
    ensures
        named_footprint(s, name) == named_footprint(s.take(k), name),
    decreases s.len() - k,
{
    if k < s.len() {
        assert(s.take(k + 1).drop_last() =~= s.take(k));
        lemma_named_footprint_prefix(s, name, k + 1);
    } else {
        assert(s.take(k) =~= s);
    }
}

/// Picks the footprint to show for `name`: the named one, else the first.
pub fn pick_footprint(lib: &PcbLib, name: &str) -> (r: Result<usize, String>)
    ensures
        match r {
            Ok(i) => pick_footprint_spec(lib.footprints@.map_values(|f: Footprint| f@), name@) == Some(
                i as int,
            ),
            Err(m) => pick_footprint_spec(lib.footprints@.map_values(|f: Footprint| f@), name@) is None
                && m@ == "library has no footprints"@,
        },
{
    let ghost fv = lib.footprints@.map_values(|f: Footprint| f@);
    let mut i: usize = 0;
    while i < lib.footprints.len()
        invariant
            i <= lib.footprints@.len(),
            fv == lib.footprints@.map_values(|f: Footprint| f@),
            named_footprint(fv.take(i as int), name@) is None,
        decreases lib.footprints@.len() - i,
    {
        proof {
            assert(fv.take(i + 1).drop_last() =~= fv.take(i as int));
            assert(fv.take(i + 1).last() == fv[i as int]);
        }
        if str_eq(lib.footprints[i].name.as_str(), name) {
            proof {
                lemma_named_footprint_prefix(fv, name@, i + 1);
            }
            return Ok(i);
        }
        i += 1;
    }
    assert(fv.take(lib.footprints@.len() as int) =~= fv);
    if lib.footprints.len() > 0 {
        Ok(0)
    } else {
        Err("library has no footprints".to_owned())
    }
}

/// The symbol names of a library, in order.
pub fn list_symbols(lib: &SchLib) -> (r: Vec<String>)
    ensures
        r@.len() == lib.symbols@.len(),
        forall|i: int| 0 <= i < r@.len() ==> (#[trigger] r@[i])@ == lib.symbols@[i].name@,
{
    let mut r: Vec<String> = Vec::new();
    let mut i: usize = 0;
    while i < lib.symbols.len()
        invariant
            i <= lib.symbols@.len(),
            r@.len() == i,
            forall|j: int| 0 <= j < i ==> (#[trigger] r@[j])@ == lib.symbols@[j].name@,
        decreases lib.symbols@.len() - i,
    {
        r.push(lib.symbols[i].name.clone());
        i += 1;
    }
    r
}

/// The footprint names of a library, in order.
pub fn list_footprints(lib: &PcbLib) -> (r: Vec<String>)
    ensures
        r@.len() == lib.footprints@.len(),
        forall|i: int| 0 <= i < r@.len() ==> (#[trigger] r@[i])@ == lib.footprints@[i].name@,
{
    let mut r: Vec<String> = Vec::new();
    let mut i: usize = 0;
    while i < lib.footprints.len()
        invariant
            i <= lib.footprints@.len(),
            r@.len() == i,
            forall|j: int| 0 <= j < i ==> (#[trigger] r@[j])@ == lib.footprints@[j].name@,
        decreases lib.footprints@.len() - i,
    {
        r.push(lib.footprints[i].name.clone());
        i += 1;
    }
    r
}

} // verus!
