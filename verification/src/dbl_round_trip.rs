//! The `.DbLib` writer and reader agree: reading back the text written for
//! a document recovers it (up to what the format does not store), so a
//! file written by this library is rewritten byte for byte.

use vstd::prelude::*;
use crate::altium_dbl::{
    DblSpec, FieldSpec, IniState, LibrarySpec, OptionsSpec, bool_text, field_blocks,
    field_options, fieldmap_lines, fieldmap_step, from_ini_spec, ini_init, ini_kv, ini_lines,
    ini_run, ini_step, ini_text, is_internal_table_spec, join_lines, lemma_join_lines_append,
    link_line, link_lines, new_table, options_field, options_init, options_run, options_step,
    parse_options, parse_u8, split_once_eq, table_block, table_is, table_lines, table_step,
    total_fields, with_libraries,
};
use crate::text::{dec, has_prefix, lemma_dec_digits};
use crate::text::{
    find_first, is_whitespace, lemma_find_first, lemma_find_first_at, lemma_find_first_none,
    split_seq, trim_end_seq, trim_seq, trim_start_seq,
};

verus! {

broadcast use vstd::string::group_string_axioms;

// ---------------------------------------------------------------------------
// Splitting and trimming
// ---------------------------------------------------------------------------

pub open spec fn no_elem<T>(s: Seq<T>, x: T) -> bool {
    forall|i: int| 0 <= i < s.len() ==> s[i] != x
}

/// Appending separator-free text extends the last piece.
pub proof fn lemma_split_append<T>(s: Seq<T>, t: Seq<T>, sep: T)
    requires
        no_elem(t, sep),
    ensures
        split_seq(s + t, sep) == split_seq(s, sep).update(
            split_seq(s, sep).len() - 1,
            split_seq(s, sep).last() + t,
        ),
    decreases t.len(),
{
    crate::text::lemma_split_seq_nonempty(s, sep);
    if t.len() == 0 {
        assert(s + t =~= s);
        assert(split_seq(s, sep).last() + t =~= split_seq(s, sep).last());
        assert(split_seq(s, sep).update(split_seq(s, sep).len() - 1, split_seq(s, sep).last())
            =~= split_seq(s, sep));
    } else {
        lemma_split_append(s, t.drop_last(), sep);
        assert((s + t).drop_last() =~= s + t.drop_last());
        assert((s + t).last() == t.last());
        assert(t.last() != sep);
        crate::text::lemma_split_seq_nonempty(s + t.drop_last(), sep);
        let r = split_seq(s, sep);
        let r2 = split_seq(s + t.drop_last(), sep);
        assert(r2 == r.update(r.len() - 1, r.last() + t.drop_last()));
        assert(r2.len() == r.len());
        assert(r2.last() == r.last() + t.drop_last());
        assert(split_seq(s + t, sep) == r2.update(r2.len() - 1, r2.last().push(t.last())));
        assert(r2.last().push(t.last()) =~= r.last() + t);
        assert(r2.update(r2.len() - 1, r2.last().push(t.last())) =~= r.update(r.len() - 1, r.last() + t));
    }
}

/// A separator closes the last piece and opens an empty one.
pub proof fn lemma_split_push_sep<T>(s: Seq<T>, sep: T)
    ensures
        split_seq(s.push(sep), sep) == split_seq(s, sep).push(Seq::empty()),
{
    assert(s.push(sep).drop_last() =~= s);
}

/// Separator-joined pieces split back into the pieces.
pub open spec fn join_sep<T>(ps: Seq<Seq<T>>, sep: T) -> Seq<T>
    decreases ps.len(),
{
    if ps.len() <= 1 {
        if ps.len() == 0 {
            Seq::empty()
        } else {
            ps[0]
        }
    } else {
        join_sep(ps.drop_last(), sep).push(sep) + ps.last()
    }
}

pub proof fn lemma_split_join<T>(ps: Seq<Seq<T>>, sep: T)
    requires
        ps.len() >= 1,
        forall|i: int| 0 <= i < ps.len() ==> no_elem(#[trigger] ps[i], sep),
    ensures
        split_seq(join_sep(ps, sep), sep) == ps,
    decreases ps.len(),
{
    if ps.len() == 1 {
        lemma_split_append(Seq::<T>::empty(), ps[0], sep);
        assert(Seq::<T>::empty() + ps[0] =~= ps[0]);
        assert(split_seq(Seq::<T>::empty(), sep) =~= seq![Seq::<T>::empty()]);
        assert(Seq::<T>::empty() + ps[0] =~= ps[0]);
        assert(seq![Seq::<T>::empty()].update(0, Seq::<T>::empty() + ps[0]) =~= ps);
    } else {
        let a = join_sep(ps.drop_last(), sep);
        lemma_split_join(ps.drop_last(), sep);
        lemma_split_push_sep(a, sep);
        lemma_split_append(a.push(sep), ps.last(), sep);
        let r = split_seq(a.push(sep), sep);
        assert(r == ps.drop_last().push(Seq::empty()));
        assert(Seq::<T>::empty() + ps.last() =~= ps.last());
        assert(r.update(r.len() - 1, r.last() + ps.last()) =~= ps);
    }
}

pub proof fn lemma_join_lines_sep(ls: Seq<Seq<char>>)
    ensures
        join_lines(ls) == join_sep(ls.push(Seq::empty()), '\n'),
    decreases ls.len(),
{
    if ls.len() == 0 {
        assert(ls.push(Seq::empty()) =~= seq![Seq::<char>::empty()]);
    } else {
        lemma_join_lines_sep(ls.drop_last());
        let p = ls.push(Seq::empty());
        assert(p.drop_last() =~= ls);
        assert(ls.drop_last().push(Seq::empty()).drop_last() =~= ls.drop_last());
        if ls.len() == 1 {
            assert(ls.drop_last() =~= Seq::<Seq<char>>::empty());
            assert(join_sep(ls, '\n') == ls[0]);
            assert(join_lines(ls) =~= join_lines(Seq::<Seq<char>>::empty()) + ls[0] + seq!['\n']);
            assert(join_sep(p, '\n') =~= ls[0].push('\n') + Seq::<char>::empty());
            assert(join_lines(Seq::<Seq<char>>::empty()) =~= Seq::<char>::empty());
        } else {
            // join_sep(ls.push([])) = join_sep(ls).push('\n'), and join_sep(ls) extends the shorter join.
            lemma_join_sep_push_empty(ls);
            lemma_join_sep_push_empty(ls.drop_last());
            assert(join_sep(ls, '\n') == join_sep(ls.drop_last(), '\n').push('\n') + ls.last());
            assert(join_sep(ls.drop_last().push(Seq::empty()), '\n') == join_sep(ls.drop_last(), '\n').push('\n'));
            assert(join_lines(ls) =~= join_sep(p, '\n'));
        }
    }
}

pub proof fn lemma_join_sep_push_empty<T>(ps: Seq<Seq<T>>)
    requires
        ps.len() >= 1,
    ensures
        forall|sep: T| join_sep(ps.push(Seq::empty()), sep) == #[trigger] join_sep(ps, sep).push(sep),
{
    assert forall|sep: T| join_sep(ps.push(Seq::empty()), sep) == #[trigger] join_sep(ps, sep).push(sep) by {
        assert(ps.push(Seq::empty()).drop_last() =~= ps);
        assert(join_sep(ps, sep).push(sep) + Seq::<T>::empty() =~= join_sep(ps, sep).push(sep));
    }
}

/// The lines of a joined text are the lines, then an empty remainder.
pub proof fn lemma_split_join_lines(ls: Seq<Seq<char>>)
    requires
        forall|i: int| 0 <= i < ls.len() ==> no_elem(#[trigger] ls[i], '\n'),
    ensures
        split_seq(join_lines(ls), '\n') == ls.push(Seq::empty()),
{
    lemma_join_lines_sep(ls);
    assert forall|i: int| 0 <= i < ls.push(Seq::empty()).len() implies no_elem(#[trigger] ls.push(Seq::<char>::empty())[i], '\n') by {
        if i < ls.len() {
            assert(ls.push(Seq::<char>::empty())[i] == ls[i]);
        }
    }
    lemma_split_join(ls.push(Seq::empty()), '\n');
}

/// Text that `trim` leaves as it is and that fits on one line.
pub open spec fn clean(s: Seq<char>) -> bool {
    &&& no_elem(s, '\n')
    &&& s.len() > 0 ==> !is_whitespace(s[0]) && !is_whitespace(s.last())
}

pub proof fn lemma_trim_clean(s: Seq<char>)
    requires
        s.len() == 0 || (!is_whitespace(s[0]) && !is_whitespace(s.last())),
    ensures
        trim_seq(s) == s,
{
}

/// Splitting at the first `=` of `k=v` when `k` has none.
pub proof fn lemma_split_once(k: Seq<char>, v: Seq<char>)
    requires
        no_elem(k, '='),
    ensures
        split_once_eq(k + seq!['='] + v) == Some((k, v)),
{
    let s = k + seq!['='] + v;
    assert(s[k.len() as int] == '=');
    assert forall|j: int| 0 <= j < k.len() implies !(#[trigger] s[j] == '=') by {
        assert(s[j] == k[j]);
    }
    lemma_find_first_at(s, |c: char| c == '=', k.len() as int);
    assert(s.take(k.len() as int) =~= k);
    assert(s.skip(k.len() as int + 1) =~= v);
}


pub proof fn lemma_no_elem_concat<T>(a: Seq<T>, b: Seq<T>, x: T)
    requires
        no_elem(a, x),
        no_elem(b, x),
    ensures
        no_elem(a + b, x),
{
    assert forall|i: int| 0 <= i < (a + b).len() implies (a + b)[i] != x by {
        if i < a.len() {
            assert((a + b)[i] == a[i]);
        } else {
            assert((a + b)[i] == b[i - a.len()]);
        }
    }
}

// ---------------------------------------------------------------------------
// Reading single lines
// ---------------------------------------------------------------------------

pub proof fn lemma_ini_run_push(st: IniState, ls: Seq<Seq<char>>, l: Seq<char>)
    ensures
        ini_run(st, ls.push(l)) == ini_step(ini_run(st, ls), l),
{
    assert(ls.push(l).drop_last() =~= ls);
}

pub proof fn lemma_ini_run_append(st: IniState, a: Seq<Seq<char>>, b: Seq<Seq<char>>)
    ensures
        ini_run(st, a + b) == ini_run(ini_run(st, a), b),
    decreases b.len(),
{
    if b.len() == 0 {
        assert(a + b =~= a);
    } else {
        assert((a + b).drop_last() =~= a + b.drop_last());
        lemma_ini_run_append(st, a, b.drop_last());
    }
}

/// A `KEY=VALUE` line whose key and value need no trimming.
pub proof fn lemma_kv_line(st: IniState, k: Seq<char>, v: Seq<char>)
    requires
        clean(k),
        clean(v),
        no_elem(k, '='),
        k.len() == 0 || k[0] != '[',
    ensures
        ini_step(st, k + seq!['='] + v) == ini_kv(st, k, v),
{
    let line = k + seq!['='] + v;
    if k.len() > 0 {
        assert(line[0] == k[0]);
    } else {
        assert(line[0] == '=');
    }
    if v.len() > 0 {
        assert(line.last() == v.last());
    } else {
        assert(line.last() == '=');
    }
    lemma_trim_clean(line);
    lemma_trim_clean(k);
    lemma_trim_clean(v);
    lemma_split_once(k, v);
}

/// A `[NAME]` line.
pub proof fn lemma_section_line(st: IniState, name: Seq<char>)
    ensures
        ini_step(st, seq!['['] + name + seq![']']) == (IniState { section: name, last: None, ..st }),
{
    let line = seq!['['] + name + seq![']'];
    assert(line[0] == '[');
    assert(line.last() == ']');
    lemma_trim_clean(line);
    assert(line.subrange(1, line.len() - 1) =~= name);
}


// ---------------------------------------------------------------------------
// What the format can carry
// ---------------------------------------------------------------------------

/// A link the text can carry: a one-line trimmed key without `=` that does
/// not open a section, and a one-line trimmed value.
pub open spec fn link_ok(p: (Seq<char>, Seq<char>)) -> bool {
    &&& clean(p.0)
    &&& clean(p.1)
    &&& no_elem(p.0, '=')
    &&& (p.0.len() == 0 || p.0[0] != '[')
}

/// A field the text can carry: a non-empty column; column and parameter
/// on one line and free of `|`.
pub open spec fn field_ok(f: FieldSpec) -> bool {
    &&& f.column.len() > 0
    &&& no_elem(f.column, '\n')
    &&& no_elem(f.column, '|')
    &&& no_elem(f.parameter, '\n')
    &&& no_elem(f.parameter, '|')
}

/// A library the text can carry: a one-line trimmed table name without
/// `|` that is not SQLite's own, a one-line trimmed filter text, and
/// fields the text can carry.
pub open spec fn library_ok(l: LibrarySpec) -> bool {
    &&& clean(l.table)
    &&& no_elem(l.table, '|')
    &&& !is_internal_table_spec(l.table)
    &&& clean(l.user_where_text)
    &&& forall|j: int| 0 <= j < l.fields.len() ==> field_ok(#[trigger] l.fields[j])
}

/// A document the `.DbLib` text represents faithfully. The connection
/// string matters only where a `ConnectionString` link writes it.
pub open spec fn canonical(d: DblSpec) -> bool {
    &&& has_cs_link(d.database_links) ==> clean(d.connection_string)
    &&& forall|i: int| 0 <= i < d.database_links.len() ==> link_ok(#[trigger] d.database_links[i])
    &&& forall|i: int| 0 <= i < d.libraries.len() ==> library_ok(#[trigger] d.libraries[i])
    &&& forall|i: int, j: int|
        0 <= i < j < d.libraries.len() ==> (#[trigger] d.libraries[i]).table != (#[trigger] d.libraries[j]).table
}

pub open spec fn is_cs_key(k: Seq<char>) -> bool {
    k == "ConnectionString"@
}

/// Whether some link is a `ConnectionString` link.
pub open spec fn has_cs_link(links: Seq<(Seq<char>, Seq<char>)>) -> bool {
    exists|j: int| 0 <= j < links.len() && is_cs_key(#[trigger] links[j].0)
}

/// The connection string the text gives back: the document's own when a
/// `ConnectionString` link carries it, none otherwise.
pub open spec fn cs_read(links: Seq<(Seq<char>, Seq<char>)>, cs: Seq<char>) -> Seq<char> {
    if exists|j: int| 0 <= j < links.len() && is_cs_key(#[trigger] links[j].0) {
        cs
    } else {
        Seq::empty()
    }
}

/// Links as written: `ConnectionString` links carry the connection string.
pub open spec fn links_written(links: Seq<(Seq<char>, Seq<char>)>, cs: Seq<char>) -> Seq<(Seq<char>, Seq<char>)> {
    links.map_values(|p: (Seq<char>, Seq<char>)| (p.0, if is_cs_key(p.0) { cs } else { p.1 }))
}

/// A library as read back: its name is its table.
pub open spec fn library_read(l: LibrarySpec) -> LibrarySpec {
    LibrarySpec { name: l.table, ..l }
}

/// What reading back the text of `d` gives.
pub open spec fn normalize(d: DblSpec) -> DblSpec {
    DblSpec {
        connection_string: cs_read(d.database_links, d.connection_string),
        database_links: links_written(d.database_links, d.connection_string),
        libraries: d.libraries.map_values(|l: LibrarySpec| library_read(l)),
    }
}

// ---------------------------------------------------------------------------
// Header and links
// ---------------------------------------------------------------------------

pub open spec fn empty_dbl() -> DblSpec {
    DblSpec {
        connection_string: Seq::empty(),
        database_links: Seq::empty(),
        libraries: Seq::empty(),
    }
}

pub open spec fn links_state(links: Seq<(Seq<char>, Seq<char>)>, cs: Seq<char>) -> IniState {
    IniState {
        dbl: DblSpec {
            connection_string: cs_read(links, cs),
            database_links: links_written(links, cs),
            libraries: Seq::empty(),
        },
        section: "DatabaseLinks"@,
        last: None,
    }
}

pub proof fn lemma_header(cs: Seq<char>)
    ensures
        ini_run(ini_init(), seq!["[OutputDatabaseLinkFile]"@, "Version=1.1"@, "[DatabaseLinks]"@])
            == links_state(Seq::empty(), cs),
{
    reveal_strlit("[OutputDatabaseLinkFile]");
    reveal_strlit("OutputDatabaseLinkFile");
    reveal_strlit("Version=1.1");
    reveal_strlit("Version");
    reveal_strlit("1.1");
    reveal_strlit("[DatabaseLinks]");
    reveal_strlit("DatabaseLinks");
    reveal_strlit("Table");
    reveal_strlit("FieldMap");
    let hdr = seq!["[OutputDatabaseLinkFile]"@, "Version=1.1"@, "[DatabaseLinks]"@];
    assert(hdr =~= Seq::<Seq<char>>::empty().push(hdr[0]).push(hdr[1]).push(hdr[2]));
    lemma_ini_run_push(ini_init(), Seq::empty(), hdr[0]);
    lemma_ini_run_push(ini_init(), Seq::empty().push(hdr[0]), hdr[1]);
    lemma_ini_run_push(ini_init(), Seq::empty().push(hdr[0]).push(hdr[1]), hdr[2]);
    assert("[OutputDatabaseLinkFile]"@ =~= seq!['['] + "OutputDatabaseLinkFile"@ + seq![']']);
    lemma_section_line(ini_init(), "OutputDatabaseLinkFile"@);
    let s1 = IniState { section: "OutputDatabaseLinkFile"@, last: None, ..ini_init() };
    assert("Version=1.1"@ =~= "Version"@ + seq!['='] + "1.1"@);
    lemma_kv_line(s1, "Version"@, "1.1"@);
    assert(!has_prefix(s1.section, "Table"@)) by {
        assert(s1.section.take(5)[0] != "Table"@[0]);
    }
    assert(!has_prefix(s1.section, "FieldMap"@)) by {
        assert(s1.section.take(8)[0] != "FieldMap"@[0]);
    }
    assert(s1.section != "DatabaseLinks"@) by {
        assert(s1.section.len() != "DatabaseLinks"@.len());
    }
    assert("[DatabaseLinks]"@ =~= seq!['['] + "DatabaseLinks"@ + seq![']']);
    lemma_section_line(s1, "DatabaseLinks"@);
    assert(links_written(Seq::empty(), cs) =~= Seq::<(Seq<char>, Seq<char>)>::empty());
    assert(ini_init().dbl =~= links_state(Seq::empty(), cs).dbl);
}

pub proof fn lemma_links_phase(links: Seq<(Seq<char>, Seq<char>)>, cs: Seq<char>, k: int)
    requires
        0 <= k <= links.len(),
        clean(cs),
        forall|i: int| 0 <= i < links.len() ==> link_ok(#[trigger] links[i]),
    ensures
        ini_run(links_state(Seq::empty(), cs), link_lines(links.take(k), cs)) == links_state(links.take(k), cs),
    decreases k,
{
    if k == 0 {
        assert(links.take(0) =~= Seq::<(Seq<char>, Seq<char>)>::empty());
        assert(link_lines(links.take(0), cs) =~= Seq::<Seq<char>>::empty());
    } else {
        lemma_links_phase(links, cs, k - 1);
        let p = links[k - 1];
        let prev = links.take(k - 1);
        assert(links.take(k) =~= prev.push(p));
        assert(link_lines(links.take(k), cs) =~= link_lines(prev, cs).push(link_line(p, cs)));
        lemma_ini_run_push(links_state(Seq::empty(), cs), link_lines(prev, cs), link_line(p, cs));
        reveal_strlit("=");
        let v = if p.0 == "ConnectionString"@ { cs } else { p.1 };
        assert(link_line(p, cs) =~= p.0 + seq!['='] + v);
        assert(link_ok(p));
        lemma_kv_line(links_state(prev, cs), p.0, v);
        let st = links_state(prev, cs);
        let nx = ini_kv(st, p.0, v);
        assert(links_written(links.take(k), cs) =~= links_written(prev, cs).push((p.0, v)));
        if is_cs_key(p.0) {
            assert(is_cs_key(links.take(k)[k - 1].0));
        } else {
            if exists|j: int| 0 <= j < links.take(k).len() && is_cs_key(#[trigger] links.take(k)[j].0) {
                let j = choose|j: int| 0 <= j < links.take(k).len() && is_cs_key(#[trigger] links.take(k)[j].0);
                assert(j < k - 1);
                assert(prev[j] == links.take(k)[j]);
            }
            if exists|j: int| 0 <= j < prev.len() && is_cs_key(#[trigger] prev[j].0) {
                let j = choose|j: int| 0 <= j < prev.len() && is_cs_key(#[trigger] prev[j].0);
                assert(prev[j] == links.take(k)[j]);
            }
        }
        assert(nx.dbl =~= links_state(links.take(k), cs).dbl);
    }
}


// ---------------------------------------------------------------------------
// Tables
// ---------------------------------------------------------------------------

/// A library as its `[TableN]` block gives it back: no fields yet.
pub open spec fn bare(l: LibrarySpec) -> LibrarySpec {
    LibrarySpec { name: l.table, fields: Seq::empty(), ..l }
}

pub proof fn lemma_ini_run_seq(st: IniState, ls: Seq<Seq<char>>)
    requires
        ls.len() >= 1,
    ensures
        ini_run(st, ls) == ini_step(ini_run(st, ls.drop_last()), ls.last()),
{
}

pub proof fn lemma_true_false()
    ensures
        crate::text::eq_ignore_ascii_case("True"@, "true"@),
        !crate::text::eq_ignore_ascii_case("False"@, "true"@),
        "1"@ != "0"@,
{
    reveal_strlit("True");
    reveal_strlit("true");
    reveal_strlit("False");
    reveal_strlit("1");
    reveal_strlit("0");
    assert("1"@[0] != "0"@[0]);
}

pub proof fn lemma_table_block(st: IniState, l: LibrarySpec, n: nat)
    requires
        library_ok(l),
    ensures
        ini_run(st, table_block(l, n)).dbl == (DblSpec { libraries: st.dbl.libraries.push(bare(l)), ..st.dbl }),
{
    reveal_strlit("[Table");
    reveal_strlit("Table");
    reveal_strlit("]");
    reveal_strlit("SchemaName=");
    reveal_strlit("SchemaName");
    reveal_strlit("");
    reveal_strlit("TableName=");
    reveal_strlit("TableName");
    reveal_strlit("Enabled=");
    reveal_strlit("Enabled");
    reveal_strlit("UserWhere=");
    reveal_strlit("UserWhere");
    reveal_strlit("UserWhereText=");
    reveal_strlit("UserWhereText");
    reveal_strlit("True");
    reveal_strlit("False");
    reveal_strlit("1");
    reveal_strlit("0");
    reveal_strlit("DatabaseLinks");
    lemma_true_false();
    let blk = table_block(l, n);
    let sec = "Table"@ + dec(n);
    // line 1
    assert(blk[0] =~= seq!['['] + sec + seq![']']);
    lemma_section_line(st, sec);
    let s1 = IniState { section: sec, last: None, ..st };
    assert(sec != "DatabaseLinks"@) by {
        assert(sec[0] != "DatabaseLinks"@[0]);
    }
    assert(has_prefix(sec, "Table"@)) by {
        assert(sec.take(5) =~= "Table"@);
    }
    // line 2
    assert(blk[1] =~= "SchemaName"@ + seq!['='] + ""@);
    lemma_kv_line(s1, "SchemaName"@, ""@);
    assert(ini_kv(s1, "SchemaName"@, ""@) == s1) by {
        assert("SchemaName"@.len() != "TableName"@.len());
        assert("SchemaName"@.len() != "Enabled"@.len());
        assert("SchemaName"@.len() != "UserWhere"@.len());
        assert("SchemaName"@.len() != "UserWhereText"@.len());
    }
    // line 3
    assert(blk[2] =~= "TableName"@ + seq!['='] + l.table);
    lemma_kv_line(s1, "TableName"@, l.table);
    let s3 = IniState { last: Some(st.dbl.libraries.len() as int), ..with_libraries(s1, st.dbl.libraries.push(new_table(l.table))) };
    assert(ini_kv(s1, "TableName"@, l.table) == s3);
    let i = st.dbl.libraries.len() as int;
    // line 4
    let et = bool_text(l.enabled, "True"@, "False"@);
    assert(blk[3] =~= "Enabled"@ + seq!['='] + et);
    lemma_kv_line(s3, "Enabled"@, et);
    assert("Enabled"@ != "TableName"@) by { assert("Enabled"@.len() != "TableName"@.len()); }
    let l4 = LibrarySpec { enabled: l.enabled, ..new_table(l.table) };
    let s4 = with_libraries(s3, st.dbl.libraries.push(l4));
    assert(s3.dbl.libraries.update(i, LibrarySpec { enabled: crate::text::eq_ignore_ascii_case(et, "true"@), ..s3.dbl.libraries[i] }) =~= st.dbl.libraries.push(l4));
    assert(ini_kv(s3, "Enabled"@, et) == s4);
    // line 5
    let ut = bool_text(l.user_where, "1"@, "0"@);
    assert(blk[4] =~= "UserWhere"@ + seq!['='] + ut);
    lemma_kv_line(s4, "UserWhere"@, ut);
    assert("UserWhere"@ != "TableName"@) by { assert("UserWhere"@[0] != "TableName"@[0]); }
    assert("UserWhere"@ != "Enabled"@) by { assert("UserWhere"@.len() != "Enabled"@.len()); }
    let l5 = LibrarySpec { user_where: l.user_where, ..l4 };
    let s5 = with_libraries(s4, st.dbl.libraries.push(l5));
    assert(s4.dbl.libraries.update(i, LibrarySpec { user_where: ut == "1"@, ..s4.dbl.libraries[i] }) =~= st.dbl.libraries.push(l5));
    assert(ini_kv(s4, "UserWhere"@, ut) == s5);
    // line 6
    assert(blk[5] =~= "UserWhereText"@ + seq!['='] + l.user_where_text);
    lemma_kv_line(s5, "UserWhereText"@, l.user_where_text);
    assert("UserWhereText"@ != "TableName"@) by { assert("UserWhereText"@.len() != "TableName"@.len()); }
    assert("UserWhereText"@ != "Enabled"@) by { assert("UserWhereText"@.len() != "Enabled"@.len()); }
    assert("UserWhereText"@ != "UserWhere"@) by { assert("UserWhereText"@.len() != "UserWhere"@.len()); }
    let l6 = LibrarySpec { user_where_text: l.user_where_text, ..l5 };
    let s6 = with_libraries(s5, st.dbl.libraries.push(l6));
    assert(s5.dbl.libraries.update(i, LibrarySpec { user_where_text: l.user_where_text, ..s5.dbl.libraries[i] }) =~= st.dbl.libraries.push(l6));
    assert(ini_kv(s5, "UserWhereText"@, l.user_where_text) == s6);
    assert(l6 == bare(l));
    // the run over all six lines
    assert(blk.take(1).drop_last() =~= Seq::<Seq<char>>::empty());
    assert(blk.take(2).drop_last() =~= blk.take(1));
    assert(blk.take(3).drop_last() =~= blk.take(2));
    assert(blk.take(4).drop_last() =~= blk.take(3));
    assert(blk.take(5).drop_last() =~= blk.take(4));
    assert(blk.take(6).drop_last() =~= blk.take(5));
    assert(blk.take(6) =~= blk);
    lemma_ini_run_seq(st, blk.take(1));
    lemma_ini_run_seq(st, blk.take(2));
    lemma_ini_run_seq(st, blk.take(3));
    lemma_ini_run_seq(st, blk.take(4));
    lemma_ini_run_seq(st, blk.take(5));
    lemma_ini_run_seq(st, blk.take(6));
    assert(ini_run(st, blk) == s6);
}


pub proof fn lemma_tables_phase(st: IniState, libs: Seq<LibrarySpec>, k: int)
    requires
        0 <= k <= libs.len(),
        forall|i: int| 0 <= i < libs.len() ==> library_ok(#[trigger] libs[i]),
    ensures
        ini_run(st, table_lines(libs.take(k))).dbl == (DblSpec {
            libraries: st.dbl.libraries + libs.take(k).map_values(|l: LibrarySpec| bare(l)),
            ..st.dbl
        }),
    decreases k,
{
    if k == 0 {
        assert(libs.take(0) =~= Seq::<LibrarySpec>::empty());
        assert(st.dbl.libraries + libs.take(0).map_values(|l: LibrarySpec| bare(l)) =~= st.dbl.libraries);
    } else {
        lemma_tables_phase(st, libs, k - 1);
        assert(libs.take(k).drop_last() =~= libs.take(k - 1));
        assert(libs.take(k).last() == libs[k - 1]);
        let prev = table_lines(libs.take(k - 1));
        let blk = table_block(libs[k - 1], k as nat);
        assert(table_lines(libs.take(k)) == prev + blk);
        lemma_ini_run_append(st, prev, blk);
        lemma_table_block(ini_run(st, prev), libs[k - 1], k as nat);
        assert(st.dbl.libraries + libs.take(k).map_values(|l: LibrarySpec| bare(l)) =~= (st.dbl.libraries
            + libs.take(k - 1).map_values(|l: LibrarySpec| bare(l))).push(bare(libs[k - 1])));
    }
}

// ---------------------------------------------------------------------------
// Field maps
// ---------------------------------------------------------------------------

pub proof fn lemma_parse_u8_dec(m: u8)
    ensures
        parse_u8(dec(m as nat)) == Some(m),
{
    lemma_dec_digits(m as nat);
    assert(dec(m as nat)[0] != '+');
}

pub proof fn lemma_dec_clean(m: nat)
    ensures
        no_elem(dec(m), '|'),
        no_elem(dec(m), '\n'),
        no_elem(dec(m), '='),
        dec(m).len() > 0,
        !is_whitespace(dec(m).last()),
        !is_whitespace(dec(m)[0]),
{
    lemma_dec_digits(m);
    assert(dec(m).last() == dec(m)[dec(m).len() - 1]);
}

/// The settings read from the `Options=` value written for field `f`.
pub open spec fn options_of(t: Seq<char>, f: FieldSpec) -> OptionsSpec {
    OptionsSpec {
        column: f.column,
        table: t,
        parameter: f.parameter,
        field_type: if f.is_key { 0 } else { 1 },
        visible: f.visible_on_add,
        add_mode: f.add_mode,
        remove_mode: f.remove_mode,
        update_mode: f.update_mode,
    }
}

/// The `|`-separated parts of the `Options=` value written for `f`.
pub open spec fn option_parts(t: Seq<char>, f: FieldSpec) -> Seq<Seq<char>> {
    seq![
        "FieldName"@ + seq!['='] + (t + "."@ + f.column),
        "TableNameOnly"@ + seq!['='] + t,
        "FieldNameOnly"@ + seq!['='] + f.column,
        "FieldType"@ + seq!['='] + bool_text(f.is_key, "0"@, "1"@),
        "ParameterName"@ + seq!['='] + f.parameter,
        "VisibleOnAdd"@ + seq!['='] + bool_text(f.visible_on_add, "True"@, "False"@),
        "AddMode"@ + seq!['='] + dec(f.add_mode as nat),
        "RemoveMode"@ + seq!['='] + dec(f.remove_mode as nat),
        "UpdateMode"@ + seq!['='] + dec(f.update_mode as nat),
    ]
}

proof fn lemma_option_literals()
    ensures
        "FieldName="@ == "FieldName"@ + seq!['='],
        "|TableNameOnly="@ == seq!['|'] + "TableNameOnly"@ + seq!['='],
        "|FieldNameOnly="@ == seq!['|'] + "FieldNameOnly"@ + seq!['='],
        "|FieldType="@ == seq!['|'] + "FieldType"@ + seq!['='],
        "|ParameterName="@ == seq!['|'] + "ParameterName"@ + seq!['='],
        "|VisibleOnAdd="@ == seq!['|'] + "VisibleOnAdd"@ + seq!['='],
        "|AddMode="@ == seq!['|'] + "AddMode"@ + seq!['='],
        "|RemoveMode="@ == seq!['|'] + "RemoveMode"@ + seq!['='],
        "|UpdateMode="@ == seq!['|'] + "UpdateMode"@ + seq!['='],
{
    reveal_strlit("FieldName=");
    reveal_strlit("FieldName");
    reveal_strlit("|TableNameOnly=");
    reveal_strlit("TableNameOnly");
    reveal_strlit("|FieldNameOnly=");
    reveal_strlit("FieldNameOnly");
    reveal_strlit("|FieldType=");
    reveal_strlit("FieldType");
    reveal_strlit("|ParameterName=");
    reveal_strlit("ParameterName");
    reveal_strlit("|VisibleOnAdd=");
    reveal_strlit("VisibleOnAdd");
    reveal_strlit("|AddMode=");
    reveal_strlit("AddMode");
    reveal_strlit("|RemoveMode=");
    reveal_strlit("RemoveMode");
    reveal_strlit("|UpdateMode=");
    reveal_strlit("UpdateMode");
    assert("FieldName="@ =~= "FieldName"@ + seq!['=']);
    assert("|TableNameOnly="@ =~= seq!['|'] + "TableNameOnly"@ + seq!['=']);
    assert("|FieldNameOnly="@ =~= seq!['|'] + "FieldNameOnly"@ + seq!['=']);
    assert("|FieldType="@ =~= seq!['|'] + "FieldType"@ + seq!['=']);
    assert("|ParameterName="@ =~= seq!['|'] + "ParameterName"@ + seq!['=']);
    assert("|VisibleOnAdd="@ =~= seq!['|'] + "VisibleOnAdd"@ + seq!['=']);
    assert("|AddMode="@ =~= seq!['|'] + "AddMode"@ + seq!['=']);
    assert("|RemoveMode="@ =~= seq!['|'] + "RemoveMode"@ + seq!['=']);
    assert("|UpdateMode="@ =~= seq!['|'] + "UpdateMode"@ + seq!['=']);
}

proof fn lemma_join_sep_step<T>(ps: Seq<Seq<T>>, k: int, sep: T)
    requires
        1 <= k < ps.len(),
    ensures
        join_sep(ps.take(k + 1), sep) == join_sep(ps.take(k), sep).push(sep) + ps[k],
{
    assert(ps.take(k + 1).drop_last() =~= ps.take(k));
    assert(ps.take(k + 1).last() == ps[k]);
}

/// `a.push(x) + b` as plain concatenation.
proof fn lemma_push_concat<T>(a: Seq<T>, x: T, b: Seq<T>)
    ensures
        a.push(x) + b == a + (seq![x] + b),
{
    assert(a.push(x) + b =~= a + (seq![x] + b));
}

#[verifier::rlimit(60)]
proof fn lemma_options_join(t: Seq<char>, f: FieldSpec)
    ensures
        field_options(t, f) == join_sep(option_parts(t, f), '|'),
{
    lemma_option_literals();
    let ps = option_parts(t, f);
    assert(ps.take(1).len() == 1);
    assert(join_sep(ps.take(1), '|') == ps[0]);
    lemma_join_sep_step(ps, 1, '|');
    lemma_join_sep_step(ps, 2, '|');
    lemma_join_sep_step(ps, 3, '|');
    lemma_join_sep_step(ps, 4, '|');
    lemma_join_sep_step(ps, 5, '|');
    lemma_join_sep_step(ps, 6, '|');
    lemma_join_sep_step(ps, 7, '|');
    lemma_join_sep_step(ps, 8, '|');
    assert(ps.take(9) =~= ps);
    let j1 = ps[0];
    let j2 = j1 + (seq!['|'] + ps[1]);
    let j3 = j2 + (seq!['|'] + ps[2]);
    let j4 = j3 + (seq!['|'] + ps[3]);
    let j5 = j4 + (seq!['|'] + ps[4]);
    let j6 = j5 + (seq!['|'] + ps[5]);
    let j7 = j6 + (seq!['|'] + ps[6]);
    let j8 = j7 + (seq!['|'] + ps[7]);
    let j9 = j8 + (seq!['|'] + ps[8]);
    lemma_push_concat(j1, '|', ps[1]);
    lemma_push_concat(j2, '|', ps[2]);
    lemma_push_concat(j3, '|', ps[3]);
    lemma_push_concat(j4, '|', ps[4]);
    lemma_push_concat(j5, '|', ps[5]);
    lemma_push_concat(j6, '|', ps[6]);
    lemma_push_concat(j7, '|', ps[7]);
    lemma_push_concat(j8, '|', ps[8]);
    assert(join_sep(ps, '|') == j9);
    let c = f.column;
    assert(j1 =~= "FieldName="@ + t + "."@ + c);
    assert(j2 =~= "FieldName="@ + t + "."@ + c + "|TableNameOnly="@ + t);
    assert(j3 =~= "FieldName="@ + t + "."@ + c + "|TableNameOnly="@ + t + "|FieldNameOnly="@ + c);
    assert(j4 =~= "FieldName="@ + t + "."@ + c + "|TableNameOnly="@ + t + "|FieldNameOnly="@ + c
        + "|FieldType="@ + bool_text(f.is_key, "0"@, "1"@));
    assert(j5 =~= "FieldName="@ + t + "."@ + c + "|TableNameOnly="@ + t + "|FieldNameOnly="@ + c
        + "|FieldType="@ + bool_text(f.is_key, "0"@, "1"@) + "|ParameterName="@ + f.parameter);
    let x5 = "FieldName="@ + t + "."@ + c + "|TableNameOnly="@ + t + "|FieldNameOnly="@ + c
        + "|FieldType="@ + bool_text(f.is_key, "0"@, "1"@) + "|ParameterName="@ + f.parameter;
    assert(j6 =~= x5 + "|VisibleOnAdd="@ + bool_text(f.visible_on_add, "True"@, "False"@));
    let x6 = x5 + "|VisibleOnAdd="@ + bool_text(f.visible_on_add, "True"@, "False"@);
    assert(j7 =~= x6 + "|AddMode="@ + dec(f.add_mode as nat));
    let x7 = x6 + "|AddMode="@ + dec(f.add_mode as nat);
    assert(j8 =~= x7 + "|RemoveMode="@ + dec(f.remove_mode as nat));
    let x8 = x7 + "|RemoveMode="@ + dec(f.remove_mode as nat);
    assert(j9 =~= x8 + "|UpdateMode="@ + dec(f.update_mode as nat));
}

proof fn lemma_option_parts_no(t: Seq<char>, f: FieldSpec, x: char)
    requires
        x == '|' || x == '\n',
        no_elem(t, x),
        field_ok(f),
    ensures
        forall|i: int| 0 <= i < option_parts(t, f).len() ==> no_elem(#[trigger] option_parts(t, f)[i], x),
{
    reveal_strlit("FieldName");
    reveal_strlit("TableNameOnly");
    reveal_strlit("FieldNameOnly");
    reveal_strlit("FieldType");
    reveal_strlit("ParameterName");
    reveal_strlit("VisibleOnAdd");
    reveal_strlit("AddMode");
    reveal_strlit("RemoveMode");
    reveal_strlit("UpdateMode");
    reveal_strlit(".");
    reveal_strlit("True");
    reveal_strlit("False");
    reveal_strlit("0");
    reveal_strlit("1");
    lemma_dec_clean(f.add_mode as nat);
    lemma_dec_clean(f.remove_mode as nat);
    lemma_dec_clean(f.update_mode as nat);
    let ps = option_parts(t, f);
    let c = f.column;
    let p = f.parameter;
    let bt = bool_text(f.is_key, "0"@, "1"@);
    let vt = bool_text(f.visible_on_add, "True"@, "False"@);
    assert(no_elem(seq!['='], x));
    assert(no_elem("."@, x));
    assert(no_elem(bt, x));
    assert(no_elem(vt, x));
    lemma_no_elem_concat(t, "."@, x);
    lemma_no_elem_concat(t + "."@, c, x);
    assert forall|i: int| 0 <= i < ps.len() implies no_elem(#[trigger] ps[i], x) by {
        if i == 0 {
            lemma_no_elem_concat("FieldName"@, seq!['='], x);
            lemma_no_elem_concat("FieldName"@ + seq!['='], t + "."@ + c, x);
        } else if i == 1 {
            lemma_no_elem_concat("TableNameOnly"@, seq!['='], x);
            lemma_no_elem_concat("TableNameOnly"@ + seq!['='], t, x);
        } else if i == 2 {
            lemma_no_elem_concat("FieldNameOnly"@, seq!['='], x);
            lemma_no_elem_concat("FieldNameOnly"@ + seq!['='], c, x);
        } else if i == 3 {
            lemma_no_elem_concat("FieldType"@, seq!['='], x);
            lemma_no_elem_concat("FieldType"@ + seq!['='], bt, x);
        } else if i == 4 {
            lemma_no_elem_concat("ParameterName"@, seq!['='], x);
            lemma_no_elem_concat("ParameterName"@ + seq!['='], p, x);
        } else if i == 5 {
            lemma_no_elem_concat("VisibleOnAdd"@, seq!['='], x);
            lemma_no_elem_concat("VisibleOnAdd"@ + seq!['='], vt, x);
        } else if i == 6 {
            lemma_no_elem_concat("AddMode"@, seq!['='], x);
            lemma_no_elem_concat("AddMode"@ + seq!['='], dec(f.add_mode as nat), x);
        } else if i == 7 {
            lemma_no_elem_concat("RemoveMode"@, seq!['='], x);
            lemma_no_elem_concat("RemoveMode"@ + seq!['='], dec(f.remove_mode as nat), x);
        } else {
            lemma_no_elem_concat("UpdateMode"@, seq!['='], x);
            lemma_no_elem_concat("UpdateMode"@ + seq!['='], dec(f.update_mode as nat), x);
        }
    }
}

proof fn lemma_options_steps_a(t: Seq<char>, f: FieldSpec)
    ensures
        options_run(option_parts(t, f).take(5)) == (OptionsSpec {
            column: f.column,
            table: t,
            parameter: f.parameter,
            field_type: if f.is_key { 0 } else { 1 },
            ..options_init()
        }),
{
    reveal_strlit("FieldName");
    reveal_strlit("TableNameOnly");
    reveal_strlit("FieldNameOnly");
    reveal_strlit("FieldType");
    reveal_strlit("ParameterName");
    reveal_strlit("VisibleOnAdd");
    reveal_strlit("AddMode");
    reveal_strlit("RemoveMode");
    reveal_strlit("UpdateMode");
    reveal_strlit("0");
    reveal_strlit("1");
    let ps = option_parts(t, f);
    let bt = bool_text(f.is_key, "0"@, "1"@);
    lemma_split_once("FieldName"@, t + "."@ + f.column);
    lemma_split_once("TableNameOnly"@, t);
    lemma_split_once("FieldNameOnly"@, f.column);
    lemma_split_once("FieldType"@, bt);
    lemma_split_once("ParameterName"@, f.parameter);
    assert("FieldName"@ != "FieldType"@) by { assert("FieldName"@[5] != "FieldType"@[5]); }
    assert("TableNameOnly"@ != "FieldNameOnly"@) by { assert("TableNameOnly"@[0] != "FieldNameOnly"@[0]); }
    assert("ParameterName"@ != "FieldNameOnly"@) by { assert("ParameterName"@[0] != "FieldNameOnly"@[0]); }
    assert("ParameterName"@ != "TableNameOnly"@) by { assert("ParameterName"@[0] != "TableNameOnly"@[0]); }
    assert(parse_u8(bt) == Some(if f.is_key { 0u8 } else { 1u8 })) by {
        lemma_parse_u8_dec(0);
        lemma_parse_u8_dec(1);
        assert(dec(0) =~= "0"@);
        assert(dec(1) =~= "1"@);
    }
    let o0 = options_init();
    let o1 = options_step(o0, ps[0]);
    assert(o1 == o0);
    let o2 = options_step(o1, ps[1]);
    assert(o2 == OptionsSpec { table: t, ..o1 });
    let o3 = options_step(o2, ps[2]);
    assert(o3 == OptionsSpec { column: f.column, ..o2 });
    let o4 = options_step(o3, ps[3]);
    assert(o4 == OptionsSpec { field_type: if f.is_key { 0u8 } else { 1u8 }, ..o3 });
    let o5 = options_step(o4, ps[4]);
    assert(o5 == OptionsSpec { parameter: f.parameter, ..o4 });
    assert(ps.take(0) =~= Seq::<Seq<char>>::empty());
    assert(ps.take(1).drop_last() =~= ps.take(0));
    assert(ps.take(2).drop_last() =~= ps.take(1));
    assert(ps.take(3).drop_last() =~= ps.take(2));
    assert(ps.take(4).drop_last() =~= ps.take(3));
    assert(ps.take(5).drop_last() =~= ps.take(4));
    assert(ps.take(1).last() == ps[0]);
    assert(ps.take(2).last() == ps[1]);
    assert(ps.take(3).last() == ps[2]);
    assert(ps.take(4).last() == ps[3]);
    assert(ps.take(5).last() == ps[4]);
    assert(options_run(ps.take(0)) == o0);
    assert(options_run(ps.take(1)) == o1);
    assert(options_run(ps.take(2)) == o2);
    assert(options_run(ps.take(3)) == o3);
    assert(options_run(ps.take(4)) == o4);
    assert(options_run(ps.take(5)) == o5);
}

proof fn lemma_options_steps_b(t: Seq<char>, f: FieldSpec)
    ensures
        options_run(option_parts(t, f)) == options_of(t, f),
{
    lemma_options_steps_a(t, f);
    reveal_strlit("FieldNameOnly");
    reveal_strlit("TableNameOnly");
    reveal_strlit("ParameterName");
    reveal_strlit("FieldType");
    reveal_strlit("VisibleOnAdd");
    reveal_strlit("AddMode");
    reveal_strlit("RemoveMode");
    reveal_strlit("UpdateMode");
    reveal_strlit("True");
    reveal_strlit("False");
    reveal_strlit("true");
    lemma_true_false();
    lemma_parse_u8_dec(f.add_mode);
    lemma_parse_u8_dec(f.remove_mode);
    lemma_parse_u8_dec(f.update_mode);
    let ps = option_parts(t, f);
    let vt = bool_text(f.visible_on_add, "True"@, "False"@);
    lemma_split_once("VisibleOnAdd"@, vt);
    lemma_split_once("AddMode"@, dec(f.add_mode as nat));
    lemma_split_once("RemoveMode"@, dec(f.remove_mode as nat));
    lemma_split_once("UpdateMode"@, dec(f.update_mode as nat));
    assert("UpdateMode"@ != "RemoveMode"@) by { assert("UpdateMode"@[0] != "RemoveMode"@[0]); }
    let o5 = options_run(ps.take(5));
    let o6 = options_step(o5, ps[5]);
    assert(o6 == OptionsSpec { visible: f.visible_on_add, ..o5 });
    let o7 = options_step(o6, ps[6]);
    assert(o7 == OptionsSpec { add_mode: f.add_mode, ..o6 });
    let o8 = options_step(o7, ps[7]);
    assert(o8 == OptionsSpec { remove_mode: f.remove_mode, ..o7 });
    let o9 = options_step(o8, ps[8]);
    assert(o9 == OptionsSpec { update_mode: f.update_mode, ..o8 });
    assert(ps.take(6).drop_last() =~= ps.take(5));
    assert(ps.take(7).drop_last() =~= ps.take(6));
    assert(ps.take(8).drop_last() =~= ps.take(7));
    assert(ps.take(9).drop_last() =~= ps.take(8));
    assert(ps.take(9) =~= ps);
    assert(options_run(ps.take(6)) == o6);
    assert(options_run(ps.take(7)) == o7);
    assert(options_run(ps.take(8)) == o8);
    assert(options_run(ps) == o9);
}

pub proof fn lemma_parse_field_options(t: Seq<char>, f: FieldSpec)
    requires
        no_elem(t, '|'),
        field_ok(f),
    ensures
        parse_options(field_options(t, f)) == options_of(t, f),
{
    lemma_options_join(t, f);
    lemma_option_parts_no(t, f, '|');
    lemma_split_join(option_parts(t, f), '|');
    lemma_options_steps_b(t, f);
}


pub proof fn lemma_join_sep_no<T>(ps: Seq<Seq<T>>, sep: T, x: T)
    requires
        sep != x,
        forall|i: int| 0 <= i < ps.len() ==> no_elem(#[trigger] ps[i], x),
    ensures
        no_elem(join_sep(ps, sep), x),
    decreases ps.len(),
{
    if ps.len() > 1 {
        lemma_join_sep_no(ps.drop_last(), sep, x);
        assert(ps.drop_last().len() == ps.len() - 1);
        assert forall|i: int| 0 <= i < ps.drop_last().len() implies no_elem(#[trigger] ps.drop_last()[i], x) by {
            assert(ps.drop_last()[i] == ps[i]);
        }
        assert(no_elem(seq![sep], x));
        lemma_no_elem_concat(join_sep(ps.drop_last(), sep), seq![sep], x);
        assert(join_sep(ps.drop_last(), sep).push(sep) =~= join_sep(ps.drop_last(), sep) + seq![sep]);
        assert(no_elem(ps.last(), x));
        lemma_no_elem_concat(join_sep(ps.drop_last(), sep).push(sep), ps.last(), x);
    } else if ps.len() == 1 {
        assert(no_elem(ps[0], x));
    }
}

/// The `Options=` value is one trimmed line.
pub proof fn lemma_options_line(t: Seq<char>, f: FieldSpec)
    requires
        no_elem(t, '|'),
        no_elem(t, '\n'),
        field_ok(f),
    ensures
        no_elem(field_options(t, f), '\n'),
        field_options(t, f).len() > 0,
        !is_whitespace(field_options(t, f)[0]),
        !is_whitespace(field_options(t, f).last()),
{
    lemma_options_join(t, f);
    lemma_option_parts_no(t, f, '\n');
    lemma_join_sep_no(option_parts(t, f), '|', '\n');
    reveal_strlit("FieldName=");
    lemma_dec_clean(f.update_mode as nat);
    let v = field_options(t, f);
    let d = dec(f.update_mode as nat);
    assert(v.last() == d.last());
    assert(v[0] == 'F');
}

/// Adds a field to the library at `i`.
pub open spec fn add_field(libs: Seq<LibrarySpec>, i: int, f: FieldSpec) -> Seq<LibrarySpec> {
    libs.update(i, LibrarySpec { fields: libs[i].fields.push(f), ..libs[i] })
}

/// Only the library at `i` has table `t`.
pub open spec fn table_at(libs: Seq<LibrarySpec>, i: int, t: Seq<char>) -> bool {
    &&& 0 <= i < libs.len()
    &&& libs[i].table == t
    &&& forall|x: int| 0 <= x < libs.len() && x != i ==> (#[trigger] libs[x]).table != t
}

pub proof fn lemma_field_block(st: IniState, i: int, t: Seq<char>, f: FieldSpec, n: nat)
    requires
        table_at(st.dbl.libraries, i, t),
        no_elem(t, '|'),
        no_elem(t, '\n'),
        !is_internal_table_spec(t),
        field_ok(f),
    ensures
        ini_run(st, seq!["[FieldMap"@ + dec(n) + "]"@, "Options="@ + field_options(t, f)]).dbl
            == (DblSpec { libraries: add_field(st.dbl.libraries, i, f), ..st.dbl }),
{
    reveal_strlit("[FieldMap");
    reveal_strlit("FieldMap");
    reveal_strlit("]");
    reveal_strlit("Options=");
    reveal_strlit("Options");
    reveal_strlit("DatabaseLinks");
    reveal_strlit("Table");
    let sec = "FieldMap"@ + dec(n);
    let h = "[FieldMap"@ + dec(n) + "]"@;
    let v = field_options(t, f);
    let o = "Options="@ + v;
    assert(h =~= seq!['['] + sec + seq![']']);
    lemma_section_line(st, sec);
    let s1 = IniState { section: sec, last: None, ..st };
    lemma_options_line(t, f);
    assert(o =~= "Options"@ + seq!['='] + v);
    lemma_kv_line(s1, "Options"@, v);
    assert(sec != "DatabaseLinks"@) by { assert(sec[0] != "DatabaseLinks"@[0]); }
    assert(!has_prefix(sec, "Table"@)) by { assert(sec.take(5)[0] != "Table"@[0]); }
    assert(has_prefix(sec, "FieldMap"@)) by { assert(sec.take(8) =~= "FieldMap"@); }
    lemma_parse_field_options(t, f);
    let libs = st.dbl.libraries;
    assert forall|x: int| 0 <= x < i implies !table_is(t)(#[trigger] libs[x]) by {}
    lemma_find_first_at(libs, table_is(t), i);
    assert(options_field(options_of(t, f)) == f);
    let sq = seq![h, o];
    assert(sq.drop_last() =~= seq![h]);
    assert(seq![h].drop_last() =~= Seq::<Seq<char>>::empty());
    lemma_ini_run_seq(st, seq![h]);
    lemma_ini_run_seq(st, sq);
}

pub proof fn lemma_field_blocks(st: IniState, i: int, t: Seq<char>, fs: Seq<FieldSpec>, first: nat, j: int)
    requires
        table_at(st.dbl.libraries, i, t),
        no_elem(t, '|'),
        no_elem(t, '\n'),
        !is_internal_table_spec(t),
        0 <= j <= fs.len(),
        forall|x: int| 0 <= x < fs.len() ==> field_ok(#[trigger] fs[x]),
    ensures
        ini_run(st, field_blocks(t, fs.take(j), first)).dbl == (DblSpec {
            libraries: st.dbl.libraries.update(i, LibrarySpec { fields: st.dbl.libraries[i].fields + fs.take(j), ..st.dbl.libraries[i] }),
            ..st.dbl
        }),
    decreases j,
{
    let libs = st.dbl.libraries;
    if j == 0 {
        assert(fs.take(0) =~= Seq::<FieldSpec>::empty());
        assert(libs[i].fields + fs.take(0) =~= libs[i].fields);
        assert(libs.update(i, LibrarySpec { fields: libs[i].fields + fs.take(0), ..libs[i] }) =~= libs);
    } else {
        lemma_field_blocks(st, i, t, fs, first, j - 1);
        assert(fs.take(j).drop_last() =~= fs.take(j - 1));
        assert(fs.take(j).last() == fs[j - 1]);
        let prev = field_blocks(t, fs.take(j - 1), first);
        let two = seq![
            "[FieldMap"@ + dec((first + j - 1) as nat) + "]"@,
            "Options="@ + field_options(t, fs[j - 1]),
        ];
        assert(field_blocks(t, fs.take(j), first) == prev + two);
        lemma_ini_run_append(st, prev, two);
        let mid = ini_run(st, prev);
        let libs1 = libs.update(i, LibrarySpec { fields: libs[i].fields + fs.take(j - 1), ..libs[i] });
        assert(mid.dbl.libraries == libs1);
        assert(table_at(libs1, i, t)) by {
            assert forall|x: int| 0 <= x < libs1.len() && x != i implies (#[trigger] libs1[x]).table != t by {
                assert(libs1[x] == libs[x]);
            }
        }
        lemma_field_block(mid, i, t, fs[j - 1], (first + j - 1) as nat);
        assert(libs1[i].fields.push(fs[j - 1]) =~= libs[i].fields + fs.take(j));
        assert(add_field(libs1, i, fs[j - 1]) =~= libs.update(i, LibrarySpec { fields: libs[i].fields + fs.take(j), ..libs[i] }));
    }
}


/// Libraries with the first `k` read back in full and the rest bare.
pub open spec fn filled(libs: Seq<LibrarySpec>, k: int) -> Seq<LibrarySpec> {
    Seq::new(libs.len(), |x: int| if x < k { library_read(libs[x]) } else { bare(libs[x]) })
}

pub open spec fn distinct_tables(libs: Seq<LibrarySpec>) -> bool {
    forall|i: int, j: int| 0 <= i < j < libs.len() ==> (#[trigger] libs[i]).table != (#[trigger] libs[j]).table
}

pub proof fn lemma_fieldmaps_phase(st: IniState, libs: Seq<LibrarySpec>, k: int)
    requires
        st.dbl.libraries == filled(libs, 0),
        forall|i: int| 0 <= i < libs.len() ==> library_ok(#[trigger] libs[i]),
        distinct_tables(libs),
        0 <= k <= libs.len(),
    ensures
        ini_run(st, fieldmap_lines(libs.take(k))).dbl == (DblSpec { libraries: filled(libs, k), ..st.dbl }),
    decreases k,
{
    if k == 0 {
        assert(libs.take(0) =~= Seq::<LibrarySpec>::empty());
    } else {
        lemma_fieldmaps_phase(st, libs, k - 1);
        assert(libs.take(k).drop_last() =~= libs.take(k - 1));
        assert(libs.take(k).last() == libs[k - 1]);
        let l = libs[k - 1];
        let prev = fieldmap_lines(libs.take(k - 1));
        let blocks = field_blocks(l.table, l.fields, total_fields(libs.take(k - 1)) + 1);
        assert(fieldmap_lines(libs.take(k)) == prev + blocks);
        lemma_ini_run_append(st, prev, blocks);
        let mid = ini_run(st, prev);
        let f1 = filled(libs, k - 1);
        assert(mid.dbl.libraries == f1);
        assert(library_ok(l));
        assert(table_at(f1, k - 1, l.table)) by {
            assert forall|x: int| 0 <= x < f1.len() && x != k - 1 implies (#[trigger] f1[x]).table != l.table by {
                assert(f1[x].table == libs[x].table);
                if x < k - 1 {
                    assert(libs[x].table != libs[k - 1].table);
                } else {
                    assert(libs[k - 1].table != libs[x].table);
                }
            }
        }
        assert(forall|x: int| 0 <= x < l.fields.len() ==> field_ok(#[trigger] l.fields[x]));
        lemma_field_blocks(mid, k - 1, l.table, l.fields, total_fields(libs.take(k - 1)) + 1, l.fields.len() as int);
        assert(l.fields.take(l.fields.len() as int) =~= l.fields);
        assert(f1[k - 1].fields + l.fields =~= l.fields);
        assert(f1.update(k - 1, LibrarySpec { fields: f1[k - 1].fields + l.fields, ..f1[k - 1] }) =~= filled(libs, k));
    }
}

// ---------------------------------------------------------------------------
// Every written line is one line
// ---------------------------------------------------------------------------

pub open spec fn lines_ok(ls: Seq<Seq<char>>) -> bool {
    forall|i: int| 0 <= i < ls.len() ==> no_elem(#[trigger] ls[i], '\n')
}

pub proof fn lemma_lines_ok_append(a: Seq<Seq<char>>, b: Seq<Seq<char>>)
    requires
        lines_ok(a),
        lines_ok(b),
    ensures
        lines_ok(a + b),
{
    assert forall|i: int| 0 <= i < (a + b).len() implies no_elem(#[trigger] (a + b)[i], '\n') by {
        if i < a.len() {
            assert((a + b)[i] == a[i]);
        } else {
            assert((a + b)[i] == b[i - a.len()]);
        }
    }
}

pub proof fn lemma_no_nl3(a: Seq<char>, b: Seq<char>, c: Seq<char>)
    requires
        no_elem(a, '\n'),
        no_elem(b, '\n'),
        no_elem(c, '\n'),
    ensures
        no_elem(a + b + c, '\n'),
{
    lemma_no_elem_concat(a, b, '\n');
    lemma_no_elem_concat(a + b, c, '\n');
}

pub proof fn lemma_link_lines_ok(links: Seq<(Seq<char>, Seq<char>)>, cs: Seq<char>)
    requires
        clean(cs),
        forall|i: int| 0 <= i < links.len() ==> link_ok(#[trigger] links[i]),
    ensures
        lines_ok(link_lines(links, cs)),
{
    reveal_strlit("=");
    assert forall|i: int| 0 <= i < link_lines(links, cs).len() implies no_elem(#[trigger] link_lines(links, cs)[i], '\n') by {
        let p = links[i];
        assert(link_ok(p));
        let v = if p.0 == "ConnectionString"@ { cs } else { p.1 };
        lemma_no_nl3(p.0, "="@, v);
    }
}

pub proof fn lemma_table_lines_ok(libs: Seq<LibrarySpec>)
    requires
        forall|i: int| 0 <= i < libs.len() ==> library_ok(#[trigger] libs[i]),
    ensures
        lines_ok(table_lines(libs)),
    decreases libs.len(),
{
    if libs.len() > 0 {
        assert forall|i: int| 0 <= i < libs.drop_last().len() implies library_ok(#[trigger] libs.drop_last()[i]) by {
            assert(libs.drop_last()[i] == libs[i]);
        }
        lemma_table_lines_ok(libs.drop_last());
        let l = libs.last();
        assert(library_ok(l));
        let n = libs.len();
        reveal_strlit("[Table");
        reveal_strlit("]");
        reveal_strlit("SchemaName=");
        reveal_strlit("TableName=");
        reveal_strlit("Enabled=");
        reveal_strlit("UserWhere=");
        reveal_strlit("UserWhereText=");
        reveal_strlit("True");
        reveal_strlit("False");
        reveal_strlit("1");
        reveal_strlit("0");
        lemma_dec_clean(n);
        let blk = table_block(l, n);
        lemma_no_nl3("[Table"@, dec(n), "]"@);
        lemma_no_elem_concat("TableName="@, l.table, '\n');
        lemma_no_elem_concat("Enabled="@, bool_text(l.enabled, "True"@, "False"@), '\n');
        lemma_no_elem_concat("UserWhere="@, bool_text(l.user_where, "1"@, "0"@), '\n');
        lemma_no_elem_concat("UserWhereText="@, l.user_where_text, '\n');
        assert(lines_ok(blk));
        lemma_lines_ok_append(table_lines(libs.drop_last()), blk);
    }
}

pub proof fn lemma_field_blocks_ok(t: Seq<char>, fs: Seq<FieldSpec>, first: nat)
    requires
        no_elem(t, '|'),
        no_elem(t, '\n'),
        forall|x: int| 0 <= x < fs.len() ==> field_ok(#[trigger] fs[x]),
    ensures
        lines_ok(field_blocks(t, fs, first)),
    decreases fs.len(),
{
    if fs.len() > 0 {
        assert forall|x: int| 0 <= x < fs.drop_last().len() implies field_ok(#[trigger] fs.drop_last()[x]) by {
            assert(fs.drop_last()[x] == fs[x]);
        }
        lemma_field_blocks_ok(t, fs.drop_last(), first);
        reveal_strlit("[FieldMap");
        reveal_strlit("]");
        reveal_strlit("Options=");
        let n = (first + fs.len() - 1) as nat;
        lemma_dec_clean(n);
        lemma_no_nl3("[FieldMap"@, dec(n), "]"@);
        assert(field_ok(fs.last()));
        lemma_options_line(t, fs.last());
        lemma_no_elem_concat("Options="@, field_options(t, fs.last()), '\n');
        let two = seq!["[FieldMap"@ + dec(n) + "]"@, "Options="@ + field_options(t, fs.last())];
        assert(lines_ok(two));
        lemma_lines_ok_append(field_blocks(t, fs.drop_last(), first), two);
    }
}

pub proof fn lemma_fieldmap_lines_ok(libs: Seq<LibrarySpec>)
    requires
        forall|i: int| 0 <= i < libs.len() ==> library_ok(#[trigger] libs[i]),
    ensures
        lines_ok(fieldmap_lines(libs)),
    decreases libs.len(),
{
    if libs.len() > 0 {
        assert forall|i: int| 0 <= i < libs.drop_last().len() implies library_ok(#[trigger] libs.drop_last()[i]) by {
            assert(libs.drop_last()[i] == libs[i]);
        }
        lemma_fieldmap_lines_ok(libs.drop_last());
        let l = libs.last();
        assert(library_ok(l));
        lemma_field_blocks_ok(l.table, l.fields, total_fields(libs.drop_last()) + 1);
        lemma_lines_ok_append(fieldmap_lines(libs.drop_last()), field_blocks(l.table, l.fields, total_fields(libs.drop_last()) + 1));
    }
}


// ---------------------------------------------------------------------------
// The round trip
// ---------------------------------------------------------------------------

pub open spec fn read_all(libs: Seq<LibrarySpec>) -> Seq<LibrarySpec> {
    libs.map_values(|l: LibrarySpec| library_read(l))
}

pub proof fn lemma_read_all_drop_last(libs: Seq<LibrarySpec>)
    requires
        libs.len() > 0,
    ensures
        read_all(libs).drop_last() == read_all(libs.drop_last()),
        read_all(libs).last() == library_read(libs.last()),
    decreases libs.len(),
{
    assert(read_all(libs).drop_last() =~= read_all(libs.drop_last()));
    if libs.len() > 1 {
        lemma_read_all_drop_last(libs.drop_last());
    } else {
        assert(read_all(libs.drop_last()) =~= Seq::<LibrarySpec>::empty());
    }
}

pub proof fn lemma_written_lines_same(libs: Seq<LibrarySpec>)
    ensures
        table_lines(read_all(libs)) == table_lines(libs),
        fieldmap_lines(read_all(libs)) == fieldmap_lines(libs),
        total_fields(read_all(libs)) == total_fields(libs),
    decreases libs.len(),
{
    if libs.len() == 0 {
        assert(read_all(libs) =~= Seq::<LibrarySpec>::empty());
    } else {
        lemma_read_all_drop_last(libs);
        lemma_written_lines_same(libs.drop_last());
        assert(table_block(library_read(libs.last()), libs.len()) == table_block(libs.last(), libs.len()));
    }
}

pub proof fn lemma_written_links_same(links: Seq<(Seq<char>, Seq<char>)>, cs: Seq<char>)
    ensures
        link_lines(links_written(links, cs), cs_read(links, cs)) == link_lines(links, cs),
{
    assert forall|i: int| 0 <= i < links.len() implies #[trigger] link_lines(links_written(links, cs), cs_read(links, cs))[i]
        == link_lines(links, cs)[i] by {
        if is_cs_key(links[i].0) {
            assert(exists|j: int| 0 <= j < links.len() && is_cs_key(#[trigger] links[j].0));
        }
    }
    assert(link_lines(links_written(links, cs), cs_read(links, cs)) =~= link_lines(links, cs));
}

proof fn lemma_round_trip_clean(d: DblSpec)
    requires
        canonical(d),
        clean(d.connection_string),
    ensures
        from_ini_spec(ini_text(d)) == normalize(d),
        ini_text(normalize(d)) == ini_text(d),
        ini_text(from_ini_spec(ini_text(d))) == ini_text(d),
{
    let cs = d.connection_string;
    let links = d.database_links;
    let libs = d.libraries;
    let hdr = seq!["[OutputDatabaseLinkFile]"@, "Version=1.1"@, "[DatabaseLinks]"@];
    let ll = link_lines(links, cs);
    let tl = table_lines(libs);
    let fl = fieldmap_lines(libs);
    let lines = ini_lines(d);
    assert(lines == hdr + ll + tl + fl);
    // the text splits back into its lines
    reveal_strlit("[OutputDatabaseLinkFile]");
    reveal_strlit("Version=1.1");
    reveal_strlit("[DatabaseLinks]");
    assert(lines_ok(hdr));
    lemma_link_lines_ok(links, cs);
    lemma_table_lines_ok(libs);
    lemma_fieldmap_lines_ok(libs);
    lemma_lines_ok_append(hdr, ll);
    lemma_lines_ok_append(hdr + ll, tl);
    lemma_lines_ok_append(hdr + ll + tl, fl);
    lemma_split_join_lines(lines);
    // the trailing empty piece changes nothing
    lemma_ini_run_push(ini_init(), lines, Seq::empty());
    assert(crate::text::trim_seq(Seq::<char>::empty()).len() == 0);
    // phase by phase
    lemma_ini_run_append(ini_init(), hdr, ll);
    lemma_ini_run_append(ini_init(), hdr + ll, tl);
    lemma_ini_run_append(ini_init(), hdr + ll + tl, fl);
    lemma_header(cs);
    lemma_links_phase(links, cs, links.len() as int);
    assert(links.take(links.len() as int) =~= links);
    let s2 = links_state(links, cs);
    assert(ini_run(ini_init(), hdr + ll) == s2);
    lemma_tables_phase(s2, libs, libs.len() as int);
    assert(libs.take(libs.len() as int) =~= libs);
    let s3 = ini_run(s2, tl);
    assert(s3.dbl.libraries =~= filled(libs, 0));
    lemma_fieldmaps_phase(s3, libs, libs.len() as int);
    assert(filled(libs, libs.len() as int) =~= read_all(libs));
    assert(ini_run(ini_init(), lines).dbl =~= normalize(d));
    // writing what was read gives the same lines
    lemma_written_lines_same(libs);
    lemma_written_links_same(links, cs);
    assert(ini_lines(normalize(d)) =~= lines);
}


/// Reading back the `.DbLib` text written for a document the format can
/// carry gives that document as the format stores it (library names
/// become table names, `ConnectionString` links carry the connection
/// string); and the text written for what was read is the same text, so a
/// file this library wrote is rewritten byte for byte.
pub proof fn ini_round_trip(d: DblSpec)
    requires
        canonical(d),
    ensures
        from_ini_spec(ini_text(d)) == normalize(d),
        ini_text(normalize(d)) == ini_text(d),
        ini_text(from_ini_spec(ini_text(d))) == ini_text(d),
{
    if has_cs_link(d.database_links) {
        lemma_round_trip_clean(d);
    } else {
        // no link writes the connection string, so the text is that of the
        // document without one
        let e = DblSpec { connection_string: Seq::empty(), ..d };
        let links = d.database_links;
        assert forall|i: int| 0 <= i < links.len() implies !is_cs_key(#[trigger] links[i].0) by {}
        assert(link_lines(links, d.connection_string) =~= link_lines(links, Seq::empty()));
        assert(ini_lines(e) =~= ini_lines(d));
        assert(links_written(links, d.connection_string) =~= links_written(links, Seq::empty()));
        assert(normalize(e) =~= normalize(d));
        assert(canonical(e));
        lemma_round_trip_clean(e);
    }
}

// ---------------------------------------------------------------------------
// Internal tables
// ---------------------------------------------------------------------------

pub open spec fn reading_ok(st: IniState) -> bool {
    &&& forall|i: int|
        0 <= i < st.dbl.libraries.len() ==> !is_internal_table_spec(
            (#[trigger] st.dbl.libraries[i]).table,
        ) && st.dbl.libraries[i].name == st.dbl.libraries[i].table
    &&& st.last matches Some(i) ==> 0 <= i < st.dbl.libraries.len()
}

proof fn lemma_step_reading_ok(st: IniState, raw: Seq<char>)
    requires
        reading_ok(st),
    ensures
        reading_ok(ini_step(st, raw)),
{
    let line = crate::text::trim_seq(raw);
    if line.len() > 0 && !(line[0] == '[' && line.last() == ']') {
        if let Some((k0, v0)) = split_once_eq(line) {
            let k = crate::text::trim_seq(k0);
            let v = crate::text::trim_seq(v0);
            let libs = st.dbl.libraries;
            if st.section != "DatabaseLinks"@ && crate::text::has_prefix(st.section, "Table"@) {
                let r = table_step(st, k, v);
                assert forall|i: int| 0 <= i < r.dbl.libraries.len() implies !is_internal_table_spec(
                    (#[trigger] r.dbl.libraries[i]).table,
                ) && r.dbl.libraries[i].name == r.dbl.libraries[i].table by {
                    if i < libs.len() {
                        assert(r.dbl.libraries[i].table == libs[i].table);
                        assert(r.dbl.libraries[i].name == libs[i].name);
                    }
                }
            } else if st.section != "DatabaseLinks"@ && crate::text::has_prefix(st.section, "FieldMap"@)
                && k == "Options"@ {
                let o = parse_options(v);
                crate::text::lemma_find_first(libs, table_is(o.table));
                let r = fieldmap_step(st, v);
                assert forall|i: int| 0 <= i < r.dbl.libraries.len() implies !is_internal_table_spec(
                    (#[trigger] r.dbl.libraries[i]).table,
                ) && r.dbl.libraries[i].name == r.dbl.libraries[i].table by {
                    assert(r.dbl.libraries[i].table == libs[i].table);
                    assert(r.dbl.libraries[i].name == libs[i].name);
                }
            }
        }
    }
}

proof fn lemma_run_reading_ok(st: IniState, lines: Seq<Seq<char>>)
    requires
        reading_ok(st),
    ensures
        reading_ok(ini_run(st, lines)),
    decreases lines.len(),
{
    if lines.len() > 0 {
        lemma_run_reading_ok(st, lines.drop_last());
        lemma_step_reading_ok(ini_run(st, lines.drop_last()), lines.last());
    }
}

/// Reading a `.DbLib` text never yields a library on one of the database's
/// internal tables, and names every library it yields after its table,
/// whatever the text holds.
pub proof fn read_skips_internal_tables(content: Seq<char>)
    ensures
        forall|i: int|
            0 <= i < from_ini_spec(content).libraries.len() ==> !is_internal_table_spec(
                (#[trigger] from_ini_spec(content).libraries[i]).table,
            ) && from_ini_spec(content).libraries[i].name == from_ini_spec(content).libraries[i].table,
{
    lemma_run_reading_ok(ini_init(), crate::text::split_seq(content, '\n'));
}

/// In a `[TableN]` section, a `TableName` that names one of the database's
/// internal tables adds no library, and every later key of that section
/// other than another `TableName` leaves the reader's state as it is, so
/// it changes no library.
pub proof fn internal_table_section_is_ignored(st: IniState, t: Seq<char>, k: Seq<char>, v: Seq<char>)
    requires
        has_prefix(st.section, "Table"@),
        is_internal_table_spec(t),
        k != "TableName"@,
    ensures
        ini_kv(st, "TableName"@, t).dbl == st.dbl,
        ini_kv(st, "TableName"@, t).section == st.section,
        ini_kv(ini_kv(st, "TableName"@, t), k, v) == ini_kv(st, "TableName"@, t),
{
    reveal_strlit("Table");
    reveal_strlit("DatabaseLinks");
    assert(st.section != "DatabaseLinks"@) by {
        assert(st.section[0] == "Table"@[0]);
        assert("DatabaseLinks"@[0] != "Table"@[0]);
    }
}

} // verus!
