//! File-system path text, with the Windows conventions the libraries are
//! kept under: both `\` and `/` separate components, `X:\` and `\\server`
//! start absolute paths, and joins insert `\`.

use vstd::prelude::*;
use crate::text::{chars_of, string_from_chars, string_from_range, trim_chars, trim_seq, push_range};

verus! {

broadcast use vstd::string::group_string_axioms;

pub open spec fn is_sep(c: char) -> bool {
    c == '\\' || c == '/'
}

fn char_is_sep(c: char) -> (r: bool)
    ensures
        r == is_sep(c),
{
    c == '\\' || c == '/'
}

/// Index of the last element satisfying `p`, or -1.
pub open spec fn last_index<T>(s: Seq<T>, p: spec_fn(T) -> bool) -> int
    decreases s.len(),
{
    if s.len() == 0 {
        -1
    } else if p(s.last()) {
        s.len() - 1
    } else {
        last_index(s.drop_last(), p)
    }
}

pub proof fn lemma_last_index<T>(s: Seq<T>, p: spec_fn(T) -> bool)
    ensures
        -1 <= last_index(s, p) < s.len(),
        last_index(s, p) >= 0 ==> p(s[last_index(s, p)]),
        forall|j: int| last_index(s, p) < j < s.len() ==> !p(#[trigger] s[j]),
    decreases s.len(),
{
    if s.len() > 0 && !p(s.last()) {
        lemma_last_index(s.drop_last(), p);
        assert forall|j: int| last_index(s, p) < j < s.len() implies !p(#[trigger] s[j]) by {
            if j < s.len() - 1 {
                assert(s.drop_last()[j] == s[j]);
            }
        }
    }
}

/// `last_index` over `v[..end]`, executable.
fn rfind(v: &[char], end: usize, sep_not_dot: bool) -> (r: Option<usize>)
    requires
        end <= v@.len(),
    ensures
        (match r {
            Some(i) => i as int,
            None => -1,
        }) == if sep_not_dot {
            last_index(v@.take(end as int), |c: char| is_sep(c))
        } else {
            last_index(v@.take(end as int), |c: char| c == '.')
        },
{
    let mut i: usize = end;
    while i > 0
        invariant
            i <= end <= v@.len(),
            (if sep_not_dot {
                last_index(v@.take(end as int), |c: char| is_sep(c))
            } else {
                last_index(v@.take(end as int), |c: char| c == '.')
            }) == (if sep_not_dot {
                last_index(v@.take(i as int), |c: char| is_sep(c))
            } else {
                last_index(v@.take(i as int), |c: char| c == '.')
            }),
        decreases i,
    {
        let c = v[i - 1];
        assert(v@.take(i as int).last() == c);
        assert(v@.take(i as int).drop_last() =~= v@.take(i - 1));
        let hit = if sep_not_dot {
            char_is_sep(c)
        } else {
            c == '.'
        };
        if hit {
            return Some(i - 1);
        }
        i -= 1;
    }
    None
}

/// Drops trailing separators and trailing `.` components, which do not
/// name a file.
pub open spec fn trim_tail(p: Seq<char>) -> Seq<char>
    decreases p.len(),
{
    if p.len() > 0 && is_sep(p.last()) {
        trim_tail(p.drop_last())
    } else if p.len() > 0 && p.last() == '.' && (p.len() == 1 || is_sep(p[p.len() - 2])) {
        trim_tail(p.drop_last())
    } else {
        p
    }
}

fn trim_tail_len(v: &[char]) -> (n: usize)
    ensures
        n <= v@.len(),
        v@.take(n as int) == trim_tail(v@),
{
    let mut n: usize = v.len();
    assert(v@.take(n as int) =~= v@);
    while n > 0 && (char_is_sep(v[n - 1]) || (v[n - 1] == '.' && (n == 1 || char_is_sep(v[n - 2]))))
        invariant
            n <= v@.len(),
            trim_tail(v@.take(n as int)) == trim_tail(v@),
        decreases n,
    {
        assert(v@.take(n as int).drop_last() =~= v@.take(n - 1));
        assert(v@.take(n as int).last() == v@[n - 1]);
        if n >= 2 {
            assert(v@.take(n as int)[n - 2] == v@[n - 2]);
        }
        n -= 1;
    }
    n
}

/// Start of the final component of a tail-trimmed path.
pub open spec fn name_start(t: Seq<char>) -> int {
    last_index(t, |c: char| is_sep(c)) + 1
}

/// `Path::file_name`: the final component, unless it is `..` or missing.
pub open spec fn file_name_spec(p: Seq<char>) -> Option<Seq<char>> {
    let t = trim_tail(p);
    let name = t.subrange(name_start(t), t.len() as int);
    if name.len() == 0 || name == ".."@ {
        None
    } else {
        Some(name)
    }
}

/// `Path::file_stem` of a file name: up to its last `.`, unless that dot
/// leads the name.
pub open spec fn stem_of(name: Seq<char>) -> Seq<char> {
    let d = last_index(name, |c: char| c == '.');
    if d <= 0 {
        name
    } else {
        name.take(d)
    }
}

pub open spec fn file_stem_spec(p: Seq<char>) -> Option<Seq<char>> {
    match file_name_spec(p) {
        Some(n) => Some(stem_of(n)),
        None => None,
    }
}

/// `PathBuf::set_extension`: the path up to the end of its file stem, then
/// `.` and `ext` (nothing when `ext` is empty); unchanged without a file
/// name.
pub open spec fn set_extension_spec(p: Seq<char>, ext: Seq<char>) -> Seq<char> {
    match file_name_spec(p) {
        None => p,
        Some(n) => {
            let t = trim_tail(p);
            t.take(name_start(t)) + stem_of(n) + if ext.len() > 0 {
                seq!['.'] + ext
            } else {
                Seq::empty()
            }
        },
    }
}

/// Bounds `[start, end)` of the file name within `v`, when there is one.
fn file_name_bounds(v: &[char]) -> (r: Option<(usize, usize)>)
    ensures
        match r {
            None => file_name_spec(v@) is None,
            Some((a, b)) => a <= b <= v@.len() && file_name_spec(v@) == Some(v@.subrange(a as int, b as int))
                && trim_tail(v@) == v@.take(b as int) && a == name_start(trim_tail(v@)),
        },
{
    let n = trim_tail_len(v);
    let s = rfind(v, n, true);
    proof {
        lemma_last_index(v@.take(n as int), |c: char| is_sep(c));
    }
    let a: usize = match s {
        Some(i) => i + 1,
        None => 0,
    };
    let ghost t = v@.take(n as int);
    assert(t.subrange(a as int, n as int) =~= v@.subrange(a as int, n as int));
    let len = n - a;
    let is_dotdot = len == 2 && v[a] == '.' && v[a + 1] == '.';
    proof {
        reveal_strlit("..");
        let name = v@.subrange(a as int, n as int);
        if len == 2 {
            if name == ".."@ {
                assert(name[0] == '.' && name[1] == '.');
            }
            if v@[a as int] == '.' && v@[a + 1] == '.' {
                assert(name =~= ".."@);
            }
        } else {
            assert(name.len() != ".."@.len());
        }
    }
    if len == 0 || is_dotdot {
        None
    } else {
        Some((a, n))
    }
}

/// `Path::file_name`.
pub fn file_name(p: &str) -> (r: Option<String>)
    ensures
        match r {
            Some(s) => file_name_spec(p@) == Some(s@),
            None => file_name_spec(p@) is None,
        },
{
    let v = chars_of(p);
    match file_name_bounds(&v) {
        Some((a, b)) => Some(string_from_range(&v, a, b)),
        None => None,
    }
}

/// End of the stem within `v[a..b]`.
fn stem_end(v: &[char], a: usize, b: usize) -> (e: usize)
    requires
        a <= b <= v@.len(),
    ensures
        a <= e <= b,
        v@.subrange(a as int, e as int) == stem_of(v@.subrange(a as int, b as int)),
{
    let ghost name = v@.subrange(a as int, b as int);
    assert(name.take(b - a) =~= name);
    let mut i: usize = b;
    while i > a
        invariant
            a <= i <= b <= v@.len(),
            name == v@.subrange(a as int, b as int),
            last_index(name, |c: char| c == '.') == last_index(name.take(i - a), |c: char| c == '.'),
        decreases i,
    {
        assert(name.take(i - a).last() == v@[i - 1]);
        assert(name.take(i - a).drop_last() =~= name.take(i - a - 1));
        if v[i - 1] == '.' {
            if i - 1 == a {
                return b;
            }
            assert(name.take(i - a - 1) =~= v@.subrange(a as int, i - 1));
            return i - 1;
        }
        i -= 1;
    }
    assert(name =~= v@.subrange(a as int, b as int));
    b
}

/// `Path::file_stem`.
pub fn file_stem(p: &str) -> (r: Option<String>)
    ensures
        match r {
            Some(s) => file_stem_spec(p@) == Some(s@),
            None => file_stem_spec(p@) is None,
        },
{
    let v = chars_of(p);
    match file_name_bounds(&v) {
        Some((a, b)) => {
            let e = stem_end(&v, a, b);
            Some(string_from_range(&v, a, e))
        },
        None => None,
    }
}

/// `Path::extension` of a file name: what follows its last `.`, unless
/// that dot leads the name.
pub open spec fn extension_of(name: Seq<char>) -> Option<Seq<char>> {
    let d = last_index(name, |c: char| c == '.');
    if d <= 0 {
        None
    } else {
        Some(name.skip(d + 1))
    }
}

pub open spec fn extension_spec(p: Seq<char>) -> Option<Seq<char>> {
    match file_name_spec(p) {
        Some(n) => extension_of(n),
        None => None,
    }
}

/// `Path::extension`.
pub fn extension(p: &str) -> (r: Option<String>)
    ensures
        match r {
            Some(s) => extension_spec(p@) == Some(s@),
            None => extension_spec(p@) is None,
        },
{
    match file_name(p) {
        Some(n) => {
            let v = chars_of(n.as_str());
            assert(v@.take(v@.len() as int) =~= v@);
            proof {
                lemma_last_index(v@, |c: char| c == '.');
            }
            match rfind(&v, v.len(), false) {
                Some(d) => if d == 0 {
                    None
                } else {
                    let e = string_from_range(&v, d + 1, v.len());
                    assert(e@ =~= v@.skip(d + 1));
                    Some(e)
                },
                None => None,
            }
        },
        None => None,
    }
}

/// `PathBuf::set_extension`, returning the new path.
pub fn set_extension(p: &str, ext: &str) -> (r: String)
    ensures
        r@ == set_extension_spec(p@, ext@),
{
    let v = chars_of(p);
    match file_name_bounds(&v) {
        None => p.to_owned(),
        Some((a, b)) => {
            let e = stem_end(&v, a, b);
            let mut out = string_from_range(&v, 0, e);
            let ghost base = v@.take(b as int).take(a as int) + v@.subrange(a as int, e as int);
            assert(v@.subrange(0, e as int) =~= base);
            if !ext.is_empty() {
                crate::text::push_char(&mut out, '.');
                crate::text::push_str(&mut out, ext);
                assert(ext@.len() > 0);
                assert(out@ =~= base + (seq!['.'] + ext@));
            } else {
                assert(ext@.len() == 0);
                assert(out@ =~= base + Seq::<char>::empty());
            }
            out
        },
    }
}


// ---------------------------------------------------------------------------
// Components, prefixes and joins
// ---------------------------------------------------------------------------

pub open spec fn is_ascii_alpha(c: char) -> bool {
    ('a' <= c && c <= 'z') || ('A' <= c && c <= 'Z')
}

/// Whether the path starts with a drive prefix `X:`.
pub open spec fn has_drive(s: Seq<char>) -> bool {
    s.len() >= 2 && is_ascii_alpha(s[0]) && s[1] == ':'
}

/// A path component as paths are compared: the drive (letter in upper
/// case), the root, or a name (`.` components are dropped).
pub enum Comp {
    Drive(char),
    Root,
    Name(Seq<char>),
}

pub open spec fn drive_len(s: Seq<char>) -> int {
    if has_drive(s) {
        2
    } else {
        0
    }
}

/// `s` with `/` written as `\`.
pub open spec fn norm_seps(s: Seq<char>) -> Seq<char> {
    s.map_values(|c: char| if c == '/' {
        '\\'
    } else {
        c
    })
}

/// The name components of the pieces between separators.
pub open spec fn name_comps(pieces: Seq<Seq<char>>) -> Seq<Comp>
    decreases pieces.len(),
{
    if pieces.len() == 0 {
        Seq::empty()
    } else {
        name_comps(pieces.drop_last()) + if pieces.last().len() == 0 || pieces.last() == "."@ {
            Seq::<Comp>::empty()
        } else {
            seq![Comp::Name(pieces.last())]
        }
    }
}

/// The components of a path.
pub open spec fn comps(s: Seq<char>) -> Seq<Comp> {
    let d = drive_len(s);
    (if d == 2 {
        seq![Comp::Drive(crate::text::ascii_upper(s[0]))]
    } else {
        Seq::<Comp>::empty()
    }) + (if s.len() > d && is_sep(s[d]) {
        seq![Comp::Root]
    } else {
        Seq::<Comp>::empty()
    }) + name_comps(crate::text::split_seq(norm_seps(s.skip(d)), '\\'))
}

/// `Path::starts_with`: the components of `base` begin those of `p`.
pub open spec fn starts_with_path(p: Seq<char>, base: Seq<char>) -> bool {
    comps(base).len() <= comps(p).len() && comps(p).take(comps(base).len() as int) == comps(base)
}

/// `Path::is_absolute` on Windows: a drive with a root (`X:\`), or a
/// `\\` prefix (UNC, device and verbatim paths).
pub open spec fn is_absolute_spec(s: Seq<char>) -> bool {
    (has_drive(s) && s.len() > 2 && is_sep(s[2])) || (s.len() >= 2 && s[0] == '\\' && s[1] == '\\')
}

/// `Path::join` on Windows: a joined path with a drive replaces the base;
/// one with a root keeps only the base's drive; otherwise `\` separates
/// the two unless the base is empty, ends with a separator or is a bare
/// drive.
pub open spec fn join_spec(a: Seq<char>, b: Seq<char>) -> Seq<char> {
    if has_drive(b) {
        b
    } else if b.len() > 0 && is_sep(b[0]) {
        if has_drive(a) {
            a.take(2) + b
        } else {
            b
        }
    } else if a.len() == 0 || is_sep(a.last()) || (a.len() == 2 && has_drive(a)) {
        a + b
    } else {
        a + seq!['\\'] + b
    }
}

pub enum CompExec {
    Drive(char),
    Root,
    Name(Vec<char>),
}

impl View for CompExec {
    type V = Comp;

    open spec fn view(&self) -> Comp {
        match self {
            CompExec::Drive(c) => Comp::Drive(*c),
            CompExec::Root => Comp::Root,
            CompExec::Name(v) => Comp::Name(v@),
        }
    }
}

pub open spec fn comps_view(v: Seq<CompExec>) -> Seq<Comp> {
    v.map_values(|c: CompExec| c@)
}

fn has_drive_exec(v: &[char]) -> (r: bool)
    ensures
        r == has_drive(v@),
{
    v.len() >= 2 && (('a' <= v[0] && v[0] <= 'z') || ('A' <= v[0] && v[0] <= 'Z')) && v[1] == ':'
}

fn comps_exec(v: &[char]) -> (r: Vec<CompExec>)
    ensures
        comps_view(r@) == comps(v@),
{
    let mut r: Vec<CompExec> = Vec::new();
    let d: usize = if has_drive_exec(v) {
        r.push(CompExec::Drive(crate::text::to_ascii_upper(v[0])));
        2
    } else {
        0
    };
    if v.len() > d && char_is_sep(v[d]) {
        r.push(CompExec::Root);
    }
    let ghost head = comps_view(r@);
    assert(head =~= (if d == 2 {
        seq![Comp::Drive(crate::text::ascii_upper(v@[0]))]
    } else {
        Seq::<Comp>::empty()
    }) + (if v@.len() > d && is_sep(v@[d as int]) {
        seq![Comp::Root]
    } else {
        Seq::<Comp>::empty()
    }));
    let mut norm: Vec<char> = Vec::new();
    let mut i: usize = d;
    while i < v.len()
        invariant
            d <= i <= v@.len(),
            norm@ == norm_seps(v@.skip(d as int)).take(i - d),
        decreases v@.len() - i,
    {
        norm.push(
            if v[i] == '/' {
                '\\'
            } else {
                v[i]
            },
        );
        assert(norm@ =~= norm_seps(v@.skip(d as int)).take(i + 1 - d));
        i += 1;
    }
    assert(norm@ =~= norm_seps(v@.skip(d as int)));
    let ranges = crate::text::split_ranges(&norm, '\\');
    let ghost pieces = crate::text::split_seq(norm@, '\\');
    let mut k: usize = 0;
    while k < ranges.len()
        invariant
            k <= ranges@.len() == pieces.len(),
            pieces == crate::text::split_seq(norm@, '\\'),
            forall|j: int|
                0 <= j < ranges@.len() ==> (#[trigger] ranges@[j]).0 <= ranges@[j].1 <= norm@.len()
                    && norm@.subrange(ranges@[j].0 as int, ranges@[j].1 as int) == pieces[j],
            comps_view(r@) == head + name_comps(pieces.take(k as int)),
        decreases ranges@.len() - k,
    {
        let (a, b) = ranges[k];
        proof {
            assert(pieces.take(k + 1).drop_last() =~= pieces.take(k as int));
            assert(pieces.take(k + 1).last() == pieces[k as int]);
            reveal_strlit(".");
        }
        let ghost before = comps_view(r@);
        if b > a && !(b == a + 1 && norm[a] == '.') {
            let piece = vstd::slice::slice_to_vec(vstd::slice::slice_subrange(&norm, a, b));
            let ghost pv = piece@;
            assert(pv.len() == 1 ==> (pv == "."@ <==> pv[0] == '.'));
            r.push(CompExec::Name(piece));
            assert(comps_view(r@) =~= before.push(Comp::Name(pv)));
        } else {
            assert(b - a == 1 ==> norm@.subrange(a as int, b as int) =~= "."@);
        }
        assert(comps_view(r@) =~= head + name_comps(pieces.take(k + 1)));
        k += 1;
    }
    assert(pieces.take(ranges@.len() as int) =~= pieces);
    r
}

fn comp_eq(a: &CompExec, b: &CompExec) -> (r: bool)
    ensures
        r == (a@ == b@),
{
    match (a, b) {
        (CompExec::Drive(x), CompExec::Drive(y)) => *x == *y,
        (CompExec::Root, CompExec::Root) => true,
        (CompExec::Name(x), CompExec::Name(y)) => crate::text::chars_eq(x, y),
        _ => false,
    }
}

/// `Path::starts_with` with Windows conventions.
pub fn path_starts_with(p: &str, base: &str) -> (r: bool)
    ensures
        r == starts_with_path(p@, base@),
{
    let pc = comps_exec(&chars_of(p));
    let bc = comps_exec(&chars_of(base));
    let ghost pv = comps_view(pc@);
    let ghost bv = comps_view(bc@);
    if bc.len() > pc.len() {
        return false;
    }
    let mut i: usize = 0;
    while i < bc.len()
        invariant
            i <= bc@.len() <= pc@.len(),
            pv == comps_view(pc@),
            bv == comps_view(bc@),
            pv == comps(p@),
            bv == comps(base@),
            forall|j: int| 0 <= j < i ==> pv[j] == bv[j],
        decreases bc@.len() - i,
    {
        if !comp_eq(&pc[i], &bc[i]) {
            assert(pv[i as int] == pc@[i as int]@);
            assert(bv[i as int] == bc@[i as int]@);
            assert(pv.take(bv.len() as int)[i as int] == pv[i as int]);
            assert(pv.take(bv.len() as int) != bv);
            return false;
        }
        i += 1;
    }
    assert(pv.take(bv.len() as int) =~= bv);
    true
}

/// `Path::is_absolute` with Windows conventions.
pub fn is_absolute(p: &str) -> (r: bool)
    ensures
        r == is_absolute_spec(p@),
{
    let v = chars_of(p);
    (has_drive_exec(&v) && v.len() > 2 && char_is_sep(v[2])) || (v.len() >= 2 && v[0] == '\\' && v[1]
        == '\\')
}

/// `Path::join` with Windows conventions.
pub fn join(a: &str, b: &str) -> (r: String)
    ensures
        r@ == join_spec(a@, b@),
{
    let av = chars_of(a);
    let bv = chars_of(b);
    if has_drive_exec(&bv) {
        b.to_owned()
    } else if bv.len() > 0 && char_is_sep(bv[0]) {
        if has_drive_exec(&av) {
            let mut r = string_from_range(&av, 0, 2);
            crate::text::push_str(&mut r, b);
            assert(av@.subrange(0, 2) =~= a@.take(2));
            r
        } else {
            b.to_owned()
        }
    } else if av.len() == 0 || char_is_sep(av[av.len() - 1]) || (av.len() == 2 && has_drive_exec(
        &av,
    )) {
        let mut r = a.to_owned();
        crate::text::push_str(&mut r, b);
        r
    } else {
        let mut r = a.to_owned();
        crate::text::push_char(&mut r, '\\');
        crate::text::push_str(&mut r, b);
        assert(r@ =~= a@ + seq!['\\'] + b@);
        r
    }
}

// ---------------------------------------------------------------------------
// Library paths
// ---------------------------------------------------------------------------

/// What is stored for a library file picked under the configured folder:
/// only its file name when the (trimmed) file lies under the (trimmed,
/// non-empty) folder, else the file as given (trimmed).
pub open spec fn relative_library_path_spec(folder: Seq<char>, file: Seq<char>) -> Seq<char> {
    let f = trim_seq(folder);
    let p = trim_seq(file);
    if f.len() > 0 && starts_with_path(p, f) {
        match file_name_spec(p) {
            Some(n) => n,
            None => p,
        }
    } else {
        p
    }
}

pub fn relative_library_path(folder: &str, file: &str) -> (r: String)
    ensures
        r@ == relative_library_path_spec(folder@, file@),
{
    let f = string_from_chars(&trim_chars(&chars_of(folder)));
    let p = string_from_chars(&trim_chars(&chars_of(file)));
    if !f.as_str().is_empty() && path_starts_with(p.as_str(), f.as_str()) {
        if let Some(n) = file_name(p.as_str()) {
            return n;
        }
    }
    p
}

/// How a stored library path is resolved: either directly, or by
/// searching the folder (recursively) for a bare file name.
#[derive(Debug, Clone, PartialEq, Eq)]
pub enum LibraryPathLookup {
    Resolved(String),
    Search { folder: String, name: String },
}

pub enum LookupSpec {
    Resolved(Seq<char>),
    Search { folder: Seq<char>, name: Seq<char> },
}

impl View for LibraryPathLookup {
    type V = LookupSpec;

    open spec fn view(&self) -> LookupSpec {
        match self {
            LibraryPathLookup::Resolved(s) => LookupSpec::Resolved(s@),
            LibraryPathLookup::Search { folder, name } => LookupSpec::Search {
                folder: folder@,
                name: name@,
            },
        }
    }
}

pub open spec fn trim_start_seps(s: Seq<char>) -> Seq<char>
    decreases s.len(),
{
    if s.len() > 0 && is_sep(s[0]) {
        trim_start_seps(s.drop_first())
    } else {
        s
    }
}

/// Resolution of a stored library path against the configured folder
/// (both trimmed): empty stays empty; absolute paths stand; paths with a
/// separator (older entries) are joined to the folder without their
/// leading separators; a bare file name is searched for in the folder.
pub open spec fn resolve_spec(folder: Seq<char>, relative: Seq<char>) -> LookupSpec {
    let f = trim_seq(folder);
    let r = trim_seq(relative);
    if r.len() == 0 {
        LookupSpec::Resolved(Seq::empty())
    } else if is_absolute_spec(r) {
        LookupSpec::Resolved(r)
    } else if r.contains('\\') || r.contains('/') {
        let t = trim_start_seps(r);
        if f.len() == 0 {
            LookupSpec::Resolved(t)
        } else {
            LookupSpec::Resolved(join_spec(f, t))
        }
    } else {
        LookupSpec::Search { folder: f, name: r }
    }
}

/// Where a bare file name ends up: where the search found it, else the
/// name under the folder (or the bare name when there is no folder).
pub open spec fn finish_spec(folder: Seq<char>, name: Seq<char>, found: Option<Seq<char>>) -> Seq<char> {
    match found {
        Some(p) => p,
        None => if folder.len() == 0 {
            name
        } else {
            join_spec(folder, name)
        },
    }
}

fn has_sep(v: &[char]) -> (r: bool)
    ensures
        r == (v@.contains('\\') || v@.contains('/')),
{
    let mut i: usize = 0;
    while i < v.len()
        invariant
            i <= v@.len(),
            forall|j: int| 0 <= j < i ==> !is_sep(v@[j]),
        decreases v@.len() - i,
    {
        if char_is_sep(v[i]) {
            assert(v@[i as int] == '\\' ==> v@.contains('\\'));
            assert(v@[i as int] == '/' ==> v@.contains('/'));
            return true;
        }
        i += 1;
    }
    false
}

/// Resolves a stored library path against the configured folder; a bare
/// file name is left to a search of the folder (see
/// [`LibraryPathLookup::finish`]).
pub fn resolve_library_path(folder: &str, relative: &str) -> (r: LibraryPathLookup)
    ensures
        r@ == resolve_spec(folder@, relative@),
{
    let fv = trim_chars(&chars_of(folder));
    let rv = trim_chars(&chars_of(relative));
    let f = string_from_chars(&fv);
    let r = string_from_chars(&rv);
    if rv.len() == 0 {
        return LibraryPathLookup::Resolved(String::new());
    }
    if is_absolute(r.as_str()) {
        return LibraryPathLookup::Resolved(r);
    }
    if has_sep(&rv) {
        let mut a: usize = 0;
        assert(rv@.skip(0) =~= rv@);
        while a < rv.len() && char_is_sep(rv[a])
            invariant
                a <= rv@.len(),
                trim_start_seps(rv@) == trim_start_seps(rv@.skip(a as int)),
            decreases rv@.len() - a,
        {
            assert(rv@.skip(a as int).drop_first() =~= rv@.skip(a + 1));
            a += 1;
        }
        let t = string_from_range(&rv, a, rv.len());
        assert(rv@.subrange(a as int, rv@.len() as int) =~= rv@.skip(a as int));
        if fv.len() == 0 {
            return LibraryPathLookup::Resolved(t);
        }
        return LibraryPathLookup::Resolved(join(f.as_str(), t.as_str()));
    }
    LibraryPathLookup::Search { folder: f, name: r }
}

impl LibraryPathLookup {
    /// The resolved path, given what a search of the folder found (which
    /// matters only for a search).
    pub fn finish(self, found: Option<String>) -> (r: String)
        ensures
            r@ == match self@ {
                LookupSpec::Resolved(p) => p,
                LookupSpec::Search { folder, name } => finish_spec(
                    folder,
                    name,
                    match found {
                        Some(s) => Some(s@),
                        None => None,
                    },
                ),
            },
    {
        match self {
            LibraryPathLookup::Resolved(p) => p,
            LibraryPathLookup::Search { folder, name } => match found {
                Some(p) => p,
                None => if folder.as_str().is_empty() {
                    name
                } else {
                    join(folder.as_str(), name.as_str())
                },
            },
        }
    }
}

// ---------------------------------------------------------------------------
// Laws
// ---------------------------------------------------------------------------

/// A file name holds no separator and is not empty.
proof fn lemma_file_name_no_sep(p: Seq<char>, n: Seq<char>)
    requires
        file_name_spec(p) == Some(n),
    ensures
        n.len() > 0,
        forall|i: int| 0 <= i < n.len() ==> !is_sep(#[trigger] n[i]),
{
    let t = trim_tail(p);
    lemma_last_index(t, |c: char| is_sep(c));
    let a = name_start(t);
    assert forall|i: int| 0 <= i < n.len() implies !is_sep(#[trigger] n[i]) by {
        assert(n[i] == t[a + i]);
    }
}

/// A library file picked under the configured folder is stored by its
/// bare file name, and resolving that stored name searches the folder for
/// it (for a folder that is set and a file name without surrounding
/// whitespace).
pub proof fn stored_library_path_resolves(folder: Seq<char>, file: Seq<char>, name: Seq<char>)
    requires
        trim_seq(folder).len() > 0,
        starts_with_path(trim_seq(file), trim_seq(folder)),
        file_name_spec(trim_seq(file)) == Some(name),
        trim_seq(name) == name,
    ensures
        relative_library_path_spec(folder, file) == name,
        resolve_spec(folder, relative_library_path_spec(folder, file)) == (LookupSpec::Search {
            folder: trim_seq(folder),
            name,
        }),
{
    lemma_file_name_no_sep(trim_seq(file), name);
    if name.contains('\\') {
        let i = choose|i: int| 0 <= i < name.len() && name[i] == '\\';
        assert(is_sep(name[i]));
    }
    if name.contains('/') {
        let i = choose|i: int| 0 <= i < name.len() && name[i] == '/';
        assert(is_sep(name[i]));
    }
    if name.len() > 2 {
        assert(!is_sep(name[2]));
    }
    assert(!is_sep(name[0]));
}

} // verus!
