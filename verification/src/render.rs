//! Rendering previews through the external Altium Monkey helper: the
//! helper's command line and how its output is read.

use vstd::prelude::*;
use crate::text::{
    chars_of, dec, dec_string, parse_u64, parse_u64_chars, push_str, string_from_chars,
    strings_view, trim_chars, trim_seq,
};

verus! {

broadcast use vstd::string::group_string_axioms;

/// The helper's arguments after its script: kind, library, name, then
/// the part number and the output file when given.
pub open spec fn monkey_args_spec(
    kind: Seq<char>,
    library: Seq<char>,
    name: Seq<char>,
    part_id: Option<u32>,
    output: Option<Seq<char>>,
) -> Seq<Seq<char>> {
    seq![kind, library, name] + match part_id {
        Some(p) => seq![dec(p as nat)],
        None => Seq::<Seq<char>>::empty(),
    } + match output {
        Some(o) => seq![o],
        None => Seq::<Seq<char>>::empty(),
    }
}

pub fn monkey_args(
    kind: &str,
    library: &str,
    name: &str,
    part_id: Option<u32>,
    output: Option<&str>,
) -> (r: Vec<String>)
    ensures
        strings_view(r@) == monkey_args_spec(
            kind@,
            library@,
            name@,
            part_id,
            match output {
                Some(o) => Some(o@),
                None => None,
            },
        ),
{
    let mut r: Vec<String> = Vec::new();
    r.push(kind.to_owned());
    r.push(library.to_owned());
    r.push(name.to_owned());
    let ghost base = strings_view(r@);
    assert(base =~= seq![kind@, library@, name@]);
    if let Some(p) = part_id {
        r.push(dec_string(p as u64));
    }
    let ghost mid = strings_view(r@);
    assert(mid =~= base + match part_id {
        Some(p) => seq![dec(p as nat)],
        None => Seq::<Seq<char>>::empty(),
    });
    if let Some(o) = output {
        r.push(o.to_owned());
    }
    assert(strings_view(r@) =~= mid + match output {
        Some(o) => seq![o@],
        None => Seq::<Seq<char>>::empty(),
    });
    r
}

/// The part count the helper printed: its trimmed output as a `u32`.
pub open spec fn part_count_spec(out: Seq<char>) -> Option<u32> {
    match parse_u64(trim_seq(out)) {
        Some(n) => if n <= u32::MAX {
            Some(n as u32)
        } else {
            None
        },
        None => None,
    }
}

pub fn parse_part_count(stdout: &str) -> (r: Option<u32>)
    ensures
        r == part_count_spec(stdout@),
{
    let t = trim_chars(&chars_of(stdout));
    match parse_u64_chars(&t) {
        Some(n) => if n <= 0xFFFF_FFFF {
            Some(n as u32)
        } else {
            None
        },
        None => None,
    }
}

/// The error reported when the helper fails.
pub fn monkey_failure(stderr: &str) -> (r: String)
    ensures
        r@ == "Altium Monkey rendering failed: "@ + trim_seq(stderr@),
{
    let mut r = String::new();
    push_str(&mut r, "Altium Monkey rendering failed: ");
    let t = string_from_chars(&trim_chars(&chars_of(stderr)));
    push_str(&mut r, t.as_str());
    r
}

} // verus!
