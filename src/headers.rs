//! Allowlist filtering of request headers.
use vstd::prelude::*;

use crate::text::chars_of;

verus! {

/// One header: its name and its raw value.
pub struct Header {
    pub name: String,
    pub value: Vec<u8>,
}

/// `a` and `b` are the same character up to ASCII case.
pub open spec fn same_ignoring_case(a: char, b: char) -> bool {
    a == b || ('A' <= a && a <= 'Z' && (b as u32) == (a as u32) + 32) || ('A' <= b && b <= 'Z'
        && (a as u32) == (b as u32) + 32)
}

/// `a` and `b` are equal up to ASCII case.
pub open spec fn eq_ignoring_case(a: Seq<char>, b: Seq<char>) -> bool {
    a.len() == b.len() && forall|i: int| 0 <= i < a.len() ==> same_ignoring_case(a[i], b[i])
}

/// The header name `n` is one of `wanted`.
pub open spec fn is_wanted(n: Seq<char>, wanted: Seq<&str>) -> bool {
    exists|j: int| 0 <= j < wanted.len() && eq_ignoring_case(n, #[trigger] wanted[j]@)
}

/// The headers of `hs` whose names are wanted, in the order they came in.
pub open spec fn kept(hs: Seq<Header>, wanted: Seq<&str>) -> Seq<Header>
    decreases hs.len(),
{
    if hs.len() == 0 {
        seq![]
    } else if is_wanted(hs[0].name@, wanted) {
        seq![hs[0]] + kept(hs.drop_first(), wanted)
    } else {
        kept(hs.drop_first(), wanted)
    }
}

fn same_ignoring_case_exec(a: char, b: char) -> (r: bool)
    ensures
        r == same_ignoring_case(a, b),
{
    a == b || ('A' <= a && a <= 'Z' && (b as u32) == (a as u32) + 32) || ('A' <= b && b <= 'Z'
        && (a as u32) == (b as u32) + 32)
}

fn eq_ignoring_case_exec(a: &Vec<char>, b: &Vec<char>) -> (r: bool)
    ensures
        r == eq_ignoring_case(a@, b@),
{
    if a.len() != b.len() {
        return false;
    }
    let mut i: usize = 0;
    while i < a.len()
        invariant
            i <= a.len() == b.len(),
            forall|k: int| 0 <= k < i ==> same_ignoring_case(a@[k], b@[k]),
        decreases a.len() - i,
    {
        if !same_ignoring_case_exec(a[i], b[i]) {
            return false;
        }
        i += 1;
    }
    true
}

fn is_wanted_exec(name: &str, wanted: &[&str]) -> (r: bool)
    ensures
        r == is_wanted(name@, wanted@),
{
    let n = chars_of(name);
    let mut j: usize = 0;
    while j < wanted.len()
        invariant
            j <= wanted.len(),
            n@ == name@,
            forall|k: int| 0 <= k < j ==> !eq_ignoring_case(name@, #[trigger] wanted@[k]@),
        decreases wanted.len() - j,
    {
        if eq_ignoring_case_exec(&n, &chars_of(wanted[j])) {
            return true;
        }
        j += 1;
    }
    false
}

/// Keeps the headers whose names are in `wanted_headers`, compared without
/// regard to ASCII case; every other header is dropped whole.
pub fn filter_headers(headers: Vec<Header>, wanted_headers: &[&str]) -> (r: Vec<Header>)
    ensures
        r@ == kept(headers@, wanted_headers@),
{
    let mut rest = headers;
    let mut out: Vec<Header> = Vec::new();
    while rest.len() > 0
        invariant
            out@ + kept(rest@, wanted_headers@) == kept(headers@, wanted_headers@),
        decreases rest.len(),
    {
        let ghost before = rest@;
        let ghost out_before = out@;
        let h = rest.remove(0);
        assert(rest@ =~= before.drop_first());
        if is_wanted_exec(h.name.as_str(), wanted_headers) {
            out.push(h);
            assert(out@ + kept(rest@, wanted_headers@) =~= out_before + kept(before, wanted_headers@));
        }
    }
    assert(out@ =~= out@ + kept(rest@, wanted_headers@));
    out
}

} // verus!
