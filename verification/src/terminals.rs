//! Terminal maps that nothing names.

use vstd::prelude::*;

use crate::numeral::{dec_of, dec_usize};
use crate::text::views;

verus! {

/// The three phase terminals.
pub open spec fn three_phases() -> Seq<Seq<char>> {
    seq!["1"@, "2"@, "3"@]
}

pub fn three_phase_map() -> (r: Vec<String>)
    ensures
        views(r@) == three_phases(),
{
    let mut r: Vec<String> = Vec::new();
    r.push("1".to_owned());
    r.push("2".to_owned());
    r.push("3".to_owned());
    assert(views(r@) =~= three_phases());
    r
}

/// The terminals `1` to `n`.
pub open spec fn numbered(n: nat) -> Seq<Seq<char>> {
    Seq::new(n, |i: int| dec_of((i + 1) as nat))
}

pub fn numbered_map(n: usize) -> (r: Vec<String>)
    ensures
        views(r@) == numbered(n as nat),
{
    let mut r: Vec<String> = Vec::new();
    let mut i: usize = 0;
    while i < n
        invariant
            i <= n,
            r.len() == i,
            forall|k: int| 0 <= k < i ==> (#[trigger] r@[k])@ == dec_of((k + 1) as nat),
        decreases n - i,
    {
        r.push(dec_usize(i + 1));
        i = i + 1;
    }
    assert(views(r@) =~= numbered(n as nat));
    r
}

} // verus!
