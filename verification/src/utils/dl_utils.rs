//! Utilities for Datalog facts.
use vstd::prelude::*;

use crate::pomdep::{coord_dl_text, MvnCoord};

verus! {

/// Something that can be written as one Datalog fact.
pub trait ToDatalogFact {
    fn to_fact(&self) -> String;
}

impl ToDatalogFact for MvnCoord {
    /// The coordinate's Datalog row, `group<TAB>artifact<TAB>version`.
    fn to_fact(&self) -> (r: String)
        ensures
            r@ == coord_dl_text(self@),
    {
        self.to_dl_string()
    }
}

/// Datalog rows for the coordinates: each coordinate's row followed by a
/// line break.
pub open spec fn coord_rows(coords: Seq<MvnCoord>) -> Seq<char>
    decreases coords.len(),
{
    if coords.len() == 0 {
        Seq::empty()
    } else {
        coord_rows(coords.drop_last()) + coord_dl_text(coords.last()@) + "\n"@
    }
}

/// The Datalog rows for the coordinates, one per line.
pub fn coord_rows_text(coords: &Vec<MvnCoord>) -> (r: String)
    ensures
        r@ == coord_rows(coords@),
{
    let mut r = String::new();
    let mut i: usize = 0;
    while i < coords.len()
        invariant
            i <= coords.len(),
            r@ == coord_rows(coords@.take(i as int)),
        decreases coords.len() - i,
    {
        assert(coords@.take(i + 1).drop_last() =~= coords@.take(i as int));
        let row = coords[i].to_dl_string();
        r.append(row.as_str());
        r.append("\n");
        i = i + 1;
    }
    assert(coords@.take(i as int) =~= coords@);
    r
}

} // verus!
