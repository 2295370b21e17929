//! Output-file suffixes for splitting a file into pieces: `aa` through `zz`.
use vstd::prelude::*;

use crate::strutil::string_of;

verus! {

/// The two-letter suffix of one piece.
pub open spec fn spec_suffix_for(index: nat) -> Seq<char> {
    seq![((97 + index / 26) as u8) as char, ((97 + index % 26) as u8) as char]
}

/// The suffix of the piece at `index`, counting `aa`, `ab`, … `zz`.
pub fn suffix_for(index: usize) -> (r: String)
    requires
        index < 676,
    ensures
        r@ == spec_suffix_for(index as nat),
{
    let first = (97 + (index / 26) as u8) as char;
    let second = (97 + (index % 26) as u8) as char;
    let mut v: Vec<char> = Vec::new();
    v.push(first);
    v.push(second);
    proof {
        assert(v@ =~= spec_suffix_for(index as nat));
    }
    string_of(&v)
}

} // verus!
