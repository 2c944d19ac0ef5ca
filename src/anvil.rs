use vstd::prelude::*;

use crate::chunk::RegionVersion;

verus! {

/// The format of the first chunk slot that holds a decodable chunk, given the
/// format of each slot in order (`None` for a slot that is empty or holds no
/// decodable chunk); `None` where no slot does.
pub fn detect_version(formats: &Vec<Option<RegionVersion>>) -> (r: Option<RegionVersion>)
    ensures
        r is None <==> forall|i: int| 0 <= i < formats.len() ==> #[trigger] formats@[i] is None,
        r matches Some(v) ==> exists|i: int|
            0 <= i < formats.len() && (forall|j: int| 0 <= j < i ==> formats@[j] is None)
                && #[trigger] formats@[i] == Some(v),
{
    let mut i: usize = 0;
    while i < formats.len()
        invariant
            i <= formats.len(),
            forall|j: int| 0 <= j < i ==> #[trigger] formats@[j] is None,
        decreases formats.len() - i,
    {
        if let Some(v) = formats[i] {
            assert(formats@[i as int] == Some(v));
            return Some(v);
        }
        i = i + 1;
    }
    None
}

} // verus!
