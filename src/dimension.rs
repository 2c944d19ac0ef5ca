use vstd::prelude::*;
use vstd::string::*;

verus! {

/// `d` holds exactly one `':'`, at index `i`.
pub open spec fn sole_colon_at(d: Seq<char>, i: int) -> bool {
    &&& 0 <= i < d.len()
    &&& d[i] == ':'
    &&& forall|j: int| 0 <= j < d.len() && j != i ==> d[j] != ':'
}

/// The save-relative directory that holds the region files of the dimension
/// `d`, where `d` has the namespaced form `namespace:name`.
pub open spec fn dimension_dir(d: Seq<char>) -> Option<Seq<char>> {
    if d == "minecraft:overworld"@ {
        Some("region"@)
    } else if d == "minecraft:the_nether"@ {
        Some("DIM-1/region"@)
    } else if d == "minecraft:the_end"@ {
        Some("DIM1/region"@)
    } else if exists|i: int| sole_colon_at(d, i) {
        let i = choose|i: int| sole_colon_at(d, i);
        Some("dimensions/"@ + d.take(i) + "/"@ + d.skip(i + 1) + "/region"@)
    } else {
        None
    }
}

fn same_text(a: &str, b: &str) -> (r: bool)
    ensures
        r == (a@ == b@),
{
    let sa = a.to_owned();
    let sb = b.to_owned();
    sa == sb
}

/// Maps a namespaced dimension identifier to the directory, relative to the
/// save folder, that holds its region files. Identifiers that do not have
/// exactly one `':'` have no directory.
pub fn get_path_from_dimension(dimension: &str) -> (r: Option<String>)
    ensures
        r matches Some(p) ==> dimension_dir(dimension@) == Some(p@),
        r is None ==> dimension_dir(dimension@) is None,
{
    proof {
        reveal_strlit("minecraft:overworld");
        reveal_strlit("minecraft:the_nether");
        reveal_strlit("minecraft:the_end");
        reveal_strlit("region");
        reveal_strlit("DIM-1/region");
        reveal_strlit("DIM1/region");
    }
    if same_text(dimension, "minecraft:overworld") {
        return Some(String::from_str("region"));
    }
    if same_text(dimension, "minecraft:the_nether") {
        return Some(String::from_str("DIM-1/region"));
    }
    if same_text(dimension, "minecraft:the_end") {
        return Some(String::from_str("DIM1/region"));
    }
    let n = dimension.unicode_len();
    let mut colons: usize = 0;
    let mut pos: usize = 0;
    let mut i: usize = 0;
    while i < n
        invariant
            n == dimension@.len(),
            i <= n,
            colons <= i,
            colons == 0 ==> forall|j: int| 0 <= j < i ==> dimension@[j] != ':',
            colons == 1 ==> sole_colon_at(dimension@.take(i as int), pos as int),
            colons >= 2 ==> exists|a: int, b: int|
                0 <= a < b < i && dimension@[a] == ':' && dimension@[b] == ':',
        decreases n - i,
    {
        let c = dimension.get_char(i);
        if c == ':' {
            if colons == 0 {
                pos = i;
                assert(sole_colon_at(dimension@.take(i + 1), pos as int));
            } else if colons == 1 {
                assert(dimension@.take(i as int)[pos as int] == ':');
                assert(dimension@[pos as int] == ':');
            }
            if colons < 2 {
                colons = colons + 1;
            }
        } else {
            if colons == 1 {
                assert forall|j: int| 0 <= j < i + 1 && j != pos implies #[trigger] dimension@.take(
                    i + 1,
                )[j] != ':' by {
                    if j < i {
                        assert(dimension@.take(i as int)[j] == dimension@[j]);
                    }
                }
            }
        }
        i = i + 1;
    }
    assert(dimension@.take(n as int) == dimension@);
    if colons != 1 {
        proof {
            if exists|k: int| sole_colon_at(dimension@, k) {
                let k = choose|k: int| sole_colon_at(dimension@, k);
                if colons >= 2 {
                    let (a, b) = choose|a: int, b: int|
                        0 <= a < b < n && dimension@[a] == ':' && dimension@[b] == ':';
                    assert(a == k && b == k);
                }
            }
        }
        return None;
    }
    proof {
        assert(sole_colon_at(dimension@, pos as int));
        assert forall|k: int| sole_colon_at(dimension@, k) implies k == pos by {}
    }
    let mut r = String::from_str("dimensions/");
    r.append(dimension.substring_char(0, pos));
    r.append("/");
    r.append(dimension.substring_char(pos + 1, n));
    r.append("/region");
    proof {
        reveal_strlit("dimensions/");
        reveal_strlit("/");
        reveal_strlit("/region");
    }
    Some(r)
}

} // verus!
