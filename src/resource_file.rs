use vstd::prelude::*;
use vstd::string::{StringExecFns, StrSliceExecFns};

use crate::json::text_eq;

verus! {

/// `name` with every trailing `.json` removed.
pub open spec fn without_json_suffixes(name: Seq<char>) -> Seq<char>
    decreases name.len(),
{
    if name.len() >= 5 && name.subrange(name.len() - 5, name.len() as int) == ".json"@ {
        without_json_suffixes(name.subrange(0, name.len() - 5))
    } else {
        name
    }
}

/// Whether `i` is the position of the first `-` of `s`.
pub open spec fn first_dash(s: Seq<char>, i: int) -> bool {
    &&& 0 <= i < s.len()
    &&& s[i] == '-'
    &&& forall|j: int| 0 <= j < i ==> s[j] != '-'
}

/// Reads the resource type and id from a snapshot file name of the form
/// `{type}-{id}.json`: the name without its trailing `.json` parts, split
/// at its first `-`. `None` when there is no `-`.
pub fn parse_resource_file_name(name: &str) -> (r: Option<(String, String)>)
    ensures
        match r {
            Some((resource_type, resource_id)) => exists|i: int|
                first_dash(without_json_suffixes(name@), i) && resource_type@
                    == without_json_suffixes(name@).subrange(0, i) && resource_id@
                    == without_json_suffixes(name@).subrange(i + 1, without_json_suffixes(name@).len() as int),
            None => forall|i: int|
                0 <= i < without_json_suffixes(name@).len() ==> without_json_suffixes(name@)[i] != '-',
        },
{
    proof {
        reveal_strlit(".json");
    }
    let mut end: usize = name.unicode_len();
    assert(name@.subrange(0, end as int) =~= name@);
    while end >= 5 && text_eq(name.substring_char(end - 5, end), ".json")
        invariant
            end <= name@.len(),
            without_json_suffixes(name@) == without_json_suffixes(name@.subrange(0, end as int)),
        decreases end,
    {
        let ghost s = name@.subrange(0, end as int);
        assert(s.subrange(s.len() - 5, s.len() as int) =~= name@.subrange(end - 5, end as int));
        assert(s.subrange(0, s.len() - 5) =~= name@.subrange(0, end - 5));
        end = end - 5;
    }
    let ghost stem = name@.subrange(0, end as int);
    assert(without_json_suffixes(stem) == stem) by {
        if stem.len() >= 5 {
            assert(stem.subrange(stem.len() - 5, stem.len() as int) =~= name@.subrange(end - 5, end as int));
        }
    }
    let mut i: usize = 0;
    while i < end
        invariant
            end <= name@.len(),
            i <= end,
            stem == name@.subrange(0, end as int),
            without_json_suffixes(name@) == stem,
            forall|j: int| 0 <= j < i ==> stem[j] != '-',
        decreases end - i,
    {
        if name.get_char(i) == '-' {
            let resource_type = String::from_str(name.substring_char(0, i));
            let resource_id = String::from_str(name.substring_char(i + 1, end));
            assert(first_dash(stem, i as int));
            assert(resource_type@ =~= stem.subrange(0, i as int));
            assert(resource_id@ =~= stem.subrange(i + 1, stem.len() as int));
            return Some((resource_type, resource_id));
        }
        i = i + 1;
    }
    None
}

} // verus!
