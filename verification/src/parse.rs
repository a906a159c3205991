use vstd::prelude::*;
use vstd::string::StrSliceExecFns;

use crate::attrs::AttrMap;
use crate::error::Error;

verus! {

/// The position of the first `=` at or after `from` in `s`, or `s.len()`
/// when no `=` follows.
pub open spec fn sep_from(s: Seq<char>, from: int) -> int
    decreases s.len() - from
        when 0 <= from <= s.len()
{
    if from >= s.len() {
        s.len() as int
    } else if s[from] == '=' {
        from
    } else {
        sep_from(s, from + 1)
    }
}

/// The position of the first `=` in `s`, or `s.len()` when there is none.
pub open spec fn first_sep(s: Seq<char>) -> int {
    sep_from(s, 0)
}

/// Does `s` contain an `=` separator at all?
pub open spec fn has_sep(s: Seq<char>) -> bool {
    first_sep(s) < s.len()
}

/// The position of the second `=` in `s`, or `s.len()` when at most one
/// `=` occurs.
pub open spec fn second_sep(s: Seq<char>) -> int {
    if has_sep(s) {
        sep_from(s, first_sep(s) + 1)
    } else {
        s.len() as int
    }
}

/// The key named by a property entry: everything before the first `=`.
pub open spec fn key_of(s: Seq<char>) -> Seq<char> {
    s.subrange(0, first_sep(s))
}

/// The value named by a property entry: everything between the first `=`
/// and the second `=` (or the end); pieces after a second `=` are ignored.
pub open spec fn val_of(s: Seq<char>) -> Seq<char>
    recommends
        has_sep(s),
{
    s.subrange(first_sep(s) + 1, second_sep(s))
}

/// Every entry of the list holds at least one `=`.
pub open spec fn all_have_sep(props: Seq<Seq<char>>) -> bool {
    forall|i: int| 0 <= i < props.len() ==> has_sep(#[trigger] props[i])
}

/// The mapping described by a property list: each entry's key/value pair
/// is inserted in order, so for a repeated key the later entry wins.
pub open spec fn props_map(props: Seq<Seq<char>>) -> Map<Seq<char>, Seq<char>>
    decreases props.len(),
{
    if props.len() == 0 {
        Map::empty()
    } else {
        props_map(props.drop_last()).insert(key_of(props.last()), val_of(props.last()))
    }
}

/// `sep_from` lands between `from` and the end, on an `=` if on anything,
/// and skips no earlier `=`.
pub proof fn lemma_sep_from(s: Seq<char>, from: int)
    requires
        0 <= from <= s.len(),
    ensures
        from <= sep_from(s, from) <= s.len(),
        sep_from(s, from) < s.len() ==> s[sep_from(s, from)] == '=',
        forall|j: int| from <= j < sep_from(s, from) ==> s[j] != '=',
    decreases s.len() - from,
{
    if from < s.len() && s[from] != '=' {
        lemma_sep_from(s, from + 1);
    }
}

/// Scan `s` (of character length `n`) for the first `=` at or after
/// `start`; `n` is returned when there is none.
fn find_sep(s: &str, start: usize, n: usize) -> (r: usize)
    requires
        n == s@.len(),
        start <= n,
    ensures
        r == sep_from(s@, start as int),
        start <= r <= n,
        r < n ==> s@[r as int] == '=',
{
    proof {
        lemma_sep_from(s@, start as int);
    }
    let mut i = start;
    while i < n
        invariant
            n == s@.len(),
            start <= i <= n,
            sep_from(s@, start as int) == sep_from(s@, i as int),
        decreases n - i,
    {
        if s.get_char(i) == '=' {
            return i;
        }
        i = i + 1;
    }
    i
}

/// Split one property entry into its key and its value.  The key is the
/// piece before the first `=`, the value the piece between the first and
/// the second `=` (or the end); an entry with no `=` is rejected.
pub fn parse_entry(s: &String) -> (r: Result<(String, String), Error>)
    ensures
        r is Ok <==> has_sep(s@),
        r matches Ok(kv) ==> kv.0@ == key_of(s@) && kv.1@ == val_of(s@),
        r is Err ==> r->Err_0 == Error::MissingAssignment,
{
    let st = s.as_str();
    let n = st.unicode_len();
    let i = find_sep(st, 0, n);
    if i == n {
        return Err(Error::MissingAssignment);
    }
    let key = st.substring_char(0, i).to_owned();
    let j = find_sep(st, i + 1, n);
    let value = st.substring_char(i + 1, j).to_owned();
    Ok((key, value))
}

/// Turn a list of `key=value` entries into an attribute mapping.  Every
/// entry must hold at least one `=`; a repeated key keeps the value of
/// its last entry.
pub fn parse_props(props: Vec<String>) -> (r: Result<AttrMap, Error>)
    ensures
        r is Ok <==> all_have_sep(props.deep_view()),
        r matches Ok(m) ==> m.wf() && m@ == props_map(props.deep_view()),
        r is Err ==> r->Err_0 == Error::MissingAssignment,
{
    let ghost pv = props.deep_view();
    let mut m = AttrMap::new();
    let n = props.len();
    for idx in 0..n
        invariant
            n == props.len(),
            pv == props.deep_view(),
            m.wf(),
            m@ == props_map(pv.take(idx as int)),
            forall|j: int| 0 <= j < idx ==> has_sep(#[trigger] pv[j]),
    {
        proof {
            assert(pv[idx as int] == props@[idx as int]@);
        }
        match parse_entry(&props[idx]) {
            Ok((key, value)) => {
                m.insert(key, value);
                proof {
                    assert(pv.take(idx + 1).drop_last() =~= pv.take(idx as int));
                    assert(pv.take(idx + 1).last() == pv[idx as int]);
                }
            },
            Err(e) => {
                proof {
                    assert(!has_sep(pv[idx as int]));
                }
                return Err(e);
            },
        }
    }
    proof {
        assert(pv.take(n as int) =~= pv);
    }
    Ok(m)
}

/// The distinct keys that occur in a property list.
pub open spec fn key_set(props: Seq<Seq<char>>) -> Set<Seq<char>> {
    Set::new(|k: Seq<char>| exists|i: int| 0 <= i < props.len() && key_of(#[trigger] props[i]) == k)
}

/// A key is mapped by a parsed property list exactly when some entry of
/// the list names it.
pub proof fn lemma_props_map_contains(props: Seq<Seq<char>>, k: Seq<char>)
    ensures
        props_map(props).contains_key(k) <==> exists|i: int|
            0 <= i < props.len() && key_of(#[trigger] props[i]) == k,
    decreases props.len(),
{
    if props.len() > 0 {
        let prefix = props.drop_last();
        lemma_props_map_contains(prefix, k);
        if key_of(props.last()) == k {
            assert(key_of(props[props.len() - 1]) == k);
        } else if props_map(props).contains_key(k) {
            let i = choose|i: int| 0 <= i < prefix.len() && key_of(#[trigger] prefix[i]) == k;
            assert(key_of(props[i]) == k);
        } else if exists|i: int| 0 <= i < props.len() && key_of(#[trigger] props[i]) == k {
            let i = choose|i: int| 0 <= i < props.len() && key_of(#[trigger] props[i]) == k;
            assert(key_of(prefix[i]) == k);
        }
    }
}

/// A parsed property list maps exactly the distinct keys that occur in
/// it: the mapping's size is the number of distinct keys.
pub proof fn lemma_props_map_keys(props: Seq<Seq<char>>)
    ensures
        props_map(props).dom() =~= key_set(props),
{
    assert forall|k: Seq<char>| props_map(props).dom().contains(k) <==> #[trigger] key_set(
        props,
    ).contains(k) by {
        lemma_props_map_contains(props, k);
    }
}

/// Later entries win: when position `i` holds the last occurrence of its
/// key, the parsed mapping assigns that entry's value to the key.
pub proof fn lemma_props_map_last_wins(props: Seq<Seq<char>>, i: int)
    requires
        0 <= i < props.len(),
        forall|j: int| i < j < props.len() ==> key_of(#[trigger] props[j]) != key_of(props[i]),
    ensures
        props_map(props).contains_key(key_of(props[i])),
        props_map(props)[key_of(props[i])] == val_of(props[i]),
    decreases props.len(),
{
    if i < props.len() - 1 {
        let prefix = props.drop_last();
        assert(forall|j: int| i < j < prefix.len()
            ==> key_of(#[trigger] prefix[j]) != key_of(prefix[i]));
        lemma_props_map_last_wins(prefix, i);
        assert(key_of(props[props.len() - 1]) != key_of(props[i]));
    }
}

} // verus!
