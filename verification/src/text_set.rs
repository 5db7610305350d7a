//! Sorted sets of text values held as vectors.
use vstd::prelude::*;
use crate::order::{seq_lt, str_lt, lemma_lt_transitive, lemma_lt_trichotomy};
use crate::text::str_equal;

verus! {

/// Text values strictly increase.
pub open spec fn strings_sorted(s: Seq<String>) -> bool {
    forall|i: int, j: int| 0 <= i < j < s.len() ==> seq_lt(#[trigger] s[i]@, #[trigger] s[j]@)
}

/// The text values of a list, as a set.
pub open spec fn string_set(s: Seq<String>) -> Set<Seq<char>> {
    s.map_values(|x: String| x@).to_set()
}

/// The two ways of naming a list's text values agree.
pub proof fn lemma_string_set_is_peers_view(s: Seq<String>)
    ensures
        string_set(s) == crate::text::peers_view(s),
{
    assert(s.map_values(|x: String| x@) =~= s.map_values(|p: String| p@));
}

/// Insert `value` into a sorted list of distinct strings.
pub fn insert_sorted_unique(v: &mut Vec<String>, value: &str)
    requires
        strings_sorted(old(v)@),
    ensures
        strings_sorted(final(v)@),
        string_set(final(v)@) == string_set(old(v)@).insert(value@),
{
    let ghost s = v@;
    let n = v.len();
    let mut i: usize = 0;
    while i < n && str_lt(v[i].as_str(), value)
        invariant
            n == v@.len(),
            v@ == s,
            i <= n,
            forall|j: int| 0 <= j < i ==> seq_lt(#[trigger] s[j]@, value@),
        decreases n - i,
    {
        i = i + 1;
    }
    let ghost ids = s.map_values(|x: String| x@);
    if i < n && str_equal(v[i].as_str(), value) {
        proof {
            assert(ids[i as int] == value@);
            assert(string_set(s).insert(value@) =~= string_set(s));
        }
        return;
    }
    proof {
        if i < n {
            lemma_lt_trichotomy(s[i as int]@, value@);
        }
        assert forall|j: int| i <= j < s.len() implies seq_lt(value@, #[trigger] s[j]@) by {
            if j > i {
                lemma_lt_transitive(value@, s[i as int]@, s[j]@);
            }
        }
    }
    v.insert(i, String::from_str(value));
    proof {
        let t = v@;
        assert forall|a: int, b: int| 0 <= a < b < t.len() implies seq_lt(#[trigger] t[a]@, #[trigger] t[b]@) by {
            if b < i {
                assert(t[a] == s[a] && t[b] == s[b]);
            } else if b == i {
                assert(t[a] == s[a]);
            } else if a < i {
                assert(t[a] == s[a] && t[b] == s[b - 1]);
                lemma_lt_transitive(s[a]@, value@, s[b - 1]@);
            } else if a == i {
                assert(t[b] == s[b - 1]);
            } else {
                assert(t[a] == s[a - 1] && t[b] == s[b - 1]);
            }
        }
        let tids = t.map_values(|x: String| x@);
        assert(tids.to_set() =~= ids.to_set().insert(value@)) by {
            assert forall|v: Seq<char>| tids.to_set().contains(v) == ids.to_set().insert(value@).contains(v) by {
                if tids.contains(v) {
                    let k = choose|k: int| 0 <= k < tids.len() && tids[k] == v;
                    if k < i {
                        assert(ids[k] == v);
                    } else if k > i {
                        assert(ids[k - 1] == v);
                    }
                }
                if ids.contains(v) {
                    let k = choose|k: int| 0 <= k < ids.len() && ids[k] == v;
                    if k < i {
                        assert(tids[k] == v);
                    } else {
                        assert(tids[k + 1] == v);
                    }
                }
                if v == value@ {
                    assert(tids[i as int] == v);
                }
            }
        }
    }
}

} // verus!
