//! The list of environment variable names a sandbox keeps.
use vstd::prelude::*;

verus! {

/// The names, as character sequences, in list order.
pub open spec fn names_of(v: Seq<String>) -> Seq<Seq<char>> {
    v.map_values(|k: String| k@)
}

/// Add `key` to `names` unless it is already there.
pub fn keep_name(names: &mut Vec<String>, key: String)
    requires
        names_of(old(names)@).no_duplicates(),
    ensures
        names_of(final(names)@).no_duplicates(),
        names_of(final(names)@).to_set() == names_of(old(names)@).to_set().insert(key@),
{
    let ghost before = names_of(names@);
    let n = names.len();
    let mut i: usize = 0;
    while i < n
        invariant
            n == names@.len(),
            0 <= i <= n,
            before == names_of(names@),
            *names == *old(names),
            before.no_duplicates(),
            forall|j: int| 0 <= j < i ==> before[j] != key@,
        decreases n - i,
    {
        if names[i] == key {
            proof {
                assert(before.to_set().contains(key@)) by {
                    assert(before[i as int] == key@);
                }
                assert(before.to_set().insert(key@) =~= before.to_set());
            }
            return;
        }
        i += 1;
    }
    let ghost k = key@;
    names.push(key);
    proof {
        let after = names_of(names@);
        assert(after =~= before.push(k));
        assert(!before.contains(k));
        assert(after.to_set() =~= before.to_set().insert(k)) by {
            assert forall|x: Seq<char>| after.to_set().contains(x) <==> before.to_set().insert(
                k,
            ).contains(x) by {
                if after.contains(x) {
                    let j = choose|j: int| 0 <= j < after.len() && after[j] == x;
                    if j < before.len() {
                        assert(before[j] == x);
                    }
                }
                if before.contains(x) {
                    let j = choose|j: int| 0 <= j < before.len() && before[j] == x;
                    assert(after[j] == x);
                }
                assert(after[before.len() as int] == k);
            }
        }
    }
}

} // verus!
