//! The bind-mount layout of the sandbox's new root, computed from the
//! requested paths once each has been resolved on the host.
use vstd::prelude::*;

use crate::flags::{MountAttrFlags, NOSUID};
use crate::path::same_bytes;
use crate::order::{lemma_path_lt_strict_total, path_less, path_lt};

verus! {

/// A requested path after resolution on the host.
#[derive(Debug, Clone)]
pub struct ResolvedMount {
    /// The canonical path; `None` when it could not be resolved, in which case
    /// the request is dropped.
    pub canonical: Option<Vec<u8>>,
    /// The requested path made absolute and normalized, when it runs through a
    /// symbolic link.
    pub link: Option<Vec<u8>>,
    /// The restrictions requested for the path.
    pub flags: MountAttrFlags,
}

/// One bind mount of the layout: host path and the attributes to set on it.
#[derive(Debug, Clone)]
pub struct PlannedMount {
    pub path: Vec<u8>,
    pub flags: MountAttrFlags,
}

/// A symbolic link to recreate in the new root, pointing at its canonical
/// target.
#[derive(Debug, Clone)]
pub struct SymlinkRequest {
    pub link: Vec<u8>,
    pub target: Vec<u8>,
}

/// The layout of the new root.
#[derive(Debug, Clone)]
pub struct MountPlan {
    /// Bind mounts, in the order they are to be made.
    pub mounts: Vec<PlannedMount>,
    /// Symbolic links to create once the bind mounts stand.
    pub symlinks: Vec<SymlinkRequest>,
}

/// Canonical path to restrictions: requests that resolve to the same path
/// get the permissions of all of them, that is the intersection of their
/// restrictions.
pub open spec fn merged(rs: Seq<ResolvedMount>) -> Map<Seq<u8>, u64>
    decreases rs.len(),
{
    if rs.len() == 0 {
        Map::empty()
    } else {
        let m = merged(rs.drop_last());
        let r = rs.last();
        match r.canonical {
            Some(c) => m.insert(
                c@,
                if m.contains_key(c@) {
                    m[c@] & r.flags.bits
                } else {
                    r.flags.bits
                },
            ),
            None => m,
        }
    }
}

/// The symbolic links to recreate, as (link, target) pairs in request order.
pub open spec fn symlink_requests(rs: Seq<ResolvedMount>) -> Seq<(Seq<u8>, Seq<u8>)>
    decreases rs.len(),
{
    if rs.len() == 0 {
        Seq::empty()
    } else {
        let s = symlink_requests(rs.drop_last());
        let r = rs.last();
        match (r.canonical, r.link) {
            (Some(c), Some(l)) => s.push((l@, c@)),
            _ => s,
        }
    }
}

/// Strictly ascending in mount order.
pub open spec fn in_mount_order(s: Seq<PlannedMount>) -> bool {
    forall|a: int, b: int| 0 <= a < b < s.len() ==> path_lt(#[trigger] s[a].path@, #[trigger] s[b].path@)
}

/// The mounts hold exactly the keys of `m`, each with its value.
pub open spec fn holds_map(s: Seq<PlannedMount>, m: Map<Seq<u8>, u64>) -> bool {
    &&& forall|k: Seq<u8>| #[trigger] m.contains_key(k) <==> exists|i: int| 0 <= i < s.len() && s[i].path@ == k
    &&& forall|i: int| 0 <= i < s.len() ==> #[trigger] m[s[i].path@] == s[i].flags.bits
}

/// Fold one canonical path with its restrictions into a layout kept in mount
/// order.
fn merge_into(out: &mut Vec<PlannedMount>, c: &Vec<u8>, f: MountAttrFlags, Ghost(m): Ghost<
    Map<Seq<u8>, u64>,
>)
    requires
        in_mount_order(old(out)@),
        holds_map(old(out)@, m),
    ensures
        in_mount_order(final(out)@),
        holds_map(
            final(out)@,
            m.insert(c@, if m.contains_key(c@) { m[c@] & f.bits } else { f.bits }),
        ),
{
    let ghost s = out@;
    let ghost m2 = m.insert(c@, if m.contains_key(c@) { m[c@] & f.bits } else { f.bits });
    let n = out.len();
    let mut j: usize = 0;
    while j < n && path_less(out[j].path.as_slice(), c.as_slice())
        invariant
            n == out@.len(),
            out@ == s,
            0 <= j <= n,
            forall|t: int| 0 <= t < j ==> path_lt(#[trigger] s[t].path@, c@),
        decreases n - j,
    {
        j += 1;
    }
    if j < n && same_bytes(out[j].path.as_slice(), c.as_slice()) {
        let flags = MountAttrFlags::from_bits_retain(out[j].flags.bits() & f.bits());
        let entry = PlannedMount { path: c.clone(), flags };
        proof {
            assert(m.contains_key(c@));
            assert forall|t: int| 0 <= t < n && t != j implies s[t].path@ != c@ by {
                lemma_path_lt_strict_total(s[t].path@, c@, c@);
            }
        }
        out.set(j, entry);
        proof {
            let s2 = out@;
            assert forall|k: Seq<u8>| #[trigger] m2.contains_key(k) <==> exists|i: int|
                0 <= i < s2.len() && s2[i].path@ == k by {
                if m.contains_key(k) {
                    let i = choose|i: int| 0 <= i < s.len() && s[i].path@ == k;
                    assert(s2[i].path@ == k);
                }
                if exists|i: int| 0 <= i < s2.len() && s2[i].path@ == k {
                    let i = choose|i: int| 0 <= i < s2.len() && s2[i].path@ == k;
                    if i != j {
                        assert(s[i].path@ == k);
                    }
                }
            }
            assert(in_mount_order(s2));
        }
    } else {
        let entry = PlannedMount { path: c.clone(), flags: f };
        proof {
            if j < n {
                assert(!path_lt(s[j as int].path@, c@));
                lemma_path_lt_strict_total(c@, s[j as int].path@, c@);
                assert forall|t: int| j <= t < n implies path_lt(c@, #[trigger] s[t].path@) by {
                    if t > j {
                        lemma_path_lt_strict_total(c@, s[j as int].path@, s[t].path@);
                    }
                }
            }
            assert forall|t: int| 0 <= t < n implies s[t].path@ != c@ by {
                lemma_path_lt_strict_total(s[t].path@, c@, c@);
                lemma_path_lt_strict_total(c@, s[t].path@, c@);
            }
            assert(!m.contains_key(c@));
        }
        out.insert(j, entry);
        proof {
            let s2 = out@;
            assert(s2 == s.insert(j as int, entry));
            assert forall|k: Seq<u8>| #[trigger] m2.contains_key(k) <==> exists|i: int|
                0 <= i < s2.len() && s2[i].path@ == k by {
                if m.contains_key(k) {
                    let i = choose|i: int| 0 <= i < s.len() && s[i].path@ == k;
                    if i < j {
                        assert(s2[i].path@ == k);
                    } else {
                        assert(s2[i + 1].path@ == k);
                    }
                }
                assert(s2[j as int].path@ == c@);
                if exists|i: int| 0 <= i < s2.len() && s2[i].path@ == k {
                    let i = choose|i: int| 0 <= i < s2.len() && s2[i].path@ == k;
                    if i < j {
                        assert(s[i].path@ == k);
                    } else if i > j {
                        assert(s[i - 1].path@ == k);
                    }
                }
            }
            assert forall|i: int| 0 <= i < s2.len() implies #[trigger] m2[s2[i].path@]
                == s2[i].flags.bits by {
                if i < j {
                    assert(s2[i] == s[i]);
                } else if i > j {
                    assert(s2[i] == s[i - 1]);
                }
            }
            assert forall|a: int, b: int| 0 <= a < b < s2.len() implies path_lt(
                #[trigger] s2[a].path@,
                #[trigger] s2[b].path@,
            ) by {
                if b < j {
                } else if a < j && b == j {
                } else if a < j {
                    assert(s2[b] == s[b - 1]);
                    lemma_path_lt_strict_total(s[a].path@, c@, s[b - 1].path@);
                } else if a == j {
                    assert(s2[b] == s[b - 1]);
                } else {
                    assert(s2[a] == s[a - 1]);
                    assert(s2[b] == s[b - 1]);
                }
            }
        }
    }
}

/// Lay out the new root from the resolved requests.
///
/// Unresolved requests are dropped. Requests resolving to the same canonical
/// path become one mount whose restrictions are the intersection of theirs.
/// The mounts come in mount order, so each parent is mounted before its
/// descendants, and each carries `NOSUID` on top of its restrictions. A
/// symbolic link is recreated for each resolved request that ran through one.
pub fn plan_mounts(resolved: &Vec<ResolvedMount>) -> (r: MountPlan)
    ensures
        in_mount_order(r.mounts@),
        forall|k: Seq<u8>|
            #[trigger] merged(resolved@).contains_key(k) <==> exists|i: int|
                0 <= i < r.mounts@.len() && r.mounts@[i].path@ == k,
        forall|i: int|
            0 <= i < r.mounts@.len() ==> #[trigger] r.mounts@[i].flags.bits == merged(
                resolved@,
            )[r.mounts@[i].path@] | NOSUID,
        r.symlinks@.map_values(|l: SymlinkRequest| (l.link@, l.target@)) == symlink_requests(
            resolved@,
        ),
{
    let n = resolved.len();
    let mut sorted: Vec<PlannedMount> = Vec::new();
    let mut symlinks: Vec<SymlinkRequest> = Vec::new();
    let mut i: usize = 0;
    assert(resolved@.take(0) =~= Seq::<ResolvedMount>::empty());
    assert(symlinks@.map_values(|l: SymlinkRequest| (l.link@, l.target@)) =~= Seq::<
        (Seq<u8>, Seq<u8>),
    >::empty());
    while i < n
        invariant
            n == resolved@.len(),
            0 <= i <= n,
            in_mount_order(sorted@),
            holds_map(sorted@, merged(resolved@.take(i as int))),
            symlinks@.map_values(|l: SymlinkRequest| (l.link@, l.target@)) == symlink_requests(
                resolved@.take(i as int),
            ),
        decreases n - i,
    {
        assert(resolved@.take(i + 1).drop_last() =~= resolved@.take(i as int));
        let r = &resolved[i];
        match &r.canonical {
            Some(c) => {
                merge_into(&mut sorted, c, r.flags, Ghost(merged(resolved@.take(i as int))));
                match &r.link {
                    Some(l) => {
                        let ghost before = symlinks@.map_values(
                            |l: SymlinkRequest| (l.link@, l.target@),
                        );
                        symlinks.push(SymlinkRequest { link: l.clone(), target: c.clone() });
                        assert(symlinks@.map_values(|l: SymlinkRequest| (l.link@, l.target@))
                            =~= before.push((l@, c@)));
                    },
                    None => {},
                }
            },
            None => {},
        }
        i += 1;
    }
    assert(resolved@.take(n as int) =~= resolved@);
    let ghost m = merged(resolved@);
    let k = sorted.len();
    let mut mounts: Vec<PlannedMount> = Vec::new();
    let mut j: usize = 0;
    while j < k
        invariant
            k == sorted@.len(),
            0 <= j <= k,
            mounts@.len() == j,
            forall|t: int| 0 <= t < j ==> (#[trigger] mounts@[t]).path@ == sorted@[t].path@,
            forall|t: int|
                0 <= t < j ==> (#[trigger] mounts@[t]).flags.bits == sorted@[t].flags.bits
                    | NOSUID,
        decreases k - j,
    {
        let p = PlannedMount {
            path: sorted[j].path.clone(),
            flags: sorted[j].flags.union(NOSUID),
        };
        mounts.push(p);
        j += 1;
    }
    proof {
        assert forall|a: int, b: int| 0 <= a < b < mounts@.len() implies path_lt(
            #[trigger] mounts@[a].path@,
            #[trigger] mounts@[b].path@,
        ) by {
            assert(path_lt(sorted@[a].path@, sorted@[b].path@));
        }
        assert forall|key: Seq<u8>| #[trigger] m.contains_key(key) <==> exists|i: int|
            0 <= i < mounts@.len() && mounts@[i].path@ == key by {
            if m.contains_key(key) {
                let i = choose|i: int| 0 <= i < sorted@.len() && sorted@[i].path@ == key;
                assert(mounts@[i].path@ == key);
            }
            if exists|i: int| 0 <= i < mounts@.len() && mounts@[i].path@ == key {
                let i = choose|i: int| 0 <= i < mounts@.len() && mounts@[i].path@ == key;
                assert(sorted@[i].path@ == key);
            }
        }
        assert forall|i: int| 0 <= i < mounts@.len() implies #[trigger] mounts@[i].flags.bits
            == m[mounts@[i].path@] | NOSUID by {
            assert(m[sorted@[i].path@] == sorted@[i].flags.bits);
        }
    }
    MountPlan { mounts, symlinks }
}

/// The union of the grants `grants[i]` of the requests `rs[i]` that resolved
/// to `c`.
pub open spec fn grants_for(rs: Seq<ResolvedMount>, grants: Seq<u64>, c: Seq<u8>) -> u64
    decreases rs.len(),
{
    if rs.len() == 0 || grants.len() < rs.len() {
        0
    } else {
        let before = grants_for(rs.drop_last(), grants, c);
        match rs.last().canonical {
            Some(p) => if p@ == c {
                before | grants[rs.len() - 1]
            } else {
                before
            },
            None => before,
        }
    }
}

/// When each request's restrictions are the defaults minus its grants, the
/// merged restrictions of a canonical path are the defaults minus every
/// grant made for any request that resolved to it.
pub proof fn lemma_merged_is_defaults_minus_grants(
    rs: Seq<ResolvedMount>,
    grants: Seq<u64>,
    defaults: u64,
    c: Seq<u8>,
)
    requires
        grants.len() >= rs.len(),
        forall|i: int| 0 <= i < rs.len() ==> #[trigger] rs[i].flags.bits == defaults & !grants[i],
        merged(rs).contains_key(c),
    ensures
        merged(rs)[c] == defaults & !grants_for(rs, grants, c),
    decreases rs.len(),
{
    let init = rs.drop_last();
    let r = rs.last();
    let n = rs.len() - 1;
    assert(rs[n] == r);
    assert forall|i: int| 0 <= i < init.len() implies #[trigger] init[i].flags.bits == defaults
        & !grants[i] by {
        assert(init[i] == rs[i]);
    }
    assert(grants_for(init, grants, c) == grants_for(rs.drop_last(), grants, c));
    let g = grants[n];
    if merged(init).contains_key(c) {
        lemma_merged_is_defaults_minus_grants(init, grants, defaults, c);
        let a = grants_for(init, grants, c);
        assert((defaults & !a) & (defaults & !g) == defaults & !(a | g)) by (bit_vector);
    } else {
        lemma_no_grants_when_unmerged(init, grants, c);
        assert(defaults & !g == defaults & !(0u64 | g)) by (bit_vector);
    }
}

proof fn lemma_no_grants_when_unmerged(rs: Seq<ResolvedMount>, grants: Seq<u64>, c: Seq<u8>)
    requires
        !merged(rs).contains_key(c),
    ensures
        grants_for(rs, grants, c) == 0,
    decreases rs.len(),
{
    if rs.len() > 0 && grants.len() >= rs.len() {
        lemma_no_grants_when_unmerged(rs.drop_last(), grants, c);
    }
}

} // verus!
