//! POSIX path utilities over byte strings. Symbolic links are never followed.
use vstd::prelude::*;

verus! {

pub const SLASH: u8 = 0x2f;

pub const DOT: u8 = 0x2e;

/// Whether the path starts at the root.
pub open spec fn is_absolute(p: Seq<u8>) -> bool {
    p.len() > 0 && p[0] == SLASH
}

/// Whether the path ends with a separator.
pub open spec fn has_trailing_slash(p: Seq<u8>) -> bool {
    p.len() > 0 && p.last() == SLASH
}

/// A segment between separators that names a component: neither empty nor `.`.
pub open spec fn is_component(seg: Seq<u8>) -> bool {
    seg.len() != 0 && seg != seq![DOT]
}

/// The segment `..`.
pub open spec fn is_parent(seg: Seq<u8>) -> bool {
    seg == seq![DOT, DOT]
}

/// Add `seg` to `done` if it names a component.
pub open spec fn keep_segment(done: Seq<Seq<u8>>, seg: Seq<u8>) -> Seq<Seq<u8>> {
    if is_component(seg) {
        done.push(seg)
    } else {
        done
    }
}

/// Left-to-right scan: the components finished so far and the open segment.
pub open spec fn scan(p: Seq<u8>) -> (Seq<Seq<u8>>, Seq<u8>)
    decreases p.len(),
{
    if p.len() == 0 {
        (Seq::empty(), Seq::empty())
    } else {
        let (done, seg) = scan(p.drop_last());
        if p.last() == SLASH {
            (keep_segment(done, seg), Seq::empty())
        } else {
            (done, seg.push(p.last()))
        }
    }
}

/// The components of a path: its segments between separators, without empty
/// segments and without `.`; `..` is kept.
pub open spec fn components(p: Seq<u8>) -> Seq<Seq<u8>> {
    keep_segment(scan(p).0, scan(p).1)
}

/// Append one component to a path buffer, adding a separator unless the
/// buffer is empty or already ends with one.
pub open spec fn push_component(buf: Seq<u8>, c: Seq<u8>) -> Seq<u8> {
    if buf.len() > 0 && buf.last() != SLASH {
        buf.push(SLASH) + c
    } else {
        buf + c
    }
}

/// Append the components in order.
pub open spec fn push_all(buf: Seq<u8>, cs: Seq<Seq<u8>>) -> Seq<u8>
    decreases cs.len(),
{
    if cs.len() == 0 {
        buf
    } else {
        push_component(push_all(buf, cs.drop_last()), cs.last())
    }
}

/// Resolve `..` against the components before it; `..` at the top is dropped.
pub open spec fn resolve_parents(cs: Seq<Seq<u8>>) -> Seq<Seq<u8>>
    decreases cs.len(),
{
    if cs.len() == 0 {
        cs
    } else {
        let r = resolve_parents(cs.drop_last());
        if is_parent(cs.last()) {
            if r.len() > 0 {
                r.drop_last()
            } else {
                r
            }
        } else {
            r.push(cs.last())
        }
    }
}

/// The root of a path: `/` for an absolute path, nothing otherwise.
pub open spec fn root_of(p: Seq<u8>) -> Seq<u8> {
    if is_absolute(p) {
        seq![SLASH]
    } else {
        Seq::empty()
    }
}

/// A path with `.` removed and each `..` resolved lexically.
pub open spec fn normalized(p: Seq<u8>) -> Seq<u8> {
    push_all(root_of(p), resolve_parents(components(p)))
}

/// The base an absolute path is resolved from: a leading `//` is kept as
/// it is, while `/` or three or more leading slashes count as `/`.
pub open spec fn absolute_base(p: Seq<u8>, cwd: Seq<u8>) -> Seq<u8> {
    if is_absolute(p) {
        if p.len() >= 2 && p[1] == SLASH && !(p.len() >= 3 && p[2] == SLASH) {
            seq![SLASH, SLASH]
        } else {
            seq![SLASH]
        }
    } else {
        cwd
    }
}

/// A path made absolute against `cwd` without touching `..`; a trailing
/// separator is kept.
pub open spec fn absolute_of(p: Seq<u8>, cwd: Seq<u8>) -> Seq<u8> {
    let body = push_all(absolute_base(p, cwd), components(p));
    if has_trailing_slash(p) && !has_trailing_slash(body) {
        body.push(SLASH)
    } else {
        body
    }
}

/// The `k`-th ancestor of a path from the root: its root followed by its first
/// `k` components.
pub open spec fn ancestor(p: Seq<u8>, k: int) -> Seq<u8> {
    push_all(root_of(p), components(p).take(k))
}

/// Whether two byte strings are equal.
pub fn same_bytes(a: &[u8], b: &[u8]) -> (r: bool)
    ensures
        r == (a@ == b@),
{
    if a.len() != b.len() {
        return false;
    }
    let mut i: usize = 0;
    while i < a.len()
        invariant
            a@.len() == b@.len(),
            0 <= i <= a@.len(),
            forall|t: int| 0 <= t < i ==> a@[t] == b@[t],
        decreases a@.len() - i,
    {
        if a[i] != b[i] {
            return false;
        }
        i += 1;
    }
    assert(a@ =~= b@);
    true
}

/// Append `b` to `out`.
pub fn append_bytes(out: &mut Vec<u8>, b: &[u8])
    ensures
        final(out)@ == old(out)@ + b@,
{
    let n = b.len();
    let mut i: usize = 0;
    while i < n
        invariant
            n == b@.len(),
            0 <= i <= n,
            out@ == old(out)@ + b@.take(i as int),
        decreases n - i,
    {
        out.push(b[i]);
        i += 1;
        assert(b@.take(i as int) =~= b@.take(i - 1).push(b@[i - 1]));
    }
    assert(b@.take(n as int) =~= b@);
}

/// Append one component, with a separator where one is needed.
fn push_component_exec(buf: &mut Vec<u8>, c: &[u8])
    ensures
        final(buf)@ == push_component(old(buf)@, c@),
{
    let n = buf.len();
    if n > 0 && buf[n - 1] != SLASH {
        buf.push(SLASH);
    }
    append_bytes(buf, c);
}

/// Append the first `n` components in order.
fn push_all_exec(buf: &mut Vec<u8>, cs: &Vec<Vec<u8>>, n: usize)
    requires
        n <= cs@.len(),
    ensures
        final(buf)@ == push_all(old(buf)@, views(cs@).take(n as int)),
{
    let mut i: usize = 0;
    while i < n
        invariant
            n <= cs@.len(),
            0 <= i <= n,
            buf@ == push_all(old(buf)@, views(cs@).take(i as int)),
        decreases n - i,
    {
        push_component_exec(buf, cs[i].as_slice());
        i += 1;
        assert(views(cs@).take(i as int).drop_last() =~= views(cs@).take(i - 1));
    }
}

/// The byte strings a vector of buffers holds.
pub open spec fn views(v: Seq<Vec<u8>>) -> Seq<Seq<u8>> {
    v.map_values(|b: Vec<u8>| b@)
}

/// Whether the segment is `.`.
fn segment_is_dot(seg: &Vec<u8>) -> (r: bool)
    ensures
        r == (seg@ == seq![DOT]),
{
    if seg.len() == 1 && seg[0] == DOT {
        assert(seg@ =~= seq![DOT]);
        true
    } else {
        false
    }
}

fn segment_is_parent(seg: &Vec<u8>) -> (r: bool)
    ensures
        r == is_parent(seg@),
{
    if seg.len() == 2 && seg[0] == DOT && seg[1] == DOT {
        assert(seg@ =~= seq![DOT, DOT]);
        true
    } else {
        false
    }
}

/// The components of a path.
pub fn path_components(path: &[u8]) -> (r: Vec<Vec<u8>>)
    ensures
        views(r@) == components(path@),
{
    let n = path.len();
    let mut done: Vec<Vec<u8>> = Vec::new();
    let mut seg: Vec<u8> = Vec::new();
    let mut i: usize = 0;
    assert(path@.take(0) =~= Seq::<u8>::empty());
    assert(views(done@) =~= Seq::<Seq<u8>>::empty());
    while i < n
        invariant
            n == path@.len(),
            0 <= i <= n,
            (views(done@), seg@) == scan(path@.take(i as int)),
        decreases n - i,
    {
        let b = path[i];
        assert(path@.take(i + 1).drop_last() =~= path@.take(i as int));
        if b == SLASH {
            if seg.len() != 0 && !segment_is_dot(&seg) {
                let ghost d = views(done@);
                let ghost sv = seg@;
                done.push(seg);
                assert(views(done@) =~= d.push(sv));
            }
            seg = Vec::new();
        } else {
            seg.push(b);
        }
        i += 1;
    }
    assert(path@.take(n as int) =~= path@);
    if seg.len() != 0 && !segment_is_dot(&seg) {
        let ghost d = views(done@);
        let ghost sv = seg@;
        done.push(seg);
        assert(views(done@) =~= d.push(sv));
    }
    done
}

/// Normalize a path lexically: drop `.` components and let each `..` remove
/// the component before it, keeping `/` as the root. Symbolic links are not
/// followed.
pub fn normalize_path(path: &[u8]) -> (r: Vec<u8>)
    ensures
        r@ == normalized(path@),
{
    let cs = path_components(path);
    let n = cs.len();
    let mut stack: Vec<Vec<u8>> = Vec::new();
    let mut i: usize = 0;
    let ghost comps = views(cs@);
    assert(comps.take(0) =~= Seq::<Seq<u8>>::empty());
    assert(views(stack@) =~= Seq::<Seq<u8>>::empty());
    while i < n
        invariant
            n == cs@.len(),
            comps == views(cs@),
            0 <= i <= n,
            views(stack@) == resolve_parents(comps.take(i as int)),
        decreases n - i,
    {
        assert(comps.take(i + 1).drop_last() =~= comps.take(i as int));
        let ghost before = views(stack@);
        if segment_is_parent(&cs[i]) {
            if stack.len() > 0 {
                stack.pop();
                assert(views(stack@) =~= before.drop_last());
            }
        } else {
            stack.push(cs[i].clone());
            assert(views(stack@) =~= before.push(comps[i as int]));
        }
        i += 1;
    }
    assert(comps.take(n as int) =~= comps);
    let mut out: Vec<u8> = Vec::new();
    if path.len() > 0 && path[0] == SLASH {
        out.push(SLASH);
    }
    assert(out@ =~= root_of(path@));
    push_all_exec(&mut out, &stack, stack.len());
    assert(views(stack@).take(stack@.len() as int) =~= views(stack@));
    out
}

/// Make a path absolute against the working directory `cwd`, without
/// resolving symbolic links or `..`.
///
/// An absolute path keeps a leading `//`, while three or more leading
/// slashes count as one; a relative path is appended to `cwd`. A trailing
/// separator is kept.
pub fn absolute(path: &[u8], cwd: &[u8]) -> (r: Vec<u8>)
    ensures
        r@ == absolute_of(path@, cwd@),
{
    let cs = path_components(path);
    let n = path.len();
    let mut out: Vec<u8> = Vec::new();
    if n > 0 && path[0] == SLASH {
        out.push(SLASH);
        if n >= 2 && path[1] == SLASH && !(n >= 3 && path[2] == SLASH) {
            out.push(SLASH);
        }
    } else {
        append_bytes(&mut out, cwd);
    }
    assert(out@ =~= absolute_base(path@, cwd@));
    push_all_exec(&mut out, &cs, cs.len());
    assert(views(cs@).take(cs@.len() as int) =~= views(cs@));
    if n > 0 && path[n - 1] == SLASH {
        let m = out.len();
        if !(m > 0 && out[m - 1] == SLASH) {
            out.push(SLASH);
        }
    }
    out
}

/// Copy a byte string.
fn copy_bytes(b: &[u8]) -> (r: Vec<u8>)
    ensures
        r@ == b@,
{
    let mut r: Vec<u8> = Vec::new();
    append_bytes(&mut r, b);
    assert(r@ =~= b@);
    r
}

/// The path itself, then its ancestors from the nearest to the root (or,
/// for a relative path, to the empty path).
pub fn ancestors(path: &[u8]) -> (r: Vec<Vec<u8>>)
    ensures
        r@.len() == components(path@).len() + 1,
        r@[0]@ == path@,
        forall|j: int|
            1 <= j < r@.len() ==> #[trigger] r@[j]@ == ancestor(path@, components(path@).len() - j),
{
    let cs = path_components(path);
    let n = cs.len();
    let mut r: Vec<Vec<u8>> = Vec::new();
    r.push(copy_bytes(path));
    let mut k: usize = n;
    while k > 0
        invariant
            n == cs@.len(),
            views(cs@) == components(path@),
            0 <= k <= n,
            r@.len() == n - k + 1,
            r@[0]@ == path@,
            forall|j: int| 1 <= j < r@.len() ==> #[trigger] r@[j]@ == ancestor(path@, n - j),
        decreases k,
    {
        k -= 1;
        let mut a: Vec<u8> = Vec::new();
        if path.len() > 0 && path[0] == SLASH {
            a.push(SLASH);
        }
        assert(a@ =~= root_of(path@));
        push_all_exec(&mut a, &cs, k);
        r.push(a);
    }
    r
}

/// One node to replicate: a prefix of the source path and the matching
/// path under the destination root.
#[derive(Debug, Clone)]
pub struct MirrorStep {
    pub source: Vec<u8>,
    pub target: Vec<u8>,
}

/// The nodes to replicate, from the top down, so that `src`'s structure
/// exists under `dst`: for each component of `src`, the source path up to
/// and including it and the same components appended to `dst`.
pub fn mirror_tree(src: &[u8], dst: &[u8]) -> (r: Vec<MirrorStep>)
    ensures
        r@.len() == components(src@).len(),
        forall|k: int|
            0 <= k < r@.len() ==> (#[trigger] r@[k]).source@ == push_all(
                root_of(src@),
                components(src@).take(k + 1),
            ) && r@[k].target@ == push_all(dst@, components(src@).take(k + 1)),
{
    let cs = path_components(src);
    let n = cs.len();
    let mut r: Vec<MirrorStep> = Vec::new();
    let mut k: usize = 0;
    while k < n
        invariant
            n == cs@.len(),
            views(cs@) == components(src@),
            0 <= k <= n,
            r@.len() == k,
            forall|t: int|
                0 <= t < k ==> (#[trigger] r@[t]).source@ == push_all(
                    root_of(src@),
                    components(src@).take(t + 1),
                ) && r@[t].target@ == push_all(dst@, components(src@).take(t + 1)),
        decreases n - k,
    {
        let mut source: Vec<u8> = Vec::new();
        if src.len() > 0 && src[0] == SLASH {
            source.push(SLASH);
        }
        assert(source@ =~= root_of(src@));
        push_all_exec(&mut source, &cs, k + 1);
        let mut target = copy_bytes(dst);
        push_all_exec(&mut target, &cs, k + 1);
        r.push(MirrorStep { source, target });
        k += 1;
    }
    r
}

} // verus!
