//! Linux sandbox policy: which subtrees are bind-mounted with which
//! restrictions, which environment variables survive, and whether the network
//! stays reachable.
use vstd::prelude::*;
use vstd::utf8::encode_utf8;

use crate::env::{keep_name, names_of};
use crate::error::Error;
use crate::exception::Exception;
use crate::flags::{grant_mask, MountAttrFlags, DEFAULT_RESTRICTIONS, NOEXEC, RDONLY};
use crate::host::{canonicalize, is_symlink, path_exists};
use crate::mount_plan::{grants_for, lemma_merged_is_defaults_minus_grants, merged, ResolvedMount};
use crate::path::{absolute, absolute_of, ancestors, is_absolute, normalize_path, normalized, SLASH};

verus! {

/// The abstract state of a Linux policy builder.
pub struct LinuxPolicy {
    /// Requested path to the restrictions of its subtree.
    pub mounts: Map<Seq<char>, u64>,
    /// Names of the environment variables to keep.
    pub env: Set<Seq<char>>,
    pub allow_networking: bool,
    pub full_env: bool,
}

/// The policy of a fresh builder: nothing allowed.
pub open spec fn empty_policy() -> LinuxPolicy {
    LinuxPolicy {
        mounts: Map::empty(),
        env: Set::empty(),
        allow_networking: false,
        full_env: false,
    }
}

/// Lift the restrictions of `write` / `execute` from `path`, introducing it
/// with the default restrictions first if it is new.
pub open spec fn grant(
    mounts: Map<Seq<char>, u64>,
    path: Seq<char>,
    write: bool,
    execute: bool,
) -> Map<Seq<char>, u64> {
    let current = if mounts.contains_key(path) {
        mounts[path]
    } else {
        DEFAULT_RESTRICTIONS
    };
    mounts.insert(path, current & !grant_mask(write, execute))
}

/// The policy after one accepted exception.
pub open spec fn step(s: LinuxPolicy, e: Exception) -> LinuxPolicy {
    match e {
        Exception::Read(p) => LinuxPolicy { mounts: grant(s.mounts, p@, false, false), ..s },
        Exception::WriteAndRead(p) => LinuxPolicy { mounts: grant(s.mounts, p@, true, false), ..s },
        Exception::ExecuteAndRead(p) => LinuxPolicy {
            mounts: grant(s.mounts, p@, false, true),
            ..s
        },
        Exception::Environment(k) => LinuxPolicy { env: s.env.insert(k@), ..s },
        Exception::FullEnvironment => LinuxPolicy { full_env: true, ..s },
        Exception::Networking => LinuxPolicy { allow_networking: true, ..s },
    }
}

/// One requested bind mount.
#[derive(Debug, Clone)]
pub struct BindMount {
    pub path: String,
    pub flags: MountAttrFlags,
}

/// The map a list of bind mounts with distinct paths stands for.
pub open spec fn mounts_map(s: Seq<BindMount>) -> Map<Seq<char>, u64> {
    Map::new(
        |k: Seq<char>| exists|i: int| 0 <= i < s.len() && s[i].path@ == k,
        |k: Seq<char>| s[choose|i: int| 0 <= i < s.len() && s[i].path@ == k].flags.bits,
    )
}

/// No path occurs twice.
pub open spec fn distinct_paths(s: Seq<BindMount>) -> bool {
    forall|i: int, j: int| 0 <= i < s.len() && 0 <= j < s.len() && i != j ==> s[i].path@ != s[j].path@
}

proof fn lemma_mounts_map_at(s: Seq<BindMount>, i: int)
    requires
        distinct_paths(s),
        0 <= i < s.len(),
    ensures
        mounts_map(s).contains_key(s[i].path@),
        mounts_map(s)[s[i].path@] == s[i].flags.bits,
{
    let k = s[i].path@;
    assert(0 <= i < s.len() && s[i].path@ == k);
    let j = choose|j: int| 0 <= j < s.len() && s[j].path@ == k;
    assert(j == i);
}

proof fn lemma_mounts_map_update(s: Seq<BindMount>, i: int, m: BindMount)
    requires
        distinct_paths(s),
        0 <= i < s.len(),
        m.path@ == s[i].path@,
    ensures
        distinct_paths(s.update(i, m)),
        mounts_map(s.update(i, m)) == mounts_map(s).insert(m.path@, m.flags.bits),
{
    let t = s.update(i, m);
    assert(distinct_paths(t));
    assert forall|k: Seq<char>| #[trigger] mounts_map(t).contains_key(k)
        == mounts_map(s).insert(m.path@, m.flags.bits).contains_key(k) by {
        if exists|j: int| 0 <= j < s.len() && s[j].path@ == k {
            let j = choose|j: int| 0 <= j < s.len() && s[j].path@ == k;
            assert(t[j].path@ == k);
        }
        if exists|j: int| 0 <= j < t.len() && t[j].path@ == k {
            let j = choose|j: int| 0 <= j < t.len() && t[j].path@ == k;
            assert(s[j].path@ == k);
        }
    }
    assert forall|k: Seq<char>| #[trigger] mounts_map(t).contains_key(k) implies mounts_map(t)[k]
        == mounts_map(s).insert(m.path@, m.flags.bits)[k] by {
        let j = choose|j: int| 0 <= j < t.len() && t[j].path@ == k;
        lemma_mounts_map_at(t, j);
        if j != i {
            lemma_mounts_map_at(s, j);
        }
    }
    assert(mounts_map(t) =~= mounts_map(s).insert(m.path@, m.flags.bits));
}

proof fn lemma_mounts_map_push(s: Seq<BindMount>, m: BindMount)
    requires
        distinct_paths(s),
        !mounts_map(s).contains_key(m.path@),
    ensures
        distinct_paths(s.push(m)),
        mounts_map(s.push(m)) == mounts_map(s).insert(m.path@, m.flags.bits),
{
    let t = s.push(m);
    assert forall|i: int| 0 <= i < s.len() implies s[i].path@ != m.path@ by {
        assert(mounts_map(s).contains_key(s[i].path@));
    }
    assert(distinct_paths(t));
    assert forall|k: Seq<char>| #[trigger] mounts_map(t).contains_key(k)
        == mounts_map(s).insert(m.path@, m.flags.bits).contains_key(k) by {
        if exists|j: int| 0 <= j < s.len() && s[j].path@ == k {
            let j = choose|j: int| 0 <= j < s.len() && s[j].path@ == k;
            assert(t[j].path@ == k);
        }
        if exists|j: int| 0 <= j < t.len() && t[j].path@ == k {
            let j = choose|j: int| 0 <= j < t.len() && t[j].path@ == k;
            if j < s.len() {
                assert(s[j].path@ == k);
            }
        }
        assert(t[s.len() as int].path@ == m.path@);
    }
    assert forall|k: Seq<char>| #[trigger] mounts_map(t).contains_key(k) implies mounts_map(t)[k]
        == mounts_map(s).insert(m.path@, m.flags.bits)[k] by {
        let j = choose|j: int| 0 <= j < t.len() && t[j].path@ == k;
        lemma_mounts_map_at(t, j);
        if j < s.len() {
            lemma_mounts_map_at(s, j);
        }
    }
    assert(mounts_map(t) =~= mounts_map(s).insert(m.path@, m.flags.bits));
}

/// Linux sandboxing.
pub struct LinuxSandbox {
    bind_mounts: Vec<BindMount>,
    env_exceptions: Vec<String>,
    allow_networking: bool,
    full_env: bool,
}

impl LinuxSandbox {
    /// The kept environment variable names, as a set.
    pub closed spec fn env_set(&self) -> Set<Seq<char>> {
        names_of(self.env_exceptions@).to_set()
    }

    /// The abstract policy.
    pub closed spec fn policy(&self) -> LinuxPolicy {
        LinuxPolicy {
            mounts: mounts_map(self.bind_mounts@),
            env: self.env_set(),
            allow_networking: self.allow_networking,
            full_env: self.full_env,
        }
    }

    /// The requested bind mounts, in the order they were first requested.
    pub closed spec fn entries(&self) -> Seq<BindMount> {
        self.bind_mounts@
    }

    /// Internal consistency: each path and each variable name is held once.
    pub closed spec fn wf(&self) -> bool {
        &&& distinct_paths(self.bind_mounts@)
        &&& names_of(self.env_exceptions@).no_duplicates()
    }

    /// An empty policy.
    pub fn new() -> (r: Self)
        ensures
            r.wf(),
            r.policy() == empty_policy(),
    {
        let r = LinuxSandbox {
            bind_mounts: Vec::new(),
            env_exceptions: Vec::new(),
            allow_networking: false,
            full_env: false,
        };
        assert(r.policy().mounts =~= Map::empty());
        assert(r.env_exceptions@.map_values(|k: String| k@) =~= Seq::empty());
        assert(r.env_set() =~= Set::empty());
        r
    }

    /// The position of `path` among the bind mounts.
    fn find_mount(&self, path: &String) -> (r: Option<usize>)
        ensures
            r matches Some(i) ==> i < self.bind_mounts.len() && self.bind_mounts@[i as int].path@
                == path@,
            r is None ==> forall|j: int|
                0 <= j < self.bind_mounts.len() ==> self.bind_mounts@[j].path@ != path@,
    {
        let n = self.bind_mounts.len();
        let mut i: usize = 0;
        while i < n
            invariant
                n == self.bind_mounts.len(),
                0 <= i <= n,
                forall|j: int| 0 <= j < i ==> self.bind_mounts@[j].path@ != path@,
            decreases n - i,
        {
            if self.bind_mounts[i].path == *path {
                return Some(i);
            }
            i += 1;
        }
        None
    }

    /// Add or modify a bind mount.
    ///
    /// A new path is introduced read-only and without execution; `write` and
    /// `execute` then lift the matching restriction. Restrictions already
    /// lifted stay lifted.
    pub fn update_bind_mount(&mut self, path: String, write: bool, execute: bool)
        requires
            old(self).wf(),
        ensures
            final(self).wf(),
            final(self).policy() == (LinuxPolicy {
                mounts: grant(old(self).policy().mounts, path@, write, execute),
                ..old(self).policy()
            }),
    {
        let ghost old_mounts = self.bind_mounts@;
        let mask: u64 = (if write { RDONLY } else { 0u64 }) | (if execute { NOEXEC } else { 0u64 });
        match self.find_mount(&path) {
            Some(i) => {
                let mut flags = self.bind_mounts[i].flags;
                flags.remove(mask);
                let entry = BindMount { path, flags };
                proof {
                    lemma_mounts_map_at(old_mounts, i as int);
                    lemma_mounts_map_update(old_mounts, i as int, entry);
                }
                self.bind_mounts.set(i, entry);
                return;
            },
            None => {},
        }
        let mut flags = MountAttrFlags::defaults();
        flags.remove(mask);
        let entry = BindMount { path, flags };
        proof {
            assert(!mounts_map(old_mounts).contains_key(path@));
            lemma_mounts_map_push(old_mounts, entry);
        }
        self.bind_mounts.push(entry);
    }
}

impl LinuxSandbox {
    /// Keep the environment variable `key`.
    fn add_env_exception(&mut self, key: String)
        requires
            old(self).wf(),
        ensures
            final(self).wf(),
            final(self).policy() == (LinuxPolicy {
                env: old(self).policy().env.insert(key@),
                ..old(self).policy()
            }),
    {
        keep_name(&mut self.env_exceptions, key);
    }

    /// Fold an exception whose path, if it names one, was found to exist
    /// (`path_exists`) or not.
    ///
    /// A path-bearing exception whose path does not exist is refused with
    /// `InvalidPath` and leaves the policy unchanged; any other exception is
    /// folded in.
    pub fn apply_exception(&mut self, exception: Exception, path_exists: bool) -> (r: Result<
        (),
        Error,
    >)
        requires
            old(self).wf(),
        ensures
            final(self).wf(),
            exception.has_path() && !path_exists ==> r == Err::<(), Error>(
                Error::InvalidPath(exception.path_string()),
            ) && *final(self) == *old(self),
            !(exception.has_path() && !path_exists) ==> r is Ok && final(self).policy() == step(
                old(self).policy(),
                exception,
            ),
    {
        if !path_exists {
            match exception {
                Exception::Read(path) => return Err(Error::InvalidPath(path)),
                Exception::WriteAndRead(path) => return Err(Error::InvalidPath(path)),
                Exception::ExecuteAndRead(path) => return Err(Error::InvalidPath(path)),
                _ => {},
            }
        }
        match exception {
            Exception::Read(path) => self.update_bind_mount(path, false, false),
            Exception::WriteAndRead(path) => self.update_bind_mount(path, true, false),
            Exception::ExecuteAndRead(path) => self.update_bind_mount(path, false, true),
            Exception::Environment(key) => self.add_env_exception(key),
            Exception::FullEnvironment => self.full_env = true,
            Exception::Networking => self.allow_networking = true,
        }
        Ok(())
    }

    /// Add an exception to the policy, checking first that its path exists.
    ///
    /// On `Err` the policy is unchanged; the only error is `InvalidPath` with
    /// the exception's path, for a path that was not found.
    pub fn add_exception(&mut self, exception: Exception) -> (r: Result<&mut Self, Error>)
        requires
            old(self).wf(),
        ensures
            !exception.has_path() ==> r is Ok,
            r matches Ok(s) ==> s.wf() && s.policy() == step(old(self).policy(), exception)
                && *final(self) == *final(s),
            r matches Err(e) ==> exception.has_path() && e == Error::InvalidPath(exception.path_string())
                && *final(self) == *old(self),
    {
        let exists = match exception.requested_path() {
            Some(path) => path_exists(path),
            None => true,
        };
        match self.apply_exception(exception, exists) {
            Ok(()) => Ok(self),
            Err(e) => Err(e),
        }
    }
}

/// The bytes an optional buffer holds.
pub open spec fn opt_bytes(o: Option<Vec<u8>>) -> Option<Seq<u8>> {
    match o {
        Some(v) => Some(v@),
        None => None,
    }
}

/// A relative request that runs through a symbolic link cannot be recreated
/// as a link without a working directory, so it is dropped.
pub open spec fn request_dropped(
    path: Seq<char>,
    canonical: Option<Seq<u8>>,
    through_link: bool,
    cwd: Option<Seq<u8>>,
) -> bool {
    canonical is Some && through_link && cwd is None && !is_absolute(encode_utf8(path))
}

/// `r` is the resolution of a request for `path` with `flags`, given the
/// host's canonical path (`None`: unresolvable), whether the path runs
/// through a symbolic link, and the working directory.
pub open spec fn resolves_as(
    r: ResolvedMount,
    path: Seq<char>,
    flags: MountAttrFlags,
    canonical: Option<Seq<u8>>,
    through_link: bool,
    cwd: Option<Seq<u8>>,
) -> bool {
    let dropped = request_dropped(path, canonical, through_link, cwd);
    &&& r.flags == flags
    &&& opt_bytes(r.canonical) == (if dropped {
        None
    } else {
        canonical
    })
    &&& opt_bytes(r.link) == (if canonical is Some && through_link && !dropped {
        Some(
            normalized(
                absolute_of(
                    encode_utf8(path),
                    match cwd {
                        Some(d) => d,
                        None => Seq::empty(),
                    },
                ),
            ),
        )
    } else {
        None
    })
}

/// `r` resolves the request `m` for some answers of the host: some absolute
/// canonical path or none, and some answer on symbolic links.
pub open spec fn resolved_from_host(r: ResolvedMount, m: BindMount, cwd: Option<Seq<u8>>) -> bool {
    exists|canonical: Option<Seq<u8>>, through_link: bool|
        (canonical matches Some(c) ==> is_absolute(c)) && #[trigger] resolves_as(
            r,
            m.path@,
            m.flags,
            canonical,
            through_link,
            cwd,
        )
}

/// Resolve one request from the host's answers: its canonical path, if it
/// has one, and whether it runs through a symbolic link.
///
/// An unresolvable request stays unresolved. A resolved request through a
/// link also records its absolute, normalized form, to be recreated as a
/// link, except that a relative one is dropped when no working directory is
/// known.
pub fn resolve_request(
    path: &String,
    flags: MountAttrFlags,
    canonical: Option<Vec<u8>>,
    through_link: bool,
    cwd: &Option<Vec<u8>>,
) -> (r: ResolvedMount)
    ensures
        resolves_as(r, path@, flags, opt_bytes(canonical), through_link, opt_bytes(*cwd)),
{
    let bytes = path.as_str().as_bytes();
    if canonical.is_none() || !through_link {
        return ResolvedMount { canonical, link: None, flags };
    }
    match cwd {
        Some(d) => {
            let link = normalize_path(absolute(bytes, d.as_slice()).as_slice());
            ResolvedMount { canonical, link: Some(link), flags }
        },
        None => {
            if bytes.len() > 0 && bytes[0] == SLASH {
                let empty: Vec<u8> = Vec::new();
                let link = normalize_path(absolute(bytes, empty.as_slice()).as_slice());
                ResolvedMount { canonical, link: Some(link), flags }
            } else {
                ResolvedMount { canonical: None, link: None, flags }
            }
        },
    }
}

/// Whether the path or one of its ancestors is a symbolic link on the host.
pub fn path_has_symlinks(path: &String) -> bool {
    let all = ancestors(path.as_str().as_bytes());
    let n = all.len();
    let mut i: usize = 0;
    while i < n
        invariant
            n == all@.len(),
            0 <= i <= n,
        decreases n - i,
    {
        if is_symlink(all[i].as_slice()) {
            return true;
        }
        i += 1;
    }
    false
}

impl LinuxSandbox {
    /// Resolve each requested path on the host, against the working directory
    /// `cwd` where one is known: each result is `resolve_request` of the
    /// request with the host's canonical path and its answer to whether the
    /// path runs through a symbolic link.
    pub fn resolve_mounts(&self, cwd: &Option<Vec<u8>>) -> (r: Vec<ResolvedMount>)
        requires
            self.wf(),
        ensures
            distinct_paths(self.entries()),
            mounts_map(self.entries()) == self.policy().mounts,
            r@.len() == self.entries().len(),
            forall|i: int|
                0 <= i < r@.len() ==> #[trigger] resolved_from_host(
                    r@[i],
                    self.entries()[i],
                    opt_bytes(*cwd),
                ),
    {
        let n = self.bind_mounts.len();
        let mut out: Vec<ResolvedMount> = Vec::new();
        let mut i: usize = 0;
        while i < n
            invariant
                n == self.bind_mounts@.len(),
                0 <= i <= n,
                out@.len() == i,
                forall|t: int|
                    0 <= t < i ==> #[trigger] resolved_from_host(
                        out@[t],
                        self.bind_mounts@[t],
                        opt_bytes(*cwd),
                    ),
            decreases n - i,
        {
            let m = &self.bind_mounts[i];
            let canonical = canonicalize(&m.path);
            let through_link = canonical.is_some() && path_has_symlinks(&m.path);
            let ghost c = opt_bytes(canonical);
            let r = resolve_request(&m.path, m.flags, canonical, through_link, cwd);
            out.push(r);
            proof {
                assert(out@[i as int] == r);
                assert((c matches Some(x) ==> is_absolute(x)) && resolves_as(
                    r,
                    m.path@,
                    m.flags,
                    c,
                    through_link,
                    opt_bytes(*cwd),
                ));
                assert(resolved_from_host(out@[i as int], self.bind_mounts@[i as int], opt_bytes(*cwd)));
            }
            i += 1;
        }
        out
    }

    /// Whether network access stays allowed.
    pub fn allow_networking(&self) -> (r: bool)
        ensures
            r == self.policy().allow_networking,
    {
        self.allow_networking
    }

    /// Whether the environment is kept whole.
    pub fn full_env(&self) -> (r: bool)
        ensures
            r == self.policy().full_env,
    {
        self.full_env
    }

    /// The names of the environment variables to keep, each once.
    pub fn env_exceptions(&self) -> (r: &Vec<String>)
        requires
            self.wf(),
        ensures
            r@.map_values(|k: String| k@).to_set() == self.policy().env,
            r@.map_values(|k: String| k@).no_duplicates(),
    {
        &self.env_exceptions
    }
}

/// The stages of locking a Linux sandbox, in the order they must run.
#[derive(Debug, Clone, Copy, PartialEq, Eq)]
pub enum LockStep {
    /// Clear the environment but for the kept variables.
    RestrictEnvironment,
    /// Enter a new user namespace together with a new network namespace.
    IsolateNetwork,
    /// Build the mount namespace and pivot into the new root.
    BuildMountNamespace,
    /// Enter a second user namespace mapping back to the starting ids; this
    /// also clears the abstract socket namespace.
    RestoreIds,
    /// Install the system-call filter.
    ApplySyscallFilter,
    /// Set the no-new-privileges bit.
    SetNoNewPrivs,
}

/// The stages for a policy: the environment is restricted first unless kept
/// whole, the network is isolated unless allowed, and the rest always runs.
pub open spec fn lock_sequence(p: LinuxPolicy) -> Seq<LockStep> {
    (if p.full_env {
        Seq::empty()
    } else {
        seq![LockStep::RestrictEnvironment]
    }) + (if p.allow_networking {
        Seq::empty()
    } else {
        seq![LockStep::IsolateNetwork]
    }) + seq![
        LockStep::BuildMountNamespace,
        LockStep::RestoreIds,
        LockStep::ApplySyscallFilter,
        LockStep::SetNoNewPrivs,
    ]
}

impl LinuxSandbox {
    /// The stages `lock` runs for this policy, in order.
    pub fn lock_steps(&self) -> (r: Vec<LockStep>)
        ensures
            r@ == lock_sequence(self.policy()),
    {
        let mut r: Vec<LockStep> = Vec::new();
        if !self.full_env {
            r.push(LockStep::RestrictEnvironment);
        }
        if !self.allow_networking {
            r.push(LockStep::IsolateNetwork);
        }
        r.push(LockStep::BuildMountNamespace);
        r.push(LockStep::RestoreIds);
        r.push(LockStep::ApplySyscallFilter);
        r.push(LockStep::SetNoNewPrivs);
        assert(r@ =~= lock_sequence(self.policy()));
        r
    }
}

/// The policy after a sequence of accepted exceptions, from a fresh builder.
pub open spec fn policy_after(es: Seq<Exception>) -> LinuxPolicy
    decreases es.len(),
{
    if es.len() == 0 {
        empty_policy()
    } else {
        step(policy_after(es.drop_last()), es.last())
    }
}

/// The union of the restrictions lifted from `path` by the exceptions.
pub open spec fn lifted_restrictions(es: Seq<Exception>, path: Seq<char>) -> u64
    decreases es.len(),
{
    if es.len() == 0 {
        0
    } else {
        let e = es.last();
        let m = if e.has_path() && e.path() == path {
            grant_mask(e.grants_write(), e.grants_execute())
        } else {
            0
        };
        lifted_restrictions(es.drop_last(), path) | m
    }
}

/// Whether some exception names `path`.
pub open spec fn names_path(es: Seq<Exception>, path: Seq<char>) -> bool {
    exists|i: int| 0 <= i < es.len() && es[i].has_path() && es[i].path() == path
}

proof fn lemma_clear_twice(d: u64, g: u64, m: u64)
    ensures
        (d & !g) & !m == d & !(g | m),
        d & !0u64 == d,
{
    assert((d & !g) & !m == d & !(g | m)) by (bit_vector);
    assert(d & !0u64 == d) by (bit_vector);
}

/// Restrictions only ever weaken: after any sequence of accepted exceptions,
/// a path is mounted exactly when some exception named it, and its
/// restrictions are the defaults minus every permission granted for it.
pub proof fn lemma_restrictions_are_defaults_minus_grants(es: Seq<Exception>, path: Seq<char>)
    ensures
        policy_after(es).mounts.contains_key(path) == names_path(es, path),
        names_path(es, path) ==> policy_after(es).mounts[path] == DEFAULT_RESTRICTIONS
            & !lifted_restrictions(es, path),
        !names_path(es, path) ==> lifted_restrictions(es, path) == 0,
    decreases es.len(),
{
    if es.len() > 0 {
        let init = es.drop_last();
        let e = es.last();
        lemma_restrictions_are_defaults_minus_grants(init, path);
        let g = lifted_restrictions(init, path);
        let m = grant_mask(e.grants_write(), e.grants_execute());
        lemma_clear_twice(DEFAULT_RESTRICTIONS, g, m);
        lemma_clear_twice(DEFAULT_RESTRICTIONS, 0, m);
        assert(0u64 | m == m) by (bit_vector);
        assert(g | 0u64 == g) by (bit_vector);
        if names_path(es, path) && !names_path(init, path) {
            assert(e.has_path() && e.path() == path) by {
                let i = choose|i: int| 0 <= i < es.len() && es[i].has_path() && es[i].path() == path;
                if i < init.len() {
                    assert(init[i] == es[i]);
                }
            }
        }
        if names_path(init, path) {
            let i = choose|i: int| 0 <= i < init.len() && init[i].has_path() && init[i].path() == path;
            assert(es[i] == init[i]);
        }
        if e.has_path() && e.path() == path {
            assert(es[es.len() - 1] == e);
        }
    }
}

/// No exception sets a restriction on a path that already had one mounted:
/// the new restrictions are a subset of the old.
pub proof fn lemma_restrictions_only_weaken(s: LinuxPolicy, e: Exception, path: Seq<char>)
    requires
        s.mounts.contains_key(path),
    ensures
        step(s, e).mounts.contains_key(path),
        step(s, e).mounts[path] & !s.mounts[path] == 0,
{
    let x = s.mounts[path];
    let m = grant_mask(e.grants_write(), e.grants_execute());
    assert(x & !x == 0) by (bit_vector);
    assert((x & !m) & !x == 0) by (bit_vector);
}

/// Adding `Read(p)` after `WriteAndRead(p)` changes nothing.
pub proof fn lemma_read_after_write_is_absorbed(s: LinuxPolicy, p: String)
    ensures
        step(step(s, Exception::WriteAndRead(p)), Exception::Read(p)) == step(
            s,
            Exception::WriteAndRead(p),
        ),
{
    let t = step(s, Exception::WriteAndRead(p));
    let x = t.mounts[p@];
    assert(x & !0u64 == x) by (bit_vector);
    assert(0u64 | 0u64 == 0u64) by (bit_vector);
    assert(grant_mask(false, false) == 0);
    assert(step(t, Exception::Read(p)).mounts =~= t.mounts);
}

/// Adding the same exception twice is the same as adding it once.
pub proof fn lemma_exception_idempotent(s: LinuxPolicy, e: Exception)
    ensures
        step(step(s, e), e) == step(s, e),
{
    let t = step(s, e);
    if e.has_path() {
        let x = t.mounts[e.path()];
        let m = grant_mask(e.grants_write(), e.grants_execute());
        let y = if s.mounts.contains_key(e.path()) { s.mounts[e.path()] } else { DEFAULT_RESTRICTIONS };
        assert((y & !m) & !m == y & !m) by (bit_vector);
        assert(step(t, e).mounts =~= t.mounts);
    }
    if e is Environment {
        assert(step(t, e).env =~= t.env);
    }
}

/// Networking is allowed exactly when some exception asked for it.
pub proof fn lemma_networking_only_when_granted(es: Seq<Exception>)
    ensures
        policy_after(es).allow_networking == exists|i: int|
            0 <= i < es.len() && es[i] is Networking,
    decreases es.len(),
{
    if es.len() > 0 {
        let init = es.drop_last();
        lemma_networking_only_when_granted(init);
        if exists|i: int| 0 <= i < init.len() && init[i] is Networking {
            let i = choose|i: int| 0 <= i < init.len() && init[i] is Networking;
            assert(es[i] == init[i]);
        }
        if exists|i: int| 0 <= i < es.len() && es[i] is Networking {
            let i = choose|i: int| 0 <= i < es.len() && es[i] is Networking;
            if i < init.len() {
                assert(es[i] == init[i]);
            }
        }
    }
}

/// The environment is kept whole exactly when `FullEnvironment` was added,
/// and otherwise the kept names are exactly those of the `Environment`
/// exceptions.
pub proof fn lemma_environment_kept_exactly(es: Seq<Exception>)
    ensures
        policy_after(es).full_env == exists|i: int| 0 <= i < es.len() && es[i] is FullEnvironment,
        forall|k: Seq<char>|
            #[trigger] policy_after(es).env.contains(k) == exists|i: int|
                0 <= i < es.len() && es[i] is Environment && es[i]->Environment_0@ == k,
    decreases es.len(),
{
    if es.len() > 0 {
        let init = es.drop_last();
        lemma_environment_kept_exactly(init);
        assert forall|i: int| 0 <= i < init.len() implies es[i] == init[i] by {}
        assert(es[es.len() - 1] == es.last());
    }
}

proof fn lemma_lock_sequence_contains(p: LinuxPolicy)
    ensures
        lock_sequence(p).contains(LockStep::IsolateNetwork) == !p.allow_networking,
        lock_sequence(p).contains(LockStep::RestrictEnvironment) == !p.full_env,
{
    let s = lock_sequence(p);
    if !p.allow_networking {
        let i: int = if p.full_env { 0 } else { 1 };
        assert(s[i] == LockStep::IsolateNetwork);
    }
    if !p.full_env {
        assert(s[0] == LockStep::RestrictEnvironment);
    }
}

/// Locking isolates the network exactly when no `Networking` exception was
/// added.
pub proof fn lemma_network_isolated_unless_granted(es: Seq<Exception>)
    ensures
        lock_sequence(policy_after(es)).contains(LockStep::IsolateNetwork) == !exists|i: int|
            0 <= i < es.len() && es[i] is Networking,
{
    lemma_networking_only_when_granted(es);
    lemma_lock_sequence_contains(policy_after(es));
}

/// Unless `FullEnvironment` was added, locking restricts the environment to
/// exactly the names of the `Environment` exceptions.
pub proof fn lemma_environment_restricted_unless_kept(es: Seq<Exception>)
    ensures
        lock_sequence(policy_after(es)).contains(LockStep::RestrictEnvironment) == !exists|i: int|
            0 <= i < es.len() && es[i] is FullEnvironment,
        forall|k: Seq<char>|
            #[trigger] policy_after(es).env.contains(k) == exists|i: int|
                0 <= i < es.len() && es[i] is Environment && es[i]->Environment_0@ == k,
{
    lemma_environment_kept_exactly(es);
    lemma_lock_sequence_contains(policy_after(es));
}

/// The policy after a sequence of attempts, each an exception and whether
/// its path was found; refused attempts leave the policy as it was.
pub open spec fn policy_after_attempts(attempts: Seq<(Exception, bool)>) -> LinuxPolicy
    decreases attempts.len(),
{
    if attempts.len() == 0 {
        empty_policy()
    } else {
        let before = policy_after_attempts(attempts.drop_last());
        let (e, found) = attempts.last();
        if e.has_path() && !found {
            before
        } else {
            step(before, e)
        }
    }
}

/// A path is mounted only if an exception naming it was accepted: paths
/// refused as invalid never reach the mounted view.
pub proof fn lemma_refused_paths_never_mounted(attempts: Seq<(Exception, bool)>, path: Seq<char>)
    ensures
        policy_after_attempts(attempts).mounts.contains_key(path) == exists|i: int|
            0 <= i < attempts.len() && attempts[i].1 && attempts[i].0.has_path()
                && attempts[i].0.path() == path,
    decreases attempts.len(),
{
    if attempts.len() > 0 {
        let init = attempts.drop_last();
        lemma_refused_paths_never_mounted(init, path);
        assert forall|i: int| 0 <= i < init.len() implies attempts[i] == init[i] by {}
        assert(attempts[attempts.len() - 1] == attempts.last());
    }
}

/// For the sandbox's own requests, as the host resolved them: the
/// restrictions of each canonical path in the layout are the defaults minus
/// every permission granted to any requested path resolving to it.
pub proof fn lemma_layout_restrictions(
    s: LinuxSandbox,
    es: Seq<Exception>,
    rs: Seq<ResolvedMount>,
    cwd: Option<Seq<u8>>,
    c: Seq<u8>,
)
    requires
        s.wf(),
        s.policy() == policy_after(es),
        rs.len() == s.entries().len(),
        forall|i: int| 0 <= i < rs.len() ==> #[trigger] resolved_from_host(rs[i], s.entries()[i], cwd),
        merged(rs).contains_key(c),
    ensures
        merged(rs)[c] == DEFAULT_RESTRICTIONS & !grants_for(
            rs,
            Seq::new(rs.len(), |i: int| lifted_restrictions(es, s.entries()[i].path@)),
            c,
        ),
{
    let grants = Seq::new(rs.len(), |i: int| lifted_restrictions(es, s.entries()[i].path@));
    assert forall|i: int| 0 <= i < rs.len() implies #[trigger] rs[i].flags.bits
        == DEFAULT_RESTRICTIONS & !grants[i] by {
        let m = s.entries()[i];
        assert(resolved_from_host(rs[i], m, cwd));
        let (c0, t0) = choose|c0: Option<Seq<u8>>, t0: bool|
            (c0 matches Some(x) ==> is_absolute(x)) && #[trigger] resolves_as(
                rs[i],
                m.path@,
                m.flags,
                c0,
                t0,
                cwd,
            );
        lemma_mounts_map_at(s.entries(), i);
        lemma_restrictions_are_defaults_minus_grants(es, m.path@);
    }
    lemma_merged_is_defaults_minus_grants(rs, grants, DEFAULT_RESTRICTIONS, c);
}

} // verus!
