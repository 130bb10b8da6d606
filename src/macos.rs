//! macOS sandboxing: a Seatbelt profile synthesized from the exceptions.
use vstd::prelude::*;
use vstd::utf8::encode_utf8;

use crate::env::{keep_name, names_of};
use crate::error::Error;
use crate::exception::Exception;
use crate::host::canonicalize;
use crate::path::{append_bytes, SLASH};

verus! {

/// Deny-all fallback rules every profile starts with.
pub const DEFAULT_RULE: &'static str = "(version 1)
(import \"system.sb\")
(deny default)
(allow mach*)
(allow ipc*)
(allow signal (target others))
(allow process-fork)
(allow sysctl*)
(allow system*)
(allow file-read-metadata)
(system-network)
";

/// Opening of a rule allowing reads below a path.
pub const READ_RULE: &'static str = "(allow file-read* (subpath ";

/// Opening of a rule allowing writes below a path.
pub const WRITE_RULE: &'static str = "(allow file-write* (subpath ";

/// Opening of a rule allowing execution below a path.
pub const EXEC_RULE: &'static str = "(allow process-exec (subpath ";

/// Closing of a path rule.
pub const RULE_END: &'static str = "))\n";

/// Rule allowing network access.
pub const NETWORK_RULE: &'static str = "(allow network*)\n";

pub const QUOTE: u8 = 0x22;

pub const BACKSLASH: u8 = 0x5c;

/// The bytes of a string.
pub open spec fn bytes_of(s: &str) -> Seq<u8> {
    encode_utf8(s@)
}

/// The path without trailing separators, the root excepted.
pub open spec fn strip_trailing_slashes(p: Seq<u8>) -> Seq<u8>
    decreases p.len(),
{
    if p.len() > 1 && p.last() == SLASH {
        strip_trailing_slashes(p.drop_last())
    } else {
        p
    }
}

/// `"` and `\` each preceded by a backslash.
pub open spec fn escape_bytes(p: Seq<u8>) -> Seq<u8>
    decreases p.len(),
{
    if p.len() == 0 {
        p
    } else {
        let e = escape_bytes(p.drop_last());
        if p.last() == QUOTE || p.last() == BACKSLASH {
            e.push(BACKSLASH).push(p.last())
        } else {
            e.push(p.last())
        }
    }
}

/// A canonical path as a Seatbelt string literal.
pub open spec fn quoted_path(p: Seq<u8>) -> Seq<u8> {
    seq![QUOTE] + escape_bytes(strip_trailing_slashes(p)) + seq![QUOTE]
}

/// One path rule.
pub open spec fn path_rule(head: &str, quoted: Seq<u8>) -> Seq<u8> {
    bytes_of(head) + quoted + bytes_of(RULE_END)
}

/// The rules an exception adds, for a path quoted as `quoted`.
pub open spec fn exception_rules(e: Exception, quoted: Seq<u8>) -> Seq<u8> {
    match e {
        Exception::Read(_) => path_rule(READ_RULE, quoted),
        Exception::WriteAndRead(_) => path_rule(READ_RULE, quoted) + path_rule(WRITE_RULE, quoted),
        Exception::ExecuteAndRead(_) => path_rule(READ_RULE, quoted) + path_rule(EXEC_RULE, quoted),
        Exception::Networking => bytes_of(NETWORK_RULE),
        _ => Seq::empty(),
    }
}

/// The kept variable names after an exception: `Environment(k)` adds `k`.
pub open spec fn env_after(names: Set<Seq<char>>, e: Exception) -> Set<Seq<char>> {
    match e {
        Exception::Environment(k) => names.insert(k@),
        _ => names,
    }
}

/// Whether the environment is kept whole after an exception.
pub open spec fn full_env_after(full: bool, e: Exception) -> bool {
    full || e is FullEnvironment
}

/// The rules `Read(p)` adds stand already at the start of those that
/// `WriteAndRead(p)` or `ExecuteAndRead(p)` added for the same canonical
/// path: reading after either grants nothing new.
pub proof fn lemma_read_rules_already_granted(p: String, quoted: Seq<u8>)
    ensures
        exception_rules(Exception::WriteAndRead(p), quoted) == exception_rules(
            Exception::Read(p),
            quoted,
        ) + path_rule(WRITE_RULE, quoted),
        exception_rules(Exception::ExecuteAndRead(p), quoted) == exception_rules(
            Exception::Read(p),
            quoted,
        ) + path_rule(EXEC_RULE, quoted),
{
}

/// Quote a canonical path for a `subpath` rule: trailing separators are
/// stripped (the root excepted), `"` and `\` are escaped, and the result is
/// wrapped in double quotes.
pub fn quote_path(canonical: &[u8]) -> (r: Vec<u8>)
    ensures
        r@ == quoted_path(canonical@),
{
    let mut end = canonical.len();
    assert(canonical@.take(end as int) =~= canonical@);
    while end > 1 && canonical[end - 1] == SLASH
        invariant
            0 <= end <= canonical@.len(),
            strip_trailing_slashes(canonical@) == strip_trailing_slashes(
                canonical@.take(end as int),
            ),
        decreases end,
    {
        assert(canonical@.take(end as int).drop_last() =~= canonical@.take(end - 1));
        end -= 1;
    }
    let ghost stripped = canonical@.take(end as int);
    assert(strip_trailing_slashes(stripped) == stripped);
    let mut r: Vec<u8> = Vec::new();
    r.push(QUOTE);
    let mut i: usize = 0;
    assert(stripped.take(0) =~= Seq::<u8>::empty());
    while i < end
        invariant
            0 <= i <= end <= canonical@.len(),
            stripped == canonical@.take(end as int),
            r@ == seq![QUOTE] + escape_bytes(stripped.take(i as int)),
        decreases end - i,
    {
        let b = canonical[i];
        assert(stripped.take(i + 1).drop_last() =~= stripped.take(i as int));
        if b == QUOTE || b == BACKSLASH {
            r.push(BACKSLASH);
        }
        r.push(b);
        i += 1;
    }
    assert(stripped.take(end as int) =~= stripped);
    r.push(QUOTE);
    r
}

/// macOS sandboxing based on Seatbelt.
pub struct MacSandbox {
    env_exceptions: Vec<String>,
    profile: Vec<u8>,
    full_env: bool,
}

impl MacSandbox {
    /// The profile synthesized so far.
    pub closed spec fn profile_bytes(&self) -> Seq<u8> {
        self.profile@
    }

    /// The environment variable names to keep.
    pub closed spec fn env_names(&self) -> Set<Seq<char>> {
        names_of(self.env_exceptions@).to_set()
    }

    /// Internal consistency: each variable name is held once.
    pub closed spec fn wf(&self) -> bool {
        names_of(self.env_exceptions@).no_duplicates()
    }

    /// Whether the environment is kept whole.
    pub closed spec fn keeps_full_env(&self) -> bool {
        self.full_env
    }

    /// A sandbox whose profile holds only the deny-all fallback rules.
    pub fn new() -> (r: Self)
        ensures
            r.profile_bytes() == bytes_of(DEFAULT_RULE),
            r.wf(),
            r.env_names() == Set::<Seq<char>>::empty(),
            !r.keeps_full_env(),
    {
        let mut profile: Vec<u8> = Vec::new();
        append_bytes(&mut profile, DEFAULT_RULE.as_bytes());
        let r = MacSandbox { env_exceptions: Vec::new(), profile, full_env: false };
        assert(r.profile_bytes() =~= bytes_of(DEFAULT_RULE));
        assert(names_of(r.env_exceptions@) =~= Seq::<Seq<char>>::empty());
        assert(r.env_names() =~= Set::<Seq<char>>::empty());
        r
    }

    /// Fold an exception in, given the canonical form of its path when it
    /// names one (`None`: the path could not be canonicalized).
    ///
    /// A path-bearing exception without a canonical path is refused with
    /// `InvalidPath` and leaves the sandbox unchanged. Otherwise the
    /// exception's rules are appended to the profile as a whole, and
    /// `Environment` / `FullEnvironment` update the environment state.
    pub fn append_exception(&mut self, exception: Exception, canonical: Option<Vec<u8>>) -> (r:
        Result<(), Error>)
        requires
            old(self).wf(),
        ensures
            final(self).wf(),
            exception.has_path() && canonical is None ==> r == Err::<(), Error>(
                Error::InvalidPath(exception.path_string()),
            ) && *final(self) == *old(self),
            exception.has_path() ==> (canonical matches Some(c) ==> r is Ok
                && final(self).profile_bytes() == old(self).profile_bytes() + exception_rules(
                exception,
                quoted_path(c@),
            ) && final(self).env_names() == old(self).env_names() && final(self).keeps_full_env()
                == old(self).keeps_full_env()),
            !exception.has_path() ==> r is Ok && final(self).profile_bytes() == old(
                self,
            ).profile_bytes() + exception_rules(exception, Seq::empty())
                && final(self).env_names() == env_after(old(self).env_names(), exception)
                && final(self).keeps_full_env() == full_env_after(
                old(self).keeps_full_env(),
                exception,
            ),
    {
        let mut buffer: Vec<u8> = Vec::new();
        let write = matches!(exception, Exception::WriteAndRead(_));
        let execute = matches!(exception, Exception::ExecuteAndRead(_));
        match exception {
            Exception::Environment(key) => {
                keep_name(&mut self.env_exceptions, key);
                assert(self.profile_bytes() =~= old(self).profile_bytes() + Seq::<u8>::empty());
                return Ok(());
            },
            Exception::FullEnvironment => {
                self.full_env = true;
                assert(self.profile_bytes() =~= old(self).profile_bytes() + Seq::<u8>::empty());
                return Ok(());
            },
            Exception::Networking => {
                append_bytes(&mut buffer, NETWORK_RULE.as_bytes());
            },
            Exception::Read(path) | Exception::WriteAndRead(path) | Exception::ExecuteAndRead(
                path,
            ) => {
                let c = match canonical {
                    Some(c) => c,
                    None => {
                        return Err(Error::InvalidPath(path));
                    },
                };
                let quoted = quote_path(c.as_slice());
                append_bytes(&mut buffer, READ_RULE.as_bytes());
                append_bytes(&mut buffer, quoted.as_slice());
                append_bytes(&mut buffer, RULE_END.as_bytes());
                if write {
                    append_bytes(&mut buffer, WRITE_RULE.as_bytes());
                    append_bytes(&mut buffer, quoted.as_slice());
                    append_bytes(&mut buffer, RULE_END.as_bytes());
                }
                if execute {
                    append_bytes(&mut buffer, EXEC_RULE.as_bytes());
                    append_bytes(&mut buffer, quoted.as_slice());
                    append_bytes(&mut buffer, RULE_END.as_bytes());
                }
            },
        }
        append_bytes(&mut self.profile, buffer.as_slice());
        Ok(())
    }

    /// Add an exception, canonicalizing its path on the host first.
    ///
    /// On `Err` the sandbox is unchanged; the only error is `InvalidPath`
    /// with the exception's path, for a path that could not be
    /// canonicalized. On success the rules for some absolute canonical form
    /// of the path are appended, `Environment(k)` keeps `k`, and
    /// `FullEnvironment` keeps the whole environment.
    pub fn add_exception(&mut self, exception: Exception) -> (r: Result<&mut Self, Error>)
        requires
            old(self).wf(),
        ensures
            !exception.has_path() ==> r is Ok,
            r matches Ok(s) ==> *final(self) == *final(s) && s.wf() && s.env_names() == env_after(
                old(self).env_names(),
                exception,
            ) && s.keeps_full_env() == full_env_after(old(self).keeps_full_env(), exception) && (
            !exception.has_path()
                ==> s.profile_bytes() == old(self).profile_bytes() + exception_rules(
                exception,
                Seq::empty(),
            )) && (exception.has_path() ==> exists|c: Seq<u8>|
                c.len() > 0 && c[0] == SLASH && s.profile_bytes() == old(self).profile_bytes()
                    + exception_rules(exception, quoted_path(c))),
            r matches Err(e) ==> exception.has_path() && e == Error::InvalidPath(
                exception.path_string(),
            ) && *final(self) == *old(self),
    {
        let canonical = match exception.requested_path() {
            Some(path) => canonicalize(path),
            None => None,
        };
        match self.append_exception(exception, canonical) {
            Ok(()) => Ok(self),
            Err(e) => Err(e),
        }
    }

    /// The profile synthesized so far.
    pub fn profile(&self) -> (r: &Vec<u8>)
        ensures
            r@ == self.profile_bytes(),
    {
        &self.profile
    }

    /// The environment variable names to keep, each once.
    pub fn env_exceptions(&self) -> (r: &Vec<String>)
        requires
            self.wf(),
        ensures
            names_of(r@).to_set() == self.env_names(),
            names_of(r@).no_duplicates(),
    {
        &self.env_exceptions
    }

    /// Whether the environment is kept whole.
    pub fn full_env(&self) -> (r: bool)
        ensures
            r == self.keeps_full_env(),
    {
        self.full_env
    }
}

} // verus!
