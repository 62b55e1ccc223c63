use vstd::prelude::*;

pub mod beads;
pub mod github;
pub mod local;
pub mod rewrite;

use crate::config::{Config, ConfigError, ConfigView};
use crate::identity::{NativeId, SourceKey};

verus! {

// ── SourceError ─────────────────────────────────────────────────────────────

/// Why a task source operation failed.
#[derive(Debug)]
pub enum SourceError {
    /// The source system is unreachable (binary missing, network down, database locked);
    /// callers warn and skip the source.
    Unavailable { message: String },
    /// The requested task does not exist in this source.
    NotFound { native_id: NativeId },
    /// An underlying I/O failure.
    Io { message: String },
    /// The source's output could not be interpreted.
    Parse { message: String },
    /// The primary action (closing) succeeded but the secondary one (commenting) failed.
    PartialCompletion { message: String },
}

/// The text that a failure carries: its message, or the identifier not found.
pub open spec fn error_detail(e: SourceError) -> Seq<char> {
    match e {
        SourceError::Unavailable { message } => message@,
        SourceError::NotFound { native_id } => native_id@,
        SourceError::Io { message } => message@,
        SourceError::Parse { message } => message@,
        SourceError::PartialCompletion { message } => message@,
    }
}

impl SourceError {
    /// The text that this failure carries.
    pub fn detail(&self) -> (s: String)
        ensures
            s@ == error_detail(*self),
    {
        match self {
            SourceError::Unavailable { message } => message.clone(),
            SourceError::NotFound { native_id } => native_id.0.clone(),
            SourceError::Io { message } => message.clone(),
            SourceError::Parse { message } => message.clone(),
            SourceError::PartialCompletion { message } => message.clone(),
        }
    }
}

} // verus!

verus! {

// ── Subprocesses ────────────────────────────────────────────────────────────

/// What a finished subprocess produced.
#[derive(Debug, Clone)]
pub struct SubprocessOutput {
    /// Raw standard output.
    pub stdout: Vec<u8>,
    /// Raw standard error.
    pub stderr: Vec<u8>,
    /// Exit status; 0 is success.
    pub exit_code: i32,
}

/// A program to run, with each argument passed as a separate process argument
/// (never through a shell) and extra environment variables.
#[derive(Debug)]
pub struct Invocation {
    pub program: String,
    pub args: Vec<String>,
    pub env_vars: Vec<(String, String)>,
}

/// The abstract value of an invocation.
pub struct InvocationView {
    pub program: Seq<char>,
    pub args: Seq<Seq<char>>,
    pub env_vars: Seq<(Seq<char>, Seq<char>)>,
}

impl View for Invocation {
    type V = InvocationView;

    open spec fn view(&self) -> InvocationView {
        InvocationView {
            program: self.program@,
            args: crate::config::strings_view(self.args@),
            env_vars: self.env_vars@.map_values(|p: (String, String)| (p.0@, p.1@)),
        }
    }
}

/// The message for a command that exited unsuccessfully.
pub open spec fn exit_message(program: Seq<char>, code: int) -> Seq<char> {
    program + " exited with status "@ + crate::text::int_text(code)
}

pub fn exit_message_of(program: &str, code: i32) -> (m: String)
    ensures
        m@ == exit_message(program@, code as int),
{
    let mut m = String::from_str(program);
    crate::text::push_str(&mut m, " exited with status ");
    crate::text::push_i32(&mut m, code);
    m
}

/// Builds a string list from literals and values.
pub(crate) fn strings_push(v: &mut Vec<String>, s: &str)
    ensures
        crate::config::strings_view(final(v)@) == crate::config::strings_view(old(v)@).push(s@),
{
    let ghost before = v@;
    v.push(String::from_str(s));
    proof {
        assert(crate::config::strings_view(v@) =~= crate::config::strings_view(before).push(s@));
    }
}

/// Whether a read (`list` or `get`) command succeeded: a non-zero exit makes the
/// source unavailable.
pub fn check_read(program: &str, output: &SubprocessOutput) -> (r: Result<(), SourceError>)
    ensures
        output.exit_code == 0 ==> r is Ok,
        output.exit_code != 0 ==> (r matches Err(SourceError::Unavailable { message })
            && message@ == exit_message(program@, output.exit_code as int)),
{
    if output.exit_code == 0 {
        Ok(())
    } else {
        Err(SourceError::Unavailable { message: exit_message_of(program, output.exit_code) })
    }
}

/// Whether a completing command succeeded: a non-zero exit is an I/O failure.
pub fn check_write(program: &str, output: &SubprocessOutput) -> (r: Result<(), SourceError>)
    ensures
        output.exit_code == 0 ==> r is Ok,
        output.exit_code != 0 ==> (r matches Err(SourceError::Io { message }) && message@
            == exit_message(program@, output.exit_code as int)),
{
    if output.exit_code == 0 {
        Ok(())
    } else {
        Err(SourceError::Io { message: exit_message_of(program, output.exit_code) })
    }
}

} // verus!

verus! {

// ── Source registry ─────────────────────────────────────────────────────────

/// A source adapter: what each source does is decided by its own type.
#[derive(Debug)]
pub enum SourceAdapter {
    Local(local::LocalFileSource),
    Beads(beads::BeadsSource),
    Github(github::GithubSource),
}

impl SourceAdapter {
    /// The key of the source this adapter serves.
    pub open spec fn key_spec(&self) -> SourceKey {
        match self {
            SourceAdapter::Local(_) => SourceKey::Local,
            SourceAdapter::Beads(_) => SourceKey::Beads,
            SourceAdapter::Github(_) => SourceKey::Github,
        }
    }

    /// The key of the source this adapter serves.
    pub fn key(&self) -> (k: SourceKey)
        ensures
            k == self.key_spec(),
    {
        match self {
            SourceAdapter::Local(_) => SourceKey::Local,
            SourceAdapter::Beads(_) => SourceKey::Beads,
            SourceAdapter::Github(_) => SourceKey::Github,
        }
    }
}

/// Whether the configuration has a section for `k`.
pub open spec fn configured(c: ConfigView, k: SourceKey) -> bool {
    match k {
        SourceKey::Local => c.local is Some,
        SourceKey::Beads => c.beads is Some,
        SourceKey::Github => c.github is Some,
    }
}

/// The sources consulted, in order: the first `n` priority keys that have a
/// section, each once.
pub open spec fn registry_keys(prio: Seq<SourceKey>, c: ConfigView, n: int) -> Seq<SourceKey>
    decreases n,
{
    if n <= 0 {
        Seq::empty()
    } else {
        let acc = registry_keys(prio, c, n - 1);
        let k = prio[n - 1];
        if configured(c, k) && !acc.contains(k) {
            acc.push(k)
        } else {
            acc
        }
    }
}

/// The adapter built for key `k` from the configuration `c`.
pub open spec fn adapter_matches(a: SourceAdapter, k: SourceKey, c: ConfigView) -> bool {
    a.key_spec() == k && match a {
        SourceAdapter::Local(s) => c.local matches Some(p) && s@ == crate::config::normalised(p),
        SourceAdapter::Beads(s) => c.beads == Some(s.beads_dir()),
        SourceAdapter::Github(s) => c.github == Some((s.repo(), s.labels())),
    }
}

pub open spec fn keys_of(v: Seq<(SourceKey, SourceAdapter)>) -> Seq<SourceKey> {
    v.map_values(|p: (SourceKey, SourceAdapter)| p.0)
}

/// The configured adapters in priority order.
#[derive(Debug)]
pub struct SourceRegistry {
    ordered_sources: Vec<(SourceKey, SourceAdapter)>,
}

impl SourceRegistry {
    /// The keys of the registered sources, in priority order.
    pub closed spec fn keys(&self) -> Seq<SourceKey> {
        keys_of(self.ordered_sources@)
    }

    /// The registered sources, in priority order.
    pub closed spec fn entries(&self) -> Seq<(SourceKey, SourceAdapter)> {
        self.ordered_sources@
    }

    /// The keys are those of the entries.
    pub proof fn lemma_keys_of_entries(&self)
        ensures
            self.keys() == keys_of(self.entries()),
    {
    }

    /// Builds the adapters in priority order. A key without a section is
    /// skipped, a repeated key is used once. The local source's path must be
    /// absolute and normalised, else `ConfigError::Invalid`.
    pub fn from_config(config: &Config) -> (r: Result<Self, ConfigError>)
        ensures
            ({
                let keys = registry_keys(config@.priority, config@, config@.priority.len() as int);
                match r {
                    Ok(reg) => reg.keys() == keys && reg.entries().len() == keys.len() && forall|i: int|
                        0 <= i < keys.len() ==> adapter_matches(
                            #[trigger] reg.entries()[i].1,
                            keys[i],
                            config@,
                        ),
                    Err(e) => keys.contains(SourceKey::Local) && !crate::config::local_path_ok(
                        config@.local->0,
                    ) && (e matches ConfigError::Invalid { message } && message@
                        == "the local task file path is not absolute or climbs with `..`"@),
                }
            }),
    {
        let ghost prio = config@.priority;
        let mut out: Vec<(SourceKey, SourceAdapter)> = Vec::new();
        let mut i: usize = 0;
        while i < config.sources.priority.len()
            invariant
                i <= prio.len(),
                prio == config@.priority,
                keys_of(out@) == registry_keys(prio, config@, i as int),
                forall|j: int|
                    0 <= j < out@.len() ==> adapter_matches(
                        #[trigger] out@[j].1,
                        keys_of(out@)[j],
                        config@,
                    ),
            decreases prio.len() - i,
        {
            let k = config.sources.priority[i];
            let mut seen = false;
            let mut j: usize = 0;
            while j < out.len()
                invariant
                    j <= out@.len(),
                    seen == exists|m: int| 0 <= m < j && keys_of(out@)[m] == k,
                decreases out@.len() - j,
            {
                proof {
                    assert(keys_of(out@)[j as int] == out@[j as int].0);
                }
                if out[j].0 == k {
                    seen = true;
                }
                j = j + 1;
            }
            proof {
                assert(seen == keys_of(out@).contains(k));
            }
            if !seen {
                let adapter = match k {
                    SourceKey::Local => match &config.sources.local {
                        Some(l) => match local::LocalFileSource::new(l) {
                            Ok(s) => Some(SourceAdapter::Local(s)),
                            Err(e) => {
                                proof {
                                    let acc = registry_keys(prio, config@, i as int);
                                    assert(prio[i as int] == k);
                                    assert(configured(config@, k));
                                    assert(!acc.contains(k));
                                    assert(registry_keys(prio, config@, i + 1) == acc.push(k));
                                    assert(registry_keys(prio, config@, i + 1)[acc.len() as int] == k);
                                    assert(registry_keys(prio, config@, i + 1).contains(SourceKey::Local));
                                    lemma_registry_keys_grow(prio, config@, i + 1, prio.len() as int, SourceKey::Local);
                                }
                                return Err(e);
                            },
                        },
                        None => None,
                    },
                    SourceKey::Beads => match &config.sources.beads {
                        Some(b) => Some(
                            SourceAdapter::Beads(
                                beads::BeadsSource::new(
                                    crate::config::BeadsSourceConfig {
                                        beads_dir: match &b.beads_dir {
                                            Some(d) => Some(d.clone()),
                                            None => None,
                                        },
                                    },
                                ),
                            ),
                        ),
                        None => None,
                    },
                    SourceKey::Github => match &config.sources.github {
                        Some(g) => Some(
                            SourceAdapter::Github(
                                github::GithubSource::new(
                                    crate::config::GithubSourceConfig {
                                        repo: g.repo.clone(),
                                        labels: crate::config::clone_strings(&g.labels),
                                    },
                                ),
                            ),
                        ),
                        None => None,
                    },
                };
                match adapter {
                    Some(a) => {
                        let ghost before = out@;
                        out.push((k, a));
                        proof {
                            assert(keys_of(out@) =~= keys_of(before).push(k));
                            assert forall|j: int|
                                0 <= j < out@.len() implies adapter_matches(
                                #[trigger] out@[j].1,
                                keys_of(out@)[j],
                                config@,
                            ) by {
                                if j < before.len() {
                                    assert(out@[j] == before[j]);
                                    assert(keys_of(out@)[j] == keys_of(before)[j]);
                                }
                            }
                        }
                    },
                    None => {},
                }
            }
            i = i + 1;
        }
        Ok(SourceRegistry { ordered_sources: out })
    }

    /// The registered sources in priority order, each with its key.
    pub fn ordered_sources(&self) -> (r: &[(SourceKey, SourceAdapter)])
        ensures
            r@ == self.entries(),
    {
        self.ordered_sources.as_slice()
    }

    /// The adapter of source `key`, if it is registered.
    pub fn find_source(&self, key: &SourceKey) -> (r: Option<&SourceAdapter>)
        ensures
            match r {
                Some(a) => exists|i: int|
                    0 <= i < self.keys().len() && self.keys()[i] == *key && self.entries()[i].1 == *a
                        && forall|j: int| 0 <= j < i ==> self.keys()[j] != *key,
                None => !self.keys().contains(*key),
            },
    {
        match self.source_order(key) {
            Some(i) => Some(&self.ordered_sources[i].1),
            None => None,
        }
    }

    /// The 0-based position of source `key` in the priority order, if registered.
    pub fn source_order(&self, key: &SourceKey) -> (r: Option<usize>)
        ensures
            match r {
                Some(i) => i < self.keys().len() && self.keys()[i as int] == *key && forall|j: int|
                    0 <= j < i ==> self.keys()[j] != *key,
                None => !self.keys().contains(*key),
            },
    {
        let mut i: usize = 0;
        while i < self.ordered_sources.len()
            invariant
                i <= self.ordered_sources@.len(),
                forall|j: int| 0 <= j < i ==> self.keys()[j] != *key,
            decreases self.ordered_sources@.len() - i,
        {
            if self.ordered_sources[i].0 == *key {
                return Some(i);
            }
            i = i + 1;
        }
        None
    }
}

proof fn lemma_registry_keys_grow(prio: Seq<SourceKey>, c: ConfigView, i: int, n: int, k: SourceKey)
    requires
        0 <= i <= n,
        registry_keys(prio, c, i).contains(k),
    ensures
        registry_keys(prio, c, n).contains(k),
    decreases n - i,
{
    if i < n {
        lemma_registry_keys_grow(prio, c, i, n - 1, k);
        let acc = registry_keys(prio, c, n - 1);
        let j = choose|j: int| 0 <= j < acc.len() && acc[j] == k;
        if configured(c, prio[n - 1]) && !acc.contains(prio[n - 1]) {
            assert(acc.push(prio[n - 1])[j] == k);
        }
    }
}


/// The registry consults each source at most once, and only sources that
/// have a section in the configuration, all taken from the priority order.
pub proof fn lemma_registry_keys_distinct(prio: Seq<SourceKey>, c: ConfigView, n: int)
    requires
        n <= prio.len(),
    ensures
        registry_keys(prio, c, n).no_duplicates(),
        forall|i: int|
            0 <= i < registry_keys(prio, c, n).len() ==> configured(
                c,
                #[trigger] registry_keys(prio, c, n)[i],
            ) && prio.contains(registry_keys(prio, c, n)[i]),
    decreases n,
{
    if n > 0 {
        lemma_registry_keys_distinct(prio, c, n - 1);
        let acc = registry_keys(prio, c, n - 1);
        let cur = registry_keys(prio, c, n);
        assert forall|i: int| 0 <= i < cur.len() implies configured(c, #[trigger] cur[i])
            && prio.contains(cur[i]) by {
            if i < acc.len() {
                assert(cur[i] == acc[i]);
            } else {
                assert(prio[n - 1] == cur[i]);
                assert(prio.contains(cur[i]));
            }
        }
    }
}

} // verus!
