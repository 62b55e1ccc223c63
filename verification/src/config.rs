use vstd::prelude::*;

use crate::identity::{key_of, key_text, SourceKey};
use crate::text::{
    chars_of, join_with, lemma_split_nonempty, nested_view, push_char, seq_equals, split_chars,
    split_on, string_of,
};

verus! {

// ── Paths ───────────────────────────────────────────────────────────────────
//
// Paths are handled as text with `/` separators and normalised lexically:
// empty and `.` components are dropped, `..` removes the preceding component;
// a `..` with nothing left to remove is dropped at the top of an absolute path
// and kept at the start of a relative one.

/// Whether a path is absolute (starts with `/`).
pub open spec fn is_abs(p: Seq<char>) -> bool {
    p.len() > 0 && p[0] == '/'
}

/// Lexical normalisation of a list of path components, for an absolute path
/// when `abs`.
pub open spec fn norm(abs: bool, ps: Seq<Seq<char>>) -> Seq<Seq<char>>
    decreases ps.len(),
{
    if ps.len() == 0 {
        Seq::empty()
    } else {
        let st = norm(abs, ps.drop_last());
        let c = ps.last();
        if c.len() == 0 || c == "."@ {
            st
        } else if c == ".."@ {
            if st.len() > 0 && st.last() != ".."@ {
                st.drop_last()
            } else if abs {
                st
            } else {
                st.push(c)
            }
        } else {
            st.push(c)
        }
    }
}

/// The normalised components of a path.
pub open spec fn path_parts(p: Seq<char>) -> Seq<Seq<char>> {
    norm(is_abs(p), split_on(p, '/'))
}

/// The text of a normalised path.
pub open spec fn render(abs: bool, st: Seq<Seq<char>>) -> Seq<char> {
    if abs {
        seq!['/'] + join_with(st, '/')
    } else {
        join_with(st, '/')
    }
}

/// The components of `p` taken relative to the directory `dir` (an absolute `p`
/// stands alone).
pub open spec fn resolved_parts(dir: Seq<char>, p: Seq<char>) -> Seq<Seq<char>> {
    if is_abs(p) {
        path_parts(p)
    } else {
        norm(is_abs(dir), split_on(dir, '/') + split_on(p, '/'))
    }
}

/// `p` resolved against `dir` and normalised.
pub open spec fn resolve(dir: Seq<char>, p: Seq<char>) -> Seq<char> {
    render(is_abs(dir) || is_abs(p), resolved_parts(dir, p))
}

/// Whether `p`, resolved against `dir`, lies strictly below `dir`: its
/// components extend the directory's with one that is not `..`.
pub open spec fn within(dir: Seq<char>, p: Seq<char>) -> bool {
    let b = path_parts(dir);
    let r = resolved_parts(dir, p);
    b.len() < r.len() && r.take(b.len() as int) == b && r[b.len() as int] != ".."@
}

/// A usable task file path: absolute, without a `..` component, and naming a
/// file once normalised.
pub open spec fn local_path_ok(p: Seq<char>) -> bool {
    &&& is_abs(p)
    &&& !split_on(p, '/').contains(".."@)
    &&& path_parts(p).len() > 0
}

/// The normalised form of an absolute path.
pub open spec fn normalised(p: Seq<char>) -> Seq<char> {
    render(true, path_parts(p))
}

/// The directory that holds the file at `p`.
pub open spec fn parent_of(p: Seq<char>) -> Seq<char> {
    render(is_abs(p), path_parts(p).drop_last())
}

pub(crate) fn normalize(abs: bool, ps: &Vec<Vec<char>>) -> (r: Vec<Vec<char>>)
    ensures
        nested_view(r@) == norm(abs, nested_view(ps@)),
{
    let dot = chars_of(".");
    let dotdot = chars_of("..");
    let mut st: Vec<Vec<char>> = Vec::new();
    let mut i: usize = 0;
    while i < ps.len()
        invariant
            i <= ps@.len(),
            dot@ == "."@,
            dotdot@ == ".."@,
            nested_view(st@) == norm(abs, nested_view(ps@).take(i as int)),
        decreases ps@.len() - i,
    {
        let ghost pv = nested_view(ps@);
        proof {
            assert(pv.take(i + 1).drop_last() =~= pv.take(i as int));
            assert(pv.take(i + 1).last() == ps@[i as int]@);
        }
        let c = &ps[i];
        if c.len() == 0 || seq_equals(c, &dot) {
        } else if seq_equals(c, &dotdot) {
            let top_is_up = st.len() > 0 && seq_equals(&st[st.len() - 1], &dotdot);
            proof {
                if st@.len() > 0 {
                    assert(nested_view(st@).last() == st@[st@.len() - 1]@);
                }
            }
            if st.len() > 0 && !top_is_up {
                st.pop();
                proof {
                    assert(nested_view(st@) =~= norm(abs, pv.take(i as int)).drop_last());
                }
            } else if !abs {
                st.push(c.clone());
                proof {
                    assert(nested_view(st@) =~= norm(abs, pv.take(i as int)).push(c@));
                }
            }
        } else {
            st.push(c.clone());
            proof {
                assert(nested_view(st@) =~= norm(abs, pv.take(i as int)).push(c@));
            }
        }
        i = i + 1;
    }
    proof {
        assert(nested_view(ps@).take(ps@.len() as int) =~= nested_view(ps@));
    }
    st
}

/// Whether some component is `..`.
pub(crate) fn has_parent_step(ps: &Vec<Vec<char>>) -> (b: bool)
    ensures
        b == nested_view(ps@).contains(".."@),
{
    let up = chars_of("..");
    let mut i: usize = 0;
    while i < ps.len()
        invariant
            i <= ps@.len(),
            up@ == ".."@,
            forall|j: int| 0 <= j < i ==> nested_view(ps@)[j] != ".."@,
        decreases ps@.len() - i,
    {
        proof {
            assert(nested_view(ps@)[i as int] == ps@[i as int]@);
        }
        if seq_equals(&ps[i], &up) {
            return true;
        }
        i = i + 1;
    }
    false
}

/// Joins the components with `/`, after a leading `/` when `abs`.
pub(crate) fn render_parts(abs: bool, st: &Vec<Vec<char>>) -> (r: String)
    ensures
        r@ == render(abs, nested_view(st@)),
{
    let mut out: Vec<char> = Vec::new();
    if abs {
        out.push('/');
    }
    let ghost start = out@;
    let mut i: usize = 0;
    while i < st.len()
        invariant
            i <= st@.len(),
            out@ == start + join_with(nested_view(st@).take(i as int), '/'),
        decreases st@.len() - i,
    {
        let ghost sv = nested_view(st@);
        proof {
            assert(sv.take(i + 1).drop_last() =~= sv.take(i as int));
        }
        if i > 0 {
            out.push('/');
        }
        let mut k: usize = 0;
        let ghost mid = out@;
        while k < st[i].len()
            invariant
                i < st@.len(),
                k <= st@[i as int]@.len(),
                out@ == mid + st@[i as int]@.take(k as int),
            decreases st@[i as int]@.len() - k,
        {
            out.push(st[i][k]);
            proof {
                assert(st@[i as int]@.take(k + 1) =~= st@[i as int]@.take(k as int).push(
                    st@[i as int]@[k as int],
                ));
            }
            k = k + 1;
        }
        proof {
            assert(st@[i as int]@.take(k as int) =~= st@[i as int]@);
            assert(sv.take(i + 1).last() == st@[i as int]@);
            if i == 0 {
                assert(join_with(sv.take(0), '/') =~= Seq::<char>::empty());
            }
            assert(out@ =~= start + join_with(sv.take(i + 1), '/'));
        }
        i = i + 1;
    }
    proof {
        assert(nested_view(st@).take(st@.len() as int) =~= nested_view(st@));
        assert(start + join_with(nested_view(st@), '/') =~= render(abs, nested_view(st@)));
    }
    string_of(&out)
}

/// The resolution of `p` against `dir`: the normalised components, the rendered
/// path, and whether it lies strictly below `dir`.
fn resolve_under(dir: &Vec<char>, p: &Vec<char>) -> (r: (String, bool))
    ensures
        r.0@ == resolve(dir@, p@),
        r.1 == within(dir@, p@),
{
    let p_abs = p.len() > 0 && p[0] == '/';
    let d_abs = dir.len() > 0 && dir[0] == '/';
    let dparts = split_chars(dir, '/');
    let pparts = split_chars(p, '/');
    let base = normalize(d_abs, &dparts);
    let res = if p_abs {
        normalize(true, &pparts)
    } else {
        let mut all = dparts;
        let mut extra = pparts;
        let ghost a = nested_view(all@);
        let ghost b = nested_view(extra@);
        all.append(&mut extra);
        proof {
            assert(nested_view(all@) =~= a + b);
        }
        normalize(d_abs, &all)
    };
    let rendered = render_parts(d_abs || p_abs, &res);
    let mut inside = base.len() < res.len();
    let mut i: usize = 0;
    while inside && i < base.len()
        invariant
            inside ==> base@.len() < res@.len(),
            i <= base@.len(),
            inside ==> forall|j: int| 0 <= j < i ==> nested_view(res@)[j] == nested_view(base@)[j],
            !inside ==> !within(dir@, p@),
            nested_view(base@) == path_parts(dir@),
            nested_view(res@) == resolved_parts(dir@, p@),
        decreases base@.len() - i,
    {
        if !seq_equals(&res[i], &base[i]) {
            proof {
                assert(nested_view(res@).take(base@.len() as int)[i as int] != nested_view(base@)[i as int]);
            }
            inside = false;
        }
        i = i + 1;
    }
    proof {
        if inside {
            assert(nested_view(res@).take(base@.len() as int) =~= nested_view(base@));
        }
    }
    if inside {
        let up = chars_of("..");
        let next_up = seq_equals(&res[base.len()], &up);
        proof {
            assert(nested_view(res@)[base@.len() as int] == res@[base@.len() as int]@);
        }
        if next_up {
            inside = false;
        }
    }
    (rendered, inside)
}

// ── Configuration types ─────────────────────────────────────────────────────

/// The configuration file's name.
pub const CONFIG_FILE_NAME: &'static str = "task-marshal.toml";

/// The local task file, relative to the configuration file's directory, when none is given.
pub const DEFAULT_LOCAL_PATH: &'static str = ".llm/tasks.md";

/// Complete, validated configuration.
#[derive(Debug, Clone)]
pub struct Config {
    /// The configuration of every source.
    pub sources: SourcesConfig,
    /// The directory that holds the configuration file; relative paths are resolved against it.
    pub config_dir: String,
}

/// The configuration of all task sources.
#[derive(Debug, Clone)]
pub struct SourcesConfig {
    /// Source keys in priority order, without duplicates (first occurrence kept).
    pub priority: Vec<SourceKey>,
    /// The local markdown source; `None` without a `[sources.local]` section.
    pub local: Option<LocalSourceConfig>,
    /// The BEADS source; `None` without a `[sources.beads]` section.
    pub beads: Option<BeadsSourceConfig>,
    /// The GitHub source; `None` without a `[sources.gh]` section.
    pub github: Option<GithubSourceConfig>,
}

/// The local markdown task file source.
#[derive(Debug, Clone)]
pub struct LocalSourceConfig {
    /// Absolute, normalised path of the task file.
    pub path: String,
}

/// The BEADS CLI source.
#[derive(Debug, Clone)]
pub struct BeadsSourceConfig {
    /// Absolute, normalised BEADS database directory, passed as `BEADS_DIR` when set.
    pub beads_dir: Option<String>,
}

/// The GitHub Issues CLI source.
#[derive(Debug, Clone)]
pub struct GithubSourceConfig {
    /// Repository in `owner/repo` form.
    pub repo: String,
    /// Labels that issues must all carry; empty for no label filter.
    pub labels: Vec<String>,
}

/// Why the configuration could not be found, read or accepted.
#[derive(Debug)]
pub enum ConfigError {
    /// No configuration file in the start directory or any ancestor.
    NotFound { start_dir: String },
    /// The file exists but could not be read.
    Io { path: String, message: String },
    /// The file is not valid TOML.
    ParseFailed { path: String, message: String },
    /// Valid TOML whose content breaks a rule (unknown key, bad repository, path escape).
    Invalid { message: String },
}

// ── The decoded TOML document ───────────────────────────────────────────────

/// `[sources.local]` as written.
#[derive(Debug)]
pub struct RawLocal {
    pub path: Option<String>,
}

/// `[sources.beads]` as written.
#[derive(Debug)]
pub struct RawBeads {
    pub beads_dir: Option<String>,
}

/// `[sources.gh]` as written.
#[derive(Debug)]
pub struct RawGithub {
    pub repo: Option<String>,
    pub labels: Option<Vec<String>>,
}

/// The `[sources]` table of the configuration file, as decoded from TOML and
/// before any validation.
#[derive(Debug)]
pub struct RawConfig {
    pub priority: Option<Vec<String>>,
    pub local: Option<RawLocal>,
    pub beads: Option<RawBeads>,
    pub github: Option<RawGithub>,
}

} // verus!

verus! {

// ── Abstract values ─────────────────────────────────────────────────────────

pub open spec fn opt_seq(s: Option<String>) -> Option<Seq<char>> {
    match s {
        Some(x) => Some(x@),
        None => None,
    }
}

pub open spec fn strings_view(v: Seq<String>) -> Seq<Seq<char>> {
    v.map_values(|x: String| x@)
}

pub open spec fn opt_strings(v: Option<Vec<String>>) -> Option<Seq<Seq<char>>> {
    match v {
        Some(x) => Some(strings_view(x@)),
        None => None,
    }
}

/// The abstract value of a decoded document.
pub struct RawView {
    pub priority: Option<Seq<Seq<char>>>,
    pub local: Option<Option<Seq<char>>>,
    pub beads: Option<Option<Seq<char>>>,
    pub github: Option<(Option<Seq<char>>, Option<Seq<Seq<char>>>)>,
}

impl View for RawConfig {
    type V = RawView;

    open spec fn view(&self) -> RawView {
        RawView {
            priority: opt_strings(self.priority),
            local: match self.local {
                Some(l) => Some(opt_seq(l.path)),
                None => None,
            },
            beads: match self.beads {
                Some(b) => Some(opt_seq(b.beads_dir)),
                None => None,
            },
            github: match self.github {
                Some(g) => Some((opt_seq(g.repo), opt_strings(g.labels))),
                None => None,
            },
        }
    }
}

/// The abstract value of a validated configuration.
pub struct ConfigView {
    pub priority: Seq<SourceKey>,
    pub local: Option<Seq<char>>,
    pub beads: Option<Option<Seq<char>>>,
    pub github: Option<(Seq<char>, Seq<Seq<char>>)>,
    pub config_dir: Seq<char>,
}

impl View for SourcesConfig {
    type V = ConfigView;

    open spec fn view(&self) -> ConfigView {
        ConfigView {
            priority: self.priority@,
            local: match self.local {
                Some(l) => Some(l.path@),
                None => None,
            },
            beads: match self.beads {
                Some(b) => Some(opt_seq(b.beads_dir)),
                None => None,
            },
            github: match self.github {
                Some(g) => Some((g.repo@, strings_view(g.labels@))),
                None => None,
            },
            config_dir: Seq::empty(),
        }
    }
}

impl View for Config {
    type V = ConfigView;

    open spec fn view(&self) -> ConfigView {
        ConfigView { config_dir: self.config_dir@, ..self.sources@ }
    }
}

// ── Validation rules ────────────────────────────────────────────────────────

/// The keys of the first `n` priority entries, duplicates dropped (first kept);
/// `None` when one of them is not a source key.
pub open spec fn priority_prefix(ks: Seq<Seq<char>>, n: int) -> Option<Seq<SourceKey>>
    decreases n,
{
    if n <= 0 {
        Some(Seq::empty())
    } else {
        match priority_prefix(ks, n - 1) {
            None => None,
            Some(acc) => match key_of(ks[n - 1]) {
                None => None,
                Some(k) => Some(
                    if acc.contains(k) {
                        acc
                    } else {
                        acc.push(k)
                    },
                ),
            },
        }
    }
}

/// The order used when the document gives none.
pub open spec fn default_priority() -> Seq<SourceKey> {
    seq![SourceKey::Local, SourceKey::Beads, SourceKey::Github]
}

/// The validated priority list, or `None` when an entry is not a source key.
pub open spec fn priority_outcome(p: Option<Seq<Seq<char>>>) -> Option<Seq<SourceKey>> {
    match p {
        None => Some(default_priority()),
        Some(ks) => priority_prefix(ks, ks.len() as int),
    }
}

/// A path option resolved under `dir`; `None` when the resolved path escapes it.
pub open spec fn resolved_within(dir: Seq<char>, p: Seq<char>) -> Option<Seq<char>> {
    if within(dir, p) {
        Some(resolve(dir, p))
    } else {
        None
    }
}

/// `owner/repo`: exactly one `/`, with text on both sides.
pub open spec fn repo_valid(r: Seq<char>) -> bool {
    let parts = split_on(r, '/');
    parts.len() == 2 && parts[0].len() > 0 && parts[1].len() > 0
}

/// The configuration that a decoded document at `path` yields, or `None` when
/// the document breaks a rule.
pub open spec fn config_outcome(path: Seq<char>, raw: RawView) -> Option<ConfigView> {
    let dir = parent_of(path);
    let prio = priority_outcome(raw.priority);
    let local: Option<Option<Seq<char>>> = match raw.local {
        None => Some(None),
        Some(p) => match resolved_within(
            dir,
            match p {
                Some(x) => x,
                None => DEFAULT_LOCAL_PATH@,
            },
        ) {
            Some(q) => Some(Some(q)),
            None => None,
        },
    };
    let beads: Option<Option<Option<Seq<char>>>> = match raw.beads {
        None => Some(None),
        Some(None) => Some(Some(None)),
        Some(Some(d)) => match resolved_within(dir, d) {
            Some(q) => Some(Some(Some(q))),
            None => None,
        },
    };
    let github: Option<Option<(Seq<char>, Seq<Seq<char>>)>> = match raw.github {
        None => Some(None),
        Some((repo, labels)) => match repo {
            Some(r) => if repo_valid(r) {
                Some(
                    Some(
                        (
                            r,
                            match labels {
                                Some(l) => l,
                                None => Seq::empty(),
                            },
                        ),
                    ),
                )
            } else {
                None
            },
            None => None,
        },
    };
    if path_parts(path).len() == 0 || path_parts(path).last() == ".."@ || prio is None || local is None || beads is None
        || github is None {
        None
    } else {
        Some(
            ConfigView {
                priority: prio->0,
                local: local->0,
                beads: beads->0,
                github: github->0,
                config_dir: dir,
            },
        )
    }
}

/// The message for a document at `path` that breaks a rule: that of the first
/// rule it breaks, taken in the order path, priority, local path, `beads_dir`,
/// repository.
pub open spec fn config_problem(path: Seq<char>, raw: RawView) -> Seq<char> {
    let dir = parent_of(path);
    if path_parts(path).len() == 0 || path_parts(path).last() == ".."@ {
        "the configuration path names no file"@
    } else if priority_outcome(raw.priority) is None {
        "sources.priority names an unknown source key"@
    } else if raw.local matches Some(p) && !within(
        dir,
        match p {
            Some(x) => x,
            None => DEFAULT_LOCAL_PATH@,
        },
    ) {
        "sources.local.path escapes the project directory"@
    } else if raw.beads matches Some(Some(d)) && !within(dir, d) {
        "sources.beads.beads_dir escapes the project directory"@
    } else if raw.github matches Some(g) && g.0 is None {
        "sources.gh.repo is required"@
    } else {
        "sources.gh.repo must have the form owner/repo"@
    }
}

/// The path of the configuration file in the `i`-th directory up from `start`
/// (`i == 0` is `start` itself).
pub open spec fn candidate(start: Seq<char>, i: int) -> Seq<char> {
    let parts = path_parts(start);
    render(is_abs(start), parts.take(parts.len() - i).push(CONFIG_FILE_NAME@))
}

/// How many directories lie on the way from `start` up to the top.
pub open spec fn candidate_count(start: Seq<char>) -> int {
    path_parts(start).len() + 1int
}

/// Index of the first `true` among the first `n` flags, or `-1`.
pub open spec fn first_true(flags: Seq<bool>, n: int) -> int
    decreases n,
{
    if n <= 0 {
        -1
    } else {
        let r = first_true(flags, n - 1);
        if r >= 0 {
            r
        } else if flags[n - 1] {
            n - 1
        } else {
            -1
        }
    }
}

} // verus!

verus! {

fn priority_keys(ks: &Vec<String>) -> (r: Option<Vec<SourceKey>>)
    ensures
        match priority_prefix(strings_view(ks@), ks@.len() as int) {
            Some(p) => r matches Some(v) && v@ == p,
            None => r is None,
        },
{
    let ghost kv = strings_view(ks@);
    let mut acc: Vec<SourceKey> = Vec::new();
    let mut i: usize = 0;
    while i < ks.len()
        invariant
            i <= ks@.len(),
            kv == strings_view(ks@),
            priority_prefix(kv, i as int) == Some(acc@),
        decreases ks@.len() - i,
    {
        match SourceKey::from_str(ks[i].as_str()) {
            None => {
                proof {
                    assert(kv[i as int] == ks@[i as int]@);
                    lemma_prefix_none_stays(kv, i + 1, ks@.len() as int);
                }
                return None;
            },
            Some(k) => {
                proof {
                    assert(kv[i as int] == ks@[i as int]@);
                }
                let mut seen = false;
                let mut j: usize = 0;
                while j < acc.len()
                    invariant
                        j <= acc@.len(),
                        seen == exists|m: int| 0 <= m < j && acc@[m] == k,
                    decreases acc@.len() - j,
                {
                    if acc[j] == k {
                        seen = true;
                    }
                    j = j + 1;
                }
                if !seen {
                    acc.push(k);
                }
            },
        }
        i = i + 1;
    }
    Some(acc)
}

proof fn lemma_prefix_none_stays(ks: Seq<Seq<char>>, i: int, n: int)
    requires
        0 < i <= n,
        priority_prefix(ks, i) is None,
    ensures
        priority_prefix(ks, n) is None,
    decreases n - i,
{
    if i < n {
        lemma_prefix_none_stays(ks, i + 1, n);
    }
}

proof fn lemma_priority_prefix_distinct(ks: Seq<Seq<char>>, n: int)
    ensures
        priority_prefix(ks, n) matches Some(acc) ==> acc.no_duplicates(),
    decreases n,
{
    if n > 0 {
        lemma_priority_prefix_distinct(ks, n - 1);
    }
}

/// A loaded configuration names each source at most once in its priority order.
pub proof fn lemma_config_priority_distinct(path: Seq<char>, raw: RawView)
    ensures
        config_outcome(path, raw) matches Some(c) ==> c.priority.no_duplicates(),
{
    match raw.priority {
        None => {
            assert(default_priority().no_duplicates());
        },
        Some(ks) => {
            lemma_priority_prefix_distinct(ks, ks.len() as int);
        },
    }
}

/// Whether `r` has the form `owner/repo`.
fn repo_ok(r: &String) -> (b: bool)
    ensures
        b == repo_valid(r@),
{
    let parts = split_chars(&chars_of(r.as_str()), '/');
    parts.len() == 2 && parts[0].len() > 0 && parts[1].len() > 0
}

pub(crate) fn clone_strings(v: &Vec<String>) -> (r: Vec<String>)
    ensures
        strings_view(r@) == strings_view(v@),
{
    let mut r: Vec<String> = Vec::new();
    let mut i: usize = 0;
    while i < v.len()
        invariant
            i <= v@.len(),
            r@.len() == i,
            forall|j: int| 0 <= j < i ==> r@[j]@ == v@[j]@,
        decreases v@.len() - i,
    {
        r.push(v[i].clone());
        i = i + 1;
    }
    proof {
        assert(strings_view(r@) =~= strings_view(v@));
    }
    r
}

fn invalid(message: &str) -> (e: ConfigError)
    ensures
        e matches ConfigError::Invalid { message: m } && m@ == message@,
{
    ConfigError::Invalid { message: String::from_str(message) }
}

fn copy_chars(v: &Vec<char>) -> (r: Vec<char>)
    ensures
        r@ == v@,
{
    let r = crate::text::copy_range(v, 0, v.len());
    proof {
        assert(v@.subrange(0, v@.len() as int) =~= v@);
    }
    r
}

/// The configuration file path `i` levels up from the directory with components `parts`.
fn candidate_at(
    abs: bool,
    parts: &Vec<Vec<char>>,
    name: &Vec<char>,
    i: usize,
    Ghost(start): Ghost<Seq<char>>,
) -> (c: String)
    requires
        i <= parts@.len(),
        nested_view(parts@) == path_parts(start),
        abs == is_abs(start),
        name@ == CONFIG_FILE_NAME@,
    ensures
        c@ == candidate(start, i as int),
{
    let mut prefix: Vec<Vec<char>> = Vec::new();
    let keep = parts.len() - i;
    let mut k: usize = 0;
    while k < keep
        invariant
            keep <= parts@.len(),
            k <= keep,
            nested_view(prefix@) == nested_view(parts@).take(k as int),
        decreases keep - k,
    {
        prefix.push(copy_chars(&parts[k]));
        proof {
            assert(nested_view(parts@).take(k + 1) =~= nested_view(parts@).take(k as int).push(
                parts@[k as int]@,
            ));
            assert(nested_view(prefix@) =~= nested_view(parts@).take(k + 1));
        }
        k = k + 1;
    }
    prefix.push(copy_chars(name));
    proof {
        assert(nested_view(prefix@) =~= path_parts(start).take(path_parts(start).len() - i).push(
            CONFIG_FILE_NAME@,
        ));
    }
    render_parts(abs, &prefix)
}

/// `r` extends `b` with a next component that is not `..`.
pub open spec fn strictly_extends(b: Seq<Seq<char>>, r: Seq<Seq<char>>) -> bool {
    b.len() < r.len() && r.take(b.len() as int) == b && r[b.len() as int] != ".."@
}

fn extends(b: &Vec<Vec<char>>, r: &Vec<Vec<char>>) -> (x: bool)
    ensures
        x == strictly_extends(nested_view(b@), nested_view(r@)),
{
    if b.len() >= r.len() {
        return false;
    }
    let mut i: usize = 0;
    while i < b.len()
        invariant
            b@.len() < r@.len(),
            i <= b@.len(),
            forall|j: int| 0 <= j < i ==> nested_view(r@)[j] == nested_view(b@)[j],
        decreases b@.len() - i,
    {
        if !seq_equals(&r[i], &b[i]) {
            proof {
                assert(nested_view(r@).take(b@.len() as int)[i as int] != nested_view(b@)[i as int]);
            }
            return false;
        }
        i = i + 1;
    }
    proof {
        assert(nested_view(r@).take(b@.len() as int) =~= nested_view(b@));
        assert(nested_view(r@)[b@.len() as int] == r@[b@.len() as int]@);
    }
    !seq_equals(&r[b.len()], &chars_of(".."))
}

/// Discovers and validates `task-marshal.toml`.
pub struct ConfigLoader;

impl ConfigLoader {
    /// The paths at which the configuration file is looked for, walking up from
    /// `start_dir`: the start directory first, the top directory last.
    pub fn config_candidates(start_dir: &str) -> (r: Vec<String>)
        ensures
            r@.len() == candidate_count(start_dir@),
            forall|i: int| 0 <= i < r@.len() ==> #[trigger] r@[i]@ == candidate(start_dir@, i),
    {
        let s = chars_of(start_dir);
        let abs = s.len() > 0 && s[0] == '/';
        let parts = normalize(abs, &split_chars(&s, '/'));
        let name = chars_of(CONFIG_FILE_NAME);
        let mut r: Vec<String> = Vec::new();
        let mut i: usize = 0;
        while i < parts.len()
            invariant
                i <= parts@.len(),
                nested_view(parts@) == path_parts(start_dir@),
                abs == is_abs(start_dir@),
                name@ == CONFIG_FILE_NAME@,
                r@.len() == i,
                forall|j: int| 0 <= j < i ==> #[trigger] r@[j]@ == candidate(start_dir@, j),
            decreases parts@.len() - i,
        {
            r.push(candidate_at(abs, &parts, &name, i, Ghost(start_dir@)));
            i = i + 1;
        }
        r.push(candidate_at(abs, &parts, &name, i, Ghost(start_dir@)));
        r
    }

    /// The check against symbolic links: `canonical_path`, a configured path as
    /// the file system resolves it, must lie strictly below `canonical_dir`, the
    /// configuration directory as the file system resolves it; anything else is
    /// `Invalid`.
    pub fn check_resolved(canonical_dir: &str, canonical_path: &str) -> (r: Result<(), ConfigError>)
        ensures
            below(canonical_dir@, canonical_path@) ==> r is Ok,
            !below(canonical_dir@, canonical_path@) ==> (r matches Err(ConfigError::Invalid { message })
                && message@ == "a configured path leads outside the project directory"@),
    {
        let d = chars_of(canonical_dir);
        let p = chars_of(canonical_path);
        let d_abs = d.len() > 0 && d[0] == '/';
        let p_abs = p.len() > 0 && p[0] == '/';
        let b = normalize(d_abs, &split_chars(&d, '/'));
        let r = normalize(p_abs, &split_chars(&p, '/'));
        if extends(&b, &r) && (!d_abs || p_abs) {
            Ok(())
        } else {
            Err(invalid("a configured path leads outside the project directory"))
        }
    }

    /// Picks the configuration file: the first candidate of `config_candidates`
    /// whose flag in `exists` is set (a missing flag counts as unset), or
    /// `NotFound` when there is none.
    pub fn discover_config_path(start_dir: &str, exists: &Vec<bool>) -> (r: Result<
        String,
        ConfigError,
    >)
        ensures
            ({
                let n = if exists@.len() < candidate_count(start_dir@) {
                    exists@.len() as int
                } else {
                    candidate_count(start_dir@)
                };
                let k = first_true(exists@, n);
                if k >= 0 {
                    r matches Ok(p) && p@ == candidate(start_dir@, k)
                } else {
                    r matches Err(ConfigError::NotFound { start_dir: d }) && d@ == start_dir@
                }
            }),
    {
        let cands = Self::config_candidates(start_dir);
        let n = if exists.len() < cands.len() {
            exists.len()
        } else {
            cands.len()
        };
        let mut i: usize = 0;
        while i < n
            invariant
                n <= exists@.len(),
                n <= cands@.len(),
                cands@.len() == candidate_count(start_dir@),
                forall|j: int| 0 <= j < cands@.len() ==> #[trigger] cands@[j]@ == candidate(start_dir@, j),
                n as int == (if exists@.len() < candidate_count(start_dir@) {
                    exists@.len() as int
                } else {
                    candidate_count(start_dir@)
                }),
                i <= n,
                first_true(exists@, i as int) == -1,
            decreases n - i,
        {
            if exists[i] {
                proof {
                    lemma_first_true_found(exists@, i as int, n as int);
                }
                return Ok(cands[i].clone());
            }
            i = i + 1;
        }
        Err(ConfigError::NotFound { start_dir: String::from_str(start_dir) })
    }

    /// Validates a decoded configuration document read from `path` and resolves
    /// its relative paths against the directory that holds `path`.
    ///
    /// Rules: unknown keys in `priority` are rejected, duplicates dropped (first
    /// kept), and the order local, beads, gh used when `priority` is absent; the
    /// local path defaults to `.llm/tasks.md`; the local path and `beads_dir` must
    /// resolve strictly below the configuration directory; `[sources.gh]` needs a
    /// `repo` of the form `owner/repo`; labels default to none. Every violation is
    /// `ConfigError::Invalid`, with the message of the first rule broken.
    pub fn load_from_path(path: &str, raw: RawConfig) -> (r: Result<Config, ConfigError>)
        ensures
            match config_outcome(path@, raw@) {
                Some(c) => r matches Ok(cfg) && cfg@ == c,
                None => r matches Err(ConfigError::Invalid { message }) && message@ == config_problem(
                    path@,
                    raw@,
                ),
            },
    {
        let pv = chars_of(path);
        let abs = pv.len() > 0 && pv[0] == '/';
        let mut parts = normalize(abs, &split_chars(&pv, '/'));
        if parts.len() == 0 || seq_equals(&parts[parts.len() - 1], &chars_of("..")) {
            proof {
                if parts@.len() > 0 {
                    assert(nested_view(parts@).last() == parts@[parts@.len() - 1]@);
                }
            }
            return Err(invalid("the configuration path names no file"));
        }
        proof {
            assert(nested_view(parts@).last() == parts@[parts@.len() - 1]@);
        }
        parts.pop();
        let dir_s = render_parts(abs, &parts);
        let dir = chars_of(dir_s.as_str());
        proof {
            assert(nested_view(parts@) =~= path_parts(path@).drop_last());
        }
        let priority = match &raw.priority {
            None => {
                let mut v: Vec<SourceKey> = Vec::new();
                v.push(SourceKey::Local);
                v.push(SourceKey::Beads);
                v.push(SourceKey::Github);
                proof {
                    assert(v@ =~= default_priority());
                }
                v
            },
            Some(ks) => match priority_keys(ks) {
                Some(v) => v,
                None => {
                    return Err(invalid("sources.priority names an unknown source key"));
                },
            },
        };
        let local = match &raw.local {
            None => None,
            Some(l) => {
                let p = match &l.path {
                    Some(x) => chars_of(x.as_str()),
                    None => chars_of(DEFAULT_LOCAL_PATH),
                };
                let (resolved, inside) = resolve_under(&dir, &p);
                if !inside {
                    return Err(invalid("sources.local.path escapes the project directory"));
                }
                Some(LocalSourceConfig { path: resolved })
            },
        };
        let beads = match &raw.beads {
            None => None,
            Some(b) => match &b.beads_dir {
                None => Some(BeadsSourceConfig { beads_dir: None }),
                Some(d) => {
                    let (resolved, inside) = resolve_under(&dir, &chars_of(d.as_str()));
                    if !inside {
                        return Err(invalid("sources.beads.beads_dir escapes the project directory"));
                    }
                    Some(BeadsSourceConfig { beads_dir: Some(resolved) })
                },
            },
        };
        let github = match &raw.github {
            None => None,
            Some(g) => match &g.repo {
                None => {
                    return Err(invalid("sources.gh.repo is required"));
                },
                Some(repo) => {
                    if !repo_ok(repo) {
                        return Err(invalid("sources.gh.repo must have the form owner/repo"));
                    }
                    let labels = match &g.labels {
                        Some(l) => clone_strings(l),
                        None => Vec::new(),
                    };
                    Some(GithubSourceConfig { repo: repo.clone(), labels })
                },
            },
        };
        let cfg = Config {
            sources: SourcesConfig { priority, local, beads, github },
            config_dir: dir_s,
        };
        proof {
            let o = config_outcome(path@, raw@);
            assert(parent_of(path@) == dir@);
            assert(priority_outcome(raw@.priority) == Some(cfg@.priority));
            assert(o is Some);
            assert(o->0.priority == cfg@.priority);
            assert(o->0.local == cfg@.local);
            assert(o->0.beads == cfg@.beads);
            assert(o->0.github == cfg@.github);
            assert(o->0.config_dir == cfg@.config_dir);
        }
        Ok(cfg)
    }
}

proof fn lemma_first_true_found(flags: Seq<bool>, i: int, n: int)
    requires
        0 <= i < n <= flags.len(),
        first_true(flags, i) == -1,
        flags[i],
    ensures
        first_true(flags, n) == i,
    decreases n - i,
{
    if n > i + 1 {
        lemma_first_true_found(flags, i, n - 1);
    }
}


// ── Paths stay inside the configuration directory ───────────────────────────

/// Components in normal form: non-empty, not `.`, without `/`; `..` only in a
/// run at the start, and only in a relative path.
pub open spec fn proper(abs: bool, st: Seq<Seq<char>>) -> bool {
    &&& forall|i: int|
        0 <= i < st.len() ==> {
            &&& #[trigger] st[i].len() > 0
            &&& st[i] != "."@
            &&& forall|k: int| 0 <= k < st[i].len() ==> st[i][k] != '/'
            &&& abs ==> st[i] != ".."@
        }
    &&& forall|i: int, j: int|
        #![trigger st[i], st[j]]
        0 <= j < i < st.len() && st[i] == ".."@ ==> st[j] == ".."@
}

/// `p` lies strictly below `dir`: its components extend the directory's with
/// one that is not `..`, and it is absolute when the directory is.
pub open spec fn below(dir: Seq<char>, p: Seq<char>) -> bool {
    let b = path_parts(dir);
    let r = path_parts(p);
    &&& b.len() < r.len()
    &&& r.take(b.len() as int) == b
    &&& r[b.len() as int] != ".."@
    &&& is_abs(dir) ==> is_abs(p)
}

proof fn lemma_proper_prefix(abs: bool, st: Seq<Seq<char>>, n: int)
    requires
        proper(abs, st),
        0 <= n <= st.len(),
    ensures
        proper(abs, st.take(n)),
{
    let t = st.take(n);
    assert forall|i: int| 0 <= i < t.len() implies #[trigger] t[i] == st[i] by {}
    assert forall|i: int, j: int| #![trigger t[i], t[j]] 0 <= j < i < t.len() && t[i] == ".."@ implies t[j]
        == ".."@ by {
        assert(t[i] == st[i] && t[j] == st[j]);
    }
}

proof fn lemma_norm_proper(abs: bool, ps: Seq<Seq<char>>)
    requires
        forall|i: int, k: int| 0 <= i < ps.len() && 0 <= k < ps[i].len() ==> #[trigger] ps[i][k] != '/',
    ensures
        proper(abs, norm(abs, ps)),
    decreases ps.len(),
{
    reveal_strlit(".");
    reveal_strlit("..");
    if ps.len() > 0 {
        let init = ps.drop_last();
        assert forall|i: int, k: int| 0 <= i < init.len() && 0 <= k < init[i].len() implies #[trigger] init[i][k]
            != '/' by {
            assert(init[i] == ps[i]);
        }
        lemma_norm_proper(abs, init);
        let st = norm(abs, init);
        let c = ps.last();
        assert forall|k: int| 0 <= k < c.len() implies c[k] != '/' by {
            assert(ps[ps.len() - 1][k] != '/');
        }
        if c.len() == 0 || c == "."@ {
        } else if c == ".."@ {
            if st.len() > 0 && st.last() != ".."@ {
                lemma_proper_prefix(abs, st, st.len() - 1);
                assert(st.take(st.len() - 1) =~= st.drop_last());
            } else if abs {
            } else {
                let r = st.push(c);
                assert forall|i: int, j: int| #![trigger r[i], r[j]] 0 <= j < i < r.len() && r[i] == ".."@ implies r[j]
                    == ".."@ by {
                    if i == st.len() && st.len() > 0 {
                        assert(st[st.len() - 1] == ".."@);
                        if j < st.len() - 1 {
                            assert(st[j] == ".."@);
                        }
                    }
                }
            }
        } else {
            let r = st.push(c);
            assert forall|i: int, j: int| #![trigger r[i], r[j]] 0 <= j < i < r.len() && r[i] == ".."@ implies r[j]
                == ".."@ by {
                if i < st.len() {
                    assert(r[i] == st[i] && r[j] == st[j]);
                }
            }
        }
    }
}

proof fn lemma_norm_of_proper(abs: bool, st: Seq<Seq<char>>)
    requires
        proper(abs, st),
    ensures
        norm(abs, st) == st,
    decreases st.len(),
{
    reveal_strlit(".");
    reveal_strlit("..");
    if st.len() > 0 {
        let init = st.drop_last();
        lemma_proper_prefix(abs, st, st.len() - 1);
        assert(st.take(st.len() - 1) =~= init);
        lemma_norm_of_proper(abs, init);
        assert(st[st.len() - 1].len() > 0);
        if st.last() == ".."@ && init.len() > 0 {
            assert(st[init.len() - 1] == ".."@);
        }
        assert(init.push(st.last()) =~= st);
    }
}

proof fn lemma_norm_after_empty(abs: bool, st: Seq<Seq<char>>)
    requires
        proper(abs, st),
    ensures
        norm(abs, seq![Seq::<char>::empty()] + st) == st,
    decreases st.len(),
{
    reveal_strlit(".");
    reveal_strlit("..");
    let e = seq![Seq::<char>::empty()];
    if st.len() == 0 {
        assert(e + st =~= e);
        assert(e.drop_last() =~= Seq::<Seq<char>>::empty());
        assert(norm(abs, e.drop_last()) == Seq::<Seq<char>>::empty());
        assert(e.last().len() == 0);
        assert(norm(abs, e) == norm(abs, e.drop_last()));
    } else {
        let init = st.drop_last();
        lemma_proper_prefix(abs, st, st.len() - 1);
        assert(st.take(st.len() - 1) =~= init);
        lemma_norm_after_empty(abs, init);
        assert((e + st).drop_last() =~= e + init);
        assert((e + st).last() == st.last());
        assert(st[st.len() - 1].len() > 0);
        if st.last() == ".."@ && init.len() > 0 {
            assert(st[init.len() - 1] == ".."@);
        }
        assert(init.push(st.last()) =~= st);
    }
}

proof fn lemma_join_after_empty(st: Seq<Seq<char>>)
    requires
        st.len() >= 1,
    ensures
        join_with(seq![Seq::<char>::empty()] + st, '/') == seq!['/'] + join_with(st, '/'),
    decreases st.len(),
{
    let e = seq![Seq::<char>::empty()];
    if st.len() == 1 {
        assert((e + st).drop_last() =~= e);
        assert(join_with(e, '/') == Seq::<char>::empty());
        assert(join_with(e + st, '/') =~= seq!['/'] + st[0]);
    } else {
        lemma_join_after_empty(st.drop_last());
        assert((e + st).drop_last() =~= e + st.drop_last());
        assert((e + st).last() == st.last());
        assert(join_with(e + st, '/') =~= seq!['/'] + join_with(st, '/'));
    }
}

/// A join of components that begin with no `/` does not begin with one.
proof fn lemma_join_first(st: Seq<Seq<char>>)
    requires
        st.len() >= 1,
        st[0].len() > 0,
        st[0][0] != '/',
    ensures
        join_with(st, '/').len() > 0 && join_with(st, '/')[0] == st[0][0],
    decreases st.len(),
{
    if st.len() > 1 {
        lemma_join_first(st.drop_last());
    }
}

/// Reading back the text of normalised components gives the components.
proof fn lemma_render_parts(abs: bool, st: Seq<Seq<char>>)
    requires
        proper(abs, st),
    ensures
        path_parts(render(abs, st)) == st,
        is_abs(render(abs, st)) == abs,
{
    reveal_strlit(".");
    reveal_strlit("..");
    let e = seq![Seq::<char>::empty()];
    assert forall|i: int, k: int| 0 <= i < st.len() && 0 <= k < st[i].len() implies #[trigger] st[i][k]
        != '/' by {
        assert(st[i].len() > 0);
    }
    if st.len() == 0 {
        if abs {
            let r = render(abs, st);
            assert(join_with(st, '/') =~= Seq::<char>::empty());
            assert(r =~= seq!['/']);
            assert(r.drop_last() =~= Seq::<char>::empty());
            assert(split_on(r.drop_last(), '/') == e);
            assert(r.last() == '/');
            let two = seq![Seq::<char>::empty(), Seq::<char>::empty()];
            assert(split_on(r, '/') =~= two);
            assert(two.drop_last() =~= e);
            assert(e.drop_last() =~= Seq::<Seq<char>>::empty());
            assert(norm(abs, e.drop_last()) == Seq::<Seq<char>>::empty());
            assert(norm(abs, e) == Seq::<Seq<char>>::empty());
            assert(norm(abs, two) == norm(abs, e));
        } else {
            assert(join_with(st, '/') =~= Seq::<char>::empty());
            assert(render(abs, st) =~= Seq::<char>::empty());
            assert(e.drop_last() =~= Seq::<Seq<char>>::empty());
            assert(norm(abs, e.drop_last()) == Seq::<Seq<char>>::empty());
            assert(norm(abs, e) == Seq::<Seq<char>>::empty());
        }
    } else {
        assert(st[0].len() > 0);
        if abs {
            lemma_join_after_empty(st);
            assert forall|i: int, k: int| 0 <= i < (e + st).len() && 0 <= k < (e + st)[i].len() implies #[trigger] (
            e + st)[i][k] != '/' by {
                assert((e + st)[i] == st[i - 1]);
            }
            crate::text::lemma_split_join(e + st, '/');
            lemma_norm_after_empty(abs, st);
        } else {
            crate::text::lemma_split_join(st, '/');
            lemma_join_first(st);
            lemma_norm_of_proper(abs, st);
        }
    }
}

/// Every path that a loaded configuration holds lies strictly below the
/// configuration file's directory.
pub proof fn lemma_config_paths_inside(path: Seq<char>, raw: RawView)
    ensures
        config_outcome(path, raw) matches Some(c) ==> {
            &&& c.local matches Some(p) ==> below(c.config_dir, p)
            &&& c.beads matches Some(Some(p)) ==> below(c.config_dir, p)
        },
{
    if let Some(c) = config_outcome(path, raw) {
        let dir = parent_of(path);
        crate::text::lemma_split_pieces(path, '/');
        lemma_norm_proper(is_abs(path), split_on(path, '/'));
        let pp = path_parts(path);
        lemma_proper_prefix(is_abs(path), pp, pp.len() - 1);
        assert(pp.take(pp.len() - 1) =~= pp.drop_last());
        lemma_render_parts(is_abs(path), pp.drop_last());
        assert(path_parts(dir) == pp.drop_last());
        assert(c.config_dir == dir);
        if let Some(p) = c.local {
            let x = match raw.local {
                Some(Some(x)) => x,
                _ => DEFAULT_LOCAL_PATH@,
            };
            lemma_resolved_below(dir, x);
        }
        if let Some(Some(p)) = c.beads {
            let x = raw.beads->0->0;
            lemma_resolved_below(dir, x);
        }
    }
}

proof fn lemma_resolved_below(dir: Seq<char>, x: Seq<char>)
    requires
        within(dir, x),
    ensures
        below(dir, resolve(dir, x)),
{
    crate::text::lemma_split_pieces(dir, '/');
    crate::text::lemma_split_pieces(x, '/');
    let r = resolved_parts(dir, x);
    if is_abs(x) {
        lemma_norm_proper(true, split_on(x, '/'));
    } else {
        let all = split_on(dir, '/') + split_on(x, '/');
        assert forall|i: int, k: int| 0 <= i < all.len() && 0 <= k < all[i].len() implies #[trigger] all[i][k]
            != '/' by {
            if i < split_on(dir, '/').len() {
                assert(all[i] == split_on(dir, '/')[i]);
            } else {
                assert(all[i] == split_on(x, '/')[i - split_on(dir, '/').len()]);
            }
        }
        lemma_norm_proper(is_abs(dir), all);
    }
    lemma_render_parts(is_abs(dir) || is_abs(x), r);
}


/// What a loaded configuration keeps of the document: a source section is
/// present exactly when the document has it; `[sources.gh]` keeps its `repo`
/// and its `labels` list as written (same labels, same order), or no labels
/// when the list is absent; a `[sources.beads]` without `beads_dir` keeps none.
pub proof fn lemma_config_keeps_sections(path: Seq<char>, raw: RawView)
    ensures
        config_outcome(path, raw) matches Some(c) ==> {
            &&& (raw.local is None <==> c.local is None)
            &&& (raw.beads is None <==> c.beads is None)
            &&& (raw.beads == Some(None::<Seq<char>>) ==> c.beads == Some(None::<Seq<char>>))
            &&& (raw.github is None <==> c.github is None)
            &&& (raw.github matches Some(g) ==> (g.0 matches Some(r) && c.github matches Some(h)
                && h.0 == r && (g.1 matches Some(l) ==> h.1 == l) && (g.1 is None ==> h.1.len()
                == 0)))
        },
{
}


/// A written priority list is kept as the sources it names: every key in the
/// loaded order is named in the list, and every name in the list is a key of
/// the loaded order.
pub proof fn lemma_config_priority_named(path: Seq<char>, raw: RawView)
    ensures
        config_outcome(path, raw) matches Some(c) ==> (raw.priority matches Some(ks) ==> {
            &&& forall|i: int|
                0 <= i < c.priority.len() ==> ks.contains(key_text(#[trigger] c.priority[i]))
            &&& forall|j: int| 0 <= j < ks.len() ==> exists|i: int|
                0 <= i < c.priority.len() && key_text(#[trigger] c.priority[i]) == #[trigger] ks[j]
        }),
{
    if let Some(c) = config_outcome(path, raw) {
        if let Some(ks) = raw.priority {
            lemma_priority_prefix_named(ks, ks.len() as int);
            assert(c.priority == priority_prefix(ks, ks.len() as int)->0);
        }
    }
}

proof fn lemma_priority_prefix_named(ks: Seq<Seq<char>>, n: int)
    requires
        0 <= n <= ks.len(),
    ensures
        priority_prefix(ks, n) matches Some(acc) ==> {
            &&& forall|i: int| 0 <= i < acc.len() ==> ks.contains(key_text(#[trigger] acc[i]))
            &&& forall|j: int| 0 <= j < n ==> exists|i: int|
                0 <= i < acc.len() && key_text(#[trigger] acc[i]) == #[trigger] ks[j]
        },
    decreases n,
{
    if n > 0 {
        lemma_priority_prefix_named(ks, n - 1);
        if let Some(acc) = priority_prefix(ks, n) {
            let prev = priority_prefix(ks, n - 1)->0;
            let k = key_of(ks[n - 1])->0;
            crate::identity::lemma_key_of_text(ks[n - 1]);
            assert(key_text(k) == ks[n - 1]);
            assert forall|i: int| 0 <= i < acc.len() implies ks.contains(key_text(#[trigger] acc[i])) by {
                if i < prev.len() {
                    assert(acc[i] == prev[i]);
                } else {
                    assert(acc[i] == k);
                    assert(ks[n - 1] == key_text(k));
                }
            }
            assert forall|j: int| 0 <= j < n implies exists|i: int|
                0 <= i < acc.len() && key_text(#[trigger] acc[i]) == #[trigger] ks[j] by {
                if j < n - 1 {
                    let i = choose|i: int| 0 <= i < prev.len() && key_text(#[trigger] prev[i]) == ks[j];
                    assert(acc[i] == prev[i]);
                } else if prev.contains(k) {
                    let i = choose|i: int| 0 <= i < prev.len() && prev[i] == k;
                    assert(acc[i] == prev[i]);
                    assert(key_text(acc[i]) == ks[j]);
                } else {
                    assert(acc[prev.len() as int] == k);
                    assert(key_text(acc[prev.len() as int]) == ks[j]);
                }
            }
        }
    }
}

} // verus!
