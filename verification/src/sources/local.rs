//! The local markdown task file: its format, the dependency rule that marks
//! tasks blocked, and the in-place completion edit.
//!
//! A task block starts at a line `## <NativeId>: <title>` and runs to the next
//! such line. Before its first `### ` line it may hold the fields
//! `**Priority:** Pn`, `**Role:** <role>`, `**State:** <state>` (required) and
//! `**Depends:** <id>, <id>`; the first occurrence of each counts. It must hold a
//! `### Description` and a `### Acceptance Criteria` section and may hold a
//! `### Context` section. Trailing whitespace and `\r` are ignored on every line.
use vstd::prelude::*;

use crate::identity::{is_numeric, SourceKey, TaskIdView};
use crate::text::{
    decimal, digit_char, digits_value, has_ws, index_of, is_digit, join_with, lower_seq, split_on, starts_with,
    trim, trim_end,
};
use crate::sources::SourceError;
use crate::{is_actionable, summary_of, SummaryView, TaskState, TaskView};

verus! {

// ── Lines ───────────────────────────────────────────────────────────────────

/// A line with trailing whitespace (and a `\r` line ending) removed.
pub open spec fn clean(l: Seq<char>) -> Seq<char> {
    trim_end(l)
}

pub open spec fn clean_lines(ls: Seq<Seq<char>>) -> Seq<Seq<char>> {
    ls.map_values(|l: Seq<char>| clean(l))
}

/// A task heading: `## ...` (a `### ` section line is not one).
pub open spec fn is_heading(l: Seq<char>) -> bool {
    starts_with(clean(l), "## "@)
}

/// A section heading: `### ...`.
pub open spec fn is_section(l: Seq<char>) -> bool {
    starts_with(clean(l), "### "@)
}

// ── One block ───────────────────────────────────────────────────────────────

/// The first section line at or after `j`, or `b.len()`.
pub open spec fn first_section(b: Seq<Seq<char>>, j: int) -> int
    decreases b.len() - j,
{
    if j >= b.len() {
        b.len() as int
    } else if j >= 0 && is_section(b[j]) {
        j
    } else {
        first_section(b, j + 1)
    }
}

/// The first line in `[j, m)` that starts with `p`, or `-1`.
pub open spec fn find_field(b: Seq<Seq<char>>, j: int, m: int, p: Seq<char>) -> int
    decreases m - j,
{
    if j >= m || j < 0 || j >= b.len() {
        -1
    } else if starts_with(clean(b[j]), p) {
        j
    } else {
        find_field(b, j + 1, m, p)
    }
}

/// The value of a field line: the text after its prefix, trimmed.
pub open spec fn field_value(l: Seq<char>, p: Seq<char>) -> Seq<char> {
    trim(clean(l).skip(p.len() as int))
}

/// The value of the first `p` field in the metadata lines of block `b`.
pub open spec fn field(b: Seq<Seq<char>>, p: Seq<char>) -> Option<Seq<char>> {
    let i = find_field(b, 1, first_section(b, 1), p);
    if i < 0 {
        None
    } else {
        Some(field_value(b[i], p))
    }
}

/// The first section line at or after `j` whose title is `name`, or `-1`.
pub open spec fn find_section(b: Seq<Seq<char>>, j: int, name: Seq<char>) -> int
    decreases b.len() - j,
{
    if j >= b.len() || j < 0 {
        -1
    } else if is_section(b[j]) && trim(clean(b[j]).skip(4)) == name {
        j
    } else {
        find_section(b, j + 1, name)
    }
}

/// The text of the section whose heading is line `i`: its lines up to the next
/// section, cleaned, joined with newlines and trimmed.
pub open spec fn section_text(b: Seq<Seq<char>>, i: int) -> Seq<char> {
    trim(join_with(clean_lines(b.subrange(i + 1, first_section(b, i + 1))), '\n'))
}

/// The section called `name`, if the block has one.
pub open spec fn section(b: Seq<Seq<char>>, name: Seq<char>) -> Option<Seq<char>> {
    let i = find_section(b, 1, name);
    if i < 0 {
        None
    } else {
        Some(section_text(b, i))
    }
}

/// `Pn` with `n` a run of digits whose value fits in `u32`.
pub open spec fn parse_priority(v: Seq<char>) -> Option<u32> {
    if v.len() >= 2 && v[0] == 'P' && is_numeric(v.skip(1)) && digits_value(v.skip(1))
        <= u32::MAX {
        Some(digits_value(v.skip(1)) as u32)
    } else {
        None
    }
}

/// A state name, ignoring ASCII case.
pub open spec fn parse_state(v: Seq<char>) -> Option<TaskState> {
    let l = lower_seq(v);
    if l == "unstarted"@ {
        Some(TaskState::Unstarted)
    } else if l == "in_progress"@ {
        Some(TaskState::InProgress)
    } else if l == "blocked"@ {
        Some(TaskState::Blocked)
    } else if l == "done"@ {
        Some(TaskState::Done)
    } else {
        None
    }
}

/// The non-empty trimmed items among the first `n` comma-separated pieces.
pub open spec fn dep_items(parts: Seq<Seq<char>>, n: int) -> Seq<Seq<char>>
    decreases n,
{
    if n <= 0 {
        Seq::empty()
    } else if trim(parts[n - 1]).len() > 0 {
        dep_items(parts, n - 1).push(trim(parts[n - 1]))
    } else {
        dep_items(parts, n - 1)
    }
}

pub open spec fn parse_depends(v: Seq<char>) -> Seq<Seq<char>> {
    let parts = split_on(v, ',');
    dep_items(parts, parts.len() as int)
}

/// The heading text after `## `.
pub open spec fn heading_rest(l: Seq<char>) -> Seq<char> {
    clean(l).skip(3)
}

/// A parsed block: the task, and the index (within the block) of its state line.
pub struct BlockParse {
    pub task: TaskView,
    pub state_line: int,
}

/// The task that a block describes, or `None` for a malformed block.
pub open spec fn parse_block(b: Seq<Seq<char>>) -> Option<BlockParse> {
    let h = heading_rest(b[0]);
    let k = index_of(h, ':');
    let id = trim(h.take(k));
    let title = trim(h.skip(k + 1));
    let prio = match field(b, "**Priority:**"@) {
        None => Some(crate::DEFAULT_PRIORITY),
        Some(v) => parse_priority(v),
    };
    let role = match field(b, "**Role:**"@) {
        None => None,
        Some(v) => if v.len() == 0 {
            None
        } else {
            Some(v)
        },
    };
    let state_i = find_field(b, 1, first_section(b, 1), "**State:**"@);
    let state = if state_i < 0 {
        None
    } else {
        parse_state(field_value(b[state_i], "**State:**"@))
    };
    let deps = match field(b, "**Depends:**"@) {
        None => Seq::empty(),
        Some(v) => parse_depends(v),
    };
    let desc = section(b, "Description"@);
    let ac = section(b, "Acceptance Criteria"@);
    let ctx = section(b, "Context"@);
    if b.len() == 0 || k < 0 || id.len() == 0 || has_ws(id) || title.len() == 0 || prio is None
        || state is None || desc is None || ac is None {
        None
    } else {
        Some(
            BlockParse {
                task: TaskView {
                    id: TaskIdView { source_key: SourceKey::Local, native_id: id },
                    title: title,
                    description: desc->0,
                    acceptance_criteria: ac->0,
                    state: state->0,
                    priority: prio->0,
                    role: role,
                    dependencies: deps,
                    context_notes: ctx,
                },
                state_line: state_i,
            },
        )
    }
}

// ── The whole file ──────────────────────────────────────────────────────────

/// The lines of a file (split on `\n`).
pub open spec fn lines_of(content: Seq<char>) -> Seq<Seq<char>> {
    split_on(content, '\n')
}

/// The `[start, end)` line ranges of the task blocks among the first `n` lines;
/// lines before the first heading belong to no block.
pub open spec fn block_ranges(ls: Seq<Seq<char>>, n: int) -> Seq<(int, int)>
    decreases n,
{
    if n <= 0 {
        Seq::empty()
    } else {
        let bs = block_ranges(ls, n - 1);
        if is_heading(ls[n - 1]) {
            bs.push((n - 1, n))
        } else if bs.len() == 0 {
            bs
        } else {
            bs.update(bs.len() - 1, (bs.last().0, n))
        }
    }
}

/// The well-formed blocks among the first `n` ranges, each with its start line.
pub open spec fn parsed_blocks(ls: Seq<Seq<char>>, bs: Seq<(int, int)>, n: int) -> Seq<
    (int, BlockParse),
>
    decreases n,
{
    if n <= 0 {
        Seq::empty()
    } else {
        let prev = parsed_blocks(ls, bs, n - 1);
        match parse_block(ls.subrange(bs[n - 1].0, bs[n - 1].1)) {
            Some(p) => prev.push((bs[n - 1].0, p)),
            None => prev,
        }
    }
}

/// The heading lines (0-based) of the malformed blocks among the first `n` ranges.
pub open spec fn malformed_blocks(ls: Seq<Seq<char>>, bs: Seq<(int, int)>, n: int) -> Seq<int>
    decreases n,
{
    if n <= 0 {
        Seq::empty()
    } else {
        let prev = malformed_blocks(ls, bs, n - 1);
        match parse_block(ls.subrange(bs[n - 1].0, bs[n - 1].1)) {
            Some(p) => prev,
            None => prev.push(bs[n - 1].0),
        }
    }
}

pub open spec fn file_blocks(content: Seq<char>) -> Seq<(int, BlockParse)> {
    let ls = lines_of(content);
    let bs = block_ranges(ls, ls.len() as int);
    parsed_blocks(ls, bs, bs.len() as int)
}

/// The tasks of a file as written, in file order.
pub open spec fn file_tasks(content: Seq<char>) -> Seq<TaskView> {
    file_blocks(content).map_values(|x: (int, BlockParse)| x.1.task)
}

/// The heading lines of the malformed blocks of a file.
pub open spec fn file_malformed(content: Seq<char>) -> Seq<int> {
    let ls = lines_of(content);
    let bs = block_ranges(ls, ls.len() as int);
    malformed_blocks(ls, bs, bs.len() as int)
}

/// Index of the first task with identifier `id`, or `-1`.
pub open spec fn find_task(ts: Seq<TaskView>, id: Seq<char>) -> int
    decreases ts.len(),
{
    if ts.len() == 0 {
        -1
    } else {
        let r = find_task(ts.drop_last(), id);
        if r >= 0 {
            r
        } else if ts.last().id.native_id == id {
            ts.len() - 1
        } else {
            -1
        }
    }
}

/// A dependency is resolved when the first task with that identifier is done.
pub open spec fn dep_done(ts: Seq<TaskView>, d: Seq<char>) -> bool {
    let j = find_task(ts, d);
    j >= 0 && ts[j].state == TaskState::Done
}

/// A task as listed: an unstarted or in-progress task with an unresolved
/// dependency is blocked; every other task keeps its written state.
pub open spec fn effective(ts: Seq<TaskView>, t: TaskView) -> TaskView {
    if is_actionable(t.state) && exists|i: int|
        0 <= i < t.dependencies.len() && !dep_done(ts, #[trigger] t.dependencies[i]) {
        TaskView { state: TaskState::Blocked, ..t }
    } else {
        t
    }
}

/// The summaries of the first `n` tasks that pass the filter, in file order.
pub open spec fn listed(ts: Seq<TaskView>, f: crate::selection::FilterView, n: int) -> Seq<
    SummaryView,
>
    decreases n,
{
    if n <= 0 {
        Seq::empty()
    } else {
        let s = summary_of(effective(ts, ts[n - 1]));
        if crate::selection::eligible(f, s) {
            listed(ts, f, n - 1).push(s)
        } else {
            listed(ts, f, n - 1)
        }
    }
}

} // verus!

verus! {

// ── Executable parsing ──────────────────────────────────────────────────────

/// Lines `[s, e)` of `lines`, as a block.
pub open spec fn blk(lines: Seq<Vec<char>>, s: int, e: int) -> Seq<Seq<char>> {
    crate::text::nested_view(lines).subrange(s, e)
}

/// The length of `l` without its trailing whitespace.
fn clean_len(l: &Vec<char>) -> (n: usize)
    ensures
        n <= l@.len(),
        l@.take(n as int) == clean(l@),
{
    let mut b = l.len();
    proof {
        assert(l@.take(b as int) =~= l@);
    }
    while b > 0 && crate::text::is_whitespace(l[b - 1])
        invariant
            b <= l@.len(),
            trim_end(l@) == trim_end(l@.take(b as int)),
        decreases b,
    {
        proof {
            assert(l@.take(b as int).drop_last() =~= l@.take(b - 1));
        }
        b = b - 1;
    }
    b
}

fn line_starts_with(l: &Vec<char>, p: &Vec<char>) -> (r: bool)
    ensures
        r == starts_with(clean(l@), p@),
{
    let n = clean_len(l);
    let r = crate::text::range_starts_with(l, 0, n, p);
    proof {
        assert(l@.subrange(0, n as int) =~= l@.take(n as int));
    }
    r
}

fn is_section_line(l: &Vec<char>) -> (r: bool)
    ensures
        r == is_section(l@),
{
    line_starts_with(l, &crate::text::chars_of("### "))
}

fn is_heading_line(l: &Vec<char>) -> (r: bool)
    ensures
        r == is_heading(l@),
{
    line_starts_with(l, &crate::text::chars_of("## "))
}

/// `first_section` of the block `[s, e)`, from local line `j`.
fn first_section_at(lines: &Vec<Vec<char>>, s: usize, e: usize, j: usize) -> (r: usize)
    requires
        s <= e <= lines@.len(),
        j <= e - s,
    ensures
        r as int == first_section(blk(lines@, s as int, e as int), j as int),
        j <= r <= e - s,
{
    let ghost b = blk(lines@, s as int, e as int);
    let mut i = j;
    while i < e - s && !is_section_line(&lines[s + i])
        invariant
            s <= e <= lines@.len(),
            j <= i <= e - s,
            b == blk(lines@, s as int, e as int),
            first_section(b, j as int) == first_section(b, i as int),
        decreases e - s - i,
    {
        proof {
            assert(b[i as int] == lines@[s + i]@);
        }
        i = i + 1;
    }
    proof {
        if i < e - s {
            assert(b[i as int] == lines@[s + i]@);
        }
    }
    i
}

/// `find_field` in the block `[s, e)` over local lines `[j, m)`.
fn find_field_at(lines: &Vec<Vec<char>>, s: usize, e: usize, j: usize, m: usize, p: &Vec<char>) -> (r: Option<usize>)
    requires
        s <= e <= lines@.len(),
        j <= m <= e - s,
    ensures
        match r {
            Some(i) => i as int == find_field(blk(lines@, s as int, e as int), j as int, m as int, p@) && j <= i < m,
            None => find_field(blk(lines@, s as int, e as int), j as int, m as int, p@) == -1,
        },
{
    let ghost b = blk(lines@, s as int, e as int);
    let mut i = j;
    while i < m
        invariant
            s <= e <= lines@.len(),
            j <= i <= m <= e - s,
            b == blk(lines@, s as int, e as int),
            find_field(b, j as int, m as int, p@) == find_field(b, i as int, m as int, p@),
        decreases m - i,
    {
        proof {
            assert(b[i as int] == lines@[s + i]@);
        }
        if line_starts_with(&lines[s + i], p) {
            return Some(i);
        }
        i = i + 1;
    }
    None
}

/// The trimmed text after the prefix of length `plen` on a field line.
fn field_value_of(l: &Vec<char>, plen: usize, Ghost(p): Ghost<Seq<char>>) -> (r: Vec<char>)
    requires
        plen == p.len(),
        starts_with(clean(l@), p),
    ensures
        r@ == field_value(l@, p),
{
    let n = clean_len(l);
    let (a, b) = crate::text::trim_bounds(l, plen, n);
    proof {
        assert(l@.subrange(plen as int, n as int) =~= clean(l@).skip(plen as int));
    }
    crate::text::copy_range(l, a, b)
}

/// `field` of the block `[s, e)`.
fn field_at(lines: &Vec<Vec<char>>, s: usize, e: usize, p: &Vec<char>) -> (r: Option<Vec<char>>)
    requires
        s < e <= lines@.len(),
    ensures
        match field(blk(lines@, s as int, e as int), p@) {
            Some(v) => r matches Some(x) && x@ == v,
            None => r is None,
        },
{
    let ghost b = blk(lines@, s as int, e as int);
    let m = first_section_at(lines, s, e, 1);
    match find_field_at(lines, s, e, 1, m, p) {
        None => None,
        Some(i) => {
            proof {
                assert(b[i as int] == lines@[s + i]@);
                assert(find_field(b, 1, m as int, p@) == i);
                lemma_find_field_hit(b, 1, m as int, p@);
            }
            Some(field_value_of(&lines[s + i], p.len(), Ghost(p@)))
        },
    }
}

proof fn lemma_find_field_hit(b: Seq<Seq<char>>, j: int, m: int, p: Seq<char>)
    requires
        find_field(b, j, m, p) >= 0,
    ensures
        ({
            let i = find_field(b, j, m, p);
            j <= i < m && 0 <= i < b.len() && starts_with(clean(b[i]), p)
        }),
    decreases m - j,
{
    if j < m && 0 <= j < b.len() && !starts_with(clean(b[j]), p) {
        lemma_find_field_hit(b, j + 1, m, p);
    }
}

/// `find_section` in the block `[s, e)` from local line `j`.
fn find_section_at(lines: &Vec<Vec<char>>, s: usize, e: usize, j: usize, name: &Vec<char>) -> (r: Option<usize>)
    requires
        s <= e <= lines@.len(),
        j <= e - s,
    ensures
        match r {
            Some(i) => i as int == find_section(blk(lines@, s as int, e as int), j as int, name@) && j <= i < e - s,
            None => find_section(blk(lines@, s as int, e as int), j as int, name@) == -1,
        },
{
    let ghost b = blk(lines@, s as int, e as int);
    let mut i = j;
    while i < e - s
        invariant
            s <= e <= lines@.len(),
            j <= i <= e - s,
            b == blk(lines@, s as int, e as int),
            find_section(b, j as int, name@) == find_section(b, i as int, name@),
        decreases e - s - i,
    {
        let l = &lines[s + i];
        proof {
            assert(b[i as int] == l@);
        }
        if is_section_line(l) {
            let n = clean_len(l);
            proof {
                reveal_strlit("### ");
                assert(n >= 4);
            }
            let (a, c) = crate::text::trim_bounds(l, 4, n);
            let eq = crate::text::range_equals(l, a, c, name);
            proof {
                assert(l@.subrange(4, n as int) =~= clean(l@).skip(4));
            }
            if eq {
                return Some(i);
            }
        }
        i = i + 1;
    }
    None
}

/// The joined, cleaned lines `[s + from, s + to)`, trimmed.
fn section_text_at(lines: &Vec<Vec<char>>, s: usize, e: usize, i: usize) -> (r: String)
    requires
        s <= e <= lines@.len(),
        i < e - s,
    ensures
        r@ == section_text(blk(lines@, s as int, e as int), i as int),
{
    let ghost b = blk(lines@, s as int, e as int);
    let to = first_section_at(lines, s, e, i + 1);
    let ghost body = clean_lines(b.subrange(i + 1, to as int));
    let mut out: Vec<char> = Vec::new();
    let mut k = i + 1;
    while k < to
        invariant
            s <= e <= lines@.len(),
            i + 1 <= k <= to <= e - s,
            b == blk(lines@, s as int, e as int),
            body == clean_lines(b.subrange(i + 1, to as int)),
            out@ == join_with(body.take(k - i - 1), '\n'),
        decreases to - k,
    {
        let l = &lines[s + k];
        let n = clean_len(l);
        proof {
            assert(b[k as int] == l@);
            assert(body[k - i - 1] == clean(l@));
            assert(body.take(k - i).drop_last() =~= body.take(k - i - 1));
        }
        if k > i + 1 {
            out.push('\n');
        }
        let ghost mid = out@;
        let mut c: usize = 0;
        while c < n
            invariant
                n <= l@.len(),
                c <= n,
                out@ == mid + l@.take(c as int),
            decreases n - c,
        {
            out.push(l[c]);
            proof {
                assert(l@.take(c + 1) =~= l@.take(c as int).push(l@[c as int]));
            }
            c = c + 1;
        }
        proof {
            if k == i + 1 {
                assert(join_with(body.take(0), '\n') =~= Seq::<char>::empty());
            }
            assert(out@ =~= join_with(body.take(k - i), '\n'));
        }
        k = k + 1;
    }
    proof {
        assert(body.take(to - i - 1) =~= body);
    }
    let (a, c) = crate::text::trim_bounds(&out, 0, out.len());
    proof {
        assert(out@.subrange(0, out@.len() as int) =~= out@);
    }
    crate::text::string_of_range(&out, a, c)
}

} // verus!

verus! {

proof fn lemma_digits_value_monotone(s: Seq<char>, i: int)
    requires
        0 <= i <= s.len(),
        forall|j: int| 0 <= j < s.len() ==> is_digit(#[trigger] s[j]),
    ensures
        digits_value(s.take(i)) <= digits_value(s),
    decreases s.len() - i,
{
    if i < s.len() {
        lemma_digits_value_monotone(s, i + 1);
        assert(s.take(i + 1).drop_last() =~= s.take(i));
        assert(digits_value(s.take(i + 1)) == digits_value(s.take(i)) * 10 + ((s[i] as u32)
            - 48) as nat);
    } else {
        assert(s.take(i) =~= s);
    }
}

fn priority_of(v: &Vec<char>) -> (r: Option<u32>)
    ensures
        r == parse_priority(v@),
{
    if v.len() < 2 || v[0] != 'P' {
        return None;
    }
    let ghost d = v@.skip(1);
    let mut acc: u64 = 0;
    let mut i: usize = 1;
    while i < v.len()
        invariant
            1 <= i <= v@.len(),
            d == v@.skip(1),
            forall|j: int| 0 <= j < i - 1 ==> is_digit(#[trigger] d[j]),
            acc as nat == digits_value(d.take(i - 1)),
            acc <= u32::MAX,
        decreases v@.len() - i,
    {
        let c = v[i];
        proof {
            assert(d[i - 1] == c);
            assert(d.take(i as int).drop_last() =~= d.take(i - 1));
        }
        if c < '0' || c > '9' {
            proof {
                assert(!is_digit(d[i - 1]));
            }
            return None;
        }
        let digit: u64 = (c as u32 - 48) as u64;
        acc = acc * 10 + digit;
        proof {
            assert(digits_value(d.take(i as int)) == digits_value(d.take(i - 1)) * 10 + ((c as u32)
                - 48) as nat);
        }
        if acc > 4294967295u64 {
            proof {
                assert forall|j: int| 0 <= j < i implies is_digit(#[trigger] d[j]) by {}
                if is_numeric(d) {
                    lemma_digits_value_monotone(d, i as int);
                }
            }
            return None;
        }
        i = i + 1;
    }
    proof {
        assert(d.take(d.len() as int) =~= d);
    }
    Some(acc as u32)
}

fn state_of(v: &Vec<char>) -> (r: Option<TaskState>)
    ensures
        r == parse_state(v@),
{
    let mut l: Vec<char> = Vec::new();
    let mut i: usize = 0;
    while i < v.len()
        invariant
            i <= v@.len(),
            l@ == lower_seq(v@.take(i as int)),
        decreases v@.len() - i,
    {
        l.push(crate::text::to_lower(v[i]));
        proof {
            assert(lower_seq(v@.take(i + 1)) =~= lower_seq(v@.take(i as int)).push(
                crate::text::lower(v@[i as int]),
            ));
        }
        i = i + 1;
    }
    proof {
        assert(v@.take(v@.len() as int) =~= v@);
    }
    if crate::text::seq_equals(&l, &crate::text::chars_of("unstarted")) {
        Some(TaskState::Unstarted)
    } else if crate::text::seq_equals(&l, &crate::text::chars_of("in_progress")) {
        Some(TaskState::InProgress)
    } else if crate::text::seq_equals(&l, &crate::text::chars_of("blocked")) {
        Some(TaskState::Blocked)
    } else if crate::text::seq_equals(&l, &crate::text::chars_of("done")) {
        Some(TaskState::Done)
    } else {
        None
    }
}

fn depends_of(v: &Vec<char>) -> (r: Vec<crate::Dependency>)
    ensures
        crate::deps_view(r@) == parse_depends(v@),
{
    let parts = crate::text::split_chars(v, ',');
    let ghost pv = crate::text::nested_view(parts@);
    let mut r: Vec<crate::Dependency> = Vec::new();
    let mut i: usize = 0;
    while i < parts.len()
        invariant
            i <= parts@.len(),
            pv == crate::text::nested_view(parts@),
            crate::deps_view(r@) == dep_items(pv, i as int),
        decreases parts@.len() - i,
    {
        let p = &parts[i];
        let (a, b) = crate::text::trim_bounds(p, 0, p.len());
        proof {
            assert(p@.subrange(0, p@.len() as int) =~= p@);
            assert(pv[i as int] == p@);
        }
        if a < b {
            let ghost before = r@;
            r.push(
                crate::Dependency(crate::identity::NativeId(crate::text::string_of_range(p, a, b))),
            );
            proof {
                assert(crate::deps_view(r@) =~= crate::deps_view(before).push(trim(p@)));
            }
        }
        i = i + 1;
    }
    r
}

} // verus!

verus! {

/// `section` of the block `[s, e)`.
fn section_at(lines: &Vec<Vec<char>>, s: usize, e: usize, name: &str) -> (r: Option<String>)
    requires
        s < e <= lines@.len(),
    ensures
        match section(blk(lines@, s as int, e as int), name@) {
            Some(v) => r matches Some(x) && x@ == v,
            None => r is None,
        },
{
    match find_section_at(lines, s, e, 1, &crate::text::chars_of(name)) {
        None => None,
        Some(i) => Some(section_text_at(lines, s, e, i)),
    }
}

/// Parses the block `[s, e)`: the task and the local index of its state line.
fn parse_block_at(lines: &Vec<Vec<char>>, s: usize, e: usize) -> (r: Option<(crate::Task, usize)>)
    requires
        s < e <= lines@.len(),
        is_heading(lines@[s as int]@),
    ensures
        match parse_block(blk(lines@, s as int, e as int)) {
            Some(p) => r matches Some(x) && x.0@ == p.task && x.1 as int == p.state_line && x.1 < e - s,
            None => r is None,
        },
{
    let ghost b = blk(lines@, s as int, e as int);
    let l = &lines[s];
    let n = clean_len(l);
    proof {
        assert(b[0] == l@);
        reveal_strlit("## ");
        assert(n >= 3);
        assert(l@.subrange(3, n as int) =~= heading_rest(b[0]));
    }
    let colon = match crate::text::find_char(l, 3, n, ':') {
        None => {
            return None;
        },
        Some(k) => k,
    };
    let ghost h = heading_rest(b[0]);
    proof {
        assert(l@.subrange(3, colon as int) =~= h.take(colon - 3));
        assert(l@.subrange(colon + 1, n as int) =~= h.skip(colon - 3 + 1));
    }
    let (ia, ib) = crate::text::trim_bounds(l, 3, colon);
    let (ta, tb) = crate::text::trim_bounds(l, colon + 1, n);
    if ia == ib || tb == ta {
        return None;
    }
    if crate::text::range_has_ws(l, ia, ib) {
        return None;
    }
    let priority = match field_at(lines, s, e, &crate::text::chars_of("**Priority:**")) {
        None => crate::DEFAULT_PRIORITY,
        Some(v) => match priority_of(&v) {
            Some(p) => p,
            None => {
                return None;
            },
        },
    };
    let m = first_section_at(lines, s, e, 1);
    let sp = crate::text::chars_of("**State:**");
    let state_i = match find_field_at(lines, s, e, 1, m, &sp) {
        None => {
            return None;
        },
        Some(i) => i,
    };
    proof {
        assert(b[state_i as int] == lines@[s + state_i]@);
        lemma_find_field_hit(b, 1, m as int, sp@);
    }
    let state = match state_of(&field_value_of(&lines[s + state_i], sp.len(), Ghost(sp@))) {
        Some(st) => st,
        None => {
            return None;
        },
    };
    let description = match section_at(lines, s, e, "Description") {
        Some(d) => d,
        None => {
            return None;
        },
    };
    let acceptance = match section_at(lines, s, e, "Acceptance Criteria") {
        Some(d) => d,
        None => {
            return None;
        },
    };
    let context = section_at(lines, s, e, "Context");
    let role = match field_at(lines, s, e, &crate::text::chars_of("**Role:**")) {
        None => None,
        Some(v) => if v.len() == 0 {
            None
        } else {
            Some(crate::Role(crate::text::string_of(&v)))
        },
    };
    let dependencies = match field_at(lines, s, e, &crate::text::chars_of("**Depends:**")) {
        None => Vec::new(),
        Some(v) => depends_of(&v),
    };
    let task = crate::Task {
        id: crate::TaskId {
            source_key: SourceKey::Local,
            native_id: crate::identity::NativeId(crate::text::string_of_range(l, ia, ib)),
        },
        title: crate::text::string_of_range(l, ta, tb),
        description,
        acceptance_criteria: acceptance,
        state,
        priority: crate::Priority(priority),
        role,
        dependencies,
        context_notes: context,
    };
    proof {
        let p = parse_block(b)->0;
        assert(parse_block(b) is Some);
        assert(task@.dependencies == p.task.dependencies);
        assert(task@ == p.task);
    }
    Some((task, state_i))
}

} // verus!

verus! {

pub open spec fn tasks_view(v: Seq<crate::Task>) -> Seq<TaskView> {
    v.map_values(|t: crate::Task| t@)
}

pub open spec fn ranges_view(v: Seq<(usize, usize)>) -> Seq<(int, int)> {
    v.map_values(|p: (usize, usize)| (p.0 as int, p.1 as int))
}

/// A file split into lines and task blocks.
pub struct ParsedFile {
    /// The file's lines (split on `\n`).
    pub lines: Vec<Vec<char>>,
    /// The well-formed tasks, in file order, with their written states.
    pub tasks: Vec<crate::Task>,
    /// For each task, the line of its heading.
    pub starts: Vec<usize>,
    /// For each task, the line of its `**State:**` field.
    pub state_lines: Vec<usize>,
    /// The heading lines (0-based) of malformed blocks.
    pub malformed: Vec<usize>,
}

/// What parsing `content` yields.
pub open spec fn parsed_file_ok(content: Seq<char>, p: ParsedFile) -> bool {
    let fb = file_blocks(content);
    &&& crate::text::nested_view(p.lines@) == lines_of(content)
    &&& tasks_view(p.tasks@) == file_tasks(content)
    &&& p.starts@.len() == fb.len()
    &&& p.state_lines@.len() == fb.len()
    &&& forall|j: int|
        0 <= j < fb.len() ==> #[trigger] p.starts@[j] as int == fb[j].0 && p.state_lines@[j] as int
            == fb[j].0 + fb[j].1.state_line
    &&& p.malformed@.map_values(|x: usize| x as int) == file_malformed(content)
    &&& forall|j: int| 0 <= j < p.state_lines@.len() ==> #[trigger] p.state_lines@[j] < p.lines@.len()
}

fn block_ranges_of(lines: &Vec<Vec<char>>) -> (r: Vec<(usize, usize)>)
    ensures
        ranges_view(r@) == block_ranges(
            crate::text::nested_view(lines@),
            lines@.len() as int,
        ),
        forall|k: int|
            0 <= k < r@.len() ==> #[trigger] r@[k].0 < r@[k].1 <= lines@.len() && is_heading(
                lines@[r@[k].0 as int]@,
            ),
{
    let ghost ls = crate::text::nested_view(lines@);
    let mut bs: Vec<(usize, usize)> = Vec::new();
    let mut i: usize = 0;
    while i < lines.len()
        invariant
            i <= lines@.len(),
            ls == crate::text::nested_view(lines@),
            ranges_view(bs@) == block_ranges(ls, i as int),
            forall|k: int|
                0 <= k < bs@.len() ==> #[trigger] bs@[k].0 < bs@[k].1 <= i && is_heading(
                    lines@[bs@[k].0 as int]@,
                ),
        decreases lines@.len() - i,
    {
        proof {
            assert(ls[i as int] == lines@[i as int]@);
        }
        if is_heading_line(&lines[i]) {
            bs.push((i, i + 1));
            proof {
                assert(ranges_view(bs@) =~= block_ranges(ls, i + 1));
            }
        } else if bs.len() > 0 {
            let last = bs.pop().unwrap();
            bs.push((last.0, i + 1));
            proof {
                assert(ranges_view(bs@) =~= block_ranges(ls, i + 1));
            }
        } else {
            proof {
                assert(ranges_view(bs@) =~= block_ranges(ls, i + 1));
            }
        }
        i = i + 1;
    }
    bs
}

/// Splits `content` into lines and parses its task blocks.
pub fn parse_file(content: &str) -> (p: ParsedFile)
    ensures
        parsed_file_ok(content@, p),
{
    let chars = crate::text::chars_of(content);
    let lines = crate::text::split_chars(&chars, '\n');
    let ghost ls = crate::text::nested_view(lines@);
    let bs = block_ranges_of(&lines);
    let ghost bv = ranges_view(bs@);
    let mut tasks: Vec<crate::Task> = Vec::new();
    let mut starts: Vec<usize> = Vec::new();
    let mut state_lines: Vec<usize> = Vec::new();
    let mut malformed: Vec<usize> = Vec::new();
    let mut k: usize = 0;
    while k < bs.len()
        invariant
            k <= bs@.len(),
            ls == crate::text::nested_view(lines@),
            ls == lines_of(content@),
            bv == ranges_view(bs@),
            bv == block_ranges(ls, ls.len() as int),
            forall|q: int|
                0 <= q < bs@.len() ==> #[trigger] bs@[q].0 < bs@[q].1 <= lines@.len() && is_heading(
                    lines@[bs@[q].0 as int]@,
                ),
            tasks_view(tasks@) == parsed_blocks(ls, bv, k as int).map_values(
                |x: (int, BlockParse)| x.1.task,
            ),
            starts@.len() == parsed_blocks(ls, bv, k as int).len(),
            state_lines@.len() == parsed_blocks(ls, bv, k as int).len(),
            forall|j: int|
                0 <= j < parsed_blocks(ls, bv, k as int).len() ==> #[trigger] starts@[j] as int
                    == parsed_blocks(ls, bv, k as int)[j].0 && state_lines@[j] as int
                    == parsed_blocks(ls, bv, k as int)[j].0 + parsed_blocks(
                    ls,
                    bv,
                    k as int,
                )[j].1.state_line,
            malformed@.map_values(|x: usize| x as int) == malformed_blocks(ls, bv, k as int),
            forall|j: int| 0 <= j < state_lines@.len() ==> #[trigger] state_lines@[j] < lines@.len(),
        decreases bs@.len() - k,
    {
        let (s, e) = bs[k];
        proof {
            assert(bv[k as int] == (s as int, e as int));
            assert(blk(lines@, s as int, e as int) == ls.subrange(s as int, e as int));
        }
        let ghost prev = parsed_blocks(ls, bv, k as int);
        match parse_block_at(&lines, s, e) {
            Some((t, si)) => {
                let ghost tv = t@;
                let ghost old_tasks = tasks@;
                let ghost old_starts = starts@;
                let ghost old_states = state_lines@;
                tasks.push(t);
                starts.push(s);
                state_lines.push(s + si);
                proof {
                    let p = parse_block(ls.subrange(s as int, e as int))->0;
                    assert(parse_block(ls.subrange(s as int, e as int)) is Some);
                    assert(tv == p.task);
                    let next = parsed_blocks(ls, bv, k + 1);
                    assert(next == prev.push((s as int, p)));
                    assert(tasks@ == old_tasks.push(tasks@.last()));
                    assert(tasks_view(old_tasks).len() == old_tasks.len());
                    assert(prev.map_values(|x: (int, BlockParse)| x.1.task).len() == prev.len());
                    assert(old_tasks.len() == prev.len());
                    assert forall|j: int| 0 <= j < next.len() implies #[trigger] tasks_view(tasks@)[j]
                        == next[j].1.task by {
                        if j < prev.len() {
                            assert(tasks_view(old_tasks)[j] == prev[j].1.task);
                            assert(tasks@[j] == old_tasks[j]);
                        }
                    }
                    assert forall|j: int| 0 <= j < next.len() implies #[trigger] starts@[j] as int
                        == next[j].0 && state_lines@[j] as int == next[j].0 + next[j].1.state_line by {
                        if j < prev.len() {
                            assert(starts@[j] == old_starts[j]);
                            assert(state_lines@[j] == old_states[j]);
                        }
                    }
                    assert(tasks_view(tasks@) =~= parsed_blocks(ls, bv, k + 1).map_values(
                        |x: (int, BlockParse)| x.1.task,
                    ));
                    assert(malformed@.map_values(|x: usize| x as int) =~= malformed_blocks(
                        ls,
                        bv,
                        k + 1,
                    ));
                }
            },
            None => {
                malformed.push(s);
                proof {
                    assert(malformed@.map_values(|x: usize| x as int) =~= malformed_blocks(
                        ls,
                        bv,
                        k + 1,
                    ));
                }
            },
        }
        k = k + 1;
    }
    ParsedFile { lines, tasks, starts, state_lines, malformed }
}

} // verus!

verus! {

// ── Completion edit ─────────────────────────────────────────────────────────

/// A comment with its line breaks turned into spaces, so that it stays one line.
pub open spec fn one_line(c: Seq<char>) -> Seq<char> {
    c.map_values(|ch: char| if ch == '\n' || ch == '\r' { ' ' } else { ch })
}

/// `"\r"` when the line ends with one (a CRLF line), else nothing.
pub open spec fn cr_of(l: Seq<char>) -> Seq<char> {
    if l.len() > 0 && l.last() == '\r' {
        seq!['\r']
    } else {
        Seq::empty()
    }
}

/// The state line written by a completion, keeping the line's ending.
pub open spec fn done_line(old: Seq<char>) -> Seq<char> {
    "**State:** done"@ + cr_of(old)
}

/// The annotation line written for a non-empty comment.
pub open spec fn note_line(old: Seq<char>, c: Seq<char>) -> Seq<char> {
    "**Completion Note:** "@ + one_line(c) + cr_of(old)
}

/// The lines after completing the task whose state line is `g`: that line
/// becomes `**State:** done`, followed by a note line when the comment is
/// non-empty; every other line is unchanged.
pub open spec fn completed_lines(ls: Seq<Seq<char>>, g: int, comment: Option<Seq<char>>) -> Seq<
    Seq<char>,
> {
    let note = match comment {
        Some(c) => if c.len() > 0 {
            seq![note_line(ls[g], c)]
        } else {
            Seq::empty()
        },
        None => Seq::empty(),
    };
    ls.take(g) + seq![done_line(ls[g])] + note + ls.skip(g + 1)
}

/// The file after completing task `id`, or `None` when the file has no such task.
pub open spec fn completion(content: Seq<char>, id: Seq<char>, comment: Option<Seq<char>>) -> Option<
    Seq<char>,
> {
    let j = find_task(file_tasks(content), id);
    if j < 0 {
        None
    } else {
        let fb = file_blocks(content);
        Some(
            join_with(completed_lines(lines_of(content), fb[j].0 + fb[j].1.state_line, comment), '\n'),
        )
    }
}

pub open spec fn opt_str(c: Option<&str>) -> Option<Seq<char>> {
    match c {
        Some(s) => Some(s@),
        None => None,
    }
}

// ── Lookups ─────────────────────────────────────────────────────────────────

proof fn lemma_find_task_extend(ts: Seq<TaskView>, id: Seq<char>, m: int, n: int)
    requires
        0 <= m <= n <= ts.len(),
        find_task(ts.take(m), id) >= 0,
    ensures
        find_task(ts.take(n), id) == find_task(ts.take(m), id),
    decreases n - m,
{
    if n > m {
        lemma_find_task_extend(ts, id, m, n - 1);
        assert(ts.take(n).drop_last() =~= ts.take(n - 1));
    }
}

/// The first task with an identifier lies inside the sequence and carries it.
pub proof fn lemma_find_task_range(ts: Seq<TaskView>, id: Seq<char>)
    ensures
        find_task(ts, id) >= 0 ==> find_task(ts, id) < ts.len() && ts[find_task(ts, id)].id.native_id
            == id,
    decreases ts.len(),
{
    if ts.len() > 0 {
        lemma_find_task_range(ts.drop_last(), id);
    }
}

/// The index of the first task with identifier `id`.
fn find_task_index(ts: &Vec<crate::Task>, id: &String) -> (r: Option<usize>)
    ensures
        match r {
            Some(j) => find_task(tasks_view(ts@), id@) == j as int && j < ts@.len(),
            None => find_task(tasks_view(ts@), id@) == -1,
        },
{
    let ghost tv = tasks_view(ts@);
    let mut i: usize = 0;
    proof {
        assert(tv.take(0) =~= Seq::<TaskView>::empty());
    }
    while i < ts.len()
        invariant
            i <= ts@.len(),
            tv == tasks_view(ts@),
            find_task(tv.take(i as int), id@) == -1,
        decreases ts@.len() - i,
    {
        proof {
            assert(tv.take(i + 1).drop_last() =~= tv.take(i as int));
            assert(tv.take(i + 1).last() == ts@[i as int]@);
        }
        if ts[i].id.native_id.0 == *id {
            proof {
                lemma_find_task_extend(tv, id@, i + 1, tv.len() as int);
                assert(tv.take(tv.len() as int) =~= tv);
            }
            return Some(i);
        }
        i = i + 1;
    }
    proof {
        assert(tv.take(tv.len() as int) =~= tv);
    }
    None
}

fn dep_is_done(ts: &Vec<crate::Task>, d: &String) -> (b: bool)
    ensures
        b == dep_done(tasks_view(ts@), d@),
{
    match find_task_index(ts, d) {
        Some(j) => match ts[j].state {
            TaskState::Done => true,
            _ => false,
        },
        None => false,
    }
}

/// The task as listed (blocked when it is actionable and a dependency is unresolved).
fn effective_task(ts: &Vec<crate::Task>, t: &crate::Task) -> (r: crate::Task)
    ensures
        r@ == effective(tasks_view(ts@), t@),
{
    let mut r = t.clone();
    let actionable = match t.state {
        TaskState::Unstarted => true,
        TaskState::InProgress => true,
        _ => false,
    };
    if actionable {
        let mut i: usize = 0;
        while i < t.dependencies.len()
            invariant
                i <= t.dependencies@.len(),
                r@ == t@,
                is_actionable(t@.state),
                forall|j: int| 0 <= j < i ==> dep_done(tasks_view(ts@), #[trigger] t@.dependencies[j]),
            decreases t.dependencies@.len() - i,
        {
            proof {
                assert(t@.dependencies[i as int] == t.dependencies@[i as int]@);
            }
            if !dep_is_done(ts, &t.dependencies[i].0.0) {
                r.state = TaskState::Blocked;
                proof {
                    assert(!dep_done(tasks_view(ts@), t@.dependencies[i as int]));
                    assert(r@ == effective(tasks_view(ts@), t@));
                }
                return r;
            }
            i = i + 1;
        }
    }
    r
}

} // verus!

verus! {

/// The note line for comment `cv` after the state line `old`.
fn note_chars(cv: &Vec<char>, old: &Vec<char>) -> (nl: Vec<char>)
    ensures
        nl@ == note_line(old@, cv@),
{
    let mut nl = crate::text::chars_of("**Completion Note:** ");
    let ghost head = nl@;
    let mut k: usize = 0;
    while k < cv.len()
        invariant
            k <= cv@.len(),
            nl@ == head + one_line(cv@.take(k as int)),
        decreases cv@.len() - k,
    {
        let ch = cv[k];
        nl.push(if ch == '\n' || ch == '\r' { ' ' } else { ch });
        proof {
            assert(one_line(cv@.take(k + 1)) =~= one_line(cv@.take(k as int)).push(
                if ch == '\n' || ch == '\r' { ' ' } else { ch },
            ));
        }
        k = k + 1;
    }
    if old.len() > 0 && old[old.len() - 1] == '\r' {
        nl.push('\r');
    }
    proof {
        assert(cv@.take(cv@.len() as int) =~= cv@);
        assert(nl@ =~= note_line(old@, cv@));
    }
    nl
}

// ── LocalFileSource ─────────────────────────────────────────────────────────

/// The local markdown task file source. Reading and writing the file is the
/// caller's; this type decides what the file's text means and how completion
/// rewrites it.
#[derive(Debug)]
pub struct LocalFileSource {
    /// Absolute, normalised path of the task file.
    path: String,
}

impl View for LocalFileSource {
    type V = Seq<char>;

    closed spec fn view(&self) -> Seq<char> {
        self.path@
    }
}

impl LocalFileSource {
    /// Creates the source for the configured path, which must be absolute,
    /// without `..` components, and name a file; the source keeps its normalised
    /// form (no `.` components, no repeated or trailing `/`). Any other path is
    /// `ConfigError::Invalid`.
    pub fn new(config: &crate::config::LocalSourceConfig) -> (r: Result<Self, crate::config::ConfigError>)
        ensures
            match r {
                Ok(s) => crate::config::local_path_ok(config.path@) && s@ == crate::config::normalised(
                    config.path@,
                ),
                Err(e) => !crate::config::local_path_ok(config.path@) && (e matches crate::config::ConfigError::Invalid { message }
                    && message@ == "the local task file path is not absolute or climbs with `..`"@),
            },
    {
        let v = crate::text::chars_of(config.path.as_str());
        let abs = v.len() > 0 && v[0] == '/';
        let pieces = crate::text::split_chars(&v, '/');
        let up = crate::config::has_parent_step(&pieces);
        let parts = crate::config::normalize(abs, &pieces);
        if abs && !up && parts.len() > 0 {
            Ok(LocalFileSource { path: crate::config::render_parts(true, &parts) })
        } else {
            Err(crate::config::ConfigError::Invalid {
                message: String::from_str("the local task file path is not absolute or climbs with `..`"),
            })
        }
    }

    /// The task file's path.
    pub fn path(&self) -> (p: &String)
        ensures
            p@ == self@,
    {
        &self.path
    }

    /// The summaries of the file's tasks that pass `filter`, in file order, with
    /// unresolved dependencies shown as `Blocked`; and the heading lines (0-based)
    /// of the malformed blocks that were skipped.
    pub fn list_in(&self, content: &str, filter: &crate::selection::SelectionFilter) -> (r: (
        Vec<crate::TaskSummary>,
        Vec<usize>,
    ))
        ensures
            crate::output::summaries_view(r.0@) == listed(
                file_tasks(content@),
                filter@,
                file_tasks(content@).len() as int,
            ),
            r.1@.map_values(|x: usize| x as int) == file_malformed(content@),
    {
        let parsed = parse_file(content);
        let ghost tv = tasks_view(parsed.tasks@);
        let mut out: Vec<crate::TaskSummary> = Vec::new();
        let mut i: usize = 0;
        while i < parsed.tasks.len()
            invariant
                i <= parsed.tasks@.len(),
                tv == tasks_view(parsed.tasks@),
                crate::output::summaries_view(out@) == listed(tv, filter@, i as int),
            decreases parsed.tasks@.len() - i,
        {
            let e = effective_task(&parsed.tasks, &parsed.tasks[i]);
            let s = e.summary();
            proof {
                assert(tv[i as int] == parsed.tasks@[i as int]@);
            }
            if filter.accepts(&s) {
                let ghost before = out@;
                out.push(s);
                proof {
                    assert(crate::output::summaries_view(out@) =~= crate::output::summaries_view(
                        before,
                    ).push(out@.last()@));
                }
            }
            i = i + 1;
        }
        (out, parsed.malformed)
    }

    /// The task `native_id` of the file, with its state as listed (blocked when
    /// a dependency is unresolved); `NotFound` when the file has no such task.
    pub fn get_in(&self, content: &str, native_id: &crate::identity::NativeId) -> (r: Result<
        crate::Task,
        SourceError,
    >)
        ensures
            ({
                let ts = file_tasks(content@);
                let j = find_task(ts, native_id@);
                if j >= 0 {
                    r matches Ok(t) && t@ == effective(ts, ts[j])
                } else {
                    r matches Err(SourceError::NotFound { native_id: n }) && n@ == native_id@
                }
            }),
    {
        let parsed = parse_file(content);
        match find_task_index(&parsed.tasks, &native_id.0) {
            Some(j) => Ok(effective_task(&parsed.tasks, &parsed.tasks[j])),
            None => Err(SourceError::NotFound { native_id: native_id.clone() }),
        }
    }

    /// The file's new text after completing `native_id`: its state line reads
    /// `**State:** done` and, for a non-empty comment, is followed by a
    /// `**Completion Note:** <comment>` line (line breaks in the comment become
    /// spaces); every other line is kept as it was. `NotFound` when the file has
    /// no such task. Completing a done task again succeeds.
    pub fn complete_in(
        &self,
        content: &str,
        native_id: &crate::identity::NativeId,
        comment: Option<&str>,
    ) -> (r: Result<String, SourceError>)
        ensures
            match completion(content@, native_id@, opt_str(comment)) {
                Some(text) => r matches Ok(s) && s@ == text,
                None => r matches Err(SourceError::NotFound { native_id: n }) && n@ == native_id@,
            },
    {
        let parsed = parse_file(content);
        let j = match find_task_index(&parsed.tasks, &native_id.0) {
            Some(j) => j,
            None => {
                return Err(SourceError::NotFound { native_id: native_id.clone() });
            },
        };
        let ghost ls = crate::text::nested_view(parsed.lines@);
        let ghost fb = file_blocks(content@);
        proof {
            assert(tasks_view(parsed.tasks@).len() == fb.len());
        }
        let g = parsed.state_lines[j];
        proof {
            assert(parsed_file_ok(content@, parsed));
            assert(parsed.state_lines@[j as int] < parsed.lines@.len());
            assert(j < fb.len());
            assert(parsed.starts@[j as int] as int == fb[j as int].0);
            assert(g as int == fb[j as int].0 + fb[j as int].1.state_line);
            assert(file_tasks(content@) == tasks_view(parsed.tasks@));
            assert(find_task(file_tasks(content@), native_id@) == j);
            assert(ls == lines_of(content@));
        }
        let lines = &parsed.lines;
        let mut out: Vec<Vec<char>> = Vec::new();
        let mut i: usize = 0;
        while i < g
            invariant
                g < lines@.len(),
                i <= g,
                ls == crate::text::nested_view(lines@),
                crate::text::nested_view(out@) == ls.take(i as int),
            decreases g - i,
        {
            let ghost before = out@;
            let cp = crate::text::copy_range(&lines[i], 0, lines[i].len());
            proof {
                assert(lines@[i as int]@.subrange(0, lines@[i as int]@.len() as int) =~= lines@[i as int]@);
                crate::text::lemma_nested_push(before, cp);
            }
            out.push(cp);
            proof {
                assert(ls[i as int] == lines@[i as int]@);
                assert(crate::text::nested_view(out@) =~= ls.take(i + 1));
            }
            i = i + 1;
        }
        assert(g < lines@.len());
        let old_line = &lines[g];
        let cr = old_line.len() > 0 && old_line[old_line.len() - 1] == '\r';
        let mut st = crate::text::chars_of("**State:** done");
        if cr {
            st.push('\r');
        }
        proof {
            assert(ls[g as int] == old_line@);
            assert(st@ =~= done_line(ls[g as int]));
        }
        proof {
            crate::text::lemma_nested_push(out@, st);
        }
        out.push(st);
        let ghost with_state = crate::text::nested_view(out@);
        let mut noted = false;
        match comment {
            Some(c) => {
                let cv = crate::text::chars_of(c);
                if cv.len() > 0 {
                    let nl = note_chars(&cv, old_line);
                    proof {
                        assert(nl@ == note_line(ls[g as int], c@));
                    }
                    proof {
                        crate::text::lemma_nested_push(out@, nl);
                    }
                    out.push(nl);
                    noted = true;
                }
            },
            None => {},
        }
        let ghost mid = crate::text::nested_view(out@);
        let n_lines = lines.len();
        assert(g < n_lines);
        let mut i = g + 1;
        while i < lines.len()
            invariant
                g < lines@.len(),
                g + 1 <= i <= lines@.len(),
                ls == crate::text::nested_view(lines@),
                crate::text::nested_view(out@) == mid + ls.subrange(g + 1, i as int),
            decreases lines@.len() - i,
        {
            let ghost before = out@;
            let cp = crate::text::copy_range(&lines[i], 0, lines[i].len());
            proof {
                assert(lines@[i as int]@.subrange(0, lines@[i as int]@.len() as int) =~= lines@[i as int]@);
                crate::text::lemma_nested_push(before, cp);
            }
            out.push(cp);
            proof {
                assert(ls[i as int] == lines@[i as int]@);
                assert(crate::text::nested_view(out@) =~= mid + ls.subrange(g + 1, i + 1));
            }
            i = i + 1;
        }
        proof {
            let note: Seq<Seq<char>> = match opt_str(comment) {
                Some(c) => if c.len() > 0 {
                    seq![note_line(ls[g as int], c)]
                } else {
                    Seq::empty()
                },
                None => Seq::empty(),
            };
            assert(mid =~= ls.take(g as int) + seq![done_line(ls[g as int])] + note);
            assert(ls.subrange(g + 1, ls.len() as int) =~= ls.skip(g + 1));
            assert(crate::text::nested_view(out@) =~= completed_lines(ls, g as int, opt_str(comment)));
        }
        let joined = crate::text::join_chars(&out, '\n');
        Ok(crate::text::string_of(&joined))
    }
}


// ── Laws ────────────────────────────────────────────────────────────────────

/// The dependency rule: a listed or looked-up task keeps everything it was
/// written with but its state. An unstarted or in-progress task is shown
/// `Blocked` exactly when one of its dependencies, at any position of its list,
/// is not the identifier of a task of the file whose first occurrence is done;
/// otherwise, and for every other written state, the state is as written.
pub proof fn lemma_blocked_iff_unfinished_dependency(ts: Seq<TaskView>, t: TaskView)
    ensures
        effective(ts, t) == (TaskView { state: effective(ts, t).state, ..t }),
        !is_actionable(t.state) ==> effective(ts, t).state == t.state,
        is_actionable(t.state) ==> ((effective(ts, t).state == TaskState::Blocked) <==> exists|k: int|
            0 <= k < t.dependencies.len() && !(find_task(ts, #[trigger] t.dependencies[k]) >= 0
                && ts[find_task(ts, t.dependencies[k])].state == TaskState::Done)),
        is_actionable(t.state) && effective(ts, t).state != TaskState::Blocked ==> effective(
            ts,
            t,
        ).state == t.state,
{
    if is_actionable(t.state) {
        if exists|k: int|
            0 <= k < t.dependencies.len() && !(find_task(ts, #[trigger] t.dependencies[k]) >= 0
                && ts[find_task(ts, t.dependencies[k])].state == TaskState::Done) {
            let k = choose|k: int|
                0 <= k < t.dependencies.len() && !(find_task(ts, #[trigger] t.dependencies[k]) >= 0
                    && ts[find_task(ts, t.dependencies[k])].state == TaskState::Done);
            assert(!dep_done(ts, t.dependencies[k]));
        } else {
            assert forall|i: int| 0 <= i < t.dependencies.len() implies dep_done(
                ts,
                #[trigger] t.dependencies[i],
            ) by {
                assert(find_task(ts, t.dependencies[i]) >= 0 && ts[find_task(
                    ts,
                    t.dependencies[i],
                )].state == TaskState::Done);
            }
        }
    }
}

/// The lookup finds the first task of the file with the identifier asked for:
/// the found task carries it and no earlier task does; `-1` means none does.
pub proof fn lemma_find_task_first(ts: Seq<TaskView>, id: Seq<char>)
    ensures
        find_task(ts, id) >= 0 ==> find_task(ts, id) < ts.len() && ts[find_task(ts, id)].id.native_id
            == id && forall|m: int| 0 <= m < find_task(ts, id) ==> #[trigger] ts[m].id.native_id != id,
        find_task(ts, id) < 0 ==> find_task(ts, id) == -1 && forall|m: int|
            0 <= m < ts.len() ==> #[trigger] ts[m].id.native_id != id,
    decreases ts.len(),
{
    if ts.len() > 0 {
        let init = ts.drop_last();
        lemma_find_task_first(init, id);
        let r0 = find_task(init, id);
        if r0 >= 0 {
            assert forall|m: int| 0 <= m < r0 implies #[trigger] ts[m].id.native_id != id by {
                assert(init[m] == ts[m]);
            }
            assert(init[r0] == ts[r0]);
        } else {
            assert forall|m: int| 0 <= m < ts.len() - 1 implies #[trigger] ts[m].id.native_id != id by {
                assert(init[m] == ts[m]);
            }
        }
    }
}


/// Listing with a filter that lets every task through shows every
/// well-formed task of the file, one summary each, in file order, with its
/// identifier, title, priority and role as written.
pub proof fn lemma_listing_complete(ts: Seq<TaskView>, f: crate::selection::FilterView, n: int)
    requires
        f.role is None,
        f.source_key is None,
        f.include_all,
        0 <= n <= ts.len(),
    ensures
        listed(ts, f, n).len() == n,
        forall|k: int|
            0 <= k < n ==> (#[trigger] listed(ts, f, n)[k]).id == ts[k].id && listed(ts, f, n)[k].title
                == ts[k].title && listed(ts, f, n)[k].priority == ts[k].priority && listed(ts, f, n)[k].role
                == ts[k].role,
    decreases n,
{
    if n > 0 {
        lemma_listing_complete(ts, f, n - 1);
        lemma_blocked_iff_unfinished_dependency(ts, ts[n - 1]);
        let cur = listed(ts, f, n);
        let prev = listed(ts, f, n - 1);
        assert forall|k: int| 0 <= k < n - 1 implies #[trigger] cur[k] == prev[k] by {}
    }
}


/// What a well-formed block says, read off its lines: after the heading's
/// `## `, the text up to the first `:` is the identifier and the rest the
/// title, both trimmed and non-empty, the identifier without whitespace; the
/// task's state is the one its state line names (a line of the metadata that
/// starts with `**State:**`, the first such), ignoring ASCII case.
pub proof fn lemma_block_reads(b: Seq<Seq<char>>)
    ensures
        parse_block(b) matches Some(p) ==> {
            let h = clean(b[0]).skip(3);
            let sl = p.state_line;
            &&& p.task.id.source_key == SourceKey::Local
            &&& exists|k: int|
                0 <= k < h.len() && h[k] == ':' && (forall|m: int| 0 <= m < k ==> h[m] != ':') && trim(
                    h.take(k),
                ) == p.task.id.native_id && trim(#[trigger] h.skip(k + 1)) == p.task.title
            &&& p.task.id.native_id.len() > 0
            &&& !has_ws(p.task.id.native_id)
            &&& p.task.title.len() > 0
            &&& 1 <= sl < b.len()
            &&& starts_with(clean(b[sl]), "**State:**"@)
            &&& forall|m: int| 1 <= m < sl ==> !starts_with(clean(#[trigger] b[m]), "**State:**"@)
            &&& lower_seq(trim(clean(b[sl]).skip(10))) == crate::state_text(p.task.state)
        },
{
    if let Some(p) = parse_block(b) {
        reveal_strlit("**State:**");
        reveal_strlit("unstarted");
        reveal_strlit("in_progress");
        reveal_strlit("blocked");
        reveal_strlit("done");
        let h = heading_rest(b[0]);
        let k = index_of(h, ':');
        crate::text::lemma_index_of_first(h, ':');
        assert(h.skip(k + 1) == h.skip(k + 1));
        let fs = first_section(b, 1);
        lemma_find_field_hits_first(b, 1, fs, "**State:**"@);
        lemma_first_section_bound(b, 1);
    }
}

proof fn lemma_find_field_hits_first(b: Seq<Seq<char>>, j: int, m: int, p: Seq<char>)
    ensures
        find_field(b, j, m, p) >= 0 ==> j <= find_field(b, j, m, p) < m && find_field(b, j, m, p) < b.len()
            && starts_with(clean(b[find_field(b, j, m, p)]), p) && forall|x: int|
            j <= x < find_field(b, j, m, p) ==> !starts_with(clean(#[trigger] b[x]), p),
    decreases m - j,
{
    if !(j >= m || j < 0 || j >= b.len()) && !starts_with(clean(b[j]), p) {
        lemma_find_field_hits_first(b, j + 1, m, p);
    }
}

proof fn lemma_first_section_bound(b: Seq<Seq<char>>, j: int)
    requires
        0 <= j,
    ensures
        first_section(b, j) <= b.len() || j > b.len(),
    decreases b.len() - j,
{
    if j < b.len() {
        lemma_first_section_bound(b, j + 1);
    }
}

} // verus!
