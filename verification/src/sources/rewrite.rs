//! What the completion edit of the local task file does to the tasks that the
//! file describes: reading the rewritten text back gives the same tasks, in the
//! same order, with the completed one `Done`.
use vstd::prelude::*;

use crate::sources::local::{
    block_ranges, clean, completed_lines, completion, done_line, effective, file_blocks,
    file_tasks, find_task, lines_of, find_field, find_section, first_section, is_heading, is_section,
    note_line, one_line, parse_block, parse_state, parsed_blocks, section, section_text, BlockParse,
};
use crate::text::{is_ws, lower_seq, starts_with, trim, trim_end, trim_start};
use crate::{TaskState, TaskView};

verus! {

// ── Lines and prefixes ──────────────────────────────────────────────────────

/// Two prefixes that differ at `k` never start the same line.
proof fn lemma_prefix_clash(s: Seq<char>, a: Seq<char>, b: Seq<char>, k: int)
    requires
        starts_with(s, a),
        0 <= k < a.len(),
        k < b.len(),
        a[k] != b[k],
    ensures
        !starts_with(s, b),
{
    assert(s.take(a.len() as int)[k] == s[k]);
    if starts_with(s, b) {
        assert(s.take(b.len() as int)[k] == s[k]);
    }
}

/// Trimming the end of `p + t` keeps `p` when `p` ends in a non-space.
proof fn lemma_trim_end_keeps(p: Seq<char>, t: Seq<char>)
    requires
        p.len() > 0,
        !is_ws(p.last()),
    ensures
        trim_end(p + t).len() >= p.len(),
        trim_end(p + t).take(p.len() as int) == p,
    decreases t.len(),
{
    if t.len() == 0 {
        assert(p + t =~= p);
        assert(p.take(p.len() as int) =~= p);
    } else {
        assert((p + t).last() == t.last());
        if is_ws(t.last()) {
            assert((p + t).drop_last() =~= p + t.drop_last());
            lemma_trim_end_keeps(p, t.drop_last());
        } else {
            assert((p + t).take(p.len() as int) =~= p);
        }
    }
}

/// Trimming the end of `p + t` gives `p` when `t` is all whitespace.
proof fn lemma_trim_end_ws_tail(p: Seq<char>, t: Seq<char>)
    requires
        p.len() > 0,
        !is_ws(p.last()),
        forall|i: int| 0 <= i < t.len() ==> is_ws(t[i]),
    ensures
        trim_end(p + t) == p,
    decreases t.len(),
{
    if t.len() == 0 {
        assert(p + t =~= p);
    } else {
        assert((p + t).last() == t.last());
        assert((p + t).drop_last() =~= p + t.drop_last());
        lemma_trim_end_ws_tail(p, t.drop_last());
    }
}

/// A line whose cleaned text starts with `**` and then `c`.
pub open spec fn starts_star_star(l: Seq<char>, c: char) -> bool {
    let s = clean(l);
    s.len() >= 3 && s[0] == '*' && s[1] == '*' && s[2] == c
}

/// A line that starts with `**` is neither a heading nor a section, and starts
/// with no field prefix whose third character differs from its own.
proof fn lemma_star_line(l: Seq<char>, c: char)
    requires
        starts_star_star(l, c),
    ensures
        !is_heading(l),
        !is_section(l),
        c != 'P' ==> !starts_with(clean(l), "**Priority:**"@),
        c != 'R' ==> !starts_with(clean(l), "**Role:**"@),
        c != 'S' ==> !starts_with(clean(l), "**State:**"@),
        c != 'D' ==> !starts_with(clean(l), "**Depends:**"@),
{
    reveal_strlit("## ");
    reveal_strlit("### ");
    reveal_strlit("**Priority:**");
    reveal_strlit("**Role:**");
    reveal_strlit("**State:**");
    reveal_strlit("**Depends:**");
    let s = clean(l);
    let w = seq!['*', '*', c];
    assert(starts_with(s, w));
    lemma_prefix_clash(s, w, "## "@, 0);
    lemma_prefix_clash(s, w, "### "@, 0);
    if c != 'P' {
        lemma_prefix_clash(s, w, "**Priority:**"@, 2);
    }
    if c != 'R' {
        lemma_prefix_clash(s, w, "**Role:**"@, 2);
    }
    if c != 'S' {
        lemma_prefix_clash(s, w, "**State:**"@, 2);
    }
    if c != 'D' {
        lemma_prefix_clash(s, w, "**Depends:**"@, 2);
    }
}

/// The line a completion writes in place of the state line.
proof fn lemma_done_line(old: Seq<char>)
    ensures
        clean(done_line(old)) == "**State:** done"@,
        starts_star_star(done_line(old), 'S'),
        starts_with(clean(done_line(old)), "**State:**"@),
        parse_state(trim(clean(done_line(old)).skip(10))) == Some(TaskState::Done),
        forall|i: int| 0 <= i < done_line(old).len() ==> #[trigger] done_line(old)[i] != '\n',
{
    reveal_strlit("**State:** done");
    reveal_strlit("**State:**");
    reveal_strlit("unstarted");
    reveal_strlit("in_progress");
    reveal_strlit("blocked");
    reveal_strlit("done");
    let p = "**State:** done"@;
    let t = crate::sources::local::cr_of(old);
    lemma_trim_end_ws_tail(p, t);
    let s = clean(done_line(old));
    assert(s.take(10) =~= "**State:**"@);
    let v = s.skip(10);
    assert(v =~= seq![' ', 'd', 'o', 'n', 'e']);
    assert(trim_end(v) == v);
    assert(v.drop_first() =~= seq!['d', 'o', 'n', 'e']);
    assert(trim_start(v.drop_first()) == v.drop_first());
    assert(trim(v) =~= "done"@);
    assert(lower_seq("done"@) =~= "done"@);
    assert("done"@ != "unstarted"@);
    assert("done"@ != "in_progress"@);
    assert("done"@ != "blocked"@);
}

/// The note line that a completion may add after the state line.
proof fn lemma_note_line(old: Seq<char>, c: Seq<char>)
    ensures
        starts_star_star(note_line(old, c), 'C'),
        forall|i: int| 0 <= i < note_line(old, c).len() ==> #[trigger] note_line(old, c)[i] != '\n',
{
    reveal_strlit("**Completion Note:** ");
    let n = note_line(old, c);
    let p = seq!['*', '*', 'C'];
    assert(n =~= p + n.skip(3));
    lemma_trim_end_keeps(p, n.skip(3));
    let s = clean(n);
    assert(s.take(3)[0] == s[0]);
    assert(s.take(3)[1] == s[1]);
    assert(s.take(3)[2] == s[2]);
    assert forall|i: int| 0 <= i < n.len() implies #[trigger] n[i] != '\n' by {
        let h = "**Completion Note:** "@;
        let o = one_line(c);
        if i < h.len() {
        } else if i < h.len() + o.len() {
            assert(n[i] == o[i - h.len()]);
        } else {
        }
    }
}

} // verus!

verus! {

// ── Searches within a block ─────────────────────────────────────────────────

proof fn lemma_first_section_range(b: Seq<Seq<char>>, j: int)
    requires
        0 <= j,
    ensures
        j <= b.len() ==> j <= first_section(b, j) <= b.len(),
        j > b.len() ==> first_section(b, j) == b.len(),
        first_section(b, j) < b.len() ==> is_section(b[first_section(b, j)]),
    decreases b.len() - j,
{
    if j < b.len() {
        lemma_first_section_range(b, j + 1);
    }
}

/// The first section at or after `j` comes no later than any section at or after `j`.
proof fn lemma_first_section_le(b: Seq<Seq<char>>, j: int, k: int)
    requires
        0 <= j <= k < b.len(),
        is_section(b[k]),
    ensures
        first_section(b, j) <= k,
    decreases k - j,
{
    if j < k && !is_section(b[j]) {
        lemma_first_section_le(b, j + 1, k);
    }
}

proof fn lemma_find_field_range(b: Seq<Seq<char>>, j: int, m: int, p: Seq<char>)
    ensures
        find_field(b, j, m, p) == -1 || (j <= find_field(b, j, m, p) < m && 0 <= find_field(
            b,
            j,
            m,
            p,
        ) < b.len() && starts_with(clean(b[find_field(b, j, m, p)]), p)),
    decreases m - j,
{
    if !(j >= m || j < 0 || j >= b.len()) && !starts_with(clean(b[j]), p) {
        lemma_find_field_range(b, j + 1, m, p);
    }
}

proof fn lemma_find_section_range(b: Seq<Seq<char>>, j: int, name: Seq<char>)
    ensures
        find_section(b, j, name) == -1 || (j <= find_section(b, j, name) < b.len() && 0
            <= find_section(b, j, name) && is_section(b[find_section(b, j, name)])),
    decreases b.len() - j,
{
    if !(j >= b.len() || j < 0) && !(is_section(b[j]) && trim(clean(b[j]).skip(4)) == name) {
        lemma_find_section_range(b, j + 1, name);
    }
}

/// A well-formed block has a heading line and a state line inside its metadata.
proof fn lemma_parse_block_shape(b: Seq<Seq<char>>)
    requires
        parse_block(b) is Some,
    ensures
        b.len() >= 1,
        1 <= parse_block(b)->0.state_line < first_section(b, 1) <= b.len(),
        starts_with(clean(b[parse_block(b)->0.state_line]), "**State:**"@),
{
    lemma_find_field_range(b, 1, first_section(b, 1), "**State:**"@);
    lemma_first_section_range(b, 1);
}

// ── Replacing one line ──────────────────────────────────────────────────────

/// `b2` is `b` with line `i` replaced.
pub open spec fn replaced(b: Seq<Seq<char>>, b2: Seq<Seq<char>>, i: int) -> bool {
    &&& b2.len() == b.len()
    &&& 0 <= i < b.len()
    &&& forall|k: int| 0 <= k < b.len() && k != i ==> #[trigger] b2[k] == b[k]
}

proof fn lemma_first_section_replaced(b: Seq<Seq<char>>, b2: Seq<Seq<char>>, i: int, j: int)
    requires
        replaced(b, b2, i),
        is_section(b2[i]) == is_section(b[i]),
    ensures
        first_section(b2, j) == first_section(b, j),
    decreases b.len() - j,
{
    if j < b.len() {
        if j >= 0 && j != i {
            assert(b2[j] == b[j]);
        }
        lemma_first_section_replaced(b, b2, i, j + 1);
    }
}

proof fn lemma_find_field_replaced(
    b: Seq<Seq<char>>,
    b2: Seq<Seq<char>>,
    i: int,
    j: int,
    m: int,
    p: Seq<char>,
)
    requires
        replaced(b, b2, i),
        starts_with(clean(b2[i]), p) == starts_with(clean(b[i]), p),
    ensures
        find_field(b2, j, m, p) == find_field(b, j, m, p),
    decreases m - j,
{
    if !(j >= m || j < 0 || j >= b.len()) {
        if j != i {
            assert(b2[j] == b[j]);
        }
        lemma_find_field_replaced(b, b2, i, j + 1, m, p);
    }
}

proof fn lemma_find_section_replaced(
    b: Seq<Seq<char>>,
    b2: Seq<Seq<char>>,
    i: int,
    j: int,
    name: Seq<char>,
)
    requires
        replaced(b, b2, i),
        !is_section(b2[i]),
        !is_section(b[i]),
    ensures
        find_section(b2, j, name) == find_section(b, j, name),
    decreases b.len() - j,
{
    if !(j >= b.len() || j < 0) {
        if j != i {
            assert(b2[j] == b[j]);
        }
        lemma_find_section_replaced(b, b2, i, j + 1, name);
    }
}

/// A section of `b` reads the same after replacing a metadata line.
proof fn lemma_section_replaced(b: Seq<Seq<char>>, b2: Seq<Seq<char>>, i: int, name: Seq<char>)
    requires
        replaced(b, b2, i),
        !is_section(b2[i]),
        !is_section(b[i]),
        1 <= i < first_section(b, 1),
    ensures
        section(b2, name) == section(b, name),
{
    lemma_find_section_replaced(b, b2, i, 1, name);
    let x = find_section(b, 1, name);
    lemma_find_section_range(b, 1, name);
    if x >= 0 {
        lemma_first_section_le(b, 1, x);
        lemma_first_section_replaced(b, b2, i, x + 1);
        let f = first_section(b, x + 1);
        lemma_first_section_range(b, x + 1);
        assert(b2.subrange(x + 1, f) =~= b.subrange(x + 1, f));
        assert(section_text(b2, x) == section_text(b, x));
    }
}

/// Writing `**State:** done` over the state line of a well-formed block gives
/// the same task, now `Done`.
proof fn lemma_block_done(b: Seq<Seq<char>>, b2: Seq<Seq<char>>)
    requires
        parse_block(b) is Some,
        replaced(b, b2, parse_block(b)->0.state_line),
        b2[parse_block(b)->0.state_line] == done_line(b[parse_block(b)->0.state_line]),
    ensures
        parse_block(b2) == Some(
            BlockParse {
                task: TaskView { state: TaskState::Done, ..parse_block(b)->0.task },
                state_line: parse_block(b)->0.state_line,
            },
        ),
{
    reveal_strlit("**Priority:**");
    reveal_strlit("**Role:**");
    reveal_strlit("**State:**");
    reveal_strlit("**Depends:**");
    let p = parse_block(b)->0;
    let i = p.state_line;
    lemma_parse_block_shape(b);
    let d = b2[i];
    lemma_done_line(b[i]);
    lemma_star_line(d, 'S');
    let s = clean(b[i]);
    assert(starts_star_star(b[i], 'S')) by {
        assert(s.take(10)[0] == s[0]);
        assert(s.take(10)[1] == s[1]);
        assert(s.take(10)[2] == s[2]);
    }
    lemma_star_line(b[i], 'S');
    assert(b2[0] == b[0]);
    lemma_first_section_replaced(b, b2, i, 1);
    let fs = first_section(b, 1);
    lemma_find_field_replaced(b, b2, i, 1, fs, "**Priority:**"@);
    lemma_find_field_replaced(b, b2, i, 1, fs, "**Role:**"@);
    lemma_find_field_replaced(b, b2, i, 1, fs, "**State:**"@);
    lemma_find_field_replaced(b, b2, i, 1, fs, "**Depends:**"@);
    lemma_find_field_range(b, 1, fs, "**Priority:**"@);
    lemma_find_field_range(b, 1, fs, "**Role:**"@);
    lemma_find_field_range(b, 1, fs, "**Depends:**"@);
    let ip = find_field(b, 1, fs, "**Priority:**"@);
    let ir = find_field(b, 1, fs, "**Role:**"@);
    let id = find_field(b, 1, fs, "**Depends:**"@);
    if ip >= 0 {
        assert(ip != i);
        assert(b2[ip] == b[ip]);
    }
    if ir >= 0 {
        assert(ir != i);
        assert(b2[ir] == b[ir]);
    }
    if id >= 0 {
        assert(id != i);
        assert(b2[id] == b[id]);
    }
    lemma_section_replaced(b, b2, i, "Description"@);
    lemma_section_replaced(b, b2, i, "Acceptance Criteria"@);
    lemma_section_replaced(b, b2, i, "Context"@);
}

} // verus!

verus! {

// ── Inserting one line ──────────────────────────────────────────────────────

/// `b3` is `b` with line `x` inserted before index `q`.
pub open spec fn inserted(b: Seq<Seq<char>>, b3: Seq<Seq<char>>, q: int, x: Seq<char>) -> bool {
    &&& 0 <= q <= b.len()
    &&& b3.len() == b.len() + 1
    &&& forall|k: int| 0 <= k < q ==> #[trigger] b3[k] == b[k]
    &&& b3[q] == x
    &&& forall|k: int| q <= k < b.len() ==> #[trigger] b3[k + 1] == b[k]
}

/// Where a search result lands after the insertion.
pub open spec fn moved(r: int, q: int) -> int {
    if r < 0 {
        -1
    } else if r < q {
        r
    } else {
        r + 1
    }
}

proof fn lemma_first_section_after(b: Seq<Seq<char>>, b3: Seq<Seq<char>>, q: int, x: Seq<char>, j: int)
    requires
        inserted(b, b3, q, x),
        j >= q,
    ensures
        first_section(b3, j + 1) == first_section(b, j) + 1,
    decreases b.len() - j,
{
    if j < b.len() {
        assert(b3[j + 1] == b[j]);
        lemma_first_section_after(b, b3, q, x, j + 1);
    }
}

proof fn lemma_first_section_before(
    b: Seq<Seq<char>>,
    b3: Seq<Seq<char>>,
    q: int,
    x: Seq<char>,
    j: int,
)
    requires
        inserted(b, b3, q, x),
        !is_section(x),
        0 <= j <= q,
        first_section(b, j) >= q,
    ensures
        first_section(b3, j) == first_section(b, j) + 1,
    decreases q - j,
{
    if j == q {
        lemma_first_section_after(b, b3, q, x, q);
    } else {
        assert(b3[j] == b[j]);
        lemma_first_section_before(b, b3, q, x, j + 1);
    }
}

proof fn lemma_find_field_after(
    b: Seq<Seq<char>>,
    b3: Seq<Seq<char>>,
    q: int,
    x: Seq<char>,
    j: int,
    m: int,
    p: Seq<char>,
)
    requires
        inserted(b, b3, q, x),
        j >= q,
    ensures
        find_field(b3, j + 1, m + 1, p) == moved(find_field(b, j, m, p), q),
    decreases m - j,
{
    lemma_find_field_range(b, j, m, p);
    if !(j >= m || j >= b.len()) {
        assert(b3[j + 1] == b[j]);
        lemma_find_field_after(b, b3, q, x, j + 1, m, p);
        lemma_find_field_range(b, j + 1, m, p);
    }
}

proof fn lemma_find_field_before(
    b: Seq<Seq<char>>,
    b3: Seq<Seq<char>>,
    q: int,
    x: Seq<char>,
    j: int,
    m: int,
    p: Seq<char>,
)
    requires
        inserted(b, b3, q, x),
        !starts_with(clean(x), p),
        0 <= j <= q <= m,
    ensures
        find_field(b3, j, m + 1, p) == moved(find_field(b, j, m, p), q),
    decreases q - j,
{
    if j == q {
        lemma_find_field_after(b, b3, q, x, q, m, p);
    } else {
        assert(b3[j] == b[j]);
        lemma_find_field_before(b, b3, q, x, j + 1, m, p);
    }
}

proof fn lemma_find_section_after(
    b: Seq<Seq<char>>,
    b3: Seq<Seq<char>>,
    q: int,
    x: Seq<char>,
    j: int,
    name: Seq<char>,
)
    requires
        inserted(b, b3, q, x),
        j >= q,
    ensures
        find_section(b3, j + 1, name) == moved(find_section(b, j, name), q),
    decreases b.len() - j,
{
    lemma_find_section_range(b, j, name);
    if j < b.len() {
        assert(b3[j + 1] == b[j]);
        lemma_find_section_after(b, b3, q, x, j + 1, name);
        lemma_find_section_range(b, j + 1, name);
    }
}

proof fn lemma_find_section_before(
    b: Seq<Seq<char>>,
    b3: Seq<Seq<char>>,
    q: int,
    x: Seq<char>,
    j: int,
    name: Seq<char>,
)
    requires
        inserted(b, b3, q, x),
        !is_section(x),
        0 <= j <= q,
    ensures
        find_section(b3, j, name) == moved(find_section(b, j, name), q),
    decreases q - j,
{
    if j == q {
        lemma_find_section_after(b, b3, q, x, q, name);
    } else {
        assert(b3[j] == b[j]);
        lemma_find_section_before(b, b3, q, x, j + 1, name);
    }
}

/// A section reads the same after inserting a line among the metadata.
proof fn lemma_section_inserted(
    b: Seq<Seq<char>>,
    b3: Seq<Seq<char>>,
    q: int,
    x: Seq<char>,
    name: Seq<char>,
)
    requires
        inserted(b, b3, q, x),
        !is_section(x),
        1 <= q <= first_section(b, 1),
    ensures
        section(b3, name) == section(b, name),
{
    lemma_find_section_before(b, b3, q, x, 1, name);
    lemma_find_section_range(b, 1, name);
    let r = find_section(b, 1, name);
    if r >= 0 {
        lemma_first_section_le(b, 1, r);
        lemma_first_section_after(b, b3, q, x, r + 1);
        let f = first_section(b, r + 1);
        lemma_first_section_range(b, r + 1);
        assert forall|t: int| 0 <= t < f - (r + 1) implies #[trigger] b3.subrange(r + 2, f + 1)[t]
            == b.subrange(r + 1, f)[t] by {
            assert(b3[(r + 1 + t) + 1] == b[r + 1 + t]);
        }
        assert(b3.subrange(r + 2, f + 1) =~= b.subrange(r + 1, f));
        assert(section_text(b3, r + 1) == section_text(b, r));
    }
}

/// Inserting, right after the state line of a well-formed block, a line that
/// starts with `**C` leaves the block's task and state line as they were.
proof fn lemma_block_noted(b: Seq<Seq<char>>, b3: Seq<Seq<char>>, x: Seq<char>)
    requires
        parse_block(b) is Some,
        inserted(b, b3, parse_block(b)->0.state_line + 1, x),
        starts_star_star(x, 'C'),
    ensures
        parse_block(b3) == parse_block(b),
{
    reveal_strlit("**Priority:**");
    reveal_strlit("**Role:**");
    reveal_strlit("**State:**");
    reveal_strlit("**Depends:**");
    let p = parse_block(b)->0;
    let i = p.state_line;
    let q = i + 1;
    lemma_parse_block_shape(b);
    lemma_star_line(x, 'C');
    assert(b3[0] == b[0]);
    let fs = first_section(b, 1);
    lemma_first_section_before(b, b3, q, x, 1);
    lemma_find_field_before(b, b3, q, x, 1, fs, "**Priority:**"@);
    lemma_find_field_before(b, b3, q, x, 1, fs, "**Role:**"@);
    lemma_find_field_before(b, b3, q, x, 1, fs, "**State:**"@);
    lemma_find_field_before(b, b3, q, x, 1, fs, "**Depends:**"@);
    lemma_find_field_range(b, 1, fs, "**Priority:**"@);
    lemma_find_field_range(b, 1, fs, "**Role:**"@);
    lemma_find_field_range(b, 1, fs, "**State:**"@);
    lemma_find_field_range(b, 1, fs, "**Depends:**"@);
    let ip = find_field(b, 1, fs, "**Priority:**"@);
    let ir = find_field(b, 1, fs, "**Role:**"@);
    let id = find_field(b, 1, fs, "**Depends:**"@);
    if ip >= 0 {
        assert(b3[moved(ip, q)] == b[ip]);
    }
    if ir >= 0 {
        assert(b3[moved(ir, q)] == b[ir]);
    }
    if id >= 0 {
        assert(b3[moved(id, q)] == b[id]);
    }
    assert(b3[i] == b[i]);
    lemma_section_inserted(b, b3, q, x, "Description"@);
    lemma_section_inserted(b, b3, q, x, "Acceptance Criteria"@);
    lemma_section_inserted(b, b3, q, x, "Context"@);
}

} // verus!

verus! {

// ── The blocks of a file ────────────────────────────────────────────────────

/// The block ranges lie in order inside the first `n` lines, and the last one
/// runs to line `n`.
proof fn lemma_block_ranges_shape(ls: Seq<Seq<char>>, n: int)
    requires
        0 <= n <= ls.len(),
    ensures
        forall|k: int|
            0 <= k < block_ranges(ls, n).len() ==> 0 <= #[trigger] block_ranges(ls, n)[k].0
                < block_ranges(ls, n)[k].1 <= n,
        forall|k1: int, k2: int|
            0 <= k1 < k2 < block_ranges(ls, n).len() ==> #[trigger] block_ranges(ls, n)[k1].1
                <= #[trigger] block_ranges(ls, n)[k2].0,
        block_ranges(ls, n).len() > 0 ==> block_ranges(ls, n).last().1 == n,
    decreases n,
{
    if n > 0 {
        lemma_block_ranges_shape(ls, n - 1);
    }
}

/// Block `x` was parsed from range `k`.
pub open spec fn from_range(ls: Seq<Seq<char>>, bs: Seq<(int, int)>, k: int, x: (int, BlockParse)) -> bool {
    bs[k].0 == x.0 && parse_block(ls.subrange(bs[k].0, bs[k].1)) == Some(x.1)
}

/// The range (among the first `n`) that well-formed block `j` was parsed from.
pub open spec fn origin(ls: Seq<Seq<char>>, bs: Seq<(int, int)>, n: int, j: int) -> int
    decreases n,
{
    if n <= 0 {
        0
    } else if j < parsed_blocks(ls, bs, n - 1).len() {
        origin(ls, bs, n - 1, j)
    } else {
        n - 1
    }
}

/// Where each well-formed block came from: a range that starts at its start
/// line; and the start lines increase.
proof fn lemma_parsed_origin(ls: Seq<Seq<char>>, bs: Seq<(int, int)>, n: int)
    requires
        0 <= n <= bs.len(),
        forall|k1: int, k2: int| 0 <= k1 < k2 < bs.len() ==> #[trigger] bs[k1].0 < #[trigger] bs[k2].0,
    ensures
        forall|j: int|
            0 <= j < parsed_blocks(ls, bs, n).len() ==> 0 <= #[trigger] origin(ls, bs, n, j) < n
                && from_range(ls, bs, origin(ls, bs, n, j), parsed_blocks(ls, bs, n)[j]),
        forall|j1: int, j2: int|
            0 <= j1 < j2 < parsed_blocks(ls, bs, n).len() ==> #[trigger] parsed_blocks(ls, bs, n)[j1].0
                < #[trigger] parsed_blocks(ls, bs, n)[j2].0,
        n > 0 ==> forall|j: int|
            0 <= j < parsed_blocks(ls, bs, n).len() ==> #[trigger] parsed_blocks(ls, bs, n)[j].0
                <= bs[n - 1].0,
    decreases n,
{
    if n > 0 {
        lemma_parsed_origin(ls, bs, n - 1);
        let prev = parsed_blocks(ls, bs, n - 1);
        let cur = parsed_blocks(ls, bs, n);
        if n > 1 {
            assert(bs[n - 2].0 < bs[n - 1].0);
        }
        assert forall|j: int| 0 <= j < cur.len() implies 0 <= #[trigger] origin(ls, bs, n, j) < n
            && from_range(ls, bs, origin(ls, bs, n, j), cur[j]) by {
            if j < prev.len() {
                assert(cur[j] == prev[j]);
                assert(origin(ls, bs, n, j) == origin(ls, bs, n - 1, j));
            }
        }
        assert forall|j: int| 0 <= j < cur.len() implies #[trigger] cur[j].0 <= bs[n - 1].0 by {
            if j < prev.len() {
                assert(cur[j] == prev[j]);
            }
        }
        assert forall|j1: int, j2: int| 0 <= j1 < j2 < cur.len() implies #[trigger] cur[j1].0
            < #[trigger] cur[j2].0 by {
            if j2 < prev.len() {
                assert(cur[j1] == prev[j1]);
                assert(cur[j2] == prev[j2]);
            } else {
                assert(cur[j1] == prev[j1]);
                assert(prev[j1].0 <= bs[n - 2].0);
            }
        }
    }
}

/// Block ranges depend only on which lines are headings.
proof fn lemma_block_ranges_replaced(ls: Seq<Seq<char>>, ls2: Seq<Seq<char>>, g: int, n: int)
    requires
        replaced(ls, ls2, g),
        is_heading(ls2[g]) == is_heading(ls[g]),
        0 <= n <= ls.len(),
    ensures
        block_ranges(ls2, n) == block_ranges(ls, n),
    decreases n,
{
    if n > 0 {
        lemma_block_ranges_replaced(ls, ls2, g, n - 1);
        if n - 1 != g {
            assert(ls2[n - 1] == ls[n - 1]);
        }
    }
}

/// The mark that a completion leaves on the block whose state line is `g`.
pub open spec fn marked(x: (int, BlockParse), g: int) -> (int, BlockParse) {
    if x.0 + x.1.state_line == g {
        (
            x.0,
            BlockParse {
                task: TaskView { state: TaskState::Done, ..x.1.task },
                state_line: x.1.state_line,
            },
        )
    } else {
        x
    }
}

/// The ranges are valid in `ls`, and the one range that holds line `g` is a
/// well-formed block whose state line is `g`.
pub open spec fn state_line_at(ls: Seq<Seq<char>>, bs: Seq<(int, int)>, g: int) -> bool {
    &&& forall|k: int| 0 <= k < bs.len() ==> 0 <= #[trigger] bs[k].0 < bs[k].1 <= ls.len()
    &&& forall|k: int|
        0 <= k < bs.len() && #[trigger] bs[k].0 <= g < bs[k].1 ==> parse_block(
            ls.subrange(bs[k].0, bs[k].1),
        ) is Some && bs[k].0 + parse_block(ls.subrange(bs[k].0, bs[k].1))->0.state_line == g
}

proof fn lemma_parsed_replaced(
    ls: Seq<Seq<char>>,
    ls2: Seq<Seq<char>>,
    bs: Seq<(int, int)>,
    g: int,
    n: int,
)
    requires
        replaced(ls, ls2, g),
        ls2[g] == done_line(ls[g]),
        state_line_at(ls, bs, g),
        0 <= n <= bs.len(),
    ensures
        parsed_blocks(ls2, bs, n) == parsed_blocks(
            ls,
            bs,
            n,
        ).map_values(|x: (int, BlockParse)| marked(x, g)),
    decreases n,
{
    if n > 0 {
        lemma_parsed_replaced(ls, ls2, bs, g, n - 1);
        let (s, e) = bs[n - 1];
        assert(0 <= bs[n - 1].0 < bs[n - 1].1 <= ls.len());
        let b = ls.subrange(s, e);
        let b2 = ls2.subrange(s, e);
        let prev = parsed_blocks(ls, bs, n - 1);
        if s <= g < e {
            assert(parse_block(b) is Some);
            assert forall|k: int| 0 <= k < b.len() && k != g - s implies #[trigger] b2[k] == b[k] by {
                assert(ls2[s + k] == ls[s + k]);
            }
            lemma_block_done(b, b2);
            let p = parse_block(b)->0;
            assert(marked((s, p), g) == (
                s,
                BlockParse { task: TaskView { state: TaskState::Done, ..p.task }, state_line: p.state_line },
            ));
            assert(parsed_blocks(ls, bs, n) == prev.push((s, p)));
            assert(prev.push((s, p)).map_values(|x: (int, BlockParse)| marked(x, g)) =~= prev.map_values(
                |x: (int, BlockParse)| marked(x, g),
            ).push(marked((s, p), g)));
        } else {
            assert forall|k: int| 0 <= k < b.len() implies #[trigger] b2[k] == b[k] by {
                assert(ls2[s + k] == ls[s + k]);
            }
            assert(b2 =~= b);
            match parse_block(b) {
                Some(p) => {
                    lemma_parse_block_shape(b);
                    assert(marked((s, p), g) == (s, p));
                    assert(prev.push((s, p)).map_values(|x: (int, BlockParse)| marked(x, g))
                        =~= prev.map_values(|x: (int, BlockParse)| marked(x, g)).push((s, p)));
                },
                None => {},
            }
        }
    }
}

} // verus!

verus! {

/// Where line `v` lands after a line is inserted after line `g`.
pub open spec fn shifted(v: int, g: int) -> int {
    if v > g {
        v + 1
    } else {
        v
    }
}

pub open spec fn shifted_range(r: (int, int), g: int) -> (int, int) {
    (shifted(r.0, g), shifted(r.1, g))
}

proof fn lemma_block_ranges_prefix(ls: Seq<Seq<char>>, ls3: Seq<Seq<char>>, m: int, n: int)
    requires
        0 <= n <= m <= ls.len(),
        m <= ls3.len(),
        forall|k: int| 0 <= k < m ==> #[trigger] ls3[k] == ls[k],
    ensures
        block_ranges(ls3, n) == block_ranges(ls, n),
    decreases n,
{
    if n > 0 {
        lemma_block_ranges_prefix(ls, ls3, m, n - 1);
        assert(ls3[n - 1] == ls[n - 1]);
    }
}

/// Inserting a non-heading line after line `g` moves every later range down by one.
proof fn lemma_block_ranges_inserted(
    ls: Seq<Seq<char>>,
    ls3: Seq<Seq<char>>,
    g: int,
    x: Seq<char>,
    n: int,
)
    requires
        inserted(ls, ls3, g + 1, x),
        0 <= g < ls.len(),
        !is_heading(x),
        g + 1 <= n <= ls.len(),
    ensures
        block_ranges(ls3, n + 1) == block_ranges(ls, n).map_values(
            |r: (int, int)| shifted_range(r, g),
        ),
    decreases n,
{
    lemma_block_ranges_shape(ls, n);
    let bs = block_ranges(ls, n);
    let sh = bs.map_values(|r: (int, int)| shifted_range(r, g));
    if n == g + 1 {
        lemma_block_ranges_prefix(ls, ls3, g + 1, g + 1);
        assert(ls3[g + 1] == x);
        if bs.len() > 0 {
            assert forall|k: int| 0 <= k < bs.len() implies #[trigger] sh[k] == (
                if k == bs.len() - 1 {
                    (bs.last().0, g + 2)
                } else {
                    bs[k]
                }
            ) by {
                if k < bs.len() - 1 {
                    assert(bs[k].1 <= bs[bs.len() - 1].0);
                }
            }
            assert(block_ranges(ls3, n + 1) =~= sh);
        } else {
            assert(block_ranges(ls3, n + 1) =~= sh);
        }
    } else {
        lemma_block_ranges_inserted(ls, ls3, g, x, n - 1);
        lemma_block_ranges_shape(ls, n - 1);
        let pb = block_ranges(ls, n - 1);
        let psh = pb.map_values(|r: (int, int)| shifted_range(r, g));
        assert(ls3[(n - 1) + 1] == ls[n - 1]);
        if is_heading(ls[n - 1]) {
            assert(sh =~= psh.push((n, n + 1)));
        } else if pb.len() == 0 {
            assert(sh =~= psh);
        } else {
            assert(sh =~= psh.update(psh.len() - 1, (psh.last().0, n + 1)));
        }
    }
}

proof fn lemma_parsed_inserted(
    ls: Seq<Seq<char>>,
    ls3: Seq<Seq<char>>,
    bs: Seq<(int, int)>,
    g: int,
    x: Seq<char>,
    n: int,
)
    requires
        inserted(ls, ls3, g + 1, x),
        0 <= g < ls.len(),
        starts_star_star(x, 'C'),
        state_line_at(ls, bs, g),
        0 <= n <= bs.len(),
    ensures
        parsed_blocks(ls3, bs.map_values(|r: (int, int)| shifted_range(r, g)), n) == parsed_blocks(
            ls,
            bs,
            n,
        ).map_values(|y: (int, BlockParse)| (shifted(y.0, g), y.1)),
    decreases n,
{
    let bs3 = bs.map_values(|r: (int, int)| shifted_range(r, g));
    if n > 0 {
        lemma_parsed_inserted(ls, ls3, bs, g, x, n - 1);
        let (s, e) = bs[n - 1];
        assert(0 <= bs[n - 1].0 < bs[n - 1].1 <= ls.len());
        assert(bs3[n - 1] == shifted_range(bs[n - 1], g));
        let b = ls.subrange(s, e);
        let b3 = ls3.subrange(shifted(s, g), shifted(e, g));
        let prev = parsed_blocks(ls, bs, n - 1);
        if s <= g < e {
            assert(parse_block(b) is Some);
            let p = parse_block(b)->0;
            assert forall|k: int| 0 <= k < g + 1 - s implies #[trigger] b3[k] == b[k] by {
                assert(ls3[s + k] == ls[s + k]);
            }
            assert forall|k: int| g + 1 - s <= k < b.len() implies #[trigger] b3[k + 1] == b[k] by {
                assert(ls3[(s + k) + 1] == ls[s + k]);
            }
            assert(b3[g + 1 - s] == x);
            assert(inserted(b, b3, p.state_line + 1, x));
            lemma_block_noted(b, b3, x);
        } else if e <= g {
            assert forall|k: int| 0 <= k < b.len() implies #[trigger] b3[k] == b[k] by {
                assert(ls3[s + k] == ls[s + k]);
            }
            assert(b3 =~= b);
        } else {
            assert forall|k: int| 0 <= k < b.len() implies #[trigger] b3[k] == b[k] by {
                assert(ls3[(s + k) + 1] == ls[s + k]);
            }
            assert(b3 =~= b);
        }
        match parse_block(b) {
            Some(p) => {
                assert(prev.push((s, p)).map_values(|y: (int, BlockParse)| (shifted(y.0, g), y.1))
                    =~= prev.map_values(|y: (int, BlockParse)| (shifted(y.0, g), y.1)).push(
                    (shifted(s, g), p),
                ));
            },
            None => {},
        }
    }
}

} // verus!

verus! {

// ── The file after a completion ─────────────────────────────────────────────

/// A task with its state set to `Done`.
pub open spec fn done_task(t: TaskView) -> TaskView {
    TaskView { state: TaskState::Done, ..t }
}

proof fn lemma_find_task_update(ts: Seq<TaskView>, j: int, t: TaskView, id: Seq<char>)
    requires
        0 <= j < ts.len(),
        t.id == ts[j].id,
    ensures
        find_task(ts.update(j, t), id) == find_task(ts, id),
    decreases ts.len(),
{
    let us = ts.update(j, t);
    if j == ts.len() - 1 {
        assert(us.drop_last() =~= ts.drop_last());
    } else {
        lemma_find_task_update(ts.drop_last(), j, t, id);
        assert(us.drop_last() =~= ts.drop_last().update(j, t));
    }
}

proof fn lemma_state_star(l: Seq<char>)
    requires
        starts_with(clean(l), "**State:**"@),
    ensures
        starts_star_star(l, 'S'),
{
    reveal_strlit("**State:**");
    let s = clean(l);
    assert(s.take(10)[0] == s[0]);
    assert(s.take(10)[1] == s[1]);
    assert(s.take(10)[2] == s[2]);
}

proof fn lemma_state_line_at_replaced(
    ls: Seq<Seq<char>>,
    ls2: Seq<Seq<char>>,
    bs: Seq<(int, int)>,
    g: int,
)
    requires
        replaced(ls, ls2, g),
        ls2[g] == done_line(ls[g]),
        state_line_at(ls, bs, g),
    ensures
        state_line_at(ls2, bs, g),
{
    assert forall|k: int|
        0 <= k < bs.len() && #[trigger] bs[k].0 <= g < bs[k].1 implies parse_block(
        ls2.subrange(bs[k].0, bs[k].1),
    ) is Some && bs[k].0 + parse_block(ls2.subrange(bs[k].0, bs[k].1))->0.state_line == g by {
        let (s, e) = bs[k];
        let b = ls.subrange(s, e);
        let b2 = ls2.subrange(s, e);
        assert forall|t: int| 0 <= t < b.len() && t != g - s implies #[trigger] b2[t] == b[t] by {
            assert(ls2[s + t] == ls[s + t]);
        }
        lemma_block_done(b, b2);
    }
}

/// The line of the completed task's state field, in the file's lines.
pub open spec fn completed_state_line(content: Seq<char>, id: Seq<char>) -> int {
    let fb = file_blocks(content);
    let j = find_task(file_tasks(content), id);
    fb[j].0 + fb[j].1.state_line
}

proof fn lemma_completion_core(content: Seq<char>, id: Seq<char>, comment: Option<Seq<char>>)
    requires
        completion(content, id, comment) is Some,
    ensures
        ({
            let ts = file_tasks(content);
            let j = find_task(ts, id);
            let ls = lines_of(content);
            let g = completed_state_line(content, id);
            let text = completion(content, id, comment)->0;
            let ts2 = file_tasks(text);
            &&& 0 <= j < ts.len()
            &&& 0 <= g < ls.len()
            &&& lines_of(text) == completed_lines(ls, g, comment)
            &&& comment is None ==> file_blocks(text) == file_blocks(content).map_values(
                |y: (int, BlockParse)| marked(y, g),
            )
            &&& ts2 == ts.update(j, done_task(ts[j]))
            &&& find_task(ts2, id) == j
        }),
{
    let ls = lines_of(content);
    let bs = block_ranges(ls, ls.len() as int);
    let fb = parsed_blocks(ls, bs, bs.len() as int);
    let ts = file_tasks(content);
    let j = find_task(ts, id);
    crate::sources::local::lemma_find_task_range(ts, id);
    assert(ts.len() == fb.len());
    let x = fb[j];
    let g = x.0 + x.1.state_line;
    crate::text::lemma_split_nonempty(content, '\n');
    crate::text::lemma_split_pieces(content, '\n');
    lemma_block_ranges_shape(ls, ls.len() as int);
    assert forall|k1: int, k2: int| 0 <= k1 < k2 < bs.len() implies #[trigger] bs[k1].0
        < #[trigger] bs[k2].0 by {
        assert(bs[k1].1 <= bs[k2].0);
    }
    lemma_parsed_origin(ls, bs, bs.len() as int);
    let kk = origin(ls, bs, bs.len() as int, j);
    assert(from_range(ls, bs, kk, fb[j]));
    let blk = ls.subrange(bs[kk].0, bs[kk].1);
    lemma_parse_block_shape(blk);
    assert(bs[kk].0 < g < bs[kk].1);
    assert(state_line_at(ls, bs, g)) by {
        assert forall|k: int| 0 <= k < bs.len() && #[trigger] bs[k].0 <= g < bs[k].1 implies k
            == kk by {
            if k < kk {
                assert(bs[k].1 <= bs[kk].0);
            } else if k > kk {
                assert(bs[kk].1 <= bs[k].0);
            }
        }
    }
    // The state line is no heading, nor is what replaces it.
    assert(ls[g] == blk[x.1.state_line]);
    lemma_state_star(ls[g]);
    lemma_star_line(ls[g], 'S');
    let d = done_line(ls[g]);
    lemma_done_line(ls[g]);
    lemma_star_line(d, 'S');
    let ls2 = ls.update(g, d);
    assert(replaced(ls, ls2, g));
    lemma_block_ranges_replaced(ls, ls2, g, ls.len() as int);
    lemma_parsed_replaced(ls, ls2, bs, g, bs.len() as int);
    let fb2 = fb.map_values(|y: (int, BlockParse)| marked(y, g));
    let lf = completed_lines(ls, g, comment);
    let text = completion(content, id, comment)->0;
    assert(text == crate::text::join_with(lf, '\n'));
    // What the new text parses to, block by block.
    let fb3 = match comment {
        Some(c) => if c.len() > 0 {
            fb2.map_values(|y: (int, BlockParse)| (shifted(y.0, g), y.1))
        } else {
            fb2
        },
        None => fb2,
    };
    let has_note = comment is Some && comment->0.len() > 0;
    if has_note {
        let c = comment->0;
        let nl = note_line(ls[g], c);
        lemma_note_line(ls[g], c);
        lemma_star_line(nl, 'C');
        assert(lf =~= ls.take(g) + seq![d] + seq![nl] + ls.skip(g + 1));
        assert(inserted(ls2, lf, g + 1, nl));
        lemma_state_line_at_replaced(ls, ls2, bs, g);
        lemma_block_ranges_inserted(ls2, lf, g, nl, ls2.len() as int);
        lemma_parsed_inserted(ls2, lf, bs, g, nl, bs.len() as int);
        assert forall|k: int, i: int| 0 <= k < lf.len() && 0 <= i < lf[k].len() implies #[trigger] lf[k][i]
            != '\n' by {
            if k < g {
                assert(lf[k] == ls[k]);
            } else if k == g {
            } else if k == g + 1 {
            } else {
                assert(lf[k] == ls[k - 1]);
            }
        }
    } else {
        assert(lf =~= ls2);
        assert forall|k: int, i: int| 0 <= k < lf.len() && 0 <= i < lf[k].len() implies #[trigger] lf[k][i]
            != '\n' by {
            if k != g {
                assert(lf[k] == ls[k]);
            }
        }
    }
    crate::text::lemma_split_join(lf, '\n');
    assert(lines_of(text) == lf);
    assert(file_blocks(text) == fb3);
    let ts2 = file_tasks(text);
    assert forall|i: int| 0 <= i < ts.len() implies #[trigger] ts2[i] == ts.update(
        j,
        done_task(ts[j]),
    )[i] by {
        assert(fb3[i].1 == marked(fb[i], g).1);
        if i != j {
            let ki = origin(ls, bs, bs.len() as int, i);
            assert(from_range(ls, bs, ki, fb[i]));
            lemma_parse_block_shape(ls.subrange(bs[ki].0, bs[ki].1));
            if fb[i].0 + fb[i].1.state_line == g {
                if ki < kk {
                    assert(bs[ki].1 <= bs[kk].0);
                } else if ki > kk {
                    assert(bs[kk].1 <= bs[ki].0);
                }
                if i < j {
                    assert(fb[i].0 < fb[j].0);
                } else {
                    assert(fb[j].0 < fb[i].0);
                }
            }
        }
    }
    assert(ts2 =~= ts.update(j, done_task(ts[j])));
    lemma_find_task_update(ts, j, done_task(ts[j]), id);
    assert(g < ls.len());
}

/// Completing a task rewrites only that task: reading the completed text
/// back gives the file's tasks as before, in the same order, with the
/// completed task `Done`; looking it up in the new text finds it, done.
pub proof fn lemma_completion_read_back(content: Seq<char>, id: Seq<char>, comment: Option<Seq<char>>)
    requires
        completion(content, id, comment) is Some,
    ensures
        ({
            let ts = file_tasks(content);
            let j = find_task(ts, id);
            let ts2 = file_tasks(completion(content, id, comment)->0);
            &&& 0 <= j < ts.len()
            &&& ts2 == ts.update(j, done_task(ts[j]))
            &&& find_task(ts2, id) == j
            &&& effective(ts2, ts2[j]) == done_task(ts[j])
        }),
{
    lemma_completion_core(content, id, comment);
}

/// Completing a task without a comment is idempotent: completing it again in
/// the completed text changes nothing.
pub proof fn lemma_completion_idempotent(content: Seq<char>, id: Seq<char>)
    requires
        completion(content, id, None) is Some,
    ensures
        completion(completion(content, id, None)->0, id, None) == completion(content, id, None),
{
    lemma_completion_core(content, id, None);
    let text = completion(content, id, None)->0;
    let ls = lines_of(content);
    let g = completed_state_line(content, id);
    let j = find_task(file_tasks(content), id);
    let fb = file_blocks(content);
    assert(fb.len() == file_tasks(content).len());
    assert(file_blocks(text)[j] == marked(fb[j], g));
    assert(completed_state_line(text, id) == g);
    let ls2 = lines_of(text);
    let d = done_line(ls[g]);
    assert(ls2 =~= ls.update(g, d));
    reveal_strlit("**State:** done");
    assert(crate::sources::local::cr_of(d) == crate::sources::local::cr_of(ls[g]));
    assert(done_line(ls2[g]) == d);
    assert(completed_lines(ls2, g, None) =~= ls2);
    crate::text::lemma_join_split(text, '\n');
}

} // verus!
