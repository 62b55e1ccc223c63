use vstd::prelude::*;

verus! {

// ── Character classes ───────────────────────────────────────────────────────

/// Unicode `White_Space`, the set that `char::is_whitespace` and `str::trim` use.
pub open spec fn is_ws(c: char) -> bool {
    ||| c == ' '
    ||| ('\u{9}' <= c && c <= '\u{d}')
    ||| c == '\u{85}'
    ||| c == '\u{a0}'
    ||| c == '\u{1680}'
    ||| ('\u{2000}' <= c && c <= '\u{200a}')
    ||| c == '\u{2028}'
    ||| c == '\u{2029}'
    ||| c == '\u{202f}'
    ||| c == '\u{205f}'
    ||| c == '\u{3000}'
}

pub fn is_whitespace(c: char) -> (b: bool)
    ensures
        b == is_ws(c),
{
    c == ' ' || ('\u{9}' <= c && c <= '\u{d}') || c == '\u{85}' || c == '\u{a0}' || c
        == '\u{1680}' || ('\u{2000}' <= c && c <= '\u{200a}') || c == '\u{2028}' || c
        == '\u{2029}' || c == '\u{202f}' || c == '\u{205f}' || c == '\u{3000}'
}

pub open spec fn is_digit(c: char) -> bool {
    '0' <= c && c <= '9'
}

/// The value of a run of ASCII digits.
pub open spec fn digits_value(s: Seq<char>) -> nat
    decreases s.len(),
{
    if s.len() == 0 {
        0
    } else {
        digits_value(s.drop_last()) * 10 + ((s.last() as u32) - 48) as nat
    }
}

/// ASCII lower-casing of one character; every other character is unchanged.
pub open spec fn lower(c: char) -> char {
    if 'A' <= c && c <= 'Z' {
        ((c as u32) + 32) as char
    } else {
        c
    }
}

pub open spec fn lower_seq(s: Seq<char>) -> Seq<char> {
    s.map_values(|c: char| lower(c))
}

pub fn to_lower(c: char) -> (r: char)
    ensures
        r == lower(c),
{
    if 'A' <= c && c <= 'Z' {
        let u: u8 = (c as u8) + 32;
        u as char
    } else {
        c
    }
}

// ── Sequence helpers ────────────────────────────────────────────────────────

pub open spec fn trim_end(s: Seq<char>) -> Seq<char>
    decreases s.len(),
{
    if s.len() > 0 && is_ws(s.last()) {
        trim_end(s.drop_last())
    } else {
        s
    }
}

pub open spec fn trim_start(s: Seq<char>) -> Seq<char>
    decreases s.len(),
{
    if s.len() > 0 && is_ws(s[0]) {
        trim_start(s.drop_first())
    } else {
        s
    }
}

/// What `str::trim` leaves: leading and trailing whitespace removed.
pub open spec fn trim(s: Seq<char>) -> Seq<char> {
    trim_start(trim_end(s))
}

proof fn lemma_trim_start_suffix(s: Seq<char>)
    ensures
        trim_start(s).len() <= s.len(),
        trim_start(s) == s.skip(s.len() - trim_start(s).len()),
        trim_start(s).len() > 0 ==> !is_ws(trim_start(s)[0]),
    decreases s.len(),
{
    if s.len() > 0 && is_ws(s[0]) {
        lemma_trim_start_suffix(s.drop_first());
        assert(s.drop_first().skip(s.drop_first().len() - trim_start(s).len()) =~= s.skip(
            s.len() - trim_start(s).len(),
        ));
    } else {
        assert(s.skip(0) =~= s);
    }
}

proof fn lemma_trim_end_last(s: Seq<char>)
    ensures
        trim_end(s).len() > 0 ==> !is_ws(trim_end(s).last()),
    decreases s.len(),
{
    if s.len() > 0 && is_ws(s.last()) {
        lemma_trim_end_last(s.drop_last());
    }
}

/// Trimming twice is trimming once.
pub proof fn lemma_trim_idempotent(s: Seq<char>)
    ensures
        trim(trim(s)) == trim(s),
{
    let z = trim_end(s);
    let y = trim(s);
    lemma_trim_end_last(s);
    lemma_trim_start_suffix(z);
    if y.len() > 0 {
        assert(y.last() == z.last());
    }
    assert(trim_end(y) == y);
}

pub open spec fn starts_with(s: Seq<char>, p: Seq<char>) -> bool {
    p.len() <= s.len() && s.take(p.len() as int) =~= p
}

pub open spec fn has_ws(s: Seq<char>) -> bool {
    exists|i: int| 0 <= i < s.len() && is_ws(#[trigger] s[i])
}

// ── Conversions between `str`, `String` and `Vec<char>` ─────────────────────

/// Appends one character to a `String`.
///
/// Wraps std's `String::push`, which vstd leaves without a specification; the
/// contract states what its documentation says: the character is appended.
#[verifier::external_body]
pub(crate) fn push_char(s: &mut String, c: char)
    ensures
        final(s)@ == old(s)@.push(c),
{
    s.push(c)
}

/// The characters of a string slice, in order.
pub fn chars_of(s: &str) -> (v: Vec<char>)
    ensures
        v@ == s@,
{
    let mut v: Vec<char> = Vec::new();
    for c in it: s.chars()
        invariant
            v@ == it.seq().take(it.index() as int),
    {
        v.push(c);
    }
    v
}

/// Appends `v[lo..hi]` to `out`.
pub fn push_range(out: &mut String, v: &Vec<char>, lo: usize, hi: usize)
    requires
        lo <= hi <= v@.len(),
    ensures
        final(out)@ == old(out)@ + v@.subrange(lo as int, hi as int),
{
    let mut i = lo;
    while i < hi
        invariant
            lo <= i <= hi <= v@.len(),
            out@ == old(out)@ + v@.subrange(lo as int, i as int),
        decreases hi - i,
    {
        push_char(out, v[i]);
        proof {
            assert(v@.subrange(lo as int, i + 1) =~= v@.subrange(lo as int, i as int).push(v@[i as int]));
        }
        i = i + 1;
    }
}

/// A `String` holding `v[lo..hi]`.
pub fn string_of_range(v: &Vec<char>, lo: usize, hi: usize) -> (s: String)
    requires
        lo <= hi <= v@.len(),
    ensures
        s@ == v@.subrange(lo as int, hi as int),
{
    let mut s = String::new();
    push_range(&mut s, v, lo, hi);
    proof {
        assert(Seq::<char>::empty() + v@.subrange(lo as int, hi as int) =~= v@.subrange(lo as int, hi as int));
    }
    s
}

/// A `String` holding the characters of `v`.
pub fn string_of(v: &Vec<char>) -> (s: String)
    ensures
        s@ == v@,
{
    let s = string_of_range(v, 0, v.len());
    proof {
        assert(v@.subrange(0, v@.len() as int) =~= v@);
    }
    s
}

/// A copy of `v[lo..hi]`.
pub fn copy_range(v: &Vec<char>, lo: usize, hi: usize) -> (r: Vec<char>)
    requires
        lo <= hi <= v@.len(),
    ensures
        r@ == v@.subrange(lo as int, hi as int),
{
    let mut r: Vec<char> = Vec::new();
    let mut i = lo;
    while i < hi
        invariant
            lo <= i <= hi <= v@.len(),
            r@ == v@.subrange(lo as int, i as int),
        decreases hi - i,
    {
        r.push(v[i]);
        proof {
            assert(v@.subrange(lo as int, i + 1) =~= v@.subrange(lo as int, i as int).push(v@[i as int]));
        }
        i = i + 1;
    }
    r
}

// ── Trimming and comparison on ranges of a `Vec<char>` ──────────────────────

/// The bounds of `trim(v[lo..hi])` inside `v`.
pub fn trim_bounds(v: &Vec<char>, lo: usize, hi: usize) -> (r: (usize, usize))
    requires
        lo <= hi <= v@.len(),
    ensures
        lo <= r.0 <= r.1 <= hi,
        v@.subrange(r.0 as int, r.1 as int) == trim(v@.subrange(lo as int, hi as int)),
{
    let mut b = hi;
    while b > lo && is_whitespace(v[b - 1])
        invariant
            lo <= b <= hi <= v@.len(),
            trim_end(v@.subrange(lo as int, hi as int)) == trim_end(v@.subrange(lo as int, b as int)),
        decreases b,
    {
        proof {
            assert(v@.subrange(lo as int, b as int).drop_last() =~= v@.subrange(lo as int, b - 1));
        }
        b = b - 1;
    }
    let mut a = lo;
    while a < b && is_whitespace(v[a])
        invariant
            lo <= a <= b <= hi <= v@.len(),
            trim_end(v@.subrange(lo as int, hi as int)) == v@.subrange(lo as int, b as int),
            trim_start(v@.subrange(lo as int, b as int)) == trim_start(v@.subrange(a as int, b as int)),
        decreases b - a,
    {
        proof {
            assert(v@.subrange(a as int, b as int).drop_first() =~= v@.subrange(a + 1, b as int));
        }
        a = a + 1;
    }
    (a, b)
}

/// Whether `v[lo..hi]` starts with `p`.
pub fn range_starts_with(v: &Vec<char>, lo: usize, hi: usize, p: &Vec<char>) -> (b: bool)
    requires
        lo <= hi <= v@.len(),
    ensures
        b == starts_with(v@.subrange(lo as int, hi as int), p@),
{
    if p.len() > hi - lo {
        return false;
    }
    let mut i: usize = 0;
    while i < p.len()
        invariant
            p@.len() <= hi - lo,
            lo <= hi <= v@.len(),
            i <= p@.len(),
            forall|j: int| 0 <= j < i ==> v@[lo + j] == p@[j],
        decreases p@.len() - i,
    {
        if v[lo + i] != p[i] {
            proof {
                assert(v@.subrange(lo as int, hi as int).take(p@.len() as int)[i as int] != p@[i as int]);
            }
            return false;
        }
        i = i + 1;
    }
    proof {
        assert(v@.subrange(lo as int, hi as int).take(p@.len() as int) =~= p@);
    }
    true
}

/// Whether `v[lo..hi]` equals `p`.
pub fn range_equals(v: &Vec<char>, lo: usize, hi: usize, p: &Vec<char>) -> (b: bool)
    requires
        lo <= hi <= v@.len(),
    ensures
        b == (v@.subrange(lo as int, hi as int) == p@),
{
    if p.len() != hi - lo {
        return false;
    }
    let b = range_starts_with(v, lo, hi, p);
    proof {
        assert(v@.subrange(lo as int, hi as int).take(p@.len() as int) =~= v@.subrange(lo as int, hi as int));
    }
    b
}

/// Whether two character sequences are equal.
pub fn seq_equals(a: &Vec<char>, b: &Vec<char>) -> (r: bool)
    ensures
        r == (a@ == b@),
{
    let r = range_equals(a, 0, a.len(), b);
    proof {
        assert(a@.subrange(0, a@.len() as int) =~= a@);
    }
    r
}

/// Whether `v[lo..hi]` holds a whitespace character.
pub fn range_has_ws(v: &Vec<char>, lo: usize, hi: usize) -> (b: bool)
    requires
        lo <= hi <= v@.len(),
    ensures
        b == has_ws(v@.subrange(lo as int, hi as int)),
{
    let mut i = lo;
    while i < hi
        invariant
            lo <= i <= hi <= v@.len(),
            forall|j: int| lo <= j < i ==> !is_ws(v@[j]),
        decreases hi - i,
    {
        if is_whitespace(v[i]) {
            proof {
                assert(is_ws(v@.subrange(lo as int, hi as int)[i - lo]));
            }
            return true;
        }
        i = i + 1;
    }
    proof {
        assert forall|j: int| 0 <= j < v@.subrange(lo as int, hi as int).len() implies !is_ws(
            #[trigger] v@.subrange(lo as int, hi as int)[j],
        ) by {
            assert(v@.subrange(lo as int, hi as int)[j] == v@[lo + j]);
        }
    }
    false
}

} // verus!

verus! {

/// Index of the first `c` in `s`, or `-1` when `s` holds none.
pub open spec fn index_of(s: Seq<char>, c: char) -> int
    decreases s.len(),
{
    if s.len() == 0 {
        -1
    } else if s[0] == c {
        0
    } else {
        let r = index_of(s.drop_first(), c);
        if r < 0 {
            -1
        } else {
            r + 1
        }
    }
}

pub proof fn lemma_index_of(s: Seq<char>, c: char, k: int)
    requires
        0 <= k <= s.len(),
        forall|j: int| 0 <= j < k ==> s[j] != c,
        k < s.len() ==> s[k] == c,
    ensures
        index_of(s, c) == if k < s.len() {
            k
        } else {
            -1
        },
    decreases s.len(),
{
    if s.len() > 0 && k > 0 {
        lemma_index_of(s.drop_first(), c, k - 1);
    }
}

/// `c` occurs nowhere in `s` exactly when the search for it finds nothing.
pub proof fn lemma_index_of_absent(s: Seq<char>, c: char)
    ensures
        index_of(s, c) < 0 <==> forall|k: int| 0 <= k < s.len() ==> s[k] != c,
    decreases s.len(),
{
    if s.len() > 0 {
        lemma_index_of_absent(s.drop_first(), c);
        assert forall|k: int| 0 < k < s.len() implies #[trigger] s[k] == s.drop_first()[k - 1] by {}
        if index_of(s, c) >= 0 {
            if s[0] != c {
                let k = index_of(s.drop_first(), c);
                lemma_index_of_found(s.drop_first(), c);
                assert(s[k + 1] == c);
            }
        }
    }
}

/// The search finds the first occurrence.
pub proof fn lemma_index_of_first(s: Seq<char>, c: char)
    ensures
        index_of(s, c) >= 0 ==> index_of(s, c) < s.len() && s[index_of(s, c)] == c && forall|m: int|
            0 <= m < index_of(s, c) ==> s[m] != c,
    decreases s.len(),
{
    lemma_index_of_found(s, c);
    if s.len() > 0 && s[0] != c {
        lemma_index_of_first(s.drop_first(), c);
        assert forall|m: int| 0 < m < s.len() implies #[trigger] s[m] == s.drop_first()[m - 1] by {}
    }
}

proof fn lemma_index_of_found(s: Seq<char>, c: char)
    ensures
        index_of(s, c) >= 0 ==> index_of(s, c) < s.len() && s[index_of(s, c)] == c,
    decreases s.len(),
{
    if s.len() > 0 && s[0] != c {
        lemma_index_of_found(s.drop_first(), c);
    }
}

/// The first position of `c` in `v[lo..hi]`, as an index into `v`.
pub fn find_char(v: &Vec<char>, lo: usize, hi: usize, c: char) -> (r: Option<usize>)
    requires
        lo <= hi <= v@.len(),
    ensures
        match r {
            Some(k) => lo <= k < hi && index_of(v@.subrange(lo as int, hi as int), c) == k - lo,
            None => index_of(v@.subrange(lo as int, hi as int), c) == -1,
        },
{
    let mut i = lo;
    while i < hi
        invariant
            lo <= i <= hi <= v@.len(),
            forall|j: int| lo <= j < i ==> v@[j] != c,
        decreases hi - i,
    {
        if v[i] == c {
            proof {
                lemma_index_of(v@.subrange(lo as int, hi as int), c, i - lo);
            }
            return Some(i);
        }
        i = i + 1;
    }
    proof {
        lemma_index_of(v@.subrange(lo as int, hi as int), c, hi - lo);
    }
    None
}

} // verus!

verus! {

// ── Lexicographic order (the order of `String`'s `Ord`) ──────────────────────

/// `a` sorts strictly before `b`: the first differing character is smaller, or
/// `a` is a proper prefix of `b`. UTF-8 preserves code-point order, so this is
/// the byte order that `String`'s `Ord` uses.
pub open spec fn seq_lt(a: Seq<char>, b: Seq<char>) -> bool
    decreases a.len(),
{
    if a.len() == 0 {
        b.len() > 0
    } else if b.len() == 0 {
        false
    } else if a[0] != b[0] {
        a[0] < b[0]
    } else {
        seq_lt(a.drop_first(), b.drop_first())
    }
}

pub proof fn lemma_seq_lt_irreflexive(a: Seq<char>)
    ensures
        !seq_lt(a, a),
    decreases a.len(),
{
    if a.len() > 0 {
        lemma_seq_lt_irreflexive(a.drop_first());
    }
}

pub proof fn lemma_seq_lt_transitive(a: Seq<char>, b: Seq<char>, c: Seq<char>)
    requires
        seq_lt(a, b),
        seq_lt(b, c),
    ensures
        seq_lt(a, c),
    decreases a.len(),
{
    if a.len() > 0 && b.len() > 0 && c.len() > 0 {
        if a[0] == b[0] && b[0] == c[0] {
            lemma_seq_lt_transitive(a.drop_first(), b.drop_first(), c.drop_first());
        }
    }
}

pub proof fn lemma_seq_lt_total(a: Seq<char>, b: Seq<char>)
    ensures
        seq_lt(a, b) || seq_lt(b, a) || a == b,
    decreases a.len(),
{
    if a.len() > 0 && b.len() > 0 {
        if a[0] == b[0] {
            lemma_seq_lt_total(a.drop_first(), b.drop_first());
            if a.drop_first() == b.drop_first() {
                assert(a =~= seq![a[0]] + a.drop_first());
                assert(b =~= seq![b[0]] + b.drop_first());
            }
        }
    } else if a.len() == 0 && b.len() == 0 {
        assert(a =~= b);
    }
}

pub proof fn lemma_seq_lt_asymmetric(a: Seq<char>, b: Seq<char>)
    requires
        seq_lt(a, b),
    ensures
        !seq_lt(b, a),
{
    if seq_lt(b, a) {
        lemma_seq_lt_transitive(a, b, a);
        lemma_seq_lt_irreflexive(a);
    }
}

/// Whether `a` sorts strictly before `b`.
pub fn chars_lt(a: &Vec<char>, b: &Vec<char>) -> (r: bool)
    ensures
        r == seq_lt(a@, b@),
{
    let mut i: usize = 0;
    proof {
        assert(a@.skip(0) =~= a@);
        assert(b@.skip(0) =~= b@);
    }
    while i < a.len() && i < b.len() && a[i] == b[i]
        invariant
            i <= a@.len(),
            i <= b@.len(),
            a@.take(i as int) == b@.take(i as int),
            seq_lt(a@, b@) == seq_lt(a@.skip(i as int), b@.skip(i as int)),
        decreases a@.len() - i,
    {
        proof {
            assert(a@.skip(i as int).drop_first() =~= a@.skip(i + 1));
            assert(b@.skip(i as int).drop_first() =~= b@.skip(i + 1));
            assert(a@.take(i + 1) =~= a@.take(i as int).push(a@[i as int]));
            assert(b@.take(i + 1) =~= b@.take(i as int).push(b@[i as int]));
        }
        i = i + 1;
    }
    if i == a.len() {
        i < b.len()
    } else if i == b.len() {
        false
    } else {
        a[i] < b[i]
    }
}

} // verus!

verus! {

// ── Decimal rendering ───────────────────────────────────────────────────────

pub open spec fn digit_char(d: nat) -> char {
    ((d + 48) as u8) as char
}

/// The decimal digits of `n`, most significant first, without leading zeros.
pub open spec fn decimal(n: nat) -> Seq<char>
    decreases n,
{
    if n < 10 {
        seq![digit_char(n)]
    } else {
        decimal(n / 10).push(digit_char(n % 10))
    }
}

/// Appends the decimal digits of `n`.
pub fn push_decimal(out: &mut String, n: u32)
    ensures
        final(out)@ == old(out)@ + decimal(n as nat),
    decreases n,
{
    if n >= 10 {
        push_decimal(out, n / 10);
    }
    let d: u8 = (n % 10) as u8;
    push_char(out, (d + 48) as char);
    proof {
        assert(old(out)@ + decimal(n as nat) =~= if n >= 10 {
            old(out)@ + decimal((n / 10) as nat) + seq![digit_char((n % 10) as nat)]
        } else {
            old(out)@ + seq![digit_char((n % 10) as nat)]
        });
    }
}

/// Appends a string slice.
pub fn push_str(out: &mut String, s: &str)
    ensures
        final(out)@ == old(out)@ + s@,
{
    out.append(s);
}

/// `n` spaces.
pub open spec fn spaces(n: nat) -> Seq<char> {
    Seq::new(n, |i: int| ' ')
}

/// Appends `n` spaces.
pub fn push_spaces(out: &mut String, n: usize)
    ensures
        final(out)@ == old(out)@ + spaces(n as nat),
{
    let mut k: usize = 0;
    while k < n
        invariant
            k <= n,
            out@ == old(out)@ + spaces(k as nat),
        decreases n - k,
    {
        push_char(out, ' ');
        k = k + 1;
        proof {
            assert(out@ =~= old(out)@ + spaces(k as nat));
        }
    }
}

} // verus!

verus! {

// ── Splitting and joining ───────────────────────────────────────────────────

/// The pieces of `s` between occurrences of `sep` (what `str::split` yields);
/// always at least one piece.
pub open spec fn split_on(s: Seq<char>, sep: char) -> Seq<Seq<char>>
    decreases s.len(),
{
    if s.len() == 0 {
        seq![Seq::empty()]
    } else {
        let p = split_on(s.drop_last(), sep);
        if s.last() == sep {
            p.push(Seq::empty())
        } else {
            p.update(p.len() - 1, p.last().push(s.last()))
        }
    }
}

/// The pieces joined with `sep` between consecutive ones.
pub open spec fn join_with(ps: Seq<Seq<char>>, sep: char) -> Seq<char>
    decreases ps.len(),
{
    if ps.len() == 0 {
        Seq::empty()
    } else if ps.len() == 1 {
        ps[0]
    } else {
        join_with(ps.drop_last(), sep) + seq![sep] + ps.last()
    }
}

pub proof fn lemma_split_nonempty(s: Seq<char>, sep: char)
    ensures
        split_on(s, sep).len() >= 1,
    decreases s.len(),
{
    if s.len() > 0 {
        lemma_split_nonempty(s.drop_last(), sep);
    }
}

proof fn lemma_join_extend_last(ps: Seq<Seq<char>>, sep: char, c: char)
    requires
        ps.len() >= 1,
    ensures
        join_with(ps.update(ps.len() - 1, ps.last().push(c)), sep) == join_with(ps, sep).push(c),
{
    let qs = ps.update(ps.len() - 1, ps.last().push(c));
    if ps.len() == 1 {
    } else {
        assert(qs.drop_last() =~= ps.drop_last());
        assert((join_with(ps.drop_last(), sep) + seq![sep] + ps.last()).push(c) =~= join_with(
            ps.drop_last(),
            sep,
        ) + seq![sep] + ps.last().push(c));
    }
}

/// Splitting on a separator and joining back with it gives the same text.
pub proof fn lemma_join_split(s: Seq<char>, sep: char)
    ensures
        join_with(split_on(s, sep), sep) == s,
    decreases s.len(),
{
    if s.len() > 0 {
        let p = split_on(s.drop_last(), sep);
        lemma_join_split(s.drop_last(), sep);
        lemma_split_nonempty(s.drop_last(), sep);
        if s.last() == sep {
            let q = p.push(Seq::empty());
            assert(q.drop_last() =~= p);
            assert(join_with(q, sep) =~= s);
        } else {
            lemma_join_extend_last(p, sep, s.last());
            assert(s.drop_last().push(s.last()) =~= s);
        }
    } else {
        assert(join_with(split_on(s, sep), sep) =~= s);
    }
}

/// No piece of a split holds the separator.
pub proof fn lemma_split_pieces(s: Seq<char>, sep: char)
    ensures
        forall|k: int, i: int|
            0 <= k < split_on(s, sep).len() && 0 <= i < split_on(s, sep)[k].len() ==> #[trigger] split_on(
                s,
                sep,
            )[k][i] != sep,
    decreases s.len(),
{
    if s.len() > 0 {
        lemma_split_pieces(s.drop_last(), sep);
        lemma_split_nonempty(s.drop_last(), sep);
    }
}

proof fn lemma_split_append_plain(s: Seq<char>, t: Seq<char>, sep: char)
    requires
        forall|i: int| 0 <= i < t.len() ==> t[i] != sep,
    ensures
        split_on(s + t, sep) == split_on(s, sep).update(
            split_on(s, sep).len() - 1,
            split_on(s, sep).last() + t,
        ),
    decreases t.len(),
{
    lemma_split_nonempty(s, sep);
    let p = split_on(s, sep);
    if t.len() == 0 {
        assert(s + t =~= s);
        assert(p.last() + t =~= p.last());
        assert(p.update(p.len() - 1, p.last() + t) =~= p);
    } else {
        let t0 = t.drop_last();
        lemma_split_append_plain(s, t0, sep);
        assert((s + t).drop_last() =~= s + t0);
        assert((s + t).last() == t.last());
        let q = p.update(p.len() - 1, p.last() + t0);
        assert(q.last().push(t.last()) =~= p.last() + t);
        assert(q.update(q.len() - 1, q.last().push(t.last())) =~= p.update(
            p.len() - 1,
            p.last() + t,
        ));
    }
}

/// Joining pieces that hold no separator and splitting again gives the pieces.
pub proof fn lemma_split_join(ps: Seq<Seq<char>>, sep: char)
    requires
        ps.len() >= 1,
        forall|k: int, i: int| 0 <= k < ps.len() && 0 <= i < ps[k].len() ==> #[trigger] ps[k][i] != sep,
    ensures
        split_on(join_with(ps, sep), sep) == ps,
    decreases ps.len(),
{
    if ps.len() == 1 {
        lemma_split_append_plain(Seq::empty(), ps[0], sep);
        assert(Seq::<char>::empty() + ps[0] =~= ps[0]);
        assert(split_on(Seq::<char>::empty(), sep).last() + ps[0] =~= ps[0]);
        assert(split_on(join_with(ps, sep), sep) =~= ps);
    } else {
        let init = ps.drop_last();
        lemma_split_join(init, sep);
        let j = join_with(init, sep);
        let l = ps.last();
        assert(forall|i: int| 0 <= i < l.len() ==> l[i] == ps[ps.len() - 1][i]);
        lemma_split_append_plain(j.push(sep), l, sep);
        assert(j + seq![sep] + l =~= j.push(sep) + l);
        assert(j.push(sep).drop_last() =~= j);
        let p = split_on(j.push(sep), sep);
        assert(p == init.push(Seq::<char>::empty()));
        assert(p.last() + l =~= l);
        assert(split_on(join_with(ps, sep), sep) =~= ps);
    }
}

pub open spec fn nested_view(v: Seq<Vec<char>>) -> Seq<Seq<char>> {
    v.map_values(|x: Vec<char>| x@)
}

/// The pieces of `v` between occurrences of `sep`.
pub fn split_chars(v: &Vec<char>, sep: char) -> (r: Vec<Vec<char>>)
    ensures
        nested_view(r@) == split_on(v@, sep),
{
    let mut done: Vec<Vec<char>> = Vec::new();
    let mut cur: Vec<char> = Vec::new();
    let mut i: usize = 0;
    while i < v.len()
        invariant
            i <= v@.len(),
            nested_view(done@).push(cur@) == split_on(v@.take(i as int), sep),
        decreases v@.len() - i,
    {
        let c = v[i];
        proof {
            assert(v@.take(i + 1).drop_last() =~= v@.take(i as int));
            assert(v@.take(i + 1).last() == c);
        }
        if c == sep {
            let finished = cur;
            done.push(finished);
            cur = Vec::new();
            proof {
                assert(nested_view(done@).push(cur@) =~= split_on(v@.take(i + 1), sep));
            }
        } else {
            let ghost before = cur@;
            cur.push(c);
            proof {
                assert(nested_view(done@).push(cur@) =~= split_on(v@.take(i + 1), sep));
            }
        }
        i = i + 1;
    }
    done.push(cur);
    proof {
        assert(v@.take(v@.len() as int) =~= v@);
        assert(nested_view(done@) =~= split_on(v@, sep));
    }
    done
}

} // verus!

verus! {

/// The pieces joined with `sep`.
pub fn join_chars(ps: &Vec<Vec<char>>, sep: char) -> (r: Vec<char>)
    ensures
        r@ == join_with(nested_view(ps@), sep),
{
    let ghost pv = nested_view(ps@);
    let mut out: Vec<char> = Vec::new();
    let mut i: usize = 0;
    while i < ps.len()
        invariant
            i <= ps@.len(),
            pv == nested_view(ps@),
            out@ == join_with(pv.take(i as int), sep),
        decreases ps@.len() - i,
    {
        proof {
            assert(pv.take(i + 1).drop_last() =~= pv.take(i as int));
            assert(pv.take(i + 1).last() == ps@[i as int]@);
        }
        if i > 0 {
            out.push(sep);
        }
        let ghost mid = out@;
        let mut k: usize = 0;
        while k < ps[i].len()
            invariant
                i < ps@.len(),
                k <= ps@[i as int]@.len(),
                out@ == mid + ps@[i as int]@.take(k as int),
            decreases ps@[i as int]@.len() - k,
        {
            out.push(ps[i][k]);
            proof {
                assert(ps@[i as int]@.take(k + 1) =~= ps@[i as int]@.take(k as int).push(
                    ps@[i as int]@[k as int],
                ));
            }
            k = k + 1;
        }
        proof {
            assert(ps@[i as int]@.take(k as int) =~= ps@[i as int]@);
            if i == 0 {
                assert(join_with(pv.take(0), sep) =~= Seq::<char>::empty());
            }
            assert(out@ =~= join_with(pv.take(i + 1), sep));
        }
        i = i + 1;
    }
    proof {
        assert(pv.take(ps@.len() as int) =~= pv);
    }
    out
}

} // verus!

verus! {

pub proof fn lemma_nested_push(v: Seq<Vec<char>>, x: Vec<char>)
    ensures
        nested_view(v.push(x)) == nested_view(v).push(x@),
{
    assert(nested_view(v.push(x)) =~= nested_view(v).push(x@));
}

} // verus!

verus! {

/// The decimal text of a signed integer (`-` before negative values).
pub open spec fn int_text(n: int) -> Seq<char> {
    if n < 0 {
        seq!['-'] + decimal((-n) as nat)
    } else {
        decimal(n as nat)
    }
}

/// Appends the decimal digits of `n`.
pub fn push_decimal_u64(out: &mut String, n: u64)
    ensures
        final(out)@ == old(out)@ + decimal(n as nat),
    decreases n,
{
    if n >= 10 {
        push_decimal_u64(out, n / 10);
    }
    let d: u8 = (n % 10) as u8;
    push_char(out, (d + 48) as char);
    proof {
        assert(old(out)@ + decimal(n as nat) =~= if n >= 10 {
            old(out)@ + decimal((n / 10) as nat) + seq![digit_char((n % 10) as nat)]
        } else {
            old(out)@ + seq![digit_char((n % 10) as nat)]
        });
    }
}

/// Appends the decimal text of `n`.
pub fn push_i32(out: &mut String, n: i32)
    ensures
        final(out)@ == old(out)@ + int_text(n as int),
{
    if n < 0 {
        push_char(out, '-');
        let m: u64 = (0i64 - (n as i64)) as u64;
        push_decimal_u64(out, m);
        proof {
            assert(final(out)@ =~= old(out)@ + int_text(n as int));
        }
    } else {
        push_decimal_u64(out, n as u64);
    }
}

} // verus!
