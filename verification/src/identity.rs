use vstd::prelude::*;

use crate::text::{
    chars_of, digits_value, find_char, index_of, is_digit, lemma_index_of, lemma_trim_idempotent, push_char,
    push_range, seq_equals, string_of_range, trim, trim_bounds,
};

verus! {

// ── SourceKey ───────────────────────────────────────────────────────────────

/// The source prefix of a task identifier; it says which adapter handles the task.
///
/// Canonical texts: `Local` is `"local"`, `Beads` is `"beads"`, `Github` is `"gh"`.
#[derive(Debug, Clone, Copy, PartialEq, Eq, Structural, Hash)]
pub enum SourceKey {
    Local,
    Beads,
    Github,
}

/// The canonical text of a source key.
pub open spec fn key_text(k: SourceKey) -> Seq<char> {
    match k {
        SourceKey::Local => "local"@,
        SourceKey::Beads => "beads"@,
        SourceKey::Github => "gh"@,
    }
}

/// The source key whose canonical text is `s`, if any (case-sensitive).
pub open spec fn key_of(s: Seq<char>) -> Option<SourceKey> {
    if s == "local"@ {
        Some(SourceKey::Local)
    } else if s == "beads"@ {
        Some(SourceKey::Beads)
    } else if s == "gh"@ {
        Some(SourceKey::Github)
    } else {
        None
    }
}

impl SourceKey {
    /// Returns the canonical string representation (`"local"`, `"beads"` or `"gh"`).
    pub fn as_str(&self) -> (s: &'static str)
        ensures
            s@ == key_text(*self),
    {
        match self {
            SourceKey::Local => "local",
            SourceKey::Beads => "beads",
            SourceKey::Github => "gh",
        }
    }

    /// Parses a canonical source key text; `None` for any other string.
    pub fn from_str(s: &str) -> (r: Option<SourceKey>)
        ensures
            r == key_of(s@),
    {
        let v = chars_of(s);
        if seq_equals(&v, &chars_of("local")) {
            Some(SourceKey::Local)
        } else if seq_equals(&v, &chars_of("beads")) {
            Some(SourceKey::Beads)
        } else if seq_equals(&v, &chars_of("gh")) {
            Some(SourceKey::Github)
        } else {
            None
        }
    }

    /// The canonical text as an owned `String` (what `Display` shows).
    pub fn to_text(&self) -> (s: String)
        ensures
            s@ == key_text(*self),
    {
        String::from_str(self.as_str())
    }
}

/// Each source key has a distinct canonical text, and parsing it gives the key back;
/// the three texts are `"local"`, `"beads"` and `"gh"`.
pub proof fn lemma_key_text_round_trip(k: SourceKey)
    ensures
        key_of(key_text(k)) == Some(k),
{
    reveal_strlit("local");
    reveal_strlit("beads");
    reveal_strlit("gh");
    assert("local"@[0] == 'l' && "beads"@[0] == 'b' && "gh"@.len() == 2);
    assert("local"@ != "beads"@);
    assert("local"@ != "gh"@);
    assert("beads"@ != "gh"@);
}

/// A text that parses as a source key is that key's canonical text.
pub proof fn lemma_key_of_text(s: Seq<char>)
    ensures
        key_of(s) matches Some(k) ==> key_text(k) == s,
{
}

// ── NativeId ────────────────────────────────────────────────────────────────

/// The identifier that the source system uses for a task (`"TASK-042"`, `"bd-a1b2"`, `"187"`).
#[derive(Debug, Hash)]
pub struct NativeId(pub String);

impl View for NativeId {
    type V = Seq<char>;

    open spec fn view(&self) -> Seq<char> {
        self.0@
    }
}

impl Clone for NativeId {
    fn clone(&self) -> (r: Self)
        ensures
            r@ == self@,
    {
        NativeId(self.0.clone())
    }
}

impl PartialEq for NativeId {
    fn eq(&self, other: &Self) -> (r: bool) {
        self.0 == other.0
    }
}

impl vstd::std_specs::cmp::PartialEqSpecImpl for NativeId {
    open spec fn obeys_eq_spec() -> bool {
        true
    }

    open spec fn eq_spec(&self, other: &NativeId) -> bool {
        self@ == other@
    }
}

impl Eq for NativeId {}

/// Width to which all-digit identifiers are padded in sort keys.
pub const SORT_KEY_WIDTH: usize = 9;

/// A non-empty sequence of ASCII digits.
pub open spec fn is_numeric(s: Seq<char>) -> bool {
    s.len() > 0 && forall|i: int| 0 <= i < s.len() ==> is_digit(#[trigger] s[i])
}

/// The tiebreak key of an identifier: an all-digit identifier shorter than nine
/// characters is left-padded with `'0'` to nine; any other is unchanged.
pub open spec fn sort_key_of(s: Seq<char>) -> Seq<char> {
    if is_numeric(s) && s.len() < SORT_KEY_WIDTH {
        Seq::new((SORT_KEY_WIDTH - s.len()) as nat, |i: int| '0') + s
    } else {
        s
    }
}

/// `10^n`.
pub open spec fn pow10(n: nat) -> nat
    decreases n,
{
    if n == 0 {
        1
    } else {
        pow10((n - 1) as nat) * 10
    }
}

/// The value of a digit character.
pub open spec fn digit_value(c: char) -> nat {
    ((c as u32) - 48) as nat
}

proof fn lemma_pow10_positive(n: nat)
    ensures
        pow10(n) >= 1,
    decreases n,
{
    if n > 0 {
        lemma_pow10_positive((n - 1) as nat);
    }
}

/// A run of `n` digits is worth less than `10^n`.
proof fn lemma_digits_below(s: Seq<char>)
    requires
        forall|i: int| 0 <= i < s.len() ==> is_digit(#[trigger] s[i]),
    ensures
        digits_value(s) < pow10(s.len()),
    decreases s.len(),
{
    if s.len() > 0 {
        let t = s.drop_last();
        assert(forall|i: int| 0 <= i < t.len() ==> t[i] == s[i]);
        lemma_digits_below(t);
        assert(is_digit(s[s.len() - 1]));
        let v = digits_value(t);
        let p = pow10(t.len());
        let d = digit_value(s.last());
        assert(d <= 9);
        assert(v * 10 + d < p * 10) by (nonlinear_arith)
            requires
                v < p,
                d <= 9,
        ;
    }
}

/// The value of a digit run, read from its first digit.
proof fn lemma_digits_first(s: Seq<char>)
    requires
        s.len() >= 1,
    ensures
        digits_value(s) == digit_value(s[0]) * pow10((s.len() - 1) as nat) + digits_value(
            s.drop_first(),
        ),
    decreases s.len(),
{
    if s.len() == 1 {
        assert(s.drop_last().len() == 0);
        assert(s.drop_first().len() == 0);
        assert(digits_value(s.drop_last()) == 0);
        assert(digits_value(s.drop_first()) == 0);
        assert(digits_value(s) == digit_value(s.last()));
        assert(s.last() == s[0]);
        assert(pow10(0) == 1);
        assert(digit_value(s[0]) * 1 == digit_value(s[0]));
    } else {
        let t = s.drop_last();
        lemma_digits_first(t);
        assert(t[0] == s[0]);
        assert(s.drop_first().drop_last() =~= t.drop_first());
        assert(s.drop_first().last() == s.last());
        let a = digit_value(s[0]);
        let p = pow10((t.len() - 1) as nat);
        let r = digits_value(t.drop_first());
        let l = digit_value(s.last());
        assert((a * p + r) * 10 + l == a * (p * 10) + (r * 10 + l)) by (nonlinear_arith);
        assert(digits_value(s) == digits_value(t) * 10 + l);
        assert(digits_value(s.drop_first()) == digits_value(t.drop_first()) * 10 + l);
        assert(pow10((s.len() - 1) as nat) == p * 10);
    }
}

/// Leading zeros do not change a digit run's value.
proof fn lemma_digits_zeros(z: Seq<char>, s: Seq<char>)
    requires
        forall|i: int| 0 <= i < z.len() ==> #[trigger] z[i] == '0',
    ensures
        digits_value(z + s) == digits_value(s),
    decreases z.len() + s.len(),
{
    if s.len() > 0 {
        assert((z + s).drop_last() =~= z + s.drop_last());
        assert((z + s).last() == s.last());
        lemma_digits_zeros(z, s.drop_last());
    } else if z.len() > 0 {
        assert(z + s =~= z);
        assert(z.drop_last() + s =~= z.drop_last());
        lemma_digits_zeros(z.drop_last(), s);
        assert(z.last() == '0');
    } else {
        assert(z + s =~= s);
    }
}

/// Digit runs of one length sort as their values do.
proof fn lemma_digits_order(a: Seq<char>, b: Seq<char>)
    requires
        a.len() == b.len(),
        forall|i: int| 0 <= i < a.len() ==> is_digit(#[trigger] a[i]),
        forall|i: int| 0 <= i < b.len() ==> is_digit(#[trigger] b[i]),
    ensures
        crate::text::seq_lt(a, b) <==> digits_value(a) < digits_value(b),
    decreases a.len(),
{
    if a.len() > 0 {
        let ra = a.drop_first();
        let rb = b.drop_first();
        assert(forall|i: int| 0 <= i < ra.len() ==> ra[i] == a[i + 1]);
        assert(forall|i: int| 0 <= i < rb.len() ==> rb[i] == b[i + 1]);
        lemma_digits_order(ra, rb);
        lemma_digits_first(a);
        lemma_digits_first(b);
        lemma_digits_below(ra);
        lemma_digits_below(rb);
        assert(is_digit(a[0]) && is_digit(b[0]));
        let p = pow10((a.len() - 1) as nat);
        let x = digit_value(a[0]);
        let y = digit_value(b[0]);
        let u = digits_value(ra);
        let v = digits_value(rb);
        if a[0] != b[0] {
            if x < y {
                assert(x * p + u < y * p + v) by (nonlinear_arith)
                    requires
                        x < y,
                        u < p,
                        v >= 0,
                ;
            } else {
                assert(y < x);
                assert(y * p + v < x * p + u) by (nonlinear_arith)
                    requires
                        y < x,
                        v < p,
                        u >= 0,
                ;
            }
        }
    }
}

/// Identifiers made of at most nine digits sort by their numeric value:
/// `"9"` before `"20"`, and `"007"` level with `"7"`.
pub proof fn lemma_numeric_sort_order(a: Seq<char>, b: Seq<char>)
    requires
        is_numeric(a),
        is_numeric(b),
        a.len() <= SORT_KEY_WIDTH,
        b.len() <= SORT_KEY_WIDTH,
    ensures
        crate::text::seq_lt(sort_key_of(a), sort_key_of(b)) <==> digits_value(a) < digits_value(b),
{
    let ka = sort_key_of(a);
    let kb = sort_key_of(b);
    let za = Seq::new((SORT_KEY_WIDTH - a.len()) as nat, |i: int| '0');
    let zb = Seq::new((SORT_KEY_WIDTH - b.len()) as nat, |i: int| '0');
    if a.len() < SORT_KEY_WIDTH {
        lemma_digits_zeros(za, a);
        assert(ka == za + a);
    } else {
        assert(za + a =~= a);
        lemma_digits_zeros(za, a);
    }
    if b.len() < SORT_KEY_WIDTH {
        lemma_digits_zeros(zb, b);
        assert(kb == zb + b);
    } else {
        assert(zb + b =~= b);
        lemma_digits_zeros(zb, b);
    }
    assert(ka =~= za + a);
    assert(kb =~= zb + b);
    assert forall|i: int| 0 <= i < ka.len() implies is_digit(#[trigger] ka[i]) by {
        if i >= za.len() {
            assert(ka[i] == a[i - za.len()]);
        }
    }
    assert forall|i: int| 0 <= i < kb.len() implies is_digit(#[trigger] kb[i]) by {
        if i >= zb.len() {
            assert(kb[i] == b[i - zb.len()]);
        }
    }
    lemma_digits_order(ka, kb);
}

impl NativeId {
    /// Returns the sort key used as the last tiebreaker in task selection.
    ///
    /// `"187"` gives `"000000187"`; `"TASK-042"` and `"1234567890"` are unchanged.
    pub fn sort_key(&self) -> (r: String)
        ensures
            r@ == sort_key_of(self@),
    {
        let v = chars_of(self.0.as_str());
        let n = v.len();
        let mut numeric = n > 0;
        let mut i: usize = 0;
        while i < n
            invariant
                n == v@.len(),
                i <= n,
                numeric == (n > 0 && forall|j: int| 0 <= j < i ==> is_digit(v@[j])),
            decreases n - i,
        {
            numeric = numeric && ('0' <= v[i] && v[i] <= '9');
            i = i + 1;
        }
        let mut out = String::new();
        if numeric && n < SORT_KEY_WIDTH {
            let mut k: usize = 0;
            while k < SORT_KEY_WIDTH - n
                invariant
                    n < SORT_KEY_WIDTH,
                    k <= SORT_KEY_WIDTH - n,
                    out@ == Seq::new(k as nat, |i: int| '0'),
                decreases SORT_KEY_WIDTH - n - k,
            {
                push_char(&mut out, '0');
                k = k + 1;
                proof {
                    assert(out@ =~= Seq::new(k as nat, |i: int| '0'));
                }
            }
        }
        push_range(&mut out, &v, 0, n);
        proof {
            assert(v@.subrange(0, n as int) =~= v@);
            if !(numeric && n < SORT_KEY_WIDTH) {
                assert(out@ =~= v@);
            }
        }
        out
    }
}

// ── TaskId ──────────────────────────────────────────────────────────────────

/// Globally unique task identifier in `<source>:<native_id>` form.
#[derive(Debug)]
pub struct TaskId {
    pub source_key: SourceKey,
    pub native_id: NativeId,
}

/// The abstract value of a `TaskId`.
pub struct TaskIdView {
    pub source_key: SourceKey,
    pub native_id: Seq<char>,
}

impl View for TaskId {
    type V = TaskIdView;

    open spec fn view(&self) -> TaskIdView {
        TaskIdView { source_key: self.source_key, native_id: self.native_id@ }
    }
}

/// The text of a task identifier: `<source>:<native_id>`.
pub open spec fn id_text(id: TaskIdView) -> Seq<char> {
    key_text(id.source_key) + seq![':'] + id.native_id
}

impl Clone for TaskId {
    fn clone(&self) -> (r: Self)
        ensures
            r@ == self@,
    {
        TaskId { source_key: self.source_key, native_id: self.native_id.clone() }
    }
}

impl PartialEq for TaskId {
    fn eq(&self, other: &Self) -> (r: bool) {
        self.source_key == other.source_key && self.native_id == other.native_id
    }
}

impl vstd::std_specs::cmp::PartialEqSpecImpl for TaskId {
    open spec fn obeys_eq_spec() -> bool {
        true
    }

    open spec fn eq_spec(&self, other: &TaskId) -> bool {
        self@ == other@
    }
}

impl Eq for TaskId {}

impl TaskId {
    /// The `<source>:<native_id>` text of this identifier (what `Display` shows).
    pub fn to_string(&self) -> (s: String)
        ensures
            s@ == id_text(self@),
    {
        let mut s = self.source_key.to_text();
        push_char(&mut s, ':');
        s.append(self.native_id.0.as_str());
        s
    }
}

} // verus!

verus! {

// ── ParseError ──────────────────────────────────────────────────────────────

/// Why a task identifier string could not be parsed.
#[derive(Debug)]
pub enum ParseError {
    /// No colon, or the source or native part is empty.
    InvalidTaskId { input: String },
    /// The source prefix is not one of `local`, `beads`, `gh`.
    UnknownSourceKey { key: String, input: String },
}

/// The abstract outcome of parsing a task identifier: the identifier, or
/// `Err(None)` for a malformed input, or `Err(Some(key))` for an unknown source key.
pub open spec fn parse_id(s: Seq<char>) -> Result<TaskIdView, Option<Seq<char>>> {
    let k = index_of(s, ':');
    if k < 0 {
        Err(None)
    } else {
        let src = trim(s.take(k));
        let native = trim(s.skip(k + 1));
        if src.len() == 0 || native.len() == 0 {
            Err(None)
        } else {
            match key_of(src) {
                Some(key) => Ok(TaskIdView { source_key: key, native_id: native }),
                None => Err(Some(src)),
            }
        }
    }
}

/// An identifier whose native part is non-empty and has no surrounding
/// whitespace reads back from its `<source>:<native_id>` text unchanged.
pub proof fn lemma_parse_id_text(id: TaskIdView)
    requires
        id.native_id.len() > 0,
        trim(id.native_id) == id.native_id,
    ensures
        parse_id(id_text(id)) == Ok::<TaskIdView, Option<Seq<char>>>(id),
{
    reveal_strlit("local");
    reveal_strlit("beads");
    reveal_strlit("gh");
    let kt = key_text(id.source_key);
    let s = id_text(id);
    assert(forall|j: int| 0 <= j < kt.len() ==> s[j] == kt[j]);
    lemma_index_of(s, ':', kt.len() as int);
    assert(s.take(kt.len() as int) =~= kt);
    assert(s.skip(kt.len() as int + 1) =~= id.native_id);
    assert(crate::text::trim_end(kt) == kt);
    assert(crate::text::trim_start(kt) == kt);
    lemma_key_text_round_trip(id.source_key);
}

/// Every identifier that parses is written back (`to_string`) as a text that
/// parses to the same identifier.
pub proof fn lemma_parsed_id_round_trip(s: Seq<char>)
    ensures
        parse_id(s) matches Ok(id) ==> parse_id(id_text(id)) == Ok::<TaskIdView, Option<Seq<char>>>(
            id,
        ),
{
    if let Ok(id) = parse_id(s) {
        let k = index_of(s, ':');
        lemma_trim_idempotent(s.skip(k + 1));
        lemma_parse_id_text(id);
    }
}

/// Converts `<source>:<native_id>` strings into typed `TaskId` values.
pub struct TaskIdParser;

impl TaskIdParser {
    /// Parses a task ID in `<source>:<native_id>` form.
    ///
    /// Splits on the first colon only; both parts are trimmed; the source part is
    /// matched case-sensitively against `local`, `beads` and `gh`.
    pub fn parse(input: &str) -> (r: Result<TaskId, ParseError>)
        ensures
            match r {
                Ok(id) => parse_id(input@) == Ok::<TaskIdView, Option<Seq<char>>>(id@),
                Err(ParseError::InvalidTaskId { input: i }) => i@ == input@ && parse_id(input@)
                    == Err::<TaskIdView, Option<Seq<char>>>(None),
                Err(ParseError::UnknownSourceKey { key, input: i }) => i@ == input@ && parse_id(
                    input@,
                ) == Err::<TaskIdView, Option<Seq<char>>>(Some(key@)),
            },
    {
        let v = chars_of(input);
        let n = v.len();
        proof {
            assert(v@.subrange(0, n as int) =~= v@);
        }
        match find_char(&v, 0, n, ':') {
            None => Err(ParseError::InvalidTaskId { input: String::from_str(input) }),
            Some(k) => {
                let (a, b) = trim_bounds(&v, 0, k);
                let (c, d) = trim_bounds(&v, k + 1, n);
                proof {
                    assert(v@.subrange(0, k as int) =~= v@.take(k as int));
                    assert(v@.subrange(k + 1, n as int) =~= v@.skip(k + 1));
                }
                if a == b || c == d {
                    return Err(ParseError::InvalidTaskId { input: String::from_str(input) });
                }
                let src = string_of_range(&v, a, b);
                match SourceKey::from_str(src.as_str()) {
                    Some(key) => Ok(
                        TaskId { source_key: key, native_id: NativeId(string_of_range(&v, c, d)) },
                    ),
                    None => Err(
                        ParseError::UnknownSourceKey { key: src, input: String::from_str(input) },
                    ),
                }
            },
        }
    }
}

} // verus!
