//! Candidates for profile rules taken from the text of a `.env` file.
//!
//! Whether a candidate is selected by default is a heuristic first choice only; the final
//! decision is left to the user of the front end.

use vstd::prelude::*;
use crate::text::{
    is_white_space, is_white_space_spec, eq_ignore_ascii_case, eq_ignore_ascii_case_spec,
    chars_of, string_from_char_range,
};

verus! {

/// Values shorter than this many characters are not selected by default.
pub const MIN_SECRET_VALUE_LEN: usize = 4;

/// One `KEY=value` line of a `.env` file.
#[derive(Debug, Clone, PartialEq, Eq)]
pub struct EnvCandidate {
    pub key: String,
    pub value: String,
    pub included_by_default: bool,
}

pub struct EnvCandidateView {
    pub key: Seq<char>,
    pub value: Seq<char>,
    pub included_by_default: bool,
}

impl View for EnvCandidate {
    type V = EnvCandidateView;

    open spec fn view(&self) -> EnvCandidateView {
        EnvCandidateView {
            key: self.key@,
            value: self.value@,
            included_by_default: self.included_by_default,
        }
    }
}

// ---------------------------------------------------------------------------------------------
// The model
// ---------------------------------------------------------------------------------------------
/// The index of the first `c` in `s`, or `s.len()` when there is none.
pub open spec fn first_index_of(s: Seq<char>, c: char) -> nat
    decreases s.len(),
{
    if s.len() == 0 {
        0
    } else if s[0] == c {
        0
    } else {
        1 + first_index_of(s.drop_first(), c)
    }
}

/// `s` without its leading Unicode white space (`str::trim_start`).
pub open spec fn trim_start(s: Seq<char>) -> Seq<char>
    decreases s.len(),
{
    if s.len() > 0 && is_white_space_spec(s[0]) {
        trim_start(s.drop_first())
    } else {
        s
    }
}

/// `s` without its trailing Unicode white space (`str::trim_end`).
pub open spec fn trim_end(s: Seq<char>) -> Seq<char>
    decreases s.len(),
{
    if s.len() > 0 && is_white_space_spec(s.last()) {
        trim_end(s.drop_last())
    } else {
        s
    }
}

/// `s` without leading and trailing Unicode white space (`str::trim`).
pub open spec fn trim(s: Seq<char>) -> Seq<char> {
    trim_end(trim_start(s))
}

pub open spec fn export_word() -> Seq<char> {
    seq!['e', 'x', 'p', 'o', 'r', 't', ' ']
}

/// A key written as `export FOO` (a `.env` meant to be sourced by a shell) loses the word
/// `export ` and the white space after it; a key that is just `export` stays as it is.
pub open spec fn strip_export_prefix_spec(key: Seq<char>) -> Seq<char> {
    if key.len() >= 7 && key.take(7) == export_word() {
        trim_start(key.skip(7))
    } else {
        key
    }
}

pub open spec fn is_quote(c: char) -> bool {
    c == '"' || c == '\''
}

/// The value opens with a quote that it does not close: it may continue over more lines (a PEM
/// key, say), so what one line holds is only part of it.
pub open spec fn has_unmatched_leading_quote_spec(raw: Seq<char>) -> bool {
    raw.len() > 0 && is_quote(raw[0]) && !(raw.len() >= 2 && raw.last() == raw[0])
}

/// The value without one pair of surrounding double or single quotes.
pub open spec fn strip_matching_quotes_spec(v: Seq<char>) -> Seq<char> {
    if v.len() >= 2 && is_quote(v[0]) && v.last() == v[0] {
        v.subrange(1, v.len() - 1)
    } else {
        v
    }
}

/// Keys whose values are not secrets, compared without regard to ASCII case.
pub open spec fn is_denylisted(key: Seq<char>) -> bool {
    ||| eq_ignore_ascii_case_spec(seq!['P', 'O', 'R', 'T'], key)
    ||| eq_ignore_ascii_case_spec(seq!['D', 'E', 'B', 'U', 'G'], key)
    ||| eq_ignore_ascii_case_spec(seq!['N', 'O', 'D', 'E', '_', 'E', 'N', 'V'], key)
    ||| eq_ignore_ascii_case_spec(seq!['L', 'O', 'G', '_', 'L', 'E', 'V', 'E', 'L'], key)
    ||| eq_ignore_ascii_case_spec(seq!['H', 'O', 'S', 'T'], key)
    ||| eq_ignore_ascii_case_spec(seq!['T', 'Z'], key)
    ||| eq_ignore_ascii_case_spec(seq!['E', 'N', 'V'], key)
}

pub open spec fn should_include_by_default_spec(key: Seq<char>, value: Seq<char>) -> bool {
    value.len() >= MIN_SECRET_VALUE_LEN && !is_denylisted(key)
}

/// What one line contributes, if anything: blank lines, comments, lines without `=` and lines
/// with an empty key contribute nothing. The key and the value are split at the first `=`.
pub open spec fn parse_line(line: Seq<char>) -> Option<EnvCandidateView> {
    let t = trim(line);
    if t.len() == 0 || t[0] == '#' {
        None
    } else {
        let q = first_index_of(t, '=');
        if q >= t.len() {
            None
        } else {
            let key = strip_export_prefix_spec(trim(t.take(q as int)));
            if key.len() == 0 {
                None
            } else {
                let raw = trim(t.skip((q + 1) as int));
                let value = strip_matching_quotes_spec(raw);
                Some(
                    EnvCandidateView {
                        key,
                        value,
                        included_by_default: !has_unmatched_leading_quote_spec(raw)
                            && should_include_by_default_spec(key, value),
                    },
                )
            }
        }
    }
}

/// The candidates of the lines of `s`, in order, duplicates included. Lines end at `'\n'`; the
/// `'\r'` of a `"\r\n"` ending is white space, which the line's trim removes.
pub open spec fn line_entries(s: Seq<char>) -> Seq<EnvCandidateView>
    decreases s.len(),
{
    let i = first_index_of(s, '\n');
    let rest = if i < s.len() {
        line_entries(s.skip((i + 1) as int))
    } else {
        Seq::empty()
    };
    match parse_line(s.take(i as int)) {
        Some(e) => seq![e] + rest,
        None => rest,
    }
}

/// The position of the first candidate with key `key`, or `acc.len()` when there is none.
pub open spec fn key_position(acc: Seq<EnvCandidateView>, key: Seq<char>) -> nat
    decreases acc.len(),
{
    if acc.len() == 0 {
        0
    } else if acc[0].key == key {
        0
    } else {
        1 + key_position(acc.drop_first(), key)
    }
}

/// A later candidate replaces an earlier one with the same key, in the earlier one's place.
pub open spec fn merge_candidate(acc: Seq<EnvCandidateView>, e: EnvCandidateView) -> Seq<
    EnvCandidateView,
> {
    let i = key_position(acc, e.key);
    if i < acc.len() {
        acc.update(i as int, e)
    } else {
        acc.push(e)
    }
}

/// All candidates merged in order: one per key, in the order in which keys first appear, each
/// with what the key's last line gave.
pub open spec fn merged(es: Seq<EnvCandidateView>) -> Seq<EnvCandidateView>
    decreases es.len(),
{
    if es.len() == 0 {
        Seq::empty()
    } else {
        merge_candidate(merged(es.drop_last()), es.last())
    }
}

/// The candidates of a whole `.env` text.
pub open spec fn env_candidates(content: Seq<char>) -> Seq<EnvCandidateView> {
    merged(line_entries(content))
}

pub open spec fn keys_distinct(cs: Seq<EnvCandidateView>) -> bool {
    forall|i: int, j: int| 0 <= i < j < cs.len() ==> #[trigger] cs[i].key != #[trigger] cs[j].key
}

// ---------------------------------------------------------------------------------------------
// Lemmas
// ---------------------------------------------------------------------------------------------
proof fn lemma_first_index_of(s: Seq<char>, c: char, k: nat)
    requires
        k <= s.len(),
        forall|j: int| 0 <= j < k ==> #[trigger] s[j] != c,
        k < s.len() ==> s[k as int] == c,
    ensures
        first_index_of(s, c) == k,
    decreases k,
{
    if k > 0 {
        assert forall|j: int| 0 <= j < k - 1 implies #[trigger] s.drop_first()[j] != c by {
            assert(s.drop_first()[j] == s[j + 1]);
        }
        if (k as int) < s.len() {
            assert(s.drop_first()[k - 1] == s[k as int]);
        }
        assert(s[0] != c);
        lemma_first_index_of(s.drop_first(), c, (k - 1) as nat);
    }
}

proof fn lemma_key_position(acc: Seq<EnvCandidateView>, key: Seq<char>, k: nat)
    requires
        k <= acc.len(),
        forall|j: int| 0 <= j < k ==> (#[trigger] acc[j]).key != key,
        k < acc.len() ==> acc[k as int].key == key,
    ensures
        key_position(acc, key) == k,
    decreases k,
{
    if k > 0 {
        assert forall|j: int| 0 <= j < k - 1 implies (#[trigger] acc.drop_first()[j]).key != key by {
            assert(acc.drop_first()[j] == acc[j + 1]);
        }
        if (k as int) < acc.len() {
            assert(acc.drop_first()[k - 1] == acc[k as int]);
        }
        assert(acc[0].key != key);
        lemma_key_position(acc.drop_first(), key, (k - 1) as nat);
    }
}

proof fn lemma_trim_start_step(s: Seq<char>, a: int, b: int)
    requires
        0 <= a < b <= s.len(),
        is_white_space_spec(s[a]),
    ensures
        trim_start(s.subrange(a, b)) == trim_start(s.subrange(a + 1, b)),
{
    assert(s.subrange(a, b).drop_first() =~= s.subrange(a + 1, b));
}

proof fn lemma_trim_end_step(s: Seq<char>, a: int, b: int)
    requires
        0 <= a < b <= s.len(),
        is_white_space_spec(s[b - 1]),
    ensures
        trim_end(s.subrange(a, b)) == trim_end(s.subrange(a, b - 1)),
{
    assert(s.subrange(a, b).drop_last() =~= s.subrange(a, b - 1));
}

proof fn lemma_merged_push(es: Seq<EnvCandidateView>, e: EnvCandidateView)
    ensures
        merged(es.push(e)) == merge_candidate(merged(es), e),
{
    assert(es.push(e).drop_last() =~= es);
}

proof fn lemma_line_entries_step(s: Seq<char>, pos: int, e: int)
    requires
        0 <= pos <= e <= s.len(),
        forall|j: int| pos <= j < e ==> s[j] != '\n',
        e < s.len() ==> s[e] == '\n',
    ensures
        line_entries(s.skip(pos)) == (match parse_line(s.subrange(pos, e)) {
            Some(c) => seq![c],
            None => Seq::<EnvCandidateView>::empty(),
        }) + (if e < s.len() {
            line_entries(s.skip(e + 1))
        } else {
            Seq::<EnvCandidateView>::empty()
        }),
{
    let t = s.skip(pos);
    assert forall|j: int| 0 <= j < e - pos implies #[trigger] t[j] != '\n' by {
        assert(t[j] == s[pos + j]);
    }
    if e < s.len() {
        assert(t[e - pos] == s[e]);
    }
    lemma_first_index_of(t, '\n', (e - pos) as nat);
    assert(first_index_of(t, '\n') == e - pos);
    assert(t.take(e - pos) =~= s.subrange(pos, e));
    if e < s.len() {
        assert(t.skip(e - pos + 1) =~= s.skip(e + 1));
    }
}

proof fn lemma_first_index_props(s: Seq<char>, c: char)
    ensures
        first_index_of(s, c) <= s.len(),
        first_index_of(s, c) < s.len() ==> s[first_index_of(s, c) as int] == c,
        forall|j: int| 0 <= j < first_index_of(s, c) ==> #[trigger] s[j] != c,
    decreases s.len(),
{
    if s.len() > 0 && s[0] != c {
        lemma_first_index_props(s.drop_first(), c);
        assert forall|j: int| 0 <= j < first_index_of(s, c) implies #[trigger] s[j] != c by {
            if j > 0 {
                assert(s[j] == s.drop_first()[j - 1]);
            }
        }
        if first_index_of(s, c) < s.len() {
            assert(s[first_index_of(s, c) as int] == s.drop_first()[first_index_of(s.drop_first(), c) as int]);
        }
    }
}

/// Reading lines that follow whole lines: the candidates of `pre + rest`, where `pre` is empty or
/// ends a line, are those of `pre` and then those of `rest`.
proof fn lemma_line_entries_concat(pre: Seq<char>, rest: Seq<char>)
    requires
        pre.len() == 0 || pre.last() == '\n',
    ensures
        line_entries(pre + rest) == line_entries(pre) + line_entries(rest),
    decreases pre.len(),
{
    if pre.len() == 0 {
        assert(pre + rest =~= rest);
        assert(first_index_of(pre, '\n') == 0);
        assert(parse_line(pre.take(0)) is None) by {
            assert(trim(pre.take(0)).len() == 0);
        }
        assert(line_entries(pre) =~= Seq::<EnvCandidateView>::empty());
        assert(line_entries(pre) + line_entries(rest) =~= line_entries(rest));
    } else {
        let s = pre + rest;
        lemma_first_index_props(pre, '\n');
        let i = first_index_of(pre, '\n');
        assert(i < pre.len());
        assert forall|j: int| 0 <= j < i implies #[trigger] s[j] != '\n' by {
            assert(s[j] == pre[j]);
        }
        assert(s[i as int] == pre[i as int]);
        lemma_first_index_of(s, '\n', i);
        assert(s.take(i as int) =~= pre.take(i as int));
        let pre2 = pre.skip((i + 1) as int);
        assert(s.skip((i + 1) as int) =~= pre2 + rest);
        if pre2.len() > 0 {
            assert(pre2.last() == pre.last());
        }
        lemma_line_entries_concat(pre2, rest);
        let head: Seq<EnvCandidateView> = match parse_line(pre.take(i as int)) {
            Some(e) => seq![e],
            None => Seq::empty(),
        };
        assert(line_entries(pre) =~= head + line_entries(pre2));
        assert(line_entries(s) =~= head + line_entries(pre2 + rest));
        assert(head + (line_entries(pre2) + line_entries(rest)) =~= head + line_entries(pre2) + line_entries(rest));
    }
}

/// A commented-out line adds nothing: putting a line whose first character other than white
/// space is `#` anywhere between lines of a `.env` text leaves its candidates as they were,
/// whatever assignment the comment holds.
pub proof fn law_commented_lines_add_no_candidate(pre: Seq<char>, comment: Seq<char>, post: Seq<char>)
    requires
        pre.len() == 0 || pre.last() == '\n',
        forall|j: int| 0 <= j < comment.len() ==> #[trigger] comment[j] != '\n',
        trim(comment).len() > 0 && trim(comment)[0] == '#',
    ensures
        env_candidates(pre + comment + seq!['\n'] + post) == env_candidates(pre + post),
{
    let line = comment + seq!['\n'];
    let x = line + post;
    lemma_first_index_of(x, '\n', comment.len());
    assert(x.take(comment.len() as int) =~= comment);
    assert(x.skip(comment.len() as int + 1) =~= post);
    assert(line_entries(x) == line_entries(post));
    lemma_line_entries_concat(pre, x);
    lemma_line_entries_concat(pre, post);
    assert(pre + comment + seq!['\n'] + post =~= pre + x);
}

// ---------------------------------------------------------------------------------------------
// Executable parts
// ---------------------------------------------------------------------------------------------
/// The bounds of `chars[from..to]` without leading and trailing white space.
pub(crate) fn trim_range(chars: &[char], from: usize, to: usize) -> (r: (usize, usize))
    requires
        from <= to <= chars@.len(),
    ensures
        from <= r.0 <= r.1 <= to,
        chars@.subrange(r.0 as int, r.1 as int) == trim(chars@.subrange(from as int, to as int)),
{
    let a = trim_start_range(chars, from, to);
    let mut b = to;
    while b > a && is_white_space(chars[b - 1])
        invariant
            from <= a <= b <= to <= chars@.len(),
            trim_end(chars@.subrange(a as int, to as int)) == trim_end(
                chars@.subrange(a as int, b as int),
            ),
        decreases b,
    {
        proof {
            lemma_trim_end_step(chars@, a as int, b as int);
        }
        b -= 1;
    }
    assert(trim_end(chars@.subrange(a as int, b as int)) == chars@.subrange(a as int, b as int));
    (a, b)
}

/// The start of `chars[from..to]` without leading white space.
fn trim_start_range(chars: &[char], from: usize, to: usize) -> (a: usize)
    requires
        from <= to <= chars@.len(),
    ensures
        from <= a <= to,
        chars@.subrange(a as int, to as int) == trim_start(
            chars@.subrange(from as int, to as int),
        ),
{
    let mut a = from;
    while a < to && is_white_space(chars[a])
        invariant
            from <= a <= to <= chars@.len(),
            trim_start(chars@.subrange(from as int, to as int)) == trim_start(
                chars@.subrange(a as int, to as int),
            ),
        decreases to - a,
    {
        proof {
            lemma_trim_start_step(chars@, a as int, to as int);
        }
        a += 1;
    }
    a
}

/// The start of the key `chars[from..to]` once a leading `export ` is removed.
fn strip_export_prefix(chars: &[char], from: usize, to: usize) -> (a: usize)
    requires
        from <= to <= chars@.len(),
    ensures
        from <= a <= to,
        chars@.subrange(a as int, to as int) == strip_export_prefix_spec(
            chars@.subrange(from as int, to as int),
        ),
{
    let ghost key = chars@.subrange(from as int, to as int);
    if to - from >= 7 && chars[from] == 'e' && chars[from + 1] == 'x' && chars[from + 2] == 'p'
        && chars[from + 3] == 'o' && chars[from + 4] == 'r' && chars[from + 5] == 't' && chars[from
        + 6] == ' ' {
        assert(key.take(7) =~= export_word());
        assert(key.skip(7) =~= chars@.subrange(from + 7, to as int));
        trim_start_range(chars, from + 7, to)
    } else {
        assert(key.len() >= 7 ==> key.take(7) != export_word()) by {
            if key.len() >= 7 && key.take(7) == export_word() {
                assert(key.take(7)[0] == chars@[from as int]);
                assert(key.take(7)[1] == chars@[from + 1]);
                assert(key.take(7)[2] == chars@[from + 2]);
                assert(key.take(7)[3] == chars@[from + 3]);
                assert(key.take(7)[4] == chars@[from + 4]);
                assert(key.take(7)[5] == chars@[from + 5]);
                assert(key.take(7)[6] == chars@[from + 6]);
            }
        }
        from
    }
}

/// Whether the value `chars[from..to]` opens with a quote that it does not close.
fn has_unmatched_leading_quote(chars: &[char], from: usize, to: usize) -> (r: bool)
    requires
        from <= to <= chars@.len(),
    ensures
        r == has_unmatched_leading_quote_spec(chars@.subrange(from as int, to as int)),
{
    if from < to && (chars[from] == '"' || chars[from] == '\'') {
        !(to - from >= 2 && chars[to - 1] == chars[from])
    } else {
        false
    }
}

/// The bounds of the value `chars[from..to]` without one pair of surrounding quotes.
fn strip_matching_quotes(chars: &[char], from: usize, to: usize) -> (r: (usize, usize))
    requires
        from <= to <= chars@.len(),
    ensures
        r.0 <= r.1 <= chars@.len(),
        chars@.subrange(r.0 as int, r.1 as int) == strip_matching_quotes_spec(
            chars@.subrange(from as int, to as int),
        ),
{
    let ghost v = chars@.subrange(from as int, to as int);
    if to - from >= 2 && (chars[from] == '"' || chars[from] == '\'') && chars[to - 1]
        == chars[from] {
        assert(v.subrange(1, v.len() - 1) =~= chars@.subrange(from + 1, to - 1));
        (from + 1, to - 1)
    } else {
        (from, to)
    }
}

fn denylist() -> (r: Vec<Vec<char>>)
    ensures
        r@.len() == 7,
        r@[0]@ == seq!['P', 'O', 'R', 'T'],
        r@[1]@ == seq!['D', 'E', 'B', 'U', 'G'],
        r@[2]@ == seq!['N', 'O', 'D', 'E', '_', 'E', 'N', 'V'],
        r@[3]@ == seq!['L', 'O', 'G', '_', 'L', 'E', 'V', 'E', 'L'],
        r@[4]@ == seq!['H', 'O', 'S', 'T'],
        r@[5]@ == seq!['T', 'Z'],
        r@[6]@ == seq!['E', 'N', 'V'],
{
    let r = vec![
        vec!['P', 'O', 'R', 'T'],
        vec!['D', 'E', 'B', 'U', 'G'],
        vec!['N', 'O', 'D', 'E', '_', 'E', 'N', 'V'],
        vec!['L', 'O', 'G', '_', 'L', 'E', 'V', 'E', 'L'],
        vec!['H', 'O', 'S', 'T'],
        vec!['T', 'Z'],
        vec!['E', 'N', 'V'],
    ];
    assert(r@[0]@ =~= seq!['P', 'O', 'R', 'T']);
    assert(r@[1]@ =~= seq!['D', 'E', 'B', 'U', 'G']);
    assert(r@[2]@ =~= seq!['N', 'O', 'D', 'E', '_', 'E', 'N', 'V']);
    assert(r@[3]@ =~= seq!['L', 'O', 'G', '_', 'L', 'E', 'V', 'E', 'L']);
    assert(r@[4]@ =~= seq!['H', 'O', 'S', 'T']);
    assert(r@[5]@ =~= seq!['T', 'Z']);
    assert(r@[6]@ =~= seq!['E', 'N', 'V']);
    r
}

/// Whether a candidate with this key and value is selected by default: the value has at least
/// `MIN_SECRET_VALUE_LEN` characters and the key is not one whose values are not secrets.
fn should_include_by_default(key: &[char], value_len: usize) -> (r: bool)
    ensures
        r == (value_len >= MIN_SECRET_VALUE_LEN && !is_denylisted(key@)),
{
    if value_len < MIN_SECRET_VALUE_LEN {
        return false;
    }
    let denied = denylist();
    let mut i: usize = 0;
    while i < denied.len()
        invariant
            denied@.len() == 7,
            denied@[0]@ == seq!['P', 'O', 'R', 'T'],
            denied@[1]@ == seq!['D', 'E', 'B', 'U', 'G'],
            denied@[2]@ == seq!['N', 'O', 'D', 'E', '_', 'E', 'N', 'V'],
            denied@[3]@ == seq!['L', 'O', 'G', '_', 'L', 'E', 'V', 'E', 'L'],
            denied@[4]@ == seq!['H', 'O', 'S', 'T'],
            denied@[5]@ == seq!['T', 'Z'],
            denied@[6]@ == seq!['E', 'N', 'V'],
            i <= 7,
            forall|j: int| 0 <= j < i ==> !eq_ignore_ascii_case_spec(#[trigger] denied@[j]@, key@),
        decreases 7 - i,
    {
        if eq_ignore_ascii_case(denied[i].as_slice(), key) {
            return false;
        }
        i += 1;
    }
    assert(!eq_ignore_ascii_case_spec(denied@[0]@, key@));
    assert(!eq_ignore_ascii_case_spec(denied@[1]@, key@));
    assert(!eq_ignore_ascii_case_spec(denied@[2]@, key@));
    assert(!eq_ignore_ascii_case_spec(denied@[3]@, key@));
    assert(!eq_ignore_ascii_case_spec(denied@[4]@, key@));
    assert(!eq_ignore_ascii_case_spec(denied@[5]@, key@));
    assert(!eq_ignore_ascii_case_spec(denied@[6]@, key@));
    true
}

fn chars_equal(a: &[char], b: &[char]) -> (r: bool)
    ensures
        r == (a@ == b@),
{
    if a.len() != b.len() {
        return false;
    }
    let mut i: usize = 0;
    while i < a.len()
        invariant
            a@.len() == b@.len(),
            i <= a@.len(),
            forall|j: int| 0 <= j < i ==> a@[j] == b@[j],
        decreases a@.len() - i,
    {
        if a[i] != b[i] {
            return false;
        }
        i += 1;
    }
    assert(a@ =~= b@);
    true
}

/// The candidate of the line `chars[from..to]`, with its key's characters.
fn parse_line_range(chars: &[char], from: usize, to: usize) -> (r: Option<(EnvCandidate, Vec<char>)>)
    requires
        from <= to <= chars@.len(),
    ensures
        match r {
            Some((c, k)) => parse_line(chars@.subrange(from as int, to as int)) == Some(c@) && k@
                == c.key@,
            None => parse_line(chars@.subrange(from as int, to as int)) is None,
        },
{
    let ghost line = chars@.subrange(from as int, to as int);
    let (a, b) = trim_range(chars, from, to);
    let ghost t = chars@.subrange(a as int, b as int);
    if a == b || chars[a] == '#' {
        assert(a < b ==> t[0] == chars@[a as int]);
        return None;
    }
    let mut q = a;
    while q < b && chars[q] != '='
        invariant
            a <= q <= b <= chars@.len(),
            forall|j: int| a <= j < q ==> chars@[j] != '=',
        decreases b - q,
    {
        q += 1;
    }
    proof {
        assert forall|j: int| 0 <= j < q - a implies #[trigger] t[j] != '=' by {
            assert(t[j] == chars@[a + j]);
        }
        if q < b {
            assert(t[q - a] == chars@[q as int]);
        }
        lemma_first_index_of(t, '=', (q - a) as nat);
    }
    if q == b {
        return None;
    }
    assert(t.take(q - a) =~= chars@.subrange(a as int, q as int));
    assert(t.skip(q - a + 1) =~= chars@.subrange(q + 1, b as int));
    let (ka, kb) = trim_range(chars, a, q);
    let k0 = strip_export_prefix(chars, ka, kb);
    if k0 == kb {
        return None;
    }
    let (va, vb) = trim_range(chars, q + 1, b);
    let truncated = has_unmatched_leading_quote(chars, va, vb);
    let (sa, sb) = strip_matching_quotes(chars, va, vb);
    let mut key_chars: Vec<char> = Vec::new();
    crate::text::push_char_range(&mut key_chars, chars, k0, kb);
    assert(key_chars@ =~= chars@.subrange(k0 as int, kb as int));
    let included = !truncated && should_include_by_default(key_chars.as_slice(), sb - sa);
    let key = string_from_char_range(chars, k0, kb);
    let value = string_from_char_range(chars, sa, sb);
    Some((EnvCandidate { key, value, included_by_default: included }, key_chars))
}

/// The candidates of the `.env` text `content`: one per key, in the order in which keys first
/// appear; a later line with the same key gives the value, as `.env` files and shells do.
pub fn parse_env_candidates(content: &str) -> (r: Vec<EnvCandidate>)
    ensures
        r@.map_values(|c: EnvCandidate| c@) == env_candidates(content@),
        keys_distinct(r@.map_values(|c: EnvCandidate| c@)),
{
    let chars = chars_of(content);
    let n = chars.len();
    let mut out: Vec<EnvCandidate> = Vec::new();
    let mut keys: Vec<Vec<char>> = Vec::new();
    let ghost mut done: Seq<EnvCandidateView> = Seq::empty();
    let mut pos: usize = 0;
    let mut finished = false;
    assert(chars@.skip(0) =~= chars@);
    assert(line_entries(chars@) =~= done + line_entries(chars@.skip(0)));
    while !finished
        invariant
            n == chars@.len(),
            chars@ == content@,
            pos <= n,
            finished ==> done == line_entries(chars@),
            !finished ==> line_entries(chars@) == done + line_entries(chars@.skip(pos as int)),
            out@.map_values(|c: EnvCandidate| c@) == merged(done),
            keys@.len() == out@.len(),
            forall|i: int| 0 <= i < keys@.len() ==> (#[trigger] keys@[i])@ == out@[i].key@,
            keys_distinct(out@.map_values(|c: EnvCandidate| c@)),
        decreases n - pos + (if finished { 0int } else { 1int }),
    {
        let mut e = pos;
        while e < n && chars[e] != '\n'
            invariant
                pos <= e <= n == chars@.len(),
                forall|j: int| pos <= j < e ==> chars@[j] != '\n',
            decreases n - e,
        {
            e += 1;
        }
        proof {
            lemma_line_entries_step(chars@, pos as int, e as int);
        }
        let ghost prev_done = done;
        let ghost opt_seq = match parse_line(chars@.subrange(pos as int, e as int)) {
            Some(c) => seq![c],
            None => Seq::<EnvCandidateView>::empty(),
        };
        let parsed = parse_line_range(chars.as_slice(), pos, e);
        match parsed {
            Some((cand, key_chars)) => {
                let ghost old_view = out@.map_values(|c: EnvCandidate| c@);
                let ghost cv = cand@;
                proof {
                    lemma_merged_push(done, cv);
                    done = done.push(cv);
                }
                let mut i: usize = 0;
                let mut found = false;
                while i < keys.len() && !found
                    invariant
                        keys@.len() == out@.len(),
                        old_view == out@.map_values(|c: EnvCandidate| c@),
                        forall|k: int| 0 <= k < keys@.len() ==> (#[trigger] keys@[k])@ == out@[k].key@,
                        key_chars@ == cv.key,
                        i <= keys@.len(),
                        forall|k: int| 0 <= k < i ==> old_view[k].key != cv.key,
                        found ==> i < keys@.len() && old_view[i as int].key == cv.key,
                    decreases keys@.len() - i + (if found { 0int } else { 1int }),
                {
                    if chars_equal(keys[i].as_slice(), key_chars.as_slice()) {
                        found = true;
                    } else {
                        i += 1;
                    }
                }
                proof {
                    lemma_key_position(old_view, cv.key, i as nat);
                }
                if found {
                    out.set(i, cand);
                    proof {
                        assert(out@.map_values(|c: EnvCandidate| c@) =~= old_view.update(
                            i as int,
                            cv,
                        ));
                    }
                } else {
                    out.push(cand);
                    keys.push(key_chars);
                    proof {
                        assert(out@.map_values(|c: EnvCandidate| c@) =~= old_view.push(cv));
                    }
                }
                proof {
                    let nv = out@.map_values(|c: EnvCandidate| c@);
                    assert forall|a: int, b: int| 0 <= a < b < nv.len() implies #[trigger] nv[a].key
                        != #[trigger] nv[b].key by {
                        if found {
                            if a == i {
                                assert(nv[b].key == old_view[b].key);
                                assert(old_view[i as int].key != old_view[b].key);
                            } else if b == i {
                                assert(old_view[a].key != old_view[i as int].key);
                            } else {
                                assert(old_view[a].key != old_view[b].key);
                            }
                        } else {
                            if b == old_view.len() {
                                assert(old_view[a].key != cv.key);
                            } else {
                                assert(old_view[a].key != old_view[b].key);
                            }
                        }
                    }
                }
            },
            None => {},
        }
        assert(done =~= prev_done + opt_seq);
        if e < n {
            assert(line_entries(chars@) =~= done + line_entries(chars@.skip(e + 1)));
            pos = e + 1;
        } else {
            assert(line_entries(chars@) =~= done);
            finished = true;
        }
    }
    out
}

} // verus!
