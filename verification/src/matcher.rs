//! Matching one rule's pattern (a literal or a regular expression) against a text.

use vstd::prelude::*;
use vstd::utf8::*;

use crate::models::{PatternType, Rule, RuleView, REGEX_SIZE_LIMIT_BYTES};
use crate::offsets::{
    byte_len, byte_offsets, char_index_of, index_of_offset, lemma_byte_len_mono,
    lemma_byte_len_strict, lemma_char_index_of,
};
use crate::regex_engine::{compile_regex, find_spans, regex_find_spans, CompiledRegex};
use crate::text::{chars_of, string_from_char_range};

verus! {

/// The leftmost, non-overlapping occurrences of `pat` in `t` at or after position `i`, scanning
/// left to right, as character ranges. An empty pattern has no (non-empty) occurrence.
pub open spec fn literal_occurrences_from(pat: Seq<char>, t: Seq<char>, i: int) -> Seq<(int, int)>
    decreases t.len() - i,
{
    if pat.len() == 0 || i < 0 || i + pat.len() > t.len() {
        seq![]
    } else if t.subrange(i, i + pat.len()) == pat {
        seq![(i, i + pat.len())] + literal_occurrences_from(pat, t, i + pat.len())
    } else {
        literal_occurrences_from(pat, t, i + 1)
    }
}

pub open spec fn literal_occurrences(pat: Seq<char>, t: Seq<char>) -> Seq<(int, int)> {
    literal_occurrences_from(pat, t, 0)
}

/// The non-empty byte ranges `spans` of the encoding of `t`, as character ranges.
pub open spec fn regex_char_spans(t: Seq<char>, spans: Seq<(usize, usize)>) -> Seq<(int, int)>
    decreases spans.len(),
{
    if spans.len() == 0 {
        seq![]
    } else {
        let prev = regex_char_spans(t, spans.drop_last());
        let s = spans.last();
        if s.0 < s.1 {
            prev.push((char_index_of(t, s.0 as int), char_index_of(t, s.1 as int)))
        } else {
            prev
        }
    }
}

/// The non-empty matches of rule `r` in `t`, as character ranges in the order of the text.
/// Empty matches are left out: they would protect nothing.
pub open spec fn rule_spans(r: RuleView, t: Seq<char>) -> Seq<(int, int)> {
    if r.pattern_type == PatternType::Literal {
        literal_occurrences(r.pattern, t)
    } else {
        regex_char_spans(t, regex_find_spans(r.pattern, t))
    }
}

/// Character ranges of a text of `n` characters that are non-empty, in the text, and in order
/// without overlap.
pub open spec fn spans_ordered(s: Seq<(int, int)>, n: int) -> bool {
    &&& forall|i: int| 0 <= i < s.len() ==> 0 <= (#[trigger] s[i]).0 < s[i].1 <= n
    &&& forall|i: int, j: int| 0 <= i < j < s.len() ==> (#[trigger] s[i]).1 <= (#[trigger] s[j]).0
}

pub open spec fn spans_int(v: Seq<(usize, usize)>) -> Seq<(int, int)> {
    v.map_values(|p: (usize, usize)| (p.0 as int, p.1 as int))
}

/// A rule's pattern, ready to search with.
pub enum PatternMatcher {
    Literal(Vec<char>),
    Regex(CompiledRegex),
}

/// `m` searches for the pattern of `r`.
pub open spec fn matcher_for(m: PatternMatcher, r: RuleView) -> bool {
    match m {
        PatternMatcher::Literal(p) => r.pattern_type == PatternType::Literal && p@ == r.pattern,
        PatternMatcher::Regex(c) => r.pattern_type == PatternType::Regex && c.source() == r.pattern,
    }
}

/// Prepares the pattern of `rule` for searching. A literal pattern is searched for verbatim; a
/// regular expression is compiled (which succeeds: the rule was validated when it was built).
pub fn compile_rule_pattern(rule: &Rule) -> (m: PatternMatcher)
    ensures
        matcher_for(m, rule@),
{
    proof {
        use_type_invariant(rule);
    }
    match rule.pattern_type() {
        PatternType::Literal => PatternMatcher::Literal(chars_of(rule.pattern())),
        PatternType::Regex => match compile_regex(rule.pattern(), REGEX_SIZE_LIMIT_BYTES) {
            Ok(c) => PatternMatcher::Regex(c),
            Err(_) => {
                assert(false);
                PatternMatcher::Literal(Vec::new())
            },
        },
    }
}

fn matches_at(pat: &[char], t: &[char], i: usize) -> (r: bool)
    requires
        i + pat@.len() <= t@.len(),
    ensures
        r == (t@.subrange(i as int, i + pat@.len()) == pat@),
{
    let n = t.len();
    let mut k: usize = 0;
    while k < pat.len()
        invariant
            n == t@.len(),
            i + pat@.len() <= t@.len(),
            k <= pat@.len(),
            forall|j: int| 0 <= j < k ==> t@[i + j] == pat@[j],
        decreases pat@.len() - k,
    {
        if t[i + k] != pat[k] {
            assert(t@.subrange(i as int, i + pat@.len())[k as int] != pat@[k as int]);
            return false;
        }
        k += 1;
    }
    assert(t@.subrange(i as int, i + pat@.len()) =~= pat@);
    true
}

proof fn lemma_literal_ordered(pat: Seq<char>, t: Seq<char>, i: int)
    requires
        0 <= i,
    ensures
        spans_ordered(literal_occurrences_from(pat, t, i), t.len() as int),
        forall|k: int|
            0 <= k < literal_occurrences_from(pat, t, i).len() ==> i <= (
            #[trigger] literal_occurrences_from(pat, t, i)[k]).0,
    decreases t.len() - i,
{
    if pat.len() == 0 || i + pat.len() > t.len() {
    } else if t.subrange(i, i + pat.len()) == pat {
        lemma_literal_ordered(pat, t, i + pat.len());
        let rest = literal_occurrences_from(pat, t, i + pat.len());
        let all = seq![(i, i + pat.len())] + rest;
        assert forall|a: int, b: int| 0 <= a < b < all.len() implies (#[trigger] all[a]).1 <= (
        #[trigger] all[b]).0 by {
            if a > 0 {
                assert(all[a] == rest[a - 1]);
                assert(all[b] == rest[b - 1]);
            } else {
                assert(all[b] == rest[b - 1]);
            }
        }
        assert forall|k: int| 0 <= k < all.len() implies 0 <= (#[trigger] all[k]).0 < all[k].1
            <= t.len() && i <= all[k].0 by {
            if k > 0 {
                assert(all[k] == rest[k - 1]);
            }
        }
    } else {
        lemma_literal_ordered(pat, t, i + 1);
    }
}

/// `pat` occurs in `t` at position `j`.
pub open spec fn occurs_at(pat: Seq<char>, t: Seq<char>, j: int) -> bool {
    0 <= j && j + pat.len() <= t.len() && t.subrange(j, j + pat.len()) == pat
}

proof fn lemma_literal_spans_are_occurrences(pat: Seq<char>, t: Seq<char>, i: int)
    requires
        0 <= i,
    ensures
        forall|k: int|
            0 <= k < literal_occurrences_from(pat, t, i).len() ==> occurs_at(
                pat,
                t,
                (#[trigger] literal_occurrences_from(pat, t, i)[k]).0,
            ) && literal_occurrences_from(pat, t, i)[k].1 == literal_occurrences_from(pat, t, i)[k].0
                + pat.len(),
    decreases t.len() - i,
{
    if pat.len() == 0 || i + pat.len() > t.len() {
    } else if t.subrange(i, i + pat.len()) == pat {
        lemma_literal_spans_are_occurrences(pat, t, i + pat.len());
        let rest = literal_occurrences_from(pat, t, i + pat.len());
        let all = seq![(i, i + pat.len())] + rest;
        assert(literal_occurrences_from(pat, t, i) == all);
        assert forall|k: int| 0 <= k < all.len() implies occurs_at(pat, t, (#[trigger] all[k]).0) && all[k].1
            == all[k].0 + pat.len() by {
            if k > 0 {
                assert(all[k] == rest[k - 1]);
            }
        }
    } else {
        lemma_literal_spans_are_occurrences(pat, t, i + 1);
        assert(literal_occurrences_from(pat, t, i) == literal_occurrences_from(pat, t, i + 1));
    }
}

proof fn lemma_literal_misses_nothing(pat: Seq<char>, t: Seq<char>, i: int, j: int)
    requires
        0 <= i <= j,
        pat.len() > 0,
        occurs_at(pat, t, j),
    ensures
        exists|k: int|
            0 <= k < literal_occurrences_from(pat, t, i).len() && (#[trigger] literal_occurrences_from(
                pat,
                t,
                i,
            )[k]).0 < j + pat.len() && j < literal_occurrences_from(pat, t, i)[k].1,
    decreases t.len() - i,
{
    let m = pat.len() as int;
    if i + m > t.len() {
        assert(false);
    } else if t.subrange(i, i + m) == pat {
        let rest = literal_occurrences_from(pat, t, i + m);
        let all = seq![(i, i + m)] + rest;
        assert(literal_occurrences_from(pat, t, i) == all);
        if j < i + m {
            assert(all[0] == (i, i + m));
            assert(literal_occurrences_from(pat, t, i)[0] == (i, i + m));
        } else {
            lemma_literal_misses_nothing(pat, t, i + m, j);
            let k = choose|k: int| 0 <= k < rest.len() && (#[trigger] rest[k]).0 < j + m && j < rest[k].1;
            assert(all[k + 1] == rest[k]);
            assert(literal_occurrences_from(pat, t, i)[k + 1] == rest[k]);
        }
    } else {
        if j == i {
            assert(false);
        }
        lemma_literal_misses_nothing(pat, t, i + 1, j);
        let r1 = literal_occurrences_from(pat, t, i + 1);
        assert(literal_occurrences_from(pat, t, i) == r1);
        let k = choose|k: int| 0 <= k < r1.len() && (#[trigger] r1[k]).0 < j + m && j < r1[k].1;
        assert(literal_occurrences_from(pat, t, i)[k] == r1[k]);
    }
}

/// A literal rule finds its pattern wherever it occurs: each reported range holds the pattern,
/// the ranges come left to right without overlapping, and every occurrence of the pattern in the
/// text overlaps a reported range (so no copy of it is left out of the masking). An empty
/// pattern finds nothing.
pub proof fn law_literal_matches_are_every_occurrence(pat: Seq<char>, t: Seq<char>)
    ensures
        spans_ordered(literal_occurrences(pat, t), t.len() as int),
        forall|k: int|
            0 <= k < literal_occurrences(pat, t).len() ==> occurs_at(pat, t, (#[trigger] literal_occurrences(pat, t)[k]).0)
                && literal_occurrences(pat, t)[k].1 == literal_occurrences(pat, t)[k].0 + pat.len(),
        pat.len() > 0 ==> forall|j: int|
            #[trigger] occurs_at(pat, t, j) ==> exists|k: int|
                0 <= k < literal_occurrences(pat, t).len() && (#[trigger] literal_occurrences(pat, t)[k]).0 < j
                    + pat.len() && j < literal_occurrences(pat, t)[k].1,
        pat.len() == 0 ==> literal_occurrences(pat, t).len() == 0,
{
    lemma_literal_ordered(pat, t, 0);
    lemma_literal_spans_are_occurrences(pat, t, 0);
    if pat.len() > 0 {
        assert forall|j: int| #[trigger] occurs_at(pat, t, j) implies exists|k: int|
            0 <= k < literal_occurrences(pat, t).len() && (#[trigger] literal_occurrences(pat, t)[k]).0 < j
                + pat.len() && j < literal_occurrences(pat, t)[k].1 by {
            lemma_literal_misses_nothing(pat, t, 0, j);
            let s0 = literal_occurrences_from(pat, t, 0);
            assert(literal_occurrences(pat, t) == s0);
            let k = choose|k: int| 0 <= k < s0.len() && (#[trigger] s0[k]).0 < j + pat.len() && j < s0[k].1;
            assert(literal_occurrences(pat, t)[k] == s0[k]);
        }
    }
}

/// The leftmost non-overlapping occurrences of `pat` in `t`.
pub fn find_literal(pat: &[char], t: &[char]) -> (r: Vec<(usize, usize)>)
    ensures
        spans_int(r@) == literal_occurrences(pat@, t@),
        spans_ordered(spans_int(r@), t@.len() as int),
{
    let mut r: Vec<(usize, usize)> = Vec::new();
    let m = pat.len();
    let n = t.len();
    proof {
        lemma_literal_ordered(pat@, t@, 0);
    }
    if m == 0 {
        assert(spans_int(r@) =~= literal_occurrences(pat@, t@));
        return r;
    }
    let mut i: usize = 0;
    while i <= n && n - i >= m
        invariant
            m == pat@.len() > 0,
            n == t@.len(),
            spans_int(r@) + literal_occurrences_from(pat@, t@, i as int) == literal_occurrences(
                pat@,
                t@,
            ),
        decreases n + 1 - i,
    {
        let ghost before = spans_int(r@);
        if matches_at(pat, t, i) {
            r.push((i, i + m));
            proof {
                assert(spans_int(r@) =~= before.push((i as int, i + m)));
                assert(before + literal_occurrences_from(pat@, t@, i as int) =~= spans_int(r@)
                    + literal_occurrences_from(pat@, t@, i + m));
            }
            i = i + m;
        } else {
            i = i + 1;
        }
    }
    assert(literal_occurrences_from(pat@, t@, i as int) =~= Seq::<(int, int)>::empty());
    assert(spans_int(r@) + Seq::<(int, int)>::empty() =~= spans_int(r@));
    r
}

/// The non-empty regular-expression matches of `c` in `text`, as character ranges.
#[verifier::rlimit(100)]
#[verifier::spinoff_prover]
fn regex_spans_in_chars(c: &CompiledRegex, text: &str, offsets: &[usize]) -> (r: Vec<(usize, usize)>)
    requires
        offsets@.len() == text@.len() + 1,
        forall|k: int| 0 <= k <= text@.len() ==> #[trigger] offsets@[k] == byte_len(text@, k),
    ensures
        spans_int(r@) == regex_char_spans(text@, regex_find_spans(c.source(), text@)),
        spans_ordered(spans_int(r@), text@.len() as int),
{
    let spans = find_spans(c, text);
    let ghost t = text@;
    let ghost sp = spans@;
    proof {
        assert forall|i: int, j: int| 0 <= i < j < offsets@.len() implies offsets@[i]
            < offsets@[j] by {
            lemma_byte_len_strict(t, i, j);
        }
    }
    let mut r: Vec<(usize, usize)> = Vec::new();
    let mut i: usize = 0;
    let ghost mut frontier: int = 0;
    while i < spans.len()
        invariant
            t == text@,
            sp == spans@,
            spans_well_formed_local(sp, t),
            offsets@.len() == t.len() + 1,
            forall|k: int| 0 <= k <= t.len() ==> #[trigger] offsets@[k] == byte_len(t, k),
            forall|a: int, b: int| 0 <= a < b < offsets@.len() ==> offsets@[a] < offsets@[b],
            i <= sp.len(),
            spans_int(r@) == regex_char_spans(t, sp.take(i as int)),
            0 <= frontier <= t.len(),
            i > 0 ==> byte_len(t, frontier) == sp[i - 1].1,
            spans_ordered(spans_int(r@), t.len() as int),
            forall|k: int| 0 <= k < r@.len() ==> (#[trigger] r@[k]).1 <= frontier,
        decreases sp.len() - i,
    {
        let (b, e) = spans[i];
        proof {
            assert(sp[i as int] == (b, e));
            assert(is_char_boundary(encode_utf8(t), b as int));
            assert(is_char_boundary(encode_utf8(t), e as int));
            lemma_char_index_of(t, b as int);
            lemma_char_index_of(t, e as int);
            assert(sp.take(i + 1).drop_last() =~= sp.take(i as int));
        }
        let ghost cb = char_index_of(t, b as int);
        let ghost ce = char_index_of(t, e as int);
        proof {
            if i > 0 {
                assert(sp[i - 1].1 <= sp[i as int].0);
                if cb < frontier {
                    lemma_byte_len_strict(t, cb, frontier);
                }
            }
            if ce < cb {
                lemma_byte_len_strict(t, ce, cb);
            }
        }
        if b < e {
            assert(offsets@[cb] == b);
            assert(offsets@[ce] == e);
            let kb = index_of_offset(offsets, b);
            let ke = index_of_offset(offsets, e);
            proof {
                if cb == ce {
                    assert(b == e);
                }
            }
            let ghost before = spans_int(r@);
            r.push((kb, ke));
            proof {
                assert(spans_int(r@) =~= before.push((cb, ce)));
                assert(regex_char_spans(t, sp.take(i + 1)) == before.push((cb, ce)));
            }
        } else {
            proof {
                assert(regex_char_spans(t, sp.take(i + 1)) == regex_char_spans(t, sp.take(i as int)));
            }
        }
        proof {
            frontier = ce;
        }
        i += 1;
    }
    assert(sp.take(sp.len() as int) =~= sp);
    r
}

/// The facts of `spans_well_formed` that the conversion above relies on, with the ordering stated
/// for consecutive matches.
pub open spec fn spans_well_formed_local(spans: Seq<(usize, usize)>, text: Seq<char>) -> bool {
    crate::regex_engine::spans_well_formed(spans, text)
}

/// The non-empty matches of the pattern of `m` in `text`, as character ranges.
pub fn matcher_spans(m: &PatternMatcher, text: &str, chars: &[char], offsets: &[usize]) -> (r: Vec<
    (usize, usize),
>)
    requires
        chars@ == text@,
        offsets@.len() == text@.len() + 1,
        forall|k: int| 0 <= k <= text@.len() ==> #[trigger] offsets@[k] == byte_len(text@, k),
    ensures
        forall|rv: RuleView| matcher_for(*m, rv) ==> spans_int(r@) == rule_spans(rv, text@),
        spans_ordered(spans_int(r@), text@.len() as int),
{
    match m {
        PatternMatcher::Literal(p) => find_literal(p, chars),
        PatternMatcher::Regex(c) => regex_spans_in_chars(c, text, offsets),
    }
}

/// One match of a rule in a text: its byte range, the matched text and the rule's name.
#[derive(Debug, Clone, PartialEq, Eq)]
pub struct MatchSpan {
    pub start: usize,
    pub end: usize,
    pub matched_text: String,
    pub rule_name: String,
}

/// `m` reports the character range `span` of `t`, found by the rule named `name`.
pub open spec fn match_span_is(m: MatchSpan, t: Seq<char>, span: (int, int), name: Seq<char>) -> bool {
    &&& m.start == byte_len(t, span.0)
    &&& m.end == byte_len(t, span.1)
    &&& m.matched_text@ == t.subrange(span.0, span.1)
    &&& m.rule_name@ == name
}

/// The non-overlapping matches of `rule` in `text`, left to right, leaving out empty matches (an
/// empty match protects nothing and would only hide later rules). A disabled rule matches nothing.
pub fn find_matches(text: &str, rule: &Rule) -> (r: Vec<MatchSpan>)
    ensures
        !rule@.enabled ==> r@.len() == 0,
        rule@.enabled ==> spans_ordered(rule_spans(rule@, text@), text@.len() as int),
        rule@.enabled ==> r@.len() == rule_spans(rule@, text@).len() && forall|i: int|
            0 <= i < r@.len() ==> match_span_is(
                #[trigger] r@[i],
                text@,
                rule_spans(rule@, text@)[i],
                rule@.name,
            ),
{
    if !rule.enabled() {
        return Vec::new();
    }
    let chars = chars_of(text);
    let offsets = byte_offsets(text, &chars);
    let m = compile_rule_pattern(rule);
    let spans = matcher_spans(&m, text, &chars, &offsets);
    let ghost expected = rule_spans(rule@, text@);
    let name = rule.name();
    let mut r: Vec<MatchSpan> = Vec::new();
    let mut i: usize = 0;
    while i < spans.len()
        invariant
            chars@ == text@,
            offsets@.len() == text@.len() + 1,
            forall|k: int| 0 <= k <= text@.len() ==> #[trigger] offsets@[k] == byte_len(text@, k),
            spans_int(spans@) == expected,
            spans_ordered(expected, text@.len() as int),
            name@ == rule@.name,
            i <= spans@.len(),
            r@.len() == i,
            forall|k: int| 0 <= k < i ==> match_span_is(#[trigger] r@[k], text@, expected[k], rule@.name),
        decreases spans@.len() - i,
    {
        let (a, b) = spans[i];
        assert(expected[i as int] == (a as int, b as int));
        let matched_text = string_from_char_range(&chars, a, b);
        r.push(MatchSpan { start: offsets[a], end: offsets[b], matched_text, rule_name: name.to_owned() });
        i += 1;
    }
    r
}

} // verus!
