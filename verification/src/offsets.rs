//! Byte offsets of the UTF-8 encoding of a text against the positions of its characters.

use vstd::prelude::*;
use vstd::utf8::*;

verus! {

/// The number of UTF-8 bytes of the first `k` characters of `t`.
pub open spec fn byte_len(t: Seq<char>, k: int) -> int {
    encode_utf8(t.take(k)).len() as int
}

/// The number of UTF-8 bytes that encode `c`.
pub open spec fn char_width(c: char) -> int {
    encode_scalar(c as u32).len() as int
}

/// The character position whose UTF-8 byte offset in `t` is `b`.
pub open spec fn char_index_of(t: Seq<char>, b: int) -> int {
    choose|k: int| 0 <= k <= t.len() && byte_len(t, k) == b
}

pub proof fn lemma_char_width_pos(c: char)
    ensures
        1 <= char_width(c) <= 4,
{
    char_is_scalar(c);
}

pub proof fn lemma_encode_utf8_concat(a: Seq<char>, b: Seq<char>)
    ensures
        encode_utf8(a + b) == encode_utf8(a) + encode_utf8(b),
    decreases a.len(),
{
    if a.len() == 0 {
        assert(a + b =~= b);
        assert(encode_utf8(a) =~= Seq::<u8>::empty());
        assert(encode_utf8(a) + encode_utf8(b) =~= encode_utf8(b));
    } else {
        assert((a + b)[0] == a[0]);
        assert((a + b).drop_first() =~= a.drop_first() + b);
        lemma_encode_utf8_concat(a.drop_first(), b);
        assert(encode_utf8(a + b) =~= encode_utf8(a) + encode_utf8(b));
    }
}

proof fn lemma_encode_single(c: char)
    ensures
        encode_utf8(seq![c]) == encode_scalar(c as u32),
{
    let s = seq![c];
    assert(s.drop_first() =~= Seq::<char>::empty());
    let e = Seq::<char>::empty();
    assert(encode_utf8(e) =~= Seq::<u8>::empty());
    assert(encode_utf8(s) == encode_scalar(c as u32) + encode_utf8(s.drop_first()));
    assert(encode_scalar(c as u32) + Seq::<u8>::empty() =~= encode_scalar(c as u32));
}

pub proof fn lemma_byte_len_step(t: Seq<char>, k: int)
    requires
        0 <= k < t.len(),
    ensures
        byte_len(t, k + 1) == byte_len(t, k) + char_width(t[k]),
{
    assert(t.take(k + 1) =~= t.take(k) + seq![t[k]]);
    lemma_encode_utf8_concat(t.take(k), seq![t[k]]);
    lemma_encode_single(t[k]);
}

pub proof fn lemma_byte_len_zero(t: Seq<char>)
    ensures
        byte_len(t, 0) == 0,
{
    assert(t.take(0) =~= Seq::<char>::empty());
}

pub proof fn lemma_byte_len_full(t: Seq<char>)
    ensures
        byte_len(t, t.len() as int) == encode_utf8(t).len(),
{
    assert(t.take(t.len() as int) =~= t);
}

/// Byte offsets grow strictly with character positions.
pub proof fn lemma_byte_len_strict(t: Seq<char>, i: int, j: int)
    requires
        0 <= i < j <= t.len(),
    ensures
        byte_len(t, i) < byte_len(t, j),
    decreases j - i,
{
    lemma_byte_len_step(t, j - 1);
    lemma_char_width_pos(t[j - 1]);
    if i < j - 1 {
        lemma_byte_len_strict(t, i, j - 1);
    }
}

pub proof fn lemma_byte_len_mono(t: Seq<char>, i: int, j: int)
    requires
        0 <= i <= j <= t.len(),
    ensures
        byte_len(t, i) <= byte_len(t, j),
        i < j ==> byte_len(t, i) < byte_len(t, j),
{
    if i < j {
        lemma_byte_len_strict(t, i, j);
    }
}

/// Every character boundary of the encoding of `t` is the offset of some character position.
pub proof fn lemma_boundary_has_index(t: Seq<char>, b: int)
    requires
        is_char_boundary(encode_utf8(t), b),
    ensures
        exists|k: int| 0 <= k <= t.len() && byte_len(t, k) == b,
    decreases t.len(),
{
    let bytes = encode_utf8(t);
    encode_utf8_valid_utf8(t);
    if b == 0 {
        lemma_byte_len_zero(t);
    } else {
        assert(t.len() > 0) by {
            if t.len() == 0 {
                assert(bytes.len() == 0);
            }
        }
        encode_utf8_first_scalar(t);
        let w = length_of_first_scalar(bytes);
        assert(pop_first_scalar(bytes) =~= encode_utf8(t.drop_first()));
        let rest = t.drop_first();
        lemma_boundary_has_index(rest, b - w);
        let k2 = choose|k: int| 0 <= k <= rest.len() && byte_len(rest, k) == b - w;
        assert(t.take(k2 + 1) =~= seq![t[0]] + rest.take(k2));
        lemma_encode_utf8_concat(seq![t[0]], rest.take(k2));
        lemma_encode_single(t[0]);
        assert(byte_len(t, k2 + 1) == b);
    }
}

/// `char_index_of` finds the unique position of a character boundary.
pub proof fn lemma_char_index_of(t: Seq<char>, b: int)
    requires
        is_char_boundary(encode_utf8(t), b),
    ensures
        0 <= char_index_of(t, b) <= t.len(),
        byte_len(t, char_index_of(t, b)) == b,
        forall|k: int| 0 <= k <= t.len() && byte_len(t, k) == b ==> k == char_index_of(t, b),
{
    lemma_boundary_has_index(t, b);
    let c = char_index_of(t, b);
    assert forall|k: int| 0 <= k <= t.len() && byte_len(t, k) == b implies k == c by {
        if k < c {
            lemma_byte_len_strict(t, k, c);
        } else if c < k {
            lemma_byte_len_strict(t, c, k);
        }
    }
}

/// The number of UTF-8 bytes that encode `c`.
pub fn utf8_width(c: char) -> (r: usize)
    ensures
        r == char_width(c),
{
    proof {
        char_is_scalar(c);
    }
    let u = c as u32;
    if u <= 0x7F {
        1
    } else if u <= 0x7FF {
        2
    } else if u <= 0xFFFF {
        3
    } else {
        4
    }
}

/// The byte offset of every character position of `text`, from 0 to the number of characters.
pub fn byte_offsets(text: &str, chars: &[char]) -> (r: Vec<usize>)
    requires
        chars@ == text@,
    ensures
        r@.len() == chars@.len() + 1,
        forall|k: int| 0 <= k <= chars@.len() ==> #[trigger] r@[k] == byte_len(text@, k),
{
    let total = text.as_bytes().len();
    proof {
        lemma_byte_len_full(text@);
    }
    let mut r: Vec<usize> = Vec::new();
    r.push(0);
    proof {
        lemma_byte_len_zero(text@);
    }
    let mut acc: usize = 0;
    let mut k: usize = 0;
    while k < chars.len()
        invariant
            chars@ == text@,
            k <= chars@.len(),
            total == encode_utf8(text@).len(),
            r@.len() == k + 1,
            acc == byte_len(text@, k as int),
            forall|j: int| 0 <= j <= k ==> #[trigger] r@[j] == byte_len(text@, j),
        decreases chars@.len() - k,
    {
        let w = utf8_width(chars[k]);
        proof {
            lemma_byte_len_step(text@, k as int);
            lemma_byte_len_mono(text@, k + 1, chars@.len() as int);
            lemma_byte_len_full(text@);
        }
        acc = acc + w;
        r.push(acc);
        k += 1;
    }
    r
}

/// The position `k` with `offsets[k] == b`, given that one exists in the strictly increasing
/// `offsets`.
pub fn index_of_offset(offsets: &[usize], b: usize) -> (r: usize)
    requires
        forall|i: int, j: int| 0 <= i < j < offsets@.len() ==> offsets@[i] < offsets@[j],
        exists|k: int| 0 <= k < offsets@.len() && offsets@[k] == b,
    ensures
        r < offsets@.len(),
        offsets@[r as int] == b,
{
    let mut lo: usize = 0;
    let mut hi: usize = offsets.len();
    while lo + 1 < hi
        invariant
            lo < hi <= offsets@.len(),
            forall|i: int, j: int| 0 <= i < j < offsets@.len() ==> offsets@[i] < offsets@[j],
            exists|k: int| lo <= k < hi && offsets@[k] == b,
        decreases hi - lo,
    {
        let mid = lo + (hi - lo) / 2;
        if offsets[mid] <= b {
            lo = mid;
        } else {
            hi = mid;
        }
    }
    lo
}

} // verus!
