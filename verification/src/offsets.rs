//! Byte offsets into UTF-8 text. The parser walks characters and reports
//! positions in bytes; this module relates the two.
use vstd::prelude::*;
use vstd::utf8::*;

verus! {

/// The number of bytes that `c` takes in UTF-8.
pub open spec fn width(c: char) -> int {
    encode_scalar(c as u32).len() as int
}

/// The byte offset at which the character of index `i` starts in the UTF-8
/// encoding of `s`; for `i == s.len()` it is the length of the encoding.
pub open spec fn offset(s: Seq<char>, i: int) -> int {
    encode_utf8(s.subrange(0, i)).len() as int
}

pub fn width_of(c: char) -> (w: usize)
    ensures
        w == width(c),
        1 <= w <= 4,
{
    let v: u32 = c as u32;
    if v < 0x80 {
        1
    } else if v < 0x800 {
        2
    } else if v < 0x10000 {
        3
    } else {
        4
    }
}

/// Encoding distributes over concatenation.
pub proof fn lemma_encode_concat(a: Seq<char>, b: Seq<char>)
    ensures
        encode_utf8(a + b) == encode_utf8(a) + encode_utf8(b),
    decreases a.len(),
{
    if a.len() > 0 {
        lemma_encode_concat(a.drop_first(), b);
        assert((a + b).drop_first() =~= a.drop_first() + b);
    }
}

/// A single character encodes to its scalar's bytes.
pub proof fn lemma_encode_one(c: char)
    ensures
        encode_utf8(seq![c]) == encode_scalar(c as u32),
        1 <= width(c) <= 4,
{
    reveal_with_fuel(encode_utf8, 2);
}

/// The bytes between two character indices are the encoding of the
/// characters between them.
pub proof fn lemma_slice_bytes(s: Seq<char>, i: int, j: int)
    requires
        0 <= i <= j <= s.len(),
    ensures
        0 <= offset(s, i) <= offset(s, j) <= encode_utf8(s).len(),
        encode_utf8(s).subrange(offset(s, i), offset(s, j)) == encode_utf8(s.subrange(i, j)),
        offset(s, j) == offset(s, i) + encode_utf8(s.subrange(i, j)).len(),
{
    let a = s.subrange(0, i);
    let b = s.subrange(i, j);
    let c = s.subrange(j, s.len() as int);
    lemma_encode_concat(a, b);
    lemma_encode_concat(a + b, c);
    assert(a + b =~= s.subrange(0, j));
    assert((a + b) + c =~= s);
}

/// Offsets start at zero and end at the length of the encoding.
pub proof fn lemma_offset_ends(s: Seq<char>)
    ensures
        offset(s, 0) == 0,
        offset(s, s.len() as int) == encode_utf8(s).len(),
{
    assert(s.subrange(0, s.len() as int) =~= s);
}

/// Stepping over one character moves the offset by that character's width.
pub proof fn lemma_offset_step(s: Seq<char>, i: int)
    requires
        0 <= i < s.len(),
    ensures
        offset(s, i + 1) == offset(s, i) + width(s[i]),
        offset(s, i) < offset(s, i + 1) <= encode_utf8(s).len(),
{
    lemma_slice_bytes(s, i, i + 1);
    assert(s.subrange(i, i + 1) =~= seq![s[i]]);
    lemma_encode_one(s[i]);
}

/// Two texts with the same encoding are the same text.
pub proof fn lemma_encode_injective(a: Seq<char>, b: Seq<char>)
    requires
        encode_utf8(a) == encode_utf8(b),
    ensures
        a == b,
{
    encode_utf8_decode_utf8(a);
    encode_utf8_decode_utf8(b);
}

/// Every offset of a character index is a character boundary of the
/// encoding.
pub proof fn lemma_offset_boundary(s: Seq<char>, i: int)
    requires
        0 <= i <= s.len(),
    ensures
        is_char_boundary(encode_utf8(s), offset(s, i)),
    decreases i,
{
    let bytes = encode_utf8(s);
    encode_utf8_valid_utf8(s);
    if i > 0 {
        let rest = s.drop_first();
        encode_utf8_first_scalar(s);
        assert(pop_first_scalar(bytes) =~= encode_utf8(rest));
        lemma_offset_boundary(rest, i - 1);
        lemma_slice_bytes(s, 1, i);
        lemma_offset_step(s, 0);
        assert(s.subrange(1, i) =~= rest.subrange(0, i - 1));
    }
}

/// Whether two texts are the same, decided on their bytes.
pub fn same_text(a: &str, b: &str) -> (r: bool)
    ensures
        r == (a@ == b@),
{
    let x = a.as_bytes();
    let y = b.as_bytes();
    if x.len() != y.len() {
        return false;
    }
    let mut k: usize = 0;
    while k < x.len()
        invariant
            k <= x.len(),
            x.len() == y.len(),
            x@ == encode_utf8(a@),
            y@ == encode_utf8(b@),
            forall|m: int| 0 <= m < k ==> x@[m] == y@[m],
        decreases x.len() - k,
    {
        if x[k] != y[k] {
            return false;
        }
        k = k + 1;
    }
    proof {
        assert(x@ =~= y@);
        lemma_encode_injective(a@, b@);
    }
    true
}

/// The part of `s` between two byte offsets that stand at the character
/// indices `i` and `j`.
pub(crate) fn substring<'a>(
    s: &'a str,
    start: usize,
    end: usize,
    Ghost(i): Ghost<int>,
    Ghost(j): Ghost<int>,
) -> (r: &'a str)
    requires
        0 <= i <= j <= s@.len(),
        start == offset(s@, i),
        end == offset(s@, j),
    ensures
        r@ == s@.subrange(i, j),
{
    proof {
        lemma_offset_boundary(s@, j);
        lemma_slice_bytes(s@, 0, j);
    }
    let (head, _) = s.split_at(end);
    proof {
        lemma_encode_injective(head@, s@.subrange(0, j));
        lemma_offset_boundary(head@, i);
        assert(head@.subrange(0, i) =~= s@.subrange(0, i));
        lemma_slice_bytes(head@, i, j);
        lemma_offset_ends(head@);
    }
    let (_, tail) = head.split_at(start);
    proof {
        assert(head@.subrange(i, j) =~= s@.subrange(i, j));
        lemma_encode_injective(tail@, s@.subrange(i, j));
    }
    tail
}

} // verus!
