//! Building and reading text: decimal numbers, concatenation, and the order and
//! comparison of strings by their characters.

use vstd::prelude::*;
use vstd::string::{StrSliceExecFns, StringExecFns};

verus! {

/// The character of a decimal digit.
pub open spec fn digit(d: nat) -> char {
    (('0' as int) + d) as char
}

/// The decimal digits of a natural number, without leading zeros.
pub open spec fn dec_nat(n: nat) -> Seq<char>
    decreases n,
{
    if n < 10 {
        seq![digit(n)]
    } else {
        dec_nat(n / 10).push(digit(n % 10))
    }
}

/// An integer in decimal, with a leading `-` where it is negative.
pub open spec fn dec(n: int) -> Seq<char> {
    if n < 0 {
        seq!['-'] + dec_nat((-n) as nat)
    } else {
        dec_nat(n as nat)
    }
}

/// An integer in decimal with its sign always written.
pub open spec fn dec_signed(n: int) -> Seq<char> {
    if n < 0 {
        dec(n)
    } else {
        seq!['+'] + dec(n)
    }
}

/// The decimal digit `d` as text.
fn digit_text(d: u64) -> (s: &'static str)
    requires
        d < 10,
    ensures
        s@ == seq![digit(d as nat)],
{
    proof {
        reveal_strlit("0");
        reveal_strlit("1");
        reveal_strlit("2");
        reveal_strlit("3");
        reveal_strlit("4");
        reveal_strlit("5");
        reveal_strlit("6");
        reveal_strlit("7");
        reveal_strlit("8");
        reveal_strlit("9");
    }
    let s: &'static str = if d == 0 {
        "0"
    } else if d == 1 {
        "1"
    } else if d == 2 {
        "2"
    } else if d == 3 {
        "3"
    } else if d == 4 {
        "4"
    } else if d == 5 {
        "5"
    } else if d == 6 {
        "6"
    } else if d == 7 {
        "7"
    } else if d == 8 {
        "8"
    } else {
        "9"
    };
    assert(s@ =~= seq![digit(d as nat)]);
    s
}

/// Append an unsigned number in decimal.
pub fn push_u64(out: &mut String, n: u64)
    ensures
        final(out)@ == old(out)@ + dec_nat(n as nat),
    decreases n,
{
    if n >= 10 {
        push_u64(out, n / 10);
    }
    let ghost mid = out@;
    out.append(digit_text(n % 10));
    assert(out@ =~= old(out)@ + dec_nat(n as nat));
}

/// Append an integer in decimal.
pub fn push_i64(out: &mut String, n: i64)
    ensures
        final(out)@ == old(out)@ + dec(n as int),
{
    if n < 0 {
        proof {
            reveal_strlit("-");
        }
        out.append("-");
        let magnitude: u64 = if n == i64::MIN {
            0x8000_0000_0000_0000
        } else {
            (-n) as u64
        };
        push_u64(out, magnitude);
        assert(out@ =~= old(out)@ + dec(n as int));
    } else {
        push_u64(out, n as u64);
    }
}

/// Append an integer in decimal with its sign always written.
pub fn push_i64_signed(out: &mut String, n: i64)
    ensures
        final(out)@ == old(out)@ + dec_signed(n as int),
{
    if n >= 0 {
        proof {
            reveal_strlit("+");
        }
        out.append("+");
    }
    push_i64(out, n);
    assert(out@ =~= old(out)@ + dec_signed(n as int));
}

/// Whether two texts hold the same characters.
pub fn same_text(a: &str, b: &str) -> (r: bool)
    ensures
        r == (a@ == b@),
{
    a.to_owned() == b.to_owned()
}

/// The views of a list of texts.
pub open spec fn texts(list: Seq<String>) -> Seq<Seq<char>> {
    Seq::new(list.len(), |i: int| list[i]@)
}

/// Whether `list` holds the text `t`.
pub fn has_text(list: &Vec<String>, t: &str) -> (r: bool)
    ensures
        r == texts(list@).contains(t@),
{
    let mut i: usize = 0;
    while i < list.len()
        invariant
            i <= list@.len(),
            forall|j: int| 0 <= j < i ==> (#[trigger] texts(list@)[j]) != t@,
        decreases list@.len() - i,
    {
        if same_text(list[i].as_str(), t) {
            assert(texts(list@)[i as int] == t@);
            return true;
        }
        i = i + 1;
    }
    false
}

/// Texts one after the other, with `gap` between them.
pub open spec fn joined(list: Seq<Seq<char>>, gap: Seq<char>) -> Seq<char>
    decreases list.len(),
{
    if list.len() == 0 {
        Seq::empty()
    } else if list.len() == 1 {
        list[0]
    } else {
        joined(list.drop_last(), gap) + gap + list.last()
    }
}

/// Put texts one after the other, with `gap` between them.
pub fn join(list: &Vec<String>, gap: &str) -> (s: String)
    ensures
        s@ == joined(texts(list@), gap@),
{
    let mut s = String::new();
    let ghost all = texts(list@);
    assert(s@ =~= joined(all.take(0), gap@));
    let mut i: usize = 0;
    while i < list.len()
        invariant
            i <= list@.len(),
            all == texts(list@),
            s@ == joined(all.take(i as int), gap@),
        decreases list@.len() - i,
    {
        let ghost now = all.take(i as int + 1);
        assert(now.drop_last() =~= all.take(i as int));
        if i > 0 {
            s.append(gap);
        }
        s.append(list[i].as_str());
        assert(s@ =~= joined(now, gap@));
        i = i + 1;
    }
    assert(all.take(i as int) =~= all);
    s
}

/// Whether bytes come before others in dictionary order.
pub open spec fn bytes_less(a: Seq<u8>, b: Seq<u8>) -> bool
    decreases a.len(),
{
    if b.len() == 0 {
        false
    } else if a.len() == 0 {
        true
    } else if a[0] != b[0] {
        a[0] < b[0]
    } else {
        bytes_less(a.drop_first(), b.drop_first())
    }
}

/// Whether a text comes before another in the dictionary order of their bytes.
pub open spec fn text_less(a: Seq<char>, b: Seq<char>) -> bool {
    bytes_less(vstd::utf8::encode_utf8(a), vstd::utf8::encode_utf8(b))
}

proof fn lemma_bytes_transitive(a: Seq<u8>, b: Seq<u8>, c: Seq<u8>)
    requires
        bytes_less(a, b),
        bytes_less(b, c),
    ensures
        bytes_less(a, c),
    decreases a.len(),
{
    if a.len() > 0 && a[0] == b[0] && b[0] == c[0] {
        lemma_bytes_transitive(a.drop_first(), b.drop_first(), c.drop_first());
    }
}

proof fn lemma_bytes_irreflexive(a: Seq<u8>)
    ensures
        !bytes_less(a, a),
    decreases a.len(),
{
    if a.len() > 0 {
        lemma_bytes_irreflexive(a.drop_first());
    }
}

proof fn lemma_bytes_total(a: Seq<u8>, b: Seq<u8>)
    ensures
        a == b || bytes_less(a, b) || bytes_less(b, a),
    decreases a.len(),
{
    if a.len() == 0 || b.len() == 0 {
        if a.len() == 0 && b.len() == 0 {
            assert(a =~= b);
        }
    } else if a[0] == b[0] {
        lemma_bytes_total(a.drop_first(), b.drop_first());
        if a.drop_first() == b.drop_first() {
            assert(a =~= seq![a[0]] + a.drop_first());
            assert(b =~= seq![b[0]] + b.drop_first());
        }
    }
}

/// The order of texts is strict and total.
pub proof fn lemma_text_order(a: Seq<char>, b: Seq<char>, c: Seq<char>)
    ensures
        !text_less(a, a),
        a == b || text_less(a, b) || text_less(b, a),
        text_less(a, b) ==> !text_less(b, a),
        text_less(a, b) && text_less(b, c) ==> text_less(a, c),
{
    let x = vstd::utf8::encode_utf8(a);
    let y = vstd::utf8::encode_utf8(b);
    let z = vstd::utf8::encode_utf8(c);
    lemma_bytes_irreflexive(x);
    lemma_bytes_total(x, y);
    if x == y {
        vstd::utf8::encode_utf8_decode_utf8(a);
        vstd::utf8::encode_utf8_decode_utf8(b);
    }
    if bytes_less(x, y) && bytes_less(y, x) {
        lemma_bytes_transitive(x, y, x);
    }
    if bytes_less(x, y) && bytes_less(y, z) {
        lemma_bytes_transitive(x, y, z);
    }
}

/// Whether `a` comes before `b` in the dictionary order of their bytes.
pub fn less_text(a: &str, b: &str) -> (r: bool)
    ensures
        r == text_less(a@, b@),
{
    let x = a.as_bytes();
    let y = b.as_bytes();
    let mut i: usize = 0;
    assert(x@.skip(0) =~= x@);
    assert(y@.skip(0) =~= y@);
    while i < x.len() && i < y.len()
        invariant
            i <= x@.len(),
            i <= y@.len(),
            x@ == vstd::utf8::encode_utf8(a@),
            y@ == vstd::utf8::encode_utf8(b@),
            bytes_less(x@.skip(i as int), y@.skip(i as int)) == text_less(a@, b@),
        decreases x@.len() - i,
    {
        assert(x@.skip(i as int).drop_first() =~= x@.skip(i + 1));
        assert(y@.skip(i as int).drop_first() =~= y@.skip(i + 1));
        if x[i] != y[i] {
            return x[i] < y[i];
        }
        i = i + 1;
    }
    i < y.len()
}

/// `n` spaces.
pub open spec fn blanks(n: nat) -> Seq<char> {
    Seq::new(n, |i: int| ' ')
}

/// How far a text falls short of a width.
pub open spec fn gap(s: Seq<char>, width: nat) -> nat {
    if s.len() < width {
        (width - s.len()) as nat
    } else {
        0
    }
}

/// A text filled up with spaces behind it.
pub open spec fn left(s: Seq<char>, width: nat) -> Seq<char> {
    s + blanks(gap(s, width))
}

/// A text filled up with spaces before it.
pub open spec fn right(s: Seq<char>, width: nat) -> Seq<char> {
    blanks(gap(s, width)) + s
}

/// Append `n` spaces.
fn push_blanks(out: &mut String, n: usize)
    ensures
        final(out)@ == old(out)@ + blanks(n as nat),
{
    proof {
        reveal_strlit(" ");
    }
    let mut i: usize = 0;
    assert(out@ =~= old(out)@ + blanks(0));
    while i < n
        invariant
            i <= n,
            " "@ == seq![' '],
            out@ == old(out)@ + blanks(i as nat),
        decreases n - i,
    {
        out.append(" ");
        assert(out@ =~= old(out)@ + blanks((i + 1) as nat));
        i = i + 1;
    }
}

/// Append a text, filled up with spaces behind it.
pub fn push_left(out: &mut String, s: &str, width: usize)
    ensures
        final(out)@ == old(out)@ + left(s@, width as nat),
{
    let n = s.unicode_len();
    out.append(s);
    if n < width {
        push_blanks(out, width - n);
    }
    assert(out@ =~= old(out)@ + left(s@, width as nat));
}

/// Append a text, filled up with spaces before it.
pub fn push_right(out: &mut String, s: &str, width: usize)
    ensures
        final(out)@ == old(out)@ + right(s@, width as nat),
{
    let n = s.unicode_len();
    if n < width {
        push_blanks(out, width - n);
    }
    out.append(s);
    assert(out@ =~= old(out)@ + right(s@, width as nat));
}

/// An unsigned number in decimal.
pub fn u64_text(n: u64) -> (s: String)
    ensures
        s@ == dec_nat(n as nat),
{
    let mut s = String::new();
    push_u64(&mut s, n);
    assert(s@ =~= dec_nat(n as nat));
    s
}

/// An integer in decimal.
pub fn i64_text(n: i64) -> (s: String)
    ensures
        s@ == dec(n as int),
{
    let mut s = String::new();
    push_i64(&mut s, n);
    assert(s@ =~= dec(n as int));
    s
}

/// Append a wide unsigned number in decimal.
pub fn push_u128(out: &mut String, n: u128)
    ensures
        final(out)@ == old(out)@ + dec_nat(n as nat),
    decreases n,
{
    if n >= 10 {
        push_u128(out, n / 10);
    }
    let ghost mid = out@;
    out.append(digit_text((n % 10) as u64));
    assert(out@ =~= old(out)@ + dec_nat(n as nat));
}

/// A number in decimal ends in its last digit, and what stands before is a tenth of it.
pub proof fn lemma_decimal_by_digits(n: nat, d: nat)
    requires
        d < 10,
    ensures
        dec_nat(d) == seq![(0x30 + d) as char],
        n > 0 ==> dec_nat(10 * n + d) == dec_nat(n).push((0x30 + d) as char),
{
    if n > 0 {
        assert((10 * n + d) / 10 == n);
        assert((10 * n + d) % 10 == d);
    }
}

/// A sign is written in front of the digits: `-` for what is below nothing, and `+` for the
/// rest only where the sign is always written.
pub proof fn lemma_signs_are_in_front(n: nat)
    ensures
        dec(n as int) == dec_nat(n),
        n > 0 ==> dec(-(n as int)) == seq!['-'] + dec_nat(n),
        dec_signed(n as int) == seq!['+'] + dec_nat(n),
        n > 0 ==> dec_signed(-(n as int)) == seq!['-'] + dec_nat(n),
{
}

/// Joining puts the gap between two texts and nowhere else.
pub proof fn lemma_joined_in_parts(a: Seq<Seq<char>>, b: Seq<Seq<char>>, between: Seq<char>)
    requires
        a.len() > 0,
        b.len() > 0,
    ensures
        joined(a + b, between) == joined(a, between) + between + joined(b, between),
        a.len() == 1 ==> joined(a, between) == a[0],
        joined(Seq::<Seq<char>>::empty(), between).len() == 0,
    decreases b.len(),
{
    if b.len() == 1 {
        assert((a + b).drop_last() =~= a);
        assert((a + b).last() == b[0]);
    } else {
        lemma_joined_in_parts(a, b.drop_last(), between);
        assert((a + b).drop_last() =~= a + b.drop_last());
        assert((a + b).last() == b.last());
        assert(joined(a, between) + between + joined(b, between) =~= (joined(a, between) + between
            + joined(b.drop_last(), between)) + between + b.last());
    }
}

/// Filling up keeps the text whole, reaches the width, and adds nothing but spaces; a text
/// as wide as that is left as it is.
pub proof fn lemma_filling_up(s: Seq<char>, width: nat)
    ensures
        left(s, width).take(s.len() as int) == s,
        right(s, width).skip(right(s, width).len() - s.len()) == s,
        s.len() >= width ==> left(s, width) == s && right(s, width) == s,
        s.len() < width ==> left(s, width).len() == width && right(s, width).len() == width,
        forall|i: int|
            s.len() <= i < left(s, width).len() ==> #[trigger] left(s, width)[i] == ' ',
        forall|i: int|
            0 <= i < right(s, width).len() - s.len() ==> #[trigger] right(s, width)[i] == ' ',
{
    assert(left(s, width).take(s.len() as int) =~= s);
    assert(right(s, width).skip(right(s, width).len() - s.len()) =~= s);
    if s.len() >= width {
        assert(left(s, width) =~= s);
        assert(right(s, width) =~= s);
    }
}

/// Bytes are ordered as in a dictionary: by the first that differ, and what goes on comes
/// after what it begins with.
pub proof fn lemma_dictionary_order(p: Seq<u8>, a: Seq<u8>, b: Seq<u8>)
    ensures
        a.len() > 0 && b.len() > 0 && a[0] < b[0] ==> bytes_less(p + a, p + b),
        b.len() > 0 ==> bytes_less(p, p + b),
        !bytes_less(p + b, p),
    decreases p.len(),
{
    if p.len() == 0 {
        assert(p + a =~= a);
        assert(p + b =~= b);
    } else {
        lemma_dictionary_order(p.drop_first(), a, b);
        assert((p + a).drop_first() =~= p.drop_first() + a);
        assert((p + b).drop_first() =~= p.drop_first() + b);
    }
}

} // verus!
