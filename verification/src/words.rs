//! Reading what a player typed: words, letter case, and numbers.

use vstd::prelude::*;
use vstd::string::{StrSliceExecFns, StringExecFns};

use crate::text;

verus! {

/// Whether a character is white space.
pub open spec fn is_space(c: char) -> bool {
    let n = c as u32;
    ||| 0x9 <= n <= 0xd
    ||| n == 0x20
    ||| n == 0x85
    ||| n == 0xa0
    ||| n == 0x1680
    ||| 0x2000 <= n <= 0x200a
    ||| n == 0x2028
    ||| n == 0x2029
    ||| n == 0x202f
    ||| n == 0x205f
    ||| n == 0x3000
}

/// Whether a character is white space.
pub fn space(c: char) -> (b: bool)
    ensures
        b == is_space(c),
{
    let n = c as u32;
    (0x9 <= n && n <= 0xd) || n == 0x20 || n == 0x85 || n == 0xa0 || n == 0x1680 || (0x2000 <= n
        && n <= 0x200a) || n == 0x2028 || n == 0x2029 || n == 0x202f || n == 0x205f || n == 0x3000
}

/// The words of a text: its longest runs without white space.
pub open spec fn words(s: Seq<char>) -> Seq<Seq<char>>
    decreases s.len(),
{
    if s.len() == 0 {
        Seq::empty()
    } else {
        let before = s.drop_last();
        if is_space(s.last()) {
            words(before)
        } else if before.len() == 0 || is_space(before.last()) {
            words(before).push(seq![s.last()])
        } else {
            let w = words(before);
            w.drop_last().push(w.last().push(s.last()))
        }
    }
}

/// The views of a list of texts.
pub open spec fn views(list: Seq<&str>) -> Seq<Seq<char>> {
    Seq::new(list.len(), |i: int| list[i]@)
}

/// The words of a text.
pub fn split<'a>(s: &'a str) -> (r: Vec<&'a str>)
    ensures
        views(r@) == words(s@),
{
    let n = s.unicode_len();
    let mut done: Vec<&'a str> = Vec::new();
    let mut start: usize = 0;
    let mut inside = false;
    let mut i: usize = 0;
    assert(views(done@) =~= words(s@.take(0)));
    while i < n
        invariant
            i <= n,
            n == s@.len(),
            start <= i,
            inside ==> start < i && !is_space(s@[i - 1]),
            !inside ==> i == 0 || is_space(s@[i - 1]),
            inside ==> words(s@.take(i as int)) == views(done@).push(
                s@.subrange(start as int, i as int),
            ),
            !inside ==> words(s@.take(i as int)) == views(done@),
        decreases n - i,
    {
        let c = s.get_char(i);
        let ghost now = s@.take(i + 1);
        assert(now.drop_last() =~= s@.take(i as int));
        assert(now.last() == c);
        if i > 0 {
            assert(s@.take(i as int).last() == s@[i - 1]);
        }
        if space(c) {
            if inside {
                let word = s.substring_char(start, i);
                let ghost before = done@;
                done.push(word);
                assert(views(done@) =~= views(before).push(word@));
                inside = false;
            }
        } else if !inside {
            inside = true;
            start = i;
            assert(s@.subrange(start as int, i + 1) =~= seq![c]);
        } else {
            let ghost w = words(s@.take(i as int));
            assert(w.drop_last() =~= views(done@));
            assert(s@.subrange(start as int, i + 1) =~= s@.subrange(start as int, i as int).push(
                c,
            ));
        }
        i = i + 1;
    }
    assert(s@.take(i as int) =~= s@);
    if inside {
        let word = s.substring_char(start, i);
        let ghost before = done@;
        done.push(word);
        assert(views(done@) =~= views(before).push(word@));
    }
    done
}

/// A character with an upper-case letter of the basic alphabet made small.
pub open spec fn small(c: char) -> char {
    if 'A' <= c <= 'Z' {
        ((c as int) + 32) as char
    } else {
        c
    }
}

/// A text with the upper-case letters of the basic alphabet made small.
pub open spec fn lowered(s: Seq<char>) -> Seq<char> {
    Seq::new(s.len(), |i: int| small(s[i]))
}

/// A text with the upper-case letters of the basic alphabet made small.
pub fn lower(s: &str) -> (r: String)
    ensures
        r@ == lowered(s@),
{
    let letters = "abcdefghijklmnopqrstuvwxyz";
    proof {
        reveal_strlit("abcdefghijklmnopqrstuvwxyz");
    }
    let n = s.unicode_len();
    let mut out = String::new();
    let mut i: usize = 0;
    while i < n
        invariant
            i <= n,
            n == s@.len(),
            letters@.len() == 26,
            forall|k: int|
                0 <= k < 26 ==> (#[trigger] letters@[k]) as int == 0x61 + k,
            out@ == lowered(s@).take(i as int),
        decreases n - i,
    {
        let c = s.get_char(i);
        let code = c as u32;
        let ghost before = out@;
        if 0x41 <= code && code <= 0x5a {
            let k = (code - 0x41) as usize;
            out.append(letters.substring_char(k, k + 1));
            assert(letters@.subrange(k as int, k + 1) =~= seq![letters@[k as int]]);
            assert(letters@[k as int] as int == 0x61 + k);
            assert(letters@[k as int] == small(c));
        } else {
            out.append(s.substring_char(i, i + 1));
            assert(s@.subrange(i as int, i + 1) =~= seq![c]);
        }
        assert(out@ =~= before.push(small(c)));
        assert(out@ =~= lowered(s@).take(i + 1));
        i = i + 1;
    }
    assert(lowered(s@).take(i as int) =~= lowered(s@));
    out
}

/// The number a row of decimal digits stands for.
pub open spec fn number(s: Seq<char>) -> Option<nat>
    decreases s.len(),
{
    if s.len() == 0 {
        Some(0)
    } else {
        match number(s.drop_last()) {
            Some(n) => if '0' <= s.last() <= '9' {
                Some((10 * n + ((s.last() as u32) - 0x30)) as nat)
            } else {
                None
            },
            None => None,
        }
    }
}

/// A number written in decimal, at least one digit long and no more than `max`.
pub open spec fn digits(s: Seq<char>, max: nat) -> Option<nat> {
    if s.len() == 0 {
        None
    } else {
        match number(s) {
            Some(n) => if n <= max {
                Some(n)
            } else {
                None
            },
            None => None,
        }
    }
}

/// A number with or without a leading `+`, no more than `max`.
pub open spec fn unsigned(s: Seq<char>, max: nat) -> Option<nat> {
    if s.len() > 0 && s[0] == '+' {
        digits(s.skip(1), max)
    } else {
        digits(s, max)
    }
}

/// A 64-bit integer with or without a leading sign.
pub open spec fn signed(s: Seq<char>) -> Option<int> {
    if s.len() > 0 && s[0] == '-' {
        match digits(s.skip(1), 0x8000_0000_0000_0000) {
            Some(n) => Some(-(n as int)),
            None => None,
        }
    } else {
        match unsigned(s, 0x7fff_ffff_ffff_ffff) {
            Some(n) => Some(n as int),
            None => None,
        }
    }
}

proof fn lemma_number_grows(s: Seq<char>, i: int)
    requires
        0 <= i <= s.len(),
    ensures
        number(s) is Some ==> number(s.take(i)) is Some && number(s)->Some_0 >= number(
            s.take(i),
        )->Some_0,
    decreases s.len(),
{
    if i == s.len() {
        assert(s.take(i) =~= s);
    } else {
        lemma_number_grows(s.drop_last(), i);
        assert(s.drop_last().take(i) =~= s.take(i));
    }
}

/// Read a number from `from` on.
fn read_digits(s: &str, from: usize, max: u64) -> (r: Option<u64>)
    requires
        from <= s@.len(),
        max <= 0x8000_0000_0000_0000 || max == u64::MAX,
    ensures
        match r {
            Some(n) => digits(s@.skip(from as int), max as nat) == Some(n as nat),
            None => digits(s@.skip(from as int), max as nat) is None,
        },
{
    let n = s.unicode_len();
    let ghost all = s@.skip(from as int);
    if from == n {
        return None;
    }
    let mut acc: u64 = 0;
    let mut i: usize = from;
    assert(all.take(0) =~= Seq::empty());
    while i < n
        invariant
            from <= i <= n,
            n == s@.len(),
            from < n,
            all == s@.skip(from as int),
            number(all.take(i - from)) == Some(acc as nat),
            acc <= max,
        decreases n - i,
    {
        let c = s.get_char(i);
        let ghost now = all.take(i - from + 1);
        proof {
            assert(now.drop_last() =~= all.take(i - from));
            assert(now.last() == c);
            lemma_number_grows(all, i - from + 1);
        }
        let code = c as u32;
        if code < 0x30 || code > 0x39 {
            assert(number(now) is None);
            return None;
        }
        let next: u128 = 10 * (acc as u128) + (code - 0x30) as u128;
        if next > max as u128 {
            assert(number(now) == Some(next as nat));
            return None;
        }
        acc = next as u64;
        i = i + 1;
    }
    assert(all.take(i - from) =~= all);
    Some(acc)
}

/// Read a number with or without a leading `+`.
pub fn read_unsigned(s: &str, max: u64) -> (r: Option<u64>)
    requires
        max <= 0x8000_0000_0000_0000 || max == u64::MAX,
    ensures
        match r {
            Some(n) => unsigned(s@, max as nat) == Some(n as nat),
            None => unsigned(s@, max as nat) is None,
        },
{
    assert(s@.skip(0) =~= s@);
    if s.unicode_len() > 0 && s.get_char(0) == '+' {
        read_digits(s, 1, max)
    } else {
        read_digits(s, 0, max)
    }
}

/// Read a 64-bit integer with or without a leading sign.
pub fn read_signed(s: &str) -> (r: Option<i64>)
    ensures
        match r {
            Some(n) => signed(s@) == Some(n as int),
            None => signed(s@) is None,
        },
{
    if s.unicode_len() > 0 && s.get_char(0) == '-' {
        match read_digits(s, 1, 0x8000_0000_0000_0000) {
            Some(n) => if n == 0x8000_0000_0000_0000 {
                Some(i64::MIN)
            } else {
                Some(-(n as i64))
            },
            None => None,
        }
    } else {
        match read_unsigned(s, 0x7fff_ffff_ffff_ffff) {
            Some(n) => Some(n as i64),
            None => None,
        }
    }
}

/// Texts on both sides of a space are split apart.
pub proof fn lemma_space_splits(a: Seq<char>, c: char, b: Seq<char>)
    requires
        is_space(c),
    ensures
        words(a.push(c) + b) == words(a) + words(b),
    decreases b.len(),
{
    let s = a.push(c) + b;
    if b.len() == 0 {
        assert(s =~= a.push(c));
        assert(s.drop_last() =~= a);
        assert(words(a) + words(b) =~= words(a));
    } else {
        let init = b.drop_last();
        lemma_space_splits(a, c, init);
        assert(s.drop_last() =~= a.push(c) + init);
        assert(s.last() == b.last());
        if init.len() == 0 {
            assert(s.drop_last().last() == c);
        } else {
            assert(s.drop_last().last() == init.last());
        }
        lemma_last_word(init);
        if is_space(b.last()) {
        } else if init.len() == 0 || is_space(init.last()) {
            assert(words(s) =~= words(a) + words(b));
        } else {
            assert((words(a) + words(init)).last() == words(init).last());
            assert((words(a) + words(init)).drop_last() =~= words(a) + words(init).drop_last());
            assert(words(s) =~= words(a) + words(b));
        }
    }
}

proof fn lemma_last_word(s: Seq<char>)
    ensures
        s.len() > 0 && !is_space(s.last()) ==> words(s).len() > 0,
    decreases s.len(),
{
}

/// A text without a space is one word, and no text has none of it.
pub proof fn lemma_one_word(s: Seq<char>)
    requires
        forall|i: int| 0 <= i < s.len() ==> !is_space(#[trigger] s[i]),
    ensures
        s.len() > 0 ==> words(s) == seq![s],
        s.len() == 0 ==> words(s).len() == 0,
    decreases s.len(),
{
    if s.len() > 0 {
        let init = s.drop_last();
        assert forall|i: int| 0 <= i < init.len() implies !is_space(#[trigger] init[i]) by {
            assert(!is_space(s[i]));
        }
        lemma_one_word(init);
        assert(!is_space(s[s.len() - 1]));
        if init.len() == 0 {
            assert(words(s) =~= seq![s]) by {
                assert(words(init) =~= Seq::empty());
                assert(seq![s.last()] =~= s);
            }
        } else {
            assert(!is_space(s[s.len() - 2]));
            assert(init.last() == s[s.len() - 2]);
            assert(init.push(s.last()) =~= s);
            assert(words(s) =~= seq![s]);
        }
    }
}

/// Letter case does not matter to what was made small, and only the letters of the basic
/// alphabet change.
pub proof fn lemma_lowering(s: Seq<char>)
    ensures
        lowered(s).len() == s.len(),
        lowered(lowered(s)) == lowered(s),
        forall|i: int|
            0 <= i < s.len() && !('A' <= #[trigger] s[i] <= 'Z') ==> lowered(s)[i] == s[i],
        forall|i: int|
            0 <= i < s.len() && 'A' <= #[trigger] s[i] <= 'Z' ==> lowered(s)[i] as int == s[i] as int
                + 32,
{
    assert(lowered(lowered(s)) =~= lowered(s));
}

proof fn lemma_number_reads_back(n: nat)
    ensures
        number(text::dec_nat(n)) == Some(n),
        text::dec_nat(n).len() > 0,
        text::dec_nat(n)[0] != '+',
        text::dec_nat(n)[0] != '-',
    decreases n,
{
    let s = text::dec_nat(n);
    if n < 10 {
        text::lemma_decimal_by_digits(0, n);
        assert(s.drop_last() =~= Seq::empty());
        assert(number(s.drop_last()) == Some(0nat));
        assert(s.last() == (0x30 + n) as char);
    } else {
        let t = n / 10;
        let d = n % 10;
        lemma_number_reads_back(t);
        text::lemma_decimal_by_digits(t, d);
        assert(10 * t + d == n);
        assert(s.drop_last() =~= text::dec_nat(t));
        assert(s.last() == (0x30 + d) as char);
    }
}

/// A number that was written down is read back.
pub proof fn lemma_numbers_read_back(n: nat, max: nat)
    ensures
        n <= max ==> unsigned(text::dec_nat(n), max) == Some(n),
        n > max ==> unsigned(text::dec_nat(n), max) is None,
        n <= max ==> unsigned(seq!['+'] + text::dec_nat(n), max) == Some(n),
        n <= i64::MAX ==> signed(text::dec(n as int)) == Some(n as int),
        0 < n <= i64::MAX ==> signed(text::dec(-(n as int))) == Some(-(n as int)),
        unsigned(Seq::empty(), max) is None,
{
    lemma_number_reads_back(n);
    let s = text::dec_nat(n);
    assert((seq!['+'] + s).skip(1) =~= s);
    assert((seq!['-'] + s).skip(1) =~= s);
}

} // verus!
