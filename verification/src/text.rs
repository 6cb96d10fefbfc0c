//! Small helpers for strings.

use vstd::prelude::*;

verus! {

/// How many characters of `s` stand before the first `c`; all of them if there is none.
pub open spec fn len_before(s: Seq<char>, c: char) -> nat
    decreases s.len(),
{
    if s.len() == 0 || s[0] == c {
        0
    } else {
        1 + len_before(s.skip(1), c)
    }
}

pub(crate) proof fn lemma_len_before(s: Seq<char>, c: char)
    ensures
        len_before(s, c) <= s.len(),
        len_before(s, c) < s.len() ==> s[len_before(s, c) as int] == c,
        forall|i: int| 0 <= i < len_before(s, c) ==> s[i] != c,
    decreases s.len(),
{
    if s.len() > 0 && s[0] != c {
        lemma_len_before(s.skip(1), c);
        assert forall|i: int| 0 <= i < len_before(s, c) implies s[i] != c by {
            if i > 0 {
                assert(s.skip(1)[i - 1] == s[i]);
            }
        }
    }
}

pub(crate) proof fn lemma_len_before_is(s: Seq<char>, c: char, n: int)
    requires
        0 <= n <= s.len(),
        n < s.len() ==> s[n] == c,
        forall|i: int| 0 <= i < n ==> s[i] != c,
    ensures
        len_before(s, c) == n,
{
    lemma_len_before(s, c);
}

/// Finds the first `c` in `s`, by the number of characters before it.
pub(crate) fn find(s: &str, c: char) -> (r: Option<usize>)
    ensures
        match r {
            Some(pos) => pos == len_before(s@, c) && pos < s@.len(),
            None => len_before(s@, c) == s@.len(),
        },
{
    let len: usize = s.unicode_len();
    let mut pos: usize = 0;
    for x in it: s.chars()
        invariant
            len == s@.len(),
            it.seq() == s@,
            pos == it.index(),
            forall|i: int| 0 <= i < pos ==> s@[i] != c,
    {
        if x == c {
            proof {
                lemma_len_before_is(s@, c, pos as int);
            }
            return Some(pos);
        }
        pos += 1;
    }
    proof {
        lemma_len_before_is(s@, c, s@.len() as int);
    }
    None
}

/// A decimal or hexadecimal digit.
pub open spec fn digit(d: nat) -> Seq<char> {
    "0123456789abcdef"@.subrange(d as int, d as int + 1)
}

/// A number in decimal, without leading zeros.
pub open spec fn decimal(n: nat) -> Seq<char>
    decreases n,
{
    if n < 10 {
        digit(n)
    } else {
        decimal(n / 10) + digit(n % 10)
    }
}

fn digit_str(d: usize) -> (r: &'static str)
    requires
        d < 16,
    ensures
        r@ == digit(d as nat),
{
    proof {
        reveal_strlit("0123456789abcdef");
    }
    "0123456789abcdef".substring_char(d, d + 1)
}

/// Writes a number in decimal.
pub(crate) fn to_decimal(n: u16) -> (r: String)
    ensures
        r@ == decimal(n as nat),
    decreases n,
{
    if n < 10 {
        digit_str(n as usize).to_owned()
    } else {
        let mut r = to_decimal(n / 10);
        r.append(digit_str((n % 10) as usize));
        r
    }
}

/// Appends a byte as two hexadecimal digits.
pub(crate) fn append_hex(s: &mut String, b: u8)
    ensures
        final(s)@ == old(s)@ + digit((b / 16) as nat) + digit((b % 16) as nat),
{
    s.append(digit_str((b / 16) as usize));
    s.append(digit_str((b % 16) as usize));
}

/// The number that some decimal digits stand for.
pub open spec fn decimal_value(s: Seq<char>) -> int
    decreases s.len(),
{
    if s.len() == 0 {
        0
    } else {
        10 * decimal_value(s.drop_last()) + (s.last() as int - '0' as int)
    }
}

/// A number in decimal consists of decimal digits that stand for it, and does not start with a
/// zero, unless it is zero.
pub proof fn law_decimal(n: nat)
    ensures
        decimal_value(decimal(n)) == n,
        forall|i: int|
            0 <= i < decimal(n).len() ==> '0' as int <= #[trigger] decimal(n)[i] as int && decimal(
                n,
            )[i] as int <= '9' as int,
        decimal(n).len() > 0,
        n > 0 ==> decimal(n)[0] != '0',
    decreases n,
{
    reveal_strlit("0123456789abcdef");
    let s = decimal(n);
    let last = digit(n % 10);
    assert(last.len() == 1);
    assert(last[0] as int == '0' as int + n % 10);
    if n < 10 {
        assert(s.drop_last() =~= Seq::empty());
        assert(decimal_value(Seq::<char>::empty()) == 0);
    } else {
        law_decimal(n / 10);
        assert(s.drop_last() =~= decimal(n / 10));
        assert forall|i: int| 0 <= i < s.len() implies '0' as int <= #[trigger] s[i] as int
            && s[i] as int <= '9' as int by {
            if i < s.len() - 1 {
                assert(s[i] == decimal(n / 10)[i]);
            }
        }
        assert(s[0] == decimal(n / 10)[0]);
    }
}

/// What stands before the first `c` holds no `c`, and a `c` follows it unless there is none.
pub proof fn law_len_before(s: Seq<char>, c: char)
    ensures
        len_before(s, c) <= s.len(),
        forall|i: int| 0 <= i < len_before(s, c) ==> #[trigger] s[i] != c,
        len_before(s, c) < s.len() ==> s[len_before(s, c) as int] == c,
{
    lemma_len_before(s, c);
}

} // verus!
