//! Small text helpers: appending single characters, decimal rendering of
//! indices, and character counting for line-structure statements.

use vstd::prelude::*;

verus! {

/// Relies on std's `String::push`: appends exactly the given character.
#[verifier::external_body]
pub(crate) fn push_char(s: &mut String, c: char)
    ensures
        final(s)@ == old(s)@.push(c),
{
    s.push(c);
}

/// The character of one decimal digit.
pub open spec fn digit_char(d: nat) -> char {
    if d == 0 {
        '0'
    } else if d == 1 {
        '1'
    } else if d == 2 {
        '2'
    } else if d == 3 {
        '3'
    } else if d == 4 {
        '4'
    } else if d == 5 {
        '5'
    } else if d == 6 {
        '6'
    } else if d == 7 {
        '7'
    } else if d == 8 {
        '8'
    } else {
        '9'
    }
}

/// The decimal digits of `n`, most significant first, without leading
/// zeros (and the single digit `0` for zero).
pub open spec fn dec_digits(n: nat) -> Seq<char>
    decreases n,
{
    if n < 10 {
        seq![digit_char(n)]
    } else {
        dec_digits(n / 10).push(digit_char(n % 10))
    }
}

/// The character of one decimal digit.
fn digit_char_exec(d: usize) -> (c: char)
    requires
        d < 10,
    ensures
        c == digit_char(d as nat),
{
    if d == 0 {
        '0'
    } else if d == 1 {
        '1'
    } else if d == 2 {
        '2'
    } else if d == 3 {
        '3'
    } else if d == 4 {
        '4'
    } else if d == 5 {
        '5'
    } else if d == 6 {
        '6'
    } else if d == 7 {
        '7'
    } else if d == 8 {
        '8'
    } else {
        '9'
    }
}

/// Renders `n` in decimal.
pub fn usize_to_string(n: usize) -> (r: String)
    ensures
        r@ == dec_digits(n as nat),
{
    if n < 10 {
        let mut r = String::new();
        push_char(&mut r, digit_char_exec(n));
        proof {
            assert(r@ =~= dec_digits(n as nat));
        }
        return r;
    }
    let mut digits: Vec<char> = Vec::new();
    let ghost mut tail: Seq<char> = Seq::empty();
    let mut m: usize = n;
    while m > 0
        invariant
            m > 0 ==> dec_digits(n as nat) == dec_digits(m as nat) + tail,
            m == 0 ==> dec_digits(n as nat) == tail,
            digits@.len() == tail.len(),
            forall|i: int|
                0 <= i < tail.len() ==> digits@[i] == tail[tail.len() - 1 - i],
        decreases m,
    {
        let d = m % 10;
        digits.push(digit_char_exec(d));
        proof {
            let m_nat = m as nat;
            if m >= 10 {
                assert(dec_digits(m_nat) == dec_digits(m_nat / 10).push(digit_char(m_nat % 10)));
                assert(dec_digits(m_nat / 10) + (seq![digit_char(m_nat % 10)] + tail)
                    =~= dec_digits(m_nat) + tail);
            } else {
                assert(dec_digits(m_nat) =~= seq![digit_char(m_nat)]);
                assert(seq![digit_char(m_nat % 10)] + tail =~= dec_digits(m_nat) + tail);
            }
            tail = seq![digit_char(m_nat % 10)] + tail;
        }
        m = m / 10;
    }
    let mut r = String::new();
    let mut i: usize = digits.len();
    while i > 0
        invariant
            i <= digits@.len(),
            digits@.len() == tail.len(),
            forall|j: int|
                0 <= j < tail.len() ==> digits@[j] == tail[tail.len() - 1 - j],
            r@ == tail.take(tail.len() - i),
        decreases i,
    {
        i = i - 1;
        push_char(&mut r, digits[i]);
        proof {
            assert(r@ =~= tail.take(tail.len() - i));
        }
    }
    proof {
        assert(tail.take(tail.len() as int) =~= tail);
    }
    r
}

/// How often `c` occurs in `s`.
pub open spec fn count_char(s: Seq<char>, c: char) -> nat
    decreases s.len(),
{
    if s.len() == 0 {
        0
    } else {
        (if s[0] == c {
            1nat
        } else {
            0nat
        }) + count_char(s.drop_first(), c)
    }
}

/// Counting distributes over concatenation.
pub proof fn lemma_count_char_add(a: Seq<char>, b: Seq<char>, c: char)
    ensures
        count_char(a + b, c) == count_char(a, c) + count_char(b, c),
    decreases a.len(),
{
    if a.len() == 0 {
        assert(a + b =~= b);
    } else {
        assert((a + b).drop_first() =~= a.drop_first() + b);
        assert((a + b)[0] == a[0]);
        lemma_count_char_add(a.drop_first(), b, c);
    }
}

/// A one-character sequence counts itself.
pub proof fn lemma_count_char_single(x: char, c: char)
    ensures
        count_char(seq![x], c) == if x == c {
            1nat
        } else {
            0nat
        },
{
    assert(seq![x].drop_first() =~= Seq::<char>::empty());
    assert(seq![x][0] == x);
    assert(count_char(Seq::<char>::empty(), c) == 0);
    assert(count_char(seq![x], c) == (if x == c {
        1nat
    } else {
        0nat
    }) + count_char(seq![x].drop_first(), c));
}

} // verus!
