use vstd::prelude::*;

verus! {

pub open spec fn is_digit(c: char) -> bool {
    '0' <= c && c <= '9'
}

pub open spec fn digit_value(c: char) -> nat {
    (c as int - '0' as int) as nat
}

/// The number written by a string of decimal digits.
pub open spec fn decimal_value(s: Seq<char>) -> nat
    decreases s.len(),
{
    if s.len() == 0 {
        0
    } else {
        decimal_value(s.drop_last()) * 10 + digit_value(s.last())
    }
}

/// The digits of an index text, after an optional leading `+`.
pub open spec fn index_digits(s: Seq<char>) -> Seq<char> {
    if s.len() > 0 && s[0] == '+' {
        s.drop_first()
    } else {
        s
    }
}

/// Whether a text is a number: an optional `+`, then one or more decimal
/// digits.
pub open spec fn is_number_text(s: Seq<char>) -> bool {
    let b = index_digits(s);
    b.len() > 0 && forall|i: int| 0 <= i < b.len() ==> is_digit(#[trigger] b[i])
}

/// The number a text is, of any size, if it is one.
pub open spec fn number_of_text(s: Seq<char>) -> Option<nat> {
    if is_number_text(s) {
        Some(decimal_value(index_digits(s)))
    } else {
        None
    }
}

/// The index a text reads as: a number whose value fits in a `usize`. No
/// other text reads as an index.
pub open spec fn index_of_text(s: Seq<char>) -> Option<nat> {
    if is_number_text(s) && decimal_value(index_digits(s)) <= usize::MAX {
        Some(decimal_value(index_digits(s)))
    } else {
        None
    }
}

proof fn lemma_value_grows(s: Seq<char>, i: int, j: int)
    requires
        0 <= i <= j <= s.len(),
    ensures
        decimal_value(s.subrange(0, i)) <= decimal_value(s.subrange(0, j)),
    decreases j - i,
{
    if i < j {
        lemma_value_grows(s, i, j - 1);
        assert(s.subrange(0, j).drop_last() =~= s.subrange(0, j - 1));
    }
}

/// Whether a text is a number, of any size.
pub fn is_number(s: &str) -> (r: bool)
    ensures
        r == is_number_text(s@),
{
    let n = s.unicode_len();
    let start: usize = if n > 0 && s.get_char(0) == '+' {
        1
    } else {
        0
    };
    let ghost b = index_digits(s@);
    assert(b =~= s@.subrange(start as int, n as int));
    if start == n {
        return false;
    }
    let mut i: usize = start;
    while i < n
        invariant
            start <= i <= n,
            n == s@.len(),
            b == s@.subrange(start as int, n as int),
            b == index_digits(s@),
            forall|k: int| 0 <= k < i - start ==> is_digit(#[trigger] b[k]),
        decreases n - i,
    {
        let c = s.get_char(i);
        if !('0' <= c && c <= '9') {
            assert(!is_digit(b[i - start]));
            return false;
        }
        i = i + 1;
    }
    true
}

/// Reads a task number typed by the user, as a `usize` is read from text.
pub fn parse_index(s: &str) -> (r: Option<usize>)
    ensures
        match r {
            Some(n) => index_of_text(s@) == Some(n as nat),
            None => index_of_text(s@) is None,
        },
{
    if !is_number(s) {
        return None;
    }
    let n = s.unicode_len();
    let start: usize = if n > 0 && s.get_char(0) == '+' {
        1
    } else {
        0
    };
    let ghost b = index_digits(s@);
    assert(b =~= s@.subrange(start as int, n as int));
    let mut value: usize = 0;
    let mut j: usize = start;
    assert(b.subrange(0, 0) =~= Seq::<char>::empty());
    while j < n
        invariant
            start <= j <= n,
            n == s@.len(),
            b == s@.subrange(start as int, n as int),
            b == index_digits(s@),
            forall|k: int| 0 <= k < b.len() ==> is_digit(#[trigger] b[k]),
            value as nat == decimal_value(b.subrange(0, j - start)),
        decreases n - j,
    {
        let c = s.get_char(j);
        assert(b[j - start] == c);
        assert(is_digit(b[j - start]));
        let d = (c as u32 - '0' as u32) as usize;
        assert(d as nat == digit_value(c));
        let ghost upto = b.subrange(0, j + 1 - start);
        assert(upto.drop_last() =~= b.subrange(0, j - start));
        assert(upto.last() == c);
        assert(decimal_value(upto) == value as nat * 10 + d as nat);
        let next = match value.checked_mul(10) {
            Some(v) => v.checked_add(d),
            None => None,
        };
        match next {
            Some(v) => {
                value = v;
            },
            None => {
                assert(decimal_value(upto) > usize::MAX);
                proof {
                    lemma_value_grows(b, j + 1 - start, b.len() as int);
                    assert(b.subrange(0, b.len() as int) =~= b);
                }
                assert(index_of_text(s@) is None);
                return None;
            },
        }
        j = j + 1;
    }
    assert(b.subrange(0, n - start) =~= b);
    Some(value)
}

} // verus!
