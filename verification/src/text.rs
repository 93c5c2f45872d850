use vstd::prelude::*;
use crate::record::UserId;

verus! {

/// The byte of the decimal digit `d`.
pub open spec fn digit_byte(d: int) -> u8 {
    (0x30 + d) as u8
}

/// Whether `b` is one of the bytes `0` to `9`.
pub open spec fn is_digit(b: u8) -> bool {
    0x30 <= b <= 0x39
}

/// Whether every byte of `s` is a decimal digit.
pub open spec fn all_digits(s: Seq<u8>) -> bool {
    forall|i: int| 0 <= i < s.len() ==> is_digit(#[trigger] s[i])
}

/// The decimal text of `n`, without sign or leading zeros.
pub open spec fn decimal(n: nat) -> Seq<u8>
    decreases n,
{
    if n < 10 {
        seq![digit_byte(n as int)]
    } else {
        decimal(n / 10).push(digit_byte((n % 10) as int))
    }
}

/// The number that a string of decimal digits denotes; leading zeros count
/// for nothing and the empty string denotes zero.
pub open spec fn digits_value(s: Seq<u8>) -> nat
    decreases s.len(),
{
    if s.len() == 0 {
        0
    } else {
        digits_value(s.drop_last()) * 10 + (s.last() - 0x30) as nat
    }
}

/// The handle that a path segment denotes: the segment is a nonempty string
/// of decimal digits whose value fits the handle type. Any other segment
/// denotes no handle.
pub open spec fn parsed_id(s: Seq<u8>) -> Option<UserId> {
    if s.len() > 0 && all_digits(s) && digits_value(s) <= u64::MAX {
        Some(digits_value(s) as UserId)
    } else {
        None
    }
}

/// The decimal texts of `ids`, in order, with a comma between neighbours.
pub open spec fn joined(ids: Seq<usize>) -> Seq<u8>
    decreases ids.len(),
{
    if ids.len() == 0 {
        Seq::empty()
    } else if ids.len() == 1 {
        decimal(ids[0] as nat)
    } else {
        joined(ids.drop_last()).push(0x2cu8) + decimal(ids.last() as nat)
    }
}

/// A prefix of a digit string denotes no more than the whole string.
pub proof fn lemma_prefix_value(s: Seq<u8>, k: int)
    requires
        all_digits(s),
        0 <= k <= s.len(),
    ensures
        digits_value(s.take(k)) <= digits_value(s),
    decreases s.len(),
{
    if k == s.len() {
        assert(s.take(k) =~= s);
    } else {
        let front = s.drop_last();
        assert(front.take(k) =~= s.take(k));
        assert(is_digit(s[s.len() - 1]));
        lemma_prefix_value(front, k);
    }
}

/// The decimal text of a number is a nonempty digit string that denotes the
/// number, and reading it as a handle gives the number back.
pub proof fn lemma_decimal_reads_back(n: nat)
    ensures
        decimal(n).len() > 0,
        all_digits(decimal(n)),
        digits_value(decimal(n)) == n,
        n <= u64::MAX ==> parsed_id(decimal(n)) == Some(n as UserId),
    decreases n,
{
    if n < 10 {
        let s = decimal(n);
        assert(s.drop_last() =~= Seq::<u8>::empty());
        assert(digits_value(s.drop_last()) == 0);
    } else {
        lemma_decimal_reads_back(n / 10);
        let s = decimal(n);
        assert(s.drop_last() =~= decimal(n / 10));
        assert(s.last() == digit_byte((n % 10) as int));
    }
}

/// Renders `n` in decimal.
pub fn render_decimal(n: u64) -> (out: Vec<u8>)
    ensures
        out@ == decimal(n as nat),
    decreases n,
{
    if n < 10 {
        let mut out: Vec<u8> = Vec::new();
        out.push(0x30u8 + n as u8);
        assert(out@ =~= decimal(n as nat));
        out
    } else {
        let mut out = render_decimal(n / 10);
        out.push(0x30u8 + (n % 10) as u8);
        out
    }
}

/// Renders `ids` in decimal, separated by commas.
pub fn join_ids(ids: &Vec<usize>) -> (out: Vec<u8>)
    ensures
        out@ == joined(ids@),
{
    let mut out: Vec<u8> = Vec::new();
    let mut i: usize = 0;
    while i < ids.len()
        invariant
            i <= ids.len(),
            out@ == joined(ids@.take(i as int)),
        decreases ids.len() - i,
    {
        if i > 0 {
            out.push(0x2cu8);
        }
        let mut digits = render_decimal(ids[i] as u64);
        out.append(&mut digits);
        proof {
            let upto = ids@.take(i + 1);
            assert(upto.drop_last() =~= ids@.take(i as int));
            assert(upto.last() == ids@[i as int]);
            if i == 0 {
                assert(out@ =~= decimal(ids@[0] as nat));
            }
        }
        i += 1;
    }
    assert(ids@.take(i as int) =~= ids@);
    out
}

/// Tells whether every byte of `s` is a decimal digit.
pub fn is_digits(s: &[u8]) -> (yes: bool)
    ensures
        yes == all_digits(s@),
{
    let mut i: usize = 0;
    while i < s.len()
        invariant
            i <= s.len(),
            all_digits(s@.take(i as int)),
        decreases s.len() - i,
    {
        if s[i] < 0x30u8 || s[i] > 0x39u8 {
            assert(!is_digit(s@[i as int]));
            return false;
        }
        assert forall|j: int| 0 <= j < i + 1 implies is_digit(#[trigger] s@.take(i + 1)[j]) by {
            if j < i {
                assert(s@.take(i + 1)[j] == s@.take(i as int)[j]);
            }
        }
        i += 1;
    }
    assert(s@.take(i as int) =~= s@);
    true
}

/// Reads a path segment as a handle.
pub fn parse_id(s: &[u8]) -> (id: Option<UserId>)
    ensures
        id == parsed_id(s@),
{
    if s.len() == 0 || !is_digits(s) {
        return None;
    }
    let mut acc: u64 = 0;
    let mut i: usize = 0;
    assert(s@.take(0) =~= Seq::<u8>::empty());
    while i < s.len()
        invariant
            i <= s.len(),
            all_digits(s@),
            digits_value(s@.take(i as int)) == acc,
        decreases s.len() - i,
    {
        let d: u64 = (s[i] - 0x30u8) as u64;
        proof {
            let upto = s@.take(i + 1);
            assert(upto.drop_last() =~= s@.take(i as int));
            assert(upto.last() == s@[i as int]);
            assert(digits_value(upto) == acc * 10 + d);
            lemma_prefix_value(s@, i + 1);
        }
        if acc > (u64::MAX - d) / 10 {
            return None;
        }
        acc = acc * 10 + d;
        i += 1;
    }
    assert(s@.take(i as int) =~= s@);
    Some(acc)
}

} // verus!
