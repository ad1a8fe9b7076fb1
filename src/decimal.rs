use vstd::prelude::*;

verus! {

/// The UTF-16 code unit of the ASCII digit `0`.
pub const DIGIT_ZERO: u16 = 0x30;

/// The UTF-16 code unit of the ASCII sign `+`.
pub const PLUS_SIGN: u16 = 0x2B;

pub open spec fn is_digit(u: u16) -> bool {
    DIGIT_ZERO <= u && u <= DIGIT_ZERO + 9
}

pub open spec fn all_digits(s: Seq<u16>) -> bool {
    forall|i: int| 0 <= i < s.len() ==> #[trigger] is_digit(s[i])
}

/// The number that a run of decimal digits writes, most significant first.
pub open spec fn digits_value(s: Seq<u16>) -> nat
    decreases s.len(),
{
    if s.len() == 0 {
        0
    } else {
        digits_value(s.drop_last()) * 10 + (s.last() - DIGIT_ZERO) as nat
    }
}

/// The digits after an optional leading `+`.
pub open spec fn unsigned_digits(s: Seq<u16>) -> Seq<u16> {
    if s.len() > 0 && s[0] == PLUS_SIGN {
        s.subrange(1, s.len() as int)
    } else {
        s
    }
}

/// The value of a text field that holds an unsigned decimal number: an
/// optional `+`, then at least one ASCII digit and nothing else, with a
/// value that fits in a `usize`.
pub open spec fn decimal_value(s: Seq<u16>) -> Option<usize> {
    let d = unsigned_digits(s);
    if d.len() > 0 && all_digits(d) && digits_value(d) <= usize::MAX {
        Some(digits_value(d) as usize)
    } else {
        None
    }
}

/// A longer run of digits never writes a smaller number than its prefix.
pub proof fn lemma_prefix_value_le(s: Seq<u16>, k: int)
    requires
        all_digits(s),
        0 <= k <= s.len(),
    ensures
        digits_value(s.subrange(0, k)) <= digits_value(s),
    decreases s.len(),
{
    if k < s.len() {
        let t = s.drop_last();
        assert(t.subrange(0, k) =~= s.subrange(0, k));
        assert(all_digits(t)) by {
            assert forall|i: int| 0 <= i < t.len() implies #[trigger] is_digit(t[i]) by {
                assert(is_digit(s[i]));
            }
        }
        lemma_prefix_value_le(t, k);
    } else {
        assert(s.subrange(0, k) =~= s);
    }
}

/// Reads an unsigned decimal number: an optional `+`, then ASCII digits only.
pub fn parse_decimal(s: &[u16]) -> (r: Option<usize>)
    ensures
        r == decimal_value(s@),
{
    let start: usize = if s.len() > 0 && s[0] == PLUS_SIGN {
        1
    } else {
        0
    };
    let ghost d = unsigned_digits(s@);
    assert(d =~= s@.subrange(start as int, s@.len() as int));
    if start == s.len() {
        return None;
    }
    let mut v: usize = 0;
    let mut i: usize = start;
    while i < s.len()
        invariant
            start <= i <= s.len(),
            start < s.len(),
            d == s@.subrange(start as int, s@.len() as int),
            d == unsigned_digits(s@),
            all_digits(s@.subrange(start as int, i as int)),
            v == digits_value(s@.subrange(start as int, i as int)),
        decreases s.len() - i,
    {
        let u = s[i];
        if u < DIGIT_ZERO || u > DIGIT_ZERO + 9 {
            assert(d[i - start] == s@[i as int]);
            assert(!is_digit(d[i - start]));
            return None;
        }
        let ghost prev = s@.subrange(start as int, i as int);
        let ghost next = s@.subrange(start as int, i + 1);
        assert(next.drop_last() =~= prev);
        assert forall|j: int| 0 <= j < next.len() implies #[trigger] is_digit(next[j]) by {
            if j < prev.len() {
                assert(is_digit(prev[j]));
            }
        }
        let step = match v.checked_mul(10) {
            Some(t) => t.checked_add((u - DIGIT_ZERO) as usize),
            None => None,
        };
        match step {
            Some(t) => {
                v = t;
            },
            None => {
                proof {
                    assert(next.last() == u);
                    assert(digits_value(next) == v * 10 + (u - DIGIT_ZERO));
                    if all_digits(d) {
                        assert(next =~= d.subrange(0, next.len() as int));
                        lemma_prefix_value_le(d, next.len() as int);
                    }
                }
                return None;
            },
        }
        i = i + 1;
    }
    assert(d =~= s@.subrange(start as int, i as int));
    Some(v)
}

} // verus!
