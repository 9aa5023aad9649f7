//! Typing a volume into the transport bar's volume entry.

use vstd::prelude::*;

verus! {

/// The value of a run of decimal digits.
pub open spec fn digits_value(d: Seq<char>) -> int
    decreases d.len(),
{
    if d.len() == 0 {
        0
    } else {
        10 * digits_value(d.drop_last()) + (d.last() as int - '0' as int)
    }
}

pub open spec fn all_digits(d: Seq<char>) -> bool {
    forall|k: int| 0 <= k < d.len() ==> '0' <= #[trigger] d[k] <= '9'
}

/// `text` read as an `i32` the way `str::parse` reads it: an optional sign,
/// then at least one decimal digit and nothing else, within range.
pub open spec fn parsed_i32(text: Seq<char>) -> Option<int> {
    let negative = text.len() > 0 && text[0] == '-';
    let signed = text.len() > 0 && (text[0] == '-' || text[0] == '+');
    let digits = if signed {
        text.skip(1)
    } else {
        text
    };
    if digits.len() == 0 || !all_digits(digits) {
        None
    } else {
        let value = if negative {
            -digits_value(digits)
        } else {
            digits_value(digits)
        };
        if i32::MIN <= value <= i32::MAX {
            Some(value)
        } else {
            None
        }
    }
}

/// The percentage typed into the volume entry: a whole number, held to
/// 0..=100; nothing when the text is no whole number.
pub open spec fn typed_volume(text: Seq<char>) -> Option<u8> {
    match parsed_i32(text) {
        Some(v) => Some(
            if v < 0 {
                0u8
            } else if v > 100 {
                100u8
            } else {
                v as u8
            },
        ),
        None => None,
    }
}

proof fn lemma_digits_value_nonneg(d: Seq<char>)
    requires
        all_digits(d),
    ensures
        digits_value(d) >= 0,
    decreases d.len(),
{
    if d.len() > 0 {
        assert(all_digits(d.drop_last())) by {
            assert forall|k: int| 0 <= k < d.drop_last().len() implies '0' <= #[trigger] d.drop_last()[k] <= '9' by {
                assert(d.drop_last()[k] == d[k]);
            }
        }
        lemma_digits_value_nonneg(d.drop_last());
    }
}

proof fn lemma_digits_value_grows(d: Seq<char>, n: int)
    requires
        all_digits(d),
        0 <= n <= d.len(),
    ensures
        digits_value(d.take(n)) <= digits_value(d),
    decreases d.len(),
{
    if n < d.len() {
        let p = d.drop_last();
        assert(all_digits(p)) by {
            assert forall|k: int| 0 <= k < p.len() implies '0' <= #[trigger] p[k] <= '9' by {
                assert(p[k] == d[k]);
            }
        }
        assert(p.take(n) =~= d.take(n));
        lemma_digits_value_grows(p, n);
        lemma_digits_value_nonneg(p);
    } else {
        assert(d.take(n) =~= d);
    }
}

/// The volume typed into the entry, if the text is a whole number.
pub fn volume_from_entry(text: &str) -> (volume: Option<u8>)
    ensures
        volume == typed_volume(text@),
{
    let chars = crate::text::chars_of(text);
    let n = chars.len();
    let negative = n > 0 && chars[0] == '-';
    let signed = n > 0 && (chars[0] == '-' || chars[0] == '+');
    let start: usize = if signed {
        1
    } else {
        0
    };
    let ghost digits = if signed {
        text@.skip(1)
    } else {
        text@
    };
    proof {
        assert(chars@.skip(start as int) =~= digits);
    }
    if n == start {
        return None;
    }
    let mut value: u64 = 0;
    let mut k: usize = start;
    while k < n
        invariant
            start <= k <= n == chars@.len(),
            start < n,
            chars@ == text@,
            digits == chars@.skip(start as int),
            digits == (if text@.len() > 0 && (text@[0] == '-' || text@[0] == '+') {
                text@.skip(1)
            } else {
                text@
            }),
            negative == (text@.len() > 0 && text@[0] == '-'),
            all_digits(digits.take(k - start)),
            value == digits_value(digits.take(k - start)),
            value <= 2147483648,
        decreases n - k,
    {
        let c = chars[k];
        proof {
            assert(digits.take(k - start + 1).drop_last() =~= digits.take(k - start));
            assert(digits.take(k - start + 1).last() == c);
        }
        if c < '0' || c > '9' {
            proof {
                assert(digits[k - start] == c);
                assert(!all_digits(digits));
            }
            return None;
        }
        let d = (c as u64) - ('0' as u64);
        value = value * 10 + d;
        k += 1;
        proof {
            assert(all_digits(digits.take(k - start))) by {
                assert forall|m: int| 0 <= m < digits.take(k - start).len() implies '0' <= #[trigger] digits.take(k - start)[m] <= '9' by {
                    if m < k - start - 1 {
                        assert(digits.take(k - start)[m] == digits.take(k - start - 1)[m]);
                    }
                }
            }
        }
        if value > 2147483648 {
            proof {
                if all_digits(digits) {
                    lemma_digits_value_grows(digits, k - start);
                }
            }
            return None;
        }
    }
    proof {
        assert(digits.take(k - start) =~= digits);
    }
    let signed_value: i64 = if negative {
        -(value as i64)
    } else {
        value as i64
    };
    if signed_value > 2147483647 {
        return None;
    }
    if signed_value < 0 {
        Some(0)
    } else if signed_value > 100 {
        Some(100)
    } else {
        Some(signed_value as u8)
    }
}

} // verus!
