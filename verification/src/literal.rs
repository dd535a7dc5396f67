//! Decimal integer literals, read as Rust's `str::parse` reads them into an integer type.
use vstd::prelude::*;

verus! {

pub open spec fn is_dec_digit(c: char) -> bool {
    '0' <= c && c <= '9'
}

pub open spec fn all_digits(d: Seq<char>) -> bool {
    forall|i: int| 0 <= i < d.len() ==> is_dec_digit(#[trigger] d[i])
}

/// The number that a string of decimal digits stands for.
pub open spec fn digits_value(d: Seq<char>) -> int
    decreases d.len(),
{
    if d.len() == 0 {
        0
    } else {
        digits_value(d.drop_last()) * 10 + (d.last() as int - '0' as int)
    }
}

/// The integer that `s` spells in an integer type with range `lo..=hi`: an optional sign (`-`
/// only if the type is signed, that is `lo < 0`) and at least one decimal digit, the value in
/// range; `None` otherwise.
pub open spec fn parse_int_v(s: Seq<char>, lo: int, hi: int) -> Option<int> {
    if s.len() == 0 {
        None
    } else if (s[0] == '+' || s[0] == '-') && s.len() == 1 {
        None
    } else {
        let neg = s[0] == '-' && lo < 0;
        let d = if s[0] == '+' || neg {
            s.drop_first()
        } else {
            s
        };
        if !all_digits(d) {
            None
        } else {
            let v = if neg {
                -digits_value(d)
            } else {
                digits_value(d)
            };
            if lo <= v && v <= hi {
                Some(v)
            } else {
                None
            }
        }
    }
}

pub proof fn lemma_digits_value_nonneg(d: Seq<char>)
    requires
        all_digits(d),
    ensures
        digits_value(d) >= 0,
    decreases d.len(),
{
    if d.len() > 0 {
        assert(all_digits(d.drop_last())) by {
            assert forall|i: int| 0 <= i < d.drop_last().len() implies is_dec_digit(
                #[trigger] d.drop_last()[i],
            ) by {
                assert(d.drop_last()[i] == d[i]);
            }
        }
        lemma_digits_value_nonneg(d.drop_last());
        assert(is_dec_digit(d[d.len() - 1]));
    }
}

/// The value of a string of digits is at least the value of any of its prefixes.
proof fn lemma_digits_value_prefix(d: Seq<char>, i: int)
    requires
        all_digits(d),
        0 <= i <= d.len(),
    ensures
        digits_value(d.subrange(0, i)) <= digits_value(d),
    decreases d.len() - i,
{
    if i < d.len() {
        let p = d.subrange(0, i + 1);
        assert(p.drop_last() =~= d.subrange(0, i));
        assert(all_digits(d.subrange(0, i))) by {
            assert forall|j: int| 0 <= j < i implies is_dec_digit(#[trigger] d.subrange(0, i)[j]) by {
                assert(d.subrange(0, i)[j] == d[j]);
            }
        }
        lemma_digits_value_nonneg(d.subrange(0, i));
        assert(is_dec_digit(d[i]));
        let x = digits_value(d.subrange(0, i));
        assert(x * 10 >= x) by (nonlinear_arith)
            requires
                x >= 0,
        ;
        lemma_digits_value_prefix(d, i + 1);
    } else {
        assert(d.subrange(0, i) =~= d);
    }
}

/// Reads `s` as an integer of the type whose range is `lo..=hi`, as `str::parse` does.
pub fn parse_int(s: &str, lo: i128, hi: i128) -> (r: Option<i128>)
    requires
        lo <= 0 <= hi,
        -lo <= u64::MAX,
        hi <= u64::MAX,
    ensures
        match parse_int_v(s@, lo as int, hi as int) {
            Some(v) => r == Some(v as i128),
            None => r is None,
        },
{
    let n = s.unicode_len();
    if n == 0 {
        return None;
    }
    let first = s.get_char(0);
    if (first == '+' || first == '-') && n == 1 {
        return None;
    }
    let neg = first == '-' && lo < 0;
    let start: usize = if first == '+' || neg {
        1
    } else {
        0
    };
    let ghost d = if first == '+' || neg {
        s@.drop_first()
    } else {
        s@
    };
    assert(d =~= s@.subrange(start as int, n as int));
    let limit: u128 = if neg {
        (-lo) as u128
    } else {
        hi as u128
    };
    let mut acc: u128 = 0;
    let mut i: usize = start;
    proof {
        assert(d.subrange(0, 0) =~= Seq::<char>::empty());
    }
    #[verifier::loop_isolation(false)]
    while i < n
        invariant
            n == s@.len(),
            start <= i <= n,
            d == s@.subrange(start as int, n as int),
            all_digits(d.subrange(0, i - start)),
            acc == digits_value(d.subrange(0, i - start)),
            acc <= limit,
            limit <= u64::MAX,
        decreases n - i,
    {
        let c = s.get_char(i);
        proof {
            assert(d[i - start] == c);
        }
        if c < '0' || c > '9' {
            proof {
                assert(!is_dec_digit(d[i - start]));
            }
            return None;
        }
        let digit: u128 = (c as u32 - '0' as u32) as u128;
        let next: u128 = acc * 10 + digit;
        proof {
            let p = d.subrange(0, i - start + 1);
            assert(p.drop_last() =~= d.subrange(0, i - start));
            assert(p.last() == c);
            assert(all_digits(p)) by {
                assert forall|j: int| 0 <= j < p.len() implies is_dec_digit(#[trigger] p[j]) by {
                    if j < p.len() - 1 {
                        assert(p[j] == d.subrange(0, i - start)[j]);
                    }
                }
            }
        }
        if next > limit {
            proof {
                if all_digits(d) {
                    lemma_digits_value_prefix(d, i - start + 1);
                }
            }
            return None;
        }
        acc = next;
        i += 1;
    }
    proof {
        assert(d.subrange(0, n - start) =~= d);
    }
    if neg {
        Some(-(acc as i128))
    } else {
        Some(acc as i128)
    }
}

} // verus!
