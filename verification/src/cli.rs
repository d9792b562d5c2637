use vstd::prelude::*;

verus! {

/// How the simulation is driven: forever with an inter-year delay, one year
/// per keypress, or a fixed number of years.
#[derive(Clone, Copy, PartialEq, Eq, Structural, Debug)]
pub enum Mode {
    Timed,
    Stepped,
    Years(i32),
}

/// `c` is a decimal digit.
pub open spec fn is_digit(c: char) -> bool {
    48 <= c as int <= 57
}

/// The numeric value of the digit `c`.
pub open spec fn digit_val(c: char) -> int {
    c as int - 48
}

/// Every character of `s` is a decimal digit.
pub open spec fn all_digits(s: Seq<char>) -> bool {
    forall|k: int| 0 <= k < s.len() ==> is_digit(s[k])
}

/// The value of a digit string, most significant digit first.
pub open spec fn digits_val(s: Seq<char>) -> int
    decreases s.len(),
{
    if s.len() == 0 {
        0
    } else {
        digits_val(s.drop_last()) * 10 + digit_val(s.last())
    }
}

/// Decimal integer parsing exactly as `str::parse::<i32>` accepts it: an
/// optional `+` or `-` sign followed by one or more digits, rejecting empty
/// strings, other characters and values outside the `i32` range.
pub open spec fn spec_parse_i32(s: Seq<char>) -> Option<i32> {
    let neg = s.len() > 0 && s[0] == '-';
    let ds = if s.len() > 0 && (s[0] == '-' || s[0] == '+') {
        s.drop_first()
    } else {
        s
    };
    if ds.len() == 0 || !all_digits(ds) {
        None
    } else if neg {
        if digits_val(ds) <= 2147483648 {
            Some((-digits_val(ds)) as i32)
        } else {
            None
        }
    } else {
        if digits_val(ds) <= 2147483647 {
            Some(digits_val(ds) as i32)
        } else {
            None
        }
    }
}

/// A run-mode string is a single `t`/`T` or `s`/`S`, or a positive decimal
/// integer; everything else is rejected.
pub open spec fn spec_parse_mode(s: Seq<char>) -> Option<Mode> {
    if s == seq!['t'] || s == seq!['T'] {
        Some(Mode::Timed)
    } else if s == seq!['s'] || s == seq!['S'] {
        Some(Mode::Stepped)
    } else {
        match spec_parse_i32(s) {
            Some(v) => if v > 0 {
                Some(Mode::Years(v))
            } else {
                None
            },
            None => None,
        }
    }
}

/// A digit string has a non-negative value.
proof fn lemma_digits_val_nonneg(s: Seq<char>)
    requires
        all_digits(s),
    ensures
        digits_val(s) >= 0,
    decreases s.len(),
{
    if s.len() > 0 {
        assert(all_digits(s.drop_last()));
        lemma_digits_val_nonneg(s.drop_last());
    }
}

/// Dropping trailing digits never makes the value larger.
proof fn lemma_digits_val_prefix_le(s: Seq<char>, k: int)
    requires
        all_digits(s),
        0 <= k <= s.len(),
    ensures
        digits_val(s.take(k)) <= digits_val(s),
    decreases s.len(),
{
    if k == s.len() {
        assert(s.take(k) =~= s);
    } else {
        let d = s.drop_last();
        assert(all_digits(d));
        lemma_digits_val_prefix_le(d, k);
        assert(s.take(k) =~= d.take(k));
        lemma_digits_val_nonneg(d);
    }
}

/// Parse a decimal integer with optional sign, exactly as `i32` does.
pub fn parse_i32(s: &str) -> (r: Option<i32>)
    ensures
        r == spec_parse_i32(s@),
{
    let n = s.unicode_len();
    if n == 0 {
        return None;
    }
    let first = s.get_char(0);
    let neg = first == '-';
    let start: usize = if first == '-' || first == '+' {
        1
    } else {
        0
    };
    if n == start {
        return None;
    }
    let ghost ds: Seq<char> = if start == 1 {
        s@.drop_first()
    } else {
        s@
    };
    proof {
        assert(ds =~= s@.subrange(start as int, n as int));
    }
    let mut acc: u64 = 0;
    let mut i: usize = start;
    while i < n
        invariant
            start <= i <= n,
            n == s@.len(),
            start == 0 || start == 1,
            start == 1 ==> n >= 1 && (s@[0] == '-' || s@[0] == '+'),
            start == 0 ==> n >= 1 && !(s@[0] == '-' || s@[0] == '+'),
            neg == (s@[0] == '-'),
            ds == s@.subrange(start as int, n as int),
            ds.len() > 0,
            all_digits(s@.subrange(start as int, i as int)),
            acc == digits_val(s@.subrange(start as int, i as int)),
            acc <= 2147483648,
        decreases n - i,
    {
        let c = s.get_char(i);
        let code = c as u32;
        if code < 48 || code > 57 {
            proof {
                assert(!is_digit(ds[i - start]));
            }
            return None;
        }
        let d = (code - 48) as u64;
        proof {
            assert(s@.subrange(start as int, i as int + 1).drop_last() =~= s@.subrange(
                start as int,
                i as int,
            ));
            assert(s@.subrange(start as int, i as int + 1).last() == s@[i as int]);
        }
        acc = acc * 10 + d;
        i = i + 1;
        if acc > 2147483648 {
            proof {
                assert(acc == digits_val(s@.subrange(start as int, i as int)));
                assert((if s@.len() > 0 && (s@[0] == '-' || s@[0] == '+') {
                    s@.drop_first()
                } else {
                    s@
                }) == ds);
                if all_digits(ds) {
                    lemma_digits_val_prefix_le(ds, i - start);
                    assert(ds.take(i - start) =~= s@.subrange(start as int, i as int));
                    assert(digits_val(ds) >= acc);
                }
                assert(spec_parse_i32(s@) is None);
            }
            return None;
        }
    }
    proof {
        assert(s@.subrange(start as int, n as int) == ds);
        assert(all_digits(ds));
        assert(acc == digits_val(ds));
    }
    if neg {
        if acc == 2147483648 {
            Some(i32::MIN)
        } else {
            Some(-(acc as i32))
        }
    } else {
        if acc == 2147483648 {
            None
        } else {
            Some(acc as i32)
        }
    }
}

/// Parse a run mode: `t`/`T` runs forever with a delay, `s`/`S` steps one
/// year per keypress, and a positive decimal integer runs that many years.
pub fn parse_mode(s: &str) -> (r: Option<Mode>)
    ensures
        r == spec_parse_mode(s@),
{
    let n = s.unicode_len();
    if n == 1 {
        let c = s.get_char(0);
        if c == 't' || c == 'T' {
            proof {
                if c == 't' {
                    assert(s@ =~= seq!['t']);
                } else {
                    assert(s@ =~= seq!['T']);
                }
            }
            return Some(Mode::Timed);
        }
        if c == 's' || c == 'S' {
            proof {
                if c == 's' {
                    assert(s@ =~= seq!['s']);
                } else {
                    assert(s@ =~= seq!['S']);
                }
            }
            return Some(Mode::Stepped);
        }
    }
    proof {
        assert(seq!['t'].len() == 1 && seq!['T'].len() == 1 && seq!['s'].len() == 1
            && seq!['S'].len() == 1);
        assert(s@ != seq!['t'] && s@ != seq!['T'] && s@ != seq!['s'] && s@ != seq!['S']);
    }
    match parse_i32(s) {
        Some(v) => if v > 0 {
            Some(Mode::Years(v))
        } else {
            None
        },
        None => None,
    }
}

} // verus!
