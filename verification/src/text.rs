use vstd::prelude::*;

verus! {

/// The pieces that `str::split` with a single character separator yields:
/// always at least one piece; a separator closes the current piece and
/// opens a new (possibly empty) one.
pub open spec fn split_spec(s: Seq<char>, sep: char) -> Seq<Seq<char>>
    decreases s.len(),
{
    if s.len() == 0 {
        seq![Seq::<char>::empty()]
    } else {
        let pieces = split_spec(s.drop_last(), sep);
        if s.last() == sep {
            pieces.push(Seq::<char>::empty())
        } else {
            pieces.update(pieces.len() - 1, pieces.last().push(s.last()))
        }
    }
}

/// `split_spec` never yields an empty list of pieces.
pub proof fn lemma_split_nonempty(s: Seq<char>, sep: char)
    ensures
        split_spec(s, sep).len() >= 1,
    decreases s.len(),
{
    if s.len() > 0 {
        lemma_split_nonempty(s.drop_last(), sep);
    }
}

/// Splits `s` at every occurrence of `sep`, keeping empty pieces.
pub fn split_char(s: &str, sep: char) -> (pieces: Vec<String>)
    ensures
        pieces.deep_view() == split_spec(s@, sep),
{
    let n = s.unicode_len();
    let mut out: Vec<String> = Vec::new();
    let mut seg_start: usize = 0;
    let mut i: usize = 0;
    assert(out.deep_view() =~= Seq::<Seq<char>>::empty());
    assert(s@.subrange(0, 0) =~= Seq::<char>::empty());
    while i < n
        invariant
            n == s@.len(),
            seg_start <= i <= n,
            out.deep_view().push(s@.subrange(seg_start as int, i as int)) =~= split_spec(
                s@.subrange(0, i as int),
                sep,
            ),
        decreases n - i,
    {
        let c = s.get_char(i);
        let ghost prefix = s@.subrange(0, i as int);
        let ghost next = s@.subrange(0, i + 1);
        assert(next.drop_last() =~= prefix);
        assert(next.last() == c);
        if c == sep {
            let piece = s.substring_char(seg_start, i);
            let owned = piece.to_owned();
            let ghost before = out.deep_view();
            out.push(owned);
            assert(out.deep_view() =~= before.push(piece@));
            seg_start = i + 1;
            assert(s@.subrange(seg_start as int, (i + 1) as int) =~= Seq::<char>::empty());
        } else {
            assert(s@.subrange(seg_start as int, i + 1) =~= s@.subrange(
                seg_start as int,
                i as int,
            ).push(c));
        }
        i = i + 1;
    }
    let last = s.substring_char(seg_start, n);
    let ghost before = out.deep_view();
    out.push(last.to_owned());
    assert(out.deep_view() =~= before.push(last@));
    assert(s@.subrange(0, n as int) =~= s@);
    out
}


/// `c` is one of the ASCII digits `0`..=`9`.
pub open spec fn is_decimal_digit(c: char) -> bool {
    '0' as u32 <= c as u32 && c as u32 <= '9' as u32
}

/// Every character of `s` is an ASCII decimal digit.
pub open spec fn all_decimal_digits(s: Seq<char>) -> bool {
    forall|i: int| 0 <= i < s.len() ==> is_decimal_digit(#[trigger] s[i])
}

/// The number written by the decimal digits `s` (most significant first).
pub open spec fn decimal_value(s: Seq<char>) -> nat
    decreases s.len(),
{
    if s.len() == 0 {
        0
    } else {
        10 * decimal_value(s.drop_last()) + (s.last() as u32 - '0' as u32) as nat
    }
}

/// What `u16::from_str` accepts: an optional leading `+`, then at least one
/// decimal digit, with a value that fits in a `u16`.
pub open spec fn parse_u16_spec(s: Seq<char>) -> Option<u16> {
    let digits = if s.len() > 0 && s[0] == '+' {
        s.drop_first()
    } else {
        s
    };
    if digits.len() == 0 || !all_decimal_digits(digits) || decimal_value(digits) > u16::MAX {
        None
    } else {
        Some(decimal_value(digits) as u16)
    }
}

/// The character of the decimal digit `d` (below 10).
pub open spec fn digit_char(d: nat) -> char {
    if d == 0 {
        '0'
    } else if d == 1 {
        '1'
    } else if d == 2 {
        '2'
    } else if d == 3 {
        '3'
    } else if d == 4 {
        '4'
    } else if d == 5 {
        '5'
    } else if d == 6 {
        '6'
    } else if d == 7 {
        '7'
    } else if d == 8 {
        '8'
    } else {
        '9'
    }
}

/// The decimal digits of `n`, most significant first, with no leading zero
/// (`"0"` for zero): what `n.to_string()` writes.
pub open spec fn decimal_text(n: nat) -> Seq<char>
    decreases n,
{
    if n < 10 {
        seq![digit_char(n)]
    } else {
        decimal_text(n / 10).push(digit_char(n % 10))
    }
}

/// The decimal text of `n` is a non-empty run of digits that reads back as `n`.
pub proof fn lemma_decimal_text(n: nat)
    ensures
        decimal_text(n).len() >= 1,
        all_decimal_digits(decimal_text(n)),
        decimal_value(decimal_text(n)) == n,
    decreases n,
{
    let d = n % 10;
    assert(is_decimal_digit(digit_char(d)));
    assert((digit_char(d) as u32 - '0' as u32) as nat == d);
    if n >= 10 {
        lemma_decimal_text(n / 10);
        let t = decimal_text(n);
        assert(t.drop_last() =~= decimal_text(n / 10));
        assert forall|i: int| 0 <= i < t.len() implies is_decimal_digit(#[trigger] t[i]) by {
            if i < t.len() - 1 {
                assert(t[i] == decimal_text(n / 10)[i]);
            }
        }
    }
}

/// A `u16` written in decimal reads back as itself.
pub proof fn lemma_parse_u16_decimal(n: u16)
    ensures
        parse_u16_spec(decimal_text(n as nat)) == Some(n),
{
    lemma_decimal_text(n as nat);
    let t = decimal_text(n as nat);
    assert(is_decimal_digit(t[0]));
}

proof fn lemma_capped_step(v: nat, d: nat)
    requires
        d < 10,
    ensures
        (if 10 * v + d > 65536 { 65536 } else { 10 * v + d }) == (if 10 * (if v > 65536 {
            65536
        } else {
            v
        }) + d > 65536 {
            65536
        } else {
            10 * (if v > 65536 {
                65536
            } else {
                v
            }) + d
        }),
{
}

/// Reads `s` as a decimal `u16` the way `str::parse::<u16>` does.
pub fn parse_u16(s: &str) -> (res: Option<u16>)
    ensures
        res == parse_u16_spec(s@),
{
    let n = s.unicode_len();
    let mut start: usize = 0;
    if n > 0 && s.get_char(0) == '+' {
        start = 1;
    }
    let ghost digits = if s@.len() > 0 && s@[0] == '+' {
        s@.drop_first()
    } else {
        s@
    };
    assert(digits =~= s@.subrange(start as int, n as int));
    if start == n {
        return None;
    }
    // `acc` is the value of the digits read so far, capped at 65536.
    let mut acc: u32 = 0;
    let mut i: usize = start;
    assert(s@.subrange(start as int, start as int) =~= Seq::<char>::empty());
    while i < n
        invariant
            n == s@.len(),
            start <= i <= n,
            digits == s@.subrange(start as int, n as int),
            digits == (if s@.len() > 0 && s@[0] == '+' {
                s@.drop_first()
            } else {
                s@
            }),
            all_decimal_digits(s@.subrange(start as int, i as int)),
            acc as nat == (if decimal_value(s@.subrange(start as int, i as int)) > 65536 {
                65536
            } else {
                decimal_value(s@.subrange(start as int, i as int))
            }),
        decreases n - i,
    {
        let c = s.get_char(i);
        let code = c as u32;
        let ghost prev = s@.subrange(start as int, i as int);
        let ghost next = s@.subrange(start as int, i + 1);
        assert(next.drop_last() =~= prev);
        assert(next.last() == c);
        if code < '0' as u32 || code > '9' as u32 {
            assert(digits[i - start] == s@[i as int]);
            assert(!is_decimal_digit(digits[i - start]));

            return None;
        }
        let d = code - '0' as u32;
        proof {
            lemma_capped_step(decimal_value(prev), d as nat);
        }
        let step = acc * 10 + d;
        acc = if step > 65536 {
            65536
        } else {
            step
        };
        assert forall|k: int| 0 <= k < next.len() implies is_decimal_digit(#[trigger] next[k]) by {
            if k < prev.len() {
                assert(next[k] == prev[k]);
            }
        }
        i = i + 1;
    }
    if acc > 65535 {
        None
    } else {
        Some(acc as u16)
    }
}

} // verus!
