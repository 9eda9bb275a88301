//! The text form of a sequence of numbers: one base-10 signed integer per
//! line.

use vstd::prelude::*;

verus! {

/// Why a text is not a sequence of numbers.
#[derive(Debug, Clone, Copy, PartialEq, Eq, Structural)]
pub struct InvalidLine {
    /// Index of the first line that is not a number.
    pub line: usize,
}

/// `b` is one of the ASCII digits `0` to `9`.
pub open spec fn is_digit(b: u8) -> bool {
    48 <= b <= 57
}

/// Every byte of `s` is a digit.
pub open spec fn all_digits(s: Seq<u8>) -> bool {
    forall|i: int| 0 <= i < s.len() ==> is_digit(#[trigger] s[i])
}

/// The number that a string of digits stands for in base 10.
pub open spec fn digits_value(s: Seq<u8>) -> nat
    decreases s.len(),
{
    if s.len() == 0 {
        0
    } else {
        (digits_value(s.drop_last()) * 10 + (s.last() - 48)) as nat
    }
}

/// The digits of `n` in base 10, without leading zeros.
pub open spec fn digits_of(n: nat) -> Seq<u8>
    decreases n,
{
    if n < 10 {
        seq![(48 + n) as u8]
    } else {
        digits_of(n / 10).push((48 + n % 10) as u8)
    }
}

/// The text of `n`: a minus sign if it is negative, then the digits of its
/// magnitude.
pub open spec fn decimal(n: int) -> Seq<u8> {
    if n < 0 {
        seq![45u8] + digits_of((-n) as nat)
    } else {
        digits_of(n as nat)
    }
}

/// The text of a sequence of numbers: the text of each, followed by a line
/// feed.
pub open spec fn lines_of(numbers: Seq<i64>) -> Seq<u8>
    decreases numbers.len(),
{
    if numbers.len() == 0 {
        Seq::<u8>::empty()
    } else {
        lines_of(numbers.drop_last()) + decimal(numbers.last() as int) + seq![10u8]
    }
}

/// `line` starts with a plus or a minus sign.
pub open spec fn has_sign(line: Seq<u8>) -> bool {
    line.len() > 0 && (line[0] == 43 || line[0] == 45)
}

/// The integer that a line stands for, before its range is looked at: an
/// optional sign and then the digits.
pub open spec fn signed_value(line: Seq<u8>) -> int {
    let body = if has_sign(line) {
        line.drop_first()
    } else {
        line
    };
    if line.len() > 0 && line[0] == 45 {
        -(digits_value(body) as int)
    } else {
        digits_value(body) as int
    }
}

/// The number that a line stands for: an optional sign followed by at least
/// one digit and nothing else, with a value that fits in 64 bits. Any other
/// line stands for no number.
pub open spec fn line_value(line: Seq<u8>) -> Option<i64> {
    let body = if has_sign(line) {
        line.drop_first()
    } else {
        line
    };
    if body.len() > 0 && all_digits(body) && i64::MIN <= signed_value(line) <= i64::MAX {
        Some(signed_value(line) as i64)
    } else {
        None
    }
}

/// The numbers that the lines stand for, if every line stands for one;
/// otherwise the index of the first line that does not.
pub open spec fn lines_value(lines: Seq<Seq<u8>>) -> Result<Seq<i64>, InvalidLine>
    decreases lines.len(),
{
    if lines.len() == 0 {
        Ok(Seq::<i64>::empty())
    } else {
        match lines_value(lines.drop_last()) {
            Err(e) => Err(e),
            Ok(numbers) => match line_value(lines.last()) {
                Some(n) => Ok(numbers.push(n)),
                None => Err(InvalidLine { line: (lines.len() - 1) as usize }),
            },
        }
    }
}

/// The contents of a vector of lines.
pub open spec fn line_views(lines: Seq<Vec<u8>>) -> Seq<Seq<u8>> {
    Seq::new(lines.len(), |i: int| lines[i]@)
}

/// The digits of a number are digits, and they stand for that number.
pub proof fn lemma_digits_round_trip(n: nat)
    ensures
        digits_of(n).len() > 0,
        all_digits(digits_of(n)),
        digits_value(digits_of(n)) == n,
    decreases n,
{
    if n < 10 {
        let s = digits_of(n);
        assert(s.drop_last() =~= Seq::<u8>::empty());
        assert(digits_value(s.drop_last()) == 0);
    } else {
        lemma_digits_round_trip(n / 10);
        let s = digits_of(n);
        assert(s.drop_last() =~= digits_of(n / 10));
    }
}

/// Reading back the text of a number gives the number.
pub proof fn lemma_decimal_round_trip(n: i64)
    ensures
        line_value(decimal(n as int)) == Some(n),
{
    if n < 0 {
        let m = (-n) as nat;
        lemma_digits_round_trip(m);
        assert(decimal(n as int).drop_first() =~= digits_of(m));
    } else {
        lemma_digits_round_trip(n as nat);
        assert(is_digit(digits_of(n as nat)[0]));
    }
}

/// A string of digits stands for at least as much as any of its prefixes.
proof fn lemma_prefix_value(s: Seq<u8>, k: int)
    requires
        all_digits(s),
        0 <= k <= s.len(),
    ensures
        digits_value(s.take(k)) <= digits_value(s),
    decreases s.len() - k,
{
    if k == s.len() {
        assert(s.take(k) =~= s);
    } else {
        lemma_prefix_value(s, k + 1);
        assert(s.take(k + 1).drop_last() =~= s.take(k));
        assert(is_digit(s[k]));
    }
}

/// Appends the digits of `n` to `out`.
fn push_digits(n: u64, out: &mut Vec<u8>)
    ensures
        final(out)@ == old(out)@ + digits_of(n as nat),
    decreases n,
{
    let ghost before = out@;
    if n >= 10 {
        push_digits(n / 10, out);
    }
    let digit: u8 = 48 + (n % 10) as u8;
    out.push(digit);
    proof {
        assert(out@ =~= before + digits_of(n as nat));
    }
}

/// The magnitude of `n`.
fn magnitude(n: i64) -> (m: u64)
    ensures
        m == (if n < 0 {
            -n
        } else {
            n as int
        }),
{
    if n == i64::MIN {
        0x8000_0000_0000_0000
    } else if n < 0 {
        (-n) as u64
    } else {
        n as u64
    }
}

/// The text of one number.
pub fn format_number(n: i64) -> (text: Vec<u8>)
    ensures
        text@ == decimal(n as int),
{
    let mut text: Vec<u8> = Vec::new();
    if n < 0 {
        text.push(45);
    }
    push_digits(magnitude(n), &mut text);
    proof {
        assert(text@ =~= decimal(n as int));
    }
    text
}

/// The text of the numbers, one per line, each line ended by a line feed.
pub fn format_numbers(numbers: &Vec<i64>) -> (text: Vec<u8>)
    ensures
        text@ == lines_of(numbers@),
{
    let mut text: Vec<u8> = Vec::new();
    let mut i: usize = 0;
    while i < numbers.len()
        invariant
            i <= numbers.len(),
            text@ == lines_of(numbers@.take(i as int)),
        decreases numbers.len() - i,
    {
        let ghost before = text@;
        let n = numbers[i];
        if n < 0 {
            text.push(45);
        }
        push_digits(magnitude(n), &mut text);
        text.push(10);
        i += 1;
        proof {
            assert(numbers@.take(i as int).drop_last() =~= numbers@.take(i - 1));
            assert(text@ =~= before + decimal(n as int) + seq![10u8]);
        }
    }
    proof {
        assert(numbers@.take(i as int) =~= numbers@);
    }
    text
}

/// Reads one line as a number: an optional sign, then digits only. A line
/// that is empty, holds anything else, or stands for a value outside the
/// 64-bit range is no number.
pub fn parse_line(line: &[u8]) -> (n: Option<i64>)
    ensures
        n == line_value(line@),
{
    let len = line.len();
    if len == 0 {
        return None;
    }
    let negative = line[0] == 45;
    let start: usize = if line[0] == 43 || line[0] == 45 {
        1
    } else {
        0
    };
    if start == len {
        return None;
    }
    let ghost body = line@.skip(start as int);
    proof {
        assert(has_sign(line@) ==> line@.drop_first() =~= body);
        assert(!has_sign(line@) ==> line@ =~= body);
    }
    let limit: u64 = if negative {
        0x8000_0000_0000_0000
    } else {
        0x7fff_ffff_ffff_ffff
    };
    let mut mag: u64 = 0;
    let mut i: usize = start;
    while i < len
        invariant
            start <= i <= len,
            len == line@.len(),
            body == line@.skip(start as int),
            all_digits(body.take(i - start)),
            mag == digits_value(body.take(i - start)),
            mag <= limit,
            limit == (if negative {
                0x8000_0000_0000_0000u64
            } else {
                0x7fff_ffff_ffff_ffffu64
            }),
            negative == (line@[0] == 45),
            body.len() > 0,
            body == (if has_sign(line@) {
                line@.drop_first()
            } else {
                line@
            }),
        decreases len - i,
    {
        let b = line[i];
        if b < 48 || b > 57 {
            proof {
                assert(!is_digit(body[i - start]));
            }
            return None;
        }
        let d: u64 = (b - 48) as u64;
        proof {
            assert(body.take(i + 1 - start).drop_last() =~= body.take(i - start));
            assert(body.take(i + 1 - start).last() == b);
            assert(all_digits(body.take(i + 1 - start))) by {
                assert forall|k: int| 0 <= k < i + 1 - start implies is_digit(
                    #[trigger] body.take(i + 1 - start)[k],
                ) by {
                    if k < i - start {
                        assert(body.take(i - start)[k] == body[k]);
                    }
                }
            }
        }
        if mag > (limit - d) / 10 {
            proof {
                // The digits read so far already stand for more than fits.
                let prefix = body.take(i + 1 - start);
                assert(digits_value(prefix) > limit);
                if all_digits(body) {
                    lemma_prefix_value(body, i + 1 - start);
                }
            }
            return None;
        }
        mag = mag * 10 + d;
        i += 1;
    }
    proof {
        assert(body.take(i - start) =~= body);
    }
    if negative {
        if mag == 0x8000_0000_0000_0000 {
            Some(i64::MIN)
        } else {
            Some(-(mag as i64))
        }
    } else {
        Some(mag as i64)
    }
}

/// Reads every line as a number. Fails at the first line that is none.
pub fn parse_numbers(lines: &Vec<Vec<u8>>) -> (result: Result<Vec<i64>, InvalidLine>)
    ensures
        match result {
            Ok(numbers) => lines_value(line_views(lines@)) == Ok::<Seq<i64>, InvalidLine>(
                numbers@,
            ),
            Err(e) => lines_value(line_views(lines@)) == Err::<Seq<i64>, InvalidLine>(e),
        },
{
    let ghost all = line_views(lines@);
    let mut numbers: Vec<i64> = Vec::new();
    let mut i: usize = 0;
    while i < lines.len()
        invariant
            i <= lines.len(),
            all == line_views(lines@),
            lines_value(all.take(i as int)) == Ok::<Seq<i64>, InvalidLine>(numbers@),
        decreases lines.len() - i,
    {
        proof {
            assert(all.take(i + 1).drop_last() =~= all.take(i as int));
            assert(all.take(i + 1).last() == lines@[i as int]@);
        }
        match parse_line(lines[i].as_slice()) {
            Some(n) => {
                numbers.push(n);
            },
            None => {
                proof {
                    lemma_first_invalid(all, i + 1);
                }
                return Err(InvalidLine { line: i });
            },
        }
        i += 1;
    }
    proof {
        assert(all.take(i as int) =~= all);
    }
    Ok(numbers)
}

/// Once a line is no number, the lines that follow do not change which line
/// is reported.
proof fn lemma_first_invalid(lines: Seq<Seq<u8>>, k: int)
    requires
        0 <= k <= lines.len(),
        lines_value(lines.take(k)) is Err,
    ensures
        lines_value(lines) == lines_value(lines.take(k)),
    decreases lines.len() - k,
{
    if k == lines.len() {
        assert(lines.take(k) =~= lines);
    } else {
        assert(lines.take(k + 1).drop_last() =~= lines.take(k));
        lemma_first_invalid(lines, k + 1);
    }
}

} // verus!
