//! Numbers of the language: exact decimals, kept as their digits.

use vstd::prelude::*;
use vstd::string::*;
use crate::text::is_digit;

verus! {

/// A decimal number: a sign, the digits before the point and the digits
/// after it.
#[derive(Debug, PartialEq, Eq)]
pub struct Number {
    pub negative: bool,
    pub whole: String,
    pub fraction: String,
}

/// The mathematical content of a [`Number`].
pub ghost struct NumberView {
    pub negative: bool,
    pub whole: Seq<char>,
    pub fraction: Seq<char>,
}

impl View for Number {
    type V = NumberView;

    open spec fn view(&self) -> NumberView {
        NumberView { negative: self.negative, whole: self.whole@, fraction: self.fraction@ }
    }
}

/// The first position at or after `i` that holds no digit.
pub open spec fn digits_end(s: Seq<char>, i: int) -> int
    decreases s.len() - i,
{
    if 0 <= i < s.len() && is_digit(s[i]) {
        digits_end(s, i + 1)
    } else {
        i
    }
}

/// Where the digits `s[i..end]` start once their leading zeros are
/// dropped; the last digit is never dropped.
pub open spec fn zeros_end(s: Seq<char>, i: int, end: int) -> int
    decreases end - i,
{
    if 0 <= i && i + 1 < end <= s.len() && s[i] == '0' {
        zeros_end(s, i + 1, end)
    } else {
        i
    }
}

/// Where the digits `s[start..end]` end once their trailing zeros are
/// dropped.
pub open spec fn trimmed_end(s: Seq<char>, start: int, end: int) -> int
    decreases end - start,
{
    if 0 <= start < end <= s.len() && s[end - 1] == '0' {
        trimmed_end(s, start, end - 1)
    } else {
        end
    }
}

/// Where the digits before the point start: after the sign, if any.
pub open spec fn whole_start(s: Seq<char>) -> int {
    if s.len() > 0 && s[0] == '-' {
        1
    } else {
        0
    }
}

/// Whether `s` writes a number: an optional `-`, at least one digit,
/// and then either nothing or a point and at least one more digit.
pub open spec fn is_number_text(s: Seq<char>) -> bool {
    let start = whole_start(s);
    let point = digits_end(s, start);
    &&& start < point
    &&& point == s.len() || (s[point] == '.' && point + 1 < s.len() && digits_end(s, point + 1)
        == s.len())
}

/// The number that `s` writes, in canonical form: no leading zeros
/// before the point but for a single `0`, no trailing zeros after it,
/// and no sign on zero.
pub open spec fn number_of_text(s: Seq<char>) -> Option<NumberView> {
    if is_number_text(s) {
        let start = whole_start(s);
        let point = digits_end(s, start);
        let whole = s.subrange(zeros_end(s, start, point), point);
        let fraction = if point == s.len() {
            Seq::<char>::empty()
        } else {
            s.subrange(point + 1, trimmed_end(s, point + 1, s.len() as int))
        };
        let zero = whole == seq!['0'] && fraction.len() == 0;
        Some(NumberView { negative: start == 1 && !zero, whole, fraction })
    } else {
        None
    }
}

/// How a number is written out: plain decimal, with the point only
/// where digits follow it.
pub open spec fn number_text(n: NumberView) -> Seq<char> {
    let sign = if n.negative {
        seq!['-']
    } else {
        Seq::<char>::empty()
    };
    let tail = if n.fraction.len() > 0 {
        seq!['.'] + n.fraction
    } else {
        Seq::<char>::empty()
    };
    sign + n.whole + tail
}

/// The number zero.
pub open spec fn zero_view() -> NumberView {
    NumberView { negative: false, whole: seq!['0'], fraction: Seq::<char>::empty() }
}

/// Finds where the digits that start at `from` end.
fn scan_digits(text: &str, from: usize, len: usize) -> (end: usize)
    requires
        from <= len,
        len == text@.len(),
    ensures
        end == digits_end(text@, from as int),
        from <= end <= len,
{
    let mut i: usize = from;
    while i < len
        invariant
            from <= i <= len,
            len == text@.len(),
            digits_end(text@, i as int) == digits_end(text@, from as int),
        decreases len - i,
    {
        let c = text.get_char(i);
        if !(c >= '0' && c <= '9') {
            return i;
        }
        i = i + 1;
    }
    i
}

impl Number {
    /// The number zero.
    pub fn zero() -> (n: Number)
        ensures
            n@ == zero_view(),
    {
        proof {
            reveal_strlit("0");
        }
        let n = Number { negative: false, whole: String::from_str("0"), fraction: String::new() };
        assert(n@.whole =~= seq!['0']);
        n
    }

    /// Reads a number from its text.
    pub fn parse(text: &str) -> (r: Option<Number>)
        ensures
            match r {
                Some(n) => number_of_text(text@) == Some(n@),
                None => number_of_text(text@).is_none(),
            },
    {
        let len = text.unicode_len();
        let start: usize = if len > 0 && text.get_char(0) == '-' {
            1
        } else {
            0
        };
        let point = scan_digits(text, start, len);
        if point == start {
            return None;
        }
        if point < len {
            if text.get_char(point) != '.' || point + 1 == len {
                return None;
            }
            let end = scan_digits(text, point + 1, len);
            if end != len {
                return None;
            }
        }
        let mut first: usize = start;
        while first + 1 < point && text.get_char(first) == '0'
            invariant
                start <= first < point <= len,
                len == text@.len(),
                zeros_end(text@, first as int, point as int) == zeros_end(
                    text@,
                    start as int,
                    point as int,
                ),
            decreases point - first,
        {
            first = first + 1;
        }
        let whole = String::from_str(text.substring_char(first, point));
        let mut fraction = String::new();
        if point < len {
            let mut last: usize = len;
            while point + 1 < last && text.get_char(last - 1) == '0'
                invariant
                    point + 1 <= last <= len,
                    len == text@.len(),
                    trimmed_end(text@, point + 1, last as int) == trimmed_end(
                        text@,
                        point + 1,
                        len as int,
                    ),
                decreases last - point,
            {
                last = last - 1;
            }
            fraction = String::from_str(text.substring_char(point + 1, last));
        }
        proof {
            reveal_strlit("0");
        }
        let zero = whole == String::from_str("0") && fraction.unicode_len() == 0;
        assert("0"@ =~= seq!['0']);
        Some(Number { negative: start == 1 && !zero, whole, fraction })
    }

    /// Appends the number, written out in plain decimal, to `out`.
    pub fn write(&self, out: &mut String)
        ensures
            final(out)@ == old(out)@ + number_text(self@),
    {
        proof {
            reveal_strlit("-");
            reveal_strlit(".");
        }
        if self.negative {
            out.append("-");
        }
        out.append(self.whole.as_str());
        if self.fraction.as_str().unicode_len() > 0 {
            out.append(".");
            out.append(self.fraction.as_str());
        }
        assert(final(out)@ =~= old(out)@ + number_text(self@));
    }

}

impl Clone for Number {
    fn clone(&self) -> (n: Number)
        ensures
            n@ == self@,
    {
        Number {
            negative: self.negative,
            whole: self.whole.clone(),
            fraction: self.fraction.clone(),
        }
    }
}

} // verus!
