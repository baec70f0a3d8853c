//! Building message text: decimal numbers and concatenation with exact contents.
use vstd::prelude::*;
use vstd::string::*;

verus! {

/// The text of one decimal digit.
pub open spec fn digit_text(d: int) -> Seq<char> {
    if d == 0 {
        "0"@
    } else if d == 1 {
        "1"@
    } else if d == 2 {
        "2"@
    } else if d == 3 {
        "3"@
    } else if d == 4 {
        "4"@
    } else if d == 5 {
        "5"@
    } else if d == 6 {
        "6"@
    } else if d == 7 {
        "7"@
    } else if d == 8 {
        "8"@
    } else {
        "9"@
    }
}

/// The decimal notation of a natural number, without leading zeros.
pub open spec fn decimal(n: nat) -> Seq<char>
    decreases n,
{
    if n < 10 {
        digit_text(n as int)
    } else {
        decimal(n / 10) + digit_text((n % 10) as int)
    }
}

/// The decimal notation of an integer, with a leading minus sign below zero.
pub open spec fn signed_decimal(n: int) -> Seq<char> {
    if n < 0 {
        "-"@ + decimal((-n) as nat)
    } else {
        decimal(n as nat)
    }
}

fn digit(d: u64) -> (text: &'static str)
    requires
        d < 10,
    ensures
        text@ == digit_text(d as int),
{
    match d {
        0 => "0",
        1 => "1",
        2 => "2",
        3 => "3",
        4 => "4",
        5 => "5",
        6 => "6",
        7 => "7",
        8 => "8",
        _ => "9",
    }
}

/// Appends the decimal notation of `n`.
pub fn push_decimal(out: &mut String, n: u64)
    ensures
        final(out)@ == old(out)@ + decimal(n as nat),
    decreases n,
{
    if n >= 10 {
        push_decimal(out, n / 10);
        let ghost mid = out@;
        out.append(digit(n % 10));
        assert(out@ =~= old(out)@ + decimal(n as nat));
    } else {
        out.append(digit(n));
    }
}

/// A text built from left to right.
pub struct Text {
    content: String,
}

impl View for Text {
    type V = Seq<char>;

    closed spec fn view(&self) -> Seq<char> {
        self.content@
    }
}

impl Text {
    /// Starts with `text`.
    pub fn start(text: &str) -> (result: Text)
        ensures
            result@ == text@,
    {
        Text { content: text.to_owned() }
    }

    /// Appends `text`.
    pub fn text(self, text: &str) -> (result: Text)
        ensures
            result@ == self@ + text@,
    {
        let mut content = self.content;
        content.append(text);
        Text { content }
    }

    /// Appends the decimal notation of `n`.
    pub fn number(self, n: u64) -> (result: Text)
        ensures
            result@ == self@ + decimal(n as nat),
    {
        let mut content = self.content;
        push_decimal(&mut content, n);
        Text { content }
    }

    /// Appends the decimal notation of `n`.
    pub fn size(self, n: usize) -> (result: Text)
        ensures
            result@ == self@ + decimal(n as nat),
    {
        self.number(n as u64)
    }

    /// Appends the decimal notation of `n`, signed.
    pub fn signed(self, n: i64) -> (result: Text)
        ensures
            result@ == self@ + signed_decimal(n as int),
    {
        if n < 0 {
            let magnitude: u64 = if n == i64::MIN { 9223372036854775808u64 } else { (-n) as u64 };
            let result = self.text("-").number(magnitude);
            assert(result@ =~= self@ + signed_decimal(n as int));
            result
        } else {
            self.number(n as u64)
        }
    }

    /// The finished text.
    pub fn finish(self) -> (result: String)
        ensures
            result@ == self@,
    {
        self.content
    }
}

/// Whether a character has the Unicode property White_Space.
pub open spec fn is_white(c: char) -> bool {
    let v = c as u32;
    9 <= v <= 13 || v == 32 || v == 0x85 || v == 0xa0 || v == 0x1680 || 0x2000 <= v <= 0x200a || v
        == 0x2028 || v == 0x2029 || v == 0x202f || v == 0x205f || v == 0x3000
}

/// Whether a text holds nothing but white space.
pub open spec fn is_blank(text: Seq<char>) -> bool {
    forall|i: int| 0 <= i < text.len() ==> is_white(#[trigger] text[i])
}

/// Whether a character is white space.
pub fn white(c: char) -> (r: bool)
    ensures
        r == is_white(c),
{
    let v: u32 = c as u32;
    (9 <= v && v <= 13) || v == 32 || v == 0x85 || v == 0xa0 || v == 0x1680 || (0x2000 <= v && v
        <= 0x200a) || v == 0x2028 || v == 0x2029 || v == 0x202f || v == 0x205f || v == 0x3000
}

/// Whether a text holds nothing but white space.
pub fn blank(text: &str) -> (r: bool)
    ensures
        r == is_blank(text@),
{
    for c in iter: text.chars()
        invariant
            iter.seq() == text@,
            forall|i: int| 0 <= i < iter.index() ==> is_white(#[trigger] text@[i]),
    {
        if !white(c) {
            assert(!is_white(text@[iter.index() as int]));
            return false;
        }
    }
    true
}

/// Numbers are written digit by digit, the highest first: behind the digits of a number another
/// digit makes ten times the number and the digit.
pub proof fn numbers_are_written_digit_by_digit(n: nat, d: int)
    requires
        0 <= d < 10,
    ensures
        digit_text(d) == seq![(48 + d) as char],
        decimal(d as nat) == seq![(48 + d) as char],
        n > 0 ==> decimal((10 * n + d) as nat) == decimal(n).push((48 + d) as char),
        n > 0 ==> signed_decimal(-(n as int)) == seq!['-'] + decimal(n),
        signed_decimal(n as int) == decimal(n),
{
    reveal_strlit("0");
    reveal_strlit("1");
    reveal_strlit("2");
    reveal_strlit("3");
    reveal_strlit("4");
    reveal_strlit("5");
    reveal_strlit("6");
    reveal_strlit("7");
    reveal_strlit("8");
    reveal_strlit("9");
    reveal_strlit("-");
    assert(digit_text(d) =~= seq![(48 + d) as char]);
    if n > 0 {
        let m = (10 * n + d) as nat;
        assert(m / 10 == n && m % 10 == d);
        assert(decimal(m) =~= decimal(n).push((48 + d) as char));
        assert("-"@ =~= seq!['-']);
    }
}

} // verus!
