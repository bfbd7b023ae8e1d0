//! Algebraic notation of coordinates: a letter for the file, then the rank
//! counted from 1, in decimal.

use crate::board::Vector;
use vstd::prelude::*;
use vstd::string::StrSliceExecFns;

verus! {

/// `String::push` of the standard library appends one character to the end
/// of the string and leaves the characters before it as they were.
pub assume_specification[ String::push ](s: &mut String, ch: char)
    ensures
        final(s)@ == old(s)@.push(ch),
;

/// The character of the decimal digit `d`.
pub open spec fn digit(d: int) -> char {
    ('0' as int + d) as char
}

/// The letter of file `file`: `a` for 0, `z` for 25.
pub open spec fn file_letter(file: int) -> char {
    ('a' as int + file) as char
}

/// The decimal numeral of `n`, without leading zeros.
pub open spec fn decimal(n: nat) -> Seq<char>
    decreases n,
{
    if n < 10 {
        seq![digit(n as int)]
    } else {
        decimal(n / 10).push(digit((n % 10) as int))
    }
}

/// The decimal numeral of an integer: a minus sign before the numeral of a
/// negative number's size.
pub open spec fn signed_decimal(v: int) -> Seq<char> {
    if v < 0 {
        seq!['-'] + decimal((-v) as nat)
    } else {
        decimal(v as nat)
    }
}

/// Whether the file has a letter.
pub open spec fn has_letter(v: Vector) -> bool {
    0 <= v.0 <= 25
}

/// The notation of a coordinate: the letter of its file, then its rank
/// plus one.
pub open spec fn notation(v: Vector) -> Seq<char> {
    seq![file_letter(v.0 as int)] + signed_decimal(v.1 + 1)
}

/// What writing a coordinate gives: its notation if its file has a letter.
pub open spec fn written(v: Vector) -> Option<Seq<char>> {
    if has_letter(v) {
        Some(notation(v))
    } else {
        None
    }
}

/// The text is the notation of `v`, a coordinate whose file has a letter
/// and whose rank is not negative.
pub open spec fn denotes(text: Seq<char>, v: Vector) -> bool {
    has_letter(v) && v.1 >= 0 && notation(v) == text
}

/// What reading a text gives: the coordinate that it denotes, if any.
pub open spec fn parsed(text: Seq<char>) -> Option<Vector> {
    if exists|v: Vector| denotes(text, v) {
        Some(choose|v: Vector| denotes(text, v))
    } else {
        None
    }
}

/// The message of a coordinate whose file has no letter.
pub open spec fn no_letter_message() -> Seq<char> {
    "cannot convert file coordinate to standard notation"@
}

/// A numeral consists of digits, starts with a zero only for zero itself,
/// and is as long as its number is large.
pub proof fn lemma_decimal_shape(n: nat)
    ensures
        decimal(n).len() >= 1,
        n < 10 <==> decimal(n).len() == 1,
        n < 10000000000 ==> decimal(n).len() <= 10,
        n >= 10000000000 ==> decimal(n).len() > 10,
        forall|i: int| 0 <= i < decimal(n).len() ==> '0' <= #[trigger] decimal(n)[i] <= '9',
        n >= 1 ==> decimal(n)[0] != '0',
    decreases n,
{
    if n >= 10 {
        lemma_decimal_shape(n / 10);
        lemma_decimal_length(n / 10);
        lemma_decimal_length(n);
    }
}

/// The length of a numeral grows with every power of ten.
proof fn lemma_decimal_length(n: nat)
    ensures
        n < 100 ==> decimal(n).len() <= 2,
        n < 1000 ==> decimal(n).len() <= 3,
        n < 10000 ==> decimal(n).len() <= 4,
        n < 100000 ==> decimal(n).len() <= 5,
        n < 1000000 ==> decimal(n).len() <= 6,
        n < 10000000 ==> decimal(n).len() <= 7,
        n < 100000000 ==> decimal(n).len() <= 8,
        n < 1000000000 ==> decimal(n).len() <= 9,
        n < 10000000000 ==> decimal(n).len() <= 10,
        n >= 10 ==> decimal(n).len() >= 2,
        n >= 100 ==> decimal(n).len() >= 3,
        n >= 1000 ==> decimal(n).len() >= 4,
        n >= 10000 ==> decimal(n).len() >= 5,
        n >= 100000 ==> decimal(n).len() >= 6,
        n >= 1000000 ==> decimal(n).len() >= 7,
        n >= 10000000 ==> decimal(n).len() >= 8,
        n >= 100000000 ==> decimal(n).len() >= 9,
        n >= 1000000000 ==> decimal(n).len() >= 10,
        n >= 10000000000 ==> decimal(n).len() >= 11,
    decreases n,
{
    if n >= 10 {
        lemma_decimal_length(n / 10);
    }
}

/// Two numbers with the same numeral are the same number.
pub proof fn lemma_decimal_injective(a: nat, b: nat)
    requires
        decimal(a) == decimal(b),
    ensures
        a == b,
    decreases a,
{
    lemma_decimal_shape(a);
    lemma_decimal_shape(b);
    if a < 10 {
        assert(b < 10);
        assert(decimal(a)[0] == decimal(b)[0]);
        assert(decimal(a)[0] == digit(a as int));
        assert(decimal(b)[0] == digit(b as int));
        assert(digit(a as int) as int == '0' as int + a);
        assert(digit(b as int) as int == '0' as int + b);
        assert(a == b);
    } else {
        assert(b >= 10);
        let da = decimal(a / 10);
        let db = decimal(b / 10);
        assert(decimal(a).drop_last() =~= da);
        assert(decimal(b).drop_last() =~= db);
        assert(decimal(a).last() == decimal(b).last());
        assert(digit((a % 10) as int) as int == '0' as int + a % 10);
        assert(digit((b % 10) as int) as int == '0' as int + b % 10);
        assert(decimal(a).last() == digit((a % 10) as int));
        assert(decimal(b).last() == digit((b % 10) as int));
        assert(a % 10 == b % 10);
        assert(da == db);
        lemma_decimal_injective(a / 10, b / 10);
        assert(a / 10 == b / 10);
    }
}

/// Two coordinates with the same notation are the same coordinate.
pub proof fn lemma_notation_injective(v: Vector, w: Vector)
    requires
        has_letter(v),
        has_letter(w),
        v.1 >= 0,
        w.1 >= 0,
        notation(v) == notation(w),
    ensures
        v == w,
{
    let dv = decimal((v.1 + 1) as nat);
    let dw = decimal((w.1 + 1) as nat);
    assert(notation(v)[0] == notation(w)[0]);
    assert(notation(v)[0] == file_letter(v.0 as int));
    assert(notation(w)[0] == file_letter(w.0 as int));
    assert(file_letter(v.0 as int) as int == 'a' as int + v.0);
    assert(file_letter(w.0 as int) as int == 'a' as int + w.0);
    assert(notation(v).subrange(1, notation(v).len() as int) =~= dv);
    assert(notation(w).subrange(1, notation(w).len() as int) =~= dw);
    assert(dv == dw);
    lemma_decimal_injective((v.1 + 1) as nat, (w.1 + 1) as nat);
    assert(v.0 == w.0);
    assert(v.1 == w.1);
}

/// Reading the notation of a coordinate whose file has a letter and whose
/// rank is not negative gives the coordinate back.
pub proof fn lemma_read_what_was_written(v: Vector)
    requires
        has_letter(v),
        v.1 >= 0,
    ensures
        parsed(notation(v)) == Some(v),
{
    assert(denotes(notation(v), v));
    let w = choose|w: Vector| denotes(notation(v), w);
    lemma_notation_injective(v, w);
}

/// Writing what reading a text gave returns the text: every text that can
/// be read is the notation of the coordinate read from it.
pub proof fn lemma_write_what_was_read(text: Seq<char>)
    ensures
        parsed(text) matches Some(v) ==> written(v) == Some(text),
{
}

/// Appends the decimal numeral of `n`.
pub fn push_decimal(text: &mut String, n: u64)
    ensures
        final(text)@ == old(text)@ + decimal(n as nat),
    decreases n,
{
    if n >= 10 {
        push_decimal(text, n / 10);
    }
    let d = (n % 10) as u8;
    text.push((d + 48u8) as char);
    assert(text@ =~= old(text)@ + decimal(n as nat));
}

impl Vector {
    /// The coordinate in algebraic notation, or an error if the file has
    /// no letter.
    pub fn to_notation(&self) -> (r: Result<String, &'static str>)
        ensures
            match r {
                Ok(text) => written(*self) == Some(text@),
                Err(message) => written(*self) is None && message@ == no_letter_message(),
            },
    {
        if self.0 < 0 || self.0 > 25 {
            return Err("cannot convert file coordinate to standard notation");
        }
        let mut text = String::new();
        text.push((self.0 as u8 + 97u8) as char);
        let rank: i64 = self.1 as i64 + 1;
        if rank < 0 {
            text.push('-');
            push_decimal(&mut text, (-rank) as u64);
        } else {
            push_decimal(&mut text, rank as u64);
        }
        assert(text@ =~= notation(*self));
        Ok(text)
    }

    /// The coordinate that `text` denotes: a letter from `a` to `z` for the
    /// file, then the rank counted from 1, in decimal without leading
    /// zeros and small enough for a `Vector`.
    pub fn from_notation(text: &str) -> (r: Option<Vector>)
        ensures
            r == parsed(text@),
    {
        let len = text.unicode_len();
        if len < 2 || len > 11 {
            proof {
                assert forall|v: Vector| !denotes(text@, v) by {
                    if has_letter(v) && v.1 >= 0 {
                        lemma_decimal_shape((v.1 + 1) as nat);
                    }
                }
            }
            return None;
        }
        let letter = text.get_char(0);
        if letter < 'a' || letter > 'z' {
            proof {
                assert forall|v: Vector| !denotes(text@, v) by {
                    if has_letter(v) && v.1 >= 0 {
                        assert(notation(v)[0] == file_letter(v.0 as int));
                    }
                }
            }
            return None;
        }
        let file = (letter as u32 - 97) as i32;
        let first = text.get_char(1);
        if first < '1' || first > '9' {
            proof {
                assert forall|v: Vector| !denotes(text@, v) by {
                    if has_letter(v) && v.1 >= 0 {
                        lemma_decimal_shape((v.1 + 1) as nat);
                        assert(notation(v)[1] == decimal((v.1 + 1) as nat)[0]);
                    }
                }
            }
            return None;
        }
        let mut value: u64 = (first as u32 - 48) as u64;
        let mut i: usize = 2;
        assert(text@.subrange(1, 2) =~= decimal(value as nat));
        while i < len
            invariant
                2 <= i <= len,
                len == text@.len(),
                len <= 11,
                1 <= value,
                decimal(value as nat) == text@.subrange(1, i as int),
                decimal(value as nat).len() == i - 1,
            decreases len - i,
        {
            let c = text.get_char(i);
            if c < '0' || c > '9' {
                proof {
                    assert forall|v: Vector| !denotes(text@, v) by {
                        if denotes(text@, v) {
                            lemma_decimal_shape((v.1 + 1) as nat);
                            assert(notation(v)[i as int] == decimal((v.1 + 1) as nat)[i - 1]);
                        }
                    }
                }
                return None;
            }
            proof {
                lemma_decimal_shape(value as nat);
            }
            let d = (c as u32 - 48) as u64;
            let ghost shorter = value;
            value = value * 10 + d;
            assert(decimal(value as nat) =~= decimal(shorter as nat).push(c));
            assert(text@.subrange(1, i + 1) =~= text@.subrange(1, i as int).push(c));
            i += 1;
        }
        assert(text@.subrange(1, len as int) =~= text@.subrange(1, text@.len() as int));
        if value > 2147483648 {
            proof {
                assert forall|v: Vector| !denotes(text@, v) by {
                    if denotes(text@, v) {
                        assert(notation(v).subrange(1, notation(v).len() as int) =~= decimal(
                            (v.1 + 1) as nat,
                        ));
                        lemma_decimal_injective((v.1 + 1) as nat, value as nat);
                    }
                }
            }
            return None;
        }
        let v = Vector(file, (value - 1) as i32);
        proof {
            assert(text@ =~= seq![text@[0]] + text@.subrange(1, text@.len() as int));
            assert(denotes(text@, v));
            let w = choose|w: Vector| denotes(text@, w);
            lemma_notation_injective(v, w);
        }
        Some(v)
    }
}

} // verus!
