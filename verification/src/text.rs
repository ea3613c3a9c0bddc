//! Small routines on strings, stated over their sequences of characters.

use vstd::prelude::*;
use vstd::string::StringSliceAdditionalSpecFns;
use vstd::utf8::encode_utf8_decode_utf8;

verus! {

/// Whether two strings hold the same characters.
pub fn str_eq(a: &str, b: &str) -> (same: bool)
    ensures
        same == (a@ == b@),
{
    let x = a.as_bytes();
    let y = b.as_bytes();
    proof {
        encode_utf8_decode_utf8(a@);
        encode_utf8_decode_utf8(b@);
    }
    if x.len() != y.len() {
        return false;
    }
    let mut i: usize = 0;
    while i < x.len()
        invariant
            i <= x.len(),
            x.len() == y.len(),
            x@ == a.spec_bytes(),
            y@ == b.spec_bytes(),
            forall|k: int| 0 <= k < i ==> x@[k] == y@[k],
        decreases x.len() - i,
    {
        if x[i] != y[i] {
            return false;
        }
        i += 1;
    }
    assert(x@ =~= y@);
    true
}

/// The characters of a string.
pub fn chars_of(text: &str) -> (chars: Vec<char>)
    ensures
        chars@ == text@,
{
    let mut chars: Vec<char> = Vec::new();
    for c in it: text.chars()
        invariant
            chars@ == it.seq().take(it.index() as int),
            it.seq() == text@,
    {
        chars.push(c);
    }
    chars
}

/// The string that holds the given characters.
///
/// This is `String::from_iter` of the standard library, which collects the
/// characters of an iterator into a string, in their order. It is taken on
/// trust.
#[verifier::external_body]
pub(crate) fn string_of(chars: &Vec<char>) -> (text: String)
    ensures
        text@ == chars@,
{
    String::from_iter(chars.iter())
}

/// The character for a digit.
pub open spec fn digit(d: nat) -> char {
    if d == 0 {
        '0'
    } else if d == 1 {
        '1'
    } else if d == 2 {
        '2'
    } else if d == 3 {
        '3'
    } else if d == 4 {
        '4'
    } else if d == 5 {
        '5'
    } else if d == 6 {
        '6'
    } else if d == 7 {
        '7'
    } else if d == 8 {
        '8'
    } else {
        '9'
    }
}

/// A number written in decimal digits, without leading zeros.
pub open spec fn decimal(n: nat) -> Seq<char>
    decreases n,
{
    if n < 10 {
        seq![digit(n)]
    } else {
        decimal(n / 10).push(digit(n % 10))
    }
}

/// The value of a decimal digit; `None` for any other character.
pub open spec fn digit_value(c: char) -> Option<nat> {
    if c == '0' {
        Some(0)
    } else if c == '1' {
        Some(1)
    } else if c == '2' {
        Some(2)
    } else if c == '3' {
        Some(3)
    } else if c == '4' {
        Some(4)
    } else if c == '5' {
        Some(5)
    } else if c == '6' {
        Some(6)
    } else if c == '7' {
        Some(7)
    } else if c == '8' {
        Some(8)
    } else if c == '9' {
        Some(9)
    } else {
        None
    }
}

/// Whether every character is a decimal digit.
pub open spec fn all_digits(text: Seq<char>) -> bool {
    forall|i: int| 0 <= i < text.len() ==> digit_value(#[trigger] text[i]) is Some
}

/// The number that a row of decimal digits stands for; zero for no digit.
pub open spec fn number(text: Seq<char>) -> nat
    decreases text.len(),
{
    if text.len() == 0 {
        0
    } else {
        number(text.drop_last()) * 10 + match digit_value(text.last()) {
            Some(d) => d,
            None => 0,
        }
    }
}

/// The number that a text stands for: the text has to be made of decimal
/// digits, at least one, and the number must not be over `u32::MAX`.
pub open spec fn parsed(text: Seq<char>) -> Option<u32> {
    if text.len() > 0 && all_digits(text) && number(text) <= u32::MAX {
        Some(number(text) as u32)
    } else {
        None
    }
}

/// Reading a number back from its decimal digits gives the number.
pub proof fn lemma_decimal_round_trip(n: nat)
    ensures
        decimal(n).len() > 0,
        all_digits(decimal(n)),
        number(decimal(n)) == n,
    decreases n,
{
    if n < 10 {
        assert(decimal(n).drop_last() =~= Seq::<char>::empty());
        assert(number(decimal(n).drop_last()) == 0);
    } else {
        lemma_decimal_round_trip(n / 10);
        let front = decimal(n / 10);
        assert(decimal(n).drop_last() =~= front);
        assert forall|i: int| 0 <= i < decimal(n).len() implies digit_value(#[trigger] decimal(n)[i]) is Some by {
            if i < front.len() {
                assert(decimal(n)[i] == front[i]);
            }
        }
    }
}

/// The longer a row of digits grows the larger its number: a prefix never
/// stands for more than the whole.
proof fn lemma_number_grows(text: Seq<char>, n: int)
    requires
        0 <= n <= text.len(),
    ensures
        number(text.take(n)) <= number(text),
    decreases text.len() - n,
{
    if n < text.len() {
        lemma_number_grows(text, n + 1);
        assert(text.take(n + 1).drop_last() =~= text.take(n));
    } else {
        assert(text.take(n) =~= text);
    }
}

/// Writes a number in decimal digits.
pub fn decimal_of(n: u64) -> (text: Vec<char>)
    ensures
        text@ == decimal(n as nat),
    decreases n,
{
    if n < 10 {
        let mut text: Vec<char> = Vec::new();
        text.push(digit_of(n));
        text
    } else {
        let mut text = decimal_of(n / 10);
        text.push(digit_of(n % 10));
        text
    }
}

fn digit_of(d: u64) -> (c: char)
    requires
        d < 10,
    ensures
        c == digit(d as nat),
{
    if d == 0 {
        '0'
    } else if d == 1 {
        '1'
    } else if d == 2 {
        '2'
    } else if d == 3 {
        '3'
    } else if d == 4 {
        '4'
    } else if d == 5 {
        '5'
    } else if d == 6 {
        '6'
    } else if d == 7 {
        '7'
    } else if d == 8 {
        '8'
    } else {
        '9'
    }
}

fn value_of(c: char) -> (value: Option<u64>)
    ensures
        match value {
            Some(d) => digit_value(c) == Some(d as nat) && d < 10,
            None => digit_value(c) is None,
        },
{
    if c == '0' {
        Some(0)
    } else if c == '1' {
        Some(1)
    } else if c == '2' {
        Some(2)
    } else if c == '3' {
        Some(3)
    } else if c == '4' {
        Some(4)
    } else if c == '5' {
        Some(5)
    } else if c == '6' {
        Some(6)
    } else if c == '7' {
        Some(7)
    } else if c == '8' {
        Some(8)
    } else if c == '9' {
        Some(9)
    } else {
        None
    }
}

/// Reads a number from its decimal digits.
pub fn parse_u32(text: &Vec<char>) -> (value: Option<u32>)
    ensures
        value == parsed(text@),
{
    if text.len() == 0 {
        return None;
    }
    let mut total: u64 = 0;
    let mut i: usize = 0;
    while i < text.len()
        invariant
            i <= text@.len(),
            all_digits(text@.take(i as int)),
            total == number(text@.take(i as int)),
            total <= u32::MAX,
        decreases text@.len() - i,
    {
        proof {
            assert(text@.take(i + 1).drop_last() =~= text@.take(i as int));
            assert(text@.take(i + 1).last() == text@[i as int]);
        }
        match value_of(text[i]) {
            Some(d) => {
                total = total * 10 + d;
                proof {
                    assert forall|k: int| 0 <= k < i + 1 implies digit_value(
                        #[trigger] text@.take(i + 1)[k],
                    ) is Some by {
                        if k < i {
                            assert(text@.take(i as int)[k] == text@[k]);
                        }
                    }
                }
                if total > 0xFFFF_FFFF {
                    proof {
                        lemma_number_grows(text@, i + 1);
                    }
                    return None;
                }
            },
            None => {
                return None;
            },
        }
        i += 1;
    }
    proof {
        assert(text@.take(text@.len() as int) =~= text@);
    }
    Some(total as u32)
}

/// Whether `pattern` stands in `text` at the position `at`.
pub open spec fn found_at(text: Seq<char>, pattern: Seq<char>, at: int) -> bool {
    0 <= at && at + pattern.len() <= text.len() && text.subrange(at, at + pattern.len()) == pattern
}

/// The text with every occurrence of `pattern` replaced by `with`. The
/// occurrences are looked for from the left and do not overlap: the search
/// goes on behind an occurrence that was replaced. What is put in is not
/// searched again. An empty pattern is found nowhere.
pub open spec fn replaced(text: Seq<char>, pattern: Seq<char>, with: Seq<char>) -> Seq<char>
    decreases text.len(),
{
    if pattern.len() == 0 || text.len() < pattern.len() {
        text
    } else if found_at(text, pattern, 0) {
        with + replaced(text.skip(pattern.len() as int), pattern, with)
    } else {
        seq![text[0]] + replaced(text.skip(1), pattern, with)
    }
}

/// Whether `pattern` stands in `text` at the position `at`.
pub fn matches_at(text: &Vec<char>, pattern: &Vec<char>, at: usize) -> (found: bool)
    ensures
        found == found_at(text@, pattern@, at as int),
{
    if at > text.len() || pattern.len() > text.len() - at {
        return false;
    }
    let mut k: usize = 0;
    while k < pattern.len()
        invariant
            k <= pattern@.len(),
            at + pattern@.len() <= text@.len() <= usize::MAX,
            forall|j: int| 0 <= j < k ==> text@[at + j] == pattern@[j],
        decreases pattern@.len() - k,
    {
        if text[at + k] != pattern[k] {
            proof {
                assert(text@.subrange(at as int, at + pattern@.len())[k as int] == text@[at + k]);
            }
            return false;
        }
        k += 1;
    }
    proof {
        assert(text@.subrange(at as int, at + pattern@.len()) =~= pattern@);
    }
    true
}

/// Replaces every occurrence of `pattern` in `text` by `with`.
pub fn replace(text: &Vec<char>, pattern: &Vec<char>, with: &Vec<char>) -> (result: Vec<char>)
    ensures
        result@ == replaced(text@, pattern@, with@),
{
    let mut result: Vec<char> = Vec::new();
    let mut i: usize = 0;
    proof {
        assert(text@.skip(0) =~= text@);
    }
    while i < text.len()
        invariant
            i <= text@.len(),
            result@ + replaced(text@.skip(i as int), pattern@, with@) == replaced(
                text@,
                pattern@,
                with@,
            ),
        decreases text@.len() - i,
    {
        let ghost rest = text@.skip(i as int);
        let ghost before = result@;
        if pattern.len() > 0 && matches_at(text, pattern, i) {
            proof {
                assert(rest.subrange(0, pattern@.len() as int) =~= text@.subrange(
                    i as int,
                    i + pattern@.len(),
                ));
                assert(rest.skip(pattern@.len() as int) =~= text@.skip(i + pattern@.len()));
            }
            let mut k: usize = 0;
            while k < with.len()
                invariant
                    k <= with@.len(),
                    result@ == before + with@.take(k as int),
                decreases with@.len() - k,
            {
                result.push(with[k]);
                proof {
                    assert(result@ =~= before + with@.take(k + 1));
                }
                k += 1;
            }
            proof {
                assert(with@.take(with@.len() as int) =~= with@);
                let tail = replaced(text@.skip(i + pattern@.len()), pattern@, with@);
                assert((before + with@) + tail =~= before + (with@ + tail));
            }
            i += pattern.len();
        } else {
            proof {
                if pattern@.len() > 0 && rest.len() >= pattern@.len() {
                    assert(rest.subrange(0, pattern@.len() as int) =~= text@.subrange(
                        i as int,
                        i + pattern@.len(),
                    ));
                }
                assert(rest.skip(1) =~= text@.skip(i + 1));
                assert(rest[0] == text@[i as int]);
            }
            result.push(text[i]);
            proof {
                let tail = replaced(text@.skip(i + 1), pattern@, with@);
                if pattern@.len() == 0 || rest.len() < pattern@.len() {
                    lemma_replaced_nothing(rest.skip(1), pattern@, with@);
                    assert(seq![rest[0]] + rest.skip(1) =~= rest);
                }
                assert((before + seq![text@[i as int]]) + tail =~= before + (seq![text@[i as int]]
                    + tail));
            }
            i += 1;
        }
    }
    proof {
        assert(text@.skip(text@.len() as int) =~= Seq::<char>::empty());
        assert(result@ + Seq::<char>::empty() =~= result@);
    }
    result
}

/// A text shorter than the pattern, or searched for an empty pattern, stays
/// as it is.
proof fn lemma_replaced_nothing(text: Seq<char>, pattern: Seq<char>, with: Seq<char>)
    requires
        pattern.len() == 0 || text.len() < pattern.len(),
    ensures
        replaced(text, pattern, with) == text,
{
}

/// The two texts one behind the other.
pub fn joined(front: &Vec<char>, back: &Vec<char>) -> (both: Vec<char>)
    ensures
        both@ == front@ + back@,
{
    let mut both: Vec<char> = Vec::new();
    let mut i: usize = 0;
    while i < front.len()
        invariant
            i <= front@.len(),
            both@ == front@.take(i as int),
        decreases front@.len() - i,
    {
        both.push(front[i]);
        proof {
            assert(both@ =~= front@.take(i + 1));
        }
        i += 1;
    }
    let mut k: usize = 0;
    proof {
        assert(front@.take(front@.len() as int) =~= front@);
        assert(both@ =~= front@ + back@.take(0));
    }
    while k < back.len()
        invariant
            k <= back@.len(),
            both@ == front@ + back@.take(k as int),
        decreases back@.len() - k,
    {
        both.push(back[k]);
        proof {
            assert(both@ =~= front@ + back@.take(k + 1));
        }
        k += 1;
    }
    proof {
        assert(back@.take(back@.len() as int) =~= back@);
    }
    both
}

/// Where a character stands last in a text; `None` where it does not
/// stand in it.
pub open spec fn last_of(text: Seq<char>, c: char) -> Option<int>
    decreases text.len(),
{
    if text.len() == 0 {
        None
    } else if text.last() == c {
        Some(text.len() - 1)
    } else {
        last_of(text.drop_last(), c)
    }
}

/// Where a character stands last in a text.
pub fn rfind(text: &Vec<char>, c: char) -> (found: Option<usize>)
    ensures
        match found {
            Some(at) => last_of(text@, c) == Some(at as int) && at < text@.len(),
            None => last_of(text@, c) is None,
        },
{
    let mut i: usize = text.len();
    proof {
        assert(text@.take(text@.len() as int) =~= text@);
    }
    while i > 0
        invariant
            i <= text@.len(),
            last_of(text@, c) == last_of(text@.take(i as int), c),
        decreases i,
    {
        proof {
            assert(text@.take(i as int).drop_last() =~= text@.take(i - 1));
            assert(text@.take(i as int).last() == text@[i - 1]);
        }
        if text[i - 1] == c {
            return Some(i - 1);
        }
        i -= 1;
    }
    None
}

/// The part of a text from `from` up to, and without, `to`.
pub fn slice(text: &Vec<char>, from: usize, to: usize) -> (part: Vec<char>)
    requires
        from <= to <= text@.len(),
    ensures
        part@ == text@.subrange(from as int, to as int),
{
    let mut part: Vec<char> = Vec::new();
    let mut i: usize = from;
    while i < to
        invariant
            from <= i <= to <= text@.len(),
            part@ == text@.subrange(from as int, i as int),
        decreases to - i,
    {
        part.push(text[i]);
        proof {
            assert(part@ =~= text@.subrange(from as int, i + 1));
        }
        i += 1;
    }
    part
}

} // verus!
