//! The text layer of the file formats: characters, lines, and fields
//! separated by white space.
use vstd::prelude::*;
use crate::model::views;

verus! {

/// White space, as Unicode defines it.
pub open spec fn white_space(c: char) -> bool {
    let n = c as u32;
    ||| 0x09 <= n <= 0x0d
    ||| n == 0x20
    ||| n == 0x85
    ||| n == 0xa0
    ||| n == 0x1680
    ||| 0x2000 <= n <= 0x200a
    ||| n == 0x2028
    ||| n == 0x2029
    ||| n == 0x202f
    ||| n == 0x205f
    ||| n == 0x3000
}

/// Whether a character is white space.
pub fn is_space(c: char) -> (r: bool)
    ensures
        r == white_space(c),
{
    let n = c as u32;
    (0x09 <= n && n <= 0x0d) || n == 0x20 || n == 0x85 || n == 0xa0 || n == 0x1680 || (0x2000 <= n
        && n <= 0x200a) || n == 0x2028 || n == 0x2029 || n == 0x202f || n == 0x205f || n == 0x3000
}

/// Reading a line from the left: the fields that have ended so far, and the
/// characters of a field that has begun and not ended yet.
pub open spec fn scan_fields(s: Seq<char>) -> (Seq<Seq<char>>, Seq<char>)
    decreases s.len(),
{
    if s.len() == 0 {
        (Seq::empty(), Seq::empty())
    } else {
        let (ended, begun) = scan_fields(s.drop_last());
        if white_space(s.last()) {
            if begun.len() > 0 {
                (ended.push(begun), Seq::empty())
            } else {
                (ended, begun)
            }
        } else {
            (ended, begun.push(s.last()))
        }
    }
}

/// The fields of a line: its longest runs of characters that are no white
/// space, from left to right.
pub open spec fn fields(s: Seq<char>) -> Seq<Seq<char>> {
    let (ended, begun) = scan_fields(s);
    if begun.len() > 0 {
        ended.push(begun)
    } else {
        ended
    }
}

/// A line without the carriage return that may end it.
pub open spec fn without_return(s: Seq<char>) -> Seq<char> {
    if s.len() > 0 && s.last() == '\r' {
        s.drop_last()
    } else {
        s
    }
}

/// Reading a text from the start: the lines that have ended so far, and the
/// characters of a line that has begun and not ended yet.
pub open spec fn scan_lines(s: Seq<char>) -> (Seq<Seq<char>>, Seq<char>)
    decreases s.len(),
{
    if s.len() == 0 {
        (Seq::empty(), Seq::empty())
    } else {
        let (ended, begun) = scan_lines(s.drop_last());
        if s.last() == '\n' {
            (ended.push(without_return(begun)), Seq::empty())
        } else {
            (ended, begun.push(s.last()))
        }
    }
}

/// The lines of a text.  A line ends with a line feed, or with a carriage
/// return and a line feed; neither belongs to the line.  The last line
/// needs no line feed, and a text that ends with one has no empty line
/// behind it.
pub open spec fn lines(s: Seq<char>) -> Seq<Seq<char>> {
    let (ended, begun) = scan_lines(s);
    if begun.len() > 0 {
        ended.push(begun)
    } else {
        ended
    }
}

/// The characters of a string, one by one.
pub fn chars_of(text: &str) -> (r: Vec<char>)
    ensures
        r@ == text@,
{
    let mut r: Vec<char> = Vec::new();
    for c in it: text.chars()
        invariant
            it.seq() == text@,
            r@ == it.seq().take(it.index() as int),
    {
        r.push(c);
        proof {
            assert(it.seq().take(it.index() + 1) =~= it.seq().take(it.index() as int).push(c));
        }
    }
    proof {
        assert(text@.take(text@.len() as int) =~= text@);
    }
    r
}

/// Whether a run of characters is the given word.
pub fn is_word(chars: &Vec<char>, word: &str) -> (r: bool)
    ensures
        r == (chars@ == word@),
{
    let n = word.unicode_len();
    if chars.len() != n {
        return false;
    }
    let mut i: usize = 0;
    while i < n
        invariant
            i <= n,
            n == word@.len(),
            n == chars@.len(),
            chars@.take(i as int) == word@.take(i as int),
        decreases n - i,
    {
        if chars[i] != word.get_char(i) {
            return false;
        }
        proof {
            assert(chars@.take(i + 1) =~= chars@.take(i as int).push(chars@[i as int]));
            assert(word@.take(i + 1) =~= word@.take(i as int).push(word@[i as int]));
        }
        i += 1;
    }
    proof {
        assert(chars@.take(n as int) =~= chars@);
        assert(word@.take(n as int) =~= word@);
    }
    true
}

/// Splits a line into its fields.
pub fn split_fields(line: &Vec<char>) -> (r: Vec<Vec<char>>)
    ensures
        views(r@) == fields(line@),
{
    let mut ended: Vec<Vec<char>> = Vec::new();
    let mut begun: Vec<char> = Vec::new();
    let mut i: usize = 0;
    while i < line.len()
        invariant
            i <= line@.len(),
            (views(ended@), begun@) == scan_fields(line@.take(i as int)),
        decreases line@.len() - i,
    {
        let c = line[i];
        let ghost before = views(ended@);
        proof {
            assert(line@.take(i + 1).drop_last() =~= line@.take(i as int));
        }
        if is_space(c) {
            if begun.len() > 0 {
                let ghost field = begun@;
                ended.push(begun);
                begun = Vec::new();
                proof {
                    assert(views(ended@) =~= before.push(field));
                }
            }
        } else {
            begun.push(c);
        }
        i += 1;
    }
    proof {
        assert(line@.take(line@.len() as int) =~= line@);
    }
    if begun.len() > 0 {
        let ghost before = views(ended@);
        let ghost field = begun@;
        ended.push(begun);
        proof {
            assert(views(ended@) =~= before.push(field));
        }
    }
    ended
}

/// Splits a text into its lines.
pub fn split_lines(text: &Vec<char>) -> (r: Vec<Vec<char>>)
    ensures
        views(r@) == lines(text@),
{
    let mut ended: Vec<Vec<char>> = Vec::new();
    let mut begun: Vec<char> = Vec::new();
    let mut i: usize = 0;
    while i < text.len()
        invariant
            i <= text@.len(),
            (views(ended@), begun@) == scan_lines(text@.take(i as int)),
        decreases text@.len() - i,
    {
        let c = text[i];
        let ghost before = views(ended@);
        proof {
            assert(text@.take(i + 1).drop_last() =~= text@.take(i as int));
        }
        if c == '\n' {
            let ghost line = without_return(begun@);
            if begun.len() > 0 && begun[begun.len() - 1] == '\r' {
                begun.pop();
            }
            ended.push(begun);
            begun = Vec::new();
            proof {
                assert(views(ended@) =~= before.push(line));
            }
        } else {
            begun.push(c);
        }
        i += 1;
    }
    proof {
        assert(text@.take(text@.len() as int) =~= text@);
    }
    if begun.len() > 0 {
        let ghost before = views(ended@);
        let ghost line = begun@;
        ended.push(begun);
        proof {
            assert(views(ended@) =~= before.push(line));
        }
    }
    ended
}

/// A number in decimal, without leading zeros.
pub open spec fn decimal(n: nat) -> Seq<char>
    decreases n,
{
    if n < 10 {
        seq![((48 + n) as u8) as char]
    } else {
        decimal(n / 10).push(((48 + n % 10) as u8) as char)
    }
}

/// The number that a run of decimal digits writes; `None` where a character
/// is no digit.
pub open spec fn digits_value(s: Seq<char>) -> Option<nat>
    decreases s.len(),
{
    if s.len() == 0 {
        Some(0)
    } else {
        match digits_value(s.drop_last()) {
            Some(high) => if '0' <= s.last() <= '9' {
                Some(10 * high + (s.last() as u32 - 48) as nat)
            } else {
                None
            },
            None => None,
        }
    }
}

/// The index that a field writes: decimal digits, at least one, which a
/// plus sign may precede, and no more than the machine can count.
pub open spec fn index_of(field: Seq<char>) -> Option<usize> {
    let digits = if field.len() > 0 && field[0] == '+' {
        field.skip(1)
    } else {
        field
    };
    if digits.len() == 0 {
        None
    } else {
        match digits_value(digits) {
            Some(v) => if v <= usize::MAX {
                Some(v as usize)
            } else {
                None
            },
            None => None,
        }
    }
}

/// Where a run of digits writes a number, each of its beginnings writes
/// one that is no greater.
pub proof fn lemma_digits_prefix(s: Seq<char>, upto: int)
    requires
        0 <= upto <= s.len(),
        digits_value(s) is Some,
    ensures
        digits_value(s.take(upto)) is Some,
        digits_value(s.take(upto))->0 <= digits_value(s)->0,
    decreases s.len() - upto,
{
    if upto < s.len() {
        lemma_digits_prefix(s, upto + 1);
        assert(s.take(upto + 1).drop_last() =~= s.take(upto));
    } else {
        assert(s.take(upto) =~= s);
    }
}

/// Reads the index that a field writes.
pub fn read_index(field: &Vec<char>) -> (r: Option<usize>)
    ensures
        r == index_of(field@),
{
    let n = field.len();
    let start: usize = if n > 0 && field[0] == '+' {
        1
    } else {
        0
    };
    if start == n {
        return None;
    }
    let ghost digits = field@.skip(start as int);
    proof {
        assert(field@.skip(0) =~= field@);
    }
    let mut sum: usize = 0;
    let mut i: usize = start;
    while i < n
        invariant
            start <= i <= n,
            n == field@.len(),
            digits == field@.skip(start as int),
            digits.len() > 0,
            digits == if field@.len() > 0 && field@[0] == '+' {
                field@.skip(1)
            } else {
                field@
            },
            digits_value(digits.take(i - start)) == Some(sum as nat),
        decreases n - i,
    {
        let c = field[i];
        proof {
            assert(digits.take(i + 1 - start).drop_last() =~= digits.take(i - start));
            assert(digits.take(i + 1 - start).last() == c);
            if digits_value(digits) is Some {
                lemma_digits_prefix(digits, i + 1 - start);
                assert('0' <= c <= '9');
                assert(10 * sum + (c as u32 - 48) <= digits_value(digits)->0);
            }
        }
        if !('0' <= c && c <= '9') {
            return None;
        }
        let digit = (c as u32 - 48) as usize;
        sum = match sum.checked_mul(10) {
            Some(shifted) => match shifted.checked_add(digit) {
                Some(next) => next,
                None => {
                    return None;
                },
            },
            None => {
                return None;
            },
        };
        i += 1;
    }
    proof {
        assert(digits.take(n - start) =~= digits);
    }
    Some(sum)
}

} // verus!
