//! Names of log segments.
//!
//! A segment that covers the sequence range from `seq_start` to `seq_end` is
//! called `wal-`, `seq_start` in twenty decimal digits, `-`, `seq_end` in
//! twenty decimal digits, `.log`. The writer, the replay and the checkpoint
//! all go by this one pattern, so a name and a range determine each other.

use crate::wal::WriteAheadLog;
use vstd::prelude::*;
use vstd::string::*;

verus! {

/// The number of digits that each bound of the range takes in a name.
pub const SEQ_DIGITS: u32 = 20;

/// The character for the decimal digit `d`.
pub open spec fn digit(d: nat) -> char
    recommends
        d < 10,
{
    (('0' as u8) + d) as u8 as char
}

/// `n` in decimal, in exactly `width` digits: padded with zeros on the left
/// where `n` has fewer digits, and without its high digits where it has more.
pub open spec fn decimal(n: nat, width: nat) -> Seq<char>
    decreases width,
{
    if width == 0 {
        Seq::empty()
    } else {
        decimal(n / 10, (width - 1) as nat).push(digit(n % 10))
    }
}

/// The name of the segment that covers `seq_start` to `seq_end`.
pub open spec fn file_name(seq_start: u64, seq_end: u64) -> Seq<char> {
    seq!['w', 'a', 'l', '-'] + decimal(seq_start as nat, 20) + seq!['-'] + decimal(
        seq_end as nat,
        20,
    ) + seq!['.', 'l', 'o', 'g']
}

/// The range that `name` is the segment name of, if it is one.
pub open spec fn range_of(name: Seq<char>) -> Option<(u64, u64)> {
    if exists|seq_start: u64, seq_end: u64| name == file_name(seq_start, seq_end) {
        Some(choose|range: (u64, u64)| name == file_name(range.0, range.1))
    } else {
        None
    }
}

/// Ten to the power `e`.
pub open spec fn pow10(e: nat) -> nat
    decreases e,
{
    if e == 0 {
        1
    } else {
        10 * pow10((e - 1) as nat)
    }
}

proof fn lemma_pow10_bounds(e: nat)
    requires
        e <= 20,
    ensures
        1 <= pow10(e) <= 100_000_000_000_000_000_000,
        e == 20 ==> pow10(e) == 100_000_000_000_000_000_000,
{
    reveal_with_fuel(pow10, 21);
}

proof fn lemma_decimal_len(n: nat, width: nat)
    ensures
        decimal(n, width).len() == width,
    decreases width,
{
    if width > 0 {
        lemma_decimal_len(n / 10, (width - 1) as nat);
    }
}

proof fn lemma_decimal_digits(n: nat, width: nat, i: int)
    requires
        0 <= i < width,
    ensures
        '0' <= decimal(n, width)[i] <= '9',
    decreases width,
{
    lemma_decimal_len(n / 10, (width - 1) as nat);
    if i < width - 1 {
        lemma_decimal_digits(n / 10, (width - 1) as nat, i);
    }
}

proof fn lemma_decimal_injective(x: nat, y: nat, width: nat)
    requires
        x < pow10(width),
        y < pow10(width),
        decimal(x, width) == decimal(y, width),
    ensures
        x == y,
    decreases width,
{
    if width > 0 {
        let w = (width - 1) as nat;
        lemma_decimal_len(x / 10, w);
        lemma_decimal_len(y / 10, w);
        assert(decimal(x, width).last() == digit(x % 10));
        assert(decimal(y, width).last() == digit(y % 10));
        assert(decimal(x, width).drop_last() == decimal(x / 10, w));
        assert(decimal(y, width).drop_last() == decimal(y / 10, w));
        lemma_decimal_injective(x / 10, y / 10, w);
    }
}

/// Whether `name` has the length of a segment's name and its fixed
/// characters in their places.
pub open spec fn framed(name: Seq<char>) -> bool {
    &&& name.len() == 49
    &&& name[0] == 'w'
    &&& name[1] == 'a'
    &&& name[2] == 'l'
    &&& name[3] == '-'
    &&& name[24] == '-'
    &&& name[45] == '.'
    &&& name[46] == 'l'
    &&& name[47] == 'o'
    &&& name[48] == 'g'
}

/// How a segment's name is laid out: forty-nine ASCII characters, the fixed
/// ones in their places and the two bounds in twenty digits each.
pub proof fn lemma_file_name_layout(seq_start: u64, seq_end: u64)
    ensures
        framed(file_name(seq_start, seq_end)),
        file_name(seq_start, seq_end).subrange(4, 24) == decimal(seq_start as nat, 20),
        file_name(seq_start, seq_end).subrange(25, 45) == decimal(seq_end as nat, 20),
        vstd::utf8::is_ascii_chars(file_name(seq_start, seq_end)),
{
    let name = file_name(seq_start, seq_end);
    lemma_decimal_len(seq_start as nat, 20);
    lemma_decimal_len(seq_end as nat, 20);
    assert(name.subrange(4, 24) == decimal(seq_start as nat, 20));
    assert(name.subrange(25, 45) == decimal(seq_end as nat, 20));
    assert forall|i: int| 0 <= i < name.len() implies '\0' <= #[trigger] name[i] <= '\u{7f}' by {
        if 4 <= i < 24 {
            lemma_decimal_digits(seq_start as nat, 20, i - 4);
        }
        if 25 <= i < 45 {
            lemma_decimal_digits(seq_end as nat, 20, i - 25);
        }
    }
}

/// Two ranges with the same segment name are the same range.
pub proof fn lemma_file_name_injective(a_start: u64, a_end: u64, b_start: u64, b_end: u64)
    requires
        file_name(a_start, a_end) == file_name(b_start, b_end),
    ensures
        a_start == b_start,
        a_end == b_end,
{
    lemma_file_name_layout(a_start, a_end);
    lemma_file_name_layout(b_start, b_end);
    lemma_pow10_bounds(20);
    lemma_decimal_injective(a_start as nat, b_start as nat, 20);
    lemma_decimal_injective(a_end as nat, b_end as nat, 20);
}

/// The range of a segment's name is the range that the name was made for.
pub proof fn lemma_range_of_file_name(seq_start: u64, seq_end: u64)
    ensures
        range_of(file_name(seq_start, seq_end)) == Some((seq_start, seq_end)),
{
    let name = file_name(seq_start, seq_end);
    let range = choose|range: (u64, u64)| name == file_name(range.0, range.1);
    assert(name == file_name((seq_start, seq_end).0, (seq_start, seq_end).1));
    lemma_file_name_injective(seq_start, seq_end, range.0, range.1);
}

/// The decimal digit `d` as a string of one character.
fn digit_str(d: u64) -> (s: &'static str)
    requires
        d < 10,
    ensures
        s@ == seq![digit(d as nat)],
{
    proof {
        reveal_strlit("0");
        reveal_strlit("1");
        reveal_strlit("2");
        reveal_strlit("3");
        reveal_strlit("4");
        reveal_strlit("5");
        reveal_strlit("6");
        reveal_strlit("7");
        reveal_strlit("8");
        reveal_strlit("9");
    }
    let s = if d == 0 {
        "0"
    } else if d == 1 {
        "1"
    } else if d == 2 {
        "2"
    } else if d == 3 {
        "3"
    } else if d == 4 {
        "4"
    } else if d == 5 {
        "5"
    } else if d == 6 {
        "6"
    } else if d == 7 {
        "7"
    } else if d == 8 {
        "8"
    } else {
        "9"
    };
    assert(s@ =~= seq![digit(d as nat)]);
    s
}

/// Appends `n` in decimal, in exactly `width` digits.
fn push_decimal(out: &mut String, n: u64, width: u32)
    ensures
        final(out)@ == old(out)@ + decimal(n as nat, width as nat),
    decreases width,
{
    if width > 0 {
        push_decimal(out, n / 10, width - 1);
        out.append(digit_str(n % 10));
    }
    assert(out@ =~= old(out)@ + decimal(n as nat, width as nat));
}

/// The name of the segment that covers `seq_start` to `seq_end`.
pub fn wal_file_name(seq_start: u64, seq_end: u64) -> (name: String)
    ensures
        name@ == file_name(seq_start, seq_end),
{
    proof {
        reveal_strlit("wal-");
        reveal_strlit("-");
        reveal_strlit(".log");
    }
    let mut name = String::from_str("wal-");
    push_decimal(&mut name, seq_start, SEQ_DIGITS);
    name.append("-");
    push_decimal(&mut name, seq_end, SEQ_DIGITS);
    name.append(".log");
    assert(name@ =~= file_name(seq_start, seq_end));
    name
}

/// Reads the twenty digits of `name` that start at `from`.
fn parse_decimal(name: &str, from: usize) -> (r: Option<u64>)
    requires
        name.is_ascii(),
        from <= 25,
        from + 20 <= name@.len(),
    ensures
        match r {
            Some(n) => name@.subrange(from as int, from + 20) == decimal(n as nat, 20),
            None => forall|n: u64|
                name@.subrange(from as int, from + 20) != #[trigger] decimal(n as nat, 20),
        },
{
    let ghost digits = name@.subrange(from as int, from + 20);
    let mut acc: u128 = 0;
    let mut k: usize = 0;
    while k < 20
        invariant
            name.is_ascii(),
            from <= 25,
            from + 20 <= name@.len(),
            digits == name@.subrange(from as int, from + 20),
            k <= 20,
            acc < pow10(k as nat),
            decimal(acc as nat, k as nat) == digits.take(k as int),
        decreases 20 - k,
    {
        let b: u8 = name.get_ascii(from + k);
        if b < '0' as u8 || b > '9' as u8 {
            proof {
                assert forall|n: u64| digits != #[trigger] decimal(n as nat, 20) by {
                    lemma_decimal_digits(n as nat, 20, k as int);
                }
            }
            return None;
        }
        proof {
            lemma_pow10_bounds(k as nat);
            lemma_pow10_bounds((k + 1) as nat);
        }
        let ghost before = acc;
        acc = acc * 10 + (b - '0' as u8) as u128;
        proof {
            assert(digits[k as int] == digit((b - 48) as nat));
            assert(digits.take(k + 1) == digits.take(k as int).push(digits[k as int]));
            assert(acc / 10 == before && acc % 10 == (b - 48));
        }
        k += 1;
    }
    proof {
        assert(digits.take(20) == digits);
    }
    if acc > u64::MAX as u128 {
        proof {
            assert forall|n: u64| digits != #[trigger] decimal(n as nat, 20) by {
                lemma_pow10_bounds(20);
                if digits == decimal(n as nat, 20) {
                    lemma_decimal_injective(n as nat, acc as nat, 20);
                }
            }
        }
        None
    } else {
        Some(acc as u64)
    }
}

/// Whether the character of `name` at `at` is the ASCII character `c`.
fn has_char(name: &str, at: usize, c: u8) -> (r: bool)
    requires
        name.is_ascii(),
        at < name@.len(),
        c < 128,
    ensures
        r == (name@[at as int] == c as char),
{
    proof {
        assert('\0' <= name@[at as int] <= '\u{7f}');
    }
    name.get_ascii(at) == c
}

/// Whether `name` is made of ASCII characters and framed as a segment's name.
fn is_framed(name: &str) -> (r: bool)
    ensures
        r == (name.is_ascii() && framed(name@)),
{
    if !name.is_ascii() {
        return false;
    }
    proof {
        is_ascii_spec_bytes(name);
        assert(name.spec_bytes().len() == name@.len());
    }
    if name.as_bytes().len() != 49 {
        return false;
    }
    has_char(name, 0, 'w' as u8) && has_char(name, 1, 'a' as u8) && has_char(name, 2, 'l' as u8)
        && has_char(name, 3, '-' as u8) && has_char(name, 24, '-' as u8) && has_char(
        name,
        45,
        '.' as u8,
    ) && has_char(name, 46, 'l' as u8) && has_char(name, 47, 'o' as u8) && has_char(
        name,
        48,
        'g' as u8,
    )
}

impl WriteAheadLog {
    /// Reads the sequence range out of a segment's name.
    ///
    /// Gives the range for a name that follows the naming pattern to the letter,
    /// and `None` for every other string.
    pub fn extract_seq_range_from_path(name: &str) -> (r: Option<(u64, u64)>)
        ensures
            match r {
                Some((seq_start, seq_end)) => name@ == file_name(seq_start, seq_end),
                None => forall|seq_start: u64, seq_end: u64|
                    name@ != #[trigger] file_name(seq_start, seq_end),
            },
            r == range_of(name@),
    {
        if !is_framed(name) {
            proof {
                assert forall|a: u64, b: u64| name@ != #[trigger] file_name(a, b) by {
                    lemma_file_name_layout(a, b);
                }
            }
            return None;
        }
        let seq_start = match parse_decimal(name, 4) {
            Some(n) => n,
            None => {
                proof {
                    assert forall|a: u64, b: u64| name@ != #[trigger] file_name(a, b) by {
                        lemma_file_name_layout(a, b);
                    }
                }
                return None;
            },
        };
        let seq_end = match parse_decimal(name, 25) {
            Some(n) => n,
            None => {
                proof {
                    assert forall|a: u64, b: u64| name@ != #[trigger] file_name(a, b) by {
                        lemma_file_name_layout(a, b);
                    }
                }
                return None;
            },
        };
        proof {
            lemma_file_name_layout(seq_start, seq_end);
            assert(name@ =~= file_name(seq_start, seq_end));
            lemma_range_of_file_name(seq_start, seq_end);
        }
        Some((seq_start, seq_end))
    }
}

} // verus!
