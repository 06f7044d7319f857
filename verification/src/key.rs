//! Cell keys: the text `row+col` that names a cell, with both coordinates
//! in decimal and a minus sign in front of a negative one.

use vstd::prelude::*;
use crate::grid::Cell;
use crate::snake::Snake;

verus! {

/// Why a text is no cell key: it is not two integers of the coordinate type
/// with a plus sign between them.
#[derive(Clone, Copy, Debug, PartialEq, Eq, Structural)]
pub struct MalformedKey;

/// The character of the decimal digit `d`.
pub open spec fn digit_char(d: int) -> char {
    (48 + d) as char
}

pub open spec fn is_digit(c: char) -> bool {
    48 <= c as int <= 57
}

/// The number that the decimal digit `c` stands for.
pub open spec fn digit_value(c: char) -> int {
    c as int - 48
}

/// The decimal numeral of `n`, without leading zeros.
pub open spec fn decimal(n: nat) -> Seq<char>
    decreases n,
{
    if n < 10 {
        seq![digit_char(n as int)]
    } else {
        decimal(n / 10).push(digit_char(n as int % 10))
    }
}

/// The text of the integer `v`.
pub open spec fn integer_text(v: int) -> Seq<char> {
    if v < 0 {
        seq!['-'] + decimal((-v) as nat)
    } else {
        decimal(v as nat)
    }
}

/// The key of `cell`.
pub open spec fn key_text(cell: Cell) -> Seq<char> {
    integer_text(cell.row as int) + seq!['+'] + integer_text(cell.col as int)
}

pub open spec fn all_digits(text: Seq<char>) -> bool {
    forall|i: int| 0 <= i < text.len() ==> is_digit(#[trigger] text[i])
}

/// The number that a sequence of decimal digits stands for.
pub open spec fn digits_value(text: Seq<char>) -> int
    decreases text.len(),
{
    if text.len() == 0 {
        0
    } else {
        digits_value(text.drop_last()) * 10 + digit_value(text.last())
    }
}

/// The integer that `text` stands for: an optional minus sign, then one or
/// more decimal digits, with a value of the coordinate type. Leading zeros
/// are accepted.
pub open spec fn integer_value(text: Seq<char>) -> Option<int> {
    let negative = text.len() > 0 && text[0] == '-';
    let digits = if negative {
        text.skip(1)
    } else {
        text
    };
    let value = if negative {
        -digits_value(digits)
    } else {
        digits_value(digits)
    };
    if digits.len() >= 1 && all_digits(digits) && i32::MIN <= value <= i32::MAX {
        Some(value)
    } else {
        None
    }
}

/// `text` is a key with its plus sign at index `at`.
pub open spec fn splits_at(text: Seq<char>, at: int) -> bool {
    &&& 0 <= at < text.len()
    &&& text[at] == '+'
    &&& integer_value(text.take(at)) is Some
    &&& integer_value(text.skip(at + 1)) is Some
}

/// The cell that `text` names, if it is a key.
pub open spec fn key_cell(text: Seq<char>) -> Option<Cell> {
    if exists|at: int| splits_at(text, at) {
        let at = choose|at: int| splits_at(text, at);
        Some(
            Cell {
                row: integer_value(text.take(at))->0 as i32,
                col: integer_value(text.skip(at + 1))->0 as i32,
            },
        )
    } else {
        None
    }
}

/// The text of an integer holds no plus sign.
pub proof fn lemma_integer_has_no_plus(text: Seq<char>, i: int)
    requires
        integer_value(text) is Some,
        0 <= i < text.len(),
    ensures
        text[i] != '+',
{
    if text[0] == '-' {
        if i > 0 {
            assert(text.skip(1)[i - 1] == text[i]);
        }
    }
}

/// A key has one plus sign only: it splits at one place.
pub proof fn lemma_split_is_unique(text: Seq<char>, i: int, j: int)
    requires
        splits_at(text, i),
        splits_at(text, j),
    ensures
        i == j,
{
    if i < j {
        assert(text.take(j)[i] == '+');
        lemma_integer_has_no_plus(text.take(j), i);
    }
    if j < i {
        assert(text.take(i)[j] == '+');
        lemma_integer_has_no_plus(text.take(i), j);
    }
}

/// A numeral is made of one or more digits and stands for its number.
pub proof fn lemma_decimal(n: nat)
    ensures
        decimal(n).len() >= 1,
        all_digits(decimal(n)),
        digits_value(decimal(n)) == n,
    decreases n,
{
    if n < 10 {
        let text = decimal(n);
        assert(text.drop_last() =~= Seq::<char>::empty());
        assert(digits_value(text.drop_last()) == 0);
    } else {
        lemma_decimal(n / 10);
        let text = decimal(n);
        assert(text.drop_last() =~= decimal(n / 10));
        assert(text.last() == digit_char(n as int % 10));
    }
}

/// The text of an integer of the coordinate type stands for that integer.
pub proof fn lemma_integer_text(v: int)
    requires
        i32::MIN <= v <= i32::MAX,
    ensures
        integer_value(integer_text(v)) == Some(v),
{
    if v < 0 {
        lemma_decimal((-v) as nat);
        assert(integer_text(v).skip(1) =~= decimal((-v) as nat));
    } else {
        lemma_decimal(v as nat);
        assert(is_digit(decimal(v as nat)[0]));
    }
}

/// Decoding the key of a cell gives the cell back.
pub proof fn lemma_key_names_its_cell(cell: Cell)
    ensures
        key_cell(key_text(cell)) == Some(cell),
{
    let row = integer_text(cell.row as int);
    let col = integer_text(cell.col as int);
    let text = key_text(cell);
    let at = row.len() as int;
    lemma_integer_text(cell.row as int);
    lemma_integer_text(cell.col as int);
    assert(text.take(at) =~= row);
    assert(text.skip(at + 1) =~= col);
    assert(text[at] == '+');
    assert(splits_at(text, at));
    let chosen = choose|at: int| splits_at(text, at);
    lemma_split_is_unique(text, at, chosen);
}

/// The text of one decimal digit.
fn digit_text(d: u32) -> (text: &'static str)
    requires
        d < 10,
    ensures
        text@ == seq![digit_char(d as int)],
{
    proof {
        reveal_strlit("0");
        reveal_strlit("1");
        reveal_strlit("2");
        reveal_strlit("3");
        reveal_strlit("4");
        reveal_strlit("5");
        reveal_strlit("6");
        reveal_strlit("7");
        reveal_strlit("8");
        reveal_strlit("9");
    }
    let text = match d {
        0 => "0",
        1 => "1",
        2 => "2",
        3 => "3",
        4 => "4",
        5 => "5",
        6 => "6",
        7 => "7",
        8 => "8",
        _ => "9",
    };
    assert(text@ =~= seq![digit_char(d as int)]);
    text
}

/// Appends the decimal numeral of `n`.
fn push_decimal(text: &mut String, n: u32)
    ensures
        final(text)@ == old(text)@ + decimal(n as nat),
    decreases n,
{
    if n >= 10 {
        push_decimal(text, n / 10);
    }
    text.append(digit_text(n % 10));
    assert(text@ =~= old(text)@ + decimal(n as nat));
}

/// Appends the text of the integer `v`.
fn push_integer(text: &mut String, v: i32)
    ensures
        final(text)@ == old(text)@ + integer_text(v as int),
{
    if v < 0 {
        proof {
            reveal_strlit("-");
        }
        text.append("-");
        push_decimal(text, (-(v as i64)) as u32);
    } else {
        push_decimal(text, v as u32);
    }
    assert(text@ =~= old(text)@ + integer_text(v as int));
}

/// The key of `cell`: its row, a plus sign, its column.
pub fn encode_key(cell: Cell) -> (key: String)
    ensures
        key@ == key_text(cell),
        key_cell(key@) == Some(cell),
{
    let mut key = String::new();
    push_integer(&mut key, cell.row);
    proof {
        reveal_strlit("+");
    }
    key.append("+");
    push_integer(&mut key, cell.col);
    proof {
        assert(key@ =~= key_text(cell));
        lemma_key_names_its_cell(cell);
    }
    key
}

/// The characters of `text`.
fn chars_of(text: &str) -> (chars: Vec<char>)
    ensures
        chars@ == text@,
{
    let mut chars: Vec<char> = Vec::new();
    for c in it: text.chars()
        invariant
            it.seq() == text@,
            chars@ == it.seq().take(it.index() as int),
    {
        chars.push(c);
        assert(it.seq().take(it.index() + 1) =~= it.seq().take(it.index() as int).push(c));
    }
    assert(chars@ =~= text@);
    chars
}

/// The digits of a numeral read so far never stand for more than the whole.
proof fn lemma_digits_value_grows(text: Seq<char>, k: int)
    requires
        all_digits(text),
        0 <= k <= text.len(),
    ensures
        0 <= digits_value(text.take(k)) <= digits_value(text),
    decreases text.len(),
{
    if text.len() == 0 {
        assert(text.take(k) =~= text);
    } else if k == text.len() {
        assert(text.take(k) =~= text);
        lemma_digits_value_grows(text.drop_last(), k - 1);
        assert(is_digit(text[text.len() - 1]));
    } else {
        lemma_digits_value_grows(text.drop_last(), k);
        assert(text.drop_last().take(k) =~= text.take(k));
        assert(is_digit(text[text.len() - 1]));
    }
}

/// The integer that the characters from `from` up to `to` stand for.
#[verifier::loop_isolation(false)]
fn parse_integer(chars: &Vec<char>, from: usize, to: usize) -> (value: Option<i32>)
    requires
        from <= to <= chars@.len(),
    ensures
        match value {
            Some(v) => integer_value(chars@.subrange(from as int, to as int)) == Some(v as int),
            None => integer_value(chars@.subrange(from as int, to as int)) is None,
        },
{
    let ghost text = chars@.subrange(from as int, to as int);
    let negative = from < to && chars[from] == '-';
    let start = if negative {
        from + 1
    } else {
        from
    };
    let ghost digits = chars@.subrange(start as int, to as int);
    proof {
        if negative {
            assert(text[0] == '-');
            assert(text.skip(1) =~= digits);
        } else {
            if text.len() > 0 {
                assert(text[0] == chars@[from as int]);
            }
            assert(text =~= digits);
        }
    }
    if start == to {
        return None;
    }
    let mut total: i64 = 0;
    let mut i: usize = start;
    proof {
        assert(digits.take(0) =~= Seq::<char>::empty());
    }
    while i < to
        invariant
            start <= i <= to <= chars@.len(),
            digits == chars@.subrange(start as int, to as int),
            all_digits(digits.take(i - start)),
            total == digits_value(digits.take(i - start)),
            0 <= total <= 2147483648,
        decreases to - i,
    {
        let c = chars[i];
        assert(digits[i - start] == c);
        if !('0' <= c && c <= '9') {
            assert(!is_digit(digits[i - start]));
            return None;
        }
        let d: i64 = (c as u32 - 48) as i64;
        proof {
            let read = digits.take(i - start + 1);
            assert(read.drop_last() =~= digits.take(i - start));
            assert(read.last() == c);
            assert(digits_value(read) == total * 10 + d);
            assert forall|k: int| 0 <= k < read.len() implies is_digit(#[trigger] read[k]) by {
                if k < read.len() - 1 {
                    assert(digits.take(i - start)[k] == read[k]);
                }
            }
        }
        total = total * 10 + d;
        i += 1;
        if total > 2147483648 {
            proof {
                if all_digits(digits) {
                    lemma_digits_value_grows(digits, i - start);
                }
            }
            return None;
        }
    }
    assert(digits.take(i - start) =~= digits);
    if negative {
        Some((-total) as i32)
    } else if total <= 2147483647 {
        Some(total as i32)
    } else {
        None
    }
}

/// The cell that `key` names. A text that is not two integers of the
/// coordinate type with a plus sign between them is malformed.
pub fn decode_key(key: &str) -> (decoded: Result<Cell, MalformedKey>)
    ensures
        match decoded {
            Ok(cell) => key_cell(key@) == Some(cell),
            Err(_) => key_cell(key@) is None,
        },
{
    let chars = chars_of(key);
    let mut at: usize = 0;
    while at < chars.len() && chars[at] != '+'
        invariant
            at <= chars@.len(),
            forall|k: int| 0 <= k < at ==> chars@[k] != '+',
        decreases chars@.len() - at,
    {
        at += 1;
    }
    proof {
        assert forall|other: int| splits_at(chars@, other) implies other == at by {
            if other > at {
                assert(chars@.take(other)[at as int] == '+');
                lemma_integer_has_no_plus(chars@.take(other), at as int);
            }
        }
        assert(chars@.take(at as int) =~= chars@.subrange(0, at as int));
    }
    if at == chars.len() {
        return Err(MalformedKey);
    }
    proof {
        assert(chars@.skip(at + 1) =~= chars@.subrange(at + 1, chars@.len() as int));
    }
    let row = parse_integer(&chars, 0, at);
    let col = parse_integer(&chars, at + 1, chars.len());
    match (row, col) {
        (Some(row), Some(col)) => {
            assert(splits_at(chars@, at as int));
            Ok(Cell { row, col })
        },
        _ => Err(MalformedKey),
    }
}

/// Whether the cell that `key` names is part of the snake.
pub fn is_cell_in_snake(snake: &Snake, key: &str) -> (found: Result<bool, MalformedKey>)
    ensures
        match found {
            Ok(inside) => key_cell(key@) matches Some(cell) && inside == snake@.contains(cell),
            Err(_) => key_cell(key@) is None,
        },
{
    match decode_key(key) {
        Ok(cell) => Ok(snake.occupies(cell)),
        Err(fault) => Err(fault),
    }
}

} // verus!
