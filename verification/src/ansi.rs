use vstd::prelude::*;
use vstd::string::StringExecFns;

verus! {

/// The character of the decimal digit `d`.
pub open spec fn digit_char(d: int) -> char {
    if d == 0 {
        '0'
    } else if d == 1 {
        '1'
    } else if d == 2 {
        '2'
    } else if d == 3 {
        '3'
    } else if d == 4 {
        '4'
    } else if d == 5 {
        '5'
    } else if d == 6 {
        '6'
    } else if d == 7 {
        '7'
    } else if d == 8 {
        '8'
    } else {
        '9'
    }
}

/// The decimal digits of `n`, the most significant first, without leading
/// zeros.
pub open spec fn decimal_digits(n: nat) -> Seq<char>
    decreases n,
{
    if n < 10 {
        seq![digit_char(n as int)]
    } else {
        decimal_digits(n / 10).push(digit_char((n % 10) as int))
    }
}

/// `n` written in decimal, with a minus sign where it is negative.
pub open spec fn decimal(n: int) -> Seq<char> {
    if n < 0 {
        seq!['-'] + decimal_digits((-n) as nat)
    } else {
        decimal_digits(n as nat)
    }
}

/// The escape sequence that moves the cursor of a terminal to column `col`
/// of row `row`, both counted from 0: the terminal counts them from 1.
pub open spec fn cursor_sequence(col: int, row: int) -> Seq<char> {
    seq!['\x1b', '['] + decimal(row + 1) + seq![';'] + decimal(col + 1) + seq!['H']
}

/// The digit `d` as text.
fn digit_str(d: u64) -> (s: &'static str)
    requires
        d < 10,
    ensures
        s@ == seq![digit_char(d as int)],
{
    proof {
        reveal_strlit("0");
        reveal_strlit("1");
        reveal_strlit("2");
        reveal_strlit("3");
        reveal_strlit("4");
        reveal_strlit("5");
        reveal_strlit("6");
        reveal_strlit("7");
        reveal_strlit("8");
        reveal_strlit("9");
    }
    let s = if d == 0 {
        "0"
    } else if d == 1 {
        "1"
    } else if d == 2 {
        "2"
    } else if d == 3 {
        "3"
    } else if d == 4 {
        "4"
    } else if d == 5 {
        "5"
    } else if d == 6 {
        "6"
    } else if d == 7 {
        "7"
    } else if d == 8 {
        "8"
    } else {
        "9"
    };
    assert(s@ =~= seq![digit_char(d as int)]);
    s
}

/// Appends the decimal digits of `n` to `text`.
fn append_digits(text: &mut String, n: u64)
    ensures
        final(text)@ == old(text)@ + decimal_digits(n as nat),
    decreases n,
{
    if n >= 10 {
        append_digits(text, n / 10);
    }
    text.append(digit_str(n % 10));
    proof {
        if n >= 10 {
            assert(text@ =~= old(text)@ + decimal_digits((n / 10) as nat).push(
                digit_char((n % 10) as int),
            ));
        } else {
            assert(text@ =~= old(text)@ + seq![digit_char(n as int)]);
        }
    }
}

/// Appends `n` in decimal to `text`.
pub fn append_decimal(text: &mut String, n: i64)
    requires
        n > i64::MIN,
    ensures
        final(text)@ == old(text)@ + decimal(n as int),
{
    if n < 0 {
        proof {
            reveal_strlit("-");
        }
        text.append("-");
        append_digits(text, (-n) as u64);
        proof {
            assert(text@ =~= old(text)@ + (seq!['-'] + decimal_digits((-n) as nat)));
        }
    } else {
        append_digits(text, n as u64);
    }
}

/// The escape sequence that moves the cursor to column `col` of row `row`,
/// both counted from 0.
pub fn move_cursor(col: i32, row: i32) -> (sequence: String)
    ensures
        sequence@ == cursor_sequence(col as int, row as int),
{
    proof {
        reveal_strlit("\x1b[");
        reveal_strlit(";");
        reveal_strlit("H");
    }
    let mut sequence = String::from_str("\x1b[");
    append_decimal(&mut sequence, row as i64 + 1);
    sequence.append(";");
    append_decimal(&mut sequence, col as i64 + 1);
    sequence.append("H");
    proof {
        assert("\x1b["@ =~= seq!['\x1b', '[']);
        assert(";"@ =~= seq![';']);
        assert("H"@ =~= seq!['H']);
        assert(sequence@ =~= cursor_sequence(col as int, row as int));
    }
    sequence
}

} // verus!
