//! What the link store reports back, and how its answers are judged.

use vstd::prelude::*;
use vstd::string::*;

verus! {

/// An error of the link store, with what the store said.
#[derive(Clone, Debug)]
pub struct DbError {
    pub message: String,
}

/// The decimal digit for `n`, where `0 <= n < 10`.
pub open spec fn digit(n: int) -> char {
    (0x30 + n) as u8 as char
}

/// The decimal digits of `n`, without leading zeros; one `0` for zero.
pub open spec fn decimal(n: nat) -> Seq<char>
    decreases n,
{
    if n < 10 {
        seq![digit(n as int)]
    } else {
        decimal(n / 10).push(digit(n as int % 10))
    }
}

/// What the store is told where a statement did not change one row.
pub open spec fn row_count_message(rows_affected: nat) -> Seq<char> {
    "expected to affect 1 row, affected "@ + decimal(rows_affected)
}

/// Writes `n` in decimal digits.
pub fn to_decimal(n: usize) -> (out: String)
    ensures
        out@ == decimal(n as nat),
{
    let mut digits: Vec<char> = Vec::new();
    let mut rest: usize = n;
    // The digits of `n`, the last one first.
    loop
        invariant_except_break
            decimal(n as nat) == decimal(rest as nat) + digits@.reverse(),
        ensures
            decimal(n as nat) == digits@.reverse(),
        decreases rest,
    {
        let last: u8 = (rest % 10) as u8;
        let c: char = (0x30u8 + last) as char;
        let ghost before = digits@;
        digits.push(c);
        proof {
            assert(c == digit(rest as int % 10));
            assert(digits@.reverse() =~= seq![c] + before.reverse());
            if rest < 10 {
                assert(decimal(rest as nat) + before.reverse() =~= digits@.reverse());
            } else {
                assert(decimal(rest as nat) + before.reverse() =~= decimal((rest / 10) as nat)
                    + (seq![c] + before.reverse()));
            }
        }
        rest = rest / 10;
        if rest == 0 {
            break;
        }
    }
    let mut out = String::new();
    let mut i: usize = digits.len();
    while i > 0
        invariant
            i <= digits.len(),
            out@ == digits@.reverse().take(digits.len() - i),
        decreases i,
    {
        i -= 1;
        out.push(digits[i]);
        assert(out@ =~= digits@.reverse().take(digits.len() - i));
    }
    assert(digits@.reverse().take(digits.len() as int) =~= digits@.reverse());
    out
}

impl DbError {
    /// An error with the message `message`.
    pub fn new(message: String) -> (e: DbError)
        ensures
            e.message@ == message@,
    {
        DbError { message }
    }

    /// An error that says what another error said: `e` is that error's text.
    pub fn from(e: &str) -> (error: DbError)
        ensures
            error.message@ == e@,
    {
        DbError::new(e.to_owned())
    }

    /// The error's text.
    pub fn to_text(&self) -> (text: String)
        ensures
            text@ == self.message@,
    {
        self.message.clone()
    }

    /// Judges the number of rows that a statement changed: it is to change
    /// exactly one.
    pub fn expect_one_row(rows_affected: usize) -> (out: Result<(), DbError>)
        ensures
            match out {
                Ok(()) => rows_affected == 1,
                Err(e) => rows_affected != 1 && e.message@ == row_count_message(
                    rows_affected as nat,
                ),
            },
    {
        if rows_affected == 1 {
            Ok(())
        } else {
            let mut message = "expected to affect 1 row, affected ".to_owned();
            let count = to_decimal(rows_affected);
            message.append(count.as_str());
            Err(DbError::new(message))
        }
    }
}

} // verus!
