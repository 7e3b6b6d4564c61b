//! The exit interpreter: classifies a finished process into a uniform
//! outcome.
//!
//! A nonzero exit does not necessarily mean failure: the wrapped tool
//! signals some benign conditions through dedicated exit codes, and some
//! versions report real results on stdout despite a nonzero code.  The
//! classification below mirrors that, over output already normalized by
//! [`crate::normalize`].

use crate::normalize::{normalize_spec, strip_ansi_spec, normalize_console_output, strip_ansi};
use crate::strutil::{is_blank, push_char, str_is_blank};
use vstd::prelude::*;
use vstd::string::StringExecFns;

verus! {

/// Result of classifying one process exit: the captured stdout on success,
/// a diagnostic message on failure.
#[derive(Debug, Clone, PartialEq, Eq)]
pub enum ExitOutcome {
    Success(String),
    Failure(String),
}

/// The exit codes that the wrapped tool uses for benign, no-op conditions.
/// Held as data, not compared inline, so the set can be extended without
/// touching the interpreter.
#[derive(Debug, Clone, PartialEq, Eq)]
pub struct SoftSuccessTable {
    pub codes: Vec<i32>,
}

/// True iff `c` is one of the listed soft-success codes.
pub open spec fn soft_contains(codes: Seq<i32>, c: int) -> bool {
    exists|i: int| 0 <= i < codes.len() && #[trigger] codes[i] == c
}

impl SoftSuccessTable {
    /// The codes `winget` itself is known to use: `0x8A150001` (no
    /// applicable update) and `0x8A150019` (no newer package version),
    /// written as the signed 32-bit values a process exit reports.
    pub fn winget_defaults() -> (r: SoftSuccessTable)
        ensures
            r.codes@ == seq![-1978335231i32, -1978335207i32],
    {
        let mut codes: Vec<i32> = Vec::new();
        codes.push(-1978335231i32);
        codes.push(-1978335207i32);
        proof {
            assert(codes@ =~= seq![-1978335231i32, -1978335207i32]);
        }
        SoftSuccessTable { codes }
    }

    /// True iff `c` is in the table.
    pub fn is_soft_success(&self, c: i32) -> (r: bool)
        ensures
            r == soft_contains(self.codes@, c as int),
    {
        let mut i: usize = 0;
        while i < self.codes.len()
            invariant
                i <= self.codes@.len(),
                forall|j: int| 0 <= j < i ==> #[trigger] self.codes@[j] != c,
            decreases self.codes@.len() - i,
        {
            if self.codes[i] == c {
                return true;
            }
            i = i + 1;
        }
        false
    }
}

/// The exit code used for classification and reporting: the reported code,
/// or `-1` when the platform supplied none.
pub open spec fn effective_code(code: Option<i32>) -> int {
    match code {
        Some(c) => c as int,
        None => -1,
    }
}

/// The decimal digit character for `0 <= d <= 9`.
pub open spec fn dec_digit(d: int) -> char {
    if d == 0 {
        '0'
    } else if d == 1 {
        '1'
    } else if d == 2 {
        '2'
    } else if d == 3 {
        '3'
    } else if d == 4 {
        '4'
    } else if d == 5 {
        '5'
    } else if d == 6 {
        '6'
    } else if d == 7 {
        '7'
    } else if d == 8 {
        '8'
    } else {
        '9'
    }
}

/// The decimal digits of a natural number, most significant first.
pub open spec fn dec_digits(n: nat) -> Seq<char>
    decreases n,
{
    if n < 10 {
        seq![dec_digit(n as int)]
    } else {
        dec_digits(n / 10).push(dec_digit((n % 10) as int))
    }
}

/// The decimal rendering of a signed 32-bit value.
pub open spec fn int32_digits(c: int) -> Seq<char> {
    if c < 0 {
        seq!['-'] + dec_digits((-c) as nat)
    } else {
        dec_digits(c as nat)
    }
}

fn dec_digit_char(d: u32) -> (c: char)
    requires
        d < 10,
    ensures
        c == dec_digit(d as int),
{
    if d == 0 {
        '0'
    } else if d == 1 {
        '1'
    } else if d == 2 {
        '2'
    } else if d == 3 {
        '3'
    } else if d == 4 {
        '4'
    } else if d == 5 {
        '5'
    } else if d == 6 {
        '6'
    } else if d == 7 {
        '7'
    } else if d == 8 {
        '8'
    } else {
        '9'
    }
}

fn u32_digits(m: u32) -> (r: Vec<char>)
    ensures
        r@ == dec_digits(m as nat),
{
    let mut digits: Vec<char> = Vec::new();
    let mut x: u32 = m;
    if x == 0 {
        digits.push('0');
        proof {
            assert(digits@ =~= dec_digits(0));
        }
        return digits;
    }
    proof {
        assert(dec_digits(m as nat) =~= dec_digits(x as nat) + digits@);
    }
    while x > 0
        invariant
            x > 0 ==> dec_digits(m as nat) == dec_digits(x as nat) + digits@,
            x == 0 ==> dec_digits(m as nat) == digits@,
        decreases x,
    {
        let d: u32 = x % 10;
        let c = dec_digit_char(d);
        let ghost before = digits@;
        digits.insert(0, c);
        proof {
            assert(digits@ =~= seq![c] + before);
        }
        let next: u32 = x / 10;
        proof {
            if next > 0 {
                assert(dec_digits(x as nat) == dec_digits(x as nat / 10).push(dec_digit(
                    (x as nat % 10) as int,
                )));
                assert(dec_digits(x as nat / 10).push(c) + before =~= dec_digits(x as nat / 10) + (
                seq![c] + before));
            } else {
                assert(dec_digits(x as nat) =~= seq![c]);
                assert(seq![c] + before =~= dec_digits(x as nat) + before);
            }
        }
        x = next;
    }
    digits
}

/// Renders a signed 32-bit value in decimal.
pub fn i32_to_string(c: i32) -> (r: String)
    ensures
        r@ == int32_digits(c as int),
{
    let mut out: String = String::new();
    let m: u32 = if c >= 0 {
        c as u32
    } else {
        (-(c as i64)) as u32
    };
    if c < 0 {
        push_char(&mut out, '-');
    }
    let digits = u32_digits(m);
    let tail = crate::strutil::chars_to_string(&digits);
    out.append(tail.as_str());
    proof {
        if c < 0 {
            assert(Seq::<char>::empty().push('-') + dec_digits(m as nat) =~= seq!['-']
                + dec_digits((-(c as int)) as nat));
        } else {
            assert(Seq::<char>::empty() + dec_digits(m as nat) =~= dec_digits(c as nat));
        }
    }
    out
}

/// The failure message for a process that produced no usable output.
pub open spec fn exit_code_message(code: Option<i32>) -> Seq<char> {
    "winget exited with code "@ + int32_digits(effective_code(code))
}

/// Classifies one process exit.
///
/// Both captured streams are stripped of escape sequences and
/// carriage-return-collapsed first.  The outcome is, in order: success when
/// the exit status says so; success when the code is a listed soft-success
/// sentinel; otherwise the stderr text when there is any; otherwise the
/// stdout text when there is any; otherwise a failure naming the code.
pub fn interpret_exit(
    success: bool,
    code: Option<i32>,
    stdout: &str,
    stderr: &str,
    table: &SoftSuccessTable,
) -> (r: ExitOutcome)
    ensures
        ({
            let no = normalize_spec(strip_ansi_spec(stdout@));
            let ne = normalize_spec(strip_ansi_spec(stderr@));
            let soft = soft_contains(table.codes@, effective_code(code));
            &&& (success || soft) ==> (r matches ExitOutcome::Success(t) && t@ == no)
            &&& (!success && !soft && !is_blank(ne)) ==> (r matches ExitOutcome::Failure(m) && m@
                == ne)
            &&& (!success && !soft && is_blank(ne) && !is_blank(no)) ==> (r matches
                ExitOutcome::Success(t) && t@ == no)
            &&& (!success && !soft && is_blank(ne) && is_blank(no)) ==> (r matches
                ExitOutcome::Failure(m) && m@ == exit_code_message(code))
        }),
{
    let stripped_out = strip_ansi(stdout);
    let norm_out = normalize_console_output(stripped_out.as_str());
    let stripped_err = strip_ansi(stderr);
    let norm_err = normalize_console_output(stripped_err.as_str());
    let c: i32 = match code {
        Some(v) => v,
        None => -1,
    };
    if success {
        return ExitOutcome::Success(norm_out);
    }
    if table.is_soft_success(c) {
        return ExitOutcome::Success(norm_out);
    }
    if !str_is_blank(norm_err.as_str()) {
        return ExitOutcome::Failure(norm_err);
    }
    if !str_is_blank(norm_out.as_str()) {
        return ExitOutcome::Success(norm_out);
    }
    let mut msg: String = "winget exited with code ".to_owned();
    let digits = i32_to_string(c);
    msg.append(digits.as_str());
    ExitOutcome::Failure(msg)
}

/// The fields of the terminal notification, from the result of waiting on
/// the process: the reported status when the wait succeeded, a plain
/// failure with no code when even the wait failed.
pub fn finish_status(wait: Option<(bool, Option<i32>)>) -> (r: (bool, Option<i32>))
    ensures
        wait matches Some(s) ==> r == s,
        wait is None ==> r == (false, None::<i32>),
{
    match wait {
        Some(s) => s,
        None => (false, None),
    }
}

} // verus!
