//! The errors of the crate and their texts.

use vstd::prelude::*;
use vstd::string::*;

verus! {

/// What the operations of this crate can refuse.
#[derive(Debug, Clone, Copy, PartialEq, Eq, Structural)]
pub enum CarveError {
    /// A buffer of `len` cells cannot be cut into rows of `width` cells.
    Construction { len: usize, width: usize },
    /// A seam of `seam_len` entries was given for a grid of `height` rows.
    SeamLength { seam_len: usize, height: usize },
    /// A dimension was asked to grow by more seams than the image can supply.
    Capacity,
    /// A target dimension lies outside what resizing supports.
    BoundsViolation,
}

/// The character that writes the decimal digit `d`.
pub open spec fn digit(d: nat) -> char {
    if d == 0 {
        '0'
    } else if d == 1 {
        '1'
    } else if d == 2 {
        '2'
    } else if d == 3 {
        '3'
    } else if d == 4 {
        '4'
    } else if d == 5 {
        '5'
    } else if d == 6 {
        '6'
    } else if d == 7 {
        '7'
    } else if d == 8 {
        '8'
    } else {
        '9'
    }
}

/// The decimal numeral of `n`, without leading zeros.
pub open spec fn decimal(n: nat) -> Seq<char>
    decreases n,
{
    if n < 10 {
        seq![digit(n)]
    } else {
        decimal(n / 10).push(digit(n % 10))
    }
}

fn digit_char(d: usize) -> (c: char)
    requires
        d < 10,
    ensures
        c == digit(d as nat),
{
    if d == 0 {
        '0'
    } else if d == 1 {
        '1'
    } else if d == 2 {
        '2'
    } else if d == 3 {
        '3'
    } else if d == 4 {
        '4'
    } else if d == 5 {
        '5'
    } else if d == 6 {
        '6'
    } else if d == 7 {
        '7'
    } else if d == 8 {
        '8'
    } else {
        '9'
    }
}

/// `String::push`: the character is appended to the end of the string.
#[verifier::external_body]
fn string_push(s: &mut String, c: char)
    ensures
        final(s)@ == old(s)@.push(c),
{
    s.push(c)
}

/// Writes `n` as a decimal numeral.
pub fn decimal_string(n: usize) -> (s: String)
    ensures
        s@ == decimal(n as nat),
    decreases n,
{
    if n < 10 {
        let mut s = String::new();
        string_push(&mut s, digit_char(n));
        s
    } else {
        let mut s = decimal_string(n / 10);
        string_push(&mut s, digit_char(n % 10));
        s
    }
}

impl CarveError {
    /// The text of the error, as a sequence of characters.
    pub open spec fn message_spec(self) -> Seq<char> {
        match self {
            CarveError::Construction { len, width } => {
                "length of data must be divisible by width, got "@ + decimal(len as nat) + " and "@
                    + decimal(width as nat)
            },
            CarveError::SeamLength { seam_len, height } => {
                "seam length and image height should be equal, got "@ + decimal(seam_len as nat)
                    + " and "@ + decimal(height as nat)
            },
            CarveError::Capacity => "target dimension needs more seams than the image holds"@,
            CarveError::BoundsViolation => "target dimension is outside the supported range"@,
        }
    }

    /// The text of the error.
    pub fn message(&self) -> (s: String)
        ensures
            s@ == self.message_spec(),
    {
        match *self {
            CarveError::Construction { len, width } => {
                let mut s = String::from_str("length of data must be divisible by width, got ");
                s.append(decimal_string(len).as_str());
                s.append(" and ");
                s.append(decimal_string(width).as_str());
                s
            },
            CarveError::SeamLength { seam_len, height } => {
                let mut s = String::from_str("seam length and image height should be equal, got ");
                s.append(decimal_string(seam_len).as_str());
                s.append(" and ");
                s.append(decimal_string(height).as_str());
                s
            },
            CarveError::Capacity => String::from_str(
                "target dimension needs more seams than the image holds",
            ),
            CarveError::BoundsViolation => String::from_str(
                "target dimension is outside the supported range",
            ),
        }
    }
}

} // verus!
