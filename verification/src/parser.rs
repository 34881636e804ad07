//! The arguments of the program.

use vstd::prelude::*;
use vstd::string::*;

verus! {

/// Why a text is no number that fits 32 bits.
#[derive(Debug, Clone, Copy, PartialEq, Eq, Structural)]
pub enum NumberError {
    /// The text is empty.
    Empty,
    /// The text holds something else than decimal digits behind an optional `+`.
    InvalidDigit,
    /// The number is larger than `u32::MAX`.
    Overflow,
}

/// Why the arguments of the program give no configuration.
#[derive(Debug, Clone, Copy, PartialEq, Eq, Structural)]
pub enum ConfigError {
    /// Fewer than a program name, a path and two numbers were given.
    Usage,
    /// The new width is no number.
    Width(NumberError),
    /// The new height is no number.
    Height(NumberError),
}

/// What the program was asked to do.
#[derive(Debug, PartialEq, Eq)]
pub struct Config {
    pub infile: String,
    pub new_width: u32,
    pub new_height: u32,
}

/// The value of a decimal digit; nothing for any other character.
pub open spec fn digit_of(c: char) -> Option<int> {
    if c == '0' {
        Some(0)
    } else if c == '1' {
        Some(1)
    } else if c == '2' {
        Some(2)
    } else if c == '3' {
        Some(3)
    } else if c == '4' {
        Some(4)
    } else if c == '5' {
        Some(5)
    } else if c == '6' {
        Some(6)
    } else if c == '7' {
        Some(7)
    } else if c == '8' {
        Some(8)
    } else if c == '9' {
        Some(9)
    } else {
        None
    }
}

/// The number that a run of decimal digits writes, read from the left: the
/// first character that is no digit, or the first digit with which the number
/// passes `u32::MAX`, decides the error.
pub open spec fn number_of(digits: Seq<char>) -> Result<int, NumberError>
    decreases digits.len(),
{
    if digits.len() == 0 {
        Ok(0)
    } else {
        match number_of(digits.drop_last()) {
            Err(e) => Err(e),
            Ok(high) => match digit_of(digits.last()) {
                None => Err(NumberError::InvalidDigit),
                Some(low) => if high * 10 + low > u32::MAX {
                    Err(NumberError::Overflow)
                } else {
                    Ok(high * 10 + low)
                },
            },
        }
    }
}

/// The number that a text writes: decimal digits, at least one, behind an
/// optional `+`.
pub open spec fn parsed_number(text: Seq<char>) -> Result<u32, NumberError> {
    if text.len() == 0 {
        Err(NumberError::Empty)
    } else {
        let digits = if text[0] == '+' {
            text.drop_first()
        } else {
            text
        };
        if digits.len() == 0 {
            Err(NumberError::InvalidDigit)
        } else {
            match number_of(digits) {
                Ok(value) => Ok(value as u32),
                Err(e) => Err(e),
            }
        }
    }
}

/// What the arguments of the program ask for: the second names the image, the
/// third the new width, the fourth the new height; what follows is ignored.
pub open spec fn parsed_config(args: Seq<String>) -> Result<(Seq<char>, u32, u32), ConfigError> {
    if args.len() < 4 {
        Err(ConfigError::Usage)
    } else {
        match parsed_number(args[2]@) {
            Err(e) => Err(ConfigError::Width(e)),
            Ok(width) => match parsed_number(args[3]@) {
                Err(e) => Err(ConfigError::Height(e)),
                Ok(height) => Ok((args[1]@, width, height)),
            },
        }
    }
}

/// Once a prefix of the digits has failed, the whole text fails in the same way.
proof fn lemma_number_of_fails(digits: Seq<char>, until: int)
    requires
        0 <= until <= digits.len(),
        number_of(digits.take(until)) is Err,
    ensures
        number_of(digits) == number_of(digits.take(until)),
    decreases digits.len() - until,
{
    if until < digits.len() {
        assert(digits.take(until + 1).drop_last() =~= digits.take(until));
        lemma_number_of_fails(digits, until + 1);
    } else {
        assert(digits.take(until) =~= digits);
    }
}

fn char_digit(c: char) -> (d: Option<u32>)
    ensures
        match d {
            Some(value) => digit_of(c) == Some(value as int) && value <= 9,
            None => digit_of(c) is None,
        },
{
    if c == '0' {
        Some(0)
    } else if c == '1' {
        Some(1)
    } else if c == '2' {
        Some(2)
    } else if c == '3' {
        Some(3)
    } else if c == '4' {
        Some(4)
    } else if c == '5' {
        Some(5)
    } else if c == '6' {
        Some(6)
    } else if c == '7' {
        Some(7)
    } else if c == '8' {
        Some(8)
    } else if c == '9' {
        Some(9)
    } else {
        None
    }
}

/// Reads a number of 32 bits from a text.
pub fn parse_number(text: &str) -> (r: Result<u32, NumberError>)
    ensures
        r == parsed_number(text@),
{
    let len = text.unicode_len();
    if len == 0 {
        return Err(NumberError::Empty);
    }
    let start: usize = if text.get_char(0) == '+' {
        1
    } else {
        0
    };
    if start == len {
        return Err(NumberError::InvalidDigit);
    }
    let ghost digits = if text@[0] == '+' {
        text@.drop_first()
    } else {
        text@
    };
    let mut value: u32 = 0;
    let mut i: usize = start;
    while i < len
        invariant
            start <= i <= len,
            len == text@.len(),
            start < len,
            digits.len() == len - start,
            digits == (if text@[0] == '+' {
                text@.drop_first()
            } else {
                text@
            }),
            forall|k: int| 0 <= k < digits.len() ==> digits[k] == text@[k + start],
            number_of(digits.take(i - start)) == Ok::<int, NumberError>(value as int),
        decreases len - i,
    {
        let c = text.get_char(i);
        proof {
            assert(digits.take(i - start + 1).drop_last() =~= digits.take(i - start));
        }
        match char_digit(c) {
            None => {
                proof {
                    assert(number_of(digits.take(i - start + 1)) == Err::<int, NumberError>(
                        NumberError::InvalidDigit,
                    ));
                    lemma_number_of_fails(digits, i - start + 1);
                }
                return Err(NumberError::InvalidDigit);
            },
            Some(digit) => {
                if value > (u32::MAX - digit) / 10 {
                    proof {
                        assert(number_of(digits.take(i - start + 1)) == Err::<int, NumberError>(
                            NumberError::Overflow,
                        ));
                        lemma_number_of_fails(digits, i - start + 1);
                    }
                    return Err(NumberError::Overflow);
                }
                assert(number_of(digits.take(i - start + 1)) == Ok::<int, NumberError>(
                    value * 10 + digit,
                ));
                value = value * 10 + digit;
            },
        }
        i += 1;
    }
    proof {
        assert(digits.take(len - start) =~= digits);
    }
    Ok(value)
}

/// The name of the file that the result is written to: the stem, `_carved`,
/// a dot and the extension.
pub fn carved_file_name(stem: &str, extension: &str) -> (name: String)
    ensures
        name@ == stem@ + "_carved."@ + extension@,
{
    let mut name = String::from_str(stem);
    name.append("_carved.");
    name.append(extension);
    name
}

/// The stem of the file name of a path, as `std::path::Path::file_stem` reads
/// the path: the file name without its extension; nothing where the path has
/// no file name. How a path is taken apart follows the path rules of the
/// platform that the crate is built for.
pub uninterp spec fn file_stem_of(path: Seq<char>) -> Option<Seq<char>>;

/// The extension of the file name of a path, as `std::path::Path::extension`
/// reads the path: what follows the last dot of the file name; nothing where
/// there is no file name or no such dot.
pub uninterp spec fn extension_of(path: Seq<char>) -> Option<Seq<char>>;

/// The path with its file name replaced by `name`, as
/// `std::path::Path::with_file_name` builds it.
pub uninterp spec fn with_file_name_of(path: Seq<char>, name: Seq<char>) -> Seq<char>;

/// The path that the result for the image at `infile` is written to: that of
/// the image, with `_carved` between the stem and the extension of its file
/// name; nothing where the path has no file stem or no extension.
pub open spec fn outfile_of(infile: Seq<char>) -> Option<Seq<char>> {
    match (file_stem_of(infile), extension_of(infile)) {
        (Some(stem), Some(extension)) => Some(
            with_file_name_of(infile, stem + "_carved."@ + extension),
        ),
        _ => None,
    }
}

/// `std::path::Path::file_stem`, as text. The result is named, not described:
/// it is the same whenever the path is the same. A path that is text has a
/// stem that is text, so the stem is missing only where the path has none.
#[verifier::external_body]
fn path_file_stem(path: &str) -> (stem: Option<String>)
    ensures
        stem matches Some(text) ==> file_stem_of(path@) == Some(text@),
        stem is None ==> file_stem_of(path@) is None,
{
    std::path::Path::new(path).file_stem().and_then(|stem| stem.to_str()).map(String::from)
}

/// `std::path::Path::extension`, as text. The result is named, not
/// described: it is the same whenever the path is the same.
#[verifier::external_body]
fn path_extension(path: &str) -> (extension: Option<String>)
    ensures
        extension matches Some(text) ==> extension_of(path@) == Some(text@),
        extension is None ==> extension_of(path@) is None,
{
    std::path::Path::new(path).extension().and_then(|extension| extension.to_str()).map(
        String::from,
    )
}

/// `std::path::Path::with_file_name`, as text. The result is named, not
/// described: it is the same whenever the path and the name are the same.
#[verifier::external_body]
fn path_with_file_name(path: &str, name: &str) -> (renamed: String)
    ensures
        renamed@ == with_file_name_of(path@, name@),
{
    std::path::Path::new(path).with_file_name(name).to_string_lossy().into_owned()
}

impl NumberError {
    /// The text of the error.
    pub open spec fn message_spec(self) -> Seq<char> {
        match self {
            NumberError::Empty => "cannot parse integer from empty string"@,
            NumberError::InvalidDigit => "invalid digit found in string"@,
            NumberError::Overflow => "number too large to fit in target type"@,
        }
    }

    /// The text of the error.
    pub fn message(&self) -> (s: String)
        ensures
            s@ == self.message_spec(),
    {
        match *self {
            NumberError::Empty => String::from_str("cannot parse integer from empty string"),
            NumberError::InvalidDigit => String::from_str("invalid digit found in string"),
            NumberError::Overflow => String::from_str("number too large to fit in target type"),
        }
    }
}

impl ConfigError {
    /// The text of the error.
    pub open spec fn message_spec(self) -> Seq<char> {
        match self {
            ConfigError::Usage => "Usage: rsc /path/to/img new_width new_height"@,
            ConfigError::Width(e) => e.message_spec(),
            ConfigError::Height(e) => e.message_spec(),
        }
    }

    /// The text of the error.
    pub fn message(&self) -> (s: String)
        ensures
            s@ == self.message_spec(),
    {
        match *self {
            ConfigError::Usage => String::from_str("Usage: rsc /path/to/img new_width new_height"),
            ConfigError::Width(e) => e.message(),
            ConfigError::Height(e) => e.message(),
        }
    }
}

impl Config {
    /// Reads the configuration from the arguments of the program.
    pub fn new(args: &[String]) -> (r: Result<Config, ConfigError>)
        ensures
            match parsed_config(args@) {
                Ok((infile, width, height)) => r matches Ok(config) && config.infile@ == infile
                    && config.new_width == width && config.new_height == height,
                Err(e) => r matches Err(f) && f == e,
            },
    {
        if args.len() < 4 {
            Err(ConfigError::Usage)
        } else {
            let infile = args[1].clone();
            let new_width = match parse_number(args[2].as_str()) {
                Ok(new_width) => new_width,
                Err(e) => {
                    return Err(ConfigError::Width(e));
                },
            };
            let new_height = match parse_number(args[3].as_str()) {
                Ok(new_height) => new_height,
                Err(e) => {
                    return Err(ConfigError::Height(e));
                },
            };
            Ok(Config { infile, new_width, new_height })
        }
    }

    /// The path that the result is written to: that of the image, with
    /// `_carved` between the stem and the extension of its file name. Nothing
    /// where the path of the image has no file stem or no extension.
    pub fn get_outfile(&self) -> (outfile: Option<String>)
        ensures
            outfile matches Some(path) ==> outfile_of(self.infile@) == Some(path@),
            outfile is None ==> outfile_of(self.infile@) is None,
    {
        let stem = match path_file_stem(self.infile.as_str()) {
            Some(stem) => stem,
            None => {
                return None;
            },
        };
        let extension = match path_extension(self.infile.as_str()) {
            Some(extension) => extension,
            None => {
                return None;
            },
        };
        let name = carved_file_name(stem.as_str(), extension.as_str());
        Some(path_with_file_name(self.infile.as_str(), name.as_str()))
    }
}

} // verus!
