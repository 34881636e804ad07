use rsc::parser::carved_file_name;
use rsc::parser::parse_number;
use rsc::parser::Config;
use rsc::parser::ConfigError;
use rsc::parser::NumberError;
use std::path::PathBuf;

#[test]
fn config_new() {
    let args = [
        String::from("rsc"),
        String::from("./img/example_path.png"),
        String::from("100"),
        String::from("42"),
    ];
    assert!(Config::new(&args).is_ok());
}

#[test]
fn config_error() {
    let args = [
        String::from("rsc"),
        String::from("./img/example_path.png"),
        String::from("100"),
    ];
    assert_eq!(
        Err(String::from("Usage: rsc /path/to/img new_width new_height")),
        Config::new(&args).map_err(|e| e.message())
    );
}

#[test]
fn outfile() {
    let args = [
        String::from("rsc"),
        String::from("./img/example_path.png"),
        String::from("100"),
        String::from("42"),
    ];
    let config = Config::new(&args).unwrap();
    assert_eq!(
        PathBuf::from("./img/example_path_carved.png"),
        PathBuf::from(config.get_outfile().unwrap())
    );
}

#[test]
fn config_fields() {
    let args = [
        String::from("rsc"),
        String::from("a/b.jpg"),
        String::from("+100"),
        String::from("042"),
        String::from("ignored"),
    ];
    assert_eq!(
        Ok(Config {
            infile: String::from("a/b.jpg"),
            new_width: 100,
            new_height: 42
        }),
        Config::new(&args)
    );
}

#[test]
fn config_reports_the_first_bad_number() {
    let args = [
        String::from("rsc"),
        String::from("a.png"),
        String::from("1x"),
        String::from(""),
    ];
    assert_eq!(
        Err(ConfigError::Width(NumberError::InvalidDigit)),
        Config::new(&args)
    );
    let args = [
        String::from("rsc"),
        String::from("a.png"),
        String::from("1"),
        String::from(""),
    ];
    assert_eq!(
        Err(ConfigError::Height(NumberError::Empty)),
        Config::new(&args)
    );
    let args = [
        String::from("rsc"),
        String::from("a.png"),
        String::from("1"),
        String::from("4294967296"),
    ];
    assert_eq!(
        Err(ConfigError::Height(NumberError::Overflow)),
        Config::new(&args)
    );
}

#[test]
fn config_error_messages() {
    assert_eq!(
        "Usage: rsc /path/to/img new_width new_height",
        ConfigError::Usage.message()
    );
    assert_eq!(
        "cannot parse integer from empty string",
        ConfigError::Width(NumberError::Empty).message()
    );
    assert_eq!(
        "invalid digit found in string",
        ConfigError::Height(NumberError::InvalidDigit).message()
    );
    assert_eq!(
        "number too large to fit in target type",
        NumberError::Overflow.message()
    );
}

#[test]
fn numbers_as_the_standard_library_reads_them() {
    let texts = [
        "", "+", "-", "0", "+0", "-0", "007", "12", "+12", "1 2", " 12", "12 ", "1_000", "12a",
        "a12", "4294967295", "4294967296", "+4294967295", "99999999999999999999", "42949672950",
        "9999999999x", "x9999999999", "１２", "++1", "1+",
    ];
    for text in texts.iter() {
        let expected = text.parse::<u32>().ok();
        assert_eq!(expected, parse_number(text).ok(), "{:?}", text);
    }
}

#[test]
fn number_errors() {
    assert_eq!(Ok(0), parse_number("0"));
    assert_eq!(Ok(4294967295), parse_number("4294967295"));
    assert_eq!(Ok(17), parse_number("+0017"));
    assert_eq!(Err(NumberError::Empty), parse_number(""));
    assert_eq!(Err(NumberError::InvalidDigit), parse_number("+"));
    assert_eq!(Err(NumberError::InvalidDigit), parse_number("-1"));
    assert_eq!(Err(NumberError::InvalidDigit), parse_number("12 "));
    assert_eq!(Err(NumberError::Overflow), parse_number("4294967296"));
    assert_eq!(Err(NumberError::Overflow), parse_number("9999999999x"));
    assert_eq!(Err(NumberError::InvalidDigit), parse_number("999x9999999"));
}

#[test]
fn carved_names() {
    assert_eq!(
        "example_path_carved.png",
        carved_file_name("example_path", "png")
    );
    assert_eq!("_carved.", carved_file_name("", ""));
}

#[test]
fn outfile_needs_stem_and_extension() {
    let config = Config {
        infile: String::from("img/noextension"),
        new_width: 1,
        new_height: 1,
    };
    assert_eq!(None, config.get_outfile());
    let config = Config {
        infile: String::from(""),
        new_width: 1,
        new_height: 1,
    };
    assert_eq!(None, config.get_outfile());
    let config = Config {
        infile: String::from("tower.edit.jpg"),
        new_width: 1,
        new_height: 1,
    };
    assert_eq!(
        Some(String::from("tower.edit_carved.jpg")),
        config.get_outfile()
    );
}
