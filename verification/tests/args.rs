use youstat::args::{read_flag, ArgError, Flag, ProgramArgs, DEFAULT_MAX};
use youstat::number::parse_number;
use youstat::Args;

fn words(list: &[&str]) -> Vec<String> {
    list.iter().map(|w| w.to_string()).collect()
}

fn blank() -> ProgramArgs {
    ProgramArgs { api_key: None, input_file: None, year: Some(2020), max: Some(10) }
}

#[test]
fn defaults_hold_the_present_year_and_ten_entries() {
    let options = ProgramArgs::default();
    assert_eq!(options.api_key, None);
    assert_eq!(options.input_file, None);
    assert_eq!(options.max, Some(10));
    assert_eq!(DEFAULT_MAX, 10);
    let year = options.year.unwrap();
    assert!(year >= 1970 && year < 10000);
}

#[test]
fn options_without_a_path_are_not_valid() {
    let mut options = blank();
    assert_eq!(options.is_valid(), (false, "Missing input file"));
    options.api_key = Some("key".to_string());
    assert_eq!(options.is_valid(), (false, "Missing input file"));
}

#[test]
fn options_without_a_credential_are_not_valid() {
    let mut options = blank();
    options.input_file = Some("history.json".to_string());
    assert_eq!(options.is_valid(), (false, "Missing API key"));
}

#[test]
fn options_with_path_and_credential_are_valid() {
    let mut options = blank();
    options.input_file = Some("history.json".to_string());
    options.api_key = Some("key".to_string());
    assert_eq!(options.is_valid(), (true, ""));
    options.year = None;
    options.max = None;
    assert_eq!(options.is_valid(), (true, ""));
}

#[test]
fn every_option_is_taken_from_the_words() {
    let line = words(&["youstat", "-i", "history.json", "-a", "key", "-y", "2021", "-m", "5"]);
    let options = blank().scan(&line).unwrap();
    assert_eq!(
        options,
        ProgramArgs {
            api_key: Some("key".to_string()),
            input_file: Some("history.json".to_string()),
            year: Some(2021),
            max: Some(5),
        }
    );
    let fresh = ProgramArgs::new(&line).unwrap();
    assert_eq!(fresh, options);
}

#[test]
fn words_that_name_no_option_change_nothing() {
    let line = words(&["youstat", "--verbose", "x", "-I", "-z"]);
    assert_eq!(blank().scan(&line), Ok(blank()));
    assert_eq!(blank().scan(&Vec::new()), Ok(blank()));
    let fresh = ProgramArgs::new(&line).unwrap();
    assert_eq!(fresh.max, Some(10));
    assert!(fresh.year.is_some());
    assert_eq!(fresh.is_valid(), (false, "Missing input file"));
}

#[test]
fn a_later_option_replaces_an_earlier_one() {
    let line = words(&["-m", "5", "-m", "7", "-i", "a", "-i", "b"]);
    let options = blank().scan(&line).unwrap();
    assert_eq!(options.max, Some(7));
    assert_eq!(options.input_file, Some("b".to_string()));
}

#[test]
fn a_value_is_read_as_an_option_too() {
    let line = words(&["-i", "-a", "key"]);
    let options = blank().scan(&line).unwrap();
    assert_eq!(options.input_file, Some("-a".to_string()));
    assert_eq!(options.api_key, Some("key".to_string()));
    let line = words(&["-i", "-y", "x"]);
    assert_eq!(blank().scan(&line), Err(ArgError::NotNumeric(Flag::Year)));
}

#[test]
fn option_as_the_last_word_has_no_value() {
    for (flag, kind) in
        [("-i", Flag::InputFile), ("-a", Flag::ApiKey), ("-y", Flag::Year), ("-m", Flag::Max)]
    {
        let line = words(&["youstat", flag]);
        assert_eq!(blank().scan(&line), Err(ArgError::MissingValue(kind)));
        assert_eq!(ProgramArgs::new(&line), Err(ArgError::MissingValue(kind)));
    }
}

#[test]
fn year_and_max_must_be_numbers() {
    assert_eq!(
        blank().scan(&words(&["-y", "next", "-m"])),
        Err(ArgError::NotNumeric(Flag::Year))
    );
    assert_eq!(blank().scan(&words(&["-m", "-1"])), Err(ArgError::NotNumeric(Flag::Max)));
    assert_eq!(blank().scan(&words(&["-m", ""])), Err(ArgError::NotNumeric(Flag::Max)));
    assert_eq!(
        blank().scan(&words(&["-i", "x", "-m", "1e3", "-y"])),
        Err(ArgError::NotNumeric(Flag::Max))
    );
}

#[test]
fn errors_say_what_is_wrong() {
    assert_eq!(
        ArgError::MissingValue(Flag::InputFile).message(),
        "No value provided for argument '-i'"
    );
    assert_eq!(
        ArgError::MissingValue(Flag::ApiKey).message(),
        "No value provided for argument '-a'"
    );
    assert_eq!(ArgError::MissingValue(Flag::Year).message(), "No value provided for argument '-y'");
    assert_eq!(ArgError::MissingValue(Flag::Max).message(), "No value provided for argument '-m'");
    assert_eq!(
        ArgError::NotNumeric(Flag::Year).message(),
        "Value for argument '-y' is not numeric"
    );
    assert_eq!(ArgError::NotNumeric(Flag::Max).message(), "Value for argument '-m' is not numeric");
}

#[test]
fn flags_are_told_apart() {
    assert_eq!(read_flag("-i"), Some(Flag::InputFile));
    assert_eq!(read_flag("-a"), Some(Flag::ApiKey));
    assert_eq!(read_flag("-y"), Some(Flag::Year));
    assert_eq!(read_flag("-m"), Some(Flag::Max));
    assert_eq!(read_flag("-x"), None);
    assert_eq!(read_flag("-i "), None);
    assert_eq!(read_flag(""), None);
}

#[test]
fn numbers_are_read_as_std_reads_them() {
    for text in [
        "", "0", "7", "42", "007", "+5", "+", "-", "-5", "+-5", "++5", " 5", "5 ", "1_000", "12a",
        "a12", "18446744073709551615", "18446744073709551616", "99999999999999999999999", "+0",
        "٣", "1.5", "0x10", "00000000000000000000000000000001",
    ] {
        assert_eq!(parse_number(text), text.parse::<u64>().ok(), "{:?}", text);
    }
    assert_eq!(parse_number("2023"), Some(2023));
    assert_eq!(parse_number("18446744073709551615"), Some(u64::MAX));
    assert_eq!(parse_number("18446744073709551616"), None);
}

#[test]
fn absent_year_and_max_fall_back() {
    let args = Args::resolve("key", "history.json", None, None, 2024).unwrap();
    assert_eq!(args, Args { api_key: "key", input_file: "history.json", year: 2024, max: 10 });
}

#[test]
fn given_year_and_max_are_taken() {
    let args = Args::resolve("key", "history.json", Some("2019"), Some("3"), 2024).unwrap();
    assert_eq!(args, Args { api_key: "key", input_file: "history.json", year: 2019, max: 3 });
    let args = Args::resolve("k", "f", None, Some("0"), 2024).unwrap();
    assert_eq!((args.year, args.max), (2024, 0));
}

#[test]
fn year_or_max_that_is_no_number_is_an_error() {
    assert_eq!(
        Args::resolve("k", "f", Some("soon"), Some("3"), 2024),
        Err(ArgError::NotNumeric(Flag::Year))
    );
    assert_eq!(
        Args::resolve("k", "f", Some("2020"), Some("many"), 2024),
        Err(ArgError::NotNumeric(Flag::Max))
    );
    assert_eq!(
        Args::resolve("k", "f", Some("x"), Some("y"), 2024),
        Err(ArgError::NotNumeric(Flag::Year))
    );
}
