//! The options of a run, as they stand on the command line.

use vstd::prelude::*;
use crate::number::{decimal_value, parse_number};
use crate::text::{same_text, texts_of};
use crate::timestamp::current_year;

verus! {

/// How many entries a ranking shows where nothing else is asked for.
pub const DEFAULT_MAX: u64 = 10;

/// The options that take a value.
#[derive(Clone, Copy, Debug, PartialEq, Eq, Structural)]
pub enum Flag {
    /// `-i`, the path of the export.
    InputFile,
    /// `-a`, the credential of the lookup service.
    ApiKey,
    /// `-y`, the year whose records count.
    Year,
    /// `-m`, the number of entries that each ranking shows.
    Max,
}

/// What is wrong with a command line.
#[derive(Clone, Copy, Debug, PartialEq, Eq, Structural)]
pub enum ArgError {
    /// The option is the last word: nothing follows to be its value.
    MissingValue(Flag),
    /// The option's value is not a number.
    NotNumeric(Flag),
}

impl ArgError {
    /// The error in words.
    pub fn message(&self) -> (text: &'static str)
        ensures
            text@ == match *self {
                ArgError::MissingValue(Flag::InputFile) => "No value provided for argument '-i'"@,
                ArgError::MissingValue(Flag::ApiKey) => "No value provided for argument '-a'"@,
                ArgError::MissingValue(Flag::Year) => "No value provided for argument '-y'"@,
                ArgError::MissingValue(Flag::Max) => "No value provided for argument '-m'"@,
                ArgError::NotNumeric(Flag::Year) => "Value for argument '-y' is not numeric"@,
                ArgError::NotNumeric(Flag::Max) => "Value for argument '-m' is not numeric"@,
                ArgError::NotNumeric(Flag::InputFile) => "Value for argument '-i' is not numeric"@,
                ArgError::NotNumeric(Flag::ApiKey) => "Value for argument '-a' is not numeric"@,
            },
    {
        match *self {
            ArgError::MissingValue(Flag::InputFile) => "No value provided for argument '-i'",
            ArgError::MissingValue(Flag::ApiKey) => "No value provided for argument '-a'",
            ArgError::MissingValue(Flag::Year) => "No value provided for argument '-y'",
            ArgError::MissingValue(Flag::Max) => "No value provided for argument '-m'",
            ArgError::NotNumeric(Flag::Year) => "Value for argument '-y' is not numeric",
            ArgError::NotNumeric(Flag::Max) => "Value for argument '-m' is not numeric",
            ArgError::NotNumeric(Flag::InputFile) => "Value for argument '-i' is not numeric",
            ArgError::NotNumeric(Flag::ApiKey) => "Value for argument '-a' is not numeric",
        }
    }
}

/// The options of a run, each present or not.
#[derive(Clone, Debug, PartialEq, Eq)]
pub struct ProgramArgs {
    pub api_key: Option<String>,
    pub input_file: Option<String>,
    pub year: Option<u64>,
    pub max: Option<u64>,
}

/// The characters of [`ProgramArgs`].
pub ghost struct ProgramArgsView {
    pub api_key: Option<Seq<char>>,
    pub input_file: Option<Seq<char>>,
    pub year: Option<u64>,
    pub max: Option<u64>,
}

impl View for ProgramArgs {
    type V = ProgramArgsView;

    open spec fn view(&self) -> ProgramArgsView {
        ProgramArgsView {
            api_key: match self.api_key {
                Some(key) => Some(key@),
                None => None,
            },
            input_file: match self.input_file {
                Some(path) => Some(path@),
                None => None,
            },
            year: self.year,
            max: self.max,
        }
    }
}

/// The option that `word` names, if any.
pub open spec fn flag_of(word: Seq<char>) -> Option<Flag> {
    if word == "-i"@ {
        Some(Flag::InputFile)
    } else if word == "-a"@ {
        Some(Flag::ApiKey)
    } else if word == "-y"@ {
        Some(Flag::Year)
    } else if word == "-m"@ {
        Some(Flag::Max)
    } else {
        None
    }
}

/// The options after the word at `index` has been looked at. A word that
/// names an option takes the word after it as its value, whatever that word
/// is; any other word changes nothing.
pub open spec fn applied(options: ProgramArgsView, words: Seq<Seq<char>>, index: int) -> Result<
    ProgramArgsView,
    ArgError,
> {
    match flag_of(words[index]) {
        None => Ok(options),
        Some(flag) => if index + 1 >= words.len() {
            Err(ArgError::MissingValue(flag))
        } else {
            let value = words[index + 1];
            match flag {
                Flag::InputFile => Ok(ProgramArgsView { input_file: Some(value), ..options }),
                Flag::ApiKey => Ok(ProgramArgsView { api_key: Some(value), ..options }),
                Flag::Year => match decimal_value(value) {
                    Some(year) => Ok(ProgramArgsView { year: Some(year), ..options }),
                    None => Err(ArgError::NotNumeric(flag)),
                },
                Flag::Max => match decimal_value(value) {
                    Some(max) => Ok(ProgramArgsView { max: Some(max), ..options }),
                    None => Err(ArgError::NotNumeric(flag)),
                },
            }
        },
    }
}

/// The options after the first `count` words have been looked at in order,
/// starting from `options`; the first error ends the scan.
pub open spec fn scanned(options: ProgramArgsView, words: Seq<Seq<char>>, count: nat) -> Result<
    ProgramArgsView,
    ArgError,
>
    decreases count,
{
    if count == 0 {
        Ok(options)
    } else {
        match scanned(options, words, (count - 1) as nat) {
            Ok(so_far) => applied(so_far, words, count - 1),
            Err(error) => Err(error),
        }
    }
}

/// Whether `options` is what the scan of all of `words` gives from `start`.
pub open spec fn scan_gives(
    start: ProgramArgsView,
    words: Seq<Seq<char>>,
    options: Result<ProgramArgs, ArgError>,
) -> bool {
    match options {
        Ok(found) => scanned(start, words, words.len()) == Ok::<ProgramArgsView, ArgError>(found@),
        Err(error) => scanned(start, words, words.len()) == Err::<ProgramArgsView, ArgError>(
            error,
        ),
    }
}

/// The options before anything is given: no credential, no path, ten
/// entries, and `year`.
pub open spec fn defaults(year: u64) -> ProgramArgsView {
    ProgramArgsView { api_key: None, input_file: None, year: Some(year), max: Some(DEFAULT_MAX) }
}

/// Tells which option `word` names, if any.
pub fn read_flag(word: &str) -> (flag: Option<Flag>)
    ensures
        flag == flag_of(word@),
{
    if same_text(word, "-i") {
        Some(Flag::InputFile)
    } else if same_text(word, "-a") {
        Some(Flag::ApiKey)
    } else if same_text(word, "-y") {
        Some(Flag::Year)
    } else if same_text(word, "-m") {
        Some(Flag::Max)
    } else {
        None
    }
}

impl Default for ProgramArgs {
    /// No credential and no path; the present year; ten entries.
    fn default() -> (options: ProgramArgs)
        ensures
            options.api_key is None,
            options.input_file is None,
            options.year is Some,
            options.max == Some(DEFAULT_MAX),
    {
        ProgramArgs {
            api_key: None,
            input_file: None,
            year: Some(current_year()),
            max: Some(DEFAULT_MAX),
        }
    }
}

impl ProgramArgs {
    /// Whether the options suffice for a run, and if not, what is missing.
    pub fn is_valid(&self) -> (verdict: (bool, &str))
        ensures
            verdict.0 == (self.input_file is Some && self.api_key is Some),
            verdict.1@ == if self.input_file is None {
                "Missing input file"@
            } else if self.api_key is None {
                "Missing API key"@
            } else {
                ""@
            },
    {
        if self.input_file.is_none() {
            (false, "Missing input file")
        } else if self.api_key.is_none() {
            (false, "Missing API key")
        } else {
            (true, "")
        }
    }

    /// Looks at every word of `words` in order and takes the options that
    /// they give, starting from `self`.
    pub fn scan(self, words: &Vec<String>) -> (options: Result<ProgramArgs, ArgError>)
        ensures
            scan_gives(self@, texts_of(words@), options),
    {
        let mut options = self;
        let mut index: usize = 0;
        while index < words.len()
            invariant
                index <= words.len(),
                scanned(self@, texts_of(words@), index as nat) == Ok::<ProgramArgsView, ArgError>(
                    options@,
                ),
            decreases words.len() - index,
        {
            let ghost so_far = options@;
            match read_flag(words[index].as_str()) {
                None => {},
                Some(flag) => {
                    if index + 1 >= words.len() {
                        proof {
                            Self::lemma_scan_fails(
                                self@,
                                texts_of(words@),
                                index as nat + 1,
                                words@.len(),
                            );
                        }
                        return Err(ArgError::MissingValue(flag));
                    }
                    let value = &words[index + 1];
                    match flag {
                        Flag::InputFile => {
                            options.input_file = Some(value.clone());
                        },
                        Flag::ApiKey => {
                            options.api_key = Some(value.clone());
                        },
                        Flag::Year | Flag::Max => match parse_number(value.as_str()) {
                            Some(number) => {
                                if flag == Flag::Year {
                                    options.year = Some(number);
                                } else {
                                    options.max = Some(number);
                                }
                            },
                            None => {
                                proof {
                                    Self::lemma_scan_fails(
                                        self@,
                                        texts_of(words@),
                                        index as nat + 1,
                                        words@.len(),
                                    );
                                }
                                return Err(ArgError::NotNumeric(flag));
                            },
                        },
                    }
                },
            }
            assert(applied(so_far, texts_of(words@), index as int) == Ok::<
                ProgramArgsView,
                ArgError,
            >(options@));
            index += 1;
        }
        Ok(options)
    }

    proof fn lemma_scan_fails(
        options: ProgramArgsView,
        words: Seq<Seq<char>>,
        count: nat,
        later: nat,
    )
        requires
            scanned(options, words, count) is Err,
            count <= later,
        ensures
            scanned(options, words, later) == scanned(options, words, count),
        decreases later,
    {
        if count < later {
            Self::lemma_scan_fails(options, words, count, (later - 1) as nat);
        }
    }

    /// The options that the command line `words` gives: what stands in
    /// `words`, and for the rest no credential, no path, the present year and
    /// ten entries.
    pub fn new(words: &Vec<String>) -> (options: Result<ProgramArgs, ArgError>)
        ensures
            exists|year: u64| scan_gives(#[trigger] defaults(year), texts_of(words@), options),
    {
        let start = ProgramArgs::default();
        assert(start@ == defaults(start.year->0));
        start.scan(words)
    }
}

} // verus!
