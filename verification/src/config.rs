//! The job description: source file, output directory, and the number of
//! resolution levels and channels, taken from command-line style arguments.

use vstd::prelude::*;

verus! {

use vstd::string::StrSliceExecFns;

/// A decimal digit character.
pub open spec fn is_dec_digit(c: char) -> bool {
    '0' as u32 <= c as u32 && c as u32 <= '9' as u32
}

/// The value of a decimal digit character.
pub open spec fn digit_val(c: char) -> nat {
    (c as u32 - '0' as u32) as nat
}

/// Every character of `s` is a decimal digit.
pub open spec fn all_dec_digits(s: Seq<char>) -> bool {
    forall|i: int| 0 <= i < s.len() ==> is_dec_digit(#[trigger] s[i])
}

/// The number denoted by the digit string `s` (most significant digit first).
pub open spec fn dec_val(s: Seq<char>) -> nat
    decreases s.len(),
{
    if s.len() == 0 {
        0
    } else {
        dec_val(s.drop_last()) * 10 + digit_val(s.last())
    }
}

/// `s` denotes a positive count that fits in `usize`.
pub open spec fn parses_positive(s: Seq<char>) -> bool {
    s.len() > 0 && all_dec_digits(s) && 0 < dec_val(s) <= usize::MAX
}

proof fn lemma_dec_val_prefix_le(s: Seq<char>, i: int)
    requires
        0 <= i <= s.len(),
    ensures
        dec_val(s.subrange(0, i)) <= dec_val(s),
    decreases s.len() - i,
{
    if i < s.len() {
        assert(s.subrange(0, i + 1).drop_last() =~= s.subrange(0, i));
        assert(s.subrange(0, i + 1).last() == s[i]);
        lemma_dec_val_prefix_le(s, i + 1);
    } else {
        assert(s.subrange(0, i) =~= s);
    }
}

/// Parses a decimal numeral: digits only, no sign, no surrounding space.
/// Yields the value exactly when every character is a digit, there is at
/// least one, and the value fits in `usize`.
pub fn parse_usize(s: &str) -> (r: Option<usize>)
    ensures
        r is Some <==> (s@.len() > 0 && all_dec_digits(s@) && dec_val(s@) <= usize::MAX),
        r matches Some(v) ==> v == dec_val(s@),
{
    let len = s.unicode_len();
    if len == 0 {
        return None;
    }
    let mut acc: usize = 0;
    let mut i: usize = 0;
    while i < len
        invariant
            i <= len,
            len == s@.len(),
            all_dec_digits(s@.subrange(0, i as int)),
            acc == dec_val(s@.subrange(0, i as int)),
        decreases len - i,
    {
        let c = s.get_char(i);
        let u = c as u32;
        if u < 48 || u > 57 {
            proof {
                assert(!is_dec_digit(s@[i as int]));
            }
            return None;
        }
        let d = (u - 48) as usize;
        proof {
            assert(is_dec_digit(s@[i as int]));
            assert(d == digit_val(s@[i as int]));
        }
        if acc > (usize::MAX - d) / 10 {
            proof {
                assert(s@.subrange(0, i + 1).drop_last() =~= s@.subrange(0, i as int));
                assert(s@.subrange(0, i + 1).last() == s@[i as int]);
                assert(dec_val(s@.subrange(0, i + 1)) > usize::MAX);
                lemma_dec_val_prefix_le(s@, i + 1);
            }
            return None;
        }
        proof {
            assert(s@.subrange(0, i + 1).drop_last() =~= s@.subrange(0, i as int));
            assert(s@.subrange(0, i + 1).last() == s@[i as int]);
        }
        acc = acc * 10 + d;
        i = i + 1;
    }
    proof {
        assert(s@.subrange(0, len as int) =~= s@);
    }
    Some(acc)
}

/// Why a job description could not be built.
#[derive(Clone, Copy, Debug, PartialEq, Eq, Structural)]
pub enum ConfigError {
    MissingFileName,
    MissingOutputDir,
    MissingResLevels,
    MissingChannels,
    BadResLevels,
    BadChannels,
}

/// An immutable job description. A runnable job has positive counts; both
/// counts are checked before any store or file work begins.
#[derive(Debug)]
pub struct Config {
    pub file_name: String,
    pub output_dir: String,
    pub res_levels: usize,
    pub channels: usize,
}

impl Config {
    /// Both counts are positive: the invariant of a runnable job.
    pub open spec fn valid(&self) -> bool {
        self.res_levels > 0 && self.channels > 0
    }

    /// An empty draft: no paths, zero counts. Not yet `valid`.
    pub fn new() -> (r: Config)
        ensures
            r.file_name@ == Seq::<char>::empty(),
            r.output_dir@ == Seq::<char>::empty(),
            r.res_levels == 0,
            r.channels == 0,
    {
        Config { file_name: String::new(), output_dir: String::new(), res_levels: 0, channels: 0 }
    }

    /// Builds a job description from arguments as a command line hands them
    /// over: the leading element is the program name and is discarded; then
    /// come the source file, the output directory, and the two counts. A
    /// count must be a positive decimal numeral that fits in `usize`.
    pub fn build(args: Vec<String>) -> (r: Result<Config, ConfigError>)
        ensures
            r matches Ok(c) ==> {
                &&& args@.len() >= 5
                &&& c.file_name == args@[1]
                &&& c.output_dir == args@[2]
                &&& parses_positive(args@[3]@) && c.res_levels == dec_val(args@[3]@)
                &&& parses_positive(args@[4]@) && c.channels == dec_val(args@[4]@)
                &&& c.valid()
            },
            r matches Err(e) ==> {
                ||| (e == ConfigError::MissingFileName && args@.len() < 2)
                ||| (e == ConfigError::MissingOutputDir && args@.len() == 2)
                ||| (e == ConfigError::MissingResLevels && args@.len() == 3)
                ||| (e == ConfigError::MissingChannels && args@.len() == 4)
                ||| (e == ConfigError::BadResLevels && args@.len() >= 5 && !parses_positive(
                    args@[3]@,
                ))
                ||| (e == ConfigError::BadChannels && args@.len() >= 5 && parses_positive(args@[3]@)
                    && !parses_positive(args@[4]@))
            },
            r is Ok <==> (args@.len() >= 5 && parses_positive(args@[3]@) && parses_positive(
                args@[4]@,
            )),
    {
        if args.len() < 2 {
            return Err(ConfigError::MissingFileName);
        }
        if args.len() < 3 {
            return Err(ConfigError::MissingOutputDir);
        }
        if args.len() < 4 {
            return Err(ConfigError::MissingResLevels);
        }
        if args.len() < 5 {
            return Err(ConfigError::MissingChannels);
        }
        let file_name = args[1].clone();
        let output_dir = args[2].clone();
        let res_levels = match parse_usize(args[3].as_str()) {
            Some(v) => v,
            None => {
                return Err(ConfigError::BadResLevels);
            },
        };
        if res_levels == 0 {
            return Err(ConfigError::BadResLevels);
        }
        let channels = match parse_usize(args[4].as_str()) {
            Some(v) => v,
            None => {
                return Err(ConfigError::BadChannels);
            },
        };
        if channels == 0 {
            return Err(ConfigError::BadChannels);
        }
        Ok(Config { file_name, output_dir, res_levels, channels })
    }
}

} // verus!
