//! How the server is set up.

use crate::text;
use vstd::prelude::*;

verus! {

/// The size of an upload that is accepted unless another is set, in bytes.
pub const DEFAULT_UPLOAD_LIMIT_BYTES: u64 = 10_737_418_240;

/// The address that the server listens on unless another is set.
pub const DEFAULT_BIND: &'static str = "127.0.0.1:8080";

/// What is wrong with the limit of an upload.
#[derive(Debug, Clone, Copy, PartialEq, Eq, Structural)]
pub enum LimitError {
    NotANumber,
    Zero,
}

/// How the server is set up.
#[derive(Debug)]
pub struct Config {
    pub bind: String,
    pub files_dir: String,
    pub data_dir: String,
    pub upload_limit_bytes: u64,
}

/// How the server is set up.
#[verifier::ext_equal]
pub struct ConfigModel {
    pub bind: Seq<char>,
    pub files_dir: Seq<char>,
    pub data_dir: Seq<char>,
    pub upload_limit_bytes: u64,
}

impl View for Config {
    type V = ConfigModel;

    open spec fn view(&self) -> ConfigModel {
        ConfigModel {
            bind: self.bind@,
            files_dir: self.files_dir@,
            data_dir: self.data_dir@,
            upload_limit_bytes: self.upload_limit_bytes,
        }
    }
}

/// Whether a text is one or more decimal digits.
pub open spec fn is_number(s: Seq<char>) -> bool {
    s.len() > 0 && forall|i: int| 0 <= i < s.len() ==> '0' <= #[trigger] s[i] <= '9'
}

/// The number that decimal digits stand for.
pub open spec fn number_value(s: Seq<char>) -> nat
    decreases s.len(),
{
    if s.len() == 0 {
        0
    } else {
        (number_value(s.drop_last()) * 10 + (s.last() as int - '0' as int)) as nat
    }
}

/// A text without the `+` that it may start with.
pub open spec fn unsigned(s: Seq<char>) -> Seq<char> {
    if s.len() > 0 && s[0] == '+' {
        s.skip(1)
    } else {
        s
    }
}

/// The limit of an upload that a text sets: decimal digits, with white space
/// around them and a `+` before them allowed, for a number above zero that the
/// machine can count to.
pub open spec fn limit_of(value: Seq<char>) -> Result<nat, LimitError> {
    let digits = unsigned(text::trimmed(value));
    if !is_number(digits) || number_value(digits) > usize::MAX {
        Err(LimitError::NotANumber)
    } else if number_value(digits) == 0 {
        Err(LimitError::Zero)
    } else {
        Ok(number_value(digits))
    }
}

/// A value that is set, else another.
pub open spec fn value_or(value: Option<Seq<char>>, other: Seq<char>) -> Seq<char> {
    match value {
        Some(value) => value,
        None => other,
    }
}

impl LimitError {
    /// What is wrong, in words.
    pub fn message(&self) -> (r: String)
        ensures
            r@ == (match self {
                LimitError::NotANumber =>
                    "REMOTE_FILE_UPLOAD_LIMIT_BYTES must be a positive integer"@,
                LimitError::Zero => "REMOTE_FILE_UPLOAD_LIMIT_BYTES must be greater than 0"@,
            }),
    {
        match self {
            LimitError::NotANumber =>
                "REMOTE_FILE_UPLOAD_LIMIT_BYTES must be a positive integer".to_owned(),
            LimitError::Zero => "REMOTE_FILE_UPLOAD_LIMIT_BYTES must be greater than 0".to_owned(),
        }
    }
}

/// More digits stand for no smaller number.
proof fn lemma_number_grows(s: Seq<char>, n: int)
    requires
        is_number(s),
        0 <= n <= s.len(),
    ensures
        number_value(s.take(n)) <= number_value(s),
    decreases s.len() - n,
{
    if n == s.len() {
        assert(s.take(n) =~= s);
    } else {
        lemma_number_grows(s, n + 1);
        assert(s.take(n + 1).drop_last() =~= s.take(n));
        assert('0' <= s[n]);
    }
}

/// The limit of an upload that a text sets.
pub fn parse_upload_limit(value: &str) -> (r: Result<usize, LimitError>)
    ensures
        match r {
            Ok(n) => limit_of(value@) == Ok::<nat, LimitError>(n as nat),
            Err(e) => limit_of(value@) == Err::<nat, LimitError>(e),
        },
{
    let v: Vec<char> = text::chars_of(&text::trim(value));
    let start: usize = if v.len() > 0 && v[0] == '+' {
        1
    } else {
        0
    };
    let ghost digits = unsigned(v@);
    assert(digits =~= v@.skip(start as int));
    if start == v.len() {
        return Err(LimitError::NotANumber);
    }
    let mut n: usize = 0;
    let mut i: usize = start;
    assert(digits.take(0) =~= Seq::<char>::empty());
    while i < v.len()
        invariant
            start <= i <= v@.len(),
            start < v@.len(),
            digits == v@.skip(start as int),
            digits == unsigned(text::trimmed(value@)),
            forall|j: int| 0 <= j < i - start ==> '0' <= #[trigger] digits[j] <= '9',
            n == number_value(digits.take(i - start)),
        decreases v@.len() - i,
    {
        let c: char = v[i];
        assert(digits[i - start] == c);
        if !('0' <= c && c <= '9') {
            assert(!is_number(digits));
            return Err(LimitError::NotANumber);
        }
        let d: usize = (c as u32 - '0' as u32) as usize;
        assert(digits.take(i + 1 - start).drop_last() =~= digits.take(i - start));
        assert(number_value(digits.take(i + 1 - start)) == n * 10 + d);
        if n > (usize::MAX - d) / 10 {
            proof {
                if is_number(digits) {
                    lemma_number_grows(digits, i + 1 - start);
                }
            }
            return Err(LimitError::NotANumber);
        }
        n = n * 10 + d;
        i += 1;
    }
    assert(digits.take(i - start) =~= digits);
    if n == 0 {
        return Err(LimitError::Zero);
    }
    Ok(n)
}

/// The set-up that the values which are set ask for.
pub open spec fn config_of(
    bind: Option<Seq<char>>,
    files_dir: Option<Seq<char>>,
    data_dir: Option<Seq<char>>,
    upload_limit: Option<Seq<char>>,
) -> Result<ConfigModel, LimitError> {
    let limit = match upload_limit {
        Some(value) => limit_of(value),
        None => Ok(DEFAULT_UPLOAD_LIMIT_BYTES as nat),
    };
    match limit {
        Err(e) => Err(e),
        Ok(n) => Ok(
            ConfigModel {
                bind: value_or(bind, DEFAULT_BIND@),
                files_dir: value_or(files_dir, "storage/files"@),
                data_dir: value_or(data_dir, "storage/meta"@),
                upload_limit_bytes: n as u64,
            },
        ),
    }
}

fn given_or(value: Option<String>, other: &str) -> (r: String)
    ensures
        r@ == value_or(text::opt_view(value), other@),
{
    match value {
        Some(value) => value,
        None => other.to_owned(),
    }
}

impl Config {
    /// The set-up that the values which are set ask for.
    pub fn from_values(
        bind: Option<String>,
        files_dir: Option<String>,
        data_dir: Option<String>,
        upload_limit: Option<String>,
    ) -> (r: Result<Self, LimitError>)
        ensures
            match r {
                Ok(config) => config_of(
                    text::opt_view(bind),
                    text::opt_view(files_dir),
                    text::opt_view(data_dir),
                    text::opt_view(upload_limit),
                ) == Ok::<ConfigModel, LimitError>(config@),
                Err(e) => config_of(
                    text::opt_view(bind),
                    text::opt_view(files_dir),
                    text::opt_view(data_dir),
                    text::opt_view(upload_limit),
                ) == Err::<ConfigModel, LimitError>(e),
            },
    {
        let upload_limit_bytes: u64 = match upload_limit {
            Some(value) => match parse_upload_limit(&value) {
                Ok(n) => n as u64,
                Err(e) => {
                    return Err(e);
                },
            },
            None => DEFAULT_UPLOAD_LIMIT_BYTES,
        };
        Ok(
            Config {
                bind: given_or(bind, DEFAULT_BIND),
                files_dir: given_or(files_dir, "storage/files"),
                data_dir: given_or(data_dir, "storage/meta"),
                upload_limit_bytes,
            },
        )
    }
}

/// The digits of a number stand for the number, and do not start with a zero
/// that could be left out.
pub proof fn lemma_decimal_digits(n: nat)
    ensures
        is_number(text::decimal_digits(n)),
        number_value(text::decimal_digits(n)) == n,
        n > 0 ==> text::decimal_digits(n)[0] != '0',
    decreases n,
{
    let s = text::decimal_digits(n);
    if n < 10 {
        assert(s.drop_last() =~= Seq::<char>::empty());
        assert(number_value(s.drop_last()) == 0);
        assert(s.last() == text::digit(n));
    } else {
        lemma_decimal_digits(n / 10);
        assert(s.drop_last() =~= text::decimal_digits(n / 10));
        assert(s.last() == text::digit(n % 10));
        assert forall|i: int| 0 <= i < s.len() implies '0' <= #[trigger] s[i] <= '9' by {
            if i < s.len() - 1 {
                assert(s[i] == text::decimal_digits(n / 10)[i]);
            }
        }
        assert(s[0] == text::decimal_digits(n / 10)[0]);
    }
}

/// A number above zero that the machine can count to, written in digits with
/// or without a `+`, is the limit; zero is refused as such.
pub proof fn lemma_numbers_are_limits(n: nat, plus: bool)
    requires
        n <= usize::MAX,
    ensures
        limit_of(
            (if plus {
                seq!['+']
            } else {
                Seq::empty()
            }) + text::decimal_digits(n),
        ) == (if n > 0 {
            Ok::<nat, LimitError>(n)
        } else {
            Err::<nat, LimitError>(LimitError::Zero)
        }),
{
    let digits = text::decimal_digits(n);
    let s = (if plus {
        seq!['+']
    } else {
        Seq::empty()
    }) + digits;
    lemma_decimal_digits(n);
    let none = Seq::<char>::empty();
    assert('0' <= digits[digits.len() - 1] <= '9' && '0' <= digits[0] <= '9');
    assert(none + s + none =~= s);
    assert(s.last() == digits[digits.len() - 1]);
    assert(s[0] == (if plus {
        '+'
    } else {
        digits[0]
    }));
    text::lemma_trimmed_around(none, s, none);
    assert(unsigned(s) =~= digits);
}

/// What sets a limit is digits, after white space and at most one `+`, for a
/// number above zero that the machine can count to. White space around makes no
/// difference.
pub proof fn lemma_limits_are_numbers(value: Seq<char>)
    ensures
        limit_of(value) == limit_of(text::trimmed(value)),
        limit_of(value) matches Ok(n) ==> 0 < n <= usize::MAX && exists|digits: Seq<char>|
            is_number(digits) && #[trigger] number_value(digits) == n && (text::trimmed(value)
                == digits || text::trimmed(value) == seq!['+'] + digits),
        limit_of(value) == Err::<nat, LimitError>(LimitError::Zero) ==> exists|digits: Seq<char>|
            is_number(digits) && #[trigger] number_value(digits) == 0 && (text::trimmed(value)
                == digits || text::trimmed(value) == seq!['+'] + digits),
        limit_of(value) == Err::<nat, LimitError>(LimitError::NotANumber) ==> forall|
            digits: Seq<char>,
        |
            is_number(digits) && (text::trimmed(value) == digits || text::trimmed(value)
                == seq!['+'] + digits) ==> #[trigger] number_value(digits) > usize::MAX,
{
    let s = text::trimmed(value);
    let none = Seq::<char>::empty();
    let ends = text::lemma_trimmed(value);
    assert(none + s + none =~= s);
    text::lemma_trimmed_around(none, s, none);
    let digits = unsigned(s);
    assert(s.len() > 0 && s[0] == '+' ==> s =~= seq!['+'] + digits);
    assert forall|other: Seq<char>|
        is_number(other) && (s == other || s == seq!['+'] + other) implies other == digits by {
        assert('0' <= other[0]);
        if s != other {
            assert(digits =~= other);
        }
    }
}

/// Each value that is set is used, and the others have their defaults.
pub proof fn lemma_config_takes_what_is_set(
    bind: Option<Seq<char>>,
    files_dir: Option<Seq<char>>,
    data_dir: Option<Seq<char>>,
    upload_limit: Option<Seq<char>>,
)
    ensures
        config_of(bind, files_dir, data_dir, upload_limit) is Ok <==> (upload_limit matches Some(
            value,
        ) ==> limit_of(value) is Ok),
        config_of(bind, files_dir, data_dir, upload_limit) matches Ok(config) ==> {
            &&& config.bind == bind.unwrap_or("127.0.0.1:8080"@)
            &&& config.files_dir == files_dir.unwrap_or("storage/files"@)
            &&& config.data_dir == data_dir.unwrap_or("storage/meta"@)
            &&& upload_limit is None ==> config.upload_limit_bytes == 10 * 1024 * 1024 * 1024
            &&& upload_limit matches Some(value) ==> limit_of(value) == Ok::<nat, LimitError>(
                config.upload_limit_bytes as nat,
            )
        },
{
    if let Some(value) = upload_limit {
        lemma_limits_are_numbers(value);
    }
}

} // verus!
