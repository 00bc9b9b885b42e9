//! The simple input shapes: free text, non-empty text, booleans, yes/no,
//! single characters and integers. Each shape decides, for one line of
//! input and an optional default, which answer the line gives, or that it
//! gives none and the question must be asked again.
use vstd::prelude::*;
use vstd::string::*;
use crate::fuzzy::chars_of;

verus! {

// ---------------------------------------------------------------- std calls

/// What `str::to_lowercase` returns for a string.
pub uninterp spec fn lowercase_of(s: Seq<char>) -> Seq<char>;

/// Relies on `str::to_lowercase`: the result depends on the characters
/// alone, and the empty string stays empty.
#[verifier::external_body]
fn to_lowercase(s: &str) -> (r: String)
    ensures
        r@ == lowercase_of(s@),
        s@.len() == 0 ==> r@.len() == 0,
{
    s.to_lowercase()
}

/// The characters with Unicode's `White_Space` property.
pub open spec fn is_white_space(c: char) -> bool {
    let u = c as u32;
    ||| 0x09 <= u <= 0x0D
    ||| u == 0x20
    ||| u == 0x85
    ||| u == 0xA0
    ||| u == 0x1680
    ||| 0x2000 <= u <= 0x200A
    ||| u == 0x2028
    ||| u == 0x2029
    ||| u == 0x202F
    ||| u == 0x205F
    ||| u == 0x3000
}

/// Whether `c` is white space, as `char::is_whitespace` has it.
fn char_is_whitespace(c: char) -> (r: bool)
    ensures
        r == is_white_space(c),
{
    let u = c as u32;
    (0x09 <= u && u <= 0x0D) || u == 0x20 || u == 0x85 || u == 0xA0 || u == 0x1680 || (0x2000 <= u
        && u <= 0x200A) || u == 0x2028 || u == 0x2029 || u == 0x202F || u == 0x205F || u == 0x3000
}

/// An ASCII decimal digit.
pub open spec fn is_decimal_digit(c: char) -> bool {
    '0' <= c && c <= '9'
}

/// The value of a string of decimal digits.
pub open spec fn digits_value(s: Seq<char>) -> int
    decreases s.len(),
{
    if s.len() == 0 {
        0
    } else {
        digits_value(s.drop_last()) * 10 + ((s.last() as u32) - ('0' as u32))
    }
}

/// A non-empty string of decimal digits.
pub open spec fn is_digit_string(s: Seq<char>) -> bool {
    s.len() > 0 && forall|i: int| 0 <= i < s.len() ==> is_decimal_digit(#[trigger] s[i])
}

/// The value written by `s` as an unsigned decimal integer: an optional `+`
/// and at least one digit.
pub open spec fn unsigned_literal(s: Seq<char>) -> Option<int> {
    let body = if s.len() > 0 && s[0] == '+' {
        s.drop_first()
    } else {
        s
    };
    if is_digit_string(body) {
        Some(digits_value(body))
    } else {
        None
    }
}

/// The value written by `s` as a signed decimal integer: an optional `+` or
/// `-` and at least one digit.
pub open spec fn signed_literal(s: Seq<char>) -> Option<int> {
    if s.len() > 0 && s[0] == '-' {
        if is_digit_string(s.drop_first()) {
            Some(-digits_value(s.drop_first()))
        } else {
            None
        }
    } else {
        unsigned_literal(s)
    }
}

proof fn lemma_digits_value_nonneg(s: Seq<char>)
    requires
        forall|i: int| 0 <= i < s.len() ==> is_decimal_digit(#[trigger] s[i]),
    ensures
        digits_value(s) >= 0,
    decreases s.len(),
{
    if s.len() > 0 {
        lemma_digits_value_nonneg(s.drop_last());
        assert(is_decimal_digit(s[s.len() - 1]));
    }
}

proof fn lemma_unsigned_literal_nonneg(s: Seq<char>)
    ensures
        unsigned_literal(s) matches Some(v) ==> v >= 0,
{
    let body = if s.len() > 0 && s[0] == '+' {
        s.drop_first()
    } else {
        s
    };
    if is_digit_string(body) {
        lemma_digits_value_nonneg(body);
    }
}

/// Relies on `u128`'s `FromStr`: it accepts an optional `+` followed by at
/// least one ASCII digit, and fails on anything else or on overflow.
#[verifier::external_body]
fn parse_u128(s: &str) -> (r: Option<u128>)
    ensures
        r == (match unsigned_literal(s@) {
            Some(v) => if v <= u128::MAX {
                Some(v as u128)
            } else {
                None
            },
            None => None,
        }),
{
    s.parse::<u128>().ok()
}

/// Relies on `i128`'s `FromStr`: it accepts an optional `+` or `-` followed
/// by at least one ASCII digit, and fails on anything else or on overflow.
#[verifier::external_body]
fn parse_i128(s: &str) -> (r: Option<i128>)
    ensures
        r == (match signed_literal(s@) {
            Some(v) => if i128::MIN <= v <= i128::MAX {
                Some(v as i128)
            } else {
                None
            },
            None => None,
        }),
{
    s.parse::<i128>().ok()
}

// ---------------------------------------------------------------- helpers

/// Whether `a` holds exactly the characters of `b`.
fn same_text(a: &Vec<char>, b: &str) -> (r: bool)
    ensures
        r == (a@ == b@),
{
    let n = b.unicode_len();
    if a.len() != n {
        return false;
    }
    let mut i: usize = 0;
    while i < n
        invariant
            n == b@.len(),
            a@.len() == n,
            i <= n,
            forall|k: int| 0 <= k < i ==> a@[k] == b@[k],
        decreases n - i,
    {
        if a[i] != b.get_char(i) {
            return false;
        }
        i = i + 1;
    }
    assert(a@ =~= b@);
    true
}

/// An optional value as an optional integer.
pub open spec fn opt_value<T: Integer>(v: Option<T>) -> Option<int> {
    match v {
        Some(x) => Some(x as int),
        None => None,
    }
}

// ---------------------------------------------------------------- free text

/// The answer of a free-text question: the line, or the default for an
/// empty line.
pub open spec fn text_answer(line: Seq<char>, default: Option<Seq<char>>) -> Seq<char> {
    if line.len() == 0 && default is Some {
        default->0
    } else {
        line
    }
}

/// The answer of a free-text question: the line, or the default for an
/// empty line.
pub fn plain_answer(line: String, default: Option<String>) -> (r: String)
    ensures
        r@ == text_answer(
            line@,
            match default {
                Some(d) => Some(d@),
                None => None,
            },
        ),
{
    if line.as_str().is_empty() {
        match default {
            Some(d) => {
                return d;
            },
            None => {},
        }
    }
    line
}

/// Asks for any line that is not empty.
pub struct NonEmptyInput;

impl NonEmptyInput {
    /// Whether the line is an answer: it is not empty.
    pub fn accepts(&self, line: &str) -> (r: bool)
        ensures
            r == (line@.len() > 0),
    {
        !line.is_empty()
    }
}

/// Asks for a line with at least one character that is not white space.
pub struct NonWhitespaceInput;

impl NonWhitespaceInput {
    /// Whether the line is an answer: some character of it is not white
    /// space.
    pub fn accepts(&self, line: &str) -> (r: bool)
        ensures
            r == (exists|i: int| 0 <= i < line@.len() && !is_white_space(#[trigger] line@[i])),
    {
        let n = line.unicode_len();
        let mut i: usize = 0;
        while i < n
            invariant
                n == line@.len(),
                i <= n,
                forall|k: int| 0 <= k < i ==> is_white_space(#[trigger] line@[k]),
            decreases n - i,
        {
            if !char_is_whitespace(line.get_char(i)) {
                return true;
            }
            i = i + 1;
        }
        false
    }
}

// ---------------------------------------------------------------- booleans

/// The answer of a true/false question, given the lowercased line.
pub open spec fn bool_answer(lowered: Seq<char>, default: Option<bool>) -> Option<bool> {
    if lowered.len() == 0 && default is Some {
        default
    } else if lowered == seq!['t', 'r', 'u', 'e'] || lowered == seq!['t'] {
        Some(true)
    } else if lowered == seq!['f', 'a', 'l', 's', 'e'] || lowered == seq!['f'] {
        Some(false)
    } else {
        None
    }
}

/// The answer of a yes/no question, given the lowercased line.
pub open spec fn yes_no_answer(lowered: Seq<char>, default: Option<bool>) -> Option<bool> {
    if lowered.len() == 0 && default is Some {
        default
    } else if lowered == seq!['y', 'e', 's'] || lowered == seq!['y'] {
        Some(true)
    } else if lowered == seq!['n', 'o'] || lowered == seq!['n'] {
        Some(false)
    } else {
        None
    }
}

/// Asks for `true`, `t`, `false` or `f`, in any case.
pub struct BoolInput;

impl BoolInput {
    /// The answer that an already lowercased line gives.
    pub fn interpret_lowered(&self, lowered: &str, default: Option<bool>) -> (r: Option<bool>)
        ensures
            r == bool_answer(lowered@, default),
    {
        let l = chars_of(lowered);
        proof {
            reveal_strlit("true");
            assert("true"@ =~= seq!['t', 'r', 'u', 'e']);
            reveal_strlit("t");
            assert("t"@ =~= seq!['t']);
            reveal_strlit("false");
            assert("false"@ =~= seq!['f', 'a', 'l', 's', 'e']);
            reveal_strlit("f");
            assert("f"@ =~= seq!['f']);
        }
        if l.len() == 0 && default.is_some() {
            default
        } else if same_text(&l, "true") || same_text(&l, "t") {
            Some(true)
        } else if same_text(&l, "false") || same_text(&l, "f") {
            Some(false)
        } else {
            None
        }
    }

    /// The answer that a line gives; `None` when it gives none.
    pub fn interpret(&self, line: &str, default: Option<bool>) -> (r: Option<bool>)
        ensures
            r == bool_answer(lowercase_of(line@), default),
            line@.len() == 0 && default is Some ==> r == default,
    {
        let lowered = to_lowercase(line);
        self.interpret_lowered(lowered.as_str(), default)
    }
}

/// Asks for `yes`, `y`, `no` or `n`, in any case.
pub struct YesNoInput;

impl YesNoInput {
    /// The answer that an already lowercased line gives.
    pub fn interpret_lowered(&self, lowered: &str, default: Option<bool>) -> (r: Option<bool>)
        ensures
            r == yes_no_answer(lowered@, default),
    {
        let l = chars_of(lowered);
        proof {
            reveal_strlit("yes");
            assert("yes"@ =~= seq!['y', 'e', 's']);
            reveal_strlit("y");
            assert("y"@ =~= seq!['y']);
            reveal_strlit("no");
            assert("no"@ =~= seq!['n', 'o']);
            reveal_strlit("n");
            assert("n"@ =~= seq!['n']);
        }
        if l.len() == 0 && default.is_some() {
            default
        } else if same_text(&l, "yes") || same_text(&l, "y") {
            Some(true)
        } else if same_text(&l, "no") || same_text(&l, "n") {
            Some(false)
        } else {
            None
        }
    }

    /// The answer that a line gives; `None` when it gives none.
    pub fn interpret(&self, line: &str, default: Option<bool>) -> (r: Option<bool>)
        ensures
            r == yes_no_answer(lowercase_of(line@), default),
            line@.len() == 0 && default is Some ==> r == default,
    {
        let lowered = to_lowercase(line);
        self.interpret_lowered(lowered.as_str(), default)
    }
}

// ---------------------------------------------------------------- characters

/// The answer of a one-character question.
pub open spec fn char_answer(line: Seq<char>, default: Option<char>) -> Option<char> {
    if line.len() == 0 && default is Some {
        default
    } else if line.len() == 1 {
        Some(line[0])
    } else {
        None
    }
}

/// Asks for exactly one character.
pub struct CharInput;

impl CharInput {
    /// The answer that a line gives; `None` when it gives none.
    pub fn interpret(&self, line: &str, default: Option<char>) -> (r: Option<char>)
        ensures
            r == char_answer(line@, default),
    {
        let n = line.unicode_len();
        if n == 0 && default.is_some() {
            default
        } else if n == 1 {
            Some(line.get_char(0))
        } else {
            None
        }
    }
}

// ---------------------------------------------------------------- integers

/// The answer of a question for an unsigned integer of at most `max`.
pub open spec fn unsigned_answer(line: Seq<char>, default: Option<int>, max: int) -> Option<int> {
    if line.len() == 0 && default is Some {
        default
    } else {
        match unsigned_literal(line) {
            Some(v) => if v <= max {
                Some(v)
            } else {
                None
            },
            None => None,
        }
    }
}

/// The answer of a question for a signed integer in `min ..= max`.
pub open spec fn signed_answer(line: Seq<char>, default: Option<int>, min: int, max: int) -> Option<int> {
    if line.len() == 0 && default is Some {
        default
    } else {
        match signed_literal(line) {
            Some(v) => if min <= v <= max {
                Some(v)
            } else {
                None
            },
            None => None,
        }
    }
}

/// Asks for a u8.
pub struct U8Input;

impl U8Input {
    /// The answer that a line gives; `None` when it gives none.
    pub fn interpret(&self, line: &str, default: Option<u8>) -> (r: Option<u8>)
        ensures
            opt_value(r) == unsigned_answer(line@, opt_value(default), u8::MAX as int),
    {
        if line.is_empty() && default.is_some() {
            return default;
        }
        proof {
            lemma_unsigned_literal_nonneg(line@);
        }
        match parse_u128(line) {
            Some(v) => if v <= u8::MAX as u128 {
                Some(v as u8)
            } else {
                None
            },
            None => None,
        }
    }
}

/// Asks for a u16.
pub struct U16Input;

impl U16Input {
    /// The answer that a line gives; `None` when it gives none.
    pub fn interpret(&self, line: &str, default: Option<u16>) -> (r: Option<u16>)
        ensures
            opt_value(r) == unsigned_answer(line@, opt_value(default), u16::MAX as int),
    {
        if line.is_empty() && default.is_some() {
            return default;
        }
        proof {
            lemma_unsigned_literal_nonneg(line@);
        }
        match parse_u128(line) {
            Some(v) => if v <= u16::MAX as u128 {
                Some(v as u16)
            } else {
                None
            },
            None => None,
        }
    }
}

/// Asks for a u32.
pub struct U32Input;

impl U32Input {
    /// The answer that a line gives; `None` when it gives none.
    pub fn interpret(&self, line: &str, default: Option<u32>) -> (r: Option<u32>)
        ensures
            opt_value(r) == unsigned_answer(line@, opt_value(default), u32::MAX as int),
    {
        if line.is_empty() && default.is_some() {
            return default;
        }
        proof {
            lemma_unsigned_literal_nonneg(line@);
        }
        match parse_u128(line) {
            Some(v) => if v <= u32::MAX as u128 {
                Some(v as u32)
            } else {
                None
            },
            None => None,
        }
    }
}

/// Asks for a u64.
pub struct U64Input;

impl U64Input {
    /// The answer that a line gives; `None` when it gives none.
    pub fn interpret(&self, line: &str, default: Option<u64>) -> (r: Option<u64>)
        ensures
            opt_value(r) == unsigned_answer(line@, opt_value(default), u64::MAX as int),
    {
        if line.is_empty() && default.is_some() {
            return default;
        }
        proof {
            lemma_unsigned_literal_nonneg(line@);
        }
        match parse_u128(line) {
            Some(v) => if v <= u64::MAX as u128 {
                Some(v as u64)
            } else {
                None
            },
            None => None,
        }
    }
}

/// Asks for a u128.
pub struct U128Input;

impl U128Input {
    /// The answer that a line gives; `None` when it gives none.
    pub fn interpret(&self, line: &str, default: Option<u128>) -> (r: Option<u128>)
        ensures
            opt_value(r) == unsigned_answer(line@, opt_value(default), u128::MAX as int),
    {
        if line.is_empty() && default.is_some() {
            return default;
        }
        proof {
            lemma_unsigned_literal_nonneg(line@);
        }
        match parse_u128(line) {
            Some(v) => Some(v),
            None => None,
        }
    }
}

/// Asks for a usize.
pub struct UsizeInput;

impl UsizeInput {
    /// The answer that a line gives; `None` when it gives none.
    pub fn interpret(&self, line: &str, default: Option<usize>) -> (r: Option<usize>)
        ensures
            opt_value(r) == unsigned_answer(line@, opt_value(default), usize::MAX as int),
    {
        if line.is_empty() && default.is_some() {
            return default;
        }
        proof {
            lemma_unsigned_literal_nonneg(line@);
        }
        match parse_u128(line) {
            Some(v) => if v <= usize::MAX as u128 {
                Some(v as usize)
            } else {
                None
            },
            None => None,
        }
    }
}

/// Asks for an i8.
pub struct I8Input;

impl I8Input {
    /// The answer that a line gives; `None` when it gives none.
    pub fn interpret(&self, line: &str, default: Option<i8>) -> (r: Option<i8>)
        ensures
            opt_value(r) == signed_answer(line@, opt_value(default), i8::MIN as int, i8::MAX as int),
    {
        if line.is_empty() && default.is_some() {
            return default;
        }
        match parse_i128(line) {
            Some(v) => if i8::MIN as i128 <= v && v <= i8::MAX as i128 {
                Some(v as i8)
            } else {
                None
            },
            None => None,
        }
    }
}

/// Asks for an i16.
pub struct I16Input;

impl I16Input {
    /// The answer that a line gives; `None` when it gives none.
    pub fn interpret(&self, line: &str, default: Option<i16>) -> (r: Option<i16>)
        ensures
            opt_value(r) == signed_answer(line@, opt_value(default), i16::MIN as int, i16::MAX as int),
    {
        if line.is_empty() && default.is_some() {
            return default;
        }
        match parse_i128(line) {
            Some(v) => if i16::MIN as i128 <= v && v <= i16::MAX as i128 {
                Some(v as i16)
            } else {
                None
            },
            None => None,
        }
    }
}

/// Asks for an i32.
pub struct I32Input;

impl I32Input {
    /// The answer that a line gives; `None` when it gives none.
    pub fn interpret(&self, line: &str, default: Option<i32>) -> (r: Option<i32>)
        ensures
            opt_value(r) == signed_answer(line@, opt_value(default), i32::MIN as int, i32::MAX as int),
    {
        if line.is_empty() && default.is_some() {
            return default;
        }
        match parse_i128(line) {
            Some(v) => if i32::MIN as i128 <= v && v <= i32::MAX as i128 {
                Some(v as i32)
            } else {
                None
            },
            None => None,
        }
    }
}

/// Asks for an i64.
pub struct I64Input;

impl I64Input {
    /// The answer that a line gives; `None` when it gives none.
    pub fn interpret(&self, line: &str, default: Option<i64>) -> (r: Option<i64>)
        ensures
            opt_value(r) == signed_answer(line@, opt_value(default), i64::MIN as int, i64::MAX as int),
    {
        if line.is_empty() && default.is_some() {
            return default;
        }
        match parse_i128(line) {
            Some(v) => if i64::MIN as i128 <= v && v <= i64::MAX as i128 {
                Some(v as i64)
            } else {
                None
            },
            None => None,
        }
    }
}

/// Asks for an i128.
pub struct I128Input;

impl I128Input {
    /// The answer that a line gives; `None` when it gives none.
    pub fn interpret(&self, line: &str, default: Option<i128>) -> (r: Option<i128>)
        ensures
            opt_value(r) == signed_answer(line@, opt_value(default), i128::MIN as int, i128::MAX as int),
    {
        if line.is_empty() && default.is_some() {
            return default;
        }
        match parse_i128(line) {
            Some(v) => Some(v),
            None => None,
        }
    }
}

/// Asks for an isize.
pub struct IsizeInput;

impl IsizeInput {
    /// The answer that a line gives; `None` when it gives none.
    pub fn interpret(&self, line: &str, default: Option<isize>) -> (r: Option<isize>)
        ensures
            opt_value(r) == signed_answer(line@, opt_value(default), isize::MIN as int, isize::MAX as int),
    {
        if line.is_empty() && default.is_some() {
            return default;
        }
        match parse_i128(line) {
            Some(v) => if isize::MIN as i128 <= v && v <= isize::MAX as i128 {
                Some(v as isize)
            } else {
                None
            },
            None => None,
        }
    }
}

} // verus!
