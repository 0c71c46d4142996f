//! Dictionaries of string keys and string values, and parsing of the values.

use vstd::prelude::*;
use vstd::string::StringSliceAdditionalSpecFns;

verus! {

/// The byte value of the zero digit.
pub const DIGIT_ZERO: u8 = 48;

/// Whether `b` is the byte of a decimal digit.
pub open spec fn is_digit(b: u8) -> bool {
    DIGIT_ZERO <= b <= 57
}

/// Whether every byte of `s` is a decimal digit.
pub open spec fn all_digits(s: Seq<u8>) -> bool {
    forall|i: int| 0 <= i < s.len() ==> is_digit(#[trigger] s[i])
}

/// The value of a sequence of decimal digits, most significant first.
pub open spec fn digits_val(s: Seq<u8>) -> int
    decreases s.len(),
{
    if s.len() == 0 {
        0
    } else {
        digits_val(s.drop_last()) * 10 + (s.last() - DIGIT_ZERO)
    }
}

/// The magnitude that a non-empty, all-digit byte sequence denotes, if it
/// fits an unsigned 64-bit value.
pub open spec fn spec_parse_magnitude(s: Seq<u8>) -> Option<int> {
    if s.len() >= 1 && all_digits(s) && digits_val(s) <= u64::MAX {
        Some(digits_val(s))
    } else {
        None
    }
}

/// A longer digit sequence denotes no smaller a value.
proof fn lemma_digits_val_grows(s: Seq<u8>, i: int)
    requires
        all_digits(s),
        0 <= i <= s.len(),
    ensures
        digits_val(s.take(i)) <= digits_val(s),
        digits_val(s) >= 0,
    decreases s.len() - i,
{
    if i == s.len() {
        assert(s.take(i) =~= s);
        lemma_digits_val_nonneg(s);
    } else {
        lemma_digits_val_grows(s, i + 1);
        lemma_digits_val_nonneg(s.take(i));
        assert(s.take(i + 1).drop_last() =~= s.take(i));
        assert(s.take(i + 1).last() == s[i]);
        assert(digits_val(s.take(i)) * 10 >= digits_val(s.take(i))) by (nonlinear_arith)
            requires digits_val(s.take(i)) >= 0;
    }
}

/// Digit sequences denote non-negative values.
proof fn lemma_digits_val_nonneg(s: Seq<u8>)
    requires
        all_digits(s),
    ensures
        digits_val(s) >= 0,
    decreases s.len(),
{
    if s.len() > 0 {
        assert(all_digits(s.drop_last()));
        lemma_digits_val_nonneg(s.drop_last());
        assert(digits_val(s.drop_last()) * 10 >= 0) by (nonlinear_arith)
            requires digits_val(s.drop_last()) >= 0;
    }
}

/// Parse the digits of `s` from `start` on as an unsigned 64-bit magnitude.
///
/// Returns the denoted value exactly when the rest of `s` is one or more
/// digits denoting a value the 64 bits can hold.
fn parse_magnitude_from(s: &[u8], start: usize) -> (r: Option<u64>)
    requires
        start <= s@.len(),
    ensures
        r matches Some(v) ==> spec_parse_magnitude(s@.skip(start as int)) == Some(v as int),
        r is None ==> spec_parse_magnitude(s@.skip(start as int)) is None,
{
    let ghost d = s@.skip(start as int);
    let n = s.len();
    if start == n {
        return None;
    }
    let mut acc: u64 = 0;
    let mut i: usize = start;
    while i < n
        invariant
            start <= i <= n,
            n == s@.len(),
            d == s@.skip(start as int),
            all_digits(d.take(i - start)),
            acc == digits_val(d.take(i - start)),
        decreases n - i,
    {
        let b = *vstd::slice::slice_index_get(s, i);
        if b < DIGIT_ZERO || b > 57 {
            proof {
                assert(d[i - start] == b);
                assert(!is_digit(d[i - start]));
            }
            return None;
        }
        let digit = (b - DIGIT_ZERO) as u64;
        if acc > (u64::MAX - digit) / 10 {
            proof {
                let k = i - start;
                assert(d.take(k + 1).drop_last() =~= d.take(k));
                assert(d.take(k + 1).last() == d[k]);
                assert(all_digits(d.take(k + 1)));
                assert(digits_val(d.take(k + 1)) == acc * 10 + digit);
                let m = (u64::MAX - digit) as int / 10;
                vstd::arithmetic::div_mod::lemma_fundamental_div_mod(
                    (u64::MAX - digit) as int,
                    10,
                );
                vstd::arithmetic::div_mod::lemma_mod_bound((u64::MAX - digit) as int, 10);
                assert(acc * 10 >= (m + 1) * 10) by (nonlinear_arith)
                    requires acc >= m + 1;
                assert(digits_val(d.take(k + 1)) > u64::MAX);
                lemma_digits_val_grows_from(d, k + 1);
            }
            return None;
        }
        acc = acc * 10 + digit;
        proof {
            let k = i - start;
            assert(d.take(k + 1).drop_last() =~= d.take(k));
            assert(d.take(k + 1).last() == d[k]);
        }
        i = i + 1;
    }
    proof {
        assert(d.take(n - start) =~= d);
    }
    Some(acc)
}

/// If a prefix of a digit sequence already denotes more than fits, so does
/// the whole sequence, provided the rest are digits; if the rest are not all
/// digits, parsing fails anyway.
proof fn lemma_digits_val_grows_from(s: Seq<u8>, i: int)
    requires
        0 <= i <= s.len(),
        all_digits(s.take(i)),
        digits_val(s.take(i)) > u64::MAX,
    ensures
        spec_parse_magnitude(s) is None,
{
    if all_digits(s) {
        lemma_digits_val_grows(s, i);
    }
}

/// An error raised when a dictionary value cannot be converted to the
/// requested type.
#[derive(Debug, PartialEq)]
pub struct ParseValueError {
    value: String,
    target: String,
}

impl ParseValueError {
    /// The value that could not be converted.
    pub closed spec fn spec_value(&self) -> Seq<char> {
        self.value@
    }

    /// The name of the requested type.
    pub closed spec fn spec_target(&self) -> Seq<char> {
        self.target@
    }

    /// A new conversion error for `value` and the name of the requested type.
    pub fn new(value: &str, target: &str) -> (r: Self)
        ensures
            r.spec_value() == value@,
            r.spec_target() == target@,
    {
        ParseValueError {
            value: <String as vstd::string::StringExecFns>::from_str(value),
            target: <String as vstd::string::StringExecFns>::from_str(target),
        }
    }
}

/// Trait implemented on types which can be parsed from a dictionary value.
pub trait ParsableValue: Sized {
    /// Try parsing `value` to convert it to the requested type.
    fn parse_value(value: &str) -> Option<Self>;
}

/// Trait providing API to modify dictionaries.
pub trait WritableDict {
    /// Insert the key-value pair, overwriting any old value.
    fn insert(&mut self, key: String, value: String);

    /// Remove the key-value pair if it exists.
    fn remove(&mut self, key: &str);

    /// Clear the object, removing all key-value pairs.
    fn clear(&mut self);
}

/// The parse of a dictionary value as an unsigned number with the given
/// upper bound: one or more digits, optionally preceded by a plus sign.
pub open spec fn spec_parse_unsigned(s: Seq<u8>, bound: int) -> Option<int> {
    let digits = if s.len() >= 1 && s[0] == 43 {
        s.skip(1)
    } else {
        s
    };
    match spec_parse_magnitude(digits) {
        Some(v) => if v <= bound {
            Some(v)
        } else {
            None
        },
        None => None,
    }
}

/// The parse of a dictionary value as a signed number within the given
/// bounds: one or more digits, optionally preceded by a plus or minus sign.
pub open spec fn spec_parse_signed(s: Seq<u8>, lo: int, hi: int) -> Option<int> {
    if s.len() >= 1 && s[0] == 45 {
        match spec_parse_magnitude(s.skip(1)) {
            Some(v) => if -v >= lo {
                Some(-v)
            } else {
                None
            },
            None => None,
        }
    } else {
        spec_parse_unsigned(s, hi)
    }
}

/// Parse a decimal unsigned 64-bit value, exactly as
/// [`spec_parse_unsigned`] describes.
pub fn parse_u64(value: &str) -> (r: Option<u64>)
    ensures
        match r {
            Some(v) => spec_parse_unsigned(value.spec_bytes(), u64::MAX as int) == Some(v as int),
            None => spec_parse_unsigned(value.spec_bytes(), u64::MAX as int) is None,
        },
{
    let bytes = value.as_bytes();
    let n = bytes.len();
    if n >= 1 && *vstd::slice::slice_index_get(bytes, 0) == 43 {
        proof {
            assert(bytes@.skip(1) =~= value.spec_bytes().skip(1));
        }
        parse_magnitude_from(bytes, 1)
    } else {
        proof {
            assert(bytes@.skip(0) =~= value.spec_bytes());
        }
        parse_magnitude_from(bytes, 0)
    }
}

/// Parse a decimal unsigned 32-bit value, exactly as
/// [`spec_parse_unsigned`] describes.
pub fn parse_u32(value: &str) -> (r: Option<u32>)
    ensures
        match r {
            Some(v) => spec_parse_unsigned(value.spec_bytes(), u32::MAX as int) == Some(v as int),
            None => spec_parse_unsigned(value.spec_bytes(), u32::MAX as int) is None,
        },
{
    match parse_u64(value) {
        None => None,
        Some(v) => if v > u32::MAX as u64 {
            None
        } else {
            Some(v as u32)
        },
    }
}

/// Parse a decimal signed 64-bit value, exactly as [`spec_parse_signed`]
/// describes.
pub fn parse_i64(value: &str) -> (r: Option<i64>)
    ensures
        match r {
            Some(v) => spec_parse_signed(value.spec_bytes(), i64::MIN as int, i64::MAX as int)
                == Some(v as int),
            None => spec_parse_signed(value.spec_bytes(), i64::MIN as int, i64::MAX as int)
                is None,
        },
{
    let bytes = value.as_bytes();
    let n = bytes.len();
    if n >= 1 && *vstd::slice::slice_index_get(bytes, 0) == 45 {
        proof {
            assert(bytes@.skip(1) =~= value.spec_bytes().skip(1));
        }
        match parse_magnitude_from(bytes, 1) {
            None => None,
            Some(v) => if v > 0x8000_0000_0000_0000u64 {
                None
            } else if v == 0x8000_0000_0000_0000u64 {
                Some(i64::MIN)
            } else {
                Some(-(v as i64))
            },
        }
    } else {
        match parse_u64(value) {
            None => None,
            Some(v) => if v > i64::MAX as u64 {
                None
            } else {
                Some(v as i64)
            },
        }
    }
}

/// Narrowing the bounds of a signed parse filters its value and nothing
/// else.
proof fn lemma_parse_signed_narrow(s: Seq<u8>, lo1: int, hi1: int, lo2: int, hi2: int)
    requires
        lo2 <= lo1 <= 0,
        0 <= hi1 <= hi2,
    ensures
        spec_parse_signed(s, lo2, hi2) is None ==> spec_parse_signed(s, lo1, hi1) is None,
        spec_parse_signed(s, lo2, hi2) matches Some(v) ==> spec_parse_signed(s, lo1, hi1) == if
            lo1 <= v <= hi1 {
            Some(v)
        } else {
            None::<int>
        },
{
    if s.len() >= 1 && s[0] == 45 {
        match spec_parse_magnitude(s.skip(1)) {
            Some(m) => {
                lemma_digits_val_nonneg(s.skip(1));
            },
            None => {
            },
        }
    } else {
        let digits = if s.len() >= 1 && s[0] == 43 {
            s.skip(1)
        } else {
            s
        };
        match spec_parse_magnitude(digits) {
            Some(m) => {
                lemma_digits_val_nonneg(digits);
            },
            None => {
            },
        }
    }
}

/// Parse a decimal signed 32-bit value, exactly as [`spec_parse_signed`]
/// describes.
pub fn parse_i32(value: &str) -> (r: Option<i32>)
    ensures
        match r {
            Some(v) => spec_parse_signed(value.spec_bytes(), i32::MIN as int, i32::MAX as int)
                == Some(v as int),
            None => spec_parse_signed(value.spec_bytes(), i32::MIN as int, i32::MAX as int)
                is None,
        },
{
    proof {
        lemma_parse_signed_narrow(
            value.spec_bytes(),
            i32::MIN as int,
            i32::MAX as int,
            i64::MIN as int,
            i64::MAX as int,
        );
    }
    match parse_i64(value) {
        None => None,
        Some(v) => if v < i32::MIN as i64 || v > i32::MAX as i64 {
            None
        } else {
            Some(v as i32)
        },
    }
}

/// Parse a decimal unsigned 8-bit value, exactly as [`spec_parse_unsigned`]
/// describes.
pub fn parse_u8(value: &str) -> (r: Option<u8>)
    ensures
        match r {
            Some(v) => spec_parse_unsigned(value.spec_bytes(), u8::MAX as int) == Some(v as int),
            None => spec_parse_unsigned(value.spec_bytes(), u8::MAX as int) is None,
        },
{
    match parse_u64(value) {
        None => None,
        Some(v) => if v > u8::MAX as u64 {
            None
        } else {
            Some(v as u8)
        },
    }
}

/// Parse a decimal unsigned 16-bit value, exactly as [`spec_parse_unsigned`]
/// describes.
pub fn parse_u16(value: &str) -> (r: Option<u16>)
    ensures
        match r {
            Some(v) => spec_parse_unsigned(value.spec_bytes(), u16::MAX as int) == Some(v as int),
            None => spec_parse_unsigned(value.spec_bytes(), u16::MAX as int) is None,
        },
{
    match parse_u64(value) {
        None => None,
        Some(v) => if v > u16::MAX as u64 {
            None
        } else {
            Some(v as u16)
        },
    }
}

/// Parse a decimal unsigned pointer-size value, exactly as
/// [`spec_parse_unsigned`] describes.
pub fn parse_usize(value: &str) -> (r: Option<usize>)
    ensures
        match r {
            Some(v) => spec_parse_unsigned(value.spec_bytes(), usize::MAX as int) == Some(
                v as int,
            ),
            None => spec_parse_unsigned(value.spec_bytes(), usize::MAX as int) is None,
        },
{
    match parse_u64(value) {
        None => None,
        Some(v) => if v > usize::MAX as u64 {
            None
        } else {
            Some(v as usize)
        },
    }
}

/// Parse a decimal signed 8-bit value, exactly as [`spec_parse_signed`]
/// describes.
pub fn parse_i8(value: &str) -> (r: Option<i8>)
    ensures
        match r {
            Some(v) => spec_parse_signed(value.spec_bytes(), i8::MIN as int, i8::MAX as int)
                == Some(v as int),
            None => spec_parse_signed(value.spec_bytes(), i8::MIN as int, i8::MAX as int)
                is None,
        },
{
    proof {
        lemma_parse_signed_narrow(
            value.spec_bytes(),
            i8::MIN as int,
            i8::MAX as int,
            i64::MIN as int,
            i64::MAX as int,
        );
    }
    match parse_i64(value) {
        None => None,
        Some(v) => if v < i8::MIN as i64 || v > i8::MAX as i64 {
            None
        } else {
            Some(v as i8)
        },
    }
}

/// Parse a decimal signed 16-bit value, exactly as [`spec_parse_signed`]
/// describes.
pub fn parse_i16(value: &str) -> (r: Option<i16>)
    ensures
        match r {
            Some(v) => spec_parse_signed(value.spec_bytes(), i16::MIN as int, i16::MAX as int)
                == Some(v as int),
            None => spec_parse_signed(value.spec_bytes(), i16::MIN as int, i16::MAX as int)
                is None,
        },
{
    proof {
        lemma_parse_signed_narrow(
            value.spec_bytes(),
            i16::MIN as int,
            i16::MAX as int,
            i64::MIN as int,
            i64::MAX as int,
        );
    }
    match parse_i64(value) {
        None => None,
        Some(v) => if v < i16::MIN as i64 || v > i16::MAX as i64 {
            None
        } else {
            Some(v as i16)
        },
    }
}

/// Parse a decimal signed pointer-size value, exactly as
/// [`spec_parse_signed`] describes.
pub fn parse_isize(value: &str) -> (r: Option<isize>)
    ensures
        match r {
            Some(v) => spec_parse_signed(value.spec_bytes(), isize::MIN as int, isize::MAX as int)
                == Some(v as int),
            None => spec_parse_signed(value.spec_bytes(), isize::MIN as int, isize::MAX as int)
                is None,
        },
{
    proof {
        lemma_parse_signed_narrow(
            value.spec_bytes(),
            isize::MIN as int,
            isize::MAX as int,
            i64::MIN as int,
            i64::MAX as int,
        );
    }
    match parse_i64(value) {
        None => None,
        Some(v) => if v < isize::MIN as i64 || v > isize::MAX as i64 {
            None
        } else {
            Some(v as isize)
        },
    }
}

/// The parse of a dictionary value as a boolean, which never fails: the
/// bytes of the word `true`, and any string denoting the number 1, are true;
/// everything else is false.
pub open spec fn spec_parse_bool(s: Seq<u8>) -> bool {
    s == seq![116u8, 114u8, 117u8, 101u8] || spec_parse_signed(
        s,
        i32::MIN as int,
        i32::MAX as int,
    ) == Some(1int)
}

/// Parse a dictionary value as a boolean, exactly as [`spec_parse_bool`]
/// describes.
pub fn parse_bool(value: &str) -> (r: bool)
    ensures
        r == spec_parse_bool(value.spec_bytes()),
{
    let bytes = value.as_bytes();
    let lit: &[u8] = &[116, 114, 117, 101];
    proof {
        assert(lit@ =~= seq![116u8, 114u8, 117u8, 101u8]);
    }
    if bytes_equal(bytes, lit) {
        true
    } else {
        match parse_i32(value) {
            Some(v) => v == 1,
            None => false,
        }
    }
}

/// Whether two byte slices hold the same bytes.
fn bytes_equal(a: &[u8], b: &[u8]) -> (r: bool)
    ensures
        r == (a@ == b@),
{
    let n = a.len();
    if n != b.len() {
        proof {
            assert(a@.len() != b@.len());
        }
        return false;
    }
    let mut i: usize = 0;
    while i < n
        invariant
            i <= n,
            n == a@.len() == b@.len(),
            forall|j: int| 0 <= j < i ==> a@[j] == b@[j],
        decreases n - i,
    {
        if *vstd::slice::slice_index_get(a, i) != *vstd::slice::slice_index_get(b, i) {
            return false;
        }
        i = i + 1;
    }
    proof {
        assert(a@ =~= b@);
    }
    true
}

// Same logic as the C property helpers: `true`, or any
// string denoting the number one, parses to true; everything else to false.
impl ParsableValue for bool {
    fn parse_value(value: &str) -> Option<Self> {
        Some(parse_bool(value))
    }
}

impl ParsableValue for i32 {
    fn parse_value(value: &str) -> Option<Self> {
        parse_i32(value)
    }
}

impl ParsableValue for u32 {
    fn parse_value(value: &str) -> Option<Self> {
        parse_u32(value)
    }
}

impl ParsableValue for i64 {
    fn parse_value(value: &str) -> Option<Self> {
        parse_i64(value)
    }
}

impl ParsableValue for u64 {
    fn parse_value(value: &str) -> Option<Self> {
        parse_u64(value)
    }
}

impl ParsableValue for i8 {
    fn parse_value(value: &str) -> Option<Self> {
        parse_i8(value)
    }
}

impl ParsableValue for u8 {
    fn parse_value(value: &str) -> Option<Self> {
        parse_u8(value)
    }
}

impl ParsableValue for i16 {
    fn parse_value(value: &str) -> Option<Self> {
        parse_i16(value)
    }
}

impl ParsableValue for u16 {
    fn parse_value(value: &str) -> Option<Self> {
        parse_u16(value)
    }
}

impl ParsableValue for isize {
    fn parse_value(value: &str) -> Option<Self> {
        parse_isize(value)
    }
}

impl ParsableValue for usize {
    fn parse_value(value: &str) -> Option<Self> {
        parse_usize(value)
    }
}

} // verus!
