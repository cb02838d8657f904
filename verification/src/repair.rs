//! Repairing values into the types a schema asks for: integers are
//! range-checked, text is parsed, scalars are broadcast into lists and rows
//! are projected onto their fields.
//!
//! Every contract here states the outcome exactly wherever it does not go
//! through floating-point arithmetic; where it does, the arithmetic is done
//! by a [`FloatOps`], and the contract states which of its methods makes
//! the number from which argument ([`float_steps`]), leaving open only what
//! that method gives back.
use vstd::prelude::*;
use vstd::string::StringExecFns;
use vstd::string::StringSliceAdditionalSpecFns;

use crate::typeable::{PrimitiveDataType, PyroType, TypeModel};
use crate::value::{is_integer_type, PyroValue, ValueModel};

verus! {

/// Arithmetic on floating-point numbers, which this library holds as IEEE
/// 754 bit patterns: the conversions, parses and renderings that repairs
/// and coercions go through.
pub trait FloatOps {
    /// The integer `v` as the nearest single-precision number, as bits.
    fn f32_from_int(&self, v: i128) -> u32;

    /// The integer `v` as the nearest double-precision number, as bits.
    fn f64_from_int(&self, v: i128) -> u64;

    /// The single-precision number with bits `b` rounded toward zero to an
    /// integer, saturated at the bounds of `i128`, with NaN as zero.
    fn f32_to_int(&self, b: u32) -> i128;

    /// The double-precision number with bits `b` rounded toward zero to an
    /// integer, saturated at the bounds of `i128`, with NaN as zero.
    fn f64_to_int(&self, b: u64) -> i128;

    /// The single-precision number with bits `b` widened to double
    /// precision, as bits.
    fn f32_to_f64(&self, b: u32) -> u64;

    /// The double-precision number with bits `b` rounded to single
    /// precision, as bits.
    fn f64_to_f32(&self, b: u64) -> u32;

    /// The single-precision number that the text `s` spells, as bits.
    fn parse_f32(&self, s: &str) -> Option<u32>;

    /// The double-precision number that the text `s` spells, as bits.
    fn parse_f64(&self, s: &str) -> Option<u64>;

    /// The shortest text that reads back as the single-precision number
    /// with bits `b`.
    fn f32_text(&self, b: u32) -> String;

    /// The shortest text that reads back as the double-precision number
    /// with bits `b`.
    fn f64_text(&self, b: u64) -> String;
}

/// Why a value could not be repaired into a type.
#[derive(Debug)]
pub enum ScalarRepairError {
    /// The value has no form in the type.
    Cast(PyroType),
    /// A number lies outside the type's range; the text names the number
    /// and the type.
    OutOfBounds(String, PyroType),
    /// A field that may not be missing is missing from a row.
    Missing(String),
    /// A value that cannot stand where it was found.
    InvalidScalar(PyroValue),
    /// Text that does not spell a value of the type.
    ParseError(String, PyroType),
    /// A repair that is not provided.
    Unimplemented(String),
}

/// What a [`ScalarRepairError`] denotes.
pub enum RepairErrorModel {
    Cast(TypeModel),
    OutOfBounds(Seq<char>, TypeModel),
    Missing(Seq<char>),
    InvalidScalar(ValueModel),
    ParseError(Seq<char>, TypeModel),
    Unimplemented(Seq<char>),
}

impl View for ScalarRepairError {
    type V = RepairErrorModel;

    open spec fn view(&self) -> RepairErrorModel {
        match self {
            ScalarRepairError::Cast(t) => RepairErrorModel::Cast(t@),
            ScalarRepairError::OutOfBounds(s, t) => RepairErrorModel::OutOfBounds(s@, t@),
            ScalarRepairError::Missing(s) => RepairErrorModel::Missing(s@),
            ScalarRepairError::InvalidScalar(v) => RepairErrorModel::InvalidScalar(v@),
            ScalarRepairError::ParseError(s, t) => RepairErrorModel::ParseError(s@, t@),
            ScalarRepairError::Unimplemented(s) => RepairErrorModel::Unimplemented(s@),
        }
    }
}

/// What a repair's result denotes.
pub open spec fn outcome(r: Result<PyroValue, ScalarRepairError>) -> Result<ValueModel, RepairErrorModel> {
    match r {
        Ok(v) => Ok(v@),
        Err(e) => Err(e@),
    }
}

// ---------------------------------------------------------------------------
// Numbers as text
// ---------------------------------------------------------------------------

/// The character of the decimal digit `d`.
pub open spec fn digit_char(d: int) -> char {
    if d == 0 {
        '0'
    } else if d == 1 {
        '1'
    } else if d == 2 {
        '2'
    } else if d == 3 {
        '3'
    } else if d == 4 {
        '4'
    } else if d == 5 {
        '5'
    } else if d == 6 {
        '6'
    } else if d == 7 {
        '7'
    } else if d == 8 {
        '8'
    } else {
        '9'
    }
}

/// The decimal digits of `n`, most significant first, with no leading zero.
pub open spec fn decimal_nat(n: nat) -> Seq<char>
    decreases n,
{
    if n < 10 {
        seq![digit_char(n as int)]
    } else {
        decimal_nat(n / 10).push(digit_char((n % 10) as int))
    }
}

/// The decimal text of the integer `n`, with a minus sign when negative.
pub open spec fn decimal(n: int) -> Seq<char> {
    if n < 0 {
        seq!['-'] + decimal_nat((-n) as nat)
    } else {
        decimal_nat(n as nat)
    }
}

fn digit_text(d: u64) -> (r: &'static str)
    requires
        d < 10,
    ensures
        r@ == seq![digit_char(d as int)],
{
    if d == 0 {
        proof { reveal_strlit("0"); }
        "0"
    } else if d == 1 {
        proof { reveal_strlit("1"); }
        "1"
    } else if d == 2 {
        proof { reveal_strlit("2"); }
        "2"
    } else if d == 3 {
        proof { reveal_strlit("3"); }
        "3"
    } else if d == 4 {
        proof { reveal_strlit("4"); }
        "4"
    } else if d == 5 {
        proof { reveal_strlit("5"); }
        "5"
    } else if d == 6 {
        proof { reveal_strlit("6"); }
        "6"
    } else if d == 7 {
        proof { reveal_strlit("7"); }
        "7"
    } else if d == 8 {
        proof { reveal_strlit("8"); }
        "8"
    } else {
        proof { reveal_strlit("9"); }
        "9"
    }
}

/// The decimal digits of `n`.
pub fn digits_text(n: u64) -> (r: String)
    ensures
        r@ == decimal_nat(n as nat),
    decreases n,
{
    if n < 10 {
        String::from_str(digit_text(n))
    } else {
        let mut s = digits_text(n / 10);
        s.append(digit_text(n % 10));
        s
    }
}

/// The decimal text of `n`, as integers are displayed.
pub fn int_text(n: i128) -> (r: String)
    requires
        -0x1_0000_0000_0000_0000 < n < 0x1_0000_0000_0000_0000,
    ensures
        r@ == decimal(n as int),
{
    if n < 0 {
        let m: u64 = (0 - n) as u64;
        proof { reveal_strlit("-"); }
        let s = String::from_str("-");
        s.concat(digits_text(m).as_str())
    } else {
        digits_text(n as u64)
    }
}

// ---------------------------------------------------------------------------
// Text as numbers and booleans
// ---------------------------------------------------------------------------

pub open spec fn is_digit_char(c: char) -> bool {
    '0' <= c && c <= '9'
}

pub open spec fn all_digits(s: Seq<char>) -> bool {
    forall|i: int| 0 <= i < s.len() ==> is_digit_char(#[trigger] s[i])
}

/// The number that the decimal digits `s` spell.
pub open spec fn digits_value(s: Seq<char>) -> int
    decreases s.len(),
{
    if s.len() == 0 {
        0
    } else {
        digits_value(s.drop_last()) * 10 + (s.last() as int - '0' as int)
    }
}

/// The integer that `s` spells for an integer type whose values run from
/// `lo` to `hi`, as `str::parse` reads it: an optional `+` (or `-` when the
/// type is signed) and at least one decimal digit, with nothing else.
pub open spec fn parse_int(s: Seq<char>, signed: bool, lo: int, hi: int) -> Option<int> {
    let neg = signed && s.len() > 0 && s[0] == '-';
    let digits = if s.len() > 0 && (s[0] == '+' || neg) {
        s.skip(1)
    } else {
        s
    };
    let v = if neg {
        -digits_value(digits)
    } else {
        digits_value(digits)
    };
    if digits.len() == 0 || !all_digits(digits) || v < lo || v > hi {
        None
    } else {
        Some(v)
    }
}

proof fn lemma_digits_value_nonneg(s: Seq<char>)
    requires
        all_digits(s),
    ensures
        digits_value(s) >= 0,
    decreases s.len(),
{
    if s.len() > 0 {
        assert(all_digits(s.drop_last())) by {
            assert forall|i: int| 0 <= i < s.drop_last().len() implies is_digit_char(
                #[trigger] s.drop_last()[i],
            ) by {
                assert(s.drop_last()[i] == s[i]);
            }
        }
        lemma_digits_value_nonneg(s.drop_last());
        assert(is_digit_char(s[s.len() - 1]));
    }
}

/// Reads the integer that `s` spells for an integer type whose values run
/// from `lo` to `hi`.
pub fn parse_integer(s: &str, signed: bool, lo: i128, hi: i128) -> (r: Option<i128>)
    requires
        -0x1_0000_0000_0000_0000 < lo <= hi < 0x1_0000_0000_0000_0000,
    ensures
        r is None <==> parse_int(s@, signed, lo as int, hi as int) is None,
        r matches Some(v) ==> parse_int(s@, signed, lo as int, hi as int) == Some(v as int),
{
    let ghost c = s@;
    let ghost sneg = signed && c.len() > 0 && c[0] == '-';
    let ghost skip = c.len() > 0 && (c[0] == '+' || sneg);
    let ghost digits = if skip { c.skip(1) } else { c };
    let ascii = s.is_ascii();
    if !ascii {
        proof {
            let k = choose|k: int| 0 <= k < c.len() && !('\0' <= #[trigger] c[k] <= '\u{7f}');
            if digits.len() > 0 && all_digits(digits) {
                if skip {
                    assert(k != 0);
                    assert(digits[k - 1] == c[k]);
                    assert(is_digit_char(digits[k - 1]));
                } else {
                    assert(is_digit_char(digits[k]));
                }
            }
        }
        return None;
    }
    let b = s.as_bytes();
    proof {
        vstd::string::is_ascii_spec_bytes(s);
        vstd::utf8::is_ascii_chars_nat_bound(c);
        assert(b@.len() == c.len());
        assert forall|j: int| 0 <= j < c.len() implies c[j] as int == #[trigger] b@[j] as int by {
            lemma_ascii_byte(c[j], b@[j]);
        }
    }
    let n = b.len();
    let neg: bool = signed && n > 0 && b[0] == 45;
    let start: usize = if n > 0 && (b[0] == 43 || neg) { 1 } else { 0 };
    proof {
        if n > 0 {
            assert(c[0] as int == b@[0] as int);
        }
        assert(neg == sneg);
        assert((start == 1) == skip);
        assert(digits =~= c.skip(start as int));
    }
    if start == n {
        return None;
    }
    let mut acc: i128 = 0;
    let mut i: usize = start;
    while i < n
        invariant
            start <= i <= n,
            n == b@.len(),
            n == c.len(),
            start < n,
            c == s@,
            sneg == (signed && c.len() > 0 && c[0] == '-'),
            skip == (c.len() > 0 && (c[0] == '+' || sneg)),
            digits == (if skip { c.skip(1) } else { c }),
            digits == c.skip(start as int),
            -0x1_0000_0000_0000_0000 < lo <= hi < 0x1_0000_0000_0000_0000,
            forall|j: int| 0 <= j < n ==> c[j] as int == #[trigger] b@[j] as int,
            all_digits(c.subrange(start as int, i as int)),
            acc == digits_value(c.subrange(start as int, i as int)),
            0 <= acc <= 0x1_0000_0000_0000_0000,
        decreases n - i,
    {
        let d = b[i];
        proof {
            assert(c[i as int] as int == d as int);
            assert(digits[i - start] == c[i as int]);
        }
        if d < 48 || d > 57 {
            proof {
                assert(!is_digit_char(digits[i - start]));
            }
            return None;
        }
        proof {
            let sub = c.subrange(start as int, i as int);
            let sub1 = c.subrange(start as int, i + 1);
            assert(sub1.drop_last() =~= sub);
            assert(sub1.last() == c[i as int]);
            assert(c[i as int] as int - '0' as int == d - 48);
            assert forall|j: int| 0 <= j < sub1.len() implies is_digit_char(#[trigger] sub1[j]) by {
                if j < sub.len() {
                    assert(sub1[j] == sub[j]);
                }
            }
        }
        let next: i128 = acc * 10 + (d - 48) as i128;
        if next > 0x1_0000_0000_0000_0000 {
            proof {
                if all_digits(digits) {
                    // Further digits only make the number larger.
                    assert(c.subrange(start as int, i + 1) =~= digits.take(i + 1 - start));
                    lemma_digits_grow(c.subrange(start as int, i + 1), digits);
                }
            }
            return None;
        }
        acc = next;
        i = i + 1;
    }
    proof {
        assert(c.subrange(start as int, n as int) =~= digits);
    }
    let v: i128 = if neg { 0 - acc } else { acc };
    if v < lo || v > hi {
        return None;
    }
    Some(v)
}

proof fn lemma_ascii_byte(c: char, b: u8)
    requires
        (c as nat) < 128,
        b == c as u8,
    ensures
        c as int == b as int,
{
}

/// A longer run of digits never spells a smaller number.
proof fn lemma_digits_grow(p: Seq<char>, s: Seq<char>)
    requires
        p.len() <= s.len(),
        all_digits(s),
        p =~= s.take(p.len() as int),
    ensures
        digits_value(p) <= digits_value(s),
    decreases s.len() - p.len(),
{
    if p.len() < s.len() {
        let q = s.take(p.len() as int + 1);
        assert(q.drop_last() =~= p);
        assert(is_digit_char(s[p.len() as int]));
        assert(q.last() == s[p.len() as int]);
        assert(all_digits(p)) by {
            assert forall|i: int| 0 <= i < p.len() implies is_digit_char(#[trigger] p[i]) by {
                assert(p[i] == s[i]);
            }
        }
        lemma_digits_value_nonneg(p);
        lemma_digits_grow(q, s);
        assert(digits_value(q) == digits_value(p) * 10 + (q.last() as int - '0' as int));
        assert(q.last() as int - '0' as int >= 0);
        assert(digits_value(p) <= digits_value(q));
    } else {
        assert(p =~= s);
    }
}

/// `c` with an ASCII capital letter turned to lower case.
pub open spec fn ascii_lower(c: char) -> char {
    if 'A' <= c && c <= 'Z' {
        ((c as int) + 32) as char
    } else {
        c
    }
}

/// Whether `s` is `w` up to the case of ASCII letters; `w` is lower case.
pub open spec fn matches_word(s: Seq<char>, w: Seq<char>) -> bool {
    s.len() == w.len() && forall|i: int| 0 <= i < s.len() ==> ascii_lower(#[trigger] s[i]) == w[i]
}

/// The boolean that `s` spells, ignoring case: `true`, `1` or `yes`, and
/// `false`, `0` or `no`.
pub open spec fn bool_word(s: Seq<char>) -> Option<bool> {
    if matches_word(s, seq!['t', 'r', 'u', 'e']) || matches_word(s, seq!['1']) || matches_word(
        s,
        seq!['y', 'e', 's'],
    ) {
        Some(true)
    } else if matches_word(s, seq!['f', 'a', 'l', 's', 'e']) || matches_word(s, seq!['0'])
        || matches_word(s, seq!['n', 'o']) {
        Some(false)
    } else {
        None
    }
}

fn bytes_match_word(b: &[u8], w: &[u8]) -> (r: bool)
    ensures
        r == (b@.len() == w@.len() && forall|i: int|
            0 <= i < b@.len() ==> (if 65 <= #[trigger] b@[i] <= 90 {
                b@[i] + 32
            } else {
                b@[i] as int
            }) == w@[i]),
{
    if b.len() != w.len() {
        return false;
    }
    let mut i: usize = 0;
    while i < b.len()
        invariant
            b@.len() == w@.len(),
            i <= b@.len(),
            forall|j: int|
                0 <= j < i ==> (if 65 <= #[trigger] b@[j] <= 90 {
                    b@[j] + 32
                } else {
                    b@[j] as int
                }) == w@[j],
        decreases b.len() - i,
    {
        let x = b[i];
        let l: u8 = if 65 <= x && x <= 90 { x + 32 } else { x };
        if l != w[i] {
            return false;
        }
        i = i + 1;
    }
    true
}

/// Reads the boolean that `s` spells, ignoring case.
pub fn parse_bool_word(s: &str) -> (r: Option<bool>)
    ensures
        r == bool_word(s@),
{
    let ghost c = s@;
    if !s.is_ascii() {
        proof {
            let k = choose|k: int| 0 <= k < c.len() && !('\0' <= #[trigger] c[k] <= '\u{7f}');
            assert(!matches_word(c, seq!['t', 'r', 'u', 'e'])) by { if c.len() == 4 { assert(ascii_lower(c[k]) == c[k]); } }
            assert(!matches_word(c, seq!['1'])) by { if c.len() == 1 { assert(ascii_lower(c[k]) == c[k]); } }
            assert(!matches_word(c, seq!['y', 'e', 's'])) by { if c.len() == 3 { assert(ascii_lower(c[k]) == c[k]); } }
            assert(!matches_word(c, seq!['f', 'a', 'l', 's', 'e'])) by { if c.len() == 5 { assert(ascii_lower(c[k]) == c[k]); } }
            assert(!matches_word(c, seq!['0'])) by { if c.len() == 1 { assert(ascii_lower(c[k]) == c[k]); } }
            assert(!matches_word(c, seq!['n', 'o'])) by { if c.len() == 2 { assert(ascii_lower(c[k]) == c[k]); } }
        }
        return None;
    }
    let b = s.as_bytes();
    proof {
        vstd::string::is_ascii_spec_bytes(s);
        assert forall|i: int| 0 <= i < c.len() implies (if 65 <= #[trigger] b@[i] <= 90 {
            b@[i] + 32
        } else {
            b@[i] as int
        }) == ascii_lower(c[i]) as int by {
            assert(b@[i] == c[i] as u8);
        }
    }
    let t = [116u8, 114, 117, 101];
    let one = [49u8];
    let yes = [121u8, 101, 115];
    let f = [102u8, 97, 108, 115, 101];
    let zero = [48u8];
    let no = [110u8, 111];
    let is_true = bytes_match_word(b, &t) || bytes_match_word(b, &one) || bytes_match_word(b, &yes);
    let is_false = bytes_match_word(b, &f) || bytes_match_word(b, &zero) || bytes_match_word(b, &no);
    proof {
        lemma_word_bytes(c, b@, t@, seq!['t', 'r', 'u', 'e']);
        lemma_word_bytes(c, b@, one@, seq!['1']);
        lemma_word_bytes(c, b@, yes@, seq!['y', 'e', 's']);
        lemma_word_bytes(c, b@, f@, seq!['f', 'a', 'l', 's', 'e']);
        lemma_word_bytes(c, b@, zero@, seq!['0']);
        lemma_word_bytes(c, b@, no@, seq!['n', 'o']);
    }
    if is_true {
        Some(true)
    } else if is_false {
        Some(false)
    } else {
        None
    }
}

proof fn lemma_word_bytes(c: Seq<char>, b: Seq<u8>, wb: Seq<u8>, w: Seq<char>)
    requires
        b.len() == c.len(),
        wb.len() == w.len(),
        forall|i: int| 0 <= i < w.len() ==> (#[trigger] w[i] as nat) < 128 && wb[i] == w[i] as u8,
        forall|i: int| 0 <= i < c.len() ==> (c[i] as nat) < 128 && #[trigger] b[i] == c[i] as u8,
        forall|i: int|
            0 <= i < c.len() ==> (if 65 <= #[trigger] b[i] <= 90 {
                b[i] + 32
            } else {
                b[i] as int
            }) == ascii_lower(c[i]) as int,
    ensures
        (b.len() == wb.len() && forall|i: int|
            0 <= i < b.len() ==> (if 65 <= #[trigger] b[i] <= 90 {
                b[i] + 32
            } else {
                b[i] as int
            }) == wb[i]) == matches_word(c, w),
{
    if matches_word(c, w) {
        assert forall|i: int| 0 <= i < b.len() implies (if 65 <= #[trigger] b[i] <= 90 {
            b[i] + 32
        } else {
            b[i] as int
        }) == wb[i] by {
            assert(ascii_lower(c[i]) == w[i]);
        }
    }
    if b.len() == wb.len() && forall|i: int|
        0 <= i < b.len() ==> (if 65 <= #[trigger] b[i] <= 90 {
            b[i] + 32
        } else {
            b[i] as int
        }) == wb[i] {
        assert forall|i: int| 0 <= i < c.len() implies ascii_lower(#[trigger] c[i]) == w[i] by {
            assert(b[i] == c[i] as u8);
            assert(ascii_lower(c[i]) as int == wb[i] as int);
            lemma_ascii_byte(w[i], wb[i]);
        }
    }
}

// ---------------------------------------------------------------------------
// Integer types
// ---------------------------------------------------------------------------

/// The least and greatest values of an integer type.
pub open spec fn int_bounds(p: PrimitiveDataType) -> (int, int) {
    match p {
        PrimitiveDataType::I8 => (-0x80, 0x7f),
        PrimitiveDataType::I16 => (-0x8000, 0x7fff),
        PrimitiveDataType::I32 => (-0x8000_0000, 0x7fff_ffff),
        PrimitiveDataType::I64 => (-0x8000_0000_0000_0000, 0x7fff_ffff_ffff_ffff),
        PrimitiveDataType::U8 => (0, 0xff),
        PrimitiveDataType::U16 => (0, 0xffff),
        PrimitiveDataType::U32 => (0, 0xffff_ffff),
        PrimitiveDataType::U64 => (0, 0xffff_ffff_ffff_ffff),
        _ => (0, 0),
    }
}

pub open spec fn is_signed(p: PrimitiveDataType) -> bool {
    match p {
        PrimitiveDataType::I8 | PrimitiveDataType::I16 | PrimitiveDataType::I32
        | PrimitiveDataType::I64 => true,
        _ => false,
    }
}

/// The Rust name of an integer type.
pub open spec fn int_type_name(p: PrimitiveDataType) -> Seq<char> {
    match p {
        PrimitiveDataType::I8 => seq!['i', '8'],
        PrimitiveDataType::I16 => seq!['i', '1', '6'],
        PrimitiveDataType::I32 => seq!['i', '3', '2'],
        PrimitiveDataType::I64 => seq!['i', '6', '4'],
        PrimitiveDataType::U8 => seq!['u', '8'],
        PrimitiveDataType::U16 => seq!['u', '1', '6'],
        PrimitiveDataType::U32 => seq!['u', '3', '2'],
        _ => seq!['u', '6', '4'],
    }
}

/// The value `n` of the integer type `p`.
pub open spec fn int_model(p: PrimitiveDataType, n: int) -> ValueModel {
    match p {
        PrimitiveDataType::I8 => ValueModel::I8(n as i8),
        PrimitiveDataType::I16 => ValueModel::I16(n as i16),
        PrimitiveDataType::I32 => ValueModel::I32(n as i32),
        PrimitiveDataType::I64 => ValueModel::I64(n as i64),
        PrimitiveDataType::U8 => ValueModel::U8(n as u8),
        PrimitiveDataType::U16 => ValueModel::U16(n as u16),
        PrimitiveDataType::U32 => ValueModel::U32(n as u32),
        _ => ValueModel::U64(n as u64),
    }
}

/// The number an integer value holds.
pub open spec fn int_of(v: ValueModel) -> Option<int> {
    match v {
        ValueModel::I8(x) => Some(x as int),
        ValueModel::I16(x) => Some(x as int),
        ValueModel::I32(x) => Some(x as int),
        ValueModel::I64(x) => Some(x as int),
        ValueModel::U8(x) => Some(x as int),
        ValueModel::U16(x) => Some(x as int),
        ValueModel::U32(x) => Some(x as int),
        ValueModel::U64(x) => Some(x as int),
        _ => None,
    }
}

/// `x` converted to the integer type `p`, or the error that names both when
/// it lies outside the type's range.
pub open spec fn int_cast(x: int, p: PrimitiveDataType) -> Result<ValueModel, RepairErrorModel> {
    if int_bounds(p).0 <= x <= int_bounds(p).1 {
        Ok(int_model(p, x))
    } else {
        Err(
            RepairErrorModel::OutOfBounds(
                decimal(x) + seq![' ', '-', '>', ' '] + int_type_name(p),
                TypeModel::PrimitiveScalar(p),
            ),
        )
    }
}

fn bounds_of(p: PrimitiveDataType) -> (r: (i128, i128))
    requires
        is_integer_type(p),
    ensures
        r.0 == int_bounds(p).0,
        r.1 == int_bounds(p).1,
{
    match p {
        PrimitiveDataType::I8 => (-0x80, 0x7f),
        PrimitiveDataType::I16 => (-0x8000, 0x7fff),
        PrimitiveDataType::I32 => (-0x8000_0000, 0x7fff_ffff),
        PrimitiveDataType::I64 => (-0x8000_0000_0000_0000, 0x7fff_ffff_ffff_ffff),
        PrimitiveDataType::U8 => (0, 0xff),
        PrimitiveDataType::U16 => (0, 0xffff),
        PrimitiveDataType::U32 => (0, 0xffff_ffff),
        _ => (0, 0xffff_ffff_ffff_ffff),
    }
}

fn signed_type(p: PrimitiveDataType) -> (r: bool)
    ensures
        r == is_signed(p),
{
    match p {
        PrimitiveDataType::I8 | PrimitiveDataType::I16 | PrimitiveDataType::I32
        | PrimitiveDataType::I64 => true,
        _ => false,
    }
}

fn int_type_name_text(p: PrimitiveDataType) -> (r: &'static str)
    ensures
        r@ == int_type_name(p),
{
    match p {
        PrimitiveDataType::I8 => {
            proof { reveal_strlit("i8"); }
            "i8"
        },
        PrimitiveDataType::I16 => {
            proof { reveal_strlit("i16"); }
            "i16"
        },
        PrimitiveDataType::I32 => {
            proof { reveal_strlit("i32"); }
            "i32"
        },
        PrimitiveDataType::I64 => {
            proof { reveal_strlit("i64"); }
            "i64"
        },
        PrimitiveDataType::U8 => {
            proof { reveal_strlit("u8"); }
            "u8"
        },
        PrimitiveDataType::U16 => {
            proof { reveal_strlit("u16"); }
            "u16"
        },
        PrimitiveDataType::U32 => {
            proof { reveal_strlit("u32"); }
            "u32"
        },
        _ => {
            proof { reveal_strlit("u64"); }
            "u64"
        },
    }
}

/// The value `n` of the integer type `p`.
pub fn int_value(p: PrimitiveDataType, n: i128) -> (r: PyroValue)
    requires
        is_integer_type(p),
        int_bounds(p).0 <= n <= int_bounds(p).1,
    ensures
        r@ == int_model(p, n as int),
{
    match p {
        PrimitiveDataType::I8 => PyroValue::I8(n as i8),
        PrimitiveDataType::I16 => PyroValue::I16(n as i16),
        PrimitiveDataType::I32 => PyroValue::I32(n as i32),
        PrimitiveDataType::I64 => PyroValue::I64(n as i64),
        PrimitiveDataType::U8 => PyroValue::U8(n as u8),
        PrimitiveDataType::U16 => PyroValue::U16(n as u16),
        PrimitiveDataType::U32 => PyroValue::U32(n as u32),
        _ => PyroValue::U64(n as u64),
    }
}

/// The number an integer value holds.
pub fn integer_of(v: &PyroValue) -> (r: Option<i128>)
    ensures
        r is None <==> int_of(v@) is None,
        r matches Some(x) ==> int_of(v@) == Some(x as int),
{
    match v {
        PyroValue::I8(x) => Some(*x as i128),
        PyroValue::I16(x) => Some(*x as i128),
        PyroValue::I32(x) => Some(*x as i128),
        PyroValue::I64(x) => Some(*x as i128),
        PyroValue::U8(x) => Some(*x as i128),
        PyroValue::U16(x) => Some(*x as i128),
        PyroValue::U32(x) => Some(*x as i128),
        PyroValue::U64(x) => Some(*x as i128),
        _ => None,
    }
}

/// `x` converted to the integer type `p`, or the error that names both.
pub fn int_cast_value(x: i128, p: PrimitiveDataType) -> (r: Result<PyroValue, ScalarRepairError>)
    requires
        is_integer_type(p),
        -0x1_0000_0000_0000_0000 < x < 0x1_0000_0000_0000_0000,
    ensures
        outcome(r) == int_cast(x as int, p),
{
    let (lo, hi) = bounds_of(p);
    if lo <= x && x <= hi {
        Ok(int_value(p, x))
    } else {
        proof { reveal_strlit(" -> "); }
        let text = int_text(x).concat(" -> ").concat(int_type_name_text(p));
        assert(" -> "@ =~= seq![' ', '-', '>', ' ']);
        assert(text@ == decimal(x as int) + seq![' ', '-', '>', ' '] + int_type_name(p));
        let e = ScalarRepairError::OutOfBounds(text, PyroType::PrimitiveScalar(p));
        assert(e@ == RepairErrorModel::OutOfBounds(text@, TypeModel::PrimitiveScalar(p)));
        Err(e)
    }
}

/// `x` brought into the range of the integer type `p` by saturation.
fn saturate(x: i128, p: PrimitiveDataType) -> (r: i128)
    requires
        is_integer_type(p),
    ensures
        int_bounds(p).0 <= r <= int_bounds(p).1,
        r == saturated(x as int, int_bounds(p).0, int_bounds(p).1),
{
    let (lo, hi) = bounds_of(p);
    if x < lo {
        lo
    } else if x > hi {
        hi
    } else {
        x
    }
}

// ---------------------------------------------------------------------------
// Scalar repairs
// ---------------------------------------------------------------------------

/// The outcome of repairing `v` into a boolean.
pub open spec fn repair_bool_spec(v: ValueModel) -> Result<ValueModel, RepairErrorModel> {
    match v {
        ValueModel::Bool(_) => Ok(v),
        ValueModel::Null => Ok(ValueModel::Null),
        ValueModel::Str(s) => match bool_word(s) {
            Some(b) => Ok(ValueModel::Bool(b)),
            None => Err(RepairErrorModel::ParseError(s, TypeModel::PrimitiveScalar(PrimitiveDataType::Bool))),
        },
        ValueModel::I8(x) => Ok(ValueModel::Bool(x != 0)),
        ValueModel::I16(x) => Ok(ValueModel::Bool(x != 0)),
        ValueModel::I32(x) => Ok(ValueModel::Bool(x != 0)),
        ValueModel::I64(x) => Ok(ValueModel::Bool(x != 0)),
        ValueModel::U8(x) => Ok(ValueModel::Bool(x != 0)),
        ValueModel::U16(x) => Ok(ValueModel::Bool(x != 0)),
        ValueModel::U32(x) => Ok(ValueModel::Bool(x != 0)),
        ValueModel::U64(x) => Ok(ValueModel::Bool(x != 0)),
        _ => Err(RepairErrorModel::Cast(TypeModel::PrimitiveScalar(PrimitiveDataType::Bool))),
    }
}

/// The outcome of repairing `v` into the integer type `p`; `None` where it
/// goes through floating point.
pub open spec fn repair_int_spec(v: ValueModel, p: PrimitiveDataType) -> Option<Result<ValueModel, RepairErrorModel>> {
    match v {
        ValueModel::Null => Some(Ok(ValueModel::Null)),
        ValueModel::Str(s) => Some(
            match parse_int(s, is_signed(p), int_bounds(p).0, int_bounds(p).1) {
                Some(n) => Ok(int_model(p, n)),
                None => Err(RepairErrorModel::ParseError(s, TypeModel::PrimitiveScalar(p))),
            },
        ),
        ValueModel::Bool(b) => Some(Ok(int_model(p, if b { 1 } else { 0 }))),
        ValueModel::F32(_) | ValueModel::F64(_) => None,
        _ => match int_of(v) {
            Some(x) => Some(int_cast(x, p)),
            None => Some(Err(RepairErrorModel::Cast(TypeModel::PrimitiveScalar(p)))),
        },
    }
}

/// The bits of one in a floating-point type, and of zero.
pub open spec fn float_one_bits(p: PrimitiveDataType) -> int {
    if p == PrimitiveDataType::F32 {
        0x3f80_0000
    } else {
        0x3ff0_0000_0000_0000
    }
}

/// The floating-point value of type `p` with bits `b`.
pub open spec fn float_model(p: PrimitiveDataType, b: int) -> ValueModel {
    if p == PrimitiveDataType::F32 {
        ValueModel::F32(b as u32)
    } else {
        ValueModel::F64(b as u64)
    }
}

/// The outcome of repairing `v` into the floating-point type `p` (`F32` or
/// `F64`); `None` where it goes through floating-point arithmetic.
pub open spec fn repair_float_spec(v: ValueModel, p: PrimitiveDataType) -> Option<Result<ValueModel, RepairErrorModel>> {
    match v {
        ValueModel::F32(_) => if p == PrimitiveDataType::F32 { Some(Ok(v)) } else { None },
        ValueModel::F64(_) => if p == PrimitiveDataType::F64 { Some(Ok(v)) } else { None },
        ValueModel::Null => Some(Ok(ValueModel::Null)),
        ValueModel::Bool(b) => Some(Ok(float_model(p, if b { float_one_bits(p) } else { 0 }))),
        ValueModel::Str(_) => None,
        _ => if int_of(v) is Some {
            None
        } else {
            Some(Err(RepairErrorModel::Cast(TypeModel::PrimitiveScalar(p))))
        },
    }
}

/// The outcome of repairing `v` into text; `None` where a floating-point
/// number is rendered.
pub open spec fn repair_text_spec(v: ValueModel) -> Option<Result<ValueModel, RepairErrorModel>> {
    match v {
        ValueModel::Str(_) => Some(Ok(v)),
        ValueModel::Null => Some(Ok(ValueModel::Null)),
        ValueModel::Bool(b) => Some(
            Ok(
                ValueModel::Str(
                    if b {
                        seq!['t', 'r', 'u', 'e']
                    } else {
                        seq!['f', 'a', 'l', 's', 'e']
                    },
                ),
            ),
        ),
        ValueModel::F32(_) | ValueModel::F64(_) => None,
        _ => match int_of(v) {
            Some(x) => Some(Ok(ValueModel::Str(decimal(x)))),
            None => Some(Err(RepairErrorModel::Cast(TypeModel::Str))),
        },
    }
}

/// The outcome of repairing `v` into the scalar type `p`; `None` where it
/// goes through floating-point arithmetic.
pub open spec fn repair_scalar_spec(v: ValueModel, p: PrimitiveDataType) -> Option<Result<ValueModel, RepairErrorModel>> {
    if v is Null {
        Some(Ok(ValueModel::Null))
    } else if p == PrimitiveDataType::Bool {
        Some(repair_bool_spec(v))
    } else if is_integer_type(p) {
        repair_int_spec(v, p)
    } else if p == PrimitiveDataType::F16 {
        Some(Err(RepairErrorModel::Unimplemented(seq!['f', '1', '6', ' ', 'r', 'e', 'p', 'a', 'i', 'r'])))
    } else {
        repair_float_spec(v, p)
    }
}

/// Whether `r` is what the specification gives, where it gives one.
pub open spec fn agrees(r: Result<PyroValue, ScalarRepairError>, s: Option<Result<ValueModel, RepairErrorModel>>) -> bool {
    s matches Some(x) ==> outcome(r) == x
}

/// Whether `x` is a scalar of the type `p`.
pub open spec fn is_scalar_of(x: ValueModel, p: PrimitiveDataType) -> bool {
    match x {
        ValueModel::Bool(_) => p == PrimitiveDataType::Bool,
        ValueModel::U8(_) => p == PrimitiveDataType::U8,
        ValueModel::U16(_) => p == PrimitiveDataType::U16,
        ValueModel::U32(_) => p == PrimitiveDataType::U32,
        ValueModel::U64(_) => p == PrimitiveDataType::U64,
        ValueModel::I8(_) => p == PrimitiveDataType::I8,
        ValueModel::I16(_) => p == PrimitiveDataType::I16,
        ValueModel::I32(_) => p == PrimitiveDataType::I32,
        ValueModel::I64(_) => p == PrimitiveDataType::I64,
        ValueModel::F16(_) => p == PrimitiveDataType::F16,
        ValueModel::F32(_) => p == PrimitiveDataType::F32,
        ValueModel::F64(_) => p == PrimitiveDataType::F64,
        _ => false,
    }
}

/// Whether `o` can be the outcome of repairing `v` into the scalar type
/// `p`: the stated outcome where there is one; where floating-point
/// arithmetic decides, a scalar of type `p`, or, for text read as a
/// floating-point number, the error that the text does not spell one.
pub open spec fn scalar_fits(v: ValueModel, p: PrimitiveDataType, o: Result<ValueModel, RepairErrorModel>) -> bool {
    match repair_scalar_spec(v, p) {
        Some(x) => o == x,
        None => match o {
            Ok(x) => is_scalar_of(x, p),
            Err(e) => v matches ValueModel::Str(s) && e == RepairErrorModel::ParseError(
                s,
                TypeModel::PrimitiveScalar(p),
            ),
        },
    }
}

/// Whether `o` can be the outcome of repairing `v` into the integer type
/// `p`: the stated outcome, or, for a floating-point number, a scalar of
/// type `p`.
pub open spec fn int_fits(v: ValueModel, p: PrimitiveDataType, o: Result<ValueModel, RepairErrorModel>) -> bool {
    match repair_int_spec(v, p) {
        Some(x) => o == x,
        None => o matches Ok(x) && is_scalar_of(x, p),
    }
}

/// Whether `o` can be the outcome of repairing `v` into the floating-point
/// type `p`: the stated outcome, or where a conversion decides, a scalar
/// of type `p` (or, for text, the error that it spells no number).
pub open spec fn float_fits(v: ValueModel, p: PrimitiveDataType, o: Result<ValueModel, RepairErrorModel>) -> bool {
    match repair_float_spec(v, p) {
        Some(x) => o == x,
        None => match o {
            Ok(x) => is_scalar_of(x, p),
            Err(e) => v matches ValueModel::Str(s) && e == RepairErrorModel::ParseError(
                s,
                TypeModel::PrimitiveScalar(p),
            ),
        },
    }
}

/// One step of floating-point arithmetic that a [`FloatOps`] takes, with
/// its argument and its result.
pub enum FloatStep {
    /// An integer as the nearest single-precision number.
    FromInt32(int, u32),
    /// An integer as the nearest double-precision number.
    FromInt64(int, u64),
    /// A single-precision number widened to double precision.
    Widen(u32, u64),
    /// A double-precision number rounded to single precision.
    Narrow(u64, u32),
    /// A single-precision number rounded toward zero to an integer.
    Trunc32(u32, i128),
    /// A double-precision number rounded toward zero to an integer.
    Trunc64(u64, i128),
    /// Text read as a single-precision number.
    Parse32(Seq<char>, Option<u32>),
    /// Text read as a double-precision number.
    Parse64(Seq<char>, Option<u64>),
    /// A single-precision number written as text.
    Text32(u32, Seq<char>),
    /// A double-precision number written as text.
    Text64(u64, Seq<char>),
}

/// The steps that `ops` can take: a step holds where calling the method of
/// `ops` that it names on its argument can give its result.
#[verifier::opaque]
pub open spec fn float_steps<O: FloatOps>(ops: &O) -> spec_fn(FloatStep) -> bool {
    |st: FloatStep|
        match st {
            FloatStep::FromInt32(x, y) => call_ensures(O::f32_from_int, (ops, x as i128), y),
            FloatStep::FromInt64(x, y) => call_ensures(O::f64_from_int, (ops, x as i128), y),
            FloatStep::Widen(b, y) => call_ensures(O::f32_to_f64, (ops, b), y),
            FloatStep::Narrow(b, y) => call_ensures(O::f64_to_f32, (ops, b), y),
            FloatStep::Trunc32(b, y) => call_ensures(O::f32_to_int, (ops, b), y),
            FloatStep::Trunc64(b, y) => call_ensures(O::f64_to_int, (ops, b), y),
            FloatStep::Parse32(s, y) => exists|t: &str| t@ == s && #[trigger] call_ensures(O::parse_f32, (ops, t), y),
            FloatStep::Parse64(s, y) => exists|t: &str| t@ == s && #[trigger] call_ensures(O::parse_f64, (ops, t), y),
            FloatStep::Text32(b, s) => exists|t: String| t@ == s && #[trigger] call_ensures(O::f32_text, (ops, b), t),
            FloatStep::Text64(b, s) => exists|t: String| t@ == s && #[trigger] call_ensures(O::f64_text, (ops, b), t),
        }
}

/// Whether `o` is the integer `x` made, by a step of `steps`, the nearest
/// number of the floating-point type `p`.
pub open spec fn int_as_float(steps: spec_fn(FloatStep) -> bool, x: int, p: PrimitiveDataType, o: Result<ValueModel, RepairErrorModel>) -> bool {
    &&& p == PrimitiveDataType::F32 ==> exists|y: u32|
        #[trigger] steps(FloatStep::FromInt32(x, y)) && o == Ok::<ValueModel, RepairErrorModel>(ValueModel::F32(y))
    &&& p == PrimitiveDataType::F64 ==> exists|y: u64|
        #[trigger] steps(FloatStep::FromInt64(x, y)) && o == Ok::<ValueModel, RepairErrorModel>(ValueModel::F64(y))
}

/// Whether `o` is what a step of `steps` reads from the text `s` as a
/// number of the floating-point type `p`: the number it spells, or, where
/// it spells none, the error that names the text and the type.
pub open spec fn text_as_float(steps: spec_fn(FloatStep) -> bool, s: Seq<char>, p: PrimitiveDataType, o: Result<ValueModel, RepairErrorModel>) -> bool {
    &&& p == PrimitiveDataType::F32 ==> exists|y: Option<u32>|
        #[trigger] steps(FloatStep::Parse32(s, y)) && o == match y {
            Some(b) => Ok::<ValueModel, RepairErrorModel>(ValueModel::F32(b)),
            None => Err(RepairErrorModel::ParseError(s, TypeModel::PrimitiveScalar(p))),
        }
    &&& p == PrimitiveDataType::F64 ==> exists|y: Option<u64>|
        #[trigger] steps(FloatStep::Parse64(s, y)) && o == match y {
            Some(b) => Ok::<ValueModel, RepairErrorModel>(ValueModel::F64(b)),
            None => Err(RepairErrorModel::ParseError(s, TypeModel::PrimitiveScalar(p))),
        }
}

/// `x` held to the bounds `lo` and `hi`.
pub open spec fn saturated(x: int, lo: int, hi: int) -> int {
    if x < lo {
        lo
    } else if x > hi {
        hi
    } else {
        x
    }
}

/// Whether `y` is the single-precision number with bits `b` rounded toward
/// zero to an integer by a step of `steps`, then held to the bounds `lo`
/// and `hi`.
pub open spec fn f32_int_cast(steps: spec_fn(FloatStep) -> bool, b: u32, y: int, lo: int, hi: int) -> bool {
    exists|x: i128| #[trigger] steps(FloatStep::Trunc32(b, x)) && y == saturated(x as int, lo, hi)
}

/// Whether `y` is the double-precision number with bits `b` rounded toward
/// zero to an integer by a step of `steps`, then held to the bounds `lo`
/// and `hi`.
pub open spec fn f64_int_cast(steps: spec_fn(FloatStep) -> bool, b: u64, y: int, lo: int, hi: int) -> bool {
    exists|x: i128| #[trigger] steps(FloatStep::Trunc64(b, x)) && y == saturated(x as int, lo, hi)
}

/// Whether `o` is the single-precision number with bits `b` rounded toward
/// zero to an integer by a step of `steps` and held to the bounds of the
/// integer type `p`.
pub open spec fn truncated32(steps: spec_fn(FloatStep) -> bool, b: u32, p: PrimitiveDataType, o: Result<ValueModel, RepairErrorModel>) -> bool {
    exists|x: i128|
        #[trigger] steps(FloatStep::Trunc32(b, x)) && o == Ok::<ValueModel, RepairErrorModel>(
            int_model(p, saturated(x as int, int_bounds(p).0, int_bounds(p).1)),
        )
}

/// Whether `o` is the double-precision number with bits `b` rounded toward
/// zero to an integer by a step of `steps` and held to the bounds of the
/// integer type `p`.
pub open spec fn truncated64(steps: spec_fn(FloatStep) -> bool, b: u64, p: PrimitiveDataType, o: Result<ValueModel, RepairErrorModel>) -> bool {
    exists|x: i128|
        #[trigger] steps(FloatStep::Trunc64(b, x)) && o == Ok::<ValueModel, RepairErrorModel>(
            int_model(p, saturated(x as int, int_bounds(p).0, int_bounds(p).1)),
        )
}

/// Whether `o` is what steps of `steps` make of the floating-point value
/// `v` in the integer type `p`: the number rounded toward zero and held to
/// the type's bounds.
pub open spec fn int_made(steps: spec_fn(FloatStep) -> bool, v: ValueModel, p: PrimitiveDataType, o: Result<ValueModel, RepairErrorModel>) -> bool {
    is_integer_type(p) ==> match v {
        ValueModel::F32(b) => truncated32(steps, b, p, o),
        ValueModel::F64(b) => truncated64(steps, b, p, o),
        _ => true,
    }
}

/// Whether `o` is the double-precision number with bits `b` rounded to
/// single precision by a step of `steps`.
pub open spec fn narrowed(steps: spec_fn(FloatStep) -> bool, b: u64, o: Result<ValueModel, RepairErrorModel>) -> bool {
    exists|y: u32| #[trigger] steps(FloatStep::Narrow(b, y)) && o == Ok::<ValueModel, RepairErrorModel>(ValueModel::F32(y))
}

/// Whether `o` is the single-precision number with bits `b` widened to
/// double precision by a step of `steps`.
pub open spec fn widened(steps: spec_fn(FloatStep) -> bool, b: u32, o: Result<ValueModel, RepairErrorModel>) -> bool {
    exists|y: u64| #[trigger] steps(FloatStep::Widen(b, y)) && o == Ok::<ValueModel, RepairErrorModel>(ValueModel::F64(y))
}

/// Whether `o` is what steps of `steps` make of the value `v` in the
/// floating-point type `p`: a double narrowed to single precision, a single
/// widened to double precision, an integer as the nearest float, text read
/// as a number.
pub open spec fn float_made(steps: spec_fn(FloatStep) -> bool, v: ValueModel, p: PrimitiveDataType, o: Result<ValueModel, RepairErrorModel>) -> bool {
    match v {
        ValueModel::F64(b) => p == PrimitiveDataType::F32 ==> narrowed(steps, b, o),
        ValueModel::F32(b) => p == PrimitiveDataType::F64 ==> widened(steps, b, o),
        ValueModel::Str(s) => text_as_float(steps, s, p, o),
        _ => match int_of(v) {
            Some(x) => int_as_float(steps, x, p, o),
            None => true,
        },
    }
}

/// Whether `o` is the floating-point value `v` written as text by a step
/// of `steps`.
pub open spec fn text_made(steps: spec_fn(FloatStep) -> bool, v: ValueModel, o: Result<ValueModel, RepairErrorModel>) -> bool {
    match v {
        ValueModel::F32(b) => written32(steps, b, o),
        ValueModel::F64(b) => written64(steps, b, o),
        _ => true,
    }
}

/// Whether `o` is the single-precision number with bits `b` written as
/// text by a step of `steps`.
pub open spec fn written32(steps: spec_fn(FloatStep) -> bool, b: u32, o: Result<ValueModel, RepairErrorModel>) -> bool {
    exists|t: Seq<char>| #[trigger] steps(FloatStep::Text32(b, t)) && o == Ok::<ValueModel, RepairErrorModel>(ValueModel::Str(t))
}

/// Whether `o` is the double-precision number with bits `b` written as
/// text by a step of `steps`.
pub open spec fn written64(steps: spec_fn(FloatStep) -> bool, b: u64, o: Result<ValueModel, RepairErrorModel>) -> bool {
    exists|t: Seq<char>| #[trigger] steps(FloatStep::Text64(b, t)) && o == Ok::<ValueModel, RepairErrorModel>(ValueModel::Str(t))
}

/// Whether `o` can be the outcome of repairing `v` into text: the stated
/// outcome, or, for a floating-point number, some text.
pub open spec fn text_fits(v: ValueModel, o: Result<ValueModel, RepairErrorModel>) -> bool {
    match repair_text_spec(v) {
        Some(x) => o == x,
        None => o matches Ok(ValueModel::Str(_)),
    }
}

impl PyroValue {
    /// The value as a boolean: booleans stay, text reads `true`, `1`, `yes`,
    /// `false`, `0` or `no` in any case, and integers of every width are
    /// true when not zero.
    pub fn repair_to_bool(self) -> (r: Result<PyroValue, ScalarRepairError>)
        ensures
            outcome(r) == repair_bool_spec(self@),
    {
        match self {
            PyroValue::Bool(b) => Ok(PyroValue::Bool(b)),
            PyroValue::Null => Ok(PyroValue::Null),
            PyroValue::Str(s) => match parse_bool_word(s.as_str()) {
                Some(b) => Ok(PyroValue::Bool(b)),
                None => Err(ScalarRepairError::ParseError(s, PyroType::PrimitiveScalar(PrimitiveDataType::Bool))),
            },
            PyroValue::I8(x) => Ok(PyroValue::Bool(x != 0)),
            PyroValue::I16(x) => Ok(PyroValue::Bool(x != 0)),
            PyroValue::I32(x) => Ok(PyroValue::Bool(x != 0)),
            PyroValue::I64(x) => Ok(PyroValue::Bool(x != 0)),
            PyroValue::U8(x) => Ok(PyroValue::Bool(x != 0)),
            PyroValue::U16(x) => Ok(PyroValue::Bool(x != 0)),
            PyroValue::U32(x) => Ok(PyroValue::Bool(x != 0)),
            PyroValue::U64(x) => Ok(PyroValue::Bool(x != 0)),
            _ => Err(ScalarRepairError::Cast(PyroType::PrimitiveScalar(PrimitiveDataType::Bool))),
        }
    }

    /// The value in the integer type `p`.
    fn repair_int<O: FloatOps>(self, p: PrimitiveDataType, ops: &O) -> (r: Result<PyroValue, ScalarRepairError>)
        requires
            is_integer_type(p),
        ensures
            agrees(r, repair_int_spec(self@, p)),
            int_fits(self@, p, outcome(r)),
            int_made(float_steps(ops), self@, p, outcome(r)),
    {
        let (lo, hi) = bounds_of(p);
        match self {
            PyroValue::Null => Ok(PyroValue::Null),
            PyroValue::Str(s) => match parse_integer(s.as_str(), signed_type(p), lo, hi) {
                Some(n) => Ok(int_value(p, n)),
                None => Err(ScalarRepairError::ParseError(s, PyroType::PrimitiveScalar(p))),
            },
            PyroValue::Bool(b) => Ok(int_value(p, if b { 1 } else { 0 })),
            PyroValue::F32(b) => {
                let x = ops.f32_to_int(b);
                proof { reveal(float_steps); }
                assert(float_steps(ops)(FloatStep::Trunc32(b, x)));
                Ok(int_value(p, saturate(x, p)))
            },
            PyroValue::F64(b) => {
                let x = ops.f64_to_int(b);
                proof { reveal(float_steps); }
                assert(float_steps(ops)(FloatStep::Trunc64(b, x)));
                Ok(int_value(p, saturate(x, p)))
            },
            other => match integer_of(&other) {
                Some(x) => int_cast_value(x, p),
                None => Err(ScalarRepairError::Cast(PyroType::PrimitiveScalar(p))),
            },
        }
    }

    /// The value as an `i8`: integers are range-checked, text is parsed,
    /// booleans are 1 or 0, floating-point numbers are rounded toward zero
    /// and saturated.
    pub fn repair_to_i8<O: FloatOps>(self, ops: &O) -> (r: Result<PyroValue, ScalarRepairError>)
        ensures
            agrees(r, repair_int_spec(self@, PrimitiveDataType::I8)),
            int_fits(self@, PrimitiveDataType::I8, outcome(r)),
            int_made(float_steps(ops), self@, PrimitiveDataType::I8, outcome(r)),
    {
        self.repair_int(PrimitiveDataType::I8, ops)
    }

    /// The value as an `i16`, as [`PyroValue::repair_to_i8`] does.
    pub fn repair_to_i16<O: FloatOps>(self, ops: &O) -> (r: Result<PyroValue, ScalarRepairError>)
        ensures
            agrees(r, repair_int_spec(self@, PrimitiveDataType::I16)),
            int_fits(self@, PrimitiveDataType::I16, outcome(r)),
            int_made(float_steps(ops), self@, PrimitiveDataType::I16, outcome(r)),
    {
        self.repair_int(PrimitiveDataType::I16, ops)
    }

    /// The value as an `i32`, as [`PyroValue::repair_to_i8`] does.
    pub fn repair_to_i32<O: FloatOps>(self, ops: &O) -> (r: Result<PyroValue, ScalarRepairError>)
        ensures
            agrees(r, repair_int_spec(self@, PrimitiveDataType::I32)),
            int_fits(self@, PrimitiveDataType::I32, outcome(r)),
            int_made(float_steps(ops), self@, PrimitiveDataType::I32, outcome(r)),
    {
        self.repair_int(PrimitiveDataType::I32, ops)
    }

    /// The value as an `i64`, as [`PyroValue::repair_to_i8`] does.
    pub fn repair_to_i64<O: FloatOps>(self, ops: &O) -> (r: Result<PyroValue, ScalarRepairError>)
        ensures
            agrees(r, repair_int_spec(self@, PrimitiveDataType::I64)),
            int_fits(self@, PrimitiveDataType::I64, outcome(r)),
            int_made(float_steps(ops), self@, PrimitiveDataType::I64, outcome(r)),
    {
        self.repair_int(PrimitiveDataType::I64, ops)
    }

    /// The value as a `u8`, as [`PyroValue::repair_to_i8`] does.
    pub fn repair_to_u8<O: FloatOps>(self, ops: &O) -> (r: Result<PyroValue, ScalarRepairError>)
        ensures
            agrees(r, repair_int_spec(self@, PrimitiveDataType::U8)),
            int_fits(self@, PrimitiveDataType::U8, outcome(r)),
            int_made(float_steps(ops), self@, PrimitiveDataType::U8, outcome(r)),
    {
        self.repair_int(PrimitiveDataType::U8, ops)
    }

    /// The value as a `u16`, as [`PyroValue::repair_to_i8`] does.
    pub fn repair_to_u16<O: FloatOps>(self, ops: &O) -> (r: Result<PyroValue, ScalarRepairError>)
        ensures
            agrees(r, repair_int_spec(self@, PrimitiveDataType::U16)),
            int_fits(self@, PrimitiveDataType::U16, outcome(r)),
            int_made(float_steps(ops), self@, PrimitiveDataType::U16, outcome(r)),
    {
        self.repair_int(PrimitiveDataType::U16, ops)
    }

    /// The value as a `u32`, as [`PyroValue::repair_to_i8`] does.
    pub fn repair_to_u32<O: FloatOps>(self, ops: &O) -> (r: Result<PyroValue, ScalarRepairError>)
        ensures
            agrees(r, repair_int_spec(self@, PrimitiveDataType::U32)),
            int_fits(self@, PrimitiveDataType::U32, outcome(r)),
            int_made(float_steps(ops), self@, PrimitiveDataType::U32, outcome(r)),
    {
        self.repair_int(PrimitiveDataType::U32, ops)
    }

    /// The value as a `u64`, as [`PyroValue::repair_to_i8`] does.
    pub fn repair_to_u64<O: FloatOps>(self, ops: &O) -> (r: Result<PyroValue, ScalarRepairError>)
        ensures
            agrees(r, repair_int_spec(self@, PrimitiveDataType::U64)),
            int_fits(self@, PrimitiveDataType::U64, outcome(r)),
            int_made(float_steps(ops), self@, PrimitiveDataType::U64, outcome(r)),
    {
        self.repair_int(PrimitiveDataType::U64, ops)
    }

    /// The value in the floating-point type `p`.
    fn repair_float<O: FloatOps>(self, p: PrimitiveDataType, ops: &O) -> (r: Result<PyroValue, ScalarRepairError>)
        requires
            p == PrimitiveDataType::F32 || p == PrimitiveDataType::F64,
        ensures
            agrees(r, repair_float_spec(self@, p)),
            float_fits(self@, p, outcome(r)),
            float_made(float_steps(ops), self@, p, outcome(r)),
    {
        let single = match p {
            PrimitiveDataType::F32 => true,
            _ => false,
        };
        let ghost v = self@;
        let r = match self {
            PyroValue::F32(b) => if single {
                Ok(PyroValue::F32(b))
            } else {
                Ok(PyroValue::F64(ops.f32_to_f64(b)))
            },
            PyroValue::F64(b) => if single {
                Ok(PyroValue::F32(ops.f64_to_f32(b)))
            } else {
                Ok(PyroValue::F64(b))
            },
            PyroValue::Null => Ok(PyroValue::Null),
            PyroValue::Bool(b) => if single {
                Ok(PyroValue::F32(if b { 0x3f80_0000 } else { 0 }))
            } else {
                Ok(PyroValue::F64(if b { 0x3ff0_0000_0000_0000 } else { 0 }))
            },
            PyroValue::Str(s) => if single {
                let y = ops.parse_f32(s.as_str());
                proof { reveal(float_steps); }
                assert(float_steps(ops)(FloatStep::Parse32(s@, y)));
                match y {
                    Some(b) => Ok(PyroValue::F32(b)),
                    None => Err(ScalarRepairError::ParseError(s, PyroType::PrimitiveScalar(p))),
                }
            } else {
                let y = ops.parse_f64(s.as_str());
                proof { reveal(float_steps); }
                assert(float_steps(ops)(FloatStep::Parse64(s@, y)));
                match y {
                    Some(b) => Ok(PyroValue::F64(b)),
                    None => Err(ScalarRepairError::ParseError(s, PyroType::PrimitiveScalar(p))),
                }
            },
            other => match integer_of(&other) {
                Some(x) => if single {
                    Ok(PyroValue::F32(ops.f32_from_int(x)))
                } else {
                    Ok(PyroValue::F64(ops.f64_from_int(x)))
                },
                None => Err(ScalarRepairError::Cast(PyroType::PrimitiveScalar(p))),
            },
        };
        proof {
            reveal(float_steps);
            match (v, &r) {
                (ValueModel::F64(b), Ok(PyroValue::F32(y))) => assert(float_steps(ops)(FloatStep::Narrow(b, *y))),
                (ValueModel::F32(b), Ok(PyroValue::F64(y))) => assert(float_steps(ops)(FloatStep::Widen(b, *y))),
                (_, Ok(PyroValue::F32(y))) => if int_of(v) is Some {
                    assert(float_steps(ops)(FloatStep::FromInt32(int_of(v)->0, *y)));
                },
                (_, Ok(PyroValue::F64(y))) => if int_of(v) is Some {
                    assert(float_steps(ops)(FloatStep::FromInt64(int_of(v)->0, *y)));
                },
                _ => {},
            }
        }
        r
    }

    /// The value as an `f32`: integers and doubles are converted, text is
    /// parsed, booleans are 1 or 0.
    pub fn repair_to_f32<O: FloatOps>(self, ops: &O) -> (r: Result<PyroValue, ScalarRepairError>)
        ensures
            agrees(r, repair_float_spec(self@, PrimitiveDataType::F32)),
            float_fits(self@, PrimitiveDataType::F32, outcome(r)),
            float_made(float_steps(ops), self@, PrimitiveDataType::F32, outcome(r)),
    {
        self.repair_float(PrimitiveDataType::F32, ops)
    }

    /// The value as an `f64`, as [`PyroValue::repair_to_f32`] does.
    pub fn repair_to_f64<O: FloatOps>(self, ops: &O) -> (r: Result<PyroValue, ScalarRepairError>)
        ensures
            agrees(r, repair_float_spec(self@, PrimitiveDataType::F64)),
            float_fits(self@, PrimitiveDataType::F64, outcome(r)),
            float_made(float_steps(ops), self@, PrimitiveDataType::F64, outcome(r)),
    {
        self.repair_float(PrimitiveDataType::F64, ops)
    }

    /// The value as text: text stays, booleans and numbers are written out.
    pub fn repair_to_utf8<O: FloatOps>(self, ops: &O) -> (r: Result<PyroValue, ScalarRepairError>)
        ensures
            agrees(r, repair_text_spec(self@)),
            text_fits(self@, outcome(r)),
            text_made(float_steps(ops), self@, outcome(r)),
    {
        let ghost v = self@;
        match self {
            PyroValue::Str(s) => {
                assert(v == ValueModel::Str(s@));
                Ok(PyroValue::Str(s))
            },
            PyroValue::Null => Ok(PyroValue::Null),
            PyroValue::Bool(b) => if b {
                proof { reveal_strlit("true"); }
                assert("true"@ =~= seq!['t', 'r', 'u', 'e']);
                Ok(PyroValue::Str(String::from_str("true")))
            } else {
                proof { reveal_strlit("false"); }
                assert("false"@ =~= seq!['f', 'a', 'l', 's', 'e']);
                Ok(PyroValue::Str(String::from_str("false")))
            },
            PyroValue::F32(b) => {
                let t = ops.f32_text(b);
                proof { reveal(float_steps); }
                assert(float_steps(ops)(FloatStep::Text32(b, t@)));
                Ok(PyroValue::Str(t))
            },
            PyroValue::F64(b) => {
                let t = ops.f64_text(b);
                proof { reveal(float_steps); }
                assert(float_steps(ops)(FloatStep::Text64(b, t@)));
                Ok(PyroValue::Str(t))
            },
            other => match integer_of(&other) {
                Some(x) => Ok(PyroValue::Str(int_text(x))),
                None => Err(ScalarRepairError::Cast(PyroType::Str)),
            },
        }
    }

    /// The value in the scalar type `p`; the missing value stays missing.
    pub fn repair_scalar<O: FloatOps>(self, p: PrimitiveDataType, ops: &O) -> (r: Result<PyroValue, ScalarRepairError>)
        ensures
            agrees(r, repair_scalar_spec(self@, p)),
            scalar_fits(self@, p, outcome(r)),
            float_made(float_steps(ops), self@, p, outcome(r)),
            int_made(float_steps(ops), self@, p, outcome(r)),
    {
        if self.is_null() {
            return Ok(PyroValue::Null);
        }
        let ghost v = self@;
        assert(!(v is Null));
        match p {
            PrimitiveDataType::Bool => {
                let r = self.repair_to_bool();
                assert(outcome(r) == repair_bool_spec(v));
                assert(repair_scalar_spec(v, p) == Some(repair_bool_spec(v)));
                r
            },
            PrimitiveDataType::F16 => {
                proof { reveal_strlit("f16 repair"); }
                assert("f16 repair"@ =~= seq!['f', '1', '6', ' ', 'r', 'e', 'p', 'a', 'i', 'r']);
                Err(ScalarRepairError::Unimplemented(String::from_str("f16 repair")))
            },
            PrimitiveDataType::F32 => self.repair_float(p, ops),
            PrimitiveDataType::F64 => self.repair_float(p, ops),
            _ => self.repair_int(p, ops),
        }
    }
}

// ---------------------------------------------------------------------------
// Laws
// ---------------------------------------------------------------------------

proof fn lemma_digit_char(d: int)
    requires
        0 <= d < 10,
    ensures
        digit_char(d) as int == '0' as int + d,
        is_digit_char(digit_char(d)),
{
}

/// The decimal digits of `n` are digits and spell `n`.
pub proof fn lemma_decimal_nat_spells(n: nat)
    ensures
        decimal_nat(n).len() > 0,
        all_digits(decimal_nat(n)),
        digits_value(decimal_nat(n)) == n,
    decreases n,
{
    if n < 10 {
        lemma_digit_char(n as int);
        assert(decimal_nat(n).drop_last() =~= Seq::<char>::empty());
        assert(digits_value(Seq::<char>::empty()) == 0);
        assert(digits_value(decimal_nat(n)) == digits_value(decimal_nat(n).drop_last()) * 10
            + (decimal_nat(n).last() as int - '0' as int));
    } else {
        lemma_decimal_nat_spells(n / 10);
        lemma_digit_char((n % 10) as int);
        let s = decimal_nat(n);
        assert(s.drop_last() =~= decimal_nat(n / 10));
        assert(s.last() == digit_char((n % 10) as int));
        assert(digits_value(s) == digits_value(s.drop_last()) * 10 + (s.last() as int - '0' as int));
        assert((n / 10) * 10 + n % 10 == n);
        assert forall|i: int| 0 <= i < s.len() implies is_digit_char(#[trigger] s[i]) by {
            if i < s.len() - 1 {
                assert(s[i] == decimal_nat(n / 10)[i]);
            }
        }
    }
}

/// Reading back the decimal text of an integer gives the integer, for
/// every integer type that holds it.
pub proof fn lemma_parse_decimal(x: int, signed: bool, lo: int, hi: int)
    requires
        lo <= x <= hi,
        x >= 0 || signed,
    ensures
        parse_int(decimal(x), signed, lo, hi) == Some(x),
{
    if x >= 0 {
        lemma_decimal_nat_spells(x as nat);
        let s = decimal_nat(x as nat);
        assert(is_digit_char(s[0]));
    } else {
        lemma_decimal_nat_spells((-x) as nat);
        let s = decimal(x);
        assert(s.skip(1) =~= decimal_nat((-x) as nat));
    }
}

/// A scalar already of the type asked for is kept as it is, for every
/// scalar type but `f16`.
pub proof fn lemma_scalar_repair_keeps_own_type(v: ValueModel, p: PrimitiveDataType)
    requires
        crate::value_type::scalar_type_of(v) == Some(p),
        p != PrimitiveDataType::F16,
    ensures
        repair_scalar_spec(v, p) == Some(Ok::<ValueModel, RepairErrorModel>(v)),
{
}

/// An integer written out as text and repaired back into its own type is
/// the integer again.
pub proof fn lemma_int_text_roundtrip(v: ValueModel, p: PrimitiveDataType)
    requires
        crate::value_type::scalar_type_of(v) == Some(p),
        is_integer_type(p),
    ensures
        int_of(v) matches Some(x) && repair_text_spec(v) == Some(
            Ok::<ValueModel, RepairErrorModel>(ValueModel::Str(decimal(x))),
        ) && repair_int_spec(ValueModel::Str(decimal(x)), p) == Some(Ok::<ValueModel, RepairErrorModel>(v)),
{
    let x = int_of(v)->0;
    lemma_parse_decimal(x, is_signed(p), int_bounds(p).0, int_bounds(p).1);
}

/// Whether `b` are the bits of the single-precision number one: a clear
/// sign, the exponent bias 127 as exponent, and no fraction.
pub open spec fn is_one_f32(b: u32) -> bool {
    b >> 31u32 == 0 && (b >> 23u32) & 0xffu32 == 127 && b & 0x7f_ffffu32 == 0
}

/// Whether `b` are the bits of the double-precision number one: a clear
/// sign, the exponent bias 1023 as exponent, and no fraction.
pub open spec fn is_one_f64(b: u64) -> bool {
    b >> 63u64 == 0 && (b >> 52u64) & 0x7ffu64 == 1023 && b & 0xf_ffff_ffff_ffffu64 == 0
}

/// True repaired into a floating-point type is the number one, and false is
/// positive zero, whose bits are all clear.
pub proof fn lemma_bool_as_float()
    ensures
        repair_float_spec(ValueModel::Bool(true), PrimitiveDataType::F32) matches Some(Ok(ValueModel::F32(b)))
            && is_one_f32(b),
        repair_float_spec(ValueModel::Bool(true), PrimitiveDataType::F64) matches Some(Ok(ValueModel::F64(b)))
            && is_one_f64(b),
        repair_float_spec(ValueModel::Bool(false), PrimitiveDataType::F32) == Some(
            Ok::<ValueModel, RepairErrorModel>(ValueModel::F32(0)),
        ),
        repair_float_spec(ValueModel::Bool(false), PrimitiveDataType::F64) == Some(
            Ok::<ValueModel, RepairErrorModel>(ValueModel::F64(0)),
        ),
{
    assert(is_one_f32(0x3f80_0000u32)) by (bit_vector);
    assert(is_one_f64(0x3ff0_0000_0000_0000u64)) by (bit_vector);
}

/// Text reads as true when it is `true`, `1` or `yes` and as false when it
/// is `false`, `0` or `no`, in any case of its letters; a boolean written
/// as text reads back as itself.
pub proof fn lemma_bool_words(s: Seq<char>, b: bool)
    ensures
        (matches_word(s, seq!['t', 'r', 'u', 'e']) || matches_word(s, seq!['1']) || matches_word(s, seq!['y', 'e', 's']))
            ==> repair_bool_spec(ValueModel::Str(s)) == Ok::<ValueModel, RepairErrorModel>(ValueModel::Bool(true)),
        (matches_word(s, seq!['f', 'a', 'l', 's', 'e']) || matches_word(s, seq!['0']) || matches_word(s, seq!['n', 'o']))
            ==> repair_bool_spec(ValueModel::Str(s)) == Ok::<ValueModel, RepairErrorModel>(ValueModel::Bool(false)),
        repair_text_spec(ValueModel::Bool(b)) matches Some(Ok(ValueModel::Str(t)))
            && repair_bool_spec(ValueModel::Str(t)) == Ok::<ValueModel, RepairErrorModel>(ValueModel::Bool(b)),
{
    let w = if b {
        seq!['t', 'r', 'u', 'e']
    } else {
        seq!['f', 'a', 'l', 's', 'e']
    };
    assert forall|i: int| 0 <= i < w.len() implies ascii_lower(#[trigger] w[i]) == w[i] by {
        if b {
            assert(w[i] == 't' || w[i] == 'r' || w[i] == 'u' || w[i] == 'e');
        } else {
            assert(w[i] == 'f' || w[i] == 'a' || w[i] == 'l' || w[i] == 's' || w[i] == 'e');
        }
    }
    assert(matches_word(w, w));
    if matches_word(s, seq!['0']) {
        assert(ascii_lower(s[0]) == seq!['0'][0]);
        assert(ascii_lower(s[0]) != seq!['1'][0]);
        assert(!matches_word(s, seq!['1']));
    }
    if !b {
        assert(!matches_word(w, seq!['t', 'r', 'u', 'e']));
        assert(!matches_word(w, seq!['1']));
        assert(!matches_word(w, seq!['y', 'e', 's']));
    }
}

/// Whether `x` is a value of the Rust integer type that `p` names.
pub open spec fn in_rust_range(x: int, p: PrimitiveDataType) -> bool {
    match p {
        PrimitiveDataType::I8 => i8::MIN <= x <= i8::MAX,
        PrimitiveDataType::I16 => i16::MIN <= x <= i16::MAX,
        PrimitiveDataType::I32 => i32::MIN <= x <= i32::MAX,
        PrimitiveDataType::I64 => i64::MIN <= x <= i64::MAX,
        PrimitiveDataType::U8 => u8::MIN <= x <= u8::MAX,
        PrimitiveDataType::U16 => u16::MIN <= x <= u16::MAX,
        PrimitiveDataType::U32 => u32::MIN <= x <= u32::MAX,
        PrimitiveDataType::U64 => u64::MIN <= x <= u64::MAX,
        _ => false,
    }
}

/// An integer converts into an integer type exactly when the Rust type
/// holds it, and then the value is that number, of that type.
pub proof fn lemma_int_cast_range(x: int, p: PrimitiveDataType)
    requires
        is_integer_type(p),
    ensures
        int_cast(x, p) is Ok <==> in_rust_range(x, p),
        int_cast(x, p) matches Ok(v) ==> int_of(v) == Some(x) && crate::value_type::scalar_type_of(v) == Some(p),
{
}

/// An integer of any width repairs into a boolean that is true exactly when
/// the integer is not zero.
pub proof fn lemma_int_truth(v: ValueModel)
    ensures
        int_of(v) matches Some(x) ==> repair_bool_spec(v) == Ok::<ValueModel, RepairErrorModel>(ValueModel::Bool(x != 0)),
{
}

} // verus!
