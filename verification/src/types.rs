//! Shared contract types: diagnostics and plain-value geometry records.
use vstd::prelude::*;

verus! {

/// Machine-readable diagnostic category.
#[derive(Debug, Clone, Copy, PartialEq, Eq, Structural)]
pub enum DiagnosticCode {
    /// The input holds no data where some is needed.
    EmptyData,
    /// A structural check failed.
    ValidationFailed,
    /// A referenced column or node does not exist.
    UnknownColumn,
    /// Columns (or derived sequences) disagree in length.
    ColumnLengthMismatch,
    /// The plot has no usable layer.
    InvalidLayer,
    /// The specification asks for something not supported.
    UnsupportedSpec,
    /// A required aesthetic mapping is absent.
    MissingMapping,
    /// Rendering could not proceed.
    RenderFailed,
    /// The render target kind does not suit the renderer.
    UnsupportedTarget,
}

/// An error report: a code, a human-readable message and key/value parameters.
#[derive(Debug, Clone)]
pub struct Diagnostic {
    /// Category.
    pub code: DiagnosticCode,
    /// Human-readable message.
    pub message: String,
    /// Structured parameters, in the order they were attached.
    pub params: Vec<(String, String)>,
}

/// The parameters of a diagnostic as pairs of character sequences.
pub open spec fn params_view(params: Seq<(String, String)>) -> Seq<(Seq<char>, Seq<char>)> {
    params.map_values(|p: (String, String)| (p.0@, p.1@))
}

impl Diagnostic {
    /// Whether this diagnostic has exactly this code, message and parameters.
    pub open spec fn matches(
        &self,
        code: DiagnosticCode,
        message: Seq<char>,
        params: Seq<(Seq<char>, Seq<char>)>,
    ) -> bool {
        &&& self.code == code
        &&& self.message@ =~= message
        &&& params_view(self.params@) =~= params
    }

    /// A diagnostic with a code and a message and no parameters.
    pub fn error(code: DiagnosticCode, message: String) -> (d: Diagnostic)
        ensures
            d.code == code,
            d.message@ == message@,
            d.params@.len() == 0,
    {
        Diagnostic { code, message, params: Vec::new() }
    }

    /// Attaches a parameter after the existing ones.
    pub fn with_param(self, key: &str, value: String) -> (d: Diagnostic)
        ensures
            d.code == self.code,
            d.message@ == self.message@,
            params_view(d.params@) == params_view(self.params@).push((key@, value@)),
    {
        let mut params = self.params;
        let k = key.to_string();
        proof { broadcast use vstd::string::to_string_from_display_ensures_for_str; }
        params.push((k, value));
        Diagnostic { code: self.code, message: self.message, params }
    }
}


/// The character for a decimal digit.
pub open spec fn digit_char(d: nat) -> char {
    (48 + d) as char
}

/// The decimal representation of a natural number, without sign or leading zeros.
pub open spec fn decimal(n: nat) -> Seq<char>
    decreases n,
{
    if n < 10 {
        seq![digit_char(n)]
    } else {
        decimal(n / 10).push(digit_char(n % 10))
    }
}

/// Appends one character to a string (`String::push`).
#[verifier::external_body]
pub(crate) fn push_text_char(s: &mut String, c: char)
    ensures
        final(s)@ == old(s)@.push(c),
{
    s.push(c);
}

/// Formats `n` in decimal.
pub fn decimal_string(n: usize) -> (s: String)
    ensures
        s@ == decimal(n as nat),
    decreases n,
{
    let d: u8 = (n % 10) as u8;
    let c: char = (48u8 + d) as char;
    if n < 10 {
        let mut s = String::new();
        push_text_char(&mut s, c);
        assert(s@ =~= seq![digit_char(n as nat)]);
        s
    } else {
        let mut s = decimal_string(n / 10);
        push_text_char(&mut s, c);
        s
    }
}

/// Formats a wide `n` in decimal.
pub fn decimal_string_wide(n: u128) -> (s: String)
    ensures
        s@ == decimal(n as nat),
    decreases n,
{
    let d: u8 = (n % 10) as u8;
    let c: char = (48u8 + d) as char;
    if n < 10 {
        let mut s = String::new();
        push_text_char(&mut s, c);
        assert(s@ =~= seq![digit_char(n as nat)]);
        s
    } else {
        let mut s = decimal_string_wide(n / 10);
        push_text_char(&mut s, c);
        s
    }
}

/// Whether two string slices hold the same characters (`<str as PartialEq>::eq`).
#[verifier::external_body]
pub(crate) fn str_eq(a: &str, b: &str) -> (r: bool)
    ensures
        r == (a@ == b@),
{
    a == b
}

/// Concatenates two string slices.
pub fn cat2(a: &str, b: &str) -> (s: String)
    ensures
        s@ == a@ + b@,
{
    let mut s = a.to_string();
    proof { broadcast use vstd::string::to_string_from_display_ensures_for_str; }
    s.append(b);
    s
}

/// Concatenates three string slices.
pub fn cat3(a: &str, b: &str, c: &str) -> (s: String)
    ensures
        s@ == a@ + b@ + c@,
{
    let mut s = a.to_string();
    proof { broadcast use vstd::string::to_string_from_display_ensures_for_str; }
    s.append(b);
    s.append(c);
    s
}

/// Concatenates five string slices.
pub fn cat5(a: &str, b: &str, c: &str, d: &str, e: &str) -> (s: String)
    ensures
        s@ == a@ + b@ + c@ + d@ + e@,
{
    let mut s = cat3(a, b, c);
    s.append(d);
    s.append(e);
    s
}

/// Whether the `binary64` value with bit pattern `b` is finite (neither infinite nor NaN).
pub open spec fn f64_finite(b: u64) -> bool {
    (b >> 52u64) & 0x7ffu64 != 0x7ffu64
}

/// Whether the `binary64` value with bit pattern `b` is NaN.
pub open spec fn f64_nan(b: u64) -> bool {
    (b >> 52u64) & 0x7ffu64 == 0x7ffu64 && b & 0x000f_ffff_ffff_ffffu64 != 0
}

/// Whether the `binary64` value with bit pattern `b` compares `<= 0.0`
/// (both zeros, every negative number and negative infinity; never NaN).
pub open spec fn f64_le_zero(b: u64) -> bool {
    b == 0 || ((b >> 63u64) == 1 && !f64_nan(b))
}

/// `f64::is_finite` on a bit pattern.
pub fn bits_finite(b: u64) -> (r: bool)
    ensures
        r == f64_finite(b),
{
    (b >> 52u64) & 0x7ffu64 != 0x7ffu64
}

/// `x <= 0.0` on the bit pattern of an `f64` `x`.
pub fn bits_le_zero(b: u64) -> (r: bool)
    ensures
        r == f64_le_zero(b),
{
    let nan = (b >> 52u64) & 0x7ffu64 == 0x7ffu64 && b & 0x000f_ffff_ffff_ffffu64 != 0;
    b == 0 || ((b >> 63u64) == 1 && !nan)
}

/// A point or direction in three dimensions, each coordinate an `f64` bit pattern.
#[derive(Debug, Clone, Copy, PartialEq, Eq, Structural)]
pub struct Vec3 {
    /// x, as `f64::to_bits`.
    pub x: u64,
    /// y, as `f64::to_bits`.
    pub y: u64,
    /// z, as `f64::to_bits`.
    pub z: u64,
}

/// A closed interval `[min, max]`, both ends `f64` bit patterns.
#[derive(Debug, Clone, Copy, PartialEq, Eq, Structural)]
pub struct Interval {
    /// Lower end, as `f64::to_bits`.
    pub min: u64,
    /// Upper end, as `f64::to_bits`.
    pub max: u64,
}

impl Interval {
    /// An interval from its two ends.
    pub fn new(min: u64, max: u64) -> (i: Interval)
        ensures
            i.min == min,
            i.max == max,
    {
        Interval { min, max }
    }
}

/// A colour with straight alpha; each channel an `f32` bit pattern (nominally in `[0, 1]`).
#[derive(Debug, Clone, Copy, PartialEq, Eq, Structural)]
pub struct Rgba {
    /// Red, as `f32::to_bits`.
    pub r: u32,
    /// Green, as `f32::to_bits`.
    pub g: u32,
    /// Blue, as `f32::to_bits`.
    pub b: u32,
    /// Alpha, as `f32::to_bits`.
    pub a: u32,
}

/// The bit pattern of `1.0f32`.
pub const F32_ONE: u32 = 0x3f80_0000u32;

impl Rgba {
    /// Opaque white.
    pub fn white() -> (c: Rgba)
        ensures
            c == (Rgba { r: F32_ONE, g: F32_ONE, b: F32_ONE, a: F32_ONE }),
    {
        Rgba { r: F32_ONE, g: F32_ONE, b: F32_ONE, a: F32_ONE }
    }

    /// Opaque black.
    pub fn black() -> (c: Rgba)
        ensures
            c == (Rgba { r: 0, g: 0, b: 0, a: F32_ONE }),
    {
        Rgba { r: 0, g: 0, b: 0, a: F32_ONE }
    }
}

} // verus!
