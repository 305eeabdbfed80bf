//! Parser for the line-oriented height-field text format.
//!
//! Each non-blank line of the input is one grid row; tokens are separated
//! by blanks and each token is either a decimal height or
//! `height,0xRRGGBB` (hex prefix optional, case-insensitive). Heights
//! become fixed-point micro-units, so a token like `1.5` parses to
//! exactly `1_500_000`; fractional digits beyond the sixth are below the
//! resolution and are truncated toward zero.
//!
//! The spec model mirrors the grammar: `spec_lines` and `spec_tokens`
//! describe the splitting, `spec_number_micro` and `spec_color_value` the
//! token grammar, and `spec_parse_fdf` the whole fail-fast parse;
//! [`parse_fdf_content`] promises to return exactly what the model says.

use vstd::prelude::*;
use vstd::slice::{slice_subrange, slice_to_vec};
use vstd::string::StringSliceAdditionalSpecFns;
use crate::fixed::SCALE;
use crate::terrain::TerrainData;

verus! {

/// Largest height magnitude the loader accepts, in micro-units (one
/// million whole units). The bound keeps every product later taken with a
/// height inside `i64`; a syntactically valid height beyond it is
/// reported as a parse error rather than silently wrapped.
pub const HEIGHT_LIMIT: i64 = 1_000_000_000_000;

/// Errors that can occur when loading height-field files.
#[derive(Debug, Clone, PartialEq, Eq)]
pub enum LoadError {
    /// The file could not be opened or read.
    FileNotFound(String),
    /// A height or color token could not be parsed; carries the 1-indexed
    /// line number, a short description, and the offending token.
    ParseError { line: usize, message: String, token: Vec<u8> },
    /// A row's token count differs from the first row's.
    InconsistentRow { row: usize, actual: usize, expected: usize },
    /// The input has no data rows.
    EmptyFile,
}

/// Blank bytes that separate tokens within a line: space, tab, and the
/// carriage return left before a line feed by CRLF input.
pub open spec fn is_blank_byte(b: u8) -> bool {
    b == 32 || b == 9 || b == 13
}

/// Decimal digit.
pub open spec fn is_digit(b: u8) -> bool {
    48 <= b <= 57
}

/// Hexadecimal digit, either case.
pub open spec fn is_hex_digit(b: u8) -> bool {
    is_digit(b) || (65 <= b <= 70) || (97 <= b <= 102)
}

/// Numeric value of a hexadecimal digit.
pub open spec fn hex_digit_value(b: u8) -> int {
    if is_digit(b) {
        b - 48
    } else if 65 <= b <= 70 {
        b - 55
    } else {
        b - 87
    }
}

/// Index of the first occurrence of `b` at or after `i`, or the length
/// of `s` when there is none.
pub open spec fn byte_pos(s: Seq<u8>, b: u8, i: int) -> int
    decreases s.len() - i,
{
    if i < 0 || i >= s.len() {
        s.len() as int
    } else if s[i] == b {
        i
    } else {
        byte_pos(s, b, i + 1)
    }
}

/// Every byte is a decimal digit.
pub open spec fn all_digits(s: Seq<u8>) -> bool {
    forall|i: int| 0 <= i < s.len() ==> is_digit(#[trigger] s[i])
}

/// Every byte is a hexadecimal digit.
pub open spec fn all_hex(s: Seq<u8>) -> bool {
    forall|i: int| 0 <= i < s.len() ==> is_hex_digit(#[trigger] s[i])
}

/// Value of a most-significant-first decimal digit string.
pub open spec fn digits_val(s: Seq<u8>) -> int
    decreases s.len(),
{
    if s.len() == 0 {
        0
    } else {
        digits_val(s.drop_last()) * 10 + (s.last() - 48)
    }
}

/// Value of a most-significant-first hexadecimal digit string.
pub open spec fn hex_val(s: Seq<u8>) -> int
    decreases s.len(),
{
    if s.len() == 0 {
        0
    } else {
        hex_val(s.drop_last()) * 16 + hex_digit_value(s.last())
    }
}

/// Micro-unit weight of the fractional digit at offset `i` after the
/// decimal point; digits past the sixth weigh nothing.
pub open spec fn frac_weight(i: int) -> int {
    if i == 0 {
        100_000
    } else if i == 1 {
        10_000
    } else if i == 2 {
        1_000
    } else if i == 3 {
        100
    } else if i == 4 {
        10
    } else if i == 5 {
        1
    } else {
        0
    }
}

/// Micro-unit contribution of the fractional digits from offset `i` on.
pub open spec fn frac_micro_from(s: Seq<u8>, i: int) -> int
    decreases s.len() - i,
{
    if i < 0 || i >= s.len() || i >= 6 {
        0
    } else {
        (s[i] - 48) * frac_weight(i) + frac_micro_from(s, i + 1)
    }
}

/// Micro-unit value of a fractional digit string: the first six digits
/// carry their decimal weight, the rest are truncated away.
pub open spec fn frac_micro(s: Seq<u8>) -> int {
    frac_micro_from(s, 0)
}

/// Fixed-point value of a decimal height token: an optional sign, then
/// integer digits, an optional point and fractional digits, with at
/// least one digit somewhere. `None` when the token has any other shape.
pub open spec fn spec_number_micro(tok: Seq<u8>) -> Option<int> {
    if tok.len() == 0 {
        None
    } else {
        let body = if tok[0] == 43 || tok[0] == 45 {
            tok.drop_first()
        } else {
            tok
        };
        let neg = tok[0] == 45;
        let k = byte_pos(body, 46, 0);
        let ip = body.subrange(0, k);
        let fp = if k < body.len() {
            body.subrange(k + 1, body.len() as int)
        } else {
            Seq::<u8>::empty()
        };
        if ip.len() == 0 && fp.len() == 0 {
            None
        } else if !all_digits(ip) || !all_digits(fp) {
            None
        } else {
            let v = digits_val(ip) * (SCALE as int) + frac_micro(fp);
            Some(if neg { -v } else { v })
        }
    }
}

/// Packed RGB value of a color token: an optional `0x`/`0X` prefix, then
/// one or more hex digits whose value fits 32 bits. `None` otherwise.
pub open spec fn spec_color_value(tok: Seq<u8>) -> Option<u32> {
    let body = if tok.len() >= 2 && tok[0] == 48 && (tok[1] == 120 || tok[1] == 88) {
        tok.subrange(2, tok.len() as int)
    } else {
        tok
    };
    if body.len() == 0 || !all_hex(body) {
        None
    } else if hex_val(body) > 0xFFFFFFFF {
        None
    } else {
        Some(hex_val(body) as u32)
    }
}

/// What a single token parses to.
pub enum TokenModel {
    /// A height in micro-units with an optional explicit color.
    Value { height: i64, color: Option<u32> },
    /// The token was empty.
    Empty,
    /// The height part is not a decimal number.
    BadNumber,
    /// The color part is not a hexadecimal color.
    BadColor,
    /// The height is a number but its magnitude exceeds [`HEIGHT_LIMIT`].
    OutOfRange,
}

/// Token grammar: everything before the first comma is the height,
/// everything after it the color. Shape errors are reported before the
/// range check, as a reader of the token would meet them.
pub open spec fn spec_parse_token(tok: Seq<u8>) -> TokenModel {
    if tok.len() == 0 {
        TokenModel::Empty
    } else {
        let k = byte_pos(tok, 44, 0);
        let height_part = tok.subrange(0, k);
        match spec_number_micro(height_part) {
            None => TokenModel::BadNumber,
            Some(v) => {
                if k < tok.len() {
                    match spec_color_value(tok.subrange(k + 1, tok.len() as int)) {
                        None => TokenModel::BadColor,
                        Some(c) => {
                            if -(HEIGHT_LIMIT as int) <= v <= HEIGHT_LIMIT as int {
                                TokenModel::Value { height: v as i64, color: Some(c) }
                            } else {
                                TokenModel::OutOfRange
                            }
                        },
                    }
                } else {
                    if -(HEIGHT_LIMIT as int) <= v <= HEIGHT_LIMIT as int {
                        TokenModel::Value { height: v as i64, color: None }
                    } else {
                        TokenModel::OutOfRange
                    }
                }
            },
        }
    }
}

/// Digit strings have non-negative values.
proof fn lemma_digits_val_nonneg(s: Seq<u8>)
    requires
        all_digits(s),
    ensures
        digits_val(s) >= 0,
    decreases s.len(),
{
    if s.len() > 0 {
        assert(all_digits(s.drop_last())) by {
            assert(forall|i: int|
                0 <= i < s.len() - 1 ==> s.drop_last()[i] == #[trigger] s[i]);
        }
        lemma_digits_val_nonneg(s.drop_last());
        assert(is_digit(s.last()));
    }
}

/// The fractional tail from offset `i` is non-negative and stays below
/// ten times the weight of digit `i`, hence below one whole unit.
proof fn lemma_frac_micro_bound(s: Seq<u8>, i: int)
    requires
        all_digits(s),
        0 <= i,
    ensures
        0 <= frac_micro_from(s, i) < 1_000_000,
        i <= 5 ==> frac_micro_from(s, i) <= 10 * frac_weight(i) - 1,
    decreases 6 - i,
{
    if i >= s.len() || i >= 6 {
        assert(frac_micro_from(s, i) == 0);
    } else {
        lemma_frac_micro_bound(s, i + 1);
        assert(is_digit(s[i]));
        if i == 5 {
            assert(frac_micro_from(s, 6) == 0);
        }
        assert(0 <= (s[i] - 48) * frac_weight(i) <= 9 * frac_weight(i)) by (nonlinear_arith)
            requires 0 <= s[i] - 48 <= 9, frac_weight(i) >= 0;
    }
}

/// Extending a digit prefix by one byte adds that digit's weight to the
/// fractional value (nothing once past the sixth digit).
proof fn lemma_frac_prefix(s: Seq<u8>, j: int, i: int)
    requires
        0 <= i <= j < s.len(),
    ensures
        frac_micro_from(s.subrange(0, j + 1), i) == frac_micro_from(s.subrange(0, j), i)
            + if j < 6 { (s[j] - 48) * frac_weight(j) } else { 0int },
    decreases j - i,
{
    let pre = s.subrange(0, j);
    let pre1 = s.subrange(0, j + 1);
    if i >= 6 {
    } else if i == j {
        assert(frac_micro_from(pre1, j) == (pre1[j] - 48) * frac_weight(j)
            + frac_micro_from(pre1, j + 1));
        assert(frac_micro_from(pre1, j + 1) == 0);
        assert(frac_micro_from(pre, j) == 0);
    } else {
        lemma_frac_prefix(s, j, i + 1);
        assert(frac_micro_from(pre1, i) == (pre1[i] - 48) * frac_weight(i)
            + frac_micro_from(pre1, i + 1));
        assert(frac_micro_from(pre, i) == (pre[i] - 48) * frac_weight(i)
            + frac_micro_from(pre, i + 1));
        assert(pre1[i] == pre[i]);
    }
}

/// The first occurrence found by `byte_pos` is within range, carries the
/// byte looked for, and nothing before it does.
proof fn lemma_byte_pos_props(s: Seq<u8>, b: u8, i: int)
    requires
        0 <= i <= s.len(),
    ensures
        i <= byte_pos(s, b, i) <= s.len(),
        byte_pos(s, b, i) < s.len() ==> s[byte_pos(s, b, i)] == b,
        forall|j: int| i <= j < byte_pos(s, b, i) ==> s[j] != b,
    decreases s.len() - i,
{
    if i < s.len() && s[i] != b {
        lemma_byte_pos_props(s, b, i + 1);
    }
}

/// Index of the first occurrence of `b` in `s`, or `s.len()` if absent.
fn find_byte(s: &[u8], b: u8) -> (r: usize)
    ensures
        r == byte_pos(s@, b, 0),
{
    let n = s.len();
    let mut i: usize = 0;
    while i < n
        invariant
            0 <= i <= n == s@.len(),
            byte_pos(s@, b, 0) == byte_pos(s@, b, i as int),
        decreases n - i,
    {
        if s[i] == b {
            return i;
        }
        i += 1;
    }
    i
}

/// Numeric value of a hexadecimal digit byte.
fn hex_digit(b: u8) -> (r: Option<u8>)
    ensures
        match r {
            Some(v) => is_hex_digit(b) && v == hex_digit_value(b),
            None => !is_hex_digit(b),
        },
{
    if 48 <= b && b <= 57 {
        Some(b - 48)
    } else if 65 <= b && b <= 70 {
        Some(b - 55)
    } else if 97 <= b && b <= 102 {
        Some(b - 87)
    } else {
        None
    }
}

/// Outcome of reading a height token.
enum NumOut {
    Num(i64),
    Malformed,
    OutOfRange,
}

/// Micro-unit weight of fractional digit `i`.
fn frac_weight_exec(i: usize) -> (r: u64)
    ensures
        r == frac_weight(i as int),
{
    if i == 0 {
        100_000
    } else if i == 1 {
        10_000
    } else if i == 2 {
        1_000
    } else if i == 3 {
        100
    } else if i == 4 {
        10
    } else if i == 5 {
        1
    } else {
        0
    }
}

/// Reads a decimal height token into micro-units, classifying it exactly
/// as the grammar model does.
#[verifier::loop_isolation(false)]
#[verifier::rlimit(50)]
fn parse_number(tok: &[u8]) -> (r: NumOut)
    ensures
        match spec_number_micro(tok@) {
            None => r is Malformed,
            Some(v) => {
                if -(HEIGHT_LIMIT as int) <= v <= HEIGHT_LIMIT as int {
                    r == NumOut::Num(v as i64)
                } else {
                    r is OutOfRange
                }
            },
        },
{
    if tok.len() == 0 {
        return NumOut::Malformed;
    }
    let signed = tok[0] == 43 || tok[0] == 45;
    let neg = tok[0] == 45;
    let body: &[u8] = if signed {
        slice_subrange(tok, 1, tok.len())
    } else {
        tok
    };
    proof {
        if signed {
            assert(body@ =~= tok@.drop_first());
        }
    }
    let k = find_byte(body, 46);
    proof {
        lemma_byte_pos_props(body@, 46, 0);
    }
    let ip: &[u8] = slice_subrange(body, 0, k);
    let fp: &[u8] = if k < body.len() {
        slice_subrange(body, k + 1, body.len())
    } else {
        slice_subrange(body, k, k)
    };
    proof {
        if k == body@.len() {
            assert(fp@ =~= Seq::<u8>::empty());
        }
    }
    if ip.len() == 0 && fp.len() == 0 {
        return NumOut::Malformed;
    }

    // Integer digits, folded with saturation at a cap above the accepted
    // range so that the comparison below still decides the exact value.
    let mut units: u64 = 0;
    let mut i: usize = 0;
    while i < ip.len()
        invariant
            0 <= i <= ip@.len(),
            all_digits(ip@.subrange(0, i as int)),
            units == if digits_val(ip@.subrange(0, i as int)) > 2_000_000 {
                2_000_000int
            } else {
                digits_val(ip@.subrange(0, i as int))
            },
        decreases ip@.len() - i,
    {
        let b = ip[i];
        if b < 48 || b > 57 {
            proof {
                assert(!is_digit(ip@[i as int]));
                assert(!all_digits(ip@));
            }
            return NumOut::Malformed;
        }
        proof {
            let pre = ip@.subrange(0, i as int);
            let pre1 = ip@.subrange(0, i + 1);
            assert(pre1.drop_last() =~= pre);
            assert(pre1.last() == ip@[i as int]);
            lemma_digits_val_nonneg(pre);
            assert(all_digits(pre1)) by {
                assert(forall|j: int| 0 <= j < pre1.len() ==> pre1[j] == #[trigger] ip@[j]);
            }
        }
        let d = (b - 48) as u64;
        let t = units * 10 + d;
        units = if t > 2_000_000 {
            2_000_000
        } else {
            t
        };
        i += 1;
    }
    proof {
        assert(ip@.subrange(0, ip@.len() as int) =~= ip@);
    }

    // Fractional digits: all must be digits, the first six carry value.
    let mut frac: u64 = 0;
    let mut j: usize = 0;
    while j < fp.len()
        invariant
            0 <= j <= fp@.len(),
            all_digits(fp@.subrange(0, j as int)),
            frac == frac_micro(fp@.subrange(0, j as int)),
            0 <= frac < 1_000_000,
        decreases fp@.len() - j,
    {
        let b = fp[j];
        if b < 48 || b > 57 {
            proof {
                assert(!is_digit(fp@[j as int]));
                assert(!all_digits(fp@));
            }
            return NumOut::Malformed;
        }
        proof {
            let pre = fp@.subrange(0, j as int);
            let pre1 = fp@.subrange(0, j + 1);
            assert(all_digits(pre1)) by {
                assert(forall|i2: int| 0 <= i2 < pre1.len() ==> pre1[i2] == #[trigger] fp@[i2]);
            }
            lemma_frac_prefix(fp@, j as int, 0);
            lemma_frac_micro_bound(pre1, 0);
        }
        let w = frac_weight_exec(j);
        let d = (b - 48) as u64;
        proof {
            assert(d * w <= 900_000) by (nonlinear_arith)
                requires d <= 9, w <= 100_000;
            if j < 6 {
                assert(d as int * (w as int) == (fp@[j as int] - 48) * frac_weight(j as int));
            } else {
                assert(frac_weight(j as int) == 0);
                assert(d as int * (w as int) == 0) by (nonlinear_arith)
                    requires w == 0;
            }
            assert(frac + d * w == frac_micro(fp@.subrange(0, j + 1)));
        }
        frac = frac + d * w;
        j += 1;
    }
    proof {
        assert(fp@.subrange(0, fp@.len() as int) =~= fp@);
        lemma_frac_micro_bound(fp@, 0);
    }

    let micro_sat: u64 = units * 1_000_000 + frac;
    proof {
        let exact = digits_val(ip@) * (SCALE as int) + frac_micro(fp@);
        lemma_digits_val_nonneg(ip@);
        if digits_val(ip@) > 2_000_000 {
            assert(exact > HEIGHT_LIMIT as int);
            assert(micro_sat > HEIGHT_LIMIT as u64);
        } else {
            assert(micro_sat == exact);
        }
    }
    if micro_sat > 1_000_000_000_000 {
        return NumOut::OutOfRange;
    }
    let v = micro_sat as i64;
    if neg {
        NumOut::Num(-v)
    } else {
        NumOut::Num(v)
    }
}

/// Reads a color token as the grammar model does.
#[verifier::loop_isolation(false)]
fn parse_color(tok: &[u8]) -> (r: Option<u32>)
    ensures
        r == spec_color_value(tok@),
{
    let body: &[u8] = if tok.len() >= 2 && tok[0] == 48 && (tok[1] == 120 || tok[1] == 88) {
        slice_subrange(tok, 2, tok.len())
    } else {
        tok
    };
    proof {
        if tok@.len() >= 2 && tok@[0] == 48 && (tok@[1] == 120 || tok@[1] == 88) {
            assert(body@ =~= tok@.subrange(2, tok@.len() as int));
        }
    }
    if body.len() == 0 {
        return None;
    }
    let mut val: u64 = 0;
    let mut i: usize = 0;
    while i < body.len()
        invariant
            0 <= i <= body@.len(),
            all_hex(body@.subrange(0, i as int)),
            val == if hex_val(body@.subrange(0, i as int)) > 0x1_0000_0000 {
                0x1_0000_0000int
            } else {
                hex_val(body@.subrange(0, i as int))
            },
        decreases body@.len() - i,
    {
        let b = body[i];
        let dv = hex_digit(b);
        match dv {
            None => {
                proof {
                    assert(!is_hex_digit(body@[i as int]));
                    assert(!all_hex(body@));
                }
                return None;
            },
            Some(d) => {
                proof {
                    let pre = body@.subrange(0, i as int);
                    let pre1 = body@.subrange(0, i + 1);
                    assert(pre1.drop_last() =~= pre);
                    assert(pre1.last() == body@[i as int]);
                    lemma_hex_val_nonneg(pre);
                    assert(all_hex(pre1)) by {
                        assert(forall|j: int|
                            0 <= j < pre1.len() ==> pre1[j] == #[trigger] body@[j]);
                    }
                }
                let t = val * 16 + (d as u64);
                val = if t > 0x1_0000_0000 {
                    0x1_0000_0000
                } else {
                    t
                };
            },
        }
        i += 1;
    }
    proof {
        assert(body@.subrange(0, body@.len() as int) =~= body@);
        lemma_hex_val_nonneg(body@);
    }
    if val > 0xFFFFFFFF {
        None
    } else {
        Some(val as u32)
    }
}

/// Hex strings have non-negative values.
proof fn lemma_hex_val_nonneg(s: Seq<u8>)
    requires
        all_hex(s),
    ensures
        hex_val(s) >= 0,
    decreases s.len(),
{
    if s.len() > 0 {
        assert(all_hex(s.drop_last())) by {
            assert(forall|i: int|
                0 <= i < s.len() - 1 ==> s.drop_last()[i] == #[trigger] s[i]);
        }
        lemma_hex_val_nonneg(s.drop_last());
        assert(is_hex_digit(s.last()));
    }
}

/// Parses one token, either `height` or `height,color`, reporting
/// failures with the 1-indexed line number and the offending token.
pub fn parse_value(s: &[u8], line: usize) -> (r: Result<(i64, Option<u32>), LoadError>)
    ensures
        match spec_parse_token(s@) {
            TokenModel::Value { height, color } => r == Ok::<(i64, Option<u32>), LoadError>(
                (height, color),
            ),
            TokenModel::Empty => (r matches Err(LoadError::ParseError {
                line: l,
                message: m,
                token: t,
            }) && l == line && m@ == "empty value"@ && t@ == s@),
            TokenModel::BadNumber => (r matches Err(LoadError::ParseError {
                line: l,
                message: m,
                token: t,
            }) && l == line && m@ == "expected number"@ && t@ == s@),
            TokenModel::BadColor => (r matches Err(LoadError::ParseError {
                line: l,
                message: m,
                token: t,
            }) && l == line && m@ == "invalid color format"@ && t@ == s@),
            TokenModel::OutOfRange => (r matches Err(LoadError::ParseError {
                line: l,
                message: m,
                token: t,
            }) && l == line && m@ == "height out of range"@ && t@ == s@),
        },
{
    if s.len() == 0 {
        return Err(LoadError::ParseError {
            line,
            message: String::from_str("empty value"),
            token: slice_to_vec(s),
        });
    }
    let k = find_byte(s, 44);
    proof {
        lemma_byte_pos_props(s@, 44, 0);
    }
    let height_part: &[u8] = slice_subrange(s, 0, k);
    let num = parse_number(height_part);
    match num {
        NumOut::Malformed => Err(LoadError::ParseError {
            line,
            message: String::from_str("expected number"),
            token: slice_to_vec(s),
        }),
        NumOut::Num(h) => {
            if k < s.len() {
                let color_part: &[u8] = slice_subrange(s, k + 1, s.len());
                match parse_color(color_part) {
                    Some(c) => Ok((h, Some(c))),
                    None => Err(LoadError::ParseError {
                        line,
                        message: String::from_str("invalid color format"),
                        token: slice_to_vec(s),
                    }),
                }
            } else {
                Ok((h, None))
            }
        },
        NumOut::OutOfRange => {
            if k < s.len() {
                let color_part: &[u8] = slice_subrange(s, k + 1, s.len());
                match parse_color(color_part) {
                    Some(_) => Err(LoadError::ParseError {
                        line,
                        message: String::from_str("height out of range"),
                        token: slice_to_vec(s),
                    }),
                    None => Err(LoadError::ParseError {
                        line,
                        message: String::from_str("invalid color format"),
                        token: slice_to_vec(s),
                    }),
                }
            } else {
                Err(LoadError::ParseError {
                    line,
                    message: String::from_str("height out of range"),
                    token: slice_to_vec(s),
                })
            }
        },
    }
}


/// Lines of `s` from position `i` on, given the bytes `cur` of the line
/// read so far: the input split at line feeds, with no phantom empty
/// line after a trailing one.
pub open spec fn lines_walk(s: Seq<u8>, i: int, cur: Seq<u8>) -> Seq<Seq<u8>>
    decreases s.len() - i,
{
    if i < 0 || i >= s.len() {
        if cur.len() > 0 {
            seq![cur]
        } else {
            Seq::<Seq<u8>>::empty()
        }
    } else if s[i] == 10 {
        seq![cur] + lines_walk(s, i + 1, Seq::<u8>::empty())
    } else {
        lines_walk(s, i + 1, cur.push(s[i]))
    }
}

/// The input split at line feeds.
pub open spec fn spec_lines(s: Seq<u8>) -> Seq<Seq<u8>> {
    lines_walk(s, 0, Seq::<u8>::empty())
}

/// Tokens of `line` from position `i` on, given the bytes `cur` of the
/// token read so far: maximal runs of non-blank bytes.
pub open spec fn tokens_walk(line: Seq<u8>, i: int, cur: Seq<u8>) -> Seq<Seq<u8>>
    decreases line.len() - i,
{
    if i < 0 || i >= line.len() {
        if cur.len() > 0 {
            seq![cur]
        } else {
            Seq::<Seq<u8>>::empty()
        }
    } else if is_blank_byte(line[i]) {
        if cur.len() > 0 {
            seq![cur] + tokens_walk(line, i + 1, Seq::<u8>::empty())
        } else {
            tokens_walk(line, i + 1, Seq::<u8>::empty())
        }
    } else {
        tokens_walk(line, i + 1, cur.push(line[i]))
    }
}

/// The blank-separated tokens of a line; a line without any is blank.
pub open spec fn spec_tokens(line: Seq<u8>) -> Seq<Seq<u8>> {
    tokens_walk(line, 0, Seq::<u8>::empty())
}

/// What a row of tokens parses to.
pub enum RowModel {
    /// Every token parsed; colors default to opaque white, and
    /// `any_color` records whether one was explicit.
    Row { heights: Seq<i64>, colors: Seq<u32>, any_color: bool },
    /// The first failing token, with what went wrong.
    RowErr { token: Seq<u8>, err: TokenModel },
}

/// Parses a row's tokens left to right, stopping at the first failure.
pub open spec fn spec_parse_row(toks: Seq<Seq<u8>>) -> RowModel
    decreases toks.len(),
{
    if toks.len() == 0 {
        RowModel::Row { heights: Seq::<i64>::empty(), colors: Seq::<u32>::empty(), any_color: false }
    } else {
        match spec_parse_token(toks[0]) {
            TokenModel::Value { height, color } => {
                match spec_parse_row(toks.drop_first()) {
                    RowModel::Row { heights, colors, any_color } => RowModel::Row {
                        heights: seq![height] + heights,
                        colors: seq![
                            match color {
                                Some(c) => c,
                                None => 0xFFFFFFu32,
                            }
                        ] + colors,
                        any_color: color is Some || any_color,
                    },
                    e => e,
                }
            },
            err => RowModel::RowErr { token: toks[0], err },
        }
    }
}

/// What a whole input parses to.
pub enum ParseModel {
    /// The accepted rows, in order; `colors` is meaningful only when
    /// `any_color` holds.
    Rows { heights: Seq<Seq<i64>>, colors: Seq<Seq<u32>>, any_color: bool },
    /// The first failing token, with its 1-indexed line.
    Bad { line: int, token: Seq<u8>, err: TokenModel },
    /// The first row whose width differs from the first row's.
    Ragged { row: int, actual: int, expected: int },
}

/// Parses the lines in order. `lineno` is the 1-indexed number of
/// `lines[0]`; `expected` is the width of the first accepted row, if one
/// was accepted yet. Blank lines are skipped but still numbered.
pub open spec fn spec_parse_lines(lines: Seq<Seq<u8>>, lineno: int, expected: Option<int>) -> ParseModel
    decreases lines.len(), 1int,
{
    if lines.len() == 0 {
        ParseModel::Rows {
            heights: Seq::<Seq<i64>>::empty(),
            colors: Seq::<Seq<u32>>::empty(),
            any_color: false,
        }
    } else {
        let toks = spec_tokens(lines[0]);
        if toks.len() == 0 {
            spec_parse_lines(lines.drop_first(), lineno + 1, expected)
        } else {
            match spec_parse_row(toks) {
                RowModel::RowErr { token, err } => ParseModel::Bad { line: lineno, token, err },
                RowModel::Row { heights, colors, any_color } => {
                    match expected {
                        Some(e) => {
                            if heights.len() != e {
                                ParseModel::Ragged {
                                    row: lineno,
                                    actual: heights.len() as int,
                                    expected: e,
                                }
                            } else {
                                spec_parse_after_row(lines, lineno, e, heights, colors, any_color)
                            }
                        },
                        None => spec_parse_after_row(
                            lines,
                            lineno,
                            heights.len() as int,
                            heights,
                            colors,
                            any_color,
                        ),
                    }
                },
            }
        }
    }
}

/// Folds the lines after an accepted row of width `width`, prepending
/// that row to the rows of the rest.
pub open spec fn spec_parse_after_row(
    lines: Seq<Seq<u8>>,
    lineno: int,
    width: int,
    heights: Seq<i64>,
    colors: Seq<u32>,
    any_color: bool,
) -> ParseModel
    decreases lines.len(), 0int,
{
    if lines.len() == 0 {
        ParseModel::Rows { heights: seq![heights], colors: seq![colors], any_color }
    } else {
        match spec_parse_lines(lines.drop_first(), lineno + 1, Some(width)) {
            ParseModel::Rows { heights: hs, colors: cs, any_color: a } => ParseModel::Rows {
                heights: seq![heights] + hs,
                colors: seq![colors] + cs,
                any_color: any_color || a,
            },
            e => e,
        }
    }
}

/// The whole parse of an input: the rows of its non-blank lines, or its
/// first failure.
pub open spec fn spec_parse_fdf(s: Seq<u8>) -> ParseModel {
    spec_parse_lines(spec_lines(s), 1, None)
}

/// The description [`parse_value`] reports for each way a token can fail.
pub open spec fn spec_error_message(err: TokenModel) -> Seq<char> {
    match err {
        TokenModel::Value { .. } => Seq::<char>::empty(),
        TokenModel::Empty => "empty value"@,
        TokenModel::BadNumber => "expected number"@,
        TokenModel::BadColor => "invalid color format"@,
        TokenModel::OutOfRange => "height out of range"@,
    }
}

/// Splits the input at line feeds, as the line model does.
#[verifier::loop_isolation(false)]
fn split_lines(content: &[u8]) -> (r: Vec<Vec<u8>>)
    ensures
        r.deep_view() == spec_lines(content@),
{
    let mut out: Vec<Vec<u8>> = Vec::new();
    let mut cur: Vec<u8> = Vec::new();
    let mut i: usize = 0;
    while i < content.len()
        invariant
            0 <= i <= content@.len(),
            spec_lines(content@) == out.deep_view() + lines_walk(content@, i as int, cur@),
        decreases content@.len() - i,
    {
        let ghost pre_out = out.deep_view();
        let ghost pre_cur = cur@;
        let b = content[i];
        if b == 10 {
            out.push(cur);
            cur = Vec::new();
            proof {
                assert(out.deep_view() =~~= pre_out + seq![pre_cur]);
                assert(pre_out + (seq![pre_cur] + lines_walk(content@, i + 1, Seq::<u8>::empty()))
                    =~= (pre_out + seq![pre_cur]) + lines_walk(content@, i + 1, Seq::<u8>::empty()));
            }
        } else {
            cur.push(b);
        }
        i += 1;
    }
    if cur.len() > 0 {
        let ghost pre_out = out.deep_view();
        let ghost pre_cur = cur@;
        out.push(cur);
        proof {
            assert(out.deep_view() =~~= pre_out + seq![pre_cur]);
            assert(spec_lines(content@) =~= out.deep_view());
        }
    } else {
        proof {
            assert(out.deep_view() + Seq::<Seq<u8>>::empty() =~= out.deep_view());
        }
    }
    out
}

/// Splits a line into blank-separated tokens, as the token model does.
#[verifier::loop_isolation(false)]
fn split_tokens(line: &[u8]) -> (r: Vec<Vec<u8>>)
    ensures
        r.deep_view() == spec_tokens(line@),
{
    let mut out: Vec<Vec<u8>> = Vec::new();
    let mut cur: Vec<u8> = Vec::new();
    let mut i: usize = 0;
    while i < line.len()
        invariant
            0 <= i <= line@.len(),
            spec_tokens(line@) == out.deep_view() + tokens_walk(line@, i as int, cur@),
        decreases line@.len() - i,
    {
        let ghost pre_out = out.deep_view();
        let ghost pre_cur = cur@;
        let b = line[i];
        if b == 32 || b == 9 || b == 13 {
            if cur.len() > 0 {
                out.push(cur);
                cur = Vec::new();
                proof {
                    assert(out.deep_view() =~~= pre_out + seq![pre_cur]);
                    assert(pre_out + (seq![pre_cur] + tokens_walk(line@, i + 1, Seq::<u8>::empty()))
                        =~= (pre_out + seq![pre_cur]) + tokens_walk(line@, i + 1, Seq::<u8>::empty()));
                }
            } else {
                proof {
                    assert(pre_cur =~= Seq::<u8>::empty());
                    assert(tokens_walk(line@, i as int, pre_cur)
                        == tokens_walk(line@, i + 1, Seq::<u8>::empty()));
                }
            }
        } else {
            cur.push(b);
        }
        i += 1;
    }
    if cur.len() > 0 {
        let ghost pre_out = out.deep_view();
        let ghost pre_cur = cur@;
        out.push(cur);
        proof {
            assert(out.deep_view() =~~= pre_out + seq![pre_cur]);
            assert(spec_tokens(line@) =~= out.deep_view());
        }
    } else {
        proof {
            assert(out.deep_view() + Seq::<Seq<u8>>::empty() =~= out.deep_view());
        }
    }
    out
}

/// The parse returned exactly what the grammar model prescribes for the
/// input bytes `s`: the well-formed grid on success, and the model's
/// first failure otherwise, line numbers included.
pub open spec fn parse_result_matches(s: Seq<u8>, r: Result<TerrainData, LoadError>) -> bool {
    match spec_parse_fdf(s) {
        ParseModel::Rows { heights, colors, any_color } => {
            if heights.len() == 0 {
                r == Err::<TerrainData, LoadError>(LoadError::EmptyFile)
            } else {
                &&& r matches Ok(t)
                &&& t.wf()
                &&& t.points.deep_view() == heights
                &&& t.height == heights.len()
                &&& t.width == heights[0].len()
                &&& (any_color ==> (t.colors matches Some(c) && c.deep_view() == colors))
                &&& (!any_color ==> t.colors is None)
                &&& t.samples_within(HEIGHT_LIMIT as int)
            }
        },
        ParseModel::Bad { line, token, err } => {
            &&& r matches Err(LoadError::ParseError { line: l, message: m, token: tk })
            &&& l == line
            &&& tk@ == token
            &&& m@ == spec_error_message(err)
        },
        ParseModel::Ragged { row, actual, expected } => r == Err::<TerrainData, LoadError>(
            LoadError::InconsistentRow {
                row: row as usize,
                actual: actual as usize,
                expected: expected as usize,
            },
        ),
    }
}

/// Parses height-field bytes: each non-blank line is one row of
/// blank-separated `height` or `height,color` tokens. Returns exactly
/// what the grammar model says: the grid, or the first failure —
/// a bad token with its 1-indexed line, the first row whose width
/// differs from the first row's, or an input without any data row.
#[verifier::loop_isolation(false)]
#[verifier::rlimit(80)]
pub fn parse_fdf_bytes(content: &[u8]) -> (r: Result<TerrainData, LoadError>)
    ensures
        parse_result_matches(content@, r),
{
    let lines = split_lines(content);
    let ghost ld = lines.deep_view();
    let n = lines.len();
    let mut points: Vec<Vec<i64>> = Vec::new();
    let mut colors: Vec<Vec<u32>> = Vec::new();
    let mut has_any_color = false;
    let mut expected_width: Option<usize> = None;
    let mut i: usize = 0;
    proof {
        assert(ld.subrange(0, n as int) =~= ld);
        assert(points.deep_view() =~= Seq::<Seq<i64>>::empty());
        assert(colors.deep_view() =~= Seq::<Seq<u32>>::empty());
        let m = spec_parse_lines(ld, 1, None::<int>);
        if m is Rows {
            assert(points.deep_view() + m->Rows_heights =~= m->Rows_heights);
            assert(colors.deep_view() + m->Rows_colors =~= m->Rows_colors);
        }
    }
    while i < n
        invariant
            0 <= i <= n == ld.len(),
            match expected_width {
                Some(e) => {
                    &&& points@.len() > 0
                    &&& colors@.len() == points@.len()
                    &&& forall|z: int|
                        0 <= z < points@.len() ==> (#[trigger] points@[z])@.len() == e
                    &&& forall|z: int|
                        0 <= z < colors@.len() ==> (#[trigger] colors@[z])@.len() == e
                },
                None => points@.len() == 0 && colors@.len() == 0,
            },
            forall|z: int, x: int|
                0 <= z < points@.len() && 0 <= x < points@[z]@.len()
                    ==> -HEIGHT_LIMIT <= #[trigger] points@[z]@[x] <= HEIGHT_LIMIT,
            match spec_parse_lines(
                ld.subrange(i as int, n as int),
                i + 1,
                match expected_width {
                    Some(e) => Some(e as int),
                    None => None,
                },
            ) {
                ParseModel::Rows { heights, colors: cls, any_color } => spec_parse_fdf(content@)
                    == (ParseModel::Rows {
                    heights: points.deep_view() + heights,
                    colors: colors.deep_view() + cls,
                    any_color: has_any_color || any_color,
                }),
                e => spec_parse_fdf(content@) == e,
            },
        decreases n - i,
    {
        let ghost rest = ld.subrange(i as int, n as int);
        proof {
            assert(rest[0] == ld[i as int]);
            assert(rest.drop_first() =~= ld.subrange(i + 1, n as int));
        }
        let line = &lines[i];
        proof {
            assert(line.deep_view() =~= line@);
            assert(line@ == ld[i as int]);
        }
        let toks = split_tokens(line.as_slice());
        let ghost td = toks.deep_view();
        if toks.len() == 0 {
            proof {
                assert(td =~= Seq::<Seq<u8>>::empty());
                assert(spec_tokens(rest[0]).len() == 0);
            }
            i += 1;
            continue;
        }

        // Parse the row's tokens left to right, stopping at the first
        // failure exactly as the row model does.
        let mut row_heights: Vec<i64> = Vec::new();
        let mut row_colors: Vec<u32> = Vec::new();
        let mut row_any = false;
        let mut ti: usize = 0;
        proof {
            assert(td.subrange(0, td.len() as int) =~= td);
            let m = spec_parse_row(td);
            if m is Row {
                assert(row_heights@ + m->Row_heights =~= m->Row_heights);
                assert(row_colors@ + m->Row_colors =~= m->Row_colors);
            }
        }
        while ti < toks.len()
            invariant
                0 <= ti <= toks@.len() == td.len(),
                row_heights@.len() == ti,
                row_colors@.len() == ti,
                forall|x: int|
                    0 <= x < row_heights@.len()
                        ==> -HEIGHT_LIMIT <= #[trigger] row_heights@[x] <= HEIGHT_LIMIT,
                match spec_parse_row(td.subrange(ti as int, td.len() as int)) {
                    RowModel::Row { heights, colors: cls, any_color } => spec_parse_row(td)
                        == (RowModel::Row {
                        heights: row_heights@ + heights,
                        colors: row_colors@ + cls,
                        any_color: row_any || any_color,
                    }),
                    e => spec_parse_row(td) == e,
                },
            decreases td.len() - ti,
        {
            let ghost trest = td.subrange(ti as int, td.len() as int);
            proof {
                assert(trest[0] == td[ti as int]);
                assert(trest.drop_first() =~= td.subrange(ti + 1, td.len() as int));
            }
            let tok = &toks[ti];
            proof {
                assert(tok.deep_view() =~= tok@);
                assert(tok@ == td[ti as int]);
            }
            match parse_value(tok.as_slice(), i + 1) {
                Ok((h, c)) => {
                    let ghost pre_h = row_heights@;
                    let ghost pre_c = row_colors@;
                    let cv: u32 = match c {
                        Some(cv) => cv,
                        None => 0xFFFFFF,
                    };
                    row_heights.push(h);
                    row_colors.push(cv);
                    if c.is_some() {
                        row_any = true;
                    }
                    proof {
                        assert(row_heights@ =~= pre_h + seq![h]);
                        assert(row_colors@ =~= pre_c + seq![cv]);
                        if spec_parse_row(trest.drop_first()) is Row {
                            let hrec = spec_parse_row(trest.drop_first())->Row_heights;
                            let crec = spec_parse_row(trest.drop_first())->Row_colors;
                            assert((pre_h + seq![h]) + hrec =~= pre_h + (seq![h] + hrec));
                            assert((pre_c + seq![cv]) + crec =~= pre_c + (seq![cv] + crec));
                        }
                    }
                    ti += 1;
                },
                Err(e) => {
                    return Err(e);
                },
            }
        }
        proof {
            assert(td.subrange(td.len() as int, td.len() as int)
                =~= Seq::<Seq<u8>>::empty());
            assert(row_heights@ + Seq::<i64>::empty() =~= row_heights@);
            assert(row_colors@ + Seq::<u32>::empty() =~= row_colors@);
        }

        // The row parsed; hold its width against the first row's.
        let ghost old_expected = expected_width;
        match expected_width {
            Some(e) => {
                if row_heights.len() != e {
                    return Err(LoadError::InconsistentRow {
                        row: i + 1,
                        actual: row_heights.len(),
                        expected: e,
                    });
                }
            },
            None => {
                expected_width = Some(row_heights.len());
            },
        }
        let ghost pre_points = points.deep_view();
        let ghost pre_colors = colors.deep_view();
        let ghost row_h = row_heights@;
        let ghost row_c = row_colors@;
        points.push(row_heights);
        colors.push(row_colors);
        has_any_color = has_any_color || row_any;
        proof {
            assert(points.deep_view() =~~= pre_points + seq![row_h]);
            assert(colors.deep_view() =~~= pre_colors + seq![row_c]);
            let after = spec_parse_lines(
                ld.subrange(i + 1, n as int),
                i + 2,
                Some(row_h.len() as int),
            );
            if after is Rows {
                assert(pre_points + (seq![row_h] + after->Rows_heights)
                    =~= (pre_points + seq![row_h]) + after->Rows_heights);
                assert(pre_colors + (seq![row_c] + after->Rows_colors)
                    =~= (pre_colors + seq![row_c]) + after->Rows_colors);
            }
            assert(spec_parse_row(td) == (RowModel::Row {
                heights: row_h,
                colors: row_c,
                any_color: row_any,
            }));
            assert(spec_parse_lines(rest, i + 1, match old_expected {
                Some(e) => Some(e as int),
                None => None,
            }) == spec_parse_after_row(rest, i + 1, row_h.len() as int, row_h, row_c, row_any));
        }
        i += 1;
    }
    proof {
        assert(ld.subrange(n as int, n as int) =~= Seq::<Seq<u8>>::empty());
        assert(points.deep_view() + Seq::<Seq<i64>>::empty() =~= points.deep_view());
        assert(colors.deep_view() + Seq::<Seq<u32>>::empty() =~= colors.deep_view());
    }
    if points.len() == 0 {
        return Err(LoadError::EmptyFile);
    }
    let colors_opt = if has_any_color {
        Some(colors)
    } else {
        None
    };
    let t = TerrainData::new(points, colors_opt);
    proof {
        assert(t.samples_within(HEIGHT_LIMIT as int));
    }
    Ok(t)
}


/// Parses height-field text, as [`parse_fdf_bytes`] does for the
/// string's UTF-8 bytes.
pub fn parse_fdf_content(content: &str) -> (r: Result<TerrainData, LoadError>)
    ensures
        parse_result_matches(content.spec_bytes(), r),
{
    parse_fdf_bytes(content.as_bytes())
}

} // verus!
