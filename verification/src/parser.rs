//! The grammar engine: recursive-descent parsing functions over a byte
//! slice, each proved to return exactly what the corresponding rule of
//! `grammar` denotes — `Ok` with the position just past the consumed text
//! and the parsed value where the rule matches, `Err` where it does not.

use vstd::prelude::*;
use vstd::string::StringExecFns;
use vstd::pervasive::VecAdditionalExecFns;

use crate::grammar::ascii_str;
use crate::grammar::char_of;
use crate::grammar::digit_run_end;
use crate::grammar::dval;
use crate::grammar::esc_byte;
use crate::grammar::has_float_mark;
use crate::grammar::ident_cont_end;
use crate::grammar::is_digit;
use crate::grammar::is_ident_cont;
use crate::grammar::is_ident_start;
use crate::grammar::is_ws;
use crate::grammar::kw_bytes;
use crate::grammar::lemma_digit_run_end;
use crate::grammar::match_lit;
use crate::grammar::spec_bool;
use crate::grammar::spec_custom_item;
use crate::grammar::spec_data_item;
use crate::grammar::spec_digits;
use crate::grammar::spec_document;
use crate::grammar::spec_float_end;
use crate::grammar::spec_ident;
use crate::grammar::spec_integer;
use crate::grammar::spec_items;
use crate::grammar::spec_keyword;
use crate::grammar::spec_matrix;
use crate::grammar::spec_name;
use crate::grammar::spec_path;
use crate::grammar::spec_plain_run;
use crate::grammar::spec_primitive_data;
use crate::grammar::spec_primitive_item;
use crate::grammar::spec_prop;
use crate::grammar::spec_prop_list;
use crate::grammar::spec_prop_tail;
use crate::grammar::spec_properties;
use crate::grammar::spec_property_value;
use crate::grammar::spec_ref;
use crate::grammar::spec_rows;
use crate::grammar::spec_rows_tail;
use crate::grammar::spec_scalar;
use crate::grammar::spec_segments;
use crate::grammar::spec_sint;
use crate::grammar::spec_string;
use crate::grammar::spec_uint;
use crate::grammar::spec_uni_esc;
use crate::grammar::spec_uni_run;
use crate::grammar::spec_vec_elems;
use crate::grammar::spec_vec_tail;
use crate::grammar::spec_vector;
use crate::grammar::val_of;
use crate::grammar::ws_end;
use crate::types::DataItem;
use crate::types::ItemModel;
use crate::types::Name;
use crate::types::PrimitiveMatrix;
use crate::types::PrimitiveValue;
use crate::types::PrimitiveVector;
use crate::types::Ref;
use crate::types::Scope;
use crate::types::Ty;
use crate::types::ValueModel;
use crate::types::item_model;
use crate::types::items_model;
use crate::types::lemma_props_fold_update;
use crate::types::matrix_model;
use crate::types::name_model;
use crate::types::pairs_model;
use crate::types::props_fold;
use crate::types::props_model;
use crate::types::ref_model;
use crate::types::unique_keys;
use crate::types::value_model;
use crate::types::value_ty;
use crate::types::vector_model;

verus! {

broadcast use vstd::std_specs::vec::group_vec_axioms;

/// A parse failure: the byte offset it was noticed at, and the construct
/// that was expected there.
#[derive(Debug, PartialEq)]
pub struct SyntaxError {
    pub position: usize,
    pub expected: &'static str,
}

// ---------------------------------------------------------------- helpers

/// Relies on `String::push`: appends one character.
#[verifier::external_body]
fn push_char(s: &mut String, c: char)
    ensures
        final(s)@ == old(s)@ + seq![c],
{
    s.push(c);
}

/// The bytes `start..end`, read as characters.
fn ascii_string(input: &[u8], start: usize, end: usize) -> (r: String)
    requires
        start <= end <= input.len(),
    ensures
        r@ == ascii_str(input@.subrange(start as int, end as int)),
{
    let mut out = String::new();
    let mut i = start;
    while i < end
        invariant
            start <= i <= end <= input.len(),
            out@ == ascii_str(input@.subrange(start as int, i as int)),
        decreases end - i,
    {
        push_char(&mut out, input[i] as char);
        proof {
            assert(input@.subrange(start as int, i + 1) =~= input@.subrange(
                start as int,
                i as int,
            ).push(input@[i as int]));
            assert(ascii_str(input@.subrange(start as int, i + 1)) =~= ascii_str(
                input@.subrange(start as int, i as int),
            ).push(input@[i as int] as char));
        }
        i = i + 1;
    }
    proof {
        assert(input@.subrange(start as int, start as int) =~= Seq::<u8>::empty());
        assert(ascii_str(input@.subrange(start as int, start as int)) =~= Seq::<char>::empty());
    }
    out
}

fn is_ws_byte(b: u8) -> (r: bool)
    ensures
        r == is_ws(b),
{
    b == 32 || b == 9 || b == 13 || b == 10
}

fn is_ident_start_byte(b: u8) -> (r: bool)
    ensures
        r == is_ident_start(b),
{
    (97 <= b && b <= 122) || (65 <= b && b <= 90) || b == 95
}

fn is_ident_cont_byte(b: u8) -> (r: bool)
    ensures
        r == is_ident_cont(b),
{
    is_ident_start_byte(b) || (48 <= b && b <= 57)
}

/// The digit value of a byte; 16 where it is no digit.
fn dval_byte(b: u8) -> (v: u32)
    ensures
        v as int == dval(b),
{
    if 48 <= b && b <= 57 {
        (b - 48) as u32
    } else if 97 <= b && b <= 102 {
        (b - 97) as u32 + 10
    } else if 65 <= b && b <= 70 {
        (b - 65) as u32 + 10
    } else {
        16
    }
}

fn is_digit_byte(b: u8, r: u32) -> (res: bool)
    ensures
        res == is_digit(b, r),
{
    dval_byte(b) < r
}

/// Whether position `i` holds a radix-`r` digit.
fn digit_at(input: &[u8], i: usize, r: u32) -> (res: bool)
    ensures
        res == (i < input.len() && is_digit(input@[i as int], r)),
{
    i < input.len() && is_digit_byte(input[i], r)
}

fn lit2(input: &[u8], pos: usize, a: u8, b: u8) -> (r: bool)
    requires
        pos <= input.len(),
    ensures
        r == match_lit(input@, pos as int, seq![a, b]),
{
    let r = input.len() - pos >= 2 && input[pos] == a && input[pos + 1] == b;
    proof {
        if r {
            assert forall|i: int| 0 <= i < 2 implies input@[pos + i] == seq![a, b][i] by {}
        }
    }
    r
}

fn lit3(input: &[u8], pos: usize, a: u8, b: u8, c: u8) -> (r: bool)
    requires
        pos <= input.len(),
    ensures
        r == match_lit(input@, pos as int, seq![a, b, c]),
{
    let r = input.len() - pos >= 3 && input[pos] == a && input[pos + 1] == b && input[pos + 2]
        == c;
    proof {
        if r {
            assert forall|i: int| 0 <= i < 3 implies input@[pos + i] == seq![a, b, c][i] by {}
        }
    }
    r
}

fn lit4(input: &[u8], pos: usize, a: u8, b: u8, c: u8, d: u8) -> (r: bool)
    requires
        pos <= input.len(),
    ensures
        r == match_lit(input@, pos as int, seq![a, b, c, d]),
{
    let r = input.len() - pos >= 4 && input[pos] == a && input[pos + 1] == b && input[pos + 2] == c
        && input[pos + 3] == d;
    proof {
        if r {
            assert forall|i: int| 0 <= i < 4 implies input@[pos + i] == seq![a, b, c, d][i] by {}
        }
    }
    r
}

fn lit5(input: &[u8], pos: usize, a: u8, b: u8, c: u8, d: u8, e: u8) -> (r: bool)
    requires
        pos <= input.len(),
    ensures
        r == match_lit(input@, pos as int, seq![a, b, c, d, e]),
{
    let r = input.len() - pos >= 5 && input[pos] == a && input[pos + 1] == b && input[pos + 2] == c
        && input[pos + 3] == d && input[pos + 4] == e;
    proof {
        if r {
            assert forall|i: int| 0 <= i < 5 implies input@[pos + i] == seq![a, b, c, d, e][i] by {}
        }
    }
    r
}

// ---------------------------------------------------------------- whitespace

/// Consume insignificant bytes: space, tab, CR, LF.
fn space(input: &[u8], pos: usize) -> (r: usize)
    requires
        pos <= input.len(),
    ensures
        r as int == ws_end(input@, pos as int),
        pos <= r <= input.len(),
{
    let mut i = pos;
    while i < input.len() && is_ws_byte(input[i])
        invariant
            pos <= i <= input.len(),
            ws_end(input@, pos as int) == ws_end(input@, i as int),
        decreases input.len() - i,
    {
        i = i + 1;
    }
    i
}

// ---------------------------------------------------------------- identifiers

/// An identifier, read as text.
fn identifier(input: &[u8], pos: usize) -> (r: Result<(usize, String), SyntaxError>)
    requires
        pos <= input.len(),
    ensures
        match r {
            Ok((p, id)) => {
                &&& spec_ident(input@, pos as int) == Some((p as int, id@))
                &&& pos < p <= input.len()
            },
            Err(_) => spec_ident(input@, pos as int) is None,
        },
{
    if pos < input.len() && is_ident_start_byte(input[pos]) {
        let mut i = pos + 1;
        while i < input.len() && is_ident_cont_byte(input[i])
            invariant
                pos + 1 <= i <= input.len(),
                ident_cont_end(input@, pos + 1) == ident_cont_end(input@, i as int),
            decreases input.len() - i,
        {
            i = i + 1;
        }
        let id = ascii_string(input, pos, i);
        Ok((i, id))
    } else {
        Err(SyntaxError { position: pos, expected: "identifier" })
    }
}

/// A `$` or `%` name with its trailing whitespace.
fn name(input: &[u8], pos: usize) -> (r: Result<(usize, Name), SyntaxError>)
    requires
        pos <= input.len(),
    ensures
        match r {
            Ok((p, n)) => {
                &&& spec_name(input@, pos as int) == Some((p as int, name_model(n)))
                &&& pos < p <= input.len()
            },
            Err(_) => spec_name(input@, pos as int) is None,
        },
{
    if pos < input.len() && (input[pos] == 36 || input[pos] == 37) {
        let scope = if input[pos] == 36 {
            Scope::Global
        } else {
            Scope::Local
        };
        match identifier(input, pos + 1) {
            Ok((p, id)) => {
                let e = space(input, p);
                Ok((e, (scope, id)))
            },
            Err(err) => Err(err),
        }
    } else {
        Err(SyntaxError { position: pos, expected: "name" })
    }
}

// ---------------------------------------------------------------- keywords

/// A primitive-type keyword, tried in the grammar's fixed order.
fn primitive_type(input: &[u8], pos: usize) -> (r: Result<(usize, Ty), SyntaxError>)
    requires
        pos <= input.len(),
    ensures
        match r {
            Ok((p, t)) => {
                &&& spec_keyword(input@, pos as int) == Some((p as int, t))
                &&& pos < p <= input.len()
            },
            Err(_) => spec_keyword(input@, pos as int) is None,
        },
{
    if lit4(input, pos, 98, 111, 111, 108) {
        Ok((pos + 4, Ty::Bool))
    } else if lit2(input, pos, 117, 56) {
        Ok((pos + 2, Ty::U8))
    } else if lit3(input, pos, 117, 49, 54) {
        Ok((pos + 3, Ty::U16))
    } else if lit3(input, pos, 117, 51, 50) {
        Ok((pos + 3, Ty::U32))
    } else if lit3(input, pos, 117, 54, 52) {
        Ok((pos + 3, Ty::U64))
    } else if lit2(input, pos, 105, 56) {
        Ok((pos + 2, Ty::I8))
    } else if lit3(input, pos, 105, 49, 54) {
        Ok((pos + 3, Ty::I16))
    } else if lit3(input, pos, 105, 51, 50) {
        Ok((pos + 3, Ty::I32))
    } else if lit3(input, pos, 105, 54, 52) {
        Ok((pos + 3, Ty::I64))
    } else if lit3(input, pos, 102, 51, 50) {
        Ok((pos + 3, Ty::F32))
    } else if lit3(input, pos, 102, 54, 52) {
        Ok((pos + 3, Ty::F64))
    } else if lit3(input, pos, 115, 116, 114) {
        Ok((pos + 3, Ty::Str))
    } else if lit3(input, pos, 114, 101, 102) {
        Ok((pos + 3, Ty::Ref))
    } else if lit4(input, pos, 116, 121, 112, 101) {
        Ok((pos + 4, Ty::Type))
    } else {
        Err(SyntaxError { position: pos, expected: "primitive type keyword" })
    }
}

/// `true` or `false`.
fn parse_bool(input: &[u8], pos: usize) -> (r: Result<(usize, bool), SyntaxError>)
    requires
        pos <= input.len(),
    ensures
        match r {
            Ok((p, b)) => {
                &&& spec_bool(input@, pos as int) == Some((p as int, b))
                &&& pos < p <= input.len()
            },
            Err(_) => spec_bool(input@, pos as int) is None,
        },
{
    if lit4(input, pos, 116, 114, 117, 101) {
        Ok((pos + 4, true))
    } else if lit5(input, pos, 102, 97, 108, 115, 101) {
        Ok((pos + 5, false))
    } else {
        Err(SyntaxError { position: pos, expected: "boolean" })
    }
}

// ---------------------------------------------------------------- integers

/// An unsigned integer literal: the digits with underscores removed, and
/// the radix.
fn integer(input: &[u8], pos: usize) -> (r: Result<(usize, Vec<u8>, u32), SyntaxError>)
    requires
        pos <= input.len(),
    ensures
        match r {
            Ok((p, ds, radix)) => {
                &&& spec_integer(input@, pos as int) == Some((p as int, ds@, radix))
                &&& pos < p <= input.len()
                &&& (radix == 2 || radix == 8 || radix == 10 || radix == 16)
            },
            Err(_) => spec_integer(input@, pos as int) is None,
        },
{
    if lit2(input, pos, 48, 120) && digit_at(input, pos + 2, 16) {
        let (p, ds) = digits(input, pos + 2, 16);
        Ok((p, ds, 16))
    } else if lit2(input, pos, 48, 111) && digit_at(input, pos + 2, 8) {
        let (p, ds) = digits(input, pos + 2, 8);
        Ok((p, ds, 8))
    } else if lit2(input, pos, 48, 98) && digit_at(input, pos + 2, 2) {
        let (p, ds) = digits(input, pos + 2, 2);
        Ok((p, ds, 2))
    } else if digit_at(input, pos, 10) {
        let (p, ds) = digits(input, pos, 10);
        Ok((p, ds, 10))
    } else {
        Err(SyntaxError { position: pos, expected: "integer" })
    }
}

/// Whether another digit group byte follows at `i`.
fn more_digits(input: &[u8], i: usize, r: u32) -> (res: bool)
    requires
        i <= input.len(),
    ensures
        res == (
        (i < input.len() && is_digit(input@[i as int], r)) || (i + 1 < input.len()
            && input@[i as int] == 95 && is_digit(input@[i + 1], r))),
{
    digit_at(input, i, r) || (i < input.len() && input[i] == 95 && digit_at(input, i + 1, r))
}

/// Digit groups separated by underscores, the underscores removed.
fn digits(input: &[u8], pos: usize, r: u32) -> (res: (usize, Vec<u8>))
    requires
        pos <= input.len(),
    ensures
        spec_digits(input@, pos as int, r) == (res.0 as int, res.1@),
        pos <= res.0 <= input.len(),
        pos < input.len() && is_digit(input@[pos as int], r) ==> pos < res.0,
{
    let mut i = pos;
    let mut out: Vec<u8> = Vec::new();
    while more_digits(input, i, r)
        invariant
            pos <= i <= input.len(),
            spec_digits(input@, pos as int, r).0 == spec_digits(input@, i as int, r).0,
            spec_digits(input@, pos as int, r).1 == out@ + spec_digits(input@, i as int, r).1,
        decreases input.len() - i,
    {
        if is_digit_byte(input[i], r) {
            let ghost prev = out@;
            out.push(input[i]);
            proof {
                assert(spec_digits(input@, i as int, r).1 =~= seq![input@[i as int]] + spec_digits(
                    input@,
                    i + 1,
                    r,
                ).1);
                assert(out@ + spec_digits(input@, i + 1, r).1 =~= prev + spec_digits(
                    input@,
                    i as int,
                    r,
                ).1);
            }
        } else {
            proof {
                assert(spec_digits(input@, i as int, r) == spec_digits(input@, i + 1, r));
            }
        }
        i = i + 1;
    }
    proof {
        assert(spec_digits(input@, i as int, r) == (i as int, Seq::<u8>::empty()));
        assert(out@ + Seq::<u8>::empty() =~= out@);
    }
    (i, out)
}


// ---------------------------------------------------------------- conversion

/// A digit string's value never shrinks as digits are appended.
proof fn lemma_val_of_nonneg(ds: Seq<u8>, r: u32)
    ensures
        val_of(ds, r) >= 0,
    decreases ds.len(),
{
    if ds.len() > 0 {
        lemma_val_of_nonneg(ds.drop_last(), r);
        vstd::arithmetic::mul::lemma_mul_nonnegative(val_of(ds.drop_last(), r), r as int);
    }
}

/// A prefix of the digits denotes no more than the whole.
proof fn lemma_val_of_prefix(ds: Seq<u8>, r: u32, i: int)
    requires
        0 <= i <= ds.len(),
        r >= 1,
    ensures
        val_of(ds.subrange(0, i), r) <= val_of(ds, r),
    decreases ds.len(),
{
    if i == ds.len() {
        assert(ds.subrange(0, i) =~= ds);
    } else {
        lemma_val_of_nonneg(ds.drop_last(), r);
        vstd::arithmetic::mul::lemma_mul_inequality(1, r as int, val_of(ds.drop_last(), r));
        vstd::arithmetic::mul::lemma_mul_is_commutative(val_of(ds.drop_last(), r), r as int);
        assert(ds.subrange(0, i) =~= ds.drop_last().subrange(0, i));
        lemma_val_of_prefix(ds.drop_last(), r, i);
    }
}

/// An unsigned literal converted to a value at most `max`; a literal
/// denoting more is a conversion failure.
fn parse_uint_max(input: &[u8], pos: usize, max: u64) -> (r: Result<(usize, u64), SyntaxError>)
    requires
        pos <= input.len(),
    ensures
        match r {
            Ok((p, v)) => {
                &&& spec_uint(input@, pos as int, max as int) == Some((p as int, v as int))
                &&& pos < p <= input.len()
                &&& v <= max
            },
            Err(_) => spec_uint(input@, pos as int, max as int) is None,
        },
{
    let (p, ds, radix) = match integer(input, pos) {
        Ok(x) => x,
        Err(e) => {
            return Err(e);
        },
    };
    let mut acc: u64 = 0;
    let mut i: usize = 0;
    while i < ds.len()
        invariant
            0 <= i <= ds.len(),
            acc as int == val_of(ds@.subrange(0, i as int), radix),
            acc <= max,
            radix == 2 || radix == 8 || radix == 10 || radix == 16,
            spec_integer(input@, pos as int) == Some((p as int, ds@, radix)),
            pos < p <= input.len(),
        decreases ds.len() - i,
    {
        let d = dval_byte(ds[i]) as u64;
        proof {
            assert(ds@.subrange(0, i + 1).drop_last() =~= ds@.subrange(0, i as int));
            assert(ds@.subrange(0, i + 1).last() == ds@[i as int]);
            assert(val_of(ds@.subrange(0, i + 1), radix) == acc * radix + dval(ds@[i as int]));
            vstd::arithmetic::mul::lemma_mul_nonnegative(acc as int, radix as int);
        }
        let next = match acc.checked_mul(radix as u64) {
            Some(m) => m.checked_add(d),
            None => None,
        };
        match next {
            Some(n) if n <= max => {
                acc = n;
            },
            _ => {
                proof {
                    assert(dval(ds@[i as int]) >= 0);
                    assert(val_of(ds@.subrange(0, i + 1), radix) > max as int);
                    lemma_val_of_prefix(ds@, radix, i + 1);
                    assert(val_of(ds@, radix) > max as int);
                }
                return Err(SyntaxError { position: pos, expected: "integer within range" });
            },
        }
        i = i + 1;
    }
    proof {
        assert(ds@.subrange(0, ds@.len() as int) =~= ds@);
    }
    Ok((p, acc))
}

/// A signed literal: optional `-`, an unsigned literal with magnitude at
/// most `max`, negated after conversion.
fn parse_sint_max(input: &[u8], pos: usize, max: u64) -> (r: Result<(usize, i64), SyntaxError>)
    requires
        pos <= input.len(),
        max <= 0x7fff_ffff_ffff_ffff,
    ensures
        match r {
            Ok((p, v)) => {
                &&& spec_sint(input@, pos as int, max as int) == Some((p as int, v as int))
                &&& pos < p <= input.len()
                &&& -(max as int) <= v as int <= max as int
            },
            Err(_) => spec_sint(input@, pos as int, max as int) is None,
        },
{
    if pos < input.len() && input[pos] == 45 {
        match parse_uint_max(input, pos + 1, max) {
            Ok((p, m)) => Ok((p, -(m as i64))),
            Err(e) => Err(e),
        }
    } else {
        match parse_uint_max(input, pos, max) {
            Ok((p, m)) => Ok((p, m as i64)),
            Err(e) => Err(e),
        }
    }
}

fn parse_u8(input: &[u8], pos: usize) -> (r: Result<(usize, u8), SyntaxError>)
    requires
        pos <= input.len(),
    ensures
        match r {
            Ok((p, v)) => spec_uint(input@, pos as int, 0xff) == Some((p as int, v as int)) && pos
                < p <= input.len(),
            Err(_) => spec_uint(input@, pos as int, 0xff) is None,
        },
{
    match parse_uint_max(input, pos, 0xff) {
        Ok((p, v)) => Ok((p, v as u8)),
        Err(e) => Err(e),
    }
}

fn parse_u16(input: &[u8], pos: usize) -> (r: Result<(usize, u16), SyntaxError>)
    requires
        pos <= input.len(),
    ensures
        match r {
            Ok((p, v)) => spec_uint(input@, pos as int, 0xffff) == Some((p as int, v as int))
                && pos < p <= input.len(),
            Err(_) => spec_uint(input@, pos as int, 0xffff) is None,
        },
{
    match parse_uint_max(input, pos, 0xffff) {
        Ok((p, v)) => Ok((p, v as u16)),
        Err(e) => Err(e),
    }
}

fn parse_u32(input: &[u8], pos: usize) -> (r: Result<(usize, u32), SyntaxError>)
    requires
        pos <= input.len(),
    ensures
        match r {
            Ok((p, v)) => spec_uint(input@, pos as int, 0xffff_ffff) == Some((p as int, v as int))
                && pos < p <= input.len(),
            Err(_) => spec_uint(input@, pos as int, 0xffff_ffff) is None,
        },
{
    match parse_uint_max(input, pos, 0xffff_ffff) {
        Ok((p, v)) => Ok((p, v as u32)),
        Err(e) => Err(e),
    }
}

fn parse_u64(input: &[u8], pos: usize) -> (r: Result<(usize, u64), SyntaxError>)
    requires
        pos <= input.len(),
    ensures
        match r {
            Ok((p, v)) => spec_uint(input@, pos as int, 0xffff_ffff_ffff_ffff) == Some(
                (p as int, v as int),
            ) && pos < p <= input.len(),
            Err(_) => spec_uint(input@, pos as int, 0xffff_ffff_ffff_ffff) is None,
        },
{
    parse_uint_max(input, pos, 0xffff_ffff_ffff_ffff)
}

fn parse_i8(input: &[u8], pos: usize) -> (r: Result<(usize, i8), SyntaxError>)
    requires
        pos <= input.len(),
    ensures
        match r {
            Ok((p, v)) => spec_sint(input@, pos as int, 0x7f) == Some((p as int, v as int)) && pos
                < p <= input.len(),
            Err(_) => spec_sint(input@, pos as int, 0x7f) is None,
        },
{
    match parse_sint_max(input, pos, 0x7f) {
        Ok((p, v)) => Ok((p, v as i8)),
        Err(e) => Err(e),
    }
}

fn parse_i16(input: &[u8], pos: usize) -> (r: Result<(usize, i16), SyntaxError>)
    requires
        pos <= input.len(),
    ensures
        match r {
            Ok((p, v)) => spec_sint(input@, pos as int, 0x7fff) == Some((p as int, v as int))
                && pos < p <= input.len(),
            Err(_) => spec_sint(input@, pos as int, 0x7fff) is None,
        },
{
    match parse_sint_max(input, pos, 0x7fff) {
        Ok((p, v)) => Ok((p, v as i16)),
        Err(e) => Err(e),
    }
}

fn parse_i32(input: &[u8], pos: usize) -> (r: Result<(usize, i32), SyntaxError>)
    requires
        pos <= input.len(),
    ensures
        match r {
            Ok((p, v)) => spec_sint(input@, pos as int, 0x7fff_ffff) == Some((p as int, v as int))
                && pos < p <= input.len(),
            Err(_) => spec_sint(input@, pos as int, 0x7fff_ffff) is None,
        },
{
    match parse_sint_max(input, pos, 0x7fff_ffff) {
        Ok((p, v)) => Ok((p, v as i32)),
        Err(e) => Err(e),
    }
}

fn parse_i64(input: &[u8], pos: usize) -> (r: Result<(usize, i64), SyntaxError>)
    requires
        pos <= input.len(),
    ensures
        match r {
            Ok((p, v)) => spec_sint(input@, pos as int, 0x7fff_ffff_ffff_ffff) == Some(
                (p as int, v as int),
            ) && pos < p <= input.len(),
            Err(_) => spec_sint(input@, pos as int, 0x7fff_ffff_ffff_ffff) is None,
        },
{
    parse_sint_max(input, pos, 0x7fff_ffff_ffff_ffff)
}

// ---------------------------------------------------------------- floats

/// Consume a radix-`r` digit run.
fn digit_run(input: &[u8], pos: usize, r: u32) -> (res: usize)
    requires
        pos <= input.len(),
    ensures
        res as int == digit_run_end(input@, pos as int, r),
        pos <= res <= input.len(),
{
    let mut i = pos;
    while i < input.len() && is_digit_byte(input[i], r)
        invariant
            pos <= i <= input.len(),
            digit_run_end(input@, pos as int, r) == digit_run_end(input@, i as int, r),
        decreases input.len() - i,
    {
        i = i + 1;
    }
    i
}

/// A floating-point literal, kept as its text.
fn float_number(input: &[u8], pos: usize) -> (r: Result<(usize, String), SyntaxError>)
    requires
        pos <= input.len(),
    ensures
        match r {
            Ok((p, txt)) => {
                &&& spec_float_end(input@, pos as int) == Some(p as int)
                &&& txt@ == ascii_str(input@.subrange(pos as int, p as int))
                &&& pos < p <= input.len()
            },
            Err(_) => spec_float_end(input@, pos as int) is None,
        },
{
    let p1 = if pos < input.len() && input[pos] == 45 {
        pos + 1
    } else {
        pos
    };
    if digit_at(input, p1, 10) {
        let p2 = if input[p1] == 48 {
            p1 + 1
        } else {
            digit_run(input, p1 + 1, 10)
        };
        let p3 = if p2 < input.len() && input.len() - p2 >= 2 && input[p2] == 46 && digit_at(
            input,
            p2 + 1,
            10,
        ) {
            digit_run(input, p2 + 1, 10)
        } else {
            p2
        };
        let p4 = if p3 < input.len() && (input[p3] == 101 || input[p3] == 69) {
            let q = if input.len() - p3 >= 2 && (input[p3 + 1] == 43 || input[p3 + 1] == 45) {
                p3 + 2
            } else {
                p3 + 1
            };
            if digit_at(input, q, 10) {
                digit_run(input, q, 10)
            } else {
                p3
            }
        } else {
            p3
        };
        let txt = ascii_string(input, pos, p4);
        Ok((p4, txt))
    } else {
        Err(SyntaxError { position: pos, expected: "number" })
    }
}


// ---------------------------------------------------------------- strings

/// Relies on `String::from_utf8`: succeeds exactly on valid UTF-8 and
/// decodes it.
#[verifier::external_body]
fn string_from_utf8(bytes: Vec<u8>) -> (r: Option<String>)
    ensures
        match r {
            Some(t) => vstd::utf8::valid_utf8(bytes@) && t@ == vstd::utf8::decode_utf8(bytes@),
            None => !vstd::utf8::valid_utf8(bytes@),
        },
{
    String::from_utf8(bytes).ok()
}

/// Relies on `char::from_u32`: the character of a Unicode scalar value,
/// and `None` (here: the replacement character) on anything else.
#[verifier::external_body]
fn char_from_code(code: u32) -> (c: char)
    ensures
        c == char_of(code),
{
    char::from_u32(code).unwrap_or('\u{FFFD}')
}

fn is_esc_byte(b: u8) -> (r: bool)
    ensures
        r == (esc_byte(b) is Some),
{
    b == 92 || b == 34 || b == 48 || b == 110 || b == 114 || b == 116
}

fn esc_val(b: u8) -> (r: u8)
    requires
        esc_byte(b) is Some,
    ensures
        Some(r) == esc_byte(b),
{
    if b == 92 {
        92
    } else if b == 34 {
        34
    } else if b == 48 {
        0
    } else if b == 110 {
        10
    } else if b == 114 {
        13
    } else {
        9
    }
}

/// Whether a plain string byte or single-character escape follows at `i`.
fn more_plain(input: &[u8], i: usize) -> (res: bool)
    requires
        i <= input.len(),
    ensures
        res == (
        (i < input.len() && input@[i as int] != 92 && input@[i as int] != 34) || (i + 1
            < input.len() && input@[i as int] == 92 && esc_byte(input@[i + 1]) is Some)),
{
    (i < input.len() && input[i] != 92 && input[i] != 34) || (i < input.len() && input.len() - i
        >= 2 && input[i] == 92 && is_esc_byte(input[i + 1]))
}

/// A run of plain bytes and single-character escapes, the escapes
/// resolved to the bytes they denote.
fn plain_run(input: &[u8], pos: usize) -> (res: (usize, Vec<u8>))
    requires
        pos <= input.len(),
    ensures
        spec_plain_run(input@, pos as int) == (res.0 as int, res.1@),
        pos <= res.0 <= input.len(),
{
    let mut i = pos;
    let mut out: Vec<u8> = Vec::new();
    while more_plain(input, i)
        invariant
            pos <= i <= input.len(),
            spec_plain_run(input@, pos as int).0 == spec_plain_run(input@, i as int).0,
            spec_plain_run(input@, pos as int).1 == out@ + spec_plain_run(input@, i as int).1,
        decreases input.len() - i,
    {
        if input[i] != 92 && input[i] != 34 {
            let ghost prev = out@;
            out.push(input[i]);
            proof {
                assert(spec_plain_run(input@, i as int).1 =~= seq![input@[i as int]]
                    + spec_plain_run(input@, i + 1).1);
                assert(out@ + spec_plain_run(input@, i + 1).1 =~= prev + spec_plain_run(
                    input@,
                    i as int,
                ).1);
            }
            i = i + 1;
        } else {
            let eb = esc_val(input[i + 1]);
            let ghost prev = out@;
            out.push(eb);
            proof {
                assert(spec_plain_run(input@, i as int).1 =~= seq![esc_byte(input@[i + 1])->Some_0]
                    + spec_plain_run(input@, i + 2).1);
                assert(out@ + spec_plain_run(input@, i + 2).1 =~= prev + spec_plain_run(
                    input@,
                    i as int,
                ).1);
            }
            i = i + 2;
        }
    }
    proof {
        assert(spec_plain_run(input@, i as int) == (i as int, Seq::<u8>::empty()));
        assert(out@ + Seq::<u8>::empty() =~= out@);
    }
    (i, out)
}

/// The largest value six hex digits can reach, by digit count.
spec fn hex_bound(n: int) -> int {
    if n <= 0 {
        1
    } else if n == 1 {
        16
    } else if n == 2 {
        256
    } else if n == 3 {
        4096
    } else if n == 4 {
        0x10000
    } else if n == 5 {
        0x100000
    } else {
        0x1000000
    }
}

/// One hex (`\xHH`) or unicode (`\u{H..}`) escape.
fn uni_esc(input: &[u8], pos: usize) -> (r: Option<(usize, char)>)
    requires
        pos <= input.len(),
    ensures
        match r {
            Some((p, c)) => {
                &&& spec_uni_esc(input@, pos as int) == Some((p as int, c))
                &&& pos < p <= input.len()
            },
            None => spec_uni_esc(input@, pos as int) is None,
        },
{
    if lit2(input, pos, 92, 120) && digit_at(input, pos + 2, 16) && digit_at(input, pos + 3, 16) {
        let code = dval_byte(input[pos + 2]) * 16 + dval_byte(input[pos + 3]);
        Some((pos + 4, char_from_code(code)))
    } else if lit3(input, pos, 92, 117, 123) {
        let p3 = pos + 3;
        let run = digit_run(input, p3, 16);
        let e = if run - p3 > 6 {
            p3 + 6
        } else {
            run
        };
        proof {
            lemma_digit_run_end(input@, p3 as int, 16);
        }
        if e > p3 && e < input.len() && input[e] == 125 {
            let mut acc: u32 = 0;
            let mut j = p3;
            while j < e
                invariant
                    p3 <= j <= e <= input.len(),
                    e - p3 <= 6,
                    acc as int == val_of(input@.subrange(p3 as int, j as int), 16),
                    acc < hex_bound(j - p3),
                    forall|k: int| p3 <= k < e ==> is_digit(input@[k], 16),
                decreases e - j,
            {
                proof {
                    assert(input@.subrange(p3 as int, j + 1).drop_last() =~= input@.subrange(
                        p3 as int,
                        j as int,
                    ));
                    assert(input@.subrange(p3 as int, j + 1).last() == input@[j as int]);
                }
                acc = acc * 16 + dval_byte(input[j]);
                j = j + 1;
            }
            Some((e + 1, char_from_code(acc)))
        } else {
            None
        }
    } else {
        None
    }
}

/// One or more hex/unicode escapes, collected as text.
fn uni_run(input: &[u8], pos: usize) -> (r: Option<(usize, String)>)
    requires
        pos <= input.len(),
    ensures
        match r {
            Some((p, st)) => {
                &&& spec_uni_run(input@, pos as int) == Some((p as int, st@))
                &&& pos < p <= input.len()
            },
            None => spec_uni_run(input@, pos as int) is None,
        },
{
    match uni_esc(input, pos) {
        None => None,
        Some((p1, c1)) => {
            let mut out = String::new();
            push_char(&mut out, c1);
            let mut i = p1;
            let mut done = false;
            proof {
                assert(Seq::<char>::empty() + seq![c1] =~= seq![c1]);
            }
            while !done
                invariant
                    pos < i <= input.len(),
                    done ==> spec_uni_esc(input@, i as int) is None,
                    match spec_uni_run(input@, i as int) {
                        Some((e, cs)) => spec_uni_run(input@, pos as int) == Some((e, out@ + cs)),
                        None => spec_uni_run(input@, pos as int) == Some((i as int, out@)),
                    },
                decreases input.len() - i + (if done {
                    0int
                } else {
                    1int
                }),
            {
                match uni_esc(input, i) {
                    Some((p2, c)) => {
                        let ghost prev = out@;
                        push_char(&mut out, c);
                        proof {
                            assert(match spec_uni_run(input@, p2 as int) {
                                Some((e2, cs2)) => spec_uni_run(input@, i as int) == Some(
                                    (e2, seq![c] + cs2),
                                ),
                                None => spec_uni_run(input@, i as int) == Some((p2 as int, seq![c])),
                            });
                            assert(forall|cs2: Seq<char>|
                                prev + (seq![c] + cs2) =~= (prev + seq![c]) + cs2);
                            assert(prev + seq![c] =~= out@);
                        }
                        i = p2;
                    },
                    None => {
                        done = true;
                    },
                }
            }
            Some((i, out))
        },
    }
}

/// A string literal: `"`, segments of plain runs and escape runs, `"`.
fn string(input: &[u8], pos: usize) -> (r: Result<(usize, String), SyntaxError>)
    requires
        pos <= input.len(),
    ensures
        match r {
            Ok((p, st)) => {
                &&& spec_string(input@, pos as int) == Some((p as int, st@))
                &&& pos < p <= input.len()
            },
            Err(_) => spec_string(input@, pos as int) is None,
        },
{
    if pos < input.len() && input[pos] == 34 {
        let mut i = pos + 1;
        let mut out = String::new();
        let mut done = false;
        proof {
            assert(Seq::<char>::empty() + spec_segments(input@, pos + 1).1 =~= spec_segments(
                input@,
                pos + 1,
            ).1);
        }
        while !done
            invariant
                pos + 1 <= i <= input.len(),
                spec_segments(input@, pos + 1).0 == spec_segments(input@, i as int).0,
                spec_segments(input@, pos + 1).1 == out@ + spec_segments(input@, i as int).1,
                done ==> spec_segments(input@, i as int) == (i as int, Seq::<char>::empty()),
            decreases input.len() - i + (if done {
                0int
            } else {
                1int
            }),
        {
            let (pe, bs) = plain_run(input, i);
            if pe > i {
                let ghost prev = out@;
                match string_from_utf8(bs) {
                    Some(st) => {
                        out.append(st.as_str());
                        proof {
                            assert(spec_segments(input@, i as int).1 =~= vstd::utf8::decode_utf8(
                                bs@,
                            ) + spec_segments(input@, pe as int).1);
                            assert(out@ + spec_segments(input@, pe as int).1 =~= prev
                                + spec_segments(input@, i as int).1);
                        }
                        i = pe;
                    },
                    None => {
                        done = true;
                        proof {
                            assert(spec_segments(input@, i as int) == (
                                i as int,
                                Seq::<char>::empty(),
                            ));
                        }
                    },
                }
            } else {
                match uni_run(input, i) {
                    Some((p2, st)) => {
                        let ghost prev = out@;
                        out.append(st.as_str());
                        proof {
                            assert(spec_segments(input@, i as int).1 =~= st@ + spec_segments(
                                input@,
                                p2 as int,
                            ).1);
                            assert(out@ + spec_segments(input@, p2 as int).1 =~= prev
                                + spec_segments(input@, i as int).1);
                        }
                        i = p2;
                    },
                    None => {
                        done = true;
                    },
                }
            }
        }
        proof {
            assert(out@ + Seq::<char>::empty() =~= out@);
        }
        if i < input.len() && input[i] == 34 {
            Ok((i + 1, out))
        } else {
            Err(SyntaxError { position: i, expected: "string" })
        }
    } else {
        Err(SyntaxError { position: pos, expected: "string" })
    }
}


// ---------------------------------------------------------------- references

/// A reference: a name and its `%member` path.
fn reference(input: &[u8], pos: usize) -> (r: Result<(usize, Ref), SyntaxError>)
    requires
        pos <= input.len(),
    ensures
        match r {
            Ok((p, rf)) => {
                &&& spec_ref(input@, pos as int) == Some((p as int, ref_model(rf)))
                &&& pos < p <= input.len()
            },
            Err(_) => spec_ref(input@, pos as int) is None,
        },
{
    match name(input, pos) {
        Err(e) => Err(e),
        Ok((p, nm)) => {
            let mut i = p;
            let mut path: Vec<String> = Vec::new();
            let mut done = false;
            proof {
                assert(path@.map_values(|s: String| s@) =~= Seq::<Seq<char>>::empty());
                assert(Seq::<Seq<char>>::empty() + spec_path(input@, p as int).1 =~= spec_path(
                    input@,
                    p as int,
                ).1);
            }
            while !done
                invariant
                    pos < i <= input.len(),
                    spec_path(input@, p as int).0 == spec_path(input@, i as int).0,
                    spec_path(input@, p as int).1 == path@.map_values(|s: String| s@) + spec_path(
                        input@,
                        i as int,
                    ).1,
                    done ==> spec_path(input@, i as int) == (
                        i as int,
                        Seq::<Seq<char>>::empty(),
                    ),
                decreases input.len() - i + (if done {
                    0int
                } else {
                    1int
                }),
            {
                if i < input.len() && input[i] == 37 {
                    match identifier(input, i + 1) {
                        Ok((q, id)) => {
                            let q2 = space(input, q);
                            let ghost prev = path@.map_values(|s: String| s@);
                            let ghost gid = id@;
                            path.push(id);
                            proof {
                                assert(spec_path(input@, i as int).1 =~= seq![gid] + spec_path(
                                    input@,
                                    q2 as int,
                                ).1);
                                assert(path@.map_values(|s: String| s@) =~= prev.push(gid));
                                assert(path@.map_values(|s: String| s@) + spec_path(
                                    input@,
                                    q2 as int,
                                ).1 =~= prev + spec_path(input@, i as int).1);
                            }
                            i = q2;
                        },
                        Err(_) => {
                            done = true;
                        },
                    }
                } else {
                    done = true;
                }
            }
            proof {
                assert(path@.map_values(|s: String| s@) + Seq::<Seq<char>>::empty() =~= path@
                    .map_values(|s: String| s@));
            }
            Ok((i, Ref { name: nm, path }))
        },
    }
}

// ---------------------------------------------------------------- scalars

/// One scalar of the given type: the type-directed dispatch.
fn primitive_value(t: Ty, input: &[u8], pos: usize) -> (r: Result<
    (usize, PrimitiveValue),
    SyntaxError,
>)
    requires
        pos <= input.len(),
    ensures
        match r {
            Ok((p, v)) => {
                &&& spec_scalar(t, input@, pos as int) == Some((p as int, value_model(v)))
                &&& value_ty(value_model(v)) == t
                &&& pos < p <= input.len()
            },
            Err(_) => spec_scalar(t, input@, pos as int) is None,
        },
{
    match t {
        Ty::Bool => match parse_bool(input, pos) {
            Ok((p, b)) => Ok((p, PrimitiveValue::Bool(b))),
            Err(e) => Err(e),
        },
        Ty::U8 => match parse_u8(input, pos) {
            Ok((p, v)) => Ok((p, PrimitiveValue::U8(v))),
            Err(e) => Err(e),
        },
        Ty::U16 => match parse_u16(input, pos) {
            Ok((p, v)) => Ok((p, PrimitiveValue::U16(v))),
            Err(e) => Err(e),
        },
        Ty::U32 => match parse_u32(input, pos) {
            Ok((p, v)) => Ok((p, PrimitiveValue::U32(v))),
            Err(e) => Err(e),
        },
        Ty::U64 => match parse_u64(input, pos) {
            Ok((p, v)) => Ok((p, PrimitiveValue::U64(v))),
            Err(e) => Err(e),
        },
        Ty::I8 => match parse_i8(input, pos) {
            Ok((p, v)) => Ok((p, PrimitiveValue::I8(v))),
            Err(e) => Err(e),
        },
        Ty::I16 => match parse_i16(input, pos) {
            Ok((p, v)) => Ok((p, PrimitiveValue::I16(v))),
            Err(e) => Err(e),
        },
        Ty::I32 => match parse_i32(input, pos) {
            Ok((p, v)) => Ok((p, PrimitiveValue::I32(v))),
            Err(e) => Err(e),
        },
        Ty::I64 => match parse_i64(input, pos) {
            Ok((p, v)) => Ok((p, PrimitiveValue::I64(v))),
            Err(e) => Err(e),
        },
        Ty::F32 => match float_number(input, pos) {
            Ok((p, txt)) => Ok((p, PrimitiveValue::F32(txt))),
            Err(e) => Err(e),
        },
        Ty::F64 => match float_number(input, pos) {
            Ok((p, txt)) => Ok((p, PrimitiveValue::F64(txt))),
            Err(e) => Err(e),
        },
        Ty::Str => match string(input, pos) {
            Ok((p, st)) => Ok((p, PrimitiveValue::Str(st))),
            Err(e) => Err(e),
        },
        Ty::Ref => match reference(input, pos) {
            Ok((p, rf)) => Ok((p, PrimitiveValue::Ref(rf))),
            Err(e) => Err(e),
        },
        Ty::Type => match primitive_type(input, pos) {
            Ok((p, t2)) => {
                let txt = ascii_string(input, pos, p);
                proof {
                    assert(match_lit(input@, pos as int, kw_bytes(t2)) && p as int == pos
                        + kw_bytes(t2).len());
                    assert(input@.subrange(pos as int, p as int) =~= kw_bytes(t2));
                }
                Ok((p, PrimitiveValue::Type(txt)))
            },
            Err(e) => Err(e),
        },
    }
}

// ---------------------------------------------------------------- vectors

/// An empty vector of the given type.
fn vector_new(t: Ty) -> (v: PrimitiveVector)
    ensures
        vector_model(v).0 == t,
        vector_model(v).1 =~= Seq::<ValueModel>::empty(),
{
    match t {
        Ty::Bool => PrimitiveVector::Bool(Vec::new()),
        Ty::I8 => PrimitiveVector::I8(Vec::new()),
        Ty::I16 => PrimitiveVector::I16(Vec::new()),
        Ty::I32 => PrimitiveVector::I32(Vec::new()),
        Ty::I64 => PrimitiveVector::I64(Vec::new()),
        Ty::U8 => PrimitiveVector::U8(Vec::new()),
        Ty::U16 => PrimitiveVector::U16(Vec::new()),
        Ty::U32 => PrimitiveVector::U32(Vec::new()),
        Ty::U64 => PrimitiveVector::U64(Vec::new()),
        Ty::F32 => PrimitiveVector::F32(Vec::new()),
        Ty::F64 => PrimitiveVector::F64(Vec::new()),
        Ty::Str => PrimitiveVector::Str(Vec::new()),
        Ty::Ref => PrimitiveVector::Ref(Vec::new()),
        Ty::Type => PrimitiveVector::Type(Vec::new()),
    }
}

/// Append one scalar of the vector's own type.
fn vector_push(v: PrimitiveVector, x: PrimitiveValue) -> (r: PrimitiveVector)
    requires
        vector_model(v).0 == value_ty(value_model(x)),
    ensures
        vector_model(r).0 == vector_model(v).0,
        vector_model(r).1 =~= vector_model(v).1.push(value_model(x)),
{
    let ghost gv = v;
    let ghost gx = x;
    let r = match (v, x) {
        (PrimitiveVector::Bool(mut xs), PrimitiveValue::Bool(b)) => {
            xs.push(b);
            PrimitiveVector::Bool(xs)
        },
        (PrimitiveVector::I8(mut xs), PrimitiveValue::I8(b)) => {
            xs.push(b);
            PrimitiveVector::I8(xs)
        },
        (PrimitiveVector::I16(mut xs), PrimitiveValue::I16(b)) => {
            xs.push(b);
            PrimitiveVector::I16(xs)
        },
        (PrimitiveVector::I32(mut xs), PrimitiveValue::I32(b)) => {
            xs.push(b);
            PrimitiveVector::I32(xs)
        },
        (PrimitiveVector::I64(mut xs), PrimitiveValue::I64(b)) => {
            xs.push(b);
            PrimitiveVector::I64(xs)
        },
        (PrimitiveVector::U8(mut xs), PrimitiveValue::U8(b)) => {
            xs.push(b);
            PrimitiveVector::U8(xs)
        },
        (PrimitiveVector::U16(mut xs), PrimitiveValue::U16(b)) => {
            xs.push(b);
            PrimitiveVector::U16(xs)
        },
        (PrimitiveVector::U32(mut xs), PrimitiveValue::U32(b)) => {
            xs.push(b);
            PrimitiveVector::U32(xs)
        },
        (PrimitiveVector::U64(mut xs), PrimitiveValue::U64(b)) => {
            xs.push(b);
            PrimitiveVector::U64(xs)
        },
        (PrimitiveVector::F32(mut xs), PrimitiveValue::F32(b)) => {
            xs.push(b);
            PrimitiveVector::F32(xs)
        },
        (PrimitiveVector::F64(mut xs), PrimitiveValue::F64(b)) => {
            xs.push(b);
            PrimitiveVector::F64(xs)
        },
        (PrimitiveVector::Str(mut xs), PrimitiveValue::Str(b)) => {
            xs.push(b);
            PrimitiveVector::Str(xs)
        },
        (PrimitiveVector::Ref(mut xs), PrimitiveValue::Ref(b)) => {
            xs.push(b);
            PrimitiveVector::Ref(xs)
        },
        (PrimitiveVector::Type(mut xs), PrimitiveValue::Type(b)) => {
            xs.push(b);
            PrimitiveVector::Type(xs)
        },
        _ => vstd::pervasive::unreached(),
    };
    proof {
        assert(vector_model(r).1 =~= vector_model(gv).1.push(value_model(gx)));
    }
    r
}

/// An empty matrix of the given type.
fn matrix_new(t: Ty) -> (m: PrimitiveMatrix)
    ensures
        matrix_model(m).0 == t,
        matrix_model(m).1 =~= Seq::<Seq<ValueModel>>::empty(),
{
    match t {
        Ty::Bool => PrimitiveMatrix::Bool(Vec::new()),
        Ty::I8 => PrimitiveMatrix::I8(Vec::new()),
        Ty::I16 => PrimitiveMatrix::I16(Vec::new()),
        Ty::I32 => PrimitiveMatrix::I32(Vec::new()),
        Ty::I64 => PrimitiveMatrix::I64(Vec::new()),
        Ty::U8 => PrimitiveMatrix::U8(Vec::new()),
        Ty::U16 => PrimitiveMatrix::U16(Vec::new()),
        Ty::U32 => PrimitiveMatrix::U32(Vec::new()),
        Ty::U64 => PrimitiveMatrix::U64(Vec::new()),
        Ty::F32 => PrimitiveMatrix::F32(Vec::new()),
        Ty::F64 => PrimitiveMatrix::F64(Vec::new()),
        Ty::Str => PrimitiveMatrix::Str(Vec::new()),
        Ty::Ref => PrimitiveMatrix::Ref(Vec::new()),
        Ty::Type => PrimitiveMatrix::Type(Vec::new()),
    }
}

/// Append one row of the matrix's own type.
fn matrix_push_row(m: PrimitiveMatrix, row: PrimitiveVector) -> (r: PrimitiveMatrix)
    requires
        matrix_model(m).0 == vector_model(row).0,
    ensures
        matrix_model(r).0 == matrix_model(m).0,
        matrix_model(r).1 =~= matrix_model(m).1.push(vector_model(row).1),
{
    let ghost gm = m;
    let ghost grow = row;
    let r = match (m, row) {
        (PrimitiveMatrix::Bool(mut rows), PrimitiveVector::Bool(r)) => {
            rows.push(r);
            PrimitiveMatrix::Bool(rows)
        },
        (PrimitiveMatrix::I8(mut rows), PrimitiveVector::I8(r)) => {
            rows.push(r);
            PrimitiveMatrix::I8(rows)
        },
        (PrimitiveMatrix::I16(mut rows), PrimitiveVector::I16(r)) => {
            rows.push(r);
            PrimitiveMatrix::I16(rows)
        },
        (PrimitiveMatrix::I32(mut rows), PrimitiveVector::I32(r)) => {
            rows.push(r);
            PrimitiveMatrix::I32(rows)
        },
        (PrimitiveMatrix::I64(mut rows), PrimitiveVector::I64(r)) => {
            rows.push(r);
            PrimitiveMatrix::I64(rows)
        },
        (PrimitiveMatrix::U8(mut rows), PrimitiveVector::U8(r)) => {
            rows.push(r);
            PrimitiveMatrix::U8(rows)
        },
        (PrimitiveMatrix::U16(mut rows), PrimitiveVector::U16(r)) => {
            rows.push(r);
            PrimitiveMatrix::U16(rows)
        },
        (PrimitiveMatrix::U32(mut rows), PrimitiveVector::U32(r)) => {
            rows.push(r);
            PrimitiveMatrix::U32(rows)
        },
        (PrimitiveMatrix::U64(mut rows), PrimitiveVector::U64(r)) => {
            rows.push(r);
            PrimitiveMatrix::U64(rows)
        },
        (PrimitiveMatrix::F32(mut rows), PrimitiveVector::F32(r)) => {
            rows.push(r);
            PrimitiveMatrix::F32(rows)
        },
        (PrimitiveMatrix::F64(mut rows), PrimitiveVector::F64(r)) => {
            rows.push(r);
            PrimitiveMatrix::F64(rows)
        },
        (PrimitiveMatrix::Str(mut rows), PrimitiveVector::Str(r)) => {
            rows.push(r);
            PrimitiveMatrix::Str(rows)
        },
        (PrimitiveMatrix::Ref(mut rows), PrimitiveVector::Ref(r)) => {
            rows.push(r);
            PrimitiveMatrix::Ref(rows)
        },
        (PrimitiveMatrix::Type(mut rows), PrimitiveVector::Type(r)) => {
            rows.push(r);
            PrimitiveMatrix::Type(rows)
        },
        _ => vstd::pervasive::unreached(),
    };
    proof {
        assert(matrix_model(r).1 =~= matrix_model(gm).1.push(vector_model(grow).1));
    }
    r
}

/// A vector: `{`, whitespace, zero or more comma-separated scalars, `}`.
fn vector(t: Ty, input: &[u8], pos: usize) -> (r: Result<(usize, PrimitiveVector), SyntaxError>)
    requires
        pos <= input.len(),
    ensures
        match r {
            Ok((p, v)) => {
                &&& spec_vector(t, input@, pos as int) == Some((p as int, vector_model(v).1))
                &&& vector_model(v).0 == t
                &&& pos < p <= input.len()
            },
            Err(_) => spec_vector(t, input@, pos as int) is None,
        },
{
    if pos < input.len() && input[pos] == 123 {
        let p1 = space(input, pos + 1);
        match primitive_value(t, input, p1) {
            Err(_) => {
                if p1 < input.len() && input[p1] == 125 {
                    Ok((p1 + 1, vector_new(t)))
                } else {
                    Err(SyntaxError { position: p1, expected: "vector value" })
                }
            },
            Ok((pv1, v1)) => {
                let ghost vm1 = value_model(v1);
                let mut acc = vector_new(t);
                acc = vector_push(acc, v1);
                let mut i = space(input, pv1);
                let mut done = false;
                proof {
                    assert(Seq::<ValueModel>::empty().push(vm1) =~= seq![vm1]);
                    assert(seq![vm1] + spec_vec_tail(t, input@, i as int).1 =~= vector_model(
                        acc,
                    ).1 + spec_vec_tail(t, input@, i as int).1);
                }
                while !done
                    invariant
                        pos < i <= input.len(),
                        vector_model(acc).0 == t,
                        spec_vec_elems(t, input@, p1 as int) == Some(
                            (
                                spec_vec_tail(t, input@, i as int).0,
                                vector_model(acc).1 + spec_vec_tail(t, input@, i as int).1,
                            ),
                        ),
                        done ==> spec_vec_tail(t, input@, i as int) == (
                            i as int,
                            Seq::<ValueModel>::empty(),
                        ),
                    decreases input.len() - i + (if done {
                        0int
                    } else {
                        1int
                    }),
                {
                    if i < input.len() && input[i] == 44 {
                        let p3 = space(input, i + 1);
                        match primitive_value(t, input, p3) {
                            Ok((pv, v)) => {
                                let ghost prev = vector_model(acc).1;
                                let ghost vm = value_model(v);
                                acc = vector_push(acc, v);
                                let ni = space(input, pv);
                                proof {
                                    assert(spec_vec_tail(t, input@, i as int) == (
                                        spec_vec_tail(t, input@, ni as int).0,
                                        seq![vm] + spec_vec_tail(t, input@, ni as int).1,
                                    ));
                                    assert(vector_model(acc).1 + spec_vec_tail(
                                        t,
                                        input@,
                                        ni as int,
                                    ).1 =~= prev + (seq![vm] + spec_vec_tail(
                                        t,
                                        input@,
                                        ni as int,
                                    ).1));
                                }
                                i = ni;
                            },
                            Err(_) => {
                                done = true;
                            },
                        }
                    } else {
                        done = true;
                    }
                }
                proof {
                    assert(vector_model(acc).1 + Seq::<ValueModel>::empty() =~= vector_model(
                        acc,
                    ).1);
                }
                if i < input.len() && input[i] == 125 {
                    Ok((i + 1, acc))
                } else {
                    Err(SyntaxError { position: i, expected: "vector" })
                }
            },
        }
    } else {
        Err(SyntaxError { position: pos, expected: "vector" })
    }
}

/// A matrix: `{`, whitespace, zero or more comma-separated rows, `}`.
fn matrix(t: Ty, input: &[u8], pos: usize) -> (r: Result<(usize, PrimitiveMatrix), SyntaxError>)
    requires
        pos <= input.len(),
    ensures
        match r {
            Ok((p, m)) => {
                &&& spec_matrix(t, input@, pos as int) == Some((p as int, matrix_model(m).1))
                &&& matrix_model(m).0 == t
                &&& pos < p <= input.len()
            },
            Err(_) => spec_matrix(t, input@, pos as int) is None,
        },
{
    if pos < input.len() && input[pos] == 123 {
        let p1 = space(input, pos + 1);
        match vector(t, input, p1) {
            Err(_) => {
                if p1 < input.len() && input[p1] == 125 {
                    Ok((p1 + 1, matrix_new(t)))
                } else {
                    Err(SyntaxError { position: p1, expected: "matrix row" })
                }
            },
            Ok((pv1, row1)) => {
                let pr1 = space(input, pv1);
                let ghost rm1 = vector_model(row1).1;
                let mut acc = matrix_new(t);
                acc = matrix_push_row(acc, row1);
                let mut i = pr1;
                let mut done = false;
                proof {
                    assert(Seq::<Seq<ValueModel>>::empty().push(rm1) =~= seq![rm1]);
                    assert(seq![rm1] + spec_rows_tail(t, input@, i as int).1 =~= matrix_model(
                        acc,
                    ).1 + spec_rows_tail(t, input@, i as int).1);
                }
                while !done
                    invariant
                        pos < i <= input.len(),
                        matrix_model(acc).0 == t,
                        spec_rows(t, input@, p1 as int) == Some(
                            (
                                spec_rows_tail(t, input@, i as int).0,
                                matrix_model(acc).1 + spec_rows_tail(t, input@, i as int).1,
                            ),
                        ),
                        done ==> spec_rows_tail(t, input@, i as int) == (
                            i as int,
                            Seq::<Seq<ValueModel>>::empty(),
                        ),
                    decreases input.len() - i + (if done {
                        0int
                    } else {
                        1int
                    }),
                {
                    if i < input.len() && input[i] == 44 {
                        let p2 = space(input, i + 1);
                        match vector(t, input, p2) {
                            Ok((pv, row)) => {
                                let pr = space(input, pv);
                                let ghost prev = matrix_model(acc).1;
                                let ghost rm = vector_model(row).1;
                                acc = matrix_push_row(acc, row);
                                proof {
                                    assert(spec_rows_tail(t, input@, i as int) == (
                                        spec_rows_tail(t, input@, pr as int).0,
                                        seq![rm] + spec_rows_tail(t, input@, pr as int).1,
                                    ));
                                    assert(matrix_model(acc).1 + spec_rows_tail(
                                        t,
                                        input@,
                                        pr as int,
                                    ).1 =~= prev + (seq![rm] + spec_rows_tail(
                                        t,
                                        input@,
                                        pr as int,
                                    ).1));
                                }
                                i = pr;
                            },
                            Err(_) => {
                                done = true;
                            },
                        }
                    } else {
                        done = true;
                    }
                }
                proof {
                    assert(matrix_model(acc).1 + Seq::<Seq<ValueModel>>::empty() =~= matrix_model(
                        acc,
                    ).1);
                }
                if i < input.len() && input[i] == 125 {
                    Ok((i + 1, acc))
                } else {
                    Err(SyntaxError { position: i, expected: "matrix" })
                }
            },
        }
    } else {
        Err(SyntaxError { position: pos, expected: "matrix" })
    }
}

/// A primitive item's value: a vector, else a matrix, else one scalar.
fn primitive_data(t: Ty, input: &[u8], pos: usize) -> (r: Result<(usize, DataItem), SyntaxError>)
    requires
        pos <= input.len(),
    ensures
        match r {
            Ok((p, item)) => {
                &&& spec_primitive_data(t, input@, pos as int) == Some(
                    (p as int, item_model(item)),
                )
                &&& pos < p <= input.len()
            },
            Err(_) => spec_primitive_data(t, input@, pos as int) is None,
        },
{
    match vector(t, input, pos) {
        Ok((p, v)) => Ok((p, DataItem::Vector { name: None, vector: v })),
        Err(_) => match matrix(t, input, pos) {
            Ok((p, m)) => Ok((p, DataItem::Matrix { name: None, matrix: m })),
            Err(_) => match primitive_value(t, input, pos) {
                Ok((p, v)) => Ok((p, DataItem::Primitive { name: None, value: v })),
                Err(e) => Err(e),
            },
        },
    }
}

/// A primitive item: type keyword, optional name, type-directed value.
pub fn primitive_item(input: &[u8], pos: usize) -> (r: Result<(usize, DataItem), SyntaxError>)
    requires
        pos <= input.len(),
    ensures
        match r {
            Ok((p, item)) => {
                &&& spec_primitive_item(input@, pos as int) == Some((p as int, item_model(item)))
                &&& pos < p <= input.len()
            },
            Err(_) => spec_primitive_item(input@, pos as int) is None,
        },
{
    match primitive_type(input, pos) {
        Err(e) => Err(e),
        Ok((p1, t)) => {
            let p2 = space(input, p1);
            let (p3, nm) = match name(input, p2) {
                Ok((q, n)) => (q, Some(n)),
                Err(_) => (p2, None),
            };
            match primitive_data(t, input, p3) {
                Ok((p4, mut item)) => {
                    item.set_name(nm);
                    Ok((p4, item))
                },
                Err(e) => Err(e),
            }
        },
    }
}


// ---------------------------------------------------------------- properties

/// Whether the float run `pos..e` carries a fraction or an exponent.
fn float_mark(input: &[u8], pos: usize, e: usize) -> (r: bool)
    requires
        pos <= e <= input.len(),
    ensures
        r == has_float_mark(input@, pos as int, e as int),
{
    let mut i = pos;
    while i < e
        invariant
            pos <= i <= e <= input.len(),
            forall|k: int|
                pos <= k < i ==> !(input@[k] == 46 || input@[k] == 101 || input@[k] == 69),
        decreases e - i,
    {
        if input[i] == 46 || input[i] == 101 || input[i] == 69 {
            proof {
                assert(pos <= i < e && (input@[i as int] == 46 || input@[i as int] == 101
                    || input@[i as int] == 69));
            }
            return true;
        }
        i = i + 1;
    }
    false
}

/// A property value, by ordered choice: boolean; a marked float; unsigned
/// then signed 64-bit integer; any float; string; reference; type keyword.
fn property_value(input: &[u8], pos: usize) -> (r: Result<(usize, PrimitiveValue), SyntaxError>)
    requires
        pos <= input.len(),
    ensures
        match r {
            Ok((p, v)) => {
                &&& spec_property_value(input@, pos as int) == Some((p as int, value_model(v)))
                &&& pos < p <= input.len()
            },
            Err(_) => spec_property_value(input@, pos as int) is None,
        },
{
    match parse_bool(input, pos) {
        Ok((p, b)) => Ok((p, PrimitiveValue::Bool(b))),
        Err(_) => match float_number(input, pos) {
            Ok((fp, ftxt)) => {
                if float_mark(input, pos, fp) {
                    Ok((fp, PrimitiveValue::F64(ftxt)))
                } else {
                    match parse_u64(input, pos) {
                        Ok((p, v)) => Ok((p, PrimitiveValue::U64(v))),
                        Err(_) => match parse_i64(input, pos) {
                            Ok((p, v)) => Ok((p, PrimitiveValue::I64(v))),
                            Err(_) => Ok((fp, PrimitiveValue::F64(ftxt))),
                        },
                    }
                }
            },
            Err(_) => match parse_u64(input, pos) {
                Ok((p, v)) => Ok((p, PrimitiveValue::U64(v))),
                Err(_) => match parse_i64(input, pos) {
                    Ok((p, v)) => Ok((p, PrimitiveValue::I64(v))),
                    Err(_) => match string(input, pos) {
                        Ok((p, st)) => Ok((p, PrimitiveValue::Str(st))),
                        Err(_) => match reference(input, pos) {
                            Ok((p, rf)) => Ok((p, PrimitiveValue::Ref(rf))),
                            Err(_) => match primitive_type(input, pos) {
                                Ok((p, t2)) => {
                                    let txt = ascii_string(input, pos, p);
                                    proof {
                                        assert(match_lit(input@, pos as int, kw_bytes(t2)) && p
                                            as int == pos + kw_bytes(t2).len());
                                        assert(input@.subrange(pos as int, p as int) =~= kw_bytes(
                                            t2,
                                        ));
                                    }
                                    Ok((p, PrimitiveValue::Type(txt)))
                                },
                                Err(e) => Err(e),
                            },
                        },
                    },
                },
            },
        },
    }
}

/// One property: identifier, `=`, a value, each with trailing whitespace.
fn property(input: &[u8], pos: usize) -> (r: Result<
    (usize, (String, PrimitiveValue)),
    SyntaxError,
>)
    requires
        pos <= input.len(),
    ensures
        match r {
            Ok((p, kv)) => {
                &&& spec_prop(input@, pos as int) == Some((p as int, (kv.0@, value_model(kv.1))))
                &&& pos < p <= input.len()
            },
            Err(_) => spec_prop(input@, pos as int) is None,
        },
{
    match identifier(input, pos) {
        Err(e) => Err(e),
        Ok((p1, id)) => {
            let p2 = space(input, p1);
            if p2 < input.len() && input[p2] == 61 {
                let p3 = space(input, p2 + 1);
                match property_value(input, p3) {
                    Ok((p4, v)) => {
                        let e = space(input, p4);
                        Ok((e, (id, v)))
                    },
                    Err(e) => Err(e),
                }
            } else {
                Err(SyntaxError { position: p2, expected: "property" })
            }
        },
    }
}

/// Record a property; a later value for an existing key replaces the
/// earlier one, keeping the keys unique.
fn insert_prop(props: &mut Vec<(String, PrimitiveValue)>, k: String, v: PrimitiveValue)
    requires
        unique_keys(old(props)@),
    ensures
        unique_keys(final(props)@),
        props_model(final(props)@) == props_model(old(props)@).insert(k@, value_model(v)),
{
    let ghost gk = k@;
    let ghost gv = value_model(v);
    let ghost orig = props@;
    let mut j: usize = 0;
    while j < props.len()
        invariant
            0 <= j <= props.len(),
            props@ == orig,
            orig == old(props)@,
            unique_keys(orig),
            gk == k@,
            gv == value_model(v),
            forall|x: int| 0 <= x < j ==> orig[x].0@ != gk,
        decreases props.len() - j,
    {
        if props[j].0.eq(&k) {
            props.set(j, (k, v));
            proof {
                assert forall|x: int| 0 <= x < props@.len() implies pairs_model(props@)[x]
                    == pairs_model(orig).update(j as int, (gk, gv))[x] by {
                    assert(props@[x] == orig.update(j as int, (k, v))[x]);
                }
                assert(pairs_model(props@) =~= pairs_model(orig).update(j as int, (gk, gv)));
                assert(unique_keys(orig));
                lemma_props_fold_update(pairs_model(orig), j as int, (gk, gv));
                assert forall|a: int, b: int|
                    0 <= a < b < pairs_model(props@).len() implies pairs_model(props@)[a].0
                    != pairs_model(props@)[b].0 by {
                    assert(pairs_model(props@)[a].0 == pairs_model(orig)[a].0);
                    assert(pairs_model(props@)[b].0 == pairs_model(orig)[b].0);
                }
            }
            return;
        }
        j = j + 1;
    }
    props.push((k, v));
    proof {
        assert(pairs_model(props@) =~= pairs_model(orig).push((gk, gv)));
        assert(pairs_model(props@).drop_last() =~= pairs_model(orig));
        assert forall|a: int, b: int|
            0 <= a < b < pairs_model(props@).len() implies pairs_model(props@)[a].0 != pairs_model(
            props@,
        )[b].0 by {
            if b < pairs_model(orig).len() {
                assert(pairs_model(props@)[a].0 == pairs_model(orig)[a].0);
                assert(pairs_model(props@)[b].0 == pairs_model(orig)[b].0);
            } else {
                assert(pairs_model(props@)[a].0 == pairs_model(orig)[a].0);
                assert(pairs_model(orig)[a].0 != gk);
            }
        }
    }
}

/// A property list: `(`, zero or more comma-separated properties, `)`,
/// trailing whitespace.  Later values for a key win.
fn properties(input: &[u8], pos: usize) -> (r: Result<
    (usize, Vec<(String, PrimitiveValue)>),
    SyntaxError,
>)
    requires
        pos <= input.len(),
    ensures
        match r {
            Ok((p, props)) => {
                &&& spec_properties(input@, pos as int) is Some
                &&& spec_properties(input@, pos as int)->Some_0.0 == p as int
                &&& props_fold(spec_properties(input@, pos as int)->Some_0.1) == props_model(
                    props@,
                )
                &&& unique_keys(props@)
                &&& pos < p <= input.len()
            },
            Err(_) => spec_properties(input@, pos as int) is None,
        },
{
    if pos < input.len() && input[pos] == 40 {
        let p1 = space(input, pos + 1);
        match property(input, p1) {
            Err(_) => {
                if p1 < input.len() && input[p1] == 41 {
                    let e = space(input, p1 + 1);
                    let props: Vec<(String, PrimitiveValue)> = Vec::new();
                    proof {
                        assert(pairs_model(props@) =~= Seq::<(Seq<char>, ValueModel)>::empty());
                    }
                    Ok((e, props))
                } else {
                    Err(SyntaxError { position: p1, expected: "property list" })
                }
            },
            Ok((q1, kv1)) => {
                let mut props: Vec<(String, PrimitiveValue)> = Vec::new();
                let ghost gkv1 = (kv1.0@, value_model(kv1.1));
                proof {
                    assert(pairs_model(props@) =~= Seq::<(Seq<char>, ValueModel)>::empty());
                }
                insert_prop(&mut props, kv1.0, kv1.1);
                let ghost seen = seq![gkv1];
                proof {
                    assert(seen.drop_last() =~= Seq::<(Seq<char>, ValueModel)>::empty());
                    assert(seen.last() == gkv1);
                    assert(props_fold(seen) =~= props_fold(
                        Seq::<(Seq<char>, ValueModel)>::empty(),
                    ).insert(gkv1.0, gkv1.1));
                    assert(seen + spec_prop_tail(input@, q1 as int).1 =~= seq![gkv1]
                        + spec_prop_tail(input@, q1 as int).1);
                }
                let mut i = q1;
                let mut done = false;
                let ghost mut seen = seen;
                while !done
                    invariant
                        pos < i <= input.len(),
                        unique_keys(props@),
                        props_model(props@) == props_fold(seen),
                        spec_prop_list(input@, p1 as int) == Some(
                            (
                                spec_prop_tail(input@, i as int).0,
                                seen + spec_prop_tail(input@, i as int).1,
                            ),
                        ),
                        done ==> spec_prop_tail(input@, i as int) == (
                            i as int,
                            Seq::<(Seq<char>, ValueModel)>::empty(),
                        ),
                    decreases input.len() - i + (if done {
                        0int
                    } else {
                        1int
                    }),
                {
                    if i < input.len() && input[i] == 44 {
                        let p2 = space(input, i + 1);
                        match property(input, p2) {
                            Ok((q, kv)) => {
                                let ghost gkv = (kv.0@, value_model(kv.1));
                                insert_prop(&mut props, kv.0, kv.1);
                                proof {
                                    assert(spec_prop_tail(input@, i as int) == (
                                        spec_prop_tail(input@, q as int).0,
                                        seq![gkv] + spec_prop_tail(input@, q as int).1,
                                    ));
                                    assert((seen + seq![gkv]).drop_last() =~= seen);
                                    assert(props_fold(seen + seq![gkv]) =~= props_fold(
                                        seen,
                                    ).insert(gkv.0, gkv.1));
                                    assert((seen + seq![gkv]) + spec_prop_tail(
                                        input@,
                                        q as int,
                                    ).1 =~= seen + (seq![gkv] + spec_prop_tail(
                                        input@,
                                        q as int,
                                    ).1));
                                }
                                proof {
                                    seen = seen + seq![gkv];
                                }
                                i = q;
                            },
                            Err(_) => {
                                done = true;
                            },
                        }
                    } else {
                        done = true;
                    }
                }
                proof {
                    assert(seen + Seq::<(Seq<char>, ValueModel)>::empty() =~= seen);
                }
                if i < input.len() && input[i] == 41 {
                    let e = space(input, i + 1);
                    Ok((e, props))
                } else {
                    Err(SyntaxError { position: i, expected: "property list" })
                }
            },
        }
    } else {
        Err(SyntaxError { position: pos, expected: "property list" })
    }
}

// ---------------------------------------------------------------- items

/// A custom item: structure identifier, optional name, optional property
/// list, and a brace-delimited body of nested items.
fn custom_item(input: &[u8], pos: usize) -> (r: Result<(usize, DataItem), SyntaxError>)
    requires
        pos <= input.len(),
    ensures
        match r {
            Ok((p, item)) => {
                &&& spec_custom_item(input@, pos as int) == Some((p as int, item_model(item)))
                &&& pos < p <= input.len()
            },
            Err(_) => spec_custom_item(input@, pos as int) is None,
        },
    decreases input.len() - pos, 1int,
{
    match identifier(input, pos) {
        Err(e) => Err(e),
        Ok((p1, structure)) => {
            let p2 = space(input, p1);
            let (p3, nm) = match name(input, p2) {
                Ok((q, n)) => (q, Some(n)),
                Err(_) => (p2, None),
            };
            let (p4, props) = match properties(input, p3) {
                Ok((q, ps)) => (q, ps),
                Err(_) => (p3, Vec::new()),
            };
            proof {
                if spec_properties(input@, p3 as int) is None {
                    assert(pairs_model(Seq::<(String, PrimitiveValue)>::empty()) =~= Seq::<
                        (Seq<char>, ValueModel),
                    >::empty());
                }
            }
            if p4 < input.len() && input[p4] == 123 {
                let p5 = space(input, p4 + 1);
                let (p6, its) = items(input, p5);
                if p6 < input.len() && input[p6] == 125 {
                    Ok(
                        (
                            p6 + 1,
                            DataItem::Custom { name: nm, structure, properties: props, items: its },
                        ),
                    )
                } else {
                    Err(SyntaxError { position: p6, expected: "custom item" })
                }
            } else {
                Err(SyntaxError { position: p4, expected: "custom item" })
            }
        },
    }
}

/// One data item: a primitive item, else a custom item, then trailing
/// whitespace.
pub fn data_item(input: &[u8], pos: usize) -> (r: Result<(usize, DataItem), SyntaxError>)
    requires
        pos <= input.len(),
    ensures
        match r {
            Ok((p, item)) => {
                &&& spec_data_item(input@, pos as int) == Some((p as int, item_model(item)))
                &&& pos < p <= input.len()
            },
            Err(_) => spec_data_item(input@, pos as int) is None,
        },
    decreases input.len() - pos, 2int,
{
    match primitive_item(input, pos) {
        Ok((p, item)) => {
            let e = space(input, p);
            Ok((e, item))
        },
        Err(_) => match custom_item(input, pos) {
            Ok((p, item)) => {
                let e = space(input, p);
                Ok((e, item))
            },
            Err(e) => Err(e),
        },
    }
}

/// Zero or more data items, as many as match.
fn items(input: &[u8], pos: usize) -> (res: (usize, Vec<DataItem>))
    requires
        pos <= input.len(),
    ensures
        spec_items(input@, pos as int) == (res.0 as int, items_model(res.1@)),
        pos <= res.0 <= input.len(),
    decreases input.len() - pos, 3int,
{
    let mut i = pos;
    let mut out: Vec<DataItem> = Vec::new();
    let mut done = false;
    proof {
        assert(items_model(out@) =~= Seq::<ItemModel>::empty());
        assert(Seq::<ItemModel>::empty() + spec_items(input@, pos as int).1 =~= spec_items(
            input@,
            pos as int,
        ).1);
    }
    while !done
        invariant
            pos <= i <= input.len(),
            spec_items(input@, pos as int).0 == spec_items(input@, i as int).0,
            spec_items(input@, pos as int).1 == items_model(out@) + spec_items(input@, i as int).1,
            done ==> spec_items(input@, i as int) == (i as int, Seq::<ItemModel>::empty()),
        decreases input.len() - i + (if done {
            0int
        } else {
            1int
        }),
    {
        match data_item(input, i) {
            Ok((p, item)) => {
                let ghost prev = items_model(out@);
                let ghost pv = out@;
                let ghost gm = item_model(item);
                out.push(item);
                proof {
                    assert(out@.drop_last() =~= pv);
                    assert(out@.last() == item);
                    assert(items_model(out@) =~= prev.push(gm));
                    assert(spec_items(input@, i as int).1 =~= seq![gm] + spec_items(
                        input@,
                        p as int,
                    ).1);
                    assert(items_model(out@) + spec_items(input@, p as int).1 =~= prev + (seq![gm]
                        + spec_items(input@, p as int).1));
                }
                i = p;
            },
            Err(_) => {
                done = true;
            },
        }
    }
    proof {
        assert(items_model(out@) + Seq::<ItemModel>::empty() =~= items_model(out@));
    }
    (i, out)
}

/// A document: leading whitespace, one or more data items, end of input.
pub fn data_file(input: &[u8]) -> (r: Result<Vec<DataItem>, SyntaxError>)
    ensures
        match r {
            Ok(items) => spec_document(input@) == Some(items_model(items@)),
            Err(_) => spec_document(input@) is None,
        },
{
    let p0 = space(input, 0);
    let (e, its) = items(input, p0);
    proof {
        crate::types::lemma_items_model(its@);
    }
    if its.len() >= 1 && e == input.len() {
        Ok(its)
    } else {
        Err(SyntaxError { position: e, expected: "data item" })
    }
}

} // verus!
