//! The grammar, stated as specification functions over the input bytes.
//!
//! Each rule takes the input and a position and yields `None` where the
//! rule does not match, or `Some` of the position just past the consumed
//! text together with the ghost value the text denotes.  Alternatives are
//! ordered: a later alternative speaks only where every earlier one
//! yields `None`, and a failed alternative consumes nothing.  Repetition
//! rules are total and yield what they could consume.  The parsing
//! functions in `parser` are proved to return exactly these denotations.
//!
//! The `if pos < p && p <= s.len()` guards around recursive calls bound
//! the recursion; every rule in fact moves forward inside the input, so
//! the guards always hold where a rule has matched.

use vstd::prelude::*;

use crate::types::ItemModel;
use crate::types::NameModel;
use crate::types::RefModel;
use crate::types::Scope;
use crate::types::Ty;
use crate::types::ValueModel;
use crate::types::props_fold;
use crate::types::with_name;

verus! {

// ---------------------------------------------------------------- byte classes

/// Insignificant bytes: space, tab, CR, LF.
pub open spec fn is_ws(b: u8) -> bool {
    b == 32 || b == 9 || b == 13 || b == 10
}

/// First byte of an identifier: ASCII letter or underscore.
pub open spec fn is_ident_start(b: u8) -> bool {
    (97 <= b <= 122) || (65 <= b <= 90) || b == 95
}

/// Later byte of an identifier: ASCII letter, digit, or underscore.
pub open spec fn is_ident_cont(b: u8) -> bool {
    is_ident_start(b) || (48 <= b <= 57)
}

/// The value of a digit byte; 16 where the byte is no digit at all.
pub open spec fn dval(b: u8) -> int {
    if 48 <= b <= 57 {
        b - 48
    } else if 97 <= b <= 102 {
        b - 97 + 10
    } else if 65 <= b <= 70 {
        b - 65 + 10
    } else {
        16
    }
}

/// Whether `b` is a digit under radix `r` (2, 8, 10 or 16).
pub open spec fn is_digit(b: u8, r: u32) -> bool {
    dval(b) < r
}

/// A byte sequence read as characters; meaningful for ASCII bytes.
pub open spec fn ascii_str(b: Seq<u8>) -> Seq<char> {
    b.map_values(|x: u8| x as char)
}

/// The end of the run of bytes satisfying `c` that starts at `pos`.
pub open spec fn run_end(s: Seq<u8>, pos: int, c: spec_fn(u8) -> bool) -> int
    decreases s.len() - pos,
{
    if 0 <= pos < s.len() && c(s[pos]) {
        run_end(s, pos + 1, c)
    } else {
        pos
    }
}

/// The run's end lies between `pos` and the input's end; every byte of
/// the run satisfies `c` and the byte after it, if any, does not.
pub proof fn lemma_run_end(s: Seq<u8>, pos: int, c: spec_fn(u8) -> bool)
    requires
        0 <= pos <= s.len(),
    ensures
        pos <= run_end(s, pos, c) <= s.len(),
        forall|i: int| pos <= i < run_end(s, pos, c) ==> c(s[i]),
        run_end(s, pos, c) < s.len() ==> !c(s[run_end(s, pos, c)]),
    decreases s.len() - pos,
{
    if pos < s.len() && c(s[pos]) {
        lemma_run_end(s, pos + 1, c);
    }
}

/// The end of the whitespace run starting at `pos`.
pub open spec fn ws_end(s: Seq<u8>, pos: int) -> int {
    run_end(s, pos, |b: u8| is_ws(b))
}

/// The end of the identifier-continuation run starting at `pos`.
pub open spec fn ident_cont_end(s: Seq<u8>, pos: int) -> int {
    run_end(s, pos, |b: u8| is_ident_cont(b))
}

/// The end of the radix-`r` digit run starting at `pos`.
pub open spec fn digit_run_end(s: Seq<u8>, pos: int, r: u32) -> int {
    run_end(s, pos, |b: u8| is_digit(b, r))
}

/// The digit run's bounds and content.
pub proof fn lemma_digit_run_end(s: Seq<u8>, pos: int, r: u32)
    requires
        0 <= pos <= s.len(),
    ensures
        pos <= digit_run_end(s, pos, r) <= s.len(),
        digit_run_end(s, pos, r) < s.len() ==> !is_digit(s[digit_run_end(s, pos, r)], r),
        forall|i: int| pos <= i < digit_run_end(s, pos, r) ==> is_digit(s[i], r),
{
    lemma_run_end(s, pos, |b: u8| is_digit(b, r));
}

/// Whether the bytes at `pos` begin with `lit`.
pub open spec fn match_lit(s: Seq<u8>, pos: int, lit: Seq<u8>) -> bool {
    &&& 0 <= pos
    &&& pos + lit.len() <= s.len()
    &&& forall|i: int| 0 <= i < lit.len() ==> s[pos + i] == lit[i]
}

// ---------------------------------------------------------------- identifiers

/// `(letter | '_') (letter | digit | '_')*`, read as text.
pub open spec fn spec_ident(s: Seq<u8>, pos: int) -> Option<(int, Seq<char>)> {
    if 0 <= pos < s.len() && is_ident_start(s[pos]) {
        let end = ident_cont_end(s, pos + 1);
        Some((end, ascii_str(s.subrange(pos, end))))
    } else {
        None
    }
}

/// Sigil (`$` global, `%` local), identifier, trailing whitespace.
pub open spec fn spec_name(s: Seq<u8>, pos: int) -> Option<(int, NameModel)> {
    if 0 <= pos < s.len() && (s[pos] == 36 || s[pos] == 37) {
        let scope = if s[pos] == 36 {
            Scope::Global
        } else {
            Scope::Local
        };
        match spec_ident(s, pos + 1) {
            Some((p, id)) => Some((ws_end(s, p), NameModel { scope, id })),
            None => None,
        }
    } else {
        None
    }
}

// ---------------------------------------------------------------- keywords

/// The keyword bytes of a primitive type.
pub open spec fn kw_bytes(t: Ty) -> Seq<u8> {
    match t {
        Ty::Bool => seq![98, 111, 111, 108],
        Ty::U8 => seq![117, 56],
        Ty::U16 => seq![117, 49, 54],
        Ty::U32 => seq![117, 51, 50],
        Ty::U64 => seq![117, 54, 52],
        Ty::I8 => seq![105, 56],
        Ty::I16 => seq![105, 49, 54],
        Ty::I32 => seq![105, 51, 50],
        Ty::I64 => seq![105, 54, 52],
        Ty::F32 => seq![102, 51, 50],
        Ty::F64 => seq![102, 54, 52],
        Ty::Str => seq![115, 116, 114],
        Ty::Ref => seq![114, 101, 102],
        Ty::Type => seq![116, 121, 112, 101],
    }
}

/// The keyword of a primitive type, read as text.
pub open spec fn ty_text(t: Ty) -> Seq<char> {
    ascii_str(kw_bytes(t))
}

/// The primitive-type keywords, tried in their fixed order.
pub open spec fn spec_keyword(s: Seq<u8>, pos: int) -> Option<(int, Ty)> {
    if match_lit(s, pos, kw_bytes(Ty::Bool)) {
        Some((pos + 4, Ty::Bool))
    } else if match_lit(s, pos, kw_bytes(Ty::U8)) {
        Some((pos + 2, Ty::U8))
    } else if match_lit(s, pos, kw_bytes(Ty::U16)) {
        Some((pos + 3, Ty::U16))
    } else if match_lit(s, pos, kw_bytes(Ty::U32)) {
        Some((pos + 3, Ty::U32))
    } else if match_lit(s, pos, kw_bytes(Ty::U64)) {
        Some((pos + 3, Ty::U64))
    } else if match_lit(s, pos, kw_bytes(Ty::I8)) {
        Some((pos + 2, Ty::I8))
    } else if match_lit(s, pos, kw_bytes(Ty::I16)) {
        Some((pos + 3, Ty::I16))
    } else if match_lit(s, pos, kw_bytes(Ty::I32)) {
        Some((pos + 3, Ty::I32))
    } else if match_lit(s, pos, kw_bytes(Ty::I64)) {
        Some((pos + 3, Ty::I64))
    } else if match_lit(s, pos, kw_bytes(Ty::F32)) {
        Some((pos + 3, Ty::F32))
    } else if match_lit(s, pos, kw_bytes(Ty::F64)) {
        Some((pos + 3, Ty::F64))
    } else if match_lit(s, pos, kw_bytes(Ty::Str)) {
        Some((pos + 3, Ty::Str))
    } else if match_lit(s, pos, kw_bytes(Ty::Ref)) {
        Some((pos + 3, Ty::Ref))
    } else if match_lit(s, pos, kw_bytes(Ty::Type)) {
        Some((pos + 4, Ty::Type))
    } else {
        None
    }
}

// ---------------------------------------------------------------- integers

/// Digit groups under radix `r`, separated by single underscores: the end
/// of the consumed text and the digits with the underscores removed.  A
/// trailing underscore, or one not followed by a digit, is not consumed.
pub open spec fn spec_digits(s: Seq<u8>, pos: int, r: u32) -> (int, Seq<u8>)
    decreases s.len() - pos,
{
    if 0 <= pos < s.len() && is_digit(s[pos], r) {
        let (e, ds) = spec_digits(s, pos + 1, r);
        (e, seq![s[pos]] + ds)
    } else if 0 <= pos && pos + 1 < s.len() && s[pos] == 95 && is_digit(s[pos + 1], r) {
        spec_digits(s, pos + 1, r)
    } else {
        (pos, Seq::empty())
    }
}

/// The number the digit bytes denote under radix `r`.
pub open spec fn val_of(ds: Seq<u8>, r: u32) -> int
    decreases ds.len(),
{
    if ds.len() == 0 {
        0
    } else {
        val_of(ds.drop_last(), r) * r + dval(ds.last())
    }
}

/// An unsigned integer literal: `0x`, `0o` or `0b` digits, or decimal
/// digits, with underscore separators.  Yields the digits and the radix.
/// A radix prefix counts only where a digit of that radix follows.
pub open spec fn spec_integer(s: Seq<u8>, pos: int) -> Option<(int, Seq<u8>, u32)> {
    if match_lit(s, pos, seq![48, 120]) && pos + 2 < s.len() && is_digit(s[pos + 2], 16) {
        let (e, ds) = spec_digits(s, pos + 2, 16);
        Some((e, ds, 16))
    } else if match_lit(s, pos, seq![48, 111]) && pos + 2 < s.len() && is_digit(s[pos + 2], 8) {
        let (e, ds) = spec_digits(s, pos + 2, 8);
        Some((e, ds, 8))
    } else if match_lit(s, pos, seq![48, 98]) && pos + 2 < s.len() && is_digit(s[pos + 2], 2) {
        let (e, ds) = spec_digits(s, pos + 2, 2);
        Some((e, ds, 2))
    } else if 0 <= pos < s.len() && is_digit(s[pos], 10) {
        let (e, ds) = spec_digits(s, pos, 10);
        Some((e, ds, 10))
    } else {
        None
    }
}

/// An unsigned literal whose value fits below `max`; a larger value is a
/// conversion failure and the rule does not match.
pub open spec fn spec_uint(s: Seq<u8>, pos: int, max: int) -> Option<(int, int)> {
    match spec_integer(s, pos) {
        Some((e, ds, r)) => if val_of(ds, r) <= max {
            Some((e, val_of(ds, r)))
        } else {
            None
        },
        None => None,
    }
}

/// A signed literal: optional `-`, then an unsigned literal whose
/// magnitude fits below `max`; negation follows the digits.
pub open spec fn spec_sint(s: Seq<u8>, pos: int, max: int) -> Option<(int, int)> {
    if 0 <= pos < s.len() && s[pos] == 45 {
        match spec_uint(s, pos + 1, max) {
            Some((e, v)) => Some((e, -v)),
            None => None,
        }
    } else {
        spec_uint(s, pos, max)
    }
}

// ---------------------------------------------------------------- floats

/// A floating-point literal: optional `-`; `0` or a nonzero-led digit
/// run; optional `.` with at least one digit; optional exponent with an
/// optional sign and at least one digit.  Yields the end of the run; the
/// value is kept as text.
pub open spec fn spec_float_end(s: Seq<u8>, pos: int) -> Option<int> {
    let p1 = if 0 <= pos < s.len() && s[pos] == 45 {
        pos + 1
    } else {
        pos
    };
    if 0 <= p1 < s.len() && is_digit(s[p1], 10) {
        let p2 = if s[p1] == 48 {
            p1 + 1
        } else {
            digit_run_end(s, p1 + 1, 10)
        };
        let p3 = if p2 + 1 < s.len() && s[p2] == 46 && is_digit(s[p2 + 1], 10) {
            digit_run_end(s, p2 + 1, 10)
        } else {
            p2
        };
        let p4 = if p3 < s.len() && (s[p3] == 101 || s[p3] == 69) {
            let q = if p3 + 1 < s.len() && (s[p3 + 1] == 43 || s[p3 + 1] == 45) {
                p3 + 2
            } else {
                p3 + 1
            };
            if q < s.len() && is_digit(s[q], 10) {
                digit_run_end(s, q, 10)
            } else {
                p3
            }
        } else {
            p3
        };
        Some(p4)
    } else {
        None
    }
}

/// Whether the float run carries a fraction or an exponent, rather than
/// being plain integer text.
pub open spec fn has_float_mark(s: Seq<u8>, pos: int, e: int) -> bool {
    exists|i: int| pos <= i < e && (s[i] == 46 || s[i] == 101 || s[i] == 69)
}

// ---------------------------------------------------------------- strings

/// The byte a single-character escape denotes.
pub open spec fn esc_byte(b: u8) -> Option<u8> {
    if b == 92 {
        Some(92)
    } else if b == 34 {
        Some(34)
    } else if b == 48 {
        Some(0)
    } else if b == 110 {
        Some(10)
    } else if b == 114 {
        Some(13)
    } else if b == 116 {
        Some(9)
    } else {
        None
    }
}

/// A run of literal bytes (any byte but `\` and `"`) and single-character
/// escapes: the end of the consumed text and the bytes it denotes.
pub open spec fn spec_plain_run(s: Seq<u8>, pos: int) -> (int, Seq<u8>)
    decreases s.len() - pos,
{
    if 0 <= pos < s.len() && s[pos] != 92 && s[pos] != 34 {
        let (e, bs) = spec_plain_run(s, pos + 1);
        (e, seq![s[pos]] + bs)
    } else if 0 <= pos && pos + 1 < s.len() && s[pos] == 92 && esc_byte(s[pos + 1]) is Some {
        let (e, bs) = spec_plain_run(s, pos + 2);
        (e, seq![esc_byte(s[pos + 1])->Some_0] + bs)
    } else {
        (pos, Seq::empty())
    }
}

/// The character a code denotes: the code itself where it is a Unicode
/// scalar value, the replacement character otherwise.
pub open spec fn char_of(code: u32) -> char {
    if vstd::utf8::is_scalar(code) {
        code as char
    } else {
        '\u{FFFD}'
    }
}

/// One hex or unicode escape: `\xHH` with exactly two hex digits, or
/// `\u{H..}` with one to six hex digits.
pub open spec fn spec_uni_esc(s: Seq<u8>, pos: int) -> Option<(int, char)> {
    if match_lit(s, pos, seq![92, 120]) && pos + 3 < s.len() && is_digit(s[pos + 2], 16)
        && is_digit(s[pos + 3], 16) {
        Some(
            (pos + 4, char_of((dval(s[pos + 2]) * 16 + dval(s[pos + 3])) as u32)),
        )
    } else if match_lit(s, pos, seq![92, 117, 123]) {
        let run = digit_run_end(s, pos + 3, 16);
        let e = if run > pos + 9 {
            pos + 9
        } else {
            run
        };
        if e > pos + 3 && e < s.len() && s[e] == 125 {
            Some((e + 1, char_of(val_of(s.subrange(pos + 3, e), 16) as u32)))
        } else {
            None
        }
    } else {
        None
    }
}

/// One or more hex/unicode escapes and the characters they denote.
pub open spec fn spec_uni_run(s: Seq<u8>, pos: int) -> Option<(int, Seq<char>)>
    decreases s.len() - pos,
{
    match spec_uni_esc(s, pos) {
        None => None,
        Some((p, c)) => if pos < p <= s.len() {
            match spec_uni_run(s, p) {
                Some((e, cs)) => Some((e, seq![c] + cs)),
                None => Some((p, seq![c])),
            }
        } else {
            Some((p, seq![c]))
        },
    }
}

/// The body of a string literal: segments, each either a plain/escaped
/// run that must be valid UTF-8, or a run of hex/unicode escapes.  A
/// plain run that is not valid UTF-8 ends the body where it began.
pub open spec fn spec_segments(s: Seq<u8>, pos: int) -> (int, Seq<char>)
    decreases s.len() - pos,
{
    let (pe, bs) = spec_plain_run(s, pos);
    if 0 <= pos && pos < pe <= s.len() {
        if vstd::utf8::valid_utf8(bs) {
            let (e, cs) = spec_segments(s, pe);
            (e, vstd::utf8::decode_utf8(bs) + cs)
        } else {
            (pos, Seq::empty())
        }
    } else {
        match spec_uni_run(s, pos) {
            Some((p, cs)) => if 0 <= pos && pos < p <= s.len() {
                let (e, rest) = spec_segments(s, p);
                (e, cs + rest)
            } else {
                (pos, Seq::empty())
            },
            None => (pos, Seq::empty()),
        }
    }
}

/// A string literal: `"`, the body, `"`.
pub open spec fn spec_string(s: Seq<u8>, pos: int) -> Option<(int, Seq<char>)> {
    if 0 <= pos < s.len() && s[pos] == 34 {
        let (e, cs) = spec_segments(s, pos + 1);
        if e < s.len() && s[e] == 34 {
            Some((e + 1, cs))
        } else {
            None
        }
    } else {
        None
    }
}

// ---------------------------------------------------------------- references

/// Zero or more `%identifier` path segments, each with trailing
/// whitespace; a `%` not followed by an identifier is not consumed.
pub open spec fn spec_path(s: Seq<u8>, pos: int) -> (int, Seq<Seq<char>>)
    decreases s.len() - pos,
{
    if 0 <= pos < s.len() && s[pos] == 37 {
        match spec_ident(s, pos + 1) {
            Some((p, id)) => {
                let p2 = ws_end(s, p);
                if pos < p2 <= s.len() {
                    let (e, rest) = spec_path(s, p2);
                    (e, seq![id] + rest)
                } else {
                    (p2, seq![id])
                }
            },
            None => (pos, Seq::empty()),
        }
    } else {
        (pos, Seq::empty())
    }
}

/// A reference: a name, then its member path.
pub open spec fn spec_ref(s: Seq<u8>, pos: int) -> Option<(int, RefModel)> {
    match spec_name(s, pos) {
        Some((p, nm)) => {
            let (e, path) = spec_path(s, p);
            Some((e, RefModel { name: nm, path }))
        },
        None => None,
    }
}

// ---------------------------------------------------------------- scalars

/// `true` or `false`.
pub open spec fn spec_bool(s: Seq<u8>, pos: int) -> Option<(int, bool)> {
    if match_lit(s, pos, seq![116, 114, 117, 101]) {
        Some((pos + 4, true))
    } else if match_lit(s, pos, seq![102, 97, 108, 115, 101]) {
        Some((pos + 5, false))
    } else {
        None
    }
}

/// One scalar of the given type: the type-directed dispatch.
pub open spec fn spec_scalar(t: Ty, s: Seq<u8>, pos: int) -> Option<(int, ValueModel)> {
    match t {
        Ty::Bool => match spec_bool(s, pos) {
            Some((p, b)) => Some((p, ValueModel::Bool(b))),
            None => None,
        },
        Ty::U8 => match spec_uint(s, pos, 0xff) {
            Some((p, v)) => Some((p, ValueModel::U8(v as u8))),
            None => None,
        },
        Ty::U16 => match spec_uint(s, pos, 0xffff) {
            Some((p, v)) => Some((p, ValueModel::U16(v as u16))),
            None => None,
        },
        Ty::U32 => match spec_uint(s, pos, 0xffff_ffff) {
            Some((p, v)) => Some((p, ValueModel::U32(v as u32))),
            None => None,
        },
        Ty::U64 => match spec_uint(s, pos, 0xffff_ffff_ffff_ffff) {
            Some((p, v)) => Some((p, ValueModel::U64(v as u64))),
            None => None,
        },
        Ty::I8 => match spec_sint(s, pos, 0x7f) {
            Some((p, v)) => Some((p, ValueModel::I8(v as i8))),
            None => None,
        },
        Ty::I16 => match spec_sint(s, pos, 0x7fff) {
            Some((p, v)) => Some((p, ValueModel::I16(v as i16))),
            None => None,
        },
        Ty::I32 => match spec_sint(s, pos, 0x7fff_ffff) {
            Some((p, v)) => Some((p, ValueModel::I32(v as i32))),
            None => None,
        },
        Ty::I64 => match spec_sint(s, pos, 0x7fff_ffff_ffff_ffff) {
            Some((p, v)) => Some((p, ValueModel::I64(v as i64))),
            None => None,
        },
        Ty::F32 => match spec_float_end(s, pos) {
            Some(e) => Some((e, ValueModel::F32(ascii_str(s.subrange(pos, e))))),
            None => None,
        },
        Ty::F64 => match spec_float_end(s, pos) {
            Some(e) => Some((e, ValueModel::F64(ascii_str(s.subrange(pos, e))))),
            None => None,
        },
        Ty::Str => match spec_string(s, pos) {
            Some((p, cs)) => Some((p, ValueModel::Str(cs))),
            None => None,
        },
        Ty::Ref => match spec_ref(s, pos) {
            Some((p, r)) => Some((p, ValueModel::Ref(r))),
            None => None,
        },
        Ty::Type => match spec_keyword(s, pos) {
            Some((p, t2)) => Some((p, ValueModel::Type(ty_text(t2)))),
            None => None,
        },
    }
}

// ---------------------------------------------------------------- vectors

/// One or more comma-separated scalars of type `t`, each with trailing
/// whitespace.  Stops before a comma that no further scalar follows.
pub open spec fn spec_vec_elems(t: Ty, s: Seq<u8>, pos: int) -> Option<(int, Seq<ValueModel>)>
    decreases s.len() - pos, 1int,
{
    match spec_scalar(t, s, pos) {
        None => None,
        Some((p1, v)) => {
            let p2 = ws_end(s, p1);
            if pos < p2 <= s.len() {
                let (e, rest) = spec_vec_tail(t, s, p2);
                Some((e, seq![v] + rest))
            } else {
                Some((p2, seq![v]))
            }
        },
    }
}

/// What follows one vector element: nothing, or a comma and further
/// elements.  A comma that no element follows is left unconsumed.
pub open spec fn spec_vec_tail(t: Ty, s: Seq<u8>, pos: int) -> (int, Seq<ValueModel>)
    decreases s.len() - pos, 0int,
{
    if 0 <= pos < s.len() && s[pos] == 44 {
        let p3 = ws_end(s, pos + 1);
        if pos < p3 <= s.len() {
            match spec_vec_elems(t, s, p3) {
                Some((e, vs)) => (e, vs),
                None => (pos, Seq::empty()),
            }
        } else {
            (pos, Seq::empty())
        }
    } else {
        (pos, Seq::empty())
    }
}

/// A vector: `{`, whitespace, zero or more scalars, `}`.
pub open spec fn spec_vector(t: Ty, s: Seq<u8>, pos: int) -> Option<(int, Seq<ValueModel>)> {
    if 0 <= pos < s.len() && s[pos] == 123 {
        let p1 = ws_end(s, pos + 1);
        match spec_vec_elems(t, s, p1) {
            Some((e, vs)) => if e < s.len() && s[e] == 125 {
                Some((e + 1, vs))
            } else {
                None
            },
            None => if p1 < s.len() && s[p1] == 125 {
                Some((p1 + 1, Seq::empty()))
            } else {
                None
            },
        }
    } else {
        None
    }
}

/// One row of a matrix: a brace-delimited scalar list, as in a vector,
/// with trailing whitespace.
pub open spec fn spec_row(t: Ty, s: Seq<u8>, pos: int) -> Option<(int, Seq<ValueModel>)> {
    match spec_vector(t, s, pos) {
        Some((p, vs)) => Some((ws_end(s, p), vs)),
        None => None,
    }
}

/// One or more comma-separated rows; the comma follows a row's `}`
/// directly.  Stops before a comma that no further row follows.
pub open spec fn spec_rows(t: Ty, s: Seq<u8>, pos: int) -> Option<(int, Seq<Seq<ValueModel>>)>
    decreases s.len() - pos, 1int,
{
    match spec_row(t, s, pos) {
        None => None,
        Some((p1, row)) => if pos < p1 <= s.len() {
            let (e, rest) = spec_rows_tail(t, s, p1);
            Some((e, seq![row] + rest))
        } else {
            Some((p1, seq![row]))
        },
    }
}

/// What follows one row: nothing, or a comma and further rows.  A comma
/// that no row follows is left unconsumed.
pub open spec fn spec_rows_tail(t: Ty, s: Seq<u8>, pos: int) -> (int, Seq<Seq<ValueModel>>)
    decreases s.len() - pos, 0int,
{
    if 0 <= pos < s.len() && s[pos] == 44 {
        let p2 = ws_end(s, pos + 1);
        if pos < p2 <= s.len() {
            match spec_rows(t, s, p2) {
                Some((e, rows)) => (e, rows),
                None => (pos, Seq::empty()),
            }
        } else {
            (pos, Seq::empty())
        }
    } else {
        (pos, Seq::empty())
    }
}

/// A matrix: `{`, whitespace, zero or more rows, `}`.
pub open spec fn spec_matrix(t: Ty, s: Seq<u8>, pos: int) -> Option<(int, Seq<Seq<ValueModel>>)> {
    if 0 <= pos < s.len() && s[pos] == 123 {
        let p1 = ws_end(s, pos + 1);
        match spec_rows(t, s, p1) {
            Some((e, rows)) => if e < s.len() && s[e] == 125 {
                Some((e + 1, rows))
            } else {
                None
            },
            None => if p1 < s.len() && s[p1] == 125 {
                Some((p1 + 1, Seq::empty()))
            } else {
                None
            },
        }
    } else {
        None
    }
}

// ---------------------------------------------------------------- properties

/// A property value, by ordered choice: boolean; a float literal that
/// carries a fraction or exponent; unsigned then signed 64-bit integer;
/// any float literal; string; reference; type keyword.  Preferring a
/// marked float over the integer alternatives keeps a literal such as
/// `1.5` one value instead of desynchronizing the enclosing list.
pub open spec fn spec_property_value(s: Seq<u8>, pos: int) -> Option<(int, ValueModel)> {
    match spec_bool(s, pos) {
        Some((p, b)) => Some((p, ValueModel::Bool(b))),
        None => {
            let fl = spec_float_end(s, pos);
            if fl is Some && has_float_mark(s, pos, fl->Some_0) {
                Some((fl->Some_0, ValueModel::F64(ascii_str(s.subrange(pos, fl->Some_0)))))
            } else {
                match spec_uint(s, pos, 0xffff_ffff_ffff_ffff) {
                    Some((p, v)) => Some((p, ValueModel::U64(v as u64))),
                    None => match spec_sint(s, pos, 0x7fff_ffff_ffff_ffff) {
                        Some((p, v)) => Some((p, ValueModel::I64(v as i64))),
                        None => match fl {
                            Some(e) => Some((e, ValueModel::F64(ascii_str(s.subrange(pos, e))))),
                            None => match spec_string(s, pos) {
                                Some((p, cs)) => Some((p, ValueModel::Str(cs))),
                                None => match spec_ref(s, pos) {
                                    Some((p, r)) => Some((p, ValueModel::Ref(r))),
                                    None => match spec_keyword(s, pos) {
                                        Some((p, t)) => Some((p, ValueModel::Type(ty_text(t)))),
                                        None => None,
                                    },
                                },
                            },
                        },
                    },
                }
            }
        },
    }
}

/// One property: identifier, `=`, a value, each with trailing whitespace.
pub open spec fn spec_prop(s: Seq<u8>, pos: int) -> Option<(int, (Seq<char>, ValueModel))> {
    match spec_ident(s, pos) {
        None => None,
        Some((p1, id)) => {
            let p2 = ws_end(s, p1);
            if p2 < s.len() && s[p2] == 61 {
                let p3 = ws_end(s, p2 + 1);
                match spec_property_value(s, p3) {
                    Some((p4, v)) => Some((ws_end(s, p4), (id, v))),
                    None => None,
                }
            } else {
                None
            }
        },
    }
}

/// One or more comma-separated properties, in source order.
pub open spec fn spec_prop_list(
    s: Seq<u8>,
    pos: int,
) -> Option<(int, Seq<(Seq<char>, ValueModel)>)>
    decreases s.len() - pos, 1int,
{
    match spec_prop(s, pos) {
        None => None,
        Some((p1, kv)) => if pos < p1 <= s.len() {
            let (e, rest) = spec_prop_tail(s, p1);
            Some((e, seq![kv] + rest))
        } else {
            Some((p1, seq![kv]))
        },
    }
}

/// What follows one property: nothing, or a comma and further
/// properties.  A comma that no property follows is left unconsumed.
pub open spec fn spec_prop_tail(s: Seq<u8>, pos: int) -> (int, Seq<(Seq<char>, ValueModel)>)
    decreases s.len() - pos, 0int,
{
    if 0 <= pos < s.len() && s[pos] == 44 {
        let p2 = ws_end(s, pos + 1);
        if pos < p2 <= s.len() {
            match spec_prop_list(s, p2) {
                Some((e, ps)) => (e, ps),
                None => (pos, Seq::empty()),
            }
        } else {
            (pos, Seq::empty())
        }
    } else {
        (pos, Seq::empty())
    }
}

/// A property list: `(`, whitespace, zero or more properties, `)`,
/// trailing whitespace.  Yields the pairs in source order.
pub open spec fn spec_properties(
    s: Seq<u8>,
    pos: int,
) -> Option<(int, Seq<(Seq<char>, ValueModel)>)> {
    if 0 <= pos < s.len() && s[pos] == 40 {
        let p1 = ws_end(s, pos + 1);
        match spec_prop_list(s, p1) {
            Some((e, ps)) => if e < s.len() && s[e] == 41 {
                Some((ws_end(s, e + 1), ps))
            } else {
                None
            },
            None => if p1 < s.len() && s[p1] == 41 {
                Some((ws_end(s, p1 + 1), Seq::empty()))
            } else {
                None
            },
        }
    } else {
        None
    }
}

// ---------------------------------------------------------------- items

/// A primitive item's value: a vector, else a matrix, else one scalar;
/// the item is yielded without a name.
pub open spec fn spec_primitive_data(t: Ty, s: Seq<u8>, pos: int) -> Option<(int, ItemModel)> {
    match spec_vector(t, s, pos) {
        Some((p, elems)) => Some((p, ItemModel::Vector { name: None, ty: t, elems })),
        None => match spec_matrix(t, s, pos) {
            Some((p, rows)) => Some((p, ItemModel::Matrix { name: None, ty: t, rows })),
            None => match spec_scalar(t, s, pos) {
                Some((p, v)) => Some((p, ItemModel::Primitive { name: None, value: v })),
                None => None,
            },
        },
    }
}

/// A primitive item: type keyword, whitespace, optional name, then the
/// type-directed value; the name is attached once the value is known.
pub open spec fn spec_primitive_item(s: Seq<u8>, pos: int) -> Option<(int, ItemModel)> {
    match spec_keyword(s, pos) {
        None => None,
        Some((p1, t)) => {
            let p2 = ws_end(s, p1);
            let nm = spec_name(s, p2);
            let p3 = if nm is Some {
                nm->Some_0.0
            } else {
                p2
            };
            let n = if nm is Some {
                Some(nm->Some_0.1)
            } else {
                None
            };
            match spec_primitive_data(t, s, p3) {
                Some((p4, item)) => Some((p4, with_name(item, n))),
                None => None,
            }
        },
    }
}

/// A custom item: structure identifier, whitespace, optional name,
/// optional property list, then a brace-delimited body of nested items.
pub open spec fn spec_custom_item(s: Seq<u8>, pos: int) -> Option<(int, ItemModel)>
    decreases s.len() - pos, 1int,
{
    match spec_ident(s, pos) {
        None => None,
        Some((p1, structure)) => {
            let p2 = ws_end(s, p1);
            let nm = spec_name(s, p2);
            let p3 = if nm is Some {
                nm->Some_0.0
            } else {
                p2
            };
            let n = if nm is Some {
                Some(nm->Some_0.1)
            } else {
                None
            };
            let pr = spec_properties(s, p3);
            let p4 = if pr is Some {
                pr->Some_0.0
            } else {
                p3
            };
            let ps = if pr is Some {
                pr->Some_0.1
            } else {
                Seq::empty()
            };
            if p4 < s.len() && s[p4] == 123 {
                let p5 = ws_end(s, p4 + 1);
                if pos < p5 <= s.len() {
                    let (p6, its) = spec_items(s, p5);
                    if p6 < s.len() && s[p6] == 125 {
                        Some(
                            (
                                p6 + 1,
                                ItemModel::Custom {
                                    name: n,
                                    structure,
                                    properties: props_fold(ps),
                                    items: its,
                                },
                            ),
                        )
                    } else {
                        None
                    }
                } else {
                    None
                }
            } else {
                None
            }
        },
    }
}

/// One data item: a primitive item, else a custom item, then trailing
/// whitespace.
pub open spec fn spec_data_item(s: Seq<u8>, pos: int) -> Option<(int, ItemModel)>
    decreases s.len() - pos, 2int,
{
    match spec_primitive_item(s, pos) {
        Some((p, item)) => Some((ws_end(s, p), item)),
        None => match spec_custom_item(s, pos) {
            Some((p, item)) => Some((ws_end(s, p), item)),
            None => None,
        },
    }
}

/// Zero or more data items, as many as match.
pub open spec fn spec_items(s: Seq<u8>, pos: int) -> (int, Seq<ItemModel>)
    decreases s.len() - pos, 3int,
{
    match spec_data_item(s, pos) {
        None => (pos, Seq::empty()),
        Some((p, item)) => if pos < p <= s.len() {
            let (e, rest) = spec_items(s, p);
            (e, seq![item] + rest)
        } else {
            (pos, Seq::empty())
        },
    }
}

/// A document: leading whitespace, one or more data items, end of input.
/// Yields the top-level items in source order.
pub open spec fn spec_document(s: Seq<u8>) -> Option<Seq<ItemModel>> {
    let p0 = ws_end(s, 0);
    let (e, items) = spec_items(s, p0);
    if items.len() >= 1 && e == s.len() {
        Some(items)
    } else {
        None
    }
}


// ---------------------------------------------------------------- laws

/// A scalar literal never begins with `{`.
pub proof fn lemma_scalar_first_byte(t: Ty, s: Seq<u8>, pos: int)
    requires
        spec_scalar(t, s, pos) is Some,
    ensures
        0 <= pos < s.len() && s[pos] != 123,
{
}

/// A primitive item whose value is one bare scalar literal parses to a
/// `Primitive` holding exactly that literal's value: scalar text never
/// begins with `{`, so neither list shape can claim it.
pub proof fn lemma_scalar_yields_primitive(t: Ty, s: Seq<u8>, pos: int, p: int, v: ValueModel)
    requires
        spec_scalar(t, s, pos) == Some((p, v)),
    ensures
        spec_primitive_data(t, s, pos) == Some(
            (p, ItemModel::Primitive { name: None, value: v }),
        ),
{
    lemma_scalar_first_byte(t, s, pos);
}

/// A brace-delimited list of scalars parses to a `Vector` with exactly
/// those elements, in source order.
pub proof fn lemma_list_yields_vector(t: Ty, s: Seq<u8>, pos: int, p: int, vs: Seq<ValueModel>)
    requires
        spec_vector(t, s, pos) == Some((p, vs)),
    ensures
        spec_primitive_data(t, s, pos) == Some(
            (p, ItemModel::Vector { name: None, ty: t, elems: vs }),
        ),
{
}

/// A non-empty, brace-delimited list of brace-delimited scalar lists
/// parses to a `Matrix` with exactly those rows, rows and elements in
/// source order: the first row's `{` rules the flat-list shape out.
pub proof fn lemma_list_of_lists_yields_matrix(
    t: Ty,
    s: Seq<u8>,
    pos: int,
    p: int,
    rows: Seq<Seq<ValueModel>>,
)
    requires
        spec_matrix(t, s, pos) == Some((p, rows)),
        rows.len() > 0,
    ensures
        spec_primitive_data(t, s, pos) == Some(
            (p, ItemModel::Matrix { name: None, ty: t, rows }),
        ),
{
    let p1 = ws_end(s, pos + 1);
    assert(spec_rows(t, s, p1) is Some);
    assert(spec_vector(t, s, p1) is Some);
    assert(s[p1] == 123);
    if spec_scalar(t, s, p1) is Some {
        lemma_scalar_first_byte(t, s, p1);
    }
    assert(spec_vec_elems(t, s, p1) is None);
    assert(spec_vector(t, s, pos) is None);
}


/// For a primitive-type keyword followed by a bare scalar literal valid
/// for it, the item parses to a `Primitive` holding exactly that
/// literal's value.
pub proof fn lemma_keyword_then_scalar(s: Seq<u8>, pos: int, p1: int, t: Ty, p4: int, v: ValueModel)
    requires
        spec_keyword(s, pos) == Some((p1, t)),
        spec_name(s, ws_end(s, p1)) is None,
        spec_scalar(t, s, ws_end(s, p1)) == Some((p4, v)),
    ensures
        spec_primitive_item(s, pos) == Some((p4, ItemModel::Primitive { name: None, value: v })),
{
    lemma_scalar_yields_primitive(t, s, ws_end(s, p1), p4, v);
}

/// No data item begins at a closing brace, so an empty custom body
/// yields no nested items.
#[verifier::rlimit(60)]
pub proof fn lemma_empty_body(s: Seq<u8>, q: int)
    requires
        0 <= q < s.len(),
        s[q] == 125,
    ensures
        spec_items(s, q) == (q, Seq::<ItemModel>::empty()),
{
    assert(spec_keyword(s, q) is None);
    assert(spec_ident(s, q) is None);
    assert(spec_primitive_item(s, q) is None);
    assert(spec_custom_item(s, q) is None);
    assert(spec_data_item(s, q) is None);
}


/// A scalar parsed under type `t` denotes a value tagged `t`.
pub proof fn lemma_scalar_ty(t: Ty, s: Seq<u8>, pos: int, p: int, v: ValueModel)
    requires
        spec_scalar(t, s, pos) == Some((p, v)),
    ensures
        crate::types::value_ty(v) == t,
{
}

/// Every element of a parsed scalar list carries the declared type.
pub proof fn lemma_vec_elems_ty(t: Ty, s: Seq<u8>, pos: int)
    ensures
        match spec_vec_elems(t, s, pos) {
            Some((e, vs)) => forall|i: int|
                0 <= i < vs.len() ==> crate::types::value_ty(#[trigger] vs[i]) == t,
            None => true,
        },
    decreases s.len() - pos, 1int,
{
    match spec_scalar(t, s, pos) {
        None => {},
        Some((p1, v)) => {
            lemma_scalar_ty(t, s, pos, p1, v);
            let p2 = ws_end(s, p1);
            if pos < p2 <= s.len() {
                lemma_vec_tail_ty(t, s, p2);
            }
        },
    }
}

/// Every element of what follows a scalar list element carries the
/// declared type.
pub proof fn lemma_vec_tail_ty(t: Ty, s: Seq<u8>, pos: int)
    ensures
        forall|i: int|
            0 <= i < spec_vec_tail(t, s, pos).1.len() ==> crate::types::value_ty(
                #[trigger] spec_vec_tail(t, s, pos).1[i],
            ) == t,
    decreases s.len() - pos, 0int,
{
    if 0 <= pos < s.len() && s[pos] == 44 {
        let p3 = ws_end(s, pos + 1);
        if pos < p3 <= s.len() {
            lemma_vec_elems_ty(t, s, p3);
        }
    }
}

/// Every element of a parsed vector carries the declared type: the
/// grammar admits no heterogeneous list.
pub proof fn lemma_vector_ty(t: Ty, s: Seq<u8>, pos: int, p: int, vs: Seq<ValueModel>)
    requires
        spec_vector(t, s, pos) == Some((p, vs)),
    ensures
        forall|i: int| 0 <= i < vs.len() ==> crate::types::value_ty(#[trigger] vs[i]) == t,
{
    lemma_vec_elems_ty(t, s, ws_end(s, pos + 1));
}


/// Every element of every parsed row carries the declared type.
pub proof fn lemma_rows_ty(t: Ty, s: Seq<u8>, pos: int)
    ensures
        match spec_rows(t, s, pos) {
            Some((e, rows)) => forall|i: int, j: int|
                0 <= i < rows.len() && 0 <= j < rows[i].len() ==> crate::types::value_ty(
                    #[trigger] rows[i][j],
                ) == t,
            None => true,
        },
    decreases s.len() - pos, 1int,
{
    match spec_row(t, s, pos) {
        None => {},
        Some((p1, row)) => {
            if spec_vector(t, s, pos) is Some {
                let v = spec_vector(t, s, pos)->Some_0;
                lemma_vector_ty(t, s, pos, v.0, v.1);
            }
            if pos < p1 <= s.len() {
                lemma_rows_tail_ty(t, s, p1);
            }
        },
    }
}

/// Every element of the rows that follow one row carries the declared
/// type.
pub proof fn lemma_rows_tail_ty(t: Ty, s: Seq<u8>, pos: int)
    ensures
        forall|i: int, j: int|
            0 <= i < spec_rows_tail(t, s, pos).1.len() && 0 <= j < spec_rows_tail(
                t,
                s,
                pos,
            ).1[i].len() ==> crate::types::value_ty(#[trigger] spec_rows_tail(t, s, pos).1[i][j])
                == t,
    decreases s.len() - pos, 0int,
{
    if 0 <= pos < s.len() && s[pos] == 44 {
        let p2 = ws_end(s, pos + 1);
        if pos < p2 <= s.len() {
            lemma_rows_ty(t, s, p2);
        }
    }
}

/// Every element of every row of a parsed matrix carries the declared
/// type: the grammar admits no heterogeneous matrix either.
pub proof fn lemma_matrix_ty(t: Ty, s: Seq<u8>, pos: int, p: int, rows: Seq<Seq<ValueModel>>)
    requires
        spec_matrix(t, s, pos) == Some((p, rows)),
    ensures
        forall|i: int, j: int|
            0 <= i < rows.len() && 0 <= j < rows[i].len() ==> crate::types::value_ty(
                #[trigger] rows[i][j],
            ) == t,
{
    lemma_rows_ty(t, s, ws_end(s, pos + 1));
}

} // verus!
