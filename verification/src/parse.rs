//! The JSON reader: a recursive-descent parser from UTF-8 bytes to
//! values, specified by a mathematical parser over byte sequences and
//! proved to return exactly what it does. Numbers must be integers
//! that fit in a signed 64-bit word; anything else is rejected, as is
//! a lone surrogate escape. A trailing comma before a closing bracket
//! or brace is tolerated.

use vstd::prelude::*;

use crate::value::JVal;
use crate::value::JsonValue;
use crate::value::jview;
use crate::value::jview_list;
use crate::value::jview_fields;
use crate::value::lemma_jview_list;
use crate::value::lemma_jview_fields;
use crate::table::Table;
use crate::table::records_to_table;
use crate::table::shape_ok;
use crate::table::recs_of;
use crate::table::cols_spec;
use crate::table::rows_spec;
use crate::table::table_consistent;
use crate::PipelineError;

verus! {

/// JSON whitespace.
pub open spec fn is_ws(c: u8) -> bool {
    c == 32 || c == 9 || c == 10 || c == 13
}

/// An ASCII digit.
pub open spec fn is_digit(c: u8) -> bool {
    48 <= c <= 57
}

/// The first position at or after `i` that holds no whitespace.
pub open spec fn skip_ws_spec(s: Seq<u8>, i: int) -> int
    decreases s.len() - i,
{
    if 0 <= i < s.len() && is_ws(s[i]) {
        skip_ws_spec(s, i + 1)
    } else {
        i
    }
}

/// Skipping whitespace never moves backwards nor past the end.
pub proof fn lemma_skip_ws(s: Seq<u8>, i: int)
    requires
        0 <= i <= s.len(),
    ensures
        i <= skip_ws_spec(s, i) <= s.len(),
        skip_ws_spec(s, i) < s.len() ==> !is_ws(s[skip_ws_spec(s, i)]),
    decreases s.len() - i,
{
    if 0 <= i < s.len() && is_ws(s[i]) {
        lemma_skip_ws(s, i + 1);
    }
}

/// The value of an ASCII hex digit, or -1.
pub open spec fn hex_val(c: u8) -> int {
    if 48 <= c <= 57 {
        c - 48
    } else if 97 <= c <= 102 {
        c - 87
    } else if 65 <= c <= 70 {
        c - 55
    } else {
        -1
    }
}

/// The UTF-8 encoding of a code point below 0x10000.
pub open spec fn utf8_bytes(cp: int) -> Seq<u8> {
    if cp < 0x80 {
        seq![cp as u8]
    } else if cp < 0x800 {
        seq![(192 + cp / 64) as u8, (128 + cp % 64) as u8]
    } else {
        seq![(224 + cp / 4096) as u8, (128 + (cp / 64) % 64) as u8, (128 + cp % 64) as u8]
    }
}

/// Parses the body of a string literal starting at `i`, just past the
/// opening quote: the decoded bytes and the position after the closing
/// quote.
pub open spec fn parse_string_spec(s: Seq<u8>, i: int) -> Option<(Seq<u8>, int)>
    decreases s.len() - i,
{
    if i < 0 || i >= s.len() {
        Option::None
    } else if s[i] == 34 {
        Option::Some((Seq::empty(), i + 1))
    } else if s[i] == 92 {
        if i + 1 >= s.len() {
            Option::None
        } else {
            let e = s[i + 1];
            if e == 34 || e == 92 || e == 47 {
                match parse_string_spec(s, i + 2) {
                    Option::Some((rest, j)) => Option::Some((seq![e] + rest, j)),
                    Option::None => Option::None,
                }
            } else if e == 98 || e == 102 || e == 110 || e == 114 || e == 116 {
                let b: u8 = if e == 98 {
                    8
                } else if e == 102 {
                    12
                } else if e == 110 {
                    10
                } else if e == 114 {
                    13
                } else {
                    9
                };
                match parse_string_spec(s, i + 2) {
                    Option::Some((rest, j)) => Option::Some((seq![b] + rest, j)),
                    Option::None => Option::None,
                }
            } else if e == 117 {
                if i + 5 >= s.len() {
                    Option::None
                } else {
                    let h0 = hex_val(s[i + 2]);
                    let h1 = hex_val(s[i + 3]);
                    let h2 = hex_val(s[i + 4]);
                    let h3 = hex_val(s[i + 5]);
                    if h0 < 0 || h1 < 0 || h2 < 0 || h3 < 0 {
                        Option::None
                    } else {
                        let cp = h0 * 4096 + h1 * 256 + h2 * 16 + h3;
                        if 0xD800 <= cp < 0xE000 {
                            Option::None
                        } else {
                            match parse_string_spec(s, i + 6) {
                                Option::Some((rest, j)) => Option::Some((utf8_bytes(cp) + rest, j)),
                                Option::None => Option::None,
                            }
                        }
                    }
                }
            } else {
                Option::None
            }
        }
    } else if s[i] < 32 {
        Option::None
    } else {
        match parse_string_spec(s, i + 1) {
            Option::Some((rest, j)) => Option::Some((seq![s[i]] + rest, j)),
            Option::None => Option::None,
        }
    }
}

/// Parses a run of digits starting at `i` into `acc`, rejecting values
/// beyond the signed 64-bit range; returns the value and the position
/// after the last digit.
pub open spec fn parse_digits_spec(s: Seq<u8>, i: int, acc: int) -> Option<(int, int)>
    decreases s.len() - i,
{
    if 0 <= i < s.len() && is_digit(s[i]) {
        let a2 = acc * 10 + (s[i] - 48);
        if a2 > 0x7fff_ffff_ffff_ffff {
            Option::None
        } else {
            parse_digits_spec(s, i + 1, a2)
        }
    } else {
        Option::Some((acc, i))
    }
}

/// Parses an integer (an optional minus sign and at least one digit)
/// starting at `i`; a fraction or an exponent is rejected.
pub open spec fn parse_int_spec(s: Seq<u8>, i: int) -> Option<(int, int)> {
    let neg = 0 <= i < s.len() && s[i] == 45;
    let d0 = if neg {
        i + 1
    } else {
        i
    };
    if !(0 <= d0 < s.len() && is_digit(s[d0])) {
        Option::None
    } else {
        match parse_digits_spec(s, d0, 0) {
            Option::Some((v, j)) => {
                if j < s.len() && (s[j] == 46 || s[j] == 101 || s[j] == 69) {
                    Option::None
                } else if neg {
                    Option::Some((-v, j))
                } else {
                    Option::Some((v, j))
                }
            },
            Option::None => Option::None,
        }
    }
}

/// Whether the bytes at `i` spell the given keyword.
pub open spec fn keyword_at(s: Seq<u8>, i: int, w: Seq<u8>) -> bool {
    &&& 0 <= i
    &&& i + w.len() <= s.len()
    &&& s.subrange(i, i + w.len() as int) == w
}

/// Parses one JSON value starting at `i`, skipping leading
/// whitespace: the value and the position just after it.
pub open spec fn parse_value_spec(s: Seq<u8>, i: int) -> Option<(JVal, int)>
    decreases s.len() - i, 0int,
{
    if i < 0 || i >= s.len() {
        Option::None
    } else if is_ws(s[i]) {
        parse_value_spec(s, i + 1)
    } else if s[i] == 110 {  // 'n'
        if keyword_at(s, i, seq![110u8, 117u8, 108u8, 108u8]) {
            Option::Some((JVal::Null, i + 4))
        } else {
            Option::None
        }
    } else if s[i] == 116 {  // 't'
        if keyword_at(s, i, seq![116u8, 114u8, 117u8, 101u8]) {
            Option::Some((JVal::Bool(true), i + 4))
        } else {
            Option::None
        }
    } else if s[i] == 102 {  // 'f'
        if keyword_at(s, i, seq![102u8, 97u8, 108u8, 115u8, 101u8]) {
            Option::Some((JVal::Bool(false), i + 5))
        } else {
            Option::None
        }
    } else if s[i] == 34 {  // '"'
        match parse_string_spec(s, i + 1) {
            Option::Some((txt, j)) => Option::Some((JVal::Str(txt), j)),
            Option::None => Option::None,
        }
    } else if s[i] == 45 || is_digit(s[i]) {
        match parse_int_spec(s, i) {
            Option::Some((v, j)) => Option::Some((JVal::Int(v), j)),
            Option::None => Option::None,
        }
    } else if s[i] == 91 {  // '['
        match parse_arr_items_spec(s, i + 1) {
            Option::Some((items, j)) => Option::Some((JVal::Arr(items), j)),
            Option::None => Option::None,
        }
    } else if s[i] == 123 {  // '{'
        match parse_obj_items_spec(s, i + 1) {
            Option::Some((fields, j)) => Option::Some((JVal::Obj(fields), j)),
            Option::None => Option::None,
        }
    } else {
        Option::None
    }
}

/// Parses the rest of an array from the position after `[` or after a
/// comma: closing bracket, or one value and then the separator.
pub open spec fn parse_arr_items_spec(s: Seq<u8>, i: int) -> Option<(Seq<JVal>, int)>
    decreases s.len() - i, 2int,
{
    if i < 0 || i >= s.len() {
        Option::None
    } else if is_ws(s[i]) {
        parse_arr_items_spec(s, i + 1)
    } else if s[i] == 93 {  // ']'
        Option::Some((Seq::empty(), i + 1))
    } else {
        match parse_value_spec(s, i) {
            Option::None => Option::None,
            Option::Some((v, j)) => {
                if j <= i || j > s.len() {
                    Option::None
                } else {
                    match parse_arr_sep_spec(s, j) {
                        Option::Some((rest, m)) => Option::Some((seq![v] + rest, m)),
                        Option::None => Option::None,
                    }
                }
            },
        }
    }
}

/// Parses what follows one array item: a closing bracket, or a comma
/// and the remaining items.
pub open spec fn parse_arr_sep_spec(s: Seq<u8>, i: int) -> Option<(Seq<JVal>, int)>
    decreases s.len() - i, 1int,
{
    if i < 0 || i >= s.len() {
        Option::None
    } else if is_ws(s[i]) {
        parse_arr_sep_spec(s, i + 1)
    } else if s[i] == 93 {  // ']'
        Option::Some((Seq::empty(), i + 1))
    } else if s[i] == 44 {  // ','
        parse_arr_items_spec(s, i + 1)
    } else {
        Option::None
    }
}

/// Parses what follows an object key: a colon and the field's value.
pub open spec fn parse_obj_colon_spec(s: Seq<u8>, i: int) -> Option<(JVal, int)>
    decreases s.len() - i, 1int,
{
    if i < 0 || i >= s.len() {
        Option::None
    } else if is_ws(s[i]) {
        parse_obj_colon_spec(s, i + 1)
    } else if s[i] == 58 {  // ':'
        match parse_value_spec(s, i + 1) {
            Option::Some((v, j)) => {
                if j <= i || j > s.len() {
                    Option::None
                } else {
                    Option::Some((v, j))
                }
            },
            Option::None => Option::None,
        }
    } else {
        Option::None
    }
}

/// Parses the rest of an object from the position after `{` or after a
/// comma: closing brace, or one field and then the separator.
pub open spec fn parse_obj_items_spec(s: Seq<u8>, i: int) -> Option<(Seq<(Seq<u8>, JVal)>, int)>
    decreases s.len() - i, 2int,
{
    if i < 0 || i >= s.len() {
        Option::None
    } else if is_ws(s[i]) {
        parse_obj_items_spec(s, i + 1)
    } else if s[i] == 125 {  // '}'
        Option::Some((Seq::empty(), i + 1))
    } else if s[i] == 34 {  // '"'
        match parse_string_spec(s, i + 1) {
            Option::None => Option::None,
            Option::Some((key, j)) => {
                if j <= i || j > s.len() {
                    Option::None
                } else {
                    match parse_obj_colon_spec(s, j) {
                        Option::None => Option::None,
                        Option::Some((v, j2)) => {
                            if j2 <= j || j2 > s.len() {
                                Option::None
                            } else {
                                match parse_obj_sep_spec(s, j2) {
                                    Option::Some((rest, m)) => Option::Some(
                                        (seq![(key, v)] + rest, m),
                                    ),
                                    Option::None => Option::None,
                                }
                            }
                        },
                    }
                }
            },
        }
    } else {
        Option::None
    }
}

/// Parses what follows one object field: a closing brace, or a comma
/// and the remaining fields.
pub open spec fn parse_obj_sep_spec(s: Seq<u8>, i: int) -> Option<(Seq<(Seq<u8>, JVal)>, int)>
    decreases s.len() - i, 1int,
{
    if i < 0 || i >= s.len() {
        Option::None
    } else if is_ws(s[i]) {
        parse_obj_sep_spec(s, i + 1)
    } else if s[i] == 125 {  // '}'
        Option::Some((Seq::empty(), i + 1))
    } else if s[i] == 44 {  // ','
        parse_obj_items_spec(s, i + 1)
    } else {
        Option::None
    }
}

/// Parses a whole document: one value, possibly surrounded by
/// whitespace, with nothing after it.
pub open spec fn parse_json_spec(s: Seq<u8>) -> Option<JVal> {
    match parse_value_spec(s, 0) {
        Option::None => Option::None,
        Option::Some((v, j)) => {
            if 0 <= j <= s.len() && skip_ws_spec(s, j) == s.len() {
                Option::Some(v)
            } else {
                Option::None
            }
        },
    }
}

/// Skips whitespace.
fn skip_ws(s: &Vec<u8>, i: usize) -> (j: usize)
    requires
        i <= s@.len(),
    ensures
        j as int == skip_ws_spec(s@, i as int),
        i <= j <= s@.len(),
{
    let mut cur = i;
    proof {
        lemma_skip_ws(s@, i as int);
    }
    while cur < s.len() && (s[cur] == 32 || s[cur] == 9 || s[cur] == 10 || s[cur] == 13)
        invariant
            i <= cur <= s@.len(),
            skip_ws_spec(s@, i as int) == skip_ws_spec(s@, cur as int),
        decreases s@.len() - cur,
    {
        cur = cur + 1;
    }
    cur
}

/// Parses a string literal's body; see `parse_string_spec`.
fn p_string(s: &Vec<u8>, i: usize) -> (r: Result<(Vec<u8>, usize), PipelineError>)
    ensures
        r is Ok <==> parse_string_spec(s@, i as int) is Some,
        r matches Ok((txt, j)) ==> parse_string_spec(s@, i as int) == Option::Some(
            (txt@, j as int),
        ) && i < j <= s@.len(),
        r matches Err(e) ==> e is Parse,
    decreases s@.len() - i,
{
    if i >= s.len() {
        return Err(PipelineError::Parse { offset: i });
    }
    let c = s[i];
    if c == 34 {
        let empty: Vec<u8> = Vec::new();
        proof {
            assert(empty@ =~= Seq::<u8>::empty());
        }
        return Ok((empty, i + 1));
    }
    if c == 92 {
        if i + 1 >= s.len() {
            return Err(PipelineError::Parse { offset: i });
        }
        let e = s[i + 1];
        if e == 34 || e == 92 || e == 47 {
            match p_string(s, i + 2) {
                Ok((mut rest, j)) => {
                    rest.insert(0, e);
                    proof {
                        assert(rest@ =~= seq![e] + rest@.drop_first());
                    }
                    return Ok((rest, j));
                },
                Err(er) => {
                    return Err(er);
                },
            }
        }
        if e == 98 || e == 102 || e == 110 || e == 114 || e == 116 {
            let b: u8 = if e == 98 {
                8
            } else if e == 102 {
                12
            } else if e == 110 {
                10
            } else if e == 114 {
                13
            } else {
                9
            };
            match p_string(s, i + 2) {
                Ok((mut rest, j)) => {
                    rest.insert(0, b);
                    proof {
                        assert(rest@ =~= seq![b] + rest@.drop_first());
                    }
                    return Ok((rest, j));
                },
                Err(er) => {
                    return Err(er);
                },
            }
        }
        if e == 117 {
            if s.len() - i < 6 {
                return Err(PipelineError::Parse { offset: i });
            }
            let h0 = hex_digit(s[i + 2]);
            let h1 = hex_digit(s[i + 3]);
            let h2 = hex_digit(s[i + 4]);
            let h3 = hex_digit(s[i + 5]);
            if h0 < 0 || h1 < 0 || h2 < 0 || h3 < 0 {
                return Err(PipelineError::Parse { offset: i });
            }
            let cp: u32 = (h0 as u32) * 4096 + (h1 as u32) * 256 + (h2 as u32) * 16 + (h3 as u32);
            if cp >= 0xD800 && cp < 0xE000 {
                return Err(PipelineError::Parse { offset: i });
            }
            match p_string(s, i + 6) {
                Ok((mut rest, j)) => {
                    if cp < 0x80 {
                        rest.insert(0, cp as u8);
                    } else if cp < 0x800 {
                        rest.insert(0, (128 + cp % 64) as u8);
                        rest.insert(0, (192 + cp / 64) as u8);
                    } else {
                        rest.insert(0, (128 + cp % 64) as u8);
                        rest.insert(0, (128 + (cp / 64) % 64) as u8);
                        rest.insert(0, (224 + cp / 4096) as u8);
                    }
                    proof {
                        assert(rest@ =~= utf8_bytes(cp as int) + rest@.skip(
                            utf8_bytes(cp as int).len() as int,
                        ));
                    }
                    return Ok((rest, j));
                },
                Err(er) => {
                    return Err(er);
                },
            }
        }
        return Err(PipelineError::Parse { offset: i });
    }
    if c < 32 {
        return Err(PipelineError::Parse { offset: i });
    }
    match p_string(s, i + 1) {
        Ok((mut rest, j)) => {
            rest.insert(0, c);
            proof {
                assert(rest@ =~= seq![c] + rest@.drop_first());
            }
            Ok((rest, j))
        },
        Err(er) => Err(er),
    }
}

/// The value of an ASCII hex digit, or -1.
fn hex_digit(c: u8) -> (r: i8)
    ensures
        r as int == hex_val(c),
{
    if 48 <= c && c <= 57 {
        (c - 48) as i8
    } else if 97 <= c && c <= 102 {
        (c - 87) as i8
    } else if 65 <= c && c <= 70 {
        (c - 55) as i8
    } else {
        -1
    }
}

/// Parses an integer; see `parse_int_spec`.
fn p_int(s: &Vec<u8>, i: usize) -> (r: Result<(i64, usize), PipelineError>)
    ensures
        r is Ok <==> parse_int_spec(s@, i as int) is Some,
        r matches Ok((v, j)) ==> parse_int_spec(s@, i as int) == Option::Some(
            (v as int, j as int),
        ) && i < j <= s@.len(),
        r matches Err(e) ==> e is Parse,
{
    let neg = i < s.len() && s[i] == 45;
    let d0 = if neg {
        i + 1
    } else {
        i
    };
    if !(d0 < s.len() && 48 <= s[d0] && s[d0] <= 57) {
        return Err(PipelineError::Parse { offset: i });
    }
    let mut acc: u64 = 0;
    let mut cur = d0;
    while cur < s.len() && 48 <= s[cur] && s[cur] <= 57
        invariant
            d0 <= cur <= s@.len(),
            acc <= 0x7fff_ffff_ffff_ffff,
            neg == (i < s@.len() && s@[i as int] == 45),
            d0 as int == if neg {
                i + 1
            } else {
                i as int
            },
            d0 < s@.len() && is_digit(s@[d0 as int]),
            parse_digits_spec(s@, d0 as int, 0) == parse_digits_spec(s@, cur as int, acc as int),
        decreases s@.len() - cur,
    {
        let d: u64 = (s[cur] - 48) as u64;
        let a2: u128 = acc as u128 * 10 + d as u128;
        if a2 > 0x7fff_ffff_ffff_ffff {
            proof {
                assert(parse_digits_spec(s@, cur as int, acc as int) is None);
                assert(parse_digits_spec(s@, d0 as int, 0) is None);
                assert(parse_int_spec(s@, i as int) is None);
            }
            return Err(PipelineError::Parse { offset: cur });
        }
        acc = a2 as u64;
        cur = cur + 1;
    }
    proof {
        assert(parse_digits_spec(s@, cur as int, acc as int) == Option::Some(
            (acc as int, cur as int),
        ));
    }
    if cur < s.len() && (s[cur] == 46 || s[cur] == 101 || s[cur] == 69) {
        return Err(PipelineError::Parse { offset: cur });
    }
    let v: i64 = if neg {
        -(acc as i64)
    } else {
        acc as i64
    };
    Ok((v, cur))
}

/// Parses one JSON value; see `parse_value_spec`.
fn p_value(s: &Vec<u8>, i: usize) -> (r: Result<(JsonValue, usize), PipelineError>)
    ensures
        r is Ok <==> parse_value_spec(s@, i as int) is Some,
        r matches Ok((v, j)) ==> parse_value_spec(s@, i as int) == Option::Some(
            (v@, j as int),
        ) && i < j <= s@.len(),
        r matches Err(e) ==> e is Parse,
    decreases s@.len() - i, 0int,
{
    if i >= s.len() {
        return Err(PipelineError::Parse { offset: i });
    }
    let c = s[i];
    if c == 32 || c == 9 || c == 10 || c == 13 {
        return p_value(s, i + 1);
    }
    if c == 110 {
        if s.len() - i > 3 && s[i + 1] == 117 && s[i + 2] == 108 && s[i + 3] == 108 {
            proof {
                assert(s@.subrange(i as int, i as int + 4) =~= seq![110u8, 117u8, 108u8, 108u8]);
            }
            return Ok((JsonValue::Null, i + 4));
        }
        proof {
            if keyword_at(s@, i as int, seq![110u8, 117u8, 108u8, 108u8]) {
                assert(s@.subrange(i as int, i as int + 4)[1] == 117);
                assert(s@.subrange(i as int, i as int + 4)[2] == 108);
                assert(s@.subrange(i as int, i as int + 4)[3] == 108);
            }
        }
        return Err(PipelineError::Parse { offset: i });
    }
    if c == 116 {
        if s.len() - i > 3 && s[i + 1] == 114 && s[i + 2] == 117 && s[i + 3] == 101 {
            proof {
                assert(s@.subrange(i as int, i as int + 4) =~= seq![116u8, 114u8, 117u8, 101u8]);
            }
            return Ok((JsonValue::Bool(true), i + 4));
        }
        proof {
            if keyword_at(s@, i as int, seq![116u8, 114u8, 117u8, 101u8]) {
                assert(s@.subrange(i as int, i as int + 4)[1] == 114);
                assert(s@.subrange(i as int, i as int + 4)[2] == 117);
                assert(s@.subrange(i as int, i as int + 4)[3] == 101);
            }
        }
        return Err(PipelineError::Parse { offset: i });
    }
    if c == 102 {
        if s.len() - i > 4 && s[i + 1] == 97 && s[i + 2] == 108 && s[i + 3] == 115 && s[i + 4]
            == 101 {
            proof {
                assert(s@.subrange(i as int, i as int + 5) =~= seq![
                    102u8,
                    97u8,
                    108u8,
                    115u8,
                    101u8,
                ]);
            }
            return Ok((JsonValue::Bool(false), i + 5));
        }
        proof {
            if keyword_at(s@, i as int, seq![102u8, 97u8, 108u8, 115u8, 101u8]) {
                assert(s@.subrange(i as int, i as int + 5)[1] == 97);
                assert(s@.subrange(i as int, i as int + 5)[2] == 108);
                assert(s@.subrange(i as int, i as int + 5)[3] == 115);
                assert(s@.subrange(i as int, i as int + 5)[4] == 101);
            }
        }
        return Err(PipelineError::Parse { offset: i });
    }
    if c == 34 {
        match p_string(s, i + 1) {
            Ok((txt, j)) => {
                let v = JsonValue::Str(txt);
                proof {
                    assert(v@ == JVal::Str(txt@));
                }
                return Ok((v, j));
            },
            Err(er) => {
                return Err(er);
            },
        }
    }
    if c == 45 || (48 <= c && c <= 57) {
        match p_int(s, i) {
            Ok((v, j)) => {
                return Ok((JsonValue::Int(v), j));
            },
            Err(er) => {
                return Err(er);
            },
        }
    }
    if c == 91 {
        match p_arr_items(s, i + 1) {
            Ok((items, j)) => {
                let v = JsonValue::Arr(items);
                proof {
                    lemma_jview_list(items@);
                }
                return Ok((v, j));
            },
            Err(er) => {
                return Err(er);
            },
        }
    }
    if c == 123 {
        match p_obj_items(s, i + 1) {
            Ok((fields, j)) => {
                let v = JsonValue::Obj(fields);
                proof {
                    lemma_jview_fields(fields@);
                }
                return Ok((v, j));
            },
            Err(er) => {
                return Err(er);
            },
        }
    }
    Err(PipelineError::Parse { offset: i })
}

/// Parses the rest of an array; see `parse_arr_items_spec`.
fn p_arr_items(s: &Vec<u8>, i: usize) -> (r: Result<(Vec<JsonValue>, usize), PipelineError>)
    ensures
        r is Ok <==> parse_arr_items_spec(s@, i as int) is Some,
        r matches Ok((items, j)) ==> parse_arr_items_spec(s@, i as int) == Option::Some(
            (jview_list(items@), j as int),
        ) && i < j <= s@.len(),
        r matches Err(e) ==> e is Parse,
    decreases s@.len() - i, 2int,
{
    if i >= s.len() {
        return Err(PipelineError::Parse { offset: i });
    }
    let c = s[i];
    if c == 32 || c == 9 || c == 10 || c == 13 {
        return p_arr_items(s, i + 1);
    }
    if c == 93 {
        let empty: Vec<JsonValue> = Vec::new();
        proof {
            lemma_jview_list(empty@);
            assert(jview_list(empty@) =~= Seq::<JVal>::empty());
        }
        return Ok((empty, i + 1));
    }
    match p_value(s, i) {
        Err(er) => Err(er),
        Ok((v, j)) => {
            match p_arr_sep(s, j) {
                Err(er) => Err(er),
                Ok((mut rest, m)) => {
                    let ghost pre = rest@;
                    rest.insert(0, v);
                    proof {
                        lemma_jview_list(rest@);
                        lemma_jview_list(pre);
                        assert(rest@.len() == pre.len() + 1);
                        assert forall|k: int|
                            0 <= k < rest@.len() implies jview_list(rest@)[k] == (seq![v@]
                            + jview_list(pre))[k] by {
                            if k > 0 {
                                assert(rest@[k] == pre[k - 1]);
                            }
                        }
                        assert(jview_list(rest@) =~= seq![v@] + jview_list(pre));
                    }
                    Ok((rest, m))
                },
            }
        },
    }
}

/// Parses what follows one array item; see `parse_arr_sep_spec`.
fn p_arr_sep(s: &Vec<u8>, i: usize) -> (r: Result<(Vec<JsonValue>, usize), PipelineError>)
    ensures
        r is Ok <==> parse_arr_sep_spec(s@, i as int) is Some,
        r matches Ok((items, j)) ==> parse_arr_sep_spec(s@, i as int) == Option::Some(
            (jview_list(items@), j as int),
        ) && i < j <= s@.len(),
        r matches Err(e) ==> e is Parse,
    decreases s@.len() - i, 1int,
{
    if i >= s.len() {
        return Err(PipelineError::Parse { offset: i });
    }
    let c = s[i];
    if c == 32 || c == 9 || c == 10 || c == 13 {
        return p_arr_sep(s, i + 1);
    }
    if c == 93 {
        let empty: Vec<JsonValue> = Vec::new();
        proof {
            lemma_jview_list(empty@);
            assert(jview_list(empty@) =~= Seq::<JVal>::empty());
        }
        return Ok((empty, i + 1));
    }
    if c == 44 {
        return p_arr_items(s, i + 1);
    }
    Err(PipelineError::Parse { offset: i })
}

/// Parses what follows an object key; see `parse_obj_colon_spec`.
fn p_obj_colon(s: &Vec<u8>, i: usize) -> (r: Result<(JsonValue, usize), PipelineError>)
    ensures
        r is Ok <==> parse_obj_colon_spec(s@, i as int) is Some,
        r matches Ok((v, j)) ==> parse_obj_colon_spec(s@, i as int) == Option::Some(
            (v@, j as int),
        ) && i < j <= s@.len(),
        r matches Err(e) ==> e is Parse,
    decreases s@.len() - i, 1int,
{
    if i >= s.len() {
        return Err(PipelineError::Parse { offset: i });
    }
    let c = s[i];
    if c == 32 || c == 9 || c == 10 || c == 13 {
        return p_obj_colon(s, i + 1);
    }
    if c == 58 {
        match p_value(s, i + 1) {
            Ok((v, j)) => Ok((v, j)),
            Err(er) => Err(er),
        }
    } else {
        Err(PipelineError::Parse { offset: i })
    }
}

/// Parses the rest of an object; see `parse_obj_items_spec`.
fn p_obj_items(s: &Vec<u8>, i: usize) -> (r: Result<
    (Vec<(Vec<u8>, JsonValue)>, usize),
    PipelineError,
>)
    ensures
        r is Ok <==> parse_obj_items_spec(s@, i as int) is Some,
        r matches Ok((fields, j)) ==> parse_obj_items_spec(s@, i as int) == Option::Some(
            (jview_fields(fields@), j as int),
        ) && i < j <= s@.len(),
        r matches Err(e) ==> e is Parse,
    decreases s@.len() - i, 2int,
{
    if i >= s.len() {
        return Err(PipelineError::Parse { offset: i });
    }
    let c = s[i];
    if c == 32 || c == 9 || c == 10 || c == 13 {
        return p_obj_items(s, i + 1);
    }
    if c == 125 {
        let empty: Vec<(Vec<u8>, JsonValue)> = Vec::new();
        proof {
            lemma_jview_fields(empty@);
            assert(jview_fields(empty@) =~= Seq::<(Seq<u8>, JVal)>::empty());
        }
        return Ok((empty, i + 1));
    }
    if c != 34 {
        return Err(PipelineError::Parse { offset: i });
    }
    match p_string(s, i + 1) {
        Err(er) => Err(er),
        Ok((key, j)) => {
            match p_obj_colon(s, j) {
                Err(er) => Err(er),
                Ok((v, j2)) => {
                    match p_obj_sep(s, j2) {
                        Err(er) => Err(er),
                        Ok((mut rest, m)) => {
                            let ghost pre = rest@;
                            let ghost keyv = key@;
                            let ghost vv = v@;
                            rest.insert(0, (key, v));
                            proof {
                                lemma_jview_fields(rest@);
                                lemma_jview_fields(pre);
                                assert(rest@.len() == pre.len() + 1);
                                assert forall|k: int|
                                    0 <= k < rest@.len() implies jview_fields(rest@)[k] == (seq![
                                    (keyv, vv),
                                ] + jview_fields(pre))[k] by {
                                    if k > 0 {
                                        assert(rest@[k] == pre[k - 1]);
                                    } else {
                                        assert(rest@[0] == (rest@[0].0, rest@[0].1));
                                        assert(rest@[0].0@ == keyv && rest@[0].1@ == vv);
                                    }
                                }
                                assert(jview_fields(rest@) =~= seq![(keyv, vv)] + jview_fields(
                                    pre,
                                ));
                            }
                            Ok((rest, m))
                        },
                    }
                },
            }
        },
    }
}

/// Parses what follows one object field; see `parse_obj_sep_spec`.
fn p_obj_sep(s: &Vec<u8>, i: usize) -> (r: Result<
    (Vec<(Vec<u8>, JsonValue)>, usize),
    PipelineError,
>)
    ensures
        r is Ok <==> parse_obj_sep_spec(s@, i as int) is Some,
        r matches Ok((fields, j)) ==> parse_obj_sep_spec(s@, i as int) == Option::Some(
            (jview_fields(fields@), j as int),
        ) && i < j <= s@.len(),
        r matches Err(e) ==> e is Parse,
    decreases s@.len() - i, 1int,
{
    if i >= s.len() {
        return Err(PipelineError::Parse { offset: i });
    }
    let c = s[i];
    if c == 32 || c == 9 || c == 10 || c == 13 {
        return p_obj_sep(s, i + 1);
    }
    if c == 125 {
        let empty: Vec<(Vec<u8>, JsonValue)> = Vec::new();
        proof {
            lemma_jview_fields(empty@);
            assert(jview_fields(empty@) =~= Seq::<(Seq<u8>, JVal)>::empty());
        }
        return Ok((empty, i + 1));
    }
    if c == 44 {
        return p_obj_items(s, i + 1);
    }
    Err(PipelineError::Parse { offset: i })
}

/// Parses raw battle-log text into a table: one row per record, one
/// column per distinct key in order of first appearance, missing keys
/// filled with null. Fails with `Parse` on malformed JSON or on a
/// payload that does not carry an array of objects, and with
/// `SchemaInference` when two rows disagree about a column's type.
pub fn parse_records(text: &Vec<u8>) -> (r: Result<Table, PipelineError>)
    ensures
        r is Ok <==> parse_json_spec(text@) is Some && shape_ok(parse_json_spec(text@)->Some_0)
            && table_consistent(
            rows_spec(
                recs_of(parse_json_spec(text@)->Some_0),
                cols_spec(recs_of(parse_json_spec(text@)->Some_0)),
            ),
            cols_spec(recs_of(parse_json_spec(text@)->Some_0)).len() as int,
        ),
        r matches Ok(t) ==> {
            let recs = recs_of(parse_json_spec(text@)->Some_0);
            &&& t@.cols == cols_spec(recs)
            &&& t@.rows == rows_spec(recs, cols_spec(recs))
            &&& t@.rows.len() == recs.len()
            &&& t@.wf()
        },
        r matches Err(e) ==> e is Parse || e is SchemaInference,
        r matches Err(e) ==> (e is Parse <==> !(parse_json_spec(text@) is Some && shape_ok(
            parse_json_spec(text@)->Some_0,
        ))),
{
    match parse_json(text) {
        Err(er) => Err(er),
        Ok(v) => records_to_table(&v),
    }
}

/// Parses one whole JSON document: a value, possibly surrounded by
/// whitespace, with nothing after it. On malformed input, fails with
/// `Parse` carrying the offending byte offset.
pub fn parse_json(text: &Vec<u8>) -> (r: Result<JsonValue, PipelineError>)
    ensures
        r is Ok <==> parse_json_spec(text@) is Some,
        r matches Ok(v) ==> parse_json_spec(text@) == Option::Some(v@),
        r matches Err(e) ==> e is Parse,
{
    match p_value(text, 0) {
        Err(er) => Err(er),
        Ok((v, j)) => {
            let k = skip_ws(text, j);
            if k == text.len() {
                Ok(v)
            } else {
                Err(PipelineError::Parse { offset: k })
            }
        },
    }
}

} // verus!
