//! The JSON-like value model and the textual geometry ingestor:
//! a small recursive-descent parser from UTF-8 bytes to `JsonValue`,
//! the exactly-specified extraction from values to geometry features,
//! and the best-effort recovery of feature objects from partial text
//! by brace matching.
//!
//! Numbers are held in micro-units (`i64`, one millionth), which
//! carries geographic coordinates exactly to the precision the
//! engine uses everywhere else; magnitudes beyond the supported
//! range saturate.

use vstd::prelude::*;
use vstd::string::StringSliceAdditionalSpecFns;
use crate::geo::LatLng;
use crate::error::MapError;
use crate::layers::Feature;
use crate::layers::Geometry;
use crate::layers::GeoView;

verus! {

/// A JSON-like value. Strings are raw bytes as they stood in the
/// source (escape sequences are not decoded); numbers are in
/// micro-units.
pub enum JsonValue {
    Null,
    Bool(bool),
    Num(i64),
    Str(Vec<u8>),
    Arr(Vec<JsonValue>),
    Obj(Vec<(Vec<u8>, JsonValue)>),
}


/// The mathematical shape of a JSON value: the same tree over
/// sequences, with numbers as integers. The deep view `jm` below
/// carries metadata payloads through contracts, since equality of the
/// container-bearing values themselves is not expressible.
#[verifier::ext_equal]
pub enum JsonModel {
    Null,
    Bool(bool),
    Num(int),
    Str(Seq<u8>),
    Arr(Seq<JsonModel>),
    Obj(Seq<(Seq<u8>, JsonModel)>),
}

/// The deep view of a JSON value.
pub open spec fn jm(v: JsonValue) -> JsonModel
    decreases v,
{
    match v {
        JsonValue::Null => JsonModel::Null,
        JsonValue::Bool(b) => JsonModel::Bool(b),
        JsonValue::Num(x) => JsonModel::Num(x as int),
        JsonValue::Str(bs) => JsonModel::Str(bs@),
        JsonValue::Arr(items) => {
            proof {
                vstd::std_specs::vec::axiom_vec_decreases_to_view(items);
            }
            JsonModel::Arr(jm_list(items@))
        },
        JsonValue::Obj(fields) => {
            proof {
                vstd::std_specs::vec::axiom_vec_decreases_to_view(fields);
            }
            JsonModel::Obj(jm_fields(fields@))
        },
    }
}

/// The deep views of a value list.
pub open spec fn jm_list(s: Seq<JsonValue>) -> Seq<JsonModel>
    decreases s,
{
    if s.len() == 0 {
        Seq::empty()
    } else {
        proof {
            vstd::seq::axiom_seq_len_decreases(s, s.drop_last());
            vstd::seq::axiom_seq_index_decreases(s, s.len() - 1);
        }
        jm_list(s.drop_last()).push(jm(s.last()))
    }
}

/// The deep views of a field list.
pub open spec fn jm_fields(s: Seq<(Vec<u8>, JsonValue)>) -> Seq<(Seq<u8>, JsonModel)>
    decreases s,
{
    if s.len() == 0 {
        Seq::empty()
    } else {
        proof {
            vstd::seq::axiom_seq_len_decreases(s, s.drop_last());
            vstd::seq::axiom_seq_index_decreases(s, s.len() - 1);
        }
        jm_fields(s.drop_last()).push((s.last().0@, jm(s.last().1)))
    }
}

/// Value lists with elementwise equal deep views have equal deep
/// views.
proof fn lemma_jm_list_eq(s1: Seq<JsonValue>, s2: Seq<JsonValue>)
    requires
        s1.len() == s2.len(),
        forall|i: int| 0 <= i < s1.len() ==> jm(#[trigger] s1[i]) == jm(s2[i]),
    ensures
        jm_list(s1) == jm_list(s2),
    decreases s1.len(),
{
    if s1.len() > 0 {
        assert forall|i: int| 0 <= i < s1.drop_last().len() implies jm(
            #[trigger] s1.drop_last()[i],
        ) == jm(s2.drop_last()[i]) by {
            assert(s1.drop_last()[i] == s1[i]);
            assert(s2.drop_last()[i] == s2[i]);
        }
        lemma_jm_list_eq(s1.drop_last(), s2.drop_last());
        assert(jm(s1.last()) == jm(s2[s1.len() - 1]));
    }
}

/// Field lists with elementwise equal keys and deep views have equal
/// deep views.
proof fn lemma_jm_fields_eq(s1: Seq<(Vec<u8>, JsonValue)>, s2: Seq<(Vec<u8>, JsonValue)>)
    requires
        s1.len() == s2.len(),
        forall|i: int|
            0 <= i < s1.len() ==> (#[trigger] s1[i]).0@ == s2[i].0@ && jm(s1[i].1) == jm(
                s2[i].1,
            ),
    ensures
        jm_fields(s1) == jm_fields(s2),
    decreases s1.len(),
{
    if s1.len() > 0 {
        assert forall|i: int| 0 <= i < s1.drop_last().len() implies (
        #[trigger] s1.drop_last()[i]).0@ == s2.drop_last()[i].0@ && jm(s1.drop_last()[i].1)
            == jm(s2.drop_last()[i].1) by {
            assert(s1.drop_last()[i] == s1[i]);
            assert(s2.drop_last()[i] == s2[i]);
        }
        lemma_jm_fields_eq(s1.drop_last(), s2.drop_last());
        assert(s1[s1.len() - 1].0@ == s2[s1.len() - 1].0@);
        assert(jm(s1[s1.len() - 1].1) == jm(s2[s1.len() - 1].1));
    }
}

/// Whether a byte is JSON whitespace.
pub open spec fn is_ws_spec(c: u8) -> bool {
    c == 32 || c == 9 || c == 10 || c == 13
}


/// The first non-blank position at or after `i`.
pub open spec fn sp_ws(s: Seq<u8>, i: int) -> int
    decreases s.len() - i,
    when 0 <= i <= s.len()
{
    if i >= s.len() {
        i
    } else if is_ws_spec(s[i]) {
        sp_ws(s, i + 1)
    } else {
        i
    }
}

/// Where a string body scan ends: from a position inside the quotes,
/// the position after the matching unescaped closing quote.
pub open spec fn sp_str_end(s: Seq<u8>, j: int) -> Option<int>
    decreases s.len() - j,
    when 0 <= j <= s.len()
{
    if j >= s.len() {
        None
    } else if s[j] == 34 {
        Some(j + 1)
    } else if s[j] == 92 && j + 1 < s.len() {
        sp_str_end(s, j + 2)
    } else {
        sp_str_end(s, j + 1)
    }
}

/// Whether a string literal starts at `i`, and where it ends.
pub open spec fn sp_string(s: Seq<u8>, i: int) -> Option<int> {
    if i < s.len() && s[i] == 34 {
        sp_str_end(s, i + 1)
    } else {
        None
    }
}

/// The end of a digit run starting at `j`.
pub open spec fn sp_digits(s: Seq<u8>, j: int) -> int
    decreases s.len() - j,
    when 0 <= j <= s.len()
{
    if j < s.len() && 48 <= s[j] <= 57 {
        sp_digits(s, j + 1)
    } else {
        j
    }
}

/// Whether a number literal starts at `i`, and where it ends:
/// optional minus, digits, optional fraction, optional exponent.
pub open spec fn sp_number(s: Seq<u8>, i: int) -> Option<int> {
    let j0 = if i < s.len() && s[i] == 45 {
        i + 1
    } else {
        i
    };
    if !(j0 < s.len() && 48 <= s[j0] <= 57) {
        None
    } else {
        let j1 = sp_digits(s, j0);
        let frac = if j1 < s.len() && s[j1] == 46 {
            if j1 + 1 < s.len() && 48 <= s[j1 + 1] <= 57 {
                Some(sp_digits(s, j1 + 1))
            } else {
                None
            }
        } else {
            Some(j1)
        };
        match frac {
            None => None,
            Some(j2) => {
                if j2 < s.len() && (s[j2] == 101 || s[j2] == 69) {
                    let j3 = if j2 + 1 < s.len() && (s[j2 + 1] == 43 || s[j2 + 1] == 45) {
                        j2 + 2
                    } else {
                        j2 + 1
                    };
                    if j3 < s.len() && 48 <= s[j3] <= 57 {
                        Some(sp_digits(s, j3))
                    } else {
                        None
                    }
                } else {
                    Some(j2)
                }
            },
        }
    }
}


/// The whole-part accumulator over a digit run, as the parser
/// computes it: ten times the previous value plus the digit, frozen
/// once it would pass the guard bound.
pub open spec fn whole_acc(s: Seq<u8>, j0: int, j: int) -> int
    decreases j - j0,
{
    if j <= j0 {
        0
    } else {
        let prev = whole_acc(s, j0, j - 1);
        if prev < 100000000000000 {
            prev * 10 + (s[j - 1] - 48)
        } else {
            prev
        }
    }
}

/// The fraction accumulator over a digit run: micro-units gathered at
/// descending powers of ten, six digits deep.
pub open spec fn frac_acc(s: Seq<u8>, j0: int, j: int, init: int) -> (int, int)
    decreases j - j0,
{
    if j <= j0 {
        (init, 100000)
    } else {
        let prev = frac_acc(s, j0, j - 1, init);
        if prev.1 > 0 {
            (prev.0 + (s[j - 1] - 48) * prev.1, prev.1 / 10)
        } else {
            prev
        }
    }
}

/// The exponent accumulator over a digit run, frozen past the guard.
pub open spec fn exp_acc(s: Seq<u8>, j0: int, j: int) -> int
    decreases j - j0,
{
    if j <= j0 {
        0
    } else {
        let prev = exp_acc(s, j0, j - 1);
        if prev < 20 {
            prev * 10 + (s[j - 1] - 48)
        } else {
            prev
        }
    }
}

/// One decimal-exponent shift of a micro-unit value: division toward
/// zero for a negative exponent, saturated tens otherwise.
pub open spec fn exp_shift(m: int, e: int, neg: bool) -> int
    decreases e,
{
    if e <= 0 {
        m
    } else {
        let m2 = if neg {
            m / 10
        } else {
            if m > 400000000000000000 {
                4000000000000000000
            } else if m < -400000000000000000 {
                -4000000000000000000
            } else {
                m * 10
            }
        };
        exp_shift(m2, e - 1, neg)
    }
}

/// The micro-unit value a number literal denotes, alongside its end:
/// the saturated whole part, the six-digit fraction, the exponent
/// shift and the sign, exactly as the parser computes them.
pub open spec fn sp_number_val(s: Seq<u8>, i: int) -> Option<(int, int)> {
    let neg = i < s.len() && s[i] == 45;
    let j0 = if neg {
        i + 1
    } else {
        i
    };
    if !(j0 < s.len() && 48 <= s[j0] <= 57) {
        None
    } else {
        let j1 = sp_digits(s, j0);
        let whole = whole_acc(s, j0, j1);
        let m0 = if whole > 4000000000000 {
            4000000000000000000int
        } else {
            whole * 1000000
        };
        let fr = if j1 < s.len() && s[j1] == 46 {
            if j1 + 1 < s.len() && 48 <= s[j1 + 1] <= 57 {
                let j2 = sp_digits(s, j1 + 1);
                Some((frac_acc(s, j1 + 1, j2, m0).0, j2))
            } else {
                None
            }
        } else {
            Some((m0, j1))
        };
        match fr {
            None => None,
            Some((m1, j2)) => {
                if j2 < s.len() && (s[j2] == 101 || s[j2] == 69) {
                    let eneg = j2 + 1 < s.len() && s[j2 + 1] == 45;
                    let j3 = if j2 + 1 < s.len() && (s[j2 + 1] == 43 || s[j2 + 1] == 45) {
                        j2 + 2
                    } else {
                        j2 + 1
                    };
                    if j3 < s.len() && 48 <= s[j3] <= 57 {
                        let j4 = sp_digits(s, j3);
                        let m2 = exp_shift(m1, exp_acc(s, j3, j4), eneg);
                        Some((if neg { -m2 } else { m2 }, j4))
                    } else {
                        None
                    }
                } else {
                    Some((if neg { -m1 } else { m1 }, j2))
                }
            },
        }
    }
}

/// Whether a value starts at `i`, and where it ends.
pub open spec fn sp_value(s: Seq<u8>, i: int) -> Option<int>
    decreases s.len() - i, 2int,
    when 0 <= i <= s.len()
{
    if i >= s.len() {
        None
    } else {
        let c = s[i];
        if c == 34 {
            sp_string(s, i)
        } else if c == 91 {
            sp_array(s, i)
        } else if c == 123 {
            sp_object(s, i)
        } else if c == 110 {
            if i + 4 <= s.len() && s[i + 1] == 117 && s[i + 2] == 108 && s[i + 3] == 108 {
                Some(i + 4)
            } else {
                None
            }
        } else if c == 116 {
            if i + 4 <= s.len() && s[i + 1] == 114 && s[i + 2] == 117 && s[i + 3] == 101 {
                Some(i + 4)
            } else {
                None
            }
        } else if c == 102 {
            if i + 5 <= s.len() && s[i + 1] == 97 && s[i + 2] == 108 && s[i + 3] == 115 && s[
                i + 4] == 101 {
                Some(i + 5)
            } else {
                None
            }
        } else if c == 45 || (48 <= c && c <= 57) {
            sp_number(s, i)
        } else {
            None
        }
    }
}

/// Whether an array starts at its opening bracket at `i`, and where
/// it ends.
pub open spec fn sp_array(s: Seq<u8>, i: int) -> Option<int>
    decreases s.len() - i, 1int,
    when 0 <= i < s.len()
{
    let p0 = sp_ws(s, i + 1);
    if p0 < s.len() && s[p0] == 93 {
        Some(p0 + 1)
    } else if i < p0 <= s.len() {
        sp_elems(s, p0)
    } else {
        None
    }
}

/// Whether an element list (with commas and the closing bracket)
/// starts at `pos`, and where it ends.
pub open spec fn sp_elems(s: Seq<u8>, pos: int) -> Option<int>
    decreases s.len() - pos, 3int,
    when 0 <= pos <= s.len()
{
    match sp_value(s, pos) {
        None => None,
        Some(j) => if !(pos < j <= s.len()) {
            None
        } else {
            let k = sp_ws(s, j);
            if k < s.len() && s[k] == 44 {
                let next = sp_ws(s, k + 1);
                if next <= pos || next > s.len() {
                    None
                } else {
                    sp_elems(s, next)
                }
            } else if k < s.len() && s[k] == 93 {
                Some(k + 1)
            } else {
                None
            }
        },
    }
}

/// Whether an object starts at its opening brace at `i`, and where it
/// ends.
pub open spec fn sp_object(s: Seq<u8>, i: int) -> Option<int>
    decreases s.len() - i, 1int,
    when 0 <= i < s.len()
{
    let p0 = sp_ws(s, i + 1);
    if p0 < s.len() && s[p0] == 125 {
        Some(p0 + 1)
    } else if i < p0 <= s.len() {
        sp_fields(s, p0)
    } else {
        None
    }
}

/// Whether a field list (keys, colons, values, commas and the
/// closing brace) starts at `pos`, and where it ends.
pub open spec fn sp_fields(s: Seq<u8>, pos: int) -> Option<int>
    decreases s.len() - pos, 3int,
    when 0 <= pos <= s.len()
{
    if pos >= s.len() {
        None
    } else {
        match sp_string(s, pos) {
            None => None,
            Some(j) => if !(pos < j <= s.len()) {
                None
            } else {
                let colon = sp_ws(s, j);
                if !(colon < s.len() && s[colon] == 58) {
                    None
                } else {
                    let vstart = sp_ws(s, colon + 1);
                    if vstart <= pos || vstart > s.len() {
                        None
                    } else {
                        match sp_value(s, vstart) {
                            None => None,
                            Some(j2) => if !(vstart < j2 <= s.len()) {
                                None
                            } else {
                                let k = sp_ws(s, j2);
                                if k < s.len() && s[k] == 44 {
                                    let next = sp_ws(s, k + 1);
                                    if next <= pos || next > s.len() {
                                        None
                                    } else {
                                        sp_fields(s, next)
                                    }
                                } else if k < s.len() && s[k] == 125 {
                                    Some(k + 1)
                                } else {
                                    None
                                }
                            },
                        }
                    }
                }
            },
        }
    }
}

/// Whether a byte sequence is one well-formed value surrounded only
/// by blanks: the grammar the textual parser accepts.
pub open spec fn json_accepts(s: Seq<u8>) -> bool {
    let a = sp_ws(s, 0);
    a < s.len() && match sp_value(s, a) {
        Some(j) => 0 <= j <= s.len() && sp_ws(s, j) == s.len(),
        None => false,
    }
}

/// Skip whitespace from a position; stops at the first non-blank,
/// exactly where the grammar's blank-skip lands.
fn skip_ws(s: &[u8], i: usize) -> (r: usize)
    requires
        i <= s@.len(),
    ensures
        i <= r <= s@.len(),
        r as int == sp_ws(s@, i as int),
{
    let mut j: usize = i;
    while j < s.len()
        invariant
            i <= j <= s@.len(),
            sp_ws(s@, j as int) == sp_ws(s@, i as int),
        decreases s@.len() - j,
    {
        let c = s[j];
        if !(c == 32 || c == 9 || c == 10 || c == 13) {
            return j;
        }
        j = j + 1;
    }
    j
}

/// Parse a raw string body starting at an opening quote: the bytes up
/// to the matching unescaped closing quote, escapes kept verbatim.
/// Succeeds exactly where the grammar's string production does.
fn parse_string_raw(s: &[u8], i: usize) -> (r: Option<(Vec<u8>, usize)>)
    requires
        i < s@.len(),
    ensures
        r is Some <==> sp_string(s@, i as int) is Some,
        r is Some ==> i < r.unwrap().1 <= s@.len() && r.unwrap().1 as int == sp_string(
            s@,
            i as int,
        ).unwrap(),
{
    let n = s.len();
    if s[i] != 34 {
        return None;
    }
    let mut out: Vec<u8> = Vec::new();
    let mut j: usize = i + 1;
    while j < s.len()
        invariant
            i + 1 <= j <= s@.len(),
            i < s@.len(),
            s@[i as int] == 34,
            sp_str_end(s@, j as int) == sp_str_end(s@, i as int + 1),
        decreases s@.len() - j,
    {
        let c = s[j];
        if c == 34 {
            proof {
                assert(sp_str_end(s@, j as int) == Some(j as int + 1));
            }
            return Some((out, j + 1));
        }
        if c == 92 && j + 1 < s.len() {
            out.push(c);
            out.push(s[j + 1]);
            j = j + 2;
        } else {
            out.push(c);
            j = j + 1;
        }
    }
    proof {
        assert(sp_str_end(s@, j as int) is None);
    }
    None
}

/// Parse a number into micro-units, saturating past the supported
/// magnitude; handles sign, fraction (to six digits) and a small
/// decimal exponent. Succeeds exactly where the grammar's number
/// production does.
fn parse_number(s: &[u8], i: usize) -> (r: Option<(i64, usize)>)
    requires
        i < s@.len(),
    ensures
        r is Some <==> sp_number(s@, i as int) is Some,
        r is Some ==> i < r.unwrap().1 <= s@.len() && r.unwrap().1 as int == sp_number(
            s@,
            i as int,
        ).unwrap(),
        r is Some ==> r.unwrap().0 as int == sp_number_val(s@, i as int).unwrap().0,
{
    let n = s.len();
    let mut j: usize = i;
    let mut neg: bool = false;
    if s[j] == 45 {
        neg = true;
        j = j + 1;
    }
    if j >= s.len() || !(48 <= s[j] && s[j] <= 57) {
        return None;
    }
    let ghost j0 = j as int;
    let mut whole: i64 = 0;
    while j < s.len() && 48 <= s[j] && s[j] <= 57
        invariant
            i <= j0 <= j <= s@.len(),
            j0 < s@.len(),
            48 <= s@[j0] <= 57,
            sp_digits(s@, j as int) == sp_digits(s@, j0),
            whole as int == whole_acc(s@, j0, j as int),
            0 <= whole <= 1000000000000000,
        decreases s@.len() - j,
    {
        if whole < 100000000000000 {
            whole = whole * 10 + ((s[j] - 48) as i64);
        }
        j = j + 1;
    }
    proof {
        assert(j as int == sp_digits(s@, j0));
    }
    let ghost j1 = j as int;
    let mut micro: i64 = if whole > 4000000000000 {
        4000000000000000000
    } else {
        whole * 1000000
    };
    let ghost m0 = micro as int;
    if j < s.len() && s[j] == 46 {
        j = j + 1;
        let mut scale: i64 = 100000;
        if j >= s.len() || !(48 <= s[j] && s[j] <= 57) {
            return None;
        }
        let ghost jf = j as int;
        while j < s.len() && 48 <= s[j] && s[j] <= 57
            invariant
                i < jf <= j <= s@.len(),
                sp_digits(s@, j as int) == sp_digits(s@, jf),
                (micro as int, scale as int) == frac_acc(s@, jf, j as int, m0),
                scale == 100000 || scale == 10000 || scale == 1000 || scale == 100
                    || scale == 10 || scale == 1 || scale == 0,
                0 <= micro,
                micro + 10 * scale <= 4000000000002000000,
            decreases s@.len() - j,
        {
            if scale > 0 {
                let d: i64 = (s[j] - 48) as i64;
                proof {
                    assert(0 <= d * scale <= 900000) by (nonlinear_arith)
                        requires
                            0 <= d <= 9,
                            0 <= scale <= 100000,
                    ;
                }
                micro = micro + d * scale;
                scale = scale / 10;
            }
            j = j + 1;
        }
        proof {
            assert(j as int == sp_digits(s@, jf));
        }
    }
    let ghost j2 = j as int;
    let mut exp: i64 = 0;
    let mut exp_neg: bool = false;
    if j < s.len() && (s[j] == 101 || s[j] == 69) {
        j = j + 1;
        if j < s.len() && (s[j] == 43 || s[j] == 45) {
            exp_neg = s[j] == 45;
            j = j + 1;
        }
        if j >= s.len() || !(48 <= s[j] && s[j] <= 57) {
            return None;
        }
        let ghost je = j as int;
        while j < s.len() && 48 <= s[j] && s[j] <= 57
            invariant
                i < je <= j <= s@.len(),
                sp_digits(s@, j as int) == sp_digits(s@, je),
                exp as int == exp_acc(s@, je, j as int),
                0 <= exp <= 199,
            decreases s@.len() - j,
        {
            if exp < 20 {
                exp = exp * 10 + ((s[j] - 48) as i64);
            }
            j = j + 1;
        }
        proof {
            assert(j as int == sp_digits(s@, je));
        }
    }
    let ghost m1 = micro as int;
    let mut k: i64 = 0;
    while k < exp
        invariant
            0 <= exp <= 199,
            0 <= k <= exp,
            0 <= micro <= 4600000000000000000,
            exp_shift(micro as int, exp - k, exp_neg) == exp_shift(m1, exp as int, exp_neg),
        decreases exp - k,
    {
        if exp_neg {
            proof {
                vstd::arithmetic::div_mod::lemma_div_pos_is_pos(micro as int, 10);
            }
            micro = micro / 10;
        } else {
            if micro > 400000000000000000 {
                micro = 4000000000000000000;
            } else if micro < -400000000000000000 {
                micro = -4000000000000000000;
            } else {
                micro = micro * 10;
            }
        }
        k = k + 1;
    }
    let v: i64 = if neg {
        -micro
    } else {
        micro
    };
    Some((v, j))
}

/// Whether the bytes at a position spell a three-byte keyword tail.
fn match_lit3(s: &[u8], i: usize, a: u8, b: u8, c: u8) -> (r: bool)
    requires
        i <= s@.len(),
    ensures
        r == (i + 3 <= s@.len() && s@[i as int] == a && s@[i + 1] == b && s@[i + 2] == c),
{
    let n = s.len();
    if n < 3 || i > n - 3 {
        return false;
    }
    s[i] == a && s[i + 1] == b && s[i + 2] == c
}

/// Parse one JSON value starting at a non-blank position. Succeeds
/// exactly where the grammar's value production does, ending where it
/// ends.
pub fn parse_value(s: &[u8], i: usize) -> (r: Option<(JsonValue, usize)>)
    requires
        i <= s@.len(),
    ensures
        r is Some <==> sp_value(s@, i as int) is Some,
        r is Some ==> i < r.unwrap().1 <= s@.len() && r.unwrap().1 as int == sp_value(
            s@,
            i as int,
        ).unwrap(),
        r is Some ==> ((r.unwrap().0 is Obj) <==> s@[i as int] == 123),
        r is Some && (s@[i as int] == 45 || (48 <= s@[i as int] <= 57)) ==> (r.unwrap().0
            matches JsonValue::Num(v2) && v2 as int == sp_number_val(s@, i as int).unwrap().0),
    decreases s@.len() - i, 1int,
{
    let n = s.len();
    if i >= n {
        return None;
    }
    let c = s[i];
    if c == 34 {
        match parse_string_raw(s, i) {
            Some((v, j)) => Some((JsonValue::Str(v), j)),
            None => None,
        }
    } else if c == 91 {
        parse_array(s, i)
    } else if c == 123 {
        parse_object(s, i)
    } else if c == 110 && match_lit3(s, i + 1, 117, 108, 108) {
        Some((JsonValue::Null, i + 4))
    } else if c == 116 && match_lit3(s, i + 1, 114, 117, 101) {
        Some((JsonValue::Bool(true), i + 4))
    } else if c == 102 && n - i >= 5 && s[i + 1] == 97 && s[i + 2] == 108 && s[i + 3]
        == 115 && s[i + 4] == 101 {
        Some((JsonValue::Bool(false), i + 5))
    } else if c == 45 || (48 <= c && c <= 57) {
        match parse_number(s, i) {
            Some((v, j)) => Some((JsonValue::Num(v), j)),
            None => None,
        }
    } else {
        None
    }
}

/// Parse an array starting at its opening bracket. Succeeds exactly
/// where the grammar's array production does.
fn parse_array(s: &[u8], i: usize) -> (r: Option<(JsonValue, usize)>)
    requires
        i < s@.len(),
        s@[i as int] == 91,
    ensures
        r is Some <==> sp_array(s@, i as int) is Some,
        r is Some ==> i < r.unwrap().1 <= s@.len() && r.unwrap().1 as int == sp_array(
            s@,
            i as int,
        ).unwrap(),
        r is Some ==> r.unwrap().0 is Arr,
    decreases s@.len() - i, 0int,
{
    let n = s.len();
    let mut items: Vec<JsonValue> = Vec::new();
    let mut pos: usize = skip_ws(s, i + 1);
    if pos < s.len() && s[pos] == 93 {
        return Some((JsonValue::Arr(items), pos + 1));
    }
    loop
        invariant
            i < pos <= s@.len(),
            sp_elems(s@, pos as int) == sp_array(s@, i as int),
        decreases s@.len() - pos,
    {
        let parsed = parse_value(s, pos);
        match parsed {
            Some((v, j)) => {
                items.push(v);
                let k = skip_ws(s, j);
                proof {
                    assert(sp_value(s@, pos as int) == Some(j as int));
                }
                if k < s.len() && s[k] == 44 {
                    let next = skip_ws(s, k + 1);
                    if next <= pos {
                        proof {
                            assert(sp_elems(s@, pos as int) is None);
                        }
                        return None;
                    }
                    proof {
                        assert(sp_elems(s@, pos as int) == sp_elems(s@, next as int));
                    }
                    pos = next;
                } else if k < s.len() && s[k] == 93 {
                    proof {
                        assert(sp_elems(s@, pos as int) == Some(k as int + 1));
                    }
                    return Some((JsonValue::Arr(items), k + 1));
                } else {
                    proof {
                        assert(sp_elems(s@, pos as int) is None);
                    }
                    return None;
                }
            },
            None => {
                proof {
                    assert(sp_elems(s@, pos as int) is None);
                }
                return None;
            },
        }
    }
}

/// Parse an object starting at its opening brace. Succeeds exactly
/// where the grammar's object production does.
fn parse_object(s: &[u8], i: usize) -> (r: Option<(JsonValue, usize)>)
    requires
        i < s@.len(),
        s@[i as int] == 123,
    ensures
        r is Some <==> sp_object(s@, i as int) is Some,
        r is Some ==> i < r.unwrap().1 <= s@.len() && r.unwrap().1 as int == sp_object(
            s@,
            i as int,
        ).unwrap(),
        r is Some ==> r.unwrap().0 is Obj,
    decreases s@.len() - i, 0int,
{
    let n = s.len();
    let mut fields: Vec<(Vec<u8>, JsonValue)> = Vec::new();
    let mut pos: usize = skip_ws(s, i + 1);
    if pos < s.len() && s[pos] == 125 {
        return Some((JsonValue::Obj(fields), pos + 1));
    }
    loop
        invariant
            i < pos <= s@.len(),
            sp_fields(s@, pos as int) == sp_object(s@, i as int),
        decreases s@.len() - pos,
    {
        if pos >= s.len() {
            return None;
        }
        let key = parse_string_raw(s, pos);
        match key {
            Some((kbytes, j)) => {
                let colon = skip_ws(s, j);
                proof {
                    assert(sp_string(s@, pos as int) == Some(j as int));
                }
                if !(colon < s.len() && s[colon] == 58) {
                    proof {
                        assert(sp_fields(s@, pos as int) is None);
                    }
                    return None;
                }
                let vstart = skip_ws(s, colon + 1);
                if vstart <= pos {
                    proof {
                        assert(sp_fields(s@, pos as int) is None);
                    }
                    return None;
                }
                let parsed = parse_value(s, vstart);
                match parsed {
                    Some((v, j2)) => {
                        fields.push((kbytes, v));
                        let k = skip_ws(s, j2);
                        proof {
                            assert(sp_value(s@, vstart as int) == Some(j2 as int));
                        }
                        if k < s.len() && s[k] == 44 {
                            let next = skip_ws(s, k + 1);
                            if next <= pos {
                                proof {
                                    assert(sp_fields(s@, pos as int) is None);
                                }
                                return None;
                            }
                            proof {
                                assert(sp_fields(s@, pos as int) == sp_fields(
                                    s@,
                                    next as int,
                                ));
                            }
                            pos = next;
                        } else if k < s.len() && s[k] == 125 {
                            proof {
                                assert(sp_fields(s@, pos as int) == Some(k as int + 1));
                            }
                            return Some((JsonValue::Obj(fields), k + 1));
                        } else {
                            proof {
                                assert(sp_fields(s@, pos as int) is None);
                            }
                            return None;
                        }
                    },
                    None => {
                        proof {
                            assert(sp_value(s@, vstart as int) is None);
                            assert(sp_fields(s@, pos as int) is None);
                        }
                        return None;
                    },
                }
            },
            None => {
                proof {
                    assert(sp_string(s@, pos as int) is None);
                    assert(sp_fields(s@, pos as int) is None);
                }
                return None;
            },
        }
    }
}

/// Parse a whole document: one value surrounded by whitespace only.
/// Succeeds exactly on the byte sequences `json_accepts` describes,
/// and yields an object exactly when the first significant byte is an
/// opening brace.
pub fn parse_json(s: &[u8]) -> (r: Option<JsonValue>)
    ensures
        r is Some <==> json_accepts(s@),
        r is Some ==> ((r.unwrap() is Obj) <==> s@[sp_ws(s@, 0)] == 123),
{
    let start = skip_ws(s, 0);
    if start >= s.len() {
        return None;
    }
    match parse_value(s, start) {
        Some((v, j)) => {
            let end = skip_ws(s, j);
            if end == s.len() {
                Some(v)
            } else {
                None
            }
        },
        None => None,
    }
}

/// Clone a byte string.
pub fn clone_bytes(v: &Vec<u8>) -> (r: Vec<u8>)
    ensures
        r@ == v@,
{
    let mut out: Vec<u8> = Vec::new();
    let mut i: usize = 0;
    while i < v.len()
        invariant
            i <= v@.len(),
            out@ == v@.take(i as int),
        decreases v@.len() - i,
    {
        out.push(v[i]);
        proof {
            assert(out@ =~= v@.take(i as int + 1));
        }
        i = i + 1;
    }
    proof {
        assert(out@ =~= v@);
    }
    out
}

/// Deep-clone a JSON value: the copy's deep view equals the
/// original's. (Equality of the container-bearing values themselves
/// is not expressible, so the mathematical tree is what is pinned.)
pub fn clone_json(v: &JsonValue) -> (r: JsonValue)
    ensures
        jm(r) == jm(*v),
    decreases *v,
{
    match v {
        JsonValue::Null => JsonValue::Null,
        JsonValue::Bool(b) => JsonValue::Bool(*b),
        JsonValue::Num(x) => JsonValue::Num(*x),
        JsonValue::Str(bytes) => JsonValue::Str(clone_bytes(bytes)),
        JsonValue::Arr(items) => {
            let mut out: Vec<JsonValue> = Vec::new();
            let mut i: usize = 0;
            while i < items.len()
                invariant
                    i <= items@.len(),
                    *v == JsonValue::Arr(*items),
                    out@.len() == i,
                    forall|p: int| 0 <= p < i ==> jm(#[trigger] out@[p]) == jm(items@[p]),
                decreases items@.len() - i, 0int,
            {
                let e = vstd::std_specs::vec::vec_index(items, i);
                proof {
                    vstd::std_specs::vec::axiom_vec_index_decreases(*items, i as int);
                    assert(decreases_to!(*v => v->Arr_0));
                    assert(v->Arr_0 == *items);
                }
                out.push(clone_json(e));
                i = i + 1;
            }
            proof {
                lemma_jm_list_eq(out@, items@);
            }
            JsonValue::Arr(out)
        },
        JsonValue::Obj(fields) => {
            let mut out: Vec<(Vec<u8>, JsonValue)> = Vec::new();
            let mut i: usize = 0;
            while i < fields.len()
                invariant
                    i <= fields@.len(),
                    *v == JsonValue::Obj(*fields),
                    out@.len() == i,
                    forall|p: int|
                        0 <= p < i ==> (#[trigger] out@[p]).0@ == fields@[p].0@ && jm(
                            out@[p].1,
                        ) == jm(fields@[p].1),
                decreases fields@.len() - i, 0int,
            {
                let e = vstd::std_specs::vec::vec_index(fields, i);
                proof {
                    vstd::std_specs::vec::axiom_vec_index_decreases(*fields, i as int);
                    assert(decreases_to!(*v => v->Obj_0));
                    assert(v->Obj_0 == *fields);
                    assert(decreases_to!(fields[i as int] => fields[i as int].1));
                }
                let k = clone_bytes(&e.0);
                let val = clone_json(&e.1);
                out.push((k, val));
                i = i + 1;
            }
            proof {
                lemma_jm_fields_eq(out@, fields@);
            }
            JsonValue::Obj(out)
        },
    }
}

/// The index of the first field bound to a key in an object's field
/// list, if any.
pub fn obj_find(fields: &Vec<(Vec<u8>, JsonValue)>, key: &Vec<u8>) -> (r: Option<usize>)
    ensures
        r is Some ==> {
            let i = r.unwrap() as int;
            &&& 0 <= i < fields@.len()
            &&& fields@[i].0@ == key@
            &&& forall|j: int| 0 <= j < i ==> (#[trigger] fields@[j]).0@ != key@
        },
        r is None ==> forall|j: int|
            0 <= j < fields@.len() ==> (#[trigger] fields@[j]).0@ != key@,
{
    let mut i: usize = 0;
    while i < fields.len()
        invariant
            i <= fields@.len(),
            forall|j: int| 0 <= j < i ==> (#[trigger] fields@[j]).0@ != key@,
        decreases fields@.len() - i,
    {
        let e = vstd::std_specs::vec::vec_index(fields, i);
        if bytes_eq(&e.0, key) {
            return Some(i);
        }
        i = i + 1;
    }
    None
}

/// Whether two byte strings are equal.
pub fn bytes_eq(a: &Vec<u8>, b: &Vec<u8>) -> (r: bool)
    ensures
        r == (a@ == b@),
{
    if a.len() != b.len() {
        proof {
            assert(a@ =~= b@ ==> a@.len() == b@.len());
        }
        return false;
    }
    let mut i: usize = 0;
    while i < a.len()
        invariant
            i <= a@.len(),
            a@.len() == b@.len(),
            forall|j: int| 0 <= j < i ==> a@[j] == b@[j],
        decreases a@.len() - i,
    {
        if a[i] != b[i] {
            return false;
        }
        i = i + 1;
    }
    proof {
        assert(a@ =~= b@);
    }
    true
}


/// A longitude wrapped into [-180, 180) degrees.
pub open spec fn wrapl_spec(x: int) -> int {
    (x + 180000000) % 360000000 - 180000000
}

/// A raw micro-unit magnitude cap applied before wrapping, so that
/// absurd inputs stay within machine range.
pub open spec fn clamp_big_spec(x: int) -> int {
    if x < -4600000000000000000 {
        -4600000000000000000
    } else if x > 4600000000000000000 {
        4600000000000000000
    } else {
        x
    }
}

/// The coordinate a two-element numeric array denotes, in the
/// standard [longitude, latitude] order, clamped and wrapped into
/// valid ranges.
pub open spec fn coord_of_spec(v: JsonValue) -> Option<LatLng> {
    match v {
        JsonValue::Arr(items) => if items@.len() >= 2 {
            match (items@[0], items@[1]) {
                (JsonValue::Num(x), JsonValue::Num(y)) => Some(
                    LatLng {
                        lat: crate::geo::clamp_lat90_spec(y as int) as i64,
                        lng: wrapl_spec(clamp_big_spec(x as int)) as i64,
                    },
                ),
                _ => None,
            }
        } else {
            None
        },
        _ => None,
    }
}

/// The coordinate list an array of positions denotes; any malformed
/// position fails the whole list.
pub open spec fn points_of_spec(items: Seq<JsonValue>) -> Option<Seq<LatLng>>
    decreases items.len(),
{
    if items.len() == 0 {
        Some(Seq::empty())
    } else {
        match (points_of_spec(items.drop_last()), coord_of_spec(items.last())) {
            (Some(ps), Some(c)) => Some(ps.push(c)),
            _ => None,
        }
    }
}

/// A line string: at least two positions.
pub open spec fn line_of_spec(v: JsonValue) -> Option<Seq<LatLng>> {
    match v {
        JsonValue::Arr(items) => match points_of_spec(items@) {
            Some(ps) => if ps.len() >= 2 {
                Some(ps)
            } else {
                None
            },
            None => None,
        },
        _ => None,
    }
}

/// A ring: a line string of at least three positions.
pub open spec fn ring_of_spec(v: JsonValue) -> Option<Seq<LatLng>> {
    match line_of_spec(v) {
        Some(ps) => if ps.len() >= 3 {
            Some(ps)
        } else {
            None
        },
        None => None,
    }
}

/// A list of line strings.
pub open spec fn lines_of_spec(items: Seq<JsonValue>) -> Option<Seq<Seq<LatLng>>>
    decreases items.len(),
{
    if items.len() == 0 {
        Some(Seq::empty())
    } else {
        match (lines_of_spec(items.drop_last()), line_of_spec(items.last())) {
            (Some(ls), Some(l)) => Some(ls.push(l)),
            _ => None,
        }
    }
}

/// A list of rings.
pub open spec fn rings_of_spec(items: Seq<JsonValue>) -> Option<Seq<Seq<LatLng>>>
    decreases items.len(),
{
    if items.len() == 0 {
        Some(Seq::empty())
    } else {
        match (rings_of_spec(items.drop_last()), ring_of_spec(items.last())) {
            (Some(rs), Some(r)) => Some(rs.push(r)),
            _ => None,
        }
    }
}

/// A polygon: at least one ring.
pub open spec fn poly_of_spec(v: JsonValue) -> Option<Seq<Seq<LatLng>>> {
    match v {
        JsonValue::Arr(items) => match rings_of_spec(items@) {
            Some(rs) => if rs.len() >= 1 {
                Some(rs)
            } else {
                None
            },
            None => None,
        },
        _ => None,
    }
}

/// A list of polygons.
pub open spec fn polys_of_spec(items: Seq<JsonValue>) -> Option<Seq<Seq<Seq<LatLng>>>>
    decreases items.len(),
{
    if items.len() == 0 {
        Some(Seq::empty())
    } else {
        match (polys_of_spec(items.drop_last()), poly_of_spec(items.last())) {
            (Some(ps), Some(p)) => Some(ps.push(p)),
            _ => None,
        }
    }
}

/// Clamp and wrap a raw coordinate pair into a valid position.
fn make_coord(x: i64, y: i64) -> (c: LatLng)
    ensures
        c.lat as int == crate::geo::clamp_lat90_spec(y as int),
        c.lng as int == wrapl_spec(clamp_big_spec(x as int)),
        crate::layers::pos_wf(c),
{
    let lat: i64 = if y < -90000000 {
        -90000000
    } else if y > 90000000 {
        90000000
    } else {
        y
    };
    let xw: i64 = if x > 4600000000000000000 {
        4600000000000000000
    } else if x < -4600000000000000000 {
        -4600000000000000000
    } else {
        x
    };
    let w: i64 = crate::geo::wrap_world_x(xw + 180000000, 360000000);
    LatLng { lat, lng: w - 180000000 }
}

/// The bytes of `type`.
pub open spec fn k_type() -> Seq<u8> {
    seq![116u8, 121u8, 112u8, 101u8]
}

/// The bytes of `type`, executably.
pub fn kw_type() -> (v: Vec<u8>)
    ensures
        v@ == k_type(),
{
    let mut v: Vec<u8> = Vec::new();
    v.push(116);
    v.push(121);
    v.push(112);
    v.push(101);
    proof {
        assert(v@ =~= k_type());
    }
    v
}

/// The bytes of `coordinates`.
pub open spec fn k_coordinates() -> Seq<u8> {
    seq![99u8, 111u8, 111u8, 114u8, 100u8, 105u8, 110u8, 97u8, 116u8, 101u8, 115u8]
}

/// The bytes of `coordinates`, executably.
pub fn kw_coordinates() -> (v: Vec<u8>)
    ensures
        v@ == k_coordinates(),
{
    let mut v: Vec<u8> = Vec::new();
    v.push(99);
    v.push(111);
    v.push(111);
    v.push(114);
    v.push(100);
    v.push(105);
    v.push(110);
    v.push(97);
    v.push(116);
    v.push(101);
    v.push(115);
    proof {
        assert(v@ =~= k_coordinates());
    }
    v
}

/// The bytes of `features`.
pub open spec fn k_features() -> Seq<u8> {
    seq![102u8, 101u8, 97u8, 116u8, 117u8, 114u8, 101u8, 115u8]
}

/// The bytes of `features`, executably.
pub fn kw_features() -> (v: Vec<u8>)
    ensures
        v@ == k_features(),
{
    let mut v: Vec<u8> = Vec::new();
    v.push(102);
    v.push(101);
    v.push(97);
    v.push(116);
    v.push(117);
    v.push(114);
    v.push(101);
    v.push(115);
    proof {
        assert(v@ =~= k_features());
    }
    v
}

/// The bytes of `geometry`.
pub open spec fn k_geometry() -> Seq<u8> {
    seq![103u8, 101u8, 111u8, 109u8, 101u8, 116u8, 114u8, 121u8]
}

/// The bytes of `geometry`, executably.
pub fn kw_geometry() -> (v: Vec<u8>)
    ensures
        v@ == k_geometry(),
{
    let mut v: Vec<u8> = Vec::new();
    v.push(103);
    v.push(101);
    v.push(111);
    v.push(109);
    v.push(101);
    v.push(116);
    v.push(114);
    v.push(121);
    proof {
        assert(v@ =~= k_geometry());
    }
    v
}

/// The bytes of `properties`.
pub open spec fn k_properties() -> Seq<u8> {
    seq![112u8, 114u8, 111u8, 112u8, 101u8, 114u8, 116u8, 105u8, 101u8, 115u8]
}

/// The bytes of `properties`, executably.
pub fn kw_properties() -> (v: Vec<u8>)
    ensures
        v@ == k_properties(),
{
    let mut v: Vec<u8> = Vec::new();
    v.push(112);
    v.push(114);
    v.push(111);
    v.push(112);
    v.push(101);
    v.push(114);
    v.push(116);
    v.push(105);
    v.push(101);
    v.push(115);
    proof {
        assert(v@ =~= k_properties());
    }
    v
}

/// The bytes of `id`.
pub open spec fn k_id() -> Seq<u8> {
    seq![105u8, 100u8]
}

/// The bytes of `id`, executably.
pub fn kw_id() -> (v: Vec<u8>)
    ensures
        v@ == k_id(),
{
    let mut v: Vec<u8> = Vec::new();
    v.push(105);
    v.push(100);
    proof {
        assert(v@ =~= k_id());
    }
    v
}

/// The bytes of `Point`.
pub open spec fn k_point() -> Seq<u8> {
    seq![80u8, 111u8, 105u8, 110u8, 116u8]
}

/// The bytes of `Point`, executably.
pub fn kw_point() -> (v: Vec<u8>)
    ensures
        v@ == k_point(),
{
    let mut v: Vec<u8> = Vec::new();
    v.push(80);
    v.push(111);
    v.push(105);
    v.push(110);
    v.push(116);
    proof {
        assert(v@ =~= k_point());
    }
    v
}

/// The bytes of `MultiPoint`.
pub open spec fn k_multipoint() -> Seq<u8> {
    seq![77u8, 117u8, 108u8, 116u8, 105u8, 80u8, 111u8, 105u8, 110u8, 116u8]
}

/// The bytes of `MultiPoint`, executably.
pub fn kw_multipoint() -> (v: Vec<u8>)
    ensures
        v@ == k_multipoint(),
{
    let mut v: Vec<u8> = Vec::new();
    v.push(77);
    v.push(117);
    v.push(108);
    v.push(116);
    v.push(105);
    v.push(80);
    v.push(111);
    v.push(105);
    v.push(110);
    v.push(116);
    proof {
        assert(v@ =~= k_multipoint());
    }
    v
}

/// The bytes of `LineString`.
pub open spec fn k_linestring() -> Seq<u8> {
    seq![76u8, 105u8, 110u8, 101u8, 83u8, 116u8, 114u8, 105u8, 110u8, 103u8]
}

/// The bytes of `LineString`, executably.
pub fn kw_linestring() -> (v: Vec<u8>)
    ensures
        v@ == k_linestring(),
{
    let mut v: Vec<u8> = Vec::new();
    v.push(76);
    v.push(105);
    v.push(110);
    v.push(101);
    v.push(83);
    v.push(116);
    v.push(114);
    v.push(105);
    v.push(110);
    v.push(103);
    proof {
        assert(v@ =~= k_linestring());
    }
    v
}

/// The bytes of `MultiLineString`.
pub open spec fn k_multilinestring() -> Seq<u8> {
    seq![77u8, 117u8, 108u8, 116u8, 105u8, 76u8, 105u8, 110u8, 101u8, 83u8, 116u8, 114u8, 105u8, 110u8, 103u8]
}

/// The bytes of `MultiLineString`, executably.
pub fn kw_multilinestring() -> (v: Vec<u8>)
    ensures
        v@ == k_multilinestring(),
{
    let mut v: Vec<u8> = Vec::new();
    v.push(77);
    v.push(117);
    v.push(108);
    v.push(116);
    v.push(105);
    v.push(76);
    v.push(105);
    v.push(110);
    v.push(101);
    v.push(83);
    v.push(116);
    v.push(114);
    v.push(105);
    v.push(110);
    v.push(103);
    proof {
        assert(v@ =~= k_multilinestring());
    }
    v
}

/// The bytes of `Polygon`.
pub open spec fn k_polygon() -> Seq<u8> {
    seq![80u8, 111u8, 108u8, 121u8, 103u8, 111u8, 110u8]
}

/// The bytes of `Polygon`, executably.
pub fn kw_polygon() -> (v: Vec<u8>)
    ensures
        v@ == k_polygon(),
{
    let mut v: Vec<u8> = Vec::new();
    v.push(80);
    v.push(111);
    v.push(108);
    v.push(121);
    v.push(103);
    v.push(111);
    v.push(110);
    proof {
        assert(v@ =~= k_polygon());
    }
    v
}

/// The bytes of `MultiPolygon`.
pub open spec fn k_multipolygon() -> Seq<u8> {
    seq![77u8, 117u8, 108u8, 116u8, 105u8, 80u8, 111u8, 108u8, 121u8, 103u8, 111u8, 110u8]
}

/// The bytes of `MultiPolygon`, executably.
pub fn kw_multipolygon() -> (v: Vec<u8>)
    ensures
        v@ == k_multipolygon(),
{
    let mut v: Vec<u8> = Vec::new();
    v.push(77);
    v.push(117);
    v.push(108);
    v.push(116);
    v.push(105);
    v.push(80);
    v.push(111);
    v.push(108);
    v.push(121);
    v.push(103);
    v.push(111);
    v.push(110);
    proof {
        assert(v@ =~= k_multipolygon());
    }
    v
}

/// The bytes of `Feature`.
pub open spec fn k_feature() -> Seq<u8> {
    seq![70u8, 101u8, 97u8, 116u8, 117u8, 114u8, 101u8]
}

/// The bytes of `Feature`, executably.
pub fn kw_feature() -> (v: Vec<u8>)
    ensures
        v@ == k_feature(),
{
    let mut v: Vec<u8> = Vec::new();
    v.push(70);
    v.push(101);
    v.push(97);
    v.push(116);
    v.push(117);
    v.push(114);
    v.push(101);
    proof {
        assert(v@ =~= k_feature());
    }
    v
}

/// The bytes of `FeatureCollection`.
pub open spec fn k_featurecollection() -> Seq<u8> {
    seq![70u8, 101u8, 97u8, 116u8, 117u8, 114u8, 101u8, 67u8, 111u8, 108u8, 108u8, 101u8, 99u8, 116u8, 105u8, 111u8, 110u8]
}

/// The bytes of `FeatureCollection`, executably.
pub fn kw_featurecollection() -> (v: Vec<u8>)
    ensures
        v@ == k_featurecollection(),
{
    let mut v: Vec<u8> = Vec::new();
    v.push(70);
    v.push(101);
    v.push(97);
    v.push(116);
    v.push(117);
    v.push(114);
    v.push(101);
    v.push(67);
    v.push(111);
    v.push(108);
    v.push(108);
    v.push(101);
    v.push(99);
    v.push(116);
    v.push(105);
    v.push(111);
    v.push(110);
    proof {
        assert(v@ =~= k_featurecollection());
    }
    v
}


/// A failed prefix fails the whole coordinate list.
proof fn lemma_points_fail(items: Seq<JsonValue>, k: int)
    requires
        0 <= k <= items.len(),
        points_of_spec(items.take(k)) is None,
    ensures
        points_of_spec(items) is None,
    decreases items.len() - k,
{
    if k == items.len() {
        assert(items.take(k) =~= items);
    } else {
        assert(items.take(k + 1).drop_last() =~= items.take(k));
        lemma_points_fail(items, k + 1);
    }
}

/// A failed prefix fails the whole line list.
proof fn lemma_lines_fail(items: Seq<JsonValue>, k: int)
    requires
        0 <= k <= items.len(),
        lines_of_spec(items.take(k)) is None,
    ensures
        lines_of_spec(items) is None,
    decreases items.len() - k,
{
    if k == items.len() {
        assert(items.take(k) =~= items);
    } else {
        assert(items.take(k + 1).drop_last() =~= items.take(k));
        lemma_lines_fail(items, k + 1);
    }
}

/// A failed prefix fails the whole ring list.
proof fn lemma_rings_fail(items: Seq<JsonValue>, k: int)
    requires
        0 <= k <= items.len(),
        rings_of_spec(items.take(k)) is None,
    ensures
        rings_of_spec(items) is None,
    decreases items.len() - k,
{
    if k == items.len() {
        assert(items.take(k) =~= items);
    } else {
        assert(items.take(k + 1).drop_last() =~= items.take(k));
        lemma_rings_fail(items, k + 1);
    }
}

/// A failed prefix fails the whole polygon list.
proof fn lemma_polys_fail(items: Seq<JsonValue>, k: int)
    requires
        0 <= k <= items.len(),
        polys_of_spec(items.take(k)) is None,
    ensures
        polys_of_spec(items) is None,
    decreases items.len() - k,
{
    if k == items.len() {
        assert(items.take(k) =~= items);
    } else {
        assert(items.take(k + 1).drop_last() =~= items.take(k));
        lemma_polys_fail(items, k + 1);
    }
}

/// The first value bound to a key in an object's field list.
pub open spec fn obj_get_spec(fields: Seq<(Vec<u8>, JsonValue)>, key: Seq<u8>) -> Option<
    JsonValue,
>
    decreases fields.len(),
{
    if fields.len() == 0 {
        None
    } else if fields[0].0@ == key {
        Some(fields[0].1)
    } else {
        obj_get_spec(fields.drop_first(), key)
    }
}

/// The first matching field is the one the lookup denotes.
proof fn lemma_obj_get_at(fields: Seq<(Vec<u8>, JsonValue)>, key: Seq<u8>, i: int)
    requires
        0 <= i < fields.len(),
        fields[i].0@ == key,
        forall|j: int| 0 <= j < i ==> (#[trigger] fields[j]).0@ != key,
    ensures
        obj_get_spec(fields, key) == Some(fields[i].1),
    decreases i,
{
    if i == 0 {
    } else {
        assert(fields.drop_first()[i - 1] == fields[i]);
        assert forall|j: int| 0 <= j < i - 1 implies (#[trigger] fields.drop_first()[j]).0@
            != key by {
            assert(fields.drop_first()[j] == fields[j + 1]);
        }
        lemma_obj_get_at(fields.drop_first(), key, i - 1);
    }
}

/// With no matching field, the lookup denotes nothing.
proof fn lemma_obj_get_none(fields: Seq<(Vec<u8>, JsonValue)>, key: Seq<u8>)
    requires
        forall|j: int| 0 <= j < fields.len() ==> (#[trigger] fields[j]).0@ != key,
    ensures
        obj_get_spec(fields, key) is None,
    decreases fields.len(),
{
    if fields.len() == 0 {
    } else {
        assert forall|j: int| 0 <= j < fields.drop_first().len() implies (
        #[trigger] fields.drop_first()[j]).0@ != key by {
            assert(fields.drop_first()[j] == fields[j + 1]);
        }
        lemma_obj_get_none(fields.drop_first(), key);
    }
}

/// The coordinate a position value denotes.
fn coord_of(v: &JsonValue) -> (r: Option<LatLng>)
    ensures
        r == coord_of_spec(*v),
        r is Some ==> crate::layers::pos_wf(r.unwrap()),
{
    match v {
        JsonValue::Arr(items) => {
            if items.len() >= 2 {
                let a = vstd::std_specs::vec::vec_index(items, 0);
                let b = vstd::std_specs::vec::vec_index(items, 1);
                match (a, b) {
                    (JsonValue::Num(x), JsonValue::Num(y)) => Some(make_coord(*x, *y)),
                    _ => None,
                }
            } else {
                None
            }
        },
        _ => None,
    }
}

/// The coordinate list an array denotes.
fn points_of(items: &Vec<JsonValue>) -> (r: Option<Vec<LatLng>>)
    ensures
        r is Some <==> points_of_spec(items@) is Some,
        r is Some ==> r.unwrap()@ == points_of_spec(items@).unwrap(),
        r is Some ==> crate::layers::ring_wf(r.unwrap()@),
{
    let mut out: Vec<LatLng> = Vec::new();
    let mut i: usize = 0;
    while i < items.len()
        invariant
            i <= items@.len(),
            points_of_spec(items@.take(i as int)) == Some(out@),
            crate::layers::ring_wf(out@),
        decreases items@.len() - i,
    {
        let e = vstd::std_specs::vec::vec_index(items, i);
        let c = coord_of(e);
        proof {
            assert(items@.take(i as int + 1).drop_last() =~= items@.take(i as int));
            assert(items@.take(i as int + 1).last() == items@[i as int]);
        }
        match c {
            Some(p) => {
                out.push(p);
            },
            None => {
                proof {
                    lemma_points_fail(items@, i as int + 1);
                }
                return None;
            },
        }
        i = i + 1;
    }
    proof {
        assert(items@.take(items@.len() as int) =~= items@);
    }
    Some(out)
}

/// The line string a value denotes.
fn line_of(v: &JsonValue) -> (r: Option<Vec<LatLng>>)
    ensures
        r is Some <==> line_of_spec(*v) is Some,
        r is Some ==> r.unwrap()@ == line_of_spec(*v).unwrap(),
        r is Some ==> crate::layers::ring_wf(r.unwrap()@),
{
    match v {
        JsonValue::Arr(items) => {
            match points_of(items) {
                Some(ps) => {
                    if ps.len() >= 2 {
                        Some(ps)
                    } else {
                        None
                    }
                },
                None => None,
            }
        },
        _ => None,
    }
}

/// The ring a value denotes.
fn ring_of(v: &JsonValue) -> (r: Option<Vec<LatLng>>)
    ensures
        r is Some <==> ring_of_spec(*v) is Some,
        r is Some ==> r.unwrap()@ == ring_of_spec(*v).unwrap(),
        r is Some ==> crate::layers::ring_wf(r.unwrap()@),
{
    match line_of(v) {
        Some(ps) => {
            if ps.len() >= 3 {
                Some(ps)
            } else {
                None
            }
        },
        None => None,
    }
}

/// The line list an array denotes.
fn lines_of(items: &Vec<JsonValue>) -> (r: Option<Vec<Vec<LatLng>>>)
    ensures
        r is Some <==> lines_of_spec(items@) is Some,
        r is Some ==> r.unwrap()@.map_values(|v: Vec<LatLng>| v@) == lines_of_spec(
            items@,
        ).unwrap(),
        r is Some ==> crate::layers::rings_wf(r.unwrap()@),
{
    let mut out: Vec<Vec<LatLng>> = Vec::new();
    let mut i: usize = 0;
    while i < items.len()
        invariant
            i <= items@.len(),
            lines_of_spec(items@.take(i as int)) == Some(
                out@.map_values(|v: Vec<LatLng>| v@),
            ),
            crate::layers::rings_wf(out@),
        decreases items@.len() - i,
    {
        let e = vstd::std_specs::vec::vec_index(items, i);
        let c = line_of(e);
        proof {
            assert(items@.take(i as int + 1).drop_last() =~= items@.take(i as int));
            assert(items@.take(i as int + 1).last() == items@[i as int]);
        }
        match c {
            Some(l) => {
                let ghost before = out@;
                out.push(l);
                proof {
                    assert(out@.map_values(|v: Vec<LatLng>| v@) =~= before.map_values(
                        |v: Vec<LatLng>| v@,
                    ).push(out@.last()@));
                }
            },
            None => {
                proof {
                    lemma_lines_fail(items@, i as int + 1);
                }
                return None;
            },
        }
        i = i + 1;
    }
    proof {
        assert(items@.take(items@.len() as int) =~= items@);
    }
    Some(out)
}

/// The ring list an array denotes.
fn rings_of(items: &Vec<JsonValue>) -> (r: Option<Vec<Vec<LatLng>>>)
    ensures
        r is Some <==> rings_of_spec(items@) is Some,
        r is Some ==> r.unwrap()@.map_values(|v: Vec<LatLng>| v@) == rings_of_spec(
            items@,
        ).unwrap(),
        r is Some ==> crate::layers::rings_wf(r.unwrap()@),
{
    let mut out: Vec<Vec<LatLng>> = Vec::new();
    let mut i: usize = 0;
    while i < items.len()
        invariant
            i <= items@.len(),
            rings_of_spec(items@.take(i as int)) == Some(
                out@.map_values(|v: Vec<LatLng>| v@),
            ),
            crate::layers::rings_wf(out@),
        decreases items@.len() - i,
    {
        let e = vstd::std_specs::vec::vec_index(items, i);
        let c = ring_of(e);
        proof {
            assert(items@.take(i as int + 1).drop_last() =~= items@.take(i as int));
            assert(items@.take(i as int + 1).last() == items@[i as int]);
        }
        match c {
            Some(l) => {
                let ghost before = out@;
                out.push(l);
                proof {
                    assert(out@.map_values(|v: Vec<LatLng>| v@) =~= before.map_values(
                        |v: Vec<LatLng>| v@,
                    ).push(out@.last()@));
                }
            },
            None => {
                proof {
                    lemma_rings_fail(items@, i as int + 1);
                }
                return None;
            },
        }
        i = i + 1;
    }
    proof {
        assert(items@.take(items@.len() as int) =~= items@);
    }
    Some(out)
}

/// The polygon a value denotes.
fn poly_of(v: &JsonValue) -> (r: Option<Vec<Vec<LatLng>>>)
    ensures
        r is Some <==> poly_of_spec(*v) is Some,
        r is Some ==> r.unwrap()@.map_values(|v2: Vec<LatLng>| v2@) == poly_of_spec(
            *v,
        ).unwrap(),
        r is Some ==> crate::layers::rings_wf(r.unwrap()@),
{
    match v {
        JsonValue::Arr(items) => {
            match rings_of(items) {
                Some(rs) => {
                    if rs.len() >= 1 {
                        Some(rs)
                    } else {
                        None
                    }
                },
                None => None,
            }
        },
        _ => None,
    }
}

/// The polygon list an array denotes.
fn polys_of(items: &Vec<JsonValue>) -> (r: Option<Vec<Vec<Vec<LatLng>>>>)
    ensures
        r is Some <==> polys_of_spec(items@) is Some,
        r is Some ==> r.unwrap()@.map_values(
            |rs: Vec<Vec<LatLng>>| rs@.map_values(|v2: Vec<LatLng>| v2@),
        ) == polys_of_spec(items@).unwrap(),
        r is Some ==> forall|i: int|
            0 <= i < r.unwrap()@.len() ==> crate::layers::rings_wf(
                (#[trigger] r.unwrap()@[i])@,
            ),
{
    let mut out: Vec<Vec<Vec<LatLng>>> = Vec::new();
    let mut i: usize = 0;
    while i < items.len()
        invariant
            i <= items@.len(),
            polys_of_spec(items@.take(i as int)) == Some(
                out@.map_values(|rs: Vec<Vec<LatLng>>| rs@.map_values(|v2: Vec<LatLng>| v2@)),
            ),
            forall|k: int|
                0 <= k < out@.len() ==> crate::layers::rings_wf((#[trigger] out@[k])@),
        decreases items@.len() - i,
    {
        let e = vstd::std_specs::vec::vec_index(items, i);
        let c = poly_of(e);
        proof {
            assert(items@.take(i as int + 1).drop_last() =~= items@.take(i as int));
            assert(items@.take(i as int + 1).last() == items@[i as int]);
        }
        match c {
            Some(p) => {
                let ghost before = out@;
                out.push(p);
                proof {
                    assert(out@.map_values(
                        |rs: Vec<Vec<LatLng>>| rs@.map_values(|v2: Vec<LatLng>| v2@),
                    ) =~= before.map_values(
                        |rs: Vec<Vec<LatLng>>| rs@.map_values(|v2: Vec<LatLng>| v2@),
                    ).push(out@.last()@.map_values(|v2: Vec<LatLng>| v2@)));
                }
            },
            None => {
                proof {
                    lemma_polys_fail(items@, i as int + 1);
                }
                return None;
            },
        }
        i = i + 1;
    }
    proof {
        assert(items@.take(items@.len() as int) =~= items@);
    }
    Some(out)
}


/// Whether a type name names one of the supported geometries.
pub open spec fn supported_geom_type(t: Seq<u8>) -> bool {
    t == k_point() || t == k_multipoint() || t == k_linestring() || t == k_multilinestring()
        || t == k_polygon() || t == k_multipolygon()
}

/// The shape a geometry object with the given type name and
/// coordinates denotes, if well-formed.
pub open spec fn geometry_view_spec(t: Seq<u8>, c: JsonValue) -> Option<GeoView> {
    if t == k_point() {
        match coord_of_spec(c) {
            Some(p) => Some(GeoView::Point(p)),
            None => None,
        }
    } else if t == k_multipoint() {
        match c {
            JsonValue::Arr(items) => match points_of_spec(items@) {
                Some(ps) => Some(GeoView::MultiPoint(ps)),
                None => None,
            },
            _ => None,
        }
    } else if t == k_linestring() {
        match line_of_spec(c) {
            Some(ps) => Some(GeoView::LineString(ps)),
            None => None,
        }
    } else if t == k_multilinestring() {
        match c {
            JsonValue::Arr(items) => match lines_of_spec(items@) {
                Some(ls) => Some(GeoView::MultiLineString(ls)),
                None => None,
            },
            _ => None,
        }
    } else if t == k_polygon() {
        match poly_of_spec(c) {
            Some(rs) => Some(GeoView::Polygon(rs)),
            None => None,
        }
    } else if t == k_multipolygon() {
        match c {
            JsonValue::Arr(items) => match polys_of_spec(items@) {
                Some(ps) => Some(GeoView::MultiPolygon(ps)),
                None => None,
            },
            _ => None,
        }
    } else {
        None
    }
}

/// Build the geometry a type name and coordinate value denote.
fn geometry_from(t: &Vec<u8>, c: &JsonValue) -> (r: Option<Geometry>)
    ensures
        r is Some <==> geometry_view_spec(t@, *c) is Some,
        r is Some ==> r.unwrap()@ == geometry_view_spec(t@, *c).unwrap(),
        r is Some ==> r.unwrap().wf(),
{
    if bytes_eq(t, &kw_point()) {
        match coord_of(c) {
            Some(p) => Some(Geometry::Point(p)),
            None => None,
        }
    } else if bytes_eq(t, &kw_multipoint()) {
        match c {
            JsonValue::Arr(items) => match points_of(items) {
                Some(ps) => Some(Geometry::MultiPoint(ps)),
                None => None,
            },
            _ => None,
        }
    } else if bytes_eq(t, &kw_linestring()) {
        match line_of(c) {
            Some(ps) => Some(Geometry::LineString(ps)),
            None => None,
        }
    } else if bytes_eq(t, &kw_multilinestring()) {
        match c {
            JsonValue::Arr(items) => match lines_of(items) {
                Some(ls) => Some(Geometry::MultiLineString(ls)),
                None => None,
            },
            _ => None,
        }
    } else if bytes_eq(t, &kw_polygon()) {
        match poly_of(c) {
            Some(rs) => Some(Geometry::Polygon(rs)),
            None => None,
        }
    } else if bytes_eq(t, &kw_multipolygon()) {
        match c {
            JsonValue::Arr(items) => match polys_of(items) {
                Some(ps) => Some(Geometry::MultiPolygon(ps)),
                None => None,
            },
            _ => None,
        }
    } else {
        None
    }
}

/// The shape a feature object's geometry denotes, if well-formed.
pub open spec fn feature_geo_spec(v: JsonValue) -> Option<GeoView> {
    match v {
        JsonValue::Obj(fields) => match obj_get_spec(fields@, k_geometry()) {
            Some(g) => match g {
                JsonValue::Obj(gf) => match (
                    obj_get_spec(gf@, k_type()),
                    obj_get_spec(gf@, k_coordinates()),
                ) {
                    (Some(t), Some(c)) => match t {
                        JsonValue::Str(tb) => geometry_view_spec(tb@, c),
                        _ => None,
                    },
                    _ => None,
                },
                _ => None,
            },
            None => None,
        },
        _ => None,
    }
}

/// Build a feature from a feature object: its geometry must denote a
/// shape; object-valued properties and a string or numeric id ride
/// along (carried opaquely).
fn feature_from(v: &JsonValue) -> (r: Option<Feature>)
    ensures
        r is Some <==> feature_geo_spec(*v) is Some,
        r is Some ==> r.unwrap().geometry@ == feature_geo_spec(*v).unwrap(),
        r is Some ==> r.unwrap().wf(),
{
    match v {
        JsonValue::Obj(fields) => {
            let gi = obj_find(fields, &kw_geometry());
            match gi {
                Some(i) => {
                    proof {
                        lemma_obj_get_at(fields@, k_geometry(), i as int);
                    }
                    let gfield = vstd::std_specs::vec::vec_index(fields, i);
                    match &gfield.1 {
                        JsonValue::Obj(gf) => {
                            let ti = obj_find(gf, &kw_type());
                            let ci = obj_find(gf, &kw_coordinates());
                            match (ti, ci) {
                                (Some(a), Some(b)) => {
                                    proof {
                                        lemma_obj_get_at(gf@, k_type(), a as int);
                                        lemma_obj_get_at(gf@, k_coordinates(), b as int);
                                    }
                                    let tfield = vstd::std_specs::vec::vec_index(gf, a);
                                    let cfield = vstd::std_specs::vec::vec_index(gf, b);
                                    match &tfield.1 {
                                        JsonValue::Str(tb) => {
                                            match geometry_from(tb, &cfield.1) {
                                                Some(g) => Some(
                                                    Feature {
                                                        geometry: g,
                                                        properties: feature_properties(fields),
                                                        id: feature_id(fields),
                                                    },
                                                ),
                                                None => None,
                                            }
                                        },
                                        _ => None,
                                    }
                                },
                                (Some(a), None) => {
                                    proof {
                                        lemma_obj_get_none(gf@, k_coordinates());
                                    }
                                    None
                                },
                                (None, _) => {
                                    proof {
                                        lemma_obj_get_none(gf@, k_type());
                                    }
                                    None
                                },
                            }
                        },
                        _ => None,
                    }
                },
                None => {
                    proof {
                        lemma_obj_get_none(fields@, k_geometry());
                    }
                    None
                },
            }
        },
        _ => None,
    }
}

/// The properties payload of a feature object: its `properties`
/// field when that is an object, an empty object otherwise.
fn feature_properties(fields: &Vec<(Vec<u8>, JsonValue)>) -> JsonValue {
    match obj_find(fields, &kw_properties()) {
        Some(i) => {
            let f = vstd::std_specs::vec::vec_index(fields, i);
            match &f.1 {
                JsonValue::Obj(_) => clone_json(&f.1),
                _ => JsonValue::Obj(Vec::new()),
            }
        },
        None => JsonValue::Obj(Vec::new()),
    }
}

/// The id of a feature object, when it is a string or a number.
fn feature_id(fields: &Vec<(Vec<u8>, JsonValue)>) -> Option<JsonValue> {
    match obj_find(fields, &kw_id()) {
        Some(i) => {
            let f = vstd::std_specs::vec::vec_index(fields, i);
            match &f.1 {
                JsonValue::Str(_) => Some(clone_json(&f.1)),
                JsonValue::Num(_) => Some(clone_json(&f.1)),
                _ => None,
            }
        },
        None => None,
    }
}

/// The shapes a feature-collection member list denotes; malformed
/// members are skipped.
pub open spec fn collection_views_spec(items: Seq<JsonValue>) -> Seq<GeoView>
    decreases items.len(),
{
    if items.len() == 0 {
        Seq::empty()
    } else {
        collection_views_spec(items.drop_last()) + (match feature_geo_spec(items.last()) {
            Some(g) => seq![g],
            None => Seq::empty(),
        })
    }
}

/// The shapes a whole document denotes, or why it is rejected: the
/// top level must be an object with a usable `type`; a collection
/// skips its malformed members, a single feature or bare geometry
/// yields at most one shape, and a bare geometry with malformed
/// coordinates is rejected.
pub open spec fn doc_views_spec(v: JsonValue) -> Result<Seq<GeoView>, MapError> {
    match v {
        JsonValue::Obj(fields) => match obj_get_spec(fields@, k_type()) {
            Some(t) => match t {
                JsonValue::Str(tb) => if tb@ == k_featurecollection() {
                    Ok(
                        match obj_get_spec(fields@, k_features()) {
                            Some(fv) => match fv {
                                JsonValue::Arr(items) => collection_views_spec(items@),
                                _ => Seq::empty(),
                            },
                            None => Seq::empty(),
                        },
                    )
                } else if tb@ == k_feature() {
                    Ok(
                        match feature_geo_spec(v) {
                            Some(g) => seq![g],
                            None => Seq::empty(),
                        },
                    )
                } else if supported_geom_type(tb@) {
                    match obj_get_spec(fields@, k_coordinates()) {
                        Some(c) => match geometry_view_spec(tb@, c) {
                            Some(g) => Ok(seq![g]),
                            None => Err(MapError::BadCoordinates),
                        },
                        None => Err(MapError::BadCoordinates),
                    }
                } else {
                    Err(MapError::UnsupportedType)
                },
                _ => Err(MapError::MissingType),
            },
            None => Err(MapError::MissingType),
        },
        _ => Err(MapError::NotAnObject),
    }
}

/// A document rejection is always one of the structural errors, never
/// the textual one.
pub proof fn lemma_doc_error_kinds(v: JsonValue)
    ensures
        doc_views_spec(v) is Err ==> doc_views_spec(v)->Err_0 != MapError::ParseFailed
            && doc_views_spec(v)->Err_0 != MapError::LayerIndexOutOfBounds,
{
}

/// Build the features a parsed document denotes, or the error that
/// rejects it, exactly as `doc_views_spec` describes; every returned
/// feature is well-formed.
pub fn features_of_document(v: &JsonValue) -> (r: Result<Vec<Feature>, MapError>)
    ensures
        r is Ok <==> doc_views_spec(*v) is Ok,
        r is Ok ==> r.unwrap()@.map_values(|f: Feature| f.geometry@) == doc_views_spec(
            *v,
        ).unwrap(),
        r is Ok ==> forall|i: int| 0 <= i < r.unwrap()@.len() ==> (#[trigger] r.unwrap()@[i]).wf(),
        r is Err ==> r->Err_0 == doc_views_spec(*v)->Err_0,
{
    match v {
        JsonValue::Obj(fields) => {
            let ti = obj_find(fields, &kw_type());
            match ti {
                Some(i) => {
                    proof {
                        lemma_obj_get_at(fields@, k_type(), i as int);
                    }
                    let tfield = vstd::std_specs::vec::vec_index(fields, i);
                    match &tfield.1 {
                        JsonValue::Str(tb) => {
                            if bytes_eq(tb, &kw_featurecollection()) {
                                let fi = obj_find(fields, &kw_features());
                                match fi {
                                    Some(j) => {
                                        proof {
                                            lemma_obj_get_at(fields@, k_features(), j as int);
                                        }
                                        let ffield = vstd::std_specs::vec::vec_index(
                                            fields,
                                            j,
                                        );
                                        match &ffield.1 {
                                            JsonValue::Arr(items) => Ok(
                                                collect_features(items),
                                            ),
                                            _ => Ok(Vec::new()),
                                        }
                                    },
                                    None => {
                                        proof {
                                            lemma_obj_get_none(fields@, k_features());
                                        }
                                        Ok(Vec::new())
                                    },
                                }
                            } else if bytes_eq(tb, &kw_feature()) {
                                let mut out: Vec<Feature> = Vec::new();
                                match feature_from(v) {
                                    Some(f) => {
                                        out.push(f);
                                        proof {
                                            assert(out@.map_values(
                                                |f2: Feature| f2.geometry@,
                                            ) =~= seq![feature_geo_spec(*v).unwrap()]);
                                        }
                                        Ok(out)
                                    },
                                    None => {
                                        proof {
                                            assert(out@.map_values(
                                                |f2: Feature| f2.geometry@,
                                            ) =~= Seq::<GeoView>::empty());
                                        }
                                        Ok(out)
                                    },
                                }
                            } else if bytes_eq(tb, &kw_point()) || bytes_eq(
                                tb,
                                &kw_multipoint(),
                            ) || bytes_eq(tb, &kw_linestring()) || bytes_eq(
                                tb,
                                &kw_multilinestring(),
                            ) || bytes_eq(tb, &kw_polygon()) || bytes_eq(
                                tb,
                                &kw_multipolygon(),
                            ) {
                                let ci = obj_find(fields, &kw_coordinates());
                                match ci {
                                    Some(j) => {
                                        proof {
                                            lemma_obj_get_at(
                                                fields@,
                                                k_coordinates(),
                                                j as int,
                                            );
                                        }
                                        let cfield = vstd::std_specs::vec::vec_index(
                                            fields,
                                            j,
                                        );
                                        match geometry_from(tb, &cfield.1) {
                                            Some(g) => {
                                                let mut out: Vec<Feature> = Vec::new();
                                                out.push(
                                                    Feature {
                                                        geometry: g,
                                                        properties: JsonValue::Obj(Vec::new()),
                                                        id: None,
                                                    },
                                                );
                                                proof {
                                                    assert(out@.map_values(
                                                        |f2: Feature| f2.geometry@,
                                                    ) =~= seq![geometry_view_spec(tb@, fields@[j as int].1).unwrap()]);
                                                }
                                                Ok(out)
                                            },
                                            None => Err(MapError::BadCoordinates),
                                        }
                                    },
                                    None => {
                                        proof {
                                            lemma_obj_get_none(fields@, k_coordinates());
                                        }
                                        Err(MapError::BadCoordinates)
                                    },
                                }
                            } else {
                                Err(MapError::UnsupportedType)
                            }
                        },
                        _ => Err(MapError::MissingType),
                    }
                },
                None => {
                    proof {
                        lemma_obj_get_none(fields@, k_type());
                    }
                    Err(MapError::MissingType)
                },
            }
        },
        _ => Err(MapError::NotAnObject),
    }
}

/// Build every feature a member list denotes, skipping malformed
/// members.
fn collect_features(items: &Vec<JsonValue>) -> (r: Vec<Feature>)
    ensures
        r@.map_values(|f: Feature| f.geometry@) == collection_views_spec(items@),
        forall|i: int| 0 <= i < r@.len() ==> (#[trigger] r@[i]).wf(),
{
    let mut out: Vec<Feature> = Vec::new();
    let mut i: usize = 0;
    while i < items.len()
        invariant
            i <= items@.len(),
            out@.map_values(|f: Feature| f.geometry@) == collection_views_spec(
                items@.take(i as int),
            ),
            forall|k: int| 0 <= k < out@.len() ==> (#[trigger] out@[k]).wf(),
        decreases items@.len() - i,
    {
        let e = vstd::std_specs::vec::vec_index(items, i);
        proof {
            assert(items@.take(i as int + 1).drop_last() =~= items@.take(i as int));
            assert(items@.take(i as int + 1).last() == items@[i as int]);
        }
        match feature_from(e) {
            Some(f) => {
                let ghost before = out@;
                out.push(f);
                proof {
                    assert(out@.map_values(|f2: Feature| f2.geometry@) =~= before.map_values(
                        |f2: Feature| f2.geometry@,
                    ).push(out@.last().geometry@));
                }
            },
            None => {
            },
        }
        i = i + 1;
    }
    proof {
        assert(items@.take(items@.len() as int) =~= items@);
    }
    out
}


/// The brace nesting delta of one byte.
pub open spec fn brace_delta(c: u8) -> int {
    if c == 123 {
        1
    } else if c == 125 {
        -1
    } else {
        0
    }
}

/// The brace nesting depth of the byte range [a, b).
pub open spec fn brace_depth(s: Seq<u8>, a: int, b: int) -> int
    decreases b - a,
{
    if a >= b {
        0
    } else {
        brace_depth(s, a, b - 1) + brace_delta(s[b - 1])
    }
}

/// Whether a run of bytes is all JSON whitespace.
pub open spec fn ws_run(s: Seq<u8>, a: int, b: int) -> bool {
    forall|m: int| a <= m < b ==> is_ws_spec(#[trigger] s[m])
}

/// Whether position `p` starts the text `"type"`, optional blanks, a
/// colon, optional blanks, and the text `"Feature"`.
pub open spec fn feature_marker_at(s: Seq<u8>, p: int) -> bool {
    exists|j: int, k: int|
        {
            &&& 0 <= p
            &&& p + 6 <= j
            &&& j < s.len()
            &&& s.subrange(p, p + 6) == seq![34u8, 116u8, 121u8, 112u8, 101u8, 34u8]
            &&& ws_run(s, p + 6, j)
            &&& #[trigger] s[j] == 58
            &&& j + 1 <= k
            &&& k + 9 <= s.len()
            &&& ws_run(s, j + 1, k)
            &&& s.subrange(k, #[trigger] (k + 9)) == seq![
                34u8,
                70u8,
                101u8,
                97u8,
                116u8,
                117u8,
                114u8,
                101u8,
                34u8,
            ]
        }
}

/// Relies on `regex::Regex::find_iter` over the fixed pattern
/// `"type"[ \t\r\n]*:[ \t\r\n]*"Feature"`: every reported match start
/// is a position in the text where that pattern occurs, the starts
/// are strictly increasing (successive non-overlapping matches), and
/// when the text holds any occurrence at all, at least the leftmost
/// one is reported.
#[verifier::external_body]
fn find_feature_markers(s: &str) -> (r: Vec<usize>)
    ensures
        forall|k: int|
            0 <= k < r@.len() ==> feature_marker_at(s.spec_bytes(), #[trigger] r@[k] as int)
                && r@[k] < s.spec_bytes().len(),
        forall|k1: int, k2: int|
            0 <= k1 < k2 < r@.len() ==> #[trigger] r@[k1] < #[trigger] r@[k2],
        (exists|p: int| 0 <= p && #[trigger] feature_marker_at(s.spec_bytes(), p))
            ==> r@.len() > 0,
{
    match regex::Regex::new("\"type\"[ \\t\\r\\n]*:[ \\t\\r\\n]*\"Feature\"") {
        Ok(re) => re.find_iter(s).map(|m| m.start()).collect(),
        Err(_) => Vec::new(),
    }
}

/// The balanced brace span around a position: the nearest opening
/// brace at or before `pos` and the first position after it where the
/// braces rebalance. Nesting is counted bytewise (braces inside
/// strings count too; the recovery is a documented heuristic).
fn extract_balanced(s: &[u8], pos: usize) -> (r: Option<(usize, usize)>)
    requires
        pos < s@.len(),
    ensures
        r is Some ==> {
            let (a, b) = r.unwrap();
            &&& a <= pos
            &&& a < b <= s@.len()
            &&& s@[a as int] == 123
            &&& brace_depth(s@, a as int, b as int) == 0
            &&& forall|m: int| a < m < b ==> brace_depth(s@, a as int, m) > 0
        },
{
    let n = s.len();
    let mut start: usize = pos;
    while s[start] != 123
        invariant
            start <= pos < n == s@.len(),
        decreases start,
    {
        if start == 0 {
            return None;
        }
        start = start - 1;
    }
    let mut depth: u64 = 1;
    let mut j: usize = start + 1;
    proof {
        assert(brace_depth(s@, start as int, start as int) == 0);
        assert(brace_depth(s@, start as int, start as int + 1) == 1);
    }
    while j < n
        invariant
            start < j <= n == s@.len(),
            start <= pos,
            s@[start as int] == 123,
            depth as int == brace_depth(s@, start as int, j as int),
            depth >= 1,
            forall|m: int| start < m < j ==> brace_depth(s@, start as int, m) > 0,
            depth <= j - start,
        decreases n - j,
    {
        let c = s[j];
        proof {
            assert(brace_depth(s@, start as int, j as int + 1) == brace_depth(
                s@,
                start as int,
                j as int,
            ) + brace_delta(s@[j as int]));
        }
        if c == 123 {
            depth = depth + 1;
        } else if c == 125 {
            depth = depth - 1;
            if depth == 0 {
                return Some((start, j + 1));
            }
        }
        j = j + 1;
    }
    None
}

/// Copy a byte range out of a slice.
fn copy_range(s: &[u8], a: usize, b: usize) -> (r: Vec<u8>)
    requires
        a <= b <= s@.len(),
    ensures
        r@ == s@.subrange(a as int, b as int),
{
    let mut out: Vec<u8> = Vec::new();
    let mut i: usize = a;
    while i < b
        invariant
            a <= i <= b <= s@.len(),
            out@ == s@.subrange(a as int, i as int),
        decreases b - i,
    {
        out.push(s[i]);
        proof {
            assert(out@ =~= s@.subrange(a as int, i as int + 1));
        }
        i = i + 1;
    }
    out
}

/// Recover features from a textual fragment that does not parse as a
/// whole document: brace-matched extraction of feature objects
/// around `"type": "Feature"` markers, and on the final fragment a
/// newline-delimited fallback. A best-effort heuristic, not a
/// streaming parser; every recovered feature is well-formed.
pub fn recover_chunk_features(s: &str, is_final: bool) -> (r: Vec<Feature>)
    ensures
        forall|i: int| 0 <= i < r@.len() ==> (#[trigger] r@[i]).wf(),
{
    let bytes: &[u8] = s.as_bytes();
    let mut out: Vec<Feature> = Vec::new();
    let markers = find_feature_markers(s);
    let mut mi: usize = 0;
    while mi < markers.len()
        invariant
            forall|i: int| 0 <= i < out@.len() ==> (#[trigger] out@[i]).wf(),
            forall|k: int|
                0 <= k < markers@.len() ==> #[trigger] markers@[k] < bytes@.len(),
        decreases markers@.len() - mi,
    {
        let pos = markers[mi];
        match extract_balanced(bytes, pos) {
            Some((a, b)) => {
                let span = copy_range(bytes, a, b);
                match parse_json(span.as_slice()) {
                    Some(v) => {
                        match feature_from(&v) {
                            Some(f) => {
                                out.push(f);
                            },
                            None => {},
                        }
                    },
                    None => {},
                }
            },
            None => {},
        }
        mi = mi + 1;
    }
    if out.len() == 0 && is_final {
        let n = bytes.len();
        let mut line_start: usize = 0;
        let mut i: usize = 0;
        while i < n
            invariant
                line_start <= i <= n == bytes@.len(),
                forall|k: int| 0 <= k < out@.len() ==> (#[trigger] out@[k]).wf(),
            decreases n - i,
        {
            if bytes[i] == 10 {
                if line_start < i {
                    parse_line_into(bytes, line_start, i, &mut out);
                }
                line_start = i + 1;
            }
            i = i + 1;
        }
        if line_start < n {
            parse_line_into(bytes, line_start, n, &mut out);
        }
    }
    out
}


/// Parse one newline-delimited fragment and append whatever features
/// it denotes.
fn parse_line_into(bytes: &[u8], a: usize, b: usize, out: &mut Vec<Feature>)
    requires
        a <= b <= bytes@.len(),
        forall|k: int| 0 <= k < old(out)@.len() ==> (#[trigger] old(out)@[k]).wf(),
    ensures
        forall|k: int| 0 <= k < final(out)@.len() ==> (#[trigger] final(out)@[k]).wf(),
{
    let line = copy_range(bytes, a, b);
    match parse_json(line.as_slice()) {
        Some(v) => {
            match features_of_document(&v) {
                Ok(mut fs) => {
                    out.append(&mut fs);
                },
                Err(_) => {},
            }
        },
        None => {},
    }
}

} // verus!





