//! CSS-style color parsing into exact 8-bit RGBA channels: hex forms
//! `#rgb`, `#rgba`, `#rrggbb`, `#rrggbbaa` (after ASCII
//! trimming/lowercasing) and a small set of named colors; anything
//! else is opaque black.

use vstd::prelude::*;
use vstd::string::StringSliceAdditionalSpecFns;

verus! {

/// A color as four 8-bit channels.
#[derive(Clone, Copy, Debug, PartialEq, Eq, Hash, Structural)]
pub struct Rgba {
    pub r: u8,
    pub g: u8,
    pub b: u8,
    pub a: u8,
}

/// Whether a byte is an ASCII hex digit (lower case letters only;
/// parsing lowercases first).
pub open spec fn is_hex_spec(c: u8) -> bool {
    (48 <= c <= 57) || (97 <= c <= 102)
}

/// The value of an ASCII hex digit.
pub open spec fn hex_val_spec(c: u8) -> int {
    if 48 <= c <= 57 {
        c - 48
    } else if 97 <= c <= 102 {
        c - 87
    } else {
        0
    }
}

/// ASCII lowercasing of a byte.
pub open spec fn lower_byte_spec(c: u8) -> u8 {
    if 65 <= c <= 90 {
        (c + 32) as u8
    } else {
        c
    }
}

/// Whether a byte is ASCII whitespace (space, tab, or one of the
/// line-break controls).
pub open spec fn trim_ws_spec(c: u8) -> bool {
    c == 32 || (9 <= c <= 13)
}

/// A byte sequence with ASCII whitespace trimmed from both ends and
/// every byte ASCII-lowercased.
pub open spec fn canon_spec(s: Seq<u8>) -> Seq<u8>
    decreases s.len(),
{
    if s.len() > 0 && trim_ws_spec(s[0]) {
        canon_spec(s.drop_first())
    } else if s.len() > 0 && trim_ws_spec(s[s.len() - 1]) {
        canon_spec(s.drop_last())
    } else {
        s.map_values(|c: u8| lower_byte_spec(c))
    }
}

/// Whether every byte of a sequence is a hex digit.
pub open spec fn all_hex_spec(s: Seq<u8>) -> bool {
    forall|i: int| 0 <= i < s.len() ==> is_hex_spec(#[trigger] s[i])
}

/// The channel value of a two-digit hex pair.
pub open spec fn pair_spec(hi: u8, lo: u8) -> int {
    hex_val_spec(hi) * 16 + hex_val_spec(lo)
}

/// The color denoted by a canonical (trimmed, lowercased) byte
/// string. A single hex digit per channel scales by 17, so that `f`
/// means 255 exactly.
pub open spec fn color_of_canon_spec(s: Seq<u8>) -> Rgba {
    if s.len() >= 1 && s[0] == 35 {
        let h = s.drop_first();
        if h.len() == 6 && all_hex_spec(h) {
            Rgba {
                r: pair_spec(h[0], h[1]) as u8,
                g: pair_spec(h[2], h[3]) as u8,
                b: pair_spec(h[4], h[5]) as u8,
                a: 255,
            }
        } else if h.len() == 8 && all_hex_spec(h) {
            Rgba {
                r: pair_spec(h[0], h[1]) as u8,
                g: pair_spec(h[2], h[3]) as u8,
                b: pair_spec(h[4], h[5]) as u8,
                a: pair_spec(h[6], h[7]) as u8,
            }
        } else if h.len() == 3 && all_hex_spec(h) {
            Rgba {
                r: (hex_val_spec(h[0]) * 17) as u8,
                g: (hex_val_spec(h[1]) * 17) as u8,
                b: (hex_val_spec(h[2]) * 17) as u8,
                a: 255,
            }
        } else if h.len() == 4 && all_hex_spec(h) {
            Rgba {
                r: (hex_val_spec(h[0]) * 17) as u8,
                g: (hex_val_spec(h[1]) * 17) as u8,
                b: (hex_val_spec(h[2]) * 17) as u8,
                a: (hex_val_spec(h[3]) * 17) as u8,
            }
        } else {
            Rgba { r: 0, g: 0, b: 0, a: 255 }
        }
    } else if s =~= seq![114u8, 101u8, 100u8] {  // red
        Rgba { r: 255, g: 0, b: 0, a: 255 }
    } else if s =~= seq![103u8, 114u8, 101u8, 101u8, 110u8] {  // green
        Rgba { r: 0, g: 255, b: 0, a: 255 }
    } else if s =~= seq![98u8, 108u8, 117u8, 101u8] {  // blue
        Rgba { r: 0, g: 0, b: 255, a: 255 }
    } else if s =~= seq![119u8, 104u8, 105u8, 116u8, 101u8] {  // white
        Rgba { r: 255, g: 255, b: 255, a: 255 }
    } else if s =~= seq![121u8, 101u8, 108u8, 108u8, 111u8, 119u8] {  // yellow
        Rgba { r: 255, g: 255, b: 0, a: 255 }
    } else if s =~= seq![109u8, 97u8, 103u8, 101u8, 110u8, 116u8, 97u8] {  // magenta
        Rgba { r: 255, g: 0, b: 255, a: 255 }
    } else if s =~= seq![99u8, 121u8, 97u8, 110u8] {  // cyan
        Rgba { r: 0, g: 255, b: 255, a: 255 }
    } else {
        Rgba { r: 0, g: 0, b: 0, a: 255 }
    }
}

/// The color denoted by a byte string, after trimming and
/// lowercasing.
pub open spec fn color_spec(s: Seq<u8>) -> Rgba {
    color_of_canon_spec(canon_spec(s))
}

/// The value of one hex digit byte.
fn hex_val(c: u8) -> (v: u8)
    ensures
        v as int == hex_val_spec(c),
        v <= 15,
{
    if 48 <= c && c <= 57 {
        c - 48
    } else if 97 <= c && c <= 102 {
        c - 87
    } else {
        0
    }
}

/// Whether a byte is a (lowercase) hex digit.
fn is_hex(c: u8) -> (r: bool)
    ensures
        r == is_hex_spec(c),
{
    (48 <= c && c <= 57) || (97 <= c && c <= 102)
}

/// Whether every byte of a vector is a hex digit.
fn all_hex(v: &Vec<u8>) -> (r: bool)
    ensures
        r == all_hex_spec(v@),
{
    let mut i: usize = 0;
    while i < v.len()
        invariant
            i <= v@.len(),
            forall|j: int| 0 <= j < i ==> is_hex_spec(#[trigger] v@[j]),
        decreases v@.len() - i,
    {
        if !is_hex(v[i]) {
            return false;
        }
        i = i + 1;
    }
    true
}

/// The channel value of a two-digit hex pair.
fn pair(hi: u8, lo: u8) -> (v: u8)
    requires
        is_hex_spec(hi),
        is_hex_spec(lo),
    ensures
        v as int == pair_spec(hi, lo),
{
    hex_val(hi) * 16 + hex_val(lo)
}

/// Parse a CSS-style color string: hex forms and a few named colors,
/// defaulting to opaque black, exactly as `color_spec` describes.
pub fn parse_color(s: &str) -> (c: Rgba)
    ensures
        c == color_spec(s.spec_bytes()),
{
    let bytes: &[u8] = s.as_bytes();
    let mut lo: usize = 0;
    let mut hi: usize = bytes.len();
    let ghost orig = bytes@;
    proof {
        assert(bytes@.subrange(0, bytes@.len() as int) =~= bytes@);
    }
    while lo < hi && (bytes[lo] == 32 || (9 <= bytes[lo] && bytes[lo] <= 13))
        invariant
            lo <= hi <= bytes@.len(),
            canon_spec(bytes@.subrange(lo as int, hi as int)) == canon_spec(bytes@),
        decreases hi - lo,
    {
        proof {
            let cur = bytes@.subrange(lo as int, hi as int);
            assert(cur.drop_first() =~= bytes@.subrange(lo as int + 1, hi as int));
        }
        lo = lo + 1;
    }
    while lo < hi && (bytes[hi - 1] == 32 || (9 <= bytes[hi - 1] && bytes[hi - 1] <= 13))
        invariant
            lo <= hi <= bytes@.len(),
            canon_spec(bytes@.subrange(lo as int, hi as int)) == canon_spec(bytes@),
            lo < hi ==> !trim_ws_spec(bytes@[lo as int]),
        decreases hi - lo,
    {
        proof {
            let cur = bytes@.subrange(lo as int, hi as int);
            assert(cur.drop_last() =~= bytes@.subrange(lo as int, hi as int - 1));
        }
        hi = hi - 1;
    }
    let mut canon: Vec<u8> = Vec::new();
    let mut i: usize = lo;
    while i < hi
        invariant
            lo <= i <= hi <= bytes@.len(),
            canon@ == bytes@.subrange(lo as int, i as int).map_values(
                |c: u8| lower_byte_spec(c),
            ),
        decreases hi - i,
    {
        let c = bytes[i];
        let lc: u8 = if 65 <= c && c <= 90 {
            c + 32
        } else {
            c
        };
        canon.push(lc);
        proof {
            assert(canon@ =~= bytes@.subrange(lo as int, i as int + 1).map_values(
                |c: u8| lower_byte_spec(c),
            ));
        }
        i = i + 1;
    }
    proof {
        let rest = bytes@.subrange(lo as int, hi as int);
        assert(rest.len() == 0 || (!trim_ws_spec(rest[0]) && !trim_ws_spec(
            rest[rest.len() - 1],
        )));
        assert(canon_spec(rest) == rest.map_values(|c: u8| lower_byte_spec(c)));
        assert(canon@ =~= rest.map_values(|c: u8| lower_byte_spec(c)));
    }
    if canon.len() >= 1 && canon[0] == 35 {
        let mut h: Vec<u8> = Vec::new();
        let mut k: usize = 1;
        while k < canon.len()
            invariant
                1 <= k <= canon@.len(),
                h@ == canon@.subrange(1, k as int),
            decreases canon@.len() - k,
        {
            h.push(canon[k]);
            proof {
                assert(h@ =~= canon@.subrange(1, k as int + 1));
            }
            k = k + 1;
        }
        proof {
            assert(h@ =~= canon@.drop_first());
        }
        if h.len() == 6 && all_hex(&h) {
            return Rgba {
                r: pair(h[0], h[1]),
                g: pair(h[2], h[3]),
                b: pair(h[4], h[5]),
                a: 255,
            };
        }
        if h.len() == 8 && all_hex(&h) {
            return Rgba {
                r: pair(h[0], h[1]),
                g: pair(h[2], h[3]),
                b: pair(h[4], h[5]),
                a: pair(h[6], h[7]),
            };
        }
        if h.len() == 3 && all_hex(&h) {
            return Rgba {
                r: hex_val(h[0]) * 17,
                g: hex_val(h[1]) * 17,
                b: hex_val(h[2]) * 17,
                a: 255,
            };
        }
        if h.len() == 4 && all_hex(&h) {
            return Rgba {
                r: hex_val(h[0]) * 17,
                g: hex_val(h[1]) * 17,
                b: hex_val(h[2]) * 17,
                a: hex_val(h[3]) * 17,
            };
        }
        return Rgba { r: 0, g: 0, b: 0, a: 255 };
    }
    let r = named_color(&canon);
    proof {
        assert(canon@.len() >= 1 && canon@[0] == 35 ==> false);
    }
    r
}

/// The named colors the style language accepts.
fn named_color(v: &Vec<u8>) -> (c: Rgba)
    requires
        !(v@.len() >= 1 && v@[0] == 35),
    ensures
        c == color_of_canon_spec(v@),
{
    let n = v.len();
    if n == 3 && v[0] == 114 && v[1] == 101 && v[2] == 100 {
        proof {
            assert(v@ =~= seq![114u8, 101u8, 100u8]);
        }
        return Rgba { r: 255, g: 0, b: 0, a: 255 };
    }
    if n == 5 && v[0] == 103 && v[1] == 114 && v[2] == 101 && v[3] == 101 && v[4] == 110 {
        proof {
            assert(v@ =~= seq![103u8, 114u8, 101u8, 101u8, 110u8]);
        }
        return Rgba { r: 0, g: 255, b: 0, a: 255 };
    }
    if n == 4 && v[0] == 98 && v[1] == 108 && v[2] == 117 && v[3] == 101 {
        proof {
            assert(v@ =~= seq![98u8, 108u8, 117u8, 101u8]);
        }
        return Rgba { r: 0, g: 0, b: 255, a: 255 };
    }
    if n == 5 && v[0] == 119 && v[1] == 104 && v[2] == 105 && v[3] == 116 && v[4] == 101 {
        proof {
            assert(v@ =~= seq![119u8, 104u8, 105u8, 116u8, 101u8]);
        }
        return Rgba { r: 255, g: 255, b: 255, a: 255 };
    }
    if n == 6 && v[0] == 121 && v[1] == 101 && v[2] == 108 && v[3] == 108 && v[4] == 111
        && v[5] == 119 {
        proof {
            assert(v@ =~= seq![121u8, 101u8, 108u8, 108u8, 111u8, 119u8]);
        }
        return Rgba { r: 255, g: 255, b: 0, a: 255 };
    }
    if n == 7 && v[0] == 109 && v[1] == 97 && v[2] == 103 && v[3] == 101 && v[4] == 110
        && v[5] == 116 && v[6] == 97 {
        proof {
            assert(v@ =~= seq![109u8, 97u8, 103u8, 101u8, 110u8, 116u8, 97u8]);
        }
        return Rgba { r: 255, g: 0, b: 255, a: 255 };
    }
    if n == 4 && v[0] == 99 && v[1] == 121 && v[2] == 97 && v[3] == 110 {
        proof {
            assert(v@ =~= seq![99u8, 121u8, 97u8, 110u8]);
        }
        return Rgba { r: 0, g: 255, b: 255, a: 255 };
    }
    proof {
        assert(!(v@ =~= seq![114u8, 101u8, 100u8]));
        assert(!(v@ =~= seq![103u8, 114u8, 101u8, 101u8, 110u8]));
        assert(!(v@ =~= seq![98u8, 108u8, 117u8, 101u8]));
        assert(!(v@ =~= seq![119u8, 104u8, 105u8, 116u8, 101u8]));
        assert(!(v@ =~= seq![121u8, 101u8, 108u8, 108u8, 111u8, 119u8]));
        assert(!(v@ =~= seq![109u8, 97u8, 103u8, 101u8, 110u8, 116u8, 97u8]));
        assert(!(v@ =~= seq![99u8, 121u8, 97u8, 110u8]));
    }
    Rgba { r: 0, g: 0, b: 0, a: 255 }
}

} // verus!
