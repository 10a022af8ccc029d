use vstd::prelude::*;
use vstd::string::StringSliceAdditionalSpecFns;
use vstd::utf8::{encode_utf8, is_char_boundary};

use crate::registry::StringMap;

verus! {

/// An 8-bit-per-channel colour as written in the colour file (`#RRGGBB`).
#[derive(Debug, Clone, Copy, PartialEq, Eq, Structural)]
pub struct Rgb {
    pub r: u8,
    pub g: u8,
    pub b: u8,
}

/// The value of the ASCII hexadecimal digit `c` (either case).
pub open spec fn hex_digit_spec(c: u8) -> Option<u8> {
    if 48 <= c <= 57 {
        Some((c - 48) as u8)
    } else if 97 <= c <= 102 {
        Some((c - 87) as u8)
    } else if 65 <= c <= 70 {
        Some((c - 55) as u8)
    } else {
        None
    }
}

/// What `u8::from_str_radix` gives for the two bytes `b0 b1` in base 16:
/// two hex digits, or `+` followed by one.
pub open spec fn hex_pair_spec(b0: u8, b1: u8) -> Option<u8> {
    if b0 == 43 {
        hex_digit_spec(b1)
    } else {
        match (hex_digit_spec(b0), hex_digit_spec(b1)) {
            (Some(d0), Some(d1)) => Some((16 * d0 + d1) as u8),
            _ => None,
        }
    }
}

/// How many `#` bytes `b` starts with.
pub open spec fn hash_prefix_len(b: Seq<u8>) -> nat
    decreases b.len(),
{
    if b.len() > 0 && b[0] == 35 {
        1 + hash_prefix_len(b.drop_first())
    } else {
        0
    }
}

/// Bytes `lo..hi` after the leading `#`s can be sliced out: they lie inside
/// the string and both ends fall on character boundaries.
pub open spec fn component_sliceable(b: Seq<u8>, lo: int, hi: int) -> bool {
    let k = hash_prefix_len(b) as int;
    &&& k + hi <= b.len()
    &&& is_char_boundary(b, k + lo)
    &&& is_char_boundary(b, k + hi)
}

/// The value of the channel at bytes `lo..lo + 2` after the leading `#`s.
pub open spec fn component_spec(b: Seq<u8>, lo: int) -> Option<u8> {
    let k = hash_prefix_len(b) as int;
    hex_pair_spec(b[k + lo], b[k + lo + 1])
}

/// Reading the colour `b` slices out each channel in turn and stops at the
/// first that is not a number; this holds when every slice it reaches can
/// be taken.
pub open spec fn hex_color_sliceable(b: Seq<u8>) -> bool {
    &&& component_sliceable(b, 0, 2)
    &&& component_spec(b, 0) is Some ==> component_sliceable(b, 2, 4)
    &&& component_spec(b, 0) is Some && component_spec(b, 2) is Some ==> component_sliceable(b, 4, 6)
}

/// The colour written in `b` (leading `#`s dropped, then three two-byte hex
/// channels), or `None` when one of the channels is not a number.
pub open spec fn hex_color_spec(b: Seq<u8>) -> Option<Rgb> {
    match (component_spec(b, 0), component_spec(b, 2), component_spec(b, 4)) {
        (Some(r), Some(g), Some(bl)) => Some(Rgb { r, g, b: bl }),
        _ => None,
    }
}

/// The upper-case hexadecimal digit (as an ASCII byte) for `d < 16`.
pub open spec fn hex_upper(d: u8) -> u8 {
    if d < 10 {
        (48 + d) as u8
    } else {
        (55 + d) as u8
    }
}

/// The lower-case hexadecimal digit (as an ASCII byte) for `d < 16`.
pub open spec fn hex_lower(d: u8) -> u8 {
    if d < 10 {
        (48 + d) as u8
    } else {
        (87 + d) as u8
    }
}

/// A channel written as two hexadecimal digits, in either case, reads back
/// as the value that was written.
pub proof fn law_hex_channel_roundtrip(v: u8)
    ensures
        hex_pair_spec(hex_upper(v / 16), hex_upper(v % 16)) == Some(v),
        hex_pair_spec(hex_lower(v / 16), hex_lower(v % 16)) == Some(v),
{
}

/// A channel of a colour could not be read as a hexadecimal number.
#[derive(Debug, Clone, Copy, PartialEq, Eq, Structural)]
pub struct InvalidColor;

fn hex_digit(c: u8) -> (d: Option<u8>)
    ensures
        d == hex_digit_spec(c),
{
    if 48 <= c && c <= 57 {
        Some(c - 48)
    } else if 97 <= c && c <= 102 {
        Some(c - 87)
    } else if 65 <= c && c <= 70 {
        Some(c - 55)
    } else {
        None
    }
}

/// Reads two bytes as `u8::from_str_radix(.., 16)` does.
pub fn hex_pair(b0: u8, b1: u8) -> (v: Option<u8>)
    ensures
        v == hex_pair_spec(b0, b1),
{
    if b0 == 43 {
        hex_digit(b1)
    } else {
        match (hex_digit(b0), hex_digit(b1)) {
            (Some(d0), Some(d1)) => Some(16 * d0 + d1),
            _ => None,
        }
    }
}

fn hash_prefix(bytes: &[u8]) -> (k: usize)
    ensures
        k as nat == hash_prefix_len(bytes@),
        k <= bytes@.len(),
{
    let mut k: usize = 0;
    assert(bytes@.subrange(0, bytes@.len() as int) =~= bytes@);
    while k < bytes.len() && bytes[k] == 35
        invariant
            k <= bytes@.len(),
            hash_prefix_len(bytes@) == k + hash_prefix_len(bytes@.subrange(k as int, bytes@.len() as int)),
        decreases bytes.len() - k,
    {
        let ghost rest = bytes@.subrange(k as int, bytes@.len() as int);
        assert(rest.drop_first() =~= bytes@.subrange(k + 1, bytes@.len() as int));
        k = k + 1;
    }
    let ghost rest = bytes@.subrange(k as int, bytes@.len() as int);
    assert(rest.len() == 0 || rest[0] != 35);
    k
}

/// Whether reading `color` stays inside it (see [`hex_color_sliceable`]).
pub fn hex_color_in_bounds(color: &str) -> (ok: bool)
    ensures
        ok == hex_color_sliceable(color.spec_bytes()),
{
    let bytes = color.as_bytes();
    let k = hash_prefix(bytes);
    let n = bytes.len();
    if !(n - k >= 2 && color.is_char_boundary(k) && color.is_char_boundary(k + 2)) {
        return false;
    }
    if hex_pair(bytes[k], bytes[k + 1]).is_none() {
        return true;
    }
    if !(n - k >= 4 && color.is_char_boundary(k + 4)) {
        return false;
    }
    if hex_pair(bytes[k + 2], bytes[k + 3]).is_none() {
        return true;
    }
    n - k >= 6 && color.is_char_boundary(k + 6)
}

/// Reads a colour written as `#RRGGBB` (any number of leading `#`s, each
/// channel two hexadecimal digits or `+` and one digit).
pub fn parse_hex_color(color: &str) -> (res: Result<Rgb, InvalidColor>)
    requires
        hex_color_sliceable(color.spec_bytes()),
    ensures
        match hex_color_spec(color.spec_bytes()) {
            Some(c) => res == Ok::<Rgb, InvalidColor>(c),
            None => res == Err::<Rgb, InvalidColor>(InvalidColor),
        },
{
    let bytes = color.as_bytes();
    let k = hash_prefix(bytes);
    let r = match hex_pair(bytes[k], bytes[k + 1]) {
        Some(v) => v,
        None => {
            return Err(InvalidColor);
        },
    };
    let g = match hex_pair(bytes[k + 2], bytes[k + 3]) {
        Some(v) => v,
        None => {
            return Err(InvalidColor);
        },
    };
    let b = match hex_pair(bytes[k + 4], bytes[k + 5]) {
        Some(v) => v,
        None => {
            return Err(InvalidColor);
        },
    };
    Ok(Rgb { r, g, b })
}


/// One entry of the colour file: a name and its colour as text.
#[derive(Debug, Clone)]
pub struct ColorEntry {
    pub name: String,
    pub color: String,
}

/// The named colours of the scene.
#[derive(Debug, Clone)]
pub struct ColorMap(pub StringMap<Rgb>);

/// The UTF-8 bytes of the colour text of `e`.
pub open spec fn entry_bytes(e: ColorEntry) -> Seq<u8> {
    encode_utf8(e.color@)
}

/// The colours of the first `k` entries can all be read.
pub open spec fn colors_valid_upto(entries: Seq<ColorEntry>, k: int) -> bool {
    forall|j: int| 0 <= j < k ==> (#[trigger] hex_color_spec(entry_bytes(entries[j]))) is Some
}

/// Reading the entries in order, each entry reached (all before it read
/// fine) can be sliced without leaving its text.
pub open spec fn color_entries_sliceable(entries: Seq<ColorEntry>) -> bool {
    forall|i: int|
        0 <= i < entries.len() && colors_valid_upto(entries, i) ==> hex_color_sliceable(
            #[trigger] entry_bytes(entries[i]),
        )
}

/// The map made by the first `k` entries, later names replacing earlier ones.
pub open spec fn color_map_spec(entries: Seq<ColorEntry>, k: int) -> Map<Seq<char>, Rgb>
    decreases k,
{
    if k <= 0 {
        Map::empty()
    } else {
        color_map_spec(entries, k - 1).insert(
            entries[k - 1].name@,
            hex_color_spec(entry_bytes(entries[k - 1])).unwrap(),
        )
    }
}

/// Whether every colour that [`load_color_map`] reaches can be sliced out.
pub fn color_entries_in_bounds(entries: &Vec<ColorEntry>) -> (ok: bool)
    ensures
        ok == color_entries_sliceable(entries@),
{
    let mut i: usize = 0;
    while i < entries.len()
        invariant
            i <= entries.len(),
            colors_valid_upto(entries@, i as int),
            forall|j: int|
                0 <= j < i && colors_valid_upto(entries@, j) ==> hex_color_sliceable(
                    #[trigger] entry_bytes(entries@[j]),
                ),
        decreases entries.len() - i,
    {
        let text = entries[i].color.as_str();
        assert(text.spec_bytes() == entry_bytes(entries@[i as int]));
        if !hex_color_in_bounds(text) {
            return false;
        }
        match parse_hex_color(text) {
            Ok(_) => {},
            Err(_) => {
                assert forall|m: int|
                    0 <= m < entries.len() && colors_valid_upto(entries@, m) implies hex_color_sliceable(
                    #[trigger] entry_bytes(entries@[m]),
                ) by {
                    if m > i {
                        assert(!colors_valid_upto(entries@, m)) by {
                            assert(hex_color_spec(entry_bytes(entries@[i as int])) is None);
                        }
                    }
                }
                return true;
            },
        }
        i = i + 1;
    }
    true
}

/// Reads every entry of the colour file, in order, into a map from names to
/// colours; a later entry with the same name replaces an earlier one. Fails
/// on the first colour that cannot be read.
pub fn load_color_map(entries: &Vec<ColorEntry>) -> (res: Result<ColorMap, InvalidColor>)
    requires
        color_entries_sliceable(entries@),
    ensures
        match res {
            Ok(map) => colors_valid_upto(entries@, entries@.len() as int) && map.0.wf() && map.0@
                == color_map_spec(entries@, entries@.len() as int),
            Err(e) => !colors_valid_upto(entries@, entries@.len() as int),
        },
{
    let mut map: StringMap<Rgb> = StringMap::new();
    let mut i: usize = 0;
    while i < entries.len()
        invariant
            i <= entries.len(),
            color_entries_sliceable(entries@),
            colors_valid_upto(entries@, i as int),
            map.wf(),
            map@ == color_map_spec(entries@, i as int),
        decreases entries.len() - i,
    {
        let text = entries[i].color.as_str();
        assert(text.spec_bytes() == entry_bytes(entries@[i as int]));
        match parse_hex_color(text) {
            Ok(c) => {
                map.insert(entries[i].name.as_str(), c);
                assert(colors_valid_upto(entries@, i + 1)) by {
                    assert forall|j: int| 0 <= j < i + 1 implies (#[trigger] hex_color_spec(
                        entry_bytes(entries@[j]),
                    )) is Some by {
                        if j < i {
                        }
                    }
                }
            },
            Err(e) => {
                assert(hex_color_spec(entry_bytes(entries@[i as int])) is None);
                return Err(e);
            },
        }
        i = i + 1;
    }
    Ok(ColorMap(map))
}

} // verus!
