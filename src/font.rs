use vstd::prelude::*;
use std::collections::HashMap;
use crate::image_decoder::prepend;
use vstd::string::StringSliceAdditionalSpecFns;
use crate::image::{opaque, PixImage, Rgb};

verus! {

broadcast use vstd::std_specs::hash::group_hash_axioms;

/// One glyph of a BDF font.
#[derive(Debug)]
pub struct Glyph {
    pub encoding: u32,
    pub dwidth: (u8, u8),
    /// Width, height, x offset and y offset of the glyph's bounding box.
    pub bbx: (u32, u32, i32, i32),
    /// The rows of the bitmap, `cols` bytes each, most significant bit leftmost.
    pub bitmap: Vec<u8>,
    pub cols: u8,
}

impl Glyph {
    /// Rows of the bitmap.
    pub fn height(&self) -> (r: usize)
        ensures
            r == self.bbx.1,
    {
        self.bbx.1 as usize
    }

    pub fn x_offset(&self) -> (r: i32)
        ensures
            r == self.bbx.2,
    {
        self.bbx.2
    }

    pub fn y_offset(&self) -> (r: i32)
        ensures
            r == self.bbx.3,
    {
        self.bbx.3
    }
}

/// A BDF bitmap font: its bounding box and its glyphs by code point; where two
/// glyphs share an encoding, the later one counts.
#[derive(Debug)]
pub struct BDF {
    pub font_bounding_box: (u32, u32, i32, i32),
    pub glyphs: HashMap<u32, Glyph>,
}

/// Why a BDF file could not be read.
#[derive(Clone, Copy, Debug, PartialEq, Eq, Structural)]
pub enum FontError {
    /// A number field is missing or not a number in range.
    BadNumber,
    /// A bitmap row is not an even number of hexadecimal digits.
    BadBitmap,
    /// The file ends inside a bitmap.
    MissingBitmapRows,
}

/// The view of a glyph: encoding, advance, bounding box, bitmap bytes, bytes per row.
pub type GlyphView = (u32, (u8, u8), (u32, u32, i32, i32), Seq<u8>, u8);

pub open spec fn glyph_view(g: Glyph) -> GlyphView {
    (g.encoding, g.dwidth, g.bbx, g.bitmap@, g.cols)
}

/// A glyph before any of its properties are read; its encoding is that of a space.
pub open spec fn blank_glyph() -> GlyphView {
    (32, (0, 0), (0, 0, 0, 0), seq![], 0)
}

// Keywords, as ASCII bytes.
pub open spec fn kw_fontboundingbox() -> Seq<u8> {
    seq![70u8, 79, 78, 84, 66, 79, 85, 78, 68, 73, 78, 71, 66, 79, 88]
}

pub open spec fn kw_startchar() -> Seq<u8> {
    seq![83u8, 84, 65, 82, 84, 67, 72, 65, 82]
}

pub open spec fn kw_endchar() -> Seq<u8> {
    seq![69u8, 78, 68, 67, 72, 65, 82]
}

pub open spec fn kw_encoding() -> Seq<u8> {
    seq![69u8, 78, 67, 79, 68, 73, 78, 71]
}

pub open spec fn kw_dwidth() -> Seq<u8> {
    seq![68u8, 87, 73, 68, 84, 72]
}

pub open spec fn kw_bbx() -> Seq<u8> {
    seq![66u8, 66, 88]
}

pub open spec fn kw_bitmap() -> Seq<u8> {
    seq![66u8, 73, 84, 77, 65, 80]
}

pub open spec fn starts_with(s: Seq<u8>, p: Seq<u8>) -> bool {
    s.len() >= p.len() && s.subrange(0, p.len() as int) == p
}

/// `s` without the leading `p` and the space after it, where it starts so.
pub open spec fn after(s: Seq<u8>, p: Seq<u8>) -> Seq<u8> {
    if starts_with(s, p.push(32u8)) { s.subrange(p.len() as int + 1, s.len() as int) } else { s }
}

/// Position of the first `b` in `s`, or its length.
pub open spec fn find(s: Seq<u8>, b: u8) -> int
    decreases s.len(),
{
    if s.len() == 0 {
        0
    } else if s[0] == b {
        0
    } else {
        1 + find(s.subrange(1, s.len() as int), b)
    }
}

/// Field `k` of `s`, fields being separated by single spaces.
pub open spec fn field(s: Seq<u8>, k: nat) -> Option<Seq<u8>>
    decreases k,
{
    let i = find(s, 32u8);
    if k == 0 {
        Some(s.subrange(0, i))
    } else if i >= s.len() {
        None
    } else {
        field(s.subrange(i + 1, s.len() as int), (k - 1) as nat)
    }
}

pub open spec fn is_digit(b: u8) -> bool {
    48 <= b <= 57
}

pub open spec fn all_digits(s: Seq<u8>) -> bool {
    forall|i: int| 0 <= i < s.len() ==> is_digit(#[trigger] s[i])
}

/// The value of a string of decimal digits.
pub open spec fn dec_value(s: Seq<u8>) -> nat
    decreases s.len(),
{
    if s.len() == 0 {
        0
    } else {
        dec_value(s.drop_last()) * 10 + (s.last() - 48) as nat
    }
}

/// The unsigned number `s` spells, if it is one no larger than `max`.
pub open spec fn unsigned(s: Seq<u8>, max: nat) -> Option<nat> {
    if s.len() > 0 && all_digits(s) && dec_value(s) <= max { Some(dec_value(s)) } else { None }
}

/// The `i32` that `s` spells, with an optional leading minus sign.
pub open spec fn signed(s: Seq<u8>) -> Option<i32> {
    if s.len() > 0 && s[0] == 45u8 {
        match unsigned(s.subrange(1, s.len() as int), 0x8000_0000) {
            Some(v) => Some((-v) as i32),
            None => None,
        }
    } else {
        match unsigned(s, 0x7fff_ffff) {
            Some(v) => Some(v as i32),
            None => None,
        }
    }
}

pub open spec fn field_u32(s: Seq<u8>, k: nat) -> Option<u32> {
    match field(s, k) {
        Some(f) => match unsigned(f, 0xffff_ffff) { Some(v) => Some(v as u32), None => None },
        None => None,
    }
}

pub open spec fn field_u8(s: Seq<u8>, k: nat) -> Option<u8> {
    match field(s, k) {
        Some(f) => match unsigned(f, 255) { Some(v) => Some(v as u8), None => None },
        None => None,
    }
}

pub open spec fn field_i32(s: Seq<u8>, k: nat) -> Option<i32> {
    match field(s, k) {
        Some(f) => signed(f),
        None => None,
    }
}

/// Width, height and offsets from the first four fields of `s`.
pub open spec fn box_fields(s: Seq<u8>) -> Option<(u32, u32, i32, i32)> {
    let (w, h, x, y) = (field_u32(s, 0), field_u32(s, 1), field_i32(s, 2), field_i32(s, 3));
    if w is Some && h is Some && x is Some && y is Some {
        Some((w->0, h->0, x->0, y->0))
    } else {
        None
    }
}

pub open spec fn hex_value(b: u8) -> Option<u8> {
    if 48 <= b <= 57 {
        Some((b - 48) as u8)
    } else if 65 <= b <= 70 {
        Some((b - 55) as u8)
    } else if 97 <= b <= 102 {
        Some((b - 87) as u8)
    } else {
        None
    }
}

/// The bytes that a row of hexadecimal digits spells, two digits a byte.
pub open spec fn hex_row(s: Seq<u8>) -> Option<Seq<u8>>
    decreases s.len(),
{
    if s.len() == 0 {
        Some(seq![])
    } else if s.len() == 1 {
        None
    } else {
        let hi = hex_value(s[0]);
        let lo = hex_value(s[1]);
        if hi is Some && lo is Some {
            match hex_row(s.subrange(2, s.len() as int)) {
                Some(rest) => Some(seq![(hi->0 * 16 + lo->0) as u8] + rest),
                None => None,
            }
        } else {
            None
        }
    }
}

/// Parser state: mode (0 between glyphs, 1 in a glyph, 2 in a bitmap), the font's
/// bounding box, the glyphs so far, the glyph being read and the bitmap rows left.
pub type ParseView = (int, (u32, u32, i32, i32), Map<u32, GlyphView>, GlyphView, int);

pub open spec fn with_glyph(st: ParseView, g: GlyphView) -> ParseView {
    (st.0, st.1, st.2, g, st.4)
}

/// The state after one line, or why the line is refused.
pub open spec fn step(st: ParseView, line: Seq<u8>) -> Result<ParseView, FontError> {
    let g = st.3;
    if st.0 == 0 {
        if starts_with(line, kw_fontboundingbox()) {
            match box_fields(after(line, kw_fontboundingbox())) {
                Some(b) => Ok((0, b, st.2, g, st.4)),
                None => Err(FontError::BadNumber),
            }
        } else if starts_with(line, kw_startchar()) {
            Ok((1, st.1, st.2, blank_glyph(), 0))
        } else {
            Ok(st)
        }
    } else if st.0 == 1 {
        if starts_with(line, kw_endchar()) {
            Ok((0, st.1, st.2.insert(g.0, g), blank_glyph(), 0))
        } else if starts_with(line, kw_encoding()) {
            let e = match field_u32(after(line, kw_encoding()), 0) { Some(v) => v, None => 0u32 };
            Ok(with_glyph(st, (e, g.1, g.2, g.3, g.4)))
        } else if starts_with(line, kw_dwidth()) {
            let r = after(line, kw_dwidth());
            match (field_u8(r, 0), field_u8(r, 1)) {
                (Some(a), Some(b)) => Ok(with_glyph(st, (g.0, (a, b), g.2, g.3, g.4))),
                _ => Err(FontError::BadNumber),
            }
        } else if starts_with(line, kw_bbx()) {
            match box_fields(after(line, kw_bbx())) {
                Some(b) => Ok(with_glyph(st, (g.0, g.1, b, g.3, g.4))),
                None => Err(FontError::BadNumber),
            }
        } else if starts_with(line, kw_bitmap()) {
            let ng = (g.0, g.1, g.2, seq![], 1u8);
            if g.2.1 == 0 { Ok((1, st.1, st.2, ng, 0)) } else { Ok((2, st.1, st.2, ng, g.2.1 as int)) }
        } else {
            Ok(st)
        }
    } else {
        match hex_row(line) {
            Some(bytes) => {
                let ng = (g.0, g.1, g.2, g.3 + bytes, ((line.len() % 256) / 2) as u8);
                if st.4 <= 1 { Ok((1, st.1, st.2, ng, 0)) } else { Ok((2, st.1, st.2, ng, st.4 - 1)) }
            },
            None => Err(FontError::BadBitmap),
        }
    }
}

/// End of the line that starts at `pos`.
pub open spec fn line_end(data: Seq<u8>, pos: int) -> int {
    pos + find(data.subrange(pos, data.len() as int), 10u8)
}

/// The font read from the lines from `pos` on, in state `st`.
pub open spec fn run(data: Seq<u8>, pos: int, st: ParseView) -> Result<(((u32, u32, i32, i32)), Map<u32, GlyphView>), FontError>
    decreases data.len() + 1 - pos,
{
    if pos > data.len() || pos < 0 {
        if st.0 == 0 {
            Ok((st.1, st.2))
        } else if st.0 == 1 {
            Ok((st.1, st.2.insert(st.3.0, st.3)))
        } else {
            Err(FontError::MissingBitmapRows)
        }
    } else {
        let e = line_end(data, pos);
        match step(st, data.subrange(pos, e)) {
            Ok(next) => if pos <= e <= data.len() { run(data, e + 1, next) } else { Err(FontError::BadBitmap) },
            Err(err) => Err(err),
        }
    }
}

/// The font that the text `data` holds: lines `FONTBOUNDINGBOX w h x y` and glyphs
/// from `STARTCHAR` to `ENDCHAR` with `ENCODING`, `DWIDTH`, `BBX` and `BITMAP`
/// followed by one row of hexadecimal digits per pixel row; other lines are skipped.
pub open spec fn bdf_spec(data: Seq<u8>) -> Result<(((u32, u32, i32, i32)), Map<u32, GlyphView>), FontError> {
    run(data, 0, (0, (0, 0, 0, 0), Map::empty(), blank_glyph(), 0))
}

proof fn lemma_find_step(d: Seq<u8>, i: int, e: int, b: u8)
    requires
        0 <= i < e <= d.len(),
    ensures
        find(d.subrange(i, e), b) == if d[i] == b { 0 } else { 1 + find(d.subrange(i + 1, e), b) },
{
    assert(d.subrange(i, e).subrange(1, e - i) =~= d.subrange(i + 1, e));
}

pub proof fn lemma_find_bound(s: Seq<u8>, b: u8)
    ensures
        0 <= find(s, b) <= s.len(),
        find(s, b) < s.len() ==> s[find(s, b)] == b,
    decreases s.len(),
{
    if s.len() > 0 && s[0] != b {
        lemma_find_bound(s.subrange(1, s.len() as int), b);
    }
}

/// Position of the first `b` in `data[s..e]`, or `e`.
pub(crate) fn find_from(data: &[u8], s: usize, e: usize, b: u8) -> (r: usize)
    requires
        s <= e <= data@.len(),
    ensures
        r == s + find(data@.subrange(s as int, e as int), b),
        s <= r <= e,
{
    let mut i = s;
    while i < e && data[i] != b
        invariant
            s <= i <= e <= data@.len(),
            find(data@.subrange(s as int, e as int), b) == (i - s) + find(data@.subrange(i as int, e as int), b),
        decreases e - i,
    {
        proof {
            lemma_find_step(data@, i as int, e as int, b);
        }
        i = i + 1;
    }
    proof {
        if i < e {
            lemma_find_step(data@, i as int, e as int, b);
        } else {
            assert(data@.subrange(i as int, e as int).len() == 0);
        }
    }
    i
}

/// Whether `data[s..e]` starts with `p`.
fn starts_with_at(data: &[u8], s: usize, e: usize, p: &Vec<u8>) -> (r: bool)
    requires
        s <= e <= data@.len(),
    ensures
        r == starts_with(data@.subrange(s as int, e as int), p@),
{
    if e - s < p.len() {
        return false;
    }
    let mut i: usize = 0;
    while i < p.len()
        invariant
            s <= e <= data@.len(),
            e - s >= p@.len(),
            i <= p@.len(),
            forall|j: int| 0 <= j < i ==> data@[s + j] == p@[j],
        decreases p@.len() - i,
    {
        if data[s + i] != p[i] {
            proof {
                assert(data@.subrange(s as int, e as int).subrange(0, p@.len() as int)[i as int] != p@[i as int]);
            }
            return false;
        }
        i = i + 1;
    }
    proof {
        assert(data@.subrange(s as int, e as int).subrange(0, p@.len() as int) =~= p@);
    }
    true
}

/// Where `after` leaves `data[s..e]` for the keyword `p`.
fn after_at(data: &[u8], s: usize, e: usize, p: &Vec<u8>) -> (r: usize)
    requires
        s <= e <= data@.len(),
    ensures
        s <= r <= e,
        data@.subrange(r as int, e as int) == after(data@.subrange(s as int, e as int), p@),
{
    let mut q = p.clone();
    q.push(32);
    proof {
        assert(q@ =~= p@.push(32u8));
    }
    if starts_with_at(data, s, e, &q) {
        proof {
            assert(data@.subrange(s as int, e as int).subrange(p@.len() as int + 1, e - s)
                =~= data@.subrange(s + p@.len() + 1, e as int));
        }
        s + p.len() + 1
    } else {
        e - (e - s)
    }
}

/// The range of field `k` of `data[s..e]`.
fn field_at(data: &[u8], s: usize, e: usize, k: usize) -> (r: Option<(usize, usize)>)
    requires
        s <= e <= data@.len(),
    ensures
        match r {
            Some((a, b)) => s <= a <= b <= e
                && field(data@.subrange(s as int, e as int), k as nat) == Some(data@.subrange(a as int, b as int)),
            None => field(data@.subrange(s as int, e as int), k as nat) is None,
        },
    decreases k,
{
    let i = find_from(data, s, e, 32);
    proof {
        lemma_find_bound(data@.subrange(s as int, e as int), 32u8);
        assert(data@.subrange(s as int, e as int).subrange(0, i - s) =~= data@.subrange(s as int, i as int));
    }
    if k == 0 {
        Some((s, i))
    } else if i >= e {
        None
    } else {
        proof {
            assert(data@.subrange(s as int, e as int).subrange(i - s + 1, e - s) =~= data@.subrange(i + 1, e as int));
        }
        field_at(data, i + 1, e, k - 1)
    }
}

proof fn lemma_dec_step(d: Seq<u8>, s: int, i: int)
    requires
        0 <= s <= i < d.len(),
    ensures
        dec_value(d.subrange(s, i + 1)) == dec_value(d.subrange(s, i)) * 10 + (d[i] - 48) as nat,
{
    assert(d.subrange(s, i + 1).drop_last() =~= d.subrange(s, i));
}

proof fn lemma_dec_grows(d: Seq<u8>, s: int, i: int, j: int)
    requires
        0 <= s <= i <= j <= d.len(),
        all_digits(d.subrange(s, j)),
    ensures
        dec_value(d.subrange(s, i)) <= dec_value(d.subrange(s, j)),
    decreases j - i,
{
    if i < j {
        lemma_dec_grows(d, s, i, j - 1);
        assert(d.subrange(s, j - 1) =~= d.subrange(s, j).subrange(0, j - 1 - s));
        assert(all_digits(d.subrange(s, j - 1))) by {
            assert forall|t: int| 0 <= t < j - 1 - s implies is_digit(#[trigger] d.subrange(s, j - 1)[t]) by {
                assert(d.subrange(s, j - 1)[t] == d.subrange(s, j)[t]);
            }
        }
        lemma_dec_step(d, s, j - 1);
        assert(is_digit(d.subrange(s, j)[j - 1 - s]));
    }
}

/// The number that `data[s..e]` spells, if it is one no larger than `max`.
fn parse_unsigned(data: &[u8], s: usize, e: usize, max: u64) -> (r: Option<u64>)
    requires
        s <= e <= data@.len(),
        max <= 0x1_0000_0000,
    ensures
        match r {
            Some(v) => unsigned(data@.subrange(s as int, e as int), max as nat) == Some(v as nat),
            None => unsigned(data@.subrange(s as int, e as int), max as nat) is None,
        },
{
    if s == e {
        return None;
    }
    let mut v: u64 = 0;
    let mut i = s;
    proof {
        assert(data@.subrange(s as int, s as int).len() == 0);
    }
    while i < e
        invariant
            s <= i <= e <= data@.len(),
            max <= 0x1_0000_0000,
            v <= max,
            v == dec_value(data@.subrange(s as int, i as int)),
            all_digits(data@.subrange(s as int, i as int)),
        decreases e - i,
    {
        let b = data[i];
        if b < 48 || b > 57 {
            proof {
                assert(!is_digit(data@.subrange(s as int, e as int)[i - s]));
            }
            return None;
        }
        proof {
            lemma_dec_step(data@, s as int, i as int);
            assert(all_digits(data@.subrange(s as int, i + 1))) by {
                assert forall|t: int| 0 <= t < i + 1 - s implies is_digit(#[trigger] data@.subrange(s as int, i + 1)[t]) by {
                    if t < i - s {
                        assert(data@.subrange(s as int, i + 1)[t] == data@.subrange(s as int, i as int)[t]);
                    }
                }
            }
        }
        let nv = v * 10 + (b - 48) as u64;
        if nv > max {
            proof {
                if all_digits(data@.subrange(s as int, e as int)) {
                    lemma_dec_grows(data@, s as int, i + 1, e as int);
                }
            }
            return None;
        }
        v = nv;
        i = i + 1;
    }
    Some(v)
}

/// The `i32` that `data[s..e]` spells.
pub(crate) fn parse_signed(data: &[u8], s: usize, e: usize) -> (r: Option<i32>)
    requires
        s <= e <= data@.len(),
    ensures
        r == signed(data@.subrange(s as int, e as int)),
{
    if s < e && data[s] == 45 {
        proof {
            assert(data@.subrange(s as int, e as int).subrange(1, e - s) =~= data@.subrange(s + 1, e as int));
        }
        match parse_unsigned(data, s + 1, e, 0x8000_0000) {
            Some(v) => Some((0 - v as i64) as i32),
            None => None,
        }
    } else {
        match parse_unsigned(data, s, e, 0x7fff_ffff) {
            Some(v) => Some(v as i32),
            None => None,
        }
    }
}

fn field_u32_at(data: &[u8], s: usize, e: usize, k: usize) -> (r: Option<u32>)
    requires
        s <= e <= data@.len(),
    ensures
        r == field_u32(data@.subrange(s as int, e as int), k as nat),
{
    match field_at(data, s, e, k) {
        Some((a, b)) => match parse_unsigned(data, a, b, 0xffff_ffff) {
            Some(v) => Some(v as u32),
            None => None,
        },
        None => None,
    }
}

fn field_u8_at(data: &[u8], s: usize, e: usize, k: usize) -> (r: Option<u8>)
    requires
        s <= e <= data@.len(),
    ensures
        r == field_u8(data@.subrange(s as int, e as int), k as nat),
{
    match field_at(data, s, e, k) {
        Some((a, b)) => match parse_unsigned(data, a, b, 255) {
            Some(v) => Some(v as u8),
            None => None,
        },
        None => None,
    }
}

fn field_i32_at(data: &[u8], s: usize, e: usize, k: usize) -> (r: Option<i32>)
    requires
        s <= e <= data@.len(),
    ensures
        r == field_i32(data@.subrange(s as int, e as int), k as nat),
{
    match field_at(data, s, e, k) {
        Some((a, b)) => parse_signed(data, a, b),
        None => None,
    }
}

fn box_at(data: &[u8], s: usize, e: usize) -> (r: Option<(u32, u32, i32, i32)>)
    requires
        s <= e <= data@.len(),
    ensures
        r == box_fields(data@.subrange(s as int, e as int)),
{
    let w = field_u32_at(data, s, e, 0);
    let h = field_u32_at(data, s, e, 1);
    let x = field_i32_at(data, s, e, 2);
    let y = field_i32_at(data, s, e, 3);
    match (w, h, x, y) {
        (Some(w), Some(h), Some(x), Some(y)) => Some((w, h, x, y)),
        _ => None,
    }
}

fn hex_val(b: u8) -> (r: Option<u8>)
    ensures
        r == hex_value(b),
{
    if 48 <= b && b <= 57 {
        Some(b - 48)
    } else if 65 <= b && b <= 70 {
        Some(b - 55)
    } else if 97 <= b && b <= 102 {
        Some(b - 87)
    } else {
        None
    }
}

proof fn lemma_prepend_assoc(a: Seq<u8>, b: Seq<u8>, x: Option<Seq<u8>>)
    ensures
        prepend(a, prepend(b, x)) == prepend(a + b, x),
{
    if let Some(r) = x {
        assert(a + (b + r) =~= (a + b) + r);
    }
}

/// Appends the bytes that the hexadecimal digits `data[s..e]` spell; `false` where
/// they are not an even number of hexadecimal digits.
fn parse_hex_row(data: &[u8], s: usize, e: usize, out: &mut Vec<u8>) -> (r: bool)
    requires
        s <= e <= data@.len(),
    ensures
        r == hex_row(data@.subrange(s as int, e as int)) is Some,
        r ==> final(out)@ == old(out)@ + hex_row(data@.subrange(s as int, e as int))->0,
{
    let ghost start = out@;
    let mut i = s;
    proof {
        assert(out@.subrange(start.len() as int, out@.len() as int) =~= seq![]);
        assert(seq![] + hex_row(data@.subrange(s as int, e as int))->0 =~= hex_row(data@.subrange(s as int, e as int))->0);
        lemma_prepend_assoc(seq![], seq![], hex_row(data@.subrange(s as int, e as int)));
    }
    while i < e
        invariant
            s <= i <= e <= data@.len(),
            out@.len() >= start.len(),
            out@.subrange(0, start.len() as int) == start,
            hex_row(data@.subrange(s as int, e as int))
                == prepend(out@.subrange(start.len() as int, out@.len() as int), hex_row(data@.subrange(i as int, e as int))),
        decreases e - i,
    {
        let ghost written = out@.subrange(start.len() as int, out@.len() as int);
        if e - i == 1 {
            return false;
        }
        let hi = hex_val(data[i]);
        let lo = hex_val(data[i + 1]);
        proof {
            assert(data@.subrange(i as int, e as int)[0] == data@[i as int]);
            assert(data@.subrange(i as int, e as int)[1] == data@[i + 1]);
            assert(data@.subrange(i as int, e as int).subrange(2, e - i) =~= data@.subrange(i + 2, e as int));
        }
        match (hi, lo) {
            (Some(h), Some(l)) => {
                out.push(h * 16 + l);
                proof {
                    lemma_prepend_assoc(written, seq![(h * 16 + l) as u8], hex_row(data@.subrange(i + 2, e as int)));
                    assert(out@.subrange(start.len() as int, out@.len() as int) =~= written + seq![(h * 16 + l) as u8]);
                    assert(out@.subrange(0, start.len() as int) =~= start);
                }
                i = i + 2;
            },
            _ => {
                return false;
            },
        }
    }
    proof {
        assert(data@.subrange(i as int, e as int).len() == 0);
        let w = out@.subrange(start.len() as int, out@.len() as int);
        assert(w + seq![] =~= w);
        assert(out@ =~= start + w);
    }
    true
}

// The keywords as byte vectors, to compare lines against.

fn keyword_fontboundingbox() -> (r: Vec<u8>)
    ensures
        r@ == kw_fontboundingbox(),
{
    let r: Vec<u8> = vec![70u8, 79, 78, 84, 66, 79, 85, 78, 68, 73, 78, 71, 66, 79, 88];
    proof {
        assert(r@ =~= kw_fontboundingbox());
    }
    r
}

fn keyword_startchar() -> (r: Vec<u8>)
    ensures
        r@ == kw_startchar(),
{
    let r: Vec<u8> = vec![83u8, 84, 65, 82, 84, 67, 72, 65, 82];
    proof {
        assert(r@ =~= kw_startchar());
    }
    r
}

fn keyword_endchar() -> (r: Vec<u8>)
    ensures
        r@ == kw_endchar(),
{
    let r: Vec<u8> = vec![69u8, 78, 68, 67, 72, 65, 82];
    proof {
        assert(r@ =~= kw_endchar());
    }
    r
}

fn keyword_encoding() -> (r: Vec<u8>)
    ensures
        r@ == kw_encoding(),
{
    let r: Vec<u8> = vec![69u8, 78, 67, 79, 68, 73, 78, 71];
    proof {
        assert(r@ =~= kw_encoding());
    }
    r
}

fn keyword_dwidth() -> (r: Vec<u8>)
    ensures
        r@ == kw_dwidth(),
{
    let r: Vec<u8> = vec![68u8, 87, 73, 68, 84, 72];
    proof {
        assert(r@ =~= kw_dwidth());
    }
    r
}

fn keyword_bbx() -> (r: Vec<u8>)
    ensures
        r@ == kw_bbx(),
{
    let r: Vec<u8> = vec![66u8, 66, 88];
    proof {
        assert(r@ =~= kw_bbx());
    }
    r
}

fn keyword_bitmap() -> (r: Vec<u8>)
    ensures
        r@ == kw_bitmap(),
{
    let r: Vec<u8> = vec![66u8, 73, 84, 77, 65, 80];
    proof {
        assert(r@ =~= kw_bitmap());
    }
    r
}

fn blank() -> (r: Glyph)
    ensures
        glyph_view(r) == blank_glyph(),
{
    let r = Glyph { encoding: 32, dwidth: (0, 0), bbx: (0, 0, 0, 0), bitmap: Vec::new(), cols: 0 };
    proof {
        assert(r.bitmap@ =~= seq![]);
    }
    r
}

pub open spec fn glyphs_view(gs: Map<u32, Glyph>) -> Map<u32, GlyphView> {
    gs.map_values(|g: Glyph| glyph_view(g))
}

/// The font that the text `data` holds.
pub fn parse_bytes(data: &[u8]) -> (r: Result<BDF, FontError>)
    ensures
        match (r, bdf_spec(data@)) {
            (Ok(f), Ok(v)) => f.font_bounding_box == v.0 && glyphs_view(f.glyphs@) == v.1,
            (Err(e), Err(e2)) => e == e2,
            _ => false,
        },
{
    let kw_box = keyword_fontboundingbox();
    let kw_start = keyword_startchar();
    let kw_end = keyword_endchar();
    let kw_enc = keyword_encoding();
    let kw_dw = keyword_dwidth();
    let kw_bb = keyword_bbx();
    let kw_bm = keyword_bitmap();
    let len = data.len();
    let mut mode: u8 = 0;
    let mut bbox: (u32, u32, i32, i32) = (0, 0, 0, 0);
    let mut glyphs: HashMap<u32, Glyph> = HashMap::new();
    let mut cur = blank();
    let mut rows_left: u32 = 0;
    let mut pos: u128 = 0;
    proof {
        assert(glyphs_view(glyphs@) =~= Map::empty());
    }
    while pos <= len as u128
        invariant
            len == data@.len(),
            kw_box@ == kw_fontboundingbox(),
            kw_start@ == kw_startchar(),
            kw_end@ == kw_endchar(),
            kw_enc@ == kw_encoding(),
            kw_dw@ == kw_dwidth(),
            kw_bb@ == kw_bbx(),
            kw_bm@ == kw_bitmap(),
            mode <= 2,
            mode == 2 ==> rows_left >= 1,
            bdf_spec(data@) == run(data@, pos as int,
                (mode as int, bbox, glyphs_view(glyphs@), glyph_view(cur), rows_left as int)),
        decreases len + 1 - pos,
    {
        let p = pos as usize;
        let e = find_from(data, p, len, 10);
        let ghost line = data@.subrange(pos as int, e as int);
        let ghost st = (mode as int, bbox, glyphs_view(glyphs@), glyph_view(cur), rows_left as int);
        proof {
            assert(line_end(data@, pos as int) == e);
        }
        if mode == 0 {
            if starts_with_at(data, p, e, &kw_box) {
                let a = after_at(data, p, e, &kw_box);
                match box_at(data, a, e) {
                    Some(b) => {
                        bbox = b;
                    },
                    None => {
                        return Err(FontError::BadNumber);
                    },
                }
            } else if starts_with_at(data, p, e, &kw_start) {
                mode = 1;
                cur = blank();
                rows_left = 0;
            }
        } else if mode == 1 {
            if starts_with_at(data, p, e, &kw_end) {
                let ghost before = glyphs@;
                let code = cur.encoding;
                glyphs.insert(code, cur);
                cur = blank();
                mode = 0;
                rows_left = 0;
                proof {
                    assert(glyphs_view(glyphs@) =~= glyphs_view(before).insert(st.3.0, st.3));
                }
            } else if starts_with_at(data, p, e, &kw_enc) {
                let a = after_at(data, p, e, &kw_enc);
                cur.encoding = match field_u32_at(data, a, e, 0) {
                    Some(v) => v,
                    None => 0,
                };
            } else if starts_with_at(data, p, e, &kw_dw) {
                let a = after_at(data, p, e, &kw_dw);
                match (field_u8_at(data, a, e, 0), field_u8_at(data, a, e, 1)) {
                    (Some(x), Some(y)) => {
                        cur.dwidth = (x, y);
                    },
                    _ => {
                        return Err(FontError::BadNumber);
                    },
                }
            } else if starts_with_at(data, p, e, &kw_bb) {
                let a = after_at(data, p, e, &kw_bb);
                match box_at(data, a, e) {
                    Some(b) => {
                        cur.bbx = b;
                    },
                    None => {
                        return Err(FontError::BadNumber);
                    },
                }
            } else if starts_with_at(data, p, e, &kw_bm) {
                cur.bitmap = Vec::new();
                cur.cols = 1;
                proof {
                    assert(cur.bitmap@ =~= seq![]);
                }
                if cur.bbx.1 == 0 {
                    rows_left = 0;
                } else {
                    mode = 2;
                    rows_left = cur.bbx.1;
                }
            }
        } else {
            if !parse_hex_row(data, p, e, &mut cur.bitmap) {
                return Err(FontError::BadBitmap);
            }
            cur.cols = (((e - p) % 256) / 2) as u8;
            if rows_left <= 1 {
                mode = 1;
                rows_left = 0;
            } else {
                rows_left = rows_left - 1;
            }
        }
        proof {
            assert(step(st, line) == Ok::<ParseView, FontError>(
                (mode as int, bbox, glyphs_view(glyphs@), glyph_view(cur), rows_left as int)));
        }
        pos = e as u128 + 1;
    }
    if mode == 2 {
        return Err(FontError::MissingBitmapRows);
    }
    if mode == 1 {
        let ghost before = glyphs@;
        let ghost last = glyph_view(cur);
        let code = cur.encoding;
        glyphs.insert(code, cur);
        proof {
            assert(glyphs_view(glyphs@) =~= glyphs_view(before).insert(last.0, last));
        }
    }
    Ok(BDF { font_bounding_box: bbox, glyphs })
}

/// The font that the text `content` holds.
pub fn parse(content: &str) -> (r: Result<BDF, FontError>)
    ensures
        match (r, bdf_spec(content.spec_bytes())) {
            (Ok(f), Ok(v)) => f.font_bounding_box == v.0 && glyphs_view(f.glyphs@) == v.1,
            (Err(e), Err(e2)) => e == e2,
            _ => false,
        },
{
    parse_bytes(content.as_bytes())
}

impl BDF {
    /// The glyph for code point `code`.
    pub fn glyph(&self, code: u32) -> (r: Option<&Glyph>)
        ensures
            match r {
                Some(g) => self.glyphs@.contains_key(code) && *g == self.glyphs@[code],
                None => !self.glyphs@.contains_key(code),
            },
    {
        self.glyphs.get(&code)
    }
}

/// Whether glyph `g`, placed with its origin at `(gx, gy)`, lights pixel
/// `(px, py)`: row `r` of the bitmap lies at `top - r`, `top` being
/// `gy + y offset + height`, and bit `c` of a row (most significant first) at
/// `gx + x offset + c`.
pub open spec fn glyph_lit(g: GlyphView, gx: int, gy: int, px: int, py: int) -> bool {
    let top = gy + g.2.3 + g.2.1;
    let r = top - py;
    let c = px - (gx + g.2.2);
    let cols = g.4 as int;
    &&& 0 <= r < g.2.1
    &&& 0 <= c < 8 * cols
    &&& r * cols + c / 8 < g.3.len()
    &&& (g.3[r * cols + c / 8] >> ((7 - c % 8) as u8)) & 1u8 == 1u8
}

/// The pen after the first `k` characters of `text`: its position and whether
/// the text has run off the bottom.
pub open spec fn pen(f: ((u32, u32, i32, i32), Map<u32, GlyphView>), text: Seq<char>, x0: int, y0: int, space: int, k: int)
    -> (int, int, bool)
    decreases k,
{
    if k <= 0 {
        (x0, y0, false)
    } else {
        let (x, y, stopped) = pen(f, text, x0, y0, space, k - 1);
        if stopped {
            (x, y, true)
        } else if text[k - 1] == '\n' {
            if y > f.0.1 { (x0, y - f.0.1, false) } else { (x, y, true) }
        } else {
            if f.1.contains_key(text[k - 1] as u32) {
                (x + f.1[text[k - 1] as u32].2.0 + space, y, false)
            } else {
                (x + f.0.0, y, false)
            }
        }
    }
}

/// Whether one of the first `k` characters of `text` lights pixel `(px, py)`.
pub open spec fn text_lit(f: ((u32, u32, i32, i32), Map<u32, GlyphView>), text: Seq<char>, x0: int, y0: int, space: int,
    k: int, px: int, py: int) -> bool
    decreases k,
{
    if k <= 0 {
        false
    } else {
        text_lit(f, text, x0, y0, space, k - 1, px, py) || {
            let (x, y, stopped) = pen(f, text, x0, y0, space, k - 1);
            &&& !stopped
            &&& text[k - 1] != '\n'
            &&& f.1.contains_key(text[k - 1] as u32)
            &&& glyph_lit(f.1[text[k - 1] as u32], x, y, px, py)
        }
    }
}

/// Draws glyph `g` with its origin at `(gx, gy)`: every pixel it lights takes
/// `color`.
pub fn draw_glyph(img: &mut PixImage, g: &Glyph, gx: i128, gy: i128, color: Rgb)
    requires
        old(img).wf(),
        -0x10_0000_0000_0000_0000_0000_0000 <= gx <= 0x10_0000_0000_0000_0000_0000_0000,
        -0x10_0000_0000_0000_0000_0000_0000 <= gy <= 0x10_0000_0000_0000_0000_0000_0000,
    ensures
        final(img).wf(),
        final(img).width == old(img).width,
        final(img).height == old(img).height,
        final(img).origin == old(img).origin,
        forall|px: int, py: int| #![trigger final(img).pixel(px, py)]
            final(img).in_bounds(px, py) ==> final(img).pixel(px, py) == (if glyph_lit(glyph_view(*g), gx as int, gy as int, px, py) {
                opaque(color)
            } else {
                old(img).pixel(px, py)
            }),
{
    let ghost gv = glyph_view(*g);
    let h = g.bbx.1 as i128;
    let top: i128 = gy + g.bbx.3 as i128 + h;
    let left: i128 = gx + g.bbx.2 as i128;
    let cols = g.cols as u64;
    let bl: usize = g.bitmap.len();
    let blen = bl as u64;
    let mut r: u64 = 0;
    while (r as i128) < h && r * cols < blen
        invariant
            img.wf(),
            img.width == old(img).width,
            img.height == old(img).height,
            img.origin == old(img).origin,
            gv == glyph_view(*g),
            h == g.bbx.1,
            top == gy + g.bbx.3 + h,
            left == gx + g.bbx.2,
            cols == g.cols,
            blen == g.bitmap@.len(),
            blen <= usize::MAX,
            -0x20_0000_0000_0000_0000_0000_0000 <= top <= 0x20_0000_0000_0000_0000_0000_0000,
            -0x20_0000_0000_0000_0000_0000_0000 <= left <= 0x20_0000_0000_0000_0000_0000_0000,
            cols <= 255,
            h <= 0xffff_ffff,
            r <= h,
            r * cols <= 0xffff_ffff * 255,
            forall|px: int, py: int| #![trigger img.pixel(px, py)]
                img.in_bounds(px, py) ==> img.pixel(px, py) == (if glyph_lit(gv, gx as int, gy as int, px, py) && top - py < r {
                    opaque(color)
                } else {
                    old(img).pixel(px, py)
                }),
        decreases h - r,
    {
        let py: i128 = top - r as i128;
        let mut c: u64 = 0;
        while c < 8 * cols
            invariant
                img.wf(),
                img.width == old(img).width,
                img.height == old(img).height,
                img.origin == old(img).origin,
                gv == glyph_view(*g),
                h == g.bbx.1,
                top == gy + g.bbx.3 + h,
                left == gx + g.bbx.2,
                cols == g.cols,
                blen == g.bitmap@.len(),
                blen <= usize::MAX,
            blen <= usize::MAX,
                -0x20_0000_0000_0000_0000_0000_0000 <= top <= 0x20_0000_0000_0000_0000_0000_0000,
                -0x20_0000_0000_0000_0000_0000_0000 <= left <= 0x20_0000_0000_0000_0000_0000_0000,
                cols <= 255,
                h <= 0xffff_ffff,
                r < h,
                r * cols < blen,
                r * cols <= 0xffff_ffff * 255,
                py == top - r,
                c <= 8 * cols,
                forall|px: int, qy: int| #![trigger img.pixel(px, qy)]
                    img.in_bounds(px, qy) ==> img.pixel(px, qy) == (if glyph_lit(gv, gx as int, gy as int, px, qy)
                        && (top - qy < r || (top - qy == r && px - left < c)) {
                        opaque(color)
                    } else {
                        old(img).pixel(px, qy)
                    }),
            decreases 8 * cols - c,
        {
            let i = r * cols + c / 8;
            let px: i128 = left + c as i128;
            if i < blen {
                let iu = i as usize;
                proof {
                    assert(iu as int == i as int);
                }
                let byte = g.bitmap[iu];
                proof {
                    assert(g.bitmap@[iu as int] == byte);
                }
                let lit = (byte >> ((7 - c % 8) as u8)) & 1 == 1;
                if lit && 0 <= px && px < img.width as i128 && 0 <= py && py < img.height as i128 {
                    img.set_rgb24(px as u32, py as u32, color);
                }
                proof {
                    assert(g.bitmap@[i as int] == byte);
                    assert(gv.3 == g.bitmap@);
                }
            }
            c = c + 1;
        }
        proof {
            assert forall|px: int, qy: int| img.in_bounds(px, qy) && glyph_lit(gv, gx as int, gy as int, px, qy)
                && top - qy == r implies px - left < 8 * cols by {}
        }
        r = r + 1;
        proof {
            assert(r * cols <= 0xffff_ffff * 255) by (nonlinear_arith) requires r <= 0xffff_ffff, cols <= 255;
        }
    }
    proof {
        assert forall|px: int, qy: int| img.in_bounds(px, qy) && glyph_lit(gv, gx as int, gy as int, px, qy)
            implies top - qy < r by {
            let rr = top - qy;
            let cc = px - left;
            if rr >= r {
                assert(rr * cols >= r * cols) by (nonlinear_arith) requires rr >= r, cols >= 0;
                assert(rr * cols + cc / 8 >= blen) by {
                    assert(cc / 8 >= 0);
                }
            }
        }
    }
}

pub open spec fn font_view(f: &BDF) -> ((u32, u32, i32, i32), Map<u32, GlyphView>) {
    (f.font_bounding_box, glyphs_view(f.glyphs@))
}

impl BDF {
    /// Draws `text` in `color` with its first line's pen at `(x, y)`: each glyph
    /// advances the pen by its width and `letter_space` (a character without a
    /// glyph by the font's width), each newline moves it back to `x` one font
    /// height lower, and drawing stops where it would go below zero.
    pub fn draw_text(&self, img: &mut PixImage, x: u32, y: u32, letter_space: u32, color: Rgb, text: &[char])
        requires
            old(img).wf(),
        ensures
            final(img).wf(),
            final(img).width == old(img).width,
            final(img).height == old(img).height,
            final(img).origin == old(img).origin,
            forall|px: int, py: int| #![trigger final(img).pixel(px, py)]
                final(img).in_bounds(px, py) ==> final(img).pixel(px, py) == (if text_lit(font_view(self), text@,
                    x as int, y as int, letter_space as int, text@.len() as int, px, py) {
                    opaque(color)
                } else {
                    old(img).pixel(px, py)
                }),
    {
        let ghost fv = font_view(self);
        let bb_w = self.font_bounding_box.0 as i128;
        let bb_h = self.font_bounding_box.1 as i128;
        let mut pen_x: i128 = x as i128;
        let mut pen_y: i128 = y as i128;
        let mut stopped = false;
        let mut k: usize = 0;
        while k < text.len()
            invariant
                img.wf(),
                img.width == old(img).width,
                img.height == old(img).height,
                img.origin == old(img).origin,
                fv == font_view(self),
                bb_w == self.font_bounding_box.0,
                bb_h == self.font_bounding_box.1,
                k <= text@.len(),
                0 <= pen_x <= 0x1_0000_0000 + k * 0x4_0000_0000,
                0 <= pen_y <= y,
                (pen_x as int, pen_y as int, stopped) == pen(fv, text@, x as int, y as int, letter_space as int, k as int),
                forall|px: int, py: int| #![trigger img.pixel(px, py)]
                    img.in_bounds(px, py) ==> img.pixel(px, py) == (if text_lit(fv, text@,
                        x as int, y as int, letter_space as int, k as int, px, py) {
                        opaque(color)
                    } else {
                        old(img).pixel(px, py)
                    }),
            decreases text@.len() - k,
        {
            let ch = text[k];
            if !stopped {
                if ch == '\n' {
                    if pen_y > bb_h {
                        pen_x = x as i128;
                        pen_y = pen_y - bb_h;
                    } else {
                        stopped = true;
                    }
                } else {
                    match self.glyph(ch as u32) {
                        Some(g) => {
                            proof {
                                assert(fv.1[ch as u32] == glyph_view(*g));
                                assert(usize::MAX <= 0xffff_ffff_ffff_ffff);
                                assert(k * 0x4_0000_0000 <= 0xffff_ffff_ffff_ffff * 0x4_0000_0000) by (nonlinear_arith)
                                    requires k <= 0xffff_ffff_ffff_ffff;
                            }
                            draw_glyph(img, g, pen_x, pen_y, color);
                            pen_x = pen_x + g.bbx.0 as i128 + letter_space as i128;
                        },
                        None => {
                            pen_x = pen_x + bb_w;
                        },
                    }
                }
            }
            k = k + 1;
        }
    }
}

} // verus!
