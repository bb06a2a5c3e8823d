//! The cell classifier: a stateless, pure map from one raw content unit
//! to a structural cell type.
//!
//! Rules, in priority order: grid-aligned payloads are tables; short
//! prominent lines (all-caps, trailing colon, numbered, or a tall box
//! relative to the page) are headings; indented blocks are code; payloads
//! opening like a figure label are captions; units inside the top or
//! bottom margin band are page furniture (footers); everything else is
//! body text. Ties resolve to the more specific type, which is why the
//! heading cues are tested before the margin band.

use vstd::prelude::*;

use crate::config::EncoderConfig;
use crate::document::CellType;
use crate::tokens::{is_alpha, is_digit, is_lower, to_lower};

verus! {

/// One raw content unit as delivered by an ingestion adapter: a text
/// payload, its bounding box in page pixels, and its 1-based page number.
#[derive(Debug, Clone)]
pub struct RawUnit {
    pub text: Vec<u8>,
    pub x: u32,
    pub y: u32,
    pub w: u32,
    pub h: u32,
    pub z: u32,
}

/// Mathematical model of a raw unit.
#[verifier::ext_equal]
pub ghost struct RawUnitV {
    pub text: Seq<u8>,
    pub x: u32,
    pub y: u32,
    pub w: u32,
    pub h: u32,
    pub z: u32,
}

impl View for RawUnit {
    type V = RawUnitV;

    open spec fn view(&self) -> RawUnitV {
        RawUnitV { text: self.text@, x: self.x, y: self.y, w: self.w, h: self.h, z: self.z }
    }
}

/// Occurrences of byte `b` among the first `i` bytes of `s`.
pub open spec fn count_byte_upto(s: Seq<u8>, b: u8, i: int) -> int
    decreases i,
{
    if i <= 0 || i > s.len() {
        0
    } else {
        count_byte_upto(s, b, i - 1) + if s[i - 1] == b {
            1int
        } else {
            0int
        }
    }
}

/// Counts occurrences of one byte in a payload.
pub fn count_byte(payload: &Vec<u8>, b: u8) -> (r: usize)
    ensures
        r == count_byte_upto(payload@, b, payload@.len() as int),
{
    let mut count: usize = 0;
    let mut i: usize = 0;
    while i < payload.len()
        invariant
            0 <= i <= payload.len(),
            count == count_byte_upto(payload@, b, i as int),
            count <= i,
        decreases payload.len() - i,
    {
        if payload[i] == b {
            count = count + 1;
        }
        i = i + 1;
    }
    count
}

/// Whether the payload holds a lower-case letter.
pub open spec fn has_lower_seq(s: Seq<u8>) -> bool {
    exists|i: int| 0 <= i < s.len() && is_lower(s[i])
}

/// Whether the payload holds any letter.
pub open spec fn has_alpha_seq(s: Seq<u8>) -> bool {
    exists|i: int| 0 <= i < s.len() && is_alpha(s[i])
}

/// Tests a payload for a lower-case letter.
pub fn has_lower(payload: &Vec<u8>) -> (r: bool)
    ensures
        r == has_lower_seq(payload@),
{
    let mut i: usize = 0;
    while i < payload.len()
        invariant
            0 <= i <= payload.len(),
            forall|j: int| 0 <= j < i ==> !is_lower(payload@[j]),
        decreases payload.len() - i,
    {
        if payload[i] >= 97 && payload[i] <= 122 {
            return true;
        }
        i = i + 1;
    }
    false
}

/// Tests a payload for any letter.
pub fn has_alpha(payload: &Vec<u8>) -> (r: bool)
    ensures
        r == has_alpha_seq(payload@),
{
    let mut i: usize = 0;
    while i < payload.len()
        invariant
            0 <= i <= payload.len(),
            forall|j: int| 0 <= j < i ==> !is_alpha(payload@[j]),
        decreases payload.len() - i,
    {
        let b = payload[i];
        if (b >= 97 && b <= 122) || (b >= 65 && b <= 90) {
            return true;
        }
        i = i + 1;
    }
    false
}

/// Table cue: at least two column separators (pipes or tabs) mark a
/// grid-aligned payload; a box spanning the page width up to the
/// configured pixel tolerance with two separators also qualifies.
pub open spec fn table_cue(u: RawUnitV, c: EncoderConfig) -> bool {
    ||| count_byte_upto(u.text, 124, u.text.len() as int) >= 2
    ||| count_byte_upto(u.text, 9, u.text.len() as int) >= 2
    ||| (count_byte_upto(u.text, 124, u.text.len() as int) >= 1 && u.w as int
        + c.table_tolerance as int >= c.page_width as int)
}

/// Heading cue: a short line that is all-caps, ends in a colon, opens
/// with a numbering, or sits in a box tall relative to the page (a font
/// size proxy).
pub open spec fn heading_cue(u: RawUnitV, c: EncoderConfig) -> bool {
    &&& 1 <= u.text.len() <= 120
    &&& {
        ||| (has_alpha_seq(u.text) && !has_lower_seq(u.text))
        ||| u.text.last() == 58
        ||| (is_digit(u.text[0]) && u.text.len() >= 2 && u.text[1] == 46)
        ||| u.h as int * 20 >= c.page_height as int
    }
}

/// Code cue: an indented block (four leading spaces or a leading tab).
pub open spec fn code_cue(s: Seq<u8>) -> bool {
    ||| (s.len() >= 4 && s[0] == 32 && s[1] == 32 && s[2] == 32 && s[3] == 32)
    ||| (s.len() >= 1 && s[0] == 9)
}

/// Caption cue: the payload opens like a figure or caption label.
pub open spec fn caption_cue(s: Seq<u8>) -> bool {
    ||| (s.len() >= 3 && to_lower(s[0]) == 102 && to_lower(s[1]) == 105 && to_lower(s[2]) == 103)
    ||| (s.len() >= 7 && to_lower(s[0]) == 99 && to_lower(s[1]) == 97 && to_lower(s[2]) == 112
        && to_lower(s[3]) == 116 && to_lower(s[4]) == 105 && to_lower(s[5]) == 111 && to_lower(
        s[6],
    ) == 110)
}

/// Margin band cue: the box lies entirely in the top twelfth of the page
/// or reaches into the bottom twelfth — candidate page furniture.
pub open spec fn footer_band(u: RawUnitV, c: EncoderConfig) -> bool {
    ||| (u.y as int + u.h as int) * 12 >= 11 * c.page_height as int
    ||| (u.y as int + u.h as int) * 12 <= c.page_height as int
}

/// The classification of one raw unit: a pure function of the unit and
/// the configuration alone.
pub open spec fn classify_spec(u: RawUnitV, c: EncoderConfig) -> CellType {
    if table_cue(u, c) {
        CellType::Table
    } else if heading_cue(u, c) {
        CellType::Heading
    } else if code_cue(u.text) {
        CellType::Code
    } else if caption_cue(u.text) {
        CellType::Caption
    } else if footer_band(u, c) {
        CellType::Footer
    } else {
        CellType::Body
    }
}

/// Classifies one raw unit.
pub fn classify_unit(u: &RawUnit, c: &EncoderConfig) -> (t: CellType)
    ensures
        t == classify_spec(u@, *c),
{
    let n = u.text.len();
    let pipes = count_byte(&u.text, 124);
    let tabs = count_byte(&u.text, 9);
    if pipes >= 2 || tabs >= 2 || (pipes >= 1 && (u.w as u64) + (c.table_tolerance as u64) >= (
    c.page_width as u64)) {
        return CellType::Table;
    }
    let alpha = has_alpha(&u.text);
    let lower = has_lower(&u.text);
    let heading = 1 <= n && n <= 120 && ((alpha && !lower) || u.text[n - 1] == 58 || (u.text[0]
        >= 48 && u.text[0] <= 57 && n >= 2 && u.text[1] == 46) || (u.h as u64) * 20 >= (
    c.page_height as u64));
    if heading {
        return CellType::Heading;
    }
    if (n >= 4 && u.text[0] == 32 && u.text[1] == 32 && u.text[2] == 32 && u.text[3] == 32) || (n
        >= 1 && u.text[0] == 9) {
        return CellType::Code;
    }
    let caption = if n >= 3 {
        let b0 = lower_byte(u.text[0]);
        let b1 = lower_byte(u.text[1]);
        let b2 = lower_byte(u.text[2]);
        if b0 == 102 && b1 == 105 && b2 == 103 {
            true
        } else if n >= 7 {
            b0 == 99 && b1 == 97 && b2 == 112 && lower_byte(u.text[3]) == 116 && lower_byte(
                u.text[4],
            ) == 105 && lower_byte(u.text[5]) == 111 && lower_byte(u.text[6]) == 110
        } else {
            false
        }
    } else {
        false
    };
    if caption {
        return CellType::Caption;
    }
    let edge = (u.y as u64 + u.h as u64) * 12;
    if edge >= 11 * (c.page_height as u64) || edge <= (c.page_height as u64) {
        return CellType::Footer;
    }
    CellType::Body
}

/// ASCII lower-casing of one byte.
pub fn lower_byte(b: u8) -> (r: u8)
    ensures
        r == to_lower(b),
{
    if b >= 65 && b <= 90 {
        b + 32
    } else {
        b
    }
}

} // verus!
