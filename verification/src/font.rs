//! Bitmap fonts: a bounding box for the whole font and, for each character,
//! its bounding box and one bitmap word per row.

use vstd::prelude::*;

verus! {

/// A bounding box: width, height, and the x and y offsets of its lower left
/// corner.
#[derive(Copy, Clone, Debug, PartialEq, Eq, Structural)]
pub struct BoundingBox(pub i64, pub i64, pub i64, pub i64);

impl BoundingBox {
    /// The box with the given width, height and offsets.
    pub fn new(width: i64, height: i64, x: i64, y: i64) -> (r: Self)
        ensures
            r == BoundingBox(width, height, x, y),
    {
        BoundingBox(width, height, x, y)
    }

    /// The width.
    pub fn width(&self) -> (r: i64)
        ensures
            r == self.0,
    {
        self.0
    }

    /// The height.
    pub fn height(&self) -> (r: i64)
        ensures
            r == self.1,
    {
        self.1
    }

    /// The horizontal offset.
    pub fn x(&self) -> (r: i64)
        ensures
            r == self.2,
    {
        self.2
    }

    /// The vertical offset.
    pub fn y(&self) -> (r: i64)
        ensures
            r == self.3,
    {
        self.3
    }
}

/// Whether `v` is the code of a character (a Unicode scalar value).
pub open spec fn is_scalar_value(v: u32) -> bool {
    v < 0xD800 || (0xE000 <= v && v <= 0x10FFFF)
}

/// Calls std's `char::from_u32`. As its documentation says, it gives the
/// character with code `v` when `v` is a Unicode scalar value (below 0xD800,
/// or from 0xE000 to 0x10FFFF) and `None` otherwise.
#[verifier::external_body]
fn char_from_u32(v: u32) -> (r: Option<char>)
    ensures
        r is Some <==> is_scalar_value(v),
        r matches Some(c) ==> c as u32 == v,
{
    char::from_u32(v)
}

/// One character of a font: its code, its bounding box, and its bitmap, one
/// word per row from the top, the leftmost pixel in bit 7.
#[derive(Clone, Debug)]
pub struct Char(pub u32, pub BoundingBox, pub Vec<u32>);

impl Char {
    /// The character with the given code, bounding box and bitmap.
    pub fn new(code: u32, bounds: BoundingBox, bitmap: Vec<u32>) -> (r: Self)
        ensures
            r.0 == code,
            r.1 == bounds,
            r.2@ == bitmap@,
    {
        Char(code, bounds, bitmap)
    }

    /// The character this glyph draws. Its code must be a character code.
    pub fn char(&self) -> (r: char)
        requires
            is_scalar_value(self.0),
        ensures
            r as u32 == self.0,
    {
        char_from_u32(self.0).unwrap()
    }

    /// The glyph's bounding box.
    pub fn bounds(&self) -> (r: BoundingBox)
        ensures
            r == self.1,
    {
        self.1
    }

    /// The glyph's rows.
    pub fn bitmap(&self) -> (r: &Vec<u32>)
        ensures
            r@ == self.2@,
    {
        &self.2
    }
}

/// A font: the bounding box of every glyph together, and the glyphs.
pub struct Font(pub BoundingBox, pub Vec<Char>);

/// Whether every glyph of the font has a character code.
pub open spec fn font_codes_valid(font: &Font) -> bool {
    forall|i: int| 0 <= i < font.1@.len() ==> is_scalar_value(#[trigger] font.1@[i].0)
}

/// The first glyph of `chars` whose code is `code`, if any.
pub open spec fn find_glyph(chars: Seq<Char>, code: u32) -> Option<Char>
    decreases chars.len(),
{
    if chars.len() == 0 {
        None
    } else if chars[0].0 == code {
        Some(chars[0])
    } else {
        find_glyph(chars.drop_first(), code)
    }
}

/// Whether every glyph of the font has a character code.
pub fn codes_valid(font: &Font) -> (r: bool)
    ensures
        r == font_codes_valid(font),
{
    let mut i: usize = 0;
    while i < font.1.len()
        invariant
            i <= font.1@.len(),
            forall|k: int| 0 <= k < i ==> is_scalar_value(#[trigger] font.1@[k].0),
        decreases font.1@.len() - i,
    {
        let c = font.1[i].0;
        if !(c < 0xD800 || (0xE000 <= c && c <= 0x10FFFF)) {
            return false;
        }
        i = i + 1;
    }
    true
}

/// Whether looking `code` up in `chars` meets only glyphs with a character
/// code: every glyph up to the first one with code `code` (all of them, if
/// there is none) has one.
pub open spec fn lookup_ok(chars: Seq<Char>, code: u32) -> bool
    decreases chars.len(),
{
    if chars.len() == 0 {
        true
    } else {
        is_scalar_value(chars[0].0) && (chars[0].0 == code || lookup_ok(chars.drop_first(), code))
    }
}

/// Whether looking `ch` up in the font meets only glyphs with a character
/// code: what `get_char` needs.
pub fn can_look_up(font: &Font, ch: char) -> (r: bool)
    ensures
        r == lookup_ok(font.1@, ch as u32),
{
    let chars = &font.1;
    assert(chars@.skip(0) =~= chars@);
    let mut i: usize = 0;
    while i < chars.len()
        invariant
            chars == &font.1,
            i <= chars@.len(),
            lookup_ok(chars@, ch as u32) == lookup_ok(chars@.skip(i as int), ch as u32),
        decreases chars@.len() - i,
    {
        let c = chars[i].0;
        proof {
            assert(chars@.skip(i as int)[0] == chars@[i as int]);
            assert(chars@.skip(i as int).drop_first() =~= chars@.skip(i + 1));
        }
        if !(c < 0xD800 || (0xE000 <= c && c <= 0x10FFFF)) {
            return false;
        }
        if c == ch as u32 {
            return true;
        }
        i = i + 1;
    }
    proof {
        assert(chars@.skip(i as int).len() == 0);
    }
    true
}

/// The font's bounding box.
pub fn get_font_bounds(font: &Font) -> (r: BoundingBox)
    ensures
        r == font.0,
{
    font.0
}

/// The first glyph of the font that draws `ch`, if there is one.
pub fn get_char(font: &Font, ch: char) -> (r: Option<&Char>)
    requires
        lookup_ok(font.1@, ch as u32),
    ensures
        match r {
            Some(c) => find_glyph(font.1@, ch as u32) == Some(*c),
            None => find_glyph(font.1@, ch as u32) is None,
        },
{
    let chars = &font.1;
    assert(chars@.skip(0) =~= chars@);
    let mut i: usize = 0;
    while i < chars.len()
        invariant
            lookup_ok(chars@.skip(i as int), ch as u32),
            chars == &font.1,
            i <= chars@.len(),
            find_glyph(chars@, ch as u32) == find_glyph(chars@.skip(i as int), ch as u32),
        decreases chars@.len() - i,
    {
        let c = &chars[i];
        proof {
            assert(chars@.skip(i as int)[0] == chars@[i as int]);
            assert(chars@.skip(i as int).drop_first() =~= chars@.skip(i + 1));
        }
        if c.char() == ch {
            return Some(c);
        }
        i = i + 1;
    }
    proof {
        assert(chars@.skip(i as int).len() == 0);
    }
    None
}

} // verus!
