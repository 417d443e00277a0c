use vstd::prelude::*;

verus! {

/// The pre-rendered images of the glyph table.
#[derive(Clone, Copy, Debug, PartialEq, Eq, Hash, Structural)]
pub enum Images {
    Space,
    X,
    Pound,
    Zero,
    One,
    Two,
    Three,
    Four,
    Five,
    Six,
    Seven,
    Eight,
    Nine,
    Header,
    Footer,
    Void,
    Garlic,
    Carrot,
    Corn,
    Tomato,
    Mushroom,
    Aubergine,
    Pumpkin,
    Croissant,
}

/// Number of images in the glyph table.
pub const IMAGE_COUNT: usize = 24;

/// Slots of a rendered price: up to four digits and the currency symbol.
pub const PRICE_SLOTS: usize = 5;

/// The glyph of a decimal digit.
pub open spec fn digit_image(d: int) -> Images {
    if d == 0 {
        Images::Zero
    } else if d == 1 {
        Images::One
    } else if d == 2 {
        Images::Two
    } else if d == 3 {
        Images::Three
    } else if d == 4 {
        Images::Four
    } else if d == 5 {
        Images::Five
    } else if d == 6 {
        Images::Six
    } else if d == 7 {
        Images::Seven
    } else if d == 8 {
        Images::Eight
    } else {
        Images::Nine
    }
}

/// The characters that have a glyph.
pub open spec fn has_glyph(c: char) -> bool {
    c == ' ' || c == 'x' || c == '£' || ('0' <= c && c <= '9')
}

/// The glyph of a character that has one.
pub open spec fn char_image(c: char) -> Images {
    if c == ' ' {
        Images::Space
    } else if c == 'x' {
        Images::X
    } else if c == '£' {
        Images::Pound
    } else {
        digit_image(c as int - '0' as int)
    }
}

/// Slot `i` of the layout of `price`, filling from slot `i` on with
/// `remaining` still to write: a digit while something remains, the currency
/// symbol once nothing does, and spaces after that.
pub open spec fn price_slot(remaining: int, i: int) -> Images
    decreases i,
{
    if i <= 0 {
        if remaining == 0 {
            Images::Pound
        } else {
            digit_image(remaining % 10)
        }
    } else if remaining == 0 {
        Images::Space
    } else {
        price_slot(remaining / 10, i - 1)
    }
}

/// The five glyphs of a price, least significant digit first.
pub open spec fn price_layout(price: int) -> Seq<Images> {
    Seq::new(PRICE_SLOTS as nat, |i: int| price_slot(price, i))
}

/// The index of an image in the glyph table.
pub open spec fn image_index(img: Images) -> int {
    match img {
        Images::Space => 0,
        Images::X => 1,
        Images::Pound => 2,
        Images::Zero => 3,
        Images::One => 4,
        Images::Two => 5,
        Images::Three => 6,
        Images::Four => 7,
        Images::Five => 8,
        Images::Six => 9,
        Images::Seven => 10,
        Images::Eight => 11,
        Images::Nine => 12,
        Images::Header => 13,
        Images::Footer => 14,
        Images::Void => 15,
        Images::Garlic => 16,
        Images::Carrot => 17,
        Images::Corn => 18,
        Images::Tomato => 19,
        Images::Mushroom => 20,
        Images::Aubergine => 21,
        Images::Pumpkin => 22,
        Images::Croissant => 23,
    }
}

impl Images {
    /// Where this image sits in the glyph table.
    pub fn index(&self) -> (i: usize)
        ensures
            i as int == image_index(*self),
            i < IMAGE_COUNT,
    {
        match self {
            Images::Space => 0,
            Images::X => 1,
            Images::Pound => 2,
            Images::Zero => 3,
            Images::One => 4,
            Images::Two => 5,
            Images::Three => 6,
            Images::Four => 7,
            Images::Five => 8,
            Images::Six => 9,
            Images::Seven => 10,
            Images::Eight => 11,
            Images::Nine => 12,
            Images::Header => 13,
            Images::Footer => 14,
            Images::Void => 15,
            Images::Garlic => 16,
            Images::Carrot => 17,
            Images::Corn => 18,
            Images::Tomato => 19,
            Images::Mushroom => 20,
            Images::Aubergine => 21,
            Images::Pumpkin => 22,
            Images::Croissant => 23,
        }
    }
}

/// The glyph of a decimal digit.
pub fn image_from_digit(d: u16) -> (img: Images)
    requires
        d < 10,
    ensures
        img == digit_image(d as int),
{
    match d {
        0 => Images::Zero,
        1 => Images::One,
        2 => Images::Two,
        3 => Images::Three,
        4 => Images::Four,
        5 => Images::Five,
        6 => Images::Six,
        7 => Images::Seven,
        8 => Images::Eight,
        _ => Images::Nine,
    }
}

/// The glyph of a character; only the characters of a price line have one.
pub fn image_from_char(c: char) -> (img: Images)
    requires
        has_glyph(c),
    ensures
        img == char_image(c),
{
    match c {
        ' ' => Images::Space,
        'x' => Images::X,
        '£' => Images::Pound,
        _ => image_from_digit((c as u32 - '0' as u32) as u16),
    }
}

/// Lays a price out right to left: slot 0 holds the least significant digit,
/// and the currency symbol follows the most significant one. A price of zero
/// is the symbol alone.
pub fn glyphs_for_price(price: u16) -> (glyphs: [Images; 5])
    ensures
        glyphs@ == price_layout(price as int),
{
    let mut glyphs = [Images::Space; 5];
    let mut remaining: u16 = price;
    let mut i: usize = 0;
    while i < 5 && remaining != 0
        invariant
            0 <= i <= 5,
            forall|j: int| 0 <= j < i ==> glyphs@[j] == price_slot(price as int, j),
            forall|j: int| i <= j < 5 ==> glyphs@[j] == Images::Space,
            forall|j: int| i <= j < 5 ==> #[trigger] price_slot(price as int, j) == price_slot(remaining as int, j - i),
        decreases 5 - i,
    {
        let digit = remaining % 10;
        glyphs[i] = image_from_digit(digit);
        assert forall|j: int| i + 1 <= j < 5 implies #[trigger] price_slot(price as int, j)
            == price_slot((remaining / 10) as int, j - (i + 1)) by {
            assert(price_slot(price as int, j) == price_slot(remaining as int, j - i));
        }
        remaining = remaining / 10;
        i = i + 1;
    }
    if i < 5 {
        glyphs[i] = Images::Pound;
        assert(price_slot(price as int, i as int) == Images::Pound);
        assert forall|j: int| i < j < 5 implies #[trigger] price_slot(price as int, j)
            == Images::Space by {
            assert(price_slot(price as int, j) == price_slot(remaining as int, j - i));
        }
    }
    assert(glyphs@ =~= price_layout(price as int));
    glyphs
}

} // verus!
