//! Colors and their two numeric readings.

use rand::seq::SliceRandom;
use vstd::prelude::*;

verus! {

/// Number of channels in a color, and of bytes it takes in a raster.
pub const COLOR_COMPONENTS: usize = 3;

/// Largest value a single channel holds.
pub const CHANNEL_MAX: i32 = 255;

/// Largest channel sum a single pixel can carry.
pub const MAX_MAGNITUDE: i32 = 765;

/// An RGB triple with 8 bits per channel.
///
/// A color is read in two ways that are never mixed: as a packed 24-bit
/// identifier ([`Color::packed`]), which is how an operation is recognised,
/// and as the sum of its channels ([`Color::magnitude`]), which is the value a
/// data pixel pushes.
#[derive(Debug, Copy, Clone, PartialEq, Eq, Hash, Structural)]
pub struct Color {
    pub r: u8,
    pub g: u8,
    pub b: u8,
}

impl Color {
    /// The value a data pixel of this color stands for: `r + g + b`.
    pub open spec fn magnitude(self) -> int {
        self.r + self.g + self.b
    }

    /// The 24-bit identifier `0xRRGGBB` of this color.
    pub open spec fn packed(self) -> int {
        self.r * 0x1_0000 + self.g * 0x100 + self.b
    }

    /// The color whose 24-bit identifier is the low 24 bits of `id`.
    pub open spec fn unpack(id: int) -> Color {
        Color {
            r: ((id / 0x1_0000) % 0x100) as u8,
            g: ((id / 0x100) % 0x100) as u8,
            b: (id % 0x100) as u8,
        }
    }

    /// The color of magnitude `value` that fills the channels greedily: red
    /// first, then green, and blue takes what is left.
    pub open spec fn greedy(value: int) -> Color {
        let r = if value < 255 {
            value
        } else {
            255
        };
        let g = if value - r < 255 {
            value - r
        } else {
            255
        };
        Color { r: r as u8, g: g as u8, b: (value - r - g) as u8 }
    }

    /// The smallest of the three channels.
    pub open spec fn lowest(self) -> int {
        if self.r <= self.g && self.r <= self.b {
            self.r as int
        } else if self.g <= self.b {
            self.g as int
        } else {
            self.b as int
        }
    }

    /// What one draw adds to a color that is still `left` short of its
    /// magnitude: at least 1, at most `left`, and no more than the lowest
    /// channel has room for.
    pub open spec fn increment(self, left: int, draw: u8) -> int {
        let room = 255 - self.lowest();
        1 + draw as int % (if left < room {
            left
        } else {
            room
        })
    }

    /// The color with `amount` added to the first of red, green and blue that
    /// has room for it; unchanged where none has.
    pub open spec fn deposited(self, amount: int) -> Color {
        if self.r + amount <= 255 {
            Color { r: (self.r + amount) as u8, ..self }
        } else if self.g + amount <= 255 {
            Color { g: (self.g + amount) as u8, ..self }
        } else if self.b + amount <= 255 {
            Color { b: (self.b + amount) as u8, ..self }
        } else {
            self
        }
    }

    /// Whether `other` has the channel values of `self`, in any order.
    pub open spec fn rearranged(self, other: Color) -> bool {
        let (a, b, c) = (self.r, self.g, self.b);
        let found = (other.r, other.g, other.b);
        ||| found == (a, b, c)
        ||| found == (a, c, b)
        ||| found == (b, a, c)
        ||| found == (b, c, a)
        ||| found == (c, a, b)
        ||| found == (c, b, a)
    }

    /// The color with the given channels.
    pub fn new(r: u8, g: u8, b: u8) -> (c: Self)
        ensures
            c == (Color { r, g, b }),
    {
        Color { r, g, b }
    }

    /// The color of magnitude `value` that is the same on every call: red is
    /// filled first, then green, then blue.
    pub fn not_random(value: i32) -> (c: Self)
        requires
            0 <= value <= MAX_MAGNITUDE,
        ensures
            c == Color::greedy(value as int),
            c.magnitude() == value,
    {
        let mut value = value;
        let r = if CHANNEL_MAX < value {
            CHANNEL_MAX
        } else {
            value
        };
        value = value - r;
        let g = if CHANNEL_MAX < value {
            CHANNEL_MAX
        } else {
            value
        };
        value = value - g;
        let b = if CHANNEL_MAX < value {
            CHANNEL_MAX
        } else {
            value
        };
        Color { r: r as u8, g: g as u8, b: b as u8 }
    }

    /// One step of building a color at random: given the byte that was drawn,
    /// adds the increment it stands for to the first channel with room, and
    /// says how much is then left to add.
    pub fn deposit(self, left: i32, draw: u8) -> (r: (Color, i32))
        requires
            0 < left,
            self.magnitude() + left <= MAX_MAGNITUDE,
        ensures
            r.0 == self.deposited(self.increment(left as int, draw)),
            r.1 == left - self.increment(left as int, draw),
            r.0.magnitude() + r.1 == self.magnitude() + left,
            0 <= r.1 < left,
    {
        let low = if self.r <= self.g && self.r <= self.b {
            self.r
        } else if self.g <= self.b {
            self.g
        } else {
            self.b
        };
        let room: i32 = CHANNEL_MAX - low as i32;
        let bound = if left < room {
            left
        } else {
            room
        };
        let amount: i32 = 1 + draw as i32 % bound;
        let next = if self.r as i32 + amount <= CHANNEL_MAX {
            Color { r: (self.r as i32 + amount) as u8, g: self.g, b: self.b }
        } else if self.g as i32 + amount <= CHANNEL_MAX {
            Color { r: self.r, g: (self.g as i32 + amount) as u8, b: self.b }
        } else {
            Color { r: self.r, g: self.g, b: (self.b as i32 + amount) as u8 }
        };
        (next, left - amount)
    }

    /// A color of magnitude `value`, drawn at random.
    ///
    /// The magnitude is dealt out in random increments, each to the first
    /// channel that has room for it, and the channels are shuffled after each
    /// increment. Which color of that magnitude comes out is left to chance.
    pub fn random(value: i32) -> (c: Self)
        requires
            0 <= value <= MAX_MAGNITUDE,
        ensures
            c.magnitude() == value,
    {
        let mut color = Color { r: 0, g: 0, b: 0 };
        let mut left = value;
        while left != 0
            invariant
                0 <= left <= value <= MAX_MAGNITUDE,
                color.magnitude() + left == value,
            decreases left,
        {
            let (next, rest) = color.deposit(left, random_byte());
            color = shuffled(next);
            left = rest;
        }
        color
    }

    /// Appends the three channels to `data`: red, green, blue.
    pub fn write_data(&self, data: &mut Vec<u8>)
        ensures
            final(data)@ == old(data)@ + seq![self.r, self.g, self.b],
    {
        data.push(self.r);
        data.push(self.g);
        data.push(self.b);
        assert(data@ =~= old(data)@ + seq![self.r, self.g, self.b]);
    }

    /// Channel sum, computed.
    pub fn channel_sum(&self) -> (m: i32)
        ensures
            m == self.magnitude(),
            0 <= m <= MAX_MAGNITUDE,
    {
        self.r as i32 + self.g as i32 + self.b as i32
    }

    /// Packed identifier, computed.
    pub fn to_packed(&self) -> (id: u32)
        ensures
            id == self.packed(),
            id <= 0xFF_FFFF,
            Color::unpack(id as int) == *self,
    {
        (self.r as u32) * 0x1_0000 + (self.g as u32) * 0x100 + (self.b as u32)
    }
}

/// The color whose 24-bit identifier is the low 24 bits of the number.
impl From<u32> for Color {
    fn from(val: u32) -> (c: Self) {
        assert((val >> 16) & 0xff == (val / 0x1_0000) % 0x100) by (bit_vector);
        assert((val >> 8) & 0xff == (val / 0x100) % 0x100) by (bit_vector);
        assert(val & 0xff == val % 0x100) by (bit_vector);
        Color {
            r: ((val >> 16) & 0xff) as u8,
            g: ((val >> 8) & 0xff) as u8,
            b: (val & 0xff) as u8,
        }
    }
}

impl vstd::std_specs::convert::FromSpecImpl<u32> for Color {
    open spec fn obeys_from_spec() -> bool {
        true
    }

    open spec fn from_spec(val: u32) -> Color {
        Color::unpack(val as int)
    }
}

/// The color whose 24-bit identifier is the low 24 bits of the number's
/// two's-complement bit pattern.
impl From<i32> for Color {
    fn from(val: i32) -> (c: Self) {
        Color::from(bits_of(val))
    }
}

impl vstd::std_specs::convert::FromSpecImpl<i32> for Color {
    open spec fn obeys_from_spec() -> bool {
        true
    }

    open spec fn from_spec(val: i32) -> Color {
        Color::unpack(bit_pattern(val as int))
    }
}

/// As for the number itself.
impl From<&i32> for Color {
    fn from(val: &i32) -> (c: Self) {
        Color::from(bits_of(*val))
    }
}

impl vstd::std_specs::convert::FromSpecImpl<&i32> for Color {
    open spec fn obeys_from_spec() -> bool {
        true
    }

    open spec fn from_spec(val: &i32) -> Color {
        Color::unpack(bit_pattern(*val as int))
    }
}

/// The color whose 24-bit identifier is the character's code point.
impl From<char> for Color {
    fn from(val: char) -> (c: Self) {
        Color::from(code_point(val))
    }
}

impl vstd::std_specs::convert::FromSpecImpl<char> for Color {
    open spec fn obeys_from_spec() -> bool {
        true
    }

    open spec fn from_spec(val: char) -> Color {
        Color::unpack(val as int)
    }
}

/// The code point of `c`.
pub fn code_point(c: char) -> (n: u32)
    ensures
        n == c as int,
{
    c as u32
}

/// The unsigned reading of the 32-bit two's-complement pattern of `n`.
pub open spec fn bit_pattern(n: int) -> int {
    if n < 0 {
        n + 0x1_0000_0000
    } else {
        n
    }
}

/// The 32 bits of `n`, read as an unsigned number.
pub fn bits_of(n: i32) -> (bits: u32)
    ensures
        bits == bit_pattern(n as int),
{
    if n < 0 {
        ((n as i64) + 0x1_0000_0000) as u32
    } else {
        n as u32
    }
}

/// `rand::random::<u8>()`: a byte from the generator of the current thread,
/// which the system seeds on first use. Any byte may come back, and another
/// one on the next call. Nothing is claimed of it.
#[verifier::external_body]
fn random_byte() -> u8 {
    rand::random::<u8>()
}

/// `SliceRandom::shuffle` of rand, on the three channels, with the generator
/// of the current thread. The shuffle only swaps elements of the slice in
/// place, so what is claimed is that the same three values come back in some
/// order; which order is left open.
#[verifier::external_body]
fn shuffled(color: Color) -> (mixed: Color)
    ensures
        color.rearranged(mixed),
{
    let mut channels = [color.r, color.g, color.b];
    channels.shuffle(&mut rand::thread_rng());
    Color { r: channels[0], g: channels[1], b: channels[2] }
}

} // verus!
