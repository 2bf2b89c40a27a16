//! Pixel encodings and component-order resolution.
//!
//! A `PixelFormat` fixes the byte width of one packed pixel, which channels it
//! carries, whether a user-typed component order applies, and whether the
//! byte order of a 2-byte pixel matters. Component-order resolution turns the
//! user string into one position per required channel, or fails; there is no
//! partial or defaulted mapping.

use vstd::prelude::*;
use vstd::std_specs::iter::IteratorSpec;

use crate::error::DecodeError;

verus! {

broadcast use vstd::string::axiom_spec_iter, vstd::string::next_postcondition;

/// How the two bytes of a 2-byte packed pixel combine into a 16-bit value.
#[derive(Debug, Clone, Copy, PartialEq, Eq, Structural)]
pub enum Endian {
    LE,
    BE,
}

impl Default for Endian {
    fn default() -> (r: Self)
        ensures
            r == Endian::LE,
    {
        Endian::LE
    }
}

/// The closed set of supported fixed-width packed pixel encodings.
#[derive(Debug, Clone, Copy, PartialEq, Eq, Structural)]
pub enum PixelFormat {
    /// Four 8-bit channels, one byte per channel.
    RGBA8888,
    /// Three 8-bit channels, one byte per channel; alpha is always 255.
    RGB888,
    /// Four 4-bit channels packed into 2 bytes; each field scales by 17.
    RGBA4444,
    /// Three 5-bit channels and one 1-bit alpha packed into 2 bytes.
    RGBA5551,
    /// 5-6-5-bit channels packed into 2 bytes; alpha is always 255.
    RGB565,
    /// One byte, copied into the red channel.
    R8,
    /// One byte, copied into the green channel.
    G8,
    /// One byte, copied into the blue channel.
    B8,
    /// One byte, replicated into red, green and blue.
    L8,
}

impl Default for PixelFormat {
    fn default() -> (r: Self)
        ensures
            r == PixelFormat::RGBA8888,
    {
        PixelFormat::RGBA8888
    }
}

/// Lower-cases one ASCII letter and leaves every other character alone.
pub open spec fn lower_char(c: char) -> char {
    if 'A' <= c && c <= 'Z' {
        ((c as u32) + 32) as char
    } else {
        c
    }
}

/// The character-wise ASCII lower-casing of a string.
pub open spec fn lower_seq(s: Seq<char>) -> Seq<char> {
    Seq::new(s.len(), |i: int| lower_char(s[i]))
}

/// The least index at which `c` occurs in `s`, or -1 when it does not occur.
pub open spec fn first_pos(s: Seq<char>, c: char) -> int
    decreases s.len(),
{
    if s.len() == 0 {
        -1
    } else if s[0] == c {
        0
    } else {
        let p = first_pos(s.subrange(1, s.len() as int), c);
        if p < 0 {
            -1
        } else {
            p + 1
        }
    }
}

/// `first_pos` finds exactly the least occurrence of `c` in `s`.
pub proof fn lemma_first_pos(s: Seq<char>, c: char)
    ensures
        first_pos(s, c) == -1 <==> (forall|i: int| 0 <= i < s.len() ==> s[i] != c),
        first_pos(s, c) >= 0 ==> {
            &&& first_pos(s, c) < s.len()
            &&& s[first_pos(s, c)] == c
            &&& forall|i: int| 0 <= i < first_pos(s, c) ==> s[i] != c
        },
    decreases s.len(),
{
    if s.len() > 0 && s[0] != c {
        let sub = s.subrange(1, s.len() as int);
        lemma_first_pos(sub, c);
        let p = first_pos(sub, c);
        if p >= 0 {
            assert(s[p + 1] == sub[p]);
            assert forall|i: int| 0 <= i < p + 1 implies s[i] != c by {
                if i > 0 {
                    assert(sub[i - 1] != c);
                }
            }
        } else {
            assert forall|i: int| 0 <= i < s.len() implies s[i] != c by {
                if i > 0 {
                    assert(sub[i - 1] != c);
                }
            }
        }
    }
}

impl PixelFormat {
    /// How many channels the format draws from the component-order string:
    /// 4, 3, or 0 when no order applies.
    pub open spec fn spec_channel_count(self) -> int {
        match self {
            PixelFormat::RGBA8888 | PixelFormat::RGBA4444 | PixelFormat::RGBA5551 => 4,
            PixelFormat::RGB888 | PixelFormat::RGB565 => 3,
            _ => 0,
        }
    }

    /// The byte width of one packed pixel.
    pub open spec fn spec_bytes_per_pixel(self) -> usize {
        match self {
            PixelFormat::RGBA8888 => 4,
            PixelFormat::RGB888 => 3,
            PixelFormat::RGBA4444 | PixelFormat::RGBA5551 | PixelFormat::RGB565 => 2,
            PixelFormat::R8 | PixelFormat::G8 | PixelFormat::B8 | PixelFormat::L8 => 1,
        }
    }

    /// Whether the lower-cased component order `low` satisfies the format:
    /// right length and every required letter present.
    pub open spec fn spec_valid_order(self, low: Seq<char>) -> bool {
        if self.spec_channel_count() == 4 {
            low.len() == 4 && low.contains('r') && low.contains('g') && low.contains('b')
                && low.contains('a')
        } else if self.spec_channel_count() == 3 {
            low.len() == 3 && low.contains('r') && low.contains('g') && low.contains('b')
        } else {
            true
        }
    }

    /// The format's display name.
    pub open spec fn spec_name(self) -> Seq<char> {
        match self {
            PixelFormat::RGBA8888 => "RGBA8888"@,
            PixelFormat::RGB888 => "RGB888"@,
            PixelFormat::RGBA4444 => "RGBA4444"@,
            PixelFormat::RGBA5551 => "RGBA5551"@,
            PixelFormat::RGB565 => "RGB565"@,
            PixelFormat::R8 => "R8"@,
            PixelFormat::G8 => "G8"@,
            PixelFormat::B8 => "B8"@,
            PixelFormat::L8 => "L8"@,
        }
    }

    /// The resolved order that `valid_order` hands back on success: the
    /// lower-cased string where an order applies, and empty where none does.
    pub open spec fn spec_resolved_order(self, s: Seq<char>) -> Seq<char> {
        if self.spec_channel_count() == 0 {
            Seq::empty()
        } else {
            lower_seq(s)
        }
    }

    /// Every supported format, in presentation order.
    pub fn all() -> (r: Vec<Self>)
        ensures
            r@ =~= seq![
                PixelFormat::RGBA8888,
                PixelFormat::RGB888,
                PixelFormat::RGBA4444,
                PixelFormat::RGBA5551,
                PixelFormat::RGB565,
                PixelFormat::R8,
                PixelFormat::G8,
                PixelFormat::B8,
                PixelFormat::L8,
            ],
    {
        vec![
            PixelFormat::RGBA8888,
            PixelFormat::RGB888,
            PixelFormat::RGBA4444,
            PixelFormat::RGBA5551,
            PixelFormat::RGB565,
            PixelFormat::R8,
            PixelFormat::G8,
            PixelFormat::B8,
            PixelFormat::L8,
        ]
    }

    /// Whether a component-order string applies to this format.
    pub fn is_orderable(&self) -> (r: bool)
        ensures
            r == (self.spec_channel_count() > 0),
    {
        match self {
            PixelFormat::RGBA8888
            | PixelFormat::RGB888
            | PixelFormat::RGBA4444
            | PixelFormat::RGBA5551
            | PixelFormat::RGB565 => true,
            _ => false,
        }
    }

    /// Whether the format carries an alpha channel that `ignore_alpha` can force.
    pub fn use_alpha(&self) -> (r: bool)
        ensures
            r == (self == PixelFormat::RGBA8888 || self == PixelFormat::RGBA4444
                || self == PixelFormat::RGBA5551),
    {
        match self {
            PixelFormat::RGBA8888 | PixelFormat::RGBA4444 | PixelFormat::RGBA5551 => true,
            _ => false,
        }
    }

    /// Whether byte order matters: exactly the 2-byte packed formats.
    pub fn use_endian(&self) -> (r: bool)
        ensures
            r == (self.spec_bytes_per_pixel() == 2),
    {
        self.bytes_per_pixel() == 2
    }

    /// The canonical order string shown to the user for this format.
    pub fn default_order(&self) -> (r: String)
        ensures
            self.spec_channel_count() == 4 ==> r@ == "RGBA"@,
            self.spec_channel_count() == 3 ==> r@ == "RGB"@,
            self.spec_channel_count() == 0 ==> r@ == Seq::<char>::empty(),
    {
        match self {
            PixelFormat::RGBA8888 | PixelFormat::RGBA4444 | PixelFormat::RGBA5551 => "RGBA".to_owned(),
            PixelFormat::RGB888 | PixelFormat::RGB565 => "RGB".to_owned(),
            _ => {
                let r = String::new();
                proof {
                    assert(r@ =~= Seq::<char>::empty());
                }
                r
            },
        }
    }

    /// Lower-cases the user order string and checks it against the format's
    /// required channels. Success hands back the lower-cased characters (empty
    /// for a format with no required order); any violation yields `None`.
    pub fn valid_order(&self, order: &str) -> (r: Option<Vec<char>>)
        ensures
            r is Some <==> self.spec_valid_order(lower_seq(order@)),
            r matches Some(v) ==> v@ == self.spec_resolved_order(order@),
    {
        let low = lower_chars(order);

        match self {
            PixelFormat::RGBA8888 | PixelFormat::RGBA4444 | PixelFormat::RGBA5551 => {
                if low.len() == 4 && contains_char(&low, 'r') && contains_char(&low, 'g')
                    && contains_char(&low, 'b') && contains_char(&low, 'a') {
                    Some(low)
                } else {
                    None
                }
            },
            PixelFormat::RGB888 | PixelFormat::RGB565 => {
                if low.len() == 3 && contains_char(&low, 'r') && contains_char(&low, 'g')
                    && contains_char(&low, 'b') {
                    Some(low)
                } else {
                    None
                }
            },
            _ => {
                let v: Vec<char> = Vec::new();
                proof {
                    assert(v@ =~= Seq::<char>::empty());
                }
                Some(v)
            },
        }
    }

    /// The byte width of one packed pixel.
    pub fn bytes_per_pixel(&self) -> (r: usize)
        ensures
            r == self.spec_bytes_per_pixel(),
    {
        match self {
            PixelFormat::RGBA8888 => 4,
            PixelFormat::RGB888 => 3,
            PixelFormat::RGBA4444 | PixelFormat::RGBA5551 | PixelFormat::RGB565 => 2,
            PixelFormat::R8 | PixelFormat::G8 | PixelFormat::B8 | PixelFormat::L8 => 1,
        }
    }

    /// The format's display name.
    pub fn name(&self) -> (r: &'static str)
        ensures
            r@ == self.spec_name(),
    {
        match self {
            PixelFormat::RGBA8888 => "RGBA8888",
            PixelFormat::RGB888 => "RGB888",
            PixelFormat::RGBA4444 => "RGBA4444",
            PixelFormat::RGBA5551 => "RGBA5551",
            PixelFormat::RGB565 => "RGB565",
            PixelFormat::R8 => "R8",
            PixelFormat::G8 => "G8",
            PixelFormat::B8 => "B8",
            PixelFormat::L8 => "L8",
        }
    }
}

/// Lower-cases one character, ASCII letters only.
fn to_lower(c: char) -> (r: char)
    ensures
        r == lower_char(c),
{
    if c >= 'A' && c <= 'Z' {
        let b: u8 = c as u8;
        (b + 32) as char
    } else {
        c
    }
}

/// The characters of `s`, ASCII lower-cased.
fn lower_chars(s: &str) -> (v: Vec<char>)
    ensures
        v@ == lower_seq(s@),
{
    let mut it = s.chars();
    let mut v: Vec<char> = Vec::new();
    loop
        invariant
            v@.len() <= s@.len(),
            it.remaining() =~= s@.subrange(v@.len() as int, s@.len() as int),
            forall|i: int| 0 <= i < v@.len() ==> v@[i] == lower_char(s@[i]),
        ensures
            v@.len() == s@.len(),
            forall|i: int| 0 <= i < v@.len() ==> v@[i] == lower_char(s@[i]),
        decreases s@.len() - v@.len(),
    {
        match it.next() {
            Some(c) => {
                proof {
                    assert(c == s@[v@.len() as int]);
                }
                v.push(to_lower(c));
            },
            None => {
                break;
            },
        }
    }
    proof {
        assert(v@ =~= lower_seq(s@));
    }
    v
}

/// The least position of `c` in `order`, searched front to back.
fn position_of(order: &Vec<char>, c: char) -> (r: Option<usize>)
    ensures
        match r {
            Some(p) => p == first_pos(order@, c),
            None => first_pos(order@, c) == -1,
        },
{
    let n = order.len();
    for i in 0..n
        invariant
            n == order@.len(),
            forall|j: int| 0 <= j < i ==> order@[j] != c,
    {
        if order[i] == c {
            proof {
                lemma_first_pos(order@, c);
            }
            return Some(i);
        }
    }
    proof {
        lemma_first_pos(order@, c);
    }
    None
}

/// Whether `c` occurs among the characters of `order`.
fn contains_char(order: &Vec<char>, c: char) -> (r: bool)
    ensures
        r == order@.contains(c),
{
    proof {
        lemma_first_pos(order@, c);
    }
    let r = position_of(order, c);
    match r {
        Some(_) => {
            proof {
                assert(order@.contains(c));
            }
            true
        },
        None => {
            proof {
                assert(!order@.contains(c));
            }
            false
        },
    }
}

/// The byte position of each of R, G, B and A in a four-channel order, or
/// `InvalidComponentOrder` when a letter is missing.
pub fn rgba_order(order: &Vec<char>) -> (r: Result<(usize, usize, usize, usize), DecodeError>)
    ensures
        r is Ok <==> order@.contains('r') && order@.contains('g') && order@.contains('b')
            && order@.contains('a'),
        r matches Ok(t) ==> t.0 == first_pos(order@, 'r') && t.1 == first_pos(order@, 'g')
            && t.2 == first_pos(order@, 'b') && t.3 == first_pos(order@, 'a'),
        r is Err ==> r == Err::<(usize, usize, usize, usize), DecodeError>(
            DecodeError::InvalidComponentOrder,
        ),
{
    proof {
        lemma_first_pos(order@, 'r');
        lemma_first_pos(order@, 'g');
        lemma_first_pos(order@, 'b');
        lemma_first_pos(order@, 'a');
    }
    let ri = match position_of(order, 'r') {
        Some(p) => p,
        None => {
            return Err(DecodeError::InvalidComponentOrder);
        },
    };
    let gi = match position_of(order, 'g') {
        Some(p) => p,
        None => {
            return Err(DecodeError::InvalidComponentOrder);
        },
    };
    let bi = match position_of(order, 'b') {
        Some(p) => p,
        None => {
            return Err(DecodeError::InvalidComponentOrder);
        },
    };
    let ai = match position_of(order, 'a') {
        Some(p) => p,
        None => {
            return Err(DecodeError::InvalidComponentOrder);
        },
    };
    Ok((ri, gi, bi, ai))
}

/// The byte position of each of R, G and B in a three-channel order, or
/// `InvalidComponentOrder` when a letter is missing.
pub fn rgb_order(order: &Vec<char>) -> (r: Result<(usize, usize, usize), DecodeError>)
    ensures
        r is Ok <==> order@.contains('r') && order@.contains('g') && order@.contains('b'),
        r matches Ok(t) ==> t.0 == first_pos(order@, 'r') && t.1 == first_pos(order@, 'g')
            && t.2 == first_pos(order@, 'b'),
        r is Err ==> r == Err::<(usize, usize, usize), DecodeError>(
            DecodeError::InvalidComponentOrder,
        ),
{
    proof {
        lemma_first_pos(order@, 'r');
        lemma_first_pos(order@, 'g');
        lemma_first_pos(order@, 'b');
    }
    let ri = match position_of(order, 'r') {
        Some(p) => p,
        None => {
            return Err(DecodeError::InvalidComponentOrder);
        },
    };
    let gi = match position_of(order, 'g') {
        Some(p) => p,
        None => {
            return Err(DecodeError::InvalidComponentOrder);
        },
    };
    let bi = match position_of(order, 'b') {
        Some(p) => p,
        None => {
            return Err(DecodeError::InvalidComponentOrder);
        },
    };
    Ok((ri, gi, bi))
}

/// The user-facing pixel-format selection: the chosen format, the typed
/// component order, and the byte order for 2-byte formats.
#[derive(Debug)]
pub struct PixelFormatState {
    pub selected: PixelFormat,
    pub component_order: String,
    pub endian: Endian,
}

impl Default for PixelFormatState {
    fn default() -> (r: Self)
        ensures
            r.selected == PixelFormat::RGBA8888,
            r.component_order@ == "RGBA"@,
            r.endian == Endian::LE,
    {
        let selected = PixelFormat::default();
        let component_order = selected.default_order();
        PixelFormatState { selected, component_order, endian: Endian::default() }
    }
}

impl PixelFormatState {
    /// Whether the selected format takes a component-order string.
    pub fn is_orderable(&self) -> (r: bool)
        ensures
            r == (self.selected.spec_channel_count() > 0),
    {
        self.selected.is_orderable()
    }
}

} // verus!
