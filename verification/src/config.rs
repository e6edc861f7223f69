//! Configuration values: ring shapes, colours, effect parameters and the
//! limits applied after loading.

use vstd::prelude::*;

verus! {

/// The outline of the password indicator.
#[derive(Clone, Copy, Debug, PartialEq, Eq, Structural, Default)]
pub enum RingShape {
    #[default]
    Circle,
    Square,
    Diamond,
    Hexagon,
    Pill,
}

impl RingShape {
    /// The name a shape is written with in options and configuration.
    pub open spec fn name_spec(self) -> Seq<char> {
        match self {
            RingShape::Circle => "circle"@,
            RingShape::Square => "square"@,
            RingShape::Diamond => "diamond"@,
            RingShape::Hexagon => "hexagon"@,
            RingShape::Pill => "pill"@,
        }
    }

    /// The name of this shape.
    pub fn name(&self) -> (name: &'static str)
        ensures
            name@ == self.name_spec(),
    {
        match self {
            RingShape::Circle => "circle",
            RingShape::Square => "square",
            RingShape::Diamond => "diamond",
            RingShape::Hexagon => "hexagon",
            RingShape::Pill => "pill",
        }
    }

    /// The shape with this name, if any.
    pub open spec fn named(s: Seq<char>) -> Option<RingShape> {
        if s == "circle"@ {
            Some(RingShape::Circle)
        } else if s == "square"@ {
            Some(RingShape::Square)
        } else if s == "diamond"@ {
            Some(RingShape::Diamond)
        } else if s == "hexagon"@ {
            Some(RingShape::Hexagon)
        } else if s == "pill"@ {
            Some(RingShape::Pill)
        } else {
            None
        }
    }

    /// The message for a name that is no shape.
    pub open spec fn unknown_message(s: Seq<char>) -> Seq<char> {
        "Unknown ring shape '"@ + s + "'. Options: circle, square, diamond, hexagon, pill"@
    }

    /// Parse a shape from its name; any other text is refused with a
    /// message that lists the options.
    pub fn parse(s: &str) -> (shape: Result<RingShape, String>)
        ensures
            match shape {
                Ok(r) => RingShape::named(s@) == Some(r),
                Err(msg) => RingShape::named(s@) is None && msg@ == RingShape::unknown_message(s@),
            },
    {
        if crate::text::same_text(s, "circle") {
            Ok(RingShape::Circle)
        } else if crate::text::same_text(s, "square") {
            Ok(RingShape::Square)
        } else if crate::text::same_text(s, "diamond") {
            Ok(RingShape::Diamond)
        } else if crate::text::same_text(s, "hexagon") {
            Ok(RingShape::Hexagon)
        } else if crate::text::same_text(s, "pill") {
            Ok(RingShape::Pill)
        } else {
            let mut msg = "Unknown ring shape '".to_owned();
            msg.append(s);
            msg.append("'. Options: circle, square, diamond, hexagon, pill");
            Err(msg)
        }
    }
}

/// Every shape is read back from its own name.
pub proof fn lemma_shape_name_round_trip(shape: RingShape)
    ensures
        RingShape::named(shape.name_spec()) == Some(shape),
{
    reveal_strlit("circle");
    reveal_strlit("square");
    reveal_strlit("diamond");
    reveal_strlit("hexagon");
    reveal_strlit("pill");
    assert("circle"@[0] != "square"@[0]);
    assert("circle"@[0] != "diamond"@[0]);
    assert("circle"@[0] != "hexagon"@[0]);
    assert("square"@[0] != "diamond"@[0]);
    assert("square"@[0] != "hexagon"@[0]);
    assert("diamond"@[0] != "hexagon"@[0]);
    assert("pill"@.len() != "circle"@.len());
    assert("pill"@.len() != "square"@.len());
    assert("pill"@.len() != "diamond"@.len());
    assert("pill"@.len() != "hexagon"@.len());
}

/// A colour reads the same with and without its leading `#`.
pub proof fn lemma_color_hash_optional(digits: Seq<char>)
    requires
        digits.len() == 0 || digits[0] != '#',
    ensures
        color_spec(seq!['#'] + digits) == color_spec(digits),
{
    assert(color_digits(seq!['#'] + digits) =~= digits);
}

impl std::str::FromStr for RingShape {
    type Err = String;

    fn from_str(s: &str) -> (shape: Result<Self, Self::Err>)
        ensures
            match shape {
                Ok(r) => RingShape::named(s@) == Some(r),
                Err(msg) => RingShape::named(s@) is None && msg@ == RingShape::unknown_message(s@),
            },
    {
        RingShape::parse(s)
    }
}

/// The value of a hexadecimal digit, if `c` is one (either case).
pub open spec fn hex_digit(c: char) -> Option<u8> {
    if '0' <= c && c <= '9' {
        Some((c as int - '0' as int) as u8)
    } else if 'a' <= c && c <= 'f' {
        Some((c as int - 'a' as int + 10) as u8)
    } else if 'A' <= c && c <= 'F' {
        Some((c as int - 'A' as int + 10) as u8)
    } else {
        None
    }
}

/// The byte written by the two hex digits at `i` and `i + 1`.
pub open spec fn hex_byte(s: Seq<char>, i: int) -> Option<u8> {
    match (hex_digit(s[i]), hex_digit(s[i + 1])) {
        (Some(hi), Some(lo)) => Some((hi * 16 + lo) as u8),
        _ => None,
    }
}

/// The digits of a colour: the text without one leading `#`.
pub open spec fn color_digits(s: Seq<char>) -> Seq<char> {
    if s.len() > 0 && s[0] == '#' {
        s.subrange(1, s.len() as int)
    } else {
        s
    }
}

/// A colour written `RRGGBB` or `RRGGBBAA` in hexadecimal, with an
/// optional leading `#`; without `AA` the colour is opaque.
pub open spec fn color_spec(s: Seq<char>) -> Option<(u8, u8, u8, u8)> {
    let d = color_digits(s);
    if d.len() != 6 && d.len() != 8 {
        None
    } else {
        match (hex_byte(d, 0), hex_byte(d, 2), hex_byte(d, 4)) {
            (Some(r), Some(g), Some(b)) => if d.len() == 6 {
                Some((r, g, b, 255u8))
            } else {
                match hex_byte(d, 6) {
                    Some(a) => Some((r, g, b, a)),
                    None => None,
                }
            },
            _ => None,
        }
    }
}

fn hex_digit_value(c: char) -> (v: Option<u8>)
    ensures
        v == hex_digit(c),
{
    if '0' <= c && c <= '9' {
        Some((c as u32 - '0' as u32) as u8)
    } else if 'a' <= c && c <= 'f' {
        Some((c as u32 - 'a' as u32 + 10) as u8)
    } else if 'A' <= c && c <= 'F' {
        Some((c as u32 - 'A' as u32 + 10) as u8)
    } else {
        None
    }
}

fn hex_byte_at(s: &str, i: usize) -> (b: Option<u8>)
    requires
        i + 1 < s@.len(),
        s@.len() <= 8,
    ensures
        b == hex_byte(s@, i as int),
{
    match (hex_digit_value(s.get_char(i)), hex_digit_value(s.get_char(i + 1))) {
        (Some(hi), Some(lo)) => Some(hi * 16 + lo),
        _ => None,
    }
}

/// Parse a colour written `RRGGBB` or `RRGGBBAA` (optionally after `#`)
/// into its red, green, blue and alpha bytes.
pub fn parse_hex_color(s: &str) -> (color: Result<(u8, u8, u8, u8), String>)
    ensures
        match color {
            Ok(c) => color_spec(s@) == Some(c),
            Err(msg) => color_spec(s@) is None && msg@ == "Invalid color '"@ + s@
                + "': expected RRGGBB or RRGGBBAA"@,
        },
{
    let n = s.unicode_len();
    let digits = if n > 0 && s.get_char(0) == '#' {
        s.substring_char(1, n)
    } else {
        s
    };
    assert(digits@ == color_digits(s@));
    let m = digits.unicode_len();
    let parsed = if m == 6 || m == 8 {
        match (hex_byte_at(digits, 0), hex_byte_at(digits, 2), hex_byte_at(digits, 4)) {
            (Some(r), Some(g), Some(b)) => if m == 6 {
                Some((r, g, b, 255u8))
            } else {
                match hex_byte_at(digits, 6) {
                    Some(a) => Some((r, g, b, a)),
                    None => None,
                }
            },
            _ => None,
        }
    } else {
        None
    };
    match parsed {
        Some(c) => Ok(c),
        None => {
            let mut msg = "Invalid color '".to_owned();
            msg.append(s);
            msg.append("': expected RRGGBB or RRGGBBAA");
            Err(msg)
        },
    }
}

/// The value of a non-empty run of decimal digits that fits in a `u32`.
pub open spec fn decimal_value(s: Seq<char>) -> int
    decreases s.len(),
{
    if s.len() == 0 {
        0
    } else {
        decimal_value(s.drop_last()) * 10 + (s.last() as int - '0' as int)
    }
}

pub open spec fn is_decimal(s: Seq<char>) -> bool {
    &&& s.len() > 0
    &&& forall|i: int| 0 <= i < s.len() ==> '0' <= #[trigger] s[i] && s[i] <= '9'
}

/// A number written in decimal digits that fits in a `u32`.
pub open spec fn u32_spec(s: Seq<char>) -> Option<u32> {
    if is_decimal(s) && decimal_value(s) <= u32::MAX {
        Some(decimal_value(s) as u32)
    } else {
        None
    }
}

/// Parse a run of decimal digits into a `u32`.
pub fn parse_u32(s: &str) -> (v: Option<u32>)
    ensures
        v == u32_spec(s@),
{
    let n = s.unicode_len();
    if n == 0 {
        return None;
    }
    let mut value: u64 = 0;
    let mut i: usize = 0;
    while i < n
        invariant
            n == s@.len(),
            0 <= i <= n,
            forall|j: int| 0 <= j < i ==> '0' <= #[trigger] s@[j] && s@[j] <= '9',
            value == decimal_value(s@.take(i as int)),
            value <= u32::MAX,
        decreases n - i,
    {
        let c = s.get_char(i);
        if c < '0' || c > '9' {
            return None;
        }
        let digit = (c as u32 - '0' as u32) as u64;
        assert(s@.take(i + 1).drop_last() =~= s@.take(i as int));
        value = value * 10 + digit;
        if value > 0xffff_ffff {
            proof {
                if is_decimal(s@) {
                    lemma_decimal_value_grows(s@, i as int + 1);
                }
            }
            return None;
        }
        i = i + 1;
    }
    assert(s@.take(n as int) =~= s@);
    Some(value as u32)
}

proof fn lemma_decimal_value_grows(s: Seq<char>, i: int)
    requires
        0 <= i <= s.len(),
        forall|j: int| 0 <= j < s.len() ==> '0' <= #[trigger] s[j] && s[j] <= '9',
    ensures
        decimal_value(s) >= decimal_value(s.take(i)),
        decimal_value(s.take(i)) >= 0,
    decreases s.len(),
{
    if i < s.len() {
        assert(s.drop_last().take(i) =~= s.take(i));
        lemma_decimal_value_grows(s.drop_last(), i);
        lemma_decimal_value_grows(s.drop_last(), s.len() - 1);
        assert(s.drop_last().take(s.len() - 1) =~= s.drop_last());
        assert(decimal_value(s) >= decimal_value(s.drop_last()));
    } else {
        assert(s.take(i) =~= s);
        if s.len() > 0 {
            lemma_decimal_value_grows(s.drop_last(), s.len() - 1);
            assert(s.drop_last().take(s.len() - 1) =~= s.drop_last());
        }
    }
}

/// The position of the first `c` in `s`, if any.
pub open spec fn first_index_of(s: Seq<char>, c: char) -> Option<int> {
    if exists|i: int| 0 <= i < s.len() && s[i] == c {
        Some(choose|i: int| 0 <= i < s.len() && s[i] == c && forall|j: int| 0 <= j < i ==> s[j] != c)
    } else {
        None
    }
}

/// A blur written `<radius>x<passes>`, both decimal numbers.
pub open spec fn blur_spec(s: Seq<char>) -> Option<(u32, u32)> {
    match first_index_of(s, 'x') {
        Some(i) => match (u32_spec(s.subrange(0, i)), u32_spec(s.subrange(i + 1, s.len() as int))) {
            (Some(r), Some(p)) => Some((r, p)),
            _ => None,
        },
        None => None,
    }
}

/// Parse a blur setting such as `7x5` into its radius and number of passes.
pub fn parse_blur_effect(s: &str) -> (blur: Result<(u32, u32), String>)
    ensures
        match blur {
            Ok(b) => blur_spec(s@) == Some(b),
            Err(msg) => blur_spec(s@) is None && msg@ == "Invalid blur '"@ + s@
                + "': expected <radius>x<passes>"@,
        },
{
    let n = s.unicode_len();
    let mut i: usize = 0;
    while i < n && s.get_char(i) != 'x'
        invariant
            n == s@.len(),
            0 <= i <= n,
            forall|j: int| 0 <= j < i ==> s@[j] != 'x',
        decreases n - i,
    {
        i = i + 1;
    }
    let parsed = if i < n {
        assert(first_index_of(s@, 'x') == Some(i as int)) by {
            let w = choose|k: int|
                0 <= k < s@.len() && s@[k] == 'x' && forall|j: int| 0 <= j < k ==> s@[j] != 'x';
            assert(0 <= i < s@.len() && s@[i as int] == 'x' && forall|j: int|
                0 <= j < i ==> s@[j] != 'x');
            if w < i {
            } else if w > i {
            }
        }
        match (parse_u32(s.substring_char(0, i)), parse_u32(s.substring_char(i + 1, n))) {
            (Some(r), Some(p)) => Some((r, p)),
            _ => None,
        }
    } else {
        None
    };
    match parsed {
        Some(b) => Ok(b),
        None => {
            let mut msg = "Invalid blur '".to_owned();
            msg.append(s);
            msg.append("': expected <radius>x<passes>");
            Err(msg)
        },
    }
}

/// The shortest authentication timeout, in milliseconds.
pub const MIN_AUTH_TIMEOUT_MS: u64 = 100;

/// An authentication timeout raised to at least the minimum.
pub fn clamp_auth_timeout(ms: u64) -> (clamped: u64)
    ensures
        clamped == if ms < MIN_AUTH_TIMEOUT_MS {
            MIN_AUTH_TIMEOUT_MS
        } else {
            ms
        },
{
    if ms < MIN_AUTH_TIMEOUT_MS {
        MIN_AUTH_TIMEOUT_MS
    } else {
        ms
    }
}

/// A dot count raised to at least one.
pub fn clamp_max_dots(dots: u32) -> (clamped: u32)
    ensures
        clamped == if dots < 1 {
            1
        } else {
            dots
        },
{
    if dots < 1 {
        1
    } else {
        dots
    }
}

} // verus!
