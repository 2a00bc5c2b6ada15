//! Configuration values that the minimap's logic reads.

use vstd::prelude::*;
use vstd::string::StringSliceAdditionalSpecFns;

verus! {

/// Anchor position, of the minimap on screen or of a decoration inside a
/// window rectangle.
#[derive(Clone, Copy, Debug, PartialEq, Eq, Structural)]
pub enum Anchor {
    TopLeft,
    TopCenter,
    TopRight,
    BottomLeft,
    BottomCenter,
    BottomRight,
    Center,
}

impl Default for Anchor {
    fn default() -> (a: Self)
        ensures
            a == Anchor::TopRight,
    {
        Anchor::TopRight
    }
}

/// Which workspaces the minimap renders.
#[derive(Clone, Copy, Debug, PartialEq, Eq, Structural)]
pub enum WorkspaceMode {
    /// Render only the currently active workspace
    Current,
    /// Render every workspace stacked vertically (Overview-style)
    All,
}

impl Default for WorkspaceMode {
    fn default() -> (m: Self)
        ensures
            m == WorkspaceMode::All,
    {
        WorkspaceMode::All
    }
}

/// What text a window label shows.
#[derive(Clone, Copy, Debug, PartialEq, Eq, Structural)]
pub enum LabelContent {
    /// Window title
    Title,
    /// Application id
    AppId,
    /// Application id and title, e.g. "firefox — GitHub"
    AppIdTitle,
    /// No text (labels effectively disabled); written `none` in the
    /// configuration file
    NoText,
}

impl Default for LabelContent {
    fn default() -> (c: Self)
        ensures
            c == LabelContent::Title,
    {
        LabelContent::Title
    }
}

/// Font weight for labels.
#[derive(Clone, Copy, Debug, PartialEq, Eq, Structural)]
pub enum FontWeight {
    Normal,
    Bold,
}

impl Default for FontWeight {
    fn default() -> (w: Self)
        ensures
            w == FontWeight::Normal,
    {
        FontWeight::Normal
    }
}

/// Font style for labels.
#[derive(Clone, Copy, Debug, PartialEq, Eq, Structural)]
pub enum FontStyle {
    Normal,
    Italic,
}

impl Default for FontStyle {
    fn default() -> (s: Self)
        ensures
            s == FontStyle::Normal,
    {
        FontStyle::Normal
    }
}

/// Behavior configuration.
#[derive(Clone, Copy, Debug, PartialEq, Eq, Structural)]
pub struct BehaviorConfig {
    /// Keep visible in Overview mode
    pub show_on_overview: bool,
    /// Always show the minimap (if false, only on events)
    pub always_visible: bool,
    /// Milliseconds to keep the minimap visible after an event (only when
    /// `always_visible` is false)
    pub hide_timeout_ms: u32,
    /// Whether floating-window events (focus, spawn) show the minimap (only
    /// when `always_visible` is false)
    pub show_for_floating_windows: bool,
}

impl Default for BehaviorConfig {
    fn default() -> (b: Self)
        ensures
            b.show_on_overview,
            b.always_visible,
            b.hide_timeout_ms == 2000,
            !b.show_for_floating_windows,
    {
        BehaviorConfig {
            show_on_overview: true,
            always_visible: true,
            hide_timeout_ms: 2000,
            show_for_floating_windows: false,
        }
    }
}

/// Horizontal placement derived from an anchor.
#[derive(Clone, Copy, Debug, PartialEq, Eq, Structural)]
pub enum HAlign {
    Left,
    Center,
    Right,
}

/// Vertical placement derived from an anchor.
#[derive(Clone, Copy, Debug, PartialEq, Eq, Structural)]
pub enum VAlign {
    Top,
    Center,
    Bottom,
}

/// The horizontal part of an anchor.
pub open spec fn anchor_h_spec(anchor: Anchor) -> HAlign {
    match anchor {
        Anchor::TopLeft | Anchor::BottomLeft => HAlign::Left,
        Anchor::TopCenter | Anchor::BottomCenter | Anchor::Center => HAlign::Center,
        Anchor::TopRight | Anchor::BottomRight => HAlign::Right,
    }
}

/// The vertical part of an anchor.
pub open spec fn anchor_v_spec(anchor: Anchor) -> VAlign {
    match anchor {
        Anchor::TopLeft | Anchor::TopCenter | Anchor::TopRight => VAlign::Top,
        Anchor::Center => VAlign::Center,
        Anchor::BottomLeft | Anchor::BottomCenter | Anchor::BottomRight => VAlign::Bottom,
    }
}

/// The horizontal placement of an anchor.
pub fn anchor_h(anchor: Anchor) -> (h: HAlign)
    ensures
        h == anchor_h_spec(anchor),
{
    match anchor {
        Anchor::TopLeft | Anchor::BottomLeft => HAlign::Left,
        Anchor::TopCenter | Anchor::BottomCenter | Anchor::Center => HAlign::Center,
        Anchor::TopRight | Anchor::BottomRight => HAlign::Right,
    }
}

/// The vertical placement of an anchor.
pub fn anchor_v(anchor: Anchor) -> (v: VAlign)
    ensures
        v == anchor_v_spec(anchor),
{
    match anchor {
        Anchor::TopLeft | Anchor::TopCenter | Anchor::TopRight => VAlign::Top,
        Anchor::Center => VAlign::Center,
        Anchor::BottomLeft | Anchor::BottomCenter | Anchor::BottomRight => VAlign::Bottom,
    }
}


/// RGBA color with 8-bit channels: a channel value `v` stands for the
/// intensity `v / 255`.
#[derive(Clone, Copy, Debug, PartialEq, Eq, Structural)]
pub struct Color {
    pub r: u8,
    pub g: u8,
    pub b: u8,
    pub a: u8,
}

/// The bytes without their leading `#` bytes.
pub open spec fn strip_hashes(b: Seq<u8>) -> Seq<u8>
    decreases b.len(),
{
    if b.len() > 0 && b[0] == 0x23 {
        strip_hashes(b.drop_first())
    } else {
        b
    }
}

/// The value of an ASCII hexadecimal digit (either case).
pub open spec fn hex_digit(b: u8) -> Option<u8> {
    if 0x30 <= b <= 0x39 {
        Some((b - 0x30) as u8)
    } else if 0x61 <= b <= 0x66 {
        Some((b - 0x61 + 10) as u8)
    } else if 0x41 <= b <= 0x46 {
        Some((b - 0x41 + 10) as u8)
    } else {
        None
    }
}

/// The value of a two-byte hexadecimal number as `u8::from_str_radix`
/// reads it: two hex digits, or a `+` sign and one digit.
pub open spec fn hex_pair(a: u8, b: u8) -> Option<u8> {
    if a == 0x2b {
        hex_digit(b)
    } else {
        match (hex_digit(a), hex_digit(b)) {
            (Some(x), Some(y)) => Some((16 * x + y) as u8),
            _ => None,
        }
    }
}

/// Whether a byte of UTF-8 text begins a character (is no continuation
/// byte).
pub open spec fn starts_char(b: u8) -> bool {
    b < 0x80 || b >= 0xc0
}

/// The color written as six hex digits (after the leading `#`s).
pub open spec fn hex_color(h: Seq<u8>) -> Option<Color> {
    if h.len() != 6 {
        None
    } else {
        match (hex_pair(h[0], h[1]), hex_pair(h[2], h[3]), hex_pair(h[4], h[5])) {
            (Some(r), Some(g), Some(b)) => Some(Color { r, g, b, a: 255 }),
            _ => None,
        }
    }
}

/// Whether the two-byte pieces of a six-byte color that are read lie on
/// character boundaries (the first piece always, the second once the first
/// parsed).
pub open spec fn hex_pieces_on_boundaries(h: Seq<u8>) -> bool {
    h.len() == 6 ==> (starts_char(h[2]) && (hex_pair(h[0], h[1]) is Some ==> starts_char(h[4])))
}

/// The value of one hex digit byte.
fn hex_digit_value(b: u8) -> (r: Option<u8>)
    ensures
        r == hex_digit(b),
{
    if 0x30 <= b && b <= 0x39 {
        Some(b - 0x30)
    } else if 0x61 <= b && b <= 0x66 {
        Some(b - 0x61 + 10)
    } else if 0x41 <= b && b <= 0x46 {
        Some(b - 0x41 + 10)
    } else {
        None
    }
}

/// The value of a two-byte hex number.
fn hex_pair_value(a: u8, b: u8) -> (r: Option<u8>)
    ensures
        r == hex_pair(a, b),
{
    if a == 0x2b {
        hex_digit_value(b)
    } else {
        match (hex_digit_value(a), hex_digit_value(b)) {
            (Some(x), Some(y)) => Some(16 * x + y),
            _ => None,
        }
    }
}

impl Color {
    /// The position of the first byte that is not `#`.
    fn hash_prefix_len(bytes: &[u8]) -> (n: usize)
        ensures
            n <= bytes@.len(),
            strip_hashes(bytes@) == bytes@.skip(n as int),
    {
        let mut i: usize = 0;
        proof {
            assert(bytes@.skip(0) =~= bytes@);
        }
        while i < bytes.len() && bytes[i] == 0x23
            invariant
                i <= bytes@.len(),
                strip_hashes(bytes@) == strip_hashes(bytes@.skip(i as int)),
            decreases bytes@.len() - i,
        {
            proof {
                assert(bytes@.skip(i as int).drop_first() =~= bytes@.skip(i + 1));
            }
            i += 1;
        }
        proof {
            if i < bytes@.len() {
                assert(bytes@.skip(i as int)[0] == bytes@[i as int]);
            }
        }
        i
    }

    /// Whether the pieces that `from_hex` reads lie on character boundaries
    /// of the string.
    pub fn hex_is_sliceable(hex: &str) -> (b: bool)
        ensures
            b == hex_pieces_on_boundaries(strip_hashes(hex.spec_bytes())),
    {
        let bytes = hex.as_bytes();
        let n = Self::hash_prefix_len(bytes);
        if bytes.len() - n != 6 {
            return true;
        }
        let first_ok = hex_pair_value(bytes[n], bytes[n + 1]).is_some();
        (bytes[n + 2] < 0x80 || bytes[n + 2] >= 0xc0)
            && (!first_ok || bytes[n + 4] < 0x80 || bytes[n + 4] >= 0xc0)
    }

    /// Parse a hex color string (e.g. "#1e1e2e" or "1e1e2e"): leading `#`s
    /// are dropped, then exactly six bytes must remain, read as three
    /// two-digit hex numbers; alpha is always full.
    pub fn from_hex(hex: &str) -> (c: Option<Color>)
        requires
            hex_pieces_on_boundaries(strip_hashes(hex.spec_bytes())),
        ensures
            c == hex_color(strip_hashes(hex.spec_bytes())),
    {
        let bytes = hex.as_bytes();
        let n = Self::hash_prefix_len(bytes);
        if bytes.len() - n != 6 {
            return None;
        }
        let ghost h = bytes@.skip(n as int);
        proof {
            assert(h[0] == bytes@[n as int]);
            assert(h[1] == bytes@[n + 1]);
            assert(h[2] == bytes@[n + 2]);
            assert(h[3] == bytes@[n + 3]);
            assert(h[4] == bytes@[n + 4]);
            assert(h[5] == bytes@[n + 5]);
        }
        let r = hex_pair_value(bytes[n], bytes[n + 1]);
        let g = hex_pair_value(bytes[n + 2], bytes[n + 3]);
        let b = hex_pair_value(bytes[n + 4], bytes[n + 5]);
        match (r, g, b) {
            (Some(r), Some(g), Some(b)) => Some(Color { r, g, b, a: 255 }),
            _ => None,
        }
    }
}

/// Every color read from hex is fully opaque.
pub proof fn law_parsed_colors_are_opaque(h: Seq<u8>)
    ensures
        hex_color(h) matches Some(c) ==> c.a == 255,
{
}

/// Six hex digits read as a color: the first two give red, the next two
/// green, the last two blue, each as a two-digit hexadecimal number.
pub proof fn law_hex_color_digits(h: Seq<u8>)
    requires
        h.len() == 6,
        forall|i: int| 0 <= i < 6 ==> (#[trigger] hex_digit(h[i])) is Some,
    ensures
        hex_color(h) == Some(Color {
            r: (16 * hex_digit(h[0]).unwrap() + hex_digit(h[1]).unwrap()) as u8,
            g: (16 * hex_digit(h[2]).unwrap() + hex_digit(h[3]).unwrap()) as u8,
            b: (16 * hex_digit(h[4]).unwrap() + hex_digit(h[5]).unwrap()) as u8,
            a: 255,
        }),
{
    assert(hex_digit(h[0]) is Some);
    assert(hex_digit(h[1]) is Some);
    assert(hex_digit(h[2]) is Some);
    assert(hex_digit(h[3]) is Some);
    assert(hex_digit(h[4]) is Some);
    assert(hex_digit(h[5]) is Some);
}

/// Leading `#`s make no difference: a color with one more in front reads
/// the same, and what is read never starts with one.
pub proof fn law_leading_hashes_ignored(h: Seq<u8>)
    ensures
        strip_hashes(seq![0x23u8] + h) == strip_hashes(h),
        strip_hashes(h).len() > 0 ==> strip_hashes(h)[0] != 0x23,
    decreases h.len(),
{
    assert((seq![0x23u8] + h).drop_first() =~= h);
    if h.len() > 0 && h[0] == 0x23 {
        law_leading_hashes_ignored(h.drop_first());
    }
}

} // verus!
