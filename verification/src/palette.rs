//! The xterm 256-color palette and the resolution of a terminal cell's color.

use vstd::prelude::*;

verus! {

/// An RGB triple in the frame's XRGB `0x00RRGGBB` pixel layout.
#[derive(Clone, Copy, Debug, PartialEq, Eq, Structural)]
pub struct Rgb(pub u8, pub u8, pub u8);

impl Rgb {
    /// The pixel `0x00RRGGBB`; the top byte is zero.
    pub fn to_xrgb(self) -> (pixel: u32)
        ensures
            pixel == self.0 as u32 * 65536 + self.1 as u32 * 256 + self.2 as u32,
    {
        let r = self.0 as u32;
        let g = self.1 as u32;
        let b = self.2 as u32;
        assert((r << 16u32) | (g << 8u32) | b == r * 65536 + g * 256 + b) by (bit_vector)
            requires
                r < 256,
                g < 256,
                b < 256,
        ;
        (r << 16u32) | (g << 8u32) | b
    }
}

/// The standard xterm 16-color ANSI set (8 normal, then 8 bright).
pub open spec fn standard_ansi_entry(index: int) -> Rgb {
    if index == 0 {
        Rgb(0x00, 0x00, 0x00)
    } else if index == 1 {
        Rgb(0xCD, 0x00, 0x00)
    } else if index == 2 {
        Rgb(0x00, 0xCD, 0x00)
    } else if index == 3 {
        Rgb(0xCD, 0xCD, 0x00)
    } else if index == 4 {
        Rgb(0x00, 0x00, 0xEE)
    } else if index == 5 {
        Rgb(0xCD, 0x00, 0xCD)
    } else if index == 6 {
        Rgb(0x00, 0xCD, 0xCD)
    } else if index == 7 {
        Rgb(0xE5, 0xE5, 0xE5)
    } else if index == 8 {
        Rgb(0x7F, 0x7F, 0x7F)
    } else if index == 9 {
        Rgb(0xFF, 0x00, 0x00)
    } else if index == 10 {
        Rgb(0x00, 0xFF, 0x00)
    } else if index == 11 {
        Rgb(0xFF, 0xFF, 0x00)
    } else if index == 12 {
        Rgb(0x5C, 0x5C, 0xFF)
    } else if index == 13 {
        Rgb(0xFF, 0x00, 0xFF)
    } else if index == 14 {
        Rgb(0x00, 0xFF, 0xFF)
    } else {
        Rgb(0xFF, 0xFF, 0xFF)
    }
}

/// The standard xterm 16-color ANSI set; themes may override it.
pub fn standard_ansi() -> (table: [Rgb; 16])
    ensures
        forall|i: int| 0 <= i < 16 ==> table@[i] == standard_ansi_entry(i),
{
    let table = [
        Rgb(0x00, 0x00, 0x00),
        Rgb(0xCD, 0x00, 0x00),
        Rgb(0x00, 0xCD, 0x00),
        Rgb(0xCD, 0xCD, 0x00),
        Rgb(0x00, 0x00, 0xEE),
        Rgb(0xCD, 0x00, 0xCD),
        Rgb(0x00, 0xCD, 0xCD),
        Rgb(0xE5, 0xE5, 0xE5),
        Rgb(0x7F, 0x7F, 0x7F),
        Rgb(0xFF, 0x00, 0x00),
        Rgb(0x00, 0xFF, 0x00),
        Rgb(0xFF, 0xFF, 0x00),
        Rgb(0x5C, 0x5C, 0xFF),
        Rgb(0xFF, 0x00, 0xFF),
        Rgb(0x00, 0xFF, 0xFF),
        Rgb(0xFF, 0xFF, 0xFF),
    ];
    assert forall|i: int| 0 <= i < 16 implies table@[i] == standard_ansi_entry(i) by {
        assert(table@ =~= seq![
            Rgb(0x00, 0x00, 0x00),
            Rgb(0xCD, 0x00, 0x00),
            Rgb(0x00, 0xCD, 0x00),
            Rgb(0xCD, 0xCD, 0x00),
            Rgb(0x00, 0x00, 0xEE),
            Rgb(0xCD, 0x00, 0xCD),
            Rgb(0x00, 0xCD, 0xCD),
            Rgb(0xE5, 0xE5, 0xE5),
            Rgb(0x7F, 0x7F, 0x7F),
            Rgb(0xFF, 0x00, 0x00),
            Rgb(0x00, 0xFF, 0x00),
            Rgb(0xFF, 0xFF, 0x00),
            Rgb(0x5C, 0x5C, 0xFF),
            Rgb(0xFF, 0x00, 0xFF),
            Rgb(0x00, 0xFF, 0xFF),
            Rgb(0xFF, 0xFF, 0xFF),
        ]);
    }
    table
}

/// One level of the 6x6x6 color cube, on the xterm ramp 0/95/135/175/215/255.
pub open spec fn cube_level(step: int) -> u8 {
    if step == 0 {
        0
    } else {
        (55 + 40 * step) as u8
    }
}

/// Entry `index` of the standard 256-color xterm palette: the ANSI set, the
/// 6x6x6 cube (blue varying fastest), then a 24-step grayscale ramp from 8.
pub open spec fn palette_entry(index: int) -> Rgb {
    if index < 16 {
        standard_ansi_entry(index)
    } else if index < 232 {
        let i = index - 16;
        Rgb(cube_level(i / 36), cube_level((i / 6) % 6), cube_level(i % 6))
    } else {
        let v = (8 + (index - 232) * 10) as u8;
        Rgb(v, v, v)
    }
}

fn cube_value(step: u8) -> (level: u8)
    requires
        step < 6,
    ensures
        level == cube_level(step as int),
{
    if step == 0 {
        0
    } else {
        55 + 40 * step
    }
}

/// Entry `index` of the standard palette.
pub fn palette(index: u8) -> (rgb: Rgb)
    ensures
        rgb == palette_entry(index as int),
{
    if index < 16 {
        let table = standard_ansi();
        table[index as usize]
    } else if index < 232 {
        let i = index - 16;
        Rgb(cube_value(i / 36), cube_value((i / 6) % 6), cube_value(i % 6))
    } else {
        let v = 8 + (index - 232) * 10;
        Rgb(v, v, v)
    }
}

/// A terminal cell's color as the screen model reports it.
#[derive(Clone, Copy, Debug, PartialEq, Eq, Structural)]
pub enum TermColor {
    /// The terminal's own foreground or background.
    Default,
    /// An index into the 256-color palette.
    Idx(u8),
    /// An explicit RGB color.
    Rgb(u8, u8, u8),
}

#[verifier::external_type_specification]
#[verifier::external_body]
pub struct ExColor(vt100::Color);

/// The library's color for a `vt100::Color`: `Default`, `Idx` and `Rgb`
/// carry over variant by variant with their fields. The outside type is
/// opaque here, so the correspondence is named rather than spelled out.
pub uninterp spec fn vt100_term_color(color: vt100::Color) -> TermColor;

/// `vt100::Color` variant by variant: `Default`, `Idx` and `Rgb` carry over
/// with their fields; the result is `vt100_term_color` of the argument.
#[verifier::external_body]
fn term_color(color: vt100::Color) -> (converted: TermColor)
    ensures
        converted == vt100_term_color(color),
{
    match color {
        vt100::Color::Default => TermColor::Default,
        vt100::Color::Idx(index) => TermColor::Idx(index),
        vt100::Color::Rgb(r, g, b) => TermColor::Rgb(r, g, b),
    }
}

/// The color `color` paints: the caller's `default`, an explicit RGB as is,
/// the first 16 indices from the (themable) `ansi` set with bold turning 0..7
/// into its bright 8..15, and the rest from the standard palette.
pub open spec fn resolved_color(color: TermColor, default: Rgb, ansi: Seq<Rgb>, bold: bool) -> Rgb {
    match color {
        TermColor::Default => default,
        TermColor::Rgb(r, g, b) => Rgb(r, g, b),
        TermColor::Idx(index) => if index < 16 {
            if bold && index < 8 {
                ansi[index + 8]
            } else {
                ansi[index as int]
            }
        } else {
            palette_entry(index as int)
        },
    }
}

/// Resolves a cell color against the palette and the application defaults.
pub fn resolve_color(color: TermColor, default: Rgb, ansi: &[Rgb; 16], bold: bool) -> (rgb: Rgb)
    ensures
        rgb == resolved_color(color, default, ansi@, bold),
{
    match color {
        TermColor::Default => default,
        TermColor::Rgb(r, g, b) => Rgb(r, g, b),
        TermColor::Idx(index) => {
            let idx = index as usize;
            if idx < 16 {
                if bold && idx < 8 {
                    ansi[idx + 8]
                } else {
                    ansi[idx]
                }
            } else {
                palette(index)
            }
        },
    }
}

/// Resolves a `vt100` cell color: `resolve_color` of the same variant.
pub fn resolve(color: vt100::Color, default: Rgb, ansi: &[Rgb; 16], bold: bool) -> (rgb: Rgb)
    ensures
        rgb == resolved_color(vt100_term_color(color), default, ansi@, bold),
{
    resolve_color(term_color(color), default, ansi, bold)
}

/// Bold changes only the standard eight: every other color resolves the same
/// either way.
pub proof fn law_bold_promotes_only_the_standard_range(color: TermColor, default: Rgb, ansi: Seq<Rgb>)
    requires
        ansi.len() == 16,
        !(color matches TermColor::Idx(i) && i < 8),
    ensures
        resolved_color(color, default, ansi, true) == resolved_color(color, default, ansi, false),
{
}

/// The largest of a color's three channels.
pub open spec fn brightest(c: Rgb) -> u8 {
    if c.0 >= c.1 && c.0 >= c.2 {
        c.0
    } else if c.1 >= c.2 {
        c.1
    } else {
        c.2
    }
}

/// The channels an ANSI color number names: bit 0 red, bit 1 green, bit 2
/// blue, the same for a color and its bright variant.
pub open spec fn names_red(index: int) -> bool {
    index % 2 == 1
}

pub open spec fn names_green(index: int) -> bool {
    (index / 2) % 2 == 1
}

pub open spec fn names_blue(index: int) -> bool {
    (index / 4) % 2 == 1
}

/// Each of the sixteen standard colors has the hue its number names: a
/// channel is the color's brightest exactly when the number names it (so
/// 4, blue, is blue and 1, red, is red). Black, white and their bright
/// variants are grays, ordered black, bright black, white, bright white; and
/// each bright variant is brighter than its normal color.
pub proof fn law_ansi_colors_have_the_hues_they_name(index: int)
    requires
        0 <= index < 16,
    ensures
        index % 8 != 0 && index % 8 != 7 ==> {
            let c = standard_ansi_entry(index);
            &&& (c.0 == brightest(c)) == names_red(index)
            &&& (c.1 == brightest(c)) == names_green(index)
            &&& (c.2 == brightest(c)) == names_blue(index)
        },
        index % 8 == 0 || index % 8 == 7 ==> {
            let c = standard_ansi_entry(index);
            c.0 == c.1 && c.1 == c.2
        },
        index < 8 ==> brightest(standard_ansi_entry(index)) < brightest(standard_ansi_entry(index + 8)),
        standard_ansi_entry(0).0 < standard_ansi_entry(8).0,
        standard_ansi_entry(8).0 < standard_ansi_entry(7).0,
        standard_ansi_entry(7).0 < standard_ansi_entry(15).0,
{
    assert(index == 0 || index == 1 || index == 2 || index == 3 || index == 4 || index == 5 || index
        == 6 || index == 7 || index == 8 || index == 9 || index == 10 || index == 11 || index == 12
        || index == 13 || index == 14 || index == 15);
}

/// The 6x6x6 cube orders its colors by channel, blue varying fastest: one
/// step up in the blue digit of a color number raises only blue, six steps
/// (the green digit) only green, thirty-six (the red digit) only red. The
/// grayscale ramp after it is gray and grows brighter at every step.
pub proof fn law_cube_and_ramp_are_ordered(index: int)
    requires
        16 <= index < 256,
    ensures
        index < 232 && (index - 16) % 6 < 5 ==> {
            let (a, b) = (palette_entry(index), palette_entry(index + 1));
            a.0 == b.0 && a.1 == b.1 && a.2 < b.2
        },
        index < 232 && ((index - 16) / 6) % 6 < 5 ==> {
            let (a, b) = (palette_entry(index), palette_entry(index + 6));
            a.0 == b.0 && a.1 < b.1 && a.2 == b.2
        },
        index < 232 && (index - 16) / 36 < 5 ==> {
            let (a, b) = (palette_entry(index), palette_entry(index + 36));
            a.0 < b.0 && a.1 == b.1 && a.2 == b.2
        },
        index >= 232 ==> {
            let c = palette_entry(index);
            c.0 == c.1 && c.1 == c.2
        },
        232 <= index < 255 ==> palette_entry(index).0 < palette_entry(index + 1).0,
{
    let i = index - 16;
    if index < 232 {
        assert(0 <= i < 216);
        assert(0 <= i / 36 < 6 && 0 <= (i / 6) % 6 < 6 && 0 <= i % 6 < 6) by (nonlinear_arith)
            requires
                0 <= i < 216,
        ;
        if i % 6 < 5 {
            assert((i + 1) / 36 == i / 36 && ((i + 1) / 6) % 6 == (i / 6) % 6 && (i + 1) % 6 == i % 6 + 1)
                by (nonlinear_arith)
                requires
                    0 <= i,
                    i % 6 < 5,
            ;
        }
        if (i / 6) % 6 < 5 {
            assert((i + 6) / 36 == i / 36 && ((i + 6) / 6) % 6 == (i / 6) % 6 + 1 && (i + 6) % 6 == i % 6)
                by (nonlinear_arith)
                requires
                    0 <= i,
                    (i / 6) % 6 < 5,
            ;
        }
        if i / 36 < 5 {
            assert((i + 36) / 36 == i / 36 + 1 && ((i + 36) / 6) % 6 == (i / 6) % 6 && (i + 36) % 6 == i
                % 6) by (nonlinear_arith)
                requires
                    0 <= i,
            ;
        }
    }
}

/// The standard sixteen colors as a table.
pub open spec fn standard_ansi_table() -> Seq<Rgb> {
    Seq::new(16, |i: int| standard_ansi_entry(i))
}

/// With the standard table, bold turns each of the eight normal colors into
/// its bright variant: the same hue, brighter.
pub proof fn law_bold_brightens_the_normal_colors(index: u8, default: Rgb)
    requires
        index < 8,
    ensures
        resolved_color(TermColor::Idx(index), default, standard_ansi_table(), true) == standard_ansi_entry(
            index + 8,
        ),
        brightest(resolved_color(TermColor::Idx(index), default, standard_ansi_table(), false))
            < brightest(resolved_color(TermColor::Idx(index), default, standard_ansi_table(), true)),
{
    law_ansi_colors_have_the_hues_they_name(index as int);
}

} // verus!
