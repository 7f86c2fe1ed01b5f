use minicon::palette::{palette, resolve, resolve_color, standard_ansi, Rgb, TermColor};

fn ansi() -> [Rgb; 16] {
    standard_ansi()
}

#[test]
fn xrgb_pixel_packs_channels_correctly() {
    assert_eq!(Rgb(0xFF, 0x00, 0x00).to_xrgb(), 0x00FF_0000);
    assert_eq!(Rgb(0x12, 0x34, 0x56).to_xrgb(), 0x0012_3456);
}

#[test]
fn black_and_white_corners_are_stable() {
    assert_eq!(resolve(vt100::Color::Idx(16), Rgb(0, 0, 0), &ansi(), false), Rgb(0, 0, 0));
    assert_eq!(
        resolve(vt100::Color::Idx(231), Rgb(0, 0, 0), &ansi(), false),
        Rgb(255, 255, 255)
    );
}

#[test]
fn bold_promotes_standard_red_to_bright() {
    let normal = resolve(vt100::Color::Idx(1), Rgb(0, 0, 0), &ansi(), false);
    let bright = resolve(vt100::Color::Idx(1), Rgb(0, 0, 0), &ansi(), true);
    assert_eq!(normal, Rgb(0xCD, 0x00, 0x00));
    assert_eq!(bright, Rgb(0xFF, 0x00, 0x00));
}

#[test]
fn rgb_passes_through_unchanged() {
    assert_eq!(resolve(vt100::Color::Rgb(1, 2, 3), Rgb(9, 9, 9), &ansi(), false), Rgb(1, 2, 3));
    assert_eq!(resolve(vt100::Color::Rgb(1, 2, 3), Rgb(9, 9, 9), &ansi(), true), Rgb(1, 2, 3));
}

#[test]
fn default_returns_the_callers_colour() {
    let fallback = Rgb(0x12, 0x34, 0x56);
    assert_eq!(resolve(vt100::Color::Default, fallback, &ansi(), false), fallback);
    assert_eq!(resolve(vt100::Color::Default, fallback, &ansi(), true), fallback);
}

#[test]
fn bold_promotes_only_the_standard_range() {
    let black = Rgb(0, 0, 0);
    assert_eq!(resolve(vt100::Color::Idx(7), black, &ansi(), false), Rgb(0xE5, 0xE5, 0xE5));
    assert_eq!(resolve(vt100::Color::Idx(7), black, &ansi(), true), Rgb(0xFF, 0xFF, 0xFF));
    assert_eq!(
        resolve(vt100::Color::Idx(8), black, &ansi(), true),
        Rgb(0x7F, 0x7F, 0x7F),
        "index 8 is outside the promoted range"
    );
    assert_eq!(resolve(vt100::Color::Idx(0), black, &ansi(), false), Rgb(0, 0, 0));
    assert_eq!(resolve(vt100::Color::Idx(0), black, &ansi(), true), Rgb(0x7F, 0x7F, 0x7F));
    for index in [15u8, 16, 231, 255] {
        assert_eq!(
            resolve(vt100::Color::Idx(index), black, &ansi(), true),
            resolve(vt100::Color::Idx(index), black, &ansi(), false),
            "bold must not affect index {index}"
        );
    }
}

#[test]
fn palette_regions_have_the_xterm_boundaries() {
    let black = Rgb(0, 0, 0);
    let at = |index: u8| resolve(vt100::Color::Idx(index), black, &ansi(), false);
    assert_eq!(at(1), Rgb(0xCD, 0x00, 0x00));
    assert_eq!(at(9), Rgb(0xFF, 0x00, 0x00));
    assert_eq!(at(16), Rgb(0, 0, 0));
    assert_eq!(at(17), Rgb(0, 0, 95), "the blue component ramps first");
    assert_eq!(at(231), Rgb(255, 255, 255));
    assert_eq!(at(232), Rgb(8, 8, 8));
    assert_eq!(at(233), Rgb(18, 18, 18));
    assert_eq!(at(255), Rgb(238, 238, 238));
}

#[test]
fn the_cube_follows_the_xterm_ramp() {
    assert_eq!(palette(16 + 36 + 6 * 2 + 3), Rgb(95, 135, 175));
    assert_eq!(palette(16 + 36 * 4 + 6 * 5), Rgb(215, 255, 0));
}

#[test]
fn a_themed_ansi_set_overrides_the_first_sixteen_only() {
    let themed = [Rgb(1, 1, 1); 16];
    assert_eq!(resolve_color(TermColor::Idx(3), Rgb(0, 0, 0), &themed, false), Rgb(1, 1, 1));
    assert_eq!(resolve_color(TermColor::Idx(16), Rgb(0, 0, 0), &themed, false), Rgb(0, 0, 0));
}
