use barcoders::sym::code128::Code128;
use barcoders::sym::ean13::EAN13;
use libra_manager::badge::{create_badge, create_isbn};
use libra_manager::canvas::{Canvas, Rgba};
use libra_manager::error::Error;

const BLACK: Rgba = Rgba { r: 0, g: 0, b: 0, a: 255 };
const WHITE: Rgba = Rgba { r: 255, g: 255, b: 255, a: 255 };
const RED: Rgba = Rgba { r: 200, g: 10, b: 10, a: 255 };
const GREEN: Rgba = Rgba { r: 10, g: 200, b: 10, a: 255 };
const BLUE: Rgba = Rgba { r: 10, g: 10, b: 200, a: 255 };
const YELLOW: Rgba = Rgba { r: 220, g: 220, b: 10, a: 255 };
const MAGENTA: Rgba = Rgba { r: 220, g: 10, b: 220, a: 255 };

fn layers() -> (Canvas, Canvas, Canvas, Canvas, Canvas) {
    (
        Canvas::new(100, 20, RED),     // title
        Canvas::new(80, 10, GREEN),    // name caption
        Canvas::new(120, 10, BLUE),    // client name
        Canvas::new(60, 10, YELLOW),   // issue caption
        Canvas::new(90, 12, MAGENTA),  // date line
    )
}

fn badge(id: &str) -> Canvas {
    let (title, name_label, name, issued_label, date_text) = layers();
    create_badge(
        &id.to_string(),
        &title,
        &name_label,
        &name,
        &issued_label,
        &date_text,
    )
    .unwrap()
}

#[test]
fn badge_has_border_interior_and_layers_in_place() {
    let img = badge("C-42");
    assert_eq!(img.width(), 600);
    assert_eq!(img.height(), 300);
    // Two-pixel black border around a white interior.
    assert_eq!(img.pixel_at(0, 0), BLACK);
    assert_eq!(img.pixel_at(1, 299), BLACK);
    assert_eq!(img.pixel_at(599, 150), BLACK);
    assert_eq!(img.pixel_at(2, 2), WHITE);
    assert_eq!(img.pixel_at(597, 297), WHITE);
    // Title centered at the top: a 100-wide layer starts at column 250.
    assert_eq!(img.pixel_at(250, 12), RED);
    assert_eq!(img.pixel_at(349, 31), RED);
    assert_eq!(img.pixel_at(249, 12), WHITE);
    // Name caption and name on the left.
    assert_eq!(img.pixel_at(40, 80), GREEN);
    assert_eq!(img.pixel_at(119, 89), GREEN);
    assert_eq!(img.pixel_at(40, 100), BLUE);
    // Issue caption and date line right-aligned, inset by the padding.
    assert_eq!(img.pixel_at(500, 80), YELLOW);
    assert_eq!(img.pixel_at(559, 89), YELLOW);
    assert_eq!(img.pixel_at(470, 100), MAGENTA);
    assert_eq!(img.pixel_at(559, 111), MAGENTA);
}

#[test]
fn badge_barcode_matches_the_encoder_module_for_module() {
    let img = badge("C-42");
    let modules = Code128::new("\u{0181}C-42").unwrap().encode();
    let bw = 2 * modules.len();
    let bx = (600 - bw) / 2;
    for (i, m) in modules.iter().enumerate() {
        let expected = if *m != 0 { BLACK } else { WHITE };
        for half in 0..2 {
            // Bars run from row 205 through row 279.
            assert_eq!(img.pixel_at(bx + 2 * i + half, 205), expected);
            assert_eq!(img.pixel_at(bx + 2 * i + half, 279), expected);
        }
    }
    // Just outside the bars the interior is white again.
    assert_eq!(img.pixel_at(bx - 1, 205), WHITE);
    assert_eq!(img.pixel_at(bx + bw, 205), WHITE);
    assert_eq!(img.pixel_at(bx, 204), WHITE);
    assert_eq!(img.pixel_at(bx, 280), WHITE);
}

#[test]
fn identical_badge_inputs_give_identical_rasters() {
    let a = badge("C-42");
    let b = badge("C-42");
    for y in 0..300 {
        for x in 0..600 {
            assert_eq!(a.pixel_at(x, y), b.pixel_at(x, y));
        }
    }
}

#[test]
fn badge_rejects_what_the_encoder_rejects() {
    let (title, name_label, name, issued_label, date_text) = layers();
    // A control character fits no Code 128 character set reachable here.
    let r = create_badge(
        &"\u{0007}".to_string(),
        &title,
        &name_label,
        &name,
        &issued_label,
        &date_text,
    );
    assert!(matches!(r, Err(Error::Render)));
}

#[test]
fn badge_rejects_an_oversized_title() {
    let (_, name_label, name, issued_label, date_text) = layers();
    let wide = Canvas::new(601, 20, RED);
    let r = create_badge(
        &"C-42".to_string(),
        &wide,
        &name_label,
        &name,
        &issued_label,
        &date_text,
    );
    assert!(matches!(r, Err(Error::Render)));
}

#[test]
fn isbn_label_draws_the_ean13_bars() {
    let digits = Canvas::new(130, 20, BLUE);
    let img = create_isbn(&"9781234567897".to_string(), &digits).unwrap();
    assert_eq!(img.width(), 220);
    assert_eq!(img.height(), 100);
    let modules = EAN13::new("9781234567897").unwrap().encode();
    assert_eq!(modules.len(), 95);
    let bx = (220 - 2 * modules.len()) / 2;
    // The left guard is bar, space, bar.
    assert_eq!(img.pixel_at(bx, 0), BLACK);
    assert_eq!(img.pixel_at(bx + 1, 0), BLACK);
    assert_eq!(img.pixel_at(bx + 2, 0), WHITE);
    assert_eq!(img.pixel_at(bx + 4, 0), BLACK);
    for (i, m) in modules.iter().enumerate() {
        let expected = if *m != 0 { BLACK } else { WHITE };
        assert_eq!(img.pixel_at(bx + 2 * i, 74), expected);
    }
    // White above nothing, white corners, digit line centered at row 76.
    assert_eq!(img.pixel_at(0, 0), WHITE);
    assert_eq!(img.pixel_at(219, 99), WHITE);
    assert_eq!(img.pixel_at(45, 76), BLUE);
    assert_eq!(img.pixel_at(44, 76), WHITE);
    // The 20-tall digit line ends at row 95; below it the canvas is white.
    assert_eq!(img.pixel_at(45, 95), BLUE);
    assert_eq!(img.pixel_at(45, 96), WHITE);
}

#[test]
fn identical_isbn_inputs_give_identical_rasters() {
    let digits = Canvas::new(130, 20, BLUE);
    let a = create_isbn(&"9781234567897".to_string(), &digits).unwrap();
    let b = create_isbn(&"9781234567897".to_string(), &digits).unwrap();
    for y in 0..100 {
        for x in 0..220 {
            assert_eq!(a.pixel_at(x, y), b.pixel_at(x, y));
        }
    }
}

#[test]
fn isbn_label_rejects_malformed_payloads() {
    let digits = Canvas::new(130, 20, BLUE);
    // Failed check digit.
    assert!(matches!(
        create_isbn(&"9781234567890".to_string(), &digits),
        Err(Error::Render)
    ));
    // Wrong length.
    assert!(matches!(
        create_isbn(&"97812345".to_string(), &digits),
        Err(Error::Render)
    ));
    // A non-digit.
    assert!(matches!(
        create_isbn(&"97812345678X7".to_string(), &digits),
        Err(Error::Render)
    ));
    // Twelve digits get their check digit computed by the encoder.
    assert!(create_isbn(&"978123456789".to_string(), &digits).is_ok());
    // An overwide digit line cannot be centered.
    let wide = Canvas::new(221, 10, BLUE);
    assert!(matches!(
        create_isbn(&"9781234567897".to_string(), &wide),
        Err(Error::Render)
    ));
}
