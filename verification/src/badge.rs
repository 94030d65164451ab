use vstd::prelude::*;
use crate::canvas::{Canvas, Rgba, spec_bar_pixel};
use crate::error::Error;

verus! {

// ---------------------------------------------------------------------------
// Barcode encoders, from the barcoders crate.
// ---------------------------------------------------------------------------

/// The module sequence a Code 128 encoder produces for an accepted payload:
/// a function of the payload characters alone.
pub uninterp spec fn code128_modules(s: Seq<char>) -> Seq<u8>;

/// Whether a Code 128 encoder accepts the payload: it must open with a
/// character-set marker and stay within the chosen character sets.
pub uninterp spec fn code128_accepts(s: Seq<char>) -> bool;

/// The 95-module bar pattern of an EAN-13 barcode: a function of the digit
/// payload alone.
pub uninterp spec fn ean13_modules(s: Seq<char>) -> Seq<u8>;

pub open spec fn is_digit(c: char) -> bool {
    '0' <= c <= '9'
}

pub open spec fn digit_val(c: char) -> int {
    c as int - '0' as int
}

/// The weighted digit sum behind the EAN-13 check digit: the digit at each
/// odd position (0-based) counts three times.
pub open spec fn spec_ean13_weighted_sum(s: Seq<char>) -> int
    decreases s.len(),
{
    if s.len() == 0 {
        0
    } else {
        spec_ean13_weighted_sum(s.drop_last()) + digit_val(s.last()) * (if (s.len() - 1) % 2
            == 1 {
            3int
        } else {
            1int
        })
    }
}

/// The check digit of a 12-digit EAN-13 payload.
pub open spec fn spec_ean13_check_digit(s: Seq<char>) -> int {
    (10 - (spec_ean13_weighted_sum(s) % 10)) % 10
}

/// The payloads an EAN-13 encoder accepts: 12 digits, or 13 whose last is
/// the correct check digit of the first 12.
pub open spec fn ean13_payload_valid(s: Seq<char>) -> bool {
    &&& (s.len() == 12 || s.len() == 13)
    &&& (forall|i: int| 0 <= i < s.len() ==> is_digit(#[trigger] s[i]))
    &&& (s.len() == 13 ==> digit_val(s[12]) == spec_ean13_check_digit(s.take(12)))
}

/// Relies on barcoders' `Code128::new` and `Code128::encode`: `new` accepts
/// a payload exactly when it opens with a character-set marker and its
/// characters fit the chosen sets (every printable ASCII character fits set
/// B), and `encode` turns it into a sequence of 0/1 modules.
#[verifier::external_body]
fn encode_code128(payload: &str) -> (r: Option<Vec<u8>>)
    ensures
        r is Some <==> code128_accepts(payload@),
        payload@.len() >= 2 && payload@[0] == '\u{0181}' && (forall|i: int|
            1 <= i < payload@.len() ==> ' ' <= #[trigger] payload@[i] <= '~') ==> r is Some,
        r matches Some(v) ==> v@ == code128_modules(payload@) && (forall|i: int|
            0 <= i < v@.len() ==> v@[i] == 0 || v@[i] == 1),
{
    match barcoders::sym::code128::Code128::new(payload) {
        Ok(b) => Some(b.encode()),
        Err(_) => None,
    }
}

/// Relies on barcoders' `EAN13::new` and `EAN13::encode`: `new` accepts
/// exactly a 12- or 13-digit payload whose optional final digit is the
/// modulo-10 weighted check digit of the first twelve, and `encode` turns it
/// into the standard 95-module 0/1 bar pattern.
#[verifier::external_body]
fn encode_ean13(payload: &str) -> (r: Option<Vec<u8>>)
    ensures
        r is Some <==> ean13_payload_valid(payload@),
        r matches Some(v) ==> v@ == ean13_modules(payload@) && v@.len() == 95 && (forall|i: int|
            0 <= i < v@.len() ==> v@[i] == 0 || v@[i] == 1),
{
    match barcoders::sym::ean13::EAN13::new(payload) {
        Ok(b) => Some(b.encode()),
        Err(_) => None,
    }
}

// ---------------------------------------------------------------------------
// The fixed badge and isbn-label layouts.
// ---------------------------------------------------------------------------

pub open spec fn spec_black() -> Rgba {
    Rgba { r: 0, g: 0, b: 0, a: 255 }
}

pub open spec fn spec_white() -> Rgba {
    Rgba { r: 255, g: 255, b: 255, a: 255 }
}

/// The Code 128 payload of a badge: the client id behind the set-B marker.
pub open spec fn spec_badge_payload(id: Seq<char>) -> Seq<char> {
    "\u{0181}"@ + id
}

/// Whether `(x, y)` falls under the layer `l` placed at `(lx, ly)`.
pub open spec fn spec_in_layer(l: Canvas, lx: int, ly: int, x: int, y: int) -> bool {
    lx <= x < lx + l.spec_width() && ly <= y < ly + l.spec_height()
}

/// The badge image, pixel by pixel: a 600 by 300 canvas with a two-pixel
/// black border, white interior, the client barcode centered near the
/// bottom, the title centered at the top, the name block on the left and
/// the issue-date block right-aligned. Later layers cover earlier ones.
pub open spec fn spec_badge_pixel(
    modules: Seq<u8>,
    title: Canvas,
    name_label: Canvas,
    name: Canvas,
    issued_label: Canvas,
    date_text: Canvas,
    x: int,
    y: int,
) -> Rgba {
    let bw = 2 * modules.len();
    let bx = (600 - bw) / 2;
    let tx = (600 - title.spec_width()) / 2;
    let ix = 600 - 40 - issued_label.spec_width();
    let ex = 600 - 40 - date_text.spec_width();
    if spec_in_layer(date_text, ex, 100, x, y) {
        date_text.pixel(x - ex, y - 100)
    } else if spec_in_layer(issued_label, ix, 80, x, y) {
        issued_label.pixel(x - ix, y - 80)
    } else if spec_in_layer(name, 40, 100, x, y) {
        name.pixel(x - 40, y - 100)
    } else if spec_in_layer(name_label, 40, 80, x, y) {
        name_label.pixel(x - 40, y - 80)
    } else if spec_in_layer(title, tx, 12, x, y) {
        title.pixel(x - tx, y - 12)
    } else if bx <= x < bx + bw && 205 <= y < 280 {
        spec_bar_pixel(modules, spec_black(), spec_white(), x - bx)
    } else if 2 <= x < 598 && 2 <= y < 298 {
        spec_white()
    } else {
        spec_black()
    }
}

/// The isbn label, pixel by pixel: a 220 by 100 white canvas with the
/// EAN-13 bars at the top and the digit line centered beneath them.
pub open spec fn spec_isbn_pixel(modules: Seq<u8>, digits: Canvas, x: int, y: int) -> Rgba {
    let bw = 2 * modules.len();
    let bx = (220 - bw) / 2;
    let dx = (220 - digits.spec_width()) / 2;
    if spec_in_layer(digits, dx, 76, x, y) {
        digits.pixel(x - dx, y - 76)
    } else if bx <= x < bx + bw && 0 <= y < 75 {
        spec_bar_pixel(modules, spec_black(), spec_white(), x - bx)
    } else {
        spec_white()
    }
}

/// Renders a client badge from the pre-rasterized text layers: the title
/// line, the name caption and name, and the issue-date caption and date.
/// Refused when the barcode encoder rejects the id, the barcode would be
/// wider than the canvas, the title is wider than the canvas, or a
/// right-aligned layer is too wide to right-align.
pub fn create_badge(
    client_id_short: &String,
    title: &Canvas,
    name_label: &Canvas,
    name: &Canvas,
    issued_label: &Canvas,
    date_text: &Canvas,
) -> (r: Result<Canvas, Error>)
    requires
        title.wf(),
        name_label.wf(),
        name.wf(),
        issued_label.wf(),
        date_text.wf(),
    ensures
        r is Ok <==> (code128_accepts(spec_badge_payload(client_id_short@)) && 2 * code128_modules(
            spec_badge_payload(client_id_short@),
        ).len() <= 600 && title.spec_width() <= 600 && issued_label.spec_width() <= 560
            && date_text.spec_width() <= 560),
        r matches Err(e) ==> e is Render,
        r matches Ok(img) ==> img.wf() && img.spec_width() == 600 && img.spec_height() == 300 && (
        forall|x: int, y: int|
            0 <= x < 600 && 0 <= y < 300 ==> #[trigger] img.pixel(x, y) == spec_badge_pixel(
                code128_modules(spec_badge_payload(client_id_short@)),
                *title,
                *name_label,
                *name,
                *issued_label,
                *date_text,
                x,
                y,
            )),
{
    let mut payload = String::from_str("\u{0181}");
    payload.append(client_id_short.as_str());
    proof {
        assert(payload@ =~= spec_badge_payload(client_id_short@));
    }
    let modules = match encode_code128(payload.as_str()) {
        Some(m) => m,
        None => {
            return Err(Error::Render);
        },
    };
    if modules.len() > 300 {
        return Err(Error::Render);
    }
    if title.width() > 600 {
        return Err(Error::Render);
    }
    if issued_label.width() > 560 {
        return Err(Error::Render);
    }
    if date_text.width() > 560 {
        return Err(Error::Render);
    }
    let black = Rgba { r: 0, g: 0, b: 0, a: 255 };
    let white = Rgba { r: 255, g: 255, b: 255, a: 255 };
    let mut img = Canvas::new(600, 300, black);
    img.fill_rect(2, 2, 596, 296, white);
    let bw = 2 * modules.len();
    let bx = (600 - bw) / 2;
    img.draw_modules(&modules, bx, 205, 75, black, white);
    let tx = (600 - title.width()) / 2;
    img.blit(title, tx, 12);
    img.blit(name_label, 40, 80);
    img.blit(name, 40, 100);
    let ix = 600 - 40 - issued_label.width();
    img.blit(issued_label, ix, 80);
    let ex = 600 - 40 - date_text.width();
    img.blit(date_text, ex, 100);
    proof {
        assert forall|x: int, y: int| 0 <= x < 600 && 0 <= y < 300 implies #[trigger] img.pixel(
            x,
            y,
        ) == spec_badge_pixel(
            code128_modules(spec_badge_payload(client_id_short@)),
            *title,
            *name_label,
            *name,
            *issued_label,
            *date_text,
            x,
            y,
        ) by {
        }
    }
    Ok(img)
}

/// Renders an isbn label from the isbn and its pre-rasterized digit line.
/// Refused when the encoder rejects the isbn (wrong length, a non-digit, or
/// a failed check digit) or the digit line is wider than the canvas.
pub fn create_isbn(isbn: &String, digits: &Canvas) -> (r: Result<Canvas, Error>)
    requires
        digits.wf(),
    ensures
        r is Ok <==> (ean13_payload_valid(isbn@) && digits.spec_width() <= 220),
        r matches Err(e) ==> e is Render,
        r matches Ok(img) ==> img.wf() && img.spec_width() == 220 && img.spec_height() == 100 && (
        forall|x: int, y: int|
            0 <= x < 220 && 0 <= y < 100 ==> #[trigger] img.pixel(x, y) == spec_isbn_pixel(
                ean13_modules(isbn@),
                *digits,
                x,
                y,
            )),
{
    let modules = match encode_ean13(isbn.as_str()) {
        Some(m) => m,
        None => {
            return Err(Error::Render);
        },
    };
    if digits.width() > 220 {
        return Err(Error::Render);
    }
    let black = Rgba { r: 0, g: 0, b: 0, a: 255 };
    let white = Rgba { r: 255, g: 255, b: 255, a: 255 };
    let mut img = Canvas::new(220, 100, white);
    let bw = 2 * modules.len();
    let bx = (220 - bw) / 2;
    img.draw_modules(&modules, bx, 0, 75, black, white);
    let dx = (220 - digits.width()) / 2;
    img.blit(digits, dx, 76);
    proof {
        assert forall|x: int, y: int| 0 <= x < 220 && 0 <= y < 100 implies #[trigger] img.pixel(
            x,
            y,
        ) == spec_isbn_pixel(ean13_modules(isbn@), *digits, x, y) by {
        }
    }
    Ok(img)
}

// ---------------------------------------------------------------------------
// Determinism of the renderer.
// ---------------------------------------------------------------------------

/// Rendering a badge is deterministic: two images produced from the same
/// barcode modules and the same text layers agree on every pixel, so two
/// `create_badge` calls with identical inputs yield identical rasters.
pub proof fn lemma_badge_deterministic(
    a: Canvas,
    b: Canvas,
    modules: Seq<u8>,
    title: Canvas,
    name_label: Canvas,
    name: Canvas,
    issued_label: Canvas,
    date_text: Canvas,
)
    requires
        forall|x: int, y: int|
            0 <= x < 600 && 0 <= y < 300 ==> #[trigger] a.pixel(x, y) == spec_badge_pixel(
                modules,
                title,
                name_label,
                name,
                issued_label,
                date_text,
                x,
                y,
            ),
        forall|x: int, y: int|
            0 <= x < 600 && 0 <= y < 300 ==> #[trigger] b.pixel(x, y) == spec_badge_pixel(
                modules,
                title,
                name_label,
                name,
                issued_label,
                date_text,
                x,
                y,
            ),
    ensures
        forall|x: int, y: int| 0 <= x < 600 && 0 <= y < 300 ==> a.pixel(x, y) == b.pixel(x, y),
{
}

/// Rendering an isbn label is deterministic in the same way.
pub proof fn lemma_isbn_label_deterministic(
    a: Canvas,
    b: Canvas,
    modules: Seq<u8>,
    digits: Canvas,
)
    requires
        forall|x: int, y: int|
            0 <= x < 220 && 0 <= y < 100 ==> #[trigger] a.pixel(x, y) == spec_isbn_pixel(
                modules,
                digits,
                x,
                y,
            ),
        forall|x: int, y: int|
            0 <= x < 220 && 0 <= y < 100 ==> #[trigger] b.pixel(x, y) == spec_isbn_pixel(
                modules,
                digits,
                x,
                y,
            ),
    ensures
        forall|x: int, y: int| 0 <= x < 220 && 0 <= y < 100 ==> a.pixel(x, y) == b.pixel(x, y),
{
}

} // verus!
