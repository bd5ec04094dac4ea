use kakikun::bitmap::Bitmap;
use kakikun::canvas::CanvasView;
use kakikun::grid::Rgb;

fn rgb(r: u8, g: u8, b: u8) -> Rgb {
    Rgb { r, g, b }
}

#[test]
fn toimage_doubles_rows_from_backgrounds() {
    let mut canvas = CanvasView::new(2, 1);
    canvas.changecolor(0, 0, rgb(0, 0, 0), rgb(10, 20, 30));
    canvas.changecolor(1, 0, rgb(0, 0, 0), rgb(40, 50, 60));
    let bmp = canvas.toimage();
    assert_eq!(bmp.width, 2);
    assert_eq!(bmp.height, 2);
    assert_eq!(bmp.get_pixel(0, 0), rgb(10, 20, 30));
    assert_eq!(bmp.get_pixel(0, 1), rgb(10, 20, 30));
    assert_eq!(bmp.get_pixel(1, 0), rgb(40, 50, 60));
    assert_eq!(bmp.get_pixel(1, 1), rgb(40, 50, 60));
}

#[test]
fn image_round_trip_keeps_backgrounds() {
    let mut canvas = CanvasView::new(3, 2);
    canvas.changebrushsymbol('k');
    for x in 0..3u8 {
        for y in 0..2u8 {
            canvas.changecolor(
                x as usize,
                y as usize,
                rgb(x, y, 77),
                rgb(10 * x, 20 * y, x + y),
            );
        }
    }
    let before = canvas.get_overlay();
    let bmp = canvas.toimage();
    let overlay = canvas.get_overlay();
    canvas.fromimage(bmp, Some(overlay));
    let after = canvas.get_overlay();
    assert_eq!(before, after);
}

#[test]
fn fresh_import_halves_the_height() {
    let mut canvas = CanvasView::new(2, 2);
    let mut bmp = Bitmap::new(4, 6);
    bmp.set_pixel(0, 0, rgb(9, 9, 9));
    bmp.set_pixel(1, 2, rgb(5, 6, 7));
    bmp.set_pixel(1, 3, rgb(1, 1, 1)); // odd row: ignored by sampling
    canvas.fromimage(bmp, None);
    assert_eq!(canvas.get_width(), 4);
    assert_eq!(canvas.get_height(), 3);
    let overlay = canvas.get_overlay();
    assert_eq!(overlay[0].backcolor, rgb(9, 9, 9));
    assert_eq!(overlay[4 + 1].backcolor, rgb(5, 6, 7));
    // A fresh load resets foregrounds and symbols.
    assert_eq!(overlay[0].color, rgb(255, 255, 255));
    assert_eq!(overlay[0].symbol, ' ');
}

#[test]
fn oversized_import_fits_the_limit() {
    let mut canvas = CanvasView::new(2, 2);
    let bmp = Bitmap::new(1920, 1080);
    canvas.fromimage(bmp, None);
    assert!(canvas.get_width() <= 100);
    assert!(canvas.get_height() <= 50);
    assert!(canvas.get_width() >= 1);
    assert!(canvas.get_height() >= 1);
}

#[test]
fn fliph_mirrors_backgrounds_only() {
    let mut canvas = CanvasView::new(2, 1);
    canvas.changebrushsymbol('L');
    canvas.changecolor(0, 0, rgb(1, 2, 3), rgb(100, 0, 0));
    canvas.changebrushsymbol('R');
    canvas.changecolor(1, 0, rgb(4, 5, 6), rgb(0, 100, 0));
    canvas.fliph();
    let overlay = canvas.get_overlay();
    assert_eq!(overlay[0].backcolor, rgb(0, 100, 0));
    assert_eq!(overlay[1].backcolor, rgb(100, 0, 0));
    // Foregrounds and symbols stay put.
    assert_eq!(overlay[0].color, rgb(1, 2, 3));
    assert_eq!(overlay[0].symbol, 'L');
    assert_eq!(overlay[1].color, rgb(4, 5, 6));
    assert_eq!(overlay[1].symbol, 'R');
}

#[test]
fn flipv_mirrors_backgrounds_only() {
    let mut canvas = CanvasView::new(1, 2);
    canvas.changecolor(0, 0, rgb(1, 1, 1), rgb(100, 0, 0));
    canvas.changecolor(0, 1, rgb(2, 2, 2), rgb(0, 100, 0));
    canvas.flipv();
    let overlay = canvas.get_overlay();
    assert_eq!(overlay[0].backcolor, rgb(0, 100, 0));
    assert_eq!(overlay[1].backcolor, rgb(100, 0, 0));
    assert_eq!(overlay[0].color, rgb(1, 1, 1));
    assert_eq!(overlay[1].color, rgb(2, 2, 2));
}

#[test]
fn brighten_clamps_channels() {
    let mut canvas = CanvasView::new(2, 1);
    canvas.changecolor(0, 0, rgb(0, 0, 0), rgb(10, 250, 128));
    canvas.changecolor(1, 0, rgb(0, 0, 0), rgb(15, 0, 255));
    canvas.brighten(10);
    let overlay = canvas.get_overlay();
    assert_eq!(overlay[0].backcolor, rgb(20, 255, 138));
    assert_eq!(overlay[1].backcolor, rgb(25, 10, 255));
    canvas.brighten(-30);
    let overlay = canvas.get_overlay();
    assert_eq!(overlay[0].backcolor, rgb(0, 225, 108));
    assert_eq!(overlay[1].backcolor, rgb(0, 0, 225));
}

#[test]
fn grayscale_replicates_the_luma() {
    let mut canvas = CanvasView::new(1, 1);
    canvas.changecolor(0, 0, rgb(0, 0, 0), rgb(255, 0, 0));
    canvas.grayscale();
    let overlay = canvas.get_overlay();
    // Pure red maps to its integer sRGB luma on all three channels.
    assert_eq!(overlay[0].backcolor, rgb(54, 54, 54));
}

#[test]
fn rotate90_discards_overlay_and_turns_backgrounds() {
    let mut canvas = CanvasView::new(2, 1);
    canvas.changebrushsymbol('s');
    canvas.changecolor(0, 0, rgb(1, 2, 3), rgb(100, 0, 0));
    canvas.changecolor(1, 0, rgb(4, 5, 6), rgb(0, 100, 0));
    canvas.rotate90();
    assert_eq!(canvas.get_width(), 2);
    assert_eq!(canvas.get_height(), 1);
    let overlay = canvas.get_overlay();
    // Rotation cannot realign the overlay: foregrounds and symbols reset.
    assert_eq!(overlay[0].color, rgb(255, 255, 255));
    assert_eq!(overlay[0].symbol, ' ');
    // The left column of the turned picture comes from the old left cell.
    assert_eq!(overlay[0].backcolor, rgb(100, 0, 0));
    assert_eq!(overlay[1].backcolor, rgb(100, 0, 0));
}

#[test]
fn huerotate_changes_colors_beyond_the_brightening() {
    let mut canvas = CanvasView::new(1, 1);
    canvas.changebrushsymbol('h');
    canvas.changecolor(0, 0, rgb(1, 2, 3), rgb(200, 10, 10));
    canvas.huerotate(180);
    let overlay = canvas.get_overlay();
    // Had the rotation done nothing, only the one-step brightening
    // compensation would show.
    assert_ne!(overlay[0].backcolor, rgb(201, 11, 11));
    assert_ne!(overlay[0].backcolor, rgb(200, 10, 10));
    assert_eq!(overlay[0].color, rgb(1, 2, 3));
    assert_eq!(overlay[0].symbol, 'h');
}

#[test]
fn undo_returns_from_a_filter() {
    let mut canvas = CanvasView::new(2, 2);
    canvas.changecolor(0, 0, rgb(1, 2, 3), rgb(4, 5, 6));
    let before = canvas.get_overlay();
    canvas.grayscale();
    canvas.back();
    assert_eq!(canvas.get_overlay(), before);
}
