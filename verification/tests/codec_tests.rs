use kakikun::canvas::{Brush, CanvasView};
use kakikun::picker::PickView;
use kakikun::codec::FormatError;
use kakikun::color::hsv_to_rgb;
use kakikun::grid::Rgb;

fn rgb(r: u8, g: u8, b: u8) -> Rgb {
    Rgb { r, g, b }
}

fn sample_canvas() -> CanvasView {
    let mut canvas = CanvasView::new(2, 1);
    canvas.changebrushsymbol('é');
    canvas.changecolor(0, 0, rgb(1, 2, 3), rgb(4, 5, 6));
    canvas.changebrushsymbol('a');
    canvas.changecolor(1, 0, rgb(7, 8, 9), rgb(10, 11, 12));
    canvas
}

#[test]
fn tofile_concrete_two_cells() {
    let mut canvas = sample_canvas();
    let text = canvas.tofile();
    assert_eq!(text, "RGB\n0002x0001\n\t001002003|004005006|é\t007008009|010011012|a\t");
}

#[test]
fn fromfile_concrete_two_cells() {
    let mut canvas = CanvasView::new(5, 5);
    let text = String::from("RGB\n0002x0001\n\t001002003|004005006|é\t007008009|010011012|a\t");
    assert!(canvas.fromfile(text).is_ok());
    assert_eq!(canvas.get_width(), 2);
    assert_eq!(canvas.get_height(), 1);
    let overlay = canvas.get_overlay();
    assert_eq!(overlay[0].color, rgb(1, 2, 3));
    assert_eq!(overlay[0].backcolor, rgb(4, 5, 6));
    assert_eq!(overlay[0].symbol, 'é');
    assert_eq!(overlay[1].color, rgb(7, 8, 9));
    assert_eq!(overlay[1].backcolor, rgb(10, 11, 12));
    assert_eq!(overlay[1].symbol, 'a');
}

#[test]
fn project_round_trip_is_exact() {
    let mut canvas = CanvasView::new(4, 3);
    let symbols = ['a', 'é', '編', '!', '?', 'z', '0', '|', 'x', ' ', '描', 'q'];
    for (i, s) in symbols.iter().enumerate() {
        let x = i % 4;
        let y = i / 4;
        canvas.changebrushsymbol(*s);
        canvas.changecolor(x, y, rgb(i as u8, 2 * i as u8, 255 - i as u8), rgb(100 + i as u8, 7, 13));
    }
    let original = canvas.get_overlay();
    let text = canvas.tofile();
    let mut reloaded = CanvasView::new(9, 9);
    assert!(reloaded.fromfile(text).is_ok());
    assert_eq!(reloaded.get_width(), 4);
    assert_eq!(reloaded.get_height(), 3);
    assert_eq!(reloaded.get_overlay(), original);
}

#[test]
fn totext_emits_one_newline_per_row() {
    let mut canvas = CanvasView::new(2, 2);
    for (i, s) in ['a', 'b', 'c', 'd'].iter().enumerate() {
        canvas.changebrushsymbol(*s);
        canvas.changecolor(i % 2, i / 2, rgb(0, 0, 0), rgb(0, 0, 0));
    }
    assert_eq!(canvas.totext(), "ab\ncd\n");
}

#[test]
fn fromfile_rejects_bad_header() {
    let mut canvas = CanvasView::new(2, 2);
    let before = canvas.get_overlay();
    assert_eq!(canvas.fromfile(String::from("XYZ\n0001x0001\n\t")), Err(FormatError::BadHeader));
    assert_eq!(canvas.fromfile(String::from("")), Err(FormatError::BadHeader));
    assert_eq!(canvas.fromfile(String::from("RGBX\n")), Err(FormatError::BadHeader));
    assert_eq!(canvas.get_overlay(), before);
}

#[test]
fn fromfile_rejects_bad_dimensions() {
    let mut canvas = CanvasView::new(2, 2);
    assert_eq!(canvas.fromfile(String::from("RGB")), Err(FormatError::BadDimensions));
    assert_eq!(canvas.fromfile(String::from("RGB\n00a1x0001\n\t")), Err(FormatError::BadDimensions));
    assert_eq!(canvas.fromfile(String::from("RGB\n0000x0001\n\t")), Err(FormatError::BadDimensions));
    assert_eq!(canvas.fromfile(String::from("RGB\n0001x0000\n\t")), Err(FormatError::BadDimensions));
    assert_eq!(canvas.fromfile(String::from("RGB\n0001\n\t")), Err(FormatError::BadDimensions));
}

#[test]
fn fromfile_rejects_missing_fields() {
    let mut canvas = CanvasView::new(2, 2);
    assert_eq!(canvas.fromfile(String::from("RGB\n0001x0001\n")), Err(FormatError::MissingFields));
    // Two cells announced, one well-formed record, no further tab.
    assert_eq!(
        canvas.fromfile(String::from("RGB\n0002x0001\n\t001002003|004005006|a")),
        Err(FormatError::MissingFields)
    );
    assert_eq!(canvas.fromfile(String::from("RGB\n0001x0001\nno tab here")), Err(FormatError::MissingFields));
    // A trailing tab opens one more field, but an empty one: that field
    // is a malformed record, not a missing one.
    assert_eq!(
        canvas.fromfile(String::from("RGB\n0002x0001\n\t001002003|004005006|a\t")),
        Err(FormatError::BadRecord)
    );
}

#[test]
fn fromfile_rejects_bad_records() {
    let mut canvas = CanvasView::new(2, 2);
    // Too short for the fixed width.
    assert_eq!(
        canvas.fromfile(String::from("RGB\n0001x0001\n\tshort\t")),
        Err(FormatError::BadRecord)
    );
    // A non-digit where a digit belongs.
    assert_eq!(
        canvas.fromfile(String::from("RGB\n0001x0001\n\t0a1002003|004005006|a\t")),
        Err(FormatError::BadRecord)
    );
    // A channel above 255.
    assert_eq!(
        canvas.fromfile(String::from("RGB\n0001x0001\n\t300002003|004005006|a\t")),
        Err(FormatError::BadRecord)
    );
}

#[test]
fn fromfile_does_not_load_partially() {
    let mut canvas = sample_canvas();
    let before = canvas.get_overlay();
    // The first record is fine, the second is malformed: nothing changes.
    let r = canvas.fromfile(String::from("RGB\n0002x0001\n\t001002003|004005006|a\tbad record here xx\t"));
    assert_eq!(r, Err(FormatError::BadRecord));
    assert_eq!(canvas.get_overlay(), before);
    assert_eq!(canvas.get_width(), 2);
}

#[test]
fn hsv_primaries_follow_canonical_formula() {
    assert_eq!(hsv_to_rgb(0, 1000, 1000), (255, 0, 0));
    assert_eq!(hsv_to_rgb(120, 1000, 1000), (0, 255, 0));
    assert_eq!(hsv_to_rgb(240, 1000, 1000), (0, 0, 255));
    // Zero saturation is gray at the chosen value, whatever the hue.
    assert_eq!(hsv_to_rgb(77, 0, 1000), (255, 255, 255));
    assert_eq!(hsv_to_rgb(300, 0, 0), (0, 0, 0));
    // A mid-sector hue carries the secondary component.
    assert_eq!(hsv_to_rgb(60, 1000, 1000), (255, 255, 0));
}

#[test]
fn picker_click_sets_brush_colors() {
    let mut picker = PickView::new(10, 10);
    picker.set_hue(0);
    let mut brush = Brush { color: rgb(1, 1, 1), backcolor: rgb(2, 2, 2) };
    // Top-left corner: zero saturation, full value: white; left click
    // sets the background.
    assert!(picker.pick(0, 0, false, &mut brush));
    assert_eq!(brush.backcolor, rgb(255, 255, 255));
    assert_eq!(brush.color, rgb(1, 1, 1));
    // Right click sets the foreground.
    assert!(picker.pick(0, 0, true, &mut brush));
    assert_eq!(brush.color, rgb(255, 255, 255));
    // Outside the swatch nothing happens.
    assert!(!picker.pick(10, 0, true, &mut brush));
}
