use img2pb2::convert::{
    basic_rects, column_rects, mode_rects, execute_xx, horizontal_run, longest_one_dimensional_run, rect_color, rect_line,
    vertical_run, write_grouped, write_horizontal, write_xx_alt, BackgroundRect, InsertOption, RectPlacement,
    RectStyle,
};
use img2pb2::raster::RgbaImage;

fn sample() -> RgbaImage {
    // 2 x 2: (0,0) opaque red, (1,0) half transparent green,
    //        (0,1) transparent blue, (1,1) opaque white.
    RgbaImage::from_raw(
        2,
        2,
        vec![255, 0, 0, 255, 0, 255, 0, 128, 0, 0, 255, 0, 255, 255, 255, 255],
    )
    .unwrap()
}

fn rect(x: u32, y: u32, color: [u8; 3]) -> BackgroundRect {
    BackgroundRect { x, y, width: 1, height: 1, color }
}

#[test]
fn basic_mode_is_column_major() {
    let img = sample();
    assert_eq!(
        basic_rects(&img, false),
        vec![rect(0, 0, [255, 0, 0]), rect(0, 1, [0, 0, 255]), rect(1, 0, [0, 255, 0]), rect(1, 1, [255, 255, 255])]
    );
}

#[test]
fn basic_mode_skips_pixels_that_are_not_opaque() {
    let img = sample();
    assert_eq!(basic_rects(&img, true), vec![rect(0, 0, [255, 0, 0]), rect(1, 1, [255, 255, 255])]);
    assert_eq!(column_rects(&img, 1, true), vec![rect(1, 1, [255, 255, 255])]);
    assert_eq!(column_rects(&img, 0, false).len(), 2);
}

#[test]
fn every_pixel_is_emitted_without_skipping() {
    let img = RgbaImage::from_raw(3, 5, vec![0; 60]).unwrap();
    assert_eq!(basic_rects(&img, false).len(), 15);
    assert_eq!(basic_rects(&img, true).len(), 0);
}

#[test]
fn unfinished_modes_emit_nothing() {
    let img = sample();
    assert!(write_grouped(&img, false, InsertOption::Vertical).is_empty());
    assert!(write_horizontal(&img, false).is_empty());
    assert!(write_xx_alt(&img, false).is_empty());
    let color_at = |_x: u32, _y: u32| [0u8; 4];
    assert_eq!(vertical_run(0, 0, 2, 2, [0; 4], &[false; 4], &color_at), (1, 1));
    assert_eq!(horizontal_run(0, 0, 2, [0; 4], &[false; 4], &color_at), (1, 1));
    assert_eq!(execute_xx(0, 0, 2, 2, [0; 4], &[false; 4], &color_at), (0, 0));
    assert_eq!(longest_one_dimensional_run(0, 0, 2, 2, [0; 4], &[false; 4], &color_at), (1, 1));
}

#[test]
fn colors_are_halved_except_for_material_three() {
    assert_eq!(rect_color([255, 17, 0], true), [255, 17, 0]);
    assert_eq!(rect_color([255, 17, 0], false), [127, 8, 0]);
}

fn style(material: &str, is_3: bool, attach: &str) -> RectStyle {
    RectStyle {
        material_xml: material.to_string(),
        is_material_3: is_3,
        attach_xml: attach.to_string(),
        x_offset: "0".to_string(),
        y_offset: "-2.5".to_string(),
        draw_in_front: true,
        spawn_shadows: false,
    }
}

fn place(x: &str, y: &str, w: &str, h: &str) -> RectPlacement {
    RectPlacement { x: x.to_string(), y: y.to_string(), w: w.to_string(), h: h.to_string() }
}

#[test]
fn rect_line_text() {
    let line = rect_line(&place("10", "20.5", "10", "10"), [255, 16, 1], &style("0", false, ""));
    assert_eq!(
        line,
        "<bg x=\"10\" y=\"20.5\" w=\"10\" h=\"10\" m=\"0\" c=\"#7F0800\" u=\"0\" v=\"-2.5\" f=\"1\" s=\"false\" />\n"
    );
    let mut s = style("3", true, " a=\"door\"");
    s.draw_in_front = false;
    s.spawn_shadows = true;
    let line = rect_line(&place("0", "0", "1", "1"), [255, 16, 1], &s);
    assert_eq!(
        line,
        "<bg x=\"0\" y=\"0\" w=\"1\" h=\"1\" m=\"3\" c=\"#FF1001\" a=\"door\" u=\"0\" v=\"-2.5\" f=\"0\" s=\"true\" />\n"
    );
}

#[test]
fn mode_rects_dispatch() {
    let img = sample();
    assert_eq!(mode_rects(&img, true, InsertOption::Basic), basic_rects(&img, true));
    for option in [
        InsertOption::Vertical,
        InsertOption::Horizontal,
        InsertOption::TwoDimensional,
        InsertOption::MultilayerOneDimensional,
        InsertOption::MultilayerTwoDimensional,
    ] {
        assert!(mode_rects(&img, false, option).is_empty());
    }
}
