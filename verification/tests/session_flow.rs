use img2pb2::convert::InsertOption;
use img2pb2::raster::RgbaImage;
use img2pb2::session::{conversion_limit_check, oversize_message, text_from_bytes, viewer_text, Session};

fn tiny() -> RgbaImage {
    RgbaImage::from_raw(1, 1, vec![1, 2, 3, 4]).unwrap()
}

#[test]
fn new_session_defaults() {
    let s = Session::new();
    assert!(s.image.is_none());
    assert_eq!(s.status, "Select an image and a PB2 XML file to begin.");
    assert_eq!(s.form.pixel_x_size, "10");
    assert_eq!(s.form.pixel_y_size, "10");
    assert_eq!(s.form.background, "0");
    assert_eq!(s.form.attach_to, "");
    assert!(s.form.skip_transparent && !s.form.draw_in_front && !s.form.spawn_shadows);
    assert_eq!(s.form.option, InsertOption::Basic);
    assert!(!s.processing);
}

#[test]
fn loading_pictures() {
    let mut s = Session::new();
    assert!(!s.image_loaded("a.png".into(), Err("Could not load PNG: bad".into())));
    assert_eq!(s.status, "Could not load PNG: bad");
    assert!(s.image.is_none());
    assert!(s.image_loaded("a.png".into(), Ok(tiny())));
    assert_eq!(s.status, "Image loaded successfully.");
    assert_eq!(s.image_name, "a.png");
    assert!(s.image.is_some());
}

#[test]
fn oversize_picture_message() {
    assert_eq!(
        oversize_message(10_000, 9_000),
        "Image is 10000\u{d7}9000; the maximum supported size is 80000000 pixels."
    );
    assert!(conversion_limit_check(&tiny()).is_none());
}

#[test]
fn loading_xml_files() {
    let mut s = Session::new();
    s.xml_loaded("level.xml".into(), Ok("<xml/>".into()));
    assert_eq!(s.xml_content, "<xml/>");
    assert_eq!(s.status, "PB2 XML file loaded.");
    s.xml_loaded("other.xml".into(), Err("denied".into()));
    assert_eq!(s.xml_name, "other.xml");
    assert_eq!(s.xml_content, "");
    assert_eq!(s.status, "Could not read PB2 XML file: denied");
}

#[test]
fn starting_a_conversion() {
    let mut s = Session::new();
    assert!(!s.begin_conversion(Ok(()), true));
    assert_eq!(s.status, "Select an image first.");
    s.image_loaded("a".into(), Ok(tiny()));
    assert!(!s.begin_conversion(Err("X position must be a number.".into()), true));
    assert_eq!(s.status, "X position must be a number.");
    assert!(!s.begin_conversion(Ok(()), false));
    assert_eq!(s.status, "Select a PB2 XML file first.");
    assert!(!s.processing);
    assert!(s.begin_conversion(Ok(()), true));
    assert!(s.processing);
    assert_eq!(s.status, "Loading image and starting conversion\u{2026}");
}

#[test]
fn finishing_a_conversion() {
    let mut s = Session::new();
    s.processing = true;
    s.conversion_finished(42, Ok("new".into()));
    assert!(!s.processing);
    assert_eq!(s.status, "Appended 42 background object(s).");
    assert_eq!(s.xml_content, "new");
    s.conversion_finished(0, Err("gone".into()));
    assert_eq!(s.xml_content, "Objects were appended, but the viewer could not refresh: gone");
    s.processing = true;
    s.conversion_failed("Could not write PB2 XML: full".into());
    assert_eq!(s.status, "Could not write PB2 XML: full");
    assert!(!s.processing);
    s.processing = true;
    s.worker_lost();
    assert_eq!(s.status, "Conversion worker stopped unexpectedly.");
    assert!(!s.processing);
}

#[test]
fn in_memory_conversion_and_download_name() {
    let mut s = Session::new();
    assert_eq!(s.download_name(), "pb2_output.xml");
    s.xml_name = "lvl.xml".into();
    assert_eq!(s.download_name(), "lvl.xml");
    s.conversion_done_in_memory(Ok(3), "out".into());
    assert_eq!(s.status, "Appended 3 object(s). Downloading the result\u{2026}");
    assert_eq!(s.xml_content, "out");
    s.conversion_done_in_memory(Err("disk".into()), "ignored".into());
    assert_eq!(s.status, "Conversion failed: disk");
    assert_eq!(s.xml_content, "out");
}

#[test]
fn insert_button_state() {
    let mut s = Session::new();
    assert!(!s.can_insert(true));
    s.image_loaded("a".into(), Ok(tiny()));
    assert!(!s.can_insert(true));
    s.xml_name = "  ".into();
    assert!(!s.can_insert(true));
    s.xml_name = "x.xml".into();
    assert!(s.can_insert(true));
    assert!(!s.can_insert(false));
    s.processing = true;
    assert!(!s.can_insert(true));
}

#[test]
fn viewer_text_notes_truncation() {
    assert_eq!(viewer_text(b"<a/>", 4), "<a/>");
    assert_eq!(
        viewer_text(b"<a", 3_000_000),
        "<a\n\n[Preview truncated at 2 MiB. The selected file is 3000000 bytes.]"
    );
    assert_eq!(text_from_bytes(&[0x61, 0xff, 0x62]), "a\u{fffd}b");
}

#[test]
fn in_memory_conversion_checks_settings_first() {
    let mut s = Session::new();
    assert!(!s.begin_in_memory_conversion(Err("Y offset must be a number.".into())));
    assert_eq!(s.status, "Y offset must be a number.");
    assert!(!s.begin_in_memory_conversion(Ok(())));
    assert_eq!(s.status, "Select an image first.");
    assert!(!s.processing);
    s.image_loaded("a".into(), Ok(tiny()));
    assert!(s.begin_in_memory_conversion(Ok(())));
    assert!(s.processing);
    assert_eq!(s.status, "Converting\u{2026}");
}
