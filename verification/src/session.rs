//! The state of one editing session and the decisions taken on each event:
//! a picture or an XML file arrives, a conversion starts, ends or fails.
//! Showing the state, picking files and running the conversion belong to the
//! caller, which reports each outcome here.

use vstd::prelude::*;
use vstd::string::*;
use crate::convert::InsertOption;
use crate::raster::{exceeds_pixel_limit, exceeds_pixel_limit_spec, RgbaImage, MAX_IMAGE_PIXELS};
use crate::text::{decimal, push_decimal, trim, trim_spec};
use vstd::utf8::{decode_utf8, valid_utf8};

verus! {

/// The placement form as the user typed it.
pub struct PlacementForm {
    pub pixel_x_size: String,
    pub pixel_y_size: String,
    pub x_position: String,
    pub y_position: String,
    pub background: String,
    pub x_offset: String,
    pub y_offset: String,
    pub attach_to: String,
    pub draw_in_front: bool,
    pub spawn_shadows: bool,
    pub skip_transparent: bool,
    pub option: InsertOption,
}

/// At most this many bytes of an XML file are shown in the viewer.
pub const MAX_VIEWER_BYTES: u64 = 2097152;

/// What `String::from_utf8_lossy` makes of some bytes.
pub uninterp spec fn lossy_utf8(bytes: Seq<u8>) -> Seq<char>;

/// Decodes bytes as UTF-8 with `String::from_utf8_lossy`, which replaces
/// invalid sequences by U+FFFD. The result is the named `lossy_utf8`; the
/// one fact stated is the documented one, that valid UTF-8 decodes to its
/// characters.
#[verifier::external_body]
fn utf8_lossy(bytes: &[u8]) -> (res: String)
    ensures
        res@ == lossy_utf8(bytes@),
        valid_utf8(bytes@) ==> res@ == decode_utf8(bytes@),
{
    String::from_utf8_lossy(bytes).into_owned()
}

/// Text decoded from bytes, invalid UTF-8 replaced by U+FFFD.
pub fn text_from_bytes(bytes: &[u8]) -> (res: String)
    ensures
        res@ == lossy_utf8(bytes@),
        valid_utf8(bytes@) ==> res@ == decode_utf8(bytes@),
{
    utf8_lossy(bytes)
}

/// The viewer text for the first bytes of a file of `file_size` bytes.
pub open spec fn viewer_text_spec(head: Seq<u8>, file_size: u64) -> Seq<char> {
    if file_size <= MAX_VIEWER_BYTES {
        lossy_utf8(head)
    } else {
        lossy_utf8(head) + "\n\n[Preview truncated at 2 MiB. The selected file is "@ + decimal(
            file_size as nat,
        ) + " bytes.]"@
    }
}

/// The viewer text for `head`, the first bytes of a file of `file_size`
/// bytes: the decoded text, with a note when the file is longer than what
/// the viewer shows.
pub fn viewer_text(head: &[u8], file_size: u64) -> (res: String)
    ensures
        res@ == viewer_text_spec(head@, file_size),
{
    let mut s = utf8_lossy(head);
    if file_size > MAX_VIEWER_BYTES {
        s.append("\n\n[Preview truncated at 2 MiB. The selected file is ");
        push_decimal(&mut s, file_size);
        s.append(" bytes.]");
    }
    s
}

/// The picture, the XML file and the form of one session.
pub struct Session {
    pub image: Option<RgbaImage>,
    pub image_name: String,
    pub xml_content: String,
    pub xml_name: String,
    pub form: PlacementForm,
    pub processing: bool,
    pub status: String,
}

/// The status line for a picture over the pixel limit.
pub open spec fn oversize_message_spec(width: u32, height: u32) -> Seq<char> {
    "Image is "@ + decimal(width as nat) + "\u{d7}"@ + decimal(height as nat)
        + "; the maximum supported size is "@ + decimal(MAX_IMAGE_PIXELS as nat) + " pixels."@
}

/// The status line for a picture over the pixel limit.
pub fn oversize_message(width: u32, height: u32) -> (res: String)
    ensures
        res@ == oversize_message_spec(width, height),
{
    let mut s = String::from_str("Image is ");
    push_decimal(&mut s, width as u64);
    s.append("\u{d7}");
    push_decimal(&mut s, height as u64);
    s.append("; the maximum supported size is ");
    push_decimal(&mut s, MAX_IMAGE_PIXELS);
    s.append(" pixels.");
    s
}

/// The failure a conversion reports for a picture over the pixel limit.
pub open spec fn too_many_pixels_message_spec() -> Seq<char> {
    "Image exceeds the "@ + decimal(MAX_IMAGE_PIXELS as nat)
        + "-pixel processing limit. Resize it before converting."@
}

/// Checks the pixel limit before a conversion: `None` when the picture may
/// be converted, else the failure to report.
pub fn conversion_limit_check(image: &RgbaImage) -> (res: Option<String>)
    ensures
        match res {
            None => !exceeds_pixel_limit_spec(image@.0, image@.1),
            Some(m) => exceeds_pixel_limit_spec(image@.0, image@.1) && m@
                == too_many_pixels_message_spec(),
        },
{
    if exceeds_pixel_limit(image.width(), image.height()) {
        let mut s = String::from_str("Image exceeds the ");
        push_decimal(&mut s, MAX_IMAGE_PIXELS);
        s.append("-pixel processing limit. Resize it before converting.");
        Some(s)
    } else {
        None
    }
}

/// `prefix` followed by `detail`.
pub fn message_with(prefix: &str, detail: &str) -> (res: String)
    ensures
        res@ == prefix@ + detail@,
{
    let mut s = String::from_str(prefix);
    s.append(detail);
    s
}

/// The status line once a conversion has appended `count` objects.
pub open spec fn appended_message_spec(count: u64) -> Seq<char> {
    "Appended "@ + decimal(count as nat) + " background object(s)."@
}

/// The status line once an in-memory conversion has appended `count`
/// objects and the result is offered for download.
pub open spec fn appended_download_message_spec(count: u64) -> Seq<char> {
    "Appended "@ + decimal(count as nat) + " object(s). Downloading the result\u{2026}"@
}

/// The viewer text when the XML file could not be read back after a
/// conversion.
pub open spec fn refresh_failed_spec(error: Seq<char>) -> Seq<char> {
    "Objects were appended, but the viewer could not refresh: "@ + error
}

/// The status line a new session starts with.
pub open spec fn welcome_spec() -> Seq<char> {
    "Select an image and a PB2 XML file to begin."@
}

/// The form of a new session.
pub open spec fn initial_form(form: PlacementForm) -> bool {
    &&& form.pixel_x_size@ == "10"@
    &&& form.pixel_y_size@ == "10"@
    &&& form.x_position@ == "0"@
    &&& form.y_position@ == "0"@
    &&& form.background@ == "0"@
    &&& form.x_offset@ == "0"@
    &&& form.y_offset@ == "0"@
    &&& form.attach_to@ == Seq::<char>::empty()
    &&& !form.draw_in_front
    &&& !form.spawn_shadows
    &&& form.skip_transparent
    &&& form.option == InsertOption::Basic
}

/// `a` and `b` hold the same picture, files and form.
pub open spec fn same_inputs(a: Session, b: Session) -> bool {
    &&& a.image == b.image
    &&& a.image_name == b.image_name
    &&& a.xml_content == b.xml_content
    &&& a.xml_name == b.xml_name
    &&& a.form == b.form
}

impl Session {
    /// A session with no picture, no XML file, the default form and a
    /// welcome line.
    pub fn new() -> (s: Session)
        ensures
            s.image is None,
            s.image_name@ == Seq::<char>::empty(),
            s.xml_content@ == Seq::<char>::empty(),
            s.xml_name@ == Seq::<char>::empty(),
            initial_form(s.form),
            !s.processing,
            s.status@ == welcome_spec(),
    {
        Session {
            image: None,
            image_name: String::new(),
            xml_content: String::new(),
            xml_name: String::new(),
            form: PlacementForm {
                pixel_x_size: String::from_str("10"),
                pixel_y_size: String::from_str("10"),
                x_position: String::from_str("0"),
                y_position: String::from_str("0"),
                background: String::from_str("0"),
                x_offset: String::from_str("0"),
                y_offset: String::from_str("0"),
                attach_to: String::new(),
                draw_in_front: false,
                spawn_shadows: false,
                skip_transparent: true,
                option: InsertOption::Basic,
            },
            processing: false,
            status: String::from_str("Select an image and a PB2 XML file to begin."),
        }
    }

    /// A decoded picture (or the reason it could not be loaded) arrives. A
    /// picture within the pixel limit replaces the current one and `true` is
    /// returned; otherwise the status line says why and nothing else changes.
    pub fn image_loaded(&mut self, name: String, result: Result<RgbaImage, String>) -> (accepted:
        bool)
        ensures
            final(self).xml_content == old(self).xml_content,
            final(self).xml_name == old(self).xml_name,
            final(self).form == old(self).form,
            final(self).processing == old(self).processing,
            match result {
                Ok(img) => if exceeds_pixel_limit_spec(img@.0, img@.1) {
                    &&& !accepted
                    &&& final(self).status@ == oversize_message_spec(img@.0, img@.1)
                    &&& final(self).image == old(self).image
                    &&& final(self).image_name == old(self).image_name
                } else {
                    &&& accepted
                    &&& final(self).image == Some(img)
                    &&& final(self).image_name == name
                    &&& final(self).status@ == "Image loaded successfully."@
                },
                Err(e) => {
                    &&& !accepted
                    &&& final(self).status == e
                    &&& final(self).image == old(self).image
                    &&& final(self).image_name == old(self).image_name
                },
            },
    {
        match result {
            Ok(img) => {
                let (w, h) = (img.width(), img.height());
                if exceeds_pixel_limit(w, h) {
                    self.status = oversize_message(w, h);
                    false
                } else {
                    self.image = Some(img);
                    self.image_name = name;
                    self.status = String::from_str("Image loaded successfully.");
                    true
                }
            },
            Err(e) => {
                self.status = e;
                false
            },
        }
    }

    /// The text of an XML file (or the reason it could not be read) arrives
    /// for the file `name`.
    pub fn xml_loaded(&mut self, name: String, content: Result<String, String>)
        ensures
            final(self).image == old(self).image,
            final(self).image_name == old(self).image_name,
            final(self).form == old(self).form,
            final(self).processing == old(self).processing,
            final(self).xml_name == name,
            match content {
                Ok(c) => final(self).xml_content == c && final(self).status@
                    == "PB2 XML file loaded."@,
                Err(e) => final(self).xml_content@ == Seq::<char>::empty() && final(self).status@
                    == "Could not read PB2 XML file: "@ + e@,
            },
    {
        self.xml_name = name;
        match content {
            Ok(c) => {
                self.xml_content = c;
                self.status = String::from_str("PB2 XML file loaded.");
            },
            Err(e) => {
                self.xml_content = String::new();
                self.status = message_with("Could not read PB2 XML file: ", e.as_str());
            },
        }
    }

    /// Whether the insert button may be pressed: no conversion running, a
    /// picture loaded, an XML file named and valid settings.
    pub fn can_insert(&self, settings_valid: bool) -> (res: bool)
        ensures
            res == (!self.processing && self.image is Some && trim_spec(self.xml_name@).len() > 0
                && settings_valid),
    {
        !self.processing && self.image.is_some() && trim(self.xml_name.as_str()).unicode_len() > 0
            && settings_valid
    }

    /// A conversion is asked for. It starts (and `true` is returned) only
    /// with a picture, valid settings and a file to append to; otherwise the
    /// status line names the first thing missing, in that order.
    pub fn begin_conversion(&mut self, settings: Result<(), String>, has_target: bool) -> (started:
        bool)
        ensures
            same_inputs(*final(self), *old(self)),
            started == (old(self).image is Some && settings is Ok && has_target),
            final(self).processing == (started || old(self).processing),
            old(self).image is None ==> final(self).status@ == "Select an image first."@,
            old(self).image is Some ==> match settings {
                Err(e) => final(self).status == e,
                Ok(_) => if has_target {
                    final(self).status@ == "Loading image and starting conversion\u{2026}"@
                } else {
                    final(self).status@ == "Select a PB2 XML file first."@
                },
            },
    {
        if self.image.is_none() {
            self.status = String::from_str("Select an image first.");
            return false;
        }
        match settings {
            Err(e) => {
                self.status = e;
                false
            },
            Ok(()) => {
                if !has_target {
                    self.status = String::from_str("Select a PB2 XML file first.");
                    return false;
                }
                self.processing = true;
                self.status = String::from_str("Loading image and starting conversion\u{2026}");
                true
            },
        }
    }

    /// An in-memory conversion is asked for. The settings are checked first,
    /// then the picture; it starts (and `true` is returned) only with both.
    pub fn begin_in_memory_conversion(&mut self, settings: Result<(), String>) -> (started: bool)
        ensures
            same_inputs(*final(self), *old(self)),
            started == (settings is Ok && old(self).image is Some),
            final(self).processing == (started || old(self).processing),
            match settings {
                Err(e) => final(self).status == e,
                Ok(_) => if old(self).image is Some {
                    final(self).status@ == "Converting\u{2026}"@
                } else {
                    final(self).status@ == "Select an image first."@
                },
            },
    {
        match settings {
            Err(e) => {
                self.status = e;
                false
            },
            Ok(()) => {
                if self.image.is_none() {
                    self.status = String::from_str("Select an image first.");
                    return false;
                }
                self.processing = true;
                self.status = String::from_str("Converting\u{2026}");
                true
            },
        }
    }

    /// A conversion appended `count` objects; `refreshed` is the XML file
    /// read back (or why it could not be).
    pub fn conversion_finished(&mut self, count: u64, refreshed: Result<String, String>)
        ensures
            final(self).image == old(self).image,
            final(self).image_name == old(self).image_name,
            final(self).xml_name == old(self).xml_name,
            final(self).form == old(self).form,
            !final(self).processing,
            final(self).status@ == appended_message_spec(count),
            match refreshed {
                Ok(c) => final(self).xml_content == c,
                Err(e) => final(self).xml_content@ == refresh_failed_spec(e@),
            },
    {
        self.processing = false;
        self.xml_content = match refreshed {
            Ok(c) => c,
            Err(e) => message_with(
                "Objects were appended, but the viewer could not refresh: ",
                e.as_str(),
            ),
        };
        let mut s = String::from_str("Appended ");
        push_decimal(&mut s, count);
        s.append(" background object(s).");
        self.status = s;
    }

    /// A conversion failed with `message`.
    pub fn conversion_failed(&mut self, message: String)
        ensures
            same_inputs(*final(self), *old(self)),
            !final(self).processing,
            final(self).status == message,
    {
        self.processing = false;
        self.status = message;
    }

    /// The conversion stopped without reporting an outcome.
    pub fn worker_lost(&mut self)
        ensures
            same_inputs(*final(self), *old(self)),
            !final(self).processing,
            final(self).status@ == "Conversion worker stopped unexpectedly."@,
    {
        self.processing = false;
        self.status = String::from_str("Conversion worker stopped unexpectedly.");
    }

    /// An in-memory conversion ended: on success the viewer shows `output`
    /// and the status line announces the download.
    pub fn conversion_done_in_memory(&mut self, result: Result<u64, String>, output: String)
        ensures
            final(self).image == old(self).image,
            final(self).image_name == old(self).image_name,
            final(self).xml_name == old(self).xml_name,
            final(self).form == old(self).form,
            !final(self).processing,
            match result {
                Ok(count) => final(self).xml_content == output && final(self).status@
                    == appended_download_message_spec(count),
                Err(e) => final(self).xml_content == old(self).xml_content && final(self).status@
                    == "Conversion failed: "@ + e@,
            },
    {
        match result {
            Ok(count) => {
                self.xml_content = output;
                let mut s = String::from_str("Appended ");
                push_decimal(&mut s, count);
                s.append(" object(s). Downloading the result\u{2026}");
                self.status = s;
            },
            Err(e) => {
                self.status = message_with("Conversion failed: ", e.as_str());
            },
        }
        self.processing = false;
    }

    /// The file name offered for the download: the XML file's name, or
    /// `pb2_output.xml` when there is none.
    pub fn download_name(&self) -> (res: String)
        ensures
            res@ == if self.xml_name@.len() == 0 {
                "pb2_output.xml"@
            } else {
                self.xml_name@
            },
    {
        if self.xml_name.as_str().unicode_len() == 0 {
            String::from_str("pb2_output.xml")
        } else {
            self.xml_name.clone()
        }
    }
}

} // verus!
