//! From an RGBA raster to PB2 `<bg>` background objects: which pixels become
//! objects, in which order, with which colour, and the text of each object.

use vstd::prelude::*;
use vstd::string::*;
use crate::material::{parse_material, parse_material_spec};
use crate::raster::{pixel_at, RgbaImage};
use crate::text::{
    hex_byte, push_hex_byte, trim, trim_spec, xml_escape, xml_escape_spec,
};

verus! {

/// How the picture is cut into background objects.
#[derive(Clone, Copy, PartialEq, Eq, Debug, Structural)]
pub enum InsertOption {
    Basic,
    Vertical,
    Horizontal,
    TwoDimensional,
    MultilayerOneDimensional,
    MultilayerTwoDimensional,
}

/// The caption of each insert mode.
pub open spec fn label_spec(option: InsertOption) -> Seq<char> {
    match option {
        InsertOption::Basic => "BASIC"@,
        InsertOption::Vertical => "VERTICAL"@,
        InsertOption::Horizontal => "HORIZONTAL"@,
        InsertOption::TwoDimensional => "TWO DIMENSIONAL"@,
        InsertOption::MultilayerOneDimensional => "MULTILAYER 1D"@,
        InsertOption::MultilayerTwoDimensional => "MULTILAYER 2D"@,
    }
}

impl InsertOption {
    /// The caption shown for this mode.
    pub fn label(self) -> (res: &'static str)
        ensures
            res@ == label_spec(self),
    {
        match self {
            InsertOption::Basic => "BASIC",
            InsertOption::Vertical => "VERTICAL",
            InsertOption::Horizontal => "HORIZONTAL",
            InsertOption::TwoDimensional => "TWO DIMENSIONAL",
            InsertOption::MultilayerOneDimensional => "MULTILAYER 1D",
            InsertOption::MultilayerTwoDimensional => "MULTILAYER 2D",
        }
    }
}

/// The captions, in the order the modes are offered.
pub open spec fn label_table() -> Seq<Seq<char>> {
    seq![
        "BASIC"@,
        "VERTICAL"@,
        "HORIZONTAL"@,
        "TWO DIMENSIONAL"@,
        "MULTILAYER 1D"@,
        "MULTILAYER 2D"@,
    ]
}

/// The position of a mode in the order the modes are offered.
pub open spec fn option_index(option: InsertOption) -> int {
    match option {
        InsertOption::Basic => 0,
        InsertOption::Vertical => 1,
        InsertOption::Horizontal => 2,
        InsertOption::TwoDimensional => 3,
        InsertOption::MultilayerOneDimensional => 4,
        InsertOption::MultilayerTwoDimensional => 5,
    }
}

/// Each mode is captioned by its entry in the caption table.
pub proof fn labels_follow_the_table(option: InsertOption)
    ensures
        label_spec(option) == label_table()[option_index(option)],
{
}

/// Different insert modes have different captions.
pub proof fn labels_are_distinct(a: InsertOption, b: InsertOption)
    ensures
        a != b ==> label_spec(a) != label_spec(b),
{
    reveal_strlit("BASIC");
    reveal_strlit("VERTICAL");
    reveal_strlit("HORIZONTAL");
    reveal_strlit("TWO DIMENSIONAL");
    reveal_strlit("MULTILAYER 1D");
    reveal_strlit("MULTILAYER 2D");
    if a != b {
        if label_spec(a).len() == label_spec(b).len() {
            assert(label_spec(a)[0] != label_spec(b)[0] || label_spec(a)[11] != label_spec(b)[11]);
        }
    }
}

/// A rectangle of the picture, in pixels, with the RGB it is painted in.
#[derive(Clone, Copy, PartialEq, Eq, Debug)]
pub struct BackgroundRect {
    pub x: u32,
    pub y: u32,
    pub width: u32,
    pub height: u32,
    pub color: [u8; 3],
}

/// Pixel (`x`, `y`) becomes an object unless transparent pixels are skipped
/// and its alpha is below 255.
pub open spec fn keeps_pixel(img: (u32, u32, Seq<u8>), x: nat, y: nat, skip_transparent: bool) -> bool {
    !skip_transparent || pixel_at(img, x, y)[3] == 255
}

/// The 1 x 1 object for pixel (`x`, `y`).
pub open spec fn pixel_rect(img: (u32, u32, Seq<u8>), x: u32, y: u32) -> BackgroundRect {
    let p = pixel_at(img, x as nat, y as nat);
    BackgroundRect { x, y, width: 1, height: 1, color: [p[0], p[1], p[2]] }
}

/// The objects of rows `0..rows` of column `x`, top to bottom.
pub open spec fn column_spec(img: (u32, u32, Seq<u8>), x: u32, skip_transparent: bool, rows: nat) -> Seq<
    BackgroundRect,
>
    decreases rows,
{
    if rows == 0 {
        Seq::empty()
    } else {
        let y = (rows - 1) as nat;
        let before = column_spec(img, x, skip_transparent, y);
        if keeps_pixel(img, x as nat, y, skip_transparent) {
            before.push(pixel_rect(img, x, y as u32))
        } else {
            before
        }
    }
}

/// The objects of columns `0..cols`, column by column.
pub open spec fn basic_spec(img: (u32, u32, Seq<u8>), skip_transparent: bool, cols: nat) -> Seq<
    BackgroundRect,
>
    decreases cols,
{
    if cols == 0 {
        Seq::empty()
    } else {
        basic_spec(img, skip_transparent, (cols - 1) as nat) + column_spec(
            img,
            (cols - 1) as u32,
            skip_transparent,
            img.1 as nat,
        )
    }
}

/// Rectangle `r` is the 1 x 1 object of its own pixel, inside the first
/// `cols` columns and `rows` rows, and that pixel is kept.
pub open spec fn is_pixel_object(
    img: (u32, u32, Seq<u8>),
    r: BackgroundRect,
    skip_transparent: bool,
    cols: nat,
    rows: nat,
) -> bool {
    &&& r.x < cols
    &&& r.y < rows
    &&& r == pixel_rect(img, r.x, r.y)
    &&& keeps_pixel(img, r.x as nat, r.y as nat, skip_transparent)
}

/// `a` comes before `b` in column-major order.
pub open spec fn column_major_before(a: BackgroundRect, b: BackgroundRect) -> bool {
    a.x < b.x || (a.x == b.x && a.y < b.y)
}

proof fn lemma_column(img: (u32, u32, Seq<u8>), x: u32, skip_transparent: bool, rows: nat)
    requires
        rows <= u32::MAX,
    ensures
        forall|i: int|
            0 <= i < column_spec(img, x, skip_transparent, rows).len() ==> {
                let r = #[trigger] column_spec(img, x, skip_transparent, rows)[i];
                r.x == x && is_pixel_object(img, r, skip_transparent, (x + 1) as nat, rows)
            },
        forall|i: int, j: int|
            0 <= i < j < column_spec(img, x, skip_transparent, rows).len() ==> (#[trigger] column_spec(
                img,
                x,
                skip_transparent,
                rows,
            )[i]).y < (#[trigger] column_spec(img, x, skip_transparent, rows)[j]).y,
        !skip_transparent ==> column_spec(img, x, skip_transparent, rows).len() == rows,
    decreases rows,
{
    if rows > 0 {
        let y = (rows - 1) as nat;
        lemma_column(img, x, skip_transparent, y);
        let prev = column_spec(img, x, skip_transparent, y);
        let all = column_spec(img, x, skip_transparent, rows);
        if keeps_pixel(img, x as nat, y, skip_transparent) {
            let r = pixel_rect(img, x, y as u32);
            assert(all == prev.push(r));
            assert(r.y as nat == y);
            assert(is_pixel_object(img, r, skip_transparent, (x + 1) as nat, rows));
            assert forall|i: int| 0 <= i < all.len() implies {
                let q = #[trigger] all[i];
                q.x == x && is_pixel_object(img, q, skip_transparent, (x + 1) as nat, rows)
            } by {
                if i < prev.len() {
                    assert(all[i] == prev[i]);
                }
            }
            assert forall|i: int, j: int| 0 <= i < j < all.len() implies (#[trigger] all[i]).y < (
            #[trigger] all[j]).y by {
                assert(all[i] == prev[i]);
                if j < prev.len() {
                    assert(all[j] == prev[j]);
                }
            }
        } else {
            assert(all == prev);
        }
    }
}

proof fn lemma_basic(img: (u32, u32, Seq<u8>), skip_transparent: bool, cols: nat)
    requires
        cols <= u32::MAX,
    ensures
        forall|i: int|
            0 <= i < basic_spec(img, skip_transparent, cols).len() ==> is_pixel_object(
                img,
                #[trigger] basic_spec(img, skip_transparent, cols)[i],
                skip_transparent,
                cols,
                img.1 as nat,
            ),
        forall|i: int, j: int|
            0 <= i < j < basic_spec(img, skip_transparent, cols).len() ==> column_major_before(
                #[trigger] basic_spec(img, skip_transparent, cols)[i],
                #[trigger] basic_spec(img, skip_transparent, cols)[j],
            ),
        !skip_transparent ==> basic_spec(img, skip_transparent, cols).len() == cols * (img.1 as nat),
    decreases cols,
{
    if cols > 0 {
        let prev = basic_spec(img, skip_transparent, (cols - 1) as nat);
        let col = column_spec(img, (cols - 1) as u32, skip_transparent, img.1 as nat);
        let all = basic_spec(img, skip_transparent, cols);
        lemma_basic(img, skip_transparent, (cols - 1) as nat);
        lemma_column(img, (cols - 1) as u32, skip_transparent, img.1 as nat);
        assert(all == prev + col);
        assert forall|i: int| 0 <= i < all.len() implies is_pixel_object(
            img,
            #[trigger] all[i],
            skip_transparent,
            cols,
            img.1 as nat,
        ) by {
            if i < prev.len() {
                assert(all[i] == prev[i]);
            } else {
                assert(all[i] == col[i - prev.len()]);
            }
        }
        assert forall|i: int, j: int| 0 <= i < j < all.len() implies column_major_before(
            #[trigger] all[i],
            #[trigger] all[j],
        ) by {
            if j < prev.len() {
                assert(all[i] == prev[i]);
                assert(all[j] == prev[j]);
            } else if i >= prev.len() {
                assert(all[i] == col[i - prev.len()]);
                assert(all[j] == col[j - prev.len()]);
            } else {
                assert(all[i] == prev[i]);
                assert(all[j] == col[j - prev.len()]);
            }
        }
        if !skip_transparent {
            assert(cols * (img.1 as nat) == (cols - 1) * (img.1 as nat) + img.1 as nat)
                by (nonlinear_arith);
        }
    }
}

/// The basic mode emits, in column-major order (column by column, top to
/// bottom), one 1 x 1 object per kept pixel, painted in that pixel's RGB;
/// with transparent pixels not skipped, every pixel is emitted.
pub proof fn basic_mode_layout(img: (u32, u32, Seq<u8>), skip_transparent: bool)
    ensures
        forall|i: int|
            0 <= i < basic_spec(img, skip_transparent, img.0 as nat).len() ==> is_pixel_object(
                img,
                #[trigger] basic_spec(img, skip_transparent, img.0 as nat)[i],
                skip_transparent,
                img.0 as nat,
                img.1 as nat,
            ),
        forall|i: int, j: int|
            0 <= i < j < basic_spec(img, skip_transparent, img.0 as nat).len()
                ==> column_major_before(
                #[trigger] basic_spec(img, skip_transparent, img.0 as nat)[i],
                #[trigger] basic_spec(img, skip_transparent, img.0 as nat)[j],
            ),
        !skip_transparent ==> basic_spec(img, skip_transparent, img.0 as nat).len() == (img.0 as nat)
            * (img.1 as nat),
{
    lemma_basic(img, skip_transparent, img.0 as nat);
}

proof fn lemma_column_complete(
    img: (u32, u32, Seq<u8>),
    x: u32,
    skip_transparent: bool,
    rows: nat,
    y: nat,
)
    requires
        rows <= u32::MAX,
        y < rows,
        !skip_transparent || pixel_at(img, x as nat, y)[3] == 255,
    ensures
        column_spec(img, x, skip_transparent, rows).contains(
            BackgroundRect {
                x,
                y: y as u32,
                width: 1,
                height: 1,
                color: [
                    pixel_at(img, x as nat, y)[0],
                    pixel_at(img, x as nat, y)[1],
                    pixel_at(img, x as nat, y)[2],
                ],
            },
        ),
    decreases rows,
{
    let r = BackgroundRect {
        x,
        y: y as u32,
        width: 1,
        height: 1,
        color: [pixel_at(img, x as nat, y)[0], pixel_at(img, x as nat, y)[1], pixel_at(img, x as nat, y)[2]],
    };
    let last = (rows - 1) as nat;
    let prev = column_spec(img, x, skip_transparent, last);
    let all = column_spec(img, x, skip_transparent, rows);
    if y < last {
        lemma_column_complete(img, x, skip_transparent, last, y);
        let i = choose|i: int| 0 <= i < prev.len() && prev[i] == r;
        if keeps_pixel(img, x as nat, last, skip_transparent) {
            assert(all == prev.push(pixel_rect(img, x, last as u32)));
            assert(all[i] == r);
        } else {
            assert(all == prev);
        }
    } else {
        assert(keeps_pixel(img, x as nat, last, skip_transparent));
        assert(all == prev.push(pixel_rect(img, x, last as u32)));
        assert(all[all.len() - 1] == r);
    }
}

proof fn lemma_basic_complete(
    img: (u32, u32, Seq<u8>),
    skip_transparent: bool,
    cols: nat,
    x: u32,
    y: u32,
)
    requires
        cols <= u32::MAX,
        x < cols,
        y < img.1,
        !skip_transparent || pixel_at(img, x as nat, y as nat)[3] == 255,
    ensures
        basic_spec(img, skip_transparent, cols).contains(
            BackgroundRect {
                x,
                y,
                width: 1,
                height: 1,
                color: [
                    pixel_at(img, x as nat, y as nat)[0],
                    pixel_at(img, x as nat, y as nat)[1],
                    pixel_at(img, x as nat, y as nat)[2],
                ],
            },
        ),
    decreases cols,
{
    let r = BackgroundRect {
        x,
        y,
        width: 1,
        height: 1,
        color: [
            pixel_at(img, x as nat, y as nat)[0],
            pixel_at(img, x as nat, y as nat)[1],
            pixel_at(img, x as nat, y as nat)[2],
        ],
    };
    let prev = basic_spec(img, skip_transparent, (cols - 1) as nat);
    let col = column_spec(img, (cols - 1) as u32, skip_transparent, img.1 as nat);
    let all = basic_spec(img, skip_transparent, cols);
    assert(all == prev + col);
    if x < cols - 1 {
        lemma_basic_complete(img, skip_transparent, (cols - 1) as nat, x, y);
        let i = choose|i: int| 0 <= i < prev.len() && prev[i] == r;
        assert(all[i] == r);
    } else {
        lemma_column_complete(img, x, skip_transparent, img.1 as nat, y as nat);
        let j = choose|j: int| 0 <= j < col.len() && col[j] == r;
        assert(all[prev.len() + j] == r);
    }
}

/// The basic mode leaves no pixel out that it should keep: every pixel
/// (`x`, `y`) of the picture whose alpha is 255 (every pixel at all when
/// transparent pixels are not skipped) has, in the output, the 1 x 1 object at
/// (`x`, `y`) painted in that pixel's RGB.
pub proof fn basic_mode_is_complete(img: (u32, u32, Seq<u8>), skip_transparent: bool, x: u32, y: u32)
    requires
        x < img.0,
        y < img.1,
        !skip_transparent || pixel_at(img, x as nat, y as nat)[3] == 255,
    ensures
        basic_spec(img, skip_transparent, img.0 as nat).contains(
            BackgroundRect {
                x,
                y,
                width: 1,
                height: 1,
                color: [
                    pixel_at(img, x as nat, y as nat)[0],
                    pixel_at(img, x as nat, y as nat)[1],
                    pixel_at(img, x as nat, y as nat)[2],
                ],
            },
        ),
{
    lemma_basic_complete(img, skip_transparent, img.0 as nat, x, y);
}

/// Every object of the basic mode is the 1 x 1 object of a pixel of the
/// picture, painted in that pixel's RGB, and when transparent pixels are
/// skipped that pixel's alpha is 255. With `basic_mode_is_complete` and the
/// strict column-major order of `basic_mode_layout`, the objects are exactly
/// one per kept pixel.
pub proof fn basic_mode_is_sound(img: (u32, u32, Seq<u8>), skip_transparent: bool)
    ensures
        forall|i: int|
            0 <= i < basic_spec(img, skip_transparent, img.0 as nat).len() ==> {
                let r = #[trigger] basic_spec(img, skip_transparent, img.0 as nat)[i];
                let p = pixel_at(img, r.x as nat, r.y as nat);
                &&& r.x < img.0 && r.y < img.1
                &&& r.width == 1 && r.height == 1
                &&& r.color == [p[0], p[1], p[2]]
                &&& skip_transparent ==> p[3] == 255
            },
{
    lemma_basic(img, skip_transparent, img.0 as nat);
}

/// The objects for column `x` in the basic mode: one 1 x 1 object per pixel,
/// top to bottom, skipping pixels whose alpha is not 255 when asked to.
pub fn column_rects(image: &RgbaImage, x: u32, skip_transparent: bool) -> (res: Vec<BackgroundRect>)
    requires
        x < image@.0,
    ensures
        res@ == column_spec(image@, x, skip_transparent, image@.1 as nat),
{
    let height = image.height();
    let mut res: Vec<BackgroundRect> = Vec::new();
    for y in 0..height
        invariant
            height == image@.1,
            x < image@.0,
            res@ == column_spec(image@, x, skip_transparent, y as nat),
    {
        let pixel = image.get_pixel(x, y);
        let alpha = pixel[3];
        if !(skip_transparent && alpha != 255) {
            res.push(
                BackgroundRect { x, y, width: 1, height: 1, color: [pixel[0], pixel[1], pixel[2]] },
            );
            assert(res@[res@.len() - 1] == pixel_rect(image@, x, y));
        }
    }
    res
}

/// All objects of the basic mode, column by column (column-major order).
pub fn basic_rects(image: &RgbaImage, skip_transparent: bool) -> (res: Vec<BackgroundRect>)
    ensures
        res@ == basic_spec(image@, skip_transparent, image@.0 as nat),
{
    let width = image.width();
    let mut res: Vec<BackgroundRect> = Vec::new();
    for x in 0..width
        invariant
            width == image@.0,
            res@ == basic_spec(image@, skip_transparent, x as nat),
    {
        let mut column = column_rects(image, x, skip_transparent);
        res.append(&mut column);
    }
    res
}

/// The groups of the vertical and two-dimensional modes, which emit no
/// object yet.
pub fn write_grouped(image: &RgbaImage, skip_transparent: bool, option: InsertOption) -> (res: Vec<
    BackgroundRect,
>)
    ensures
        res@.len() == 0,
{
    Vec::new()
}

/// The rows of the horizontal mode, which emits no object yet.
pub fn write_horizontal(image: &RgbaImage, skip_transparent: bool) -> (res: Vec<BackgroundRect>)
    ensures
        res@.len() == 0,
{
    Vec::new()
}

/// The layers of the two-dimensional multilayer mode, which emits no object
/// yet.
pub fn write_xx_alt(image: &RgbaImage, skip_transparent: bool) -> (res: Vec<BackgroundRect>)
    ensures
        res@.len() == 0,
{
    Vec::new()
}

/// The objects an insert mode emits: the basic mode's pixels, and nothing
/// yet for the other modes.
pub fn mode_rects(image: &RgbaImage, skip_transparent: bool, option: InsertOption) -> (res: Vec<
    BackgroundRect,
>)
    ensures
        option == InsertOption::Basic ==> res@ == basic_spec(
            image@,
            skip_transparent,
            image@.0 as nat,
        ),
        option != InsertOption::Basic ==> res@.len() == 0,
{
    match option {
        InsertOption::Basic => basic_rects(image, skip_transparent),
        InsertOption::Vertical | InsertOption::TwoDimensional
        | InsertOption::MultilayerOneDimensional => write_grouped(image, skip_transparent, option),
        InsertOption::Horizontal => write_horizontal(image, skip_transparent),
        InsertOption::MultilayerTwoDimensional => write_xx_alt(image, skip_transparent),
    }
}

/// The run starting at (`x`, `y`) that the vertical mode groups: for now
/// always the single pixel, as (width, height).
pub fn vertical_run<F: Fn(u32, u32) -> [u8; 4]>(
    x: u32,
    y: u32,
    width: u32,
    height: u32,
    color: [u8; 4],
    covered: &[bool],
    color_at: &F,
) -> (res: (u32, u32))
    ensures
        res == (1u32, 1u32),
{
    (1, 1)
}

/// The run starting at (`x`, `y`) that the horizontal mode groups: for now
/// always the single pixel, as (width, height).
pub fn horizontal_run<F: Fn(u32, u32) -> [u8; 4]>(
    x: u32,
    y: u32,
    width: u32,
    color: [u8; 4],
    covered: &[bool],
    color_at: &F,
) -> (res: (u32, u32))
    ensures
        res == (1u32, 1u32),
{
    (1, 1)
}

/// The one-dimensional multilayer group at (`x`, `y`): for now empty, as
/// (width, height).
pub fn execute_xx<F: Fn(u32, u32) -> [u8; 4]>(
    x: u32,
    y: u32,
    width: u32,
    height: u32,
    color: [u8; 4],
    covered: &[bool],
    color_at: &F,
) -> (res: (u32, u32))
    ensures
        res == (0u32, 0u32),
{
    (0, 0)
}

/// The longest one-dimensional run at (`x`, `y`): for now always the single
/// pixel, as (width, height).
pub fn longest_one_dimensional_run<F: Fn(u32, u32) -> [u8; 4]>(
    x: u32,
    y: u32,
    width: u32,
    height: u32,
    color: [u8; 4],
    covered: &[bool],
    color_at: &F,
) -> (res: (u32, u32))
    ensures
        res == (1u32, 1u32),
{
    (1, 1)
}

/// The colour written for a rectangle: material 3 takes the RGB as it is,
/// every other material half of it, since PB2 doubles their brightness.
pub open spec fn rect_color_spec(color: [u8; 3], is_material_3: bool) -> [u8; 3] {
    if is_material_3 {
        color
    } else {
        [color[0] / 2, color[1] / 2, color[2] / 2]
    }
}

/// The colour written for a rectangle.
pub fn rect_color(color: [u8; 3], is_material_3: bool) -> (res: [u8; 3])
    ensures
        res == rect_color_spec(color, is_material_3),
{
    if is_material_3 {
        color
    } else {
        [color[0] / 2, color[1] / 2, color[2] / 2]
    }
}

/// Material 3 keeps the RGB; every other material writes each channel as
/// the largest value whose double does not exceed it.
pub proof fn rect_color_halves(color: [u8; 3], is_material_3: bool)
    ensures
        forall|c: int|
            0 <= c < 3 ==> if is_material_3 {
                #[trigger] rect_color_spec(color, is_material_3)[c] == color[c]
            } else {
                2 * (#[trigger] rect_color_spec(color, is_material_3)[c]) <= color[c] < 2
                    * rect_color_spec(color, is_material_3)[c] + 2
            },
{
}

/// The text of a rectangle's position and size, rendered by the caller.
pub struct RectPlacement {
    pub x: String,
    pub y: String,
    pub w: String,
    pub h: String,
}

/// What every object of one conversion shares.
pub struct RectStyle {
    /// The material value, escaped for XML.
    pub material_xml: String,
    /// Whether the material is 3, whose colours are written unhalved.
    pub is_material_3: bool,
    /// ` a="..."` naming the object to attach to, or empty.
    pub attach_xml: String,
    /// The rendered horizontal offset.
    pub x_offset: String,
    /// The rendered vertical offset.
    pub y_offset: String,
    pub draw_in_front: bool,
    pub spawn_shadows: bool,
}

/// `"0"` or `"1"` for a flag written as a number.
pub open spec fn flag_digit(b: bool) -> Seq<char> {
    if b {
        "1"@
    } else {
        "0"@
    }
}

/// `"true"` or `"false"`.
pub open spec fn flag_word(b: bool) -> Seq<char> {
    if b {
        "true"@
    } else {
        "false"@
    }
}

/// One `<bg .../>` line:
/// `<bg x="X" y="Y" w="W" h="H" m="M" c="#RRGGBB"[ a="A"] u="U" v="V" f="0|1" s="true|false" />`
/// followed by a newline.
pub open spec fn bg_element_spec(
    place: (Seq<char>, Seq<char>, Seq<char>, Seq<char>),
    color: [u8; 3],
    material_xml: Seq<char>,
    attach_xml: Seq<char>,
    offsets: (Seq<char>, Seq<char>),
    draw_in_front: bool,
    spawn_shadows: bool,
) -> Seq<char> {
    "<bg x=\""@ + place.0 + "\" y=\""@ + place.1 + "\" w=\""@ + place.2 + "\" h=\""@ + place.3
        + "\" m=\""@ + material_xml + "\" c=\"#"@ + hex_byte(color[0]) + hex_byte(color[1])
        + hex_byte(color[2]) + "\""@ + attach_xml + " u=\""@ + offsets.0 + "\""@ + " v=\""@
        + offsets.1 + "\""@ + " f=\""@ + flag_digit(draw_in_front) + "\""@ + " s=\""@
        + flag_word(spawn_shadows) + "\""@ + " />"@ + "\n"@
}

/// The line written for one rectangle.
pub open spec fn rect_line_spec(place: RectPlacement, color: [u8; 3], style: RectStyle) -> Seq<char> {
    bg_element_spec(
        (place.x@, place.y@, place.w@, place.h@),
        rect_color_spec(color, style.is_material_3),
        style.material_xml@,
        style.attach_xml@,
        (style.x_offset@, style.y_offset@),
        style.draw_in_front,
        style.spawn_shadows,
    )
}

/// The `<bg>` line for one rectangle with the given rendered placement.
pub fn rect_line(place: &RectPlacement, color: [u8; 3], style: &RectStyle) -> (res: String)
    ensures
        res@ == rect_line_spec(*place, color, *style),
{
    let c = rect_color(color, style.is_material_3);
    let mut s = String::from_str("<bg x=\"");
    s.append(place.x.as_str());
    s.append("\" y=\"");
    s.append(place.y.as_str());
    s.append("\" w=\"");
    s.append(place.w.as_str());
    s.append("\" h=\"");
    s.append(place.h.as_str());
    s.append("\" m=\"");
    s.append(style.material_xml.as_str());
    s.append("\" c=\"#");
    push_hex_byte(&mut s, c[0]);
    push_hex_byte(&mut s, c[1]);
    push_hex_byte(&mut s, c[2]);
    s.append("\"");
    s.append(style.attach_xml.as_str());
    s.append(" u=\"");
    s.append(style.x_offset.as_str());
    s.append("\"");
    s.append(" v=\"");
    s.append(style.y_offset.as_str());
    s.append("\"");
    s.append(" f=\"");
    if style.draw_in_front {
        s.append("1");
    } else {
        s.append("0");
    }
    s.append("\"");
    s.append(" s=\"");
    if style.spawn_shadows {
        s.append("true");
    } else {
        s.append("false");
    }
    s.append("\"");
    s.append(" />");
    s.append("\n");
    s
}

/// The layout of a rectangle's line: `x`, `y`, `w` and `h` carry the
/// rendered placement in that order (`w` the width, `h` the height), then the
/// material, the colour as `#` and three pairs of hexadecimal digits (halved
/// except for material 3), the attach attribute, the offsets `u` and `v`,
/// `f` as 1 or 0 for drawing in front, `s` as true or false for shadows.
pub proof fn rect_line_layout(place: RectPlacement, color: [u8; 3], style: RectStyle)
    ensures
        ({
            let c = if style.is_material_3 {
                color
            } else {
                [color[0] / 2, color[1] / 2, color[2] / 2]
            };
            rect_line_spec(place, color, style) == "<bg x=\""@ + place.x@ + "\" y=\""@ + place.y@
                + "\" w=\""@ + place.w@ + "\" h=\""@ + place.h@ + "\" m=\""@ + style.material_xml@
                + "\" c=\"#"@ + hex_byte(c[0]) + hex_byte(c[1]) + hex_byte(c[2]) + "\""@
                + style.attach_xml@ + " u=\""@ + style.x_offset@ + "\""@ + " v=\""@ + style.y_offset@
                + "\""@ + " f=\""@ + (if style.draw_in_front {
                "1"@
            } else {
                "0"@
            }) + "\""@ + " s=\""@ + (if style.spawn_shadows {
                "true"@
            } else {
                "false"@
            }) + "\""@ + " />"@ + "\n"@
        }),
{
}

/// The attribute naming the object to attach to: empty when the field is
/// blank, else ` a="..."` with the trimmed, escaped name.
pub open spec fn attach_attribute_spec(attach_to: Seq<char>) -> Seq<char> {
    let t = trim_spec(attach_to);
    if t.len() == 0 {
        Seq::empty()
    } else {
        " a=\""@ + xml_escape_spec(t) + "\""@
    }
}

/// The attribute naming the object to attach to.
pub fn attach_attribute(attach_to: &str) -> (res: String)
    ensures
        res@ == attach_attribute_spec(attach_to@),
{
    let t = trim(attach_to);
    if t.unicode_len() == 0 {
        return String::new();
    }
    let mut s = String::from_str(" a=\"");
    let escaped = xml_escape(t);
    s.append(escaped.as_str());
    s.append("\"");
    s
}

/// The material part of the settings: the escaped material value and
/// whether it is material 3.
pub open spec fn material_settings_spec(background: Seq<char>) -> Result<(Seq<char>, bool), Seq<char>> {
    match parse_material_spec(background) {
        Ok(m) => Ok((xml_escape_spec(m), m == "3"@)),
        Err(e) => Err(e),
    }
}

/// Checks the background field and gives the material as written into the
/// XML, and whether it is material 3.
pub fn material_settings(background: &str) -> (res: Result<(String, bool), String>)
    ensures
        match (res, material_settings_spec(background@)) {
            (Ok((m, three)), Ok((n, t))) => m@ == n && three == t,
            (Err(e), Err(f)) => e@ == f,
            _ => false,
        },
{
    match parse_material(background) {
        Ok(m) => {
            let three = crate::material::str_equal(m.as_str(), "3");
            Ok((xml_escape(m.as_str()), three))
        },
        Err(e) => Err(e),
    }
}

} // verus!
