//! Pictures: palettes, colours and the composition of display sets.
//!
//! Palette colours are BT.709 in studio range: luminance from 16 to 235, the
//! colour differences from 16 to 240 around 128. They become full-range red,
//! green and blue.
use vstd::prelude::*;

use crate::bdmv::pgs::display_set::{
    joining_refusal, object_models, objects_of, pds_models, DisplaySet, DisplaySetModel,
    ObjectModel,
};
use crate::bdmv::pgs::rle::{decoded_pixels, rle_refusal, DecodedObject};
use crate::bdmv::pgs::segment::{CompositionObject, PaletteEntry, Pds, PdsModel};
use crate::error::BlurayError;

verus! {

/// A pixel: red, green, blue, opacity.
#[derive(Debug, Clone, Copy, PartialEq, Eq, Structural)]
pub struct Rgba8 {
    pub r: u8,
    pub g: u8,
    pub b: u8,
    pub a: u8,
}

impl Default for Rgba8 {
    fn default() -> (r: Self)
        ensures
            r == Rgba8::clear(),
    {
        Rgba8::transparent()
    }
}

impl Rgba8 {
    pub open spec fn clear() -> Rgba8 {
        Rgba8 { r: 0, g: 0, b: 0, a: 0 }
    }

    /// All channels 0.
    pub fn transparent() -> (x: Self)
        ensures
            x == Self::clear(),
    {
        Rgba8 { r: 0, g: 0, b: 0, a: 0 }
    }

    /// The channels in order.
    pub fn to_array(self) -> (x: [u8; 4])
        ensures
            x@ == seq![self.r, self.g, self.b, self.a],
    {
        let x = [self.r, self.g, self.b, self.a];
        assert(x@ =~= seq![self.r, self.g, self.b, self.a]);
        x
    }
}

// ---------------------------------------------------------------------
// Colours
// ---------------------------------------------------------------------

/// `num / den` as a channel: rounded to the nearest whole number, halves up,
/// and kept within 0 and 255.
pub open spec fn channel(num: int, den: int) -> u8 {
    if num <= 0 {
        0
    } else if num >= 255 * den {
        255
    } else {
        ((2 * num + den) / (2 * den)) as u8
    }
}

/// 219 * 224 * 10000: the common denominator of the two ranges and of the
/// coefficients, which have four decimals.
pub const COLOR_DENOMINATOR: i64 = 490_560_000;

/// Red: `255 * ((y - 16) / 219 + 1.5748 * (cr - 128) / 224)`.
pub open spec fn red_of(y: u8, cr: u8) -> u8 {
    channel(255 * (2_240_000 * (y - 16) + 219 * 15748 * (cr - 128)), COLOR_DENOMINATOR as int)
}

/// Green: `255 * ((y - 16) / 219 - (0.1873 * (cb - 128) + 0.4681 * (cr - 128))
/// / 224)`.
pub open spec fn green_of(y: u8, cb: u8, cr: u8) -> u8 {
    channel(
        255 * (2_240_000 * (y - 16) - 219 * 1873 * (cb - 128) - 219 * 4681 * (cr - 128)),
        COLOR_DENOMINATOR as int,
    )
}

/// Blue: `255 * ((y - 16) / 219 + 1.8556 * (cb - 128) / 224)`.
pub open spec fn blue_of(y: u8, cb: u8) -> u8 {
    channel(255 * (2_240_000 * (y - 16) + 219 * 18556 * (cb - 128)), COLOR_DENOMINATOR as int)
}

fn channel_of(num: i64) -> (r: u8)
    requires
        -0x1000_0000_0000 < num < 0x1000_0000_0000,
    ensures
        r == channel(num as int, COLOR_DENOMINATOR as int),
{
    if num <= 0 {
        0
    } else if num >= 255 * COLOR_DENOMINATOR {
        255
    } else {
        let den: u64 = COLOR_DENOMINATOR as u64;
        let v: u64 = (2 * (num as u64) + den) / (2 * den);
        v as u8
    }
}

/// Red, green and blue of a studio-range colour.
pub fn ycbcr709_to_rgb(y: u8, cb: u8, cr: u8) -> (r: (u8, u8, u8))
    ensures
        r == (red_of(y, cr), green_of(y, cb, cr), blue_of(y, cb)),
{
    let luma: i64 = 2_240_000 * (y as i64 - 16);
    let blue: i64 = cb as i64 - 128;
    let red: i64 = cr as i64 - 128;
    let r: u8 = channel_of(255 * (luma + 3_448_812 * red));
    let g: u8 = channel_of(255 * (luma - 410_187 * blue - 1_025_139 * red));
    let b: u8 = channel_of(255 * (luma + 4_063_764 * blue));
    (r, g, b)
}

/// The pixel that a palette entry stands for.
pub open spec fn entry_color(e: PaletteEntry) -> Rgba8 {
    Rgba8 {
        r: red_of(e.y, e.cr),
        g: green_of(e.y, e.cb, e.cr),
        b: blue_of(e.y, e.cb),
        a: e.alpha,
    }
}

impl PaletteEntry {
    /// The pixel that this entry stands for. The opacity stays as it is.
    pub fn to_rgba(&self) -> (p: Rgba8)
        ensures
            p == entry_color(*self),
    {
        let (r, g, b) = ycbcr709_to_rgb(self.y, self.cb, self.cr);
        Rgba8 { r, g, b, a: self.alpha }
    }
}

// ---------------------------------------------------------------------
// Palettes
// ---------------------------------------------------------------------

/// A table of 256 colours.
#[derive(Debug, Clone, PartialEq, Eq)]
pub struct Palette {
    pub entries: [Rgba8; 256],
}

/// The table of transparent pixels.
pub open spec fn transparent_table() -> Seq<Rgba8> {
    Seq::new(256, |i: int| Rgba8::clear())
}

/// A table after the first `n` entries have been written into it, one after
/// the other.
pub open spec fn written(table: Seq<Rgba8>, entries: Seq<PaletteEntry>, n: nat) -> Seq<Rgba8>
    decreases n,
{
    if n == 0 {
        table
    } else {
        let e = entries[n - 1];
        written(table, entries, (n - 1) as nat).update(e.palette_entry_id as int, entry_color(e))
    }
}

/// A table after a palette definition.
pub open spec fn applied(table: Seq<Rgba8>, pds: PdsModel) -> Seq<Rgba8> {
    written(table, pds.entries, pds.entries.len())
}

/// The table after the first `n` definitions.
pub open spec fn all_applied(palettes: Seq<PdsModel>, n: nat) -> Seq<Rgba8>
    decreases n,
{
    if n == 0 {
        transparent_table()
    } else {
        applied(all_applied(palettes, (n - 1) as nat), palettes[n - 1])
    }
}

/// The table after those of the first `n` definitions that have a number.
pub open spec fn numbered_applied(palettes: Seq<PdsModel>, id: u8, n: nat) -> Seq<Rgba8>
    decreases n,
{
    if n == 0 {
        transparent_table()
    } else if palettes[n - 1].palette_id == id {
        applied(numbered_applied(palettes, id, (n - 1) as nat), palettes[n - 1])
    } else {
        numbered_applied(palettes, id, (n - 1) as nat)
    }
}

impl Default for Palette {
    fn default() -> (r: Self)
        ensures
            r.entries@ == transparent_table(),
    {
        Palette::new()
    }
}

impl Palette {
    /// All colours transparent.
    pub fn new() -> (r: Self)
        ensures
            r.entries@ == transparent_table(),
    {
        let r = Palette { entries: [Rgba8::transparent(); 256] };
        assert(r.entries@ =~= transparent_table());
        r
    }

    /// The colour at an index.
    pub fn get(&self, index: u8) -> (r: Rgba8)
        ensures
            r == self.entries@[index as int],
    {
        self.entries[index as usize]
    }

    /// Write the entries of a definition; other colours stay as they are.
    pub fn apply(&mut self, pds: &Pds)
        ensures
            final(self).entries@ == applied(old(self).entries@, pds@),
    {
        let mut i: usize = 0;
        while i < pds.entries.len()
            invariant
                i <= pds.entries@.len(),
                self.entries@ == written(old(self).entries@, pds.entries@, i as nat),
            decreases pds.entries@.len() - i,
        {
            let e = &pds.entries[i];
            self.entries[e.palette_entry_id as usize] = e.to_rgba();
            i += 1;
        }
    }

    /// The table of definitions written one after the other.
    pub fn from_palettes(palettes: &[Pds]) -> (r: Self)
        ensures
            r.entries@ == all_applied(pds_models(palettes@), palettes@.len()),
    {
        let mut p = Palette::new();
        let mut i: usize = 0;
        while i < palettes.len()
            invariant
                i <= palettes@.len(),
                p.entries@ == all_applied(pds_models(palettes@), i as nat),
            decreases palettes@.len() - i,
        {
            p.apply(&palettes[i]);
            i += 1;
        }
        p
    }

    /// The table of the definitions with a number; all transparent where there
    /// is none.
    pub fn from_palettes_with_id(palettes: &[Pds], palette_id: u8) -> (r: Self)
        ensures
            r.entries@ == numbered_applied(pds_models(palettes@), palette_id, palettes@.len()),
    {
        let mut p = Palette::new();
        let mut i: usize = 0;
        while i < palettes.len()
            invariant
                i <= palettes@.len(),
                p.entries@ == numbered_applied(pds_models(palettes@), palette_id, i as nat),
            decreases palettes@.len() - i,
        {
            if palettes[i].palette_id == palette_id {
                p.apply(&palettes[i]);
            }
            i += 1;
        }
        p
    }
}

// ---------------------------------------------------------------------
// Images
// ---------------------------------------------------------------------

/// A picture, row by row from the top left.
#[derive(Debug, Clone, PartialEq, Eq)]
pub struct RgbaImage {
    pub width: u16,
    pub height: u16,
    pub pixels: Vec<Rgba8>,
}

/// Model of [`RgbaImage`].
#[verifier::ext_equal]
pub struct ImageModel {
    pub width: u16,
    pub height: u16,
    pub pixels: Seq<Rgba8>,
}

impl ImageModel {
    /// There is a pixel for every place.
    pub open spec fn wf(self) -> bool {
        self.pixels.len() == self.width * self.height
    }

    pub open spec fn has(self, x: int, y: int) -> bool {
        0 <= x < self.width && 0 <= y < self.height
    }

    /// The pixel at column `x` of row `y`.
    pub open spec fn at(self, x: int, y: int) -> Rgba8 {
        self.pixels[y * self.width + x]
    }
}

impl View for RgbaImage {
    type V = ImageModel;

    open spec fn view(&self) -> ImageModel {
        ImageModel { width: self.width, height: self.height, pixels: self.pixels@ }
    }
}

/// The bytes of the first `n` pixels.
pub open spec fn pixel_bytes(pixels: Seq<Rgba8>, n: nat) -> Seq<u8>
    decreases n,
{
    if n == 0 {
        Seq::empty()
    } else {
        let p = pixels[n - 1];
        pixel_bytes(pixels, (n - 1) as nat) + seq![p.r, p.g, p.b, p.a]
    }
}

/// The picture of transparent pixels.
pub open spec fn transparent_image(width: u16, height: u16) -> ImageModel {
    ImageModel {
        width,
        height,
        pixels: Seq::new((width * height) as nat, |i: int| Rgba8::clear()),
    }
}

/// The place of a pixel is within the picture.
proof fn lemma_place(width: int, height: int, x: int, y: int)
    requires
        0 <= x < width,
        0 <= y < height,
    ensures
        0 <= y * width + x < width * height,
        (y * width + x) % width == x,
        (y * width + x) / width == y,
{
    assert(y * width + x < width * height && 0 <= y * width) by (nonlinear_arith)
        requires
            0 <= x < width,
            0 <= y < height,
    ;
    vstd::arithmetic::div_mod::lemma_fundamental_div_mod_converse(y * width + x, width, y, x);
}

/// Two places are the same only where row and column are.
proof fn lemma_same_place(width: int, x: int, y: int, u: int, v: int)
    requires
        0 <= x < width,
        0 <= u < width,
        y * width + x == v * width + u,
    ensures
        x == u,
        y == v,
{
    vstd::arithmetic::div_mod::lemma_fundamental_div_mod_converse(y * width + x, width, y, x);
    vstd::arithmetic::div_mod::lemma_fundamental_div_mod_converse(v * width + u, width, v, u);
}

impl RgbaImage {
    /// A picture of transparent pixels.
    pub fn transparent(width: u16, height: u16) -> (r: Self)
        ensures
            r@ == transparent_image(width, height),
            r@.wf(),
    {
        assert(0 <= width * height <= 0xFFFF * 0xFFFF) by (nonlinear_arith)
            requires
                0 <= width <= 0xFFFF,
                0 <= height <= 0xFFFF,
        ;
        let n: u64 = width as u64 * height as u64;
        let mut pixels: Vec<Rgba8> = Vec::new();
        let mut i: u64 = 0;
        while i < n
            invariant
                i <= n,
                n == width * height,
                pixels@ == Seq::new(i as nat, |k: int| Rgba8::clear()),
            decreases n - i,
        {
            pixels.push(Rgba8::transparent());
            i += 1;
            assert(pixels@ =~= Seq::new(i as nat, |k: int| Rgba8::clear()));
        }
        RgbaImage { width, height, pixels }
    }

    /// The pixel at column `x` of row `y`, or `None` outside the picture.
    pub fn pixel(&self, x: u16, y: u16) -> (r: Option<Rgba8>)
        requires
            self@.has(x as int, y as int) ==> y * self.width + x < self.pixels@.len(),
        ensures
            r == (if self@.has(x as int, y as int) {
                Some(self@.at(x as int, y as int))
            } else {
                None
            }),
    {
        if x >= self.width || y >= self.height {
            return None;
        }
        let n: usize = self.pixels.len();
        proof {
            assert(0 <= y * self.width <= n) by (nonlinear_arith)
                requires
                    y * self.width + x < n,
                    x >= 0,
                    y >= 0,
                    self.width >= 0,
            ;
        }
        Some(self.pixels[y as usize * self.width as usize + x as usize])
    }

    /// The pixels in bytes, four for each.
    pub fn to_rgba_bytes(&self) -> (out: Vec<u8>)
        ensures
            out@ == pixel_bytes(self.pixels@, self.pixels@.len()),
    {
        let mut out: Vec<u8> = Vec::new();
        let mut i: usize = 0;
        while i < self.pixels.len()
            invariant
                i <= self.pixels@.len(),
                out@ == pixel_bytes(self.pixels@, i as nat),
            decreases self.pixels@.len() - i,
        {
            let p = self.pixels[i];
            out.push(p.r);
            out.push(p.g);
            out.push(p.b);
            out.push(p.a);
            i += 1;
            assert(out@ =~= pixel_bytes(self.pixels@, i as nat));
        }
        out
    }
}

/// Palette indices looked up in a table.
pub open spec fn looked_up(indices: Seq<u8>, table: Seq<Rgba8>) -> Seq<Rgba8> {
    Seq::new(indices.len(), |i: int| table[indices[i] as int])
}

impl DecodedObject {
    /// This bitmap in colours.
    pub fn to_rgba(&self, palette: &Palette) -> (r: RgbaImage)
        ensures
            r.width == self.width,
            r.height == self.height,
            r.pixels@ == looked_up(self.pixels@, palette.entries@),
    {
        let mut pixels: Vec<Rgba8> = Vec::new();
        let mut i: usize = 0;
        while i < self.pixels.len()
            invariant
                i <= self.pixels@.len(),
                pixels@ == looked_up(self.pixels@, palette.entries@).take(i as int),
            decreases self.pixels@.len() - i,
        {
            pixels.push(palette.get(self.pixels[i]));
            i += 1;
            assert(pixels@ =~= looked_up(self.pixels@, palette.entries@).take(i as int));
        }
        assert(pixels@ =~= looked_up(self.pixels@, palette.entries@));
        RgbaImage { width: self.width, height: self.height, pixels }
    }
}

// ---------------------------------------------------------------------
// Copying a rectangle
// ---------------------------------------------------------------------

/// A rectangle of one picture and the place in another where it goes.
#[derive(Debug, Clone, Copy, PartialEq, Eq, Structural)]
pub struct BlitArea {
    pub dst_x: u16,
    pub dst_y: u16,
    pub src_x: u16,
    pub src_y: u16,
    pub width: u16,
    pub height: u16,
}

/// Whether a pixel of the target gets its value from the source: it lies in
/// the rectangle, and so does its origin in the source.
pub open spec fn covered(src: ImageModel, a: BlitArea, x: int, y: int) -> bool {
    &&& a.dst_x <= x < a.dst_x + a.width
    &&& a.dst_y <= y < a.dst_y + a.height
    &&& src.has(a.src_x + (x - a.dst_x), a.src_y + (y - a.dst_y))
}

/// The target with the rectangle copied into it. What falls outside either
/// picture is left out.
pub open spec fn blitted(dst: ImageModel, src: ImageModel, a: BlitArea) -> ImageModel {
    ImageModel {
        pixels: Seq::new(
            dst.pixels.len(),
            |i: int|
                {
                    let x = i % (dst.width as int);
                    let y = i / (dst.width as int);
                    if covered(src, a, x, y) {
                        src.at(a.src_x + (x - a.dst_x), a.src_y + (y - a.dst_y))
                    } else {
                        dst.pixels[i]
                    }
                },
        ),
        ..dst
    }
}

/// A target where the first `rows` rows of the rectangle are copied, and of
/// the next row the first `cols` pixels.
spec fn partly(
    now: ImageModel,
    dst: ImageModel,
    src: ImageModel,
    a: BlitArea,
    rows: int,
    cols: int,
) -> bool {
    &&& now.width == dst.width
    &&& now.height == dst.height
    &&& now.pixels.len() == dst.pixels.len()
    &&& forall|x: int, y: int|
        #![trigger now.at(x, y)]
        dst.has(x, y) ==> now.at(x, y) == if covered(src, a, x, y) && (y - a.dst_y < rows || (y
            - a.dst_y == rows && x - a.dst_x < cols)) {
            src.at(a.src_x + (x - a.dst_x), a.src_y + (y - a.dst_y))
        } else {
            dst.at(x, y)
        }
}

proof fn lemma_partly_set(
    now: ImageModel,
    dst: ImageModel,
    src: ImageModel,
    a: BlitArea,
    rows: int,
    cols: int,
    v: Rgba8,
)
    requires
        partly(now, dst, src, a, rows, cols),
        dst.wf(),
        dst.has(a.dst_x + cols, a.dst_y + rows),
        0 <= rows < a.height,
        0 <= cols < a.width,
        src.has(a.src_x + cols, a.src_y + rows),
        v == src.at(a.src_x + cols, a.src_y + rows),
    ensures
        partly(
            ImageModel {
                pixels: now.pixels.update((a.dst_y + rows) * dst.width + (a.dst_x + cols), v),
                ..now
            },
            dst,
            src,
            a,
            rows,
            cols + 1,
        ),
{
    let w = dst.width as int;
    let dx = a.dst_x + cols;
    let dy = a.dst_y + rows;
    let next = ImageModel { pixels: now.pixels.update(dy * w + dx, v), ..now };
    lemma_place(w, dst.height as int, dx, dy);
    assert forall|x: int, y: int|
        #![trigger next.at(x, y)]
        dst.has(x, y) implies next.at(x, y) == if covered(src, a, x, y) && (y - a.dst_y < rows || (y
        - a.dst_y == rows && x - a.dst_x < cols + 1)) {
        src.at(a.src_x + (x - a.dst_x), a.src_y + (y - a.dst_y))
    } else {
        dst.at(x, y)
    } by {
        lemma_place(w, dst.height as int, x, y);
        if y * w + x == dy * w + dx {
            lemma_same_place(w, x, y, dx, dy);
        } else {
            assert(next.at(x, y) == now.at(x, y));
        }
    }
}

proof fn lemma_partly_done(now: ImageModel, dst: ImageModel, src: ImageModel, a: BlitArea)
    requires
        partly(now, dst, src, a, a.height as int, 0),
        dst.wf(),
    ensures
        now == blitted(dst, src, a),
{
    let w = dst.width as int;
    let want = blitted(dst, src, a);
    assert forall|i: int| 0 <= i < dst.pixels.len() implies #[trigger] now.pixels[i]
        == want.pixels[i] by {
        let h = dst.height as int;
        assert(w > 0 && i < h * w) by (nonlinear_arith)
            requires
                0 <= i < w * h,
                0 <= w,
                0 <= h,
        ;
        let x = i % w;
        let y = i / w;
        vstd::arithmetic::div_mod::lemma_fundamental_div_mod(i, w);
        vstd::arithmetic::div_mod::lemma_div_pos_is_pos(i, w);
        vstd::arithmetic::div_mod::lemma_multiply_divide_lt(i, w, h);
        assert(w * (i / w) == (i / w) * w) by (nonlinear_arith);
        assert(dst.has(x, y));
        assert(now.at(x, y) == now.pixels[i]);
    }
    assert(now.pixels =~= want.pixels);
}

/// Copy a rectangle of `src` into `dst`. What falls outside either picture is
/// left out.
#[verifier::loop_isolation(false)]
pub fn blit(dst: &mut RgbaImage, src: &RgbaImage, a: BlitArea)
    requires
        old(dst)@.wf(),
        src@.wf(),
    ensures
        final(dst)@ == blitted(old(dst)@, src@, a),
        final(dst)@.wf(),
{
    let ghost from = dst@;
    let mut row: u16 = 0;
    while row < a.height
        invariant
            row <= a.height,
            partly(dst@, from, src@, a, row as int, 0),
        decreases a.height - row,
    {
        let sy: u32 = a.src_y as u32 + row as u32;
        let dy: u32 = a.dst_y as u32 + row as u32;
        if sy < src.height as u32 && dy < dst.height as u32 {
            let mut col: u16 = 0;
            while col < a.width
                invariant
                    col <= a.width,
                    partly(dst@, from, src@, a, row as int, col as int),
                decreases a.width - col,
            {
                let sx: u32 = a.src_x as u32 + col as u32;
                let dx: u32 = a.dst_x as u32 + col as u32;
                if sx < src.width as u32 && dx < dst.width as u32 {
                    proof {
                        lemma_place(
                            src.width as int,
                            src.height as int,
                            sx as int,
                            sy as int,
                        );
                        lemma_place(
                            from.width as int,
                            from.height as int,
                            dx as int,
                            dy as int,
                        );
                        assert(0 <= sy * src.width && 0 <= dy * from.width) by (nonlinear_arith)
                            requires
                                sy >= 0,
                                dy >= 0,
                                src.width >= 0,
                                from.width >= 0,
                        ;
                    }
                    let n: usize = src.pixels.len();
                    let m: usize = dst.pixels.len();
                    assert(sy * src.width + sx < n);
                    assert(dy * from.width + dx < m);
                    let sp = src.pixels[sy as usize * src.width as usize + sx as usize];
                    let at: usize = dy as usize * dst.width as usize + dx as usize;
                    proof {
                        lemma_partly_set(dst@, from, src@, a, row as int, col as int, sp);
                    }
                    dst.pixels.set(at, sp);
                }
                col += 1;
            }
        }
        row += 1;
    }
    proof {
        lemma_partly_done(dst@, from, src@, a);
    }
}

// ---------------------------------------------------------------------
// Composing a display set
// ---------------------------------------------------------------------

/// A composed display set: the screen, and when it is shown.
#[derive(Debug, Clone, PartialEq, Eq)]
pub struct RenderedDisplaySet {
    pub plane: RgbaImage,
    /// Presentation time, 90 kHz.
    pub pts: u32,
}

/// An object in colours, or `None` where its bitmap is broken.
pub open spec fn object_image(o: ObjectModel, table: Seq<Rgba8>) -> Option<ImageModel> {
    match decoded_pixels(o.rle_data, o.width as nat, o.height as nat) {
        None => None,
        Some(pixels) => Some(
            ImageModel { width: o.width, height: o.height, pixels: looked_up(pixels, table) },
        ),
    }
}

/// The first `n` objects in colours, or `None` where one is broken.
pub open spec fn object_images(objects: Seq<ObjectModel>, table: Seq<Rgba8>, n: nat) -> Option<
    Seq<ImageModel>,
>
    decreases n,
{
    if n == 0 {
        Some(Seq::empty())
    } else {
        match object_images(objects, table, (n - 1) as nat) {
            None => None,
            Some(images) => match object_image(objects[n - 1], table) {
                None => None,
                Some(image) => Some(images.push(image)),
            },
        }
    }
}

/// Whether `k` is the first object with a number.
pub open spec fn is_object(objects: Seq<ObjectModel>, id: u16, k: int) -> bool {
    &&& 0 <= k < objects.len()
    &&& objects[k].object_id == id
    &&& forall|j: int| 0 <= j < k ==> (#[trigger] objects[j]).object_id != id
}

/// The object with a number.
pub open spec fn object_place(objects: Seq<ObjectModel>, id: u16) -> Option<int> {
    if exists|k: int| is_object(objects, id, k) {
        Some(choose|k: int| is_object(objects, id, k))
    } else {
        None
    }
}

/// The rectangle that an object on the screen shows: all of the object, or
/// the part that it is cropped to.
pub open spec fn shown_area(co: CompositionObject, image: ImageModel) -> BlitArea {
    match co.cropping {
        Some(c) => BlitArea {
            dst_x: co.object_horizontal_position,
            dst_y: co.object_vertical_position,
            src_x: c.horizontal_position,
            src_y: c.vertical_position,
            width: c.width,
            height: c.height,
        },
        None => BlitArea {
            dst_x: co.object_horizontal_position,
            dst_y: co.object_vertical_position,
            src_x: 0,
            src_y: 0,
            width: image.width,
            height: image.height,
        },
    }
}

/// The screen after the first `n` objects on it, or `None` where one of them
/// is not in the set.
pub open spec fn composed(
    plane: ImageModel,
    shown: Seq<CompositionObject>,
    objects: Seq<ObjectModel>,
    images: Seq<ImageModel>,
    n: nat,
) -> Option<ImageModel>
    decreases n,
{
    if n == 0 {
        Some(plane)
    } else {
        match composed(plane, shown, objects, images, (n - 1) as nat) {
            None => None,
            Some(p) => match object_place(objects, shown[n - 1].object_id) {
                None => None,
                Some(k) => Some(blitted(p, images[k], shown_area(shown[n - 1], images[k]))),
            },
        }
    }
}

/// The objects of a display set and their pictures.
pub open spec fn set_images(ds: DisplaySetModel) -> Option<(Seq<ObjectModel>, Seq<ImageModel>)> {
    match objects_of(ds.objects) {
        None => None,
        Some(objects) => match object_images(
            objects,
            numbered_applied(ds.palettes, ds.pcs.palette_id, ds.palettes.len()),
            objects.len(),
        ) {
            None => None,
            Some(images) => Some((objects, images)),
        },
    }
}

/// The screen that a display set shows.
pub open spec fn rendered(ds: DisplaySetModel) -> Option<ImageModel> {
    match set_images(ds) {
        None => None,
        Some((objects, images)) => composed(
            transparent_image(ds.pcs.width, ds.pcs.height),
            ds.pcs.composition_objects,
            objects,
            images,
            ds.pcs.composition_objects.len(),
        ),
    }
}

/// What is said of the first `n` objects where one is broken: what is said of
/// the first that is.
pub open spec fn images_refusal(objects: Seq<ObjectModel>, table: Seq<Rgba8>, n: nat) -> Seq<char>
    decreases n,
{
    if n == 0 {
        Seq::empty()
    } else if object_images(objects, table, (n - 1) as nat) is None {
        images_refusal(objects, table, (n - 1) as nat)
    } else {
        let o = objects[n - 1];
        rle_refusal(o.rle_data, o.width as nat, o.height as nat)
    }
}

/// What is said of a display set that shows nothing.
pub open spec fn render_refusal(ds: DisplaySetModel) -> Seq<char> {
    match objects_of(ds.objects) {
        None => joining_refusal(ds.objects),
        Some(objects) => if set_images(ds) is None {
            images_refusal(
                objects,
                numbered_applied(ds.palettes, ds.pcs.palette_id, ds.palettes.len()),
                objects.len(),
            )
        } else {
            "PGS composition object references an object_id absent from the Display Set"@
        },
    }
}

pub open spec fn image_models(v: Seq<RgbaImage>) -> Seq<ImageModel> {
    Seq::new(v.len(), |i: int| v[i]@)
}

proof fn lemma_images_none(objects: Seq<ObjectModel>, table: Seq<Rgba8>, i: nat, n: nat)
    requires
        i <= n,
        object_images(objects, table, i) is None,
    ensures
        object_images(objects, table, n) is None,
        images_refusal(objects, table, n) == images_refusal(objects, table, i),
    decreases n,
{
    if i < n {
        lemma_images_none(objects, table, i, (n - 1) as nat);
    }
}

proof fn lemma_composed_none(
    plane: ImageModel,
    shown: Seq<CompositionObject>,
    objects: Seq<ObjectModel>,
    images: Seq<ImageModel>,
    i: nat,
    n: nat,
)
    requires
        i <= n,
        composed(plane, shown, objects, images, i) is None,
    ensures
        composed(plane, shown, objects, images, n) is None,
    decreases n,
{
    if i < n {
        lemma_composed_none(plane, shown, objects, images, i, (n - 1) as nat);
    }
}

proof fn lemma_object_place(objects: Seq<ObjectModel>, id: u16, k: int)
    requires
        is_object(objects, id, k),
    ensures
        object_place(objects, id) == Some(k),
{
    let j = choose|j: int| is_object(objects, id, j);
    assert(is_object(objects, id, j));
    if j < k {
        assert(objects[j].object_id != id);
    }
    if k < j {
        assert(objects[k].object_id != id);
    }
}

impl DisplaySet {
    /// Compose this display set. The screen starts transparent; the palette is
    /// the one that the composition names; every object is copied to its
    /// place, cropped where it says so.
    #[verifier::loop_isolation(false)]
    pub fn render(&self) -> (r: Result<RenderedDisplaySet, BlurayError>)
        ensures
            match r {
                Ok(v) => rendered(self@) == Some(v.plane@) && v.plane@.wf() && v.pts == self.pts,
                Err(e) => rendered(self@) is None && e.is_malformed(render_refusal(self@)),
            },
    {
        let palette = Palette::from_palettes_with_id(
            self.palettes.as_slice(),
            self.pcs.palette_id,
        );
        let ghost table = palette.entries@;
        let objects = self.reassemble_objects()?;
        let ghost models = object_models(objects@);
        let mut images: Vec<RgbaImage> = Vec::new();
        let mut i: usize = 0;
        assert(image_models(images@) =~= Seq::empty());
        while i < objects.len()
            invariant
                i <= objects@.len(),
                models == object_models(objects@),
                images@.len() == i,
                object_images(models, table, i as nat) == Some(image_models(images@)),
                forall|k: int| 0 <= k < i ==> (#[trigger] images@[k])@.wf(),
            decreases objects@.len() - i,
        {
            let ghost before = image_models(images@);
            assert(models[i as int] == objects@[i as int]@);
            match objects[i].decode() {
                Ok(bitmap) => {
                    let image = bitmap.to_rgba(&palette);
                    images.push(image);
                    assert(image_models(images@) =~= before.push(image@));
                },
                Err(e) => {
                    proof {
                        assert(object_images(models, table, (i + 1) as nat) is None);
                        lemma_images_none(models, table, (i + 1) as nat, models.len());
                    }
                    return Err(e);
                },
            }
            i += 1;
        }
        let ghost pictures = image_models(images@);
        let mut plane = RgbaImage::transparent(self.pcs.width, self.pcs.height);
        let ghost start = plane@;
        let ghost shown = self.pcs.composition_objects@;
        let mut n: usize = 0;
        while n < self.pcs.composition_objects.len()
            invariant
                n <= shown.len(),
                plane@.wf(),
                composed(start, shown, models, pictures, n as nat) == Some(plane@),
            decreases shown.len() - n,
        {
            let co = &self.pcs.composition_objects[n];
            let mut k: usize = 0;
            while k < objects.len() && objects[k].object_id != co.object_id
                invariant
                    k <= objects@.len(),
                    forall|j: int|
                        0 <= j < k ==> (#[trigger] models[j]).object_id != co.object_id,
                decreases objects@.len() - k,
            {
                k += 1;
            }
            if k == objects.len() {
                proof {
                    assert(object_place(models, co.object_id) is None);
                    assert(composed(start, shown, models, pictures, (n + 1) as nat) is None);
                    lemma_composed_none(
                        start,
                        shown,
                        models,
                        pictures,
                        (n + 1) as nat,
                        shown.len(),
                    );
                }
                return Err(
                    BlurayError::malformed(
                        "PGS composition object references an object_id absent from the Display Set",
                    ),
                );
            }
            proof {
                assert(is_object(models, co.object_id, k as int));
                lemma_object_place(models, co.object_id, k as int);
                assert(pictures[k as int] == images@[k as int]@);
            }
            let image = &images[k];
            let area = match co.cropping {
                Some(c) => BlitArea {
                    dst_x: co.object_horizontal_position,
                    dst_y: co.object_vertical_position,
                    src_x: c.horizontal_position,
                    src_y: c.vertical_position,
                    width: c.width,
                    height: c.height,
                },
                None => BlitArea {
                    dst_x: co.object_horizontal_position,
                    dst_y: co.object_vertical_position,
                    src_x: 0,
                    src_y: 0,
                    width: image.width,
                    height: image.height,
                },
            };
            blit(&mut plane, image, area);
            n += 1;
        }
        Ok(RenderedDisplaySet { plane, pts: self.pts })
    }
}

// ---------------------------------------------------------------------
// Laws
// ---------------------------------------------------------------------

/// A colour without colour differences is a grey; studio black and white are
/// black and white.
pub proof fn lemma_neutral_is_grey(y: u8)
    ensures
        red_of(y, 128) == green_of(y, 128, 128),
        red_of(y, 128) == blue_of(y, 128),
        y <= 16 ==> red_of(y, 128) == 0,
        y >= 235 ==> red_of(y, 128) == 255,
{
}

proof fn lemma_channel_ordered(a: int, b: int)
    requires
        a <= b,
    ensures
        channel(a, COLOR_DENOMINATOR as int) <= channel(b, COLOR_DENOMINATOR as int),
{
    let d = 490_560_000int;
    vstd::arithmetic::div_mod::lemma_div_is_ordered(2 * a + d, 2 * b + d, 2 * d);
    assert(a < 255 * d ==> (2 * a + d) / (2 * d) <= 255);
    assert(b < 255 * d ==> (2 * b + d) / (2 * d) <= 255);
    assert(a > 0 ==> (2 * a + d) / (2 * d) >= 0);
}

/// More luminance never makes a channel darker.
pub proof fn lemma_brighter(y1: u8, y2: u8, cb: u8, cr: u8)
    requires
        y1 <= y2,
    ensures
        red_of(y1, cr) <= red_of(y2, cr),
        green_of(y1, cb, cr) <= green_of(y2, cb, cr),
        blue_of(y1, cb) <= blue_of(y2, cb),
{
    let l1 = 2_240_000 * (y1 - 16);
    let l2 = 2_240_000 * (y2 - 16);
    let r = 219 * 15748 * (cr - 128);
    let g = 219 * 1873 * (cb - 128) + 219 * 4681 * (cr - 128);
    let b = 219 * 18556 * (cb - 128);
    lemma_channel_ordered(255 * (l1 + r), 255 * (l2 + r));
    lemma_channel_ordered(255 * (l1 - g), 255 * (l2 - g));
    lemma_channel_ordered(255 * (l1 + b), 255 * (l2 + b));
}

/// A palette definition leaves colours alone that it does not mention.
pub proof fn lemma_untouched_colors(table: Seq<Rgba8>, pds: PdsModel, i: int)
    requires
        table.len() == 256,
        0 <= i < 256,
        forall|k: int|
            0 <= k < pds.entries.len() ==> (#[trigger] pds.entries[k]).palette_entry_id != i,
    ensures
        applied(table, pds).len() == 256,
        applied(table, pds)[i] == table[i],
{
    lemma_untouched_written(table, pds.entries, pds.entries.len(), i);
}

proof fn lemma_untouched_written(
    table: Seq<Rgba8>,
    entries: Seq<PaletteEntry>,
    n: nat,
    i: int,
)
    requires
        n <= entries.len(),
        table.len() == 256,
        0 <= i < 256,
        forall|k: int|
            0 <= k < entries.len() ==> (#[trigger] entries[k]).palette_entry_id != i,
    ensures
        written(table, entries, n).len() == 256,
        written(table, entries, n)[i] == table[i],
    decreases n,
{
    if n > 0 {
        lemma_untouched_written(table, entries, (n - 1) as nat, i);
        assert(entries[n - 1].palette_entry_id != i);
    }
}

/// Of several entries for one colour the last counts.
pub proof fn lemma_last_entry_counts(table: Seq<Rgba8>, pds: PdsModel, k: int)
    requires
        table.len() == 256,
        0 <= k < pds.entries.len(),
        forall|j: int|
            k < j < pds.entries.len() ==> (#[trigger] pds.entries[j]).palette_entry_id
                != pds.entries[k].palette_entry_id,
    ensures
        applied(table, pds)[pds.entries[k].palette_entry_id as int] == entry_color(
            pds.entries[k],
        ),
{
    lemma_last_written(table, pds.entries, k, pds.entries.len());
}

proof fn lemma_written_len(table: Seq<Rgba8>, entries: Seq<PaletteEntry>, n: nat)
    requires
        table.len() == 256,
    ensures
        written(table, entries, n).len() == table.len(),
    decreases n,
{
    if n > 0 {
        lemma_written_len(table, entries, (n - 1) as nat);
    }
}

proof fn lemma_last_written(
    table: Seq<Rgba8>,
    entries: Seq<PaletteEntry>,
    k: int,
    n: nat,
)
    requires
        table.len() == 256,
        0 <= k < n <= entries.len(),
        forall|j: int|
            k < j < n ==> (#[trigger] entries[j]).palette_entry_id != entries[k].palette_entry_id,
    ensures
        written(table, entries, n)[entries[k].palette_entry_id as int] == entry_color(entries[k]),
    decreases n,
{
    lemma_written_len(table, entries, (n - 1) as nat);
    if n - 1 > k {
        lemma_last_written(table, entries, k, (n - 1) as nat);
        assert(entries[n - 1].palette_entry_id != entries[k].palette_entry_id);
    }
}

/// Whether an object on the screen lies at a pixel.
pub open spec fn lies_at(
    co: CompositionObject,
    objects: Seq<ObjectModel>,
    images: Seq<ImageModel>,
    x: int,
    y: int,
) -> bool {
    object_place(objects, co.object_id) matches Some(k) && covered(
        images[k],
        shown_area(co, images[k]),
        x,
        y,
    )
}

/// The pixel that an object on the screen shows at a place where it lies.
pub open spec fn pixel_of(
    co: CompositionObject,
    objects: Seq<ObjectModel>,
    images: Seq<ImageModel>,
    x: int,
    y: int,
) -> Rgba8 {
    let image = images[object_place(objects, co.object_id)->0];
    let a = shown_area(co, image);
    image.at(a.src_x + (x - a.dst_x), a.src_y + (y - a.dst_y))
}

proof fn lemma_composed_step(
    plane: ImageModel,
    shown: Seq<CompositionObject>,
    objects: Seq<ObjectModel>,
    images: Seq<ImageModel>,
    n: nat,
    x: int,
    y: int,
)
    requires
        plane.wf(),
        plane.has(x, y),
        0 < n <= shown.len(),
        composed(plane, shown, objects, images, n) is Some,
        composed(plane, shown, objects, images, (n - 1) as nat) matches Some(p) ==> p.wf()
            && p.width == plane.width && p.height == plane.height,
    ensures
        ({
            let p = composed(plane, shown, objects, images, (n - 1) as nat)->0;
            let q = composed(plane, shown, objects, images, n)->0;
            &&& q.wf()
            &&& q.width == plane.width
            &&& q.height == plane.height
            &&& q.at(x, y) == if lies_at(shown[n - 1], objects, images, x, y) {
                pixel_of(shown[n - 1], objects, images, x, y)
            } else {
                p.at(x, y)
            }
        }),
{
    lemma_place(plane.width as int, plane.height as int, x, y);
}

proof fn lemma_composed_pixel(
    plane: ImageModel,
    shown: Seq<CompositionObject>,
    objects: Seq<ObjectModel>,
    images: Seq<ImageModel>,
    n: nat,
    x: int,
    y: int,
    last: int,
)
    requires
        plane.wf(),
        plane.has(x, y),
        n <= shown.len(),
        -1 <= last < n,
        forall|j: int| last < j < n ==> !lies_at(#[trigger] shown[j], objects, images, x, y),
        last >= 0 ==> lies_at(shown[last], objects, images, x, y),
    ensures
        composed(plane, shown, objects, images, n) matches Some(p) ==> p.wf() && p.width
            == plane.width && p.height == plane.height && p.at(x, y) == if last >= 0 {
            pixel_of(shown[last], objects, images, x, y)
        } else {
            plane.at(x, y)
        },
    decreases n,
{
    if n > 0 && composed(plane, shown, objects, images, n) is Some {
        if last == n - 1 {
            lemma_composed_size(plane, shown, objects, images, (n - 1) as nat);
        } else {
            lemma_composed_pixel(plane, shown, objects, images, (n - 1) as nat, x, y, last);
            assert(!lies_at(shown[n - 1], objects, images, x, y));
        }
        lemma_composed_step(plane, shown, objects, images, n, x, y);
    }
}

proof fn lemma_composed_size(
    plane: ImageModel,
    shown: Seq<CompositionObject>,
    objects: Seq<ObjectModel>,
    images: Seq<ImageModel>,
    n: nat,
)
    requires
        plane.wf(),
    ensures
        composed(plane, shown, objects, images, n) matches Some(p) ==> p.wf() && p.width
            == plane.width && p.height == plane.height,
    decreases n,
{
    if n > 0 {
        lemma_composed_size(plane, shown, objects, images, (n - 1) as nat);
    }
}

/// What a display set shows at each pixel of its screen, which is as large as
/// the composition says: the pixel of the last object that lies there (`last`),
/// and nothing where none does (`last` is -1).
pub proof fn lemma_rendered_pixel(ds: DisplaySetModel, x: int, y: int, last: int)
    requires
        0 <= x < ds.pcs.width,
        0 <= y < ds.pcs.height,
        set_images(ds) is Some,
        -1 <= last < ds.pcs.composition_objects.len(),
        ({
            let (objects, images) = set_images(ds)->0;
            let shown = ds.pcs.composition_objects;
            &&& forall|j: int|
                last < j < shown.len() ==> !lies_at(#[trigger] shown[j], objects, images, x, y)
            &&& last >= 0 ==> lies_at(shown[last], objects, images, x, y)
        }),
    ensures
        ({
            let (objects, images) = set_images(ds)->0;
            rendered(ds) matches Some(p) ==> p.width == ds.pcs.width && p.height == ds.pcs.height
                && p.wf() && p.at(x, y) == if last >= 0 {
                pixel_of(ds.pcs.composition_objects[last], objects, images, x, y)
            } else {
                Rgba8::clear()
            }
        }),
{
    let (objects, images) = set_images(ds)->0;
    let start = transparent_image(ds.pcs.width, ds.pcs.height);
    assert(ds.pcs.width * ds.pcs.height >= 0) by (nonlinear_arith)
        requires
            ds.pcs.width >= 0,
            ds.pcs.height >= 0,
    ;
    lemma_place(ds.pcs.width as int, ds.pcs.height as int, x, y);
    lemma_composed_pixel(
        start,
        ds.pcs.composition_objects,
        objects,
        images,
        ds.pcs.composition_objects.len(),
        x,
        y,
        last,
    );
}

/// The bytes of a picture: red, green, blue and opacity of each pixel, one pixel
/// behind the other.
pub proof fn lemma_pixel_bytes(pixels: Seq<Rgba8>, n: nat, i: int)
    requires
        0 <= i < n <= pixels.len(),
    ensures
        pixel_bytes(pixels, n).len() == 4 * n,
        pixel_bytes(pixels, n)[4 * i] == pixels[i].r,
        pixel_bytes(pixels, n)[4 * i + 1] == pixels[i].g,
        pixel_bytes(pixels, n)[4 * i + 2] == pixels[i].b,
        pixel_bytes(pixels, n)[4 * i + 3] == pixels[i].a,
    decreases n,
{
    let m = (n - 1) as nat;
    reveal_with_fuel(pixel_bytes, 2);
    if m > 0 {
        lemma_pixel_bytes(pixels, m, if i < m {
            i
        } else {
            0
        });
    }
}

/// Copying a rectangle: each of its pixels that both pictures have moves from
/// the source to the target, as far to the right and down as the rectangle is
/// moved; no other pixel changes.
pub proof fn lemma_rectangle_copied(
    dst: ImageModel,
    src: ImageModel,
    a: BlitArea,
    x: int,
    y: int,
)
    requires
        dst.wf(),
        dst.has(x, y),
    ensures
        blitted(dst, src, a).width == dst.width,
        blitted(dst, src, a).height == dst.height,
        forall|i: int, j: int|
            x == a.dst_x + i && y == a.dst_y + j && 0 <= i < a.width && 0 <= j < a.height
                && #[trigger] src.has(a.src_x + i, a.src_y + j) ==> blitted(dst, src, a).at(x, y)
                == src.pixels[(a.src_y + j) * src.width + (a.src_x + i)],
        x < a.dst_x || x >= a.dst_x + a.width || y < a.dst_y || y >= a.dst_y + a.height || a.src_x
            + (x - a.dst_x) >= src.width || a.src_y + (y - a.dst_y) >= src.height ==> blitted(
            dst,
            src,
            a,
        ).at(x, y) == dst.pixels[y * dst.width + x],
{
    lemma_place(dst.width as int, dst.height as int, x, y);
}

/// A model holds what the fields hold.
pub proof fn lemma_models_hold_fields(rgba_image: RgbaImage)
    ensures
        rgba_image@.width == rgba_image.width,
        rgba_image@.height == rgba_image.height,
        rgba_image@.pixels == rgba_image.pixels@,
{
}

/// Where all palettes have one number, all of them count.
pub proof fn lemma_all_palettes(palettes: Seq<PdsModel>, id: u8, n: nat)
    requires
        n <= palettes.len(),
        forall|k: int| 0 <= k < n ==> (#[trigger] palettes[k]).palette_id == id,
    ensures
        all_applied(palettes, n) == numbered_applied(palettes, id, n),
    decreases n,
{
    if n > 0 {
        lemma_all_palettes(palettes, id, (n - 1) as nat);
    }
}

/// Models stand in the order of what they model.
pub proof fn lemma_models_in_order(images: Seq<RgbaImage>, i: int)
    ensures
        image_models(images).len() == images.len(),
        0 <= i < images.len() ==> image_models(images)[i] == images[i]@,
{
}

} // verus!
