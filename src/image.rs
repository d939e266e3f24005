//! An image in memory, and its transforms.
use vstd::prelude::*;

use crate::pixel::Pixel;
use vstd::utf8::encode_utf8;

verus! {

/// What an image holds: the format tag, the dimensions, the declared largest
/// channel value and the pixels, row by row.
pub struct ImageModel {
    pub tag: Seq<u8>,
    pub width: usize,
    pub height: usize,
    pub nb_colors: usize,
    pub pixels: Seq<Pixel>,
}

/// An image in PPM terms.
#[derive(Debug)]
pub struct Image {
    pixels: Vec<Pixel>,
    height: usize,
    width: usize,
    nb_colors: usize,
    ppm_type: Vec<u8>,
}

impl View for Image {
    type V = ImageModel;

    closed spec fn view(&self) -> ImageModel {
        ImageModel {
            tag: self.ppm_type@,
            width: self.width,
            height: self.height,
            nb_colors: self.nb_colors,
            pixels: self.pixels@,
        }
    }
}

/// Every pixel complemented, in the same order.
pub open spec fn inverted_all(px: Seq<Pixel>) -> Seq<Pixel> {
    px.map_values(|p: Pixel| p.inverted())
}

/// Every pixel made grey, in the same order.
pub open spec fn greyed_all(px: Seq<Pixel>) -> Seq<Pixel> {
    px.map_values(|p: Pixel| p.greyed())
}

impl Image {
    /// Builds an image from its parts.
    pub(crate) fn from_parts(
        tag: Vec<u8>,
        width: usize,
        height: usize,
        nb_colors: usize,
        pixels: Vec<Pixel>,
    ) -> (img: Image)
        ensures
            img@ == (ImageModel { tag: tag@, width, height, nb_colors, pixels: pixels@ }),
    {
        Image { pixels, height, width, nb_colors, ppm_type: tag }
    }

    /// An image with no pixels, zero dimensions, 255 as largest value and the tag "p3".
    pub fn new_empty() -> (img: Image)
        ensures
            img@ == (ImageModel {
                tag: seq![112u8, 51u8],
                width: 0,
                height: 0,
                nb_colors: 255,
                pixels: Seq::empty(),
            }),
    {
        let mut tag: Vec<u8> = Vec::new();
        tag.push(112);
        tag.push(51);
        let img = Image { pixels: Vec::new(), width: 0, height: 0, nb_colors: 255, ppm_type: tag };
        assert(img@.tag =~= seq![112u8, 51u8]);
        img
    }

    /// Sets the format tag to the UTF-8 bytes of `ppm_type`.
    pub fn set_type(&mut self, ppm_type: String)
        ensures
            final(self)@ == (ImageModel { tag: encode_utf8(ppm_type@), ..old(self)@ }),
    {
        let bytes = ppm_type.as_str().as_bytes();
        let mut tag: Vec<u8> = Vec::new();
        let mut i: usize = 0;
        while i < bytes.len()
            invariant
                i <= bytes@.len(),
                tag@ == bytes@.take(i as int),
            decreases bytes@.len() - i,
        {
            tag.push(bytes[i]);
            assert(tag@ =~= bytes@.take(i + 1));
            i += 1;
        }
        assert(tag@ =~= bytes@);
        self.ppm_type = tag;
    }

    /// Sets the width.
    pub fn set_width(&mut self, width: usize)
        ensures
            final(self)@ == (ImageModel { width, ..old(self)@ }),
    {
        self.width = width;
    }

    /// Sets the height.
    pub fn set_height(&mut self, height: usize)
        ensures
            final(self)@ == (ImageModel { height, ..old(self)@ }),
    {
        self.height = height;
    }

    /// Sets the declared largest channel value.
    pub fn set_nb_colors(&mut self, nb_colors: usize)
        ensures
            final(self)@ == (ImageModel { nb_colors, ..old(self)@ }),
    {
        self.nb_colors = nb_colors;
    }

    /// Replaces the pixels.
    pub fn set_pixels(&mut self, pixels: Vec<Pixel>)
        ensures
            final(self)@ == (ImageModel { pixels: pixels@, ..old(self)@ }),
    {
        self.pixels = pixels;
    }

    /// Complements every pixel, keeping their order.
    pub fn invert(&mut self)
        ensures
            final(self)@ == (ImageModel { pixels: inverted_all(old(self)@.pixels), ..old(self)@ }),
    {
        let mut pixels: Vec<Pixel> = Vec::new();
        let mut i: usize = 0;
        while i < self.pixels.len()
            invariant
                i <= self.pixels@.len(),
                pixels@ =~= inverted_all(self.pixels@.take(i as int)),
            decreases self.pixels@.len() - i,
        {
            let p = self.pixels[i].invert();
            pixels.push(p);
            assert(pixels@ =~= inverted_all(self.pixels@.take(i + 1)));
            i += 1;
        }
        assert(self.pixels@.take(i as int) =~= self.pixels@);
        self.set_pixels(pixels);
    }

    /// Makes every pixel grey, keeping their order.
    pub fn greyscale(&mut self)
        ensures
            final(self)@ == (ImageModel { pixels: greyed_all(old(self)@.pixels), ..old(self)@ }),
    {
        let mut pixels: Vec<Pixel> = Vec::new();
        let mut i: usize = 0;
        while i < self.pixels.len()
            invariant
                i <= self.pixels@.len(),
                pixels@ =~= greyed_all(self.pixels@.take(i as int)),
            decreases self.pixels@.len() - i,
        {
            let p = self.pixels[i].greyscale();
            pixels.push(p);
            assert(pixels@ =~= greyed_all(self.pixels@.take(i + 1)));
            i += 1;
        }
        assert(self.pixels@.take(i as int) =~= self.pixels@);
        self.set_pixels(pixels);
    }

    /// The width in pixels.
    pub fn width(&self) -> (w: usize)
        ensures
            w == self@.width,
    {
        self.width
    }

    /// The height in pixels.
    pub fn height(&self) -> (h: usize)
        ensures
            h == self@.height,
    {
        self.height
    }

    /// The declared largest channel value.
    pub fn nb_colors(&self) -> (n: usize)
        ensures
            n == self@.nb_colors,
    {
        self.nb_colors
    }

    /// The format tag.
    pub fn ppm_type(&self) -> (t: &[u8])
        ensures
            t@ == self@.tag,
    {
        self.ppm_type.as_slice()
    }

    /// The pixels, row by row.
    pub fn pixels(&self) -> (px: &[Pixel])
        ensures
            px@ == self@.pixels,
    {
        self.pixels.as_slice()
    }
}

} // verus!
