//! Sample images: the pixels that rules and frequencies are learned from.

use imgproc_rs::image::BaseImage;
use imgproc_rs::image::Image;
use vstd::prelude::*;
use crate::direction::Direction;
use crate::tile::TileType;

verus! {

/// An 8-bit image of the `imgproc_rs` crate. Verus sees nothing inside it:
/// what it holds is known through `buffer_shape` and `buffer_data` alone.
#[verifier::external_body]
#[derive(Debug)]
pub struct PixelBuffer {
    image: Image<u8>,
}

/// The width, the height and the number of channels that an image records.
pub uninterp spec fn buffer_shape(buffer: PixelBuffer) -> (u32, u32, u8);

/// The channel values that an image stores, pixel after pixel, row after row.
pub uninterp spec fn buffer_data(buffer: PixelBuffer) -> Seq<u8>;

/// Whether `len` channel values are exactly what an image of this shape
/// holds, with a pixel count that 32 bits can index.
pub open spec fn shape_fits(width: nat, height: nat, channels: nat, len: nat) -> bool {
    &&& width * height <= u32::MAX
    &&& width * height * channels == len
}

impl PixelBuffer {
    /// `Image::from_vec`: the image records the shape and the values it is
    /// given, as they are.
    #[verifier::external_body]
    fn from_vec(width: u32, height: u32, channels: u8, alpha: bool, data: Vec<u8>) -> (buffer:
        PixelBuffer)
        ensures
            buffer_shape(buffer) == (width, height, channels),
            buffer_data(buffer) == data@,
    {
        PixelBuffer { image: Image::from_vec(width, height, channels, alpha, data) }
    }

    /// `BaseImage::info`: the width, the height and the number of channels
    /// that the image records.
    #[verifier::external_body]
    fn shape(&self) -> (shape: (u32, u32, u8))
        ensures
            shape == buffer_shape(*self),
    {
        let info = self.image.info();
        (info.width, info.height, info.channels)
    }

    /// `BaseImage::get_pixel`: the channel values of the pixel in column `x`
    /// of row `y`. The call panics outside the image, and where the stored
    /// values are fewer than the shape asks for; both are left out here.
    #[verifier::external_body]
    fn get_pixel(&self, x: u32, y: u32) -> (pixel: &[u8])
        requires
            x < buffer_shape(*self).0,
            y < buffer_shape(*self).1,
            shape_fits(
                buffer_shape(*self).0 as nat,
                buffer_shape(*self).1 as nat,
                buffer_shape(*self).2 as nat,
                buffer_data(*self).len(),
            ),
        ensures
            pixel@ == buffer_data(*self).subrange(
                (y * buffer_shape(*self).0 + x) * buffer_shape(*self).2,
                (y * buffer_shape(*self).0 + x) * buffer_shape(*self).2 + buffer_shape(*self).2,
            ),
    {
        self.image.get_pixel(x, y)
    }
}

/// A sample image whose stored values match its shape.
#[derive(Debug)]
pub struct Sample {
    pixels: PixelBuffer,
}

impl Sample {
    /// The stored values are exactly what the shape asks for.
    #[verifier::type_invariant]
    pub open spec fn well_formed(self) -> bool {
        shape_fits(self.width(), self.height(), self.channels(), self.data().len())
    }

    /// The number of columns.
    pub closed spec fn width(self) -> nat {
        buffer_shape(self.pixels).0 as nat
    }

    /// The number of rows.
    pub closed spec fn height(self) -> nat {
        buffer_shape(self.pixels).1 as nat
    }

    /// The number of values per pixel.
    pub closed spec fn channels(self) -> nat {
        buffer_shape(self.pixels).2 as nat
    }

    /// The channel values, pixel after pixel, row after row.
    pub closed spec fn data(self) -> Seq<u8> {
        buffer_data(self.pixels)
    }

    /// Whether column `x` of row `y` lies inside the image.
    pub open spec fn contains(self, x: int, y: int) -> bool {
        0 <= x < self.width() && 0 <= y < self.height()
    }

    /// The channel values of the pixel in column `x` of row `y`.
    pub open spec fn pixel(self, x: int, y: int) -> Seq<u8> {
        let start = (y * self.width() + x) * self.channels();
        self.data().subrange(start, start + self.channels())
    }

    /// The tile type of the pixel in column `x` of row `y`, where it has one.
    pub open spec fn tile(self, x: int, y: int) -> Option<TileType> {
        TileType::classify(self.pixel(x, y))
    }

    /// Inside the image every pixel has its full number of channel values, so
    /// either all pixels have a tile type or none has.
    pub proof fn lemma_pixel_len(self, x: int, y: int)
        requires
            self.contains(x, y),
            self.well_formed(),
        ensures
            0 <= (y * self.width() + x) * self.channels(),
            (y * self.width() + x) * self.channels() + self.channels() <= self.data().len(),
            y * self.width() + x < self.width() * self.height(),
            self.pixel(x, y).len() == self.channels(),
            self.tile(x, y) is Some <==> self.channels() >= 3,
    {
        let w = self.width() as int;
        let h = self.height() as int;
        let c = self.channels() as int;
        assert(y * w + x < w * h) by (nonlinear_arith)
            requires
                0 <= x < w,
                0 <= y < h,
        ;
        assert(0 <= (y * w + x) * c && (y * w + x) * c + c <= w * h * c) by (nonlinear_arith)
            requires
                0 <= y * w + x < w * h,
                0 <= c,
                0 <= x,
                0 <= y,
        ;
    }

    /// A sample of the given shape over the given channel values, if they
    /// are exactly as many as the shape asks for.
    pub fn new(width: u32, height: u32, channels: u8, alpha: bool, data: Vec<u8>) -> (sample:
        Option<Sample>)
        ensures
            sample is Some <==> shape_fits(
                width as nat,
                height as nat,
                channels as nat,
                data@.len(),
            ),
            sample matches Some(s) ==> s.width() == width && s.height() == height && s.channels()
                == channels && s.data() == data@,
    {
        assert(width * height <= 0xffff_ffff * 0xffff_ffff) by (nonlinear_arith)
            requires
                width <= 0xffff_ffff,
                height <= 0xffff_ffff,
        ;
        let pixels: u64 = (width as u64) * (height as u64);
        if pixels > u32::MAX as u64 {
            return None;
        }
        assert(pixels * channels <= 0xffff_ffff * 0xff) by (nonlinear_arith)
            requires
                pixels <= 0xffff_ffff,
                channels <= 0xff,
        ;
        let values: u64 = pixels * (channels as u64);
        if values != data.len() as u64 {
            return None;
        }
        Some(Sample { pixels: PixelBuffer::from_vec(width, height, channels, alpha, data) })
    }

    /// The width and the height of the image.
    pub fn dimensions(&self) -> (dimensions: (u32, u32))
        ensures
            dimensions.0 == self.width(),
            dimensions.1 == self.height(),
    {
        let shape = self.pixels.shape();
        (shape.0, shape.1)
    }

    /// The pixel one step away from column `x` of row `y`, where the image
    /// has one.
    pub fn neighbor(&self, x: u32, y: u32, direction: Direction) -> (stepped: Option<(u32, u32)>)
        ensures
            stepped is Some <==> self.contains(
                direction.step(x as int, y as int).0,
                direction.step(x as int, y as int).1,
            ),
            stepped matches Some((stepped_x, stepped_y)) ==> direction.step(x as int, y as int)
                == (stepped_x as int, stepped_y as int),
    {
        let (width, height) = self.dimensions();
        match direction.shift(x as usize, y as usize) {
            Some((stepped_x, stepped_y)) => {
                if stepped_x < width as usize && stepped_y < height as usize {
                    Some((stepped_x as u32, stepped_y as u32))
                } else {
                    None
                }
            },
            None => None,
        }
    }

    /// The channel values of the pixel in column `x` of row `y`.
    pub fn get_pixel(&self, x: u32, y: u32) -> (pixel: &[u8])
        requires
            self.contains(x as int, y as int),
        ensures
            pixel@ == self.pixel(x as int, y as int),
    {
        proof {
            use_type_invariant(self);
        }
        self.pixels.get_pixel(x, y)
    }
}

impl TileType {
    /// Reads the tile type of the pixel in column `x` of row `y`: none where
    /// the pixel has fewer than three channel values.
    pub fn from_pixel(image: &Sample, x: u32, y: u32) -> (tile: Option<TileType>)
        requires
            image.contains(x as int, y as int),
        ensures
            tile == image.tile(x as int, y as int),
    {
        let pixel = image.get_pixel(x, y);
        if pixel.len() >= 3 {
            Some(TileType { rgb: [pixel[0], pixel[1], pixel[2]] })
        } else {
            None
        }
    }
}

} // verus!
