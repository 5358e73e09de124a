//! Bringing images to four bytes for each pixel.

use vstd::prelude::*;

verus! {

/// How the pixels of an image are stored.
#[derive(Clone, Copy, Debug, PartialEq, Eq, Structural)]
pub enum PixelFormat {
    R8,
    R8G8,
    R8G8B8,
    R8G8B8A8,
    /// A format of more than eight bits for each channel.
    Wide,
}

/// An image as it was read.
#[derive(Debug)]
pub struct ImageData {
    pub width: u32,
    pub height: u32,
    pub format: PixelFormat,
    pub pixels: Vec<u8>,
}

/// An image ready for the graphics card: row by row, red, green, blue and
/// opacity of each pixel.
#[derive(Debug)]
pub struct TextureImage {
    pub width: u32,
    pub height: u32,
    pub rgba: Vec<u8>,
}

impl PixelFormat {
    /// Bytes of a pixel, for the formats that are understood.
    pub open spec fn size(self) -> int {
        match self {
            PixelFormat::R8 => 1,
            PixelFormat::R8G8 => 2,
            PixelFormat::R8G8B8 => 3,
            PixelFormat::R8G8B8A8 => 4,
            PixelFormat::Wide => 0,
        }
    }

    /// Channel `c` of a pixel, given its bytes: a single channel is grey, a
    /// missing blue is zero, and a missing opacity is full.
    pub open spec fn channel(self, pixel: Seq<u8>, c: int) -> u8 {
        match self {
            PixelFormat::R8 => if c < 3 {
                pixel[0]
            } else {
                255
            },
            PixelFormat::R8G8 => if c < 2 {
                pixel[c]
            } else if c == 2 {
                0
            } else {
                255
            },
            PixelFormat::R8G8B8 => if c < 3 {
                pixel[c]
            } else {
                255
            },
            _ => pixel[c],
        }
    }
}

/// The pixels of an image with four bytes each. Bytes left over after the last
/// whole pixel are dropped, except from an image that has four bytes already.
pub open spec fn expanded(format: PixelFormat, pixels: Seq<u8>) -> Seq<u8> {
    if format == PixelFormat::R8G8B8A8 {
        pixels
    } else {
        Seq::new(
            (pixels.len() as int / format.size() * 4) as nat,
            |i: int|
                format.channel(
                    pixels.subrange(i / 4 * format.size(), (i / 4 + 1) * format.size()),
                    i % 4,
                ),
        )
    }
}

fn expand(format: PixelFormat, pixels: &Vec<u8>) -> (r: Vec<u8>)
    requires
        format == PixelFormat::R8 || format == PixelFormat::R8G8 || format == PixelFormat::R8G8B8,
    ensures
        r@ == expanded(format, pixels@),
{
    let size: usize = match format {
        PixelFormat::R8 => 1,
        PixelFormat::R8G8 => 2,
        _ => 3,
    };
    let count: usize = pixels.len() / size;
    let mut out: Vec<u8> = Vec::new();
    let mut i: usize = 0;
    while i < count
        invariant
            i <= count,
            size == format.size(),
            1 <= size <= 3,
            count == pixels@.len() as int / size as int,
            format == PixelFormat::R8 || format == PixelFormat::R8G8 || format
                == PixelFormat::R8G8B8,
            out@.len() == i * 4,
            forall|j: int|
                0 <= j < out@.len() ==> #[trigger] out@[j] == format.channel(
                    pixels@.subrange(j / 4 * format.size(), (j / 4 + 1) * format.size()),
                    j % 4,
                ),
        decreases count - i,
    {
        assert(pixels@.len() == pixels.len());
        assert(i * size + size <= count * size) by (nonlinear_arith)
            requires
                i < count,
        ;
        assert(count * size <= pixels@.len()) by {
            vstd::arithmetic::div_mod::lemma_fundamental_div_mod(
                pixels@.len() as int,
                size as int,
            );
            assert(count * size == size * (pixels@.len() as int / size as int))
                by (nonlinear_arith)
                requires
                    count == pixels@.len() as int / size as int,
            ;
        }
        let at: usize = i * size;
        let ghost pixel = pixels@.subrange(i * format.size(), (i + 1) * format.size());
        assert((i + 1) * size == i * size + size) by (nonlinear_arith);
        let red: u8 = pixels[at];
        let green: u8 = if size == 1 {
            red
        } else {
            pixels[at + 1]
        };
        let blue: u8 = if size == 1 {
            red
        } else if size == 2 {
            0
        } else {
            pixels[at + 2]
        };
        assert(red == pixel[0]);
        out.push(red);
        out.push(green);
        out.push(blue);
        out.push(255);
        i = i + 1;
    }
    assert(out@ =~= expanded(format, pixels@));
    out
}

/// Bring one of the images to four bytes for each pixel. There is nothing for
/// an image that does not exist or has a format that is not understood.
pub fn decode_image(images: &Vec<ImageData>, index: usize) -> (r: Option<TextureImage>)
    ensures
        r.is_some() <==> index < images@.len() && images@[index as int].format
            != PixelFormat::Wide,
        r matches Some(image) ==> {
            &&& image.width == images@[index as int].width
            &&& image.height == images@[index as int].height
            &&& image.rgba@ == expanded(
                images@[index as int].format,
                images@[index as int].pixels@,
            )
        },
{
    if index >= images.len() {
        return None;
    }
    let image: &ImageData = &images[index];
    let rgba: Vec<u8> = match image.format {
        PixelFormat::R8G8B8A8 => image.pixels.clone(),
        PixelFormat::Wide => {
            return None;
        },
        other => expand(other, &image.pixels),
    };
    Some(TextureImage { width: image.width, height: image.height, rgba })
}

} // verus!
