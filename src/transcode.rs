use vstd::prelude::*;

verus! {

#[verifier::external_type_specification]
#[verifier::external_body]
pub struct ExDynamicImage(image::DynamicImage);

#[verifier::external_type_specification]
#[verifier::external_body]
pub struct ExImageError(image::ImageError);

/// Pixel layout of a decoded image, as far as the WebP encoder cares.
#[derive(Clone, Copy, Debug, PartialEq, Eq, Structural)]
pub enum PixelLayout {
    Gray8,
    GrayAlpha8,
    Rgb8,
    Rgba8,
    /// Any other layout (16-bit or floating-point channels).
    Other,
}

/// What is done to a decoded image before the WebP encoder takes it.
#[derive(Clone, Copy, Debug, PartialEq, Eq, Structural)]
pub enum Preparation {
    /// The encoder takes the image as it is.
    AsIs,
    /// Grayscale, with or without alpha, becomes three-channel color first
    /// (the alpha channel is dropped).
    PromoteToRgb,
    /// The encoder has no input for this layout.
    Unsupported,
}

/// Why a page could not be made ready for WebP encoding.
#[derive(Clone, Copy, Debug, PartialEq, Eq, Structural)]
pub enum TranscodeError {
    /// The bytes are not an image that could be decoded.
    Undecodable,
    /// The image's pixel layout cannot be encoded.
    UnsupportedLayout,
}

/// The preparation each layout needs.
pub open spec fn preparation_of(l: PixelLayout) -> Preparation {
    match l {
        PixelLayout::Rgb8 | PixelLayout::Rgba8 => Preparation::AsIs,
        PixelLayout::Gray8 | PixelLayout::GrayAlpha8 => Preparation::PromoteToRgb,
        PixelLayout::Other => Preparation::Unsupported,
    }
}

/// Decides how a decoded image reaches the WebP encoder, which takes 8-bit
/// RGB and RGBA only.
pub fn preparation(l: PixelLayout) -> (r: Preparation)
    ensures
        r == preparation_of(l),
{
    match l {
        PixelLayout::Rgb8 | PixelLayout::Rgba8 => Preparation::AsIs,
        PixelLayout::Gray8 | PixelLayout::GrayAlpha8 => Preparation::PromoteToRgb,
        PixelLayout::Other => Preparation::Unsupported,
    }
}

/// Layout of the image that the bytes decode to, or `None` where they do
/// not decode.
pub uninterp spec fn decoded_layout(b: Seq<u8>) -> Option<PixelLayout>;

/// Relies on image::load_from_memory, which guesses the format from the
/// bytes and decodes them: the outcome depends on the bytes alone. The
/// layout is read off the decoded image's variant.
#[verifier::external_body]
fn decode_image(bytes: &[u8]) -> (r: Result<(image::DynamicImage, PixelLayout), image::ImageError>)
    ensures
        r is Ok <==> decoded_layout(bytes@) is Some,
        r is Ok ==> Some(r->Ok_0.1) == decoded_layout(bytes@),
{
    let im = image::load_from_memory(bytes)?;
    let layout = match &im {
        image::DynamicImage::ImageLuma8(_) => PixelLayout::Gray8,
        image::DynamicImage::ImageLumaA8(_) => PixelLayout::GrayAlpha8,
        image::DynamicImage::ImageRgb8(_) => PixelLayout::Rgb8,
        image::DynamicImage::ImageRgba8(_) => PixelLayout::Rgba8,
        _ => PixelLayout::Other,
    };
    Ok((im, layout))
}

/// Relies on image::DynamicImage::into_rgb8: the image converted to 8-bit RGB.
#[verifier::external_body]
fn into_rgb(im: image::DynamicImage) -> (r: image::DynamicImage) {
    image::DynamicImage::from(im.into_rgb8())
}

/// Decodes a page and brings it into a layout the WebP encoder takes:
/// `Undecodable` where the bytes do not decode, `UnsupportedLayout` where
/// the decoded layout has no preparation, and the (possibly promoted) image
/// otherwise.
pub fn prepare_for_webp(bytes: &[u8]) -> (r: Result<image::DynamicImage, TranscodeError>)
    ensures
        r == Err::<image::DynamicImage, TranscodeError>(TranscodeError::Undecodable) <==> decoded_layout(bytes@) is None,
        r == Err::<image::DynamicImage, TranscodeError>(TranscodeError::UnsupportedLayout) <==> (
        decoded_layout(bytes@) is Some && preparation_of(decoded_layout(bytes@)->Some_0)
            == Preparation::Unsupported),
        r is Ok <==> (decoded_layout(bytes@) is Some && preparation_of(
            decoded_layout(bytes@)->Some_0,
        ) != Preparation::Unsupported),
{
    let (im, layout) = match decode_image(bytes) {
        Ok(d) => d,
        Err(_) => return Err(TranscodeError::Undecodable),
    };
    match preparation(layout) {
        Preparation::AsIs => Ok(im),
        Preparation::PromoteToRgb => Ok(into_rgb(im)),
        Preparation::Unsupported => Err(TranscodeError::UnsupportedLayout),
    }
}

} // verus!
