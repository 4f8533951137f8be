//! The image stage: images are decoded and encoded again in one format.
use vstd::prelude::*;

verus! {

/// The formats an image can be converted to.
#[derive(Debug, Clone, Copy, PartialEq, Eq)]
pub enum ImageFormat {
    WebP,
    Png,
    Jpeg,
}

pub open spec fn format_code(f: ImageFormat) -> u8 {
    match f {
        ImageFormat::WebP => 0,
        ImageFormat::Png => 1,
        ImageFormat::Jpeg => 2,
    }
}

/// What the `image` crate makes of `bytes` in the format with `code`, or
/// none where it cannot read or write them.
pub uninterp spec fn image_converted(bytes: Seq<u8>, code: u8) -> Option<Seq<u8>>;

/// Relies on the `image` crate: guesses the format of `bytes`, decodes them
/// and encodes the image in `format`. The error carries its description.
#[verifier::external_body]
fn convert_image(bytes: &Vec<u8>, format: ImageFormat) -> (r: Result<Vec<u8>, String>)
    ensures
        match r {
            Ok(o) => image_converted(bytes@, format_code(format)) == Some(o@),
            Err(_) => image_converted(bytes@, format_code(format)) is None,
        },
{
    let target = match format {
        ImageFormat::WebP => image::ImageFormat::WebP,
        ImageFormat::Png => image::ImageFormat::Png,
        ImageFormat::Jpeg => image::ImageFormat::Jpeg,
    };
    let reader = image::ImageReader::new(std::io::Cursor::new(bytes.as_slice()))
        .with_guessed_format()
        .map_err(|e| e.to_string())?;
    let img = reader.decode().map_err(|e| e.to_string())?;
    let mut out = Vec::new();
    img.write_to(&mut std::io::Cursor::new(&mut out), target).map_err(|e| e.to_string())?;
    Ok(out)
}

/// The image stage.
pub struct ImageConverter {
    format: ImageFormat,
}

impl ImageConverter {
    pub closed spec fn target(&self) -> ImageFormat {
        self.format
    }

    /// A stage converting to `format`.
    pub fn new(format: ImageFormat) -> (r: ImageConverter)
        ensures
            r.target() == format,
    {
        ImageConverter { format }
    }

    /// A stage converting to WebP.
    pub fn default() -> (r: ImageConverter)
        ensures
            r.target() == ImageFormat::WebP,
    {
        ImageConverter::new(ImageFormat::WebP)
    }

    /// The image `bytes`, converted.
    pub fn process(&self, bytes: &Vec<u8>) -> (r: Result<Vec<u8>, String>)
        ensures
            match r {
                Ok(o) => image_converted(bytes@, format_code(self.target())) == Some(o@),
                Err(_) => image_converted(bytes@, format_code(self.target())) is None,
            },
    {
        convert_image(bytes, self.format)
    }
}

} // verus!
