use vstd::prelude::*;
use vstd::string::StringExecFns;

verus! {

/// What a texture holds, which decides its format on the device.
#[derive(Clone, Copy, Debug, PartialEq, Eq, Structural)]
pub enum TextureType {
    Diffuse,
    Normal,
    Depth,
}

/// How the device holds the pixels of a texture.
#[derive(Clone, Copy, Debug, PartialEq, Eq, Structural)]
pub enum TextureFormat {
    /// Four bytes for red, green, blue and alpha, read as they are.
    Rgba8Unorm,
    /// Four bytes for red, green, blue and alpha, the colours in sRGB.
    Rgba8UnormSrgb,
    /// One 32-bit depth.
    Depth32,
}

impl TextureType {
    /// The format of the textures of this type: colours are in sRGB, normals are not.
    pub open spec fn format(self) -> TextureFormat {
        match self {
            TextureType::Normal => TextureFormat::Rgba8Unorm,
            TextureType::Diffuse => TextureFormat::Rgba8UnormSrgb,
            TextureType::Depth => TextureFormat::Depth32,
        }
    }
}

/// Why no texture could be made.
#[derive(Clone, Copy, Debug, PartialEq, Eq, Structural)]
pub enum TextureError {
    /// The bytes are no image in a format that can be decoded.
    Undecodable,
}

/// A texture on the CPU side: its size and, unless it is a depth texture, its pixels as
/// rows of RGBA bytes.
#[derive(Debug)]
pub struct Texture {
    pub label: String,
    pub dimensions: (u32, u32),
    pub rgba_image: Option<Vec<u8>>,
    pub type_: TextureType,
}

/// Makes `image::ImageError` known: the error of a failed decoding, which is passed on
/// unread.
#[verifier::external_type_specification]
#[verifier::external_body]
pub struct ExImageError(image::ImageError);

/// What `image::load_from_memory` makes of an encoded image, converted to RGBA: width,
/// height and pixel bytes, or nothing where it reports an error.
pub uninterp spec fn decoded_rgba(bytes: Seq<u8>) -> Option<(u32, u32, Seq<u8>)>;

/// Calls `image::load_from_memory`, and on the image it returns `dimensions` and
/// `to_rgba8`.
///
/// Trusted: the outcome depends on the bytes alone, and an RGBA image has four bytes for
/// each of its `width * height` pixels.
#[verifier::external_body]
fn decode_rgba(bytes: &[u8]) -> (decoded: Result<(u32, u32, Vec<u8>), image::ImageError>)
    ensures
        match decoded {
            Ok((width, height, pixels)) => {
                &&& decoded_rgba(bytes@) == Some((width, height, pixels@))
                &&& pixels@.len() == 4 * width * height
            },
            Err(_) => decoded_rgba(bytes@).is_none(),
        },
{
    let img = image::load_from_memory(bytes)?;
    let (width, height) = image::GenericImageView::dimensions(&img);
    Ok((width, height, img.to_rgba8().into_raw()))
}

impl Texture {
    /// Whether the texture has the pixels that its type and size call for.
    pub open spec fn wf(&self) -> bool {
        match self.rgba_image {
            Some(pixels) => self.type_ != TextureType::Depth && pixels@.len() == 4
                * self.dimensions.0 * self.dimensions.1,
            None => self.type_ == TextureType::Depth,
        }
    }

    /// The texture of an encoded image: a normal map where `is_normal_map`, else a diffuse
    /// texture. Fails exactly where the image cannot be decoded.
    pub fn from_bytes(bytes: &[u8], label: &str, is_normal_map: bool) -> (loaded: Result<
        Texture,
        TextureError,
    >)
        ensures
            match loaded {
                Ok(texture) => {
                    &&& texture.rgba_image.is_some()
                    &&& decoded_rgba(bytes@) == Some(
                        (
                            texture.dimensions.0,
                            texture.dimensions.1,
                            texture.rgba_image.unwrap()@,
                        ),
                    )
                    &&& texture.label@ == label@
                    &&& texture.type_ == if is_normal_map {
                        TextureType::Normal
                    } else {
                        TextureType::Diffuse
                    }
                    &&& texture.wf()
                },
                Err(error) => error == TextureError::Undecodable && decoded_rgba(
                    bytes@,
                ).is_none(),
            },
    {
        match decode_rgba(bytes) {
            Ok((width, height, pixels)) => Ok(
                Texture::from_image((width, height), pixels, label, is_normal_map),
            ),
            Err(_) => Err(TextureError::Undecodable),
        }
    }

    /// The texture of a decoded image of the size `dimensions` with the RGBA bytes
    /// `rgba_image`: a normal map where `is_normal_map`, else a diffuse texture.
    pub fn from_image(
        dimensions: (u32, u32),
        rgba_image: Vec<u8>,
        label: &str,
        is_normal_map: bool,
    ) -> (texture: Texture)
        ensures
            texture.label@ == label@,
            texture.dimensions == dimensions,
            texture.rgba_image == Some(rgba_image),
            texture.type_ == if is_normal_map {
                TextureType::Normal
            } else {
                TextureType::Diffuse
            },
    {
        let type_ = if is_normal_map {
            TextureType::Normal
        } else {
            TextureType::Diffuse
        };
        Texture {
            label: String::from_str(label),
            dimensions,
            rgba_image: Some(rgba_image),
            type_,
        }
    }

    /// The format in which the device holds the texture.
    pub fn format(&self) -> (format: TextureFormat)
        ensures
            format == self.type_.format(),
    {
        match self.type_ {
            TextureType::Normal => TextureFormat::Rgba8Unorm,
            TextureType::Diffuse => TextureFormat::Rgba8UnormSrgb,
            TextureType::Depth => TextureFormat::Depth32,
        }
    }

    /// How the pixels are laid out for upload: the bytes of one row, four for each pixel, and
    /// the number of rows. A texture without pixels has nothing to upload, and neither has
    /// one whose rows are too long for the device.
    pub fn upload_layout(&self) -> (layout: Option<(u32, u32)>)
        ensures
            match layout {
                Some((bytes_per_row, rows)) => {
                    &&& self.rgba_image.is_some()
                    &&& bytes_per_row == 4 * self.dimensions.0
                    &&& rows == self.dimensions.1
                },
                None => self.rgba_image.is_none() || 4 * self.dimensions.0 > u32::MAX,
            },
    {
        if self.rgba_image.is_none() {
            return None;
        }
        match self.dimensions.0.checked_mul(4) {
            Some(bytes_per_row) => Some((bytes_per_row, self.dimensions.1)),
            None => None,
        }
    }

    /// The depth texture of a surface of `width` by `height` pixels. It has no pixels of its
    /// own.
    pub fn create_depth_texture(width: u32, height: u32, label: &str) -> (texture: Texture)
        ensures
            texture.label@ == label@,
            texture.dimensions == (width, height),
            texture.rgba_image.is_none(),
            texture.type_ == TextureType::Depth,
            texture.wf(),
    {
        Texture {
            label: String::from_str(label),
            dimensions: (width, height),
            rgba_image: None,
            type_: TextureType::Depth,
        }
    }
}

} // verus!
