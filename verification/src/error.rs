//! The one error type of the library.

use vstd::prelude::*;

verus! {

#[verifier::external_type_specification]
#[verifier::external_body]
pub struct ExIoError(std::io::Error);

#[verifier::external_type_specification]
#[verifier::external_body]
pub struct ExImageError(image::ImageError);

/// What can end a run. The text of a variant is the debug rendering of the
/// failure it wraps.
#[derive(Debug)]
pub enum Error {
    /// The file dialog failed.
    Nfd(String),
    /// Reading an input or writing an archive entry failed.
    Io(String),
    /// The window layer failed.
    Tauri(String),
    /// A helper process could not be run.
    TauriApi(String),
    /// The container decoder failed.
    NinRes(String),
    /// A texture could not be encoded as PNG.
    Image(String),
    /// The user closed the file dialog without choosing.
    FileSelectCanceled,
    /// A selected file is of a kind that cannot be processed.
    FileExtensionUnsupported,
    /// These required game files are in none of the selected archives.
    RequiredFilesMissing(Vec<String>),
    /// A selected file needs the production key, and none is set.
    ProdKeyNotSet,
}

/// The `Debug` rendering of a `std::io::Error`. Nothing is claimed of the text.
#[verifier::external_body]
fn io_error_text(err: &std::io::Error) -> (text: String) {
    format!("{:?}", err)
}

/// The `Debug` rendering of an `image::ImageError`. Nothing is claimed of the
/// text.
#[verifier::external_body]
fn image_error_text(err: &image::ImageError) -> (text: String) {
    format!("{:?}", err)
}

impl Error {
    /// An I/O failure becomes `Error::Io`.
    pub fn from_io(err: std::io::Error) -> (e: Error)
        ensures
            e is Io,
    {
        Error::Io(io_error_text(&err))
    }

    /// A failure of the image codec becomes `Error::Image`.
    pub fn from_image(err: image::ImageError) -> (e: Error)
        ensures
            e is Image,
    {
        Error::Image(image_error_text(&err))
    }
}

} // verus!
