use vstd::prelude::*;

verus! {

/// Why a disk image or a raw track could not be processed.
#[derive(Clone, Copy, Debug, PartialEq, Eq, Structural)]
pub enum ImageError {
    /// The image holds fewer sectors than its geometry needs.
    NotEnoughSectors,
    /// A head number other than 0 or 1.
    HeadOutOfRange,
    /// A sector of the wrong size.
    WrongSectorSize,
    /// The image file has a size that no supported geometry has.
    WrongImageSize,
    /// The file does not start with the signature of its format.
    BadSignature,
    /// A field of the image points outside of the file.
    OutOfBounds,
    /// The image uses a feature of its format that is not supported.
    Unsupported,
    /// A value of the image is not plausible.
    Implausible,
}

} // verus!
