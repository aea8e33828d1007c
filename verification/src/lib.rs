//! Conversion of embedded ELF executables into TBF (Tock Binary Format)
//! images, and planning of TAB archives that bundle such images.
//!
//! The pipeline selects the ELF sections that belong in the flash image,
//! computes layout offsets, derives the minimum RAM requirement, locates the
//! program entry point, packs relocation data, and produces a header whose
//! fields are consistent with the generated image.

pub mod align;
pub mod byteseq;
pub mod sections;
pub mod ram;
pub mod header;
pub mod layout;
pub mod convert;
pub mod metadata;
