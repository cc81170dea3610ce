//! Codec for the `VCB+` blueprint clipboard format.
//!
//! A blueprint travels as text: the marker `VCB+` followed by the base64 of
//! a binary body. All integers of the body are big-endian.
//!
//! ```text
//! text   := "VCB+" base64(body)
//! body   := header block*
//! header := version(3) checksum(6) width(u32) height(u32)
//! block  := size(u32) tag(u32) payload_len(u32) zstd(payload)
//! tag    := 0 logic | 1 deco on | 2 deco off | 1024 name | 1025 description | 1026 tags
//! ```
//!
//! `size` counts the whole block, its own four bytes included. The payload
//! of a layer is `width * height` cells of four bytes each, RGBA; that of a
//! text field is UTF-8. The checksum is the first six bytes of the SHA-1
//! digest of the base64 text of everything that follows the checksum field.
//!
//! [`Blueprint::try_from_str`] decodes a text and [`Blueprint::encode`]
//! writes one. Their contracts are stated over [`blueprint::decoded`], which
//! says what every text decodes to, and
//! [`blueprint::BlueprintView::encoded`], which says what every blueprint
//! encodes to, error cases included.
//!
//! The modules, from the bytes up:
//!
//! * [`wire`]: big-endian integers;
//! * [`pixel`]: cells and their colour channels;
//! * [`text`]: UTF-8 payloads and the tag list;
//! * [`compress`], [`envelope`], [`checksum`], [`grid`]: what is left to
//!   Zstandard, base64, SHA-1 and `ndarray`. Each of these calls is made in
//!   one small function whose contract is taken on trust; everything else
//!   is proved from those contracts;
//! * [`block`], [`frame`]: blocks, the header and the body;
//! * [`blueprint`]: the blueprint, assembled from blocks and taken apart;
//! * [`laws`]: what follows: round trips, rejections, the first-block rule.

pub mod error;
pub mod wire;
pub mod pixel;
pub mod text;
pub mod compress;
pub mod grid;
pub mod envelope;
pub mod checksum;
pub mod block;
pub mod frame;
pub mod blueprint;
pub mod laws;

pub use blueprint::{Blueprint, DecodeOptions};
pub use error::{CodecError, DomainError, Error, FormatError};
pub use grid::Grid;
pub use pixel::Rgba;
