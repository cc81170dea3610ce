//! Blocks: the tagged payloads that follow the header.

use vstd::prelude::*;
use vstd::string::StrSliceExecFns;
use vstd::utf8::{
    decode_utf8, encode_utf8, encode_utf8_decode_utf8, encode_utf8_valid_utf8, valid_utf8,
};
use crate::error::CodecError;
use crate::pixel::{
    bytes_of_cells, cells_from_be_bytes, cells_of_bytes, cells_to_be_bytes,
    lemma_cells_of_bytes_of_cells,
};
use crate::text::text_from_utf8;

verus! {

/// The three pixel layers.
#[derive(Debug, Clone, Copy, PartialEq, Eq, Structural)]
pub enum LayerKind {
    Logic,
    DecoOn,
    DecoOff,
}

/// The three text fields.
#[derive(Debug, Clone, Copy, PartialEq, Eq, Structural)]
pub enum TextKind {
    Name,
    Description,
    Tags,
}

/// What a block holds, as its 4-byte tag says.
#[derive(Debug, Clone, Copy, PartialEq, Eq, Structural)]
pub enum BlockKind {
    Layer(LayerKind),
    Text(TextKind),
}

impl BlockKind {
    /// The kind that a tag names, if it names one.
    pub open spec fn of_tag(tag: u32) -> Option<BlockKind> {
        if tag == 0 {
            Some(BlockKind::Layer(LayerKind::Logic))
        } else if tag == 1 {
            Some(BlockKind::Layer(LayerKind::DecoOn))
        } else if tag == 2 {
            Some(BlockKind::Layer(LayerKind::DecoOff))
        } else if tag == 1024 {
            Some(BlockKind::Text(TextKind::Name))
        } else if tag == 1025 {
            Some(BlockKind::Text(TextKind::Description))
        } else if tag == 1026 {
            Some(BlockKind::Text(TextKind::Tags))
        } else {
            None
        }
    }

    /// The tag of a kind.
    pub open spec fn tag_of(self) -> u32 {
        match self {
            BlockKind::Layer(LayerKind::Logic) => 0,
            BlockKind::Layer(LayerKind::DecoOn) => 1,
            BlockKind::Layer(LayerKind::DecoOff) => 2,
            BlockKind::Text(TextKind::Name) => 1024,
            BlockKind::Text(TextKind::Description) => 1025,
            BlockKind::Text(TextKind::Tags) => 1026,
        }
    }

    /// Tags and kinds correspond one to one.
    pub proof fn lemma_tag_round_trip(kind: BlockKind, tag: u32)
        ensures
            BlockKind::of_tag(kind.tag_of()) == Some(kind),
            BlockKind::of_tag(tag) == Some(kind) ==> kind.tag_of() == tag,
    {
    }

    /// Reads a tag. A tag outside the six known ones names nothing.
    pub fn from_tag(tag: u32) -> (r: Option<BlockKind>)
        ensures
            r == BlockKind::of_tag(tag),
    {
        if tag == 0 {
            Some(BlockKind::Layer(LayerKind::Logic))
        } else if tag == 1 {
            Some(BlockKind::Layer(LayerKind::DecoOn))
        } else if tag == 2 {
            Some(BlockKind::Layer(LayerKind::DecoOff))
        } else if tag == 1024 {
            Some(BlockKind::Text(TextKind::Name))
        } else if tag == 1025 {
            Some(BlockKind::Text(TextKind::Description))
        } else if tag == 1026 {
            Some(BlockKind::Text(TextKind::Tags))
        } else {
            None
        }
    }

    /// The tag to write for this kind.
    pub fn tag(self) -> (tag: u32)
        ensures
            tag == self.tag_of(),
    {
        match self {
            BlockKind::Layer(LayerKind::Logic) => 0,
            BlockKind::Layer(LayerKind::DecoOn) => 1,
            BlockKind::Layer(LayerKind::DecoOff) => 2,
            BlockKind::Text(TextKind::Name) => 1024,
            BlockKind::Text(TextKind::Description) => 1025,
            BlockKind::Text(TextKind::Tags) => 1026,
        }
    }
}

/// One decoded block: a layer with its cells or a text field with its text.
#[derive(Debug, PartialEq, Eq)]
pub enum Block {
    Layer(LayerKind, Vec<u32>),
    Text(TextKind, String),
}

impl Block {
    /// The kind of the block.
    pub fn kind(&self) -> (kind: BlockKind)
        ensures
            kind == self@.kind(),
    {
        match self {
            Block::Layer(kind, _) => BlockKind::Layer(*kind),
            Block::Text(kind, _) => BlockKind::Text(*kind),
        }
    }
}

/// What a block is: its kind and its cells or characters.
pub enum BlockView {
    Layer(LayerKind, Seq<u32>),
    Text(TextKind, Seq<char>),
}

impl View for Block {
    type V = BlockView;

    open spec fn view(&self) -> BlockView {
        match self {
            Block::Layer(kind, cells) => BlockView::Layer(*kind, cells@),
            Block::Text(kind, text) => BlockView::Text(*kind, text@),
        }
    }
}

impl BlockView {
    /// The kind of the block.
    pub open spec fn kind(self) -> BlockKind {
        match self {
            BlockView::Layer(kind, _) => BlockKind::Layer(kind),
            BlockView::Text(kind, _) => BlockKind::Text(kind),
        }
    }

    /// The payload of the block before compression: the cells most
    /// significant byte first, or the text as UTF-8.
    pub open spec fn payload(self) -> Seq<u8> {
        match self {
            BlockView::Layer(_, cells) => bytes_of_cells(cells),
            BlockView::Text(_, text) => encode_utf8(text),
        }
    }
}

/// The block that a decompressor's outcome yields for a block of this kind
/// that starts at `offset`: a failed decompression, a layer that is not a
/// whole number of cells and a text that is not UTF-8 are errors.
pub open spec fn payload_block(kind: BlockKind, offset: usize, data: Option<Seq<u8>>) -> Result<
    BlockView,
    CodecError,
> {
    match data {
        None => Err(CodecError::DecompressionFailed { offset, tag: kind.tag_of() }),
        Some(bytes) => match kind {
            BlockKind::Layer(layer) => if bytes.len() % 4 != 0 {
                Err(CodecError::MisalignedBuffer { offset, tag: kind.tag_of() })
            } else {
                Ok(BlockView::Layer(layer, cells_of_bytes(bytes)))
            },
            BlockKind::Text(field) => if !valid_utf8(bytes) {
                Err(CodecError::InvalidUtf8 { offset, tag: kind.tag_of() })
            } else {
                Ok(BlockView::Text(field, decode_utf8(bytes)))
            },
        },
    }
}

/// The view of a decoded block, or the error.
pub open spec fn block_result_view(r: Result<Block, CodecError>) -> Result<BlockView, CodecError> {
    match r {
        Ok(block) => Ok(block@),
        Err(e) => Err(e),
    }
}

/// The bytes of an optional buffer.
pub open spec fn bytes_option_view(data: Option<Vec<u8>>) -> Option<Seq<u8>> {
    match data {
        Some(bytes) => Some(bytes@),
        None => None,
    }
}

/// A block's own payload decodes to the block.
pub proof fn lemma_payload_round_trip(block: BlockView, offset: usize)
    ensures
        payload_block(block.kind(), offset, Some(block.payload())) == Ok::<BlockView, CodecError>(
            block,
        ),
{
    match block {
        BlockView::Layer(_, cells) => {
            lemma_cells_of_bytes_of_cells(cells);
        },
        BlockView::Text(_, text) => {
            encode_utf8_valid_utf8(text);
            encode_utf8_decode_utf8(text);
        },
    }
}

/// Builds the block of kind `kind` that starts at `offset` from what the
/// decompressor made of its stream; `None` stands for a failed decompression.
pub fn decode_payload(kind: BlockKind, offset: usize, decompressed: Option<Vec<u8>>) -> (r: Result<
    Block,
    CodecError,
>)
    ensures
        block_result_view(r) == payload_block(kind, offset, bytes_option_view(decompressed)),
{
    let tag = kind.tag();
    match decompressed {
        None => Err(CodecError::DecompressionFailed { offset, tag }),
        Some(bytes) => match kind {
            BlockKind::Layer(layer) => match cells_from_be_bytes(bytes.as_slice()) {
                Some(cells) => Ok(Block::Layer(layer, cells)),
                None => Err(CodecError::MisalignedBuffer { offset, tag }),
            },
            BlockKind::Text(field) => match text_from_utf8(bytes) {
                Some(text) => Ok(Block::Text(field, text)),
                None => Err(CodecError::InvalidUtf8 { offset, tag }),
            },
        },
    }
}

/// The payload of a block, ready for compression.
pub fn encode_payload(block: &Block) -> (bytes: Vec<u8>)
    ensures
        bytes@ == block@.payload(),
{
    match block {
        Block::Layer(_, cells) => cells_to_be_bytes(cells.as_slice()),
        Block::Text(_, text) => text.as_str().as_bytes_vec(),
    }
}

} // verus!
