//! The body of a blueprint: a fixed header and a run of size-prefixed blocks.

use vstd::prelude::*;
use vstd::slice::slice_subrange;
use crate::block::{
    decode_payload, encode_payload, lemma_payload_round_trip, payload_block, Block, BlockKind,
    BlockView,
};
use crate::checksum::{checksum_holds, checksum_of, compute_checksum, CHECKSUM_END, CHECKSUM_LEN};
use crate::compress::{compress, decompress, zstd_decoded, zstd_encoded, COMPRESSION_LEVEL};
use crate::envelope::{bytes_result_view, max_body_len};
use crate::error::{CodecError, Error, FormatError};
use crate::wire::{append_bytes, be_bytes, be_u32, lemma_be_u32_of_bytes, push_u32_be, u32_at};

verus! {

/// The length of the header: version, checksum, width and height.
pub const HEADER_LEN: usize = 17;

/// The length of what precedes the compressed stream in a block: the size
/// of the block, its tag and the length of its payload before compression.
pub const PREAMBLE_LEN: usize = 12;

/// The version that this library writes.
pub const FORMAT_VERSION: [u8; 3] = [0, 0, 0];

/// The fixed header of a body.
#[derive(Debug, Clone, Copy, PartialEq, Eq)]
pub struct Header {
    /// Format revision marker, not interpreted.
    pub version: [u8; 3],
    /// The first six bytes of a digest of what follows this field.
    pub checksum: [u8; 6],
    /// The number of cells in a row of every layer.
    pub width: u32,
    /// The number of rows of every layer.
    pub height: u32,
}

/// What a header says.
pub struct HeaderView {
    pub version: Seq<u8>,
    pub checksum: Seq<u8>,
    pub width: u32,
    pub height: u32,
}

impl View for Header {
    type V = HeaderView;

    open spec fn view(&self) -> HeaderView {
        HeaderView {
            version: self.version@,
            checksum: self.checksum@,
            width: self.width,
            height: self.height,
        }
    }
}

/// The header that the first seventeen bytes of a body spell.
pub open spec fn header_of(body: Seq<u8>) -> HeaderView
    recommends
        body.len() >= HEADER_LEN,
{
    HeaderView {
        version: body.subrange(0, 3),
        checksum: body.subrange(3, 9),
        width: be_u32(body.subrange(9, 13)),
        height: be_u32(body.subrange(13, 17)),
    }
}

/// The block that starts at offset `pos` of a body, with the offset at which
/// it ends. In order: the size and the tag must be there; the tag must name
/// a kind; the size must cover the preamble; the block must end within the
/// body; the compressed stream must yield a payload of the block's kind.
/// The length that the preamble records for the payload is not consulted.
pub open spec fn block_at(body: Seq<u8>, pos: int) -> Result<(BlockView, int), Error> {
    let offset = pos as usize;
    if pos + 8 > body.len() {
        Err(Error::Format(FormatError::Truncated { offset }))
    } else {
        let size = be_u32(body.subrange(pos, pos + 4));
        let tag = be_u32(body.subrange(pos + 4, pos + 8));
        match BlockKind::of_tag(tag) {
            None => Err(Error::Format(FormatError::UnknownTag { offset, tag })),
            Some(kind) => if size < PREAMBLE_LEN {
                Err(Error::Format(FormatError::SizeTooSmall { offset, size }))
            } else if pos + size > body.len() {
                Err(Error::Format(FormatError::Truncated { offset }))
            } else {
                match payload_block(
                    kind,
                    offset,
                    zstd_decoded(body.subrange(pos + PREAMBLE_LEN, pos + size)),
                ) {
                    Err(e) => Err(Error::Codec(e)),
                    Ok(block) => Ok((block, pos + size)),
                }
            },
        }
    }
}

/// The blocks of a body from offset `pos` to its end, or the error of the
/// first block that has one.
pub open spec fn blocks_from(body: Seq<u8>, pos: int) -> Result<Seq<BlockView>, Error>
    decreases body.len() - pos,
{
    if pos >= body.len() {
        Ok(Seq::empty())
    } else {
        match block_at(body, pos) {
            Err(e) => Err(e),
            Ok((block, next)) => match blocks_from(body, next) {
                Err(e) => Err(e),
                Ok(rest) => Ok(seq![block] + rest),
            },
        }
    }
}

/// The header and the blocks of a body. A body shorter than a header is
/// truncated at offset zero.
pub open spec fn parsed(body: Seq<u8>) -> Result<(HeaderView, Seq<BlockView>), Error> {
    if body.len() < HEADER_LEN {
        Err(Error::Format(FormatError::Truncated { offset: 0 }))
    } else {
        match blocks_from(body, HEADER_LEN as int) {
            Err(e) => Err(e),
            Ok(blocks) => Ok((header_of(body), blocks)),
        }
    }
}

/// The bytes of one block around its compressed stream.
pub open spec fn block_bytes(tag: u32, payload_len: u32, compressed: Seq<u8>) -> Seq<u8> {
    be_bytes((PREAMBLE_LEN + compressed.len()) as u32) + be_bytes(tag) + be_bytes(payload_len)
        + compressed
}

/// The views of a run of blocks.
pub open spec fn blocks_view(blocks: Seq<Block>) -> Seq<BlockView> {
    blocks.map_values(|b: Block| b@)
}

/// The view of a block just read, with the offset at which it ends.
pub open spec fn read_result_view(r: Result<(Block, usize), Error>) -> Result<
    (BlockView, int),
    Error,
> {
    match r {
        Ok((block, next)) => Ok((block@, next as int)),
        Err(e) => Err(e),
    }
}

/// The view of a parse result.
pub open spec fn parse_result_view(r: Result<(Header, Vec<Block>), Error>) -> Result<
    (HeaderView, Seq<BlockView>),
    Error,
> {
    match r {
        Ok((header, blocks)) => Ok((header@, blocks_view(blocks@))),
        Err(e) => Err(e),
    }
}

/// Blocks already read, followed by the outcome for the rest of the body.
pub open spec fn after(done: Seq<BlockView>, rest: Result<Seq<BlockView>, Error>) -> Result<
    Seq<BlockView>,
    Error,
> {
    match rest {
        Ok(more) => Ok(done + more),
        Err(e) => Err(e),
    }
}

/// Whether a body from offset `pos` to its end is exactly these blocks, one
/// written after the other: each with its size, the tag of its kind, the
/// length of its payload and a compressed stream that yields the payload.
pub open spec fn holds_blocks(body: Seq<u8>, pos: int, blocks: Seq<BlockView>) -> bool
    decreases blocks.len(),
{
    if blocks.len() == 0 {
        pos == body.len()
    } else {
        let size = be_u32(body.subrange(pos, pos + 4));
        &&& 0 <= pos
        &&& pos + PREAMBLE_LEN <= body.len()
        &&& PREAMBLE_LEN <= size
        &&& pos + size <= body.len()
        &&& be_u32(body.subrange(pos + 4, pos + 8)) == blocks[0].kind().tag_of()
        &&& be_u32(body.subrange(pos + 8, pos + 12)) == blocks[0].payload().len()
        &&& zstd_decoded(body.subrange(pos + PREAMBLE_LEN, pos + size)) == Some(
            blocks[0].payload(),
        )
        &&& holds_blocks(body, pos + size, blocks.drop_first())
    }
}

/// Whether a body is this header followed by exactly these blocks.
pub open spec fn written(body: Seq<u8>, header: HeaderView, blocks: Seq<BlockView>) -> bool {
    &&& body.len() >= HEADER_LEN
    &&& header_of(body) == header
    &&& holds_blocks(body, HEADER_LEN as int, blocks)
}

/// Whether the payload of some block is too long for its length field.
pub open spec fn payload_overflows(blocks: Seq<BlockView>) -> bool {
    exists|i: int| 0 <= i < blocks.len() && (#[trigger] blocks[i]).payload().len() > u32::MAX
}

/// What writing one block yields: the bytes of the block around the stream
/// that the compressor makes of its payload. It is `CompressionFailed` where
/// the compressor makes none, else `ValueTooLarge` where the length of the
/// payload or the size of the block does not fit its 4-byte field.
pub open spec fn block_written(block: BlockView) -> Result<Seq<u8>, Error> {
    let payload = block.payload();
    match zstd_encoded(payload, COMPRESSION_LEVEL) {
        None => Err(Error::Codec(CodecError::CompressionFailed)),
        Some(stream) => if payload.len() > u32::MAX || PREAMBLE_LEN + stream.len() > u32::MAX {
            Err(Error::Format(FormatError::ValueTooLarge))
        } else {
            Ok(block_bytes(block.kind().tag_of(), payload.len() as u32, stream))
        },
    }
}

/// What writing a run of blocks yields: their bytes one after the other, or
/// the error of the first block that has one.
pub open spec fn blocks_written(blocks: Seq<BlockView>) -> Result<Seq<u8>, Error>
    decreases blocks.len(),
{
    if blocks.len() == 0 {
        Ok(Seq::empty())
    } else {
        match blocks_written(blocks.drop_last()) {
            Err(e) => Err(e),
            Ok(bytes) => match block_written(blocks.last()) {
                Err(e) => Err(e),
                Ok(more) => Ok(bytes + more),
            },
        }
    }
}

/// The body around a block stream: the version that this library writes,
/// the checksum of what follows it, the width, the height and the stream.
pub open spec fn body_bytes(width: u32, height: u32, stream: Seq<u8>) -> Seq<u8> {
    let tail = be_bytes(width) + be_bytes(height) + stream;
    FORMAT_VERSION@ + checksum_of(tail) + tail
}

/// What writing a body yields. Before anything is compressed, a payload too
/// long for its length field makes it `ValueTooLarge`. Then the blocks are
/// written in order, and the first that fails decides. Last, a body too
/// long for its base64 text to have a length is `ValueTooLarge`.
pub open spec fn serialized(width: u32, height: u32, blocks: Seq<BlockView>) -> Result<
    Seq<u8>,
    Error,
> {
    if payload_overflows(blocks) {
        Err(Error::Format(FormatError::ValueTooLarge))
    } else {
        match blocks_written(blocks) {
            Err(e) => Err(e),
            Ok(stream) => if HEADER_LEN + stream.len() > max_body_len() {
                Err(Error::Format(FormatError::ValueTooLarge))
            } else {
                Ok(body_bytes(width, height, stream))
            },
        }
    }
}

/// A block that cannot be written keeps every run that holds it from being
/// written, with its own error unless an earlier block has one.
pub proof fn lemma_blocks_written_prefix_error(blocks: Seq<BlockView>, k: int)
    requires
        0 <= k <= blocks.len(),
        blocks_written(blocks.take(k)) is Err,
    ensures
        blocks_written(blocks) == blocks_written(blocks.take(k)),
    decreases blocks.len(),
{
    if k == blocks.len() {
        assert(blocks.take(k) =~= blocks);
    } else {
        assert(blocks.drop_last().take(k) =~= blocks.take(k));
        lemma_blocks_written_prefix_error(blocks.drop_last(), k);
    }
}

/// Reading blocks fails only for their format or their payloads.
pub proof fn lemma_blocks_from_errors(body: Seq<u8>, pos: int)
    ensures
        blocks_from(body, pos) matches Err(e) ==> e is Format || e is Codec,
    decreases body.len() - pos,
{
    if pos < body.len() {
        if block_at(body, pos) is Ok {
            lemma_blocks_from_errors(body, block_at(body, pos)->Ok_0.1);
        }
    }
}

/// Blocks that were written are the blocks that are read.
pub proof fn lemma_holds_blocks_reads_back(body: Seq<u8>, pos: int, blocks: Seq<BlockView>)
    requires
        holds_blocks(body, pos, blocks),
    ensures
        blocks_from(body, pos) == Ok::<Seq<BlockView>, Error>(blocks),
    decreases blocks.len(),
{
    if blocks.len() == 0 {
        assert(blocks =~= Seq::empty());
    } else {
        let size = be_u32(body.subrange(pos, pos + 4));
        let block = blocks[0];
        BlockKind::lemma_tag_round_trip(block.kind(), block.kind().tag_of());
        lemma_payload_round_trip(block, pos as usize);
        lemma_holds_blocks_reads_back(body, pos + size, blocks.drop_first());
        assert(seq![block] + blocks.drop_first() =~= blocks);
    }
}

/// A body that was written reads back as its header and its blocks.
pub proof fn lemma_written_reads_back(body: Seq<u8>, header: HeaderView, blocks: Seq<BlockView>)
    requires
        written(body, header, blocks),
    ensures
        parsed(body) == Ok::<(HeaderView, Seq<BlockView>), Error>((header, blocks)),
{
    lemma_holds_blocks_reads_back(body, HEADER_LEN as int, blocks);
}

/// One more block written at the end of a body that holds some blocks makes
/// a body that holds those blocks and the new one.
pub proof fn lemma_holds_blocks_appended(
    body: Seq<u8>,
    pos: int,
    blocks: Seq<BlockView>,
    block: BlockView,
    compressed: Seq<u8>,
)
    requires
        0 <= pos <= body.len(),
        holds_blocks(body, pos, blocks),
        block.payload().len() <= u32::MAX,
        PREAMBLE_LEN + compressed.len() <= u32::MAX,
        zstd_decoded(compressed) == Some(block.payload()),
    ensures
        holds_blocks(
            body + block_bytes(block.kind().tag_of(), block.payload().len() as u32, compressed),
            pos,
            blocks.push(block),
        ),
    decreases blocks.len(),
{
    let more = block_bytes(block.kind().tag_of(), block.payload().len() as u32, compressed);
    let longer = body + more;
    let all = blocks.push(block);
    if blocks.len() == 0 {
        let size = (PREAMBLE_LEN + compressed.len()) as u32;
        lemma_be_u32_of_bytes(size);
        lemma_be_u32_of_bytes(block.kind().tag_of());
        lemma_be_u32_of_bytes(block.payload().len() as u32);
        assert(longer.subrange(pos, pos + 4) =~= be_bytes(size));
        assert(longer.subrange(pos + 4, pos + 8) =~= be_bytes(block.kind().tag_of()));
        assert(longer.subrange(pos + 8, pos + 12) =~= be_bytes(block.payload().len() as u32));
        assert(longer.subrange(pos + PREAMBLE_LEN, pos + size) =~= compressed);
        assert(all.drop_first() =~= Seq::<BlockView>::empty());
        assert(holds_blocks(longer, pos + size, all.drop_first()));
    } else {
        let size = be_u32(body.subrange(pos, pos + 4));
        assert(longer.subrange(pos, pos + 4) =~= body.subrange(pos, pos + 4));
        assert(longer.subrange(pos + 4, pos + 8) =~= body.subrange(pos + 4, pos + 8));
        assert(longer.subrange(pos + 8, pos + 12) =~= body.subrange(pos + 8, pos + 12));
        assert(longer.subrange(pos + PREAMBLE_LEN, pos + size) =~= body.subrange(
            pos + PREAMBLE_LEN,
            pos + size,
        ));
        lemma_holds_blocks_appended(body, pos + size, blocks.drop_first(), block, compressed);
        assert(all.drop_first() =~= blocks.drop_first().push(block));
    }
}

/// Which blocks a body holds from `pos` on does not depend on the bytes
/// before `pos`.
pub proof fn lemma_holds_blocks_same_tail(
    a: Seq<u8>,
    b: Seq<u8>,
    pos: int,
    blocks: Seq<BlockView>,
)
    requires
        0 <= pos,
        a.len() == b.len(),
        forall|i: int| pos <= i < a.len() ==> a[i] == b[i],
        holds_blocks(a, pos, blocks),
    ensures
        holds_blocks(b, pos, blocks),
    decreases blocks.len(),
{
    if blocks.len() > 0 {
        let size = be_u32(a.subrange(pos, pos + 4));
        assert(b.subrange(pos, pos + 4) =~= a.subrange(pos, pos + 4));
        assert(b.subrange(pos + 4, pos + 8) =~= a.subrange(pos + 4, pos + 8));
        assert(b.subrange(pos + 8, pos + 12) =~= a.subrange(pos + 8, pos + 12));
        assert(b.subrange(pos + PREAMBLE_LEN, pos + size) =~= a.subrange(
            pos + PREAMBLE_LEN,
            pos + size,
        ));
        lemma_holds_blocks_same_tail(a, b, pos + size, blocks.drop_first());
    }
}

/// Reads the header of a body, or nothing from a body too short to hold one.
pub fn read_header(body: &[u8]) -> (r: Option<Header>)
    ensures
        r is Some <==> body@.len() >= HEADER_LEN,
        r matches Some(header) ==> header@ == header_of(body@),
{
    if body.len() < HEADER_LEN {
        return None;
    }
    let header = Header {
        version: [body[0], body[1], body[2]],
        checksum: [body[3], body[4], body[5], body[6], body[7], body[8]],
        width: u32_at(body, 9),
        height: u32_at(body, 13),
    };
    assert(header.version@ =~= body@.subrange(0, 3));
    assert(header.checksum@ =~= body@.subrange(3, 9));
    Some(header)
}

/// Reads the block that starts at offset `pos` of a body: checks its
/// preamble, decompresses its stream and decodes the payload. Returns the
/// block and the offset at which it ends.
pub fn read_block(body: &[u8], pos: usize) -> (r: Result<(Block, usize), Error>)
    ensures
        read_result_view(r) == block_at(body@, pos as int),
        r matches Ok((_, next)) ==> pos + PREAMBLE_LEN <= next <= body@.len(),
{
    let n = body.len();
    if pos > n || n - pos < 8 {
        return Err(Error::Format(FormatError::Truncated { offset: pos }));
    }
    let size = u32_at(body, pos);
    let tag = u32_at(body, pos + 4);
    let kind = match BlockKind::from_tag(tag) {
        Some(kind) => kind,
        None => {
            return Err(Error::Format(FormatError::UnknownTag { offset: pos, tag }));
        },
    };
    if size < PREAMBLE_LEN as u32 {
        return Err(Error::Format(FormatError::SizeTooSmall { offset: pos, size }));
    }
    if size as usize > n - pos {
        return Err(Error::Format(FormatError::Truncated { offset: pos }));
    }
    let end = pos + size as usize;
    let compressed = slice_subrange(body, pos + PREAMBLE_LEN, end);
    match decode_payload(kind, pos, decompress(compressed)) {
        Ok(block) => Ok((block, end)),
        Err(e) => Err(Error::Codec(e)),
    }
}

/// Reads a body: the header, then block after block until the body ends.
/// The first block in error ends the reading with that error.
pub fn parse_primitive(body: &[u8]) -> (r: Result<(Header, Vec<Block>), Error>)
    ensures
        parse_result_view(r) == parsed(body@),
{
    let header = match read_header(body) {
        Some(header) => header,
        None => {
            return Err(Error::Format(FormatError::Truncated { offset: 0 }));
        },
    };
    let n = body.len();
    let mut blocks: Vec<Block> = Vec::new();
    let mut pos: usize = HEADER_LEN;
    assert(blocks_view(blocks@) + blocks_from(body@, HEADER_LEN as int)->Ok_0 =~= blocks_from(
        body@,
        HEADER_LEN as int,
    )->Ok_0);
    while pos < n
        invariant
            n == body@.len(),
            HEADER_LEN <= pos <= n,
            header@ == header_of(body@),
            blocks_from(body@, HEADER_LEN as int) == after(
                blocks_view(blocks@),
                blocks_from(body@, pos as int),
            ),
        decreases n - pos,
    {
        let (block, next) = match read_block(body, pos) {
            Ok(read) => read,
            Err(e) => {
                return Err(e);
            },
        };
        proof {
            let rest = blocks_from(body@, next as int);
            assert(blocks_view(blocks@.push(block)) =~= blocks_view(blocks@).push(block@));
            if rest is Ok {
                assert(blocks_view(blocks@).push(block@) + rest->Ok_0 =~= blocks_view(blocks@) + (
                seq![block@] + rest->Ok_0));
            }
        }
        blocks.push(block);
        pos = next;
    }
    assert(blocks_view(blocks@) + Seq::<BlockView>::empty() =~= blocks_view(blocks@));
    Ok((header, blocks))
}

/// Writes one block around its compressed stream: the size of the block,
/// the tag of its kind, the length of the payload before compression and
/// the stream. Fails with `ValueTooLarge`, writing nothing, where that
/// length or the size of the block does not fit its 4-byte field.
pub fn write_block(out: &mut Vec<u8>, kind: BlockKind, payload_len: usize, compressed: &[u8]) -> (r:
    Result<(), FormatError>)
    ensures
        r is Ok <==> payload_len <= u32::MAX && PREAMBLE_LEN + compressed@.len() <= u32::MAX,
        r is Ok ==> final(out)@ == old(out)@ + block_bytes(
            kind.tag_of(),
            payload_len as u32,
            compressed@,
        ),
        r matches Err(e) ==> e == FormatError::ValueTooLarge && final(out)@ == old(out)@,
{
    if payload_len > u32::MAX as usize || compressed.len() > u32::MAX as usize - PREAMBLE_LEN {
        return Err(FormatError::ValueTooLarge);
    }
    let size = (PREAMBLE_LEN + compressed.len()) as u32;
    push_u32_be(out, size);
    push_u32_be(out, kind.tag());
    push_u32_be(out, payload_len as u32);
    append_bytes(out, compressed);
    Ok(())
}

/// Writes one block around what the compressor made of its payload; `None`
/// stands for a compressor that gave up and yields `CompressionFailed`.
/// Otherwise as [`write_block`]. On failure nothing is written.
pub fn append_block(
    out: &mut Vec<u8>,
    kind: BlockKind,
    payload_len: usize,
    compressed: Option<Vec<u8>>,
) -> (r: Result<(), Error>)
    ensures
        match compressed {
            None => r == Err::<(), Error>(Error::Codec(CodecError::CompressionFailed)),
            Some(stream) => if payload_len <= u32::MAX && PREAMBLE_LEN + stream@.len()
                <= u32::MAX {
                r is Ok && final(out)@ == old(out)@ + block_bytes(
                    kind.tag_of(),
                    payload_len as u32,
                    stream@,
                )
            } else {
                r == Err::<(), Error>(Error::Format(FormatError::ValueTooLarge))
            },
        },
        r is Err ==> final(out)@ == old(out)@,
{
    match compressed {
        None => Err(Error::Codec(CodecError::CompressionFailed)),
        Some(stream) => match write_block(out, kind, payload_len, stream.as_slice()) {
            Ok(()) => Ok(()),
            Err(e) => Err(Error::Format(e)),
        },
    }
}

/// Puts the checksum of what follows the checksum field into that field.
pub fn seal(body: &mut Vec<u8>)
    requires
        HEADER_LEN <= old(body)@.len() <= max_body_len(),
    ensures
        final(body)@.len() == old(body)@.len(),
        forall|i: int|
            0 <= i < old(body)@.len() && !(CHECKSUM_END - CHECKSUM_LEN <= i < CHECKSUM_END)
                ==> final(body)@[i] == old(body)@[i],
        checksum_holds(final(body)@),
{
    let tail = slice_subrange(body.as_slice(), CHECKSUM_END, body.len());
    let ghost tail_bytes = tail@;
    assert(tail_bytes =~= body@.skip(CHECKSUM_END as int));
    let checksum = compute_checksum(tail);
    let mut k: usize = 0;
    while k < CHECKSUM_LEN
        invariant
            k <= CHECKSUM_LEN,
            body@.len() == old(body)@.len(),
            HEADER_LEN <= body@.len(),
            checksum@ == checksum_of(tail_bytes),
            forall|i: int|
                0 <= i < body@.len() && !(CHECKSUM_END - CHECKSUM_LEN <= i < CHECKSUM_END)
                    ==> body@[i] == old(body)@[i],
            forall|i: int| 0 <= i < k ==> body@[CHECKSUM_END - CHECKSUM_LEN + i] == checksum@[i],
        decreases CHECKSUM_LEN - k,
    {
        body.set(CHECKSUM_END - CHECKSUM_LEN + k, checksum[k]);
        k = k + 1;
    }
    assert(body@.skip(CHECKSUM_END as int) =~= tail_bytes);
    assert(body@.subrange(CHECKSUM_END - CHECKSUM_LEN, CHECKSUM_END as int) =~= checksum@);
}

/// Writes a body: the header, then the blocks in order, each compressed.
/// The checksum is computed over everything that follows it.
///
/// What comes back is [`serialized`]: `ValueTooLarge` where a payload, a
/// block or the body is too long for the field or the text that has to
/// hold it, `CompressionFailed` where the compressor gives up, and else the
/// body. A body that is returned is the header followed by exactly the
/// blocks (see [`written`]).
pub fn serialize_primitive(width: u32, height: u32, blocks: &Vec<Block>) -> (r: Result<
    Vec<u8>,
    Error,
>)
    ensures
        bytes_result_view(r) == serialized(width, height, blocks_view(blocks@)),
        r matches Ok(body) ==> {
            &&& body@.len() <= max_body_len()
            &&& checksum_holds(body@)
            &&& written(
                body@,
                HeaderView {
                    version: FORMAT_VERSION@,
                    checksum: checksum_of(body@.skip(CHECKSUM_END as int)),
                    width,
                    height,
                },
                blocks_view(blocks@),
            )
        },
        r matches Err(e) ==> e == Error::Format(FormatError::ValueTooLarge) || e == Error::Codec(
            CodecError::CompressionFailed,
        ),
{
    let ghost all = blocks_view(blocks@);
    let mut payloads: Vec<Vec<u8>> = Vec::new();
    let mut i: usize = 0;
    while i < blocks.len()
        invariant
            i <= blocks@.len(),
            all == blocks_view(blocks@),
            payloads@.len() == i,
            forall|j: int| 0 <= j < i ==> (#[trigger] payloads@[j])@ == all[j].payload(),
            forall|j: int| 0 <= j < i ==> (#[trigger] all[j]).payload().len() <= u32::MAX,
        decreases blocks@.len() - i,
    {
        let payload = encode_payload(&blocks[i]);
        if payload.len() > u32::MAX as usize {
            assert(all[i as int].payload().len() > u32::MAX);
            return Err(Error::Format(FormatError::ValueTooLarge));
        }
        payloads.push(payload);
        i = i + 1;
    }
    assert(!payload_overflows(all));
    let mut body: Vec<u8> = Vec::new();
    append_bytes(&mut body, FORMAT_VERSION.as_slice());
    append_bytes(&mut body, [0u8, 0, 0, 0, 0, 0].as_slice());
    push_u32_be(&mut body, width);
    push_u32_be(&mut body, height);
    let ghost head = body@;
    assert(head.subrange(0, 3) =~= FORMAT_VERSION@);
    assert(head.subrange(9, 13) =~= be_bytes(width));
    assert(head.subrange(13, 17) =~= be_bytes(height));
    let mut i: usize = 0;
    assert(all.take(0) =~= Seq::<BlockView>::empty());
    assert(body@.skip(HEADER_LEN as int) =~= Seq::<u8>::empty());
    while i < blocks.len()
        invariant
            i <= blocks@.len(),
            all == blocks_view(blocks@),
            !payload_overflows(all),
            payloads@.len() == blocks@.len(),
            forall|j: int|
                0 <= j < payloads@.len() ==> (#[trigger] payloads@[j])@ == all[j].payload(),
            head.len() == HEADER_LEN,
            head.subrange(0, 3) == FORMAT_VERSION@,
            head.subrange(9, 13) == be_bytes(width),
            head.subrange(13, 17) == be_bytes(height),
            body@.len() >= HEADER_LEN,
            body@.subrange(0, HEADER_LEN as int) == head,
            holds_blocks(body@, HEADER_LEN as int, all.take(i as int)),
            blocks_written(all.take(i as int)) == Ok::<Seq<u8>, Error>(
                body@.skip(HEADER_LEN as int),
            ),
        decreases blocks@.len() - i,
    {
        let kind = blocks[i].kind();
        let compressed = compress(payloads[i].as_slice());
        proof {
            assert(all.take(i + 1).drop_last() =~= all.take(i as int));
            assert(all.take(i + 1).last() == all[i as int]);
            assert(all[i as int].payload().len() <= u32::MAX);
            if block_written(all[i as int]) is Err {
                lemma_blocks_written_prefix_error(all, i + 1);
            }
            if compressed is Some && PREAMBLE_LEN + compressed->0@.len() <= u32::MAX {
                lemma_holds_blocks_appended(
                    body@,
                    HEADER_LEN as int,
                    all.take(i as int),
                    all[i as int],
                    compressed->0@,
                );
            }
            assert(all.take(i + 1) =~= all.take(i as int).push(all[i as int]));
        }
        let ghost before = body@;
        match append_block(&mut body, kind, payloads[i].len(), compressed) {
            Ok(()) => {},
            Err(e) => {
                return Err(e);
            },
        }
        assert(body@.subrange(0, HEADER_LEN as int) =~= before.subrange(0, HEADER_LEN as int));
        assert(body@.skip(HEADER_LEN as int) =~= before.skip(HEADER_LEN as int) + block_bytes(
            kind.tag_of(),
            payloads@[i as int]@.len() as u32,
            compressed->0@,
        ));
        i = i + 1;
    }
    assert(all.take(i as int) =~= all);
    if body.len() > usize::MAX / 4 * 3 {
        return Err(Error::Format(FormatError::ValueTooLarge));
    }
    let ghost unsealed = body@;
    let ghost stream = unsealed.skip(HEADER_LEN as int);
    seal(&mut body);
    proof {
        lemma_holds_blocks_same_tail(unsealed, body@, HEADER_LEN as int, all);
        lemma_be_u32_of_bytes(width);
        lemma_be_u32_of_bytes(height);
        assert(body@.subrange(0, 3) =~= head.subrange(0, 3));
        assert(body@.subrange(9, 13) =~= head.subrange(9, 13));
        assert(body@.subrange(13, 17) =~= head.subrange(13, 17));
        let tail = be_bytes(width) + be_bytes(height) + stream;
        assert(body@.skip(CHECKSUM_END as int) =~= tail);
        assert(body@ =~= body@.subrange(0, 3) + body@.subrange(3, 9) + body@.skip(
            CHECKSUM_END as int,
        ));
        assert(body@ == body_bytes(width, height, stream));
    }
    Ok(body)
}

} // verus!
