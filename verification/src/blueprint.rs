//! The blueprint: a logic grid, optional decoration grids and optional
//! text fields, assembled from the blocks of a body and taken apart again.

use vstd::prelude::*;
use vstd::slice::slice_subrange;
use crate::block::{Block, BlockView, LayerKind, TextKind};
use crate::checksum::{checksum_holds, checksum_of, compute_checksum, same_checksum, CHECKSUM_END};
use crate::envelope::{
    base64_encoded, bytes_result_view, decode_envelope, encode_envelope, envelope_body,
    max_body_len, prefix, text_result_view,
};
use crate::error::{CodecError, DomainError, Error, FormatError};
use crate::frame::{
    blocks_view, parse_primitive, parsed, payload_overflows, serialize_primitive, serialized,
    written, Header, HeaderView, FORMAT_VERSION,
};
use crate::laws::{lemma_rejoined_same, lemma_written_decodes};
use crate::grid::{shape_matches, Grid, GridView};
use crate::text::{
    has_separator, join_tag_list, join_tags, split_tag_list, split_tags, strings_view,
};

verus! {

/// A decoded blueprint.
#[derive(Debug, PartialEq, Eq)]
pub struct Blueprint {
    /// The logic layer.
    pub logic_grid: Grid,
    /// The decoration layer shown while the circuit is on, if there is one.
    pub deco_on_grid: Option<Grid>,
    /// The decoration layer shown while the circuit is off, if there is one.
    pub deco_off_grid: Option<Grid>,
    /// The name of the blueprint, if it has one.
    pub name: Option<String>,
    /// The description of the blueprint, if it has one.
    pub description: Option<String>,
    /// The tags of the blueprint in order, if it has a tags field.
    pub tags: Option<Vec<String>>,
}

/// What a blueprint is.
pub struct BlueprintView {
    pub logic_grid: GridView,
    pub deco_on_grid: Option<GridView>,
    pub deco_off_grid: Option<GridView>,
    pub name: Option<Seq<char>>,
    pub description: Option<Seq<char>>,
    pub tags: Option<Seq<Seq<char>>>,
}

/// The view of an optional grid.
pub open spec fn grid_option_view(grid: Option<Grid>) -> Option<GridView> {
    match grid {
        Some(g) => Some(g@),
        None => None,
    }
}

/// The characters of an optional string.
pub open spec fn text_option_view(text: Option<String>) -> Option<Seq<char>> {
    match text {
        Some(s) => Some(s@),
        None => None,
    }
}

/// The cells of an optional buffer.
pub open spec fn cells_option_view(cells: Option<Vec<u32>>) -> Option<Seq<u32>> {
    match cells {
        Some(c) => Some(c@),
        None => None,
    }
}

impl View for Blueprint {
    type V = BlueprintView;

    open spec fn view(&self) -> BlueprintView {
        BlueprintView {
            logic_grid: self.logic_grid@,
            deco_on_grid: grid_option_view(self.deco_on_grid),
            deco_off_grid: grid_option_view(self.deco_off_grid),
            name: text_option_view(self.name),
            description: text_option_view(self.description),
            tags: match self.tags {
                Some(tags) => Some(strings_view(tags@)),
                None => None,
            },
        }
    }
}

/// The block of an optional layer: one block, or none.
pub open spec fn layer_blocks(kind: LayerKind, grid: Option<GridView>) -> Seq<BlockView> {
    match grid {
        Some(g) => seq![BlockView::Layer(kind, g.cells)],
        None => Seq::empty(),
    }
}

/// The block of an optional text field: one block, or none.
pub open spec fn text_blocks(kind: TextKind, text: Option<Seq<char>>) -> Seq<BlockView> {
    match text {
        Some(t) => seq![BlockView::Text(kind, t)],
        None => Seq::empty(),
    }
}

impl BlueprintView {
    /// Whether the decoration layers have the shape of the logic layer.
    pub open spec fn layers_agree(self) -> bool {
        &&& self.deco_on_grid matches Some(g) ==> g.rows == self.logic_grid.rows && g.cols
            == self.logic_grid.cols
        &&& self.deco_off_grid matches Some(g) ==> g.rows == self.logic_grid.rows && g.cols
            == self.logic_grid.cols
    }

    /// A blueprint is well formed if its grids are and its layers agree.
    pub open spec fn wf(self) -> bool {
        &&& self.logic_grid.wf()
        &&& self.deco_on_grid matches Some(g) ==> g.wf()
        &&& self.deco_off_grid matches Some(g) ==> g.wf()
        &&& self.layers_agree()
    }

    /// The text of the tags field, if there is one.
    pub open spec fn tags_text(self) -> Option<Seq<char>> {
        match self.tags {
            Some(tags) => Some(join_tags(tags)),
            None => None,
        }
    }

    /// The blocks that stand for this blueprint, in the order in which they
    /// are written: the logic layer, then whichever of the decoration
    /// layers, the name, the description and the tags are there.
    pub open spec fn blocks(self) -> Seq<BlockView> {
        seq![BlockView::Layer(LayerKind::Logic, self.logic_grid.cells)] + layer_blocks(
            LayerKind::DecoOn,
            self.deco_on_grid,
        ) + layer_blocks(LayerKind::DecoOff, self.deco_off_grid) + text_blocks(
            TextKind::Name,
            self.name,
        ) + text_blocks(TextKind::Description, self.description) + text_blocks(
            TextKind::Tags,
            self.tags_text(),
        )
    }

    /// Whether the grid dimensions fit the 4-byte fields of the header.
    pub open spec fn dimensions_fit(self) -> bool {
        self.logic_grid.rows <= u32::MAX && self.logic_grid.cols <= u32::MAX
    }

    /// Whether every length that encoding has to record before it
    /// compresses anything fits its 4-byte field.
    pub open spec fn fields_fit(self) -> bool {
        self.dimensions_fit() && !payload_overflows(self.blocks())
    }

    /// Whether a body is this blueprint written out: a header with the
    /// version that this library writes, the checksum of what follows it
    /// and the dimensions of the logic grid, then the blocks of the
    /// blueprint.
    pub open spec fn written_as(self, body: Seq<u8>) -> bool {
        written(
            body,
            HeaderView {
                version: FORMAT_VERSION@,
                checksum: checksum_of(body.skip(CHECKSUM_END as int)),
                width: self.logic_grid.cols as u32,
                height: self.logic_grid.rows as u32,
            },
            self.blocks(),
        )
    }

    /// What writing this blueprint out yields: `ShapeMismatch` unless its
    /// layers agree, else `ValueTooLarge` unless its dimensions fit the
    /// header, else what writing its blocks under those dimensions yields.
    pub open spec fn body_written(self) -> Result<Seq<u8>, Error> {
        if !self.layers_agree() {
            Err(Error::Domain(DomainError::ShapeMismatch))
        } else if !self.dimensions_fit() {
            Err(Error::Format(FormatError::ValueTooLarge))
        } else {
            serialized(
                self.logic_grid.cols as u32,
                self.logic_grid.rows as u32,
                self.blocks(),
            )
        }
    }

    /// What encoding this blueprint yields: the marker and the base64 text
    /// of its body, or the error of writing the body.
    pub open spec fn encoded(self) -> Result<Seq<char>, Error> {
        match self.body_written() {
            Err(e) => Err(e),
            Ok(body) => Ok(prefix() + base64_encoded(body)),
        }
    }

    /// This blueprint with its tags joined and split again.
    pub open spec fn rejoined(self) -> BlueprintView {
        BlueprintView {
            logic_grid: self.logic_grid,
            deco_on_grid: self.deco_on_grid,
            deco_off_grid: self.deco_off_grid,
            name: self.name,
            description: self.description,
            tags: match self.tags {
                Some(tags) => Some(split_tags(join_tags(tags))),
                None => None,
            },
        }
    }

    /// Whether the tags come back from their text as they went in: a tags
    /// field holds at least one tag, and no tag holds a separator.
    pub open spec fn tags_survive(self) -> bool {
        self.tags matches Some(tags) ==> tags.len() >= 1 && forall|i: int|
            0 <= i < tags.len() ==> !has_separator(#[trigger] tags[i])
    }
}

/// The view of a decoding result.
pub open spec fn blueprint_result_view<E>(r: Result<Blueprint, E>) -> Result<BlueprintView, E> {
    match r {
        Ok(blueprint) => Ok(blueprint@),
        Err(e) => Err(e),
    }
}

/// The cells of a block if it is the layer `kind`.
pub open spec fn layer_cells(block: BlockView, kind: LayerKind) -> Option<Seq<u32>> {
    match block {
        BlockView::Layer(k, cells) => if k == kind {
            Some(cells)
        } else {
            None
        },
        BlockView::Text(_, _) => None,
    }
}

/// The text of a block if it is the field `kind`.
pub open spec fn field_text(block: BlockView, kind: TextKind) -> Option<Seq<char>> {
    match block {
        BlockView::Text(k, text) => if k == kind {
            Some(text)
        } else {
            None
        },
        BlockView::Layer(_, _) => None,
    }
}

/// The cells of the first block that is the layer `kind`. Later blocks of
/// the same kind do not count.
pub open spec fn first_layer(blocks: Seq<BlockView>, kind: LayerKind) -> Option<Seq<u32>>
    decreases blocks.len(),
{
    if blocks.len() == 0 {
        None
    } else if layer_cells(blocks[0], kind) is Some {
        layer_cells(blocks[0], kind)
    } else {
        first_layer(blocks.drop_first(), kind)
    }
}

/// The text of the first block that is the field `kind`. Later blocks of
/// the same kind do not count.
pub open spec fn first_text(blocks: Seq<BlockView>, kind: TextKind) -> Option<Seq<char>>
    decreases blocks.len(),
{
    if blocks.len() == 0 {
        None
    } else if field_text(blocks[0], kind) is Some {
        field_text(blocks[0], kind)
    } else {
        first_text(blocks.drop_first(), kind)
    }
}

/// Whether a layer, if present, fills a grid of the header's dimensions.
pub open spec fn layer_fills(header: HeaderView, cells: Option<Seq<u32>>) -> bool {
    cells matches Some(c) ==> shape_matches(header.height as nat, header.width as nat, c.len())
}

/// The grid of a layer: `height` rows of `width` cells.
pub open spec fn layer_grid(header: HeaderView, cells: Option<Seq<u32>>) -> Option<GridView> {
    match cells {
        Some(c) => Some(
            GridView { rows: header.height as nat, cols: header.width as nat, cells: c },
        ),
        None => None,
    }
}

/// The blueprint that a header and a run of blocks describe. Of each kind
/// the first block counts. A logic layer must be there, and every layer
/// that is there must fill the grid.
pub open spec fn assembled(header: HeaderView, blocks: Seq<BlockView>) -> Result<
    BlueprintView,
    DomainError,
> {
    let logic = first_layer(blocks, LayerKind::Logic);
    let deco_on = first_layer(blocks, LayerKind::DecoOn);
    let deco_off = first_layer(blocks, LayerKind::DecoOff);
    if logic is None {
        Err(DomainError::MissingLogicLayer)
    } else if !layer_fills(header, logic) || !layer_fills(header, deco_on) || !layer_fills(
        header,
        deco_off,
    ) {
        Err(DomainError::ShapeMismatch)
    } else {
        Ok(
            BlueprintView {
                logic_grid: layer_grid(header, logic)->0,
                deco_on_grid: layer_grid(header, deco_on),
                deco_off_grid: layer_grid(header, deco_off),
                name: first_text(blocks, TextKind::Name),
                description: first_text(blocks, TextKind::Description),
                tags: match first_text(blocks, TextKind::Tags) {
                    Some(text) => Some(split_tags(text)),
                    None => None,
                },
            },
        )
    }
}

/// What the caller asks of decoding.
#[derive(Debug, Clone, Copy, PartialEq, Eq)]
pub struct DecodeOptions {
    /// Whether a blueprint whose stored checksum is wrong is refused.
    pub verify_checksum: bool,
}

impl Default for DecodeOptions {
    /// The checksum is verified unless the caller says otherwise.
    fn default() -> (options: DecodeOptions)
        ensures
            options.verify_checksum,
    {
        DecodeOptions { verify_checksum: true }
    }
}

/// The blueprint that a body describes. The body is read and its blocks
/// are assembled; only then, and only if `verify` asks for it, is the stored
/// checksum compared, so that a malformed body is always reported as such.
pub open spec fn decoded_body(body: Seq<u8>, verify: bool) -> Result<BlueprintView, Error> {
    match parsed(body) {
        Err(e) => Err(e),
        Ok((header, blocks)) => match assembled(header, blocks) {
            Err(e) => Err(Error::Domain(e)),
            Ok(blueprint) => if verify && !checksum_holds(body) {
                Err(Error::Format(FormatError::ChecksumMismatch))
            } else {
                Ok(blueprint)
            },
        },
    }
}

/// The blueprint that a clipboard text describes.
pub open spec fn decoded(text: Seq<char>, verify: bool) -> Result<BlueprintView, Error> {
    match envelope_body(text) {
        Err(e) => Err(Error::Format(e)),
        Ok(body) => decoded_body(body, verify),
    }
}

/// Lays an optional layer out as a grid of the header's dimensions.
fn grid_of_layer(header: &Header, cells: Option<Vec<u32>>) -> (r: Result<Option<Grid>, DomainError>)
    ensures
        r is Ok <==> layer_fills(header@, cells_option_view(cells)),
        r matches Ok(grid) ==> grid_option_view(grid) == layer_grid(
            header@,
            cells_option_view(cells),
        ),
        r matches Err(e) ==> e == DomainError::ShapeMismatch,
{
    match cells {
        None => Ok(None),
        Some(c) => match Grid::from_shape_vec(header.height as usize, header.width as usize, c) {
            Ok(grid) => Ok(Some(grid)),
            Err(e) => Err(e),
        },
    }
}

impl Blueprint {
    /// Assembles a blueprint from a header and the blocks that follow it.
    /// Of each kind of block the first one counts and later ones are
    /// ignored. Fails with `MissingLogicLayer` if there is no logic layer,
    /// else with `ShapeMismatch` if a layer does not fill the grid.
    pub fn assemble(header: &Header, blocks: Vec<Block>) -> (r: Result<Blueprint, DomainError>)
        ensures
            blueprint_result_view(r) == assembled(header@, blocks_view(blocks@)),
    {
        let ghost all = blocks_view(blocks@);
        let mut blocks = blocks;
        let mut logic: Option<Vec<u32>> = None;
        let mut deco_on: Option<Vec<u32>> = None;
        let mut deco_off: Option<Vec<u32>> = None;
        let mut name: Option<String> = None;
        let mut description: Option<String> = None;
        let mut tags_text: Option<String> = None;
        assert(all.take(all.len() as int) =~= all);
        // From the last block to the first, each overwriting what a later
        // one of its kind left: what remains is the first of each kind.
        while blocks.len() > 0
            invariant
                blocks@.len() <= all.len(),
                blocks_view(blocks@) == all.take(blocks@.len() as int),
                cells_option_view(logic) == first_layer(
                    all.skip(blocks@.len() as int),
                    LayerKind::Logic,
                ),
                cells_option_view(deco_on) == first_layer(
                    all.skip(blocks@.len() as int),
                    LayerKind::DecoOn,
                ),
                cells_option_view(deco_off) == first_layer(
                    all.skip(blocks@.len() as int),
                    LayerKind::DecoOff,
                ),
                text_option_view(name) == first_text(
                    all.skip(blocks@.len() as int),
                    TextKind::Name,
                ),
                text_option_view(description) == first_text(
                    all.skip(blocks@.len() as int),
                    TextKind::Description,
                ),
                text_option_view(tags_text) == first_text(
                    all.skip(blocks@.len() as int),
                    TextKind::Tags,
                ),
            decreases blocks@.len(),
        {
            let ghost k = blocks@.len() - 1;
            let ghost last = blocks@[k];
            proof {
                assert(all[k] == blocks_view(blocks@)[k]);
                assert(all.skip(k)[0] == last@);
                assert(all.skip(k).drop_first() =~= all.skip(k + 1));
            }
            let block = blocks.pop().unwrap();
            proof {
                assert(blocks_view(blocks@) =~= all.take(k));
            }
            match block {
                Block::Layer(LayerKind::Logic, cells) => {
                    logic = Some(cells);
                },
                Block::Layer(LayerKind::DecoOn, cells) => {
                    deco_on = Some(cells);
                },
                Block::Layer(LayerKind::DecoOff, cells) => {
                    deco_off = Some(cells);
                },
                Block::Text(TextKind::Name, text) => {
                    name = Some(text);
                },
                Block::Text(TextKind::Description, text) => {
                    description = Some(text);
                },
                Block::Text(TextKind::Tags, text) => {
                    tags_text = Some(text);
                },
            }
        }
        assert(all.skip(0) =~= all);
        let logic_grid = match logic {
            None => {
                return Err(DomainError::MissingLogicLayer);
            },
            Some(cells) => match Grid::from_shape_vec(
                header.height as usize,
                header.width as usize,
                cells,
            ) {
                Ok(grid) => grid,
                Err(e) => {
                    return Err(e);
                },
            },
        };
        let deco_on_grid = match grid_of_layer(header, deco_on) {
            Ok(grid) => grid,
            Err(e) => {
                return Err(e);
            },
        };
        let deco_off_grid = match grid_of_layer(header, deco_off) {
            Ok(grid) => grid,
            Err(e) => {
                return Err(e);
            },
        };
        let tags = match tags_text {
            Some(text) => Some(split_tag_list(text.as_str())),
            None => None,
        };
        Ok(Blueprint { logic_grid, deco_on_grid, deco_off_grid, name, description, tags })
    }
    /// Decodes the body of a blueprint: what the envelope carries. With
    /// `verify_checksum` set the body must be short enough for the length of
    /// its base64 text to fit a `usize`.
    pub fn from_body(body: &[u8], options: DecodeOptions) -> (r: Result<Blueprint, Error>)
        requires
            options.verify_checksum ==> body@.len() <= max_body_len(),
        ensures
            blueprint_result_view(r) == decoded_body(body@, options.verify_checksum),
    {
        let (header, blocks) = match parse_primitive(body) {
            Ok(primitive) => primitive,
            Err(e) => {
                return Err(e);
            },
        };
        let blueprint = match Blueprint::assemble(&header, blocks) {
            Ok(blueprint) => blueprint,
            Err(e) => {
                return Err(Error::Domain(e));
            },
        };
        if options.verify_checksum {
            let tail = slice_subrange(body, CHECKSUM_END, body.len());
            assert(tail@ =~= body@.skip(CHECKSUM_END as int));
            let expected = compute_checksum(tail);
            if !same_checksum(&header.checksum, &expected) {
                return Err(Error::Format(FormatError::ChecksumMismatch));
            }
        }
        Ok(blueprint)
    }

    /// Decodes a clipboard text as the caller's options say.
    pub fn try_from_str_with(clipboard: &str, options: DecodeOptions) -> (r: Result<
        Blueprint,
        Error,
    >)
        ensures
            blueprint_result_view(r) == decoded(clipboard@, options.verify_checksum),
    {
        match decode_envelope(clipboard) {
            Err(e) => Err(Error::Format(e)),
            Ok(body) => Blueprint::from_body(body.as_slice(), options),
        }
    }

    /// Decodes a clipboard text with the default options: the checksum is
    /// verified.
    pub fn try_from_str(clipboard: &str) -> (r: Result<Blueprint, Error>)
        ensures
            blueprint_result_view(r) == decoded(clipboard@, true),
    {
        Blueprint::try_from_str_with(clipboard, DecodeOptions { verify_checksum: true })
    }
    /// Takes the blueprint apart: the width and the height for the header,
    /// and its blocks in the order of [`BlueprintView::blocks`]. Fails with
    /// `ShapeMismatch` if a decoration layer has not the shape of the logic
    /// layer, else with `ValueTooLarge` if a dimension does not fit the
    /// header.
    pub fn disassemble(&self) -> (r: Result<(u32, u32, Vec<Block>), Error>)
        ensures
            match r {
                Ok((width, height, blocks)) => {
                    &&& self@.wf()
                    &&& self@.dimensions_fit()
                    &&& width == self@.logic_grid.cols
                    &&& height == self@.logic_grid.rows
                    &&& blocks_view(blocks@) == self@.blocks()
                },
                Err(e) => if !self@.layers_agree() {
                    e == Error::Domain(DomainError::ShapeMismatch)
                } else {
                    e == Error::Format(FormatError::ValueTooLarge) && !self@.dimensions_fit()
                },
            },
    {
        let rows = self.logic_grid.rows();
        let cols = self.logic_grid.cols();
        let on_agrees = match &self.deco_on_grid {
            Some(grid) => self.logic_grid.same_shape(grid),
            None => true,
        };
        let off_agrees = match &self.deco_off_grid {
            Some(grid) => self.logic_grid.same_shape(grid),
            None => true,
        };
        if !on_agrees || !off_agrees {
            return Err(Error::Domain(DomainError::ShapeMismatch));
        }
        if rows > u32::MAX as usize || cols > u32::MAX as usize {
            return Err(Error::Format(FormatError::ValueTooLarge));
        }
        let mut blocks: Vec<Block> = Vec::new();
        blocks.push(Block::Layer(LayerKind::Logic, self.logic_grid.to_vec()));
        match &self.deco_on_grid {
            Some(grid) => {
                blocks.push(Block::Layer(LayerKind::DecoOn, grid.to_vec()));
            },
            None => {},
        }
        match &self.deco_off_grid {
            Some(grid) => {
                blocks.push(Block::Layer(LayerKind::DecoOff, grid.to_vec()));
            },
            None => {},
        }
        match &self.name {
            Some(text) => {
                blocks.push(Block::Text(TextKind::Name, text.clone()));
            },
            None => {},
        }
        match &self.description {
            Some(text) => {
                blocks.push(Block::Text(TextKind::Description, text.clone()));
            },
            None => {},
        }
        match &self.tags {
            Some(tags) => {
                blocks.push(Block::Text(TextKind::Tags, join_tag_list(tags)));
            },
            None => {},
        }
        assert(blocks_view(blocks@) =~= self@.blocks());
        Ok((cols as u32, rows as u32, blocks))
    }

    /// Writes the blueprint out as a body: what the envelope carries.
    ///
    /// What comes back is [`BlueprintView::body_written`]. It is
    /// `ShapeMismatch` if a decoration layer has not the shape of the logic
    /// layer; else `ValueTooLarge` if a dimension or the length of a payload
    /// does not fit its field. Past that the blocks are compressed in
    /// order: the compressor may give up (`CompressionFailed`), or make a
    /// stream too long for a block or for the text of the body
    /// (`ValueTooLarge`). A body that is returned is this blueprint written
    /// out, and decodes to it, its tags joined and split again.
    pub fn to_body(&self) -> (r: Result<Vec<u8>, Error>)
        ensures
            bytes_result_view(r) == self@.body_written(),
            !self@.layers_agree() ==> r == Err::<Vec<u8>, Error>(
                Error::Domain(DomainError::ShapeMismatch),
            ),
            self@.layers_agree() && !self@.fields_fit() ==> r == Err::<Vec<u8>, Error>(
                Error::Format(FormatError::ValueTooLarge),
            ),
            r matches Ok(body) ==> {
                &&& self@.wf()
                &&& self@.fields_fit()
                &&& body@.len() <= max_body_len()
                &&& self@.written_as(body@)
                &&& forall|verify: bool|
                    #[trigger] decoded_body(body@, verify) == Ok::<BlueprintView, Error>(
                        self@.rejoined(),
                    )
            },
            r matches Err(e) ==> {
                ||| e == Error::Domain(DomainError::ShapeMismatch) && !self@.layers_agree()
                ||| e == Error::Format(FormatError::ValueTooLarge) && self@.layers_agree()
                ||| e == Error::Codec(CodecError::CompressionFailed) && self@.layers_agree()
                    && self@.fields_fit()
            },
    {
        let (width, height, blocks) = match self.disassemble() {
            Ok(parts) => parts,
            Err(e) => {
                return Err(e);
            },
        };
        let body = match serialize_primitive(width, height, &blocks) {
            Ok(body) => body,
            Err(e) => {
                return Err(e);
            },
        };
        proof {
            lemma_written_decodes(self@, body@, true);
            lemma_written_decodes(self@, body@, false);
        }
        Ok(body)
    }

    /// Encodes the blueprint as a clipboard text: the marker, then the
    /// base64 of the body that [`Blueprint::to_body`] writes, with the same
    /// failures; what comes back is [`BlueprintView::encoded`]. A text that
    /// is returned decodes, with or without verification of its checksum,
    /// to this blueprint with its tags joined and split again, which is
    /// this blueprint where its tags survive that.
    pub fn encode(&self) -> (r: Result<String, Error>)
        ensures
            text_result_view(r) == self@.encoded(),
            !self@.layers_agree() ==> r == Err::<String, Error>(
                Error::Domain(DomainError::ShapeMismatch),
            ),
            self@.layers_agree() && !self@.fields_fit() ==> r == Err::<String, Error>(
                Error::Format(FormatError::ValueTooLarge),
            ),
            r matches Ok(text) ==> {
                &&& self@.wf()
                &&& self@.fields_fit()
                &&& exists|body: Seq<u8>|
                    {
                        &&& #[trigger] self@.written_as(body)
                        &&& text@ == prefix() + base64_encoded(body)
                        &&& envelope_body(text@) == Ok::<Seq<u8>, FormatError>(body)
                    }
                &&& forall|verify: bool|
                    #[trigger] decoded(text@, verify) == Ok::<BlueprintView, Error>(
                        self@.rejoined(),
                    )
                &&& self@.tags_survive() ==> forall|verify: bool|
                    #[trigger] decoded(text@, verify) == Ok::<BlueprintView, Error>(self@)
            },
            r matches Err(e) ==> {
                ||| e == Error::Domain(DomainError::ShapeMismatch) && !self@.layers_agree()
                ||| e == Error::Format(FormatError::ValueTooLarge) && self@.layers_agree()
                ||| e == Error::Codec(CodecError::CompressionFailed) && self@.layers_agree()
                    && self@.fields_fit()
            },
    {
        let body = match self.to_body() {
            Ok(body) => body,
            Err(e) => {
                return Err(e);
            },
        };
        let text = encode_envelope(body.as_slice());
        proof {
            assert(self@.written_as(body@) && text@ == prefix() + base64_encoded(body@)
                && envelope_body(text@) == Ok::<Seq<u8>, FormatError>(body@));
            assert(decoded_body(body@, true) == Ok::<BlueprintView, Error>(self@.rejoined()));
            assert(decoded_body(body@, false) == Ok::<BlueprintView, Error>(self@.rejoined()));
            assert(decoded(text@, true) == Ok::<BlueprintView, Error>(self@.rejoined()));
            assert(decoded(text@, false) == Ok::<BlueprintView, Error>(self@.rejoined()));
            if self@.tags_survive() {
                lemma_rejoined_same(self@);
            }
        }
        Ok(text)
    }
}

} // verus!
