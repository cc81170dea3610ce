//! What holds of decoding and encoding, proved from their definitions.

use vstd::prelude::*;
use crate::block::{BlockView, LayerKind, TextKind};
use crate::blueprint::{
    assembled, decoded, decoded_body, field_text, first_layer, first_text, layer_blocks,
    layer_cells, text_blocks, BlueprintView,
};
use crate::envelope::{envelope_body, has_prefix};
use crate::error::{DomainError, Error, FormatError};
use crate::frame::{
    header_of, lemma_blocks_from_errors, lemma_written_reads_back, parsed, HeaderView, HEADER_LEN,
};
use crate::grid::{shape_fits, GridView};
use crate::text::{lemma_split_of_join, split_tags};

verus! {

/// In a run of blocks followed by another, the first layer of a kind is
/// that of the first run if it has one, else that of the second.
pub proof fn lemma_first_layer_concat(a: Seq<BlockView>, b: Seq<BlockView>, kind: LayerKind)
    ensures
        first_layer(a + b, kind) == if first_layer(a, kind) is Some {
            first_layer(a, kind)
        } else {
            first_layer(b, kind)
        },
    decreases a.len(),
{
    if a.len() == 0 {
        assert(a + b =~= b);
    } else {
        assert((a + b).drop_first() =~= a.drop_first() + b);
        lemma_first_layer_concat(a.drop_first(), b, kind);
    }
}

/// In a run of blocks followed by another, the first text of a kind is
/// that of the first run if it has one, else that of the second.
pub proof fn lemma_first_text_concat(a: Seq<BlockView>, b: Seq<BlockView>, kind: TextKind)
    ensures
        first_text(a + b, kind) == if first_text(a, kind) is Some {
            first_text(a, kind)
        } else {
            first_text(b, kind)
        },
    decreases a.len(),
{
    if a.len() == 0 {
        assert(a + b =~= b);
    } else {
        assert((a + b).drop_first() =~= a.drop_first() + b);
        lemma_first_text_concat(a.drop_first(), b, kind);
    }
}

/// What a run of at most one block holds.
proof fn lemma_first_of_short(run: Seq<BlockView>, layer: LayerKind, field: TextKind)
    requires
        run.len() <= 1,
    ensures
        first_layer(run, layer) == if run.len() == 1 {
            layer_cells(run[0], layer)
        } else {
            None
        },
        first_text(run, field) == if run.len() == 1 {
            field_text(run[0], field)
        } else {
            None
        },
{
    if run.len() == 1 {
        assert(first_layer(run.drop_first(), layer) is None);
        assert(first_text(run.drop_first(), field) is None);
    }
}

/// What the blocks of a blueprint hold of each kind.
proof fn lemma_first_of_blocks(b: BlueprintView, layer: LayerKind, field: TextKind)
    ensures
        first_layer(b.blocks(), layer) == match layer {
            LayerKind::Logic => Some(b.logic_grid.cells),
            LayerKind::DecoOn => match b.deco_on_grid {
                Some(g) => Some(g.cells),
                None => None,
            },
            LayerKind::DecoOff => match b.deco_off_grid {
                Some(g) => Some(g.cells),
                None => None,
            },
        },
        first_text(b.blocks(), field) == match field {
            TextKind::Name => b.name,
            TextKind::Description => b.description,
            TextKind::Tags => b.tags_text(),
        },
{
    let s0 = seq![BlockView::Layer(LayerKind::Logic, b.logic_grid.cells)];
    let s1 = layer_blocks(LayerKind::DecoOn, b.deco_on_grid);
    let s2 = layer_blocks(LayerKind::DecoOff, b.deco_off_grid);
    let s3 = text_blocks(TextKind::Name, b.name);
    let s4 = text_blocks(TextKind::Description, b.description);
    let s5 = text_blocks(TextKind::Tags, b.tags_text());
    lemma_first_of_short(s0, layer, field);
    lemma_first_of_short(s1, layer, field);
    lemma_first_of_short(s2, layer, field);
    lemma_first_of_short(s3, layer, field);
    lemma_first_of_short(s4, layer, field);
    lemma_first_of_short(s5, layer, field);
    lemma_first_layer_concat(s0, s1, layer);
    lemma_first_layer_concat(s0 + s1, s2, layer);
    lemma_first_layer_concat(s0 + s1 + s2, s3, layer);
    lemma_first_layer_concat(s0 + s1 + s2 + s3, s4, layer);
    lemma_first_layer_concat(s0 + s1 + s2 + s3 + s4, s5, layer);
    lemma_first_text_concat(s0, s1, field);
    lemma_first_text_concat(s0 + s1, s2, field);
    lemma_first_text_concat(s0 + s1 + s2, s3, field);
    lemma_first_text_concat(s0 + s1 + s2 + s3, s4, field);
    lemma_first_text_concat(s0 + s1 + s2 + s3 + s4, s5, field);
}

/// Taking a well-formed blueprint apart and assembling its blocks again,
/// under a header with its dimensions, gives the blueprint back, its tags
/// joined and split.
pub proof fn lemma_assembled_blocks(b: BlueprintView, header: HeaderView)
    requires
        b.wf(),
        header.width == b.logic_grid.cols,
        header.height == b.logic_grid.rows,
    ensures
        assembled(header, b.blocks()) == Ok::<BlueprintView, DomainError>(b.rejoined()),
{
    lemma_first_of_blocks(b, LayerKind::Logic, TextKind::Name);
    lemma_first_of_blocks(b, LayerKind::DecoOn, TextKind::Description);
    lemma_first_of_blocks(b, LayerKind::DecoOff, TextKind::Tags);
}

/// Tags that hold no separator, and are at least one, come back from their
/// text unchanged, and so does the blueprint that has them.
pub proof fn lemma_rejoined_same(b: BlueprintView)
    requires
        b.tags_survive(),
    ensures
        b.rejoined() == b,
{
    if b.tags is Some {
        lemma_split_of_join(b.tags->0);
    }
}

/// A blueprint that was written out decodes to itself, its tags joined and
/// split again, whether or not the checksum is verified.
pub proof fn lemma_written_decodes(b: BlueprintView, body: Seq<u8>, verify: bool)
    requires
        b.wf(),
        b.dimensions_fit(),
        b.written_as(body),
    ensures
        decoded_body(body, verify) == Ok::<BlueprintView, Error>(b.rejoined()),
{
    let header = header_of(body);
    lemma_written_reads_back(body, header, b.blocks());
    lemma_assembled_blocks(b, header);
}

/// Encoding followed by decoding gives the blueprint back: a text that
/// carries a well-formed blueprint written out decodes to that blueprint,
/// provided that its tags survive being joined and split.
pub proof fn lemma_round_trip(b: BlueprintView, body: Seq<u8>, text: Seq<char>, verify: bool)
    requires
        b.wf(),
        b.dimensions_fit(),
        b.tags_survive(),
        b.written_as(body),
        envelope_body(text) == Ok::<Seq<u8>, FormatError>(body),
    ensures
        decoded(text, verify) == Ok::<BlueprintView, Error>(b),
{
    lemma_written_decodes(b, body, verify);
    lemma_rejoined_same(b);
}

/// Decoding is a function of the text: two results that both meet the
/// contract of decoding for the same text and options are the same.
pub proof fn lemma_decoding_repeats(
    text: Seq<char>,
    verify: bool,
    first: Result<BlueprintView, Error>,
    second: Result<BlueprintView, Error>,
)
    requires
        first == decoded(text, verify),
        second == decoded(text, verify),
    ensures
        first == second,
{
}

/// A body is refused for what it describes only once it has read well.
pub proof fn lemma_domain_error_after_framing(body: Seq<u8>, verify: bool)
    requires
        decoded_body(body, verify) matches Err(Error::Domain(_)),
    ensures
        parsed(body) is Ok,
{
    lemma_blocks_from_errors(body, HEADER_LEN as int);
}

/// Whether no block of a run is a logic layer.
pub open spec fn no_logic_layer(blocks: Seq<BlockView>) -> bool {
    forall|i: int|
        0 <= i < blocks.len() ==> layer_cells(#[trigger] blocks[i], LayerKind::Logic) is None
}

/// Among blocks none of which is a logic layer no logic layer is found.
pub proof fn lemma_no_logic_layer(blocks: Seq<BlockView>)
    requires
        no_logic_layer(blocks),
    ensures
        first_layer(blocks, LayerKind::Logic) is None,
    decreases blocks.len(),
{
    if blocks.len() > 0 {
        assert(layer_cells(blocks[0], LayerKind::Logic) is None);
        assert forall|i: int| 0 <= i < blocks.drop_first().len() implies layer_cells(
            #[trigger] blocks.drop_first()[i],
            LayerKind::Logic,
        ) is None by {
            assert(blocks.drop_first()[i] == blocks[i + 1]);
        }
        lemma_no_logic_layer(blocks.drop_first());
    }
}

/// A body that reads well but holds no logic layer is refused for that,
/// whatever else it holds.
pub proof fn lemma_missing_logic_rejected(body: Seq<u8>, verify: bool)
    requires
        parsed(body) is Ok,
        no_logic_layer(parsed(body)->Ok_0.1),
    ensures
        decoded_body(body, verify) == Err::<BlueprintView, Error>(
            Error::Domain(DomainError::MissingLogicLayer),
        ),
{
    lemma_no_logic_layer(parsed(body)->Ok_0.1);
}

/// A body that reads well and whose logic layer does not hold width times
/// height cells is refused as a shape mismatch.
pub proof fn lemma_shape_mismatch_rejected(body: Seq<u8>, verify: bool)
    requires
        parsed(body) is Ok,
        first_layer(parsed(body)->Ok_0.1, LayerKind::Logic) matches Some(cells) && cells.len()
            != parsed(body)->Ok_0.0.width * parsed(body)->Ok_0.0.height,
    ensures
        decoded_body(body, verify) == Err::<BlueprintView, Error>(
            Error::Domain(DomainError::ShapeMismatch),
        ),
{
    let header = parsed(body)->Ok_0.0;
    assert(header.width * header.height == header.height * header.width) by (nonlinear_arith);
}

/// A text that does not open with the marker is refused for that.
pub proof fn lemma_missing_prefix_rejected(text: Seq<char>, verify: bool)
    requires
        !has_prefix(text),
    ensures
        decoded(text, verify) == Err::<BlueprintView, Error>(
            Error::Format(FormatError::MissingPrefix),
        ),
{
}

/// Of the layers of a kind the first one in the run is the one found: a
/// block that is such a layer, with none before it, gives the cells.
pub proof fn lemma_first_layer_is_first(blocks: Seq<BlockView>, at: int, kind: LayerKind)
    requires
        0 <= at < blocks.len(),
        layer_cells(blocks[at], kind) is Some,
        forall|j: int| 0 <= j < at ==> layer_cells(#[trigger] blocks[j], kind) is None,
    ensures
        first_layer(blocks, kind) == layer_cells(blocks[at], kind),
    decreases at,
{
    if at > 0 {
        let rest = blocks.drop_first();
        assert(layer_cells(blocks[0], kind) is None);
        assert forall|j: int| 0 <= j < at - 1 implies layer_cells(#[trigger] rest[j], kind)
            is None by {
            assert(rest[j] == blocks[j + 1]);
        }
        lemma_first_layer_is_first(rest, at - 1, kind);
    }
}

/// Of the text fields of a kind the first one in the run is the one found:
/// a block that is such a field, with none before it, gives the text.
pub proof fn lemma_first_text_is_first(blocks: Seq<BlockView>, at: int, kind: TextKind)
    requires
        0 <= at < blocks.len(),
        field_text(blocks[at], kind) is Some,
        forall|j: int| 0 <= j < at ==> field_text(#[trigger] blocks[j], kind) is None,
    ensures
        first_text(blocks, kind) == field_text(blocks[at], kind),
    decreases at,
{
    if at > 0 {
        let rest = blocks.drop_first();
        assert(field_text(blocks[0], kind) is None);
        assert forall|j: int| 0 <= j < at - 1 implies field_text(#[trigger] rest[j], kind)
            is None by {
            assert(rest[j] == blocks[j + 1]);
        }
        lemma_first_text_is_first(rest, at - 1, kind);
    }
}

/// Whether the block at `at` is a layer of this kind with none before it.
pub open spec fn is_first_layer_at(blocks: Seq<BlockView>, at: int, kind: LayerKind) -> bool {
    &&& 0 <= at < blocks.len()
    &&& layer_cells(blocks[at], kind) is Some
    &&& forall|j: int| 0 <= j < at ==> layer_cells(#[trigger] blocks[j], kind) is None
}

/// Whether the block at `at` is a text field of this kind with none before it.
pub open spec fn is_first_text_at(blocks: Seq<BlockView>, at: int, kind: TextKind) -> bool {
    &&& 0 <= at < blocks.len()
    &&& field_text(blocks[at], kind) is Some
    &&& forall|j: int| 0 <= j < at ==> field_text(#[trigger] blocks[j], kind) is None
}

/// Whether some block of the run is a layer of this kind.
pub open spec fn has_layer(blocks: Seq<BlockView>, kind: LayerKind) -> bool {
    exists|i: int| 0 <= i < blocks.len() && layer_cells(#[trigger] blocks[i], kind) is Some
}

/// Whether some block of the run is a text field of this kind.
pub open spec fn has_text(blocks: Seq<BlockView>, kind: TextKind) -> bool {
    exists|i: int| 0 <= i < blocks.len() && field_text(#[trigger] blocks[i], kind) is Some
}

/// A layer is found exactly when a block of its kind is there, and then it
/// is that of the first such block, whose place is returned.
pub proof fn lemma_first_layer_found(blocks: Seq<BlockView>, kind: LayerKind) -> (at: int)
    ensures
        first_layer(blocks, kind) is Some <==> has_layer(blocks, kind),
        first_layer(blocks, kind) is Some ==> is_first_layer_at(blocks, at, kind) && first_layer(
            blocks,
            kind,
        ) == layer_cells(blocks[at], kind),
    decreases blocks.len(),
{
    if blocks.len() == 0 {
        0
    } else if layer_cells(blocks[0], kind) is Some {
        0
    } else {
        let rest = blocks.drop_first();
        let rest_at = lemma_first_layer_found(rest, kind);
        if has_layer(blocks, kind) {
            let i = choose|i: int|
                0 <= i < blocks.len() && layer_cells(#[trigger] blocks[i], kind) is Some;
            assert(rest[i - 1] == blocks[i]);
        }
        if first_layer(rest, kind) is Some {
            assert(blocks[rest_at + 1] == rest[rest_at]);
            assert forall|j: int| 0 <= j < rest_at + 1 implies layer_cells(
                #[trigger] blocks[j],
                kind,
            ) is None by {
                if j > 0 {
                    assert(blocks[j] == rest[j - 1]);
                }
            }
        }
        rest_at + 1
    }
}

/// A text field is found exactly when a block of its kind is there, and
/// then it is that of the first such block, whose place is returned.
pub proof fn lemma_first_text_found(blocks: Seq<BlockView>, kind: TextKind) -> (at: int)
    ensures
        first_text(blocks, kind) is Some <==> has_text(blocks, kind),
        first_text(blocks, kind) is Some ==> is_first_text_at(blocks, at, kind) && first_text(
            blocks,
            kind,
        ) == field_text(blocks[at], kind),
    decreases blocks.len(),
{
    if blocks.len() == 0 {
        0
    } else if field_text(blocks[0], kind) is Some {
        0
    } else {
        let rest = blocks.drop_first();
        let rest_at = lemma_first_text_found(rest, kind);
        if has_text(blocks, kind) {
            let i = choose|i: int|
                0 <= i < blocks.len() && field_text(#[trigger] blocks[i], kind) is Some;
            assert(rest[i - 1] == blocks[i]);
        }
        if first_text(rest, kind) is Some {
            assert(blocks[rest_at + 1] == rest[rest_at]);
            assert forall|j: int| 0 <= j < rest_at + 1 implies field_text(
                #[trigger] blocks[j],
                kind,
            ) is None by {
                if j > 0 {
                    assert(blocks[j] == rest[j - 1]);
                }
            }
        }
        rest_at + 1
    }
}

/// Whether the first layer of this kind, if there is one, holds width
/// times height cells.
pub open spec fn first_layer_fills(
    header: HeaderView,
    blocks: Seq<BlockView>,
    kind: LayerKind,
) -> bool {
    forall|at: int| #[trigger]
        is_first_layer_at(blocks, at, kind) ==> layer_cells(blocks[at], kind)->0.len()
            == header.width * header.height
}

/// The layer of a blueprint that the first block of this kind gives, if
/// there is such a block, and none otherwise.
pub open spec fn grid_is_from_first(
    grid: Option<GridView>,
    header: HeaderView,
    blocks: Seq<BlockView>,
    kind: LayerKind,
) -> bool {
    &&& grid is None <==> !has_layer(blocks, kind)
    &&& forall|at: int| #[trigger]
        is_first_layer_at(blocks, at, kind) ==> grid == Some(
            GridView {
                rows: header.height as nat,
                cols: header.width as nat,
                cells: layer_cells(blocks[at], kind)->0,
            },
        )
}

/// The text of a blueprint that the first block of this kind gives, if
/// there is such a block, and none otherwise.
pub open spec fn text_is_from_first(
    text: Option<Seq<char>>,
    blocks: Seq<BlockView>,
    kind: TextKind,
) -> bool {
    &&& text is None <==> !has_text(blocks, kind)
    &&& forall|at: int| #[trigger]
        is_first_text_at(blocks, at, kind) ==> text == field_text(blocks[at], kind)
}

/// The tags of a blueprint that the first tags block gives, split, if
/// there is such a block, and none otherwise.
pub open spec fn tags_are_from_first(tags: Option<Seq<Seq<char>>>, blocks: Seq<BlockView>) -> bool {
    &&& tags is None <==> !has_text(blocks, TextKind::Tags)
    &&& forall|at: int| #[trigger]
        is_first_text_at(blocks, at, TextKind::Tags) ==> tags == Some(
            split_tags(field_text(blocks[at], TextKind::Tags)->0),
        )
}

/// Blocks in any order, of any kind any number of times, assemble into a
/// blueprint as soon as a logic layer is among them and the first layer of
/// each kind fills the grid. Each field then comes from the first block of
/// its kind and is absent exactly when there is no such block; later blocks
/// of a kind count for nothing, whatever they hold. The grid must be one
/// that can be addressed (see [`shape_fits`]).
pub proof fn lemma_first_blocks_assembled(header: HeaderView, blocks: Seq<BlockView>)
    requires
        has_layer(blocks, LayerKind::Logic),
        first_layer_fills(header, blocks, LayerKind::Logic),
        first_layer_fills(header, blocks, LayerKind::DecoOn),
        first_layer_fills(header, blocks, LayerKind::DecoOff),
        shape_fits(header.height as nat, header.width as nat),
    ensures
        assembled(header, blocks) is Ok,
        ({
            let b = assembled(header, blocks)->Ok_0;
            &&& grid_is_from_first(Some(b.logic_grid), header, blocks, LayerKind::Logic)
            &&& grid_is_from_first(b.deco_on_grid, header, blocks, LayerKind::DecoOn)
            &&& grid_is_from_first(b.deco_off_grid, header, blocks, LayerKind::DecoOff)
            &&& text_is_from_first(b.name, blocks, TextKind::Name)
            &&& text_is_from_first(b.description, blocks, TextKind::Description)
            &&& tags_are_from_first(b.tags, blocks)
        }),
{
    assert(header.width * header.height == header.height * header.width) by (nonlinear_arith);
    let logic_at = lemma_first_layer_found(blocks, LayerKind::Logic);
    let on_at = lemma_first_layer_found(blocks, LayerKind::DecoOn);
    let off_at = lemma_first_layer_found(blocks, LayerKind::DecoOff);
    let name_at = lemma_first_text_found(blocks, TextKind::Name);
    let description_at = lemma_first_text_found(blocks, TextKind::Description);
    let tags_at = lemma_first_text_found(blocks, TextKind::Tags);
    assert(is_first_layer_at(blocks, logic_at, LayerKind::Logic));
    if first_layer(blocks, LayerKind::DecoOn) is Some {
        assert(is_first_layer_at(blocks, on_at, LayerKind::DecoOn));
    }
    if first_layer(blocks, LayerKind::DecoOff) is Some {
        assert(is_first_layer_at(blocks, off_at, LayerKind::DecoOff));
    }
    assert forall|at: int| #[trigger] is_first_layer_at(blocks, at, LayerKind::Logic) implies
        first_layer(blocks, LayerKind::Logic) == layer_cells(blocks[at], LayerKind::Logic) by {
        lemma_first_layer_is_first(blocks, at, LayerKind::Logic);
    }
    assert forall|at: int| #[trigger] is_first_layer_at(blocks, at, LayerKind::DecoOn) implies
        first_layer(blocks, LayerKind::DecoOn) == layer_cells(blocks[at], LayerKind::DecoOn) by {
        lemma_first_layer_is_first(blocks, at, LayerKind::DecoOn);
    }
    assert forall|at: int| #[trigger] is_first_layer_at(blocks, at, LayerKind::DecoOff) implies
        first_layer(blocks, LayerKind::DecoOff) == layer_cells(blocks[at], LayerKind::DecoOff) by {
        lemma_first_layer_is_first(blocks, at, LayerKind::DecoOff);
    }
    assert forall|at: int| #[trigger] is_first_text_at(blocks, at, TextKind::Name) implies
        first_text(blocks, TextKind::Name) == field_text(blocks[at], TextKind::Name) by {
        lemma_first_text_is_first(blocks, at, TextKind::Name);
    }
    assert forall|at: int| #[trigger] is_first_text_at(blocks, at, TextKind::Description) implies
        first_text(blocks, TextKind::Description) == field_text(
            blocks[at],
            TextKind::Description,
        ) by {
        lemma_first_text_is_first(blocks, at, TextKind::Description);
    }
    assert forall|at: int| #[trigger] is_first_text_at(blocks, at, TextKind::Tags) implies
        first_text(blocks, TextKind::Tags) == field_text(blocks[at], TextKind::Tags) by {
        lemma_first_text_is_first(blocks, at, TextKind::Tags);
    }
}

/// A block of a kind that an earlier block already has changes nothing.
pub proof fn lemma_later_duplicate_ignored(
    header: HeaderView,
    blocks: Seq<BlockView>,
    extra: BlockView,
)
    requires
        match extra {
            BlockView::Layer(kind, _) => first_layer(blocks, kind) is Some,
            BlockView::Text(kind, _) => first_text(blocks, kind) is Some,
        },
    ensures
        assembled(header, blocks.push(extra)) == assembled(header, blocks),
{
    let one = seq![extra];
    assert(blocks.push(extra) =~= blocks + one);
    lemma_first_of_short(one, LayerKind::Logic, TextKind::Name);
    lemma_first_of_short(one, LayerKind::DecoOn, TextKind::Description);
    lemma_first_of_short(one, LayerKind::DecoOff, TextKind::Tags);
    lemma_first_layer_concat(blocks, one, LayerKind::Logic);
    lemma_first_layer_concat(blocks, one, LayerKind::DecoOn);
    lemma_first_layer_concat(blocks, one, LayerKind::DecoOff);
    lemma_first_text_concat(blocks, one, TextKind::Name);
    lemma_first_text_concat(blocks, one, TextKind::Description);
    lemma_first_text_concat(blocks, one, TextKind::Tags);
}

} // verus!
