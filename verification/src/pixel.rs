//! Layer cells: RGBA8888 colours packed into big-endian 32-bit integers.

use vstd::prelude::*;
use crate::wire::{
    be_bytes, be_u32, lemma_be_bytes_of_u32, lemma_be_u32_of_bytes, push_u32_be, u32_at,
};

verus! {

/// The cells that a byte buffer spells, four bytes to a cell. A buffer whose
/// length is no multiple of four spells no cells at all (see
/// [`cells_from_be_bytes`]); here its ragged end is simply not read.
pub open spec fn cells_of_bytes(b: Seq<u8>) -> Seq<u32> {
    Seq::new((b.len() / 4) as nat, |i: int| be_u32(b.subrange(4 * i, 4 * i + 4)))
}

/// The bytes of a run of cells, each cell most significant byte first.
pub open spec fn bytes_of_cells(c: Seq<u32>) -> Seq<u8> {
    Seq::new(c.len() * 4, |i: int| be_bytes(c[i / 4])[i % 4])
}

/// One more cell adds exactly its four bytes.
pub proof fn lemma_bytes_of_cells_push(c: Seq<u32>, x: u32)
    ensures
        bytes_of_cells(c.push(x)) == bytes_of_cells(c) + be_bytes(x),
{
    let lhs = bytes_of_cells(c.push(x));
    let rhs = bytes_of_cells(c) + be_bytes(x);
    assert(lhs.len() == rhs.len());
    assert forall|i: int| 0 <= i < lhs.len() implies lhs[i] == rhs[i] by {
        if i < c.len() * 4 {
            assert(c.push(x)[i / 4] == c[i / 4]);
        } else {
            assert(i / 4 == c.len());
            assert(i % 4 == i - c.len() * 4);
        }
    }
    assert(lhs =~= rhs);
}

/// Cells survive the trip through their bytes.
pub proof fn lemma_cells_of_bytes_of_cells(c: Seq<u32>)
    ensures
        bytes_of_cells(c).len() == 4 * c.len(),
        cells_of_bytes(bytes_of_cells(c)) == c,
{
    let b = bytes_of_cells(c);
    assert forall|i: int| 0 <= i < c.len() implies cells_of_bytes(b)[i] == c[i] by {
        let quad = b.subrange(4 * i, 4 * i + 4);
        assert forall|k: int| 0 <= k < 4 implies quad[k] == be_bytes(c[i])[k] by {
            assert(quad[k] == b[4 * i + k]);
            assert((4 * i + k) / 4 == i);
            assert((4 * i + k) % 4 == k);
        }
        assert(quad =~= be_bytes(c[i]));
        lemma_be_u32_of_bytes(c[i]);
    }
    assert(cells_of_bytes(b) =~= c);
}

/// A buffer of whole cells survives the trip through its cells.
pub proof fn lemma_bytes_of_cells_of_bytes(b: Seq<u8>)
    requires
        b.len() % 4 == 0,
    ensures
        cells_of_bytes(b).len() * 4 == b.len(),
        bytes_of_cells(cells_of_bytes(b)) == b,
{
    let c = cells_of_bytes(b);
    let back = bytes_of_cells(c);
    assert(back.len() == b.len());
    assert forall|i: int| 0 <= i < b.len() implies back[i] == b[i] by {
        let q = i / 4;
        let quad = b.subrange(4 * q, 4 * q + 4);
        lemma_be_bytes_of_u32(quad);
        assert(c[q] == be_u32(quad));
        assert(quad[i % 4] == b[4 * q + i % 4]);
    }
    assert(back =~= b);
}

/// Reads a decompressed layer as cells. The buffer must hold whole cells:
/// one whose length is not a multiple of four is refused.
pub fn cells_from_be_bytes(bytes: &[u8]) -> (r: Option<Vec<u32>>)
    ensures
        r is Some <==> bytes@.len() % 4 == 0,
        r matches Some(cells) ==> cells@ == cells_of_bytes(bytes@),
{
    let n = bytes.len();
    if n % 4 != 0 {
        return None;
    }
    let mut cells: Vec<u32> = Vec::new();
    let mut at: usize = 0;
    while at < n
        invariant
            n == bytes@.len(),
            n % 4 == 0,
            at % 4 == 0,
            at <= n,
            cells@.len() * 4 == at,
            forall|i: int| 0 <= i < cells@.len() ==> cells@[i] == cells_of_bytes(bytes@)[i],
        decreases n - at,
    {
        let v = u32_at(bytes, at);
        cells.push(v);
        at = at + 4;
    }
    assert(cells@ =~= cells_of_bytes(bytes@));
    Some(cells)
}

/// Writes cells out as the bytes of a layer, ready for compression.
pub fn cells_to_be_bytes(cells: &[u32]) -> (bytes: Vec<u8>)
    ensures
        bytes@ == bytes_of_cells(cells@),
{
    let mut bytes: Vec<u8> = Vec::new();
    let mut i: usize = 0;
    assert(bytes@ =~= bytes_of_cells(cells@.take(0)));
    while i < cells.len()
        invariant
            i <= cells@.len(),
            bytes@ == bytes_of_cells(cells@.take(i as int)),
        decreases cells@.len() - i,
    {
        proof {
            lemma_bytes_of_cells_push(cells@.take(i as int), cells@[i as int]);
            assert(cells@.take(i as int).push(cells@[i as int]) =~= cells@.take(i + 1));
        }
        push_u32_be(&mut bytes, cells[i]);
        i = i + 1;
    }
    assert(cells@.take(i as int) =~= cells@);
    bytes
}

/// The four colour channels of one cell.
#[derive(Debug, Clone, Copy, PartialEq, Eq)]
pub struct Rgba {
    pub r: u8,
    pub g: u8,
    pub b: u8,
    pub a: u8,
}

impl Rgba {
    /// The channels in wire order: red first, alpha last.
    pub open spec fn channels(self) -> Seq<u8> {
        seq![self.r, self.g, self.b, self.a]
    }

    /// Splits a cell into its channels: red is the most significant byte,
    /// alpha the least.
    pub fn from_cell(cell: u32) -> (c: Rgba)
        ensures
            c.channels() == be_bytes(cell),
    {
        assert(cell >> 24 == cell / 0x100_0000) by (bit_vector);
        assert((cell >> 16) & 0xFF == (cell / 0x1_0000) % 0x100) by (bit_vector);
        assert((cell >> 8) & 0xFF == (cell / 0x100) % 0x100) by (bit_vector);
        assert(cell & 0xFF == cell % 0x100) by (bit_vector);
        let c = Rgba {
            r: (cell >> 24) as u8,
            g: ((cell >> 16) & 0xFF) as u8,
            b: ((cell >> 8) & 0xFF) as u8,
            a: (cell & 0xFF) as u8,
        };
        assert(c.channels() =~= be_bytes(cell));
        c
    }

    /// Packs the channels back into a cell.
    pub fn to_cell(self) -> (cell: u32)
        ensures
            cell == be_u32(self.channels()),
            be_bytes(cell) == self.channels(),
    {
        proof {
            lemma_be_bytes_of_u32(self.channels());
        }
        let r: u32 = self.r as u32;
        let g: u32 = self.g as u32;
        let b: u32 = self.b as u32;
        let a: u32 = self.a as u32;
        r * 0x100_0000 + g * 0x1_0000 + b * 0x100 + a
    }
}

} // verus!
