//! Tables of sample masks: which samples of a pixel lie in a half-plane.

use vstd::prelude::*;

use crate::coarse::AaConfig;

verus! {

/// The columns that the eight samples of a pixel stand in, by rows.
pub open spec fn columns_of_8() -> Seq<int> {
    seq![0, 5, 3, 7, 1, 4, 6, 2]
}

/// The columns that the sixteen samples of a pixel stand in, by rows.
pub open spec fn columns_of_16() -> Seq<int> {
    seq![1, 8, 4, 11, 15, 7, 3, 12, 0, 9, 5, 13, 2, 10, 6, 14]
}

/// Whether the sample in the given row lies in the half-plane that belongs to an
/// entry of a table, where each row of the pixel has one sample.
///
/// With `n` samples there are `4 * n` entries, for translations, to each of
/// `4 * n` slopes. The first half of the slopes is negative, the second half
/// positive. A pixel is `8 * n` units wide and high.
pub open spec fn in_half_plane(columns: Seq<int>, entry: int, row: int) -> bool {
    let n = columns.len() as int;
    let positive = entry / (4 * n) >= 2 * n;
    let slope = 2 * (entry / (4 * n) % (2 * n)) + 1;
    let along = 2 * (entry % (4 * n)) + 1;
    let translation = if positive {
        8 * n - along
    } else {
        along
    };
    let x = 8 * columns[row] + 4;
    let y = if positive {
        8 * row + 4
    } else {
        8 * n - (8 * row + 4)
    };
    (x - (8 * n - translation)) * (4 * n - slope) >= (y - translation) * slope
}

/// Whether a table holds the masks of eight samples: a byte for each entry, with
/// a bit for each sample.
pub open spec fn masks_of_8(table: Seq<u8>) -> bool {
    &&& table.len() == 32 * 32
    &&& forall|entry: int, row: u8|
        0 <= entry < 32 * 32 && row < 8 ==> (#[trigger] (table[entry] & (1u8 << row)) != 0)
            == in_half_plane(columns_of_8(), entry, row as int)
}

/// Whether masks are those of sixteen samples: one for each entry, with a bit for
/// each sample.
pub open spec fn masks_of_16(masks: Seq<u16>) -> bool {
    &&& masks.len() == 64 * 64
    &&& forall|entry: int, row: u16|
        0 <= entry < 64 * 64 && row < 16 ==> (#[trigger] (masks[entry] & (1u16 << row)) != 0)
            == in_half_plane(columns_of_16(), entry, row as int)
}

/// The bytes of masks of two bytes, the lower byte first.
pub open spec fn mask_bytes(masks: Seq<u16>) -> Seq<u8> {
    Seq::new(
        2 * masks.len(),
        |i: int|
            if i % 2 == 0 {
                (masks[i / 2] % 0x100) as u8
            } else {
                (masks[i / 2] / 0x100) as u8
            },
    )
}

/// Whether a table holds the sample masks for a way to smooth edges.
pub open spec fn holds_masks(table: Seq<u8>, aa_config: AaConfig) -> bool {
    match aa_config {
        AaConfig::Area => table.len() == 0,
        AaConfig::Msaa8 => masks_of_8(table),
        AaConfig::Msaa16 => exists|masks: Seq<u16>|
            #[trigger] masks_of_16(masks) && table == mask_bytes(masks),
    }
}

/// `vello_encoding::make_mask_lut`: a table of half-plane masks of eight samples,
/// a byte for each of 32 translations and 32 slopes. It is computed in floating
/// point, on numbers that are all exact.
#[verifier::external_body]
fn make_mask_lut() -> (table: Vec<u8>)
    ensures
        masks_of_8(table@),
{
    vello_encoding::make_mask_lut()
}

/// `vello_encoding::make_mask_lut_16`: a table of half-plane masks of sixteen
/// samples, one for each of 64 translations and 64 slopes. The masks are handed on
/// as numbers, whatever their byte order. They are computed in floating point, on
/// numbers that are all exact.
#[verifier::external_body]
fn make_mask_lut_16() -> (masks: Vec<u16>)
    ensures
        masks_of_16(masks@),
{
    let table = vello_encoding::make_mask_lut_16();
    table.chunks_exact(2).map(|mask| u16::from_ne_bytes([mask[0], mask[1]])).collect()
}

/// The bytes of masks of two bytes.
fn write_masks(masks: &[u16]) -> (table: Vec<u8>)
    ensures
        table@ == mask_bytes(masks@),
{
    let mut table: Vec<u8> = Vec::new();
    let mut i: usize = 0;
    while i < masks.len()
        invariant
            i <= masks@.len(),
            table@ == mask_bytes(masks@.take(i as int)),
        decreases masks.len() - i,
    {
        table.push((masks[i] % 0x100) as u8);
        table.push((masks[i] / 0x100) as u8);
        i += 1;
        assert(table@ =~= mask_bytes(masks@.take(i as int)));
    }
    assert(masks@.take(i as int) =~= masks@);
    table
}

/// The table of sample masks for a way to smooth edges.
pub fn sample_masks(aa_config: AaConfig) -> (table: Vec<u8>)
    ensures
        holds_masks(table@, aa_config),
{
    match aa_config {
        AaConfig::Area => Vec::new(),
        AaConfig::Msaa8 => make_mask_lut(),
        AaConfig::Msaa16 => {
            let masks = make_mask_lut_16();
            write_masks(masks.as_slice())
        },
    }
}

} // verus!
