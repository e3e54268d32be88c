//! Variable-length integers and the two tree encoders that consume a grid.

use crate::config::Config;
use crate::error::ConversionError;
use crate::nbt_helper::{
    blob_content,
    blob_insert,
    blob_title,
    byte_array_value,
    compound_with,
    empty_compound,
    int_value,
    list_from_intvec,
    list_value,
    long_value,
    no_fields,
    short_value,
    string_value,
    tags_of,
    value_tag,
    Tag,
};
use crate::scan::{
    cell_at,
    lemma_occupied_cells,
    lemma_position_of_cell,
    occupied_cells,
    occupied_prefix,
    position,
    volume,
};
use crate::voxel_grid::{in_range, Cell, VoxelGrid};
use nbt::{Blob, Value};
use vstd::prelude::*;

verus! {

/// The unsigned LEB128 encoding of `n`: seven payload bits per byte, least
/// significant group first, the high bit set on every byte except the last.
pub open spec fn leb128(n: nat) -> Seq<u8>
    decreases n,
{
    if n < 128 {
        seq![n as u8]
    } else {
        seq![(128 + n % 128) as u8] + leb128(n / 128)
    }
}

/// The encodings of all `values`, one after the other.
pub open spec fn leb128_all(values: Seq<u32>) -> Seq<u8>
    decreases values.len(),
{
    if values.len() == 0 {
        Seq::empty()
    } else {
        leb128_all(values.drop_last()) + leb128(values.last() as nat)
    }
}

/// The number that a byte sequence stands for when read as unsigned LEB128,
/// ignoring the continuation bits.
pub open spec fn leb128_value(bytes: Seq<u8>) -> nat
    decreases bytes.len(),
{
    if bytes.len() == 0 {
        0
    } else {
        (bytes[0] % 128) as nat + 128 * leb128_value(bytes.skip(1))
    }
}

/// A byte read as a signed byte with the same bit pattern.
pub open spec fn as_signed(b: u8) -> i8 {
    if b < 128 {
        b as i8
    } else {
        (b - 256) as i8
    }
}

/// Reading back an encoding gives the number that was encoded.
pub proof fn lemma_leb128_round_trip(n: nat)
    ensures
        leb128_value(leb128(n)) == n,
    decreases n,
{
    let bytes = leb128(n);
    if n < 128 {
        assert(bytes.skip(1) =~= Seq::<u8>::empty());
        assert(leb128_value(bytes.skip(1)) == 0);
        assert(bytes[0] == n);
    } else {
        lemma_leb128_round_trip(n / 128);
        assert(bytes.skip(1) =~= leb128(n / 128));
        assert(bytes[0] == 128 + n % 128);
        assert(bytes[0] % 128 == n % 128);
    }
}

/// An encoding is never empty; its last byte has the high bit clear and every
/// byte before it has the high bit set.
pub proof fn lemma_leb128_shape(n: nat)
    ensures
        leb128(n).len() >= 1,
        leb128(n).last() < 128,
        forall|i: int| 0 <= i < leb128(n).len() - 1 ==> leb128(n)[i] >= 128,
        n < 128 ==> leb128(n) == seq![n as u8],
    decreases n,
{
    if n >= 128 {
        lemma_leb128_shape(n / 128);
        let rest = leb128(n / 128);
        let all = leb128(n);
        assert(all.len() == rest.len() + 1);
        assert(all.last() == rest.last());
        assert forall|i: int| 0 <= i < all.len() - 1 implies all[i] >= 128 by {
            if i > 0 {
                assert(all[i] == rest[i - 1]);
            }
        }
    }
}

/// Encodes one integer as an unsigned LEB128 varint.
pub fn varint_from_int(i: u32) -> (output: Vec<u8>)
    ensures
        output@ == leb128(i as nat),
{
    let mut output: Vec<u8> = Vec::new();
    let mut rest: u32 = i;
    while rest >= 128
        invariant
            output@ + leb128(rest as nat) == leb128(i as nat),
        decreases rest,
    {
        let low: u32 = (rest & 127) | 128;
        let next: u32 = rest >> 7;
        proof {
            assert(low == 128 + rest % 128 && next == rest / 128) by (bit_vector)
                requires
                    low == (rest & 127) | 128,
                    next == rest >> 7,
            ;
            assert(output@.push(low as u8) + leb128(next as nat) =~= output@ + leb128(
                rest as nat,
            ));
        }
        output.push(low as u8);
        rest = next;
    }
    proof {
        assert(output@.push(rest as u8) =~= output@ + leb128(rest as nat));
    }
    output.push(rest as u8);
    output
}

/// Encodes every integer of `array` as a varint and concatenates the results.
pub fn varint_from_intarray(array: Vec<u32>) -> (output: Vec<u8>)
    ensures
        output@ == leb128_all(array@),
{
    let mut output: Vec<u8> = Vec::new();
    let mut n: usize = 0;
    while n < array.len()
        invariant
            n <= array.len(),
            output@ == leb128_all(array@.take(n as int)),
        decreases array.len() - n,
    {
        let mut piece = varint_from_int(array[n]);
        proof {
            assert(array@.take(n + 1).drop_last() =~= array@.take(n as int));
        }
        output.append(&mut piece);
        n += 1;
    }
    proof {
        assert(array@.take(n as int) =~= array@);
    }
    output
}

/// Reinterprets each byte as a signed byte, keeping its bit pattern.
pub fn bytearray_from_varint(array: Vec<u8>) -> (output: Vec<i8>)
    ensures
        output@ == array@.map_values(|b: u8| as_signed(b)),
{
    let mut output: Vec<i8> = Vec::new();
    let mut n: usize = 0;
    while n < array.len()
        invariant
            n <= array.len(),
            output@ == array@.take(n as int).map_values(|b: u8| as_signed(b)),
        decreases array.len() - n,
    {
        let b: u8 = array[n];
        let s: i8 = if b < 128 {
            b as i8
        } else {
            (b as i16 - 256) as i8
        };
        output.push(s);
        proof {
            assert(output@ =~= array@.take(n + 1).map_values(|b: u8| as_signed(b)));
        }
        n += 1;
    }
    proof {
        assert(array@.take(n as int) =~= array@);
    }
    output
}

/// Whether none of the three dimensions is negative.
pub open spec fn dims_valid(dims: (i32, i32, i32)) -> bool {
    dims.0 >= 0 && dims.1 >= 0 && dims.2 >= 0
}

/// The palette index that the compact format writes for place `n` of the
/// walk: 1 for an occupied cell, 0 for air.
pub open spec fn block_id_at(occupied: Set<Cell>, dims: (i32, i32, i32), n: int) -> u32 {
    if occupied.contains(cell_at(dims, n)) {
        1
    } else {
        0
    }
}

/// The palette indices of all cells, in walk order.
pub open spec fn block_ids(occupied: Set<Cell>, dims: (i32, i32, i32)) -> Seq<u32> {
    Seq::new(volume(dims), |n: int| block_id_at(occupied, dims, n))
}

/// The byte array of the compact format: every palette index as a varint, the
/// bytes then read as signed.
pub open spec fn block_data(occupied: Set<Cell>, dims: (i32, i32, i32)) -> Seq<i8> {
    leb128_all(block_ids(occupied, dims)).map_values(|b: u8| as_signed(b))
}

/// A list node of integer nodes.
pub open spec fn int_list(values: Seq<i32>) -> Tag {
    Tag::List(values.map_values(|n: i32| Tag::Int(n)))
}

/// The metadata compound of the compact format.
pub open spec fn metadata_fields(name: Seq<char>, timestamp: i64) -> Map<Seq<char>, Tag> {
    no_fields().insert("Name"@, Tag::Text(name)).insert("Author"@, Tag::Text("threed2vox"@)).insert(
        "Date"@,
        Tag::Long(timestamp),
    ).insert("RequiredMods"@, Tag::List(Seq::empty()))
}

/// The palette of the compact format: air is 0 and the block is 1.
pub open spec fn schematic_palette(block: Seq<char>) -> Map<Seq<char>, Tag> {
    no_fields().insert("minecraft:air"@, Tag::Int(0)).insert(block, Tag::Int(1))
}

/// The fields of the compact palette-array format for a grid with the given
/// occupied cells and dimensions.
pub open spec fn schematic_fields(
    occupied: Set<Cell>,
    dims: (i32, i32, i32),
    block: Seq<char>,
    data_version: i32,
    name: Seq<char>,
    timestamp: i64,
) -> Map<Seq<char>, Tag> {
    no_fields().insert("Version"@, Tag::Int(2)).insert("DataVersion"@, Tag::Int(data_version)).insert(
        "Metadata"@,
        Tag::Compound(metadata_fields(name, timestamp)),
    ).insert("Width"@, Tag::Short(dims.0 as i16)).insert("Height"@, Tag::Short(dims.1 as i16)).insert(
        "Length"@,
        Tag::Short(dims.2 as i16),
    ).insert("PaletteMax"@, Tag::Int(2)).insert(
        "Palette"@,
        Tag::Compound(schematic_palette(block)),
    ).insert("BlockData"@, Tag::ByteArray(block_data(occupied, dims)))
}

/// The single palette entry of the sparse format.
pub open spec fn structure_palette_entry(block: Seq<char>) -> Tag {
    Tag::Compound(
        no_fields().insert("Name"@, Tag::Text(block)).insert(
            "Properties"@,
            Tag::Compound(no_fields()),
        ),
    )
}

/// The entry that the sparse format lists for an occupied cell.
pub open spec fn block_entry(c: Cell) -> Tag {
    Tag::Compound(
        no_fields().insert("state"@, Tag::Int(0)).insert(
            "pos"@,
            int_list(seq![c.0 as i32, c.1 as i32, c.2 as i32]),
        ),
    )
}

/// The entries of the given cells, in their order.
pub open spec fn block_entries(cells: Seq<Cell>) -> Seq<Tag> {
    cells.map_values(|c: Cell| block_entry(c))
}

/// The fields of the sparse block-list format for a grid with the given
/// occupied cells and dimensions.
pub open spec fn structure_fields(
    occupied: Set<Cell>,
    dims: (i32, i32, i32),
    block: Seq<char>,
    data_version: i32,
) -> Map<Seq<char>, Tag> {
    no_fields().insert("DataVersion"@, Tag::Int(data_version)).insert(
        "size"@,
        int_list(seq![dims.0, dims.1, dims.2]),
    ).insert("palette"@, Tag::List(seq![structure_palette_entry(block)])).insert(
        "blocks"@,
        Tag::List(block_entries(occupied_cells(occupied, dims))),
    )
}

/// Values below 128 are written as they are, one byte each.
pub proof fn lemma_small_values_take_one_byte(values: Seq<u32>)
    requires
        forall|i: int| 0 <= i < values.len() ==> values[i] < 128,
    ensures
        leb128_all(values).len() == values.len(),
        forall|i: int| 0 <= i < values.len() ==> leb128_all(values)[i] == values[i],
    decreases values.len(),
{
    if values.len() > 0 {
        let front = values.drop_last();
        lemma_small_values_take_one_byte(front);
        let all = leb128_all(values);
        assert(leb128(values.last() as nat) == seq![values.last() as u8]);
        assert forall|i: int| 0 <= i < values.len() implies all[i] == values[i] by {
            if i < front.len() {
                assert(all[i] == leb128_all(front)[i]);
                assert(front[i] == values[i]);
            } else {
                assert(all[i] == leb128(values.last() as nat)[0]);
            }
        }
    }
}

/// The byte array of the compact format holds one byte for every cell of the
/// grid, width x height x length bytes in all, and the byte at the place of a
/// cell in the walk is 1 for an occupied cell and 0 for air.
pub proof fn lemma_schematic_array_length(
    occupied: Set<Cell>,
    dims: (i32, i32, i32),
    block: Seq<char>,
    data_version: i32,
    name: Seq<char>,
    timestamp: i64,
)
    requires
        dims_valid(dims),
    ensures
        schematic_fields(occupied, dims, block, data_version, name, timestamp)["BlockData"@]
            == Tag::ByteArray(block_data(occupied, dims)),
        block_data(occupied, dims).len() == dims.0 * dims.1 * dims.2,
        forall|x: int, y: int, z: int|
            in_range(dims, x, y, z) ==> 0 <= #[trigger] position(dims, (x, y, z)) < block_data(
                occupied,
                dims,
            ).len() && block_data(occupied, dims)[position(dims, (x, y, z))] == if occupied.contains(
                (x, y, z),
            ) {
                1i8
            } else {
                0i8
            },
{
    lemma_small_values_take_one_byte(block_ids(occupied, dims));
    assert(volume(dims) == dims.0 * dims.1 * dims.2) by (nonlinear_arith)
        requires
            dims.0 >= 0,
            dims.1 >= 0,
            dims.2 >= 0,
            volume(dims) == if dims.0 > 0 && dims.1 > 0 && dims.2 > 0 {
                (dims.0 * dims.1 * dims.2) as nat
            } else {
                0
            },
    ;
    assert forall|x: int, y: int, z: int| in_range(dims, x, y, z) implies 0 <= #[trigger] position(
        dims,
        (x, y, z),
    ) < block_data(occupied, dims).len() && block_data(occupied, dims)[position(dims, (x, y, z))]
        == if occupied.contains((x, y, z)) {
        1i8
    } else {
        0i8
    } by {
        lemma_position_of_cell(dims, (x, y, z));
        let n = position(dims, (x, y, z));
        assert(block_ids(occupied, dims)[n] == block_id_at(occupied, dims, n));
        assert(leb128_all(block_ids(occupied, dims))[n] == block_ids(occupied, dims)[n]);
    }
}

/// The sparse format lists exactly one entry for every occupied cell of the grid.
pub proof fn lemma_structure_entry_count(grid: VoxelGrid, block: Seq<char>, data_version: i32)
    ensures
        grid@.finite(),
        structure_fields(grid@, grid.dims(), block, data_version)["blocks"@] == Tag::List(
            block_entries(occupied_cells(grid@, grid.dims())),
        ),
        block_entries(occupied_cells(grid@, grid.dims())).len() == grid@.len(),
{
    grid.lemma_occupied_in_range();
    lemma_occupied_cells(grid@, grid.dims());
}

/// Encoding the same grid with the same settings at two times gives trees
/// that differ in the date and in nothing else: putting the second date into
/// the first tree gives the second tree.
pub proof fn lemma_reencoding_changes_only_the_date(
    occupied: Set<Cell>,
    dims: (i32, i32, i32),
    block: Seq<char>,
    data_version: i32,
    name: Seq<char>,
    first: i64,
    second: i64,
)
    ensures
        schematic_fields(occupied, dims, block, data_version, name, second) == schematic_fields(
            occupied,
            dims,
            block,
            data_version,
            name,
            first,
        ).insert(
            "Metadata"@,
            Tag::Compound(metadata_fields(name, first).insert("Date"@, Tag::Long(second))),
        ),
{
    reveal_strlit("Metadata");
    reveal_strlit("Width");
    reveal_strlit("Height");
    reveal_strlit("Length");
    reveal_strlit("PaletteMax");
    reveal_strlit("Palette");
    reveal_strlit("BlockData");
    reveal_strlit("Date");
    reveal_strlit("RequiredMods");
    assert("Date"@.len() == 4 && "RequiredMods"@.len() == 12);
    assert("Metadata"@.len() == 8 && "Width"@.len() == 5 && "Height"@.len() == 6);
    assert("Length"@.len() == 6 && "PaletteMax"@.len() == 10 && "Palette"@.len() == 7);
    assert("BlockData"@.len() == 9);
    assert(metadata_fields(name, second) =~= metadata_fields(name, first).insert(
        "Date"@,
        Tag::Long(second),
    ));
    assert(schematic_fields(occupied, dims, block, data_version, name, second) =~= schematic_fields(
        occupied,
        dims,
        block,
        data_version,
        name,
        first,
    ).insert(
        "Metadata"@,
        Tag::Compound(metadata_fields(name, first).insert("Date"@, Tag::Long(second))),
    ));
}

/// The sparse format holds no date: encoding the same grid with the same
/// settings at two times gives the same tree.
pub proof fn lemma_structure_ignores_the_clock(
    grid: &VoxelGrid,
    config: &Config,
    first: i64,
    second: i64,
)
    ensures
        StructureFormat.fields(grid, config, first) == StructureFormat.fields(grid, config, second),
{
}

pub trait NBTIfy {
    /// The fields that `convert` writes for the grid and the settings when the
    /// clock reads `timestamp` seconds after the epoch.
    spec fn fields(&self, grid: &VoxelGrid, config: &Config, timestamp: i64) -> Map<
        Seq<char>,
        Tag,
    >;

    /// The file extension of the format.
    spec fn extension(&self) -> Seq<char>;

    /// Convert the voxel grid into a tree of this format.
    ///
    /// Fails with `ConversionError::Config` exactly when a dimension of the
    /// grid is negative. The creation time is whatever the clock says.
    fn convert(&self, grid: &VoxelGrid, config: &Config) -> (outcome: Result<Blob, ConversionError>)
        ensures
            outcome is Ok <==> dims_valid(grid.dims()),
            outcome matches Err(e) ==> e == ConversionError::Config,
            outcome matches Ok(blob) ==> blob_title(blob) == Seq::<char>::empty() && exists|
                timestamp: i64,
            |
                blob_content(blob) == self.fields(grid, config, timestamp),
    ;

    /// Get the appropriate file extension for this format.
    fn file_ending(&self) -> (ending: &'static str)
        ensures
            ending@ == self.extension(),
    ;
}

/// The whole seconds since the Unix epoch as `std::time::SystemTime::elapsed`
/// reports them, or nothing where the clock stands before the epoch. Nothing
/// is claimed of the number.
#[verifier::external_body]
fn seconds_since_epoch() -> (seconds: Option<u64>) {
    match std::time::SystemTime::UNIX_EPOCH.elapsed() {
        Ok(elapsed) => Some(elapsed.as_secs()),
        Err(_) => None,
    }
}

/// The palette indices of all cells of `grid`, in walk order.
fn collect_block_ids(grid: &VoxelGrid) -> (ids: Vec<u32>)
    requires
        dims_valid(grid.dims()),
    ensures
        ids@ == block_ids(grid@, grid.dims()),
{
    let (w, h, l) = grid.dimensions();
    let ghost dims = grid.dims();
    let mut ids: Vec<u32> = Vec::new();
    let mut y: i32 = 0;
    proof {
        assert((0 * l) * w == 0) by (nonlinear_arith);
    }
    while y < h
        invariant
            dims == grid.dims(),
            dims == (w, h, l),
            dims_valid(dims),
            0 <= y <= h,
            ids@.len() == (y * l) * w,
            forall|n: int| 0 <= n < ids@.len() ==> ids@[n] == block_id_at(grid@, dims, n),
        decreases h - y,
    {
        let mut z: i32 = 0;
        while z < l
            invariant
                dims == grid.dims(),
                dims == (w, h, l),
                dims_valid(dims),
                0 <= y < h,
                0 <= z <= l,
                ids@.len() == (y * l + z) * w,
                forall|n: int| 0 <= n < ids@.len() ==> ids@[n] == block_id_at(grid@, dims, n),
            decreases l - z,
        {
            let mut x: i32 = 0;
            while x < w
                invariant
                    dims == grid.dims(),
                    dims == (w, h, l),
                    0 <= y < h,
                    0 <= z < l,
                    0 <= x <= w,
                    ids@.len() == (y * l + z) * w + x,
                    forall|n: int| 0 <= n < ids@.len() ==> ids@[n] == block_id_at(grid@, dims, n),
                decreases w - x,
            {
                proof {
                    lemma_position_of_cell(dims, (x as int, y as int, z as int));
                }
                let id: u32 = if *grid.get(x, y, z) {
                    1
                } else {
                    0
                };
                ids.push(id);
                x += 1;
            }
            proof {
                assert((y * l + z) * w + w == (y * l + (z + 1)) * w) by (nonlinear_arith);
            }
            z += 1;
        }
        proof {
            assert((y * l + l) * w == ((y + 1) * l) * w) by (nonlinear_arith);
        }
        y += 1;
    }
    proof {
        assert(ids@.len() == volume(dims)) by (nonlinear_arith)
            requires
                ids@.len() == (h * l) * w,
                dims == (w, h, l),
                w >= 0,
                h >= 0,
                l >= 0,
                volume(dims) == if w > 0 && h > 0 && l > 0 {
                    (w * h * l) as nat
                } else {
                    0
                },
        ;
        assert(ids@ =~= block_ids(grid@, dims));
    }
    ids
}

/// The entries of all occupied cells of `grid`, in walk order.
fn collect_block_entries(grid: &VoxelGrid) -> (blocks: Vec<Value>)
    requires
        dims_valid(grid.dims()),
    ensures
        tags_of(blocks@) == block_entries(occupied_cells(grid@, grid.dims())),
{
    let (w, h, l) = grid.dimensions();
    let ghost dims = grid.dims();
    let mut blocks: Vec<Value> = Vec::new();
    let ghost mut seen: nat = 0;
    let mut y: i32 = 0;
    proof {
        assert((0 * l) * w == 0) by (nonlinear_arith);
    }
    while y < h
        invariant
            dims == grid.dims(),
            dims == (w, h, l),
            dims_valid(dims),
            0 <= y <= h,
            seen == (y * l) * w,
            blocks@.len() == occupied_prefix(grid@, dims, seen).len(),
            tags_of(blocks@) == block_entries(occupied_prefix(grid@, dims, seen)),
        decreases h - y,
    {
        let mut z: i32 = 0;
        while z < l
            invariant
                dims == grid.dims(),
                dims == (w, h, l),
                dims_valid(dims),
                0 <= y < h,
                0 <= z <= l,
                seen == (y * l + z) * w,
                blocks@.len() == occupied_prefix(grid@, dims, seen).len(),
            tags_of(blocks@) == block_entries(occupied_prefix(grid@, dims, seen)),
            decreases l - z,
        {
            let mut x: i32 = 0;
            while x < w
                invariant
                    dims == grid.dims(),
                    dims == (w, h, l),
                    0 <= y < h,
                    0 <= z < l,
                    0 <= x <= w,
                    seen == (y * l + z) * w + x,
                    blocks@.len() == occupied_prefix(grid@, dims, seen).len(),
            tags_of(blocks@) == block_entries(occupied_prefix(grid@, dims, seen)),
                decreases w - x,
            {
                let ghost here = (x as int, y as int, z as int);
                proof {
                    lemma_position_of_cell(dims, here);
                }
                if *grid.get(x, y, z) {
                    let coords: Vec<i32> = vec![x, y, z];
                    proof {
                        assert(coords@ =~= seq![x, y, z]);
                    }
                    let pos = list_from_intvec(coords);
                    let mut entry = empty_compound();
                    entry = compound_with(entry, "state", int_value(0));
                    entry = compound_with(entry, "pos", pos);
                    let ghost before = blocks@;
                    blocks.push(entry);
                    proof {
                        assert(value_tag(entry) == block_entry(here));
                        let listed = occupied_prefix(grid@, dims, seen);
                        let want = block_entries(listed.push(here));
                        assert forall|i: int| 0 <= i < want.len() implies tags_of(blocks@)[i]
                            == want[i] by {
                            if i < listed.len() {
                                assert(tags_of(before)[i] == block_entries(listed)[i]);
                            }
                        }
                        assert(tags_of(blocks@) =~= want);
                    }
                }
                proof {
                    seen = seen + 1;
                }
                x += 1;
            }
            proof {
                assert((y * l + z) * w + w == (y * l + (z + 1)) * w) by (nonlinear_arith);
            }
            z += 1;
        }
        proof {
            assert((y * l + l) * w == ((y + 1) * l) * w) by (nonlinear_arith);
        }
        y += 1;
    }
    proof {
        assert(seen == volume(dims)) by (nonlinear_arith)
            requires
                seen == (h * l) * w,
                dims == (w, h, l),
                w >= 0,
                h >= 0,
                l >= 0,
                volume(dims) == if w > 0 && h > 0 && l > 0 {
                    (w * h * l) as nat
                } else {
                    0
                },
        ;
    }
    blocks
}

/// Schematic version post-1.8, pre-1.13. No encoder is provided for it.
pub struct SchematicV1;

/// Schematic version post-1.13, aka files with extension .schem: the compact
/// palette-array format.
pub struct SchematicV2;

impl SchematicV2 {
    /// Builds the tree of the compact format for `grid`, with `timestamp` as
    /// the creation time in seconds after the epoch.
    ///
    /// Fails with `ConversionError::Config` exactly when a dimension of the
    /// grid is negative.
    pub fn encode(
        grid: &VoxelGrid,
        block: &str,
        data_version: i32,
        name: &str,
        timestamp: i64,
    ) -> (outcome: Result<Blob, ConversionError>)
        ensures
            outcome is Ok <==> dims_valid(grid.dims()),
            outcome matches Err(e) ==> e == ConversionError::Config,
            outcome matches Ok(blob) ==> blob_title(blob) == Seq::<char>::empty() && blob_content(
                blob,
            ) == schematic_fields(grid@, grid.dims(), block@, data_version, name@, timestamp),
    {
        let (x, y, z) = grid.dimensions();
        if x < 0 || y < 0 || z < 0 {
            return Err(ConversionError::Config);
        }
        let mut root = Blob::new();
        if blob_insert(&mut root, "Version", int_value(2)).is_err() {
            return Err(ConversionError::Encode);
        }
        if blob_insert(&mut root, "DataVersion", int_value(data_version)).is_err() {
            return Err(ConversionError::Encode);
        }
        let mut metadata = empty_compound();
        metadata = compound_with(metadata, "Name", string_value(name));
        metadata = compound_with(metadata, "Author", string_value("threed2vox"));
        metadata = compound_with(metadata, "Date", long_value(timestamp));
        let no_mods: Vec<Value> = Vec::new();
        let required_mods = list_value(no_mods);
        proof {
            assert(tags_of(no_mods@) =~= Seq::<Tag>::empty());
        }
        metadata = compound_with(metadata, "RequiredMods", required_mods);
        if blob_insert(&mut root, "Metadata", metadata).is_err() {
            return Err(ConversionError::Encode);
        }
        if blob_insert(&mut root, "Width", short_value(x as i16)).is_err() {
            return Err(ConversionError::Encode);
        }
        if blob_insert(&mut root, "Height", short_value(y as i16)).is_err() {
            return Err(ConversionError::Encode);
        }
        if blob_insert(&mut root, "Length", short_value(z as i16)).is_err() {
            return Err(ConversionError::Encode);
        }
        if blob_insert(&mut root, "PaletteMax", int_value(2)).is_err() {
            return Err(ConversionError::Encode);
        }
        let mut palette = empty_compound();
        palette = compound_with(palette, "minecraft:air", int_value(0));
        palette = compound_with(palette, block, int_value(1));
        if blob_insert(&mut root, "Palette", palette).is_err() {
            return Err(ConversionError::Encode);
        }
        let ids = collect_block_ids(grid);
        let bytes = varint_from_intarray(ids);
        let block_data = byte_array_value(bytearray_from_varint(bytes));
        if blob_insert(&mut root, "BlockData", block_data).is_err() {
            return Err(ConversionError::Encode);
        }
        Ok(root)
    }
}

impl NBTIfy for SchematicV2 {
    open spec fn fields(&self, grid: &VoxelGrid, config: &Config, timestamp: i64) -> Map<
        Seq<char>,
        Tag,
    > {
        schematic_fields(
            grid@,
            grid.dims(),
            config.block@,
            config.data_version,
            config.filename@,
            timestamp,
        )
    }

    open spec fn extension(&self) -> Seq<char> {
        "schem"@
    }

    fn convert(&self, grid: &VoxelGrid, config: &Config) -> (outcome: Result<
        Blob,
        ConversionError,
    >) {
        let now: u64 = match seconds_since_epoch() {
            Some(seconds) => seconds,
            None => 0,
        };
        let timestamp: i64 = #[verifier::truncate]
        (now as i64);
        let outcome = Self::encode(
            grid,
            config.block.as_str(),
            config.data_version,
            config.filename.as_str(),
            timestamp,
        );
        proof {
            if outcome is Ok {
                assert(blob_content(outcome->Ok_0) == self.fields(grid, config, timestamp));
            }
        }
        outcome
    }

    fn file_ending(&self) -> (ending: &'static str) {
        "schem"
    }
}

/// Structure format, aka "NBT format" with extension .nbt: the sparse
/// block-list format.
pub struct StructureFormat;

impl StructureFormat {
    /// Builds the tree of the sparse format for `grid`.
    ///
    /// Fails with `ConversionError::Config` exactly when a dimension of the
    /// grid is negative.
    pub fn encode(grid: &VoxelGrid, block: &str, data_version: i32) -> (outcome: Result<
        Blob,
        ConversionError,
    >)
        ensures
            outcome is Ok <==> dims_valid(grid.dims()),
            outcome matches Err(e) ==> e == ConversionError::Config,
            outcome matches Ok(blob) ==> blob_title(blob) == Seq::<char>::empty() && blob_content(
                blob,
            ) == structure_fields(grid@, grid.dims(), block@, data_version),
    {
        let (x, y, z) = grid.dimensions();
        if x < 0 || y < 0 || z < 0 {
            return Err(ConversionError::Config);
        }
        let mut root = Blob::new();
        if blob_insert(&mut root, "DataVersion", int_value(data_version)).is_err() {
            return Err(ConversionError::Encode);
        }
        let extents: Vec<i32> = vec![x, y, z];
        proof {
            assert(extents@ =~= seq![x, y, z]);
        }
        let size = list_from_intvec(extents);
        if blob_insert(&mut root, "size", size).is_err() {
            return Err(ConversionError::Encode);
        }
        let mut entry = empty_compound();
        entry = compound_with(entry, "Name", string_value(block));
        entry = compound_with(entry, "Properties", empty_compound());
        let mut entries: Vec<Value> = Vec::new();
        entries.push(entry);
        proof {
            assert(tags_of(entries@) =~= seq![structure_palette_entry(block@)]);
        }
        if blob_insert(&mut root, "palette", list_value(entries)).is_err() {
            return Err(ConversionError::Encode);
        }
        let blocks = collect_block_entries(grid);
        if blob_insert(&mut root, "blocks", list_value(blocks)).is_err() {
            return Err(ConversionError::Encode);
        }
        Ok(root)
    }
}

impl NBTIfy for StructureFormat {
    open spec fn fields(&self, grid: &VoxelGrid, config: &Config, timestamp: i64) -> Map<
        Seq<char>,
        Tag,
    > {
        structure_fields(grid@, grid.dims(), config.block@, config.data_version)
    }

    open spec fn extension(&self) -> Seq<char> {
        "nbt"@
    }

    fn convert(&self, grid: &VoxelGrid, config: &Config) -> (outcome: Result<
        Blob,
        ConversionError,
    >) {
        let outcome = Self::encode(grid, config.block.as_str(), config.data_version);
        proof {
            if outcome is Ok {
                assert(blob_content(outcome->Ok_0) == self.fields(grid, config, 0));
            }
        }
        outcome
    }

    fn file_ending(&self) -> (ending: &'static str) {
        "nbt"
    }
}

} // verus!
