//! Moving image and buffer bytes between the program and mapped device
//! memory.

use vstd::prelude::*;

verus! {

/// Row `row` of an image occupies position `p` of memory in which rows
/// start `row_pitch` bytes apart and are `scanline` bytes long.
pub open spec fn row_covers(row: int, row_pitch: int, scanline: int, p: int) -> bool {
    row * row_pitch <= p < row * row_pitch + scanline
}

/// What position `p` of the memory holds once the first `rows` rows of
/// `bytes` are written: the byte of the last row that covers `p`, or what
/// was there before where no row covers it.
pub open spec fn written_byte(
    before: Seq<u8>,
    bytes: Seq<u8>,
    row_pitch: int,
    scanline: int,
    rows: nat,
    p: int,
) -> u8
    decreases rows,
{
    if rows == 0 {
        before[p]
    } else {
        let row = rows - 1;
        if row_covers(row, row_pitch, scanline, p) {
            bytes[row * scanline + (p - row * row_pitch)]
        } else {
            written_byte(before, bytes, row_pitch, scanline, row as nat, p)
        }
    }
}

/// The length in bytes of a row of `width` pixels of four bytes each.
pub open spec fn scanline_len(width: u32) -> int {
    width * 4
}

/// Where byte `c` of row `row` lies in memory whose rows start `row_pitch`
/// bytes apart.
pub open spec fn byte_position(row: int, row_pitch: int, c: int) -> int {
    row * row_pitch + c
}

/// Both the memory and the source hold all `height` rows.
pub open spec fn rows_fit(
    memory_len: int,
    bytes_len: int,
    row_pitch: int,
    scanline: int,
    height: int,
) -> bool {
    height > 0 ==> (height - 1) * row_pitch + scanline <= memory_len && height * scanline
        <= bytes_len
}

proof fn lemma_row_within(row: int, height: int, row_pitch: int, scanline: int)
    requires
        0 <= row < height,
        0 <= row_pitch,
        0 <= scanline,
    ensures
        0 <= row * row_pitch <= (height - 1) * row_pitch,
        0 <= row * scanline,
        row * scanline + scanline <= height * scanline,
{
    assert(0 <= row * row_pitch <= (height - 1) * row_pitch) by (nonlinear_arith)
        requires
            0 <= row < height,
            0 <= row_pitch,
    ;
    assert(0 <= row * scanline && row * scanline + scanline <= height * scanline)
        by (nonlinear_arith)
        requires
            0 <= row < height,
            0 <= scanline,
    ;
}

/// Where rows are at least as far apart as they are long, no row reaches
/// into the next, and byte `c` of row `r` of the source ends up `c` bytes
/// into row `r` of the memory.
pub proof fn lemma_written_rows_apart(
    before: Seq<u8>,
    bytes: Seq<u8>,
    row_pitch: int,
    scanline: int,
    rows: nat,
    r: int,
    c: int,
)
    requires
        0 <= scanline <= row_pitch,
        0 <= r < rows,
        0 <= c < scanline,
    ensures
        written_byte(before, bytes, row_pitch, scanline, rows, r * row_pitch + c) == bytes[r
            * scanline + c],
    decreases rows,
{
    let row = rows - 1;
    let p = r * row_pitch + c;
    if row != r {
        assert(p < row * row_pitch) by (nonlinear_arith)
            requires
                p == r * row_pitch + c,
                0 <= c < scanline,
                scanline <= row_pitch,
                0 <= r < row,
        ;
        lemma_written_rows_apart(before, bytes, row_pitch, scanline, row as nat, r, c);
    }
}

/// A position that no row covers keeps its byte.
pub proof fn lemma_written_outside_rows(
    before: Seq<u8>,
    bytes: Seq<u8>,
    row_pitch: int,
    scanline: int,
    rows: nat,
    p: int,
)
    requires
        forall|row: int| 0 <= row < rows ==> !row_covers(row, row_pitch, scanline, p),
    ensures
        written_byte(before, bytes, row_pitch, scanline, rows, p) == before[p],
    decreases rows,
{
    if rows > 0 {
        assert(!row_covers(rows - 1, row_pitch, scanline, p));
        lemma_written_outside_rows(before, bytes, row_pitch, scanline, (rows - 1) as nat, p);
    }
}

/// Writes the rows of a tightly packed image of four bytes a pixel into
/// memory whose rows start `row_pitch` bytes apart. Bytes between the rows
/// stay as they are.
pub fn write_bytes(memory: &mut Vec<u8>, bytes: &[u8], row_pitch: u32, width: u32, height: u32)
    requires
        rows_fit(
            old(memory)@.len() as int,
            bytes@.len() as int,
            row_pitch as int,
            scanline_len(width),
            height as int,
        ),
    ensures
        final(memory)@.len() == old(memory)@.len(),
        forall|p: int|
            0 <= p < old(memory)@.len() ==> #[trigger] final(memory)@[p] == written_byte(
                old(memory)@,
                bytes@,
                row_pitch as int,
                scanline_len(width),
                height as nat,
                p,
            ),
        row_pitch >= scanline_len(width) ==> forall|r: int, c: int|
            0 <= r < height && 0 <= c < scanline_len(width) ==> final(memory)@[#[trigger] byte_position(
                r,
                row_pitch as int,
                c,
            )] == bytes@[r * scanline_len(width) + c],
        forall|p: int|
            0 <= p < old(memory)@.len() && (forall|r: int|
                0 <= r < height ==> !#[trigger] row_covers(
                    r,
                    row_pitch as int,
                    scanline_len(width),
                    p,
                )) ==> #[trigger] final(memory)@[p] == old(memory)@[p],
{
    let ghost before = memory@;
    let memory_len: usize = memory.len();
    let bytes_len: usize = bytes.len();
    let ghost pitch = row_pitch as int;
    let ghost scanline = scanline_len(width);
    let mut row: u32 = 0;
    while row < height
        invariant
            row <= height,
            pitch == row_pitch as int,
            scanline == scanline_len(width),
            memory@.len() == before.len(),
            before.len() == memory_len,
            bytes@.len() == bytes_len,
            rows_fit(before.len() as int, bytes@.len() as int, pitch, scanline, height as int),
            forall|p: int|
                0 <= p < before.len() ==> #[trigger] memory@[p] == written_byte(
                    before,
                    bytes@,
                    pitch,
                    scanline,
                    row as nat,
                    p,
                ),
        decreases height - row,
    {
        proof {
            lemma_row_within(row as int, height as int, pitch, scanline);
            assert(row * pitch + scanline <= before.len());
            assert(row * scanline + scanline <= bytes@.len());
        }
        let scanline_width: usize = width as usize * 4;
        let x: usize = row as usize * row_pitch as usize;
        let y: usize = row as usize * scanline_width;
        let ghost at_row = memory@;
        let mut c: usize = 0;
        while c < scanline_width
            invariant
                c <= scanline_width,
                scanline_width == scanline,
                x == row * pitch,
                y == row * scanline,
                x + scanline_width <= before.len(),
                before.len() == memory_len,
                bytes@.len() == bytes_len,
                y + scanline_width <= bytes@.len(),
                memory@.len() == before.len(),
                at_row.len() == before.len(),
                forall|p: int|
                    0 <= p < before.len() ==> #[trigger] memory@[p] == if x <= p < x + c {
                        bytes@[y + (p - x)]
                    } else {
                        at_row[p]
                    },
            decreases scanline_width - c,
        {
            memory[x + c] = bytes[y + c];
            c += 1;
        }
        row += 1;
    }
    proof {
        if row_pitch >= scanline {
            assert forall|r: int, c: int| 0 <= r < height && 0 <= c < scanline implies memory@[
                #[trigger] byte_position(r, pitch, c)
            ] == bytes@[r * scanline + c] by {
                lemma_row_within(r, height as int, pitch, scanline);
                lemma_written_rows_apart(before, bytes@, pitch, scanline, height as nat, r, c);
            }
        }
        assert forall|p: int|
            0 <= p < before.len() && (forall|r: int|
                0 <= r < height ==> !#[trigger] row_covers(
                    r,
                    pitch,
                    scanline,
                    p,
                )) implies #[trigger] memory@[p] == before[p] by {
            lemma_written_outside_rows(before, bytes@, pitch, scanline, height as nat, p);
        }
    }
}

/// Row `row` of an image of four bytes a pixel, as it lies in memory whose
/// rows start `row_pitch` bytes apart.
pub fn image_row(memory: &[u8], row_pitch: u32, width: u32, row: u32) -> (pixels: &[u8])
    requires
        row * row_pitch + width * 4 <= memory@.len(),
    ensures
        pixels@ == memory@.subrange(row * row_pitch, row * row_pitch + width * 4),
{
    let memory_len: usize = memory.len();
    proof {
        assert(0 <= row * row_pitch) by (nonlinear_arith)
            requires
                0 <= row,
                0 <= row_pitch,
        ;
    }
    let x: usize = row as usize * row_pitch as usize;
    let scanline_width: usize = width as usize * 4;
    vstd::slice::slice_subrange(memory, x, x + scanline_width)
}

/// The bytes `start..start + count` of `bytes` as one number, the first
/// byte counted once and each later byte twice as much as the one before.
pub open spec fn packed_prefix(bytes: Seq<u8>, start: int, count: int) -> int {
    (if count > 0 {
        bytes[start] as int
    } else {
        0
    }) + (if count > 1 {
        2 * bytes[start + 1]
    } else {
        0
    }) + (if count > 2 {
        4 * bytes[start + 2]
    } else {
        0
    }) + (if count > 3 {
        8 * bytes[start + 3]
    } else {
        0
    })
}

/// The `k`-th group of four bytes of `bytes` as one number.
pub open spec fn packed_word(bytes: Seq<u8>, k: int) -> int {
    packed_prefix(bytes, 4 * k, 4)
}

/// Reads a buffer as numbers, one for each full group of four bytes; bytes
/// left over at the end are dropped.
pub fn read_buffer_to_cpu(bytes: &[u8]) -> (words: Vec<u32>)
    ensures
        words@.len() == bytes@.len() / 4,
        forall|k: int| 0 <= k < words@.len() ==> #[trigger] words@[k] == packed_word(bytes@, k),
{
    let mut acc: Vec<u32> = Vec::new();
    let mut working_value: u32 = 0;
    let mut i: usize = 0;
    while i < bytes.len()
        invariant
            i <= bytes@.len(),
            acc@.len() == i / 4,
            forall|k: int| 0 <= k < acc@.len() ==> #[trigger] acc@[k] == packed_word(bytes@, k),
            working_value == packed_prefix(bytes@, 4 * (i / 4), (i % 4) as int),
        decreases bytes@.len() - i,
    {
        let imod4: u32 = (i % 4) as u32;
        let component: u32 = bytes[i] as u32;
        let weight: u32 = 1u32 << imod4;
        assert(weight == if imod4 == 0 {
            1u32
        } else if imod4 == 1 {
            2u32
        } else if imod4 == 2 {
            4u32
        } else {
            8u32
        }) by (bit_vector)
            requires
                imod4 < 4,
                weight == 1u32 << imod4,
        ;
        let value: u32 = component * weight;
        working_value += value;
        if imod4 == 3 {
            acc.push(working_value);
            working_value = 0;
        }
        i += 1;
    }
    acc
}

} // verus!
