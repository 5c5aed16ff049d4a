//! Decoding of the PCX images that hold terrain height maps: a fixed 128 byte
//! header followed by run-length encoded 8-bit pixels.
use byteorder::{ByteOrder, LittleEndian};
use vstd::prelude::*;

verus! {

/// Size in bytes of a PCX header.
pub const PCX_HEADER_SIZE: usize = 128;

/// Why a height map could not be decoded.
#[derive(Debug, PartialEq, Eq, Clone, Copy)]
pub enum PcxError {
    /// The bytes ended before the header or the pixel data was complete.
    UnexpectedEof,
    /// The header does not start with the PCX manufacturer byte `0x0A` and version `5`.
    InvalidHeader,
    /// `y_max - y_min + 1` does not fit the header's 16-bit arithmetic.
    InvalidDimensions,
    /// The last run of pixels reaches past the end of the image.
    RunOverrun,
}

/// The fixed size header at the start of a PCX file.
pub struct PcxHeader {
    /// Always `0x0A`.
    pub manufacturer: u8,
    /// `5` for version 3.0 and later.
    pub version: u8,
    /// `1` for run-length encoding.
    pub encoding: u8,
    /// Bits per pixel in each color plane.
    pub bits_per_plane: u8,
    pub x_min: u16,
    pub y_min: u16,
    pub x_max: u16,
    pub y_max: u16,
    pub horizontal_dpi: u16,
    pub vertical_dpi: u16,
    /// 16 color palette in three-byte RGB entries (48 bytes).
    pub palette: Vec<u8>,
    pub reserved: u8,
    /// Number of color planes.
    pub color_planes: u8,
    /// Number of bytes of a single plane's scan line.
    pub bytes_per_plane_line: u16,
    pub palette_info: u16,
    pub horizontal_screen_size: u16,
    pub vertical_screen_size: u16,
    /// Trailing filler (54 bytes).
    pub padding: Vec<u8>,
}

/// A decoded height map: `width * height` values in row order.
pub struct Data {
    pub width: u32,
    pub height: u32,
    pub data: Vec<u32>,
}

/// The little-endian 16-bit value at `pos`.
pub open spec fn le16(b: Seq<u8>, pos: int) -> int {
    b[pos] + 256 * b[pos + 1]
}

/// `h` holds the header fields stored in the first 128 bytes of `b`.
pub open spec fn header_of(h: PcxHeader, b: Seq<u8>) -> bool {
    &&& h.manufacturer == b[0]
    &&& h.version == b[1]
    &&& h.encoding == b[2]
    &&& h.bits_per_plane == b[3]
    &&& h.x_min == le16(b, 4)
    &&& h.y_min == le16(b, 6)
    &&& h.x_max == le16(b, 8)
    &&& h.y_max == le16(b, 10)
    &&& h.horizontal_dpi == le16(b, 12)
    &&& h.vertical_dpi == le16(b, 14)
    &&& h.palette@ == b.subrange(16, 64)
    &&& h.reserved == b[64]
    &&& h.color_planes == b[65]
    &&& h.bytes_per_plane_line == le16(b, 66)
    &&& h.palette_info == le16(b, 68)
    &&& h.horizontal_screen_size == le16(b, 70)
    &&& h.vertical_screen_size == le16(b, 72)
    &&& h.padding@ == b.subrange(74, 128)
}

/// The header names a PCX version 3.0 (or later) file.
pub open spec fn header_supported(b: Seq<u8>) -> bool {
    b[0] == 0x0A && b[1] == 0x05
}

/// The row count `y_max - y_min + 1` can be computed in 16 bits.
pub open spec fn dimensions_valid(b: Seq<u8>) -> bool {
    le16(b, 6) <= le16(b, 10) && le16(b, 10) - le16(b, 6) + 1 <= 0xFFFF
}

/// Image width: the bytes of one scan line.
pub open spec fn spec_width(b: Seq<u8>) -> int {
    le16(b, 66)
}

/// Image height: `y_max - y_min + 1`.
pub open spec fn spec_height(b: Seq<u8>) -> int {
    le16(b, 10) - le16(b, 6) + 1
}

/// The value stored for one pixel byte: the inverted byte in the low 8 bits
/// under the marker bits `0x1FF00`.
pub open spec fn height_value(b: u8) -> u32 {
    0x1FF00u32 | ((255 - b) as u32)
}

/// A byte whose two high bits are set starts a run.
pub open spec fn is_run_byte(b: u8) -> bool {
    b & 0xC0 == 0xC0
}

/// Decode pixels from `pos` on, appending to `out`, until at least `area` values
/// exist; `None` when the bytes end first.
pub open spec fn rle(b: Seq<u8>, pos: int, out: Seq<u32>, area: int) -> Option<Seq<u32>>
    decreases b.len() - pos,
{
    if out.len() >= area {
        Some(out)
    } else if pos < 0 || pos >= b.len() {
        None
    } else if !is_run_byte(b[pos]) {
        rle(b, pos + 1, out.push(height_value(b[pos])), area)
    } else if pos + 1 >= b.len() {
        None
    } else {
        rle(
            b,
            pos + 2,
            out + Seq::new((b[pos] & 0x3F) as nat, |k: int| height_value(b[pos + 1])),
            area,
        )
    }
}

/// What decoding `b` gives: the width, height and values, or the error.
pub open spec fn spec_load(b: Seq<u8>) -> Result<(int, int, Seq<u32>), PcxError> {
    if b.len() < PCX_HEADER_SIZE {
        Err(PcxError::UnexpectedEof)
    } else if !header_supported(b) {
        Err(PcxError::InvalidHeader)
    } else if !dimensions_valid(b) {
        Err(PcxError::InvalidDimensions)
    } else {
        let area = spec_width(b) * spec_height(b);
        match rle(b, PCX_HEADER_SIZE as int, seq![], area) {
            None => Err(PcxError::UnexpectedEof),
            Some(out) => if out.len() == area {
                Ok((spec_width(b), spec_height(b), out))
            } else {
                Err(PcxError::RunOverrun)
            },
        }
    }
}

/// Reads the little-endian `u16` at `pos` with `byteorder::LittleEndian::read_u16`,
/// which is trusted to combine the first two bytes of the slice it is given as
/// `low + 256 * high`.
#[verifier::external_body]
fn read_u16_le(bytes: &[u8], pos: usize) -> (r: u16)
    requires
        pos + 2 <= bytes@.len(),
    ensures
        r == le16(bytes@, pos as int),
{
    LittleEndian::read_u16(&bytes[pos..])
}

/// Copy `bytes[start..end]` into a new vector.
fn copy_range(bytes: &[u8], start: usize, end: usize) -> (r: Vec<u8>)
    requires
        start <= end <= bytes@.len(),
    ensures
        r@ == bytes@.subrange(start as int, end as int),
{
    let mut r: Vec<u8> = Vec::new();
    let mut i = start;
    while i < end
        invariant
            start <= i <= end <= bytes@.len(),
            r@ == bytes@.subrange(start as int, i as int),
        decreases end - i,
    {
        r.push(bytes[i]);
        i += 1;
    }
    r
}

/// Read the 128 byte header at the start of `bytes`.
pub fn read_pcx_header(bytes: &[u8]) -> (r: Result<PcxHeader, PcxError>)
    ensures
        bytes@.len() < PCX_HEADER_SIZE ==> r == Err::<PcxHeader, PcxError>(PcxError::UnexpectedEof),
        bytes@.len() >= PCX_HEADER_SIZE ==> (r matches Ok(h) && header_of(h, bytes@)),
{
    if bytes.len() < PCX_HEADER_SIZE {
        return Err(PcxError::UnexpectedEof);
    }
    Ok(PcxHeader {
        manufacturer: bytes[0],
        version: bytes[1],
        encoding: bytes[2],
        bits_per_plane: bytes[3],
        x_min: read_u16_le(bytes, 4),
        y_min: read_u16_le(bytes, 6),
        x_max: read_u16_le(bytes, 8),
        y_max: read_u16_le(bytes, 10),
        horizontal_dpi: read_u16_le(bytes, 12),
        vertical_dpi: read_u16_le(bytes, 14),
        palette: copy_range(bytes, 16, 64),
        reserved: bytes[64],
        color_planes: bytes[65],
        bytes_per_plane_line: read_u16_le(bytes, 66),
        palette_info: read_u16_le(bytes, 68),
        horizontal_screen_size: read_u16_le(bytes, 70),
        vertical_screen_size: read_u16_le(bytes, 72),
        padding: copy_range(bytes, 74, 128),
    })
}

/// The value stored for the pixel byte `b`.
fn pixel_value(b: u8) -> (r: u32)
    ensures
        r == height_value(b),
{
    let inverted: u8 = 0xFF - b;
    0x1FF00u32 | (inverted as u32)
}

/// Decode a PCX height map from the bytes of the whole file. Bytes that end
/// early give `UnexpectedEof`. A header that is not PCX 3.0 or later, a row
/// count that does not fit 16 bits, or a last run that reaches past the image
/// are malformed files on which a height-map reader would stop with a panic
/// (the engine does: it panics on these three errors); here they are the
/// errors `InvalidHeader`, `InvalidDimensions` and `RunOverrun`, so every input
/// has an answer that this contract states.
pub fn load_height_map(bytes: &[u8]) -> (r: Result<Data, PcxError>)
    ensures
        match (r, spec_load(bytes@)) {
            (Ok(d), Ok((w, h, values))) => d.width == w && d.height == h && d.data@ == values,
            (Err(e), Err(se)) => e == se,
            _ => false,
        },
{
    let header = match read_pcx_header(bytes) {
        Ok(h) => h,
        Err(e) => return Err(e),
    };
    if header.manufacturer != 0x0A || header.version != 0x05 {
        return Err(PcxError::InvalidHeader);
    }
    if header.y_max < header.y_min || header.y_max - header.y_min == 0xFFFF {
        return Err(PcxError::InvalidDimensions);
    }
    let width: u32 = header.bytes_per_plane_line as u32;
    let height: u32 = (header.y_max - header.y_min + 1) as u32;
    assert(width * height <= 0xFFFF * 0xFFFF) by (nonlinear_arith)
        requires
            width <= 0xFFFF,
            height <= 0xFFFF,
    ;
    let area: u64 = width as u64 * height as u64;
    let ghost b = bytes@;
    let ghost goal = rle(b, PCX_HEADER_SIZE as int, seq![], area as int);
    assert(header_supported(b) && dimensions_valid(b));
    assert(width == spec_width(b) && height == spec_height(b));
    assert(goal is None ==> spec_load(b) == Err::<(int, int, Seq<u32>), PcxError>(
        PcxError::UnexpectedEof,
    ));

    let mut data: Vec<u32> = Vec::new();
    let mut pos: usize = PCX_HEADER_SIZE;
    while (data.len() as u64) < area
        invariant
            b == bytes@,
            PCX_HEADER_SIZE <= pos <= b.len(),
            area <= 0xFFFF * 0xFFFF,
            data.len() <= area + 63,
            rle(b, pos as int, data@, area as int) == goal,
            goal is None ==> spec_load(b) == Err::<(int, int, Seq<u32>), PcxError>(
                PcxError::UnexpectedEof,
            ),
        decreases b.len() - pos,
    {
        if pos >= bytes.len() {
            return Err(PcxError::UnexpectedEof);
        }
        let byte = bytes[pos];
        if byte & 0xC0 != 0xC0 {
            data.push(pixel_value(byte));
            pos += 1;
        } else {
            if pos + 1 >= bytes.len() {
                return Err(PcxError::UnexpectedEof);
            }
            let count: u8 = byte & 0x3F;
            assert(byte & 0x3F <= 63) by (bit_vector);
            let value = pixel_value(bytes[pos + 1]);
            let ghost before = data@;
            let mut k: u8 = 0;
            while k < count
                invariant
                    k <= count <= 63,
                    data@ == before + Seq::new(k as nat, |j: int| value),
                decreases count - k,
            {
                data.push(value);
                k += 1;
                assert(data@ =~= before + Seq::new(k as nat, |j: int| value));
            }
            assert(data@ =~= before + Seq::new(count as nat, |j: int| height_value(b[pos + 1])));
            pos += 2;
        }
    }
    if data.len() as u64 != area {
        return Err(PcxError::RunOverrun);
    }
    Ok(Data { width, height, data })
}


/// Every pixel value keeps the marker bits `0x1FF00` and stores the inverted pixel
/// byte in its low 8 bits, which is the elevation that a height map reads back.
pub proof fn lemma_height_value_bits(b: u8)
    ensures
        height_value(b) & 0xFFu32 == 255 - b,
        height_value(b) & 0xFFFF_FF00u32 == 0x1FF00u32,
{
    let v: u8 = (255 - b) as u8;
    assert(v as u32 == (255 - b) as u32);
    assert((0x1FF00u32 | (v as u32)) & 0xFFu32 == v as u32) by (bit_vector);
    assert((0x1FF00u32 | (v as u32)) & 0xFFFF_FF00u32 == 0x1FF00u32) by (bit_vector);
}

/// Every value the decoder appends is the value of some pixel byte.
proof fn lemma_rle_values(b: Seq<u8>, pos: int, out: Seq<u32>, area: int)
    requires
        forall|i: int| 0 <= i < out.len() ==> exists|x: u8| #[trigger] out[i] == height_value(x),
    ensures
        rle(b, pos, out, area) matches Some(r) ==> forall|i: int|
            0 <= i < r.len() ==> exists|x: u8| #[trigger] r[i] == height_value(x),
    decreases b.len() - pos,
{
    if out.len() >= area {
    } else if pos < 0 || pos >= b.len() {
    } else if !is_run_byte(b[pos]) {
        let next = out.push(height_value(b[pos]));
        assert forall|i: int| 0 <= i < next.len() implies exists|x: u8| #[trigger] next[i]
            == height_value(x) by {
            if i == out.len() {
                assert(next[i] == height_value(b[pos]));
            } else {
                assert(next[i] == out[i]);
            }
        }
        lemma_rle_values(b, pos + 1, next, area);
    } else if pos + 1 >= b.len() {
    } else {
        let next = out + Seq::new((b[pos] & 0x3F) as nat, |k: int| height_value(b[pos + 1]));
        assert forall|i: int| 0 <= i < next.len() implies exists|x: u8| #[trigger] next[i]
            == height_value(x) by {
            if i >= out.len() {
                assert(next[i] == height_value(b[pos + 1]));
            } else {
                assert(next[i] == out[i]);
            }
        }
        lemma_rle_values(b, pos + 2, next, area);
    }
}

/// A decoded height map holds exactly `width * height` values, each the value of a
/// pixel byte: the low 8 bits hold the inverted byte and the bits above hold `0x1FF`.
pub proof fn lemma_decoded_height_map(b: Seq<u8>)
    ensures
        spec_load(b) matches Ok((w, h, values)) ==> {
            &&& values.len() == w * h
            &&& 0 <= w <= 0xFFFF
            &&& 1 <= h <= 0xFFFF
            &&& forall|i: int|
                0 <= i < values.len() ==> exists|x: u8| {
                    &&& #[trigger] values[i] == height_value(x)
                    &&& values[i] & 0xFFu32 == 255 - x
                    &&& values[i] & 0xFFFF_FF00u32 == 0x1FF00u32
                }
        },
{
    if b.len() >= PCX_HEADER_SIZE && header_supported(b) && dimensions_valid(b) {
        let area = spec_width(b) * spec_height(b);
        lemma_rle_values(b, PCX_HEADER_SIZE as int, seq![], area);
        if let Ok((w, h, values)) = spec_load(b) {
            assert forall|i: int| 0 <= i < values.len() implies exists|x: u8| {
                &&& #[trigger] values[i] == height_value(x)
                &&& values[i] & 0xFFu32 == 255 - x
                &&& values[i] & 0xFFFF_FF00u32 == 0x1FF00u32
            } by {
                let x = choose|x: u8| values[i] == height_value(x);
                lemma_height_value_bits(x);
            }
        }
    }
}

/// A run byte `0xC0 | n` repeats the following pixel byte `n` times, for every
/// run length `0 <= n <= 63`: a file whose image has `n` pixels and whose pixel
/// data starts with `[0xC0 | n, v]` decodes to `n` copies of the value of `v`.
pub proof fn lemma_run_length_is_low_six_bits(b: Seq<u8>, n: u8, v: u8)
    requires
        b.len() >= PCX_HEADER_SIZE + 2,
        header_supported(b),
        dimensions_valid(b),
        n <= 63,
        spec_width(b) * spec_height(b) == n,
        b[PCX_HEADER_SIZE as int] == 0xC0u8 | n,
        b[PCX_HEADER_SIZE + 1] == v,
    ensures
        spec_load(b) == Ok::<(int, int, Seq<u32>), PcxError>(
            (spec_width(b), spec_height(b), Seq::new(n as nat, |k: int| height_value(v))),
        ),
{
    let r = (0xC0u8 | n);
    assert(r & 0xC0 == 0xC0 && r & 0x3F == n) by (bit_vector)
        requires
            r == 0xC0u8 | n,
            n <= 63,
    ;
    let area = spec_width(b) * spec_height(b);
    let pos = PCX_HEADER_SIZE as int;
    if n == 0 {
        assert(Seq::new(0nat, |k: int| height_value(v)) =~= Seq::<u32>::empty());
        assert(rle(b, pos, seq![], area) == Some(Seq::<u32>::empty()));
    } else {
        let run = Seq::new(n as nat, |k: int| height_value(v));
        assert(seq![] + Seq::new((b[pos] & 0x3F) as nat, |k: int| height_value(b[pos + 1])) =~= run);
        assert(rle(b, pos + 2, run, area) == Some(run));
        assert(rle(b, pos, seq![], area) == rle(b, pos + 2, run, area));
    }
}

/// A run that repeats past the end of the image is refused: a file whose image
/// has `a` pixels, `0 < a < n`, and whose pixel data starts with `[0xC0 | n, v]`
/// gives `RunOverrun`.
pub proof fn lemma_run_past_image(b: Seq<u8>, n: u8)
    requires
        b.len() >= PCX_HEADER_SIZE + 2,
        header_supported(b),
        dimensions_valid(b),
        n <= 63,
        0 < spec_width(b) * spec_height(b) < n,
        b[PCX_HEADER_SIZE as int] == 0xC0u8 | n,
    ensures
        spec_load(b) == Err::<(int, int, Seq<u32>), PcxError>(PcxError::RunOverrun),
{
    let r = (0xC0u8 | n);
    assert(r & 0xC0 == 0xC0 && r & 0x3F == n) by (bit_vector)
        requires
            r == 0xC0u8 | n,
            n <= 63,
    ;
    let area = spec_width(b) * spec_height(b);
    let pos = PCX_HEADER_SIZE as int;
    let run = Seq::new(n as nat, |k: int| height_value(b[pos + 1]));
    assert(seq![] + Seq::new((b[pos] & 0x3F) as nat, |k: int| height_value(b[pos + 1])) =~= run);
    assert(rle(b, pos + 2, run, area) == Some(run));
    assert(rle(b, pos, seq![], area) == rle(b, pos + 2, run, area));
}

proof fn lemma_literal_run(b: Seq<u8>, j: int, n: int)
    requires
        0 <= j <= n,
        b.len() >= PCX_HEADER_SIZE + n,
        forall|i: int| 0 <= i < n ==> #[trigger] b[PCX_HEADER_SIZE + i] < 0xC0,
    ensures
        rle(b, PCX_HEADER_SIZE + j, Seq::new(j as nat, |i: int| height_value(b[PCX_HEADER_SIZE + i])), n)
            == Some(Seq::new(n as nat, |i: int| height_value(b[PCX_HEADER_SIZE + i]))),
    decreases n - j,
{
    let f = |i: int| height_value(b[PCX_HEADER_SIZE + i]);
    if j < n {
        let x = b[PCX_HEADER_SIZE + j];
        assert(x < 0xC0);
        assert(x & 0xC0 != 0xC0) by (bit_vector)
            requires
                x < 0xC0,
        ;
        assert(Seq::new(j as nat, f).push(height_value(x)) =~= Seq::new((j + 1) as nat, f));
        lemma_literal_run(b, j + 1, n);
    } else {
        assert(Seq::new(j as nat, f) =~= Seq::new(n as nat, f));
    }
}

/// Pixel bytes below `0xC0` stand for one pixel each: a file whose image has
/// `n` pixels and whose pixel data starts with `n` such bytes decodes to their
/// values, in order.
pub proof fn lemma_literal_pixels(b: Seq<u8>)
    requires
        b.len() >= PCX_HEADER_SIZE,
        header_supported(b),
        dimensions_valid(b),
        b.len() >= PCX_HEADER_SIZE + spec_width(b) * spec_height(b),
        forall|i: int| 0 <= i < spec_width(b) * spec_height(b) ==> #[trigger] b[PCX_HEADER_SIZE + i] < 0xC0,
    ensures
        spec_load(b) == Ok::<(int, int, Seq<u32>), PcxError>(
            (
                spec_width(b),
                spec_height(b),
                Seq::new((spec_width(b) * spec_height(b)) as nat, |i: int| height_value(b[PCX_HEADER_SIZE + i])),
            ),
        ),
{
    let w = spec_width(b);
    let h = spec_height(b);
    assert(w >= 0 && h >= 1);
    assert(w * h >= 0) by (nonlinear_arith)
        requires
            w >= 0,
            h >= 1,
    ;
    let n = w * h;
    lemma_literal_run(b, 0, n);
    assert(Seq::new(0nat, |i: int| height_value(b[PCX_HEADER_SIZE + i])) =~= Seq::<u32>::empty());
}

} // verus!
