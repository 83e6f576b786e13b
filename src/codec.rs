use vstd::prelude::*;

use crate::raster::Image;
use crate::palette::{
    build_palette, color_id, colors_of, lemma_scan_valid, law_scan_fits_iff_at_most_four,
    overflows_at, scan, valid_palette, Palette,
};
use crate::pixel::{clear, Pixel};

verus! {

/// The largest width or height that the one-byte header fields can carry.
pub const MAX_SIDE: u32 = 255;

/// Why an image could not be encoded.
#[derive(Debug, PartialEq, Eq, Structural)]
pub enum EncodeError {
    /// The pixel at `(x, y)` is the first, in row-major order, whose color
    /// would be a fifth one.
    TooManyColors { x: u32, y: u32 },
    /// The width or the height does not fit in one byte.
    DimensionOverflow { width: u32, height: u32 },
}

/// The 2-bit value stored for pixel `i`; positions past the end hold 0.
pub open spec fn slot(ids: Seq<u8>, i: int) -> int {
    if 0 <= i < ids.len() {
        ids[i] as int % 4
    } else {
        0
    }
}

/// Output byte `j` of the pixel stream: pixels `4j` to `4j + 3`, the first in
/// the two lowest bits.
pub open spec fn packed_byte(ids: Seq<u8>, j: int) -> u8 {
    (slot(ids, 4 * j) + 4 * slot(ids, 4 * j + 1) + 16 * slot(ids, 4 * j + 2) + 64 * slot(
        ids,
        4 * j + 3,
    )) as u8
}

/// Four 2-bit identifiers per byte, the last byte zero-filled.
pub open spec fn pack(ids: Seq<u8>) -> Seq<u8> {
    Seq::new(((ids.len() + 3) / 4) as nat, |j: int| packed_byte(ids, j))
}

/// The 2-bit value at position `k` (0 to 3, lowest first) of a byte.
pub open spec fn digit(byte: u8, k: int) -> u8 {
    if k == 0 {
        (byte as int % 4) as u8
    } else if k == 1 {
        ((byte as int / 4) % 4) as u8
    } else if k == 2 {
        ((byte as int / 16) % 4) as u8
    } else {
        ((byte as int / 64) % 4) as u8
    }
}

/// Reads `n` identifiers back out of a packed stream.
pub open spec fn unpack(bytes: Seq<u8>, n: nat) -> Seq<u8> {
    Seq::new(n, |i: int| digit(bytes[i / 4], i % 4))
}

/// Channel `k` of a color: red, green, then blue.
pub open spec fn channel(c: Pixel, k: int) -> u8 {
    if k == 0 {
        c.r
    } else if k == 1 {
        c.g
    } else {
        c.b
    }
}

/// The red, green and blue bytes of each color after the transparent one,
/// in identifier order.
pub open spec fn rgb_table(p: Seq<Pixel>) -> Seq<u8> {
    Seq::new((3 * (p.len() - 1)) as nat, |j: int| channel(p[j / 3 + 1], j % 3))
}

/// The identifier of each pixel, in order.
pub open spec fn pixel_ids(p: Seq<Pixel>, s: Seq<Pixel>) -> Seq<u8> {
    Seq::new(s.len(), |i: int| color_id(p, s[i]) as u8)
}

/// The whole output: width, height, color table, packed pixel stream.
pub open spec fn encoded(width: u32, height: u32, p: Seq<Pixel>, s: Seq<Pixel>) -> Seq<u8> {
    seq![width as u8, height as u8] + rgb_table(p) + pack(pixel_ids(p, s))
}

proof fn lemma_pack_bits(a: u8, b: u8, c: u8, d: u8)
    by (bit_vector)
    requires
        a < 4,
        b < 4,
        c < 4,
        d < 4,
    ensures
        a | (b << 2u8) | (c << 4u8) | (d << 6u8) == (a + 4 * b + 16 * c + 64 * d) as u8,
        a + 4 * b + 16 * c + 64 * d < 256,
{
}

proof fn lemma_low_bits(v: u8)
    by (bit_vector)
    ensures
        v & 3 == v % 4,
{
}

proof fn lemma_digits(a: u8, b: u8, c: u8, d: u8)
    by (bit_vector)
    requires
        a < 4,
        b < 4,
        c < 4,
        d < 4,
    ensures
        ({
            let v = (a + 4 * b + 16 * c + 64 * d) as u8;
            &&& v % 4 == a
            &&& (v / 4) % 4 == b
            &&& (v / 16) % 4 == c
            &&& (v / 64) % 4 == d
        }),
{
}

/// Packs 2-bit identifiers four to a byte, the first in the lowest bits; only
/// the low two bits of each identifier are kept.
pub fn pack_ids(ids: &Vec<u8>) -> (out: Vec<u8>)
    ensures
        out@ == pack(ids@),
{
    let n = ids.len();
    let nbytes: usize = n / 4 + if n % 4 == 0 {
        0
    } else {
        1
    };
    let mut out: Vec<u8> = Vec::new();
    let mut j: usize = 0;
    while j < nbytes
        invariant
            n == ids@.len(),
            nbytes == (n + 3) / 4,
            j <= nbytes,
            out@.len() == j,
            forall|k: int| 0 <= k < j ==> out@[k] == packed_byte(ids@, k),
        decreases nbytes - j,
    {
        let base: usize = 4 * j;
        let s0: u8 = ids[base] & 3;
        let s1: u8 = if n - base > 1 {
            ids[base + 1] & 3
        } else {
            0
        };
        let s2: u8 = if n - base > 2 {
            ids[base + 2] & 3
        } else {
            0
        };
        let s3: u8 = if n - base > 3 {
            ids[base + 3] & 3
        } else {
            0
        };
        proof {
            lemma_low_bits(ids@[base as int]);
            if n - base > 1 {
                lemma_low_bits(ids@[base + 1]);
            }
            if n - base > 2 {
                lemma_low_bits(ids@[base + 2]);
            }
            if n - base > 3 {
                lemma_low_bits(ids@[base + 3]);
            }
            assert(s0 == slot(ids@, 4 * j));
            assert(s1 == slot(ids@, 4 * j + 1));
            assert(s2 == slot(ids@, 4 * j + 2));
            assert(s3 == slot(ids@, 4 * j + 3));
            lemma_pack_bits(s0, s1, s2, s3);
        }
        let byte: u8 = s0 | (s1 << 2u8) | (s2 << 4u8) | (s3 << 6u8);
        out.push(byte);
        j = j + 1;
    }
    assert(out@ =~= pack(ids@));
    out
}

/// Every identifier that a valid palette gives is below four.
proof fn lemma_id_small(p: Seq<Pixel>, c: Pixel)
    requires
        valid_palette(p),
    ensures
        color_id(p, c) < p.len() <= 4,
{
    if p.contains(c) {
        assert(p[p.index_of(c)] == c);
    }
}

/// The identifier of each pixel of the image, 0 for a color the palette lacks.
pub fn identify(img: &Image, palette: &Palette) -> (ids: Vec<u8>)
    requires
        palette.wf(),
    ensures
        ids@ == pixel_ids(palette@, img.pixels@),
{
    let n = img.pixels.len();
    let mut ids: Vec<u8> = Vec::new();
    for i in 0..n
        invariant
            n == img.pixels@.len(),
            palette.wf(),
            ids@.len() == i,
            forall|k: int| 0 <= k < i ==> ids@[k] == color_id(palette@, img.pixels@[k]) as u8,
    {
        let id: u8 = match palette.lookup(&img.pixels[i]) {
            Some(id) => id,
            None => 0,
        };
        ids.push(id);
    }
    assert(ids@ =~= pixel_ids(palette@, img.pixels@));
    ids
}

/// Writes width, height, the palette's colors after the transparent one, and
/// the packed identifiers of the pixels in row-major order.
pub fn encode(img: &Image, palette: &Palette) -> (r: Result<Vec<u8>, EncodeError>)
    requires
        img.wf(),
        palette.wf(),
    ensures
        r is Err <==> img.width > MAX_SIDE || img.height > MAX_SIDE,
        r matches Err(e) ==> e == (EncodeError::DimensionOverflow {
            width: img.width,
            height: img.height,
        }),
        r matches Ok(out) ==> out@ == encoded(img.width, img.height, palette@, img.pixels@),
        r matches Ok(out) ==> out@.len() == 2 + 3 * (palette@.len() - 1) + (img.width as int
            * img.height as int + 3) / 4,
{
    if img.width > MAX_SIDE || img.height > MAX_SIDE {
        return Err(EncodeError::DimensionOverflow { width: img.width, height: img.height });
    }
    let mut out: Vec<u8> = Vec::new();
    out.push(img.width as u8);
    out.push(img.height as u8);
    let ghost head = seq![img.width as u8, img.height as u8];
    let ghost table = rgb_table(palette@);
    let k = palette.len();
    let mut id: usize = 1;
    assert(out@ =~= head);
    while id < k
        invariant
            k == palette@.len(),
            palette.wf(),
            table == rgb_table(palette@),
            head == seq![img.width as u8, img.height as u8],
            1 <= id <= k,
            out@.len() == 2 + 3 * (id - 1),
            out@.subrange(0, 2) == head,
            forall|j: int| 0 <= j < 3 * (id - 1) ==> out@[2 + j] == table[j],
        decreases k - id,
    {
        let c = palette.color(id).unwrap();
        let ghost prev = out@;
        out.push(c.r);
        out.push(c.g);
        out.push(c.b);
        proof {
            assert forall|j: int| 0 <= j < 3 * id implies out@[2 + j] == table[j] by {
                assert(table.len() == 3 * (k - 1));
                if j >= 3 * (id - 1) {
                    assert(j / 3 + 1 == id);
                    assert(c == palette@[id as int]);
                    assert(j % 3 == j - 3 * (id - 1));
                } else {
                    assert(out@[2 + j] == prev[2 + j]);
                }
            }
            assert(out@.subrange(0, 2) =~= head);
        }
        id = id + 1;
    }
    assert(out@ =~= head + table);
    let ids = identify(img, palette);
    let mut stream = pack_ids(&ids);
    out.append(&mut stream);
    Ok(out)
}

/// Builds the palette, then encodes: a fifth color is reported whatever the
/// size, and a width or height over 255 is refused only once the palette fits.
pub fn convert(img: &Image) -> (r: Result<Vec<u8>, EncodeError>)
    requires
        img.wf(),
    ensures
        match scan(img.pixels@) {
            Some(p) => if img.width > MAX_SIDE || img.height > MAX_SIDE {
                r == Err::<Vec<u8>, EncodeError>(
                    EncodeError::DimensionOverflow { width: img.width, height: img.height },
                )
            } else {
                r matches Ok(out) && out@ == encoded(img.width, img.height, p, img.pixels@)
            },
            None => r matches Err(EncodeError::TooManyColors { x, y }) && x < img.width && y
                < img.height && overflows_at(img.pixels@, y as int * img.width as int + x as int),
        },
{
    match build_palette(img) {
        Ok(palette) => encode(img, &palette),
        Err(e) => Err(EncodeError::TooManyColors { x: e.x, y: e.y }),
    }
}

/// Reading the packed stream back gives the identifiers, when each is below four.
pub proof fn law_unpack_pack(ids: Seq<u8>)
    requires
        forall|i: int| 0 <= i < ids.len() ==> ids[i] < 4,
    ensures
        unpack(pack(ids), ids.len()) == ids,
{
    let packed = pack(ids);
    assert forall|i: int| 0 <= i < ids.len() implies #[trigger] unpack(packed, ids.len())[i]
        == ids[i] by {
        let j = i / 4;
        let a = slot(ids, 4 * j) as u8;
        let b = slot(ids, 4 * j + 1) as u8;
        let c = slot(ids, 4 * j + 2) as u8;
        let d = slot(ids, 4 * j + 3) as u8;
        lemma_digits(a, b, c, d);
        assert(packed[j] == (a + 4 * b + 16 * c + 64 * d) as u8);
        assert(i == 4 * j + i % 4);
    }
    assert(unpack(packed, ids.len()) =~= ids);
}

/// The pixel stream of an encoding, read back, gives each pixel's identifier
/// in the palette: the identifiers survive packing unchanged.
pub proof fn law_identifier_round_trip(width: u32, height: u32, p: Seq<Pixel>, s: Seq<Pixel>)
    requires
        valid_palette(p),
    ensures
        unpack(encoded(width, height, p, s).skip(2 + 3 * (p.len() - 1)), s.len()) == pixel_ids(
            p,
            s,
        ),
{
    let ids = pixel_ids(p, s);
    assert forall|i: int| 0 <= i < ids.len() implies ids[i] < 4 by {
        lemma_id_small(p, s[i]);
    }
    law_unpack_pack(ids);
    assert(encoded(width, height, p, s).skip(2 + 3 * (p.len() - 1)) =~= pack(ids));
}

/// Wherever a pixel is fully transparent, the identifier written for it is 0.
pub proof fn law_transparent_is_zero(s: Seq<Pixel>, i: int)
    requires
        scan(s) is Some,
        0 <= i < s.len(),
        s[i] == clear(),
    ensures
        pixel_ids(scan(s)->Some_0, s)[i] == 0,
{
    let p = scan(s)->Some_0;
    lemma_scan_valid(s);
    assert(p[0] == clear());
    assert(p.contains(clear()));
    assert(p.index_of(clear()) == 0);
}

/// An encoding takes `2 + 3k + ceil(width * height / 4)` bytes, where `k` is the
/// number of colors after the transparent one.
pub proof fn law_encoded_len(width: u32, height: u32, p: Seq<Pixel>, s: Seq<Pixel>)
    requires
        valid_palette(p),
        s.len() == width as int * height as int,
    ensures
        encoded(width, height, p, s).len() == 2 + 3 * (p.len() - 1) + (width as int
            * height as int + 3) / 4,
{
}

/// When the pixels and the transparent color have at most four colors, the
/// color table holds one RGB triple for each of them but the transparent one:
/// three triples when there are four.
pub proof fn law_table_size(s: Seq<Pixel>)
    requires
        colors_of(s).len() <= 4,
    ensures
        scan(s) matches Some(p) && rgb_table(p).len() == 3 * (colors_of(s).len() - 1),
        colors_of(s).len() == 4 ==> rgb_table(scan(s)->Some_0).len() == 9,
{
    law_scan_fits_iff_at_most_four(s);
    lemma_scan_valid(s);
}

} // verus!
