//! Texture banks: a list of 16-byte texture records, and the decoding of the
//! 4-bit-per-channel pixel data they point to into RGBA bytes.
use vstd::prelude::*;

use crate::decode::{le_u16, le_u32, read_u16, read_u32};

verus! {

/// Length of one texture record.
pub const TEXTURE_RECORD_LEN: usize = 16;

/// Errors met while decoding pixel data.
#[derive(Debug, Clone, Copy, PartialEq, Eq, Structural)]
pub enum TextureError {
    /// The pixel data that starts at the given position (first field) takes
    /// more bytes (second) than a source of the given length (third) holds.
    TruncatedPixelData(usize, u64, usize),
}

/// One texture record of a bank.
#[derive(Debug, Clone, Copy, PartialEq, Eq, Structural)]
pub struct TextureInfo {
    pub width: u16,
    pub height: u16,
    pub pixel_format: u8,
    pub _unk0: u8,
    pub _unk1: u16,
    /// Position of the pixel data in the bank's raw data.
    pub offset: u32,
    pub texture_id: u16,
    pub _unk4: u16,
}

/// The texture record stored at position `at`.
pub open spec fn texture_at(s: Seq<u8>, at: int) -> TextureInfo {
    TextureInfo {
        width: le_u16(s, at) as u16,
        height: le_u16(s, at + 2) as u16,
        pixel_format: s[at + 4],
        _unk0: s[at + 5],
        _unk1: le_u16(s, at + 6) as u16,
        offset: le_u32(s, at + 8) as u32,
        texture_id: le_u16(s, at + 12) as u16,
        _unk4: le_u16(s, at + 14) as u16,
    }
}

/// A 4-bit channel value spread over 8 bits: 0 stays 0, 15 becomes 255.
pub open spec fn scaled(nibble: u8) -> int {
    nibble * 17
}

/// The RGBA bytes of one pixel stored as two bytes: green and blue in the
/// high and low halves of the first, alpha and red in those of the second.
pub open spec fn pixel_rgba(b0: u8, b1: u8) -> Seq<u8> {
    seq![
        scaled(b1 % 16) as u8,
        scaled(b0 / 16) as u8,
        scaled(b0 % 16) as u8,
        scaled(b1 / 16) as u8,
    ]
}

/// The RGBA bytes of the first `n` pixels stored from position `at`.
pub open spec fn decoded_pixels(s: Seq<u8>, at: int, n: nat) -> Seq<u8>
    decreases n,
{
    if n == 0 {
        Seq::empty()
    } else {
        decoded_pixels(s, at, (n - 1) as nat) + pixel_rgba(
            s[at + 2 * (n - 1)],
            s[at + 2 * (n - 1) + 1],
        )
    }
}

/// Each pixel gives four bytes.
pub proof fn lemma_decoded_pixels_len(s: Seq<u8>, at: int, n: nat)
    ensures
        decoded_pixels(s, at, n).len() == 4 * n,
    decreases n,
{
    if n > 0 {
        lemma_decoded_pixels_len(s, at, (n - 1) as nat);
    }
}

/// Spreads a 4-bit value over 8 bits.
pub fn scale_4bit_to_8bit(nibble: u8) -> (r: u8)
    requires
        nibble < 16,
    ensures
        r == scaled(nibble),
{
    nibble * 17
}

/// Splits the byte at `at` into its two halves, each spread over 8 bits:
/// the high half first.
pub fn read_44_pixel(s: &[u8], at: usize) -> (r: Option<(u8, u8)>)
    ensures
        r is Some <==> at < s@.len(),
        r matches Some(p) ==> p.0 == scaled(s@[at as int] / 16) && p.1 == scaled(
            s@[at as int] % 16,
        ),
{
    if at >= s.len() {
        return None;
    }
    let byte = s[at];
    let high_bits = (byte >> 4u8) & 0b1111u8;
    let low_bits = byte & 0b1111u8;
    assert(high_bits == byte / 16) by (bit_vector)
        requires
            high_bits == (byte >> 4u8) & 0b1111u8,
    ;
    assert(low_bits == byte % 16) by (bit_vector)
        requires
            low_bits == byte & 0b1111u8,
    ;
    Some((scale_4bit_to_8bit(high_bits), scale_4bit_to_8bit(low_bits)))
}

impl TextureInfo {
    /// Decodes the texture record at position `at`.
    pub fn from_reader(s: &[u8], at: usize) -> (r: Option<TextureInfo>)
        ensures
            r is Some <==> at + TEXTURE_RECORD_LEN <= s@.len(),
            r matches Some(t) ==> t == texture_at(s@, at as int),
    {
        if at > s.len() || s.len() - at < TEXTURE_RECORD_LEN {
            return None;
        }
        Some(
            TextureInfo {
                width: read_u16(s, at).unwrap(),
                height: read_u16(s, at + 2).unwrap(),
                pixel_format: s[at + 4],
                _unk0: s[at + 5],
                _unk1: read_u16(s, at + 6).unwrap(),
                offset: read_u32(s, at + 8).unwrap(),
                texture_id: read_u16(s, at + 12).unwrap(),
                _unk4: read_u16(s, at + 14).unwrap(),
            },
        )
    }

    /// Decodes every whole record of `s`; a trailing partial record is ignored.
    pub fn all_from_reader(s: &[u8]) -> (r: Vec<TextureInfo>)
        ensures
            r@.len() == s@.len() as int / TEXTURE_RECORD_LEN as int,
            forall|i: int|
                0 <= i < r@.len() ==> #[trigger] r@[i] == texture_at(
                    s@,
                    TEXTURE_RECORD_LEN * i,
                ),
    {
        let count = s.len() / TEXTURE_RECORD_LEN;
        let slen = s.len();
        assert(TEXTURE_RECORD_LEN * count <= s@.len());
        let mut headers: Vec<TextureInfo> = Vec::new();
        let mut i: usize = 0;
        while i < count
            invariant
                count == s@.len() as int / TEXTURE_RECORD_LEN as int,
                TEXTURE_RECORD_LEN * count <= s@.len(),
                slen == s@.len(),
                0 <= i <= count,
                headers@.len() == i,
                forall|j: int|
                    0 <= j < i ==> #[trigger] headers@[j] == texture_at(
                        s@,
                        TEXTURE_RECORD_LEN * j,
                    ),
            decreases count - i,
        {
            assert(TEXTURE_RECORD_LEN * i + TEXTURE_RECORD_LEN <= TEXTURE_RECORD_LEN * count)
                by (nonlinear_arith)
                requires
                    i < count,
            ;
            let header = TextureInfo::from_reader(s, TEXTURE_RECORD_LEN * i).unwrap();
            headers.push(header);
            i = i + 1;
        }
        headers
    }

    /// Number of pixels of the texture.
    pub open spec fn pixel_count(&self) -> nat {
        self.width as nat * self.height as nat
    }

    /// Decodes the texture's pixels stored from position `at` of `raw`,
    /// two bytes per pixel, into RGBA bytes.
    pub fn read_pixel_data(&self, raw: &[u8], at: usize) -> (r: Result<Vec<u8>, TextureError>)
        ensures
            at + 2 * self.pixel_count() <= raw@.len() ==> (r matches Ok(p) && p@
                == decoded_pixels(raw@, at as int, self.pixel_count()) && p@.len() == 4
                * self.pixel_count()),
            at + 2 * self.pixel_count() > raw@.len() ==> r == Err::<Vec<u8>, TextureError>(
                TextureError::TruncatedPixelData(
                    at,
                    (2 * self.pixel_count()) as u64,
                    raw@.len() as usize,
                ),
            ),
    {
        let w = self.width as u64;
        let h = self.height as u64;
        assert(w * h <= 65535 * 65535) by (nonlinear_arith)
            requires
                w <= 65535,
                h <= 65535,
        ;
        let num_pixels: u64 = w * h;
        let len = raw.len() as u64;
        if (at as u64) > len || len - (at as u64) < 2 * num_pixels {
            return Err(TextureError::TruncatedPixelData(at, 2 * num_pixels, raw.len()));
        }
        let n = num_pixels as usize;
        let slen = raw.len();
        let mut pixels: Vec<u8> = Vec::new();
        let mut p: usize = 0;
        while p < n
            invariant
                n == self.pixel_count(),
                at + 2 * n <= raw@.len(),
                slen == raw@.len(),
                0 <= p <= n,
                pixels@ == decoded_pixels(raw@, at as int, p as nat),
            decreases n - p,
        {
            let (g, b) = read_44_pixel(raw, at + 2 * p).unwrap();
            let (a, r) = read_44_pixel(raw, at + 2 * p + 1).unwrap();
            pixels.push(r);
            pixels.push(g);
            pixels.push(b);
            pixels.push(a);
            p = p + 1;
            assert(pixels@ =~= decoded_pixels(raw@, at as int, p as nat));
        }
        proof {
            lemma_decoded_pixels_len(raw@, at as int, n as nat);
        }
        Ok(pixels)
    }

    /// Decodes the texture's pixels from the position that its record gives.
    pub fn load_texture_pixels(&self, raw: &[u8]) -> (r: Result<Vec<u8>, TextureError>)
        ensures
            self.offset + 2 * self.pixel_count() <= raw@.len() ==> (r matches Ok(p) && p@
                == decoded_pixels(raw@, self.offset as int, self.pixel_count()) && p@.len() == 4
                * self.pixel_count()),
            self.offset + 2 * self.pixel_count() > raw@.len() ==> r == Err::<
                Vec<u8>,
                TextureError,
            >(
                TextureError::TruncatedPixelData(
                    self.offset as usize,
                    (2 * self.pixel_count()) as u64,
                    raw@.len() as usize,
                ),
            ),
    {
        if (self.offset as u64) > (raw.len() as u64) {
            let w = self.width as u64;
            let h = self.height as u64;
            assert(w * h <= 65535 * 65535) by (nonlinear_arith)
                requires
                    w <= 65535,
                    h <= 65535,
            ;
            return Err(
                TextureError::TruncatedPixelData(self.offset as usize, 2 * (w * h), raw.len()),
            );
        }
        self.read_pixel_data(raw, self.offset as usize)
    }
}

/// The texture records of a bank.
pub struct BankHeader {
    entries: Vec<TextureInfo>,
}

impl BankHeader {
    pub closed spec fn records(&self) -> Seq<TextureInfo> {
        self.entries@
    }

    /// Reads the records of a bank header file.
    pub fn from_bytes(s: &[u8]) -> (r: BankHeader)
        ensures
            r.records().len() == s@.len() as int / TEXTURE_RECORD_LEN as int,
            forall|i: int|
                0 <= i < r.records().len() ==> #[trigger] r.records()[i] == texture_at(
                    s@,
                    TEXTURE_RECORD_LEN * i,
                ),
    {
        BankHeader { entries: TextureInfo::all_from_reader(s) }
    }

    /// The records, in file order.
    pub fn entries(&self) -> (r: &[TextureInfo])
        ensures
            r@ == self.records(),
    {
        self.entries.as_slice()
    }
}

} // verus!
