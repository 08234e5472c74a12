use vstd::prelude::*;

use crate::common::{Endian, PfmError};
use crate::payload::{bytes_of, flip_vertical, flipped, read_words, words_of, write_words};
use crate::text::{decimal_text, decimal_value, next_token, parse_token, push_decimal, read_until_space};

verus! {

/// The bit pattern of the single-precision number 1.0.
pub const ONE_BITS: u32 = 0x3f80_0000u32;

/// The sign bit of a single-precision bit pattern.
pub const SIGN_BIT: u32 = 0x8000_0000u32;

/// Everything of a single-precision bit pattern but its sign.
pub const MAGNITUDE_MASK: u32 = 0x7fff_ffffu32;

/// Samples per pixel: three for an RGB image, one for a monochrome one.
pub open spec fn channels(color: bool) -> nat {
    if color {
        3
    } else {
        1
    }
}

/// The bit pattern is +0.0 or -0.0.
pub open spec fn is_zero_bits(b: u32) -> bool {
    b & MAGNITUDE_MASK == 0
}

/// The bit pattern is a NaN: every exponent bit set and a fraction that is not zero.
pub open spec fn is_nan_bits(b: u32) -> bool {
    b & 0x7f80_0000u32 == 0x7f80_0000u32 && b & 0x007f_ffffu32 != 0
}

/// The bit pattern has its sign bit set.
pub open spec fn is_negative_bits(b: u32) -> bool {
    b & SIGN_BIT != 0
}

/// The byte order that a signed scale selects: positive for big-endian,
/// negative for little-endian; a NaN, neither positive nor negative, keeps `prev`.
pub open spec fn scale_endian(b: u32, prev: Endian) -> Endian {
    if is_nan_bits(b) {
        prev
    } else if is_negative_bits(b) {
        Endian::Little
    } else {
        Endian::Big
    }
}

/// The scale factor that a signed scale stores: its magnitude; a NaN keeps `prev`.
pub open spec fn scale_magnitude(b: u32, prev: u32) -> u32 {
    if is_nan_bits(b) {
        prev
    } else {
        b & MAGNITUDE_MASK
    }
}

/// A PFM image. Samples and the scale factor are single-precision bit patterns.
#[derive(Debug, Clone, PartialEq, Eq)]
pub struct PFM {
    /// Width of image.
    pub width: usize,
    /// Height of image.
    pub height: usize,
    /// True for RGB image, False for monochrome image.
    pub color: bool,
    /// Scaling factor of pixel values, as the bits of a positive `f32`.
    pub scale_factor: u32,
    /// Endianness of pixel value in the PFM file.
    pub endian: Endian,
    /// Pixel values, as the bits of `f32`s, from the top row to the bottom one,
    /// each row from left to right, the channels of a pixel side by side.
    pub data: Vec<u32>,
}

impl PFM {
    /// The number of samples is `width * height * channels`.
    pub open spec fn wf(&self) -> bool {
        self.data@.len() == self.width * self.height * channels(self.color)
    }

    /// An image that the format can hold and give back unchanged: at least one
    /// pixel, and a scale factor that is positive and a number.
    pub open spec fn valid(&self) -> bool {
        &&& self.wf()
        &&& self.width > 0
        &&& self.height > 0
        &&& !is_negative_bits(self.scale_factor)
        &&& !is_zero_bits(self.scale_factor)
        &&& !is_nan_bits(self.scale_factor)
    }
}

/// Collects the fields of a `PFM`; `build` checks the number of samples.
#[derive(Debug)]
pub struct PFMBuilder(PFM);

impl PFMBuilder {
    /// The image as it stands so far.
    pub closed spec fn image(&self) -> PFM {
        self.0
    }

    /// An empty RGB image of scale 1.0, little-endian.
    pub fn new() -> (r: PFMBuilder)
        ensures
            r.image().width == 0,
            r.image().height == 0,
            r.image().color,
            r.image().scale_factor == ONE_BITS,
            r.image().endian == Endian::Little,
            r.image().data@ == Seq::<u32>::empty(),
    {
        PFMBuilder(
            PFM {
                width: 0,
                height: 0,
                color: true,
                scale_factor: ONE_BITS,
                endian: Endian::Little,
                data: Vec::new(),
            },
        )
    }

    /// Sets width and height; both must be positive.
    pub fn size(self, width: usize, height: usize) -> (r: PFMBuilder)
        requires
            width > 0,
            height > 0,
        ensures
            r.image().width == width,
            r.image().height == height,
            r.image().color == self.image().color,
            r.image().scale_factor == self.image().scale_factor,
            r.image().endian == self.image().endian,
            r.image().data@ == self.image().data@,
    {
        let mut b = self;
        b.0.width = width;
        b.0.height = height;
        b
    }

    /// Sets whether the image is RGB or monochrome.
    pub fn color(self, color: bool) -> (r: PFMBuilder)
        ensures
            r.image().width == self.image().width,
            r.image().height == self.image().height,
            r.image().color == color,
            r.image().scale_factor == self.image().scale_factor,
            r.image().endian == self.image().endian,
            r.image().data@ == self.image().data@,
    {
        let mut b = self;
        b.0.color = color;
        b
    }

    /// Sets the scale factor and the byte order from the bits of a signed,
    /// non-zero scale: positive selects big-endian, negative little-endian,
    /// and the factor is the magnitude. A NaN changes neither.
    pub fn scale(self, scale: u32) -> (r: PFMBuilder)
        requires
            !is_zero_bits(scale),
        ensures
            r.image().width == self.image().width,
            r.image().height == self.image().height,
            r.image().color == self.image().color,
            r.image().scale_factor == scale_magnitude(scale, self.image().scale_factor),
            r.image().endian == scale_endian(scale, self.image().endian),
            r.image().data@ == self.image().data@,
    {
        let mut b = self;
        let nan = scale & 0x7f80_0000u32 == 0x7f80_0000u32 && scale & 0x007f_ffffu32 != 0;
        if !nan {
            if scale & SIGN_BIT != 0 {
                b.0.endian = Endian::Little;
            } else {
                b.0.endian = Endian::Big;
            }
            b.0.scale_factor = scale & MAGNITUDE_MASK;
        }
        b
    }

    /// Sets the samples, as the bits of `f32`s.
    pub fn data(self, data: Vec<u32>) -> (r: PFMBuilder)
        ensures
            r.image().width == self.image().width,
            r.image().height == self.image().height,
            r.image().color == self.image().color,
            r.image().scale_factor == self.image().scale_factor,
            r.image().endian == self.image().endian,
            r.image().data@ == data@,
    {
        let mut b = self;
        b.0.data = data;
        b
    }

    /// The finished image, when the data holds `width * height * channels`
    /// samples; `DataLengthMismatch` otherwise.
    pub fn build(self) -> (r: Result<PFM, PfmError>)
        ensures
            self.image().wf() ==> r == Ok::<PFM, PfmError>(self.image()),
            !self.image().wf() ==> r == Err::<PFM, PfmError>(PfmError::DataLengthMismatch),
    {
        let ch: usize = if self.0.color { 3 } else { 1 };
        if samples_fit(self.0.width, self.0.height, ch, self.0.data.len()) {
            Ok(self.0)
        } else {
            Err(PfmError::DataLengthMismatch)
        }
    }
}

/// Whether `len == width * height * ch`, without overflow.
fn samples_fit(width: usize, height: usize, ch: usize, len: usize) -> (r: bool)
    ensures
        r == (len == width * height * ch),
{
    match width.checked_mul(height) {
        None => {
            assert(width * height * ch >= width * height || ch == 0) by (nonlinear_arith);
            if ch == 0 {
                assert(width * height * ch == 0) by (nonlinear_arith)
                    requires ch == 0;
                len == 0
            } else {
                false
            }
        },
        Some(p) => match p.checked_mul(ch) {
            None => false,
            Some(n) => n == len,
        },
    }
}

/// What the header says before its scale: color mode and size.
#[derive(Debug, Clone, Copy, PartialEq, Eq, Structural)]
pub struct PfmHeader {
    /// True for `PF` (RGB), false for `Pf` (monochrome).
    pub color: bool,
    /// Width of image.
    pub width: usize,
    /// Height of image.
    pub height: usize,
}

/// The color mode that a magic token names: its first byte is `P`, its second
/// `F` for RGB or `f` for monochrome.
pub open spec fn magic_color(t: Seq<u8>) -> Option<bool> {
    if t.len() >= 2 && t[0] == 0x50u8 && t[1] == 0x46u8 {
        Some(true)
    } else if t.len() >= 2 && t[0] == 0x50u8 && t[1] == 0x66u8 {
        Some(false)
    } else {
        None
    }
}

/// A width or height token: a positive decimal number that fits in `usize`.
pub open spec fn dimension(t: Seq<u8>) -> Option<nat> {
    match decimal_value(t) {
        Some(n) => if n > 0 {
            Some(n)
        } else {
            None
        },
        None => None,
    }
}

/// The four header tokens of `b` read: color mode, width, height, the scale
/// token, and the bytes after the scale token.
pub open spec fn header_fields(b: Seq<u8>) -> Result<(bool, nat, nat, Seq<u8>, Seq<u8>), PfmError> {
    match next_token(b) {
        None => Err(PfmError::UnexpectedEof),
        Some((m, b1)) => match magic_color(m) {
            None => Err(PfmError::InvalidMagic),
            Some(color) => match next_token(b1) {
                None => Err(PfmError::UnexpectedEof),
                Some((wt, b2)) => match dimension(wt) {
                    None => Err(PfmError::InvalidDimension),
                    Some(w) => match next_token(b2) {
                        None => Err(PfmError::UnexpectedEof),
                        Some((ht, b3)) => match dimension(ht) {
                            None => Err(PfmError::InvalidDimension),
                            Some(h) => match next_token(b3) {
                                None => Err(PfmError::UnexpectedEof),
                                Some((st, rest)) => Ok((color, w, h, st, rest)),
                            },
                        },
                    },
                },
            },
        },
    }
}

fn parse_dimension(t: &[u8]) -> (r: Result<usize, PfmError>)
    ensures
        match dimension(t@) {
            Some(n) => r == Ok::<usize, PfmError>(n as usize),
            None => r == Err::<usize, PfmError>(PfmError::InvalidDimension),
        },
{
    match parse_token(t, PfmError::InvalidDimension) {
        Ok(n) => if n > 0 {
            Ok(n)
        } else {
            Err(PfmError::InvalidDimension)
        },
        Err(e) => Err(e),
    }
}

/// Reads the header tokens: magic, width and height, then the scale token,
/// which is returned as it stands, with the bytes that follow it. The scale
/// token is a decimal floating-point number, which `decode` takes as bits.
pub fn parse_header(buffer: &[u8]) -> (r: Result<(PfmHeader, &[u8], &[u8]), PfmError>)
    ensures
        match header_fields(buffer@) {
            Err(e) => r == Err::<(PfmHeader, &[u8], &[u8]), PfmError>(e),
            Ok((color, w, h, st, rest)) => {
                &&& r.is_ok()
                &&& r.unwrap().0 == PfmHeader { color, width: w as usize, height: h as usize }
                &&& r.unwrap().1@ == st
                &&& r.unwrap().2@ == rest
            },
        },
{
    let (m, b1) = match read_until_space(buffer) {
        Ok(p) => p,
        Err(e) => return Err(e),
    };
    let color = if m.len() >= 2 && m[0] == 0x50u8 && m[1] == 0x46u8 {
        true
    } else if m.len() >= 2 && m[0] == 0x50u8 && m[1] == 0x66u8 {
        false
    } else {
        return Err(PfmError::InvalidMagic);
    };
    let (wt, b2) = match read_until_space(b1) {
        Ok(p) => p,
        Err(e) => return Err(e),
    };
    let width = match parse_dimension(wt) {
        Ok(n) => n,
        Err(e) => return Err(e),
    };
    let (ht, b3) = match read_until_space(b2) {
        Ok(p) => p,
        Err(e) => return Err(e),
    };
    let height = match parse_dimension(ht) {
        Ok(n) => n,
        Err(e) => return Err(e),
    };
    let (st, rest) = match read_until_space(b3) {
        Ok(p) => p,
        Err(e) => return Err(e),
    };
    Ok((PfmHeader { color, width, height }, st, rest))
}

/// Why the bytes after the scale token cannot be decoded, if they cannot: a
/// scale that is not a number (`None`) or zero, an empty size, no separator
/// byte, or a payload that does not hold exactly one four-byte sample for each
/// of `width * height * channels`.
pub open spec fn payload_error(h: PfmHeader, scale: Option<u32>, rest: Seq<u8>) -> Option<PfmError> {
    if h.width == 0 || h.height == 0 {
        Some(PfmError::InvalidDimension)
    } else if scale.is_none() || is_zero_bits(scale.unwrap()) {
        Some(PfmError::InvalidScale)
    } else if rest.len() == 0 {
        Some(PfmError::UnexpectedEof)
    } else if (rest.len() - 1) % 4 != 0 || (rest.len() - 1) / 4 != h.width * h.height
        * channels(h.color) {
        Some(PfmError::PayloadSizeMismatch)
    } else {
        None
    }
}

/// `p` is the image that the header `h`, the signed scale `scale` and the
/// bytes `rest` after the scale token describe: the byte after the scale
/// token is skipped, the rest read as samples in the scale's byte order, and
/// the rows, stored bottom to top, put top to bottom.
pub open spec fn decoded_as(p: PFM, h: PfmHeader, scale: u32, rest: Seq<u8>) -> bool {
    &&& p.width == h.width
    &&& p.height == h.height
    &&& p.color == h.color
    &&& p.endian == scale_endian(scale, Endian::Little)
    &&& p.scale_factor == scale_magnitude(scale, ONE_BITS)
    &&& p.data@ == flipped(
        words_of(p.endian, rest.drop_first()),
        h.height as int,
        h.width * channels(h.color),
    )
}

/// Decodes the image that follows a header: `scale` is the scale token read
/// as the bits of an `f32` (`None` where it is no number) and `rest` the bytes
/// after that token, as `parse_header` returns them.
pub fn decode(header: PfmHeader, scale: Option<u32>, rest: &[u8]) -> (r: Result<PFM, PfmError>)
    ensures
        match payload_error(header, scale, rest@) {
            Some(e) => r == Err::<PFM, PfmError>(e),
            None => r.is_ok() && r.unwrap().wf() && decoded_as(
                r.unwrap(),
                header,
                scale.unwrap(),
                rest@,
            ),
        },
{
    if header.width == 0 || header.height == 0 {
        return Err(PfmError::InvalidDimension);
    }
    let bits = match scale {
        None => return Err(PfmError::InvalidScale),
        Some(b) => b,
    };
    if bits & MAGNITUDE_MASK == 0 {
        return Err(PfmError::InvalidScale);
    }
    if rest.len() == 0 {
        return Err(PfmError::UnexpectedEof);
    }
    let payload = &rest[1..rest.len()];
    assert(payload@ == rest@.drop_first());
    let ch: usize = if header.color { 3 } else { 1 };
    if payload.len() % 4 != 0 || !samples_fit(header.width, header.height, ch, payload.len() / 4) {
        return Err(PfmError::PayloadSizeMismatch);
    }
    let builder = PFMBuilder::new().color(header.color).size(header.width, header.height).scale(bits);
    let words = read_words(builder.0.endian, payload);
    assert(header.width * ch <= header.width * header.height * ch) by (nonlinear_arith)
        requires
            header.height >= 1,
    ;
    let row_len: usize = header.width * ch;
    assert(words@.len() == header.height * row_len) by (nonlinear_arith)
        requires
            words@.len() == header.width * header.height * ch,
            row_len == header.width * ch,
    ;
    let data = flip_vertical(words.as_slice(), header.height, row_len);
    builder.data(data).build()
}

/// The signed scale as the bits of an `f32`: the scale factor, negated for
/// little-endian.
pub open spec fn signed_scale_bits(factor: u32, e: Endian) -> u32 {
    match e {
        Endian::Big => factor,
        Endian::Little => factor ^ SIGN_BIT,
    }
}

/// The scale that the header holds for `pfm`, as the bits of an `f32`: the
/// scale factor, negated for little-endian. `encode` writes it as text.
pub fn signed_scale(pfm: &PFM) -> (r: u32)
    ensures
        r == signed_scale_bits(pfm.scale_factor, pfm.endian),
{
    match pfm.endian {
        Endian::Big => pfm.scale_factor,
        Endian::Little => pfm.scale_factor ^ SIGN_BIT,
    }
}

/// The magic token: `PF` for RGB, `Pf` for monochrome.
pub open spec fn magic_text(color: bool) -> Seq<u8> {
    if color {
        seq![0x50u8, 0x46u8]
    } else {
        seq![0x50u8, 0x66u8]
    }
}

/// The header text: magic, width and height, and the scale text, each line
/// ended by a line feed.
pub open spec fn header_text(color: bool, width: nat, height: nat, scale_text: Seq<u8>) -> Seq<u8> {
    magic_text(color) + seq![0x0Au8] + decimal_text(width) + seq![0x20u8] + decimal_text(height)
        + seq![0x0Au8] + scale_text + seq![0x0Au8]
}

/// The bytes of `p` with `scale_text` as its scale: the header, then the
/// samples with the rows from bottom to top, in `p`'s byte order.
pub open spec fn encoded(p: PFM, scale_text: Seq<u8>) -> Seq<u8> {
    header_text(p.color, p.width as nat, p.height as nat, scale_text) + bytes_of(
        p.endian,
        flipped(p.data@, p.height as int, p.width * channels(p.color)),
    )
}

/// Why `p` cannot be encoded, if it cannot: an empty size, a zero scale
/// factor, or a number of samples other than `width * height * channels`.
pub open spec fn encode_error(p: PFM) -> Option<PfmError> {
    if p.width == 0 || p.height == 0 {
        Some(PfmError::InvalidDimension)
    } else if is_zero_bits(p.scale_factor) {
        Some(PfmError::InvalidScale)
    } else if !p.wf() {
        Some(PfmError::DataLengthMismatch)
    } else {
        None
    }
}

fn push_all(buf: &mut Vec<u8>, src: &[u8])
    ensures
        final(buf)@ == old(buf)@ + src@,
{
    let mut i: usize = 0;
    while i < src.len()
        invariant
            i <= src@.len(),
            buf@ == old(buf)@ + src@.subrange(0, i as int),
        decreases src@.len() - i,
    {
        buf.push(src[i]);
        i = i + 1;
        assert(buf@ =~= old(buf)@ + src@.subrange(0, i as int));
    }
    assert(src@.subrange(0, i as int) =~= src@);
}

/// Encodes `pfm` with `scale_text`, the text of `signed_scale(pfm)`, as its
/// scale token.
pub fn encode(pfm: &PFM, scale_text: &[u8]) -> (r: Result<Vec<u8>, PfmError>)
    requires
        4 * pfm.data@.len() <= usize::MAX,
    ensures
        match encode_error(*pfm) {
            Some(e) => r == Err::<Vec<u8>, PfmError>(e),
            None => r.is_ok() && r.unwrap()@ == encoded(*pfm, scale_text@),
        },
{
    if pfm.width == 0 || pfm.height == 0 {
        return Err(PfmError::InvalidDimension);
    }
    if pfm.scale_factor & MAGNITUDE_MASK == 0 {
        return Err(PfmError::InvalidScale);
    }
    let ch: usize = if pfm.color { 3 } else { 1 };
    if !samples_fit(pfm.width, pfm.height, ch, pfm.data.len()) {
        return Err(PfmError::DataLengthMismatch);
    }
    let mut buf: Vec<u8> = Vec::new();
    buf.push(0x50u8);
    buf.push(if pfm.color { 0x46u8 } else { 0x66u8 });
    buf.push(0x0Au8);
    push_decimal(&mut buf, pfm.width);
    buf.push(0x20u8);
    push_decimal(&mut buf, pfm.height);
    buf.push(0x0Au8);
    push_all(&mut buf, scale_text);
    buf.push(0x0Au8);
    assert(buf@ =~= header_text(pfm.color, pfm.width as nat, pfm.height as nat, scale_text@));
    assert(pfm.width * ch <= pfm.width * pfm.height * ch) by (nonlinear_arith)
        requires
            pfm.height >= 1,
    ;
    let row_len: usize = pfm.width * ch;
    assert(pfm.data@.len() == pfm.height * row_len) by (nonlinear_arith)
        requires
            pfm.data@.len() == pfm.width * pfm.height * ch,
            row_len == pfm.width * ch,
    ;
    let rows = flip_vertical(pfm.data.as_slice(), pfm.height, row_len);
    let mut bytes = write_words(pfm.endian, rows.as_slice());
    buf.append(&mut bytes);
    Ok(buf)
}

} // verus!
