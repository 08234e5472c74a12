use vstd::prelude::*;

use vstd::arithmetic::div_mod::{lemma_fundamental_div_mod, lemma_mod_self_0};

use crate::common::{Endian, PfmError};
use crate::payload::{bytes_of, flipped, lemma_flip_involutive, lemma_words_of_bytes, words_of};
use crate::pfm::{
    channels, decoded_as, encoded, header_fields, header_text, is_nan_bits, is_negative_bits,
    is_zero_bits, magic_text, payload_error, scale_endian, scale_magnitude, signed_scale_bits,
    PfmHeader, MAGNITUDE_MASK, ONE_BITS, PFM, SIGN_BIT,
};
use crate::text::{decimal_text, is_ws, lemma_decimal_text, lemma_decimal_value_of_text, lemma_next_token_of};

verus! {

/// The two images agree in every field and in every sample.
pub open spec fn same_image(a: PFM, b: PFM) -> bool {
    &&& a.width == b.width
    &&& a.height == b.height
    &&& a.color == b.color
    &&& a.scale_factor == b.scale_factor
    &&& a.endian == b.endian
    &&& a.data@ == b.data@
}

/// The header that describes `p`.
pub open spec fn header_of(p: PFM) -> PfmHeader {
    PfmHeader { color: p.color, width: p.width, height: p.height }
}

/// The samples of `p` as they are stored: rows bottom to top, in `p`'s byte order.
pub open spec fn payload_of(p: PFM) -> Seq<u8> {
    bytes_of(p.endian, flipped(p.data@, p.height as int, p.width * channels(p.color)))
}

/// A signed scale selects big-endian when positive and little-endian when
/// negative, and whatever its sign the stored scale factor is positive and not
/// zero.
pub proof fn lemma_scale_sign(b: u32)
    requires
        !is_zero_bits(b),
    ensures
        !is_negative_bits(scale_magnitude(b, ONE_BITS)),
        !is_zero_bits(scale_magnitude(b, ONE_BITS)),
        !is_nan_bits(b) && is_negative_bits(b) ==> scale_endian(b, Endian::Little) == Endian::Little,
        !is_nan_bits(b) && !is_negative_bits(b) ==> scale_endian(b, Endian::Little) == Endian::Big,
{
    assert(b & 0x7fff_ffffu32 != 0 ==> (b & 0x7fff_ffffu32) & 0x8000_0000u32 == 0 && (b
        & 0x7fff_ffffu32) & 0x7fff_ffffu32 != 0) by (bit_vector);
    assert(0x3f80_0000u32 & 0x8000_0000u32 == 0 && 0x3f80_0000u32 & 0x7fff_ffffu32 != 0)
        by (bit_vector);
}

/// The signed scale of a valid image gives back its byte order and scale factor.
proof fn lemma_signed_scale(p: PFM)
    requires
        p.valid(),
    ensures
        !is_zero_bits(signed_scale_bits(p.scale_factor, p.endian)),
        scale_endian(signed_scale_bits(p.scale_factor, p.endian), Endian::Little) == p.endian,
        scale_magnitude(signed_scale_bits(p.scale_factor, p.endian), ONE_BITS) == p.scale_factor,
{
    let f = p.scale_factor;
    assert(f & 0x8000_0000u32 == 0 ==> f & 0x7fff_ffffu32 == f) by (bit_vector);
    assert(f & 0x8000_0000u32 == 0 ==> {
        let s = f ^ 0x8000_0000u32;
        &&& s & 0x8000_0000u32 != 0
        &&& s & 0x7fff_ffffu32 == f
        &&& s & 0x7f80_0000u32 == f & 0x7f80_0000u32
        &&& s & 0x007f_ffffu32 == f & 0x007f_ffffu32
    }) by (bit_vector);
}

/// Decoding what `encode` wrote gives the image back: the header reads back
/// as the image's color mode and size with the scale text as its scale token,
/// the rest decodes without error once that token is read as the signed scale
/// (float text that reads back as the number it was written from), and every
/// image that the decoder may return agrees with the original in every field.
pub proof fn lemma_round_trip(p: PFM, scale_text: Seq<u8>)
    requires
        p.valid(),
        scale_text.len() > 0,
        forall|i: int| 0 <= i < scale_text.len() ==> !is_ws(#[trigger] scale_text[i]),
    ensures
        header_fields(encoded(p, scale_text)) == Ok::<(bool, nat, nat, Seq<u8>, Seq<u8>), PfmError>(
            (p.color, p.width as nat, p.height as nat, scale_text, seq![0x0Au8] + payload_of(p)),
        ),
        payload_error(
            header_of(p),
            Some(signed_scale_bits(p.scale_factor, p.endian)),
            seq![0x0Au8] + payload_of(p),
        ).is_none(),
        forall|q: PFM|
            decoded_as(
                q,
                header_of(p),
                signed_scale_bits(p.scale_factor, p.endian),
                #[trigger] (seq![0x0Au8] + payload_of(p)),
            ) ==> same_image(q, p),
{
    let nl: Seq<u8> = seq![0x0Au8];
    let sp: Seq<u8> = seq![0x20u8];
    let m = magic_text(p.color);
    let dw = decimal_text(p.width as nat);
    let dh = decimal_text(p.height as nat);
    let pay = payload_of(p);
    let enc = encoded(p, scale_text);
    lemma_decimal_text(p.width as nat);
    lemma_decimal_text(p.height as nat);
    lemma_decimal_value_of_text(p.width as nat);
    lemma_decimal_value_of_text(p.height as nat);
    // The four tokens, one after the other.
    let r4 = nl + pay;
    let r3 = nl + scale_text + r4;
    let r2 = sp + dh + r3;
    let r1 = nl + dw + r2;
    assert(enc =~= Seq::<u8>::empty() + m + r1);
    lemma_next_token_of(Seq::<u8>::empty(), m, r1);
    lemma_next_token_of(nl, dw, r2);
    lemma_next_token_of(sp, dh, r3);
    lemma_next_token_of(nl, scale_text, r4);
    // The scale.
    lemma_signed_scale(p);
    // The payload.
    let ch = channels(p.color);
    let row_len = p.width * ch;
    assert(p.data@.len() == p.height * row_len) by (nonlinear_arith)
        requires
            p.data@.len() == p.width * p.height * ch,
            row_len == p.width * ch,
    ;
    let rows = flipped(p.data@, p.height as int, row_len);
    assert(r4.len() - 1 == 4 * p.data@.len());
    assert(r4.drop_first() =~= pay);
    lemma_words_of_bytes(p.endian, rows);
    lemma_flip_involutive(p.data@, p.height as int, row_len);
}

/// A payload whose length is not a multiple of the bytes that the header's
/// size asks for is refused as a size mismatch, whatever its content.
pub proof fn lemma_payload_size(h: PfmHeader, scale: u32, rest: Seq<u8>)
    requires
        h.width > 0,
        h.height > 0,
        !is_zero_bits(scale),
        rest.len() > 0,
        (rest.len() - 1) % (4 * h.width * h.height * channels(h.color)) != 0,
    ensures
        payload_error(h, Some(scale), rest) == Some(PfmError::PayloadSizeMismatch),
{
    let len = rest.len() - 1;
    let n = h.width * h.height * channels(h.color);
    assert(n > 0) by (nonlinear_arith)
        requires
            h.width > 0,
            h.height > 0,
            n == h.width * h.height * channels(h.color),
            channels(h.color) >= 1,
    ;
    if len % 4 == 0 && len / 4 == n {
        lemma_fundamental_div_mod(len, 4);
        assert(len == 4 * n);
        lemma_mod_self_0(4 * n);
        assert(4 * h.width * h.height * channels(h.color) == 4 * n) by (nonlinear_arith)
            requires
                n == h.width * h.height * channels(h.color),
        ;
    }
}

} // verus!
