//! Bit-level model of packed 1-bit-per-pixel scanlines.
//!
//! A row buffer stores 8 pixel columns per byte. Bit 0 (the least
//! significant bit) of byte 0 is the leftmost pixel of the row, and a set
//! bit is a white pixel; this one convention is used by every fill and
//! overlay operation of the crate.

use vstd::prelude::*;

verus! {

/// True iff bit `k` (least significant bit = 0) of `b` is set.
pub open spec fn bit_get(b: u8, k: u8) -> bool {
    (b >> k) & 1 == 1
}

/// The pixel columns held by a packed row, leftmost column first.
pub open spec fn pixels(bytes: Seq<u8>) -> Seq<bool> {
    Seq::new(bytes.len() * 8, |c: int| bit_get(bytes[c / 8], (c % 8) as u8))
}

/// The pixel view after setting every column of `[lo, hi)` to `white`.
pub open spec fn fill_view(v: Seq<bool>, lo: int, hi: int, white: bool) -> Seq<bool> {
    Seq::new(v.len(), |c: int| if lo <= c < hi { white } else { v[c] })
}

/// The byte mask whose bits `[mlo, mhi)` are set.
pub open spec fn span_mask(mlo: u8, mhi: u8) -> u8
    recommends
        mlo < mhi <= 8,
{
    (0xffu8 << mlo) & (0xffu8 >> ((8 - mhi) as u8))
}

/// The byte `b` with bits `[mlo, mhi)` forced to `white`.
pub open spec fn fill_byte_spec(b: u8, mlo: u8, mhi: u8, white: bool) -> u8 {
    if white {
        b | span_mask(mlo, mhi)
    } else {
        b & !span_mask(mlo, mhi)
    }
}

proof fn lemma_fill_byte(b: u8, mlo: u8, mhi: u8, white: bool)
    by (bit_vector)
    requires
        mlo < mhi,
        mhi <= 8,
    ensures
        forall|k: u8|
            k < 8 ==> bit_get(fill_byte_spec(b, mlo, mhi, white), k) == if mlo <= k < mhi {
                white
            } else {
                bit_get(b, k)
            },
{
}

proof fn lemma_bit_eq(a: u8, b: u8)
    by (bit_vector)
    requires
        bit_get(a, 0) == bit_get(b, 0),
        bit_get(a, 1) == bit_get(b, 1),
        bit_get(a, 2) == bit_get(b, 2),
        bit_get(a, 3) == bit_get(b, 3),
        bit_get(a, 4) == bit_get(b, 4),
        bit_get(a, 5) == bit_get(b, 5),
        bit_get(a, 6) == bit_get(b, 6),
        bit_get(a, 7) == bit_get(b, 7),
    ensures
        a == b,
{
}

/// Sets bits `[mlo, mhi)` of `b` to `white` and leaves the others alone.
pub fn fill_byte(b: u8, mlo: u8, mhi: u8, white: bool) -> (r: u8)
    requires
        mlo < mhi,
        mhi <= 8,
    ensures
        r == fill_byte_spec(b, mlo, mhi, white),
{
    let mask = (0xffu8 << mlo) & (0xffu8 >> (8 - mhi));
    if white {
        b | mask
    } else {
        b & !mask
    }
}

/// Updating byte `j` with a span fill updates exactly the matching columns
/// of the pixel view.
pub proof fn lemma_pixels_update(bytes: Seq<u8>, j: int, mlo: u8, mhi: u8, white: bool)
    requires
        0 <= j < bytes.len(),
        mlo < mhi <= 8,
    ensures
        pixels(bytes.update(j, fill_byte_spec(bytes[j], mlo, mhi, white))) == fill_view(
            pixels(bytes),
            8 * j + mlo,
            8 * j + mhi,
            white,
        ),
{
    lemma_fill_byte(bytes[j], mlo, mhi, white);
    let nb = fill_byte_spec(bytes[j], mlo, mhi, white);
    let post = bytes.update(j, nb);
    assert forall|c: int| 0 <= c < bytes.len() * 8 implies pixels(post)[c] == (if 8 * j + mlo <= c
        < 8 * j + mhi {
        white
    } else {
        pixels(bytes)[c]
    }) by {
        if 8 * j <= c < 8 * j + 8 {
            assert(c / 8 == j && c % 8 == c - 8 * j) by (nonlinear_arith)
                requires
                    8 * j <= c < 8 * j + 8,
            ;
            assert(bit_get(post[c / 8], (c % 8) as u8) == if 8 * j + mlo <= c < 8 * j + mhi {
                white
            } else {
                bit_get(bytes[c / 8], (c % 8) as u8)
            });
        } else {
            assert(c / 8 != j) by (nonlinear_arith)
                requires
                    0 <= c,
                    !(8 * j <= c < 8 * j + 8),
            ;
        }
    }
    assert(pixels(post) =~= fill_view(pixels(bytes), 8 * j + mlo, 8 * j + mhi, white));
}

/// Two successive fills of adjacent spans act as one fill of the union span.
pub proof fn lemma_fill_view_merge(v: Seq<bool>, lo: int, mid: int, hi: int, white: bool)
    requires
        lo <= mid <= hi,
    ensures
        fill_view(fill_view(v, lo, mid, white), mid, hi, white) == fill_view(v, lo, hi, white),
{
    assert(fill_view(fill_view(v, lo, mid, white), mid, hi, white) =~= fill_view(
        v,
        lo,
        hi,
        white,
    ));
}

/// Filling an empty span changes nothing.
pub proof fn lemma_fill_view_empty(v: Seq<bool>, lo: int, hi: int, white: bool)
    requires
        lo >= hi,
    ensures
        fill_view(v, lo, hi, white) == v,
{
    assert(fill_view(v, lo, hi, white) =~= v);
}

/// Filling the same span twice yields the same pixels as filling it once.
pub proof fn lemma_fill_view_idempotent(v: Seq<bool>, lo: int, hi: int, white: bool)
    ensures
        fill_view(fill_view(v, lo, hi, white), lo, hi, white) == fill_view(v, lo, hi, white),
{
    assert(fill_view(fill_view(v, lo, hi, white), lo, hi, white) =~= fill_view(
        v,
        lo,
        hi,
        white,
    ));
}

proof fn lemma_ff_bits()
    by (bit_vector)
    ensures
        forall|k: u8| k < 8 ==> #[trigger] bit_get(0xffu8, k),
{
}

/// A row of 0xff bytes shows every pixel white.
pub proof fn lemma_pixels_all_white(bytes: Seq<u8>)
    requires
        forall|i: int| 0 <= i < bytes.len() ==> bytes[i] == 0xff,
    ensures
        pixels(bytes) == Seq::new(bytes.len() * 8, |c: int| true),
{
    lemma_ff_bits();
    assert forall|c: int| 0 <= c < bytes.len() * 8 implies pixels(bytes)[c] by {
        assert(0 <= c / 8 < bytes.len()) by (nonlinear_arith)
            requires
                0 <= c < bytes.len() * 8,
        ;
        assert(bytes[c / 8] == 0xff);
        assert(bit_get(0xffu8, (c % 8) as u8));
    }
    assert(pixels(bytes) =~= Seq::new(bytes.len() * 8, |c: int| true));
}

/// A fill alters only bits whose column lies inside the filled span: every
/// byte all of whose columns lie outside `[lo, hi)` is byte-for-byte
/// unchanged.
pub proof fn lemma_fill_outside_bytes(a: Seq<u8>, b: Seq<u8>, lo: int, hi: int, white: bool, j: int)
    requires
        a.len() == b.len(),
        pixels(b) == fill_view(pixels(a), lo, hi, white),
        0 <= j < a.len(),
        8 * j + 8 <= lo || hi <= 8 * j,
    ensures
        b[j] == a[j],
{
    assert forall|k: u8| k < 8 implies bit_get(a[j], k) == bit_get(b[j], k) by {
        let c = 8 * j + k;
        assert(c / 8 == j && c % 8 == k) by (nonlinear_arith)
            requires
                0 <= j,
                0 <= k < 8,
                c == 8 * j + k,
        ;
        assert(0 <= c < a.len() * 8) by (nonlinear_arith)
            requires
                0 <= j < a.len(),
                0 <= k < 8,
                c == 8 * j + k,
        ;
        assert(pixels(a)[c] == bit_get(a[c / 8], (c % 8) as u8));
        assert(pixels(b)[c] == bit_get(b[c / 8], (c % 8) as u8));
        assert(pixels(b)[c] == fill_view(pixels(a), lo, hi, white)[c]);
        assert(!(lo <= c < hi));
    }
    lemma_bit_eq(a[j], b[j]);
}

/// Applying the same fill twice yields the same byte buffer as applying it
/// once.
pub proof fn lemma_fill_twice_bytes(a: Seq<u8>, b: Seq<u8>, c: Seq<u8>, lo: int, hi: int, white: bool)
    requires
        a.len() == b.len() == c.len(),
        pixels(b) == fill_view(pixels(a), lo, hi, white),
        pixels(c) == fill_view(pixels(b), lo, hi, white),
    ensures
        c == b,
{
    lemma_fill_view_idempotent(pixels(a), lo, hi, white);
    lemma_pixels_injective(b, c);
}

/// Two rows with the same pixels are the same bytes.
pub proof fn lemma_pixels_injective(a: Seq<u8>, b: Seq<u8>)
    requires
        a.len() == b.len(),
        pixels(a) == pixels(b),
    ensures
        a == b,
{
    assert forall|j: int| 0 <= j < a.len() implies a[j] == b[j] by {
        assert forall|k: u8| k < 8 implies bit_get(a[j], k) == bit_get(b[j], k) by {
            let c = 8 * j + k;
            assert(c / 8 == j && c % 8 == k) by (nonlinear_arith)
                requires
                    0 <= j,
                    0 <= k < 8,
                    c == 8 * j + k,
            ;
            assert(0 <= c < a.len() * 8) by (nonlinear_arith)
                requires
                    0 <= j < a.len(),
                    0 <= k < 8,
                    c == 8 * j + k,
            ;
            assert(pixels(a)[c] == bit_get(a[c / 8], (c % 8) as u8));
            assert(pixels(b)[c] == bit_get(b[c / 8], (c % 8) as u8));
            assert(pixels(a)[c] == pixels(b)[c]);
        }
        lemma_bit_eq(a[j], b[j]);
    }
    assert(a =~= b);
}

} // verus!
