//! Parsing of the raw byte layout the digit corpus files use: a fixed
//! header of big-endian 32-bit words, followed by the payload. The caller
//! reads the file; these functions only interpret bytes.

use vstd::prelude::*;

verus! {

/// Largest pixel count per image the parser accepts (a machine limit so
/// chunk indices stay within `usize`, far above any real corpus).
pub const MAX_PIXELS: u64 = 100_000_000;

/// Four consecutive elements of a slice, starting at `offset`.
pub fn take4<T: Copy>(a: &[T], offset: usize) -> (r: [T; 4])
    requires
        offset + 4 <= a@.len(),
    ensures
        r@ =~= a@.subrange(offset as int, offset + 4),
{
    let r = [a[offset], a[offset + 1], a[offset + 2], a[offset + 3]];
    r
}

/// The value of four bytes read as one big-endian 32-bit word.
pub open spec fn spec_be_u32(b: Seq<u8>) -> int {
    b[0] * 0x1000000 + b[1] * 0x10000 + b[2] * 0x100 + b[3]
}

/// Reads a big-endian 32-bit word from four bytes.
pub fn be_u32(b: &[u8; 4]) -> (r: u32)
    ensures
        r == spec_be_u32(b@),
{
    (b[0] as u32) * 0x1000000 + (b[1] as u32) * 0x10000 + (b[2] as u32) * 0x100 + (b[3] as u32)
}

/// Number of chunks of size `wh` the payload splits into, the last one
/// possibly short.
pub open spec fn spec_chunk_count(body: int, wh: int) -> int {
    body / wh + if body % wh != 0 { 1int } else { 0 }
}

/// One image's chunk of the payload: `wh` bytes starting after the 16-byte
/// header, with the final chunk cut short at the end of the data.
pub open spec fn spec_image_chunk(data: Seq<u8>, wh: int, k: int) -> Seq<u8> {
    let lo = 16 + k * wh;
    let hi = if 16 + (k + 1) * wh <= data.len() { 16 + (k + 1) * wh } else { data.len() as int };
    data.subrange(lo, hi)
}

/// Splits an image-corpus byte stream into its images.
///
/// The header holds four big-endian words: a magic number, the image
/// count, and the height and width of each image. The payload after the
/// 16-byte header is cut into consecutive `height * width`-byte images
/// (the last one possibly short). Returns nothing if the data cannot hold
/// a header, if the header gives an empty image shape, or if the shape is
/// beyond `MAX_PIXELS`.
pub fn parse_idx_images(data: &Vec<u8>) -> (r: Option<Vec<Vec<u8>>>)
    ensures
        r.is_some() <==> (data@.len() >= 16
            && 1 <= spec_be_u32(data@.subrange(8, 12)) * spec_be_u32(data@.subrange(12, 16))
            && spec_be_u32(data@.subrange(8, 12)) * spec_be_u32(data@.subrange(12, 16))
                <= MAX_PIXELS),
        r.is_some() ==> {
            let wh = spec_be_u32(data@.subrange(8, 12)) * spec_be_u32(data@.subrange(12, 16));
            let imgs = r.unwrap();
            &&& imgs@.len() == spec_chunk_count(data@.len() - 16, wh)
            &&& forall|k: int| 0 <= k < imgs@.len()
                ==> (#[trigger] imgs@[k])@ == spec_image_chunk(data@, wh, k)
        },
{
    let n = data.len();
    if n < 16 {
        return None;
    }
    let height = be_u32(&take4(data.as_slice(), 8));
    let width = be_u32(&take4(data.as_slice(), 12));
    proof {
        assert(data@.subrange(8, 12) =~= data@.subrange(8, 12 as int));
        assert(height == spec_be_u32(data@.subrange(8, 12)));
        assert(width == spec_be_u32(data@.subrange(12, 16)));
        assert(height * width >= 0) by (nonlinear_arith)
            requires height >= 0, width >= 0;
        assert(height * width <= 0xffff_ffff * 0xffff_ffff) by (nonlinear_arith)
            requires 0 <= height <= 0xffff_ffff, 0 <= width <= 0xffff_ffff;
    }
    let wh64: u64 = (height as u64) * (width as u64);
    if wh64 == 0 || wh64 > MAX_PIXELS {
        return None;
    }
    let wh: usize = wh64 as usize;
    let ghost whi = wh as int;
    let body_len = n - 16;
    let q: usize = body_len / wh;
    let rem: usize = body_len % wh;
    let count: usize = if rem != 0 { q + 1 } else { q };
    proof {
        vstd::arithmetic::div_mod::lemma_fundamental_div_mod(body_len as int, whi);
        vstd::arithmetic::div_mod::lemma_mod_division_less_than_divisor(body_len as int, whi);
        assert(count <= body_len || count == 1 && body_len >= 1) by (nonlinear_arith)
            requires
                body_len == whi * q + rem,
                0 <= rem < whi,
                whi >= 1,
                count == q + if rem != 0 { 1int } else { 0 },
                q >= 0;
        assert(count == spec_chunk_count(body_len as int, whi));
    }

    let mut imgs: Vec<Vec<u8>> = Vec::new();
    let mut k: usize = 0;
    while k < count
        invariant
            0 <= k <= count,
            imgs@.len() == k,
            n == data@.len(),
            n >= 16,
            body_len == n - 16,
            1 <= wh <= MAX_PIXELS,
            whi == wh as int,
            wh == wh64,
            count == spec_chunk_count(body_len as int, whi),
            count <= body_len || count == 1 && body_len >= 1,
            forall|m: int| 0 <= m < k
                ==> (#[trigger] imgs@[m])@ == spec_image_chunk(data@, whi, m),
        decreases count - k,
    {
        proof {
            // The chunk's start lies strictly inside the payload.
            assert(k * whi <= (count - 1) * whi) by (nonlinear_arith)
                requires k <= count - 1, whi >= 1;
            vstd::arithmetic::div_mod::lemma_fundamental_div_mod(body_len as int, whi);
            vstd::arithmetic::div_mod::lemma_mod_division_less_than_divisor(body_len as int, whi);
            assert((count - 1) * whi < body_len) by (nonlinear_arith)
                requires
                    count == body_len as int / whi + if body_len as int % whi != 0 { 1int } else { 0 },
                    body_len == whi * (body_len as int / whi) + body_len as int % whi,
                    0 <= body_len as int % whi < whi,
                    whi >= 1,
                    count >= 1;
            assert(k * whi >= 0) by (nonlinear_arith)
                requires k >= 0, whi >= 0;
        }
        let start: usize = 16 + k * wh;
        let stop: usize = if n - start < wh { n } else { start + wh };
        let mut chunk: Vec<u8> = Vec::new();
        let mut j: usize = start;
        while j < stop
            invariant
                16 <= start <= j <= stop <= n,
                n == data@.len(),
                chunk@.len() == j - start,
                forall|m: int| 0 <= m < j - start ==> #[trigger] chunk@[m]
                    == data@[start + m],
            decreases stop - j,
        {
            chunk.push(data[j]);
            j = j + 1;
        }
        proof {
            assert((k + 1) * whi == k * whi + whi) by (nonlinear_arith);
            assert(chunk@ =~= spec_image_chunk(data@, whi, k as int));
        }
        imgs.push(chunk);
        k = k + 1;
    }
    Some(imgs)
}

/// Splits a label-corpus byte stream into its labels: the header holds a
/// magic number and the count, and every byte after the 8-byte header is
/// one label. Returns nothing if the data cannot hold a header.
pub fn parse_idx_labels(data: &Vec<u8>) -> (r: Option<Vec<u8>>)
    ensures
        r.is_some() <==> data@.len() >= 8,
        r.is_some() ==> r.unwrap()@ == data@.skip(8),
{
    let n = data.len();
    if n < 8 {
        return None;
    }
    let mut labels: Vec<u8> = Vec::new();
    let mut j: usize = 8;
    while j < n
        invariant
            8 <= j <= n,
            n == data@.len(),
            labels@.len() == j - 8,
            forall|m: int| 0 <= m < j - 8 ==> #[trigger] labels@[m] == data@[8 + m],
        decreases n - j,
    {
        labels.push(data[j]);
        j = j + 1;
    }
    proof {
        assert(labels@ =~= data@.skip(8));
    }
    Some(labels)
}

} // verus!
