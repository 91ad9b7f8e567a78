//! Opaque composition of a packed 1-bit-per-pixel source image into a packed
//! framebuffer at an arbitrary pixel offset.
//!
//! Each destination byte that the source covers is assembled from the tail of
//! the previous source byte and the head of the current one, so that a column
//! offset which is not a multiple of eight needs no per-pixel work.
use vstd::prelude::*;
use vstd::arithmetic::div_mod::{lemma_fundamental_div_mod, lemma_fundamental_div_mod_converse};
use vstd::arithmetic::mul::lemma_mul_inequality;

verus! {

/// `v >> n`, or zero once every bit has been shifted out.
pub open spec fn shr_sat(v: u8, n: u8) -> u8 {
    if n >= 8 {
        0
    } else {
        v >> n
    }
}

/// `v << n`, or zero once every bit has been shifted out.
pub open spec fn shl_sat(v: u8, n: u8) -> u8 {
    if n >= 8 {
        0
    } else {
        v << n
    }
}

/// A destination byte after composition: with `use_prev`, its leading `offset`
/// bits are taken from the tail of `prev`; with `use_cur`, its trailing
/// `8 - offset` bits are taken from the head of `cur`; other bits are kept.
pub open spec fn compose_byte(
    old: u8,
    prev: u8,
    cur: u8,
    offset: u8,
    use_prev: bool,
    use_cur: bool,
) -> u8 {
    let kept = if use_prev {
        (old & shr_sat(0xff, offset)) | shl_sat(prev, (8 - offset) as u8)
    } else {
        old
    };
    if use_cur {
        (kept & shl_sat(0xff, (8 - offset) as u8)) | shr_sat(cur, offset)
    } else {
        kept
    }
}

/// Index of the source byte that group `i` of row `j` starts from, for a source
/// `w` pixels wide.
pub open spec fn source_index(i: int, j: int, w: int) -> int {
    i + j * w / 8
}

/// Whether byte group `i` of a row writes to the destination: every whole
/// source byte does, and one more group carries the tail of the last whole byte
/// when the destination column is not byte-aligned.
pub open spec fn group_active(i: int, w: int, offset: int) -> bool {
    0 <= i && (i < w / 8 || (i == w / 8 && i != 0 && offset != 0))
}

/// Bytes in one source row.
pub open spec fn source_stride(w: int) -> int {
    (w + 7) / 8
}

/// The value of byte `k` of `frame` (rows `fw` pixels wide) once the `w`×`h`
/// source `src` has been drawn with its top-left corner at `(x, y)`.
pub open spec fn blit_byte(
    frame: Seq<u8>,
    fw: int,
    src: Seq<u8>,
    x: int,
    y: int,
    w: int,
    h: int,
    k: int,
) -> u8 {
    let stride = fw / 8;
    if stride <= 0 {
        frame[k]
    } else {
        let j = k / stride - y;
        let i = k % stride - x / 8;
        let offset = x % 8;
        if 0 <= j < h && group_active(i, w, offset) {
            let s = source_index(i, j, w);
            compose_byte(frame[k], src[s - 1], src[s], offset as u8, i != 0 && offset != 0, i < w / 8)
        } else {
            frame[k]
        }
    }
}

/// `frame` once the source has been drawn into it.
pub open spec fn blitted(
    frame: Seq<u8>,
    fw: int,
    src: Seq<u8>,
    x: int,
    y: int,
    w: int,
    h: int,
) -> Seq<u8> {
    Seq::new(frame.len(), |k: int| blit_byte(frame, fw, src, x, y, w, h, k))
}

fn compose(old: u8, prev: u8, cur: u8, offset: u8, use_prev: bool, use_cur: bool) -> (r: u8)
    requires
        offset < 8,
        use_prev ==> offset != 0,
    ensures
        r == compose_byte(old, prev, cur, offset, use_prev, use_cur),
{
    let mut b: u8 = old;
    if use_prev {
        b = (b & (0xffu8 >> offset)) | (prev << (8 - offset));
    }
    if use_cur {
        let keep: u8 = if offset == 0 {
            0
        } else {
            0xffu8 << (8 - offset)
        };
        b = (b & keep) | (cur >> offset);
    }
    b
}

/// A byte group that writes lies within its destination row.
proof fn lemma_active_group_in_row(x: int, w: int, fw: int, i: int)
    requires
        0 <= x,
        0 <= w,
        x + w <= fw,
        fw % 8 == 0,
        group_active(i, w, x % 8),
    ensures
        x / 8 + i < fw / 8,
{
    if i == w / 8 {
        assert((x + 8 * i) / 8 == x / 8 + i);
        assert((x + 8 * i) % 8 == x % 8);
    }
}

/// Byte `col` of row `row` sits at `row * stride + col`, and nowhere else.
proof fn lemma_row_col(row: int, col: int, stride: int)
    requires
        0 <= col < stride,
    ensures
        (row * stride + col) / stride == row,
        (row * stride + col) % stride == col,
{
    lemma_fundamental_div_mod_converse(row * stride + col, stride, row, col);
}

/// The source bytes that group `i` of row `j` reads lie within a source of
/// `source_stride(w) * h` bytes.
proof fn lemma_source_in_bounds(i: int, j: int, w: int, h: int)
    requires
        0 <= j < h,
        0 <= w,
        1 <= i <= w / 8 || 0 <= i < w / 8,
    ensures
        0 <= j * w / 8,
        source_index(i, j, w) - (if i < w / 8 { 0int } else { 1int }) < source_stride(w) * h,
{
    let s = source_stride(w);
    assert(w <= 8 * s);
    assert(j * w <= j * (8 * s)) by (nonlinear_arith)
        requires
            w <= 8 * s,
            0 <= j,
    ;
    assert(j * (8 * s) == 8 * (j * s)) by (nonlinear_arith);
    assert(j * w / 8 <= j * s);
    assert(0 <= j * w) by (nonlinear_arith)
        requires
            0 <= j,
            0 <= w,
    ;
    assert(w / 8 <= s);
    lemma_mul_inequality(j + 1, h, s);
    assert((j + 1) * s == j * s + s) by (nonlinear_arith);
}

/// Composing a byte a second time with the same source bytes changes nothing.
pub proof fn lemma_compose_idempotent(
    old: u8,
    prev: u8,
    cur: u8,
    offset: u8,
    use_prev: bool,
    use_cur: bool,
)
    by (bit_vector)
    requires
        offset < 8,
        use_prev ==> offset != 0,
    ensures
        compose_byte(
            compose_byte(old, prev, cur, offset, use_prev, use_cur),
            prev,
            cur,
            offset,
            use_prev,
            use_cur,
        ) == compose_byte(old, prev, cur, offset, use_prev, use_cur),
{
}

/// Drawing the same source at the same place twice leaves the frame as drawing
/// it once: opaque drawing overwrites, it does not accumulate.
pub proof fn lemma_blit_idempotent(
    frame: Seq<u8>,
    fw: int,
    src: Seq<u8>,
    x: int,
    y: int,
    w: int,
    h: int,
)
    requires
        0 <= x,
        0 <= w,
    ensures
        blitted(blitted(frame, fw, src, x, y, w, h), fw, src, x, y, w, h) == blitted(
            frame,
            fw,
            src,
            x,
            y,
            w,
            h,
        ),
{
    let once = blitted(frame, fw, src, x, y, w, h);
    let twice = blitted(once, fw, src, x, y, w, h);
    assert forall|k: int| 0 <= k < frame.len() implies twice[k] == once[k] by {
        let stride = fw / 8;
        if stride > 0 {
            let j = k / stride - y;
            let i = k % stride - x / 8;
            let offset = x % 8;
            if 0 <= j < h && group_active(i, w, offset) {
                let s = source_index(i, j, w);
                lemma_compose_idempotent(
                    frame[k],
                    src[s - 1],
                    src[s],
                    offset as u8,
                    i != 0 && offset != 0,
                    i < w / 8,
                );
            }
        }
    }
    assert(twice =~= once);
}

/// Draws the `w`×`h` source `src` into `frame`, whose rows are `fw` pixels wide,
/// with the source's top-left corner at `(x, y)`; source bits overwrite the
/// destination bits they cover.
pub fn blit_opaque(frame: &mut Vec<u8>, fw: u16, src: &[u8], x: u16, y: u16, w: u16, h: u16)
    requires
        fw % 8 == 0,
        x + w <= fw,
        (y + h) * (fw / 8) <= old(frame)@.len(),
        src@.len() == source_stride(w as int) * h,
    ensures
        final(frame)@ == blitted(old(frame)@, fw as int, src@, x as int, y as int, w as int, h as int),
{
    let ghost orig = frame@;
    let ghost len = orig.len();
    let frame_len: usize = frame.len();
    let src_len: usize = src.len();
    let stride: usize = (fw / 8) as usize;
    let groups: u16 = w / 8 + 1;
    let offset: u8 = (x % 8) as u8;
    let mut j: u16 = 0;
    while j < h
        invariant
            frame@.len() == len,
            len == orig.len(),
            len == frame_len,
            src_len == src@.len(),
            fw % 8 == 0,
            x + w <= fw,
            (y + h) * (fw / 8) <= len,
            src@.len() == source_stride(w as int) * h,
            stride == fw / 8,
            groups == w / 8 + 1,
            offset == x % 8,
            0 <= j <= h,
            forall|k: int|
                0 <= k < len ==> #[trigger] frame@[k] == if stride > 0 && k / (stride as int) < y
                    + j {
                    blit_byte(orig, fw as int, src@, x as int, y as int, w as int, h as int, k)
                } else {
                    orig[k]
                },
        decreases h - j,
    {
        proof {
            lemma_mul_inequality((y + j + 1) as int, (y + h) as int, stride as int);
            assert(((y + j + 1) as int) * (stride as int) == (y + j) * (stride as int) + stride)
                by (nonlinear_arith);
            assert((y + j) * (stride as int) + stride <= len);
            assert((j as int) * (w as int) <= 65535 * 65535) by (nonlinear_arith)
                requires
                    j <= 65535,
                    w <= 65535,
            ;
        }
        let row: usize = (y as usize + j as usize) * stride;
        let src_row: usize = ((j as u32) * (w as u32) / 8) as usize;
        let mut i: u16 = 0;
        while i < groups
            invariant
                frame@.len() == len,
                len == orig.len(),
                len == frame_len,
                src_len == src@.len(),
            src_len == src@.len(),
            len == orig.len(),
            len == frame_len,
            src_len == src@.len(),
                fw % 8 == 0,
                x + w <= fw,
                (y + h) * (fw / 8) <= len,
                src@.len() == source_stride(w as int) * h,
                stride == fw / 8,
                groups == w / 8 + 1,
                offset == x % 8,
                0 <= j < h,
                0 <= i <= groups,
                row == (y + j) * stride,
                row + stride <= len,
                src_row == j * w / 8,
                forall|k: int|
                    0 <= k < len ==> #[trigger] frame@[k] == if stride > 0 && (k / (stride as int)
                        < y + j || (k / (stride as int) == y + j && k % (stride as int) < x / 8
                        + i)) {
                        blit_byte(orig, fw as int, src@, x as int, y as int, w as int, h as int, k)
                    } else {
                        orig[k]
                    },
            decreases groups - i,
        {
            let use_prev = i != 0 && offset != 0;
            let use_cur = i < w / 8;
            let ghost old_frame = frame@;
            if use_prev || use_cur {
                proof {
                    lemma_active_group_in_row(x as int, w as int, fw as int, i as int);
                    lemma_source_in_bounds(i as int, j as int, w as int, h as int);
                    assert(src_row + i <= src@.len());
                }
                let col: usize = (x / 8) as usize + i as usize;
                let k0: usize = row + col;
                let s: usize = src_row + i as usize;
                let prev: u8 = if use_prev {
                    src[s - 1]
                } else {
                    0
                };
                let cur: u8 = if use_cur {
                    src[s]
                } else {
                    0
                };
                let b = compose(frame[k0], prev, cur, offset, use_prev, use_cur);
                proof {
                    lemma_row_col((y + j) as int, col as int, stride as int);
                    assert(frame@[k0 as int] == orig[k0 as int]);
                    assert(b == blit_byte(
                        orig,
                        fw as int,
                        src@,
                        x as int,
                        y as int,
                        w as int,
                        h as int,
                        k0 as int,
                    ));
                }
                frame.set(k0, b);
                proof {
                    assert forall|k: int| 0 <= k < len && k != k0 implies #[trigger] frame@[k]
                        == old_frame[k] && ((k / (stride as int) == y + j && k % (stride as int)
                        < x / 8 + i + 1) ==> k % (stride as int) < x / 8 + i) by {
                        lemma_fundamental_div_mod(k, stride as int);
                        if k / (stride as int) == y + j && k % (stride as int) == x / 8 + i {
                            assert(k == (stride as int) * (y + j) + col);
                            assert((stride as int) * (y + j) == (y + j) * (stride as int))
                                by (nonlinear_arith);
                        }
                    }
                }
            }
            i = i + 1;
        }
        j = j + 1;
    }
    assert(frame@ =~= blitted(orig, fw as int, src@, x as int, y as int, w as int, h as int));
}

} // verus!
