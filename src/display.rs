//! The SSD1680 display state: a fixed-capacity packed framebuffer, the active
//! panel geometry and the refresh scheduler.
use vstd::prelude::*;
use vstd::arithmetic::mul::lemma_mul_inequality;
use crate::TransparencySetting;
use crate::address::{byte_index, bit_offset, get_address, lemma_address_in_row};
use crate::blit::{blit_opaque, blitted, source_stride};
use crate::refresh::{ControllerStep, RefreshScheduler, count_after_step, step_after};

verus! {

/// Framebuffer capacity in bytes: one bit per pixel of the largest SSD1680
/// panel, 176 by 296 pixels.
pub const FRAME_BUFFER_SIZE: usize = 6512;

/// Why a framebuffer operation was refused.
#[derive(Clone, Copy, PartialEq, Eq, Debug, Structural)]
pub enum DisplayError {
    /// A buffer's length does not match the dimensions it is meant to have.
    SizeMismatch,
    /// A coordinate or size reaches past the panel.
    OutOfBounds,
    /// Only opaque drawing is supported.
    UnsupportedTransparency,
}

/// The byte that `fill` writes everywhere.
pub open spec fn fill_byte(color: bool) -> u8 {
    if color {
        0xff
    } else {
        0
    }
}

/// `b` with bit `offset` set to `color`.
pub open spec fn with_bit(b: u8, offset: u8, color: bool) -> u8 {
    if color {
        b | (1u8 << offset)
    } else {
        b & !(1u8 << offset)
    }
}

/// Whether bit `offset` of `b` is set.
pub open spec fn bit_set(b: u8, offset: u8) -> bool {
    b & (1u8 << offset) != 0
}

/// The colour of pixel `(x, y)` in `frame`, whose rows are `width` pixels wide.
pub open spec fn pixel_at(frame: Seq<u8>, width: int, x: int, y: int) -> bool {
    bit_set(frame[byte_index(x, y, width)], bit_offset(x) as u8)
}

/// The bits of a byte: setting one leaves the others as they were.
pub proof fn lemma_with_bit(b: u8, offset: u8, other: u8, color: bool)
    by (bit_vector)
    requires
        offset < 8,
        other < 8,
        other != offset,
    ensures
        bit_set(with_bit(b, offset, color), offset) == color,
        bit_set(with_bit(b, offset, color), other) == bit_set(b, other),
{
}

/// Every bit of a filled byte has the fill colour.
pub proof fn lemma_fill_byte(color: bool, offset: u8)
    by (bit_vector)
    requires
        offset < 8,
    ensures
        bit_set(fill_byte(color), offset) == color,
{
}

/// An SSD1680 display as the library sees it: its framebuffer, the active
/// panel size and the refresh counter. The controller itself is driven by the
/// caller, one step at a time, as the refresh scheduler directs.
pub struct Ssd1680Display {
    frame_buffer: Vec<u8>,
    width: u16,
    height: u16,
    refresh: RefreshScheduler,
}

impl Ssd1680Display {
    /// The framebuffer, all of its capacity.
    pub closed spec fn frame(&self) -> Seq<u8> {
        self.frame_buffer@
    }

    pub closed spec fn panel_width(&self) -> u16 {
        self.width
    }

    pub closed spec fn panel_height(&self) -> u16 {
        self.height
    }

    pub closed spec fn scheduler(&self) -> RefreshScheduler {
        self.refresh
    }

    /// Bytes of the framebuffer that the active panel uses.
    pub open spec fn active_len_spec(&self) -> int {
        (self.panel_width() / 8) * self.panel_height()
    }

    pub open spec fn wf(&self) -> bool {
        &&& self.frame().len() == FRAME_BUFFER_SIZE
        &&& self.panel_width() % 8 == 0
        &&& self.active_len_spec() <= FRAME_BUFFER_SIZE
        &&& self.scheduler().wf()
    }

    /// Everything but the framebuffer is as in `other`.
    pub open spec fn same_setup(&self, other: &Self) -> bool {
        &&& self.panel_width() == other.panel_width()
        &&& self.panel_height() == other.panel_height()
        &&& self.scheduler() == other.scheduler()
    }

    /// A black display of `width` by `height` pixels whose first refresh will be
    /// a full one.
    pub fn new(width: u16, height: u16) -> (d: Self)
        requires
            width % 8 == 0,
            (width / 8) * height <= FRAME_BUFFER_SIZE,
        ensures
            d.wf(),
            d.panel_width() == width,
            d.panel_height() == height,
            d.frame() == Seq::new(FRAME_BUFFER_SIZE as nat, |k: int| 0u8),
            d.scheduler().count() == crate::refresh::INITIAL_REFRESH_COUNT,
            d.scheduler().pending() is None,
    {
        let mut frame_buffer: Vec<u8> = Vec::new();
        let mut k: usize = 0;
        while k < FRAME_BUFFER_SIZE
            invariant
                k <= FRAME_BUFFER_SIZE,
                frame_buffer@ == Seq::new(k as nat, |i: int| 0u8),
            decreases FRAME_BUFFER_SIZE - k,
        {
            frame_buffer.push(0);
            k = k + 1;
            assert(frame_buffer@ =~= Seq::new(k as nat, |i: int| 0u8));
        }
        Ssd1680Display { frame_buffer, width, height, refresh: RefreshScheduler::new() }
    }

    pub fn width(&self) -> (r: u16)
        ensures
            r == self.panel_width(),
    {
        self.width
    }

    pub fn height(&self) -> (r: u16)
        ensures
            r == self.panel_height(),
    {
        self.height
    }

    /// Partial refreshes since the last full one.
    pub fn refresh_count(&self) -> (r: u8)
        ensures
            r == self.scheduler().count(),
    {
        self.refresh.refresh_count()
    }

    /// The whole framebuffer.
    pub fn buffer(&self) -> (r: &[u8])
        ensures
            r@ == self.frame(),
    {
        self.frame_buffer.as_slice()
    }

    /// Bytes of the framebuffer that the panel shows, counted from the start:
    /// `width * height / 8`.
    pub fn active_len(&self) -> (r: usize)
        requires
            self.wf(),
        ensures
            r == self.active_len_spec(),
            r <= FRAME_BUFFER_SIZE,
    {
        (self.width / 8) as usize * self.height as usize
    }

    /// The colour of pixel `(x, y)`.
    pub fn pixel(&self, x: u16, y: u16) -> (r: bool)
        requires
            self.wf(),
            x < self.panel_width(),
            y < self.panel_height(),
        ensures
            r == pixel_at(self.frame(), self.panel_width() as int, x as int, y as int),
    {
        proof {
            self.lemma_pixel_in_frame(x as int, y as int);
        }
        let a = get_address(x, y, self.width);
        self.frame_buffer[a.buffer_position] & (1u8 << a.byte_offset) != 0
    }

    /// Every pixel of the panel lies within the framebuffer.
    pub proof fn lemma_pixel_in_frame(&self, x: int, y: int)
        requires
            self.wf(),
            0 <= x < self.panel_width(),
            0 <= y < self.panel_height(),
        ensures
            0 <= byte_index(x, y, self.panel_width() as int) < FRAME_BUFFER_SIZE,
    {
        let w = self.panel_width() as int;
        lemma_address_in_row(x, y, w);
        lemma_mul_inequality(y + 1, self.panel_height() as int, w / 8);
        assert((self.panel_height() as int) * (w / 8) == (w / 8) * (self.panel_height() as int))
            by (nonlinear_arith);
        assert(0 <= y * (w / 8)) by (nonlinear_arith)
            requires
                0 <= y,
                0 <= w / 8,
        ;
    }

    /// Sets pixel `(x, y)` to `color`; only the bit of that pixel changes.
    pub fn set_pixel(&mut self, x: u16, y: u16, color: bool) -> (r: Result<(), DisplayError>)
        requires
            old(self).wf(),
        ensures
            final(self).wf(),
            final(self).same_setup(old(self)),
            x >= old(self).panel_width() || y >= old(self).panel_height() ==> r == Err::<
                (),
                DisplayError,
            >(DisplayError::OutOfBounds) && final(self).frame() == old(self).frame(),
            x < old(self).panel_width() && y < old(self).panel_height() ==> {
                let w = old(self).panel_width() as int;
                let k = byte_index(x as int, y as int, w);
                &&& r is Ok
                &&& final(self).frame() == old(self).frame().update(
                    k,
                    with_bit(old(self).frame()[k], bit_offset(x as int) as u8, color),
                )
                &&& pixel_at(final(self).frame(), w, x as int, y as int) == color
                &&& forall|x2: int|
                    0 <= x2 < w && x2 / 8 == x / 8 && x2 != x ==> #[trigger] pixel_at(
                        final(self).frame(),
                        w,
                        x2,
                        y as int,
                    ) == pixel_at(old(self).frame(), w, x2, y as int)
            },
    {
        if x >= self.width || y >= self.height {
            return Err(DisplayError::OutOfBounds);
        }
        proof {
            self.lemma_pixel_in_frame(x as int, y as int);
        }
        let a = get_address(x, y, self.width);
        let b = self.frame_buffer[a.buffer_position];
        let mask: u8 = 1u8 << a.byte_offset;
        let nb: u8 = if color {
            b | mask
        } else {
            b & !mask
        };
        self.frame_buffer.set(a.buffer_position, nb);
        proof {
            let w = self.width as int;
            assert forall|x2: int|
                0 <= x2 < w && x2 / 8 == x / 8 && x2 != x implies #[trigger] pixel_at(
                self.frame(),
                w,
                x2,
                y as int,
            ) == pixel_at(old(self).frame(), w, x2, y as int) by {
                assert(byte_index(x2, y as int, w) == byte_index(x as int, y as int, w));
                lemma_with_bit(b, a.byte_offset, (x2 % 8) as u8, color);
            }
            lemma_with_bit(b, a.byte_offset, ((a.byte_offset + 1) % 8) as u8, color);
        }
        Ok(())
    }

    /// Sets every pixel of the framebuffer to `color`.
    pub fn fill(&mut self, color: bool) -> (r: Result<(), DisplayError>)
        requires
            old(self).wf(),
        ensures
            final(self).wf(),
            final(self).same_setup(old(self)),
            r is Ok,
            final(self).frame() == Seq::new(FRAME_BUFFER_SIZE as nat, |k: int| fill_byte(color)),
            forall|x: int, y: int|
                0 <= x < old(self).panel_width() && 0 <= y < old(self).panel_height()
                    ==> #[trigger] pixel_at(final(self).frame(), old(self).panel_width() as int, x, y)
                    == color,
    {
        let v: u8 = if color {
            0xff
        } else {
            0
        };
        let mut k: usize = 0;
        while k < FRAME_BUFFER_SIZE
            invariant
                old(self).wf(),
                self.same_setup(old(self)),
                self.frame().len() == FRAME_BUFFER_SIZE,
                v == fill_byte(color),
                k <= FRAME_BUFFER_SIZE,
                forall|i: int| 0 <= i < k ==> #[trigger] self.frame()[i] == v,
            decreases FRAME_BUFFER_SIZE - k,
        {
            self.frame_buffer.set(k, v);
            k = k + 1;
        }
        proof {
            assert(self.frame() =~= Seq::new(FRAME_BUFFER_SIZE as nat, |k: int| fill_byte(color)));
            assert forall|x: int, y: int|
                0 <= x < old(self).panel_width() && 0 <= y
                    < old(self).panel_height() implies #[trigger] pixel_at(
                self.frame(),
                old(self).panel_width() as int,
                x,
                y,
            ) == color by {
                self.lemma_pixel_in_frame(x, y);
                lemma_fill_byte(color, (x % 8) as u8);
            }
        }
        Ok(())
    }

    /// Replaces the framebuffer with `buffer`, which must be exactly as long.
    pub fn set_buffer(&mut self, buffer: &[u8]) -> (r: Result<(), DisplayError>)
        requires
            old(self).wf(),
        ensures
            final(self).wf(),
            final(self).same_setup(old(self)),
            buffer@.len() == FRAME_BUFFER_SIZE ==> r is Ok && final(self).frame() == buffer@,
            buffer@.len() != FRAME_BUFFER_SIZE ==> r == Err::<(), DisplayError>(
                DisplayError::SizeMismatch,
            ) && final(self).frame() == old(self).frame(),
    {
        if buffer.len() != FRAME_BUFFER_SIZE {
            return Err(DisplayError::SizeMismatch);
        }
        let mut k: usize = 0;
        while k < FRAME_BUFFER_SIZE
            invariant
                old(self).wf(),
                self.same_setup(old(self)),
                self.frame().len() == FRAME_BUFFER_SIZE,
                buffer@.len() == FRAME_BUFFER_SIZE,
                k <= FRAME_BUFFER_SIZE,
                forall|i: int| 0 <= i < k ==> #[trigger] self.frame()[i] == buffer@[i],
            decreases FRAME_BUFFER_SIZE - k,
        {
            self.frame_buffer.set(k, buffer[k]);
            k = k + 1;
        }
        assert(self.frame() =~= buffer@);
        Ok(())
    }

    /// Draws the `w`×`h` packed source `buffer` with its top-left corner at
    /// `(x, y)`, overwriting the pixels it covers.
    pub fn draw_buffer(&mut self, buffer: &[u8], x: u16, y: u16, w: u16, h: u16) -> (r: Result<
        (),
        DisplayError,
    >)
        requires
            old(self).wf(),
        ensures
            final(self).wf(),
            final(self).same_setup(old(self)),
            r == draw_outcome(
                old(self).panel_width(),
                old(self).panel_height(),
                buffer@.len(),
                x,
                y,
                w,
                h,
                TransparencySetting::Opaque,
            ),
            r is Ok ==> final(self).frame() == blitted(
                old(self).frame(),
                old(self).panel_width() as int,
                buffer@,
                x as int,
                y as int,
                w as int,
                h as int,
            ),
            r is Err ==> final(self).frame() == old(self).frame(),
    {
        self.draw_buffer_with_transparency(buffer, x, y, w, h, TransparencySetting::Opaque)
    }

    /// Draws the `w`×`h` packed source `buffer` with its top-left corner at
    /// `(x, y)`. Only opaque drawing is supported: any other setting is refused
    /// and the framebuffer left as it is.
    pub fn draw_buffer_with_transparency(
        &mut self,
        buffer: &[u8],
        x: u16,
        y: u16,
        w: u16,
        h: u16,
        transparency: TransparencySetting,
    ) -> (r: Result<(), DisplayError>)
        requires
            old(self).wf(),
        ensures
            final(self).wf(),
            final(self).same_setup(old(self)),
            r == draw_outcome(
                old(self).panel_width(),
                old(self).panel_height(),
                buffer@.len(),
                x,
                y,
                w,
                h,
                transparency,
            ),
            r is Ok ==> final(self).frame() == blitted(
                old(self).frame(),
                old(self).panel_width() as int,
                buffer@,
                x as int,
                y as int,
                w as int,
                h as int,
            ),
            r is Err ==> final(self).frame() == old(self).frame(),
    {
        if transparency != TransparencySetting::Opaque {
            return Err(DisplayError::UnsupportedTransparency);
        }
        if x as u32 + w as u32 > self.width as u32 || y as u32 + h as u32 > self.height as u32 {
            return Err(DisplayError::OutOfBounds);
        }
        let stride: u32 = (w as u32 + 7) / 8;
        proof {
            assert((stride as int) * (h as int) <= 8192 * 65535) by (nonlinear_arith)
                requires
                    stride <= 8192,
                    h <= 65535,
            ;
        }
        if buffer.len() != (stride * h as u32) as usize {
            return Err(DisplayError::SizeMismatch);
        }
        proof {
            lemma_mul_inequality((y + h) as int, self.height as int, (self.width / 8) as int);
            assert((self.height as int) * ((self.width / 8) as int) == self.active_len_spec())
                by (nonlinear_arith);
        }
        blit_opaque(&mut self.frame_buffer, self.width, buffer, x, y, w, h);
        Ok(())
    }

    /// Starts a refresh of the panel: the caller now initialises the controller
    /// and reports the outcome to `finish_refresh_step`.
    pub fn begin_refresh(&mut self, force_full: bool) -> (r: ControllerStep)
        requires
            old(self).wf(),
        ensures
            final(self).wf(),
            final(self).frame() == old(self).frame(),
            final(self).panel_width() == old(self).panel_width(),
            final(self).panel_height() == old(self).panel_height(),
            r == ControllerStep::HardwareInit,
            final(self).scheduler().pending() == Some(ControllerStep::HardwareInit),
            final(self).scheduler().forced() == force_full,
            final(self).scheduler().count() == old(self).scheduler().count(),
    {
        self.refresh.begin(force_full)
    }

    /// Records whether the pending controller step succeeded and returns the
    /// next one, or `None` once the refresh is over. The frame to write is the
    /// first `active_len` bytes of `buffer`. A failed step ends the refresh:
    /// nothing more is asked of the controller.
    pub fn finish_refresh_step(&mut self, succeeded: bool) -> (r: Option<ControllerStep>)
        requires
            old(self).wf(),
        ensures
            final(self).wf(),
            final(self).frame() == old(self).frame(),
            final(self).panel_width() == old(self).panel_width(),
            final(self).panel_height() == old(self).panel_height(),
            final(self).scheduler().pending() == r,
            final(self).scheduler().forced() == old(self).scheduler().forced(),
            !succeeded ==> r is None
                && final(self).scheduler().count() == old(self).scheduler().count(),
            old(self).scheduler().pending() is None ==> r is None
                && final(self).scheduler().count() == old(self).scheduler().count(),
            succeeded && old(self).scheduler().pending() is Some ==> {
                let step = old(self).scheduler().pending()->Some_0;
                &&& r == step_after(
                    step,
                    old(self).scheduler().count(),
                    old(self).scheduler().forced(),
                )
                &&& final(self).scheduler().count() == count_after_step(
                    step,
                    old(self).scheduler().count(),
                )
            },
    {
        self.refresh.finish(succeeded)
    }
}

/// What drawing a source of `len` bytes, `w`×`h` pixels, at `(x, y)` on a
/// `width`×`height` panel returns.
pub open spec fn draw_outcome(
    width: u16,
    height: u16,
    len: nat,
    x: u16,
    y: u16,
    w: u16,
    h: u16,
    transparency: TransparencySetting,
) -> Result<(), DisplayError> {
    if transparency != TransparencySetting::Opaque {
        Err(DisplayError::UnsupportedTransparency)
    } else if x + w > width || y + h > height {
        Err(DisplayError::OutOfBounds)
    } else if len != source_stride(w as int) * h {
        Err(DisplayError::SizeMismatch)
    } else {
        Ok(())
    }
}

} // verus!
