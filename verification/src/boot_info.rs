//! What the bootloader hands to the kernel: the frame buffer to draw on and
//! the colours it takes.

use vstd::prelude::*;
use crate::memory::EfiMemoryDescriptor;

verus! {

/// The layout of a frame buffer pixel.
#[derive(Copy, Clone, PartialEq, Eq, Debug, Structural)]
pub enum PixelFormat {
    RGB,
    BGR,
    BitMask,
    BltOnly,
}

/// The pixel format a firmware code stands for: 0 to 3, in the order of the
/// variants.
pub open spec fn pixel_format_of(code: u32) -> Option<PixelFormat> {
    if code == 0 {
        Some(PixelFormat::RGB)
    } else if code == 1 {
        Some(PixelFormat::BGR)
    } else if code == 2 {
        Some(PixelFormat::BitMask)
    } else if code == 3 {
        Some(PixelFormat::BltOnly)
    } else {
        None
    }
}

impl PixelFormat {
    /// The pixel format of a firmware code, if the code is one.
    pub fn from_code(code: u32) -> (r: Option<PixelFormat>)
        ensures
            r == pixel_format_of(code),
    {
        match code {
            0 => Some(PixelFormat::RGB),
            1 => Some(PixelFormat::BGR),
            2 => Some(PixelFormat::BitMask),
            3 => Some(PixelFormat::BltOnly),
            _ => None,
        }
    }
}

/// A colour that can be written to a frame buffer pixel.
pub trait Color {
    /// The pixel bytes in red, green, blue order.
    spec fn rgba_spec(&self) -> Seq<u8>;

    /// The pixel bytes in blue, green, red order.
    spec fn bgra_spec(&self) -> Seq<u8>;

    /// The pixel bytes in red, green, blue order.
    fn get_rgba(&self) -> (r: [u8; 4])
        ensures
            r@ == self.rgba_spec(),
    ;

    /// The pixel bytes in blue, green, red order.
    fn get_bgra(&self) -> (r: [u8; 4])
        ensures
            r@ == self.bgra_spec(),
    ;
}

/// A colour given by its red, green and blue components.
#[derive(Copy, Clone, PartialEq, Eq, Debug, Structural)]
pub struct RGBColor {
    pub red: u8,
    pub green: u8,
    pub blue: u8,
}

impl RGBColor {
    /// The colour with the given components.
    pub fn new(red: u8, green: u8, blue: u8) -> (r: Self)
        ensures
            r.red == red && r.green == green && r.blue == blue,
    {
        Self { red, green, blue }
    }
}

impl Color for RGBColor {
    open spec fn rgba_spec(&self) -> Seq<u8> {
        seq![self.red, self.green, self.blue, 0u8]
    }

    open spec fn bgra_spec(&self) -> Seq<u8> {
        seq![self.blue, self.green, self.red, 0u8]
    }

    fn get_rgba(&self) -> (r: [u8; 4]) {
        let r = [self.red, self.green, self.blue, 0];
        assert(r@ =~= self.rgba_spec());
        r
    }

    fn get_bgra(&self) -> (r: [u8; 4]) {
        let r = [self.blue, self.green, self.red, 0];
        assert(r@ =~= self.bgra_spec());
        r
    }
}

/// A linear frame buffer: `height` rows of `stride` pixels, of which the
/// first `width` are visible.
pub struct FrameBuffer {
    pub buffer: Vec<[u8; 4]>,
    pub stride: usize,
    pub height: usize,
    pub width: usize,
    pub pixel_format: PixelFormat,
}

impl FrameBuffer {
    /// Fills the whole buffer with `color`. Only the RGB and BGR pixel
    /// formats are supported.
    pub fn clear<C: Color>(&mut self, color: C)
        requires
            old(self).pixel_format == PixelFormat::RGB || old(self).pixel_format == PixelFormat::BGR,
        ensures
            final(self).buffer@.len() == old(self).buffer@.len(),
            final(self).stride == old(self).stride,
            final(self).height == old(self).height,
            final(self).width == old(self).width,
            final(self).pixel_format == old(self).pixel_format,
            forall|i: int|
                0 <= i < final(self).buffer@.len() ==> (#[trigger] final(self).buffer@[i])@ == if old(
                    self,
                ).pixel_format == PixelFormat::RGB {
                    color.rgba_spec()
                } else {
                    color.bgra_spec()
                },
    {
        let c = match self.pixel_format {
            PixelFormat::RGB => color.get_rgba(),
            _ => color.get_bgra(),
        };
        let mut i: usize = 0;
        let n = self.buffer.len();
        while i < n
            invariant
                n == self.buffer@.len(),
                n == old(self).buffer@.len(),
                self.stride == old(self).stride,
                self.height == old(self).height,
                self.width == old(self).width,
                self.pixel_format == old(self).pixel_format,
                c@ == if old(self).pixel_format == PixelFormat::RGB {
                    color.rgba_spec()
                } else {
                    color.bgra_spec()
                },
                i <= n,
                forall|j: int| 0 <= j < i ==> #[trigger] self.buffer@[j] == c,
            decreases n - i,
        {
            self.buffer.set(i, c);
            i = i + 1;
        }
    }
}

/// What the bootloader hands to the kernel: the frame buffer, the firmware's
/// memory map, and the address of the firmware's runtime services table.
pub struct BootInfo {
    pub framebuffer: FrameBuffer,
    pub memory_map: Vec<EfiMemoryDescriptor>,
    pub uefi_runtime_services: usize,
}

} // verus!
