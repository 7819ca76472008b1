//! The size bookkeeping of a window's drawing surface, and the format and
//! presentation mode it is configured with.
use vstd::prelude::*;
use wgpu::{PresentMode, TextureFormat};

verus! {

#[verifier::external_type_specification]
#[verifier::external_body]
pub struct ExTextureFormat(TextureFormat);

#[verifier::external_type_specification]
#[verifier::external_body]
pub struct ExPresentMode(PresentMode);

/// Whether `wgpu::TextureFormat::is_srgb` holds of `format`.
pub uninterp spec fn srgb_format(format: TextureFormat) -> bool;

/// Whether `mode` is `wgpu::PresentMode::Fifo`, by its derived `==`.
pub uninterp spec fn fifo_mode(mode: PresentMode) -> bool;

/// `wgpu::TextureFormat::is_srgb`: whether the format stores sRGB-encoded
/// colour.
#[verifier::external_body]
fn format_is_srgb(format: &TextureFormat) -> (res: bool)
    ensures
        res == srgb_format(*format),
{
    format.is_srgb()
}

/// `mode == wgpu::PresentMode::Fifo`, by the derived `PartialEq` of
/// `PresentMode`.
#[verifier::external_body]
fn mode_is_fifo(mode: &PresentMode) -> (res: bool)
    ensures
        res == fifo_mode(*mode),
{
    *mode == PresentMode::Fifo
}

/// `i` is the index of the first sRGB format, or 0 when none is.
pub open spec fn first_srgb_or_zero(formats: Seq<TextureFormat>, i: int) -> bool {
    &&& 0 <= i < formats.len()
    &&& (exists|j: int| 0 <= j < formats.len() && #[trigger] srgb_format(formats[j])) ==> {
        &&& srgb_format(formats[i])
        &&& forall|j: int| 0 <= j < i ==> !#[trigger] srgb_format(formats[j])
    }
    &&& !(exists|j: int| 0 <= j < formats.len() && #[trigger] srgb_format(formats[j])) ==> i == 0
}

/// `i` is the index of the first Fifo mode, or 0 when none is.
pub open spec fn first_fifo_or_zero(modes: Seq<PresentMode>, i: int) -> bool {
    &&& 0 <= i < modes.len()
    &&& (exists|j: int| 0 <= j < modes.len() && #[trigger] fifo_mode(modes[j])) ==> {
        &&& fifo_mode(modes[i])
        &&& forall|j: int| 0 <= j < i ==> !#[trigger] fifo_mode(modes[j])
    }
    &&& !(exists|j: int| 0 <= j < modes.len() && #[trigger] fifo_mode(modes[j])) ==> i == 0
}

/// Index of the first sRGB format, or 0 when none is.
fn first_srgb(formats: &Vec<TextureFormat>) -> (res: usize)
    requires
        formats.len() > 0,
    ensures
        first_srgb_or_zero(formats@, res as int),
{
    let mut i: usize = 0;
    while i < formats.len()
        invariant
            i <= formats@.len(),
            forall|j: int| 0 <= j < i ==> !srgb_format(#[trigger] formats@[j]),
        decreases formats@.len() - i,
    {
        if format_is_srgb(&formats[i]) {
            return i;
        }
        i = i + 1;
    }
    0
}

/// Index of the first Fifo mode, or 0 when none is.
fn first_fifo(modes: &Vec<PresentMode>) -> (res: usize)
    requires
        modes.len() > 0,
    ensures
        first_fifo_or_zero(modes@, res as int),
{
    let mut i: usize = 0;
    while i < modes.len()
        invariant
            i <= modes@.len(),
            forall|j: int| 0 <= j < i ==> !fifo_mode(#[trigger] modes@[j]),
        decreases modes@.len() - i,
    {
        if mode_is_fifo(&modes[i]) {
            return i;
        }
        i = i + 1;
    }
    0
}

/// Which of the surface's offered formats and presentation modes to
/// configure it with, as indices: the first sRGB format (else the first
/// format), and Fifo, the display's refresh rate, when offered (else the
/// first mode).
pub fn choose_surface_setup(formats: &Vec<TextureFormat>, modes: &Vec<PresentMode>) -> (res: (usize, usize))
    requires
        formats.len() > 0,
        modes.len() > 0,
    ensures
        first_srgb_or_zero(formats@, res.0 as int),
        first_fifo_or_zero(modes@, res.1 as int),
{
    (first_srgb(formats), first_fifo(modes))
}

/// The configured surface size and the window resolution last seen.
pub struct SurfaceSize {
    pub width: u32,
    pub height: u32,
    pub is_surface_configured: bool,
    pub window_res: [u32; 2],
}

impl SurfaceSize {
    /// A surface configured at `width` by `height`.
    pub fn new(width: u32, height: u32) -> (res: Self)
        ensures
            res.width == width,
            res.height == height,
            res.is_surface_configured,
            res.window_res@ == seq![width, height],
    {
        SurfaceSize { width, height, is_surface_configured: true, window_res: [width, height] }
    }

    /// Takes a new window size; a size with a zero side is ignored. Returns
    /// whether the surface has to be configured again.
    pub fn resize(&mut self, width: u32, height: u32) -> (res: bool)
        ensures
            res == (width > 0 && height > 0),
            res ==> {
                &&& final(self).width == width
                &&& final(self).height == height
                &&& final(self).is_surface_configured
                &&& final(self).window_res@ == seq![width, height]
            },
            !res ==> *final(self) == *old(self),
    {
        if width > 0 && height > 0 {
            self.width = width;
            self.height = height;
            self.is_surface_configured = true;
            self.window_res = [width, height];
            assert(self.window_res@ =~= seq![width, height]);
            true
        } else {
            false
        }
    }
}

} // verus!
