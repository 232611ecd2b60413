//! What a request transformation reports: which parts were rewritten, the
//! size of the rendered images, and token estimates.

use vstd::prelude::*;
use crate::render::{Png, PngImage, images};

verus! {

/// Report of one request transformation.
#[derive(Debug, Clone)]
pub struct TransformInfo {
    pub compressed: bool,
    pub tool_text_added: usize,
    pub schemas_compressed: usize,
    pub system_text_chars: usize,
    /// Eight lower-case hex digits of the system text's SHA-256.
    pub system_text_sha8: Vec<u8>,
    pub images: usize,
    pub png_bytes: usize,
    pub total_pixels: u64,
    pub expected_image_tokens: u64,
    pub text_tokens_estimate: u64,
    pub reminder_imgs: usize,
    pub tool_result_imgs: usize,
    pub cc_breakpoints_added: u32,
    /// Why the request was left as it was, when it was skipped.
    pub skipped: Option<Vec<u8>>,
    /// Width and height of each system image.
    pub dims: Vec<(u32, u32)>,
}

/// Abstract value of a `TransformInfo`.
pub struct InfoV {
    pub compressed: bool,
    pub tool_text_added: usize,
    pub schemas_compressed: usize,
    pub system_text_chars: usize,
    pub system_text_sha8: Seq<u8>,
    pub images: usize,
    pub png_bytes: usize,
    pub total_pixels: u64,
    pub expected_image_tokens: u64,
    pub text_tokens_estimate: u64,
    pub reminder_imgs: usize,
    pub tool_result_imgs: usize,
    pub cc_breakpoints_added: u32,
    pub skipped: Option<Seq<u8>>,
    pub dims: Seq<(u32, u32)>,
}

impl View for TransformInfo {
    type V = InfoV;

    open spec fn view(&self) -> InfoV {
        InfoV {
            compressed: self.compressed,
            tool_text_added: self.tool_text_added,
            schemas_compressed: self.schemas_compressed,
            system_text_chars: self.system_text_chars,
            system_text_sha8: self.system_text_sha8@,
            images: self.images,
            png_bytes: self.png_bytes,
            total_pixels: self.total_pixels,
            expected_image_tokens: self.expected_image_tokens,
            text_tokens_estimate: self.text_tokens_estimate,
            reminder_imgs: self.reminder_imgs,
            tool_result_imgs: self.tool_result_imgs,
            cc_breakpoints_added: self.cc_breakpoints_added,
            skipped: match self.skipped {
                Some(s) => Some(s@),
                None => None,
            },
            dims: self.dims@,
        }
    }
}

/// The empty report: nothing rewritten, all counts zero.
pub open spec fn empty_info() -> InfoV {
    InfoV {
        compressed: false,
        tool_text_added: 0,
        schemas_compressed: 0,
        system_text_chars: 0,
        system_text_sha8: Seq::empty(),
        images: 0,
        png_bytes: 0,
        total_pixels: 0,
        expected_image_tokens: 0,
        text_tokens_estimate: 0,
        reminder_imgs: 0,
        tool_result_imgs: 0,
        cc_breakpoints_added: 0,
        skipped: None,
        dims: Seq::empty(),
    }
}

impl Default for TransformInfo {
    fn default() -> (r: TransformInfo)
        ensures
            r@ == empty_info(),
    {
        TransformInfo {
            compressed: false,
            tool_text_added: 0,
            schemas_compressed: 0,
            system_text_chars: 0,
            system_text_sha8: Vec::new(),
            images: 0,
            png_bytes: 0,
            total_pixels: 0,
            expected_image_tokens: 0,
            text_tokens_estimate: 0,
            reminder_imgs: 0,
            tool_result_imgs: 0,
            cc_breakpoints_added: 0,
            skipped: None,
            dims: Vec::new(),
        }
    }
}

/// `n`, or `u64::MAX` when it does not fit (a saturating sum).
pub open spec fn clamp_u64(n: nat) -> u64 {
    if n <= u64::MAX {
        n as u64
    } else {
        u64::MAX
    }
}

/// `n`, or `usize::MAX` when it does not fit (a saturating sum).
pub open spec fn clamp_usize(n: nat) -> usize {
    if n <= usize::MAX {
        n as usize
    } else {
        usize::MAX
    }
}

/// Total size of the encoded images in bytes.
pub open spec fn total_bytes(imgs: Seq<PngImage>) -> nat
    decreases imgs.len(),
{
    if imgs.len() == 0 {
        0
    } else {
        total_bytes(imgs.drop_last()) + imgs.last().bytes.len()
    }
}

/// Total number of pixels.
pub open spec fn total_pixels(imgs: Seq<PngImage>) -> nat
    decreases imgs.len(),
{
    if imgs.len() == 0 {
        0
    } else {
        total_pixels(imgs.drop_last()) + (imgs.last().width as nat) * (imgs.last().height as nat)
    }
}

/// Token cost of one image by its pixels: one token per 750 pixels, at
/// least one.
pub open spec fn pixel_tokens(img: PngImage) -> nat {
    let t = (img.width as nat) * (img.height as nat) / 750;
    if t >= 1 {
        t
    } else {
        1
    }
}

/// Estimated token cost of the images: their pixel tokens plus about 85
/// tokens of overhead per image.
pub open spec fn image_tokens(imgs: Seq<PngImage>) -> nat
    decreases imgs.len(),
{
    if imgs.len() == 0 {
        0
    } else {
        image_tokens(imgs.drop_last()) + pixel_tokens(imgs.last())
    }
}

/// Width and height of each image.
pub open spec fn dims_of(imgs: Seq<PngImage>) -> Seq<(u32, u32)> {
    imgs.map_values(|p: PngImage| (p.width, p.height))
}

/// The report after the system text (of `text_len` bytes) was rendered into
/// `imgs`: the image measures, a text estimate of one token per four bytes,
/// and the one cache breakpoint on the last image.
pub open spec fn measured(base: InfoV, imgs: Seq<PngImage>, text_len: usize) -> InfoV {
    InfoV {
        images: imgs.len() as usize,
        png_bytes: clamp_usize(total_bytes(imgs)),
        dims: dims_of(imgs),
        total_pixels: clamp_u64(total_pixels(imgs)),
        expected_image_tokens: clamp_u64(image_tokens(imgs) + 85 * imgs.len()),
        text_tokens_estimate: (text_len / 4) as u64,
        cc_breakpoints_added: 1,
        ..base
    }
}

/// Records in `info` the measures of the system images.
pub fn measure_images(info: &mut TransformInfo, pngs: &Vec<Png>, text_len: usize)
    ensures
        final(info)@ == measured(old(info)@, images(pngs@), text_len),
{
    let ghost imgs = images(pngs@);
    let mut bytes: usize = 0;
    let mut pixels: u64 = 0;
    let mut tokens: u64 = 0;
    let mut dims: Vec<(u32, u32)> = Vec::new();
    let mut i: usize = 0;
    while i < pngs.len()
        invariant
            i <= pngs@.len(),
            imgs == images(pngs@),
            bytes == clamp_usize(total_bytes(imgs.subrange(0, i as int))),
            pixels == clamp_u64(total_pixels(imgs.subrange(0, i as int))),
            tokens == clamp_u64(image_tokens(imgs.subrange(0, i as int))),
            dims@ == dims_of(imgs.subrange(0, i as int)),
        decreases pngs@.len() - i,
    {
        let p = &pngs[i];
        let ghost pre = imgs.subrange(0, i as int);
        assert(imgs.subrange(0, i + 1).drop_last() == pre);
        assert(imgs.subrange(0, i + 1).last() == p@);
        assert((p.width as u64) * (p.height as u64) <= u64::MAX) by (nonlinear_arith)
            requires
                p.width <= u32::MAX,
                p.height <= u32::MAX,
        ;
        let px: u64 = (p.width as u64) * (p.height as u64);
        let t0: u64 = px / 750;
        let t: u64 = if t0 >= 1 {
            t0
        } else {
            1
        };
        bytes = bytes.saturating_add(p.bytes.len());
        pixels = pixels.saturating_add(px);
        tokens = tokens.saturating_add(t);
        dims.push((p.width, p.height));
        assert(dims@ =~= dims_of(imgs.subrange(0, i + 1)));
        i = i + 1;
    }
    assert(imgs.subrange(0, pngs@.len() as int) == imgs);
    let n = pngs.len();
    let overhead: u64 = match (n as u64).checked_mul(85) {
        Some(v) => v,
        None => u64::MAX,
    };
    info.images = n;
    info.png_bytes = bytes;
    info.dims = dims;
    info.total_pixels = pixels;
    info.expected_image_tokens = tokens.saturating_add(overhead);
    info.text_tokens_estimate = (text_len / 4) as u64;
    info.cc_breakpoints_added = 1;
}

} // verus!
