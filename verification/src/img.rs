use vstd::prelude::*;

use crate::geometry::dims_ok;
use image::GenericImage;

verus! {

#[verifier::external_type_specification]
#[verifier::external_body]
pub struct ExDynamicImage(image::DynamicImage);

#[verifier::external_type_specification]
#[verifier::external_body]
#[verifier::reject_recursive_types(T)]
pub struct ExReceiver<T>(std::sync::mpsc::Receiver<T>);

/// An owned working image: a pixel buffer of the codec library together
/// with its dimensions, which every operation's contract tracks.
#[derive(Debug)]
pub struct Img {
    width: u32,
    height: u32,
    handle: image::DynamicImage,
}

impl Img {
    /// The width in pixels.
    pub closed spec fn w(self) -> nat {
        self.width as nat
    }

    /// The height in pixels.
    pub closed spec fn h(self) -> nat {
        self.height as nat
    }

    /// A live image: nonempty, and within the pipeline's size bound.
    pub open spec fn wf(self) -> bool {
        dims_ok(self.w(), self.h())
    }

    pub fn width(&self) -> (r: u32)
        ensures
            r as nat == self.w(),
    {
        self.width
    }

    pub fn height(&self) -> (r: u32)
        ensures
            r as nat == self.h(),
    {
        self.height
    }

    /// Hand the underlying buffer to the caller, for encoding and writing.
    pub fn into_dynamic(self) -> image::DynamicImage {
        self.handle
    }

    /// Relies on DynamicImage::clone: the copy is the same image.
    #[verifier::external_body]
    pub(crate) fn duplicate(&self) -> (r: Img)
        ensures
            r == *self,
    {
        Img { width: self.width, height: self.height, handle: self.handle.clone() }
    }

    /// Relies on DynamicImage::invert: colors are inverted in place and the
    /// buffer keeps its dimensions.
    #[verifier::external_body]
    pub(crate) fn invert(&mut self)
        ensures
            final(self).w() == old(self).w(),
            final(self).h() == old(self).h(),
    {
        self.handle.invert();
    }

    /// Relies on DynamicImage::brighten: the returned buffer has the same
    /// dimensions as this one.
    #[verifier::external_body]
    pub(crate) fn brighten(&self, value: i32) -> (r: Img)
        requires
            self.wf(),
        ensures
            r.w() == self.w(),
            r.h() == self.h(),
    {
        Img { width: self.width, height: self.height, handle: self.handle.brighten(value) }
    }

    /// Relies on DynamicImage::adjust_contrast: the returned buffer has the
    /// same dimensions as this one. The amount arrives as decimal text, the
    /// form the pipeline carries fractional parameters in; text that is not
    /// a number is read as zero, which adjusts nothing.
    #[verifier::external_body]
    pub(crate) fn adjust_contrast(&self, amount: &str) -> (r: Img)
        requires
            self.wf(),
        ensures
            r.w() == self.w(),
            r.h() == self.h(),
    {
        let c = amount.parse().unwrap_or_default();
        Img { width: self.width, height: self.height, handle: self.handle.adjust_contrast(c) }
    }

    /// Relies on DynamicImage::blur: the returned buffer has the same
    /// dimensions as this one. The sigma arrives as decimal text; text that
    /// is not a number is read as zero, the library's gentlest blur.
    #[verifier::external_body]
    pub(crate) fn blur(&self, sigma: &str) -> (r: Img)
        requires
            self.wf(),
        ensures
            r.w() == self.w(),
            r.h() == self.h(),
    {
        let s = sigma.parse().unwrap_or_default();
        Img { width: self.width, height: self.height, handle: self.handle.blur(s) }
    }

    /// Relies on DynamicImage::unsharpen: the returned buffer has the same
    /// dimensions as this one. The sigma arrives as decimal text; text that
    /// is not a number is read as zero.
    #[verifier::external_body]
    pub(crate) fn unsharpen(&self, sigma: &str, threshold: i32) -> (r: Img)
        requires
            self.wf(),
        ensures
            r.w() == self.w(),
            r.h() == self.h(),
    {
        let s = sigma.parse().unwrap_or_default();
        Img {
            width: self.width,
            height: self.height,
            handle: self.handle.unsharpen(s, threshold),
        }
    }

    /// Relies on DynamicImage::crop_imm: for a rectangle that lies inside
    /// the image, the cut-out has exactly the rectangle's dimensions.
    #[verifier::external_body]
    pub(crate) fn crop(&self, x: u32, y: u32, cw: u32, ch: u32) -> (r: Img)
        requires
            self.wf(),
            1 <= cw,
            1 <= ch,
            x + cw <= self.w(),
            y + ch <= self.h(),
        ensures
            r.w() == cw as nat,
            r.h() == ch as nat,
    {
        Img { width: cw, height: ch, handle: self.handle.crop_imm(x, y, cw, ch) }
    }

    /// Relies on DynamicImage::rotate90: a clockwise quarter turn swaps the
    /// dimensions.
    #[verifier::external_body]
    pub(crate) fn rotate90(&self) -> (r: Img)
        requires
            self.wf(),
        ensures
            r.w() == self.h(),
            r.h() == self.w(),
    {
        Img { width: self.height, height: self.width, handle: self.handle.rotate90() }
    }

    /// Relies on DynamicImage::rotate180: a half turn keeps the dimensions.
    #[verifier::external_body]
    pub(crate) fn rotate180(&self) -> (r: Img)
        requires
            self.wf(),
        ensures
            r.w() == self.w(),
            r.h() == self.h(),
    {
        Img { width: self.width, height: self.height, handle: self.handle.rotate180() }
    }

    /// Relies on DynamicImage::rotate270: a counter-clockwise quarter turn
    /// swaps the dimensions.
    #[verifier::external_body]
    pub(crate) fn rotate270(&self) -> (r: Img)
        requires
            self.wf(),
        ensures
            r.w() == self.h(),
            r.h() == self.w(),
    {
        Img { width: self.height, height: self.width, handle: self.handle.rotate270() }
    }

    /// Relies on imageops::flip_vertical via DynamicImage::flipv: the mirror
    /// keeps the dimensions.
    #[verifier::external_body]
    pub(crate) fn flipv(&self) -> (r: Img)
        requires
            self.wf(),
        ensures
            r.w() == self.w(),
            r.h() == self.h(),
    {
        Img { width: self.width, height: self.height, handle: self.handle.flipv() }
    }

    /// Relies on imageops::flip_horizontal via DynamicImage::fliph: the
    /// mirror keeps the dimensions.
    #[verifier::external_body]
    pub(crate) fn fliph(&self) -> (r: Img)
        requires
            self.wf(),
        ensures
            r.w() == self.w(),
            r.h() == self.h(),
    {
        Img { width: self.width, height: self.height, handle: self.handle.fliph() }
    }

    /// Relies on DynamicImage::resize_exact: the returned buffer has exactly
    /// the requested dimensions, whatever the aspect ratio. A high-quality
    /// resample uses the Lanczos filter, otherwise nearest-neighbor.
    #[verifier::external_body]
    pub(crate) fn resize_exact(&self, nwidth: u32, nheight: u32, high_quality: bool) -> (r: Img)
        requires
            self.wf(),
            dims_ok(nwidth as nat, nheight as nat),
        ensures
            r.w() == nwidth as nat,
            r.h() == nheight as nat,
    {
        let filter = if high_quality {
            image::imageops::FilterType::Lanczos3
        } else {
            image::imageops::FilterType::Nearest
        };
        Img {
            width: nwidth,
            height: nheight,
            handle: self.handle.resize_exact(nwidth, nheight, filter),
        }
    }

    /// Relies on GenericImage::copy_from for DynamicImage: a source placed
    /// fully inside the canvas is copied there, and the canvas keeps its
    /// dimensions.
    #[verifier::external_body]
    pub(crate) fn copy_from(&mut self, source: &Img, x: u32, y: u32)
        requires
            x + source.w() <= old(self).w(),
            y + source.h() <= old(self).h(),
        ensures
            final(self).w() == old(self).w(),
            final(self).h() == old(self).h(),
    {
        let _ = self.handle.copy_from(&source.handle, x, y);
    }
}

/// Relies on DynamicImage::new_rgba8: a fresh all-transparent canvas with an
/// alpha-capable pixel format and exactly the requested dimensions.
#[verifier::external_body]
pub(crate) fn new_canvas(width: u32, height: u32) -> (r: Img)
    requires
        dims_ok(width as nat, height as nat),
    ensures
        r.w() == width as nat,
        r.h() == height as nat,
{
    Img { width, height, handle: image::DynamicImage::new_rgba8(width, height) }
}

/// Relies on std::sync::mpsc::Receiver::recv, which blocks until the loader
/// for this channel sends its image or gives up and drops the sender, and on
/// DynamicImage::width and height for the recorded dimensions.
#[verifier::external_body]
pub(crate) fn recv_image(source: &std::sync::mpsc::Receiver<image::DynamicImage>) -> Option<Img>
{
    match source.recv() {
        Ok(handle) => Some(Img { width: handle.width(), height: handle.height(), handle }),
        Err(_) => None,
    }
}

} // verus!
