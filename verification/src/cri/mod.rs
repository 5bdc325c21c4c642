//! The CRI values the shims inspect and rewrite, and the host/XPU shim.

pub mod image;
pub mod runtime;

use vstd::prelude::*;
use vstd::string::*;

use crate::text::same_text;

verus! {

/// Which runtime of the host/XPU pair serves a request.
#[derive(PartialEq, Eq, Structural, Clone, Copy, Debug)]
pub enum Target {
    Host,
    Xpu,
}

/// The runtime handler that selects the XPU runtime.
pub open spec fn xpu_handler() -> Seq<char> {
    seq!['x', 'p', 'u']
}

/// Whether `handler` selects the XPU runtime.
pub fn is_xpu_handler(handler: &str) -> (b: bool)
    ensures
        b == (handler@ == xpu_handler()),
{
    proof {
        reveal_strlit("xpu");
        assert("xpu"@ =~= xpu_handler());
    }
    same_text(handler, "xpu")
}

/// The CRI service of the shim that answers requests itself.
#[derive(Debug)]
pub struct ChariotShim {}

/// The part of an image specification the shims read and rewrite: the image
/// reference, and the runtime handler that says which runtime owns it.
#[derive(Debug, Clone)]
pub struct ImageSpec {
    pub image: String,
    pub runtime_handler: String,
}

/// An image as listed by a runtime: its id and, when the runtime reports one,
/// its specification.
#[derive(Debug, Clone)]
pub struct Image {
    pub id: String,
    pub spec: Option<ImageSpec>,
}

pub struct ImageSpecView {
    pub image: Seq<char>,
    pub runtime_handler: Seq<char>,
}

pub struct ImageView {
    pub id: Seq<char>,
    pub spec: Option<ImageSpecView>,
}

impl View for ImageSpec {
    type V = ImageSpecView;

    open spec fn view(&self) -> ImageSpecView {
        ImageSpecView { image: self.image@, runtime_handler: self.runtime_handler@ }
    }
}

impl View for Image {
    type V = ImageView;

    open spec fn view(&self) -> ImageView {
        ImageView {
            id: self.id@,
            spec: match self.spec {
                Some(s) => Some(s@),
                None => None,
            },
        }
    }
}

/// The image with its specification, if it has one, marked as owned by
/// runtime `handler`; an image without specification is left as it is.
pub open spec fn labelled(v: ImageView, handler: Seq<char>) -> ImageView {
    ImageView {
        id: v.id,
        spec: match v.spec {
            Some(s) => Some(ImageSpecView { image: s.image, runtime_handler: handler }),
            None => None,
        },
    }
}

/// Each image of `s`, labelled with `handler`.
pub open spec fn all_labelled(s: Seq<ImageView>, handler: Seq<char>) -> Seq<ImageView> {
    s.map_values(|v: ImageView| labelled(v, handler))
}

/// The views of a list of images.
pub open spec fn image_views(v: Seq<Image>) -> Seq<ImageView> {
    v.map_values(|i: Image| i@)
}

/// Marks `image` as owned by runtime `handler`.
pub fn with_handler(image: Image, handler: &str) -> (r: Image)
    ensures
        r@ == labelled(image@, handler@),
{
    match image.spec {
        Some(s) => Image {
            id: image.id,
            spec: Some(ImageSpec { image: s.image, runtime_handler: handler.to_owned() }),
        },
        None => Image { id: image.id, spec: None },
    }
}

/// Marks every image of `images` as owned by runtime `handler`, keeping their order.
pub fn label_images(images: Vec<Image>, handler: &str) -> (r: Vec<Image>)
    ensures
        image_views(r@) == all_labelled(image_views(images@), handler@),
{
    let ghost input = image_views(images@);
    let mut rest = images;
    let mut r: Vec<Image> = Vec::new();
    while rest.len() > 0
        invariant
            r.len() + rest.len() == input.len(),
            forall|j: int| 0 <= j < rest.len() ==> #[trigger] rest@[j]@ == input[r.len() + j],
            forall|j: int| 0 <= j < r.len() ==> #[trigger] r@[j]@ == labelled(input[j], handler@),
        decreases rest.len(),
    {
        let img = rest.remove(0);
        r.push(with_handler(img, handler));
    }
    assert(image_views(r@) =~= all_labelled(input, handler@));
    r
}

/// The image-status answer as a shim returns it: the image, if any, marked as
/// owned by runtime `handler`.
pub fn status_image(image: Option<Image>, handler: &str) -> (r: Option<Image>)
    ensures
        match image {
            Some(i) => r matches Some(o) && o@ == labelled(i@, handler@),
            None => r is None,
        },
{
    match image {
        Some(i) => Some(with_handler(i, handler)),
        None => None,
    }
}

} // verus!
