//! Image requests of the host/XPU shim: images whose handler is `xpu` belong
//! to the XPU runtime, all others to the host runtime.

use vstd::prelude::*;

use crate::cri::{all_labelled, image_views, is_xpu_handler, label_images, labelled, xpu_handler, Image, ImageSpec, ImageSpecView, ImageView, Target};

verus! {

/// The image-service side of the host/XPU shim.
pub struct ImageShim {}

/// Where an image request goes: to the XPU runtime when its image names the
/// `xpu` handler, to the host runtime otherwise (also without image).
pub open spec fn image_target(image: Option<ImageSpecView>) -> Target {
    match image {
        Some(s) => if s.runtime_handler == xpu_handler() { Target::Xpu } else { Target::Host },
        None => Target::Host,
    }
}

/// The merged image listing: the XPU images, marked as owned by `xpu`,
/// followed by the host images as the host listed them.
pub open spec fn merged_images(host: Seq<ImageView>, xpu: Seq<ImageView>) -> Seq<ImageView> {
    all_labelled(xpu, xpu_handler()) + host
}

impl ImageShim {
    /// Routes an image status, pull or removal request by its image.
    pub fn route_image(image: &Option<ImageSpec>) -> (t: Target)
        ensures
            t == image_target(match image { Some(s) => Some(s@), None => None }),
    {
        match image {
            Some(img) => if is_xpu_handler(img.runtime_handler.as_str()) { Target::Xpu } else { Target::Host },
            None => Target::Host,
        }
    }

    /// Merges the listings of the two runtimes.
    pub fn merge_images(host: Vec<Image>, xpu: Vec<Image>) -> (r: Vec<Image>)
        ensures
            image_views(r@) == merged_images(image_views(host@), image_views(xpu@)),
            r.len() == xpu.len() + host.len(),
            image_views(r@).skip(xpu.len() as int) == image_views(host@),
            forall|i: int| 0 <= i < xpu.len() ==> #[trigger] r@[i]@ == labelled(xpu@[i]@, xpu_handler()),
    {
        let mut r = label_images(xpu, "xpu");
        let ghost first = image_views(r@);
        let mut host = host;
        let ghost second = image_views(host@);
        r.append(&mut host);
        proof {
            reveal_strlit("xpu");
            assert("xpu"@ =~= xpu_handler());
            assert(image_views(r@) =~= first + second);
            law_merge_keeps_every_image(second, image_views(xpu@));
            assert forall|i: int| 0 <= i < xpu.len() implies #[trigger] r@[i]@ == labelled(xpu@[i]@, xpu_handler()) by {
                assert(image_views(r@)[i] == r@[i]@);
                assert(image_views(xpu@)[i] == xpu@[i]@);
            }
        }
        r
    }
}

/// Merging keeps every image of both listings: the XPU images come first,
/// each the same image marked as owned by `xpu`, and after them every host
/// image, unchanged and in the host's order, whatever ids the two share.
pub proof fn law_merge_keeps_every_image(host: Seq<ImageView>, xpu: Seq<ImageView>)
    ensures
        merged_images(host, xpu).len() == xpu.len() + host.len(),
        merged_images(host, xpu).skip(xpu.len() as int) == host,
        forall|i: int| 0 <= i < xpu.len() ==> #[trigger] merged_images(host, xpu)[i] == labelled(xpu[i], xpu_handler()),
{
    assert(merged_images(host, xpu).skip(xpu.len() as int) =~= host);
}

/// An image from the XPU listing is routed back to the XPU runtime, and one
/// from the host listing back to the host runtime, unless the host itself
/// reports it with the `xpu` handler.
pub proof fn law_listed_image_routes_back(image: ImageView)
    requires
        image.spec is Some,
    ensures
        image_target(labelled(image, xpu_handler()).spec) == Target::Xpu,
        image.spec->0.runtime_handler != xpu_handler() ==> image_target(image.spec) == Target::Host,
{
}

} // verus!
