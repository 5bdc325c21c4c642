//! Routing of image-service requests across the connected runtimes.

use vstd::prelude::*;

use crate::common::{RpcCode, RpcStatus};
use crate::cri::{all_labelled, image_views, label_images, labelled, Image, ImageSpec, ImageSpecView, ImageView};
use crate::shim::{answers, client_decision, Decision, Runtimes, RuntimesView};

verus! {

/// The routing state of the image service: the connected runtimes.
pub struct ImageShim {
    runtimes: Runtimes,
}

impl View for ImageShim {
    type V = RuntimesView;

    closed spec fn view(&self) -> RuntimesView {
        self.runtimes@
    }
}

/// The message of the status a request without image information gets.
pub open spec fn no_image_message() -> Seq<char> {
    "no image info in request"@
}

/// Where an image request goes: refused without image information, otherwise
/// to the runtime its handler names.
pub open spec fn image_decision(v: RuntimesView, image: Option<ImageSpecView>) -> Decision {
    match image {
        Some(s) => client_decision(v, s.runtime_handler),
        None => Decision::Refused(RpcCode::NotFound, no_image_message()),
    }
}

/// The images of all listings, in the order of the listings, each labelled
/// with the runtime that listed it.
pub open spec fn collected(listings: Seq<(Seq<char>, Seq<ImageView>)>) -> Seq<ImageView>
    decreases listings.len(),
{
    if listings.len() == 0 {
        Seq::empty()
    } else {
        collected(listings.drop_last()) + all_labelled(listings.last().1, listings.last().0)
    }
}

/// The views of runtime listings.
pub open spec fn listing_views(v: Seq<(String, Vec<Image>)>) -> Seq<(Seq<char>, Seq<ImageView>)> {
    v.map_values(|l: (String, Vec<Image>)| (l.0@, image_views(l.1@)))
}

impl ImageShim {
    /// No runtime connected yet; `default_runtime` serves requests that name none.
    pub fn new(default_runtime: String) -> (s: ImageShim)
        ensures
            s@.names == Set::<Seq<char>>::empty(),
            s@.default_runtime == default_runtime@,
    {
        ImageShim { runtimes: Runtimes::new(default_runtime) }
    }

    /// Connects runtime `name`.
    pub fn add_runtime(&mut self, name: String)
        ensures
            final(self)@.names == old(self)@.names.insert(name@),
            final(self)@.default_runtime == old(self)@.default_runtime,
    {
        self.runtimes.register(name);
    }

    /// The names of all connected runtimes, each once; image listings are asked of each.
    pub fn runtime_names(&self) -> (v: Vec<String>)
        ensures
            v@.map_values(|n: String| n@).to_set() == self@.names,
            v@.map_values(|n: String| n@).no_duplicates(),
    {
        self.runtimes.names()
    }

    /// The client for the runtime `name`; an empty name means the default runtime.
    pub fn get_client(&self, name: &str) -> (r: Result<String, RpcStatus>)
        ensures
            answers(r, client_decision(self@, name@)),
    {
        self.runtimes.get_client(name)
    }

    /// The client of the default runtime (image file-system information).
    pub fn get_default_client(&self) -> (r: Result<String, RpcStatus>)
        ensures
            answers(r, client_decision(self@, self@.default_runtime)),
    {
        self.runtimes.get_default_client()
    }

    /// Routes an image status, pull or removal request by its image.
    pub fn route_image(&self, image: &Option<ImageSpec>) -> (r: Result<String, RpcStatus>)
        ensures
            answers(r, image_decision(self@, match image { Some(s) => Some(s@), None => None })),
    {
        match image {
            Some(img) => self.runtimes.get_client(img.runtime_handler.as_str()),
            None => Err(RpcStatus::not_found("no image info in request".to_owned())),
        }
    }
}

/// Merges the image listings of the runtimes, in the given order, marking each
/// image as owned by the runtime that listed it.
pub fn collect_images(listings: Vec<(String, Vec<Image>)>) -> (r: Vec<Image>)
    ensures
        image_views(r@) == collected(listing_views(listings@)),
        image_views(r@) == listing_views(listings@).map_values(
            |l: (Seq<char>, Seq<ImageView>)| all_labelled(l.1, l.0),
        ).flatten_alt(),
{
    let ghost all = listing_views(listings@);
    assert(all.len() == listings.len());
    let mut rest = listings;
    let mut r: Vec<Image> = Vec::new();
    let mut done: usize = 0;
    while rest.len() > 0
        invariant
            done + rest.len() == all.len(),
            all.len() <= usize::MAX,
            forall|j: int| 0 <= j < rest.len() ==> #[trigger] listing_views(rest@)[j] == all[done + j],
            image_views(r@) == collected(all.take(done as int)),
        decreases rest.len(),
    {
        let ghost rest_views = listing_views(rest@);
        let (name, images) = rest.remove(0);
        proof {
            assert(rest_views[0] == all[done as int]);
            assert forall|j: int| 0 <= j < rest.len() implies #[trigger] listing_views(rest@)[j] == all[done + 1 + j] by {
                assert(listing_views(rest@)[j] == rest_views[j + 1]);
            }
        }
        let ghost before = image_views(r@);
        let mut labelled_images = label_images(images, name.as_str());
        r.append(&mut labelled_images);
        proof {
            assert(all.take(done + 1).drop_last() =~= all.take(done as int));
            assert(image_views(r@) =~= before + all_labelled(all[done as int].1, all[done as int].0));
        }
        done = done + 1;
    }
    proof {
        assert(all.take(done as int) =~= all);
        law_every_listed_image_is_kept(all);
    }
    r
}

/// Merging keeps every image of every listing: the result is each listing in
/// turn, in the order of the listings, each image of it marked as owned by the
/// runtime that listed it; no image is dropped, whatever ids the listings share.
pub proof fn law_every_listed_image_is_kept(listings: Seq<(Seq<char>, Seq<ImageView>)>)
    ensures
        collected(listings) == listings.map_values(|l: (Seq<char>, Seq<ImageView>)| all_labelled(l.1, l.0)).flatten_alt(),
    decreases listings.len(),
{
    if listings.len() > 0 {
        let f = |l: (Seq<char>, Seq<ImageView>)| all_labelled(l.1, l.0);
        law_every_listed_image_is_kept(listings.drop_last());
        assert(listings.map_values(f).drop_last() =~= listings.drop_last().map_values(f));
        assert(listings.map_values(f).last() == f(listings.last()));
    }
}

/// An image listed by a runtime is routed back to that runtime: pulling,
/// inspecting or removing it reaches the runtime that reported it, as long
/// as that runtime is connected under a non-empty name.
pub proof fn law_listed_image_routes_back(v: RuntimesView, image: ImageView, runtime: Seq<char>)
    requires
        image.spec is Some,
        runtime.len() > 0,
        v.names.contains(runtime),
    ensures
        image_decision(v, labelled(image, runtime).spec) == Decision::Runtime(runtime),
{
}

/// Every image reported by a listing carries the name of a runtime that listed it.
pub proof fn law_listed_images_are_labelled(listings: Seq<(Seq<char>, Seq<ImageView>)>, i: int)
    requires
        0 <= i < collected(listings).len(),
        collected(listings)[i].spec is Some,
    ensures
        exists|k: int| 0 <= k < listings.len() && collected(listings)[i].spec->0.runtime_handler == #[trigger] listings[k].0,
    decreases listings.len(),
{
    let prefix = collected(listings.drop_last());
    if i < prefix.len() {
        law_listed_images_are_labelled(listings.drop_last(), i);
        let k: int = choose|k: int| 0 <= k < listings.drop_last().len() && prefix[i].spec->0.runtime_handler == #[trigger] listings.drop_last()[k].0;
        assert(listings[k] == listings.drop_last()[k]);
    } else {
        let k = listings.len() - 1;
        assert(collected(listings)[i] == labelled(listings.last().1[i - prefix.len()], listings.last().0));
        assert(listings[k].0 == listings.last().0);
    }
}

} // verus!
