use chariot::cri::image::ImageShim;
use chariot::cri::runtime::{merge_container_stats, merge_containers, merge_pod_sandbox_stats, merge_pod_sandboxes, RuntimeShim};
use chariot::cri::{is_xpu_handler, label_images, status_image, with_handler, ChariotShim, Image, ImageSpec, Target};

fn image(id: &str, handler: Option<&str>) -> Image {
    Image {
        id: id.to_string(),
        spec: handler.map(|h| ImageSpec { image: id.to_string(), runtime_handler: h.to_string() }),
    }
}

#[test]
fn recognises_the_xpu_handler() {
    assert!(is_xpu_handler("xpu"));
    assert!(!is_xpu_handler("XPU"));
    assert!(!is_xpu_handler(""));
    assert!(!is_xpu_handler("xpu0"));
}

#[test]
fn labels_images_with_a_handler() {
    let out = label_images(vec![image("a", Some("host")), image("b", None), image("c", Some(""))], "xpu");
    assert_eq!(out.len(), 3);
    assert_eq!(out[0].spec.as_ref().unwrap().runtime_handler, "xpu");
    assert_eq!(out[0].spec.as_ref().unwrap().image, "a");
    assert!(out[1].spec.is_none());
    assert_eq!(out[1].id, "b");
    assert_eq!(out[2].spec.as_ref().unwrap().runtime_handler, "xpu");
    let one = with_handler(image("d", Some("x")), "");
    assert_eq!(one.spec.unwrap().runtime_handler, "");
}

#[test]
fn status_answers_carry_the_request_handler() {
    let out = status_image(Some(image("a", Some(""))), "xpu").unwrap();
    assert_eq!(out.spec.unwrap().runtime_handler, "xpu");
    assert!(status_image(None, "xpu").is_none());
    let out = status_image(Some(image("b", None)), "xpu").unwrap();
    assert!(out.spec.is_none());
}

#[test]
fn image_requests_go_to_the_xpu_only_when_asked() {
    let xpu = ImageSpec { image: "a".to_string(), runtime_handler: "xpu".to_string() };
    let host = ImageSpec { image: "a".to_string(), runtime_handler: "runc".to_string() };
    assert_eq!(ImageShim::route_image(&Some(xpu)), Target::Xpu);
    assert_eq!(ImageShim::route_image(&Some(host)), Target::Host);
    assert_eq!(ImageShim::route_image(&None), Target::Host);
    let _service = ChariotShim {};
    let _images = ImageShim {};
}

#[test]
fn image_listing_puts_xpu_images_first() {
    let out = ImageShim::merge_images(vec![image("h1", Some("runc")), image("h2", None)], vec![image("x1", Some(""))]);
    let ids: Vec<&str> = out.iter().map(|i| i.id.as_str()).collect();
    assert_eq!(ids, vec!["x1", "h1", "h2"]);
    assert_eq!(out[0].spec.as_ref().unwrap().runtime_handler, "xpu");
    assert_eq!(out[1].spec.as_ref().unwrap().runtime_handler, "runc");
}

#[test]
fn xpu_sandboxes_are_remembered_until_removed() {
    let mut shim = RuntimeShim::new();
    let (target, handler) = RuntimeShim::route_run("xpu");
    assert_eq!(target, Target::Xpu);
    assert_eq!(handler, "");
    shim.sandbox_started(target, "s1".to_string());
    assert!(shim.is_container("s1"));
    assert_eq!(shim.route("s1"), Target::Xpu);
    assert_eq!(shim.route("s2"), Target::Host);
    shim.container_created(shim.route("s1"), "c1".to_string());
    assert_eq!(shim.route("c1"), Target::Xpu);
    shim.container_removed(Target::Xpu, "c1");
    assert_eq!(shim.route("c1"), Target::Host);
    shim.del_container("s1");
    assert_eq!(shim.route("s1"), Target::Host);
    assert!(!shim.is_container("s1"));
}

#[test]
fn host_sandboxes_are_not_remembered() {
    let mut shim = RuntimeShim::new();
    let (target, handler) = RuntimeShim::route_run("runc");
    assert_eq!(target, Target::Host);
    assert_eq!(handler, "runc");
    shim.sandbox_started(target, "s1".to_string());
    assert!(!shim.is_container("s1"));
    shim.container_created(Target::Host, "c1".to_string());
    assert!(!shim.is_container("c1"));
    shim.set_container("c2".to_string());
    shim.container_removed(Target::Host, "c2");
    assert!(shim.is_container("c2"));
    let (target, handler) = RuntimeShim::route_run("");
    assert_eq!((target, handler.as_str()), (Target::Host, ""));
}

#[test]
fn remembering_twice_and_forgetting_once_forgets() {
    let mut shim = RuntimeShim::new();
    shim.set_container("a".to_string());
    shim.set_container("a".to_string());
    shim.set_container("b".to_string());
    shim.del_container("a");
    assert!(!shim.is_container("a"));
    assert!(shim.is_container("b"));
    shim.del_container("zzz");
    assert!(shim.is_container("b"));
}

#[test]
fn listings_are_merged_in_order() {
    assert_eq!(merge_pod_sandboxes(vec![1, 2], vec![3]), vec![1, 2, 3]);
    assert_eq!(merge_containers(vec![1, 2], vec![3]), vec![3, 1, 2]);
    assert_eq!(merge_container_stats(vec!["h"], vec!["x"]), vec!["h", "x"]);
    assert_eq!(merge_pod_sandbox_stats(vec!["h"], vec!["x", "y"]), vec!["h", "x", "y"]);
    assert_eq!(merge_containers(Vec::<u8>::new(), vec![]), Vec::<u8>::new());
}

#[test]
fn the_last_call_naming_an_id_decides() {
    let mut shim = RuntimeShim::new();
    shim.set_container("a".to_string());
    shim.set_container("b".to_string());
    shim.del_container("a");
    shim.set_container("c".to_string());
    shim.set_container("a".to_string());
    shim.del_container("b");
    assert!(shim.is_container("a"));
    assert!(!shim.is_container("b"));
    assert!(shim.is_container("c"));
    assert!(!shim.is_container("d"));
}
