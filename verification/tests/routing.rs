use chariot::common::RpcCode;
use chariot::shim::image::{collect_images, ImageShim};
use chariot::common::RpcStatus;
use chariot::shim::runtime::{config_reply, merge_listings, RuntimeShim};
use chariot::shim::storage::{Container, FsEngine, Sandbox, Storage};
use chariot::shim::{find_scheme_separator, resolve_transport, transport_from_scheme, Runtimes, Transport};
use chariot::cri::{Image, ImageSpec};

fn image(id: &str, handler: Option<&str>) -> Image {
    Image {
        id: id.to_string(),
        spec: handler.map(|h| ImageSpec { image: format!("docker.io/{id}"), runtime_handler: h.to_string() }),
    }
}

#[test]
fn finds_the_first_scheme_separator() {
    assert_eq!(find_scheme_separator("unix:///run/containerd.sock"), Some(4));
    assert_eq!(find_scheme_separator("http://a://b"), Some(4));
    assert_eq!(find_scheme_separator("localhost:50051"), None);
    assert_eq!(find_scheme_separator(""), None);
    assert_eq!(find_scheme_separator("://"), Some(0));
}

#[test]
fn unix_endpoints_connect_through_their_socket() {
    match resolve_transport("unix:///run/containerd/containerd.sock") {
        Transport::Unix { path } => assert_eq!(path, "/run/containerd/containerd.sock"),
        Transport::Remote { .. } => panic!("expected a unix socket"),
    }
    match resolve_transport("UNIX:///var/run/crio.sock") {
        Transport::Unix { path } => assert_eq!(path, "/var/run/crio.sock"),
        Transport::Remote { .. } => panic!("the scheme is matched whatever its case"),
    }
}

#[test]
fn other_endpoints_are_dialled_whole() {
    match resolve_transport("http://10.0.0.2:50051") {
        Transport::Remote { endpoint } => assert_eq!(endpoint, "http://10.0.0.2:50051"),
        Transport::Unix { .. } => panic!("expected a remote endpoint"),
    }
    match resolve_transport("unixx:///sock") {
        Transport::Remote { endpoint } => assert_eq!(endpoint, "unixx:///sock"),
        Transport::Unix { .. } => panic!("expected a remote endpoint"),
    }
}

#[test]
fn runtimes_resolve_names_and_default() {
    let mut rts = Runtimes::new("host".to_string());
    assert!(!rts.contains("host"));
    let st = rts.get_client("").unwrap_err();
    assert_eq!(st.code, RpcCode::NotFound);
    assert_eq!(st.message, "no connection for host");
    rts.register("host".to_string());
    rts.register("xpu".to_string());
    rts.register("xpu".to_string());
    assert_eq!(rts.names().len(), 2);
    assert_eq!(rts.get_client("").unwrap(), "host");
    assert_eq!(rts.get_default_client().unwrap(), "host");
    assert_eq!(rts.get_client("xpu").unwrap(), "xpu");
    let st = rts.get_client("gpu").unwrap_err();
    assert_eq!(st.code, RpcCode::NotFound);
    assert_eq!(st.message, "no connection for gpu");
    assert_eq!(rts.default_runtime(), "host");
}

#[test]
fn storage_reads_back_what_was_persisted() {
    let mut s = Storage::new();
    s.persist_sandbox(&Sandbox { id: "s1".to_string(), runtime: "xpu".to_string() }).unwrap();
    s.persist_container(&Container { id: "c1".to_string(), sandbox: "s1".to_string(), runtime: "xpu".to_string() }).unwrap();
    let got = s.get_sandbox("s1").unwrap();
    assert_eq!((got.id.as_str(), got.runtime.as_str()), ("s1", "xpu"));
    let got = s.get_container("c1").unwrap();
    assert_eq!((got.id.as_str(), got.sandbox.as_str(), got.runtime.as_str()), ("c1", "s1", "xpu"));
    s.persist_sandbox(&Sandbox { id: "s1".to_string(), runtime: "host".to_string() }).unwrap();
    assert_eq!(s.get_sandbox("s1").unwrap().runtime, "host");
    assert_eq!(s.list_sandboxes().len(), 1);
    assert_eq!(s.list_containers().len(), 1);
}

#[test]
fn storage_forgets_what_was_removed() {
    let mut s = Storage::new();
    s.persist_sandbox(&Sandbox { id: "s1".to_string(), runtime: "host".to_string() }).unwrap();
    s.persist_sandbox(&Sandbox { id: "s2".to_string(), runtime: "xpu".to_string() }).unwrap();
    assert!(s.remove_sandbox("s1").is_ok());
    match s.get_sandbox("s1") {
        Err(e) => assert_eq!(e.message(), "No such file or directory (os error 2)"),
        Ok(_) => panic!("removed sandbox still stored"),
    }
    assert_eq!(s.get_sandbox("s2").unwrap().runtime, "xpu");
    match s.remove_sandbox("s1") {
        Err(e) => assert_eq!(e.message(), "No such file or directory (os error 2)"),
        Ok(_) => panic!("removing twice succeeded"),
    }
    match s.remove_container("c9") {
        Err(e) => assert_eq!(e.message(), "No such file or directory (os error 2)"),
        Ok(_) => panic!("removing an unknown container succeeded"),
    }
    match s.get_container("c9") {
        Err(e) => assert_eq!(e.message(), "No such file or directory (os error 2)"),
        Ok(_) => panic!("unknown container found"),
    }
    let ids: Vec<String> = s.list_sandboxes().into_iter().map(|x| x.id).collect();
    assert_eq!(ids, vec!["s2".to_string()]);
}

#[test]
fn storage_lists_every_record_once() {
    let mut s = Storage::new();
    for (id, rt) in [("a", "host"), ("b", "xpu"), ("a", "xpu"), ("c", "host")] {
        s.persist_container(&Container { id: id.to_string(), sandbox: "p".to_string(), runtime: rt.to_string() }).unwrap();
    }
    let mut listed: Vec<(String, String)> = s.list_containers().into_iter().map(|c| (c.id, c.runtime)).collect();
    listed.sort();
    assert_eq!(
        listed,
        vec![
            ("a".to_string(), "xpu".to_string()),
            ("b".to_string(), "xpu".to_string()),
            ("c".to_string(), "host".to_string()),
        ]
    );
}

#[test]
fn fs_engine_layout() {
    let e = FsEngine::layout("/var/lib/chariot");
    assert_eq!(e.sandbox_path(), "/var/lib/chariot/sandboxes");
    assert_eq!(e.container_path(), "/var/lib/chariot/containers");
    assert_eq!(e.sandbox_file("s1"), "/var/lib/chariot/sandboxes/s1");
    assert_eq!(e.container_file("c1"), "/var/lib/chariot/containers/c1");
}

fn connect(shim: &mut RuntimeShim, name: &str, sandboxes: Vec<&str>, containers: Vec<(&str, &str)>) {
    let name = name.to_string();
    shim.sync_sandboxes(&name, Ok(sandboxes.into_iter().map(|s| s.to_string()).collect())).unwrap();
    let listed = containers.into_iter().map(|(c, s)| (c.to_string(), s.to_string())).collect();
    shim.sync_containers(&name, Ok(listed)).unwrap();
    shim.register_runtime(name);
}

fn two_runtime_shim() -> RuntimeShim {
    let mut shim = RuntimeShim::new("host".to_string(), Storage::new());
    connect(&mut shim, "host", vec!["h-s1"], vec![("h-c1", "h-s1")]);
    connect(&mut shim, "xpu", vec!["x-s1", "x-s2"], vec![("x-c1", "x-s1")]);
    shim
}

#[test]
fn connect_records_what_each_runtime_reports() {
    let shim = two_runtime_shim();
    assert_eq!(shim.storage().list_sandboxes().len(), 3);
    assert_eq!(shim.storage().list_containers().len(), 2);
    assert_eq!(shim.storage().get_sandbox("x-s2").unwrap().runtime, "xpu");
    let c = shim.storage().get_container("x-c1").unwrap();
    assert_eq!((c.sandbox.as_str(), c.runtime.as_str()), ("x-s1", "xpu"));
    let mut names = shim.runtime_names();
    names.sort();
    assert_eq!(names, vec!["host".to_string(), "xpu".to_string()]);
}

#[test]
fn requests_follow_the_recorded_runtime() {
    let shim = two_runtime_shim();
    let (s, rt) = shim.route_sandbox("x-s1").unwrap();
    assert_eq!((s.id.as_str(), rt.as_str()), ("x-s1", "xpu"));
    let (c, rt) = shim.route_container("h-c1").unwrap();
    assert_eq!((c.id.as_str(), rt.as_str()), ("h-c1", "host"));
    let st = shim.route_sandbox("nope").unwrap_err();
    assert_eq!(st.code, RpcCode::Internal);
    assert_eq!(st.message, "No such file or directory (os error 2)");
    let st = shim.route_container("nope").unwrap_err();
    assert_eq!(st.code, RpcCode::Internal);
    assert_eq!(st.message, "No such file or directory (os error 2)");
    assert_eq!(shim.get_default_client().unwrap(), "host");
    assert_eq!(shim.get_client("").unwrap(), "host");
    assert_eq!(shim.get_client("gpu").unwrap_err().message, "no connection for gpu");
}

#[test]
fn new_sandbox_and_its_containers_stay_with_its_runtime() {
    let mut shim = two_runtime_shim();
    assert_eq!(shim.get_client("xpu").unwrap(), "xpu");
    assert_eq!(shim.after_run_pod_sandbox("xpu".to_string(), Ok(("x-s9".to_string(), 1))).unwrap(), 1);
    let (sandbox, rt) = shim.route_sandbox("x-s9").unwrap();
    assert_eq!(rt, "xpu");
    assert_eq!(shim.after_create_container("x-s9".to_string(), &sandbox, Ok(("x-c9".to_string(), "ok"))).unwrap(), "ok");
    let (c, rt) = shim.route_container("x-c9").unwrap();
    assert_eq!((c.sandbox.as_str(), rt.as_str()), ("x-s9", "xpu"));
    // A sandbox created without handler is served by the default runtime.
    shim.after_run_pod_sandbox(String::new(), Ok(("d-s1".to_string(), ()))).unwrap();
    let (s, rt) = shim.route_sandbox("d-s1").unwrap();
    assert_eq!((s.runtime.as_str(), rt.as_str()), ("", "host"));
}

#[test]
fn forgotten_records_are_refused() {
    let mut shim = two_runtime_shim();
    assert!(shim.after_remove_container("x-c1", Ok(())).is_ok());
    assert_eq!(shim.route_container("x-c1").unwrap_err().message, "No such file or directory (os error 2)");
    assert!(shim.after_remove_pod_sandbox("x-s1", Ok(())).is_ok());
    assert_eq!(shim.route_sandbox("x-s1").unwrap_err().message, "No such file or directory (os error 2)");
    let st = shim.after_remove_pod_sandbox("x-s1", Ok(())).unwrap_err();
    assert_eq!(st.code, RpcCode::Internal);
    assert_eq!(st.message, "No such file or directory (os error 2)");
    assert_eq!(shim.after_remove_container("x-c1", Ok(())).unwrap_err().message, "No such file or directory (os error 2)");
    assert_eq!(shim.route_sandbox("x-s2").unwrap().1, "xpu");
}

#[test]
fn records_naming_a_disconnected_runtime_are_refused() {
    let mut storage = Storage::new();
    storage.persist_sandbox(&Sandbox { id: "old".to_string(), runtime: "gpu".to_string() }).unwrap();
    let mut shim = RuntimeShim::new("host".to_string(), storage);
    connect(&mut shim, "host", vec![], vec![]);
    let st = shim.route_sandbox("old").unwrap_err();
    assert_eq!(st.code, RpcCode::NotFound);
    assert_eq!(st.message, "no connection for gpu");
}

#[test]
fn image_requests_need_image_information() {
    let mut shim = ImageShim::new("host".to_string());
    shim.add_runtime("host".to_string());
    shim.add_runtime("xpu".to_string());
    let st = shim.route_image(&None).unwrap_err();
    assert_eq!(st.code, RpcCode::NotFound);
    assert_eq!(st.message, "no image info in request");
    let spec = ImageSpec { image: "busybox".to_string(), runtime_handler: "xpu".to_string() };
    assert_eq!(shim.route_image(&Some(spec)).unwrap(), "xpu");
    let spec = ImageSpec { image: "busybox".to_string(), runtime_handler: String::new() };
    assert_eq!(shim.route_image(&Some(spec)).unwrap(), "host");
    let spec = ImageSpec { image: "busybox".to_string(), runtime_handler: "gpu".to_string() };
    assert_eq!(shim.route_image(&Some(spec)).unwrap_err().message, "no connection for gpu");
    assert_eq!(shim.get_default_client().unwrap(), "host");
    assert_eq!(shim.get_client("xpu").unwrap(), "xpu");
    assert_eq!(shim.runtime_names().len(), 2);
}

#[test]
fn listed_images_carry_their_runtime() {
    let listings = vec![
        ("xpu".to_string(), vec![image("a", Some("")), image("b", None)]),
        ("host".to_string(), vec![image("c", Some("other"))]),
    ];
    let all = collect_images(listings);
    assert_eq!(all.len(), 3);
    assert_eq!(all[0].id, "a");
    assert_eq!(all[0].spec.as_ref().unwrap().runtime_handler, "xpu");
    assert_eq!(all[0].spec.as_ref().unwrap().image, "docker.io/a");
    assert!(all[1].spec.is_none());
    assert_eq!(all[2].spec.as_ref().unwrap().runtime_handler, "host");
    assert!(collect_images(vec![]).is_empty());
}

#[test]
fn listed_image_routes_back_to_its_runtime() {
    let mut shim = ImageShim::new("host".to_string());
    shim.add_runtime("host".to_string());
    shim.add_runtime("xpu".to_string());
    let all = collect_images(vec![("xpu".to_string(), vec![image("a", Some(""))])]);
    let spec = all[0].spec.as_ref().unwrap();
    let routed = shim.route_image(&Some(ImageSpec { image: spec.image.clone(), runtime_handler: spec.runtime_handler.clone() }));
    assert_eq!(routed.unwrap(), "xpu");
}

#[test]
fn listings_of_all_runtimes_are_concatenated() {
    assert_eq!(merge_listings(vec![Ok(vec![1, 2]), Ok(vec![]), Ok(vec![3])]).unwrap(), vec![1, 2, 3]);
    assert_eq!(merge_listings(Vec::<Result<Vec<u8>, RpcStatus>>::new()).unwrap(), Vec::<u8>::new());
    assert_eq!(merge_listings(vec![Ok(vec!["b"]), Ok(vec!["a"])]).unwrap(), vec!["b", "a"]);
}

#[test]
fn a_refused_listing_fails_the_whole_listing() {
    let st = merge_listings(vec![
        Ok(vec![1]),
        Err(RpcStatus::not_found("first".to_string())),
        Err(RpcStatus::not_found("second".to_string())),
    ])
    .unwrap_err();
    assert_eq!(st.message, "first");
}

#[test]
fn config_update_reply_is_the_first_refusal() {
    assert!(config_reply(vec![Ok(()), Ok(())]).is_ok());
    assert!(config_reply(Vec::<Result<(), RpcStatus>>::new()).is_ok());
    let st = config_reply(vec![Ok(()), Err(RpcStatus::not_found("down".to_string())), Err(RpcStatus::not_found("later".to_string()))]).unwrap_err();
    assert_eq!((st.code, st.message.as_str()), (RpcCode::NotFound, "down"));
}

#[test]
fn refused_requests_leave_the_records_alone() {
    let mut shim = two_runtime_shim();
    let st = shim.after_run_pod_sandbox("xpu".to_string(), Err::<(String, ()), _>(RpcStatus::not_found("no".to_string()))).unwrap_err();
    assert_eq!(st.message, "no");
    assert_eq!(shim.storage().list_sandboxes().len(), 3);
    let (sandbox, _) = shim.route_sandbox("x-s1").unwrap();
    assert!(shim.after_create_container("x-s1".to_string(), &sandbox, Err::<(String, ()), _>(RpcStatus::not_found("no".to_string()))).is_err());
    assert_eq!(shim.storage().list_containers().len(), 2);
    assert!(shim.after_remove_pod_sandbox("x-s1", Err::<(), _>(RpcStatus::not_found("busy".to_string()))).is_err());
    assert_eq!(shim.route_sandbox("x-s1").unwrap().1, "xpu");
    assert!(shim.after_remove_container("x-c1", Err::<(), _>(RpcStatus::not_found("busy".to_string()))).is_err());
    assert_eq!(shim.route_container("x-c1").unwrap().1, "xpu");
}

#[test]
fn directory_names_cannot_be_records() {
    let mut shim = two_runtime_shim();
    for bad in ["", ".", ".."] {
        let st = shim.after_run_pod_sandbox("xpu".to_string(), Ok((bad.to_string(), ()))).unwrap_err();
        assert_eq!((st.code, st.message.as_str()), (RpcCode::Internal, "Is a directory (os error 21)"));
        assert_eq!(shim.route_sandbox(bad).unwrap_err().message, "Is a directory (os error 21)");
        assert_eq!(shim.route_container(bad).unwrap_err().message, "Is a directory (os error 21)");
    }
    let mut s = Storage::new();
    assert_eq!(s.persist_sandbox(&Sandbox { id: "".to_string(), runtime: "h".to_string() }).unwrap_err().message(), "Is a directory (os error 21)");
    assert_eq!(s.remove_container("..").unwrap_err().message(), "Is a directory (os error 21)");
    assert!(s.list_sandboxes().is_empty());
}

#[test]
fn connecting_stops_at_the_first_failure_and_keeps_what_was_recorded() {
    let mut shim = RuntimeShim::new("host".to_string(), Storage::new());
    let name = "xpu".to_string();
    match shim.sync_sandboxes(&name, Err("unavailable".to_string())) {
        Err(e) => assert_eq!(e.message(), "unavailable"),
        Ok(()) => panic!("a refused listing must fail the connection"),
    }
    let ids = vec!["a".to_string(), ".".to_string(), "b".to_string()];
    match shim.sync_sandboxes(&name, Ok(ids)) {
        Err(e) => assert_eq!(e.message(), "Is a directory (os error 21)"),
        Ok(()) => panic!("a directory name cannot be recorded"),
    }
    assert_eq!(shim.storage().get_sandbox("a").unwrap().runtime, "xpu");
    assert!(shim.storage().get_sandbox("b").is_err());
    let listed = vec![("c1".to_string(), "a".to_string()), ("c1".to_string(), "b".to_string())];
    shim.sync_containers(&name, Ok(listed)).unwrap();
    assert_eq!(shim.storage().get_container("c1").unwrap().sandbox, "b");
    assert!(shim.runtime_names().is_empty());
}

#[test]
fn storage_loads_records_keeping_the_later_duplicate() {
    let sandboxes = vec![
        ("s1".to_string(), Sandbox { id: "s1".to_string(), runtime: "host".to_string() }),
        ("s2".to_string(), Sandbox { id: "s2".to_string(), runtime: "host".to_string() }),
        ("s1".to_string(), Sandbox { id: "s1".to_string(), runtime: "xpu".to_string() }),
    ];
    let containers = vec![("c1".to_string(), Container { id: "c1".to_string(), sandbox: "s1".to_string(), runtime: "xpu".to_string() })];
    let s = Storage::load(&sandboxes, &containers);
    assert_eq!(s.list_sandboxes().len(), 2);
    assert_eq!(s.get_sandbox("s1").unwrap().runtime, "xpu");
    assert_eq!(s.get_sandbox("s2").unwrap().runtime, "host");
    assert_eq!(s.get_container("c1").unwrap().sandbox, "s1");
    assert!(Storage::load(&vec![], &vec![]).list_containers().is_empty());
}

#[test]
fn storage_reads_a_record_by_the_name_it_was_kept_under() {
    let sandboxes = vec![("file-a".to_string(), Sandbox { id: "inner".to_string(), runtime: "xpu".to_string() })];
    let s = Storage::load(&sandboxes, &vec![]);
    let got = s.get_sandbox("file-a").unwrap();
    assert_eq!((got.id.as_str(), got.runtime.as_str()), ("inner", "xpu"));
    assert!(s.get_sandbox("inner").is_err());
}

#[test]
fn new_container_records_the_sandbox_id_of_its_request() {
    let sandboxes = vec![("s-file".to_string(), Sandbox { id: "s-inner".to_string(), runtime: "host".to_string() })];
    let mut shim = RuntimeShim::new("host".to_string(), Storage::load(&sandboxes, &vec![]));
    connect(&mut shim, "host", vec![], vec![]);
    let (sandbox, rt) = shim.route_sandbox("s-file").unwrap();
    assert_eq!(rt, "host");
    shim.after_create_container("s-file".to_string(), &sandbox, Ok(("c1".to_string(), ()))).unwrap();
    let c = shim.storage().get_container("c1").unwrap();
    assert_eq!((c.sandbox.as_str(), c.runtime.as_str()), ("s-file", "host"));
}

#[test]
fn runtime_names_are_listed_once() {
    let mut rts = Runtimes::new("host".to_string());
    for n in ["a", "b", "a", "c", "b"] {
        rts.register(n.to_string());
    }
    let mut names = rts.names();
    names.sort();
    assert_eq!(names, vec!["a".to_string(), "b".to_string(), "c".to_string()]);
    let mut shim = ImageShim::new("a".to_string());
    shim.add_runtime("a".to_string());
    shim.add_runtime("a".to_string());
    assert_eq!(shim.runtime_names(), vec!["a".to_string()]);
}

#[test]
fn transport_follows_the_lowercased_scheme() {
    match transport_from_scheme("unix://", 4, "UNIX:///run/x.sock") {
        Transport::Unix { path } => assert_eq!(path, "/run/x.sock"),
        Transport::Remote { .. } => panic!("expected a unix socket"),
    }
    match transport_from_scheme("UNIX://", 4, "UNIX:///run/x.sock") {
        Transport::Remote { endpoint } => assert_eq!(endpoint, "UNIX:///run/x.sock"),
        Transport::Unix { .. } => panic!("the scheme must already be lowercased"),
    }
    match transport_from_scheme("http://", 4, "http://h:1") {
        Transport::Remote { endpoint } => assert_eq!(endpoint, "http://h:1"),
        Transport::Unix { .. } => panic!("expected a remote endpoint"),
    }
}
