use chariot::runc::{cgroup_procs_write, exec_command, has_nul, layer_paths, netlink_port, root_mapping_line, user_mapping_writes};

#[test]
fn maps_root_to_the_calling_user() {
    let w = user_mapping_writes(4321, 1000, 1001);
    assert_eq!(w.len(), 3);
    assert_eq!((w[0].path.as_str(), w[0].contents.as_str()), ("/proc/4321/uid_map", "0 1000 1"));
    assert_eq!((w[1].path.as_str(), w[1].contents.as_str()), ("/proc/4321/setgroups", "deny"));
    assert_eq!((w[2].path.as_str(), w[2].contents.as_str()), ("/proc/4321/gid_map", "0 1001 1"));
    assert_eq!(root_mapping_line(0), "0 0 1");
}

#[test]
fn moves_a_process_into_its_cgroup() {
    let w = cgroup_procs_write("/sys/fs/cgroup/chariot/c1", 77);
    assert_eq!(w.path, "/sys/fs/cgroup/chariot/c1/cgroup.procs");
    assert_eq!(w.contents, "77");
}

#[test]
fn finds_layer_archives() {
    let v = layer_paths("/opt/chariot/images/alpine", &vec!["abc".to_string(), "def".to_string()]);
    assert_eq!(v, vec!["/opt/chariot/images/alpine/abc".to_string(), "/opt/chariot/images/alpine/def".to_string()]);
    assert!(layer_paths("/x", &vec![]).is_empty());
}

#[test]
fn builds_the_command_to_execute() {
    let (cmd, args) = exec_command(&vec!["/bin/sh".to_string(), "-c".to_string(), "a\0b".to_string(), "echo".to_string()]).unwrap();
    assert_eq!(cmd, "/bin/sh");
    assert_eq!(args, vec!["/bin/sh".to_string(), "-c".to_string(), "echo".to_string()]);
    assert!(exec_command(&vec!["/bin/\0sh".to_string()]).is_none());
    assert!(has_nul("a\0"));
    assert!(!has_nul("abc"));
}

#[test]
fn netlink_port_is_the_pid() {
    assert_eq!(netlink_port(0), Some(0));
    assert_eq!(netlink_port(1234), Some(1234));
    assert_eq!(netlink_port(-1), None);
    assert_eq!(netlink_port(i32::MAX), Some(2147483647));
}
