use chariot::cfg::{ChariotOptions, Commands, Context};
use chariot::common::{ChariotError, RpcCode, RpcStatus};
use chariot::text::{format_i32, format_u32, join_path, same_text};

#[test]
fn formats_unsigned_numbers_in_decimal() {
    assert_eq!(format_u32(0), "0");
    assert_eq!(format_u32(7), "7");
    assert_eq!(format_u32(1234), "1234");
    assert_eq!(format_u32(u32::MAX), "4294967295");
}

#[test]
fn formats_signed_numbers_in_decimal() {
    assert_eq!(format_i32(0), "0");
    assert_eq!(format_i32(-42), "-42");
    assert_eq!(format_i32(31337), "31337");
    assert_eq!(format_i32(i32::MIN), "-2147483648");
    assert_eq!(format_i32(i32::MAX), "2147483647");
}

#[test]
fn joins_paths_with_one_slash() {
    assert_eq!(join_path("/opt/chariot", "images"), "/opt/chariot/images");
    assert_eq!(join_path("", "x"), "/x");
}

#[test]
fn compares_text() {
    assert!(same_text("xpu", "xpu"));
    assert!(!same_text("xpu", "xpU"));
    assert!(!same_text("xpu", "xpu2"));
    assert!(same_text("", ""));
}

#[test]
fn error_message_is_its_text() {
    assert_eq!(ChariotError::NetworkError("down".to_string()).message(), "down");
    assert_eq!(ChariotError::CriError("bad".to_string()).message(), "bad");
    assert_eq!(ChariotError::IOError("disk".to_string()).message(), "disk");
    assert_eq!(ChariotError::JsonError("eof".to_string()).message(), "eof");
}

#[test]
fn errors_become_internal_statuses() {
    let st = RpcStatus::from(ChariotError::IOError("sandbox s1 not found".to_string()));
    assert_eq!(st.code, RpcCode::Internal);
    assert_eq!(st.message, "sandbox s1 not found");
    let st: RpcStatus = ChariotError::CriError("refused".to_string()).into();
    assert_eq!(st.code, RpcCode::Internal);
    assert_eq!(st.message, "refused");
}

#[test]
fn not_found_status() {
    let st = RpcStatus::not_found("gone".to_string());
    assert_eq!(st.code, RpcCode::NotFound);
    assert_eq!(st.message, "gone");
}

#[test]
fn context_comes_from_options() {
    let opts = ChariotOptions {
        work_dir: "/opt/chariot".to_string(),
        command: Commands::Runc { file: "c.yaml".to_string() },
    };
    let cxt = Context::from(&opts);
    assert_eq!(cxt.work_dir(), "/opt/chariot");
    assert_eq!(cxt.image_dir(), "/opt/chariot/images");
    assert_eq!(cxt.container_dir(), "/opt/chariot/containers");
    assert!(cxt == cxt.clone());
    assert!(cxt != Context { work_dir: "/tmp".to_string() });
}

#[test]
fn context_dirs_are_distinct_subdirectories() {
    let cxt = Context { work_dir: "/w".to_string() };
    assert_ne!(cxt.image_dir(), cxt.container_dir());
    assert!(cxt.image_dir().starts_with("/w/"));
    assert!(cxt.container_dir().starts_with("/w/"));
}

#[test]
fn other_commands_carry_no_file() {
    let opts = ChariotOptions { work_dir: "/srv".to_string(), command: Commands::Start };
    assert!(matches!(opts.command, Commands::Start));
    let opts = ChariotOptions { work_dir: "/srv".to_string(), command: Commands::Runp };
    assert_eq!(Context::from(&opts).work_dir(), "/srv");
}
