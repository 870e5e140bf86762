use input_capture::error::CaptureError;
use input_capture::gnome_shell::GnomeShell;
use input_capture::object_path::object_path;
use input_capture::text::decimal_text;

#[test]
fn decimal_notation() {
    for n in [0, 7, 10, 99, 100, 4096, 1_000_000_007, u64::MAX] {
        assert_eq!(decimal_text(n), n.to_string());
    }
}

#[test]
fn object_paths() {
    for path in ["/", "/a", "/Path/t0/0bject", "/org/gnome/Shell", "/_/u0"] {
        assert_eq!(object_path(path.to_owned()).unwrap(), path);
    }
    for path in ["", "a", "//", "/a/", "/a//b", "/ha.d", ".", "/a b", "/\u{e9}", "/a-b"] {
        assert!(matches!(object_path(path.to_owned()), Err(CaptureError::InvalidObjectPath)));
    }
    assert_eq!(CaptureError::InvalidObjectPath.message(), "Invalid object path");
}

#[test]
fn shell() {
    let shell = GnomeShell;
    assert_eq!(shell.shell_version(), "47.0");
    assert_eq!(shell.mode(), "user");
    assert_eq!(GnomeShell::bus_path(), "/org/gnome/Shell");
    assert_eq!(GnomeShell::bus_name(), "org.gnome.Shell");
    let refused = shell.eval("1 + 1".to_owned()).unwrap_err();
    assert_eq!(refused.message(), "JavaScript evaluation not supported in niri");
}
