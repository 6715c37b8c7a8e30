use resources::cgroup::{cgroup_from_captures, decode_hex_escapes, sanitize_cgroup};

fn some(s: &str) -> Option<String> {
    Some(s.to_string())
}

#[test]
fn application_slices_name_launcher_and_application() {
    assert_eq!(
        sanitize_cgroup("0::/user.slice/user-1000.slice/user@1000.service/app.slice/app-gnome-org.gnome.Calculator-1234.scope"),
        (some("gnome"), some("org.gnome.Calculator"))
    );
    assert_eq!(
        sanitize_cgroup("0::/user.slice/user@1000.service/background.slice/app-flatpak-org.gnome.Maps-77.scope"),
        (some("flatpak"), some("org.gnome.Maps"))
    );
    assert_eq!(
        sanitize_cgroup("0::/user.slice/user@1000.service/app.slice/app-org.gnome.Terminal.slice/x.scope"),
        (None, some("org.gnome.Terminal.slice/x"))
    );
    assert_eq!(
        sanitize_cgroup("0::/user.slice/user@1000.service/app.slice/app-steam@12.service"),
        (None, some("steam"))
    );
    assert_eq!(
        sanitize_cgroup("0::/user.slice/user@1000.service/app.slice/dbus-:1.2-org.gnome.Nautilus@0.service"),
        (some("1.2"), some("org.gnome.Nautilus"))
    );
}

#[test]
fn snap_groups_name_the_snap() {
    assert_eq!(
        sanitize_cgroup("0::/user.slice/user@1000.service/app.slice/snap.firefox.firefox-0123abcd-1234-5678-9abc-0123456789ab.scope"),
        (some("snap"), some("firefox.firefox"))
    );
    assert_eq!(
        sanitize_cgroup("0::/x/snap.my-snap_one.an-app-0123abcd-1234-5678-9abc-0123456789ab.service"),
        (some("snap"), some("my-snap_one.an-app"))
    );
}

#[test]
fn other_groups_name_nothing() {
    assert_eq!(sanitize_cgroup("0::/init.scope"), (None, None));
    assert_eq!(sanitize_cgroup(""), (None, None));
    assert_eq!(sanitize_cgroup("0::/x/snap.firefox.firefox-nope.scope"), (None, None));
}

#[test]
fn escapes_in_a_group_are_decoded() {
    assert_eq!(
        sanitize_cgroup("0::/user.slice/app.slice/app-gnome-mullvad\\x2dvpn-1234.scope"),
        (some("gnome"), some("mullvad-vpn"))
    );
}

#[test]
fn hexadecimal_escapes() {
    assert_eq!(decode_hex_escapes("a\\x2db"), some("a-b"));
    assert_eq!(decode_hex_escapes("\\xc3\\xA4"), some("ä"));
    assert_eq!(decode_hex_escapes("plain äöü"), some("plain äöü"));
    assert_eq!(decode_hex_escapes(""), some(""));
    assert_eq!(decode_hex_escapes("\\x2"), some("\\x2"));
    assert_eq!(decode_hex_escapes("\\y2d"), some("\\y2d"));
    assert_eq!(decode_hex_escapes("\\xg0x"), None);
    assert_eq!(decode_hex_escapes("\\x0gx"), None);
    assert_eq!(decode_hex_escapes("\\xff"), None);
}

#[test]
fn escaped_bytes_are_read_back() {
    let text = "mullvad-vpn ü";
    let escaped: String = text.bytes().map(|b| format!("\\x{b:02x}")).collect();
    assert_eq!(decode_hex_escapes(&escaped), some(text));
}

#[test]
fn the_application_slice_counts_before_the_snap() {
    let groups = |list: &[Option<&str>]| Some(list.iter().map(|g| g.map(String::from)).collect::<Vec<_>>());
    let slice = groups(&[Some("all"), None, Some("app\\x2dname")]);
    let snap = groups(&[Some("all"), Some("a.b")]);
    assert_eq!(cgroup_from_captures(&slice, &snap), (None, some("app-name")));
    assert_eq!(cgroup_from_captures(&None, &snap), (some("snap"), some("a.b")));
    assert_eq!(cgroup_from_captures(&None, &None), (None, None));
    let broken = groups(&[Some("all"), Some("\\xzz1"), Some("app")]);
    assert_eq!(cgroup_from_captures(&broken, &None), (None, some("app")));
}
