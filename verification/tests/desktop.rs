use resources::app::App;
use resources::desktop::{
    command_line, data_dirs, executable_name, format_path, get_value, message_locales,
    steam_appid_of_command, try_get_locale, DesktopEntry, DesktopError, GioValues,
};
use resources::process::AppIcon;
use resources::process_data::Containerization;

fn some(s: &str) -> Option<String> {
    Some(s.to_string())
}

#[test]
fn the_home_directory_is_put_in() {
    assert_eq!(format_path("~/.local/share", &some("/home/anna")), "/home/anna/.local/share");
    assert_eq!(format_path("~/a~b", &some("/h")), "/h/a/hb");
    assert_eq!(format_path("~/x", &None), "//x");
    assert_eq!(format_path("/usr/~x", &some("/h")), "/usr/~x");
    assert_eq!(format_path("~", &some("/h")), "~");
}

#[test]
fn data_directories_end_with_the_local_one() {
    assert_eq!(
        data_dirs(&None, &some("/h")),
        vec!["/usr/share", "/h/.local/share", "/h/.local/share"]
    );
    assert_eq!(data_dirs(&some("/a:~/b"), &some("/h")), vec!["/a", "/h/b", "/h/.local/share"]);
    assert_eq!(data_dirs(&some(""), &some("/h")), vec!["", "/h/.local/share"]);
}

#[test]
fn locales_are_listed_once_with_their_short_forms() {
    assert_eq!(
        message_locales(&vec![None, some("de_AT:en"), some("de_DE.UTF-8"), some("C")]),
        vec!["de_AT", "de", "en", "de_DE.UTF-8", "de_DE", "C"]
    );
    assert_eq!(message_locales(&vec![]), Vec::<String>::new());
}

fn pairs(list: &[(&str, &str)]) -> Vec<(String, String)> {
    list.iter().map(|(k, v)| (k.to_string(), v.to_string())).collect()
}

#[test]
fn translated_values_come_first() {
    let p = pairs(&[("Name", "Maps"), ("Name[de]", "Karten"), ("Name[fr]", "Cartes")]);
    let locales = |list: &[&str]| list.iter().map(|s| s.to_string()).collect::<Vec<_>>();
    assert_eq!(try_get_locale(&p, "Name", &locales(&["it", "fr", "de"])), some("Cartes"));
    assert_eq!(try_get_locale(&p, "Name", &locales(&["it"])), some("Maps"));
    assert_eq!(try_get_locale(&p, "Comment", &locales(&["de"])), None);
    assert_eq!(get_value(&p, "Name[de]"), some("Karten"));
    assert_eq!(get_value(&p, "Icon"), None);
}

#[test]
fn steam_games_are_recognised_by_their_command() {
    assert_eq!(steam_appid_of_command(&some("steam steam://rungameid/440")), some("440"));
    assert_eq!(steam_appid_of_command(&some("steam")), None);
    assert_eq!(steam_appid_of_command(&None), None);
}

const MAPS: &str = "[Desktop Entry]\nName=Maps\nName[de]=Karten\nComment=Find places\nExec=env A=1 /usr/bin/maps --new %U\nIcon=org.maps\n\n[Desktop Action x]\nName=Other\n";

#[test]
fn a_desktop_file_is_read() {
    let e = App::from_desktop_file_own_implementation(MAPS, &vec!["de".to_string()]).ok().unwrap();
    assert_eq!(e.id, None);
    assert_eq!(e.command, some("env A=1 /usr/bin/maps --new %U"));
    assert_eq!(e.icon, some("org.maps"));
    assert_eq!(e.name, some("Karten"));
    assert_eq!(e.comment, some("Find places"));
    assert!(!e.has_snap && !e.has_appimage);
    assert_eq!(e.steam_appid, None);
    let app = App::from_desktop_file(&e, &some("org.maps"), false).ok().unwrap();
    assert_eq!(app.id, some("org.maps"));
    assert_eq!(app.commandline, some("/usr/bin/maps --new %U"));
    assert_eq!(app.executable_name, some("maps"));
    assert_eq!(app.display_name, "Karten");
    assert_eq!(app.description, some("Find places"));
    assert!(matches!(&app.icon, AppIcon::Themed(name) if name == "org.maps"));
    assert_eq!(app.containerization, Containerization::Host);
    assert!(app.processes.is_empty());
}

#[test]
fn a_malformed_desktop_file_is_refused() {
    assert_eq!(
        App::from_desktop_file_own_implementation("[Desktop Entry\nName=x", &vec![]).err(),
        Some(DesktopError::Malformed)
    );
    assert_eq!(
        App::from_desktop_file_own_implementation("[Other]\nName=x\n", &vec![]).err(),
        Some(DesktopError::NoEntry)
    );
}

#[test]
fn sandboxed_applications_are_recognised() {
    let read = |s: &str| App::from_desktop_file_own_implementation(s, &vec![]).ok().unwrap();
    let flatpak = read("[Desktop Entry]\nExec=/usr/bin/flatpak run --branch=stable --command=gnome-maps org.gnome.Maps\nX-Flatpak=org.gnome.Maps\n");
    let app = App::from_desktop_file(&flatpak, &some("file"), false).ok().unwrap();
    assert_eq!(app.id, some("org.gnome.Maps"));
    assert_eq!(app.executable_name, some("gnome-maps"));
    assert_eq!(app.display_name, "org.gnome.Maps");
    assert_eq!(app.containerization, Containerization::Flatpak);
    assert!(matches!(&app.icon, AppIcon::Themed(name) if name == "generic-process"));

    let snap = read("[Desktop Entry]\nExec=/snap/bin/firefox\nX-SnapInstanceName=firefox\n");
    let app = App::from_desktop_file(&snap, &some("firefox_firefox"), false).ok().unwrap();
    assert_eq!(app.containerization, Containerization::Snap);

    let image = read("[Desktop Entry]\nExec=x\nX-ExecLocation=/opt/a.AppImage\nX-AppImage-Identifier=a.b.c\n");
    let app = App::from_desktop_file(&image, &some("file"), false).ok().unwrap();
    assert_eq!(app.id, some("a.b.c"));
    assert_eq!(app.commandline, some("/opt/a.AppImage"));
    assert_eq!(app.containerization, Containerization::AppImage);

    let steam = read("[Desktop Entry]\nExec=steam steam://rungameid/440\nIcon=/x.png\n");
    let app = App::from_desktop_file(&steam, &some("hl2"), true).ok().unwrap();
    assert_eq!(app.executable_name, some("steam_440"));
    assert!(matches!(&app.icon, AppIcon::File(name) if name == "/x.png"));
}

fn gio(flatpak: Option<&str>, location: Option<&str>) -> GioValues {
    GioValues {
        flatpak: flatpak.map(String::from),
        appimage_identifier: some("a.b.c"),
        command_location: location.map(String::from),
        command: some("steam steam://rungameid/440"),
        icon: some("x"),
        name: some("Karten"),
        description: some("Orte"),
        has_snap: false,
        has_appimage: true,
    }
}

#[test]
fn what_gio_loads_counts_first() {
    let e = App::read_desktop_file(&Some(gio(None, None)), &some(MAPS), &vec![]).ok().unwrap();
    assert_eq!(e.id, some("a.b.c"));
    assert_eq!(e.command, some("steam steam://rungameid/440"));
    assert_eq!(e.steam_appid, some("440"));
    assert_eq!((e.icon, e.name, e.comment), (some("x"), some("Karten"), some("Orte")));
    assert!(e.has_appimage && !e.has_snap);
    let e = App::from_desktop_file_gio(&Some(gio(Some("f"), Some("/opt/x")))).ok().unwrap();
    assert_eq!((e.id, e.command, e.steam_appid), (some("f"), some("/opt/x"), None));
}

#[test]
fn a_file_that_gio_does_not_load_is_read() {
    assert_eq!(App::from_desktop_file_gio(&None).err(), Some(DesktopError::NotLoaded));
    let e = App::read_desktop_file(&None, &some(MAPS), &vec![]).ok().unwrap();
    assert_eq!(e.name, some("Maps"));
    assert_eq!(App::read_desktop_file(&None, &None, &vec![]).err(), Some(DesktopError::Unreadable));
    assert_eq!(App::read_desktop_file(&None, &some("[x]\n"), &vec![]).err(), Some(DesktopError::NoEntry));
}

fn entry(command: Option<&str>) -> DesktopEntry {
    DesktopEntry {
        id: None,
        command: command.map(String::from),
        icon: None,
        name: None,
        comment: None,
        has_snap: false,
        has_appimage: false,
        steam_appid: None,
    }
}

#[test]
fn some_applications_do_not_count() {
    let stem = some("x");
    assert_eq!(App::from_desktop_file(&entry(None), &None, false).err(), Some(DesktopError::NoId));
    assert_eq!(
        App::from_desktop_file(&entry(None), &some("gnome-wifi-panel"), false).err(),
        Some(DesktopError::BlockedId)
    );
    for shell in ["bash", "/usr/bin/zsh -c x", "/usr/bin/flatpak run org.x"] {
        assert_eq!(
            App::from_desktop_file(&entry(Some(shell)), &stem, false).err(),
            Some(DesktopError::BlockedExecutable),
            "{shell}"
        );
    }
    let plain = App::from_desktop_file(&entry(None), &stem, false).ok().unwrap();
    assert_eq!((plain.commandline, plain.executable_name), (None, None));
}

#[test]
fn executables_are_named_by_the_last_part_of_the_path() {
    assert_eq!(executable_name(&some("/usr/bin/a b/c"), &None, &None), some("a"));
    assert_eq!(executable_name(&some("/usr/bin/a"), &some("/app/bin/z"), &None), some("z"));
    assert_eq!(executable_name(&some("a"), &None, &some("440")), some("steam_440"));
    assert_eq!(executable_name(&None, &None, &None), None);
    assert_eq!(executable_name(&some(""), &None, &None), some(""));
    assert_eq!(command_line(&some("env A=1 x"), some("x")), some("x"));
    assert_eq!(command_line(&some("y"), None), some("y"));
    assert_eq!(command_line(&None, None), None);
}

#[test]
fn an_application_can_be_made_of_its_parts() {
    let app = App::from_entry(&entry(Some("env A=1 /a/b")), &some("x"), false, some("/a/b"), &None).ok().unwrap();
    assert_eq!(app.executable_name, some("b"));
    assert_eq!((app.read_bytes_from_dead_processes, app.write_bytes_from_dead_processes), (0, 0));
}
