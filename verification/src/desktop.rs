//! Desktop files: where they are, what they say, and the applications that they
//! make up.

use vstd::prelude::*;

use crate::app::{App, AppView};
use crate::pattern;
use crate::process::{AppIcon, IconView};
use crate::process_data::Containerization;
use crate::text;

verus! {

// Directories and locales ----------------------------------------------------------------

/// The text with every `c` replaced by `by`.
pub open spec fn replaced(s: Seq<char>, c: char, by: Seq<char>) -> Seq<char>
    decreases s.len(),
{
    if s.len() == 0 {
        s
    } else if s.last() == c {
        replaced(s.drop_last(), c, by) + by
    } else {
        replaced(s.drop_last(), c, by).push(s.last())
    }
}

/// A path with the home directory in place of `~`, where it begins with `~/`. The
/// home directory is `/` where it is not known.
pub open spec fn formatted_path(path: Seq<char>, home: Option<Seq<char>>) -> Seq<char> {
    if text::starts_with(path, "~/"@) {
        replaced(
            path,
            '~',
            match home {
                Some(home) => home,
                None => "/"@,
            },
        )
    } else {
        path
    }
}

/// A path with the home directory in place of `~`.
pub fn format_path(path: &str, home: &Option<String>) -> (r: String)
    ensures
        r@ == formatted_path(path@, text::opt_text(*home)),
{
    if !text::has_prefix(path, "~/") {
        return path.to_string();
    }
    let home: Vec<char> = match home {
        Some(home) => text::to_chars(home.as_str()),
        None => text::to_chars("/"),
    };
    let chars: Vec<char> = text::to_chars(path);
    let mut r: Vec<char> = Vec::new();
    let mut i: usize = 0;
    proof {
        assert(chars@.take(0) =~= Seq::<char>::empty());
    }
    while i < chars.len()
        invariant
            i <= chars.len(),
            r@ == replaced(chars@.take(i as int), '~', home@),
        decreases chars.len() - i,
    {
        proof {
            assert(chars@.take(i + 1).drop_last() =~= chars@.take(i as int));
            assert(chars@.take(i + 1).last() == chars@[i as int]);
        }
        if chars[i] == '~' {
            text::append_chars(&mut r, &home);
        } else {
            r.push(chars[i]);
        }
        i += 1;
    }
    proof {
        assert(chars@.take(i as int) =~= chars@);
    }
    text::to_text(&r)
}

/// The directory for the user's own data.
pub open spec fn local_share(home: Option<Seq<char>>) -> Seq<char> {
    formatted_path("~/.local/share"@, home)
}

/// The directories for data: those that the environment names, or else the one of
/// the system, and last the user's own.
pub open spec fn data_dirs_of(xdg: Option<Seq<char>>, home: Option<Seq<char>>) -> Seq<Seq<char>> {
    let dirs = text::split(
        match xdg {
            Some(dirs) => dirs,
            None => "/usr/share:"@ + local_share(home),
        },
        ':',
    );
    Seq::new(dirs.len(), |i: int| formatted_path(dirs[i], home)).push(local_share(home))
}

/// The directories for data, from what the environment says in `XDG_DATA_DIRS` and
/// `HOME`.
pub fn data_dirs(xdg: &Option<String>, home: &Option<String>) -> (r: Vec<String>)
    ensures
        text::strings(r@) == data_dirs_of(text::opt_text(*xdg), text::opt_text(*home)),
{
    let local: String = format_path("~/.local/share", home);
    let all: Vec<char> = match xdg {
        Some(dirs) => text::to_chars(dirs.as_str()),
        None => {
            let mut all: Vec<char> = text::to_chars("/usr/share:");
            text::append_chars(&mut all, &text::to_chars(local.as_str()));
            all
        },
    };
    let dirs: Vec<Vec<char>> = text::split_chars(&all, ':');
    let ghost parts = text::split(all@, ':');
    let mut r: Vec<String> = Vec::new();
    let mut i: usize = 0;
    while i < dirs.len()
        invariant
            i <= dirs.len(),
            text::texts(dirs@) == parts,
            r.len() == i,
            forall|j: int|
                0 <= j < i ==> (#[trigger] r@[j])@ == formatted_path(
                    parts[j],
                    text::opt_text(*home),
                ),
        decreases dirs.len() - i,
    {
        let dir: String = text::to_text(&dirs[i]);
        proof {
            assert(parts[i as int] == dirs@[i as int]@);
        }
        r.push(format_path(dir.as_str(), home));
        i += 1;
    }
    r.push(local);
    proof {
        assert(text::strings(r@) =~= data_dirs_of(text::opt_text(*xdg), text::opt_text(*home)));
    }
    r
}

/// The list with a text at the end, unless it is in it already.
pub open spec fn with_text(list: Seq<Seq<char>>, s: Seq<char>) -> Seq<Seq<char>> {
    if list.contains(s) {
        list
    } else {
        list.push(s)
    }
}

/// The list with the text before the first `c`, where there is a `c`.
pub open spec fn with_head(list: Seq<Seq<char>>, s: Seq<char>, c: char) -> Seq<Seq<char>> {
    match text::split_once(s, c) {
        Some((head, _)) => with_text(list, head),
        None => list,
    }
}

/// The list with a locale, followed by the locale without its encoding and without
/// its country.
pub open spec fn with_locale(list: Seq<Seq<char>>, locale: Seq<char>) -> Seq<Seq<char>> {
    with_head(with_head(with_text(list, locale), locale, '.'), locale, '_')
}

/// The list with several locales.
pub open spec fn with_locales(list: Seq<Seq<char>>, locales: Seq<Seq<char>>) -> Seq<Seq<char>>
    decreases locales.len(),
{
    if locales.len() == 0 {
        list
    } else {
        with_locale(with_locales(list, locales.drop_last()), locales.last())
    }
}

/// The locales of several variables, each of which may name more than one.
pub open spec fn locales_of(vars: Seq<Option<Seq<char>>>) -> Seq<Seq<char>>
    decreases vars.len(),
{
    if vars.len() == 0 {
        Seq::<Seq<char>>::empty()
    } else {
        let before = locales_of(vars.drop_last());
        match vars.last() {
            Some(value) => with_locales(before, text::split(value, ':')),
            None => before,
        }
    }
}

fn push_new(list: &mut Vec<String>, s: &Vec<char>)
    ensures
        text::strings(final(list)@) == with_text(text::strings(old(list)@), s@),
{
    let ghost before = text::strings(list@);
    let item: String = text::to_text(s);
    let mut i: usize = 0;
    while i < list.len()
        invariant
            i <= list.len(),
            item@ == s@,
            before == text::strings(list@),
            forall|j: int| 0 <= j < i ==> before[j] != s@,
        decreases list.len() - i,
    {
        if text::same_text(list[i].as_str(), item.as_str()) {
            proof {
                assert(before[i as int] == s@);
            }
            return;
        }
        i += 1;
    }
    list.push(item);
    proof {
        assert(text::strings(list@) =~= before.push(s@));
    }
}

fn push_head(list: &mut Vec<String>, s: &Vec<char>, c: char)
    ensures
        text::strings(final(list)@) == with_head(text::strings(old(list)@), s@, c),
{
    if let Some((head, _)) = text::split_once_chars(s, c) {
        push_new(list, &head);
    }
}

/// The locales for names and descriptions, from the values of `LC_MESSAGES`,
/// `LANGUAGE`, `LANG` and `LC_ALL` in this order.
pub fn message_locales(vars: &Vec<Option<String>>) -> (r: Vec<String>)
    ensures
        text::strings(r@) == locales_of(pattern::group_texts(vars@)),
{
    let ghost all = pattern::group_texts(vars@);
    let mut r: Vec<String> = Vec::new();
    let mut i: usize = 0;
    proof {
        assert(all.take(0) =~= Seq::<Option<Seq<char>>>::empty());
        assert(text::strings(r@) =~= Seq::<Seq<char>>::empty());
    }
    while i < vars.len()
        invariant
            i <= vars.len(),
            all == pattern::group_texts(vars@),
            text::strings(r@) == locales_of(all.take(i as int)),
        decreases vars.len() - i,
    {
        let ghost before = text::strings(r@);
        proof {
            assert(all.take(i + 1).drop_last() =~= all.take(i as int));
            assert(all.take(i + 1).last() == text::opt_text(vars@[i as int]));
        }
        if let Some(value) = &vars[i] {
            let locales: Vec<Vec<char>> = text::split_chars(&text::to_chars(value.as_str()), ':');
            let ghost parts = text::texts(locales@);
            let mut j: usize = 0;
            proof {
                assert(parts.take(0) =~= Seq::<Seq<char>>::empty());
            }
            while j < locales.len()
                invariant
                    j <= locales.len(),
                    parts == text::texts(locales@),
                    text::strings(r@) == with_locales(before, parts.take(j as int)),
                decreases locales.len() - j,
            {
                proof {
                    assert(parts.take(j + 1).drop_last() =~= parts.take(j as int));
                    assert(parts.take(j + 1).last() == locales@[j as int]@);
                }
                push_new(&mut r, &locales[j]);
                push_head(&mut r, &locales[j], '.');
                push_head(&mut r, &locales[j], '_');
                j += 1;
            }
            proof {
                assert(parts.take(j as int) =~= parts);
            }
        }
        i += 1;
    }
    proof {
        assert(all.take(i as int) =~= all);
    }
    r
}

// Desktop entries -----------------------------------------------------------------------------

pub const RE_ENV_FILTER: &'static str = r"env\s*\S*=\S*\s*(.*)";

pub const RE_FLATPAK_FILTER: &'static str = r"flatpak run .* --command=(\S*)";

pub const RE_STEAM_APPID: &'static str = r"steam://rungameid/(\d+)";

/// What a desktop file says.
pub struct DesktopEntry {
    pub id: Option<String>,
    pub command: Option<String>,
    pub icon: Option<String>,
    pub name: Option<String>,
    pub comment: Option<String>,
    pub has_snap: bool,
    pub has_appimage: bool,
    pub steam_appid: Option<String>,
}

/// What a `DesktopEntry` holds.
#[verifier::ext_equal]
pub struct EntryView {
    pub id: Option<Seq<char>>,
    pub command: Option<Seq<char>>,
    pub icon: Option<Seq<char>>,
    pub name: Option<Seq<char>>,
    pub comment: Option<Seq<char>>,
    pub has_snap: bool,
    pub has_appimage: bool,
    pub steam_appid: Option<Seq<char>>,
}

impl View for DesktopEntry {
    type V = EntryView;

    open spec fn view(&self) -> EntryView {
        EntryView {
            id: text::opt_text(self.id),
            command: text::opt_text(self.command),
            icon: text::opt_text(self.icon),
            name: text::opt_text(self.name),
            comment: text::opt_text(self.comment),
            has_snap: self.has_snap,
            has_appimage: self.has_appimage,
            steam_appid: text::opt_text(self.steam_appid),
        }
    }
}

/// Why a desktop file makes up no application.
#[derive(Debug, Clone, Copy, PartialEq, Eq, Structural)]
pub enum DesktopError {
    /// GIO does not load the file.
    NotLoaded,
    /// The file cannot be read.
    Unreadable,
    /// The file is malformed.
    Malformed,
    /// The file has no section for an application.
    NoEntry,
    /// The application has no identifier.
    NoId,
    /// The identifier is one that does not count as an application.
    BlockedId,
    /// The executable is one that does not count as an application.
    BlockedExecutable,
}

/// A section of a file in the INI format.
pub enum IniSection {
    Malformed,
    Missing,
    Found(Vec<(String, String)>),
}

/// The texts of pairs of strings.
pub open spec fn pair_texts(pairs: Seq<(String, String)>) -> Seq<(Seq<char>, Seq<char>)> {
    Seq::new(pairs.len(), |i: int| (pairs[i].0@, pairs[i].1@))
}

/// What an `IniSection` holds: nothing where the file is malformed, no pairs where
/// it has no such section.
pub open spec fn section_view(s: IniSection) -> Option<Option<Seq<(Seq<char>, Seq<char>)>>> {
    match s {
        IniSection::Malformed => None,
        IniSection::Missing => Some(None),
        IniSection::Found(pairs) => Some(Some(pair_texts(pairs@))),
    }
}

/// What the `ini` crate finds in a file under the name of a section: nothing where
/// the file is malformed, else the pairs of the section if there is one. It depends
/// on the two texts alone.
pub uninterp spec fn ini_section_of(content: Seq<char>, section: Seq<char>) -> Option<
    Option<Seq<(Seq<char>, Seq<char>)>>,
>;

/// Calls `ini::Ini::load_from_str` and `Ini::section`, and of the section
/// `Properties::iter`, which lists its pairs in the order of the file. Claimed is
/// only that the result is determined by the two texts; how the format is read is
/// left unsaid.
#[verifier::external_body]
fn ini_section(content: &str, section: &str) -> (r: IniSection)
    ensures
        section_view(r) == ini_section_of(content@, section@),
{
    match ini::Ini::load_from_str(content) {
        Err(_) => IniSection::Malformed,
        Ok(ini) => match ini.section(Some(section)) {
            None => IniSection::Missing,
            Some(properties) => IniSection::Found(
                properties.iter().map(|(k, v)| (k.to_string(), v.to_string())).collect(),
            ),
        },
    }
}

/// The first value of a key.
pub open spec fn value_of(pairs: Seq<(Seq<char>, Seq<char>)>, key: Seq<char>) -> Option<Seq<char>>
    decreases pairs.len(),
{
    if pairs.len() == 0 {
        None
    } else if pairs[0].0 == key {
        Some(pairs[0].1)
    } else {
        value_of(pairs.skip(1), key)
    }
}

/// The first value of a key.
pub fn get_value(pairs: &Vec<(String, String)>, key: &str) -> (r: Option<String>)
    ensures
        text::opt_text(r) == value_of(pair_texts(pairs@), key@),
{
    let ghost all = pair_texts(pairs@);
    let mut i: usize = 0;
    proof {
        assert(all.skip(0) =~= all);
    }
    while i < pairs.len()
        invariant
            i <= pairs.len(),
            all == pair_texts(pairs@),
            value_of(all.skip(i as int), key@) == value_of(all, key@),
        decreases pairs.len() - i,
    {
        proof {
            assert(all.skip(i as int)[0] == (pairs@[i as int].0@, pairs@[i as int].1@));
            assert(all.skip(i as int).skip(1) =~= all.skip(i + 1));
        }
        if text::same_text(pairs[i].0.as_str(), key) {
            return Some(pairs[i].1.clone());
        }
        i += 1;
    }
    None
}

/// The first of two values that is there.
pub open spec fn either(a: Option<Seq<char>>, b: Option<Seq<char>>) -> Option<Seq<char>> {
    match a {
        Some(_) => a,
        None => b,
    }
}

/// The key of a value in a locale.
pub open spec fn locale_key(key: Seq<char>, locale: Seq<char>) -> Seq<char> {
    key + seq!['['] + locale + seq![']']
}

/// The value of a key in the first locale that has one, or else the one without a
/// locale.
pub open spec fn localized(
    pairs: Seq<(Seq<char>, Seq<char>)>,
    key: Seq<char>,
    locales: Seq<Seq<char>>,
) -> Option<Seq<char>>
    decreases locales.len(),
{
    if locales.len() == 0 {
        value_of(pairs, key)
    } else {
        match value_of(pairs, locale_key(key, locales[0])) {
            Some(v) => Some(v),
            None => localized(pairs, key, locales.skip(1)),
        }
    }
}

/// The value of a key in the first locale that has one, or else the one without a
/// locale.
pub fn try_get_locale(
    pairs: &Vec<(String, String)>,
    key: &str,
    locales: &Vec<String>,
) -> (r: Option<String>)
    ensures
        text::opt_text(r) == localized(pair_texts(pairs@), key@, text::strings(locales@)),
{
    let ghost all = text::strings(locales@);
    let ghost texts = pair_texts(pairs@);
    let mut i: usize = 0;
    proof {
        assert(all.skip(0) =~= all);
    }
    while i < locales.len()
        invariant
            i <= locales.len(),
            all == text::strings(locales@),
            texts == pair_texts(pairs@),
            localized(texts, key@, all.skip(i as int)) == localized(texts, key@, all),
        decreases locales.len() - i,
    {
        let mut full: Vec<char> = text::to_chars(key);
        full.push('[');
        text::append_chars(&mut full, &text::to_chars(locales[i].as_str()));
        full.push(']');
        proof {
            assert(full@ =~= locale_key(key@, locales@[i as int]@));
            assert(all.skip(i as int)[0] == locales@[i as int]@);
            assert(all.skip(i as int).skip(1) =~= all.skip(i + 1));
        }
        if let Some(v) = get_value(pairs, text::to_text(&full).as_str()) {
            return Some(v);
        }
        i += 1;
    }
    get_value(pairs, key)
}

/// The Steam application that a command starts.
pub open spec fn steam_appid_capture(command: Option<Seq<char>>) -> Option<Seq<char>> {
    match command {
        Some(e) => pattern::group(pattern::captures_of(RE_STEAM_APPID@, e), 1),
        None => None,
    }
}

/// The Steam application that a command starts.
pub fn steam_appid_of_command(command: &Option<String>) -> (r: Option<String>)
    ensures
        text::opt_text(r) == steam_appid_capture(text::opt_text(*command)),
{
    match command {
        Some(e) => pattern::first_group(RE_STEAM_APPID, e.as_str()),
        None => None,
    }
}

/// The command of a section.
pub open spec fn command_of(pairs: Seq<(Seq<char>, Seq<char>)>) -> Option<Seq<char>> {
    either(value_of(pairs, "X-ExecLocation"@), value_of(pairs, "Exec"@))
}

/// What the pairs of a section say.
pub open spec fn entry_of(
    pairs: Seq<(Seq<char>, Seq<char>)>,
    locales: Seq<Seq<char>>,
    steam_appid: Option<Seq<char>>,
) -> EntryView {
    EntryView {
        id: either(value_of(pairs, "X-Flatpak"@), value_of(pairs, "X-AppImage-Identifier"@)),
        command: command_of(pairs),
        icon: value_of(pairs, "Icon"@),
        name: localized(pairs, "Name"@, locales),
        comment: localized(pairs, "Comment"@, locales),
        has_snap: value_of(pairs, "X-SnapInstanceName"@) is Some,
        has_appimage: value_of(pairs, "X-AppImage-Identifier"@) is Some,
        steam_appid,
    }
}

fn first_of(a: Option<String>, b: Option<String>) -> (r: Option<String>)
    ensures
        text::opt_text(r) == either(text::opt_text(a), text::opt_text(b)),
{
    match a {
        Some(a) => Some(a),
        None => b,
    }
}

impl DesktopEntry {
    /// What the pairs of a section say, given the Steam application that its command
    /// starts.
    pub fn from_section(
        pairs: &Vec<(String, String)>,
        locales: &Vec<String>,
        steam_appid: Option<String>,
    ) -> (r: Self)
        ensures
            r@ == entry_of(
                pair_texts(pairs@),
                text::strings(locales@),
                text::opt_text(steam_appid),
            ),
    {
        let appimage: Option<String> = get_value(pairs, "X-AppImage-Identifier");
        let has_appimage: bool = appimage.is_some();
        DesktopEntry {
            id: first_of(get_value(pairs, "X-Flatpak"), appimage),
            command: first_of(get_value(pairs, "X-ExecLocation"), get_value(pairs, "Exec")),
            icon: get_value(pairs, "Icon"),
            name: try_get_locale(pairs, "Name", locales),
            comment: try_get_locale(pairs, "Comment", locales),
            has_snap: get_value(pairs, "X-SnapInstanceName").is_some(),
            has_appimage,
            steam_appid,
        }
    }
}

/// What the contents of a desktop file say.
pub open spec fn entry_of_file(content: Seq<char>, locales: Seq<Seq<char>>) -> Result<
    EntryView,
    DesktopError,
> {
    match ini_section_of(text::trim(content), "Desktop Entry"@) {
        None => Err(DesktopError::Malformed),
        Some(None) => Err(DesktopError::NoEntry),
        Some(Some(pairs)) => Ok(entry_of(pairs, locales, steam_appid_capture(command_of(pairs)))),
    }
}

impl App {
    /// Reads the contents of a desktop file.
    pub fn from_desktop_file_own_implementation(content: &str, locales: &Vec<String>) -> (r: Result<
        DesktopEntry,
        DesktopError,
    >)
        ensures
            entry_result(r) == entry_of_file(content@, text::strings(locales@)),
    {
        let trimmed: String = text::trimmed(content);
        match ini_section(trimmed.as_str(), "Desktop Entry") {
            IniSection::Malformed => Err(DesktopError::Malformed),
            IniSection::Missing => Err(DesktopError::NoEntry),
            IniSection::Found(pairs) => {
                let command: Option<String> = first_of(
                    get_value(&pairs, "X-ExecLocation"),
                    get_value(&pairs, "Exec"),
                );
                let steam_appid: Option<String> = steam_appid_of_command(&command);
                Ok(DesktopEntry::from_section(&pairs, locales, steam_appid))
            },
        }
    }
}

/// What GIO finds in a desktop file: the values of the keys, the name and the
/// description in the language of the user, and whether there are some other keys.
pub struct GioValues {
    pub flatpak: Option<String>,
    pub appimage_identifier: Option<String>,
    pub command_location: Option<String>,
    pub command: Option<String>,
    pub icon: Option<String>,
    pub name: Option<String>,
    pub description: Option<String>,
    pub has_snap: bool,
    pub has_appimage: bool,
}

/// What a `GioValues` holds.
#[verifier::ext_equal]
pub struct GioView {
    pub flatpak: Option<Seq<char>>,
    pub appimage_identifier: Option<Seq<char>>,
    pub command_location: Option<Seq<char>>,
    pub command: Option<Seq<char>>,
    pub icon: Option<Seq<char>>,
    pub name: Option<Seq<char>>,
    pub description: Option<Seq<char>>,
    pub has_snap: bool,
    pub has_appimage: bool,
}

impl View for GioValues {
    type V = GioView;

    open spec fn view(&self) -> GioView {
        GioView {
            flatpak: text::opt_text(self.flatpak),
            appimage_identifier: text::opt_text(self.appimage_identifier),
            command_location: text::opt_text(self.command_location),
            command: text::opt_text(self.command),
            icon: text::opt_text(self.icon),
            name: text::opt_text(self.name),
            description: text::opt_text(self.description),
            has_snap: self.has_snap,
            has_appimage: self.has_appimage,
        }
    }
}

/// What an optional `GioValues` holds.
pub open spec fn opt_gio(values: Option<GioValues>) -> Option<GioView> {
    match values {
        Some(values) => Some(values@),
        None => None,
    }
}

/// What a desktop file says that GIO has loaded.
pub open spec fn entry_of_gio(values: GioView) -> EntryView {
    let command = either(values.command_location, values.command);
    EntryView {
        id: either(values.flatpak, values.appimage_identifier),
        command,
        icon: values.icon,
        name: values.name,
        comment: values.description,
        has_snap: values.has_snap,
        has_appimage: values.has_appimage,
        steam_appid: steam_appid_capture(command),
    }
}

/// What a desktop file says: as GIO has loaded it, or else by its contents where they
/// can be read.
pub open spec fn entry_by_either(
    gio: Option<GioView>,
    content: Option<Seq<char>>,
    locales: Seq<Seq<char>>,
) -> Result<EntryView, DesktopError> {
    match gio {
        Some(values) => Ok(entry_of_gio(values)),
        None => match content {
            Some(content) => entry_of_file(content, locales),
            None => Err(DesktopError::Unreadable),
        },
    }
}

/// What a `Result` holds of a desktop file.
pub open spec fn entry_result(r: Result<DesktopEntry, DesktopError>) -> Result<
    EntryView,
    DesktopError,
> {
    match r {
        Ok(entry) => Ok(entry@),
        Err(e) => Err(e),
    }
}

impl App {
    /// Takes over what GIO found in a desktop file, where it loaded the file.
    pub fn from_desktop_file_gio(values: &Option<GioValues>) -> (r: Result<
        DesktopEntry,
        DesktopError,
    >)
        ensures
            entry_result(r) == match opt_gio(*values) {
                Some(values) => Ok::<EntryView, DesktopError>(entry_of_gio(values)),
                None => Err::<EntryView, DesktopError>(DesktopError::NotLoaded),
            },
    {
        let Some(values) = values else {
            return Err(DesktopError::NotLoaded);
        };
        let command: Option<String> = first_of(
            text::copy_option(&values.command_location),
            text::copy_option(&values.command),
        );
        let steam_appid: Option<String> = steam_appid_of_command(&command);
        Ok(
            DesktopEntry {
                id: first_of(
                    text::copy_option(&values.flatpak),
                    text::copy_option(&values.appimage_identifier),
                ),
                command,
                icon: text::copy_option(&values.icon),
                name: text::copy_option(&values.name),
                comment: text::copy_option(&values.description),
                has_snap: values.has_snap,
                has_appimage: values.has_appimage,
                steam_appid,
            },
        )
    }

    /// Reads a desktop file: by what GIO found in it, which knows more languages, or else
    /// by its contents, since GIO does not load every file from within a sandbox.
    pub fn read_desktop_file(
        gio: &Option<GioValues>,
        content: &Option<String>,
        locales: &Vec<String>,
    ) -> (r: Result<DesktopEntry, DesktopError>)
        ensures
            entry_result(r) == entry_by_either(
                opt_gio(*gio),
                text::opt_text(*content),
                text::strings(locales@),
            ),
    {
        if let Ok(entry) = Self::from_desktop_file_gio(gio) {
            return Ok(entry);
        }
        match content {
            Some(content) => Self::from_desktop_file_own_implementation(content.as_str(), locales),
            None => Err(DesktopError::Unreadable),
        }
    }
}

// Applications ------------------------------------------------------------------------------------

/// The executables that do not count as applications.
pub open spec fn exec_blocklist() -> Seq<Seq<char>> {
    seq!["bash"@, "zsh"@, "fish"@, "sh"@, "ksh"@, "flatpak"@]
}

/// The identifiers that do not count as applications: the preferences of the
/// terminal, which would stand in the way of the terminal itself, and what is there
/// for technical reasons.
pub open spec fn id_blocklist() -> Seq<Seq<char>> {
    seq![
        "org.gnome.Terminal.Preferences"@,
        "org.freedesktop.IBus.Panel.Extension.Gtk3"@,
        "org.gnome.RemoteDesktop.Handover"@,
        "gnome-software-local-file-packagekit"@,
        "snap-handle-link"@,
        "gnome-about-panel"@,
        "gnome-applications-panel"@,
        "gnome-background-panel"@,
        "gnome-bluetooth-panel"@,
        "gnome-color-panel"@,
        "gnome-datetime-panel"@,
        "gnome-display-panel"@,
        "gnome-keyboard-panel"@,
        "gnome-mouse-panel"@,
        "gnome-multitasking-panel"@,
        "gnome-network-panel"@,
        "gnome-notifications-panel"@,
        "gnome-online-accounts-panel"@,
        "gnome-power-panel"@,
        "gnome-printers-panel"@,
        "gnome-privacy-panel"@,
        "gnome-region-panel"@,
        "gnome-search-panel"@,
        "gnome-sharing-panel"@,
        "gnome-sound-panel"@,
        "gnome-system-panel"@,
        "gnome-universal-access-panel"@,
        "gnome-users-panel"@,
        "gnome-wacom-panel"@,
        "gnome-wifi-panel"@,
        "gnome-wwan-panel"@,
        "org.freedesktop.Xwayland"@,
    ]
}

fn exec_blocked(name: &str) -> (r: bool)
    ensures
        r == exec_blocklist().contains(name@),
{
    let list: Vec<&'static str> = vec!["bash", "zsh", "fish", "sh", "ksh", "flatpak"];
    let ghost texts = exec_blocklist();
    proof {
        assert forall|i: int| 0 <= i < list@.len() implies (#[trigger] list@[i])@ == texts[i] by {}
    }
    one_of(name, &list, Ghost(texts))
}

/// Whether a text is one of a list.
fn one_of(s: &str, list: &Vec<&'static str>, texts: Ghost<Seq<Seq<char>>>) -> (r: bool)
    requires
        texts@.len() == list@.len(),
        forall|i: int| 0 <= i < list@.len() ==> (#[trigger] list@[i])@ == texts@[i],
    ensures
        r == texts@.contains(s@),
{
    let mut i: usize = 0;
    while i < list.len()
        invariant
            i <= list.len(),
            texts@.len() == list@.len(),
            forall|i: int| 0 <= i < list@.len() ==> (#[trigger] list@[i])@ == texts@[i],
            forall|j: int| 0 <= j < i ==> texts@[j] != s@,
        decreases list.len() - i,
    {
        proof {
            assert(list@[i as int]@ == texts@[i as int]);
        }
        if text::same_text(s, list[i]) {
            return true;
        }
        i += 1;
    }
    false
}

fn id_blocked(id: &str) -> (r: bool)
    ensures
        r == id_blocklist().contains(id@),
{
    let list: Vec<&'static str> = vec![
        "org.gnome.Terminal.Preferences",
        "org.freedesktop.IBus.Panel.Extension.Gtk3",
        "org.gnome.RemoteDesktop.Handover",
        "gnome-software-local-file-packagekit",
        "snap-handle-link",
        "gnome-about-panel",
        "gnome-applications-panel",
        "gnome-background-panel",
        "gnome-bluetooth-panel",
        "gnome-color-panel",
        "gnome-datetime-panel",
        "gnome-display-panel",
        "gnome-keyboard-panel",
        "gnome-mouse-panel",
        "gnome-multitasking-panel",
        "gnome-network-panel",
        "gnome-notifications-panel",
        "gnome-online-accounts-panel",
        "gnome-power-panel",
        "gnome-printers-panel",
        "gnome-privacy-panel",
        "gnome-region-panel",
        "gnome-search-panel",
        "gnome-sharing-panel",
        "gnome-sound-panel",
        "gnome-system-panel",
        "gnome-universal-access-panel",
        "gnome-users-panel",
        "gnome-wacom-panel",
        "gnome-wifi-panel",
        "gnome-wwan-panel",
        "org.freedesktop.Xwayland",
    ];
    let ghost texts = id_blocklist();
    proof {
        assert forall|i: int| 0 <= i < list@.len() implies (#[trigger] list@[i])@ == texts[i] by {}
    }
    one_of(id, &list, Ghost(texts))
}

/// The command line of an application: its command, without a leading `env` and the
/// variable that it sets.
pub open spec fn commandline_of(command: Option<Seq<char>>, env: Option<Seq<char>>) -> Option<
    Seq<char>,
> {
    match command {
        Some(e) => match env {
            Some(rest) => Some(rest),
            None => Some(e),
        },
        None => None,
    }
}

/// The name of the executable of an application: the last part of the path of the
/// first word, of what `flatpak` is told to run where it is started by that.
pub open spec fn executable_of(commandline: Seq<char>, flatpak: Option<Seq<char>>) -> Seq<char> {
    let command = match flatpak {
        Some(command) => command,
        None => commandline,
    };
    text::split(text::split(command, ' ')[0], '/').last()
}

/// The name of the executable of an application; of a Steam game it is made of its
/// identifier.
pub open spec fn executable_name_of(
    commandline: Option<Seq<char>>,
    flatpak: Option<Seq<char>>,
    steam_appid: Option<Seq<char>>,
) -> Option<Seq<char>> {
    match steam_appid {
        Some(appid) => Some("steam_"@ + appid),
        None => match commandline {
            Some(c) => Some(executable_of(c, flatpak)),
            None => None,
        },
    }
}

/// The icon of an application.
pub open spec fn icon_of(icon: Option<Seq<char>>, is_file: bool) -> IconView {
    match icon {
        None => IconView::Themed("generic-process"@),
        Some(key) => if is_file {
            IconView::File(key)
        } else {
            IconView::Themed(key)
        },
    }
}

/// In what kind of container an application runs.
pub open spec fn entry_container(entry: EntryView) -> Containerization {
    if entry.command matches Some(e) && text::starts_with(e, "/usr/bin/flatpak run"@) {
        Containerization::Flatpak
    } else if entry.has_snap {
        Containerization::Snap
    } else if entry.has_appimage {
        Containerization::AppImage
    } else {
        Containerization::Host
    }
}

/// The application that a desktop file makes up, given what the two filters capture
/// in its command. Its identifier is the one that the file names, or else the name of
/// the file; it is also its name where the file gives none.
pub open spec fn app_of_entry(
    entry: EntryView,
    file_stem: Option<Seq<char>>,
    icon_is_file: bool,
    env: Option<Seq<char>>,
    flatpak: Option<Seq<char>>,
) -> Result<AppView, DesktopError> {
    match either(entry.id, file_stem) {
        None => Err(DesktopError::NoId),
        Some(id) => {
            let commandline = commandline_of(entry.command, env);
            let executable_name = executable_name_of(commandline, flatpak, entry.steam_appid);
            if id_blocklist().contains(id) {
                Err(DesktopError::BlockedId)
            } else if executable_name matches Some(name) && exec_blocklist().contains(name) {
                Err(DesktopError::BlockedExecutable)
            } else {
                Ok(
                    AppView {
                        processes: Seq::<i32>::empty(),
                        commandline,
                        executable_name,
                        display_name: match entry.name {
                            Some(name) => name,
                            None => id,
                        },
                        description: entry.comment,
                        icon: icon_of(entry.icon, icon_is_file),
                        id: Some(id),
                        read_bytes_from_dead_processes: 0,
                        write_bytes_from_dead_processes: 0,
                        containerization: entry_container(entry),
                    },
                )
            }
        },
    }
}

/// What the filter for `env` captures in a command.
pub open spec fn env_capture(command: Option<Seq<char>>) -> Option<Seq<char>> {
    match command {
        Some(e) => pattern::group(pattern::captures_of(RE_ENV_FILTER@, e), 1),
        None => None,
    }
}

/// What the filter for `flatpak` captures in a command line.
pub open spec fn flatpak_capture(commandline: Option<Seq<char>>) -> Option<Seq<char>> {
    match commandline {
        Some(c) => pattern::group(pattern::captures_of(RE_FLATPAK_FILTER@, c), 1),
        None => None,
    }
}

/// What a `Result` holds of an application.
pub open spec fn app_result(r: Result<App, DesktopError>) -> Result<AppView, DesktopError> {
    match r {
        Ok(app) => Ok(app@),
        Err(e) => Err(e),
    }
}

/// The command line of an application, given what the filter for `env` captures.
pub fn command_line(command: &Option<String>, env: Option<String>) -> (r: Option<String>)
    ensures
        text::opt_text(r) == commandline_of(text::opt_text(*command), text::opt_text(env)),
{
    match command {
        Some(e) => match env {
            Some(rest) => Some(rest),
            None => Some(e.clone()),
        },
        None => None,
    }
}

/// The name of the executable of an application, given what the filter for `flatpak`
/// captures.
pub fn executable_name(
    commandline: &Option<String>,
    flatpak: &Option<String>,
    steam_appid: &Option<String>,
) -> (r: Option<String>)
    ensures
        text::opt_text(r) == executable_name_of(
            text::opt_text(*commandline),
            text::opt_text(*flatpak),
            text::opt_text(*steam_appid),
        ),
{
    if let Some(appid) = steam_appid {
        let mut name: Vec<char> = text::to_chars("steam_");
        text::append_chars(&mut name, &text::to_chars(appid.as_str()));
        return Some(text::to_text(&name));
    }
    match commandline {
        Some(c) => {
            let command: Vec<char> = match flatpak {
                Some(command) => text::to_chars(command.as_str()),
                None => text::to_chars(c.as_str()),
            };
            let words: Vec<Vec<char>> = text::split_chars(&command, ' ');
            proof {
                text::lemma_split_nonempty(command@, ' ');
                assert(text::texts(words@)[0] == words@[0]@);
            }
            let parts: Vec<Vec<char>> = text::split_chars(&words[0], '/');
            proof {
                text::lemma_split_nonempty(words@[0]@, '/');
                assert(text::texts(parts@).last() == parts@[parts@.len() - 1]@);
            }
            Some(text::to_text(&parts[parts.len() - 1]))
        },
        None => None,
    }
}

impl App {
    /// The application that a desktop file makes up, given what the two filters
    /// capture in its command.
    pub fn from_entry(
        entry: &DesktopEntry,
        file_stem: &Option<String>,
        icon_is_file: bool,
        env: Option<String>,
        flatpak: &Option<String>,
    ) -> (r: Result<Self, DesktopError>)
        ensures
            app_result(r) == app_of_entry(
                entry@,
                text::opt_text(*file_stem),
                icon_is_file,
                text::opt_text(env),
                text::opt_text(*flatpak),
            ),
    {
        let ghost env_text = text::opt_text(env);
        let Some(id) = first_of(text::copy_option(&entry.id), text::copy_option(file_stem)) else {
            return Err(DesktopError::NoId);
        };
        if id_blocked(id.as_str()) {
            return Err(DesktopError::BlockedId);
        }
        let commandline: Option<String> = command_line(&entry.command, env);
        let executable_name: Option<String> = executable_name(
            &commandline,
            flatpak,
            &entry.steam_appid,
        );
        if let Some(name) = &executable_name {
            if exec_blocked(name.as_str()) {
                return Err(DesktopError::BlockedExecutable);
            }
        }
        let icon: AppIcon = match &entry.icon {
            None => AppIcon::Themed("generic-process".to_string()),
            Some(key) => if icon_is_file {
                AppIcon::File(key.clone())
            } else {
                AppIcon::Themed(key.clone())
            },
        };
        let is_flatpak: bool = match &entry.command {
            Some(e) => text::has_prefix(e.as_str(), "/usr/bin/flatpak run"),
            None => false,
        };
        let containerization: Containerization = if is_flatpak {
            Containerization::Flatpak
        } else if entry.has_snap {
            Containerization::Snap
        } else if entry.has_appimage {
            Containerization::AppImage
        } else {
            Containerization::Host
        };
        let display_name: String = match &entry.name {
            Some(name) => name.clone(),
            None => id.clone(),
        };
        let app = App {
            processes: Vec::new(),
            commandline,
            executable_name,
            display_name,
            description: text::copy_option(&entry.comment),
            icon,
            id: Some(id),
            read_bytes_from_dead_processes: 0,
            write_bytes_from_dead_processes: 0,
            containerization,
        };
        proof {
            assert(Ok::<AppView, DesktopError>(app@) =~= app_of_entry(
                entry@,
                text::opt_text(*file_stem),
                icon_is_file,
                env_text,
                text::opt_text(*flatpak),
            ));
        }
        Ok(app)
    }

    /// The application that a desktop file makes up. `file_stem` is the name of the
    /// file without its ending, and `icon_is_file` says whether there is a file under
    /// the path that the entry gives for its icon.
    pub fn from_desktop_file(
        entry: &DesktopEntry,
        file_stem: &Option<String>,
        icon_is_file: bool,
    ) -> (r: Result<Self, DesktopError>)
        ensures
            app_result(r) == app_of_entry(
                entry@,
                text::opt_text(*file_stem),
                icon_is_file,
                env_capture(entry@.command),
                flatpak_capture(commandline_of(entry@.command, env_capture(entry@.command))),
            ),
    {
        let env: Option<String> = match &entry.command {
            Some(e) => pattern::first_group(RE_ENV_FILTER, e.as_str()),
            None => None,
        };
        let commandline: Option<String> = command_line(&entry.command, text::copy_option(&env));
        let flatpak: Option<String> = match &commandline {
            Some(c) => pattern::first_group(RE_FLATPAK_FILTER, c.as_str()),
            None => None,
        };
        Self::from_entry(entry, file_stem, icon_is_file, env, &flatpak)
    }
}

// Laws ----------------------------------------------------------------------------------------------

proof fn lemma_with_text(list: Seq<Seq<char>>, s: Seq<char>)
    requires
        list.no_duplicates(),
    ensures
        with_text(list, s).no_duplicates(),
        with_text(list, s).contains(s),
        forall|x: Seq<char>| #[trigger] list.contains(x) ==> with_text(list, s).contains(x),
{
    let r = with_text(list, s);
    if !list.contains(s) {
        assert(r[list.len() as int] == s);
        assert forall|i: int, j: int|
            0 <= i < r.len() && 0 <= j < r.len() && i != j implies r[i] != r[j] by {
            if i < list.len() {
                assert(list.contains(list[i]));
            }
            if j < list.len() {
                assert(list.contains(list[j]));
            }
        }
        assert forall|x: Seq<char>| #[trigger] list.contains(x) implies r.contains(x) by {
            let i = choose|i: int| 0 <= i < list.len() && list[i] == x;
            assert(r[i] == x);
        }
    }
}

proof fn lemma_with_locale(list: Seq<Seq<char>>, locale: Seq<char>)
    requires
        list.no_duplicates(),
    ensures
        with_locale(list, locale).no_duplicates(),
        with_locale(list, locale).contains(locale),
        forall|x: Seq<char>| #[trigger] list.contains(x) ==> with_locale(list, locale).contains(x),
{
    lemma_with_text(list, locale);
    let a = with_text(list, locale);
    if let Some((head, _)) = text::split_once(locale, '.') {
        lemma_with_text(a, head);
    }
    let b = with_head(a, locale, '.');
    if let Some((head, _)) = text::split_once(locale, '_') {
        lemma_with_text(b, head);
    }
}

proof fn lemma_with_locales(list: Seq<Seq<char>>, locales: Seq<Seq<char>>)
    requires
        list.no_duplicates(),
    ensures
        with_locales(list, locales).no_duplicates(),
        forall|i: int|
            0 <= i < locales.len() ==> with_locales(list, locales).contains(#[trigger] locales[i]),
        forall|x: Seq<char>| #[trigger]
            list.contains(x) ==> with_locales(list, locales).contains(x),
    decreases locales.len(),
{
    if locales.len() > 0 {
        let head = locales.drop_last();
        lemma_with_locales(list, head);
        lemma_with_locale(with_locales(list, head), locales.last());
        assert forall|i: int| 0 <= i < locales.len() implies with_locales(list, locales).contains(
            #[trigger] locales[i],
        ) by {
            if i < head.len() {
                assert(head[i] == locales[i]);
                assert(with_locales(list, head).contains(head[i]));
            }
        }
    }
}

/// No locale is tried twice.
pub proof fn locales_distinct(vars: Seq<Option<Seq<char>>>)
    ensures
        locales_of(vars).no_duplicates(),
    decreases vars.len(),
{
    if vars.len() > 0 {
        locales_distinct(vars.drop_last());
        if let Some(value) = vars.last() {
            lemma_with_locales(locales_of(vars.drop_last()), text::split(value, ':'));
        }
    }
}

/// An application that a desktop file makes up always has an identifier, runs no
/// process and has read and written nothing; and neither its identifier nor its
/// executable is one that does not count.
pub proof fn desktop_app_is_fresh(
    entry: EntryView,
    file_stem: Option<Seq<char>>,
    icon_is_file: bool,
    env: Option<Seq<char>>,
    flatpak: Option<Seq<char>>,
)
    ensures
        app_of_entry(entry, file_stem, icon_is_file, env, flatpak) matches Ok(a) ==> {
            &&& a.id is Some
            &&& a.processes.len() == 0
            &&& a.read_bytes_from_dead_processes == 0
            &&& a.write_bytes_from_dead_processes == 0
            &&& !id_blocklist().contains(a.id->0)
            &&& a.executable_name matches Some(name) ==> !exec_blocklist().contains(name)
        },
{
}

/// A path that does not begin with `~/` stays as it is.
pub proof fn other_path_unchanged(path: Seq<char>, home: Option<Seq<char>>)
    requires
        !text::starts_with(path, "~/"@),
    ensures
        formatted_path(path, home) == path,
{
}

/// The first value of a key counts; a key that does not occur has none.
pub proof fn first_value_counts(pairs: Seq<(Seq<char>, Seq<char>)>, key: Seq<char>, i: int)
    ensures
        0 <= i < pairs.len() && pairs[i].0 == key && (forall|j: int|
            0 <= j < i ==> (#[trigger] pairs[j]).0 != key) ==> value_of(pairs, key) == Some(
            pairs[i].1,
        ),
        (forall|j: int| 0 <= j < pairs.len() ==> (#[trigger] pairs[j]).0 != key) ==> value_of(
            pairs,
            key,
        ) is None,
    decreases pairs.len(),
{
    if pairs.len() > 0 {
        let rest = pairs.skip(1);
        first_value_counts(rest, key, i - 1);
        if forall|j: int| 0 <= j < pairs.len() ==> (#[trigger] pairs[j]).0 != key {
            assert forall|j: int| 0 <= j < rest.len() implies (#[trigger] rest[j]).0 != key by {
                assert(rest[j] == pairs[j + 1]);
            }
            assert(pairs[0].0 != key);
        }
        if 0 < i < pairs.len() && pairs[i].0 == key && (forall|j: int|
            0 <= j < i ==> (#[trigger] pairs[j]).0 != key) {
            assert(pairs[0].0 != key);
            assert(rest[i - 1] == pairs[i]);
            assert forall|j: int| 0 <= j < i - 1 implies (#[trigger] rest[j]).0 != key by {
                assert(rest[j] == pairs[j + 1]);
            }
        }
    }
}

/// The value in the first locale that has one counts; where none has, the one without a
/// locale.
pub proof fn first_locale_counts(
    pairs: Seq<(Seq<char>, Seq<char>)>,
    key: Seq<char>,
    locales: Seq<Seq<char>>,
    i: int,
)
    ensures
        0 <= i < locales.len() && value_of(
            pairs,
            key + seq!['['] + locales[i] + seq![']'],
        ) is Some && (forall|j: int|
            0 <= j < i ==> value_of(
                pairs,
                key + seq!['['] + (#[trigger] locales[j]) + seq![']'],
            ) is None) ==> localized(pairs, key, locales) == value_of(
            pairs,
            key + seq!['['] + locales[i] + seq![']'],
        ),
        (forall|j: int|
            0 <= j < locales.len() ==> value_of(
                pairs,
                key + seq!['['] + (#[trigger] locales[j]) + seq![']'],
            ) is None) ==> localized(pairs, key, locales) == value_of(pairs, key),
    decreases locales.len(),
{
    if locales.len() > 0 {
        let rest = locales.skip(1);
        first_locale_counts(pairs, key, rest, i - 1);
        assert forall|j: int| 0 <= j < rest.len() implies #[trigger] rest[j] == locales[j + 1] by {}
        let first = locales[0];
        assert(locale_key(key, first) == key + seq!['['] + first + seq![']']);
        if forall|j: int|
            0 <= j < locales.len() ==> value_of(
                pairs,
                key + seq!['['] + (#[trigger] locales[j]) + seq![']'],
            ) is None {
            assert forall|j: int| 0 <= j < rest.len() implies value_of(
                pairs,
                key + seq!['['] + (#[trigger] rest[j]) + seq![']'],
            ) is None by {
                assert(rest[j] == locales[j + 1]);
            }
        }
        if 0 < i < locales.len() && (forall|j: int|
            0 <= j < i ==> value_of(
                pairs,
                key + seq!['['] + (#[trigger] locales[j]) + seq![']'],
            ) is None) {
            assert(rest[i - 1] == locales[i]);
            assert forall|j: int| 0 <= j < i - 1 implies value_of(
                pairs,
                key + seq!['['] + (#[trigger] rest[j]) + seq![']'],
            ) is None by {
                assert(rest[j] == locales[j + 1]);
            }
        }
    }
}

/// What a section says is found under the keys of desktop files. An identifier of Flatpak
/// counts before one of an AppImage, and the place of the command before the command.
pub proof fn entry_by_its_keys(
    pairs: Seq<(Seq<char>, Seq<char>)>,
    locales: Seq<Seq<char>>,
    steam_appid: Option<Seq<char>>,
)
    ensures
        ({
            let e = entry_of(pairs, locales, steam_appid);
            let flatpak = value_of(pairs, "X-Flatpak"@);
            let appimage = value_of(pairs, "X-AppImage-Identifier"@);
            let place = value_of(pairs, "X-ExecLocation"@);
            &&& flatpak is Some ==> e.id == flatpak
            &&& flatpak is None ==> e.id == appimage
            &&& place is Some ==> e.command == place
            &&& place is None ==> e.command == value_of(pairs, "Exec"@)
            &&& e.icon == value_of(pairs, "Icon"@)
            &&& e.name == localized(pairs, "Name"@, locales)
            &&& e.comment == localized(pairs, "Comment"@, locales)
            &&& e.has_snap == (value_of(pairs, "X-SnapInstanceName"@) is Some)
            &&& e.has_appimage == (appimage is Some)
            &&& e.steam_appid == steam_appid
        }),
{
}

/// What a desktop file says comes from GIO where that has loaded it, and else from the
/// section for the entry in its contents.
pub proof fn gio_before_contents(
    gio: Option<GioView>,
    content: Option<Seq<char>>,
    locales: Seq<Seq<char>>,
)
    ensures
        gio matches Some(values) ==> {
            &&& entry_by_either(gio, content, locales) matches Ok(e)
            &&& values.flatpak is Some ==> e.id == values.flatpak
            &&& values.flatpak is None ==> e.id == values.appimage_identifier
            &&& values.command_location is Some ==> e.command == values.command_location
            &&& values.command_location is None ==> e.command == values.command
            &&& e.icon == values.icon
            &&& e.name == values.name
            &&& e.comment == values.description
            &&& e.has_snap == values.has_snap
            &&& e.has_appimage == values.has_appimage
            &&& e.steam_appid == steam_appid_capture(e.command)
        },
        gio is None && content is None ==> entry_by_either(gio, content, locales) == Err::<
            EntryView,
            DesktopError,
        >(DesktopError::Unreadable),
        gio is None ==> (content matches Some(text) ==> match ini_section_of(
            text::trim(text),
            "Desktop Entry"@,
        ) {
            None => entry_by_either(gio, content, locales) == Err::<EntryView, DesktopError>(
                DesktopError::Malformed,
            ),
            Some(None) => entry_by_either(gio, content, locales) == Err::<EntryView, DesktopError>(
                DesktopError::NoEntry,
            ),
            Some(Some(pairs)) => {
                &&& entry_by_either(gio, content, locales) matches Ok(e)
                &&& e == entry_of(pairs, locales, e.steam_appid)
                &&& e.steam_appid == steam_appid_capture(e.command)
            },
        }),
{
}

/// What is taken out of commands: the Steam application that one starts, what stands behind
/// a leading `env` and its variable, and what Flatpak is told to run.
pub proof fn filters_of_commands(command: Seq<char>)
    ensures
        steam_appid_capture(Some(command)) == pattern::group(
            pattern::captures_of(r"steam://rungameid/(\d+)"@, command),
            1,
        ),
        env_capture(Some(command)) == pattern::group(
            pattern::captures_of(r"env\s*\S*=\S*\s*(.*)"@, command),
            1,
        ),
        flatpak_capture(Some(command)) == pattern::group(
            pattern::captures_of(r"flatpak run .* --command=(\S*)"@, command),
            1,
        ),
        steam_appid_capture(None) is None,
        env_capture(None) is None,
        flatpak_capture(None) is None,
{
}

/// The application of a desktop file: it goes by the identifier that the file names, or else
/// by the name of the file, and under the name that the file gives, or else under its
/// identifier. Its command line is its command without what `env` sets.
pub proof fn app_by_its_entry(
    entry: EntryView,
    file_stem: Option<Seq<char>>,
    icon_is_file: bool,
    env: Option<Seq<char>>,
    flatpak: Option<Seq<char>>,
)
    ensures
        app_of_entry(entry, file_stem, icon_is_file, env, flatpak) matches Ok(a) ==> {
            &&& entry.id is Some ==> a.id == entry.id
            &&& entry.id is None ==> a.id == file_stem
            &&& entry.name is Some ==> Some(a.display_name) == entry.name
            &&& entry.name is None ==> Some(a.display_name) == a.id
            &&& a.description == entry.comment
            &&& entry.command is Some && env is Some ==> a.commandline == env
            &&& entry.command is Some && env is None ==> a.commandline == entry.command
            &&& entry.command is None ==> a.commandline is None
            &&& entry.steam_appid matches Some(n) ==> a.executable_name == Some("steam_"@ + n)
            &&& entry.steam_appid is None && a.commandline is None ==> a.executable_name is None
            &&& entry.steam_appid is None && a.commandline is Some && flatpak is None
                ==> a.executable_name == Some(executable_of(a.commandline->0, None))
            &&& entry.steam_appid is None && a.commandline is Some && flatpak is Some
                ==> a.executable_name == Some(executable_of(flatpak->0, None))
            &&& entry.icon is None ==> a.icon == IconView::Themed("generic-process"@)
            &&& entry.icon matches Some(icon) ==> a.icon == if icon_is_file {
                IconView::File(icon)
            } else {
                IconView::Themed(icon)
            }
        },
{
}

/// A command that begins with `/usr/bin/flatpak run` starts a Flatpak; else what is a snap
/// by its entry runs in one, else what is an AppImage; and all others run on the host.
pub proof fn container_of_entry(
    entry: EntryView,
    file_stem: Option<Seq<char>>,
    icon_is_file: bool,
    env: Option<Seq<char>>,
    flatpak: Option<Seq<char>>,
)
    ensures
        app_of_entry(entry, file_stem, icon_is_file, env, flatpak) matches Ok(a) ==> {
            let by_flatpak = entry.command is Some && text::starts_with(
                entry.command->0,
                "/usr/bin/flatpak run"@,
            );
            &&& a.containerization == Containerization::Flatpak <==> by_flatpak
            &&& a.containerization == Containerization::Snap <==> !by_flatpak && entry.has_snap
            &&& a.containerization == Containerization::AppImage <==> !by_flatpak
                && !entry.has_snap && entry.has_appimage
            &&& a.containerization == Containerization::Host <==> !by_flatpak && !entry.has_snap
                && !entry.has_appimage
        },
{
}

/// A desktop file makes up an application, unless neither it nor its file gives an
/// identifier, or its identifier or its executable does not count.
pub proof fn entry_makes_up_app(
    entry: EntryView,
    file_stem: Option<Seq<char>>,
    icon_is_file: bool,
    env: Option<Seq<char>>,
    flatpak: Option<Seq<char>>,
)
    ensures
        ({
            let r = app_of_entry(entry, file_stem, icon_is_file, env, flatpak);
            let id = if entry.id is Some {
                entry.id
            } else {
                file_stem
            };
            let name = executable_name_of(
                commandline_of(entry.command, env),
                flatpak,
                entry.steam_appid,
            );
            let shell = name is Some && (name->0 == "bash"@ || name->0 == "zsh"@ || name->0
                == "fish"@ || name->0 == "sh"@ || name->0 == "ksh"@ || name->0 == "flatpak"@);
            &&& id is None ==> r == Err::<AppView, DesktopError>(DesktopError::NoId)
            &&& id is Some && id_blocklist().contains(id->0) ==> r == Err::<AppView, DesktopError>(
                DesktopError::BlockedId,
            )
            &&& id is Some && !id_blocklist().contains(id->0) && shell ==> r == Err::<
                AppView,
                DesktopError,
            >(DesktopError::BlockedExecutable)
            &&& id is Some && !id_blocklist().contains(id->0) && !shell ==> r is Ok
        }),
{
    let name = executable_name_of(commandline_of(entry.command, env), flatpak, entry.steam_appid);
    if let Some(n) = name {
        let list = exec_blocklist();
        assert(list[0] == "bash"@ && list[1] == "zsh"@ && list[2] == "fish"@ && list[3] == "sh"@
            && list[4] == "ksh"@ && list[5] == "flatpak"@);
        if list.contains(n) {
            let i = choose|i: int| 0 <= i < list.len() && list[i] == n;
            assert(i == 0 || i == 1 || i == 2 || i == 3 || i == 4 || i == 5);
        }
    }
}

/// The identifiers that do not count as applications.
pub proof fn ids_that_do_not_count()
    ensures
        id_blocklist().len() == 32,
        id_blocklist()[0] == "org.gnome.Terminal.Preferences"@,
        id_blocklist()[1] == "org.freedesktop.IBus.Panel.Extension.Gtk3"@,
        id_blocklist()[2] == "org.gnome.RemoteDesktop.Handover"@,
        id_blocklist()[3] == "gnome-software-local-file-packagekit"@,
        id_blocklist()[4] == "snap-handle-link"@,
        id_blocklist()[5] == "gnome-about-panel"@,
        id_blocklist()[6] == "gnome-applications-panel"@,
        id_blocklist()[7] == "gnome-background-panel"@,
        id_blocklist()[8] == "gnome-bluetooth-panel"@,
        id_blocklist()[9] == "gnome-color-panel"@,
        id_blocklist()[10] == "gnome-datetime-panel"@,
        id_blocklist()[11] == "gnome-display-panel"@,
        id_blocklist()[12] == "gnome-keyboard-panel"@,
        id_blocklist()[13] == "gnome-mouse-panel"@,
        id_blocklist()[14] == "gnome-multitasking-panel"@,
        id_blocklist()[15] == "gnome-network-panel"@,
        id_blocklist()[16] == "gnome-notifications-panel"@,
        id_blocklist()[17] == "gnome-online-accounts-panel"@,
        id_blocklist()[18] == "gnome-power-panel"@,
        id_blocklist()[19] == "gnome-printers-panel"@,
        id_blocklist()[20] == "gnome-privacy-panel"@,
        id_blocklist()[21] == "gnome-region-panel"@,
        id_blocklist()[22] == "gnome-search-panel"@,
        id_blocklist()[23] == "gnome-sharing-panel"@,
        id_blocklist()[24] == "gnome-sound-panel"@,
        id_blocklist()[25] == "gnome-system-panel"@,
        id_blocklist()[26] == "gnome-universal-access-panel"@,
        id_blocklist()[27] == "gnome-users-panel"@,
        id_blocklist()[28] == "gnome-wacom-panel"@,
        id_blocklist()[29] == "gnome-wifi-panel"@,
        id_blocklist()[30] == "gnome-wwan-panel"@,
        id_blocklist()[31] == "org.freedesktop.Xwayland"@,
{
}

/// The executable of a command is the last part of the path of its first word.
pub proof fn executable_is_last_part(
    dir: Seq<char>,
    name: Seq<char>,
    arguments: Seq<char>,
)
    requires
        forall|i: int| 0 <= i < dir.len() ==> dir[i] != ' ',
        forall|i: int| 0 <= i < name.len() ==> name[i] != ' ' && name[i] != '/',
    ensures
        executable_of(name, None) == name,
        executable_of(name + seq![' '] + arguments, None) == name,
        executable_of(dir + seq!['/'] + name, None) == name,
        executable_of((dir + seq!['/'] + name) + seq![' '] + arguments, None) == name,
{
    let path = dir + seq!['/'] + name;
    assert forall|i: int| 0 <= i < path.len() implies path[i] != ' ' by {}
    text::split_at_every_separator(name, ' ', arguments);
    text::split_at_every_separator(path, ' ', arguments);
    text::split_at_every_separator(name, '/', arguments);
    text::lemma_split_last(dir, '/', name);
    assert(text::split(name, '/') == seq![name]);
    assert((seq![name] + text::split(arguments, ' '))[0] == name);
    assert((seq![path] + text::split(arguments, ' '))[0] == path);
}

/// Every character that is to be replaced is, and no other.
pub proof fn every_character_replaced(a: Seq<char>, b: Seq<char>, c: char, by: Seq<char>)
    ensures
        replaced(a + b, c, by) == replaced(a, c, by) + replaced(b, c, by),
        replaced(seq![c], c, by) == by,
        (forall|i: int| 0 <= i < a.len() ==> a[i] != c) ==> replaced(a, c, by) == a,
    decreases a.len() + b.len(),
{
    let one = seq![c];
    assert(one.drop_last() =~= Seq::<char>::empty());
    assert(replaced(one.drop_last(), c, by) =~= Seq::<char>::empty());
    assert(Seq::<char>::empty() + by =~= by);
    if b.len() > 0 {
        every_character_replaced(a, b.drop_last(), c, by);
        assert((a + b).drop_last() =~= a + b.drop_last());
        assert((a + b).last() == b.last());
        assert(replaced(a + b, c, by) =~= replaced(a, c, by) + replaced(b, c, by));
    } else {
        assert(a + b =~= a);
        assert(replaced(a, c, by) + replaced(b, c, by) =~= replaced(a, c, by));
        if a.len() > 0 {
            every_character_replaced(a.drop_last(), b, c, by);
            if forall|i: int| 0 <= i < a.len() ==> a[i] != c {
                assert forall|i: int| 0 <= i < a.drop_last().len() implies a.drop_last()[i]
                    != c by {
                    assert(a.drop_last()[i] == a[i]);
                }
                assert(a[a.len() - 1] == a.last());
                assert(replaced(a, c, by) =~= a);
            }
        }
    }
}

/// A path below the home directory stands below it in full.
pub proof fn home_in_place_of_tilde(rest: Seq<char>, home: Option<Seq<char>>)
    requires
        forall|i: int| 0 <= i < rest.len() ==> rest[i] != '~',
    ensures
        home matches Some(h) ==> formatted_path("~/"@ + rest, home) == h + "/"@ + rest,
        home is None ==> formatted_path("~/"@ + rest, home) == "//"@ + rest,
{
    reveal_strlit("~/");
    reveal_strlit("/");
    reveal_strlit("//");
    let path = "~/"@ + rest;
    let tail = "/"@ + rest;
    assert(path =~= seq!['~'] + tail);
    assert(path.take(2) =~= "~/"@);
    assert(path.subrange(0, 2) =~= "~/"@);
    assert(text::starts_with(path, "~/"@));
    let by = match home {
        Some(h) => h,
        None => "/"@,
    };
    every_character_replaced(seq!['~'], tail, '~', by);
    assert forall|i: int| 0 <= i < tail.len() implies tail[i] != '~' by {
        if i > 0 {
            assert(tail[i] == rest[i - 1]);
        }
    }
    every_character_replaced(tail, Seq::<char>::empty(), '~', by);
    assert(by + tail =~= by + "/"@ + rest);
    assert("/"@ + tail =~= "//"@ + rest);
}

/// The directories for data are those that the environment names, in their order, and last
/// the user's own; without any, that of the system takes their place.
pub proof fn data_directories(xdg: Option<Seq<char>>, home: Option<Seq<char>>, i: int)
    ensures
        data_dirs_of(xdg, home).last() == formatted_path("~/.local/share"@, home),
        xdg matches Some(dirs) ==> {
            &&& data_dirs_of(xdg, home).len() == text::split(dirs, ':').len() + 1
            &&& 0 <= i < text::split(dirs, ':').len() ==> data_dirs_of(xdg, home)[i]
                == formatted_path(text::split(dirs, ':')[i], home)
        },
        xdg is None ==> data_dirs_of(xdg, home)[0] == "/usr/share"@,
{
    if xdg is None {
        reveal_strlit("/usr/share:");
        reveal_strlit("/usr/share");
        reveal_strlit("~/");
        let local = local_share(home);
        assert("/usr/share:"@ =~= "/usr/share"@ + seq![':']);
        text::split_at_every_separator("/usr/share"@, ':', local);
        let dirs = text::split("/usr/share:"@ + local, ':');
        assert(dirs[0] == "/usr/share"@);
        assert(!text::starts_with("/usr/share"@, "~/"@)) by {
            assert("/usr/share"@[0] == '/');
            assert("~/"@[0] == '~');
            if text::starts_with("/usr/share"@, "~/"@) {
                assert("/usr/share"@.subrange(0, 2)[0] == "~/"@[0]);
                assert("/usr/share"@.take(2)[0] == "~/"@[0]);
            }
        }
    }
}

proof fn lemma_prefix(a: Seq<Seq<char>>, s: Seq<char>, c: char)
    ensures
        a.is_prefix_of(with_text(a, s)),
        a.is_prefix_of(with_head(a, s, c)),
        with_text(a, s).contains(s),
{
    if !a.contains(s) {
        assert(a.push(s)[a.len() as int] == s);
    }
}

/// Whether a text is what stands before the first `c` of another.
pub open spec fn stands_before(head: Seq<char>, c: char, s: Seq<char>) -> bool {
    text::split_once(s, c) matches Some((before, _)) && before == head
}

/// A locale is tried as it is, then without its encoding, then without its country, where it
/// has these, and after all that were to be tried before.
pub proof fn locale_is_tried(list: Seq<Seq<char>>, locale: Seq<char>)
    ensures
        list.is_prefix_of(with_locale(list, locale)),
        with_locale(list, locale).contains(locale),
        text::split_once(locale, '.') matches Some((head, _)) ==> with_locale(
            list,
            locale,
        ).contains(head),
        text::split_once(locale, '_') matches Some((head, _)) ==> with_locale(
            list,
            locale,
        ).contains(head),
        forall|x: Seq<char>| #[trigger]
            with_locale(list, locale).contains(x) ==> list.contains(x) || x == locale
                || stands_before(x, '.', locale) || stands_before(x, '_', locale),
{
    let a = with_text(list, locale);
    let b = with_head(a, locale, '.');
    let r = with_locale(list, locale);
    lemma_prefix(list, locale, '.');
    lemma_prefix(a, locale, '.');
    lemma_prefix(b, locale, '_');
    lemma_contained(list, a);
    lemma_contained(a, b);
    lemma_contained(b, r);
    if let Some((head, _)) = text::split_once(locale, '.') {
        lemma_prefix(a, head, '.');
    }
    if let Some((head, _)) = text::split_once(locale, '_') {
        lemma_prefix(b, head, '_');
    }
    assert forall|x: Seq<char>| #[trigger] r.contains(x) implies list.contains(x) || x == locale
        || stands_before(x, '.', locale) || stands_before(x, '_', locale) by {
        let i = choose|i: int| 0 <= i < r.len() && r[i] == x;
        if i < b.len() {
            assert(b[i] == x);
            if i < a.len() {
                assert(a[i] == x);
                if i < list.len() {
                    assert(list[i] == x);
                }
            }
        }
    }
}

proof fn lemma_contained(a: Seq<Seq<char>>, b: Seq<Seq<char>>)
    requires
        a.is_prefix_of(b),
    ensures
        forall|x: Seq<char>| #[trigger] a.contains(x) ==> b.contains(x),
{
    assert forall|x: Seq<char>| #[trigger] a.contains(x) implies b.contains(x) by {
        let i = choose|i: int| 0 <= i < a.len() && a[i] == x;
        assert(b[i] == x);
    }
}

proof fn lemma_locales_prefix(list: Seq<Seq<char>>, locales: Seq<Seq<char>>)
    ensures
        list.is_prefix_of(with_locales(list, locales)),
    decreases locales.len(),
{
    if locales.len() > 0 {
        lemma_locales_prefix(list, locales.drop_last());
        locale_is_tried(with_locales(list, locales.drop_last()), locales.last());
    }
}

/// Every locale that a variable names is tried; those of the variables before it come first.
pub proof fn every_named_locale_is_tried(
    vars: Seq<Option<Seq<char>>>,
    value: Seq<char>,
    k: int,
)
    requires
        0 <= k < text::split(value, ':').len(),
    ensures
        locales_of(vars).is_prefix_of(locales_of(vars.push(Some(value)))),
        locales_of(vars.push(Some(value))).contains(text::split(value, ':')[k]),
        locales_of(vars.push(None)) == locales_of(vars),
{
    assert(vars.push(Some(value)).drop_last() =~= vars);
    assert(vars.push(None).drop_last() =~= vars);
    locales_distinct(vars);
    lemma_locales_prefix(locales_of(vars), text::split(value, ':'));
    lemma_with_locales(locales_of(vars), text::split(value, ':'));
}

} // verus!
