//! Which application a process belongs to.

use vstd::prelude::*;

use crate::app;
use crate::app::{App, AppView};
use crate::number;
use crate::process::{Process, ProcessView};
use crate::process_data::Containerization;
use crate::text;

verus! {

// Searching applications ---------------------------------------------------------------

/// What an application is searched by.
pub enum AppQuery {
    /// Its identifier.
    Id(Option<String>),
    /// The name of its executable.
    Executable(String),
    /// The path of its AppImage.
    AppImage(String),
    /// One of its processes; the system processes do not count.
    Holds(i32),
    /// The path of an executable, or the name of one that is known under another
    /// name.
    Commandline { path: String, name: String },
}

/// What an `AppQuery` holds.
#[verifier::ext_equal]
pub enum QueryView {
    Id(Option<Seq<char>>),
    Executable(Seq<char>),
    AppImage(Seq<char>),
    Holds(i32),
    Commandline { path: Seq<char>, name: Seq<char> },
}

impl View for AppQuery {
    type V = QueryView;

    open spec fn view(&self) -> QueryView {
        match self {
            AppQuery::Id(id) => QueryView::Id(text::opt_text(*id)),
            AppQuery::Executable(name) => QueryView::Executable(name@),
            AppQuery::AppImage(path) => QueryView::AppImage(path@),
            AppQuery::Holds(pid) => QueryView::Holds(*pid),
            AppQuery::Commandline { path, name } => QueryView::Commandline {
                path: path@,
                name: name@,
            },
        }
    }
}

/// The executables whose name is too different from that of their application,
/// each with the name of the latter's executable.
pub open spec fn known_name(executable_name: Seq<char>) -> Option<Seq<char>> {
    if executable_name == "firefox-bin"@ {
        Some("firefox"@)
    } else if executable_name == "oosplash"@ {
        Some("libreoffice"@)
    } else if executable_name == "soffice.bin"@ {
        Some("libreoffice"@)
    } else if executable_name == "resources-processes"@ {
        Some("resources"@)
    } else if executable_name == "gnome-terminal-server"@ {
        Some("gnome-terminal"@)
    } else if executable_name == "chrome"@ {
        Some("google-chrome-stable"@)
    } else {
        None
    }
}

/// The name of the executable of the application, for an executable whose own
/// name is too different from it.
pub fn known_executable_name(executable_name: &str) -> (r: Option<&'static str>)
    ensures
        match r {
            Some(name) => known_name(executable_name@) == Some(name@),
            None => known_name(executable_name@) is None,
        },
{
    if text::same_text(executable_name, "firefox-bin") {
        Some("firefox")
    } else if text::same_text(executable_name, "oosplash") {
        Some("libreoffice")
    } else if text::same_text(executable_name, "soffice.bin") {
        Some("libreoffice")
    } else if text::same_text(executable_name, "resources-processes") {
        Some("resources")
    } else if text::same_text(executable_name, "gnome-terminal-server") {
        Some("gnome-terminal")
    } else if text::same_text(executable_name, "chrome") {
        Some("google-chrome-stable")
    } else {
        None
    }
}

/// Whether an application is what is searched for.
pub open spec fn answers_query(app: AppView, q: QueryView) -> bool {
    match q {
        QueryView::Id(id) => app.id == id,
        QueryView::Executable(name) => app.executable_name == Some(name),
        QueryView::AppImage(path) => app.containerization == Containerization::AppImage
            && app.commandline == Some(path),
        QueryView::Holds(pid) => app.id is Some && app.processes.contains(pid),
        QueryView::Commandline { path, name } => app.commandline == Some(path) || (
        app.executable_name is Some && known_name(name) == app.executable_name),
    }
}

/// The position of the first application that is searched for, or the length of
/// the list where there is none.
pub open spec fn first_index(apps: Seq<AppView>, q: QueryView) -> int
    decreases apps.len(),
{
    if apps.len() == 0 || answers_query(apps[0], q) {
        0
    } else {
        1 + first_index(apps.skip(1), q)
    }
}

/// What `first_index` is: nothing before it is searched for, and what stands there
/// is.
pub proof fn lemma_first_index(apps: Seq<AppView>, q: QueryView)
    ensures
        0 <= first_index(apps, q) <= apps.len(),
        first_index(apps, q) < apps.len() ==> answers_query(apps[first_index(apps, q)], q),
        forall|i: int| 0 <= i < first_index(apps, q) ==> !answers_query(#[trigger] apps[i], q),
    decreases apps.len(),
{
    if apps.len() > 0 && !answers_query(apps[0], q) {
        let rest = apps.skip(1);
        lemma_first_index(rest, q);
        let k = first_index(rest, q);
        if k < rest.len() {
            assert(rest[k] == apps[k + 1]);
        }
        assert forall|i: int| 0 <= i < 1 + k implies !answers_query(#[trigger] apps[i], q) by {
            if i > 0 {
                assert(rest[i - 1] == apps[i]);
            }
        }
    }
}

fn same_option(a: &Option<String>, b: &Option<String>) -> (r: bool)
    ensures
        r == (text::opt_text(*a) == text::opt_text(*b)),
{
    match (a, b) {
        (Some(x), Some(y)) => text::same_text(x.as_str(), y.as_str()),
        (None, None) => true,
        _ => false,
    }
}

fn is_some_text(a: &Option<String>, b: &str) -> (r: bool)
    ensures
        r == (text::opt_text(*a) == Some(b@)),
{
    match a {
        Some(x) => text::same_text(x.as_str(), b),
        None => false,
    }
}

fn is_answer(app: &App, q: &AppQuery) -> (r: bool)
    ensures
        r == answers_query(app@, q@),
{
    match q {
        AppQuery::Id(id) => same_option(&app.id, id),
        AppQuery::Executable(name) => is_some_text(&app.executable_name, name.as_str()),
        AppQuery::AppImage(path) => app.containerization == Containerization::AppImage
            && is_some_text(&app.commandline, path.as_str()),
        AppQuery::Holds(pid) => app.id.is_some() && app::contains_pid(&app.processes, *pid),
        AppQuery::Commandline { path, name } => {
            let known: bool = match known_executable_name(name.as_str()) {
                Some(known) => is_some_text(&app.executable_name, known),
                None => false,
            };
            is_some_text(&app.commandline, path.as_str()) || known
        },
    }
}

/// The position of the first application that is searched for.
pub fn find_app(apps: &Vec<App>, q: &AppQuery) -> (r: Option<usize>)
    ensures
        match r {
            Some(i) => i < apps.len() && i == first_index(app::app_views(apps@), q@),
            None => first_index(app::app_views(apps@), q@) == apps.len(),
        },
{
    let ghost views = app::app_views(apps@);
    let mut i: usize = 0;
    proof {
        assert(views.skip(0) =~= views);
    }
    while i < apps.len()
        invariant
            i <= apps.len(),
            views == app::app_views(apps@),
            first_index(views, q@) == i + first_index(views.skip(i as int), q@),
        decreases apps.len() - i,
    {
        proof {
            assert(views.skip(i as int)[0] == apps@[i as int]@);
            assert(views.skip(i as int).skip(1) =~= views.skip(i + 1));
        }
        if is_answer(&apps[i], q) {
            return Some(i);
        }
        i += 1;
    }
    None
}

// Snaps -----------------------------------------------------------------------------------

/// A question to snapd: which desktop file an application of a snap has.
pub struct SnapQuery {
    pub snap: String,
    pub app: String,
}

/// What a `SnapQuery` holds.
#[verifier::ext_equal]
pub struct SnapQueryView {
    pub snap: Seq<char>,
    pub app: Seq<char>,
}

impl View for SnapQuery {
    type V = SnapQueryView;

    open spec fn view(&self) -> SnapQueryView {
        SnapQueryView { snap: self.snap@, app: self.app@ }
    }
}

/// A question that snapd has answered: with the identifier of a desktop file, or
/// with none.
pub struct SnapAnswer {
    pub query: SnapQuery,
    pub desktop_id: Option<String>,
}

/// The answers with their questions.
pub open spec fn answer_views(list: Seq<SnapAnswer>) -> Seq<(SnapQueryView, Option<Seq<char>>)> {
    Seq::new(list.len(), |i: int| (list[i].query@, text::opt_text(list[i].desktop_id)))
}

/// The answer to a question, where it has come.
pub open spec fn answer_to(
    answers: Seq<(SnapQueryView, Option<Seq<char>>)>,
    q: SnapQueryView,
) -> Option<Option<Seq<char>>>
    decreases answers.len(),
{
    if answers.len() == 0 {
        None
    } else if answers[0].0 == q {
        Some(answers[0].1)
    } else {
        answer_to(answers.skip(1), q)
    }
}

/// The answer to a question, where it has come.
pub fn find_answer(answers: &Vec<SnapAnswer>, q: &SnapQuery) -> (r: Option<Option<String>>)
    ensures
        match r {
            Some(id) => answer_to(answer_views(answers@), q@) == Some(text::opt_text(id)),
            None => answer_to(answer_views(answers@), q@) is None,
        },
{
    let ghost views = answer_views(answers@);
    let mut i: usize = 0;
    proof {
        assert(views.skip(0) =~= views);
    }
    while i < answers.len()
        invariant
            i <= answers.len(),
            views == answer_views(answers@),
            answer_to(views.skip(i as int), q@) == answer_to(views, q@),
        decreases answers.len() - i,
    {
        let answer: &SnapAnswer = &answers[i];
        proof {
            assert(views.skip(i as int)[0] == (answer.query@, text::opt_text(answer.desktop_id)));
            assert(views.skip(i as int).skip(1) =~= views.skip(i + 1));
        }
        if text::same_text(answer.query.snap.as_str(), q.snap.as_str()) && text::same_text(
            answer.query.app.as_str(),
            q.app.as_str(),
        ) {
            proof {
                assert(answer.query@ =~= q@);
            }
            return Some(
                match &answer.desktop_id {
                    Some(id) => Some(id.clone()),
                    None => None,
                },
            );
        }
        i += 1;
    }
    None
}

// Association -------------------------------------------------------------------------------

/// The application that a process belongs to, or the question on which it still
/// depends.
pub enum AppAssociation {
    Resolved(Option<String>),
    Pending(SnapQuery),
}

/// What an `AppAssociation` holds.
#[verifier::ext_equal]
pub enum AssociationView {
    Resolved(Option<Seq<char>>),
    Pending(SnapQueryView),
}

impl View for AppAssociation {
    type V = AssociationView;

    open spec fn view(&self) -> AssociationView {
        match self {
            AppAssociation::Resolved(id) => AssociationView::Resolved(text::opt_text(*id)),
            AppAssociation::Pending(q) => AssociationView::Pending(q@),
        }
    }
}

/// What an optional `AppAssociation` holds.
pub open spec fn opt_association(a: Option<AppAssociation>) -> Option<AssociationView> {
    match a {
        Some(a) => Some(a@),
        None => None,
    }
}

/// The first application that is searched for.
pub open spec fn first_app(apps: Seq<AppView>, q: QueryView) -> Option<AppView> {
    let i = first_index(apps, q);
    if i < apps.len() {
        Some(apps[i])
    } else {
        None
    }
}

/// The association with the first application that is searched for.
pub open spec fn resolved_to(apps: Seq<AppView>, q: QueryView) -> Option<AssociationView> {
    match first_app(apps, q) {
        Some(app) => Some(AssociationView::Resolved(app.id)),
        None => None,
    }
}

/// The name of the executable of a Steam game.
pub open spec fn steam_executable(appid: u32) -> Seq<char> {
    "steam_"@ + number::number_text(appid as int, 10)
}

/// By the Steam game that the process names.
pub open spec fn steam_match(apps: Seq<AppView>, p: ProcessView) -> Option<AssociationView> {
    match p.data.steam_appid {
        Some(appid) => resolved_to(apps, QueryView::Executable(steam_executable(appid))),
        None => None,
    }
}

/// By the control group, but for a Steam game that runs in the group of Steam
/// itself.
pub open spec fn cgroup_match(apps: Seq<AppView>, p: ProcessView) -> Option<AssociationView> {
    let id = match p.data.cgroup {
        Some(cgroup) => cgroup,
        None => Seq::<char>::empty(),
    };
    if p.data.steam_appid is Some && id == "steam"@ {
        None
    } else {
        resolved_to(apps, QueryView::Id(Some(id)))
    }
}

/// By the AppImage that the process was started from.
pub open spec fn appimage_match(apps: Seq<AppView>, p: ProcessView) -> Option<AssociationView> {
    match p.data.appimage_path {
        Some(path) => resolved_to(apps, QueryView::AppImage(path)),
        None => None,
    }
}

/// Whether there is an application with the identifier.
pub open spec fn has_id(apps: Seq<AppView>, id: Option<Seq<char>>) -> bool {
    first_index(apps, QueryView::Id(id)) < apps.len()
}

/// By what snapd says of the snap. Where it knows nothing of it, the desktop file
/// is named after the snap and its application.
pub open spec fn snap_match(
    apps: Seq<AppView>,
    p: ProcessView,
    answers: Seq<(SnapQueryView, Option<Seq<char>>)>,
) -> Option<AssociationView> {
    if p.data.containerization != Containerization::Snap || p.data.cgroup is None {
        None
    } else {
        match text::split_once(p.data.cgroup->0, '.') {
            None => None,
            Some((snap, app)) => match answer_to(answers, SnapQueryView { snap, app }) {
                None => Some(AssociationView::Pending(SnapQueryView { snap, app })),
                Some(Some(id)) => if has_id(apps, Some(id)) {
                    Some(AssociationView::Resolved(Some(id)))
                } else {
                    None
                },
                Some(None) => {
                    let id = snap + seq!['_'] + app;
                    if has_id(apps, Some(id)) {
                        Some(AssociationView::Resolved(Some(id)))
                    } else {
                        None
                    }
                },
            },
        }
    }
}

/// By an application that is named like the executable, by its path or else by its
/// name.
pub open spec fn exact_match(apps: Seq<AppView>, p: ProcessView) -> Option<AssociationView> {
    match resolved_to(apps, QueryView::Id(Some(p.executable_path))) {
        Some(a) => Some(a),
        None => resolved_to(apps, QueryView::Id(Some(p.executable_name))),
    }
}

/// By the application of the parent.
pub open spec fn parent_match(apps: Seq<AppView>, p: ProcessView) -> Option<AssociationView> {
    resolved_to(apps, QueryView::Holds(p.data.parent_pid))
}

/// By the command line of an application, or by a name that the executable is
/// known under.
pub open spec fn fallback_match(apps: Seq<AppView>, p: ProcessView) -> Option<Seq<char>> {
    match first_app(
        apps,
        QueryView::Commandline { path: p.executable_path, name: p.executable_name },
    ) {
        Some(app) => app.id,
        None => None,
    }
}

/// The application that a process belongs to: the first of these that shows. A
/// process that nothing speaks for is a system process.
pub open spec fn association(
    apps: Seq<AppView>,
    p: ProcessView,
    answers: Seq<(SnapQueryView, Option<Seq<char>>)>,
) -> AssociationView {
    match steam_match(apps, p) {
        Some(a) => a,
        None => match cgroup_match(apps, p) {
            Some(a) => a,
            None => match appimage_match(apps, p) {
                Some(a) => a,
                None => match snap_match(apps, p, answers) {
                    Some(a) => a,
                    None => match exact_match(apps, p) {
                        Some(a) => a,
                        None => match parent_match(apps, p) {
                            Some(a) => a,
                            None => AssociationView::Resolved(fallback_match(apps, p)),
                        },
                    },
                },
            },
        },
    }
}

fn resolve(apps: &Vec<App>, q: &AppQuery) -> (r: Option<AppAssociation>)
    ensures
        opt_association(r) == resolved_to(app::app_views(apps@), q@),
{
    proof {
        lemma_first_index(app::app_views(apps@), q@);
    }
    match find_app(apps, q) {
        Some(i) => Some(AppAssociation::Resolved(text::copy_option(&apps[i].id))),
        None => None,
    }
}

/// By the Steam game that the process names.
pub fn try_steam_appid_match(apps: &Vec<App>, process: &Process) -> (r: Option<AppAssociation>)
    ensures
        opt_association(r) == steam_match(app::app_views(apps@), process@),
{
    match process.data.steam_appid {
        Some(appid) => {
            let mut name: Vec<char> = text::to_chars("steam_");
            text::append_chars(&mut name, &number::number_chars(appid as u64, 10));
            resolve(apps, &AppQuery::Executable(text::to_text(&name)))
        },
        None => None,
    }
}

/// By the control group of the process.
pub fn try_cgroup_match(apps: &Vec<App>, process: &Process) -> (r: Option<AppAssociation>)
    ensures
        opt_association(r) == cgroup_match(app::app_views(apps@), process@),
{
    let id: String = match &process.data.cgroup {
        Some(cgroup) => cgroup.clone(),
        None => String::new(),
    };
    proof {
        if process@.data.cgroup is None {
            assert(id@ =~= Seq::<char>::empty());
        }
    }
    if process.data.steam_appid.is_some() && text::same_text(id.as_str(), "steam") {
        return None;
    }
    resolve(apps, &AppQuery::Id(Some(id)))
}

/// By the AppImage that the process was started from.
pub fn try_appimage_match(apps: &Vec<App>, process: &Process) -> (r: Option<AppAssociation>)
    ensures
        opt_association(r) == appimage_match(app::app_views(apps@), process@),
{
    match &process.data.appimage_path {
        Some(path) => resolve(apps, &AppQuery::AppImage(path.clone())),
        None => None,
    }
}

/// By what snapd says of the snap.
pub fn try_snap_match(
    apps: &Vec<App>,
    process: &Process,
    answers: &Vec<SnapAnswer>,
) -> (r: Option<AppAssociation>)
    ensures
        opt_association(r) == snap_match(app::app_views(apps@), process@, answer_views(answers@)),
{
    if process.data.containerization != Containerization::Snap {
        return None;
    }
    let Some(cgroup) = &process.data.cgroup else {
        return None;
    };
    let Some((snap, app)) = text::split_once_chars(&text::to_chars(cgroup.as_str()), '.') else {
        return None;
    };
    let query = SnapQuery { snap: text::to_text(&snap), app: text::to_text(&app) };
    proof {
        assert(query@ =~= SnapQueryView { snap: snap@, app: app@ });
    }
    match find_answer(answers, &query) {
        None => Some(AppAssociation::Pending(query)),
        Some(answer) => {
            let id: String = match answer {
                Some(id) => id,
                None => {
                    let mut id: Vec<char> = snap;
                    id.push('_');
                    text::append_chars(&mut id, &app);
                    proof {
                        assert(id@ =~= query@.snap + seq!['_'] + query@.app);
                    }
                    text::to_text(&id)
                },
            };
            let query: AppQuery = AppQuery::Id(Some(id));
            match find_app(apps, &query) {
                Some(_) => match query {
                    AppQuery::Id(id) => Some(AppAssociation::Resolved(id)),
                    _ => None,
                },
                None => None,
            }
        },
    }
}

/// By an application that is named like the executable.
pub fn exact_executable_match(apps: &Vec<App>, process: &Process) -> (r: Option<AppAssociation>)
    ensures
        opt_association(r) == exact_match(app::app_views(apps@), process@),
{
    match resolve(apps, &AppQuery::Id(Some(process.executable_path.clone()))) {
        Some(a) => Some(a),
        None => resolve(apps, &AppQuery::Id(Some(process.executable_name.clone()))),
    }
}

/// By the application of the parent.
pub fn parent_app_match(apps: &Vec<App>, process: &Process) -> (r: Option<AppAssociation>)
    ensures
        opt_association(r) == parent_match(app::app_views(apps@), process@),
{
    resolve(apps, &AppQuery::Holds(process.data.parent_pid))
}

/// By the command line of an application, or by a name that the executable is
/// known under.
pub fn fallback_commandline_match(apps: &Vec<App>, process: &Process) -> (r: Option<String>)
    ensures
        text::opt_text(r) == fallback_match(app::app_views(apps@), process@),
{
    let query = AppQuery::Commandline {
        path: process.executable_path.clone(),
        name: process.executable_name.clone(),
    };
    proof {
        lemma_first_index(app::app_views(apps@), query@);
    }
    match find_app(apps, &query) {
        Some(i) => text::copy_option(&apps[i].id),
        None => None,
    }
}

/// The application that a process belongs to.
pub fn app_associated_with_process(
    apps: &Vec<App>,
    process: &Process,
    answers: &Vec<SnapAnswer>,
) -> (r: AppAssociation)
    ensures
        r@ == association(app::app_views(apps@), process@, answer_views(answers@)),
{
    if let Some(a) = try_steam_appid_match(apps, process) {
        return a;
    }
    if let Some(a) = try_cgroup_match(apps, process) {
        return a;
    }
    if let Some(a) = try_appimage_match(apps, process) {
        return a;
    }
    if let Some(a) = try_snap_match(apps, process, answers) {
        return a;
    }
    if let Some(a) = exact_executable_match(apps, process) {
        return a;
    }
    if let Some(a) = parent_app_match(apps, process) {
        return a;
    }
    AppAssociation::Resolved(fallback_commandline_match(apps, process))
}

// Laws -----------------------------------------------------------------------------------------

proof fn lemma_resolved_exists(apps: Seq<AppView>, q: QueryView)
    requires
        resolved_to(apps, q) is Some,
    ensures
        has_id(apps, (resolved_to(apps, q)->0)->Resolved_0),
{
    lemma_first_index(apps, q);
    let app = apps[first_index(apps, q)];
    let by_id = QueryView::Id(app.id);
    lemma_first_index(apps, by_id);
    assert(answers_query(app, by_id));
}

/// Where the system processes are among the applications, a process is only ever
/// associated with an application that is there.
pub proof fn associated_app_exists(
    apps: Seq<AppView>,
    p: ProcessView,
    answers: Seq<(SnapQueryView, Option<Seq<char>>)>,
)
    requires
        has_id(apps, None),
    ensures
        association(apps, p, answers) matches AssociationView::Resolved(id) ==> has_id(apps, id),
{
    if let AssociationView::Resolved(id) = association(apps, p, answers) {
        if steam_match(apps, p) is Some {
            lemma_resolved_exists(
                apps,
                QueryView::Executable(steam_executable(p.data.steam_appid->0)),
            );
        } else if cgroup_match(apps, p) is Some {
            let cgroup = match p.data.cgroup {
                Some(cgroup) => cgroup,
                None => Seq::<char>::empty(),
            };
            lemma_resolved_exists(apps, QueryView::Id(Some(cgroup)));
        } else if appimage_match(apps, p) is Some {
            lemma_resolved_exists(apps, QueryView::AppImage(p.data.appimage_path->0));
        } else if snap_match(apps, p, answers) is Some {
        } else if exact_match(apps, p) is Some {
            if resolved_to(apps, QueryView::Id(Some(p.executable_path))) is Some {
                lemma_resolved_exists(apps, QueryView::Id(Some(p.executable_path)));
            } else {
                lemma_resolved_exists(apps, QueryView::Id(Some(p.executable_name)));
            }
        } else if parent_match(apps, p) is Some {
            lemma_resolved_exists(apps, QueryView::Holds(p.data.parent_pid));
        } else {
            let q = QueryView::Commandline { path: p.executable_path, name: p.executable_name };
            if resolved_to(apps, q) is Some {
                lemma_resolved_exists(apps, q);
            }
        }
    }
}

/// Only a snap process waits for snapd, and only until the answer has come.
pub proof fn only_unanswered_snaps_wait(
    apps: Seq<AppView>,
    p: ProcessView,
    answers: Seq<(SnapQueryView, Option<Seq<char>>)>,
)
    ensures
        association(apps, p, answers) matches AssociationView::Pending(q) ==> {
            &&& p.data.containerization == Containerization::Snap
            &&& answer_to(answers, q) is None
        },
{
}

/// A process with a Steam application identifier goes to the game where it is
/// installed, whatever else speaks for another application.
pub proof fn steam_game_first(
    apps: Seq<AppView>,
    p: ProcessView,
    answers: Seq<(SnapQueryView, Option<Seq<char>>)>,
    i: int,
)
    requires
        p.data.steam_appid is Some,
        0 <= i < apps.len(),
        apps[i].executable_name == Some(steam_executable(p.data.steam_appid->0)),
        forall|j: int| 0 <= j < i ==> (#[trigger] apps[j]).executable_name != apps[i].executable_name,
    ensures
        association(apps, p, answers) == AssociationView::Resolved(apps[i].id),
{
    let q = QueryView::Executable(steam_executable(p.data.steam_appid->0));
    lemma_first_index(apps, q);
    assert(answers_query(apps[i], q));
}

/// Whether the process names no Steam game that is installed.
pub open spec fn no_game(apps: Seq<AppView>, p: ProcessView) -> bool {
    p.data.steam_appid matches Some(n) ==> forall|i: int|
        0 <= i < apps.len() ==> (#[trigger] apps[i]).executable_name != Some(
            "steam_"@ + number::number_text(n as int, 10),
        )
}

/// Whether the control group of the process is that of no application, or only that of
/// Steam while a game runs in it.
pub open spec fn no_group_app(apps: Seq<AppView>, p: ProcessView) -> bool {
    ||| p.data.steam_appid is Some && p.data.cgroup == Some("steam"@)
    ||| forall|i: int|
        0 <= i < apps.len() ==> (#[trigger] apps[i]).id != Some(
            match p.data.cgroup {
                Some(group) => group,
                None => Seq::<char>::empty(),
            },
        )
}

/// Whether the process was started from no AppImage that is installed.
pub open spec fn no_appimage(apps: Seq<AppView>, p: ProcessView) -> bool {
    p.data.appimage_path matches Some(path) ==> forall|i: int|
        0 <= i < apps.len() ==> (#[trigger] apps[i]).containerization != Containerization::AppImage
            || apps[i].commandline != Some(path)
}

/// Whether the answer at place `k` is the first one to a question.
pub open spec fn first_answer(
    answers: Seq<(SnapQueryView, Option<Seq<char>>)>,
    q: SnapQueryView,
    k: int,
) -> bool {
    &&& 0 <= k < answers.len()
    &&& answers[k].0 == q
    &&& forall|j: int| 0 <= j < k ==> (#[trigger] answers[j]).0 != q
}

/// The identifier that an answer of snapd leads to.
pub open spec fn answered_id(q: SnapQueryView, answer: Option<Seq<char>>) -> Seq<char> {
    match answer {
        Some(id) => id,
        None => q.snap + seq!['_'] + q.app,
    }
}

/// Whether the process is of no snap, or snapd has answered with an application that is
/// not installed.
pub open spec fn no_snap_app(
    apps: Seq<AppView>,
    p: ProcessView,
    answers: Seq<(SnapQueryView, Option<Seq<char>>)>,
) -> bool {
    p.data.containerization == Containerization::Snap ==> (p.data.cgroup matches Some(group)
        ==> (text::split_once(group, '.') matches Some((snap, app)) ==> exists|k: int| #[trigger]
        first_answer(answers, (SnapQueryView { snap, app }), k) && forall|i: int|
            0 <= i < apps.len() ==> (#[trigger] apps[i]).id != Some(
                answered_id((SnapQueryView { snap, app }), answers[k].1),
            )))
}

/// Whether nothing that the process says of itself, but for its executable, places it.
pub open spec fn says_nothing(
    apps: Seq<AppView>,
    p: ProcessView,
    answers: Seq<(SnapQueryView, Option<Seq<char>>)>,
) -> bool {
    no_game(apps, p) && no_group_app(apps, p) && no_appimage(apps, p) && no_snap_app(
        apps,
        p,
        answers,
    )
}

/// Whether no application is named like the executable.
pub open spec fn no_executable_app(apps: Seq<AppView>, p: ProcessView) -> bool {
    forall|i: int|
        0 <= i < apps.len() ==> (#[trigger] apps[i]).id != Some(p.executable_path) && apps[i].id
            != Some(p.executable_name)
}

/// Whether no application but the system processes holds the parent.
pub open spec fn no_parent_app(apps: Seq<AppView>, p: ProcessView) -> bool {
    forall|i: int|
        0 <= i < apps.len() ==> (#[trigger] apps[i]).id is None || !apps[i].processes.contains(
            p.data.parent_pid,
        )
}

/// Whether an executable of the first name belongs to the application whose executable
/// has the second one.
pub open spec fn runs_as(name: Seq<char>, known: Seq<char>) -> bool {
    ||| name == "firefox-bin"@ && known == "firefox"@
    ||| name == "oosplash"@ && known == "libreoffice"@
    ||| name == "soffice.bin"@ && known == "libreoffice"@
    ||| name == "resources-processes"@ && known == "resources"@
    ||| name == "gnome-terminal-server"@ && known == "gnome-terminal"@
    ||| name == "chrome"@ && known == "google-chrome-stable"@
}

/// Whether the command line of an application is the executable of the process, or the
/// executable is one that belongs to it under another name.
pub open spec fn runs_command(a: AppView, p: ProcessView) -> bool {
    ||| a.commandline == Some(p.executable_path)
    ||| a.executable_name matches Some(known) && runs_as(p.executable_name, known)
}

proof fn lemma_known_names()
    ensures
        forall|name: Seq<char>, known: Seq<char>|
            #[trigger] runs_as(name, known) == (known_name(name) == Some(known)),
{
    reveal_strlit("firefox-bin");
    reveal_strlit("oosplash");
    reveal_strlit("soffice.bin");
    reveal_strlit("resources-processes");
    reveal_strlit("gnome-terminal-server");
    reveal_strlit("chrome");
    assert("firefox-bin"@[0] == 'f' && "oosplash"@[0] == 'o' && "soffice.bin"@[0] == 's'
        && "resources-processes"@[0] == 'r' && "gnome-terminal-server"@[0] == 'g' && "chrome"@[0]
        == 'c');
}

proof fn lemma_nobody(apps: Seq<AppView>, q: QueryView)
    requires
        forall|i: int| 0 <= i < apps.len() ==> !answers_query(#[trigger] apps[i], q),
    ensures
        resolved_to(apps, q) is None,
        first_index(apps, q) == apps.len(),
{
    lemma_first_index(apps, q);
}

proof fn lemma_first_one(apps: Seq<AppView>, q: QueryView, i: int)
    requires
        0 <= i < apps.len(),
        answers_query(apps[i], q),
        forall|j: int| 0 <= j < i ==> !answers_query(#[trigger] apps[j], q),
    ensures
        resolved_to(apps, q) == Some(AssociationView::Resolved(apps[i].id)),
        first_index(apps, q) == i,
{
    lemma_first_index(apps, q);
    let k = first_index(apps, q);
    if k < i {
        assert(!answers_query(apps[k], q));
    }
}

proof fn lemma_first_answer(
    answers: Seq<(SnapQueryView, Option<Seq<char>>)>,
    q: SnapQueryView,
    k: int,
)
    requires
        first_answer(answers, q, k),
    ensures
        answer_to(answers, q) == Some(answers[k].1),
    decreases answers.len(),
{
    if k > 0 {
        assert(answers[0].0 != q);
        let rest = answers.skip(1);
        assert forall|j: int| 0 <= j < k - 1 implies (#[trigger] rest[j]).0 != q by {
            assert(rest[j] == answers[j + 1]);
        }
        assert(rest[k - 1] == answers[k]);
        lemma_first_answer(rest, q, k - 1);
    }
}

proof fn lemma_no_answer(answers: Seq<(SnapQueryView, Option<Seq<char>>)>, q: SnapQueryView)
    requires
        forall|j: int| 0 <= j < answers.len() ==> (#[trigger] answers[j]).0 != q,
    ensures
        answer_to(answers, q) is None,
    decreases answers.len(),
{
    if answers.len() > 0 {
        let rest = answers.skip(1);
        assert forall|j: int| 0 <= j < rest.len() implies (#[trigger] rest[j]).0 != q by {
            assert(rest[j] == answers[j + 1]);
        }
        assert(answers[0].0 != q);
        lemma_no_answer(rest, q);
    }
}

proof fn lemma_no_game(apps: Seq<AppView>, p: ProcessView)
    requires
        no_game(apps, p),
    ensures
        steam_match(apps, p) is None,
{
    if let Some(n) = p.data.steam_appid {
        lemma_nobody(apps, QueryView::Executable("steam_"@ + number::number_text(n as int, 10)));
    }
}

proof fn lemma_no_group_app(apps: Seq<AppView>, p: ProcessView)
    requires
        no_group_app(apps, p),
    ensures
        cgroup_match(apps, p) is None,
{
    let group = match p.data.cgroup {
        Some(group) => group,
        None => Seq::<char>::empty(),
    };
    if !(p.data.steam_appid is Some && p.data.cgroup == Some("steam"@)) {
        lemma_nobody(apps, QueryView::Id(Some(group)));
    }
}

proof fn lemma_no_appimage(apps: Seq<AppView>, p: ProcessView)
    requires
        no_appimage(apps, p),
    ensures
        appimage_match(apps, p) is None,
{
    if let Some(path) = p.data.appimage_path {
        lemma_nobody(apps, QueryView::AppImage(path));
    }
}

proof fn lemma_says_nothing(
    apps: Seq<AppView>,
    p: ProcessView,
    answers: Seq<(SnapQueryView, Option<Seq<char>>)>,
)
    requires
        says_nothing(apps, p, answers),
    ensures
        association(apps, p, answers) == match exact_match(apps, p) {
            Some(a) => a,
            None => match parent_match(apps, p) {
                Some(a) => a,
                None => AssociationView::Resolved(fallback_match(apps, p)),
            },
        },
{
    lemma_no_game(apps, p);
    lemma_no_group_app(apps, p);
    lemma_no_appimage(apps, p);
    if p.data.containerization == Containerization::Snap && p.data.cgroup is Some {
        if let Some((snap, app)) = text::split_once(p.data.cgroup->0, '.') {
            let q = SnapQueryView { snap, app };
            let k = choose|k: int| #[trigger]
                first_answer(answers, q, k) && forall|i: int|
                    0 <= i < apps.len() ==> (#[trigger] apps[i]).id != Some(
                        answered_id(q, answers[k].1),
                    );
            lemma_first_answer(answers, q, k);
            lemma_nobody(apps, QueryView::Id(Some(answered_id(q, answers[k].1))));
        }
    }
}

/// A process that names an installed Steam game belongs to it, before everything else.
pub proof fn game_before_all(
    apps: Seq<AppView>,
    p: ProcessView,
    answers: Seq<(SnapQueryView, Option<Seq<char>>)>,
    n: u32,
    i: int,
)
    requires
        p.data.steam_appid == Some(n),
        0 <= i < apps.len(),
        apps[i].executable_name == Some("steam_"@ + number::number_text(n as int, 10)),
        forall|j: int| 0 <= j < i ==> (#[trigger] apps[j]).executable_name != apps[i].executable_name,
    ensures
        association(apps, p, answers) == AssociationView::Resolved(apps[i].id),
{
    lemma_first_one(
        apps,
        QueryView::Executable("steam_"@ + number::number_text(n as int, 10)),
        i,
    );
}

/// A process in the control group of an application belongs to it, unless a Steam game
/// is meant that only runs in the group of Steam.
pub proof fn control_group_decides(
    apps: Seq<AppView>,
    p: ProcessView,
    answers: Seq<(SnapQueryView, Option<Seq<char>>)>,
    group: Seq<char>,
    i: int,
)
    requires
        no_game(apps, p),
        p.data.cgroup == Some(group),
        p.data.steam_appid is None || group != "steam"@,
        0 <= i < apps.len(),
        apps[i].id == Some(group),
    ensures
        association(apps, p, answers) == AssociationView::Resolved(Some(group)),
{
    lemma_no_game(apps, p);
    lemma_first_index(apps, QueryView::Id(Some(group)));
    assert(answers_query(apps[i], QueryView::Id(Some(group))));
}

/// Else a process that was started from an AppImage belongs to the first application that
/// is installed from it.
pub proof fn appimage_decides(
    apps: Seq<AppView>,
    p: ProcessView,
    answers: Seq<(SnapQueryView, Option<Seq<char>>)>,
    path: Seq<char>,
    i: int,
)
    requires
        no_game(apps, p),
        no_group_app(apps, p),
        p.data.appimage_path == Some(path),
        0 <= i < apps.len(),
        apps[i].containerization == Containerization::AppImage,
        apps[i].commandline == Some(path),
        forall|j: int|
            0 <= j < i ==> (#[trigger] apps[j]).containerization != Containerization::AppImage
                || apps[j].commandline != Some(path),
    ensures
        association(apps, p, answers) == AssociationView::Resolved(apps[i].id),
{
    lemma_no_game(apps, p);
    lemma_no_group_app(apps, p);
    lemma_first_one(apps, QueryView::AppImage(path), i);
}

/// Else a process of a snap waits until snapd has answered. Then it belongs to the
/// application that the first answer names, or to the one named after the snap and its
/// application where the answer names none, if that is installed.
pub proof fn snap_decides(
    apps: Seq<AppView>,
    p: ProcessView,
    answers: Seq<(SnapQueryView, Option<Seq<char>>)>,
    snap: Seq<char>,
    app: Seq<char>,
)
    requires
        no_game(apps, p),
        no_group_app(apps, p),
        no_appimage(apps, p),
        p.data.containerization == Containerization::Snap,
        forall|i: int| 0 <= i < snap.len() ==> snap[i] != '.',
        p.data.cgroup == Some(snap + seq!['.'] + app),
    ensures
        (forall|j: int|
            0 <= j < answers.len() ==> (#[trigger] answers[j]).0 != (SnapQueryView { snap, app }))
            ==> association(apps, p, answers) == AssociationView::Pending(
            SnapQueryView { snap, app },
        ),
        forall|k: int, i: int|
            #![trigger first_answer(answers, (SnapQueryView { snap, app }), k), apps[i]]
            first_answer(answers, (SnapQueryView { snap, app }), k) && 0 <= i < apps.len()
                && apps[i].id == Some(answered_id((SnapQueryView { snap, app }), answers[k].1))
                ==> association(apps, p, answers) == AssociationView::Resolved(apps[i].id),
{
    let q = SnapQueryView { snap, app };
    lemma_no_game(apps, p);
    lemma_no_group_app(apps, p);
    lemma_no_appimage(apps, p);
    text::lemma_split_once_joined(snap, '.', app);
    if forall|j: int| 0 <= j < answers.len() ==> (#[trigger] answers[j]).0 != q {
        lemma_no_answer(answers, q);
    }
    assert forall|k: int, i: int|
        #![trigger first_answer(answers, q, k), apps[i]]
        first_answer(answers, q, k) && 0 <= i < apps.len() && apps[i].id == Some(
            answered_id(q, answers[k].1),
        ) implies association(apps, p, answers) == AssociationView::Resolved(apps[i].id) by {
        lemma_first_answer(answers, q, k);
        lemma_first_index(apps, QueryView::Id(apps[i].id));
        assert(answers_query(apps[i], QueryView::Id(apps[i].id)));
    }
}

/// Else a process belongs to the application that has the path of its executable as its
/// identifier, or else to the one that has its name, whatever application holds its
/// parent.
pub proof fn executable_before_parent(
    apps: Seq<AppView>,
    p: ProcessView,
    answers: Seq<(SnapQueryView, Option<Seq<char>>)>,
    i: int,
)
    requires
        says_nothing(apps, p, answers),
        0 <= i < apps.len(),
    ensures
        apps[i].id == Some(p.executable_path) ==> association(apps, p, answers)
            == AssociationView::Resolved(Some(p.executable_path)),
        apps[i].id == Some(p.executable_name) && (forall|j: int|
            0 <= j < apps.len() ==> (#[trigger] apps[j]).id != Some(p.executable_path))
            ==> association(apps, p, answers) == AssociationView::Resolved(
            Some(p.executable_name),
        ),
{
    let path = QueryView::Id(Some(p.executable_path));
    let name = QueryView::Id(Some(p.executable_name));
    lemma_says_nothing(apps, p, answers);
    lemma_first_index(apps, path);
    lemma_first_index(apps, name);
    assert(answers_query(apps[i], path) == (apps[i].id == Some(p.executable_path)));
    assert(answers_query(apps[i], name) == (apps[i].id == Some(p.executable_name)));
}

/// Else a process belongs to the application of its parent. The system processes do not
/// pass on to their children that they are such.
pub proof fn parent_before_command_line(
    apps: Seq<AppView>,
    p: ProcessView,
    answers: Seq<(SnapQueryView, Option<Seq<char>>)>,
    i: int,
)
    requires
        says_nothing(apps, p, answers),
        no_executable_app(apps, p),
        0 <= i < apps.len(),
        apps[i].id is Some,
        apps[i].processes.contains(p.data.parent_pid),
        forall|j: int|
            0 <= j < i ==> (#[trigger] apps[j]).id is None || !apps[j].processes.contains(
                p.data.parent_pid,
            ),
    ensures
        association(apps, p, answers) == AssociationView::Resolved(apps[i].id),
{
    lemma_says_nothing(apps, p, answers);
    lemma_nobody(apps, QueryView::Id(Some(p.executable_path)));
    lemma_nobody(apps, QueryView::Id(Some(p.executable_name)));
    lemma_first_one(apps, QueryView::Holds(p.data.parent_pid), i);
}

/// Else a process belongs to the first application whose command line it runs.
pub proof fn command_line_decides(
    apps: Seq<AppView>,
    p: ProcessView,
    answers: Seq<(SnapQueryView, Option<Seq<char>>)>,
    i: int,
)
    requires
        says_nothing(apps, p, answers),
        no_executable_app(apps, p),
        no_parent_app(apps, p),
        0 <= i < apps.len(),
        runs_command(apps[i], p),
        forall|j: int| 0 <= j < i ==> !runs_command(#[trigger] apps[j], p),
    ensures
        association(apps, p, answers) == AssociationView::Resolved(apps[i].id),
{
    let q = QueryView::Commandline { path: p.executable_path, name: p.executable_name };
    lemma_says_nothing(apps, p, answers);
    lemma_nobody(apps, QueryView::Id(Some(p.executable_path)));
    lemma_nobody(apps, QueryView::Id(Some(p.executable_name)));
    lemma_nobody(apps, QueryView::Holds(p.data.parent_pid));
    lemma_known_names();
    assert forall|j: int| 0 <= j < apps.len() implies runs_command(#[trigger] apps[j], p)
        == answers_query(apps[j], q) by {
        if let Some(known) = apps[j].executable_name {
            assert(runs_as(p.executable_name, known) == (known_name(p.executable_name) == Some(
                known,
            )));
        }
    }
    lemma_first_one(apps, q, i);
}

/// A process that nothing speaks for is one of the system.
pub proof fn others_are_system_processes(
    apps: Seq<AppView>,
    p: ProcessView,
    answers: Seq<(SnapQueryView, Option<Seq<char>>)>,
)
    requires
        says_nothing(apps, p, answers),
        no_executable_app(apps, p),
        no_parent_app(apps, p),
        forall|j: int| 0 <= j < apps.len() ==> !runs_command(#[trigger] apps[j], p),
    ensures
        association(apps, p, answers) == AssociationView::Resolved(None),
{
    let q = QueryView::Commandline { path: p.executable_path, name: p.executable_name };
    lemma_says_nothing(apps, p, answers);
    lemma_nobody(apps, QueryView::Id(Some(p.executable_path)));
    lemma_nobody(apps, QueryView::Id(Some(p.executable_name)));
    lemma_nobody(apps, QueryView::Holds(p.data.parent_pid));
    lemma_known_names();
    assert forall|j: int| 0 <= j < apps.len() implies !answers_query(#[trigger] apps[j], q) by {
        if let Some(known) = apps[j].executable_name {
            assert(runs_as(p.executable_name, known) == (known_name(p.executable_name) == Some(
                known,
            )));
        }
    }
    lemma_nobody(apps, q);
}

/// An application is found by its identifier, the first one where there are several; without
/// such an application none is.
pub proof fn app_found_by_id(apps: Seq<AppView>, id: Option<Seq<char>>, i: int)
    ensures
        0 <= i < apps.len() && apps[i].id == id && (forall|j: int|
            0 <= j < i ==> (#[trigger] apps[j]).id != id) ==> first_app(apps, QueryView::Id(id))
            == Some(apps[i]),
        (forall|j: int| 0 <= j < apps.len() ==> (#[trigger] apps[j]).id != id) ==> first_app(
            apps,
            QueryView::Id(id),
        ) is None,
{
    let q = QueryView::Id(id);
    lemma_first_index(apps, q);
    let k = first_index(apps, q);
    if 0 <= i < apps.len() && apps[i].id == id && (forall|j: int|
        0 <= j < i ==> (#[trigger] apps[j]).id != id) {
        assert(answers_query(apps[i], q));
        if k < i {
            assert(answers_query(apps[k], q));
        }
    }
    if k < apps.len() {
        assert(answers_query(apps[k], q));
    }
}

/// The first answer to a question counts.
pub proof fn first_answer_counts(
    answers: Seq<(SnapQueryView, Option<Seq<char>>)>,
    q: SnapQueryView,
    i: int,
)
    ensures
        0 <= i < answers.len() && answers[i].0 == q && (forall|j: int|
            0 <= j < i ==> (#[trigger] answers[j]).0 != q) ==> answer_to(answers, q) == Some(
            answers[i].1,
        ),
        (forall|j: int| 0 <= j < answers.len() ==> (#[trigger] answers[j]).0 != q) ==> answer_to(
            answers,
            q,
        ) is None,
    decreases answers.len(),
{
    if answers.len() > 0 {
        let rest = answers.skip(1);
        first_answer_counts(rest, q, i - 1);
        if forall|j: int| 0 <= j < answers.len() ==> (#[trigger] answers[j]).0 != q {
            assert(answers[0].0 != q);
            assert forall|j: int| 0 <= j < rest.len() implies (#[trigger] rest[j]).0 != q by {
                assert(rest[j] == answers[j + 1]);
            }
        }
        if 0 < i < answers.len() && answers[i].0 == q && (forall|j: int|
            0 <= j < i ==> (#[trigger] answers[j]).0 != q) {
            assert(answers[0].0 != q);
            assert(rest[i - 1] == answers[i]);
            assert forall|j: int| 0 <= j < i - 1 implies (#[trigger] rest[j]).0 != q by {
                assert(rest[j] == answers[j + 1]);
            }
        }
    }
}

} // verus!
