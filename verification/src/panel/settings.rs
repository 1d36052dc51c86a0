//! Per-project app settings: each saved app slot's launch command, working
//! directory, and browser profile as editable texts, with a "detect from
//! open windows" fill from the daemon's capture preview.

use vstd::prelude::*;

use crate::daemon::capture::profile_argument as argument_profile;
use crate::daemon::launcher::shell_quote;
use crate::daemon::launcher::{law_quoted_text_reads_back, shell_quoted, shell_word};
use crate::hypr::model::to_ascii_lowercase;
use crate::json::Json;
use crate::json::JsonView;
use crate::panel::client::UiRequest;
use crate::pieces::{join, trim};
use crate::pieces::{joined, trimmed};
use crate::text::{chars, contains, is_empty, same, same_ignoring_case, starts_with, strip_prefix};
use crate::text::{begins, equal_ignoring_case, holds, lowered};

verus! {

/// One editable app slot.
#[derive(Debug)]
pub struct SlotFields {
    /// Slot UUID as a string.
    pub slot_id: String,
    /// Window class.
    pub class: String,
    /// Launch command line.
    pub command: String,
    /// Working directory.
    pub workdir: String,
    /// Browser profile directory; present only for browser slots.
    pub profile: Option<String>,
}

/// What a [`SlotFields`] holds.
#[verifier::ext_equal]
pub struct SlotFieldsView {
    /// See [`SlotFields::slot_id`].
    pub slot_id: Seq<char>,
    /// See [`SlotFields::class`].
    pub class: Seq<char>,
    /// See [`SlotFields::command`].
    pub command: Seq<char>,
    /// See [`SlotFields::workdir`].
    pub workdir: Seq<char>,
    /// See [`SlotFields::profile`].
    pub profile: Option<Seq<char>>,
}

impl View for SlotFields {
    type V = SlotFieldsView;

    open spec fn view(&self) -> SlotFieldsView {
        SlotFieldsView {
            slot_id: self.slot_id@,
            class: self.class@,
            command: self.command@,
            workdir: self.workdir@,
            profile: self.profile.deep_view(),
        }
    }
}

impl DeepView for SlotFields {
    type V = SlotFieldsView;

    open spec fn deep_view(&self) -> SlotFieldsView {
        self.view()
    }
}

// ---- command lines ------------------------------------------------------------------------

/// Whether a window class belongs to a profile-capable browser.
pub open spec fn is_browser_class(class: Seq<char>) -> bool {
    holds(lowered(class), "chromium"@) || holds(lowered(class), "chrome"@)
}

/// Whether a window class belongs to a profile-capable browser.
pub fn is_browser(class: &str) -> (r: bool)
    ensures
        r == is_browser_class(class@),
{
    let class = to_ascii_lowercase(class);
    contains(class.as_str(), "chromium") || contains(class.as_str(), "chrome")
}

/// Whether a character needs no quoting.
pub open spec fn is_plain(c: char) -> bool {
    'a' <= c && c <= 'z' || 'A' <= c && c <= 'Z' || '0' <= c && c <= '9' || c == '_' || c == '-'
        || c == '.' || c == '/' || c == '=' || c == ':' || c == '@' || c == '+' || c == '%' || c
        == ','
}

/// Whether a text needs no quoting.
pub open spec fn is_plain_text(s: Seq<char>) -> bool {
    s.len() > 0 && forall|i: int| 0 <= i < s.len() ==> is_plain(#[trigger] s[i])
}

/// An argument as it stands on a command line.
pub open spec fn argument(s: Seq<char>) -> Seq<char> {
    if is_plain_text(s) {
        s
    } else {
        shell_quoted(s)
    }
}

/// Single-quote an argument unless it is plain enough to need no quoting.
pub fn quote_argument(arg: &str) -> (r: String)
    ensures
        r@ == argument(arg@),
{
    let v = chars(arg);
    let mut plain = v.len() > 0;
    let mut i: usize = 0;
    while i < v.len()
        invariant
            i <= v.len(),
            v@ == arg@,
            plain == (v.len() > 0 && forall|k: int| 0 <= k < i ==> is_plain(#[trigger] v@[k])),
        decreases v.len() - i,
    {
        let c = v[i];
        if !('a' <= c && c <= 'z' || 'A' <= c && c <= 'Z' || '0' <= c && c <= '9' || c == '_' || c
            == '-' || c == '.' || c == '/' || c == '=' || c == ':' || c == '@' || c == '+' || c
            == '%' || c == ',') {
            assert(!is_plain(v@[i as int]));
            plain = false;
        }
        i = i + 1;
    }
    if plain {
        arg.to_owned()
    } else {
        shell_quote(arg)
    }
}

/// The texts in a list of JSON values, in order.
pub open spec fn texts(items: Seq<JsonView>) -> Seq<Seq<char>>
    decreases items.len(),
{
    if items.len() == 0 {
        seq![]
    } else {
        let before = texts(items.drop_last());
        match items.last() {
            JsonView::Text(s) => before.push(s),
            _ => before,
        }
    }
}

/// The arguments of a launch spec.
pub open spec fn launch_args(launch: JsonView) -> Seq<Seq<char>> {
    match launch.member("args"@) {
        Some(JsonView::List(items)) => texts(items),
        _ => seq![],
    }
}

/// The arguments other than the profile, as they stand on a command line.
pub open spec fn shown_args(args: Seq<Seq<char>>) -> Seq<Seq<char>>
    decreases args.len(),
{
    if args.len() == 0 {
        seq![]
    } else {
        let before = shown_args(args.drop_last());
        if begins(args.last(), "--profile-directory"@) {
            before
        } else {
            before.push(argument(args.last()))
        }
    }
}

/// The text under a key, empty if there is none.
pub open spec fn text_or_empty(json: JsonView, key: Seq<char>) -> Seq<char> {
    match json.member(key) {
        Some(JsonView::Text(s)) => s,
        _ => seq![],
    }
}

/// A launch spec as one command line: the command, if there is one, and the
/// arguments other than the profile.
pub open spec fn command_text(launch: JsonView) -> Seq<char> {
    let command = text_or_empty(launch, "command"@);
    let args = shown_args(launch_args(launch));
    joined(
        if command.len() == 0 {
            args
        } else {
            seq![command] + args
        },
        " "@,
    )
}

fn read_texts(list: &Json) -> (r: Vec<String>)
    ensures
        r.deep_view() == (match list@ {
            JsonView::List(items) => texts(items),
            _ => seq![],
        }),
{
    let mut out: Vec<String> = Vec::new();
    assert(out.deep_view() =~= seq![]);
    match list {
        Json::List(items) => {
            let ghost views = list@->List_0;
            let mut i: usize = 0;
            assert(views.take(0) =~= seq![]);
            while i < items.len()
                invariant
                    i <= items.len(),
                    list@ == JsonView::List(views),
                    *list == Json::List(*items),
                    views.len() == items.len(),
                    out.deep_view() == texts(views.take(i as int)),
                decreases items.len() - i,
            {
                let ghost before = out.deep_view();
                assert(views[i as int] == items@[i as int]@);
                assert(views.take(i + 1).drop_last() =~= views.take(i as int));
                if let Some(s) = items[i].as_str() {
                    out.push(s.to_owned());
                    assert(out.deep_view() =~= before.push(s@));
                }
                i = i + 1;
            }
            assert(views.take(i as int) =~= views);
            out
        },
        _ => out,
    }
}

fn read_args(launch: &Json) -> (r: Vec<String>)
    ensures
        r.deep_view() == launch_args(launch@),
{
    match launch.get("args") {
        Some(list) => read_texts(list),
        None => {
            let none: Vec<String> = Vec::new();
            assert(none.deep_view() =~= seq![]);
            none
        },
    }
}

fn read_text(json: &Json, key: &str) -> (r: Option<String>)
    ensures
        r.deep_view() == (match json@.member(key@) {
            Some(JsonView::Text(s)) => Some(s),
            _ => None,
        }),
{
    match json.get(key) {
        Some(value) => match value.as_str() {
            Some(s) => Some(s.to_owned()),
            None => None,
        },
        None => None,
    }
}

/// Render a launch spec as one editable command line, leaving the profile
/// argument to its dedicated field. The line is saved back as a raw shell
/// command, so arguments with shell-special characters (tab URLs full of
/// `?` and `&`) are single-quoted.
pub fn command_line(launch: &Json) -> (r: String)
    ensures
        r@ == command_text(launch@),
{
    let mut parts: Vec<String> = Vec::new();
    assert(parts.deep_view() =~= seq![]);
    if let Some(command) = read_text(launch, "command") {
        if !is_empty(command.as_str()) {
            parts.push(command);
            assert(parts.deep_view() =~= seq![command@]);
        }
    }
    let ghost start = parts.deep_view();
    let args = read_args(launch);
    let ghost views = args.deep_view();
    let mut i: usize = 0;
    assert(views.take(0) =~= seq![]);
    assert(start + shown_args(views.take(0)) =~= start);
    while i < args.len()
        invariant
            i <= args.len(),
            views == args.deep_view(),
            parts.deep_view() == start + shown_args(views.take(i as int)),
        decreases args.len() - i,
    {
        let ghost before = parts.deep_view();
        assert(views[i as int] == args@[i as int]@);
        assert(views.take(i + 1).drop_last() =~= views.take(i as int));
        if !starts_with(args[i].as_str(), "--profile-directory") {
            let part = quote_argument(args[i].as_str());
            parts.push(part);
            assert(parts.deep_view() =~= before.push(part@));
            assert(parts.deep_view() =~= start + shown_args(views.take(i + 1)));
        }
        i = i + 1;
    }
    assert(views.take(i as int) =~= views);
    proof {
        let rest = shown_args(views);
        assert(seq![] + rest =~= rest);
    }
    join(&parts, " ")
}

/// Extract the profile from a launch spec's `--profile-directory=` argument.
pub fn profile_argument(launch: &Json) -> (r: Option<String>)
    ensures
        r.deep_view() == argument_profile(launch_args(launch@), 0),
{
    let args = read_args(launch);
    let ghost views = args.deep_view();
    let mut i: usize = 0;
    while i < args.len()
        invariant
            i <= args.len(),
            views == args.deep_view(),
            views == launch_args(launch@),
            argument_profile(views, 0) == argument_profile(views, i as int),
        decreases args.len() - i,
    {
        assert(views[i as int] == args@[i as int]@);
        if let Some(profile) = strip_prefix(args[i].as_str(), "--profile-directory=") {
            return Some(profile);
        }
        i = i + 1;
    }
    None
}

// ---- filling the form ---------------------------------------------------------------------

/// The member of a member.
pub open spec fn nested(json: JsonView, outer: Seq<char>, inner: Seq<char>) -> Option<Seq<char>> {
    match json.member(outer) {
        Some(value) => match value.member(inner) {
            Some(JsonView::Text(s)) => Some(s),
            _ => None,
        },
        None => None,
    }
}

fn read_nested(json: &Json, outer: &str, inner: &str) -> (r: Option<String>)
    ensures
        r.deep_view() == nested(json@, outer@, inner@),
{
    match json.get(outer) {
        Some(value) => read_text(value, inner),
        None => None,
    }
}

/// The fields of a saved slot. A slot saved without a launch spec still
/// restores via its identity's executable; that is shown as its command.
pub open spec fn fields_of(app: JsonView) -> Option<SlotFieldsView> {
    match app.member("slot_id"@) {
        Some(JsonView::Text(slot_id)) => {
            let class = match nested(app, "identity"@, "class"@) {
                Some(class) => class,
                None => "app"@,
            };
            let shown = match app.member("launch"@) {
                Some(launch) => command_text(launch),
                None => seq![],
            };
            Some(
                SlotFieldsView {
                    slot_id,
                    class,
                    command: if shown.len() > 0 {
                        shown
                    } else {
                        match nested(app, "identity"@, "executable"@) {
                            Some(executable) => executable,
                            None => seq![],
                        }
                    },
                    workdir: match app.member("launch"@) {
                        Some(launch) => text_or_empty(launch, "workdir"@),
                        None => seq![],
                    },
                    profile: if is_browser_class(class) {
                        match app.member("launch"@) {
                            Some(launch) => match argument_profile(launch_args(launch), 0) {
                                Some(profile) => Some(profile),
                                None => Some(seq![]),
                            },
                            None => Some(seq![]),
                        }
                    } else {
                        None
                    },
                },
            )
        },
        _ => None,
    }
}

/// The fields of saved slots, without those that have no id.
pub open spec fn all_fields(apps: Seq<JsonView>) -> Seq<SlotFieldsView>
    decreases apps.len(),
{
    if apps.len() == 0 {
        seq![]
    } else {
        let before = all_fields(apps.drop_last());
        match fields_of(apps.last()) {
            Some(fields) => before.push(fields),
            None => before,
        }
    }
}

/// The apps in a reply of the daemon.
pub open spec fn reply_apps(reply: JsonView) -> Seq<JsonView> {
    match reply.member("apps"@) {
        Some(JsonView::List(apps)) => apps,
        _ => seq![],
    }
}

/// What a reply makes of the form.
#[derive(Debug)]
pub enum Filled {
    /// The reply is about another project.
    OtherProject,
    /// There are no apps in it.
    NoApps,
    /// The rows of the form.
    Rows(Vec<SlotFields>),
}

fn read_fields(app: &Json) -> (r: Option<SlotFields>)
    ensures
        r.deep_view() == fields_of(app@),
{
    let slot_id = match read_text(app, "slot_id") {
        Some(slot_id) => slot_id,
        None => {
            return None;
        },
    };
    let class = match read_nested(app, "identity", "class") {
        Some(class) => class,
        None => "app".to_owned(),
    };
    let mut command = String::new();
    let mut workdir = String::new();
    let mut found: Option<String> = None;
    assert(command@ =~= seq![]);
    if let Some(launch) = app.get("launch") {
        command = command_line(launch);
        if let Some(dir) = read_text(launch, "workdir") {
            workdir = dir;
        }
        found = profile_argument(launch);
    }
    if is_empty(command.as_str()) {
        if let Some(executable) = read_nested(app, "identity", "executable") {
            command = executable;
        } else {
            assert(command@ =~= seq![]);
        }
    }
    let profile = if is_browser(class.as_str()) {
        match found {
            Some(profile) => Some(profile),
            None => {
                let none = String::new();
                assert(none@ =~= seq![]);
                Some(none)
            },
        }
    } else {
        None
    };
    Some(SlotFields { slot_id, class, command, workdir, profile })
}

/// Whether a reply is about a project, under a key.
fn is_about(reply: &Json, key: &str, slug: &str) -> (r: bool)
    ensures
        r == (reply@.member(key@) matches Some(JsonView::Text(s)) && s == slug@),
{
    match read_text(reply, key) {
        Some(s) => same(s.as_str(), slug),
        None => false,
    }
}

/// Fill the form from a `project.get` reply. Other projects are ignored.
pub fn populate(project: &Json, slug: &str) -> (r: Filled)
    ensures
        if !(project@.member("slug"@) matches Some(JsonView::Text(s)) && s == slug@) {
            r is OtherProject
        } else if reply_apps(project@).len() == 0 {
            r is NoApps
        } else {
            r matches Filled::Rows(rows) && rows.deep_view() == all_fields(reply_apps(project@))
        },
{
    if !is_about(project, "slug", slug) {
        return Filled::OtherProject;
    }
    match project.get("apps") {
        Some(Json::List(apps)) => {
            let ghost views = reply_apps(project@);
            assert(views.len() == apps.len());
            if apps.len() == 0 {
                return Filled::NoApps;
            }
            let mut rows: Vec<SlotFields> = Vec::new();
            let mut i: usize = 0;
            assert(rows.deep_view() =~= seq![]);
            assert(views.take(0) =~= seq![]);
            while i < apps.len()
                invariant
                    i <= apps.len(),
                    views.len() == apps.len(),
                    forall|k: int| 0 <= k < views.len() ==> #[trigger] views[k] == apps@[k]@,
                    rows.deep_view() == all_fields(views.take(i as int)),
                decreases apps.len() - i,
            {
                let ghost before = rows.deep_view();
                assert(views[i as int] == apps@[i as int]@);
                assert(views.take(i + 1).drop_last() =~= views.take(i as int));
                if let Some(fields) = read_fields(&apps[i]) {
                    rows.push(fields);
                    assert(rows.deep_view() =~= before.push(fields@));
                }
                i = i + 1;
            }
            assert(views.take(i as int) =~= views);
            Filled::Rows(rows)
        },
        _ => Filled::NoApps,
    }
}

// ---- detected settings --------------------------------------------------------------------

/// The first detected app, at `from` or later, that has the class and fills
/// no row yet.
pub open spec fn free_app(
    apps: Seq<JsonView>,
    used: Set<int>,
    class: Seq<char>,
    from: int,
) -> Option<int>
    decreases apps.len() - from,
{
    if from < 0 || from >= apps.len() {
        None
    } else if !used.contains(from) && (nested(apps[from], "identity"@, "class"@) matches Some(found)
        && equal_ignoring_case(found, class)) {
        Some(from)
    } else {
        free_app(apps, used, class, from + 1)
    }
}

/// A row with what was detected for it.
pub open spec fn detected(row: SlotFieldsView, app: JsonView) -> SlotFieldsView {
    match app.member("launch"@) {
        Some(launch) => SlotFieldsView {
            command: command_text(launch),
            workdir: match launch.member("workdir"@) {
                Some(JsonView::Text(workdir)) => workdir,
                _ => row.workdir,
            },
            profile: match (row.profile, argument_profile(launch_args(launch), 0)) {
                (Some(_), Some(profile)) => Some(profile),
                _ => row.profile,
            },
            ..row
        },
        None => row,
    }
}

/// Rows with what was detected for them: matched by window class, in order,
/// each detected app for at most one row.
pub open spec fn all_detected(
    rows: Seq<SlotFieldsView>,
    apps: Seq<JsonView>,
    used: Set<int>,
) -> Seq<SlotFieldsView>
    decreases rows.len(),
{
    if rows.len() == 0 {
        seq![]
    } else {
        match free_app(apps, used, rows[0].class, 0) {
            Some(k) => seq![detected(rows[0], apps[k])] + all_detected(
                rows.skip(1),
                apps,
                used.insert(k),
            ),
            None => seq![rows[0]] + all_detected(rows.skip(1), apps, used),
        }
    }
}

spec fn marks(used: Seq<bool>) -> Set<int> {
    Set::new(|i: int| 0 <= i < used.len() && used[i])
}

fn find_free(apps: &Vec<Json>, used: &Vec<bool>, class: &str) -> (r: Option<usize>)
    requires
        used.len() == apps.len(),
    ensures
        match (r, free_app(apps.deep_view(), marks(used@), class@, 0)) {
            (Some(i), Some(j)) => i == j && i < apps.len(),
            (None, None) => true,
            _ => false,
        },
{
    let ghost views = apps.deep_view();
    let mut i: usize = 0;
    while i < apps.len()
        invariant
            i <= apps.len(),
            used.len() == apps.len(),
            views == apps.deep_view(),
            free_app(views, marks(used@), class@, 0) == free_app(
                views,
                marks(used@),
                class@,
                i as int,
            ),
        decreases apps.len() - i,
    {
        assert(views[i as int] == apps@[i as int]@);
        if !used[i] {
            if let Some(found) = read_nested(&apps[i], "identity", "class") {
                if same_ignoring_case(found.as_str(), class) {
                    return Some(i);
                }
            }
        }
        i = i + 1;
    }
    None
}

fn detect(row: &SlotFields, app: &Json) -> (r: SlotFields)
    ensures
        r@ == detected(row@, app@),
{
    let mut out = SlotFields {
        slot_id: row.slot_id.clone(),
        class: row.class.clone(),
        command: row.command.clone(),
        workdir: row.workdir.clone(),
        profile: row.profile.clone(),
    };
    if let Some(launch) = app.get("launch") {
        out.command = command_line(launch);
        if let Some(workdir) = read_text(launch, "workdir") {
            out.workdir = workdir;
        }
        if out.profile.is_some() {
            if let Some(profile) = profile_argument(launch) {
                out.profile = Some(profile);
            }
        }
    }
    out
}

fn detect_all(rows: &Vec<SlotFields>, apps: &Vec<Json>) -> (r: Vec<SlotFields>)
    ensures
        r.deep_view() == all_detected(rows.deep_view(), apps.deep_view(), Set::empty()),
{
    let ghost views = rows.deep_view();
    let ghost all = apps.deep_view();
    let mut used: Vec<bool> = Vec::new();
    let mut n: usize = 0;
    while n < apps.len()
        invariant
            n <= apps.len(),
            used.len() == n,
            forall|k: int| 0 <= k < n ==> !(#[trigger] used@[k]),
        decreases apps.len() - n,
    {
        used.push(false);
        n = n + 1;
    }
    assert(marks(used@) =~= Set::empty());
    let mut out: Vec<SlotFields> = Vec::new();
    let mut i: usize = 0;
    let ghost wanted = all_detected(views, all, Set::empty());
    proof {
        assert(views.skip(0) =~= views);
        assert(out.deep_view() + wanted =~= wanted);
    }
    while i < rows.len()
        invariant
            i <= rows.len(),
            used.len() == apps.len(),
            views == rows.deep_view(),
            all == apps.deep_view(),
            wanted == out.deep_view() + all_detected(views.skip(i as int), all, marks(used@)),
        decreases rows.len() - i,
    {
        let ghost before = out.deep_view();
        let ghost rest = views.skip(i as int);
        let ghost old_used = used@;
        assert(rest[0] == rows@[i as int]@);
        assert(rest.skip(1) =~= views.skip(i + 1));
        match find_free(apps, &used, rows[i].class.as_str()) {
            Some(k) => {
                assert(all[k as int] == apps@[k as int]@);
                let row = detect(&rows[i], &apps[k]);
                out.push(row);
                used.set(k, true);
                proof {
                    assert(marks(used@) =~= marks(old_used).insert(k as int));
                    assert(out.deep_view() =~= before.push(row@));
                    let tail = all_detected(views.skip(i + 1), all, marks(used@));
                    assert(before + (seq![row@] + tail) =~= out.deep_view() + tail);
                }
            },
            None => {
                let row = SlotFields {
                    slot_id: rows[i].slot_id.clone(),
                    class: rows[i].class.clone(),
                    command: rows[i].command.clone(),
                    workdir: rows[i].workdir.clone(),
                    profile: rows[i].profile.clone(),
                };
                assert(row@ == rest[0]);
                out.push(row);
                proof {
                    assert(out.deep_view() =~= before.push(row@));
                    let tail = all_detected(views.skip(i + 1), all, marks(used@));
                    assert(before + (seq![row@] + tail) =~= out.deep_view() + tail);
                }
            },
        }
        i = i + 1;
    }
    assert(out.deep_view() + all_detected(views.skip(i as int), all, marks(used@))
        =~= out.deep_view());
    out
}

/// Fill the rows from a `project.capture` preview. Other projects are
/// ignored.
pub fn apply_capture(rows: &Vec<SlotFields>, capture: &Json, slug: &str) -> (r: Filled)
    ensures
        if !(capture@.member("project"@) matches Some(JsonView::Text(s)) && s == slug@) {
            r is OtherProject
        } else if reply_apps(capture@).len() == 0 {
            r is NoApps
        } else {
            r matches Filled::Rows(filled) && filled.deep_view() == all_detected(
                rows.deep_view(),
                reply_apps(capture@),
                Set::empty(),
            )
        },
{
    if !is_about(capture, "project", slug) {
        return Filled::OtherProject;
    }
    match capture.get("apps") {
        Some(Json::List(apps)) => {
            assert(reply_apps(capture@) =~= apps.deep_view());
            if apps.len() == 0 {
                return Filled::NoApps;
            }
            Filled::Rows(detect_all(rows, apps))
        },
        _ => Filled::NoApps,
    }
}

// ---- saving -------------------------------------------------------------------------------

/// Whether a request saves a row.
pub open spec fn saves(request: UiRequest, slug: Seq<char>, row: SlotFieldsView) -> bool {
    request matches UiRequest::UpdateSlot { slug: s, slot_id, command, workdir, profile } && {
        &&& s@ == slug
        &&& slot_id@ == row.slot_id
        &&& command@ == trimmed(row.command)
        &&& workdir@ == trimmed(row.workdir)
        &&& profile.deep_view() == (match row.profile {
            Some(profile) => Some(trimmed(profile)),
            None => None,
        })
    }
}

/// The requests that save the form: one per row, its texts trimmed.
pub fn save_requests(slug: &str, rows: &Vec<SlotFields>) -> (r: Vec<UiRequest>)
    ensures
        r.len() == rows.len(),
        forall|i: int| 0 <= i < r.len() ==> saves(#[trigger] r@[i], slug@, rows@[i]@),
{
    let mut out: Vec<UiRequest> = Vec::new();
    let mut i: usize = 0;
    while i < rows.len()
        invariant
            i <= rows.len(),
            out.len() == i,
            forall|k: int| 0 <= k < i ==> saves(#[trigger] out@[k], slug@, rows@[k]@),
        decreases rows.len() - i,
    {
        let row = &rows[i];
        let profile = match &row.profile {
            Some(profile) => Some(trim(profile.as_str())),
            None => None,
        };
        out.push(
            UiRequest::UpdateSlot {
                slug: slug.to_owned(),
                slot_id: row.slot_id.clone(),
                command: trim(row.command.as_str()),
                workdir: trim(row.workdir.as_str()),
                profile,
            },
        );
        i = i + 1;
    }
    out
}

// ---- laws ---------------------------------------------------------------------------------

proof fn lemma_plain_word(s: Seq<char>)
    requires
        forall|i: int| 0 <= i < s.len() ==> is_plain(#[trigger] s[i]),
    ensures
        shell_word(s, false) == Some(s),
    decreases s.len(),
{
    if s.len() == 0 {
        assert(s =~= seq![]);
    } else {
        assert(is_plain(s[0]));
        let rest = s.skip(1);
        assert forall|i: int| 0 <= i < rest.len() implies is_plain(#[trigger] rest[i]) by {
            assert(is_plain(s[i + 1]));
        }
        lemma_plain_word(rest);
        assert(seq![s[0]] + rest =~= s);
    }
}

/// An argument that is shown on a command line is read back by a shell as it
/// was, quoted or not.
pub proof fn law_shown_arguments_read_back(s: Seq<char>)
    ensures
        shell_word(argument(s), false) == Some(s),
{
    if is_plain_text(s) {
        lemma_plain_word(s);
    } else {
        law_quoted_text_reads_back(s);
    }
}

/// Detecting settings keeps the rows: their number, slots and classes stay,
/// and only browser rows have a profile.
pub proof fn law_detection_keeps_the_slots(
    rows: Seq<SlotFieldsView>,
    apps: Seq<JsonView>,
    used: Set<int>,
)
    ensures
        all_detected(rows, apps, used).len() == rows.len(),
        forall|i: int|
            0 <= i < rows.len() ==> {
                &&& (#[trigger] all_detected(rows, apps, used)[i]).slot_id == rows[i].slot_id
                &&& all_detected(rows, apps, used)[i].class == rows[i].class
                &&& all_detected(rows, apps, used)[i].profile is Some <==> rows[i].profile is Some
            },
    decreases rows.len(),
{
    if rows.len() > 0 {
        let rest = rows.skip(1);
        let after = match free_app(apps, used, rows[0].class, 0) {
            Some(k) => used.insert(k),
            None => used,
        };
        law_detection_keeps_the_slots(rest, apps, after);
        let all = all_detected(rows, apps, used);
        let tail = all_detected(rest, apps, after);
        assert forall|i: int| 0 <= i < rows.len() implies {
            &&& (#[trigger] all[i]).slot_id == rows[i].slot_id
            &&& all[i].class == rows[i].class
            &&& all[i].profile is Some <==> rows[i].profile is Some
        } by {
            if i > 0 {
                assert(all[i] == tail[i - 1]);
                assert(rest[i - 1] == rows[i]);
            }
        }
    }
}

proof fn lemma_shown_without_profile(args: Seq<Seq<char>>, i: int)
    requires
        0 <= i < args.len(),
        begins(args[i], "--profile-directory"@),
    ensures
        shown_args(args.remove(i)) == shown_args(args),
    decreases args.len(),
{
    let less = args.remove(i);
    if i == args.len() - 1 {
        assert(less =~= args.drop_last());
    } else {
        assert(less.drop_last() =~= args.drop_last().remove(i));
        assert(less.last() == args.last());
        lemma_shown_without_profile(args.drop_last(), i);
    }
}

proof fn lemma_all_shown(args: Seq<Seq<char>>)
    requires
        forall|i: int|
            0 <= i < args.len() ==> !begins(#[trigger] args[i], "--profile-directory"@),
    ensures
        shown_args(args).len() == args.len(),
        forall|i: int| 0 <= i < args.len() ==> #[trigger] shown_args(args)[i] == argument(args[i]),
    decreases args.len(),
{
    if args.len() > 0 {
        assert(args[args.len() - 1] == args.last());
        assert forall|i: int| 0 <= i < args.drop_last().len() implies !begins(
            #[trigger] args.drop_last()[i],
            "--profile-directory"@,
        ) by {
            assert(args.drop_last()[i] == args[i]);
        }
        lemma_all_shown(args.drop_last());
        assert forall|i: int| 0 <= i < args.len() implies #[trigger] shown_args(args)[i]
            == argument(args[i]) by {
            if i < args.len() - 1 {
                assert(shown_args(args.drop_last())[i] == argument(args.drop_last()[i]));
            }
        }
    }
}

/// The profile does not show among the arguments: leaving it out makes no
/// difference, and without it every argument shows, in its place.
pub proof fn law_profiles_do_not_show(args: Seq<Seq<char>>)
    ensures
        forall|i: int|
            0 <= i < args.len() && begins(#[trigger] args[i], "--profile-directory"@)
                ==> shown_args(args.remove(i)) == shown_args(args),
        (forall|i: int|
            0 <= i < args.len() ==> !begins(#[trigger] args[i], "--profile-directory"@)) ==> {
            &&& shown_args(args).len() == args.len()
            &&& forall|i: int|
                0 <= i < args.len() ==> #[trigger] shown_args(args)[i] == argument(args[i])
        },
{
    assert forall|i: int|
        0 <= i < args.len() && begins(
            #[trigger] args[i],
            "--profile-directory"@,
        ) implies shown_args(args.remove(i)) == shown_args(args) by {
        lemma_shown_without_profile(args, i);
    }
    if forall|i: int|
        0 <= i < args.len() ==> !begins(#[trigger] args[i], "--profile-directory"@) {
        lemma_all_shown(args);
    }
}

/// The form shows a slot as it was saved: under its id, with the class of its
/// identity, the folder it starts in, and a profile exactly for a browser. A
/// slot without anything to launch shows its executable.
pub proof fn law_forms_show_the_saved_slot(app: JsonView, slot_id: Seq<char>, fields: SlotFieldsView)
    requires
        app.member("slot_id"@) == Some(JsonView::Text(slot_id)),
        fields_of(app) == Some(fields),
    ensures
        fields.slot_id == slot_id,
        app.member("identity"@) matches Some(identity) ==> identity.member("class"@) matches Some(
            JsonView::Text(class),
        ) ==> fields.class == class,
        app.member("launch"@) matches Some(launch) ==> launch.member("workdir"@) matches Some(
            JsonView::Text(workdir),
        ) ==> fields.workdir == workdir,
        fields.profile is Some <==> holds(lowered(fields.class), "chromium"@) || holds(
            lowered(fields.class),
            "chrome"@,
        ),
        app.member("launch"@) is None ==> fields.workdir.len() == 0,
        app.member("identity"@) matches Some(identity) ==> identity.member(
            "executable"@,
        ) matches Some(JsonView::Text(executable)) ==> app.member("launch"@) is None
            ==> fields.command == executable,
{
}

/// A row without a saved id is left out, and every other one is shown, in
/// their order.
pub proof fn law_every_saved_slot_is_shown(apps: Seq<JsonView>, app: JsonView)
    ensures
        app.member("slot_id"@) matches Some(JsonView::Text(_)) ==> fields_of(app) is Some
            && all_fields(apps.push(app)) == all_fields(apps).push(fields_of(app)->0),
        !(app.member("slot_id"@) matches Some(JsonView::Text(_))) ==> all_fields(apps.push(app))
            == all_fields(apps),
{
    assert(apps.push(app).drop_last() =~= apps);
}

proof fn lemma_free_app(apps: Seq<JsonView>, used: Set<int>, class: Seq<char>, from: int)
    requires
        0 <= from,
    ensures
        free_app(apps, used, class, from) matches Some(k) ==> from <= k < apps.len()
            && !used.contains(k) && (nested(apps[k], "identity"@, "class"@) matches Some(found)
            && equal_ignoring_case(found, class)),
    decreases apps.len() - from,
{
    if from < apps.len() {
        if !(!used.contains(from) && (nested(apps[from], "identity"@, "class"@) matches Some(found)
            && equal_ignoring_case(found, class))) {
            lemma_free_app(apps, used, class, from + 1);
        }
    }
}

/// Whether an app's identity has a class, whatever the case of its letters.
pub open spec fn is_of_class(app: JsonView, class: Seq<char>) -> bool {
    app.member("identity"@) matches Some(identity) && identity.member("class"@) matches Some(
        JsonView::Text(found),
    ) && lowered(found) == lowered(class)
}

/// Whether a row is as it was, or shows what an app of its class launches.
pub open spec fn is_as_detected(
    before: SlotFieldsView,
    after: SlotFieldsView,
    apps: Seq<JsonView>,
    k: int,
) -> bool {
    &&& 0 <= k < apps.len()
    &&& is_of_class(apps[k], before.class)
    &&& apps[k].member("launch"@) is Some ==> after.command == command_text(
        apps[k].member("launch"@)->0,
    )
    &&& apps[k].member("launch"@) matches Some(launch) ==> launch.member("workdir"@) matches Some(
        JsonView::Text(workdir),
    ) ==> after.workdir == workdir
}

/// A row that detection changes shows what an app of its window class
/// launches.
pub proof fn law_detected_settings_are_of_the_class(
    rows: Seq<SlotFieldsView>,
    apps: Seq<JsonView>,
    used: Set<int>,
    i: int,
)
    requires
        0 <= i < rows.len(),
    ensures
        all_detected(rows, apps, used).len() == rows.len(),
        all_detected(rows, apps, used)[i] == rows[i] || exists|k: int| #[trigger]
            is_as_detected(rows[i], all_detected(rows, apps, used)[i], apps, k),
    decreases rows.len(),
{
    law_detection_keeps_the_slots(rows, apps, used);
    let row = rows[0];
    lemma_free_app(apps, used, row.class, 0);
    let rest = rows.skip(1);
    match free_app(apps, used, row.class, 0) {
        Some(k) => {
            if i == 0 {
                assert(is_as_detected(rows[0], all_detected(rows, apps, used)[0], apps, k));
            } else {
                law_detected_settings_are_of_the_class(rest, apps, used.insert(k), i - 1);
                assert(rest[i - 1] == rows[i]);
                assert(all_detected(rows, apps, used)[i] == all_detected(
                    rest,
                    apps,
                    used.insert(k),
                )[i - 1]);
            }
        },
        None => {
            if i > 0 {
                law_detected_settings_are_of_the_class(rest, apps, used, i - 1);
                assert(rest[i - 1] == rows[i]);
                assert(all_detected(rows, apps, used)[i] == all_detected(rest, apps, used)[i - 1]);
            }
        },
    }
}

/// Saving sends what the row shows, for its slot and project, without the
/// white space around it.
pub proof fn law_saving_sends_the_row(request: UiRequest, slug: Seq<char>, row: SlotFieldsView)
    requires
        saves(request, slug, row),
    ensures
        request matches UiRequest::UpdateSlot { slug: s, slot_id, command, workdir, profile } && {
            &&& s@ == slug
            &&& slot_id@ == row.slot_id
            &&& command@ == trimmed(row.command)
            &&& workdir@ == trimmed(row.workdir)
            &&& profile is Some <==> row.profile is Some
            &&& profile is Some ==> profile->0@ == trimmed(row.profile->0)
        },
{
}

} // verus!
