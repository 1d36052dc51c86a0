//! Best-effort launch capture for `project.save`.
//!
//! A window's pid gives us its command line and working directory, but
//! multi-window applications share one process for every window, so the
//! per-window facts live elsewhere: for a terminal, in its child shell's
//! cwd; for VS Code, in the window title plus VS Code's own session state;
//! for chromium, in the profile list in `Local State`. Everything here is
//! best-effort — on any miss the capture degrades to cmdline + process cwd.
//!
//! The functions take what reading those places gave.

use vstd::prelude::*;
use vstd::slice::slice_to_vec;

use crate::daemon::launcher::shell_quote;
use crate::daemon::launcher::{law_quoted_text_reads_back, shell_quoted, shell_word};
use crate::domain::model::{LaunchSpec, Readiness};
use crate::domain::model::{LaunchSpecView, ReadinessView};
use crate::domain::world::WindowFacts;
use crate::domain::world::WindowFactsView;
use crate::hypr::model::to_ascii_lowercase;
use crate::json::Json;
use crate::json::JsonView;
use crate::numbers::{parse_i64, render_signed};
use crate::numbers::{decimal_int, i64_value};
use crate::outside::{from_utf8_lossy, parse_json, regex_escape};
use crate::outside::{escaped, json_document, utf8_text};
use crate::pieces::{split, split_words};
use crate::pieces::{all_fields, joined, law_fields_join_back, words};
use crate::text::{
    chars, contains, same, same_ignoring_case, starts_with, strip_prefix, text_range, white_space,
};
use crate::text::{
    begins, equal_ignoring_case, holds, is_space, lowered, without_prefix,
};

verus! {

// ---- the command line -----------------------------------------------------------------------

/// How many bytes other than 0 stand at the beginning.
pub open spec fn leading_run(s: Seq<u8>) -> nat
    decreases s.len(),
{
    if s.len() > 0 && s[0] != 0 {
        1 + leading_run(s.skip(1))
    } else {
        0
    }
}

/// The maximal runs of bytes other than 0.
pub open spec fn runs(s: Seq<u8>) -> Seq<Seq<u8>>
    decreases s.len(),
{
    if s.len() == 0 {
        seq![]
    } else if s[0] == 0 {
        runs(s.skip(1))
    } else {
        let n = leading_run(s) as int;
        if 0 < n <= s.len() {
            seq![s.take(n)] + runs(s.skip(n))
        } else {
            seq![]
        }
    }
}

/// The texts of byte runs.
pub open spec fn run_texts(runs: Seq<Seq<u8>>) -> Seq<Seq<char>> {
    Seq::new(runs.len(), |i: int| utf8_text(runs[i]))
}

/// Whether white space occurs in a text.
pub open spec fn has_space(s: Seq<char>) -> bool {
    exists|i: int| 0 <= i < s.len() && is_space(#[trigger] s[i])
}

/// The arguments that the texts of a command line mean: a single one with
/// white space in it is cut at that.
pub open spec fn resplit(argv: Seq<Seq<char>>) -> Option<Seq<Seq<char>>> {
    if argv.len() == 0 {
        None
    } else if argv.len() == 1 && has_space(argv[0]) {
        Some(words(argv[0]))
    } else {
        Some(argv)
    }
}

fn holds_space(s: &str) -> (r: bool)
    ensures
        r == has_space(s@),
{
    let v = chars(s);
    let mut i: usize = 0;
    while i < v.len()
        invariant
            i <= v.len(),
            v@ == s@,
            forall|k: int| 0 <= k < i ==> !is_space(#[trigger] v@[k]),
        decreases v.len() - i,
    {
        if white_space(v[i]) {
            assert(is_space(s@[i as int]));
            return true;
        }
        i = i + 1;
    }
    false
}

/// Cut a single argument with white space in it at that; leave others as they
/// are.
pub fn split_rewritten(argv: Vec<String>) -> (r: Option<Vec<String>>)
    ensures
        r.deep_view() == resplit(argv.deep_view()),
{
    if argv.len() == 0 {
        return None;
    }
    assert(argv.deep_view()[0] == argv@[0]@);
    if argv.len() == 1 && holds_space(argv[0].as_str()) {
        return Some(split_words(argv[0].as_str()));
    }
    Some(argv)
}

/// The end of the run of bytes at `from` that are 0, or that are not.
fn byte_run_end(v: &Vec<u8>, from: usize) -> (r: usize)
    requires
        from <= v.len(),
    ensures
        from <= r <= v.len(),
        r - from == leading_run(v@.skip(from as int)),
{
    let mut i: usize = from;
    while i < v.len() && v[i] != 0
        invariant
            from <= i <= v.len(),
            leading_run(v@.skip(from as int)) == i - from + leading_run(v@.skip(i as int)),
        decreases v.len() - i,
    {
        proof {
            assert(v@.skip(i as int).skip(1) =~= v@.skip(i + 1));
            assert(v@.skip(i as int)[0] == v@[i as int]);
        }
        i = i + 1;
    }
    proof {
        if i < v.len() {
            assert(v@.skip(i as int)[0] == v@[i as int]);
        }
    }
    i
}

fn bytes_between(v: &Vec<u8>, from: usize, to: usize) -> (r: Vec<u8>)
    requires
        from <= to <= v.len(),
    ensures
        r@ == v@.subrange(from as int, to as int),
{
    let mut out: Vec<u8> = Vec::new();
    let mut i: usize = from;
    while i < to
        invariant
            from <= i <= to <= v.len(),
            out@ == v@.subrange(from as int, i as int),
        decreases to - i,
    {
        out.push(v[i]);
        i = i + 1;
        assert(out@ =~= v@.subrange(from as int, i as int));
    }
    out
}

/// Split `/proc/<pid>/cmdline` into argv. Normally NUL-separated — but
/// chromium rewrites its cmdline in place with spaces, leaving one giant
/// "argument"; that shape is re-split on whitespace instead.
pub fn split_cmdline(bytes: &[u8]) -> (r: Option<Vec<String>>)
    ensures
        r.deep_view() == resplit(run_texts(runs(bytes@))),
{
    let v = slice_to_vec(bytes);
    let mut argv: Vec<String> = Vec::new();
    let mut i: usize = 0;
    proof {
        assert(v@.skip(0) =~= v@);
        assert(argv.deep_view() + run_texts(runs(v@)) =~= run_texts(runs(v@)));
    }
    while i < v.len()
        invariant
            i <= v.len(),
            v@ == bytes@,
            run_texts(runs(bytes@)) == argv.deep_view() + run_texts(runs(v@.skip(i as int))),
        decreases v.len() - i,
    {
        let ghost rest = v@.skip(i as int);
        let ghost before = argv.deep_view();
        assert(rest[0] == v@[i as int]);
        if v[i] == 0 {
            assert(rest.skip(1) =~= v@.skip(i + 1));
            i = i + 1;
        } else {
            let end: usize = byte_run_end(&v, i);
            assert(end > i);
            let part = bytes_between(&v, i, end);
            assert(part@ =~= rest.take(end - i));
            assert(rest.skip(end - i) =~= v@.skip(end as int));
            let text = from_utf8_lossy(part.as_slice());
            argv.push(text);
            proof {
                assert(argv.deep_view() =~= before.push(text@));
                assert(run_texts(runs(rest)) =~= seq![text@] + run_texts(runs(v@.skip(end as int))));
                assert(before + run_texts(runs(rest)) =~= argv.deep_view() + run_texts(
                    runs(v@.skip(end as int)),
                ));
            }
            i = end;
        }
    }
    proof {
        assert(argv.deep_view() + run_texts(runs(v@.skip(i as int))) =~= argv.deep_view());
    }
    split_rewritten(argv)
}

// ---- the working directory ------------------------------------------------------------------

/// The only child among a process's children, if it has exactly one.
pub open spec fn single_child(children: Seq<char>) -> Option<i32> {
    let pids = words(children);
    if pids.len() == 1 {
        match i64_value(pids[0]) {
            Some(pid) => if i32::MIN <= pid <= i32::MAX {
                Some(pid as i32)
            } else {
                None
            },
            None => None,
        }
    } else {
        None
    }
}

/// The only child in the text of `/proc/<pid>/task/<pid>/children`, if there
/// is exactly one.
pub fn only_child(children: &str) -> (r: Option<i32>)
    ensures
        r == single_child(children@),
{
    let pids = split_words(children);
    if pids.len() != 1 {
        return None;
    }
    assert(pids.deep_view()[0] == pids@[0]@);
    match parse_i64(pids[0].as_str()) {
        Some(pid) => if pid >= i32::MIN as i64 && pid <= i32::MAX as i64 {
            Some(pid as i32)
        } else {
            None
        },
        None => None,
    }
}

/// Working directory for a captured window. A terminal's own cwd is where it
/// was launched; the directory the user actually sits in belongs to its child
/// shell — so the only child's cwd comes first. The root directory says
/// nothing.
pub fn process_workdir(child_cwd: Option<String>, own_cwd: Option<String>) -> (r: Option<String>)
    ensures
        r.deep_view() == (match (child_cwd, own_cwd) {
            (Some(cwd), _) => if cwd@ == "/"@ {
                None
            } else {
                Some(cwd@)
            },
            (None, Some(cwd)) => if cwd@ == "/"@ {
                None
            } else {
                Some(cwd@)
            },
            (None, None) => None,
        }),
{
    let cwd = match child_cwd {
        Some(cwd) => Some(cwd),
        None => own_cwd,
    };
    match cwd {
        Some(cwd) => if same(cwd.as_str(), "/") {
            None
        } else {
            Some(cwd)
        },
        None => None,
    }
}

// ---- chromium -------------------------------------------------------------------------------

/// The first directory, at `from` or later, whose profile has the display
/// name, up to letter case.
pub open spec fn profile_named(
    cache: Seq<(Seq<char>, JsonView)>,
    name: Seq<char>,
    from: int,
) -> Option<Seq<char>>
    decreases cache.len() - from,
{
    if from < 0 || from >= cache.len() {
        None
    } else {
        match cache[from].1.member("name"@) {
            Some(JsonView::Text(shown)) if equal_ignoring_case(shown, name) => Some(cache[from].0),
            _ => profile_named(cache, name, from + 1),
        }
    }
}

/// The profile directory that belongs to a project: one whose display name is
/// the project's, else the only active one.
pub open spec fn profile_for(local_state: JsonView, project_name: Seq<char>) -> Option<Seq<char>> {
    match local_state.member("profile"@) {
        Some(profile) => {
            let named = match profile.member("info_cache"@) {
                Some(JsonView::Object(cache)) => profile_named(cache, project_name, 0),
                _ => None,
            };
            match named {
                Some(dir) => Some(dir),
                None => match profile.member("last_active_profiles"@) {
                    Some(JsonView::List(active)) => if active.len() == 1 {
                        active[0].as_text()
                    } else {
                        None
                    },
                    _ => None,
                },
            }
        },
        None => None,
    }
}

fn owned(s: Option<&str>) -> (r: Option<String>)
    ensures
        match (s, r) {
            (Some(s), Some(r)) => s@ == r@,
            (None, None) => true,
            _ => false,
        },
{
    match s {
        Some(s) => Some(s.to_owned()),
        None => None,
    }
}

fn find_profile(cache: &Json, project_name: &str) -> (r: Option<String>)
    ensures
        r.deep_view() == (match cache@ {
            JsonView::Object(members) => profile_named(members, project_name@, 0),
            _ => None,
        }),
{
    match cache {
        Json::Object(members) => {
            let ghost views = cache@->Object_0;
            let mut i: usize = 0;
            while i < members.len()
                invariant
                    i <= members.len(),
                    cache@ == JsonView::Object(views),
                    *cache == Json::Object(*members),
                    views.len() == members.len(),
                    profile_named(views, project_name@, 0) == profile_named(
                        views,
                        project_name@,
                        i as int,
                    ),
                decreases members.len() - i,
            {
                assert(views[i as int] == (members@[i as int].0@, members@[i as int].1@));
                if let Some(name) = members[i].1.get("name") {
                    if let Some(name) = name.as_str() {
                        if same_ignoring_case(name, project_name) {
                            return Some(members[i].0.clone());
                        }
                    }
                }
                i = i + 1;
            }
            None
        },
        _ => None,
    }
}

/// Pick the profile directory for a captured chromium/chrome window from its
/// `Local State`. All windows share one process, so the cmdline rarely says;
/// instead prefer a profile whose display name matches the project, then the
/// only active one.
pub fn chromium_profile(local_state: &Json, project_name: &str) -> (r: Option<String>)
    ensures
        r.deep_view() == profile_for(local_state@, project_name@),
{
    let profile = match local_state.get("profile") {
        Some(profile) => profile,
        None => {
            return None;
        },
    };
    if let Some(cache) = profile.get("info_cache") {
        if let Some(dir) = find_profile(cache, project_name) {
            return Some(dir);
        }
    }
    match profile.get("last_active_profiles") {
        Some(Json::List(active)) => {
            if active.len() == 1 {
                assert(profile@.member("last_active_profiles"@)->0->List_0[0] == active@[0]@);
                owned(active[0].as_str())
            } else {
                None
            }
        },
        _ => None,
    }
}

/// The profile directory that the bytes of `Local State` give.
pub fn chromium_profile_in(local_state: &[u8], project_name: &str) -> (r: Option<String>)
    ensures
        r.deep_view() == (match json_document(local_state@) {
            Some(document) => profile_for(document, project_name@),
            None => None,
        }),
{
    match parse_json(local_state) {
        Some(document) => chromium_profile(&document, project_name),
        None => None,
    }
}

// ---- vs code --------------------------------------------------------------------------------

/// The folder that a VS Code window title names: the second-to-last of its
/// parts.
pub open spec fn title_folder(title: Seq<char>) -> Option<Seq<char>> {
    let parts = all_fields(title, " - "@);
    if parts.len() < 3 || !holds(parts.last(), "Visual Studio Code"@) {
        None
    } else {
        Some(parts[parts.len() - 2])
    }
}

/// The folder that a VS Code window title names, if it does.
pub fn vscode_title_folder(title: &str) -> (r: Option<String>)
    ensures
        r.deep_view() == title_folder(title@),
{
    proof {
        reveal_strlit(" - ");
    }
    let segments = split(title, " - ");
    let n: usize = segments.len();
    if n < 3 {
        return None;
    }
    assert(segments.deep_view()[n - 1] == segments@[n - 1]@);
    assert(segments.deep_view()[n - 2] == segments@[n - 2]@);
    if !contains(segments[n - 1].as_str(), "Visual Studio Code") {
        return None;
    }
    Some(segments[n - 2].clone())
}

/// Whether a window class is that of VS Code or a build of it.
pub open spec fn is_vscode(class: Seq<char>) -> bool {
    lowered(class) == "code"@ || begins(lowered(class), "code-"@) || holds(
        lowered(class),
        "vscodium"@,
    )
}

/// Whether a window class is that of VS Code or a build of it.
pub fn vscode_class(class: &str) -> (r: bool)
    ensures
        r == is_vscode(class@),
{
    let class = to_ascii_lowercase(class);
    same(class.as_str(), "code") || starts_with(class.as_str(), "code-") || contains(
        class.as_str(),
        "vscodium",
    )
}

/// The title pattern that pins a window down: that of the folder which a VS
/// Code window shows.
pub open spec fn title_pattern_of(facts: WindowFactsView) -> Option<Seq<char>> {
    match title_folder(facts.title) {
        Some(folder) => if is_vscode(facts.class) {
            Some(" - "@ + escaped(folder) + " - "@)
        } else {
            None
        },
        None => None,
    }
}

/// A title pattern distinguishing this window from same-class siblings, for
/// slot identities. VS Code windows advertise their folder in the title
/// ("file - folder - Visual Studio Code"), which survives restarts; most
/// other titles are too volatile to pin down.
pub fn captured_title_pattern(facts: &WindowFacts) -> (r: Option<String>)
    ensures
        r.deep_view() == title_pattern_of(facts@),
{
    if !vscode_class(facts.class.as_str()) {
        return None;
    }
    match vscode_title_folder(facts.title.as_str()) {
        Some(folder) => {
            let mut out = " - ".to_owned();
            out.append(regex_escape(folder.as_str()).as_str());
            out.append(" - ");
            Some(out)
        },
        None => None,
    }
}

/// The value of a hexadecimal digit.
pub open spec fn hex_value(b: u8) -> Option<u8> {
    if 0x30 <= b <= 0x39 {
        Some((b - 0x30) as u8)
    } else if 0x41 <= b <= 0x46 {
        Some((b - 0x41 + 10) as u8)
    } else if 0x61 <= b <= 0x66 {
        Some((b - 0x61 + 10) as u8)
    } else {
        None
    }
}

/// The byte that two characters behind a percent sign stand for; the first
/// may be a plus sign.
pub open spec fn hex_byte(high: u8, low: u8) -> Option<u8> {
    match (hex_value(high), hex_value(low)) {
        (Some(h), Some(l)) => Some((16 * h + l) as u8),
        (None, Some(l)) => if high == 0x2b {
            Some(l)
        } else {
            None
        },
        _ => None,
    }
}

/// Bytes with their percent escapes resolved.
pub open spec fn unescaped(s: Seq<u8>) -> Seq<u8>
    decreases s.len(),
{
    if s.len() == 0 {
        seq![]
    } else if s[0] == 0x25 && s.len() > 2 && hex_byte(s[1], s[2]) is Some {
        seq![hex_byte(s[1], s[2])->0] + unescaped(s.skip(3))
    } else {
        seq![s[0]] + unescaped(s.skip(1))
    }
}

fn hex_digit(b: u8) -> (r: Option<u8>)
    ensures
        r == hex_value(b),
        r matches Some(v) ==> v < 16,
{
    if 0x30 <= b && b <= 0x39 {
        Some(b - 0x30)
    } else if 0x41 <= b && b <= 0x46 {
        Some(b - 0x41 + 10)
    } else if 0x61 <= b && b <= 0x66 {
        Some(b - 0x61 + 10)
    } else {
        None
    }
}

fn hex_pair(high: u8, low: u8) -> (r: Option<u8>)
    ensures
        r == hex_byte(high, low),
{
    match (hex_digit(high), hex_digit(low)) {
        (Some(h), Some(l)) => Some(16 * h + l),
        (None, Some(l)) => if high == 0x2b {
            Some(l)
        } else {
            None
        },
        _ => None,
    }
}

fn unescape(bytes: &Vec<u8>) -> (r: Vec<u8>)
    ensures
        r@ == unescaped(bytes@),
{
    let mut out: Vec<u8> = Vec::new();
    let mut i: usize = 0;
    proof {
        assert(bytes@.skip(0) =~= bytes@);
        assert(out@ + unescaped(bytes@) =~= unescaped(bytes@));
    }
    while i < bytes.len()
        invariant
            i <= bytes.len(),
            unescaped(bytes@) == out@ + unescaped(bytes@.skip(i as int)),
        decreases bytes.len() - i,
    {
        let ghost rest = bytes@.skip(i as int);
        let ghost before = out@;
        assert(rest[0] == bytes@[i as int]);
        if bytes[i] == 0x25 && bytes.len() - i > 2 {
            assert(rest[1] == bytes@[i + 1]);
            assert(rest[2] == bytes@[i + 2]);
            if let Some(byte) = hex_pair(bytes[i + 1], bytes[i + 2]) {
                out.push(byte);
                proof {
                    assert(rest.skip(3) =~= bytes@.skip(i + 3));
                    assert(before + (seq![byte] + unescaped(rest.skip(3))) =~= out@ + unescaped(
                        bytes@.skip(i + 3),
                    ));
                }
                i = i + 3;
                continue ;
            }
        }
        out.push(bytes[i]);
        proof {
            assert(rest.skip(1) =~= bytes@.skip(i + 1));
            assert(before + (seq![rest[0]] + unescaped(rest.skip(1))) =~= out@ + unescaped(
                bytes@.skip(i + 1),
            ));
        }
        i = i + 1;
    }
    proof {
        assert(out@ + unescaped(bytes@.skip(i as int)) =~= out@);
    }
    out
}

/// A text with its percent escapes resolved.
pub open spec fn percent_decoded(text: Seq<char>) -> Seq<char> {
    utf8_text(unescaped(vstd::utf8::encode_utf8(text)))
}

/// Resolve percent escapes; what is none stays.
pub fn percent_decode(text: &str) -> (r: String)
    ensures
        r@ == percent_decoded(text@),
{
    let bytes = slice_to_vec(text.as_bytes());
    let out = unescape(&bytes);
    from_utf8_lossy(out.as_slice())
}

/// The part of a path behind its last slash.
pub open spec fn base_name(path: Seq<char>) -> Seq<char>
    decreases path.len(),
{
    if path.len() == 0 || path.last() == '/' {
        seq![]
    } else {
        base_name(path.drop_last()).push(path.last())
    }
}

fn base_of(path: &str) -> (r: String)
    ensures
        r@ == base_name(path@),
{
    let v = chars(path);
    let mut i: usize = v.len();
    assert(v@.take(i as int) =~= path@);
    assert(base_name(v@.take(i as int)) + v@.skip(i as int) =~= base_name(path@));
    while i > 0 && v[i - 1] != '/'
        invariant
            i <= v.len(),
            v@ == path@,
            base_name(path@) == base_name(v@.take(i as int)) + v@.skip(i as int),
        decreases i,
    {
        proof {
            let front = v@.take(i as int);
            assert(front.drop_last() =~= v@.take(i - 1));
            assert(base_name(front.drop_last()).push(front.last()) + v@.skip(i as int)
                =~= base_name(v@.take(i - 1)) + v@.skip(i - 1));
        }
        i = i - 1;
    }
    proof {
        if i > 0 {
            assert(v@.take(i as int).last() == '/');
        }
        assert(base_name(v@.take(i as int)) =~= seq![]);
        assert(seq![] + v@.skip(i as int) =~= v@.skip(i as int));
    }
    let out = text_range(&v, i, v.len());
    assert(out@ =~= v@.skip(i as int));
    out
}

/// The folder that a uri names, if it is a file whose base name is the wanted
/// one, up to letter case.
pub open spec fn folder_of(uri: Seq<char>, name: Seq<char>) -> Option<Seq<char>> {
    match without_prefix(uri, "file://"@) {
        Some(path) => if equal_ignoring_case(base_name(percent_decoded(path)), name) {
            Some(percent_decoded(path))
        } else {
            None
        },
        None => None,
    }
}

fn folder_in(uri: &str, name: &str) -> (r: Option<String>)
    ensures
        r.deep_view() == folder_of(uri@, name@),
{
    match strip_prefix(uri, "file://") {
        Some(path) => {
            let path = percent_decode(path.as_str());
            if same_ignoring_case(base_of(path.as_str()).as_str(), name) {
                Some(path)
            } else {
                None
            }
        },
        None => None,
    }
}

/// The folder of a window, if it has the wanted name.
pub open spec fn window_folder(window: JsonView, name: Seq<char>) -> Option<Seq<char>> {
    match window.member("folder"@) {
        Some(JsonView::Text(uri)) => folder_of(uri, name),
        _ => None,
    }
}

/// The first folder, among the windows at `from` or later, with the wanted
/// name.
pub open spec fn opened_folder(windows: Seq<JsonView>, name: Seq<char>, from: int) -> Option<
    Seq<char>,
>
    decreases windows.len() - from,
{
    if from < 0 || from >= windows.len() {
        None
    } else {
        match window_folder(windows[from], name) {
            Some(folder) => Some(folder),
            None => opened_folder(windows, name, from + 1),
        }
    }
}

/// The folder with a base name among the windows that VS Code remembers, the
/// last active one first.
pub open spec fn remembered_folder(storage: JsonView, name: Seq<char>) -> Option<Seq<char>> {
    match storage.member("windowsState"@) {
        Some(state) => {
            let last = match state.member("lastActiveWindow"@) {
                Some(window) => window_folder(window, name),
                None => None,
            };
            match last {
                Some(folder) => Some(folder),
                None => match state.member("openedWindows"@) {
                    Some(JsonView::List(windows)) => opened_folder(windows, name, 0),
                    _ => None,
                },
            }
        },
        None => None,
    }
}

fn folder_of_window(window: &Json, name: &str) -> (r: Option<String>)
    ensures
        r.deep_view() == window_folder(window@, name@),
{
    match window.get("folder") {
        Some(uri) => match uri.as_str() {
            Some(uri) => folder_in(uri, name),
            None => None,
        },
        None => None,
    }
}

/// The folder with a base name among the windows that VS Code's
/// `storage.json` remembers.
pub fn vscode_folder_matching(storage: &Json, name: &str) -> (r: Option<String>)
    ensures
        r.deep_view() == remembered_folder(storage@, name@),
{
    let state = match storage.get("windowsState") {
        Some(state) => state,
        None => {
            return None;
        },
    };
    if let Some(window) = state.get("lastActiveWindow") {
        if let Some(folder) = folder_of_window(window, name) {
            return Some(folder);
        }
    }
    match state.get("openedWindows") {
        Some(Json::List(windows)) => {
            let ghost list = state@.member("openedWindows"@)->0->List_0;
            let mut i: usize = 0;
            while i < windows.len()
                invariant
                    i <= windows.len(),
                    list.len() == windows.len(),
                    forall|k: int| 0 <= k < list.len() ==> #[trigger] list[k] == windows@[k]@,
                    remembered_folder(storage@, name@) == opened_folder(list, name@, 0),
                    opened_folder(list, name@, 0) == opened_folder(list, name@, i as int),
                decreases windows.len() - i,
            {
                assert(list[i as int] == windows@[i as int]@);
                if let Some(folder) = folder_of_window(&windows[i], name) {
                    return Some(folder);
                }
                i = i + 1;
            }
            None
        },
        _ => None,
    }
}

/// The folder that a window title names among those that one of the storages
/// remembers; the first that does counts. A storage that could not be read is
/// passed over.
pub open spec fn folder_for(storages: Seq<Option<JsonView>>, name: Seq<char>) -> Option<Seq<char>>
    decreases storages.len(),
{
    if storages.len() == 0 {
        None
    } else {
        match storages[0] {
            Some(storage) => match remembered_folder(storage, name) {
                Some(folder) => Some(folder),
                None => folder_for(storages.skip(1), name),
            },
            None => folder_for(storages.skip(1), name),
        }
    }
}

/// The documents of files that could be read.
pub open spec fn documents(files: Seq<Option<Vec<u8>>>) -> Seq<Option<JsonView>> {
    Seq::new(
        files.len(),
        |i: int|
            match files[i] {
                Some(bytes) => json_document(bytes@),
                None => None,
            },
    )
}

/// Resolve a VS Code window's folder from its title. The title's second-to-
/// last ` - ` segment is the folder's basename ("file — folder — Visual
/// Studio Code"); the `storage.json` files map open windows to full folder
/// URIs, and the basename picks the right one.
pub fn vscode_folder(title: &str, storages: &Vec<Option<Vec<u8>>>) -> (r: Option<String>)
    ensures
        r.deep_view() == (match title_folder(title@) {
            Some(name) => folder_for(documents(storages@), name),
            None => None,
        }),
{
    let name = match vscode_title_folder(title) {
        Some(name) => name,
        None => {
            return None;
        },
    };
    let ghost all = documents(storages@);
    let mut i: usize = 0;
    assert(all.skip(0) =~= all);
    while i < storages.len()
        invariant
            i <= storages.len(),
            all == documents(storages@),
            title_folder(title@) == Some(name@),
            folder_for(all, name@) == folder_for(all.skip(i as int), name@),
        decreases storages.len() - i,
    {
        let ghost rest = all.skip(i as int);
        assert(rest[0] == all[i as int]);
        assert(rest.skip(1) =~= all.skip(i + 1));
        if let Some(bytes) = &storages[i] {
            if let Some(storage) = parse_json(bytes.as_slice()) {
                if let Some(folder) = vscode_folder_matching(&storage, name.as_str()) {
                    return Some(folder);
                }
            }
        }
        i = i + 1;
    }
    None
}

// ---- the launch -----------------------------------------------------------------------------

/// Where the kernel shows something of a process; nowhere for a process id
/// that cannot be one.
pub open spec fn proc_location(pid: i32, rest: Seq<char>) -> Option<Seq<char>> {
    if pid <= 0 {
        None
    } else {
        Some("/proc/"@ + decimal_int(pid as int) + rest)
    }
}

fn proc_path(pid: i32, rest: &str) -> (r: Option<String>)
    ensures
        r.deep_view() == proc_location(pid, rest@),
{
    if pid <= 0 {
        return None;
    }
    let mut out = "/proc/".to_owned();
    out.append(render_signed(pid as i64).as_str());
    out.append(rest);
    Some(out)
}

/// Where a process's command line is shown.
pub fn cmdline_path(pid: i32) -> (r: Option<String>)
    ensures
        r.deep_view() == proc_location(pid, "/cmdline"@),
{
    proc_path(pid, "/cmdline")
}

/// Where a process's working directory is shown.
pub fn cwd_path(pid: i32) -> (r: Option<String>)
    ensures
        r.deep_view() == proc_location(pid, "/cwd"@),
{
    proc_path(pid, "/cwd")
}

/// Where a process's children are shown.
pub fn children_path(pid: i32) -> (r: Option<String>)
    ensures
        r.deep_view() == proc_location(pid, "/task/"@ + decimal_int(pid as int) + "/children"@),
{
    let mut rest = "/task/".to_owned();
    rest.append(render_signed(pid as i64).as_str());
    rest.append("/children");
    proc_path(pid, rest.as_str())
}

/// The configuration directory of the browser that a window class is of, if
/// it is one.
pub open spec fn browser_config_of(class: Seq<char>) -> Option<Seq<char>> {
    if holds(lowered(class), "chromium"@) {
        Some("chromium"@)
    } else if holds(lowered(class), "chrome"@) {
        Some("google-chrome"@)
    } else {
        None
    }
}

/// The configuration directory of the browser that a window class is of.
pub fn browser_config(class: &str) -> (r: Option<&'static str>)
    ensures
        match (r, browser_config_of(class@)) {
            (Some(s), Some(expected)) => s@ == expected,
            (None, None) => true,
            _ => false,
        },
{
    let class = to_ascii_lowercase(class);
    if contains(class.as_str(), "chromium") {
        Some("chromium")
    } else if contains(class.as_str(), "chrome") {
        Some("google-chrome")
    } else {
        None
    }
}

/// The profile that the first argument, at `from` or later, names.
pub open spec fn profile_argument(args: Seq<Seq<char>>, from: int) -> Option<Seq<char>>
    decreases args.len() - from,
{
    if from < 0 || from >= args.len() {
        None
    } else {
        match without_prefix(args[from], "--profile-directory="@) {
            Some(profile) => Some(profile),
            None => profile_argument(args, from + 1),
        }
    }
}

/// The profile of a captured browser window: the one its arguments name, else
/// the one found on disk.
pub open spec fn browser_profile_of(
    args: Seq<Seq<char>>,
    on_disk: Option<Seq<char>>,
) -> Option<Seq<char>> {
    match profile_argument(args, 0) {
        Some(profile) => Some(profile),
        None => on_disk,
    }
}

/// Whether an argument begins a profile choice.
pub open spec fn chooses_profile(args: Seq<Seq<char>>) -> bool {
    exists|i: int| 0 <= i < args.len() && begins(#[trigger] args[i], "--profile-directory"@)
}

/// The profile of a captured browser window.
pub fn browser_profile(args: &Vec<String>, on_disk: Option<String>) -> (r: Option<String>)
    ensures
        r.deep_view() == browser_profile_of(args.deep_view(), on_disk.deep_view()),
{
    let ghost views = args.deep_view();
    let mut i: usize = 0;
    while i < args.len()
        invariant
            i <= args.len(),
            views == args.deep_view(),
            profile_argument(views, 0) == profile_argument(views, i as int),
        decreases args.len() - i,
    {
        assert(views[i as int] == args@[i as int]@);
        if let Some(profile) = strip_prefix(args[i].as_str(), "--profile-directory=") {
            return Some(profile);
        }
        i = i + 1;
    }
    on_disk
}

fn has_profile_choice(args: &Vec<String>) -> (r: bool)
    ensures
        r == chooses_profile(args.deep_view()),
{
    let ghost views = args.deep_view();
    let mut i: usize = 0;
    while i < args.len()
        invariant
            i <= args.len(),
            views == args.deep_view(),
            forall|k: int| 0 <= k < i ==> !begins(#[trigger] views[k], "--profile-directory"@),
        decreases args.len() - i,
    {
        assert(views[i as int] == args@[i as int]@);
        if starts_with(args[i].as_str(), "--profile-directory") {
            return true;
        }
        i = i + 1;
    }
    false
}

/// The arguments of a captured browser window: with its profile, and with its
/// open tabs in a window of their own.
pub open spec fn browser_args(
    args: Seq<Seq<char>>,
    profile: Option<Seq<char>>,
    tabs: Option<Seq<Seq<char>>>,
) -> Seq<Seq<char>> {
    match profile {
        Some(profile) => {
            let chosen = if chooses_profile(args) {
                args
            } else {
                args.push("--profile-directory="@ + profile)
            };
            match tabs {
                Some(tabs) => chosen.push("--new-window"@) + tabs,
                None => chosen,
            }
        },
        None => args,
    }
}

/// What was found out about a window's application beyond its process.
#[derive(Debug)]
pub struct CaptureHints {
    /// The profile of a browser window, found on disk.
    pub disk_profile: Option<String>,
    /// The open tabs of a browser window.
    pub tabs: Option<Vec<String>>,
    /// The folder of a VS Code window.
    pub folder: Option<String>,
}

/// A launch of a command with arguments in a directory, else standard.
pub open spec fn plain_launch(
    command: Seq<char>,
    args: Seq<Seq<char>>,
    workdir: Option<Seq<char>>,
) -> LaunchSpecView {
    LaunchSpecView {
        command,
        args,
        env: seq![],
        workdir,
        after: seq![],
        startup_delay_ms: 0,
        timeout_ms: None,
        readiness: ReadinessView::Window,
        service: false,
    }
}

/// The command word of a captured launch: it reaches the shell unquoted, so
/// one with white space in it is quoted.
pub open spec fn one_word(command: Seq<char>) -> Seq<char> {
    if has_space(command) {
        shell_quoted(command)
    } else {
        command
    }
}

/// The launch that a captured window gets: what its process was started with,
/// enriched for browsers and VS Code; none when no command is known.
pub open spec fn launch_of(
    facts: WindowFactsView,
    argv: Option<Seq<Seq<char>>>,
    workdir: Option<Seq<char>>,
    hints: CaptureHints,
) -> Option<LaunchSpecView> {
    let known = match argv {
        Some(argv) => Some((argv[0], argv.skip(1))),
        None => match facts.executable {
            Some(executable) => Some((executable, seq![])),
            None => None,
        },
    };
    match known {
        Some((command, args)) => if browser_config_of(facts.class) is Some {
            Some(
                plain_launch(
                    one_word(command),
                    browser_args(
                        args,
                        browser_profile_of(args, hints.disk_profile.deep_view()),
                        hints.tabs.deep_view(),
                    ),
                    workdir,
                ),
            )
        } else {
            match hints.folder {
                Some(folder) if is_vscode(facts.class) => Some(
                    plain_launch(one_word(command), args.push(folder@), Some(folder@)),
                ),
                _ => Some(plain_launch(one_word(command), args, workdir)),
            }
        },
        None => None,
    }
}

/// Build a launch spec for a window captured by `project.save`: the full
/// command line (falling back to the resolved executable path), a working
/// directory, and app-specific enrichment. `None` only when no command can be
/// determined at all — such a slot can be adopted but never relaunched.
pub fn captured_launch(
    facts: &WindowFacts,
    argv: Option<Vec<String>>,
    workdir: Option<String>,
    hints: CaptureHints,
) -> (r: Option<LaunchSpec>)
    requires
        argv matches Some(argv) ==> argv.len() > 0,
    ensures
        r.deep_view() == launch_of(facts@, argv.deep_view(), workdir.deep_view(), hints),
{
    let ghost all = argv.deep_view();
    let (command, mut args) = match argv {
        Some(mut argv) => {
            let ghost before = argv.deep_view();
            let command = argv.remove(0);
            proof {
                assert(command@ == before[0]);
                assert(argv.deep_view() =~= before.skip(1));
            }
            (command, argv)
        },
        None => match &facts.executable {
            Some(executable) => {
                let none: Vec<String> = Vec::new();
                assert(none.deep_view() =~= seq![]);
                (executable.clone(), none)
            },
            None => {
                return None;
            },
        },
    };
    let ghost start = args.deep_view();
    let command = if holds_space(command.as_str()) {
        shell_quote(command.as_str())
    } else {
        command
    };
    let mut workdir = workdir;
    if browser_config(facts.class.as_str()).is_some() {
        let profile = browser_profile(&args, hints.disk_profile);
        if let Some(profile) = profile {
            if !has_profile_choice(&args) {
                let mut arg = "--profile-directory=".to_owned();
                arg.append(profile.as_str());
                args.push(arg);
                assert(args.deep_view() =~= start.push(arg@));
            }
            if let Some(mut tabs) = hints.tabs {
                let ghost before = args.deep_view();
                let ghost added = tabs.deep_view();
                args.push("--new-window".to_owned());
                assert(args.deep_view() =~= before.push("--new-window"@));
                args.append(&mut tabs);
                assert(args.deep_view() =~= before.push("--new-window"@) + added);
            }
        }
    } else if vscode_class(facts.class.as_str()) {
        if let Some(folder) = hints.folder {
            workdir = Some(folder.clone());
            args.push(folder);
            assert(args.deep_view() =~= start.push(folder@));
        }
    }
    let spec = LaunchSpec {
        command,
        args,
        env: Vec::new(),
        workdir,
        after: Vec::new(),
        startup_delay_ms: 0,
        timeout_ms: None,
        readiness: Readiness::Window,
        service: false,
    };
    proof {
        assert(spec.env.deep_view() =~= seq![]);
        assert(spec.after.deep_view() =~= seq![]);
    }
    Some(spec)
}

// ---- laws -----------------------------------------------------------------------------------

/// A captured launch starts with what the window's process was started with,
/// or its executable where that is not known. The command stays one word for a
/// shell, no argument is lost or moved, and everything else is standard.
pub proof fn law_captures_keep_the_command_line(
    facts: WindowFactsView,
    argv: Option<Seq<Seq<char>>>,
    workdir: Option<Seq<char>>,
    hints: CaptureHints,
    word: Seq<char>,
    rest: Seq<Seq<char>>,
)
    requires
        match argv {
            Some(line) => line == seq![word] + rest,
            None => facts.executable == Some(word) && rest.len() == 0,
        },
    ensures
        launch_of(facts, argv, workdir, hints) matches Some(launch) && {
            &&& (forall|i: int| 0 <= i < word.len() ==> !is_space(#[trigger] word[i]))
                ==> launch.command == word
            &&& (exists|i: int| 0 <= i < word.len() && is_space(#[trigger] word[i]))
                ==> shell_word(launch.command, false) == Some(word)
            &&& launch.args.len() >= rest.len()
            &&& launch.args.take(rest.len() as int) == rest
            &&& launch.env.len() == 0
            &&& launch.after.len() == 0
            &&& launch.startup_delay_ms == 0
            &&& launch.timeout_ms is None
            &&& launch.readiness == ReadinessView::Window
            &&& !launch.service
        },
{
    law_quoted_text_reads_back(word);
    if let Some(line) = argv {
        assert(line.skip(1) =~= rest);
        assert(line[0] == word);
    } else {
        assert(rest =~= seq![]);
    }
    let launch = launch_of(facts, argv, workdir, hints)->0;
    assert(launch.args.take(rest.len() as int) =~= rest);
}

/// Nothing is launched for a window of which neither the command line nor the
/// executable is known.
pub proof fn law_unknown_commands_are_not_launched(
    facts: WindowFactsView,
    workdir: Option<Seq<char>>,
    hints: CaptureHints,
)
    requires
        facts.executable is None,
    ensures
        launch_of(facts, None, workdir, hints) is None,
{
}

/// A plain window is launched with its arguments in its directory. A VS Code
/// window whose folder is known is launched with that folder and in it. A
/// browser window is launched with its profile, unless its arguments choose
/// one, and with its tabs in a window of their own.
pub proof fn law_captures_add_what_is_known(
    facts: WindowFactsView,
    argv: Seq<Seq<char>>,
    workdir: Option<Seq<char>>,
    hints: CaptureHints,
)
    requires
        argv.len() > 0,
    ensures
        launch_of(facts, Some(argv), workdir, hints) is Some,
        ({
            let launch = launch_of(facts, Some(argv), workdir, hints)->0;
            let rest = argv.skip(1);
            let low = lowered(facts.class);
            let browser = holds(low, "chromium"@) || holds(low, "chrome"@);
            let code = low == "code"@ || begins(low, "code-"@) || holds(low, "vscodium"@);
            let chosen = exists|i: int|
                0 <= i < rest.len() && begins(#[trigger] rest[i], "--profile-directory"@);
            &&& !browser && (!code || hints.folder is None) ==> launch.args == rest
                && launch.workdir == workdir
            &&& !browser && code && hints.folder is Some ==> launch.args == rest.push(
                hints.folder->0@,
            ) && launch.workdir == Some(hints.folder->0@)
            &&& browser ==> launch.workdir == workdir
            &&& browser && hints.disk_profile is None && !chosen ==> launch.args == rest
            &&& browser && hints.disk_profile is Some && !chosen && hints.tabs is None
                ==> launch.args == rest.push("--profile-directory="@ + hints.disk_profile->0@)
            &&& browser && hints.disk_profile is Some && !chosen && hints.tabs is Some
                ==> launch.args == rest.push("--profile-directory="@ + hints.disk_profile->0@).push(
                "--new-window"@,
            ) + hints.tabs->0.deep_view()
            &&& browser && hints.disk_profile is Some && chosen && hints.tabs is Some
                ==> launch.args == rest.push("--new-window"@) + hints.tabs->0.deep_view()
            &&& browser && hints.disk_profile is Some && chosen && hints.tabs is None
                ==> launch.args == rest
        }),
{
    let rest = argv.skip(1);
    lemma_no_profile_argument(rest, 0);
}

proof fn lemma_no_profile_argument(args: Seq<Seq<char>>, from: int)
    requires
        0 <= from,
    ensures
        (forall|i: int| from <= i < args.len() ==> !begins(#[trigger] args[i], "--profile-directory"@))
            ==> profile_argument(args, from) is None,
    decreases args.len() - from,
{
    reveal_strlit("--profile-directory");
    reveal_strlit("--profile-directory=");
    if from < args.len() {
        lemma_no_profile_argument(args, from + 1);
        if begins(args[from], "--profile-directory="@) {
            let arg = args[from];
            let long = "--profile-directory="@;
            let short = "--profile-directory"@;
            assert(arg.take(long.len() as int).take(short.len() as int) =~= arg.take(
                short.len() as int,
            ));
            assert(long.take(short.len() as int) =~= short);
        }
    }
}

/// A command line is read argument by argument: what stands before a zero byte
/// is an argument, and the rest is read in the same way; zero bytes in a row
/// hold nothing between them.
pub proof fn law_arguments_end_at_zero_bytes(arg: Seq<u8>, rest: Seq<u8>)
    requires
        arg.len() > 0,
        forall|i: int| 0 <= i < arg.len() ==> #[trigger] arg[i] != 0,
    ensures
        runs(arg + seq![0u8] + rest) == seq![arg] + runs(rest),
        runs(arg) == seq![arg],
        runs(seq![0u8] + rest) == runs(rest),
{
    let s = arg + seq![0u8] + rest;
    lemma_leading_run(arg, seq![0u8] + rest);
    assert(arg + (seq![0u8] + rest) =~= s);
    assert(s.take(arg.len() as int) =~= arg);
    assert(s.skip(arg.len() as int) =~= seq![0u8] + rest);
    assert((seq![0u8] + rest).skip(1) =~= rest);
    assert(s[0] == arg[0]);
    assert(leading_run(s) == arg.len());
    let tail = seq![0u8] + rest;
    assert(tail[0] == 0);
    assert(runs(tail) == runs(rest));
    assert(runs(s) == seq![s.take(arg.len() as int)] + runs(s.skip(arg.len() as int)));
    lemma_leading_run(arg, seq![]);
    assert(arg + Seq::<u8>::empty() =~= arg);
    assert(arg.take(arg.len() as int) =~= arg);
    assert(arg.skip(arg.len() as int) =~= seq![]);
    assert(runs(seq![]) =~= seq![]);
    assert(runs(arg) =~= seq![arg]);
}

proof fn lemma_leading_run(arg: Seq<u8>, rest: Seq<u8>)
    requires
        forall|i: int| 0 <= i < arg.len() ==> #[trigger] arg[i] != 0,
        rest.len() > 0 ==> rest[0] == 0,
    ensures
        leading_run(arg + rest) == arg.len(),
    decreases arg.len(),
{
    let s = arg + rest;
    if arg.len() == 0 {
        assert(s =~= rest);
    } else {
        assert(s[0] == arg[0]);
        assert(s.skip(1) =~= arg.skip(1) + rest);
        assert forall|i: int| 0 <= i < arg.skip(1).len() implies #[trigger] arg.skip(1)[i] != 0 by {
            assert(arg[i + 1] != 0);
        }
        lemma_leading_run(arg.skip(1), rest);
    }
}

/// Arguments are taken as they are; only a single one with white space in it,
/// as programs leave that rewrite their command line, is cut at that.
pub proof fn law_rewritten_lines_are_cut(argv: Seq<Seq<char>>)
    ensures
        argv.len() == 0 ==> resplit(argv) is None,
        argv.len() > 1 ==> resplit(argv) == Some(argv),
        argv.len() == 1 && (forall|i: int|
            0 <= i < argv[0].len() ==> !is_space(#[trigger] argv[0][i])) ==> resplit(argv) == Some(
            argv,
        ),
        argv.len() == 1 && (exists|i: int|
            0 <= i < argv[0].len() && is_space(#[trigger] argv[0][i])) ==> resplit(argv) == Some(
            words(argv[0]),
        ),
{
}

/// An escape stands for the byte that its two digits write; any other byte
/// stands for itself.
pub proof fn law_escapes_stand_for_bytes(b: u8, high: u8, low: u8, rest: Seq<u8>)
    requires
        b != 0x25,
        0x30 <= high <= 0x39,
        0x41 <= low <= 0x46,
    ensures
        unescaped(seq![b] + rest) == seq![b] + unescaped(rest),
        unescaped(seq![0x25u8, high, low] + rest) == seq![
            (16 * (high - 0x30) + (low - 0x41 + 10)) as u8,
        ] + unescaped(rest),
        unescaped(seq![]) == Seq::<u8>::empty(),
{
    assert((seq![b] + rest).skip(1) =~= rest);
    assert((seq![0x25u8, high, low] + rest).skip(3) =~= rest);
}

/// The base name of a path is what stands behind its last slash.
pub proof fn law_base_names_stand_behind_the_last_slash(front: Seq<char>, name: Seq<char>)
    requires
        forall|i: int| 0 <= i < name.len() ==> #[trigger] name[i] != '/',
    ensures
        base_name(front + seq!['/'] + name) == name,
        base_name(name) == name,
    decreases name.len(),
{
    let path = front + seq!['/'] + name;
    if name.len() == 0 {
        assert(path.last() == '/');
        assert(base_name(path) =~= name);
        assert(base_name(name) =~= name);
    } else {
        let short = name.drop_last();
        assert forall|i: int| 0 <= i < short.len() implies #[trigger] short[i] != '/' by {
            assert(name[i] != '/');
        }
        law_base_names_stand_behind_the_last_slash(front, short);
        assert(path.drop_last() =~= front + seq!['/'] + short);
        assert(path.last() == name.last());
        assert(name[name.len() - 1] != '/');
        assert(short.push(name.last()) =~= name);
    }
}

/// A folder that is found has the wanted name, upper and lower case aside, and
/// comes from a file address, its escapes resolved.
pub proof fn law_found_folders_have_the_name(uri: Seq<char>, name: Seq<char>)
    ensures
        folder_of(uri, name) matches Some(folder) ==> {
            &&& begins(uri, "file://"@)
            &&& folder == percent_decoded(uri.skip("file://"@.len() as int))
            &&& lowered(base_name(folder)) == lowered(name)
        },
        begins(uri, "file://"@) && lowered(
            base_name(percent_decoded(uri.skip("file://"@.len() as int))),
        ) == lowered(name) ==> folder_of(uri, name) is Some,
{
}

/// A slot is told apart by its title only for VS Code, whose titles name the
/// folder: the pattern is that folder, taken literally, between separators.
pub proof fn law_titles_pin_down_folders(facts: WindowFactsView)
    ensures
        ({
            let low = lowered(facts.class);
            let code = low == "code"@ || begins(low, "code-"@) || holds(low, "vscodium"@);
            &&& !code ==> title_pattern_of(facts) is None
            &&& title_folder(facts.title) is None ==> title_pattern_of(facts) is None
            &&& code && title_folder(facts.title) is Some ==> title_pattern_of(facts) == Some(
                " - "@ + escaped(title_folder(facts.title)->0) + " - "@,
            )
        }),
{
}

/// The profile of a browser window is the one that its arguments choose first,
/// else the one found on disk.
pub proof fn law_profiles_come_from_arguments_first(
    args: Seq<Seq<char>>,
    on_disk: Option<Seq<char>>,
    i: int,
    name: Seq<char>,
)
    ensures
        0 <= i < args.len() && args[i] == "--profile-directory="@ + name && (forall|j: int|
            0 <= j < i ==> !begins(#[trigger] args[j], "--profile-directory="@))
            ==> browser_profile_of(args, on_disk) == Some(name),
        (forall|j: int|
            0 <= j < args.len() ==> !begins(#[trigger] args[j], "--profile-directory="@))
            ==> browser_profile_of(args, on_disk) == on_disk,
{
    lemma_profile_argument(args, 0);
    if 0 <= i < args.len() && args[i] == "--profile-directory="@ + name && (forall|j: int|
        0 <= j < i ==> !begins(#[trigger] args[j], "--profile-directory="@)) {
        let key = "--profile-directory="@;
        assert((key + name).take(key.len() as int) =~= key);
        assert((key + name).skip(key.len() as int) =~= name);
        lemma_first_profile(args, i, 0);
    }
}

proof fn lemma_profile_argument(args: Seq<Seq<char>>, from: int)
    requires
        0 <= from,
    ensures
        (forall|j: int|
            from <= j < args.len() ==> !begins(#[trigger] args[j], "--profile-directory="@))
            ==> profile_argument(args, from) is None,
    decreases args.len() - from,
{
    if from < args.len() {
        lemma_profile_argument(args, from + 1);
    }
}

proof fn lemma_first_profile(args: Seq<Seq<char>>, i: int, from: int)
    requires
        0 <= from <= i < args.len(),
        begins(args[i], "--profile-directory="@),
        forall|j: int| from <= j < i ==> !begins(#[trigger] args[j], "--profile-directory="@),
    ensures
        profile_argument(args, from) == Some(
            args[i].skip("--profile-directory="@.len() as int),
        ),
    decreases i - from,
{
    if from < i {
        assert(!begins(args[from], "--profile-directory="@));
        lemma_first_profile(args, i, from + 1);
    }
}

proof fn lemma_profile_named(cache: Seq<(Seq<char>, JsonView)>, name: Seq<char>, from: int)
    requires
        0 <= from,
    ensures
        profile_named(cache, name, from) matches Some(dir) ==> exists|i: int|
            from <= i < cache.len() && (#[trigger] cache[i]).0 == dir && has_shown_name(
                cache[i].1,
                name,
            ),
        profile_named(cache, name, from) is None ==> forall|i: int|
            from <= i < cache.len() ==> !has_shown_name((#[trigger] cache[i]).1, name),
    decreases cache.len() - from,
{
    if from < cache.len() {
        if !has_shown_name(cache[from].1, name) {
            lemma_profile_named(cache, name, from + 1);
        } else {
            assert(cache[from].0 == profile_named(cache, name, from)->0);
        }
    }
}

/// Whether a profile's display name is the given one, up to letter case.
pub open spec fn has_shown_name(profile: JsonView, name: Seq<char>) -> bool {
    profile.member("name"@) matches Some(JsonView::Text(shown)) && lowered(shown) == lowered(name)
}

/// A project's profile is one that shows the project's name; only where there
/// is none, the one profile that is active, if it is the only one.
pub proof fn law_profiles_go_by_their_name(
    local_state: JsonView,
    profile: JsonView,
    cache: Seq<(Seq<char>, JsonView)>,
    name: Seq<char>,
)
    requires
        local_state.member("profile"@) == Some(profile),
        profile.member("info_cache"@) == Some(JsonView::Object(cache)),
    ensures
        (exists|i: int| 0 <= i < cache.len() && has_shown_name((#[trigger] cache[i]).1, name))
            ==> exists|i: int|
            0 <= i < cache.len() && has_shown_name((#[trigger] cache[i]).1, name) && profile_for(
                local_state,
                name,
            ) == Some(cache[i].0),
        (forall|i: int| 0 <= i < cache.len() ==> !has_shown_name((#[trigger] cache[i]).1, name))
            ==> (profile_for(local_state, name) is Some ==> profile.member(
            "last_active_profiles"@,
        ) == Some(JsonView::List(seq![JsonView::Text(profile_for(local_state, name)->0)]))),
{
    lemma_profile_named(cache, name, 0);
    if let Some(JsonView::List(active)) = profile.member("last_active_profiles"@) {
        if active.len() == 1 {
            assert(active =~= seq![active[0]]);
        }
    }
}

/// Whether a storage remembers a window with a folder.
pub open spec fn remembers(storage: JsonView, uri: Seq<char>) -> bool {
    storage.member("windowsState"@) matches Some(state) && {
        ||| state.member("lastActiveWindow"@) matches Some(window) && window.member("folder"@)
            == Some(JsonView::Text(uri))
        ||| state.member("openedWindows"@) matches Some(JsonView::List(windows)) && exists|i: int|
            0 <= i < windows.len() && (#[trigger] windows[i]).member("folder"@) == Some(
                JsonView::Text(uri),
            )
    }
}

proof fn lemma_opened_folder(windows: Seq<JsonView>, name: Seq<char>, from: int)
    requires
        0 <= from,
    ensures
        opened_folder(windows, name, from) matches Some(folder) ==> exists|i: int|
            from <= i < windows.len() && window_folder(#[trigger] windows[i], name) == Some(folder),
    decreases windows.len() - from,
{
    if from < windows.len() {
        if window_folder(windows[from], name) is None {
            lemma_opened_folder(windows, name, from + 1);
        }
    }
}

/// A folder that is remembered is that of a window that the storage holds, and
/// the window that was active last comes before the others.
pub proof fn law_remembered_folders_are_of_windows(storage: JsonView, name: Seq<char>)
    ensures
        remembered_folder(storage, name) matches Some(folder) ==> exists|uri: Seq<char>|
            #[trigger] remembers(storage, uri) && folder_of(uri, name) == Some(folder),
        storage.member("windowsState"@) matches Some(state) ==> state.member(
            "lastActiveWindow"@,
        ) matches Some(window) ==> window.member("folder"@) matches Some(JsonView::Text(uri))
            ==> folder_of(uri, name) is Some ==> remembered_folder(storage, name) == folder_of(
            uri,
            name,
        ),
{
    if let Some(folder) = remembered_folder(storage, name) {
        let state = storage.member("windowsState"@)->0;
        let last = match state.member("lastActiveWindow"@) {
            Some(window) => window_folder(window, name),
            None => None,
        };
        if last is Some {
            let window = state.member("lastActiveWindow"@)->0;
            let uri = window.member("folder"@)->0->Text_0;
            assert(remembers(storage, uri));
        } else {
            let windows = state.member("openedWindows"@)->0->List_0;
            lemma_opened_folder(windows, name, 0);
            let i = choose|i: int|
                0 <= i < windows.len() && window_folder(#[trigger] windows[i], name) == Some(
                    folder,
                );
            let uri = windows[i].member("folder"@)->0->Text_0;
            assert(windows[i].member("folder"@) == Some(JsonView::Text(uri)));
            assert(remembers(storage, uri));
        }
    }
}

/// A storage that could not be read, or that remembers no such folder, makes
/// no difference; the first that remembers one decides.
pub proof fn law_first_storage_decides(
    storages: Seq<Option<JsonView>>,
    first: Option<JsonView>,
    name: Seq<char>,
)
    ensures
        folder_for(seq![first] + storages, name) == (if first is Some && remembered_folder(
            first->0,
            name,
        ) is Some {
            remembered_folder(first->0, name)
        } else {
            folder_for(storages, name)
        }),
        folder_for(seq![], name) is None,
{
    assert((seq![first] + storages).skip(1) =~= storages);
}

/// The folder that a VS Code title names is a whole part of it, right in front
/// of the last part, which names the program; something stands before it.
pub proof fn law_title_folders_stand_before_the_program(title: Seq<char>)
    ensures
        title_folder(title) matches Some(folder) ==> !holds(folder, " - "@) && exists|
            front: Seq<char>,
            program: Seq<char>,
        |
            holds(program, "Visual Studio Code"@) && #[trigger] (front + " - "@ + folder + " - "@
                + program) == title,
{
    reveal_strlit(" - ");
    if let Some(folder) = title_folder(title) {
        let sep = " - "@;
        let parts = all_fields(title, sep);
        law_fields_join_back(title, sep, title.len() + 1);
        let n = parts.len() as int;
        assert(!holds(parts[n - 2], sep));
        let less = parts.drop_last();
        let front = joined(less.drop_last(), sep);
        assert(less.last() == folder);
        assert(joined(less, sep) == front + sep + folder);
        assert(front + sep + folder + sep + parts.last() =~= title);
    }
}

} // verus!
