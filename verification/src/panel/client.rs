//! The panel's connection to the daemon.
//!
//! Snapshots are truth: on connect and after every event that may change the
//! list the full snapshot is fetched again. Events are only a trigger, which
//! makes reconnects trivially correct.

use vstd::prelude::*;

use crate::domain::events::DomainEvent;
use crate::domain::events::DomainEventView;
use crate::proto::{ProjectSummary, Request, RequestEnvelope, Snapshot, PROTOCOL_VERSION};
use crate::proto::RequestView;

verus! {

/// How long to wait before connecting again, in milliseconds.
pub const RECONNECT_DELAY_MS: u64 = 1500;

/// Messages from the UI to the connection.
#[derive(Debug)]
#[allow(inconsistent_fields)]
pub enum UiRequest {
    /// Switch to a project by slug.
    Switch(String),
    /// Create a project with this display name.
    Create(String),
    /// Rename a project (slug stays).
    Rename {
        /// Exact project slug.
        slug: String,
        /// New display name.
        name: String,
    },
    /// Delete a project by exact slug.
    Delete(String),
    /// Capture the project's current windows (`project.save`).
    Save(String),
    /// Restore the project (adopt + launch missing).
    Restore(String),
    /// Close the project: gracefully close all of its windows.
    Close(String),
    /// Reorder projects to this exact slug order.
    Reorder(Vec<String>),
    /// Fetch a project's full definition.
    Get(String),
    /// Preview auto-detected launch settings.
    Capture(String),
    /// Update one slot's launch settings.
    UpdateSlot {
        /// Exact project slug.
        slug: String,
        /// Slot UUID as a string.
        slot_id: String,
        /// Full launch command line ("" clears).
        command: String,
        /// Working directory ("" clears).
        workdir: String,
        /// Browser profile directory ("" clears); `None` when the field
        /// does not apply to this slot.
        profile: Option<String>,
    },
}

/// Messages from the connection to the UI that need no further decoding.
#[derive(Debug)]
pub enum UiUpdate {
    /// Fresh project list (connected).
    Projects(Vec<ProjectSummary>),
    /// The daemon is unreachable.
    Disconnected,
    /// A newer daemon release is known (or `None` again after an update).
    UpdateAvailable(Option<String>),
}

/// What the UI expects back for an in-flight request id.
#[derive(Debug, Clone, Copy, PartialEq, Eq, Structural)]
pub enum Pending {
    /// The state.
    Snapshot,
    /// A project's definition.
    Details,
    /// Detected launch settings.
    Capture,
}

/// The newest expectation per id.
pub open spec fn expectations(rows: Seq<(u64, Pending)>) -> Map<u64, Pending>
    decreases rows.len(),
{
    if rows.len() == 0 {
        Map::empty()
    } else {
        expectations(rows.drop_last()).insert(rows.last().0, rows.last().1)
    }
}

/// One connection lifetime.
#[derive(Debug)]
pub struct Connection {
    /// The id of the next request.
    pub next_id: u64,
    /// Requests whose replies the UI cares about, by request id.
    pub pending: Vec<(u64, Pending)>,
}

/// What a [`Connection`] holds.
#[verifier::ext_equal]
pub struct ConnectionView {
    /// See [`Connection::next_id`].
    pub next_id: u64,
    /// See [`Connection::pending`].
    pub pending: Map<u64, Pending>,
}

impl View for Connection {
    type V = ConnectionView;

    open spec fn view(&self) -> ConnectionView {
        ConnectionView { next_id: self.next_id, pending: expectations(self.pending@) }
    }
}

/// Whether an event never changes the list or the indicators: titles and
/// focus churn constantly.
pub open spec fn is_noisy(event: DomainEventView) -> bool {
    event is WindowTitleChanged || event is WindowFocused
}

/// What the daemon is asked for a message of the UI.
pub open spec fn request_for(request: UiRequest) -> Request {
    match request {
        UiRequest::Switch(slug) => Request::ProjectSwitch { project: slug },
        UiRequest::Create(name) => Request::ProjectCreate { name, slug: None },
        UiRequest::Rename { slug, name } => Request::ProjectRename { slug, name },
        UiRequest::Delete(slug) => Request::ProjectDelete { slug },
        UiRequest::Save(slug) => Request::ProjectSave { project: Some(slug) },
        UiRequest::Restore(slug) => Request::ProjectRestore {
            project: Some(slug),
            dry_run: false,
        },
        UiRequest::Close(slug) => Request::ProjectClose { project: Some(slug) },
        UiRequest::Reorder(order) => Request::ProjectReorder { order },
        UiRequest::Get(slug) => Request::ProjectGet { project: slug },
        UiRequest::Capture(slug) => Request::ProjectCapture { project: Some(slug) },
        UiRequest::UpdateSlot { slug, slot_id, command, workdir, profile } => {
            Request::SlotUpdate {
                project: slug,
                slot_id,
                command: Some(command),
                workdir: Some(workdir),
                profile,
            }
        },
    }
}

/// What a message of the UI makes it expect back.
pub open spec fn expected_for(request: UiRequest) -> Option<Pending> {
    match request {
        UiRequest::Get(_) => Some(Pending::Details),
        UiRequest::Capture(_) => Some(Pending::Capture),
        _ => None,
    }
}

impl ConnectionView {
    /// After a request was sent, with what is expected back.
    pub open spec fn sending(self, expected: Option<Pending>) -> ConnectionView {
        ConnectionView {
            next_id: (self.next_id + 1) as u64,
            pending: match expected {
                Some(kind) => self.pending.insert(self.next_id, kind),
                None => self.pending,
            },
        }
    }

    /// Whether a snapshot is on its way.
    pub open spec fn is_fetching(self) -> bool {
        exists|id: u64| #[trigger]
            self.pending.dom().contains(id) && self.pending[id] == Pending::Snapshot
    }
}

/// The expectations other than those under an id.
spec fn others(rows: Seq<(u64, Pending)>, id: u64) -> Seq<(u64, Pending)>
    decreases rows.len(),
{
    if rows.len() == 0 {
        seq![]
    } else if rows.last().0 == id {
        others(rows.drop_last(), id)
    } else {
        others(rows.drop_last(), id).push(rows.last())
    }
}

proof fn lemma_others(rows: Seq<(u64, Pending)>, id: u64)
    ensures
        expectations(others(rows, id)) == expectations(rows).remove(id),
    decreases rows.len(),
{
    if rows.len() == 0 {
        assert(expectations(rows).remove(id) =~= Map::empty());
    } else {
        let front = rows.drop_last();
        lemma_others(front, id);
        if rows.last().0 == id {
            assert(expectations(rows).remove(id) =~= expectations(front).remove(id));
        } else {
            let kept = others(front, id);
            assert(kept.push(rows.last()).drop_last() =~= kept);
            assert(expectations(rows).remove(id) =~= expectations(front).remove(id).insert(
                rows.last().0,
                rows.last().1,
            ));
        }
    }
}

impl Connection {
    fn envelope(&mut self, request: Request, expected: Option<Pending>) -> (r: RequestEnvelope)
        requires
            old(self).next_id < u64::MAX,
        ensures
            r.v == PROTOCOL_VERSION,
            r.id == old(self).next_id,
            r.request == request,
            final(self)@ == old(self)@.sending(expected),
    {
        let id: u64 = self.next_id;
        if let Some(kind) = expected {
            let ghost before = self.pending@;
            self.pending.push((id, kind));
            assert(self.pending@.drop_last() =~= before);
        }
        self.next_id = id + 1;
        RequestEnvelope { v: PROTOCOL_VERSION, id, request }
    }

    /// Start a connection: subscribe, then fetch the state.
    pub fn open() -> (r: (Self, RequestEnvelope, RequestEnvelope))
        ensures
            r.0@ == (ConnectionView {
                next_id: 3,
                pending: Map::empty().insert(2u64, Pending::Snapshot),
            }),
            r.1.v == PROTOCOL_VERSION && r.1.id == 1,
            r.1.request@ == (RequestView::Subscribe {
                topics: Some(seq!["projects"@, "daemon"@, "windows"@]),
            }),
            r.2.v == PROTOCOL_VERSION && r.2.id == 2,
            r.2.request@ == RequestView::StateSnapshot,
    {
        let mut connection = Connection { next_id: 1, pending: Vec::new() };
        assert(connection@.pending =~= Map::empty());
        let mut topics: Vec<String> = Vec::new();
        topics.push("projects".to_owned());
        topics.push("daemon".to_owned());
        topics.push("windows".to_owned());
        assert(topics.deep_view() =~= seq!["projects"@, "daemon"@, "windows"@]);
        let subscribe = connection.envelope(Request::Subscribe { topics: Some(topics) }, None);
        let fetch = connection.envelope(Request::StateSnapshot, Some(Pending::Snapshot));
        (connection, subscribe, fetch)
    }

    /// A message of the UI came: what to send for it.
    pub fn on_ui(&mut self, request: UiRequest) -> (r: RequestEnvelope)
        requires
            old(self).next_id < u64::MAX,
        ensures
            r.v == PROTOCOL_VERSION,
            r.id == old(self).next_id,
            r.request == request_for(request),
            final(self)@ == old(self)@.sending(expected_for(request)),
    {
        match request {
            UiRequest::Switch(slug) => self.envelope(
                Request::ProjectSwitch { project: slug },
                None,
            ),
            UiRequest::Create(name) => self.envelope(
                Request::ProjectCreate { name, slug: None },
                None,
            ),
            UiRequest::Rename { slug, name } => self.envelope(
                Request::ProjectRename { slug, name },
                None,
            ),
            UiRequest::Delete(slug) => self.envelope(Request::ProjectDelete { slug }, None),
            UiRequest::Save(slug) => self.envelope(
                Request::ProjectSave { project: Some(slug) },
                None,
            ),
            UiRequest::Restore(slug) => self.envelope(
                Request::ProjectRestore { project: Some(slug), dry_run: false },
                None,
            ),
            UiRequest::Close(slug) => self.envelope(
                Request::ProjectClose { project: Some(slug) },
                None,
            ),
            UiRequest::Reorder(order) => self.envelope(Request::ProjectReorder { order }, None),
            UiRequest::Get(slug) => self.envelope(
                Request::ProjectGet { project: slug },
                Some(Pending::Details),
            ),
            UiRequest::Capture(slug) => self.envelope(
                Request::ProjectCapture { project: Some(slug) },
                Some(Pending::Capture),
            ),
            UiRequest::UpdateSlot { slug, slot_id, command, workdir, profile } => self.envelope(
                Request::SlotUpdate {
                    project: slug,
                    slot_id,
                    command: Some(command),
                    workdir: Some(workdir),
                    profile,
                },
                None,
            ),
        }
    }

    /// A response came: what the UI expects of it, if anything. It is
    /// expected no more.
    pub fn on_response(&mut self, id: u64) -> (r: Option<Pending>)
        ensures
            r == (if old(self)@.pending.dom().contains(id) {
                Some(old(self)@.pending[id])
            } else {
                None
            }),
            final(self)@ == (ConnectionView {
                pending: old(self)@.pending.remove(id),
                ..old(self)@
            }),
    {
        let ghost rows = self.pending@;
        let mut kept: Vec<(u64, Pending)> = Vec::new();
        let mut found: Option<Pending> = None;
        let mut i: usize = 0;
        assert(rows.take(0) =~= seq![]);
        while i < self.pending.len()
            invariant
                i <= self.pending.len(),
                rows == self.pending@,
                self.next_id == old(self).next_id,
                self.pending@ == old(self).pending@,
                kept@ == others(rows.take(i as int), id),
                found == (if expectations(rows.take(i as int)).dom().contains(id) {
                    Some(expectations(rows.take(i as int))[id])
                } else {
                    None
                }),
            decreases self.pending.len() - i,
        {
            assert(rows.take(i + 1).drop_last() =~= rows.take(i as int));
            let (other, kind) = self.pending[i];
            if other == id {
                found = Some(kind);
            } else {
                kept.push((other, kind));
            }
            i = i + 1;
        }
        assert(rows.take(i as int) =~= rows);
        proof {
            lemma_others(rows, id);
        }
        self.pending = kept;
        found
    }

    /// An event came: the state is fetched again unless the event is noise or
    /// a fetch is already in flight.
    pub fn on_event(&mut self, event: &DomainEvent) -> (r: Option<RequestEnvelope>)
        requires
            old(self).next_id < u64::MAX,
        ensures
            if is_noisy(event@) || old(self)@.is_fetching() {
                r is None && final(self)@ == old(self)@
            } else {
                r matches Some(envelope) && envelope.v == PROTOCOL_VERSION && envelope.id
                    == old(self).next_id && envelope.request@ == RequestView::StateSnapshot
                    && final(self)@ == old(self)@.sending(Some(Pending::Snapshot))
            },
    {
        let noisy = match event {
            DomainEvent::WindowTitleChanged { .. } => true,
            DomainEvent::WindowFocused { .. } => true,
            _ => false,
        };
        if noisy || self.fetching() {
            return None;
        }
        Some(self.envelope(Request::StateSnapshot, Some(Pending::Snapshot)))
    }

    fn fetching(&self) -> (r: bool)
        ensures
            r == self@.is_fetching(),
    {
        let ghost rows = self.pending@;
        let mut i: usize = self.pending.len();
        while i > 0
            invariant
                i <= self.pending.len(),
                rows == self.pending@,
                forall|k: int|
                    i <= k < rows.len() ==> newest_at(rows, k) ==> (#[trigger] rows[k]).1
                        != Pending::Snapshot,
            decreases i,
        {
            let (id, kind) = self.pending[i - 1];
            if kind == Pending::Snapshot && self.is_newest(i - 1) {
                proof {
                    lemma_newest_at(rows, i - 1);
                    assert(self@.pending.dom().contains(id));
                }
                return true;
            }
            i = i - 1;
        }
        proof {
            if self@.is_fetching() {
                let id = choose|id: u64| #[trigger]
                    self@.pending.dom().contains(id) && self@.pending[id] == Pending::Snapshot;
                lemma_has_newest(rows, id);
                let k = choose|k: int|
                    0 <= k < rows.len() && (#[trigger] rows[k]).0 == id && newest_at(rows, k);
                lemma_newest_at(rows, k);
            }
        }
        false
    }

    fn is_newest(&self, at: usize) -> (r: bool)
        requires
            at < self.pending.len(),
        ensures
            r == newest_at(self.pending@, at as int),
    {
        let mut k: usize = at + 1;
        while k < self.pending.len()
            invariant
                at < k <= self.pending.len(),
                forall|m: int| at < m < k ==> (#[trigger] self.pending@[m]).0
                    != self.pending@[at as int].0,
            decreases self.pending.len() - k,
        {
            if self.pending[k].0 == self.pending[at].0 {
                return false;
            }
            k = k + 1;
        }
        true
    }
}

/// Whether no later row has the id of a row.
spec fn newest_at(rows: Seq<(u64, Pending)>, at: int) -> bool {
    forall|m: int| at < m < rows.len() ==> (#[trigger] rows[m]).0 != rows[at].0
}

proof fn lemma_newest_at(rows: Seq<(u64, Pending)>, at: int)
    requires
        0 <= at < rows.len(),
        newest_at(rows, at),
    ensures
        expectations(rows).dom().contains(rows[at].0),
        expectations(rows)[rows[at].0] == rows[at].1,
    decreases rows.len(),
{
    if at < rows.len() - 1 {
        let front = rows.drop_last();
        assert(rows[rows.len() - 1].0 != rows[at].0);
        assert forall|m: int| at < m < front.len() implies (#[trigger] front[m]).0
            != front[at].0 by {
            assert(rows[m].0 != rows[at].0);
        }
        lemma_newest_at(front, at);
    }
}

proof fn lemma_has_newest(rows: Seq<(u64, Pending)>, id: u64)
    requires
        expectations(rows).dom().contains(id),
    ensures
        exists|k: int| 0 <= k < rows.len() && (#[trigger] rows[k]).0 == id && newest_at(rows, k),
    decreases rows.len(),
{
    let front = rows.drop_last();
    if rows.last().0 == id {
        assert(rows[rows.len() - 1].0 == id && newest_at(rows, rows.len() - 1));
    } else {
        lemma_has_newest(front, id);
        let k = choose|k: int|
            0 <= k < front.len() && (#[trigger] front[k]).0 == id && newest_at(front, k);
        assert(rows[k] == front[k]);
        assert forall|m: int| k < m < rows.len() implies (#[trigger] rows[m]).0 != rows[k].0 by {
            if m < front.len() {
                assert(front[m].0 != front[k].0);
            }
        }
        assert(newest_at(rows, k));
    }
}

/// The updates for a fetched state: the newer release first, then the
/// projects.
pub fn snapshot_updates(snapshot: Snapshot) -> (r: (UiUpdate, UiUpdate))
    ensures
        r.0 == UiUpdate::UpdateAvailable(snapshot.update_available),
        r.1 == UiUpdate::Projects(snapshot.projects),
{
    (
        UiUpdate::UpdateAvailable(snapshot.update_available),
        UiUpdate::Projects(snapshot.projects),
    )
}

// ---- laws ---------------------------------------------------------------------------------

/// Every request that is expected to be answered has an id below the next.
pub open spec fn ids_are_past(connection: ConnectionView) -> bool {
    forall|id: u64| #[trigger]
        connection.pending.dom().contains(id) ==> id < connection.next_id
}

/// At most one snapshot is on its way.
pub open spec fn fetches_once(connection: ConnectionView) -> bool {
    forall|a: u64, b: u64|
        #![trigger connection.pending.dom().contains(a), connection.pending.dom().contains(b)]
        connection.pending.dom().contains(a) && connection.pending.dom().contains(b)
            && connection.pending[a] == Pending::Snapshot && connection.pending[b]
            == Pending::Snapshot ==> a == b
}

/// Ids are never used twice, and at most one snapshot is ever on its way:
/// this holds from the start and whatever is sent or comes back.
pub proof fn law_requests_are_told_apart(
    connection: ConnectionView,
    expected: Option<Pending>,
    id: u64,
)
    requires
        ids_are_past(connection),
        fetches_once(connection),
        connection.next_id < u64::MAX,
        expected == Some(Pending::Snapshot) ==> !connection.is_fetching(),
    ensures
        ids_are_past(connection.sending(expected)),
        fetches_once(connection.sending(expected)),
        !connection.pending.dom().contains(connection.next_id),
        ids_are_past(ConnectionView { pending: connection.pending.remove(id), ..connection }),
        fetches_once(ConnectionView { pending: connection.pending.remove(id), ..connection }),
{
    let after = connection.sending(expected);
    assert forall|a: u64, b: u64|
        #![trigger after.pending.dom().contains(a), after.pending.dom().contains(b)]
        after.pending.dom().contains(a) && after.pending.dom().contains(b) && after.pending[a]
            == Pending::Snapshot && after.pending[b] == Pending::Snapshot implies a == b by {
        if a != connection.next_id {
            assert(connection.pending.dom().contains(a));
        }
        if b != connection.next_id {
            assert(connection.pending.dom().contains(b));
        }
    }
}

/// A fresh connection keeps its requests apart.
pub proof fn law_fresh_connection_is_told_apart()
    ensures
        ({
            let fresh = ConnectionView {
                next_id: 3,
                pending: Map::empty().insert(2u64, Pending::Snapshot),
            };
            ids_are_past(fresh) && fetches_once(fresh)
        }),
{
}

/// Every message of the UI asks the daemon for what it says, of the project that
/// it names.
pub proof fn law_messages_become_their_requests(request: UiRequest)
    ensures
        request matches UiRequest::Switch(slug) ==> request_for(request)@ == (
        RequestView::ProjectSwitch { project: slug@ }),
        request matches UiRequest::Create(name) ==> request_for(request)@ == (
        RequestView::ProjectCreate { name: name@, slug: None }),
        request matches UiRequest::Rename { slug, name } ==> request_for(request)@ == (
        RequestView::ProjectRename { slug: slug@, name: name@ }),
        request matches UiRequest::Delete(slug) ==> request_for(request)@ == (
        RequestView::ProjectDelete { slug: slug@ }),
        request matches UiRequest::Save(slug) ==> request_for(request)@ == (
        RequestView::ProjectSave { project: Some(slug@) }),
        request matches UiRequest::Restore(slug) ==> request_for(request)@ == (
        RequestView::ProjectRestore { project: Some(slug@), dry_run: false }),
        request matches UiRequest::Close(slug) ==> request_for(request)@ == (
        RequestView::ProjectClose { project: Some(slug@) }),
        request matches UiRequest::Reorder(order) ==> request_for(request)@ == (
        RequestView::ProjectReorder { order: order.deep_view() }),
        request matches UiRequest::Get(slug) ==> request_for(request)@ == (
        RequestView::ProjectGet { project: slug@ }),
        request matches UiRequest::Capture(slug) ==> request_for(request)@ == (
        RequestView::ProjectCapture { project: Some(slug@) }),
        request matches UiRequest::UpdateSlot { slug, slot_id, command, workdir, profile }
            ==> request_for(request)@ == (RequestView::SlotUpdate {
            project: slug@,
            slot_id: slot_id@,
            command: Some(command@),
            workdir: Some(workdir@),
            profile: profile.deep_view(),
        }),
{
}

/// A request that is sent goes under the next id; what is expected back is
/// remembered under it, and all that was expected before still is.
pub proof fn law_expectations_are_remembered(
    connection: ConnectionView,
    expected: Option<Pending>,
    id: u64,
)
    requires
        connection.next_id < u64::MAX,
    ensures
        connection.sending(expected).next_id == connection.next_id + 1,
        expected matches Some(kind) ==> connection.sending(expected).pending.dom().contains(
            connection.next_id,
        ) && connection.sending(expected).pending[connection.next_id] == kind,
        id != connection.next_id || expected is None ==> (connection.sending(
            expected,
        ).pending.dom().contains(id) <==> connection.pending.dom().contains(id))
            && connection.sending(expected).pending[id] == connection.pending[id],
{
}

/// Details and captured settings come back to who asked for them; the other
/// messages expect nothing back. Titles and the focus change nothing on screen.
pub proof fn law_only_questions_expect_answers(request: UiRequest, event: DomainEventView)
    ensures
        request is Get ==> expected_for(request) == Some(Pending::Details),
        request is Capture ==> expected_for(request) == Some(Pending::Capture),
        !(request is Get) && !(request is Capture) ==> expected_for(request) is None,
        is_noisy(event) <==> event is WindowTitleChanged || event is WindowFocused,
{
}

} // verus!
