//! Debounced autosave: the runtime snapshot is written after things quiet
//! down, or at a maximum interval while events keep arriving.

use vstd::prelude::*;

use crate::domain::config::Autosave;
use crate::domain::events::DomainEvent;
use crate::domain::events::DomainEventView;

verus! {

/// Whether an event changes what is saved.
pub open spec fn is_relevant(event: DomainEventView) -> bool {
    !(event is HyprConnection || event is ShuttingDown)
}

/// Whether an event changes what is saved.
pub fn relevant(event: &DomainEvent) -> (r: bool)
    ensures
        r == is_relevant(event@),
{
    match event {
        DomainEvent::HyprConnection { .. } => false,
        DomainEvent::ShuttingDown => false,
        _ => true,
    }
}

/// When the next save is due. All times in milliseconds.
#[derive(Debug, Clone, Copy, PartialEq, Eq, Structural)]
pub struct SaveTimer {
    /// When the first unsaved change came, if there is one.
    pub dirty_since: Option<u64>,
    /// When to save, if there is something to save.
    pub deadline: Option<u128>,
}

/// The earlier of two times.
pub open spec fn earlier(a: int, b: int) -> int {
    if a <= b {
        a
    } else {
        b
    }
}

/// The timer after an event at `now`: debounced, but never postponed past the
/// maximum interval after the first unsaved change.
pub open spec fn after_event(
    timer: SaveTimer,
    settings: Autosave,
    event: DomainEventView,
    now: u64,
) -> SaveTimer {
    if !settings.enabled || !is_relevant(event) {
        timer
    } else {
        let first = match timer.dirty_since {
            Some(first) => first,
            None => now,
        };
        SaveTimer {
            dirty_since: Some(first),
            deadline: Some(
                earlier(
                    now + settings.debounce_ms,
                    first + settings.interval_s * 1000,
                ) as u128,
            ),
        }
    }
}

impl SaveTimer {
    /// Nothing to save.
    pub fn idle() -> (r: Self)
        ensures
            r == (SaveTimer { dirty_since: None, deadline: None }),
    {
        SaveTimer { dirty_since: None, deadline: None }
    }

    /// An event came at `now`.
    pub fn on_event(&mut self, settings: &Autosave, event: &DomainEvent, now: u64)
        ensures
            *final(self) == after_event(*old(self), *settings, event@, now),
    {
        if !settings.enabled || !relevant(event) {
            return ;
        }
        let first: u64 = match self.dirty_since {
            Some(first) => first,
            None => now,
        };
        let quiet: u128 = now as u128 + settings.debounce_ms as u128;
        let latest: u128 = first as u128 + settings.interval_s as u128 * 1000;
        self.dirty_since = Some(first);
        self.deadline = Some(
            if quiet <= latest {
                quiet
            } else {
                latest
            },
        );
    }

    /// The deadline has passed and the snapshot is being saved.
    pub fn on_saved(&mut self)
        ensures
            *final(self) == (SaveTimer { dirty_since: None, deadline: None }),
    {
        self.dirty_since = None;
        self.deadline = None;
    }

    /// Whether a save is due at `now`.
    pub fn is_due(&self, now: u64) -> (r: bool)
        ensures
            r == (self.deadline matches Some(deadline) && deadline <= now),
    {
        match self.deadline {
            Some(deadline) => deadline <= now as u128,
            None => false,
        }
    }
}

/// However long events keep arriving, a save is never postponed past the
/// maximum interval after the first unsaved change, nor past the debounce time
/// after the last.
pub proof fn law_saves_are_never_starved(
    timer: SaveTimer,
    settings: Autosave,
    event: DomainEventView,
    now: u64,
)
    requires
        settings.enabled,
        is_relevant(event),
    ensures
        ({
            let after = after_event(timer, settings, event, now);
            &&& after.dirty_since is Some
            &&& timer.dirty_since is Some ==> after.dirty_since == timer.dirty_since
            &&& after.deadline matches Some(deadline) && deadline <= after.dirty_since->0
                + settings.interval_s * 1000 && deadline <= now + settings.debounce_ms
        }),
{
}

/// An event that changes what is saved puts the save off until things have been
/// quiet for the debounce time, at most until the interval has passed since the
/// first unsaved change; with autosave off, or for any other event, the timer
/// stays as it is. Only the connection and the end change nothing that is saved.
pub proof fn law_saves_wait_for_quiet(
    timer: SaveTimer,
    settings: Autosave,
    event: DomainEventView,
    now: u64,
)
    ensures
        ({
            let after = after_event(timer, settings, event, now);
            let idle = !settings.enabled || event is HyprConnection || event is ShuttingDown;
            &&& idle ==> after == timer
            &&& !idle && timer.dirty_since is None ==> after.dirty_since == Some(now)
            &&& !idle && timer.dirty_since is Some ==> after.dirty_since == timer.dirty_since
            &&& !idle ==> after.deadline is Some && (after.deadline->0 == now
                + settings.debounce_ms || after.deadline->0 == after.dirty_since->0
                + settings.interval_s * 1000)
        }),
{
}

} // verus!
