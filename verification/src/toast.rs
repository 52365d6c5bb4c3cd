//! Short-lived notices shown in the corner of the window.
//!
//! Moments are whole milliseconds since the Unix epoch, as the system clock
//! gives them; spans are whole milliseconds.

use vstd::prelude::*;

use crate::clock::now_millis;

verus! {

/// What a notice is about.
#[derive(Debug, Clone, Copy, PartialEq, Eq, Structural)]
pub enum ToastKind {
    Info,
    Success,
    Warning,
    Error,
}

/// The colour of notices of `kind`, as red, green and blue.
pub open spec fn kind_rgb(kind: ToastKind) -> (u8, u8, u8) {
    match kind {
        ToastKind::Info => (120, 170, 240),
        ToastKind::Success => (100, 200, 120),
        ToastKind::Warning => (230, 180, 60),
        ToastKind::Error => (220, 90, 90),
    }
}

impl ToastKind {
    /// The colour of notices of this kind, as red, green and blue.
    pub fn color(self) -> (res: (u8, u8, u8))
        ensures
            res == kind_rgb(self),
    {
        match self {
            ToastKind::Info => (120, 170, 240),
            ToastKind::Success => (100, 200, 120),
            ToastKind::Warning => (230, 180, 60),
            ToastKind::Error => (220, 90, 90),
        }
    }
}

/// How many seconds a notice of `kind` stays: 3 for information, 4 for a
/// success, 5 for a warning and 7 for an error.
pub open spec fn toast_secs(kind: ToastKind) -> u64 {
    match kind {
        ToastKind::Info => 3,
        ToastKind::Success => 4,
        ToastKind::Warning => 5,
        ToastKind::Error => 7,
    }
}

/// A notice.
pub struct Toast {
    pub kind: ToastKind,
    pub message: String,
    /// When it was made, in milliseconds since the Unix epoch.
    pub created: u64,
    /// How long it stays, in milliseconds.
    pub duration: u64,
}

/// The moment a notice goes away: its creation plus its span.
pub open spec fn expiry(t: Toast) -> int {
    t.created + t.duration
}

/// The notice's end can be written as a moment.
pub open spec fn expiry_fits(t: Toast) -> bool {
    expiry(t) <= u64::MAX
}

/// The notice is still shown at `now`: it goes away after `now`.
pub open spec fn is_live(t: Toast, now: u64) -> bool {
    expiry(t) > now
}

/// How long the notice has been shown at `now` (0 before it was made).
pub open spec fn age_at_spec(t: Toast, now: u64) -> int {
    if now >= t.created { now - t.created } else { 0 }
}

impl Toast {
    /// A notice of `kind` saying `message`, made at `created`, lasting as
    /// long as notices of its kind do.
    pub fn created_at(kind: ToastKind, message: String, created: u64) -> (res: Self)
        ensures
            res.kind == kind,
            res.message@ == message@,
            res.created == created,
            res.duration == toast_secs(kind) * 1000,
    {
        let secs: u64 = match kind {
            ToastKind::Info => 3,
            ToastKind::Success => 4,
            ToastKind::Warning => 5,
            ToastKind::Error => 7,
        };
        Toast { kind, message, created, duration: secs * 1000 }
    }

    /// A notice of `kind` saying `message`, made now.
    pub fn new(kind: ToastKind, message: String) -> (res: Self)
        ensures
            res.kind == kind,
            res.message@ == message@,
            res.duration == toast_secs(kind) * 1000,
    {
        Toast::created_at(kind, message, now_millis())
    }

    /// When the notice goes away: its creation plus its span.
    pub fn expires_at(&self) -> (res: u64)
        requires
            expiry_fits(*self),
        ensures
            res == expiry(*self),
    {
        self.created + self.duration
    }

    /// How long the notice has been shown at `now` (0 if `now` is before
    /// it was made).
    pub fn age_at(&self, now: u64) -> (res: u64)
        ensures
            res == age_at_spec(*self, now),
    {
        if now >= self.created { now - self.created } else { 0 }
    }

    /// How long the notice has been shown, by the clock now.
    pub fn age(&self) -> (res: u64)
        ensures
            exists|now: u64| res == age_at_spec(*self, now),
    {
        self.age_at(now_millis())
    }
}

/// The notices on show, oldest first.
pub struct ToastQueue {
    pub items: Vec<Toast>,
    pub max_visible: usize,
}

/// The queue keeps at most this many notices.
pub open spec fn queue_cap() -> int {
    32
}

/// The notices after `t` is added to `items`: `t` last, and the oldest
/// dropped once there are more than 32.
pub open spec fn pushed(items: Seq<Toast>, t: Toast) -> Seq<Toast> {
    let s = items.push(t);
    if s.len() > queue_cap() {
        s.drop_first()
    } else {
        s
    }
}

/// The notices still shown at `now`, in order.
pub open spec fn live_at(items: Seq<Toast>, now: u64) -> Seq<Toast> {
    items.filter(|t: Toast| is_live(t, now))
}

impl ToastQueue {
    /// An empty queue that shows at most 5 notices at once.
    pub fn new() -> (res: Self)
        ensures
            res.items@.len() == 0,
            res.max_visible == 5,
    {
        ToastQueue { items: Vec::new(), max_visible: 5 }
    }

    /// Adds a notice made now; the oldest goes once there are more than 32.
    pub fn push(&mut self, kind: ToastKind, message: String)
        ensures
            final(self).items@.len() == pushed(old(self).items@, final(self).items@.last()).len(),
            final(self).items@ == pushed(old(self).items@, final(self).items@.last()),
            final(self).items@.last().kind == kind,
            final(self).items@.last().message@ == message@,
            final(self).items@.last().duration == toast_secs(kind) * 1000,
            final(self).max_visible == old(self).max_visible,
    {
        let t = Toast::new(kind, message);
        self.add(t);
    }

    /// Adds `t`; the oldest notice goes once there are more than 32.
    pub fn add(&mut self, t: Toast)
        ensures
            final(self).items@ == pushed(old(self).items@, t),
            final(self).max_visible == old(self).max_visible,
    {
        self.items.push(t);
        if self.items.len() > 32 {
            self.items.remove(0);
        }
    }

    pub fn info(&mut self, m: String)
        ensures
            final(self).items@ == pushed(old(self).items@, final(self).items@.last()),
            final(self).items@.last().kind == ToastKind::Info,
            final(self).items@.last().message@ == m@,
            final(self).max_visible == old(self).max_visible,
    {
        self.push(ToastKind::Info, m);
    }

    pub fn success(&mut self, m: String)
        ensures
            final(self).items@ == pushed(old(self).items@, final(self).items@.last()),
            final(self).items@.last().kind == ToastKind::Success,
            final(self).items@.last().message@ == m@,
            final(self).max_visible == old(self).max_visible,
    {
        self.push(ToastKind::Success, m);
    }

    pub fn warn(&mut self, m: String)
        ensures
            final(self).items@ == pushed(old(self).items@, final(self).items@.last()),
            final(self).items@.last().kind == ToastKind::Warning,
            final(self).items@.last().message@ == m@,
            final(self).max_visible == old(self).max_visible,
    {
        self.push(ToastKind::Warning, m);
    }

    pub fn error(&mut self, m: String)
        ensures
            final(self).items@ == pushed(old(self).items@, final(self).items@.last()),
            final(self).items@.last().kind == ToastKind::Error,
            final(self).items@.last().message@ == m@,
            final(self).max_visible == old(self).max_visible,
    {
        self.push(ToastKind::Error, m);
    }

    /// Drops the notices whose time is up at `now`: exactly those that do
    /// not go away after `now`, the rest kept in order.
    pub fn tick_at(&mut self, now: u64)
        requires
            forall|i: int| 0 <= i < old(self).items@.len() ==> expiry_fits(#[trigger] old(self).items@[i]),
        ensures
            final(self).items@ == live_at(old(self).items@, now),
            final(self).max_visible == old(self).max_visible,
    {
        let mut rest: Vec<Toast> = Vec::new();
        std::mem::swap(&mut rest, &mut self.items);
        let ghost all = rest@;
        let mut rev: Vec<Toast> = Vec::new();
        while rest.len() > 0
            invariant
                rest@.len() + rev@.len() == all.len(),
                forall|k: int| 0 <= k < rest@.len() ==> rest@[k] == all[k],
                forall|k: int| 0 <= k < rev@.len() ==> rev@[k] == all[all.len() - 1 - k],
            decreases rest@.len(),
        {
            let t = rest.pop().unwrap();
            rev.push(t);
        }
        let mut kept: Vec<Toast> = Vec::new();
        let mut j: usize = rev.len();
        while j > 0
            invariant
                j == rev@.len(),
                j <= all.len(),
                forall|i: int| 0 <= i < all.len() ==> expiry_fits(#[trigger] all[i]),
                forall|k: int| 0 <= k < rev@.len() ==> rev@[k] == all[all.len() - 1 - k],
                kept@ == live_at(all.take(all.len() - j), now),
            decreases j,
        {
            let t = rev.pop().unwrap();
            j = j - 1;
            let ghost prev = all.take(all.len() - (j + 1));
            assert(all.take(all.len() - j) =~= prev.push(t));
            proof {
                prev.lemma_filter_push(t, |t: Toast| is_live(t, now));
            }
            assert(expiry_fits(all[all.len() - 1 - j]));
            if t.expires_at() > now {
                kept.push(t);
            }
        }
        assert(all.take(all.len() as int) =~= all);
        self.items = kept;
    }

    /// Drops the notices whose time is up by the clock now. Which those are
    /// depends on the clock reading; for that reading it is as `tick_at`.
    pub fn tick(&mut self)
        requires
            forall|i: int| 0 <= i < old(self).items@.len() ==> expiry_fits(#[trigger] old(self).items@[i]),
        ensures
            exists|now: u64| final(self).items@ == live_at(old(self).items@, now),
            final(self).max_visible == old(self).max_visible,
    {
        let now = now_millis();
        self.tick_at(now);
    }

    pub fn is_empty(&self) -> (res: bool)
        ensures
            res == (self.items@.len() == 0),
    {
        self.items.len() == 0
    }
}


/// The queue never holds more than 32 notices, and the notice added last
/// is the newest one on show.
pub proof fn law_queue_bounded(items: Seq<Toast>, t: Toast)
    requires
        items.len() <= queue_cap(),
    ensures
        pushed(items, t).len() <= queue_cap(),
        pushed(items, t).len() > 0,
        pushed(items, t).last() == t,
{
}

} // verus!
