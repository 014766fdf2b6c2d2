//! The session registry.
//!
//! The registry tracks the concurrently active sessions. Each is recorded
//! as a `SessionHandle`: the session identifier, the relay messages its
//! worker produced and the consumer has not drained yet, and the
//! accumulated output text. The consumer polls one session per call and
//! never blocks; sessions are fully independent of one another. A handle
//! is removed once its end-of-session marker has been observed and
//! drained, or when the consumer closes the session.

use vstd::prelude::*;
use vstd::string::StringExecFns;
use crate::errors::SessionError;
use crate::relay::RelayMessage;
use crate::relay::RelayMessageView;
use crate::relay::message_views;
use crate::relay::delivered_text;
use crate::relay::has_end_marker;
use crate::relay::lemma_delivered_text_push;

verus! {

/// The registry-side record of one active session.
pub struct SessionHandle {
    pub id: u64,
    pub pending: Vec<RelayMessage>,
    pub buffer: String,
}

/// The first position holding a session with this identifier.
pub open spec fn spec_find(s: Seq<SessionHandle>, id: u64) -> Option<int>
    decreases s.len(),
{
    if s.len() == 0 {
        Option::None
    } else if s[0].id == id {
        Option::Some(0int)
    } else {
        match spec_find(s.drop_first(), id) {
            Option::Some(i) => Option::Some(i + 1),
            Option::None => Option::None,
        }
    }
}

proof fn lemma_find_some(s: Seq<SessionHandle>, id: u64)
    requires
        spec_find(s, id) is Some,
    ensures
        ({
            let i = spec_find(s, id)->0;
            &&& 0 <= i < s.len()
            &&& s[i].id == id
            &&& forall|j: int| 0 <= j < i ==> s[j].id != id
        }),
    decreases s.len(),
{
    if s.len() == 0 {
    } else if s[0].id == id {
    } else {
        lemma_find_some(s.drop_first(), id);
        let i = spec_find(s, id)->0;
        assert(s.drop_first()[i - 1] == s[i]);
        assert forall|j: int| 0 <= j < i implies s[j].id != id by {
            if j > 0 {
                assert(s.drop_first()[j - 1] == s[j]);
                assert(s.drop_first()[j - 1].id != id);
            }
        }
    }
}

proof fn lemma_find_at(s: Seq<SessionHandle>, id: u64, k: int)
    requires
        0 <= k < s.len(),
        s[k].id == id,
        forall|j: int| 0 <= j < k ==> s[j].id != id,
    ensures
        spec_find(s, id) == Option::Some(k),
    decreases s.len(),
{
    if k == 0 {
    } else {
        assert(s[0].id != id);
        assert(forall|j: int| 0 <= j < s.len() - 1 ==> s.drop_first()[j] == s[j + 1]);
        lemma_find_at(s.drop_first(), id, k - 1);
    }
}

proof fn lemma_find_none(s: Seq<SessionHandle>, id: u64)
    requires
        forall|j: int| 0 <= j < s.len() ==> s[j].id != id,
    ensures
        spec_find(s, id) is None,
    decreases s.len(),
{
    if s.len() == 0 {
    } else {
        assert(forall|j: int| 0 <= j < s.len() - 1 ==> s.drop_first()[j] == s[j + 1]);
        lemma_find_none(s.drop_first(), id);
    }
}

/// Tracks zero or more concurrently active sessions, each under a fresh
/// identifier.
pub struct SessionRegistry {
    pub next_id: u64,
    pub sessions: Vec<SessionHandle>,
}

impl SessionRegistry {
    /// Well-formed: identifiers are unique, and below the next fresh one.
    pub open spec fn wf(&self) -> bool {
        &&& forall|i: int, j: int|
            0 <= i < j < self.sessions@.len() ==> self.sessions@[i].id != self.sessions@[j].id
        &&& forall|i: int| 0 <= i < self.sessions@.len() ==> self.sessions@[i].id < self.next_id
    }

    /// True when a session with this identifier is registered.
    pub open spec fn has_session(&self, id: u64) -> bool {
        spec_find(self.sessions@, id) is Some
    }

    /// The position of the session with this identifier.
    pub open spec fn index_of(&self, id: u64) -> int {
        spec_find(self.sessions@, id)->0
    }

    /// The handle of the session with this identifier.
    pub open spec fn handle_of(&self, id: u64) -> SessionHandle {
        self.sessions@[self.index_of(id)]
    }

    /// The undrained messages of the session with this identifier.
    pub open spec fn pending_of(&self, id: u64) -> Seq<RelayMessageView> {
        message_views(self.handle_of(id).pending@)
    }

    /// The accumulated output of the session with this identifier.
    pub open spec fn buffer_of(&self, id: u64) -> Seq<char> {
        self.handle_of(id).buffer@
    }

    /// An empty registry.
    pub fn new() -> (r: SessionRegistry)
        ensures
            r.wf(),
            r.next_id == 0,
            r.sessions@.len() == 0,
            forall|id: u64| !r.has_session(id),
    {
        let r = SessionRegistry { next_id: 0, sessions: Vec::new() };
        proof {
            assert(forall|id: u64| spec_find(r.sessions@, id) is None);
        }
        r
    }

    /// The number of active sessions.
    pub fn session_count(&self) -> (r: usize)
        ensures
            r == self.sessions@.len(),
    {
        self.sessions.len()
    }

    fn find_session(&self, id: u64) -> (r: Option<usize>)
        ensures
            match r {
                Option::Some(k) => k < self.sessions@.len() && self.sessions@[k as int].id == id
                    && spec_find(self.sessions@, id) == Option::Some(k as int),
                Option::None => spec_find(self.sessions@, id) is None,
            },
    {
        let n = self.sessions.len();
        let mut k: usize = 0;
        while k < n
            invariant
                0 <= k <= n,
                n == self.sessions@.len(),
                forall|j: int| 0 <= j < k ==> self.sessions@[j].id != id,
            decreases n - k,
        {
            if self.sessions[k].id == id {
                proof {
                    lemma_find_at(self.sessions@, id, k as int);
                }
                return Some(k);
            }
            k += 1;
        }
        proof {
            lemma_find_none(self.sessions@, id);
        }
        None
    }

    /// The accumulated output text of a session, when it is registered.
    pub fn output_of(&self, id: u64) -> (r: Option<String>)
        ensures
            match r {
                Option::Some(text) => self.has_session(id) && text@ == self.buffer_of(id),
                Option::None => !self.has_session(id),
            },
    {
        match self.find_session(id) {
            Some(k) => Some(self.sessions[k].buffer.clone()),
            None => None,
        }
    }

    /// True when a session with this identifier is registered.
    pub fn is_registered(&self, id: u64) -> (r: bool)
        ensures
            r == self.has_session(id),
    {
        self.find_session(id).is_some()
    }

    /// Completes a `spawn`: the caller performed connection establishment
    /// and shell startup synchronously and reports the outcome. On success
    /// a handle with an empty queue and empty output is registered under a
    /// fresh identifier, which is returned. On failure the error is passed
    /// through and nothing is registered: a failed spawn never registers a
    /// session.
    pub fn complete_spawn(&mut self, outcome: Result<(), SessionError>) -> (r: Result<
        u64,
        SessionError,
    >)
        requires
            old(self).wf(),
            old(self).next_id < u64::MAX,
        ensures
            final(self).wf(),
            outcome matches Err(e) ==> r == Result::<u64, SessionError>::Err(e) && *final(self)
                == *old(self),
            outcome is Ok ==> ({
                &&& r == Result::<u64, SessionError>::Ok(old(self).next_id)
                &&& final(self).next_id == old(self).next_id + 1
                &&& final(self).sessions@.len() == old(self).sessions@.len() + 1
                &&& forall|i: int|
                    0 <= i < old(self).sessions@.len()
                        ==> final(self).sessions@[i] == old(self).sessions@[i]
                &&& final(self).has_session(old(self).next_id)
                &&& final(self).index_of(old(self).next_id) == old(self).sessions@.len()
                &&& final(self).pending_of(old(self).next_id) == Seq::<RelayMessageView>::empty()
                &&& final(self).buffer_of(old(self).next_id) == Seq::<char>::empty()
                &&& forall|other: u64|
                    old(self).has_session(other)
                        ==> final(self).has_session(other)
                            && final(self).handle_of(other) == old(self).handle_of(other)
            }),
    {
        match outcome {
            Ok(()) => {
                let id = self.next_id;
                self.next_id = self.next_id + 1;
                let handle = SessionHandle { id, pending: Vec::new(), buffer: String::new() };
                let ghost gh = handle;
                self.sessions.push(handle);
                proof {
                    let s_old = old(self).sessions@;
                    let s_new = self.sessions@;
                    assert(s_new == s_old.push(gh));
                    assert(forall|m: int| 0 <= m < s_old.len() ==> s_new[m] == s_old[m]);
                    assert(s_new[s_old.len() as int] == gh);
                    lemma_find_at(s_new, id, s_old.len() as int);
                    assert(message_views(gh.pending@) =~= Seq::<RelayMessageView>::empty());
                    assert forall|other: u64| old(self).has_session(other)
                        implies self.has_session(other)
                            && self.handle_of(other) == old(self).handle_of(other) by {
                        lemma_find_some(s_old, other);
                        let i = spec_find(s_old, other)->0;
                        lemma_find_at(s_new, other, i);
                    }
                }
                Ok(id)
            },
            Err(e) => Err(e),
        }
    }

    /// Signals teardown of a session: its handle is dropped and later
    /// polls for it return nothing. (Worker teardown itself is driven by
    /// the remote side; dropping the handle releases the receiving end of
    /// its channel.) Closing one session never touches another; closing an
    /// unknown identifier changes nothing.
    pub fn close(&mut self, id: u64)
        requires
            old(self).wf(),
        ensures
            final(self).wf(),
            final(self).next_id == old(self).next_id,
            !old(self).has_session(id) ==> *final(self) == *old(self),
            old(self).has_session(id) ==> ({
                &&& final(self).sessions@ == old(self).sessions@.remove(old(self).index_of(id))
                &&& !final(self).has_session(id)
                &&& forall|other: u64|
                    old(self).has_session(other) && other != id ==> final(self).has_session(other)
                        && final(self).handle_of(other) == old(self).handle_of(other)
            }),
    {
        match self.find_session(id) {
            Some(k) => {
                let _dropped = self.sessions.remove(k);
                proof {
                    let s_old = old(self).sessions@;
                    let s_new = self.sessions@;
                    s_old.remove_ensures(k as int);
                    assert(s_new.len() == s_old.len() - 1);
                    assert(forall|m: int| 0 <= m < k ==> s_new[m] == s_old[m]);
                    assert(forall|m: int| k <= m < s_new.len() ==> s_new[m] == s_old[m + 1]);
                    assert(forall|m: int| 0 <= m < s_new.len() ==> s_new[m].id != id);
                    lemma_find_none(s_new, id);
                    assert forall|other: u64|
                        old(self).has_session(other) && other != id implies self.has_session(other)
                        && self.handle_of(other) == old(self).handle_of(other) by {
                        lemma_find_some(s_old, other);
                        let i = spec_find(s_old, other)->0;
                        if i < k as int {
                            lemma_find_at(s_new, other, i);
                        } else {
                            assert(i != k as int);
                            assert(forall|j: int| 0 <= j < i - 1 ==> s_new[j].id != other);
                            lemma_find_at(s_new, other, i - 1);
                        }
                    }
                }
            },
            None => {
            },
        }
    }

    /// A worker hands one relay message to its session's queue: the
    /// message is appended to that session's undrained messages, in
    /// arrival order. Delivering to one session leaves every other
    /// session untouched; a message for an unknown (already removed)
    /// session is dropped.
    pub fn deliver(&mut self, id: u64, msg: RelayMessage)
        requires
            old(self).wf(),
        ensures
            final(self).wf(),
            final(self).next_id == old(self).next_id,
            !old(self).has_session(id) ==> *final(self) == *old(self),
            old(self).has_session(id) ==> ({
                &&& final(self).sessions@.len() == old(self).sessions@.len()
                &&& final(self).has_session(id)
                &&& final(self).index_of(id) == old(self).index_of(id)
                &&& final(self).pending_of(id) == old(self).pending_of(id).push(msg@)
                &&& final(self).buffer_of(id) == old(self).buffer_of(id)
                &&& forall|other: u64|
                    old(self).has_session(other) && other != id
                        ==> final(self).has_session(other)
                            && final(self).handle_of(other) == old(self).handle_of(other)
            }),
    {
        let found = self.find_session(id);
        match found {
            Some(k) => {
                let mut h = self.sessions.remove(k);
                h.pending.push(msg);
                let ghost gh = h;
                self.sessions.insert(k, h);
                proof {
                    let s_old = old(self).sessions@;
                    let s_new = self.sessions@;
                    let mid = s_old.remove(k as int);
                    s_old.remove_ensures(k as int);
                    mid.insert_ensures(k as int, gh);
                    assert(s_new == mid.insert(k as int, gh));
                    assert(s_new.len() == s_old.len());
                    assert(forall|m2: int| 0 <= m2 < k ==> s_new[m2] == s_old[m2]);
                    assert(forall|m2: int| k < m2 < s_new.len() ==> s_new[m2] == s_old[m2]);
                    assert(s_new[k as int] == gh);
                    assert(forall|m2: int| 0 <= m2 < s_new.len() ==> s_new[m2].id == s_old[m2].id);
                    lemma_find_some(s_old, id);
                    lemma_find_at(s_new, id, k as int);
                    assert(message_views(gh.pending@) =~= message_views(
                        s_old[k as int].pending@,
                    ).push(msg@));
                    assert forall|other: u64| old(self).has_session(other) && other != id
                        implies self.has_session(other)
                            && self.handle_of(other) == old(self).handle_of(other) by {
                        lemma_find_some(s_old, other);
                        let i = spec_find(s_old, other)->0;
                        assert(i != k as int);
                        assert(forall|j: int| 0 <= j < i ==> s_new[j].id != other);
                        lemma_find_at(s_new, other, i);
                    }
                }
            },
            None => {
            },
        }
    }

    /// Drains whatever relay messages are currently queued for this
    /// session, without blocking, and returns them in delivery order. The
    /// text of the drained chunks is appended to the session's output
    /// buffer. Once the drained messages include the end-of-session
    /// marker the handle is removed: the worker has finished and nothing
    /// follows the marker. Polling an unknown identifier returns nothing
    /// and changes nothing; polling one session never touches another.
    pub fn poll(&mut self, id: u64) -> (r: Vec<RelayMessage>)
        requires
            old(self).wf(),
        ensures
            final(self).wf(),
            final(self).next_id == old(self).next_id,
            old(self).has_session(id) ==> message_views(r@) == old(self).pending_of(id),
            !old(self).has_session(id) ==> r@.len() == 0 && *final(self) == *old(self),
            old(self).has_session(id) ==> ({
                &&& forall|other: u64|
                    old(self).has_session(other) && other != id
                        ==> final(self).has_session(other)
                            && final(self).handle_of(other) == old(self).handle_of(other)
                &&& has_end_marker(old(self).pending_of(id)) ==> !final(self).has_session(id)
                    && final(self).sessions@ == old(self).sessions@.remove(old(self).index_of(id))
                &&& !has_end_marker(old(self).pending_of(id)) ==> final(self).has_session(id)
                    && final(self).index_of(id) == old(self).index_of(id)
                    && final(self).pending_of(id) == Seq::<RelayMessageView>::empty()
                    && final(self).buffer_of(id) == old(self).buffer_of(id) + delivered_text(
                        old(self).pending_of(id),
                    )
                    && final(self).sessions@.len() == old(self).sessions@.len()
            }),
    {
        let found = self.find_session(id);
        match found {
            None => Vec::new(),
            Some(k) => {
                let h = self.sessions.remove(k);
                let SessionHandle { id: hid, pending, buffer } = h;
                let mut buffer = buffer;
                let ghost views = message_views(pending@);
                let ghost buf0 = buffer@;
                let n = pending.len();
                let mut j: usize = 0;
                let mut saw_end = false;
                proof {
                    assert(views.take(0) =~= Seq::<RelayMessageView>::empty());
                    assert(buf0 + delivered_text(views.take(0)) =~= buf0);
                }
                while j < n
                    invariant
                        0 <= j <= n,
                        n == pending@.len(),
                        views == message_views(pending@),
                        buffer@ == buf0 + delivered_text(views.take(j as int)),
                        saw_end == has_end_marker(views.take(j as int)),
                    decreases n - j,
                {
                    proof {
                        assert(views[j as int] == pending@[j as int]@);
                        assert(views.take(j as int + 1) =~= views.take(j as int).push(
                            views[j as int],
                        ));
                        lemma_delivered_text_push(views.take(j as int), views[j as int]);
                    }
                    match &pending[j] {
                        RelayMessage::Chunk(text) => {
                            buffer.append(text.as_str());
                            proof {
                                vstd::seq_lib::lemma_concat_associative(
                                    buf0,
                                    delivered_text(views.take(j as int)),
                                    text@,
                                );
                                assert(buffer@ == buf0 + delivered_text(views.take(j as int + 1)));
                                assert(saw_end == has_end_marker(views.take(j as int + 1))) by {
                                    if has_end_marker(views.take(j as int)) {
                                        let w = choose|w: int|
                                            0 <= w < views.take(j as int).len() && (#[trigger] views.take(
                                                j as int,
                                            )[w]) is Ended;
                                        assert(views.take(j as int + 1)[w] is Ended);
                                    }
                                    if has_end_marker(views.take(j as int + 1)) {
                                        let w = choose|w: int|
                                            0 <= w < views.take(j as int + 1).len() && (#[trigger] views.take(
                                                j as int + 1,
                                            )[w]) is Ended;
                                        if w < j as int {
                                            assert(views.take(j as int)[w] is Ended);
                                        }
                                    }
                                }
                            }
                        },
                        RelayMessage::Ended(_) => {
                            saw_end = true;
                            proof {
                                assert(views.take(j as int + 1)[j as int] is Ended);
                                assert(has_end_marker(views.take(j as int + 1)));
                                assert(buffer@ == buf0 + delivered_text(views.take(j as int + 1)));
                            }
                        },
                    }
                    j += 1;
                }
                proof {
                    assert(views.take(n as int) =~= views);
                }
                if saw_end {
                    proof {
                        let s_old = old(self).sessions@;
                        let s_new = self.sessions@;
                        s_old.remove_ensures(k as int);
                        assert(s_new.len() == s_old.len() - 1);
                        assert(forall|m2: int| 0 <= m2 < k ==> s_new[m2] == s_old[m2]);
                        assert(forall|m2: int| k <= m2 < s_new.len() ==> s_new[m2] == s_old[m2 + 1]);
                        assert(forall|m2: int| 0 <= m2 < s_new.len() ==> s_new[m2].id != id);
                        lemma_find_none(s_new, id);
                        assert forall|other: u64| old(self).has_session(other) && other != id
                            implies self.has_session(other)
                                && self.handle_of(other) == old(self).handle_of(other) by {
                            lemma_find_some(s_old, other);
                            let i = spec_find(s_old, other)->0;
                            if i < k as int {
                                lemma_find_at(s_new, other, i);
                            } else {
                                assert(i != k as int);
                                assert(forall|j2: int| 0 <= j2 < i - 1 ==> s_new[j2].id != other);
                                lemma_find_at(s_new, other, i - 1);
                            }
                        }
                    }
                    pending
                } else {
                    let fresh: Vec<RelayMessage> = Vec::new();
                    let replacement = SessionHandle { id: hid, pending: fresh, buffer };
                    let ghost gh = replacement;
                    self.sessions.insert(k, replacement);
                    proof {
                        let s_old = old(self).sessions@;
                        let s_new = self.sessions@;
                        let mid = s_old.remove(k as int);
                        s_old.remove_ensures(k as int);
                        mid.insert_ensures(k as int, gh);
                        assert(s_new == mid.insert(k as int, gh));
                        assert(s_new.len() == s_old.len());
                        assert(forall|m2: int| 0 <= m2 < k ==> s_new[m2] == s_old[m2]);
                        assert(forall|m2: int| k < m2 < s_new.len() ==> s_new[m2] == s_old[m2]);
                        assert(s_new[k as int] == gh);
                        assert(forall|m2: int|
                            0 <= m2 < s_new.len() ==> s_new[m2].id == s_old[m2].id);
                        lemma_find_some(s_old, id);
                        lemma_find_at(s_new, id, k as int);
                        assert(message_views(gh.pending@) =~= Seq::<RelayMessageView>::empty());
                        assert forall|other: u64| old(self).has_session(other) && other != id
                            implies self.has_session(other)
                                && self.handle_of(other) == old(self).handle_of(other) by {
                            lemma_find_some(s_old, other);
                            let i = spec_find(s_old, other)->0;
                            assert(i != k as int);
                            assert(forall|j2: int| 0 <= j2 < i ==> s_new[j2].id != other);
                            lemma_find_at(s_new, other, i);
                        }
                    }
                    pending
                }
            },
        }
    }
}

} // verus!
