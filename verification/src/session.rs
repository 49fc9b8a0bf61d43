use vstd::prelude::*;
use crate::user::UserId;

verus! {

pub type SessionId = String;

/// Sessions idle longer than this many seconds are pruned.
pub const SESSION_TIMEOUT_SECONDS: u64 = 60;

/// One authenticated session. Timestamps count seconds since the epoch and
/// are supplied by the caller, which owns the clock.
pub struct Session {
    pub session_id: SessionId,
    pub user_id: UserId,
    pub last_request_at: u64,
    pub is_closed: bool,
}

impl Session {
    /// An exact copy, closed state included.
    fn duplicate(&self) -> (s: Session)
        ensures
            s == *self,
    {
        Session {
            session_id: self.session_id.clone(),
            user_id: self.user_id,
            last_request_at: self.last_request_at,
            is_closed: self.is_closed,
        }
    }

    /// Copies the session; the copy always starts open.
    pub fn clone(&self) -> (s: Session)
        ensures
            s.session_id@ == self.session_id@,
            s.user_id == self.user_id,
            s.last_request_at == self.last_request_at,
            !s.is_closed,
    {
        Session {
            session_id: self.session_id.clone(),
            user_id: self.user_id,
            last_request_at: self.last_request_at,
            is_closed: false,
        }
    }
}

/// Relies on uuid's Uuid::new_v4 and its hyphenated rendering: a fresh
/// random token of 36 characters. Nothing is assumed about the value
/// itself, which depends on the process's random source.
#[verifier::external_body]
fn fresh_session_token() -> (r: String)
    ensures
        r@.len() == 36,
{
    uuid::Uuid::new_v4().to_string()
}

/// Opens a session for a user at the given time, closing any other open
/// session of the same user first, and returns the new session's id.
pub fn create_session(sessions: &mut Vec<Session>, user_id: UserId, now: u64) -> (r: SessionId)
    ensures
        final(sessions)@.len() == old(sessions)@.len() + 1,
        forall|i: int|
            0 <= i < old(sessions)@.len() ==> {
                let before = #[trigger] old(sessions)@[i];
                let after = final(sessions)@[i];
                after.session_id@ == before.session_id@ && after.user_id == before.user_id
                    && after.last_request_at == before.last_request_at && after.is_closed == (
                before.is_closed || before.user_id == user_id)
            },
        ({
            let fresh = final(sessions)@.last();
            fresh.user_id == user_id && fresh.last_request_at == now && !fresh.is_closed
                && fresh.session_id@ == r@
        }),
        r@.len() == 36,
{
    let n = sessions.len();
    let mut i: usize = 0;
    while i < n
        invariant
            n == old(sessions)@.len(),
            sessions@.len() == n,
            0 <= i <= n,
            forall|k: int|
                i <= k < n ==> sessions@[k] == old(sessions)@[k],
            forall|k: int|
                0 <= k < i ==> {
                    let before = #[trigger] old(sessions)@[k];
                    let after = sessions@[k];
                    after.session_id@ == before.session_id@ && after.user_id == before.user_id
                        && after.last_request_at == before.last_request_at && after.is_closed == (
                    before.is_closed || before.user_id == user_id)
                },
        decreases n - i,
    {
        if sessions[i].user_id == user_id && !sessions[i].is_closed {
            let entry = &mut sessions[i];
            entry.is_closed = true;
        }
        i += 1;
    }
    let token = fresh_session_token();
    let session_id = token.clone();
    let session = Session { session_id: token, user_id, last_request_at: now, is_closed: false };
    sessions.push(session);
    session_id
}

/// Finds the open session with the given id, if any, returning a copy.
pub fn get_session(sessions: &Vec<Session>, session_id: &SessionId) -> (r: Option<Session>)
    ensures
        match r {
            Some(s) => exists|i: int|
                0 <= i < sessions@.len() && (#[trigger] sessions@[i]).session_id@ == session_id@
                    && !sessions@[i].is_closed && s.session_id@ == session_id@ && s.user_id
                    == sessions@[i].user_id && s.last_request_at == sessions@[i].last_request_at
                    && !s.is_closed,
            None => forall|i: int|
                0 <= i < sessions@.len() ==> !((#[trigger] sessions@[i]).session_id@ == session_id@
                    && !sessions@[i].is_closed),
        },
{
    let n = sessions.len();
    let mut i: usize = 0;
    while i < n
        invariant
            n == sessions@.len(),
            0 <= i <= n,
            forall|j: int|
                0 <= j < i ==> !((#[trigger] sessions@[j]).session_id@ == session_id@
                    && !sessions@[j].is_closed),
        decreases n - i,
    {
        if sessions[i].session_id == *session_id && !sessions[i].is_closed {
            let copy = sessions[i].clone();
            proof {
                assert(sessions@[i as int].session_id@ == session_id@);
            }
            return Some(copy);
        }
        i += 1;
    }
    None
}

/// Refreshes the timestamp of the first open session with the given id, if
/// one exists; otherwise changes nothing.
pub fn touch_session(sessions: &mut Vec<Session>, session_id: &SessionId, now: u64)
    ensures
        final(sessions)@.len() == old(sessions)@.len(),
        (exists|i: int|
            0 <= i < old(sessions)@.len() && (#[trigger] old(sessions)@[i]).session_id@
                == session_id@ && !old(sessions)@[i].is_closed) ==> exists|i: int|
            0 <= i < old(sessions)@.len() && (#[trigger] old(sessions)@[i]).session_id@
                == session_id@ && !old(sessions)@[i].is_closed && (forall|j: int|
                0 <= j < i ==> !((#[trigger] old(sessions)@[j]).session_id@ == session_id@ && !old(sessions)@[j].is_closed)) && final(sessions)@[i].session_id@ == session_id@ && final(sessions)@[i].user_id == old(sessions)@[i].user_id && final(sessions)@[i].last_request_at == now
                && !final(sessions)@[i].is_closed && (forall|j: int|
                0 <= j < old(sessions)@.len() && j != i ==> final(sessions)@[j] == old(sessions)@[j]),
        !(exists|i: int|
            0 <= i < old(sessions)@.len() && (#[trigger] old(sessions)@[i]).session_id@
                == session_id@ && !old(sessions)@[i].is_closed) ==> final(sessions)@ == old(sessions)@,
{
    let n = sessions.len();
    let mut i: usize = 0;
    while i < n
        invariant
            n == sessions@.len(),
            0 <= i <= n,
            sessions@ == old(sessions)@,
            forall|j: int|
                0 <= j < i ==> !((#[trigger] sessions@[j]).session_id@ == session_id@
                    && !sessions@[j].is_closed),
        decreases n - i,
    {
        if sessions[i].session_id == *session_id && !sessions[i].is_closed {
            proof {
                assert(old(sessions)@[i as int].session_id@ == session_id@);
            }
            let entry = &mut sessions[i];
            entry.last_request_at = now;
            return ;
        }
        i += 1;
    }
}

/// Drops every session whose last request lies more than
/// `SESSION_TIMEOUT_SECONDS` before `now`, keeping the rest in order.
pub fn prune_sessions(sessions: &mut Vec<Session>, now: u64)
    requires
        forall|i: int|
            0 <= i < old(sessions)@.len() ==> (#[trigger] old(sessions)@[i]).last_request_at
                <= now,
    ensures
        final(sessions)@ == old(sessions)@.filter(
            |s: Session| now - s.last_request_at <= SESSION_TIMEOUT_SECONDS,
        ),
{
    let ghost pred = |s: Session| now - s.last_request_at <= SESSION_TIMEOUT_SECONDS;
    let n = sessions.len();
    let mut kept: Vec<Session> = Vec::new();
    let mut i: usize = 0;
    while i < n
        invariant
            n == sessions@.len(),
            0 <= i <= n,
            sessions@ == old(sessions)@,
            forall|k: int|
                0 <= k < n ==> (#[trigger] sessions@[k]).last_request_at <= now,
            kept@ == sessions@.subrange(0, i as int).filter(pred),
            pred == (|s: Session| now - s.last_request_at <= SESSION_TIMEOUT_SECONDS),
        decreases n - i,
    {
        let ghost pre = sessions@.subrange(0, i as int);
        if now - sessions[i].last_request_at <= SESSION_TIMEOUT_SECONDS {
            kept.push(sessions[i].duplicate());
        }
        i += 1;
        proof {
            let cur = sessions@.subrange(0, i as int);
            assert(cur.drop_last() =~= pre);
            assert(cur =~= pre.push(sessions@[i - 1]));
            pre.lemma_filter_push(sessions@[i - 1], pred);
        }
    }
    proof {
        assert(sessions@.subrange(0, n as int) =~= sessions@);
    }
    *sessions = kept;
}

} // verus!
