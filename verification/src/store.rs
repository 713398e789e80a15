//! Chat sessions and their messages, as the browser store keeps them in memory:
//! sessions by identifier, each with its thread of messages, and message
//! identifiers handed out in increasing order.
use vstd::prelude::*;
use vstd::string::*;
use crate::keyed::{entry_models, as_map, keys_distinct, lookup, set_entry, remove_entry, get_entry, position, lemma_lookup_at, lemma_lookup_absent};

verus! {

/// A chat session.
#[derive(Clone, Debug, PartialEq, Eq)]
pub struct Session {
    pub id: String,
    pub created_at: i64,
    pub updated_at: i64,
    pub summary: String,
}

/// The mathematical content of a session.
pub struct SessionModel {
    pub id: Seq<char>,
    pub created_at: i64,
    pub updated_at: i64,
    pub summary: Seq<char>,
}

impl View for Session {
    type V = SessionModel;

    open spec fn view(&self) -> SessionModel {
        SessionModel {
            id: self.id@,
            created_at: self.created_at,
            updated_at: self.updated_at,
            summary: self.summary@,
        }
    }
}

impl Session {
    /// A copy of the session.
    pub fn copy(&self) -> (r: Session)
        ensures
            r == *self,
    {
        Session {
            id: self.id.clone(),
            created_at: self.created_at,
            updated_at: self.updated_at,
            summary: self.summary.clone(),
        }
    }
}

/// A message of a session.
#[derive(Clone, Debug, PartialEq, Eq)]
pub struct Message {
    pub id: i64,
    pub session_id: String,
    pub role: String,
    pub content: String,
    pub ts: i64,
}

impl Message {
    /// A copy of the message.
    pub fn copy(&self) -> (r: Message)
        ensures
            r == *self,
    {
        Message {
            id: self.id,
            session_id: self.session_id.clone(),
            role: self.role.clone(),
            content: self.content.clone(),
            ts: self.ts,
        }
    }
}

/// Why a store operation failed.
#[derive(Clone, Debug, PartialEq, Eq)]
pub enum IndexedDbError {
    Rexie(String),
    Serde(String),
    SessionNotFound(String),
    LockError(String),
}

/// The text of a store error.
pub open spec fn indexed_db_error_text(e: IndexedDbError) -> Seq<char> {
    match e {
        IndexedDbError::Rexie(m) => "IndexedDB/Rexie error: "@ + m@,
        IndexedDbError::Serde(m) => "Serde error: "@ + m@,
        IndexedDbError::SessionNotFound(m) => "Session not found: "@ + m@,
        IndexedDbError::LockError(m) => "Cache lock error: "@ + m@,
    }
}

impl IndexedDbError {
    /// The text of the error.
    pub fn to_string(&self) -> (r: String)
        ensures
            r@ == indexed_db_error_text(*self),
    {
        let (mut s, m) = match self {
            IndexedDbError::Rexie(m) => ("IndexedDB/Rexie error: ".to_string(), m),
            IndexedDbError::Serde(m) => ("Serde error: ".to_string(), m),
            IndexedDbError::SessionNotFound(m) => ("Session not found: ".to_string(), m),
            IndexedDbError::LockError(m) => ("Cache lock error: ".to_string(), m),
        };
        s.append(m.as_str());
        s
    }
}

/// The mathematical state of a store: sessions and threads by session
/// identifier, and the identifier of the next message.
pub struct CacheModel {
    pub sessions: Map<Seq<char>, SessionModel>,
    pub threads: Map<Seq<char>, Seq<Message>>,
    pub next_message_id: int,
}

/// The thread of a session; empty when it has none.
pub open spec fn thread_of(threads: Map<Seq<char>, Seq<Message>>, id: Seq<char>) -> Seq<Message> {
    if threads.contains_key(id) {
        threads[id]
    } else {
        Seq::empty()
    }
}

/// The store after creating a session at time `now`: the session, and an empty thread.
pub open spec fn create_spec(c: CacheModel, id: Seq<char>, summary: Seq<char>, now: i64) -> CacheModel {
    CacheModel {
        sessions: c.sessions.insert(
            id,
            SessionModel { id, created_at: now, updated_at: now, summary },
        ),
        threads: c.threads.insert(id, Seq::empty()),
        next_message_id: c.next_message_id,
    }
}

/// The store after appending message `m` to an existing session at time `now`.
pub open spec fn append_spec(c: CacheModel, id: Seq<char>, m: Message, now: i64) -> CacheModel {
    CacheModel {
        sessions: c.sessions.insert(
            id,
            SessionModel { updated_at: now, ..c.sessions[id] },
        ),
        threads: c.threads.insert(id, thread_of(c.threads, id).push(m)),
        next_message_id: c.next_message_id + 1,
    }
}

/// The store after deleting a session and its thread.
pub open spec fn delete_spec(c: CacheModel, id: Seq<char>) -> CacheModel {
    CacheModel {
        sessions: c.sessions.remove(id),
        threads: c.threads.remove(id),
        next_message_id: c.next_message_id,
    }
}

/// Every message of every thread has an identifier below the next one.
pub open spec fn ids_below_next(c: CacheModel) -> bool {
    forall|k: Seq<char>, i: int|
        c.threads.contains_key(k) && 0 <= i < c.threads[k].len() ==> #[trigger] c.threads[k][i].id
            < c.next_message_id
}

/// Inserts a message into a thread ordered by identifier, after those whose
/// identifier is not greater.
pub open spec fn insert_by_msg_id(t: Seq<Message>, m: Message) -> Seq<Message>
    decreases t.len(),
{
    if t.len() == 0 {
        seq![m]
    } else if t.last().id > m.id {
        insert_by_msg_id(t.drop_last(), m).push(t.last())
    } else {
        t.push(m)
    }
}

/// Inserts a session into a list ordered by last update, most recent first,
/// after those updated no earlier.
pub open spec fn insert_by_update(s: Seq<SessionModel>, x: SessionModel) -> Seq<SessionModel>
    decreases s.len(),
{
    if s.len() == 0 {
        seq![x]
    } else if s.last().updated_at < x.updated_at {
        insert_by_update(s.drop_last(), x).push(s.last())
    } else {
        s.push(x)
    }
}

/// Sessions ordered by last update, most recent first; sessions updated at the
/// same time keep their order.
pub open spec fn sort_by_update(s: Seq<SessionModel>) -> Seq<SessionModel>
    decreases s.len(),
{
    if s.len() == 0 {
        Seq::empty()
    } else {
        insert_by_update(sort_by_update(s.drop_last()), s.last())
    }
}

/// The sessions loaded from records: a later record replaces an earlier one
/// with the same identifier.
pub open spec fn load_sessions(recs: Seq<SessionModel>) -> Map<Seq<char>, SessionModel>
    decreases recs.len(),
{
    if recs.len() == 0 {
        Map::empty()
    } else {
        load_sessions(recs.drop_last()).insert(recs.last().id, recs.last())
    }
}

/// The threads loaded from message records: grouped by session, each ordered
/// by message identifier (records with equal identifiers keep their order).
pub open spec fn load_threads(msgs: Seq<Message>) -> Map<Seq<char>, Seq<Message>>
    decreases msgs.len(),
{
    if msgs.len() == 0 {
        Map::empty()
    } else {
        let t = load_threads(msgs.drop_last());
        let m = msgs.last();
        t.insert(m.session_id@, insert_by_msg_id(thread_of(t, m.session_id@), m))
    }
}

/// The largest message identifier of the records, or zero when it is larger.
pub open spec fn max_id(msgs: Seq<Message>) -> int
    decreases msgs.len(),
{
    if msgs.len() == 0 {
        0
    } else if msgs.last().id > max_id(msgs.drop_last()) {
        msgs.last().id as int
    } else {
        max_id(msgs.drop_last())
    }
}

/// The store's sessions and threads, held in memory.
pub struct SessionCache {
    pub sessions: Vec<(String, Session)>,
    pub threads: Vec<(String, Vec<Message>)>,
    pub next_message_id: i64,
}

/// `chrono::Utc::now().timestamp()`: the current time in seconds since the Unix
/// epoch. Nothing is stated of its value, which the clock decides.
#[verifier::external_body]
fn now_seconds() -> (r: i64) {
    chrono::Utc::now().timestamp()
}

impl SessionCache {
    /// The mathematical state of the store.
    pub open spec fn model(&self) -> CacheModel {
        CacheModel {
            sessions: as_map(entry_models(self.sessions@)),
            threads: as_map(entry_models(self.threads@)),
            next_message_id: self.next_message_id as int,
        }
    }

    /// The store's invariant: one entry per key, each session filed under its
    /// own identifier, message identifiers below the next one, which is positive.
    pub open spec fn wf(&self) -> bool {
        &&& keys_distinct(entry_models(self.sessions@))
        &&& keys_distinct(entry_models(self.threads@))
        &&& forall|k: Seq<char>| #[trigger] self.model().sessions.contains_key(k) ==> self.model().sessions[k].id == k
        &&& ids_below_next(self.model())
        &&& self.next_message_id >= 1
    }

    /// An empty store; the first message will get identifier 1.
    pub fn new() -> (r: SessionCache)
        ensures
            r.wf(),
            r.model().sessions == Map::<Seq<char>, SessionModel>::empty(),
            r.model().threads == Map::<Seq<char>, Seq<Message>>::empty(),
            r.model().next_message_id == 1,
    {
        let r = SessionCache { sessions: Vec::new(), threads: Vec::new(), next_message_id: 1 };
        proof {
            assert(r.model().sessions =~= Map::<Seq<char>, SessionModel>::empty());
            assert(r.model().threads =~= Map::<Seq<char>, Seq<Message>>::empty());
        }
        r
    }

    /// Creates a session at time `now`, with an empty thread; a session with the
    /// same identifier is replaced.
    pub fn create_session_at(&mut self, id: &str, summary: &str, now: i64) -> (r: Session)
        requires
            old(self).wf(),
        ensures
            final(self).wf(),
            r@ == (SessionModel { id: id@, created_at: now, updated_at: now, summary: summary@ }),
            final(self).model() == create_spec(old(self).model(), id@, summary@, now),
    {
        let session = Session {
            id: id.to_string(),
            created_at: now,
            updated_at: now,
            summary: summary.to_string(),
        };
        let ghost before = self.model();
        let ghost sess_before = self.sessions@;
        set_entry(&mut self.sessions, id.to_string(), session.copy());
        let empty: Vec<Message> = Vec::new();
        set_entry(&mut self.threads, id.to_string(), empty);
        proof {
            assert(self.model().sessions == create_spec(before, id@, summary@, now).sessions);
            assert(self.model().threads =~= create_spec(before, id@, summary@, now).threads);
        }
        session
    }

    /// Creates a session stamped with the current time.
    pub fn create_session(&mut self, id: &str, summary: &str) -> (r: Session)
        requires
            old(self).wf(),
        ensures
            final(self).wf(),
            r.id@ == id@,
            r.summary@ == summary@,
            r.created_at == r.updated_at,
            final(self).model() == create_spec(old(self).model(), id@, summary@, r.created_at),
    {
        let now = now_seconds();
        self.create_session_at(id, summary, now)
    }
    /// Appends a message to a session at time `now`: it gets the next message
    /// identifier and the session's last update becomes `now`. An unknown
    /// session is an error, and nothing changes.
    pub fn append_message_at(&mut self, session_id: &str, role: &str, content: &str, now: i64) -> (r:
        Result<Message, IndexedDbError>)
        requires
            old(self).wf(),
            old(self).next_message_id < i64::MAX,
        ensures
            final(self).wf(),
            match r {
                Ok(m) => {
                    &&& old(self).model().sessions.contains_key(session_id@)
                    &&& m.id == old(self).next_message_id
                    &&& m.session_id@ == session_id@
                    &&& m.role@ == role@
                    &&& m.content@ == content@
                    &&& m.ts == now
                    &&& final(self).model() == append_spec(old(self).model(), session_id@, m, now)
                },
                Err(e) => {
                    &&& !old(self).model().sessions.contains_key(session_id@)
                    &&& e matches IndexedDbError::SessionNotFound(id) && id@ == session_id@
                    &&& final(self).model() == old(self).model()
                },
            },
    {
        let key = session_id.to_string();
        let ghost before = self.model();
        let session = match get_entry(&self.sessions, &key) {
            Some(s) => s.copy(),
            None => {
                return Err(IndexedDbError::SessionNotFound(session_id.to_string()));
            },
        };
        let updated = Session {
            id: session.id,
            created_at: session.created_at,
            updated_at: now,
            summary: session.summary,
        };
        set_entry(&mut self.sessions, key.clone(), updated);
        let id = self.next_message_id;
        self.next_message_id = id + 1;
        let message = Message {
            id,
            session_id: session_id.to_string(),
            role: role.to_string(),
            content: content.to_string(),
            ts: now,
        };
        let mut thread = match get_entry(&self.threads, &key) {
            Some(t) => copy_thread(t),
            None => Vec::new(),
        };
        let ghost t0 = thread@;
        thread.push(message.copy());
        set_entry(&mut self.threads, key, thread);
        proof {
            assert(t0 == thread_of(before.threads, session_id@));
            assert(self.model().sessions =~= append_spec(before, session_id@, message, now).sessions);
            assert(self.model().threads =~= append_spec(before, session_id@, message, now).threads);
            assert forall|k: Seq<char>, i: int|
                self.model().threads.contains_key(k) && 0 <= i < self.model().threads[k].len() implies
                #[trigger] self.model().threads[k][i].id < self.model().next_message_id by {
                if k == session_id@ {
                    if i < t0.len() {
                        assert(before.threads.contains_key(k));
                        assert(before.threads[k][i].id < before.next_message_id);
                    }
                } else {
                    assert(before.threads.contains_key(k));
                    assert(before.threads[k][i].id < before.next_message_id);
                }
            }
        }
        Ok(message)
    }

    /// Appends a message stamped with the current time.
    pub fn append_message(&mut self, session_id: &str, role: &str, content: &str) -> (r: Result<
        Message,
        IndexedDbError,
    >)
        requires
            old(self).wf(),
            old(self).next_message_id < i64::MAX,
        ensures
            final(self).wf(),
            match r {
                Ok(m) => {
                    &&& old(self).model().sessions.contains_key(session_id@)
                    &&& m.id == old(self).next_message_id
                    &&& m.session_id@ == session_id@
                    &&& m.role@ == role@
                    &&& m.content@ == content@
                    &&& final(self).model() == append_spec(old(self).model(), session_id@, m, m.ts)
                },
                Err(e) => {
                    &&& !old(self).model().sessions.contains_key(session_id@)
                    &&& e matches IndexedDbError::SessionNotFound(id) && id@ == session_id@
                    &&& final(self).model() == old(self).model()
                },
            },
    {
        let now = now_seconds();
        self.append_message_at(session_id, role, content, now)
    }

    /// The session with the identifier, if there is one.
    pub fn get_session(&self, id: &str) -> (r: Option<Session>)
        requires
            self.wf(),
        ensures
            match r {
                Some(s) => self.model().sessions.contains_key(id@) && s@ == self.model().sessions[id@],
                None => !self.model().sessions.contains_key(id@),
            },
    {
        let key = id.to_string();
        match get_entry(&self.sessions, &key) {
            Some(s) => Some(s.copy()),
            None => None,
        }
    }

    /// The messages of a session, in order; none for an unknown session.
    pub fn get_messages(&self, session_id: &str) -> (r: Vec<Message>)
        requires
            self.wf(),
        ensures
            r@ == thread_of(self.model().threads, session_id@),
    {
        let key = session_id.to_string();
        match get_entry(&self.threads, &key) {
            Some(t) => copy_thread(t),
            None => Vec::new(),
        }
    }

    /// Deletes a session and its messages; nothing happens for an unknown one.
    pub fn delete_session(&mut self, id: &str)
        requires
            old(self).wf(),
        ensures
            final(self).wf(),
            final(self).model() == delete_spec(old(self).model(), id@),
    {
        let key = id.to_string();
        let ghost before = self.model();
        remove_entry(&mut self.sessions, &key);
        remove_entry(&mut self.threads, &key);
        proof {
            assert(self.model().sessions =~= delete_spec(before, id@).sessions);
            assert(self.model().threads =~= delete_spec(before, id@).threads);
            assert forall|k: Seq<char>, i: int|
                self.model().threads.contains_key(k) && 0 <= i < self.model().threads[k].len() implies
                #[trigger] self.model().threads[k][i].id < self.model().next_message_id by {
                assert(before.threads.contains_key(k));
                assert(before.threads[k][i].id < before.next_message_id);
            }
        }
    }
}

/// A copy of a thread.
fn copy_thread(v: &Vec<Message>) -> (r: Vec<Message>)
    ensures
        r@ == v@,
{
    let mut r: Vec<Message> = Vec::new();
    let mut i: usize = 0;
    while i < v.len()
        invariant
            i <= v@.len(),
            r@ == v@.take(i as int),
        decreases v@.len() - i,
    {
        r.push(v[i].copy());
        proof {
            assert(v@.take(i + 1) =~= v@.take(i as int).push(v@[i as int]));
        }
        i = i + 1;
    }
    proof {
        assert(v@.take(v@.len() as int) =~= v@);
    }
    r
}

/// The models of sessions.
pub open spec fn session_models(v: Seq<Session>) -> Seq<SessionModel> {
    v.map_values(|x: Session| x@)
}

/// The values of entries, in order.
pub open spec fn entry_values<W>(m: Seq<(Seq<char>, W)>) -> Seq<W> {
    m.map_values(|e: (Seq<char>, W)| e.1)
}

/// Inserts a message into a thread ordered by identifier.
fn insert_msg(t: &mut Vec<Message>, x: Message)
    ensures
        final(t)@ == insert_by_msg_id(old(t)@, x),
{
    let ghost s = t@;
    let mut k = t.len();
    proof {
        assert(s.take(k as int) =~= s);
        assert(s.skip(k as int) =~= Seq::<Message>::empty());
        assert(insert_by_msg_id(s, x) =~= insert_by_msg_id(s.take(k as int), x) + s.skip(k as int));
    }
    while k > 0 && t[k - 1].id > x.id
        invariant
            k <= t@.len(),
            s == t@,
            insert_by_msg_id(s, x) == insert_by_msg_id(s.take(k as int), x) + s.skip(k as int),
        decreases k,
    {
        proof {
            let u = s.take(k as int);
            assert(u.drop_last() =~= s.take(k - 1));
            assert(u.last() == s[k - 1]);
            assert(s.skip(k - 1) =~= seq![s[k - 1]] + s.skip(k as int));
            assert(insert_by_msg_id(s.take(k - 1), x).push(s[k - 1]) + s.skip(k as int)
                =~= insert_by_msg_id(s.take(k - 1), x) + s.skip(k - 1));
        }
        k = k - 1;
    }
    proof {
        if k > 0 {
            let u = s.take(k as int);
            assert(u.last() == s[k - 1]);
        }
        assert(insert_by_msg_id(s.take(k as int), x) =~= s.take(k as int).push(x));
        assert(s.take(k as int).push(x) + s.skip(k as int) =~= s.insert(k as int, x));
    }
    t.insert(k, x);
}

/// Inserts a session into a list ordered by last update, most recent first.
fn insert_session(v: &mut Vec<Session>, x: Session)
    ensures
        session_models(final(v)@) == insert_by_update(session_models(old(v)@), x@),
{
    let ghost s = session_models(v@);
    let mut k = v.len();
    proof {
        assert(s.take(k as int) =~= s);
        assert(s.skip(k as int) =~= Seq::<SessionModel>::empty());
        assert(insert_by_update(s, x@) =~= insert_by_update(s.take(k as int), x@) + s.skip(k as int));
    }
    while k > 0 && v[k - 1].updated_at < x.updated_at
        invariant
            k <= v@.len(),
            s == session_models(v@),
            insert_by_update(s, x@) == insert_by_update(s.take(k as int), x@) + s.skip(k as int),
        decreases k,
    {
        proof {
            let u = s.take(k as int);
            assert(u.drop_last() =~= s.take(k - 1));
            assert(u.last() == s[k - 1]);
            assert(s.skip(k - 1) =~= seq![s[k - 1]] + s.skip(k as int));
            assert(insert_by_update(s.take(k - 1), x@).push(s[k - 1]) + s.skip(k as int)
                =~= insert_by_update(s.take(k - 1), x@) + s.skip(k - 1));
        }
        k = k - 1;
    }
    proof {
        if k > 0 {
            let u = s.take(k as int);
            assert(u.last() == s[k - 1]);
        }
        assert(insert_by_update(s.take(k as int), x@) =~= s.take(k as int).push(x@));
        assert(s.take(k as int).push(x@) + s.skip(k as int) =~= s.insert(k as int, x@));
    }
    let ghost xm = x@;
    v.insert(k, x);
    proof {
        assert(session_models(v@) =~= s.insert(k as int, xm));
    }
}

proof fn lemma_load_sessions_ids(recs: Seq<SessionModel>, k: Seq<char>)
    ensures
        load_sessions(recs).contains_key(k) ==> load_sessions(recs)[k].id == k,
    decreases recs.len(),
{
    if recs.len() > 0 {
        lemma_load_sessions_ids(recs.drop_last(), k);
    }
}

proof fn lemma_insert_by_msg_id_len(t: Seq<Message>, m: Message)
    ensures
        insert_by_msg_id(t, m).len() == t.len() + 1,
    decreases t.len(),
{
    if t.len() > 0 && t.last().id > m.id {
        lemma_insert_by_msg_id_len(t.drop_last(), m);
    }
}

proof fn lemma_insert_by_msg_id_contents(t: Seq<Message>, m: Message, i: int)
    requires
        0 <= i < insert_by_msg_id(t, m).len(),
    ensures
        insert_by_msg_id(t, m).len() == t.len() + 1,
        insert_by_msg_id(t, m)[i] == m || exists|j: int| 0 <= j < t.len() && t[j] == insert_by_msg_id(t, m)[i],
    decreases t.len(),
{
    lemma_insert_by_msg_id_len(t, m);
    if t.len() > 0 && t.last().id > m.id {
        let inner = insert_by_msg_id(t.drop_last(), m);
        lemma_insert_by_msg_id_len(t.drop_last(), m);
        if i < t.len() {
            lemma_insert_by_msg_id_contents(t.drop_last(), m, i);
            if insert_by_msg_id(t, m)[i] != m {
                let j = choose|j: int| 0 <= j < t.drop_last().len() && t.drop_last()[j] == inner[i];
                assert(t[j] == insert_by_msg_id(t, m)[i]);
            }
        } else {
            assert(insert_by_msg_id(t, m)[i] == t[t.len() - 1]);
        }
    } else if t.len() > 0 {
        if i < t.len() {
            assert(insert_by_msg_id(t, m)[i] == t[i]);
        }
    }
}

proof fn lemma_load_threads_ids(msgs: Seq<Message>)
    ensures
        forall|k: Seq<char>, i: int|
            load_threads(msgs).contains_key(k) && 0 <= i < load_threads(msgs)[k].len()
                ==> #[trigger] load_threads(msgs)[k][i].id <= max_id(msgs),
        max_id(msgs) >= 0,
    decreases msgs.len(),
{
    if msgs.len() > 0 {
        let init = msgs.drop_last();
        lemma_load_threads_ids(init);
        let t = load_threads(init);
        let m = msgs.last();
        let th = thread_of(t, m.session_id@);
        assert forall|k: Seq<char>, i: int|
            load_threads(msgs).contains_key(k) && 0 <= i < load_threads(msgs)[k].len() implies
            #[trigger] load_threads(msgs)[k][i].id <= max_id(msgs) by {
            if k == m.session_id@ {
                lemma_insert_by_msg_id_contents(th, m, i);
                let x = insert_by_msg_id(th, m)[i];
                if x != m {
                    let j = choose|j: int| 0 <= j < th.len() && th[j] == x;
                    assert(t.contains_key(k));
                    assert(t[k][j].id <= max_id(init));
                }
            } else {
                assert(t.contains_key(k));
                assert(t[k][i].id <= max_id(init));
            }
        }
    }
}

impl SessionCache {
    /// All sessions, most recently updated first.
    pub fn list_sessions(&self) -> (r: Vec<Session>)
        requires
            self.wf(),
        ensures
            session_models(r@) == sort_by_update(entry_values(entry_models(self.sessions@))),
    {
        let ghost vals = entry_values(entry_models(self.sessions@));
        let mut out: Vec<Session> = Vec::new();
        let mut i: usize = 0;
        proof {
            assert(vals.take(0) =~= Seq::<SessionModel>::empty());
            assert(session_models(out@) =~= Seq::<SessionModel>::empty());
        }
        while i < self.sessions.len()
            invariant
                i <= self.sessions@.len(),
                vals == entry_values(entry_models(self.sessions@)),
                session_models(out@) == sort_by_update(vals.take(i as int)),
            decreases self.sessions@.len() - i,
        {
            proof {
                let pre = vals.take(i + 1);
                assert(pre.drop_last() =~= vals.take(i as int));
                assert(pre.last() == self.sessions@[i as int].1@);
            }
            insert_session(&mut out, self.sessions[i].1.copy());
            i = i + 1;
        }
        proof {
            assert(vals.take(self.sessions@.len() as int) =~= vals);
        }
        out
    }

    /// The store that the persisted records describe: sessions by identifier (a
    /// later record wins), threads grouped by session and ordered by message
    /// identifier, and the next message identifier one above the largest
    /// identifier found (and at least 1).
    pub fn load(sessions: Vec<Session>, messages: Vec<Message>) -> (r: SessionCache)
        requires
            forall|i: int| 0 <= i < messages@.len() ==> #[trigger] messages@[i].id < i64::MAX,
        ensures
            r.wf(),
            r.model().sessions == load_sessions(session_models(sessions@)),
            r.model().threads == load_threads(messages@),
            r.model().next_message_id == max_id(messages@) + 1,
    {
        let mut ses: Vec<(String, Session)> = Vec::new();
        let mut i: usize = 0;
        proof {
            assert(session_models(sessions@).take(0) =~= Seq::<SessionModel>::empty());
            assert(as_map(entry_models(ses@)) =~= Map::<Seq<char>, SessionModel>::empty());
        }
        while i < sessions.len()
            invariant
                i <= sessions@.len(),
                keys_distinct(entry_models(ses@)),
                as_map(entry_models(ses@)) == load_sessions(session_models(sessions@).take(i as int)),
            decreases sessions@.len() - i,
        {
            proof {
                let pre = session_models(sessions@).take(i + 1);
                assert(pre.drop_last() =~= session_models(sessions@).take(i as int));
                assert(pre.last() == sessions@[i as int]@);
            }
            let rec = sessions[i].copy();
            set_entry(&mut ses, rec.id.clone(), rec);
            i = i + 1;
        }
        proof {
            assert(session_models(sessions@).take(sessions@.len() as int) =~= session_models(sessions@));
        }
        let mut threads: Vec<(String, Vec<Message>)> = Vec::new();
        let mut max: i64 = 0;
        let mut j: usize = 0;
        proof {
            assert(messages@.take(0) =~= Seq::<Message>::empty());
            assert(as_map(entry_models(threads@)) =~= Map::<Seq<char>, Seq<Message>>::empty());
        }
        while j < messages.len()
            invariant
                j <= messages@.len(),
                keys_distinct(entry_models(threads@)),
                as_map(entry_models(threads@)) == load_threads(messages@.take(j as int)),
                max as int == max_id(messages@.take(j as int)),
                forall|i: int| 0 <= i < messages@.len() ==> #[trigger] messages@[i].id < i64::MAX,
            decreases messages@.len() - j,
        {
            let ghost pre = messages@.take(j + 1);
            proof {
                assert(pre.drop_last() =~= messages@.take(j as int));
                assert(pre.last() == messages@[j as int]);
            }
            let m = messages[j].copy();
            if m.id > max {
                max = m.id;
            }
            let key = m.session_id.clone();
            let mut t = match get_entry(&threads, &key) {
                Some(t) => copy_thread(t),
                None => Vec::new(),
            };
            insert_msg(&mut t, m);
            set_entry(&mut threads, key, t);
            proof {
                assert(as_map(entry_models(threads@)) =~= load_threads(pre));
            }
            j = j + 1;
        }
        proof {
            assert(messages@.take(messages@.len() as int) =~= messages@);
            lemma_load_threads_ids(messages@);
            assert forall|k: Seq<char>| #[trigger] as_map(entry_models(ses@)).contains_key(k) implies as_map(
                entry_models(ses@),
            )[k].id == k by {
                lemma_load_sessions_ids(session_models(sessions@), k);
            }
            if messages@.len() > 0 {
                assert(max < i64::MAX) by {
                    if max > 0 {
                        lemma_max_id_attained(messages@);
                    }
                }
            }
        }
        SessionCache { sessions: ses, threads, next_message_id: max + 1 }
    }
}

proof fn lemma_max_id_attained(msgs: Seq<Message>)
    requires
        max_id(msgs) > 0,
    ensures
        exists|i: int| 0 <= i < msgs.len() && msgs[i].id == max_id(msgs),
    decreases msgs.len(),
{
    let init = msgs.drop_last();
    if msgs.last().id > max_id(init) {
        assert(msgs[msgs.len() - 1].id == max_id(msgs));
    } else {
        lemma_max_id_attained(init);
        let i = choose|i: int| 0 <= i < init.len() && init[i].id == max_id(init);
        assert(msgs[i].id == max_id(msgs));
    }
}

/// Reading a session right after creating it gives that session, with no messages.
pub proof fn lemma_read_after_create(c: CacheModel, id: Seq<char>, summary: Seq<char>, now: i64)
    ensures
        create_spec(c, id, summary, now).sessions[id] == (SessionModel {
            id,
            created_at: now,
            updated_at: now,
            summary,
        }),
        thread_of(create_spec(c, id, summary, now).threads, id) == Seq::<Message>::empty(),
        forall|k: Seq<char>|
            k != id ==> thread_of(create_spec(c, id, summary, now).threads, k) == thread_of(c.threads, k),
{
}

/// Reading a session's messages right after appending one gives the earlier
/// messages followed by the new one; other sessions are untouched.
pub proof fn lemma_read_after_append(c: CacheModel, id: Seq<char>, m: Message, now: i64)
    requires
        c.sessions.contains_key(id),
    ensures
        thread_of(append_spec(c, id, m, now).threads, id) == thread_of(c.threads, id).push(m),
        append_spec(c, id, m, now).sessions[id].updated_at == now,
        append_spec(c, id, m, now).sessions[id].created_at == c.sessions[id].created_at,
        forall|k: Seq<char>|
            k != id ==> thread_of(append_spec(c, id, m, now).threads, k) == thread_of(c.threads, k)
                && append_spec(c, id, m, now).sessions.contains_key(k) == c.sessions.contains_key(k),
{
}

/// Message identifiers only grow: an appended message, which takes the next
/// identifier, comes after every message of its thread, and the store keeps
/// every identifier below the next one.
pub proof fn lemma_append_ids_increase(c: CacheModel, id: Seq<char>, m: Message, now: i64)
    requires
        ids_below_next(c),
        m.id == c.next_message_id,
    ensures
        ids_below_next(append_spec(c, id, m, now)),
        forall|i: int| 0 <= i < thread_of(c.threads, id).len() ==> #[trigger] thread_of(c.threads, id)[i].id < m.id,
{
    let c2 = append_spec(c, id, m, now);
    assert forall|k: Seq<char>, i: int|
        c2.threads.contains_key(k) && 0 <= i < c2.threads[k].len() implies #[trigger] c2.threads[k][i].id
        < c2.next_message_id by {
        if k == id {
            if i < thread_of(c.threads, id).len() {
                assert(c.threads.contains_key(k));
                assert(c.threads[k][i].id < c.next_message_id);
            }
        } else {
            assert(c.threads[k][i].id < c.next_message_id);
        }
    }
    assert forall|i: int| 0 <= i < thread_of(c.threads, id).len() implies #[trigger] thread_of(c.threads, id)[i].id < m.id by {
        assert(c.threads.contains_key(id));
        assert(c.threads[id][i].id < c.next_message_id);
    }
}

/// After deleting a session, neither it nor its messages can be read; other
/// sessions are untouched.
pub proof fn lemma_read_after_delete(c: CacheModel, id: Seq<char>)
    ensures
        !delete_spec(c, id).sessions.contains_key(id),
        thread_of(delete_spec(c, id).threads, id) == Seq::<Message>::empty(),
        forall|k: Seq<char>|
            k != id ==> thread_of(delete_spec(c, id).threads, k) == thread_of(c.threads, k)
                && delete_spec(c, id).sessions.contains_key(k) == c.sessions.contains_key(k),
{
}

/// Ordered by last update, most recent first.
pub open spec fn updated_desc(s: Seq<SessionModel>) -> bool {
    forall|i: int, j: int| 0 <= i < j < s.len() ==> s[i].updated_at >= s[j].updated_at
}

proof fn lemma_insert_by_update(s: Seq<SessionModel>, x: SessionModel)
    ensures
        insert_by_update(s, x).len() == s.len() + 1,
        forall|y: SessionModel| #[trigger] insert_by_update(s, x).contains(y) <==> (s.contains(y) || y == x),
        updated_desc(s) ==> updated_desc(insert_by_update(s, x)),
    decreases s.len(),
{
    let r = insert_by_update(s, x);
    if s.len() == 0 {
        assert forall|y: SessionModel| r.contains(y) <==> (s.contains(y) || y == x) by {
            if r.contains(y) {
                assert(r[0] == y);
            }
            if y == x {
                assert(r[0] == x);
            }
        }
    } else {
        let init = s.drop_last();
        let last = s.last();
        lemma_insert_by_update(init, x);
        assert(s =~= init.push(last));
        if last.updated_at < x.updated_at {
            let inner = insert_by_update(init, x);
            assert(r == inner.push(last));
            assert forall|y: SessionModel| r.contains(y) <==> (s.contains(y) || y == x) by {
                if r.contains(y) {
                    let k = choose|k: int| 0 <= k < r.len() && r[k] == y;
                    if k < inner.len() {
                        assert(inner[k] == y);
                        assert(inner.contains(y));
                        if init.contains(y) {
                            let m = choose|m: int| 0 <= m < init.len() && init[m] == y;
                            assert(s[m] == y);
                        }
                    } else {
                        assert(s[s.len() - 1] == y);
                    }
                }
                if s.contains(y) {
                    let k = choose|k: int| 0 <= k < s.len() && s[k] == y;
                    if k < init.len() {
                        assert(init[k] == y);
                        assert(inner.contains(y));
                        let m = choose|m: int| 0 <= m < inner.len() && inner[m] == y;
                        assert(r[m] == y);
                    } else {
                        assert(r[r.len() - 1] == y);
                    }
                }
                if y == x {
                    assert(inner.contains(x));
                    let m = choose|m: int| 0 <= m < inner.len() && inner[m] == x;
                    assert(r[m] == x);
                }
            }
            if updated_desc(s) {
                assert(updated_desc(init));
                assert forall|i: int, j: int| 0 <= i < j < r.len() implies r[i].updated_at >= r[j].updated_at by {
                    if j == r.len() - 1 {
                        assert(inner.contains(r[i]));
                        if init.contains(r[i]) {
                            let m = choose|m: int| 0 <= m < init.len() && init[m] == r[i];
                            assert(s[m] == r[i]);
                        }
                    } else {
                        assert(r[i] == inner[i] && r[j] == inner[j]);
                    }
                }
            }
        } else {
            assert(r == s.push(x));
            assert forall|y: SessionModel| r.contains(y) <==> (s.contains(y) || y == x) by {
                if r.contains(y) {
                    let k = choose|k: int| 0 <= k < r.len() && r[k] == y;
                    if k < s.len() {
                        assert(s[k] == y);
                    }
                }
                if s.contains(y) {
                    let k = choose|k: int| 0 <= k < s.len() && s[k] == y;
                    assert(r[k] == y);
                }
                if y == x {
                    assert(r[s.len() as int] == x);
                }
            }
            if updated_desc(s) {
                assert forall|i: int, j: int| 0 <= i < j < r.len() implies r[i].updated_at >= r[j].updated_at by {
                    if j == r.len() - 1 {
                        assert(s[i].updated_at >= last.updated_at);
                    } else {
                        assert(r[i] == s[i] && r[j] == s[j]);
                    }
                }
            }
        }
    }
}

/// The list of sessions holds every session exactly once in count and is
/// ordered by last update, most recent first.
pub proof fn lemma_list_sorted(s: Seq<SessionModel>)
    ensures
        sort_by_update(s).len() == s.len(),
        forall|y: SessionModel| #[trigger] sort_by_update(s).contains(y) <==> s.contains(y),
        updated_desc(sort_by_update(s)),
    decreases s.len(),
{
    if s.len() > 0 {
        let init = s.drop_last();
        lemma_list_sorted(init);
        lemma_insert_by_update(sort_by_update(init), s.last());
        assert(s =~= init.push(s.last()));
        assert forall|y: SessionModel| sort_by_update(s).contains(y) <==> s.contains(y) by {
            if s.contains(y) {
                let k = choose|k: int| 0 <= k < s.len() && s[k] == y;
                if k < init.len() {
                    assert(init[k] == y);
                }
            }
            if init.contains(y) {
                let k = choose|k: int| 0 <= k < init.len() && init[k] == y;
                assert(s[k] == y);
            }
        }
    }
}

} // verus!
