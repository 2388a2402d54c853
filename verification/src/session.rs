//! Sessions: what the server remembers of a client between requests, and the
//! table that holds the sessions of the datagram transport.
//!
//! A session is created on the first request of a client, at the sandbox
//! root. It is removed once it has been idle for longer than the eviction
//! threshold; what it held of a transfer in progress is then lost, and the
//! next request of that client starts a new session.

use crate::sandbox::DirPath;
use vstd::prelude::*;

verus! {

/// Seconds of inactivity beyond which a session is evicted.
pub const IDLE_THRESHOLD_SECS: u64 = 300;

/// A chunked upload in progress.
#[derive(Clone, Debug, PartialEq, Eq)]
pub struct UploadState {
    /// Text of the path of the file that is being written.
    pub file_path: Vec<u8>,
    /// Size that the client announced.
    pub expected_size: u64,
    /// Bytes stored so far.
    pub received_bytes: u64,
}

/// A chunked download in progress.
#[derive(Clone, Debug, PartialEq, Eq)]
pub struct DownloadState {
    /// Name of the file, as reported to the client.
    pub file_name: String,
    /// Size of the file when it was opened.
    pub file_size: u64,
    /// Chunks handed out so far.
    pub sent_chunks: u32,
}

/// An upload in progress as a mathematical value.
pub ghost struct UploadView {
    pub file_path: Seq<u8>,
    pub expected_size: u64,
    pub received_bytes: u64,
}

/// A download in progress as a mathematical value.
pub ghost struct DownloadView {
    pub file_name: Seq<char>,
    pub file_size: u64,
    pub sent_chunks: u32,
}

impl View for UploadState {
    type V = UploadView;

    open spec fn view(&self) -> UploadView {
        UploadView {
            file_path: self.file_path@,
            expected_size: self.expected_size,
            received_bytes: self.received_bytes,
        }
    }
}

impl View for DownloadState {
    type V = DownloadView;

    open spec fn view(&self) -> DownloadView {
        DownloadView {
            file_name: self.file_name@,
            file_size: self.file_size,
            sent_chunks: self.sent_chunks,
        }
    }
}

/// A session as a mathematical value.
pub ghost struct SessionView {
    /// The root of the sandbox.
    pub root: Seq<Seq<u8>>,
    /// The directory that requests are relative to.
    pub current_directory: Seq<Seq<u8>>,
    /// Time of the last request, in seconds.
    pub last_activity: u64,
    /// The chunked upload in progress, if any.
    pub upload_state: Option<UploadView>,
    /// The chunked download in progress, if any.
    pub download_state: Option<DownloadView>,
}

/// The session that a client starts with: at the root, with no transfer.
pub open spec fn fresh_session(root: Seq<Seq<u8>>, now: u64) -> SessionView {
    SessionView {
        root,
        current_directory: root,
        last_activity: now,
        upload_state: None,
        download_state: None,
    }
}

/// Whether a session that was last active at `last_activity` is due for
/// eviction at time `now`: it has been idle for longer than the threshold.
/// Idle for exactly the threshold is not longer, and a session that was
/// active after `now` has not been idle at all.
pub open spec fn is_idle(last_activity: u64, now: u64, threshold: u64) -> bool {
    now > last_activity && now - last_activity > threshold
}

/// What the server remembers of one client. The current directory is always
/// the sandbox root or a directory below it.
#[derive(Debug, PartialEq, Eq)]
pub struct Session {
    root: DirPath,
    current_directory: DirPath,
    last_activity: u64,
    upload_state: Option<UploadState>,
    download_state: Option<DownloadState>,
}

/// The view of an optional upload.
pub open spec fn upload_view(state: Option<UploadState>) -> Option<UploadView> {
    match state {
        Some(s) => Some(s@),
        None => None,
    }
}

/// The view of an optional download.
pub open spec fn download_view(state: Option<DownloadState>) -> Option<DownloadView> {
    match state {
        Some(s) => Some(s@),
        None => None,
    }
}

impl View for Session {
    type V = SessionView;

    closed spec fn view(&self) -> SessionView {
        SessionView {
            root: self.root@,
            current_directory: self.current_directory@,
            last_activity: self.last_activity,
            upload_state: upload_view(self.upload_state),
            download_state: download_view(self.download_state),
        }
    }
}

impl Session {
    #[verifier::type_invariant]
    spec fn within_sandbox(self) -> bool {
        self.root@.is_prefix_of(self.current_directory@)
    }

    /// A new session at the sandbox root.
    pub fn new(root: &DirPath, now: u64) -> (session: Session)
        ensures
            session@ == fresh_session(root@, now),
    {
        assert(root@ =~= root@.subrange(0, root@.len() as int));
        Session {
            root: root.duplicate(),
            current_directory: root.duplicate(),
            last_activity: now,
            upload_state: None,
            download_state: None,
        }
    }

    /// The root of the sandbox.
    pub fn root(&self) -> (dir: &DirPath)
        ensures
            dir@ == self@.root,
    {
        &self.root
    }

    /// The current directory. It lies within the sandbox.
    pub fn current_directory(&self) -> (dir: &DirPath)
        ensures
            dir@ == self@.current_directory,
            self@.root.is_prefix_of(self@.current_directory),
    {
        proof {
            use_type_invariant(self);
        }
        &self.current_directory
    }

    /// Time of the last request.
    pub fn last_activity(&self) -> (t: u64)
        ensures
            t == self@.last_activity,
    {
        self.last_activity
    }

    /// The chunked upload in progress, if any.
    pub fn upload_state(&self) -> (state: &Option<UploadState>)
        ensures
            upload_view(*state) == self@.upload_state,
    {
        &self.upload_state
    }

    /// The chunked download in progress, if any.
    pub fn download_state(&self) -> (state: &Option<DownloadState>)
        ensures
            download_view(*state) == self@.download_state,
    {
        &self.download_state
    }

    /// Records a request at time `now`.
    pub fn touch(&mut self, now: u64)
        ensures
            final(self)@ == (SessionView { last_activity: now, ..old(self)@ }),
    {
        proof {
            use_type_invariant(&*self);
        }
        self.last_activity = now;
    }

    /// Moves to `dir` if it lies within the sandbox, and tells whether it
    /// did.
    pub fn enter(&mut self, dir: DirPath) -> (moved: bool)
        ensures
            moved == old(self)@.root.is_prefix_of(dir@),
            final(self)@ == if moved {
                SessionView { current_directory: dir@, ..old(self)@ }
            } else {
                old(self)@
            },
    {
        proof {
            use_type_invariant(&*self);
        }
        if dir.is_within(&self.root) {
            self.current_directory = dir;
            true
        } else {
            false
        }
    }

    /// Sets or clears the upload in progress.
    pub fn set_upload_state(&mut self, state: Option<UploadState>)
        ensures
            final(self)@ == (SessionView { upload_state: upload_view(state), ..old(self)@ }),
    {
        proof {
            use_type_invariant(&*self);
        }
        self.upload_state = state;
    }

    /// Sets or clears the download in progress.
    pub fn set_download_state(&mut self, state: Option<DownloadState>)
        ensures
            final(self)@ == (SessionView { download_state: download_view(state), ..old(self)@ }),
    {
        proof {
            use_type_invariant(&*self);
        }
        self.download_state = state;
    }
}

/// One row of the session table.
struct Slot {
    client: String,
    session: Session,
}

/// Whether some row belongs to `client`.
spec fn listed(slots: Seq<Slot>, client: Seq<char>) -> bool {
    exists|i: int| 0 <= i < slots.len() && (#[trigger] slots[i]).client@ == client
}

/// The row that belongs to `client`.
spec fn row_of(slots: Seq<Slot>, client: Seq<char>) -> int {
    choose|i: int| 0 <= i < slots.len() && (#[trigger] slots[i]).client@ == client
}

/// Whether no two rows belong to the same client.
spec fn distinct(slots: Seq<Slot>) -> bool {
    forall|i: int, j: int|
        0 <= i < j < slots.len() ==> (#[trigger] slots[i]).client@ != (#[trigger] slots[j]).client@
}

/// The table that the rows stand for.
spec fn table(slots: Seq<Slot>) -> Map<Seq<char>, SessionView> {
    Map::new(|c: Seq<char>| listed(slots, c), |c: Seq<char>| slots[row_of(slots, c)].session@)
}

/// In a table without duplicates, the row of a client is found under the
/// name of that client.
proof fn lemma_row(slots: Seq<Slot>, i: int)
    requires
        distinct(slots),
        0 <= i < slots.len(),
    ensures
        listed(slots, slots[i].client@),
        row_of(slots, slots[i].client@) == i,
        table(slots).contains_key(slots[i].client@),
        table(slots)[slots[i].client@] == slots[i].session@,
{
    let c = slots[i].client@;
    let j = row_of(slots, c);
    assert(0 <= j < slots.len() && slots[j].client@ == c);
    if j < i {
        assert(slots[j].client@ != slots[i].client@);
    }
    if i < j {
        assert(slots[i].client@ != slots[j].client@);
    }
}

/// What a sweep at time `now` leaves of a table: the sessions that are not
/// idle, unchanged.
pub open spec fn swept(
    sessions: Map<Seq<char>, SessionView>,
    now: u64,
    threshold: u64,
) -> Map<Seq<char>, SessionView> {
    Map::new(
        |c: Seq<char>|
            sessions.contains_key(c) && !is_idle(sessions[c].last_activity, now, threshold),
        |c: Seq<char>| sessions[c],
    )
}

/// The session that a request of `client` meets: the one in the table, or a
/// new one at the root.
pub open spec fn session_for(
    sessions: Map<Seq<char>, SessionView>,
    client: Seq<char>,
    root: Seq<Seq<u8>>,
    now: u64,
) -> SessionView {
    if sessions.contains_key(client) {
        sessions[client]
    } else {
        fresh_session(root, now)
    }
}

/// A session that has been idle for longer than the threshold is gone after
/// the next sweep, and the next request of its client meets a new session
/// at the root, without the transfer that the old one may have held.
pub proof fn lemma_idle_session_starts_over(
    sessions: Map<Seq<char>, SessionView>,
    client: Seq<char>,
    root: Seq<Seq<u8>>,
    sweep_time: u64,
    threshold: u64,
    request_time: u64,
)
    requires
        sessions.contains_key(client),
        is_idle(sessions[client].last_activity, sweep_time, threshold),
    ensures
        !swept(sessions, sweep_time, threshold).contains_key(client),
        session_for(swept(sessions, sweep_time, threshold), client, root, request_time)
            == fresh_session(root, request_time),
        fresh_session(root, request_time).current_directory == root,
        fresh_session(root, request_time).upload_state is None,
        fresh_session(root, request_time).download_state is None,
{
}

/// A sweep keeps exactly the sessions whose last activity lies no more than
/// the threshold before it: one that has been idle for exactly the
/// threshold stays.
pub proof fn lemma_sweep_keeps_up_to_threshold(
    sessions: Map<Seq<char>, SessionView>,
    client: Seq<char>,
    now: u64,
    threshold: u64,
)
    requires
        sessions.contains_key(client),
        sessions[client].last_activity <= now,
    ensures
        swept(sessions, now, threshold).contains_key(client) <==> now
            - sessions[client].last_activity <= threshold,
{
}

/// A sweep leaves every session that is not idle as it was, and brings in
/// none.
pub proof fn lemma_sweep_keeps_active(
    sessions: Map<Seq<char>, SessionView>,
    client: Seq<char>,
    now: u64,
    threshold: u64,
)
    ensures
        swept(sessions, now, threshold).contains_key(client) <==> sessions.contains_key(client)
            && !is_idle(sessions[client].last_activity, now, threshold),
        swept(sessions, now, threshold).contains_key(client) ==> swept(
            sessions,
            now,
            threshold,
        )[client] == sessions[client],
{
}

/// The sessions of the datagram transport, by client identity.
pub struct SessionStore {
    root: DirPath,
    slots: Vec<Slot>,
}

impl View for SessionStore {
    type V = Map<Seq<char>, SessionView>;

    closed spec fn view(&self) -> Map<Seq<char>, SessionView> {
        table(self.slots@)
    }
}

impl SessionStore {
    /// Whether the table is sound: no client has two sessions.
    pub closed spec fn wf(&self) -> bool {
        distinct(self.slots@)
    }

    /// The sandbox root at which new sessions start.
    pub closed spec fn root_view(&self) -> Seq<Seq<u8>> {
        self.root@
    }

    /// An empty table for the sandbox at `root`.
    pub fn new(root: DirPath) -> (store: SessionStore)
        ensures
            store.wf(),
            store.root_view() == root@,
            store@ == Map::<Seq<char>, SessionView>::empty(),
    {
        let store = SessionStore { root, slots: Vec::new() };
        assert(store@ =~= Map::<Seq<char>, SessionView>::empty());
        store
    }

    /// The sandbox root at which new sessions start.
    pub fn root(&self) -> (dir: &DirPath)
        ensures
            dir@ == self.root_view(),
    {
        &self.root
    }

    /// The row of `client`, if it has one.
    fn find(&self, client: &String) -> (found: Option<usize>)
        requires
            self.wf(),
        ensures
            match found {
                Some(i) => i < self.slots@.len() && self.slots@[i as int].client@ == client@
                    && listed(self.slots@, client@) && row_of(self.slots@, client@) == i,
                None => !listed(self.slots@, client@),
            },
    {
        let mut i: usize = 0;
        while i < self.slots.len()
            invariant
                i <= self.slots.len(),
                distinct(self.slots@),
                forall|k: int| 0 <= k < i ==> (#[trigger] self.slots@[k]).client@ != client@,
            decreases self.slots.len() - i,
        {
            if self.slots[i].client == *client {
                proof {
                    lemma_row(self.slots@, i as int);
                }
                return Some(i);
            }
            i += 1;
        }
        None
    }

    /// Whether `client` has a session.
    pub fn contains(&self, client: &str) -> (yes: bool)
        requires
            self.wf(),
        ensures
            yes == self@.contains_key(client@),
    {
        let key = client.to_owned();
        self.find(&key).is_some()
    }

    /// The session of `client`, if it has one.
    pub fn get(&self, client: &str) -> (found: Option<&Session>)
        requires
            self.wf(),
        ensures
            match found {
                Some(session) => self@.contains_key(client@) && session@ == self@[client@],
                None => !self@.contains_key(client@),
            },
    {
        let key = client.to_owned();
        match self.find(&key) {
            Some(i) => Some(&self.slots[i].session),
            None => None,
        }
    }

    /// The session of `client`. Where it has none, a new one is entered
    /// first: at the sandbox root, without transfers, last active at `now`.
    /// The session of every other client stays as it is.
    pub fn get_or_create(&mut self, client: &str, now: u64) -> (session: &mut Session)
        requires
            old(self).wf(),
        ensures
            session@ == session_for(old(self)@, client@, old(self).root_view(), now),
            final(self).wf(),
            final(self).root_view() == old(self).root_view(),
            final(self)@ == old(self)@.insert(client@, final(session)@),
    {
        let key = client.to_owned();
        let idx: usize = match self.find(&key) {
            Some(i) => i,
            None => {
                let session = Session::new(&self.root, now);
                self.slots.push(Slot { client: key, session });
                let last: usize = self.slots.len() - 1;
                proof {
                    assert(distinct(self.slots@)) by {
                        assert forall|i: int, j: int| 0 <= i < j < self.slots@.len() implies (
                        #[trigger] self.slots@[i]).client@ != (#[trigger] self.slots@[j]).client@ by {
                            if j < last {
                                assert(self.slots@[i] == old(self).slots@[i]);
                                assert(self.slots@[j] == old(self).slots@[j]);
                            } else {
                                assert(self.slots@[i] == old(self).slots@[i]);
                            }
                        }
                    }
                    lemma_row(self.slots@, last as int);
                    lemma_table_push(old(self).slots@, self.slots@);
                }
                last
            },
        };
        let ghost before = self.slots@;
        proof {
            lemma_row(before, idx as int);
        }
        let session = &mut self.slots[idx].session;
        proof {
            let after = before.update(
                idx as int,
                Slot { client: before[idx as int].client, session: *final(session) },
            );
            lemma_table_update(before, after, idx as int);
        }
        session
    }
}

impl SessionStore {
    /// Removes every session that is idle at time `now`, and gives the
    /// clients whose sessions were removed. The other sessions stay as they
    /// are.
    pub fn sweep(&mut self, now: u64, idle_threshold: u64) -> (evicted: Vec<String>)
        requires
            old(self).wf(),
        ensures
            final(self).wf(),
            final(self).root_view() == old(self).root_view(),
            final(self)@ == swept(old(self)@, now, idle_threshold),
            forall|c: Seq<char>|
                names(evicted@).contains(c) <==> old(self)@.contains_key(c) && is_idle(
                    old(self)@[c].last_activity,
                    now,
                    idle_threshold,
                ),
            names(evicted@).no_duplicates(),
    {
        let ghost orig = self.slots@;
        let mut kept: Vec<Slot> = Vec::new();
        let mut evicted: Vec<String> = Vec::new();
        let ghost mut kept_from: Seq<int> = Seq::empty();
        let ghost mut evicted_from: Seq<int> = Seq::empty();
        while self.slots.len() > 0
            invariant
                self.root@ == old(self).root@,
                distinct(orig),
                self.slots@.len() <= orig.len(),
                self.slots@ == orig.take(self.slots@.len() as int),
                kept_from.len() == kept@.len(),
                evicted_from.len() == evicted@.len(),
                forall|k: int|
                    0 <= k < kept@.len() ==> self.slots@.len() <= #[trigger] kept_from[k]
                        < orig.len() && kept@[k] == orig[kept_from[k]] && !is_idle(
                        orig[kept_from[k]].session@.last_activity,
                        now,
                        idle_threshold,
                    ),
                forall|k: int, l: int|
                    0 <= k < l < kept@.len() ==> #[trigger] kept_from[k] > #[trigger] kept_from[l],
                forall|k: int|
                    0 <= k < evicted@.len() ==> self.slots@.len() <= #[trigger] evicted_from[k]
                        < orig.len() && evicted@[k]@ == orig[evicted_from[k]].client@ && is_idle(
                        orig[evicted_from[k]].session@.last_activity,
                        now,
                        idle_threshold,
                    ),
                forall|k: int, l: int|
                    0 <= k < l < evicted@.len() ==> #[trigger] evicted_from[k]
                        > #[trigger] evicted_from[l],
                forall|i: int|
                    self.slots@.len() <= i < orig.len() ==> if is_idle(
                        (#[trigger] orig[i]).session@.last_activity,
                        now,
                        idle_threshold,
                    ) {
                        exists|k: int| 0 <= k < evicted@.len() && evicted_from[k] == i
                    } else {
                        exists|k: int| 0 <= k < kept@.len() && kept_from[k] == i
                    },
            decreases self.slots@.len(),
        {
            let ghost n = self.slots@.len() - 1;
            let ghost kept_before = kept_from;
            let ghost evicted_before = evicted_from;
            let slot = self.slots.pop().unwrap();
            assert(slot == orig[n]);
            assert(self.slots@ =~= orig.take(n));
            let last: u64 = slot.session.last_activity();
            if now > last && now - last > idle_threshold {
                evicted.push(slot.client);
                proof {
                    evicted_from = evicted_from.push(n);
                    assert(evicted_from[evicted_before.len() as int] == n);
                    assert forall|i: int| self.slots@.len() <= i < orig.len() implies if is_idle(
                        (#[trigger] orig[i]).session@.last_activity,
                        now,
                        idle_threshold,
                    ) {
                        exists|k: int| 0 <= k < evicted@.len() && evicted_from[k] == i
                    } else {
                        exists|k: int| 0 <= k < kept@.len() && kept_from[k] == i
                    } by {
                        if i > n && is_idle(orig[i].session@.last_activity, now, idle_threshold) {
                            let k = choose|k: int|
                                0 <= k < evicted_before.len() && evicted_before[k] == i;
                            assert(evicted_from[k] == i);
                        }
                    }
                }
            } else {
                kept.push(slot);
                proof {
                    kept_from = kept_from.push(n);
                    assert(kept_from[kept_before.len() as int] == n);
                    assert forall|i: int| self.slots@.len() <= i < orig.len() implies if is_idle(
                        (#[trigger] orig[i]).session@.last_activity,
                        now,
                        idle_threshold,
                    ) {
                        exists|k: int| 0 <= k < evicted@.len() && evicted_from[k] == i
                    } else {
                        exists|k: int| 0 <= k < kept@.len() && kept_from[k] == i
                    } by {
                        if i > n && !is_idle(orig[i].session@.last_activity, now, idle_threshold) {
                            let k = choose|k: int| 0 <= k < kept_before.len() && kept_before[k] == i;
                            assert(kept_from[k] == i);
                        }
                    }
                }
            }
        }
        proof {
            lemma_sweep_result(
                orig,
                kept@,
                kept_from,
                evicted@,
                evicted_from,
                now,
                idle_threshold,
            );
        }
        self.slots = kept;
        evicted
    }
}

/// The character sequences of a list of strings.
pub open spec fn names(list: Seq<String>) -> Seq<Seq<char>> {
    Seq::new(list.len(), |i: int| list[i]@)
}

/// What a sweep has kept and evicted, against the table it started from.
proof fn lemma_sweep_result(
    orig: Seq<Slot>,
    kept: Seq<Slot>,
    kept_from: Seq<int>,
    evicted: Seq<String>,
    evicted_from: Seq<int>,
    now: u64,
    threshold: u64,
)
    requires
        distinct(orig),
        kept_from.len() == kept.len(),
        evicted_from.len() == evicted.len(),
        forall|k: int|
            0 <= k < kept.len() ==> 0 <= #[trigger] kept_from[k] < orig.len() && kept[k]
                == orig[kept_from[k]] && !is_idle(
                orig[kept_from[k]].session@.last_activity,
                now,
                threshold,
            ),
        forall|k: int, l: int|
            0 <= k < l < kept.len() ==> #[trigger] kept_from[k] > #[trigger] kept_from[l],
        forall|k: int|
            0 <= k < evicted.len() ==> 0 <= #[trigger] evicted_from[k] < orig.len()
                && evicted[k]@ == orig[evicted_from[k]].client@ && is_idle(
                orig[evicted_from[k]].session@.last_activity,
                now,
                threshold,
            ),
        forall|k: int, l: int|
            0 <= k < l < evicted.len() ==> #[trigger] evicted_from[k] > #[trigger] evicted_from[l],
        forall|i: int|
            0 <= i < orig.len() ==> if is_idle(
                (#[trigger] orig[i]).session@.last_activity,
                now,
                threshold,
            ) {
                exists|k: int| 0 <= k < evicted.len() && evicted_from[k] == i
            } else {
                exists|k: int| 0 <= k < kept.len() && kept_from[k] == i
            },
    ensures
        distinct(kept),
        table(kept) == swept(table(orig), now, threshold),
        forall|c: Seq<char>|
            names(evicted).contains(c) <==> table(orig).contains_key(c) && is_idle(
                table(orig)[c].last_activity,
                now,
                threshold,
            ),
        names(evicted).no_duplicates(),
{
    assert(names(evicted).no_duplicates()) by {
        assert forall|k: int, l: int|
            0 <= k < names(evicted).len() && 0 <= l < names(evicted).len() && k != l implies names(
                evicted,
            )[k] != names(evicted)[l] by {
            let a = evicted_from[k];
            let b = evicted_from[l];
            if k < l {
                assert(b < a);
                assert(orig[b].client@ != orig[a].client@);
            } else {
                assert(a < b);
                assert(orig[a].client@ != orig[b].client@);
            }
        }
    }
    assert(distinct(kept)) by {
        assert forall|k: int, l: int| 0 <= k < l < kept.len() implies (#[trigger] kept[k]).client@
            != (#[trigger] kept[l]).client@ by {
            let a = kept_from[l];
            let b = kept_from[k];
            assert(a < b);
            assert(orig[a].client@ != orig[b].client@);
        }
    }
    let goal = swept(table(orig), now, threshold);
    assert forall|c: Seq<char>| listed(kept, c) <==> goal.contains_key(c) by {
        if listed(kept, c) {
            let k = row_of(kept, c);
            lemma_row(orig, kept_from[k]);
        }
        if goal.contains_key(c) {
            let i = row_of(orig, c);
            lemma_row(orig, i);
            let k = choose|k: int| 0 <= k < kept.len() && kept_from[k] == i;
            assert(kept[k].client@ == c);
        }
    }
    assert forall|c: Seq<char>| listed(kept, c) implies table(kept)[c] == goal[c] by {
        let k = row_of(kept, c);
        lemma_row(kept, k);
        lemma_row(orig, kept_from[k]);
    }
    assert(table(kept) =~= goal);
    assert forall|c: Seq<char>|
        names(evicted).contains(c) <==> table(orig).contains_key(c) && is_idle(
            table(orig)[c].last_activity,
            now,
            threshold,
        ) by {
        if names(evicted).contains(c) {
            let k = choose|k: int| 0 <= k < names(evicted).len() && names(evicted)[k] == c;
            lemma_row(orig, evicted_from[k]);
        }
        if table(orig).contains_key(c) && is_idle(table(orig)[c].last_activity, now, threshold) {
            let i = row_of(orig, c);
            lemma_row(orig, i);
            let k = choose|k: int| 0 <= k < evicted.len() && evicted_from[k] == i;
            assert(names(evicted)[k] == c);
        }
    }
}

/// Adding a row for a client that has none adds that client to the table.
proof fn lemma_table_push(before: Seq<Slot>, after: Seq<Slot>)
    requires
        after.len() == before.len() + 1,
        forall|i: int| 0 <= i < before.len() ==> after[i] == before[i],
        distinct(after),
    ensures
        table(after) == table(before).insert(after.last().client@, after.last().session@),
{
    let c0 = after.last().client@;
    let last = after.len() - 1;
    lemma_row(after, last);
    assert(distinct(before)) by {
        assert forall|i: int, j: int| 0 <= i < j < before.len() implies (#[trigger] before[i]).client@
            != (#[trigger] before[j]).client@ by {
            assert(after[i] == before[i] && after[j] == before[j]);
        }
    }
    assert forall|c: Seq<char>| listed(after, c) <==> (c == c0 || listed(before, c)) by {
        if listed(after, c) {
            let i = row_of(after, c);
            if i < last {
                assert(before[i].client@ == c);
            }
        }
        if listed(before, c) {
            let i = row_of(before, c);
            assert(after[i].client@ == c);
        }
    }
    assert forall|c: Seq<char>| listed(before, c) && c != c0 implies table(after)[c] == table(
        before,
    )[c] by {
        let i = row_of(before, c);
        lemma_row(before, i);
        assert(after[i] == before[i]);
        lemma_row(after, i);
    }
    assert(table(after) =~= table(before).insert(c0, after.last().session@));
}

/// Replacing the session in one row replaces it in the table.
proof fn lemma_table_update(before: Seq<Slot>, after: Seq<Slot>, idx: int)
    requires
        distinct(before),
        0 <= idx < before.len(),
        after.len() == before.len(),
        after[idx].client@ == before[idx].client@,
        forall|i: int| 0 <= i < before.len() && i != idx ==> after[i] == before[i],
    ensures
        distinct(after),
        table(after) == table(before).insert(before[idx].client@, after[idx].session@),
{
    let c0 = before[idx].client@;
    assert forall|i: int| 0 <= i < before.len() implies (#[trigger] after[i]).client@
        == before[i].client@ by {
        if i != idx {
            assert(after[i] == before[i]);
        }
    }
    assert(distinct(after)) by {
        assert forall|i: int, j: int| 0 <= i < j < after.len() implies (#[trigger] after[i]).client@
            != (#[trigger] after[j]).client@ by {
            assert(before[i].client@ != before[j].client@);
        }
    }
    lemma_row(before, idx);
    lemma_row(after, idx);
    assert forall|c: Seq<char>| listed(after, c) <==> listed(before, c) by {
        if listed(after, c) {
            let i = row_of(after, c);
            assert(before[i].client@ == c);
        }
        if listed(before, c) {
            let i = row_of(before, c);
            assert(after[i].client@ == c);
        }
    }
    assert forall|c: Seq<char>| listed(before, c) && c != c0 implies table(after)[c] == table(
        before,
    )[c] by {
        let i = row_of(before, c);
        lemma_row(before, i);
        assert(after[i] == before[i]);
        lemma_row(after, i);
    }
    assert(table(after) =~= table(before).insert(c0, after[idx].session@));
}

} // verus!
