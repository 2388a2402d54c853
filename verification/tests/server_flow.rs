use shell_protocol::action::{Action, Followup, Outcome, Pending, Reply, Step, Transport};
use shell_protocol::client::{ChunkedUpload, UploadStep};
use shell_protocol::message::{DirEntry, Request, Response};
use shell_protocol::request_codec::encode_request;
use shell_protocol::response_codec::{decode_response, encode_response};
use shell_protocol::sandbox::DirPath;
use shell_protocol::server::{
    accept_datagram, complete_datagram, describe_decode_error, finish_request, fit_datagram,
    plan_request, receive_datagram, MAX_PACKET_SIZE, MAX_PAYLOAD_SIZE,
};
use shell_protocol::session::{
    DownloadState, Session, SessionStore, UploadState, IDLE_THRESHOLD_SECS,
};
use shell_protocol::stream::{RawTransfer, StreamError, STREAM_BUFFER_SIZE};
use shell_protocol::transfer::{display_name, CHUNK_SIZE};
use shell_protocol::wire::DecodeFailure;
use std::collections::{BTreeMap, BTreeSet};

const ROOT: &str = "/srv/root";

/// A filesystem held in memory, for the tests to serve requests against.
struct FakeFs {
    dirs: BTreeSet<String>,
    files: BTreeMap<String, Vec<u8>>,
    uploads: BTreeMap<String, String>,
    downloads: BTreeMap<String, (String, usize)>,
}

fn normalise(text: &[u8]) -> String {
    let text = String::from_utf8(text.to_vec()).unwrap();
    let mut parts: Vec<&str> = Vec::new();
    for part in text.split('/') {
        match part {
            "" | "." => {}
            ".." => {
                parts.pop();
            }
            name => parts.push(name),
        }
    }
    format!("/{}", parts.join("/"))
}

fn parent_of(path: &str) -> String {
    match path.rfind('/') {
        Some(0) | None => "/".to_string(),
        Some(at) => path[..at].to_string(),
    }
}

fn name_of(path: &str) -> String {
    path[path.rfind('/').map(|at| at + 1).unwrap_or(0)..].to_string()
}

fn missing() -> Outcome {
    Outcome::Failed("No such file or directory".to_string())
}

impl FakeFs {
    fn new() -> FakeFs {
        let mut dirs = BTreeSet::new();
        dirs.insert("/".to_string());
        dirs.insert("/srv".to_string());
        dirs.insert(ROOT.to_string());
        FakeFs { dirs, files: BTreeMap::new(), uploads: BTreeMap::new(), downloads: BTreeMap::new() }
    }

    fn perform(&mut self, client: &str, action: Action) -> Outcome {
        match action {
            Action::ListDir { dir } => {
                let dir = normalise(&dir);
                if !self.dirs.contains(&dir) {
                    return missing();
                }
                let mut entries = Vec::new();
                for d in &self.dirs {
                    if d != "/" && parent_of(d) == dir {
                        entries.push(DirEntry { name: name_of(d), is_dir: true });
                    }
                }
                for f in self.files.keys() {
                    if parent_of(f) == dir {
                        entries.push(DirEntry { name: name_of(f), is_dir: false });
                    }
                }
                Outcome::Listed(entries)
            }
            Action::ProbeDir { dir } => Outcome::IsDir(self.dirs.contains(&normalise(&dir))),
            Action::CreateDir { dir } => {
                let dir = normalise(&dir);
                if !self.dirs.contains(&parent_of(&dir)) {
                    return missing();
                }
                if self.dirs.contains(&dir) || self.files.contains_key(&dir) {
                    return Outcome::Failed("File exists".to_string());
                }
                self.dirs.insert(dir);
                Outcome::Done
            }
            Action::CopyFile { src, dst } => {
                let (src, dst) = (normalise(&src), normalise(&dst));
                let data = match self.files.get(&src) {
                    Some(data) => data.clone(),
                    None => return missing(),
                };
                if !self.dirs.contains(&parent_of(&dst)) {
                    return missing();
                }
                let copied = data.len() as u64;
                self.files.insert(dst, data);
                Outcome::Copied(copied)
            }
            Action::CreateFile { path } => {
                let path = normalise(&path);
                if self.dirs.contains(&path) {
                    return Outcome::Failed("Is a directory".to_string());
                }
                let mut up = parent_of(&path);
                while !self.dirs.contains(&up) {
                    self.dirs.insert(up.clone());
                    up = parent_of(&up);
                }
                self.files.insert(path.clone(), Vec::new());
                self.uploads.insert(client.to_string(), path);
                Outcome::Done
            }
            Action::OpenFile { path } => {
                let path = normalise(&path);
                match self.files.get(&path) {
                    Some(data) => {
                        let size = data.len() as u64;
                        self.downloads.insert(client.to_string(), (path, 0));
                        Outcome::Opened { size }
                    }
                    None => missing(),
                }
            }
            Action::AppendChunk { data, finish } => {
                let path = match self.uploads.get(client) {
                    Some(path) => path.clone(),
                    None => return Outcome::Failed("Bad file descriptor".to_string()),
                };
                self.files.get_mut(&path).unwrap().extend_from_slice(&data);
                if finish {
                    self.uploads.remove(client);
                }
                Outcome::Done
            }
            Action::ReadChunk { limit } => {
                let (path, pos) = match self.downloads.get(client) {
                    Some(at) => at.clone(),
                    None => return Outcome::Failed("Bad file descriptor".to_string()),
                };
                let data = &self.files[&path];
                let end = std::cmp::min(pos + limit, data.len());
                let chunk = data[pos..end].to_vec();
                self.downloads.insert(client.to_string(), (path, end));
                Outcome::Data(chunk)
            }
        }
    }
}

fn root() -> DirPath {
    DirPath::from_absolute(ROOT).unwrap()
}

fn text(s: &str) -> String {
    s.to_string()
}

fn error(s: &str) -> Response {
    Response::Error(s.to_string())
}

fn cwd(session: &Session) -> String {
    String::from_utf8(session.current_directory().to_bytes()).unwrap()
}

fn serve(session: &mut Session, transport: Transport, fs: &mut FakeFs, request: Request) -> Reply {
    match plan_request(session, transport, request) {
        Step::Reply(response) => Reply { response, followup: Followup::Nothing },
        Step::Perform { action, pending } => {
            let outcome = fs.perform("stream", action);
            finish_request(session, transport, pending, outcome)
        }
    }
}

fn ask(session: &mut Session, fs: &mut FakeFs, request: Request) -> Response {
    serve(session, Transport::Stream, fs, request).response
}

/// One round of the datagram server: the request travels as bytes, and so
/// does the response.
fn exchange(
    store: &mut SessionStore,
    fs: &mut FakeFs,
    client: &str,
    now: u64,
    request: &Request,
) -> Response {
    let datagram = encode_request(request);
    let (evicted, step) = accept_datagram(store, client, now, &datagram);
    for gone in evicted {
        fs.uploads.remove(&gone);
        fs.downloads.remove(&gone);
    }
    let response = match step {
        Step::Reply(response) => response,
        Step::Perform { action, pending } => {
            let outcome = fs.perform(client, action);
            complete_datagram(store, client, now, pending, outcome).response
        }
    };
    let payload = fit_datagram(&response);
    assert!(payload.len() <= MAX_PAYLOAD_SIZE);
    decode_response(&payload).unwrap().0
}

fn pattern(n: usize) -> Vec<u8> {
    (0..n).map(|i| (i * 31 % 251) as u8).collect()
}

#[test]
fn mkdir_cd_dir_scenario() {
    let mut fs = FakeFs::new();
    let mut session = Session::new(&root(), 0);
    assert_eq!(ask(&mut session, &mut fs, Request::Mkdir { name: text("a") }), Response::Success);
    assert_eq!(ask(&mut session, &mut fs, Request::Cd { path: text("a") }), Response::Success);
    assert_eq!(cwd(&session), "/srv/root/a");
    assert_eq!(ask(&mut session, &mut fs, Request::Dir), Response::DirList(vec![]));
    assert_eq!(ask(&mut session, &mut fs, Request::Mkdir { name: text("b") }), Response::Success);
    assert_eq!(
        ask(&mut session, &mut fs, Request::Dir),
        Response::DirList(vec![DirEntry { name: text("b"), is_dir: true }])
    );
}

#[test]
fn mkdir_cd_dir_scenario_over_datagrams() {
    let mut fs = FakeFs::new();
    let mut store = SessionStore::new(root());
    let c = "192.0.2.1:4000";
    assert_eq!(exchange(&mut store, &mut fs, c, 1, &Request::Mkdir { name: text("a") }), Response::Success);
    assert_eq!(exchange(&mut store, &mut fs, c, 2, &Request::Cd { path: text("a") }), Response::Success);
    assert_eq!(exchange(&mut store, &mut fs, c, 3, &Request::Dir), Response::DirList(vec![]));
    assert_eq!(exchange(&mut store, &mut fs, c, 4, &Request::Mkdir { name: text("b") }), Response::Success);
    assert_eq!(
        exchange(&mut store, &mut fs, c, 5, &Request::Dir),
        Response::DirList(vec![DirEntry { name: text("b"), is_dir: true }])
    );
    assert_eq!(store.get(c).unwrap().last_activity(), 5);
    assert_eq!(cwd(store.get(c).unwrap()), "/srv/root/a");
}

#[test]
fn copy_of_a_missing_file_scenario() {
    let mut fs = FakeFs::new();
    let mut session = Session::new(&root(), 0);
    let response =
        ask(&mut session, &mut fs, Request::Copy { src: text("missing.txt"), dst: text("out.txt") });
    assert_eq!(response, error("copy failed: No such file or directory"));
    assert!(!fs.files.contains_key("/srv/root/out.txt"));
    assert_eq!(ask(&mut session, &mut fs, Request::Dir), Response::DirList(vec![]));
}

#[test]
fn copy_reports_the_bytes_copied() {
    let mut fs = FakeFs::new();
    fs.files.insert("/srv/root/in.txt".to_string(), vec![1, 2, 3, 4, 5]);
    let mut session = Session::new(&root(), 0);
    assert_eq!(
        ask(&mut session, &mut fs, Request::Copy { src: text("in.txt"), dst: text("out.txt") }),
        Response::CopyResult { bytes_copied: 5 }
    );
    assert_eq!(fs.files["/srv/root/out.txt"], vec![1, 2, 3, 4, 5]);
}

#[test]
fn requests_name_the_paths_for_the_host() {
    let mut session = Session::new(&root(), 0);
    assert_eq!(
        plan_request(&mut session, Transport::Stream, Request::Dir),
        Step::Perform { action: Action::ListDir { dir: b"/srv/root".to_vec() }, pending: Pending::List }
    );
    assert_eq!(
        plan_request(&mut session, Transport::Stream, Request::Mkdir { name: text("x/y") }),
        Step::Perform {
            action: Action::CreateDir { dir: b"/srv/root/x/y".to_vec() },
            pending: Pending::Mkdir
        }
    );
    assert_eq!(
        plan_request(
            &mut session,
            Transport::Datagram,
            Request::Copy { src: text("../a"), dst: text("/tmp/b") }
        ),
        Step::Perform {
            action: Action::CopyFile { src: b"/srv/root/../a".to_vec(), dst: b"/tmp/b".to_vec() },
            pending: Pending::Copy
        }
    );
    assert_eq!(
        plan_request(&mut session, Transport::Stream, Request::Cd { path: text("a/../b") }),
        Step::Perform {
            action: Action::ProbeDir { dir: b"/srv/root/b".to_vec() },
            pending: Pending::Cd { target: DirPath::from_absolute("/srv/root/b").unwrap() }
        }
    );
    assert_eq!(cwd(&session), ROOT);
}

#[test]
fn cd_up_at_the_root_is_refused() {
    let mut fs = FakeFs::new();
    let mut session = Session::new(&root(), 0);
    assert_eq!(ask(&mut session, &mut fs, Request::CdUp), error("Cannot go above root"));
    assert_eq!(cwd(&session), ROOT);
    let mut top = Session::new(&DirPath::filesystem_root(), 0);
    assert_eq!(ask(&mut top, &mut fs, Request::CdUp), error("No parent"));
    assert_eq!(cwd(&top), "/");
}

#[test]
fn cd_up_from_a_child_returns_to_the_root() {
    let mut fs = FakeFs::new();
    fs.dirs.insert("/srv/root/a".to_string());
    fs.dirs.insert("/srv/root/a/b".to_string());
    let mut session = Session::new(&root(), 0);
    assert_eq!(ask(&mut session, &mut fs, Request::Cd { path: text("a/b") }), Response::Success);
    assert_eq!(ask(&mut session, &mut fs, Request::CdUp), Response::Success);
    assert_eq!(cwd(&session), "/srv/root/a");
    assert_eq!(ask(&mut session, &mut fs, Request::CdUp), Response::Success);
    assert_eq!(cwd(&session), ROOT);
    assert_eq!(ask(&mut session, &mut fs, Request::CdUp), error("Cannot go above root"));
}

#[test]
fn cd_succeeds_exactly_on_existing_directories() {
    let mut fs = FakeFs::new();
    fs.dirs.insert("/srv/root/a".to_string());
    fs.files.insert("/srv/root/f.txt".to_string(), vec![]);
    let mut session = Session::new(&root(), 0);
    let refusal = error("Invalid path or not a directory");
    assert_eq!(ask(&mut session, &mut fs, Request::Cd { path: text("nowhere") }), refusal);
    assert_eq!(ask(&mut session, &mut fs, Request::Cd { path: text("f.txt") }), refusal);
    assert_eq!(cwd(&session), ROOT);
    assert_eq!(ask(&mut session, &mut fs, Request::Cd { path: text("a") }), Response::Success);
    assert_eq!(cwd(&session), "/srv/root/a");
}

#[test]
fn cd_out_of_the_sandbox_is_refused_without_asking_the_host() {
    let mut session = Session::new(&root(), 0);
    for path in ["..", "../..", "a/../..", "../root", "/etc", "/srv", "/"] {
        let step = plan_request(&mut session, Transport::Stream, Request::Cd { path: text(path) });
        assert_eq!(step, Step::Reply(error("Invalid path or not a directory")));
        assert_eq!(cwd(&session), ROOT);
    }
}

#[test]
fn a_forged_target_outside_the_sandbox_is_refused() {
    let mut session = Session::new(&root(), 0);
    let pending = Pending::Cd { target: DirPath::from_absolute("/etc").unwrap() };
    let reply = finish_request(&mut session, Transport::Stream, pending, Outcome::IsDir(true));
    assert_eq!(reply.response, error("Invalid path or not a directory"));
    assert_eq!(cwd(&session), ROOT);
}

#[test]
fn failures_of_the_host_are_reported_with_their_reason() {
    let mut session = Session::new(&root(), 0);
    let failed = || Outcome::Failed(text("Permission denied"));
    let finish = |session: &mut Session, pending: Pending, outcome: Outcome| {
        finish_request(session, Transport::Datagram, pending, outcome).response
    };
    assert_eq!(finish(&mut session, Pending::List, failed()), error("read_dir failed: Permission denied"));
    assert_eq!(finish(&mut session, Pending::Mkdir, failed()), error("mkdir failed: Permission denied"));
    assert_eq!(finish(&mut session, Pending::Copy, failed()), error("copy failed: Permission denied"));
    assert_eq!(
        finish(&mut session, Pending::Cd { target: root() }, failed()),
        error("Invalid path or not a directory")
    );
    assert_eq!(
        finish(&mut session, Pending::Upload { file_path: b"/x".to_vec(), size: 1 }, failed()),
        error("Cannot create file: Permission denied")
    );
    assert_eq!(
        finish(&mut session, Pending::Download { file_name: text("x") }, failed()),
        error("Open failed: Permission denied")
    );
    assert_eq!(session.upload_state(), &None);
    assert_eq!(session.download_state(), &None);
    assert_eq!(cwd(&session), ROOT);
}

#[test]
fn an_outcome_of_the_wrong_kind_is_answered_with_an_error() {
    let mut session = Session::new(&root(), 0);
    let unexpected = error("Unexpected filesystem outcome");
    let reply = finish_request(&mut session, Transport::Stream, Pending::List, Outcome::Done);
    assert_eq!(reply, Reply { response: unexpected.clone(), followup: Followup::Nothing });
    let reply = finish_request(&mut session, Transport::Stream, Pending::Mkdir, Outcome::Copied(1));
    assert_eq!(reply.response, unexpected);
    let pending = Pending::Upload { file_path: b"/srv/root/f".to_vec(), size: 3 };
    let reply = finish_request(&mut session, Transport::Datagram, pending, Outcome::IsDir(true));
    assert_eq!(reply.response, unexpected);
    let pending = Pending::DownloadChunk { chunk_id: 0 };
    let reply = finish_request(&mut session, Transport::Datagram, pending, Outcome::Done);
    assert_eq!(reply.response, unexpected);
    assert_eq!(session.upload_state(), &None);
}

#[test]
fn chunk_requests_have_no_place_on_the_stream_transport() {
    let mut session = Session::new(&root(), 0);
    let refusal = Step::Reply(error("Unexpected request in FS handler"));
    let chunk = Request::UploadChunk { chunk_id: 0, data: vec![1], is_last: true };
    assert_eq!(plan_request(&mut session, Transport::Stream, chunk), refusal);
    let chunk = Request::DownloadChunk { chunk_id: 0 };
    assert_eq!(plan_request(&mut session, Transport::Stream, chunk), refusal);
}

#[test]
fn chunks_without_a_transfer_are_refused() {
    let mut fs = FakeFs::new();
    let mut store = SessionStore::new(root());
    let chunk = Request::UploadChunk { chunk_id: 0, data: vec![1, 2], is_last: true };
    assert_eq!(exchange(&mut store, &mut fs, "c", 1, &chunk), error("No active upload session"));
    let chunk = Request::DownloadChunk { chunk_id: 0 };
    assert_eq!(exchange(&mut store, &mut fs, "c", 2, &chunk), error("No active download session"));
}

#[test]
fn undecodable_datagrams_touch_no_session() {
    let mut store = SessionStore::new(root());
    let step = receive_datagram(&mut store, "c", 1, &[200]);
    assert_eq!(step, Step::Reply(error("Invalid request: unexpected variant")));
    let step = receive_datagram(&mut store, "c", 1, &[]);
    assert_eq!(step, Step::Reply(error("Invalid request: unexpected end of input")));
    let step = receive_datagram(&mut store, "c", 1, &[2, 1, 0xff]);
    assert_eq!(step, Step::Reply(error("Invalid request: invalid UTF-8 in string")));
    let step = receive_datagram(&mut store, "c", 1, &[7, 0, 0, 9]);
    assert_eq!(step, Step::Reply(error("Invalid request: invalid boolean value")));
    let step = receive_datagram(&mut store, "c", 1, &[255]);
    assert_eq!(step, Step::Reply(error("Invalid request: invalid integer encoding")));
    assert!(!store.contains("c"));
    assert_eq!(describe_decode_error(DecodeFailure::LengthOutOfRange), "length out of range");
}

#[test]
fn clients_do_not_share_their_directory() {
    let mut fs = FakeFs::new();
    fs.dirs.insert("/srv/root/a".to_string());
    let mut store = SessionStore::new(root());
    assert_eq!(exchange(&mut store, &mut fs, "one", 1, &Request::Cd { path: text("a") }), Response::Success);
    assert_eq!(exchange(&mut store, &mut fs, "two", 2, &Request::CdUp), error("Cannot go above root"));
    assert_eq!(cwd(store.get("one").unwrap()), "/srv/root/a");
    assert_eq!(cwd(store.get("two").unwrap()), ROOT);
}

#[test]
fn uploads_go_below_the_current_directory() {
    let mut session = Session::new(&root(), 0);
    let plan = |session: &mut Session, dst: &str, name: &str| {
        let request = Request::Upload { dst_path: text(dst), file_name: text(name), size: 9 };
        match plan_request(session, Transport::Datagram, request) {
            Step::Perform { action: Action::CreateFile { path }, pending } => {
                assert_eq!(pending, Pending::Upload { file_path: path.clone(), size: 9 });
                String::from_utf8(path).unwrap()
            }
            other => panic!("unexpected step {:?}", other),
        }
    };
    assert_eq!(plan(&mut session, ".", "f.bin"), "/srv/root/f.bin");
    assert_eq!(plan(&mut session, "", "f.bin"), "/srv/root/f.bin");
    assert_eq!(plan(&mut session, "sub/dir", "f.bin"), "/srv/root/sub/dir/f.bin");
    assert_eq!(plan(&mut session, "./", "f.bin"), "/srv/root/./f.bin");
    assert_eq!(plan(&mut session, "/abs", "f.bin"), "/abs/f.bin");
}

#[test]
fn downloads_announce_the_name_of_the_file() {
    assert_eq!(display_name(b"/srv/root/docs/a.txt"), "a.txt");
    assert_eq!(display_name(b"/srv/root/docs/"), "docs");
    assert_eq!(display_name(b"/srv/root/.."), "file");
    assert_eq!(display_name(b"/"), "file");
    assert_eq!(display_name(b"/srv/\xff\xfe"), "file");
    let mut session = Session::new(&root(), 0);
    let request = Request::Download { src_path: text("docs/a.txt") };
    assert_eq!(
        plan_request(&mut session, Transport::Stream, request),
        Step::Perform {
            action: Action::OpenFile { path: b"/srv/root/docs/a.txt".to_vec() },
            pending: Pending::Download { file_name: text("a.txt") }
        }
    );
}

#[test]
fn a_download_of_a_missing_file_fails() {
    let mut fs = FakeFs::new();
    let mut session = Session::new(&root(), 0);
    let reply = serve(&mut session, Transport::Stream, &mut fs, Request::Download { src_path: text("nope") });
    assert_eq!(
        reply,
        Reply { response: error("Open failed: No such file or directory"), followup: Followup::Nothing }
    );
}

fn stream_round_trip(n: usize) {
    let content = pattern(n);
    let mut fs = FakeFs::new();
    let mut session = Session::new(&root(), 0);

    let announce = Request::Upload { dst_path: text("in"), file_name: text("f.bin"), size: n as u64 };
    let reply = serve(&mut session, Transport::Stream, &mut fs, announce);
    assert_eq!(
        reply,
        Reply { response: Response::Success, followup: Followup::ReceiveFile { size: n as u64 } }
    );
    assert_eq!(session.upload_state(), &None);
    let mut incoming = RawTransfer::new(n as u64);
    let mut sent = 0;
    let mut reads = 0;
    while !incoming.is_complete() {
        let want = incoming.next_read();
        assert!(want > 0 && want <= STREAM_BUFFER_SIZE);
        let block = content[sent..sent + want].to_vec();
        sent += want;
        reads += 1;
        let finish = incoming.record(want).unwrap();
        fs.perform("stream", Action::AppendChunk { data: block, finish });
    }
    assert_eq!(sent, n);
    assert_eq!(reads, (n + STREAM_BUFFER_SIZE - 1) / STREAM_BUFFER_SIZE);
    assert_eq!(fs.files["/srv/root/in/f.bin"], content);

    let reply =
        serve(&mut session, Transport::Stream, &mut fs, Request::Download { src_path: text("in/f.bin") });
    assert_eq!(
        reply,
        Reply {
            response: Response::FileMetadata { name: text("f.bin"), size: n as u64 },
            followup: Followup::SendFile { size: n as u64 }
        }
    );
    assert_eq!(session.download_state(), &None);
    let mut outgoing = RawTransfer::new(n as u64);
    let mut received = Vec::new();
    while !outgoing.is_complete() {
        let want = outgoing.next_read();
        match fs.perform("stream", Action::ReadChunk { limit: want }) {
            Outcome::Data(block) => {
                outgoing.record(block.len()).unwrap();
                received.extend_from_slice(&block);
            }
            other => panic!("unexpected outcome {:?}", other),
        }
    }
    assert_eq!(received, content);
}

#[test]
fn streamed_files_come_back_unchanged() {
    for n in [0usize, 1, 8191, 8192, 8193, 1 << 20] {
        stream_round_trip(n);
    }
}

#[test]
fn a_stream_that_ends_early_is_an_error() {
    let mut transfer = RawTransfer::new(10_000);
    assert_eq!(transfer.next_read(), 8192);
    assert_eq!(transfer.record(8192), Ok(false));
    assert_eq!(transfer.next_read(), 1808);
    assert_eq!(
        transfer.record(0),
        Err(StreamError::UnexpectedEof { received: 8192, expected: 10_000 })
    );
    assert_eq!(transfer.remaining(), 1808);
    assert_eq!(transfer.received(), 8192);
    assert_eq!(transfer.size(), 10_000);
    assert_eq!(transfer.record(1809), Err(StreamError::Overrun));
    assert_eq!(transfer.record(1000), Ok(false));
    assert_eq!(transfer.record(808), Ok(true));
    assert!(transfer.is_complete());
    assert_eq!(transfer.next_read(), 0);
    assert_eq!(transfer.record(0), Ok(true));
    assert_eq!(transfer.record(1), Err(StreamError::Overrun));
}

#[test]
fn an_empty_transfer_is_complete_at_once() {
    let mut transfer = RawTransfer::new(0);
    assert!(transfer.is_complete());
    assert_eq!(transfer.next_read(), 0);
    assert_eq!(transfer.record(0), Ok(true));
}

fn chunked_round_trip(n: usize) {
    let content = pattern(n);
    let mut fs = FakeFs::new();
    let mut store = SessionStore::new(root());
    let c = "198.51.100.7:9999";
    let mut now = 10;

    let announce = Request::Upload { dst_path: text("."), file_name: text("f.bin"), size: n as u64 };
    assert_eq!(exchange(&mut store, &mut fs, c, now, &announce), Response::Success);
    let state = store.get(c).unwrap().upload_state().clone().unwrap();
    assert_eq!(state.file_path, b"/srv/root/f.bin".to_vec());
    assert_eq!((state.expected_size, state.received_bytes), (n as u64, 0));

    let mut upload = ChunkedUpload::new(n as u64);
    let mut chunks = 0;
    for block in content.chunks(CHUNK_SIZE) {
        now += 1;
        let chunk = match upload.next_step(block.to_vec()) {
            UploadStep::Send(chunk) => chunk,
            UploadStep::Finished => panic!("a block that is not empty ended the upload"),
        };
        chunks += 1;
        let final_one = chunks * CHUNK_SIZE >= n;
        assert!(matches!(chunk, Request::UploadChunk { is_last, .. } if is_last == final_one));
        let response = exchange(&mut store, &mut fs, c, now, &chunk);
        assert_eq!(upload.acknowledge(response), Ok(final_one));
        let state = store.get(c).unwrap().upload_state();
        if final_one {
            assert_eq!(state, &None);
            assert!(fs.uploads.is_empty());
        } else {
            assert_eq!(state.as_ref().unwrap().received_bytes, upload.total_sent);
        }
    }
    assert_eq!(chunks, (n + CHUNK_SIZE - 1) / CHUNK_SIZE);
    assert_eq!(upload.total_sent, n as u64);
    assert_eq!(upload.next_step(Vec::new()), UploadStep::Finished);
    assert_eq!(fs.files["/srv/root/f.bin"], content);

    now += 1;
    let request = Request::Download { src_path: text("f.bin") };
    assert_eq!(
        exchange(&mut store, &mut fs, c, now, &request),
        Response::FileMetadata { name: text("f.bin"), size: n as u64 }
    );
    let state = store.get(c).unwrap().download_state().clone().unwrap();
    assert_eq!((state.file_name, state.file_size, state.sent_chunks), (text("f.bin"), n as u64, 0));
    let mut received = Vec::new();
    let mut id = 0u32;
    loop {
        now += 1;
        let response = exchange(&mut store, &mut fs, c, now, &Request::DownloadChunk { chunk_id: id });
        match response {
            Response::FileChunk { chunk_id, data, is_last } => {
                assert_eq!(chunk_id, id);
                assert_eq!(is_last, data.len() < CHUNK_SIZE);
                received.extend_from_slice(&data);
                if is_last {
                    break;
                }
                let sent = store.get(c).unwrap().download_state().as_ref().unwrap().sent_chunks;
                assert_eq!(sent, id + 1);
            }
            other => panic!("unexpected response {:?}", other),
        }
        id += 1;
    }
    assert_eq!(id as usize, n / CHUNK_SIZE);
    assert_eq!(received, content);
    assert_eq!(store.get(c).unwrap().download_state(), &None);
    now += 1;
    assert_eq!(
        exchange(&mut store, &mut fs, c, now, &Request::DownloadChunk { chunk_id: id + 1 }),
        error("No active download session")
    );
}

#[test]
fn chunked_files_come_back_unchanged() {
    for n in [0usize, 1, 8191, 8192, 8193, 20_000, 3 * 8192, 1 << 20] {
        chunked_round_trip(n);
    }
}

#[test]
fn a_failed_write_closes_the_upload() {
    let mut session = Session::new(&root(), 0);
    let pending = Pending::Upload { file_path: b"/srv/root/f".to_vec(), size: 100 };
    let reply = finish_request(&mut session, Transport::Datagram, pending, Outcome::Done);
    assert_eq!(reply.response, Response::Success);
    assert!(session.upload_state().is_some());
    let pending = Pending::UploadChunk { chunk_id: 0, len: 10, is_last: false };
    let outcome = Outcome::Failed(text("No space left on device"));
    let reply = finish_request(&mut session, Transport::Datagram, pending, outcome);
    assert_eq!(reply.response, error("Write error: No space left on device"));
    assert_eq!(session.upload_state(), &None);
}

#[test]
fn a_failed_read_closes_the_download() {
    let mut session = Session::new(&root(), 0);
    let pending = Pending::Download { file_name: text("f") };
    let reply = finish_request(&mut session, Transport::Datagram, pending, Outcome::Opened { size: 7 });
    assert_eq!(reply.response, Response::FileMetadata { name: text("f"), size: 7 });
    assert!(session.download_state().is_some());
    let pending = Pending::DownloadChunk { chunk_id: 0 };
    let outcome = Outcome::Failed(text("Input/output error"));
    let reply = finish_request(&mut session, Transport::Datagram, pending, outcome);
    assert_eq!(reply.response, error("Read error: Input/output error"));
    assert_eq!(session.download_state(), &None);
}

#[test]
fn chunk_numbers_are_echoed_not_checked() {
    let mut fs = FakeFs::new();
    fs.files.insert("/srv/root/f".to_string(), pattern(CHUNK_SIZE + 5));
    let mut store = SessionStore::new(root());
    exchange(&mut store, &mut fs, "c", 1, &Request::Download { src_path: text("f") });
    let response = exchange(&mut store, &mut fs, "c", 2, &Request::DownloadChunk { chunk_id: 77 });
    assert_eq!(
        response,
        Response::FileChunk { chunk_id: 77, data: pattern(CHUNK_SIZE + 5)[..CHUNK_SIZE].to_vec(), is_last: false }
    );
    let response = exchange(&mut store, &mut fs, "c", 3, &Request::DownloadChunk { chunk_id: 3 });
    assert_eq!(
        response,
        Response::FileChunk { chunk_id: 3, data: pattern(CHUNK_SIZE + 5)[CHUNK_SIZE..].to_vec(), is_last: true }
    );
}

#[test]
fn an_upload_and_a_download_may_be_open_together() {
    let mut fs = FakeFs::new();
    fs.files.insert("/srv/root/f".to_string(), pattern(10));
    let mut store = SessionStore::new(root());
    let announce = Request::Upload { dst_path: text("."), file_name: text("g"), size: 3 };
    assert_eq!(exchange(&mut store, &mut fs, "c", 1, &announce), Response::Success);
    exchange(&mut store, &mut fs, "c", 2, &Request::Download { src_path: text("f") });
    let session = store.get("c").unwrap();
    assert!(session.upload_state().is_some());
    assert!(session.download_state().is_some());
}

#[test]
fn an_idle_client_loses_its_transfer() {
    let mut fs = FakeFs::new();
    fs.dirs.insert("/srv/root/a".to_string());
    let mut store = SessionStore::new(root());
    let c = "203.0.113.5:1234";
    assert_eq!(exchange(&mut store, &mut fs, c, 100, &Request::Cd { path: text("a") }), Response::Success);
    let announce = Request::Upload { dst_path: text("."), file_name: text("big"), size: 20_000 };
    assert_eq!(exchange(&mut store, &mut fs, c, 101, &announce), Response::Success);
    let first = Request::UploadChunk { chunk_id: 0, data: pattern(CHUNK_SIZE), is_last: false };
    assert_eq!(exchange(&mut store, &mut fs, c, 102, &first), Response::ChunkAck { chunk_id: 0 });
    let second = Request::UploadChunk { chunk_id: 1, data: pattern(CHUNK_SIZE), is_last: false };
    assert_eq!(
        exchange(&mut store, &mut fs, c, 103 + IDLE_THRESHOLD_SECS, &second),
        error("No active upload session")
    );
    let session = store.get(c).unwrap();
    assert_eq!(cwd(session), ROOT);
    assert_eq!(session.last_activity(), 103 + IDLE_THRESHOLD_SECS);
    assert_eq!(fs.files["/srv/root/a/big"].len(), CHUNK_SIZE);
}

#[test]
fn an_active_client_keeps_its_transfer() {
    let mut fs = FakeFs::new();
    let mut store = SessionStore::new(root());
    let announce = Request::Upload { dst_path: text("."), file_name: text("big"), size: 20_000 };
    assert_eq!(exchange(&mut store, &mut fs, "c", 100, &announce), Response::Success);
    let chunk = Request::UploadChunk { chunk_id: 0, data: pattern(CHUNK_SIZE), is_last: false };
    assert_eq!(
        exchange(&mut store, &mut fs, "c", 100 + IDLE_THRESHOLD_SECS, &chunk),
        Response::ChunkAck { chunk_id: 0 }
    );
}

#[test]
fn a_response_that_is_too_large_is_replaced() {
    let small = Response::DirList(vec![DirEntry { name: text("a"), is_dir: false }]);
    assert_eq!(fit_datagram(&small), encode_response(&small));

    let entries: Vec<DirEntry> =
        (0..10_000).map(|i| DirEntry { name: format!("file-{:06}", i), is_dir: false }).collect();
    let large = Response::DirList(entries);
    assert!(encode_response(&large).len() > MAX_PAYLOAD_SIZE);
    let payload = fit_datagram(&large);
    assert_eq!(payload.len(), 28);
    assert_eq!(decode_response(&payload), Ok((error("Response too large for UDP"), 28)));
}

#[test]
fn the_payload_limit_is_inclusive() {
    let room = MAX_PAYLOAD_SIZE - 4;
    let fits = Response::Error("x".repeat(room));
    assert_eq!(encode_response(&fits).len(), MAX_PAYLOAD_SIZE);
    assert_eq!(fit_datagram(&fits).len(), MAX_PAYLOAD_SIZE);
    let over = Response::Error("x".repeat(room + 1));
    assert_eq!(encode_response(&over).len(), MAX_PAYLOAD_SIZE + 1);
    assert_eq!(fit_datagram(&over).len(), 28);
}

#[test]
fn a_full_chunk_fits_in_a_datagram() {
    let chunk = Response::FileChunk { chunk_id: u32::MAX, data: vec![0xff; CHUNK_SIZE], is_last: false };
    let payload = fit_datagram(&chunk);
    assert_eq!(payload, encode_response(&chunk));
    assert_eq!(payload.len(), 1 + 5 + 3 + CHUNK_SIZE + 1);
}

#[test]
fn a_turn_of_the_loop_sweeps_before_it_serves() {
    let mut store = SessionStore::new(root());
    store.get_or_create("idle", 0);
    store.get_or_create("busy", 250);
    let datagram = encode_request(&Request::CdUp);
    let (evicted, step) = accept_datagram(&mut store, "idle", 300, &datagram);
    assert_eq!(evicted, Vec::<String>::new());
    assert_eq!(step, Step::Reply(error("Cannot go above root")));
    store.get_or_create("idle", 300).touch(0);
    let (evicted, step) = accept_datagram(&mut store, "idle", 301, &datagram);
    assert_eq!(evicted, vec![text("idle")]);
    assert_eq!(step, Step::Reply(error("Cannot go above root")));
    assert_eq!(store.get("idle").unwrap().last_activity(), 301);
    assert_eq!(store.get("busy").unwrap().last_activity(), 250);
    let (evicted, step) = accept_datagram(&mut store, "new", 550, &[9]);
    assert_eq!(evicted, Vec::<String>::new());
    assert_eq!(step, Step::Reply(error("Invalid request: unexpected variant")));
    assert!(!store.contains("new"));
    let (evicted, _) = accept_datagram(&mut store, "new", 551, &datagram);
    assert_eq!(evicted, vec![text("busy")]);
    assert!(store.contains("new"));
    assert!(store.contains("idle"));
}

#[test]
fn the_sizes_of_the_datagram_transport() {
    assert_eq!(MAX_PACKET_SIZE, 65507);
    assert_eq!(MAX_PAYLOAD_SIZE, 65000);
    assert_eq!(CHUNK_SIZE, 8192);
    assert_eq!(STREAM_BUFFER_SIZE, 8192);
    assert_eq!(IDLE_THRESHOLD_SECS, 300);
}

#[test]
fn the_counters_of_a_transfer_stop_at_their_largest_value() {
    let mut session = Session::new(&root(), 0);
    session.set_upload_state(Some(UploadState {
        file_path: b"/srv/root/f".to_vec(),
        expected_size: 5,
        received_bytes: u64::MAX - 3,
    }));
    let pending = Pending::UploadChunk { chunk_id: 9, len: 3, is_last: false };
    let reply = finish_request(&mut session, Transport::Datagram, pending, Outcome::Done);
    assert_eq!(reply.response, Response::ChunkAck { chunk_id: 9 });
    assert_eq!(session.upload_state().as_ref().unwrap().received_bytes, u64::MAX);
    let pending = Pending::UploadChunk { chunk_id: 10, len: 4, is_last: false };
    finish_request(&mut session, Transport::Datagram, pending, Outcome::Done);
    let state = session.upload_state().as_ref().unwrap();
    assert_eq!(state.received_bytes, u64::MAX);
    assert_eq!(state.expected_size, 5);
    assert_eq!(state.file_path, b"/srv/root/f".to_vec());

    session.set_download_state(Some(DownloadState {
        file_name: text("f"),
        file_size: 5,
        sent_chunks: u32::MAX - 1,
    }));
    for _ in 0..2 {
        let pending = Pending::DownloadChunk { chunk_id: 0 };
        let outcome = Outcome::Data(vec![0; CHUNK_SIZE]);
        finish_request(&mut session, Transport::Datagram, pending, outcome);
        assert_eq!(session.download_state().as_ref().unwrap().sent_chunks, u32::MAX);
    }
}

#[test]
fn a_chunk_that_was_stored_without_an_open_upload_is_refused() {
    let mut session = Session::new(&root(), 0);
    let pending = Pending::UploadChunk { chunk_id: 0, len: 3, is_last: true };
    let reply = finish_request(&mut session, Transport::Datagram, pending, Outcome::Done);
    assert_eq!(reply.response, error("No active upload session"));
    let pending = Pending::DownloadChunk { chunk_id: 0 };
    let reply = finish_request(&mut session, Transport::Datagram, pending, Outcome::Data(vec![1]));
    assert_eq!(reply.response, error("No active download session"));
}
