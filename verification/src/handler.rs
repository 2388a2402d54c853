//! The filesystem operation handler: listing, changing and creating
//! directories, and copying files.
//!
//! Each request is served in two halves. The first decides, from the session
//! and the request alone, whether an answer can be given at once or which
//! action the host is to carry out. The second turns the outcome of that
//! action into the response. A failure is always answered with an error
//! response, and leaves the session as it was.

use crate::action::{
    Action, ActionView, Followup, Outcome, OutcomeView, Pending, PendingView, ReplyView, Step,
    StepView,
};
use crate::message::{Request, RequestView, Response, ResponseView};
use crate::sandbox::{
    joined, parent_within, render, resolved, DirPath, SandboxError,
};
use crate::session::{Session, SessionView};
use vstd::prelude::*;
use vstd::string::StringExecFns;
use vstd::utf8::encode_utf8;

verus! {

/// A reply that nothing follows.
pub open spec fn plain(response: ResponseView) -> ReplyView {
    ReplyView { response, followup: Followup::Nothing }
}

/// An error response with the given message.
pub fn error_response(message: &str) -> (response: Response)
    ensures
        response@ == ResponseView::Error(message@),
{
    Response::Error(message.to_owned())
}

/// An error response whose message is `prefix` followed by `reason`.
pub fn failure_response(prefix: &str, reason: &String) -> (response: Response)
    ensures
        response@ == ResponseView::Error(prefix@ + reason@),
{
    let mut message = prefix.to_owned();
    message.append(reason.as_str());
    Response::Error(message)
}

/// What going to the parent directory comes to.
pub open spec fn planned_cd_up(s: SessionView) -> (SessionView, StepView) {
    match parent_within(s.root, s.current_directory) {
        Ok(dir) => (
            SessionView { current_directory: dir, ..s },
            StepView::Reply(ResponseView::Success),
        ),
        Err(SandboxError::NoParent) => (s, StepView::Reply(ResponseView::Error("No parent"@))),
        Err(_) => (s, StepView::Reply(ResponseView::Error("Cannot go above root"@))),
    }
}

/// What a request to change directory comes to: a refusal where the path
/// leaves the sandbox, else a probe of the directory that it names.
pub open spec fn planned_cd(s: SessionView, path: Seq<char>) -> (SessionView, StepView) {
    match resolved(s.root, s.current_directory, encode_utf8(path)) {
        None => (s, StepView::Reply(ResponseView::Error("Invalid path or not a directory"@))),
        Some(target) => (
            s,
            StepView::Perform {
                action: ActionView::ProbeDir { dir: render(target) },
                pending: PendingView::Cd { target },
            },
        ),
    }
}

/// The first half of serving a filesystem request. A request of another
/// kind is answered with an error.
pub open spec fn planned_fs(s: SessionView, r: RequestView) -> (SessionView, StepView) {
    match r {
        RequestView::Dir => (
            s,
            StepView::Perform {
                action: ActionView::ListDir { dir: render(s.current_directory) },
                pending: PendingView::List,
            },
        ),
        RequestView::CdUp => planned_cd_up(s),
        RequestView::Cd { path } => planned_cd(s, path),
        RequestView::Mkdir { name } => (
            s,
            StepView::Perform {
                action: ActionView::CreateDir {
                    dir: joined(render(s.current_directory), encode_utf8(name)),
                },
                pending: PendingView::Mkdir,
            },
        ),
        RequestView::Copy { src, dst } => (
            s,
            StepView::Perform {
                action: ActionView::CopyFile {
                    src: joined(render(s.current_directory), encode_utf8(src)),
                    dst: joined(render(s.current_directory), encode_utf8(dst)),
                },
                pending: PendingView::Copy,
            },
        ),
        _ => (s, StepView::Reply(ResponseView::Error("Unexpected request in FS handler"@))),
    }
}

/// The answer to an outcome that the pending request cannot have had.
pub open spec fn unexpected_outcome() -> ResponseView {
    ResponseView::Error("Unexpected filesystem outcome"@)
}

/// The second half of serving a filesystem request.
pub open spec fn finished_fs(s: SessionView, p: PendingView, o: OutcomeView) -> (
    SessionView,
    ResponseView,
) {
    match (p, o) {
        (PendingView::List, OutcomeView::Listed(entries)) => (s, ResponseView::DirList(entries)),
        (PendingView::List, OutcomeView::Failed(reason)) => (
            s,
            ResponseView::Error("read_dir failed: "@ + reason),
        ),
        (PendingView::Cd { target }, OutcomeView::IsDir(yes)) => {
            if yes && s.root.is_prefix_of(target) {
                (SessionView { current_directory: target, ..s }, ResponseView::Success)
            } else {
                (s, ResponseView::Error("Invalid path or not a directory"@))
            }
        },
        (PendingView::Cd { target }, OutcomeView::Failed(reason)) => (
            s,
            ResponseView::Error("Invalid path or not a directory"@),
        ),
        (PendingView::Mkdir, OutcomeView::Done) => (s, ResponseView::Success),
        (PendingView::Mkdir, OutcomeView::Failed(reason)) => (
            s,
            ResponseView::Error("mkdir failed: "@ + reason),
        ),
        (PendingView::Copy, OutcomeView::Copied(bytes_copied)) => (
            s,
            ResponseView::CopyResult { bytes_copied },
        ),
        (PendingView::Copy, OutcomeView::Failed(reason)) => (
            s,
            ResponseView::Error("copy failed: "@ + reason),
        ),
        _ => (s, unexpected_outcome()),
    }
}

/// Serves `CdUp`.
fn handle_cd_up(session: &mut Session) -> (step: Step)
    ensures
        (final(session)@, step@) == planned_cd_up(old(session)@),
{
    match DirPath::resolve_up(session.root(), session.current_directory()) {
        Ok(dir) => {
            session.enter(dir);
            Step::Reply(Response::Success)
        },
        Err(SandboxError::NoParent) => Step::Reply(error_response("No parent")),
        Err(_) => Step::Reply(error_response("Cannot go above root")),
    }
}

/// Serves `Cd` as far as the path alone decides.
fn handle_cd(session: &Session, path: &String) -> (step: Step)
    ensures
        (session@, step@) == planned_cd(session@, path@),
{
    match DirPath::resolve_down(session.root(), session.current_directory(), path.as_str()) {
        Ok(target) => Step::Perform {
            action: Action::ProbeDir { dir: target.to_bytes() },
            pending: Pending::Cd { target },
        },
        Err(_) => Step::Reply(error_response("Invalid path or not a directory")),
    }
}

/// The first half of serving a filesystem request: `Dir`, `CdUp`, `Cd`,
/// `Mkdir` or `Copy`. `CdUp` is answered at once, and so is a `Cd` whose path
/// leaves the sandbox; the others call for an action. Only a `CdUp` that
/// succeeds changes the session here.
pub fn handle_fs_request(session: &mut Session, request: Request) -> (step: Step)
    ensures
        (final(session)@, step@) == planned_fs(old(session)@, request@),
{
    match request {
        Request::Dir => Step::Perform {
            action: Action::ListDir { dir: session.current_directory().to_bytes() },
            pending: Pending::List,
        },
        Request::CdUp => handle_cd_up(session),
        Request::Cd { path } => handle_cd(session, &path),
        Request::Mkdir { name } => Step::Perform {
            action: Action::CreateDir { dir: session.current_directory().join_raw(name.as_str()) },
            pending: Pending::Mkdir,
        },
        Request::Copy { src, dst } => Step::Perform {
            action: Action::CopyFile {
                src: session.current_directory().join_raw(src.as_str()),
                dst: session.current_directory().join_raw(dst.as_str()),
            },
            pending: Pending::Copy,
        },
        _ => Step::Reply(error_response("Unexpected request in FS handler")),
    }
}

/// The second half of serving a filesystem request: the response to the
/// outcome of the action. The current directory changes only where a `Cd`
/// found its target to be a directory.
pub fn finish_fs_request(session: &mut Session, pending: Pending, outcome: Outcome) -> (response:
    Response)
    ensures
        (final(session)@, response@) == finished_fs(old(session)@, pending@, outcome@),
{
    match (pending, outcome) {
        (Pending::List, Outcome::Listed(entries)) => Response::DirList(entries),
        (Pending::List, Outcome::Failed(reason)) => failure_response("read_dir failed: ", &reason),
        (Pending::Cd { target }, Outcome::IsDir(yes)) => {
            if yes && session.enter(target) {
                Response::Success
            } else {
                error_response("Invalid path or not a directory")
            }
        },
        (Pending::Cd { target }, Outcome::Failed(reason)) => error_response(
            "Invalid path or not a directory",
        ),
        (Pending::Mkdir, Outcome::Done) => Response::Success,
        (Pending::Mkdir, Outcome::Failed(reason)) => failure_response("mkdir failed: ", &reason),
        (Pending::Copy, Outcome::Copied(bytes_copied)) => Response::CopyResult { bytes_copied },
        (Pending::Copy, Outcome::Failed(reason)) => failure_response("copy failed: ", &reason),
        _ => error_response("Unexpected filesystem outcome"),
    }
}

/// A request that is answered with an error leaves the session as it was,
/// in either half.
pub proof fn lemma_failure_changes_nothing(
    s: SessionView,
    r: RequestView,
    p: PendingView,
    o: OutcomeView,
)
    ensures
        planned_fs(s, r).1 matches StepView::Reply(ResponseView::Error(_)) ==> planned_fs(s, r).0
            == s,
        finished_fs(s, p, o).1 is Error ==> finished_fs(s, p, o).0 == s,
{
}

/// Neither half changes anything of a session but its current directory,
/// and the current directory stays within the sandbox.
pub proof fn lemma_directory_stays_within(
    s: SessionView,
    r: RequestView,
    p: PendingView,
    o: OutcomeView,
)
    requires
        s.root.is_prefix_of(s.current_directory),
    ensures
        planned_fs(s, r).0.root.is_prefix_of(planned_fs(s, r).0.current_directory),
        planned_fs(s, r).0 == (SessionView {
            current_directory: planned_fs(s, r).0.current_directory,
            ..s
        }),
        finished_fs(s, p, o).0.root.is_prefix_of(finished_fs(s, p, o).0.current_directory),
        finished_fs(s, p, o).0 == (SessionView {
            current_directory: finished_fs(s, p, o).0.current_directory,
            ..s
        }),
{
}

/// `CdUp` at the sandbox root is refused and changes nothing.
pub proof fn lemma_cd_up_at_root(s: SessionView)
    requires
        s.current_directory == s.root,
    ensures
        planned_fs(s, RequestView::CdUp).0 == s,
        planned_fs(s, RequestView::CdUp).1 == if s.root.len() == 0 {
            StepView::Reply(ResponseView::Error("No parent"@))
        } else {
            StepView::Reply(ResponseView::Error("Cannot go above root"@))
        },
{
    crate::sandbox::lemma_up_from_root(s.root);
}

/// `CdUp` in a direct child of the sandbox root succeeds and leads to the
/// root.
pub proof fn lemma_cd_up_from_child(s: SessionView, name: Seq<u8>)
    requires
        s.current_directory == s.root.push(name),
    ensures
        planned_fs(s, RequestView::CdUp).1 == StepView::Reply(ResponseView::Success),
        planned_fs(s, RequestView::CdUp).0 == (SessionView { current_directory: s.root, ..s }),
{
    crate::sandbox::lemma_up_from_child(s.root, name);
}

/// `Cd` to a path that does not leave the sandbox succeeds exactly where the
/// host finds the directory that the path names; the session then stands in
/// that directory.
pub proof fn lemma_cd_follows_the_disk(s: SessionView, path: Seq<char>, exists_as_dir: bool)
    requires
        resolved(s.root, s.current_directory, encode_utf8(path)) is Some,
    ensures
        ({
            let target = resolved(s.root, s.current_directory, encode_utf8(path))->0;
            let first = planned_fs(s, RequestView::Cd { path });
            let second = finished_fs(
                first.0,
                PendingView::Cd { target },
                OutcomeView::IsDir(exists_as_dir),
            );
            &&& first.0 == s
            &&& first.1 == StepView::Perform {
                action: ActionView::ProbeDir { dir: render(target) },
                pending: PendingView::Cd { target },
            }
            &&& second.1 == ResponseView::Success <==> exists_as_dir
            &&& exists_as_dir ==> second.0 == SessionView { current_directory: target, ..s }
            &&& !exists_as_dir ==> second.0 == s
        }),
{
}

/// `Cd` to a path that leaves the sandbox is refused at once: the host is
/// not asked, so nothing on disk can make it succeed.
pub proof fn lemma_cd_refuses_escape(s: SessionView, path: Seq<char>)
    requires
        resolved(s.root, s.current_directory, encode_utf8(path)) is None,
    ensures
        planned_fs(s, RequestView::Cd { path }) == (
            s,
            StepView::Reply(ResponseView::Error("Invalid path or not a directory"@)),
        ),
{
}

} // verus!
