//! Decisions around the optional diffusion-upscaling sidecar: whether it is
//! usable, how its JSON-line events read, and what the worker does on each event
//! while it starts up and while it upscales a photo.

use vstd::prelude::*;
use vstd::string::*;
use crate::text::{decimal, push_decimal, text_eq};
use crate::naming::{join_path, join_path_spec};

verus! {

/// Seconds the sidecar may take to load its models.
pub const READY_TIMEOUT_SECS: usize = 240;

/// Availability of the sidecar, as the UI shows it.
pub struct Status {
    pub available: bool,
    pub models_ready: bool,
    pub detail: String,
}

/// Availability of the sidecar, in the form sent to the UI.
pub struct StatusOut {
    pub available: bool,
    pub models_ready: bool,
    pub detail: String,
}

/// What a look at the sidecar directory found: the virtual environment's Python
/// and the marker of completely downloaded models.
pub struct SidecarCheck {
    pub python_present: bool,
    pub models_ready: bool,
}

/// The sidecar directory nested in `d`: `<d>/sidecar/phantom`.
pub open spec fn nested_sidecar_spec(d: Seq<char>) -> Seq<char> {
    join_path_spec(join_path_spec(d, "sidecar"@), "phantom"@)
}

/// The sidecar directory nested in `d` (see `nested_sidecar_spec`).
pub fn nested_sidecar_dir(d: &str) -> (p: String)
    ensures
        p@ == nested_sidecar_spec(d@),
{
    let sub = join_path(d, "sidecar");
    join_path(sub.as_str(), "phantom")
}

/// The sidecar directory found at `d`, given whether `d` itself holds the sidecar
/// script and whether `<d>/sidecar/phantom` does: `d` first, the nested one next.
pub fn probe_sidecar(d: &str, holds_script: bool, nested_holds_script: bool) -> (r: Option<String>)
    ensures
        match r {
            Some(p) => if holds_script {
                p@ == d@
            } else {
                nested_holds_script && p@ == nested_sidecar_spec(d@)
            },
            None => !holds_script && !nested_holds_script,
        },
{
    if holds_script {
        Some(String::from_str(d))
    } else if nested_holds_script {
        Some(nested_sidecar_dir(d))
    } else {
        None
    }
}

/// Python of the sidecar's virtual environment: `<dir>/.venv/bin/python`.
pub fn venv_python(dir: &str) -> (p: String)
    ensures
        p@ == join_path_spec(join_path_spec(join_path_spec(dir@, ".venv"@), "bin"@), "python"@),
{
    let a = join_path(dir, ".venv");
    let b = join_path(a.as_str(), "bin");
    join_path(b.as_str(), "python")
}

/// Marker file of completely downloaded models: `<dir>/models/.ready`.
pub fn models_marker(dir: &str) -> (p: String)
    ensures
        p@ == join_path_spec(join_path_spec(dir@, "models"@), ".ready"@),
{
    let a = join_path(dir, "models");
    join_path(a.as_str(), ".ready")
}

/// Availability for what was found: `None` when no sidecar directory exists.
pub open spec fn probe_spec(found: Option<SidecarCheck>) -> (bool, bool, Seq<char>) {
    match found {
        None => (false, false, "sidecar not found (sidecar/phantom)"@),
        Some(c) => if !c.python_present {
            (false, c.models_ready, "sidecar venv missing \u{2014} run `uv sync` in sidecar/phantom"@)
        } else if !c.models_ready {
            (false, c.models_ready, "models missing \u{2014} run download_models.sh in sidecar/phantom"@)
        } else {
            (true, c.models_ready, ""@)
        },
    }
}

/// Cheap availability check (no process is started): the sidecar is usable when
/// its directory, its Python and its downloaded models are all there; otherwise
/// `detail` says what to do.
pub fn probe(found: Option<SidecarCheck>) -> (s: Status)
    ensures
        (s.available, s.models_ready, s.detail@) == probe_spec(found),
{
    proof {
        reveal_strlit("");
    }
    match found {
        None => Status {
            available: false,
            models_ready: false,
            detail: String::from_str("sidecar not found (sidecar/phantom)"),
        },
        Some(c) => {
            if !c.python_present {
                Status {
                    available: false,
                    models_ready: c.models_ready,
                    detail: String::from_str("sidecar venv missing \u{2014} run `uv sync` in sidecar/phantom"),
                }
            } else if !c.models_ready {
                Status {
                    available: false,
                    models_ready: c.models_ready,
                    detail: String::from_str("models missing \u{2014} run download_models.sh in sidecar/phantom"),
                }
            } else {
                Status { available: true, models_ready: c.models_ready, detail: String::new() }
            }
        },
    }
}

/// The UI form of a status.
pub fn status_out(s: &Status) -> (o: StatusOut)
    ensures
        o.available == s.available,
        o.models_ready == s.models_ready,
        o.detail@ == s.detail@,
{
    StatusOut { available: s.available, models_ready: s.models_ready, detail: s.detail.clone() }
}

/// The text fields of the JSON object on one line of sidecar output: every member
/// in the order `serde_json` keeps them, with its text when the value is a string.
/// `None` when the line is not a JSON object.
pub uninterp spec fn json_object_text_fields(line: Seq<char>) -> Option<Seq<(Seq<char>, Option<Seq<char>>)>>;

pub open spec fn field_view(f: (String, Option<String>)) -> (Seq<char>, Option<Seq<char>>) {
    (f.0@, match f.1 {
        Some(t) => Some(t@),
        None => None,
    })
}

/// `serde_json::from_str::<serde_json::Value>` on one line: for a JSON object, its
/// members as (key, text of a string value). The claim is only that the result is the
/// named function of the line; nothing is said about how JSON is read.
#[verifier::external_body]
fn json_text_fields(line: &str) -> (r: Option<Vec<(String, Option<String>)>>)
    ensures
        match r {
            Some(v) => json_object_text_fields(line@) == Some(v@.map_values(|f: (String, Option<String>)| field_view(f))),
            None => json_object_text_fields(line@) is None,
        },
{
    match serde_json::from_str::<serde_json::Value>(line) {
        Ok(serde_json::Value::Object(members)) => {
            let mut out = Vec::new();
            for (key, value) in members {
                match value {
                    serde_json::Value::String(text) => out.push((key, Some(text))),
                    _ => out.push((key, None)),
                }
            }
            Some(out)
        },
        _ => None,
    }
}

/// Text of the member `key` among `fields`: the first member with that key, when its
/// value is a string.
pub open spec fn member_text(fields: Seq<(Seq<char>, Option<Seq<char>>)>, key: Seq<char>) -> Option<Seq<char>>
    decreases fields.len(),
{
    if fields.len() == 0 {
        None
    } else if fields[0].0 == key {
        fields[0].1
    } else {
        member_text(fields.drop_first(), key)
    }
}

fn member_text_exec(fields: &Vec<(String, Option<String>)>, key: &str) -> (r: Option<String>)
    ensures
        match r {
            Some(t) => member_text(fields@.map_values(|f: (String, Option<String>)| field_view(f)), key@) == Some(t@),
            None => member_text(fields@.map_values(|f: (String, Option<String>)| field_view(f)), key@) is None,
        },
{
    let ghost fv = fields@.map_values(|f: (String, Option<String>)| field_view(f));
    let mut i: usize = 0;
    assert(fv.skip(0) =~= fv);
    while i < fields.len()
        invariant
            i <= fields@.len(),
            fv == fields@.map_values(|f: (String, Option<String>)| field_view(f)),
            member_text(fv, key@) == member_text(fv.skip(i as int), key@),
        decreases fields@.len() - i,
    {
        assert(fv.skip(i as int)[0] == field_view(fields@[i as int]));
        if text_eq(fields[i].0.as_str(), key) {
            return match &fields[i].1 {
                Some(t) => Some(t.clone()),
                None => None,
            };
        }
        assert(fv.skip(i as int).drop_first() =~= fv.skip(i + 1));
        i += 1;
    }
    None
}

/// An event of the sidecar (the progress fraction stays with the caller).
pub enum SidecarEvent {
    Ready,
    Progress { msg: String },
    Done { output: String },
    Error { msg: String },
    Fatal { msg: String },
    Eof,
}

/// Kinds of sidecar events, with their texts.
pub enum EventModel {
    Ready,
    Progress(Seq<char>),
    Done(Seq<char>),
    Error(Seq<char>),
    Fatal(Seq<char>),
    Eof,
}

pub open spec fn event_view(e: SidecarEvent) -> EventModel {
    match e {
        SidecarEvent::Ready => EventModel::Ready,
        SidecarEvent::Progress { msg } => EventModel::Progress(msg@),
        SidecarEvent::Done { output } => EventModel::Done(output@),
        SidecarEvent::Error { msg } => EventModel::Error(msg@),
        SidecarEvent::Fatal { msg } => EventModel::Fatal(msg@),
        SidecarEvent::Eof => EventModel::Eof,
    }
}

pub open spec fn text_or(t: Option<Seq<char>>, dflt: Seq<char>) -> Seq<char> {
    match t {
        Some(x) => x,
        None => dflt,
    }
}

/// The event on one line of sidecar output: its `event` member names it (ready,
/// progress, done, error, fatal), `msg` and `output` carry its text (empty, or
/// "unknown" for errors, when absent). Lines that are not such an event are skipped.
pub open spec fn sidecar_event_spec(line: Seq<char>) -> Option<EventModel> {
    match json_object_text_fields(line) {
        None => None,
        Some(fields) => {
            let kind = member_text(fields, "event"@);
            let msg = member_text(fields, "msg"@);
            if kind == Some("ready"@) {
                Some(EventModel::Ready)
            } else if kind == Some("progress"@) {
                Some(EventModel::Progress(text_or(msg, ""@)))
            } else if kind == Some("done"@) {
                Some(EventModel::Done(text_or(member_text(fields, "output"@), ""@)))
            } else if kind == Some("error"@) {
                Some(EventModel::Error(text_or(msg, "unknown"@)))
            } else if kind == Some("fatal"@) {
                Some(EventModel::Fatal(text_or(msg, "unknown"@)))
            } else {
                None
            }
        },
    }
}

fn text_or_exec(t: Option<String>, dflt: &str) -> (r: String)
    ensures
        r@ == text_or(match t {
            Some(x) => Some(x@),
            None => None,
        }, dflt@),
{
    match t {
        Some(x) => x,
        None => String::from_str(dflt),
    }
}

/// Reads one line of sidecar output (see `sidecar_event_spec`).
pub fn sidecar_event(line: &str) -> (e: Option<SidecarEvent>)
    ensures
        match e {
            Some(ev) => sidecar_event_spec(line@) == Some(event_view(ev)),
            None => sidecar_event_spec(line@) is None,
        },
{
    let fields = match json_text_fields(line) {
        Some(f) => f,
        None => {
            return None;
        },
    };
    let kind = match member_text_exec(&fields, "event") {
        Some(k) => k,
        None => {
            return None;
        },
    };
    let msg = member_text_exec(&fields, "msg");
    let k = kind.as_str();
    if text_eq(k, "ready") {
        Some(SidecarEvent::Ready)
    } else if text_eq(k, "progress") {
        Some(SidecarEvent::Progress { msg: text_or_exec(msg, "") })
    } else if text_eq(k, "done") {
        let output = member_text_exec(&fields, "output");
        Some(SidecarEvent::Done { output: text_or_exec(output, "") })
    } else if text_eq(k, "error") {
        Some(SidecarEvent::Error { msg: text_or_exec(msg, "unknown") })
    } else if text_eq(k, "fatal") {
        Some(SidecarEvent::Fatal { msg: text_or_exec(msg, "unknown") })
    } else {
        None
    }
}

/// What the worker learns while it waits: the start-up deadline passed, an event
/// arrived, nothing arrived within a poll period, or the reader is gone.
pub enum Wake {
    Expired,
    Event(SidecarEvent),
    Timeout,
    Disconnected,
}

/// What the worker does next.
pub enum WorkerAction {
    /// The sidecar is ready for requests.
    Ready,
    /// Keep waiting.
    Wait,
    /// Pass a progress message on.
    Report { msg: String },
    /// The sidecar says it wrote this file; success when it exists.
    CheckOutput { path: String },
    /// Give up with `message`; `kill` stops the child, `dead` marks it gone (so the
    /// next request starts a fresh one).
    Fail { kill: bool, dead: bool, message: String },
}

pub enum ActionModel {
    Ready,
    Wait,
    Report(Seq<char>),
    CheckOutput(Seq<char>),
    Fail(bool, bool, Seq<char>),
}

pub open spec fn action_view(a: WorkerAction) -> ActionModel {
    match a {
        WorkerAction::Ready => ActionModel::Ready,
        WorkerAction::Wait => ActionModel::Wait,
        WorkerAction::Report { msg } => ActionModel::Report(msg@),
        WorkerAction::CheckOutput { path } => ActionModel::CheckOutput(path@),
        WorkerAction::Fail { kill, dead, message } => ActionModel::Fail(kill, dead, message@),
    }
}

/// Start-up: wait for `ready`; give up when the deadline passes (killing the child),
/// when loading fails, or when the child or its reader goes away.
pub open spec fn startup_spec(w: Wake) -> ActionModel {
    match w {
        Wake::Expired => ActionModel::Fail(
            true,
            true,
            "Phantom sidecar did not become ready in "@ + decimal(READY_TIMEOUT_SECS as nat) + "s"@,
        ),
        Wake::Event(SidecarEvent::Ready) => ActionModel::Ready,
        Wake::Event(SidecarEvent::Fatal { msg }) => ActionModel::Fail(
            false,
            true,
            "Phantom sidecar failed to load: "@ + msg@,
        ),
        Wake::Event(SidecarEvent::Eof) => ActionModel::Fail(false, true, "Phantom sidecar exited during startup"@),
        Wake::Event(_) => ActionModel::Wait,
        Wake::Timeout => ActionModel::Wait,
        Wake::Disconnected => ActionModel::Fail(false, true, "Phantom sidecar reader stopped during startup"@),
    }
}

fn prefixed(prefix: &str, text: &str) -> (s: String)
    ensures
        s@ == prefix@ + text@,
{
    let mut s = String::from_str(prefix);
    s.append(text);
    s
}

/// What the starting worker does on `w` (see `startup_spec`).
pub fn startup_step(w: Wake) -> (a: WorkerAction)
    ensures
        action_view(a) == startup_spec(w),
{
    match w {
        Wake::Expired => {
            let mut m = String::from_str("Phantom sidecar did not become ready in ");
            push_decimal(&mut m, READY_TIMEOUT_SECS);
            m.append("s");
            WorkerAction::Fail { kill: true, dead: true, message: m }
        },
        Wake::Event(SidecarEvent::Ready) => WorkerAction::Ready,
        Wake::Event(SidecarEvent::Fatal { msg }) => WorkerAction::Fail {
            kill: false,
            dead: true,
            message: prefixed("Phantom sidecar failed to load: ", msg.as_str()),
        },
        Wake::Event(SidecarEvent::Eof) => WorkerAction::Fail {
            kill: false,
            dead: true,
            message: String::from_str("Phantom sidecar exited during startup"),
        },
        Wake::Event(_) => WorkerAction::Wait,
        Wake::Timeout => WorkerAction::Wait,
        Wake::Disconnected => WorkerAction::Fail {
            kill: false,
            dead: true,
            message: String::from_str("Phantom sidecar reader stopped during startup"),
        },
    }
}

/// One upscale request: a cancel request kills the child; progress is passed on;
/// `done` leads to a check of the output file; errors fail the request (a fatal
/// error, an exit or a lost reader also mark the child gone).
pub open spec fn upscale_spec(cancelled: bool, w: Wake) -> ActionModel {
    if cancelled {
        ActionModel::Fail(true, true, "cancelled"@)
    } else {
        match w {
            Wake::Event(SidecarEvent::Progress { msg }) => ActionModel::Report(msg@),
            Wake::Event(SidecarEvent::Done { output }) => ActionModel::CheckOutput(output@),
            Wake::Event(SidecarEvent::Error { msg }) => ActionModel::Fail(false, false, "Phantom: "@ + msg@),
            Wake::Event(SidecarEvent::Fatal { msg }) => ActionModel::Fail(false, true, "Phantom sidecar fatal: "@ + msg@),
            Wake::Event(SidecarEvent::Eof) => ActionModel::Fail(false, true, "Phantom sidecar exited unexpectedly"@),
            Wake::Disconnected => ActionModel::Fail(false, true, "Phantom sidecar stopped responding"@),
            _ => ActionModel::Wait,
        }
    }
}

/// What the upscaling worker does on `w` (see `upscale_spec`); `cancelled` is
/// checked first.
pub fn upscale_step(cancelled: bool, w: Wake) -> (a: WorkerAction)
    ensures
        action_view(a) == upscale_spec(cancelled, w),
{
    if cancelled {
        return WorkerAction::Fail { kill: true, dead: true, message: String::from_str("cancelled") };
    }
    match w {
        Wake::Event(SidecarEvent::Progress { msg }) => WorkerAction::Report { msg },
        Wake::Event(SidecarEvent::Done { output }) => WorkerAction::CheckOutput { path: output },
        Wake::Event(SidecarEvent::Error { msg }) => WorkerAction::Fail {
            kill: false,
            dead: false,
            message: prefixed("Phantom: ", msg.as_str()),
        },
        Wake::Event(SidecarEvent::Fatal { msg }) => WorkerAction::Fail {
            kill: false,
            dead: true,
            message: prefixed("Phantom sidecar fatal: ", msg.as_str()),
        },
        Wake::Event(SidecarEvent::Eof) => WorkerAction::Fail {
            kill: false,
            dead: true,
            message: String::from_str("Phantom sidecar exited unexpectedly"),
        },
        Wake::Disconnected => WorkerAction::Fail {
            kill: false,
            dead: true,
            message: String::from_str("Phantom sidecar stopped responding"),
        },
        _ => WorkerAction::Wait,
    }
}

/// Outcome of a request whose output `path` the sidecar reported: success when the
/// file exists, otherwise the error that names the missing file.
pub fn done_outcome(path: &str, exists: bool) -> (r: Result<(), String>)
    ensures
        match r {
            Ok(()) => exists,
            Err(m) => !exists && m@ == "Phantom sidecar reported done but "@ + path@ + " is missing"@,
        },
{
    if exists {
        Ok(())
    } else {
        let mut m = prefixed("Phantom sidecar reported done but ", path);
        m.append(" is missing");
        Err(m)
    }
}

} // verus!
