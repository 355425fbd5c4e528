//! The converter helper: a one-shot child process that runs the native
//! converter away from the host. This module decides how the helper is found,
//! what a running helper calls for, and what its end means.

use crate::protocol;
use crate::protocol::{
    decode_request, decode_response, encode_request, encode_response, validate_input_size,
    DecodedConvertRequest, DecodedRequest, Request,
};
use crate::text;
use crate::text::{chars_of, decimal_text, string_of, trimmed};
use crate::utf8;
use crate::utf8::text_of_lossy_utf8;
use vstd::prelude::*;
use vstd::string::*;
use vstd::utf8::*;

verus! {

/// Most bytes read of the helper's standard error.
pub const MAX_STDERR_BYTES: usize = 65536;

/// Milliseconds that one conversion may take.
pub const CONVERTER_TIMEOUT_MS: u64 = 8000;

/// Milliseconds that a probe may take.
pub const PROBE_TIMEOUT_MS: u64 = 1000;

/// Milliseconds between two looks at a running helper.
pub const POLL_INTERVAL_MS: u64 = 5;

/// The first argument that puts a self-hosting executable into helper mode.
pub const CURRENT_EXE_HELPER_ARG: &'static str = "--particle-milkdrop-converter-helper";

/// The environment variable that names the helper's exact path. Where it is
/// set, no other way of finding a helper is tried.
pub const HELPER_PATH_ENV: &'static str = "PARTICLE_MILK_CONVERTER_HELPER";

/// The helper's file name without an extension.
pub const HELPER_FILE_STEM: &'static str = "particle-milkdrop-converter-helper";

// ---------------------------------------------------------------------------
// Finding the helper
// ---------------------------------------------------------------------------
/// A helper program and its arguments.
pub struct HelperSpec<P> {
    pub path: P,
    pub args: Vec<String>,
}

impl<P> HelperSpec<P> {
    /// A program that is nothing but a helper.
    pub open spec fn is_dedicated(self, path: P) -> bool {
        self.path == path && self.args@.len() == 0
    }

    /// A program that serves as a helper when asked to.
    pub open spec fn is_self_hosted(self, path: P) -> bool {
        self.path == path && self.args@.len() == 1 && self.args@[0]@ == CURRENT_EXE_HELPER_ARG@
    }

    /// The helper at `path`, without arguments.
    pub fn dedicated(path: P) -> (out: Self)
        ensures
            out.is_dedicated(path),
    {
        HelperSpec { path, args: Vec::new() }
    }

    /// The executable at `path`, told to be a helper.
    pub fn self_hosted(path: P) -> (out: Self)
        ensures
            out.is_self_hosted(path),
    {
        let mut args: Vec<String> = Vec::new();
        args.push(CURRENT_EXE_HELPER_ARG.to_owned());
        HelperSpec { path, args }
    }
}

/// What [`HELPER_PATH_ENV`] holds: nothing, or a path, its readable form and
/// whether a file is there.
pub enum ConfiguredHelper<P> {
    Empty,
    Path { path: P, shown: String, is_file: bool },
}

/// The helper's file name on this kind of system.
pub open spec fn helper_file(windows: bool) -> Seq<char> {
    if windows {
        HELPER_FILE_STEM@ + ".exe"@
    } else {
        HELPER_FILE_STEM@
    }
}

/// The helper's file name on this kind of system.
pub fn helper_file_name(windows: bool) -> (out: String)
    ensures
        out@ == helper_file(windows),
{
    let mut out = HELPER_FILE_STEM.to_owned();
    if windows {
        out.append(".exe");
    }
    out
}

/// The report that no helper was found.
pub open spec fn helper_missing(windows: bool) -> Seq<char> {
    "native converter helper is not configured; package '"@ + helper_file(windows)
        + "' beside the host executable, set "@ + HELPER_PATH_ENV@
        + " to its exact path, or register a self-hosting executable before conversion (refusing unsafe in-process fallback)"@
}

/// Finds the helper: a configured path is authoritative, then comes a
/// registered self-hosting executable, then a helper file beside the current
/// executable. `adjacent` is that file's path and whether it is there, or why
/// the current executable is not known.
pub fn resolve_helper<P>(
    configured: Option<ConfiguredHelper<P>>,
    registered: Option<P>,
    adjacent: Result<(P, bool), String>,
    windows: bool,
) -> (out: Result<HelperSpec<P>, String>)
    ensures
        match configured {
            Some(ConfiguredHelper::Empty) => out is Err && out->Err_0@ == HELPER_PATH_ENV@
                + " is set but empty"@,
            Some(ConfiguredHelper::Path { path, shown, is_file }) => if is_file {
                out is Ok && out->Ok_0.is_dedicated(path)
            } else {
                out is Err && out->Err_0@ == HELPER_PATH_ENV@ + " points to missing helper "@
                    + shown@
            },
            None => match registered {
                Some(path) => out is Ok && out->Ok_0.is_self_hosted(path),
                None => match adjacent {
                    Err(e) => out is Err && out->Err_0@
                        == "cannot locate converter helper beside current executable: "@ + e@,
                    Ok((path, is_file)) => if is_file {
                        out is Ok && out->Ok_0.is_dedicated(path)
                    } else {
                        out is Err && out->Err_0@ == helper_missing(windows)
                    },
                },
            },
        },
{
    match configured {
        Some(ConfiguredHelper::Empty) => {
            let mut m = HELPER_PATH_ENV.to_owned();
            m.append(" is set but empty");
            return Err(m);
        },
        Some(ConfiguredHelper::Path { path, shown, is_file }) => {
            if !is_file {
                let mut m = HELPER_PATH_ENV.to_owned();
                m.append(" points to missing helper ");
                m.append(shown.as_str());
                return Err(m);
            }
            return Ok(HelperSpec::dedicated(path));
        },
        None => {},
    }
    if let Some(path) = registered {
        return Ok(HelperSpec::self_hosted(path));
    }
    match adjacent {
        Err(e) => {
            let mut m = "cannot locate converter helper beside current executable: ".to_owned();
            m.append(e.as_str());
            Err(m)
        },
        Ok((path, is_file)) => {
            if is_file {
                return Ok(HelperSpec::dedicated(path));
            }
            let mut m = "native converter helper is not configured; package '".to_owned();
            m.append(helper_file_name(windows).as_str());
            m.append("' beside the host executable, set ");
            m.append(HELPER_PATH_ENV);
            m.append(
                " to its exact path, or register a self-hosting executable before conversion (refusing unsafe in-process fallback)",
            );
            Err(m)
        },
    }
}

/// Decides the registration of the current executable as a helper. `current` is
/// its path, or why that is not known; `existing` is the registered path's
/// readable form and whether it is the same path. `Ok(Some(path))` asks for
/// `path` to be registered, `Ok(None)` for nothing.
pub fn register_current_executable_as_helper<P>(
    native_available: bool,
    current: Result<P, String>,
    existing: Option<(String, bool)>,
) -> (out: Result<Option<P>, String>)
    ensures
        if !native_available {
            out is Err && out->Err_0@
                == "this executable was built without the native converter payload"@
        } else {
            match current {
                Err(e) => out is Err && out->Err_0@
                    == "cannot resolve current executable for converter helper: "@ + e@,
                Ok(path) => match existing {
                    None => out == Ok::<Option<P>, String>(Some(path)),
                    Some((shown, same)) => if same {
                        out == Ok::<Option<P>, String>(None)
                    } else {
                        out is Err && out->Err_0@ == "converter helper already registered as "@
                            + shown@
                    },
                },
            }
        },
{
    if !native_available {
        return Err("this executable was built without the native converter payload".to_owned());
    }
    match current {
        Err(e) => {
            let mut m = "cannot resolve current executable for converter helper: ".to_owned();
            m.append(e.as_str());
            Err(m)
        },
        Ok(path) => match existing {
            None => Ok(Some(path)),
            Some((shown, same)) => {
                if same {
                    Ok(None)
                } else {
                    let mut m = "converter helper already registered as ".to_owned();
                    m.append(shown.as_str());
                    Err(m)
                }
            },
        },
    }
}

/// Whether the first argument behind the program's name asks for helper mode.
pub fn current_executable_helper_mode(first_arg: Option<&str>) -> (requested: bool)
    ensures
        requested == (first_arg is Some && first_arg->0@ == CURRENT_EXE_HELPER_ARG@),
        requested <==> (first_arg matches Some(arg) && arg@
            == "--particle-milkdrop-converter-helper"@),
{
    match first_arg {
        Some(arg) => arg.to_owned() == CURRENT_EXE_HELPER_ARG.to_owned(),
        None => false,
    }
}

// ---------------------------------------------------------------------------
// Jobs
// ---------------------------------------------------------------------------
/// One run of the helper: the frame to send, and how long the run may take.
pub struct HelperJob {
    pub request: Vec<u8>,
    pub timeout_ms: u64,
}

/// The run that asks a helper whether it can convert.
pub fn probe_job() -> (out: HelperJob)
    ensures
        out.request@ == protocol::request_bytes(protocol::RequestView::Probe),
        out.timeout_ms == PROBE_TIMEOUT_MS,
        out.timeout_ms == 1000,
{
    match encode_request(Request::Probe) {
        Ok(request) => HelperJob { request, timeout_ms: PROBE_TIMEOUT_MS },
        Err(_) => HelperJob { request: Vec::new(), timeout_ms: PROBE_TIMEOUT_MS },
    }
}

/// Whether a helper can convert, given how its probe ended.
pub fn helper_available(probe: Result<String, String>) -> (yes: bool)
    ensures
        yes == (probe is Ok && probe->Ok_0@ == "available"@),
{
    match probe {
        Ok(response) => response == "available".to_owned(),
        Err(_) => false,
    }
}

/// The run that converts a shader. Texts over the input cap are refused here,
/// before any helper is looked for.
pub fn convert(file_globals: Option<&str>, body: &str, optimize: bool) -> (out: Result<
    HelperJob,
    String,
>)
    ensures
        ({
            let globals = match file_globals {
                Some(g) => Some(g@),
                None => None,
            };
            let request = protocol::RequestView::Convert {
                file_globals: globals,
                body: body@,
                optimize,
            };
            match protocol::input_size_error(protocol::request_size(request)) {
                Some(m) => out is Err && out->Err_0@ == m,
                None => out is Ok && out->Ok_0.request@ == protocol::request_bytes(request)
                    && out->Ok_0.timeout_ms == CONVERTER_TIMEOUT_MS,
            }
        }),
        out matches Ok(job) ==> job.timeout_ms == 8000,
{
    match validate_input_size(file_globals, body) {
        Err(e) => {
            return Err(e);
        },
        Ok(_) => {},
    }
    match encode_request(Request::Convert { file_globals, body, optimize }) {
        Ok(request) => Ok(HelperJob { request, timeout_ms: CONVERTER_TIMEOUT_MS }),
        Err(e) => Err(e),
    }
}

// ---------------------------------------------------------------------------
// Running the helper
// ---------------------------------------------------------------------------
/// What the thread at one of the helper's pipes left behind.
pub enum PipeEnd<T> {
    Panicked,
    Returned(T),
}

/// A helper that has exited: whether it reports success, its status in words,
/// and what the threads at its pipes left behind.
pub struct HelperExit {
    pub success: bool,
    pub status: String,
    pub stdin: PipeEnd<Result<(), String>>,
    pub stdout: PipeEnd<Result<Vec<u8>, String>>,
    pub stderr: PipeEnd<Result<Vec<u8>, String>>,
}

/// What the host has just seen of the helper.
pub enum HelperEvent {
    /// The program could not be started.
    SpawnFailed { path: String, error: String },
    /// The program runs, but not all of its pipes are there.
    PipesMissing,
    /// The program runs for so long by now.
    Running { elapsed_nanos: u128 },
    /// The program could not be looked at.
    PollFailed { error: String },
    /// The program has exited.
    Exited(HelperExit),
}

/// What the host does next.
pub enum HelperAction {
    /// Look again after so many milliseconds.
    Wait { ms: u64 },
    /// Kill the program, collect it and its pipe threads, and fail.
    Terminate { error: String },
    /// Nothing runs any more: this is the outcome.
    Finish(Result<String, String>),
}

/// What the host does next, with texts as sequences.
pub ghost enum HelperActionView {
    Wait { ms: int },
    Terminate { error: Seq<char> },
    Finish(Result<Seq<char>, Seq<char>>),
}

impl View for HelperAction {
    type V = HelperActionView;

    open spec fn view(&self) -> HelperActionView {
        match *self {
            HelperAction::Wait { ms } => HelperActionView::Wait { ms: ms as int },
            HelperAction::Terminate { error } => HelperActionView::Terminate { error: error@ },
            HelperAction::Finish(r) => HelperActionView::Finish(protocol::outcome(r)),
        }
    }
}

/// The report of a helper that exited with `status` and left `diagnostic`.
pub open spec fn exit_error(status: Seq<char>, diagnostic: Seq<char>) -> Seq<char> {
    let head = "native converter helper crashed or exited unsuccessfully ("@ + status + ")"@;
    if text::trim(diagnostic).len() == 0 {
        head
    } else {
        head + ": "@ + text::trim(diagnostic)
    }
}

/// The report of a helper that exited with `status` and left `diagnostic`.
pub fn exit_error_message(status: &str, diagnostic: &str) -> (out: String)
    ensures
        out@ == exit_error(status@, diagnostic@),
{
    let chars = chars_of(diagnostic);
    let shown = trimmed(chars.as_slice());
    let mut m = "native converter helper crashed or exited unsuccessfully (".to_owned();
    m.append(status);
    m.append(")");
    if shown.len() > 0 {
        m.append(": ");
        m.append(string_of(shown).as_str());
    }
    m
}

/// The report of a helper that exited with `status` and wrote `stderr`.
pub fn helper_exit_error(status: &str, stderr: &[u8]) -> (out: String)
    ensures
        out@ == exit_error(status@, utf8::lossy_utf8(stderr@)),
{
    let diagnostic = text_of_lossy_utf8(stderr);
    exit_error_message(status, diagnostic.as_str())
}

/// What the pipe thread's end holds, or why the run fails because of it.
pub open spec fn pipe_bytes(
    end: PipeEnd<Result<Vec<u8>, String>>,
    panicked: Seq<char>,
) -> Result<Seq<u8>, Seq<char>> {
    match end {
        PipeEnd::Panicked => Err(panicked),
        PipeEnd::Returned(Ok(bytes)) => Ok(bytes@),
        PipeEnd::Returned(Err(e)) => Err(e@),
    }
}

/// The outcome of a run whose helper has exited: faults of the pipe threads
/// come first, then an unsuccessful exit, then a request that was not sent, and
/// only then is the response looked at.
pub open spec fn exit_outcome(exit: HelperExit) -> Result<Seq<char>, Seq<char>> {
    match exit.stdin {
        PipeEnd::Panicked => Err("converter helper stdin writer panicked"@),
        PipeEnd::Returned(sent) => match pipe_bytes(
            exit.stdout,
            "converter helper stdout reader panicked"@,
        ) {
            Err(e) => Err(e),
            Ok(stdout) => match pipe_bytes(
                exit.stderr,
                "converter helper stderr reader panicked"@,
            ) {
                Err(e) => Err(e),
                Ok(stderr) => if !exit.success {
                    Err(exit_error(exit.status@, utf8::lossy_utf8(stderr)))
                } else {
                    match sent {
                        Err(e) => Err("failed to send request to converter helper: "@ + e@),
                        Ok(_) => protocol::decoded_response(stdout),
                    }
                },
            },
        },
    }
}

/// What the host does next after `event`, in a run that may take `timeout_ms`.
pub open spec fn helper_action(timeout_ms: int, event: HelperEvent) -> HelperActionView {
    match event {
        HelperEvent::SpawnFailed { path, error } => HelperActionView::Finish(
            Err("failed to spawn native converter helper "@ + path@ + ": "@ + error@),
        ),
        HelperEvent::PipesMissing => HelperActionView::Terminate {
            error: "converter helper pipes were not established"@,
        },
        HelperEvent::Running { elapsed_nanos } => if elapsed_nanos < timeout_ms * 1_000_000 {
            HelperActionView::Wait { ms: POLL_INTERVAL_MS as int }
        } else {
            HelperActionView::Terminate {
                error: "native converter helper timed out after "@ + text::decimal(
                    timeout_ms as nat,
                ) + " ms and was terminated"@,
            }
        },
        HelperEvent::PollFailed { error } => HelperActionView::Terminate {
            error: "failed to poll native converter helper: "@ + error@,
        },
        HelperEvent::Exited(exit) => HelperActionView::Finish(exit_outcome(exit)),
    }
}

fn take_pipe_bytes(end: PipeEnd<Result<Vec<u8>, String>>, panicked: &str) -> (out: Result<
    Vec<u8>,
    String,
>)
    ensures
        match pipe_bytes(end, panicked@) {
            Ok(bytes) => out is Ok && out->Ok_0@ == bytes,
            Err(e) => out is Err && out->Err_0@ == e,
        },
{
    match end {
        PipeEnd::Panicked => Err(panicked.to_owned()),
        PipeEnd::Returned(r) => r,
    }
}

fn finish_run(exit: HelperExit) -> (out: Result<String, String>)
    ensures
        protocol::outcome(out) == exit_outcome(exit),
{
    let sent = match exit.stdin {
        PipeEnd::Panicked => {
            return Err("converter helper stdin writer panicked".to_owned());
        },
        PipeEnd::Returned(r) => r,
    };
    let stdout = match take_pipe_bytes(exit.stdout, "converter helper stdout reader panicked") {
        Ok(bytes) => bytes,
        Err(e) => {
            return Err(e);
        },
    };
    let stderr = match take_pipe_bytes(exit.stderr, "converter helper stderr reader panicked") {
        Ok(bytes) => bytes,
        Err(e) => {
            return Err(e);
        },
    };
    if !exit.success {
        return Err(helper_exit_error(exit.status.as_str(), stderr.as_slice()));
    }
    match sent {
        Err(e) => {
            let mut m = "failed to send request to converter helper: ".to_owned();
            m.append(e.as_str());
            Err(m)
        },
        Ok(_) => decode_response(stdout.as_slice()),
    }
}

/// Decides what the host does after `event`, in a run that may take
/// `timeout_ms` milliseconds.
pub fn invoke_helper(timeout_ms: u64, event: HelperEvent) -> (out: HelperAction)
    ensures
        out@ == helper_action(timeout_ms as int, event),
        event matches HelperEvent::Running { elapsed_nanos } ==> if elapsed_nanos < timeout_ms
            * 1_000_000 {
            out == (HelperAction::Wait { ms: 5 })
        } else {
            out is Terminate
        },
        event is SpawnFailed || event is Exited ==> out is Finish,
        event is PipesMissing || event is PollFailed ==> out is Terminate,
{
    match event {
        HelperEvent::SpawnFailed { path, error } => {
            let mut m = "failed to spawn native converter helper ".to_owned();
            m.append(path.as_str());
            m.append(": ");
            m.append(error.as_str());
            HelperAction::Finish(Err(m))
        },
        HelperEvent::PipesMissing => HelperAction::Terminate {
            error: "converter helper pipes were not established".to_owned(),
        },
        HelperEvent::Running { elapsed_nanos } => {
            if elapsed_nanos < timeout_ms as u128 * 1_000_000 {
                HelperAction::Wait { ms: POLL_INTERVAL_MS }
            } else {
                let mut m = "native converter helper timed out after ".to_owned();
                m.append(decimal_text(timeout_ms as u128).as_str());
                m.append(" ms and was terminated");
                HelperAction::Terminate { error: m }
            }
        },
        HelperEvent::PollFailed { error } => {
            let mut m = "failed to poll native converter helper: ".to_owned();
            m.append(error.as_str());
            HelperAction::Terminate { error: m }
        },
        HelperEvent::Exited(exit) => HelperAction::Finish(finish_run(exit)),
    }
}

/// What reading at most `max` bytes and one more of a pipe gave: a pipe that
/// holds more is refused.
pub fn read_limited(read: Result<Vec<u8>, String>, max: usize) -> (out: Result<Vec<u8>, String>)
    ensures
        match read {
            Err(e) => out is Err && out->Err_0@ == "failed reading converter helper pipe: "@ + e@,
            Ok(bytes) => if bytes@.len() > max {
                out is Err && out->Err_0@ == "converter helper output exceeded the "@
                    + text::decimal(max as nat) + "-byte safety cap"@
            } else {
                out == read
            },
        },
{
    match read {
        Err(e) => {
            let mut m = "failed reading converter helper pipe: ".to_owned();
            m.append(e.as_str());
            Err(m)
        },
        Ok(bytes) => {
            if bytes.len() > max {
                let mut m = "converter helper output exceeded the ".to_owned();
                m.append(decimal_text(max as u128).as_str());
                m.append("-byte safety cap");
                Err(m)
            } else {
                Ok(bytes)
            }
        },
    }
}

// ---------------------------------------------------------------------------
// Inside the helper
// ---------------------------------------------------------------------------
/// What the helper does with its request.
pub enum HelperReply {
    /// Write this frame.
    Respond(Vec<u8>),
    /// Convert, then write the frame of the outcome.
    Convert(DecodedConvertRequest),
}

/// What the helper does with its request, with texts as sequences.
pub ghost enum HelperReplyView {
    Respond(Seq<u8>),
    Convert(protocol::RequestView),
}

impl View for HelperReply {
    type V = HelperReplyView;

    open spec fn view(&self) -> HelperReplyView {
        match *self {
            HelperReply::Respond(bytes) => HelperReplyView::Respond(bytes@),
            HelperReply::Convert(r) => HelperReplyView::Convert(DecodedRequest::Convert(r)@),
        }
    }
}

/// What the helper does with what it read: only a whole, well-formed conversion
/// request is converted; everything else is answered at once.
pub open spec fn helper_reply(
    read: Result<Seq<u8>, Seq<char>>,
    native_available: bool,
) -> HelperReplyView {
    match read {
        Err(e) => HelperReplyView::Respond(
            protocol::response_bytes(Err("failed reading converter helper request: "@ + e)),
        ),
        Ok(bytes) => if bytes.len() > protocol::REQUEST_HEADER_BYTES
            + protocol::MAX_CONVERTER_INPUT_BYTES {
            HelperReplyView::Respond(
                protocol::response_bytes(Err("converter helper request exceeded its input cap"@)),
            )
        } else {
            match protocol::decoded_request(bytes) {
                Err(e) => HelperReplyView::Respond(protocol::response_bytes(Err(e))),
                Ok(protocol::RequestView::Probe) => HelperReplyView::Respond(
                    protocol::response_bytes(
                        if native_available {
                            Ok("available"@)
                        } else {
                            Err("helper was built without the native converter payload"@)
                        },
                    ),
                ),
                Ok(r) => HelperReplyView::Convert(r),
            }
        },
    }
}

/// Decides what the helper does with the request it read from its standard
/// input.
pub fn run_converter_helper_stdio(
    read: Result<Vec<u8>, String>,
    native_available: bool,
) -> (out: HelperReply)
    ensures
        out@ == helper_reply(
            match read {
                Ok(bytes) => Ok(bytes@),
                Err(e) => Err(e@),
            },
            native_available,
        ),
{
    match read {
        Err(e) => {
            let mut m = "failed reading converter helper request: ".to_owned();
            m.append(e.as_str());
            HelperReply::Respond(encode_response(Err(m)))
        },
        Ok(bytes) => {
            if bytes.len() > protocol::REQUEST_HEADER_BYTES + protocol::MAX_CONVERTER_INPUT_BYTES {
                return HelperReply::Respond(
                    encode_response(
                        Err("converter helper request exceeded its input cap".to_owned()),
                    ),
                );
            }
            match decode_request(bytes.as_slice()) {
                Err(e) => HelperReply::Respond(encode_response(Err(e))),
                Ok(DecodedRequest::Probe) => {
                    if native_available {
                        HelperReply::Respond(encode_response(Ok("available".to_owned())))
                    } else {
                        HelperReply::Respond(
                            encode_response(
                                Err(
                                    "helper was built without the native converter payload".to_owned(),
                                ),
                            ),
                        )
                    }
                },
                Ok(DecodedRequest::Convert(r)) => HelperReply::Convert(r),
            }
        },
    }
}

/// The helper's exit status: zero where its response was written.
pub fn helper_exit_code(written: bool) -> (code: i32)
    ensures
        code == (if written {
            0i32
        } else {
            74i32
        }),
{
    if written {
        0
    } else {
        74
    }
}

// ---------------------------------------------------------------------------
// Laws
// ---------------------------------------------------------------------------
/// A run of the helper ends: from the deadline on, a helper that still runs is
/// terminated, whatever was seen of it before.
pub proof fn law_deadline_terminates(timeout_ms: int, elapsed_nanos: u128)
    requires
        elapsed_nanos >= timeout_ms * 1_000_000,
    ensures
        helper_action(timeout_ms, HelperEvent::Running { elapsed_nanos }) is Terminate,
{
}

/// A run succeeds only where the helper exited successfully, its pipes were
/// served to the end, and its whole output is the frame of that success.
pub proof fn law_run_succeeds_only_on_a_success_frame(timeout_ms: int, event: HelperEvent)
    requires
        helper_action(timeout_ms, event) matches HelperActionView::Finish(r) && r is Ok,
    ensures
        event is Exited,
        event->Exited_0.success,
        event->Exited_0.stdin matches PipeEnd::Returned(sent) && sent is Ok,
        event->Exited_0.stdout matches PipeEnd::Returned(Ok(bytes)) && bytes@
            == protocol::response_frame(
            0,
            encode_utf8(helper_action(timeout_ms, event)->Finish_0->Ok_0),
        ),
{
    match event {
        HelperEvent::Exited(exit) => {
            match exit.stdout {
                PipeEnd::Returned(Ok(bytes)) => {
                    protocol::law_success_is_a_whole_frame(bytes@);
                },
                _ => {},
            }
        },
        _ => {},
    }
}

/// What the host frames, the helper takes for a conversion of the same texts
/// with the same setting.
pub proof fn law_helper_converts_what_was_sent(r: protocol::RequestView, native_available: bool)
    requires
        r is Convert,
        protocol::request_size(r) <= protocol::MAX_CONVERTER_INPUT_BYTES,
    ensures
        helper_reply(Ok(protocol::request_bytes(r)), native_available) == HelperReplyView::Convert(
            r,
        ),
{
    protocol::law_request_roundtrip(r);
}

/// What the helper frames of its outcome, the host reads as that outcome, up to
/// the caps, once the helper has exited in order.
pub proof fn law_host_reads_what_was_answered(
    timeout_ms: int,
    r: Result<Seq<char>, Seq<char>>,
    exit: HelperExit,
)
    requires
        r matches Ok(s) ==> encode_utf8(s).len() <= u64::MAX,
        exit.success,
        exit.stdin matches PipeEnd::Returned(sent) && sent is Ok,
        exit.stdout matches PipeEnd::Returned(Ok(bytes)) && bytes@ == protocol::response_bytes(r),
        exit.stderr matches PipeEnd::Returned(Ok(_)),
    ensures
        helper_action(timeout_ms, HelperEvent::Exited(exit)) == HelperActionView::Finish(
            protocol::carried(r),
        ),
{
    protocol::law_response_roundtrip(r);
}

/// A running helper is left running until its deadline: before it, the host looks
/// again after five milliseconds and does nothing else.
pub proof fn law_running_helper_is_left_running(timeout_ms: int, elapsed_nanos: u128)
    requires
        elapsed_nanos < timeout_ms * 1_000_000,
    ensures
        helper_action(timeout_ms, HelperEvent::Running { elapsed_nanos }) == (
        HelperActionView::Wait { ms: 5 }),
{
}

/// A helper that has had its time is told so in milliseconds.
pub proof fn law_deadline_is_reported(timeout_ms: int, elapsed_nanos: u128)
    requires
        0 <= timeout_ms,
        elapsed_nanos >= timeout_ms * 1_000_000,
    ensures
        helper_action(timeout_ms, HelperEvent::Running { elapsed_nanos }) == (
        HelperActionView::Terminate {
            error: "native converter helper timed out after "@ + text::decimal(timeout_ms as nat)
                + " ms and was terminated"@,
        }),
{
}

/// What runs is collected, and what does not run is not waited for: a helper that
/// could not be started and one that has exited finish the run, a helper whose
/// pipes are missing or that cannot be looked at is terminated, and the host waits
/// for none of these.
pub proof fn law_only_what_runs_is_terminated(timeout_ms: int, event: HelperEvent)
    ensures
        (event is SpawnFailed || event is Exited) <==> helper_action(timeout_ms, event) is Finish,
        event matches HelperEvent::SpawnFailed { path, error } ==> helper_action(timeout_ms, event)
            == HelperActionView::Finish(
            Err("failed to spawn native converter helper "@ + path@ + ": "@ + error@),
        ),
        event is PipesMissing ==> helper_action(timeout_ms, event) == (
        HelperActionView::Terminate { error: "converter helper pipes were not established"@ }),
        event matches HelperEvent::PollFailed { error } ==> helper_action(timeout_ms, event) == (
        HelperActionView::Terminate {
            error: "failed to poll native converter helper: "@ + error@,
        }),
        helper_action(timeout_ms, event) is Wait ==> event is Running,
{
}

/// Of several faults of a run the first is reported: one of the threads at the
/// pipes in the order of standard input, output and error, then an unsuccessful
/// exit, then a request that was not sent.
pub proof fn law_first_fault_is_reported(timeout_ms: int, exit: HelperExit)
    ensures
        ({
            let action = helper_action(timeout_ms, HelperEvent::Exited(exit));
            let fault = |m: Seq<char>| action == HelperActionView::Finish(Err(m));
            &&& (exit.stdin is Panicked ==> fault("converter helper stdin writer panicked"@))
            &&& (exit.stdin matches PipeEnd::Returned(sent) ==> {
                &&& (exit.stdout is Panicked ==> fault("converter helper stdout reader panicked"@))
                &&& (exit.stdout matches PipeEnd::Returned(Err(e)) ==> fault(e@))
                &&& (exit.stdout matches PipeEnd::Returned(Ok(out)) ==> {
                    &&& (exit.stderr is Panicked ==> fault(
                        "converter helper stderr reader panicked"@,
                    ))
                    &&& (exit.stderr matches PipeEnd::Returned(Err(e)) ==> fault(e@))
                    &&& (exit.stderr matches PipeEnd::Returned(Ok(diagnostic)) ==> {
                        &&& (!exit.success ==> fault(
                            exit_error(exit.status@, utf8::lossy_utf8(diagnostic@)),
                        ))
                        &&& (exit.success ==> (sent matches Err(e) ==> fault(
                            "failed to send request to converter helper: "@ + e@,
                        )))
                        &&& (exit.success && sent is Ok ==> action == HelperActionView::Finish(
                            protocol::decoded_response(out@),
                        ))
                    })
                })
            })
        }),
{
}

/// An unsuccessful exit is reported with its status, and with what the helper
/// left on its standard error where that is more than white space.
pub proof fn law_exit_is_reported_with_its_diagnostic(
    status: Seq<char>,
    before: Seq<char>,
    diagnostic: Seq<char>,
    behind: Seq<char>,
)
    requires
        forall|i: int| 0 <= i < before.len() ==> text::is_white_space(#[trigger] before[i]),
        forall|i: int| 0 <= i < behind.len() ==> text::is_white_space(#[trigger] behind[i]),
        diagnostic.len() > 0 ==> !text::is_white_space(diagnostic[0]) && !text::is_white_space(
            diagnostic.last(),
        ),
    ensures
        diagnostic.len() == 0 ==> exit_error(status, before + behind)
            == "native converter helper crashed or exited unsuccessfully ("@ + status + ")"@,
        diagnostic.len() > 0 ==> exit_error(status, before + diagnostic + behind)
            == "native converter helper crashed or exited unsuccessfully ("@ + status + "): "@
            + diagnostic,
{
    reveal_strlit(")");
    reveal_strlit(": ");
    reveal_strlit("): ");
    let head = "native converter helper crashed or exited unsuccessfully ("@ + status;
    if diagnostic.len() == 0 {
        text::law_trim_of_white_space(before + behind);
    } else {
        text::law_trim_leaves_the_middle(before, diagnostic, behind);
        assert(head + ")"@ + ": "@ + diagnostic =~= head + "): "@ + diagnostic);
    }
}

/// The helper answers at once whatever it does not convert: what it could not
/// read, what is longer than any request, what is no request, and a probe, which
/// it answers by whether it can convert.
pub proof fn law_helper_answers_what_it_does_not_convert(
    read: Result<Seq<u8>, Seq<char>>,
    native_available: bool,
)
    ensures
        ({
            let reply = helper_reply(read, native_available);
            let answers = |r: Result<Seq<char>, Seq<char>>|
                reply == HelperReplyView::Respond(protocol::response_bytes(r));
            &&& (read matches Err(e) ==> answers(
                Err("failed reading converter helper request: "@ + e),
            ))
            &&& (read matches Ok(bytes) ==> {
                &&& (bytes.len() > 24 + 1048576 ==> answers(
                    Err("converter helper request exceeded its input cap"@),
                ))
                &&& (bytes.len() <= 24 + 1048576 ==> match protocol::decoded_request(bytes) {
                    Err(e) => answers(Err(e)),
                    Ok(r) => if r is Probe && native_available {
                        answers(Ok("available"@))
                    } else if r is Probe {
                        answers(Err("helper was built without the native converter payload"@))
                    } else {
                        reply == HelperReplyView::Convert(r)
                    },
                })
            })
        }),
{
}

/// A host that probes a helper learns whether it can convert: the helper's answer
/// to a probe, read back, is the word that the host looks for exactly where the
/// helper can convert.
pub proof fn law_probe_tells_whether_the_helper_can_convert(native_available: bool)
    ensures
        ({
            let reply = helper_reply(
                Ok(protocol::request_bytes(protocol::RequestView::Probe)),
                native_available,
            );
            &&& reply is Respond
            &&& (protocol::decoded_response(reply->Respond_0) == Ok::<Seq<char>, Seq<char>>(
                "available"@,
            ) <==> native_available)
        }),
{
    protocol::law_request_roundtrip(protocol::RequestView::Probe);
    let r: Result<Seq<char>, Seq<char>> = if native_available {
        Ok("available"@)
    } else {
        Err("helper was built without the native converter payload"@)
    };
    reveal_strlit("available");
    utf8::lemma_encode_len("available"@);
    protocol::law_response_roundtrip(r);
}

/// A helper's file has the helper's name, with an extension on Windows alone.
pub proof fn law_helper_file_name(windows: bool)
    ensures
        windows ==> helper_file(windows) == "particle-milkdrop-converter-helper.exe"@,
        !windows ==> helper_file(windows) == "particle-milkdrop-converter-helper"@,
{
    reveal_strlit("particle-milkdrop-converter-helper");
    reveal_strlit("particle-milkdrop-converter-helper.exe");
    reveal_strlit(".exe");
    assert(windows ==> helper_file(windows) =~= "particle-milkdrop-converter-helper.exe"@);
}

/// The report that no helper was found names the file that is missing and the
/// variable that can name another.
pub proof fn law_missing_helper_is_named(windows: bool)
    ensures
        helper_missing(windows) == "native converter helper is not configured; package '"@
            + helper_file(windows)
            + "' beside the host executable, set PARTICLE_MILK_CONVERTER_HELPER to its exact path, or register a self-hosting executable before conversion (refusing unsafe in-process fallback)"@,
{
    reveal_strlit("' beside the host executable, set ");
    reveal_strlit("PARTICLE_MILK_CONVERTER_HELPER");
    reveal_strlit(
        " to its exact path, or register a self-hosting executable before conversion (refusing unsafe in-process fallback)",
    );
    reveal_strlit(
        "' beside the host executable, set PARTICLE_MILK_CONVERTER_HELPER to its exact path, or register a self-hosting executable before conversion (refusing unsafe in-process fallback)",
    );
    assert(helper_missing(windows) =~= "native converter helper is not configured; package '"@
        + helper_file(windows)
        + "' beside the host executable, set PARTICLE_MILK_CONVERTER_HELPER to its exact path, or register a self-hosting executable before conversion (refusing unsafe in-process fallback)"@);
}

/// A dedicated helper is started without arguments, and a self-hosting executable
/// with the one that asks it to be a helper: no program is both.
pub proof fn law_helper_arguments<P>(spec: HelperSpec<P>, path: P)
    ensures
        spec.is_dedicated(path) <==> spec.path == path && spec.args@.len() == 0,
        spec.is_self_hosted(path) <==> spec.path == path && spec.args@.len() == 1
            && spec.args@[0]@ == "--particle-milkdrop-converter-helper"@,
        !(spec.is_dedicated(path) && spec.is_self_hosted(path)),
{
}

/// An action and a reply are seen as they are.
pub proof fn law_actions_and_replies_as_they_are(action: HelperAction, reply: HelperReply)
    ensures
        action matches HelperAction::Wait { ms } ==> action@ == (HelperActionView::Wait {
            ms: ms as int,
        }),
        action matches HelperAction::Terminate { error } ==> action@ == (
        HelperActionView::Terminate { error: error@ }),
        action matches HelperAction::Finish(r) ==> action@ == HelperActionView::Finish(
            protocol::outcome(r),
        ),
        reply matches HelperReply::Respond(bytes) ==> reply@ == HelperReplyView::Respond(bytes@),
        reply matches HelperReply::Convert(r) ==> reply@ == HelperReplyView::Convert(
            DecodedRequest::Convert(r)@,
        ),
{
}

/// A configured path is authoritative: whatever else could be found, the helper is the
/// file there, without arguments, or there is none.
pub proof fn law_configured_helper_is_authoritative<P>(
    configured: ConfiguredHelper<P>,
    registered: Option<P>,
    adjacent: Result<(P, bool), String>,
    windows: bool,
    out: Result<HelperSpec<P>, String>,
)
    requires
        call_ensures(resolve_helper::<P>, (Some(configured), registered, adjacent, windows), out),
    ensures
        configured is Empty ==> (out matches Err(m) && m@
            == "PARTICLE_MILK_CONVERTER_HELPER"@ + " is set but empty"@),
        configured matches ConfiguredHelper::Path { path, shown, is_file } ==> {
            &&& (is_file ==> (out matches Ok(spec) && spec.path == path && spec.args@.len() == 0))
            &&& (!is_file ==> (out matches Err(m) && m@ == "PARTICLE_MILK_CONVERTER_HELPER"@
                + " points to missing helper "@ + shown@))
        },
{
}

/// Without a configured path a registered executable is the helper, asked by its one
/// argument, and only without that the file beside the current executable is.
pub proof fn law_registered_helper_comes_before_the_adjacent_one<P>(
    registered: Option<P>,
    adjacent: Result<(P, bool), String>,
    windows: bool,
    out: Result<HelperSpec<P>, String>,
)
    requires
        call_ensures(
            resolve_helper::<P>,
            (None::<ConfiguredHelper<P>>, registered, adjacent, windows),
            out,
        ),
    ensures
        registered matches Some(path) ==> (out matches Ok(spec) && spec.path == path
            && spec.args@.len() == 1 && spec.args@[0]@
            == "--particle-milkdrop-converter-helper"@),
        registered is None ==> match adjacent {
            Ok((path, true)) => out matches Ok(spec) && spec.path == path && spec.args@.len() == 0,
            Ok((_, false)) => out matches Err(m) && m@ == helper_missing(windows),
            Err(e) => out matches Err(m) && m@
                == "cannot locate converter helper beside current executable: "@ + e@,
        },
{
}

/// An executable is registered once: the first time its path is to be registered,
/// again for the same path nothing is to be done, and another path is refused. One
/// without the converter, or whose path is not known, is never registered.
pub proof fn law_executable_is_registered_once<P>(
    native_available: bool,
    current: Result<P, String>,
    existing: Option<(String, bool)>,
    out: Result<Option<P>, String>,
)
    requires
        call_ensures(
            register_current_executable_as_helper::<P>,
            (native_available, current, existing),
            out,
        ),
    ensures
        !native_available ==> (out matches Err(m) && m@
            == "this executable was built without the native converter payload"@),
        native_available ==> (current matches Err(e) ==> (out matches Err(m) && m@
            == "cannot resolve current executable for converter helper: "@ + e@)),
        native_available ==> (current matches Ok(path) ==> {
            &&& (existing is None ==> out == Ok::<Option<P>, String>(Some(path)))
            &&& (existing matches Some((_, true)) ==> out == Ok::<Option<P>, String>(None))
            &&& (existing matches Some((shown, false)) ==> (out matches Err(m) && m@
                == "converter helper already registered as "@ + shown@))
        }),
{
}

/// A pipe's bytes are handed on whole up to the cap, and refused beyond it.
pub proof fn law_pipe_is_read_up_to_its_cap(
    read: Result<Vec<u8>, String>,
    max: usize,
    out: Result<Vec<u8>, String>,
)
    requires
        call_ensures(read_limited, (read, max), out),
    ensures
        out is Ok <==> (read matches Ok(bytes) && bytes@.len() <= max),
        out is Ok ==> out == read,
        read matches Err(e) ==> (out matches Err(m) && m@
            == "failed reading converter helper pipe: "@ + e@),
        read matches Ok(bytes) ==> (out matches Err(m) ==> m@
            == "converter helper output exceeded the "@ + text::decimal(max as nat)
            + "-byte safety cap"@),
{
}

/// A helper is available exactly where its probe came back with the one word that says
/// so, and it exits with zero exactly where its answer was written.
pub proof fn law_availability_and_exit_code(
    probe: Result<String, String>,
    yes: bool,
    written: i32,
    failed: i32,
)
    requires
        call_ensures(helper_available, (probe,), yes),
        call_ensures(helper_exit_code, (true,), written),
        call_ensures(helper_exit_code, (false,), failed),
    ensures
        yes <==> (probe matches Ok(s) && s@ == "available"@),
        written == 0,
        failed == 74,
{
}

/// Helper mode is asked for by the first argument alone, and by this one alone.
pub proof fn law_helper_mode_is_asked_for(first_arg: Option<&str>, requested: bool)
    requires
        call_ensures(current_executable_helper_mode, (first_arg,), requested),
    ensures
        requested <==> (first_arg matches Some(arg) && arg@
            == "--particle-milkdrop-converter-helper"@),
{
}

/// A probe may take one second and a conversion eight, and each sends the frame of what
/// is asked; a conversion of too long texts is not sent at all.
pub proof fn law_jobs_send_what_is_asked(
    file_globals: Option<&str>,
    body: &str,
    optimize: bool,
    probe: HelperJob,
    out: Result<HelperJob, String>,
)
    requires
        call_ensures(probe_job, (), probe),
        call_ensures(convert, (file_globals, body, optimize), out),
    ensures
        probe.timeout_ms == 1000,
        probe.request@ == protocol::request_bytes(protocol::RequestView::Probe),
        ({
            let r = protocol::RequestView::Convert {
                file_globals: match file_globals {
                    Some(g) => Some(g@),
                    None => None,
                },
                body: body@,
                optimize,
            };
            &&& (protocol::request_size(r) <= 1048576 <==> out is Ok)
            &&& (out matches Ok(job) ==> job.timeout_ms == 8000 && job.request@
                == protocol::request_bytes(r))
        }),
{
    let r = protocol::RequestView::Convert {
        file_globals: match file_globals {
            Some(g) => Some(g@),
            None => None,
        },
        body: body@,
        optimize,
    };
    protocol::law_input_keeps_to_its_cap(protocol::request_size(r));
}

} // verus!
