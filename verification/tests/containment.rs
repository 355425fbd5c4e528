use particle_core::convert::{
    call_c_convert, convert_milk_shader, convert_milk_shader_call, convert_milk_shader_ex,
    convert_milk_shader_ex_call, convert_milk_shader_raw, convert_milk_shader_raw_call,
    decoded_outcome, native_call, NativeReply,
};
use particle_core::helper::{
    convert, current_executable_helper_mode, exit_error_message, helper_available,
    helper_exit_code, helper_exit_error, helper_file_name, invoke_helper, probe_job, read_limited,
    register_current_executable_as_helper, resolve_helper, run_converter_helper_stdio,
    ConfiguredHelper, HelperAction, HelperEvent, HelperExit, HelperReply, PipeEnd,
    CONVERTER_TIMEOUT_MS, CURRENT_EXE_HELPER_ARG, PROBE_TIMEOUT_MS,
};
use particle_core::protocol::{
    decode_request, decode_response, encode_request, encode_response, read_u32,
    validate_input_size, DecodedRequest, Request, MAX_CONVERTER_INPUT_BYTES,
    MAX_CONVERTER_OUTPUT_BYTES,
};
use particle_core::utf8::truncate_utf8;

#[test]
fn oversized_input_is_rejected_before_helper_discovery() {
    let body = "x".repeat(MAX_CONVERTER_INPUT_BYTES + 1);
    let error = match convert(None, &body, true) {
        Err(error) => error,
        Ok(_) => panic!("expected a refusal"),
    };
    assert!(error.contains("safety cap"), "{error}");
}

#[test]
fn protocol_error_response_is_fail_closed() {
    let bytes = encode_response(Err("compiler rejected shader".to_string()));
    assert_eq!(
        decode_response(&bytes),
        Err("compiler rejected shader".to_string())
    );
}

#[test]
fn missing_helper_is_reported_as_spawn_failure() {
    let action = invoke_helper(
        50,
        HelperEvent::SpawnFailed {
            path: "/definitely/not/a/particle-milkdrop-converter-helper".to_string(),
            error: "No such file or directory (os error 2)".to_string(),
        },
    );
    let error = match action {
        HelperAction::Finish(Err(error)) => error,
        _ => panic!("expected a failure"),
    };
    assert!(error.contains("failed to spawn"), "{error}");
    assert_eq!(
        error,
        "failed to spawn native converter helper \
         /definitely/not/a/particle-milkdrop-converter-helper: \
         No such file or directory (os error 2)"
    );
}

#[test]
fn request_roundtrip_preserves_fields() {
    let bytes = encode_request(Request::Convert {
        file_globals: Some("float g = 1;"),
        body: "ret = float3(g, 0, 0);",
        optimize: true,
    })
    .unwrap();
    let decoded = match decode_request(&bytes) {
        Ok(DecodedRequest::Convert(decoded)) => decoded,
        _ => panic!("expected conversion request"),
    };
    assert_eq!(decoded.file_globals.as_deref(), Some("float g = 1;"));
    assert_eq!(decoded.body, "ret = float3(g, 0, 0);");
    assert!(decoded.optimize);
}

#[test]
fn request_frame_bytes() {
    let bytes = encode_request(Request::Convert {
        file_globals: Some("é"),
        body: "ab",
        optimize: false,
    })
    .unwrap();
    let mut expected = b"PMCR".to_vec();
    for field in [1u32, 1, 2, 2, 2] {
        expected.extend_from_slice(&field.to_le_bytes());
    }
    expected.extend_from_slice("éab".as_bytes());
    assert_eq!(bytes, expected);
    assert_eq!(read_u32(&bytes, 16), Ok(2));
    assert_eq!(
        read_u32(&bytes, 25),
        Err("converter helper protocol field is truncated".to_string())
    );
}

#[test]
fn absent_and_empty_globals_stay_apart() {
    for (globals, optimize) in [(None, true), (Some(""), false)] {
        let bytes = encode_request(Request::Convert {
            file_globals: globals,
            body: "b",
            optimize,
        })
        .unwrap();
        match decode_request(&bytes) {
            Ok(DecodedRequest::Convert(r)) => {
                assert_eq!(r.file_globals.as_deref(), globals);
                assert_eq!(r.optimize, optimize);
            }
            _ => panic!("expected conversion request"),
        }
    }
    assert!(matches!(
        decode_request(&encode_request(Request::Probe).unwrap()),
        Ok(DecodedRequest::Probe)
    ));
}

fn frame(op: u32, flags: u32, globals: &[u8], body: &[u8]) -> Vec<u8> {
    let mut b = b"PMCR".to_vec();
    for field in [1, op, flags, globals.len() as u32, body.len() as u32] {
        b.extend_from_slice(&field.to_le_bytes());
    }
    b.extend_from_slice(globals);
    b.extend_from_slice(body);
    b
}

fn refusal(bytes: &[u8]) -> String {
    match decode_request(bytes) {
        Err(e) => e,
        Ok(_) => panic!("expected a refusal"),
    }
}

#[test]
fn malformed_requests_are_refused() {
    assert_eq!(
        refusal(b"PMCR"),
        "converter helper request header is truncated"
    );
    let mut bad = frame(1, 0, b"", b"x");
    bad[3] = b'S';
    assert_eq!(refusal(&bad), "converter helper request has bad magic");
    let mut old = frame(1, 0, b"", b"x");
    old[4] = 7;
    assert_eq!(
        refusal(&old),
        "unsupported converter helper protocol version 7"
    );
    let mut huge = frame(1, 0, b"", b"x");
    huge[20..24].copy_from_slice(&(MAX_CONVERTER_INPUT_BYTES as u32 + 1).to_le_bytes());
    assert_eq!(
        refusal(&huge),
        "converter helper request exceeds the 1048576-byte safety cap"
    );
    let mut short = frame(1, 0, b"", b"xyz");
    short.pop();
    assert_eq!(
        refusal(&short),
        "converter helper request length mismatch: expected 27, got 26"
    );
    assert_eq!(
        refusal(&frame(1, 4, b"", b"x")),
        "converter helper request has unknown flags"
    );
    assert_eq!(
        refusal(&frame(0, 0, b"", b"x")),
        "converter helper probe carries unexpected payload"
    );
    assert_eq!(
        refusal(&frame(1, 2, &[0xff], b"x")),
        "converter globals are not UTF-8"
    );
    assert_eq!(
        refusal(&frame(1, 2, b"g", &[0xc3])),
        "converter body is not UTF-8"
    );
    assert_eq!(
        refusal(&frame(1, 1, b"g", b"x")),
        "converter globals payload lacks its presence flag"
    );
    assert_eq!(
        refusal(&frame(9, 0, b"", b"")),
        "unknown converter helper operation 9"
    );
}

fn response(status: u32, payload: &[u8]) -> Vec<u8> {
    let mut b = b"PMCS".to_vec();
    for field in [1, status, payload.len() as u32] {
        b.extend_from_slice(&field.to_le_bytes());
    }
    b.extend_from_slice(payload);
    b
}

#[test]
fn malformed_responses_are_refused() {
    let err = |m: &str| Err(m.to_string());
    assert_eq!(
        decode_response(b"PMCS"),
        err("native converter helper returned a truncated response")
    );
    let mut bad = response(0, b"ok");
    bad[0] = b'X';
    assert_eq!(
        decode_response(&bad),
        err("native converter helper returned bad response magic")
    );
    let mut old = response(0, b"ok");
    old[4] = 2;
    assert_eq!(
        decode_response(&old),
        err("native converter helper returned unsupported protocol version 2")
    );
    let mut long = response(0, b"ok");
    long.push(b'!');
    assert_eq!(
        decode_response(&long),
        err("native converter helper returned an invalid payload length")
    );
    assert_eq!(
        decode_response(&response(0, &[0xff])),
        err("native converter helper returned non-UTF-8 output")
    );
    assert_eq!(
        decode_response(&response(5, b"ok")),
        err("native converter helper returned unknown status 5")
    );
    assert_eq!(decode_response(&response(0, b"ok")), Ok("ok".to_string()));
    assert_eq!(encode_response(Ok("ok".to_string())), response(0, b"ok"));
}

#[test]
fn oversized_output_becomes_an_error() {
    let long = "y".repeat(MAX_CONVERTER_OUTPUT_BYTES + 3);
    assert_eq!(
        decode_response(&encode_response(Ok(long))),
        Err("native converter output is 8388611 bytes, exceeding the 8388608-byte safety cap"
            .to_string())
    );
}

#[test]
fn truncation_respects_characters() {
    assert_eq!(truncate_utf8("aéb".to_string(), 9), "aéb");
    assert_eq!(truncate_utf8("aéb".to_string(), 4), "aéb");
    assert_eq!(truncate_utf8("aéb".to_string(), 3), "aé");
    assert_eq!(truncate_utf8("aéb".to_string(), 2), "a");
    assert_eq!(truncate_utf8("\u{1F600}".to_string(), 3), "");
}

#[test]
fn input_cap_counts_both_texts() {
    let half = "x".repeat(MAX_CONVERTER_INPUT_BYTES / 2);
    assert_eq!(validate_input_size(Some(&half), &half), Ok(()));
    let more = format!("{half}x");
    assert_eq!(
        validate_input_size(Some(&half), &more),
        Err("native converter input is 1048577 bytes, exceeding the 1048576-byte safety cap"
            .to_string())
    );
}

#[test]
fn jobs_carry_their_frame_and_deadline() {
    let job = match convert(Some("g"), "b", true) {
        Ok(job) => job,
        Err(e) => panic!("{e}"),
    };
    assert_eq!(job.request, frame(1, 3, b"g", b"b"));
    assert_eq!(job.timeout_ms, CONVERTER_TIMEOUT_MS);
    let probe = probe_job();
    assert_eq!(probe.request, frame(0, 0, b"", b""));
    assert_eq!(probe.timeout_ms, PROBE_TIMEOUT_MS);
}

#[test]
fn availability_needs_the_exact_answer() {
    assert!(helper_available(Ok("available".to_string())));
    assert!(!helper_available(Ok("Available".to_string())));
    assert!(!helper_available(Err("available".to_string())));
}

fn exited(success: bool, stdout: Vec<u8>, stderr: &[u8]) -> HelperExit {
    HelperExit {
        success,
        status: "exit status: 3".to_string(),
        stdin: PipeEnd::Returned(Ok(())),
        stdout: PipeEnd::Returned(Ok(stdout)),
        stderr: PipeEnd::Returned(Ok(stderr.to_vec())),
    }
}

fn outcome(action: HelperAction) -> Result<String, String> {
    match action {
        HelperAction::Finish(r) => r,
        HelperAction::Terminate { error } => Err(format!("terminate: {error}")),
        HelperAction::Wait { .. } => Err("wait".to_string()),
    }
}

#[test]
fn running_helper_is_awaited_until_the_deadline() {
    let early = invoke_helper(75, HelperEvent::Running { elapsed_nanos: 74_999_999 });
    assert!(matches!(early, HelperAction::Wait { ms: 5 }));
    let late = invoke_helper(75, HelperEvent::Running { elapsed_nanos: 75_000_000 });
    assert_eq!(
        outcome(late),
        Err("terminate: native converter helper timed out after 75 ms and was terminated"
            .to_string())
    );
    assert_eq!(
        outcome(invoke_helper(75, HelperEvent::PollFailed { error: "gone".to_string() })),
        Err("terminate: failed to poll native converter helper: gone".to_string())
    );
    assert_eq!(
        outcome(invoke_helper(75, HelperEvent::PipesMissing)),
        Err("terminate: converter helper pipes were not established".to_string())
    );
}

#[test]
fn exited_helper_is_judged_in_order() {
    let good = encode_response(Ok("void".to_string()));
    assert_eq!(
        outcome(invoke_helper(75, HelperEvent::Exited(exited(true, good.clone(), b"")))),
        Ok("void".to_string())
    );
    assert_eq!(
        outcome(invoke_helper(75, HelperEvent::Exited(exited(false, good.clone(), b"  boom\n")))),
        Err("native converter helper crashed or exited unsuccessfully (exit status: 3): boom"
            .to_string())
    );
    let mut unsent = exited(true, good.clone(), b"");
    unsent.stdin = PipeEnd::Returned(Err("broken pipe".to_string()));
    assert_eq!(
        outcome(invoke_helper(75, HelperEvent::Exited(unsent))),
        Err("failed to send request to converter helper: broken pipe".to_string())
    );
    let mut lost = exited(true, good.clone(), b"");
    lost.stdin = PipeEnd::Panicked;
    assert_eq!(
        outcome(invoke_helper(75, HelperEvent::Exited(lost))),
        Err("converter helper stdin writer panicked".to_string())
    );
    let mut deaf = exited(true, good.clone(), b"");
    deaf.stdout = PipeEnd::Panicked;
    assert_eq!(
        outcome(invoke_helper(75, HelperEvent::Exited(deaf))),
        Err("converter helper stdout reader panicked".to_string())
    );
    let mut mute = exited(false, good.clone(), b"");
    mute.stderr = PipeEnd::Panicked;
    assert_eq!(
        outcome(invoke_helper(75, HelperEvent::Exited(mute))),
        Err("converter helper stderr reader panicked".to_string())
    );
    let mut flood = exited(true, good, b"");
    flood.stdout = PipeEnd::Returned(Err("too much".to_string()));
    assert_eq!(
        outcome(invoke_helper(75, HelperEvent::Exited(flood))),
        Err("too much".to_string())
    );
}

#[test]
fn exit_reports_patch_up_their_diagnostic() {
    assert_eq!(
        exit_error_message("signal: 6", " \n"),
        "native converter helper crashed or exited unsuccessfully (signal: 6)"
    );
    assert_eq!(
        helper_exit_error("signal: 6", &[b'a', 0xff, b'\n']),
        "native converter helper crashed or exited unsuccessfully (signal: 6): a\u{fffd}"
    );
}

#[test]
fn pipes_are_read_up_to_their_cap() {
    assert_eq!(read_limited(Ok(vec![1, 2]), 2), Ok(vec![1, 2]));
    assert_eq!(
        read_limited(Ok(vec![1, 2, 3]), 2),
        Err("converter helper output exceeded the 2-byte safety cap".to_string())
    );
    assert_eq!(
        read_limited(Err("eof".to_string()), 2),
        Err("failed reading converter helper pipe: eof".to_string())
    );
}

fn resolved(
    configured: Option<ConfiguredHelper<&'static str>>,
    registered: Option<&'static str>,
    adjacent: Result<(&'static str, bool), String>,
) -> Result<(String, Vec<String>), String> {
    resolve_helper(configured, registered, adjacent, false)
        .map(|spec| (spec.path.to_string(), spec.args))
}

#[test]
fn helper_discovery_order() {
    let path = |is_file| {
        Some(ConfiguredHelper::Path {
            path: "/opt/helper",
            shown: "/opt/helper".to_string(),
            is_file,
        })
    };
    assert_eq!(
        resolved(Some(ConfiguredHelper::Empty), Some("/self"), Ok(("/near", true))),
        Err("PARTICLE_MILK_CONVERTER_HELPER is set but empty".to_string())
    );
    assert_eq!(
        resolved(path(false), Some("/self"), Ok(("/near", true))),
        Err("PARTICLE_MILK_CONVERTER_HELPER points to missing helper /opt/helper".to_string())
    );
    assert_eq!(
        resolved(path(true), Some("/self"), Ok(("/near", true))),
        Ok(("/opt/helper".to_string(), vec![]))
    );
    assert_eq!(
        resolved(None, Some("/self"), Ok(("/near", true))),
        Ok(("/self".to_string(), vec![CURRENT_EXE_HELPER_ARG.to_string()]))
    );
    assert_eq!(
        resolved(None, None, Ok(("/near", true))),
        Ok(("/near".to_string(), vec![]))
    );
    assert_eq!(
        resolved(None, None, Err("no exe".to_string())),
        Err("cannot locate converter helper beside current executable: no exe".to_string())
    );
    assert_eq!(
        resolved(None, None, Ok(("/near", false))),
        Err("native converter helper is not configured; package \
             'particle-milkdrop-converter-helper' beside the host executable, set \
             PARTICLE_MILK_CONVERTER_HELPER to its exact path, or register a self-hosting \
             executable before conversion (refusing unsafe in-process fallback)"
            .to_string())
    );
    assert_eq!(
        helper_file_name(true),
        "particle-milkdrop-converter-helper.exe"
    );
}

#[test]
fn registration_happens_once() {
    assert_eq!(
        register_current_executable_as_helper(false, Ok("/a"), None),
        Err("this executable was built without the native converter payload".to_string())
    );
    assert_eq!(
        register_current_executable_as_helper::<&str>(true, Err("gone".to_string()), None),
        Err("cannot resolve current executable for converter helper: gone".to_string())
    );
    assert_eq!(
        register_current_executable_as_helper(true, Ok("/a"), None),
        Ok(Some("/a"))
    );
    assert_eq!(
        register_current_executable_as_helper(true, Ok("/a"), Some(("/a".to_string(), true))),
        Ok(None)
    );
    assert_eq!(
        register_current_executable_as_helper(true, Ok("/a"), Some(("/b".to_string(), false))),
        Err("converter helper already registered as /b".to_string())
    );
    assert!(current_executable_helper_mode(Some(
        "--particle-milkdrop-converter-helper"
    )));
    assert!(!current_executable_helper_mode(Some("--help")));
    assert!(!current_executable_helper_mode(None));
}

fn answered(reply: HelperReply) -> Result<String, String> {
    match reply {
        HelperReply::Respond(bytes) => decode_response(&bytes),
        HelperReply::Convert(_) => panic!("expected an answer"),
    }
}

#[test]
fn helper_answers_what_it_does_not_convert() {
    let probe = encode_request(Request::Probe).unwrap();
    assert_eq!(
        answered(run_converter_helper_stdio(Ok(probe.clone()), true)),
        Ok("available".to_string())
    );
    assert_eq!(
        answered(run_converter_helper_stdio(Ok(probe), false)),
        Err("helper was built without the native converter payload".to_string())
    );
    assert_eq!(
        answered(run_converter_helper_stdio(Err("closed".to_string()), true)),
        Err("failed reading converter helper request: closed".to_string())
    );
    assert_eq!(
        answered(run_converter_helper_stdio(
            Ok(vec![0; 24 + MAX_CONVERTER_INPUT_BYTES + 1]),
            true
        )),
        Err("converter helper request exceeded its input cap".to_string())
    );
    assert_eq!(
        answered(run_converter_helper_stdio(Ok(vec![1, 2, 3]), true)),
        Err("converter helper request header is truncated".to_string())
    );
    match run_converter_helper_stdio(Ok(frame(1, 3, b"g", b"b")), true) {
        HelperReply::Convert(r) => {
            assert_eq!(r.file_globals.as_deref(), Some("g"));
            assert_eq!(r.body, "b");
            assert!(r.optimize);
        }
        HelperReply::Respond(_) => panic!("expected a conversion"),
    }
    assert_eq!(helper_exit_code(true), 0);
    assert_eq!(helper_exit_code(false), 74);
}

const NOT_BUILT: &str = "native .milk converter not built into this binary (hlsl2glslfork + \
     glsl-optimizer sources were absent at build time). Load a pre-converted \
     .json preset, or rebuild with the converter sources present.";

fn output(rc: i32, bytes: &[u8]) -> NativeReply {
    NativeReply::Output {
        rc,
        bytes: bytes.to_vec(),
    }
}

#[test]
fn build_without_converter_always_refuses() {
    let err = Err(NOT_BUILT.to_string());
    assert_eq!(convert_milk_shader("ret = 1;", NativeReply::NotBuilt), err);
    assert_eq!(
        convert_milk_shader_raw("a\0b", false, NativeReply::NotBuilt),
        err
    );
    assert_eq!(
        convert_milk_shader_ex("g", "b", true, NativeReply::NotBuilt),
        err
    );
}

#[test]
fn native_replies_are_judged() {
    assert_eq!(
        convert_milk_shader_raw("b", true, output(0, "é".as_bytes())),
        Ok("é".to_string())
    );
    assert_eq!(
        convert_milk_shader_raw("b", true, output(0, &[b'x', 0xff])),
        Err("converter returned non-UTF-8 GLSL output: x\u{fffd}".to_string())
    );
    assert_eq!(
        convert_milk_shader_raw("b", true, output(2, b"line 3: no")),
        Err("line 3: no".to_string())
    );
    assert_eq!(
        convert_milk_shader_raw("b", true, output(2, &[0xff])),
        Err("\u{fffd}".to_string())
    );
    assert_eq!(
        convert_milk_shader_raw("b", true, NativeReply::Null { rc: -7 }),
        Err("milk_convert_shader returned null output (rc=-7)".to_string())
    );
    assert_eq!(
        decoded_outcome(0, Err("x".to_string())),
        Err("converter returned non-UTF-8 GLSL output: x".to_string())
    );
}

#[test]
fn zero_bytes_cannot_be_handed_over() {
    let call = match native_call(Some("g"), "b", true) {
        Ok(call) => call,
        Err(e) => panic!("{e}"),
    };
    assert_eq!(call.file_globals, Some("g"));
    assert_eq!(call.hlsl_body, "b");
    assert!(call.optimize);
    assert_eq!(
        call_c_convert(None, "é\0", true, output(0, b"x")),
        Err("CString::new failed: nul byte found in provided data at position: 2".to_string())
    );
    assert_eq!(
        call_c_convert(Some("\0"), "b", true, output(0, b"x")),
        Err("CString::new (globals) failed: nul byte found in provided data at position: 0"
            .to_string())
    );
}

#[test]
fn converted_programs_are_post_processed() {
    let program = b"void main() {\n  lowp vec4 c;\n  _glesFragData[0] = c;\n}\n";
    assert_eq!(
        convert_milk_shader("b", output(0, program)),
        Ok("\n  vec4 c;\n  ret = c.xyz;\n".to_string())
    );
    assert_eq!(
        convert_milk_shader_ex("g", "b", false, output(0, program)),
        Ok("\n  vec4 c;\n  ret = c.xyz;\n".to_string())
    );
    assert_eq!(
        convert_milk_shader_ex("g", "b", false, output(1, program)),
        Err(String::from_utf8(program.to_vec()).unwrap())
    );
}

#[test]
fn each_entry_point_makes_its_own_call() {
    let call = convert_milk_shader_call("body").unwrap_or_else(|e| panic!("{e}"));
    assert_eq!((call.file_globals, call.hlsl_body, call.optimize), (None, "body", true));
    let call = convert_milk_shader_raw_call("body", false).unwrap_or_else(|e| panic!("{e}"));
    assert_eq!((call.file_globals, call.hlsl_body, call.optimize), (None, "body", false));
    let call = convert_milk_shader_ex_call("g", "body", true).unwrap_or_else(|e| panic!("{e}"));
    assert_eq!((call.file_globals, call.hlsl_body, call.optimize), (Some("g"), "body", true));
    assert_eq!(
        convert_milk_shader_ex_call("g\0", "body", true).err().as_deref(),
        Some("CString::new (globals) failed: nul byte found in provided data at position: 1")
    );
}
