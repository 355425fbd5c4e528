//! Conversion of a MilkDrop shader through the native converter: what is handed
//! to its C interface, and what becomes of its reply.

use crate::glsl;
use crate::glsl::process_native_glsl;
use crate::protocol;
use crate::text;
use crate::text::{decimal_text, signed_decimal_text};
use crate::utf8;
use crate::utf8::{text_of_lossy_utf8, text_of_utf8};
use vstd::prelude::*;
use vstd::string::*;
use vstd::utf8::*;

verus! {

/// One call of the native converter: the file-scope globals where they come
/// apart from the body, the body, and whether the optimiser runs.
pub struct NativeCall<'a> {
    pub file_globals: Option<&'a str>,
    pub hlsl_body: &'a str,
    pub optimize: bool,
}

/// What came back from the native converter.
pub enum NativeReply {
    /// The converter is not part of this build.
    NotBuilt,
    /// The converter returned `rc` and no output.
    Null { rc: i32 },
    /// The converter returned `rc` and these bytes.
    Output { rc: i32, bytes: Vec<u8> },
}

/// What came back from the native converter, with its bytes as a sequence.
pub ghost enum NativeReplyView {
    NotBuilt,
    Null { rc: int },
    Output { rc: int, bytes: Seq<u8> },
}

impl View for NativeReply {
    type V = NativeReplyView;

    open spec fn view(&self) -> NativeReplyView {
        match *self {
            NativeReply::NotBuilt => NativeReplyView::NotBuilt,
            NativeReply::Null { rc } => NativeReplyView::Null { rc: rc as int },
            NativeReply::Output { rc, bytes } => NativeReplyView::Output {
                rc: rc as int,
                bytes: bytes@,
            },
        }
    }
}

// ---------------------------------------------------------------------------
// The call
// ---------------------------------------------------------------------------
/// The first index from `i` on that holds a zero byte.
pub open spec fn zero_byte_from(b: Seq<u8>, i: int) -> Option<int>
    decreases b.len() - i,
{
    if i < 0 || i >= b.len() {
        None
    } else if b[i] == 0 {
        Some(i)
    } else {
        zero_byte_from(b, i + 1)
    }
}

/// Why `s` cannot be a C string, with `prefix` in front: where its first zero
/// byte stands.
pub open spec fn c_string_error(prefix: Seq<char>, s: Seq<char>) -> Option<Seq<char>> {
    match zero_byte_from(encode_utf8(s), 0) {
        Some(i) => Some(
            prefix + "nul byte found in provided data at position: "@ + text::decimal(i as nat),
        ),
        None => None,
    }
}

/// Why a call cannot be made: the body is looked at first, then the globals.
pub open spec fn native_call_error(
    file_globals: Option<Seq<char>>,
    hlsl_body: Seq<char>,
) -> Option<Seq<char>> {
    match c_string_error("CString::new failed: "@, hlsl_body) {
        Some(m) => Some(m),
        None => match file_globals {
            Some(g) => c_string_error("CString::new (globals) failed: "@, g),
            None => None,
        },
    }
}

/// The text of an optional string slice.
pub open spec fn optional_text(s: Option<&str>) -> Option<Seq<char>> {
    match s {
        Some(g) => Some(g@),
        None => None,
    }
}

fn check_c_string(prefix: &str, s: &str) -> (out: Option<String>)
    ensures
        match c_string_error(prefix@, s@) {
            Some(m) => out is Some && out->0@ == m,
            None => out is None,
        },
{
    let bytes = s.as_bytes();
    let mut i: usize = 0;
    while i < bytes.len()
        invariant
            bytes@ == encode_utf8(s@),
            i <= bytes@.len(),
            zero_byte_from(bytes@, 0) == zero_byte_from(bytes@, i as int),
        decreases bytes@.len() - i,
    {
        if bytes[i] == 0 {
            let mut m = prefix.to_owned();
            m.append("nul byte found in provided data at position: ");
            m.append(decimal_text(i as u128).as_str());
            return Some(m);
        }
        i += 1;
    }
    None
}

/// The call to make of the native converter. Its texts become C strings, so
/// neither may hold a zero byte.
pub fn native_call<'a>(
    file_globals: Option<&'a str>,
    hlsl_body: &'a str,
    optimize: bool,
) -> (out: Result<NativeCall<'a>, String>)
    ensures
        match native_call_error(optional_text(file_globals), hlsl_body@) {
            Some(m) => out is Err && out->Err_0@ == m,
            None => out == Ok::<NativeCall<'a>, String>(
                (NativeCall { file_globals, hlsl_body, optimize }),
            ),
        },
{
    match check_c_string("CString::new failed: ", hlsl_body) {
        Some(m) => {
            return Err(m);
        },
        None => {},
    }
    if let Some(g) = file_globals {
        match check_c_string("CString::new (globals) failed: ", g) {
            Some(m) => {
                return Err(m);
            },
            None => {},
        }
    }
    Ok(NativeCall { file_globals, hlsl_body, optimize })
}

/// The call that [`convert_milk_shader`] makes: the body alone, optimised.
pub fn convert_milk_shader_call<'a>(hlsl_body: &'a str) -> (out: Result<NativeCall<'a>, String>)
    ensures
        match native_call_error(None, hlsl_body@) {
            Some(m) => out is Err && out->Err_0@ == m,
            None => out == Ok::<NativeCall<'a>, String>(
                (NativeCall { file_globals: None, hlsl_body, optimize: true }),
            ),
        },
{
    convert_milk_shader_raw_call(hlsl_body, true)
}

/// The call that [`convert_milk_shader_raw`] makes: the body alone, optimised
/// where that is asked for.
pub fn convert_milk_shader_raw_call<'a>(hlsl_body: &'a str, optimize: bool) -> (out: Result<
    NativeCall<'a>,
    String,
>)
    ensures
        match native_call_error(None, hlsl_body@) {
            Some(m) => out is Err && out->Err_0@ == m,
            None => out == Ok::<NativeCall<'a>, String>(
                (NativeCall { file_globals: None, hlsl_body, optimize }),
            ),
        },
{
    native_call(None, hlsl_body, optimize)
}

/// The call that [`convert_milk_shader_ex`] makes: the globals and the body,
/// optimised where that is asked for.
pub fn convert_milk_shader_ex_call<'a>(
    file_globals: &'a str,
    body_inner: &'a str,
    optimize: bool,
) -> (out: Result<NativeCall<'a>, String>)
    ensures
        match native_call_error(Some(file_globals@), body_inner@) {
            Some(m) => out is Err && out->Err_0@ == m,
            None => out == Ok::<NativeCall<'a>, String>(
                (NativeCall { file_globals: Some(file_globals), hlsl_body: body_inner, optimize }),
            ),
        },
{
    native_call(Some(file_globals), body_inner, optimize)
}

// ---------------------------------------------------------------------------
// The reply
// ---------------------------------------------------------------------------
/// The output of a converter that returned `rc`, where `decoded` is its text,
/// or a readable form of it where it is not UTF-8.
pub open spec fn text_outcome(rc: int, decoded: Result<Seq<char>, Seq<char>>) -> Result<
    Seq<char>,
    Seq<char>,
> {
    match decoded {
        Ok(s) => if rc == 0 {
            Ok(s)
        } else {
            Err(s)
        },
        Err(lossy) => if rc == 0 {
            Err("converter returned non-UTF-8 GLSL output: "@ + lossy)
        } else {
            Err(lossy)
        },
    }
}

/// What the reply of the native converter means: a success must be UTF-8, and
/// the text of a failure is only a diagnostic.
pub open spec fn native_outcome(reply: NativeReplyView) -> Result<Seq<char>, Seq<char>> {
    match reply {
        NativeReplyView::NotBuilt => Err(
            "native .milk converter not built into this binary (hlsl2glslfork + glsl-optimizer sources were absent at build time). Load a pre-converted .json preset, or rebuild with the converter sources present."@,
        ),
        NativeReplyView::Null { rc } => Err(
            "milk_convert_shader returned null output (rc="@ + text::signed_decimal(rc) + ")"@,
        ),
        NativeReplyView::Output { rc, bytes } => if valid_utf8(bytes) {
            text_outcome(rc, Ok(decode_utf8(bytes)))
        } else {
            text_outcome(rc, Err(utf8::lossy_utf8(bytes)))
        },
    }
}

/// What a converter's return code and decoded output mean together.
pub fn decoded_outcome(rc: i32, decoded: Result<String, String>) -> (out: Result<String, String>)
    ensures
        protocol::outcome(out) == text_outcome(rc as int, protocol::outcome(decoded)),
{
    match decoded {
        Ok(s) => if rc == 0 {
            Ok(s)
        } else {
            Err(s)
        },
        Err(lossy) => if rc == 0 {
            let mut m = "converter returned non-UTF-8 GLSL output: ".to_owned();
            m.append(lossy.as_str());
            Err(m)
        } else {
            Err(lossy)
        },
    }
}

/// What a conversion gives for the reply of the native converter. A build
/// without the converter looks at no text; one with it refuses a call that
/// cannot be made.
pub open spec fn converted(
    file_globals: Option<Seq<char>>,
    hlsl_body: Seq<char>,
    reply: NativeReplyView,
) -> Result<Seq<char>, Seq<char>> {
    if reply is NotBuilt {
        native_outcome(reply)
    } else {
        match native_call_error(file_globals, hlsl_body) {
            Some(m) => Err(m),
            None => native_outcome(reply),
        }
    }
}

/// A converted program with its body cut out and rewritten.
pub open spec fn post_processed(r: Result<Seq<char>, Seq<char>>) -> Result<Seq<char>, Seq<char>> {
    match r {
        Ok(s) => Ok(glsl::processed(s)),
        Err(e) => Err(e),
    }
}

/// The full GLSL ES program for a shader, given the native converter's reply to
/// the call that [`native_call`] describes.
pub fn call_c_convert(
    file_globals: Option<&str>,
    hlsl_body: &str,
    optimize: bool,
    reply: NativeReply,
) -> (out: Result<String, String>)
    ensures
        protocol::outcome(out) == converted(optional_text(file_globals), hlsl_body@, reply@),
{
    let (rc, output): (i32, Option<Vec<u8>>) = match reply {
        NativeReply::NotBuilt => {
            return Err(
                "native .milk converter not built into this binary (hlsl2glslfork + glsl-optimizer sources were absent at build time). Load a pre-converted .json preset, or rebuild with the converter sources present.".to_owned(),
            );
        },
        NativeReply::Null { rc } => (rc, None),
        NativeReply::Output { rc, bytes } => (rc, Some(bytes)),
    };
    match native_call(file_globals, hlsl_body, optimize) {
        Err(m) => {
            return Err(m);
        },
        Ok(_) => {},
    }
    match output {
        None => {
            let mut m = "milk_convert_shader returned null output (rc=".to_owned();
            m.append(signed_decimal_text(rc).as_str());
            m.append(")");
            Err(m)
        },
        Some(bytes) => match text_of_utf8(bytes.as_slice()) {
            Some(s) => decoded_outcome(rc, Ok(s)),
            None => decoded_outcome(rc, Err(text_of_lossy_utf8(bytes.as_slice()))),
        },
    }
}

/// Converts a shader body to a full GLSL ES program, given the native
/// converter's reply to the call that [`convert_milk_shader_raw_call`] gives.
pub fn convert_milk_shader_raw(
    hlsl_body: &str,
    optimize: bool,
    reply: NativeReply,
) -> (out: Result<String, String>)
    ensures
        protocol::outcome(out) == converted(None, hlsl_body@, reply@),
{
    call_c_convert(None, hlsl_body, optimize, reply)
}

/// Converts a shader body to the rewritten body of the GLSL program, given the
/// native converter's reply to the call that [`convert_milk_shader_call`] gives.
pub fn convert_milk_shader(hlsl_body: &str, reply: NativeReply) -> (out: Result<String, String>)
    ensures
        protocol::outcome(out) == post_processed(converted(None, hlsl_body@, reply@)),
{
    match convert_milk_shader_raw(hlsl_body, true, reply) {
        Ok(program) => Ok(process_native_glsl(program.as_str())),
        Err(e) => Err(e),
    }
}

/// Converts a shader whose file-scope globals come apart from its body to the
/// rewritten body of the GLSL program, given the native converter's reply to
/// the call that [`convert_milk_shader_ex_call`] gives.
pub fn convert_milk_shader_ex(
    file_globals: &str,
    body_inner: &str,
    optimize: bool,
    reply: NativeReply,
) -> (out: Result<String, String>)
    ensures
        protocol::outcome(out) == post_processed(
            converted(Some(file_globals@), body_inner@, reply@),
        ),
{
    match call_c_convert(Some(file_globals), body_inner, optimize, reply) {
        Ok(program) => Ok(process_native_glsl(program.as_str())),
        Err(e) => Err(e),
    }
}

// ---------------------------------------------------------------------------
// Laws
// ---------------------------------------------------------------------------
/// A conversion succeeds only where the converter returned zero and its output
/// is UTF-8: nothing that had to be patched up is ever passed on.
pub proof fn law_success_is_clean_utf8(
    file_globals: Option<Seq<char>>,
    hlsl_body: Seq<char>,
    reply: NativeReplyView,
)
    requires
        converted(file_globals, hlsl_body, reply) is Ok,
    ensures
        reply is Output,
        reply->Output_rc == 0,
        valid_utf8(reply->bytes),
        encode_utf8(converted(file_globals, hlsl_body, reply)->Ok_0) == reply->bytes,
{
    decode_utf8_encode_utf8(reply->bytes);
}

/// A zero byte is found where the first one stands, and none only where there is
/// none.
pub proof fn law_first_zero_byte_is_found(b: Seq<u8>, from: int)
    requires
        0 <= from,
    ensures
        match zero_byte_from(b, from) {
            Some(k) => from <= k < b.len() && b[k] == 0 && forall|j: int|
                from <= j < k ==> #[trigger] b[j] != 0,
            None => forall|j: int| from <= j < b.len() ==> #[trigger] b[j] != 0,
        },
    decreases b.len() - from,
{
    if from < b.len() && b[from] != 0 {
        law_first_zero_byte_is_found(b, from + 1);
    }
}

/// A call can be made exactly where neither text holds a zero byte. A zero byte in
/// the body is reported first, and one in the globals only where the body has none;
/// each by the place of the first one.
pub proof fn law_calls_with_zero_bytes_are_refused(
    file_globals: Option<Seq<char>>,
    hlsl_body: Seq<char>,
    k: int,
)
    requires
        0 <= k,
    ensures
        native_call_error(file_globals, hlsl_body) is None <==> !encode_utf8(hlsl_body).contains(0)
            && (file_globals matches Some(g) ==> !encode_utf8(g).contains(0)),
        k < encode_utf8(hlsl_body).len() && encode_utf8(hlsl_body)[k] == 0 && (forall|j: int|
            0 <= j < k ==> #[trigger] encode_utf8(hlsl_body)[j] != 0) ==> native_call_error(
            file_globals,
            hlsl_body,
        ) == Some(
            "CString::new failed: nul byte found in provided data at position: "@ + text::decimal(
                k as nat,
            ),
        ),
        !encode_utf8(hlsl_body).contains(0) ==> (file_globals matches Some(g) ==> (k < encode_utf8(
            g,
        ).len() && encode_utf8(g)[k] == 0 && (forall|j: int|
            0 <= j < k ==> #[trigger] encode_utf8(g)[j] != 0) ==> native_call_error(
            file_globals,
            hlsl_body,
        ) == Some(
            "CString::new (globals) failed: nul byte found in provided data at position: "@
                + text::decimal(k as nat),
        ))),
{
    reveal_strlit("CString::new failed: ");
    reveal_strlit("CString::new (globals) failed: ");
    reveal_strlit("nul byte found in provided data at position: ");
    reveal_strlit("CString::new failed: nul byte found in provided data at position: ");
    reveal_strlit("CString::new (globals) failed: nul byte found in provided data at position: ");
    assert("CString::new failed: "@ + "nul byte found in provided data at position: "@
        =~= "CString::new failed: nul byte found in provided data at position: "@);
    assert("CString::new (globals) failed: "@ + "nul byte found in provided data at position: "@
        =~= "CString::new (globals) failed: nul byte found in provided data at position: "@);
    let b = encode_utf8(hlsl_body);
    law_first_zero_byte_is_found(b, 0);
    if zero_byte_from(b, 0) is Some {
        assert(b.contains(0));
    }
    match file_globals {
        Some(g) => {
            law_first_zero_byte_is_found(encode_utf8(g), 0);
            if zero_byte_from(encode_utf8(g), 0) is Some {
                assert(encode_utf8(g).contains(0));
            }
        },
        None => {},
    }
}

/// What a reply means: a return code of zero with UTF-8 output is a success with
/// that text, any other code a failure whose diagnostic is the output, and a code of
/// zero with output that is not UTF-8 a failure that says so; without output the
/// failure gives the code.
pub proof fn law_meaning_of_a_reply(rc: int, bytes: Seq<u8>)
    ensures
        rc == 0 && valid_utf8(bytes) ==> native_outcome((NativeReplyView::Output { rc, bytes })) == Ok::<
            Seq<char>,
            Seq<char>,
        >(decode_utf8(bytes)),
        rc != 0 && valid_utf8(bytes) ==> native_outcome((NativeReplyView::Output { rc, bytes }))
            == Err::<Seq<char>, Seq<char>>(decode_utf8(bytes)),
        rc == 0 && !valid_utf8(bytes) ==> native_outcome((NativeReplyView::Output { rc, bytes }))
            == Err::<Seq<char>, Seq<char>>(
            "converter returned non-UTF-8 GLSL output: "@ + utf8::lossy_utf8(bytes),
        ),
        rc != 0 && !valid_utf8(bytes) ==> native_outcome((NativeReplyView::Output { rc, bytes }))
            == Err::<Seq<char>, Seq<char>>(utf8::lossy_utf8(bytes)),
        native_outcome((NativeReplyView::Null { rc })) == Err::<Seq<char>, Seq<char>>(
            "milk_convert_shader returned null output (rc="@ + text::signed_decimal(rc) + ")"@,
        ),
        native_outcome(NativeReplyView::NotBuilt) == Err::<Seq<char>, Seq<char>>(
            "native .milk converter not built into this binary (hlsl2glslfork + glsl-optimizer sources were absent at build time). Load a pre-converted .json preset, or rebuild with the converter sources present."@,
        ),
{
}

/// A build without the converter fails the same way whatever it is given. One with it
/// refuses a call that cannot be made, and what it makes of any other is what the
/// reply means.
pub proof fn law_conversion_goes_by_call_and_reply(
    file_globals: Option<Seq<char>>,
    hlsl_body: Seq<char>,
    reply: NativeReplyView,
)
    ensures
        reply is NotBuilt ==> converted(file_globals, hlsl_body, reply) == native_outcome(reply)
            && converted(file_globals, hlsl_body, reply) is Err,
        !(reply is NotBuilt) ==> (native_call_error(file_globals, hlsl_body) matches Some(m)
            ==> converted(file_globals, hlsl_body, reply) == Err::<Seq<char>, Seq<char>>(m)),
        !(reply is NotBuilt) && native_call_error(file_globals, hlsl_body) is None ==> converted(
            file_globals,
            hlsl_body,
            reply,
        ) == native_outcome(reply),
{
}

/// Only a converted program is rewritten: a failure comes through as it is.
pub proof fn law_only_a_program_is_rewritten(r: Result<Seq<char>, Seq<char>>)
    ensures
        r matches Ok(s) ==> post_processed(r) == Ok::<Seq<char>, Seq<char>>(glsl::processed(s)),
        r matches Err(e) ==> post_processed(r) == r,
{
}

/// What came back is seen as it is, and an optional text is the text where there is
/// one.
pub proof fn law_replies_and_texts_as_they_are(reply: NativeReply, s: Option<&str>)
    ensures
        reply is NotBuilt <==> reply@ is NotBuilt,
        reply matches NativeReply::Null { rc } ==> reply@ == (NativeReplyView::Null {
            rc: rc as int,
        }),
        reply matches NativeReply::Output { rc, bytes } ==> reply@ == (NativeReplyView::Output {
            rc: rc as int,
            bytes: bytes@,
        }),
        s matches Some(g) ==> optional_text(s) == Some(g@),
        s is None ==> optional_text(s) is None,
{
}

/// A call hands the converter what it was given, unchanged; the plain conversions hand
/// it no globals, and the plainest one asks for the optimiser.
pub proof fn law_calls_hand_on_what_they_are_given(
    globals: &str,
    body: &str,
    optimize: bool,
    plain: Result<NativeCall<'_>, String>,
    raw: Result<NativeCall<'_>, String>,
    full: Result<NativeCall<'_>, String>,
)
    requires
        call_ensures(convert_milk_shader_call, (body,), plain),
        call_ensures(convert_milk_shader_raw_call, (body, optimize), raw),
        call_ensures(convert_milk_shader_ex_call, (globals, body, optimize), full),
    ensures
        plain is Ok <==> !encode_utf8(body@).contains(0),
        raw is Ok <==> plain is Ok,
        full is Ok <==> plain is Ok && !encode_utf8(globals@).contains(0),
        plain matches Ok(c) ==> c.file_globals is None && c.hlsl_body == body && c.optimize,
        raw matches Ok(c) ==> c.file_globals is None && c.hlsl_body == body && c.optimize
            == optimize,
        full matches Ok(c) ==> c.file_globals == Some(globals) && c.hlsl_body == body && c.optimize
            == optimize,
{
    law_calls_with_zero_bytes_are_refused(None, body@, 0);
    law_calls_with_zero_bytes_are_refused(Some(globals@), body@, 0);
}

} // verus!
