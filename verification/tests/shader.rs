use particle_core::glsl::{
    expand_swizzle_stores, find_simple_assign, process_native_glsl, transform_frag_output,
    try_expand_swizzle_store,
};
use particle_core::text::{
    chars_of, decimal_text, find_text, has_prefix, has_text, replaced, rfind_text,
    signed_decimal_text, split_lines, string_of, trimmed, trimmed_end, trimmed_start, white_space,
};

fn chars(s: &str) -> Vec<char> {
    s.chars().collect()
}

fn text(v: &[char]) -> String {
    v.iter().collect()
}

#[test]
fn text_helpers_agree_with_the_standard_library() {
    let samples = [
        "", "a", "aa", "lowp vec4", "\n", "\r\n", "a\r\nb", "a\nb\n", "a\r", "x\r\r\ny", "\n\n",
        "  \u{3000}é\u{85} ", "aXbXXc", "é\u{1F600}é", "abcabcab", "\u{200b}z",
    ];
    for s in samples {
        let c = chars_of(s);
        assert_eq!(string_of(&c), s);
        assert_eq!(text(trimmed(&c)), s.trim());
        assert_eq!(text(trimmed_start(&c)), s.trim_start());
        assert_eq!(text(trimmed_end(&c)), s.trim_end());
        let lines: Vec<String> = split_lines(&c).iter().map(|l| text(l)).collect();
        let expected: Vec<String> = s.lines().map(|l| l.to_string()).collect();
        assert_eq!(lines, expected);
        for p in ["a", "X", "é", "ab", "aa", "\n", "lowp "] {
            let at = |i: Option<usize>| i.map(|b| s[..b].chars().count());
            assert_eq!(find_text(&c, p), at(s.find(p)));
            assert_eq!(rfind_text(&c, p), at(s.rfind(p)));
            assert_eq!(has_text(&c, p), s.contains(p));
            assert_eq!(has_prefix(&c, p), s.starts_with(p));
            assert_eq!(text(&replaced(&c, p, "--")), s.replace(p, "--"));
            assert_eq!(text(&replaced(&c, p, "")), s.replace(p, ""));
        }
    }
    for u in 0..=0x10ffffu32 {
        if let Some(c) = char::from_u32(u) {
            assert_eq!(white_space(c), c.is_whitespace());
        }
    }
    for n in [0u128, 7, 10, 99, 100, 48_000, u64::MAX as u128, u128::MAX] {
        assert_eq!(decimal_text(n), n.to_string());
    }
    for n in [0i32, -1, 5, -10, i32::MAX, i32::MIN] {
        assert_eq!(signed_decimal_text(n), n.to_string());
    }
}

#[test]
fn plain_assignments_are_found_outside_brackets() {
    assert_eq!(find_simple_assign(&chars("a = b")), Some(2));
    assert_eq!(find_simple_assign(&chars("a[i = 1] = b")), Some(9));
    assert_eq!(find_simple_assign(&chars("f(x = 1)")), None);
    assert_eq!(find_simple_assign(&chars("a == b")), None);
    assert_eq!(find_simple_assign(&chars("a <= b")), None);
    assert_eq!(find_simple_assign(&chars("a >= b")), None);
    assert_eq!(find_simple_assign(&chars("a != b = c")), Some(7));
    assert_eq!(find_simple_assign(&chars("=")), Some(0));
    // A stray closing bracket keeps everything behind it at a negative depth.
    assert_eq!(find_simple_assign(&chars(") a = b")), None);
}

fn expanded(line: &str, counter: usize) -> (Option<String>, usize) {
    let mut n = counter;
    let out = try_expand_swizzle_store(&chars(line), &mut n).map(|v| text(&v));
    (out, n)
}

#[test]
fn stores_to_several_components_are_expanded() {
    assert_eq!(
        expanded("  tmp.xyz = a.rgb * 2.0;", 0),
        (
            Some(
                "  vec3 _sws1 = a.rgb * 2.0; tmp.x = _sws1.x; tmp.y = _sws1.y; tmp.z = _sws1.z;"
                    .to_string()
            ),
            1
        )
    );
    assert_eq!(
        expanded("m[0].wx = v;", 9),
        (
            Some("vec2 _sws10 = v; m[0].w = _sws10.x; m[0].x = _sws10.y;".to_string()),
            10
        )
    );
    assert_eq!(
        expanded("v.wzyx=q;", 0),
        (
            Some(
                "vec4 _sws1 = q; v.w = _sws1.x; v.z = _sws1.y; v.y = _sws1.z; v.x = _sws1.w;"
                    .to_string()
            ),
            1
        )
    );
}

#[test]
fn other_lines_are_left_alone() {
    for line in [
        "tmp.x = 1.0;",
        "tmp.xyz = a",
        "tmp.rgb = a;",
        "tmp.xyzwx = a;",
        "vec3 tmp.xyz = a;",
        "f(a).xy = b;",
        ".xy = b;",
        "tmp.xy == b;",
        "",
        "tmp = b;",
    ] {
        assert_eq!(expanded(line, 4), (None, 4), "{line}");
    }
    let src = "a = b;\nif (a.xy == b) {\n}\n";
    assert_eq!(text(&expand_swizzle_stores(&chars(src))), src);
}

#[test]
fn temporaries_are_numbered_through() {
    let src = "a.xy = b;\nc = d;\ne.zw = f;";
    assert_eq!(
        text(&expand_swizzle_stores(&chars(src))),
        "vec2 _sws1 = b; a.x = _sws1.x; a.y = _sws1.y;\nc = d;\n\
         vec2 _sws2 = f; e.z = _sws2.x; e.w = _sws2.y;\n"
    );
}

#[test]
fn expansion_does_not_expand_itself() {
    let once = expand_swizzle_stores(&chars("a.xyz = b;"));
    assert_eq!(text(&expand_swizzle_stores(&once)), text(&once));
    let once = expand_swizzle_stores(&chars("a.xy = b;\r\n\n c = d;\n  e.zw = f.xy;"));
    assert_eq!(text(&expand_swizzle_stores(&once)), text(&once));
    // A carriage return of its own at the end of a line goes with the second pass.
    let once = expand_swizzle_stores(&chars("a\r"));
    assert_eq!(text(&once), "a\r\n");
    assert_eq!(text(&expand_swizzle_stores(&once)), "a\n");
}

#[test]
fn last_fragment_output_becomes_ret() {
    let run = |s: &str| text(&transform_frag_output(&chars(s)));
    assert_eq!(run("_glesFragData[0] = c;\n}"), "ret = c.xyz;\n");
    assert_eq!(run("a;\n_glesFragData[0] =  v ;\n}"), "a;\nret = v.xyz;\n");
    // Only a brace on the very next line goes.
    assert_eq!(run("_glesFragData[0] = v;\n\n}"), "ret = v.xyz;\n}");
    assert_eq!(run("_glesFragData[0] = v;}"), "ret = v.xyz;\n}");
    assert_eq!(run("_glesFragData[0] = c;\n}\n}"), "ret = c.xyz;\n\n}");
    assert_eq!(run("_glesFragData[0] = c;\n b;\n}"), "ret = c.xyz;\n b;\n}");
    assert_eq!(
        run("_glesFragData[0] = a;_glesFragData[0] = b;"),
        "_glesFragData[0] = a;ret = b.xyz;\n"
    );
    assert_eq!(run("_glesFragData[0] = a"), "_glesFragData[0] = a");
    assert_eq!(run("no output"), "no output");
}

#[test]
fn nested_blocks_stay_whole() {
    assert_eq!(
        process_native_glsl("void main ()\n{\n  if (a) {\n    _glesFragData[0] = c;\n}\n}\n"),
        "\n  if (a) {\n    ret = c.xyz;\n}\n"
    );
}

#[test]
fn programs_become_bodies() {
    let program = "#version 300 es\nuniform highp vec4 xlat_mutableu;\n\
        mediump vec2 xlat_mutablerad;\n  float xlat_mutableq1;\nin vec2 xlat_mutablein;\n\
        float f(xlat_mutable) { return 1.0; }\nvoid main ()\n{\n  highp vec4 t;\n\
        \x20 t.w = 1.0;\n  t.xyz = texture (s, xlv_TEXCOORD0).xyz;\n\
        \x20 _glesFragData[0] = t;\n}\n\n";
    assert_eq!(
        process_native_glsl(program),
        "    vec2 xlat_mutablerad;\n    float xlat_mutableq1;\n\n  vec4 t;\n  t.w = 1.0;\n\
         \x20 vec3 _sws1 = texture (s, uv).xyz; t.x = _sws1.x; t.y = _sws1.y; t.z = _sws1.z;\n\
         \x20 ret = t.xyz;\n"
    );
}

#[test]
fn program_without_main_keeps_only_declarations() {
    assert_eq!(process_native_glsl(""), "");
    assert_eq!(
        process_native_glsl("vec2 xlat_mutablea;\nvec2 b;\nlayout(x) xlat_mutable;"),
        "    vec2 xlat_mutablea;\n"
    );
    assert_eq!(process_native_glsl("void main { a; "), "{ a; \n");
    assert_eq!(process_native_glsl("void main"), "");
}

#[test]
fn text_before_main_is_discarded() {
    let rest = "void main ()\n{\n  t.xy = xlv_TEXCOORD0;\n}\n";
    let body = process_native_glsl(rest);
    assert!(!body.contains("xlv_TEXCOORD0"));
    let head = "#version 300 es\nuniform vec4 xlat_mutableu;\nfloat f() { return 1.0; }\n";
    assert_eq!(process_native_glsl(&format!("{head}{rest}")), body);
    let declared = format!("{head}vec2 xlat_mutablea;\n{rest}");
    assert_eq!(process_native_glsl(&declared), format!("    vec2 xlat_mutablea;\n{body}"));
}

#[test]
fn nested_qualifiers_are_replaced_once() {
    assert_eq!(
        process_native_glsl("void main {lolowp wp x;xlv_TEXCOxlv_TEXCOORD0ORD0}"),
        "lowp x;xlv_TEXCOuvORD0\n"
    );
}
