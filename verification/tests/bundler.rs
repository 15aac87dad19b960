use qwasm2::content::{accepts_brotli, port_or_default, serve_brotli};
use qwasm2::bundler::{
    encode_base64, generate_html, patch_js_glue, DECODER_HEAD, DECODER_TAIL, HTML_HEAD, HTML_TAIL,
};

#[test]
fn patch_strips_exports_and_fetch() {
    let js = "export function a() {}\nexport async function b() {}\nlet u = new URL('q2_wasm_bg.wasm', import.meta.url);\nexport { initSync, __wbg_init as default };\n";
    let out = patch_js_glue(js, "QUJD");
    let expected_body = "function a() {}\nasync function b() {}\nlet u = __q2_decode_wasm();\nconst init = __wbg_init;\n";
    assert_eq!(out, format!("{}QUJD{}{}", DECODER_HEAD, DECODER_TAIL, expected_body));
    assert!(out.contains("const __q2_wasm_base64 = \"QUJD\";"));
}

#[test]
fn patch_leaves_other_text_alone() {
    let js = "let x = 1; // no exports here\nfetch(new URL(\"q2_wasm_bg.wasm\", location))";
    let out = patch_js_glue(js, "");
    assert!(out.ends_with(js));
}

#[test]
fn patch_double_quoted_url_and_bare_init_sync_export() {
    let js = "new URL(\"q2_wasm_bg.wasm\", import.meta.url); export { initSync } __wbg_init as default";
    let out = patch_js_glue(js, "Zg==");
    assert!(out.ends_with("__q2_decode_wasm();  __wbg_init as default"));
}

#[test]
fn html_wraps_script() {
    let html = generate_html("console.log(1);");
    assert!(html.starts_with("<!DOCTYPE html>"));
    assert!(html.contains("<script type=\"module\">\nconsole.log(1);\n\n// Resize canvas to window"));
    assert!(html.ends_with("</html>"));
    assert_eq!(html.len(), HTML_HEAD.len() + "console.log(1);".len() + HTML_TAIL.len());
    assert!(html.contains("* { margin: 0; padding: 0; box-sizing: border-box; }"));
}

#[test]
fn base64_of_binary() {
    assert_eq!(encode_base64(&[0u8, 1, 2, 77, 97]), "AAECTWE=");
    assert_eq!(encode_base64(b"Man"), "TWFu");
    assert_eq!(encode_base64(b"M"), "TQ==");
    assert_eq!(encode_base64(b""), "");
    assert_eq!(encode_base64(&[0xff, 0xfe, 0xfd, 0x3e]), "//79Pg==");
}

#[test]
fn page_of_patched_glue() {
    let b64 = encode_base64(b"wasm");
    let html = generate_html(&patch_js_glue("export function f() {}", &b64));
    assert!(html.contains("const __q2_wasm_base64 = \"d2FzbQ==\";"));
    assert!(html.contains("\nfunction f() {}"));
}

#[test]
fn devserver_port_and_brotli() {
    assert_eq!(port_or_default(Some("8081")), 8081);
    assert_eq!(port_or_default(Some("abc")), 8080);
    assert_eq!(port_or_default(Some("70000")), 8080);
    assert_eq!(port_or_default(None), 8080);
    assert!(accepts_brotli(Some("gzip, deflate, br")));
    assert!(!accepts_brotli(Some("gzip")));
    assert!(!accepts_brotli(None));
    assert!(serve_brotli(Some("br"), true));
    assert!(!serve_brotli(Some("br"), false));
}

#[test]
fn port_text_grammar() {
    assert_eq!(port_or_default(Some("+8081")), 8081);
    assert_eq!(port_or_default(Some("-1")), 8080);
    assert_eq!(port_or_default(Some("")), 8080);
    assert_eq!(port_or_default(Some(" 8081")), 8080);
    assert_eq!(port_or_default(Some("65535")), 65535);
    assert_eq!(port_or_default(Some("65536")), 8080);
}
