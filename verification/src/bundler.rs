//! Assembly of the single-file HTML page: the JavaScript glue is patched to
//! load the WebAssembly binary from an inlined base64 string, and wrapped in
//! the page template.

use vstd::prelude::*;
use crate::text::{push_str_chars, str_chars, string_from_chars};

verus! {

/// Text placed before the base64 string in the injected decoder.
pub const DECODER_HEAD: &'static str = r#"
// --- q2-bundler: inlined WASM binary ---
const __q2_wasm_base64 = ""#;

/// Text placed after the base64 string in the injected decoder.
pub const DECODER_TAIL: &'static str = r#"";

function __q2_decode_wasm() {
    const binaryString = atob(__q2_wasm_base64);
    const bytes = new Uint8Array(binaryString.length);
    for (let i = 0; i < binaryString.length; i++) {
        bytes[i] = binaryString.charCodeAt(i);
    }
    return bytes.buffer;
}
// --- end q2-bundler injection ---
"#;

/// The page up to the inlined script.
pub const HTML_HEAD: &'static str = r#"<!DOCTYPE html>
<html lang="en">
<head>
<meta charset="utf-8">
<meta name="viewport" content="width=device-width, initial-scale=1.0">
<title>Qwasm2-rs</title>
<style>
  * { margin: 0; padding: 0; box-sizing: border-box; }
  body { background: #0a0a0a; color: #e0e0e0; font-family: 'Courier New', monospace; overflow: hidden; }
  #game-container { position: relative; width: 100vw; height: 100vh; }
  canvas {
    width: 100%; height: 100%;
    display: block;
    background: #16213e;
    cursor: crosshair;
  }
  #status-container {
    position: absolute; bottom: 0; left: 0; right: 0;
    z-index: 10;
  }
  #status-container.hidden { display: none; }
  #status-toolbar {
    display: flex; gap: 4px; padding: 4px 8px;
    background: rgba(0, 0, 0, 0.95);
    border-bottom: 1px solid #333;
  }
  #status-toolbar button {
    background: #222; color: #aaa; border: 1px solid #444;
    padding: 2px 8px; font-size: 11px; font-family: inherit;
    cursor: pointer;
  }
  #status-toolbar button:hover { background: #444; color: #fff; }
  #status {
    padding: 8px 12px;
    background: rgba(0, 0, 0, 0.85);
    white-space: pre-wrap; font-size: 13px;
    max-height: 35vh; overflow-y: auto;
    user-select: text; cursor: text;
  }
  .pass { color: #4ecca3; }
  .fail { color: #e94560; }
  .info { color: #a0a0d0; }
  #hud {
    position: absolute; top: 8px; left: 12px;
    font-size: 12px; color: #888; z-index: 10;
    pointer-events: none;
  }
  #click-prompt {
    position: absolute; top: 50%; left: 50%;
    transform: translate(-50%, -50%);
    font-size: 18px; color: #e94560;
    z-index: 20; text-align: center;
  }
  #click-prompt.hidden { display: none; }
</style>
</head>
<body>
<div id="game-container">
  <canvas id="canvas"></canvas>
  <div id="hud"></div>
  <div id="click-prompt">Click to play<br><span style="font-size:12px;color:#888">WASD move &middot; Mouse look &middot; Space jump &middot; Esc release &middot; ` console</span></div>
  <div id="status-container">
    <div id="status-toolbar">
      <button onclick="copyLog()">Copy to clipboard</button>
      <button onclick="saveLog()">Save to file</button>
      <button onclick="clearLog()">Clear</button>
      <span style="color:#555;font-size:11px;margin-left:auto">` to toggle</span>
    </div>
    <div id="status"><span class="info">Loading engine...</span></div>
  </div>
</div>

<script type="module">
"#;

/// The page after the inlined script.
pub const HTML_TAIL: &'static str = r#"

// Resize canvas to window
function resize() {
  const canvas = document.getElementById('canvas');
  canvas.width = window.innerWidth;
  canvas.height = window.innerHeight;
}
resize();
window.addEventListener('resize', resize);

// Hide click prompt on pointer lock
document.addEventListener('pointerlockchange', () => {
  const el = document.getElementById('click-prompt');
  if (document.pointerLockElement) {
    el.classList.add('hidden');
  } else {
    el.classList.remove('hidden');
  }
});

// Toggle status log with backtick
document.addEventListener('keydown', (e) => {
  if (e.code === 'Backquote') {
    document.getElementById('status-container').classList.toggle('hidden');
  }
});

// Log utilities
window.copyLog = function() {
  const text = document.getElementById('status').innerText;
  navigator.clipboard.writeText(text).then(() => {
    const btn = document.querySelector('#status-toolbar button');
    const orig = btn.textContent;
    btn.textContent = 'Copied!';
    setTimeout(() => btn.textContent = orig, 1000);
  });
};

window.saveLog = function() {
  const text = document.getElementById('status').innerText;
  const blob = new Blob([text], { type: 'text/plain' });
  const url = URL.createObjectURL(blob);
  const a = document.createElement('a');
  a.href = url;
  a.download = 'qwasm2-log-' + new Date().toISOString().slice(0,19).replace(/:/g,'-') + '.txt';
  a.click();
  URL.revokeObjectURL(url);
};

window.clearLog = function() {
  document.getElementById('status').innerHTML = '';
};

// Initialize and start game
try {
  await init();

  // Determine pak URL — if served by devserver, fetch from /gamedata/
  const pakUrl = '/gamedata/baseq2/pak0.pak';

  await start_game('canvas', pakUrl);
} catch (e) {
  const statusEl = document.getElementById('status');
  statusEl.innerHTML += '<span class="fail">ERROR: ' + e + '</span>\n';
  console.error('[qwasm2-rs]', e);
}
</script>

<!-- Playwright test hooks -->
<div id="test-hooks" style="display:none">
  <span id="wasm-loaded">false</span>
  <span id="self-test-result"></span>
</div>
</body>
</html>"#;

// ---------------------------------------------------------------------------
// Substring search and replacement
// ---------------------------------------------------------------------------

/// `pat` occurs in `s` at position `i`.
pub open spec fn occurs_at(s: Seq<char>, pat: Seq<char>, i: int) -> bool {
    0 <= i && i + pat.len() <= s.len() && s.subrange(i, i + pat.len()) == pat
}

/// `s` contains `pat`.
pub open spec fn contains_seq(s: Seq<char>, pat: Seq<char>) -> bool {
    exists|i: int| occurs_at(s, pat, i)
}

/// `s` with every occurrence of the non-empty `pat`, scanning from the left
/// without overlap, replaced by `rep` (what `str::replace` yields).
pub open spec fn replaced(s: Seq<char>, pat: Seq<char>, rep: Seq<char>) -> Seq<char>
    decreases s.len(),
{
    if pat.len() == 0 || s.len() == 0 {
        s
    } else if occurs_at(s, pat, 0) {
        rep + replaced(s.skip(pat.len() as int), pat, rep)
    } else {
        seq![s[0]] + replaced(s.skip(1), pat, rep)
    }
}

fn matches_at(s: &[char], pat: &[char], i: usize) -> (r: bool)
    requires
        i <= s@.len(),
    ensures
        r == occurs_at(s@, pat@, i as int),
{
    let slen = s.len();
    if pat.len() > slen - i {
        return false;
    }
    let mut k: usize = 0;
    while k < pat.len()
        invariant
            slen == s@.len(),
            i + pat@.len() <= s@.len(),
            0 <= k <= pat@.len(),
            forall|j: int| 0 <= j < k ==> s@[i + j] == pat@[j],
        decreases pat@.len() - k,
    {
        if s[i + k] != pat[k] {
            assert(s@.subrange(i as int, i + pat@.len())[k as int] != pat@[k as int]);
            return false;
        }
        k = k + 1;
    }
    assert(s@.subrange(i as int, i + pat@.len()) =~= pat@);
    true
}

/// Whether `s` contains `pat` (`str::contains`).
pub fn contains_str(s: &[char], pat: &str) -> (r: bool)
    ensures
        r == contains_seq(s@, pat@),
{
    let p = str_chars(pat);
    let mut i: usize = 0;
    while i <= s.len()
        invariant
            0 <= i <= s@.len(),
            p@ == pat@,
            forall|j: int| 0 <= j < i ==> !occurs_at(s@, pat@, j),
        ensures
            forall|j: int| 0 <= j <= s@.len() ==> !occurs_at(s@, pat@, j),
        decreases s@.len() + 1 - i,
    {
        if matches_at(s, p.as_slice(), i) {
            return true;
        }
        if i == s.len() {
            break;
        }
        i = i + 1;
    }
    assert forall|j: int| !occurs_at(s@, pat@, j) by {
        if j > s@.len() as int {
            assert(!(j + pat@.len() <= s@.len()));
        }
    }
    false
}

proof fn lemma_replaced_step(s: Seq<char>, pat: Seq<char>, rep: Seq<char>, i: int)
    requires
        pat.len() > 0,
        0 <= i < s.len(),
    ensures
        occurs_at(s.skip(i), pat, 0) <==> occurs_at(s, pat, i),
        occurs_at(s, pat, i) ==> replaced(s.skip(i), pat, rep) == rep + replaced(
            s.skip(i + pat.len()),
            pat,
            rep,
        ),
        !occurs_at(s, pat, i) ==> replaced(s.skip(i), pat, rep) == seq![s[i]] + replaced(
            s.skip(i + 1),
            pat,
            rep,
        ),
{
    let t = s.skip(i);
    if occurs_at(s, pat, i) {
        assert(t.subrange(0, pat.len() as int) =~= s.subrange(i, i + pat.len()));
        assert(t.skip(pat.len() as int) =~= s.skip(i + pat.len()));
    } else {
        if occurs_at(t, pat, 0) {
            assert(t.subrange(0, pat.len() as int) =~= s.subrange(i, i + pat.len()));
        }
        assert(t.skip(1) =~= s.skip(i + 1));
    }
}

/// `s` with every occurrence of the non-empty `pat` replaced by `rep`.
pub fn replace_str(s: &[char], pat: &str, rep: &str) -> (r: Vec<char>)
    requires
        pat@.len() > 0,
    ensures
        r@ == replaced(s@, pat@, rep@),
{
    let p = str_chars(pat);
    let mut out: Vec<char> = Vec::new();
    let mut i: usize = 0;
    assert(s@.skip(0) =~= s@);
    while i < s.len()
        invariant
            0 <= i <= s@.len(),
            p@ == pat@,
            pat@.len() > 0,
            out@ + replaced(s@.skip(i as int), pat@, rep@) == replaced(s@, pat@, rep@),
        decreases s@.len() - i,
    {
        proof {
            lemma_replaced_step(s@, pat@, rep@, i as int);
        }
        if matches_at(s, p.as_slice(), i) {
            let ghost before = out@;
            push_str_chars(&mut out, rep);
            assert(out@ + replaced(s@.skip(i + pat@.len()), pat@, rep@) =~= before + (rep@
                + replaced(s@.skip(i + pat@.len()), pat@, rep@)));
            i = i + p.len();
        } else {
            let ghost before = out@;
            out.push(s[i]);
            assert(out@ + replaced(s@.skip(i + 1), pat@, rep@) =~= before + (seq![s@[i as int]]
                + replaced(s@.skip(i + 1), pat@, rep@)));
            i = i + 1;
        }
    }
    assert(replaced(s@.skip(i as int), pat@, rep@) =~= Seq::<char>::empty());
    assert(out@ + Seq::<char>::empty() =~= out@);
    out
}

// ---------------------------------------------------------------------------
// Patching and the page
// ---------------------------------------------------------------------------

/// The glue with `export` removed from function declarations.
pub open spec fn exports_stripped(js: Seq<char>) -> Seq<char> {
    let a = replaced(js, "export function "@, "function "@);
    let b = replaced(a, "export async function "@, "async function "@);
    if contains_seq(b, "__wbg_init as default"@) {
        replaced(
            replaced(b, "export { initSync, __wbg_init as default };"@, "const init = __wbg_init;"@),
            "export { initSync }"@,
            ""@,
        )
    } else {
        b
    }
}

/// The glue loading the binary from the inlined string instead of a URL.
pub open spec fn fetch_replaced(js: Seq<char>) -> Seq<char> {
    if contains_seq(js, "import.meta.url"@) {
        replaced(
            replaced(js, "new URL('q2_wasm_bg.wasm', import.meta.url)"@, "__q2_decode_wasm()"@),
            "new URL(\"q2_wasm_bg.wasm\", import.meta.url)"@,
            "__q2_decode_wasm()"@,
        )
    } else {
        js
    }
}

/// The patched glue: the decoder holding the base64 string, then the glue
/// without exports and without the fetch.
pub open spec fn patched_glue(js: Seq<char>, wasm_base64: Seq<char>) -> Seq<char> {
    DECODER_HEAD@ + wasm_base64 + DECODER_TAIL@ + fetch_replaced(exports_stripped(js))
}

proof fn lemma_literals_nonempty()
    ensures
        "export function "@.len() > 0,
        "export async function "@.len() > 0,
        "export { initSync, __wbg_init as default };"@.len() > 0,
        "export { initSync }"@.len() > 0,
        "new URL('q2_wasm_bg.wasm', import.meta.url)"@.len() > 0,
        "new URL(\"q2_wasm_bg.wasm\", import.meta.url)"@.len() > 0,
{
    reveal_strlit("export function ");
    reveal_strlit("export async function ");
    reveal_strlit("export { initSync, __wbg_init as default };");
    reveal_strlit("export { initSync }");
    reveal_strlit("new URL('q2_wasm_bg.wasm', import.meta.url)");
    reveal_strlit("new URL(\"q2_wasm_bg.wasm\", import.meta.url)");
}

/// Patch the glue to load the binary from the inlined base64 string.
pub fn patch_js_glue(js: &str, wasm_base64: &str) -> (r: String)
    ensures
        r@ == patched_glue(js@, wasm_base64@),
{
    proof {
        lemma_literals_nonempty();
    }
    let src = str_chars(js);
    let a = replace_str(src.as_slice(), "export function ", "function ");
    let b = replace_str(a.as_slice(), "export async function ", "async function ");
    let stripped = if contains_str(b.as_slice(), "__wbg_init as default") {
        let c = replace_str(
            b.as_slice(),
            "export { initSync, __wbg_init as default };",
            "const init = __wbg_init;",
        );
        replace_str(c.as_slice(), "export { initSync }", "")
    } else {
        b
    };
    let patched = if contains_str(stripped.as_slice(), "import.meta.url") {
        let d = replace_str(
            stripped.as_slice(),
            "new URL('q2_wasm_bg.wasm', import.meta.url)",
            "__q2_decode_wasm()",
        );
        replace_str(
            d.as_slice(),
            "new URL(\"q2_wasm_bg.wasm\", import.meta.url)",
            "__q2_decode_wasm()",
        )
    } else {
        stripped
    };
    let mut out: Vec<char> = Vec::new();
    push_str_chars(&mut out, DECODER_HEAD);
    push_str_chars(&mut out, wasm_base64);
    push_str_chars(&mut out, DECODER_TAIL);
    let ghost head = out@;
    let mut i: usize = 0;
    while i < patched.len()
        invariant
            0 <= i <= patched@.len(),
            out@ == head + patched@.take(i as int),
        decreases patched@.len() - i,
    {
        out.push(patched[i]);
        i = i + 1;
        assert(out@ =~= head + patched@.take(i as int));
    }
    assert(patched@.take(patched@.len() as int) =~= patched@);
    string_from_chars(out.as_slice())
}

/// The page with `inlined_js` as its module script.
pub fn generate_html(inlined_js: &str) -> (r: String)
    ensures
        r@ == HTML_HEAD@ + inlined_js@ + HTML_TAIL@,
{
    let mut out: Vec<char> = Vec::new();
    push_str_chars(&mut out, HTML_HEAD);
    push_str_chars(&mut out, inlined_js);
    push_str_chars(&mut out, HTML_TAIL);
    string_from_chars(out.as_slice())
}

// ---------------------------------------------------------------------------
// Base64
// ---------------------------------------------------------------------------

/// The character of the standard base64 alphabet for `v` (0..63).
pub open spec fn b64_char(v: int) -> char {
    if v < 26 {
        (65 + v) as char
    } else if v < 52 {
        (97 + v - 26) as char
    } else if v < 62 {
        (48 + v - 52) as char
    } else if v == 62 {
        '+'
    } else {
        '/'
    }
}

/// Standard base64 with `=` padding (RFC 4648): each three bytes become
/// four characters, a final one or two bytes are padded.
pub open spec fn base64_standard(b: Seq<u8>) -> Seq<char>
    decreases b.len(),
{
    if b.len() == 0 {
        Seq::empty()
    } else if b.len() == 1 {
        seq![b64_char(b[0] as int / 4), b64_char((b[0] as int % 4) * 16), '=', '=']
    } else if b.len() == 2 {
        seq![
            b64_char(b[0] as int / 4),
            b64_char((b[0] as int % 4) * 16 + b[1] as int / 16),
            b64_char((b[1] as int % 16) * 4),
            '=',
        ]
    } else {
        seq![
            b64_char(b[0] as int / 4),
            b64_char((b[0] as int % 4) * 16 + b[1] as int / 16),
            b64_char((b[1] as int % 16) * 4 + b[2] as int / 64),
            b64_char(b[2] as int % 64),
        ] + base64_standard(b.skip(3))
    }
}

/// `base64::engine::general_purpose::STANDARD.encode`.
///
/// Claims: the result is the standard-alphabet, padded base64 encoding of
/// the bytes. The crate panics when the encoded length overflows `usize`,
/// which the requirement rules out.
#[verifier::external_body]
fn base64_encode(bytes: &[u8]) -> (r: String)
    requires
        bytes@.len() / 3 * 4 + 4 <= usize::MAX,
    ensures
        r@ == base64_standard(bytes@),
{
    base64::Engine::encode(&base64::engine::general_purpose::STANDARD, bytes)
}

/// The standard, padded base64 encoding of a binary.
pub fn encode_base64(bytes: &[u8]) -> (r: String)
    requires
        bytes@.len() / 3 * 4 + 4 <= usize::MAX,
    ensures
        r@ == base64_standard(bytes@),
{
    base64_encode(bytes)
}

} // verus!
