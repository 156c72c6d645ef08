//! The editor page served at `/`, and how the file's text is put into it.
use vstd::prelude::*;
use vstd::utf8::encode_utf8;
use crate::escape::{escape_for_js_string, escape_js};
use crate::path::{file_name, file_name_spec};
use crate::template::{
    contents_token, first_occurrence, lemma_occurrence_found, push_range, render, render_spec,
    title_token,
};

verus! {

/// The page up to its title placeholder.
pub const SHELL_HEAD: &'static str = "<!DOCTYPE html>
<html>
<head>
<meta charset=\"utf-8\">
<title>";

/// The page between its title placeholder and its contents placeholder.
pub const SHELL_MIDDLE: &'static str = "</title>
<style>
html, body { margin: 0; height: 100%; }
body { display: flex; flex-direction: column; font-family: sans-serif; }
header { display: flex; align-items: center; gap: 1em; padding: 0.5em; background: #eee; }
#status { color: #666; }
textarea { flex: 1; border: none; padding: 0.5em; font-family: monospace; font-size: 14px; resize: none; }
</style>
</head>
<body>
<header>
<button id=\"save\">Save</button>
<span id=\"status\"></span>
</header>
<textarea id=\"editor\" spellcheck=\"false\"></textarea>
<script>
const editor = document.getElementById(\"editor\");
const status = document.getElementById(\"status\");
editor.value = \"";

/// The page after its contents placeholder.
pub const SHELL_TAIL: &'static str = "\";
let saved = editor.value;
function mark() {
  status.textContent = editor.value === saved ? \"\" : \"modified\";
}
async function save() {
  const text = editor.value;
  const response = await fetch(\"/\", { method: \"PUT\", body: text });
  if (response.ok) {
    saved = text;
    mark();
  } else {
    status.textContent = \"save failed: \" + response.status;
  }
}
editor.addEventListener(\"input\", mark);
document.getElementById(\"save\").addEventListener(\"click\", save);
document.addEventListener(\"keydown\", function (event) {
  if ((event.ctrlKey || event.metaKey) && event.key === \"s\") {
    event.preventDefault();
    save();
  }
});
</script>
</body>
</html>
";

/// The page template: the editor, with the title placeholder and the
/// contents placeholder (inside a JavaScript string literal) once each.
pub open spec fn shell_bytes() -> Seq<u8> {
    encode_utf8(SHELL_HEAD@) + title_token() + encode_utf8(SHELL_MIDDLE@) + contents_token()
        + encode_utf8(SHELL_TAIL@)
}

/// The bytes of the page template.
pub fn html_shell() -> (r: Vec<u8>)
    ensures
        r@ == shell_bytes(),
{
    let title = vec![123u8, 123, 32, 116, 105, 116, 108, 101, 32, 125, 125];
    let contents = vec![123u8, 123, 32, 99, 111, 110, 116, 101, 110, 116, 115, 32, 125, 125];
    assert(title@ =~= title_token());
    assert(contents@ =~= contents_token());
    let head = SHELL_HEAD.as_bytes();
    let middle = SHELL_MIDDLE.as_bytes();
    let tail = SHELL_TAIL.as_bytes();
    let mut out: Vec<u8> = Vec::new();
    push_range(&mut out, head, 0, head.len());
    push_range(&mut out, title.as_slice(), 0, title.len());
    push_range(&mut out, middle, 0, middle.len());
    push_range(&mut out, contents.as_slice(), 0, contents.len());
    push_range(&mut out, tail, 0, tail.len());
    assert(head@.subrange(0, head@.len() as int) =~= head@);
    assert(title@.subrange(0, title@.len() as int) =~= title@);
    assert(middle@.subrange(0, middle@.len() as int) =~= middle@);
    assert(contents@.subrange(0, contents@.len() as int) =~= contents@);
    assert(tail@.subrange(0, tail@.len() as int) =~= tail@);
    out
}

/// The shell holds its contents placeholder.
pub proof fn lemma_shell_has_contents()
    ensures
        first_occurrence(shell_bytes(), contents_token()) is Some,
{
    let head = encode_utf8(SHELL_HEAD@) + title_token() + encode_utf8(SHELL_MIDDLE@);
    let k = head.len() as int;
    let s = shell_bytes();
    assert(s =~= head + contents_token() + encode_utf8(SHELL_TAIL@));
    assert(s.subrange(k, k + contents_token().len()) =~= contents_token());
    lemma_occurrence_found(s, contents_token(), k);
}

/// The page shown for a file at `target` whose text is `text`: the shell with
/// the file's name as title and the escaped text as contents. There is none
/// when the path names no file.
pub open spec fn page_spec(target: Seq<u8>, text: Seq<u8>) -> Option<Seq<u8>> {
    match file_name_spec(target) {
        Some(name) => Some(render_spec(shell_bytes(), name, escape_js(text))),
        None => None,
    }
}

/// Renders the page for the file at `target` holding `text`.
pub fn render_page(target: &[u8], text: &[u8]) -> (r: Option<Vec<u8>>)
    ensures
        match r {
            Some(page) => page_spec(target@, text@) == Some(page@),
            None => page_spec(target@, text@) is None,
        },
{
    match file_name(target) {
        Some(name) => {
            let shell = html_shell();
            let escaped = escape_for_js_string(text);
            Some(render(shell.as_slice(), name.as_slice(), escaped.as_slice()))
        },
        None => None,
    }
}

} // verus!
