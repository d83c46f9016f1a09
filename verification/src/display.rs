//! How a tool's result and a tool's input are shown to the user.

use crate::json::{json_model, json_render, render_json};
use crate::text::{
    decimal, floor_boundary, floor_char_boundary, owned, push_decimal, push_text, str_head,
};
use vstd::prelude::*;
use vstd::utf8::{decode_utf8, encode_utf8};

verus! {

/// A text as it is where it has at most `max` bytes; a longer one cut after
/// `max` bytes, the cut moved back to a character boundary, with three dots
/// behind it.
pub open spec fn preview(text: Seq<char>, max: nat) -> Seq<char> {
    let bytes = encode_utf8(text);
    if bytes.len() > max {
        decode_utf8(bytes.subrange(0, floor_boundary(bytes, max as int))) + "..."@
    } else {
        text
    }
}

/// The preview of a text.
pub fn preview_of(text: &str, max: usize) -> (r: String)
    ensures
        r@ == preview(text@, max as nat),
{
    if text.as_bytes().len() > max {
        let end = floor_char_boundary(text, max);
        let mut out = owned(str_head(text, end));
        push_text(&mut out, "...");
        out
    } else {
        owned(text)
    }
}

/// The line that shows a tool's result: a failure with a preview of at most
/// 200 bytes of what it said; a success in full where the user asked for
/// all output, and else by its size in bytes.
pub open spec fn result_display(result: Seq<char>, is_error: bool, verbose: bool) -> Seq<char> {
    if is_error {
        "  Error: "@ + preview(result, 200)
    } else if verbose {
        result
    } else {
        "  ("@ + decimal(encode_utf8(result).len()) + " chars)"@
    }
}

pub fn format_tool_result_display(result: &str, is_error: bool, verbose: bool) -> (r: String)
    ensures
        r@ == result_display(result@, is_error, verbose),
{
    if is_error {
        let shown = preview_of(result, 200);
        let mut out = owned("  Error: ");
        push_text(&mut out, shown.as_str());
        out
    } else if verbose {
        owned(result)
    } else {
        let mut out = owned("  (");
        push_decimal(&mut out, result.as_bytes().len() as u64);
        push_text(&mut out, " chars)");
        assert(out@ =~= result_display(result@, is_error, verbose));
        out
    }
}

/// The JSON text of a tool's input, cut to a preview of at most `max_len`
/// bytes.
pub fn truncate_json(value: &serde_json::Value, max_len: usize) -> (r: String)
    ensures
        r@ == preview(json_render(json_model(*value)), max_len as nat),
{
    let text = render_json(value);
    preview_of(text.as_str(), max_len)
}

/// The first part of the system prompt, up to the working directory.
pub const PROMPT_HEAD: &'static str =
    "You are a coding assistant with access to tools for reading, searching, editing files, and running commands.\n\nEnvironment:\n- Working directory: ";

/// The part of the system prompt between the working directory and the
/// platform.
pub const PROMPT_PLATFORM: &'static str = "\n- Platform: ";

/// The last part of the system prompt: the tools and the guidelines.
pub const PROMPT_TAIL: &'static str =
    "\n\nAvailable tools (use PascalCase names exactly):\n- Read: Read file contents (max 1MB)\n- Glob: List files matching a pattern (max 1000 entries)\n- Bash: Execute shell commands (120s timeout)\n- Edit: Edit files with exact text replacement (max 100KB, use replace_all for bulk)\n- Grep: Search file contents with ripgrep (max 50 matches)\n\nGuidelines:\n- Read files before editing them\n- Use Grep to find code before making changes\n- Prefer targeted edits over full file rewrites\n- Explain what you're doing and why";

/// The system prompt for a session in the directory `cwd` on the platform
/// `platform`.
pub fn build_system_prompt(cwd: &str, platform: &str) -> (r: String)
    ensures
        r@ == PROMPT_HEAD@ + cwd@ + PROMPT_PLATFORM@ + platform@ + PROMPT_TAIL@,
{
    let mut out = owned(PROMPT_HEAD);
    push_text(&mut out, cwd);
    push_text(&mut out, PROMPT_PLATFORM);
    push_text(&mut out, platform);
    push_text(&mut out, PROMPT_TAIL);
    out
}

} // verus!
