//! The rules of the file tools: what they ask of their input, what they
//! refuse, and the words of their results. Reading and writing files and
//! running programs is left to the caller.

use crate::json::{json_member, json_model, json_str_at};
use crate::text::{
    bytes_occur_at, decimal, owned, push_decimal, push_text, seq_occurs_at,
};
use crate::tools::{char_is_space, is_space, lemma_empty_text_has_no_bytes, push_char, result_view};
use vstd::prelude::*;
use vstd::utf8::{encode_utf8, valid_utf8};

verus! {

/// The largest file, in bytes, that the read tool returns.
pub const READ_LIMIT_BYTES: u64 = 1_048_576;

/// How many bytes at the start of a file are searched for a zero byte.
pub const BINARY_PROBE_BYTES: usize = 8192;

/// The largest file, in bytes, that the edit tool changes.
pub const EDIT_LIMIT_BYTES: u64 = 102_400;

/// The text without the white space at its start.
pub open spec fn without_leading_space(text: Seq<char>) -> Seq<char>
    decreases text.len(),
{
    if text.len() > 0 && is_space(text[0]) {
        without_leading_space(text.skip(1))
    } else {
        text
    }
}

/// The text without the white space at its end.
pub open spec fn without_trailing_space(text: Seq<char>) -> Seq<char>
    decreases text.len(),
{
    if text.len() > 0 && is_space(text.last()) {
        without_trailing_space(text.drop_last())
    } else {
        text
    }
}

/// The text without the white space at its ends.
pub open spec fn stripped(text: Seq<char>) -> Seq<char> {
    without_trailing_space(without_leading_space(text))
}

/// The text in which every match of a pattern, found from the left and
/// without overlap, is replaced, as `str::replace` gives it.
pub uninterp spec fn replaced(text: Seq<char>, from: Seq<char>, to: Seq<char>) -> Seq<char>;

/// `str::replace`: a new string in which all matches of the pattern are
/// replaced, named by [`replaced`].
#[verifier::external_body]
fn replace_all(text: &str, from: &str, to: &str) -> (r: String)
    ensures
        r@ == replaced(text@, from@, to@),
{
    text.replace(from, to)
}

/// `String::from_utf8`: the string whose bytes are the given ones, where
/// they are valid UTF-8, and nothing where they are not.
#[verifier::external_body]
fn text_of_bytes(bytes: Vec<u8>) -> (r: Option<String>)
    ensures
        match r {
            Some(text) => encode_utf8(text@) == bytes@,
            None => !valid_utf8(bytes@),
        },
{
    String::from_utf8(bytes).ok()
}

/// The words for a parameter that the input lacks.
pub open spec fn missing_parameter(key: Seq<char>) -> Seq<char> {
    "Missing required parameter: "@ + key
}

/// Reads a parameter that must be there and be a string.
pub fn required_text<'a>(input: &'a serde_json::Value, key: &str) -> (r: Result<&'a str, String>)
    ensures
        match r {
            Ok(text) => json_model(*input).at(key@).text() == Some(text@),
            Err(message) => json_model(*input).at(key@).text() is None && message@
                == missing_parameter(key@),
        },
{
    match json_str_at(input, key) {
        Some(text) => Ok(text),
        None => {
            let mut message = owned("Missing required parameter: ");
            push_text(&mut message, key);
            Err(message)
        },
    }
}

/// Reads a flag; where the input has none, the flag is `default`.
pub fn flag_or(input: &serde_json::Value, key: &str, default: bool) -> (r: bool)
    ensures
        r == match json_model(*input).at(key@).truth() {
            Some(b) => b,
            None => default,
        },
{
    match json_member(input, key) {
        Some(member) => match member.as_bool() {
            Some(b) => b,
            None => default,
        },
        None => default,
    }
}

/// A zero byte stands among the first bytes of the file.
pub open spec fn looks_binary(content: Seq<u8>) -> bool {
    exists|i: int| 0 <= i < content.len() && i < BINARY_PROBE_BYTES && content[i] == 0
}

/// Whether a zero byte stands among the first bytes of the file.
pub fn is_binary(content: &[u8]) -> (r: bool)
    ensures
        r == looks_binary(content@),
{
    let mut i: usize = 0;
    while i < content.len() && i < BINARY_PROBE_BYTES
        invariant
            i <= content.len(),
            i <= BINARY_PROBE_BYTES,
            forall|k: int| 0 <= k < i ==> content@[k] != 0,
        decreases content.len() - i,
    {
        if content[i] == 0 {
            return true;
        }
        i = i + 1;
    }
    false
}

/// The words that refuse a file of `size` bytes as too large to read; none
/// for a file within the limit.
pub open spec fn read_refusal(size: u64) -> Option<Seq<char>> {
    if size > READ_LIMIT_BYTES {
        Some("File too large: "@ + decimal(size as nat) + " bytes (limit: 1MB)"@)
    } else {
        None
    }
}

/// Decides whether a file of `size` bytes is read.
pub fn check_read_size(size: u64) -> (r: Option<String>)
    ensures
        match r {
            Some(message) => read_refusal(size) == Some(message@),
            None => read_refusal(size) is None,
        },
{
    if size > READ_LIMIT_BYTES {
        let mut message = owned("File too large: ");
        push_decimal(&mut message, size);
        push_text(&mut message, " bytes (limit: 1MB)");
        Some(message)
    } else {
        None
    }
}

/// The words for a file that does not exist.
pub fn file_not_found(file_path: &str) -> (r: String)
    ensures
        r@ == "File not found: "@ + file_path@,
{
    let mut message = owned("File not found: ");
    push_text(&mut message, file_path);
    message
}

/// What the read tool makes of a file's bytes: a note in place of a binary
/// file, the text of a file in UTF-8, and an error for any other.
pub open spec fn read_result_of(path: Seq<char>, content: Seq<u8>) -> Result<Seq<char>, Seq<char>> {
    if looks_binary(content) {
        Ok("[Binary file: "@ + path + ", "@ + decimal(content.len()) + " bytes]"@)
    } else if valid_utf8(content) {
        Ok(vstd::utf8::decode_utf8(content))
    } else {
        Err("File contains invalid UTF-8: "@ + path)
    }
}

/// Makes the result of the read tool from the bytes of the file.
pub fn read_result(file_path: &str, content: Vec<u8>) -> (r: Result<String, String>)
    ensures
        result_view(r) == read_result_of(file_path@, content@),
{
    if is_binary(content.as_slice()) {
        let mut note = owned("[Binary file: ");
        push_text(&mut note, file_path);
        push_text(&mut note, ", ");
        push_decimal(&mut note, content.len() as u64);
        push_text(&mut note, " bytes]");
        return Ok(note);
    }
    let ghost bytes = content@;
    match text_of_bytes(content) {
        Some(text) => {
            proof {
                vstd::utf8::encode_utf8_valid_utf8(text@);
                vstd::utf8::encode_utf8_decode_utf8(text@);
            }
            Ok(text)
        },
        None => {
            let mut message = owned("File contains invalid UTF-8: ");
            push_text(&mut message, file_path);
            Err(message)
        },
    }
}

/// How often `needle` occurs in `hay` from `from` on, counted from the
/// left and without overlap. An empty needle is not counted.
pub open spec fn occurrences(hay: Seq<u8>, needle: Seq<u8>, from: int) -> nat
    decreases hay.len() - from,
{
    if needle.len() == 0 || from < 0 || from + needle.len() > hay.len() {
        0
    } else if seq_occurs_at(hay, needle, from) {
        1 + occurrences(hay, needle, from + needle.len())
    } else {
        occurrences(hay, needle, from + 1)
    }
}

/// Counts the matches of `needle` in `hay`.
pub fn count_occurrences(hay: &[u8], needle: &[u8]) -> (r: usize)
    ensures
        r == occurrences(hay@, needle@, 0),
{
    if needle.len() == 0 || needle.len() > hay.len() {
        return 0;
    }
    let last: usize = hay.len() - needle.len();
    let mut count: usize = 0;
    let mut at: usize = 0;
    while at <= last
        invariant
            needle.len() > 0,
            last == hay.len() - needle.len(),
            count <= at,
            at <= hay.len(),
            count + occurrences(hay@, needle@, at as int) == occurrences(hay@, needle@, 0),
        decreases hay.len() - at,
    {
        if bytes_occur_at(hay, needle, at) {
            count = count + 1;
            at = at + needle.len();
        } else {
            at = at + 1;
        }
    }
    count
}

/// What an edit asks for.
#[derive(Debug)]
pub struct EditRequest {
    pub file_path: String,
    pub old_str: String,
    pub new_str: String,
    pub replace_all: bool,
}

/// The parameters of an edit, or the words for the first one that is
/// missing.
pub fn edit_request(input: &serde_json::Value) -> (r: Result<EditRequest, String>)
    ensures
        match r {
            Ok(request) => {
                let m = json_model(*input);
                &&& m.at("file_path"@).text() == Some(request.file_path@)
                &&& m.at("old_str"@).text() == Some(request.old_str@)
                &&& m.at("new_str"@).text() == Some(request.new_str@)
                &&& request.replace_all == (m.at("replace_all"@).truth() == Some(true))
            },
            Err(message) => {
                let m = json_model(*input);
                if m.at("file_path"@).text() is None {
                    message@ == missing_parameter("file_path"@)
                } else if m.at("old_str"@).text() is None {
                    message@ == missing_parameter("old_str"@)
                } else {
                    m.at("new_str"@).text() is None && message@ == missing_parameter("new_str"@)
                }
            },
        },
{
    let file_path = match required_text(input, "file_path") {
        Ok(text) => owned(text),
        Err(message) => {
            return Err(message);
        },
    };
    let old_str = match required_text(input, "old_str") {
        Ok(text) => owned(text),
        Err(message) => {
            return Err(message);
        },
    };
    let new_str = match required_text(input, "new_str") {
        Ok(text) => owned(text),
        Err(message) => {
            return Err(message);
        },
    };
    let replace_all = flag_or(input, "replace_all", false);
    Ok(EditRequest { file_path, old_str, new_str, replace_all })
}

/// The words that refuse a file of `size` bytes as too large to edit.
pub open spec fn edit_refusal(size: u64) -> Option<Seq<char>> {
    if size > EDIT_LIMIT_BYTES {
        Some("File too large for edit: "@ + decimal(size as nat) + " bytes (limit: 100KB)"@)
    } else {
        None
    }
}

/// Decides whether a file of `size` bytes is edited.
pub fn check_edit_size(size: u64) -> (r: Option<String>)
    ensures
        match r {
            Some(message) => edit_refusal(size) == Some(message@),
            None => edit_refusal(size) is None,
        },
{
    if size > EDIT_LIMIT_BYTES {
        let mut message = owned("File too large for edit: ");
        push_decimal(&mut message, size);
        push_text(&mut message, " bytes (limit: 100KB)");
        Some(message)
    } else {
        None
    }
}

/// What an edit with a text to find makes of a file's content: the new
/// content and the words of success, or the words of refusal. The text
/// must occur; unless all matches are to be replaced, it must occur once.
pub open spec fn edit_result_of(
    path: Seq<char>,
    old: Seq<char>,
    new: Seq<char>,
    replace_all: bool,
    content: Seq<char>,
) -> Result<(Seq<char>, Seq<char>), Seq<char>> {
    let count = occurrences(encode_utf8(content), encode_utf8(old), 0);
    if count == 0 {
        Err("Text not found in "@ + path)
    } else if replace_all {
        Ok((replaced(content, old, new), "Replaced "@ + decimal(count) + " occurrences in "@ + path))
    } else if count > 1 {
        Err(
            "Found "@ + decimal(count) + " matches in "@ + path
                + " (expected exactly 1). Use replace_all=true for bulk replacement."@,
        )
    } else {
        Ok((replaced(content, old, new), "Edited "@ + path))
    }
}

/// Applies an edit to the content of its file.
pub fn edit_content(request: &EditRequest, content: &str) -> (r: Result<(String, String), String>)
    ensures
        match r {
            Ok((text, message)) => edit_result_of(
                request.file_path@,
                request.old_str@,
                request.new_str@,
                request.replace_all,
                content@,
            ) == Ok::<(Seq<char>, Seq<char>), Seq<char>>((text@, message@)),
            Err(message) => edit_result_of(
                request.file_path@,
                request.old_str@,
                request.new_str@,
                request.replace_all,
                content@,
            ) == Err::<(Seq<char>, Seq<char>), Seq<char>>(message@),
        },
{
    let path = request.file_path.as_str();
    let count = count_occurrences(content.as_bytes(), request.old_str.as_str().as_bytes());
    if count == 0 {
        let mut message = owned("Text not found in ");
        push_text(&mut message, path);
        return Err(message);
    }
    if request.replace_all {
        let text = replace_all(content, request.old_str.as_str(), request.new_str.as_str());
        let mut message = owned("Replaced ");
        push_decimal(&mut message, count as u64);
        push_text(&mut message, " occurrences in ");
        push_text(&mut message, path);
        return Ok((text, message));
    }
    if count > 1 {
        let mut message = owned("Found ");
        push_decimal(&mut message, count as u64);
        push_text(&mut message, " matches in ");
        push_text(&mut message, path);
        push_text(&mut message, " (expected exactly 1). Use replace_all=true for bulk replacement.");
        return Err(message);
    }
    let text = replace_all(content, request.old_str.as_str(), request.new_str.as_str());
    let mut message = owned("Edited ");
    push_text(&mut message, path);
    Ok((text, message))
}

/// The words for a file to which an edit without a text to find added
/// its text.
pub fn appended_message(file_path: &str) -> (r: String)
    ensures
        r@ == "Appended to "@ + file_path@,
{
    let mut message = owned("Appended to ");
    push_text(&mut message, file_path);
    message
}

/// The words for a file that an edit without a text to find made.
pub fn created_message(file_path: &str) -> (r: String)
    ensures
        r@ == "Created "@ + file_path@,
{
    let mut message = owned("Created ");
    push_text(&mut message, file_path);
    message
}

/// The pattern that the glob tool expands: the given one where it starts
/// with a slash or a dot, and else the given one below the base.
pub open spec fn glob_pattern_of(pattern: Seq<char>, base: Seq<char>) -> Seq<char> {
    let bytes = encode_utf8(pattern);
    if bytes.len() > 0 && (bytes[0] == 47 || bytes[0] == 46) {
        pattern
    } else {
        base + "/"@ + pattern
    }
}

/// The pattern that the glob tool expands.
pub fn glob_pattern(pattern: &str, base: &str) -> (r: String)
    ensures
        r@ == glob_pattern_of(pattern@, base@),
{
    let bytes = pattern.as_bytes();
    if bytes.len() > 0 && (bytes[0] == 47 || bytes[0] == 46) {
        owned(pattern)
    } else {
        let mut full = owned(base);
        push_text(&mut full, "/");
        push_text(&mut full, pattern);
        full
    }
}

/// The shell command that expands a pattern, one path to a line, at most a
/// thousand of them.
pub fn glob_command(full_pattern: &str) -> (r: String)
    ensures
        r@ == "shopt -s globstar nullglob; files=("@ + full_pattern@
            + "); printf '%s\\n' \"${files[@]}\" | head -1000"@,
{
    let mut command = owned("shopt -s globstar nullglob; files=(");
    push_text(&mut command, full_pattern);
    push_text(&mut command, "); printf '%s\\n' \"${files[@]}\" | head -1000");
    command
}

proof fn lemma_leading_space_push(text: Seq<char>, c: char)
    ensures
        without_leading_space(text.push(c)) == if without_leading_space(text).len() == 0 {
            if is_space(c) {
                Seq::<char>::empty()
            } else {
                seq![c]
            }
        } else {
            without_leading_space(text).push(c)
        },
        without_leading_space(text).len() > 0 ==> !is_space(without_leading_space(text)[0]),
    decreases text.len(),
{
        let more = text.push(c);
    if text.len() == 0 {
        assert(without_leading_space(text) =~= Seq::<char>::empty());
        assert(more[0] == c);
        if is_space(c) {
            assert(more.skip(1) =~= Seq::<char>::empty());
            assert(without_leading_space(more.skip(1)) =~= Seq::<char>::empty());
        } else {
            assert(more =~= seq![c]);
        }
    } else if is_space(text[0]) {
        assert(more.skip(1) =~= text.skip(1).push(c));
        assert(more[0] == text[0]);
        lemma_leading_space_push(text.skip(1), c);
    } else {
        assert(more[0] == text[0]);
        assert(without_leading_space(more) == more);
    }
}

proof fn lemma_trailing_space_gone(kept: Seq<char>, spaces: Seq<char>)
    requires
        kept.len() == 0 || !is_space(kept.last()),
        forall|i: int| 0 <= i < spaces.len() ==> is_space(spaces[i]),
    ensures
        without_trailing_space(kept + spaces) == kept,
    decreases spaces.len(),
{
    if spaces.len() == 0 {
        assert(kept + spaces =~= kept);
    } else {
        assert((kept + spaces).last() == spaces.last());
        assert((kept + spaces).drop_last() =~= kept + spaces.drop_last());
        lemma_trailing_space_gone(kept, spaces.drop_last());
    }
}

/// The text without the white space at its ends.
pub fn strip(text: &str) -> (r: String)
    ensures
        r@ == stripped(text@),
{
    let mut out = String::new();
    let mut pending = String::new();
    for c in it: text.chars()
        invariant
            it.seq() == text@,
            without_leading_space(text@.take(it.index() as int)) == out@ + pending@,
            out@.len() == 0 ==> pending@.len() == 0,
            out@.len() > 0 ==> !is_space(out@.last()),
            forall|i: int| 0 <= i < pending@.len() ==> is_space(pending@[i]),
    {
        let ghost n = it.index() as int;
        proof {
            assert(text@.take(n + 1) =~= text@.take(n).push(c));
            lemma_leading_space_push(text@.take(n), c);
            lemma_empty_text_has_no_bytes(out@);
        }
        if char_is_space(c) {
            if out.as_str().as_bytes().len() > 0 {
                let ghost before = pending@;
                push_char(&mut pending, c);
                assert(out@ + before.push(c) =~= (out@ + before).push(c));
            }
        } else {
            let ghost before = out@ + pending@;
            push_text(&mut out, pending.as_str());
            pending = String::new();
            push_char(&mut out, c);
            assert(out@ + pending@ =~= before.push(c));
            assert(seq![c] =~= Seq::<char>::empty().push(c));
        }
    }
    proof {
        assert(text@.take(text@.len() as int) =~= text@);
        lemma_trailing_space_gone(out@, pending@);
    }
    out
}

/// What a tool says of the lines that a program printed: the lines without
/// the white space around them, or `nothing` where none are left.
pub open spec fn listing_of(stdout: Seq<char>, nothing: Seq<char>) -> Seq<char> {
    if stripped(stdout).len() == 0 {
        nothing
    } else {
        stripped(stdout)
    }
}

fn listing(stdout: &str, nothing: &str) -> (r: String)
    ensures
        r@ == listing_of(stdout@, nothing@),
{
    let lines = strip(stdout);
    proof {
        lemma_empty_text_has_no_bytes(lines@);
    }
    if lines.as_str().as_bytes().len() == 0 {
        owned(nothing)
    } else {
        lines
    }
}

/// The result of the glob tool: the paths found.
pub fn glob_result(stdout: &str) -> (r: String)
    ensures
        r@ == listing_of(stdout@, "No files found"@),
{
    listing(stdout, "No files found")
}

/// The arguments with which the grep tool runs its search program.
pub open spec fn grep_arguments_of(
    pattern: Seq<char>,
    path: Seq<char>,
    file_type: Option<Seq<char>>,
    case_sensitive: bool,
) -> Seq<Seq<char>> {
    let fixed = seq!["--max-count=50"@, "--line-number"@, "--no-heading"@, "--color=never"@];
    let with_case = if case_sensitive {
        fixed
    } else {
        fixed.push("-i"@)
    };
    let with_type = match file_type {
        Some(t) => with_case.push("--type"@).push(t),
        None => with_case,
    };
    with_type.push(pattern).push(path)
}

/// The arguments with which the grep tool runs its search program.
pub fn grep_arguments(
    pattern: &str,
    path: &str,
    file_type: Option<&str>,
    case_sensitive: bool,
) -> (r: Vec<String>)
    ensures
        crate::api::views(r@) == grep_arguments_of(
            pattern@,
            path@,
            match file_type {
                Some(t) => Some(t@),
                None => None,
            },
            case_sensitive,
        ),
{
    let mut arguments: Vec<String> = Vec::new();
    arguments.push(owned("--max-count=50"));
    arguments.push(owned("--line-number"));
    arguments.push(owned("--no-heading"));
    arguments.push(owned("--color=never"));
    if !case_sensitive {
        arguments.push(owned("-i"));
    }
    match file_type {
        Some(t) => {
            arguments.push(owned("--type"));
            arguments.push(owned(t));
        },
        None => {},
    }
    arguments.push(owned(pattern));
    arguments.push(owned(path));
    assert(crate::api::views(arguments@) =~= grep_arguments_of(
        pattern@,
        path@,
        match file_type {
            Some(t) => Some(t@),
            None => None,
        },
        case_sensitive,
    ));
    arguments
}

/// The words for a machine without the search program.
pub const RG_MISSING: &'static str =
    "ripgrep (rg) is not installed. Install it with: brew install ripgrep (macOS) or apt install ripgrep (Linux)";

/// The exit code in words; a program that a signal stopped has -1.
pub open spec fn code_or_minus_one(code: Option<i32>) -> int {
    match code {
        Some(n) => n as int,
        None => -1,
    }
}

/// What the grep tool makes of the end of its search program: the lines
/// found; no matches where the program says so by the exit code 1; and
/// else what the program wrote of its failure, or its exit code.
pub open spec fn grep_result_of(
    success: bool,
    code: Option<i32>,
    stdout: Seq<char>,
    stderr: Seq<char>,
) -> Result<Seq<char>, Seq<char>> {
    if success {
        Ok(listing_of(stdout, "No matches found"@))
    } else if code_or_minus_one(code) == 1 {
        Ok("No matches found"@)
    } else if stderr.len() > 0 {
        Err(stripped(stderr))
    } else {
        Err("rg exited with code "@ + crate::text::signed_decimal(code_or_minus_one(code)))
    }
}

/// Makes the result of the grep tool from the end of its search program.
pub fn grep_result(success: bool, code: Option<i32>, stdout: &str, stderr: &str) -> (r: Result<
    String,
    String,
>)
    ensures
        result_view(r) == grep_result_of(success, code, stdout@, stderr@),
{
    if success {
        return Ok(listing(stdout, "No matches found"));
    }
    let number: i32 = match code {
        Some(n) => n,
        None => -1,
    };
    if number == 1 {
        return Ok(owned("No matches found"));
    }
    proof {
        lemma_empty_text_has_no_bytes(stderr@);
    }
    if stderr.as_bytes().len() > 0 {
        Err(strip(stderr))
    } else {
        let mut message = owned("rg exited with code ");
        crate::text::push_signed_decimal(&mut message, number as i64);
        Err(message)
    }
}

} // verus!
