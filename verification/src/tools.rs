//! What the controller knows of the tools: their names and schemas, whether
//! a tool only reads, and the rules of the shell tool.

use crate::json::{
    json_array, json_model, json_object, json_set, json_string, JsonModel,
};
use crate::text::{
    bytes_find, owned, push_signed_decimal, push_text, seq_contains_seq, signed_decimal, str_eq,
};
use vstd::prelude::*;
use vstd::utf8::encode_utf8;

verus! {

/// Whether running a tool can change the file system or the shell's state.
#[derive(Debug, Clone, Copy, PartialEq, Eq, Structural)]
pub enum ToolEffect {
    Pure,
    Mutating,
}

/// The effect of the tool of that name: `Read`, `Glob` and `Grep` only read;
/// every other name, known or not, counts as mutating.
pub open spec fn effect_of(name: Seq<char>) -> ToolEffect {
    if name == "Read"@ || name == "Glob"@ || name == "Grep"@ {
        ToolEffect::Pure
    } else {
        ToolEffect::Mutating
    }
}

pub fn tool_effect(name: &str) -> (effect: ToolEffect)
    ensures
        effect == effect_of(name@),
{
    if str_eq(name, "Read") || str_eq(name, "Glob") || str_eq(name, "Grep") {
        ToolEffect::Pure
    } else {
        ToolEffect::Mutating
    }
}

/// The tools.
#[derive(Debug, Clone, Copy, PartialEq, Eq, Structural)]
pub enum ToolKind {
    Read,
    Glob,
    Bash,
    Edit,
    Grep,
}

/// The tool of that name.
pub open spec fn kind_of(name: Seq<char>) -> Option<ToolKind> {
    if name == "Read"@ {
        Some(ToolKind::Read)
    } else if name == "Glob"@ {
        Some(ToolKind::Glob)
    } else if name == "Bash"@ {
        Some(ToolKind::Bash)
    } else if name == "Edit"@ {
        Some(ToolKind::Edit)
    } else if name == "Grep"@ {
        Some(ToolKind::Grep)
    } else {
        None
    }
}

/// Finds the tool that a request names, or the words that refuse a name
/// that is no tool's.
pub fn tool_kind(name: &str) -> (r: Result<ToolKind, String>)
    ensures
        match r {
            Ok(kind) => kind_of(name@) == Some(kind),
            Err(message) => kind_of(name@) is None && message@ == "Unknown tool: "@ + name@,
        },
{
    if str_eq(name, "Read") {
        Ok(ToolKind::Read)
    } else if str_eq(name, "Glob") {
        Ok(ToolKind::Glob)
    } else if str_eq(name, "Bash") {
        Ok(ToolKind::Bash)
    } else if str_eq(name, "Edit") {
        Ok(ToolKind::Edit)
    } else if str_eq(name, "Grep") {
        Ok(ToolKind::Grep)
    } else {
        let mut message = owned("Unknown tool: ");
        push_text(&mut message, name);
        Err(message)
    }
}

/// The seconds that a shell command may run.
pub const BASH_TIMEOUT_SECS: u64 = 120;

/// The white space of Unicode.
pub open spec fn is_space(c: char) -> bool {
    let code = c as u32;
    (0x09 <= code <= 0x0D) || code == 0x20 || code == 0x85 || code == 0xA0 || code == 0x1680 || (
    0x2000 <= code <= 0x200A) || code == 0x2028 || code == 0x2029 || code == 0x202F || code
        == 0x205F || code == 0x3000
}

/// Whether the character is white space.
pub fn char_is_space(c: char) -> (r: bool)
    ensures
        r == is_space(c),
{
    let code = c as u32;
    (0x09 <= code && code <= 0x0D) || code == 0x20 || code == 0x85 || code == 0xA0 || code
        == 0x1680 || (0x2000 <= code && code <= 0x200A) || code == 0x2028 || code == 0x2029
        || code == 0x202F || code == 0x205F || code == 0x3000
}

/// The words of the text, with one space between them: runs of white space
/// become one space, and white space at either end goes.
pub open spec fn collapsed(text: Seq<char>) -> Seq<char>
    decreases text.len(),
{
    if text.len() == 0 {
        Seq::empty()
    } else {
        let head = collapsed(text.drop_last());
        let c = text.last();
        if is_space(c) {
            head
        } else if head.len() > 0 && text.len() >= 2 && is_space(text[text.len() - 2]) {
            head.push(' ').push(c)
        } else {
            head.push(c)
        }
    }
}

/// What `str::to_lowercase` makes of a text.
pub uninterp spec fn lowercased(text: Seq<char>) -> Seq<char>;

/// `str::to_lowercase`: the text in lower case, a function of the text
/// alone, named by [`lowercased`].
#[verifier::external_body]
fn lowercase(text: &str) -> (r: String)
    ensures
        r@ == lowercased(text@),
{
    text.to_lowercase()
}

/// `String::push`: appends the character.
#[verifier::external_body]
pub(crate) fn push_char(out: &mut String, c: char)
    ensures
        final(out)@ == old(out)@.push(c),
{
    out.push(c);
}

/// The text with its white space collapsed.
pub fn collapse_spaces(text: &str) -> (r: String)
    ensures
        r@ == collapsed(text@),
{
    let mut out = String::new();
    let mut after_space = false;
    for c in it: text.chars()
        invariant
            it.seq() == text@,
            out@ == collapsed(text@.take(it.index() as int)),
            after_space == (it.index() > 0 && is_space(text@[it.index() - 1])),
    {
        let ghost n = it.index() as int;
        assert(text@.take(n + 1).drop_last() =~= text@.take(n));
        assert(text@.take(n + 1).last() == c);
        if char_is_space(c) {
            after_space = true;
        } else {
            if after_space && out.as_str().as_bytes().len() > 0 {
                push_char(&mut out, ' ');
            }
            proof {
                if out@.len() == 0 {
                    assert(collapsed(text@.take(n)).len() == 0);
                }
                if n > 0 {
                    assert(text@.take(n + 1)[n - 1] == text@[n - 1]);
                }
                lemma_empty_text_has_no_bytes(collapsed(text@.take(n)));
            }
            push_char(&mut out, c);
            after_space = false;
        }
    }
    assert(text@.take(text@.len() as int) =~= text@);
    out
}

/// A text has no bytes just when it has no characters.
pub proof fn lemma_empty_text_has_no_bytes(text: Seq<char>)
    ensures
        encode_utf8(text).len() == 0 <==> text.len() == 0,
{
    vstd::utf8::encode_utf8_decode_utf8(text);
    if encode_utf8(text).len() == 0 {
        assert(encode_utf8(text) =~= Seq::<u8>::empty());
        assert(encode_utf8(Seq::<char>::empty()) =~= Seq::<u8>::empty());
        vstd::utf8::encode_utf8_decode_utf8(Seq::<char>::empty());
    }
}

/// The form in which a shell command is held against the deny list: lower
/// case, with its white space collapsed.
pub open spec fn normalized(command: Seq<char>) -> Seq<char> {
    collapsed(lowercased(command))
}

pub fn normalize_command(cmd: &str) -> (r: String)
    ensures
        r@ == normalized(cmd@),
{
    let lower = lowercase(cmd);
    collapse_spaces(lower.as_str())
}

/// The patterns of shell commands that are refused.
pub open spec fn deny_list() -> Seq<Seq<char>> {
    seq![
        "rm -rf /"@,
        "rm -fr /"@,
        "rm -rf /*"@,
        "rm -fr /*"@,
        ":(){ :|:& };:"@,
        "dd if=/dev"@,
        "mkfs"@,
        "chmod 777 /"@,
        "git push --force"@,
        "git push -f"@,
    ]
}

/// The text holds the pattern: the bytes of the pattern occur in its bytes.
pub open spec fn holds_pattern(text: Seq<char>, pattern: Seq<char>) -> bool {
    seq_contains_seq(encode_utf8(text), encode_utf8(pattern))
}

/// A command is refused where its normal form holds a pattern of the deny
/// list.
pub open spec fn is_denied(command: Seq<char>) -> bool {
    exists|i: int|
        0 <= i < deny_list().len() && holds_pattern(normalized(command), #[trigger] deny_list()[i])
}

pub fn is_denied_command(cmd: &str) -> (r: bool)
    ensures
        r == is_denied(cmd@),
{
    let normal = normalize_command(cmd);
    let patterns: [&str; 10] = [
        "rm -rf /",
        "rm -fr /",
        "rm -rf /*",
        "rm -fr /*",
        ":(){ :|:& };:",
        "dd if=/dev",
        "mkfs",
        "chmod 777 /",
        "git push --force",
        "git push -f",
    ];
    assert(forall|i: int| 0 <= i < 10 ==> (#[trigger] patterns@[i])@ == deny_list()[i]);
    let mut i: usize = 0;
    while i < 10
        invariant
            i <= 10,
            normal@ == normalized(cmd@),
            deny_list().len() == 10,
            forall|k: int| 0 <= k < 10 ==> (#[trigger] patterns@[k])@ == deny_list()[k],
            forall|k: int| 0 <= k < i ==> !holds_pattern(normal@, #[trigger] deny_list()[k]),
        decreases 10 - i,
    {
        let found = bytes_find(normal.as_str().as_bytes(), patterns[i].as_bytes());
        if found.is_some() {
            assert(holds_pattern(normalized(cmd@), deny_list()[i as int])) by {
                let at = found->0 as int;
                assert(crate::text::seq_occurs_at(
                    encode_utf8(normal@),
                    encode_utf8(deny_list()[i as int]),
                    at,
                ));
            }
            assert(is_denied(cmd@));
            return true;
        }
        i = i + 1;
    }
    false
}

/// The words that refuse a shell command.
pub fn denied_command_message(command: &str) -> (r: String)
    ensures
        r@ == "Command blocked by safety guard: "@ + command@,
{
    let mut message = owned("Command blocked by safety guard: ");
    push_text(&mut message, command);
    message
}

/// How a shell command ended.
pub enum BashEnd {
    /// It ran longer than it may and was stopped.
    TimedOut,
    /// It ended well.
    Succeeded,
    /// It ended with this exit code, if it had one.
    Failed(Option<i32>),
}

/// The exit code in words; a command that was stopped by a signal has -1.
pub open spec fn exit_code_text(code: Option<i32>) -> Seq<char> {
    match code {
        Some(n) => signed_decimal(n as int),
        None => signed_decimal(-1),
    }
}

/// The result of the shell tool for a command that ran: its output where it
/// ended well, and else the account of its end, with the output it left.
pub open spec fn bash_result_of(command: Seq<char>, end: BashEnd, output: Seq<char>) -> Result<
    Seq<char>,
    Seq<char>,
> {
    match end {
        BashEnd::TimedOut => if output.len() == 0 {
            Err("Command timed out after 120s: "@ + command)
        } else {
            Err("Command timed out after 120s (partial output):\n"@ + output)
        },
        BashEnd::Succeeded => Ok(output),
        BashEnd::Failed(code) => if output.len() == 0 {
            Err("Command failed with exit code "@ + exit_code_text(code))
        } else {
            Err("Command failed with exit code "@ + exit_code_text(code) + ":\n"@ + output)
        },
    }
}

/// The view of a tool's result.
pub open spec fn result_view(r: Result<String, String>) -> Result<Seq<char>, Seq<char>> {
    match r {
        Ok(text) => Ok(text@),
        Err(text) => Err(text@),
    }
}

/// Makes the result of the shell tool for a command that ran.
pub fn bash_result(command: &str, end: BashEnd, output: String) -> (r: Result<String, String>)
    ensures
        result_view(r) == bash_result_of(command@, end, output@),
{
    proof {
        lemma_empty_text_has_no_bytes(output@);
    }
    let empty = output.as_str().as_bytes().len() == 0;
    match end {
        BashEnd::TimedOut => {
            if empty {
                let mut message = owned("Command timed out after 120s: ");
                push_text(&mut message, command);
                Err(message)
            } else {
                let mut message = owned("Command timed out after 120s (partial output):\n");
                push_text(&mut message, output.as_str());
                Err(message)
            }
        },
        BashEnd::Succeeded => Ok(output),
        BashEnd::Failed(code) => {
            let number: i32 = match code {
                Some(n) => n,
                None => -1,
            };
            let mut message = owned("Command failed with exit code ");
            push_signed_decimal(&mut message, number as i64);
            if !empty {
                push_text(&mut message, ":\n");
                push_text(&mut message, output.as_str());
            }
            Err(message)
        },
    }
}

pub const READ_DESCRIPTION: &'static str =
    "Read a file from disk. Returns file contents as text. Binary files return a placeholder message. Maximum 1MB file size.";

pub const GLOB_DESCRIPTION: &'static str =
    "List files matching a glob pattern. Returns up to 1000 entries sorted by modification time.";

pub const BASH_DESCRIPTION: &'static str =
    "Execute a bash command. Returns stdout and stderr. 120 second timeout. Streaming output.";

pub const EDIT_DESCRIPTION: &'static str =
    "Edit a file by replacing exact text matches. Maximum 100KB file size. Default: single exact match. Set replace_all=true for bulk replacements. Empty old_str on missing file creates the file (with parent directories). Empty old_str on existing file appends content.";

pub const GREP_DESCRIPTION: &'static str =
    "Search file contents using ripgrep (rg). Returns up to 50 matches. Requires rg to be installed.";

/// The schema of one parameter.
pub open spec fn parameter_json(kind: Seq<char>, description: Seq<char>) -> JsonModel {
    JsonModel::empty_object().with("type"@, JsonModel::String(kind)).with(
        "description"@,
        JsonModel::String(description),
    )
}

/// The description of a tool for the endpoint: its name, what it does, and
/// the schema of its input, an object with the given parameters, of which
/// the required ones are named.
pub open spec fn tool_json(
    name: Seq<char>,
    description: Seq<char>,
    parameters: JsonModel,
    required: Seq<JsonModel>,
) -> JsonModel {
    JsonModel::empty_object().with("name"@, JsonModel::String(name)).with(
        "description"@,
        JsonModel::String(description),
    ).with(
        "input_schema"@,
        JsonModel::empty_object().with("type"@, JsonModel::String("object"@)).with(
            "properties"@,
            parameters,
        ).with("required"@, JsonModel::Array(required)),
    )
}

pub open spec fn read_tool_json() -> JsonModel {
    tool_json(
        "Read"@,
        READ_DESCRIPTION@,
        JsonModel::empty_object().with(
            "file_path"@,
            parameter_json("string"@, "Absolute or relative path to the file to read"@),
        ),
        seq![JsonModel::String("file_path"@)],
    )
}

pub open spec fn glob_tool_json() -> JsonModel {
    tool_json(
        "Glob"@,
        GLOB_DESCRIPTION@,
        JsonModel::empty_object().with(
            "pattern"@,
            parameter_json("string"@, "Glob pattern (e.g. '**/*.rs', 'src/*.ts')"@),
        ).with(
            "path"@,
            parameter_json(
                "string"@,
                "Base directory to search from (default: current directory)"@,
            ),
        ),
        seq![JsonModel::String("pattern"@)],
    )
}

pub open spec fn bash_tool_json() -> JsonModel {
    tool_json(
        "Bash"@,
        BASH_DESCRIPTION@,
        JsonModel::empty_object().with(
            "command"@,
            parameter_json("string"@, "The bash command to execute"@),
        ).with(
            "description"@,
            parameter_json("string"@, "Brief description of what the command does"@),
        ),
        seq![JsonModel::String("command"@)],
    )
}

pub open spec fn edit_tool_json() -> JsonModel {
    tool_json(
        "Edit"@,
        EDIT_DESCRIPTION@,
        JsonModel::empty_object().with(
            "file_path"@,
            parameter_json("string"@, "Path to the file to edit"@),
        ).with(
            "old_str"@,
            parameter_json(
                "string"@,
                "Exact text to find and replace (empty string = create/append)"@,
            ),
        ).with("new_str"@, parameter_json("string"@, "Replacement text"@)).with(
            "replace_all"@,
            parameter_json(
                "boolean"@,
                "Replace all occurrences instead of requiring a single unique match (default: false)"@,
            ),
        ),
        seq![
            JsonModel::String("file_path"@),
            JsonModel::String("old_str"@),
            JsonModel::String("new_str"@),
        ],
    )
}

pub open spec fn grep_tool_json() -> JsonModel {
    tool_json(
        "Grep"@,
        GREP_DESCRIPTION@,
        JsonModel::empty_object().with(
            "pattern"@,
            parameter_json("string"@, "Regex pattern to search for"@),
        ).with(
            "path"@,
            parameter_json(
                "string"@,
                "File or directory to search in (default: current directory)"@,
            ),
        ).with(
            "file_type"@,
            parameter_json("string"@, "File type filter (e.g. 'rs', 'py', 'js')"@),
        ).with(
            "case_sensitive"@,
            parameter_json("boolean"@, "Case-sensitive search (default: true)"@),
        ),
        seq![JsonModel::String("pattern"@)],
    )
}

/// The descriptions of the five tools, in the order in which the endpoint
/// is told of them.
pub open spec fn tool_schemas() -> Seq<JsonModel> {
    seq![read_tool_json(), glob_tool_json(), bash_tool_json(), edit_tool_json(), grep_tool_json()]
}

fn parameter(kind: &str, description: &str) -> (r: serde_json::Value)
    ensures
        json_model(r) == parameter_json(kind@, description@),
{
    let mut obj = json_object();
    json_set(&mut obj, "type", json_string(owned(kind)));
    json_set(&mut obj, "description", json_string(owned(description)));
    obj
}

fn names(list: &[&str]) -> (r: Vec<serde_json::Value>)
    ensures
        r@.len() == list@.len(),
        forall|i: int|
            0 <= i < list@.len() ==> json_model(#[trigger] r@[i]) == JsonModel::String(list@[i]@),
{
    let mut out: Vec<serde_json::Value> = Vec::new();
    let mut i: usize = 0;
    while i < list.len()
        invariant
            i <= list.len(),
            out@.len() == i,
            forall|k: int|
                0 <= k < i ==> json_model(#[trigger] out@[k]) == JsonModel::String(list@[k]@),
        decreases list.len() - i,
    {
        out.push(json_string(owned(list[i])));
        i = i + 1;
    }
    out
}

fn tool(name: &str, description: &str, parameters: serde_json::Value, required: &[&str]) -> (r:
    serde_json::Value)
    ensures
        json_model(r) == tool_json(
            name@,
            description@,
            json_model(parameters),
            Seq::new(required@.len(), |i: int| JsonModel::String(required@[i]@)),
        ),
{
    let items = names(required);
    assert(items@.map_values(|v: serde_json::Value| json_model(v)) =~= Seq::new(
        required@.len(),
        |i: int| JsonModel::String(required@[i]@),
    ));
    let mut schema = json_object();
    json_set(&mut schema, "type", json_string(owned("object")));
    json_set(&mut schema, "properties", parameters);
    json_set(&mut schema, "required", json_array(items));
    let mut obj = json_object();
    json_set(&mut obj, "name", json_string(owned(name)));
    json_set(&mut obj, "description", json_string(owned(description)));
    json_set(&mut obj, "input_schema", schema);
    obj
}

/// The descriptions of the tools for the endpoint.
pub fn all_tool_schemas() -> (r: Vec<serde_json::Value>)
    ensures
        r@.map_values(|v: serde_json::Value| json_model(v)) == tool_schemas(),
{
    let mut out: Vec<serde_json::Value> = Vec::new();

    let mut read = json_object();
    json_set(
        &mut read,
        "file_path",
        parameter("string", "Absolute or relative path to the file to read"),
    );
    let required: [&str; 1] = ["file_path"];
    let read_tool = tool("Read", READ_DESCRIPTION, read, required.as_slice());
    assert(json_model(read_tool) == read_tool_json()) by {
        assert(Seq::new(1, |i: int| JsonModel::String(required@[i]@)) =~= seq![
            JsonModel::String("file_path"@),
        ]);
    }
    out.push(read_tool);

    let mut glob = json_object();
    json_set(
        &mut glob,
        "pattern",
        parameter("string", "Glob pattern (e.g. '**/*.rs', 'src/*.ts')"),
    );
    json_set(
        &mut glob,
        "path",
        parameter("string", "Base directory to search from (default: current directory)"),
    );
    let required: [&str; 1] = ["pattern"];
    let glob_tool = tool("Glob", GLOB_DESCRIPTION, glob, required.as_slice());
    assert(json_model(glob_tool) == glob_tool_json()) by {
        assert(Seq::new(1, |i: int| JsonModel::String(required@[i]@)) =~= seq![
            JsonModel::String("pattern"@),
        ]);
    }
    out.push(glob_tool);

    let mut bash = json_object();
    json_set(&mut bash, "command", parameter("string", "The bash command to execute"));
    json_set(
        &mut bash,
        "description",
        parameter("string", "Brief description of what the command does"),
    );
    let required: [&str; 1] = ["command"];
    let bash_tool = tool("Bash", BASH_DESCRIPTION, bash, required.as_slice());
    assert(json_model(bash_tool) == bash_tool_json()) by {
        assert(Seq::new(1, |i: int| JsonModel::String(required@[i]@)) =~= seq![
            JsonModel::String("command"@),
        ]);
    }
    out.push(bash_tool);

    let mut edit = json_object();
    json_set(&mut edit, "file_path", parameter("string", "Path to the file to edit"));
    json_set(
        &mut edit,
        "old_str",
        parameter("string", "Exact text to find and replace (empty string = create/append)"),
    );
    json_set(&mut edit, "new_str", parameter("string", "Replacement text"));
    json_set(
        &mut edit,
        "replace_all",
        parameter(
            "boolean",
            "Replace all occurrences instead of requiring a single unique match (default: false)",
        ),
    );
    let required: [&str; 3] = ["file_path", "old_str", "new_str"];
    let edit_tool = tool("Edit", EDIT_DESCRIPTION, edit, required.as_slice());
    assert(json_model(edit_tool) == edit_tool_json()) by {
        assert(Seq::new(3, |i: int| JsonModel::String(required@[i]@)) =~= seq![
            JsonModel::String("file_path"@),
            JsonModel::String("old_str"@),
            JsonModel::String("new_str"@),
        ]);
    }
    out.push(edit_tool);

    let mut grep = json_object();
    json_set(&mut grep, "pattern", parameter("string", "Regex pattern to search for"));
    json_set(
        &mut grep,
        "path",
        parameter("string", "File or directory to search in (default: current directory)"),
    );
    json_set(
        &mut grep,
        "file_type",
        parameter("string", "File type filter (e.g. 'rs', 'py', 'js')"),
    );
    json_set(
        &mut grep,
        "case_sensitive",
        parameter("boolean", "Case-sensitive search (default: true)"),
    );
    let required: [&str; 1] = ["pattern"];
    let grep_tool = tool("Grep", GREP_DESCRIPTION, grep, required.as_slice());
    assert(json_model(grep_tool) == grep_tool_json()) by {
        assert(Seq::new(1, |i: int| JsonModel::String(required@[i]@)) =~= seq![
            JsonModel::String("pattern"@),
        ]);
    }
    out.push(grep_tool);

    assert(out@.map_values(|v: serde_json::Value| json_model(v)) =~= tool_schemas());
    out
}

} // verus!
