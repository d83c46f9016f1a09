//! The journal of a session: one line of JSON for each turn, the prompt
//! that opened it, and a summary of what the tools were asked to do.
//!
//! The module says what is to be written. Writing it is left to the caller.

use crate::api::{BlockView, ContentBlock, Message, MessageView, Usage};
use crate::convergence::utc_timestamp;
use crate::display::{preview, preview_of};
use crate::json::{
    json_first_key, json_first_member, json_model, json_null, json_object, json_render, json_set,
    json_string, render_json, JsonModel,
};
use crate::text::{owned, push_text};
use vstd::prelude::*;

verus! {

/// The version that every line of the journal carries.
pub const VERSION: &'static str = "0.1.0";

/// The longest first argument, in bytes, that is shown in full.
pub const FIRST_ARG_LIMIT: usize = 80;

/// `uuid::Uuid::new_v4` and the identifier's `Display`: a fresh random
/// identifier in its hyphenated form, which has 36 characters. Nothing else
/// is claimed of it.
#[verifier::external_body]
fn new_uuid() -> (r: String)
    ensures
        r@.len() == 36,
{
    uuid::Uuid::new_v4().to_string()
}

/// `chrono::Utc::now` and `DateTime::format` with year, month and day: the
/// current date as a text. Nothing is claimed of the text. `chrono` panics
/// where the system clock stands before 1970.
#[verifier::external_body]
fn utc_date() -> (r: String) {
    chrono::Utc::now().format("%Y-%m-%d").to_string()
}

/// What is shown of a tool's input: the first member of an object, a
/// string as it is and any other value as JSON text, cut to a preview; two
/// braces for an object without members; the JSON text of a value that is no
/// object.
pub open spec fn first_arg(input: JsonModel) -> Seq<char> {
    if input is Object {
        match json_first_key(input) {
            Some(key) => {
                let shown = match input.at(key) {
                    JsonModel::String(s) => s,
                    other => json_render(other),
                };
                preview(shown, FIRST_ARG_LIMIT as nat)
            },
            None => "{}"@,
        }
    } else {
        json_render(input)
    }
}

pub fn extract_first_arg(input: &serde_json::Value) -> (r: String)
    ensures
        r@ == first_arg(json_model(*input)),
{
    if input.is_object() {
        match json_first_member(input) {
            Some((_, member)) => {
                let shown = match member.as_str() {
                    Some(s) => owned(s),
                    None => render_json(member),
                };
                preview_of(shown.as_str(), FIRST_ARG_LIMIT)
            },
            None => owned("{}"),
        }
    } else {
        render_json(input)
    }
}

/// A tool's name and what is shown of its input.
pub type ActionView = (Seq<char>, Seq<char>);

/// The actions that the blocks of a message ask for, in their order.
pub open spec fn actions_of(blocks: Seq<BlockView>) -> Seq<ActionView>
    decreases blocks.len(),
{
    if blocks.len() == 0 {
        Seq::empty()
    } else {
        let rest = actions_of(blocks.drop_last());
        match blocks.last() {
            BlockView::ToolUse { name, input, .. } => rest.push((name, first_arg(input))),
            _ => rest,
        }
    }
}

/// The lines that list the actions.
pub open spec fn action_lines(actions: Seq<ActionView>) -> Seq<char>
    decreases actions.len(),
{
    if actions.len() == 0 {
        Seq::empty()
    } else {
        action_lines(actions.drop_last()) + "- **"@ + actions.last().0 + "**: "@
            + actions.last().1 + "\n"@
    }
}

/// The content of the pairs of strings.
pub open spec fn action_views(actions: Seq<(String, String)>) -> Seq<ActionView> {
    actions.map_values(|a: (String, String)| (a.0@, a.1@))
}

/// The name of a session: the day it began and its identifier.
pub open spec fn session_name(date: Seq<char>, id: Seq<char>) -> Seq<char> {
    date + "-"@ + id
}

/// The journal's state.
pub struct SessionWriter {
    session_id: String,
    cwd: String,
    last_uuid: Option<String>,
    prompt_written: bool,
    tool_actions: Vec<(String, String)>,
    model: String,
    start_time: String,
}

/// The content of a [`SessionWriter`].
pub struct SessionView {
    pub session_id: Seq<char>,
    pub cwd: Seq<char>,
    pub last_uuid: Option<Seq<char>>,
    pub prompt_written: bool,
    pub tool_actions: Seq<ActionView>,
    pub model: Seq<char>,
    pub start_time: Seq<char>,
}

impl View for SessionWriter {
    type V = SessionView;

    closed spec fn view(&self) -> SessionView {
        SessionView {
            session_id: self.session_id@,
            cwd: self.cwd@,
            last_uuid: match self.last_uuid {
                Some(id) => Some(id@),
                None => None,
            },
            prompt_written: self.prompt_written,
            tool_actions: action_views(self.tool_actions@),
            model: self.model@,
            start_time: self.start_time@,
        }
    }
}

impl SessionView {
    /// The journal of a session that has just begun.
    pub open spec fn begun(
        date: Seq<char>,
        id: Seq<char>,
        start_time: Seq<char>,
        cwd: Seq<char>,
        model: Seq<char>,
    ) -> SessionView {
        SessionView {
            session_id: session_name(date, id),
            cwd,
            last_uuid: None,
            prompt_written: false,
            tool_actions: Seq::empty(),
            model,
            start_time,
        }
    }

    /// The journal once the actions of a message are noted.
    pub open spec fn noted(self, message: MessageView) -> SessionView {
        SessionView { tool_actions: self.tool_actions + actions_of(message.content), ..self }
    }

    /// The line for a turn: what kind of turn it is, the session, the
    /// line's own identifier and that of the line before it (null on the
    /// first line), the time, the directory, the version, and the message
    /// with the usage where one is given.
    pub open spec fn line_json(
        self,
        turn_type: Seq<char>,
        message: MessageView,
        usage: Option<Usage>,
        id: Seq<char>,
        timestamp: Seq<char>,
    ) -> JsonModel {
        let payload = match usage {
            Some(u) => message.json().with("usage"@, u.json()),
            None => message.json(),
        };
        JsonModel::empty_object().with("type"@, JsonModel::String(turn_type)).with(
            "sessionId"@,
            JsonModel::String(self.session_id),
        ).with("uuid"@, JsonModel::String(id)).with(
            "parentUuid"@,
            match self.last_uuid {
                Some(parent) => JsonModel::String(parent),
                None => JsonModel::Null,
            },
        ).with("timestamp"@, JsonModel::String(timestamp)).with(
            "cwd"@,
            JsonModel::String(self.cwd),
        ).with("version"@, JsonModel::String(VERSION@)).with("message"@, payload)
    }

    /// The journal once a line with the identifier `id` is written.
    pub open spec fn written(self, id: Seq<char>) -> SessionView {
        SessionView { last_uuid: Some(id), ..self }
    }

    /// The journal after a turn: its actions noted, its line written.
    pub open spec fn after_turn(self, message: MessageView, id: Seq<char>) -> SessionView {
        self.noted(message).written(id)
    }

    /// The head of the summary: the session, the model, the start and the
    /// directory.
    pub open spec fn context_head(self) -> Seq<char> {
        "# Session Context\n\n- Session ID: "@ + self.session_id + "\n- Model: "@ + self.model
            + "\n- Start: "@ + self.start_time + "\n- CWD: "@ + self.cwd + "\n"@
    }

    /// The summary: its head, and the actions under a heading of their own
    /// where there are any.
    pub open spec fn context(self) -> Seq<char> {
        if self.tool_actions.len() > 0 {
            self.context_head() + "\n## Key Actions\n\n"@ + action_lines(self.tool_actions)
        } else {
            self.context_head()
        }
    }
}

impl SessionWriter {
    /// The journal of a session that begins on `date` under the identifier
    /// `id`.
    pub fn begin(date: &str, id: &str, start_time: String, cwd: &str, model: &str) -> (r:
        SessionWriter)
        ensures
            r@ == SessionView::begun(date@, id@, start_time@, cwd@, model@),
    {
        let mut session_id = owned(date);
        push_text(&mut session_id, "-");
        push_text(&mut session_id, id);
        let r = SessionWriter {
            session_id,
            cwd: owned(cwd),
            last_uuid: None,
            prompt_written: false,
            tool_actions: Vec::new(),
            model: owned(model),
            start_time,
        };
        assert(r@.tool_actions =~= Seq::empty());
        r
    }

    /// The journal of a session that begins now, under a fresh identifier.
    pub fn new(cwd: &str, model: &str) -> (r: SessionWriter)
        ensures
            exists|date: Seq<char>, id: Seq<char>|
                id.len() == 36 && r@ == SessionView::begun(
                    date,
                    id,
                    r@.start_time,
                    cwd@,
                    model@,
                ),
    {
        let date = utc_date();
        let id = new_uuid();
                let start_time = utc_timestamp();
        let r = SessionWriter::begin(date.as_str(), id.as_str(), start_time, cwd, model);
        assert(id@.len() == 36 && r@ == SessionView::begun(
            date@,
            id@,
            r@.start_time,
            cwd@,
            model@,
        ));
        r
    }

    pub fn session_id(&self) -> (r: &str)
        ensures
            r@ == self@.session_id,
    {
        self.session_id.as_str()
    }

    /// Notes the actions that a message asks for.
    pub fn collect_tool_actions(&mut self, message: &Message)
        ensures
            final(self)@ == old(self)@.noted(message@),
    {
        let ghost before = self@;
        let ghost blocks = message@.content;
        let mut i: usize = 0;
        assert(blocks.take(0) =~= Seq::<BlockView>::empty());
        assert(before.tool_actions + actions_of(blocks.take(0)) =~= before.tool_actions);
        while i < message.content.len()
            invariant
                i <= message.content.len(),
                blocks == message@.content,
                blocks.len() == message.content@.len(),
                forall|k: int| 0 <= k < blocks.len() ==> blocks[k] == message.content@[k]@,
                self@ == (SessionView {
                    tool_actions: before.tool_actions + actions_of(blocks.take(i as int)),
                    ..before
                }),
            decreases message.content.len() - i,
        {
            proof {
                assert(blocks.take(i + 1).drop_last() =~= blocks.take(i as int));
                assert(blocks.take(i + 1).last() == blocks[i as int]);
            }
            match &message.content[i] {
                ContentBlock::ToolUse { name, input, .. } => {
                    let shown = extract_first_arg(input);
                    let ghost old_actions = self.tool_actions@;
                    self.tool_actions.push((name.clone(), shown));
                    proof {
                        assert(action_views(self.tool_actions@) =~= action_views(old_actions).push(
                            (name@, shown@),
                        ));
                        assert(before.tool_actions + actions_of(blocks.take(i as int)).push(
                            (name@, shown@),
                        ) =~= (before.tool_actions + actions_of(blocks.take(i as int))).push(
                            (name@, shown@),
                        ));
                    }
                },
                _ => {},
            }
            i = i + 1;
        }
        assert(blocks.take(blocks.len() as int) =~= blocks);
    }

    /// The line for a turn, with the identifier and the time that the
    /// caller gives it. The line is the next line's parent.
    pub fn line(
        &mut self,
        turn_type: &str,
        message: &Message,
        usage: Option<Usage>,
        id: String,
        timestamp: String,
    ) -> (r: String)
        ensures
            r@ == json_render(old(self)@.line_json(turn_type@, message@, usage, id@, timestamp@)),
            final(self)@ == old(self)@.written(id@),
    {
        let mut payload = message.to_json();
        match usage {
            Some(u) => {
                json_set(&mut payload, "usage", u.to_json());
            },
            None => {},
        }
        let parent = match &self.last_uuid {
            Some(p) => json_string(p.clone()),
            None => json_null(),
        };
        let mut line = json_object();
        json_set(&mut line, "type", json_string(owned(turn_type)));
        json_set(&mut line, "sessionId", json_string(self.session_id.clone()));
        json_set(&mut line, "uuid", json_string(id.clone()));
        json_set(&mut line, "parentUuid", parent);
        json_set(&mut line, "timestamp", json_string(timestamp));
        json_set(&mut line, "cwd", json_string(self.cwd.clone()));
        json_set(&mut line, "version", json_string(owned(VERSION)));
        json_set(&mut line, "message", payload);
        self.last_uuid = Some(id);
        render_json(&line)
    }

    /// Notes a user's turn and gives its line, under a fresh identifier and
    /// with the current time.
    pub fn append_user_turn(&mut self, message: &Message) -> (r: String)
        ensures
            exists|id: Seq<char>, timestamp: Seq<char>|
                id.len() == 36 && final(self)@ == old(self)@.after_turn(message@, id) && r@
                    == json_render(
                    old(self)@.noted(message@).line_json(
                        "user"@,
                        message@,
                        None,
                        id,
                        timestamp,
                    ),
                ),
    {
        self.collect_tool_actions(message);
        let id = new_uuid();
        let timestamp = utc_timestamp();
        let ghost witness = (id@, timestamp@);
        let r = self.line("user", message, None, id, timestamp);
        assert(witness.0.len() == 36 && self@ == old(self)@.after_turn(message@, witness.0) && r@
            == json_render(
            old(self)@.noted(message@).line_json("user"@, message@, None, witness.0, witness.1),
        ));
        r
    }

    /// Notes an assistant's turn and gives its line, which carries the
    /// usage, under a fresh identifier and with the current time.
    pub fn append_assistant_turn(&mut self, message: &Message, usage: &Usage) -> (r: String)
        ensures
            exists|id: Seq<char>, timestamp: Seq<char>|
                id.len() == 36 && final(self)@ == old(self)@.after_turn(message@, id) && r@
                    == json_render(
                    old(self)@.noted(message@).line_json(
                        "assistant"@,
                        message@,
                        Some(*usage),
                        id,
                        timestamp,
                    ),
                ),
    {
        self.collect_tool_actions(message);
        let id = new_uuid();
        let timestamp = utc_timestamp();
        let ghost witness = (id@, timestamp@);
        let r = self.line("assistant", message, Some(*usage), id, timestamp);
        assert(witness.0.len() == 36 && self@ == old(self)@.after_turn(message@, witness.0) && r@
            == json_render(
            old(self)@.noted(message@).line_json(
                "assistant"@,
                message@,
                Some(*usage),
                witness.0,
                witness.1,
            ),
        ));
        r
    }

    /// The prompt to be written: the first one of the session, and none
    /// after it.
    pub fn write_prompt(&mut self, prompt: &str) -> (r: Option<String>)
        ensures
            final(self)@ == (SessionView { prompt_written: true, ..old(self)@ }),
            match r {
                Some(text) => !old(self)@.prompt_written && text@ == prompt@,
                None => old(self)@.prompt_written,
            },
    {
        if self.prompt_written {
            return None;
        }
        self.prompt_written = true;
        Some(owned(prompt))
    }

    /// The summary of the session.
    pub fn write_context(&self) -> (r: String)
        ensures
            r@ == self@.context(),
    {
        let mut out = owned("# Session Context\n\n- Session ID: ");
        push_text(&mut out, self.session_id.as_str());
        push_text(&mut out, "\n- Model: ");
        push_text(&mut out, self.model.as_str());
        push_text(&mut out, "\n- Start: ");
        push_text(&mut out, self.start_time.as_str());
        push_text(&mut out, "\n- CWD: ");
        push_text(&mut out, self.cwd.as_str());
        push_text(&mut out, "\n");
        assert(out@ == self@.context_head());
        if self.tool_actions.len() > 0 {
            push_text(&mut out, "\n## Key Actions\n\n");
            let ghost head = out@;
            let ghost actions = self@.tool_actions;
            let mut i: usize = 0;
            assert(actions.take(0) =~= Seq::<ActionView>::empty());
            assert(head + action_lines(actions.take(0)) =~= head);
            while i < self.tool_actions.len()
                invariant
                    i <= self.tool_actions.len(),
                    actions == action_views(self.tool_actions@),
                    out@ == head + action_lines(actions.take(i as int)),
                decreases self.tool_actions.len() - i,
            {
                let ghost was = out@;
                let action = &self.tool_actions[i];
                push_text(&mut out, "- **");
                push_text(&mut out, action.0.as_str());
                push_text(&mut out, "**: ");
                push_text(&mut out, action.1.as_str());
                push_text(&mut out, "\n");
                proof {
                    assert(actions.take(i + 1).drop_last() =~= actions.take(i as int));
                    assert(actions.take(i + 1).last() == (action.0@, action.1@));
                    assert(out@ =~= head + action_lines(actions.take(i + 1)));
                }
                i = i + 1;
            }
            assert(actions.take(actions.len() as int) =~= actions);
        }
        out
    }
}

} // verus!
