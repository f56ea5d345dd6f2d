//! The messages of a conversation, as a model provider sees them.

use crate::split::{join, join_texts};
use crate::text::{lemma_texts_push, texts};
use vstd::prelude::*;
use vstd::string::*;

verus! {

broadcast use lemma_texts_push;

/// A tool call that a model requests. `input` is its JSON text.
#[derive(Debug)]
pub struct ToolUse {
    pub id: String,
    pub name: String,
    pub input: String,
}

/// The outcome of a tool call.
#[derive(Debug)]
pub struct ToolResult {
    pub content: String,
    pub is_error: bool,
    pub tool_use_id: Option<String>,
}

/// A message of a conversation.
///
/// `content_blocks` holds the text blocks of a message whose content comes in
/// blocks.
#[derive(Debug)]
pub struct Message {
    pub role: String,
    pub content: String,
    pub content_blocks: Option<Vec<String>>,
    pub tool_calls: Vec<ToolUse>,
    pub tool_result: Option<ToolResult>,
    pub cache_breakpoint: bool,
}

/// The ids of tool calls.
pub open spec fn use_ids(calls: Seq<ToolUse>) -> Seq<Seq<char>> {
    calls.map_values(|t: ToolUse| t.id@)
}

/// A view of an optional text.
pub open spec fn opt_text(o: Option<String>) -> Option<Seq<char>> {
    match o {
        Some(s) => Some(s@),
        None => None,
    }
}

impl Clone for ToolUse {
    fn clone(&self) -> (r: ToolUse)
        ensures
            r == *self,
    {
        ToolUse { id: self.id.clone(), name: self.name.clone(), input: self.input.clone() }
    }
}

impl ToolResult {
    /// The result of a call that worked.
    pub fn success(content: &str) -> (r: ToolResult)
        ensures
            r.content@ == content@,
            !r.is_error,
            r.tool_use_id is None,
    {
        ToolResult { content: content.to_owned(), is_error: false, tool_use_id: None }
    }

    /// The result of a call that failed.
    pub fn error(content: &str) -> (r: ToolResult)
        ensures
            r.content@ == content@,
            r.is_error,
            r.tool_use_id is None,
    {
        ToolResult { content: content.to_owned(), is_error: true, tool_use_id: None }
    }

    /// The same result, as the answer to the call `id`.
    pub fn with_tool_use_id(self, id: &str) -> (r: ToolResult)
        ensures
            r.content == self.content,
            r.is_error == self.is_error,
            opt_text(r.tool_use_id) == Some(id@),
    {
        ToolResult {
            content: self.content,
            is_error: self.is_error,
            tool_use_id: Some(id.to_owned()),
        }
    }

}

impl Clone for ToolResult {
    fn clone(&self) -> (r: ToolResult)
        ensures
            r == *self,
    {
        ToolResult {
            content: self.content.clone(),
            is_error: self.is_error,
            tool_use_id: match &self.tool_use_id {
                Some(s) => Some(s.clone()),
                None => None,
            },
        }
    }
}

/// What a message says, field by field.
pub struct MessageModel {
    pub role: Seq<char>,
    pub content: Seq<char>,
    pub content_blocks: Option<Seq<Seq<char>>>,
    pub tool_calls: Seq<ToolUse>,
    pub tool_result: Option<ToolResult>,
    pub cache_breakpoint: bool,
}

impl View for Message {
    type V = MessageModel;

    open spec fn view(&self) -> MessageModel {
        MessageModel {
            role: self.role@,
            content: self.content@,
            content_blocks: match self.content_blocks {
                Some(b) => Some(texts(b@)),
                None => None,
            },
            tool_calls: self.tool_calls@,
            tool_result: self.tool_result,
            cache_breakpoint: self.cache_breakpoint,
        }
    }
}

/// A message with nothing but a role and a text.
pub open spec fn plain_message(role: Seq<char>, content: Seq<char>) -> MessageModel {
    MessageModel {
        role,
        content,
        content_blocks: None,
        tool_calls: Seq::empty(),
        tool_result: None,
        cache_breakpoint: false,
    }
}

impl MessageModel {
    /// The text of the message: that of its blocks where it has blocks.
    pub open spec fn content_text(self) -> Seq<char> {
        match self.content_blocks {
            Some(b) => join(b, Seq::empty()),
            None => self.content,
        }
    }
}

impl Message {
    /// A message with nothing but a role and a text.
    pub fn plain(role: &str, content: &str) -> (r: Message)
        ensures
            r@ == plain_message(role@, content@),
    {
        let calls: Vec<ToolUse> = Vec::new();
        Message {
            role: role.to_owned(),
            content: content.to_owned(),
            content_blocks: None,
            tool_calls: calls,
            tool_result: None,
            cache_breakpoint: false,
        }
    }

    /// A message of the user.
    pub fn user(content: &str) -> (r: Message)
        ensures
            r@ == plain_message("user"@, content@),
    {
        Message::plain("user", content)
    }

    /// A message of the assistant.
    pub fn assistant(content: &str) -> (r: Message)
        ensures
            r@ == plain_message("assistant"@, content@),
    {
        Message::plain("assistant", content)
    }

    /// A message of the system.
    pub fn system(content: &str) -> (r: Message)
        ensures
            r@ == plain_message("system"@, content@),
    {
        Message::plain("system", content)
    }

    /// The same message with its content in blocks.
    pub fn with_content_blocks(self, blocks: Vec<String>) -> (r: Message)
        ensures
            r@ == (MessageModel { content_blocks: Some(texts(blocks@)), ..self@ }),
    {
        Message {
            role: self.role,
            content: self.content,
            content_blocks: Some(blocks),
            tool_calls: self.tool_calls,
            tool_result: self.tool_result,
            cache_breakpoint: self.cache_breakpoint,
        }
    }

    /// The text of the message.
    pub fn content_text(&self) -> (r: String)
        ensures
            r@ == self@.content_text(),
    {
        match &self.content_blocks {
            Some(b) => {
                let empty = String::new();
                join_texts(b.as_slice(), empty.as_str())
            },
            None => self.content.clone(),
        }
    }

}

impl Clone for Message {
    fn clone(&self) -> (r: Message)
        ensures
            r@ == self@,
    {
        let blocks = match &self.content_blocks {
            Some(b) => {
                let c: Vec<String> = b.clone();
                assert(texts(c@) =~= texts(b@));
                Some(c)
            },
            None => None,
        };
        let result = match &self.tool_result {
            Some(t) => Some(t.clone()),
            None => None,
        };
        Message {
            role: self.role.clone(),
            content: self.content.clone(),
            content_blocks: blocks,
            tool_calls: self.tool_calls.clone(),
            tool_result: result,
            cache_breakpoint: self.cache_breakpoint,
        }
    }
}

/// The ids of tool calls.
pub fn ids_of(calls: &[ToolUse]) -> (r: Vec<String>)
    ensures
        texts(r@) == use_ids(calls@),
{
    let mut out: Vec<String> = Vec::new();
    let mut i: usize = 0;
    while i < calls.len()
        invariant
            i <= calls@.len(),
            texts(out@) == use_ids(calls@).take(i as int),
        decreases calls@.len() - i,
    {
        out.push(calls[i].id.clone());
        proof {
            assert(texts(out@) =~= use_ids(calls@).take(i + 1));
        }
        i += 1;
    }
    assert(use_ids(calls@).take(i as int) =~= use_ids(calls@));
    out
}

} // verus!
