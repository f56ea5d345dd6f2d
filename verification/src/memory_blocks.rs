//! The conversation as it is mirrored into blocks of memory.

use crate::message::{opt_text, Message, MessageModel};
use crate::numeral::{byte_count, byte_len};
use vstd::prelude::*;
use vstd::string::*;

verus! {

/// A message in the block of the working history. Entries with one pair id belong
/// together.
#[derive(Debug)]
pub struct WorkingEntry {
    pub role: String,
    pub text: String,
    pub tokens: u32,
    pub pair_id: Option<String>,
}

/// The model of a [`WorkingEntry`].
pub struct WorkingModel {
    pub role: Seq<char>,
    pub text: Seq<char>,
    pub tokens: u32,
    pub pair_id: Option<Seq<char>>,
}

impl View for WorkingEntry {
    type V = WorkingModel;

    open spec fn view(&self) -> WorkingModel {
        WorkingModel {
            role: self.role@,
            text: self.text@,
            tokens: self.tokens,
            pair_id: opt_text(self.pair_id),
        }
    }
}

/// The models of entries.
pub open spec fn working_models(v: Seq<WorkingEntry>) -> Seq<WorkingModel> {
    v.map_values(|e: WorkingEntry| e@)
}

/// The id by which a message is paired with others: that of its first tool call, or
/// else of the call that it answers.
pub open spec fn pair_id_of(m: MessageModel) -> Option<Seq<char>> {
    if m.tool_calls.len() > 0 {
        Some(m.tool_calls[0].id@)
    } else {
        match m.tool_result {
            Some(t) => opt_text(t.tool_use_id),
            None => None,
        }
    }
}

/// A quarter of the bytes of a text, rounded up. Bytes are counted modulo 2^32.
pub open spec fn quarter_tokens(text: Seq<char>) -> u32 {
    ((byte_len(text) % 0x1_0000_0000 + 3) / 4) as u32
}

/// The entry of a message.
pub open spec fn entry_of(m: MessageModel) -> WorkingModel {
    WorkingModel {
        role: m.role,
        text: m.content,
        tokens: quarter_tokens(m.content),
        pair_id: pair_id_of(m),
    }
}

/// A request of tools and the result that answers its first call have one pair id.
pub proof fn law_requests_and_results_are_paired(request: MessageModel, result: MessageModel)
    requires
        request.tool_calls.len() > 0,
        result.tool_calls.len() == 0,
        result.tool_result matches Some(t) && opt_text(t.tool_use_id) == Some(
            request.tool_calls[0].id@,
        ),
    ensures
        entry_of(request).pair_id is Some,
        entry_of(result).pair_id == entry_of(request).pair_id,
{
}

fn entry(m: &Message) -> (r: WorkingEntry)
    ensures
        r@ == entry_of(m@),
{
    let bytes: u64 = byte_count(m.content.as_str()) as u64 % 0x1_0000_0000;
    let pair_id: Option<String> = if m.tool_calls.len() > 0 {
        Some(m.tool_calls[0].id.clone())
    } else {
        match &m.tool_result {
            Some(t) => t.tool_use_id.clone(),
            None => None,
        }
    };
    WorkingEntry {
        role: m.role.clone(),
        text: m.content.clone(),
        tokens: ((bytes + 3) / 4) as u32,
        pair_id,
    }
}

/// The entries of messages, in their order.
pub fn working_entries(messages: &[Message]) -> (r: Vec<WorkingEntry>)
    ensures
        working_models(r@) == messages@.map_values(|m: Message| entry_of(m@)),
{
    let ghost all = messages@.map_values(|m: Message| entry_of(m@));
    let mut out: Vec<WorkingEntry> = Vec::new();
    let mut i: usize = 0;
    while i < messages.len()
        invariant
            all == messages@.map_values(|m: Message| entry_of(m@)),
            i <= messages@.len(),
            working_models(out@) == all.take(i as int),
        decreases messages@.len() - i,
    {
        let ghost before = working_models(out@);
        let e = entry(&messages[i]);
        assert(all[i as int] == e@);
        out.push(e);
        assert(working_models(out@) =~= before.push(e@));
        assert(working_models(out@) =~= all.take(i + 1));
        i += 1;
    }
    assert(all.take(i as int) =~= all);
    out
}

/// An entry is the message in short: who says it, what is said, and a token for each four
/// bytes of it, rounded up.
pub proof fn law_entries_are_the_messages(m: MessageModel)
    requires
        byte_len(m.content) < 0x1_0000_0000,
    ensures
        entry_of(m).role == m.role,
        entry_of(m).text == m.content,
        byte_len(m.content) <= 4 * entry_of(m).tokens < byte_len(m.content) + 4,
{
}

} // verus!
