//! Snapshot names of chat conversations.

use vstd::prelude::*;
use vstd::string::*;

use crate::canon::{items_view, CanonItem};
use crate::serving::session::{chat_address, snapshot_address};
use crate::serving::types::texts;
use crate::text::cat2;

pub use crate::serving::session::{canon_messages, split_resume_point};

verus! {

/// The name of the snapshot of items, under the tool schemas and the thinking
/// channel: both are rendered into the token stream, so a change to either
/// invalidates every saved prefix. The system message is among the items.
pub fn snapshot_name(tool_schemas: &[String], no_think: bool, items: &[CanonItem]) -> (r: String)
    ensures
        r@ == "qwenchat/"@ + chat_address(texts(tool_schemas@), no_think, items_view(items@)),
{
    let a = snapshot_address(tool_schemas, no_think, items);
    cat2("qwenchat/", a.as_str())
}

} // verus!
