//! What is written for an upstream is read back as it was meant.

use vstd::prelude::*;

use crate::canonical::{MessageView, RequestView, ToolCallView};
use crate::json::Json;

verus! {

/// The turn as it is read again: an assistant's empty text is none.
pub open spec fn without_empty_text(m: MessageView) -> MessageView {
    match m {
        MessageView::Assistant { text: Some(t), reasoning_content, tool_calls } => if t.len() == 0 {
            MessageView::Assistant { text: None, reasoning_content, tool_calls }
        } else {
            m
        },
        _ => m,
    }
}

proof fn lemma_call_is_read_back(tc: ToolCallView)
    ensures
        crate::wire::chat::parsed_call(crate::wire::chat::tool_call_json(tc)) == Some(tc),
{
    reveal_strlit("id");
    reveal_strlit("type");
    reveal_strlit("function");
    reveal_strlit("name");
    reveal_strlit("arguments");
    assert("id"@.len() == 2 && "type"@.len() == 4 && "function"@.len() == 8);
    assert("name"@.len() == 4 && "arguments"@.len() == 9);
}

proof fn lemma_calls_are_read_back(calls: Seq<ToolCallView>)
    ensures
        calls.map_values(|tc: ToolCallView| crate::wire::chat::tool_call_json(tc)).filter_map(
            |tc: Json| crate::wire::chat::parsed_call(tc),
        ) == calls,
    decreases calls.len(),
{
    let f = |tc: ToolCallView| crate::wire::chat::tool_call_json(tc);
    let p = |tc: Json| crate::wire::chat::parsed_call(tc);
    let docs = calls.map_values(f);
    assert(docs.take(0) =~= Seq::empty());
    assert(docs.take(docs.len() as int) =~= docs);
    if calls.len() > 0 {
        let init = calls.drop_last();
        lemma_calls_are_read_back(init);
        lemma_call_is_read_back(calls.last());
        docs.lemma_filter_map_take_succ(p, docs.len() - 1);
        assert(docs.take(docs.len() - 1) =~= init.map_values(f));
        assert(init.push(calls.last()) =~= calls);
    }
}

proof fn lemma_roles()
    ensures
        "role"@ != "content"@,
        "role"@ != "reasoning_content"@,
        "role"@ != "tool_calls"@,
        "role"@ != "tool_call_id"@,
        "content"@ != "reasoning_content"@,
        "content"@ != "tool_calls"@,
        "content"@ != "tool_call_id"@,
        "reasoning_content"@ != "tool_calls"@,
        "user"@ != "tool"@,
        "user"@ != "assistant"@,
        "tool"@ != "assistant"@,
        !crate::wire::chat::is_system_role("user"@),
        !crate::wire::chat::is_system_role("assistant"@),
        !crate::wire::chat::is_system_role("tool"@),
{
    reveal_strlit("role");
    reveal_strlit("content");
    reveal_strlit("reasoning_content");
    reveal_strlit("tool_calls");
    reveal_strlit("tool_call_id");
    reveal_strlit("user");
    reveal_strlit("tool");
    reveal_strlit("assistant");
    reveal_strlit("system");
    reveal_strlit("developer");
    assert("role"@.len() == 4 && "content"@.len() == 7 && "reasoning_content"@.len() == 17);
    assert("tool_calls"@.len() == 10 && "tool_call_id"@.len() == 12);
    assert("user"@.len() == 4 && "tool"@.len() == 4 && "assistant"@.len() == 9);
    assert("user"@[0] == 'u' && "tool"@[0] == 't');
    assert("system"@.len() == 6 && "developer"@.len() == 9);
    assert("assistant"@[0] == 'a' && "developer"@[0] == 'd');
}

/// A turn that is written is read back, but for an assistant's empty text.
pub proof fn turns_are_read_back(m: MessageView)
    ensures
        !crate::wire::chat::is_system_role(
            crate::wire::chat::role_of(crate::wire::chat::message_json(m)),
        ),
        crate::wire::chat::parsed_turn(crate::wire::chat::message_json(m)) == without_empty_text(m),
{
    lemma_roles();
    match m {
        MessageView::Assistant { text, reasoning_content, tool_calls } => {
            lemma_calls_are_read_back(tool_calls);
            let p = |tc: Json| crate::wire::chat::parsed_call(tc);
            let none: Seq<Json> = Seq::empty();
            assert(none.take(0) =~= none);
            assert(none.filter_map(p) =~= Seq::<ToolCallView>::empty());
            if tool_calls.len() == 0 {
                assert(tool_calls =~= Seq::empty());
            }
        },
        _ => {},
    }
}

proof fn lemma_turns_are_read_back(before: Seq<Json>, msgs: Seq<MessageView>)
    ensures
        ({
            let docs = before + msgs.map_values(
                |m: MessageView| crate::wire::chat::message_json(m),
            );
            &&& crate::wire::chat::parsed_system(docs) == crate::wire::chat::parsed_system(before)
            &&& crate::wire::chat::parsed_turns(docs) == crate::wire::chat::parsed_turns(before)
                + msgs.map_values(|m: MessageView| without_empty_text(m))
        }),
    decreases msgs.len(),
{
    let f = |m: MessageView| crate::wire::chat::message_json(m);
    let g = |m: MessageView| without_empty_text(m);
    let p = |m: Json|
        if crate::wire::chat::is_system_role(crate::wire::chat::role_of(m)) {
            None
        } else {
            Some(crate::wire::chat::parsed_turn(m))
        };
    let docs = before + msgs.map_values(f);
    if msgs.len() == 0 {
        assert(docs =~= before);
        assert(crate::wire::chat::parsed_turns(before) + msgs.map_values(g)
            =~= crate::wire::chat::parsed_turns(before));
    } else {
        let init = msgs.drop_last();
        let less = before + init.map_values(f);
        lemma_turns_are_read_back(before, init);
        turns_are_read_back(msgs.last());
        assert(docs.drop_last() =~= less);
        assert(docs.last() == f(msgs.last()));
        docs.lemma_filter_map_take_succ(p, docs.len() - 1);
        assert(docs.take(docs.len() - 1) =~= less);
        assert(docs.take(docs.len() as int) =~= docs);
        assert(crate::wire::chat::parsed_turns(before) + msgs.map_values(g) =~= (
        crate::wire::chat::parsed_turns(before) + init.map_values(g)).push(g(msgs.last())));
    }
}

/// The conversation that is written for an upstream is read back: the system prompt, and
/// the turns in their order, every tool result behind its parent.
pub proof fn conversations_are_read_back(req: RequestView)
    ensures
        crate::wire::chat::parsed_system(crate::wire::chat::body_messages(req)) == req.system,
        crate::wire::chat::parsed_turns(crate::wire::chat::body_messages(req))
            == crate::wire::chat::with_parents(req.messages).map_values(
            |m: MessageView| without_empty_text(m),
        ),
{
    let g = |m: MessageView| without_empty_text(m);
    let p = |m: Json|
        if crate::wire::chat::is_system_role(crate::wire::chat::role_of(m)) {
            None
        } else {
            Some(crate::wire::chat::parsed_turn(m))
        };
    let turns = crate::wire::chat::with_parents(req.messages);
    let none: Seq<Json> = Seq::empty();
    assert(none.filter_map(p) =~= Seq::<MessageView>::empty());
    lemma_roles();
    let before = match req.system {
        Some(sys) => {
            let doc = Json::obj().with("role"@, Json::Str("system"@)).with("content"@, Json::Str(sys));
            let head = seq![doc];
            head.lemma_filter_map_take_succ(p, 0);
            assert(head.take(0) =~= none);
            assert(head.take(1) =~= head);
            head
        },
        None => none,
    };
    assert(crate::wire::chat::parsed_turns(before) =~= Seq::<MessageView>::empty());
    lemma_turns_are_read_back(before, turns);
    assert(crate::wire::chat::parsed_turns(before) + turns.map_values(g) =~= turns.map_values(g));
}

} // verus!
