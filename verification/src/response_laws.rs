//! What chunks lead to and how a response is closed, stated over the fields of what goes in and what
//! comes out.
use vstd::prelude::*;

use crate::chunk::ChatChunk;
use crate::chunk::ChoiceView;
use crate::chunk::ChunkView;
use crate::chunk::DeltaView;
use crate::events::EventView;
use crate::events::ItemView;
use crate::events::ResponseEvent;
use crate::events::ResponseItem;
use crate::response::extract_custom_input;
use crate::response::input_or_arguments;
use crate::response::tool_call_item;
use crate::response::ChatState;
use crate::response::StateView;
use crate::tool_calls::CallView;
use crate::tool_calls::ToolCallBuilder;
use crate::tool_map::RegisteredTool;
use crate::tool_map::ToolReverseMap;
use crate::tool_map::ToolView;

verus! {

/// The choices that a chunk brings.
pub open spec fn choices_of_chunk(chunk: ChunkView) -> Seq<ChoiceView> {
    match chunk.choices {
        Some(choices) => choices,
        None => seq![],
    }
}

/// A chunk sends every content of its choices that is not empty, in order and as it stands; before the
/// first content of a response goes the message item, under the new identifier, and no other event.
pub proof fn law_chunk_sends_its_content(state: StateView, chunk: ChunkView, new_id: Seq<char>)
    ensures
        ({
            let p = state.with_payload(Some(chunk), new_id);
            let said = crate::stream_laws::texts(choices_of_chunk(chunk));
            let begins = state.text_id is None && said.len() > 0;
            &&& p.events.len() == one_if(begins) + said.len()
            &&& begins ==> p.events[0] == EventView::OutputItemAdded(
                crate::stream_laws::assistant_message(new_id),
            )
            &&& forall|k: int|
                0 <= k < said.len() ==> p.events[one_if(begins) + k] == EventView::OutputTextDelta(
                    #[trigger] said[k],
                )
            &&& begins ==> p.state.text_id == Some(new_id)
            &&& !begins ==> p.state.text_id == state.text_id
        }),
{
    let choices = choices_of_chunk(chunk);
    let said = crate::stream_laws::texts(choices);
    let named = StateView {
        stream_id: if state.stream_id is None {
            chunk.id
        } else {
            state.stream_id
        },
        ..state
    };
    lemma_choices_send(named, choices, new_id);
    let q = named.with_choices(choices, new_id);
    assert(state.with_payload(Some(chunk), new_id) == q);
    let deltas = said.map_values(|text: Seq<char>| EventView::OutputTextDelta(text));
    assert(deltas.len() == said.len());
}

/// The events of choices are their contents, after the message item if the text begins with them.
proof fn lemma_choices_send(state: StateView, choices: Seq<ChoiceView>, new_id: Seq<char>)
    ensures
        ({
            let p = state.with_choices(choices, new_id);
            let said = crate::stream_laws::texts(choices);
            let deltas = said.map_values(|text: Seq<char>| EventView::OutputTextDelta(text));
            if state.text_id is None && said.len() > 0 {
                &&& p.events == seq![
                    EventView::OutputItemAdded(crate::stream_laws::assistant_message(new_id)),
                ] + deltas
                &&& p.state.text_id == Some(new_id)
            } else {
                &&& p.events == deltas
                &&& p.state.text_id == state.text_id
            }
        }),
    decreases choices.len(),
{
    let p = state.with_choices(choices, new_id);
    let said = crate::stream_laws::texts(choices);
    let deltas = said.map_values(|text: Seq<char>| EventView::OutputTextDelta(text));
    if choices.len() == 0 {
        assert(p.events =~= deltas);
    } else {
        lemma_choices_send(state, choices.drop_last(), new_id);
        let q = state.with_choices(choices.drop_last(), new_id);
        let before = crate::stream_laws::texts(choices.drop_last());
        let earlier = before.map_values(|text: Seq<char>| EventView::OutputTextDelta(text));
        let last = q.state.with_choice(choices.last(), new_id);
        match choices.last().delta {
            Some(DeltaView { content: Some(content), .. }) => {
                if content.len() > 0 {
                    assert(said =~= before.push(content));
                    assert(deltas =~= earlier.push(EventView::OutputTextDelta(content)));
                    if q.state.text_id is None {
                        assert(before =~= seq![]);
                        assert(earlier =~= seq![]);
                    }
                } else {
                    assert(said =~= before);
                }
            },
            _ => {
                assert(said =~= before);
            },
        }
        assert(p.events =~= q.events + last.events);
        if state.text_id is None && said.len() > 0 {
            assert(p.events =~= seq![
                EventView::OutputItemAdded(crate::stream_laws::assistant_message(new_id)),
            ] + deltas);
        } else {
            assert(p.events =~= deltas);
        }
    }
}

/// Of a chunk a response keeps the identifier if it has none, the last reason for the end that is not
/// empty, and of each tool call the names and arguments as they stand, after those it has.
pub proof fn law_chunk_is_kept(state: StateView, chunk: ChunkView, new_id: Seq<char>, index: usize)
    ensures
        ({
            let after = state.with_payload(Some(chunk), new_id).state;
            let choices = choices_of_chunk(chunk);
            let fragments = crate::stream_laws::fragments(choices);
            let known = state.calls.contains_key(index);
            &&& state.stream_id is Some ==> after.stream_id == state.stream_id
            &&& state.stream_id is None ==> after.stream_id == chunk.id
            &&& after.finish_reason == match crate::stream_laws::last_reason(choices) {
                Some(reason) => Some(reason),
                None => state.finish_reason,
            }
            &&& after.calls.contains_key(index) <==> known || exists|i: int|
                0 <= i < fragments.len() && crate::tool_calls::belongs_to(
                    #[trigger] fragments[i],
                    index,
                )
            &&& after.calls.contains_key(index) && known ==> {
                let call = after.calls[index];
                let before = state.calls[index];
                &&& call.arguments == before.arguments + crate::tool_calls::arguments_for(
                    fragments,
                    index,
                )
                &&& call.name == before.name + crate::tool_calls::name_for(fragments, index)
                &&& call.id == if before.id.len() > 0 {
                    before.id
                } else {
                    crate::tool_calls::id_for(fragments, index)
                }
            }
            &&& after.calls.contains_key(index) && !known ==> {
                let call = after.calls[index];
                &&& call.arguments == crate::tool_calls::arguments_for(fragments, index)
                &&& call.name == crate::tool_calls::name_for(fragments, index)
                &&& call.id == crate::tool_calls::id_for(fragments, index)
            }
        }),
{
    let choices = choices_of_chunk(chunk);
    let fragments = crate::stream_laws::fragments(choices);
    let named = StateView {
        stream_id: if state.stream_id is None {
            chunk.id
        } else {
            state.stream_id
        },
        ..state
    };
    let sent: Seq<Seq<char>> = if state.text_id is Some {
        seq![seq![]]
    } else {
        seq![]
    };
    crate::stream_laws::lemma_choices(named, sent, choices, new_id);
    crate::tool_calls::law_fragments_add_up(state.calls, fragments, index);
    let none: Seq<char> = seq![];
    assert(none + crate::tool_calls::arguments_for(fragments, index)
        =~= crate::tool_calls::arguments_for(fragments, index));
    assert(none + crate::tool_calls::name_for(fragments, index) =~= crate::tool_calls::name_for(
        fragments,
        index,
    ));
}

/// A payload that holds no chunk sends nothing and changes nothing.
pub proof fn law_no_chunk_no_effect(state: StateView, new_id: Seq<char>)
    ensures
        state.with_payload(None, new_id).state == state,
        state.with_payload(None, new_id).events.len() == 0,
{
}

/// A new identifier is needed just where a response has no text yet and some content is not empty.
pub proof fn law_text_begins_with_content(state: StateView, parsed: Option<ChunkView>)
    ensures
        state.begins_text(parsed) <==> state.text_id is None && parsed is Some
            && crate::stream_laws::texts(choices_of_chunk(parsed->0)).len() > 0,
{
    if let Some(chunk) = parsed {
        let choices = choices_of_chunk(chunk);
        lemma_some_content(choices);
    }
}

/// Some content is not empty if and only if some choice has text.
proof fn lemma_some_content(choices: Seq<ChoiceView>)
    ensures
        crate::stream_laws::texts(choices).len() > 0 <==> exists|i: int|
            0 <= i < choices.len() && (#[trigger] choices[i]).text() is Some,
    decreases choices.len(),
{
    if choices.len() > 0 {
        let others = choices.drop_last();
        lemma_some_content(others);
        assert(choices[choices.len() - 1] == choices.last());
        if exists|i: int| 0 <= i < others.len() && (#[trigger] others[i]).text() is Some {
            let i = choose|i: int| 0 <= i < others.len() && (#[trigger] others[i]).text() is Some;
            assert(choices[i].text() is Some);
        }
        if exists|i: int| 0 <= i < choices.len() && (#[trigger] choices[i]).text() is Some {
            let i = choose|i: int| 0 <= i < choices.len() && (#[trigger] choices[i]).text() is Some;
            if i < others.len() {
                assert(others[i].text() is Some);
            }
        }
    }
}

/// Whether `namespace` is that of a function: the registered one, else the one that the name decodes
/// to; none where that is empty.
pub open spec fn is_namespace_of(namespace: Option<Seq<char>>, tool: ToolView) -> bool {
    let registered = tool.kind->namespace;
    let decoded = tool.decoded_namespace;
    &&& registered is Some && registered->0.len() > 0 ==> namespace == registered
    &&& registered is Some && registered->0.len() == 0 ==> namespace is None
    &&& registered is None && decoded is Some && decoded->0.len() > 0 ==> namespace == decoded
    &&& registered is None && decoded is Some && decoded->0.len() == 0 ==> namespace is None
    &&& registered is None && decoded is None ==> namespace is None
}

/// Whether `input` is that of a custom tool call: the text under `input` in the arguments, else the
/// arguments as they stand.
pub open spec fn is_input_of(input: Seq<char>, arguments: Seq<char>) -> bool {
    let read = crate::json::parsed_members(arguments);
    let found = read is Some && read->0.contains_key("input"@) && read->0["input"@] is Some;
    &&& found ==> Some(input) == read->0["input"@]
    &&& !found ==> input == arguments
}

/// Whether `item` is that of a tool call, field by field. A function goes out under its decoded name
/// and its namespace, a custom tool under its wire name with its input, and a name that is not
/// registered as a function of that very name.
pub open spec fn describes_call(
    item: ItemView,
    tools: Map<Seq<char>, ToolView>,
    call: CallView,
    item_id: Seq<char>,
) -> bool {
    match item {
        ItemView::FunctionCall { id, name, namespace, arguments, call_id } => {
            &&& id == Some(item_id)
            &&& arguments == call.arguments
            &&& call_id == call.id
            &&& tools.contains_key(call.name) ==> {
                &&& tools[call.name].kind is Function
                &&& name == tools[call.name].decoded_name
                &&& is_namespace_of(namespace, tools[call.name])
            }
            &&& !tools.contains_key(call.name) ==> name == call.name && namespace is None
        },
        ItemView::CustomToolCall { id, status, call_id, name, input } => {
            &&& tools.contains_key(call.name)
            &&& tools[call.name].kind is Custom
            &&& id == Some(item_id)
            &&& status is None
            &&& call_id == call.id
            &&& name == call.name
            &&& is_input_of(input, call.arguments)
        },
        _ => false,
    }
}

/// Whether `events` close a response, one by one: the message item is done if and only if it was
/// begun, whatever else there is; then each tool call, by rising index, is added and done with one item
/// that describes it; then comes the completion, and the turn is over unless a tool was called.
pub open spec fn closes_response(
    events: Seq<EventView>,
    state: StateView,
    list: Seq<(usize, CallView)>,
    tools: Map<Seq<char>, ToolView>,
    item_ids: Seq<Seq<char>>,
    response_id: Seq<char>,
) -> bool {
    let first = one_if(state.text_id is Some);
    &&& events.len() == first + 2 * list.len() + 1
    &&& state.text_id matches Some(id) ==> events[0] == EventView::OutputItemDone(
        crate::stream_laws::assistant_message(id),
    )
    &&& forall|i: int, j: int|
        0 <= i < j < list.len() ==> (#[trigger] list[i]).0 < (#[trigger] list[j]).0
    &&& forall|index: usize| #[trigger]
        state.calls.contains_key(index) ==> exists|k: int|
            0 <= k < list.len() && (#[trigger] list[k]).0 == index
    &&& forall|k: int|
        0 <= k < list.len() ==> state.calls.contains_key((#[trigger] list[k]).0)
            && is_call_pair(
            events[first + 2 * k],
            events[first + 2 * k + 1],
            tools,
            state.calls[list[k].0],
            item_ids[k],
        )
    &&& events.last() == (EventView::Completed {
        response_id: match state.stream_id {
            Some(id) => id,
            None => response_id,
        },
        token_usage: None,
        end_turn: Some(list.len() == 0),
    })
}

/// One where `b` holds, else none.
pub open spec fn one_if(b: bool) -> int {
    if b {
        1
    } else {
        0
    }
}

/// Whether a tool call is added and then done, with one item that describes it.
pub open spec fn is_call_pair(
    added: EventView,
    done: EventView,
    tools: Map<Seq<char>, ToolView>,
    call: CallView,
    item_id: Seq<char>,
) -> bool {
    &&& added matches EventView::OutputItemAdded(item)
    &&& describes_call(item, tools, call, item_id)
    &&& done == EventView::OutputItemDone(item)
}

/// The events that close a response are, one by one, those that it takes, in their order.
pub proof fn law_closing_event_by_event(
    state: StateView,
    tools: Map<Seq<char>, ToolView>,
    item_ids: Seq<Seq<char>>,
    response_id: Seq<char>,
)
    requires
        state.calls.dom().finite(),
    ensures
        closes_response(
            state.closing(tools, item_ids, response_id),
            state,
            crate::tool_calls::by_index(state.calls),
            tools,
            item_ids,
            response_id,
        ),
{
    let events = state.closing(tools, item_ids, response_id);
    let list = crate::tool_calls::by_index(state.calls);
    let text = state.text_closing();
    let calls = crate::response::call_events(tools, list, item_ids);
    let first = one_if(state.text_id is Some);
    assert(text.len() == first);
    crate::tool_calls::law_listing_rises(state.calls);
    crate::stream_laws::law_call_events_come_in_pairs(tools, list, item_ids);
    assert forall|k: int| 0 <= k < list.len() implies state.calls.contains_key(
        (#[trigger] list[k]).0,
    ) && is_call_pair(
        events[first + 2 * k],
        events[first + 2 * k + 1],
        tools,
        state.calls[list[k].0],
        item_ids[k],
    ) by {
        assert(events[first + 2 * k] == calls[2 * k]);
        assert(events[first + 2 * k + 1] == calls[2 * k + 1]);
        let item = crate::response::call_item(tools, list[k].1, item_ids[k]);
        assert(describes_call(item, tools, list[k].1, item_ids[k]));
    }
    if list.len() > 0 {
        assert(state.calls.contains_key(list[0].0));
    }
    assert(crate::tool_calls::no_calls(state.calls) == (list.len() == 0));
}

/// Whether an event carries the message of the assistant, over its fields.
pub open spec fn carries_message(item: ResponseItem, message_id: Seq<char>) -> bool {
    &&& item matches ResponseItem::Message { id: Some(id), role, content, phase }
    &&& id@ == message_id
    &&& role@ == "assistant"@
    &&& content@.len() == 0
    &&& phase is None
}

/// What `finish_with` returns closes the response: the events are those that it takes, one by one,
/// and the message item is done first if there was text, with or without tool calls.
pub proof fn law_finished_response(
    state: &ChatState,
    tools: &ToolReverseMap,
    item_ids: &Vec<String>,
    response_id: &str,
    events: Vec<ResponseEvent>,
)
    requires
        call_ensures(ChatState::finish_with, (state, tools, item_ids, response_id), events),
    ensures
        closes_response(
            events.deep_view(),
            state@,
            crate::tool_calls::by_index(state@.calls),
            tools@,
            item_ids.deep_view(),
            response_id@,
        ),
        state@.text_id matches Some(id) ==> (events@[0] matches ResponseEvent::OutputItemDone(item)
            && carries_message(item, id)),
        events@.last() matches ResponseEvent::Completed {
            response_id: id,
            token_usage: None,
            end_turn: Some(end_turn),
        } && id@ == match state@.stream_id {
            Some(own) => own,
            None => response_id@,
        } && (end_turn <==> forall|index: usize| !state@.calls.contains_key(index)),
{
    let shown = events.deep_view();
    crate::response::lemma_calls_are_finite(*state);
    law_closing_event_by_event(state@, tools@, item_ids.deep_view(), response_id@);
    if let Some(id) = state@.text_id {
        assert(shown[0] == events@[0].deep_view());
        let item = events@[0]->OutputItemDone_0;
        assert(item.deep_view() == crate::stream_laws::assistant_message(id));
        crate::events::law_item_is_shown(item);
    }
    assert(shown[shown.len() - 1] == events@[events@.len() - 1].deep_view());
    let list = crate::tool_calls::by_index(state@.calls);
    if list.len() > 0 {
        assert(state@.calls.contains_key(list[0].0));
    }
}

/// Whether `events` are the texts that were said, one event each, in order and character for
/// character, after the message item if the text begins here.
pub open spec fn sends_texts(
    events: Seq<ResponseEvent>,
    begins: bool,
    new_id: Seq<char>,
    said: Seq<Seq<char>>,
) -> bool {
    &&& events.len() == one_if(begins) + said.len()
    &&& begins ==> (events[0] matches ResponseEvent::OutputItemAdded(item) && carries_message(
        item,
        new_id,
    ))
    &&& forall|k: int|
        0 <= k < said.len() ==> is_delta(events[one_if(begins) + k], #[trigger] said[k])
}

/// Whether an event is the delta of just this text.
pub open spec fn is_delta(event: ResponseEvent, text: Seq<char>) -> bool {
    event matches ResponseEvent::OutputTextDelta(delta) && delta@ == text
}

/// What `process_chunk_with` returns: the contents of the chunk's choices that are not empty, one event
/// each, in order and character for character, after the message item if the text begins here.
pub proof fn law_processed_chunk(chunk: ChatChunk, new_id: &str, events: Vec<ResponseEvent>)
    ensures
        forall|state: &mut ChatState| #[trigger]
            call_ensures(ChatState::process_chunk_with, (state, Some(chunk), new_id), events)
                ==> sends_texts(
                events@,
                state@.text_id is None && crate::stream_laws::texts(
                    choices_of_chunk(chunk.deep_view()),
                ).len() > 0,
                new_id@,
                crate::stream_laws::texts(choices_of_chunk(chunk.deep_view())),
            ),
{
    let said = crate::stream_laws::texts(choices_of_chunk(chunk.deep_view()));
    assert forall|state: &mut ChatState| #[trigger]
        call_ensures(
            ChatState::process_chunk_with,
            (state, Some(chunk), new_id),
            events,
        ) implies sends_texts(
        events@,
        state@.text_id is None && said.len() > 0,
        new_id@,
        said,
    ) by {
        let shown = events.deep_view();
        let parsed = Some(chunk);
        let begins = state@.text_id is None && said.len() > 0;
        assert(parsed.deep_view() == Some(chunk.deep_view()));
        assert(shown == state@.with_payload(Some(chunk.deep_view()), new_id@).events);
        law_chunk_sends_its_content(state@, chunk.deep_view(), new_id@);
        if begins {
            assert(shown[0] == events@[0].deep_view());
            let item = events@[0]->OutputItemAdded_0;
            assert(item.deep_view() == crate::stream_laws::assistant_message(new_id@));
            crate::events::law_item_is_shown(item);
        }
        assert forall|k: int| 0 <= k < said.len() implies is_delta(
            events@[one_if(begins) + k],
            #[trigger] said[k],
        ) by {
            assert(shown[one_if(begins) + k] == events@[one_if(begins) + k].deep_view());
        }
    }
}

/// What `tool_call_item` returns, over the fields of the tool and of the call.
pub proof fn law_item_of_a_tool_call(
    tool: Option<&RegisteredTool>,
    call: &ToolCallBuilder,
    item_id: &str,
    input: String,
    item: ResponseItem,
)
    requires
        call_ensures(tool_call_item, (tool, call, item_id, input), item),
    ensures
        match item {
            ResponseItem::FunctionCall { id: Some(id), name, namespace, arguments, call_id } => {
                &&& id@ == item_id@
                &&& arguments@ == call.arguments@
                &&& call_id@ == call.id@
                &&& match tool {
                    Some(tool) => {
                        &&& tool.kind is Function
                        &&& name@ == tool.decoded_name@
                        &&& is_namespace_of(namespace.deep_view(), tool.deep_view())
                    },
                    None => name@ == call.name@ && namespace is None,
                }
            },
            ResponseItem::CustomToolCall { id: Some(id), status: None, call_id, name, input: given } => {
                &&& tool is Some && tool->0.kind is Custom
                &&& id@ == item_id@
                &&& call_id@ == call.id@
                &&& name@ == call.name@
                &&& given@ == input@
            },
            _ => false,
        },
{
    crate::events::law_item_is_shown(item);
    if let Some(tool) = tool {
        crate::tool_map::law_tool_is_shown(*tool);
    }
}

/// The input of a custom tool call is the text under `input`, else the arguments as they stand.
pub proof fn law_custom_input(arguments: &str, input: String)
    requires
        call_ensures(extract_custom_input, (arguments,), input),
    ensures
        is_input_of(input@, arguments@),
{
}

/// An input that was found comes back as it stands, and the arguments do where none was.
pub proof fn law_found_input(found: Option<Option<String>>, arguments: &str, input: String)
    requires
        call_ensures(input_or_arguments, (found, arguments), input),
    ensures
        found matches Some(Some(text)) ==> input@ == text@,
        !(found matches Some(Some(_))) ==> input@ == arguments@,
{
}

/// A response that just began has no text, no tool calls, no identifier and no reason for its end.
pub proof fn law_new_response(state: ChatState)
    requires
        call_ensures(ChatState::new, (), state),
    ensures
        state@.text_id is None,
        state@.stream_id is None,
        state@.finish_reason is None,
        forall|index: usize| !state@.calls.contains_key(index),
{
}

/// The identifiers that `finish` needs: one for each tool call, and one for a response without its own,
/// each of them fresh.
pub proof fn law_fresh_for_closing(state: StateView, item_ids: Seq<Seq<char>>, response_id: Seq<char>)
    requires
        state.fresh_for_closing(item_ids, response_id),
    ensures
        item_ids.len() == crate::tool_calls::by_index(state.calls).len(),
        forall|i: int| 0 <= i < item_ids.len() ==> crate::ids::is_random_uuid(#[trigger] item_ids[i]),
        state.stream_id is None ==> crate::ids::is_random_uuid(response_id),
{
}

} // verus!
