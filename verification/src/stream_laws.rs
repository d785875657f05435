//! What holds of a whole response stream, however its bytes are cut and whatever they hold.
use vstd::prelude::*;

use crate::chunk::ChoiceView;
use crate::chunk::ChunkView;
use crate::chunk::DeltaView;
use crate::chunk::FragmentView;
use crate::events::ApiError;
use crate::events::ContentView;
use crate::events::EventView;
use crate::events::ItemView;
use crate::events::ResponseEvent;
use crate::response::StateView;
use crate::sse::LinesView;
use crate::stream::parse_chat_sse_stream;
use crate::stream::Action;
use crate::stream::ActionView;
use crate::stream::ChatStream;
use crate::stream::FreshIds;
use crate::stream::Phase;
use crate::stream::Reply;
use crate::stream::ReplyView;
use crate::stream::StreamView;
use crate::tool_calls::CallView;
use crate::tool_map::ToolReverseMap;
use crate::tool_map::ToolView;

verus! {

/// A reply, with the identifiers that the step after it gave out.
pub struct Input {
    pub reply: ReplyView,
    pub ids: FreshIds,
}

/// Where a stream has come to.
pub struct Course {
    pub stream: StreamView,
    /// The last action.
    pub action: ActionView,
    /// All that was handed on, in order: events, and the text of an error.
    pub sent: Seq<Result<EventView, Seq<char>>>,
    /// All payloads that were to be parsed, in order.
    pub asked: Seq<Seq<char>>,
}

/// Events as they are handed on.
pub open spec fn handed_on(events: Seq<EventView>) -> Seq<Result<EventView, Seq<char>>> {
    events.map_values(|event: EventView| Ok::<EventView, Seq<char>>(event))
}

/// What an action hands on.
pub open spec fn output(action: ActionView) -> Seq<Result<EventView, Seq<char>>> {
    match action {
        ActionView::Send(events) => handed_on(events),
        ActionView::Finish(events) => handed_on(events),
        ActionView::Fail(text) => seq![Err(text)],
        _ => seq![],
    }
}

/// The payload that an action wants parsed.
pub open spec fn request(action: ActionView) -> Seq<Seq<char>> {
    match action {
        ActionView::Parse(payload) => seq![payload],
        _ => seq![],
    }
}

/// The course of a stream over its replies.
pub open spec fn course(tools: Map<Seq<char>, ToolView>, inputs: Seq<Input>) -> Course
    decreases inputs.len(),
{
    if inputs.len() == 0 {
        let action = ActionView::Send(seq![EventView::Created]);
        Course {
            stream: StreamView::begun(tools),
            action,
            sent: output(action),
            asked: request(action),
        }
    } else {
        let before = course(tools, inputs.drop_last());
        let turn = before.stream.step(inputs.last().reply, inputs.last().ids);
        Course {
            stream: turn.stream,
            action: turn.action,
            sent: before.sent + output(turn.action),
            asked: before.asked + request(turn.action),
        }
    }
}

/// Each reply answers the action before it.
pub open spec fn answers(tools: Map<Seq<char>, ToolView>, inputs: Seq<Input>) -> bool
    decreases inputs.len(),
{
    inputs.len() > 0 ==> {
        &&& answers(tools, inputs.drop_last())
        &&& course(tools, inputs.drop_last()).stream.accepts(inputs.last().reply)
    }
}

/// The choices that the replies bring, in order.
pub open spec fn choices_in(inputs: Seq<Input>) -> Seq<ChoiceView>
    decreases inputs.len(),
{
    if inputs.len() == 0 {
        seq![]
    } else {
        choices_in(inputs.drop_last()) + match inputs.last().reply {
            ReplyView::Parsed(Some(ChunkView { choices: Some(choices), .. })) => choices,
            _ => seq![],
        }
    }
}

/// The texts of choices, in order; empty ones do not count.
pub open spec fn texts(choices: Seq<ChoiceView>) -> Seq<Seq<char>>
    decreases choices.len(),
{
    if choices.len() == 0 {
        seq![]
    } else {
        texts(choices.drop_last()) + match choices.last().delta {
            Some(DeltaView { content: Some(content), .. }) => if content.len() > 0 {
                seq![content]
            } else {
                seq![]
            },
            _ => seq![],
        }
    }
}

/// The tool-call fragments of choices, in order.
pub open spec fn fragments(choices: Seq<ChoiceView>) -> Seq<FragmentView>
    decreases choices.len(),
{
    if choices.len() == 0 {
        seq![]
    } else {
        fragments(choices.drop_last()) + match choices.last().delta {
            Some(DeltaView { tool_calls: Some(tool_calls), .. }) => tool_calls,
            _ => seq![],
        }
    }
}

/// The last reason for the end that choices give; empty ones do not count.
pub open spec fn last_reason(choices: Seq<ChoiceView>) -> Option<Seq<char>>
    decreases choices.len(),
{
    if choices.len() == 0 {
        None
    } else {
        match choices.last().finish_reason {
            Some(reason) => if reason.len() > 0 {
                Some(reason)
            } else {
                last_reason(choices.drop_last())
            },
            None => last_reason(choices.drop_last()),
        }
    }
}

/// The first identifier that the replies bring.
pub open spec fn first_id(inputs: Seq<Input>) -> Option<Seq<char>>
    decreases inputs.len(),
{
    if inputs.len() == 0 {
        None
    } else if first_id(inputs.drop_last()) is Some {
        first_id(inputs.drop_last())
    } else {
        match inputs.last().reply {
            ReplyView::Parsed(Some(chunk)) => chunk.id,
            _ => None,
        }
    }
}

/// The message of the assistant, without any content of its own.
pub open spec fn assistant_message(id: Seq<char>) -> ItemView {
    ItemView::Message {
        id: Some(id),
        role: "assistant"@,
        content: Seq::<ContentView>::empty(),
        phase: None,
    }
}

/// The text of a response as events: the message item once, then each text.
pub open spec fn text_events(text_id: Option<Seq<char>>, texts: Seq<Seq<char>>) -> Seq<EventView> {
    match text_id {
        Some(id) => seq![EventView::OutputItemAdded(assistant_message(id))] + texts.map_values(|text: Seq<char>| EventView::OutputTextDelta(text)),
        None => seq![],
    }
}

/// How a stream ends: with the events that close the response, with an error, or not yet.
pub open spec fn ending(action: ActionView) -> Seq<Result<EventView, Seq<char>>> {
    match action {
        ActionView::Finish(events) => handed_on(events),
        ActionView::Fail(text) => seq![Err(text)],
        _ => seq![],
    }
}

/// What undispatched text and payloads the bytes among the replies lead to.
pub struct Framed {
    pub lines: LinesView,
    pub payloads: Seq<Seq<char>>,
}

/// The payloads of a stream: those that blank lines dispatch, and after the last bytes what is
/// gathered, unless it is the end marker.
pub open spec fn framed(inputs: Seq<Input>) -> Framed
    decreases inputs.len(),
{
    if inputs.len() == 0 {
        Framed { lines: LinesView { line: seq![], data: seq![] }, payloads: seq![] }
    } else {
        let before = framed(inputs.drop_last());
        match inputs.last().reply {
            ReplyView::Bytes(bytes) => if vstd::utf8::valid_utf8(bytes) {
                let s = crate::sse::scan(
                    before.lines.line + vstd::utf8::decode_utf8(bytes),
                    before.lines.data,
                );
                Framed {
                    lines: LinesView { line: s.line, data: s.data },
                    payloads: before.payloads + s.payloads,
                }
            } else {
                before
            },
            ReplyView::End => {
                let data = before.lines.data;
                Framed {
                    lines: LinesView { data: seq![], ..before.lines },
                    payloads: if data.len() > 0 && !crate::sse::is_end_marker(data) {
                        before.payloads.push(data)
                    } else {
                        before.payloads
                    },
                }
            },
            _ => before,
        }
    }
}

/// The choices of one chunk: its texts go out after those before them, the message item only
/// before the very first; its fragments and reasons count after those before them.
pub proof fn lemma_choices(
    state: StateView,
    sent: Seq<Seq<char>>,
    choices: Seq<ChoiceView>,
    new_id: Seq<char>,
)
    requires
        state.text_id is Some <==> sent.len() > 0,
    ensures
        ({
            let p = state.with_choices(choices, new_id);
            &&& text_events(p.state.text_id, sent + texts(choices)) == text_events(
                state.text_id,
                sent,
            ) + p.events
            &&& p.state.text_id is Some <==> (sent + texts(choices)).len() > 0
            &&& p.state.calls == crate::tool_calls::with_fragments(state.calls, fragments(choices))
            &&& p.state.finish_reason == if last_reason(choices) is Some {
                last_reason(choices)
            } else {
                state.finish_reason
            }
            &&& p.state.stream_id == state.stream_id
        }),
    decreases choices.len(),
{
    let p = state.with_choices(choices, new_id);
    if choices.len() == 0 {
        assert(sent + texts(choices) =~= sent);
        assert(text_events(state.text_id, sent) + p.events =~= text_events(state.text_id, sent));
    } else {
        let others = choices.drop_last();
        let last = choices.last();
        lemma_choices(state, sent, others, new_id);
        let q = state.with_choices(others, new_id);
        let before = sent + texts(others);
        lemma_more_fragments(state.calls, fragments(others), last.fragments());
        match last.text() {
            Some(text) => {
                assert(sent + texts(choices) =~= before.push(text));
                if q.state.text_id is None {
                    assert(before =~= seq![]);
                }
                assert(text_events(p.state.text_id, before.push(text)) =~= text_events(
                    q.state.text_id,
                    before,
                ) + q.state.with_choice(last, new_id).events);
            },
            None => {
                assert(sent + texts(choices) =~= before);
                assert(text_events(p.state.text_id, before) =~= text_events(q.state.text_id, before)
                    + q.state.with_choice(last, new_id).events);
            },
        }
        assert(text_events(state.text_id, sent) + q.events + q.state.with_choice(
            last,
            new_id,
        ).events =~= text_events(state.text_id, sent) + p.events);
    }
}

/// Fragments in two goes are fragments in one.
pub proof fn lemma_more_fragments(
    calls: Map<usize, CallView>,
    first: Seq<FragmentView>,
    second: Seq<FragmentView>,
)
    ensures
        crate::tool_calls::with_fragments(calls, first + second)
            == crate::tool_calls::with_fragments(
            crate::tool_calls::with_fragments(calls, first),
            second,
        ),
    decreases second.len(),
{
    if second.len() == 0 {
        assert(first + second =~= first);
    } else {
        lemma_more_fragments(calls, first, second.drop_last());
        assert((first + second).drop_last() =~= first + second.drop_last());
        assert((first + second).last() == second.last());
    }
}

/// Texts, fragments and reasons of choices in two goes are those in one.
proof fn lemma_more_texts(first: Seq<ChoiceView>, second: Seq<ChoiceView>)
    ensures
        texts(first + second) == texts(first) + texts(second),
        fragments(first + second) == fragments(first) + fragments(second),
        last_reason(first + second) == if last_reason(second) is Some {
            last_reason(second)
        } else {
            last_reason(first)
        },
    decreases second.len(),
{
    if second.len() == 0 {
        assert(first + second =~= first);
        assert(texts(first) + texts(second) =~= texts(first));
        assert(fragments(first) + fragments(second) =~= fragments(first));
    } else {
        lemma_more_texts(first, second.drop_last());
        assert((first + second).drop_last() =~= first + second.drop_last());
        assert((first + second).last() == second.last());
        assert(texts(first + second) =~= texts(first) + texts(second));
        assert(fragments(first + second) =~= fragments(first) + fragments(second));
    }
}

/// The state of a stream is what its chunks add up to, and nothing else: every tool-call fragment
/// counts once and in order, the first identifier stays, the last reason for the end is kept.
pub proof fn law_state_is_what_chunks_add_up_to(
    tools: Map<Seq<char>, ToolView>,
    inputs: Seq<Input>,
)
    requires
        answers(tools, inputs),
    ensures
        ({
            let state = course(tools, inputs).stream.state;
            let choices = choices_in(inputs);
            &&& state.calls == crate::tool_calls::with_fragments(Map::empty(), fragments(choices))
            &&& state.stream_id == first_id(inputs)
            &&& state.finish_reason == last_reason(choices)
            &&& state.text_id is Some <==> texts(choices).len() > 0
        }),
        course(tools, inputs).stream.tools == tools,
    decreases inputs.len(),
{
    if inputs.len() > 0 {
        law_state_is_what_chunks_add_up_to(tools, inputs.drop_last());
        let before = course(tools, inputs.drop_last()).stream;
        let earlier = choices_in(inputs.drop_last());
        match inputs.last().reply {
            ReplyView::Parsed(Some(chunk)) => {
                let later = match chunk.choices {
                    Some(choices) => choices,
                    None => seq![],
                };
                lemma_more_texts(earlier, later);
                let named = StateView {
                    stream_id: if before.state.stream_id is None {
                        chunk.id
                    } else {
                        before.state.stream_id
                    },
                    ..before.state
                };
                lemma_choices(named, texts(earlier), later, inputs.last().ids.text);
                lemma_more_fragments(Map::empty(), fragments(earlier), fragments(later));
            },
            _ => {
                assert(choices_in(inputs) =~= earlier);
            },
        }
    }
}

/// A stream hands on, in this order: the announcement; if there is text, the message item and then
/// every text once and in order; and at its end the closing events or an error. Nothing else goes
/// out, and nothing goes out after the end.
pub proof fn law_order_of_events(tools: Map<Seq<char>, ToolView>, inputs: Seq<Input>)
    requires
        answers(tools, inputs),
    ensures
        ({
            let c = course(tools, inputs);
            &&& c.sent == handed_on(
                seq![EventView::Created] + text_events(
                    c.stream.state.text_id,
                    texts(choices_in(inputs)),
                ),
            ) + ending(c.action)
            &&& c.stream.phase is Ended <==> (c.action is Finish || c.action is Fail
                || c.action is Stop)
        }),
    decreases inputs.len(),
{
    let c = course(tools, inputs);
    let created = seq![EventView::Created];
    if inputs.len() == 0 {
        assert(c.sent =~= handed_on(created + text_events(None, seq![])) + ending(c.action));
    } else {
        law_order_of_events(tools, inputs.drop_last());
        law_state_is_what_chunks_add_up_to(tools, inputs.drop_last());
        let b = course(tools, inputs.drop_last());
        let earlier = choices_in(inputs.drop_last());
        let opened = text_events(b.stream.state.text_id, texts(earlier));
        assert(b.sent =~= handed_on(created + opened));
        match inputs.last().reply {
            ReplyView::Parsed(Some(chunk)) => {
                let later = match chunk.choices {
                    Some(choices) => choices,
                    None => seq![],
                };
                lemma_more_texts(earlier, later);
                let named = StateView {
                    stream_id: if b.stream.state.stream_id is None {
                        chunk.id
                    } else {
                        b.stream.state.stream_id
                    },
                    ..b.stream.state
                };
                lemma_choices(named, texts(earlier), later, inputs.last().ids.text);
                let p = named.with_choices(later, inputs.last().ids.text);
                assert(c.action == ActionView::Send(p.events));
                assert(created + (opened + p.events) =~= created + opened + p.events);
                assert(handed_on(created + opened + p.events) =~= handed_on(created + opened)
                    + handed_on(p.events));
                assert(c.sent =~= handed_on(created + (opened + p.events)) + ending(c.action));
            },
            ReplyView::Parsed(None) => {
                assert(choices_in(inputs) =~= earlier);
                assert(c.sent =~= handed_on(created + opened) + ending(c.action));
            },
            _ => {
                assert(choices_in(inputs) =~= earlier);
                assert(c.sent =~= handed_on(created + opened) + ending(c.action));
            },
        }
    }
}

/// A stream that comes to its regular end has handed on the announcement, the text, the end of the
/// message item, each tool call, by rising index, as added and done, and last the completion; all
/// of it determined by what its chunks held.
pub proof fn law_complete_stream(tools: Map<Seq<char>, ToolView>, inputs: Seq<Input>)
    requires
        answers(tools, inputs),
        course(tools, inputs).action is Finish,
    ensures
        ({
            let c = course(tools, inputs);
            let choices = choices_in(inputs);
            let calls = crate::tool_calls::with_fragments(Map::empty(), fragments(choices));
            c.sent == handed_on(
                seq![EventView::Created] + text_events(c.stream.state.text_id, texts(choices))
                    + c.stream.state.text_closing() + crate::response::call_events(
                    tools,
                    crate::tool_calls::by_index(calls),
                    inputs.last().ids.items,
                ) + seq![
                    EventView::Completed {
                        response_id: match first_id(inputs) {
                            Some(id) => id,
                            None => inputs.last().ids.response,
                        },
                        token_usage: None,
                        end_turn: Some(fragments(choices).len() == 0),
                    },
                ],
            )
        }),
{
    law_order_of_events(tools, inputs);
    law_state_is_what_chunks_add_up_to(tools, inputs);
    let c = course(tools, inputs);
    let ids = inputs.last().ids;
    let opened = seq![EventView::Created] + text_events(
        c.stream.state.text_id,
        texts(choices_in(inputs)),
    );
    assert(inputs.len() > 0);
    law_state_is_what_chunks_add_up_to(tools, inputs.drop_last());
    let b = course(tools, inputs.drop_last());
    assert(inputs.last().reply !is Parsed);
    assert(choices_in(inputs) =~= choices_in(inputs.drop_last()));
    let closing = c.stream.state.closing(tools, ids.items, ids.response);
    assert(c.action == ActionView::Finish(closing));
    let all = fragments(choices_in(inputs));
    let calls = crate::tool_calls::with_fragments(Map::empty(), all);
    assert(crate::tool_calls::no_calls(calls) == (all.len() == 0)) by {
        if all.len() > 0 {
            crate::tool_calls::law_fragments_add_up(Map::empty(), all, all[0].target());
            assert(calls.contains_key(all[0].target()));
        }
    }
    assert(c.sent =~= handed_on(opened + closing));
    assert(opened + closing =~= opened + c.stream.state.text_closing()
        + crate::response::call_events(tools, crate::tool_calls::by_index(calls), ids.items) + seq![
        c.stream.state.completed(ids.response),
    ]);
}

/// Texts put together.
pub open spec fn put_together(parts: Seq<Seq<char>>) -> Seq<char>
    decreases parts.len(),
{
    if parts.len() == 0 {
        seq![]
    } else {
        put_together(parts.drop_last()) + parts.last()
    }
}

/// All content of choices, put together as it stands.
pub open spec fn content_of(choices: Seq<ChoiceView>) -> Seq<char>
    decreases choices.len(),
{
    if choices.len() == 0 {
        seq![]
    } else {
        content_of(choices.drop_last()) + match choices.last().delta {
            Some(DeltaView { content: Some(content), .. }) => content,
            _ => seq![],
        }
    }
}

/// The texts of the deltas among what was handed on, in order.
pub open spec fn delta_texts(sent: Seq<Result<EventView, Seq<char>>>) -> Seq<Seq<char>>
    decreases sent.len(),
{
    if sent.len() == 0 {
        seq![]
    } else {
        match sent.last() {
            Ok(EventView::OutputTextDelta(text)) => delta_texts(sent.drop_last()).push(text),
            _ => delta_texts(sent.drop_last()),
        }
    }
}

/// Deltas in two parts are those of the parts.
proof fn lemma_deltas_of_parts(
    first: Seq<Result<EventView, Seq<char>>>,
    second: Seq<Result<EventView, Seq<char>>>,
)
    ensures
        delta_texts(first + second) == delta_texts(first) + delta_texts(second),
    decreases second.len(),
{
    if second.len() == 0 {
        assert(first + second =~= first);
        assert(delta_texts(first) + delta_texts(second) =~= delta_texts(first));
    } else {
        lemma_deltas_of_parts(first, second.drop_last());
        assert((first + second).drop_last() =~= first + second.drop_last());
        assert(delta_texts(first + second) =~= delta_texts(first) + delta_texts(second));
    }
}

/// Where there is no delta there is no text of one.
proof fn lemma_no_deltas(sent: Seq<Result<EventView, Seq<char>>>)
    requires
        forall|i: int|
            0 <= i < sent.len() ==> !(#[trigger] sent[i] matches Ok(EventView::OutputTextDelta(_))),
    ensures
        delta_texts(sent) == Seq::<Seq<char>>::empty(),
    decreases sent.len(),
{
    if sent.len() > 0 {
        let others = sent.drop_last();
        assert forall|i: int| 0 <= i < others.len() implies !(
        #[trigger] others[i] matches Ok(EventView::OutputTextDelta(_))) by {
            assert(others[i] == sent[i]);
        }
        lemma_no_deltas(others);
        assert(sent[sent.len() - 1] == sent.last());
    }
}

/// Deltas of texts have just these texts.
proof fn lemma_deltas_of_texts(texts: Seq<Seq<char>>)
    ensures
        delta_texts(
            handed_on(texts.map_values(|text: Seq<char>| EventView::OutputTextDelta(text))),
        ) == texts,
    decreases texts.len(),
{
    let events = texts.map_values(|text: Seq<char>| EventView::OutputTextDelta(text));
    if texts.len() == 0 {
        assert(delta_texts(handed_on(events)) =~= texts);
    } else {
        let others = texts.drop_last();
        lemma_deltas_of_texts(others);
        assert(handed_on(events).drop_last() =~= handed_on(
            others.map_values(|text: Seq<char>| EventView::OutputTextDelta(text)),
        ));
        assert(delta_texts(handed_on(events)) =~= texts);
    }
}

/// The texts of choices put together are all of their content.
proof fn lemma_texts_are_content(choices: Seq<ChoiceView>)
    ensures
        put_together(texts(choices)) == content_of(choices),
    decreases choices.len(),
{
    if choices.len() > 0 {
        let others = choices.drop_last();
        lemma_texts_are_content(others);
        match choices.last().delta {
            Some(DeltaView { content: Some(content), .. }) => {
                if content.len() > 0 {
                    assert(texts(choices).drop_last() =~= texts(others));
                } else {
                    assert(texts(choices) =~= texts(others));
                    assert(content_of(others) + content =~= content_of(others));
                }
            },
            _ => {
                assert(texts(choices) =~= texts(others));
                assert(content_of(others) + Seq::<char>::empty() =~= content_of(others));
            },
        }
    }
}

/// The text of a response goes out unchanged: the deltas that a stream has handed on, put together, are
/// all the content of its chunks, put together as it stands.
pub proof fn law_text_goes_out_unchanged(tools: Map<Seq<char>, ToolView>, inputs: Seq<Input>)
    requires
        answers(tools, inputs),
    ensures
        put_together(delta_texts(course(tools, inputs).sent)) == content_of(choices_in(inputs)),
        delta_texts(course(tools, inputs).sent) == texts(choices_in(inputs)),
{
    let c = course(tools, inputs);
    let said = texts(choices_in(inputs));
    let deltas = said.map_values(|text: Seq<char>| EventView::OutputTextDelta(text));
    law_order_of_events(tools, inputs);
    law_state_is_what_chunks_add_up_to(tools, inputs);
    lemma_texts_are_content(choices_in(inputs));
    let opened = seq![EventView::Created] + text_events(c.stream.state.text_id, said);
    lemma_deltas_of_parts(handed_on(opened), ending(c.action));
    match c.stream.state.text_id {
        Some(id) => {
            let head = seq![
                EventView::Created,
                EventView::OutputItemAdded(assistant_message(id)),
            ];
            assert(handed_on(opened) =~= handed_on(head) + handed_on(deltas));
            lemma_deltas_of_parts(handed_on(head), handed_on(deltas));
            lemma_no_deltas(handed_on(head));
            lemma_deltas_of_texts(said);
            assert(delta_texts(handed_on(opened)) =~= said);
        },
        None => {
            assert(opened =~= seq![EventView::Created]);
            lemma_no_deltas(handed_on(opened));
            assert(said =~= seq![]);
        },
    }
    if c.action is Finish {
        lemma_end_is_closing(tools, inputs);
        let state = c.stream.state;
        let ids = inputs.last().ids;
        let events = state.closing(tools, ids.items, ids.response);
        let list = crate::tool_calls::by_index(state.calls);
        let first = crate::response_laws::one_if(state.text_id is Some);
        law_calls_are_listed(Map::empty(), fragments(choices_in(inputs)));
        crate::response_laws::law_closing_event_by_event(state, tools, ids.items, ids.response);
        let end = ending(c.action);
        assert forall|i: int| 0 <= i < end.len() implies !(
        #[trigger] end[i] matches Ok(EventView::OutputTextDelta(_))) by {
            assert(end[i] == Ok::<EventView, Seq<char>>(events[i]));
            if first <= i < events.len() - 1 {
                let k = (i - first) / 2;
                assert(state.calls.contains_key(list[k].0));
                assert(i == first + 2 * k || i == first + 2 * k + 1);
            } else if i == events.len() - 1 {
                assert(events[i] == events.last());
            }
        }
        lemma_no_deltas(end);
    } else {
        lemma_no_deltas(ending(c.action));
    }
    assert(delta_texts(c.sent) =~= said);
}

/// A stream that ended regularly ended with the closing of its response.
proof fn lemma_end_is_closing(tools: Map<Seq<char>, ToolView>, inputs: Seq<Input>)
    requires
        answers(tools, inputs),
        course(tools, inputs).action is Finish,
    ensures
        inputs.len() > 0,
        course(tools, inputs).action == ActionView::Finish(
            course(tools, inputs).stream.state.closing(
                tools,
                inputs.last().ids.items,
                inputs.last().ids.response,
            ),
        ),
{
    law_state_is_what_chunks_add_up_to(tools, inputs);
    law_state_is_what_chunks_add_up_to(tools, inputs.drop_last());
}

/// The tool call at `index` as its fragments make it, each part as it stands.
pub open spec fn call_of(fragments: Seq<FragmentView>, index: usize) -> CallView {
    CallView {
        id: crate::tool_calls::id_for(fragments, index),
        name: crate::tool_calls::name_for(fragments, index),
        arguments: crate::tool_calls::arguments_for(fragments, index),
    }
}

/// Where the tool calls begin in a response: after the announcement and, if there was text, after the
/// message item, the texts, and the end of the message item.
pub open spec fn calls_begin(said: Seq<Seq<char>>) -> int {
    if said.len() > 0 {
        said.len() as int + 3
    } else {
        1
    }
}

/// Whether `sent` is a whole response, event by event: the announcement; if there was text, the message
/// item, each text, and the same item as done; each tool call, by rising index, as added and done, with
/// one item that describes it; and the completion.
pub open spec fn is_whole_response(
    sent: Seq<Result<EventView, Seq<char>>>,
    tools: Map<Seq<char>, ToolView>,
    choices: Seq<ChoiceView>,
    stream_id: Option<Seq<char>>,
    text_id: Seq<char>,
    order: Seq<usize>,
    ids: FreshIds,
) -> bool {
    let said = texts(choices);
    let parts = fragments(choices);
    let start = calls_begin(said);
    &&& sent.len() == start + 2 * order.len() + 1
    &&& sent[0] == Ok::<EventView, Seq<char>>(EventView::Created)
    &&& said.len() > 0 ==> {
        &&& sent[1] == Ok::<EventView, Seq<char>>(
            EventView::OutputItemAdded(assistant_message(text_id)),
        )
        &&& forall|k: int|
            0 <= k < said.len() ==> sent[2 + k] == Ok::<EventView, Seq<char>>(
                EventView::OutputTextDelta(#[trigger] said[k]),
            )
        &&& sent[said.len() as int + 2] == Ok::<EventView, Seq<char>>(
            EventView::OutputItemDone(assistant_message(text_id)),
        )
    }
    &&& forall|i: int, j: int|
        0 <= i < j < order.len() ==> (#[trigger] order[i]) < (#[trigger] order[j])
    &&& forall|index: usize| #[trigger]
        order.contains(index) <==> exists|i: int|
            0 <= i < parts.len() && crate::tool_calls::belongs_to(#[trigger] parts[i], index)
    &&& forall|k: int|
        0 <= k < order.len() ==> {
            &&& sent[start + 2 * k] is Ok && sent[start + 2 * k + 1] is Ok
            &&& crate::response_laws::is_call_pair(
                sent[start + 2 * k]->Ok_0,
                sent[start + 2 * k + 1]->Ok_0,
                tools,
                call_of(parts, #[trigger] order[k]),
                ids.items[k],
            )
        }
    &&& sent.last() == Ok::<EventView, Seq<char>>(
        EventView::Completed {
            response_id: match stream_id {
                Some(id) => id,
                None => ids.response,
            },
            token_usage: None,
            end_turn: Some(parts.len() == 0),
        },
    )
}

/// What a stream that came to its regular end has handed on is a whole response, event by event. In
/// particular the message item that was added is done once, with the same item, after the last text
/// and before the first tool call, whether or not tools were called.
#[verifier::rlimit(40)]
#[verifier::spinoff_prover]
pub proof fn law_response_event_by_event(tools: Map<Seq<char>, ToolView>, inputs: Seq<Input>)
    requires
        answers(tools, inputs),
        course(tools, inputs).action is Finish,
    ensures
        exists|order: Seq<usize>| #[trigger]
            is_whole_response(
                course(tools, inputs).sent,
                tools,
                choices_in(inputs),
                first_id(inputs),
                message_id(course(tools, inputs).stream),
                order,
                inputs.last().ids,
            ),
{
    let c = course(tools, inputs);
    let ids = inputs.last().ids;
    let state = c.stream.state;
    let choices = choices_in(inputs);
    let said = texts(choices);
    let parts = fragments(choices);
    let start = calls_begin(said);
    let text_id = message_id(c.stream);
    let list = crate::tool_calls::by_index(state.calls);
    let order = list.map_values(|entry: (usize, CallView)| entry.0);
    law_order_of_events(tools, inputs);
    law_state_is_what_chunks_add_up_to(tools, inputs);
    lemma_end_is_closing(tools, inputs);
    law_calls_are_listed(Map::empty(), parts);
    let events = state.closing(tools, ids.items, ids.response);
    crate::response_laws::law_closing_event_by_event(state, tools, ids.items, ids.response);
    let first = crate::response_laws::one_if(state.text_id is Some);
    let opened = seq![EventView::Created] + text_events(state.text_id, said);
    assert(opened.len() + first == start);
    assert(c.sent == handed_on(opened) + handed_on(events));
    assert forall|i: int| 0 <= i < events.len() implies c.sent[opened.len() + i] == Ok::<
        EventView,
        Seq<char>,
    >(#[trigger] events[i]) by {}
    assert forall|i: int| 0 <= i < opened.len() implies c.sent[i] == Ok::<EventView, Seq<char>>(
        #[trigger] opened[i],
    ) by {}
    assert(opened[0] == EventView::Created);
    if said.len() > 0 {
        assert(opened[1] == EventView::OutputItemAdded(assistant_message(text_id)));
        assert forall|k: int| 0 <= k < said.len() implies c.sent[2 + k] == Ok::<
            EventView,
            Seq<char>,
        >(EventView::OutputTextDelta(#[trigger] said[k])) by {
            assert(opened[2 + k] == EventView::OutputTextDelta(said[k]));
        }
        assert(events[0] == EventView::OutputItemDone(assistant_message(text_id)));
    }
    assert forall|i: int, j: int| 0 <= i < j < order.len() implies (#[trigger] order[i]) < (
    #[trigger] order[j]) by {
        assert(list[i].0 < list[j].0);
    }
    assert forall|index: usize| #[trigger] order.contains(index) <==> exists|i: int|
        0 <= i < parts.len() && crate::tool_calls::belongs_to(#[trigger] parts[i], index) by {
        crate::tool_calls::law_fragments_add_up(Map::empty(), parts, index);
        if order.contains(index) {
            let k = order.index_of(index);
            assert(state.calls.contains_key(list[k].0));
        }
        if state.calls.contains_key(index) {
            let k = choose|k: int| 0 <= k < list.len() && (#[trigger] list[k]).0 == index;
            assert(order[k] == index);
        }
    }
    assert forall|k: int| 0 <= k < order.len() implies {
        &&& c.sent[start + 2 * k] is Ok && c.sent[start + 2 * k + 1] is Ok
        &&& crate::response_laws::is_call_pair(
            c.sent[start + 2 * k]->Ok_0,
            c.sent[start + 2 * k + 1]->Ok_0,
            tools,
            call_of(parts, #[trigger] order[k]),
            ids.items[k],
        )
    } by {
        let index = list[k].0;
        assert(state.calls.contains_key(list[k].0));
        assert(c.sent[opened.len() + (first + 2 * k)] == Ok::<EventView, Seq<char>>(
            events[first + 2 * k],
        ));
        assert(c.sent[opened.len() + (first + 2 * k + 1)] == Ok::<EventView, Seq<char>>(
            events[first + 2 * k + 1],
        ));
        crate::tool_calls::law_fragments_add_up(Map::empty(), parts, index);
        let call = state.calls[index];
        let made = call_of(parts, index);
        let none: Seq<char> = seq![];
        assert(none + made.arguments =~= made.arguments);
        assert(none + made.name =~= made.name);
        assert(call.arguments == made.arguments);
        assert(call.name == made.name);
        assert(call == made);
    }
    assert(c.sent.last() == c.sent[opened.len() + (events.len() - 1)]);
    assert(events[events.len() - 1] == events.last());
    if parts.len() > 0 {
        let index = match parts[0].index {
            Some(index) => index,
            None => 0,
        };
        assert(crate::tool_calls::belongs_to(parts[0], index));
        assert(order.contains(index));
    } else if order.len() > 0 {
        assert(order.contains(order[0]));
    }
    assert(is_whole_response(c.sent, tools, choices, first_id(inputs), text_id, order, ids));
}

/// Each tool call is added and at once done, with the same item, in the order of the listing.
pub proof fn law_call_events_come_in_pairs(
    tools: Map<Seq<char>, ToolView>,
    list: Seq<(usize, CallView)>,
    item_ids: Seq<Seq<char>>,
)
    ensures
        crate::response::call_events(tools, list, item_ids).len() == 2 * list.len(),
        forall|k: int|
            0 <= k < list.len() ==> {
                let item = crate::response::call_item(tools, (#[trigger] list[k]).1, item_ids[k]);
                let events = crate::response::call_events(tools, list, item_ids);
                &&& events[2 * k] == EventView::OutputItemAdded(item)
                &&& events[2 * k + 1] == EventView::OutputItemDone(item)
            },
    decreases list.len(),
{
    if list.len() > 0 {
        law_call_events_come_in_pairs(tools, list.drop_last(), item_ids);
        let events = crate::response::call_events(tools, list, item_ids);
        let before = crate::response::call_events(tools, list.drop_last(), item_ids);
        assert forall|k: int| 0 <= k < list.len() implies {
            let item = crate::response::call_item(tools, (#[trigger] list[k]).1, item_ids[k]);
            &&& events[2 * k] == EventView::OutputItemAdded(item)
            &&& events[2 * k + 1] == EventView::OutputItemDone(item)
        } by {
            if k < list.len() - 1 {
                assert(list.drop_last()[k] == list[k]);
                assert(events[2 * k] == before[2 * k]);
                assert(events[2 * k + 1] == before[2 * k + 1]);
            }
        }
    }
}

/// The tool calls of a stream are finitely many, so that they are listed by rising index.
pub proof fn law_calls_are_listed(calls: Map<usize, CallView>, fragments: Seq<FragmentView>)
    requires
        calls.dom().finite(),
    ensures
        crate::tool_calls::with_fragments(calls, fragments).dom().finite(),
        crate::tool_calls::lists(
            crate::tool_calls::by_index(crate::tool_calls::with_fragments(calls, fragments)),
            crate::tool_calls::with_fragments(calls, fragments),
        ),
    decreases fragments.len(),
{
    if fragments.len() > 0 {
        law_calls_are_listed(calls, fragments.drop_last());
    }
    crate::tool_calls::lemma_by_index_lists(crate::tool_calls::with_fragments(calls, fragments));
}

/// What a stream hands on at its end does not depend on the reason for the end: tool calls go out
/// also where the reason is `stop`, and where there is none.
pub proof fn law_reason_does_not_matter(
    state: StateView,
    reason: Option<Seq<char>>,
    tools: Map<Seq<char>, ToolView>,
    item_ids: Seq<Seq<char>>,
    response_id: Seq<char>,
)
    ensures
        state.closing(tools, item_ids, response_id) == (StateView {
            finish_reason: reason,
            ..state
        }).closing(tools, item_ids, response_id),
{
}

/// Every payload of the bytes is parsed exactly once and in order, except those still waiting; more
/// bytes are read, and the response is closed, only when none waits.
pub proof fn law_payloads_are_parsed_in_order(tools: Map<Seq<char>, ToolView>, inputs: Seq<Input>)
    requires
        answers(tools, inputs),
    ensures
        ({
            let c = course(tools, inputs);
            &&& c.asked + c.stream.queue == framed(inputs).payloads
            &&& c.stream.lines == framed(inputs).lines
            &&& c.stream.phase is Announcing || c.stream.phase is Reading || c.stream.phase
                == (Phase::Parsing { last: true }) || c.stream.phase == (Phase::Sending {
                last: true,
            }) || c.action is Finish ==> c.stream.queue.len() == 0
        }),
    decreases inputs.len(),
{
    let c = course(tools, inputs);
    if inputs.len() == 0 {
        assert(c.asked + c.stream.queue =~= framed(inputs).payloads);
    } else {
        law_payloads_are_parsed_in_order(tools, inputs.drop_last());
        let b = course(tools, inputs.drop_last());
        if b.stream.queue.len() == 0 {
            assert(b.asked + b.stream.queue =~= b.asked);
        }
        assert(c.asked + c.stream.queue =~= framed(inputs).payloads);
    }
}

/// No payload that is to be parsed is empty, and none is the end marker.
pub proof fn law_end_marker_is_never_parsed(tools: Map<Seq<char>, ToolView>, inputs: Seq<Input>)
    requires
        answers(tools, inputs),
    ensures
        forall|i: int|
            0 <= i < course(tools, inputs).asked.len() ==> {
                let payload = #[trigger] course(tools, inputs).asked[i];
                payload.len() > 0 && !crate::sse::is_end_marker(payload)
            },
{
    law_payloads_are_parsed_in_order(tools, inputs);
    lemma_framed_payloads(inputs);
    let c = course(tools, inputs);
    assert forall|i: int| 0 <= i < c.asked.len() implies {
        let payload = #[trigger] c.asked[i];
        payload.len() > 0 && !crate::sse::is_end_marker(payload)
    } by {
        assert(c.asked[i] == (c.asked + c.stream.queue)[i]);
        assert(c.asked[i] == framed(inputs).payloads[i]);
    }
}

/// The framing gives no empty payload and no end marker.
proof fn lemma_framed_payloads(inputs: Seq<Input>)
    ensures
        forall|i: int|
            0 <= i < framed(inputs).payloads.len() ==> (#[trigger] framed(inputs).payloads[i]).len()
                > 0 && !crate::sse::is_end_marker(framed(inputs).payloads[i]),
    decreases inputs.len(),
{
    if inputs.len() > 0 {
        lemma_framed_payloads(inputs.drop_last());
        let before = framed(inputs.drop_last());
        if let ReplyView::Bytes(bytes) = inputs.last().reply {
            crate::sse::law_payloads_are_data(
                before.lines.line + vstd::utf8::decode_utf8(bytes),
                before.lines.data,
            );
        }
    }
}

/// The text of all bytes among the replies.
pub open spec fn text_in(inputs: Seq<Input>) -> Seq<char>
    decreases inputs.len(),
{
    if inputs.len() == 0 {
        seq![]
    } else {
        text_in(inputs.drop_last()) + match inputs.last().reply {
            ReplyView::Bytes(bytes) => vstd::utf8::decode_utf8(bytes),
            _ => seq![],
        }
    }
}

/// How the text of a stream is cut into pieces does not matter: as long as each piece is UTF-8, its
/// payloads are those of the text as a whole. Complete lines after the end marker are left out: they
/// wait until the next piece.
pub proof fn law_cuts_do_not_matter(inputs: Seq<Input>)
    requires
        forall|i: int|
            0 <= i < inputs.len() ==> {
                let reply = (#[trigger] inputs[i]).reply;
                &&& reply !is End
                &&& reply matches ReplyView::Bytes(bytes) ==> vstd::utf8::valid_utf8(bytes)
            },
        !crate::sse::scan(text_in(inputs), seq![]).line.contains('\n'),
    ensures
        ({
            let s = crate::sse::scan(text_in(inputs), seq![]);
            framed(inputs) == (Framed {
                lines: LinesView { line: s.line, data: s.data },
                payloads: s.payloads,
            })
        }),
    decreases inputs.len(),
{
    if inputs.len() == 0 {
        assert(!Seq::<char>::empty().contains('\n'));
    } else {
        let others = inputs.drop_last();
        let piece = match inputs.last().reply {
            ReplyView::Bytes(bytes) => vstd::utf8::decode_utf8(bytes),
            _ => seq![],
        };
        crate::sse::law_pieces_do_not_matter(text_in(others), piece, seq![]);
        crate::sse::law_payloads_are_data(text_in(others), seq![]);
        let s = crate::sse::scan(text_in(others), seq![]);
        if s.done {
            let left = s.line + piece;
            assert(!s.line.contains('\n')) by {
                if s.line.contains('\n') {
                    let i = s.line.index_of('\n');
                    assert(left[i] == '\n');
                }
            }
            assert(s.data =~= seq![]);
        }
        assert forall|i: int| 0 <= i < others.len() implies {
            let reply = (#[trigger] others[i]).reply;
            &&& reply !is End
            &&& reply matches ReplyView::Bytes(bytes) ==> vstd::utf8::valid_utf8(bytes)
        } by {
            assert(others[i] == inputs[i]);
        }
        law_cuts_do_not_matter(others);
        assert(inputs[inputs.len() - 1] == inputs.last());
        if inputs.last().reply !is Bytes {
            assert(text_in(inputs) =~= text_in(others));
        }
    }
}

/// A stream whose sender wrote payloads that each fit one line, with or without the end marker after
/// them, has just these payloads, in order, however its text is cut.
pub proof fn law_written_payloads_arrive(inputs: Seq<Input>, payloads: Seq<Seq<char>>)
    requires
        forall|i: int|
            0 <= i < inputs.len() ==> {
                let reply = (#[trigger] inputs[i]).reply;
                &&& reply !is End
                &&& reply matches ReplyView::Bytes(bytes) ==> vstd::utf8::valid_utf8(bytes)
            },
        forall|i: int|
            0 <= i < payloads.len() ==> crate::sse::fits_one_line(#[trigger] payloads[i])
                && !crate::sse::is_end_marker(payloads[i]),
        text_in(inputs) == crate::sse::all_written(payloads) || text_in(inputs)
            == crate::sse::all_written(payloads) + crate::sse::written("[DONE]"@),
    ensures
        framed(inputs).payloads == payloads,
        framed(inputs).lines.line.len() == 0,
        framed(inputs).lines.data.len() == 0,
{
    let none: Seq<char> = seq![];
    crate::sse::law_written_payloads_are_read(payloads, none);
    let all = crate::sse::all_written(payloads);
    let marker = crate::sse::written("[DONE]"@);
    assert(all + none =~= all);
    assert(all + marker + none =~= all + marker);
    assert(!none.contains('\n'));
    law_cuts_do_not_matter(inputs);
    assert(crate::sse::scan(none, none).led_by(payloads).payloads =~= payloads);
}

/// How payloads are parsed: the chunk that each holds, `None` where it holds none.
pub type Parser = spec_fn(Seq<char>) -> Option<ChunkView>;

/// Each reply to a request to parse is what `parse` makes of the payload.
pub open spec fn parsed_by(
    tools: Map<Seq<char>, ToolView>,
    inputs: Seq<Input>,
    parse: Parser,
) -> bool
    decreases inputs.len(),
{
    inputs.len() > 0 ==> {
        &&& parsed_by(tools, inputs.drop_last(), parse)
        &&& inputs.last().reply matches ReplyView::Parsed(parsed) ==> parsed == parse(
            course(tools, inputs.drop_last()).action->Parse_0,
        )
    }
}

/// The choices that payloads hold, in order.
pub open spec fn choices_of(payloads: Seq<Seq<char>>, parse: Parser) -> Seq<ChoiceView>
    decreases payloads.len(),
{
    if payloads.len() == 0 {
        seq![]
    } else {
        choices_of(payloads.drop_last(), parse) + match parse(payloads.last()) {
            Some(ChunkView { choices: Some(choices), .. }) => choices,
            _ => seq![],
        }
    }
}

/// The first identifier that payloads hold.
pub open spec fn id_of(payloads: Seq<Seq<char>>, parse: Parser) -> Option<Seq<char>>
    decreases payloads.len(),
{
    if payloads.len() == 0 {
        None
    } else if id_of(payloads.drop_last(), parse) is Some {
        id_of(payloads.drop_last(), parse)
    } else {
        match parse(payloads.last()) {
            Some(chunk) => chunk.id,
            None => None,
        }
    }
}

/// The payloads of a text: all data that it holds, without the end markers.
pub open spec fn payloads_of(text: Seq<char>) -> Seq<Seq<char>> {
    crate::sse::without_markers(crate::sse::blocks_of(text))
}

/// Whether what a payload holds gives a reason for the end.
pub open spec fn gives_reason(parsed: Option<ChunkView>) -> bool {
    parsed matches Some(ChunkView { choices: Some(choices), .. }) && last_reason(choices) is Some
}

/// After an end marker, and after a payload that gives a reason for the end, a text holds no more
/// data but end markers.
pub open spec fn ends_once(text: Seq<char>, parse: Parser) -> bool {
    let blocks = crate::sse::blocks_of(text);
    forall|i: int, j: int|
        0 <= i < j < blocks.len() && (crate::sse::is_end_marker(#[trigger] blocks[i])
            || gives_reason(parse(blocks[i]))) ==> crate::sse::is_end_marker(#[trigger] blocks[j])
}

/// All events of a response whose payloads are these: `text_id` names the message item if there is
/// text, `ids` the other items, and the response if no payload does.
pub open spec fn response_events(
    tools: Map<Seq<char>, ToolView>,
    payloads: Seq<Seq<char>>,
    parse: Parser,
    text_id: Seq<char>,
    ids: FreshIds,
) -> Seq<EventView> {
    let choices = choices_of(payloads, parse);
    let state = StateView {
        text_id: if texts(choices).len() > 0 {
            Some(text_id)
        } else {
            None
        },
        calls: crate::tool_calls::with_fragments(Map::empty(), fragments(choices)),
        stream_id: id_of(payloads, parse),
        finish_reason: last_reason(choices),
    };
    seq![EventView::Created] + text_events(state.text_id, texts(choices)) + state.closing(
        tools,
        ids.items,
        ids.response,
    )
}

/// The name that the message item of a stream got; empty where it has none.
pub open spec fn message_id(stream: StreamView) -> Seq<char> {
    match stream.state.text_id {
        Some(id) => id,
        None => seq![],
    }
}

/// The replies bring what the payloads hold that were parsed so far.
proof fn lemma_choices_come_from_payloads(
    tools: Map<Seq<char>, ToolView>,
    inputs: Seq<Input>,
    parse: Parser,
)
    requires
        answers(tools, inputs),
        parsed_by(tools, inputs, parse),
    ensures
        ({
            let c = course(tools, inputs);
            let parsed = if c.action is Parse {
                c.asked.drop_last()
            } else {
                c.asked
            };
            &&& choices_in(inputs) == choices_of(parsed, parse)
            &&& first_id(inputs) == id_of(parsed, parse)
            &&& c.stream.phase is Parsing <==> c.action is Parse
            &&& c.action matches ActionView::Parse(payload) ==> c.asked.len() > 0 && c.asked.last()
                == payload
        }),
    decreases inputs.len(),
{
    let c = course(tools, inputs);
    if inputs.len() > 0 {
        lemma_choices_come_from_payloads(tools, inputs.drop_last(), parse);
        let b = course(tools, inputs.drop_last());
        assert(b.asked + seq![] =~= b.asked);
        if let ActionView::Parse(payload) = c.action {
            assert(c.asked.drop_last() =~= b.asked);
        }
        if inputs.last().reply !is Parsed {
            assert(choices_in(inputs) =~= choices_in(inputs.drop_last()));
        }
    }
}

/// Whether the end of the bytes is among the replies.
pub open spec fn bytes_ended(inputs: Seq<Input>) -> bool
    decreases inputs.len(),
{
    inputs.len() > 0 && (bytes_ended(inputs.drop_last()) || inputs.last().reply is End)
}

/// The pieces of bytes among the replies, in order.
pub open spec fn pieces_in(inputs: Seq<Input>) -> Seq<Seq<u8>>
    decreases inputs.len(),
{
    if inputs.len() == 0 {
        seq![]
    } else {
        match inputs.last().reply {
            ReplyView::Bytes(bytes) => pieces_in(inputs.drop_last()).push(bytes),
            _ => pieces_in(inputs.drop_last()),
        }
    }
}

/// The bytes are read from `pieces`: from the first on, and they end after the last.
pub open spec fn reads(inputs: Seq<Input>, pieces: Seq<Seq<u8>>) -> bool {
    let read = pieces_in(inputs);
    &&& read.is_prefix_of(pieces)
    &&& bytes_ended(inputs) ==> read.len() == pieces.len()
}

/// Nothing gets in the way: the bytes do not break off, and every event is taken.
pub open spec fn undisturbed(inputs: Seq<Input>) -> bool {
    forall|i: int|
        0 <= i < inputs.len() ==> {
            let reply = (#[trigger] inputs[i]).reply;
            reply !is ReadError && reply !is Closed
        }
}

/// Pieces of bytes put together.
pub open spec fn joined(pieces: Seq<Seq<u8>>) -> Seq<u8>
    decreases pieces.len(),
{
    if pieces.len() == 0 {
        seq![]
    } else {
        joined(pieces.drop_last()) + pieces.last()
    }
}

/// Each piece is UTF-8.
pub open spec fn all_utf8(pieces: Seq<Seq<u8>>) -> bool {
    forall|i: int| 0 <= i < pieces.len() ==> vstd::utf8::valid_utf8(#[trigger] pieces[i])
}

/// The text of pieces that are UTF-8 is put together from theirs.
proof fn lemma_text_of_first_pieces(pieces: Seq<Seq<u8>>, n: int) -> (rest: Seq<char>)
    requires
        all_utf8(pieces),
        0 <= n <= pieces.len(),
    ensures
        vstd::utf8::valid_utf8(joined(pieces)),
        vstd::utf8::decode_utf8(joined(pieces)) == vstd::utf8::decode_utf8(joined(pieces.take(n)))
            + rest,
        n == pieces.len() ==> rest.len() == 0,
    decreases pieces.len(),
{
    let none: Seq<char> = seq![];
    if pieces.len() == 0 {
        assert(pieces.take(n) =~= pieces);
        assert(vstd::utf8::decode_utf8(joined(pieces)) + none =~= vstd::utf8::decode_utf8(
            joined(pieces),
        ));
        none
    } else {
        let others = pieces.drop_last();
        assert forall|i: int| 0 <= i < others.len() implies vstd::utf8::valid_utf8(
            #[trigger] others[i],
        ) by {
            assert(others[i] == pieces[i]);
        }
        assert(pieces[pieces.len() - 1] == pieces.last());
        let m = if n == pieces.len() {
            n - 1
        } else {
            n
        };
        let rest = lemma_text_of_first_pieces(others, m);
        crate::text::lemma_text_of_pieces(joined(others), pieces.last());
        if n == pieces.len() {
            assert(pieces.take(n) =~= pieces);
            assert(vstd::utf8::decode_utf8(joined(pieces)) + none =~= vstd::utf8::decode_utf8(
                joined(pieces),
            ));
            none
        } else {
            let more = vstd::utf8::decode_utf8(pieces.last());
            assert(others.take(n) =~= pieces.take(n));
            assert(vstd::utf8::decode_utf8(joined(pieces)) =~= vstd::utf8::decode_utf8(
                joined(pieces.take(n)),
            ) + (rest + more));
            rest + more
        }
    }
}

/// The text among the replies is that of their pieces put together.
proof fn lemma_text_in_is_joined(inputs: Seq<Input>)
    requires
        all_utf8(pieces_in(inputs)),
    ensures
        vstd::utf8::valid_utf8(joined(pieces_in(inputs))),
        text_in(inputs) == vstd::utf8::decode_utf8(joined(pieces_in(inputs))),
    decreases inputs.len(),
{
    if inputs.len() > 0 {
        let others = inputs.drop_last();
        let pieces = pieces_in(inputs);
        assert forall|i: int| 0 <= i < pieces_in(others).len() implies vstd::utf8::valid_utf8(
            #[trigger] pieces_in(others)[i],
        ) by {
            assert(pieces_in(others)[i] == pieces[i]);
        }
        lemma_text_in_is_joined(others);
        match inputs.last().reply {
            ReplyView::Bytes(bytes) => {
                assert(pieces[pieces.len() - 1] == bytes);
                assert(pieces.drop_last() =~= pieces_in(others));
                crate::text::lemma_text_of_pieces(joined(pieces_in(others)), bytes);
            },
            _ => {
                assert(text_in(inputs) =~= text_in(others));
            },
        }
    }
}

/// What is framed up to some reply is a part of what the whole text holds: `gone` is the data that
/// was dispatched. Once the bytes have ended, it is all of it.
proof fn lemma_framed_part_of_text(
    tools: Map<Seq<char>, ToolView>,
    inputs: Seq<Input>,
    parse: Parser,
) -> (gone: Seq<Seq<char>>)
    requires
        answers(tools, inputs),
        all_utf8(pieces_in(inputs)),
    ensures
        ({
            let f = framed(inputs);
            let text = text_in(inputs);
            &&& if bytes_ended(inputs) {
                ends_once(text, parse) ==> f.payloads == payloads_of(text)
            } else {
                &&& crate::sse::sweep(text, seq![]) == crate::sse::sweep(
                    f.lines.line,
                    f.lines.data,
                ).led_by(gone)
                &&& crate::sse::without_markers(gone) == f.payloads
                &&& f.lines.line.contains('\n') ==> f.lines.data.len() == 0 && gone.len() > 0
                    && crate::sse::is_end_marker(gone.last())
            }
            &&& match course(tools, inputs).stream.phase {
                Phase::Announcing | Phase::Reading => !bytes_ended(inputs),
                Phase::Parsing { last } => last == bytes_ended(inputs),
                Phase::Sending { last } => last == bytes_ended(inputs),
                Phase::Ended => true,
            }
        }),
    decreases inputs.len(),
{
    let none: Seq<Seq<char>> = seq![];
    if inputs.len() == 0 {
        let empty: Seq<char> = seq![];
        assert(!empty.contains('\n'));
        assert(crate::sse::sweep(empty, empty).led_by(none).blocks =~= crate::sse::sweep(
            empty,
            empty,
        ).blocks);
        none
    } else {
        let others = inputs.drop_last();
        let pieces = pieces_in(inputs);
        assert forall|i: int| 0 <= i < pieces_in(others).len() implies vstd::utf8::valid_utf8(
            #[trigger] pieces_in(others)[i],
        ) by {
            assert(pieces_in(others)[i] == pieces[i]);
        }
        let before = lemma_framed_part_of_text(tools, others, parse);
        let b = framed(others);
        match inputs.last().reply {
            ReplyView::Bytes(bytes) => {
                assert(pieces[pieces.len() - 1] == bytes);
                let piece = vstd::utf8::decode_utf8(bytes);
                crate::sse::lemma_sweep_in_pieces(text_in(others), piece, seq![]);
                crate::sse::lemma_sweep_in_pieces(b.lines.line, piece, b.lines.data);
                let line = b.lines.line + piece;
                let s = crate::sse::scan(line, b.lines.data);
                let more = crate::sse::lemma_scan_is_part_of_sweep(line, b.lines.data);
                crate::sse::law_payloads_are_data(line, b.lines.data);
                crate::sse::lemma_markers_of_parts(before, more);
                let part = crate::sse::sweep(b.lines.line, b.lines.data);
                assert(crate::sse::sweep(part.line + piece, part.data).led_by(
                    before + part.blocks,
                ).blocks =~= crate::sse::sweep(line, b.lines.data).led_by(before).blocks);
                assert(crate::sse::sweep(s.line, s.data).led_by(more).led_by(before).blocks
                    =~= crate::sse::sweep(s.line, s.data).led_by(before + more).blocks);
                before + more
            },
            ReplyView::End => {
                assert(text_in(inputs) =~= text_in(others));
                if ends_once(text_in(others), parse) {
                    lemma_draining_takes_all(text_in(others), b.lines, before, parse);
                }
                before
            },
            _ => {
                assert(text_in(inputs) =~= text_in(others));
                before
            },
        }
    }
}

/// Where the bytes end, the data that is gathered is all that is left, apart from end markers.
proof fn lemma_draining_takes_all(
    text: Seq<char>,
    lines: LinesView,
    gone: Seq<Seq<char>>,
    parse: Parser,
)
    requires
        crate::sse::sweep(text, seq![]) == crate::sse::sweep(lines.line, lines.data).led_by(gone),
        lines.line.contains('\n') ==> lines.data.len() == 0 && gone.len() > 0
            && crate::sse::is_end_marker(gone.last()),
        ends_once(text, parse),
    ensures
        payloads_of(text) == if lines.data.len() > 0 && !crate::sse::is_end_marker(lines.data) {
            crate::sse::without_markers(gone).push(lines.data)
        } else {
            crate::sse::without_markers(gone)
        },
{
    let blocks = crate::sse::blocks_of(text);
    let rest = blocks.skip(gone.len() as int);
    assert(blocks =~= gone + rest);
    crate::sse::lemma_markers_of_parts(gone, rest);
    if lines.line.contains('\n') {
        assert(blocks[gone.len() - 1] == gone.last());
        assert forall|i: int| 0 <= i < rest.len() implies crate::sse::is_end_marker(
            #[trigger] rest[i],
        ) by {
            assert(rest[i] == blocks[gone.len() + i]);
        }
        crate::sse::lemma_only_markers(rest);
        assert(payloads_of(text) =~= crate::sse::without_markers(gone));
    } else if lines.data.len() > 0 {
        assert(rest =~= seq![lines.data]);
        assert(rest.drop_last() =~= seq![]);
        assert(crate::sse::without_markers(rest.drop_last()) =~= seq![]);
        assert(payloads_of(text) =~= if crate::sse::is_end_marker(lines.data) {
            crate::sse::without_markers(gone)
        } else {
            crate::sse::without_markers(gone).push(lines.data)
        });
    } else {
        assert(rest =~= seq![]);
        assert(payloads_of(text) =~= crate::sse::without_markers(gone));
    }
}

/// A reason for the end comes from some payload.
proof fn lemma_reason_comes_from_payload(payloads: Seq<Seq<char>>, parse: Parser) -> (i: int)
    requires
        last_reason(choices_of(payloads, parse)) is Some,
    ensures
        0 <= i < payloads.len(),
        gives_reason(parse(payloads[i])),
    decreases payloads.len(),
{
    let others = choices_of(payloads.drop_last(), parse);
    let own = match parse(payloads.last()) {
        Some(ChunkView { choices: Some(choices), .. }) => choices,
        _ => seq![],
    };
    lemma_more_texts(others, own);
    if last_reason(own) is Some {
        payloads.len() - 1
    } else {
        lemma_reason_comes_from_payload(payloads.drop_last(), parse)
    }
}

/// A stream that is not read to the end has left nothing but end markers, if its text ends once.
proof fn lemma_nothing_left_after_reason(
    text: Seq<char>,
    rest: Seq<char>,
    gone: Seq<Seq<char>>,
    parse: Parser,
)
    requires
        crate::sse::sweep(text, seq![]) == (crate::sse::Sweep {
            blocks: gone,
            line: seq![],
            data: seq![],
        }),
        last_reason(choices_of(crate::sse::without_markers(gone), parse)) is Some,
        ends_once(text + rest, parse),
    ensures
        payloads_of(text + rest) == crate::sse::without_markers(gone),
{
    let none: Seq<char> = seq![];
    crate::sse::lemma_sweep_in_pieces(text, rest, none);
    assert(none + rest =~= rest);
    let left = crate::sse::blocks_of(rest);
    let blocks = crate::sse::blocks_of(text + rest);
    assert(blocks =~= gone + left);
    let payloads = crate::sse::without_markers(gone);
    let k = lemma_reason_comes_from_payload(payloads, parse);
    assert(payloads.contains(payloads[k]));
    crate::sse::lemma_found_with_markers(gone, payloads[k]);
    let i = gone.index_of(payloads[k]);
    assert(blocks[i] == payloads[k]);
    assert forall|j: int| 0 <= j < left.len() implies crate::sse::is_end_marker(
        #[trigger] left[j],
    ) by {
        assert(left[j] == blocks[gone.len() + j]);
    }
    crate::sse::lemma_only_markers(left);
    crate::sse::lemma_markers_of_parts(gone, left);
    assert(payloads_of(text + rest) =~= payloads);
}

/// All that a stream hands on follows from its bytes, however they are cut: a stream that is over,
/// with nothing in its way, was closed regularly; each payload of the text was parsed, once and in
/// order, and the events are those of these payloads. Left out are bytes that go on with data after
/// an end marker or after a reason for the end: how much of it is read depends on the cuts.
pub proof fn law_events_follow_from_bytes(
    tools: Map<Seq<char>, ToolView>,
    inputs: Seq<Input>,
    pieces: Seq<Seq<u8>>,
    parse: Parser,
)
    requires
        answers(tools, inputs),
        parsed_by(tools, inputs, parse),
        reads(inputs, pieces),
        undisturbed(inputs),
        course(tools, inputs).stream.phase is Ended,
        all_utf8(pieces),
        ends_once(vstd::utf8::decode_utf8(joined(pieces)), parse),
    ensures
        course(tools, inputs).action is Finish,
        ({
            let payloads = payloads_of(vstd::utf8::decode_utf8(joined(pieces)));
            &&& course(tools, inputs).asked == payloads
            &&& course(tools, inputs).sent == handed_on(
                response_events(
                    tools,
                    payloads,
                    parse,
                    message_id(course(tools, inputs).stream),
                    inputs.last().ids,
                ),
            )
        }),
{
    let c = course(tools, inputs);
    let ids = inputs.last().ids;
    let read = pieces_in(inputs);
    let others = inputs.drop_last();
    let b = course(tools, others);
    let text = vstd::utf8::decode_utf8(joined(pieces));
    assert(inputs.len() > 0);
    assert(inputs[inputs.len() - 1] == inputs.last());
    assert(pieces.take(read.len() as int) =~= read);
    assert forall|i: int| 0 <= i < read.len() implies vstd::utf8::valid_utf8(#[trigger] read[i]) by {
        assert(read[i] == pieces[i]);
    }
    if let ReplyView::Bytes(bytes) = inputs.last().reply {
        assert(read[read.len() - 1] == bytes);
    }
    law_order_of_events(tools, inputs);
    assert(c.action is Finish);
    law_payloads_are_parsed_in_order(tools, inputs);
    assert(c.asked + c.stream.queue =~= c.asked);
    lemma_text_in_is_joined(inputs);
    let rest = lemma_text_of_first_pieces(pieces, read.len() as int);
    lemma_choices_come_from_payloads(tools, inputs, parse);
    law_state_is_what_chunks_add_up_to(tools, inputs);
    let gone = lemma_framed_part_of_text(tools, inputs, parse);
    if bytes_ended(inputs) {
        assert(text =~= text_in(inputs));
    } else {
        assert forall|i: int| 0 <= i < pieces_in(others).len() implies vstd::utf8::valid_utf8(
            #[trigger] pieces_in(others)[i],
        ) by {
            assert(pieces_in(others)[i] == read[i]);
        }
        let _ = lemma_framed_part_of_text(tools, others, parse);
        let none: Seq<char> = seq![];
        assert(c.stream.lines.line =~= none);
        assert(c.stream.lines.data =~= none);
        assert(!none.contains('\n'));
        assert(crate::sse::sweep(none, none).led_by(gone).blocks =~= gone);
        lemma_nothing_left_after_reason(text_in(inputs), rest, gone, parse);
    }
    assert(c.action == ActionView::Finish(c.stream.state.closing(tools, ids.items, ids.response)));
    let opened = seq![EventView::Created] + text_events(
        c.stream.state.text_id,
        texts(choices_in(inputs)),
    );
    assert(c.sent =~= handed_on(
        opened + c.stream.state.closing(tools, ids.items, ids.response),
    ));
}

/// Where bytes are cut makes no difference to what is handed on: two streams over the same bytes
/// hand on the same events in the same order, as long as they give out the same identifiers. Left
/// out are bytes that go on with data after an end marker or after a reason for the end.
pub proof fn law_cuts_leave_the_events(
    tools: Map<Seq<char>, ToolView>,
    one: Seq<Input>,
    one_pieces: Seq<Seq<u8>>,
    other: Seq<Input>,
    other_pieces: Seq<Seq<u8>>,
    parse: Parser,
)
    requires
        answers(tools, one),
        answers(tools, other),
        parsed_by(tools, one, parse),
        parsed_by(tools, other, parse),
        reads(one, one_pieces),
        reads(other, other_pieces),
        undisturbed(one),
        undisturbed(other),
        course(tools, one).stream.phase is Ended,
        course(tools, other).stream.phase is Ended,
        all_utf8(one_pieces),
        all_utf8(other_pieces),
        joined(one_pieces) == joined(other_pieces),
        ends_once(vstd::utf8::decode_utf8(joined(one_pieces)), parse),
        message_id(course(tools, one).stream) == message_id(course(tools, other).stream),
        one.last().ids == other.last().ids,
    ensures
        course(tools, one).sent == course(tools, other).sent,
{
    law_events_follow_from_bytes(tools, one, one_pieces, parse);
    law_events_follow_from_bytes(tools, other, other_pieces, parse);
}

/// The end of the bytes leads to the closing of the response, with or without a reason for the end:
/// at once, or after one last payload.
pub proof fn law_end_of_bytes_closes_the_response(
    stream: StreamView,
    parsed: Option<ChunkView>,
    first: FreshIds,
    second: FreshIds,
    third: FreshIds,
)
    requires
        stream.phase is Reading,
    ensures
        ({
            let a = stream.step(ReplyView::End, first);
            let b = a.stream.step(ReplyView::Parsed(parsed), second);
            let c = b.stream.step(ReplyView::Sent, third);
            a.action is Finish || (a.action is Parse && b.action is Send && c.action is Finish)
        }),
{
}

/// A payload that is no chunk is skipped: the state stays as it was and no event goes out.
pub proof fn law_other_payloads_are_skipped(stream: StreamView, ids: FreshIds)
    requires
        stream.phase is Parsing,
    ensures
        stream.step(ReplyView::Parsed(None), ids).stream.state == stream.state,
        stream.step(ReplyView::Parsed(None), ids).action == ActionView::Send(seq![]),
{
}

/// Once nobody takes events any more, the stream is over.
pub proof fn law_closed_stream_stops(stream: StreamView, ids: FreshIds)
    requires
        stream.accepts(ReplyView::Closed),
    ensures
        stream.step(ReplyView::Closed, ids).action is Stop,
        stream.step(ReplyView::Closed, ids).stream.phase is Ended,
{
}

/// A stream that is over takes no reply.
pub proof fn law_ended_stream_takes_nothing(stream: StreamView, reply: ReplyView)
    requires
        stream.phase is Ended,
    ensures
        !stream.accepts(reply),
{
}

/// An identifier counts only where the text of a response begins.
pub proof fn law_identifier_counts_where_text_begins(
    state: StateView,
    parsed: Option<ChunkView>,
    one: Seq<char>,
    other: Seq<char>,
)
    requires
        !state.begins_text(parsed),
    ensures
        state.with_payload(parsed, one) == state.with_payload(parsed, other),
{
    if let Some(chunk) = parsed {
        if let Some(choices) = chunk.choices {
            let named = StateView {
                stream_id: if state.stream_id is None {
                    chunk.id
                } else {
                    state.stream_id
                },
                ..state
            };
            lemma_identifier_unused(named, choices, one, other);
        }
    }
}

/// Choices that do not begin the text use no identifier.
proof fn lemma_identifier_unused(
    state: StateView,
    choices: Seq<ChoiceView>,
    one: Seq<char>,
    other: Seq<char>,
)
    requires
        state.text_id is Some || forall|i: int|
            0 <= i < choices.len() ==> (#[trigger] choices[i]).text() is None,
    ensures
        state.with_choices(choices, one) == state.with_choices(choices, other),
        state.with_choices(choices, one).state.text_id == state.text_id,
    decreases choices.len(),
{
    if choices.len() > 0 {
        let others = choices.drop_last();
        assert(forall|i: int| 0 <= i < others.len() ==> others[i] == choices[i]);
        assert(choices[choices.len() - 1] == choices.last());
        lemma_identifier_unused(state, others, one, other);
    }
}

/// An action is shown as it stands.
pub proof fn law_action_is_shown(action: Action)
    ensures
        match action {
            Action::Send(events) => action@ matches ActionView::Send(shown) && shows_events(
                events@,
                shown,
            ),
            Action::Read => action@ is Read,
            Action::Parse(payload) => action@ == ActionView::Parse(payload@),
            Action::Finish(events) => action@ matches ActionView::Finish(shown) && shows_events(
                events@,
                shown,
            ),
            Action::Fail(ApiError::Stream(text)) => action@ == ActionView::Fail(text@),
            Action::Stop => action@ is Stop,
        },
{
}

/// Whether `shown` are the events, each and in order.
pub open spec fn shows_events(events: Seq<ResponseEvent>, shown: Seq<EventView>) -> bool {
    &&& shown.len() == events.len()
    &&& forall|i: int| 0 <= i < shown.len() ==> #[trigger] shown[i] == events[i].deep_view()
}

/// A reply is shown as it stands.
pub proof fn law_reply_is_shown(reply: Reply)
    ensures
        match reply {
            Reply::Sent => reply@ is Sent,
            Reply::Closed => reply@ is Closed,
            Reply::Bytes(bytes) => reply@ == ReplyView::Bytes(bytes@),
            Reply::ReadError(text) => reply@ == ReplyView::ReadError(text@),
            Reply::End => reply@ is End,
            Reply::Parsed(Some(chunk)) => reply@ == ReplyView::Parsed(Some(chunk.deep_view())),
            Reply::Parsed(None) => reply@ == ReplyView::Parsed(None),
        },
{
}

/// A stream begins by announcing the response, and takes the word that the announcement was sent.
pub proof fn law_stream_begins(tool_map: ToolReverseMap, stream: ChatStream, action: Action)
    requires
        call_ensures(parse_chat_sse_stream, (tool_map,), (stream, action)),
    ensures
        action matches Action::Send(events) && events@.len() == 1 && events@[0] is Created,
        stream@.phase is Announcing,
        stream@.tools == tool_map@,
        stream@.queue.len() == 0,
        stream@.lines.line.len() == 0,
        stream@.lines.data.len() == 0,
        stream@.state.text_id is None,
        stream@.state.stream_id is None,
        stream@.state.finish_reason is None,
        forall|index: usize| !stream@.state.calls.contains_key(index),
{
    law_action_is_shown(action);
    if let Action::Send(events) = action {
        let shown = events.deep_view();
        assert(shown == seq![EventView::Created]);
        assert(shown.len() == 1);
        assert(shown[0] == events@[0].deep_view());
    }
}

/// A stream takes just the replies to what it asked for: whether events were sent after sending, bytes,
/// their end or an error after reading, a chunk or none after parsing, and nothing once it is over.
pub proof fn law_accepted_replies(stream: StreamView, reply: ReplyView)
    ensures
        stream.accepts(reply) <==> match reply {
            ReplyView::Sent | ReplyView::Closed => stream.phase is Announcing
                || stream.phase is Sending,
            ReplyView::Bytes(_) | ReplyView::ReadError(_) | ReplyView::End => stream.phase
                is Reading,
            ReplyView::Parsed(_) => stream.phase is Parsing,
        },
{
}

/// A stream fails only where its bytes break off or are not UTF-8, always there, and with a text that
/// says which.
pub proof fn law_stream_fails(stream: StreamView, reply: ReplyView, ids: FreshIds)
    requires
        stream.accepts(reply),
    ensures
        ({
            let turn = stream.step(reply, ids);
            &&& reply matches ReplyView::ReadError(why) ==> turn.action == ActionView::Fail(
                "byte stream error: "@ + why,
            )
            &&& reply matches ReplyView::Bytes(bytes) ==> (turn.action is Fail
                <==> !vstd::utf8::valid_utf8(bytes))
            &&& reply matches ReplyView::Bytes(bytes) ==> (turn.action is Fail ==> turn.action
                == ActionView::Fail("UTF-8 error: "@ + crate::text::utf8_error_text(bytes)))
            &&& turn.action is Fail ==> reply is ReadError || reply is Bytes
            &&& turn.action is Fail ==> turn.stream.phase is Ended
            &&& turn.action is Stop <==> reply is Closed
        }),
{
}

/// Bytes are read on as long as no reason for the end was given or something is left over; a stream
/// that is closed before its bytes have ended was given a reason, and has nothing left.
pub proof fn law_reading_goes_on(tools: Map<Seq<char>, ToolView>, inputs: Seq<Input>)
    requires
        answers(tools, inputs),
    ensures
        ({
            let c = course(tools, inputs);
            let reason = last_reason(choices_in(inputs));
            &&& c.stream.phase is Reading ==> reason is None || c.stream.lines.line.len() > 0
                || c.stream.lines.data.len() > 0
            &&& c.action is Finish && !bytes_ended(inputs) ==> reason is Some
                && c.stream.lines.line.len() == 0 && c.stream.lines.data.len() == 0
            &&& c.stream.phase is Reading <==> c.action is Read
            &&& c.stream.phase is Announcing <==> inputs.len() == 0
            &&& c.stream.phase is Sending ==> c.action is Send
            &&& c.stream.phase matches Phase::Parsing { last } ==> last == bytes_ended(inputs)
            &&& c.stream.phase matches Phase::Sending { last } ==> last == bytes_ended(inputs)
            &&& c.stream.phase is Reading ==> !bytes_ended(inputs)
        }),
    decreases inputs.len(),
{
    law_state_is_what_chunks_add_up_to(tools, inputs);
    if inputs.len() > 0 {
        law_reading_goes_on(tools, inputs.drop_last());
        law_state_is_what_chunks_add_up_to(tools, inputs.drop_last());
        if inputs.last().reply !is Parsed {
            assert(choices_in(inputs) =~= choices_in(inputs.drop_last()));
        }
        if inputs.len() == 1 {
            assert(choices_in(inputs.drop_last()) =~= seq![]);
            assert(!bytes_ended(inputs.drop_last()));
        }
    }
}

/// The identifiers that a step gives out are fresh: one for the message item where the text begins, and
/// one for each tool call, and for a response without its own, where the response is closed.
pub proof fn law_step_gives_fresh_ids(stream: StreamView, reply: ReplyView, ids: FreshIds)
    requires
        stream.accepts(reply),
        stream.fresh_for(reply, ids),
    ensures
        reply matches ReplyView::Parsed(Some(chunk)) ==> (stream.state.text_id is None && texts(
            crate::response_laws::choices_of_chunk(chunk),
        ).len() > 0 ==> crate::ids::is_random_uuid(ids.text)),
        stream.step(reply, ids).action is Finish ==> {
            &&& ids.items.len() == crate::tool_calls::by_index(stream.state.calls).len()
            &&& forall|i: int|
                0 <= i < ids.items.len() ==> crate::ids::is_random_uuid(#[trigger] ids.items[i])
            &&& stream.state.stream_id is None ==> crate::ids::is_random_uuid(ids.response)
        },
{
    if let ReplyView::Parsed(parsed) = reply {
        crate::response_laws::law_text_begins_with_content(stream.state, parsed);
    }
}

} // verus!
