//! What a chat-completions stream adds up to: chunks in, response events out.
use vstd::prelude::*;

use crate::chunk::ChatChoice;
use crate::chunk::ChatChunk;
use crate::chunk::ChoiceView;
use crate::chunk::ChunkView;
use crate::events::ContentView;
use crate::events::EventView;
use crate::events::ItemView;
use crate::events::ResponseEvent;
use crate::events::ResponseItem;
use crate::ids::fresh_id;
use crate::json::member;
use crate::json::parse_document;
use crate::tool_calls::CallView;
use crate::tool_calls::ToolCallBuilder;
use crate::tool_calls::ToolCallTable;
use crate::tool_map::KindView;
use crate::tool_map::RegisteredTool;
use crate::tool_map::ToolKind;
use crate::tool_map::ToolReverseMap;
use crate::tool_map::ToolView;

verus! {

/// The message item that stands for the text of a response. It carries no content of its own:
/// the text goes out in deltas.
pub open spec fn message_item(id: Seq<char>) -> ItemView {
    ItemView::Message {
        id: Some(id),
        role: "assistant"@,
        content: Seq::<ContentView>::empty(),
        phase: None,
    }
}

/// The state of a response as a mathematical value.
pub struct StateView {
    /// The identifier of the message item, once there was text.
    pub text_id: Option<Seq<char>>,
    /// The tool calls by index.
    pub calls: Map<usize, CallView>,
    /// The identifier that the stream gave itself.
    pub stream_id: Option<Seq<char>>,
    /// The last reason that was given for the end of a choice.
    pub finish_reason: Option<Seq<char>>,
}

/// A state with the events that led to it.
pub struct Progress {
    pub state: StateView,
    pub events: Seq<EventView>,
}

impl StateView {
    /// Before the first chunk.
    pub open spec fn initial() -> StateView {
        StateView { text_id: None, calls: Map::empty(), stream_id: None, finish_reason: None }
    }

    /// More text: a delta, and before the first one the message item, under `new_id`.
    pub open spec fn with_text(self, text: Seq<char>, new_id: Seq<char>) -> Progress {
        if self.text_id is None {
            Progress {
                state: StateView { text_id: Some(new_id), ..self },
                events: seq![
                    EventView::OutputItemAdded(message_item(new_id)),
                    EventView::OutputTextDelta(text),
                ],
            }
        } else {
            Progress { state: self, events: seq![EventView::OutputTextDelta(text)] }
        }
    }

    /// One choice of a chunk: its reason is kept, its text goes out, its tool-call fragments
    /// are gathered.
    pub open spec fn with_choice(self, choice: ChoiceView, new_id: Seq<char>) -> Progress {
        let gathered = StateView {
            finish_reason: if choice.reason() is Some {
                choice.reason()
            } else {
                self.finish_reason
            },
            calls: crate::tool_calls::with_fragments(self.calls, choice.fragments()),
            ..self
        };
        match choice.text() {
            Some(text) => gathered.with_text(text, new_id),
            None => Progress { state: gathered, events: seq![] },
        }
    }

    /// The choices of a chunk, in their order.
    pub open spec fn with_choices(self, choices: Seq<ChoiceView>, new_id: Seq<char>) -> Progress
        decreases choices.len(),
    {
        if choices.len() == 0 {
            Progress { state: self, events: seq![] }
        } else {
            let before = self.with_choices(choices.drop_last(), new_id);
            let last = before.state.with_choice(choices.last(), new_id);
            Progress { state: last.state, events: before.events + last.events }
        }
    }

    /// A chunk: the first identifier is kept, then its choices count.
    pub open spec fn with_chunk(self, chunk: ChunkView, new_id: Seq<char>) -> Progress {
        let named = StateView {
            stream_id: if self.stream_id is None {
                chunk.id
            } else {
                self.stream_id
            },
            ..self
        };
        match chunk.choices {
            Some(choices) => named.with_choices(choices, new_id),
            None => Progress { state: named, events: seq![] },
        }
    }

    /// A payload as it was parsed; one that is not a chunk changes nothing.
    pub open spec fn with_payload(self, parsed: Option<ChunkView>, new_id: Seq<char>) -> Progress {
        match parsed {
            Some(chunk) => self.with_chunk(chunk, new_id),
            None => Progress { state: self, events: seq![] },
        }
    }

    /// Whether a payload begins the text of the response, so that a new identifier is needed.
    pub open spec fn begins_text(self, parsed: Option<ChunkView>) -> bool {
        &&& self.text_id is None
        &&& parsed matches Some(chunk)
        &&& chunk.choices matches Some(choices)
        &&& exists|i: int| 0 <= i < choices.len() && (#[trigger] choices[i]).text() is Some
    }
}

/// The namespace of a function call: the one that was registered, else the one that the wire
/// name encodes; an empty one counts as none.
pub open spec fn effective_namespace(
    registered: Option<Seq<char>>,
    decoded: Option<Seq<char>>,
) -> Option<Seq<char>> {
    let namespace = if registered is Some {
        registered
    } else {
        decoded
    };
    match namespace {
        Some(text) => if text.len() > 0 {
            Some(text)
        } else {
            None
        },
        None => None,
    }
}

/// The input of a custom tool call: the text under `input` in its arguments; the raw arguments
/// where they are not JSON or hold no such text.
pub open spec fn custom_input(
    read: Option<Map<Seq<char>, Option<Seq<char>>>>,
    arguments: Seq<char>,
) -> Seq<char> {
    match read {
        Some(members) => if members.contains_key("input"@) {
            match members["input"@] {
                Some(input) => input,
                None => arguments,
            }
        } else {
            arguments
        },
        None => arguments,
    }
}

/// The item of a tool call, given the tool of its name and the input that its arguments hold.
/// A call of a name that is not registered is a function call of that very name.
pub open spec fn item_with_input(
    tool: Option<ToolView>,
    call: CallView,
    item_id: Seq<char>,
    input: Seq<char>,
) -> ItemView {
    match tool {
        Some(ToolView { kind: KindView::Function { namespace }, decoded_namespace, decoded_name }) =>
            ItemView::FunctionCall {
            id: Some(item_id),
            name: decoded_name,
            namespace: effective_namespace(namespace, decoded_namespace),
            arguments: call.arguments,
            call_id: call.id,
        },
        Some(ToolView { kind: KindView::Custom, .. }) => ItemView::CustomToolCall {
            id: Some(item_id),
            status: None,
            call_id: call.id,
            name: call.name,
            input,
        },
        None => ItemView::FunctionCall {
            id: Some(item_id),
            name: call.name,
            namespace: None,
            arguments: call.arguments,
            call_id: call.id,
        },
    }
}

/// The tool that is registered under `name`.
pub open spec fn tool_named(tools: Map<Seq<char>, ToolView>, name: Seq<char>) -> Option<ToolView> {
    if tools.contains_key(name) {
        Some(tools[name])
    } else {
        None
    }
}

/// The item of a tool call.
pub open spec fn call_item(
    tools: Map<Seq<char>, ToolView>,
    call: CallView,
    item_id: Seq<char>,
) -> ItemView {
    item_with_input(
        tool_named(tools, call.name),
        call,
        item_id,
        custom_input(crate::json::parsed_members(call.arguments), call.arguments),
    )
}

/// The events of tool calls: each is added and done before the next.
pub open spec fn call_events(
    tools: Map<Seq<char>, ToolView>,
    list: Seq<(usize, CallView)>,
    item_ids: Seq<Seq<char>>,
) -> Seq<EventView>
    decreases list.len(),
{
    if list.len() == 0 {
        seq![]
    } else {
        let item = call_item(tools, list.last().1, item_ids[list.len() - 1]);
        call_events(tools, list.drop_last(), item_ids) + seq![
            EventView::OutputItemAdded(item),
            EventView::OutputItemDone(item),
        ]
    }
}

impl StateView {
    /// The end of the message item, where there was text.
    pub open spec fn text_closing(self) -> Seq<EventView> {
        match self.text_id {
            Some(id) => seq![EventView::OutputItemDone(message_item(id))],
            None => seq![],
        }
    }

    /// The last event: the stream's own identifier, or `new_id` where it gave none, and whether
    /// the turn is over, which it is unless a tool was called.
    pub open spec fn completed(self, new_id: Seq<char>) -> EventView {
        EventView::Completed {
            response_id: match self.stream_id {
                Some(id) => id,
                None => new_id,
            },
            token_usage: None,
            end_turn: Some(crate::tool_calls::no_calls(self.calls)),
        }
    }

    /// The events that close the response.
    pub open spec fn closing(
        self,
        tools: Map<Seq<char>, ToolView>,
        item_ids: Seq<Seq<char>>,
        response_id: Seq<char>,
    ) -> Seq<EventView> {
        self.text_closing() + call_events(
            tools,
            crate::tool_calls::by_index(self.calls),
            item_ids,
        ) + seq![self.completed(response_id)]
    }
}

impl StateView {
    /// One fresh identifier for each tool call, and one for the response if it has none.
    pub open spec fn fresh_for_closing(
        self,
        item_ids: Seq<Seq<char>>,
        response_id: Seq<char>,
    ) -> bool {
        &&& item_ids.len() == crate::tool_calls::by_index(self.calls).len()
        &&& forall|i: int| 0 <= i < item_ids.len() ==> crate::ids::is_random_uuid(#[trigger] item_ids[i])
        &&& self.stream_id is None ==> crate::ids::is_random_uuid(response_id)
    }
}

/// The input of a custom tool call, given what stands under `input` in its arguments: `None`
/// where nothing does, `Some(None)` where it is no text.
pub fn input_or_arguments(input: Option<Option<String>>, arguments: &str) -> (r: String)
    ensures
        r@ == match input {
            Some(Some(text)) => text@,
            _ => arguments@,
        },
{
    match input {
        Some(Some(text)) => text,
        _ => arguments.to_owned(),
    }
}

/// The input of a custom tool call: the `input` field of `{"input": "..."}` arguments, else the
/// raw arguments. Whatever text was written as that field comes back.
pub fn extract_custom_input(arguments: &str) -> (r: String)
    ensures
        r@ == custom_input(crate::json::parsed_members(arguments@), arguments@),
        forall|gap: Seq<char>, input: Seq<char>|
            crate::json::is_gap(gap) && arguments@
                == #[trigger] crate::json::one_member_object("input"@, gap, input) ==> r@ == input,
{
    match parse_document(arguments) {
        Ok(document) => input_or_arguments(member(&document, "input"), arguments),
        Err(_) => arguments.to_owned(),
    }
}

/// The namespace of a function call.
fn function_namespace(tool_namespace: &Option<String>, decoded: &Option<String>) -> (r: Option<
    String,
>)
    ensures
        r.deep_view() == effective_namespace(tool_namespace.deep_view(), decoded.deep_view()),
{
    let namespace = match tool_namespace {
        Some(text) => Some(text),
        None => match decoded {
            Some(text) => Some(text),
            None => None,
        },
    };
    match namespace {
        Some(text) => if text.as_str().is_empty() {
            None
        } else {
            Some(text.clone())
        },
        None => None,
    }
}

/// The item of a tool call, given the tool of its name and the input that its arguments hold.
pub fn tool_call_item(
    tool: Option<&RegisteredTool>,
    call: &ToolCallBuilder,
    item_id: &str,
    input: String,
) -> (item: ResponseItem)
    ensures
        item.deep_view() == item_with_input(
            match tool {
                Some(tool) => Some(tool.deep_view()),
                None => None,
            },
            call@,
            item_id@,
            input@,
        ),
{
    match tool {
        Some(tool) => match &tool.kind {
            ToolKind::Function { namespace } => ResponseItem::FunctionCall {
                id: Some(item_id.to_owned()),
                name: tool.decoded_name.clone(),
                namespace: function_namespace(namespace, &tool.decoded_namespace),
                arguments: call.arguments.clone(),
                call_id: call.id.clone(),
            },
            ToolKind::Custom => ResponseItem::CustomToolCall {
                id: Some(item_id.to_owned()),
                status: None,
                call_id: call.id.clone(),
                name: call.name.clone(),
                input,
            },
        },
        None => ResponseItem::FunctionCall {
            id: Some(item_id.to_owned()),
            name: call.name.clone(),
            namespace: None,
            arguments: call.arguments.clone(),
            call_id: call.id.clone(),
        },
    }
}

/// The state of a response.
#[derive(Debug)]
pub struct ChatState {
    text_id: Option<String>,
    calls: ToolCallTable,
    stream_id: Option<String>,
    finish_reason: Option<String>,
}

impl View for ChatState {
    type V = StateView;

    closed spec fn view(&self) -> StateView {
        StateView {
            text_id: self.text_id.deep_view(),
            calls: self.calls@,
            stream_id: self.stream_id.deep_view(),
            finish_reason: self.finish_reason.deep_view(),
        }
    }
}

/// The tool calls of a response are finitely many.
pub proof fn lemma_calls_are_finite(state: ChatState)
    ensures
        state@.calls.dom().finite(),
{
    crate::tool_calls::lemma_table_is_finite(state.calls);
}

/// The message item that stands for the text of a response.
fn new_message_item(id: &str) -> (item: ResponseItem)
    ensures
        item.deep_view() == message_item(id@),
{
    let item = ResponseItem::Message {
        id: Some(id.to_owned()),
        role: "assistant".to_owned(),
        content: Vec::new(),
        phase: None,
    };
    proof {
        assert(item.deep_view()->content =~= Seq::<ContentView>::empty());
    }
    item
}

/// Whether a choice adds text.
fn choice_has_text(choice: &ChatChoice) -> (b: bool)
    ensures
        b == (choice.deep_view().text() is Some),
{
    match &choice.delta {
        Some(delta) => match &delta.content {
            Some(content) => !content.as_str().is_empty(),
            None => false,
        },
        None => false,
    }
}

impl ChatState {
    /// What the methods rely on and keep.
    pub closed spec fn wf(self) -> bool {
        self.calls.wf()
    }

    /// Before the first chunk.
    pub fn new() -> (state: Self)
        ensures
            state.wf(),
            state@ == StateView::initial(),
    {
        ChatState {
            text_id: None,
            calls: ToolCallTable::new(),
            stream_id: None,
            finish_reason: None,
        }
    }

    /// Whether a reason for the end was given.
    pub fn is_finished(&self) -> (b: bool)
        ensures
            b == (self@.finish_reason is Some),
    {
        self.finish_reason.is_some()
    }

    /// Whether a payload begins the text of the response.
    fn will_begin_text(&self, parsed: &Option<ChatChunk>) -> (b: bool)
        ensures
            b == self@.begins_text(parsed.deep_view()),
    {
        if self.text_id.is_some() {
            return false;
        }
        match parsed {
            Some(chunk) => match &chunk.choices {
                Some(choices) => {
                    let mut i: usize = 0;
                    #[verifier::loop_isolation(false)]
                    while i < choices.len()
                        invariant
                            i <= choices.len(),
                            forall|j: int|
                                0 <= j < i ==> (#[trigger] choices.deep_view()[j]).text() is None,
                        decreases choices.len() - i,
                    {
                        if choice_has_text(&choices[i]) {
                            proof {
                                assert(choices.deep_view()[i as int].text() is Some);
                            }
                            return true;
                        }
                        i = i + 1;
                    }
                    false
                },
                None => false,
            },
            None => false,
        }
    }

    /// Takes in one choice of a chunk; the message item gets `new_id` if it begins here.
    fn take_choice(&mut self, choice: &ChatChoice, new_id: &str, events: &mut Vec<ResponseEvent>)
        requires
            old(self).wf(),
        ensures
            final(self).wf(),
            ({
                let p = old(self)@.with_choice(choice.deep_view(), new_id@);
                &&& final(self)@ == p.state
                &&& final(events).deep_view() == old(events).deep_view() + p.events
            }),
    {
        let ghost start = self@;
        let ghost sent = events.deep_view();
        if let Some(reason) = &choice.finish_reason {
            if !reason.as_str().is_empty() {
                self.finish_reason = Some(reason.clone());
            }
        }
        if let Some(delta) = &choice.delta {
            if let Some(content) = &delta.content {
                if !content.as_str().is_empty() {
                    if self.text_id.is_none() {
                        events.push(ResponseEvent::OutputItemAdded(new_message_item(new_id)));
                        self.text_id = Some(new_id.to_owned());
                    }
                    events.push(ResponseEvent::OutputTextDelta(content.clone()));
                }
            }
            if let Some(fragments) = &delta.tool_calls {
                let ghost before = self.calls@;
                let mut i: usize = 0;
                proof {
                    assert(fragments.deep_view().take(0) =~= seq![]);
                }
                let ghost this = *self;
                while i < fragments.len()
                    invariant
                        i <= fragments.len(),
                        self.calls.wf(),
                        self.calls@ == crate::tool_calls::with_fragments(
                            before,
                            fragments.deep_view().take(i as int),
                        ),
                        self.text_id == this.text_id,
                        self.stream_id == this.stream_id,
                        self.finish_reason == this.finish_reason,
                    decreases fragments.len() - i,
                {
                    self.calls.add(&fragments[i]);
                    proof {
                        let shown = fragments.deep_view();
                        assert(shown.take(i + 1).drop_last() =~= shown.take(i as int));
                        assert(shown.take(i + 1).last() == fragments[i as int].deep_view());
                    }
                    i = i + 1;
                }
                proof {
                    assert(fragments.deep_view().take(i as int) =~= fragments.deep_view());
                }
            }
        }
        proof {
            let p = start.with_choice(choice.deep_view(), new_id@);
            assert(events.deep_view() =~= sent + p.events);
        }
    }

    /// Takes in a payload as it was parsed, and gives the events that it leads to. The message
    /// item gets `new_id` if the text begins here.
    pub fn process_chunk_with(&mut self, parsed: Option<ChatChunk>, new_id: &str) -> (events: Vec<
        ResponseEvent,
    >)
        requires
            old(self).wf(),
        ensures
            final(self).wf(),
            ({
                let p = old(self)@.with_payload(parsed.deep_view(), new_id@);
                &&& final(self)@ == p.state
                &&& events.deep_view() == p.events
            }),
    {
        let mut events: Vec<ResponseEvent> = Vec::new();
        proof {
            assert(events.deep_view() =~= seq![]);
        }
        if let Some(chunk) = parsed {
            if self.stream_id.is_none() {
                self.stream_id = chunk.id;
            }
            if let Some(choices) = chunk.choices {
                let ghost named = self@;
                let ghost shown = choices.deep_view();
                let mut i: usize = 0;
                proof {
                    assert(shown.take(0) =~= seq![]);
                }
                while i < choices.len()
                    invariant
                        i <= choices.len(),
                        shown == choices.deep_view(),
                        self.wf(),
                        self@ == named.with_choices(shown.take(i as int), new_id@).state,
                        events.deep_view() == named.with_choices(
                            shown.take(i as int),
                            new_id@,
                        ).events,
                    decreases choices.len() - i,
                {
                    self.take_choice(&choices[i], new_id, &mut events);
                    proof {
                        assert(shown.take(i + 1).drop_last() =~= shown.take(i as int));
                        assert(shown.take(i + 1).last() == choices[i as int].deep_view());
                    }
                    i = i + 1;
                }
                proof {
                    assert(shown.take(i as int) =~= shown);
                }
            }
        }
        events
    }

    /// Takes in a payload as it was parsed, and gives the events that it leads to. A fresh
    /// identifier names the message item if the text begins here.
    pub fn process_chunk(&mut self, parsed: Option<ChatChunk>) -> (events: Vec<ResponseEvent>)
        requires
            old(self).wf(),
        ensures
            final(self).wf(),
            exists|new_id: Seq<char>|
                {
                    let p = #[trigger] old(self)@.with_payload(parsed.deep_view(), new_id);
                    &&& old(self)@.begins_text(parsed.deep_view()) ==> crate::ids::is_random_uuid(
                        new_id,
                    )
                    &&& final(self)@ == p.state
                    &&& events.deep_view() == p.events
                },
    {
        let new_id = if self.will_begin_text(&parsed) {
            fresh_id()
        } else {
            String::new()
        };
        self.process_chunk_with(parsed, new_id.as_str())
    }

    /// How many tool calls there are.
    pub fn call_count(&self) -> (n: usize)
        requires
            self.wf(),
        ensures
            n == crate::tool_calls::by_index(self@.calls).len(),
    {
        self.calls.len()
    }

    /// The events that close the response. Each tool call's item gets the identifier at its
    /// place in `item_ids`; `response_id` names a response whose stream gave no identifier.
    pub fn finish_with(
        &self,
        tools: &ToolReverseMap,
        item_ids: &Vec<String>,
        response_id: &str,
    ) -> (events: Vec<ResponseEvent>)
        requires
            self.wf(),
            item_ids.len() == crate::tool_calls::by_index(self@.calls).len(),
        ensures
            events.deep_view() == self@.closing(tools@, item_ids.deep_view(), response_id@),
    {
        let mut events: Vec<ResponseEvent> = Vec::new();
        if let Some(id) = &self.text_id {
            events.push(ResponseEvent::OutputItemDone(new_message_item(id.as_str())));
        }
        let ghost text = self@.text_closing();
        let ghost list = crate::tool_calls::by_index(self@.calls);
        let ghost ids = item_ids.deep_view();
        let mut i: usize = 0;
        proof {
            assert(events.deep_view() =~= text);
            assert(list.take(0) =~= seq![]);
            assert(text + call_events(tools@, list.take(0), ids) =~= text);
        }
        let count: usize = self.calls.len();
        while i < count
            invariant
                i <= count == list.len() == item_ids.len(),
                self.wf(),
                list == crate::tool_calls::by_index(self@.calls),
                ids == item_ids.deep_view(),
                events.deep_view() == text + call_events(tools@, list.take(i as int), ids),
            decreases count - i,
        {
            let call = self.calls.nth(i);
            let tool = tools.get(call.name.as_str());
            let input = match tool {
                Some(registered) => match &registered.kind {
                    ToolKind::Custom => extract_custom_input(call.arguments.as_str()),
                    ToolKind::Function { .. } => String::new(),
                },
                None => String::new(),
            };
            let item = tool_call_item(tool, call, item_ids[i].as_str(), input);
            let ghost before = events.deep_view();
            let again = item.clone();
            events.push(ResponseEvent::OutputItemAdded(again));
            events.push(ResponseEvent::OutputItemDone(item));
            proof {
                let shown = item.deep_view();
                assert(ids[i as int] == item_ids[i as int]@);
                assert(shown == call_item(tools@, list[i as int].1, ids[i as int]));
                let taken = list.take(i + 1);
                assert(taken.drop_last() =~= list.take(i as int));
                assert(taken.last() == list[i as int]);
                assert(events.deep_view() =~= before + seq![
                    EventView::OutputItemAdded(shown),
                    EventView::OutputItemDone(shown),
                ]);
                assert(events.deep_view() =~= text + call_events(tools@, taken, ids));
            }
            i = i + 1;
        }
        let ghost before = events.deep_view();
        let completed = ResponseEvent::Completed {
            response_id: match &self.stream_id {
                Some(id) => id.clone(),
                None => response_id.to_owned(),
            },
            token_usage: None,
            end_turn: Some(self.calls.is_empty()),
        };
        events.push(completed);
        proof {
            assert(list.take(i as int) =~= list);
            assert(completed.deep_view() == self@.completed(response_id@));
            assert(events.deep_view() =~= before + seq![self@.completed(response_id@)]);
        }
        events
    }

    /// The events that close the response, with a fresh identifier for each tool call's item and
    /// for a response whose stream gave none.
    pub fn finish(&self, tools: &ToolReverseMap) -> (events: Vec<ResponseEvent>)
        requires
            self.wf(),
        ensures
            exists|item_ids: Seq<Seq<char>>, response_id: Seq<char>|
                {
                    &&& events.deep_view() == #[trigger] self@.closing(
                        tools@,
                        item_ids,
                        response_id,
                    )
                    &&& self@.fresh_for_closing(item_ids, response_id)
                },
    {
        let mut item_ids: Vec<String> = Vec::new();
        let count: usize = self.calls.len();
        while item_ids.len() < count
            invariant
                item_ids.len() <= count,
                forall|i: int|
                    0 <= i < item_ids.len() ==> crate::ids::is_random_uuid(
                        #[trigger] item_ids.deep_view()[i],
                    ),
            decreases count - item_ids.len(),
        {
            let ghost before = item_ids.deep_view();
            let id = fresh_id();
            item_ids.push(id);
            proof {
                assert(item_ids.deep_view() =~= before.push(id@));
            }
        }
        let response_id = if self.stream_id.is_none() {
            fresh_id()
        } else {
            String::new()
        };
        proof {
            assert(self@.fresh_for_closing(item_ids.deep_view(), response_id@));
        }
        self.finish_with(tools, &item_ids, response_id.as_str())
    }
}

} // verus!
