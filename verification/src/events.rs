//! Response events and the items that they carry.
use vstd::prelude::*;

verus! {

/// Tokens that a response used. Carried along, never read.
#[derive(Clone, Copy, Debug, PartialEq, Eq, Structural)]
pub struct TokenUsage {
    pub input_tokens: i64,
    pub cached_input_tokens: i64,
    pub output_tokens: i64,
    pub reasoning_output_tokens: i64,
    pub total_tokens: i64,
}

/// Which part of a turn a message belongs to.
#[derive(Clone, Copy, Debug, PartialEq, Eq, Structural)]
pub enum MessagePhase {
    Commentary,
    FinalAnswer,
}

/// A piece of a message's content.
#[derive(Debug, PartialEq, Eq)]
pub enum ContentItem {
    InputText { text: String },
    OutputText { text: String },
    InputImage { image_url: String },
}

/// An item of a response.
#[derive(Debug, PartialEq, Eq)]
pub enum ResponseItem {
    Message {
        id: Option<String>,
        role: String,
        content: Vec<ContentItem>,
        phase: Option<MessagePhase>,
    },
    FunctionCall {
        id: Option<String>,
        name: String,
        namespace: Option<String>,
        arguments: String,
        call_id: String,
    },
    CustomToolCall {
        id: Option<String>,
        status: Option<String>,
        call_id: String,
        name: String,
        input: String,
    },
    /// Any other kind of item.
    Other,
}

/// An event of a response stream.
#[derive(Debug, PartialEq, Eq)]
pub enum ResponseEvent {
    Created,
    OutputItemAdded(ResponseItem),
    OutputTextDelta(String),
    OutputItemDone(ResponseItem),
    Completed { response_id: String, token_usage: Option<TokenUsage>, end_turn: Option<bool> },
    /// Any other kind of event.
    Other,
}

/// Why a stream failed.
#[derive(Debug, PartialEq, Eq)]
pub enum ApiError {
    Stream(String),
}

/// A content item as a mathematical value.
pub enum ContentView {
    InputText { text: Seq<char> },
    OutputText { text: Seq<char> },
    InputImage { image_url: Seq<char> },
}

/// A response item as a mathematical value.
pub enum ItemView {
    Message {
        id: Option<Seq<char>>,
        role: Seq<char>,
        content: Seq<ContentView>,
        phase: Option<MessagePhase>,
    },
    FunctionCall {
        id: Option<Seq<char>>,
        name: Seq<char>,
        namespace: Option<Seq<char>>,
        arguments: Seq<char>,
        call_id: Seq<char>,
    },
    CustomToolCall {
        id: Option<Seq<char>>,
        status: Option<Seq<char>>,
        call_id: Seq<char>,
        name: Seq<char>,
        input: Seq<char>,
    },
    Other,
}

/// A response event as a mathematical value.
pub enum EventView {
    Created,
    OutputItemAdded(ItemView),
    OutputTextDelta(Seq<char>),
    OutputItemDone(ItemView),
    Completed { response_id: Seq<char>, token_usage: Option<TokenUsage>, end_turn: Option<bool> },
    Other,
}

impl DeepView for ContentItem {
    type V = ContentView;

    open spec fn deep_view(&self) -> ContentView {
        match self {
            ContentItem::InputText { text } => ContentView::InputText { text: text@ },
            ContentItem::OutputText { text } => ContentView::OutputText { text: text@ },
            ContentItem::InputImage { image_url } => ContentView::InputImage {
                image_url: image_url@,
            },
        }
    }
}

impl DeepView for ResponseItem {
    type V = ItemView;

    open spec fn deep_view(&self) -> ItemView {
        match self {
            ResponseItem::Message { id, role, content, phase } => ItemView::Message {
                id: id.deep_view(),
                role: role@,
                content: content.deep_view(),
                phase: *phase,
            },
            ResponseItem::FunctionCall { id, name, namespace, arguments, call_id } =>
                ItemView::FunctionCall {
                id: id.deep_view(),
                name: name@,
                namespace: namespace.deep_view(),
                arguments: arguments@,
                call_id: call_id@,
            },
            ResponseItem::CustomToolCall { id, status, call_id, name, input } =>
                ItemView::CustomToolCall {
                id: id.deep_view(),
                status: status.deep_view(),
                call_id: call_id@,
                name: name@,
                input: input@,
            },
            ResponseItem::Other => ItemView::Other,
        }
    }
}

impl DeepView for ResponseEvent {
    type V = EventView;

    open spec fn deep_view(&self) -> EventView {
        match self {
            ResponseEvent::Created => EventView::Created,
            ResponseEvent::OutputItemAdded(item) => EventView::OutputItemAdded(item.deep_view()),
            ResponseEvent::OutputTextDelta(text) => EventView::OutputTextDelta(text@),
            ResponseEvent::OutputItemDone(item) => EventView::OutputItemDone(item.deep_view()),
            ResponseEvent::Completed { response_id, token_usage, end_turn } =>
                EventView::Completed {
                response_id: response_id@,
                token_usage: *token_usage,
                end_turn: *end_turn,
            },
            ResponseEvent::Other => EventView::Other,
        }
    }
}

impl View for ApiError {
    type V = Seq<char>;

    /// The text of the error.
    open spec fn view(&self) -> Seq<char> {
        match self {
            ApiError::Stream(text) => text@,
        }
    }
}

impl Clone for ContentItem {
    fn clone(&self) -> (r: Self)
        ensures
            r == *self,
    {
        match self {
            ContentItem::InputText { text } => ContentItem::InputText { text: text.clone() },
            ContentItem::OutputText { text } => ContentItem::OutputText { text: text.clone() },
            ContentItem::InputImage { image_url } => ContentItem::InputImage {
                image_url: image_url.clone(),
            },
        }
    }
}

impl Clone for ResponseItem {
    fn clone(&self) -> (r: Self)
        ensures
            r.deep_view() == self.deep_view(),
    {
        match self {
            ResponseItem::Message { id, role, content, phase } => {
                let copy = content.clone();
                proof {
                    assert(copy.deep_view() =~= content.deep_view());
                }
                ResponseItem::Message {
                    id: id.clone(),
                    role: role.clone(),
                    content: copy,
                    phase: *phase,
                }
            },
            ResponseItem::FunctionCall { id, name, namespace, arguments, call_id } =>
                ResponseItem::FunctionCall {
                id: id.clone(),
                name: name.clone(),
                namespace: namespace.clone(),
                arguments: arguments.clone(),
                call_id: call_id.clone(),
            },
            ResponseItem::CustomToolCall { id, status, call_id, name, input } =>
                ResponseItem::CustomToolCall {
                id: id.clone(),
                status: status.clone(),
                call_id: call_id.clone(),
                name: name.clone(),
                input: input.clone(),
            },
            ResponseItem::Other => ResponseItem::Other,
        }
    }
}

/// A content item is shown as it stands.
pub proof fn law_content_is_shown(content: ContentItem)
    ensures
        match content {
            ContentItem::InputText { text } => content.deep_view() == (ContentView::InputText {
                text: text@,
            }),
            ContentItem::OutputText { text } => content.deep_view() == (ContentView::OutputText {
                text: text@,
            }),
            ContentItem::InputImage { image_url } => content.deep_view() == (
            ContentView::InputImage { image_url: image_url@ }),
        },
{
}

/// An item is shown as it stands, field by field and character for character.
pub proof fn law_item_is_shown(item: ResponseItem)
    ensures
        match item {
            ResponseItem::Message { id, role, content, phase } => item.deep_view() matches ItemView::Message {
                id: shown_id,
                role: shown_role,
                content: shown_content,
                phase: shown_phase,
            } && {
                &&& crate::chunk::shows_text(id, shown_id)
                &&& shown_role == role@
                &&& shown_phase == phase
                &&& shown_content.len() == content@.len()
                &&& forall|i: int|
                    0 <= i < shown_content.len() ==> #[trigger] shown_content[i]
                        == content@[i].deep_view()
            },
            ResponseItem::FunctionCall { id, name, namespace, arguments, call_id } => item.deep_view() matches ItemView::FunctionCall {
                id: shown_id,
                name: shown_name,
                namespace: shown_namespace,
                arguments: shown_arguments,
                call_id: shown_call_id,
            } && {
                &&& crate::chunk::shows_text(id, shown_id)
                &&& shown_name == name@
                &&& crate::chunk::shows_text(namespace, shown_namespace)
                &&& shown_arguments == arguments@
                &&& shown_call_id == call_id@
            },
            ResponseItem::CustomToolCall { id, status, call_id, name, input } => item.deep_view() matches ItemView::CustomToolCall {
                id: shown_id,
                status: shown_status,
                call_id: shown_call_id,
                name: shown_name,
                input: shown_input,
            } && {
                &&& crate::chunk::shows_text(id, shown_id)
                &&& crate::chunk::shows_text(status, shown_status)
                &&& shown_call_id == call_id@
                &&& shown_name == name@
                &&& shown_input == input@
            },
            ResponseItem::Other => item.deep_view() is Other,
        },
{
}

/// An event is shown as it stands.
pub proof fn law_event_is_shown(event: ResponseEvent)
    ensures
        match event {
            ResponseEvent::Created => event.deep_view() is Created,
            ResponseEvent::OutputItemAdded(item) => event.deep_view()
                == EventView::OutputItemAdded(item.deep_view()),
            ResponseEvent::OutputTextDelta(text) => event.deep_view()
                == EventView::OutputTextDelta(text@),
            ResponseEvent::OutputItemDone(item) => event.deep_view()
                == EventView::OutputItemDone(item.deep_view()),
            ResponseEvent::Completed { response_id, token_usage, end_turn } => event.deep_view()
                == (EventView::Completed { response_id: response_id@, token_usage, end_turn }),
            ResponseEvent::Other => event.deep_view() is Other,
        },
{
}

/// An error is shown as its text.
pub proof fn law_error_is_shown(error: ApiError)
    ensures
        error matches ApiError::Stream(text) && error@ == text@,
{
}

} // verus!
