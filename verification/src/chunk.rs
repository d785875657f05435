//! The payload of one chat-completions chunk.
use vstd::prelude::*;

verus! {

/// One chunk of a chat-completions stream.
#[derive(Debug, PartialEq, Eq)]
pub struct ChatChunk {
    pub id: Option<String>,
    pub choices: Option<Vec<ChatChoice>>,
}

/// One of the alternatives that a chunk continues.
#[derive(Debug, PartialEq, Eq)]
pub struct ChatChoice {
    pub delta: Option<ChatDelta>,
    pub finish_reason: Option<String>,
}

/// What a chunk adds to an alternative.
#[derive(Debug, PartialEq, Eq)]
pub struct ChatDelta {
    pub content: Option<String>,
    pub tool_calls: Option<Vec<ToolCallDelta>>,
}

/// A fragment of a tool call.
#[derive(Debug, PartialEq, Eq)]
pub struct ToolCallDelta {
    pub index: Option<usize>,
    pub id: Option<String>,
    pub function: Option<FunctionDelta>,
}

/// The function part of a tool-call fragment.
#[derive(Debug, PartialEq, Eq)]
pub struct FunctionDelta {
    pub name: Option<String>,
    pub arguments: Option<String>,
}

/// A chunk as a mathematical value.
pub struct ChunkView {
    pub id: Option<Seq<char>>,
    pub choices: Option<Seq<ChoiceView>>,
}

/// A choice as a mathematical value.
pub struct ChoiceView {
    pub delta: Option<DeltaView>,
    pub finish_reason: Option<Seq<char>>,
}

/// A delta as a mathematical value.
pub struct DeltaView {
    pub content: Option<Seq<char>>,
    pub tool_calls: Option<Seq<FragmentView>>,
}

/// A tool-call fragment as a mathematical value.
pub struct FragmentView {
    pub index: Option<usize>,
    pub id: Option<Seq<char>>,
    pub function: Option<FunctionView>,
}

/// The function part of a fragment as a mathematical value.
pub struct FunctionView {
    pub name: Option<Seq<char>>,
    pub arguments: Option<Seq<char>>,
}

impl DeepView for FunctionDelta {
    type V = FunctionView;

    open spec fn deep_view(&self) -> FunctionView {
        FunctionView { name: self.name.deep_view(), arguments: self.arguments.deep_view() }
    }
}

impl DeepView for ToolCallDelta {
    type V = FragmentView;

    open spec fn deep_view(&self) -> FragmentView {
        FragmentView {
            index: self.index,
            id: self.id.deep_view(),
            function: self.function.deep_view(),
        }
    }
}

impl DeepView for ChatDelta {
    type V = DeltaView;

    open spec fn deep_view(&self) -> DeltaView {
        DeltaView { content: self.content.deep_view(), tool_calls: self.tool_calls.deep_view() }
    }
}

impl DeepView for ChatChoice {
    type V = ChoiceView;

    open spec fn deep_view(&self) -> ChoiceView {
        ChoiceView {
            delta: self.delta.deep_view(),
            finish_reason: self.finish_reason.deep_view(),
        }
    }
}

impl DeepView for ChatChunk {
    type V = ChunkView;

    open spec fn deep_view(&self) -> ChunkView {
        ChunkView { id: self.id.deep_view(), choices: self.choices.deep_view() }
    }
}

impl FragmentView {
    /// The tool call that the fragment belongs to: the first one, where it does not say.
    pub open spec fn target(self) -> usize {
        match self.index {
            Some(index) => index,
            None => 0,
        }
    }

    /// What the fragment adds to the name of its tool call.
    pub open spec fn name_part(self) -> Seq<char> {
        match self.function {
            Some(FunctionView { name: Some(name), .. }) => name,
            _ => seq![],
        }
    }

    /// What the fragment adds to the arguments of its tool call.
    pub open spec fn arguments_part(self) -> Seq<char> {
        match self.function {
            Some(FunctionView { arguments: Some(arguments), .. }) => arguments,
            _ => seq![],
        }
    }
}

impl ChoiceView {
    /// The text that the choice adds: `None` where it adds none or an empty one.
    pub open spec fn text(self) -> Option<Seq<char>> {
        match self.delta {
            Some(DeltaView { content: Some(content), .. }) => if content.len() > 0 {
                Some(content)
            } else {
                None
            },
            _ => None,
        }
    }

    /// The tool-call fragments that the choice adds.
    pub open spec fn fragments(self) -> Seq<FragmentView> {
        match self.delta {
            Some(DeltaView { tool_calls: Some(tool_calls), .. }) => tool_calls,
            _ => seq![],
        }
    }

    /// The reason for which the choice is finished: `None` where it gives none or an empty one.
    pub open spec fn reason(self) -> Option<Seq<char>> {
        match self.finish_reason {
            Some(reason) => if reason.len() > 0 {
                Some(reason)
            } else {
                None
            },
            None => None,
        }
    }
}

/// Whether `shown` is an optional text as it stands.
pub open spec fn shows_text(text: Option<String>, shown: Option<Seq<char>>) -> bool {
    match text {
        Some(text) => shown == Some(text@),
        None => shown is None,
    }
}

/// A fragment is shown as it stands, character for character.
pub proof fn law_fragment_is_shown(fragment: ToolCallDelta)
    ensures
        fragment.deep_view().index == fragment.index,
        shows_text(fragment.id, fragment.deep_view().id),
        match fragment.function {
            Some(function) => fragment.deep_view().function matches Some(shown) && {
                &&& shows_text(function.name, shown.name)
                &&& shows_text(function.arguments, shown.arguments)
            },
            None => fragment.deep_view().function is None,
        },
{
}

/// A choice is shown as it stands: its reason and its text character for character, its fragments
/// each and in order.
pub proof fn law_choice_is_shown(choice: ChatChoice)
    ensures
        shows_text(choice.finish_reason, choice.deep_view().finish_reason),
        match choice.delta {
            Some(delta) => choice.deep_view().delta matches Some(shown) && {
                &&& shows_text(delta.content, shown.content)
                &&& match delta.tool_calls {
                    Some(fragments) => shown.tool_calls matches Some(list) && {
                        &&& list.len() == fragments@.len()
                        &&& forall|i: int|
                            0 <= i < list.len() ==> #[trigger] list[i] == fragments@[i].deep_view()
                    },
                    None => shown.tool_calls is None,
                }
            },
            None => choice.deep_view().delta is None,
        },
{
}

/// A chunk is shown as it stands: its identifier character for character, its choices each and in
/// order.
pub proof fn law_chunk_is_shown(chunk: ChatChunk)
    ensures
        shows_text(chunk.id, chunk.deep_view().id),
        match chunk.choices {
            Some(choices) => chunk.deep_view().choices matches Some(list) && {
                &&& list.len() == choices@.len()
                &&& forall|i: int|
                    0 <= i < list.len() ==> #[trigger] list[i] == choices@[i].deep_view()
            },
            None => chunk.deep_view().choices is None,
        },
{
}

} // verus!
