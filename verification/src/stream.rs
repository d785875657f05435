//! The course of one response stream, as a conversation with whoever does the input and output.
//!
//! [`parse_chat_sse_stream`] begins it, and each [`ChatStream::drive_stream`] takes the reply to
//! the last action and gives the next one: send events on, read more bytes, parse a payload,
//! or come to an end.
use vstd::prelude::*;
use vstd::string::*;

use crate::chunk::ChatChunk;
use crate::chunk::ChunkView;
use crate::events::ApiError;
use crate::events::EventView;
use crate::events::ResponseEvent;
use crate::response::ChatState;
use crate::response::StateView;
use crate::sse::ends_stream;
use crate::sse::LinesView;
use crate::sse::SseLines;
use crate::text::text_from_utf8;
use crate::tool_map::ToolReverseMap;
use crate::tool_map::ToolView;

verus! {

/// What is to be done next.
#[derive(Debug, PartialEq, Eq)]
pub enum Action {
    /// Send the events on, in order. Reply `Sent`, or `Closed` as soon as one cannot be sent.
    Send(Vec<ResponseEvent>),
    /// Read the next bytes. Reply `Bytes`, `ReadError` or `End`.
    Read,
    /// Parse the payload of a chunk. Reply `Parsed`.
    Parse(String),
    /// Send the events on, in order and as far as they can be sent. The stream is over.
    Finish(Vec<ResponseEvent>),
    /// Send the error on. The stream is over.
    Fail(ApiError),
    /// Nothing more. The stream is over.
    Stop,
}

/// What came of an action.
#[derive(Debug, PartialEq, Eq)]
pub enum Reply {
    /// The events were sent.
    Sent,
    /// Nobody takes events any more.
    Closed,
    /// More bytes.
    Bytes(Vec<u8>),
    /// The bytes broke off with an error that displays as this text.
    ReadError(String),
    /// There are no more bytes.
    End,
    /// The chunk that the payload holds; `None` where it holds none.
    Parsed(Option<ChatChunk>),
}

/// What a stream waits for.
#[derive(Clone, Copy, Debug, PartialEq, Eq, Structural)]
pub enum Phase {
    /// For the first event to be sent.
    Announcing,
    /// For bytes.
    Reading,
    /// For a chunk; the last one, where there are no more bytes.
    Parsing { last: bool },
    /// For the events of a chunk to be sent.
    Sending { last: bool },
    /// For nothing.
    Ended,
}

/// An action as a mathematical value.
pub enum ActionView {
    Send(Seq<EventView>),
    Read,
    Parse(Seq<char>),
    Finish(Seq<EventView>),
    Fail(Seq<char>),
    Stop,
}

/// A reply as a mathematical value.
pub enum ReplyView {
    Sent,
    Closed,
    Bytes(Seq<u8>),
    ReadError(Seq<char>),
    End,
    Parsed(Option<ChunkView>),
}

impl View for Action {
    type V = ActionView;

    open spec fn view(&self) -> ActionView {
        match self {
            Action::Send(events) => ActionView::Send(events.deep_view()),
            Action::Read => ActionView::Read,
            Action::Parse(payload) => ActionView::Parse(payload@),
            Action::Finish(events) => ActionView::Finish(events.deep_view()),
            Action::Fail(error) => ActionView::Fail(error@),
            Action::Stop => ActionView::Stop,
        }
    }
}

impl View for Reply {
    type V = ReplyView;

    open spec fn view(&self) -> ReplyView {
        match self {
            Reply::Sent => ReplyView::Sent,
            Reply::Closed => ReplyView::Closed,
            Reply::Bytes(bytes) => ReplyView::Bytes(bytes@),
            Reply::ReadError(text) => ReplyView::ReadError(text@),
            Reply::End => ReplyView::End,
            Reply::Parsed(chunk) => ReplyView::Parsed(chunk.deep_view()),
        }
    }
}

/// The identifiers that one step may give out.
pub struct FreshIds {
    /// For the message item.
    pub text: Seq<char>,
    /// For the items of the tool calls.
    pub items: Seq<Seq<char>>,
    /// For the response.
    pub response: Seq<char>,
}

/// A stream as a mathematical value.
pub struct StreamView {
    pub phase: Phase,
    /// The text that is not dispatched.
    pub lines: LinesView,
    /// The payloads that are dispatched and not parsed.
    pub queue: Seq<Seq<char>>,
    pub state: StateView,
    pub tools: Map<Seq<char>, ToolView>,
}

/// A stream with the action that it comes to.
pub struct Turn {
    pub stream: StreamView,
    pub action: ActionView,
}

impl StreamView {
    /// A stream before anything was read.
    pub open spec fn begun(tools: Map<Seq<char>, ToolView>) -> StreamView {
        StreamView {
            phase: Phase::Announcing,
            lines: LinesView { line: seq![], data: seq![] },
            queue: seq![],
            state: StateView::initial(),
            tools,
        }
    }

    /// Whether `reply` answers what the stream waits for.
    pub open spec fn accepts(self, reply: ReplyView) -> bool {
        match self.phase {
            Phase::Announcing | Phase::Sending { .. } => reply is Sent || reply is Closed,
            Phase::Reading => reply is Bytes || reply is ReadError || reply is End,
            Phase::Parsing { .. } => reply is Parsed,
            Phase::Ended => false,
        }
    }

    /// The stream waits for `phase`, after `action`.
    pub open spec fn turning(self, phase: Phase, action: ActionView) -> Turn {
        Turn { stream: StreamView { phase, ..self }, action }
    }

    /// The response is closed.
    pub open spec fn finishing(self, ids: FreshIds) -> Turn {
        self.turning(
            Phase::Ended,
            ActionView::Finish(self.state.closing(self.tools, ids.items, ids.response)),
        )
    }

    /// There are no more bytes: what is gathered is still parsed, unless it is the end marker.
    pub open spec fn draining(self, ids: FreshIds) -> Turn {
        let data = self.lines.data;
        let drained = StreamView { lines: LinesView { data: seq![], ..self.lines }, ..self };
        if data.len() > 0 && !crate::sse::is_end_marker(data) {
            drained.turning(Phase::Parsing { last: true }, ActionView::Parse(data))
        } else {
            drained.finishing(ids)
        }
    }

    /// The next payload is parsed. Where none waits, the response is closed if a reason for its
    /// end was given and nothing is left over, and more bytes are read otherwise.
    pub open spec fn advancing(self, ids: FreshIds) -> Turn {
        if self.queue.len() > 0 {
            let rest = StreamView { queue: self.queue.drop_first(), ..self };
            rest.turning(Phase::Parsing { last: false }, ActionView::Parse(self.queue.first()))
        } else if self.state.finish_reason is Some && self.lines.data.len() == 0
            && self.lines.line.len() == 0 {
            self.finishing(ids)
        } else {
            self.turning(Phase::Reading, ActionView::Read)
        }
    }

    /// Bytes came in: their text is gone through, and an error ends the stream where they have
    /// none.
    pub open spec fn receiving(self, bytes: Seq<u8>, ids: FreshIds) -> Turn {
        if vstd::utf8::valid_utf8(bytes) {
            let s = crate::sse::scan(
                self.lines.line + vstd::utf8::decode_utf8(bytes),
                self.lines.data,
            );
            let fed = StreamView {
                lines: LinesView { line: s.line, data: s.data },
                queue: s.payloads,
                ..self
            };
            fed.advancing(ids)
        } else {
            self.turning(
                Phase::Ended,
                ActionView::Fail("UTF-8 error: "@ + crate::text::utf8_error_text(bytes)),
            )
        }
    }

    /// A payload was parsed: its events are sent.
    pub open spec fn absorbing(self, parsed: Option<ChunkView>, last: bool, ids: FreshIds) -> Turn {
        let p = self.state.with_payload(parsed, ids.text);
        let after = StreamView { state: p.state, ..self };
        after.turning(Phase::Sending { last }, ActionView::Send(p.events))
    }

    /// What comes of a reply.
    pub open spec fn step(self, reply: ReplyView, ids: FreshIds) -> Turn {
        match (self.phase, reply) {
            (Phase::Announcing, ReplyView::Sent) => self.turning(Phase::Reading, ActionView::Read),
            (Phase::Reading, ReplyView::Bytes(bytes)) => self.receiving(bytes, ids),
            (Phase::Reading, ReplyView::ReadError(text)) => self.turning(
                Phase::Ended,
                ActionView::Fail("byte stream error: "@ + text),
            ),
            (Phase::Reading, ReplyView::End) => self.draining(ids),
            (Phase::Parsing { last }, ReplyView::Parsed(parsed)) => self.absorbing(
                parsed,
                last,
                ids,
            ),
            (Phase::Sending { last }, ReplyView::Sent) => if last {
                self.finishing(ids)
            } else {
                self.advancing(ids)
            },
            _ => self.turning(Phase::Ended, ActionView::Stop),
        }
    }

    /// Whether the identifiers that a step gives out are fresh ones.
    pub open spec fn fresh_for(self, reply: ReplyView, ids: FreshIds) -> bool {
        &&& reply matches ReplyView::Parsed(parsed) ==> self.state.begins_text(parsed)
            ==> crate::ids::is_random_uuid(ids.text)
        &&& self.step(reply, ids).action is Finish ==> self.state.fresh_for_closing(
            ids.items,
            ids.response,
        )
    }
}

/// One response stream.
#[derive(Debug)]
pub struct ChatStream {
    phase: Phase,
    lines: SseLines,
    queue: Vec<String>,
    state: ChatState,
    tools: ToolReverseMap,
}

impl View for ChatStream {
    type V = StreamView;

    closed spec fn view(&self) -> StreamView {
        StreamView {
            phase: self.phase,
            lines: self.lines@,
            queue: self.queue.deep_view(),
            state: self.state@,
            tools: self.tools@,
        }
    }
}

/// Begins a stream over the tools that the request offered. The first action announces the
/// response.
pub fn parse_chat_sse_stream(tool_map: ToolReverseMap) -> (r: (ChatStream, Action))
    ensures
        r.0.wf(),
        r.0@ == StreamView::begun(tool_map@),
        r.1@ == ActionView::Send(seq![EventView::Created]),
{
    let stream = ChatStream {
        phase: Phase::Announcing,
        lines: SseLines::new(),
        queue: Vec::new(),
        state: ChatState::new(),
        tools: tool_map,
    };
    let mut events: Vec<ResponseEvent> = Vec::new();
    events.push(ResponseEvent::Created);
    proof {
        assert(stream.queue.deep_view() =~= seq![]);
        assert(events.deep_view() =~= seq![EventView::Created]);
    }
    (stream, Action::Send(events))
}

impl ChatStream {
    /// What the methods rely on and keep.
    pub closed spec fn wf(self) -> bool {
        self.state.wf()
    }

    /// Whether `reply` answers what the stream waits for.
    pub fn accepts(&self, reply: &Reply) -> (b: bool)
        ensures
            b == self@.accepts(reply@),
    {
        match self.phase {
            Phase::Announcing | Phase::Sending { .. } => match reply {
                Reply::Sent | Reply::Closed => true,
                _ => false,
            },
            Phase::Reading => match reply {
                Reply::Bytes(_) | Reply::ReadError(_) | Reply::End => true,
                _ => false,
            },
            Phase::Parsing { .. } => match reply {
                Reply::Parsed(_) => true,
                _ => false,
            },
            Phase::Ended => false,
        }
    }

    /// Closes the response, under fresh identifiers.
    fn finishing(&mut self) -> (action: Action)
        requires
            old(self).wf(),
        ensures
            final(self).wf(),
            exists|ids: FreshIds|
                {
                    &&& (Turn { stream: final(self)@, action: action@ })
                        == #[trigger] old(self)@.finishing(ids)
                    &&& old(self)@.state.fresh_for_closing(ids.items, ids.response)
                },
    {
        let ghost before = self@;
        self.phase = Phase::Ended;
        let events = self.state.finish(&self.tools);
        proof {
            let (items, response) = choose|items: Seq<Seq<char>>, response: Seq<char>|
                {
                    &&& events.deep_view() == #[trigger] self.state@.closing(
                        self.tools@,
                        items,
                        response,
                    )
                    &&& self.state@.fresh_for_closing(items, response)
                };
            let ids = FreshIds { text: seq![], items, response };
            assert((Turn {
                stream: self@,
                action: ActionView::Finish(events.deep_view()),
            }) == before.finishing(ids));
        }
        Action::Finish(events)
    }

    /// Goes on where there are no more bytes.
    fn draining(&mut self) -> (action: Action)
        requires
            old(self).wf(),
        ensures
            final(self).wf(),
            exists|ids: FreshIds|
                {
                    &&& (Turn { stream: final(self)@, action: action@ })
                        == #[trigger] old(self)@.draining(ids)
                    &&& action@ is Finish ==> old(self)@.state.fresh_for_closing(
                        ids.items,
                        ids.response,
                    )
                },
    {
        let ghost before = self@;
        let ghost any = FreshIds { text: seq![], items: seq![], response: seq![] };
        let data = self.lines.data.clone();
        self.lines.data = String::new();
        proof {
            assert(self.lines.data@ =~= seq![]);
        }
        if !data.as_str().is_empty() && !ends_stream(data.as_str()) {
            self.phase = Phase::Parsing { last: true };
            proof {
                assert((Turn { stream: self@, action: ActionView::Parse(data@) })
                    == before.draining(any));
            }
            Action::Parse(data)
        } else {
            let ghost drained = self@;
            let action = self.finishing();
            proof {
                let ids = choose|ids: FreshIds|
                    {
                        &&& (Turn { stream: self@, action: action@ }) == #[trigger] drained.finishing(
                            ids,
                        )
                        &&& drained.state.fresh_for_closing(ids.items, ids.response)
                    };
                assert(drained.finishing(ids) == before.draining(ids));
            }
            action
        }
    }

    /// Goes on to the next payload, to more bytes, or to the end.
    fn advancing(&mut self) -> (action: Action)
        requires
            old(self).wf(),
        ensures
            final(self).wf(),
            exists|ids: FreshIds|
                {
                    &&& (Turn { stream: final(self)@, action: action@ })
                        == #[trigger] old(self)@.advancing(ids)
                    &&& action@ is Finish ==> old(self)@.state.fresh_for_closing(
                        ids.items,
                        ids.response,
                    )
                },
    {
        let ghost before = self@;
        let ghost any = FreshIds { text: seq![], items: seq![], response: seq![] };
        if self.queue.len() > 0 {
            let payload = self.queue.remove(0);
            self.phase = Phase::Parsing { last: false };
            proof {
                assert(self.queue.deep_view() =~= before.queue.drop_first());
                assert((Turn { stream: self@, action: ActionView::Parse(payload@) })
                    == before.advancing(any));
            }
            Action::Parse(payload)
        } else if self.state.is_finished() && self.lines.data.as_str().is_empty()
            && self.lines.line.as_str().is_empty() {
            let action = self.finishing();
            proof {
                let ids = choose|ids: FreshIds|
                    {
                        &&& (Turn { stream: self@, action: action@ }) == #[trigger] before.finishing(
                            ids,
                        )
                        &&& before.state.fresh_for_closing(ids.items, ids.response)
                    };
                assert(before.finishing(ids) == before.advancing(ids));
            }
            action
        } else {
            self.phase = Phase::Reading;
            proof {
                assert((Turn { stream: self@, action: ActionView::Read }) == before.advancing(any));
            }
            Action::Read
        }
    }

    /// Goes through the text of more bytes.
    fn receiving(&mut self, bytes: &[u8]) -> (action: Action)
        requires
            old(self).wf(),
        ensures
            final(self).wf(),
            exists|ids: FreshIds|
                {
                    &&& (Turn { stream: final(self)@, action: action@ })
                        == #[trigger] old(self)@.receiving(bytes@, ids)
                    &&& action@ is Finish ==> old(self)@.state.fresh_for_closing(
                        ids.items,
                        ids.response,
                    )
                },
    {
        let ghost before = self@;
        let ghost any = FreshIds { text: seq![], items: seq![], response: seq![] };
        match text_from_utf8(bytes) {
            Ok(text) => {
                let (payloads, _done) = self.lines.feed(text.as_str());
                self.queue = payloads;
                let ghost fed = self@;
                let action = self.advancing();
                proof {
                    let ids = choose|ids: FreshIds|
                        {
                            &&& (Turn { stream: self@, action: action@ })
                                == #[trigger] fed.advancing(ids)
                            &&& action@ is Finish ==> fed.state.fresh_for_closing(
                                ids.items,
                                ids.response,
                            )
                        };
                    assert(fed.advancing(ids) == before.receiving(bytes@, ids));
                }
                action
            },
            Err(why) => {
                self.phase = Phase::Ended;
                let mut text = "UTF-8 error: ".to_owned();
                text.append(why.as_str());
                proof {
                    assert((Turn { stream: self@, action: ActionView::Fail(text@) })
                        == before.receiving(bytes@, any));
                }
                Action::Fail(ApiError::Stream(text))
            },
        }
    }

    /// Takes in a payload as it was parsed.
    fn absorbing(&mut self, parsed: Option<ChatChunk>, last: bool) -> (action: Action)
        requires
            old(self).wf(),
        ensures
            final(self).wf(),
            exists|ids: FreshIds|
                {
                    &&& (Turn { stream: final(self)@, action: action@ })
                        == #[trigger] old(self)@.absorbing(parsed.deep_view(), last, ids)
                    &&& old(self)@.state.begins_text(parsed.deep_view())
                        ==> crate::ids::is_random_uuid(ids.text)
                },
    {
        let ghost before = self@;
        let ghost shown = parsed.deep_view();
        let events = self.state.process_chunk(parsed);
        self.phase = Phase::Sending { last };
        proof {
            let text = choose|text: Seq<char>|
                {
                    let p = #[trigger] before.state.with_payload(shown, text);
                    &&& before.state.begins_text(shown) ==> crate::ids::is_random_uuid(text)
                    &&& self.state@ == p.state
                    &&& events.deep_view() == p.events
                };
            let ids = FreshIds { text, items: seq![], response: seq![] };
            assert((Turn { stream: self@, action: ActionView::Send(events.deep_view()) })
                == before.absorbing(shown, last, ids));
        }
        Action::Send(events)
    }

    /// Takes the reply to the last action and gives the next one.
    pub fn drive_stream(&mut self, reply: Reply) -> (action: Action)
        requires
            old(self).wf(),
            old(self)@.accepts(reply@),
        ensures
            final(self).wf(),
            exists|ids: FreshIds|
                {
                    &&& (Turn { stream: final(self)@, action: action@ })
                        == #[trigger] old(self)@.step(reply@, ids)
                    &&& old(self)@.fresh_for(reply@, ids)
                },
    {
        let ghost before = self@;
        let ghost shown = reply@;
        let ghost any = FreshIds { text: seq![], items: seq![], response: seq![] };
        match reply {
            Reply::Sent => match self.phase {
                Phase::Announcing => {
                    self.phase = Phase::Reading;
                    proof {
                        assert((Turn { stream: self@, action: ActionView::Read }) == before.step(
                            shown,
                            any,
                        ));
                    }
                    Action::Read
                },
                Phase::Sending { last: true } => {
                    let action = self.finishing();
                    proof {
                        let ids = choose|ids: FreshIds|
                            {
                                &&& (Turn { stream: self@, action: action@ })
                                    == #[trigger] before.finishing(ids)
                                &&& before.state.fresh_for_closing(ids.items, ids.response)
                            };
                        assert(before.finishing(ids) == before.step(shown, ids));
                    }
                    action
                },
                _ => {
                    let action = self.advancing();
                    proof {
                        let ids = choose|ids: FreshIds|
                            {
                                &&& (Turn { stream: self@, action: action@ })
                                    == #[trigger] before.advancing(ids)
                                &&& action@ is Finish ==> before.state.fresh_for_closing(
                                    ids.items,
                                    ids.response,
                                )
                            };
                        assert(before.advancing(ids) == before.step(shown, ids));
                    }
                    action
                },
            },
            Reply::Closed => {
                self.phase = Phase::Ended;
                proof {
                    assert((Turn { stream: self@, action: ActionView::Stop }) == before.step(
                        shown,
                        any,
                    ));
                }
                Action::Stop
            },
            Reply::Bytes(bytes) => {
                let action = self.receiving(bytes.as_slice());
                proof {
                    let ids = choose|ids: FreshIds|
                        {
                            &&& (Turn { stream: self@, action: action@ })
                                == #[trigger] before.receiving(bytes@, ids)
                            &&& action@ is Finish ==> before.state.fresh_for_closing(
                                ids.items,
                                ids.response,
                            )
                        };
                    assert(before.receiving(bytes@, ids) == before.step(shown, ids));
                }
                action
            },
            Reply::ReadError(why) => {
                self.phase = Phase::Ended;
                let mut text = "byte stream error: ".to_owned();
                text.append(why.as_str());
                proof {
                    assert((Turn { stream: self@, action: ActionView::Fail(text@) })
                        == before.step(shown, any));
                }
                Action::Fail(ApiError::Stream(text))
            },
            Reply::End => {
                let action = self.draining();
                proof {
                    let ids = choose|ids: FreshIds|
                        {
                            &&& (Turn { stream: self@, action: action@ })
                                == #[trigger] before.draining(ids)
                            &&& action@ is Finish ==> before.state.fresh_for_closing(
                                ids.items,
                                ids.response,
                            )
                        };
                    assert(before.draining(ids) == before.step(shown, ids));
                }
                action
            },
            Reply::Parsed(parsed) => {
                let last: bool = match self.phase {
                    Phase::Parsing { last } => last,
                    _ => false,
                };
                let action = self.absorbing(parsed, last);
                proof {
                    let ids = choose|ids: FreshIds|
                        {
                            &&& (Turn { stream: self@, action: action@ })
                                == #[trigger] before.absorbing(parsed.deep_view(), last, ids)
                            &&& before.state.begins_text(parsed.deep_view())
                                ==> crate::ids::is_random_uuid(ids.text)
                        };
                    assert(before.absorbing(parsed.deep_view(), last, ids) == before.step(
                        shown,
                        ids,
                    ));
                }
                action
            },
        }
    }
}

} // verus!
