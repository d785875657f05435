//! The memory runtime: which provider the extraction uses, what one extraction response adds up
//! to, and how a consolidation agent is started and shut down.
use vstd::prelude::*;
use vstd::string::*;

use crate::events::EventView;
use crate::events::ItemView;
use crate::events::ResponseEvent;
use crate::events::ResponseItem;
use crate::events::TokenUsage;
use crate::name_map::NameMap;

verus! {

/// The configuration of memories.
#[derive(Debug)]
pub struct MemoriesConfig {
    /// The provider to extract memories with, in place of the session's own.
    pub extract_provider: Option<String>,
}

/// What the runtime reads of the configuration. `P` describes a model provider.
#[derive(Debug)]
pub struct Config<P> {
    pub memories: MemoriesConfig,
    /// The known providers by identifier.
    pub model_providers: NameMap<P>,
    /// The provider of the session.
    pub model_provider: P,
}

/// Why no provider could be resolved.
#[derive(Debug, PartialEq, Eq)]
pub enum ProviderError {
    /// `memories.extract_provider` names a provider that is not known.
    UnknownExtractProvider { provider_id: String },
}

impl ProviderError {
    /// The identifier that is not known.
    pub open spec fn id(self) -> Seq<char> {
        match self {
            ProviderError::UnknownExtractProvider { provider_id } => provider_id@,
        }
    }

    /// What the error displays as.
    pub fn message(&self) -> (text: String)
        ensures
            text@ == "unknown memories.extract_provider '"@ + self.id()
                + "' (not present in model_providers)"@,
    {
        match self {
            ProviderError::UnknownExtractProvider { provider_id } => {
                let mut text = "unknown memories.extract_provider '".to_owned();
                text.append(provider_id.as_str());
                text.append("' (not present in model_providers)");
                text
            },
        }
    }
}

/// Whether cloning gives back the very same value.
pub open spec fn clones_exactly<T: Clone>() -> bool {
    forall|value: T, copy: T| #[trigger] cloned(value, copy) ==> value == copy
}

/// Whether `r` is what a configuration resolves to: a clone of the provider that
/// `memories.extract_provider` names among the known ones, an error where it names no known one,
/// and a clone of the session's own where it names none.
pub open spec fn resolves_to<P: Clone>(config: Config<P>, r: Result<P, ProviderError>) -> bool {
    match config.memories.extract_provider {
        Some(id) => match r {
            Ok(provider) => config.model_providers@.contains_key(id@) && cloned(
                config.model_providers@[id@],
                provider,
            ),
            Err(error) => !config.model_providers@.contains_key(id@) && error.id() == id@,
        },
        None => r is Ok && cloned(config.model_provider, r->Ok_0),
    }
}

/// The provider to extract memories with: the one that `memories.extract_provider` names among
/// the known ones; the session's own where it names none.
pub fn resolve_extract_provider<P: Clone>(config: &Config<P>) -> (r: Result<P, ProviderError>)
    ensures
        resolves_to(*config, r),
{
    match &config.memories.extract_provider {
        Some(provider_id) => match config.model_providers.get(provider_id.as_str()) {
            Some(provider) => Ok(provider.clone()),
            None => Err(
                ProviderError::UnknownExtractProvider { provider_id: provider_id.clone() },
            ),
        },
        None => Ok(config.model_provider.clone()),
    }
}

/// A provider that `memories.extract_provider` names does not depend on the session's own: two
/// configurations that name the same one and know the same providers resolve to the same, whatever
/// their sessions use.
pub proof fn law_override_is_independent<P: Clone>(
    one: Config<P>,
    other: Config<P>,
    r: Result<P, ProviderError>,
    s: Result<P, ProviderError>,
)
    requires
        one.memories.extract_provider is Some,
        one.memories.extract_provider.deep_view() == other.memories.extract_provider.deep_view(),
        one.model_providers@ == other.model_providers@,
        resolves_to(one, r),
        resolves_to(other, s),
    ensures
        resolves_to(one, s),
        resolves_to(other, r),
        match (r, s) {
            (Ok(p), Ok(q)) => clones_exactly::<P>() ==> p == q,
            (Err(e), Err(f)) => e.id() == f.id(),
            _ => false,
        },
{
}

/// What an extraction response adds up to, as a mathematical value.
pub struct StageOneView {
    pub text: Seq<char>,
    pub token_usage: Option<TokenUsage>,
}

impl StageOneView {
    /// Before the first event.
    pub open spec fn initial() -> StageOneView {
        StageOneView { text: seq![], token_usage: None }
    }

    /// After one more event. Text comes in deltas; a finished message counts only while there is
    /// no text, with `message_text`, the text of its content. The completion brings the usage.
    pub open spec fn with_event(
        self,
        event: EventView,
        message_text: Option<Seq<char>>,
    ) -> StageOneView {
        match event {
            EventView::OutputTextDelta(delta) => StageOneView { text: self.text + delta, ..self },
            EventView::OutputItemDone(ItemView::Message { .. }) => match message_text {
                Some(text) => if self.text.len() == 0 {
                    StageOneView { text, ..self }
                } else {
                    self
                },
                None => self,
            },
            EventView::Completed { token_usage, .. } => StageOneView { token_usage, ..self },
            _ => self,
        }
    }
}

/// What comes next from the stream of an extraction response. `E` is an error of the stream.
#[derive(Debug, PartialEq, Eq)]
pub enum StageOneItem<E> {
    /// An event, with the text of its content where it finishes a message.
    Event { event: ResponseEvent, message_text: Option<String> },
    /// The stream broke off.
    Error(E),
    /// There is nothing more.
    End,
}

/// How an extraction goes on.
#[derive(Debug, PartialEq, Eq)]
pub enum StageOneStep<E> {
    /// With the next item.
    Continue,
    /// Not at all: this is what the response added up to.
    Done { text: String, token_usage: Option<TokenUsage> },
    /// Not at all: it failed.
    Failed(E),
}

/// An event, with the text of its content where it finishes a message.
pub struct StageOneEvent {
    pub event: EventView,
    pub message_text: Option<Seq<char>>,
}

/// What comes next from the stream, as a mathematical value.
pub enum StageOneItemView<E> {
    Event(StageOneEvent),
    Error(E),
    End,
}

/// How an extraction goes on, as a mathematical value.
pub enum StageOneStepView<E> {
    Continue,
    Done(StageOneView),
    Failed(E),
}

impl<E> View for StageOneItem<E> {
    type V = StageOneItemView<E>;

    open spec fn view(&self) -> StageOneItemView<E> {
        match *self {
            StageOneItem::Event { event, message_text } => StageOneItemView::Event(
                StageOneEvent {
                    event: event.deep_view(),
                    message_text: message_text.deep_view(),
                },
            ),
            StageOneItem::Error(error) => StageOneItemView::Error(error),
            StageOneItem::End => StageOneItemView::End,
        }
    }
}

impl<E> View for StageOneStep<E> {
    type V = StageOneStepView<E>;

    open spec fn view(&self) -> StageOneStepView<E> {
        match *self {
            StageOneStep::Continue => StageOneStepView::Continue,
            StageOneStep::Done { text, token_usage } => StageOneStepView::Done(
                StageOneView { text: text@, token_usage },
            ),
            StageOneStep::Failed(error) => StageOneStepView::Failed(error),
        }
    }
}

/// Where an extraction has come to.
pub struct Extraction<E> {
    pub output: StageOneView,
    pub step: StageOneStepView<E>,
}

impl StageOneView {
    /// After one more item. The completion and the end of the stream end the extraction with what
    /// was gathered, an error ends it with that error.
    pub open spec fn advanced<E>(self, item: StageOneItemView<E>) -> Extraction<E> {
        match item {
            StageOneItemView::Event(e) => {
                let output = self.with_event(e.event, e.message_text);
                Extraction {
                    output,
                    step: if e.event is Completed {
                        StageOneStepView::Done(output)
                    } else {
                        StageOneStepView::Continue
                    },
                }
            },
            StageOneItemView::Error(error) => Extraction {
                output: self,
                step: StageOneStepView::Failed(error),
            },
            StageOneItemView::End => Extraction {
                output: self,
                step: StageOneStepView::Done(self),
            },
        }
    }
}

/// The text and the token usage of one extraction response.
#[derive(Debug)]
pub struct StageOneOutput {
    text: String,
    token_usage: Option<TokenUsage>,
}

impl View for StageOneOutput {
    type V = StageOneView;

    closed spec fn view(&self) -> StageOneView {
        StageOneView { text: self.text@, token_usage: self.token_usage }
    }
}

impl StageOneOutput {
    /// Before the first event.
    pub fn new() -> (output: Self)
        ensures
            output@ == StageOneView::initial(),
    {
        StageOneOutput { text: String::new(), token_usage: None }
    }

    /// Takes in one event, with the text of its content where it finishes a message. The response
    /// is over once this returns `true`.
    pub fn take(&mut self, event: ResponseEvent, message_text: Option<String>) -> (over: bool)
        ensures
            final(self)@ == old(self)@.with_event(event.deep_view(), message_text.deep_view()),
            over == (event is Completed),
    {
        match event {
            ResponseEvent::OutputTextDelta(delta) => {
                self.text.append(delta.as_str());
                false
            },
            ResponseEvent::OutputItemDone(item) => {
                if self.text.as_str().is_empty() {
                    if let ResponseItem::Message { .. } = item {
                        if let Some(text) = message_text {
                            self.text = text;
                        }
                    }
                }
                false
            },
            ResponseEvent::Completed { token_usage, .. } => {
                self.token_usage = token_usage;
                true
            },
            _ => false,
        }
    }

    /// Takes in what comes next from the stream. The completion and the end of the stream end the
    /// extraction with what was gathered, an error ends it with that error, and any other event
    /// lets it go on.
    pub fn advance<E>(&mut self, item: StageOneItem<E>) -> (step: StageOneStep<E>)
        ensures
            (Extraction { output: final(self)@, step: step@ }) == old(self)@.advanced(item@),
    {
        match item {
            StageOneItem::Event { event, message_text } => if self.take(event, message_text) {
                StageOneStep::Done { text: self.text.clone(), token_usage: self.token_usage }
            } else {
                StageOneStep::Continue
            },
            StageOneItem::Error(error) => StageOneStep::Failed(error),
            StageOneItem::End => StageOneStep::Done {
                text: self.text.clone(),
                token_usage: self.token_usage,
            },
        }
    }

    /// What the events added up to.
    pub fn finish(self) -> (r: (String, Option<TokenUsage>))
        ensures
            r.0@ == self@.text,
            r.1 == self@.token_usage,
    {
        (self.text, self.token_usage)
    }
}

/// Whether the completion is among the events.
pub open spec fn is_over(events: Seq<StageOneEvent>) -> bool {
    exists|i: int| 0 <= i < events.len() && (#[trigger] events[i]).event is Completed
}

/// What events add up to; nothing counts after the completion.
pub open spec fn collected(events: Seq<StageOneEvent>) -> StageOneView
    decreases events.len(),
{
    if events.len() == 0 {
        StageOneView::initial()
    } else if is_over(events.drop_last()) {
        collected(events.drop_last())
    } else {
        collected(events.drop_last()).with_event(events.last().event, events.last().message_text)
    }
}

/// The deltas up to the completion, put together.
pub open spec fn deltas(events: Seq<StageOneEvent>) -> Seq<char>
    decreases events.len(),
{
    if events.len() == 0 {
        seq![]
    } else if is_over(events.drop_last()) {
        deltas(events.drop_last())
    } else {
        match events.last().event {
            EventView::OutputTextDelta(delta) => deltas(events.drop_last()) + delta,
            _ => deltas(events.drop_last()),
        }
    }
}

/// The text that a finished message offers; an empty one offers none.
pub open spec fn offered(event: StageOneEvent) -> Option<Seq<char>> {
    match (event.event, event.message_text) {
        (EventView::OutputItemDone(ItemView::Message { .. }), Some(text)) => if text.len() > 0 {
            Some(text)
        } else {
            None
        },
        _ => None,
    }
}

/// The text that finished messages offer up to the completion: that of the first one that offers
/// any.
pub open spec fn first_offered(events: Seq<StageOneEvent>) -> Seq<char>
    decreases events.len(),
{
    if events.len() == 0 {
        seq![]
    } else if first_offered(events.drop_last()).len() > 0 || is_over(events.drop_last()) {
        first_offered(events.drop_last())
    } else {
        match offered(events.last()) {
            Some(text) => text,
            None => seq![],
        }
    }
}

/// Where deltas bring text before any finished message offers some, the text is that of the deltas,
/// and finished messages add nothing.
pub proof fn law_deltas_make_the_text(events: Seq<StageOneEvent>)
    requires
        forall|i: int|
            0 <= i < events.len() && offered(#[trigger] events[i]) is Some ==> deltas(
                events.take(i),
            ).len() > 0,
    ensures
        collected(events).text == deltas(events),
    decreases events.len(),
{
    if events.len() > 0 {
        let others = events.drop_last();
        assert forall|i: int|
            0 <= i < others.len() && offered(#[trigger] others[i]) is Some implies deltas(
            others.take(i),
        ).len() > 0 by {
            assert(others[i] == events[i]);
            assert(others.take(i) =~= events.take(i));
        }
        law_deltas_make_the_text(others);
        let last = events[events.len() - 1];
        assert(events.take(events.len() - 1) =~= others);
        if offered(last) is None {
            if let Some(text) = last.message_text {
                assert(text.len() == 0 ==> text =~= seq![]);
                assert(deltas(others).len() == 0 ==> deltas(others) =~= seq![]);
            }
        }
    }
}

/// Where no delta brings text, the text is that of the first finished message that offers some.
pub proof fn law_first_message_makes_the_text(events: Seq<StageOneEvent>)
    requires
        deltas(events).len() == 0,
    ensures
        collected(events).text == first_offered(events),
    decreases events.len(),
{
    if events.len() > 0 {
        let others = events.drop_last();
        assert(deltas(others).len() == 0);
        law_first_message_makes_the_text(others);
        let last = events.last();
        if let EventView::OutputTextDelta(delta) = last.event {
            if !is_over(others) {
                assert(collected(others).text + delta =~= collected(others).text);
            }
        }
        if let Some(text) = last.message_text {
            assert(text.len() == 0 ==> text =~= seq![]);
        }
        assert(first_offered(others).len() == 0 ==> first_offered(others) =~= seq![]);
    }
}

/// After the completion nothing counts.
pub proof fn law_nothing_counts_after_completion(
    events: Seq<StageOneEvent>,
    more: Seq<StageOneEvent>,
)
    requires
        is_over(events),
    ensures
        collected(events + more) == collected(events),
    decreases more.len(),
{
    if more.len() == 0 {
        assert(events + more =~= events);
    } else {
        law_nothing_counts_after_completion(events, more.drop_last());
        assert((events + more).drop_last() =~= events + more.drop_last());
        let i = choose|i: int| 0 <= i < events.len() && (#[trigger] events[i]).event is Completed;
        assert((events + more.drop_last())[i] == events[i]);
    }
}

/// The usage is that of the completion, and there is none before it.
pub proof fn law_usage_comes_with_completion(events: Seq<StageOneEvent>)
    ensures
        !is_over(events) ==> collected(events).token_usage is None,
        forall|i: int|
            0 <= i < events.len() && (#[trigger] events[i]).event is Completed && !is_over(
                events.take(i),
            ) ==> collected(events).token_usage == events[i].event->token_usage,
    decreases events.len(),
{
    if events.len() > 0 {
        let others = events.drop_last();
        law_usage_comes_with_completion(others);
        if is_over(others) {
            let k = choose|k: int| 0 <= k < others.len() && (#[trigger] others[k]).event is Completed;
            assert(events[k].event is Completed);
        } else if events.last().event is Completed {
            assert(events[events.len() - 1].event is Completed);
        }
        assert forall|i: int|
            0 <= i < events.len() && (#[trigger] events[i]).event is Completed && !is_over(
                events.take(i),
            ) implies collected(events).token_usage == events[i].event->token_usage by {
            assert(events.take(events.len() - 1) =~= others);
            if i < others.len() {
                assert(others[i] == events[i]);
                assert(others.take(i) =~= events.take(i));
            } else {
                assert(events.take(i) =~= others);
            }
        }
    }
}

/// The events among items, in order.
pub open spec fn events_in<E>(items: Seq<StageOneItemView<E>>) -> Seq<StageOneEvent>
    decreases items.len(),
{
    if items.len() == 0 {
        seq![]
    } else {
        match items.last() {
            StageOneItemView::Event(event) => events_in(items.drop_last()).push(event),
            _ => events_in(items.drop_last()),
        }
    }
}

/// Whether an item ends an extraction.
pub open spec fn ends_extraction<E>(item: StageOneItemView<E>) -> bool {
    match item {
        StageOneItemView::Event(e) => e.event is Completed,
        _ => true,
    }
}

/// Where an extraction comes to over items; nothing is taken after its end.
pub open spec fn extraction<E>(items: Seq<StageOneItemView<E>>) -> Extraction<E>
    decreases items.len(),
{
    if items.len() == 0 {
        Extraction { output: StageOneView::initial(), step: StageOneStepView::Continue }
    } else {
        let before = extraction(items.drop_last());
        if before.step is Continue {
            before.output.advanced(items.last())
        } else {
            before
        }
    }
}

/// An extraction goes on while nothing ends it, with what its events add up to.
pub proof fn law_extraction_goes_on<E>(items: Seq<StageOneItemView<E>>)
    requires
        forall|i: int| 0 <= i < items.len() ==> !ends_extraction(#[trigger] items[i]),
    ensures
        extraction(items) == (Extraction::<E> {
            output: collected(events_in(items)),
            step: StageOneStepView::Continue,
        }),
        !is_over(events_in(items)),
    decreases items.len(),
{
    if items.len() > 0 {
        let others = items.drop_last();
        assert forall|i: int| 0 <= i < others.len() implies !ends_extraction(
            #[trigger] others[i],
        ) by {
            assert(others[i] == items[i]);
        }
        law_extraction_goes_on(others);
        assert(items[items.len() - 1] == items.last());
        let events = events_in(items);
        assert(events.drop_last() =~= events_in(others));
        assert forall|i: int| 0 <= i < events.len() implies !((
        #[trigger] events[i]).event is Completed) by {
            if i < events.len() - 1 {
                assert(events[i] == events_in(others)[i]);
            }
        }
    }
}

/// The first item that ends an extraction decides: an error fails it with that very error, the
/// completion and the end of the stream leave it done with what the events up to there add up to.
/// Nothing after that item counts.
pub proof fn law_extraction_ends<E>(items: Seq<StageOneItemView<E>>, k: int)
    requires
        0 <= k < items.len(),
        ends_extraction(items[k]),
        forall|i: int| 0 <= i < k ==> !ends_extraction(#[trigger] items[i]),
    ensures
        extraction(items).step == match items[k] {
            StageOneItemView::Error(error) => StageOneStepView::Failed(error),
            _ => StageOneStepView::Done(collected(events_in(items.take(k + 1)))),
        },
    decreases items.len(),
{
    let others = items.drop_last();
    if k < items.len() - 1 {
        assert(others[k] == items[k]);
        assert forall|i: int| 0 <= i < k implies !ends_extraction(#[trigger] others[i]) by {
            assert(others[i] == items[i]);
        }
        law_extraction_ends(others, k);
        assert(others.take(k + 1) =~= items.take(k + 1));
    } else {
        assert forall|i: int| 0 <= i < others.len() implies !ends_extraction(
            #[trigger] others[i],
        ) by {
            assert(others[i] == items[i]);
        }
        law_extraction_goes_on(others);
        assert(items.take(k + 1) =~= items);
        assert(items.last() == items[k]);
        if items[k] is Event {
            assert(events_in(items).drop_last() =~= events_in(others));
        }
    }
}

/// How much a model reasons.
#[derive(Clone, Copy, Debug, PartialEq, Eq, Structural)]
pub enum ReasoningEffort {
    NoReasoning,
    Minimal,
    Low,
    Medium,
    High,
    XHigh,
}

/// How a model sums up its reasoning.
#[derive(Clone, Copy, Debug, PartialEq, Eq, Structural)]
pub enum ReasoningSummary {
    Auto,
    Concise,
    Detailed,
    NoSummary,
}

/// How a request is served.
#[derive(Clone, Copy, Debug, PartialEq, Eq, Structural)]
pub enum ServiceTier {
    Fast,
    Flex,
}

/// What an extraction request is made with. `M` describes the model, `T` is its telemetry.
#[derive(Debug)]
pub struct StageOneRequestContext<M, T> {
    pub model_info: M,
    pub session_telemetry: T,
    pub reasoning_effort: Option<ReasoningEffort>,
    pub reasoning_summary: ReasoningSummary,
    pub service_tier: Option<ServiceTier>,
    pub turn_metadata_header: Option<String>,
}

/// What an extraction request is made with: the effort that is asked for, the summary that is
/// configured or else the model's own, and the rest as it was found.
pub fn stage_one_request_context<M, T>(
    model_info: M,
    model_default_summary: ReasoningSummary,
    configured_summary: Option<ReasoningSummary>,
    session_telemetry: T,
    reasoning_effort: ReasoningEffort,
    service_tier: Option<ServiceTier>,
    turn_metadata_header: Option<String>,
) -> (context: StageOneRequestContext<M, T>)
    ensures
        context.model_info == model_info,
        context.session_telemetry == session_telemetry,
        context.reasoning_effort == Some(reasoning_effort),
        context.reasoning_summary == match configured_summary {
            Some(summary) => summary,
            None => model_default_summary,
        },
        context.service_tier == service_tier,
        context.turn_metadata_header == turn_metadata_header,
{
    StageOneRequestContext {
        model_info,
        session_telemetry,
        reasoning_effort: Some(reasoning_effort),
        reasoning_summary: configured_summary.unwrap_or(model_default_summary),
        service_tier,
        turn_metadata_header,
    }
}

/// What telemetry reads of the account. `A` is the mode of its authentication.
#[derive(Debug)]
pub struct AuthSnapshot<A> {
    pub auth_mode: A,
    pub account_id: Option<String>,
    pub account_email: Option<String>,
}

/// Whom and what telemetry is about.
#[derive(Debug)]
pub struct TelemetrySubject<A> {
    /// The model, also under the name by which it is shown.
    pub model: String,
    pub auth_mode: Option<A>,
    pub account_id: Option<String>,
    pub account_email: Option<String>,
}

/// Whom and what telemetry is about: the configured model, `unknown` where there is none, and the
/// account as far as one is signed in.
pub fn telemetry_subject<A>(model: Option<String>, auth: Option<AuthSnapshot<A>>) -> (subject:
    TelemetrySubject<A>)
    ensures
        subject.model@ == match model {
            Some(model) => model@,
            None => "unknown"@,
        },
        match auth {
            Some(auth) => {
                &&& subject.auth_mode == Some(auth.auth_mode)
                &&& subject.account_id == auth.account_id
                &&& subject.account_email == auth.account_email
            },
            None => subject.auth_mode is None && subject.account_id is None
                && subject.account_email is None,
        },
{
    let model = match model {
        Some(model) => model,
        None => "unknown".to_owned(),
    };
    match auth {
        Some(auth) => TelemetrySubject {
            model,
            auth_mode: Some(auth.auth_mode),
            account_id: auth.account_id,
            account_email: auth.account_email,
        },
        None => TelemetrySubject { model, auth_mode: None, account_id: None, account_email: None },
    }
}

/// What the client of an extraction is made with. `A` gives access to the account, `I` names the
/// thread, `P` describes the provider, `S` the source of the session, `V` a verbosity.
#[derive(Debug, PartialEq, Eq)]
pub struct ExtractionClientOptions<A, I, P, S, V> {
    pub auth: Option<A>,
    pub thread_id: I,
    pub installation_id: String,
    pub provider: P,
    pub session_source: S,
    pub verbosity: Option<V>,
    pub request_compression: bool,
    pub runtime_metrics: bool,
    pub beta_features_header: Option<String>,
    /// Whether its requests are traced.
    pub traces_inference: bool,
}

/// What the client of an extraction is made with: the account, the resolved provider and the
/// settings as they were found, no header for beta features, and no tracing.
pub fn extraction_client_options<A, I, P, S, V>(
    auth: A,
    thread_id: I,
    installation_id: String,
    provider: P,
    session_source: S,
    verbosity: Option<V>,
    request_compression: bool,
    runtime_metrics: bool,
) -> (options: ExtractionClientOptions<A, I, P, S, V>)
    ensures
        options.auth == Some(auth),
        options.thread_id == thread_id,
        options.installation_id == installation_id,
        options.provider == provider,
        options.session_source == session_source,
        options.verbosity == verbosity,
        options.request_compression == request_compression,
        options.runtime_metrics == runtime_metrics,
        options.beta_features_header is None,
        !options.traces_inference,
{
    ExtractionClientOptions {
        auth: Some(auth),
        thread_id,
        installation_id,
        provider,
        session_source,
        verbosity,
        request_compression,
        runtime_metrics,
        beta_features_header: None,
        traces_inference: false,
    }
}

/// Where a session that the program starts for itself comes from.
#[derive(Clone, Copy, Debug, PartialEq, Eq, Structural)]
pub enum InternalSource {
    MemoryConsolidation,
}

/// What the thread of a consolidation agent is started with. `C` is its configuration, `N` its
/// environments, `D` describes a dynamic tool, `W` a trace.
#[derive(Debug, PartialEq, Eq)]
pub struct ConsolidationThreadOptions<C, N, D, W> {
    pub config: C,
    /// Whether it goes on from an earlier history.
    pub resumes_history: bool,
    pub source: InternalSource,
    pub dynamic_tools: Vec<D>,
    pub persist_extended_history: bool,
    pub metrics_service_name: Option<String>,
    pub parent_trace: Option<W>,
    pub environments: N,
}

/// What the thread of a consolidation agent is started with: the given configuration and the
/// default environments of its working directory, a new history, and nothing beside.
pub fn consolidation_thread_options<C, N, D, W>(config: C, default_environments: N) -> (options:
    ConsolidationThreadOptions<C, N, D, W>)
    ensures
        options.config == config,
        !options.resumes_history,
        options.source == InternalSource::MemoryConsolidation,
        options.dynamic_tools@.len() == 0,
        !options.persist_extended_history,
        options.metrics_service_name is None,
        options.parent_trace is None,
        options.environments == default_environments,
{
    ConsolidationThreadOptions {
        config,
        resumes_history: false,
        source: InternalSource::MemoryConsolidation,
        dynamic_tools: Vec::new(),
        persist_extended_history: false,
        metrics_service_name: None,
        parent_trace: None,
        environments: default_environments,
    }
}

/// What is submitted to a consolidation agent. `I` is a part of the input, `N` its environments,
/// `S` a schema of the output, `M` metadata of the client.
#[derive(Debug, PartialEq, Eq)]
pub struct ConsolidationInput<I, N, S, M> {
    pub items: Vec<I>,
    pub environments: Option<N>,
    pub final_output_json_schema: Option<S>,
    pub responsesapi_client_metadata: Option<M>,
}

/// What is submitted to a consolidation agent: the prompt, and nothing beside.
pub fn consolidation_input<I, N, S, M>(prompt: Vec<I>) -> (input: ConsolidationInput<I, N, S, M>)
    ensures
        input.items == prompt,
        input.environments is None,
        input.final_output_json_schema is None,
        input.responsesapi_client_metadata is None,
{
    ConsolidationInput {
        items: prompt,
        environments: None,
        final_output_json_schema: None,
        responsesapi_client_metadata: None,
    }
}

/// The next thing to do when a consolidation agent is spawned. `A` is the agent, `E` an error of
/// the threads.
#[derive(Debug, PartialEq, Eq)]
pub enum SpawnStep<A, E> {
    /// Submit the prompt to the agent.
    Submit(A),
    /// Shut the agent down; then `error` is reported.
    ShutDown { agent: A, error: E },
    /// The agent runs.
    Running(A),
    /// Spawning failed.
    Failed(E),
}

/// After the thread was started, or was not.
pub open spec fn step_after_start<A, E>(started: Result<A, E>) -> SpawnStep<A, E> {
    match started {
        Ok(agent) => SpawnStep::Submit(agent),
        Err(error) => SpawnStep::Failed(error),
    }
}

/// After the prompt was submitted, or was not.
pub open spec fn step_after_submit<A, E>(agent: A, submitted: Result<(), E>) -> SpawnStep<A, E> {
    match submitted {
        Ok(_) => SpawnStep::Running(agent),
        Err(error) => SpawnStep::ShutDown { agent, error },
    }
}

/// After the agent was shut down, or was not: what is reported is why the prompt was not submitted.
pub open spec fn step_after_shutdown<A, E, F>(error: E, shut_down: Result<(), F>) -> SpawnStep<A, E> {
    SpawnStep::Failed(error)
}

/// What to do after the thread was started, or was not.
pub fn after_start<A, E>(started: Result<A, E>) -> (step: SpawnStep<A, E>)
    ensures
        step == step_after_start(started),
{
    match started {
        Ok(agent) => SpawnStep::Submit(agent),
        Err(error) => SpawnStep::Failed(error),
    }
}

/// What to do after the prompt was submitted to `agent`, or was not.
pub fn after_submit<A, E>(agent: A, submitted: Result<(), E>) -> (step: SpawnStep<A, E>)
    ensures
        step == step_after_submit(agent, submitted),
{
    match submitted {
        Ok(_) => SpawnStep::Running(agent),
        Err(error) => SpawnStep::ShutDown { agent, error },
    }
}

/// What to do after an agent that got no prompt was shut down, or was not.
pub fn after_shutdown<A, E, F>(error: E, shut_down: Result<(), F>) -> (step: SpawnStep<A, E>)
    ensures
        step == step_after_shutdown::<A, E, F>(error, shut_down),
{
    SpawnStep::Failed(error)
}

/// A spawned agent runs if and only if its thread was started and took the prompt; an agent that
/// did not take it is shut down, and whatever comes of that, the first error is the one reported.
pub proof fn law_spawning<A, E, F>(
    started: Result<A, E>,
    submitted: Result<(), E>,
    shut_down: Result<(), F>,
)
    ensures
        match step_after_start(started) {
            SpawnStep::Submit(agent) => {
                &&& started == Ok::<A, E>(agent)
                &&& match step_after_submit(agent, submitted) {
                    SpawnStep::Running(running) => submitted is Ok && running == agent,
                    SpawnStep::ShutDown { agent: stopped, error } => {
                        &&& submitted == Err::<(), E>(error)
                        &&& stopped == agent
                        &&& step_after_shutdown::<A, E, F>(error, shut_down) == SpawnStep::<
                            A,
                            E,
                        >::Failed(error)
                    },
                    _ => false,
                }
            },
            SpawnStep::Failed(error) => started == Err::<A, E>(error),
            _ => false,
        },
{
}

/// How long the shutdown of a consolidation agent may take, in seconds.
pub const SHUTDOWN_TIMEOUT_SECONDS: u64 = 10;

/// The thread to shut down: the one that the manager gave back, else the agent's own.
pub fn shutdown_target<H>(removed: Option<H>, own: H) -> (thread: H)
    ensures
        thread == match removed {
            Some(thread) => thread,
            None => own,
        },
{
    removed.unwrap_or(own)
}

/// How the shutdown of a thread went.
#[derive(Debug, PartialEq, Eq)]
pub enum ShutdownOutcome<E> {
    /// It came to an end in time.
    Ended(Result<(), E>),
    /// It did not.
    TimedOut,
}

/// Why an agent could not be shut down.
#[derive(Debug, PartialEq, Eq)]
pub enum ShutdownError<E> {
    /// The shutdown took too long.
    TimedOut { thread_id: String },
    /// The thread reported an error.
    Failed(E),
}

/// The result of a shutdown.
pub fn shutdown_result<E>(thread_id: &str, outcome: ShutdownOutcome<E>) -> (r: Result<
    (),
    ShutdownError<E>,
>)
    ensures
        match outcome {
            ShutdownOutcome::Ended(Ok(_)) => r is Ok,
            ShutdownOutcome::Ended(Err(error)) => r == Err::<(), ShutdownError<E>>(
                ShutdownError::Failed(error),
            ),
            ShutdownOutcome::TimedOut => r matches Err(ShutdownError::TimedOut { thread_id: id })
                && id@ == thread_id@,
        },
{
    match outcome {
        ShutdownOutcome::Ended(Ok(_)) => Ok(()),
        ShutdownOutcome::Ended(Err(error)) => Err(ShutdownError::Failed(error)),
        ShutdownOutcome::TimedOut => Err(
            ShutdownError::TimedOut { thread_id: thread_id.to_owned() },
        ),
    }
}

/// What a shutdown that took too long displays as.
pub fn timed_out_message(thread_id: &str) -> (text: String)
    ensures
        text@ == "memory consolidation agent "@ + thread_id@ + " shutdown timed out"@,
{
    let mut text = "memory consolidation agent ".to_owned();
    text.append(thread_id);
    text.append(" shutdown timed out");
    text
}

/// What `resolve_extract_provider` returns, over the configuration: where a provider is named, a clone
/// of the known one of that very name, or the error that holds the name as it stands; where none is
/// named, a clone of the session's own.
pub proof fn law_resolved_provider<P: Clone>(config: &Config<P>, r: Result<P, ProviderError>)
    requires
        call_ensures(resolve_extract_provider::<P>, (config,), r),
    ensures
        config.memories.extract_provider matches Some(id) ==> (r is Ok
            <==> config.model_providers@.contains_key(id@)),
        config.memories.extract_provider matches Some(id) ==> (r matches Ok(provider) ==> cloned(
            config.model_providers@[id@],
            provider,
        )),
        config.memories.extract_provider matches Some(id) ==> (r matches Err(
            ProviderError::UnknownExtractProvider { provider_id },
        ) ==> provider_id@ == id@),
        config.memories.extract_provider is None ==> (r matches Ok(provider) && cloned(
            config.model_provider,
            provider,
        )),
{
}

/// The text of an error names the provider that is not known.
pub proof fn law_error_names_the_provider(error: &ProviderError, text: String)
    requires
        call_ensures(ProviderError::message, (error,), text),
    ensures
        *error matches ProviderError::UnknownExtractProvider { provider_id } && text@
            == "unknown memories.extract_provider '"@ + provider_id@
            + "' (not present in model_providers)"@,
{
}

/// What one event does to the output of an extraction, over the fields of the event: a delta follows
/// the text as it stands; the text of a finished message counts while there is no text; the completion
/// brings its usage; and nothing else changes anything.
pub proof fn law_event_counts(event: ResponseEvent, message_text: Option<String>, over: bool)
    ensures
        forall|output: &mut StageOneOutput| #[trigger]
            call_ensures(StageOneOutput::take, (output, event, message_text), over) ==> {
                let before = output@;
                let after = final(output)@;
                match event {
                    ResponseEvent::OutputTextDelta(delta) => {
                        &&& after.text == before.text + delta@
                        &&& after.token_usage == before.token_usage
                        &&& !over
                    },
                    ResponseEvent::OutputItemDone(item) => {
                        &&& before.text.len() == 0 && item is Message && message_text is Some
                            ==> after.text == message_text->0@
                        &&& before.text.len() > 0 || !(item is Message) || message_text is None
                            ==> after.text == before.text
                        &&& after.token_usage == before.token_usage
                        &&& !over
                    },
                    ResponseEvent::Completed { token_usage, .. } => {
                        &&& after.text == before.text
                        &&& after.token_usage == token_usage
                        &&& over
                    },
                    _ => {
                        &&& after.text == before.text
                        &&& after.token_usage == before.token_usage
                        &&& !over
                    },
                }
            },
{
    assert forall|output: &mut StageOneOutput| #[trigger]
        call_ensures(StageOneOutput::take, (output, event, message_text), over) implies {
        let before = output@;
        let after = final(output)@;
        match event {
            ResponseEvent::OutputTextDelta(delta) => {
                &&& after.text == before.text + delta@
                &&& after.token_usage == before.token_usage
                &&& !over
            },
            ResponseEvent::OutputItemDone(item) => {
                &&& before.text.len() == 0 && item is Message && message_text is Some ==> after.text
                    == message_text->0@
                &&& before.text.len() > 0 || !(item is Message) || message_text is None
                    ==> after.text == before.text
                &&& after.token_usage == before.token_usage
                &&& !over
            },
            ResponseEvent::Completed { token_usage, .. } => {
                &&& after.text == before.text
                &&& after.token_usage == token_usage
                &&& over
            },
            _ => {
                &&& after.text == before.text
                &&& after.token_usage == before.token_usage
                &&& !over
            },
        }
    } by {
        assert(final(output)@ == output@.with_event(event.deep_view(), message_text.deep_view()));
        if let ResponseEvent::OutputItemDone(item) = event {
            crate::events::law_item_is_shown(item);
        }
    }
}

/// What an item does to an extraction, over its fields: an error ends it with that very error and
/// changes nothing, the end of the stream ends it with what there is, the completion ends it with what
/// there is and its usage, and any other event lets it go on.
pub proof fn law_item_counts<E>(item: StageOneItem<E>, step: StageOneStep<E>)
    ensures
        forall|output: &mut StageOneOutput| #[trigger]
            call_ensures(StageOneOutput::advance::<E>, (output, item), step) ==> {
                let before = output@;
                let after = final(output)@;
                match item {
                    StageOneItem::Error(error) => after == before && step == StageOneStep::Failed(
                        error,
                    ),
                    StageOneItem::End => after == before && (step matches StageOneStep::Done {
                        text,
                        token_usage,
                    } && text@ == before.text && token_usage == before.token_usage),
                    StageOneItem::Event {
                        event: ResponseEvent::Completed { token_usage: used, .. },
                        ..
                    } => step matches StageOneStep::Done { text, token_usage } && text@
                        == before.text && token_usage == used,
                    StageOneItem::Event { event: ResponseEvent::OutputTextDelta(delta), .. } => step
                        is Continue && after.text == before.text + delta@,
                    StageOneItem::Event {
                        event: ResponseEvent::OutputItemDone(done),
                        message_text,
                    } => {
                        &&& step is Continue
                        &&& after.token_usage == before.token_usage
                        &&& before.text.len() == 0 && done is Message && message_text is Some
                            ==> after.text == message_text->0@
                        &&& before.text.len() > 0 || !(done is Message) || message_text is None
                            ==> after.text == before.text
                    },
                    StageOneItem::Event { .. } => step is Continue && after == before,
                }
            },
{
    assert forall|output: &mut StageOneOutput| #[trigger]
        call_ensures(StageOneOutput::advance::<E>, (output, item), step) implies {
        let before = output@;
        let after = final(output)@;
        match item {
            StageOneItem::Error(error) => after == before && step == StageOneStep::Failed(error),
            StageOneItem::End => after == before && (step matches StageOneStep::Done {
                text,
                token_usage,
            } && text@ == before.text && token_usage == before.token_usage),
            StageOneItem::Event {
                event: ResponseEvent::Completed { token_usage: used, .. },
                ..
            } => step matches StageOneStep::Done { text, token_usage } && text@ == before.text
                && token_usage == used,
            StageOneItem::Event { event: ResponseEvent::OutputTextDelta(delta), .. } => step
                is Continue && after.text == before.text + delta@,
            StageOneItem::Event { event: ResponseEvent::OutputItemDone(done), message_text } => {
                &&& step is Continue
                &&& after.token_usage == before.token_usage
                &&& before.text.len() == 0 && done is Message && message_text is Some ==> after.text
                    == message_text->0@
                &&& before.text.len() > 0 || !(done is Message) || message_text is None
                    ==> after.text == before.text
            },
            StageOneItem::Event { .. } => step is Continue && after == before,
        }
    } by {
        assert((Extraction { output: final(output)@, step: step@ }) == output@.advanced(item@));
        if let StageOneItem::Event { event: ResponseEvent::OutputItemDone(done), .. } = item {
            crate::events::law_item_is_shown(done);
        }
    }
}

/// An extraction begins with no text and no usage, and `finish` gives back what was gathered.
pub proof fn law_gathered_output(output: StageOneOutput, r: (String, Option<TokenUsage>))
    ensures
        call_ensures(StageOneOutput::new, (), output) ==> output@.text.len() == 0
            && output@.token_usage is None,
        call_ensures(StageOneOutput::finish, (output,), r) ==> r.0@ == output@.text && r.1
            == output@.token_usage,
{
}

/// A request for an extraction asks for the configured summary, for the model's own where none is
/// configured, and for the effort, the tier and the header as they were given.
pub proof fn law_extraction_request<M, T>(
    model_info: M,
    model_default_summary: ReasoningSummary,
    configured_summary: Option<ReasoningSummary>,
    session_telemetry: T,
    reasoning_effort: ReasoningEffort,
    service_tier: Option<ServiceTier>,
    turn_metadata_header: Option<String>,
    context: StageOneRequestContext<M, T>,
)
    requires
        call_ensures(
            stage_one_request_context::<M, T>,
            (
                model_info,
                model_default_summary,
                configured_summary,
                session_telemetry,
                reasoning_effort,
                service_tier,
                turn_metadata_header,
            ),
            context,
        ),
    ensures
        configured_summary matches Some(summary) ==> context.reasoning_summary == summary,
        configured_summary is None ==> context.reasoning_summary == model_default_summary,
        context.reasoning_effort matches Some(effort) && effort == reasoning_effort,
        context.model_info == model_info && context.session_telemetry == session_telemetry,
        context.service_tier == service_tier && context.turn_metadata_header
            == turn_metadata_header,
{
}

/// Telemetry is about the configured model, else `unknown`, and about the account that is signed in.
pub proof fn law_telemetry_subject<A>(
    model: Option<String>,
    auth: Option<AuthSnapshot<A>>,
    subject: TelemetrySubject<A>,
)
    requires
        call_ensures(telemetry_subject::<A>, (model, auth), subject),
    ensures
        model matches Some(name) ==> subject.model@ == name@,
        model is None ==> subject.model@ == "unknown"@,
        subject.auth_mode is Some <==> auth is Some,
        auth matches Some(account) ==> subject.auth_mode == Some(account.auth_mode)
            && subject.account_id == account.account_id && subject.account_email
            == account.account_email,
        auth is None ==> subject.account_id is None && subject.account_email is None,
{
}

/// How spawning goes on, over what came of its steps: an agent that started gets the prompt, one that
/// took it runs, one that did not is shut down, and the first error is the one that is reported,
/// whatever comes of the shutdown.
pub proof fn law_spawning_steps<A, E, F>(
    started: Result<A, E>,
    first: SpawnStep<A, E>,
    agent: A,
    submitted: Result<(), E>,
    second: SpawnStep<A, E>,
    error: E,
    shut_down: Result<(), F>,
    third: SpawnStep<A, E>,
)
    requires
        call_ensures(after_start::<A, E>, (started,), first),
        call_ensures(after_submit::<A, E>, (agent, submitted), second),
        call_ensures(after_shutdown::<A, E, F>, (error, shut_down), third),
    ensures
        started matches Ok(a) ==> first == SpawnStep::<A, E>::Submit(a),
        started matches Err(e) ==> first == SpawnStep::<A, E>::Failed(e),
        submitted is Ok ==> second == SpawnStep::<A, E>::Running(agent),
        submitted matches Err(e) ==> second == (SpawnStep::<A, E>::ShutDown { agent, error: e }),
        third == SpawnStep::<A, E>::Failed(error),
{
}

/// The thread that the manager gave back is shut down, else the agent's own; a shutdown reports the
/// thread's own error, or that it took too long, by the identifier of the thread.
pub proof fn law_shutdown<H, E>(
    removed: Option<H>,
    own: H,
    thread: H,
    thread_id: &str,
    outcome: ShutdownOutcome<E>,
    r: Result<(), ShutdownError<E>>,
    text: String,
)
    requires
        call_ensures(shutdown_target::<H>, (removed, own), thread),
        call_ensures(shutdown_result::<E>, (thread_id, outcome), r),
        call_ensures(timed_out_message, (thread_id,), text),
    ensures
        removed matches Some(given) ==> thread == given,
        removed is None ==> thread == own,
        r is Ok <==> outcome matches ShutdownOutcome::Ended(Ok(_)),
        outcome matches ShutdownOutcome::Ended(Err(error)) ==> r == Err::<(), ShutdownError<E>>(
            ShutdownError::Failed(error),
        ),
        outcome is TimedOut ==> (r matches Err(ShutdownError::TimedOut { thread_id: id }) && id@
            == thread_id@),
        text@ == "memory consolidation agent "@ + thread_id@ + " shutdown timed out"@,
{
}

/// A consolidation thread is the program's own, with a new history and nothing beside its configuration
/// and environments; what it is given is the prompt alone.
pub proof fn law_consolidation_thread<C, N, D, W, I, S, M>(
    config: C,
    environments: N,
    options: ConsolidationThreadOptions<C, N, D, W>,
    prompt: Vec<I>,
    input: ConsolidationInput<I, N, S, M>,
)
    requires
        call_ensures(consolidation_thread_options::<C, N, D, W>, (config, environments), options),
        call_ensures(consolidation_input::<I, N, S, M>, (prompt,), input),
    ensures
        options.config == config && options.environments == environments,
        !options.resumes_history && !options.persist_extended_history,
        options.source is MemoryConsolidation,
        options.dynamic_tools@.len() == 0,
        options.metrics_service_name is None && options.parent_trace is None,
        input.items@ == prompt@,
        input.environments is None && input.final_output_json_schema is None
            && input.responsesapi_client_metadata is None,
{
}

/// The client of an extraction is made with just what it was given, and neither beta features nor
/// tracing.
pub proof fn law_extraction_client<A, I, P, S, V>(
    auth: A,
    thread_id: I,
    installation_id: String,
    provider: P,
    session_source: S,
    verbosity: Option<V>,
    request_compression: bool,
    runtime_metrics: bool,
    options: ExtractionClientOptions<A, I, P, S, V>,
)
    requires
        call_ensures(
            extraction_client_options::<A, I, P, S, V>,
            (
                auth,
                thread_id,
                installation_id,
                provider,
                session_source,
                verbosity,
                request_compression,
                runtime_metrics,
            ),
            options,
        ),
    ensures
        options.auth matches Some(given) && given == auth,
        options.thread_id == thread_id && options.installation_id@ == installation_id@,
        options.provider == provider && options.session_source == session_source,
        options.verbosity == verbosity,
        options.request_compression <==> request_compression,
        options.runtime_metrics <==> runtime_metrics,
        options.beta_features_header is None && !options.traces_inference,
{
}

} // verus!
