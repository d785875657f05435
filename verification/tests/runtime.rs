use codex_chat::events::ContentItem;
use codex_chat::events::ResponseEvent;
use codex_chat::events::ResponseItem;
use codex_chat::events::TokenUsage;
use codex_chat::model_catalog::local_ollama_gemma4_preset;
use codex_chat::model_catalog::CollaborationModesConfig;
use codex_chat::model_catalog::InputModality;
use codex_chat::model_catalog::ModelCatalog;
use codex_chat::model_catalog::ModelPreset;
use codex_chat::model_catalog::ReasoningEffortPreset;
use codex_chat::name_map::NameMap;
use codex_chat::runtime::after_shutdown;
use codex_chat::runtime::after_start;
use codex_chat::runtime::after_submit;
use codex_chat::runtime::consolidation_input;
use codex_chat::runtime::consolidation_thread_options;
use codex_chat::runtime::extraction_client_options;
use codex_chat::runtime::resolve_extract_provider;
use codex_chat::runtime::shutdown_result;
use codex_chat::runtime::shutdown_target;
use codex_chat::runtime::stage_one_request_context;
use codex_chat::runtime::telemetry_subject;
use codex_chat::runtime::timed_out_message;
use codex_chat::runtime::AuthSnapshot;
use codex_chat::runtime::Config;
use codex_chat::runtime::ConsolidationInput;
use codex_chat::runtime::ConsolidationThreadOptions;
use codex_chat::runtime::ExtractionClientOptions;
use codex_chat::runtime::InternalSource;
use codex_chat::runtime::MemoriesConfig;
use codex_chat::runtime::ProviderError;
use codex_chat::runtime::ReasoningEffort;
use codex_chat::runtime::ReasoningSummary;
use codex_chat::runtime::ServiceTier;
use codex_chat::runtime::ShutdownError;
use codex_chat::runtime::ShutdownOutcome;
use codex_chat::runtime::SpawnStep;
use codex_chat::runtime::StageOneItem;
use codex_chat::runtime::StageOneOutput;
use codex_chat::runtime::StageOneStep;
use codex_chat::runtime::SHUTDOWN_TIMEOUT_SECONDS;

const OLLAMA_OSS_PROVIDER_ID: &str = "ollama";
const SESSION_PROVIDER_ID: &str = "openai";

#[derive(Clone, Debug, PartialEq)]
struct ModelProviderInfo {
    name: String,
    base_url: Option<String>,
}

fn provider(name: &str, base_url: Option<&str>) -> ModelProviderInfo {
    ModelProviderInfo { name: name.to_owned(), base_url: base_url.map(str::to_owned) }
}

/// A session on the default provider, with the built-in providers known.
fn default_config() -> Config<ModelProviderInfo> {
    let mut model_providers = NameMap::new();
    model_providers.insert(SESSION_PROVIDER_ID.to_owned(), provider("OpenAI", None));
    model_providers.insert(
        OLLAMA_OSS_PROVIDER_ID.to_owned(),
        provider("gpt-oss", Some("http://localhost:11434/v1")),
    );
    Config {
        memories: MemoriesConfig { extract_provider: None },
        model_providers,
        model_provider: provider("OpenAI", None),
    }
}

#[test]
fn resolve_extract_provider_returns_session_provider_when_unset() {
    let config = default_config();
    assert!(config.memories.extract_provider.is_none());

    let resolved = resolve_extract_provider(&config).expect("resolve should succeed");
    assert_eq!(resolved, config.model_provider);
}

#[test]
fn resolve_extract_provider_returns_override_provider_info() {
    let mut config = default_config();
    // The session must not already be on ollama.
    assert_ne!(SESSION_PROVIDER_ID, OLLAMA_OSS_PROVIDER_ID);
    let expected = config
        .model_providers
        .get(OLLAMA_OSS_PROVIDER_ID)
        .cloned()
        .expect("ollama provider must be a registered built-in");

    config.memories.extract_provider = Some(OLLAMA_OSS_PROVIDER_ID.to_string());

    let resolved = resolve_extract_provider(&config).expect("resolve should succeed");
    assert_eq!(resolved, expected);
    assert_ne!(
        resolved, config.model_provider,
        "override must differ from the parent session provider"
    );
}

#[test]
fn resolve_extract_provider_unknown_id_errors() {
    let mut config = default_config();
    config.memories.extract_provider = Some("definitely-not-a-real-provider".to_string());

    let err = resolve_extract_provider(&config).expect_err("unknown provider should be rejected");
    assert!(
        err.message().contains("unknown memories.extract_provider"),
        "unexpected error: {err:?}"
    );
    assert_eq!(
        err,
        ProviderError::UnknownExtractProvider {
            provider_id: "definitely-not-a-real-provider".to_owned(),
        }
    );
    assert_eq!(
        err.message(),
        "unknown memories.extract_provider 'definitely-not-a-real-provider' (not present in model_providers)"
    );
}

#[test]
fn an_override_does_not_depend_on_the_session() {
    for id in [OLLAMA_OSS_PROVIDER_ID, "unknown"] {
        let mut one = default_config();
        let mut other = default_config();
        one.memories.extract_provider = Some(id.to_owned());
        other.memories.extract_provider = Some(id.to_owned());
        other.model_provider = provider("another", None);
        assert_eq!(resolve_extract_provider(&one), resolve_extract_provider(&other));
    }
}

fn delta(text: &str) -> ResponseEvent {
    ResponseEvent::OutputTextDelta(text.to_owned())
}

fn message(text: &str) -> ResponseEvent {
    ResponseEvent::OutputItemDone(ResponseItem::Message {
        id: None,
        role: "assistant".to_owned(),
        content: vec![ContentItem::OutputText { text: text.to_owned() }],
        phase: None,
    })
}

fn usage(total: i64) -> TokenUsage {
    TokenUsage {
        input_tokens: 1,
        cached_input_tokens: 0,
        output_tokens: 2,
        reasoning_output_tokens: 0,
        total_tokens: total,
    }
}

fn completed(total: i64) -> ResponseEvent {
    ResponseEvent::Completed {
        response_id: "r".to_owned(),
        token_usage: Some(usage(total)),
        end_turn: None,
    }
}

fn collect(events: Vec<(ResponseEvent, Option<&str>)>) -> (String, Option<TokenUsage>) {
    let mut output = StageOneOutput::new();
    for (event, text) in events {
        if output.take(event, text.map(str::to_owned)) {
            break;
        }
    }
    output.finish()
}

#[test]
fn deltas_make_the_text_of_an_extraction() {
    let out = collect(vec![
        (ResponseEvent::Created, None),
        (delta("a"), None),
        (message("ignored"), Some("ignored")),
        (delta("b"), None),
        (completed(9), None),
        (delta("late"), None),
    ]);
    assert_eq!(out, ("ab".to_owned(), Some(usage(9))));
}

#[test]
fn the_first_message_makes_the_text_where_there_are_no_deltas() {
    let out = collect(vec![
        (ResponseEvent::OutputItemDone(ResponseItem::Other), Some("no message")),
        (message(""), Some("")),
        (message("x"), None),
        (message("first"), Some("first")),
        (message("second"), Some("second")),
        (ResponseEvent::Other, None),
    ]);
    assert_eq!(out, ("first".to_owned(), None));
}

#[test]
fn a_completion_without_usage_brings_none() {
    let out = collect(vec![(
        ResponseEvent::Completed {
            response_id: String::new(),
            token_usage: None,
            end_turn: Some(true),
        },
        None,
    )]);
    assert_eq!(out, (String::new(), None));
}

fn item(event: ResponseEvent) -> StageOneItem<u8> {
    StageOneItem::Event { event, message_text: None }
}

#[test]
fn an_extraction_is_done_with_the_completion() {
    let mut output = StageOneOutput::new();
    assert_eq!(output.advance(item(delta("a"))), StageOneStep::Continue);
    assert_eq!(
        output.advance(item(completed(4))),
        StageOneStep::Done { text: "a".to_owned(), token_usage: Some(usage(4)) }
    );
}

#[test]
fn an_extraction_is_done_with_the_end_of_its_stream() {
    let mut output = StageOneOutput::new();
    let message = StageOneItem::<u8>::Event {
        event: message("m"),
        message_text: Some("m".to_owned()),
    };
    assert_eq!(output.advance(message), StageOneStep::Continue);
    assert_eq!(
        output.advance(StageOneItem::<u8>::End),
        StageOneStep::Done { text: "m".to_owned(), token_usage: None }
    );
}

#[test]
fn an_extraction_fails_with_the_error_of_its_stream() {
    let mut output = StageOneOutput::new();
    assert_eq!(output.advance(item(delta("a"))), StageOneStep::Continue);
    assert_eq!(output.advance(StageOneItem::Error(7u8)), StageOneStep::Failed(7));
    assert_eq!(output.finish(), ("a".to_owned(), None));
}

#[test]
fn the_configured_summary_comes_before_that_of_the_model() {
    let context = |configured| {
        stage_one_request_context(
            "model",
            ReasoningSummary::Concise,
            configured,
            7u8,
            ReasoningEffort::Low,
            Some(ServiceTier::Flex),
            Some("header".to_owned()),
        )
    };
    let own = context(None);
    assert_eq!(own.reasoning_summary, ReasoningSummary::Concise);
    assert_eq!(own.model_info, "model");
    assert_eq!(own.session_telemetry, 7);
    assert_eq!(own.reasoning_effort, Some(ReasoningEffort::Low));
    assert_eq!(own.service_tier, Some(ServiceTier::Flex));
    assert_eq!(own.turn_metadata_header.as_deref(), Some("header"));
    let configured = context(Some(ReasoningSummary::NoSummary));
    assert_eq!(configured.reasoning_summary, ReasoningSummary::NoSummary);
}

#[test]
fn telemetry_is_about_the_account_that_is_signed_in() {
    let signed_in = telemetry_subject(
        Some("m".to_owned()),
        Some(AuthSnapshot {
            auth_mode: "api key",
            account_id: Some("a".to_owned()),
            account_email: None,
        }),
    );
    assert_eq!(signed_in.model, "m");
    assert_eq!(signed_in.auth_mode, Some("api key"));
    assert_eq!(signed_in.account_id.as_deref(), Some("a"));
    assert_eq!(signed_in.account_email, None);
    let nobody = telemetry_subject::<u8>(None, None);
    assert_eq!(nobody.model, "unknown");
    assert_eq!(nobody.auth_mode, None);
    assert_eq!(nobody.account_id, None);
    assert_eq!(nobody.account_email, None);
}

#[test]
fn the_client_of_an_extraction_is_neither_traced_nor_beta() {
    assert_eq!(
        extraction_client_options("auth", 4u8, "i".to_owned(), "p", "cli", Some(1u8), true, false),
        ExtractionClientOptions {
            auth: Some("auth"),
            thread_id: 4u8,
            installation_id: "i".to_owned(),
            provider: "p",
            session_source: "cli",
            verbosity: Some(1u8),
            request_compression: true,
            runtime_metrics: false,
            beta_features_header: None,
            traces_inference: false,
        }
    );
}

#[test]
fn a_consolidation_thread_starts_anew() {
    assert_eq!(
        consolidation_thread_options::<_, _, u8, u8>("config", vec!["env"]),
        ConsolidationThreadOptions {
            config: "config",
            resumes_history: false,
            source: InternalSource::MemoryConsolidation,
            dynamic_tools: vec![],
            persist_extended_history: false,
            metrics_service_name: None,
            parent_trace: None,
            environments: vec!["env"],
        }
    );
    assert_eq!(
        consolidation_input::<_, u8, u8, u8>(vec!["prompt"]),
        ConsolidationInput {
            items: vec!["prompt"],
            environments: None,
            final_output_json_schema: None,
            responsesapi_client_metadata: None,
        }
    );
}

#[test]
fn an_agent_runs_once_it_took_the_prompt() {
    assert_eq!(after_start::<_, u8>(Ok("agent")), SpawnStep::Submit("agent"));
    assert_eq!(after_start::<&str, _>(Err(1u8)), SpawnStep::Failed(1));
    assert_eq!(after_submit::<_, u8>("agent", Ok(())), SpawnStep::Running("agent"));
}

#[test]
fn a_failed_submit_is_reported_whatever_the_shutdown_does() {
    assert_eq!(
        after_submit("agent", Err(1u8)),
        SpawnStep::ShutDown { agent: "agent", error: 1 }
    );
    assert_eq!(after_shutdown::<&str, _, u8>(1u8, Ok(())), SpawnStep::Failed(1));
    assert_eq!(after_shutdown::<&str, _, u8>(1u8, Err(2u8)), SpawnStep::Failed(1));
}

#[test]
fn a_shutdown_may_fail_or_take_too_long() {
    assert_eq!(SHUTDOWN_TIMEOUT_SECONDS, 10);
    assert_eq!(shutdown_target(Some("managed"), "own"), "managed");
    assert_eq!(shutdown_target(None, "own"), "own");
    assert_eq!(shutdown_result::<u8>("t", ShutdownOutcome::Ended(Ok(()))), Ok(()));
    assert_eq!(
        shutdown_result("t", ShutdownOutcome::Ended(Err(3u8))),
        Err(ShutdownError::Failed(3))
    );
    assert_eq!(
        shutdown_result::<u8>("t", ShutdownOutcome::TimedOut),
        Err(ShutdownError::TimedOut { thread_id: "t".to_owned() })
    );
    assert_eq!(timed_out_message("t"), "memory consolidation agent t shutdown timed out");
}

/// A model to move on to.
#[derive(Clone, Debug, PartialEq)]
struct Upgrade {
    id: String,
    link: Option<String>,
}

fn expected_local() -> ModelPreset<Upgrade, u8> {
    ModelPreset {
        id: "ollama-gemma4-26b-a4b".to_owned(),
        model: "gemma4:26b-a4b-it-q4_K_M".to_owned(),
        display_name: "Gemma 4 26B-A4B (local Ollama)".to_owned(),
        description: "Local model via Ollama \u{2014} requires `ollama` running on localhost:11434."
            .to_owned(),
        default_reasoning_effort: ReasoningEffort::NoReasoning,
        supported_reasoning_efforts: vec![ReasoningEffortPreset {
            effort: ReasoningEffort::NoReasoning,
            description: "No reasoning".to_owned(),
        }],
        supports_personality: false,
        additional_speed_tiers: vec![],
        is_default: false,
        upgrade: None,
        show_in_picker: true,
        availability_nux: None,
        supported_in_api: true,
        input_modalities: vec![InputModality::Text, InputModality::Image],
        provider_id: Some("ollama".to_owned()),
    }
}

#[test]
fn the_local_preset_is_listed_last() {
    let modalities = || vec![InputModality::Text, InputModality::Image];
    assert_eq!(local_ollama_gemma4_preset(modalities()), expected_local());
    let mut other = expected_local();
    other.id = "other".to_owned();
    other.additional_speed_tiers = vec!["fast".to_owned()];
    other.upgrade = Some(Upgrade { id: "next".to_owned(), link: Some("link".to_owned()) });
    other.availability_nux = Some(3);
    other.input_modalities = vec![];
    let config = CollaborationModesConfig { default_mode_request_user_input: true };
    let catalog = ModelCatalog::new(vec![other.clone()], config);
    assert_eq!(catalog.collaboration_modes_config(), config);
    let listed = catalog.try_list_models(modalities()).unwrap();
    assert_eq!(listed, vec![other, expected_local()]);
    // Listing does not change the catalog.
    assert_eq!(
        catalog.try_list_models(modalities()).unwrap(),
        catalog.try_list_models(modalities()).unwrap()
    );
    assert_eq!(catalog.try_list_models(modalities()).unwrap().len(), 2);
}
