//! The models that can be picked.
use std::convert::Infallible;

use vstd::prelude::*;

use crate::runtime::ReasoningEffort;

verus! {

/// What a model takes as input.
#[derive(Clone, Copy, Debug, PartialEq, Eq, Structural)]
pub enum InputModality {
    Text,
    Image,
}

/// A reasoning effort that can be picked for a model.
#[derive(Debug, PartialEq, Eq)]
pub struct ReasoningEffortPreset {
    pub effort: ReasoningEffort,
    pub description: String,
}

/// A model that can be picked. `U` describes a model to move on to, `N` a first notice.
#[derive(Debug, PartialEq, Eq)]
pub struct ModelPreset<U, N> {
    pub id: String,
    pub model: String,
    pub display_name: String,
    pub description: String,
    pub default_reasoning_effort: ReasoningEffort,
    pub supported_reasoning_efforts: Vec<ReasoningEffortPreset>,
    pub supports_personality: bool,
    pub additional_speed_tiers: Vec<String>,
    pub is_default: bool,
    /// The model to move on to, if there is one.
    pub upgrade: Option<U>,
    pub show_in_picker: bool,
    /// What to tell a user who sees the model for the first time.
    pub availability_nux: Option<N>,
    pub supported_in_api: bool,
    pub input_modalities: Vec<InputModality>,
    pub provider_id: Option<String>,
}

/// An effort preset as a mathematical value.
pub struct EffortView {
    pub effort: ReasoningEffort,
    pub description: Seq<char>,
}

/// A model preset as a mathematical value.
pub struct PresetView<U, N> {
    pub id: Seq<char>,
    pub model: Seq<char>,
    pub display_name: Seq<char>,
    pub description: Seq<char>,
    pub default_reasoning_effort: ReasoningEffort,
    pub supported_reasoning_efforts: Seq<EffortView>,
    pub supports_personality: bool,
    pub additional_speed_tiers: Seq<Seq<char>>,
    pub is_default: bool,
    pub upgrade: Option<U>,
    pub show_in_picker: bool,
    pub availability_nux: Option<N>,
    pub supported_in_api: bool,
    pub input_modalities: Seq<InputModality>,
    pub provider_id: Option<Seq<char>>,
}

impl DeepView for ReasoningEffortPreset {
    type V = EffortView;

    open spec fn deep_view(&self) -> EffortView {
        EffortView { effort: self.effort, description: self.description@ }
    }
}

impl<U, N> DeepView for ModelPreset<U, N> {
    type V = PresetView<U, N>;

    open spec fn deep_view(&self) -> PresetView<U, N> {
        PresetView {
            id: self.id@,
            model: self.model@,
            display_name: self.display_name@,
            description: self.description@,
            default_reasoning_effort: self.default_reasoning_effort,
            supported_reasoning_efforts: self.supported_reasoning_efforts.deep_view(),
            supports_personality: self.supports_personality,
            additional_speed_tiers: self.additional_speed_tiers.deep_view(),
            is_default: self.is_default,
            upgrade: self.upgrade,
            show_in_picker: self.show_in_picker,
            availability_nux: self.availability_nux,
            supported_in_api: self.supported_in_api,
            input_modalities: self.input_modalities@,
            provider_id: self.provider_id.deep_view(),
        }
    }
}

impl Clone for ReasoningEffortPreset {
    fn clone(&self) -> (r: Self)
        ensures
            r == *self,
    {
        ReasoningEffortPreset { effort: self.effort, description: self.description.clone() }
    }
}

/// `copy` is what cloning made of an optional value.
pub open spec fn optional_cloned<T: Clone>(value: Option<T>, copy: Option<T>) -> bool {
    match value {
        Some(value) => copy matches Some(copy) && cloned(value, copy),
        None => copy is None,
    }
}

/// `copy` is a copy of a preset: what cloning made of the parts of other types, and the same in
/// all else.
pub open spec fn preset_cloned<U: Clone, N: Clone>(
    preset: PresetView<U, N>,
    copy: PresetView<U, N>,
) -> bool {
    &&& optional_cloned(preset.upgrade, copy.upgrade)
    &&& optional_cloned(preset.availability_nux, copy.availability_nux)
    &&& copy == PresetView {
        upgrade: copy.upgrade,
        availability_nux: copy.availability_nux,
        ..preset
    }
}

/// Clones an optional value.
fn clone_optional<T: Clone>(value: &Option<T>) -> (copy: Option<T>)
    ensures
        optional_cloned(*value, copy),
{
    match value {
        Some(value) => Some(value.clone()),
        None => None,
    }
}

impl<U: Clone, N: Clone> Clone for ModelPreset<U, N> {
    fn clone(&self) -> (r: Self)
        ensures
            preset_cloned(self.deep_view(), r.deep_view()),
    {
        let efforts = self.supported_reasoning_efforts.clone();
        let tiers = self.additional_speed_tiers.clone();
        let modalities = self.input_modalities.clone();
        proof {
            assert(efforts.deep_view() =~= self.supported_reasoning_efforts.deep_view());
            assert(tiers.deep_view() =~= self.additional_speed_tiers.deep_view());
            assert(modalities@ =~= self.input_modalities@);
        }
        ModelPreset {
            id: self.id.clone(),
            model: self.model.clone(),
            display_name: self.display_name.clone(),
            description: self.description.clone(),
            default_reasoning_effort: self.default_reasoning_effort,
            supported_reasoning_efforts: efforts,
            supports_personality: self.supports_personality,
            additional_speed_tiers: tiers,
            is_default: self.is_default,
            upgrade: clone_optional(&self.upgrade),
            show_in_picker: self.show_in_picker,
            availability_nux: clone_optional(&self.availability_nux),
            supported_in_api: self.supported_in_api,
            input_modalities: modalities,
            provider_id: self.provider_id.clone(),
        }
    }
}

/// The preset of the local Ollama model, which takes the given inputs.
pub open spec fn local_preset<U, N>(input_modalities: Seq<InputModality>) -> PresetView<U, N> {
    PresetView {
        id: "ollama-gemma4-26b-a4b"@,
        model: "gemma4:26b-a4b-it-q4_K_M"@,
        display_name: "Gemma 4 26B-A4B (local Ollama)"@,
        description: "Local model via Ollama — requires `ollama` running on localhost:11434."@,
        default_reasoning_effort: ReasoningEffort::NoReasoning,
        supported_reasoning_efforts: seq![
            EffortView { effort: ReasoningEffort::NoReasoning, description: "No reasoning"@ },
        ],
        supports_personality: false,
        additional_speed_tiers: seq![],
        is_default: false,
        upgrade: None,
        show_in_picker: true,
        availability_nux: None,
        supported_in_api: true,
        input_modalities,
        provider_id: Some("ollama"@),
    }
}

/// The preset of the local Ollama model. `input_modalities` is what models take by default.
pub fn local_ollama_gemma4_preset<U, N>(input_modalities: Vec<InputModality>) -> (preset:
    ModelPreset<U, N>)
    ensures
        preset.deep_view() == local_preset::<U, N>(input_modalities@),
{
    let mut efforts: Vec<ReasoningEffortPreset> = Vec::new();
    efforts.push(
        ReasoningEffortPreset {
            effort: ReasoningEffort::NoReasoning,
            description: "No reasoning".to_owned(),
        },
    );
    let tiers: Vec<String> = Vec::new();
    proof {
        assert(efforts.deep_view() =~= seq![
            EffortView { effort: ReasoningEffort::NoReasoning, description: "No reasoning"@ },
        ]);
        assert(tiers.deep_view() =~= seq![]);
    }
    ModelPreset {
        id: "ollama-gemma4-26b-a4b".to_owned(),
        model: "gemma4:26b-a4b-it-q4_K_M".to_owned(),
        display_name: "Gemma 4 26B-A4B (local Ollama)".to_owned(),
        description:
            "Local model via Ollama — requires `ollama` running on localhost:11434.".to_owned(),
        default_reasoning_effort: ReasoningEffort::NoReasoning,
        supported_reasoning_efforts: efforts,
        supports_personality: false,
        additional_speed_tiers: tiers,
        is_default: false,
        upgrade: None,
        show_in_picker: true,
        availability_nux: None,
        supported_in_api: true,
        input_modalities,
        provider_id: Some("ollama".to_owned()),
    }
}

/// How collaboration modes are set up.
#[derive(Clone, Copy, Debug, PartialEq, Eq, Structural)]
pub struct CollaborationModesConfig {
    pub default_mode_request_user_input: bool,
}

/// Whether `models` lists a catalog: a copy of each of its models, in order, and last the local
/// one.
pub open spec fn is_listing<U: Clone, N: Clone>(
    models: Seq<PresetView<U, N>>,
    catalog: CatalogView<U, N>,
    input_modalities: Seq<InputModality>,
) -> bool {
    &&& models.len() == catalog.models.len() + 1
    &&& forall|i: int|
        0 <= i < catalog.models.len() ==> preset_cloned(catalog.models[i], #[trigger] models[i])
    &&& models.last() == local_preset::<U, N>(input_modalities)
}

/// To list a catalog again gives the same listing: the same models in the same order, and the local
/// one once, at the end. Parts of other types are clones of the same values, and the same where
/// cloning is exact.
pub proof fn law_listing_again<U: Clone, N: Clone>(
    first: Seq<PresetView<U, N>>,
    second: Seq<PresetView<U, N>>,
    catalog: CatalogView<U, N>,
    input_modalities: Seq<InputModality>,
)
    requires
        is_listing(first, catalog, input_modalities),
        is_listing(second, catalog, input_modalities),
    ensures
        first.len() == second.len(),
        forall|i: int|
            0 <= i < first.len() ==> second[i] == (PresetView {
                upgrade: second[i].upgrade,
                availability_nux: second[i].availability_nux,
                ..(#[trigger] first[i])
            }),
        crate::runtime::clones_exactly::<U>() && crate::runtime::clones_exactly::<N>() ==> first
            == second,
{
    assert forall|i: int| 0 <= i < first.len() implies second[i] == (PresetView {
        upgrade: second[i].upgrade,
        availability_nux: second[i].availability_nux,
        ..(#[trigger] first[i])
    }) by {
        if i < catalog.models.len() {
            assert(preset_cloned(catalog.models[i], first[i]));
            assert(preset_cloned(catalog.models[i], second[i]));
        } else {
            assert(first[i] == first.last());
            assert(second[i] == second.last());
        }
    }
    if crate::runtime::clones_exactly::<U>() && crate::runtime::clones_exactly::<N>() {
        assert forall|i: int| 0 <= i < first.len() implies #[trigger] first[i] == second[i] by {
            if i < catalog.models.len() {
                assert(preset_cloned(catalog.models[i], first[i]));
                assert(preset_cloned(catalog.models[i], second[i]));
            } else {
                assert(first[i] == first.last());
                assert(second[i] == second.last());
            }
        }
        assert(first =~= second);
    }
}

/// The models that can be picked.
#[derive(Debug)]
pub struct ModelCatalog<U, N> {
    models: Vec<ModelPreset<U, N>>,
    collaboration_modes_config: CollaborationModesConfig,
}

/// A catalog as a mathematical value.
pub struct CatalogView<U, N> {
    pub models: Seq<PresetView<U, N>>,
    pub collaboration_modes_config: CollaborationModesConfig,
}

impl<U, N> View for ModelCatalog<U, N> {
    type V = CatalogView<U, N>;

    closed spec fn view(&self) -> CatalogView<U, N> {
        CatalogView {
            models: self.models.deep_view(),
            collaboration_modes_config: self.collaboration_modes_config,
        }
    }
}

impl<U, N> ModelCatalog<U, N> {
    /// A catalog of `models`.
    pub fn new(
        models: Vec<ModelPreset<U, N>>,
        collaboration_modes_config: CollaborationModesConfig,
    ) -> (catalog: Self)
        ensures
            catalog@ == (CatalogView { models: models.deep_view(), collaboration_modes_config }),
    {
        ModelCatalog { models, collaboration_modes_config }
    }

    /// How collaboration modes are set up.
    pub fn collaboration_modes_config(&self) -> (config: CollaborationModesConfig)
        ensures
            config == self@.collaboration_modes_config,
    {
        self.collaboration_modes_config
    }
}

impl<U: Clone, N: Clone> ModelCatalog<U, N> {
    /// A copy of each model of the catalog, in order, and last the local one. `input_modalities`
    /// is what models take by default.
    pub fn try_list_models(&self, input_modalities: Vec<InputModality>) -> (r: Result<
        Vec<ModelPreset<U, N>>,
        Infallible,
    >)
        ensures
            r matches Ok(models) && is_listing(models.deep_view(), self@, input_modalities@),
    {
        let mut models = self.models.clone();
        proof {
            assert forall|i: int| 0 <= i < self@.models.len() implies preset_cloned(
                self@.models[i],
                #[trigger] models.deep_view()[i],
            ) by {
                assert(cloned(self.models@[i], models@[i]));
            }
        }
        let ghost copies = models.deep_view();
        let local = local_ollama_gemma4_preset(input_modalities);
        models.push(local);
        proof {
            assert(models.deep_view() =~= copies.push(local.deep_view()));
        }
        Ok(models)
    }
}

/// Whether two lists of efforts are the same, each and in order.
pub open spec fn same_efforts(
    a: Seq<ReasoningEffortPreset>,
    b: Seq<ReasoningEffortPreset>,
) -> bool {
    &&& a.len() == b.len()
    &&& forall|i: int|
        0 <= i < a.len() ==> (#[trigger] a[i]).effort == b[i].effort && a[i].description@
            == b[i].description@
}

/// Whether two lists of texts are the same, each and in order.
pub open spec fn same_texts(a: Seq<String>, b: Seq<String>) -> bool {
    &&& a.len() == b.len()
    &&& forall|i: int| 0 <= i < a.len() ==> (#[trigger] a[i])@ == b[i]@
}

/// Whether a listed model is the catalog's: in every field, and in the parts of other types up to
/// cloning.
pub open spec fn is_listed_as<U: Clone, N: Clone>(
    model: ModelPreset<U, N>,
    listed: ModelPreset<U, N>,
) -> bool {
    &&& listed.id@ == model.id@
    &&& listed.model@ == model.model@
    &&& listed.display_name@ == model.display_name@
    &&& listed.description@ == model.description@
    &&& listed.default_reasoning_effort == model.default_reasoning_effort
    &&& same_efforts(model.supported_reasoning_efforts@, listed.supported_reasoning_efforts@)
    &&& listed.supports_personality == model.supports_personality
    &&& same_texts(model.additional_speed_tiers@, listed.additional_speed_tiers@)
    &&& listed.is_default == model.is_default
    &&& listed.upgrade is Some <==> model.upgrade is Some
    &&& model.upgrade is Some ==> cloned(model.upgrade->0, listed.upgrade->0)
    &&& listed.show_in_picker == model.show_in_picker
    &&& listed.availability_nux is Some <==> model.availability_nux is Some
    &&& model.availability_nux is Some ==> cloned(
        model.availability_nux->0,
        listed.availability_nux->0,
    )
    &&& listed.supported_in_api == model.supported_in_api
    &&& listed.input_modalities@ == model.input_modalities@
    &&& crate::chunk::shows_text(
        listed.provider_id,
        match model.provider_id {
            Some(id) => Some(id@),
            None => None,
        },
    )
}

/// Whether a model is the local one, field by field.
pub open spec fn is_local_model<U, N>(
    preset: ModelPreset<U, N>,
    input_modalities: Seq<InputModality>,
) -> bool {
    &&& preset.id@ == "ollama-gemma4-26b-a4b"@
    &&& preset.model@ == "gemma4:26b-a4b-it-q4_K_M"@
    &&& preset.display_name@ == "Gemma 4 26B-A4B (local Ollama)"@
    &&& preset.description@
        == "Local model via Ollama — requires `ollama` running on localhost:11434."@
    &&& preset.default_reasoning_effort is NoReasoning
    &&& preset.supported_reasoning_efforts@.len() == 1
    &&& preset.supported_reasoning_efforts@[0].effort is NoReasoning
    &&& preset.supported_reasoning_efforts@[0].description@ == "No reasoning"@
    &&& !preset.supports_personality
    &&& preset.additional_speed_tiers@.len() == 0
    &&& !preset.is_default
    &&& preset.upgrade is None
    &&& preset.show_in_picker
    &&& preset.availability_nux is None
    &&& preset.supported_in_api
    &&& preset.input_modalities@ == input_modalities
    &&& preset.provider_id matches Some(id) && id@ == "ollama"@
}

/// A preset that is a copy of another, as values, is its copy field by field.
proof fn lemma_copy_field_by_field<U: Clone, N: Clone>(
    model: ModelPreset<U, N>,
    listed: ModelPreset<U, N>,
)
    requires
        preset_cloned(model.deep_view(), listed.deep_view()),
    ensures
        is_listed_as(model, listed),
{
    let a = model.deep_view();
    let b = listed.deep_view();
    assert(a.supported_reasoning_efforts == b.supported_reasoning_efforts);
    assert forall|i: int| 0 <= i < model.supported_reasoning_efforts@.len() implies (
    #[trigger] model.supported_reasoning_efforts@[i]).effort
        == listed.supported_reasoning_efforts@[i].effort
        && model.supported_reasoning_efforts@[i].description@
        == listed.supported_reasoning_efforts@[i].description@ by {
        assert(a.supported_reasoning_efforts[i]
            == model.supported_reasoning_efforts@[i].deep_view());
        assert(b.supported_reasoning_efforts[i]
            == listed.supported_reasoning_efforts@[i].deep_view());
    }
    assert(a.additional_speed_tiers == b.additional_speed_tiers);
    assert forall|i: int| 0 <= i < model.additional_speed_tiers@.len() implies (
    #[trigger] model.additional_speed_tiers@[i])@ == listed.additional_speed_tiers@[i]@ by {
        assert(a.additional_speed_tiers[i] == model.additional_speed_tiers@[i]@);
        assert(b.additional_speed_tiers[i] == listed.additional_speed_tiers@[i]@);
    }
    assert(a.supported_reasoning_efforts.len() == model.supported_reasoning_efforts@.len());
    assert(b.supported_reasoning_efforts.len() == listed.supported_reasoning_efforts@.len());
    assert(a.additional_speed_tiers.len() == model.additional_speed_tiers@.len());
    assert(b.additional_speed_tiers.len() == listed.additional_speed_tiers@.len());
    assert(a.provider_id == b.provider_id);
}

/// A preset that is the local one, as a value, is it field by field.
proof fn lemma_local_field_by_field<U, N>(
    preset: ModelPreset<U, N>,
    input_modalities: Seq<InputModality>,
)
    requires
        preset.deep_view() == local_preset::<U, N>(input_modalities),
    ensures
        is_local_model(preset, input_modalities),
{
    let shown = preset.deep_view();
    assert(shown.supported_reasoning_efforts.len() == 1);
    assert(shown.supported_reasoning_efforts[0]
        == preset.supported_reasoning_efforts@[0].deep_view());
    assert(shown.additional_speed_tiers.len() == 0);
}

/// What `try_list_models` returns of a catalog that was made of `models`: each of them, in order and
/// field by field, and last the local one.
pub proof fn law_listed_models<U: Clone, N: Clone>(
    models: Vec<ModelPreset<U, N>>,
    config: CollaborationModesConfig,
    catalog: ModelCatalog<U, N>,
    input_modalities: Vec<InputModality>,
    r: Result<Vec<ModelPreset<U, N>>, Infallible>,
)
    requires
        call_ensures(ModelCatalog::<U, N>::new, (models, config), catalog),
        call_ensures(ModelCatalog::<U, N>::try_list_models, (&catalog, input_modalities), r),
    ensures
        r matches Ok(listed) && {
            &&& listed@.len() == models@.len() + 1
            &&& forall|i: int|
                0 <= i < models@.len() ==> is_listed_as(#[trigger] models@[i], listed@[i])
            &&& is_local_model(listed@[models@.len() as int], input_modalities@)
        },
{
    if let Ok(listed) = r {
        let shown = listed.deep_view();
        let known = models.deep_view();
        assert(catalog@.models == known);
        assert(shown.len() == listed@.len());
        assert forall|i: int| 0 <= i < models@.len() implies is_listed_as(
            #[trigger] models@[i],
            listed@[i],
        ) by {
            assert(preset_cloned(catalog@.models[i], shown[i]));
            assert(known[i] == models@[i].deep_view());
            assert(shown[i] == listed@[i].deep_view());
            lemma_copy_field_by_field(models@[i], listed@[i]);
        }
        let n = models@.len() as int;
        assert(shown.last() == shown[n]);
        assert(shown[n] == listed@[n].deep_view());
        lemma_local_field_by_field(listed@[n], input_modalities@);
    }
}

/// What `local_ollama_gemma4_preset` returns is the local model, field by field; and a catalog gives
/// back the setting of collaboration modes that it was made with.
pub proof fn law_local_model<U, N>(
    input_modalities: Vec<InputModality>,
    preset: ModelPreset<U, N>,
    models: Vec<ModelPreset<U, N>>,
    config: CollaborationModesConfig,
    catalog: ModelCatalog<U, N>,
    given: CollaborationModesConfig,
)
    requires
        call_ensures(local_ollama_gemma4_preset::<U, N>, (input_modalities,), preset),
        call_ensures(ModelCatalog::<U, N>::new, (models, config), catalog),
        call_ensures(ModelCatalog::<U, N>::collaboration_modes_config, (&catalog,), given),
    ensures
        is_local_model(preset, input_modalities@),
        given.default_mode_request_user_input == config.default_mode_request_user_input,
{
    lemma_local_field_by_field(preset, input_modalities@);
}

} // verus!
