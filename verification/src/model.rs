use vstd::prelude::*;
use crate::error::{EmbeddingError, EmbeddingErrorView};
use crate::path::{file_name_of, is_directory, is_regular_file, join_path, joined_path, path_file_name};
use crate::unicode::same_text;
use crate::utils::PathProbe;

verus! {

/// A pretrained model that the catalog knows, one per identifier from 1 to 11.
#[derive(Clone, Copy, Debug, PartialEq, Eq, Hash, Structural)]
pub enum Model {
    GraniteEmbeddingSmallEnglishR247m,
    GraniteEmbeddingEnglishR2149m,
    GraniteEmbeddingMultilingual107m,
    GraniteEmbeddingMultilingual278m,
    AllMiniLmL6V2,
    AllMiniLmL12V2,
    ParaphraseMultilingualMiniLmL12V2,
    MxbaiEmbedLargeV1,
    MxbaiEmbedXsmallV1,
    E5BaseV2,
    MultilingualE5Small,
}

/// The architecture family of a model: it decides how the model is loaded and run.
#[derive(Clone, Copy, Debug, PartialEq, Eq, Hash, Structural)]
pub enum ModelType {
    GraniteEnglishR2,
    GraniteMultilingual,
    AllMiniLmV2,
    ParaphraseMultilingualMiniLmL12V2,
    MxbaiEmbedV1,
    E5BaseV2,
    MultilingualE5Small,
}

/// Whether semantic search is part of this library: it is.
pub fn embedding_enabled() -> (enabled: bool)
    ensures
        enabled,
{
    true
}

/// Number of models in the catalog.
pub const MODEL_COUNT: usize = 11;

/// The model with a given identifier, if the catalog has one.
pub open spec fn model_of_id(id: int) -> Option<Model> {
    if id == 1 {
        Some(Model::GraniteEmbeddingSmallEnglishR247m)
    } else if id == 2 {
        Some(Model::GraniteEmbeddingEnglishR2149m)
    } else if id == 3 {
        Some(Model::GraniteEmbeddingMultilingual107m)
    } else if id == 4 {
        Some(Model::GraniteEmbeddingMultilingual278m)
    } else if id == 5 {
        Some(Model::AllMiniLmL6V2)
    } else if id == 6 {
        Some(Model::AllMiniLmL12V2)
    } else if id == 7 {
        Some(Model::ParaphraseMultilingualMiniLmL12V2)
    } else if id == 8 {
        Some(Model::MxbaiEmbedLargeV1)
    } else if id == 9 {
        Some(Model::MxbaiEmbedXsmallV1)
    } else if id == 10 {
        Some(Model::E5BaseV2)
    } else if id == 11 {
        Some(Model::MultilingualE5Small)
    } else {
        None
    }
}

/// File name of the weight container in a model directory.
pub open spec fn weights_file() -> Seq<char> {
    "model.safetensors"@
}

/// File name of the hyperparameter file in a model directory.
pub open spec fn config_file() -> Seq<char> {
    "config.json"@
}

/// File name of the tokenizer definition in a model directory.
pub open spec fn tokenizer_file() -> Seq<char> {
    "tokenizer.json"@
}

/// What was found on disk for a model directory.
#[derive(Clone, Copy, Debug, PartialEq, Eq, Structural)]
pub struct ArtifactProbe {
    /// The directory exists.
    pub directory: bool,
    /// The weight container exists in it as a file.
    pub weights: bool,
    /// The hyperparameter file exists in it as a file.
    pub config: bool,
    /// The tokenizer definition exists in it as a file.
    pub tokenizer: bool,
}

/// The three artifact paths of a model directory.
#[derive(Clone, Debug, PartialEq, Eq)]
pub struct ArtifactPaths {
    pub weights: String,
    pub config: String,
    pub tokenizer: String,
}

/// Mathematical value of [`ArtifactPaths`].
pub ghost struct ArtifactPathsView {
    pub weights: Seq<char>,
    pub config: Seq<char>,
    pub tokenizer: Seq<char>,
}

impl View for ArtifactPaths {
    type V = ArtifactPathsView;

    open spec fn view(&self) -> ArtifactPathsView {
        ArtifactPathsView {
            weights: self.weights@,
            config: self.config@,
            tokenizer: self.tokenizer@,
        }
    }
}

/// The artifact paths that belong to a model directory.
pub open spec fn artifact_paths_of(base: Seq<char>) -> ArtifactPathsView {
    ArtifactPathsView {
        weights: joined_path(base, weights_file()),
        config: joined_path(base, config_file()),
        tokenizer: joined_path(base, tokenizer_file()),
    }
}

/// The verdict on a model directory, given what was found on disk: the first
/// artifact missing is reported, in the order weights, hyperparameters,
/// tokenizer. In a directory that is not there the weights are missing.
pub open spec fn artifact_verdict(base: Seq<char>, probe: ArtifactProbe) -> Result<
    ArtifactPathsView,
    EmbeddingErrorView,
> {
    let paths = artifact_paths_of(base);
    if !probe.directory || !probe.weights {
        Err(EmbeddingErrorView::ArtifactNotFound { path: paths.weights })
    } else if !probe.config {
        Err(EmbeddingErrorView::ArtifactNotFound { path: paths.config })
    } else if !probe.tokenizer {
        Err(EmbeddingErrorView::ArtifactNotFound { path: paths.tokenizer })
    } else {
        Ok(paths)
    }
}

/// Mathematical value of the result of an artifact check.
pub open spec fn verdict_view(r: Result<ArtifactPaths, EmbeddingError>) -> Result<
    ArtifactPathsView,
    EmbeddingErrorView,
> {
    match r {
        Ok(paths) => Ok(paths@),
        Err(e) => Err(e@),
    }
}

/// Decides on a model directory from what was found on disk.
pub fn judge_artifacts(base_path: &str, probe: ArtifactProbe) -> (r: Result<
    ArtifactPaths,
    EmbeddingError,
>)
    ensures
        verdict_view(r) == artifact_verdict(base_path@, probe),
{
    let weights = join_path(base_path, "model.safetensors");
    if !probe.directory || !probe.weights {
        return Err(EmbeddingError::ArtifactNotFound { path: weights });
    }
    let config = join_path(base_path, "config.json");
    if !probe.config {
        return Err(EmbeddingError::ArtifactNotFound { path: config });
    }
    let tokenizer = join_path(base_path, "tokenizer.json");
    if !probe.tokenizer {
        return Err(EmbeddingError::ArtifactNotFound { path: tokenizer });
    }
    Ok(ArtifactPaths { weights, config, tokenizer })
}

impl Model {
    /// The identifier of this model.
    pub open spec fn spec_id(self) -> int {
        match self {
            Model::GraniteEmbeddingSmallEnglishR247m => 1,
            Model::GraniteEmbeddingEnglishR2149m => 2,
            Model::GraniteEmbeddingMultilingual107m => 3,
            Model::GraniteEmbeddingMultilingual278m => 4,
            Model::AllMiniLmL6V2 => 5,
            Model::AllMiniLmL12V2 => 6,
            Model::ParaphraseMultilingualMiniLmL12V2 => 7,
            Model::MxbaiEmbedLargeV1 => 8,
            Model::MxbaiEmbedXsmallV1 => 9,
            Model::E5BaseV2 => 10,
            Model::MultilingualE5Small => 11,
        }
    }

    /// The architecture family of this model.
    pub open spec fn spec_model_type(self) -> ModelType {
        match self {
            Model::GraniteEmbeddingSmallEnglishR247m => ModelType::GraniteEnglishR2,
            Model::GraniteEmbeddingEnglishR2149m => ModelType::GraniteEnglishR2,
            Model::GraniteEmbeddingMultilingual107m => ModelType::GraniteMultilingual,
            Model::GraniteEmbeddingMultilingual278m => ModelType::GraniteMultilingual,
            Model::AllMiniLmL6V2 => ModelType::AllMiniLmV2,
            Model::AllMiniLmL12V2 => ModelType::AllMiniLmV2,
            Model::ParaphraseMultilingualMiniLmL12V2 => ModelType::ParaphraseMultilingualMiniLmL12V2,
            Model::MxbaiEmbedLargeV1 => ModelType::MxbaiEmbedV1,
            Model::MxbaiEmbedXsmallV1 => ModelType::MxbaiEmbedV1,
            Model::E5BaseV2 => ModelType::E5BaseV2,
            Model::MultilingualE5Small => ModelType::MultilingualE5Small,
        }
    }

    /// The name of the directory that holds this model.
    pub open spec fn spec_name(self) -> Seq<char> {
        match self {
            Model::GraniteEmbeddingSmallEnglishR247m => "granite-embedding-small-english-r2"@,
            Model::GraniteEmbeddingEnglishR2149m => "granite-embedding-english-r2"@,
            Model::GraniteEmbeddingMultilingual107m => "granite-embedding-107m-multilingual"@,
            Model::GraniteEmbeddingMultilingual278m => "granite-embedding-278m-multilingual"@,
            Model::AllMiniLmL6V2 => "all-MiniLM-L6-v2"@,
            Model::AllMiniLmL12V2 => "all-MiniLM-L12-v2"@,
            Model::ParaphraseMultilingualMiniLmL12V2 => "paraphrase-multilingual-MiniLM-L12-v2"@,
            Model::MxbaiEmbedLargeV1 => "mxbai-embed-large-v1"@,
            Model::MxbaiEmbedXsmallV1 => "mxbai-embed-xsmall-v1"@,
            Model::E5BaseV2 => "e5-base-v2"@,
            Model::MultilingualE5Small => "multilingual-e5-small"@,
        }
    }

    /// Resolves an identifier: 1 to 11 name a model, anything else is refused.
    pub fn new(id: usize) -> (r: Result<Model, EmbeddingError>)
        ensures
            match r {
                Ok(m) => model_of_id(id as int) == Some(m) && m.spec_id() == id,
                Err(e) => model_of_id(id as int) is None && e@ == (
                EmbeddingErrorView::InvalidModelId { id }),
            },
            r is Ok <==> 1 <= id <= MODEL_COUNT,
    {
        match id {
            1 => Ok(Model::GraniteEmbeddingSmallEnglishR247m),
            2 => Ok(Model::GraniteEmbeddingEnglishR2149m),
            3 => Ok(Model::GraniteEmbeddingMultilingual107m),
            4 => Ok(Model::GraniteEmbeddingMultilingual278m),
            5 => Ok(Model::AllMiniLmL6V2),
            6 => Ok(Model::AllMiniLmL12V2),
            7 => Ok(Model::ParaphraseMultilingualMiniLmL12V2),
            8 => Ok(Model::MxbaiEmbedLargeV1),
            9 => Ok(Model::MxbaiEmbedXsmallV1),
            10 => Ok(Model::E5BaseV2),
            11 => Ok(Model::MultilingualE5Small),
            _ => Err(EmbeddingError::InvalidModelId { id }),
        }
    }

    /// The identifier under which [`Model::new`] finds this model.
    pub fn id(&self) -> (id: usize)
        ensures
            id == self.spec_id(),
            1 <= id <= MODEL_COUNT,
    {
        match self {
            Model::GraniteEmbeddingSmallEnglishR247m => 1,
            Model::GraniteEmbeddingEnglishR2149m => 2,
            Model::GraniteEmbeddingMultilingual107m => 3,
            Model::GraniteEmbeddingMultilingual278m => 4,
            Model::AllMiniLmL6V2 => 5,
            Model::AllMiniLmL12V2 => 6,
            Model::ParaphraseMultilingualMiniLmL12V2 => 7,
            Model::MxbaiEmbedLargeV1 => 8,
            Model::MxbaiEmbedXsmallV1 => 9,
            Model::E5BaseV2 => 10,
            Model::MultilingualE5Small => 11,
        }
    }

    /// The name of the directory that holds this model.
    pub fn name(&self) -> (name: &'static str)
        ensures
            name@ == self.spec_name(),
    {
        match self {
            Model::GraniteEmbeddingSmallEnglishR247m => "granite-embedding-small-english-r2",
            Model::GraniteEmbeddingEnglishR2149m => "granite-embedding-english-r2",
            Model::GraniteEmbeddingMultilingual107m => "granite-embedding-107m-multilingual",
            Model::GraniteEmbeddingMultilingual278m => "granite-embedding-278m-multilingual",
            Model::AllMiniLmL6V2 => "all-MiniLM-L6-v2",
            Model::AllMiniLmL12V2 => "all-MiniLM-L12-v2",
            Model::ParaphraseMultilingualMiniLmL12V2 => "paraphrase-multilingual-MiniLM-L12-v2",
            Model::MxbaiEmbedLargeV1 => "mxbai-embed-large-v1",
            Model::MxbaiEmbedXsmallV1 => "mxbai-embed-xsmall-v1",
            Model::E5BaseV2 => "e5-base-v2",
            Model::MultilingualE5Small => "multilingual-e5-small",
        }
    }

    /// The architecture family and the directory of this model under `base_path`.
    pub fn model_type_and_path(&self, base_path: &str) -> (r: (ModelType, String))
        ensures
            r.0 == self.spec_model_type(),
            r.1@ == joined_path(base_path@, self.spec_name()),
    {
        (self.model_type(), join_path(base_path, self.name()))
    }

    /// The architecture family of this model.
    pub fn model_type(&self) -> (t: ModelType)
        ensures
            t == self.spec_model_type(),
    {
        match self {
            Model::GraniteEmbeddingSmallEnglishR247m => ModelType::GraniteEnglishR2,
            Model::GraniteEmbeddingEnglishR2149m => ModelType::GraniteEnglishR2,
            Model::GraniteEmbeddingMultilingual107m => ModelType::GraniteMultilingual,
            Model::GraniteEmbeddingMultilingual278m => ModelType::GraniteMultilingual,
            Model::AllMiniLmL6V2 => ModelType::AllMiniLmV2,
            Model::AllMiniLmL12V2 => ModelType::AllMiniLmV2,
            Model::ParaphraseMultilingualMiniLmL12V2 => ModelType::ParaphraseMultilingualMiniLmL12V2,
            Model::MxbaiEmbedLargeV1 => ModelType::MxbaiEmbedV1,
            Model::MxbaiEmbedXsmallV1 => ModelType::MxbaiEmbedV1,
            Model::E5BaseV2 => ModelType::E5BaseV2,
            Model::MultilingualE5Small => ModelType::MultilingualE5Small,
        }
    }
}


/// The model whose directory has a given name, if the catalog has one.
pub open spec fn model_of_name(name: Seq<char>) -> Option<Model> {
    if exists|id: int| 1 <= id <= MODEL_COUNT && (#[trigger] model_of_id(id))->0.spec_name() == name {
        model_of_id(
            choose|id: int| 1 <= id <= MODEL_COUNT && (#[trigger] model_of_id(id))->0.spec_name() == name,
        )
    } else {
        None
    }
}

/// Mathematical value of an entry of the catalog that was found on disk.
pub ghost struct CatalogEntryView {
    pub model_type: ModelType,
    pub model: Model,
    pub paths: ArtifactPathsView,
}

/// A model directory that was recognised, with its artifacts.
#[derive(Clone, Debug, PartialEq, Eq)]
pub struct CatalogEntry {
    pub model_type: ModelType,
    pub model: Model,
    pub paths: ArtifactPaths,
}

impl View for CatalogEntry {
    type V = CatalogEntryView;

    open spec fn view(&self) -> CatalogEntryView {
        CatalogEntryView { model_type: self.model_type, model: self.model, paths: self.paths@ }
    }
}

/// Mathematical value of the result of a catalog check.
pub open spec fn entry_view(r: Result<Option<CatalogEntry>, EmbeddingError>) -> Result<
    Option<CatalogEntryView>,
    EmbeddingErrorView,
> {
    match r {
        Ok(Some(entry)) => Ok(Some(entry@)),
        Ok(None) => Ok(None),
        Err(e) => Err(e@),
    }
}

/// Mathematical value of three artifact paths: weights, hyperparameters,
/// tokenizer.
pub open spec fn files_view(files: (String, String, String)) -> ArtifactPathsView {
    ArtifactPathsView { weights: files.0@, config: files.1@, tokenizer: files.2@ }
}

/// Mathematical value of the result of a check of the artifacts on disk.
pub open spec fn found_files_view(r: Result<(String, String, String), EmbeddingError>) -> Result<
    ArtifactPathsView,
    EmbeddingErrorView,
> {
    match r {
        Ok(files) => Ok(files_view(files)),
        Err(e) => Err(e@),
    }
}

/// Mathematical value of the result of a check of a model directory on disk.
pub open spec fn found_model_view(
    r: Result<Option<(ModelType, Model, (String, String, String))>, EmbeddingError>,
) -> Result<Option<CatalogEntryView>, EmbeddingErrorView> {
    match r {
        Ok(Some(found)) => Ok(
            Some(CatalogEntryView { model_type: found.0, model: found.1, paths: files_view(found.2) }),
        ),
        Ok(None) => Ok(None),
        Err(e) => Err(e@),
    }
}

/// The verdict on a directory that may hold a model, given what was found on
/// disk: in a directory that is not there the weights are missing; a directory
/// whose name is not that of a model is passed over; a model directory is held
/// to its three artifacts.
pub open spec fn catalog_verdict(base: Seq<char>, probe: ArtifactProbe) -> Result<
    Option<CatalogEntryView>,
    EmbeddingErrorView,
> {
    if !probe.directory {
        Err(EmbeddingErrorView::ArtifactNotFound { path: artifact_paths_of(base).weights })
    } else if path_file_name(base) is None {
        Ok(None)
    } else {
        match model_of_name(path_file_name(base)->0) {
            None => Ok(None),
            Some(model) => match artifact_verdict(base, probe) {
                Ok(paths) => Ok(
                    Some(CatalogEntryView { model_type: model.spec_model_type(), model, paths }),
                ),
                Err(e) => Err(e),
            },
        }
    }
}

/// The names of the models differ from each other. The lengths alone tell most
/// of them apart; the rest differ in a character.
pub proof fn lemma_model_names_distinct(a: Model, b: Model)
    requires
        a.spec_name() == b.spec_name(),
    ensures
        a == b,
{
    reveal_strlit("granite-embedding-small-english-r2");
    reveal_strlit("granite-embedding-english-r2");
    reveal_strlit("granite-embedding-107m-multilingual");
    reveal_strlit("granite-embedding-278m-multilingual");
    reveal_strlit("all-MiniLM-L6-v2");
    reveal_strlit("all-MiniLM-L12-v2");
    reveal_strlit("paraphrase-multilingual-MiniLM-L12-v2");
    reveal_strlit("mxbai-embed-large-v1");
    reveal_strlit("mxbai-embed-xsmall-v1");
    reveal_strlit("e5-base-v2");
    reveal_strlit("multilingual-e5-small");
    if a != b {
        let x = a.spec_name();
        let y = b.spec_name();
        assert(x.len() == y.len());
        assert(x[0] == y[0]);
        assert(x[18] == y[18]);
    }
}

/// Looking a model up by the name of its directory finds it again.
pub proof fn lemma_model_of_name(m: Model)
    ensures
        model_of_name(m.spec_name()) == Some(m),
        model_of_id(m.spec_id()) == Some(m),
        1 <= m.spec_id() <= MODEL_COUNT,
{
    let name = m.spec_name();
    let id = m.spec_id();
    assert(model_of_id(id) == Some(m));
    assert(1 <= id <= MODEL_COUNT && model_of_id(id)->0.spec_name() == name);
    let found = choose|id: int| 1 <= id <= MODEL_COUNT && (#[trigger] model_of_id(id))->0.spec_name() == name;
    lemma_model_names_distinct(model_of_id(found)->0, m);
}

/// Looking up a name that no model has finds nothing.
pub proof fn lemma_model_of_unknown_name(name: Seq<char>)
    requires
        forall|id: int| 1 <= id <= MODEL_COUNT ==> (#[trigger] model_of_id(id))->0.spec_name() != name,
    ensures
        model_of_name(name) is None,
{
}

/// What was looked at on disk for a model directory: whether the directory is
/// there, and each of the three artifacts by the path that was looked at.
#[derive(Clone, Debug, PartialEq, Eq)]
pub struct ProbedArtifacts {
    /// The directory is there.
    pub directory: bool,
    pub weights: PathProbe,
    pub config: PathProbe,
    pub tokenizer: PathProbe,
}

impl ProbedArtifacts {
    /// The paths that were looked at.
    pub open spec fn paths(&self) -> ArtifactPathsView {
        ArtifactPathsView {
            weights: self.weights.path@,
            config: self.config.path@,
            tokenizer: self.tokenizer.path@,
        }
    }

    /// What was found.
    pub fn found(&self) -> (probe: ArtifactProbe)
        ensures
            probe == (ArtifactProbe {
                directory: self.directory,
                weights: self.weights.is_file,
                config: self.config.is_file,
                tokenizer: self.tokenizer.is_file,
            }),
    {
        ArtifactProbe {
            directory: self.directory,
            weights: self.weights.is_file,
            config: self.config.is_file,
            tokenizer: self.tokenizer.is_file,
        }
    }
}

/// Looks at the disk for a file, where what comes before it was found; else
/// the file counts as not found.
pub fn probe_after(before: bool, path: String) -> (probe: PathProbe)
    ensures
        probe.path@ == path@,
        !before ==> !probe.is_file,
{
    let is_file = before && is_regular_file(path.as_str());
    PathProbe { path, is_file }
}

impl Model {
    /// The model whose directory has this name, if the catalog has one.
    pub fn from_name(name: &str) -> (r: Option<Model>)
        ensures
            r == model_of_name(name@),
    {
        let mut id: usize = 1;
        while id <= MODEL_COUNT
            invariant
                1 <= id <= MODEL_COUNT + 1,
                forall|k: int| 1 <= k < id ==> (#[trigger] model_of_id(k))->0.spec_name() != name@,
            decreases MODEL_COUNT + 1 - id,
        {
            match Model::new(id) {
                Ok(m) => {
                    if same_text(m.name(), name) {
                        proof {
                            lemma_model_of_name(m);
                        }
                        return Some(m);
                    }
                },
                Err(_) => {},
            }
            id = id + 1;
        }
        proof {
            lemma_model_of_unknown_name(name@);
        }
        None
    }

    /// Decides on a directory that may hold a model from what was found on disk.
    pub fn judge_model_directory(base_path: &str, probe: ArtifactProbe) -> (r: Result<
        Option<CatalogEntry>,
        EmbeddingError,
    >)
        ensures
            entry_view(r) == catalog_verdict(base_path@, probe),
    {
        if !probe.directory {
            return Err(
                EmbeddingError::ArtifactNotFound {
                    path: join_path(base_path, "model.safetensors"),
                },
            );
        }
        match file_name_of(base_path) {
            None => Ok(None),
            Some(name) => match Model::from_name(name.as_str()) {
                None => Ok(None),
                Some(model) => match judge_artifacts(base_path, probe) {
                    Ok(paths) => Ok(
                        Some(CatalogEntry { model_type: model.model_type(), model, paths }),
                    ),
                    Err(e) => Err(e),
                },
            },
        }
    }

    /// Looks at the disk for the directory and the three artifacts of a model:
    /// the weights, the hyperparameters and the tokenizer under `base_path`.
    /// An artifact is looked for only where all that comes before it was
    /// found; one that was not looked for counts as not found.
    pub fn probe_artifacts(base_path: &str) -> (probed: ProbedArtifacts)
        ensures
            probed.paths() == artifact_paths_of(base_path@),
            !probed.directory ==> !probed.weights.is_file,
            !probed.weights.is_file ==> !probed.config.is_file,
            !probed.config.is_file ==> !probed.tokenizer.is_file,
    {
        let directory = is_directory(base_path);
        let weights = probe_after(directory, join_path(base_path, "model.safetensors"));
        let config = probe_after(weights.is_file, join_path(base_path, "config.json"));
        let tokenizer = probe_after(config.is_file, join_path(base_path, "tokenizer.json"));
        ProbedArtifacts { directory, weights, config, tokenizer }
    }

    /// Checks whether `base_path` is the directory of a known model with its
    /// three artifacts in place. What is on disk decides; whatever it is, the
    /// result is the verdict on it.
    pub fn check_model(base_path: &str) -> (r: Result<
        Option<(ModelType, Model, (String, String, String))>,
        EmbeddingError,
    >)
        ensures
            exists|probe: ArtifactProbe| found_model_view(r) == #[trigger] catalog_verdict(base_path@, probe),
    {
        let probe = Model::probe_artifacts(base_path).found();
        match Model::judge_model_directory(base_path, probe) {
            Ok(Some(entry)) => Ok(
                Some(
                    (
                        entry.model_type,
                        entry.model,
                        (entry.paths.weights, entry.paths.config, entry.paths.tokenizer),
                    ),
                ),
            ),
            Ok(None) => Ok(None),
            Err(e) => Err(e),
        }
    }

    /// Checks that `base_path` is a directory with the three artifacts of a
    /// model in place: the weights, the hyperparameters and the tokenizer, in
    /// this order. What is on disk decides; whatever it is, the result is the
    /// verdict on it.
    pub fn check_model_files(base_path: &str) -> (r: Result<(String, String, String), EmbeddingError>)
        ensures
            exists|probe: ArtifactProbe| found_files_view(r) == #[trigger] artifact_verdict(base_path@, probe),
    {
        let probe = Model::probe_artifacts(base_path).found();
        match judge_artifacts(base_path, probe) {
            Ok(paths) => Ok((paths.weights, paths.config, paths.tokenizer)),
            Err(e) => Err(e),
        }
    }
}

} // verus!
