use vstd::prelude::*;

verus! {

/// Failures of the model catalog and of the embedding backends.
#[derive(Clone, Debug, PartialEq, Eq)]
pub enum EmbeddingError {
    /// A required artifact of a model directory is not on disk.
    ArtifactNotFound { path: String },
    /// The hyperparameter file is not the JSON that the architecture expects.
    ConfigParseError { detail: String },
    /// The weight container declares an element type that the runtime cannot hold.
    UnsupportedDtype { name: String },
    /// The tokenizer definition is malformed.
    TokenizerLoadError { detail: String },
    /// The tokenizer could not encode a text.
    TokenizerEncodeError { detail: String },
    /// The forward pass, the pooling or the weight container failed.
    InferenceError { detail: String },
    /// No model has this identifier.
    InvalidModelId { id: usize },
    /// The accelerator that was selected could not be opened.
    DeviceUnavailable,
}

/// Mathematical value of an [`EmbeddingError`].
pub ghost enum EmbeddingErrorView {
    ArtifactNotFound { path: Seq<char> },
    ConfigParseError { detail: Seq<char> },
    UnsupportedDtype { name: Seq<char> },
    TokenizerLoadError { detail: Seq<char> },
    TokenizerEncodeError { detail: Seq<char> },
    InferenceError { detail: Seq<char> },
    InvalidModelId { id: usize },
    DeviceUnavailable,
}

impl View for EmbeddingError {
    type V = EmbeddingErrorView;

    open spec fn view(&self) -> EmbeddingErrorView {
        match *self {
            EmbeddingError::ArtifactNotFound { path } => EmbeddingErrorView::ArtifactNotFound {
                path: path@,
            },
            EmbeddingError::ConfigParseError { detail } => EmbeddingErrorView::ConfigParseError {
                detail: detail@,
            },
            EmbeddingError::UnsupportedDtype { name } => EmbeddingErrorView::UnsupportedDtype {
                name: name@,
            },
            EmbeddingError::TokenizerLoadError { detail } => EmbeddingErrorView::TokenizerLoadError {
                detail: detail@,
            },
            EmbeddingError::TokenizerEncodeError { detail } => EmbeddingErrorView::TokenizerEncodeError {
                detail: detail@,
            },
            EmbeddingError::InferenceError { detail } => EmbeddingErrorView::InferenceError {
                detail: detail@,
            },
            EmbeddingError::InvalidModelId { id } => EmbeddingErrorView::InvalidModelId { id },
            EmbeddingError::DeviceUnavailable => EmbeddingErrorView::DeviceUnavailable,
        }
    }
}


/// Failures of the snippet store and of what is asked of it.
#[derive(Clone, Debug, PartialEq, Eq)]
pub enum MyError {
    /// The modes of a query cannot be used together, or none was given.
    InvalidQueryCombination,
    /// No snippet has this id.
    SnippetIdOutOfRange { id: usize },
    /// A text that should be a number is none.
    ParseStringError { from: String, to: String },
    /// A text that should be the name of a tag is none.
    UnknownTag { name: String },
    /// The number of results asked for is zero.
    InvalidTopNum,
    /// A snippet file that was named is not on disk.
    FileNotExistError { file: String },
    /// A variable of the environment holds what is no text.
    EnvVarError { name: String },
    /// None of the places where models are looked for holds the model.
    ModelNotFound { binary_path: String },
    /// The model catalog or an embedding backend failed.
    EmbeddingError { error: EmbeddingError },
}

/// Mathematical value of a [`MyError`].
pub ghost enum MyErrorView {
    InvalidQueryCombination,
    SnippetIdOutOfRange { id: usize },
    ParseStringError { from: Seq<char>, to: Seq<char> },
    UnknownTag { name: Seq<char> },
    InvalidTopNum,
    FileNotExistError { file: Seq<char> },
    EnvVarError { name: Seq<char> },
    ModelNotFound { binary_path: Seq<char> },
    EmbeddingError { error: EmbeddingErrorView },
}

impl View for MyError {
    type V = MyErrorView;

    open spec fn view(&self) -> MyErrorView {
        match *self {
            MyError::InvalidQueryCombination => MyErrorView::InvalidQueryCombination,
            MyError::SnippetIdOutOfRange { id } => MyErrorView::SnippetIdOutOfRange { id },
            MyError::ParseStringError { from, to } => MyErrorView::ParseStringError {
                from: from@,
                to: to@,
            },
            MyError::UnknownTag { name } => MyErrorView::UnknownTag { name: name@ },
            MyError::InvalidTopNum => MyErrorView::InvalidTopNum,
            MyError::FileNotExistError { file } => MyErrorView::FileNotExistError { file: file@ },
            MyError::EnvVarError { name } => MyErrorView::EnvVarError { name: name@ },
            MyError::ModelNotFound { binary_path } => MyErrorView::ModelNotFound {
                binary_path: binary_path@,
            },
            MyError::EmbeddingError { error } => MyErrorView::EmbeddingError { error: error@ },
        }
    }
}

} // verus!
