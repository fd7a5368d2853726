use vstd::prelude::*;
use crate::error::{MyError, MyErrorView};
use crate::error::EmbeddingErrorView;
use crate::model::{Model, ModelType, ArtifactPathsView, ArtifactProbe, CatalogEntry, CatalogEntryView, artifact_paths_of, artifact_verdict, judge_artifacts, model_of_id};
use crate::path::{is_directory, joined_path};
use crate::utils::{PathProbe, get_snippets, path_texts, probe_paths, snippet_files_of};
use crate::tag::{SnipTag, TagTable, tag_named};
use crate::text::{split_at, pieces, parse_usize, parsed_usize, lines_view};
use crate::unicode::{chars_of, lowercase, lowercased, same_text, text_of};

verus! {

/// The model that a semantic query runs on, with its artifacts and settings.
#[derive(Clone, Debug, PartialEq, Eq)]
pub struct ModelInfo {
    pub model: Model,
    pub model_type: ModelType,
    pub model_path: String,
    pub config_path: String,
    pub tokenizer_path: String,
    /// The number of most similar results to return.
    pub top_num: usize,
    pub use_cpu: bool,
}

/// The number of results of a semantic query where none is asked for.
pub const DEFAULT_TOP_NUM: usize = 5;

/// What the environment holds for a variable.
#[derive(Clone, Debug, PartialEq, Eq)]
pub enum EnvVar {
    /// The variable is not set.
    Unset,
    /// The variable is set to what is no text.
    NotUnicode,
    /// The variable is set to this text.
    Text { value: String },
}

/// Mathematical value of an [`EnvVar`].
pub ghost enum EnvVarView {
    Unset,
    NotUnicode,
    Text { value: Seq<char> },
}

impl View for EnvVar {
    type V = EnvVarView;

    open spec fn view(&self) -> EnvVarView {
        match *self {
            EnvVar::Unset => EnvVarView::Unset,
            EnvVar::NotUnicode => EnvVarView::NotUnicode,
            EnvVar::Text { value } => EnvVarView::Text { value: value@ },
        }
    }
}

/// Whether the modes of a request can be used together: ids alone, a summary
/// alone, or tags, a search, or tags with a search.
pub open spec fn modes_allowed(ids: bool, tags: bool, search: bool, summary: bool) -> bool {
    if ids {
        !tags && !search && !summary
    } else if summary {
        !tags && !search
    } else {
        tags || search
    }
}

/// Checks that the modes of a request can be used together.
pub fn check_modes(ids: bool, tags: bool, search: bool, summary: bool) -> (r: Result<(), MyError>)
    ensures
        r is Ok <==> modes_allowed(ids, tags, search, summary),
        r is Err ==> r->Err_0@ == MyErrorView::InvalidQueryCombination,
{
    let allowed = if ids {
        !tags && !search && !summary
    } else if summary {
        !tags && !search
    } else {
        tags || search
    };
    if allowed {
        Ok(())
    } else {
        Err(MyError::InvalidQueryCombination)
    }
}

/// The number of results that a request asks for: the argument where it is
/// given, else the variable where it is set, else the default. Zero is refused.
pub open spec fn top_num_of(arg: Option<usize>, env: EnvVarView) -> Result<usize, MyErrorView> {
    match arg {
        Some(n) => if n == 0 {
            Err(MyErrorView::InvalidTopNum)
        } else {
            Ok(n)
        },
        None => match env {
            EnvVarView::Unset => Ok(DEFAULT_TOP_NUM),
            EnvVarView::NotUnicode => Err(MyErrorView::EnvVarError { name: "SNIPPETS_NUM"@ }),
            EnvVarView::Text { value } => match parsed_usize(value) {
                Some(n) => if n == 0 {
                    Err(MyErrorView::InvalidTopNum)
                } else {
                    Ok(n)
                },
                None => Err(MyErrorView::ParseStringError { from: value, to: "usize"@ }),
            },
        },
    }
}

/// Settles the number of results that a request asks for.
pub fn resolve_top_num(arg: Option<usize>, env: &EnvVar) -> (r: Result<usize, MyError>)
    ensures
        match r {
            Ok(n) => top_num_of(arg, env@) == Ok::<usize, MyErrorView>(n),
            Err(e) => top_num_of(arg, env@) == Err::<usize, MyErrorView>(e@),
        },
        r is Ok ==> r->Ok_0 > 0,
{
    match arg {
        Some(n) => if n == 0 {
            Err(MyError::InvalidTopNum)
        } else {
            Ok(n)
        },
        None => match env {
            EnvVar::Unset => Ok(DEFAULT_TOP_NUM),
            EnvVar::NotUnicode => Err(MyError::EnvVarError { name: "SNIPPETS_NUM".to_owned() }),
            EnvVar::Text { value } => match parse_usize(&chars_of(value.as_str())) {
                Some(n) => if n == 0 {
                    Err(MyError::InvalidTopNum)
                } else {
                    Ok(n)
                },
                None => Err(
                    MyError::ParseStringError { from: value.clone(), to: "usize".to_owned() },
                ),
            },
        },
    }
}

/// A switch of a request: on where the argument is given, else on where the
/// variable `name` is set to `true`.
pub open spec fn flag_of(arg: bool, env: EnvVarView, name: Seq<char>) -> Result<bool, MyErrorView> {
    if arg {
        Ok(true)
    } else {
        match env {
            EnvVarView::Unset => Ok(false),
            EnvVarView::NotUnicode => Err(MyErrorView::EnvVarError { name }),
            EnvVarView::Text { value } => Ok(value == "true"@),
        }
    }
}

/// Settles a switch of a request.
pub fn resolve_flag(arg: bool, env: &EnvVar, name: &str) -> (r: Result<bool, MyError>)
    ensures
        match r {
            Ok(on) => flag_of(arg, env@, name@) == Ok::<bool, MyErrorView>(on),
            Err(e) => flag_of(arg, env@, name@) == Err::<bool, MyErrorView>(e@),
        },
{
    if arg {
        return Ok(true);
    }
    match env {
        EnvVar::Unset => Ok(false),
        EnvVar::NotUnicode => Err(MyError::EnvVarError { name: name.to_owned() }),
        EnvVar::Text { value } => Ok(same_text(value.as_str(), "true")),
    }
}

/// A text of a request: the argument where it is given, else the variable
/// `name` where it is set, else the default.
pub open spec fn text_setting(
    arg: Option<Seq<char>>,
    env: EnvVarView,
    name: Seq<char>,
    default: Seq<char>,
) -> Result<Seq<char>, MyErrorView> {
    match arg {
        Some(text) => Ok(text),
        None => match env {
            EnvVarView::Unset => Ok(default),
            EnvVarView::NotUnicode => Err(MyErrorView::EnvVarError { name }),
            EnvVarView::Text { value } => Ok(value),
        },
    }
}

/// The text of an optional string.
pub open spec fn opt_text(text: Option<String>) -> Option<Seq<char>> {
    match text {
        Some(t) => Some(t@),
        None => None,
    }
}

/// Settles a text of a request.
pub fn resolve_text(arg: &Option<String>, env: &EnvVar, name: &str, default: &str) -> (r: Result<
    String,
    MyError,
>)
    ensures
        match r {
            Ok(text) => text_setting(opt_text(*arg), env@, name@, default@) == Ok::<
                Seq<char>,
                MyErrorView,
            >(text@),
            Err(e) => text_setting(opt_text(*arg), env@, name@, default@) == Err::<
                Seq<char>,
                MyErrorView,
            >(e@),
        },
{
    match arg {
        Some(text) => Ok(text.clone()),
        None => match env {
            EnvVar::Unset => Ok(default.to_owned()),
            EnvVar::NotUnicode => Err(MyError::EnvVarError { name: name.to_owned() }),
            EnvVar::Text { value } => Ok(value.clone()),
        },
    }
}

/// The ids that a list of texts writes; the first text that is no number fails
/// the list.
pub open spec fn ids_of(parts: Seq<Seq<char>>) -> Result<Seq<usize>, MyErrorView>
    decreases parts.len(),
{
    if parts.len() == 0 {
        Ok(Seq::empty())
    } else {
        match ids_of(parts.drop_last()) {
            Err(e) => Err(e),
            Ok(ids) => match parsed_usize(parts.last()) {
                Some(id) => Ok(ids.push(id)),
                None => Err(MyErrorView::ParseStringError { from: parts.last(), to: "usize"@ }),
            },
        }
    }
}

/// Reads a list of ids, written with commas between them.
pub fn parse_ids(text: &str) -> (r: Result<Vec<usize>, MyError>)
    ensures
        match r {
            Ok(ids) => ids_of(pieces(text@, ',')) == Ok::<Seq<usize>, MyErrorView>(ids@),
            Err(e) => ids_of(pieces(text@, ',')) == Err::<Seq<usize>, MyErrorView>(e@),
        },
{
    let parts = split_at(&chars_of(text), ',');
    let ghost all = pieces(text@, ',');
    let mut ids: Vec<usize> = Vec::new();
    let mut i: usize = 0;
    while i < parts.len()
        invariant
            0 <= i <= parts.len(),
            lines_view(parts@) == all,
            all == pieces(text@, ','),
            ids_of(all.take(i as int)) == Ok::<Seq<usize>, MyErrorView>(ids@),
        decreases parts.len() - i,
    {
        proof {
            assert(all.take(i + 1).drop_last() =~= all.take(i as int));
            assert(all.take(i + 1).last() == parts@[i as int]@);
        }
        match parse_usize(&parts[i]) {
            Some(id) => {
                ids.push(id);
            },
            None => {
                let e = MyError::ParseStringError {
                    from: text_of(&parts[i]),
                    to: "usize".to_owned(),
                };
                proof {
                    assert(ids_of(all.take(i + 1)) == Err::<Seq<usize>, MyErrorView>(e@));
                    lemma_ids_fail(all, i + 1);
                }
                return Err(e);
            },
        }
        i = i + 1;
    }
    proof {
        assert(all.take(i as int) =~= all);
    }
    Ok(ids)
}

/// A list of ids whose beginning fails, fails in the same way.
pub proof fn lemma_ids_fail(parts: Seq<Seq<char>>, n: int)
    requires
        0 <= n <= parts.len(),
        ids_of(parts.take(n)) is Err,
    ensures
        ids_of(parts) == ids_of(parts.take(n)),
    decreases parts.len(),
{
    if n == parts.len() {
        assert(parts.take(n) =~= parts);
    } else {
        assert(parts.drop_last().take(n) =~= parts.take(n));
        lemma_ids_fail(parts.drop_last(), n);
    }
}

/// The key under which a tag is looked up.
pub open spec fn tag_key(part: Seq<char>, lower_each: bool) -> Seq<char> {
    if lower_each {
        lowercased(part)
    } else {
        part
    }
}

/// The tags that a list of names writes; the first name that no tag has fails
/// the list.
pub open spec fn tags_of(names: Seq<Seq<char>>, parts: Seq<Seq<char>>, lower_each: bool) -> Result<
    Seq<SnipTag>,
    MyErrorView,
>
    decreases parts.len(),
{
    if parts.len() == 0 {
        Ok(Seq::empty())
    } else {
        match tags_of(names, parts.drop_last(), lower_each) {
            Err(e) => Err(e),
            Ok(tags) => match tag_named(names, tag_key(parts.last(), lower_each)) {
                Some(tag) => Ok(tags.push(tag)),
                None => Err(MyErrorView::UnknownTag { name: parts.last() }),
            },
        }
    }
}

/// A list of names whose beginning fails, fails in the same way.
pub proof fn lemma_tags_fail(names: Seq<Seq<char>>, parts: Seq<Seq<char>>, lower_each: bool, n: int)
    requires
        0 <= n <= parts.len(),
        tags_of(names, parts.take(n), lower_each) is Err,
    ensures
        tags_of(names, parts, lower_each) == tags_of(names, parts.take(n), lower_each),
    decreases parts.len(),
{
    if n == parts.len() {
        assert(parts.take(n) =~= parts);
    } else {
        assert(parts.drop_last().take(n) =~= parts.take(n));
        lemma_tags_fail(names, parts.drop_last(), lower_each, n);
    }
}

/// Reads a list of tags from their names, written with commas between them.
/// With `lower_each` a name is looked up in lowercase, else as it stands.
pub fn tags_from(table: &TagTable, text: &str, lower_each: bool) -> (r: Result<Vec<SnipTag>, MyError>)
    ensures
        match r {
            Ok(tags) => tags_of(table.names(), pieces(text@, ','), lower_each) == Ok::<
                Seq<SnipTag>,
                MyErrorView,
            >(tags@),
            Err(e) => tags_of(table.names(), pieces(text@, ','), lower_each) == Err::<
                Seq<SnipTag>,
                MyErrorView,
            >(e@),
        },
{
    let parts = split_at(&chars_of(text), ',');
    let ghost all = pieces(text@, ',');
    let mut tags: Vec<SnipTag> = Vec::new();
    let mut i: usize = 0;
    while i < parts.len()
        invariant
            0 <= i <= parts.len(),
            lines_view(parts@) == all,
            all == pieces(text@, ','),
            tags_of(table.names(), all.take(i as int), lower_each) == Ok::<Seq<SnipTag>, MyErrorView>(
                tags@,
            ),
        decreases parts.len() - i,
    {
        proof {
            assert(all.take(i + 1).drop_last() =~= all.take(i as int));
            assert(all.take(i + 1).last() == parts@[i as int]@);
        }
        let part = text_of(&parts[i]);
        let found = if lower_each {
            table.string_to_tag(lowercase(part.as_str()).as_str())
        } else {
            table.string_to_tag(part.as_str())
        };
        match found {
            Some(tag) => {
                tags.push(tag);
            },
            None => {
                let e = MyError::UnknownTag { name: part };
                proof {
                    assert(tags_of(table.names(), all.take(i + 1), lower_each) == Err::<
                        Seq<SnipTag>,
                        MyErrorView,
                    >(e@));
                    lemma_tags_fail(table.names(), all, lower_each, i + 1);
                }
                return Err(e);
            },
        }
        i = i + 1;
    }
    proof {
        assert(all.take(i as int) =~= all);
    }
    Ok(tags)
}

/// The tags that a request for a summary names: all of them for `all`,
/// whatever the case of its letters, else those whose names in lowercase are
/// listed.
pub open spec fn summary_of(names: Seq<Seq<char>>, text: Seq<char>) -> Result<Seq<SnipTag>, MyErrorView> {
    if lowercased(text) == "all"@ {
        Ok(Seq::new(names.len(), |i: int| SnipTag { code: i as usize }))
    } else {
        tags_of(names, pieces(lowercased(text), ','), false)
    }
}

/// Reads the tags that a request for a summary names.
pub fn parse_summary(table: &TagTable, text: &str) -> (r: Result<Vec<SnipTag>, MyError>)
    ensures
        match r {
            Ok(tags) => summary_of(table.names(), text@) == Ok::<Seq<SnipTag>, MyErrorView>(tags@),
            Err(e) => summary_of(table.names(), text@) == Err::<Seq<SnipTag>, MyErrorView>(e@),
        },
{
    let lower = lowercase(text);
    if same_text(lower.as_str(), "all") {
        let tags = table.all_tags();
        proof {
            assert(tags@ =~= Seq::new(table.names().len(), |i: int| SnipTag { code: i as usize }));
        }
        Ok(tags)
    } else {
        tags_from(table, lower.as_str(), false)
    }
}


/// What was given on the command line, as it was given.
#[derive(Clone, Debug, PartialEq, Eq)]
pub struct Paras {
    pub id: Option<String>,
    pub tag: Option<String>,
    pub search: Option<String>,
    pub file: Option<String>,
    pub model: Option<usize>,
    pub model_path: Option<String>,
    pub cpu: bool,
    pub num: Option<usize>,
    pub summary: Option<String>,
    pub save: bool,
    pub clipboard: bool,
    pub show_tags: bool,
    pub outpath: Option<String>,
}

/// What the environment holds for the variables that stand in for arguments.
#[derive(Clone, Debug, PartialEq, Eq)]
pub struct Environment {
    pub num: EnvVar,
    pub cpu: EnvVar,
    pub file: EnvVar,
    pub model_path: EnvVar,
    pub save: EnvVar,
    pub clipboard: EnvVar,
    pub outpath: EnvVar,
}

/// Where the directory of a model is looked for.
#[derive(Clone, Debug, PartialEq, Eq)]
pub enum ModelPlace {
    /// In the directory that was given.
    Given { path: String },
    /// In the usual places, the last of them this one.
    Search { env_path: String },
}

/// The model that a request asks for.
#[derive(Clone, Debug, PartialEq, Eq)]
pub struct ModelRequest {
    pub id: usize,
    pub place: ModelPlace,
}

/// A request as far as it can be read without looking at the disk.
#[derive(Clone, Debug, PartialEq, Eq)]
pub struct Request {
    pub ids: Vec<usize>,
    pub tags: Vec<SnipTag>,
    pub search: Option<String>,
    /// The snippet files or the directory that was named, if any.
    pub file: Option<String>,
    pub model: Option<ModelRequest>,
    pub top_num: usize,
    pub use_cpu: bool,
    pub summary: Vec<SnipTag>,
    pub save: bool,
    pub clipboard: bool,
    pub show_tags: bool,
    pub outpath: String,
}

/// The directory in which models are looked for where none is given.
pub open spec fn default_model_dir() -> Seq<char> {
    "./embedding_models/"@
}

/// The directory to which snippets are saved where none is given.
pub open spec fn default_outpath() -> Seq<char> {
    "./saved_snippets/"@
}

/// The ids that a request names.
pub open spec fn ids_setting(arg: Option<Seq<char>>) -> Result<Seq<usize>, MyErrorView> {
    match arg {
        Some(text) => ids_of(pieces(text, ',')),
        None => Ok(Seq::empty()),
    }
}

/// The tags that a request names, whatever the case of their letters.
pub open spec fn tags_setting(names: Seq<Seq<char>>, arg: Option<Seq<char>>) -> Result<
    Seq<SnipTag>,
    MyErrorView,
> {
    match arg {
        Some(text) => tags_of(names, pieces(text, ','), true),
        None => Ok(Seq::empty()),
    }
}

/// The tags of which a request wants a summary.
pub open spec fn summary_setting(names: Seq<Seq<char>>, arg: Option<Seq<char>>) -> Result<
    Seq<SnipTag>,
    MyErrorView,
> {
    match arg {
        Some(text) => summary_of(names, text),
        None => Ok(Seq::empty()),
    }
}

/// The snippet files that a request names: the argument where it is given,
/// else the variable where it is set.
pub open spec fn file_setting(arg: Option<Seq<char>>, env: EnvVarView) -> Result<
    Option<Seq<char>>,
    MyErrorView,
> {
    match arg {
        Some(text) => Ok(Some(text)),
        None => match env {
            EnvVarView::Unset => Ok(None),
            EnvVarView::NotUnicode => Err(MyErrorView::EnvVarError { name: "SNIPPETS_FILE"@ }),
            EnvVarView::Text { value } => Ok(Some(value)),
        },
    }
}

/// Mathematical value of a [`ModelRequest`].
pub ghost enum ModelRequestView {
    Given { id: usize, path: Seq<char> },
    Search { id: usize, env_path: Seq<char> },
}

impl View for ModelRequest {
    type V = ModelRequestView;

    open spec fn view(&self) -> ModelRequestView {
        match self.place {
            ModelPlace::Given { path } => ModelRequestView::Given { id: self.id, path: path@ },
            ModelPlace::Search { env_path } => ModelRequestView::Search {
                id: self.id,
                env_path: env_path@,
            },
        }
    }
}

/// The model that a request asks for, and where it is looked for: in the
/// directory that is given, else in the usual places, of which the variable
/// names the last.
pub open spec fn model_setting(id: Option<usize>, path: Option<Seq<char>>, env: EnvVarView) -> Result<
    Option<ModelRequestView>,
    MyErrorView,
> {
    match id {
        None => Ok(None),
        Some(id) => match path {
            Some(path) => Ok(Some(ModelRequestView::Given { id, path })),
            None => match env {
                EnvVarView::Unset => Ok(
                    Some(ModelRequestView::Search { id, env_path: default_model_dir() }),
                ),
                EnvVarView::NotUnicode => Err(
                    MyErrorView::EnvVarError { name: "SNIPPETS_MODEL_PATH"@ },
                ),
                EnvVarView::Text { value } => Ok(
                    Some(ModelRequestView::Search { id, env_path: value }),
                ),
            },
        },
    }
}

/// The error of a result, if it is one.
pub open spec fn failure<T>(r: Result<T, MyErrorView>) -> Option<MyErrorView> {
    match r {
        Ok(_) => None,
        Err(e) => Some(e),
    }
}

/// The first failure of two.
pub open spec fn either(first: Option<MyErrorView>, second: Option<MyErrorView>) -> Option<
    MyErrorView,
> {
    if first is Some {
        first
    } else {
        second
    }
}

/// Why a request cannot be read, if it cannot: the first setting that fails,
/// in the order in which they are listed here, and after all of them the modes
/// that cannot be used together (which are not looked at where only the tags
/// are to be shown).
pub open spec fn request_failure(raw: Paras, env: Environment, names: Seq<Seq<char>>) -> Option<
    MyErrorView,
> {
    either(
        failure(top_num_of(raw.num, env.num@)),
        either(
            failure(flag_of(raw.cpu, env.cpu@, "SNIPPETS_CPU"@)),
            either(
                failure(ids_setting(opt_text(raw.id))),
                either(
                    failure(tags_setting(names, opt_text(raw.tag))),
                    either(
                        failure(file_setting(opt_text(raw.file), env.file@)),
                        either(
                            failure(
                                model_setting(raw.model, opt_text(raw.model_path), env.model_path@),
                            ),
                            late_failure(raw, env, names),
                        ),
                    ),
                ),
            ),
        ),
    )
}

/// The first failure among the settings that are read last.
pub open spec fn late_failure(raw: Paras, env: Environment, names: Seq<Seq<char>>) -> Option<
    MyErrorView,
> {
    either(
        failure(summary_setting(names, opt_text(raw.summary))),
        either(
            failure(flag_of(raw.save, env.save@, "SNIPPETS_SAVE"@)),
            either(
                failure(flag_of(raw.clipboard, env.clipboard@, "SNIPPETS_CLIPBOARD"@)),
                either(
                    failure(
                        text_setting(
                            opt_text(raw.outpath),
                            env.outpath@,
                            "SNIPPETS_OUTPATH"@,
                            default_outpath(),
                        ),
                    ),
                    modes_failure(raw, names),
                ),
            ),
        ),
    )
}

/// The failure of the modes of a request, if they cannot be used together.
pub open spec fn modes_failure(raw: Paras, names: Seq<Seq<char>>) -> Option<MyErrorView> {
    let ids = ids_setting(opt_text(raw.id));
    let tags = tags_setting(names, opt_text(raw.tag));
    let summary = summary_setting(names, opt_text(raw.summary));
    if ids is Ok && tags is Ok && summary is Ok && !raw.show_tags && !modes_allowed(
        ids->Ok_0.len() > 0,
        tags->Ok_0.len() > 0,
        raw.search is Some,
        summary->Ok_0.len() > 0,
    ) {
        Some(MyErrorView::InvalidQueryCombination)
    } else {
        None
    }
}

/// Whether a request is what the command line and the environment say.
pub open spec fn is_request_of(q: Request, raw: Paras, env: Environment, names: Seq<Seq<char>>) -> bool {
    &&& top_num_of(raw.num, env.num@) == Ok::<usize, MyErrorView>(q.top_num)
    &&& flag_of(raw.cpu, env.cpu@, "SNIPPETS_CPU"@) == Ok::<bool, MyErrorView>(q.use_cpu)
    &&& ids_setting(opt_text(raw.id)) == Ok::<Seq<usize>, MyErrorView>(q.ids@)
    &&& tags_setting(names, opt_text(raw.tag)) == Ok::<Seq<SnipTag>, MyErrorView>(q.tags@)
    &&& opt_text(q.search) == opt_text(raw.search)
    &&& file_setting(opt_text(raw.file), env.file@) == Ok::<Option<Seq<char>>, MyErrorView>(
        opt_text(q.file),
    )
    &&& model_setting(raw.model, opt_text(raw.model_path), env.model_path@) == Ok::<
        Option<ModelRequestView>,
        MyErrorView,
    >(opt_model(q.model))
    &&& summary_setting(names, opt_text(raw.summary)) == Ok::<Seq<SnipTag>, MyErrorView>(q.summary@)
    &&& flag_of(raw.save, env.save@, "SNIPPETS_SAVE"@) == Ok::<bool, MyErrorView>(q.save)
    &&& flag_of(raw.clipboard, env.clipboard@, "SNIPPETS_CLIPBOARD"@) == Ok::<bool, MyErrorView>(
        q.clipboard,
    )
    &&& q.show_tags == raw.show_tags
    &&& text_setting(opt_text(raw.outpath), env.outpath@, "SNIPPETS_OUTPATH"@, default_outpath())
        == Ok::<Seq<char>, MyErrorView>(q.outpath@)
    &&& q.show_tags || modes_allowed(
        q.ids@.len() > 0,
        q.tags@.len() > 0,
        q.search is Some,
        q.summary@.len() > 0,
    )
}

/// Settles the ids that a request names.
pub fn resolve_ids(arg: &Option<String>) -> (r: Result<Vec<usize>, MyError>)
    ensures
        match r {
            Ok(ids) => ids_setting(opt_text(*arg)) == Ok::<Seq<usize>, MyErrorView>(ids@),
            Err(e) => ids_setting(opt_text(*arg)) == Err::<Seq<usize>, MyErrorView>(e@),
        },
{
    match arg {
        Some(text) => parse_ids(text.as_str()),
        None => Ok(Vec::new()),
    }
}

/// Settles the tags that a request names.
pub fn resolve_tags(table: &TagTable, arg: &Option<String>) -> (r: Result<Vec<SnipTag>, MyError>)
    ensures
        match r {
            Ok(tags) => tags_setting(table.names(), opt_text(*arg)) == Ok::<
                Seq<SnipTag>,
                MyErrorView,
            >(tags@),
            Err(e) => tags_setting(table.names(), opt_text(*arg)) == Err::<
                Seq<SnipTag>,
                MyErrorView,
            >(e@),
        },
{
    match arg {
        Some(text) => tags_from(table, text.as_str(), true),
        None => Ok(Vec::new()),
    }
}

/// Settles the tags of which a request wants a summary.
pub fn resolve_summary(table: &TagTable, arg: &Option<String>) -> (r: Result<Vec<SnipTag>, MyError>)
    ensures
        match r {
            Ok(tags) => summary_setting(table.names(), opt_text(*arg)) == Ok::<
                Seq<SnipTag>,
                MyErrorView,
            >(tags@),
            Err(e) => summary_setting(table.names(), opt_text(*arg)) == Err::<
                Seq<SnipTag>,
                MyErrorView,
            >(e@),
        },
{
    match arg {
        Some(text) => parse_summary(table, text.as_str()),
        None => Ok(Vec::new()),
    }
}

/// Settles the snippet files that a request names.
pub fn resolve_file(arg: &Option<String>, env: &EnvVar) -> (r: Result<Option<String>, MyError>)
    ensures
        match r {
            Ok(file) => file_setting(opt_text(*arg), env@) == Ok::<Option<Seq<char>>, MyErrorView>(
                opt_text(file),
            ),
            Err(e) => file_setting(opt_text(*arg), env@) == Err::<Option<Seq<char>>, MyErrorView>(
                e@,
            ),
        },
{
    match arg {
        Some(text) => Ok(Some(text.clone())),
        None => match env {
            EnvVar::Unset => Ok(None),
            EnvVar::NotUnicode => Err(MyError::EnvVarError { name: "SNIPPETS_FILE".to_owned() }),
            EnvVar::Text { value } => Ok(Some(value.clone())),
        },
    }
}

/// The value of an optional model request.
pub open spec fn opt_model(model: Option<ModelRequest>) -> Option<ModelRequestView> {
    match model {
        Some(m) => Some(m@),
        None => None,
    }
}

/// Settles the model that a request asks for.
pub fn resolve_model(id: Option<usize>, path: &Option<String>, env: &EnvVar) -> (r: Result<
    Option<ModelRequest>,
    MyError,
>)
    ensures
        match r {
            Ok(model) => model_setting(id, opt_text(*path), env@) == Ok::<
                Option<ModelRequestView>,
                MyErrorView,
            >(opt_model(model)),
            Err(e) => model_setting(id, opt_text(*path), env@) == Err::<
                Option<ModelRequestView>,
                MyErrorView,
            >(e@),
        },
{
    match id {
        None => Ok(None),
        Some(id) => match path {
            Some(path) => Ok(
                Some(ModelRequest { id, place: ModelPlace::Given { path: path.clone() } }),
            ),
            None => match env {
                EnvVar::Unset => Ok(
                    Some(
                        ModelRequest {
                            id,
                            place: ModelPlace::Search { env_path: "./embedding_models/".to_owned() },
                        },
                    ),
                ),
                EnvVar::NotUnicode => Err(
                    MyError::EnvVarError { name: "SNIPPETS_MODEL_PATH".to_owned() },
                ),
                EnvVar::Text { value } => Ok(
                    Some(ModelRequest { id, place: ModelPlace::Search { env_path: value.clone() } }),
                ),
            },
        },
    }
}

/// Reads a request from the command line and the environment, without looking
/// at the disk. The settings are read in a fixed order and the first that
/// fails is reported; modes that cannot be used together are refused.
pub fn parse_para(raw: &Paras, env: &Environment, table: &TagTable) -> (r: Result<Request, MyError>)
    ensures
        match r {
            Ok(q) => request_failure(*raw, *env, table.names()) is None && is_request_of(
                q,
                *raw,
                *env,
                table.names(),
            ),
            Err(e) => request_failure(*raw, *env, table.names()) == Some(e@),
        },
{
    let top_num = match resolve_top_num(raw.num, &env.num) {
        Ok(n) => n,
        Err(e) => {
            return Err(e);
        },
    };
    let use_cpu = match resolve_flag(raw.cpu, &env.cpu, "SNIPPETS_CPU") {
        Ok(on) => on,
        Err(e) => {
            return Err(e);
        },
    };
    let ids = match resolve_ids(&raw.id) {
        Ok(ids) => ids,
        Err(e) => {
            return Err(e);
        },
    };
    let tags = match resolve_tags(table, &raw.tag) {
        Ok(tags) => tags,
        Err(e) => {
            return Err(e);
        },
    };
    let file = match resolve_file(&raw.file, &env.file) {
        Ok(file) => file,
        Err(e) => {
            return Err(e);
        },
    };
    let model = match resolve_model(raw.model, &raw.model_path, &env.model_path) {
        Ok(model) => model,
        Err(e) => {
            return Err(e);
        },
    };
    let summary = match resolve_summary(table, &raw.summary) {
        Ok(tags) => tags,
        Err(e) => {
            return Err(e);
        },
    };
    let save = match resolve_flag(raw.save, &env.save, "SNIPPETS_SAVE") {
        Ok(on) => on,
        Err(e) => {
            return Err(e);
        },
    };
    let clipboard = match resolve_flag(raw.clipboard, &env.clipboard, "SNIPPETS_CLIPBOARD") {
        Ok(on) => on,
        Err(e) => {
            return Err(e);
        },
    };
    let outpath = match resolve_text(
        &raw.outpath,
        &env.outpath,
        "SNIPPETS_OUTPATH",
        "./saved_snippets/",
    ) {
        Ok(text) => text,
        Err(e) => {
            return Err(e);
        },
    };
    let search = raw.search.clone();
    if !raw.show_tags {
        match check_modes(ids.len() > 0, tags.len() > 0, search.is_some(), summary.len() > 0) {
            Ok(()) => {},
            Err(e) => {
                return Err(e);
            },
        }
    }
    Ok(
        Request {
            ids,
            tags,
            search,
            file,
            model,
            top_num,
            use_cpu,
            summary,
            save,
            clipboard,
            show_tags: raw.show_tags,
            outpath,
        },
    )
}


/// A request that has been read and whose files and model have been found.
#[derive(Clone, Debug, PartialEq, Eq)]
pub struct ParsedParas {
    pub ids: Vec<usize>,
    pub tags: Vec<SnipTag>,
    pub search: Option<String>,
    pub files: Vec<String>,
    pub model: Option<ModelInfo>,
    pub save: bool,
    pub clipboard: bool,
    pub show_tags: bool,
    pub summary: Vec<SnipTag>,
    pub outpath: String,
}

/// What a semantic query runs on and asks for.
#[derive(Clone, Copy, Debug, PartialEq, Eq)]
pub struct SemanticQuery<'a> {
    pub model: Model,
    pub text: &'a String,
    pub top_n: usize,
}

/// A query of the store, in one of its four modes. Tags can narrow a keyword
/// query and a semantic query.
#[allow(inconsistent_fields)]
#[derive(Clone, Copy, Debug, PartialEq, Eq)]
pub enum QuerySpec<'a> {
    ById { ids: &'a Vec<usize> },
    ByTags { tags: &'a Vec<SnipTag> },
    ByKeyword { tags: Option<&'a Vec<SnipTag>>, text: &'a String },
    BySemantic { tags: Option<&'a Vec<SnipTag>>, model: Model, text: &'a String, top_n: usize },
}

/// Whether the parts of a query can be used together: ids alone, or tags, a
/// keyword or a semantic query, of which tags go with either of the others,
/// and the others not with each other.
pub open spec fn query_allowed(ids: bool, tags: bool, keyword: bool, semantic: bool) -> bool {
    if ids {
        !tags && !keyword && !semantic
    } else if keyword && semantic {
        false
    } else {
        tags || keyword || semantic
    }
}

/// The tags of a query that narrow another mode, if there are any.
pub open spec fn narrowing<'a>(tags: &'a Vec<SnipTag>) -> Option<&'a Vec<SnipTag>> {
    if tags@.len() > 0 {
        Some(tags)
    } else {
        None
    }
}

/// The query that its parts make, where they can be used together.
pub open spec fn query_of<'a>(
    ids: &'a Vec<usize>,
    tags: &'a Vec<SnipTag>,
    keyword: Option<&'a String>,
    semantic: Option<SemanticQuery<'a>>,
) -> QuerySpec<'a> {
    if ids@.len() > 0 {
        QuerySpec::ById { ids }
    } else if keyword is Some {
        QuerySpec::ByKeyword { tags: narrowing(tags), text: keyword->0 }
    } else if semantic is Some {
        QuerySpec::BySemantic {
            tags: narrowing(tags),
            model: semantic->0.model,
            text: semantic->0.text,
            top_n: semantic->0.top_n,
        }
    } else {
        QuerySpec::ByTags { tags }
    }
}

impl<'a> QuerySpec<'a> {
    /// Makes a query from its parts. Ids go with nothing else, and a keyword
    /// not with a semantic query; a query of no part is none.
    pub fn new(
        ids: &'a Vec<usize>,
        tags: &'a Vec<SnipTag>,
        keyword: Option<&'a String>,
        semantic: Option<SemanticQuery<'a>>,
    ) -> (r: Result<QuerySpec<'a>, MyError>)
        ensures
            r is Ok <==> query_allowed(
                ids@.len() > 0,
                tags@.len() > 0,
                keyword is Some,
                semantic is Some,
            ),
            r is Ok ==> r->Ok_0 == query_of(ids, tags, keyword, semantic),
            r is Err ==> r->Err_0@ == MyErrorView::InvalidQueryCombination,
    {
        let narrowing = if tags.len() > 0 {
            Some(tags)
        } else {
            None
        };
        if ids.len() > 0 {
            if tags.len() > 0 || keyword.is_some() || semantic.is_some() {
                Err(MyError::InvalidQueryCombination)
            } else {
                Ok(QuerySpec::ById { ids })
            }
        } else {
            match (keyword, semantic) {
                (Some(_), Some(_)) => Err(MyError::InvalidQueryCombination),
                (Some(text), None) => Ok(QuerySpec::ByKeyword { tags: narrowing, text }),
                (None, Some(q)) => Ok(
                    QuerySpec::BySemantic {
                        tags: narrowing,
                        model: q.model,
                        text: q.text,
                        top_n: q.top_n,
                    },
                ),
                (None, None) => if tags.len() > 0 {
                    Ok(QuerySpec::ByTags { tags })
                } else {
                    Err(MyError::InvalidQueryCombination)
                },
            }
        }
    }
}

impl ParsedParas {
    /// Puts a request together with the snippet files and the model that were
    /// found for it.
    pub fn new(request: Request, files: Vec<String>, model: Option<ModelInfo>) -> (paras: ParsedParas)
        ensures
            paras.ids == request.ids,
            paras.tags == request.tags,
            paras.search == request.search,
            paras.files == files,
            paras.model == model,
            paras.save == request.save,
            paras.clipboard == request.clipboard,
            paras.show_tags == request.show_tags,
            paras.summary == request.summary,
            paras.outpath == request.outpath,
    {
        ParsedParas {
            ids: request.ids,
            tags: request.tags,
            search: request.search,
            files,
            model,
            save: request.save,
            clipboard: request.clipboard,
            show_tags: request.show_tags,
            summary: request.summary,
            outpath: request.outpath,
        }
    }

    /// The keyword of the request, where it searches without a model.
    pub open spec fn spec_keyword(&self) -> Option<&String> {
        if self.model is None && self.search is Some {
            Some(&self.search->0)
        } else {
            None
        }
    }

    /// The semantic query of the request, where it searches with a model.
    pub open spec fn spec_semantic(&self) -> Option<SemanticQuery<'_>> {
        if self.model is Some && self.search is Some {
            Some(
                SemanticQuery {
                    model: self.model->0.model,
                    text: &self.search->0,
                    top_n: self.model->0.top_num,
                },
            )
        } else {
            None
        }
    }

    /// The query that the request makes of the store: a search is semantic
    /// where a model was chosen, and by keyword where none was.
    pub fn query(&self) -> (r: Result<QuerySpec<'_>, MyError>)
        ensures
            r is Ok <==> query_allowed(
                self.ids@.len() > 0,
                self.tags@.len() > 0,
                self.spec_keyword() is Some,
                self.spec_semantic() is Some,
            ),
            r is Ok ==> r->Ok_0 == query_of(
                &self.ids,
                &self.tags,
                self.spec_keyword(),
                self.spec_semantic(),
            ),
            r is Err ==> r->Err_0@ == MyErrorView::InvalidQueryCombination,
    {
        let (keyword, semantic) = match (&self.search, &self.model) {
            (Some(text), Some(info)) => (
                None,
                Some(SemanticQuery { model: info.model, text, top_n: info.top_num }),
            ),
            (Some(text), None) => (Some(text), None),
            (None, _) => (None, None),
        };
        QuerySpec::new(&self.ids, &self.tags, keyword, semantic)
    }
}


/// Whether `info` describes the model with identifier `id` in a directory of
/// models `base`, with the given settings.
pub open spec fn is_model_info(info: ModelInfo, base: Seq<char>, id: usize, top_num: usize, use_cpu: bool) -> bool {
    let paths = artifact_paths_of(joined_path(base, info.model.spec_name()));
    &&& model_of_id(id as int) == Some(info.model)
    &&& info.model_type == info.model.spec_model_type()
    &&& info.model_path@ == paths.weights
    &&& info.config_path@ == paths.config
    &&& info.tokenizer_path@ == paths.tokenizer
    &&& info.top_num == top_num
    &&& info.use_cpu == use_cpu
}

/// The verdict on the model with identifier `id` in a directory of models,
/// given what was found on disk for the model's own directory.
pub open spec fn model_verdict(base: Seq<char>, id: usize, probe: ArtifactProbe) -> Result<
    CatalogEntryView,
    MyErrorView,
> {
    match model_of_id(id as int) {
        None => Err(
            MyErrorView::EmbeddingError { error: EmbeddingErrorView::InvalidModelId { id } },
        ),
        Some(model) => match artifact_verdict(joined_path(base, model.spec_name()), probe) {
            Ok(paths) => Ok(
                CatalogEntryView { model_type: model.spec_model_type(), model, paths },
            ),
            Err(error) => Err(MyErrorView::EmbeddingError { error }),
        },
    }
}

/// Mathematical value of the result of looking for a model.
pub open spec fn model_outcome(r: Result<CatalogEntry, MyError>) -> Result<
    CatalogEntryView,
    MyErrorView,
> {
    match r {
        Ok(entry) => Ok(entry@),
        Err(e) => Err(e@),
    }
}

/// Decides on the model with identifier `id` in a directory of models from
/// what was found on disk for the model's own directory.
pub fn judge_model(path_str: &str, id: usize, probe: ArtifactProbe) -> (r: Result<
    CatalogEntry,
    MyError,
>)
    ensures
        model_outcome(r) == model_verdict(path_str@, id, probe),
{
    match Model::new(id) {
        Err(error) => Err(MyError::EmbeddingError { error }),
        Ok(model) => {
            let (model_type, dir) = model.model_type_and_path(path_str);
            match judge_artifacts(dir.as_str(), probe) {
                Ok(paths) => Ok(CatalogEntry { model_type, model, paths }),
                Err(error) => Err(MyError::EmbeddingError { error }),
            }
        },
    }
}

/// Mathematical value of the result of looking for a model on disk.
pub open spec fn found_outcome(r: Result<(Model, ModelType, String, String, String), MyError>) -> Result<
    CatalogEntryView,
    MyErrorView,
> {
    match r {
        Ok(found) => Ok(
            CatalogEntryView {
                model_type: found.1,
                model: found.0,
                paths: ArtifactPathsView { weights: found.2@, config: found.3@, tokenizer: found.4@ },
            },
        ),
        Err(e) => Err(e@),
    }
}

/// Looks in a directory of models for the model with identifier `id` and its
/// three artifacts. What is on disk decides; whatever it is, the result is the
/// verdict on it.
pub fn check_model_exist(path_str: &str, id: usize) -> (r: Result<
    (Model, ModelType, String, String, String),
    MyError,
>)
    ensures
        exists|probe: ArtifactProbe| found_outcome(r) == #[trigger] model_verdict(path_str@, id, probe),
{
    let probe = match Model::new(id) {
        Err(_) => ArtifactProbe { directory: false, weights: false, config: false, tokenizer: false },
        Ok(model) => {
            let (_, dir) = model.model_type_and_path(path_str);
            Model::probe_artifacts(dir.as_str()).found()
        },
    };
    match judge_model(path_str, id, probe) {
        Ok(entry) => Ok(
            (
                entry.model,
                entry.model_type,
                entry.paths.weights,
                entry.paths.config,
                entry.paths.tokenizer,
            ),
        ),
        Err(e) => Err(e),
    }
}

impl ModelInfo {
    /// The description of a model that was found, with the settings of the
    /// queries that will run on it.
    pub fn new(found: (Model, ModelType, String, String, String), top_num: usize, use_cpu: bool) -> (info:
        ModelInfo)
        ensures
            info.model == found.0,
            info.model_type == found.1,
            info.model_path@ == found.2@,
            info.config_path@ == found.3@,
            info.tokenizer_path@ == found.4@,
            info.top_num == top_num,
            info.use_cpu == use_cpu,
    {
        ModelInfo {
            model: found.0,
            model_type: found.1,
            model_path: found.2,
            config_path: found.3,
            tokenizer_path: found.4,
            top_num,
            use_cpu,
        }
    }
}

/// Picks among the usual places the first in which the model was found: the
/// directory of models beside the working directory, then the one beside the
/// program, then the one that the environment names. Found nowhere, the model
/// is reported missing.
pub fn first_found(
    local: Result<(Model, ModelType, String, String, String), MyError>,
    binary: Result<(Model, ModelType, String, String, String), MyError>,
    named: Result<(Model, ModelType, String, String, String), MyError>,
    binary_path: &str,
) -> (r: Result<(Model, ModelType, String, String, String), MyError>)
    ensures
        match r {
            Ok(found) => if local is Ok {
                found == local->Ok_0
            } else if binary is Ok {
                found == binary->Ok_0
            } else {
                named is Ok && found == named->Ok_0
            },
            Err(e) => local is Err && binary is Err && named is Err && e@ == (
            MyErrorView::ModelNotFound { binary_path: binary_path@ }),
        },
{
    match local {
        Ok(found) => Ok(found),
        Err(_) => match binary {
            Ok(found) => Ok(found),
            Err(_) => match named {
                Ok(found) => Ok(found),
                Err(_) => Err(MyError::ModelNotFound { binary_path: binary_path.to_owned() }),
            },
        },
    }
}

/// Finds the model that a request asks for: in the directory that was given,
/// or in the first of the usual places that holds it. `binary_path` is the
/// directory of models beside the program. What is on disk decides; a model
/// that is found is described as it stands in one of these places.
pub fn locate_model(request: &ModelRequest, binary_path: &str, top_num: usize, use_cpu: bool) -> (r:
    Result<ModelInfo, MyError>)
    ensures
        match r {
            Ok(info) => match request.place {
                ModelPlace::Given { path } => is_model_info(info, path@, request.id, top_num, use_cpu),
                ModelPlace::Search { env_path } => {
                    ||| is_model_info(info, default_model_dir(), request.id, top_num, use_cpu)
                    ||| is_model_info(info, binary_path@, request.id, top_num, use_cpu)
                    ||| is_model_info(info, env_path@, request.id, top_num, use_cpu)
                },
            },
            Err(e) => match request.place {
                ModelPlace::Given { path } => exists|probe: ArtifactProbe|
                    #[trigger] model_verdict(path@, request.id, probe) == Err::<
                        CatalogEntryView,
                        MyErrorView,
                    >(e@),
                ModelPlace::Search { env_path } => e@ == (MyErrorView::ModelNotFound {
                    binary_path: binary_path@,
                }),
            },
        },
{
    let found = match &request.place {
        ModelPlace::Given { path } => check_model_exist(path.as_str(), request.id),
        ModelPlace::Search { env_path } => {
            let local = check_model_exist("./embedding_models/", request.id);
            let binary = check_model_exist(binary_path, request.id);
            let named = check_model_exist(env_path.as_str(), request.id);
            first_found(local, binary, named, binary_path)
        },
    };
    match found {
        Ok(entry) => Ok(ModelInfo::new(entry, top_num, use_cpu)),
        Err(e) => Err(e),
    }
}

/// The files that a list names, where all of them are on disk; else the first
/// that is not.
pub open spec fn named_files_of(entries: Seq<PathProbe>) -> Result<Seq<Seq<char>>, MyErrorView>
    decreases entries.len(),
{
    if entries.len() == 0 {
        Ok(Seq::empty())
    } else {
        match named_files_of(entries.drop_last()) {
            Err(e) => Err(e),
            Ok(files) => if entries.last().is_file {
                Ok(files.push(entries.last().path@))
            } else {
                Err(MyErrorView::FileNotExistError { file: entries.last().path@ })
            },
        }
    }
}

/// A list of files whose beginning fails, fails in the same way.
pub proof fn lemma_named_files_fail(entries: Seq<PathProbe>, n: int)
    requires
        0 <= n <= entries.len(),
        named_files_of(entries.take(n)) is Err,
    ensures
        named_files_of(entries) == named_files_of(entries.take(n)),
    decreases entries.len(),
{
    if n == entries.len() {
        assert(entries.take(n) =~= entries);
    } else {
        assert(entries.drop_last().take(n) =~= entries.take(n));
        lemma_named_files_fail(entries.drop_last(), n);
    }
}

/// Takes the files that a list names, each of which has to be on disk.
pub fn take_named_files(entries: &Vec<PathProbe>) -> (r: Result<Vec<String>, MyError>)
    ensures
        match r {
            Ok(files) => named_files_of(entries@) == Ok::<Seq<Seq<char>>, MyErrorView>(
                path_texts(files@),
            ),
            Err(e) => named_files_of(entries@) == Err::<Seq<Seq<char>>, MyErrorView>(e@),
        },
{
    let mut files: Vec<String> = Vec::new();
    let mut i: usize = 0;
    proof {
        assert(path_texts(files@) =~= Seq::<Seq<char>>::empty());
    }
    while i < entries.len()
        invariant
            0 <= i <= entries.len(),
            named_files_of(entries@.take(i as int)) == Ok::<Seq<Seq<char>>, MyErrorView>(
                path_texts(files@),
            ),
        decreases entries.len() - i,
    {
        proof {
            assert(entries@.take(i + 1).drop_last() =~= entries@.take(i as int));
            assert(entries@.take(i + 1).last() == entries@[i as int]);
        }
        let entry = &entries[i];
        if !entry.is_file {
            let e = MyError::FileNotExistError { file: entry.path.clone() };
            proof {
                assert(named_files_of(entries@.take(i + 1)) == Err::<Seq<Seq<char>>, MyErrorView>(
                    e@,
                ));
                lemma_named_files_fail(entries@, i + 1);
            }
            return Err(e);
        }
        let ghost before = path_texts(files@);
        files.push(entry.path.clone());
        proof {
            assert(path_texts(files@) =~= before.push(entry.path@));
        }
        i = i + 1;
    }
    proof {
        assert(entries@.take(i as int) =~= entries@);
    }
    Ok(files)
}

/// The paths of a list of probes.
pub open spec fn probed_paths(entries: Seq<PathProbe>) -> Seq<Seq<char>> {
    entries.map_values(|e: PathProbe| e.path@)
}

/// Named files are taken as they are named, and a failure names one of them.
pub proof fn lemma_named_files(entries: Seq<PathProbe>)
    ensures
        match named_files_of(entries) {
            Ok(files) => files == probed_paths(entries),
            Err(e) => exists|k: int|
                0 <= k < entries.len() && e == (MyErrorView::FileNotExistError {
                    file: #[trigger] probed_paths(entries)[k],
                }),
        },
    decreases entries.len(),
{
    if entries.len() == 0 {
        assert(probed_paths(entries) =~= Seq::<Seq<char>>::empty());
    } else {
        let before = entries.drop_last();
        lemma_named_files(before);
        match named_files_of(before) {
            Ok(files) => {
                if entries.last().is_file {
                    assert(files.push(entries.last().path@) =~= probed_paths(entries));
                } else {
                    assert(probed_paths(entries)[entries.len() - 1] == entries.last().path@);
                }
            },
            Err(e) => {
                let k = choose|k: int|
                    0 <= k < before.len() && e == (MyErrorView::FileNotExistError {
                        file: #[trigger] probed_paths(before)[k],
                    });
                assert(probed_paths(entries)[k] == probed_paths(before)[k]);
            },
        }
    }
}

/// The snippet files that a text names: those in the directory, where it names
/// one, else the files that it lists with commas between them, each of which
/// has to be on disk: the first that is not is reported. What is on disk
/// decides.
pub fn get_snippet_files(file: &str) -> (r: Result<Vec<String>, MyError>)
    ensures
        match r {
            Ok(files) => {
                ||| path_texts(files@) == pieces(file@, ',')
                ||| exists|entries: Seq<PathProbe>|
                    path_texts(files@) == #[trigger] snippet_files_of(entries)
            },
            Err(e) => exists|k: int|
                0 <= k < pieces(file@, ',').len() && e@ == (MyErrorView::FileNotExistError {
                    file: #[trigger] pieces(file@, ',')[k],
                }),
        },
{
    if is_directory(file) {
        let files = get_snippets(file);
        return Ok(files);
    }
    let parts = split_at(&chars_of(file), ',');
    let mut paths: Vec<String> = Vec::new();
    let mut i: usize = 0;
    while i < parts.len()
        invariant
            0 <= i <= parts.len(),
            lines_view(parts@) == pieces(file@, ','),
            path_texts(paths@) == lines_view(parts@).take(i as int),
        decreases parts.len() - i,
    {
        let ghost before = path_texts(paths@);
        let part = text_of(&parts[i]);
        paths.push(part);
        proof {
            assert(path_texts(paths@) =~= before.push(parts@[i as int]@));
            assert(lines_view(parts@).take(i + 1) =~= lines_view(parts@).take(i as int).push(
                parts@[i as int]@,
            ));
        }
        i = i + 1;
    }
    proof {
        assert(lines_view(parts@).take(i as int) =~= lines_view(parts@));
    }
    let entries = probe_paths(paths);
    proof {
        assert(probed_paths(entries@) =~= pieces(file@, ','));
        lemma_named_files(entries@);
    }
    take_named_files(&entries)
}

} // verus!
