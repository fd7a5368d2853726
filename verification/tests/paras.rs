use snippets::error::{EmbeddingError, MyError};
use snippets::model::{ArtifactPaths, ArtifactProbe, CatalogEntry, Model, ModelType};
use snippets::parse_paras::{
    check_model_exist, check_modes, first_found, get_snippet_files, judge_model,
    locate_model, parse_ids, parse_para, parse_summary, resolve_flag,
    resolve_text, resolve_top_num, tags_from, take_named_files, EnvVar, Environment, ModelInfo,
    ModelPlace, ModelRequest, Paras, ParsedParas, QuerySpec, Request, SemanticQuery,
    DEFAULT_TOP_NUM,
};
use snippets::tag::{SnipTag, TagTable};
use snippets::utils::{get_snippets, pick_snippet_files, PathProbe};

fn table() -> TagTable {
    let names: Vec<String> =
        ["Bio", "Code", "Git", "Rust", "Shell"].iter().map(|n| n.to_string()).collect();
    TagTable::new(&names).unwrap()
}

fn tags(codes: &[usize]) -> Vec<SnipTag> {
    codes.iter().map(|c| SnipTag { code: *c }).collect()
}

fn set(value: &str) -> EnvVar {
    EnvVar::Text { value: value.to_string() }
}

fn no_paras() -> Paras {
    Paras {
        id: None,
        tag: None,
        search: None,
        file: None,
        model: None,
        model_path: None,
        cpu: false,
        num: None,
        summary: None,
        save: false,
        clipboard: false,
        show_tags: false,
        outpath: None,
    }
}

fn no_env() -> Environment {
    Environment {
        num: EnvVar::Unset,
        cpu: EnvVar::Unset,
        file: EnvVar::Unset,
        model_path: EnvVar::Unset,
        save: EnvVar::Unset,
        clipboard: EnvVar::Unset,
        outpath: EnvVar::Unset,
    }
}

fn text(value: &str) -> Option<String> {
    Some(value.to_string())
}

fn found() -> ArtifactProbe {
    ArtifactProbe { directory: true, weights: true, config: true, tokenizer: true }
}

#[test]
fn ids_are_read_from_a_list() {
    assert_eq!(parse_ids("1,2,3"), Ok(vec![1, 2, 3]));
    assert_eq!(parse_ids("7"), Ok(vec![7]));
    assert_eq!(parse_ids("+5,0"), Ok(vec![5, 0]));
    assert_eq!(parse_ids("3,3"), Ok(vec![3, 3]));
}

#[test]
fn first_text_that_is_no_id_is_reported() {
    let failure = |from: &str| {
        Err(MyError::ParseStringError { from: from.to_string(), to: "usize".to_string() })
    };
    assert_eq!(parse_ids("1,x,y"), failure("x"));
    assert_eq!(parse_ids(""), failure(""));
    assert_eq!(parse_ids("1,"), failure(""));
    assert_eq!(parse_ids("1, 2"), failure(" 2"));
    assert_eq!(parse_ids("-1"), failure("-1"));
}

#[test]
fn tags_are_read_whatever_the_case() {
    let table = table();
    assert_eq!(tags_from(&table, "rust,BIO,Git", true), Ok(tags(&[3, 0, 2])));
    assert_eq!(tags_from(&table, "rust,bio", false), Ok(tags(&[3, 0])));
    assert_eq!(
        tags_from(&table, "Rust", false),
        Err(MyError::UnknownTag { name: "Rust".to_string() })
    );
}

#[test]
fn first_name_that_is_no_tag_is_reported() {
    let table = table();
    assert_eq!(
        tags_from(&table, "rust,Python,java", true),
        Err(MyError::UnknownTag { name: "Python".to_string() })
    );
    assert_eq!(tags_from(&table, "", true), Err(MyError::UnknownTag { name: "".to_string() }));
    assert_eq!(
        tags_from(&table, "rust, bio", true),
        Err(MyError::UnknownTag { name: " bio".to_string() })
    );
}

#[test]
fn summary_of_all_names_every_tag() {
    let table = table();
    assert_eq!(parse_summary(&table, "all"), Ok(tags(&[0, 1, 2, 3, 4])));
    assert_eq!(parse_summary(&table, "ALL"), Ok(tags(&[0, 1, 2, 3, 4])));
    assert_eq!(parse_summary(&table, "Shell,CODE"), Ok(tags(&[4, 1])));
    assert_eq!(
        parse_summary(&table, "Shell,All"),
        Err(MyError::UnknownTag { name: "all".to_string() })
    );
}

#[test]
fn number_of_results_comes_from_argument_variable_or_default() {
    assert_eq!(resolve_top_num(Some(3), &set("9")), Ok(3));
    assert_eq!(resolve_top_num(None, &set("9")), Ok(9));
    assert_eq!(resolve_top_num(None, &EnvVar::Unset), Ok(5));
    assert_eq!(DEFAULT_TOP_NUM, 5);
}

#[test]
fn number_of_results_must_not_be_zero() {
    assert_eq!(resolve_top_num(Some(0), &EnvVar::Unset), Err(MyError::InvalidTopNum));
    assert_eq!(resolve_top_num(None, &set("0")), Err(MyError::InvalidTopNum));
    assert_eq!(resolve_top_num(Some(0), &set("4")), Err(MyError::InvalidTopNum));
}

#[test]
fn number_of_results_in_a_bad_variable_fails() {
    assert_eq!(
        resolve_top_num(None, &set("many")),
        Err(MyError::ParseStringError { from: "many".to_string(), to: "usize".to_string() })
    );
    assert_eq!(
        resolve_top_num(None, &EnvVar::NotUnicode),
        Err(MyError::EnvVarError { name: "SNIPPETS_NUM".to_string() })
    );
    assert_eq!(resolve_top_num(Some(2), &EnvVar::NotUnicode), Ok(2));
}

#[test]
fn switch_is_on_by_argument_or_by_variable() {
    assert_eq!(resolve_flag(true, &EnvVar::Unset, "SNIPPETS_SAVE"), Ok(true));
    assert_eq!(resolve_flag(true, &EnvVar::NotUnicode, "SNIPPETS_SAVE"), Ok(true));
    assert_eq!(resolve_flag(false, &set("true"), "SNIPPETS_SAVE"), Ok(true));
    assert_eq!(resolve_flag(false, &set("True"), "SNIPPETS_SAVE"), Ok(false));
    assert_eq!(resolve_flag(false, &set("1"), "SNIPPETS_SAVE"), Ok(false));
    assert_eq!(resolve_flag(false, &EnvVar::Unset, "SNIPPETS_SAVE"), Ok(false));
    assert_eq!(
        resolve_flag(false, &EnvVar::NotUnicode, "SNIPPETS_SAVE"),
        Err(MyError::EnvVarError { name: "SNIPPETS_SAVE".to_string() })
    );
}

#[test]
fn text_comes_from_argument_variable_or_default() {
    assert_eq!(resolve_text(&text("a"), &set("b"), "V", "c"), Ok("a".to_string()));
    assert_eq!(resolve_text(&None, &set("b"), "V", "c"), Ok("b".to_string()));
    assert_eq!(resolve_text(&None, &EnvVar::Unset, "V", "c"), Ok("c".to_string()));
    assert_eq!(
        resolve_text(&None, &EnvVar::NotUnicode, "V", "c"),
        Err(MyError::EnvVarError { name: "V".to_string() })
    );
}

#[test]
fn modes_that_go_together() {
    assert_eq!(check_modes(true, false, false, false), Ok(()));
    assert_eq!(check_modes(false, true, false, false), Ok(()));
    assert_eq!(check_modes(false, false, true, false), Ok(()));
    assert_eq!(check_modes(false, true, true, false), Ok(()));
    assert_eq!(check_modes(false, false, false, true), Ok(()));
}

#[test]
fn modes_that_do_not_go_together() {
    let refused = Err(MyError::InvalidQueryCombination);
    assert_eq!(check_modes(false, false, false, false), refused);
    assert_eq!(check_modes(true, true, false, false), refused);
    assert_eq!(check_modes(true, false, true, false), refused);
    assert_eq!(check_modes(true, false, false, true), refused);
    assert_eq!(check_modes(true, true, true, false), refused);
    assert_eq!(check_modes(true, true, false, true), refused);
    assert_eq!(check_modes(true, false, true, true), refused);
    assert_eq!(check_modes(true, true, true, true), refused);
    assert_eq!(check_modes(false, true, false, true), refused);
    assert_eq!(check_modes(false, false, true, true), refused);
    assert_eq!(check_modes(false, true, true, true), refused);
}

#[test]
fn request_with_defaults() {
    let raw = Paras { tag: text("Rust,shell"), ..no_paras() };
    assert_eq!(
        parse_para(&raw, &no_env(), &table()),
        Ok(Request {
            ids: vec![],
            tags: tags(&[3, 4]),
            search: None,
            file: None,
            model: None,
            top_num: 5,
            use_cpu: false,
            summary: vec![],
            save: false,
            clipboard: false,
            show_tags: false,
            outpath: "./saved_snippets/".to_string(),
        })
    );
}

#[test]
fn request_takes_arguments_before_variables() {
    let raw = Paras {
        search: text("web server"),
        file: text("a.snippets"),
        model: Some(5),
        model_path: text("/models"),
        num: Some(2),
        outpath: text("out"),
        clipboard: true,
        ..no_paras()
    };
    let env = Environment {
        num: set("7"),
        cpu: set("true"),
        file: set("b.snippets"),
        model_path: set("/env/models"),
        save: set("true"),
        clipboard: set("false"),
        outpath: set("env-out"),
    };
    assert_eq!(
        parse_para(&raw, &env, &table()),
        Ok(Request {
            ids: vec![],
            tags: vec![],
            search: text("web server"),
            file: text("a.snippets"),
            model: Some(ModelRequest {
                id: 5,
                place: ModelPlace::Given { path: "/models".to_string() }
            }),
            top_num: 2,
            use_cpu: true,
            summary: vec![],
            save: true,
            clipboard: true,
            show_tags: false,
            outpath: "out".to_string(),
        })
    );
}

#[test]
fn request_takes_variables_where_arguments_are_missing() {
    let raw = Paras { id: text("4,2"), model: Some(11), ..no_paras() };
    let env = Environment {
        num: set("7"),
        file: set("b.snippets"),
        model_path: set("/env/models"),
        outpath: set("env-out"),
        ..no_env()
    };
    let request = parse_para(&raw, &env, &table()).unwrap();
    assert_eq!(request.ids, vec![4, 2]);
    assert_eq!(request.top_num, 7);
    assert_eq!(request.file, text("b.snippets"));
    assert_eq!(request.outpath, "env-out");
    assert_eq!(
        request.model,
        Some(ModelRequest { id: 11, place: ModelPlace::Search { env_path: "/env/models".to_string() } })
    );
    let request = parse_para(&raw, &no_env(), &table()).unwrap();
    assert_eq!(
        request.model,
        Some(ModelRequest {
            id: 11,
            place: ModelPlace::Search { env_path: "./embedding_models/".to_string() }
        })
    );
}

#[test]
fn request_without_a_mode_is_refused() {
    assert_eq!(parse_para(&no_paras(), &no_env(), &table()), Err(MyError::InvalidQueryCombination));
}

#[test]
fn request_for_ids_with_tags_is_refused() {
    let raw = Paras { id: text("1"), tag: text("rust"), ..no_paras() };
    assert_eq!(parse_para(&raw, &no_env(), &table()), Err(MyError::InvalidQueryCombination));
    let raw = Paras { id: text("1"), search: text("x"), ..no_paras() };
    assert_eq!(parse_para(&raw, &no_env(), &table()), Err(MyError::InvalidQueryCombination));
    let raw = Paras { summary: text("all"), search: text("x"), ..no_paras() };
    assert_eq!(parse_para(&raw, &no_env(), &table()), Err(MyError::InvalidQueryCombination));
}

#[test]
fn request_to_show_the_tags_needs_no_mode() {
    let raw = Paras { show_tags: true, ..no_paras() };
    assert!(parse_para(&raw, &no_env(), &table()).unwrap().show_tags);
    let raw = Paras { show_tags: true, id: text("1"), tag: text("rust"), ..no_paras() };
    assert!(parse_para(&raw, &no_env(), &table()).is_ok());
}

#[test]
fn first_setting_that_fails_is_reported() {
    let raw = Paras { num: Some(0), id: text("x"), tag: text("nope"), ..no_paras() };
    assert_eq!(parse_para(&raw, &no_env(), &table()), Err(MyError::InvalidTopNum));
    let raw = Paras { id: text("x"), tag: text("nope"), ..no_paras() };
    assert_eq!(
        parse_para(&raw, &no_env(), &table()),
        Err(MyError::ParseStringError { from: "x".to_string(), to: "usize".to_string() })
    );
    let raw = Paras { tag: text("nope"), summary: text("neither"), ..no_paras() };
    assert_eq!(
        parse_para(&raw, &no_env(), &table()),
        Err(MyError::UnknownTag { name: "nope".to_string() })
    );
    let env = Environment { cpu: EnvVar::NotUnicode, save: EnvVar::NotUnicode, ..no_env() };
    let raw = Paras { id: text("x"), ..no_paras() };
    assert_eq!(
        parse_para(&raw, &env, &table()),
        Err(MyError::EnvVarError { name: "SNIPPETS_CPU".to_string() })
    );
    let env = Environment { save: EnvVar::NotUnicode, outpath: EnvVar::NotUnicode, ..no_env() };
    let raw = Paras { id: text("1"), tag: text("rust"), ..no_paras() };
    assert_eq!(
        parse_para(&raw, &env, &table()),
        Err(MyError::EnvVarError { name: "SNIPPETS_SAVE".to_string() })
    );
}

#[test]
fn variables_that_are_not_needed_are_not_read() {
    let env = Environment {
        num: EnvVar::NotUnicode,
        cpu: EnvVar::NotUnicode,
        file: EnvVar::NotUnicode,
        model_path: EnvVar::NotUnicode,
        save: EnvVar::NotUnicode,
        clipboard: EnvVar::NotUnicode,
        outpath: EnvVar::NotUnicode,
    };
    let raw = Paras {
        id: text("1"),
        num: Some(1),
        cpu: true,
        file: text("f"),
        save: true,
        clipboard: true,
        outpath: text("o"),
        ..no_paras()
    };
    assert!(parse_para(&raw, &env, &table()).is_ok());
    let raw = Paras { model: Some(1), ..raw };
    assert_eq!(
        parse_para(&raw, &env, &table()),
        Err(MyError::EnvVarError { name: "SNIPPETS_MODEL_PATH".to_string() })
    );
    let raw = Paras { model_path: text("/m"), ..raw };
    assert!(parse_para(&raw, &env, &table()).is_ok());
}

#[test]
fn query_of_ids_with_tags_is_refused() {
    let ids = vec![1];
    let wanted = tags(&[0]);
    let none = Vec::new();
    let word = "x".to_string();
    let semantic = SemanticQuery { model: Model::E5BaseV2, text: &word, top_n: 5 };
    let refused = Err(MyError::InvalidQueryCombination);
    assert_eq!(QuerySpec::new(&ids, &wanted, None, None), refused);
    assert_eq!(QuerySpec::new(&ids, &none, Some(&word), None), refused);
    assert_eq!(QuerySpec::new(&ids, &none, None, Some(semantic)), refused);
    assert_eq!(QuerySpec::new(&ids, &wanted, Some(&word), Some(semantic)), refused);
}

#[test]
fn query_by_keyword_and_by_meaning_is_refused() {
    let none_ids = Vec::new();
    let wanted = tags(&[0]);
    let none = Vec::new();
    let word = "x".to_string();
    let semantic = SemanticQuery { model: Model::E5BaseV2, text: &word, top_n: 5 };
    let refused = Err(MyError::InvalidQueryCombination);
    assert_eq!(QuerySpec::new(&none_ids, &none, Some(&word), Some(semantic)), refused);
    assert_eq!(QuerySpec::new(&none_ids, &wanted, Some(&word), Some(semantic)), refused);
    assert_eq!(QuerySpec::new(&none_ids, &none, None, None), refused);
}

#[test]
fn query_takes_the_mode_of_its_parts() {
    let ids = vec![1, 2];
    let none_ids = Vec::new();
    let wanted = tags(&[0]);
    let none = Vec::new();
    let word = "x".to_string();
    let semantic = SemanticQuery { model: Model::E5BaseV2, text: &word, top_n: 5 };
    assert_eq!(QuerySpec::new(&ids, &none, None, None), Ok(QuerySpec::ById { ids: &ids }));
    assert_eq!(
        QuerySpec::new(&none_ids, &wanted, None, None),
        Ok(QuerySpec::ByTags { tags: &wanted })
    );
    assert_eq!(
        QuerySpec::new(&none_ids, &none, Some(&word), None),
        Ok(QuerySpec::ByKeyword { tags: None, text: &word })
    );
    assert_eq!(
        QuerySpec::new(&none_ids, &wanted, Some(&word), None),
        Ok(QuerySpec::ByKeyword { tags: Some(&wanted), text: &word })
    );
    assert_eq!(
        QuerySpec::new(&none_ids, &none, None, Some(semantic)),
        Ok(QuerySpec::BySemantic { tags: None, model: Model::E5BaseV2, text: &word, top_n: 5 })
    );
    assert_eq!(
        QuerySpec::new(&none_ids, &wanted, None, Some(semantic)),
        Ok(QuerySpec::BySemantic {
            tags: Some(&wanted),
            model: Model::E5BaseV2,
            text: &word,
            top_n: 5
        })
    );
}

fn info() -> ModelInfo {
    ModelInfo {
        model: Model::AllMiniLmL6V2,
        model_type: ModelType::AllMiniLmV2,
        model_path: "m/model.safetensors".to_string(),
        config_path: "m/config.json".to_string(),
        tokenizer_path: "m/tokenizer.json".to_string(),
        top_num: 3,
        use_cpu: true,
    }
}

fn request(raw: Paras) -> Request {
    parse_para(&Paras { show_tags: true, ..raw }, &no_env(), &table()).unwrap()
}

#[test]
fn search_is_semantic_where_a_model_was_chosen() {
    let request = request(Paras { search: text("Server"), tag: text("rust"), ..no_paras() });
    let paras = ParsedParas::new(request.clone(), vec!["f".to_string()], Some(info()));
    assert_eq!(paras.files, vec!["f".to_string()]);
    assert_eq!(paras.outpath, "./saved_snippets/");
    assert_eq!(
        paras.query(),
        Ok(QuerySpec::BySemantic {
            tags: Some(&tags(&[3])),
            model: Model::AllMiniLmL6V2,
            text: &"Server".to_string(),
            top_n: 3,
        })
    );
    let paras = ParsedParas::new(request, Vec::new(), None);
    assert_eq!(
        paras.query(),
        Ok(QuerySpec::ByKeyword { tags: Some(&tags(&[3])), text: &"Server".to_string() })
    );
}

#[test]
fn parsed_request_of_ids_with_tags_gives_no_query() {
    let request = request(Paras { id: text("1"), tag: text("rust"), ..no_paras() });
    let paras = ParsedParas::new(request, Vec::new(), Some(info()));
    assert_eq!(paras.query(), Err(MyError::InvalidQueryCombination));
    let request = self::request(Paras { summary: text("all"), ..no_paras() });
    let paras = ParsedParas::new(request, Vec::new(), None);
    assert_eq!(paras.query(), Err(MyError::InvalidQueryCombination));
}

#[test]
fn model_is_judged_in_its_own_directory() {
    assert_eq!(
        judge_model("models", 10, found()),
        Ok(CatalogEntry {
            model_type: ModelType::E5BaseV2,
            model: Model::E5BaseV2,
            paths: ArtifactPaths {
                weights: "models/e5-base-v2/model.safetensors".to_string(),
                config: "models/e5-base-v2/config.json".to_string(),
                tokenizer: "models/e5-base-v2/tokenizer.json".to_string(),
            },
        })
    );
    let probe = ArtifactProbe { tokenizer: false, ..found() };
    assert_eq!(
        judge_model("models", 10, probe),
        Err(MyError::EmbeddingError {
            error: EmbeddingError::ArtifactNotFound {
                path: "models/e5-base-v2/tokenizer.json".to_string()
            }
        })
    );
    assert_eq!(
        judge_model("models", 12, found()),
        Err(MyError::EmbeddingError { error: EmbeddingError::InvalidModelId { id: 12 } })
    );
}

#[test]
fn model_that_is_not_on_disk_is_not_found() {
    assert_eq!(
        check_model_exist("/no/such/models", 1),
        Err(MyError::EmbeddingError {
            error: EmbeddingError::ArtifactNotFound {
                path: "/no/such/models/granite-embedding-small-english-r2/model.safetensors"
                    .to_string()
            }
        })
    );
    assert_eq!(
        check_model_exist("/no/such/models", 0),
        Err(MyError::EmbeddingError { error: EmbeddingError::InvalidModelId { id: 0 } })
    );
    let given = ModelRequest { id: 1, place: ModelPlace::Given { path: "/no/such".to_string() } };
    assert_eq!(
        locate_model(&given, "/bin/embedding_models", 5, false),
        Err(MyError::EmbeddingError {
            error: EmbeddingError::ArtifactNotFound {
                path: "/no/such/granite-embedding-small-english-r2/model.safetensors".to_string()
            }
        })
    );
    let search =
        ModelRequest { id: 1, place: ModelPlace::Search { env_path: "/no/such".to_string() } };
    assert_eq!(
        locate_model(&search, "/no/bin/embedding_models", 5, false),
        Err(MyError::ModelNotFound { binary_path: "/no/bin/embedding_models".to_string() })
    );
}

#[test]
fn first_place_that_holds_the_model_wins() {
    let entry = |dir: &str| {
        Ok((
            Model::E5BaseV2,
            ModelType::E5BaseV2,
            format!("{}/model.safetensors", dir),
            format!("{}/config.json", dir),
            format!("{}/tokenizer.json", dir),
        ))
    };
    let missing = || {
        Err(MyError::EmbeddingError {
            error: EmbeddingError::ArtifactNotFound { path: "x".to_string() },
        })
    };
    assert_eq!(first_found(entry("a"), entry("b"), entry("c"), "b"), entry("a"));
    assert_eq!(first_found(missing(), entry("b"), entry("c"), "b"), entry("b"));
    assert_eq!(first_found(missing(), missing(), entry("c"), "b"), entry("c"));
    assert_eq!(
        first_found(missing(), missing(), missing(), "b"),
        Err(MyError::ModelNotFound { binary_path: "b".to_string() })
    );
}

#[test]
fn model_info_takes_the_entry_and_the_settings() {
    let found = (
        Model::AllMiniLmL6V2,
        ModelType::AllMiniLmV2,
        "models/all-MiniLM-L6-v2/model.safetensors".to_string(),
        "models/all-MiniLM-L6-v2/config.json".to_string(),
        "models/all-MiniLM-L6-v2/tokenizer.json".to_string(),
    );
    assert_eq!(
        ModelInfo::new(found, 3, true),
        ModelInfo {
            model: Model::AllMiniLmL6V2,
            model_type: ModelType::AllMiniLmV2,
            model_path: "models/all-MiniLM-L6-v2/model.safetensors".to_string(),
            config_path: "models/all-MiniLM-L6-v2/config.json".to_string(),
            tokenizer_path: "models/all-MiniLM-L6-v2/tokenizer.json".to_string(),
            top_num: 3,
            use_cpu: true,
        }
    );
}

fn probe(path: &str, is_file: bool) -> PathProbe {
    PathProbe { path: path.to_string(), is_file }
}

#[test]
fn snippet_files_are_picked_by_extension() {
    let entries = vec![
        probe("d/a.snippets", true),
        probe("d/b.txt", true),
        probe("d/c.snippets", false),
        probe("d/snippets", true),
        probe("d/.snippets", true),
        probe("d/e.SNIPPETS", true),
        probe("d/f.tar.snippets", true),
    ];
    assert_eq!(pick_snippet_files(&entries), vec!["d/a.snippets", "d/f.tar.snippets"]);
    assert_eq!(pick_snippet_files(&Vec::new()), Vec::<String>::new());
}

#[test]
fn named_files_have_to_be_on_disk() {
    let entries = vec![probe("a", true), probe("b", true)];
    assert_eq!(take_named_files(&entries), Ok(vec!["a".to_string(), "b".to_string()]));
    let entries = vec![probe("a", true), probe("b", false), probe("c", false)];
    assert_eq!(
        take_named_files(&entries),
        Err(MyError::FileNotExistError { file: "b".to_string() })
    );
}

#[test]
fn files_that_are_not_on_disk_are_reported() {
    assert_eq!(
        get_snippet_files("/no/such/a.snippets,/no/such/b.snippets"),
        Err(MyError::FileNotExistError { file: "/no/such/a.snippets".to_string() })
    );
    assert_eq!(get_snippet_files(""), Err(MyError::FileNotExistError { file: "".to_string() }));
    assert_eq!(get_snippets("/no/such/directory"), Vec::<String>::new());
}

#[test]
fn files_found_without_a_name_are_snippet_files() {
    for file in snippets::utils::get_snippet_files(None) {
        assert!(file.ends_with(".snippets"));
    }
    for file in snippets::utils::get_snippet_files(Some("/no/such/directory")) {
        assert!(file.ends_with(".snippets"));
    }
}
