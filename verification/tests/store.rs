use snippets::error::MyError;
use snippets::model::Model;
use snippets::parse_paras::QuerySpec;
use snippets::rank::{Scored, Similarity};
use snippets::snip::{
    has_some_tag, has_tag, has_tags, models_differ, tags_le, Candidate, Embedding,
    EmbeddingSource, Hit, Selection, SingleSnippet, Snippets, TagCount,
};
use snippets::tag::SnipTag;

fn tags(codes: &[usize]) -> Vec<SnipTag> {
    codes.iter().map(|c| SnipTag { code: *c }).collect()
}

fn snippet(codes: &[usize], discription: &str, content: &str) -> SingleSnippet {
    SingleSnippet::new(&tags(codes), discription, content, Vec::new()).unwrap()
}

fn store() -> Snippets {
    Snippets::new(
        vec![
            snippet(&[2], "list files", "ls -la"),
            snippet(&[0, 1], "Build a Web Server", "cargo new server"),
            snippet(&[1], "bake a cake", "flour, eggs, SUGAR"),
            snippet(&[0], "read a file", "std::fs::read"),
            snippet(&[1, 0, 2], "all of them", "everything"),
            snippet(&[0, 1], "Another server", "nginx"),
        ],
        None,
    )
}

fn ids(hits: &Vec<Hit>) -> Vec<usize> {
    hits.iter().map(|h| h.id).collect()
}

fn discriptions(store: &Snippets) -> Vec<String> {
    (0..store.len()).map(|i| store.snippet(i).unwrap().discription().clone()).collect()
}

fn score(value: f32) -> Similarity {
    Similarity::from_bits(value.to_bits()).unwrap()
}

#[test]
fn snippet_needs_a_tag() {
    assert_eq!(SingleSnippet::new(&Vec::new(), "d", "c", Vec::new()), None);
}

#[test]
fn snippet_holds_its_tags_as_a_sorted_set() {
    let s = snippet(&[3, 1, 3, 2, 1], "d", "c");
    assert_eq!(s.tags(), &tags(&[1, 2, 3]));
}

#[test]
fn snippet_keeps_content_and_normalises_discription() {
    let s = snippet(&[0], "  a description that is too long \r\n", "  content \r\n");
    assert_eq!(s.discription(), "a description that i\ns too long");
    assert_eq!(s.content(), "  content \r\n");
    assert_eq!(s.embedding_text(), "a description that is too long");
}

#[test]
fn tags_compare_in_dictionary_order() {
    assert!(tags_le(&tags(&[0]), &tags(&[0, 1])));
    assert!(!tags_le(&tags(&[0, 1]), &tags(&[0])));
    assert!(tags_le(&tags(&[0, 5]), &tags(&[1])));
    assert!(!tags_le(&tags(&[1]), &tags(&[0, 5])));
    assert!(tags_le(&tags(&[2, 3]), &tags(&[2, 3])));
    assert!(tags_le(&tags(&[]), &tags(&[0])));
    assert!(!tags_le(&tags(&[0]), &tags(&[])));
    for a in [vec![], vec![0], vec![0, 1], vec![0, 2], vec![1], vec![1, 2, 3]] {
        for b in [vec![], vec![0], vec![0, 1], vec![0, 2], vec![1], vec![1, 2, 3]] {
            assert_eq!(tags_le(&tags(&a), &tags(&b)), a <= b);
        }
    }
}

#[test]
fn store_is_ordered_by_tags_then_discription() {
    assert_eq!(
        discriptions(&store()),
        vec![
            "read a file",
            "Another server",
            "Build a Web Server",
            "all of them",
            "bake a cake",
            "list files",
        ]
    );
}

#[test]
fn store_order_does_not_depend_on_the_order_given() {
    let expected = discriptions(&store());
    let reversed = Snippets::new(
        vec![
            snippet(&[0, 1], "Another server", "nginx"),
            snippet(&[1, 0, 2], "all of them", "everything"),
            snippet(&[0], "read a file", "std::fs::read"),
            snippet(&[1], "bake a cake", "flour, eggs, SUGAR"),
            snippet(&[0, 1], "Build a Web Server", "cargo new server"),
            snippet(&[2], "list files", "ls -la"),
        ],
        None,
    );
    assert_eq!(discriptions(&reversed), expected);
}

#[test]
fn snippets_that_the_order_does_not_tell_apart_stay_as_given() {
    let store = Snippets::new(
        vec![
            snippet(&[1], "same", "first"),
            snippet(&[0], "other", "x"),
            snippet(&[1], "same", "second"),
            snippet(&[1], "same", "third"),
        ],
        None,
    );
    let contents: Vec<String> =
        (0..store.len()).map(|i| store.snippet(i).unwrap().content().clone()).collect();
    assert_eq!(contents, vec!["x", "first", "second", "third"]);
}

#[test]
fn discriptions_are_ordered_by_code_point() {
    let store = Snippets::new(
        vec![snippet(&[0], "b", ""), snippet(&[0], "B", ""), snippet(&[0], "a", ""), snippet(&[0], "é", "")],
        None,
    );
    assert_eq!(discriptions(&store), vec!["B", "a", "b", "é"]);
}

#[test]
fn empty_store_answers_with_nothing() {
    let store = Snippets::new(Vec::new(), None);
    assert_eq!(store.len(), 0);
    assert_eq!(store.get_by_categories(&tags(&[0])), Vec::new());
    assert_eq!(store.get_by_search(None, "x"), Vec::new());
    assert_eq!(store.get_by_ids(&vec![]), Ok(Vec::new()));
    assert_eq!(store.get_by_ids(&vec![0]), Err(MyError::SnippetIdOutOfRange { id: 0 }));
}

#[test]
fn ids_give_snippets_in_the_order_asked() {
    let store = store();
    let hits = store.get_by_ids(&vec![5, 0, 5]).unwrap();
    assert_eq!(ids(&hits), vec![5, 0, 5]);
    assert_eq!(hits[0].snippet.discription(), "list files");
    assert_eq!(hits[1].snippet.discription(), "read a file");
    assert_eq!(hits[2].snippet, store.snippet(5).unwrap());
    assert!(hits.iter().all(|h| h.similarity.is_none()));
}

#[test]
fn id_at_the_size_of_the_store_is_out_of_range() {
    let store = store();
    assert_eq!(store.len(), 6);
    assert_eq!(store.get_by_ids(&vec![6]), Err(MyError::SnippetIdOutOfRange { id: 6 }));
    assert_eq!(store.get_by_ids(&vec![usize::MAX]), Err(MyError::SnippetIdOutOfRange { id: usize::MAX }));
    assert_eq!(store.snippet(6), None);
}

#[test]
fn first_id_out_of_range_is_reported() {
    let store = store();
    assert_eq!(store.get_by_ids(&vec![1, 9, 2, 7]), Err(MyError::SnippetIdOutOfRange { id: 9 }));
}

#[test]
fn tag_tests_on_lists() {
    assert!(has_tag(&tags(&[1, 4]), SnipTag { code: 4 }));
    assert!(!has_tag(&tags(&[1, 4]), SnipTag { code: 2 }));
    assert!(has_tags(&tags(&[1, 2, 4]), &tags(&[4, 1])));
    assert!(has_tags(&tags(&[1, 2, 4]), &tags(&[])));
    assert!(!has_tags(&tags(&[1, 2, 4]), &tags(&[1, 3])));
    assert!(has_some_tag(&tags(&[1, 2, 4]), &tags(&[3, 4])));
    assert!(!has_some_tag(&tags(&[1, 2, 4]), &tags(&[0, 3])));
    assert!(!has_some_tag(&tags(&[1, 2, 4]), &tags(&[])));
}

#[test]
fn tags_select_the_snippets_that_have_all_of_them() {
    let store = store();
    assert_eq!(ids(&store.get_by_categories(&tags(&[0]))), vec![0, 1, 2, 3]);
    assert_eq!(ids(&store.get_by_categories(&tags(&[1]))), vec![1, 2, 3, 4]);
    assert_eq!(ids(&store.get_by_categories(&tags(&[0, 1]))), vec![1, 2, 3]);
    assert_eq!(ids(&store.get_by_categories(&tags(&[1, 0]))), vec![1, 2, 3]);
    assert_eq!(ids(&store.get_by_categories(&tags(&[0, 1, 2]))), vec![3]);
    assert_eq!(ids(&store.get_by_categories(&tags(&[2, 2]))), vec![3, 5]);
    assert_eq!(ids(&store.get_by_categories(&tags(&[7]))), Vec::<usize>::new());
    assert_eq!(ids(&store.get_by_categories(&tags(&[0, 7]))), Vec::<usize>::new());
}

#[test]
fn tags_select_exactly_the_supersets() {
    let store = store();
    let wanted = tags(&[0, 1]);
    let hits = ids(&store.get_by_categories(&wanted));
    for id in 0..store.len() {
        let has_all = wanted.iter().all(|t| store.snippet(id).unwrap().tags().contains(t));
        assert_eq!(hits.contains(&id), has_all);
    }
}

#[test]
fn keyword_is_found_whatever_the_case() {
    let store = store();
    assert_eq!(ids(&store.get_by_search(None, "SERVER")), vec![1, 2]);
    assert_eq!(ids(&store.get_by_search(None, "server")), vec![1, 2]);
    assert_eq!(ids(&store.get_by_search(None, "sugar")), vec![4]);
    assert_eq!(ids(&store.get_by_search(None, "Nginx")), vec![1]);
    assert_eq!(ids(&store.get_by_search(None, "nothing like it")), Vec::<usize>::new());
}

#[test]
fn empty_keyword_matches_everything() {
    let store = store();
    assert_eq!(ids(&store.get_by_search(None, "")), vec![0, 1, 2, 3, 4, 5]);
}

#[test]
fn keyword_is_narrowed_by_tags() {
    let store = store();
    assert_eq!(ids(&store.get_by_search(None, "a")), vec![0, 1, 2, 3, 4, 5]);
    assert_eq!(ids(&store.get_by_search(Some(&tags(&[2])), "a")), vec![3, 5]);
    assert_eq!(ids(&store.get_by_search(Some(&tags(&[0, 1])), "server")), vec![1, 2]);
    assert_eq!(ids(&store.get_by_search(Some(&tags(&[2])), "server")), Vec::<usize>::new());
}

#[test]
fn keyword_is_found_across_the_lines_of_a_discription() {
    let store = Snippets::new(
        vec![snippet(&[0], "a description that is too long", "x")],
        None,
    );
    assert_eq!(store.snippet(0).unwrap().discription(), "a description that i\ns too long");
    assert_eq!(ids(&store.get_by_search(None, "that is")), vec![0]);
    assert_eq!(ids(&store.get_by_search(None, "that i\ns")), Vec::<usize>::new());
}

#[test]
fn keyword_keeps_its_line_feeds_in_content() {
    let store = Snippets::new(vec![snippet(&[0], "d", "one\ntwo")], None);
    assert_eq!(ids(&store.get_by_search(None, "one\ntwo")), vec![0]);
    assert_eq!(ids(&store.get_by_search(None, "onetwo")), Vec::<usize>::new());
}

#[test]
fn scan_combines_tags_and_keyword() {
    let store = store();
    let word: Vec<char> = "server".chars().collect();
    assert_eq!(store.scan(None, None), vec![0, 1, 2, 3, 4, 5]);
    assert_eq!(store.scan(Some(&tags(&[0])), None), vec![0, 1, 2, 3]);
    assert_eq!(store.scan(None, Some(&word)), vec![1, 2]);
    assert_eq!(store.scan(Some(&tags(&[2])), Some(&word)), Vec::<usize>::new());
}

#[test]
fn summary_takes_snippets_with_any_of_the_tags() {
    let store = store();
    assert_eq!(ids(&store.summary(&tags(&[2]))), vec![3, 5]);
    assert_eq!(ids(&store.summary(&tags(&[0, 2]))), vec![0, 1, 2, 3, 5]);
    assert_eq!(ids(&store.summary(&tags(&[]))), Vec::<usize>::new());
    assert_eq!(ids(&store.summary(&tags(&[9]))), Vec::<usize>::new());
}

#[test]
fn summary_counts_each_tag() {
    let store = store();
    let all = tags(&[0, 1, 2]);
    assert_eq!(store.count_tag(&all, SnipTag { code: 0 }), 4);
    assert_eq!(store.count_tag(&all, SnipTag { code: 1 }), 4);
    assert_eq!(store.count_tag(&all, SnipTag { code: 2 }), 2);
    assert_eq!(store.count_tag(&all, SnipTag { code: 3 }), 0);
    assert_eq!(store.count_tag(&tags(&[2]), SnipTag { code: 0 }), 1);
    assert_eq!(store.summary_ids(&tags(&[2]), Some(SnipTag { code: 1 })), vec![3]);
}

#[test]
fn precomputed_embedding_is_found_by_its_model() {
    let s = SingleSnippet::new(
        &tags(&[0]),
        "d",
        "c",
        vec![
            Embedding { model: Model::E5BaseV2, bits: vec![1, 2] },
            Embedding { model: Model::AllMiniLmL6V2, bits: vec![3] },
            Embedding { model: Model::E5BaseV2, bits: vec![4] },
        ],
    );
    assert_eq!(s, None);
    let s = SingleSnippet::new(
        &tags(&[0]),
        "d",
        "c",
        vec![
            Embedding { model: Model::E5BaseV2, bits: vec![1, 2] },
            Embedding { model: Model::AllMiniLmL6V2, bits: vec![3] },
        ],
    )
    .unwrap();
    assert_eq!(s.precomputed(Model::E5BaseV2), Some(&vec![1, 2]));
    assert_eq!(s.precomputed(Model::AllMiniLmL6V2), Some(&vec![3]));
    assert_eq!(s.precomputed(Model::MultilingualE5Small), None);
    assert_eq!(s.embedding().len(), 2);
}

#[test]
fn a_model_has_one_embedding() {
    let one = |model: Model| Embedding { model, bits: vec![7] };
    assert!(models_differ(&Vec::new()));
    assert!(models_differ(&vec![one(Model::E5BaseV2)]));
    assert!(models_differ(&vec![one(Model::E5BaseV2), one(Model::AllMiniLmL6V2)]));
    assert!(!models_differ(&vec![one(Model::E5BaseV2), one(Model::E5BaseV2)]));
    assert!(!models_differ(&vec![
        one(Model::E5BaseV2),
        one(Model::AllMiniLmL6V2),
        one(Model::MultilingualE5Small),
        one(Model::AllMiniLmL6V2),
    ]));
}

#[test]
fn tally_is_in_non_increasing_order_of_count() {
    let store = store();
    let all = tags(&[0, 1, 2]);
    assert_eq!(
        store.tally(&all, 3),
        vec![
            TagCount { tag: SnipTag { code: 0 }, count: 4 },
            TagCount { tag: SnipTag { code: 1 }, count: 4 },
            TagCount { tag: SnipTag { code: 2 }, count: 2 },
        ]
    );
    assert_eq!(
        store.tally(&tags(&[2]), 5),
        vec![
            TagCount { tag: SnipTag { code: 2 }, count: 2 },
            TagCount { tag: SnipTag { code: 0 }, count: 1 },
            TagCount { tag: SnipTag { code: 1 }, count: 1 },
        ]
    );
}

#[test]
fn tally_leaves_out_tags_that_do_not_occur() {
    let store = store();
    assert_eq!(store.tally(&tags(&[0, 1, 2]), 0), Vec::new());
    assert_eq!(store.tally(&tags(&[]), 3), Vec::new());
    assert_eq!(store.tally(&tags(&[9]), 10), Vec::new());
    assert_eq!(
        store.tally(&tags(&[0, 1, 2]), 2),
        vec![
            TagCount { tag: SnipTag { code: 0 }, count: 4 },
            TagCount { tag: SnipTag { code: 1 }, count: 4 },
        ]
    );
    let uneven = Snippets::new(
        vec![snippet(&[1], "a", ""), snippet(&[1, 3], "b", ""), snippet(&[3], "c", ""), snippet(&[3, 0], "d", "")],
        None,
    );
    assert_eq!(
        uneven.tally(&tags(&[0, 1, 2, 3]), 4),
        vec![
            TagCount { tag: SnipTag { code: 3 }, count: 3 },
            TagCount { tag: SnipTag { code: 1 }, count: 2 },
            TagCount { tag: SnipTag { code: 0 }, count: 1 },
        ]
    );
}

#[test]
fn candidates_carry_their_embedding_or_the_text_to_embed() {
    let store = Snippets::new(
        vec![
            SingleSnippet::new(
                &tags(&[0]),
                "with a vector",
                "",
                vec![Embedding { model: Model::E5BaseV2, bits: vec![0x3f80_0000, 0] }],
            )
            .unwrap(),
            snippet(&[0, 1], "without a vector, and long enough to be cut", ""),
            snippet(&[1], "zz", ""),
        ],
        None,
    );
    let list = store.semantic_candidates(Some(&tags(&[0])), Model::E5BaseV2);
    assert_eq!(
        list,
        vec![
            Candidate {
                id: 0,
                source: EmbeddingSource::Cached { bits: &vec![0x3f80_0000, 0] }
            },
            Candidate {
                id: 1,
                source: EmbeddingSource::Compute {
                    text: "without a vector, and long enough to be cut".to_string()
                }
            },
        ]
    );
    let other = store.semantic_candidates(None, Model::AllMiniLmL6V2);
    assert_eq!(other.len(), 3);
    assert_eq!(
        other[0].source,
        EmbeddingSource::Compute { text: "with a vector".to_string() }
    );
}

#[test]
fn semantic_hits_are_ranked_and_cut() {
    let store = store();
    let scored = vec![
        Scored { id: 0, score: score(0.2) },
        Scored { id: 1, score: score(0.7) },
        Scored { id: 2, score: score(0.7) },
        Scored { id: 3, score: score(-0.1) },
        Scored { id: 4, score: score(0.9) },
    ];
    let hits = store.semantic_hits(&scored, 3).unwrap();
    assert_eq!(ids(&hits), vec![4, 1, 2]);
    assert_eq!(hits[0].similarity, Some(score(0.9)));
    assert_eq!(hits[0].snippet, store.snippet(4).unwrap());
    assert_eq!(hits[2].similarity, Some(score(0.7)));
}

#[test]
fn asking_for_a_thousand_of_five_gives_five() {
    let store = store();
    let scored = vec![
        Scored { id: 0, score: score(0.2) },
        Scored { id: 1, score: score(0.7) },
        Scored { id: 2, score: score(0.1) },
        Scored { id: 3, score: score(0.5) },
        Scored { id: 4, score: score(0.9) },
    ];
    let hits = store.semantic_hits(&scored, 1000).unwrap();
    assert_eq!(hits.len(), 5);
    assert_eq!(ids(&hits), vec![4, 1, 3, 0, 2]);
    let values: Vec<f32> =
        hits.iter().map(|h| f32::from_bits(h.similarity.unwrap().to_bits())).collect();
    assert_eq!(values, vec![0.9, 0.7, 0.5, 0.2, 0.1]);
}

#[test]
fn score_for_an_unknown_snippet_fails() {
    let store = store();
    let scored = vec![
        Scored { id: 0, score: score(0.2) },
        Scored { id: 6, score: score(0.7) },
        Scored { id: 9, score: score(0.7) },
    ];
    assert_eq!(store.semantic_hits(&scored, 3), Err(MyError::SnippetIdOutOfRange { id: 6 }));
}

fn toy_embedding(text: &str) -> Vec<f32> {
    let mut v = vec![0.0f32; 3];
    for word in text.to_lowercase().split_whitespace() {
        match word {
            "server" | "http" | "web" => v[0] += 1.0,
            "cake" | "bake" => v[1] += 1.0,
            _ => v[2] += 0.25,
        }
    }
    let norm = v.iter().map(|x| x * x).sum::<f32>().sqrt().max(1e-12);
    v.iter().map(|x| x / norm).collect()
}

fn cosine(a: &Vec<f32>, b: &Vec<f32>) -> f32 {
    let dot: f32 = a.iter().zip(b.iter()).map(|(x, y)| x * y).sum();
    let na = a.iter().map(|x| x * x).sum::<f32>().sqrt();
    let nb = b.iter().map(|x| x * x).sum::<f32>().sqrt();
    if na == 0.0 || nb == 0.0 {
        0.0
    } else {
        dot / (na * nb)
    }
}

#[test]
fn server_text_ranks_the_web_server_first() {
    let store = Snippets::new(
        vec![
            snippet(&[0], "bake a cake", "recipe"),
            snippet(&[0], "build a web server", "code"),
        ],
        None,
    );
    let query = toy_embedding("http server");
    let mut scored = Vec::new();
    for candidate in store.semantic_candidates(None, Model::E5BaseV2) {
        let vector = match candidate.source {
            EmbeddingSource::Cached { bits } => bits.iter().map(|b| f32::from_bits(*b)).collect(),
            EmbeddingSource::Compute { text } => toy_embedding(&text),
        };
        let value = cosine(&query, &vector);
        scored.push(Scored { id: candidate.id, score: Similarity::from_bits(value.to_bits()).unwrap() });
    }
    let hits = store.semantic_hits(&scored, 5).unwrap();
    assert_eq!(hits.len(), 2);
    assert_eq!(hits[0].snippet.discription(), "build a web server");
    assert_eq!(hits[1].snippet.discription(), "bake a cake");
    let first = f32::from_bits(hits[0].similarity.unwrap().to_bits());
    let second = f32::from_bits(hits[1].similarity.unwrap().to_bits());
    assert!(first > second);
}

#[test]
fn query_runs_in_its_mode() {
    let store = store();
    let wanted_ids = vec![2, 0];
    let wanted_tags = tags(&[2]);
    let text = "SERVER".to_string();
    match store.get(&QuerySpec::ById { ids: &wanted_ids }) {
        Ok(Selection::Hits { hits }) => assert_eq!(ids(&hits), vec![2, 0]),
        other => panic!("{:?}", other),
    }
    match store.get(&QuerySpec::ByTags { tags: &wanted_tags }) {
        Ok(Selection::Hits { hits }) => assert_eq!(ids(&hits), vec![3, 5]),
        other => panic!("{:?}", other),
    }
    match store.get(&QuerySpec::ByKeyword { tags: None, text: &text }) {
        Ok(Selection::Hits { hits }) => assert_eq!(ids(&hits), vec![1, 2]),
        other => panic!("{:?}", other),
    }
    match store.get(&QuerySpec::BySemantic {
        tags: Some(&wanted_tags),
        model: Model::E5BaseV2,
        text: &text,
        top_n: 3,
    }) {
        Ok(Selection::Candidates { list }) => {
            let found: Vec<usize> = list.iter().map(|c| c.id).collect();
            assert_eq!(found, vec![3, 5]);
        }
        other => panic!("{:?}", other),
    }
    let bad = vec![6];
    assert_eq!(
        store.get(&QuerySpec::ById { ids: &bad }),
        Err(MyError::SnippetIdOutOfRange { id: 6 })
    );
}

#[test]
fn store_keeps_the_model_it_was_given() {
    assert_eq!(store().embedding(), &None);
}
