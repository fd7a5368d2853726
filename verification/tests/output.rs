use snippets::output::{clipboard_text, commit_format, has_name, join_with};
use snippets::snip::{SingleSnippet, Snippets};
use snippets::tag::{SnipTag, TagTable};

fn strings(list: &[&str]) -> Vec<String> {
    list.iter().map(|n| n.to_string()).collect()
}

fn table() -> TagTable {
    TagTable::new(&strings(&["Rust", "Bio", "Shell", "Python"])).unwrap()
}

fn tags(codes: &[usize]) -> Vec<SnipTag> {
    codes.iter().map(|c| SnipTag { code: *c }).collect()
}

#[test]
fn texts_are_joined_with_a_separator() {
    assert_eq!(join_with(&strings(&["a", "b", "c"]), ", "), "a, b, c");
    assert_eq!(join_with(&strings(&["a"]), ", "), "a");
    assert_eq!(join_with(&strings(&[]), ", "), "");
    assert_eq!(join_with(&strings(&["", ""]), "-"), "-");
    assert_eq!(join_with(&strings(&["a", "b"]), ""), "ab");
}

#[test]
fn joining_agrees_with_the_standard_library() {
    for parts in [vec![], vec!["x"], vec!["x", "", "y"], vec!["", "", ""]] {
        for separator in ["", ",", ", ", "\n"] {
            assert_eq!(join_with(&strings(&parts), separator), parts.join(separator));
        }
    }
}

#[test]
fn tags_are_shown_by_name() {
    let table = table();
    assert_eq!(table.supported_tags(), "Bio, Python, Rust, Shell");
    assert_eq!(table.format_tags(&tags(&[2, 0])), "Rust, Bio");
    assert_eq!(table.format_tags(&tags(&[])), "");
    assert_eq!(table.format_tags(&tags(&[3])), "Shell");
    assert_eq!(table.tag_names(&tags(&[1, 9, 3])), strings(&["Python", "Shell"]));
}

#[test]
fn table_without_tags_supports_none() {
    assert_eq!(TagTable::new(&Vec::new()).unwrap().supported_tags(), "");
}

#[test]
fn names_are_looked_up_as_they_stand() {
    let names = strings(&["Rust", "Shell"]);
    assert!(has_name(&names, "Rust"));
    assert!(!has_name(&names, "rust"));
    assert!(!has_name(&names, "Rus"));
    assert!(!has_name(&Vec::new(), ""));
}

#[test]
fn language_gives_comment_sign_and_extension() {
    assert_eq!(commit_format(&strings(&["Python"])), ("# ", "py"));
    assert_eq!(commit_format(&strings(&["R"])), ("# ", "r"));
    assert_eq!(commit_format(&strings(&["Rust"])), ("// ", "rs"));
    assert_eq!(commit_format(&strings(&["Shell"])), ("# ", "sh"));
    assert_eq!(commit_format(&strings(&["Go"])), ("// ", "go"));
    assert_eq!(commit_format(&strings(&["Js"])), ("// ", "js"));
    assert_eq!(commit_format(&strings(&["Bio"])), ("", "txt"));
    assert_eq!(commit_format(&strings(&[])), ("", "txt"));
}

#[test]
fn first_language_in_the_fixed_order_wins() {
    assert_eq!(commit_format(&strings(&["Js", "Shell", "Rust"])), ("// ", "rs"));
    assert_eq!(commit_format(&strings(&["Go", "R", "Bio"])), ("# ", "r"));
    assert_eq!(commit_format(&strings(&["Shell", "Python"])), ("# ", "py"));
    assert_eq!(commit_format(&strings(&["python", "Js"])), ("// ", "js"));
}

#[test]
fn saved_text_has_the_discription_on_one_line() {
    let snippet = SingleSnippet::new(
        &tags(&[0]),
        "a description that is too long",
        "  fn main() {}\r\n  // done\r\n\n",
        Vec::new(),
    )
    .unwrap();
    assert_eq!(
        snippet.saved("// "),
        "// a description that is too long\nfn main() {}\n  // done\n"
    );
    assert_eq!(snippet.saved(""), "a description that is too long\nfn main() {}\n  // done\n");
    let shown: String = snippet.shown().into_iter().collect();
    assert_eq!(shown, "fn main() {}\n  // done");
}

#[test]
fn copied_text_has_an_empty_line_after_each_snippet() {
    let store = Snippets::new(
        vec![
            SingleSnippet::new(&tags(&[0]), "a", " one\r\n", Vec::new()).unwrap(),
            SingleSnippet::new(&tags(&[0]), "b", "two", Vec::new()).unwrap(),
        ],
        None,
    );
    let hits = store.get_by_ids(&vec![1, 0]).unwrap();
    assert_eq!(clipboard_text(&hits), "two\n\none\n\n");
    assert_eq!(clipboard_text(&Vec::new()), "");
}
