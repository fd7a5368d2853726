use vstd::prelude::*;
use crate::snip::{Hit, SingleSnippet, codes};
use crate::tag::{SnipTag, TagTable};
use crate::text::{append_range, remove_char, trim, trimmed, without};
use crate::unicode::{chars_of, same_text, text_of};

verus! {

/// Texts put together with a separator between them.
pub open spec fn joined_with(parts: Seq<Seq<char>>, separator: Seq<char>) -> Seq<char>
    decreases parts.len(),
{
    if parts.len() == 0 {
        Seq::empty()
    } else if parts.len() == 1 {
        parts[0]
    } else {
        joined_with(parts.drop_last(), separator) + separator + parts.last()
    }
}

/// The texts of a list of strings.
pub open spec fn texts_of(parts: Seq<String>) -> Seq<Seq<char>> {
    parts.map_values(|p: String| p@)
}

/// Puts texts together with a separator between them.
pub fn join_with(parts: &Vec<String>, separator: &str) -> (r: String)
    ensures
        r@ == joined_with(texts_of(parts@), separator@),
{
    let sep = chars_of(separator);
    let mut out: Vec<char> = Vec::new();
    let mut i: usize = 0;
    let ghost all = texts_of(parts@);
    while i < parts.len()
        invariant
            0 <= i <= parts.len(),
            all == texts_of(parts@),
            sep@ == separator@,
            out@ == joined_with(all.take(i as int), separator@),
        decreases parts.len() - i,
    {
        if i > 0 {
            append_range(&mut out, &sep, 0, sep.len());
            proof {
                assert(sep@.subrange(0, sep@.len() as int) =~= sep@);
            }
        }
        let part = chars_of(parts[i].as_str());
        append_range(&mut out, &part, 0, part.len());
        proof {
            assert(part@.subrange(0, part@.len() as int) =~= part@);
            let upto = all.take(i + 1);
            assert(upto.drop_last() =~= all.take(i as int));
            assert(upto.last() == parts@[i as int]@);
            if i == 0 {
                assert(out@ =~= upto[0]);
            }
        }
        i = i + 1;
    }
    proof {
        assert(all.take(i as int) =~= all);
    }
    text_of(&out)
}

/// The names of the tags of a list that a table has, in the order of the list.
pub open spec fn names_of(names: Seq<Seq<char>>, tags: Seq<int>) -> Seq<Seq<char>>
    decreases tags.len(),
{
    if tags.len() == 0 {
        Seq::empty()
    } else if 0 <= tags.last() < names.len() {
        names_of(names, tags.drop_last()).push(names[tags.last()])
    } else {
        names_of(names, tags.drop_last())
    }
}

/// The comment sign that a saved snippet begins with, by the names of its tags:
/// that of the first language in the order Python, R, Rust, Shell, Go, Js; none
/// without such a tag.
pub open spec fn comment_sign(names: Seq<Seq<char>>) -> Seq<char> {
    if names.contains("Python"@) {
        "# "@
    } else if names.contains("R"@) {
        "# "@
    } else if names.contains("Rust"@) {
        "// "@
    } else if names.contains("Shell"@) {
        "# "@
    } else if names.contains("Go"@) {
        "// "@
    } else if names.contains("Js"@) {
        "// "@
    } else {
        ""@
    }
}

/// The extension of the file that a snippet is saved to, by the names of its
/// tags: that of the first language in the order Python, R, Rust, Shell, Go,
/// Js; `txt` without such a tag.
pub open spec fn file_extension(names: Seq<Seq<char>>) -> Seq<char> {
    if names.contains("Python"@) {
        "py"@
    } else if names.contains("R"@) {
        "r"@
    } else if names.contains("Rust"@) {
        "rs"@
    } else if names.contains("Shell"@) {
        "sh"@
    } else if names.contains("Go"@) {
        "go"@
    } else if names.contains("Js"@) {
        "js"@
    } else {
        "txt"@
    }
}

/// Whether a list of names holds a name.
pub fn has_name(names: &Vec<String>, name: &str) -> (r: bool)
    ensures
        r == texts_of(names@).contains(name@),
{
    let mut i: usize = 0;
    while i < names.len()
        invariant
            0 <= i <= names.len(),
            forall|k: int| 0 <= k < i ==> texts_of(names@)[k] != name@,
        decreases names.len() - i,
    {
        if same_text(names[i].as_str(), name) {
            assert(texts_of(names@)[i as int] == name@);
            return true;
        }
        i = i + 1;
    }
    false
}

/// The comment sign and the file extension for a snippet with tags of the
/// given names.
pub fn commit_format(names: &Vec<String>) -> (r: (&'static str, &'static str))
    ensures
        r.0@ == comment_sign(texts_of(names@)),
        r.1@ == file_extension(texts_of(names@)),
{
    if has_name(names, "Python") {
        ("# ", "py")
    } else if has_name(names, "R") {
        ("# ", "r")
    } else if has_name(names, "Rust") {
        ("// ", "rs")
    } else if has_name(names, "Shell") {
        ("# ", "sh")
    } else if has_name(names, "Go") {
        ("// ", "go")
    } else if has_name(names, "Js") {
        ("// ", "js")
    } else {
        ("", "txt")
    }
}

/// What a snippet holds, as it is shown, saved and copied: without the white
/// space around it and without carriage returns.
pub open spec fn shown_content(content: Seq<char>) -> Seq<char> {
    without(trimmed(content), '\r')
}

/// The text of the file that a snippet is saved to: the comment sign, the
/// description as one line, and on the lines after it what the snippet holds.
pub open spec fn saved_text(comment: Seq<char>, discription: Seq<char>, content: Seq<char>) -> Seq<char> {
    comment + without(discription, '\n') + seq!['\n'] + shown_content(content) + seq!['\n']
}

/// The text that is copied for a list of snippets: what each holds, with an
/// empty line after it.
pub open spec fn copied_text(contents: Seq<Seq<char>>) -> Seq<char>
    decreases contents.len(),
{
    if contents.len() == 0 {
        Seq::empty()
    } else {
        copied_text(contents.drop_last()) + shown_content(contents.last()) + seq!['\n', '\n']
    }
}

/// The contents of the snippets of a list of hits.
pub open spec fn hit_contents(hits: Seq<Hit>) -> Seq<Seq<char>> {
    hits.map_values(|h: Hit| h.snippet@.content)
}

impl TagTable {
    /// The names of the tags of a list that the table has, in the order of the
    /// list.
    pub fn tag_names(&self, tags: &Vec<SnipTag>) -> (names: Vec<String>)
        ensures
            texts_of(names@) == names_of(self.names(), codes(tags@)),
    {
        let mut names: Vec<String> = Vec::new();
        let mut i: usize = 0;
        proof {
            assert(texts_of(names@) =~= names_of(self.names(), codes(tags@).take(0)));
        }
        while i < tags.len()
            invariant
                0 <= i <= tags.len(),
                texts_of(names@) == names_of(self.names(), codes(tags@).take(i as int)),
            decreases tags.len() - i,
        {
            proof {
                assert(codes(tags@).take(i + 1).drop_last() =~= codes(tags@).take(i as int));
                assert(codes(tags@).take(i + 1).last() == tags@[i as int].code);
            }
            match self.name_of(tags[i]) {
                Some(name) => {
                    let ghost before = texts_of(names@);
                    names.push(name);
                    proof {
                        assert(texts_of(names@) =~= before.push(name@));
                    }
                },
                None => {},
            }
            i = i + 1;
        }
        proof {
            assert(codes(tags@).take(i as int) =~= codes(tags@));
        }
        names
    }

    /// The names of the given tags, with a comma and a space between them.
    pub fn format_tags(&self, tags: &Vec<SnipTag>) -> (r: String)
        ensures
            r@ == joined_with(names_of(self.names(), codes(tags@)), ", "@),
    {
        join_with(&self.tag_names(tags), ", ")
    }

    /// The names of all tags, with a comma and a space between them.
    pub fn supported_tags(&self) -> (r: String)
        ensures
            r@ == joined_with(self.names(), ", "@),
    {
        let tags = self.all_tags();
        proof {
            lemma_names_of_all(self.names(), codes(tags@), self.names().len() as int);
            assert(codes(tags@).take(self.names().len() as int) =~= codes(tags@));
            assert(self.names().take(self.names().len() as int) =~= self.names());
        }
        join_with(&self.tag_names(&tags), ", ")
    }
}

/// The names of the first tags of a table are the first names of the table.
pub proof fn lemma_names_of_all(names: Seq<Seq<char>>, tags: Seq<int>, n: int)
    requires
        0 <= n <= names.len(),
        n <= tags.len(),
        forall|i: int| 0 <= i < tags.len() ==> tags[i] == i,
    ensures
        names_of(names, tags.take(n)) == names.take(n),
    decreases n,
{
    if n == 0 {
        assert(names_of(names, tags.take(0)) =~= names.take(0));
    } else {
        lemma_names_of_all(names, tags, n - 1);
        assert(tags.take(n).drop_last() =~= tags.take(n - 1));
        assert(tags.take(n).last() == n - 1);
        assert(names.take(n - 1).push(names[n - 1]) =~= names.take(n));
    }
}

impl SingleSnippet {
    /// What the snippet holds, as it is shown, saved and copied.
    pub fn shown(&self) -> (r: Vec<char>)
        ensures
            r@ == shown_content(self@.content),
    {
        let inner = trim(&chars_of(self.content().as_str()));
        remove_char(&inner, '\r')
    }

    /// The text of the file that the snippet is saved to, after a comment sign.
    pub fn saved(&self, comment: &str) -> (r: String)
        ensures
            r@ == saved_text(comment@, self@.discription, self@.content),
    {
        let mut out = chars_of(comment);
        let line = remove_char(&chars_of(self.discription().as_str()), '\n');
        append_range(&mut out, &line, 0, line.len());
        out.push('\n');
        let held = self.shown();
        append_range(&mut out, &held, 0, held.len());
        out.push('\n');
        proof {
            assert(line@.subrange(0, line@.len() as int) =~= line@);
            assert(held@.subrange(0, held@.len() as int) =~= held@);
            assert(out@ =~= saved_text(comment@, self@.discription, self@.content));
        }
        text_of(&out)
    }
}

/// The text that is copied for a list of hits.
pub fn clipboard_text(hits: &Vec<Hit<'_>>) -> (r: String)
    ensures
        r@ == copied_text(hit_contents(hits@)),
{
    let mut out: Vec<char> = Vec::new();
    let mut i: usize = 0;
    let ghost all = hit_contents(hits@);
    while i < hits.len()
        invariant
            0 <= i <= hits.len(),
            all == hit_contents(hits@),
            out@ == copied_text(all.take(i as int)),
        decreases hits.len() - i,
    {
        let held = hits[i].snippet.shown();
        append_range(&mut out, &held, 0, held.len());
        out.push('\n');
        out.push('\n');
        proof {
            assert(held@.subrange(0, held@.len() as int) =~= held@);
            let upto = all.take(i + 1);
            assert(upto.drop_last() =~= all.take(i as int));
            assert(upto.last() == hits@[i as int].snippet@.content);
            assert(out@ =~= copied_text(all.take(i as int)) + shown_content(upto.last())
                + seq!['\n', '\n']);
        }
        i = i + 1;
    }
    proof {
        assert(all.take(i as int) =~= all);
    }
    text_of(&out)
}

} // verus!
