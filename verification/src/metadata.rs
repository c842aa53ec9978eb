//! The record that describes one configuration parameter, how it is read from
//! the parameter's documentation comment, and how it is rendered.

use crate::chars::{ascii_lowercase, lemma_lowercase_add, spec_ascii_lowercase};
use crate::lines::{lines, spec_lines};
use crate::pattern::{
    border_free, lemma_find, lemma_find_none, lemma_join_lacks, lemma_join_push, lemma_join_split,
    lemma_position, lemma_split_apart, lemma_split_join, lemma_split_keeps, matches_at, position,
    replace, spec_find, spec_join, spec_position, spec_replace, spec_split, split, starts_with,
    texts,
};
use crate::strings::{from_chars, push_chars, to_chars};
use crate::trim::{
    first_word, spec_first_word, spec_trim, spec_trim_start_matches, trim, trim_start_matches,
};
use vstd::prelude::*;

verus! {

/// What a documentation comment begins with when it names the lints that the
/// parameter affects.
pub const DOC_START: &'static str = " Lint: ";

/// What stands between two lint names.
pub const LINT_SEPARATOR: &'static str = ", ";

/// The character that ends the list of lint names.
pub const LINT_LIST_END: char = '.';

/// The start of a continuation line in a documentation comment.
pub const COMMENT_LINE_START: &'static str = "\n ";

/// The start of a continuation line in a description.
pub const DOC_LINE_START: &'static str = "\n    ";

/// The description given to a parameter whose documentation comment does not
/// follow the convention.
pub const MALFORMED_DOC: &'static str = "[ERROR] MALFORMED DOC COMMENT";

/// The indentation of a continuation line in a description.
pub const DOC_INDENT: &'static str = "    ";

/// The page that lists the lints; a lint's name is its anchor there.
pub const LINT_INDEX_PATH: &'static str =
    "https://rust-lang.github.io/rust-clippy/master/index.html";

/// The page of the book that lists the parameters; a parameter's name is its
/// anchor there.
pub const BOOK_CONFIGS_PATH: &'static str =
    "https://doc.rust-lang.org/clippy/lint_configuration.html";

/// Whether a documentation comment follows the convention: it begins with
/// `DOC_START` and holds a `LINT_LIST_END`.
pub open spec fn recognised(comment: Seq<char>) -> bool {
    DOC_START@.is_prefix_of(comment) && comment.contains(LINT_LIST_END)
}

/// The lint names of a recognised comment: what stands between `DOC_START`
/// and the first `LINT_LIST_END`, in lower case, split at `LINT_SEPARATOR`.
pub open spec fn spec_lints(comment: Seq<char>) -> Seq<Seq<char>> {
    let stop = spec_position(comment, LINT_LIST_END)->0;
    let names = comment.subrange(DOC_START@.len() as int, stop);
    spec_split(spec_ascii_lowercase(names), LINT_SEPARATOR@)
}

/// The description of a recognised comment: what follows the lint names,
/// without the `LINT_LIST_END`s that it starts with and without white space at
/// its ends, each continuation line indented by four spaces in place of one.
pub open spec fn spec_doc(comment: Seq<char>) -> Seq<char> {
    let stop = spec_position(comment, LINT_LIST_END)->0;
    let prose = spec_trim(spec_trim_start_matches(comment.skip(stop), LINT_LIST_END));
    spec_replace(prose, COMMENT_LINE_START@, DOC_LINE_START@)
}

/// The strings made of the given texts.
fn to_strings(pieces: &Vec<Vec<char>>) -> (strings: Vec<String>)
    ensures
        strings.deep_view() == texts(pieces@),
        strings@.len() == pieces@.len(),
{
    let mut strings: Vec<String> = Vec::new();
    let mut i: usize = 0;
    while i < pieces.len()
        invariant
            i <= pieces.len(),
            strings@.len() == i,
            forall|j: int| 0 <= j < i ==> strings@[j]@ == pieces@[j]@,
        decreases pieces.len() - i,
    {
        strings.push(from_chars(pieces[i].as_slice()));
        i += 1;
    }
    assert(strings.deep_view() =~= texts(pieces@));
    strings
}

/// Reads the lint names and the description from the documentation comment of
/// a parameter.
///
/// `" Lint: LINT_NAME_1, LINT_NAME_2. Papa penguin, papa penguin"` gives the
/// names `lint_name_1` and `lint_name_2` and the description
/// `Papa penguin, papa penguin`. A comment that is not recognised gives `None`.
pub fn parse_config_field_doc(doc_comment: &str) -> (parsed: Option<(Vec<String>, String)>)
    ensures
        match parsed {
            Some((lints, doc)) => {
                &&& recognised(doc_comment@)
                &&& lints.deep_view() == spec_lints(doc_comment@)
                &&& lints@.len() >= 1
                &&& doc@ == spec_doc(doc_comment@)
            },
            None => !recognised(doc_comment@),
        },
{
    let comment = to_chars(doc_comment);
    let start = to_chars(DOC_START);
    proof {
        lemma_position(comment@, LINT_LIST_END);
    }
    if !starts_with(comment.as_slice(), start.as_slice()) {
        return None;
    }
    match position(comment.as_slice(), LINT_LIST_END) {
        None => None,
        Some(stop) => {
            assert(start.len() <= stop) by {
                reveal_strlit(" Lint: ");
                if stop < start.len() {
                    assert(comment@[stop as int] == start@[stop as int]);
                }
            }
            let names = ascii_lowercase(&comment[start.len()..stop]);
            let separator = to_chars(LINT_SEPARATOR);
            let lints = to_strings(&split(names.as_slice(), separator.as_slice()));
            let rest = &comment[stop..comment.len()];
            let prose = trim(trim_start_matches(rest, LINT_LIST_END));
            let from = to_chars(COMMENT_LINE_START);
            let to = to_chars(DOC_LINE_START);
            let doc = from_chars(replace(prose, from.as_slice(), to.as_slice()).as_slice());
            Some((lints, doc))
        },
    }
}

/// Lower-casing a joined text lower-cases its pieces; the separator of lint
/// names holds no letter.
proof fn lemma_lowercase_join(names: Seq<Seq<char>>)
    ensures
        spec_ascii_lowercase(spec_join(names, LINT_SEPARATOR@)) == spec_join(
            names.map_values(|name: Seq<char>| spec_ascii_lowercase(name)),
            LINT_SEPARATOR@,
        ),
    decreases names.len(),
{
    let sep = LINT_SEPARATOR@;
    let lower = names.map_values(|name: Seq<char>| spec_ascii_lowercase(name));
    reveal_strlit(", ");
    if names.len() == 0 {
        assert(spec_ascii_lowercase(Seq::<char>::empty()) =~= Seq::<char>::empty());
    } else if names.len() >= 2 {
        let rest = names.drop_first();
        lemma_lowercase_join(rest);
        assert(lower.drop_first() =~= rest.map_values(
            |name: Seq<char>| spec_ascii_lowercase(name),
        ));
        assert(spec_ascii_lowercase(sep) =~= sep);
        lemma_lowercase_add(names[0] + sep, spec_join(rest, sep));
        lemma_lowercase_add(names[0], sep);
    }
}

/// A name in which the separator of lint names does not occur holds none in
/// lower case either.
proof fn lemma_lowercase_keeps_apart(name: Seq<char>)
    requires
        spec_find(name, LINT_SEPARATOR@) is None,
    ensures
        spec_find(spec_ascii_lowercase(name), LINT_SEPARATOR@) is None,
{
    let sep = LINT_SEPARATOR@;
    let lower = spec_ascii_lowercase(name);
    reveal_strlit(", ");
    lemma_find(name, sep);
    assert forall|j: int| 0 <= j <= lower.len() - sep.len() implies !matches_at(lower, sep, j) by {
        if matches_at(lower, sep, j) {
            assert(lower.subrange(j, j + 2)[0] == sep[0]);
            assert(lower.subrange(j, j + 2)[1] == sep[1]);
            assert(name.subrange(j, j + 2) =~= sep);
            assert(matches_at(name, sep, j));
        }
    }
    lemma_find_none(lower, sep);
}

/// A comment made of `DOC_START`, lint names joined by `LINT_SEPARATOR`, a
/// `LINT_LIST_END` and prose is recognised, whatever the prose, if no name
/// holds a `LINT_LIST_END` or a `LINT_SEPARATOR`. Its lints are the names in
/// lower case, in their order. Its description is the prose without the
/// `LINT_LIST_END`s that it starts with, trimmed and indented anew.
pub proof fn lemma_parse_well_formed(names: Seq<Seq<char>>, prose: Seq<char>)
    requires
        names.len() >= 1,
        forall|k: int|
            0 <= k < names.len() ==> !(#[trigger] names[k]).contains(LINT_LIST_END) && spec_find(
                names[k],
                LINT_SEPARATOR@,
            ) is None,
    ensures
        ({
            let comment = DOC_START@ + spec_join(names, LINT_SEPARATOR@) + seq![LINT_LIST_END]
                + prose;
            &&& recognised(comment)
            &&& spec_lints(comment) == names.map_values(
                |name: Seq<char>| spec_ascii_lowercase(name),
            )
            &&& spec_doc(comment) == spec_replace(
                spec_trim(spec_trim_start_matches(prose, LINT_LIST_END)),
                COMMENT_LINE_START@,
                DOC_LINE_START@,
            )
        }),
{
    let start = DOC_START@;
    let sep = LINT_SEPARATOR@;
    let joined = spec_join(names, sep);
    let comment = start + joined + seq![LINT_LIST_END] + prose;
    let stop = (start.len() + joined.len()) as int;
    let lower = names.map_values(|name: Seq<char>| spec_ascii_lowercase(name));
    reveal_strlit(" Lint: ");
    reveal_strlit(", ");

    assert(start.is_prefix_of(comment)) by {
        assert(comment.subrange(0, start.len() as int) =~= start);
    }
    assert(comment[stop] == LINT_LIST_END);
    assert(comment.contains(LINT_LIST_END));
    assert(spec_position(comment, LINT_LIST_END) == Some(stop)) by {
        lemma_join_lacks(names, sep, LINT_LIST_END);
        lemma_position(comment, LINT_LIST_END);
        assert forall|j: int| 0 <= j < stop implies comment[j] != LINT_LIST_END by {
            if j >= start.len() {
                assert(joined.contains(joined[j - start.len()]));
            }
        }
    }
    assert(spec_lints(comment) == lower) by {
        assert(comment.subrange(start.len() as int, stop) =~= joined);
        lemma_lowercase_join(names);
        assert forall|k: int| 0 <= k < lower.len() implies spec_find(#[trigger] lower[k], sep)
            is None by {
            lemma_lowercase_keeps_apart(names[k]);
        }
        assert(border_free(sep)) by {
            assert(sep.take(1)[0] != sep.skip(1)[0]);
        }
        lemma_split_join(lower, sep);
    }
    assert(spec_trim_start_matches(comment.skip(stop), LINT_LIST_END) == spec_trim_start_matches(
        prose,
        LINT_LIST_END,
    )) by {
        assert(comment.skip(stop).drop_first() =~= prose);
    }
}

/// The lint names of a recognised comment: there is at least one; none holds
/// an ASCII capital letter, a `LINT_LIST_END` or a `LINT_SEPARATOR`; and joined
/// by `LINT_SEPARATOR` they are what the comment holds between `DOC_START` and
/// the first `LINT_LIST_END`, in lower case.
pub proof fn lemma_lints(comment: Seq<char>)
    requires
        recognised(comment),
    ensures
        spec_lints(comment).len() >= 1,
        forall|k: int, i: int|
            0 <= k < spec_lints(comment).len() && 0 <= i < spec_lints(comment)[k].len() ==> {
                let c = #[trigger] spec_lints(comment)[k][i];
                !('A' <= c <= 'Z') && c != LINT_LIST_END
            },
        forall|k: int|
            0 <= k < spec_lints(comment).len() ==> spec_find(
                #[trigger] spec_lints(comment)[k],
                LINT_SEPARATOR@,
            ) is None,
        spec_join(spec_lints(comment), LINT_SEPARATOR@) == spec_ascii_lowercase(
            comment.subrange(
                DOC_START@.len() as int,
                spec_position(comment, LINT_LIST_END)->0,
            ),
        ),
{
    let stop = spec_position(comment, LINT_LIST_END)->0;
    let names = comment.subrange(DOC_START@.len() as int, stop);
    let lower = spec_ascii_lowercase(names);
    let holds = |c: char| !('A' <= c <= 'Z') && c != LINT_LIST_END;
    reveal_strlit(" Lint: ");
    reveal_strlit(", ");
    lemma_position(comment, LINT_LIST_END);
    assert(DOC_START@.len() <= stop) by {
        if stop < DOC_START@.len() {
            assert(comment.subrange(0, DOC_START@.len() as int)[stop] == DOC_START@[stop]);
        }
    }
    assert forall|i: int| 0 <= i < lower.len() implies holds(#[trigger] lower[i]) by {
        assert(names[i] == comment[DOC_START@.len() + i]);
    }
    lemma_split_keeps(lower, LINT_SEPARATOR@, holds);
    lemma_split_apart(lower, LINT_SEPARATOR@);
    lemma_join_split(lower, LINT_SEPARATOR@);
}

/// A name with every `_` replaced by `-`.
pub open spec fn spec_to_kebab(name: Seq<char>) -> Seq<char> {
    Seq::new(name.len(), |i: int| if name[i] == '_' { '-' } else { name[i] })
}

/// Transforms a given `snake_case_string` to a `kebab-case-string`.
pub fn to_kebab(config_name: &str) -> (kebab: String)
    ensures
        kebab@ == spec_to_kebab(config_name@),
        kebab@.len() == config_name@.len(),
{
    let mut kebab = String::new();
    for c in it: config_name.chars()
        invariant
            it.seq() == config_name@,
            kebab@ == spec_to_kebab(config_name@.take(it.index() as int)),
    {
        kebab.push(if c == '_' { '-' } else { c });
        assert(kebab@ =~= spec_to_kebab(config_name@.take(it.index() + 1)));
    }
    assert(config_name@.take(config_name@.len() as int) =~= config_name@);
    kebab
}

/// Naming is idempotent and keeps the length: a name that is already in kebab
/// case stays as it is.
pub proof fn lemma_to_kebab_idempotent(name: Seq<char>)
    ensures
        spec_to_kebab(spec_to_kebab(name)) == spec_to_kebab(name),
        spec_to_kebab(name).len() == name.len(),
{
    assert(spec_to_kebab(spec_to_kebab(name)) =~= spec_to_kebab(name));
}

/// What is known of one configuration parameter.
#[derive(Debug)]
pub struct ClippyConfiguration {
    /// The parameter's name, in kebab case.
    pub name: String,
    /// A few words that say of what type the parameter's value is.
    pub config_type: &'static str,
    /// The parameter's default value, as text.
    pub default: String,
    /// The names of the lints that the parameter affects, in lower case and in
    /// the order of the documentation comment. Empty only where the comment
    /// was not recognised.
    pub lints: Vec<String>,
    /// The description; `MALFORMED_DOC` where the comment was not recognised.
    pub doc: String,
    /// Why the parameter is no longer used, if it is not.
    pub deprecation_reason: Option<&'static str>,
}

/// A `ClippyConfiguration` as plain texts.
pub struct ConfigurationView {
    pub name: Seq<char>,
    pub config_type: Seq<char>,
    pub default: Seq<char>,
    pub lints: Seq<Seq<char>>,
    pub doc: Seq<char>,
    pub deprecation_reason: Option<Seq<char>>,
}

impl View for ClippyConfiguration {
    type V = ConfigurationView;

    open spec fn view(&self) -> ConfigurationView {
        ConfigurationView {
            name: self.name@,
            config_type: self.config_type@,
            default: self.default@,
            lints: self.lints.deep_view(),
            doc: self.doc@,
            deprecation_reason: match self.deprecation_reason {
                Some(reason) => Some(reason@),
                None => None,
            },
        }
    }
}

/// `line` without the `DOC_INDENT` that it starts with, if it starts with one.
pub open spec fn spec_unindent(line: Seq<char>) -> Seq<char> {
    if DOC_INDENT@.is_prefix_of(line) {
        line.skip(DOC_INDENT@.len() as int)
    } else {
        line
    }
}

/// The lines of a description, each without its indentation, joined by line
/// feeds.
pub open spec fn spec_unindented(doc: Seq<char>) -> Seq<char> {
    spec_join(spec_lines(doc).map_values(|line: Seq<char>| spec_unindent(line)), "\n"@)
}

/// The list item that links to a lint: the link's text and its anchor are the
/// first word of the lint's name.
pub open spec fn spec_lint_link(lint: Seq<char>) -> Seq<char> {
    let id = spec_first_word(lint);
    "* [`"@ + id + "`]("@ + LINT_INDEX_PATH@ + "#"@ + id + ")"@
}

/// The list items of the given lints, one on each line.
pub open spec fn spec_lint_links(lints: Seq<Seq<char>>) -> Seq<char> {
    spec_join(lints.map_values(|lint: Seq<char>| spec_lint_link(lint)), "\n"@)
}

impl ConfigurationView {
    /// The line that lists the parameter among others.
    pub open spec fn list_entry(self) -> Seq<char> {
        "* `"@ + self.name + "`: `"@ + self.config_type + "`(defaults to `"@ + self.default
            + "`): "@ + self.doc + "\n"@
    }

    /// The section of the book that describes the parameter.
    pub open spec fn markdown_paragraph(self) -> Seq<char> {
        "## `"@ + self.name + "`\n"@ + spec_unindented(self.doc) + "\n\n**Default Value:** `"@
            + self.default + "` (`"@ + self.config_type
            + "`)\n\n---\n**Affected lints:**\n"@ + spec_lint_links(self.lints) + "\n\n"@
    }

    /// The link reference definition that leads to the parameter's section of
    /// the book.
    pub open spec fn markdown_link(self) -> Seq<char> {
        "[`"@ + self.name + "`]: "@ + BOOK_CONFIGS_PATH@ + "#"@ + self.name
    }
}

/// Appends to `out` the lines of `doc`, each without its indentation, with a
/// line feed between each two.
fn push_unindented(out: &mut String, doc: &str)
    ensures
        final(out)@ == old(out)@ + spec_unindented(doc@),
{
    let text = to_chars(doc);
    let indent = to_chars(DOC_INDENT);
    let ls = lines(text.as_slice());
    let ghost stripped = spec_lines(doc@).map_values(|line: Seq<char>| spec_unindent(line));
    assert(stripped.take(0) =~= Seq::<Seq<char>>::empty());
    assert(out@ + Seq::<char>::empty() =~= out@);
    let mut i: usize = 0;
    while i < ls.len()
        invariant
            i <= ls.len(),
            indent@ == DOC_INDENT@,
            texts(ls@) == spec_lines(doc@),
            stripped == spec_lines(doc@).map_values(|line: Seq<char>| spec_unindent(line)),
            out@ == old(out)@ + spec_join(stripped.take(i as int), "\n"@),
        decreases ls.len() - i,
    {
        let ghost before = out@;
        let ghost done = stripped.take(i as int);
        proof {
            assert(texts(ls@)[i as int] == ls@[i as int]@);
            assert(stripped.take(i + 1) =~= done.push(stripped[i as int]));
            lemma_join_push(done, stripped[i as int], "\n"@);
        }
        if i > 0 {
            out.append("\n");
        }
        let line = ls[i].as_slice();
        if starts_with(line, indent.as_slice()) {
            push_chars(out, &line[indent.len()..line.len()]);
        } else {
            push_chars(out, line);
        }
        assert(out@ =~= old(out)@ + spec_join(stripped.take(i + 1), "\n"@));
        i += 1;
    }
    assert(stripped.take(ls.len() as int) =~= stripped);
}

/// Appends to `out` the list item that links to `lint`.
fn push_lint_link(out: &mut String, lint: &str)
    ensures
        final(out)@ == old(out)@ + spec_lint_link(lint@),
{
    let name = to_chars(lint);
    let id = first_word(name.as_slice());
    out.append("* [`");
    push_chars(out, id);
    out.append("`](");
    out.append(LINT_INDEX_PATH);
    out.append("#");
    push_chars(out, id);
    out.append(")");
    assert(out@ =~= old(out)@ + spec_lint_link(lint@));
}

/// Appends to `out` the list items of `lints`, with a line feed between each
/// two.
fn push_lint_links(out: &mut String, lints: &Vec<String>)
    ensures
        final(out)@ == old(out)@ + spec_lint_links(lints.deep_view()),
{
    let ghost items = lints.deep_view().map_values(|lint: Seq<char>| spec_lint_link(lint));
    assert(items.take(0) =~= Seq::<Seq<char>>::empty());
    assert(out@ + Seq::<char>::empty() =~= out@);
    let mut i: usize = 0;
    while i < lints.len()
        invariant
            i <= lints.len(),
            items == lints.deep_view().map_values(|lint: Seq<char>| spec_lint_link(lint)),
            out@ == old(out)@ + spec_join(items.take(i as int), "\n"@),
        decreases lints.len() - i,
    {
        let ghost done = items.take(i as int);
        proof {
            assert(items.take(i + 1) =~= done.push(items[i as int]));
            lemma_join_push(done, items[i as int], "\n"@);
        }
        if i > 0 {
            out.append("\n");
        }
        push_lint_link(out, lints[i].as_str());
        assert(out@ =~= old(out)@ + spec_join(items.take(i + 1), "\n"@));
        i += 1;
    }
    assert(items.take(lints.len() as int) =~= items);
}

impl ClippyConfiguration {
    /// Describes the parameter `name` from its documentation comment.
    ///
    /// The record bears the name in kebab case. Where the comment is
    /// recognised, the record holds its lint names and its description; where
    /// it is not, no lint name and `MALFORMED_DOC`.
    pub fn new(
        name: &'static str,
        config_type: &'static str,
        default: String,
        doc_comment: &'static str,
        deprecation_reason: Option<&'static str>,
    ) -> (config: Self)
        ensures
            config.name@ == spec_to_kebab(name@),
            config.config_type == config_type,
            config.default == default,
            config.deprecation_reason == deprecation_reason,
            recognised(doc_comment@) ==> config.lints.deep_view() == spec_lints(doc_comment@)
                && config.lints@.len() >= 1 && config.doc@ == spec_doc(doc_comment@),
            !recognised(doc_comment@) ==> config.lints@.len() == 0 && config.doc@
                == MALFORMED_DOC@,
    {
        let (lints, doc) = match parse_config_field_doc(doc_comment) {
            Some(parsed) => parsed,
            None => (Vec::new(), String::from_str(MALFORMED_DOC)),
        };
        ClippyConfiguration {
            name: to_kebab(name),
            lints,
            doc,
            config_type,
            default,
            deprecation_reason,
        }
    }

    /// The line that lists the parameter among others.
    pub fn to_string(&self) -> (line: String)
        ensures
            line@ == self@.list_entry(),
    {
        let mut line = String::from_str("* `");
        line.append(self.name.as_str());
        line.append("`: `");
        line.append(self.config_type);
        line.append("`(defaults to `");
        line.append(self.default.as_str());
        line.append("`): ");
        line.append(self.doc.as_str());
        line.append("\n");
        line
    }

    /// The section of the book that describes the parameter: its name as the
    /// heading, the description, the default value and its type, and the
    /// lints that it affects, each a link to the lint's own documentation.
    pub fn to_markdown_paragraph(&self) -> (paragraph: String)
        ensures
            paragraph@ == self@.markdown_paragraph(),
    {
        let mut paragraph = String::from_str("## `");
        paragraph.append(self.name.as_str());
        paragraph.append("`\n");
        push_unindented(&mut paragraph, self.doc.as_str());
        paragraph.append("\n\n**Default Value:** `");
        paragraph.append(self.default.as_str());
        paragraph.append("` (`");
        paragraph.append(self.config_type);
        paragraph.append("`)\n\n---\n**Affected lints:**\n");
        push_lint_links(&mut paragraph, &self.lints);
        paragraph.append("\n\n");
        paragraph
    }

    /// The link reference definition that leads to the parameter's section of
    /// the book.
    pub fn to_markdown_link(&self) -> (link: String)
        ensures
            link@ == self@.markdown_link(),
    {
        let mut link = String::from_str("[`");
        link.append(self.name.as_str());
        link.append("`]: ");
        link.append(BOOK_CONFIGS_PATH);
        link.append("#");
        link.append(self.name.as_str());
        link
    }
}

/// Rendering is a function of what a record holds: two records with the same
/// texts give the same list entry, the same section and the same link
/// reference definition; and none of the three depends on the deprecation
/// note.
pub proof fn lemma_rendering_deterministic(a: ClippyConfiguration, b: ClippyConfiguration)
    requires
        a.name@ == b.name@,
        a.config_type@ == b.config_type@,
        a.default@ == b.default@,
        a.lints.deep_view() == b.lints.deep_view(),
        a.doc@ == b.doc@,
    ensures
        a@.list_entry() == b@.list_entry(),
        a@.markdown_paragraph() == b@.markdown_paragraph(),
        a@.markdown_link() == b@.markdown_link(),
{
}

impl Default for ClippyConfiguration {
    /// The record in which every text is empty and no lint is named.
    fn default() -> (config: Self)
        ensures
            config@ == (ConfigurationView {
                name: Seq::empty(),
                config_type: Seq::empty(),
                default: Seq::empty(),
                lints: Seq::empty(),
                doc: Seq::empty(),
                deprecation_reason: None,
            }),
    {
        let config = ClippyConfiguration {
            name: String::new(),
            config_type: "",
            default: String::new(),
            lints: Vec::new(),
            doc: String::new(),
            deprecation_reason: None,
        };
        proof {
            reveal_strlit("");
            assert(config.config_type@ =~= Seq::<char>::empty());
            assert(config.lints.deep_view() =~= Seq::<Seq<char>>::empty());
        }
        config
    }
}

impl Clone for ClippyConfiguration {
    fn clone(&self) -> (copy: Self)
        ensures
            copy@ == self@,
    {
        let copy = ClippyConfiguration {
            name: self.name.clone(),
            config_type: self.config_type,
            default: self.default.clone(),
            lints: self.lints.clone(),
            doc: self.doc.clone(),
            deprecation_reason: self.deprecation_reason,
        };
        assert(copy.lints.deep_view() =~= self.lints.deep_view());
        copy
    }
}

} // verus!
