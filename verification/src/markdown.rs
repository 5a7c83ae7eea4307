//! Markdown sources become pages: the lines for the page's head are taken
//! off the top, the substitutions are applied, the text is rendered, and the
//! result is set between the two halves of the page template.
use vstd::prelude::*;
use vstd::string::*;
use vstd::utf8::encode_utf8;
use crate::text::{
    blank_range, chars_of, ends_with, find_from, glue_all, is_blank, join,
    lemma_glue_all_from_the_front, lemma_index_from, line_end, matches_at, push_range, replace_all,
    replace_chars, starts_with, string_of,
};

verus! {

/// What opens a line that belongs in the page's head.
pub const HEAD_MARKER: &'static str = "(HEAD)";

/// Where, in the first half of the page template, the lines for the head go.
pub const HEAD_PLACEHOLDER: &'static str = "##EXTRAHEAD##";

/// The end of the name of a markdown source.
pub const MARKDOWN_SUFFIX: &'static str = ".md";

/// The end of the name of a page.
pub const PAGE_SUFFIX: &'static str = ".html";

/// The extensions of the markdown dialect that are switched on.
#[derive(Debug, Clone, Copy, PartialEq, Eq)]
pub struct RenderOptions {
    pub tables: bool,
    pub strikethrough: bool,
    pub footnotes: bool,
    pub task_lists: bool,
    pub autolink: bool,
    pub superscript: bool,
    pub description_lists: bool,
    /// Whether HTML written in the source is passed through to the page.
    pub raw_html: bool,
}

impl RenderOptions {
    /// The dialect without any extension.
    pub open spec fn plain() -> RenderOptions {
        RenderOptions {
            tables: false,
            strikethrough: false,
            footnotes: false,
            task_lists: false,
            autolink: false,
            superscript: false,
            description_lists: false,
            raw_html: false,
        }
    }
}

impl Default for RenderOptions {
    fn default() -> (o: RenderOptions)
        ensures
            o == RenderOptions::plain(),
    {
        RenderOptions {
            tables: false,
            strikethrough: false,
            footnotes: false,
            task_lists: false,
            autolink: false,
            superscript: false,
            description_lists: false,
            raw_html: false,
        }
    }
}

/// One substitution: every occurrence of `trigger` in the body of a markdown
/// source gives way to `replacement`.
#[derive(Debug, PartialEq, Eq)]
pub struct Replacement {
    pub trigger: String,
    pub replacement: String,
}

impl View for Replacement {
    type V = (Seq<char>, Seq<char>);

    open spec fn view(&self) -> (Seq<char>, Seq<char>) {
        (self.trigger@, self.replacement@)
    }
}

/// The views of the substitutions of `rules`, in order.
pub open spec fn rule_views(rules: Seq<Replacement>) -> Seq<(Seq<char>, Seq<char>)> {
    rules.map_values(|r: Replacement| r@)
}

/// A markdown source taken apart: the block for the page's head, and the
/// text that is left to render.
#[derive(Debug, PartialEq, Eq)]
pub struct HeadSplit {
    pub extra_head: String,
    pub body: String,
}

/// The line belongs in the page's head.
pub open spec fn is_head_line(line: Seq<char>) -> bool {
    starts_with(line, HEAD_MARKER@)
}

/// What the head lines hold, in order, for the lines of `text` from the one
/// that begins at `start` on. A head line gives what follows its marker. A
/// blank line gives nothing and is passed over. The first line that is
/// neither ends the head.
pub open spec fn head_lines(text: Seq<char>, start: int) -> Seq<Seq<char>>
    decreases text.len() + 1 - start,
{
    if start < 0 || start >= text.len() {
        Seq::empty()
    } else {
        let end = line_end(text, start);
        let line = text.subrange(start, end);
        if is_head_line(line) {
            proof {
                lemma_index_from(text, '\n', start);
            }
            seq![line.skip(HEAD_MARKER@.len() as int)] + head_lines(text, end + 1)
        } else if is_blank(line) {
            proof {
                lemma_index_from(text, '\n', start);
            }
            head_lines(text, end + 1)
        } else {
            Seq::empty()
        }
    }
}

/// Where the body begins, for the lines of `text` from the one that begins
/// at `start` on: at the first line that is neither a head line nor blank,
/// or at the end of the text where every line is one or the other. Each line
/// before it counts with its full length and its line feed.
pub open spec fn body_start(text: Seq<char>, start: int) -> int
    decreases text.len() + 1 - start,
{
    if start < 0 || start >= text.len() {
        text.len() as int
    } else {
        let end = line_end(text, start);
        let line = text.subrange(start, end);
        if is_head_line(line) || is_blank(line) {
            proof {
                lemma_index_from(text, '\n', start);
            }
            body_start(text, end + 1)
        } else {
            start
        }
    }
}

/// The lines that are taken off the top of `text`, in full, for the lines
/// from the one that begins at `start` on: the head lines with their marker,
/// and the blank lines.
pub open spec fn skipped_lines(text: Seq<char>, start: int) -> Seq<Seq<char>>
    decreases text.len() + 1 - start,
{
    if start < 0 || start >= text.len() {
        Seq::empty()
    } else {
        let end = line_end(text, start);
        let line = text.subrange(start, end);
        if is_head_line(line) || is_blank(line) {
            proof {
                lemma_index_from(text, '\n', start);
            }
            seq![line] + skipped_lines(text, end + 1)
        } else {
            Seq::empty()
        }
    }
}

/// The block for the page's head: what the head lines of `text` hold, with a
/// line feed between each two.
pub open spec fn extra_head(text: Seq<char>) -> Seq<char> {
    join(head_lines(text, 0), seq!['\n'])
}

/// The text that is rendered: `text` without its head.
pub open spec fn body(text: Seq<char>) -> Seq<char> {
    text.skip(body_start(text, 0))
}

/// The first half of the page: the template with the block for the head in
/// the place of each placeholder.
pub open spec fn resolved_prefix(template: Seq<char>, extra_head: Seq<char>) -> Seq<char> {
    replace_all(template, HEAD_PLACEHOLDER@, extra_head)
}

/// `body` after the substitutions of `rules`, applied one after the other
/// in the order of the sequence.
pub open spec fn substituted(body: Seq<char>, rules: Seq<(Seq<char>, Seq<char>)>) -> Seq<char>
    decreases rules.len(),
{
    if rules.len() == 0 {
        body
    } else {
        replace_all(substituted(body, rules.drop_last()), rules.last().0, rules.last().1)
    }
}

/// What the renderer makes of `markdown` in the dialect `options`.
pub uninterp spec fn rendered_html(markdown: Seq<char>, options: RenderOptions) -> Seq<char>;

/// The page for a markdown source, as text: the resolved first half of the
/// template, the rendered body, and the second half.
pub open spec fn page(
    text: Seq<char>,
    prefix_template: Seq<char>,
    postfix: Seq<char>,
    rules: Seq<(Seq<char>, Seq<char>)>,
    options: RenderOptions,
) -> Seq<char> {
    resolved_prefix(prefix_template, extra_head(text)) + rendered_html(
        substituted(body(text), rules),
        options,
    ) + postfix
}

/// The remote path of the page made from the markdown source at
/// `remote_path`: a trailing `.md` gives way to `.html`.
pub open spec fn page_path(remote_path: Seq<char>) -> Seq<char> {
    if ends_with(remote_path, MARKDOWN_SUFFIX@) {
        remote_path.take(remote_path.len() - MARKDOWN_SUFFIX@.len()) + PAGE_SUFFIX@
    } else {
        remote_path
    }
}

/// The body begins at the start of a line, or is empty, and the line it
/// begins with is neither a head line nor blank: nothing of the head is left
/// in the body.
pub proof fn lemma_body_begins_after_the_head(text: Seq<char>)
    ensures
        0 <= body_start(text, 0) <= text.len(),
        body_start(text, 0) == 0 || body_start(text, 0) == text.len() || text[body_start(text, 0)
            - 1] == '\n',
        body_start(text, 0) < text.len() ==> !is_head_line(
            text.subrange(body_start(text, 0), line_end(text, body_start(text, 0))),
        ) && !is_blank(text.subrange(body_start(text, 0), line_end(text, body_start(text, 0)))),
{
    lemma_body_start_from(text, 0);
}

/// What `lemma_body_begins_after_the_head` states, for the lines from the
/// one that begins at `start` on.
proof fn lemma_body_start_from(text: Seq<char>, start: int)
    requires
        0 <= start <= text.len(),
        start == 0 || text[start - 1] == '\n',
    ensures
        start <= body_start(text, start) <= text.len(),
        body_start(text, start) == 0 || text[body_start(text, start) - 1] == '\n'
            || body_start(text, start) == text.len(),
        body_start(text, start) < text.len() ==> !is_head_line(
            text.subrange(body_start(text, start), line_end(text, body_start(text, start))),
        ) && !is_blank(
            text.subrange(body_start(text, start), line_end(text, body_start(text, start))),
        ),
    decreases text.len() - start,
{
    if start < text.len() {
        lemma_index_from(text, '\n', start);
        let end = line_end(text, start);
        let line = text.subrange(start, end);
        if is_head_line(line) || is_blank(line) {
            if end < text.len() {
                lemma_body_start_from(text, end + 1);
            }
        }
    }
}

/// What is taken off the top of a source is counted in full: every line
/// before the body with all its characters and its line feed. Where a body
/// is left, the text before it is these lines, each followed by a line feed.
/// Where the whole text is taken, only the line feed of its last line may be
/// wanting.
pub proof fn lemma_head_is_counted_in_full(text: Seq<char>)
    ensures
        text.take(body_start(text, 0)).is_prefix_of(glue_all(skipped_lines(text, 0), '\n')),
        glue_all(skipped_lines(text, 0), '\n').len() <= body_start(text, 0) + 1,
        body_start(text, 0) < text.len() ==> text.take(body_start(text, 0)) == glue_all(
            skipped_lines(text, 0),
            '\n',
        ),
{
    lemma_counted_from(text, 0);
    assert(text.subrange(0, body_start(text, 0)) == text.take(body_start(text, 0)));
}

/// What `lemma_head_is_counted_in_full` states, for the lines from the one
/// that begins at `start` on.
proof fn lemma_counted_from(text: Seq<char>, start: int)
    requires
        0 <= start <= text.len(),
    ensures
        start <= body_start(text, start) <= text.len(),
        text.subrange(start, body_start(text, start)).is_prefix_of(
            glue_all(skipped_lines(text, start), '\n'),
        ),
        glue_all(skipped_lines(text, start), '\n').len() <= body_start(text, start) - start + 1,
        body_start(text, start) < text.len() ==> text.subrange(start, body_start(text, start))
            == glue_all(skipped_lines(text, start), '\n'),
    decreases text.len() - start,
{
    let none = Seq::<Seq<char>>::empty();
    if start < text.len() {
        lemma_index_from(text, '\n', start);
        let end = line_end(text, start);
        let line = text.subrange(start, end);
        if is_head_line(line) || is_blank(line) {
            let rest = skipped_lines(text, end + 1);
            let lines = seq![line] + rest;
            lemma_glue_all_from_the_front(lines, '\n');
            assert(lines.first() == line);
            assert(lines.drop_first() == rest);
            if end < text.len() {
                lemma_counted_from(text, end + 1);
                let stop = body_start(text, end + 1);
                assert(text.subrange(start, stop) == line.push('\n') + text.subrange(end + 1, stop));
            } else {
                assert(rest == none);
                assert(glue_all(lines, '\n') == line.push('\n'));
                assert(text.subrange(start, end) == line);
            }
        } else {
            assert(text.subrange(start, start) == Seq::<char>::empty());
        }
    } else {
        assert(text.subrange(start, start) == Seq::<char>::empty());
    }
}

/// A source without head lines and without blank lines before its first
/// line of text is all body, and its block for the head is empty.
pub proof fn lemma_source_without_head(text: Seq<char>)
    requires
        text.len() > 0,
        !is_head_line(text.subrange(0, line_end(text, 0))),
        !is_blank(text.subrange(0, line_end(text, 0))),
    ensures
        extra_head(text) == Seq::<char>::empty(),
        body(text) == text,
{
}

/// `comrak::markdown_to_html`, with the extensions and the raw HTML switch of
/// `options` set on comrak's default options. The page it returns depends on
/// the text and the options alone; the contract names it and claims nothing
/// about what it holds.
#[verifier::external_body]
fn render(markdown: &str, options: &RenderOptions) -> (html: String)
    ensures
        html@ == rendered_html(markdown@, *options),
{
    let mut dialect = comrak::ComrakOptions::default();
    dialect.extension.table = options.tables;
    dialect.extension.strikethrough = options.strikethrough;
    dialect.extension.footnotes = options.footnotes;
    dialect.extension.tasklist = options.task_lists;
    dialect.extension.autolink = options.autolink;
    dialect.extension.superscript = options.superscript;
    dialect.extension.description_lists = options.description_lists;
    dialect.render.unsafe_ = options.raw_html;
    comrak::markdown_to_html(markdown, &dialect)
}

/// Takes the head off `text`: the block for the page's head, and the index
/// at which the body begins.
fn split_head(text: &Vec<char>) -> (r: (Vec<char>, usize))
    ensures
        r.0@ == extra_head(text@),
        r.1 == body_start(text@, 0),
        r.1 <= text.len(),
{
    let marker = chars_of(HEAD_MARKER);
    let mut head: Vec<char> = Vec::new();
    let mut start: usize = 0;
    let mut any: bool = false;
    let ghost mut found: Seq<Seq<char>> = Seq::empty();
    while start < text.len()
        invariant
            start <= text.len(),
            marker@ == HEAD_MARKER@,
            head_lines(text@, 0) == found + head_lines(text@, start as int),
            body_start(text@, 0) == body_start(text@, start as int),
            head@ == join(found, seq!['\n']),
            any == (found.len() > 0),
        ensures
            start <= text.len(),
            head_lines(text@, 0) == found,
            body_start(text@, 0) == start,
            head@ == join(found, seq!['\n']),
        decreases text.len() - start,
    {
        let end = find_from(text, '\n', start);
        let ghost line = text@.subrange(start as int, end as int);
        let is_head = marker.len() <= end - start && matches_at(text, &marker, start);
        assert(is_head == is_head_line(line)) by {
            if marker.len() <= end - start {
                assert(line.subrange(0, marker.len() as int) == text@.subrange(
                    start as int,
                    start + marker.len(),
                ));
            }
        }
        if is_head {
            if any {
                head.push('\n');
            }
            let ghost before = head@;
            let mut k: usize = start + marker.len();
            while k < end
                invariant
                    start + marker.len() <= k <= end <= text.len(),
                    head@ == before + text@.subrange(start + marker.len(), k as int),
                decreases end - k,
            {
                head.push(text[k]);
                k = k + 1;
            }
            proof {
                let next = found.push(line.skip(marker.len() as int));
                assert(next.drop_last() == found);
                found = next;
            }
            any = true;
        } else if blank_range(text, start, end) {
        } else {
            break;
        }
        assert(body_start(text@, start as int) == body_start(text@, end + 1));
        assert(head_lines(text@, 0) == found + head_lines(text@, end + 1));
        if end == text.len() {
            start = end;
        } else {
            start = end + 1;
        }
    }
    (head, start)
}

/// Applies the substitutions of `rules` to `body`, one after the other.
fn substitute_chars(body: Vec<char>, rules: &Vec<Replacement>) -> (out: Vec<char>)
    ensures
        out@ == substituted(body@, rule_views(rules@)),
{
    let mut out = body;
    let mut i: usize = 0;
    while i < rules.len()
        invariant
            i <= rules.len(),
            out@ == substituted(body@, rule_views(rules@).take(i as int)),
        decreases rules.len() - i,
    {
        let trigger = chars_of(rules[i].trigger.as_str());
        let replacement = chars_of(rules[i].replacement.as_str());
        out = replace_chars(&out, &trigger, &replacement);
        assert(rule_views(rules@).take(i + 1).drop_last() == rule_views(rules@).take(i as int));
        i = i + 1;
    }
    assert(rule_views(rules@).take(rules.len() as int) == rule_views(rules@));
    out
}

/// Takes the head off a markdown source.
pub fn extract_head(text: &str) -> (r: HeadSplit)
    ensures
        r.extra_head@ == extra_head(text@),
        r.body@ == body(text@),
{
    let chars = chars_of(text);
    let (head, start) = split_head(&chars);
    let mut rest = String::new();
    push_range(&mut rest, &chars, start, chars.len());
    HeadSplit { extra_head: string_of(&head), body: rest }
}

/// The first half of the page: `template` with `extra_head` in the place of
/// each placeholder.
pub fn resolve_prefix(template: &str, extra_head: &str) -> (prefix: String)
    ensures
        prefix@ == resolved_prefix(template@, extra_head@),
{
    let out = replace_chars(&chars_of(template), &chars_of(HEAD_PLACEHOLDER), &chars_of(extra_head));
    string_of(&out)
}

/// Applies the substitutions of `rules` to `body`, one after the other in
/// the order of `rules`.
pub fn substitute(body: &str, rules: &Vec<Replacement>) -> (out: String)
    ensures
        out@ == substituted(body@, rule_views(rules@)),
{
    let out = substitute_chars(chars_of(body), rules);
    string_of(&out)
}

/// The bytes of the page: the first half, the rendered body and the second
/// half, one after the other.
pub fn assemble(prefix: &str, html: &str, postfix: &str) -> (content: Vec<u8>)
    ensures
        content@ == encode_utf8(prefix@ + html@ + postfix@),
{
    let mut text = String::new();
    text.append(prefix);
    text.append(html);
    text.append(postfix);
    text.as_str().as_bytes_vec()
}

/// The remote path of the page made from the markdown source at
/// `remote_path`.
pub fn page_path_of(remote_path: &str) -> (path: String)
    ensures
        path@ == page_path(remote_path@),
{
    let chars = chars_of(remote_path);
    let suffix = chars_of(MARKDOWN_SUFFIX);
    if chars.len() >= suffix.len() && matches_at(&chars, &suffix, chars.len() - suffix.len()) {
        let mut path = String::new();
        push_range(&mut path, &chars, 0, chars.len() - suffix.len());
        path.append(PAGE_SUFFIX);
        path
    } else {
        remote_path.to_owned()
    }
}

/// Makes the page for a markdown source: takes the head off `text`, sets it
/// into `prefix_template`, applies `rules` to the body, renders the body in
/// the dialect `options`, and puts the three parts together.
pub fn preprocess(
    text: &str,
    prefix_template: &str,
    postfix: &str,
    rules: &Vec<Replacement>,
    options: &RenderOptions,
) -> (content: Vec<u8>)
    ensures
        content@ == encode_utf8(page(text@, prefix_template@, postfix@, rule_views(rules@), *options)),
{
    let chars = chars_of(text);
    let (head, start) = split_head(&chars);
    let prefix = replace_chars(&chars_of(prefix_template), &chars_of(HEAD_PLACEHOLDER), &head);
    let mut rest: Vec<char> = Vec::new();
    let mut i: usize = start;
    while i < chars.len()
        invariant
            start <= i <= chars.len(),
            rest@ == chars@.subrange(start as int, i as int),
        decreases chars.len() - i,
    {
        rest.push(chars[i]);
        i = i + 1;
    }
    let substituted_body = substitute_chars(rest, rules);
    let html = render(string_of(&substituted_body).as_str(), options);
    assemble(string_of(&prefix).as_str(), html.as_str(), postfix)
}

} // verus!
