//! The page template: fixed text around the content of a page.

use vstd::prelude::*;
use crate::error::ConfigurationError;
use crate::text::{
    ends_with,
    find,
    first_occurrence,
    lemma_first_occurrence_is_leftmost,
    lemma_first_occurrence_is_unique,
    occurs_at,
    occurs_in,
    same_part,
    slice,
    starts_with,
    to_chars,
};

verus! {

/// The placeholder for the header, the first in a page template.
pub const HEADER_TOKEN: &'static str = "##HEADER##";

/// The placeholder for the content of a page, the second in a page template.
pub const CONTENT_TOKEN: &'static str = "##CONTENT##";

/// The placeholder for the footer, the third in a page template.
pub const FOOTER_TOKEN: &'static str = "##FOOTER##";

/// The page template that the server is built with.
pub const PAGE: &'static str = "<!DOCTYPE html>\n\
<html lang=\"en\">\n\
<head>\n\
<meta charset=\"utf-8\">\n\
<link rel=\"stylesheet\" href=\"/style.css\">\n\
</head>\n\
<body>\n\
##HEADER##\n\
<main>\n\
##CONTENT##\n\
</main>\n\
##FOOTER##\n\
</body>\n\
</html>\n";

/// The header that the server is built with.
pub const HEADER: &'static str = "<header>\n\
<nav><a href=\"/\">Index</a></nav>\n\
</header>";

/// The footer that the server is built with.
pub const FOOTER: &'static str = "<footer>\n\
<p>Pages are served as they are written.</p>\n\
</footer>";

/// `token` is one of the three placeholders.
pub open spec fn is_placeholder(token: Seq<char>) -> bool {
    token == HEADER_TOKEN@ || token == CONTENT_TOKEN@ || token == FOOTER_TOKEN@
}

/// No placeholder stands anywhere in `text`.
pub open spec fn placeholder_free(text: Seq<char>) -> bool {
    &&& !occurs_in(text, HEADER_TOKEN@)
    &&& !occurs_in(text, CONTENT_TOKEN@)
    &&& !occurs_in(text, FOOTER_TOKEN@)
}

/// `text` ends with a beginning of `token`, which what follows the text could
/// complete.
pub open spec fn opens(text: Seq<char>, token: Seq<char>) -> bool {
    exists|count: int| 0 < count < token.len() && ends_with(text, #[trigger] token.take(count))
}

/// `text` starts with an end of `token`, which would complete what stands
/// before the text.
pub open spec fn closes(text: Seq<char>, token: Seq<char>) -> bool {
    exists|count: int| 0 < count < token.len() && starts_with(text, #[trigger] token.skip(count))
}

/// No placeholder begins at the end of `text`.
pub open spec fn opens_no_placeholder(text: Seq<char>) -> bool {
    &&& !opens(text, HEADER_TOKEN@)
    &&& !opens(text, CONTENT_TOKEN@)
    &&& !opens(text, FOOTER_TOKEN@)
}

/// No placeholder ends at the start of `text`.
pub open spec fn closes_no_placeholder(text: Seq<char>) -> bool {
    &&& !closes(text, HEADER_TOKEN@)
    &&& !closes(text, CONTENT_TOKEN@)
    &&& !closes(text, FOOTER_TOKEN@)
}

/// `text` holds no `#`, the character that every placeholder begins and ends
/// with.
pub open spec fn is_plain(text: Seq<char>) -> bool {
    forall|i: int| 0 <= i < text.len() ==> text[i] != '#'
}

/// `text` holds no `#` from index `from` up to index `to`.
pub open spec fn is_plain_between(text: Seq<char>, from: int, to: int) -> bool
    decreases to - from,
{
    from >= to || (text[from] != '#' && is_plain_between(text, from + 1, to))
}

/// `text` cut at the leftmost occurrence of `token`: what stands before the
/// token and what stands after it.
pub open spec fn cut(text: Seq<char>, token: Seq<char>) -> Option<(Seq<char>, Seq<char>)> {
    match first_occurrence(text, token) {
        Some(at) => Some((text.take(at), text.skip(at + token.len()))),
        None => None,
    }
}

/// The mathematical value of a [`Template`]: the text that a document has
/// before the content of its page, and the text that it has after it.
pub struct TemplateView {
    pub before: Seq<char>,
    pub after: Seq<char>,
}

impl TemplateView {
    /// No placeholder is left in the text of the template, and none can come
    /// about where the text meets the content.
    pub open spec fn is_clean(self) -> bool {
        &&& placeholder_free(self.before)
        &&& placeholder_free(self.after)
        &&& opens_no_placeholder(self.before)
        &&& closes_no_placeholder(self.after)
    }

    /// The document that holds `content`.
    pub open spec fn rendered(self, content: Seq<char>) -> Seq<char> {
        self.before + content + self.after
    }
}

/// The template that `page` gives with `header` and `footer` in the place of
/// their placeholders.
///
/// The page is read once from left to right: the header replaces the leftmost
/// header placeholder, the content will replace the leftmost content
/// placeholder after that, and the footer replaces the leftmost footer
/// placeholder after that. What is put in is not read again.
pub open spec fn composed(page: Seq<char>, header: Seq<char>, footer: Seq<char>) -> Result<
    TemplateView,
    ConfigurationError,
> {
    match cut(page, HEADER_TOKEN@) {
        None => Err(ConfigurationError::PlaceholderMissing),
        Some((start, rest)) => match cut(rest, CONTENT_TOKEN@) {
            None => Err(ConfigurationError::PlaceholderMissing),
            Some((lead, rest)) => match cut(rest, FOOTER_TOKEN@) {
                None => Err(ConfigurationError::PlaceholderMissing),
                Some((trail, end)) => {
                    let template = TemplateView {
                        before: start + header + lead,
                        after: trail + footer + end,
                    };
                    if template.is_clean() {
                        Ok(template)
                    } else {
                        Err(ConfigurationError::PlaceholderLeft)
                    }
                },
            },
        },
    }
}

/// The template that the server is built with: the built-in page with the
/// built-in header and footer.
pub open spec fn builtin_template() -> TemplateView {
    composed(PAGE@, HEADER@, FOOTER@).unwrap()
}

/// The header that the server is built with.
pub fn get_header() -> (header: &'static str)
    ensures
        header@ == HEADER@,
{
    HEADER
}

/// The footer that the server is built with.
pub fn get_footer() -> (footer: &'static str)
    ensures
        footer@ == FOOTER@,
{
    FOOTER
}

/// Cuts `text` at the leftmost occurrence of `token`.
fn cut_at(text: &str, token: &str) -> (parts: Option<(String, String)>)
    ensures
        match parts {
            Some((before, after)) => cut(text@, token@) == Some((before@, after@)),
            None => cut(text@, token@) is None,
        },
{
    let chars = to_chars(text);
    let pattern = to_chars(token);
    match find(&chars, &pattern) {
        None => None,
        Some(at) => {
            assert(occurs_at(chars@, pattern@, at as int));
            assert(at + pattern.len() <= chars.len());
            assert(text@.take(at as int) == text@.subrange(0, at as int));
            assert(text@.skip(at + token@.len()) == text@.subrange(
                at + token@.len(),
                text@.len() as int,
            ));
            let before = slice(text, 0, at);
            let after = slice(text, at + pattern.len(), chars.len());
            Some((before, after))
        },
    }
}

/// Whether `text` ends with a beginning of `token`.
fn opens_token(text: &Vec<char>, token: &Vec<char>) -> (found: bool)
    ensures
        found == opens(text@, token@),
{
    let mut count: usize = 1;
    while count < token.len()
        invariant
            1 <= count,
            forall|earlier: int|
                0 < earlier < count ==> !ends_with(text@, #[trigger] token@.take(earlier)),
        decreases token.len() - count,
    {
        if count <= text.len() && same_part(text, text.len() - count, token, 0, count) {
            assert(ends_with(text@, token@.take(count as int)));
            return true;
        }
        count += 1;
    }
    false
}

/// Whether `text` starts with an end of `token`.
fn closes_token(text: &Vec<char>, token: &Vec<char>) -> (found: bool)
    ensures
        found == closes(text@, token@),
{
    let mut count: usize = 1;
    while count < token.len()
        invariant
            1 <= count,
            forall|earlier: int|
                0 < earlier < count ==> !starts_with(text@, #[trigger] token@.skip(earlier)),
        decreases token.len() - count,
    {
        let rest: usize = token.len() - count;
        assert(token@.skip(count as int) == token@.subrange(count as int, count + rest));
        if rest <= text.len() && same_part(text, 0, token, count, rest) {
            assert(starts_with(text@, token@.skip(count as int)));
            return true;
        }
        count += 1;
    }
    false
}

/// Whether the text before the content and the text after it are such that
/// no placeholder is left in a document.
fn is_clean_text(before: &str, after: &str) -> (clean: bool)
    ensures
        clean == (TemplateView { before: before@, after: after@ }).is_clean(),
{
    let front = to_chars(before);
    let back = to_chars(after);
    let header = to_chars(HEADER_TOKEN);
    let content = to_chars(CONTENT_TOKEN);
    let footer = to_chars(FOOTER_TOKEN);
    is_placeholder_free(before) && is_placeholder_free(after) && !opens_token(&front, &header)
        && !opens_token(&front, &content) && !opens_token(&front, &footer) && !closes_token(
        &back,
        &header,
    ) && !closes_token(&back, &content) && !closes_token(&back, &footer)
}

/// Whether no placeholder stands anywhere in `text`.
fn is_placeholder_free(text: &str) -> (free: bool)
    ensures
        free == placeholder_free(text@),
{
    let chars = to_chars(text);
    let header = to_chars(HEADER_TOKEN);
    let content = to_chars(CONTENT_TOKEN);
    let footer = to_chars(FOOTER_TOKEN);
    find(&chars, &header).is_none() && find(&chars, &content).is_none() && find(
        &chars,
        &footer,
    ).is_none()
}

/// The text around the content of a page, with header and footer in place.
#[derive(Debug)]
pub struct Template {
    before: String,
    after: String,
}

impl View for Template {
    type V = TemplateView;

    closed spec fn view(&self) -> TemplateView {
        TemplateView { before: self.before@, after: self.after@ }
    }
}

impl Template {
    /// No placeholder is left in a document of the template, unless the
    /// content of the page holds one.
    #[verifier::type_invariant]
    pub open spec fn is_valid(self) -> bool {
        self@.is_clean()
    }

    /// Puts `header` and `footer` into `page`, and leaves the place of the
    /// content open.
    ///
    /// Fails where `page` lacks a placeholder, or where a placeholder would be
    /// left in the text around the content.
    pub fn compose(page: &str, header: &str, footer: &str) -> (result: Result<
        Template,
        ConfigurationError,
    >)
        ensures
            match result {
                Ok(template) => composed(page@, header@, footer@) == Ok::<
                    TemplateView,
                    ConfigurationError,
                >(template@),
                Err(e) => composed(page@, header@, footer@) == Err::<
                    TemplateView,
                    ConfigurationError,
                >(e),
            },
    {
        let (start, rest) = match cut_at(page, HEADER_TOKEN) {
            Some(parts) => parts,
            None => { return Err(ConfigurationError::PlaceholderMissing); },
        };
        let (lead, rest) = match cut_at(rest.as_str(), CONTENT_TOKEN) {
            Some(parts) => parts,
            None => { return Err(ConfigurationError::PlaceholderMissing); },
        };
        let (trail, end) = match cut_at(rest.as_str(), FOOTER_TOKEN) {
            Some(parts) => parts,
            None => { return Err(ConfigurationError::PlaceholderMissing); },
        };
        let mut before = start;
        before.append(header);
        before.append(lead.as_str());
        let mut after = trail;
        after.append(footer);
        after.append(end.as_str());
        if is_clean_text(before.as_str(), after.as_str()) {
            Ok(Template { before, after })
        } else {
            Err(ConfigurationError::PlaceholderLeft)
        }
    }

    /// The template that the server is built with.
    pub fn builtin() -> (template: Template)
        ensures
            template@ == builtin_template(),
            template@.is_clean(),
    {
        match Template::compose(PAGE, get_header(), get_footer()) {
            Ok(template) => template,
            Err(_) => {
                proof {
                    lemma_builtin_page_composes();
                }
                unreached()
            },
        }
    }

    /// The document that holds `content`: the template's text, with `content`
    /// in the place that was left open. Nothing in `content` is replaced or
    /// escaped.
    pub fn render(&self, content: &str) -> (document: String)
        ensures
            document@ == self@.rendered(content@),
            self@.is_clean(),
    {
        proof {
            use_type_invariant(self);
        }
        let mut document = String::from_str(self.before.as_str());
        document.append(content);
        document.append(self.after.as_str());
        document
    }
}

/// The document that holds `content`, with the template that the server is
/// built with: the built-in page, with the built-in header and footer in the
/// place of their placeholders and `content` in the place of its own.
pub fn fill_template(content: String) -> (document: String)
    ensures
        document@ == builtin_template().rendered(content@),
{
    Template::builtin().render(content.as_str())
}

/// What is plain between two indices holds no `#` at any index between them.
pub proof fn lemma_plain_between(text: Seq<char>, from: int, to: int)
    requires
        is_plain_between(text, from, to),
    ensures
        forall|i: int| from <= i < to ==> text[i] != '#',
    decreases to - from,
{
    if from < to {
        lemma_plain_between(text, from + 1, to);
    }
}

/// Each placeholder begins and ends with `#`.
pub proof fn lemma_placeholders_are_marked(token: Seq<char>)
    requires
        is_placeholder(token),
    ensures
        token.len() >= 2,
        token.first() == '#',
        token.last() == '#',
{
    reveal_strlit("##HEADER##");
    reveal_strlit("##CONTENT##");
    reveal_strlit("##FOOTER##");
}

/// Plain text holds no placeholder, and neither begins nor ends one.
pub proof fn lemma_plain_text_holds_no_placeholder(text: Seq<char>, token: Seq<char>)
    requires
        is_plain(text),
        is_placeholder(token),
    ensures
        !occurs_in(text, token),
        !opens(text, token),
        !closes(text, token),
{
    lemma_placeholders_are_marked(token);
    assert forall|at: int| !occurs_at(text, token, at) by {
        if occurs_at(text, token, at) {
            assert(text.subrange(at, at + token.len())[0] == text[at]);
        }
    }
    assert forall|count: int| 0 < count < token.len() implies !ends_with(
        text,
        #[trigger] token.take(count),
    ) by {
        if ends_with(text, token.take(count)) {
            let at = text.len() - count;
            assert(text.subrange(at, at + count)[0] == text[at]);
            assert(token.take(count)[0] == token[0]);
        }
    }
    assert forall|count: int| 0 < count < token.len() implies !starts_with(
        text,
        #[trigger] token.skip(count),
    ) by {
        if starts_with(text, token.skip(count)) {
            let last = token.len() - count - 1;
            assert(text.subrange(0, token.len() - count)[last] == text[last]);
            assert(token.skip(count)[last] == token.last());
        }
    }
}

/// A template of plain text is clean.
pub proof fn lemma_plain_template_is_clean(template: TemplateView)
    requires
        is_plain(template.before),
        is_plain(template.after),
    ensures
        template.is_clean(),
{
    lemma_plain_text_holds_no_placeholder(template.before, HEADER_TOKEN@);
    lemma_plain_text_holds_no_placeholder(template.before, CONTENT_TOKEN@);
    lemma_plain_text_holds_no_placeholder(template.before, FOOTER_TOKEN@);
    lemma_plain_text_holds_no_placeholder(template.after, HEADER_TOKEN@);
    lemma_plain_text_holds_no_placeholder(template.after, CONTENT_TOKEN@);
    lemma_plain_text_holds_no_placeholder(template.after, FOOTER_TOKEN@);
}

/// A placeholder that stands behind plain text stands there first.
pub proof fn lemma_first_behind_plain_text(text: Seq<char>, token: Seq<char>, at: int)
    requires
        is_placeholder(token),
        occurs_at(text, token, at),
        is_plain(text.take(at)),
    ensures
        first_occurrence(text, token) == Some(at),
        cut(text, token) == Some((text.take(at), text.skip(at + token.len()))),
{
    lemma_placeholders_are_marked(token);
    assert forall|i: int| 0 <= i < at implies text[i] != '#' by {
        assert(text.take(at)[i] == text[i]);
    }
    assert forall|earlier: int| 0 <= earlier < at implies !occurs_at(text, token, earlier) by {
        if occurs_at(text, token, earlier) {
            assert(text.subrange(earlier, earlier + token.len())[0] == text[earlier]);
        }
    }
    lemma_first_occurrence_is_unique(text, token, at);
}

/// The built-in header and footer are plain text.
pub proof fn lemma_builtin_header_and_footer_are_plain()
    ensures
        is_plain(HEADER@),
        is_plain(FOOTER@),
{
    reveal_strlit(
        "<header>\n\
<nav><a href=\"/\">Index</a></nav>\n\
</header>",
    );
    reveal_strlit(
        "<footer>\n\
<p>Pages are served as they are written.</p>\n\
</footer>",
    );
    assert(is_plain_between(HEADER@, 0, 51)) by {
        reveal_with_fuel(is_plain_between, 52);
    }
    assert(is_plain_between(FOOTER@, 0, 63)) by {
        reveal_with_fuel(is_plain_between, 64);
    }
    lemma_plain_between(HEADER@, 0, 51);
    lemma_plain_between(FOOTER@, 0, 63);
}

/// The built-in page composes with the built-in header and footer: it has
/// its three placeholders in order, and plain text around them.
pub proof fn lemma_builtin_page_composes()
    ensures
        composed(PAGE@, HEADER@, FOOTER@) is Ok,
{
    reveal_strlit(
        "<!DOCTYPE html>\n\
<html lang=\"en\">\n\
<head>\n\
<meta charset=\"utf-8\">\n\
<link rel=\"stylesheet\" href=\"/style.css\">\n\
</head>\n\
<body>\n\
##HEADER##\n\
<main>\n\
##CONTENT##\n\
</main>\n\
##FOOTER##\n\
</body>\n\
</html>\n",
    );
    reveal_strlit("##HEADER##");
    reveal_strlit("##CONTENT##");
    reveal_strlit("##FOOTER##");
    let start = PAGE@.take(120);
    let rest = PAGE@.skip(130);
    let lead = rest.take(8);
    let rest2 = rest.skip(19);
    let trail = rest2.take(9);
    let end = rest2.skip(19);

    assert(is_plain_between(PAGE@, 0, 40)) by {
        reveal_with_fuel(is_plain_between, 41);
    }
    assert(is_plain_between(PAGE@, 40, 80)) by {
        reveal_with_fuel(is_plain_between, 41);
    }
    assert(is_plain_between(PAGE@, 80, 120)) by {
        reveal_with_fuel(is_plain_between, 41);
    }
    assert(PAGE@.subrange(120, 130) =~= HEADER_TOKEN@);
    lemma_plain_between(PAGE@, 0, 40);
    lemma_plain_between(PAGE@, 40, 80);
    lemma_plain_between(PAGE@, 80, 120);
    lemma_first_behind_plain_text(PAGE@, HEADER_TOKEN@, 120);

    assert(is_plain_between(rest, 0, 8)) by {
        reveal_with_fuel(is_plain_between, 9);
    }
    assert(rest.subrange(8, 19) =~= CONTENT_TOKEN@);
    lemma_plain_between(rest, 0, 8);
    lemma_first_behind_plain_text(rest, CONTENT_TOKEN@, 8);

    assert(is_plain_between(rest2, 0, 9)) by {
        reveal_with_fuel(is_plain_between, 10);
    }
    assert(rest2.subrange(9, 19) =~= FOOTER_TOKEN@);
    lemma_plain_between(rest2, 0, 9);
    lemma_first_behind_plain_text(rest2, FOOTER_TOKEN@, 9);

    assert(is_plain_between(end, 0, 17)) by {
        reveal_with_fuel(is_plain_between, 18);
    }
    lemma_plain_between(end, 0, 17);
    lemma_builtin_header_and_footer_are_plain();
    let template = TemplateView { before: start + HEADER@ + lead, after: trail + FOOTER@ + end };
    assert(is_plain(template.before));
    assert(is_plain(template.after));
    lemma_plain_template_is_clean(template);
}

/// A document is its page with each placeholder replaced, once and in order:
/// the header placeholder by the header, the content placeholder by the
/// content, the footer placeholder by the footer.
pub proof fn law_document_is_the_page_filled(
    page: Seq<char>,
    header: Seq<char>,
    footer: Seq<char>,
    content: Seq<char>,
)
    requires
        composed(page, header, footer) is Ok,
    ensures
        exists|start: Seq<char>, lead: Seq<char>, trail: Seq<char>, end: Seq<char>|
            #![trigger start + header + lead + content + trail + footer + end]
            page == start + HEADER_TOKEN@ + lead + CONTENT_TOKEN@ + trail + FOOTER_TOKEN@ + end
                && composed(page, header, footer).unwrap().rendered(content) == start + header
                + lead + content + trail + footer + end,
{
    let (start, rest) = cut(page, HEADER_TOKEN@).unwrap();
    let (lead, rest2) = cut(rest, CONTENT_TOKEN@).unwrap();
    let (trail, end) = cut(rest2, FOOTER_TOKEN@).unwrap();
    lemma_first_occurrence_is_leftmost(page, HEADER_TOKEN@);
    lemma_first_occurrence_is_leftmost(rest, CONTENT_TOKEN@);
    lemma_first_occurrence_is_leftmost(rest2, FOOTER_TOKEN@);
    assert(page =~= start + HEADER_TOKEN@ + rest);
    assert(rest =~= lead + CONTENT_TOKEN@ + rest2);
    assert(rest2 =~= trail + FOOTER_TOKEN@ + end);
    assert(page =~= start + HEADER_TOKEN@ + lead + CONTENT_TOKEN@ + trail + FOOTER_TOKEN@ + end);
    assert(composed(page, header, footer).unwrap().rendered(content) =~= start + header + lead
        + content + trail + footer + end);
}

/// No placeholder is left in a document, unless the content of the page
/// itself holds one: the content is put in as it is, and is not read again.
pub proof fn law_no_placeholder_is_left(template: TemplateView, content: Seq<char>)
    requires
        template.is_clean(),
        placeholder_free(content),
    ensures
        placeholder_free(template.rendered(content)),
{
    assert forall|token: Seq<char>, at: int| is_placeholder(token) implies !occurs_at(
        template.rendered(content),
        token,
        at,
    ) by {
        if occurs_at(template.rendered(content), token, at) {
            lemma_occurrence_lies_in_content(template, content, token, at);
            assert(occurs_at(content, token, at - template.before.len()));
        }
    }
}

/// No placeholder is left in a document of the built-in template, unless the
/// content of the page itself holds one.
pub proof fn law_fill_template_leaves_no_placeholder(content: Seq<char>)
    requires
        placeholder_free(content),
    ensures
        builtin_template().is_clean(),
        placeholder_free(builtin_template().rendered(content)),
{
    lemma_builtin_page_composes();
    law_no_placeholder_is_left(builtin_template(), content);
}

/// A placeholder in a document lies in the content of its page.
pub proof fn lemma_occurrence_lies_in_content(
    template: TemplateView,
    content: Seq<char>,
    token: Seq<char>,
    at: int,
)
    requires
        template.is_clean(),
        is_placeholder(token),
        occurs_at(template.rendered(content), token, at),
    ensures
        occurs_at(content, token, at - template.before.len()),
{
    let document = template.rendered(content);
    let start = template.before.len() as int;
    let end = start + content.len();
    let found = document.subrange(at, at + token.len());
    if at + token.len() <= start {
        assert(template.before.subrange(at, at + token.len()) =~= found);
        assert(occurs_at(template.before, token, at));
    } else if at < start {
        let count = start - at;
        assert(template.before.subrange(at, start) =~= found.take(count));
        assert(ends_with(template.before, token.take(count)));
    } else if at >= end {
        assert(template.after.subrange(at - end, at - end + token.len()) =~= found);
        assert(occurs_at(template.after, token, at - end));
    } else if at + token.len() > end {
        let count = end - at;
        assert(template.after.subrange(0, token.len() - count) =~= found.skip(count));
        assert(starts_with(template.after, token.skip(count)));
    } else {
        assert(content.subrange(at - start, at - start + token.len()) =~= found);
    }
}

/// The content of a page stands in its document as it is.
pub proof fn law_content_stands_as_it_is(template: TemplateView, content: Seq<char>)
    ensures
        occurs_at(template.rendered(content), content, template.before.len() as int),
{
    let document = template.rendered(content);
    let start = template.before.len() as int;
    assert(document.subrange(start, start + content.len()) =~= content);
}

/// The same content gives the same document.
pub proof fn law_rendering_is_repeatable(
    template: TemplateView,
    first: Seq<char>,
    second: Seq<char>,
)
    requires
        first == second,
    ensures
        template.rendered(first) == template.rendered(second),
{
}

} // verus!
