//! Paths as text: canonical form, containment in a root directory, and the
//! rules by which a request names a file.

use vstd::prelude::*;
use crate::error::{ConfigurationError, ServeError, ServeErrorView};
use crate::text::{ends_with, has_suffix, matches_at, occurs_at, slice, to_chars, without_tail};

verus! {

/// The extension of a page file, with its dot.
pub const HTML_SUFFIX: &'static str = ".html";

/// The characters from `start` up to `end` are one whole segment of `path`: they
/// follow a separator, hold none, and end at a separator or at the path's end.
pub open spec fn is_segment(path: Seq<char>, start: int, end: int) -> bool {
    &&& 1 <= start <= end <= path.len()
    &&& path[start - 1] == '/'
    &&& end == path.len() || path[end] == '/'
    &&& forall|k: int| start <= k < end ==> path[k] != '/'
}

/// `name` can name an entry of a directory: it is not empty and is neither `.`
/// nor `..`.
pub open spec fn is_proper_name(name: Seq<char>) -> bool {
    &&& name.len() > 0
    &&& name != seq!['.']
    &&& name != seq!['.', '.']
}

/// `path` is written as canonicalization writes a path: it is `/`, or a `/` and
/// a proper name, once or more often.
pub open spec fn is_canonical(path: Seq<char>) -> bool {
    &&& path.len() > 0
    &&& path[0] == '/'
    &&& path.len() > 1 ==> forall|start: int, end: int| #[trigger]
        is_segment(path, start, end) ==> is_proper_name(path.subrange(start, end))
}

/// `path` is longer than `root`, starts with it, and goes on behind it with a
/// separator; the root `/` ends in that separator itself.
pub open spec fn is_below(path: Seq<char>, root: Seq<char>) -> bool {
    &&& path.len() > root.len()
    &&& occurs_at(path, root, 0)
    &&& root.len() == 1 || path[root.len() as int] == '/'
}

/// `path` is `root` or lies under it, both in canonical form.
pub open spec fn within(path: Seq<char>, root: Seq<char>) -> bool {
    &&& is_canonical(root)
    &&& is_canonical(path)
    &&& path == root || is_below(path, root)
}

/// What is left of `path` after `root` and the separator that follows it.
pub open spec fn relative(path: Seq<char>, root: Seq<char>) -> Seq<char> {
    if path.len() <= root.len() {
        Seq::empty()
    } else if root.len() == 1 {
        path.skip(1)
    } else {
        path.skip(root.len() as int + 1)
    }
}

/// `rel` joined onto `base`: an absolute `rel` stands alone, any other follows
/// `base` and a separator. Nothing in `rel` is interpreted.
pub open spec fn joined(base: Seq<char>, rel: Seq<char>) -> Seq<char> {
    if rel.len() > 0 && rel[0] == '/' {
        rel
    } else if base.len() == 0 || base.last() == '/' {
        base + rel
    } else {
        base + seq!['/'] + rel
    }
}

/// The text after the last separator of `path`.
pub open spec fn final_segment(path: Seq<char>) -> Seq<char>
    decreases path.len(),
{
    if path.len() == 0 || path.last() == '/' {
        Seq::empty()
    } else {
        final_segment(path.drop_last()).push(path.last())
    }
}

/// The final segment of `path` is a name without an extension delimiter.
pub open spec fn lacks_extension(path: Seq<char>) -> bool {
    final_segment(path).len() > 0 && !final_segment(path).contains('.')
}

/// The final segment of `path` is a name with the extension `html`.
pub open spec fn has_html_extension(path: Seq<char>) -> bool {
    final_segment(path).len() > HTML_SUFFIX@.len() && ends_with(final_segment(path), HTML_SUFFIX@)
}

/// `path` without a trailing `.html`.
pub open spec fn without_html_suffix(path: Seq<char>) -> Seq<char> {
    if ends_with(path, HTML_SUFFIX@) {
        without_tail(path, HTML_SUFFIX@.len())
    } else {
        path
    }
}

/// A canonical path other than `/` does not end in a separator.
pub proof fn lemma_canonical_has_no_trailing_separator(path: Seq<char>)
    requires
        is_canonical(path),
        path.len() > 1,
    ensures
        path.last() != '/',
{
    if path.last() == '/' {
        let end = path.len() as int;
        assert(is_segment(path, end, end));
        assert(path.subrange(end, end).len() == 0);
    }
}

/// Of the paths within a root, only the root itself has nothing left when
/// the root is taken from it.
pub proof fn lemma_relative_is_empty_at_root(path: Seq<char>, root: Seq<char>)
    requires
        within(path, root),
    ensures
        relative(path, root).len() == 0 <==> path == root,
{
    if path != root {
        lemma_canonical_has_no_trailing_separator(path);
    }
}

/// A canonical path has no separator right behind another.
pub proof fn lemma_canonical_has_no_empty_segment(path: Seq<char>, at: int)
    requires
        is_canonical(path),
        1 <= at < path.len(),
        path[at - 1] == '/',
    ensures
        path[at] != '/',
{
    if path[at] == '/' {
        assert(is_segment(path, at, at));
        assert(path.subrange(at, at).len() == 0);
    }
}

/// A path under a root is the root joined with what is left of the path when
/// the root is taken from it; and that is a relative path.
pub proof fn law_relative_path_rejoins(path: Seq<char>, root: Seq<char>)
    requires
        within(path, root),
        path != root,
    ensures
        relative(path, root).len() > 0,
        relative(path, root)[0] != '/',
        joined(root, relative(path, root)) == path,
{
    lemma_relative_is_empty_at_root(path, root);
    if root.len() == 1 {
        lemma_canonical_has_no_empty_segment(path, 1);
        assert(root =~= seq!['/']);
        assert(root + path.skip(1) =~= path);
    } else {
        lemma_canonical_has_no_trailing_separator(root);
        lemma_canonical_has_no_empty_segment(path, root.len() as int + 1);
        assert(path.subrange(0, root.len() as int) == root);
        assert(root + seq!['/'] + path.skip(root.len() as int + 1) =~= path);
    }
}

/// Behind a separator, the final segment is that of what follows.
pub proof fn lemma_final_segment_behind_separator(front: Seq<char>, rest: Seq<char>)
    requires
        front.len() > 0,
        front.last() == '/',
    ensures
        final_segment(front + rest) == final_segment(rest),
    decreases rest.len(),
{
    if rest.len() == 0 {
        assert(front + rest =~= front);
    } else {
        assert((front + rest).last() == rest.last());
        assert((front + rest).drop_last() =~= front + rest.drop_last());
        lemma_final_segment_behind_separator(front, rest.drop_last());
    }
}

/// Joining a request onto a root leaves the final segment of the request as
/// it is, and with it whether the request has an extension.
pub proof fn law_joining_keeps_final_segment(root: Seq<char>, request: Seq<char>)
    requires
        is_canonical(root),
    ensures
        final_segment(joined(root, request)) == final_segment(request),
        lacks_extension(joined(root, request)) == lacks_extension(request),
{
    if request.len() > 0 && request[0] == '/' {
    } else if root.last() == '/' {
        lemma_final_segment_behind_separator(root, request);
    } else {
        lemma_final_segment_behind_separator(root + seq!['/'], request);
    }
}

/// Whether the characters from `start` up to `end` are a proper name.
fn is_proper_part(path: &Vec<char>, start: usize, end: usize) -> (ok: bool)
    requires
        start <= end <= path.len(),
    ensures
        ok == is_proper_name(path@.subrange(start as int, end as int)),
{
    let ghost name = path@.subrange(start as int, end as int);
    let len: usize = end - start;
    assert(name.len() == len);
    assert(seq!['.'].len() == 1 && seq!['.', '.'].len() == 2);
    if len == 0 {
        false
    } else if len == 1 {
        assert(name[0] == path@[start as int]);
        assert(seq!['.'][0] == '.');
        if path[start] == '.' {
            assert(name =~= seq!['.']);
        }
        path[start] != '.'
    } else if len == 2 {
        assert(name[0] == path@[start as int]);
        assert(name[1] == path@[start + 1]);
        assert(seq!['.', '.'][0] == '.' && seq!['.', '.'][1] == '.');
        if path[start] == '.' && path[start + 1] == '.' {
            assert(name =~= seq!['.', '.']);
        }
        !(path[start] == '.' && path[start + 1] == '.')
    } else {
        true
    }
}

/// Whether `path` is in canonical form.
pub fn is_canonical_path(path: &str) -> (ok: bool)
    ensures
        ok == is_canonical(path@),
{
    let chars = to_chars(path);
    is_canonical_chars(&chars)
}

/// Whether the characters of `path` are a path in canonical form.
fn is_canonical_chars(path: &Vec<char>) -> (ok: bool)
    ensures
        ok == is_canonical(path@),
{
    let n: usize = path.len();
    if n == 0 || path[0] != '/' {
        return false;
    }
    if n == 1 {
        return true;
    }
    let mut start: usize = 1;
    let mut i: usize = 1;
    while i < n
        invariant
            n == path.len(),
            n > 1,
            path@[0] == '/',
            1 <= start <= i <= n,
            path@[start - 1] == '/',
            forall|k: int| start <= k < i ==> path@[k] != '/',
            forall|s: int, e: int| #[trigger]
                is_segment(path@, s, e) && e < start ==> is_proper_name(path@.subrange(s, e)),
        decreases n - i,
    {
        if path[i] == '/' {
            assert(is_segment(path@, start as int, i as int));
            if !is_proper_part(path, start, i) {
                return false;
            }
            assert forall|s: int, e: int| #[trigger]
                is_segment(path@, s, e) && e < i + 1 implies is_proper_name(
                path@.subrange(s, e),
            ) by {
                if e >= start {
                    assert(e == i);
                    if s < start {
                        assert(path@[start - 1] == '/');
                    }
                    if s > start {
                        assert(path@[s - 1] == '/');
                    }
                    assert(s == start);
                }
            }
            start = i + 1;
        }
        i += 1;
    }
    assert(is_segment(path@, start as int, n as int));
    if !is_proper_part(path, start, n) {
        return false;
    }
    assert forall|s: int, e: int| #[trigger] is_segment(path@, s, e) implies is_proper_name(
        path@.subrange(s, e),
    ) by {
        if e >= start {
            assert(e == n);
            if s < start {
                assert(path@[start - 1] == '/');
            }
            if s > start {
                assert(path@[s - 1] == '/');
            }
            assert(s == start);
        }
    }
    true
}

/// The index at which the final segment of `path` starts.
fn final_segment_start(path: &Vec<char>) -> (start: usize)
    ensures
        start <= path.len(),
        final_segment(path@) == path@.skip(start as int),
{
    let mut start: usize = 0;
    let mut i: usize = 0;
    while i < path.len()
        invariant
            start <= i <= path.len(),
            final_segment(path@.take(i as int)) == path@.subrange(start as int, i as int),
        decreases path.len() - i,
    {
        proof {
            assert(path@.take(i + 1).drop_last() =~= path@.take(i as int));
            assert(path@.take(i + 1).last() == path@[i as int]);
        }
        if path[i] == '/' {
            start = i + 1;
            assert(path@.subrange(start as int, i + 1) =~= Seq::<char>::empty());
        } else {
            assert(path@.subrange(start as int, i + 1) =~= path@.subrange(
                start as int,
                i as int,
            ).push(path@[i as int]));
        }
        i += 1;
    }
    assert(path@.take(path@.len() as int) =~= path@);
    assert(path@.skip(start as int) =~= path@.subrange(start as int, path@.len() as int));
    start
}

/// Whether the final segment of `path` is a name without an extension
/// delimiter, so that `.html` may be appended to it.
pub fn path_lacks_extension(path: &str) -> (lacks: bool)
    ensures
        lacks == lacks_extension(path@),
{
    let chars = to_chars(path);
    let start: usize = final_segment_start(&chars);
    let ghost name = chars@.skip(start as int);
    if start == chars.len() {
        return false;
    }
    let mut k: usize = start;
    while k < chars.len()
        invariant
            start <= k <= chars.len(),
            chars@ == path@,
            name == final_segment(path@),
            name == chars@.skip(start as int),
            forall|j: int| 0 <= j < k - start ==> name[j] != '.',
        decreases chars.len() - k,
    {
        if chars[k] == '.' {
            assert(name[k - start] == '.');
            assert(name.contains('.'));
            return false;
        }
        k += 1;
    }
    true
}

/// Whether the final segment of `path` is a name with the extension `html`.
pub fn path_has_html_extension(path: &str) -> (has: bool)
    ensures
        has == has_html_extension(path@),
{
    let chars = to_chars(path);
    let suffix = to_chars(HTML_SUFFIX);
    let start: usize = final_segment_start(&chars);
    let ghost name = chars@.skip(start as int);
    if chars.len() - start <= suffix.len() {
        return false;
    }
    let at: usize = chars.len() - suffix.len();
    assert(name.subrange(at - start, at - start + suffix@.len()) =~= chars@.subrange(
        at as int,
        at + suffix@.len(),
    ));
    matches_at(&chars, &suffix, at)
}

/// `path` without a trailing `.html`.
pub fn strip_html_suffix(path: &str) -> (stem: String)
    ensures
        stem@ == without_html_suffix(path@),
{
    let chars = to_chars(path);
    let suffix = to_chars(HTML_SUFFIX);
    if has_suffix(&chars, &suffix) {
        slice(path, 0, chars.len() - suffix.len())
    } else {
        String::from_str(path)
    }
}

/// Joins `rel` onto `base`, interpreting nothing in `rel`.
pub fn join(base: &str, rel: &str) -> (path: String)
    ensures
        path@ == joined(base@, rel@),
{
    if !rel.is_empty() && rel.get_char(0) == '/' {
        return String::from_str(rel);
    }
    let n: usize = base.unicode_len();
    let mut path = String::from_str(base);
    if n > 0 && base.get_char(n - 1) != '/' {
        proof {
            reveal_strlit("/");
        }
        assert("/"@ =~= seq!['/']);
        path.append("/");
    }
    path.append(rel);
    path
}

/// `path` with `.html` appended to its final segment.
pub fn with_html_suffix(path: &str) -> (longer: String)
    ensures
        longer@ == path@ + HTML_SUFFIX@,
{
    let mut longer = String::from_str(path);
    longer.append(HTML_SUFFIX);
    longer
}

/// The root directory that bounds all served content: a canonical path, fixed
/// once it is made.
#[derive(Debug)]
pub struct RootContext {
    root: String,
}

impl View for RootContext {
    type V = Seq<char>;

    closed spec fn view(&self) -> Seq<char> {
        self.root@
    }
}

impl RootContext {
    /// The root is a canonical path.
    #[verifier::type_invariant]
    pub open spec fn is_valid(self) -> bool {
        is_canonical(self@)
    }

    /// Takes `root` as the root directory. It has to be in canonical form.
    pub fn new(root: String) -> (result: Result<RootContext, ConfigurationError>)
        ensures
            match result {
                Ok(context) => is_canonical(root@) && context@ == root@,
                Err(e) => !is_canonical(root@) && e == ConfigurationError::RootNotCanonical,
            },
    {
        if is_canonical_path(root.as_str()) {
            Ok(RootContext { root })
        } else {
            Err(ConfigurationError::RootNotCanonical)
        }
    }

    /// The root directory.
    pub fn root_path(&self) -> (root: &str)
        ensures
            root@ == self@,
            is_canonical(root@),
    {
        proof {
            use_type_invariant(self);
        }
        self.root.as_str()
    }

    /// Lets `canonical` through if it is the root or lies under it.
    ///
    /// `canonical` is taken as the canonical path of an entry. Any other path
    /// is a [`ServeError::PathEscape`].
    pub fn confine(&self, canonical: String) -> (result: Result<String, ServeError>)
        ensures
            match result {
                Ok(path) => within(canonical@, self@) && path@ == canonical@,
                Err(e) => !within(canonical@, self@) && e@ == ServeErrorView::PathEscape,
            },
    {
        match relative_path(canonical.as_str(), self.root_path()) {
            Ok(_) => Ok(canonical),
            Err(escape) => Err(escape),
        }
    }
}

/// Expresses `path` relative to `relative_to`.
///
/// Both are taken as canonical paths. The result is the part of `path` that
/// follows `relative_to`; it is empty where the two are equal. A `path` that
/// is not `relative_to` or under it, or either of them not in canonical form,
/// is a [`ServeError::PathEscape`].
pub fn relative_path(path: &str, relative_to: &str) -> (result: Result<String, ServeError>)
    ensures
        match result {
            Ok(rel) => within(path@, relative_to@) && rel@ == relative(path@, relative_to@),
            Err(e) => !within(path@, relative_to@) && e@ == ServeErrorView::PathEscape,
        },
{
    let p = to_chars(path);
    let r = to_chars(relative_to);
    if !is_canonical_chars(&r) || !is_canonical_chars(&p) {
        return Err(ServeError::PathEscape);
    }
    if p.len() < r.len() || !matches_at(&p, &r, 0) {
        assert(p@ == r@ ==> p@.subrange(0, r@.len() as int) =~= r@);
        return Err(ServeError::PathEscape);
    }
    if p.len() == r.len() {
        assert(p@ =~= p@.subrange(0, r@.len() as int));
        return Ok(String::new());
    }
    if r.len() == 1 {
        assert(p@.skip(1) == p@.subrange(1, p@.len() as int));
        return Ok(slice(path, 1, p.len()));
    }
    if p[r.len()] != '/' {
        return Err(ServeError::PathEscape);
    }
    assert(p@.skip(r@.len() as int + 1) == p@.subrange(r@.len() as int + 1, p@.len() as int));
    Ok(slice(path, r.len() + 1, p.len()))
}

} // verus!
