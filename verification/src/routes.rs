//! How a request is served: which questions are put to the file system, in
//! which order, and what each answer leads to.
//!
//! The handler does no input or output. It says what it needs next, as an
//! [`Action`]; its caller does that and hands the outcome back, as an
//! [`Event`]. A request ends with [`Action::Respond`].

use vstd::prelude::*;
use crate::error::{ServeError, ServeErrorView};
use crate::listing::{Child, ChildView, child_views, directory_listing, listing_page};
use crate::paths::{
    HTML_SUFFIX,
    RootContext,
    is_canonical,
    join,
    joined,
    lacks_extension,
    law_joining_keeps_final_segment,
    path_lacks_extension,
    with_html_suffix,
    within,
};
use crate::response::{
    Response,
    ResponseView,
    error_page,
    error_response,
    failure_page,
    html_page,
    not_found_page,
    ok_html,
    server_error,
};
use crate::template::{Template, TemplateView};

verus! {

/// The body of the response to an event that answers nothing that was asked.
pub const UNEXPECTED_TEXT: &'static str = "unexpected answer from the file system";

/// What an entry of the file system is.
#[derive(Debug, Clone, Copy, PartialEq, Eq)]
pub enum EntryKind {
    File,
    Directory,
}

/// How far a request has come.
#[derive(Debug, PartialEq, Eq)]
pub enum State {
    /// Asked whether the requested path exists.
    Locating { candidate: String },
    /// Asked whether the requested path exists with `.html` appended.
    LocatingFallback { candidate: String },
    /// Asked for the canonical path of the entry that was found.
    Checking { kind: EntryKind },
    /// Asked for the children of a directory within the root.
    Listing,
    /// Asked for the contents of a file within the root.
    Reading,
    /// Answered.
    Done,
}

/// The mathematical value of a [`State`].
pub enum StateView {
    Locating { candidate: Seq<char> },
    LocatingFallback { candidate: Seq<char> },
    Checking { kind: EntryKind },
    Listing,
    Reading,
    Done,
}

impl View for State {
    type V = StateView;

    open spec fn view(&self) -> StateView {
        match self {
            State::Locating { candidate } => StateView::Locating { candidate: candidate@ },
            State::LocatingFallback { candidate } => StateView::LocatingFallback {
                candidate: candidate@,
            },
            State::Checking { kind } => StateView::Checking { kind: *kind },
            State::Listing => StateView::Listing,
            State::Reading => StateView::Reading,
            State::Done => StateView::Done,
        }
    }
}

/// What the handler needs next.
#[derive(Debug, PartialEq, Eq)]
pub enum Action {
    /// Say whether this path exists, and as what.
    Probe(String),
    /// Give the canonical form of this path.
    Canonicalize(String),
    /// Give the children of this directory, each by its canonical path.
    ListDirectory(String),
    /// Give the contents of this file.
    ReadFile(String),
    /// Send this response. The request is served.
    Respond(Response),
}

/// The mathematical value of an [`Action`].
pub enum ActionView {
    Probe(Seq<char>),
    Canonicalize(Seq<char>),
    ListDirectory(Seq<char>),
    ReadFile(Seq<char>),
    Respond(ResponseView),
}

impl View for Action {
    type V = ActionView;

    open spec fn view(&self) -> ActionView {
        match self {
            Action::Probe(path) => ActionView::Probe(path@),
            Action::Canonicalize(path) => ActionView::Canonicalize(path@),
            Action::ListDirectory(path) => ActionView::ListDirectory(path@),
            Action::ReadFile(path) => ActionView::ReadFile(path@),
            Action::Respond(response) => ActionView::Respond(response@),
        }
    }
}

/// What the file system gave.
#[derive(Debug, PartialEq, Eq)]
pub enum Event {
    /// The path that was probed exists, as this.
    Found(EntryKind),
    /// The canonical form of the path.
    Canonical(String),
    /// The children of the directory.
    Children(Vec<Child>),
    /// The contents of the file.
    Content(String),
    /// There is no such entry, or no more.
    Vanished,
    /// The file system failed otherwise, with this diagnostic text.
    Failed(String),
}

/// The mathematical value of an [`Event`].
pub enum EventView {
    Found(EntryKind),
    Canonical(Seq<char>),
    Children(Seq<ChildView>),
    Content(Seq<char>),
    Vanished,
    Failed(Seq<char>),
}

impl View for Event {
    type V = EventView;

    open spec fn view(&self) -> EventView {
        match self {
            Event::Found(kind) => EventView::Found(*kind),
            Event::Canonical(path) => EventView::Canonical(path@),
            Event::Children(children) => EventView::Children(child_views(children@)),
            Event::Content(text) => EventView::Content(text@),
            Event::Vanished => EventView::Vanished,
            Event::Failed(text) => EventView::Failed(text@),
        }
    }
}

/// The end of a request: nothing is pending, and `response` is to be sent.
pub open spec fn finish(response: ResponseView) -> (StateView, ActionView) {
    (StateView::Done, ActionView::Respond(response))
}

/// The end of a request on an event that answers nothing that was asked.
pub open spec fn unexpected() -> (StateView, ActionView) {
    finish(failure_page(UNEXPECTED_TEXT@))
}

/// The mathematical value of a [`RequestHandler`]: the root directory and the
/// page template.
pub struct HandlerView {
    pub root: Seq<char>,
    pub template: TemplateView,
}

impl HandlerView {
    /// The root is a canonical path, and the template has no placeholder left.
    pub open spec fn is_valid(self) -> bool {
        is_canonical(self.root) && self.template.is_clean()
    }

    /// The start of a request for the index: the root directory is listed.
    pub open spec fn index(self) -> (StateView, ActionView) {
        (StateView::Listing, ActionView::ListDirectory(self.root))
    }

    /// The start of a request for `request`. The path `/` asks for the index;
    /// any other is joined onto the root as it stands, and probed.
    pub open spec fn start(self, request: Seq<char>) -> (StateView, ActionView) {
        if request == seq!['/'] {
            self.index()
        } else {
            let candidate = joined(self.root, request);
            (StateView::Locating { candidate }, ActionView::Probe(candidate))
        }
    }

    /// What follows when the entry at `candidate` was found, as `kind`.
    pub open spec fn found(candidate: Seq<char>, kind: EntryKind) -> (StateView, ActionView) {
        (StateView::Checking { kind }, ActionView::Canonicalize(candidate))
    }

    /// What follows when the entry that was found has the canonical path
    /// `canonical`: within the root, a directory is listed and a file is read;
    /// outside it, the request ends as for an entry that is not there.
    pub open spec fn checked(self, canonical: Seq<char>, kind: EntryKind) -> (
        StateView,
        ActionView,
    ) {
        if within(canonical, self.root) {
            match kind {
                EntryKind::Directory => (StateView::Listing, ActionView::ListDirectory(canonical)),
                EntryKind::File => (StateView::Reading, ActionView::ReadFile(canonical)),
            }
        } else {
            finish(error_page(ServeErrorView::PathEscape))
        }
    }

    /// The state that follows `state` on `event`, and what is needed next.
    pub open spec fn next(self, state: StateView, event: EventView) -> (StateView, ActionView) {
        match state {
            StateView::Locating { candidate } => match event {
                EventView::Found(kind) => Self::found(candidate, kind),
                EventView::Vanished => if lacks_extension(candidate) {
                    let longer = candidate + HTML_SUFFIX@;
                    (StateView::LocatingFallback { candidate: longer }, ActionView::Probe(longer))
                } else {
                    finish(error_page(ServeErrorView::NotFound))
                },
                EventView::Failed(text) => finish(error_page(ServeErrorView::IoFailure(text))),
                _ => unexpected(),
            },
            StateView::LocatingFallback { candidate } => match event {
                EventView::Found(kind) => Self::found(candidate, kind),
                EventView::Vanished => finish(error_page(ServeErrorView::NotFound)),
                EventView::Failed(text) => finish(error_page(ServeErrorView::IoFailure(text))),
                _ => unexpected(),
            },
            StateView::Checking { kind } => match event {
                EventView::Canonical(canonical) => self.checked(canonical, kind),
                EventView::Vanished => finish(error_page(ServeErrorView::NotFound)),
                EventView::Failed(text) => finish(error_page(ServeErrorView::IoFailure(text))),
                _ => unexpected(),
            },
            StateView::Listing => match event {
                EventView::Children(children) => finish(listing_page(children, self.root)),
                EventView::Vanished => finish(error_page(ServeErrorView::NotFound)),
                EventView::Failed(text) => finish(error_page(ServeErrorView::IoFailure(text))),
                _ => unexpected(),
            },
            StateView::Reading => match event {
                EventView::Content(text) => finish(html_page(self.template.rendered(text))),
                EventView::Vanished => finish(error_page(ServeErrorView::NotFound)),
                EventView::Failed(text) => finish(error_page(ServeErrorView::IoFailure(text))),
                _ => unexpected(),
            },
            StateView::Done => unexpected(),
        }
    }

    /// Where a request stands after `events`, when it stood at `from` before
    /// them: each event is taken as the outcome of the action before it.
    pub open spec fn course(self, from: (StateView, ActionView), events: Seq<EventView>) -> (
        StateView,
        ActionView,
    )
        decreases events.len(),
    {
        if events.len() == 0 {
            from
        } else {
            self.next(self.course(from, events.drop_last()).0, events.last())
        }
    }
}

/// How many answers of the file system a request in `state` may still need.
pub open spec fn answers_needed(state: StateView) -> nat {
    match state {
        StateView::Locating { .. } => 4,
        StateView::LocatingFallback { .. } => 3,
        StateView::Checking { .. } => 2,
        StateView::Listing => 1,
        StateView::Reading => 1,
        StateView::Done => 0,
    }
}

/// `action` reads nothing but what lies within `root`.
pub open spec fn is_confined(action: ActionView, root: Seq<char>) -> bool {
    match action {
        ActionView::ListDirectory(path) => within(path, root),
        ActionView::ReadFile(path) => within(path, root),
        _ => true,
    }
}

/// Ends a request with `response`.
fn finished(response: Response) -> (result: (State, Action))
    ensures
        result.0@ == finish(response@).0,
        result.1@ == finish(response@).1,
{
    (State::Done, Action::Respond(response))
}

/// Ends a request with the response that reports `error`.
fn failed(error: ServeError) -> (result: (State, Action))
    ensures
        result.0@ == finish(error_page(error@)).0,
        result.1@ == finish(error_page(error@)).1,
{
    finished(error_response(error))
}

/// Ends a request on an event that answers nothing that was asked.
fn unexpected_event() -> (result: (State, Action))
    ensures
        result.0@ == unexpected().0,
        result.1@ == unexpected().1,
{
    finished(server_error(String::from_str(UNEXPECTED_TEXT)))
}

/// Serves requests for what lies under a root directory, with a page
/// template.
#[derive(Debug)]
pub struct RequestHandler {
    root: RootContext,
    template: Template,
}

impl View for RequestHandler {
    type V = HandlerView;

    closed spec fn view(&self) -> HandlerView {
        HandlerView { root: self.root@, template: self.template@ }
    }
}

impl RequestHandler {
    /// The root is a canonical path, and the template has no placeholder left.
    #[verifier::type_invariant]
    pub open spec fn is_valid(self) -> bool {
        self@.is_valid()
    }

    /// A handler for what lies under `root`, with `template` for its pages.
    pub fn new(root: RootContext, template: Template) -> (handler: RequestHandler)
        ensures
            handler@.root == root@,
            handler@.template == template@,
            handler@.is_valid(),
    {
        proof {
            use_type_invariant(&root);
            use_type_invariant(&template);
        }
        RequestHandler { root, template }
    }

    /// The root directory.
    pub fn root_path(&self) -> (root: &str)
        ensures
            root@ == self@.root,
            is_canonical(root@),
    {
        self.root.root_path()
    }

    /// Starts a request for the index: the listing of the root directory.
    pub fn list_index(&self) -> (result: (State, Action))
        ensures
            result.0@ == self@.index().0,
            result.1@ == self@.index().1,
            is_confined(result.1@, self@.root),
    {
        (State::Listing, Action::ListDirectory(String::from_str(self.root.root_path())))
    }

    /// Starts a request for the path `request`.
    pub fn serve_html(&self, request: &str) -> (result: (State, Action))
        ensures
            result.0@ == self@.start(request@).0,
            result.1@ == self@.start(request@).1,
            is_confined(result.1@, self@.root),
    {
        if request.unicode_len() == 1 && request.get_char(0) == '/' {
            assert(request@ =~= seq!['/']);
            self.list_index()
        } else {
            assert(seq!['/'].len() == 1 && seq!['/'][0] == '/');
            let candidate = join(self.root.root_path(), request);
            let probe = candidate.clone();
            (State::Locating { candidate }, Action::Probe(probe))
        }
    }

    /// What follows when the entry at `candidate` was found, as `kind`.
    fn on_found(candidate: String, kind: EntryKind) -> (result: (State, Action))
        ensures
            result.0@ == HandlerView::found(candidate@, kind).0,
            result.1@ == HandlerView::found(candidate@, kind).1,
    {
        (State::Checking { kind }, Action::Canonicalize(candidate))
    }

    /// What follows when the entry that was found has the canonical path
    /// `canonical`.
    fn on_canonical(&self, canonical: String, kind: EntryKind) -> (result: (State, Action))
        ensures
            result.0@ == self@.checked(canonical@, kind).0,
            result.1@ == self@.checked(canonical@, kind).1,
    {
        match self.root.confine(canonical) {
            Err(escape) => failed(escape),
            Ok(path) => match kind {
                EntryKind::Directory => (State::Listing, Action::ListDirectory(path)),
                EntryKind::File => (State::Reading, Action::ReadFile(path)),
            },
        }
    }

    /// Takes the outcome of the last action, and says what is needed next.
    ///
    /// Whatever the state and the event are, a file is read and a directory
    /// is listed only within the root. An event that answers nothing that was
    /// asked ends the request with a server error.
    pub fn step(&self, state: State, event: Event) -> (result: (State, Action))
        ensures
            result.0@ == self@.next(state@, event@).0,
            result.1@ == self@.next(state@, event@).1,
            is_confined(result.1@, self@.root),
    {
        match state {
            State::Locating { candidate } => match event {
                Event::Found(kind) => Self::on_found(candidate, kind),
                Event::Vanished => {
                    if path_lacks_extension(candidate.as_str()) {
                        let longer = with_html_suffix(candidate.as_str());
                        let probe = longer.clone();
                        (State::LocatingFallback { candidate: longer }, Action::Probe(probe))
                    } else {
                        failed(ServeError::NotFound)
                    }
                },
                Event::Failed(text) => failed(ServeError::IoFailure(text)),
                _ => unexpected_event(),
            },
            State::LocatingFallback { candidate } => match event {
                Event::Found(kind) => Self::on_found(candidate, kind),
                Event::Vanished => failed(ServeError::NotFound),
                Event::Failed(text) => failed(ServeError::IoFailure(text)),
                _ => unexpected_event(),
            },
            State::Checking { kind } => match event {
                Event::Canonical(canonical) => self.on_canonical(canonical, kind),
                Event::Vanished => failed(ServeError::NotFound),
                Event::Failed(text) => failed(ServeError::IoFailure(text)),
                _ => unexpected_event(),
            },
            State::Listing => match event {
                Event::Children(children) => finished(directory_listing(&self.root, &children)),
                Event::Vanished => failed(ServeError::NotFound),
                Event::Failed(text) => failed(ServeError::IoFailure(text)),
                _ => unexpected_event(),
            },
            State::Reading => match event {
                Event::Content(text) => finished(
                    ok_html(self.template.render(text.as_str())),
                ),
                Event::Vanished => failed(ServeError::NotFound),
                Event::Failed(text) => failed(ServeError::IoFailure(text)),
                _ => unexpected_event(),
            },
            State::Done => unexpected_event(),
        }
    }
}

/// One more event takes the course of a request one step on.
pub proof fn lemma_course_goes_on(
    handler: HandlerView,
    from: (StateView, ActionView),
    events: Seq<EventView>,
    event: EventView,
)
    ensures
        handler.course(from, events.push(event)) == handler.next(
            handler.course(from, events).0,
            event,
        ),
{
    assert(events.push(event).drop_last() =~= events);
}

/// The course of a request over one event.
pub proof fn lemma_course_of_one(
    handler: HandlerView,
    from: (StateView, ActionView),
    first: EventView,
)
    ensures
        handler.course(from, seq![first]) == handler.next(from.0, first),
{
    assert(seq![first] =~= Seq::<EventView>::empty().push(first));
    lemma_course_goes_on(handler, from, Seq::empty(), first);
}

/// The course of a request over two events.
pub proof fn lemma_course_of_two(
    handler: HandlerView,
    from: (StateView, ActionView),
    first: EventView,
    second: EventView,
)
    ensures
        handler.course(from, seq![first, second]) == handler.next(
            handler.course(from, seq![first]).0,
            second,
        ),
{
    assert(seq![first, second] =~= seq![first].push(second));
    lemma_course_goes_on(handler, from, seq![first], second);
}

/// The course of a request over three events.
pub proof fn lemma_course_of_three(
    handler: HandlerView,
    from: (StateView, ActionView),
    first: EventView,
    second: EventView,
    third: EventView,
)
    ensures
        handler.course(from, seq![first, second, third]) == handler.next(
            handler.course(from, seq![first, second]).0,
            third,
        ),
{
    assert(seq![first, second, third] =~= seq![first, second].push(third));
    lemma_course_goes_on(handler, from, seq![first, second], third);
}

/// The course of a request over four events.
pub proof fn lemma_course_of_four(
    handler: HandlerView,
    from: (StateView, ActionView),
    first: EventView,
    second: EventView,
    third: EventView,
    fourth: EventView,
)
    ensures
        handler.course(from, seq![first, second, third, fourth]) == handler.next(
            handler.course(from, seq![first, second, third]).0,
            fourth,
        ),
{
    assert(seq![first, second, third, fourth] =~= seq![first, second, third].push(fourth));
    lemma_course_goes_on(handler, from, seq![first, second, third], fourth);
}

/// Whatever is requested, and whatever the file system answers, in whatever
/// order: a file is read and a directory is listed only within the root.
pub proof fn law_reads_stay_within_root(
    handler: HandlerView,
    request: Seq<char>,
    events: Seq<EventView>,
)
    requires
        handler.is_valid(),
    ensures
        is_confined(handler.course(handler.start(request), events).1, handler.root),
{
}

/// An entry whose canonical path lies outside the root is answered as one
/// that is not there, whatever the request was and whether the entry was
/// found as requested or with `.html` appended. Nothing of it is read.
pub proof fn law_escape_is_answered_as_not_found(
    handler: HandlerView,
    request: Seq<char>,
    kind: EntryKind,
    canonical: Seq<char>,
)
    requires
        handler.is_valid(),
        request != seq!['/'],
        !within(canonical, handler.root),
    ensures
        handler.course(
            handler.start(request),
            seq![EventView::Found(kind), EventView::Canonical(canonical)],
        ) == finish(not_found_page()),
        lacks_extension(request) ==> handler.course(
            handler.start(request),
            seq![EventView::Vanished, EventView::Found(kind), EventView::Canonical(canonical)],
        ) == finish(not_found_page()),
{
    let from = handler.start(request);
    law_joining_keeps_final_segment(handler.root, request);
    lemma_course_of_one(handler, from, EventView::Found(kind));
    lemma_course_of_two(handler, from, EventView::Found(kind), EventView::Canonical(canonical));
    lemma_course_of_one(handler, from, EventView::Vanished);
    lemma_course_of_two(handler, from, EventView::Vanished, EventView::Found(kind));
    lemma_course_of_three(
        handler,
        from,
        EventView::Vanished,
        EventView::Found(kind),
        EventView::Canonical(canonical),
    );
}

/// A request without an extension, for which nothing exists as requested but
/// a file exists with `.html` appended, is answered with that file's content
/// in the page template: the path is probed as requested, then with `.html`
/// appended; the canonical path of what was found is asked for, and, as it
/// lies within the root, read.
pub proof fn law_fallback_serves_the_page(
    handler: HandlerView,
    request: Seq<char>,
    canonical: Seq<char>,
    content: Seq<char>,
)
    requires
        handler.is_valid(),
        request != seq!['/'],
        lacks_extension(request),
        within(canonical, handler.root),
    ensures
        handler.start(request).1 == ActionView::Probe(joined(handler.root, request)),
        handler.course(handler.start(request), seq![EventView::Vanished]).1 == ActionView::Probe(
            joined(handler.root, request) + HTML_SUFFIX@,
        ),
        handler.course(
            handler.start(request),
            seq![EventView::Vanished, EventView::Found(EntryKind::File)],
        ).1 == ActionView::Canonicalize(joined(handler.root, request) + HTML_SUFFIX@),
        handler.course(
            handler.start(request),
            seq![
                EventView::Vanished,
                EventView::Found(EntryKind::File),
                EventView::Canonical(canonical),
            ],
        ).1 == ActionView::ReadFile(canonical),
        handler.course(
            handler.start(request),
            seq![
                EventView::Vanished,
                EventView::Found(EntryKind::File),
                EventView::Canonical(canonical),
                EventView::Content(content),
            ],
        ) == finish(html_page(handler.template.rendered(content))),
{
    let from = handler.start(request);
    let found = EventView::Found(EntryKind::File);
    law_joining_keeps_final_segment(handler.root, request);
    lemma_course_of_one(handler, from, EventView::Vanished);
    lemma_course_of_two(handler, from, EventView::Vanished, found);
    lemma_course_of_three(
        handler,
        from,
        EventView::Vanished,
        found,
        EventView::Canonical(canonical),
    );
    lemma_course_of_four(
        handler,
        from,
        EventView::Vanished,
        found,
        EventView::Canonical(canonical),
        EventView::Content(content),
    );
}

/// A request for which nothing exists, neither as requested nor, where it has
/// no extension, with `.html` appended, is answered as not found. Where the
/// request has an extension, nothing is probed with `.html` appended.
pub proof fn law_missing_is_not_found(handler: HandlerView, request: Seq<char>)
    requires
        handler.is_valid(),
        request != seq!['/'],
    ensures
        lacks_extension(request) ==> handler.course(
            handler.start(request),
            seq![EventView::Vanished, EventView::Vanished],
        ) == finish(not_found_page()),
        !lacks_extension(request) ==> handler.course(
            handler.start(request),
            seq![EventView::Vanished],
        ) == finish(not_found_page()),
{
    let from = handler.start(request);
    law_joining_keeps_final_segment(handler.root, request);
    lemma_course_of_one(handler, from, EventView::Vanished);
    lemma_course_of_two(handler, from, EventView::Vanished, EventView::Vanished);
}

/// A request for what exists as a file is answered with the file's content in
/// the page template, once its canonical path is known to lie within the
/// root.
pub proof fn law_file_is_served(
    handler: HandlerView,
    request: Seq<char>,
    canonical: Seq<char>,
    content: Seq<char>,
)
    requires
        handler.is_valid(),
        request != seq!['/'],
        within(canonical, handler.root),
    ensures
        handler.course(
            handler.start(request),
            seq![EventView::Found(EntryKind::File)],
        ).1 == ActionView::Canonicalize(joined(handler.root, request)),
        handler.course(
            handler.start(request),
            seq![EventView::Found(EntryKind::File), EventView::Canonical(canonical)],
        ).1 == ActionView::ReadFile(canonical),
        handler.course(
            handler.start(request),
            seq![
                EventView::Found(EntryKind::File),
                EventView::Canonical(canonical),
                EventView::Content(content),
            ],
        ) == finish(html_page(handler.template.rendered(content))),
{
    let from = handler.start(request);
    let found = EventView::Found(EntryKind::File);
    lemma_course_of_one(handler, from, found);
    lemma_course_of_two(handler, from, found, EventView::Canonical(canonical));
    lemma_course_of_three(
        handler,
        from,
        found,
        EventView::Canonical(canonical),
        EventView::Content(content),
    );
}

/// A request for what exists as a directory is answered with the listing of
/// the directory, once its canonical path is known to lie within the root.
pub proof fn law_directory_is_listed(
    handler: HandlerView,
    request: Seq<char>,
    canonical: Seq<char>,
    children: Seq<ChildView>,
)
    requires
        handler.is_valid(),
        request != seq!['/'],
        within(canonical, handler.root),
    ensures
        handler.course(
            handler.start(request),
            seq![EventView::Found(EntryKind::Directory)],
        ).1 == ActionView::Canonicalize(joined(handler.root, request)),
        handler.course(
            handler.start(request),
            seq![EventView::Found(EntryKind::Directory), EventView::Canonical(canonical)],
        ).1 == ActionView::ListDirectory(canonical),
        handler.course(
            handler.start(request),
            seq![
                EventView::Found(EntryKind::Directory),
                EventView::Canonical(canonical),
                EventView::Children(children),
            ],
        ) == finish(listing_page(children, handler.root)),
{
    let from = handler.start(request);
    let found = EventView::Found(EntryKind::Directory);
    lemma_course_of_one(handler, from, found);
    lemma_course_of_two(handler, from, found, EventView::Canonical(canonical));
    lemma_course_of_three(
        handler,
        from,
        found,
        EventView::Canonical(canonical),
        EventView::Children(children),
    );
}

/// Once an entry was found, nothing is probed any more, whatever follows: a
/// path that exists, be it a directory, never gets `.html` appended.
pub proof fn law_nothing_is_probed_once_found(
    handler: HandlerView,
    candidate: Seq<char>,
    kind: EntryKind,
    events: Seq<EventView>,
)
    ensures
        !(handler.course(HandlerView::found(candidate, kind), events).1 is Probe),
        !(handler.course(HandlerView::found(candidate, kind), events).0 is Locating),
        !(handler.course(HandlerView::found(candidate, kind), events).0 is LocatingFallback),
    decreases events.len(),
{
    if events.len() > 0 {
        law_nothing_is_probed_once_found(handler, candidate, kind, events.drop_last());
    }
}

/// The request for `/` is answered with the listing of the root directory.
pub proof fn law_index_lists_the_root(handler: HandlerView, children: Seq<ChildView>)
    requires
        handler.is_valid(),
    ensures
        handler.start(seq!['/']) == (
            StateView::Listing,
            ActionView::ListDirectory(handler.root),
        ),
        handler.course(handler.start(seq!['/']), seq![EventView::Children(children)]) == finish(
            listing_page(children, handler.root),
        ),
{
    lemma_course_of_one(handler, handler.start(seq!['/']), EventView::Children(children));
}

/// A failure of the file system ends the request, at whatever point it comes:
/// with the answer for what is not there where the entry vanished, and else
/// with a server error that carries the diagnostic text.
pub proof fn law_failure_ends_the_request(handler: HandlerView, state: StateView, text: Seq<char>)
    requires
        !(state is Done),
    ensures
        handler.next(state, EventView::Failed(text)) == finish(failure_page(text)),
        !(state is Locating) ==> handler.next(state, EventView::Vanished) == finish(
            not_found_page(),
        ),
{
}

/// Each answer of the file system brings a request nearer to its response,
/// and a request is done when, and only when, its response is to be sent.
pub proof fn lemma_each_answer_brings_the_end_nearer(
    handler: HandlerView,
    state: StateView,
    event: EventView,
)
    ensures
        handler.next(state, event).0 is Done <==> handler.next(state, event).1 is Respond,
        answers_needed(handler.next(state, event).0) < answers_needed(state) || handler.next(
            state,
            event,
        ).0 is Done,
{
}

/// Every request is answered, whatever the file system gives: after `count`
/// answers, no more than four less `count` are needed; so the fourth answer, at
/// the latest, leads to the response.
pub proof fn law_every_request_is_answered(
    handler: HandlerView,
    request: Seq<char>,
    events: Seq<EventView>,
)
    ensures
        answers_needed(handler.course(handler.start(request), events).0) + events.len() <= 4
            || handler.course(handler.start(request), events).0 is Done,
        events.len() >= 4 ==> handler.course(handler.start(request), events).1 is Respond,
        handler.course(handler.start(request), events).0 is Done <==> handler.course(
            handler.start(request),
            events,
        ).1 is Respond,
    decreases events.len(),
{
    if events.len() > 0 {
        law_every_request_is_answered(handler, request, events.drop_last());
        lemma_each_answer_brings_the_end_nearer(
            handler,
            handler.course(handler.start(request), events.drop_last()).0,
            events.last(),
        );
    }
}

} // verus!
