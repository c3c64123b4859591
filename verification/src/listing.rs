//! The listing of a directory: which of its children are shown, under which
//! names, in which order, and as which HTML.

use vstd::prelude::*;
use crate::paths::{
    RootContext,
    has_html_extension,
    joined,
    law_relative_path_rejoins,
    lemma_relative_is_empty_at_root,
    path_has_html_extension,
    relative,
    relative_path,
    strip_html_suffix,
    within,
    without_html_suffix,
};
use crate::response::{Response, html_page, ok_html, ResponseView};
use crate::text::{
    lemma_lex_le_is_reflexive,
    lemma_lex_le_is_total,
    lemma_lex_le_is_transitive,
    lex_le,
    precedes,
    to_chars,
};

verus! {

/// What opens a listing.
pub const LIST_OPEN: &'static str = "<ul>";

/// What closes a listing.
pub const LIST_CLOSE: &'static str = "</ul>";

/// What an item of a listing has before the address that it links to.
pub const ITEM_OPEN: &'static str = "\n               <li><a href=\"";

/// What an item of a listing has between the address and the name shown.
pub const ITEM_MIDDLE: &'static str = "\">";

/// What an item of a listing has after the name shown.
pub const ITEM_CLOSE: &'static str = "</a></li>\n               ";

/// A child of a directory, as the enumeration of the directory gives it: its
/// canonical path, and whether it is a directory.
#[derive(Debug, PartialEq, Eq)]
pub struct Child {
    pub path: String,
    pub is_dir: bool,
}

/// The mathematical value of a [`Child`].
pub struct ChildView {
    pub path: Seq<char>,
    pub is_dir: bool,
}

impl View for Child {
    type V = ChildView;

    open spec fn view(&self) -> ChildView {
        ChildView { path: self.path@, is_dir: self.is_dir }
    }
}

/// An entry of a listing: the name shown, and the address that it links to.
#[derive(Debug, PartialEq, Eq)]
pub struct ListingEntry {
    pub display_name: String,
    pub href: String,
}

/// The mathematical value of a [`ListingEntry`].
pub struct EntryView {
    pub display_name: Seq<char>,
    pub href: Seq<char>,
}

impl View for ListingEntry {
    type V = EntryView;

    open spec fn view(&self) -> EntryView {
        EntryView { display_name: self.display_name@, href: self.href@ }
    }
}

/// The values of the children in a vector.
pub open spec fn child_views(children: Seq<Child>) -> Seq<ChildView> {
    children.map_values(|child: Child| child@)
}

/// The values of the entries in a vector.
pub open spec fn entry_views(entries: Seq<ListingEntry>) -> Seq<EntryView> {
    entries.map_values(|entry: ListingEntry| entry@)
}

/// `child` is shown in a listing: it lies under `root`, and is a directory or
/// a file with the extension `html`.
pub open spec fn is_listed(child: ChildView, root: Seq<char>) -> bool {
    &&& within(child.path, root)
    &&& child.path != root
    &&& child.is_dir || has_html_extension(child.path)
}

/// The entry that shows `child`: it links to the path of the child relative
/// to `root`, under that path without a trailing `.html`.
pub open spec fn entry_of(child: ChildView, root: Seq<char>) -> EntryView {
    EntryView {
        display_name: without_html_suffix(relative(child.path, root)),
        href: relative(child.path, root),
    }
}

/// The entries of the children that are shown, in the order of the children.
pub open spec fn listed(children: Seq<ChildView>, root: Seq<char>) -> Seq<EntryView>
    decreases children.len(),
{
    if children.len() == 0 {
        Seq::empty()
    } else if is_listed(children.last(), root) {
        listed(children.drop_last(), root).push(entry_of(children.last(), root))
    } else {
        listed(children.drop_last(), root)
    }
}

/// `a` may stand before `b` in a listing: its name does not come after that
/// of `b`.
pub open spec fn in_order(a: EntryView, b: EntryView) -> bool {
    lex_le(a.display_name, b.display_name)
}

/// Each entry of `entries` may stand before all that follow it.
pub open spec fn is_ordered(entries: Seq<EntryView>) -> bool {
    forall|i: int, j: int| 0 <= i < j < entries.len() ==> in_order(entries[i], entries[j])
}

/// Where `entry` goes into `sorted`: behind the last entry that may stand
/// before it.
pub open spec fn insertion_point(sorted: Seq<EntryView>, entry: EntryView) -> int
    decreases sorted.len(),
{
    if sorted.len() == 0 {
        0
    } else if in_order(sorted.last(), entry) {
        sorted.len() as int
    } else {
        insertion_point(sorted.drop_last(), entry)
    }
}

/// `entries` sorted by name. Entries of one name keep the order that they
/// had.
pub open spec fn sorted_entries(entries: Seq<EntryView>) -> Seq<EntryView>
    decreases entries.len(),
{
    if entries.len() == 0 {
        Seq::empty()
    } else {
        let sorted = sorted_entries(entries.drop_last());
        sorted.insert(insertion_point(sorted, entries.last()), entries.last())
    }
}

/// The entries of `entries` that are shown under `name`, in the order that
/// they have.
pub open spec fn named(entries: Seq<EntryView>, name: Seq<char>) -> Seq<EntryView>
    decreases entries.len(),
{
    if entries.len() == 0 {
        Seq::empty()
    } else if entries.last().display_name == name {
        named(entries.drop_last(), name).push(entries.last())
    } else {
        named(entries.drop_last(), name)
    }
}

/// The listing of a directory with these children: the entries of those that
/// are shown, sorted by name.
pub open spec fn listing(children: Seq<ChildView>, root: Seq<char>) -> Seq<EntryView> {
    sorted_entries(listed(children, root))
}

/// The HTML of one item of a listing.
pub open spec fn item_text(entry: EntryView) -> Seq<char> {
    ITEM_OPEN@ + entry.href + ITEM_MIDDLE@ + entry.display_name + ITEM_CLOSE@
}

/// The HTML of the items of a listing, one after the other.
pub open spec fn items_text(entries: Seq<EntryView>) -> Seq<char>
    decreases entries.len(),
{
    if entries.len() == 0 {
        Seq::empty()
    } else {
        items_text(entries.drop_last()) + item_text(entries.last())
    }
}

/// The HTML of a listing: one unordered list of all its items.
pub open spec fn listing_text(entries: Seq<EntryView>) -> Seq<char> {
    LIST_OPEN@ + items_text(entries) + LIST_CLOSE@
}

/// The response that lists a directory with these children.
pub open spec fn listing_page(children: Seq<ChildView>, root: Seq<char>) -> ResponseView {
    html_page(listing_text(listing(children, root)))
}

/// The insertion point is the one index behind an entry that may stand before
/// `entry`, or the start, with no such entry from it on.
pub proof fn lemma_insertion_point(sorted: Seq<EntryView>, entry: EntryView, at: int)
    requires
        0 <= at <= sorted.len(),
        at == 0 || in_order(sorted[at - 1], entry),
        forall|j: int| at <= j < sorted.len() ==> !in_order(sorted[j], entry),
    ensures
        insertion_point(sorted, entry) == at,
    decreases sorted.len(),
{
    if sorted.len() > 0 && at < sorted.len() {
        assert(!in_order(sorted[sorted.len() - 1], entry));
        lemma_insertion_point(sorted.drop_last(), entry, at);
    }
}

/// What the insertion point is: see [`lemma_insertion_point`].
pub proof fn lemma_insertion_point_divides(sorted: Seq<EntryView>, entry: EntryView)
    ensures
        0 <= insertion_point(sorted, entry) <= sorted.len(),
        insertion_point(sorted, entry) == 0 || in_order(
            sorted[insertion_point(sorted, entry) - 1],
            entry,
        ),
        forall|j: int|
            insertion_point(sorted, entry) <= j < sorted.len() ==> !in_order(sorted[j], entry),
    decreases sorted.len(),
{
    if sorted.len() > 0 && !in_order(sorted.last(), entry) {
        let shorter = sorted.drop_last();
        lemma_insertion_point_divides(shorter, entry);
        assert forall|j: int| insertion_point(sorted, entry) <= j < sorted.len() implies !in_order(
            sorted[j],
            entry,
        ) by {
            if j < shorter.len() {
                assert(shorter[j] == sorted[j]);
            }
        }
    }
}

/// An entry put in at its insertion point leaves an ordered sequence
/// ordered.
pub proof fn lemma_insertion_keeps_order(sorted: Seq<EntryView>, entry: EntryView)
    requires
        is_ordered(sorted),
    ensures
        is_ordered(sorted.insert(insertion_point(sorted, entry), entry)),
{
    let at = insertion_point(sorted, entry);
    let longer = sorted.insert(at, entry);
    lemma_insertion_point_divides(sorted, entry);
    sorted.insert_ensures(at, entry);
    assert forall|i: int, j: int| 0 <= i < j < longer.len() implies in_order(
        longer[i],
        longer[j],
    ) by {
        if i == at {
            assert(longer[j] == sorted[j - 1]);
            lemma_lex_le_is_total(sorted[j - 1].display_name, entry.display_name);
        } else if j == at {
            assert(longer[i] == sorted[i]);
            if i < at - 1 {
                assert(in_order(sorted[i], sorted[at - 1]));
                lemma_lex_le_is_transitive(
                    sorted[i].display_name,
                    sorted[at - 1].display_name,
                    entry.display_name,
                );
            }
        } else if j < at {
            assert(longer[i] == sorted[i] && longer[j] == sorted[j]);
        } else if i < at {
            assert(longer[i] == sorted[i] && longer[j] == sorted[j - 1]);
        } else {
            assert(longer[i] == sorted[i - 1] && longer[j] == sorted[j - 1]);
        }
    }
}

/// Sorting gives an ordered sequence.
pub proof fn law_sorted_entries_are_ordered(entries: Seq<EntryView>)
    ensures
        is_ordered(sorted_entries(entries)),
    decreases entries.len(),
{
    if entries.len() > 0 {
        law_sorted_entries_are_ordered(entries.drop_last());
        lemma_insertion_keeps_order(sorted_entries(entries.drop_last()), entries.last());
    }
}

/// Sorting neither adds an entry nor drops one: it gives the same entries,
/// each as often as it was there.
pub proof fn law_sorting_keeps_entries(entries: Seq<EntryView>)
    ensures
        sorted_entries(entries).to_multiset() == entries.to_multiset(),
        sorted_entries(entries).len() == entries.len(),
    decreases entries.len(),
{
    if entries.len() == 0 {
        assert(sorted_entries(entries) =~= entries);
    } else {
        let shorter = entries.drop_last();
        let sorted = sorted_entries(shorter);
        law_sorting_keeps_entries(shorter);
        lemma_insertion_point_divides(sorted, entries.last());
        vstd::seq_lib::to_multiset_insert(
            sorted,
            insertion_point(sorted, entries.last()),
            entries.last(),
        );
        vstd::seq_lib::to_multiset_build(shorter, entries.last());
        assert(shorter.push(entries.last()) =~= entries);
        sorted.insert_ensures(insertion_point(sorted, entries.last()), entries.last());
    }
}

/// The entries under a name in two sequences, one behind the other, are those
/// in the first and then those in the second.
pub proof fn lemma_named_of_both(front: Seq<EntryView>, back: Seq<EntryView>, name: Seq<char>)
    ensures
        named(front + back, name) == named(front, name) + named(back, name),
    decreases back.len(),
{
    if back.len() == 0 {
        assert(front + back =~= front);
        assert(named(front, name) + named(back, name) =~= named(front, name));
    } else {
        lemma_named_of_both(front, back.drop_last(), name);
        assert((front + back).drop_last() =~= front + back.drop_last());
        assert((front + back).last() == back.last());
        if back.last().display_name == name {
            let first = named(front, name);
            let second = named(back.drop_last(), name);
            assert(first + second.push(back.last()) =~= (first + second).push(back.last()));
        }
    }
}

/// Where no entry has the name, none is under it.
pub proof fn lemma_named_of_others(entries: Seq<EntryView>, name: Seq<char>)
    requires
        forall|j: int| 0 <= j < entries.len() ==> entries[j].display_name != name,
    ensures
        named(entries, name) == Seq::<EntryView>::empty(),
    decreases entries.len(),
{
    if entries.len() > 0 {
        let shorter = entries.drop_last();
        assert forall|j: int| 0 <= j < shorter.len() implies shorter[j].display_name != name by {
            assert(shorter[j] == entries[j]);
        }
        lemma_named_of_others(shorter, name);
    }
}

/// An entry put in at its insertion point comes behind the entries of its own
/// name, and leaves those of every other name as they are.
pub proof fn lemma_insertion_is_stable(sorted: Seq<EntryView>, entry: EntryView, name: Seq<char>)
    ensures
        named(sorted.insert(insertion_point(sorted, entry), entry), name) == if entry.display_name
            == name {
            named(sorted, name).push(entry)
        } else {
            named(sorted, name)
        },
{
    let at = insertion_point(sorted, entry);
    lemma_insertion_point_divides(sorted, entry);
    let front = sorted.subrange(0, at);
    let back = sorted.subrange(at, sorted.len() as int);
    assert(sorted =~= front + back);
    assert(sorted.insert(at, entry) =~= front.push(entry) + back);
    lemma_named_of_both(front, back, name);
    lemma_named_of_both(front.push(entry), back, name);
    assert(front.push(entry).drop_last() =~= front);
    if entry.display_name == name {
        assert forall|j: int| 0 <= j < back.len() implies back[j].display_name != name by {
            assert(back[j] == sorted[at + j]);
            lemma_lex_le_is_reflexive(name);
        }
        lemma_named_of_others(back, name);
        assert(named(front, name).push(entry) + Seq::<EntryView>::empty() =~= named(
            front,
            name,
        ).push(entry));
        assert(named(front, name) + Seq::<EntryView>::empty() =~= named(front, name));
    }
}

/// Sorting is stable: the entries under one name keep the order that they
/// had.
pub proof fn law_sorting_is_stable(entries: Seq<EntryView>, name: Seq<char>)
    ensures
        named(sorted_entries(entries), name) == named(entries, name),
    decreases entries.len(),
{
    if entries.len() > 0 {
        law_sorting_is_stable(entries.drop_last(), name);
        lemma_insertion_is_stable(sorted_entries(entries.drop_last()), entries.last(), name);
    }
}

/// The entries before sorting are those of the children that are shown, and
/// no others.
pub proof fn lemma_listed_shows_what_is_listed(
    children: Seq<ChildView>,
    root: Seq<char>,
    entry: EntryView,
)
    ensures
        listed(children, root).contains(entry) <==> exists|i: int|
            0 <= i < children.len() && is_listed(#[trigger] children[i], root) && entry_of(
                children[i],
                root,
            ) == entry,
    decreases children.len(),
{
    if children.len() > 0 {
        let shorter = children.drop_last();
        let last = children.last();
        lemma_listed_shows_what_is_listed(shorter, root, entry);
        let earlier = listed(shorter, root);
        if listed(children, root).contains(entry) {
            let k = choose|k: int|
                0 <= k < listed(children, root).len() && listed(children, root)[k] == entry;
            if is_listed(last, root) && k == earlier.len() {
                assert(is_listed(children[children.len() - 1], root));
            } else {
                assert(earlier[k] == entry);
                assert(earlier.contains(entry));
                let i = choose|i: int|
                    0 <= i < shorter.len() && is_listed(#[trigger] shorter[i], root) && entry_of(
                        shorter[i],
                        root,
                    ) == entry;
                assert(children[i] == shorter[i]);
            }
        }
        if exists|i: int|
            0 <= i < children.len() && is_listed(#[trigger] children[i], root) && entry_of(
                children[i],
                root,
            ) == entry {
            let i = choose|i: int|
                0 <= i < children.len() && is_listed(#[trigger] children[i], root) && entry_of(
                    children[i],
                    root,
                ) == entry;
            if i == children.len() - 1 {
                assert(listed(children, root)[earlier.len() as int] == entry);
            } else {
                assert(shorter[i] == children[i]);
                assert(earlier.contains(entry));
                let k = choose|k: int| 0 <= k < earlier.len() && earlier[k] == entry;
                assert(listed(children, root)[k] == entry);
            }
        }
    }
}

/// A listing shows the sub-directories and the page files under the root, and
/// nothing else: each of its entries is the entry of a child that is shown,
/// and each child that is shown has its entry in it.
pub proof fn law_listing_shows_what_is_listed(
    children: Seq<ChildView>,
    root: Seq<char>,
    entry: EntryView,
)
    ensures
        listing(children, root).contains(entry) <==> exists|i: int|
            0 <= i < children.len() && is_listed(#[trigger] children[i], root) && entry_of(
                children[i],
                root,
            ) == entry,
{
    let shown = listed(children, root);
    lemma_listed_shows_what_is_listed(children, root, entry);
    law_sorting_keeps_entries(shown);
    vstd::seq_lib::to_multiset_contains(shown, entry);
    vstd::seq_lib::to_multiset_contains(sorted_entries(shown), entry);
}

/// Each link of a listing leads to a path within the root: joined onto the
/// root, it is the canonical path of a child that lies under the root.
pub proof fn law_listing_links_stay_within_root(
    children: Seq<ChildView>,
    root: Seq<char>,
    entry: EntryView,
)
    requires
        listing(children, root).contains(entry),
    ensures
        within(joined(root, entry.href), root),
        joined(root, entry.href) != root,
{
    law_listing_shows_what_is_listed(children, root, entry);
    let i = choose|i: int|
        0 <= i < children.len() && is_listed(#[trigger] children[i], root) && entry_of(
            children[i],
            root,
        ) == entry;
    law_relative_path_rejoins(children[i].path, root);
}

/// A child that is not shown adds nothing to a listing.
pub proof fn law_listing_skips_what_is_not_listed(
    children: Seq<ChildView>,
    root: Seq<char>,
    child: ChildView,
)
    requires
        !is_listed(child, root),
    ensures
        listing(children.push(child), root) == listing(children, root),
{
    assert(children.push(child).drop_last() =~= children);
}

/// A listing is ordered by the names that it shows.
pub proof fn law_listing_is_ordered(children: Seq<ChildView>, root: Seq<char>)
    ensures
        is_ordered(listing(children, root)),
{
    law_sorted_entries_are_ordered(listed(children, root));
}

/// The entry that shows `child`, if it is shown.
fn entry_for(root: &RootContext, child: &Child) -> (shown: Option<ListingEntry>)
    ensures
        match shown {
            Some(entry) => is_listed(child@, root@) && entry@ == entry_of(child@, root@),
            None => !is_listed(child@, root@),
        },
{
    if !child.is_dir && !path_has_html_extension(child.path.as_str()) {
        return None;
    }
    match relative_path(child.path.as_str(), root.root_path()) {
        Err(_) => None,
        Ok(href) => {
            proof {
                lemma_relative_is_empty_at_root(child.path@, root@);
            }
            if href.as_str().is_empty() {
                None
            } else {
                let display_name = strip_html_suffix(href.as_str());
                Some(ListingEntry { display_name, href })
            }
        },
    }
}

/// Where an entry named `name` goes among the entries named `names`.
fn insertion_index(names: &Vec<Vec<char>>, name: &Vec<char>) -> (at: usize)
    ensures
        at <= names.len(),
        at == 0 || lex_le(names@[at - 1]@, name@),
        forall|j: int| at <= j < names.len() ==> !lex_le(names@[j]@, name@),
{
    let mut at: usize = names.len();
    while at > 0 && !precedes(&names[at - 1], name)
        invariant
            at <= names.len(),
            forall|j: int| at <= j < names.len() ==> !lex_le(names@[j]@, name@),
        decreases at,
    {
        at -= 1;
    }
    at
}

/// The entries of the listing of a directory with these children.
pub fn list_entries(root: &RootContext, children: &Vec<Child>) -> (entries: Vec<ListingEntry>)
    ensures
        entry_views(entries@) == listing(child_views(children@), root@),
{
    let mut entries: Vec<ListingEntry> = Vec::new();
    let mut names: Vec<Vec<char>> = Vec::new();
    let ghost all = child_views(children@);
    let mut i: usize = 0;
    assert(entry_views(entries@) =~= Seq::<EntryView>::empty());
    while i < children.len()
        invariant
            i <= children.len(),
            all == child_views(children@),
            entry_views(entries@) == listing(all.take(i as int), root@),
            names@.len() == entries@.len(),
            forall|j: int| 0 <= j < names@.len() ==> names@[j]@ == entries@[j].display_name@,
        decreases children.len() - i,
    {
        let ghost before = entry_views(entries@);
        proof {
            assert(all.take(i + 1).drop_last() =~= all.take(i as int));
            assert(all.take(i + 1).last() == children@[i as int]@);
        }
        match entry_for(root, &children[i]) {
            None => {},
            Some(entry) => {
                let name = to_chars(entry.display_name.as_str());
                let at: usize = insertion_index(&names, &name);
                let ghost shown = entry@;
                proof {
                    assert forall|j: int| at <= j < before.len() implies !in_order(
                        before[j],
                        shown,
                    ) by {
                        assert(names@[j]@ == entries@[j].display_name@);
                    }
                    lemma_insertion_point(before, shown, at as int);
                    let earlier = listed(all.take(i as int), root@);
                    assert(earlier.push(shown).drop_last() =~= earlier);
                }
                entries.insert(at, entry);
                names.insert(at, name);
                assert(entry_views(entries@) =~= before.insert(at as int, shown));
            },
        }
        i += 1;
    }
    assert(all.take(children@.len() as int) =~= all);
    entries
}

/// The HTML of a listing with these entries.
pub fn render_listing(entries: &Vec<ListingEntry>) -> (html: String)
    ensures
        html@ == listing_text(entry_views(entries@)),
{
    let ghost all = entry_views(entries@);
    let mut html = String::from_str(LIST_OPEN);
    let mut i: usize = 0;
    assert(html@ =~= LIST_OPEN@ + items_text(all.take(0)));
    while i < entries.len()
        invariant
            i <= entries.len(),
            all == entry_views(entries@),
            html@ == LIST_OPEN@ + items_text(all.take(i as int)),
        decreases entries.len() - i,
    {
        proof {
            assert(all.take(i + 1).drop_last() =~= all.take(i as int));
            assert(all.take(i + 1).last() == entries@[i as int]@);
        }
        let ghost so_far = html@;
        html.append(ITEM_OPEN);
        html.append(entries[i].href.as_str());
        html.append(ITEM_MIDDLE);
        html.append(entries[i].display_name.as_str());
        html.append(ITEM_CLOSE);
        assert(html@ =~= so_far + item_text(entries@[i as int]@));
        assert(html@ =~= LIST_OPEN@ + items_text(all.take(i + 1)));
        i += 1;
    }
    assert(all.take(entries@.len() as int) =~= all);
    html.append(LIST_CLOSE);
    html
}

/// Lists a directory with these children: a page of HTML with one unordered
/// list, which links to each sub-directory and each page file under its path
/// relative to the root, sorted by the names shown.
pub fn directory_listing(root: &RootContext, children: &Vec<Child>) -> (response: Response)
    ensures
        response@ == listing_page(child_views(children@), root@),
{
    let entries = list_entries(root, children);
    ok_html(render_listing(&entries))
}

} // verus!
