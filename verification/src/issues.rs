//! Finding issues: the nodes of type `issue` whose summary holds every
//! word of a search, newest first.

use crate::application::{first_changes, first_nodes, SimpleApplication};
use crate::intern::position_of;
use crate::node_id::NodeId;
use crate::node_store::{id_of, node_view, Node, NodeStore, NodeStoreView, NodeView};
use vstd::prelude::*;

verus! {

broadcast use vstd::seq_lib::group_filter_ensures;

/// The number of issues that a search shows.
pub const SEARCH_LIMIT: usize = 30;

/// The name of the type of the nodes that are searched.
pub open spec fn issue_type() -> Seq<char> {
    "issue"@
}

/// The name of the attribute that is searched.
pub open spec fn summary_attribute() -> Seq<char> {
    "summary"@
}

/// The lower-case form that `str::to_lowercase` gives to a text.
pub uninterp spec fn lowercase_of(text: Seq<char>) -> Seq<char>;

/// True when `pattern` occurs in `text` as a run of characters.
pub open spec fn occurs_in(pattern: Seq<char>, text: Seq<char>) -> bool {
    exists|i: int|
        0 <= i <= text.len() - pattern.len() && #[trigger] text.subrange(i, i + pattern.len())
            == pattern
}

/// The pieces of `text` between its spaces. There is one piece more than
/// there are spaces, and a piece is empty where two spaces meet or the text
/// begins or ends with one.
pub open spec fn split_at_spaces(text: Seq<char>) -> Seq<Seq<char>>
    decreases text.len(),
{
    if text.len() == 0 {
        seq![Seq::empty()]
    } else {
        let front = split_at_spaces(text.drop_last());
        if text.last() == ' ' {
            front.push(Seq::empty())
        } else {
            front.drop_last().push(front.last().push(text.last()))
        }
    }
}

/// `str::to_lowercase` of the standard library: the text with every
/// character replaced by its lower-case form under the rules of Unicode.
/// The result is a function of the text alone; it is named, not spelled
/// out.
#[verifier::external_body]
fn to_lowercase(text: &str) -> (lower: String)
    ensures
        lower@ == lowercase_of(text@),
{
    text.to_lowercase()
}

/// `str::contains` of the standard library with a text as pattern: true
/// exactly when the pattern is a substring of the text.
#[verifier::external_body]
fn contains_text(text: &str, pattern: &str) -> (found: bool)
    ensures
        found == occurs_in(pattern@, text@),
{
    text.contains(pattern)
}

/// What a list of string slices holds.
pub open spec fn texts_of(words: Seq<&str>) -> Seq<Seq<char>> {
    Seq::new(words.len(), |i: int| words[i]@)
}

/// `str::split` of the standard library with a space as pattern: the
/// substrings between the spaces, in order, empty ones included.
#[verifier::external_body]
fn split_words<'a>(text: &'a str) -> (words: Vec<&'a str>)
    ensures
        texts_of(words@) == split_at_spaces(text@),
{
    text.split(' ').collect()
}

/// True when every one of `terms` occurs in the lower-case form of `text`.
pub open spec fn holds_all(terms: Seq<Seq<char>>, text: Seq<char>) -> bool {
    forall|j: int| 0 <= j < terms.len() ==> occurs_in(#[trigger] terms[j], lowercase_of(text))
}

/// The test for the nodes that a search finds: nodes of type `issue` that
/// have a summary in which every term occurs, case aside.
pub open spec fn is_hit(store: NodeStoreView, terms: Seq<Seq<char>>) -> spec_fn(NodeView) -> bool {
    |n: NodeView|
        match (
            position_of(store.type_names, issue_type()),
            position_of(store.attribute_names, summary_attribute()),
        ) {
            (Some(t), Some(k)) => n.type_id == Some(t as usize) && n.attributes.contains_key(
                k as usize,
            ) && n.attributes[k as usize] is String && holds_all(
                terms,
                n.attributes[k as usize]->String_0,
            ),
            _ => false,
        }
}

/// Every issue that matches the search, the one added last first.
pub open spec fn all_issues_for_search(store: NodeStoreView, search: Seq<char>) -> Seq<NodeId> {
    store.nodes.reverse().filter(is_hit(store, split_at_spaces(lowercase_of(search)))).map_values(
        id_of(),
    )
}

/// What a search returns: nothing for an empty search, else the first
/// matches, newest first. The search stops when it has `limit` matches, but
/// not before it has one.
pub open spec fn spec_issues_for_search(store: NodeStoreView, search: Seq<char>, limit: usize) -> Seq<
    NodeId,
> {
    if search.len() == 0 {
        Seq::empty()
    } else {
        let all = all_issues_for_search(store, search);
        let most = if limit == 0 {
            1
        } else {
            limit as int
        };
        if all.len() <= most {
            all
        } else {
            all.take(most)
        }
    }
}

/// The terms of a search: the pieces between the spaces of its lower-case
/// form.
pub fn search_terms(search_string: &str) -> (terms: Vec<String>)
    ensures
        terms.deep_view() == split_at_spaces(lowercase_of(search_string@)),
{
    let lowered = to_lowercase(search_string);
    let words = split_words(lowered.as_str());
    let mut terms: Vec<String> = Vec::new();
    let mut i: usize = 0;
    while i < words.len()
        invariant
            i <= words@.len(),
            terms@.len() == i,
            forall|k: int| 0 <= k < i ==> (#[trigger] terms@[k])@ == words@[k]@,
        decreases words@.len() - i,
    {
        terms.push(words[i].to_owned());
        i = i + 1;
    }
    proof {
        assert(terms.deep_view() =~= texts_of(words@));
    }
    terms
}

/// True when every one of `terms` occurs in the lower-case form of `text`.
pub fn text_holds_all(text: &str, terms: &Vec<String>) -> (found: bool)
    ensures
        found == holds_all(terms.deep_view(), text@),
{
    let lower = to_lowercase(text);
    let mut j: usize = 0;
    while j < terms.len()
        invariant
            j <= terms@.len(),
            lower@ == lowercase_of(text@),
            forall|k: int| 0 <= k < j ==> occurs_in(#[trigger] terms.deep_view()[k], lower@),
        decreases terms@.len() - j,
    {
        if !contains_text(lower.as_str(), terms[j].as_str()) {
            proof {
                assert(terms.deep_view()[j as int] == terms[j as int]@);
            }
            return false;
        }
        proof {
            assert(terms.deep_view()[j as int] == terms[j as int]@);
        }
        j = j + 1;
    }
    true
}

/// True when `node` is an issue whose summary holds every term.
fn node_is_hit(nodes: &NodeStore, node: &Node, terms: &Vec<String>) -> (hit: bool)
    requires
        nodes.wf(),
        node.wf(),
    ensures
        hit == is_hit(nodes@, terms.deep_view())(node@),
{
    let issue = match nodes.type_names().get_index("issue") {
        Some(t) => t,
        None => {
            return false;
        },
    };
    let summary = match nodes.attribute_names().get_index("summary") {
        Some(k) => k,
        None => {
            return false;
        },
    };
    let typed = match node.type_id {
        Some(t) => t == issue,
        None => false,
    };
    if !typed {
        return false;
    }
    match node.get_string_attribute(summary) {
        Some(text) => text_holds_all(text.as_str(), terms),
        None => false,
    }
}

/// The issues of `nodes` that match `search_string`, newest first, at most
/// `limit` of them but one at the least.
pub fn get_issues_for_search(nodes: &NodeStore, search_string: &str, limit: usize) -> (issues: Vec<
    NodeId,
>)
    requires
        nodes.wf(),
    ensures
        issues@ == spec_issues_for_search(nodes@, search_string@, limit),
{
    if search_string.is_empty() {
        return Vec::new();
    }
    let terms = search_terms(search_string);
    let list = nodes.nodes();
    let ghost newest_first = nodes@.nodes.reverse();
    let ghost hit = is_hit(nodes@, terms.deep_view());
    let ghost all = newest_first.filter(hit).map_values(id_of());
    let mut issues: Vec<NodeId> = Vec::new();
    let mut j: usize = 0;
    proof {
        assert(newest_first.take(0).filter(hit) =~= Seq::<NodeView>::empty());
        assert(newest_first.take(0).filter(hit).map_values(id_of()) =~= Seq::<NodeId>::empty());
    }
    while j < list.len()
        invariant_except_break
            j <= list@.len(),
            issues@.len() < (if limit == 0 {
                1
            } else {
                limit as int
            }),
        invariant
            nodes.wf(),
            list@.map_values(node_view()) == nodes@.nodes,
            forall|i: int| 0 <= i < list@.len() ==> (#[trigger] list@[i]).wf(),
            newest_first == nodes@.nodes.reverse(),
            hit == is_hit(nodes@, terms.deep_view()),
            all == newest_first.filter(hit).map_values(id_of()),
            j <= list@.len(),
            issues@ == newest_first.take(j as int).filter(hit).map_values(id_of()),
        ensures
            issues@ == newest_first.take(j as int).filter(hit).map_values(id_of()),
            j <= list@.len(),
            issues@.len() == (if limit == 0 {
                1
            } else {
                limit as int
            }) || (j == list@.len() && issues@.len() < (if limit == 0 {
                1
            } else {
                limit as int
            })),
        decreases list@.len() - j,
    {
        let node = &list[list.len() - 1 - j];
        proof {
            let seen = newest_first.take(j as int);
            assert(list@.map_values(node_view())[list@.len() - 1 - j] == node@);
            assert(newest_first[j as int] == node@);
            assert(newest_first.take(j + 1) =~= seen.push(node@));
            seen.lemma_filter_push(node@, hit);
            if hit(node@) {
                assert(seen.push(node@).filter(hit).map_values(id_of()) =~= seen.filter(
                    hit,
                ).map_values(id_of()).push(node@.id));
            }
        }
        let found = node_is_hit(nodes, node, &terms);
        j = j + 1;
        if found {
            issues.push(node.id);
            if issues.len() >= limit {
                break ;
            }
        }
    }
    proof {
        let seen = newest_first.take(j as int);
        let unseen = newest_first.skip(j as int);
        assert(newest_first =~= seen + unseen);
        Seq::filter_distributes_over_add(seen, unseen, hit);
        assert(all =~= issues@ + unseen.filter(hit).map_values(id_of()));
        assert(all.take(issues@.len() as int) =~= issues@);
        if j == list@.len() {
            assert(unseen.filter(hit) =~= Seq::<NodeView>::empty());
            assert(all =~= issues@);
        }
    }
    issues
}

/// The state of the issue browser: the editor, the text of the search, and
/// what the search found.
pub struct IssuesApp {
    pub application: SimpleApplication,
    pub search_string: String,
    pub found_issues: Vec<NodeId>,
}

impl IssuesApp {
    /// The validity of the state: that of the editor.
    pub open spec fn wf(&self) -> bool {
        self.application.wf()
    }

    /// The browser over a new document, with an empty search: the editor
    /// as it starts, over the document with its first node, and nothing
    /// found.
    pub fn new() -> (app: IssuesApp)
        ensures
            app.wf(),
            app.search_string@.len() == 0,
            app.found_issues@.len() == 0,
            app.application@.document.pending.changes == first_changes(),
            app.application@.document.nodes == first_nodes(),
            app.application@.document.repository.len() == 0,
            app.application@.document.undone.len() == 0,
            app.application@.document.next_index == NodeId::FIRST_INDEX + 1,
            app.application@.selected_node == NodeId::none(),
            app.application@.selected_node_name.len() == 0,
            app.application@.root == NodeId::root(),
            app.application@.expanded == Set::<u64>::empty(),
            !app.application@.is_editing,
    {
        IssuesApp {
            application: SimpleApplication::new(),
            search_string: String::new(),
            found_issues: Vec::new(),
        }
    }

    /// Searches again with the text of the search as it is now.
    pub fn update_search(&mut self)
        requires
            old(self).wf(),
        ensures
            final(self).wf(),
            final(self).application == old(self).application,
            final(self).search_string == old(self).search_string,
            final(self).found_issues@ == spec_issues_for_search(
                old(self).application@.document.nodes,
                old(self).search_string@,
                SEARCH_LIMIT,
            ),
    {
        self.found_issues =
        get_issues_for_search(
            self.application.document.nodes(),
            self.search_string.as_str(),
            SEARCH_LIMIT,
        );
    }

    /// The issues that match `search_string`, newest first.
    pub fn get_issues_for_search(&self, search_string: &str, limit: usize) -> (issues: Vec<NodeId>)
        requires
            self.wf(),
        ensures
            issues@ == spec_issues_for_search(
                self.application@.document.nodes,
                search_string@,
                limit,
            ),
    {
        get_issues_for_search(self.application.document.nodes(), search_string, limit)
    }
}

} // verus!
