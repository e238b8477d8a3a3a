//! The scene outliner's tree: what a subtree holds, and filtering it by a
//! search while keeping the ancestors of every match.
use vstd::prelude::*;
use crate::text::{
    chars_of, decode_utf8_lossy, find_pattern, occurs_at, replace_char, replace_char_vec, string_of,
    str_equal, utf8_lossy,
};

verus! {

#[derive(Debug, Clone, Copy, PartialEq, Eq)]
pub enum OutlinerNodeKind {
    Stage,
    StageMember,
    Resource,
    Group,
    Object,
    Editor,
}

/// A stage member that is not a scene object.
#[derive(Debug, Clone, Copy, PartialEq, Eq)]
pub enum WorldHierarchyMember {
    StageMusic,
    DeathBarrier,
}

/// One row of the outliner and the rows nested under it.
#[derive(Debug)]
pub struct OutlinerNode {
    pub key: String,
    pub label: String,
    pub detail: String,
    /// What a search matches against, in lower case.
    pub search_text: String,
    pub kind: OutlinerNodeKind,
    pub object_id: Option<String>,
    pub world_member: Option<WorldHierarchyMember>,
    pub children: Vec<OutlinerNode>,
}

/// An outliner row as a value.
pub struct NodeView {
    pub key: Seq<char>,
    pub label: Seq<char>,
    pub detail: Seq<char>,
    pub search_text: Seq<char>,
    pub kind: OutlinerNodeKind,
    pub object_id: Option<Seq<char>>,
    pub world_member: Option<WorldHierarchyMember>,
    pub children: Seq<NodeView>,
}

pub open spec fn opt_view(s: Option<String>) -> Option<Seq<char>> {
    match s {
        Some(v) => Some(v@),
        None => None,
    }
}

pub open spec fn node_view(n: OutlinerNode) -> NodeView
    decreases n, 1int,
{
    NodeView {
        key: n.key@,
        label: n.label@,
        detail: n.detail@,
        search_text: n.search_text@,
        kind: n.kind,
        object_id: opt_view(n.object_id),
        world_member: n.world_member,
        children: node_views_from(n.children@, 0),
    }
}

pub open spec fn node_views_from(cs: Seq<OutlinerNode>, i: int) -> Seq<NodeView>
    decreases cs, cs.len() - i,
{
    if 0 <= i < cs.len() {
        seq![node_view(cs[i])] + node_views_from(cs, i + 1)
    } else {
        Seq::empty()
    }
}

pub open spec fn nodes_view(cs: Seq<OutlinerNode>) -> Seq<NodeView> {
    node_views_from(cs, 0)
}

proof fn lemma_node_views_from(cs: Seq<OutlinerNode>, i: int)
    requires
        0 <= i <= cs.len(),
    ensures
        node_views_from(cs, i).len() == cs.len() - i,
        forall|k: int| 0 <= k < cs.len() - i ==> #[trigger] node_views_from(cs, i)[k] == node_view(cs[i + k]),
    decreases cs.len() - i,
{
    if i < cs.len() {
        lemma_node_views_from(cs, i + 1);
        assert forall|k: int| 0 <= k < cs.len() - i implies #[trigger] node_views_from(cs, i)[k]
            == node_view(cs[i + k]) by {
            if k > 0 {
                assert(node_views_from(cs, i)[k] == node_views_from(cs, i + 1)[k - 1]);
            }
        }
    }
}

proof fn lemma_nodes_view(cs: Seq<OutlinerNode>)
    ensures
        nodes_view(cs).len() == cs.len(),
        forall|k: int| 0 <= k < cs.len() ==> #[trigger] nodes_view(cs)[k] == node_view(cs[k]),
{
    lemma_node_views_from(cs, 0);
}

/// How many rows of the subtree stand for scene objects.
pub open spec fn object_count_of(v: NodeView) -> nat
    decreases v, 1int,
{
    (if v.object_id is Some {
        1nat
    } else {
        0nat
    }) + children_object_count(v.children, 0)
}

pub open spec fn children_object_count(cs: Seq<NodeView>, i: int) -> nat
    decreases cs, cs.len() - i,
{
    if 0 <= i < cs.len() {
        object_count_of(cs[i]) + children_object_count(cs, i + 1)
    } else {
        0
    }
}

/// Whether the subtree holds a row for the object `id`.
pub open spec fn holds_object(v: NodeView, id: Seq<char>) -> bool
    decreases v, 1int,
{
    v.object_id == Some(id) || children_hold_object(v.children, 0, id)
}

pub open spec fn children_hold_object(cs: Seq<NodeView>, i: int, id: Seq<char>) -> bool
    decreases cs, cs.len() - i,
{
    if 0 <= i < cs.len() {
        holds_object(cs[i], id) || children_hold_object(cs, i + 1, id)
    } else {
        false
    }
}

/// Whether `needle` occurs in `s` (`str::contains`).
pub open spec fn contains_text(s: Seq<char>, needle: Seq<char>) -> bool {
    exists|i: int| occurs_at(s, needle, i)
}

/// The subtree a search keeps: a matching row with everything under it, a
/// row with the kept rows among its children, or nothing.
pub open spec fn filtered_view(v: NodeView, needle: Seq<char>) -> Option<NodeView>
    decreases v, 1int,
{
    if needle.len() == 0 || contains_text(v.search_text, needle) {
        Some(v)
    } else {
        let kept = filtered_children(v.children, 0, needle);
        if kept.len() == 0 {
            None
        } else {
            Some(NodeView { children: kept, ..v })
        }
    }
}

/// The kept subtrees of the children from position `i` on, in order.
pub open spec fn filtered_children(cs: Seq<NodeView>, i: int, needle: Seq<char>) -> Seq<NodeView>
    decreases cs, cs.len() - i,
{
    if 0 <= i < cs.len() {
        match filtered_view(cs[i], needle) {
            Some(k) => seq![k] + filtered_children(cs, i + 1, needle),
            None => filtered_children(cs, i + 1, needle),
        }
    } else {
        Seq::empty()
    }
}

fn duplicate_string(s: &String) -> (r: String)
    ensures
        r@ == s@,
{
    s.clone()
}

impl OutlinerNode {
    /// How many rows of the subtree stand for scene objects.
    pub fn object_count(&self) -> (n: usize)
        requires
            object_count_of(node_view(*self)) <= usize::MAX,
        ensures
            n == object_count_of(node_view(*self)),
        decreases self, 1int,
    {
        proof {
            lemma_nodes_view(self.children@);
        }
        let own: usize = if self.object_id.is_some() {
            1
        } else {
            0
        };
        own + Self::children_object_count(&self.children, 0)
    }

    fn children_object_count(children: &Vec<OutlinerNode>, i: usize) -> (n: usize)
        requires
            i <= children.len(),
            children_object_count(nodes_view(children@), i as int) <= usize::MAX,
        ensures
            n == children_object_count(nodes_view(children@), i as int),
        decreases children@, children.len() - i,
    {
        proof {
            lemma_nodes_view(children@);
        }
        if i == children.len() {
            return 0;
        }
        let first = children[i].object_count();
        first + Self::children_object_count(children, i + 1)
    }

    /// Whether the subtree holds a row for the object `object_id`.
    pub fn contains_object(&self, object_id: &str) -> (b: bool)
        ensures
            b == holds_object(node_view(*self), object_id@),
        decreases self, 1int,
    {
        proof {
            lemma_nodes_view(self.children@);
        }
        let own = match &self.object_id {
            Some(id) => str_equal(id.as_str(), object_id),
            None => false,
        };
        own || Self::children_contain_object(&self.children, 0, object_id)
    }

    fn children_contain_object(children: &Vec<OutlinerNode>, i: usize, object_id: &str) -> (b: bool)
        requires
            i <= children.len(),
        ensures
            b == children_hold_object(nodes_view(children@), i as int, object_id@),
        decreases children@, children.len() - i,
    {
        proof {
            lemma_nodes_view(children@);
        }
        if i == children.len() {
            return false;
        }
        children[i].contains_object(object_id) || Self::children_contain_object(children, i + 1, object_id)
    }

    /// A copy of the subtree.
    pub fn duplicate(&self) -> (r: Self)
        ensures
            node_view(r) == node_view(*self),
        decreases self, 1int,
    {
        proof {
            lemma_nodes_view(self.children@);
        }
        let object_id = match &self.object_id {
            Some(id) => Some(duplicate_string(id)),
            None => None,
        };
        let children = Self::duplicate_children(&self.children, 0);
        let r = OutlinerNode {
            key: duplicate_string(&self.key),
            label: duplicate_string(&self.label),
            detail: duplicate_string(&self.detail),
            search_text: duplicate_string(&self.search_text),
            kind: self.kind,
            object_id,
            world_member: self.world_member,
            children,
        };
        proof {
            lemma_nodes_view(children@);
            assert(nodes_view(children@) =~= nodes_view(self.children@));
        }
        r
    }

    fn duplicate_children(children: &Vec<OutlinerNode>, i: usize) -> (r: Vec<OutlinerNode>)
        requires
            i <= children.len(),
        ensures
            nodes_view(r@) == nodes_view(children@).skip(i as int),
        decreases children@, children.len() - i,
    {
        proof {
            lemma_nodes_view(children@);
        }
        if i == children.len() {
            let r: Vec<OutlinerNode> = Vec::new();
            proof {
                lemma_nodes_view(r@);
                assert(nodes_view(r@) =~= nodes_view(children@).skip(i as int));
            }
            return r;
        }
        let first = children[i].duplicate();
        let rest = Self::duplicate_children(children, i + 1);
        let mut r: Vec<OutlinerNode> = Vec::new();
        r.push(first);
        let mut rest = rest;
        let ghost rest_seq = rest@;
        r.append(&mut rest);
        proof {
            lemma_nodes_view(r@);
            lemma_nodes_view(rest_seq);
            let whole = nodes_view(children@).skip(i as int);
            assert(whole.skip(1) =~= nodes_view(children@).skip(i + 1));
            assert forall|k: int| 0 <= k < r@.len() implies #[trigger] nodes_view(r@)[k] == whole[k] by {
                if k > 0 {
                    assert(r@[k] == rest_seq[k - 1]);
                    assert(nodes_view(rest_seq)[k - 1] == whole.skip(1)[k - 1]);
                }
            }
            assert(nodes_view(r@) =~= whole);
        }
        r
    }

    /// The subtree a search for `needle` keeps: a matching row with all it
    /// holds, or a row with only its children that keep something.
    pub fn filtered(self, needle: &str) -> (r: Option<Self>)
        ensures
            match filtered_view(node_view(self), needle@) {
                Some(v) => r matches Some(n) && node_view(n) == v,
                None => r is None,
            },
    {
        self.filtered_copy(needle)
    }

    fn filtered_copy(&self, needle: &str) -> (r: Option<Self>)
        ensures
            match filtered_view(node_view(*self), needle@) {
                Some(v) => r matches Some(n) && node_view(n) == v,
                None => r is None,
            },
        decreases self, 1int,
    {
        proof {
            lemma_nodes_view(self.children@);
        }
        let needle_chars = chars_of(needle);
        let matched = needle_chars.len() == 0 || find_pattern(&chars_of(self.search_text.as_str()), &needle_chars).is_some();
        if matched {
            return Some(self.duplicate());
        }
        let kept = Self::filtered_children(&self.children, 0, needle);
        if kept.len() == 0 {
            return None;
        }
        let object_id = match &self.object_id {
            Some(id) => Some(duplicate_string(id)),
            None => None,
        };
        Some(
            OutlinerNode {
                key: duplicate_string(&self.key),
                label: duplicate_string(&self.label),
                detail: duplicate_string(&self.detail),
                search_text: duplicate_string(&self.search_text),
                kind: self.kind,
                object_id,
                world_member: self.world_member,
                children: kept,
            },
        )
    }

    fn filtered_children(children: &Vec<OutlinerNode>, i: usize, needle: &str) -> (r: Vec<OutlinerNode>)
        requires
            i <= children.len(),
        ensures
            nodes_view(r@) == filtered_children(nodes_view(children@), i as int, needle@),
        decreases children@, children.len() - i,
    {
        proof {
            lemma_nodes_view(children@);
        }
        if i == children.len() {
            let r: Vec<OutlinerNode> = Vec::new();
            proof {
                lemma_nodes_view(r@);
                assert(nodes_view(r@) =~= Seq::<NodeView>::empty());
            }
            return r;
        }
        let first = children[i].filtered_copy(needle);
        let mut rest = Self::filtered_children(children, i + 1, needle);
        match first {
            Some(node) => {
                let mut r: Vec<OutlinerNode> = Vec::new();
                r.push(node);
                let ghost rest_seq = rest@;
                let ghost rest_view = nodes_view(rest@);
                r.append(&mut rest);
                proof {
                    lemma_nodes_view(r@);
                    lemma_nodes_view(rest_seq);
                    assert(nodes_view(r@) =~= seq![node_view(node)] + rest_view);
                }
                r
            },
            None => rest,
        }
    }
}

/// Whether some row of the subtree matches the search.
pub open spec fn matches_somewhere(v: NodeView, needle: Seq<char>) -> bool
    decreases v, 1int,
{
    needle.len() == 0 || contains_text(v.search_text, needle) || children_match(v.children, 0, needle)
}

pub open spec fn children_match(cs: Seq<NodeView>, i: int, needle: Seq<char>) -> bool
    decreases cs, cs.len() - i,
{
    if 0 <= i < cs.len() {
        matches_somewhere(cs[i], needle) || children_match(cs, i + 1, needle)
    } else {
        false
    }
}

/// A search keeps a row exactly when the row or a row below it matches, so
/// every match stays visible with all of its ancestors.
pub proof fn filtering_keeps_matches_and_ancestors(v: NodeView, needle: Seq<char>)
    ensures
        (filtered_view(v, needle) is Some) == matches_somewhere(v, needle),
    decreases v, 1int,
{
    if !(needle.len() == 0 || contains_text(v.search_text, needle)) {
        lemma_filtered_children_match(v.children, 0, needle);
    }
}

proof fn lemma_filtered_children_match(cs: Seq<NodeView>, i: int, needle: Seq<char>)
    ensures
        (filtered_children(cs, i, needle).len() > 0) == children_match(cs, i, needle),
    decreases cs, cs.len() - i,
{
    if 0 <= i < cs.len() {
        filtering_keeps_matches_and_ancestors(cs[i], needle);
        lemma_filtered_children_match(cs, i + 1, needle);
    }
}

/// A search with an empty needle keeps the whole tree; any search keeps the
/// row's own key and never more object rows than the subtree had.
pub proof fn filtering_keeps_the_row_and_no_more_objects(v: NodeView, needle: Seq<char>)
    ensures
        filtered_view(v, Seq::<char>::empty()) == Some(v),
        filtered_view(v, needle) matches Some(r) ==> r.key == v.key && object_count_of(r)
            <= object_count_of(v),
    decreases v, 1int,
{
    if !(needle.len() == 0 || contains_text(v.search_text, needle)) {
        lemma_filtered_children_count(v.children, 0, needle);
    }
}

proof fn lemma_children_count_shift(x: NodeView, s: Seq<NodeView>, j: int)
    requires
        0 <= j,
    ensures
        children_object_count(seq![x] + s, j + 1) == children_object_count(s, j),
    decreases s.len() - j,
{
    if j < s.len() {
        assert((seq![x] + s)[j + 1] == s[j]);
        lemma_children_count_shift(x, s, j + 1);
    }
}

proof fn lemma_filtered_children_count(cs: Seq<NodeView>, i: int, needle: Seq<char>)
    ensures
        children_object_count(filtered_children(cs, i, needle), 0) <= children_object_count(cs, i),
    decreases cs, cs.len() - i,
{
    if 0 <= i < cs.len() {
        filtering_keeps_the_row_and_no_more_objects(cs[i], needle);
        lemma_filtered_children_count(cs, i + 1, needle);
        let rest = filtered_children(cs, i + 1, needle);
        if let Some(k) = filtered_view(cs[i], needle) {
            lemma_children_count_shift(k, rest, 0);
            assert((seq![k] + rest)[0] == k);
        }
    }
}

/// Inputs for one outliner render pass.
pub struct OutlinerRender<'a> {
    pub selected_id: Option<&'a str>,
    pub selected_world_member: Option<WorldHierarchyMember>,
    pub force_open: bool,
    /// The object whose ancestors open so a pick made in the viewport
    /// surfaces in the outliner.
    pub reveal_id: Option<&'a str>,
}

impl<'a> OutlinerRender<'a> {
    /// A row opens for the reveal when it holds the revealed object below
    /// itself.
    pub fn opens_for_reveal(&self, node: &OutlinerNode) -> (b: bool)
        ensures
            b == (self.reveal_id matches Some(id) && opt_view(node.object_id) != Some(id@)
                && holds_object(node_view(*node), id@)),
    {
        match self.reveal_id {
            Some(id) => {
                let own = match &node.object_id {
                    Some(o) => str_equal(o.as_str(), id),
                    None => false,
                };
                !own && node.contains_object(id)
            },
            None => false,
        }
    }
}

/// A raw archive path as the outliner shows it: lossy UTF-8 with forward
/// slashes.
pub fn normalized_raw_path(path: &[u8]) -> (r: String)
    ensures
        r@ == replace_char(utf8_lossy(path@), '\\', '/'),
{
    let decoded = decode_utf8_lossy(path);
    string_of(&replace_char_vec(&chars_of(decoded.as_str()), '\\', '/'))
}

} // verus!
