//! The search filter: the nodes whose display name holds the query,
//! whatever the case of the letters.

use vstd::prelude::*;
use crate::graph::{Graph, Node};
use crate::text::{contains_text, lowercase_of, occurs_in, to_lowercase};

verus! {

/// The name under which a node is shown: its custom name where it has one.
pub open spec fn display_name(node: Node) -> Seq<char> {
    match node.custom_name {
        Some(name) => name@,
        None => node.name@,
    }
}

/// Whether the lower-case query occurs in the lower-case display name.
pub open spec fn name_matches(node: Node, query: Seq<char>) -> bool {
    occurs_in(lowercase_of(query), lowercase_of(display_name(node)))
}

/// The ids of the matching nodes among the first `upto`, in node order.
pub open spec fn matching_ids(nodes: Seq<Node>, query: Seq<char>, upto: int) -> Seq<u32>
    decreases upto,
{
    if upto <= 0 {
        Seq::empty()
    } else if name_matches(nodes[upto - 1], query) {
        matching_ids(nodes, query, upto - 1).push(nodes[upto - 1].id)
    } else {
        matching_ids(nodes, query, upto - 1)
    }
}

/// What the filter holds for a query: nothing for the empty query, else the
/// ids of all matching nodes.
pub open spec fn search_result(nodes: Seq<Node>, query: Seq<char>) -> Seq<u32> {
    if query.len() == 0 {
        Seq::empty()
    } else {
        matching_ids(nodes, query, nodes.len() as int)
    }
}

/// The smallest of the first `upto` ids.
pub open spec fn lowest_id(ids: Seq<u32>, upto: int) -> Option<u32>
    decreases upto,
{
    if upto <= 0 {
        None
    } else {
        match lowest_id(ids, upto - 1) {
            Some(m) => if ids[upto - 1] < m {
                Some(ids[upto - 1])
            } else {
                Some(m)
            },
            None => Some(ids[upto - 1]),
        }
    }
}

/// Finds the smallest id of a list.
pub fn first_match(ids: &Vec<u32>) -> (r: Option<u32>)
    ensures
        r == lowest_id(ids@, ids.len() as int),
{
    let mut best: Option<u32> = None;
    let mut i: usize = 0;
    while i < ids.len()
        invariant
            i <= ids.len(),
            best == lowest_id(ids@, i as int),
        decreases ids.len() - i,
    {
        best = match best {
            Some(m) => if ids[i] < m {
                Some(ids[i])
            } else {
                Some(m)
            },
            None => Some(ids[i]),
        };
        i += 1;
    }
    best
}

impl Graph {
    /// Recomputes the set of nodes that match the search query.
    pub fn update_search_filter(&mut self)
        ensures
            final(self).filtered_nodes@ == search_result(old(self).nodes@, old(self).search_query@),
            final(self).nodes == old(self).nodes,
            final(self).links == old(self).links,
            final(self).pan_offset == old(self).pan_offset,
            final(self).zoom == old(self).zoom,
            final(self).dirty == old(self).dirty,
            final(self).undo_stack == old(self).undo_stack,
            final(self).redo_stack == old(self).redo_stack,
            final(self).show_help == old(self).show_help,
            final(self).search_query == old(self).search_query,
            final(self).search_active == old(self).search_active,
            final(self).current_preset == old(self).current_preset,
            final(self).preset_path == old(self).preset_path,
            final(self).exclusive_mode == old(self).exclusive_mode,
            final(self).renaming_node == old(self).renaming_node,
            final(self).rename_text == old(self).rename_text,
            final(self).pinned_connections == old(self).pinned_connections,
    {
        let mut found: Vec<u32> = Vec::new();
        if !self.search_query.as_str().is_empty() {
            let query = to_lowercase(self.search_query.as_str());
            let mut i: usize = 0;
            while i < self.nodes.len()
                invariant
                    i <= self.nodes.len(),
                    query@ == lowercase_of(self.search_query@),
                    found@ == matching_ids(self.nodes@, self.search_query@, i as int),
                decreases self.nodes.len() - i,
            {
                let node = &self.nodes[i];
                let shown = match &node.custom_name {
                    Some(name) => to_lowercase(name.as_str()),
                    None => to_lowercase(node.name.as_str()),
                };
                if contains_text(shown.as_str(), query.as_str()) {
                    found.push(node.id);
                }
                i += 1;
            }
        }
        self.filtered_nodes = found;
    }
}

} // verus!
