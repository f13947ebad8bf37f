use vstd::prelude::*;

use crate::leaf_node_view::LeafNodeView;
use crate::page_id::PageId;
use crate::slotted_page_view::SlottedPageView;

verus! {

/// A node of the B+tree over a slotted page.
pub enum BTreeNode<'a> {
    Internal(SlottedPageView<'a>),
    Leaf(LeafNodeView<'a>),
}

impl<'a> BTreeNode<'a> {
    /// The node over a page: every page is read as a leaf node for now.
    pub fn new(page_id: PageId, slotted_page_view: SlottedPageView<'a>) -> (r: Self)
        ensures
            r matches BTreeNode::Leaf(leaf) && leaf.page_id == page_id && leaf.page_view == slotted_page_view,
    {
        let leaf = LeafNodeView::new(page_id, slotted_page_view);
        BTreeNode::Leaf(leaf)
    }
}

} // verus!
