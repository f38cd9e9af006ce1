use vstd::prelude::*;

verus! {

/// One entry of the tree with the subtrees below it.
struct Node<K, V> where K: Ord {
    key: K,
    value: V,
    left: Option<Box<Node<K, V>>>,
    right: Option<Box<Node<K, V>>>,
}

/// A tree-shaped model of an ordered map. The model keeps no entries:
/// `insert` leaves it as it was and `get` finds nothing.
pub struct Tree<K, V> where K: Ord {
    root: Option<Node<K, V>>,
}

impl<K, V> Default for Tree<K, V> where K: Ord {
    fn default() -> (tree: Self)
        ensures
            tree.is_empty(),
    {
        Tree { root: None }
    }
}

impl<K, V> Tree<K, V> where K: Ord {
    /// Whether the tree has no node.
    pub closed spec fn is_empty(&self) -> bool {
        self.root is None
    }

    /// Takes `key` and `value` and keeps neither: the tree is unchanged.
    pub fn insert(&mut self, key: K, value: V)
        ensures
            *final(self) == *old(self),
    {
    }

    /// Looks `key` up. No key is ever found.
    pub fn get(&self, key: &K) -> (found: Option<&V>)
        ensures
            found is None,
    {
        None
    }
}

} // verus!
