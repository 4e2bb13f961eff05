//! Watched paths, compared component by component.

use vstd::prelude::*;

verus! {

/// A filesystem path as the trigger rules see it.
///
/// `components` is what the rules read: the path's components in order, the
/// root first. Its view is the path's identity: two paths with the same
/// components are the same path. `text` is the path as it is written, carried
/// along for messages and for the command template.
#[derive(Debug)]
pub struct WatchPath {
    pub text: String,
    pub components: Vec<String>,
}

impl View for WatchPath {
    type V = Seq<Seq<char>>;

    open spec fn view(&self) -> Seq<Seq<char>> {
        self.components.deep_view()
    }
}

/// Whether a location watching `watched` takes an event at `path`.
///
/// A recursive location takes every event at or below its path. A location
/// that is not recursive takes only direct events: those at its path and at
/// the entries immediately inside it.
pub open spec fn covers(watched: Seq<Seq<char>>, recursive: bool, path: Seq<Seq<char>>) -> bool {
    watched.is_prefix_of(path) && (recursive || path.len() <= watched.len() + 1)
}

impl Clone for WatchPath {
    fn clone(&self) -> (copy: Self)
        ensures
            copy@ == self@,
            copy.text@ == self.text@,
    {
        let mut components: Vec<String> = Vec::new();
        let mut i: usize = 0;
        while i < self.components.len()
            invariant
                i <= self.components.len(),
                components.len() == i,
                forall|k: int| 0 <= k < i ==> components[k]@ == self.components[k]@,
            decreases self.components.len() - i,
        {
            components.push(self.components[i].clone());
            i += 1;
        }
        let copy = WatchPath { text: self.text.clone(), components };
        assert(copy@ =~= self@);
        copy
    }
}

impl WatchPath {
    /// A path from its written form and its components.
    pub fn new(text: String, components: Vec<String>) -> (path: Self)
        ensures
            path.text@ == text@,
            path@ == components.deep_view(),
    {
        WatchPath { text, components }
    }

    /// The number of components.
    pub fn depth(&self) -> (n: usize)
        ensures
            n == self@.len(),
    {
        self.components.len()
    }

    /// Whether the first `n` components of `path` are exactly this path.
    pub fn is_ancestor_at(&self, path: &WatchPath, n: usize) -> (r: bool)
        requires
            n <= path@.len(),
        ensures
            r == (self@ == path@.subrange(0, n as int)),
    {
        if self.components.len() != n {
            assert(self@.len() != path@.subrange(0, n as int).len());
            return false;
        }
        let mut i: usize = 0;
        while i < n
            invariant
                i <= n <= path.components.len(),
                self.components.len() == n,
                forall|k: int| 0 <= k < i ==> self@[k] == path@[k],
            decreases n - i,
        {
            if self.components[i] != path.components[i] {
                assert(self@[i as int] != path@.subrange(0, n as int)[i as int]);
                return false;
            }
            i += 1;
        }
        assert(self@ =~= path@.subrange(0, n as int));
        true
    }

    /// Whether `base` is this path or one of its ancestors: the components of
    /// `base` are the first components of this path.
    pub fn starts_with(&self, base: &WatchPath) -> (r: bool)
        ensures
            r == base@.is_prefix_of(self@),
    {
        if base.components.len() > self.components.len() {
            return false;
        }
        base.is_ancestor_at(self, base.components.len())
    }

    /// Whether both paths have the same components.
    pub fn same_as(&self, other: &WatchPath) -> (r: bool)
        ensures
            r == (self@ == other@),
    {
        assert(other@.subrange(0, other@.len() as int) =~= other@);
        self.is_ancestor_at(other, other.components.len())
    }

    /// Whether a location watching this path, recursively or not, takes an
    /// event at `path`.
    pub fn covers(&self, recursive: bool, path: &WatchPath) -> (r: bool)
        ensures
            r == covers(self@, recursive, path@),
    {
        path.starts_with(self) && (recursive || path.components.len() - self.components.len() <= 1)
    }

    /// The last component, which names the watched entry; `None` for a path
    /// without components.
    pub fn last_component(&self) -> (name: Option<&String>)
        ensures
            self@.len() == 0 <==> name is None,
            name matches Some(n) ==> n@ == self@.last(),
    {
        let n = self.components.len();
        if n == 0 {
            None
        } else {
            Some(&self.components[n - 1])
        }
    }
}

} // verus!
