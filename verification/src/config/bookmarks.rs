use vstd::prelude::*;

verus! {

/// Whether `std::path::Path` considers two paths equal (it compares them component by
/// component, so "/tmp/a" and "/tmp/a/" are the same path).
pub uninterp spec fn paths_equal(a: Seq<char>, b: Seq<char>) -> bool;

/// Compares two paths with `Path`'s `==`. The result is `paths_equal` of their texts;
/// identical texts name the same path.
#[verifier::external_body]
fn same_path(a: &str, b: &str) -> (r: bool)
    ensures
        r == paths_equal(a@, b@),
        a@ == b@ ==> r,
{
    std::path::Path::new(a) == std::path::Path::new(b)
}

/// A bookmarked directory: its path and the label shown for it.
#[derive(Debug, Clone)]
pub struct Bookmark {
    pub path: String,
    pub label: String,
}

/// The bookmarks, in the order they were added.
#[derive(Debug)]
pub struct BookmarkStore {
    pub bookmarks: Vec<Bookmark>,
}

/// What a bookmark says: its path and its label.
pub open spec fn bookmark_view(b: Bookmark) -> (Seq<char>, Seq<char>) {
    (b.path@, b.label@)
}

impl View for BookmarkStore {
    type V = Seq<(Seq<char>, Seq<char>)>;

    open spec fn view(&self) -> Seq<(Seq<char>, Seq<char>)> {
        self.bookmarks@.map_values(|b: Bookmark| bookmark_view(b))
    }
}

/// Whether the path texts `a` and `b` name the same path: the same text, or texts that
/// `Path` calls equal.
pub open spec fn same_place(a: Seq<char>, b: Seq<char>) -> bool {
    a == b || paths_equal(a, b)
}

/// Whether one of the bookmarks `bs` is for the path `p`.
pub open spec fn has_path(bs: Seq<(Seq<char>, Seq<char>)>, p: Seq<char>) -> bool {
    exists|i: int| 0 <= i < bs.len() && same_place(#[trigger] bs[i].0, p)
}

/// Once a path has been offered to `add`, it is bookmarked: either it was already, or it
/// is the bookmark that `add` appended. So offering it again is refused.
pub proof fn lemma_added_path_is_bookmarked(
    bs: Seq<(Seq<char>, Seq<char>)>,
    path: Seq<char>,
    label: Seq<char>,
)
    ensures
        has_path(bs.push((path, label)), path),
{
    assert(same_place(bs.push((path, label))[bs.len() as int].0, path));
}

impl Default for BookmarkStore {
    fn default() -> (s: Self)
        ensures
            s@.len() == 0,
    {
        BookmarkStore { bookmarks: Vec::new() }
    }
}

impl BookmarkStore {
    /// Add a bookmark if not already present.
    pub fn add(&mut self, path: String, label: String) -> (r: bool)
        ensures
            r == !has_path(old(self)@, path@),
            r ==> final(self)@ == old(self)@.push((path@, label@)),
            !r ==> final(self)@ == old(self)@,
            has_path(final(self)@, path@),
    {
        let mut i: usize = 0;
        while i < self.bookmarks.len()
            invariant
                i <= self.bookmarks@.len(),
                self@ == old(self)@,
                forall|k: int| 0 <= k < i ==> !same_place(#[trigger] self@[k].0, path@),
            decreases self.bookmarks@.len() - i,
        {
            if same_path(self.bookmarks[i].path.as_str(), path.as_str()) {
                proof {
                    assert(same_place(self@[i as int].0, path@));
                }
                return false;  // already bookmarked
            }
            i = i + 1;
        }
        let ghost before = self@;
        self.bookmarks.push(Bookmark { path, label });
        proof {
            assert(self@ =~= before.push((path@, label@)));
            lemma_added_path_is_bookmarked(before, path@, label@);
        }
        true
    }

    /// Remove bookmark at index.
    pub fn remove(&mut self, index: usize)
        ensures
            index < old(self)@.len() ==> final(self)@ == old(self)@.remove(index as int),
            index >= old(self)@.len() ==> final(self)@ == old(self)@,
    {
        if index < self.bookmarks.len() {
            let ghost before = self.bookmarks@;
            self.bookmarks.remove(index);
            proof {
                assert(self@ =~= before.map_values(|b: Bookmark| bookmark_view(b)).remove(
                    index as int,
                ));
            }
        }
    }

    pub fn is_empty(&self) -> (r: bool)
        ensures
            r == (self@.len() == 0),
    {
        self.bookmarks.len() == 0
    }

    pub fn len(&self) -> (n: usize)
        ensures
            n == self@.len(),
    {
        self.bookmarks.len()
    }
}

} // verus!
