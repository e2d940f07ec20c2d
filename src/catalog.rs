//! The catalog: one characters tree and the buddy, skin and stage trees.
//! It is loaded once, read through copies, and changed afterwards only by
//! moving categories of the characters tree.
use vstd::prelude::*;
use crate::reader::{pairs_view, strings_view};
use crate::reorder::{after_inserts, after_removals, check_moves, move_entries, moved, moves_valid, removed_entries};
use crate::tree::{
    items_of_configs, items_total, lemma_tree_total, offsets_valid, tree_of, Category, CharactersTree,
    GenericTree,
};

verus! {

/// Why a load was refused.
#[derive(Debug, Clone, Copy, PartialEq, Eq, Structural)]
pub enum LoadError {
    /// The catalog already holds items.
    AlreadyLoaded,
    /// The category list is empty, or its offsets decrease or run past the character paths.
    BadCategories,
}

/// Why a move of categories was refused.
#[derive(Debug, Clone, Copy, PartialEq, Eq, Structural)]
pub enum MoveError {
    /// The position lists differ in length, or a position is out of range.
    IndexOutOfRange,
}

/// The catalog of characters, buddies, skins and stages.
#[derive(Debug)]
pub struct RoaList {
    pub char_tree: CharactersTree,
    pub buddy_tree: GenericTree,
    pub skin_tree: GenericTree,
    pub stage_tree: GenericTree,
}

/// A list of items holds no more than all of the categories do.
proof fn lemma_items_total_prefix(cs: Seq<Category>, k: nat)
    requires
        k <= cs.len(),
    ensures
        0 <= items_total(cs.subrange(0, k as int)) <= items_total(cs),
    decreases cs.len(),
{
    if cs.len() > 0 {
        if k < cs.len() {
            lemma_items_total_prefix(cs.drop_last(), k);
            assert(cs.drop_last().subrange(0, k as int) =~= cs.subrange(0, k as int));
        } else {
            lemma_items_total_prefix(cs.drop_last(), 0);
            assert(cs.subrange(0, k as int) =~= cs);
        }
    } else {
        assert(cs.subrange(0, k as int) =~= cs);
    }
}

/// The items of two runs of categories add up.
proof fn lemma_items_total_concat(a: Seq<Category>, b: Seq<Category>)
    ensures
        items_total(a + b) == items_total(a) + items_total(b),
    decreases b.len(),
{
    if b.len() > 0 {
        lemma_items_total_concat(a, b.drop_last());
        assert((a + b).drop_last() =~= a + b.drop_last());
    } else {
        assert(a + b =~= a);
    }
}

/// Whether every category of `cs` is empty, given that its item count is zero.
proof fn lemma_items_total_zero(cs: Seq<Category>, i: int)
    requires
        items_total(cs) == 0,
        0 <= i < cs.len(),
    ensures
        cs[i].items@.len() == 0,
{
    lemma_items_total_prefix(cs, (i + 1) as nat);
    lemma_items_total_prefix(cs.subrange(0, i + 1), i as nat);
    assert(cs.subrange(0, i + 1).subrange(0, i) =~= cs.subrange(0, i + 1).drop_last());
}

/// Taking one category out removes exactly its items from the count.
proof fn lemma_items_total_remove(cs: Seq<Category>, i: int)
    requires
        0 <= i < cs.len(),
    ensures
        items_total(cs.remove(i)) + cs[i].items@.len() == items_total(cs),
{
    let a = cs.subrange(0, i);
    let b = cs.subrange(i + 1, cs.len() as int);
    assert(cs.remove(i) =~= a + b);
    assert(cs =~= (a + seq![cs[i]]) + b);
    lemma_items_total_concat(a, b);
    lemma_items_total_concat(a + seq![cs[i]], b);
    lemma_items_total_concat(a, seq![cs[i]]);
    let one = seq![cs[i]];
    assert(one.drop_last() =~= Seq::<Category>::empty());
    assert(items_total(one.drop_last()) == 0);
    assert(one.last() == cs[i]);
    assert(items_total(one) == cs[i].items@.len());
}

/// Putting one category in adds exactly its items to the count.
proof fn lemma_items_total_insert(cs: Seq<Category>, i: int, c: Category)
    requires
        0 <= i <= cs.len(),
    ensures
        items_total(cs.insert(i, c)) == items_total(cs) + c.items@.len(),
{
    let grown = cs.insert(i, c);
    assert(grown[i] == c);
    assert(grown.remove(i) =~= cs);
    lemma_items_total_remove(grown, i);
}

/// Moving categories keeps the number of items: the removals and the
/// insertions take out and put back the same categories.
pub proof fn lemma_moved_keeps_items(s: Seq<Category>, from: Seq<usize>, to: Seq<usize>)
    requires
        moves_valid(s.len(), from, to),
    ensures
        items_total(moved(s, from, to)) == items_total(s),
{
    let m = from.len();
    lemma_removals_keep_items(s, from, to, m);
    let entries = removed_entries(s, from, m);
    lemma_inserts_add_items(s, from, to, m);
    assert(entries.subrange(0, m as int) =~= entries);
}

/// After `k` removals, what stays and what was taken hold all the items.
proof fn lemma_removals_keep_items(s: Seq<Category>, from: Seq<usize>, to: Seq<usize>, k: nat)
    requires
        moves_valid(s.len(), from, to),
        k <= from.len(),
    ensures
        after_removals(s, from, k).len() == s.len() - k,
        removed_entries(s, from, k).len() == k,
        items_total(after_removals(s, from, k)) + items_total(removed_entries(s, from, k)) == items_total(s),
    decreases k,
{
    if k > 0 {
        let j = (k - 1) as nat;
        lemma_removals_keep_items(s, from, to, j);
        let prev = after_removals(s, from, j);
        let at = from[j as int] - j;
        lemma_items_total_remove(prev, at);
        let taken = removed_entries(s, from, k);
        assert(taken.drop_last() =~= removed_entries(s, from, j));
    }
}

/// After `k` insertions, the sequence holds the items of the base and of the
/// first `k` entries put in.
proof fn lemma_inserts_add_items(s: Seq<Category>, from: Seq<usize>, to: Seq<usize>, k: nat)
    requires
        moves_valid(s.len(), from, to),
        k <= from.len(),
    ensures
        after_inserts(after_removals(s, from, from.len()), removed_entries(s, from, from.len()), to, k).len()
            == s.len() - from.len() + k,
        items_total(after_inserts(after_removals(s, from, from.len()), removed_entries(s, from, from.len()), to, k))
            == items_total(after_removals(s, from, from.len()))
                + items_total(removed_entries(s, from, from.len()).subrange(0, k as int)),
    decreases k,
{
    let m = from.len();
    let base = after_removals(s, from, m);
    let entries = removed_entries(s, from, m);
    lemma_removals_keep_items(s, from, to, m);
    if k == 0 {
        assert(entries.subrange(0, 0) =~= Seq::<Category>::empty());
    } else {
        let j = (k - 1) as nat;
        lemma_inserts_add_items(s, from, to, j);
        let prev = after_inserts(base, entries, to, j);
        lemma_items_total_insert(prev, to[j as int] as int, entries[j as int]);
        assert(entries.subrange(0, k as int).drop_last() =~= entries.subrange(0, j as int));
    }
}

impl RoaList {
    /// Items over all the categories of the characters tree and the three other trees.
    pub open spec fn total_items(&self) -> int {
        items_total(self.char_tree.categories@) + self.buddy_tree.items@.len()
            + self.skin_tree.items@.len() + self.stage_tree.items@.len()
    }

    /// An empty catalog: skins are of kind 0, buddies of kind 1, stages of kind 2.
    pub fn new() -> (r: RoaList)
        ensures
            r.total_items() == 0,
            r.char_tree.categories@.len() == 0,
            r.char_tree.item_type == 0,
            r.buddy_tree.item_type == 1,
            r.skin_tree.item_type == 0,
            r.stage_tree.item_type == 2,
    {
        RoaList {
            char_tree: CharactersTree::new(),
            buddy_tree: GenericTree::new(1),
            skin_tree: GenericTree::new(0),
            stage_tree: GenericTree::new(2),
        }
    }

    /// Builds the characters tree from the configuration text of each character
    /// path and the (name, offset) list of the category file.
    pub fn add_char_tree_from_paths(&mut self, configs: &[String], categories: &Vec<(String, u16)>)
        requires
            offsets_valid(pairs_view(categories@), configs@.len()),
        ensures
            final(self).buddy_tree == old(self).buddy_tree,
            final(self).skin_tree == old(self).skin_tree,
            final(self).stage_tree == old(self).stage_tree,
            final(self).char_tree.item_type == old(self).char_tree.item_type,
            final(self).total_items() == old(self).total_items() + configs@.len(),
            final(self).char_tree.categories@.len() >= old(self).char_tree.categories@.len(),
            final(self).char_tree.categories@.subrange(0, old(self).char_tree.categories@.len() as int)
                == old(self).char_tree.categories@,
            tree_of(
                final(self).char_tree.categories@.subrange(
                    old(self).char_tree.categories@.len() as int,
                    final(self).char_tree.categories@.len() as int,
                ),
                strings_view(configs@),
                pairs_view(categories@),
            ),
    {
        let ghost before = self.char_tree.categories@;
        self.char_tree.set_by_paths(configs, categories);
        proof {
            let after = self.char_tree.categories@;
            let built = after.subrange(before.len() as int, after.len() as int);
            assert(after =~= before + built);
            lemma_items_total_concat(before, built);
            lemma_tree_total(built, strings_view(configs@), pairs_view(categories@));
        }
    }

    /// Adds a buddy item for the configuration text of each buddy path.
    pub fn add_buddy_tree_from_paths(&mut self, configs: &[String])
        ensures
            final(self).char_tree == old(self).char_tree,
            final(self).skin_tree == old(self).skin_tree,
            final(self).stage_tree == old(self).stage_tree,
            final(self).buddy_tree.item_type == old(self).buddy_tree.item_type,
            final(self).total_items() == old(self).total_items() + configs@.len(),
            final(self).buddy_tree.items@.len() == old(self).buddy_tree.items@.len() + configs@.len(),
            final(self).buddy_tree.items@.subrange(0, old(self).buddy_tree.items@.len() as int)
                == old(self).buddy_tree.items@,
            items_of_configs(
                final(self).buddy_tree.items@.subrange(
                    old(self).buddy_tree.items@.len() as int,
                    final(self).buddy_tree.items@.len() as int,
                ),
                strings_view(configs@),
                0,
                configs@.len() as int,
            ),
    {
        self.buddy_tree.set_from_path(configs);
    }

    /// Adds a skin item for the configuration text of each skin path.
    pub fn add_skin_tree_from_paths(&mut self, configs: &[String])
        ensures
            final(self).char_tree == old(self).char_tree,
            final(self).buddy_tree == old(self).buddy_tree,
            final(self).stage_tree == old(self).stage_tree,
            final(self).skin_tree.item_type == old(self).skin_tree.item_type,
            final(self).total_items() == old(self).total_items() + configs@.len(),
            final(self).skin_tree.items@.len() == old(self).skin_tree.items@.len() + configs@.len(),
            final(self).skin_tree.items@.subrange(0, old(self).skin_tree.items@.len() as int)
                == old(self).skin_tree.items@,
            items_of_configs(
                final(self).skin_tree.items@.subrange(
                    old(self).skin_tree.items@.len() as int,
                    final(self).skin_tree.items@.len() as int,
                ),
                strings_view(configs@),
                0,
                configs@.len() as int,
            ),
    {
        self.skin_tree.set_from_path(configs);
    }

    /// Adds a stage item for the configuration text of each stage path.
    pub fn add_stage_tree_from_paths(&mut self, configs: &[String])
        ensures
            final(self).char_tree == old(self).char_tree,
            final(self).buddy_tree == old(self).buddy_tree,
            final(self).skin_tree == old(self).skin_tree,
            final(self).stage_tree.item_type == old(self).stage_tree.item_type,
            final(self).total_items() == old(self).total_items() + configs@.len(),
            final(self).stage_tree.items@.len() == old(self).stage_tree.items@.len() + configs@.len(),
            final(self).stage_tree.items@.subrange(0, old(self).stage_tree.items@.len() as int)
                == old(self).stage_tree.items@,
            items_of_configs(
                final(self).stage_tree.items@.subrange(
                    old(self).stage_tree.items@.len() as int,
                    final(self).stage_tree.items@.len() as int,
                ),
                strings_view(configs@),
                0,
                configs@.len() as int,
            ),
    {
        self.stage_tree.set_from_path(configs);
    }

    /// Whether the catalog holds any item.
    pub fn is_loaded(&self) -> (r: bool)
        ensures
            r == (self.total_items() > 0),
    {
        let cats = &self.char_tree.categories;
        proof {
            lemma_items_total_prefix(cats@, cats@.len());
            assert(cats@.subrange(0, cats@.len() as int) =~= cats@);
        }
        if self.buddy_tree.items.len() > 0 || self.skin_tree.items.len() > 0
            || self.stage_tree.items.len() > 0 {
            return true;
        }
        let mut i: usize = 0;
        while i < cats.len()
            invariant
                i <= cats@.len(),
                items_total(cats@.subrange(0, i as int)) == 0,
                cats@ == self.char_tree.categories@,
            decreases cats@.len() - i,
        {
            assert(cats@.subrange(0, i + 1).drop_last() =~= cats@.subrange(0, i as int));
            assert(cats@.subrange(0, i + 1).last() == cats@[i as int]);
            if cats[i].items.len() > 0 {
                proof {
                    lemma_items_total_prefix(cats@, (i + 1) as nat);
                    assert(items_total(cats@.subrange(0, i + 1)) == items_total(cats@.subrange(0, i + 1).drop_last()) + cats@.subrange(0, i + 1).last().items@.len());
                    assert(items_total(cats@) > 0);
                }
                return true;
            }
            i = i + 1;
        }
        assert(cats@.subrange(0, i as int) =~= cats@);
        false
    }

    /// Loads the catalog from the configuration text of each path of the four
    /// lists and the category list, once: a catalog that holds items already
    /// is left as it is.
    pub fn load(
        &mut self,
        char_configs: &[String],
        categories: &Vec<(String, u16)>,
        buddy_configs: &[String],
        stage_configs: &[String],
        skin_configs: &[String],
    ) -> (r: Result<(), LoadError>)
        ensures
            old(self).total_items() > 0 ==> r == Err::<(), LoadError>(LoadError::AlreadyLoaded),
            old(self).total_items() == 0 && !offsets_valid(pairs_view(categories@), char_configs@.len())
                ==> r == Err::<(), LoadError>(LoadError::BadCategories),
            r is Err ==> *final(self) == *old(self),
            r is Ok ==> {
                &&& final(self).char_tree.item_type == old(self).char_tree.item_type
                &&& final(self).buddy_tree.item_type == old(self).buddy_tree.item_type
                &&& final(self).skin_tree.item_type == old(self).skin_tree.item_type
                &&& final(self).stage_tree.item_type == old(self).stage_tree.item_type
                &&& final(self).char_tree.categories@.len() >= old(self).char_tree.categories@.len()
                &&& final(self).char_tree.categories@.subrange(0, old(self).char_tree.categories@.len() as int)
                    == old(self).char_tree.categories@
                &&& tree_of(
                    final(self).char_tree.categories@.subrange(
                        old(self).char_tree.categories@.len() as int,
                        final(self).char_tree.categories@.len() as int,
                    ),
                    strings_view(char_configs@),
                    pairs_view(categories@),
                )
                &&& items_of_configs(final(self).buddy_tree.items@, strings_view(buddy_configs@), 0, buddy_configs@.len() as int)
                &&& items_of_configs(final(self).stage_tree.items@, strings_view(stage_configs@), 0, stage_configs@.len() as int)
                &&& items_of_configs(final(self).skin_tree.items@, strings_view(skin_configs@), 0, skin_configs@.len() as int)
                &&& final(self).total_items() == char_configs@.len() + buddy_configs@.len()
                    + stage_configs@.len() + skin_configs@.len()
            },
            r is Ok <==> old(self).total_items() == 0 && offsets_valid(pairs_view(categories@), char_configs@.len()),
    {
        if self.is_loaded() {
            return Err(LoadError::AlreadyLoaded);
        }
        if !offsets_ok(categories, char_configs.len()) {
            return Err(LoadError::BadCategories);
        }
        proof {
            let before = self.char_tree.categories@;
            lemma_items_total_prefix(before, before.len());
            assert(before.subrange(0, before.len() as int) =~= before);
        }
        self.add_char_tree_from_paths(char_configs, categories);
        self.add_buddy_tree_from_paths(buddy_configs);
        self.add_stage_tree_from_paths(stage_configs);
        self.add_skin_tree_from_paths(skin_configs);
        proof {
            assert(self.buddy_tree.items@.subrange(0, self.buddy_tree.items@.len() as int) =~= self.buddy_tree.items@);
            assert(self.stage_tree.items@.subrange(0, self.stage_tree.items@.len() as int) =~= self.stage_tree.items@);
            assert(self.skin_tree.items@.subrange(0, self.skin_tree.items@.len() as int) =~= self.skin_tree.items@);
        }
        Ok(())
    }

    /// A copy of the characters tree.
    pub fn get_char_tree(&self) -> (r: CharactersTree)
        ensures
            r.item_type == self.char_tree.item_type,
            r.categories@.len() == self.char_tree.categories@.len(),
            forall|i: int| 0 <= i < r.categories@.len() ==> #[trigger] r.categories@[i].name
                == self.char_tree.categories@[i].name && r.categories@[i].items@
                == self.char_tree.categories@[i].items@,
    {
        let src = &self.char_tree.categories;
        let mut out: Vec<Category> = Vec::new();
        let mut i: usize = 0;
        while i < src.len()
            invariant
                i <= src@.len(),
                out@.len() == i,
                forall|k: int| 0 <= k < i ==> #[trigger] out@[k].name == src@[k].name && out@[k].items@
                    == src@[k].items@,
            decreases src@.len() - i,
        {
            out.push(src[i].duplicate());
            i = i + 1;
        }
        CharactersTree { item_type: self.char_tree.item_type, categories: out }
    }

    /// The categories of the characters tree, to be changed in place.
    pub fn cat_mut(&mut self) -> (r: &mut Vec<Category>)
        ensures
            *r == old(self).char_tree.categories,
            final(self).char_tree.categories == *final(r),
            final(self).char_tree.item_type == old(self).char_tree.item_type,
            final(self).buddy_tree == old(self).buddy_tree,
            final(self).skin_tree == old(self).skin_tree,
            final(self).stage_tree == old(self).stage_tree,
    {
        &mut self.char_tree.categories
    }

    /// A copy of the buddy tree.
    pub fn get_buddy_tree(&self) -> (r: GenericTree)
        ensures
            r.item_type == self.buddy_tree.item_type,
            r.items@ == self.buddy_tree.items@,
    {
        self.buddy_tree.duplicate()
    }

    /// A copy of the skin tree.
    pub fn get_skin_tree(&self) -> (r: GenericTree)
        ensures
            r.item_type == self.skin_tree.item_type,
            r.items@ == self.skin_tree.items@,
    {
        self.skin_tree.duplicate()
    }

    /// A copy of the stage tree.
    pub fn get_stage_tree(&self) -> (r: GenericTree)
        ensures
            r.item_type == self.stage_tree.item_type,
            r.items@ == self.stage_tree.items@,
    {
        self.stage_tree.duplicate()
    }

    /// The catalog itself, for reading.
    pub fn get(&self) -> (r: &RoaList)
        ensures
            *r == *self,
    {
        self
    }

    /// The number of items in the catalog.
    pub fn get_len(&self) -> (r: usize)
        requires
            self.total_items() <= usize::MAX,
        ensures
            r == self.total_items(),
    {
        let cats = &self.char_tree.categories;
        let mut acc: usize = 0;
        let mut i: usize = 0;
        while i < cats.len()
            invariant
                i <= cats@.len(),
                acc == items_total(cats@.subrange(0, i as int)),
                items_total(cats@) + self.buddy_tree.items@.len() + self.skin_tree.items@.len()
                    + self.stage_tree.items@.len() <= usize::MAX,
            decreases cats@.len() - i,
        {
            assert(cats@.subrange(0, i + 1).drop_last() =~= cats@.subrange(0, i as int));
            proof {
                lemma_items_total_prefix(cats@, (i + 1) as nat);
            }
            acc = acc + cats[i].items.len();
            i = i + 1;
        }
        assert(cats@.subrange(0, i as int) =~= cats@);
        acc + self.buddy_tree.items.len() + self.skin_tree.items.len() + self.stage_tree.items.len()
    }

    /// Moves categories of the characters tree: removes the category at
    /// `from[k] - k` for each `k` in turn, then inserts the `k`-th removed one
    /// at `to[k]`, in the same order. Positions that do not fit leave the
    /// catalog unchanged.
    pub fn move_categories(&mut self, from: Vec<usize>, to: Vec<usize>) -> (r: Result<(), MoveError>)
        ensures
            r is Ok <==> moves_valid(old(self).char_tree.categories@.len(), from@, to@),
            r is Err ==> *final(self) == *old(self),
            r is Ok ==> final(self).char_tree.categories@ == moved(old(self).char_tree.categories@, from@, to@),
            final(self).total_items() == old(self).total_items(),
            final(self).char_tree.item_type == old(self).char_tree.item_type,
            final(self).buddy_tree == old(self).buddy_tree,
            final(self).skin_tree == old(self).skin_tree,
            final(self).stage_tree == old(self).stage_tree,
    {
        if !check_moves(self.char_tree.categories.len(), &from, &to) {
            return Err(MoveError::IndexOutOfRange);
        }
        proof {
            lemma_moved_keeps_items(self.char_tree.categories@, from@, to@);
        }
        move_entries(&mut self.char_tree.categories, &from, &to);
        Ok(())
    }
}

/// Whether the category list is usable with `n` character paths.
pub fn offsets_ok(categories: &Vec<(String, u16)>, n: usize) -> (r: bool)
    ensures
        r == offsets_valid(pairs_view(categories@), n as nat),
{
    let ghost cats = pairs_view(categories@);
    if categories.len() == 0 {
        return false;
    }
    let mut i: usize = 0;
    while i < categories.len()
        invariant
            cats == pairs_view(categories@),
            0 < categories@.len(),
            i <= categories@.len(),
            forall|k: int| 0 <= k < i ==> #[trigger] cats[k].1 <= n,
            forall|k: int| 0 <= k < i && k < cats.len() - 1 ==> #[trigger] cats[k].1 <= cats[k + 1].1,
        decreases categories@.len() - i,
    {
        assert(cats[i as int].1 == categories@[i as int].1);
        if categories[i].1 as usize > n {
            return false;
        }
        if i + 1 < categories.len() {
            assert(cats[i + 1].1 == categories@[i + 1].1);
            if categories[i].1 > categories[i + 1].1 {
                return false;
            }
        }
        i = i + 1;
    }
    true
}

} // verus!
