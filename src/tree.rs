//! Categories of items, the character tree that partitions the character
//! paths into categories, and the flat trees of the other asset kinds.
use vstd::prelude::*;
use crate::item::{item_of_config, Item};
use crate::reader::{pairs_view, strings_view};

verus! {

/// A named, ordered group of items.
#[derive(Debug)]
pub struct Category {
    pub name: String,
    pub items: Vec<Item>,
}

/// The characters tree: categories of character items.
#[derive(Debug)]
pub struct CharactersTree {
    pub item_type: u8,
    pub categories: Vec<Category>,
}

/// A flat, ordered list of items of one kind.
#[derive(Debug)]
pub struct GenericTree {
    pub item_type: u8,
    pub items: Vec<Item>,
}

/// The name of the category of characters that precede the first declared one.
pub open spec fn free_name() -> Seq<char> {
    seq!['F', 'r', 'e', 'e']
}

/// Whether the offsets of a non-empty category list are non-decreasing and
/// within a path list of length `n`.
pub open spec fn offsets_valid(cats: Seq<(Seq<char>, u16)>, n: nat) -> bool {
    &&& cats.len() > 0
    &&& forall|i: int| 0 <= i < cats.len() ==> #[trigger] cats[i].1 <= n
    &&& forall|i: int| 0 <= i < cats.len() - 1 ==> #[trigger] cats[i].1 <= cats[i + 1].1
}

/// Where the range of declared category `i` ends: the next offset, or `n`.
pub open spec fn range_end(cats: Seq<(Seq<char>, u16)>, i: int, n: nat) -> int {
    if i + 1 < cats.len() {
        cats[i + 1].1 as int
    } else {
        n as int
    }
}

/// Whether `items` are the records of `configs[lo..hi]`, in order.
pub open spec fn items_of_configs(items: Seq<Item>, configs: Seq<Seq<char>>, lo: int, hi: int) -> bool {
    &&& items.len() == hi - lo
    &&& forall|j: int| 0 <= j < hi - lo ==> item_of_config(#[trigger] items[j], configs[lo + j])
}

/// Whether `c` is named `name` and holds the records of `configs[lo..hi]`.
pub open spec fn category_of(c: Category, name: Seq<char>, configs: Seq<Seq<char>>, lo: int, hi: int) -> bool {
    &&& c.name@ == name
    &&& items_of_configs(c.items@, configs, lo, hi)
}

/// Whether the leading "Free" category is made: the first offset is past the start.
pub open spec fn has_free(cats: Seq<(Seq<char>, u16)>) -> bool {
    cats[0].1 > 0
}

/// The number of categories made before the declared ones: one "Free" or none.
pub open spec fn free_count(cats: Seq<(Seq<char>, u16)>) -> int {
    if has_free(cats) {
        1
    } else {
        0
    }
}

/// Whether `cs` is the category sequence built from the item configurations
/// and the (name, offset) list: a "Free" category for the items before the
/// first offset, if any, then each declared category with its range.
pub open spec fn tree_of(cs: Seq<Category>, configs: Seq<Seq<char>>, cats: Seq<(Seq<char>, u16)>) -> bool {
    &&& cs.len() == cats.len() + free_count(cats)
    &&& has_free(cats) ==> category_of(cs[0], free_name(), configs, 0, cats[0].1 as int)
    &&& forall|i: int|
        0 <= i < cats.len() ==> category_of(
            #[trigger] cs[i + free_count(cats)],
            cats[i].0,
            configs,
            cats[i].1 as int,
            range_end(cats, i, configs.len()),
        )
}

/// The number of items over a sequence of categories.
pub open spec fn items_total(cs: Seq<Category>) -> int
    decreases cs.len(),
{
    if cs.len() == 0 {
        0
    } else {
        items_total(cs.drop_last()) + cs.last().items@.len()
    }
}

/// The items of the first `extra + k` built categories are the paths before
/// the start of declared category `k` (all of them once `k` reaches the end).
proof fn lemma_prefix_total(cs: Seq<Category>, configs: Seq<Seq<char>>, cats: Seq<(Seq<char>, u16)>, k: nat)
    requires
        tree_of(cs, configs, cats),
        offsets_valid(cats, configs.len()),
        k <= cats.len(),
    ensures
        items_total(cs.subrange(0, free_count(cats) + k)) == (if k < cats.len() {
            cats[k as int].1 as int
        } else {
            configs.len() as int
        }),
    decreases k,
{
    let e: int = free_count(cats);
    if k == 0 {
        if has_free(cats) {
            assert(cs.subrange(0, 1).drop_last() =~= Seq::<Category>::empty());
            assert(cs.subrange(0, 1).last() == cs[0]);
            assert(items_total(cs.subrange(0, 1).drop_last()) == 0);
            assert(items_total(cs.subrange(0, 1)) == cs[0].items@.len());
            assert(cs[0].items@.len() == cats[0].1);
        } else {
            assert(cs.subrange(0, 0) =~= Seq::<Category>::empty());
            assert(items_total(cs.subrange(0, 0)) == 0);
        }
        assert(cats.len() > 0);
    } else {
        let j = (k - 1) as nat;
        lemma_prefix_total(cs, configs, cats, j);
        assert(cs.subrange(0, e + k).drop_last() =~= cs.subrange(0, e + j));
        assert(cs.subrange(0, e + k).last() == cs[j + e]);
        assert(category_of(cs[j + free_count(cats)], cats[j as int].0, configs, cats[j as int].1 as int, range_end(cats, j as int, configs.len())));
        assert(items_total(cs.subrange(0, e + k)) == items_total(cs.subrange(0, e + j)) + cs[j + e].items@.len());
    }
}

/// Every path lands in exactly one category: the built categories hold as
/// many items as there are paths.
pub proof fn lemma_tree_total(cs: Seq<Category>, configs: Seq<Seq<char>>, cats: Seq<(Seq<char>, u16)>)
    requires
        tree_of(cs, configs, cats),
        offsets_valid(cats, configs.len()),
    ensures
        items_total(cs) == configs.len(),
{
    lemma_prefix_total(cs, configs, cats, cats.len());
    assert(cs.subrange(0, free_count(cats) + cats.len()) =~= cs);
}

/// When the first category starts at offset zero, no "Free" category is made:
/// there is one category per declared one, and together they hold every path.
pub proof fn lemma_tree_without_free(cs: Seq<Category>, configs: Seq<Seq<char>>, cats: Seq<(Seq<char>, u16)>)
    requires
        tree_of(cs, configs, cats),
        offsets_valid(cats, configs.len()),
        cats[0].1 == 0,
    ensures
        cs.len() == cats.len(),
        items_total(cs) == configs.len(),
{
    lemma_tree_total(cs, configs, cats);
}

/// When the first category starts past offset zero, one more category comes
/// first: "Free", with exactly the paths before that offset.
pub proof fn lemma_tree_with_free(cs: Seq<Category>, configs: Seq<Seq<char>>, cats: Seq<(Seq<char>, u16)>)
    requires
        tree_of(cs, configs, cats),
        offsets_valid(cats, configs.len()),
        cats[0].1 > 0,
    ensures
        cs.len() == cats.len() + 1,
        cs[0].name@ == free_name(),
        cs[0].items@.len() == cats[0].1,
        items_total(cs) == configs.len(),
{
    lemma_tree_total(cs, configs, cats);
}

/// A copy of a list of items.
fn copy_items(items: &Vec<Item>) -> (r: Vec<Item>)
    ensures
        r@ == items@,
{
    let mut out: Vec<Item> = Vec::new();
    let mut i: usize = 0;
    while i < items.len()
        invariant
            i <= items@.len(),
            out@ == items@.subrange(0, i as int),
        decreases items@.len() - i,
    {
        out.push(items[i].duplicate());
        proof {
            assert(items@.subrange(0, i + 1) =~= items@.subrange(0, i as int).push(items@[i as int]));
        }
        i = i + 1;
    }
    assert(items@.subrange(0, i as int) =~= items@);
    out
}

/// Appends to `items` the records of the configuration texts `configs[lo..hi]`.
fn push_items_of(items: &mut Vec<Item>, configs: &[String], lo: usize, hi: usize)
    requires
        lo <= hi <= configs@.len(),
    ensures
        final(items)@.len() == old(items)@.len() + (hi - lo),
        final(items)@.subrange(0, old(items)@.len() as int) == old(items)@,
        items_of_configs(
            final(items)@.subrange(old(items)@.len() as int, final(items)@.len() as int),
            strings_view(configs@),
            lo as int,
            hi as int,
        ),
{
    let ghost start = items@;
    let mut k: usize = lo;
    while k < hi
        invariant
            lo <= k <= hi <= configs@.len(),
            items@.len() == start.len() + (k - lo),
            items@.subrange(0, start.len() as int) == start,
            items_of_configs(
                items@.subrange(start.len() as int, items@.len() as int),
                strings_view(configs@),
                lo as int,
                k as int,
            ),
        decreases hi - k,
    {
        let item = Item::from_config(configs[k].as_str());
        let ghost before = items@;
        items.push(item);
        proof {
            assert(items@.subrange(0, start.len() as int) =~= before.subrange(0, start.len() as int));
            let added = items@.subrange(start.len() as int, items@.len() as int);
            let prev = before.subrange(start.len() as int, before.len() as int);
            assert forall|j: int| 0 <= j < k + 1 - lo implies item_of_config(
                #[trigger] added[j],
                strings_view(configs@)[lo + j],
            ) by {
                if j < k - lo {
                    assert(added[j] == prev[j]);
                } else {
                    assert(added[j] == item);
                }
            }
        }
        k = k + 1;
    }
}

impl Category {
    /// An unnamed, empty category.
    pub fn new() -> (r: Category)
        ensures
            r.name@.len() == 0,
            r.items@.len() == 0,
    {
        Category { name: String::new(), items: Vec::new() }
    }

    /// Appends `item` at the end of the category.
    pub fn add_item(&mut self, item: Item)
        ensures
            final(self).name == old(self).name,
            final(self).items@ == old(self).items@.push(item),
    {
        self.items.push(item);
    }

    /// A copy of this category.
    pub fn duplicate(&self) -> (r: Category)
        ensures
            r.name == self.name,
            r.items@ == self.items@,
    {
        Category { name: self.name.clone(), items: copy_items(&self.items) }
    }
}

impl CharactersTree {
    /// An empty characters tree.
    pub fn new() -> (r: CharactersTree)
        ensures
            r.item_type == 0,
            r.categories@.len() == 0,
    {
        CharactersTree { item_type: 0, categories: Vec::new() }
    }

    /// Appends `category` after the existing ones.
    pub fn add_category(&mut self, category: Category)
        ensures
            final(self).item_type == old(self).item_type,
            final(self).categories@ == old(self).categories@.push(category),
    {
        self.categories.push(category);
    }

    /// The category at `index`.
    pub fn get_category(&self, index: usize) -> (r: &Category)
        requires
            index < self.categories@.len(),
        ensures
            *r == self.categories@[index as int],
    {
        &self.categories[index]
    }

    /// Appends the categories built from the configuration text of each
    /// character path, in path order, and the (name, offset) list of the
    /// category file: first a "Free" category with the characters before the
    /// first offset, when that offset is not zero, then each declared category
    /// with the characters from its offset up to the next one (or the end).
    pub fn set_by_paths(&mut self, configs: &[String], categories: &Vec<(String, u16)>)
        requires
            offsets_valid(pairs_view(categories@), configs@.len()),
        ensures
            final(self).item_type == old(self).item_type,
            final(self).categories@.len() >= old(self).categories@.len(),
            final(self).categories@.subrange(0, old(self).categories@.len() as int)
                == old(self).categories@,
            tree_of(
                final(self).categories@.subrange(
                    old(self).categories@.len() as int,
                    final(self).categories@.len() as int,
                ),
                strings_view(configs@),
                pairs_view(categories@),
            ),
    {
        let ghost cats = pairs_view(categories@);
        let ghost cfg = strings_view(configs@);
        let ghost start = self.categories@;
        assert(cats[0].1 == categories@[0].1);
        let first = categories[0].1;
        let extra: usize = if first != 0 { 1 } else { 0 };
        if first != 0 {
            let mut category = Category::new();
            category.name = "Free".to_owned();
            proof {
                reveal_strlit("Free");
                assert(category.name@ =~= free_name());
            }
            push_items_of(&mut category.items, configs, 0, first as usize);
            assert(category.items@.subrange(0, 0) =~= Seq::<Item>::empty());
            assert(category.items@.subrange(0, category.items@.len() as int) =~= category.items@);
            self.add_category(category);
        }
        let mut i: usize = 0;
        while i < categories.len()
            invariant
                cats == pairs_view(categories@),
                cfg == strings_view(configs@),
                offsets_valid(cats, configs@.len()),
                i <= categories@.len(),
                extra == (if has_free(cats) { 1usize } else { 0usize }),
                self.item_type == old(self).item_type,
                start == old(self).categories@,
                self.categories@.len() == start.len() + extra + i,
                self.categories@.subrange(0, start.len() as int) == start,
                has_free(cats) ==> category_of(self.categories@[start.len() as int], free_name(), cfg, 0, cats[0].1 as int),
                forall|k: int|
                    0 <= k < i ==> category_of(
                        #[trigger] self.categories@[start.len() + extra + k],
                        cats[k].0,
                        cfg,
                        cats[k].1 as int,
                        range_end(cats, k, cfg.len()),
                    ),
            decreases categories@.len() - i,
        {
            let lo = categories[i].1;
            let hi: usize = if i + 1 < categories.len() {
                categories[i + 1].1 as usize
            } else {
                configs.len()
            };
            assert(cats[i as int].1 == lo);
            assert(i + 1 < categories@.len() ==> cats[i + 1].1 == categories@[i + 1].1);
            let mut category = Category::new();
            category.name = categories[i].0.clone();
            push_items_of(&mut category.items, configs, lo as usize, hi);
            assert(category.items@.subrange(0, 0) =~= Seq::<Item>::empty());
            assert(category.items@.subrange(0, category.items@.len() as int) =~= category.items@);
            let ghost before = self.categories@;
            self.add_category(category);
            proof {
                assert(self.categories@.subrange(0, start.len() as int) =~= before.subrange(0, start.len() as int));
                assert forall|k: int|
                    0 <= k < i + 1 implies category_of(
                        #[trigger] self.categories@[start.len() + extra + k],
                        cats[k].0,
                        cfg,
                        cats[k].1 as int,
                        range_end(cats, k, cfg.len()),
                    ) by {
                    if k < i {
                        assert(self.categories@[start.len() + extra + k] == before[start.len() + extra + k]);
                    }
                }
            }
            i = i + 1;
        }
        proof {
            let built = self.categories@.subrange(start.len() as int, self.categories@.len() as int);
            assert forall|k: int| 0 <= k < cats.len() implies category_of(
                #[trigger] built[k + free_count(cats)],
                cats[k].0,
                cfg,
                cats[k].1 as int,
                range_end(cats, k, cfg.len()),
            ) by {
                assert(built[k + free_count(cats)] == self.categories@[start.len() + extra + k]);
            }
        }
    }
}

impl GenericTree {
    /// An empty tree of the given item kind.
    pub fn new(item_type: u8) -> (r: GenericTree)
        ensures
            r.item_type == item_type,
            r.items@.len() == 0,
    {
        GenericTree { item_type, items: Vec::new() }
    }

    /// Appends `item` at the end of the tree.
    pub fn add_item(&mut self, item: Item)
        ensures
            final(self).item_type == old(self).item_type,
            final(self).items@ == old(self).items@.push(item),
    {
        self.items.push(item);
    }

    /// Appends the record of each configuration text, in order.
    pub fn set_from_path(&mut self, configs: &[String])
        ensures
            final(self).item_type == old(self).item_type,
            final(self).items@.len() == old(self).items@.len() + configs@.len(),
            final(self).items@.subrange(0, old(self).items@.len() as int) == old(self).items@,
            items_of_configs(
                final(self).items@.subrange(old(self).items@.len() as int, final(self).items@.len() as int),
                strings_view(configs@),
                0,
                configs@.len() as int,
            ),
    {
        push_items_of(&mut self.items, configs, 0, configs.len());
    }

    /// A copy of this tree.
    pub fn duplicate(&self) -> (r: GenericTree)
        ensures
            r.item_type == self.item_type,
            r.items@ == self.items@,
    {
        GenericTree { item_type: self.item_type, items: copy_items(&self.items) }
    }
}

} // verus!
