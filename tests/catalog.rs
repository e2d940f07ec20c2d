use corg::catalog::{offsets_ok, LoadError, MoveError, RoaList};
use corg::item::Item;
use corg::reorder::check_moves;
use corg::tree::{Category, CharactersTree, GenericTree};

fn configs(names: &[&str]) -> Vec<String> {
    names.iter().map(|n| format!("[general]\nname = \"{}\"\n", n)).collect()
}

fn cats(list: &[(&str, u16)]) -> Vec<(String, u16)> {
    list.iter().map(|(n, o)| (n.to_string(), *o)).collect()
}

fn names(tree: &CharactersTree) -> Vec<String> {
    tree.categories.iter().map(|c| c.name.clone()).collect()
}

fn catalog_with_categories(list: &[&str]) -> RoaList {
    let mut rl = RoaList::new();
    let offsets: Vec<(&str, u16)> = list.iter().enumerate().map(|(i, n)| (*n, i as u16)).collect();
    let chars = configs(list);
    rl.load(&chars, &cats(&offsets), &[], &[], &[]).unwrap();
    rl
}

#[test]
fn tree_without_free_category() {
    let mut tree = CharactersTree::new();
    let paths = configs(&["a", "b", "c", "d", "e"]);
    tree.set_by_paths(&paths, &cats(&[("One", 0), ("Two", 2), ("Three", 2)]));
    assert_eq!(names(&tree), vec!["One", "Two", "Three"]);
    let sizes: Vec<usize> = tree.categories.iter().map(|c| c.items.len()).collect();
    assert_eq!(sizes, vec![2, 0, 3]);
    assert_eq!(tree.get_category(2).items[0].name, "c");
}

#[test]
fn tree_with_free_category() {
    let mut tree = CharactersTree::new();
    let paths = configs(&["a", "b", "c", "d"]);
    tree.set_by_paths(&paths, &cats(&[("One", 3)]));
    assert_eq!(names(&tree), vec!["Free", "One"]);
    assert_eq!(tree.categories[0].items.len(), 3);
    assert_eq!(tree.categories[1].items.len(), 1);
    assert_eq!(tree.categories[1].items[0].name, "d");
}

#[test]
fn load_counts_every_item() {
    let mut rl = RoaList::new();
    assert!(!rl.is_loaded());
    let chars = configs(&["a", "b", "c"]);
    let buddies = configs(&["x"]);
    let stages = configs(&["s1", "s2"]);
    let skins = configs(&["k"]);
    assert_eq!(rl.load(&chars, &cats(&[("C", 1)]), &buddies, &stages, &skins), Ok(()));
    assert_eq!(rl.get_len(), 7);
    assert!(rl.is_loaded());
    assert_eq!(rl.get_buddy_tree().items.len(), 1);
    assert_eq!(rl.get_stage_tree().items[1].name, "s2");
    assert_eq!(rl.get_skin_tree().item_type, 0);
    assert_eq!(rl.get_buddy_tree().item_type, 1);
    assert_eq!(rl.get_stage_tree().item_type, 2);
}

#[test]
fn second_load_is_refused() {
    let mut rl = RoaList::new();
    let chars = configs(&["a", "b"]);
    rl.load(&chars, &cats(&[("C", 0)]), &[], &[], &[]).unwrap();
    let before = format!("{:?}", rl);
    let more = configs(&["z"]);
    assert_eq!(rl.load(&more, &cats(&[("D", 0)]), &more, &more, &more), Err(LoadError::AlreadyLoaded));
    assert_eq!(format!("{:?}", rl), before);
    assert_eq!(rl.get_len(), 2);
}

#[test]
fn bad_categories_are_refused() {
    let mut rl = RoaList::new();
    let chars = configs(&["a", "b"]);
    assert_eq!(rl.load(&chars, &cats(&[]), &[], &[], &[]), Err(LoadError::BadCategories));
    assert_eq!(rl.load(&chars, &cats(&[("A", 3)]), &[], &[], &[]), Err(LoadError::BadCategories));
    assert_eq!(rl.load(&chars, &cats(&[("A", 1), ("B", 0)]), &[], &[], &[]), Err(LoadError::BadCategories));
    assert!(!offsets_ok(&cats(&[("A", 1), ("B", 0)]), 2));
    assert!(offsets_ok(&cats(&[("A", 0), ("B", 2)]), 2));
    assert_eq!(rl.get_len(), 0);
}

#[test]
fn move_last_to_front() {
    let mut rl = catalog_with_categories(&["A", "B", "C"]);
    assert_eq!(rl.move_categories(vec![2], vec![0]), Ok(()));
    assert_eq!(names(&rl.get_char_tree()), vec!["C", "A", "B"]);
}

#[test]
fn move_two_to_same_position() {
    let mut rl = catalog_with_categories(&["A", "B", "C", "D"]);
    assert_eq!(rl.move_categories(vec![0, 1], vec![2, 2]), Ok(()));
    // A and B leave ([C, D]); A goes in at 2 ([C, D, A]), then B at 2.
    assert_eq!(names(&rl.get_char_tree()), vec!["C", "D", "B", "A"]);
    assert_eq!(rl.get_len(), 4);
}

#[test]
fn move_out_of_range_is_refused() {
    let mut rl = catalog_with_categories(&["A", "B", "C"]);
    assert_eq!(rl.move_categories(vec![3], vec![0]), Err(MoveError::IndexOutOfRange));
    assert_eq!(rl.move_categories(vec![0], vec![3]), Err(MoveError::IndexOutOfRange));
    assert_eq!(rl.move_categories(vec![0, 0], vec![0, 0]), Err(MoveError::IndexOutOfRange));
    assert_eq!(rl.move_categories(vec![0], vec![]), Err(MoveError::IndexOutOfRange));
    assert_eq!(names(&rl.get_char_tree()), vec!["A", "B", "C"]);
    assert!(check_moves(3, &vec![0, 1], &vec![1, 2]));
}

#[test]
fn builders_and_accessors() {
    let mut c = Category::new();
    c.add_item(Item::new());
    assert_eq!(c.items.len(), 1);
    let mut g = GenericTree::new(2);
    g.add_item(Item::new());
    g.set_from_path(&configs(&["a", "b"]));
    assert_eq!(g.items.len(), 3);
    assert_eq!(g.items[2].name, "b");
    let mut t = CharactersTree::new();
    t.add_category(c);
    assert_eq!(t.get_category(0).items.len(), 1);
    let mut rl = RoaList::new();
    rl.add_char_tree_from_paths(&configs(&["p"]), &cats(&[("P", 0)]));
    rl.add_buddy_tree_from_paths(&configs(&["q"]));
    rl.add_skin_tree_from_paths(&configs(&["r"]));
    rl.add_stage_tree_from_paths(&configs(&["s"]));
    assert_eq!(rl.get().get_len(), 4);
    rl.cat_mut().push(Category::new());
    assert_eq!(rl.get_char_tree().categories.len(), 2);
}

#[test]
fn builders_count_items_not_categories() {
    let mut rl = RoaList::new();
    rl.add_char_tree_from_paths(&configs(&["a", "b", "c"]), &cats(&[("X", 0), ("Y", 1), ("Z", 1)]));
    rl.add_buddy_tree_from_paths(&configs(&["d", "e"]));
    rl.add_stage_tree_from_paths(&configs(&[]));
    rl.add_skin_tree_from_paths(&configs(&["f"]));
    assert_eq!(rl.get_len(), 6);
}
