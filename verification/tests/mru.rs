//! The MRU helpers.
use window_switcher::mru::{most_recent_index, order_by_mru, promote, retain_present};

#[test]
fn promote_moves_to_front_without_duplicating() {
    let mut mru = vec!["a", "b", "c"];
    promote(&mut mru, "c");
    assert_eq!(mru, vec!["c", "a", "b"]);
    // Promoting an item already at the front is a no-op in effect.
    promote(&mut mru, "c");
    assert_eq!(mru, vec!["c", "a", "b"]);
    // Promoting a brand-new item adds it at the front.
    promote(&mut mru, "z");
    assert_eq!(mru, vec!["z", "c", "a", "b"]);
}

#[test]
fn retain_present_drops_closed_entries() {
    let mut mru = vec![1, 2, 3, 4];
    retain_present(&mut mru, &[3, 1]);
    // Order among survivors is preserved.
    assert_eq!(mru, vec![1, 3]);
}

#[test]
fn order_by_mru_keeps_known_first_then_appends_new() {
    // b, a are known (b most recent); c, d are freshly seen.
    let mru = vec!["b", "a"];
    let present = vec!["a", "b", "c", "d"];
    assert_eq!(order_by_mru(&mru, &present), vec!["b", "a", "c", "d"]);
}

#[test]
fn order_by_mru_prunes_closed_apps() {
    // "x" is in the MRU but no longer present, so it is dropped.
    let mru = vec!["x", "a"];
    let present = vec!["a", "b"];
    assert_eq!(order_by_mru(&mru, &present), vec!["a", "b"]);
}

#[test]
fn most_recent_index_picks_the_freshest_candidate() {
    // Window MRU: 30 is most recent, then 10, then 20.
    let mru = vec![30, 10, 20];
    // App owns windows 10 and 20; 20 comes first in the app's own list.
    let candidates = vec![20, 10];
    // 10 is more recent than 20 in the MRU, so its index (1) wins.
    assert_eq!(most_recent_index(&mru, &candidates), Some(1));
}

#[test]
fn most_recent_index_returns_none_when_no_history() {
    let mru: Vec<isize> = vec![99];
    let candidates = vec![1, 2, 3];
    assert_eq!(most_recent_index(&mru, &candidates), None);
}

#[test]
fn promote_removes_every_occurrence() {
    let mut mru = vec![7, 1, 7, 2, 7];
    promote(&mut mru, 7);
    assert_eq!(mru, vec![7, 1, 2]);
}

#[test]
fn promote_into_an_empty_list() {
    let mut mru: Vec<String> = vec![];
    promote(&mut mru, "a".to_string());
    assert_eq!(mru, vec!["a"]);
}

#[test]
fn promote_loses_nothing_else() {
    let mut mru = vec![1, 2, 3];
    promote(&mut mru, 2);
    assert_eq!(mru, vec![2, 1, 3]);
    promote(&mut mru, 2);
    assert_eq!(mru, vec![2, 1, 3]);
}

#[test]
fn retain_present_forgets_everything_when_nothing_is_open() {
    let mut mru = vec![1, 2];
    retain_present(&mut mru, &[]);
    assert!(mru.is_empty());
}

#[test]
fn retain_present_twice_is_once() {
    let mut mru = vec![4, 3, 2, 1];
    retain_present(&mut mru, &[1, 4, 9]);
    assert_eq!(mru, vec![4, 1]);
    retain_present(&mut mru, &[1, 4, 9]);
    assert_eq!(mru, vec![4, 1]);
}

#[test]
fn order_by_mru_lists_a_newcomer_once() {
    let present = vec![5, 5, 6, 5];
    assert_eq!(order_by_mru(&[6], &present), vec![6, 5]);
}

#[test]
fn order_by_mru_is_an_mru_list() {
    let present = vec!["a", "b", "c"];
    let order = order_by_mru(&["c", "gone"], &present);
    assert_eq!(order, vec!["c", "a", "b"]);
    assert_eq!(order_by_mru(&order, &present), order);
}

#[test]
fn order_by_mru_of_nothing() {
    assert_eq!(order_by_mru(&[1, 2], &[]), Vec::<i32>::new());
}

#[test]
fn most_recent_index_finds_the_first_of_equal_candidates() {
    assert_eq!(most_recent_index(&[3, 1], &[1, 1]), Some(0));
    assert_eq!(most_recent_index(&[], &[1]), None);
    assert_eq!(most_recent_index(&[1], &[]), None);
}

/// A name whose letter case does not count.
#[derive(Clone, Debug)]
struct Name(&'static str);

impl PartialEq for Name {
    fn eq(&self, other: &Name) -> bool {
        self.0.eq_ignore_ascii_case(other.0)
    }
}

fn spelled(names: &[Name]) -> Vec<&'static str> {
    names.iter().map(|name| name.0).collect()
}

#[test]
fn promoted_item_comes_first_in_the_next_order() {
    let mut mru = vec!["c", "a", "gone"];
    let present = vec!["a", "b", "c", "d"];
    assert_eq!(order_by_mru(&mru, &present), vec!["c", "a", "b", "d"]);
    promote(&mut mru, "b");
    assert_eq!(order_by_mru(&mru, &present), vec!["b", "c", "a", "d"]);
    promote(&mut mru, "a");
    assert_eq!(order_by_mru(&mru, &present), vec!["a", "b", "c", "d"]);
}

#[test]
fn equal_names_need_not_be_spelled_alike() {
    let mut mru = vec![Name("Mail"), Name("EDITOR"), Name("gone")];
    let present = vec![Name("editor"), Name("shell"), Name("MAIL"), Name("Shell")];
    assert_eq!(spelled(&order_by_mru(&mru, &present)), vec!["Mail", "EDITOR", "shell"]);
    promote(&mut mru, Name("SHELL"));
    assert_eq!(spelled(&order_by_mru(&mru, &present)), vec!["SHELL", "Mail", "EDITOR"]);
    promote(&mut mru, Name("editor"));
    assert_eq!(spelled(&mru), vec!["editor", "SHELL", "Mail", "gone"]);
    retain_present(&mut mru, &present);
    assert_eq!(spelled(&mru), vec!["editor", "SHELL", "Mail"]);
    assert_eq!(spelled(&order_by_mru(&mru, &present)), vec!["editor", "SHELL", "Mail"]);
}

#[test]
fn what_does_not_equal_itself_is_added_each_time() {
    let mut mru = vec![1.0];
    promote(&mut mru, f64::NAN);
    promote(&mut mru, f64::NAN);
    assert_eq!(mru.len(), 3);
    assert!(mru[0].is_nan() && mru[1].is_nan());
    promote(&mut mru, 1.0);
    promote(&mut mru, 1.0);
    assert_eq!(mru.len(), 3);
}
