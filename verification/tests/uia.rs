//! The overlay as a list.
use window_switcher::uia::{
    notify, raise_selection_events, to_uia_rect, Bounds, Element, ItemEvent, ItemProvider,
    ListProvider, Property, Rect, Selection, NAVIGATE_FIRST_CHILD, NAVIGATE_LAST_CHILD,
    NAVIGATE_NEXT_SIBLING, NAVIGATE_PARENT, NAVIGATE_PREVIOUS_SIBLING,
    UIA_AUTOMATION_FOCUS_CHANGED_EVENT_ID, UIA_CONTROL_TYPE_PROPERTY_ID,
    UIA_HAS_KEYBOARD_FOCUS_PROPERTY_ID, UIA_IS_CONTENT_ELEMENT_PROPERTY_ID,
    UIA_IS_CONTROL_ELEMENT_PROPERTY_ID, UIA_IS_KEYBOARD_FOCUSABLE_PROPERTY_ID,
    UIA_LIST_CONTROL_TYPE_ID, UIA_LIST_ITEM_CONTROL_TYPE_ID, UIA_NAME_PROPERTY_ID,
    UIA_SELECTION_ITEM_ELEMENT_SELECTED_EVENT_ID, UIA_SELECTION_ITEM_PATTERN_ID,
    UIA_SELECTION_PATTERN_ID,
};

fn rect(left: i32, top: i32, right: i32, bottom: i32) -> Rect {
    Rect { left, top, right, bottom }
}

fn list() -> ListProvider {
    let mut list = ListProvider::new(5);
    list.set_selection(Selection {
        names: vec!["mail".to_string(), "editor".to_string(), "shell".to_string()],
        rects: vec![rect(0, 0, 10, 10), rect(10, 0, 20, 10), rect(15, 0, 30, 10)],
        selected: 1,
    });
    list
}

fn item(index: usize) -> ItemProvider {
    ItemProvider { index }
}

fn flag(property: Property) -> Option<bool> {
    match property {
        Property::Flag(flag) => Some(flag),
        _ => None,
    }
}

#[test]
fn new_list_is_empty() {
    let list = ListProvider::new(5);
    assert_eq!(list.hwnd, 5);
    assert_eq!(list.count(), 0);
    assert_eq!(list.selected_item(), None);
    assert_eq!(list.get_focus(), None);
    assert_eq!(list.navigate(NAVIGATE_FIRST_CHILD), None);
    assert_eq!(list.navigate(NAVIGATE_LAST_CHILD), None);
    assert_eq!(list.element_provider_from_point(0, 0), None);
    assert!(raise_selection_events(&list).is_empty());
}

#[test]
fn default_selection_is_empty() {
    let selection = Selection::default();
    assert!(selection.names.is_empty());
    assert!(selection.rects.is_empty());
    assert_eq!(selection.selected, 0);
}

#[test]
fn items_are_made_on_demand() {
    let list = list();
    assert_eq!(list.count(), 3);
    assert_eq!(list.item(2), Some(item(2)));
    assert_eq!(list.item(3), None);
    assert_eq!(list.selected_item(), Some(item(1)));
    assert_eq!(list.get_focus(), Some(item(1)));
}

#[test]
fn selection_out_of_range_selects_nothing() {
    let mut list = list();
    list.set_selected_index(3);
    assert_eq!(list.selected_item(), None);
    let notification = notify(&list, "nobody");
    assert_eq!(notification.target, Element::Root);
    assert_eq!(notification.text, "nobody");
}

#[test]
fn clearing_shows_nothing() {
    let mut list = list();
    list.clear();
    assert_eq!(list.count(), 0);
    assert_eq!(list.hwnd, 5);
    assert!(list.selection.rects.is_empty());
    assert_eq!(list.selection.selected, 0);
}

#[test]
fn children_of_the_list() {
    let list = list();
    assert_eq!(list.navigate(NAVIGATE_FIRST_CHILD), Some(item(0)));
    assert_eq!(list.navigate(NAVIGATE_LAST_CHILD), Some(item(2)));
    assert_eq!(list.navigate(NAVIGATE_PARENT), None);
    assert_eq!(list.navigate(NAVIGATE_NEXT_SIBLING), None);
}

#[test]
fn walking_meets_every_item_and_leads_back() {
    let list = list();
    let mut met = vec![];
    let mut at = list.navigate(NAVIGATE_FIRST_CHILD);
    while let Some(here) = at {
        met.push(here.index);
        at = match here.navigate(&list, NAVIGATE_NEXT_SIBLING) {
            Some(Element::Item(next)) => {
                assert_eq!(
                    next.navigate(&list, NAVIGATE_PREVIOUS_SIBLING),
                    Some(Element::Item(here))
                );
                Some(next)
            }
            _ => None,
        };
    }
    assert_eq!(met, vec![0, 1, 2]);
    assert_eq!(item(0).navigate(&list, NAVIGATE_PREVIOUS_SIBLING), None);
    assert_eq!(item(1).navigate(&list, NAVIGATE_PARENT), Some(Element::Root));
    assert_eq!(item(1).navigate(&list, NAVIGATE_FIRST_CHILD), None);
    assert_eq!(item(usize::MAX).navigate(&list, NAVIGATE_NEXT_SIBLING), None);
}

#[test]
fn first_rectangle_under_the_point_is_hit() {
    let list = list();
    assert_eq!(list.element_provider_from_point(0, 0), Some(item(0)));
    assert_eq!(list.element_provider_from_point(9, 9), Some(item(0)));
    assert_eq!(list.element_provider_from_point(10, 0), Some(item(1)));
    // The second and the third overlap here.
    assert_eq!(list.element_provider_from_point(17, 5), Some(item(1)));
    assert_eq!(list.element_provider_from_point(20, 5), Some(item(2)));
    assert_eq!(list.element_provider_from_point(5, 10), None);
    assert_eq!(list.element_provider_from_point(-1, 0), None);
}

#[test]
fn rectangle_without_an_item_hits_nothing() {
    let mut list = list();
    list.set_selection(Selection {
        names: vec!["mail".to_string()],
        rects: vec![rect(0, 0, 1, 1), rect(1, 0, 2, 1)],
        selected: 0,
    });
    assert_eq!(list.element_provider_from_point(1, 0), None);
}

#[test]
fn patterns() {
    let list = list();
    assert!(list.get_pattern_provider(UIA_SELECTION_PATTERN_ID));
    assert!(!list.get_pattern_provider(UIA_SELECTION_ITEM_PATTERN_ID));
    assert!(item(0).get_pattern_provider(UIA_SELECTION_ITEM_PATTERN_ID));
    assert!(!item(0).get_pattern_provider(UIA_SELECTION_PATTERN_ID));
}

#[test]
fn properties_of_the_list() {
    let list = list();
    assert!(matches!(
        list.get_property_value(UIA_CONTROL_TYPE_PROPERTY_ID),
        Property::ControlType(UIA_LIST_CONTROL_TYPE_ID)
    ));
    assert!(matches!(
        list.get_property_value(UIA_NAME_PROPERTY_ID),
        Property::Name(name) if name.is_empty()
    ));
    assert_eq!(flag(list.get_property_value(UIA_IS_CONTROL_ELEMENT_PROPERTY_ID)), Some(true));
    assert_eq!(flag(list.get_property_value(UIA_IS_CONTENT_ELEMENT_PROPERTY_ID)), Some(true));
    assert_eq!(flag(list.get_property_value(UIA_IS_KEYBOARD_FOCUSABLE_PROPERTY_ID)), Some(true));
    assert!(matches!(
        list.get_property_value(UIA_HAS_KEYBOARD_FOCUS_PROPERTY_ID),
        Property::NotSupported
    ));
}

#[test]
fn properties_of_an_item() {
    let list = list();
    assert!(matches!(
        item(0).get_property_value(&list, UIA_CONTROL_TYPE_PROPERTY_ID),
        Property::ControlType(UIA_LIST_ITEM_CONTROL_TYPE_ID)
    ));
    assert!(matches!(
        item(2).get_property_value(&list, UIA_NAME_PROPERTY_ID),
        Property::Name(name) if name == "shell"
    ));
    assert!(matches!(
        item(9).get_property_value(&list, UIA_NAME_PROPERTY_ID),
        Property::Name(name) if name.is_empty()
    ));
    assert_eq!(
        flag(item(1).get_property_value(&list, UIA_HAS_KEYBOARD_FOCUS_PROPERTY_ID)),
        Some(true)
    );
    assert_eq!(
        flag(item(0).get_property_value(&list, UIA_HAS_KEYBOARD_FOCUS_PROPERTY_ID)),
        Some(false)
    );
    assert_eq!(
        flag(item(0).get_property_value(&list, UIA_IS_KEYBOARD_FOCUSABLE_PROPERTY_ID)),
        Some(true)
    );
    assert_eq!(
        flag(item(0).get_property_value(&list, UIA_IS_CONTROL_ELEMENT_PROPERTY_ID)),
        Some(true)
    );
    assert_eq!(
        flag(item(0).get_property_value(&list, UIA_IS_CONTENT_ELEMENT_PROPERTY_ID)),
        Some(true)
    );
    assert!(matches!(item(0).get_property_value(&list, 12345), Property::NotSupported));
}

#[test]
fn selecting_moves_the_focus() {
    let mut list = list();
    item(2).select(&mut list);
    assert!(item(2).is_selected(&list));
    assert!(!item(1).is_selected(&list));
    assert_eq!(list.get_focus(), Some(item(2)));
    assert_eq!(item(2).name(&list), "shell");
}

#[test]
fn runtime_ids_tell_items_apart() {
    assert_eq!(item(0).get_runtime_id(), vec![3, 0]);
    assert_eq!(item(7).get_runtime_id(), vec![3, 7]);
}

#[test]
fn bounds_of_items() {
    let list = list();
    assert_eq!(item(2).bounding_rectangle(&list), rect(15, 0, 30, 10));
    assert_eq!(item(3).bounding_rectangle(&list), rect(0, 0, 0, 0));
    assert_eq!(
        to_uia_rect(&rect(-5, 2, 10, 9)),
        Bounds { left: -5, top: 2, width: 15, height: 7 }
    );
}

#[test]
fn both_selection_events_are_raised() {
    let list = list();
    assert_eq!(
        raise_selection_events(&list),
        vec![
            ItemEvent { item: item(1), event_id: UIA_AUTOMATION_FOCUS_CHANGED_EVENT_ID },
            ItemEvent { item: item(1), event_id: UIA_SELECTION_ITEM_ELEMENT_SELECTED_EVENT_ID },
        ]
    );
}

#[test]
fn notification_is_about_the_selected_item() {
    let notification = notify(&list(), "editor, 2 of 3");
    assert_eq!(notification.target, Element::Item(item(1)));
    assert_eq!(notification.text, "editor, 2 of 3");
}
