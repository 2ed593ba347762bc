//! The overlay as assistive technology sees it: a list with one item per app.
//!
//! The list holds plain data. Items are made on demand from their position, so a
//! client can walk the list, ask for names and places, and move the selection.
use crate::text::texts;
use vstd::prelude::*;

verus! {

pub const UIA_CONTROL_TYPE_PROPERTY_ID: i32 = 30003;

pub const UIA_NAME_PROPERTY_ID: i32 = 30005;

pub const UIA_HAS_KEYBOARD_FOCUS_PROPERTY_ID: i32 = 30008;

pub const UIA_IS_KEYBOARD_FOCUSABLE_PROPERTY_ID: i32 = 30009;

pub const UIA_IS_CONTROL_ELEMENT_PROPERTY_ID: i32 = 30016;

pub const UIA_IS_CONTENT_ELEMENT_PROPERTY_ID: i32 = 30017;

pub const UIA_LIST_CONTROL_TYPE_ID: i32 = 50008;

pub const UIA_LIST_ITEM_CONTROL_TYPE_ID: i32 = 50007;

pub const UIA_SELECTION_PATTERN_ID: i32 = 10001;

pub const UIA_SELECTION_ITEM_PATTERN_ID: i32 = 10010;

pub const UIA_AUTOMATION_FOCUS_CHANGED_EVENT_ID: i32 = 20005;

pub const UIA_SELECTION_ITEM_ELEMENT_SELECTED_EVENT_ID: i32 = 20012;

/// First part of a runtime id that is completed by the id of the window.
pub const UIA_APPEND_RUNTIME_ID: i32 = 3;

pub const NAVIGATE_PARENT: i32 = 0;

pub const NAVIGATE_NEXT_SIBLING: i32 = 1;

pub const NAVIGATE_PREVIOUS_SIBLING: i32 = 2;

pub const NAVIGATE_FIRST_CHILD: i32 = 3;

pub const NAVIGATE_LAST_CHILD: i32 = 4;

/// A rectangle on the screen; its right and bottom edges are outside of it.
#[derive(Clone, Copy, Debug, PartialEq, Eq, Structural)]
pub struct Rect {
    pub left: i32,
    pub top: i32,
    pub right: i32,
    pub bottom: i32,
}

/// A rectangle by its corner and size.
#[derive(Clone, Copy, Debug, PartialEq, Eq, Structural)]
pub struct Bounds {
    pub left: i32,
    pub top: i32,
    pub width: i32,
    pub height: i32,
}

impl Rect {
    /// The point is inside the rectangle.
    pub open spec fn covers(self, x: i32, y: i32) -> bool {
        self.left <= x < self.right && self.top <= y < self.bottom
    }
}

/// The rectangle at the origin that has no extent.
pub open spec fn no_rect() -> Rect {
    Rect { left: 0, top: 0, right: 0, bottom: 0 }
}

/// Gives a rectangle by its corner and size.
pub fn to_uia_rect(rect: &Rect) -> (bounds: Bounds)
    requires
        i32::MIN <= rect.right - rect.left <= i32::MAX,
        i32::MIN <= rect.bottom - rect.top <= i32::MAX,
    ensures
        bounds.left == rect.left,
        bounds.top == rect.top,
        bounds.width == rect.right - rect.left,
        bounds.height == rect.bottom - rect.top,
{
    Bounds {
        left: rect.left,
        top: rect.top,
        width: rect.right - rect.left,
        height: rect.bottom - rect.top,
    }
}

/// What the overlay currently shows: one entry per app, plus which is selected.
pub struct Selection {
    /// Accessible name of each item, in the order they are drawn.
    pub names: Vec<String>,
    /// Screen rectangle of each item, parallel to `names`.
    pub rects: Vec<Rect>,
    pub selected: usize,
}

/// What a `Selection` says.
pub struct SelectionModel {
    pub names: Seq<Seq<char>>,
    pub rects: Seq<Rect>,
    pub selected: usize,
}

impl View for Selection {
    type V = SelectionModel;

    open spec fn view(&self) -> SelectionModel {
        SelectionModel {
            names: texts(self.names@),
            rects: self.rects@,
            selected: self.selected,
        }
    }
}

/// Nothing is shown.
pub open spec fn no_selection() -> SelectionModel {
    SelectionModel { names: Seq::empty(), rects: Seq::empty(), selected: 0 }
}

impl Default for Selection {
    fn default() -> (selection: Self)
        ensures
            selection@ == no_selection(),
    {
        let selection = Selection { names: Vec::new(), rects: Vec::new(), selected: 0 };
        assert(selection@.names =~= Seq::<Seq<char>>::empty());
        selection
    }
}

/// The list.
pub struct ListProvider {
    /// Handle of the overlay's window.
    pub hwnd: isize,
    pub selection: Selection,
}

/// What a `ListProvider` says.
pub struct ListModel {
    pub hwnd: isize,
    pub selection: SelectionModel,
}

impl View for ListProvider {
    type V = ListModel;

    open spec fn view(&self) -> ListModel {
        ListModel { hwnd: self.hwnd, selection: self.selection@ }
    }
}

/// An item of the list, by its position.
#[derive(Clone, Copy, Debug, PartialEq, Eq, Structural)]
pub struct ItemProvider {
    pub index: usize,
}

/// An element of the list: the list itself or one of its items.
#[derive(Clone, Copy, Debug, PartialEq, Eq, Structural)]
pub enum Element {
    Root,
    Item(ItemProvider),
}

/// The answer to a question for a property.
pub enum Property {
    ControlType(i32),
    Name(String),
    Flag(bool),
    /// The element does not have the property. This is not the same as an empty
    /// value, which a client would take for a real answer.
    NotSupported,
}

/// What a `Property` says.
pub enum PropertyModel {
    ControlType(i32),
    Name(Seq<char>),
    Flag(bool),
    NotSupported,
}

impl View for Property {
    type V = PropertyModel;

    open spec fn view(&self) -> PropertyModel {
        match *self {
            Property::ControlType(id) => PropertyModel::ControlType(id),
            Property::Name(name) => PropertyModel::Name(name@),
            Property::Flag(flag) => PropertyModel::Flag(flag),
            Property::NotSupported => PropertyModel::NotSupported,
        }
    }
}

/// An event to raise on an item.
#[derive(Clone, Copy, Debug, PartialEq, Eq, Structural)]
pub struct ItemEvent {
    pub item: ItemProvider,
    pub event_id: i32,
}

/// Text to be spoken, and the element it is about.
pub struct Notification {
    pub target: Element,
    pub text: String,
}

/// The item at `index`, if the list has one there.
pub open spec fn item_at(list: ListModel, index: int) -> Option<ItemProvider> {
    if 0 <= index < list.selection.names.len() {
        Some(ItemProvider { index: index as usize })
    } else {
        None
    }
}

/// The item that is selected, if the list has one there.
pub open spec fn selected_item_of(list: ListModel) -> Option<ItemProvider> {
    item_at(list, list.selection.selected as int)
}

/// Where a step from the list itself leads. The parent is left to the window.
pub open spec fn navigated_from_root(list: ListModel, direction: i32) -> Option<ItemProvider> {
    if direction == NAVIGATE_FIRST_CHILD {
        item_at(list, 0)
    } else if direction == NAVIGATE_LAST_CHILD {
        item_at(list, list.selection.names.len() - 1)
    } else {
        None
    }
}

/// Where a step from an item leads.
pub open spec fn navigated_from_item(
    list: ListModel,
    item: ItemProvider,
    direction: i32,
) -> Option<Element> {
    if direction == NAVIGATE_PARENT {
        Some(Element::Root)
    } else {
        let neighbour = if direction == NAVIGATE_NEXT_SIBLING {
            item_at(list, item.index + 1)
        } else if direction == NAVIGATE_PREVIOUS_SIBLING {
            item_at(list, item.index - 1)
        } else {
            None
        };
        match neighbour {
            Some(other) => Some(Element::Item(other)),
            None => None,
        }
    }
}

/// The item drawn at a point: that of the first rectangle that covers it.
pub open spec fn item_under(list: ListModel, x: i32, y: i32, found: Option<ItemProvider>) -> bool {
    let rects = list.selection.rects;
    ||| exists|i: int|
        {
            &&& 0 <= i < rects.len()
            &&& (#[trigger] rects[i]).covers(x, y)
            &&& forall|j: int| 0 <= j < i ==> !(#[trigger] rects[j]).covers(x, y)
            &&& found == item_at(list, i)
        }
    ||| found is None && forall|i: int| 0 <= i < rects.len() ==> !(#[trigger] rects[i]).covers(x, y)
}

/// The item's name; empty when the list has no such item.
pub open spec fn name_of(list: ListModel, item: ItemProvider) -> Seq<char> {
    if item.index < list.selection.names.len() {
        list.selection.names[item.index as int]
    } else {
        Seq::empty()
    }
}

/// What the list answers to a question for a property.
///
/// It has no name: a screen reader would say it before every switch.
pub open spec fn root_property(property_id: i32) -> PropertyModel {
    if property_id == UIA_CONTROL_TYPE_PROPERTY_ID {
        PropertyModel::ControlType(UIA_LIST_CONTROL_TYPE_ID)
    } else if property_id == UIA_NAME_PROPERTY_ID {
        PropertyModel::Name(Seq::empty())
    } else if property_id == UIA_IS_CONTROL_ELEMENT_PROPERTY_ID || property_id
        == UIA_IS_CONTENT_ELEMENT_PROPERTY_ID || property_id
        == UIA_IS_KEYBOARD_FOCUSABLE_PROPERTY_ID {
        PropertyModel::Flag(true)
    } else {
        PropertyModel::NotSupported
    }
}

/// What an item answers to a question for a property.
pub open spec fn item_property(
    list: ListModel,
    item: ItemProvider,
    property_id: i32,
) -> PropertyModel {
    if property_id == UIA_CONTROL_TYPE_PROPERTY_ID {
        PropertyModel::ControlType(UIA_LIST_ITEM_CONTROL_TYPE_ID)
    } else if property_id == UIA_NAME_PROPERTY_ID {
        PropertyModel::Name(name_of(list, item))
    } else if property_id == UIA_IS_CONTROL_ELEMENT_PROPERTY_ID || property_id
        == UIA_IS_CONTENT_ELEMENT_PROPERTY_ID || property_id
        == UIA_IS_KEYBOARD_FOCUSABLE_PROPERTY_ID {
        PropertyModel::Flag(true)
    } else if property_id == UIA_HAS_KEYBOARD_FOCUS_PROPERTY_ID {
        PropertyModel::Flag(list.selection.selected == item.index)
    } else {
        PropertyModel::NotSupported
    }
}

impl ListProvider {
    pub fn new(hwnd: isize) -> (list: Self)
        ensures
            list@ == (ListModel { hwnd, selection: no_selection() }),
    {
        ListProvider { hwnd, selection: Selection::default() }
    }

    /// Describes the whole list anew.
    pub fn set_selection(&mut self, selection: Selection)
        ensures
            final(self)@ == (ListModel { selection: selection@, ..old(self)@ }),
    {
        self.selection = selection;
    }

    /// Moves the selection.
    pub fn set_selected_index(&mut self, index: usize)
        ensures
            final(self)@ == (ListModel {
                selection: SelectionModel { selected: index, ..old(self)@.selection },
                ..old(self)@
            }),
    {
        self.selection.selected = index;
    }

    /// Stops showing anything.
    pub fn clear(&mut self)
        ensures
            final(self)@ == (ListModel { selection: no_selection(), ..old(self)@ }),
    {
        self.selection = Selection::default();
    }

    /// How many items the list has.
    pub fn count(&self) -> (count: usize)
        ensures
            count == self@.selection.names.len(),
    {
        self.selection.names.len()
    }

    /// The item at `index`, if the list has one there.
    pub fn item(&self, index: usize) -> (item: Option<ItemProvider>)
        ensures
            item == item_at(self@, index as int),
    {
        if index >= self.count() {
            None
        } else {
            Some(ItemProvider { index })
        }
    }

    /// The item that is currently selected, which focus and selection events are
    /// about.
    pub fn selected_item(&self) -> (item: Option<ItemProvider>)
        ensures
            item == selected_item_of(self@),
    {
        self.item(self.selection.selected)
    }

    /// Whether the list offers the pattern.
    pub fn get_pattern_provider(&self, pattern_id: i32) -> (offered: bool)
        ensures
            offered == (pattern_id == UIA_SELECTION_PATTERN_ID),
    {
        pattern_id == UIA_SELECTION_PATTERN_ID
    }

    pub fn get_property_value(&self, property_id: i32) -> (value: Property)
        ensures
            value@ == root_property(property_id),
    {
        if property_id == UIA_CONTROL_TYPE_PROPERTY_ID {
            Property::ControlType(UIA_LIST_CONTROL_TYPE_ID)
        } else if property_id == UIA_NAME_PROPERTY_ID {
            Property::Name(String::new())
        } else if property_id == UIA_IS_CONTROL_ELEMENT_PROPERTY_ID || property_id
            == UIA_IS_CONTENT_ELEMENT_PROPERTY_ID || property_id
            == UIA_IS_KEYBOARD_FOCUSABLE_PROPERTY_ID {
            Property::Flag(true)
        } else {
            Property::NotSupported
        }
    }

    /// Walks from the list to one of its items.
    pub fn navigate(&self, direction: i32) -> (item: Option<ItemProvider>)
        ensures
            item == navigated_from_root(self@, direction),
    {
        if direction == NAVIGATE_FIRST_CHILD {
            self.item(0)
        } else if direction == NAVIGATE_LAST_CHILD {
            let count = self.count();
            if count == 0 {
                None
            } else {
                self.item(count - 1)
            }
        } else {
            None
        }
    }

    /// The item drawn at a point of the screen.
    pub fn element_provider_from_point(&self, x: i32, y: i32) -> (item: Option<ItemProvider>)
        ensures
            item_under(self@, x, y, item),
    {
        let rects = &self.selection.rects;
        let mut i: usize = 0;
        while i < rects.len()
            invariant
                i <= rects@.len(),
                rects@ == self@.selection.rects,
                forall|j: int| 0 <= j < i ==> !(#[trigger] rects@[j]).covers(x, y),
            decreases rects@.len() - i,
        {
            let rect = rects[i];
            if x >= rect.left && x < rect.right && y >= rect.top && y < rect.bottom {
                return self.item(i);
            }
            i += 1;
        }
        None
    }

    /// The item that has the focus.
    pub fn get_focus(&self) -> (item: Option<ItemProvider>)
        ensures
            item == selected_item_of(self@),
    {
        self.item(self.selection.selected)
    }
}

impl ItemProvider {
    pub fn name(&self, root: &ListProvider) -> (name: String)
        ensures
            name@ == name_of(root@, *self),
            self.index < root.selection.names@.len() ==> name@
                == root.selection.names@[self.index as int]@,
            self.index >= root.selection.names@.len() ==> name@.len() == 0,
    {
        if self.index < root.selection.names.len() {
            root.selection.names[self.index].clone()
        } else {
            String::new()
        }
    }

    pub fn is_selected(&self, root: &ListProvider) -> (selected: bool)
        ensures
            selected == (root@.selection.selected == self.index),
    {
        root.selection.selected == self.index
    }

    /// Whether an item offers the pattern.
    pub fn get_pattern_provider(&self, pattern_id: i32) -> (offered: bool)
        ensures
            offered == (pattern_id == UIA_SELECTION_ITEM_PATTERN_ID),
    {
        pattern_id == UIA_SELECTION_ITEM_PATTERN_ID
    }

    pub fn get_property_value(&self, root: &ListProvider, property_id: i32) -> (value: Property)
        ensures
            value@ == item_property(root@, *self, property_id),
            property_id == UIA_NAME_PROPERTY_ID && self.index < root.selection.names@.len() ==> {
                &&& value matches Property::Name(name)
                &&& name@ == root.selection.names@[self.index as int]@
            },
            property_id == UIA_HAS_KEYBOARD_FOCUS_PROPERTY_ID ==> {
                &&& value matches Property::Flag(focused)
                &&& focused == (self.index == root.selection.selected)
            },
    {
        if property_id == UIA_CONTROL_TYPE_PROPERTY_ID {
            Property::ControlType(UIA_LIST_ITEM_CONTROL_TYPE_ID)
        } else if property_id == UIA_NAME_PROPERTY_ID {
            Property::Name(self.name(root))
        } else if property_id == UIA_IS_CONTROL_ELEMENT_PROPERTY_ID || property_id
            == UIA_IS_CONTENT_ELEMENT_PROPERTY_ID || property_id
            == UIA_IS_KEYBOARD_FOCUSABLE_PROPERTY_ID {
            Property::Flag(true)
        } else if property_id == UIA_HAS_KEYBOARD_FOCUS_PROPERTY_ID {
            Property::Flag(self.is_selected(root))
        } else {
            Property::NotSupported
        }
    }

    /// Walks from the item to its list or to a neighbour.
    pub fn navigate(&self, root: &ListProvider, direction: i32) -> (element: Option<Element>)
        ensures
            element == navigated_from_item(root@, *self, direction),
    {
        let count = root.count();
        if direction == NAVIGATE_PARENT {
            Some(Element::Root)
        } else if direction == NAVIGATE_NEXT_SIBLING && self.index < count && self.index + 1
            < count {
            Some(Element::Item(ItemProvider { index: self.index + 1 }))
        } else if direction == NAVIGATE_PREVIOUS_SIBLING && self.index > 0 {
            match root.item(self.index - 1) {
                Some(item) => Some(Element::Item(item)),
                None => None,
            }
        } else {
            None
        }
    }

    /// Tells the items of a window apart.
    pub fn get_runtime_id(&self) -> (id: Vec<i32>)
        ensures
            id@ == seq![UIA_APPEND_RUNTIME_ID, self.index as i32],
    {
        let mut id: Vec<i32> = Vec::new();
        id.push(UIA_APPEND_RUNTIME_ID);
        id.push(
            #[verifier::truncate]
            (self.index as i32),
        );
        id
    }

    /// Where the item is drawn.
    pub fn bounding_rectangle(&self, root: &ListProvider) -> (rect: Rect)
        ensures
            rect == (if self.index < root@.selection.rects.len() {
                root@.selection.rects[self.index as int]
            } else {
                no_rect()
            }),
    {
        if self.index < root.selection.rects.len() {
            root.selection.rects[self.index]
        } else {
            Rect { left: 0, top: 0, right: 0, bottom: 0 }
        }
    }

    /// Makes the item the selected one.
    pub fn select(&self, root: &mut ListProvider)
        ensures
            final(root)@ == (ListModel {
                selection: SelectionModel { selected: self.index, ..old(root)@.selection },
                ..old(root)@
            }),
    {
        root.set_selected_index(self.index);
    }
}

/// Asks for `text` to be spoken. The notification is about the selected item, or
/// about the list when nothing is selected.
pub fn notify(root: &ListProvider, text: &str) -> (notification: Notification)
    ensures
        notification.text@ == text@,
        notification.target == (match selected_item_of(root@) {
            Some(item) => Element::Item(item),
            None => Element::Root,
        }),
{
    let target = match root.selected_item() {
        Some(item) => Element::Item(item),
        None => Element::Root,
    };
    Notification { target, text: text.to_owned() }
}

/// The events that tell assistive technology that the selection moved to the
/// current item, in order.
///
/// Both are raised because screen readers differ in which they act on: some follow
/// the focus, others the selection.
pub fn raise_selection_events(root: &ListProvider) -> (events: Vec<ItemEvent>)
    ensures
        events@ == (match selected_item_of(root@) {
            Some(item) => seq![
                ItemEvent { item, event_id: UIA_AUTOMATION_FOCUS_CHANGED_EVENT_ID },
                ItemEvent { item, event_id: UIA_SELECTION_ITEM_ELEMENT_SELECTED_EVENT_ID },
            ],
            None => Seq::empty(),
        }),
{
    let mut events: Vec<ItemEvent> = Vec::new();
    if let Some(item) = root.selected_item() {
        events.push(ItemEvent { item, event_id: UIA_AUTOMATION_FOCUS_CHANGED_EVENT_ID });
        events.push(ItemEvent { item, event_id: UIA_SELECTION_ITEM_ELEMENT_SELECTED_EVENT_ID });
    }
    events
}

/// A step to a neighbour and back leads to the item it started from.
pub proof fn neighbours_lead_back(list: ListModel, item: ItemProvider, other: ItemProvider)
    requires
        item.index < list.selection.names.len() <= usize::MAX,
    ensures
        navigated_from_item(list, item, NAVIGATE_NEXT_SIBLING) == Some(Element::Item(other))
            ==> navigated_from_item(list, other, NAVIGATE_PREVIOUS_SIBLING) == Some(
            Element::Item(item),
        ),
        navigated_from_item(list, item, NAVIGATE_PREVIOUS_SIBLING) == Some(Element::Item(other))
            ==> navigated_from_item(list, other, NAVIGATE_NEXT_SIBLING) == Some(
            Element::Item(item),
        ),
{
}

/// The element that `steps` steps to the next sibling lead to, from the first child.
pub open spec fn walked(list: ListModel, steps: nat) -> Option<Element>
    decreases steps,
{
    if steps == 0 {
        match navigated_from_root(list, NAVIGATE_FIRST_CHILD) {
            Some(item) => Some(Element::Item(item)),
            None => None,
        }
    } else {
        match walked(list, (steps - 1) as nat) {
            Some(Element::Item(item)) => navigated_from_item(list, item, NAVIGATE_NEXT_SIBLING),
            _ => None,
        }
    }
}

/// Walking from the first child through the next siblings meets every item once,
/// in order, ends at the last child and goes no further.
pub proof fn walking_meets_every_item(list: ListModel, steps: nat)
    requires
        list.selection.names.len() <= usize::MAX,
    ensures
        walked(list, steps) == (match item_at(list, steps as int) {
            Some(item) => Some(Element::Item(item)),
            None => None,
        }),
        steps + 1 == list.selection.names.len() ==> walked(list, steps) == Some(
            Element::Item(navigated_from_root(list, NAVIGATE_LAST_CHILD)->0),
        ),
    decreases steps,
{
    if steps > 0 {
        walking_meets_every_item(list, (steps - 1) as nat);
    }
}

/// A list that shows nothing has no items to walk to, to focus, or to hit.
pub proof fn cleared_list_is_empty(
    hwnd: isize,
    direction: i32,
    x: i32,
    y: i32,
    found: Option<ItemProvider>,
)
    ensures
        ({
            let list = ListModel { hwnd, selection: no_selection() };
            &&& navigated_from_root(list, direction) is None
            &&& selected_item_of(list) is None
            &&& item_under(list, x, y, found) ==> found is None
        }),
{
}

/// An item that is hit is drawn where it was hit.
pub proof fn hit_item_covers_the_point(list: ListModel, x: i32, y: i32, item: ItemProvider)
    requires
        list.selection.rects.len() <= usize::MAX,
        item_under(list, x, y, Some(item)),
    ensures
        item.index < list.selection.rects.len(),
        list.selection.rects[item.index as int].covers(x, y),
{
}

/// Selecting an item selects it and no other, and gives it the focus.
pub proof fn selecting_selects_one_item(list: ListModel, item: ItemProvider, other: ItemProvider)
    requires
        item.index < list.selection.names.len(),
    ensures
        ({
            let after = ListModel {
                selection: SelectionModel { selected: item.index, ..list.selection },
                ..list
            };
            &&& selected_item_of(after) == Some(item)
            &&& item_property(after, other, UIA_HAS_KEYBOARD_FOCUS_PROPERTY_ID)
                == PropertyModel::Flag(other == item)
        }),
{
}

/// Every item is named, to whoever asks, by the name at its position; so two items with
/// different names are told apart. Beyond the list there are no names.
pub proof fn items_have_their_own_names(list: ListModel, i: int, j: int)
    requires
        0 <= i < list.selection.names.len(),
        list.selection.names.len() <= j,
        j <= usize::MAX,
    ensures
        name_of(list, ItemProvider { index: i as usize }) == list.selection.names[i],
        item_property(list, ItemProvider { index: i as usize }, 30005) == PropertyModel::Name(
            list.selection.names[i],
        ),
        name_of(list, ItemProvider { index: j as usize }).len() == 0,
{
}

/// The selected item, and no other, has the keyboard focus.
pub proof fn focus_is_where_the_selection_is(list: ListModel, item: ItemProvider)
    ensures
        item_property(list, item, 30008) == PropertyModel::Flag(
            item.index == list.selection.selected,
        ),
        list.selection.selected < list.selection.names.len() ==> selected_item_of(list) == Some(
            ItemProvider { index: list.selection.selected },
        ),
        list.selection.selected >= list.selection.names.len() ==> selected_item_of(list) is None,
{
}

/// The list is a list without a name, its items are list items; all of them are
/// controls with content that can take the focus. Nothing else is answered.
pub proof fn list_and_items_say_what_they_are(
    list: ListModel,
    item: ItemProvider,
    property_id: i32,
)
    ensures
        root_property(30003) == PropertyModel::ControlType(50008),
        item_property(list, item, 30003) == PropertyModel::ControlType(50007),
        root_property(30005) == PropertyModel::Name(Seq::empty()),
        property_id == 30016 || property_id == 30017 || property_id == 30009 ==> root_property(
            property_id,
        ) == PropertyModel::Flag(true) && item_property(list, item, property_id)
            == PropertyModel::Flag(true),
        root_property(property_id) is NotSupported <==> property_id != 30003 && property_id != 30005
            && property_id != 30016 && property_id != 30017 && property_id != 30009,
        item_property(list, item, property_id) is NotSupported <==> property_id != 30003
            && property_id != 30005 && property_id != 30016 && property_id != 30017 && property_id
            != 30009 && property_id != 30008,
{
}

/// From the list, the first (3) and the last child (4) are its ends, and there is
/// nowhere else to go.
pub proof fn children_are_the_ends_of_the_list(list: ListModel, direction: i32)
    requires
        list.selection.names.len() <= usize::MAX,
    ensures
        ({
            let len = list.selection.names.len();
            &&& len > 0 ==> navigated_from_root(list, 3) == Some(ItemProvider { index: 0 })
            &&& len > 0 ==> navigated_from_root(list, 4) == Some(
                ItemProvider { index: (len - 1) as usize },
            )
            &&& len == 0 || (direction != 3 && direction != 4) ==> navigated_from_root(
                list,
                direction,
            ) is None
        }),
{
}

/// From an item, the parent (0) is the list, the next (1) and the previous sibling (2)
/// are the items beside it, as long as there are any, and there is nowhere else to go.
pub proof fn siblings_are_the_items_beside(list: ListModel, item: ItemProvider, direction: i32)
    requires
        list.selection.names.len() <= usize::MAX,
    ensures
        ({
            let len = list.selection.names.len();
            let i = item.index as int;
            &&& navigated_from_item(list, item, 0) == Some(Element::Root)
            &&& i + 1 < len ==> navigated_from_item(list, item, 1) == Some(
                Element::Item(ItemProvider { index: (i + 1) as usize }),
            )
            &&& i + 1 >= len ==> navigated_from_item(list, item, 1) is None
            &&& 0 < i <= len ==> navigated_from_item(list, item, 2) == Some(
                Element::Item(ItemProvider { index: (i - 1) as usize }),
            )
            &&& i == 0 || i > len ==> navigated_from_item(list, item, 2) is None
            &&& direction != 0 && direction != 1 && direction != 2 ==> navigated_from_item(
                list,
                item,
                direction,
            ) is None
        }),
{
}

/// A point hits the item of the first rectangle around it. Left and top edges are in
/// the rectangle, right and bottom edges are not.
pub proof fn first_rectangle_around_the_point_is_hit(
    list: ListModel,
    x: i32,
    y: i32,
    found: Option<ItemProvider>,
    i: int,
)
    requires
        item_under(list, x, y, found),
        0 <= i < list.selection.rects.len(),
        list.selection.rects[i].left <= x < list.selection.rects[i].right,
        list.selection.rects[i].top <= y < list.selection.rects[i].bottom,
        forall|j: int|
            0 <= j < i ==> x < (#[trigger] list.selection.rects[j]).left || x
                >= list.selection.rects[j].right || y < list.selection.rects[j].top || y
                >= list.selection.rects[j].bottom,
    ensures
        i < list.selection.names.len() ==> found == Some(ItemProvider { index: i as usize }),
        i >= list.selection.names.len() ==> found is None,
{
    let rects = list.selection.rects;
    assert(rects[i].covers(x, y));
    assert forall|j: int| 0 <= j < i implies !(#[trigger] rects[j]).covers(x, y) by {
        assert(x < rects[j].left || x >= rects[j].right || y < rects[j].top || y
            >= rects[j].bottom);
    }
}

/// A point outside of all rectangles hits nothing.
pub proof fn point_outside_hits_nothing(
    list: ListModel,
    x: i32,
    y: i32,
    found: Option<ItemProvider>,
)
    requires
        item_under(list, x, y, found),
        forall|j: int|
            0 <= j < list.selection.rects.len() ==> x < (#[trigger] list.selection.rects[j]).left
                || x >= list.selection.rects[j].right || y < list.selection.rects[j].top || y
                >= list.selection.rects[j].bottom,
    ensures
        found is None,
{
    let rects = list.selection.rects;
    assert forall|j: int| 0 <= j < rects.len() implies !(#[trigger] rects[j]).covers(x, y) by {
        assert(x < rects[j].left || x >= rects[j].right || y < rects[j].top || y
            >= rects[j].bottom);
    }
}

/// The list is modelled field by field; cleared, it shows nothing.
pub proof fn list_is_modelled_field_by_field(list: ListProvider)
    ensures
        list@.hwnd == list.hwnd,
        list@.selection.names == texts(list.selection.names@),
        list@.selection.rects == list.selection.rects@,
        list@.selection.selected == list.selection.selected,
        no_selection().names.len() == 0,
        no_selection().rects.len() == 0,
        no_selection().selected == 0,
{
}

/// An answer is modelled as it is.
pub proof fn answers_are_modelled_as_they_are(property: Property)
    ensures
        property matches Property::ControlType(id) ==> property@ == PropertyModel::ControlType(id),
        property matches Property::Name(name) ==> property@ == PropertyModel::Name(name@),
        property matches Property::Flag(flag) ==> property@ == PropertyModel::Flag(flag),
        property is NotSupported ==> property@ is NotSupported,
{
}

} // verus!
