//! Context menus as plain values.

use vstd::prelude::*;

verus! {

/// One entry of a menu, known by what choosing it reports. A separator reports
/// nothing and has no label.
#[derive(Clone, Copy, Debug)]
pub struct MenuItem {
    pub id: i32,
    pub label: &'static str,
    pub checked: bool,
}

#[verifier::ext_equal]
pub struct MenuView {
    pub id: i32,
    pub label: Seq<char>,
    pub checked: bool,
}

impl View for MenuItem {
    type V = MenuView;

    open spec fn view(&self) -> MenuView {
        MenuView { id: self.id, label: self.label@, checked: self.checked }
    }
}

pub open spec fn menu_views(items: Seq<MenuItem>) -> Seq<MenuView> {
    Seq::new(items.len(), |i: int| items[i]@)
}

pub open spec fn entry(id: i32, label: Seq<char>) -> MenuView {
    MenuView { id, label, checked: false }
}

pub open spec fn ticked(id: i32, label: Seq<char>, checked: bool) -> MenuView {
    MenuView { id, label, checked }
}

pub open spec fn line() -> MenuView {
    MenuView { id: 0, label: ""@, checked: false }
}

pub fn item(id: i32, label: &'static str) -> (r: MenuItem)
    ensures
        r@ == entry(id, label@),
{
    MenuItem { id, label, checked: false }
}

pub fn tick(id: i32, label: &'static str, checked: bool) -> (r: MenuItem)
    ensures
        r@ == ticked(id, label@, checked),
{
    MenuItem { id, label, checked }
}

pub fn separator() -> (r: MenuItem)
    ensures
        r@ == line(),
{
    MenuItem { id: 0, label: "", checked: false }
}

} // verus!
