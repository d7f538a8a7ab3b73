//! The search popup: what it shows and what the keys, the mouse and the row menu
//! do to it.
//!
//! The controls themselves (the search box, the list box, the message boxes) are
//! outside. They report what happened as plain values, and what comes back says
//! what to do to them.

use vstd::prelude::*;

pub use crate::popup_layout::{edge_hit, page_rows, placed, rows_for};
use crate::clip::ClipPayload;
use crate::clip::PayloadView;
use crate::clip;
use crate::index;
use crate::item::ClipSummary;
use crate::item::SummaryView;
use crate::menu;
use crate::menu::MenuItem;
use crate::messages;
use crate::popup_layout;
use crate::ranking;
use crate::store;
use crate::store::MachineTab;
use crate::store::Store;
use crate::store::StoreView;
use crate::store::TabView;
use crate::text;
use crate::win;
use crate::win::POINT;

verus! {

/// The list stops here. Nobody reads row three hundred and one; they type another
/// word.
pub const MAX_RESULTS: usize = 300;

pub struct Popup {
    items: Vec<ClipSummary>,
    /// Which instance the list is showing. `None` is the "everything" tab.
    tab: Option<String>,
    /// The strip as last drawn.
    tabs: Vec<MachineTab>,
    /// Where a Shift+arrow extension started. Reset by any single move, so the
    /// range grows from the same place instead of from the moving caret.
    anchor: usize,
    /// Window that had the focus before the popup opened: the paste target.
    target: isize,
    visible: bool,
    /// Whether a message box of the popup's own is open. The popup hides itself
    /// the moment it loses the activation, and a box is the one thing allowed to
    /// take it.
    modal_open: bool,
}

#[verifier::ext_equal]
pub struct PopupView {
    pub items: Seq<SummaryView>,
    pub tab: Option<Seq<char>>,
    pub tabs: Seq<TabView>,
    pub anchor: nat,
    pub target: isize,
    pub visible: bool,
    pub modal_open: bool,
}

impl View for Popup {
    type V = PopupView;

    closed spec fn view(&self) -> PopupView {
        PopupView {
            items: index::row_views(self.items@),
            tab: text::opt_view(self.tab),
            tabs: store::tab_views(self.tabs@),
            anchor: self.anchor as nat,
            target: self.target,
            visible: self.visible,
            modal_open: self.modal_open,
        }
    }
}

/// What the list box and the strip need after the list was filled again.
#[derive(Clone, Copy, Debug, PartialEq, Eq, Structural)]
pub struct Refill {
    /// The row the caret and the selection go to; `None` when there is no row.
    pub newest: Option<usize>,
    /// Whether the strip has to be painted again.
    pub strip_changed: bool,
}

/// The tab to stay on: the selected one, or everything when it is gone.
pub open spec fn kept_tab(tab: Option<Seq<char>>, tabs: Seq<TabView>) -> Option<Seq<char>> {
    if exists|i: int| 0 <= i < tabs.len() && #[trigger] tabs[i].id == tab {
        tab
    } else {
        None
    }
}

/// The rows as they are listed: newest last, next to the search box.
pub open spec fn shown_rows(
    store: StoreView,
    tab: Option<Seq<char>>,
    filter: Seq<char>,
) -> Seq<SummaryView> {
    index::first_rows(
        index::listing(store.index, tab, store::needle_of(filter)),
        MAX_RESULTS as nat,
    ).reverse()
}

pub open spec fn strip_of(store: StoreView) -> Seq<TabView> {
    store::tabs_of(index::active(store.index.items), store.settings.machine_id)
}

/// The popup after its list was filled from the store.
pub open spec fn refilled(popup: PopupView, store: StoreView, filter: Seq<char>) -> PopupView {
    let tabs = strip_of(store);
    let tab = kept_tab(popup.tab, tabs);
    let items = shown_rows(store, tab, filter);
    PopupView {
        items,
        tab,
        tabs,
        anchor: if items.len() > 0 {
            (items.len() - 1) as nat
        } else {
            popup.anchor
        },
        ..popup
    }
}

fn same_id(a: &Option<String>, b: &Option<String>) -> (same: bool)
    ensures
        same == (text::opt_view(*a) == text::opt_view(*b)),
{
    match a {
        Some(x) => match b {
            Some(y) => text::same_text(x, y),
            None => false,
        },
        None => match b {
            Some(_) => false,
            None => true,
        },
    }
}

fn same_tabs(a: &Vec<MachineTab>, b: &Vec<MachineTab>) -> (same: bool)
    ensures
        same == (store::tab_views(a@) == store::tab_views(b@)),
{
    let ghost x = store::tab_views(a@);
    let ghost y = store::tab_views(b@);
    if a.len() != b.len() {
        assert(x.len() != y.len());
        return false;
    }
    let mut i: usize = 0;
    while i < a.len()
        invariant
            i <= a@.len(),
            a@.len() == b@.len(),
            x == store::tab_views(a@),
            y == store::tab_views(b@),
            forall|j: int| 0 <= j < i ==> x[j] == y[j],
        decreases a@.len() - i,
    {
        assert(x[i as int] == a@[i as int]@);
        assert(y[i as int] == b@[i as int]@);
        if !same_id(&a[i].id, &b[i].id) || !text::same_text(&a[i].label, &b[i].label) {
            return false;
        }
        assert(x[i as int] =~= y[i as int]);
        i += 1;
    }
    assert(x =~= y);
    true
}

/// The place of a tab in the strip.
pub open spec fn tab_place(tabs: Seq<TabView>, id: Option<Seq<char>>) -> int
    decreases tabs.len(),
{
    if tabs.len() == 0 || tabs[0].id == id {
        0
    } else {
        1 + tab_place(tabs.drop_first(), id)
    }
}

/// The first tab with this id; past the end of the strip when there is none.
fn find_tab(tabs: &Vec<MachineTab>, id: &Option<String>) -> (place: usize)
    ensures
        place <= tabs@.len(),
        place < tabs@.len() ==> store::tab_views(tabs@)[place as int].id == text::opt_view(*id),
        forall|j: int|
            0 <= j < place ==> #[trigger] store::tab_views(tabs@)[j].id != text::opt_view(*id),
{
    let ghost views = store::tab_views(tabs@);
    let mut i: usize = 0;
    while i < tabs.len()
        invariant
            i <= tabs@.len(),
            views == store::tab_views(tabs@),
            forall|j: int| 0 <= j < i ==> #[trigger] views[j].id != text::opt_view(*id),
        decreases tabs@.len() - i,
    {
        assert(views[i as int] == tabs@[i as int]@);
        if same_id(&tabs[i].id, id) {
            return i;
        }
        i += 1;
    }
    i
}

/// Where Ctrl+Tab goes from here: one tab on or back, round the ends. From a tab
/// that is not in the strip it counts as standing on the first.
pub open spec fn next_tab(
    tabs: Seq<TabView>,
    id: Option<Seq<char>>,
    delta: int,
) -> Option<Seq<char>> {
    let place = tab_place(tabs, id);
    let from = if place < tabs.len() {
        place
    } else {
        0
    };
    tabs[(from + delta) % (tabs.len() as int)].id
}

proof fn lemma_tab_place(tabs: Seq<TabView>, id: Option<Seq<char>>, k: int)
    requires
        0 <= k <= tabs.len(),
        k < tabs.len() ==> tabs[k].id == id,
        forall|j: int| 0 <= j < k ==> #[trigger] tabs[j].id != id,
    ensures
        tab_place(tabs, id) == k,
    decreases tabs.len(),
{
    if k > 0 {
        let rest = tabs.drop_first();
        assert(tabs[0].id != id);
        assert forall|j: int| 0 <= j < k - 1 implies #[trigger] rest[j].id != id by {
            assert(rest[j] == tabs[j + 1]);
        }
        lemma_tab_place(rest, id, k - 1);
    }
}

impl Popup {
    /// A popup that was never opened.
    pub fn new() -> (r: Popup)
        ensures
            r@ == (PopupView {
                items: Seq::empty(),
                tab: None,
                tabs: Seq::empty(),
                anchor: 0,
                target: 0,
                visible: false,
                modal_open: false,
            }),
            r.wf(),
    {
        let r = Popup {
            items: Vec::new(),
            tab: None,
            tabs: Vec::new(),
            anchor: 0,
            target: 0,
            visible: false,
            modal_open: false,
        };
        assert(r@.items =~= Seq::empty());
        assert(r@.tabs =~= Seq::empty());
        r
    }

    pub fn is_visible(&self) -> (r: bool)
        ensures
            r == self@.visible,
    {
        self.visible
    }

    /// The window to paste into; zero when there is none.
    pub fn target(&self) -> (r: isize)
        ensures
            r == self@.target,
    {
        self.target
    }

    pub fn items(&self) -> (r: &Vec<ClipSummary>)
        ensures
            index::row_views(r@) == self@.items,
    {
        &self.items
    }

    pub fn tabs(&self) -> (r: &Vec<MachineTab>)
        ensures
            store::tab_views(r@) == self@.tabs,
    {
        &self.tabs
    }

    /// Whether a tab is the lit one.
    pub fn is_active(&self, tab: &MachineTab) -> (r: bool)
        ensures
            r == (tab@.id == self@.tab),
    {
        same_id(&tab.id, &self.tab)
    }

    /// The window that had the focus before the popup took it is remembered as the
    /// paste target, unless it is the popup itself.
    pub fn show(&mut self, previous: isize, own: isize)
        ensures
            final(self)@ == (PopupView {
                target: if previous == own {
                    0
                } else {
                    previous
                },
                visible: true,
                ..old(self)@
            }),
    {
        self.target = if previous == own {
            0
        } else {
            previous
        };
        self.visible = true;
    }

    pub fn dismiss(&mut self)
        ensures
            final(self)@ == (PopupView { visible: false, ..old(self)@ }),
    {
        self.visible = false;
    }

    /// The hotkey: opens the popup, or closes it when it is open. Returns whether
    /// it is open now.
    pub fn toggle(&mut self, previous: isize, own: isize) -> (open: bool)
        ensures
            open == !old(self)@.visible,
            final(self)@ == (if old(self)@.visible {
                PopupView { visible: false, ..old(self)@ }
            } else {
                PopupView {
                    target: if previous == own {
                        0
                    } else {
                        previous
                    },
                    visible: true,
                    ..old(self)@
                }
            }),
    {
        if self.visible {
            self.dismiss();
            false
        } else {
            self.show(previous, own);
            true
        }
    }

    /// A message box of the popup's own opens or has closed.
    pub fn set_modal(&mut self, open: bool)
        ensures
            final(self)@ == (PopupView { modal_open: open, ..old(self)@ }),
    {
        self.modal_open = open;
    }

    /// Whether losing or gaining the activation hides the popup. The low word says
    /// which: zero means that the user clicked somewhere else.
    pub fn hides_on_activate(&self, wparam: usize) -> (r: bool)
        ensures
            r == (win::low_word(wparam) == 0 && !self@.modal_open),
    {
        wparam % 0x1_0000 == 0 && !self.modal_open
    }

    /// Fills the list from the store. Derived from what is there, so a database
    /// that syncs in, or one that is cleaned up, adds or removes a tab while the
    /// popup is open.
    pub fn reload(&mut self, store: &Store, filter: &str) -> (r: Refill)
        ensures
            final(self)@ == refilled(old(self)@, store@, filter@),
            r.newest == (if final(self)@.items.len() > 0 {
                Some((final(self)@.items.len() - 1) as usize)
            } else {
                None
            }),
            r.strip_changed == (final(self)@.tabs != old(self)@.tabs),
            final(self).wf(),
    {
        let tabs = store.machines();
        let place = find_tab(&tabs, &self.tab);
        let ghost views = store::tab_views(tabs@);
        if place == tabs.len() {
            self.tab = None;
        } else {
            assert(views[place as int].id == text::opt_view(self.tab));
        }
        assert(text::opt_view(self.tab) == kept_tab(old(self)@.tab, views));
        let machine: Option<&str> = match &self.tab {
            Some(id) => Some(id.as_str()),
            None => None,
        };
        let rows = store.query(machine, filter, MAX_RESULTS);
        let ghost listed = rows@;
        let rows = ranking::reversed(rows);
        assert(index::row_views(rows@) =~= index::row_views(listed).reverse());
        let strip_changed = !same_tabs(&self.tabs, &tabs);
        self.tabs = tabs;
        let count = rows.len();
        self.items = rows;
        let newest: Option<usize> = if count > 0 {
            self.anchor = count - 1;
            Some(count - 1)
        } else {
            None
        };
        assert(self@ =~= refilled(old(self)@, store@, filter@));
        Refill { newest, strip_changed }
    }

    /// Switches the list to one instance. `None` is the tab that shows everything.
    /// The list has to be filled again.
    pub fn set_tab(&mut self, id: Option<String>)
        ensures
            final(self)@ == (PopupView { tab: text::opt_view(id), ..old(self)@ }),
    {
        self.tab = id;
    }

    /// The tab that is `delta` tabs along the strip, round its ends. `None` when
    /// there are not two tabs to walk between.
    pub fn cycle_tab(&self, delta: i32) -> (r: Option<Option<String>>)
        requires
            self@.tabs.len() <= i32::MAX,
        ensures
            r is Some <==> self@.tabs.len() >= 2,
            r matches Some(id) ==> text::opt_view(id) == next_tab(
                self@.tabs,
                self@.tab,
                delta as int,
            ),
    {
        let count = self.tabs.len();
        if count < 2 {
            return None;
        }
        let found = find_tab(&self.tabs, &self.tab);
        proof {
            lemma_tab_place(self@.tabs, self@.tab, found as int);
        }
        let from: usize = if found < count {
            found
        } else {
            0
        };
        let step = remainder(from as i64 + delta as i64, count as i64);
        let next = step as usize;
        assert(self@.tabs[next as int] == self.tabs@[next as int]@);
        Some(text::copy_opt(&self.tabs[next].id))
    }

    /// The tab a click landed on, as the id to switch to. `None` when the mouse
    /// came down on the popup's own background.
    pub fn tab_click(
        &self,
        at: POINT,
        client_height: Option<i32>,
        m: &popup_layout::PopupMetrics,
    ) -> (r: Option<Option<String>>)
        requires
            popup_layout::usable(*m),
            popup_layout::tab_step(*m) > 0,
        ensures
            match r {
                Some(id) => exists|i: int|
                    0 <= i < self@.tabs.len() && #[trigger] self@.tabs[i].id == text::opt_view(id)
                        && popup_layout::in_tab(
                        i,
                        at.x as int,
                        at.y as int,
                        strip_top(client_height, *m),
                        *m,
                    ),
                None => forall|i: int|
                    0 <= i < self@.tabs.len() ==> !#[trigger] popup_layout::in_tab(
                        i,
                        at.x as int,
                        at.y as int,
                        strip_top(client_height, *m),
                        *m,
                    ),
            },
    {
        let top = popup_layout::bottom_band_top(client_height, m.tab_from_bottom);
        match popup_layout::tab_at(at.x, at.y, top, m, self.tabs.len()) {
            Some(i) => {
                assert(self@.tabs[i as int] == self.tabs@[i as int]@);
                Some(text::copy_opt(&self.tabs[i].id))
            },
            None => None,
        }
    }
}

/// The top edge of the instance strip.
pub open spec fn strip_top(client_height: Option<i32>, m: popup_layout::PopupMetrics) -> int {
    match client_height {
        Some(height) => popup_layout::max(height - m.tab_from_bottom, 0),
        None => 0,
    }
}

/// The remainder that is never negative.
fn remainder(n: i64, by: i64) -> (r: i64)
    requires
        0 < by <= i32::MAX,
        -0x1_0000_0000 <= n <= 0x1_0000_0000,
    ensures
        r == n as int % by as int,
        0 <= r < by,
{
    if n >= 0 {
        n % by
    } else {
        let lifted: i64 = n + by * 0x1_0000_0000;
        proof {
            assert(lifted >= 0) by (nonlinear_arith)
                requires
                    by >= 1,
                    n >= -0x1_0000_0000,
                    lifted == n + by * 0x1_0000_0000,
            ;
            vstd::arithmetic::div_mod::lemma_mod_multiples_vanish(
                0x1_0000_0000,
                n as int,
                by as int,
            );
        }
        lifted % by
    }
}

// -------------------------------------------------------------------- selection

/// The selection after a move: the caret, and the run of rows that is selected.
#[derive(Clone, Copy, Debug, PartialEq, Eq, Structural)]
pub struct Move {
    pub caret: usize,
    pub first: usize,
    pub last: usize,
}

/// Where the caret goes. Without a caret yet, down starts at the top and up at the
/// bottom; it stops at both ends.
pub open spec fn caret_after(current: Option<usize>, delta: int, count: nat) -> int {
    match current {
        None => if delta > 0 {
            0
        } else {
            count - 1
        },
        Some(row) => popup_layout::held_in(row + delta, 0, count - 1),
    }
}

/// The row with a stem, from the top; past the end when there is none.
pub open spec fn row_with(items: Seq<SummaryView>, stem: Seq<char>) -> int
    decreases items.len(),
{
    if items.len() == 0 || items[0].stem == stem {
        0
    } else {
        1 + row_with(items.drop_first(), stem)
    }
}

proof fn lemma_row_with(items: Seq<SummaryView>, stem: Seq<char>, k: int)
    requires
        0 <= k <= items.len(),
        k < items.len() ==> items[k].stem == stem,
        forall|j: int| 0 <= j < k ==> #[trigger] items[j].stem != stem,
    ensures
        row_with(items, stem) == k,
    decreases items.len(),
{
    if k > 0 {
        let rest = items.drop_first();
        assert(items[0].stem != stem);
        assert forall|j: int| 0 <= j < k - 1 implies #[trigger] rest[j].stem != stem by {
            assert(rest[j] == items[j + 1]);
        }
        lemma_row_with(rest, stem, k - 1);
    }
}

/// The rows of a list at some places, in the order of the places. A place that is
/// no row is passed over.
pub open spec fn rows_at(items: Seq<SummaryView>, places: Seq<usize>) -> Seq<SummaryView>
    decreases places.len(),
{
    if places.len() == 0 {
        Seq::empty()
    } else {
        let before = rows_at(items, places.drop_last());
        if places.last() < items.len() {
            before.push(items[places.last() as int])
        } else {
            before
        }
    }
}

/// The numbers among the first `k` that can be rows.
pub open spec fn rows_named(answers: Seq<i32>, k: int) -> Seq<usize>
    decreases k,
{
    if k <= 0 {
        Seq::empty()
    } else {
        let before = rows_named(answers, k - 1);
        if answers[k - 1] >= 0 {
            before.push(answers[k - 1] as usize)
        } else {
            before
        }
    }
}

/// What a list box answers when it is asked for its caret: negative for none.
pub fn selected_index(answer: i32) -> (r: Option<usize>)
    ensures
        r == (if answer < 0 {
            None
        } else {
            Some(answer as usize)
        }),
{
    if answer < 0 {
        None
    } else {
        Some(answer as usize)
    }
}

/// The selected rows, in list order. A multiple-selection list box reports them
/// directly: `answers` has room for as many as it said there were, and `filled` is
/// how many it then wrote. The caret is the fallback when it said none.
pub fn selected_indices(answers: &Vec<i32>, filled: usize, caret: Option<usize>) -> (r: Vec<usize>)
    ensures
        r@ == (if answers@.len() == 0 {
            match caret {
                Some(row) => seq![row],
                None => Seq::empty(),
            }
        } else {
            rows_named(answers@, popup_layout::min(filled as int, answers@.len() as int))
        }),
{
    let mut rows: Vec<usize> = Vec::new();
    if answers.len() == 0 {
        if let Some(row) = caret {
            rows.push(row);
        }
        assert(rows@ =~= (match caret {
            Some(row) => seq![row],
            None => Seq::empty(),
        }));
        return rows;
    }
    let known: usize = if filled <= answers.len() {
        filled
    } else {
        answers.len()
    };
    let mut i: usize = 0;
    while i < known
        invariant
            i <= known <= answers@.len(),
            rows@ == rows_named(answers@, i as int),
        decreases known - i,
    {
        if answers[i] >= 0 {
            rows.push(answers[i] as usize);
        }
        i += 1;
    }
    rows
}

/// Whether a row is among the selected ones. A right-click on one that is not
/// selects it first, so that the menu acts on what the user pointed at, or on the
/// whole selection when they pointed at part of one.
pub fn is_selected(rows: &Vec<usize>, row: usize) -> (r: bool)
    ensures
        r == rows@.contains(row),
{
    let mut i: usize = 0;
    while i < rows.len()
        invariant
            i <= rows@.len(),
            forall|j: int| 0 <= j < i ==> rows@[j] != row,
        decreases rows@.len() - i,
    {
        if rows[i] == row {
            return true;
        }
        i += 1;
    }
    false
}

impl Popup {
    /// The list is never longer than what was asked for, and while it has rows the
    /// anchor is one of them.
    pub open spec fn wf(&self) -> bool {
        self@.items.len() <= MAX_RESULTS && (self@.items.len() > 0 ==> self@.anchor
            < self@.items.len())
    }

    /// Moves the caret by `delta` rows. With Shift the selection extends from where
    /// the run started, not from wherever the caret has wandered to since; without
    /// it the row alone is selected and the next run starts there. `None` when
    /// there is no row.
    pub fn move_selection(&mut self, current: Option<usize>, delta: i32, shift: bool) -> (r: Option<
        Move,
    >)
        requires
            old(self).wf(),
            current matches Some(row) ==> row <= i32::MAX,
        ensures
            final(self).wf(),
            r is Some <==> old(self)@.items.len() > 0,
            r matches Some(m) ==> {
                &&& m.caret == caret_after(current, delta as int, old(self)@.items.len())
                &&& m.caret < old(self)@.items.len()
                &&& m.first == (if shift {
                    popup_layout::min(old(self)@.anchor as int, m.caret as int)
                } else {
                    m.caret as int
                })
                &&& m.last == (if shift {
                    popup_layout::max(old(self)@.anchor as int, m.caret as int)
                } else {
                    m.caret as int
                })
                &&& m.last < old(self)@.items.len()
            },
            final(self)@ == (if r is Some && !shift {
                PopupView { anchor: r->0.caret as nat, ..old(self)@ }
            } else {
                old(self)@
            }),
    {
        let count = self.items.len();
        if count == 0 {
            return None;
        }
        let last: i64 = count as i64 - 1;
        let next: i64 = match current {
            None => if delta > 0 {
                0
            } else {
                last
            },
            Some(row) => {
                let moved: i64 = row as i64 + delta as i64;
                if moved <= 0 {
                    0
                } else if moved >= last {
                    last
                } else {
                    moved
                }
            },
        };
        let caret = next as usize;
        if shift {
            let anchor = self.anchor;
            Some(
                if anchor <= caret {
                    Move { caret, first: anchor, last: caret }
                } else {
                    Move { caret, first: caret, last: anchor }
                },
            )
        } else {
            self.anchor = caret;
            Some(Move { caret, first: caret, last: caret })
        }
    }

    /// Moves the caret to one row and makes that row the selection, clamped to what
    /// is left of the list. Used after a reload has moved the rows under the user,
    /// where "back on the newest row" is not where they were looking.
    pub fn select_row(&mut self, index: usize) -> (r: Option<usize>)
        requires
            old(self).wf(),
        ensures
            final(self).wf(),
            r == (if old(self)@.items.len() == 0 {
                None
            } else {
                Some(
                    popup_layout::min(index as int, old(self)@.items.len() - 1) as usize,
                )
            }),
            final(self)@ == (match r {
                Some(row) => PopupView { anchor: row as nat, ..old(self)@ },
                None => old(self)@,
            }),
    {
        let count = self.items.len();
        if count == 0 {
            return None;
        }
        let row: usize = if index < count {
            index
        } else {
            count - 1
        };
        self.anchor = row;
        Some(row)
    }

    /// Every row is selected: the next run starts at the top.
    pub fn select_all(&mut self)
        requires
            old(self).wf(),
        ensures
            final(self).wf(),
            final(self)@ == (PopupView { anchor: 0, ..old(self)@ }),
    {
        self.anchor = 0;
    }

    /// The mouse moved the caret: a later Shift+arrow extends from there.
    pub fn follow_caret(&mut self, caret: Option<usize>)
        requires
            old(self).wf(),
        ensures
            final(self).wf(),
            final(self)@ == (match caret {
                Some(row) if row < old(self)@.items.len() => PopupView {
                    anchor: row as nat,
                    ..old(self)@
                },
                _ => old(self)@,
            }),
    {
        if let Some(row) = caret {
            if row < self.items.len() {
                self.anchor = row;
            }
        }
    }

    /// The clip the caret is on.
    pub fn selected_stem(&self, caret: Option<usize>) -> (r: Option<String>)
        ensures
            text::opt_view(r) == (match caret {
                Some(row) if row < self@.items.len() => Some(self@.items[row as int].stem),
                _ => None,
            }),
    {
        match caret {
            Some(row) => if row < self.items.len() {
                Some(self.items[row].stem.clone())
            } else {
                None
            },
            None => None,
        }
    }

    /// What pinning or unpinning the row under the caret asks for: the clip and
    /// whether it is to be pinned.
    pub fn toggle_pin(&self, caret: Option<usize>) -> (r: Option<(String, bool)>)
        ensures
            match r {
                Some((stem, pinned)) => caret matches Some(row) && row < self@.items.len()
                    && stem@ == self@.items[row as int].stem && pinned
                    == !self@.items[row as int].pinned,
                None => caret matches Some(row) ==> row >= self@.items.len(),
            },
    {
        match caret {
            Some(row) => if row < self.items.len() {
                Some((self.items[row].stem.clone(), !self.items[row].pinned))
            } else {
                None
            },
            None => None,
        }
    }

    /// The row a clip is on now. Pinning moves the row, so the caret follows the
    /// clip rather than the index.
    pub fn row_of(&self, stem: &str) -> (r: Option<usize>)
        ensures
            r == (if row_with(self@.items, stem@) < self@.items.len() {
                Some(row_with(self@.items, stem@) as usize)
            } else {
                None
            }),
    {
        let mut i: usize = 0;
        while i < self.items.len()
            invariant
                i <= self.items@.len(),
                forall|j: int| 0 <= j < i ==> #[trigger] self@.items[j].stem != stem@,
            decreases self.items@.len() - i,
        {
            assert(self@.items[i as int] == self.items@[i as int]@);
            if text::same_text(&self.items[i].stem, stem) {
                proof {
                    lemma_row_with(self@.items, stem@, i as int);
                }
                return Some(i);
            }
            i += 1;
        }
        proof {
            lemma_row_with(self@.items, stem@, i as int);
        }
        None
    }

    /// The selected rows, in list order. Copied, because every caller then fills
    /// the list again out from under them.
    pub fn selected_summaries(&self, places: &Vec<usize>) -> (r: Vec<ClipSummary>)
        ensures
            index::row_views(r@) == rows_at(self@.items, places@),
    {
        let mut rows: Vec<ClipSummary> = Vec::new();
        let mut i: usize = 0;
        assert(index::row_views(rows@) =~= rows_at(self@.items, places@.take(0)));
        while i < places.len()
            invariant
                i <= places@.len(),
                index::row_views(rows@) == rows_at(self@.items, places@.take(i as int)),
            decreases places@.len() - i,
        {
            let ghost before = rows@;
            proof {
                let upto = places@.take(i as int + 1);
                assert(upto.drop_last() =~= places@.take(i as int));
                assert(upto.last() == places@[i as int]);
            }
            if places[i] < self.items.len() {
                let row = self.items[places[i]].clone();
                rows.push(row);
                assert(index::row_views(rows@) =~= index::row_views(before).push(row@));
            }
            i += 1;
        }
        assert(places@.take(i as int) =~= places@);
        rows
    }

    /// The row under a point, from what the list box answered. The high word says
    /// that the point was not over an item, and the index in the low word is then
    /// the nearest one rather than the one under the cursor.
    pub fn row_at(&self, answer: u32) -> (r: Option<usize>)
        ensures
            r == (if answer < 0x1_0000 && answer < self@.items.len() {
                Some(answer as usize)
            } else {
                None
            }),
    {
        if answer < 0x1_0000 && (answer as usize) < self.items.len() {
            Some(answer as usize)
        } else {
            None
        }
    }

    /// The menu of a row.
    pub fn row_menu(&self, row: usize) -> (r: Vec<MenuItem>)
        requires
            row < self@.items.len(),
        ensures
            menu::menu_views(r@) == row_entries(self@.items[row as int].pinned),
    {
        let mut r: Vec<MenuItem> = Vec::new();
        r.push(menu::item(CMD_PASTE, "粘贴\tEnter"));
        r.push(menu::item(CMD_COPY, "复制\tCtrl+C"));
        if self.items[row].pinned {
            r.push(menu::item(CMD_PIN, "取消固定\tCtrl+P"));
        } else {
            r.push(menu::item(CMD_PIN, "固定\tCtrl+P"));
        }
        r.push(menu::separator());
        r.push(menu::item(CMD_DELETE, "删除\tDel"));
        r.push(menu::separator());
        r.push(menu::item(CMD_SELECT_ALL, "全选\tCtrl+A"));
        assert(menu::menu_views(r@) =~= row_entries(self@.items[row as int].pinned));
        r
    }
}

/// Whatever is selected, Shift keeps the anchor where it is, so two runs in a row
/// grow from the same row; and the caret is always one end of the run.
pub proof fn law_runs_share_an_end(anchor: nat, current: Option<usize>, delta: int, count: nat)
    requires
        count > 0,
        anchor < count,
    ensures
        0 <= caret_after(current, delta, count) < count,
        popup_layout::min(anchor as int, caret_after(current, delta, count)) <= anchor
            <= popup_layout::max(anchor as int, caret_after(current, delta, count)),
        current is Some && 0 <= current->0 + delta < count ==> caret_after(current, delta, count)
            == current->0 + delta,
{
}

/// The clip that comes first in the ranking is the last row, next to the search
/// box, and the rows above it are in the opposite order.
pub proof fn law_newest_is_the_last_row(popup: PopupView, store: StoreView, filter: Seq<char>, i: int)
    requires
        0 <= i < refilled(popup, store, filter).items.len(),
    ensures
        ({
            let after = refilled(popup, store, filter);
            let listed = index::listing(store.index, after.tab, store::needle_of(filter));
            &&& after.items.len() == popup_layout::min(listed.len() as int, 300)
            &&& after.items[after.items.len() - 1 - i] == listed[i]
            &&& after.anchor == after.items.len() - 1
        }),
{
}

// ------------------------------------------------------------------------- menu

pub const CMD_PASTE: i32 = 1;

pub const CMD_COPY: i32 = 2;

pub const CMD_PIN: i32 = 3;

pub const CMD_DELETE: i32 = 4;

pub const CMD_SELECT_ALL: i32 = 5;

pub open spec fn row_entries(pinned: bool) -> Seq<menu::MenuView> {
    seq![
        menu::entry(CMD_PASTE, "粘贴\tEnter"@),
        menu::entry(CMD_COPY, "复制\tCtrl+C"@),
        menu::entry(
            CMD_PIN,
            if pinned {
                "取消固定\tCtrl+P"@
            } else {
                "固定\tCtrl+P"@
            },
        ),
        menu::line(),
        menu::entry(CMD_DELETE, "删除\tDel"@),
        menu::line(),
        menu::entry(CMD_SELECT_ALL, "全选\tCtrl+A"@),
    ]
}

/// Where a row menu opens. The coordinates are screen coordinates, and both being
/// -1 is the keyboard invocation, which has no pointer position to open a menu at.
pub open spec fn menu_point(lparam: usize) -> Option<POINT> {
    if win::low_word(lparam) == 0xFFFF && win::high_word(lparam) == 0xFFFF {
        None
    } else {
        Some(win::point_in(lparam))
    }
}

pub fn row_menu_at(lparam: usize) -> (r: Option<POINT>)
    ensures
        r == menu_point(lparam),
{
    let at = win::packed_point(lparam);
    if at.x == -1 && at.y == -1 {
        None
    } else {
        Some(at)
    }
}

// ------------------------------------------------------------------------- keys

/// What a key, a menu choice or a notification asks the popup to do.
#[derive(Clone, Copy, Debug, PartialEq, Eq, Structural)]
pub enum Action {
    /// Not one of ours: the control handles it.
    Pass,
    Dismiss,
    /// Paste the clip under the caret where the user came from.
    Commit,
    Move(i32),
    Delete,
    TogglePin,
    Copy,
    CycleTab(i32),
    SelectAll,
    Reload,
    FollowCaret,
    ShowHelp,
}

pub const VK_TAB: i32 = 0x09;

pub const VK_RETURN: i32 = 0x0D;

pub const VK_ESCAPE: i32 = 0x1B;

pub const VK_PRIOR: i32 = 0x21;

pub const VK_NEXT: i32 = 0x22;

pub const VK_UP: i32 = 0x26;

pub const VK_DOWN: i32 = 0x28;

pub const VK_DELETE: i32 = 0x2E;

pub const VK_A: i32 = 0x41;

pub const VK_C: i32 = 0x43;

pub const VK_P: i32 = 0x50;

pub open spec fn key_action(key: i32, typing: bool, control: bool, shift: bool, page: i32) -> Action {
    if key == VK_ESCAPE {
        Action::Dismiss
    } else if key == VK_RETURN {
        Action::Commit
    } else if key == VK_UP {
        Action::Move(-1i32)
    } else if key == VK_DOWN {
        Action::Move(1)
    } else if key == VK_PRIOR {
        Action::Move((-page) as i32)
    } else if key == VK_NEXT {
        Action::Move(page)
    } else if key == VK_DELETE && !typing {
        Action::Delete
    } else if key == VK_P && control {
        Action::TogglePin
    } else if key == VK_C && control {
        Action::Copy
    } else if key == VK_TAB && control {
        Action::CycleTab(
            if shift {
                -1i32
            } else {
                1
            },
        )
    } else {
        Action::Pass
    }
}

/// Keys that mean the same thing whichever half of the widget has the focus: the
/// search box and the list are two halves of one thing, and the user should not
/// have to know which one the focus is in. Delete is the exception: `typing` says
/// that the keystroke is going into the query, where it deletes a character rather
/// than a row. Shift walks the strip backwards. `page` is what the page keys move
/// by.
pub fn handle_key(key: i32, typing: bool, control: bool, shift: bool, page: i32) -> (r: Action)
    requires
        page > i32::MIN,
    ensures
        r == key_action(key, typing, control, shift, page),
{
    if key == VK_ESCAPE {
        Action::Dismiss
    } else if key == VK_RETURN {
        Action::Commit
    } else if key == VK_UP {
        Action::Move(-1)
    } else if key == VK_DOWN {
        Action::Move(1)
    } else if key == VK_PRIOR {
        Action::Move(-page)
    } else if key == VK_NEXT {
        Action::Move(page)
    } else if key == VK_DELETE && !typing {
        Action::Delete
    } else if key == VK_P && control {
        Action::TogglePin
    } else if key == VK_C && control {
        Action::Copy
    } else if key == VK_TAB && control {
        if shift {
            Action::CycleTab(-1)
        } else {
            Action::CycleTab(1)
        }
    } else {
        Action::Pass
    }
}

/// The list's own keys. Ctrl+A is the list's alone: in a text box it means "select
/// the text", which the box already does for itself.
pub fn handle_list_key(key: i32, control: bool, shift: bool, page: i32) -> (r: Action)
    requires
        page > i32::MIN,
    ensures
        r == (if key == VK_A && control {
            Action::SelectAll
        } else {
            key_action(key, false, control, shift, page)
        }),
{
    if key == VK_A && control {
        Action::SelectAll
    } else {
        handle_key(key, false, control, shift, page)
    }
}

/// Whether a character typed into the list belongs in the search box: everything
/// but the control characters, and the backspace among those.
pub open spec fn typed(code: u32) -> bool {
    code >= 0x20 || code == 0x08
}

pub fn forwards_char(code: u32) -> (r: bool)
    ensures
        r == typed(code),
{
    code >= 0x20 || code == 0x08
}

/// What a choice from the row menu does.
pub open spec fn choice_action(chosen: i32) -> Action {
    if chosen == CMD_PASTE {
        Action::Commit
    } else if chosen == CMD_COPY {
        Action::Copy
    } else if chosen == CMD_PIN {
        Action::TogglePin
    } else if chosen == CMD_DELETE {
        Action::Delete
    } else if chosen == CMD_SELECT_ALL {
        Action::SelectAll
    } else {
        Action::Pass
    }
}

/// What a choice from the row menu does. Zero is a menu dismissed without one.
pub fn handle_choice(chosen: i32) -> (r: Action)
    ensures
        r == choice_action(chosen),
        r == (if chosen == CMD_PASTE {
            Action::Commit
        } else if chosen == CMD_COPY {
            Action::Copy
        } else if chosen == CMD_PIN {
            Action::TogglePin
        } else if chosen == CMD_DELETE {
            Action::Delete
        } else if chosen == CMD_SELECT_ALL {
            Action::SelectAll
        } else {
            Action::Pass
        }),
{
    if chosen == CMD_PASTE {
        Action::Commit
    } else if chosen == CMD_COPY {
        Action::Copy
    } else if chosen == CMD_PIN {
        Action::TogglePin
    } else if chosen == CMD_DELETE {
        Action::Delete
    } else if chosen == CMD_SELECT_ALL {
        Action::SelectAll
    } else {
        Action::Pass
    }
}

pub const ID_HELP: usize = 1;

pub const STN_CLICKED: usize = 0;

pub const LBN_SELCHANGE: usize = 1;

pub const LBN_DBLCLK: usize = 2;

pub const EN_CHANGE: usize = 0x0300;

/// What a notification of one of the controls does. The low word is the control,
/// the high word what happened to it.
pub open spec fn notified(wparam: usize) -> Action {
    if win::low_word(wparam) == ID_HELP && win::high_word(wparam) == STN_CLICKED {
        Action::ShowHelp
    } else if win::high_word(wparam) == EN_CHANGE {
        Action::Reload
    } else if win::high_word(wparam) == LBN_DBLCLK {
        Action::Commit
    } else if win::high_word(wparam) == LBN_SELCHANGE {
        Action::FollowCaret
    } else {
        Action::Pass
    }
}

pub fn handle_notification(wparam: usize) -> (r: Action)
    ensures
        r == notified(wparam),
{
    let id: usize = wparam % 0x1_0000;
    let notification: usize = wparam / 0x1_0000 % 0x1_0000;
    if id == ID_HELP && notification == STN_CLICKED {
        Action::ShowHelp
    } else if notification == EN_CHANGE {
        Action::Reload
    } else if notification == LBN_DBLCLK {
        Action::Commit
    } else if notification == LBN_SELCHANGE {
        Action::FollowCaret
    } else {
        Action::Pass
    }
}

// --------------------------------------------------------------------- messages

/// What a message to one of the popup's windows is about.
#[derive(Clone, Copy, Debug, PartialEq, Eq, Structural)]
pub enum Event {
    /// Nothing of ours: the system handles it.
    Default,
    EraseBackground,
    /// The colours of the search box, the list and the help mark.
    ColourSearch,
    ColourList,
    ColourHelp,
    DrawRow,
    /// The resize frame is real but not wanted: the client area covers the window.
    CoverFrame,
    /// The end of a move or a stretch, which are the two things about this window
    /// worth writing down.
    Settled,
    Resized { width: i32, height: i32 },
    /// The wheel is the list's wherever it is spun in the popup.
    Wheel,
    /// How small the window may get.
    SizeLimits,
    HitTest(POINT),
    Paint,
    RowMenu(Option<POINT>),
    /// A click on the popup's own background or its instance strip.
    Click(POINT),
    /// Typing belongs in the search box, whichever control it went to.
    TypeIntoSearch,
    Act(Action),
    /// The activation came or went.
    Activation,
}

/// What is held down while a message is handled, and what a page is.
#[derive(Clone, Copy, Debug, PartialEq, Eq, Structural)]
pub struct Keys {
    pub control: bool,
    pub shift: bool,
    pub page: i32,
}

pub open spec fn acting(action: Action) -> Event {
    if action == Action::Pass {
        Event::Default
    } else {
        Event::Act(action)
    }
}

/// A message to the popup itself. It can hold the keyboard too (a click on its own
/// background does that), so the keys mean the same there.
pub open spec fn window_event(message: u32, wparam: usize, lparam: usize, keys: Keys) -> Event {
    if message == messages::WM_ERASEBKGND {
        Event::EraseBackground
    } else if message == messages::WM_CTLCOLOREDIT {
        Event::ColourSearch
    } else if message == messages::WM_CTLCOLORLISTBOX {
        Event::ColourList
    } else if message == messages::WM_CTLCOLORSTATIC {
        Event::ColourHelp
    } else if message == messages::WM_DRAWITEM {
        Event::DrawRow
    } else if message == messages::WM_NCCALCSIZE && wparam != 0 {
        Event::CoverFrame
    } else if message == messages::WM_EXITSIZEMOVE {
        Event::Settled
    } else if message == messages::WM_SIZE {
        Event::Resized {
            width: win::low_word(lparam) as i32,
            height: win::high_word(lparam) as i32,
        }
    } else if message == messages::WM_MOUSEWHEEL {
        Event::Wheel
    } else if message == messages::WM_GETMINMAXINFO {
        Event::SizeLimits
    } else if message == messages::WM_NCHITTEST {
        Event::HitTest(win::point_in(lparam))
    } else if message == messages::WM_PAINT {
        Event::Paint
    } else if message == messages::WM_CONTEXTMENU {
        Event::RowMenu(menu_point(lparam))
    } else if message == messages::WM_LBUTTONDOWN {
        Event::Click(win::point_in(lparam))
    } else if message == messages::WM_KEYDOWN {
        acting(key_action(wparam as i32, false, keys.control, keys.shift, keys.page))
    } else if message == messages::WM_COMMAND {
        Event::Act(notified(wparam))
    } else if message == messages::WM_ACTIVATE {
        Event::Activation
    } else {
        Event::Default
    }
}

fn act(action: Action) -> (r: Event)
    ensures
        r == acting(action),
{
    match action {
        Action::Pass => Event::Default,
        other => Event::Act(other),
    }
}

pub fn window_proc(message: u32, wparam: usize, lparam: usize, keys: Keys) -> (r: Event)
    requires
        keys.page > i32::MIN,
    ensures
        r == window_event(message, wparam, lparam, keys),
{
    if message == messages::WM_ERASEBKGND {
        Event::EraseBackground
    } else if message == messages::WM_CTLCOLOREDIT {
        Event::ColourSearch
    } else if message == messages::WM_CTLCOLORLISTBOX {
        Event::ColourList
    } else if message == messages::WM_CTLCOLORSTATIC {
        Event::ColourHelp
    } else if message == messages::WM_DRAWITEM {
        Event::DrawRow
    } else if message == messages::WM_NCCALCSIZE && wparam != 0 {
        Event::CoverFrame
    } else if message == messages::WM_EXITSIZEMOVE {
        Event::Settled
    } else if message == messages::WM_SIZE {
        let (width, height) = win::packed_size(lparam);
        Event::Resized { width, height }
    } else if message == messages::WM_MOUSEWHEEL {
        Event::Wheel
    } else if message == messages::WM_GETMINMAXINFO {
        Event::SizeLimits
    } else if message == messages::WM_NCHITTEST {
        Event::HitTest(win::packed_point(lparam))
    } else if message == messages::WM_PAINT {
        Event::Paint
    } else if message == messages::WM_CONTEXTMENU {
        Event::RowMenu(row_menu_at(lparam))
    } else if message == messages::WM_LBUTTONDOWN {
        Event::Click(win::packed_point(lparam))
    } else if message == messages::WM_KEYDOWN {
        act(handle_key(wparam as i32, false, keys.control, keys.shift, keys.page))
    } else if message == messages::WM_COMMAND {
        Event::Act(handle_notification(wparam))
    } else if message == messages::WM_ACTIVATE {
        Event::Activation
    } else {
        Event::Default
    }
}

/// A message to the search box, which swallows the keys that matter: they are
/// intercepted and everything else is handed back to the control.
pub open spec fn search_event(message: u32, wparam: usize, keys: Keys) -> Event {
    if message == messages::WM_MOUSEWHEEL {
        Event::Wheel
    } else if message == messages::WM_KEYDOWN {
        acting(key_action(wparam as i32, true, keys.control, keys.shift, keys.page))
    } else {
        Event::Default
    }
}

pub fn search_proc(message: u32, wparam: usize, keys: Keys) -> (r: Event)
    requires
        keys.page > i32::MIN,
    ensures
        r == search_event(message, wparam, keys),
{
    if message == messages::WM_MOUSEWHEEL {
        Event::Wheel
    } else if message == messages::WM_KEYDOWN {
        act(handle_key(wparam as i32, true, keys.control, keys.shift, keys.page))
    } else {
        Event::Default
    }
}

/// A message to the list: clicking a row moves the focus into it, and the keys have
/// to go on working from there. Ctrl+A is the list's alone: in a text box it selects
/// the text.
pub open spec fn list_event(message: u32, wparam: usize, lparam: usize, keys: Keys) -> Event {
    if message == messages::WM_CHAR && typed(wparam as u32) {
        Event::TypeIntoSearch
    } else if message == messages::WM_CONTEXTMENU {
        Event::RowMenu(menu_point(lparam))
    } else if message == messages::WM_KEYDOWN && wparam as i32 == VK_A && keys.control {
        Event::Act(Action::SelectAll)
    } else if message == messages::WM_KEYDOWN {
        acting(key_action(wparam as i32, false, keys.control, keys.shift, keys.page))
    } else {
        Event::Default
    }
}

pub fn list_proc(message: u32, wparam: usize, lparam: usize, keys: Keys) -> (r: Event)
    requires
        keys.page > i32::MIN,
    ensures
        r == list_event(message, wparam, lparam, keys),
{
    if message == messages::WM_CHAR && forwards_char(wparam as u32) {
        Event::TypeIntoSearch
    } else if message == messages::WM_CONTEXTMENU {
        Event::RowMenu(row_menu_at(lparam))
    } else if message == messages::WM_KEYDOWN {
        act(handle_list_key(wparam as i32, keys.control, keys.shift, keys.page))
    } else {
        Event::Default
    }
}

/// A key means the same whichever half of the widget has the focus, but for the two
/// that a text box has a meaning of its own for: Delete and Ctrl+A.
pub proof fn law_keys_agree(wparam: usize, lparam: usize, keys: Keys)
    requires
        wparam as i32 != VK_DELETE,
        !(wparam as i32 == VK_A && keys.control),
    ensures
        search_event(messages::WM_KEYDOWN, wparam, keys) == list_event(
            messages::WM_KEYDOWN,
            wparam,
            lparam,
            keys,
        ),
        search_event(messages::WM_KEYDOWN, wparam, keys) == window_event(
            messages::WM_KEYDOWN,
            wparam,
            lparam,
            keys,
        ),
{
}

// ------------------------------------------------------------------- paste, copy

/// Whether to go on waiting for the paste target to come to the front. Polled
/// rather than slept through: this wait is paid on every single paste.
pub fn keep_waiting(elapsed_ms: u64, foreground: isize, target: isize) -> (r: bool)
    ensures
        r == (elapsed_ms < PASTE_WAIT_MS && foreground != target),
{
    elapsed_ms < PASTE_WAIT_MS && foreground != target
}

pub const PASTE_WAIT_MS: u64 = 300;

pub open spec fn images_in(payloads: Seq<PayloadView>) -> nat
    decreases payloads.len(),
{
    if payloads.len() == 0 {
        0
    } else {
        images_in(payloads.drop_last()) + (if payloads.last() is Image {
            1nat
        } else {
            0nat
        })
    }
}

/// How many pictures are left out of a copy: a picture only travels alone.
pub fn left_out(payloads: &Vec<ClipPayload>) -> (n: usize)
    ensures
        n == (if payloads@.len() > 1 {
            images_in(clip::payload_views(payloads@))
        } else {
            0
        }),
{
    if payloads.len() <= 1 {
        return 0;
    }
    let ghost all = clip::payload_views(payloads@);
    let mut n: usize = 0;
    let mut i: usize = 0;
    assert(all.take(0) =~= Seq::empty());
    while i < payloads.len()
        invariant
            i <= payloads@.len(),
            all == clip::payload_views(payloads@),
            n == images_in(all.take(i as int)),
            n <= i,
        decreases payloads@.len() - i,
    {
        proof {
            let upto = all.take(i as int + 1);
            assert(upto.drop_last() =~= all.take(i as int));
            assert(upto.last() == payloads@[i as int]@);
        }
        if let ClipPayload::Image(_) = &payloads[i] {
            n += 1;
        }
        i += 1;
    }
    assert(all.take(i as int) =~= all);
    n
}

// ------------------------------------------------------------------------ texts

pub const DELETE_HEAD: &'static str = "删除选中的 ";

pub const DELETE_TAIL: &'static str =
    " 条记录？\n\n同步目录里的记录会一起删掉，其他机器同步之后也会跟着消失，删了找不回来。\n\n别的机器当月那份只能先记个「已删」的空标记（一样马上看不见），由那台机器自己清。";

/// What is asked before rows are deleted: this is the only thing in the popup that
/// destroys something, and there is nothing here to undo it with.
pub fn delete_question(count: usize) -> (r: String)
    ensures
        r@ == DELETE_HEAD@ + text::decimal(count as nat) + DELETE_TAIL@,
{
    let mut out = DELETE_HEAD.to_owned();
    text::push_decimal(&mut out, count as u64);
    out.append(DELETE_TAIL);
    out
}

/// What the box can do besides plain text, said in the one place the user looks
/// when it is empty.
pub const SEARCH_CUE: &'static str = "搜索内容 · app: title: time: machine: kind:";

/// The whole of the search syntax, in the one place where it can be read without
/// leaving the popup.
pub const HELP_TEXT: &'static str =
    "默认只搜记录内容（前 512 字），空格分开的每个词都要命中，顺序和距离随便。\n\n按字段搜就加前缀，可以混着用：\n  app:chrome        来源程序（只存 exe 名）\n  title:报表        当时那个窗口的标题（存 120 字）\n  time:02-14        行上显示的时间，也能写 time:2025-02\n  machine:本机      机器：本机，或对方的机器 id\n  kind:图片         类型：文本/图片/文件，也可写 text/image/files\n\n不认识的词缀不算词缀——文本里写着 12:30 的照样搜得到。";

/// A list stays on its tab while the strip has it, and goes back to everything when it
/// has not.
pub proof fn law_tab_is_kept(tab: Option<Seq<char>>, tabs: Seq<TabView>, i: int)
    ensures
        0 <= i < tabs.len() && tabs[i].id == tab ==> kept_tab(tab, tabs) == tab,
        (forall|k: int| 0 <= k < tabs.len() ==> (#[trigger] tabs[k]).id != tab) ==> kept_tab(
            tab,
            tabs,
        ) is None,
{
}

proof fn lemma_first_tab(tabs: Seq<TabView>, id: Option<Seq<char>>)
    ensures
        0 <= tab_place(tabs, id) <= tabs.len(),
        tab_place(tabs, id) < tabs.len() ==> tabs[tab_place(tabs, id)].id == id,
        forall|k: int| 0 <= k < tab_place(tabs, id) ==> (#[trigger] tabs[k]).id != id,
    decreases tabs.len(),
{
    if tabs.len() > 0 && tabs[0].id != id {
        let rest = tabs.drop_first();
        lemma_first_tab(rest, id);
        assert forall|k: int| 0 <= k < tab_place(tabs, id) implies (#[trigger] tabs[k]).id
            != id by {
            if k > 0 {
                assert(tabs[k] == rest[k - 1]);
            }
        }
    }
}

/// One step on goes to the tab to the right, and from the last to the first; one step
/// back goes to the left, and from the first to the last. A tab that the strip does
/// not have counts as the first.
pub proof fn law_steps_through_the_strip(tabs: Seq<TabView>, k: int, gone: Option<Seq<char>>)
    requires
        0 <= k < tabs.len(),
        forall|i: int, j: int| 0 <= i < j < tabs.len() ==> tabs[i].id != tabs[j].id,
        forall|i: int| 0 <= i < tabs.len() ==> (#[trigger] tabs[i]).id != gone,
    ensures
        next_tab(tabs, tabs[k].id, 1) == tabs[if k + 1 < tabs.len() {
            k + 1
        } else {
            0
        }].id,
        next_tab(tabs, tabs[k].id, -1) == tabs[if k > 0 {
            k - 1
        } else {
            tabs.len() - 1
        }].id,
        next_tab(tabs, gone, 1) == next_tab(tabs, tabs[0].id, 1),
        next_tab(tabs, gone, -1) == next_tab(tabs, tabs[0].id, -1),
{
    let n = tabs.len() as int;
    lemma_first_tab(tabs, tabs[k].id);
    lemma_first_tab(tabs, tabs[0].id);
    lemma_first_tab(tabs, gone);
    let place = tab_place(tabs, tabs[k].id);
    assert(place == k);
    assert(tab_place(tabs, gone) == n);
    assert((k + 1) % n == if k + 1 < n {
        k + 1
    } else {
        0
    }) by (nonlinear_arith)
        requires
            0 <= k < n,
    ;
    assert((k - 1) % n == if k > 0 {
        k - 1
    } else {
        n - 1
    }) by (nonlinear_arith)
        requires
            0 <= k < n,
    ;
}

/// The caret stops at both ends. Without one yet, down starts at the top and up at the
/// bottom.
pub proof fn law_caret_stops_at_the_ends(row: usize, delta: int, count: nat)
    requires
        row < count,
    ensures
        row + delta < 0 ==> caret_after(Some(row), delta, count) == 0,
        row + delta >= count ==> caret_after(Some(row), delta, count) == count - 1,
        delta > 0 ==> caret_after(None, delta, count) == 0,
        delta <= 0 ==> caret_after(None, delta, count) == count - 1,
{
}

/// A row is found by its stem, the first from the top.
pub proof fn law_row_is_found(items: Seq<SummaryView>, stem: Seq<char>)
    ensures
        ({
            let row = row_with(items, stem);
            &&& 0 <= row <= items.len()
            &&& row < items.len() ==> items[row].stem == stem
            &&& forall|k: int| 0 <= k < row ==> (#[trigger] items[k]).stem != stem
        }),
    decreases items.len(),
{
    if items.len() > 0 && items[0].stem != stem {
        let rest = items.drop_first();
        law_row_is_found(rest, stem);
        assert forall|k: int| 0 <= k < row_with(items, stem) implies (#[trigger] items[k]).stem
            != stem by {
            if k > 0 {
                assert(items[k] == rest[k - 1]);
            }
        }
    }
}

/// The selected rows are those at the places that were named, in that order: where
/// every place is a row, one for one.
pub proof fn law_selected_rows(items: Seq<SummaryView>, places: Seq<usize>, row: SummaryView)
    ensures
        (forall|k: int| 0 <= k < places.len() ==> (#[trigger] places[k]) < items.len())
            ==> rows_at(items, places) == Seq::new(places.len(), |k: int| items[places[k] as int]),
        rows_at(items, places).contains(row) <==> exists|k: int|
            0 <= k < places.len() && (#[trigger] places[k]) < items.len() && items[places[k] as int]
                == row,
    decreases places.len(),
{
    let rows = rows_at(items, places);
    if places.len() > 0 {
        let head = places.drop_last();
        let last = places.last();
        let before = rows_at(items, head);
        let n = places.len() - 1;
        law_selected_rows(items, head, row);
        assert(places[n] == last);
        if forall|k: int| 0 <= k < places.len() ==> (#[trigger] places[k]) < items.len() {
            assert forall|k: int| 0 <= k < head.len() implies (#[trigger] head[k]) < items.len() by {
                assert(head[k] == places[k]);
            }
            assert(rows =~= Seq::new(places.len(), |k: int| items[places[k] as int]));
        }
        if rows.contains(row) {
            let j = choose|j: int| 0 <= j < rows.len() && rows[j] == row;
            if j < before.len() {
                assert(before[j] == row);
                assert(before.contains(row));
                let k = choose|k: int|
                    0 <= k < head.len() && (#[trigger] head[k]) < items.len()
                        && items[head[k] as int] == row;
                assert(places[k] == head[k]);
            }
        }
        if exists|k: int|
            0 <= k < places.len() && (#[trigger] places[k]) < items.len() && items[places[k] as int]
                == row {
            let k = choose|k: int|
                0 <= k < places.len() && (#[trigger] places[k]) < items.len()
                    && items[places[k] as int] == row;
            if k < n {
                assert(head[k] == places[k]);
                assert(before.contains(row));
                let j = choose|j: int| 0 <= j < before.len() && before[j] == row;
                assert(rows[j] == row);
            } else {
                assert(rows[before.len() as int] == row);
            }
        }
    } else {
        assert(rows =~= Seq::new(places.len(), |k: int| items[places[k] as int]));
    }
}

/// The rows a list box names are its answers that are not negative.
pub proof fn law_named_rows(answers: Seq<i32>, k: int, place: usize)
    requires
        0 <= k <= answers.len(),
        place <= i32::MAX,
    ensures
        rows_named(answers, k).contains(place) <==> exists|i: int|
            0 <= i < k && (#[trigger] answers[i]) == place,
        (forall|i: int| 0 <= i < k ==> (#[trigger] answers[i]) >= 0) ==> rows_named(answers, k)
            == Seq::new(k as nat, |i: int| answers[i] as usize),
    decreases k,
{
    let rows = rows_named(answers, k);
    if k > 0 {
        let before = rows_named(answers, k - 1);
        law_named_rows(answers, k - 1, place);
        if forall|i: int| 0 <= i < k ==> (#[trigger] answers[i]) >= 0 {
            assert(answers[k - 1] >= 0);
            assert(rows =~= Seq::new(k as nat, |i: int| answers[i] as usize));
        }
        if rows.contains(place) {
            let j = choose|j: int| 0 <= j < rows.len() && rows[j] == place;
            if j < before.len() {
                assert(before[j] == place);
            } else {
                assert(answers[k - 1] == place);
            }
        }
        if exists|i: int| 0 <= i < k && (#[trigger] answers[i]) == place {
            let i = choose|i: int| 0 <= i < k && (#[trigger] answers[i]) == place;
            if i < k - 1 {
                let j = choose|j: int| 0 <= j < before.len() && before[j] == place;
                assert(rows[j] == place);
            } else {
                assert(rows[before.len() as int] == place);
            }
        }
    } else {
        assert(rows =~= Seq::new(k as nat, |i: int| answers[i] as usize));
    }
}

/// The images among some payloads are counted: each one once, and nothing else.
pub proof fn law_images_are_counted(payloads: Seq<PayloadView>)
    ensures
        images_in(payloads) == payloads.filter(|p: PayloadView| p is Image).len(),
    decreases payloads.len(),
{
    reveal(Seq::filter);
    if payloads.len() > 0 {
        law_images_are_counted(payloads.drop_last());
    }
}

/// Escape closes the popup, Enter takes the row, the arrows and the page keys move,
/// Delete deletes outside the search box, and with Ctrl held P pins, C copies and Tab
/// goes to the next instance, or with Shift to the one before. No other key does
/// anything.
pub proof fn law_keys(key: i32, typing: bool, control: bool, shift: bool, page: i32)
    requires
        page > i32::MIN,
    ensures
        ({
            let action = key_action(key, typing, control, shift, page);
            &&& key == 27 ==> action == Action::Dismiss
            &&& key == 13 ==> action == Action::Commit
            &&& key == 38 ==> action == Action::Move(-1i32)
            &&& key == 40 ==> action == Action::Move(1)
            &&& key == 33 ==> action == Action::Move((0 - page) as i32)
            &&& key == 34 ==> action == Action::Move(page)
            &&& key == 46 ==> action == (if typing {
                Action::Pass
            } else {
                Action::Delete
            })
            &&& key == 80 ==> action == (if control {
                Action::TogglePin
            } else {
                Action::Pass
            })
            &&& key == 67 ==> action == (if control {
                Action::Copy
            } else {
                Action::Pass
            })
            &&& key == 9 && control ==> action == Action::CycleTab(
                if shift {
                    -1i32
                } else {
                    1
                },
            )
            &&& key == 9 && !control ==> action == Action::Pass
            &&& !(key == 9 || key == 13 || key == 27 || key == 33 || key == 34 || key == 38 || key
                == 40 || key == 46 || key == 67 || key == 80) ==> action == Action::Pass
        }),
{
}

/// A character goes into the search box unless it is a control character other than
/// the backspace.
pub proof fn law_typed(code: u32)
    ensures
        code == 8 ==> typed(code),
        code < 32 && code != 8 ==> !typed(code),
        code >= 32 ==> typed(code),
{
}

/// A change in the search box fills the list anew, a double click takes the row, a
/// selection moves the caret, and a click on the mark opens the help.
pub proof fn law_notifications(wparam: usize)
    ensures
        ({
            let code = wparam as int / 65_536 % 65_536;
            let id = wparam as int % 65_536;
            &&& notified(wparam) == Action::ShowHelp <==> code == 0 && id == ID_HELP
            &&& notified(wparam) == Action::Reload <==> code == 768
            &&& notified(wparam) == Action::Commit <==> code == 2
            &&& notified(wparam) == Action::FollowCaret <==> code == 1
        }),
{
}

/// What the window is told by its messages: the new size, width first; where it was
/// clicked or asked about; and where a menu is wanted, unless a key asked for it.
pub proof fn law_messages(wparam: usize, lparam: usize, keys: Keys)
    ensures
        window_event(0x0005, wparam, lparam, keys) matches Event::Resized { width, height } && width
            == lparam as int % 65_536 && height == lparam as int / 65_536 % 65_536,
        window_event(0x0084, wparam, lparam, keys) == Event::HitTest(win::point_in(lparam)),
        window_event(0x0201, wparam, lparam, keys) == Event::Click(win::point_in(lparam)),
        window_event(0x007B, wparam, lparam, keys) matches Event::RowMenu(at) && (if lparam as int
            % 0x1_0000_0000 == 0xFFFF_FFFF {
            at is None
        } else {
            at == Some(win::point_in(lparam))
        }),
        window_event(0x0111, wparam, lparam, keys) == Event::Act(notified(wparam)),
        window_event(0x020A, wparam, lparam, keys) == Event::Wheel,
        window_event(0x000F, wparam, lparam, keys) == Event::Paint,
        window_event(0x0014, wparam, lparam, keys) == Event::EraseBackground,
        window_event(0x0024, wparam, lparam, keys) == Event::SizeLimits,
        window_event(0x002B, wparam, lparam, keys) == Event::DrawRow,
        window_event(0x0133, wparam, lparam, keys) == Event::ColourSearch,
        window_event(0x0134, wparam, lparam, keys) == Event::ColourList,
        window_event(0x0138, wparam, lparam, keys) == Event::ColourHelp,
        window_event(0x0232, wparam, lparam, keys) == Event::Settled,
        window_event(0x0006, wparam, lparam, keys) == Event::Activation,
        window_event(0x0083, wparam, lparam, keys) == (if wparam == 0 {
            Event::Default
        } else {
            Event::CoverFrame
        }),
        search_event(0x020A, wparam, keys) == Event::Wheel,
        list_event(0x007B, wparam, lparam, keys) == window_event(0x007B, wparam, lparam, keys),
        list_event(0x0102, wparam, lparam, keys) == (if typed(wparam as u32) {
            Event::TypeIntoSearch
        } else {
            Event::Default
        }),
        keys.control ==> list_event(0x0100, 65, lparam, keys) == Event::Act(Action::SelectAll),
{
    assert(lparam as int % 0x1_0000_0000 == 0xFFFF_FFFF <==> lparam as int % 0x1_0000 == 0xFFFF
        && lparam as int / 0x1_0000 % 0x1_0000 == 0xFFFF);
}

/// The menu of a row has an entry for each thing that can be done with it, and says
/// of the pin what choosing it would do.
pub proof fn law_row_menu(pinned: bool, i: int)
    requires
        0 <= i < row_entries(pinned).len(),
    ensures
        ({
            let entry = row_entries(pinned)[i];
            &&& entry.id == CMD_PASTE <==> entry.label == "粘贴\tEnter"@
            &&& entry.id == CMD_COPY <==> entry.label == "复制\tCtrl+C"@
            &&& entry.id == CMD_DELETE <==> entry.label == "删除\tDel"@
            &&& entry.id == CMD_SELECT_ALL <==> entry.label == "全选\tCtrl+A"@
            &&& entry.id == CMD_PIN <==> entry.label == (if pinned {
                "取消固定\tCtrl+P"@
            } else {
                "固定\tCtrl+P"@
            })
            &&& !entry.checked
        }),
{
    reveal_strlit("粘贴\tEnter");
    reveal_strlit("复制\tCtrl+C");
    reveal_strlit("取消固定\tCtrl+P");
    reveal_strlit("固定\tCtrl+P");
    reveal_strlit("删除\tDel");
    reveal_strlit("全选\tCtrl+A");
    reveal_strlit("");
    assert("粘贴\tEnter"@[0] == '粘' && "复制\tCtrl+C"@[0] == '复' && "取消固定\tCtrl+P"@[0] == '取'
        && "固定\tCtrl+P"@[0] == '固' && "删除\tDel"@[0] == '删' && "全选\tCtrl+A"@[0] == '全');
    assert("粘贴\tEnter"@.len() > 0 && "复制\tCtrl+C"@.len() > 0 && "取消固定\tCtrl+P"@.len() > 0
        && "固定\tCtrl+P"@.len() > 0 && "删除\tDel"@.len() > 0 && "全选\tCtrl+A"@.len() > 0);
}

/// Filling the list changes the list, the strip and the tab, and nothing else of the
/// popup; without rows the anchor stays where it was.
pub proof fn law_refill_changes_the_list_alone(popup: PopupView, store: StoreView, filter: Seq<char>)
    ensures
        ({
            let after = refilled(popup, store, filter);
            &&& after.target == popup.target
            &&& after.visible == popup.visible
            &&& after.modal_open == popup.modal_open
            &&& after.tabs == store::tabs_of(
                index::active(store.index.items),
                store.settings.machine_id,
            )
            &&& after.tab == kept_tab(popup.tab, after.tabs)
            &&& after.items.len() == 0 ==> after.anchor == popup.anchor
        }),
{
}

/// Choosing from the menu of a row does what the key does that stands beside the words;
/// dismissing it, or a line, does nothing.
pub proof fn law_menu_and_keys_agree(pinned: bool, i: int, page: i32, lparam: usize, keys: Keys)
    requires
        0 <= i < row_entries(pinned).len(),
        keys.control,
    ensures
        ({
            let entry = row_entries(pinned)[i];
            let done = choice_action(entry.id);
            &&& entry.label == "粘贴\tEnter"@ ==> done == key_action(13, false, false, false, page)
            &&& entry.label == "复制\tCtrl+C"@ ==> done == key_action(67, false, true, false, page)
            &&& entry.label == "固定\tCtrl+P"@ || entry.label == "取消固定\tCtrl+P"@ ==> done
                == key_action(80, false, true, false, page)
            &&& entry.label == "删除\tDel"@ ==> done == key_action(46, false, false, false, page)
            &&& entry.label == "全选\tCtrl+A"@ ==> list_event(0x0100, 65, lparam, keys)
                == Event::Act(done)
            &&& entry.label.len() > 0 <==> done != Action::Pass
        }),
        choice_action(0) == Action::Pass,
{
    law_row_menu(pinned, i);
    reveal_strlit("粘贴\tEnter");
    reveal_strlit("复制\tCtrl+C");
    reveal_strlit("取消固定\tCtrl+P");
    reveal_strlit("固定\tCtrl+P");
    reveal_strlit("删除\tDel");
    reveal_strlit("全选\tCtrl+A");
    reveal_strlit("");
    assert("取消固定\tCtrl+P"@[0] == '取' && "固定\tCtrl+P"@[0] == '固' && "粘贴\tEnter"@[0] == '粘'
        && "复制\tCtrl+C"@[0] == '复' && "删除\tDel"@[0] == '删' && "全选\tCtrl+A"@[0] == '全');
    assert("取消固定\tCtrl+P"@.len() > 0 && "固定\tCtrl+P"@.len() > 0 && "粘贴\tEnter"@.len() > 0
        && "复制\tCtrl+C"@.len() > 0 && "删除\tDel"@.len() > 0 && "全选\tCtrl+A"@.len() > 0);
    assert(""@.len() == 0);
}

} // verus!
