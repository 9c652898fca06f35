//! The primary instance's state: the drawers it holds, which windows are
//! open, and what each command, creation, deletion and closing does to it.
//!
//! Windows are known here by their handle values; creating, focusing and
//! destroying them is the application's part.

use std::collections::HashMap;

use vstd::prelude::*;
use vstd::std_specs::iter::IteratorSpec;

use crate::command::Command;
use crate::error::Error;
use crate::ids::{parse_id, uuid_parse, uuid_text};
use crate::model::{Drawer, DrawerIndex};
use crate::storage::{path_view, under, Store, StorePath};

verus! {

broadcast use {vstd::seq_lib::group_seq_properties, vstd::std_specs::hash::group_hash_axioms};

/// A drawer other than `id`.
pub open spec fn other_drawer(id: u128) -> spec_fn(Drawer) -> bool {
    |d: Drawer| d.id != id
}

/// An id other than `id`.
pub open spec fn other_id(id: u128) -> spec_fn(u128) -> bool {
    |x: u128| x != id
}

/// Some drawer has this id.
pub open spec fn has_drawer(drawers: Seq<Drawer>, id: u128) -> bool {
    exists|i: int| 0 <= i < drawers.len() && #[trigger] drawers[i].id == id
}

/// `i` is the first drawer with this id.
pub open spec fn first_with_id(drawers: Seq<Drawer>, id: u128, i: int) -> bool {
    &&& 0 <= i < drawers.len()
    &&& drawers[i].id == id
    &&& forall|k: int| 0 <= k < i ==> (#[trigger] drawers[k]).id != id
}

/// The window open for drawer `id`, if any.
pub open spec fn window_of(open: Map<u128, isize>, id: u128) -> Option<isize> {
    if open.contains_key(id) {
        Some(open[id])
    } else {
        None
    }
}

/// What showing something takes.
pub enum Step {
    /// Bring the open manager window forward.
    FocusManager(isize),
    /// Create the manager window.
    CreateManager,
    /// Bring this open drawer window forward.
    FocusDrawer(isize),
    /// Create a window for this drawer.
    CreateDrawer(u128),
}

/// A notice shown to the user before falling back to the manager.
pub enum Notice {
    /// The drawer id does not read as an id.
    InvalidId,
    /// No drawer has the id.
    MissingDrawer,
}

impl Notice {
    /// The text of the notice.
    pub fn message(&self) -> (m: String)
        ensures
            *self == Notice::InvalidId ==> m@ == "Invalid drawer id."@,
            *self == Notice::MissingDrawer ==> m@
                == "That drawer no longer exists. Opening the manager instead."@,
    {
        match self {
            Notice::InvalidId => String::from_str("Invalid drawer id."),
            Notice::MissingDrawer => String::from_str(
                "That drawer no longer exists. Opening the manager instead.",
            ),
        }
    }
}

/// What executing a command does: an optional notice to the user, then a step.
pub struct Plan {
    pub notice: Option<Notice>,
    pub step: Step,
}

/// Primary-instance application state.
pub struct App {
    pub store: Store,
    pub index: DrawerIndex,
    pub drawers: Vec<Drawer>,
    /// The manager window, when open.
    pub manager: Option<isize>,
    /// The window of each open drawer.
    pub open_drawers: HashMap<u128, isize>,
    /// The hidden window that receives forwarded commands.
    pub message_window: isize,
}

impl App {
    /// The state right after loading: nothing open yet.
    pub fn new(store: Store, index: DrawerIndex, drawers: Vec<Drawer>) -> (a: App)
        ensures
            a.store == store,
            a.index == index,
            a.drawers == drawers,
            a.manager is None,
            a.open_drawers@ == Map::<u128, isize>::empty(),
            a.message_window == 0,
    {
        App { store, index, drawers, manager: None, open_drawers: HashMap::new(), message_window: 0 }
    }

    /// Position of the first drawer with this id.
    fn position(&self, id: u128) -> (r: Option<usize>)
        ensures
            match r {
                Some(i) => first_with_id(self.drawers@, id, i as int),
                None => !has_drawer(self.drawers@, id),
            },
    {
        let mut i: usize = 0;
        while i < self.drawers.len()
            invariant
                i <= self.drawers@.len(),
                forall|k: int| 0 <= k < i ==> (#[trigger] self.drawers@[k]).id != id,
            decreases self.drawers@.len() - i,
        {
            if self.drawers[i].id == id {
                return Some(i);
            }
            i = i + 1;
        }
        None
    }

    /// The drawer with this id.
    pub fn drawer(&self, id: u128) -> (r: Option<&Drawer>)
        ensures
            match r {
                Some(d) => exists|i: int| first_with_id(self.drawers@, id, i) && *d == self.drawers@[i],
                None => !has_drawer(self.drawers@, id),
            },
    {
        match self.position(id) {
            Some(i) => Some(&self.drawers[i]),
            None => None,
        }
    }

    /// Replaces the drawer with this id (the first one) by `d`; returns
    /// whether there was one.
    pub fn set_drawer(&mut self, id: u128, d: Drawer) -> (found: bool)
        ensures
            found == has_drawer(old(self).drawers@, id),
            found ==> exists|i: int| {
                &&& first_with_id(old(self).drawers@, id, i)
                &&& final(self).drawers@ == old(self).drawers@.update(i, d)
            },
            !found ==> final(self).drawers@ == old(self).drawers@,
            final(self).index == old(self).index,
            final(self).store == old(self).store,
            final(self).manager == old(self).manager,
            final(self).open_drawers == old(self).open_drawers,
            final(self).message_window == old(self).message_window,
    {
        match self.position(id) {
            Some(i) => {
                self.drawers.set(i, d);
                true
            },
            None => false,
        }
    }

    /// Takes a freshly created drawer in and lists it last in the index;
    /// returns its id.
    pub fn add_drawer(&mut self, drawer: Drawer) -> (id: u128)
        ensures
            id == drawer.id,
            final(self).drawers@ == old(self).drawers@.push(drawer),
            final(self).index.drawer_order@ == old(self).index.drawer_order@.push(id),
            final(self).index.schema_version == old(self).index.schema_version,
            final(self).store == old(self).store,
            final(self).manager == old(self).manager,
            final(self).open_drawers == old(self).open_drawers,
            final(self).message_window == old(self).message_window,
    {
        let id = drawer.id;
        self.drawers.push(drawer);
        self.index.drawer_order.push(id);
        id
    }

    /// Forgets drawer `id` entirely: its window entry, every drawer with that
    /// id and every index entry for it. Returns the window to destroy, if it
    /// was open.
    pub fn delete_drawer(&mut self, id: u128) -> (w: Option<isize>)
        ensures
            w == window_of(old(self).open_drawers@, id),
            final(self).open_drawers@ == old(self).open_drawers@.remove(id),
            final(self).drawers@ == old(self).drawers@.filter(other_drawer(id)),
            final(self).index.drawer_order@ == old(self).index.drawer_order@.filter(other_id(id)),
            final(self).index.schema_version == old(self).index.schema_version,
            final(self).store == old(self).store,
            final(self).manager == old(self).manager,
            final(self).message_window == old(self).message_window,
    {
        let w = self.forget_window(id);
        let ghost od = self.open_drawers@;
        let ghost idx = self.index;
        // Keep every other drawer, in order.
        let mut taken: Vec<Drawer> = Vec::new();
        std::mem::swap(&mut taken, &mut self.drawers);
        let ghost all = taken@;
        let mut rev: Vec<Drawer> = Vec::new();
        while taken.len() > 0
            invariant
                all == taken@ + rev@.reverse(),
            decreases taken@.len(),
        {
            let d = taken.pop().unwrap();
            proof {
                assert(all =~= taken@ + rev@.push(d).reverse());
            }
            rev.push(d);
        }
        assert(rev@.reverse() =~= all);
        let ghost done: Seq<Drawer> = Seq::empty();
        assert(self.drawers@ =~= done.filter(other_drawer(id))) by {
            reveal(Seq::filter);
        }
        while rev.len() > 0
            invariant
                all == done + rev@.reverse(),
                self.drawers@ == done.filter(other_drawer(id)),
                self.store == old(self).store,
                self.manager == old(self).manager,
                self.message_window == old(self).message_window,
                self.open_drawers@ == od,
                self.index == idx,
            decreases rev@.len(),
        {
            let d = rev.pop().unwrap();
            proof {
                assert(all =~= done.push(d) + rev@.reverse());
                done.lemma_filter_push(d, other_drawer(id));
                done = done.push(d);
            }
            if d.id != id {
                self.drawers.push(d);
            }
        }
        assert(done =~= all);
        // Keep every other index entry, in order.
        let mut order: Vec<u128> = Vec::new();
        let mut i: usize = 0;
        let ghost ord = self.index.drawer_order@;
        assert(order@ =~= ord.subrange(0, 0).filter(other_id(id))) by {
            reveal(Seq::filter);
        }
        while i < self.index.drawer_order.len()
            invariant
                ord == self.index.drawer_order@,
                self.index == idx,
                i <= ord.len(),
                order@ == ord.subrange(0, i as int).filter(other_id(id)),
            decreases ord.len() - i,
        {
            let x = self.index.drawer_order[i];
            proof {
                assert(ord.subrange(0, i + 1) =~= ord.subrange(0, i as int).push(x));
                ord.subrange(0, i as int).lemma_filter_push(x, other_id(id));
            }
            if x != id {
                order.push(x);
            }
            i = i + 1;
        }
        assert(ord.subrange(0, ord.len() as int) =~= ord);
        self.index.drawer_order = order;
        w
    }

    /// Removes the window entry of drawer `id`, returning the window.
    fn forget_window(&mut self, id: u128) -> (w: Option<isize>)
        ensures
            w == window_of(old(self).open_drawers@, id),
            final(self).open_drawers@ == old(self).open_drawers@.remove(id),
            final(self).drawers == old(self).drawers,
            final(self).index == old(self).index,
            final(self).store == old(self).store,
            final(self).manager == old(self).manager,
            final(self).message_window == old(self).message_window,
    {
        self.open_drawers.remove(&id)
    }

    /// Records the window just created for drawer `id` (replacing any entry).
    pub fn record_drawer_window(&mut self, id: u128, window: isize)
        ensures
            final(self).open_drawers@ == old(self).open_drawers@.insert(id, window),
            final(self).drawers == old(self).drawers,
            final(self).index == old(self).index,
            final(self).manager == old(self).manager,
            final(self).store == old(self).store,
            final(self).message_window == old(self).message_window,
    {
        self.open_drawers.insert(id, window);
    }

    /// Records the manager window just created.
    pub fn record_manager(&mut self, window: isize)
        ensures
            final(self).manager == Some(window),
            final(self).drawers == old(self).drawers,
            final(self).index == old(self).index,
            final(self).open_drawers == old(self).open_drawers,
            final(self).store == old(self).store,
            final(self).message_window == old(self).message_window,
    {
        self.manager = Some(window);
    }

    /// What opening the manager takes: focus it if open, else create it.
    pub fn open_manager_step(&self) -> (s: Step)
        ensures
            match self.manager {
                Some(w) => s == Step::FocusManager(w),
                None => s == Step::CreateManager,
            },
    {
        match self.manager {
            Some(w) => Step::FocusManager(w),
            None => Step::CreateManager,
        }
    }

    /// What opening drawer `id` takes: focus its window if open; otherwise
    /// create one, unless no drawer has that id.
    pub fn open_drawer_step(&self, id: u128) -> (r: Result<Step, Error>)
        ensures
            match window_of(self.open_drawers@, id) {
                Some(w) => r == Ok::<Step, Error>(Step::FocusDrawer(w)),
                None => if has_drawer(self.drawers@, id) {
                    r == Ok::<Step, Error>(Step::CreateDrawer(id))
                } else {
                    r matches Err(Error::DrawerNotFound(m)) && m@ == uuid_text(id)
                },
            },
    {
        if let Some(w) = self.open_drawers.get(&id) {
            return Ok(Step::FocusDrawer(*w));
        }
        match self.position(id) {
            Some(_) => Ok(Step::CreateDrawer(id)),
            None => Err(Error::DrawerNotFound(crate::ids::id_text(id))),
        }
    }

    /// What executing a command with its drawer id read as `parsed` does:
    /// a drawer id that does not read falls back to the manager with a
    /// notice; so does one that names no drawer; an open drawer is focused
    /// and a closed one is opened.
    pub open spec fn spec_plan_open(&self, parsed: Option<u128>) -> Plan {
        match parsed {
            None => Plan { notice: Some(Notice::InvalidId), step: spec_manager_step(self.manager) },
            Some(id) => match window_of(self.open_drawers@, id) {
                Some(w) => Plan { notice: None, step: Step::FocusDrawer(w) },
                None => if has_drawer(self.drawers@, id) {
                    Plan { notice: None, step: Step::CreateDrawer(id) }
                } else {
                    Plan { notice: Some(Notice::MissingDrawer), step: spec_manager_step(self.manager) }
                },
            },
        }
    }

    /// The plan for a command whose drawer id was read as `parsed`.
    pub fn plan_open(&self, parsed: Option<u128>) -> (p: Plan)
        ensures
            p == self.spec_plan_open(parsed),
            p.step matches Step::CreateDrawer(x) ==> has_drawer(self.drawers@, x),
            parsed matches Some(id) && !has_drawer(self.drawers@, id) && !self.open_drawers@.contains_key(id)
                ==> {
                &&& p.notice == Some(Notice::MissingDrawer)
                &&& p.step == match self.manager {
                    Some(w) => Step::FocusManager(w),
                    None => Step::CreateManager,
                }
            },
    {
        proof {
            law_missing_drawer_falls_back_to_manager(*self, parsed);
        }
        match parsed {
            None => Plan { notice: Some(Notice::InvalidId), step: self.open_manager_step() },
            Some(id) => match self.open_drawer_step(id) {
                Ok(step) => Plan { notice: None, step },
                Err(_) => Plan { notice: Some(Notice::MissingDrawer), step: self.open_manager_step() },
            },
        }
    }

    /// What executing a command (initial or forwarded) does. The drawer id
    /// is read with the `uuid` crate; a drawer named by the text this library
    /// writes for its id is always found.
    pub fn execute(&self, cmd: &Command) -> (p: Plan)
        ensures
            match cmd {
                Command::Manager => p.notice is None && p.step == spec_manager_step(self.manager),
                Command::OpenDrawer(text) => {
                    &&& p == self.spec_plan_open(uuid_parse(text@))
                    &&& forall|id: u128|
                        text@ == uuid_text(id) && has_drawer(self.drawers@, id) && window_of(
                            self.open_drawers@,
                            id,
                        ) is None ==> p.notice is None && p.step == Step::CreateDrawer(id)
                    &&& forall|id: u128|
                        uuid_parse(text@) == Some(id) && !has_drawer(self.drawers@, id)
                            && !self.open_drawers@.contains_key(id) ==> {
                            &&& p.notice == Some(Notice::MissingDrawer)
                            &&& p.step == match self.manager {
                                Some(w) => Step::FocusManager(w),
                                None => Step::CreateManager,
                            }
                        }
                },
            },
            p.step matches Step::CreateDrawer(x) ==> has_drawer(self.drawers@, x),
    {
        match cmd {
            Command::Manager => Plan { notice: None, step: self.open_manager_step() },
            Command::OpenDrawer(text) => {
                let parsed = parse_id(text.as_str());
                self.plan_open(parsed)
            },
        }
    }

    /// Some window to own a notice: the manager if open, else an open drawer.
    pub fn any_window(&self) -> (w: Option<isize>)
        ensures
            self.manager is Some ==> w == self.manager,
            self.manager is None && self.open_drawers@.len() > 0 ==> exists|id: u128|
                self.open_drawers@.contains_key(id) && w == Some(self.open_drawers@[id]),
            self.manager is None && self.open_drawers@.len() == 0 ==> w is None,
    {
        match self.manager {
            Some(w) => Some(w),
            None => {
                let ghost open = self.open_drawers@;
                for w in it: self.open_drawers.values()
                    invariant
                        open == self.open_drawers@,
                        self.manager is None,
                        it.index() == 0,
                        it.seq().unref().to_set() == open.values(),
                        it.seq().len() == open.dom().len(),
                {
                    proof {
                        let vals = it.seq().unref();
                        assert(vals[0] == *w);
                        assert(vals.to_set().contains(vals[0]));
                    }
                    return Some(*w);
                }
                None
            },
        }
    }

    /// The manager window was destroyed. Returns whether the process should
    /// now quit: it does once no window is left.
    pub fn on_manager_closed(&mut self) -> (quit: bool)
        ensures
            final(self).manager is None,
            final(self).open_drawers == old(self).open_drawers,
            final(self).drawers == old(self).drawers,
            final(self).index == old(self).index,
            final(self).store == old(self).store,
            final(self).message_window == old(self).message_window,
            quit == (final(self).open_drawers@.len() == 0),
    {
        self.manager = None;
        self.maybe_quit()
    }

    /// A drawer window was destroyed. Returns whether the process should now
    /// quit: it does once no window is left.
    pub fn on_drawer_closed(&mut self, id: u128) -> (quit: bool)
        ensures
            final(self).open_drawers@ == old(self).open_drawers@.remove(id),
            final(self).manager == old(self).manager,
            final(self).drawers == old(self).drawers,
            final(self).index == old(self).index,
            final(self).store == old(self).store,
            final(self).message_window == old(self).message_window,
            quit == (final(self).manager is None && final(self).open_drawers@.len() == 0),
    {
        let _ = self.forget_window(id);
        self.maybe_quit()
    }

    /// Quit once no visible windows remain.
    fn maybe_quit(&self) -> (quit: bool)
        ensures
            quit == (self.manager is None && self.open_drawers@.len() == 0),
    {
        self.manager.is_none() && self.open_drawers.len() == 0
    }

    /// Where a drawer's files live.
    pub fn data_location(&self, id: u128) -> (p: StorePath)
        ensures
            path_view(p) == under(self.store.root_view(), seq!["Data"@, "Drawers"@, uuid_text(id)]),
    {
        self.store.drawer_dir(id)
    }
}

proof fn lemma_filter_keeps_all<T>(s: Seq<T>, p: spec_fn(T) -> bool)
    requires
        forall|i: int| 0 <= i < s.len() ==> p(#[trigger] s[i]),
    ensures
        s.filter(p) == s,
    decreases s.len(),
{
    reveal(Seq::filter);
    if s.len() > 0 {
        lemma_filter_keeps_all(s.drop_last(), p);
        assert(s.drop_last().push(s.last()) =~= s);
    }
}

/// Deleting a drawer that was just added, under an id no other drawer or
/// index entry had, gives back the drawers and the index order as they were.
pub proof fn law_delete_undoes_add(drawers: Seq<Drawer>, order: Seq<u128>, d: Drawer)
    requires
        forall|k: int| 0 <= k < drawers.len() ==> (#[trigger] drawers[k]).id != d.id,
        forall|k: int| 0 <= k < order.len() ==> #[trigger] order[k] != d.id,
    ensures
        drawers.push(d).filter(other_drawer(d.id)) == drawers,
        order.push(d.id).filter(other_id(d.id)) == order,
{
    drawers.lemma_filter_push(d, other_drawer(d.id));
    order.lemma_filter_push(d.id, other_id(d.id));
    lemma_filter_keeps_all(drawers, other_drawer(d.id));
    lemma_filter_keeps_all(order, other_id(d.id));
}

/// After a drawer is deleted, no drawer and no index entry has its id, and
/// every other drawer and entry is still there.
pub proof fn law_delete_removes_only_that_drawer(drawers: Seq<Drawer>, order: Seq<u128>, id: u128)
    ensures
        !has_drawer(drawers.filter(other_drawer(id)), id),
        forall|x: u128| #![trigger order.filter(other_id(id)).contains(x)]
            order.filter(other_id(id)).contains(x) <==> (order.contains(x) && x != id),
        forall|i: int| 0 <= i < drawers.len() && drawers[i].id != id ==> #[trigger] drawers.filter(
            other_drawer(id),
        ).contains(drawers[i]),
{
    drawers.filter_lemma(other_drawer(id));
    order.filter_lemma(other_id(id));
    let t = drawers.filter(other_drawer(id));
    if has_drawer(t, id) {
        let i = choose|i: int| 0 <= i < t.len() && #[trigger] t[i].id == id;
        assert(other_drawer(id)(t[i]));
    }
    assert forall|x: u128| #![trigger order.filter(other_id(id)).contains(x)]
        order.filter(other_id(id)).contains(x) <==> (order.contains(x) && x != id) by {
        if order.filter(other_id(id)).contains(x) {
            order.lemma_filter_contains_rev(other_id(id), x);
            let i = choose|i: int| 0 <= i < order.filter(other_id(id)).len() && order.filter(other_id(id))[i] == x;
            assert(other_id(id)(order.filter(other_id(id))[i]));
        }
        if order.contains(x) && x != id {
            let i = choose|i: int| 0 <= i < order.len() && order[i] == x;
            assert(other_id(id)(order[i]));
        }
    }
}

/// Opening a drawer never creates a window for an id that no drawer has.
/// When the id reads as an id, no drawer has it and no window is open for
/// it, the user is told the drawer is missing and the manager opens instead:
/// it is focused when its window is open, created otherwise.
pub proof fn law_missing_drawer_falls_back_to_manager(app: App, parsed: Option<u128>)
    ensures
        app.spec_plan_open(parsed).step matches Step::CreateDrawer(x) ==> has_drawer(app.drawers@, x),
        parsed matches Some(id) && !has_drawer(app.drawers@, id) && !app.open_drawers@.contains_key(id)
            ==> {
            &&& app.spec_plan_open(parsed).notice == Some(Notice::MissingDrawer)
            &&& app.spec_plan_open(parsed).step == match app.manager {
                Some(w) => Step::FocusManager(w),
                None => Step::CreateManager,
            }
        },
{
}

/// The step that opens the manager, given its window if open.
pub open spec fn spec_manager_step(manager: Option<isize>) -> Step {
    match manager {
        Some(w) => Step::FocusManager(w),
        None => Step::CreateManager,
    }
}

} // verus!
