//! Sessions and the controller.
//!
//! Each connected server gets one session: its label, the last-fetched key
//! list, the tree and view derived from it, and an editor state.  Sessions
//! live in a table of generational slots: an index names a slot and the
//! generation it was filled under, so the index of a removed session can
//! never silently denote a later one.  The controller dispatches every user
//! action against the active session; store reads and writes happen outside
//! and hand their plain results in.

use vstd::prelude::*;

use crate::editor::editor_after_edit_create_key;
use crate::editor::editor_after_edit_create_value;
use crate::editor::editor_after_edit_value;
use crate::editor::editor_after_select;
use crate::editor::spec_edit_create_key;
use crate::editor::spec_edit_create_value;
use crate::editor::spec_edit_value;
use crate::editor::spec_select;
use crate::editor::EditorState;
use crate::keys::key_set;
use crate::tree::canonical_model;
use crate::tree::convert_keys_to_namespaces;
use crate::tree::root_level_keys;
use crate::tree::NamespaceTree;
use crate::value::RedisValue;
use crate::view::collapse_all;
use crate::view::create_namespace_views;
use crate::view::deep_view_list;
use crate::view::fresh_tree_views;
use crate::view::lemma_collapse_all_identity;
use crate::view::lemma_fresh_tree_views_collapsed;
use crate::view::lemma_toggle_keeps_shape;
use crate::view::toggle;
use crate::view::toggle_model;
use crate::view::view_node_at;
use crate::view::NamespaceView;

verus! {

/// One browsing session: a connected server's label, its key list, and the
/// state derived from it.
pub struct Session {
    pub label: String,
    pub keys: Vec<String>,
    pub tree: NamespaceTree,
    pub views: Vec<NamespaceView>,
    pub editor: EditorState,
}

impl Session {
    /// The derived state is consistent: the tree is well-formed and models
    /// the session's key list, and the views mirror the tree — collapsed,
    /// except where the operator has toggled.
    pub open spec fn wf(self) -> bool {
        &&& self.tree.wf()
        &&& self.tree.model() == canonical_model(key_set(self.keys@))
        &&& self.tree.root_key_set() == root_level_keys(key_set(self.keys@))
        &&& collapse_all(deep_view_list(self.views@)) == fresh_tree_views(self.tree)
    }
}

/// A stable handle to a session: a slot and the generation the slot was
/// filled under.
#[derive(Debug, Clone, Copy, PartialEq, Eq, Hash, Structural)]
pub struct SessionIndex {
    pub slot: usize,
    pub generation: u64,
}

/// One slot of the session table.
pub struct TableSlot {
    pub generation: u64,
    pub occupant: Option<Session>,
}

/// The session table: generational slots under stable indices.
pub struct SessionTable {
    pub slots: Vec<TableSlot>,
}

impl SessionTable {
    /// Whether `i` denotes a live session.
    pub open spec fn live(self, i: SessionIndex) -> bool {
        &&& i.slot < self.slots@.len()
        &&& self.slots@[i.slot as int].generation == i.generation
        &&& self.slots@[i.slot as int].occupant is Some
    }

    /// The live session `i` denotes.
    pub open spec fn at(self, i: SessionIndex) -> Session
        recommends
            self.live(i),
    {
        self.slots@[i.slot as int].occupant.unwrap()
    }

    /// An index whose generation its slot has moved past.  Removal retires
    /// the removed index, and no operation un-retires one: a retired index
    /// can never denote a session again.
    pub open spec fn retired(self, i: SessionIndex) -> bool {
        &&& i.slot < self.slots@.len()
        &&& {
            ||| i.generation < self.slots@[i.slot as int].generation
            ||| (i.generation == self.slots@[i.slot as int].generation
                && self.slots@[i.slot as int].generation == u64::MAX
                && self.slots@[i.slot as int].occupant is None)
        }
    }

    /// The live session at `i`, if any.
    pub fn get(&self, i: SessionIndex) -> (r: Option<&Session>)
        ensures
            (r is Some) == self.live(i),
            r is Some ==> *r.unwrap() == self.at(i),
    {
        if i.slot >= self.slots.len() {
            return None;
        }
        let slot = &self.slots[i.slot];
        if slot.generation != i.generation {
            return None;
        }
        match &slot.occupant {
            Some(s) => Some(s),
            None => None,
        }
    }
}

/// A retired index never denotes a live session.
pub proof fn lemma_retired_not_live(t: SessionTable, i: SessionIndex)
    requires
        t.retired(i),
    ensures
        !t.live(i),
{
}

/// Takes the live session at `i` out of its slot, to be reworked and put
/// back by `put_session` before the table is seen again.
fn take_session(table: &mut SessionTable, i: SessionIndex) -> (r: Option<Session>)
    ensures
        (r is Some) == old(table).live(i),
        r is Some ==> r.unwrap() == old(table).at(i) && final(table).slots@ == old(
            table,
        ).slots@.update(i.slot as int, TableSlot { generation: i.generation, occupant: None }),
        r is None ==> *final(table) == *old(table),
{
    if i.slot >= table.slots.len() {
        return None;
    }
    if table.slots[i.slot].generation != i.generation {
        return None;
    }
    let occupied = match &table.slots[i.slot].occupant {
        Some(_) => true,
        None => false,
    };
    if !occupied {
        return None;
    }
    let ghost slots0 = table.slots@;
    let mut slot = table.slots.remove(i.slot);
    let r = slot.occupant.take();
    table.slots.insert(i.slot, slot);
    proof {
        assert(table.slots@ =~= slots0.update(
            i.slot as int,
            TableSlot { generation: i.generation, occupant: None },
        ));
    }
    r
}

/// Puts a session back into the slot `take_session` emptied.
fn put_session(table: &mut SessionTable, i: SessionIndex, s: Session)
    requires
        i.slot < old(table).slots@.len(),
        old(table).slots@[i.slot as int].generation == i.generation,
        old(table).slots@[i.slot as int].occupant is None,
    ensures
        final(table).slots@ == old(table).slots@.update(
            i.slot as int,
            TableSlot { generation: i.generation, occupant: Some(s) },
        ),
{
    let ghost slots0 = table.slots@;
    let mut slot = table.slots.remove(i.slot);
    slot.occupant = Some(s);
    table.slots.insert(i.slot, slot);
    proof {
        assert(table.slots@ =~= slots0.update(
            i.slot as int,
            TableSlot { generation: i.generation, occupant: Some(s) },
        ));
    }
}

/// Inserts a session into a free slot, under an index that was never handed
/// out before: neither live nor retired beforehand.  Live sessions and
/// retired indices are untouched.
fn insert_session(table: &mut SessionTable, s: Session) -> (idx: SessionIndex)
    ensures
        !old(table).live(idx),
        !old(table).retired(idx),
        final(table).live(idx),
        final(table).at(idx) == s,
        forall|j: SessionIndex| j != idx ==> final(table).live(j) == old(table).live(j),
        forall|j: SessionIndex|
            #[trigger] old(table).live(j) && j != idx ==> final(table).at(j) == old(table).at(j),
        forall|j: SessionIndex| #[trigger] old(table).retired(j) ==> final(table).retired(j),
{
    let mut k: usize = 0;
    let n = table.slots.len();
    while k < n
        invariant
            k <= n,
            n == table.slots@.len(),
            table.slots@ == old(table).slots@,
            forall|m: int|
                0 <= m < k ==> (#[trigger] table.slots@[m].occupant is Some
                    || table.slots@[m].generation == u64::MAX),
        decreases n - k,
    {
        let vacant = table.slots[k].occupant.is_none();
        if vacant && table.slots[k].generation < u64::MAX {
            let idx = SessionIndex { slot: k, generation: table.slots[k].generation };
            proof {
                assert(old(table).slots@[k as int].occupant is None);
                assert(old(table).slots@[k as int].generation == idx.generation);
                assert(!old(table).live(idx));
                assert(!old(table).retired(idx));
            }
            let mut slot = table.slots.remove(k);
            slot.occupant = Some(s);
            table.slots.insert(k, slot);
            proof {
                assert(table.slots@ =~= old(table).slots@.update(
                    k as int,
                    TableSlot { generation: idx.generation, occupant: Some(s) },
                ));
            }
            return idx;
        }
        k += 1;
    }
    let idx = SessionIndex { slot: table.slots.len(), generation: 0 };
    table.slots.push(TableSlot { generation: 0, occupant: Some(s) });
    idx
}

/// Removes the session at `i`, retiring the index: its slot's generation
/// moves on, so `i` never denotes a session again.  Other sessions and
/// already-retired indices are untouched.
fn remove_slot(table: &mut SessionTable, i: SessionIndex) -> (r: Option<Session>)
    ensures
        (r is Some) == old(table).live(i),
        r is Some ==> r.unwrap() == old(table).at(i),
        !final(table).live(i),
        old(table).live(i) ==> final(table).retired(i),
        forall|j: SessionIndex| j != i ==> final(table).live(j) == old(table).live(j),
        forall|j: SessionIndex|
            #[trigger] old(table).live(j) && j != i ==> final(table).at(j) == old(table).at(j),
        forall|j: SessionIndex| #[trigger] old(table).retired(j) ==> final(table).retired(j),
        r is None ==> *final(table) == *old(table),
{
    if i.slot >= table.slots.len() {
        return None;
    }
    if table.slots[i.slot].generation != i.generation {
        return None;
    }
    let occupied = match &table.slots[i.slot].occupant {
        Some(_) => true,
        None => false,
    };
    if !occupied {
        return None;
    }
    let ghost slots0 = table.slots@;
    let mut slot = table.slots.remove(i.slot);
    let r = slot.occupant.take();
    if slot.generation < u64::MAX {
        slot.generation = slot.generation + 1;
    }
    let ghost gen2 = slot.generation;
    table.slots.insert(i.slot, slot);
    proof {
        assert(table.slots@ =~= slots0.update(
            i.slot as int,
            TableSlot { generation: gen2, occupant: None },
        ));
    }
    r
}

/// The tab strip entry for one session.
pub struct Tab {
    pub label: String,
    pub index: SessionIndex,
}

/// The tab strip without the entries that point at `i`, order kept.
pub open spec fn tabs_without(ts: Seq<Tab>, i: SessionIndex) -> Seq<Tab>
    decreases ts,
{
    if ts.len() == 0 {
        Seq::empty()
    } else if ts.last().index == i {
        tabs_without(ts.drop_last(), i)
    } else {
        tabs_without(ts.drop_last(), i).push(ts.last())
    }
}

/// A discrete user action, as the front end reports it.
#[derive(Debug, Clone)]
pub enum Message {
    KeySelected(String),
    SelectedValueChanged(String),
    SelectedValueSaved,
    SelectedValueDeleted,
    ConnNameChanged(String),
    ConnValueChanged(String),
    PortValueChanged(String),
    DbValueChanged(String),
    ConnectRedis,
    RefreshKeys,
    ChangeTab(SessionIndex),
    NewTab,
    OpenCreateKeyForm,
    CreateKey,
    CreateKeyChanged(String),
    CreateValueChanged(String),
    NamespaceExpandToggle(Vec<usize>),
}

/// The controller: the session table, the active index, and the tab strip.
pub struct RedisViewer {
    pub table: SessionTable,
    pub active: Option<SessionIndex>,
    pub tabs: Vec<Tab>,
}

/// `post` differs from `pre` at most in the session at `i`: liveness,
/// retirement, every other session, the active index and the tab strip are
/// unchanged.
pub open spec fn same_but_session(pre: RedisViewer, post: RedisViewer, i: SessionIndex) -> bool {
    &&& post.active == pre.active
    &&& post.tabs == pre.tabs
    &&& pre.table.live(i)
    &&& (forall|j: SessionIndex| post.table.live(j) == pre.table.live(j))
    &&& (forall|j: SessionIndex| post.table.retired(j) == pre.table.retired(j))
    &&& (forall|j: SessionIndex|
        #[trigger] pre.table.live(j) && j != i ==> post.table.at(j) == pre.table.at(j))
}

/// `s1` keeps everything of `s0` but its editor state.
pub open spec fn same_but_editor(s0: Session, s1: Session) -> bool {
    &&& s1.label == s0.label
    &&& s1.keys == s0.keys
    &&& s1.tree == s0.tree
    &&& s1.views == s0.views
}

impl RedisViewer {
    /// All live sessions are consistent, and the active index, if any,
    /// denotes one of them.
    pub open spec fn wf(self) -> bool {
        &&& (self.active matches Some(i) ==> self.table.live(i))
        &&& (forall|j: SessionIndex| #[trigger] self.table.live(j) ==> self.table.at(j).wf())
    }

    /// Whether some session is active.
    pub open spec fn has_active(self) -> bool {
        self.active is Some
    }

    /// A fresh controller: no sessions, none active, no tabs.
    pub fn new() -> (v: RedisViewer)
        ensures
            v.wf(),
            !v.has_active(),
            v.tabs@.len() == 0,
            forall|j: SessionIndex| !(#[trigger] v.table.live(j)),
            forall|j: SessionIndex| !(#[trigger] v.table.retired(j)),
    {
        RedisViewer { table: SessionTable { slots: Vec::new() }, active: None, tabs: Vec::new() }
    }

    /// The active session's index, if any.
    pub fn active_index(&self) -> (r: Option<SessionIndex>)
        ensures
            r == self.active,
    {
        self.active
    }

    /// The active session, for rendering.
    pub fn active_session(&self) -> (r: Option<&Session>)
        ensures
            (r is Some) == (self.has_active() && self.table.live(self.active.unwrap())),
            r is Some ==> *r.unwrap() == self.table.at(self.active.unwrap()),
    {
        match self.active {
            Some(i) => self.table.get(i),
            None => None,
        }
    }

    /// The ordered tab strip: one label and stable index per session.
    pub fn tab_list(&self) -> (r: &Vec<Tab>)
        ensures
            r@ == self.tabs@,
    {
        &self.tabs
    }

    /// Opens a session for a connected server whose keys were just fetched:
    /// builds its tree and collapsed view, sets its editor idle, inserts it
    /// under a never-before-seen index, marks it active and appends its tab.
    pub fn connect_session(&mut self, label: String, keys: Vec<String>) -> (idx: SessionIndex)
        requires
            old(self).wf(),
        ensures
            final(self).wf(),
            !old(self).table.live(idx),
            !old(self).table.retired(idx),
            final(self).table.live(idx),
            final(self).active == Some(idx),
            final(self).table.at(idx).label == label,
            final(self).table.at(idx).keys == keys,
            final(self).table.at(idx).editor is Idle,
            final(self).table.at(idx).tree.model() == canonical_model(key_set(keys@)),
            final(self).table.at(idx).tree.root_key_set() == root_level_keys(key_set(keys@)),
            deep_view_list(final(self).table.at(idx).views@) == fresh_tree_views(
                final(self).table.at(idx).tree,
            ),
            forall|j: SessionIndex| j != idx ==> final(self).table.live(j) == old(self).table.live(j),
            forall|j: SessionIndex|
                #[trigger] old(self).table.live(j) ==> final(self).table.at(j) == old(
                    self,
                ).table.at(j),
            forall|j: SessionIndex|
                #[trigger] old(self).table.retired(j) ==> final(self).table.retired(j),
            final(self).tabs@ == old(self).tabs@.push(Tab { label, index: idx }),
    {
        let tab_label = label.clone();
        let tree = convert_keys_to_namespaces(&keys);
        let views = create_namespace_views(&tree);
        proof {
            lemma_fresh_tree_views_collapsed(tree);
            lemma_collapse_all_identity(fresh_tree_views(tree));
        }
        let sess = Session { label, keys, tree, views, editor: EditorState::Idle };
        let idx = insert_session(&mut self.table, sess);
        self.active = Some(idx);
        self.tabs.push(Tab { label: tab_label, index: idx });
        proof {
            assert forall|j: SessionIndex| #[trigger] self.table.live(j) implies self.table.at(
                j,
            ).wf() by {
                if j != idx {
                    assert(old(self).table.live(j));
                    assert(old(self).table.at(j).wf());
                }
            }
        }
        idx
    }

    /// Makes the session at `i` active, if `i` denotes a live one; an
    /// unknown or removed index is a no-op, the active index unchanged.
    pub fn switch_active(&mut self, i: SessionIndex) -> (ok: bool)
        requires
            old(self).wf(),
        ensures
            final(self).wf(),
            ok == old(self).table.live(i),
            ok ==> *final(self) == (RedisViewer { active: Some(i), ..*old(self) }),
            !ok ==> *final(self) == *old(self),
    {
        let live = match self.table.get(i) {
            Some(_) => true,
            None => false,
        };
        if live {
            self.active = Some(i);
            true
        } else {
            false
        }
    }

    /// Shows the connection form again: no session is active until the next
    /// connect or switch.
    pub fn new_tab(&mut self)
        requires
            old(self).wf(),
        ensures
            final(self).wf(),
            *final(self) == (RedisViewer { active: None, ..*old(self) }),
    {
        self.active = None;
    }

    /// Removes the session at `i`, retiring its index for good; its tab
    /// goes away, and if it was active, nothing is active afterwards.
    /// An unknown or already-removed index is a no-op.
    pub fn remove_session(&mut self, i: SessionIndex) -> (ok: bool)
        requires
            old(self).wf(),
        ensures
            final(self).wf(),
            ok == old(self).table.live(i),
            !final(self).table.live(i),
            ok ==> final(self).table.retired(i),
            !ok ==> *final(self) == *old(self),
            forall|j: SessionIndex| j != i ==> final(self).table.live(j) == old(self).table.live(j),
            forall|j: SessionIndex|
                #[trigger] old(self).table.live(j) && j != i ==> final(self).table.at(j) == old(
                    self,
                ).table.at(j),
            forall|j: SessionIndex|
                #[trigger] old(self).table.retired(j) ==> final(self).table.retired(j),
            final(self).active == (if old(self).active == Some(i) {
                None::<SessionIndex>
            } else {
                old(self).active
            }),
            ok ==> final(self).tabs@ == tabs_without(old(self).tabs@, i),
    {
        let live = match self.table.get(i) {
            Some(_) => true,
            None => false,
        };
        if !live {
            proof {
                assert(old(self).active == Some(i) ==> old(self).table.live(i));
            }
            return false;
        }
        let _removed = remove_slot(&mut self.table, i);
        match self.active {
            Some(a) => if a == i {
                self.active = None;
            },
            None => {},
        }
        let ghost tabs0 = self.tabs@;
        let mut kept: Vec<Tab> = Vec::new();
        let mut k: usize = 0;
        while k < self.tabs.len()
            invariant
                k <= self.tabs@.len(),
                self.tabs@ == tabs0,
                kept@ == tabs_without(tabs0.take(k as int), i),
            decreases self.tabs@.len() - k,
        {
            let keep = !(self.tabs[k].index == i);
            proof {
                let prefix = tabs0.take(k as int + 1);
                assert(prefix.drop_last() =~= tabs0.take(k as int));
                assert(prefix.last() == tabs0[k as int]);
            }
            if keep {
                let t = Tab { label: self.tabs[k].label.clone(), index: self.tabs[k].index };
                proof {
                    assert(t == tabs0[k as int]);
                }
                kept.push(t);
            }
            k += 1;
        }
        proof {
            assert(tabs0.take(tabs0.len() as int) =~= tabs0);
        }
        self.tabs = kept;
        proof {
            assert forall|j: SessionIndex| #[trigger] self.table.live(j) implies self.table.at(
                j,
            ).wf() by {
                assert(old(self).table.live(j) && j != i);
                assert(old(self).table.at(j).wf());
            }
        }
        true
    }

    /// Rebuilds the active session from a freshly fetched key list: new
    /// tree, new collapsed view, every outstanding path invalidated; the
    /// label and the editor state stay as they were.
    pub fn refresh_active(&mut self, keys: Vec<String>) -> (ok: bool)
        requires
            old(self).wf(),
        ensures
            final(self).wf(),
            ok == old(self).has_active(),
            !ok ==> *final(self) == *old(self),
            ok ==> {
                let i = old(self).active.unwrap();
                let s0 = old(self).table.at(i);
                let s1 = final(self).table.at(i);
                &&& same_but_session(*old(self), *final(self), i)
                &&& s1.label == s0.label
                &&& s1.editor == s0.editor
                &&& s1.keys == keys
                &&& s1.tree.model() == canonical_model(key_set(keys@))
                &&& s1.tree.root_key_set() == root_level_keys(key_set(keys@))
                &&& deep_view_list(s1.views@) == fresh_tree_views(s1.tree)
            },
    {
        let idx = match self.active {
            Some(i) => i,
            None => {
                return false;
            },
        };
        let sess = match take_session(&mut self.table, idx) {
            Some(s) => s,
            None => {
                return vstd::pervasive::unreached();
            },
        };
        let tree = convert_keys_to_namespaces(&keys);
        let views = create_namespace_views(&tree);
        proof {
            lemma_fresh_tree_views_collapsed(tree);
            lemma_collapse_all_identity(fresh_tree_views(tree));
        }
        let sess2 = Session { label: sess.label, keys, tree, views, editor: sess.editor };
        let ghost snap = sess2;
        put_session(&mut self.table, idx, sess2);
        proof {
            self.lemma_after_put(*old(self), idx, snap);
        }
        true
    }

    /// Selects a key whose value was just read from the store.  A plain
    /// string value opens the editor on it; a composite value or an absent
    /// key (`RedisValue::Null`) leaves the editor idle; a failed read
    /// (`fetched` of `None`) leaves the session untouched.  Without an
    /// active session nothing happens.
    pub fn select_key(&mut self, key: String, fetched: Option<RedisValue>) -> (ok: bool)
        requires
            old(self).wf(),
        ensures
            final(self).wf(),
            ok == old(self).has_active(),
            !ok ==> *final(self) == *old(self),
            ok && fetched is None ==> *final(self) == *old(self),
            ok && fetched is Some ==> {
                let i = old(self).active.unwrap();
                let s0 = old(self).table.at(i);
                &&& same_but_session(*old(self), *final(self), i)
                &&& same_but_editor(s0, final(self).table.at(i))
                &&& final(self).table.at(i).editor == spec_select(key, fetched.unwrap())
            },
    {
        let idx = match self.active {
            Some(i) => i,
            None => {
                return false;
            },
        };
        let v = match fetched {
            Some(v) => v,
            None => {
                return true;
            },
        };
        let sess = match take_session(&mut self.table, idx) {
            Some(s) => s,
            None => {
                return vstd::pervasive::unreached();
            },
        };
        let sess2 = Session { editor: editor_after_select(key, v), ..sess };
        let ghost snap = sess2;
        put_session(&mut self.table, idx, sess2);
        proof {
            self.lemma_after_put(*old(self), idx, snap);
        }
        true
    }

    /// Types into the value box: while editing, replaces the pending value;
    /// in any other state the text goes nowhere.
    pub fn edit_value_text(&mut self, s: String) -> (ok: bool)
        requires
            old(self).wf(),
        ensures
            final(self).wf(),
            ok == old(self).has_active(),
            !ok ==> *final(self) == *old(self),
            ok ==> {
                let i = old(self).active.unwrap();
                let s0 = old(self).table.at(i);
                &&& same_but_session(*old(self), *final(self), i)
                &&& same_but_editor(s0, final(self).table.at(i))
                &&& final(self).table.at(i).editor == spec_edit_value(s0.editor, s)
            },
    {
        let idx = match self.active {
            Some(i) => i,
            None => {
                return false;
            },
        };
        let sess = match take_session(&mut self.table, idx) {
            Some(s) => s,
            None => {
                return vstd::pervasive::unreached();
            },
        };
        let Session { label, keys, tree, views, editor } = sess;
        let sess2 = Session { label, keys, tree, views, editor: editor_after_edit_value(editor, s) };
        let ghost snap = sess2;
        put_session(&mut self.table, idx, sess2);
        proof {
            self.lemma_after_put(*old(self), idx, snap);
        }
        true
    }

    /// Types into the new-key box: while creating, replaces the pending
    /// key; in any other state the text goes nowhere.
    pub fn edit_create_key_text(&mut self, s: String) -> (ok: bool)
        requires
            old(self).wf(),
        ensures
            final(self).wf(),
            ok == old(self).has_active(),
            !ok ==> *final(self) == *old(self),
            ok ==> {
                let i = old(self).active.unwrap();
                let s0 = old(self).table.at(i);
                &&& same_but_session(*old(self), *final(self), i)
                &&& same_but_editor(s0, final(self).table.at(i))
                &&& final(self).table.at(i).editor == spec_edit_create_key(s0.editor, s)
            },
    {
        let idx = match self.active {
            Some(i) => i,
            None => {
                return false;
            },
        };
        let sess = match take_session(&mut self.table, idx) {
            Some(s) => s,
            None => {
                return vstd::pervasive::unreached();
            },
        };
        let Session { label, keys, tree, views, editor } = sess;
        let sess2 = Session {
            label,
            keys,
            tree,
            views,
            editor: editor_after_edit_create_key(editor, s),
        };
        let ghost snap = sess2;
        put_session(&mut self.table, idx, sess2);
        proof {
            self.lemma_after_put(*old(self), idx, snap);
        }
        true
    }

    /// Types into the new-value box: while creating, replaces the pending
    /// value; in any other state the text goes nowhere.
    pub fn edit_create_value_text(&mut self, s: String) -> (ok: bool)
        requires
            old(self).wf(),
        ensures
            final(self).wf(),
            ok == old(self).has_active(),
            !ok ==> *final(self) == *old(self),
            ok ==> {
                let i = old(self).active.unwrap();
                let s0 = old(self).table.at(i);
                &&& same_but_session(*old(self), *final(self), i)
                &&& same_but_editor(s0, final(self).table.at(i))
                &&& final(self).table.at(i).editor == spec_edit_create_value(s0.editor, s)
            },
    {
        let idx = match self.active {
            Some(i) => i,
            None => {
                return false;
            },
        };
        let sess = match take_session(&mut self.table, idx) {
            Some(s) => s,
            None => {
                return vstd::pervasive::unreached();
            },
        };
        let Session { label, keys, tree, views, editor } = sess;
        let sess2 = Session {
            label,
            keys,
            tree,
            views,
            editor: editor_after_edit_create_value(editor, s),
        };
        let ghost snap = sess2;
        put_session(&mut self.table, idx, sess2);
        proof {
            self.lemma_after_put(*old(self), idx, snap);
        }
        true
    }

    /// Opens the create form, from any editor state: the pending key and
    /// value start empty.
    pub fn open_create_form(&mut self) -> (ok: bool)
        requires
            old(self).wf(),
        ensures
            final(self).wf(),
            ok == old(self).has_active(),
            !ok ==> *final(self) == *old(self),
            ok ==> {
                let i = old(self).active.unwrap();
                let s0 = old(self).table.at(i);
                &&& same_but_session(*old(self), *final(self), i)
                &&& same_but_editor(s0, final(self).table.at(i))
                &&& final(self).table.at(i).editor matches EditorState::Creating {
                    pending_key,
                    pending_value,
                } && pending_key@ == Seq::<char>::empty() && pending_value@ == Seq::<
                    char,
                >::empty()
            },
    {
        let idx = match self.active {
            Some(i) => i,
            None => {
                return false;
            },
        };
        let sess = match take_session(&mut self.table, idx) {
            Some(s) => s,
            None => {
                return vstd::pervasive::unreached();
            },
        };
        let sess2 = Session {
            editor: EditorState::Creating {
                pending_key: String::new(),
                pending_value: String::new(),
            },
            ..sess
        };
        let ghost snap = sess2;
        put_session(&mut self.table, idx, sess2);
        proof {
            self.lemma_after_put(*old(self), idx, snap);
        }
        true
    }

    /// What a save should write: the edited key and its pending value,
    /// while the active session is editing.  Saving changes no editor
    /// state, whether the write succeeds or fails, so there is nothing to
    /// apply afterwards.
    pub fn save_edit_target(&self) -> (r: Option<(String, String)>)
        requires
            self.wf(),
        ensures
            (r is Some) == (self.has_active() && self.table.at(self.active.unwrap()).editor
                is Editing),
            r is Some ==> {
                let e = self.table.at(self.active.unwrap()).editor;
                e matches EditorState::Editing { key, pending_value } && r == Some(
                    (key, pending_value),
                )
            },
    {
        match self.active {
            None => None,
            Some(i) => match self.table.get(i) {
                None => None,
                Some(sess) => match &sess.editor {
                    EditorState::Editing { key, pending_value } => Some(
                        (key.clone(), pending_value.clone()),
                    ),
                    _ => None,
                },
            },
        }
    }

    /// What a delete should remove: the edited key, while the active
    /// session is editing.
    pub fn delete_edit_target(&self) -> (r: Option<String>)
        requires
            self.wf(),
        ensures
            (r is Some) == (self.has_active() && self.table.at(self.active.unwrap()).editor
                is Editing),
            r is Some ==> {
                let e = self.table.at(self.active.unwrap()).editor;
                e matches EditorState::Editing { key, pending_value } && r == Some(key)
            },
    {
        match self.active {
            None => None,
            Some(i) => match self.table.get(i) {
                None => None,
                Some(sess) => match &sess.editor {
                    EditorState::Editing { key, pending_value: _ } => Some(key.clone()),
                    _ => None,
                },
            },
        }
    }

    /// Applies the outcome of a delete: on success while editing, the
    /// editor falls back to idle and the caller owes a key refresh; on
    /// failure everything stays, so the edit is not lost.
    pub fn delete_edit_apply(&mut self, deleted: bool) -> (refresh: bool)
        requires
            old(self).wf(),
        ensures
            final(self).wf(),
            refresh == (deleted && old(self).has_active() && old(self).table.at(
                old(self).active.unwrap(),
            ).editor is Editing),
            !deleted ==> *final(self) == *old(self),
            !old(self).has_active() ==> *final(self) == *old(self),
            deleted && old(self).has_active() ==> {
                let i = old(self).active.unwrap();
                let s0 = old(self).table.at(i);
                &&& same_but_session(*old(self), *final(self), i)
                &&& same_but_editor(s0, final(self).table.at(i))
                &&& final(self).table.at(i).editor == (if s0.editor is Editing {
                    EditorState::Idle
                } else {
                    s0.editor
                })
            },
    {
        let idx = match self.active {
            Some(i) => i,
            None => {
                return false;
            },
        };
        if !deleted {
            return false;
        }
        let sess = match take_session(&mut self.table, idx) {
            Some(s) => s,
            None => {
                return vstd::pervasive::unreached();
            },
        };
        let Session { label, keys, tree, views, editor } = sess;
        let (editor2, fired) = match editor {
            EditorState::Editing { key: _, pending_value: _ } => (EditorState::Idle, true),
            e => (e, false),
        };
        let sess2 = Session { label, keys, tree, views, editor: editor2 };
        let ghost snap = sess2;
        put_session(&mut self.table, idx, sess2);
        proof {
            self.lemma_after_put(*old(self), idx, snap);
        }
        fired
    }

    /// What a confirmed create should write: the pending key and value,
    /// while the active session is creating.
    pub fn confirm_create_target(&self) -> (r: Option<(String, String)>)
        requires
            self.wf(),
        ensures
            (r is Some) == (self.has_active() && self.table.at(self.active.unwrap()).editor
                is Creating),
            r is Some ==> {
                let e = self.table.at(self.active.unwrap()).editor;
                e matches EditorState::Creating { pending_key, pending_value } && r == Some(
                    (pending_key, pending_value),
                )
            },
    {
        match self.active {
            None => None,
            Some(i) => match self.table.get(i) {
                None => None,
                Some(sess) => match &sess.editor {
                    EditorState::Creating { pending_key, pending_value } => Some(
                        (pending_key.clone(), pending_value.clone()),
                    ),
                    _ => None,
                },
            },
        }
    }

    /// Applies the outcome of a confirmed create: on success while
    /// creating, the editor falls back to idle and the caller owes a key
    /// refresh; on failure the form keeps its pending key and value.
    pub fn confirm_create_apply(&mut self, written: bool) -> (refresh: bool)
        requires
            old(self).wf(),
        ensures
            final(self).wf(),
            refresh == (written && old(self).has_active() && old(self).table.at(
                old(self).active.unwrap(),
            ).editor is Creating),
            !written ==> *final(self) == *old(self),
            !old(self).has_active() ==> *final(self) == *old(self),
            written && old(self).has_active() ==> {
                let i = old(self).active.unwrap();
                let s0 = old(self).table.at(i);
                &&& same_but_session(*old(self), *final(self), i)
                &&& same_but_editor(s0, final(self).table.at(i))
                &&& final(self).table.at(i).editor == (if s0.editor is Creating {
                    EditorState::Idle
                } else {
                    s0.editor
                })
            },
    {
        let idx = match self.active {
            Some(i) => i,
            None => {
                return false;
            },
        };
        if !written {
            return false;
        }
        let sess = match take_session(&mut self.table, idx) {
            Some(s) => s,
            None => {
                return vstd::pervasive::unreached();
            },
        };
        let Session { label, keys, tree, views, editor } = sess;
        let (editor2, fired) = match editor {
            EditorState::Creating { pending_key: _, pending_value: _ } => (EditorState::Idle, true),
            e => (e, false),
        };
        let sess2 = Session { label, keys, tree, views, editor: editor2 };
        let ghost snap = sess2;
        put_session(&mut self.table, idx, sess2);
        proof {
            self.lemma_after_put(*old(self), idx, snap);
        }
        fired
    }

    /// Toggles the expansion of the view node the path addresses, in the
    /// active session.  A stale or out-of-range path, or no active session,
    /// is a reported no-op: the view stays as it was.
    pub fn toggle_namespace(&mut self, path: &Vec<usize>) -> (ok: bool)
        requires
            old(self).wf(),
        ensures
            final(self).wf(),
            !old(self).has_active() ==> !ok && *final(self) == *old(self),
            old(self).has_active() ==> {
                let i = old(self).active.unwrap();
                let s0 = old(self).table.at(i);
                let s1 = final(self).table.at(i);
                &&& ok == (view_node_at(deep_view_list(s0.views@), path@) is Some)
                &&& same_but_session(*old(self), *final(self), i)
                &&& s1.label == s0.label
                &&& s1.keys == s0.keys
                &&& s1.tree == s0.tree
                &&& s1.editor == s0.editor
                &&& deep_view_list(s1.views@) == toggle_model(deep_view_list(s0.views@), path@)
                &&& !ok ==> s1 == s0
            },
    {
        let idx = match self.active {
            Some(i) => i,
            None => {
                return false;
            },
        };
        let mut sess = match take_session(&mut self.table, idx) {
            Some(s) => s,
            None => {
                return vstd::pervasive::unreached();
            },
        };
        let ok = toggle(&mut sess.views, path);
        proof {
            lemma_toggle_keeps_shape(deep_view_list(old(self).table.at(idx).views@), path@);
        }
        let ghost snap = sess;
        put_session(&mut self.table, idx, sess);
        proof {
            self.lemma_after_put(*old(self), idx, snap);
        }
        ok
    }

    /// After a take/put round trip on the session at `i` that left `s1`
    /// there, everything else stands as before.
    proof fn lemma_after_put(self, pre: RedisViewer, i: SessionIndex, s1: Session)
        requires
            pre.wf(),
            pre.table.live(i),
            self.active == pre.active,
            self.tabs == pre.tabs,
            self.table.slots@ == pre.table.slots@.update(
                i.slot as int,
                TableSlot { generation: i.generation, occupant: None },
            ).update(i.slot as int, TableSlot { generation: i.generation, occupant: Some(s1) }),
            s1.wf(),
        ensures
            self.wf(),
            same_but_session(pre, self, i),
            self.table.at(i) == s1,
    {
        assert(self.table.slots@ =~= pre.table.slots@.update(
            i.slot as int,
            TableSlot { generation: i.generation, occupant: Some(s1) },
        ));
        assert forall|j: SessionIndex| self.table.live(j) == pre.table.live(j) by {}
        assert forall|j: SessionIndex| self.table.retired(j) == pre.table.retired(j) by {}
        assert forall|j: SessionIndex| #[trigger] self.table.live(j) implies self.table.at(
            j,
        ).wf() by {
            if j != i {
                assert(pre.table.live(j));
                assert(pre.table.at(j).wf());
                assert(self.table.at(j) == pre.table.at(j));
            }
        }
    }
}

} // verus!
