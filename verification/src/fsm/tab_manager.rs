//! The set of open tabs, which one is in front, and their life-cycle states.
use vstd::prelude::*;
use std::time::Instant;
use crate::clock::instant_now;
use crate::text::str_chars;

verus! {

/// How far a tab has decayed since it was last in front.
#[derive(Debug, Clone, Copy, PartialEq, Eq)]
pub enum TabState {
    Level0Focus,
    Level1Emptying,
    Level2Suspended,
    Level3Terminal,
}

/// One open tab.
#[derive(Clone)]
pub struct Tab {
    pub id: u32,
    pub url: String,
    pub title: String,
    pub snapshot: Option<Vec<u8>>,
    pub state: TabState,
    pub background_since: Option<Instant>,
}

/// What the decay machine asks the host to do.
pub enum FsmAction {
    NoAction,
    RequestDestruction,
}

/// The open tabs and the index of the one in front.
pub struct TabManager {
    pub tabs: Vec<Tab>,
    pub active_index: usize,
    pub next_id: u32,
}

/// The address a fresh window or an emptied tab list starts with.
pub open spec fn start_page() -> Seq<char> {
    "https://magma.browser/local_cache"@
}

/// The bytes of `n mod 2^32` as a little-endian `u32`.
pub open spec fn le_u32_bytes(n: nat) -> Seq<u8> {
    let m = n % 0x1_0000_0000;
    seq![(m % 256) as u8, ((m / 256) % 256) as u8, ((m / 65536) % 256) as u8, (m / 16777216) as u8]
}

/// The result of `lz4_flex::compress_prepend_size` on the given bytes.
pub uninterp spec fn lz4_compress_prepend_size(input: Seq<u8>) -> Seq<u8>;

/// Compresses a frame with `lz4_flex::compress_prepend_size`. Claimed: the
/// result is that function of the input bytes; it starts with the input's
/// length as a little-endian `u32` (the crate writes `input.len() as u32`),
/// and is no longer than the crate's bound `4 + 16 + 4 + len * 110 / 100`.
/// The compressed body itself is not described.
#[verifier::external_body]
fn compress_prepend_size(input: &[u8]) -> (out: Vec<u8>)
    requires
        input@.len() * 110 <= usize::MAX,
    ensures
        out@ == lz4_compress_prepend_size(input@),
        out@.len() >= 4,
        out@.len() <= 24 + input@.len() * 110 / 100,
        out@.take(4) == le_u32_bytes(input@.len()),
{
    lz4_flex::compress_prepend_size(input)
}

/// Two tabs agree on everything but their life-cycle fields.
pub open spec fn same_content(a: Tab, b: Tab) -> bool {
    &&& a.id == b.id
    &&& a.url == b.url
    &&& a.title == b.title
    &&& a.snapshot == b.snapshot
}

/// A fresh tab with the given id and address, in front, without title or snapshot.
pub open spec fn is_fresh_tab(t: Tab, id: u32, url: Seq<char>) -> bool {
    &&& t.id == id
    &&& t.url@ == url
    &&& t.title@ == Seq::<char>::empty()
    &&& t.snapshot is None
    &&& t.state == TabState::Level0Focus
    &&& t.background_since is None
}

/// Index of the first tab whose id is `id`.
pub open spec fn first_with_id(tabs: Seq<Tab>, id: u32) -> Option<int> {
    if exists|k: int| 0 <= k < tabs.len() && tabs[k].id == id {
        Some(choose|k: int| 0 <= k < tabs.len() && tabs[k].id == id && forall|j: int| 0 <= j < k ==> tabs[j].id != id)
    } else {
        None
    }
}

/// What `first_with_id` gives, stated pointwise.
pub proof fn lemma_first_with_id_props(tabs: Seq<Tab>, id: u32)
    ensures
        first_with_id(tabs, id) matches Some(k) ==> 0 <= k < tabs.len() && tabs[k].id == id
            && forall|j: int| 0 <= j < k ==> tabs[j].id != id,
        first_with_id(tabs, id) is None ==> forall|k: int| 0 <= k < tabs.len() ==> tabs[k].id != id,
{
    if exists|k: int| 0 <= k < tabs.len() && tabs[k].id == id {
        let k0 = choose|k: int| 0 <= k < tabs.len() && tabs[k].id == id;
        lemma_least_with_id(tabs, id, k0);
    }
}

proof fn lemma_least_with_id(tabs: Seq<Tab>, id: u32, k0: int)
    requires
        0 <= k0 < tabs.len(),
        tabs[k0].id == id,
    ensures
        exists|k: int| 0 <= k < tabs.len() && tabs[k].id == id && forall|j: int| 0 <= j < k ==> tabs[j].id != id,
    decreases k0,
{
    if exists|j: int| 0 <= j < k0 && tabs[j].id == id {
        let j0 = choose|j: int| 0 <= j < k0 && tabs[j].id == id;
        lemma_least_with_id(tabs, id, j0);
    } else {
        assert(0 <= k0 < tabs.len() && tabs[k0].id == id && forall|j: int| 0 <= j < k0 ==> tabs[j].id != id);
    }
}

/// A position holding `id` with no earlier `id` is the first one.
proof fn lemma_first_with_id(tabs: Seq<Tab>, id: u32, k: int)
    requires
        0 <= k < tabs.len(),
        tabs[k].id == id,
        forall|j: int| 0 <= j < k ==> tabs[j].id != id,
    ensures
        first_with_id(tabs, id) == Some(k),
{
    let c = choose|c: int| 0 <= c < tabs.len() && tabs[c].id == id && forall|j: int| 0 <= j < c ==> tabs[j].id != id;
    assert(0 <= c < tabs.len() && tabs[c].id == id && forall|j: int| 0 <= j < c ==> tabs[j].id != id);
    if c < k {
        assert(tabs[c].id != id);
    }
    if k < c {
        assert(tabs[k].id != id);
    }
}

/// The index that a tab list of `new_len` tabs puts in front after the tab at
/// `removed` was closed while `active` was in front.
pub open spec fn active_after_close(active: usize, removed: usize, new_len: usize) -> usize {
    if active >= new_len {
        (new_len - 1) as usize
    } else if removed < active {
        (active - 1) as usize
    } else {
        active
    }
}

impl TabManager {
    /// The id the next tab will get.
    pub open spec fn spec_next_id(&self) -> u32 {
        self.next_id
    }

    /// The manager's own invariant: at least one tab, a tab in front, and
    /// distinct ids that are all below the next id to hand out.
    pub open spec fn wf(&self) -> bool {
        &&& self.tabs@.len() > 0
        &&& self.active_index < self.tabs@.len()
        &&& forall|i: int, j: int|
            0 <= i < j < self.tabs@.len() ==> self.tabs@[i].id != self.tabs@[j].id
        &&& forall|i: int| 0 <= i < self.tabs@.len() ==> self.tabs@[i].id < self.spec_next_id()
    }

    /// A manager with one tab on the start page.
    pub fn new() -> (tm: Self)
        ensures
            tm.wf(),
            tm.tabs@.len() == 1,
            tm.active_index == 0,
            is_fresh_tab(tm.tabs@[0], 1, start_page()),
            tm.spec_next_id() == 2,
    {
        let mut tm = Self { tabs: Vec::new(), active_index: 0, next_id: 1 };
        let url = crate::text::string_from_chars(str_chars("https://magma.browser/local_cache").as_slice());
        tm.new_tab(url);
        tm
    }

    /// Opens a tab on `url` and puts it in front.
    pub fn new_tab(&mut self, url: String)
        requires
            old(self).spec_next_id() < u32::MAX,
        ensures
            final(self).tabs@.len() == old(self).tabs@.len() + 1,
            final(self).tabs@.take(old(self).tabs@.len() as int) == old(self).tabs@,
            is_fresh_tab(final(self).tabs@.last(), old(self).spec_next_id(), url@),
            final(self).active_index == old(self).tabs@.len(),
            final(self).spec_next_id() == old(self).spec_next_id() + 1,
            old(self).wf() || old(self).tabs@.len() == 0 ==> final(self).wf(),
    {
        let tab = Tab {
            id: self.next_id,
            url,
            title: String::new(),
            snapshot: None,
            state: TabState::Level0Focus,
            background_since: None,
        };
        self.next_id += 1;
        self.tabs.push(tab);
        self.active_index = self.tabs.len() - 1;
        assert(self.tabs@.take(old(self).tabs@.len() as int) =~= old(self).tabs@);
    }

    /// Closes the tab at `index`, giving its id; an empty list is refilled with
    /// a tab on the start page. Out-of-range indices change nothing.
    pub fn close_tab(&mut self, index: usize) -> (r: Option<u32>)
        requires
            old(self).tabs@.len() == 1 && index == 0 ==> old(self).spec_next_id() < u32::MAX,
        ensures
            index >= old(self).tabs@.len() ==> r is None && *final(self) == *old(self),
            index < old(self).tabs@.len() ==> {
                &&& r == Some(old(self).tabs@[index as int].id)
                &&& if old(self).tabs@.len() == 1 {
                    &&& final(self).tabs@.len() == 1
                    &&& is_fresh_tab(final(self).tabs@[0], old(self).spec_next_id(), start_page())
                    &&& final(self).active_index == 0
                    &&& final(self).spec_next_id() == old(self).spec_next_id() + 1
                } else {
                    &&& final(self).tabs@ == old(self).tabs@.remove(index as int)
                    &&& final(self).active_index == active_after_close(
                        old(self).active_index,
                        index,
                        final(self).tabs@.len() as usize,
                    )
                    &&& final(self).spec_next_id() == old(self).spec_next_id()
                }
            },
            // The list is never left empty, and something is always in front.
            index < old(self).tabs@.len() ==> final(self).tabs@.len() > 0
                && final(self).active_index < final(self).tabs@.len(),
            old(self).wf() ==> final(self).wf(),
            // Closing the front tab brings in front the tab that followed it,
            // or the one before it when it was the last.
            old(self).wf() && index < old(self).tabs@.len() && index == old(self).active_index
                && old(self).tabs@.len() > 1 ==> final(self).tabs@[final(self).active_index as int].id == (
                if index + 1 < old(self).tabs@.len() {
                    old(self).tabs@[index + 1].id
                } else {
                    old(self).tabs@[index - 1].id
                }),
            // Closing a tab behind the front one keeps the same tab in front.
            old(self).wf() && index < old(self).tabs@.len() && index != old(self).active_index
                ==> final(self).tabs@[final(self).active_index as int].id
                == old(self).tabs@[old(self).active_index as int].id,
    {
        if index < self.tabs.len() {
            let removed_id = self.tabs.remove(index).id;
            if self.tabs.len() == 0 {
                let url = crate::text::string_from_chars(
                    str_chars("https://magma.browser/local_cache").as_slice(),
                );
                self.new_tab(url);
            } else if self.active_index >= self.tabs.len() {
                self.active_index = self.tabs.len() - 1;
            } else if index < self.active_index {
                self.active_index -= 1;
            }
            proof {
                if old(self).wf() && old(self).tabs@.len() > 1 {
                    let o = old(self).tabs@;
                    let n = self.tabs@;
                    assert(n =~= o.remove(index as int));
                    assert forall|i: int, j: int| 0 <= i < j < n.len() implies n[i].id != n[j].id by {
                        let oi = if i < index { i } else { i + 1 };
                        let oj = if j < index { j } else { j + 1 };
                        assert(n[i] == o[oi] && n[j] == o[oj]);
                    }
                    assert forall|i: int| 0 <= i < n.len() implies n[i].id < self.next_id by {
                        let oi = if i < index { i } else { i + 1 };
                        assert(n[i] == o[oi]);
                    }
                }
            }
            Some(removed_id)
        } else {
            None
        }
    }

    /// The tab in front, if the front index is valid.
    pub fn get_active_tab(&self) -> (r: Option<&Tab>)
        ensures
            self.active_index < self.tabs@.len() ==> r == Some(&self.tabs@[self.active_index as int]),
            self.active_index >= self.tabs@.len() ==> r is None,
    {
        if self.active_index < self.tabs.len() {
            Some(&self.tabs[self.active_index])
        } else {
            None
        }
    }

    /// Mutable access to the tab in front, if the front index is valid.
    pub fn get_active_tab_mut(&mut self) -> (r: Option<&mut Tab>)
        ensures
            old(self).active_index >= old(self).tabs@.len() ==> r is None && *final(self) == *old(self),
            old(self).active_index < old(self).tabs@.len() ==> r is Some,
            r matches Some(t) ==> {
                &&& *t == old(self).tabs@[old(self).active_index as int]
                &&& final(self).tabs@ == old(self).tabs@.update(old(self).active_index as int, *final(t))
                &&& final(self).active_index == old(self).active_index
                &&& final(self).spec_next_id() == old(self).spec_next_id()
            },
    {
        if self.active_index < self.tabs.len() {
            Some(&mut self.tabs[self.active_index])
        } else {
            None
        }
    }

    /// Puts the tab at `new_index` in front. The tab that leaves the front is
    /// stamped with the time it went to the background; the one that comes in
    /// front loses its stamp. Gives whether anything changed.
    pub fn switch_tab(&mut self, new_index: usize) -> (r: bool)
        ensures
            r == (new_index < old(self).tabs@.len() && new_index != old(self).active_index),
            !r ==> *final(self) == *old(self),
            r ==> {
                let o = old(self).tabs@;
                let n = final(self).tabs@;
                &&& n.len() == o.len()
                &&& final(self).active_index == new_index
                &&& final(self).spec_next_id() == old(self).spec_next_id()
                &&& forall|i: int| 0 <= i < n.len() ==> same_content(#[trigger] n[i], o[i])
                &&& forall|i: int|
                    0 <= i < n.len() && i != new_index && i != old(self).active_index ==> #[trigger] n[i] == o[i]
                &&& n[new_index as int].state == TabState::Level0Focus
                &&& n[new_index as int].background_since is None
                &&& old(self).active_index < o.len() ==> n[old(self).active_index as int].state
                    == TabState::Level0Focus && n[old(self).active_index as int].background_since is Some
            },
            old(self).wf() ==> final(self).wf(),
    {
        if new_index < self.tabs.len() && new_index != self.active_index {
            let now = instant_now();
            if self.active_index < self.tabs.len() {
                let cur = self.active_index;
                self.tabs[cur].state = TabState::Level0Focus;
                self.tabs[cur].background_since = Some(now);
            }
            self.active_index = new_index;
            self.tabs[new_index].state = TabState::Level0Focus;
            self.tabs[new_index].background_since = None;
            return true;
        }
        false
    }

    /// Marks the tab in front as focused. (Resuming the engine behind it is
    /// the host's part.)
    pub fn set_foreground(&mut self) -> (r: Result<(), String>)
        ensures
            r is Ok,
            final(self).active_index == old(self).active_index,
            final(self).spec_next_id() == old(self).spec_next_id(),
            old(self).active_index >= old(self).tabs@.len() ==> final(self).tabs@ == old(self).tabs@,
            old(self).active_index < old(self).tabs@.len() ==> {
                let a = old(self).active_index as int;
                &&& final(self).tabs@.len() == old(self).tabs@.len()
                &&& forall|i: int| 0 <= i < final(self).tabs@.len() && i != a ==> #[trigger] final(self).tabs@[i] == old(self).tabs@[i]
                &&& same_content(final(self).tabs@[a], old(self).tabs@[a])
                &&& final(self).tabs@[a].state == TabState::Level0Focus
                &&& final(self).tabs@[a].background_since is None
            },
            old(self).wf() ==> final(self).wf(),
    {
        if self.active_index < self.tabs.len() {
            let a = self.active_index;
            self.tabs[a].state = TabState::Level0Focus;
            self.tabs[a].background_since = None;
        }
        Ok(())
    }

    /// Mutable access to the first tab with the given id.
    pub fn get_tab_mut(&mut self, id: u32) -> (r: Option<&mut Tab>)
        ensures
            first_with_id(old(self).tabs@, id) is None ==> r is None && *final(self) == *old(self),
            first_with_id(old(self).tabs@, id) is Some ==> r is Some,
            r matches Some(t) ==> {
                let k = first_with_id(old(self).tabs@, id)->0;
                &&& *t == old(self).tabs@[k]
                &&& final(self).tabs@ == old(self).tabs@.update(k, *final(t))
                &&& final(self).active_index == old(self).active_index
                &&& final(self).spec_next_id() == old(self).spec_next_id()
            },
    {
        let mut i: usize = 0;
        while i < self.tabs.len()
            invariant
                *self == *old(self),
                i <= self.tabs@.len(),
                forall|j: int| 0 <= j < i ==> self.tabs@[j].id != id,
            decreases self.tabs@.len() - i,
        {
            if self.tabs[i].id == id {
                proof {
                    lemma_first_with_id(self.tabs@, id, i as int);
                }
                return Some(&mut self.tabs[i]);
            }
            i += 1;
        }
        proof {
            if first_with_id(self.tabs@, id) is Some {
                let k = choose|k: int| 0 <= k < self.tabs@.len() && self.tabs@[k].id == id;
                assert(self.tabs@[k].id != id);
            }
        }
        None
    }

    /// Sets the title of the tab with the given id, if there is one.
    pub fn update_tab_title(&mut self, id: u32, title: String)
        ensures
            final(self).active_index == old(self).active_index,
            final(self).spec_next_id() == old(self).spec_next_id(),
            first_with_id(old(self).tabs@, id) is None ==> final(self).tabs@ == old(self).tabs@,
            first_with_id(old(self).tabs@, id) matches Some(k) ==> final(self).tabs@
                == old(self).tabs@.update(k, Tab { title: title, ..old(self).tabs@[k] }),
            old(self).wf() ==> final(self).wf(),
    {
        if let Some(tab) = self.get_tab_mut(id) {
            tab.title = title;
        }
        proof {
            if let Some(k) = first_with_id(old(self).tabs@, id) {
                assert(self.tabs@ =~= old(self).tabs@.update(k, Tab { title: title, ..old(self).tabs@[k] }));
            }
        }
    }

    /// Sets the address of the tab with the given id, if there is one.
    pub fn update_tab_url(&mut self, id: u32, url: String)
        ensures
            final(self).active_index == old(self).active_index,
            final(self).spec_next_id() == old(self).spec_next_id(),
            first_with_id(old(self).tabs@, id) is None ==> final(self).tabs@ == old(self).tabs@,
            first_with_id(old(self).tabs@, id) matches Some(k) ==> final(self).tabs@
                == old(self).tabs@.update(k, Tab { url: url, ..old(self).tabs@[k] }),
            old(self).wf() ==> final(self).wf(),
    {
        if let Some(tab) = self.get_tab_mut(id) {
            tab.url = url;
        }
        proof {
            if let Some(k) = first_with_id(old(self).tabs@, id) {
                assert(self.tabs@ =~= old(self).tabs@.update(k, Tab { url: url, ..old(self).tabs@[k] }));
            }
        }
    }

    /// Sets the address of the tab in front.
    pub fn update_active_url(&mut self, url: String)
        ensures
            final(self).active_index == old(self).active_index,
            final(self).spec_next_id() == old(self).spec_next_id(),
            old(self).active_index >= old(self).tabs@.len() ==> final(self).tabs@ == old(self).tabs@,
            old(self).active_index < old(self).tabs@.len() ==> final(self).tabs@
                == old(self).tabs@.update(
                old(self).active_index as int,
                Tab { url: url, ..old(self).tabs@[old(self).active_index as int] },
            ),
            old(self).wf() ==> final(self).wf(),
    {
        if let Some(active) = self.get_active_tab_mut() {
            active.url = url;
        }
        proof {
            if old(self).active_index < old(self).tabs@.len() {
                assert(self.tabs@ =~= old(self).tabs@.update(
                    old(self).active_index as int,
                    Tab { url: url, ..old(self).tabs@[old(self).active_index as int] },
                ));
            }
        }
    }

    /// Stores the compressed frame as the snapshot of the tab in front.
    pub fn save_active_snapshot(&mut self, frame_data: Vec<u8>)
        requires
            frame_data@.len() * 110 <= usize::MAX,
        ensures
            final(self).active_index == old(self).active_index,
            final(self).spec_next_id() == old(self).spec_next_id(),
            old(self).active_index >= old(self).tabs@.len() ==> final(self).tabs@ == old(self).tabs@,
            old(self).active_index < old(self).tabs@.len() ==> {
                let a = old(self).active_index as int;
                &&& final(self).tabs@.len() == old(self).tabs@.len()
                &&& forall|i: int| 0 <= i < final(self).tabs@.len() && i != a ==> #[trigger] final(self).tabs@[i] == old(self).tabs@[i]
                &&& final(self).tabs@[a].snapshot matches Some(s) && s@ == lz4_compress_prepend_size(frame_data@)
                &&& final(self).tabs@[a].id == old(self).tabs@[a].id
                &&& final(self).tabs@[a].url == old(self).tabs@[a].url
                &&& final(self).tabs@[a].title == old(self).tabs@[a].title
                &&& final(self).tabs@[a].state == old(self).tabs@[a].state
                &&& final(self).tabs@[a].background_since == old(self).tabs@[a].background_since
            },
            old(self).wf() ==> final(self).wf(),
    {
        if let Some(active) = self.get_active_tab_mut() {
            let compressed = compress_prepend_size(frame_data.as_slice());
            active.snapshot = Some(compressed);
        }
    }

    /// One step of the decay machine. With a single live web view there is
    /// nothing left to decay, so it never asks for anything.
    pub fn tick(&mut self) -> (r: Result<FsmAction, String>)
        ensures
            r matches Ok(FsmAction::NoAction),
            *final(self) == *old(self),
    {
        Ok(FsmAction::NoAction)
    }
}

} // verus!
