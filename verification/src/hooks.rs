//! The hook registry and the dispatch rules.
//!
//! A [`HookDB`] maps numeric hook ids to [`Hook`] definitions and keeps one
//! ordered bucket of ids per recognized [`EventKind`]. Registration of a
//! hook with an unrecognized kind is rejected atomically. The dispatch
//! step decides, for each message the loop receives, whether to keep
//! running and which hooks to fire.

use vstd::prelude::*;
use crate::config::Hook;
use crate::context::Context;
use crate::msgs::EventCmd;
use crate::text::{split_first, split_once_char, str_eq};

verus! {

/// Surrogate key for a registered hook, assigned by a monotonically
/// increasing counter and never reused within a process lifetime.
pub type HookID = u16;

/// The hook table: registration order, ids strictly increasing.
pub type Hooks = Vec<(HookID, Hook)>;

/// The closed set of observable change categories a hook can subscribe to.
#[derive(Clone, Copy, PartialEq, Eq, Structural, Debug)]
pub enum EventKind {
    WifiChange,
    NetworkToggle,
    Backlight,
    NewUsbDevice,
    BluetoothDevice,
    PortStatusChange,
}

/// The event kind a configuration string names, if any.
pub open spec fn event_kind_of(s: Seq<char>) -> Option<EventKind> {
    if s == "wifi-network-change"@ {
        Some(EventKind::WifiChange)
    } else if s == "network-toggle"@ {
        Some(EventKind::NetworkToggle)
    } else if s == "backlight"@ {
        Some(EventKind::Backlight)
    } else if s == "new-usb-device"@ {
        Some(EventKind::NewUsbDevice)
    } else if s == "bluetooth-device"@ {
        Some(EventKind::BluetoothDevice)
    } else if s == "port-status-change"@ {
        Some(EventKind::PortStatusChange)
    } else {
        None
    }
}

/// Parses an event-kind name.
pub fn parse_event_kind(s: &str) -> (r: Option<EventKind>)
    ensures
        r == event_kind_of(s@),
{
    if str_eq(s, "wifi-network-change") {
        Some(EventKind::WifiChange)
    } else if str_eq(s, "network-toggle") {
        Some(EventKind::NetworkToggle)
    } else if str_eq(s, "backlight") {
        Some(EventKind::Backlight)
    } else if str_eq(s, "new-usb-device") {
        Some(EventKind::NewUsbDevice)
    } else if str_eq(s, "bluetooth-device") {
        Some(EventKind::BluetoothDevice)
    } else if str_eq(s, "port-status-change") {
        Some(EventKind::PortStatusChange)
    } else {
        None
    }
}

/// The ids, in table order, of the hooks registered for kind `k`.
pub open spec fn bucket_ids(s: Seq<(HookID, Hook)>, k: EventKind) -> Seq<HookID>
    decreases s.len(),
{
    if s.len() == 0 {
        Seq::empty()
    } else {
        let pre = bucket_ids(s.drop_last(), k);
        if event_kind_of(s.last().1.event@) == Some(k) {
            pre.push(s.last().0)
        } else {
            pre
        }
    }
}

pub proof fn lemma_bucket_ids_push(s: Seq<(HookID, Hook)>, p: (HookID, Hook), k: EventKind)
    ensures
        bucket_ids(s.push(p), k) == if event_kind_of(p.1.event@) == Some(k) {
            bucket_ids(s, k).push(p.0)
        } else {
            bucket_ids(s, k)
        },
{
    assert(s.push(p).drop_last() =~= s);
    assert(s.push(p).last() == p);
}

/// The hooks of the list that name a recognized event kind, in order.
pub open spec fn recognized_hooks(hooks: Seq<Hook>) -> Seq<Hook> {
    hooks.filter(|h: Hook| event_kind_of(h.event@) is Some)
}

/// How many of the given hooks name a recognized event kind.
pub open spec fn recognized_count(hooks: Seq<Hook>) -> int
    decreases hooks.len(),
{
    if hooks.len() == 0 {
        0
    } else {
        recognized_count(hooks.drop_last()) + if event_kind_of(hooks.last().event@) is Some {
            1int
        } else {
            0int
        }
    }
}

pub proof fn lemma_recognized_count_bounds(hooks: Seq<Hook>)
    ensures
        0 <= recognized_count(hooks) <= hooks.len(),
    decreases hooks.len(),
{
    if hooks.len() > 0 {
        lemma_recognized_count_bounds(hooks.drop_last());
    }
}

/// The in-memory registry of hooks, indexed by id and by event-kind bucket.
pub struct HookDB {
    pub hooks: Hooks,
    pub next_uid: HookID,
    pub wifi_net: Vec<HookID>,
    pub net_con: Vec<HookID>,
    pub backlight: Vec<HookID>,
    pub usb_dev: Vec<HookID>,
    pub bluetooth_conn: Vec<HookID>,
    pub ports_change: Vec<HookID>,
}

impl HookDB {
    /// The bucket holding the ids registered for kind `k`.
    pub open spec fn bucket(self, k: EventKind) -> Seq<HookID> {
        match k {
            EventKind::WifiChange => self.wifi_net@,
            EventKind::NetworkToggle => self.net_con@,
            EventKind::Backlight => self.backlight@,
            EventKind::NewUsbDevice => self.usb_dev@,
            EventKind::BluetoothDevice => self.bluetooth_conn@,
            EventKind::PortStatusChange => self.ports_change@,
        }
    }

    /// The registry invariant: ids strictly increase in table order and
    /// stay below the counter, every registered hook names a recognized
    /// kind, and each bucket holds exactly the ids of its kind's hooks,
    /// in registration order.
    pub open spec fn wf(self) -> bool {
        &&& forall|i: int, j: int|
            0 <= i < j < self.hooks@.len() ==> self.hooks@[i].0 < self.hooks@[j].0
        &&& forall|i: int|
            0 <= i < self.hooks@.len() ==> (#[trigger] self.hooks@[i]).0 < self.next_uid
        &&& forall|i: int|
            0 <= i < self.hooks@.len() ==> event_kind_of(
                (#[trigger] self.hooks@[i]).1.event@,
            ) is Some
        &&& forall|k: EventKind| #[trigger] self.bucket(k) == bucket_ids(self.hooks@, k)
    }

    /// An empty registry.
    pub fn new() -> (db: HookDB)
        ensures
            db.wf(),
            db.hooks@ == Seq::<(HookID, Hook)>::empty(),
            db.next_uid == 0,
            forall|k: EventKind| #[trigger] db.bucket(k) == Seq::<HookID>::empty(),
    {
        let db = HookDB {
            hooks: Vec::new(),
            next_uid: 0,
            wifi_net: Vec::new(),
            net_con: Vec::new(),
            backlight: Vec::new(),
            usb_dev: Vec::new(),
            bluetooth_conn: Vec::new(),
            ports_change: Vec::new(),
        };
        proof {
            assert(db.hooks@ =~= Seq::<(HookID, Hook)>::empty());
            assert(forall|k: EventKind| #[trigger] db.bucket(k) =~= Seq::<HookID>::empty());
        }
        db
    }

    /// Registers a hook: the id is the current counter value, the hook
    /// goes into the table and into the bucket matching its event kind.
    /// A hook naming an unrecognized kind is rejected with no mutation.
    pub fn add_hook(&mut self, hook: Hook) -> (r: Result<(), ()>)
        requires
            old(self).wf(),
            old(self).next_uid < HookID::MAX,
        ensures
            final(self).wf(),
            match event_kind_of(hook.event@) {
                None => r is Err && unchanged_db(*old(self), *final(self)),
                Some(k) => r is Ok && added_hook(*old(self), *final(self), hook, k),
            },
    {
        let hook_id = self.next_uid;
        let kind = match parse_event_kind(hook.event.as_str()) {
            Some(kind) => kind,
            None => {
                return Err(());
            },
        };
        match kind {
            EventKind::WifiChange => self.wifi_net.push(hook_id),
            EventKind::NetworkToggle => self.net_con.push(hook_id),
            EventKind::Backlight => self.backlight.push(hook_id),
            EventKind::NewUsbDevice => self.usb_dev.push(hook_id),
            EventKind::BluetoothDevice => self.bluetooth_conn.push(hook_id),
            EventKind::PortStatusChange => self.ports_change.push(hook_id),
        }
        let ghost pre = old(self).hooks@;
        self.hooks.push((hook_id, hook));
        self.next_uid = self.next_uid + 1;
        proof {
            let p = (hook_id, hook);
            assert(self.hooks@ =~= pre.push(p));
            assert forall|k2: EventKind| #[trigger] self.bucket(k2) == bucket_ids(
                self.hooks@,
                k2,
            ) by {
                lemma_bucket_ids_push(pre, p, k2);
                assert(old(self).bucket(k2) == bucket_ids(pre, k2));
            }
        }
        Ok(())
    }

    /// Folds every hook of `new_db` into this registry, re-assigning ids.
    /// Every hook of a well-formed registry names a recognized kind, so
    /// none is rejected and the table grows by `new_db`'s size.
    pub fn update(&mut self, new_db: HookDB)
        requires
            old(self).wf(),
            new_db.wf(),
            old(self).next_uid + new_db.hooks@.len() <= HookID::MAX,
        ensures
            final(self).wf(),
            final(self).hooks@.len() == old(self).hooks@.len() + new_db.hooks@.len(),
            final(self).next_uid == old(self).next_uid + new_db.hooks@.len(),
            final(self).hooks@.take(old(self).hooks@.len() as int) == old(self).hooks@,
            hook_list(final(self).hooks@) == hook_list(old(self).hooks@) + hook_list(
                new_db.hooks@,
            ),
    {
        let n = new_db.hooks.len();
        let mut i: usize = 0;
        while i < n
            invariant
                self.wf(),
                new_db.wf(),
                n == new_db.hooks@.len(),
                i <= n,
                old(self).next_uid + n <= HookID::MAX,
                self.hooks@.len() == old(self).hooks@.len() + i,
                self.next_uid == old(self).next_uid + i,
                self.hooks@.take(old(self).hooks@.len() as int) =~= old(self).hooks@,
                hook_list(self.hooks@) =~= hook_list(old(self).hooks@) + hook_list(
                    new_db.hooks@.take(i as int),
                ),
            decreases n - i,
        {
            let ghost pre = self.hooks@;
            let hook = new_db.hooks[i].1.duplicate();
            let ghost hsnap = hook;
            proof {
                assert(event_kind_of(new_db.hooks@[i as int].1.event@) is Some);
            }
            match self.add_hook(hook) {
                Ok(()) => {},
                Err(()) => {},
            }
            i = i + 1;
            proof {
                let gi = i as int - 1;
                assert(hsnap == new_db.hooks@[gi].1);
                assert(self.hooks@.take(old(self).hooks@.len() as int) =~= pre.take(
                    old(self).hooks@.len() as int,
                ));
                assert(hook_list(self.hooks@) =~= hook_list(pre).push(hsnap));
                assert(new_db.hooks@.take(gi + 1) =~= new_db.hooks@.take(gi).push(
                    new_db.hooks@[gi],
                ));
                assert(hook_list(new_db.hooks@.take(gi + 1)) =~= hook_list(
                    new_db.hooks@.take(gi),
                ).push(new_db.hooks@[gi].1));
                assert(hook_list(self.hooks@) =~= hook_list(old(self).hooks@) + hook_list(
                    new_db.hooks@.take(i as int),
                ));
            }
        }
        proof {
            assert(new_db.hooks@.take(n as int) =~= new_db.hooks@);
        }
    }
}

impl Default for HookDB {
    /// An empty registry, as [`HookDB::new`] builds it.
    fn default() -> (db: HookDB)
        ensures
            db.wf(),
            db.hooks@ == Seq::<(HookID, Hook)>::empty(),
            db.next_uid == 0,
            forall|k: EventKind| #[trigger] db.bucket(k) == Seq::<HookID>::empty(),
    {
        HookDB::new()
    }
}

/// The hooks of the table, in registration order, without their ids.
pub open spec fn hook_list(s: Seq<(HookID, Hook)>) -> Seq<Hook> {
    s.map_values(|p: (HookID, Hook)| p.1)
}

/// Nothing about the registry changed.
pub open spec fn unchanged_db(pre: HookDB, post: HookDB) -> bool {
    &&& post.hooks@ == pre.hooks@
    &&& post.next_uid == pre.next_uid
    &&& forall|k: EventKind| #[trigger] post.bucket(k) == pre.bucket(k)
}

/// Exactly one hook was registered: it got id `pre.next_uid`, the table
/// and the matching bucket grew by one, all other buckets are untouched.
pub open spec fn added_hook(pre: HookDB, post: HookDB, hook: Hook, k: EventKind) -> bool {
    &&& post.hooks@ == pre.hooks@.push((pre.next_uid, hook))
    &&& post.hooks@.len() == pre.hooks@.len() + 1
    &&& post.next_uid == pre.next_uid + 1
    &&& post.bucket(k) == pre.bucket(k).push(pre.next_uid)
    &&& forall|k2: EventKind| k2 != k ==> #[trigger] post.bucket(k2) == pre.bucket(k2)
}

/// True at the first table position holding id `id`.
pub open spec fn entry_first_at(s: Seq<(HookID, Hook)>, id: HookID, i: int) -> bool {
    0 <= i < s.len() && s[i].0 == id && (forall|j: int| 0 <= j < i ==> s[j].0 != id)
}

/// The hook registered under `id`: the first table entry with that id.
pub open spec fn assoc_hook(s: Seq<(HookID, Hook)>, id: HookID) -> Option<Hook> {
    if exists|i: int| entry_first_at(s, id, i) {
        let i = choose|i: int| entry_first_at(s, id, i);
        Some(s[i].1)
    } else {
        None
    }
}

pub proof fn lemma_entry_first_at_unique(s: Seq<(HookID, Hook)>, id: HookID, i: int, j: int)
    requires
        entry_first_at(s, id, i),
        entry_first_at(s, id, j),
    ensures
        i == j,
{
    if i < j {
        assert(s[i].0 != id);
    } else if j < i {
        assert(s[j].0 != id);
    }
}

/// Finds the hook registered under `id`, if any.
pub fn find_hook(all_hooks: &Hooks, id: HookID) -> (r: Option<&Hook>)
    ensures
        match r {
            Some(h) => assoc_hook(all_hooks@, id) == Some(*h),
            None => assoc_hook(all_hooks@, id) is None,
        },
{
    let n = all_hooks.len();
    let mut i: usize = 0;
    while i < n
        invariant
            n == all_hooks@.len(),
            i <= n,
            forall|j: int| 0 <= j < i ==> all_hooks@[j].0 != id,
        decreases n - i,
    {
        if all_hooks[i].0 == id {
            proof {
                assert(entry_first_at(all_hooks@, id, i as int));
                let w = choose|w: int| entry_first_at(all_hooks@, id, w);
                lemma_entry_first_at_unique(all_hooks@, id, i as int, w);
            }
            return Some(&all_hooks[i].1);
        }
        i = i + 1;
    }
    proof {
        if exists|w: int| entry_first_at(all_hooks@, id, w) {
            let w = choose|w: int| entry_first_at(all_hooks@, id, w);
            assert(all_hooks@[w].0 != id);
        }
    }
    None
}

/// The hooks the given ids resolve to, in id order, ids absent from the
/// table skipped (defensive: a well-formed registry has none).
pub open spec fn lookup_seq(ids: Seq<HookID>, table: Seq<(HookID, Hook)>) -> Seq<Hook>
    decreases ids.len(),
{
    if ids.len() == 0 {
        Seq::empty()
    } else {
        let pre = lookup_seq(ids.drop_last(), table);
        match assoc_hook(table, ids.last()) {
            Some(h) => pre.push(h),
            None => pre,
        }
    }
}

/// Resolves a bucket's ids against the hook table, in registration order.
pub fn get_hooks(event_hooks: &Vec<HookID>, all_hooks: &Hooks) -> (r: Vec<Hook>)
    ensures
        r@ == lookup_seq(event_hooks@, all_hooks@),
{
    let n = event_hooks.len();
    let mut r: Vec<Hook> = Vec::new();
    let mut i: usize = 0;
    while i < n
        invariant
            n == event_hooks@.len(),
            i <= n,
            r@ == lookup_seq(event_hooks@.take(i as int), all_hooks@),
        decreases n - i,
    {
        match find_hook(all_hooks, event_hooks[i]) {
            Some(prog) => {
                let h = prog.duplicate();
                r.push(h);
            },
            None => {},
        }
        i = i + 1;
        proof {
            assert(event_hooks@.take(i as int).drop_last() =~= event_hooks@.take(i as int - 1));
            assert(event_hooks@.take(i as int).last() == event_hooks@[i - 1]);
        }
    }
    proof {
        assert(event_hooks@.take(n as int) =~= event_hooks@);
    }
    r
}

/// One hook firing: the shell command to run and the context to expose
/// to it as environment variables.
pub struct HookLaunch {
    pub exec_cmd: String,
    pub context: Context,
}

/// What a sequence of launches says: each command with its context.
pub open spec fn launch_views(l: Seq<HookLaunch>) -> Seq<(Seq<char>, Seq<(Seq<char>, Seq<char>)>)> {
    l.map_values(|x: HookLaunch| (x.exec_cmd@, x.context@))
}

/// The launches for one context: every hook's command, in registration
/// order, each paired with that context.
pub open spec fn one_ctx_views(hs: Seq<Hook>, c: Seq<(Seq<char>, Seq<char>)>) -> Seq<
    (Seq<char>, Seq<(Seq<char>, Seq<char>)>),
> {
    hs.map_values(|h: Hook| (h.exec_cmd@, c))
}

/// Pairs each hook registered in the bucket with the context, in
/// registration order; with no context there is nothing to run.
pub fn run_hooks(context: Option<Context>, event_hook: &Vec<HookID>, all_hooks: &Hooks) -> (r: Vec<
    HookLaunch,
>)
    ensures
        match context {
            None => r@.len() == 0,
            Some(c) => launch_views(r@) == one_ctx_views(
                lookup_seq(event_hook@, all_hooks@),
                c@,
            ),
        },
{
    let con = match context {
        Some(con) => con,
        None => {
            return Vec::new();
        },
    };
    let hooks = get_hooks(event_hook, all_hooks);
    let n = hooks.len();
    let mut r: Vec<HookLaunch> = Vec::new();
    let mut i: usize = 0;
    while i < n
        invariant
            n == hooks@.len(),
            i <= n,
            r@.len() == i,
            launch_views(r@) =~= one_ctx_views(hooks@.take(i as int), con@),
        decreases n - i,
    {
        let exec_cmd = hooks[i].exec_cmd.clone();
        let ctx = con.duplicate();
        let ghost ev = exec_cmd@;
        let ghost cv = ctx@;
        let ghost old_r = r@;
        r.push(HookLaunch { exec_cmd, context: ctx });
        i = i + 1;
        proof {
            let gi = i as int - 1;
            assert(r@[gi].exec_cmd@ == ev);
            assert(r@[gi].context@ == cv);
            assert(launch_views(r@)[gi] == (hooks@[gi].exec_cmd@, con@));
            assert forall|j: int| 0 <= j < i implies launch_views(r@)[j] == one_ctx_views(
                hooks@.take(i as int),
                con@,
            )[j] by {
                if j < gi {
                    assert(launch_views(old_r)[j] == one_ctx_views(hooks@.take(gi), con@)[j]);
                    assert(r@[j] == old_r[j]);
                    assert(hooks@.take(gi)[j] == hooks@.take(gi + 1)[j]);
                }
            }
            assert(launch_views(r@) =~= one_ctx_views(hooks@.take(i as int), con@));
        }
    }
    proof {
        assert(hooks@.take(n as int) =~= hooks@);
    }
    r
}

/// Seeds a registry from the configuration's hook list, skipping (as the
/// configuration loader logs) entries with unrecognized kinds: exactly
/// the recognized hooks are appended, in order, the table before the
/// call left in place.
pub fn make_db_from_conf(hooks: Vec<Hook>, db: &mut HookDB)
    requires
        old(db).wf(),
        old(db).next_uid + hooks@.len() <= HookID::MAX,
    ensures
        final(db).wf(),
        final(db).hooks@.len() == old(db).hooks@.len() + recognized_count(hooks@),
        final(db).hooks@.take(old(db).hooks@.len() as int) == old(db).hooks@,
        hook_list(final(db).hooks@) == hook_list(old(db).hooks@) + recognized_hooks(hooks@),
{
    let n = hooks.len();
    let mut i: usize = 0;
    while i < n
        invariant
            db.wf(),
            n == hooks@.len(),
            i <= n,
            old(db).next_uid + n <= HookID::MAX,
            db.next_uid <= old(db).next_uid + i,
            db.hooks@.len() == old(db).hooks@.len() + recognized_count(
                hooks@.take(i as int),
            ),
            db.hooks@.take(old(db).hooks@.len() as int) =~= old(db).hooks@,
            hook_list(db.hooks@) =~= hook_list(old(db).hooks@) + recognized_hooks(
                hooks@.take(i as int),
            ),
        decreases n - i,
    {
        let ghost pre = db.hooks@;
        let conf_hook = hooks[i].duplicate();
        let ghost hsnap = conf_hook;
        match db.add_hook(conf_hook) {
            Ok(()) => {},
            Err(()) => {},
        }
        i = i + 1;
        proof {
            reveal(Seq::filter);
            let gi = i as int - 1;
            let pred = |h: Hook| event_kind_of(h.event@) is Some;
            assert(hsnap == hooks@[gi]);
            lemma_recognized_count_bounds(hooks@.take(gi));
            assert(pre.len() >= old(db).hooks@.len());
            assert(hooks@.take(gi + 1).drop_last() =~= hooks@.take(gi));
            assert(hooks@.take(gi + 1).last() == hooks@[gi]);
            assert(db.hooks@.take(old(db).hooks@.len() as int) =~= pre.take(
                old(db).hooks@.len() as int,
            ));
            if pred(hooks@[gi]) {
                assert(recognized_hooks(hooks@.take(gi + 1)) == recognized_hooks(
                    hooks@.take(gi),
                ).push(hooks@[gi]));
                assert(db.hooks@ =~= pre.push((db.hooks@.last().0, db.hooks@.last().1)));
                assert(db.hooks@.last().1 == hsnap);
                assert(hook_list(db.hooks@) =~= hook_list(pre).push(hsnap));
            } else {
                assert(recognized_hooks(hooks@.take(gi + 1)) == recognized_hooks(
                    hooks@.take(gi),
                ));
            }
            assert(hook_list(db.hooks@) =~= hook_list(old(db).hooks@) + recognized_hooks(
                hooks@.take(i as int),
            ));
        }
    }
    proof {
        assert(hooks@.take(n as int) =~= hooks@);
    }
}

/// Exactly the hook parsed out of an `add-hook` argument string was
/// registered under the pre-call counter value.
pub open spec fn added_from_args(
    pre: HookDB,
    post: HookDB,
    ev: Seq<char>,
    ex: Seq<char>,
    k: EventKind,
) -> bool {
    &&& post.hooks@.len() == pre.hooks@.len() + 1
    &&& post.hooks@.take(pre.hooks@.len() as int) == pre.hooks@
    &&& post.hooks@.last().0 == pre.next_uid
    &&& post.hooks@.last().1.event@ == ev
    &&& post.hooks@.last().1.exec_cmd@ == ex
    &&& post.next_uid == pre.next_uid + 1
    &&& post.bucket(k) == pre.bucket(k).push(pre.next_uid)
    &&& forall|k2: EventKind| k2 != k ==> #[trigger] post.bucket(k2) == pre.bucket(k2)
}

/// The contract of the `add-hook` control operation: an argument string
/// without a space is malformed (code 7, registry untouched); a
/// well-split string naming an unrecognized kind is rejected (code 9,
/// registry untouched); otherwise the hook is registered (code 0).
pub open spec fn add_hook_outcome(pre: HookDB, post: HookDB, args: Seq<char>, code: u8) -> bool {
    match split_first(args, ' ') {
        None => code == 7 && unchanged_db(pre, post),
        Some(p) => match event_kind_of(p.0) {
            None => code == 9 && unchanged_db(pre, post),
            Some(k) => code == 0 && added_from_args(pre, post, p.0, p.1, k),
        },
    }
}

/// Handles `add-hook <event-kind> <shell-command>`: the single first
/// space splits the event kind from the command. On success the caller
/// forwards the updated registry to the dispatch loop.
pub fn add_hook(args: &str, db: &mut HookDB) -> (r: u8)
    requires
        old(db).wf(),
        old(db).next_uid < HookID::MAX,
    ensures
        final(db).wf(),
        add_hook_outcome(*old(db), *final(db), args@, r),
{
    let parts = match split_once_char(args, ' ') {
        Some(parts) => parts,
        None => {
            return 7;
        },
    };
    let (event, exec_cmd) = parts;
    let ghost ev = event@;
    let ghost ex = exec_cmd@;
    let hook = Hook { event, exec_cmd };
    match db.add_hook(hook) {
        Ok(()) => {
            proof {
                assert(db.hooks@.take(old(db).hooks@.len() as int) =~= old(db).hooks@);
            }
            0
        },
        Err(()) => 9,
    }
}

/// Handles `rm-hook`: an acknowledged placeholder that reports success
/// and removes nothing.
pub fn rm_hook(_args: &str, hook_db: &mut HookDB) -> (r: u8)
    ensures
        r == 0,
        *final(hook_db) == *old(hook_db),
{
    0
}

/// Handles `ls-hook` / `list-hook`: the listing is not implemented yet,
/// so the table is always empty.
pub fn get_hook(_hook_db: &HookDB) -> (r: String)
    ensures
        r@ == Seq::<char>::empty(),
{
    String::new()
}

/// Routes the hook-related control operations; other commands are not
/// handled here (`None`).
pub fn hooks_switch(cmd: &str, args: &str, db: &mut HookDB) -> (r: Option<(u8, Option<String>)>)
    requires
        old(db).wf(),
        cmd@ == "add-hook"@ ==> old(db).next_uid < HookID::MAX,
    ensures
        final(db).wf(),
        if cmd@ == "add-hook"@ {
            r matches Some(p) && p.1 is None && add_hook_outcome(*old(db), *final(db), args@, p.0)
        } else if cmd@ == "rm-hook"@ {
            r matches Some(p) && p == (0u8, Option::<String>::None) && *final(db) == *old(db)
        } else if cmd@ == "ls-hook"@ || cmd@ == "list-hook"@ {
            r matches Some(p) && p.0 == 0 && (p.1 matches Some(t) && t@ == Seq::<char>::empty())
                && *final(db) == *old(db)
        } else {
            r is None && *final(db) == *old(db)
        },
{
    if str_eq(cmd, "add-hook") {
        let code = add_hook(args, db);
        Some((code, None))
    } else if str_eq(cmd, "rm-hook") {
        let code = rm_hook(args, db);
        Some((code, None))
    } else if str_eq(cmd, "ls-hook") || str_eq(cmd, "list-hook") {
        let table = get_hook(db);
        Some((0, Some(table)))
    } else {
        None
    }
}

/// The two states of the dispatch loop; `Draining` is terminal.
#[derive(Clone, Copy, PartialEq, Eq, Structural, Debug)]
pub enum LoopState {
    Running,
    Draining,
}

/// One message the dispatch loop can wake up on.
pub enum LoopMsg {
    /// From the shutdown-command channel.
    Cmd(EventCmd),
    /// From the registry-control channel: a freshly built registry to
    /// fold into the live one.
    NewDb(HookDB),
    /// From one event source: a single context for its kind.
    Event(EventKind, Context),
    /// From the port-status source: one socket scan can surface many
    /// connection-state changes at once.
    PortEvents(Vec<Context>),
}

/// The launches for a batch of contexts against one resolved hook list:
/// the contexts in arrival order, each paired with every hook.
pub open spec fn batch_views(ctxs: Seq<Context>, hs: Seq<Hook>) -> Seq<
    (Seq<char>, Seq<(Seq<char>, Seq<char>)>),
>
    decreases ctxs.len(),
{
    if ctxs.len() == 0 {
        Seq::empty()
    } else {
        batch_views(ctxs.drop_last(), hs) + one_ctx_views(hs, ctxs.last()@)
    }
}

/// One iteration of the dispatch loop: decides the next state and the
/// hooks to fire for the message that arrived. Only the shutdown
/// command leaves `Running`; a delivered registry is merged into the
/// live one; an event fires the hooks of its kind's bucket, in
/// registration order.
pub fn dispatch_step(db: &mut HookDB, msg: LoopMsg) -> (r: (LoopState, Vec<HookLaunch>))
    requires
        old(db).wf(),
        msg matches LoopMsg::NewDb(d) ==> d.wf() && old(db).next_uid + d.hooks@.len()
            <= HookID::MAX,
    ensures
        final(db).wf(),
        match msg {
            LoopMsg::Cmd(c) => r.0 is Draining && *final(db) == *old(db) && r.1@.len() == 0,
            LoopMsg::NewDb(d) => r.0 is Running && r.1@.len() == 0 && final(db).hooks@.len()
                == old(db).hooks@.len() + d.hooks@.len() && final(db).hooks@.take(
                old(db).hooks@.len() as int,
            ) == old(db).hooks@ && hook_list(final(db).hooks@) == hook_list(old(db).hooks@)
                + hook_list(d.hooks@),
            LoopMsg::Event(k, c) => r.0 is Running && *final(db) == *old(db) && launch_views(r.1@)
                == one_ctx_views(lookup_seq(old(db).bucket(k), old(db).hooks@), c@),
            LoopMsg::PortEvents(cs) => r.0 is Running && *final(db) == *old(db) && launch_views(
                r.1@,
            ) == batch_views(
                cs@,
                lookup_seq(old(db).bucket(EventKind::PortStatusChange), old(db).hooks@),
            ),
        },
{
    match msg {
        LoopMsg::Cmd(cmd) => match cmd {
            EventCmd::Exit => (LoopState::Draining, Vec::new()),
        },
        LoopMsg::NewDb(d) => {
            db.update(d);
            (LoopState::Running, Vec::new())
        },
        LoopMsg::Event(k, c) => {
            let bucket: &Vec<HookID> = match k {
                EventKind::WifiChange => &db.wifi_net,
                EventKind::NetworkToggle => &db.net_con,
                EventKind::Backlight => &db.backlight,
                EventKind::NewUsbDevice => &db.usb_dev,
                EventKind::BluetoothDevice => &db.bluetooth_conn,
                EventKind::PortStatusChange => &db.ports_change,
            };
            let launches = run_hooks(Some(c), bucket, &db.hooks);
            (LoopState::Running, launches)
        },
        LoopMsg::PortEvents(cs) => {
            let ghost hs = lookup_seq(db.ports_change@, db.hooks@);
            let n = cs.len();
            let mut launches: Vec<HookLaunch> = Vec::new();
            let mut i: usize = 0;
            while i < n
                invariant
                    *db == *old(db),
                    n == cs@.len(),
                    i <= n,
                    launch_views(launches@) =~= batch_views(cs@.take(i as int), hs),
                    hs == lookup_seq(db.ports_change@, db.hooks@),
                decreases n - i,
            {
                let ghost pre = launches@;
                let ctx = cs[i].duplicate();
                proof {
                    assert(ctx@ == cs@[i as int]@);
                }
                let mut one = run_hooks(Some(ctx), &db.ports_change, &db.hooks);
                proof {
                    assert(launch_views(one@) == one_ctx_views(hs, cs@[i as int]@));
                }
                launches.append(&mut one);
                i = i + 1;
                proof {
                    let gi = i as int - 1;
                    assert(cs@.take(gi + 1).drop_last() =~= cs@.take(gi));
                    assert(cs@.take(gi + 1).last() == cs@[gi]);
                    assert(launch_views(launches@) =~= batch_views(cs@.take(i as int), hs));
                }
            }
            proof {
                assert(cs@.take(n as int) =~= cs@);
            }
            (LoopState::Running, launches)
        },
    }
}

} // verus!

