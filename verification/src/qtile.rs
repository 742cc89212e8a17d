//! The qtile translation state: window-placement rules, the launch
//! queue, and the clear flags a layout configures. The qtile side polls
//! these through the command server; socket traffic and program
//! launching are I/O and live outside the library.

use vstd::prelude::*;
use crate::text::{join_with, str_eq};
use crate::wm_lib::{Conf, layout_view, layout_views, prog_view, prog_views};

verus! {

/// What handling a qtile command produced: a new layout state to adopt,
/// a text message for the client, or a bare response code.
pub enum QtileAPI {
    Layout(QtileCmdData),
    Message(String),
    Res(u8),
}

/// The desktops a window class should be placed on, most recent last.
pub struct Rule {
    pub wm_class: String,
    pub desktops: Vec<String>,
}

/// Whether a desktop should be cleared when its layout is applied.
pub struct ClearEntry {
    pub desktop: String,
    pub clear: bool,
}

/// The qtile translation state. The rules and clear entries read as
/// maps: keys are unique in well-formed values.
pub struct QtileCmdData {
    pub rules: Vec<Rule>,
    pub queue: Vec<String>,
    pub clear: Vec<ClearEntry>,
}

/// What the rules say: each window class with its desktop stack.
pub open spec fn rule_views(s: Seq<Rule>) -> Seq<(Seq<char>, Seq<Seq<char>>)> {
    s.map_values(|r: Rule| (r.wm_class@, r.desktops.deep_view()))
}

/// What the clear entries say.
pub open spec fn clear_views(s: Seq<ClearEntry>) -> Seq<(Seq<char>, bool)> {
    s.map_values(|e: ClearEntry| (e.desktop@, e.clear))
}

/// True at the first rule position keyed by `k`.
pub open spec fn rule_first_at(rv: Seq<(Seq<char>, Seq<Seq<char>>)>, k: Seq<char>, i: int) -> bool {
    0 <= i < rv.len() && rv[i].0 == k && (forall|j: int| 0 <= j < i ==> rv[j].0 != k)
}

/// Registering a desktop for a window class: the class's stack grows by
/// one, or a fresh entry appears at the end.
pub open spec fn add_rules_spec(
    rv: Seq<(Seq<char>, Seq<Seq<char>>)>,
    wmc: Seq<char>,
    d: Seq<char>,
) -> Seq<(Seq<char>, Seq<Seq<char>>)> {
    if exists|i: int| rule_first_at(rv, wmc, i) {
        let i = choose|i: int| rule_first_at(rv, wmc, i);
        rv.update(i, (wmc, rv[i].1.push(d)))
    } else {
        rv.push((wmc, seq![d]))
    }
}

/// The queue entry for a program: its name, then its arguments
/// space-joined, if it has any.
pub open spec fn queued_name(prog: Seq<char>, args: Option<Seq<Seq<char>>>) -> Seq<char> {
    match args {
        Some(a) => prog + " "@ + join_with(a, " "@),
        None => prog,
    }
}

/// True at the first clear position keyed by `d`.
pub open spec fn clear_first_at(cv: Seq<(Seq<char>, bool)>, d: Seq<char>, i: int) -> bool {
    0 <= i < cv.len() && cv[i].0 == d && (forall|j: int| 0 <= j < i ==> cv[j].0 != d)
}

/// Recording a clear flag: an existing entry is overwritten, otherwise
/// a fresh one appears at the end; an absent flag means no clearing.
pub open spec fn add_clear_spec(
    cv: Seq<(Seq<char>, bool)>,
    d: Seq<char>,
    flag: Option<bool>,
) -> Seq<(Seq<char>, bool)> {
    let b = flag == Some(true);
    if exists|i: int| clear_first_at(cv, d, i) {
        let i = choose|i: int| clear_first_at(cv, d, i);
        cv.update(i, (d, b))
    } else {
        cv.push((d, b))
    }
}

/// Popping a desktop for a window class: the most recently registered
/// desktop of the class's stack, if the class has an entry and its
/// stack is not empty; the entry itself stays (possibly emptied).
pub open spec fn loc_helper_spec(rv: Seq<(Seq<char>, Seq<Seq<char>>)>, k: Seq<char>) -> (
    Option<Seq<char>>,
    Seq<(Seq<char>, Seq<Seq<char>>)>,
) {
    if exists|i: int| rule_first_at(rv, k, i) {
        let i = choose|i: int| rule_first_at(rv, k, i);
        if rv[i].1.len() > 0 {
            (Some(rv[i].1.last()), rv.update(i, (rv[i].0, rv[i].1.drop_last())))
        } else {
            (None, rv)
        }
    } else {
        (None, rv)
    }
}

/// Popping with a fallback class: the first class's answer wins; only
/// when it yields nothing is the second class tried.
pub open spec fn location_spec(rv: Seq<(Seq<char>, Seq<Seq<char>>)>, a: Seq<char>, b: Seq<char>) -> (
    Option<Seq<char>>,
    Seq<(Seq<char>, Seq<Seq<char>>)>,
) {
    let first = loc_helper_spec(rv, a);
    if first.0 is Some {
        first
    } else {
        loc_helper_spec(first.1, b)
    }
}

/// Taking a clear flag: the entry keyed by `g` is removed and its flag
/// returned; without one the answer is `false`.
pub open spec fn should_clear_spec(cv: Seq<(Seq<char>, bool)>, g: Seq<char>) -> (
    bool,
    Seq<(Seq<char>, bool)>,
) {
    if exists|i: int| clear_first_at(cv, g, i) {
        let i = choose|i: int| clear_first_at(cv, g, i);
        (cv[i].1, cv.remove(i))
    } else {
        (false, cv)
    }
}

proof fn lemma_rule_first_at_unique(
    rv: Seq<(Seq<char>, Seq<Seq<char>>)>,
    k: Seq<char>,
    i: int,
    j: int,
)
    requires
        rule_first_at(rv, k, i),
        rule_first_at(rv, k, j),
    ensures
        i == j,
{
    if i < j {
        assert(rv[i].0 != k);
    } else if j < i {
        assert(rv[j].0 != k);
    }
}

proof fn lemma_clear_first_at_unique(cv: Seq<(Seq<char>, bool)>, d: Seq<char>, i: int, j: int)
    requires
        clear_first_at(cv, d, i),
        clear_first_at(cv, d, j),
    ensures
        i == j,
{
    if i < j {
        assert(cv[i].0 != d);
    } else if j < i {
        assert(cv[j].0 != d);
    }
}

impl QtileCmdData {
    /// The documented map reading of the rules and clear entries: keys
    /// are pairwise distinct in each.
    pub open spec fn wf(self) -> bool {
        &&& forall|i: int, j: int|
            0 <= i < j < self.rules@.len() ==> (#[trigger] self.rules@[i]).wm_class@ != (
            #[trigger] self.rules@[j]).wm_class@
        &&& forall|i: int, j: int|
            0 <= i < j < self.clear@.len() ==> (#[trigger] self.clear@[i]).desktop@ != (
            #[trigger] self.clear@[j]).desktop@
    }

    /// An empty translation state.
    pub fn new() -> (r: QtileCmdData)
        ensures
            r.wf(),
            rule_views(r.rules@) == Seq::<(Seq<char>, Seq<Seq<char>>)>::empty(),
            r.queue.deep_view() == Seq::<Seq<char>>::empty(),
            clear_views(r.clear@) == Seq::<(Seq<char>, bool)>::empty(),
    {
        let r = QtileCmdData { rules: Vec::new(), queue: Vec::new(), clear: Vec::new() };
        proof {
            assert(rule_views(r.rules@) =~= Seq::<(Seq<char>, Seq<Seq<char>>)>::empty());
            assert(r.queue.deep_view() =~= Seq::<Seq<char>>::empty());
            assert(clear_views(r.clear@) =~= Seq::<(Seq<char>, bool)>::empty());
        }
        r
    }

    /// Records the clear flag a layout gives for a desktop.
    pub fn add_clear(&mut self, to_clear: Option<bool>, data: &str)
        requires
            old(self).wf(),
        ensures
            final(self).wf(),
            clear_views(final(self).clear@) == add_clear_spec(
                clear_views(old(self).clear@),
                data@,
                to_clear,
            ),
            rule_views(final(self).rules@) == rule_views(old(self).rules@),
            final(self).queue.deep_view() == old(self).queue.deep_view(),
    {
        let flag = match to_clear {
            Some(b) => b,
            None => false,
        };
        let ghost cv = clear_views(self.clear@);
        let n = self.clear.len();
        let mut i: usize = 0;
        while i < n
            invariant
                self.wf(),
                n == self.clear@.len(),
                i <= n,
                cv == clear_views(self.clear@),
                cv == clear_views(old(self).clear@),
                rule_views(self.rules@) == rule_views(old(self).rules@),
                self.queue.deep_view() == old(self).queue.deep_view(),
                flag == (to_clear == Some(true)),
                forall|j: int| 0 <= j < i ==> cv[j].0 != data@,
            decreases n - i,
        {
            if str_eq(self.clear[i].desktop.as_str(), data) {
                proof {
                    assert(cv[i as int] == (self.clear@[i as int].desktop@, self.clear@[i as int].clear));
                    assert(clear_first_at(cv, data@, i as int));
                    let w = choose|w: int| clear_first_at(cv, data@, w);
                    lemma_clear_first_at_unique(cv, data@, i as int, w);
                }
                let ghost pre_vec = self.clear@;
                let old_entry = self.clear.remove(i);
                let new_entry = ClearEntry { desktop: old_entry.desktop, clear: flag };
                let ghost ne = new_entry;
                self.clear.insert(i, new_entry);
                proof {
                    assert(self.clear@ =~= pre_vec.update(i as int, ne));
                    assert(ne.desktop@ == data@);
                    assert(clear_views(self.clear@) =~= cv.update(i as int, (data@, flag)));
                    assert(flag == (to_clear == Some(true)));
                    assert(exists|w: int| clear_first_at(cv, data@, w));
                    let w2 = choose|w: int| clear_first_at(cv, data@, w);
                    lemma_clear_first_at_unique(cv, data@, i as int, w2);
                    assert(add_clear_spec(cv, data@, to_clear) == cv.update(
                        w2,
                        (data@, to_clear == Some(true)),
                    ));
                    assert(clear_views(self.clear@) =~= add_clear_spec(cv, data@, to_clear));
                    assert forall|a: int|
                        0 <= a < self.clear@.len() implies (
                    #[trigger] self.clear@[a]).desktop@ == pre_vec[a].desktop@ by {
                        if a != i {
                            assert(self.clear@[a] == pre_vec[a]);
                        } else {
                            assert(cv[a].0 == pre_vec[a].desktop@);
                        }
                    }
                    assert(self.wf());
                }
                return ;
            }
            proof {
                assert(cv[i as int] == (self.clear@[i as int].desktop@, self.clear@[i as int].clear));
            }
            i = i + 1;
        }
        proof {
            if exists|w: int| clear_first_at(cv, data@, w) {
                let w = choose|w: int| clear_first_at(cv, data@, w);
                assert(cv[w].0 != data@);
            }
        }
        let ghost pre_vec = self.clear@;
        self.clear.push(ClearEntry { desktop: data.to_owned(), clear: flag });
        proof {
            assert(clear_views(self.clear@) =~= add_clear_spec(cv, data@, to_clear));
            assert forall|a: int, b: int|
                0 <= a < b < self.clear@.len() implies (#[trigger] self.clear@[a]).desktop@ != (
            #[trigger] self.clear@[b]).desktop@ by {
                if b < self.clear@.len() - 1 {
                    assert(pre_vec[a].desktop@ != pre_vec[b].desktop@);
                } else {
                    assert(self.clear@[b].desktop@ == data@);
                    assert(cv[a].0 == pre_vec[a].desktop@);
                }
            }
        }
    }

    /// Queues a program for launching, its arguments joined after it.
    pub fn add_queue(&mut self, program: &str, args: &Option<Vec<String>>)
        requires
            old(self).wf(),
        ensures
            final(self).wf(),
            final(self).queue.deep_view() == old(self).queue.deep_view().push(
                queued_name(
                    program@,
                    match *args {
                        Some(v) => Some(v.deep_view()),
                        None => None,
                    },
                ),
            ),
            rule_views(final(self).rules@) == rule_views(old(self).rules@),
            clear_views(final(self).clear@) == clear_views(old(self).clear@),
    {
        let entry = match args {
            Some(a) => {
                let joined = crate::text::join_strings(a, " ");
                let head = crate::text::concat_str(program, " ");
                crate::text::concat_str(head.as_str(), joined.as_str())
            },
            None => program.to_owned(),
        };
        let ghost ev = entry@;
        self.queue.push(entry);
        proof {
            assert(self.queue.deep_view() =~= old(self).queue.deep_view().push(ev));
        }
    }

    /// Registers a desktop for a window class.
    pub fn add_rules(&mut self, wmc: &str, desktop: &str)
        requires
            old(self).wf(),
        ensures
            final(self).wf(),
            rule_views(final(self).rules@) == add_rules_spec(
                rule_views(old(self).rules@),
                wmc@,
                desktop@,
            ),
            final(self).queue.deep_view() == old(self).queue.deep_view(),
            clear_views(final(self).clear@) == clear_views(old(self).clear@),
    {
        let ghost rv = rule_views(self.rules@);
        let n = self.rules.len();
        let mut i: usize = 0;
        while i < n
            invariant
                self.wf(),
                n == self.rules@.len(),
                i <= n,
                rv == rule_views(self.rules@),
                rv == rule_views(old(self).rules@),
                clear_views(self.clear@) == clear_views(old(self).clear@),
                self.queue.deep_view() == old(self).queue.deep_view(),
                forall|j: int| 0 <= j < i ==> rv[j].0 != wmc@,
            decreases n - i,
        {
            if str_eq(self.rules[i].wm_class.as_str(), wmc) {
                proof {
                    assert(rv[i as int] == (self.rules@[i as int].wm_class@, self.rules@[i as int].desktops.deep_view()));
                    assert(rule_first_at(rv, wmc@, i as int));
                    let w = choose|w: int| rule_first_at(rv, wmc@, w);
                    lemma_rule_first_at_unique(rv, wmc@, i as int, w);
                }
                let ghost pre_vec = self.rules@;
                let mut entry = self.rules.remove(i);
                let ghost pre_desk = entry.desktops.deep_view();
                entry.desktops.push(desktop.to_owned());
                proof {
                    assert(entry.desktops.deep_view() =~= pre_desk.push(desktop@));
                }
                self.rules.insert(i, entry);
                proof {
                    assert(rule_views(self.rules@) =~= rv.update(
                        i as int,
                        (wmc@, rv[i as int].1.push(desktop@)),
                    ));
                    assert forall|a: int|
                        0 <= a < self.rules@.len() implies (
                    #[trigger] self.rules@[a]).wm_class@ == pre_vec[a].wm_class@ by {
                        if a != i {
                            assert(self.rules@[a] == pre_vec[a]);
                        } else {
                            assert(self.rules@[a].wm_class@ == wmc@);
                            assert(rv[a].0 == pre_vec[a].wm_class@);
                        }
                    }
                    assert(self.wf());
                }
                return ;
            }
            proof {
                assert(rv[i as int] == (self.rules@[i as int].wm_class@, self.rules@[i as int].desktops.deep_view()));
            }
            i = i + 1;
        }
        proof {
            if exists|w: int| rule_first_at(rv, wmc@, w) {
                let w = choose|w: int| rule_first_at(rv, wmc@, w);
                assert(rv[w].0 != wmc@);
            }
        }
        let mut set: Vec<String> = Vec::new();
        set.push(desktop.to_owned());
        proof {
            assert(set.deep_view() =~= seq![desktop@]);
        }
        let new_rule = Rule { wm_class: wmc.to_owned(), desktops: set };
        let ghost nr = new_rule;
        let ghost pre_vec = self.rules@;
        self.rules.push(new_rule);
        proof {
            assert(nr.wm_class@ == wmc@ && nr.desktops.deep_view() == seq![desktop@]);
            assert(rule_views(self.rules@) =~= rv.push((wmc@, seq![desktop@])));
            assert forall|a: int, b: int|
                0 <= a < b < self.rules@.len() implies (#[trigger] self.rules@[a]).wm_class@ != (
            #[trigger] self.rules@[b]).wm_class@ by {
                if b < self.rules@.len() - 1 {
                    assert(pre_vec[a].wm_class@ != pre_vec[b].wm_class@);
                } else {
                    assert(self.rules@[b].wm_class@ == wmc@);
                    assert(rv[a].0 == pre_vec[a].wm_class@);
                }
            }
        }
    }

    /// Pops the most recently registered desktop for a window class.
    pub fn get_location_helper(&mut self, wm_class: &str) -> (r: Option<String>)
        requires
            old(self).wf(),
        ensures
            final(self).wf(),
            ({
                let expect = loc_helper_spec(rule_views(old(self).rules@), wm_class@);
                &&& match r {
                    Some(loc) => expect.0 == Some(loc@),
                    None => expect.0 is None,
                }
                &&& rule_views(final(self).rules@) == expect.1
                &&& final(self).queue.deep_view() == old(self).queue.deep_view()
                &&& clear_views(final(self).clear@) == clear_views(old(self).clear@)
            }),
    {
        let ghost rv = rule_views(self.rules@);
        let n = self.rules.len();
        let mut i: usize = 0;
        while i < n
            invariant
                self.wf(),
                n == self.rules@.len(),
                i <= n,
                rv == rule_views(self.rules@),
                rv == rule_views(old(self).rules@),
                clear_views(self.clear@) == clear_views(old(self).clear@),
                self.queue.deep_view() == old(self).queue.deep_view(),
                forall|j: int| 0 <= j < i ==> rv[j].0 != wm_class@,
            decreases n - i,
        {
            if str_eq(self.rules[i].wm_class.as_str(), wm_class) {
                proof {
                    assert(rv[i as int] == (self.rules@[i as int].wm_class@, self.rules@[i as int].desktops.deep_view()));
                    assert(rule_first_at(rv, wm_class@, i as int));
                    let w = choose|w: int| rule_first_at(rv, wm_class@, w);
                    lemma_rule_first_at_unique(rv, wm_class@, i as int, w);
                }
                let ghost pre_vec = self.rules@;
                let mut entry = self.rules.remove(i);
                let ghost pre_desk = entry.desktops.deep_view();
                let popped = entry.desktops.pop();
                proof {
                    if pre_desk.len() > 0 {
                        assert(entry.desktops.deep_view() =~= pre_desk.drop_last());
                    }
                }
                self.rules.insert(i, entry);
                proof {
                    if pre_desk.len() > 0 {
                        assert(rule_views(self.rules@) =~= rv.update(
                            i as int,
                            (rv[i as int].0, rv[i as int].1.drop_last()),
                        ));
                    } else {
                        assert(rule_views(self.rules@) =~= rv);
                    }
                    assert forall|a: int|
                        0 <= a < self.rules@.len() implies (
                    #[trigger] self.rules@[a]).wm_class@ == pre_vec[a].wm_class@ by {
                        if a != i {
                            assert(self.rules@[a] == pre_vec[a]);
                        } else {
                            assert(self.rules@[a].wm_class@ == pre_vec[a].wm_class@);
                        }
                    }
                    assert(self.wf());
                }
                return popped;
            }
            proof {
                assert(rv[i as int] == (self.rules@[i as int].wm_class@, self.rules@[i as int].desktops.deep_view()));
            }
            i = i + 1;
        }
        proof {
            if exists|w: int| rule_first_at(rv, wm_class@, w) {
                let w = choose|w: int| rule_first_at(rv, wm_class@, w);
                assert(rv[w].0 != wm_class@);
            }
        }
        None
    }

    /// Pops a desktop for a window, trying its two window classes in
    /// order.
    pub fn get_location(&mut self, wm_classes: (&str, &str)) -> (r: Option<String>)
        requires
            old(self).wf(),
        ensures
            final(self).wf(),
            ({
                let expect = location_spec(
                    rule_views(old(self).rules@),
                    wm_classes.0@,
                    wm_classes.1@,
                );
                &&& match r {
                    Some(loc) => expect.0 == Some(loc@),
                    None => expect.0 is None,
                }
                &&& rule_views(final(self).rules@) == expect.1
                &&& final(self).queue.deep_view() == old(self).queue.deep_view()
                &&& clear_views(final(self).clear@) == clear_views(old(self).clear@)
            }),
    {
        match self.get_location_helper(wm_classes.0) {
            Some(location) => Some(location),
            None => self.get_location_helper(wm_classes.1),
        }
    }

    /// Takes the clear flag recorded for a desktop group, removing it.
    pub fn should_clear(&mut self, group: &str) -> (r: bool)
        requires
            old(self).wf(),
        ensures
            final(self).wf(),
            ({
                let expect = should_clear_spec(clear_views(old(self).clear@), group@);
                &&& r == expect.0
                &&& clear_views(final(self).clear@) == expect.1
                &&& rule_views(final(self).rules@) == rule_views(old(self).rules@)
                &&& final(self).queue.deep_view() == old(self).queue.deep_view()
            }),
    {
        let ghost cv = clear_views(self.clear@);
        let n = self.clear.len();
        let mut i: usize = 0;
        while i < n
            invariant
                self.wf(),
                n == self.clear@.len(),
                i <= n,
                cv == clear_views(self.clear@),
                cv == clear_views(old(self).clear@),
                rule_views(self.rules@) == rule_views(old(self).rules@),
                self.queue.deep_view() == old(self).queue.deep_view(),
                forall|j: int| 0 <= j < i ==> cv[j].0 != group@,
            decreases n - i,
        {
            if str_eq(self.clear[i].desktop.as_str(), group) {
                proof {
                    assert(cv[i as int] == (self.clear@[i as int].desktop@, self.clear@[i as int].clear));
                    assert(clear_first_at(cv, group@, i as int));
                    let w = choose|w: int| clear_first_at(cv, group@, w);
                    lemma_clear_first_at_unique(cv, group@, i as int, w);
                }
                let ghost pre_vec = self.clear@;
                let entry = self.clear.remove(i);
                proof {
                    assert(clear_views(self.clear@) =~= cv.remove(i as int));
                    assert forall|a: int, b: int|
                        0 <= a < b < self.clear@.len() implies (
                    #[trigger] self.clear@[a]).desktop@ != (#[trigger] self.clear@[b]).desktop@ by {
                        let pa: int = if a < i { a } else { a + 1 };
                        let pb: int = if b < i { b } else { b + 1 };
                        assert(self.clear@[a] == pre_vec[pa]);
                        assert(self.clear@[b] == pre_vec[pb]);
                        assert(pre_vec[pa].desktop@ != pre_vec[pb].desktop@);
                    }
                }
                return entry.clear;
            }
            proof {
                assert(cv[i as int] == (self.clear@[i as int].desktop@, self.clear@[i as int].clear));
            }
            i = i + 1;
        }
        proof {
            if exists|w: int| clear_first_at(cv, group@, w) {
                let w = choose|w: int| clear_first_at(cv, group@, w);
                assert(cv[w].0 != group@);
            }
        }
        false
    }
}


/// ASCII whitespace, as the free-form argument tokenizer sees it.
pub open spec fn is_ws(c: char) -> bool {
    c == ' ' || c == '\t' || c == '\n' || c == '\r' || c == '\u{c}'
}

/// `s` holds exactly one whitespace-separated token, spanning `[a, b)`.
pub open spec fn one_token_at(s: Seq<char>, a: int, b: int) -> bool {
    &&& 0 <= a < b <= s.len()
    &&& forall|j: int| 0 <= j < a ==> is_ws(s[j])
    &&& forall|j: int| a <= j < b ==> !is_ws(s[j])
    &&& forall|j: int| b <= j < s.len() ==> is_ws(s[j])
}

/// The single whitespace-separated token of `s`, if `s` holds exactly
/// one.
pub open spec fn the_token(s: Seq<char>) -> Option<Seq<char>> {
    if exists|a: int, b: int| one_token_at(s, a, b) {
        let (a, b) = choose|a: int, b: int| one_token_at(s, a, b);
        Some(s.subrange(a, b))
    } else {
        None
    }
}

proof fn lemma_one_token_at_unique(s: Seq<char>, a: int, b: int, a2: int, b2: int)
    requires
        one_token_at(s, a, b),
        one_token_at(s, a2, b2),
    ensures
        a == a2,
        b == b2,
{
    if a < a2 {
        assert(is_ws(s[a]));
        assert(!is_ws(s[a]));
    } else if a2 < a {
        assert(is_ws(s[a2]));
        assert(!is_ws(s[a2]));
    }
    if b < b2 {
        assert(is_ws(s[b]));
        assert(!is_ws(s[b]));
    } else if b2 < b {
        assert(is_ws(s[b2]));
        assert(!is_ws(s[b2]));
    }
}

fn is_ws_char(c: char) -> (r: bool)
    ensures
        r == is_ws(c),
{
    c == ' ' || c == '\t' || c == '\n' || c == '\r' || c == '\u{c}'
}

/// The bounds of the single token of `s`, if `s` holds exactly one.
fn single_token_bounds(s: &str) -> (r: Option<(usize, usize)>)
    ensures
        match r {
            Some(p) => one_token_at(s@, p.0 as int, p.1 as int) && the_token(s@) == Some(
                s@.subrange(p.0 as int, p.1 as int),
            ),
            None => the_token(s@) is None,
        },
{
    let n = s.unicode_len();
    let mut a: usize = 0;
    while a < n && is_ws_char(s.get_char(a))
        invariant
            n == s@.len(),
            a <= n,
            forall|j: int| 0 <= j < a ==> is_ws(s@[j]),
        decreases n - a,
    {
        a = a + 1;
    }
    if a == n {
        proof {
            if exists|x: int, y: int| one_token_at(s@, x, y) {
                let (x, y) = choose|x: int, y: int| one_token_at(s@, x, y);
                assert(!is_ws(s@[x]));
                assert(is_ws(s@[x]));
            }
        }
        return None;
    }
    let mut b: usize = a;
    while b < n && !is_ws_char(s.get_char(b))
        invariant
            n == s@.len(),
            a <= b <= n,
            forall|j: int| a <= j < b ==> !is_ws(s@[j]),
            forall|j: int| 0 <= j < a ==> is_ws(s@[j]),
            a < n,
            !is_ws(s@[a as int]),
        decreases n - b,
    {
        b = b + 1;
    }
    let mut k: usize = b;
    while k < n
        invariant
            n == s@.len(),
            a < b <= k <= n,
            forall|j: int| 0 <= j < a ==> is_ws(s@[j]),
            forall|j: int| a <= j < b ==> !is_ws(s@[j]),
            b < n ==> is_ws(s@[b as int]),
            forall|j: int| b <= j < k ==> is_ws(s@[j]),
        decreases n - k,
    {
        if !is_ws_char(s.get_char(k)) {
            proof {
                if exists|x: int, y: int| one_token_at(s@, x, y) {
                    let (x, y) = choose|x: int, y: int| one_token_at(s@, x, y);
                    if x < a {
                        assert(is_ws(s@[x]));
                        assert(!is_ws(s@[x]));
                    } else if a < x {
                        assert(is_ws(s@[a as int]));
                    }
                    if y <= k {
                        assert(is_ws(s@[k as int]));
                    } else {
                        assert(b < y);
                        assert(!is_ws(s@[b as int]));
                    }
                }
            }
            return None;
        }
        k = k + 1;
    }
    proof {
        assert(one_token_at(s@, a as int, b as int));
        let (x, y) = choose|x: int, y: int| one_token_at(s@, x, y);
        lemma_one_token_at_unique(s@, a as int, b as int, x, y);
    }
    Some((a, b))
}

/// Handles `should-clear`: the argument must be exactly one
/// whitespace-separated desktop group; its recorded clear flag is taken
/// and returned. Code 7 is a malformed argument string.
pub fn should_clear(args: &str, layout: &mut QtileCmdData) -> (r: Result<bool, u8>)
    requires
        old(layout).wf(),
    ensures
        final(layout).wf(),
        match the_token(args@) {
            None => r matches Err(e) && e == 7 && rule_views(final(layout).rules@) == rule_views(
                old(layout).rules@,
            ) && final(layout).queue.deep_view() == old(layout).queue.deep_view() && clear_views(
                final(layout).clear@,
            ) == clear_views(old(layout).clear@),
            Some(t) => ({
                let expect = should_clear_spec(clear_views(old(layout).clear@), t);
                r matches Ok(b) && b == expect.0 && clear_views(final(layout).clear@) == expect.1
                    && rule_views(final(layout).rules@) == rule_views(old(layout).rules@)
                    && final(layout).queue.deep_view() == old(layout).queue.deep_view()
            }),
        },
{
    let bounds = match single_token_bounds(args) {
        Some(bounds) => bounds,
        None => {
            return Err(7);
        },
    };
    let location = crate::text::substr_string(args, bounds.0, bounds.1);
    let clearing = layout.should_clear(location.as_str());
    Ok(clearing)
}

/// Handles `auto-move`: the argument splits at its first space into the
/// window's two class names; the most recently registered desktop for
/// either class (the first winning) is popped and returned. Code 7 is a
/// malformed argument string.
pub fn auto_move(args: &str, layout: &mut QtileCmdData) -> (r: Result<Option<String>, u8>)
    requires
        old(layout).wf(),
    ensures
        final(layout).wf(),
        match crate::text::split_first(args@, ' ') {
            None => r matches Err(e) && e == 7 && rule_views(final(layout).rules@) == rule_views(
                old(layout).rules@,
            ) && final(layout).queue.deep_view() == old(layout).queue.deep_view() && clear_views(
                final(layout).clear@,
            ) == clear_views(old(layout).clear@),
            Some(p) => ({
                let expect = location_spec(rule_views(old(layout).rules@), p.0, p.1);
                &&& match r {
                    Ok(Some(loc)) => expect.0 == Some(loc@),
                    Ok(None) => expect.0 is None,
                    Err(_) => false,
                }
                &&& rule_views(final(layout).rules@) == expect.1
                &&& final(layout).queue.deep_view() == old(layout).queue.deep_view()
                &&& clear_views(final(layout).clear@) == clear_views(old(layout).clear@)
            }),
        },
{
    let parts = match crate::text::split_once_char(args, ' ') {
        Some(parts) => parts,
        None => {
            return Err(7);
        },
    };
    let (first_class, second_class) = parts;
    match layout.get_location((first_class.as_str(), second_class.as_str())) {
        Some(location) => Ok(Some(location)),
        None => Ok(None),
    }
}

/// Handles `open-at`: the argument splits at spaces into exactly an
/// executable, a window class and a desktop; the class is registered
/// for the desktop and the executable handed back for launching. Code 7
/// is a malformed argument string.
pub fn open_on_desktop(_spath: &str, args: &str, layout: &mut QtileCmdData) -> (r: Result<
    String,
    u8,
>)
    requires
        old(layout).wf(),
    ensures
        final(layout).wf(),
        ({
            let pieces = crate::text::split_chars(args@, ' ');
            if pieces.len() != 3 {
                r matches Err(e) && e == 7 && rule_views(final(layout).rules@) == rule_views(
                    old(layout).rules@,
                ) && final(layout).queue.deep_view() == old(layout).queue.deep_view()
                    && clear_views(final(layout).clear@) == clear_views(old(layout).clear@)
            } else {
                r matches Ok(exe) && exe@ == pieces[0] && rule_views(final(layout).rules@)
                    == add_rules_spec(rule_views(old(layout).rules@), pieces[1], pieces[2])
                    && final(layout).queue.deep_view() == old(layout).queue.deep_view()
                    && clear_views(final(layout).clear@) == clear_views(old(layout).clear@)
            }
        }),
{
    let data = crate::text::split_all(args, ' ');
    if data.len() != 3 {
        return Err(7);
    }
    layout.add_rules(data[1].as_str(), data[2].as_str());
    Ok(data[0].clone())
}


/// The abstract translation state: the rules, the queue, and the clear
/// flags, by contents.
pub type CmdViews = (Seq<(Seq<char>, Seq<Seq<char>>)>, Seq<Seq<char>>, Seq<(Seq<char>, bool)>);

/// What one program, by contents, does to the state: a program without
/// a window class is skipped; otherwise its class is registered for the
/// desktop and the program queued.
pub open spec fn apply_program(
    st: CmdViews,
    p: (Seq<char>, Option<Seq<char>>, Option<Seq<char>>, Option<Seq<Seq<char>>>, Option<u8>),
    desktop: Seq<char>,
) -> CmdViews {
    match p.2 {
        Some(cls) => (add_rules_spec(st.0, cls, desktop), st.1.push(queued_name(p.0, p.3)), st.2),
        None => st,
    }
}

pub open spec fn apply_programs(
    st: CmdViews,
    progs: Seq<(Seq<char>, Option<Seq<char>>, Option<Seq<char>>, Option<Seq<Seq<char>>>, Option<u8>)>,
    desktop: Seq<char>,
) -> CmdViews
    decreases progs.len(),
{
    if progs.len() == 0 {
        st
    } else {
        apply_programs(apply_program(st, progs[0], desktop), progs.drop_first(), desktop)
    }
}

/// A desktop's remaining work: its remaining programs, then its clear
/// flag.
pub open spec fn finish_desktop(
    st: CmdViews,
    progs: Seq<(Seq<char>, Option<Seq<char>>, Option<Seq<char>>, Option<Seq<Seq<char>>>, Option<u8>)>,
    dname: Seq<char>,
    dclear: Option<bool>,
) -> CmdViews {
    let st1 = apply_programs(st, progs, dname);
    (st1.0, st1.1, add_clear_spec(st1.2, dname, dclear))
}

/// What one desktop, by contents, does to the state.
pub open spec fn apply_desktop(
    st: CmdViews,
    d: (
        Seq<char>,
        Option<bool>,
        Seq<(Seq<char>, Option<Seq<char>>, Option<Seq<char>>, Option<Seq<Seq<char>>>, Option<u8>)>,
        Option<bool>,
    ),
) -> CmdViews {
    finish_desktop(st, d.2, d.0, d.3)
}

pub open spec fn apply_desktops(
    st: CmdViews,
    ds: Seq<
        (
            Seq<char>,
            Option<bool>,
            Seq<
                (Seq<char>, Option<Seq<char>>, Option<Seq<char>>, Option<Seq<Seq<char>>>, Option<u8>),
            >,
            Option<bool>,
        ),
    >,
) -> CmdViews
    decreases ds.len(),
{
    if ds.len() == 0 {
        st
    } else {
        apply_desktops(apply_desktop(st, ds[0]), ds.drop_first())
    }
}

pub open spec fn cmd_views(q: QtileCmdData) -> CmdViews {
    (rule_views(q.rules@), q.queue.deep_view(), clear_views(q.clear@))
}

pub open spec fn empty_cmd_views() -> CmdViews {
    (
        Seq::<(Seq<char>, Seq<Seq<char>>)>::empty(),
        Seq::<Seq<char>>::empty(),
        Seq::<(Seq<char>, bool)>::empty(),
    )
}

/// Builds the qtile translation state a layout configures: for each
/// desktop, every program with a window class registers a placement
/// rule and a queue entry, and the desktop's clear flag is recorded.
pub fn make_cmd_data(layouts: Conf) -> (r: QtileCmdData)
    ensures
        r.wf(),
        cmd_views(r) == apply_desktops(empty_cmd_views(), layout_views(layouts.desktops@)),
{
    let mut payload_struct = QtileCmdData::new();
    let ghost lv = layout_views(layouts.desktops@);
    let ghost target = apply_desktops(empty_cmd_views(), lv);
    proof {
        assert(cmd_views(payload_struct) == empty_cmd_views());
        assert(lv.skip(0) =~= lv);
    }
    let dn = layouts.desktops.len();
    let mut di: usize = 0;
    while di < dn
        invariant
            payload_struct.wf(),
            dn == layouts.desktops@.len(),
            di <= dn,
            lv == layout_views(layouts.desktops@),
            target == apply_desktops(empty_cmd_views(), lv),
            apply_desktops(cmd_views(payload_struct), lv.skip(di as int)) == target,
        decreases dn - di,
    {
        let desktop = layouts.desktops[di].duplicate();
        proof {
            assert(layout_view(desktop) == lv[di as int]);
            assert(lv.skip(di as int)[0] == lv[di as int]);
            assert(lv.skip(di as int).drop_first() =~= lv.skip(di as int + 1));
            assert(apply_desktops(cmd_views(payload_struct), lv.skip(di as int))
                == apply_desktops(
                apply_desktop(cmd_views(payload_struct), lv[di as int]),
                lv.skip(di as int + 1),
            ));
            assert(prog_views(desktop.programs@).skip(0) =~= prog_views(desktop.programs@));
            assert(apply_desktop(cmd_views(payload_struct), lv[di as int]) == finish_desktop(
                cmd_views(payload_struct),
                prog_views(desktop.programs@),
                desktop.desktop@,
                desktop.clear,
            ));
        }
        let pn = desktop.programs.len();
        let mut pi: usize = 0;
        while pi < pn
            invariant
                payload_struct.wf(),
                pn == desktop.programs@.len(),
                pi <= pn,
                lv == layout_views(layouts.desktops@),
                target == apply_desktops(empty_cmd_views(), lv),
                dn == layouts.desktops@.len(),
                di < dn,
                apply_desktops(
                    finish_desktop(
                        cmd_views(payload_struct),
                        prog_views(desktop.programs@).skip(pi as int),
                        desktop.desktop@,
                        desktop.clear,
                    ),
                    lv.skip(di as int + 1),
                ) == target,
            decreases pn - pi,
        {
            let ghost st0 = cmd_views(payload_struct);
            let ghost pv = prog_views(desktop.programs@);
            match &desktop.programs[pi].wm_class {
                Some(class) => {
                    payload_struct.add_rules(class.as_str(), desktop.desktop.as_str());
                    payload_struct.add_queue(
                        desktop.programs[pi].name.as_str(),
                        &desktop.programs[pi].args,
                    );
                    proof {
                        assert(pv[pi as int] == prog_view(desktop.programs@[pi as int]));
                        assert(cmd_views(payload_struct) == apply_program(
                            st0,
                            pv[pi as int],
                            desktop.desktop@,
                        ));
                    }
                },
                None => {
                    proof {
                        assert(pv[pi as int] == prog_view(desktop.programs@[pi as int]));
                        assert(cmd_views(payload_struct) == apply_program(
                            st0,
                            pv[pi as int],
                            desktop.desktop@,
                        ));
                    }
                },
            }
            pi = pi + 1;
            proof {
                let gp = pi as int - 1;
                assert(pv.skip(gp)[0] == pv[gp]);
                assert(pv.skip(gp).drop_first() =~= pv.skip(gp + 1));
                assert(apply_programs(st0, pv.skip(gp), desktop.desktop@) == apply_programs(
                    cmd_views(payload_struct),
                    pv.skip(gp + 1),
                    desktop.desktop@,
                ));
                assert(finish_desktop(st0, pv.skip(gp), desktop.desktop@, desktop.clear)
                    == finish_desktop(
                    cmd_views(payload_struct),
                    pv.skip(gp + 1),
                    desktop.desktop@,
                    desktop.clear,
                ));
            }
        }
        let ghost st1 = cmd_views(payload_struct);
        payload_struct.add_clear(desktop.clear, desktop.desktop.as_str());
        di = di + 1;
        proof {
            assert(prog_views(desktop.programs@).skip(pn as int) =~= Seq::<
                (Seq<char>, Option<Seq<char>>, Option<Seq<char>>, Option<Seq<Seq<char>>>, Option<u8>),
            >::empty());
            assert(apply_programs(
                st1,
                prog_views(desktop.programs@).skip(pn as int),
                desktop.desktop@,
            ) == st1);
            assert(cmd_views(payload_struct) == finish_desktop(
                st1,
                prog_views(desktop.programs@).skip(pn as int),
                desktop.desktop@,
                desktop.clear,
            ));
            assert(apply_desktops(cmd_views(payload_struct), lv.skip(di as int)) == target);
        }
    }
    proof {
        assert(lv.skip(dn as int) =~= Seq::<
            (
                Seq<char>,
                Option<bool>,
                Seq<
                    (
                        Seq<char>,
                        Option<Seq<char>>,
                        Option<Seq<char>>,
                        Option<Seq<Seq<char>>>,
                        Option<u8>,
                    ),
                >,
                Option<bool>,
            ),
        >::empty());
    }
    payload_struct
}

} // verus!
