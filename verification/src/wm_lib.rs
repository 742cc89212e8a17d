//! The desktop-layout data model: which programs to launch on which
//! desktop. Layout files are parsed outside the library; these are the
//! plain values the parser produces, and the partitioning shared by the
//! window-manager translators.

use vstd::prelude::*;

verus! {

/// One program of a layout: its launch name, an optional window state,
/// the window class to match, its arguments, and a settle delay.
pub struct Program {
    pub name: String,
    pub state: Option<String>,
    pub wm_class: Option<String>,
    pub args: Option<Vec<String>>,
    pub delay: Option<u8>,
}

/// The contents of an optional string, by value.
pub open spec fn opt_chars(o: Option<String>) -> Option<Seq<char>> {
    match o {
        Some(s) => Some(s@),
        None => None,
    }
}

/// What a program value says, by contents.
pub open spec fn prog_view(p: Program) -> (
    Seq<char>,
    Option<Seq<char>>,
    Option<Seq<char>>,
    Option<Seq<Seq<char>>>,
    Option<u8>,
) {
    (
        p.name@,
        opt_chars(p.state),
        opt_chars(p.wm_class),
        match p.args {
            Some(v) => Some(v.deep_view()),
            None => None,
        },
        p.delay,
    )
}

pub open spec fn prog_views(s: Seq<Program>) -> Seq<
    (Seq<char>, Option<Seq<char>>, Option<Seq<char>>, Option<Seq<Seq<char>>>, Option<u8>),
> {
    s.map_values(|p: Program| prog_view(p))
}

fn dup_opt_string(o: &Option<String>) -> (r: Option<String>)
    ensures
        opt_chars(r) == opt_chars(*o),
{
    match o {
        Some(s) => Some(s.clone()),
        None => None,
    }
}

fn dup_string_vec(v: &Vec<String>) -> (r: Vec<String>)
    ensures
        r.deep_view() == v.deep_view(),
{
    let n = v.len();
    let mut r: Vec<String> = Vec::new();
    let mut i: usize = 0;
    while i < n
        invariant
            n == v@.len(),
            i <= n,
            r@.len() == i,
            forall|j: int| 0 <= j < i ==> #[trigger] r.deep_view()[j] == v.deep_view()[j],
        decreases n - i,
    {
        let ghost pre = r.deep_view();
        r.push(v[i].clone());
        i = i + 1;
        proof {
            let gi = i as int - 1;
            assert(r.deep_view()[gi] == r@[gi]@);
            assert(r.deep_view()[gi] == v.deep_view()[gi]);
            assert forall|j: int| 0 <= j < gi implies #[trigger] r.deep_view()[j]
                == v.deep_view()[j] by {
                assert(r.deep_view()[j] == pre[j]);
            }
        }
    }
    proof {
        assert(r.deep_view() =~= v.deep_view());
    }
    r
}

impl Program {
    /// A contents-equal copy.
    pub fn duplicate(&self) -> (r: Program)
        ensures
            prog_view(r) == prog_view(*self),
    {
        let args = match &self.args {
            Some(v) => Some(dup_string_vec(v)),
            None => None,
        };
        Program {
            name: self.name.clone(),
            state: dup_opt_string(&self.state),
            wm_class: dup_opt_string(&self.wm_class),
            args,
            delay: self.delay,
        }
    }
}

/// One desktop of a layout: its name, whether it may be set up
/// concurrently with the others, its programs, and whether the desktop
/// should be cleared when its windows are placed.
pub struct DesktopLayout {
    pub desktop: String,
    pub asyncro: Option<bool>,
    pub programs: Vec<Program>,
    pub clear: Option<bool>,
}

/// What a desktop-layout value says, by contents.
pub open spec fn layout_view(d: DesktopLayout) -> (
    Seq<char>,
    Option<bool>,
    Seq<(Seq<char>, Option<Seq<char>>, Option<Seq<char>>, Option<Seq<Seq<char>>>, Option<u8>)>,
    Option<bool>,
) {
    (d.desktop@, d.asyncro, prog_views(d.programs@), d.clear)
}

pub open spec fn layout_views(s: Seq<DesktopLayout>) -> Seq<
    (
        Seq<char>,
        Option<bool>,
        Seq<(Seq<char>, Option<Seq<char>>, Option<Seq<char>>, Option<Seq<Seq<char>>>, Option<u8>)>,
        Option<bool>,
    ),
> {
    s.map_values(|d: DesktopLayout| layout_view(d))
}

impl DesktopLayout {
    /// A contents-equal copy.
    pub fn duplicate(&self) -> (r: DesktopLayout)
        ensures
            layout_view(r) == layout_view(*self),
    {
        let n = self.programs.len();
        let mut programs: Vec<Program> = Vec::new();
        let mut i: usize = 0;
        while i < n
            invariant
                n == self.programs@.len(),
                i <= n,
                programs@.len() == i,
                forall|j: int| 0 <= j < i ==> #[trigger] prog_views(programs@)[j] == prog_views(
                    self.programs@,
                )[j],
            decreases n - i,
        {
            let ghost pre = prog_views(programs@);
            let p = self.programs[i].duplicate();
            programs.push(p);
            i = i + 1;
            proof {
                let gi = i as int - 1;
                assert(prog_views(programs@)[gi] == prog_view(programs@[gi]));
                assert(prog_views(programs@)[gi] == prog_views(self.programs@)[gi]);
                assert forall|j: int| 0 <= j < gi implies #[trigger] prog_views(programs@)[j]
                    == prog_views(self.programs@)[j] by {
                    assert(prog_views(programs@)[j] == pre[j]);
                }
            }
        }
        let r = DesktopLayout {
            desktop: self.desktop.clone(),
            asyncro: self.asyncro,
            programs,
            clear: self.clear,
        };
        proof {
            assert(prog_views(r.programs@) =~= prog_views(self.programs@));
        }
        r
    }
}

/// A whole layout file: the desktops, and an optional workspace-to-
/// monitor assignment.
pub struct Conf {
    pub desktops: Vec<DesktopLayout>,
    pub workspaces: Option<Vec<(i32, i32)>>,
}

/// A desktop marked for concurrent setup.
pub open spec fn is_async_layout(d: DesktopLayout) -> bool {
    d.asyncro == Some(true)
}

/// Splits a layout's desktops into those set up concurrently and those
/// set up in order, keeping the relative order of each group.
pub fn partition_layouts(layouts: Vec<DesktopLayout>) -> (r: (
    Vec<DesktopLayout>,
    Vec<DesktopLayout>,
))
    ensures
        layout_views(r.0@) == layout_views(layouts@.filter(|d: DesktopLayout| is_async_layout(d))),
        layout_views(r.1@) == layout_views(layouts@.filter(|d: DesktopLayout| !is_async_layout(d))),
{
    let n = layouts.len();
    let mut async_layouts: Vec<DesktopLayout> = Vec::new();
    let mut sync_layouts: Vec<DesktopLayout> = Vec::new();
    let mut i: usize = 0;
    while i < n
        invariant
            n == layouts@.len(),
            i <= n,
            layout_views(async_layouts@) =~= layout_views(
                layouts@.take(i as int).filter(|d: DesktopLayout| is_async_layout(d)),
            ),
            layout_views(sync_layouts@) =~= layout_views(
                layouts@.take(i as int).filter(|d: DesktopLayout| !is_async_layout(d)),
            ),
        decreases n - i,
    {
        let ghost pre_a = async_layouts@;
        let ghost pre_s = sync_layouts@;
        let is_async = match layouts[i].asyncro {
            Some(b) => b,
            None => false,
        };
        let d = layouts[i].duplicate();
        if is_async {
            async_layouts.push(d);
        } else {
            sync_layouts.push(d);
        }
        i = i + 1;
        proof {
            reveal(Seq::filter);
            let gi = i as int - 1;
            let pa = |d: DesktopLayout| is_async_layout(d);
            let ps = |d: DesktopLayout| !is_async_layout(d);
            assert(layouts@.take(gi + 1).drop_last() =~= layouts@.take(gi));
            assert(layouts@.take(gi + 1).last() == layouts@[gi]);
            if pa(layouts@[gi]) {
                assert(layouts@.take(gi + 1).filter(pa) == layouts@.take(gi).filter(pa).push(
                    layouts@[gi],
                ));
                assert(layouts@.take(gi + 1).filter(ps) == layouts@.take(gi).filter(ps));
                assert(layout_views(async_layouts@) =~= layout_views(pre_a).push(
                    layout_view(layouts@[gi]),
                ));
                assert(layout_views(layouts@.take(gi + 1).filter(pa)) =~= layout_views(
                    layouts@.take(gi).filter(pa),
                ).push(layout_view(layouts@[gi])));
            } else {
                assert(layouts@.take(gi + 1).filter(ps) == layouts@.take(gi).filter(ps).push(
                    layouts@[gi],
                ));
                assert(layouts@.take(gi + 1).filter(pa) == layouts@.take(gi).filter(pa));
                assert(layout_views(sync_layouts@) =~= layout_views(pre_s).push(
                    layout_view(layouts@[gi]),
                ));
                assert(layout_views(layouts@.take(gi + 1).filter(ps)) =~= layout_views(
                    layouts@.take(gi).filter(ps),
                ).push(layout_view(layouts@[gi])));
            }
            assert(layout_views(async_layouts@) =~= layout_views(
                layouts@.take(i as int).filter(pa),
            ));
            assert(layout_views(sync_layouts@) =~= layout_views(
                layouts@.take(i as int).filter(ps),
            ));
        }
    }
    proof {
        assert(layouts@.take(n as int) =~= layouts@);
    }
    (async_layouts, sync_layouts)
}

} // verus!
