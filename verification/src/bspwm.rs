//! The bspwm protocol translation: messages are NUL-separated words
//! ending in one NUL byte. Builders here produce the exact payload for
//! each command; sending it over the window manager's socket is I/O and
//! lives outside the library.

use vstd::prelude::*;
use crate::text::{cap_first, capitalize_ascii, concat_str, split_first, split_once_char};
use crate::wm_lib::{layout_view, layout_views, prog_views, DesktopLayout, Program};
use vstd::utf8::encode_utf8;

verus! {

/// The words of a message with every space turned into a NUL character.
pub open spec fn nul_separated(m: Seq<char>) -> Seq<char> {
    m.map_values(
        |c: char|
            if c == ' ' {
                '\u{0}'
            } else {
                c
            },
    )
}

/// The wire form of a bspwm message: its NUL-separated words, UTF-8
/// encoded, with one trailing NUL byte.
pub open spec fn api_view(m: Seq<char>) -> Seq<u8> {
    encode_utf8(nul_separated(m)).push(0u8)
}

/// Encodes a message for bspwm's socket.
pub fn make_api(message: &str) -> (r: Vec<u8>)
    ensures
        r@ == api_view(message@),
{
    let n = message.unicode_len();
    let mut replaced = String::new();
    let mut i: usize = 0;
    while i < n
        invariant
            n == message@.len(),
            i <= n,
            replaced@ == nul_separated(message@.take(i as int)),
        decreases n - i,
    {
        let c = message.get_char(i);
        if c == ' ' {
            replaced.append("\u{0}");
            proof {
                reveal_strlit("\u{0}");
            }
        } else {
            let piece = message.substring_char(i, i + 1);
            replaced.append(piece);
        }
        i = i + 1;
        proof {
            assert(replaced@ =~= nul_separated(message@.take(i as int)));
        }
    }
    proof {
        assert(message@.take(n as int) =~= message@);
    }
    let mut res = replaced.as_str().as_bytes_vec();
    res.push(0);
    res
}

/// The payload that focuses a desktop.
pub fn focus_on(destination: &str) -> (r: Vec<u8>)
    ensures
        r@ == api_view("desktop -f "@ + destination@),
{
    let msg = concat_str("desktop -f ", destination);
    make_api(msg.as_str())
}

/// The payload that moves the focused node to a desktop.
pub fn move_to(destination: &str) -> (r: Vec<u8>)
    ensures
        r@ == api_view("node -d "@ + destination@),
{
    let msg = concat_str("node -d ", destination);
    make_api(msg.as_str())
}

/// The payload that closes the focused node.
pub fn close_focused() -> (r: Vec<u8>)
    ensures
        r@ == api_view("node -c"@),
{
    make_api("node -c")
}

/// Up to `n` space-separated arguments: one word per split, any words
/// beyond the `n`-th dropped with the recursion's tail.
pub open spec fn n_args_spec(n: int, s: Seq<char>) -> Seq<Seq<char>>
    decreases s.len(),
{
    if n == 0 {
        Seq::empty()
    } else {
        match split_first(s, ' ') {
            Some(p) => seq![p.0] + n_args_spec(n - 1, p.1),
            None => seq![s],
        }
    }
}

/// Splits an argument string into up to `n` pieces at spaces; words
/// beyond the `n`-th are dropped, and a string with too few spaces ends
/// in one last unsplit piece.
pub fn get_n_args(n: i32, arg_str: &str) -> (r: Vec<String>)
    requires
        0 <= n,
    ensures
        r.deep_view() == n_args_spec(n as int, arg_str@),
    decreases arg_str@.len(),
{
    if n == 0 {
        let r: Vec<String> = Vec::new();
        proof {
            assert(r.deep_view() =~= n_args_spec(0, arg_str@));
        }
        return r;
    }
    match split_once_char(arg_str, ' ') {
        Some((arg1, arg2)) => {
            let mut rest = get_n_args(n - 1, arg2.as_str());
            let mut args: Vec<String> = Vec::new();
            args.push(arg1);
            args.append(&mut rest);
            proof {
                assert(args.deep_view() =~= n_args_spec(n as int, arg_str@));
            }
            args
        },
        None => {
            let mut args: Vec<String> = Vec::new();
            args.push(arg_str.to_owned());
            proof {
                assert(args.deep_view() =~= n_args_spec(n as int, arg_str@));
            }
            args
        },
    }
}

/// The six placement-rule bodies that pin an executable's windows to a
/// desktop, from the most specific class pattern to the least.
pub open spec fn rule_bodies(exec_name: Seq<char>, desktop: Seq<char>) -> Seq<Seq<char>> {
    let cap = cap_first(exec_name);
    let tail = " desktop="@ + desktop;
    seq![
        cap + ":"@ + exec_name + tail,
        cap + ":"@ + cap + tail,
        exec_name + ":"@ + exec_name + tail,
        "*:"@ + exec_name + tail,
        cap + tail,
        exec_name + tail,
    ]
}

/// Builds the six placement-rule bodies for an executable on a desktop.
pub fn make_rules(exec_name: &str, desktop_name: &str) -> (r: Vec<String>)
    requires
        exec_name@.len() > 0,
    ensures
        r.deep_view() == rule_bodies(exec_name@, desktop_name@),
{
    let cap = capitalize_ascii(exec_name);
    let tail = concat_str(" desktop=", desktop_name);
    let mut rules: Vec<String> = Vec::new();
    let head1 = concat_str(concat_str(cap.as_str(), ":").as_str(), exec_name);
    rules.push(concat_str(head1.as_str(), tail.as_str()));
    let head2 = concat_str(concat_str(cap.as_str(), ":").as_str(), cap.as_str());
    rules.push(concat_str(head2.as_str(), tail.as_str()));
    let head3 = concat_str(concat_str(exec_name, ":").as_str(), exec_name);
    rules.push(concat_str(head3.as_str(), tail.as_str()));
    let head4 = concat_str("*:", exec_name);
    rules.push(concat_str(head4.as_str(), tail.as_str()));
    rules.push(concat_str(cap.as_str(), tail.as_str()));
    rules.push(concat_str(exec_name, tail.as_str()));
    proof {
        assert(rules.deep_view() =~= rule_bodies(exec_name@, desktop_name@));
    }
    rules
}

/// One planned program launch: the desktop it belongs to, the program
/// to spawn, the placement rules to add before the spawn and remove
/// after the settle delay, and that delay in milliseconds.
pub struct LaunchStep {
    pub desktop: String,
    pub program: String,
    pub rules: Vec<String>,
    pub delay_ms: u64,
}

/// The settle delay a program asks for: 500 ms per requested unit, 500
/// ms when unspecified.
pub open spec fn delay_of(d: Option<u8>) -> u64 {
    match d {
        Some(times) => (500 * times as u64) as u64,
        None => 500,
    }
}

/// What one planned step says.
pub open spec fn step_view(s: LaunchStep) -> (Seq<char>, Seq<char>, Seq<Seq<char>>, u64) {
    (s.desktop@, s.program@, s.rules.deep_view(), s.delay_ms)
}

pub open spec fn steps_view(s: Seq<LaunchStep>) -> Seq<(Seq<char>, Seq<char>, Seq<Seq<char>>, u64)> {
    s.map_values(|x: LaunchStep| step_view(x))
}

/// Plans one program launch on a desktop: its six placement rules, the
/// program's launch name, and its settle delay.
pub fn run_exec(exec_name: &str, desktop_name: &str, program: &Program) -> (r: LaunchStep)
    requires
        exec_name@.len() > 0,
    ensures
        r.desktop@ == desktop_name@,
        r.program@ == program.name@,
        r.rules.deep_view() == rule_bodies(exec_name@, desktop_name@),
        r.delay_ms == delay_of(program.delay),
{
    let rules = make_rules(exec_name, desktop_name);
    let delay_ms: u64 = match program.delay {
        Some(times) => 500 * (times as u64),
        None => 500,
    };
    LaunchStep {
        desktop: desktop_name.to_owned(),
        program: program.name.clone(),
        rules,
        delay_ms,
    }
}

/// The launch plan of one desktop, by contents: one step per program,
/// in layout order, the rules built from the per-program executable
/// names.
pub open spec fn desktop_plan(
    d: (
        Seq<char>,
        Option<bool>,
        Seq<(Seq<char>, Option<Seq<char>>, Option<Seq<char>>, Option<Seq<Seq<char>>>, Option<u8>)>,
        Option<bool>,
    ),
    names: Seq<Seq<char>>,
) -> Seq<(Seq<char>, Seq<char>, Seq<Seq<char>>, u64)> {
    Seq::new(names.len(), |i: int| (d.0, d.2[i].0, rule_bodies(names[i], d.0), delay_of(d.2[i].4)))
}

/// Plans one desktop of a layout: one step per program, in order. The
/// executable names are resolved by the caller (a desktop entry's name,
/// or the program name itself), lower-cased, one per program.
pub fn init_layout(layout: &DesktopLayout, exec_names: &Vec<String>) -> (r: Vec<LaunchStep>)
    requires
        exec_names@.len() == layout.programs@.len(),
        forall|i: int| 0 <= i < exec_names@.len() ==> (#[trigger] exec_names.deep_view()[i]).len()
            > 0,
    ensures
        steps_view(r@) == desktop_plan(layout_view(*layout), exec_names.deep_view()),
{
    let n = layout.programs.len();
    let mut r: Vec<LaunchStep> = Vec::new();
    let mut i: usize = 0;
    while i < n
        invariant
            n == layout.programs@.len(),
            n == exec_names@.len(),
            i <= n,
            r@.len() == i,
            forall|j: int| 0 <= j < exec_names@.len() ==> (
            #[trigger] exec_names.deep_view()[j]).len() > 0,
            forall|j: int| 0 <= j < i ==> #[trigger] steps_view(r@)[j] == desktop_plan(
                layout_view(*layout),
                exec_names.deep_view(),
            )[j],
        decreases n - i,
    {
        proof {
            assert(exec_names.deep_view()[i as int] == exec_names@[i as int]@);
        }
        let step = run_exec(exec_names[i].as_str(), layout.desktop.as_str(), &layout.programs[i]);
        let ghost pre = r@;
        let ghost stv = step_view(step);
        r.push(step);
        i = i + 1;
        proof {
            let gi = i as int - 1;
            let d = layout_view(*layout);
            let names = exec_names.deep_view();
            assert(prog_views(layout.programs@)[gi] == crate::wm_lib::prog_view(
                layout.programs@[gi],
            ));
            assert(d.2[gi].0 == layout.programs@[gi].name@);
            assert(d.2[gi].4 == layout.programs@[gi].delay);
            assert(stv == (d.0, d.2[gi].0, rule_bodies(names[gi], d.0), delay_of(d.2[gi].4)));
            assert(steps_view(r@)[gi] == stv);
            assert(desktop_plan(d, names)[gi] == stv);
            assert forall|j: int| 0 <= j < gi implies #[trigger] steps_view(r@)[j]
                == desktop_plan(d, names)[j] by {
                assert(r@[j] == pre[j]);
                assert(steps_view(pre)[j] == desktop_plan(d, names)[j]);
            }
        }
    }
    proof {
        assert(steps_view(r@) =~= desktop_plan(layout_view(*layout), exec_names.deep_view()));
    }
    r
}

/// The launch plan of a list of desktops set up in order, by contents.
pub open spec fn group_plan(
    lv: Seq<
        (
            Seq<char>,
            Option<bool>,
            Seq<
                (Seq<char>, Option<Seq<char>>, Option<Seq<char>>, Option<Seq<Seq<char>>>, Option<u8>),
            >,
            Option<bool>,
        ),
    >,
    names: Seq<Seq<Seq<char>>>,
) -> Seq<(Seq<char>, Seq<char>, Seq<Seq<char>>, u64)>
    decreases lv.len(),
{
    if lv.len() == 0 || names.len() == 0 {
        Seq::empty()
    } else {
        desktop_plan(lv[0], names[0]) + group_plan(lv.drop_first(), names.drop_first())
    }
}

/// Plans a group of desktops set up in order: the concatenation of the
/// desktops' plans.
pub fn init_layouts(layouts: &Vec<DesktopLayout>, exec_names: &Vec<Vec<String>>) -> (r: Vec<
    LaunchStep,
>)
    requires
        exec_names@.len() == layouts@.len(),
        forall|i: int|
            0 <= i < layouts@.len() ==> (#[trigger] exec_names@[i])@.len()
                == layouts@[i].programs@.len(),
        forall|i: int, j: int|
            0 <= i < exec_names@.len() && 0 <= j < exec_names@[i]@.len() ==> (
            #[trigger] exec_names@[i]@[j])@.len() > 0,
    ensures
        steps_view(r@) == group_plan(layout_views(layouts@), exec_names.deep_view()),
{
    let ghost lv = layout_views(layouts@);
    let ghost nv = exec_names.deep_view();
    let ghost target = group_plan(lv, nv);
    let n = layouts.len();
    let mut r: Vec<LaunchStep> = Vec::new();
    let mut i: usize = 0;
    proof {
        assert(lv.skip(0) =~= lv);
        assert(nv.skip(0) =~= nv);
        assert(steps_view(r@) =~= Seq::<(Seq<char>, Seq<char>, Seq<Seq<char>>, u64)>::empty());
    }
    while i < n
        invariant
            n == layouts@.len(),
            exec_names@.len() == n,
            i <= n,
            lv == layout_views(layouts@),
            nv == exec_names.deep_view(),
            target == group_plan(lv, nv),
            forall|a: int|
                0 <= a < layouts@.len() ==> (#[trigger] exec_names@[a])@.len()
                    == layouts@[a].programs@.len(),
            forall|a: int, b: int|
                0 <= a < exec_names@.len() && 0 <= b < exec_names@[a]@.len() ==> (
                #[trigger] exec_names@[a]@[b])@.len() > 0,
            steps_view(r@) + group_plan(lv.skip(i as int), nv.skip(i as int)) =~= target,
        decreases n - i,
    {
        let ghost pre = r@;
        let mut steps = init_layout(&layouts[i], &exec_names[i]);
        proof {
            assert(nv[i as int] == exec_names@[i as int].deep_view());
            assert(lv[i as int] == layout_view(layouts@[i as int]));
            assert(steps_view(steps@) == desktop_plan(lv[i as int], nv[i as int]));
            assert(lv.skip(i as int)[0] == lv[i as int]);
            assert(lv.skip(i as int).drop_first() =~= lv.skip(i as int + 1));
            assert(nv.skip(i as int)[0] == nv[i as int]);
            assert(nv.skip(i as int).drop_first() =~= nv.skip(i as int + 1));
        }
        r.append(&mut steps);
        i = i + 1;
        proof {
            let gi = i as int - 1;
            assert(steps_view(r@) =~= steps_view(pre) + desktop_plan(lv[gi], nv[gi]));
            assert(steps_view(r@) + group_plan(lv.skip(i as int), nv.skip(i as int))
                =~= target);
        }
    }
    proof {
        assert(lv.skip(n as int) =~= Seq::<
            (
                Seq<char>,
                Option<bool>,
                Seq<
                    (
                        Seq<char>,
                        Option<Seq<char>>,
                        Option<Seq<char>>,
                        Option<Seq<Seq<char>>>,
                        Option<u8>,
                    ),
                >,
                Option<bool>,
            ),
        >::empty());
        assert(steps_view(r@) =~= target);
    }
    r
}

/// The ordered-group plan of the desktops not marked concurrent.
pub open spec fn sync_plan(
    lv: Seq<
        (
            Seq<char>,
            Option<bool>,
            Seq<
                (Seq<char>, Option<Seq<char>>, Option<Seq<char>>, Option<Seq<Seq<char>>>, Option<u8>),
            >,
            Option<bool>,
        ),
    >,
    names: Seq<Seq<Seq<char>>>,
) -> Seq<(Seq<char>, Seq<char>, Seq<Seq<char>>, u64)>
    decreases lv.len(),
{
    if lv.len() == 0 || names.len() == 0 {
        Seq::empty()
    } else {
        let rest = sync_plan(lv.drop_first(), names.drop_first());
        if lv[0].1 == Some(true) {
            rest
        } else {
            desktop_plan(lv[0], names[0]) + rest
        }
    }
}

/// The per-desktop plans of the desktops marked concurrent, in order.
pub open spec fn async_plans(
    lv: Seq<
        (
            Seq<char>,
            Option<bool>,
            Seq<
                (Seq<char>, Option<Seq<char>>, Option<Seq<char>>, Option<Seq<Seq<char>>>, Option<u8>),
            >,
            Option<bool>,
        ),
    >,
    names: Seq<Seq<Seq<char>>>,
) -> Seq<Seq<(Seq<char>, Seq<char>, Seq<Seq<char>>, u64)>>
    decreases lv.len(),
{
    if lv.len() == 0 || names.len() == 0 {
        Seq::empty()
    } else {
        let rest = async_plans(lv.drop_first(), names.drop_first());
        if lv[0].1 == Some(true) {
            seq![desktop_plan(lv[0], names[0])] + rest
        } else {
            rest
        }
    }
}

pub open spec fn plans_view(s: Seq<Vec<LaunchStep>>) -> Seq<
    Seq<(Seq<char>, Seq<char>, Seq<Seq<char>>, u64)>,
> {
    s.map_values(|v: Vec<LaunchStep>| steps_view(v@))
}

/// Plans a whole layout: the desktops not marked concurrent become one
/// ordered plan, and each desktop marked concurrent becomes its own
/// plan, to be run alongside the ordered one.
pub fn load_layout(layouts: &Vec<DesktopLayout>, exec_names: &Vec<Vec<String>>) -> (r: (
    Vec<LaunchStep>,
    Vec<Vec<LaunchStep>>,
))
    requires
        exec_names@.len() == layouts@.len(),
        forall|i: int|
            0 <= i < layouts@.len() ==> (#[trigger] exec_names@[i])@.len()
                == layouts@[i].programs@.len(),
        forall|i: int, j: int|
            0 <= i < exec_names@.len() && 0 <= j < exec_names@[i]@.len() ==> (
            #[trigger] exec_names@[i]@[j])@.len() > 0,
    ensures
        steps_view(r.0@) == sync_plan(layout_views(layouts@), exec_names.deep_view()),
        plans_view(r.1@) == async_plans(layout_views(layouts@), exec_names.deep_view()),
{
    let ghost lv = layout_views(layouts@);
    let ghost nv = exec_names.deep_view();
    let ghost starget = sync_plan(lv, nv);
    let ghost atarget = async_plans(lv, nv);
    let n = layouts.len();
    let mut sync_steps: Vec<LaunchStep> = Vec::new();
    let mut async_groups: Vec<Vec<LaunchStep>> = Vec::new();
    let mut i: usize = 0;
    proof {
        assert(lv.skip(0) =~= lv);
        assert(nv.skip(0) =~= nv);
        assert(steps_view(sync_steps@) =~= Seq::<
            (Seq<char>, Seq<char>, Seq<Seq<char>>, u64),
        >::empty());
        assert(plans_view(async_groups@) =~= Seq::<
            Seq<(Seq<char>, Seq<char>, Seq<Seq<char>>, u64)>,
        >::empty());
    }
    while i < n
        invariant
            n == layouts@.len(),
            exec_names@.len() == n,
            i <= n,
            lv == layout_views(layouts@),
            nv == exec_names.deep_view(),
            starget == sync_plan(lv, nv),
            atarget == async_plans(lv, nv),
            forall|a: int|
                0 <= a < layouts@.len() ==> (#[trigger] exec_names@[a])@.len()
                    == layouts@[a].programs@.len(),
            forall|a: int, b: int|
                0 <= a < exec_names@.len() && 0 <= b < exec_names@[a]@.len() ==> (
                #[trigger] exec_names@[a]@[b])@.len() > 0,
            steps_view(sync_steps@) + sync_plan(lv.skip(i as int), nv.skip(i as int))
                =~= starget,
            plans_view(async_groups@) + async_plans(lv.skip(i as int), nv.skip(i as int))
                =~= atarget,
        decreases n - i,
    {
        let ghost pre_s = sync_steps@;
        let ghost pre_a = async_groups@;
        let is_async = match layouts[i].asyncro {
            Some(b) => b,
            None => false,
        };
        let mut steps = init_layout(&layouts[i], &exec_names[i]);
        proof {
            assert(nv[i as int] == exec_names@[i as int].deep_view());
            assert(lv[i as int] == layout_view(layouts@[i as int]));
            assert(steps_view(steps@) == desktop_plan(lv[i as int], nv[i as int]));
            assert(is_async == (lv[i as int].1 == Some(true)));
            assert(lv.skip(i as int)[0] == lv[i as int]);
            assert(lv.skip(i as int).drop_first() =~= lv.skip(i as int + 1));
            assert(nv.skip(i as int)[0] == nv[i as int]);
            assert(nv.skip(i as int).drop_first() =~= nv.skip(i as int + 1));
        }
        if is_async {
            let ghost sv = steps_view(steps@);
            async_groups.push(steps);
            proof {
                assert(plans_view(async_groups@) =~= plans_view(pre_a).push(sv));
            }
        } else {
            sync_steps.append(&mut steps);
            proof {
                assert(steps_view(sync_steps@) =~= steps_view(pre_s) + desktop_plan(
                    lv[i as int],
                    nv[i as int],
                ));
            }
        }
        i = i + 1;
        proof {
            assert(steps_view(sync_steps@) + sync_plan(lv.skip(i as int), nv.skip(i as int))
                =~= starget);
            assert(plans_view(async_groups@) + async_plans(
                lv.skip(i as int),
                nv.skip(i as int),
            ) =~= atarget);
        }
    }
    proof {
        assert(lv.skip(n as int) =~= Seq::<
            (
                Seq<char>,
                Option<bool>,
                Seq<
                    (
                        Seq<char>,
                        Option<Seq<char>>,
                        Option<Seq<char>>,
                        Option<Seq<Seq<char>>>,
                        Option<u8>,
                    ),
                >,
                Option<bool>,
            ),
        >::empty());
        assert(steps_view(sync_steps@) =~= starget);
        assert(plans_view(async_groups@) =~= atarget);
    }
    (sync_steps, async_groups)
}

} // verus!
