use auto_desk::bspwm;
use auto_desk::commands;
use auto_desk::config::{get_pipe_d, get_pipe_f};
use auto_desk::leftwm;
use auto_desk::qtile::{self, QtileCmdData};
use auto_desk::text::{parse_i32, split_all};
use auto_desk::wm_lib::{partition_layouts, Conf, DesktopLayout, Program};

#[test]
fn pipe_paths() {
    assert_eq!(get_pipe_d(), "/tmp");
    assert_eq!(get_pipe_f(), "/tmp/auto-desk.ports");
}

#[test]
fn signed_number_parsing() {
    assert_eq!(parse_i32("0"), Some(0));
    assert_eq!(parse_i32("42"), Some(42));
    assert_eq!(parse_i32("-42"), Some(-42));
    assert_eq!(parse_i32("+7"), Some(7));
    assert_eq!(parse_i32("2147483647"), Some(i32::MAX));
    assert_eq!(parse_i32("-2147483648"), Some(i32::MIN));
    assert_eq!(parse_i32("2147483648"), None);
    assert_eq!(parse_i32(""), None);
    assert_eq!(parse_i32("-"), None);
    assert_eq!(parse_i32("1 2"), None);
}

#[test]
fn split_all_keeps_empty_segments() {
    let parts = split_all("a,,b", ',');
    assert_eq!(parts, vec!["a", "", "b"]);
    let parts = split_all("", ',');
    assert_eq!(parts, vec![""]);
}

#[test]
fn media_and_volume_commands() {
    let c = commands::volume_up("5");
    assert_eq!(c.program, "amixer");
    assert_eq!(c.args, vec!["set", "Master", "5%+"]);

    let c = commands::volume_down("10");
    assert_eq!(c.args, vec!["set", "Master", "10%-"]);

    let c = commands::mute();
    assert_eq!(c.program, "amixer");
    assert_eq!(c.args, vec!["-D", "pulse", "set", "Master", "1+", "toggle"]);

    assert_eq!(commands::play_pause().args, vec!["play-pause"]);
    assert_eq!(commands::play().args, vec!["play"]);
    assert_eq!(commands::pause().args, vec!["pause"]);
    assert_eq!(commands::stop().args, vec!["stop"]);
    assert_eq!(commands::next_track().args, vec!["next"]);
    assert_eq!(commands::last_track().args, vec!["previous"]);
}

#[test]
fn backlight_monitor_and_power_commands() {
    let c = commands::inc_bright("5");
    assert_eq!(c.program, "xbacklight");
    assert_eq!(c.args, vec!["-inc", "5"]);
    assert_eq!(commands::dec_bright("5").args, vec!["-dec", "5"]);

    let c = commands::add_monitor("HDMI-1");
    assert_eq!(c.program, "xrandr");
    assert_eq!(c.args, vec!["--output", "HDMI-1", "--auto"]);

    assert_eq!(commands::power_off().args, vec!["poweroff"]);
    assert_eq!(commands::sleep().args, vec!["suspend-then-hibernate"]);
    assert_eq!(commands::lock().program, "loginctl");
    assert_eq!(commands::logout().program, "pkill");
}

#[test]
fn program_launch_commands() {
    let c = commands::open_program("writer.desktop");
    assert_eq!(c.program, "gtk-launch");
    assert_eq!(c.args, vec!["writer.desktop"]);

    let c = commands::open_program("firefox --safe-mode");
    assert_eq!(c.program, "sh");
    assert_eq!(c.args, vec!["-c", "coproc firefox --safe-mode; disown; exit"]);
}

#[test]
fn bspwm_payloads_are_nul_separated() {
    assert_eq!(bspwm::make_api("node -c"), b"node\x00-c\x00".to_vec());
    assert_eq!(bspwm::close_focused(), b"node\x00-c\x00".to_vec());
    assert_eq!(bspwm::focus_on("3"), b"desktop\x00-f\x003\x00".to_vec());
    assert_eq!(bspwm::move_to("web"), b"node\x00-d\x00web\x00".to_vec());
}

#[test]
fn bspwm_argument_splitting() {
    assert_eq!(bspwm::get_n_args(2, "firefox 3"), vec!["firefox", "3"]);
    // words beyond the requested count are dropped
    assert_eq!(bspwm::get_n_args(2, "firefox 3 extra"), vec!["firefox", "3"]);
    assert_eq!(bspwm::get_n_args(2, "firefox"), vec!["firefox"]);
    assert_eq!(bspwm::get_n_args(0, "anything"), Vec::<String>::new());
}

#[test]
fn leftwm_commands() {
    assert_eq!(leftwm::move_to("3"), "SendWindowToTag 3");
    assert_eq!(leftwm::close_focused(), "CloseWindow");
    assert_eq!(leftwm::focus_on("2"), "SendWorkspaceToTag 0 2");

    let (focus, program) = leftwm::open_on_desktop("3 firefox --safe-mode").unwrap();
    assert_eq!(focus, "SendWorkspaceToTag 0 2");
    assert_eq!(program, "firefox --safe-mode");

    assert_eq!(leftwm::open_on_desktop("firefox"), Err(7));
    assert_eq!(leftwm::open_on_desktop("three firefox"), Err(2));
}

#[test]
fn qtile_rules_queue_and_clear() {
    let mut data = QtileCmdData::new();
    data.add_rules("Firefox", "2");
    data.add_rules("Firefox", "3");
    data.add_rules("Gimp", "4");
    data.add_queue("firefox", &None);
    data.add_queue("gimp", &Some(vec!["--new-instance".to_string(), "-n".to_string()]));
    data.add_clear(Some(true), "2");
    data.add_clear(None, "4");

    assert_eq!(data.queue, vec!["firefox", "gimp --new-instance -n"]);

    // placement rules pop most-recent-first, falling back to the second class
    assert_eq!(data.get_location(("Firefox", "firefox")).as_deref(), Some("3"));
    assert_eq!(data.get_location(("nosuch", "Firefox")).as_deref(), Some("2"));
    assert_eq!(data.get_location(("Firefox", "firefox")), None);
    assert_eq!(data.get_location(("Gimp", "gimp")).as_deref(), Some("4"));

    // a clear flag is consumed by reading it
    assert!(data.should_clear("2"));
    assert!(!data.should_clear("2"));
    assert!(!data.should_clear("4"));
}

#[test]
fn qtile_command_argument_handling() {
    let mut data = QtileCmdData::new();
    data.add_clear(Some(true), "web");

    // exactly one token is required
    assert_eq!(qtile::should_clear("  web  ", &mut data), Ok(true));
    assert_eq!(qtile::should_clear("a b", &mut data), Err(7));
    assert_eq!(qtile::should_clear("", &mut data), Err(7));

    let mut data = QtileCmdData::new();
    data.add_rules("Firefox", "2");
    assert_eq!(qtile::auto_move("Firefox firefox", &mut data), Ok(Some("2".to_string())));
    assert_eq!(qtile::auto_move("Firefox firefox", &mut data), Ok(None));
    assert_eq!(qtile::auto_move("nospace", &mut data), Err(7));

    let mut data = QtileCmdData::new();
    let exe = qtile::open_on_desktop("/tmp/sock", "firefox Firefox 2", &mut data).unwrap();
    assert_eq!(exe, "firefox");
    assert_eq!(data.get_location(("Firefox", "x")).as_deref(), Some("2"));
    assert_eq!(qtile::open_on_desktop("/tmp/sock", "firefox 2", &mut data), Err(7));
}

fn program(name: &str, wm_class: Option<&str>, args: Option<Vec<&str>>) -> Program {
    Program {
        name: name.to_string(),
        state: None,
        wm_class: wm_class.map(|c| c.to_string()),
        args: args.map(|a| a.into_iter().map(|s| s.to_string()).collect()),
        delay: None,
    }
}

#[test]
fn layouts_build_the_whole_translation_state() {
    let conf = Conf {
        desktops: vec![
            DesktopLayout {
                desktop: "2".to_string(),
                asyncro: None,
                programs: vec![
                    program("firefox", Some("Firefox"), None),
                    program("unclassed", None, None),
                ],
                clear: Some(true),
            },
            DesktopLayout {
                desktop: "3".to_string(),
                asyncro: Some(true),
                programs: vec![program("gimp", Some("Gimp"), Some(vec!["-n"]))],
                clear: None,
            },
        ],
        workspaces: None,
    };
    let mut data = qtile::make_cmd_data(conf);
    // a program without a window class is neither placed nor queued
    assert_eq!(data.queue, vec!["firefox", "gimp -n"]);
    assert_eq!(data.get_location(("Firefox", "x")).as_deref(), Some("2"));
    assert_eq!(data.get_location(("Gimp", "x")).as_deref(), Some("3"));
    assert!(data.should_clear("2"));
    assert!(!data.should_clear("3"));
}

#[test]
fn layout_partitioning_keeps_group_order() {
    let mk = |name: &str, asyncro: Option<bool>| DesktopLayout {
        desktop: name.to_string(),
        asyncro,
        programs: Vec::new(),
        clear: None,
    };
    let (async_l, sync_l) = partition_layouts(vec![
        mk("a", Some(true)),
        mk("b", None),
        mk("c", Some(false)),
        mk("d", Some(true)),
    ]);
    let names = |v: &Vec<DesktopLayout>| v.iter().map(|d| d.desktop.clone()).collect::<Vec<_>>();
    assert_eq!(names(&async_l), vec!["a", "d"]);
    assert_eq!(names(&sync_l), vec!["b", "c"]);
}

#[test]
fn bspwm_launch_plans() {
    let prog = |name: &str, delay: Option<u8>| Program {
        name: name.to_string(),
        state: None,
        wm_class: None,
        args: None,
        delay,
    };

    let step = bspwm::run_exec("firefox", "2", &prog("Firefox", Some(3)));
    assert_eq!(step.desktop, "2");
    assert_eq!(step.program, "Firefox");
    assert_eq!(step.delay_ms, 1500);
    assert_eq!(
        step.rules,
        vec![
            "Firefox:firefox desktop=2",
            "Firefox:Firefox desktop=2",
            "firefox:firefox desktop=2",
            "*:firefox desktop=2",
            "Firefox desktop=2",
            "firefox desktop=2",
        ]
    );

    let layouts = vec![
        DesktopLayout {
            desktop: "1".to_string(),
            asyncro: None,
            programs: vec![prog("vim", None), prog("mutt", Some(1))],
            clear: None,
        },
        DesktopLayout {
            desktop: "2".to_string(),
            asyncro: Some(true),
            programs: vec![prog("firefox", None)],
            clear: None,
        },
    ];
    let exec_names = vec![
        vec!["vim".to_string(), "mutt".to_string()],
        vec!["firefox".to_string()],
    ];

    let ordered = bspwm::init_layouts(&layouts, &exec_names);
    assert_eq!(ordered.len(), 3);
    assert_eq!(ordered[0].program, "vim");
    assert_eq!(ordered[1].program, "mutt");
    assert_eq!(ordered[1].delay_ms, 500);
    assert_eq!(ordered[2].program, "firefox");

    let (sync_steps, async_groups) = bspwm::load_layout(&layouts, &exec_names);
    assert_eq!(sync_steps.len(), 2);
    assert_eq!(sync_steps[0].program, "vim");
    assert_eq!(sync_steps[1].program, "mutt");
    assert_eq!(async_groups.len(), 1);
    assert_eq!(async_groups[0].len(), 1);
    assert_eq!(async_groups[0][0].program, "firefox");
    assert_eq!(async_groups[0][0].desktop, "2");
}

#[test]
fn leftwm_program_listing() {
    let progs = vec![
        Program {
            name: "firefox".to_string(),
            state: None,
            wm_class: None,
            args: None,
            delay: Some(2),
        },
        Program {
            name: "gimp".to_string(),
            state: None,
            wm_class: None,
            args: None,
            delay: None,
        },
    ];
    let listed = leftwm::get_progs(&progs);
    assert_eq!(listed.len(), 2);
    assert_eq!(listed[0], ("firefox".to_string(), Some(2)));
    assert_eq!(listed[1], ("gimp".to_string(), None));
}
