use auto_desk::config::Hook;
use auto_desk::context::Context;
use auto_desk::hooks::{
    add_hook, dispatch_step, get_hook, get_hooks, hooks_switch, make_db_from_conf,
    parse_event_kind, rm_hook, run_hooks, EventKind, HookDB, LoopMsg, LoopState,
};
use auto_desk::msgs::EventCmd;

fn hook(event: &str, exec_cmd: &str) -> Hook {
    Hook {
        event: event.to_string(),
        exec_cmd: exec_cmd.to_string(),
    }
}

#[test]
fn recognized_kinds_parse() {
    assert_eq!(parse_event_kind("wifi-network-change"), Some(EventKind::WifiChange));
    assert_eq!(parse_event_kind("network-toggle"), Some(EventKind::NetworkToggle));
    assert_eq!(parse_event_kind("backlight"), Some(EventKind::Backlight));
    assert_eq!(parse_event_kind("new-usb-device"), Some(EventKind::NewUsbDevice));
    assert_eq!(parse_event_kind("bluetooth-device"), Some(EventKind::BluetoothDevice));
    assert_eq!(parse_event_kind("port-status-change"), Some(EventKind::PortStatusChange));
    assert_eq!(parse_event_kind("no-such-kind"), None);
    assert_eq!(parse_event_kind(""), None);
}

#[test]
fn add_recognized_hook_grows_table_and_bucket() {
    let mut db = HookDB::new();
    assert_eq!(db.next_uid, 0);
    let r = db.add_hook(hook("backlight", "notify-send dim"));
    assert!(r.is_ok());
    assert_eq!(db.hooks.len(), 1);
    assert_eq!(db.hooks[0].0, 0);
    assert_eq!(db.hooks[0].1.event, "backlight");
    assert_eq!(db.backlight, vec![0]);
    assert_eq!(db.next_uid, 1);
    assert!(db.wifi_net.is_empty());
    assert!(db.net_con.is_empty());
    assert!(db.usb_dev.is_empty());
    assert!(db.bluetooth_conn.is_empty());
    assert!(db.ports_change.is_empty());

    let r = db.add_hook(hook("backlight", "notify-send brighter"));
    assert!(r.is_ok());
    assert_eq!(db.hooks.len(), 2);
    assert_eq!(db.backlight, vec![0, 1]);
    assert_eq!(db.next_uid, 2);
}

#[test]
fn add_unrecognized_hook_changes_nothing() {
    let mut db = HookDB::new();
    db.add_hook(hook("wifi-network-change", "true")).unwrap();
    let r = db.add_hook(hook("file-exists", "true"));
    assert!(r.is_err());
    assert_eq!(db.hooks.len(), 1);
    assert_eq!(db.next_uid, 1);
    assert_eq!(db.wifi_net, vec![0]);
    assert!(db.backlight.is_empty());
    assert!(db.net_con.is_empty());
    assert!(db.usb_dev.is_empty());
    assert!(db.bluetooth_conn.is_empty());
    assert!(db.ports_change.is_empty());
}

#[test]
fn merge_keeps_the_existing_table_intact() {
    let mut live = HookDB::new();
    live.add_hook(hook("backlight", "keep-me")).unwrap();
    live.add_hook(hook("network-toggle", "keep-me-too")).unwrap();
    let mut fresh = HookDB::new();
    fresh.add_hook(hook("backlight", "new-one")).unwrap();
    live.update(fresh);
    // the pre-existing entries keep their ids and their order
    assert_eq!(live.hooks[0].0, 0);
    assert_eq!(live.hooks[0].1.exec_cmd, "keep-me");
    assert_eq!(live.hooks[1].0, 1);
    assert_eq!(live.hooks[1].1.exec_cmd, "keep-me-too");
    assert_eq!(live.hooks[2].0, 2);
    assert_eq!(live.hooks[2].1.exec_cmd, "new-one");
}

#[test]
fn merge_into_empty_db_copies_every_hook() {
    let mut other = HookDB::new();
    other.add_hook(hook("backlight", "a")).unwrap();
    other.add_hook(hook("network-toggle", "b")).unwrap();
    other.add_hook(hook("backlight", "c")).unwrap();

    let mut live = HookDB::new();
    live.update(other);
    assert_eq!(live.hooks.len(), 3);
    assert_eq!(live.next_uid, 3);
    assert_eq!(live.backlight.len(), 2);
    assert_eq!(live.net_con.len(), 1);
}

#[test]
fn seeding_skips_unrecognized_kinds() {
    let conf = vec![
        hook("backlight", "a"),
        hook("definitely-not-a-kind", "b"),
        hook("port-status-change", "c"),
    ];
    let mut db = HookDB::new();
    make_db_from_conf(conf, &mut db);
    assert_eq!(db.hooks.len(), 2);
    assert_eq!(db.backlight.len(), 1);
    assert_eq!(db.ports_change.len(), 1);
}

#[test]
fn add_hook_command_error_codes() {
    let mut db = HookDB::new();
    // no embedded space: the malformed-input code, not the
    // unrecognized-kind code
    assert_eq!(add_hook("backlight", &mut db), 7);
    assert_eq!(db.hooks.len(), 0);
    // unrecognized kind
    assert_eq!(add_hook("no-such-kind xterm", &mut db), 9);
    assert_eq!(db.hooks.len(), 0);
    // well-formed
    assert_eq!(add_hook("backlight xbacklight -set 50", &mut db), 0);
    assert_eq!(db.hooks.len(), 1);
    assert_eq!(db.hooks[0].1.event, "backlight");
    assert_eq!(db.hooks[0].1.exec_cmd, "xbacklight -set 50");
}

#[test]
fn rm_hook_reports_success_without_removing() {
    let mut db = HookDB::new();
    db.add_hook(hook("backlight", "a")).unwrap();
    assert_eq!(rm_hook("0", &mut db), 0);
    assert_eq!(db.hooks.len(), 1);
}

#[test]
fn hook_listing_is_empty() {
    let mut db = HookDB::new();
    db.add_hook(hook("backlight", "a")).unwrap();
    assert_eq!(get_hook(&db), "");
}

#[test]
fn hooks_switch_routes_commands() {
    let mut db = HookDB::new();
    assert_eq!(hooks_switch("add-hook", "backlight dim", &mut db), Some((0, None)));
    assert_eq!(db.hooks.len(), 1);
    assert_eq!(hooks_switch("rm-hook", "0", &mut db), Some((0, None)));
    assert_eq!(hooks_switch("ls-hook", "", &mut db), Some((0, Some(String::new()))));
    assert_eq!(hooks_switch("list-hook", "", &mut db), Some((0, Some(String::new()))));
    assert_eq!(hooks_switch("open-here", "xterm", &mut db), None);
    assert_eq!(db.hooks.len(), 1);
}

#[test]
fn lookup_keeps_registration_order_and_skips_missing_ids() {
    let mut db = HookDB::new();
    db.add_hook(hook("backlight", "first")).unwrap();
    db.add_hook(hook("network-toggle", "other")).unwrap();
    db.add_hook(hook("backlight", "second")).unwrap();
    let hooks = get_hooks(&db.backlight, &db.hooks);
    assert_eq!(hooks.len(), 2);
    assert_eq!(hooks[0].exec_cmd, "first");
    assert_eq!(hooks[1].exec_cmd, "second");

    // an id absent from the table is skipped
    let bucket = vec![0u16, 77u16, 2u16];
    let hooks = get_hooks(&bucket, &db.hooks);
    assert_eq!(hooks.len(), 2);
    assert_eq!(hooks[0].exec_cmd, "first");
    assert_eq!(hooks[1].exec_cmd, "second");
}

fn ctx(key: &str, value: &str) -> Context {
    let mut c = Context::new();
    c.insert(key.to_string(), value.to_string());
    c
}

#[test]
fn run_hooks_pairs_each_hook_with_the_context() {
    let mut db = HookDB::new();
    db.add_hook(hook("backlight", "first")).unwrap();
    db.add_hook(hook("backlight", "second")).unwrap();
    let launches = run_hooks(Some(ctx("new_backlight", "0.3")), &db.backlight, &db.hooks);
    assert_eq!(launches.len(), 2);
    assert_eq!(launches[0].exec_cmd, "first");
    assert_eq!(launches[1].exec_cmd, "second");
    assert_eq!(launches[0].context.get("new_backlight").unwrap(), "0.3");
    assert_eq!(launches[1].context.get("new_backlight").unwrap(), "0.3");

    let launches = run_hooks(None, &db.backlight, &db.hooks);
    assert!(launches.is_empty());
}

#[test]
fn shutdown_command_drains_the_loop() {
    let mut db = HookDB::new();
    db.add_hook(hook("backlight", "a")).unwrap();
    let (state, launches) = dispatch_step(&mut db, LoopMsg::Cmd(EventCmd::Exit));
    assert_eq!(state, LoopState::Draining);
    assert!(launches.is_empty());
    assert_eq!(db.hooks.len(), 1);
}

#[test]
fn events_fire_their_kind_only() {
    let mut db = HookDB::new();
    db.add_hook(hook("backlight", "bright-hook")).unwrap();
    db.add_hook(hook("network-toggle", "net-hook")).unwrap();

    let (state, launches) =
        dispatch_step(&mut db, LoopMsg::Event(EventKind::Backlight, ctx("new_backlight", "0.3")));
    assert_eq!(state, LoopState::Running);
    assert_eq!(launches.len(), 1);
    assert_eq!(launches[0].exec_cmd, "bright-hook");

    let (state, launches) =
        dispatch_step(&mut db, LoopMsg::Event(EventKind::WifiChange, ctx("new_network", "home")));
    assert_eq!(state, LoopState::Running);
    assert!(launches.is_empty());
}

#[test]
fn delivered_registry_is_merged() {
    let mut live = HookDB::new();
    live.add_hook(hook("backlight", "a")).unwrap();
    let mut fresh = HookDB::new();
    fresh.add_hook(hook("backlight", "b")).unwrap();
    fresh.add_hook(hook("port-status-change", "c")).unwrap();
    let (state, launches) = dispatch_step(&mut live, LoopMsg::NewDb(fresh));
    assert_eq!(state, LoopState::Running);
    assert!(launches.is_empty());
    assert_eq!(live.hooks.len(), 3);
    assert_eq!(live.backlight.len(), 2);
    assert_eq!(live.ports_change.len(), 1);
}

#[test]
fn port_event_batches_fire_per_context() {
    let mut db = HookDB::new();
    db.add_hook(hook("port-status-change", "port-hook")).unwrap();
    let batch = vec![ctx("local_port", "22"), ctx("local_port", "443")];
    let (state, launches) = dispatch_step(&mut db, LoopMsg::PortEvents(batch));
    assert_eq!(state, LoopState::Running);
    assert_eq!(launches.len(), 2);
    assert_eq!(launches[0].context.get("local_port").unwrap(), "22");
    assert_eq!(launches[1].context.get("local_port").unwrap(), "443");
}
