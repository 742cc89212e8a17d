use auto_desk::events::{
    backlight_step, blt_step, format_ratio, make_adr, make_usb_context, network_step, usb_step,
    wifi_step, BltEvent, Brightness, UsbDev,
};

#[test]
fn network_toggle_emits_on_flip_only() {
    assert!(network_step(true, true).is_none());
    assert!(network_step(false, false).is_none());

    let c = network_step(true, false).unwrap();
    assert_eq!(c.len(), 1);
    assert_eq!(c.get("became").unwrap(), "disconnected");

    let c = network_step(false, true).unwrap();
    assert_eq!(c.get("became").unwrap(), "connected");
}

#[test]
fn wifi_change_emits_old_and_new_names() {
    assert!(wifi_step("home", "home").is_none());

    let c = wifi_step("home", "cafe").unwrap();
    assert_eq!(c.len(), 2);
    assert_eq!(c.get("old_network").unwrap(), "home");
    assert_eq!(c.get("new_network").unwrap(), "cafe");

    // the empty string is a valid "no network" value
    let c = wifi_step("home", "").unwrap();
    assert_eq!(c.get("old_network").unwrap(), "home");
    assert_eq!(c.get("new_network").unwrap(), "");
}

#[test]
fn ratio_formatting() {
    assert_eq!(format_ratio(Brightness { level: 50, max: 100 }), "0.5");
    assert_eq!(format_ratio(Brightness { level: 30, max: 100 }), "0.3");
    assert_eq!(format_ratio(Brightness { level: 100, max: 100 }), "1");
    assert_eq!(format_ratio(Brightness { level: 0, max: 7 }), "0");
    assert_eq!(format_ratio(Brightness { level: 1, max: 4 }), "0.25");
    assert_eq!(format_ratio(Brightness { level: 1, max: 3 }), "0.333333");
    assert_eq!(format_ratio(Brightness { level: 1, max: 64 }), "0.015625");
}

#[test]
fn backlight_emits_one_context_per_ratio_change() {
    // a change from 0.50 to 0.30 between two consecutive polls
    let c = backlight_step(
        Brightness { level: 50, max: 100 },
        Brightness { level: 30, max: 100 },
    )
    .unwrap();
    assert_eq!(c.len(), 2);
    assert_eq!(c.get("old_backlight").unwrap(), "0.5");
    assert_eq!(c.get("new_backlight").unwrap(), "0.3");

    // equal polls emit nothing
    assert!(backlight_step(
        Brightness { level: 50, max: 100 },
        Brightness { level: 50, max: 100 },
    )
    .is_none());

    // equal ratios over different scales emit nothing either
    assert!(backlight_step(
        Brightness { level: 50, max: 100 },
        Brightness { level: 5, max: 10 },
    )
    .is_none());
}

fn dev(id: &str, description: Option<&str>) -> UsbDev {
    UsbDev {
        id: id.to_string(),
        description: description.map(|d| d.to_string()),
    }
}

#[test]
fn usb_context_joins_names_and_ids() {
    let devs = vec![dev("1-1", Some("Keyboard")), dev("1-2", None), dev("1-3", Some("Mouse"))];
    let c = make_usb_context(&devs);
    assert_eq!(c.get("device_names").unwrap(), "Keyboard,,Mouse");
    assert_eq!(c.get("device_ids").unwrap(), "1-1,1-2,1-3");
}

#[test]
fn usb_step_reports_new_arrivals_only() {
    let known = vec![dev("1-1", Some("Keyboard"))];

    // the same set again: nothing to report, snapshot kept
    let (state, ctx) = usb_step(known, vec![dev("1-1", Some("Keyboard"))]);
    assert_eq!(state.len(), 1);
    assert!(ctx.is_none());

    // a new arrival: reported, snapshot replaced
    let (state, ctx) = usb_step(state, vec![dev("1-1", Some("Keyboard")), dev("2-1", Some("Camera"))]);
    assert_eq!(state.len(), 2);
    let c = ctx.unwrap();
    assert_eq!(c.get("device_names").unwrap(), "Camera");
    assert_eq!(c.get("device_ids").unwrap(), "2-1");

    // a removal only: the set changed but there is nothing new to report
    let (state, ctx) = usb_step(state, vec![dev("1-1", Some("Keyboard"))]);
    assert_eq!(state.len(), 1);
    assert!(ctx.is_none());
}

#[test]
fn bluetooth_addresses_come_from_object_paths() {
    assert_eq!(make_adr("/org/bluez/hci0/dev_AA_BB_CC_DD_EE_FF"), "AA:BB:CC:DD:EE:FF");
    assert_eq!(make_adr("hci0/dev_00_11_22"), "00:11:22");
}

#[test]
fn bluetooth_connects_deduplicate_and_disconnects_always_emit() {
    let mut connected: Vec<String> = Vec::new();

    let c = blt_step(
        &mut connected,
        BltEvent::DeviceConnected("hci0/dev_AA_BB".to_string()),
    )
    .unwrap();
    assert_eq!(c.get("event").unwrap(), "connected");
    assert_eq!(c.get("device_adr").unwrap(), "AA:BB");
    assert_eq!(connected, vec!["AA:BB".to_string()]);

    // a duplicate connect for a tracked address emits nothing
    let dup = blt_step(
        &mut connected,
        BltEvent::DeviceConnected("hci0/dev_AA_BB".to_string()),
    );
    assert!(dup.is_none());
    assert_eq!(connected.len(), 1);

    // a disconnect emits and stops tracking
    let c = blt_step(
        &mut connected,
        BltEvent::DeviceDisconnected("hci0/dev_AA_BB".to_string()),
    )
    .unwrap();
    assert_eq!(c.get("event").unwrap(), "disconnected");
    assert_eq!(c.get("device_adr").unwrap(), "AA:BB");
    assert!(connected.is_empty());

    // a disconnect for an unknown address still emits
    let c = blt_step(
        &mut connected,
        BltEvent::DeviceDisconnected("hci0/dev_00_11".to_string()),
    )
    .unwrap();
    assert_eq!(c.get("event").unwrap(), "disconnected");
    assert_eq!(c.get("device_adr").unwrap(), "00:11");
}
