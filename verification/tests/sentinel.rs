use auto_desk::sentinel::{
    build_port_contexts, keep_record_check, lookup_state, make_context, make_msg, make_port,
    make_port_contexts, port_batch, Port,
};

const DELIM: char = '\u{1}';

fn states() -> Vec<(String, String)> {
    vec![
        ("22".to_string(), "Listen".to_string()),
        ("443".to_string(), "Established".to_string()),
    ]
}

#[test]
fn state_lookup_defaults_to_closed() {
    let st = states();
    assert_eq!(lookup_state(&st, "22"), "Listen");
    assert_eq!(lookup_state(&st, "443"), "Established");
    assert_eq!(lookup_state(&st, "8080"), "Closed");
}

#[test]
fn state_lookup_takes_the_last_entry_for_a_dual_stack_port() {
    // the table is folded IPv4 first, IPv6 after; a later entry for the
    // same local port overrides an earlier one
    let st = vec![
        ("22".to_string(), "Listen".to_string()),
        ("22".to_string(), "Established".to_string()),
    ];
    assert_eq!(lookup_state(&st, "22"), "Established");
}

#[test]
fn batch_assembly_is_exact_for_given_resolutions() {
    // the assembly from lines, resolutions and states is a pure function
    let good = wire_line(&["41", "10.0.0.5", "45678", "1.2.3.4", "22", "OUT-GOING"]);
    let ignored = wire_line(&["42", "10.0.0.5", "45678", "1.2.3.4", "22", "OUT-GOING"]);
    let error_line = format!("\u{7}{}oops", DELIM);
    let lines = vec![good, ignored, error_line];
    let resolutions = vec![Some("vim".to_string()), Some("firefox".to_string()), None];
    let st = states();
    let stop = vec!["firefox".to_string()];

    let contexts = build_port_contexts(&lines, &resolutions, &st, &stop, true);
    assert_eq!(contexts.len(), 1);
    assert_eq!(contexts[0].get("executable").unwrap(), "vim");
    assert_eq!(contexts[0].get("pid").unwrap(), "41");
    assert_eq!(contexts[0].get("local_adr").unwrap(), "10.0.0.5");
    assert_eq!(contexts[0].get("local_port").unwrap(), "45678");
    assert_eq!(contexts[0].get("state").unwrap(), "Closed");
    assert_eq!(contexts[0].get("remote_port").unwrap(), "22");

    // a record whose pid does not parse never reads its resolution
    let unparsed = wire_line(&["x", "::1", "45678", "::2", "22", "INCOMING"]);
    let contexts = build_port_contexts(
        &vec![unparsed],
        &vec![Some("firefox".to_string())],
        &st,
        &stop,
        true,
    );
    assert_eq!(contexts.len(), 1);
    assert_eq!(contexts[0].get("executable").unwrap(), "");
    assert_eq!(contexts[0].get("pid").unwrap(), "");
}

#[test]
fn ignored_executables_are_dropped() {
    let stop = vec!["firefox".to_string()];
    let st = states();

    // a record whose resolved executable is in the ignore-set emits nothing
    let r = make_port(
        Some(100),
        Some("firefox".to_string()),
        "127.0.0.1",
        "22",
        "1.2.3.4",
        "443",
        "OUT-GOING",
        &st,
        &stop,
    );
    assert!(r.is_none());

    // one resolving elsewhere is kept
    let r = make_port(
        Some(100),
        Some("vim".to_string()),
        "127.0.0.1",
        "22",
        "1.2.3.4",
        "443",
        "OUT-GOING",
        &st,
        &stop,
    )
    .unwrap();
    assert_eq!(r.exec_name.as_deref(), Some("vim"));
    assert_eq!(r.state, "Listen");
    assert_eq!(r.local_addr, "127.0.0.1");
    assert_eq!(r.rport, "443");

    // one that resolved to nothing is kept too
    let r = make_port(None, None, "127.0.0.1", "8080", "1.2.3.4", "80", "INCOMING", &st, &stop);
    assert!(r.is_some());
    assert_eq!(r.unwrap().state, "Closed");
}

#[test]
fn web_policy_drops_outbound_web_records_only() {
    // outbound to 443 is excluded under the policy
    assert!(!keep_record_check("OUT-GOING", "443", true));
    assert!(!keep_record_check("out-going", "80", true));
    // outbound to 22 is included
    assert!(keep_record_check("OUT-GOING", "22", true));
    // inbound web traffic is included
    assert!(keep_record_check("INCOMING", "443", true));
    // with the flag off everything is included
    assert!(keep_record_check("OUT-GOING", "443", false));
}

#[test]
fn context_carries_every_record_field() {
    let port = Port {
        local_addr: "127.0.0.1".to_string(),
        remote_addr: "1.2.3.4".to_string(),
        lport: "22".to_string(),
        rport: "56000".to_string(),
        state: "Listen".to_string(),
        pid: Some(4242),
        exec_name: Some("sshd".to_string()),
        con_dir: "INCOMING".to_string(),
    };
    let c = make_context(port);
    assert_eq!(c.len(), 8);
    assert_eq!(c.get("local_adr").unwrap(), "127.0.0.1");
    assert_eq!(c.get("remote_adr").unwrap(), "1.2.3.4");
    assert_eq!(c.get("state").unwrap(), "Listen");
    assert_eq!(c.get("executable").unwrap(), "sshd");
    assert_eq!(c.get("pid").unwrap(), "4242");
    assert_eq!(c.get("connection_direction").unwrap(), "INCOMING");
    assert_eq!(c.get("local_port").unwrap(), "22");
    assert_eq!(c.get("remote_port").unwrap(), "56000");
}

#[test]
fn missing_identity_becomes_empty_fields() {
    let port = Port {
        local_addr: "::1".to_string(),
        remote_addr: "::2".to_string(),
        lport: "9".to_string(),
        rport: "10".to_string(),
        state: "Closed".to_string(),
        pid: None,
        exec_name: None,
        con_dir: "LOCAL".to_string(),
    };
    let contexts = make_port_contexts(vec![port]);
    assert_eq!(contexts.len(), 1);
    assert_eq!(contexts[0].get("pid").unwrap(), "");
    assert_eq!(contexts[0].get("executable").unwrap(), "");
}

fn wire_line(fields: &[&str]) -> String {
    let mut line = String::from("\u{0}");
    for f in fields {
        line.push(DELIM);
        line.push_str(f);
    }
    line
}

#[test]
fn batch_processing_skips_error_and_malformed_lines() {
    // pid 0 never matches a process, so the record keeps an empty identity
    let good = wire_line(&["0", "127.0.0.1", "45678", "1.2.3.4", "22", "OUT-GOING"]);
    let error_line = format!("\u{7}{}something went wrong", DELIM);
    let malformed = wire_line(&["0", "127.0.0.1"]);
    let batch = format!("{}\n{}\n{}\n", good, error_line, malformed);

    let contexts = port_batch(&batch, &Vec::new(), true);
    assert_eq!(contexts.len(), 1);
    assert_eq!(contexts[0].get("local_adr").unwrap(), "127.0.0.1");
    assert_eq!(contexts[0].get("local_port").unwrap(), "45678");
    assert_eq!(contexts[0].get("remote_port").unwrap(), "22");
    assert_eq!(contexts[0].get("connection_direction").unwrap(), "OUT-GOING");
}

#[test]
fn batch_processing_applies_the_web_policy() {
    let web = wire_line(&["0", "127.0.0.1", "45678", "1.2.3.4", "443", "OUT-GOING"]);
    let ssh = wire_line(&["0", "127.0.0.1", "45678", "1.2.3.4", "22", "OUT-GOING"]);
    let batch = format!("{}\n{}", web, ssh);

    let contexts = port_batch(&batch, &Vec::new(), true);
    assert_eq!(contexts.len(), 1);
    assert_eq!(contexts[0].get("remote_port").unwrap(), "22");

    let contexts = port_batch(&batch, &Vec::new(), false);
    assert_eq!(contexts.len(), 2);
}

#[test]
fn tracer_messages_classify_endpoints() {
    let ips = vec!["0.0.0.0".to_string(), "10.0.0.5".to_string()];

    let m = make_msg("42", "10.0.0.5", "45678", "1.2.3.4", "443", &ips).unwrap().unwrap();
    let expect = format!(
        "42{d}10.0.0.5{d}45678{d}1.2.3.4{d}443{d}OUT-GOING",
        d = DELIM
    );
    assert_eq!(m, expect);

    let m = make_msg("42", "1.2.3.4", "443", "10.0.0.5", "45678", &ips).unwrap().unwrap();
    let expect = format!(
        "42{d}10.0.0.5{d}45678{d}1.2.3.4{d}443{d}INCOMING",
        d = DELIM
    );
    assert_eq!(m, expect);

    let m = make_msg("42", "10.0.0.5", "45678", "0.0.0.0", "22", &ips).unwrap().unwrap();
    assert!(m.ends_with("LOCAL"));

    // a reserved local port is dropped
    assert_eq!(make_msg("42", "10.0.0.5", "5", "1.2.3.4", "443", &ips), Ok(None));
    // one that is not a port number at all is an error
    assert_eq!(make_msg("42", "10.0.0.5", "many", "1.2.3.4", "443", &ips), Err(()));
    assert_eq!(make_msg("42", "10.0.0.5", "70000", "1.2.3.4", "443", &ips), Err(()));
}

#[test]
fn tracer_messages_survive_batch_processing() {
    // a record produced on the tracer side comes back out of the bridge
    let ips = vec!["10.0.0.5".to_string()];
    let msg = make_msg("0", "10.0.0.5", "45678", "1.2.3.4", "22", &ips).unwrap().unwrap();
    let line = format!("\u{0}{}{}", DELIM, msg);
    let contexts = port_batch(&line, &Vec::new(), true);
    assert_eq!(contexts.len(), 1);
    assert_eq!(contexts[0].get("local_adr").unwrap(), "10.0.0.5");
    assert_eq!(contexts[0].get("remote_adr").unwrap(), "1.2.3.4");
    assert_eq!(contexts[0].get("connection_direction").unwrap(), "OUT-GOING");
}
