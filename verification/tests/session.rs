use terminal_chat::hub::Hub;
use terminal_chat::hub::RecvOutcome;
use terminal_chat::message::MessageType;
use terminal_chat::registry::Registry;
use terminal_chat::session::outbound_line;
use terminal_chat::session::trim_line;
use terminal_chat::session::InboundAction;
use terminal_chat::session::Session;
use terminal_chat::session::StartOutcome;

fn expect_message(out: RecvOutcome) -> String {
    match out {
        RecvOutcome::Message(m) => m,
        other => panic!("expected a message, got {:?}", other),
    }
}

#[test]
fn trimming() {
    assert_eq!(trim_line("  alice \r\n"), "alice");
    assert_eq!(trim_line("\t\n"), "");
    assert_eq!(trim_line("bob"), "bob");
    assert_eq!(trim_line("  two words  "), "two words");
}

#[test]
fn empty_username_is_rejected_without_side_effects() {
    let reg = Registry::new();
    let mut session = Session::new();
    match session.start("   \n") {
        StartOutcome::Rejected(notice) => {
            assert_eq!(notice, "Username cannot be empty!");
        }
        StartOutcome::Started(_, _) => panic!("an empty username must be rejected"),
    }
    assert!(!reg.contains(&"".to_string()));
}

#[test]
fn accepted_username_yields_join_and_welcome() {
    let mut session = Session::new();
    match session.start(" alice \n") {
        StartOutcome::Started(join, welcome) => {
            assert_eq!(join.username, "alice");
            assert_eq!(join.content, "alice joined the chat!");
            assert_eq!(join.message_type, MessageType::Join);
            assert_eq!(welcome.username, "System");
            assert_eq!(welcome.content, "Welcome to the chat,alice! Type 'quit' to exit");
            assert_eq!(welcome.message_type, MessageType::System);
        }
        StartOutcome::Rejected(_) => panic!("a non-empty username must be accepted"),
    }
}

#[test]
fn join_reaches_others_but_not_the_joiner() {
    let mut hub = Hub::new(100);
    let mut bob_rx = hub.subscribe();
    let mut alice = Session::new();
    let join = match alice.start("alice\n") {
        StartOutcome::Started(join, _) => join,
        StartOutcome::Rejected(_) => panic!("a non-empty username must be accepted"),
    };
    let mut alice_rx = hub.subscribe();
    hub.publish(join.to_json());
    // bob's outbound loop forwards alice's join
    let raw = expect_message(hub.try_receive(&mut bob_rx));
    let forwarded = outbound_line(&"bob".to_string(), &raw);
    assert_eq!(forwarded, Some(raw.clone()));
    // alice's own outbound loop receives it but never echoes it back
    let raw_own = expect_message(hub.try_receive(&mut alice_rx));
    assert_eq!(outbound_line(&"alice".to_string(), &raw_own), None);
}

#[test]
fn inbound_line_decisions() {
    let mut session = Session::new();
    match session.start("alice\n") {
        StartOutcome::Started(_, _) => {}
        StartOutcome::Rejected(_) => panic!("a non-empty username must be accepted"),
    }
    match session.handle_inbound("   \n") {
        InboundAction::Ignore => {}
        _ => panic!("an empty line is ignored"),
    }
    match session.handle_inbound("/quit\n") {
        InboundAction::Quit => {}
        _ => panic!("the quit command stops the loop"),
    }
    match session.handle_inbound(" hello world \n") {
        InboundAction::Broadcast(m) => {
            assert_eq!(m.username, "alice");
            assert_eq!(m.content, "hello world");
            assert_eq!(m.message_type, MessageType::Text);
        }
        _ => panic!("ordinary text is broadcast"),
    }
}

#[test]
fn quit_publishes_one_leave_and_clears_registry() {
    let mut hub = Hub::new(100);
    let mut reg = Registry::new();
    let mut watcher_rx = hub.subscribe();
    let mut session = Session::new();
    let join = match session.start("alice\n") {
        StartOutcome::Started(join, _) => join,
        StartOutcome::Rejected(_) => panic!("a non-empty username must be accepted"),
    };
    reg.insert("alice".to_string(), 1);
    hub.publish(join.to_json());
    assert!(matches!(session.handle_inbound("/quit\n"), InboundAction::Quit));
    let leave = session.begin_close();
    assert_eq!(leave.username, "alice");
    assert_eq!(leave.content, "alice left the chat!");
    assert_eq!(leave.message_type, MessageType::Leave);
    hub.publish(leave.to_json());
    session.finish(&mut reg);
    assert!(!reg.contains(&"alice".to_string()));
    // exactly one leave record was published after the join
    let _join_raw = expect_message(hub.try_receive(&mut watcher_rx));
    let leave_raw = expect_message(hub.try_receive(&mut watcher_rx));
    assert_eq!(leave_raw, leave.to_json());
    assert_eq!(hub.try_receive(&mut watcher_rx), RecvOutcome::Empty);
}

#[test]
fn late_subscriber_misses_earlier_text_but_sees_later() {
    let mut hub = Hub::new(100);
    let mut alice = Session::new();
    let join = match alice.start("alice\n") {
        StartOutcome::Started(join, _) => join,
        StartOutcome::Rejected(_) => panic!("a non-empty username must be accepted"),
    };
    hub.publish(join.to_json());
    let hello = match alice.handle_inbound("hello\n") {
        InboundAction::Broadcast(m) => m,
        _ => panic!("ordinary text is broadcast"),
    };
    hub.publish(hello.to_json());
    // bob subscribes only now: he must not observe anything published
    // before his subscription was created
    let mut bob_rx = hub.subscribe();
    assert_eq!(hub.try_receive(&mut bob_rx), RecvOutcome::Empty);
    // but he does see what alice sends afterwards
    let later = match alice.handle_inbound("are you there?\n") {
        InboundAction::Broadcast(m) => m,
        _ => panic!("ordinary text is broadcast"),
    };
    hub.publish(later.to_json());
    let raw = expect_message(hub.try_receive(&mut bob_rx));
    let forwarded = outbound_line(&"bob".to_string(), &raw).expect("forwarded to bob");
    let decoded = terminal_chat::message::ChatMessage::from_json(&forwarded).unwrap();
    assert_eq!(decoded.username, "alice");
    assert_eq!(decoded.content, "are you there?");
    assert_eq!(decoded.message_type, MessageType::Text);
}

#[test]
fn text_messages_keep_their_relative_order() {
    let mut hub = Hub::new(100);
    let mut alice = Session::new();
    assert!(matches!(alice.start("alice\n"), StartOutcome::Started(_, _)));
    let mut bob_rx = hub.subscribe();
    for text in ["first\n", "second\n", "third\n"] {
        match alice.handle_inbound(text) {
            InboundAction::Broadcast(m) => hub.publish(m.to_json()),
            _ => panic!("ordinary text is broadcast"),
        }
    }
    let mut seen = Vec::new();
    loop {
        match hub.try_receive(&mut bob_rx) {
            RecvOutcome::Message(raw) => {
                let m = terminal_chat::message::ChatMessage::from_json(&raw).unwrap();
                seen.push(m.content);
            }
            RecvOutcome::Empty => break,
            other => panic!("unexpected outcome {:?}", other),
        }
    }
    assert_eq!(seen, vec!["first", "second", "third"]);
}

#[test]
fn undecodable_lines_are_skipped() {
    assert_eq!(outbound_line(&"bob".to_string(), "noise on the wire"), None);
}
