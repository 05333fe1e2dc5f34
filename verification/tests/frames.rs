use botbot::botbot::{botbot_read, clean_trame, conclude, frame_can_be_read, Trigger};
use botbot::message::Message;
use botbot::pattern::Pattern;

fn frame(room: &str, text: &str) -> String {
    format!(
        "Message received for room {} [!abc:matrix.fdn.fr] | sender Alice [@alice:fdn.fr] | 2024-01-01 10:00:00 |{}\n",
        room, text
    )
}

fn ticket_pattern() -> Pattern {
    match Pattern::new("#[0-9]{4,6}") {
        Some(p) => p,
        None => panic!("the ticket pattern compiles"),
    }
}

#[test]
fn frame_with_bot_name() {
    let line = frame("fdn", " Botbot help");
    assert!(frame_can_be_read(&line));
    match botbot_read(&line, &ticket_pattern()) {
        Some((m, trigger)) => {
            assert_eq!(trigger, Trigger::Botbot);
            assert_eq!(m.room_origin, "fdn".to_string());
            assert_eq!(m.room_id, "!abc:matrix.fdn.fr".to_string());
            assert_eq!(m.sender_id, "@alice:fdn.fr".to_string());
            assert_eq!(m.sender_name, "Alice".to_string());
            assert_eq!(m.m_message, " Botbot help\n".to_string());
        }
        None => panic!("expected a message"),
    }
}

#[test]
fn frame_with_ticket_number() {
    let p = ticket_pattern();
    match botbot_read(&frame("fdn-tickets-internal", " voir #12345 svp"), &p) {
        Some((m, trigger)) => {
            assert_eq!(trigger, Trigger::Ticket { number: Some("#12345".to_string()) });
            assert_eq!(
                conclude(&m, trigger, Err(String::new())),
                (
                    "Botbot Message from Alice: Ticket: https://tickets.fdn.fr/rt/Ticket/Display.html?id=12345".to_string(),
                    Some("Ticket: https://tickets.fdn.fr/rt/Ticket/Display.html?id=12345".to_string())
                )
            );
        }
        None => panic!("expected a message"),
    }
    match botbot_read(&frame("fdn", " voir #12345"), &p) {
        Some((_, trigger)) => assert_eq!(trigger, Trigger::Nothing),
        None => panic!("expected a message"),
    }
    match botbot_read(&frame("fdn-tickets-internal", " voir #123"), &p) {
        Some((_, trigger)) => assert_eq!(trigger, Trigger::Nothing),
        None => panic!("expected a message"),
    }
}

#[test]
fn lines_that_are_skipped() {
    let p = ticket_pattern();
    assert!(botbot_read(&"a | b | c".to_string(), &p).is_none());
    assert!(botbot_read(&frame("fdn", " > botbot quoted"), &p).is_none());
    assert!(botbot_read(&"no brackets | sender x | t | botbot".to_string(), &p).is_none());
}

#[test]
fn frames_whose_cut_would_panic() {
    assert!(!frame_can_be_read(&"[x] room é[y] | sender a [b] | t | m".to_string()));
    assert!(frame_can_be_read(&"not a frame".to_string()));
}

#[test]
fn trame_fields() {
    let parts = vec![
        "Message received for room fdn [!abc:fdn.fr] ".to_string(),
        " sender Bob [@bob:fdn.fr] ".to_string(),
        " time ".to_string(),
        " hello".to_string(),
    ];
    match clean_trame(&parts) {
        Ok(m) => {
            assert_eq!(m.room_origin, "fdn".to_string());
            assert_eq!(m.sender_name, "Bob".to_string());
            assert_eq!(m.m_message, " hello".to_string());
        }
        Err(e) => panic!("unexpected error {}", e),
    }
    let bad = vec!["x".to_string(), "y".to_string(), "z".to_string(), "w".to_string()];
    assert_eq!(clean_trame(&bad).err(), Some("ERROR: clean_room_id start".to_string()));
}

#[test]
fn conclusions() {
    let m = Message {
        room_origin: "fdn".to_string(),
        room_id: "!r".to_string(),
        sender_id: "@a:b".to_string(),
        sender_name: "Alice".to_string(),
        m_message: " botbot".to_string(),
    };
    assert_eq!(
        conclude(&m, Trigger::Botbot, Ok("Salut".to_string())),
        ("Botbot Message from Alice: Salut".to_string(), Some("Salut".to_string()))
    );
    assert_eq!(
        conclude(&m, Trigger::Botbot, Err("oops".to_string())),
        ("Error: Message from Alice: oops".to_string(), None)
    );
    assert_eq!(
        conclude(&m, Trigger::Ticket { number: Some("#4242".to_string()) }, Err("unused".to_string())),
        (
            "Botbot Message from Alice: Ticket: https://tickets.fdn.fr/rt/Ticket/Display.html?id=4242".to_string(),
            Some("Ticket: https://tickets.fdn.fr/rt/Ticket/Display.html?id=4242".to_string())
        )
    );
    assert_eq!(
        conclude(&m, Trigger::Nothing, Ok("ignored".to_string())),
        ("Error: Message from Alice: No global trigger found".to_string(), None)
    );
}
