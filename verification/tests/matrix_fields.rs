use botbot::matrix::{clean_room_id, clean_room_origin, clean_sender_id, clean_sender_name};

const PART0: &str = "Message received for room fdn [!abcdef:matrix.fdn.fr] ";
const PART1: &str = " sender Alice Martin [@alice:matrix.fdn.fr] ";

#[test]
fn room_id_between_brackets() {
    assert_eq!(clean_room_id(PART0.to_string()), Ok("!abcdef:matrix.fdn.fr".to_string()));
}

#[test]
fn room_id_errors() {
    assert_eq!(clean_room_id("no bracket]".to_string()), Err("ERROR: clean_room_id start".to_string()));
    assert_eq!(clean_room_id("only [open".to_string()), Err("ERROR: clean_room_id end".to_string()));
    assert_eq!(
        clean_room_id("reversed ] then [".to_string()),
        Err("ERROR: clean_room_id matrix-commander output unreadable".to_string())
    );
    assert_eq!(
        clean_room_id("empty []".to_string()),
        Err("ERROR: clean_room_id matrix-commander output unreadable".to_string())
    );
}

#[test]
fn room_id_with_multibyte_text() {
    assert_eq!(clean_room_id("salle é [ü:ß]".to_string()), Ok("ü:ß".to_string()));
}

#[test]
fn sender_id_between_brackets() {
    assert_eq!(clean_sender_id(PART1.to_string()), Ok("@alice:matrix.fdn.fr".to_string()));
    assert_eq!(clean_sender_id("empty []".to_string()), Ok(String::new()));
    assert_eq!(clean_sender_id("none".to_string()), Err("ERROR: clean_sender_id start".to_string()));
    assert_eq!(clean_sender_id("[open".to_string()), Err("ERROR: clean_sender_id end".to_string()));
    assert_eq!(
        clean_sender_id("] [".to_string()),
        Err("ERROR: clean_sender_id matrix-commander output unreadable".to_string())
    );
}

#[test]
fn room_origin_after_keyword() {
    assert_eq!(clean_room_origin(PART0.to_string()), Ok("fdn".to_string()));
    assert_eq!(clean_room_origin("salon [x]".to_string()), Err("ERROR: clean_room_origin start".to_string()));
    assert_eq!(clean_room_origin("room fdn".to_string()), Err("ERROR: clean_room_origin end".to_string()));
    assert_eq!(
        clean_room_origin("room [x]".to_string()),
        Err("ERROR: clean_room_origin matrix-commander output unreadable".to_string())
    );
}

#[test]
fn sender_name_after_keyword() {
    assert_eq!(clean_sender_name(PART1.to_string()), Ok("Alice Martin".to_string()));
    assert_eq!(clean_sender_name("sender  [x]".to_string()), Ok(String::new()));
    assert_eq!(clean_sender_name("from [x]".to_string()), Err("ERROR: clean_sender_name start".to_string()));
    assert_eq!(clean_sender_name("sender bob".to_string()), Err("ERROR: clean_sender_name end".to_string()));
    assert_eq!(
        clean_sender_name("sender [x]".to_string()),
        Err("clean_sender_name ERROR: Matrix-Commander output unreadable".to_string())
    );
}
