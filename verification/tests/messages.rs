use botbot::message::{list_contains, Message, Thought};
use botbot::message_mgmt::{get_admin_list, get_left_arg, get_right_arg, ping_list};

fn admins() -> Vec<String> {
    vec![
        "@vlp:matrix.fdn.fr".to_string(),
        "@belette:uc.neviani.fr".to_string(),
        "no-colon".to_string(),
        "@khrys:matrix.fdn.fr".to_string(),
    ]
}

fn message(sender_id: &str, text: &str) -> Message {
    Message {
        room_origin: "fdn".to_string(),
        room_id: "!room:fdn.fr".to_string(),
        sender_id: sender_id.to_string(),
        sender_name: "Alice".to_string(),
        m_message: text.to_string(),
    }
}

#[test]
fn admin_list_leaves_out_the_sender() {
    assert_eq!(
        get_admin_list(&"belette".to_string(), &admins()),
        Ok("ping: vlp, khrys".to_string())
    );
    assert_eq!(get_admin_list(&"nobody".to_string(), &Vec::new()), Ok("ping".to_string()));
}

#[test]
fn ping_list_keeps_the_at_sign() {
    assert_eq!(ping_list(&admins(), 0, None), "ping: @vlp, @belette, @khrys".to_string());
}

#[test]
fn admin_arguments_in_brackets() {
    let command = "botbot admin add [café] [Bonjour %s !]".to_string();
    assert_eq!(get_left_arg(&command), Ok("café".to_string()));
    assert_eq!(get_right_arg(&command), Ok("Bonjour %s !".to_string()));
    let bare = "botbot admin del cafe".to_string();
    assert_eq!(get_left_arg(&bare), Err("no [trigger word] in the admin command".to_string()));
    assert_eq!(get_right_arg(&"botbot admin add [x]".to_string()), Err("no [answer] in the admin command".to_string()));
}

#[test]
fn membership_of_lists() {
    assert!(list_contains(&admins(), &"@vlp:matrix.fdn.fr".to_string()));
    assert!(!list_contains(&admins(), &"@vlp".to_string()));
}

#[test]
fn thinking_pings_and_admin_commands() {
    let list = admins();
    let core = vec!["@tom28:matrix.fdn.fr".to_string()];
    match message("@alice:fdn.fr", "botbot ping adminsys").thinking(&list, &core) {
        Thought::Reply(r) => assert_eq!(
            r,
            Ok("Hello les adminsys: Alice vous contacte ! ping: @vlp, @belette, @khrys".to_string())
        ),
        _ => panic!("expected a reply"),
    }
    match message("@alice:fdn.fr", "Botbot PING admincore").thinking(&list, &core) {
        Thought::Reply(r) => assert_eq!(r, Ok("Hello les adminsys: Alice vous contacte ! ping: @tom28".to_string())),
        _ => panic!("expected a reply"),
    }
    match message("@vlp:matrix.fdn.fr", "botbot admin alert").thinking(&list, &core) {
        Thought::Reply(r) => assert_eq!(r, Ok("plop".to_string())),
        _ => panic!("expected a reply"),
    }
    match message("@vlp:matrix.fdn.fr", "botbot admin whatever").thinking(&list, &core) {
        Thought::Reply(r) => assert_eq!(r, Err("ERROR: no admin command".to_string())),
        _ => panic!("expected a reply"),
    }
    match message("@vlp:matrix.fdn.fr", "botbot admin add [modem] [Voir le wiki]").thinking(&list, &core) {
        Thought::AddChat { trigger, answer } => {
            assert_eq!(trigger, "modem".to_string());
            assert_eq!(answer, "Voir le wiki".to_string());
        }
        _ => panic!("expected an addition"),
    }
    match message("@vlp:matrix.fdn.fr", "botbot admin add modem").thinking(&list, &core) {
        Thought::Reply(r) => assert_eq!(
            r,
            Err("ERROR: chat_to_add get trigger- no [trigger word] in the admin command".to_string())
        ),
        _ => panic!("expected an error"),
    }
    match message("@vlp:matrix.fdn.fr", "botbot admin add [modem]").thinking(&list, &core) {
        Thought::Reply(r) => assert_eq!(
            r,
            Err("ERROR: chat_to_add get answer - no [answer] in the admin command".to_string())
        ),
        _ => panic!("expected an error"),
    }
    match message("@vlp:matrix.fdn.fr", "botbot admin del [modem]").thinking(&list, &core) {
        Thought::DelChat { trigger } => assert_eq!(trigger, "modem".to_string()),
        _ => panic!("expected a deletion"),
    }
    match message("@vlp:matrix.fdn.fr", "botbot admin del modem").thinking(&list, &core) {
        Thought::Reply(r) => assert_eq!(
            r,
            Err("ERROR: chat_to_del match trigger - no [trigger word] in the admin command".to_string())
        ),
        _ => panic!("expected an error"),
    }
}

#[test]
fn admin_space_asks_for_the_disk() {
    match message("@vlp:matrix.fdn.fr", "botbot admin space").thinking(&admins(), &Vec::new()) {
        Thought::DiskSpace => {}
        _ => panic!("expected the disk space"),
    }
    match message("@alice:fdn.fr", "botbot admin space").thinking(&admins(), &Vec::new()) {
        Thought::Lookup { .. } => {}
        _ => panic!("expected a lookup"),
    }
    let m = message("@vlp:matrix.fdn.fr", "botbot admin space");
    let df = "Filesystem 1K-blocks Used Available Use% Mounted on\n/dev/sdb1 41022000 3000000 38022000 8% /var\n";
    assert_eq!(m.disk_space_reply(df), Some(Ok("[admin mode by: Alice] /var utilisé à 8%".to_string())));
    let bad = "/dev/sdb1 4 3 1 x% /var\n";
    assert_eq!(m.disk_space_reply(bad), Some(Err("ERROR: admin space - ERROR: convert usage in Integer".to_string())));
    assert_eq!(m.disk_space_reply("nothing here\n"), None);
}

#[test]
fn commands_ignore_ascii_case() {
    let list = admins();
    let core = vec!["@tom28:matrix.fdn.fr".to_string()];
    match message("@alice:fdn.fr", "BOTBOT Ping AdminSys").thinking(&list, &core) {
        Thought::Reply(r) => assert_eq!(
            r,
            Ok("Hello les adminsys: Alice vous contacte ! ping: @vlp, @belette, @khrys".to_string())
        ),
        _ => panic!("expected a reply"),
    }
}

#[test]
fn non_admins_get_a_lookup() {
    let list = admins();
    match message("@alice:fdn.fr", "botbot admin add [x] [y]").thinking(&list, &Vec::new()) {
        Thought::Lookup { phrase } => assert_eq!(phrase, "botbot admin add [x] [y]".to_string()),
        _ => panic!("expected a lookup"),
    }
}

#[test]
fn lookup_phrase_is_transliterated_and_lower_case() {
    match message("@alice:fdn.fr", "Botbot, le CAFÉ est prêt ?").thinking(&admins(), &Vec::new()) {
        Thought::Lookup { phrase } => assert_eq!(phrase, "botbot, le cafe est pret ?".to_string()),
        _ => panic!("expected a lookup"),
    }
}

#[test]
fn replies_after_the_database() {
    let m = message("@vlp:matrix.fdn.fr", "botbot");
    assert_eq!(m.chat_added(Ok("modem".to_string())), Ok("[admin mode by: Alice] modem ajouté !".to_string()));
    assert_eq!(
        m.chat_added(Err("disk full".to_string())),
        Err("ERROR: chat_to_add process to add - disk full".to_string())
    );
    assert_eq!(m.chat_deleted(Ok("modem".to_string())), Ok("[admin mode by: Alice] modem supprimé !".to_string()));
    assert_eq!(
        m.chat_deleted(Err("absent".to_string())),
        Err("ERROR: chat_to_del proceed to del - absent".to_string())
    );
    assert_eq!(
        m.answer_found(Ok("Salut %s !%nÇa va ?".to_string())),
        Ok("Salut Alice !\nÇa va ?".to_string())
    );
    assert_eq!(m.answer_found(Ok("100% sûr".to_string())), Ok("100% sûr".to_string()));
    assert_eq!(m.answer_found(Ok("Voir le wiki".to_string())), Ok("Voir le wiki".to_string()));
    assert_eq!(m.answer_found(Err("none".to_string())), Err("ERROR: return answer - none".to_string()));
}

#[test]
fn ticket_link_and_talking_arguments() {
    let m = message("@alice:fdn.fr", "voir #12345 svp");
    assert_eq!(m.ticket("#12345".to_string()), Ok("Ticket: https://tickets.fdn.fr/rt/Ticket/Display.html?id=12345".to_string()));
    assert_eq!(
        m.talking_args("-c./creds.json", "-s./store/", "Bonjour".to_string()),
        vec![
            "-c./creds.json".to_string(),
            "-s./store/".to_string(),
            "-r!room:fdn.fr".to_string(),
            "-mBonjour".to_string(),
        ]
    );
}
