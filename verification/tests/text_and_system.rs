use botbot::my_system::{collect_disk_fields, disk_usage, i32_to_text, parse_i32, usage_from_fields};
use botbot::pattern::Pattern;
use botbot::text::{replace, split_text, str_contains, str_find, to_ascii_lowercase};
use botbot::trigger_words::{add_trigger_word, find_trigger, load_trigger_words, remove_trigger_word};

const DF: &str = "Filesystem     1K-blocks    Used Available Use% Mounted on\n\
/dev/sda1       20509264 9123456  10320000  47% /\n\
/dev/sdb1       41022000 3000000  38022000   8% /var\n";

#[test]
fn finding_and_splitting() {
    assert_eq!(str_find("é[x]", "["), Some(2));
    assert_eq!(str_find("abc", "d"), None);
    assert_eq!(str_find("abc", ""), Some(0));
    assert!(str_contains("hello botbot", "botbot"));
    assert_eq!(split_text("a|b||c", '|'), vec!["a", "b", "", "c"]);
    assert_eq!(split_text("", '|'), vec![""]);
}

#[test]
fn lower_case_and_replace() {
    assert_eq!(to_ascii_lowercase("BotBot ÉTÉ"), "botbot ÉtÉ".to_string());
    assert_eq!(replace("a%sb%s", "%s", "X"), "aXbX".to_string());
    assert_eq!(replace("%%ss", "%s", "s"), "%ss".to_string());
}

#[test]
fn integers() {
    assert_eq!(parse_i32("47"), Some(47));
    assert_eq!(parse_i32("-2147483648"), Some(-2147483648));
    assert_eq!(parse_i32("+12"), Some(12));
    assert_eq!(parse_i32("2147483648"), None);
    assert_eq!(parse_i32(""), None);
    assert_eq!(parse_i32("-"), None);
    assert_eq!(parse_i32("4 7"), None);
    assert_eq!(parse_i32("0000000000000000000012"), Some(12));
    assert_eq!(i32_to_text(0), "0".to_string());
    assert_eq!(i32_to_text(47), "47".to_string());
    assert_eq!(i32_to_text(-2147483648), "-2147483648".to_string());
    assert_eq!(parse_i32(&i32_to_text(2147483647)), Some(2147483647));
}

#[test]
fn disk_usage_of_df_output() {
    assert_eq!(disk_usage(DF, "sda1"), Some(Ok(47)));
    assert_eq!(disk_usage(DF, "/var"), Some(Ok(8)));
    assert_eq!(disk_usage(DF, "("), Some(Err("ERROR: fail to build system regex".to_string())));
    assert_eq!(disk_usage(DF, "nothing"), None);
    let p = Pattern::new("sdb1").unwrap();
    let fields = collect_disk_fields(DF, &p);
    assert_eq!(fields, vec!["/dev/sdb1", "41022000", "3000000", "38022000", "8%", "/var"]);
    assert_eq!(usage_from_fields(&fields), Ok(8));
    let odd = vec!["a".to_string(), "b".to_string(), "c".to_string(), "d".to_string(), "x%".to_string()];
    assert_eq!(usage_from_fields(&odd), Err("ERROR: convert usage in Integer".to_string()));
}

#[test]
fn trigger_word_list() {
    let rows = vec!["modem".to_string(), "vpn".to_string(), "modem".to_string(), "wiki".to_string()];
    let mut list = load_trigger_words(rows);
    assert_eq!(list, vec!["modem", "vpn", "wiki"]);
    add_trigger_word(&mut list, "vpn".to_string());
    assert_eq!(list.len(), 3);
    add_trigger_word(&mut list, "adsl".to_string());
    assert_eq!(list, vec!["modem", "vpn", "wiki", "adsl"]);
    remove_trigger_word(&mut list, &"vpn".to_string());
    assert_eq!(list, vec!["modem", "wiki", "adsl"]);
    assert_eq!(find_trigger(&"botbot le wiki et le modem".to_string(), &list), Some("modem".to_string()));
    assert_eq!(find_trigger(&"botbot rien".to_string(), &list), None);
}
