use lognorm::number::parse_u32;
use lognorm::text::{find, matches_at, same_text, substring, to_chars};
use lognorm::tokenizer::extract_fields;

fn text(value: Option<&String>) -> Option<&str> {
    value.map(|v| v.as_str())
}

fn pairs(line: &str) -> Vec<(String, String)> {
    let map = extract_fields(line);
    let mut keys: Vec<String> = map.entries().iter().map(|(k, _)| k.clone()).collect();
    keys.sort();
    keys.dedup();
    keys.into_iter()
        .map(|k| {
            let v = map.get(&k).unwrap().clone();
            (k, v)
        })
        .collect()
}

fn owned(expected: &[(&str, &str)]) -> Vec<(String, String)> {
    expected.iter().map(|(k, v)| (k.to_string(), v.to_string())).collect()
}

#[test]
fn test_extract_fields() {
    let log = "id=firewall time=\"2021-04-08 11:57:48\" pri=6 fw=10.0.0.9 vpn=ive ivs=Default Network user=usettest1 realm=\"\" roles=\"\" proto=auth src=82.213.178.130 dst= dstname= type=vpn op= arg=\"\" result= sent= rcvd= agent=\"\" duration= msg=\"AUT22673: Logout from 82.213.178.130 (session:00000000)\"";
    let map = extract_fields(log);
    assert_eq!(text(map.get("id")), Some("firewall"));
    assert_eq!(text(map.get("time")), Some("2021-04-08 11:57:48"));
    assert_eq!(text(map.get("fw")), Some("10.0.0.9"));
    assert_eq!(text(map.get("user")), Some("usettest1"));
    assert_eq!(text(map.get("ivs")), Some("Default Network"));
    assert_eq!(
        text(map.get("msg")),
        Some("AUT22673: Logout from 82.213.178.130 (session:00000000)")
    );
}

#[test]
fn every_key_of_the_sample_line_has_its_value() {
    let log = "id=firewall time=\"2021-04-08 11:57:48\" pri=6 fw=10.0.0.9 vpn=ive ivs=Default Network user=usettest1 realm=\"\" roles=\"\" proto=auth src=82.213.178.130 dst= dstname= type=vpn op= arg=\"\" result= sent= rcvd= agent=\"\" duration= msg=\"AUT22673: Logout from 82.213.178.130 (session:00000000)\"";
    assert_eq!(
        pairs(log),
        owned(&[
            ("agent", ""),
            ("arg", ""),
            ("fw", "10.0.0.9"),
            ("id", "firewall"),
            ("ivs", "Default Network"),
            ("msg", "AUT22673: Logout from 82.213.178.130 (session:00000000)"),
            ("pri", "6"),
            ("proto", "auth"),
            ("realm", ""),
            ("roles", ""),
            ("src", "82.213.178.130"),
            ("time", "2021-04-08 11:57:48"),
            ("type", "vpn"),
            ("user", "usettest1"),
            ("vpn", "ive"),
        ])
    );
}

#[test]
fn single_pairs() {
    assert_eq!(pairs("user=usettest1"), owned(&[("user", "usettest1")]));
    assert_eq!(pairs("realm=\"\""), owned(&[("realm", "")]));
    assert_eq!(pairs("ivs=Default Network"), owned(&[("ivs", "Default Network")]));
    assert_eq!(pairs("a=b"), owned(&[("a", "b")]));
}

#[test]
fn quoted_message_round_trip() {
    let map = extract_fields("msg=\"AUT22673: Logout from 82.213.178.130 (session:00000000)\"");
    assert_eq!(
        text(map.get("msg")),
        Some("AUT22673: Logout from 82.213.178.130 (session:00000000)")
    );
    assert_eq!(map.entries().len(), 1);
}

#[test]
fn lines_without_assignment_have_no_fields() {
    assert_eq!(pairs(""), owned(&[]));
    assert_eq!(pairs("abc"), owned(&[]));
    assert_eq!(pairs("a b c"), owned(&[]));
    assert_eq!(pairs("\"a=b\""), owned(&[]));
}

#[test]
fn empty_values() {
    assert_eq!(pairs("k="), owned(&[("k", "")]));
    assert_eq!(pairs("dst= dstname= type=vpn"), owned(&[("type", "vpn")]));
    assert_eq!(pairs("a=1 b= c=3"), owned(&[("a", "1"), ("c", "3")]));
    assert_eq!(pairs("a=\"\" b=2"), owned(&[("a", ""), ("b", "2")]));
}

#[test]
fn empty_keys() {
    assert_eq!(pairs("=v"), owned(&[("", "v")]));
    assert_eq!(pairs("=v k=w"), owned(&[("", "v"), ("k", "w")]));
    assert_eq!(pairs("a=1 =2 c=3"), owned(&[("", "2"), ("a", "1"), ("c", "3")]));
}

#[test]
fn quotes_and_escapes() {
    assert_eq!(pairs("a=\"x y\" b=2"), owned(&[("a", "x y"), ("b", "2")]));
    assert_eq!(pairs("a=\"x=y z=w\" b=2"), owned(&[("a", "x=y z=w"), ("b", "2")]));
    assert_eq!(
        pairs("m=\"say \\\"hi\\\" now\" k=1"),
        owned(&[("k", "1"), ("m", "say \\\"hi\\\" now")])
    );
    assert_eq!(pairs("a=\"unterminated b=2"), owned(&[("a", "unterminated b=")]));
    assert_eq!(pairs("a=\""), owned(&[("a", "\"")]));
    assert_eq!(pairs("a=\"x\"tail b=2"), owned(&[("a", "x\"tai"), ("b", "2")]));
}

#[test]
fn values_with_equal_signs_and_spaces() {
    assert_eq!(pairs("a=b=c d=e"), owned(&[("a=b", "c"), ("d", "e")]));
    assert_eq!(pairs("a=b=c"), owned(&[("a=b", "c")]));
    assert_eq!(pairs("a=b c"), owned(&[("a", "b c")]));
    assert_eq!(pairs("a=b "), owned(&[("a", "b ")]));
    assert_eq!(pairs(" a=b c=d"), owned(&[("a", "b"), ("c", "d")]));
    assert_eq!(pairs("x y=1 2 z=3"), owned(&[("y", "1 2"), ("z", "3")]));
}

#[test]
fn later_pairs_replace_earlier_ones() {
    assert_eq!(pairs("a=1 a=2"), owned(&[("a", "2")]));
    assert_eq!(pairs("a=1 b=2 a=3 c=4"), owned(&[("a", "3"), ("b", "2"), ("c", "4")]));
}

#[test]
fn positions_are_characters() {
    assert_eq!(pairs("clé=é ü=\"ñ ñ\" z=ß"), owned(&[("clé", "é"), ("z", "ß"), ("ü", "ñ ñ")]));
}

#[test]
fn find_returns_the_first_occurrence() {
    let hay = to_chars("abcabc");
    assert_eq!(find(&hay, &to_chars("bc")), Some(1));
    assert_eq!(find(&hay, &to_chars("abc")), Some(0));
    assert_eq!(find(&hay, &to_chars("")), Some(0));
    assert_eq!(find(&hay, &to_chars("cab")), Some(2));
    assert_eq!(find(&hay, &to_chars("abcabc")), Some(0));
    assert_eq!(find(&hay, &to_chars("abcabcd")), None);
    assert_eq!(find(&hay, &to_chars("x")), None);
    assert_eq!(find(&to_chars(""), &to_chars("")), Some(0));
    assert_eq!(find(&to_chars("ééa"), &to_chars("a")), Some(2));
    assert!(matches_at(&hay, &to_chars("ca"), 2));
    assert!(!matches_at(&hay, &to_chars("ca"), 1));
}

#[test]
fn text_helpers() {
    assert_eq!(to_chars("aé"), vec!['a', 'é']);
    assert_eq!(substring("héllo", 1, 3), "él");
    assert_eq!(substring("héllo", 5, 5), "");
    assert!(same_text("ab", "ab"));
    assert!(!same_text("ab", "abc"));
}

#[test]
fn parse_u32_reads_decimal_numbers() {
    let read = |s: &str| parse_u32(&to_chars(s));
    assert_eq!(read("0"), Some(0));
    assert_eq!(read("31504"), Some(31504));
    assert_eq!(read("00012"), Some(12));
    assert_eq!(read("+12"), Some(12));
    assert_eq!(read("4294967295"), Some(4294967295));
    assert_eq!(read("4294967296"), None);
    assert_eq!(read("99999999999999999999999"), None);
    assert_eq!(read(""), None);
    assert_eq!(read("+"), None);
    assert_eq!(read("-1"), None);
    assert_eq!(read("++1"), None);
    assert_eq!(read("1+"), None);
    assert_eq!(read("12a"), None);
    assert_eq!(read(" 12"), None);
    assert_eq!(read("١٢"), None);
    for s in ["7", "+7", "0042", "x", "", "4294967295", "4294967296", "-0"] {
        assert_eq!(read(s), s.parse::<u32>().ok());
    }
}

fn written(pairs: &[(&str, &str, bool)]) -> String {
    let tokens: Vec<String> = pairs
        .iter()
        .map(|(key, value, quoted)| {
            if *quoted {
                format!("{}=\"{}\"", key, value)
            } else {
                format!("{}={}", key, value)
            }
        })
        .collect();
    tokens.join(" ")
}

#[test]
fn written_pairs_read_back() {
    let list = [
        ("id", "firewall", false),
        ("time", "2021-04-08 11:57:48", true),
        ("ivs", "Default Network", false),
        ("realm", "", true),
        ("note", "a=b \\\"c\\\" d", true),
        ("", "no key", false),
        ("id", "gateway", false),
        ("msg", "AUT22673: Logout from 82.213.178.130 (session:00000000)", true),
    ];
    let line = written(&list);
    assert_eq!(
        line,
        "id=firewall time=\"2021-04-08 11:57:48\" ivs=Default Network realm=\"\" note=\"a=b \\\"c\\\" d\" =no key id=gateway msg=\"AUT22673: Logout from 82.213.178.130 (session:00000000)\""
    );
    assert_eq!(
        pairs(&line),
        owned(&[
            ("", "no key"),
            ("id", "gateway"),
            ("ivs", "Default Network"),
            ("msg", "AUT22673: Logout from 82.213.178.130 (session:00000000)"),
            ("note", "a=b \\\"c\\\" d"),
            ("realm", ""),
            ("time", "2021-04-08 11:57:48"),
        ])
    );
    for n in 0..list.len() {
        let map = extract_fields(&written(&list[..n]));
        for (i, (key, _, _)) in list[..n].iter().enumerate() {
            let last = list[..n].iter().rposition(|(k, _, _)| k == key).unwrap();
            assert!(last >= i);
            assert_eq!(text(map.get(key)), Some(list[last].1));
        }
    }
}
