use iax2::accounts::{account_from_args, accounts_of, parse_accounts, u16_arg, u64_arg, Line};
use iax2::words::{parse_number, words};

fn args(list: &[&str]) -> Vec<String> {
    list.iter().map(|s| s.to_string()).collect()
}

fn pair(k: &str, v: &str) -> Line {
    Line::Pair(k.to_string(), v.to_string())
}

fn section(n: &str) -> Line {
    Line::Section(n.to_string())
}

#[test]
fn two_accounts_in_a_file() {
    let text = "# comment\n\n[ Catania ]\r\nHOST = pbx.example.org\r\nport=4570\n user = 10001 \nsecret = a=b\nrefresh = 30\n; more\n[Salerno]\nhost = 10.10.9.1\nuser = 10002\nsecret = y";
    let list = parse_accounts(text).expect("accounts");
    assert_eq!(list.len(), 2);
    assert_eq!(list[0].cfg.name, "Catania");
    assert_eq!(list[0].host, "pbx.example.org");
    assert_eq!(list[0].port, 4570);
    assert_eq!(list[0].cfg.username, "10001");
    assert_eq!(list[0].cfg.secret, "a=b");
    assert_eq!(list[0].cfg.refresh, 30);
    assert_eq!(list[0].cfg.audio_format, 4);
    assert_eq!(list[1].cfg.name, "Salerno");
    assert_eq!((list[1].port, list[1].cfg.refresh), (4569, 60));
}

#[test]
fn what_is_missing_is_named() {
    assert_eq!(parse_accounts("[A]\n").unwrap_err(), "[A] manca host");
    assert_eq!(parse_accounts("[A]\nhost=h\nsecret=s\n[B]\n").unwrap_err(), "[A] manca user");
    assert_eq!(parse_accounts("[A]\nhost=h\nuser=u").unwrap_err(), "[A] manca secret");
    assert!(parse_accounts("").expect("accounts").is_empty());
    assert!(parse_accounts("host = h\nnonsense\n").expect("accounts").is_empty());
}

#[test]
fn odd_lines_and_numbers() {
    let text = "[A]\nhost=h\nhost=i\nuser=u\nsecret=\nport=70000\nrefresh=x\n[\n]\ncolour=red";
    let list = parse_accounts(text).expect("accounts");
    assert_eq!(list.len(), 1);
    assert_eq!(list[0].host, "i");
    assert_eq!(list[0].cfg.secret, "");
    assert_eq!((list[0].port, list[0].cfg.refresh), (4569, 60));
}

#[test]
fn lines_that_were_read_already() {
    let list = accounts_of(vec![
        pair("host", "ignored"),
        section("A"),
        pair("host", "h"),
        pair("user", "u"),
        Line::Skip,
        pair("secret", "s"),
        pair("port", "+123"),
        section("B"),
        pair("host", "i"),
        pair("user", "v"),
        pair("secret", "t"),
    ])
    .expect("accounts");
    assert_eq!(list.len(), 2);
    assert_eq!((list[0].host.as_str(), list[0].port), ("h", 123));
    assert_eq!(list[1].cfg.username, "v");
    assert_eq!(accounts_of(vec![section("A"), pair("user", "u")]).unwrap_err(), "[A] manca host");
}

#[test]
fn an_account_on_the_command_line() {
    assert!(account_from_args(&args(&["phone", "h", "u"])).is_none());
    let a = account_from_args(&args(&["phone", "h", "u", "s"])).expect("account");
    assert_eq!((a.host.as_str(), a.cfg.name.as_str()), ("h", "h"));
    assert_eq!((a.port, a.cfg.refresh), (4569, 60));
    let a = account_from_args(&args(&["phone", "h", "u", "s", "99", "7", "Casa"])).expect("account");
    assert_eq!((a.port, a.cfg.refresh, a.cfg.name.as_str()), (99, 7, "Casa"));
    assert_eq!(a.cfg.username, "u");
    assert_eq!(a.cfg.secret, "s");
    assert_eq!(u16_arg(&args(&["p", "x"]), 1, 5), 5);
    assert_eq!(u64_arg(&args(&["p", "90"]), 1, 15), 90);
    assert_eq!(u64_arg(&args(&["p"]), 1, 15), 15);
}

#[test]
fn numbers_and_words() {
    assert_eq!(parse_number("0", 9), Some(0));
    assert_eq!(parse_number("+007", 9), Some(7));
    assert_eq!(parse_number("10", 9), None);
    assert_eq!(parse_number("18446744073709551615", u64::MAX), Some(u64::MAX));
    assert_eq!(parse_number("18446744073709551616", u64::MAX), None);
    for bad in ["", "+", "-1", "1 ", "++1", "1a", "٣"] {
        assert_eq!(parse_number(bad, u64::MAX), None);
    }
    assert_eq!(words("  d  12 \t3\u{A0}4 "), vec!["d", "12", "3", "4"]);
    assert!(words(" \t").is_empty());
}

#[test]
fn white_space_of_all_scripts_parts_words() {
    let white = [
        0x9u32, 0xA, 0xB, 0xC, 0xD, 0x20, 0x85, 0xA0, 0x1680, 0x2000, 0x2001, 0x2002, 0x2003, 0x2004, 0x2005, 0x2006, 0x2007, 0x2008, 0x2009, 0x200A, 0x2028,
        0x2029, 0x202F, 0x205F, 0x3000,
    ];
    for n in 0..=0x10FFFFu32 {
        if let Some(c) = char::from_u32(n) {
            let text: String = [c].iter().collect();
            let expected: Vec<String> = if white.contains(&n) { vec![] } else { vec![text.clone()] };
            assert_eq!(words(&text), expected, "U+{n:04X}");
        }
    }
}

#[test]
fn keys_are_read_in_any_case() {
    let list = parse_accounts("[A]\nHoSt=H\nUSER=U\nsecreT=S\nPORT=1\nREFRESH=2").expect("accounts");
    assert_eq!((list[0].host.as_str(), list[0].cfg.username.as_str(), list[0].cfg.secret.as_str()), ("H", "U", "S"));
    assert_eq!((list[0].port, list[0].cfg.refresh), (1, 2));
    assert_eq!(parse_accounts("[A]\nh\u{D6}st=H").unwrap_err(), "[A] manca host");
}
