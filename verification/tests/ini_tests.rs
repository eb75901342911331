use migoto_loader::ini::{find_bool, find_int, find_section, find_setting};

const INI: &str = "; 3DMigoto configuration\n[Logging]\ncalls=1\n\n[Loader]  ; the loader's own section\ntarget = Game.exe\r\nmodule=d3d11.dll ; the module\n# a comment = not a setting\n;delay = 5\ndelay = 20\ncheck_version = Off\n[Device]\ntarget = other.exe\n";

#[test]
fn section_is_found_regardless_of_case() {
    let body = find_section(INI, "loader").unwrap();
    assert!(body.starts_with("target = Game.exe"));
    assert_eq!(find_section(INI, "LOADER"), Some(body));
}

#[test]
fn section_body_starts_after_header_line() {
    let body = find_section(INI, "Logging").unwrap();
    assert!(body.starts_with("calls=1\n"));
}

#[test]
fn missing_section_is_none() {
    assert_eq!(find_section(INI, "Hunting"), None);
    assert_eq!(find_section("", "Loader"), None);
}

#[test]
fn header_on_last_line_gives_empty_body() {
    assert_eq!(find_section("x\n[Loader]", "Loader"), Some(""));
}

#[test]
fn setting_value_is_trimmed_and_comment_free() {
    let body = find_section(INI, "Loader").unwrap();
    assert_eq!(find_setting(body, "target"), Some("Game.exe"));
    assert_eq!(find_setting(body, "module"), Some("d3d11.dll"));
    assert_eq!(find_setting(body, "TARGET"), Some("Game.exe"));
}

#[test]
fn commented_lines_are_skipped() {
    let body = find_section(INI, "Loader").unwrap();
    assert_eq!(find_setting(body, "delay"), Some("20"));
    assert_eq!(find_setting(body, "# a comment"), None);
}

#[test]
fn lookup_stops_at_next_section() {
    let body = find_section(INI, "Logging").unwrap();
    assert_eq!(find_setting(body, "target"), None);
    assert_eq!(find_setting(body, "calls"), Some("1"));
}

#[test]
fn lines_without_equals_are_skipped() {
    assert_eq!(find_setting("target\nkey = v\n", "key"), Some("v"));
    assert_eq!(find_setting("target\n", "target"), None);
}

#[test]
fn empty_value_and_value_with_only_comment() {
    assert_eq!(find_setting("entry_point =  ; nothing\n", "entry_point"), Some(""));
    assert_eq!(find_setting("a=b=c\n", "a"), Some("b=c"));
}

#[test]
fn first_matching_line_wins() {
    assert_eq!(find_setting("k=1\nk=2\n", "k"), Some("1"));
}

#[test]
fn unicode_whitespace_is_trimmed() {
    assert_eq!(find_setting("\u{3000}key\u{a0}=\u{2003}value\u{85}\n", "key"), Some("value"));
}

#[test]
fn bool_words() {
    let s = "a=1\nb=TRUE\nc=Yes\nd=on\ne=0\nf=False\ng=NO\nh=oFF\ni=maybe\n";
    for k in ["a", "b", "c", "d"] {
        assert!(find_bool(s, k, false), "{}", k);
    }
    for k in ["e", "f", "g", "h"] {
        assert!(!find_bool(s, k, true), "{}", k);
    }
    assert!(find_bool(s, "i", true));
    assert!(!find_bool(s, "i", false));
    assert!(find_bool(s, "missing", true));
    assert!(!find_bool(s, "missing", false));
}

#[test]
fn bool_from_loader_section() {
    let body = find_section(INI, "Loader").unwrap();
    assert!(!find_bool(body, "check_version", true));
    assert!(find_bool(body, "wait_for_target", true));
}

#[test]
fn int_values() {
    let s = "a=42\nb=-7\nc=+13\nd=2147483647\ne=-2147483648\nf=2147483648\ng=12x\nh=-\ni=+\nj= 5 \nk=\nl=99999999999999999999\nm=-0\n";
    assert_eq!(find_int(s, "a", 0), 42);
    assert_eq!(find_int(s, "b", 0), -7);
    assert_eq!(find_int(s, "c", 0), 13);
    assert_eq!(find_int(s, "d", 0), i32::MAX);
    assert_eq!(find_int(s, "e", 0), i32::MIN);
    assert_eq!(find_int(s, "f", 9), 9);
    assert_eq!(find_int(s, "g", 9), 9);
    assert_eq!(find_int(s, "h", 9), 9);
    assert_eq!(find_int(s, "i", 9), 9);
    assert_eq!(find_int(s, "j", 9), 5);
    assert_eq!(find_int(s, "k", 9), 9);
    assert_eq!(find_int(s, "l", 9), 9);
    assert_eq!(find_int(s, "m", 9), 0);
    assert_eq!(find_int(s, "missing", 5), 5);
}

#[test]
fn int_setting_agrees_with_std_parse() {
    for text in ["0", "1", "-1", "+1", "007", "-2147483649", "1e3", " 1", "٣", "+-1", ""] {
        let section = format!("v={}\n", text);
        let expected = text.trim().parse::<i32>().unwrap_or(-99);
        assert_eq!(find_int(&section, "v", -99), expected, "{:?}", text);
    }
}

#[test]
fn key_case_is_ignored() {
    assert_eq!(find_setting("Hook_Proc = 3\n", "hook_proc"), Some("3"));
    assert_eq!(find_setting("hook_proc = 3\n", "HOOK_PROC"), Some("3"));
}

#[test]
fn section_then_setting_round_trip() {
    let ini = "[loader]\r\ntarget=a.exe\r\n";
    let body = find_section(ini, "Loader").unwrap();
    assert_eq!(find_setting(body, "target"), Some("a.exe"));
}

#[test]
fn trimming_agrees_with_std_for_every_char_up_to_u3100() {
    for v in 0u32..0x3100 {
        let Some(c) = char::from_u32(v) else { continue };
        if c == '\n' || c == ';' {
            continue;
        }
        let value = format!("{c}v{c}");
        let section = format!("k={value}\n");
        assert_eq!(find_setting(&section, "k"), Some(value.trim()), "U+{:04X}", v);
    }
}
