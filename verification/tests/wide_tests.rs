use migoto_loader::wide::{to_wide, wstr_to_string};

#[test]
fn to_wide_matches_std_encoding() {
    for s in ["", "abc", "C:\\Games\\game.exe", "héllo", "黑风雷", "👨‍👩‍👧"] {
        let mut expected: Vec<u16> = s.encode_utf16().collect();
        expected.push(0);
        assert_eq!(to_wide(s), expected, "{:?}", s);
    }
}

#[test]
fn to_wide_surrogate_pair() {
    assert_eq!(to_wide("\u{1F600}"), vec![0xD83D, 0xDE00, 0]);
}

#[test]
fn wstr_stops_at_nul() {
    let buf = [b'a' as u16, b'b' as u16, 0, b'c' as u16];
    assert_eq!(wstr_to_string(&buf), "ab");
}

#[test]
fn wstr_without_nul_takes_all() {
    let buf = [b'x' as u16, b'y' as u16];
    assert_eq!(wstr_to_string(&buf), "xy");
    assert_eq!(wstr_to_string(&[]), "");
}

#[test]
fn wstr_replaces_unpaired_surrogates() {
    let buf = [0xD800, b'a' as u16, 0xDC00, 0xD83D, 0xDE00, 0xD83D];
    assert_eq!(wstr_to_string(&buf), String::from_utf16_lossy(&buf));
    assert_eq!(wstr_to_string(&buf), "\u{FFFD}a\u{FFFD}\u{1F600}\u{FFFD}");
}

#[test]
fn wide_round_trip() {
    for s in ["", "d3d11.dll", "Ünïcødé \u{10FFFF}", "a\u{FFFF}b"] {
        assert_eq!(wstr_to_string(&to_wide(s)), s);
    }
}

#[test]
fn fixed_buffer_as_windows_fills_it() {
    let mut buf = vec![0u16; 260];
    let name: Vec<u16> = "Game.exe".encode_utf16().collect();
    buf[..name.len()].copy_from_slice(&name);
    assert_eq!(wstr_to_string(&buf), "Game.exe");
}
