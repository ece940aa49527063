use raiplay_dl::sanitize_path::{sanitize, OsTarget};

const BANNED: [char; 9] = ['<', '>', ':', '"', '/', '\\', '*', '|', '?'];

fn assert_clean(s: &str) {
    for c in s.chars() {
        assert!(!BANNED.contains(&c), "banned {:?} in {:?}", c, s);
        assert!(c as u32 >= 0x20, "control {:?} in {:?}", c, s);
    }
}

#[test]
fn test() {
    let paths = vec![
        format!("    {}   .mp4", "CON"),
        {
            let mut s = String::new();
            for ch in &BANNED {
                s.push_str(&format!("{},", ch));
            }
            s
        },
        std::str::from_utf8(&[7u8, 0u8, 5u8]).unwrap().to_string(),
        std::str::from_utf8(&[50_u8; 248 + 100]).unwrap().to_string(),
    ];

    for path in paths {
        let _ = sanitize(&path, None, None);
    }
}

#[test]
fn reserved_name_gets_marker() {
    let r = sanitize("CON.mp4", None, None);
    assert!(r.contains("CON!"));
    assert_eq!(r, "CON!.mp4");
}

#[test]
fn reserved_name_padded_with_spaces() {
    let r = sanitize("    CON    .mp4", None, None);
    assert_eq!(r, "    CON!    .mp4");
    assert_eq!(r.trim().split_whitespace().next(), Some("CON!"));
    assert_clean(&r);
}

#[test]
fn reserved_numbered_names() {
    assert_eq!(sanitize("LPT9", None, None), "LPT9!");
    assert_eq!(sanitize("dir/COM1.txt", None, None), "dir!COM1!.txt");
    assert_eq!(sanitize("COM0", None, None), "COM0");
    assert_eq!(sanitize("CONSOLE", None, None), "CONSOLE");
    assert_eq!(sanitize("con", None, None), "con");
}

#[test]
fn reserved_name_before_trailing_slash_or_dots() {
    assert_eq!(sanitize("a/NUL/", None, None), "a!NUL!!");
    assert_eq!(sanitize("AUX..", None, None), "AUX!..");
}

#[test]
fn banned_characters_replaced() {
    let r = sanitize("a<b>c:d\"e/f\\g*h|i?j", None, None);
    assert_eq!(r, "a!b!c!d!e!f!g!h!i!j");
    assert_clean(&r);
}

#[test]
fn control_characters_replaced() {
    let r = sanitize("a\u{7}b\u{0}c\u{1f}d", None, None);
    assert_eq!(r, "a!b!c!d");
}

#[test]
fn custom_replacement() {
    assert_eq!(sanitize("a/b:c", Some('_'), None), "a_b_c");
}

#[test]
fn unix_target_only() {
    assert_eq!(sanitize("a/b:c\u{0}d", None, Some(OsTarget::Unix)), "a!b:c!d");
    assert_eq!(sanitize("CON", None, Some(OsTarget::Unix)), "CON");
}

#[test]
fn windows_target_only() {
    assert_eq!(sanitize("a/b:c", Some('-'), Some(OsTarget::Windows)), "a-b-c");
    assert_eq!(sanitize("PRN", None, Some(OsTarget::Windows)), "PRN!");
}

#[test]
fn long_name_truncated_to_bound() {
    let long = "2".repeat(348);
    let r = sanitize(&long, None, None);
    assert_eq!(r.len(), 248);
    assert_eq!(r, "2".repeat(248));
}

#[test]
fn multibyte_name_truncated_at_char_boundary() {
    let long = "è".repeat(200);
    let r = sanitize(&long, None, None);
    assert_eq!(r, "è".repeat(124));
    assert!(r.len() <= 248);
}

#[test]
fn empty_name() {
    assert_eq!(sanitize("", None, None), "");
}

#[test]
fn sanitize_is_idempotent_on_examples() {
    for s in ["CON.mp4", "    CON    .mp4", "a/b\\c", "Il gattopardo: il romanzo", "x\u{1}y"] {
        let once = sanitize(s, None, None);
        assert_eq!(sanitize(&once, None, None), once);
        assert_clean(&once);
        assert!(once.len() <= 248);
    }
}

#[test]
fn reserved_marker_after_full_truncation_exceeds_bound() {
    let name = format!("{}/CON", "a".repeat(244));
    assert_eq!(name.len(), 248);
    let r = sanitize(&name, None, None);
    assert_eq!(r, format!("{}!CON!", "a".repeat(244)));
    assert_eq!(r.len(), 249);
}
