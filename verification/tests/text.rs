use rayhunter::digest::{lower_hex, md5_hex};
use rayhunter::text::{find, is_blank, replace, split, text_contains};

fn chars(text: &str) -> Vec<char> {
    text.chars().collect()
}

#[test]
fn searching() {
    assert_eq!(find(&chars("abcabc"), &chars("ca")), Some(2));
    assert_eq!(find(&chars("abcabc"), &chars("bc")), Some(1));
    assert_eq!(find(&chars("abc"), &chars("")), Some(0));
    assert_eq!(find(&chars("abc"), &chars("abcd")), None);
    assert!(text_contains("uid=0(root)", "uid=0"));
    assert!(!text_contains("uid=1000", "uid=0"));
    assert!(text_contains("", ""));
}

#[test]
fn replacing() {
    assert_eq!(replace("a-b-c", "-", "+"), "a+b+c");
    assert_eq!(replace("aaa", "aa", "b"), "ba");
    assert_eq!(replace("nothing", "x", "y"), "nothing");
    assert_eq!(replace("", "x", "y"), "");
}

#[test]
fn splitting() {
    assert_eq!(split("a;b", ';'), vec!["a", "b"]);
    assert_eq!(split(";;", ';'), vec!["", "", ""]);
    assert_eq!(split("", ';'), vec![""]);
}

#[test]
fn blank_texts() {
    assert!(is_blank(""));
    assert!(is_blank(" \n\t\u{a0}"));
    assert!(!is_blank(" 1234\n"));
}

#[test]
fn white_space_is_what_unicode_says() {
    let mut white = Vec::new();
    for code in 0..=0x10ffffu32 {
        if let Some(c) = char::from_u32(code) {
            if is_blank(&c.to_string()) {
                white.push(code);
            }
        }
    }
    let mut expected = vec![9, 10, 11, 12, 13, 0x20, 0x85, 0xa0, 0x1680];
    expected.extend(0x2000..=0x200a);
    expected.extend([0x2028, 0x2029, 0x202f, 0x205f, 0x3000]);
    assert_eq!(white, expected);
}

#[test]
fn digests() {
    assert_eq!(md5_hex(b""), "d41d8cd98f00b204e9800998ecf8427e");
    assert_eq!(
        md5_hex(b"abcdefghijklmnopqrstuvwxyz"),
        "c3fcd3d76192e4007dfb496cca67e13b"
    );
    assert_eq!(md5_hex(b"rayhunter"), format!("{:x}", md5::compute(b"rayhunter")));
    assert_eq!(lower_hex(&[0x00, 0x0f, 0xa0, 0xff]), "000fa0ff");
    assert_eq!(lower_hex(&[]), "");
}
