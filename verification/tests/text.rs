use ddboline_scripts::number::{decimal2_text, decimal_text, parse_i64};
use ddboline_scripts::order::text_less;
use ddboline_scripts::path::{extension_is, join_path, stem_of};
use ddboline_scripts::search::{begins, contains, ends, fields_of, first_word_of};
use ddboline_scripts::text::{
    ascii_space, join_texts, split_text, text_before, text_eq, trim, trim_newlines, white_space,
};
use std::path::Path;

const SAMPLES: [&str; 12] = [
    "",
    " ",
    "a",
    "  a b  ",
    "\t\r\na\u{a0}b\u{3000}\n",
    "one two  three",
    "\u{85}x\u{2003}y",
    "a\nb\n\nc\n",
    "\n\n",
    "straße größe",
    "日本 語\u{c}end",
    "mixed\u{b}vertical tab",
];

#[test]
fn white_space_is_that_of_unicode() {
    for code in 0..=0x10ffffu32 {
        if let Some(c) = char::from_u32(code) {
            assert_eq!(white_space(c), c.is_whitespace(), "{code:x}");
            assert_eq!(ascii_space(c), c.is_ascii_whitespace(), "{code:x}");
        }
    }
}

#[test]
fn trimming() {
    for s in SAMPLES {
        assert_eq!(trim(s), s.trim());
        assert_eq!(trim_newlines(s), s.trim_end_matches('\n'));
    }
}

#[test]
fn splitting_and_joining() {
    for s in SAMPLES {
        for c in ['\n', ' ', '_', 'ß'] {
            let pieces = split_text(s, c);
            let expected: Vec<&str> = s.split(c).collect();
            assert_eq!(pieces, expected);
            assert_eq!(join_texts(&pieces, &c.to_string()), s);
            assert!(pieces.iter().all(|p| !p.contains(c)));
            assert_eq!(text_before(s, c), expected[0]);
        }
    }
    assert_eq!(join_texts(&vec![], " "), "");
}

#[test]
fn fields_and_words() {
    for s in SAMPLES {
        let expected: Vec<&str> = s.split_ascii_whitespace().collect();
        assert_eq!(fields_of(s), expected);
        assert_eq!(first_word_of(s).as_deref(), s.split_whitespace().next());
    }
}

#[test]
fn searching() {
    for s in SAMPLES {
        for pat in ["", "a", "b ", "ß", " two", "three", "end", "語", "\n\n"] {
            assert_eq!(contains(s, pat), s.contains(pat), "{s:?} {pat:?}");
            assert_eq!(begins(s, pat), s.starts_with(pat), "{s:?} {pat:?}");
            assert_eq!(ends(s, pat), s.ends_with(pat), "{s:?} {pat:?}");
        }
    }
}

#[test]
fn order_of_texts() {
    let names = [
        "", "a", "A", "ab", "b", "é", "z", "\u{ffff}", "\u{10000}", "passwords_2024-01-01.txt.asc",
        "passwords_2023-12-31.txt.asc",
    ];
    for a in names {
        for b in names {
            assert_eq!(text_less(a, b), a < b, "{a:?} {b:?}");
            assert_eq!(text_eq(a, b), a == b, "{a:?} {b:?}");
        }
    }
}

#[test]
fn decimal_numbers() {
    for x in [0, 1, 9, 10, 59, 60, 99, 100, -1, -9, -10, 604_800, i64::MAX, i64::MIN] {
        assert_eq!(decimal_text(x), x.to_string());
        assert_eq!(decimal2_text(x), format!("{x:02}"));
        assert_eq!(parse_i64(&decimal_text(x)), Some(x));
    }
}

#[test]
fn numbers_that_are_read() {
    let texts = [
        "", "+", "-", "0", "-0", "+7", "007", " 7", "7 ", "1e3", "12a", "９", "--1",
        "9223372036854775807", "9223372036854775808", "-9223372036854775808",
        "-9223372036854775809", "000000000000000000000000000001", "99999999999999999999999",
    ];
    for s in texts {
        assert_eq!(parse_i64(s), s.parse::<i64>().ok(), "{s:?}");
    }
}

#[test]
fn paths() {
    for base in ["", "/", "/a", "/a/", "a/b", "."] {
        for rest in ["", "b", "/c", "b/c", "devel_x"] {
            assert_eq!(
                join_path(base, rest),
                Path::new(base).join(rest).to_str().unwrap(),
                "{base:?} {rest:?}"
            );
        }
    }
}

#[test]
fn extensions_and_stems() {
    for name in [
        "a.deb", "a", ".deb", "a.b.deb", "a.", "a.DEB", "a..deb", ".a.deb", "x.log", "ä.deb",
        "passwords.txt.asc", "...",
    ] {
        let path = Path::new("/dir").join(name);
        for ext in ["deb", "log", "asc", ""] {
            let expected = path.extension().and_then(|e| e.to_str()) == Some(ext);
            assert_eq!(extension_is(&name.as_bytes().to_vec(), ext), expected, "{name:?} {ext:?}");
        }
        assert_eq!(stem_of(name), path.file_stem().unwrap().to_str().unwrap(), "{name:?}");
    }
    assert!(extension_is(&vec![0xff, b'.', b'd', b'e', b'b'], "deb"));
    assert!(!extension_is(&vec![b'a', b'.', 0xff], "deb"));
}
