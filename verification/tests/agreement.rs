use aws_creds_scanner::reporter::join_path;
use aws_creds_scanner::scanners::ripgrep::output_lines;
use aws_creds_scanner::text::{decimal_text, text_order};
use std::cmp::Ordering;
use std::io::BufRead;

fn s(x: &str) -> String {
    x.to_string()
}

#[test]
fn text_order_agrees_with_string_order() {
    let words = ["", "a", "b", "ab", "aa", "a\u{e9}", "\u{e9}", "Z", "\u{10000}", "\u{ffff}", "abc"];
    for a in words.iter() {
        for b in words.iter() {
            let expected = match a.cmp(b) {
                Ordering::Less => -1,
                Ordering::Equal => 0,
                Ordering::Greater => 1,
            };
            assert_eq!(text_order(&s(a), &s(b)), expected, "{a:?} vs {b:?}");
        }
    }
}

#[test]
fn join_path_agrees_with_pathbuf_join() {
    let parts = ["", "a", "a/", "/b", "b", "keys/pypi", "/"];
    for base in parts.iter() {
        for part in parts.iter() {
            let expected = std::path::PathBuf::from(base).join(part);
            assert_eq!(join_path(&s(base), &s(part)), expected.to_str().unwrap(), "{base:?} + {part:?}");
        }
    }
}

#[test]
fn output_lines_agree_with_bufread_lines() {
    let inputs: [&[u8]; 7] = [
        b"",
        b"a",
        b"a\n",
        b"a\r\nb\r\n\r\n",
        b"\xff\nok\n\xc3\n",
        b"x\ry\n\r",
        b"\n\n\nz",
    ];
    for input in inputs.iter() {
        let expected: Vec<String> = input.lines().flatten().collect();
        assert_eq!(output_lines(input), expected, "{input:?}");
    }
}

#[test]
fn decimal_text_agrees_with_to_string() {
    for n in [0u64, 1, 9, 10, 11, 99, 100, 12345, 4294967296, u64::MAX - 1, u64::MAX] {
        assert_eq!(decimal_text(n), n.to_string());
    }
}
