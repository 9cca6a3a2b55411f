use graph_lib::text::{
    chars_of, is_whitespace, next_line, parse_usize, push_chars, push_decimal, split_at_space,
    string_of,
};

fn cs(s: &str) -> Vec<char> {
    s.chars().collect()
}

#[test]
fn whitespace_is_what_the_standard_library_says() {
    let mut c = 0u32;
    while c <= 0x10FFFF {
        if let Some(ch) = char::from_u32(c) {
            assert_eq!(is_whitespace(ch), ch.is_whitespace(), "U+{:04X}", c);
        }
        c += 1;
    }
}

#[test]
fn numbers_are_read_as_the_standard_library_reads_them() {
    let max = usize::MAX.to_string();
    let over = format!("{}0", max);
    let mut next = max.clone().into_bytes();
    let last = next.len() - 1;
    next[last] += 1;
    let next = String::from_utf8(next).unwrap();
    let samples = [
        "", "0", "7", "42", "007", "+", "+5", "++5", "-5", "-0", "5+", "1 ", " 1", "1_000", "0x10",
        "12a", "a12", "٣", "１", "18446744073709551615", "18446744073709551616", "4294967295",
        "4294967296", "00000000000000000000000000000000000001", max.as_str(), over.as_str(),
        next.as_str(),
    ];
    for s in samples {
        assert_eq!(parse_usize(&cs(s)), s.parse::<usize>().ok(), "{:?}", s);
    }
}

#[test]
fn numbers_are_written_in_decimal() {
    for n in [0usize, 1, 9, 10, 11, 99, 100, 101, 12345, 1000000, usize::MAX - 1, usize::MAX] {
        let mut out = vec!['>'];
        push_decimal(&mut out, n);
        let text: String = out.into_iter().collect();
        assert_eq!(text, format!(">{}", n));
    }
}

#[test]
fn written_number_reads_back() {
    for n in [0usize, 5, 10, 909, 65536, usize::MAX] {
        let mut out = Vec::new();
        push_decimal(&mut out, n);
        assert_eq!(parse_usize(&out), Some(n));
    }
}

#[test]
fn split_is_at_the_first_whitespace() {
    let split = |s: &str| {
        let line = cs(s);
        split_at_space(&line)
            .map(|(a, b)| (a.iter().collect::<String>(), b.iter().collect::<String>()))
    };
    for s in ["", "a", "a b", " a", "a ", "a  b", "ab\tcd ef", "a\u{3000}b c", "a\u{A0}", "1 2 3"] {
        let expected =
            s.split_once(char::is_whitespace).map(|(a, b)| (a.to_string(), b.to_string()));
        assert_eq!(split(s), expected, "{:?}", s);
    }
    assert_eq!(split("12 a b"), Some(("12".to_string(), "a b".to_string())));
}

fn all_lines(s: &str) -> Vec<String> {
    let text = cs(s);
    let mut out = Vec::new();
    let mut at = 0;
    while at < text.len() {
        let (line, next) = next_line(&text, at);
        assert!(next > at && next <= text.len());
        out.push(line.iter().collect());
        at = next;
    }
    out
}

#[test]
fn lines_are_what_the_standard_library_says() {
    let samples = [
        "", "a", "a\n", "a\nb", "a\n\nb", "\n", "\n\n", "a\r\nb", "a\r\n", "a\r", "a\rb\n",
        "\r\n", "\r", "a\r\r\nb", "a\n\rb", "one\ntwo\nthree\n", "1 a\n#\n1 1 e\r",
    ];
    for s in samples {
        let expected: Vec<String> = s.lines().map(|l| l.to_string()).collect();
        assert_eq!(all_lines(s), expected, "{:?}", s);
    }
}

#[test]
fn strings_and_characters_convert_both_ways() {
    let s = "héllo wörld \u{1F600}\n";
    let v = chars_of(s);
    assert_eq!(v, cs(s));
    assert_eq!(string_of(&v), s);
    let mut out = "ab".to_string();
    push_chars(&mut out, &cs("cd"));
    assert_eq!(out, "abcd");
    assert_eq!(chars_of(""), Vec::<char>::new());
}
