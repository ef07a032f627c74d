use veloce::pieces::{find_char, join, lines, replace, split_char, split_once, split_whitespace};

#[test]
fn splits_on_commas() {
    assert_eq!(split_char("a,,b", ','), vec!["a", "", "b"]);
    assert_eq!(split_char("", ','), vec![""]);
}

#[test]
fn pieces_agree_with_str() {
    let list = ["", ",", "a", "a,b", ",a,", " a  b ", "x\ny", "x\r\ny\n", "\n", "x\r", "a\r\n\r\n"];
    for s in list {
        assert_eq!(split_char(s, ','), s.split(',').collect::<Vec<_>>(), "{s:?}");
        assert_eq!(split_whitespace(s), s.split_whitespace().collect::<Vec<_>>(), "{s:?}");
        assert_eq!(lines(s), s.lines().collect::<Vec<_>>(), "{s:?}");
        let once = s.split_once(',').map(|(a, b)| (a.to_string(), b.to_string()));
        assert_eq!(split_once(s, ','), once, "{s:?}");
    }
    assert_eq!(find_char("héllo", 'l'), Some(2));
    assert_eq!(find_char("héllo", 'z'), None);
}

#[test]
fn joining_undoes_splitting() {
    for s in ["", "a", "a,b,,c", ",", "x,"] {
        assert_eq!(join(&split_char(s, ','), ","), s);
    }
    assert_eq!(join(&vec![], ", "), "");
}

#[test]
fn replacing_agrees_with_str() {
    for (s, from, to) in [
        ("aaa", "aa", "b"),
        ("a{{x}}b{{x}}", "{{x}}", "1"),
        ("nothing", "q", "z"),
        ("abc", "abc", ""),
        ("xx", "x", "xx"),
    ] {
        assert_eq!(replace(s, from, to), s.replace(from, to));
    }
}
