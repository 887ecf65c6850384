use service_binding::text::{
    chars_of, find_first, find_last, part_of, same_chars, split, strip_prefix, text_of,
};

fn chars(s: &str) -> Vec<char> {
    s.chars().collect()
}

#[test]
fn text_chars_of() {
    assert_eq!(chars_of(""), Vec::<char>::new());
    assert_eq!(chars_of("a/é"), vec!['a', '/', 'é']);
}

#[test]
fn text_parts() {
    let all = chars("unix:///tmp");
    assert_eq!(text_of(&all, 7, 11), "/tmp");
    assert_eq!(text_of(&all, 3, 3), "");
    assert_eq!(part_of(&all, 0, 4), chars("unix"));
    assert_eq!(part_of(&all, 11, 11), chars(""));
}

#[test]
fn text_strip_prefix() {
    assert_eq!(strip_prefix(&chars("fd://name"), "fd://"), Some(5));
    assert_eq!(strip_prefix(&chars("fd://"), "fd://"), Some(5));
    assert_eq!(strip_prefix(&chars("fd:/"), "fd://"), None);
    assert_eq!(strip_prefix(&chars("xfd://"), "fd://"), None);
    assert_eq!(strip_prefix(&chars(""), "fd://"), None);
    assert_eq!(strip_prefix(&chars("anything"), ""), Some(0));
    assert_eq!(strip_prefix(&chars("é://x"), "é://"), Some(4));
}

#[test]
fn text_split_into_fields() {
    let cases: Vec<(&str, Vec<&str>)> = vec![
        ("", vec![""]),
        ("a", vec!["a"]),
        (":", vec!["", ""]),
        ("a:b", vec!["a", "b"]),
        ("a::b:", vec!["a", "", "b", ""]),
        (":a", vec!["", "a"]),
        ("other:service-name", vec!["other", "service-name"]),
    ];
    for (text, expected) in cases {
        let parts = split(&chars(text), ':');
        let expected: Vec<Vec<char>> = expected.into_iter().map(chars).collect();
        assert_eq!(parts, expected, "{:?}", text);
        // the fields, joined again, are the text
        let joined: Vec<String> = parts.iter().map(|p| p.iter().collect()).collect();
        assert_eq!(joined.join(":"), text);
    }
}

#[test]
fn text_find_first() {
    let parts = split(&chars("a:b:a:c"), ':');
    assert_eq!(find_first(&parts, &chars("a")), Some(0));
    assert_eq!(find_first(&parts, &chars("b")), Some(1));
    assert_eq!(find_first(&parts, &chars("c")), Some(3));
    assert_eq!(find_first(&parts, &chars("d")), None);
    assert_eq!(find_first(&parts, &chars("")), None);
    assert_eq!(find_first(&Vec::new(), &chars("a")), None);
}

#[test]
fn text_find_last() {
    let all = chars("a:b:c");
    assert_eq!(find_last(&all, 0, ':'), Some(3));
    assert_eq!(find_last(&all, 3, ':'), Some(3));
    assert_eq!(find_last(&all, 4, ':'), None);
    assert_eq!(find_last(&all, 5, ':'), None);
    assert_eq!(find_last(&chars(""), 0, ':'), None);
}

#[test]
fn text_same_chars() {
    assert!(same_chars(&chars("abc"), &chars("abc")));
    assert!(same_chars(&chars(""), &chars("")));
    assert!(!same_chars(&chars("abc"), &chars("abd")));
    assert!(!same_chars(&chars("abc"), &chars("ab")));
}
