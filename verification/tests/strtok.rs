use tyr_rust::strtok::strtok;

#[test]
fn strtok_splits_at_first_delimiter() {
    let s = "hello world".to_owned();
    let mut s1 = s.as_str();
    let hello = strtok(&mut s1, " ");
    assert_eq!(hello, "hello");
    assert_eq!(s1, "world");
}

#[test]
fn strtok_without_delimiter_takes_all() {
    let s = "hello world".to_owned();
    let mut s1 = s.as_str();
    let hello = strtok(&mut s1, ",");
    assert_eq!(hello, "hello world");
    assert_eq!(s1, "");
}

#[test]
fn strtok_skips_leading_delimiters() {
    let s = "-This, a sample string.".to_owned();
    let mut s1 = s.as_str();
    let mut words = Vec::new();
    while !s1.is_empty() {
        words.push(strtok(&mut s1, " ,.-"));
    }
    assert_eq!(words, vec!["This", "a", "sample", "string"]);
}

#[test]
fn strtok_on_only_delimiters_gives_empty() {
    let mut s1 = ",,,";
    assert_eq!(strtok(&mut s1, ","), "");
    assert_eq!(s1, "");
    let mut s2 = "abc";
    assert_eq!(strtok(&mut s2, ""), "abc");
    assert_eq!(s2, "");
}

#[test]
fn strtok_counts_characters_not_bytes() {
    let mut s1 = "héllo wörld";
    assert_eq!(strtok(&mut s1, " "), "héllo");
    assert_eq!(s1, "wörld");
}
