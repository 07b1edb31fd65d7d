#[test]
fn join() {
    let list: Vec<String> = vec!["1".to_string(), "2".to_string(), "3".to_string()];

    assert_eq!(sptfydl::join(&list, ","), "1,2,3");
    assert_eq!(sptfydl::join(&list, ", "), "1, 2, 3");
    assert_eq!(sptfydl::join(&list, ", "), "1, 2, 3");

    let list: Vec<String> = ["one", "two", "three"].map(ToString::to_string).to_vec();

    assert_eq!(sptfydl::join(&list, ","), "one,two,three");
    assert_eq!(sptfydl::join(&list, ", "), "one, two, three");

    let list: Vec<String> = ["h", "i", "!"]
        .repeat(500)
        .into_iter()
        .map(ToString::to_string)
        .collect();

    assert_ne!(sptfydl::join(&list, ",").pop(), Some(','));
}

#[test]
fn join_through_the_trait() {
    let list: Vec<String> = vec!["1".to_string(), "2".to_string()];
    assert_eq!(sptfydl::IterExt::join(&list, "+"), "1+2");
}

#[test]
fn join_empty_and_single() {
    let none: Vec<String> = vec![];
    assert_eq!(sptfydl::join(&none, ", "), "");
    let one: Vec<String> = vec!["solo".to_string()];
    assert_eq!(sptfydl::join(&one, ", "), "solo");
}
