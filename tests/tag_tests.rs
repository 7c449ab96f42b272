use paraselene::tag::Tag;

#[test]
fn find_returns_first_match() {
    let tagged = vec![(3, Tag::new("map")), (5, Tag::new("player")), (8, Tag::new("player"))];
    assert_eq!(Tag::new("player").find(&tagged), Some(5));
    assert_eq!(Tag::new("map").find(&tagged), Some(3));
    assert_eq!(Tag::new(String::from("camera")).find(&tagged), None);
    assert_eq!(Tag::new("player").find(&Vec::new()), None);
}
