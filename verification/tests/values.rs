use redis_viewer::value::{type_tag_of, TypeTag};

#[test]
fn type_tags_cover_store_replies() {
    assert_eq!(type_tag_of("string"), TypeTag::String);
    assert_eq!(type_tag_of("list"), TypeTag::List);
    assert_eq!(type_tag_of("set"), TypeTag::SetType);
    assert_eq!(type_tag_of("zset"), TypeTag::SortedSet);
    assert_eq!(type_tag_of("hash"), TypeTag::Hash);
}

#[test]
fn unknown_type_reply_means_absent() {
    assert_eq!(type_tag_of("none"), TypeTag::Absent);
    assert_eq!(type_tag_of(""), TypeTag::Absent);
    assert_eq!(type_tag_of("stream"), TypeTag::Absent);
    assert_eq!(type_tag_of("strin"), TypeTag::Absent);
    assert_eq!(type_tag_of("stringg"), TypeTag::Absent);
}
