use hackernews::routes::{char_is_whitespace, chars_are_root};
use hackernews::text::chars_of;
use hackernews::types::{Comment, StoryItem, UserData};

#[test]
fn story_url_is_item_and_id() {
    assert_eq!(StoryItem::to_url(8863), "/item/8863");
    assert_eq!(StoryItem::to_url(0), "/item/0");
    assert_eq!(StoryItem::to_url(-12), "/item/-12");
    assert_eq!(StoryItem::to_url(i64::MIN), "/item/-9223372036854775808");
}

#[test]
fn comment_url_is_comment_and_id() {
    assert_eq!(Comment::to_url(2921983), "/comment/2921983");
    assert_eq!(Comment::to_url(-1), "/comment/-1");
}

#[test]
fn user_url_is_user_and_name() {
    assert_eq!(UserData::to_url("pg"), "/user/pg");
    assert_eq!(UserData::to_url(""), "/user/");
    assert_eq!(UserData::to_url("a/b"), "/user/a/b");
}

#[test]
fn story_id_is_read_from_item_paths() {
    assert_eq!(StoryItem::id_from_url("/item/8863"), Some(8863));
    assert_eq!(StoryItem::id_from_url("/item/-5"), Some(-5));
    assert_eq!(StoryItem::id_from_url("/item/+5"), Some(5));
    assert_eq!(StoryItem::id_from_url("/item/8863/"), Some(8863));
    assert_eq!(StoryItem::id_from_url("/item/8863/more/segments"), Some(8863));
    assert_eq!(StoryItem::id_from_url("/item/9223372036854775807"), Some(i64::MAX));
}

#[test]
fn story_id_is_absent_from_other_paths() {
    assert_eq!(StoryItem::id_from_url("/item"), None);
    assert_eq!(StoryItem::id_from_url("/item/"), None);
    assert_eq!(StoryItem::id_from_url("/item//5"), None);
    assert_eq!(StoryItem::id_from_url("/item/abc"), None);
    assert_eq!(StoryItem::id_from_url("/item/9223372036854775808"), None);
    assert_eq!(StoryItem::id_from_url("item/5"), None);
    assert_eq!(StoryItem::id_from_url(" /item/5"), None);
    assert_eq!(StoryItem::id_from_url("/comment/5"), None);
    assert_eq!(StoryItem::id_from_url("/user/5"), None);
    assert_eq!(StoryItem::id_from_url("/"), None);
    assert_eq!(StoryItem::id_from_url(""), None);
}

#[test]
fn story_id_is_absent_where_the_first_segment_only_begins_with_item() {
    assert_eq!(StoryItem::id_from_url("/items/5"), None);
    assert_eq!(StoryItem::id_from_url("/item5/5"), None);
    assert_eq!(StoryItem::id_from_url("/itemize"), None);
}

#[test]
fn comment_id_is_read_from_comment_paths() {
    assert_eq!(Comment::id_from_url("/comment/2921983"), Some(2921983));
    assert_eq!(Comment::id_from_url("/comment/17/x"), Some(17));
    assert_eq!(Comment::id_from_url("/comment"), None);
    assert_eq!(Comment::id_from_url("/comment/"), None);
    assert_eq!(Comment::id_from_url("/comment/x"), None);
    assert_eq!(Comment::id_from_url("/comments/17"), None);
    assert_eq!(Comment::id_from_url("/item/17"), None);
}

#[test]
fn user_name_is_read_from_user_paths() {
    assert_eq!(UserData::id_from_url("/user/pg"), Some("pg".to_string()));
    assert_eq!(UserData::id_from_url("/user/"), Some(String::new()));
    assert_eq!(UserData::id_from_url("/user/a/b"), Some("a".to_string()));
    assert_eq!(UserData::id_from_url("/user/\u{e9}t\u{e9}"), Some("\u{e9}t\u{e9}".to_string()));
    assert_eq!(UserData::id_from_url("/user"), None);
    assert_eq!(UserData::id_from_url("/users/pg"), None);
    assert_eq!(UserData::id_from_url("user/pg"), None);
    assert_eq!(UserData::id_from_url("/item/5"), None);
}

#[test]
fn ids_round_trip_through_their_paths() {
    for id in [0, 1, -1, 42, 8863, i64::MAX, i64::MIN] {
        assert_eq!(StoryItem::id_from_url(&StoryItem::to_url(id)), Some(id));
        assert_eq!(Comment::id_from_url(&Comment::to_url(id)), Some(id));
    }
    for name in ["pg", "", "dang", "top", "item"] {
        assert_eq!(UserData::id_from_url(&UserData::to_url(name)), Some(name.to_string()));
    }
}

#[test]
fn white_space_is_what_std_calls_white_space() {
    for u in 0..=0x10ffff_u32 {
        if let Some(c) = char::from_u32(u) {
            assert_eq!(char_is_whitespace(c), c.is_whitespace(), "on U+{:04X}", u);
        }
    }
}

#[test]
fn root_url_is_a_slash_between_white_space() {
    assert!(chars_are_root(&chars_of("/")));
    assert!(chars_are_root(&chars_of(" /")));
    assert!(chars_are_root(&chars_of("/\n")));
    assert!(chars_are_root(&chars_of("\t / \u{3000}")));
    assert!(!chars_are_root(&chars_of("")));
    assert!(!chars_are_root(&chars_of("   ")));
    assert!(!chars_are_root(&chars_of("//")));
    assert!(!chars_are_root(&chars_of("/ /")));
    assert!(!chars_are_root(&chars_of("/a")));
    assert!(!chars_are_root(&chars_of("a")));
}

#[test]
fn root_url_agrees_with_std_trim() {
    for s in ["/", " / ", "", " ", "/x", "x/", " /x ", "\u{a0}/\u{2003}", "/\u{200b}", "\r\n/\r\n"] {
        assert_eq!(chars_are_root(&chars_of(s)), s.trim() == "/", "on {:?}", s);
    }
}
