use txtpp::tag_state::TagState;

fn create_test_state() -> TagState {
    let mut tag_state = TagState::new();
    tag_state.create("tag1").unwrap();
    tag_state.try_store("content1").unwrap();
    tag_state.create("tag2").unwrap();
    tag_state.try_store("content2").unwrap();
    tag_state.create("tag3").unwrap();
    tag_state.try_store("content3").unwrap();
    tag_state
}

#[test]
fn test_create_ok() {
    let mut tag_state = TagState::new();
    tag_state.create("tag1").unwrap();
    assert_eq!(Some("tag1".to_string()), tag_state.listening());
}

#[test]
fn test_create_already_listening() {
    let mut tag_state = TagState::new();
    tag_state.create("tag1").unwrap();
    assert!(tag_state.create("tag2").is_err());
}

#[test]
fn test_create_has_same_listening() {
    let mut tag_state = TagState::new();
    tag_state.create("tag1").unwrap();
    assert!(tag_state.create("tag1").is_err());
}

#[test]
fn test_create_has_prefix_listening() {
    let mut tag_state = TagState::new();
    tag_state.create("tag1").unwrap();
    assert!(tag_state.create("tag").is_err());
}

#[test]
fn test_create_has_same_stored() {
    let mut tag_state = TagState::new();
    tag_state.create("tag1").unwrap();
    tag_state.try_store("content1").unwrap();
    assert!(tag_state.create("tag1").is_err());
}

#[test]
fn test_create_has_prefix_stored() {
    let mut tag_state = TagState::new();
    tag_state.create("tag1").unwrap();
    tag_state.try_store("content1").unwrap();
    assert!(tag_state.create("tag").is_err());
}

#[test]
fn test_create_prefix_stored() {
    let mut tag_state = TagState::new();
    tag_state.create("tag").unwrap();
    tag_state.try_store("content1").unwrap();
    assert!(tag_state.create("tag1").is_err());
}

#[test]
fn test_try_store_ok() {
    let mut tag_state = TagState::new();
    tag_state.create("tag1").unwrap();
    assert!(tag_state.try_store("content1").is_ok());
    assert_eq!(None, tag_state.listening());
    assert_eq!(
        Some("content1".to_string()),
        tag_state.stored_get("tag1")
    );
}

#[test]
fn test_try_store_no_listening() {
    let mut tag_state = TagState::new();
    assert!(tag_state.try_store("content1").is_err());
}

#[test]
fn test_tag_inject_one_all() {
    let mut tag_state = create_test_state();
    let output = tag_state.inject_tags("tag1", "\n");
    assert_eq!("content1\n", &output);
    assert_eq!(2, tag_state.stored_len());
}

#[test]
fn test_tag_inject_one_prefixed() {
    let mut tag_state = create_test_state();
    let output = tag_state.inject_tags("hellotag1", "\n");
    assert_eq!("hellocontent1\n", &output);
    assert_eq!(2, tag_state.stored_len());
}

#[test]
fn test_tag_inject_one_postfixed() {
    let mut tag_state = create_test_state();
    let output = tag_state.inject_tags("tag1hello", "\n");
    assert_eq!("content1hello\n", &output);
    assert_eq!(2, tag_state.stored_len());
}

#[test]
fn test_tag_inject_one_sandwiched() {
    let mut tag_state = create_test_state();
    let output = tag_state.inject_tags("worldtag1hello", "\n");
    assert_eq!("worldcontent1hello\n", &output);
    assert_eq!(2, tag_state.stored_len());
}

#[test]
fn test_tag_inject_one_sandwiched_newlines() {
    let mut tag_state = create_test_state();
    let output = tag_state.inject_tags("worldtag1hello", "\n");
    assert_eq!("worldcontent1hello\n", &output);
    assert_eq!(2, tag_state.stored_len());
}

#[test]
fn test_tag_inject_many() {
    let mut tag_state = create_test_state();
    let output = tag_state.inject_tags("tag1tag2tag3", "\n");
    assert_eq!("content1content2content3\n", &output);
    assert_eq!(0, tag_state.stored_len());
}

#[test]
fn test_tag_inject_none() {
    let mut tag_state = create_test_state();
    let output = tag_state.inject_tags("asdftag 1fg   tag 2tag 3asdf", "\n");
    assert_eq!("asdftag 1fg   tag 2tag 3asdf\n", &output);
    assert_eq!(3, tag_state.stored_len());
}

#[test]
fn test_tag_inject_many_complex() {
    let mut tag_state = create_test_state();
    let output = tag_state.inject_tags("asdftag 1fg   tag2tag3asdf", "\n");
    assert_eq!("asdftag 1fg   content2content3asdf\n", &output);
    assert_eq!(1, tag_state.stored_len());
}

#[test]
fn test_tag_inject_many_complex2() {
    let mut tag_state = TagState::new();
    tag_state.create("tag1").unwrap();
    tag_state.try_store("cont\r\nent1").unwrap();
    tag_state.create("tag2").unwrap();
    tag_state.try_store("\ncontent2\n").unwrap();
    tag_state.create("tag3").unwrap();
    tag_state.try_store("content3\n\n").unwrap();
    let output = tag_state.inject_tags("asdftag1fg   tag2tag3asdf", "\r\n");
    assert_eq!(
        "asdfcont\r\nent1fg   \r\ncontent2\r\ncontent3\r\n\r\nasdf\r\n",
        &output
    );
    assert_eq!(0, tag_state.stored_len());
}
