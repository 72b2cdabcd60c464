use parser::tokenizer::{CompressMode, Token};
use parser::validator::ValidationState;
use parser::visitor::{visit_slice, Visitor};
use parser::{JsonPath, JsonPathSegment};
use std::borrow::Cow;

fn key(text: &str) -> JsonPathSegment<'static> {
    JsonPathSegment::Key(Cow::Owned(text.to_string()))
}

#[test]
fn path_segment_accessors() {
    let mut seg = JsonPathSegment::Index(3);
    assert!(seg.is_index());
    assert!(!seg.is_key());
    assert_eq!(seg.as_index(), Some(3));
    assert_eq!(seg.as_key(), None);
    assert!(seg.set_index(7));
    assert_eq!(seg.as_index(), Some(7));
    assert!(!seg.set_key(Cow::Borrowed("x")));
    assert_eq!(seg.as_index(), Some(7));

    let mut seg = JsonPathSegment::Key(Cow::Borrowed("\"name\""));
    assert!(seg.is_key());
    assert!(!seg.is_index());
    assert_eq!(seg.as_key().as_deref(), Some("\"name\""));
    assert_eq!(seg.as_index(), None);
    assert!(seg.set_key(Cow::Borrowed("\"other\"")));
    assert_eq!(seg.as_key().as_deref(), Some("\"other\""));
    assert!(!seg.set_index(1));
}

#[test]
fn path_segment_mutable_access() {
    let mut seg = JsonPathSegment::Index(4);
    if let Some(i) = seg.as_index_mut() {
        *i += 1;
    }
    assert_eq!(seg, JsonPathSegment::Index(5));
    assert!(seg.as_key_mut().is_none());

    let mut seg = JsonPathSegment::Key(Cow::Borrowed("\"k\""));
    if let Some(k) = seg.as_key_mut() {
        *k = Cow::Borrowed("\"renamed\"");
    }
    assert_eq!(seg.as_key().as_deref(), Some("\"renamed\""));
    assert!(seg.as_index_mut().is_none());
}

#[test]
fn path_display_form() {
    assert_eq!(JsonPath::empty().display_string(), "@");
    let path = JsonPath::new(vec![JsonPathSegment::Index(1), key("\"a\"")]);
    assert_eq!(path.display_string(), "@.1.\"a\"");
    let path = JsonPath::new(vec![
        JsonPathSegment::Index(0),
        JsonPathSegment::Index(1234567890),
    ]);
    assert_eq!(path.display_string(), "@.0.1234567890");
}

#[test]
fn path_operations() {
    let mut path = JsonPath::empty();
    assert!(path.is_empty());
    assert_eq!(path.len(), 0);
    assert_eq!(path.pop(), None);
    path.push(JsonPathSegment::Index(0));
    path.push(key("\"a\""));
    assert_eq!(path.len(), 2);
    assert_eq!(path.first(), Some(&JsonPathSegment::Index(0)));
    assert_eq!(path.last(), Some(&key("\"a\"")));

    let parent = path.parent();
    assert_eq!(parent.segments, vec![JsonPathSegment::Index(0)]);
    let grandparent = parent.parent();
    assert!(grandparent.is_empty());
    assert!(grandparent.parent().is_empty());

    assert_eq!(path.pop(), Some(key("\"a\"")));
    assert_eq!(path.len(), 1);

    let built = JsonPath::new(vec![JsonPathSegment::Index(2), key("\"b\"")]);
    assert_eq!(built.len(), 2);
}

#[test]
fn visitor_paths_traverse_document() {
    let input = b"[1, {\"a\": null}, true]";
    let events = visit_slice(input, CompressMode::AllWhitespace).unwrap();
    // one event per non-whitespace token
    assert_eq!(events.len(), 11);

    // the array itself lives at the root
    assert!(events[0].is_start_of_value);
    assert!(events[0].path.is_empty());

    // 1 is visited at @.0
    assert!(events[1].is_start_of_value && events[1].is_end_of_value);
    assert_eq!(events[1].path, vec![JsonPathSegment::Index(0)]);

    // the object opens at @.1
    assert!(events[3].is_start_of_value);
    assert_eq!(events[3].path, vec![JsonPathSegment::Index(1)]);

    // the key is an object-key event, not a value
    assert!(events[4].is_object_key);
    assert!(!events[4].is_start_of_value);

    // null is visited at @.1."a" (keys keep their quotes)
    assert!(events[6].is_start_of_value && events[6].is_end_of_value);
    assert_eq!(
        events[6].path,
        vec![JsonPathSegment::Index(1), key("\"a\"")]
    );

    // the object close pops back to @.1 and hands out the final key
    assert!(events[7].is_end_of_value && !events[7].is_start_of_value);
    assert_eq!(events[7].path, vec![JsonPathSegment::Index(1)]);
    assert_eq!(events[7].container_last_segment, Some(key("\"a\"")));

    // true is visited at @.2
    assert!(events[9].is_start_of_value && events[9].is_end_of_value);
    assert_eq!(events[9].path, vec![JsonPathSegment::Index(2)]);

    // the final close completes the document at the root; the popped
    // segment is the index one past the last element: the array length
    let last = &events[10];
    assert!(last.is_end_of_value);
    assert!(last.path.is_empty());
    assert_eq!(last.state, ValidationState::Complete);
    assert_eq!(last.container_last_segment, Some(JsonPathSegment::Index(3)));
}

#[test]
fn visitor_rejects_invalid_utf8_key() {
    // 0xC3 announces a two-byte character, so the scanner accepts the
    // lexeme, but the key bytes are not valid UTF-8
    let input = b"{\"\xC3A\": 1}";
    let err = visit_slice(input, CompressMode::AllWhitespace).unwrap_err();
    assert_eq!(err, parser::driver::DriverError::InvalidString);
}

#[test]
fn visitor_reports_truncated_and_invalid_input() {
    let err = visit_slice(b"{\"a\":", CompressMode::AllWhitespace).unwrap_err();
    assert_eq!(
        err,
        parser::driver::DriverError::Validation(
            parser::validator::ValidationError::UnexpectedEndOfInput
        )
    );
    let err = visit_slice(b"[,]", CompressMode::AllWhitespace).unwrap_err();
    assert_eq!(
        err,
        parser::driver::DriverError::Validation(parser::validator::ValidationError::Invalid(
            Some(parser::validator::ValidationContext::ArrayStart)
        ))
    );
}

#[test]
fn visitor_depth_tracks_containers() {
    let input = b"{\"a\":[[1,2],{}]}";
    let events = visit_slice(input, CompressMode::AllWhitespace).unwrap();
    // after every close token the event path has one segment per still
    // open container
    let mut depth: isize = 0;
    for ev in &events {
        if ev.token.is_open() {
            depth += 1;
        }
        if ev.token.is_close() {
            depth -= 1;
            assert_eq!(ev.path.len() as isize, depth);
        }
    }
    assert_eq!(depth, 0);
}

#[test]
fn visitor_step_by_step() {
    let mut visitor = Visitor::new();
    visitor.step(&Token::ArrayOpen).unwrap();
    assert_eq!(visitor.path.segments, vec![JsonPathSegment::Index(0)]);
    visitor.step(&Token::Number(Cow::Borrowed(b"5"))).unwrap();
    assert_eq!(visitor.path.segments, vec![JsonPathSegment::Index(1)]);
    let ev = visitor.step(&Token::ArrayClose).unwrap();
    assert!(visitor.path.segments.is_empty());
    assert_eq!(ev.state, ValidationState::Complete);
    assert_eq!(ev.container_last_segment, Some(JsonPathSegment::Index(1)));
}
