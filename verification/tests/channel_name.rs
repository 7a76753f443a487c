use taskbase::channel_name::{
    build_channel_route, contains_separator, parse_channel_route, try_build_channel_route,
    RouteError, SEPARATOR,
};
use taskbase::text::same_text;

#[test]
fn separator_is_slash() {
    assert_eq!(SEPARATOR, '/');
}

#[test]
fn build_joins_two_segments() {
    assert_eq!(build_channel_route(&["task_ready", "default"]), "task_ready/default");
}

#[test]
fn build_single_segment_is_itself() {
    assert_eq!(build_channel_route(&["task_ready"]), "task_ready");
    assert_eq!(build_channel_route(&[""]), "");
}

#[test]
fn build_keeps_empty_segments() {
    assert_eq!(build_channel_route(&["a", "", "c"]), "a//c");
    assert_eq!(build_channel_route(&["", ""]), "/");
}

#[test]
fn build_joins_non_ascii_segments() {
    assert_eq!(build_channel_route(&["задача", "名前空間", "é"]), "задача/名前空間/é");
}

#[test]
fn try_build_matches_build_on_valid_routes() {
    assert_eq!(
        try_build_channel_route(&["task_ready", "billing"]),
        Ok(String::from("task_ready/billing"))
    );
    assert_eq!(try_build_channel_route(&["solo"]), Ok(String::from("solo")));
}

#[test]
fn try_build_refuses_empty_route() {
    let none: [&str; 0] = [];
    assert_eq!(try_build_channel_route(&none), Err(RouteError::EmptyRoute));
}

#[test]
fn try_build_reports_first_segment_with_separator() {
    assert_eq!(
        try_build_channel_route(&["task_ready", "a/b", "c/d"]),
        Err(RouteError::SeparatorInSegment { index: 1 })
    );
    assert_eq!(
        try_build_channel_route(&["/", "x"]),
        Err(RouteError::SeparatorInSegment { index: 0 })
    );
    assert_eq!(
        try_build_channel_route(&["x", "y", "z/"]),
        Err(RouteError::SeparatorInSegment { index: 2 })
    );
}

#[test]
fn parse_two_segments() {
    assert_eq!(
        parse_channel_route::<2>("task_ready/default"),
        Some(["task_ready", "default"])
    );
}

#[test]
fn parse_too_few_segments_is_no_match() {
    assert_eq!(parse_channel_route::<2>("task_ready"), None);
    assert_eq!(parse_channel_route::<3>("a/b"), None);
    assert_eq!(parse_channel_route::<2>(""), None);
}

#[test]
fn parse_too_many_segments_is_no_match() {
    assert_eq!(parse_channel_route::<2>("task_ready/a/b"), None);
    assert_eq!(parse_channel_route::<1>("a/b"), None);
    assert_eq!(parse_channel_route::<2>("a/b/"), None);
    assert_eq!(parse_channel_route::<2>("//"), None);
}

#[test]
fn parse_zero_segments_never_matches() {
    assert_eq!(parse_channel_route::<0>(""), None);
    assert_eq!(parse_channel_route::<0>("a"), None);
    assert_eq!(parse_channel_route::<0>("/"), None);
}

#[test]
fn parse_empty_text_is_one_empty_segment() {
    assert_eq!(parse_channel_route::<1>(""), Some([""]));
}

#[test]
fn parse_keeps_empty_segments() {
    assert_eq!(parse_channel_route::<3>("a//c"), Some(["a", "", "c"]));
    assert_eq!(parse_channel_route::<2>("/"), Some(["", ""]));
    assert_eq!(parse_channel_route::<2>("task_ready/"), Some(["task_ready", ""]));
    assert_eq!(parse_channel_route::<2>("/default"), Some(["", "default"]));
}

#[test]
fn parse_cuts_non_ascii_text_at_characters() {
    assert_eq!(
        parse_channel_route::<3>("задача/名前空間/é"),
        Some(["задача", "名前空間", "é"])
    );
}

#[test]
fn parse_inverts_build() {
    let routes: [&[&str]; 4] = [
        &["task_ready", "default"],
        &["task_ready", ""],
        &["", "x"],
        &["ü", "billing"],
    ];
    for segments in routes {
        let text = build_channel_route(segments);
        let parsed = parse_channel_route::<2>(&text);
        assert_eq!(parsed, Some([segments[0], segments[1]]));
    }
    let text = build_channel_route(&["a", "b", "c", "d"]);
    assert_eq!(parse_channel_route::<4>(&text), Some(["a", "b", "c", "d"]));
    assert_eq!(parse_channel_route::<3>(&text), None);
    assert_eq!(parse_channel_route::<5>(&text), None);
}

#[test]
fn build_inverts_parse() {
    for text in ["task_ready/default", "a//c", "/", "x"] {
        match text.matches('/').count() {
            0 => {
                let parts = parse_channel_route::<1>(text).unwrap();
                assert_eq!(build_channel_route(&parts), text);
            }
            1 => {
                let parts = parse_channel_route::<2>(text).unwrap();
                assert_eq!(build_channel_route(&parts), text);
            }
            _ => {
                let parts = parse_channel_route::<3>(text).unwrap();
                assert_eq!(build_channel_route(&parts), text);
            }
        }
    }
}

#[test]
fn contains_separator_finds_it_anywhere() {
    assert!(contains_separator("/"));
    assert!(contains_separator("a/b"));
    assert!(contains_separator("ab/"));
    assert!(contains_separator("/ab"));
    assert!(contains_separator("名/前"));
    assert!(!contains_separator(""));
    assert!(!contains_separator("default"));
    assert!(!contains_separator("back\\slash"));
}

#[test]
fn same_text_compares_by_characters() {
    assert!(same_text("", ""));
    assert!(same_text("ready", "ready"));
    assert!(same_text("名前", "名前"));
    assert!(!same_text("ready", "read"));
    assert!(!same_text("read", "ready"));
    assert!(!same_text("ready", "readY"));
    assert!(!same_text("", "x"));
    assert!(!same_text("x", ""));
}
