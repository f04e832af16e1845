use simple_http_server::post::{Post, PostDraft, PostPendingReview, PostPublished};
use simple_http_server::shapes::{sort_by_width, Rectangle};
use simple_http_server::timing::ScopeTimeLogger;

#[test]
fn post_shows_text_only_once_published() {
    let mut post = Post::new();
    post.add_text("I ate a salad for lunch today");
    post.add_text(" and some pickles.");
    post.approve();
    assert_eq!("", post.content());
    post.request_review();
    assert_eq!("", post.content());
    post.approve();
    assert_eq!("I ate a salad for lunch today and some pickles.", post.content());
}

#[test]
fn rejected_post_returns_to_draft() {
    let mut post = Post::new();
    post.add_text("first");
    post.request_review();
    post.add_text(" ignored");
    post.reject();
    post.add_text(" second");
    post.request_review();
    post.approve();
    assert_eq!("first second", post.content());
    post.add_text(" more");
    post.reject();
    assert_eq!("first second", post.content());
}

#[test]
fn post_stages_hold_their_text() {
    let mut draft = PostDraft::new();
    draft.add_text("abc");
    let pending = PostPendingReview::new(String::from("abc"));
    let published = PostPublished::new(String::from("abc"));
    assert_eq!(published.content(), "abc");
    let _ = (draft, pending);
}

#[test]
fn rectangles_sort_by_width() {
    let mut list = vec![
        Rectangle { width: 10, height: 1 },
        Rectangle { width: 3, height: 5 },
        Rectangle { width: 7, height: 12 },
    ];
    sort_by_width(&mut list);
    assert_eq!(
        list,
        vec![
            Rectangle { width: 3, height: 5 },
            Rectangle { width: 7, height: 12 },
            Rectangle { width: 10, height: 1 },
        ]
    );
}

#[test]
fn rectangle_keeps_its_sides() {
    let rec = Rectangle { width: 10, height: 1 };
    assert_eq!(10, rec.width);
    assert_eq!(1, rec.height);
}

#[test]
fn sorting_empty_and_single_lists() {
    let mut empty: Vec<Rectangle> = Vec::new();
    sort_by_width(&mut empty);
    assert!(empty.is_empty());
    let mut one = vec![Rectangle { width: 4, height: 4 }];
    sort_by_width(&mut one);
    assert_eq!(one, vec![Rectangle { width: 4, height: 4 }]);
}

#[test]
fn timer_keeps_its_name() {
    let timer = ScopeTimeLogger::new("block");
    assert_eq!(timer.name(), "block");
    assert!(timer.started().elapsed().as_secs() < 60);
}

#[test]
fn timer_started_at_keeps_its_instant() {
    let start = std::time::Instant::now();
    let timer = ScopeTimeLogger::started_at("fixed", start);
    assert_eq!(timer.name(), "fixed");
    assert_eq!(timer.started(), start);
}
