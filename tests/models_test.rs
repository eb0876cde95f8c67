use tyange_cms_api::models::{parse_tags, split_tags, split_trimmed, Post, PostResponseDb};
use tyange_cms_api::text::split_str;

fn row(tags: &str) -> PostResponseDb {
    PostResponseDb {
        post_id: "p1".to_string(),
        title: "t".to_string(),
        description: "d".to_string(),
        published_at: "2024-01-01".to_string(),
        tags: tags.to_string(),
        content: "c".to_string(),
        status: "published".to_string(),
    }
}

#[test]
fn post_from_row_splits_and_trims_tags() {
    let post = Post::from(row(" rust , verus,\u{a0}web\t"));
    assert_eq!(post.tags, vec!["rust", "verus", "web"]);
    assert_eq!(post.post_id, "p1");
    assert_eq!(post.status, "published");
    assert!(Post::from(row("")).tags.is_empty());
    assert_eq!(Post::from(row("a,,b")).tags, vec!["a", "", "b"]);
}

#[test]
fn split_keeps_empty_pieces() {
    assert_eq!(split_str("", ','), vec![""]);
    assert_eq!(split_str(",a,", ','), vec!["", "a", ""]);
    assert_eq!(split_tags(" x "), vec!["x"]);
}

#[test]
fn tags_with_categories() {
    let tags = parse_tags("lang::rust, topic :: proofs ,plain,a::b::c");
    let pairs: Vec<(String, String)> =
        tags.into_iter().map(|t| (t.category, t.tag)).collect();
    assert_eq!(
        pairs,
        vec![
            ("lang".to_string(), "rust".to_string()),
            ("topic".to_string(), "proofs".to_string()),
            ("a".to_string(), "b::c".to_string()),
        ]
    );
    assert!(parse_tags("").is_empty());
    assert!(parse_tags("nothing").is_empty());
}

#[test]
fn split_trimmed_keeps_the_empty_piece() {
    assert_eq!(split_trimmed(""), vec![""]);
    assert_eq!(split_trimmed(" a , b"), vec!["a", "b"]);
}

#[test]
fn trimming_follows_unicode_whitespace() {
    assert_eq!(split_trimmed("\u{3000}\u{85}a b\u{2028}, \u{200b}x"), vec!["a b", "\u{200b}x"]);
    assert_eq!(split_trimmed(" \t\n "), vec![""]);
}
