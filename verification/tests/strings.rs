use fundamentals::text::{first_word, longest, Article, Excerpt, Summary, Tweet};

#[test]
fn test_first_word() {
    assert_eq!(first_word("hello world"), "hello");
    assert_eq!(first_word("single"), "single");
    assert_eq!(first_word(""), "");
}

#[test]
fn test_longest() {
    assert_eq!(longest("abc", "ab"), "abc");
    assert_eq!(longest("hi", "hello"), "hello");
}

#[test]
fn test_summary_trait() {
    let article = Article {
        title: String::from("Test"),
        author: String::from("Author"),
        content: String::from("Content here"),
    };
    assert!(article.summarize().contains("Test"));
    assert!(article.headline().contains("Breaking"));

    let tweet = Tweet {
        username: String::from("user"),
        body: String::from("hello"),
    };
    assert!(tweet.summarize().contains("@user"));
    assert_eq!(tweet.headline(), "(Read more...)");
}

#[test]
fn first_word_stops_at_the_first_space() {
    assert_eq!(first_word(" leading"), "");
    assert_eq!(first_word("a b c"), "a");
}

#[test]
fn longest_prefers_the_first_on_a_tie() {
    assert_eq!(longest("ab", "cd"), "ab");
    assert_eq!(longest("", ""), "");
}

#[test]
fn summaries_spell_out_their_parts() {
    let tweet = Tweet {
        username: String::from("rustlang"),
        body: String::from("Rust 1.80 is out!"),
    };
    assert_eq!(tweet.summarize(), "@rustlang: Rust 1.80 is out!");

    let article = Article {
        title: String::from("Title"),
        author: String::from("Someone"),
        content: String::from("Short"),
    };
    assert_eq!(article.summarize(), "Title by Someone — Short...");
    assert_eq!(article.headline(), "Breaking: Title");
}

#[test]
fn long_content_is_cut_at_fifty_characters() {
    let article = Article {
        title: String::from("T"),
        author: String::from("A"),
        content: "x".repeat(80),
    };
    let expected = format!("T by A — {}...", "x".repeat(50));
    assert_eq!(article.summarize(), expected);
}

#[test]
fn truncation_counts_bytes_not_characters() {
    // Fifty-two bytes of two-byte characters: the cut falls exactly at
    // byte fifty, which is twenty-five characters.
    let article = Article {
        title: String::from("T"),
        author: String::from("A"),
        content: "é".repeat(26),
    };
    let expected = format!("T by A — {}...", "é".repeat(25));
    assert_eq!(article.summarize(), expected);
}

#[test]
fn truncation_never_splits_a_character() {
    // Seventeen three-byte characters are fifty-one bytes; byte fifty
    // falls inside the seventeenth, so the cut moves back to byte
    // forty-eight, sixteen characters.
    let article = Article {
        title: String::from("T"),
        author: String::from("A"),
        content: "€".repeat(17),
    };
    let expected = format!("T by A — {}...", "€".repeat(16));
    assert_eq!(article.summarize(), expected);
}

#[test]
fn excerpt_borrows_and_reports_its_level() {
    let novel = String::from("Call me Ishmael. Some years ago...");
    let excerpt = Excerpt {
        text: first_word(&novel),
    };
    assert_eq!(excerpt.text, "Call");
    assert_eq!(excerpt.level(), 3);
}
