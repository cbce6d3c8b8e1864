use tutomd::chapters::closures::{requires_fn, MyOption};
use tutomd::chapters::traits::{
    notification_default_text, NewsArticle, Notification, Pair, SmsMessage, Summary,
    WhatsappMessage,
};

#[test]
fn unwrap_or_else_returns_held_value() {
    let o: MyOption<i32> = MyOption::Present(5);
    assert_eq!(o.unwrap_or_else(|| 7), 5);
}

#[test]
fn unwrap_or_else_calls_fallback_when_missing() {
    let o: MyOption<i32> = MyOption::Missing;
    assert_eq!(o.unwrap_or_else(|| 7), 7);
}

#[test]
fn unwrap_or_else_accepts_a_consuming_closure() {
    let owned = String::from("fallback");
    let o: MyOption<String> = MyOption::Missing;
    assert_eq!(o.unwrap_or_else(move || owned), "fallback");
}

#[test]
fn map_applies_in_order() {
    let out = tutomd::chapters::closures::map(vec![1, 2, 3, 4], |n: i32| n + 1);
    assert_eq!(out, vec![2, 3, 4, 5]);
}

#[test]
fn map_accepts_a_mutating_closure() {
    let mut sum = 0;
    let out = tutomd::chapters::closures::map(vec![1, 2, 3, 4], |n: i32| {
        sum += n;
        n + 1
    });
    assert_eq!(out, vec![2, 3, 4, 5]);
    assert_eq!(sum, 10);
}

#[test]
fn map_on_empty_list() {
    let out = tutomd::chapters::closures::map(Vec::<i32>::new(), |n: i32| n * 2);
    assert!(out.is_empty());
}

#[test]
fn requires_fn_calls_with_small_values() {
    requires_fn(|n: i32| {
        assert!((1..=3).contains(&n));
    });
}

#[test]
fn summarize_reports_title_author_and_word_count() {
    let article = NewsArticle {
        title: "some title".to_string(),
        author: "Mark".to_string(),
        content: "text".to_string(),
    };
    assert_eq!(article.summarize(), "some title, by Mark (1)");
}

#[test]
fn summarize_counts_space_separated_words() {
    let article = NewsArticle {
        title: "t".to_string(),
        author: "a".to_string(),
        content: "one two three four".to_string(),
    };
    assert_eq!(article.summarize(), "t, by a (4)");
}

#[test]
fn summarize_word_count_of_empty_content_is_one() {
    let article = NewsArticle {
        title: "t".to_string(),
        author: "a".to_string(),
        content: "".to_string(),
    };
    assert_eq!(article.summarize(), "t, by a (1)");
}

#[test]
fn summarize_renders_multi_digit_counts() {
    let words: Vec<&str> = std::iter::repeat("w").take(12).collect();
    let article = NewsArticle {
        title: "t".to_string(),
        author: "a".to_string(),
        content: words.join(" "),
    };
    assert_eq!(article.summarize(), "t, by a (12)");
}

#[test]
fn summarize_count_carries_over_a_digit_boundary() {
    let words: Vec<&str> = std::iter::repeat("w").take(10).collect();
    let article = NewsArticle {
        title: "t".to_string(),
        author: "a".to_string(),
        content: words.join(" "),
    };
    assert_eq!(article.summarize(), "t, by a (10)");
}

#[test]
fn news_article_tag() {
    assert_eq!(NewsArticle::tag(), 34);
}

#[test]
fn whatsapp_message_uses_default_text() {
    let m = WhatsappMessage {
        sender: "Mark".to_string(),
        content: "Hello!".to_string(),
    };
    assert_eq!(m.author(), "Mark");
    assert_eq!(m.text(), "New notification from Mark...)");
}

#[test]
fn sms_message_overrides_text() {
    let m = SmsMessage {
        sender: "Mark".to_string(),
        content: "Hello!".to_string(),
    };
    assert_eq!(m.author(), "Mark");
    assert_eq!(m.text(), "New SMS from Mark: Hello!");
}

#[test]
fn default_text_wording() {
    assert_eq!(notification_default_text("Eve"), "New notification from Eve...)");
}

#[test]
fn returned_notifications_carry_their_author() {
    let n = tutomd::chapters::traits::ex_ret_notif();
    assert_eq!(n.author(), "Mark");
    let n = tutomd::chapters::traits::ex_ret_notif_2(true);
    assert_eq!(n.author(), "Luke");
    let n = tutomd::chapters::traits::ex_ret_notif_2(false);
    assert_eq!(n.author(), "Mark");
}

#[test]
fn string_pair_is_a_notification() {
    let tuple = ("Mark".to_string(), "Hello!".to_string());
    assert_eq!(tuple.author(), "Mark");
    assert_eq!(tuple.text(), "Hello!");
}

#[test]
fn pair_new_and_sum() {
    let pair: Pair<i32> = Pair::new(1, 2);
    assert_eq!(pair.x, 1);
    assert_eq!(pair.y, 2);
    assert_eq!(pair.sum(), 3);
}

#[test]
fn pair_new_is_generic() {
    let pair: Pair<&str> = Pair::new("hello", "world");
    assert_eq!(pair.x, "hello");
    assert_eq!(pair.y, "world");
}
