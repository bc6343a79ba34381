use rchan::types::post::Post;
use rchan::types::utils::{parse_number, quote_numbers, remove_html, DecodeError};

fn post_from_comment(comment: &str) -> Post {
    Post {
        no: 1,
        sticky: None,
        closed: None,
        now: None,
        name: None,
        sub: None,
        com: Some(comment.to_string()),
        filename: None,
        ext: None,
        w: None,
        h: None,
        tn_w: None,
        tn_h: None,
        tim: None,
        time: None,
        md5: None,
        fsize: None,
        resto: None,
        capcode: None,
        semantic_url: None,
        replies: None,
        images: None,
        unique_ips: None,
        omitted_posts: None,
        omitted_images: None,
        last_replies: None,
        last_modified: None,
    }
}

#[test]
fn test_clean_up_4chan_post() {
    let comment = "<span class=\"quote\">&gt;be me\n&gt;be anon\n&gt;be greentexting</span>";
    let post = post_from_comment(comment);
    let expected = ">be me\n>be anon\n>be greentexting";
    assert_eq!(post.clean_comment().unwrap(), expected);
}

#[test]
fn test_clean_up_4chan_post_2() {
    let comment =  "<a href=\"#p99602349\" class=\"quotelink\">&gt;&gt;99602349</a><br><span class=\"quote\">&gt;t. cohee</span><br><pre class=\"prettyprint\">#Example 2: calculate a factorial of 5.<br>/setvar key=inp ut 5 |<br>/setvar key=i 1 |<br>/setvar key=product 1 |<br>/while left=i right=input rule=lte &quot;/mul product i \\| /setvar key=product \\| /addvar key=i 1&quot; |<br>/getvar product |<br>/echo Factorial of {{getvar::input}}: {{ pipe}} |<br>/flushvar input |<br>/flushvar i |<br>/flushvar product</pre>";
    let post = post_from_comment(comment);
    let expected = ">>99602349\n>t. cohee\n#Example 2: calculate a factorial of 5.\n/setvar key=inp ut 5 |\n/setvar key=i 1 |\n/setvar key=product 1 |\n/while left=i right=input rule=lte \"/mul product i \\| /setvar key=product \\| /addvar key=i 1\" |\n/getvar product |\n/echo Factorial of {{getvar::input}}: {{ pipe}} |\n/flushvar input |\n/flushvar i |\n/flushvar product";
    assert_eq!(post.clean_comment().unwrap(), expected);
}

#[test]
fn test_quotes() {
    let comment = "<a href=\"#p99602349\" class=\"quotelink\">&gt;&gt;99602349</a><br><span class=\"quote\">&gt;t. cohee</span><br><pre class=\"prettyprint\">#Example 2: calculate a factorial of 5.<br>/setvar key=inp ut 5 |<br>/setvar key=i 1 |<br>/setvar key=product 1 |<br>/while left=i right=input rule=lte &quot;/mul product i \\| /setvar key=product \\| /addvar key=i 1&quot; |<br>/getvar product |<br>/echo Factorial of {{getvar::input}}: {{ pipe}} |<br>/flushvar input |<br>/flushvar i |<br>/flushvar product</pre>";
    let post = post_from_comment(comment);
    assert_eq!(post.quotes(), vec![99602349]);
}

#[test]
fn quotes_come_in_the_order_of_the_comment() {
    let comment = "<a href=\"#p12\" class=\"quotelink\">&gt;&gt;12</a> and <a href=\"#p7\" class=\"quotelink\">&gt;&gt;7</a>";
    let post = post_from_comment(comment);
    assert_eq!(post.quotes(), vec![12, 7]);
    assert_eq!(post.try_quotes(), Some(vec![12, 7]));
}

#[test]
fn a_post_without_comment_quotes_nothing() {
    let mut post = post_from_comment("");
    post.com = None;
    assert_eq!(post.quotes(), Vec::<i32>::new());
    assert_eq!(post.try_quotes(), Some(vec![]));
    assert_eq!(post.clean_comment(), None);
    assert_eq!(post.try_clean_comment(), None);
}

#[test]
fn a_quoted_number_beyond_32_bits_is_reported() {
    let comment = "<a href=\"#p99999999999\" class=\"quotelink\">&gt;&gt;99999999999</a>";
    let post = post_from_comment(comment);
    assert_eq!(post.try_quotes(), None);
}

#[test]
fn try_clean_comment_reports_a_comment_that_cannot_be_cleaned() {
    let post = post_from_comment("AT&T rocks");
    assert_eq!(post.try_clean_comment(), None);
    let post = post_from_comment("fine &amp; dandy<br/>next");
    assert_eq!(post.try_clean_comment(), Some("fine & dandy\nnext".to_string()));
}

#[test]
fn remove_html_decodes_then_strips() {
    assert_eq!(remove_html("a&lt;b&gt;c").unwrap(), "ac");
    assert_eq!(remove_html("one<br>two<br />three").unwrap(), "one\ntwo\nthree");
    assert_eq!(remove_html("plain").unwrap(), "plain");
}

#[test]
fn remove_html_gives_each_error() {
    assert!(matches!(remove_html("&nosuchentity;"), Err(DecodeError::UnknownEntity(1, _, _))));
    assert!(matches!(remove_html("tail &amp"), Err(DecodeError::EOF)));
    assert!(matches!(remove_html("&#xZZ;"), Err(DecodeError::IllFormedEntity(_, _))));
}

#[test]
fn parse_number_reads_signs_and_limits() {
    assert_eq!(parse_number("0"), Some(0));
    assert_eq!(parse_number("99602349"), Some(99602349));
    assert_eq!(parse_number("+12"), Some(12));
    assert_eq!(parse_number("-12"), Some(-12));
    assert_eq!(parse_number("0000000000000000000042"), Some(42));
    assert_eq!(parse_number("2147483647"), Some(2147483647));
    assert_eq!(parse_number("2147483648"), None);
    assert_eq!(parse_number("-2147483648"), Some(-2147483648));
    assert_eq!(parse_number("-2147483649"), None);
    assert_eq!(parse_number(""), None);
    assert_eq!(parse_number("-"), None);
    assert_eq!(parse_number("+"), None);
    assert_eq!(parse_number("12a"), None);
    assert_eq!(parse_number("１２"), None);
    assert_eq!(parse_number(" 1"), None);
}

#[test]
fn quote_numbers_needs_every_group() {
    assert_eq!(quote_numbers(&vec![Some("1".to_string()), Some("22".to_string())]), Some(vec![1, 22]));
    assert_eq!(quote_numbers(&vec![Some("1".to_string()), None]), None);
    assert_eq!(quote_numbers(&vec![Some("x".to_string())]), None);
    assert_eq!(quote_numbers(&vec![]), Some(vec![]));
}

#[test]
fn opening_posts_and_replies() {
    let mut post = post_from_comment("x");
    assert!(post.is_op());
    assert!(!post.is_reply());
    assert_eq!(post.thread_no(), 1);
    post.resto = Some(0);
    assert!(post.is_op());
    assert!(!post.is_reply());
    assert_eq!(post.thread_no(), 1);
    post.resto = Some(77);
    assert!(!post.is_op());
    assert!(post.is_reply());
    assert_eq!(post.thread_no(), 77);
    assert_eq!(post.post_no(), 1);
    assert!(!post.is_sticky() && !post.is_closed() && !post.has_image() && !post.has_replies());
    post.sticky = Some(1);
    post.closed = Some(1);
    post.tim = Some(5);
    post.replies = Some(0);
    assert!(post.is_sticky() && post.is_closed() && post.has_image() && post.has_replies());
}

#[test]
fn posts_are_compared_by_number() {
    let a = post_from_comment("a");
    let mut b = post_from_comment("b");
    assert!(a == b);
    assert!(a <= b && a >= b && !(a < b));
    assert_eq!(a.partial_cmp(&b), Some(std::cmp::Ordering::Equal));
    b.no = 2;
    assert!(a != b);
    assert!(a < b && b > a);
    assert_eq!(a.partial_cmp(&b), Some(std::cmp::Ordering::Less));
    assert_eq!(b.partial_cmp(&a), Some(std::cmp::Ordering::Greater));
}

#[test]
fn a_copy_holds_every_field() {
    let mut reply = post_from_comment("reply");
    reply.no = 9;
    reply.resto = Some(1);
    let mut post = post_from_comment("body");
    post.time = Some(1234);
    post.name = Some("Anonymous".to_string());
    post.last_replies = Some(vec![reply]);
    post.last_modified = Some(99);
    let copy = post.clone();
    assert_eq!(copy.no, 1);
    assert_eq!(copy.com, Some("body".to_string()));
    assert_eq!(copy.name, Some("Anonymous".to_string()));
    assert_eq!(copy.time, Some(1234));
    assert_eq!(copy.last_modified, Some(99));
    let replies = copy.last_replies.unwrap();
    assert_eq!(replies.len(), 1);
    assert_eq!(replies[0].no, 9);
    assert_eq!(replies[0].resto, Some(1));
    assert_eq!(replies[0].com, Some("reply".to_string()));
}
