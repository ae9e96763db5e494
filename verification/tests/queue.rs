use boatypod::item::DownloadItem;
use boatypod::queue::{queue_items, queue_without, split_lines};

fn item(line: &str) -> DownloadItem {
    DownloadItem::new(line).expect("a line with two tokens")
}

fn pairs(content: &str) -> Vec<(String, String)> {
    queue_items(content)
        .iter()
        .map(|i| (i.uri().to_string(), i.path().to_string()))
        .collect()
}

fn pair(uri: &str, path: &str) -> (String, String) {
    (uri.to_string(), path.to_string())
}

#[test]
fn entry_from_two_bare_tokens() {
    let it = item("http://x/a.mp3 /tmp/a.mp3");
    assert_eq!(it.uri(), "http://x/a.mp3");
    assert_eq!(it.path(), "/tmp/a.mp3");
}

#[test]
fn entry_with_quoted_destination() {
    let it = item("http://x/a.mp3 \"/tmp/out dir/a.mp3\"");
    assert_eq!(it.uri(), "http://x/a.mp3");
    assert_eq!(it.path(), "/tmp/out dir/a.mp3");
}

#[test]
fn entry_ignores_further_tokens() {
    let it = item("http://x/a.mp3 /tmp/a.mp3 extra \"more words\"");
    assert_eq!(it.uri(), "http://x/a.mp3");
    assert_eq!(it.path(), "/tmp/a.mp3");
}

#[test]
fn single_token_is_no_entry() {
    assert!(DownloadItem::new("justonetoken").is_none());
    assert!(DownloadItem::new("\"just one token\"").is_none());
}

#[test]
fn unreadable_line_is_no_entry() {
    assert!(DownloadItem::new("").is_none());
    assert!(DownloadItem::new("http://x/a.mp3 \"/tmp/a").is_none());
    assert!(DownloadItem::new(" http://x/a.mp3 /tmp/a").is_none());
    assert!(DownloadItem::new("http://x/a.mp3 /tmp/a ").is_none());
    assert!(DownloadItem::new("http://x/a.mp3 /tmp/a \"open").is_none());
}

#[test]
fn same_uri_compares_addresses_only() {
    let a = item("http://x/a.mp3 /tmp/a.mp3");
    let b = item("http://x/a.mp3 /elsewhere/a.mp3");
    let c = item("http://x/c.mp3 /tmp/a.mp3");
    assert!(a.same_uri(&b));
    assert!(!a.same_uri(&c));
}

#[test]
fn clone_keeps_both_fields() {
    let a = item("http://x/a.mp3 \"/tmp/out dir/a.mp3\"");
    let b = a.clone();
    assert_eq!(a, b);
    assert_eq!(b.uri(), "http://x/a.mp3");
    assert_eq!(b.path(), "/tmp/out dir/a.mp3");
}

#[test]
fn lines_of_text() {
    assert_eq!(split_lines(""), Vec::<String>::new());
    assert_eq!(split_lines("a"), vec!["a"]);
    assert_eq!(split_lines("a\n"), vec!["a"]);
    assert_eq!(split_lines("a\nb"), vec!["a", "b"]);
    assert_eq!(split_lines("a\nb\n"), vec!["a", "b"]);
    assert_eq!(split_lines("\n"), vec![""]);
    assert_eq!(split_lines("\n\n"), vec!["", ""]);
    assert_eq!(split_lines("a\n\nb\n"), vec!["a", "", "b"]);
    assert_eq!(split_lines("\na"), vec!["", "a"]);
}

#[test]
fn lines_agree_with_std_where_no_carriage_return_occurs() {
    for text in ["", "a", "a\n", "\n", "\n\n\n", "a b\nc d\n\ne", "x\n \n y \n", "ä\nö\n"] {
        let expected: Vec<String> = text.lines().map(|l| l.to_string()).collect();
        assert_eq!(split_lines(text), expected, "text {:?}", text);
    }
}

#[test]
fn carriage_return_belongs_to_its_line() {
    assert_eq!(split_lines("a\r\nb\r\n"), vec!["a\r", "b\r"]);
}

#[test]
fn items_in_file_order() {
    let content = "http://x/1 /tmp/1\nhttp://x/2 \"/tmp/two words\"\nhttp://x/3 /tmp/3\n";
    assert_eq!(
        pairs(content),
        vec![
            pair("http://x/1", "/tmp/1"),
            pair("http://x/2", "/tmp/two words"),
            pair("http://x/3", "/tmp/3"),
        ]
    );
}

#[test]
fn items_skip_lines_without_entry() {
    let content = "justonetoken\nhttp://x/1 /tmp/1\n\n\"open quote\nhttp://x/2 /tmp/2";
    assert_eq!(
        pairs(content),
        vec![pair("http://x/1", "/tmp/1"), pair("http://x/2", "/tmp/2")]
    );
}

#[test]
fn items_of_empty_file() {
    assert!(queue_items("").is_empty());
    assert!(queue_items("\n\n").is_empty());
}

#[test]
fn remove_the_only_entry() {
    let content = "http://x/a.mp3 /tmp/a.mp3\n";
    let out = queue_without(content, &item("http://x/a.mp3 /tmp/a.mp3"));
    assert_eq!(out, "\n");
    assert!(queue_items(&out).is_empty());
}

#[test]
fn remove_keeps_other_lines_verbatim() {
    let content = "http://x/1   /tmp/1\nhttp://x/2 \"/tmp/two words\" extra\nhttp://x/3 /tmp/3\n";
    let out = queue_without(content, &item("http://x/1 /tmp/1"));
    assert_eq!(out, "http://x/2 \"/tmp/two words\" extra\nhttp://x/3 /tmp/3\n");
}

#[test]
fn remove_matches_by_address_not_by_destination() {
    let content = "http://x/1 /tmp/1\nhttp://x/2 /tmp/2\n";
    let out = queue_without(content, &item("http://x/2 /somewhere/else"));
    assert_eq!(out, "http://x/1 /tmp/1\n");
}

#[test]
fn remove_absent_uri_keeps_entries() {
    let content = "http://x/1 /tmp/1\njustonetoken\nhttp://x/2 \"/tmp/two words\"";
    let out = queue_without(content, &item("http://x/absent /tmp/none"));
    assert_eq!(out, "http://x/1 /tmp/1\njustonetoken\nhttp://x/2 \"/tmp/two words\"\n");
    assert_eq!(pairs(&out), pairs(content));
    let again = queue_without(&out, &item("http://x/absent /tmp/none"));
    assert_eq!(again, out);
}

#[test]
fn remove_drops_every_line_with_the_address() {
    let content = "http://x/1 /tmp/1\nhttp://x/2 /tmp/2\nhttp://x/1 /tmp/other\n";
    let out = queue_without(content, &item("http://x/1 /tmp/1"));
    assert_eq!(out, "http://x/2 /tmp/2\n");
    assert!(queue_items(&out).iter().all(|i| i.uri() != "http://x/1"));
    assert!(split_lines(&out)
        .iter()
        .all(|l| DownloadItem::new(l).map(|i| i.uri() != "http://x/1").unwrap_or(true)));
}

#[test]
fn remove_from_empty_file_leaves_one_newline() {
    let out = queue_without("", &item("http://x/1 /tmp/1"));
    assert_eq!(out, "\n");
}

#[test]
fn remove_adds_the_missing_final_newline() {
    let out = queue_without("http://x/1 /tmp/1", &item("http://x/2 /tmp/2"));
    assert_eq!(out, "http://x/1 /tmp/1\n");
}

#[test]
fn remove_keeps_empty_lines() {
    let out = queue_without("\nhttp://x/1 /tmp/1\n\n", &item("http://x/1 /tmp/1"));
    assert_eq!(out, "\n\n");
}

#[test]
fn fetched_entry_leaves_and_malformed_line_stays() {
    let content = "http://x/a.mp3 \"/tmp/out dir/a.mp3\"\njustonetoken\n";
    let items = queue_items(content);
    assert_eq!(items.len(), 1);
    assert_eq!(items[0].uri(), "http://x/a.mp3");
    assert_eq!(items[0].path(), "/tmp/out dir/a.mp3");
    let out = queue_without(content, &items[0]);
    assert_eq!(out, "justonetoken\n");
}

/// Every text of up to `longest` characters over `alphabet`.
fn texts(alphabet: &[char], longest: usize) -> Vec<String> {
    let mut all: Vec<String> = vec![String::new()];
    let mut start = 0;
    for _ in 0..longest {
        let end = all.len();
        for k in start..end {
            for c in alphabet {
                let mut longer = all[k].clone();
                longer.push(*c);
                all.push(longer);
            }
        }
        start = end;
    }
    all
}

#[test]
fn lines_agree_with_std_on_every_short_text() {
    for text in texts(&['a', ' ', '\n'], 8) {
        let expected: Vec<String> = text.lines().map(|l| l.to_string()).collect();
        assert_eq!(split_lines(&text), expected, "text {:?}", text);
    }
}

#[test]
fn removal_agrees_with_filtering_the_lines() {
    let gone = item("a a");
    for text in texts(&['a', 'b', ' ', '"', '\n'], 6) {
        let kept: Vec<&str> = text
            .lines()
            .filter(|l| DownloadItem::new(l).map(|i| !i.same_uri(&gone)).unwrap_or(true))
            .collect();
        let expected = kept.join("\n") + "\n";
        assert_eq!(queue_without(&text, &gone), expected, "text {:?}", text);
    }
}

#[test]
fn removal_twice_is_removal_once() {
    let gone = item("a a");
    for text in texts(&['a', 'b', ' ', '\n'], 7) {
        let once = queue_without(&text, &gone);
        assert_eq!(queue_without(&once, &gone), once, "text {:?}", text);
        assert!(queue_items(&once).iter().all(|i| !i.same_uri(&gone)));
    }
}
