use miryam::news::{default_feeds, default_interval_mins, default_max_kb, NewsConfig, NewsConfigError, DEFAULT_FEED};

fn defaults() -> NewsConfig {
    NewsConfig {
        feeds: default_feeds(),
        interval_mins: default_interval_mins(),
        max_kb_per_feed: default_max_kb(),
        focus: None,
    }
}

#[test]
fn config_defaults() {
    let c = defaults();
    assert_eq!(c.feeds, vec!["https://www.nhk.or.jp/rss/news/cat0.xml"]);
    assert_eq!(c.feeds[0], DEFAULT_FEED);
    assert_eq!(c.interval_mins, 60);
    assert_eq!(c.max_kb_per_feed, 16);
    assert!(c.focus.is_none());
    assert!(c.validate().is_ok());
}

#[test]
fn config_validate_bounds() {
    let with = |f: &dyn Fn(&mut NewsConfig)| {
        let mut c = defaults();
        f(&mut c);
        c.validate()
    };
    assert_eq!(with(&|c| c.interval_mins = 14), Err(NewsConfigError::IntervalOutOfRange));
    assert!(with(&|c| c.interval_mins = 15).is_ok());
    assert_eq!(with(&|c| c.interval_mins = 1441), Err(NewsConfigError::IntervalOutOfRange));
    assert_eq!(with(&|c| c.max_kb_per_feed = 0), Err(NewsConfigError::MaxKbOutOfRange));
    assert_eq!(with(&|c| c.max_kb_per_feed = 65), Err(NewsConfigError::MaxKbOutOfRange));
    assert_eq!(with(&|c| c.feeds = vec![]), Err(NewsConfigError::NoFeeds));
    assert_eq!(with(&|c| c.feeds = vec!["ftp://example.com/a".into()]), Err(NewsConfigError::BadFeedUrl(0)));
    assert!(with(&|c| c.feeds = vec!["https://example.com/rss".into(), "http://例.jp/x".into()]).is_ok());
    assert_eq!(
        with(&|c| c.feeds = vec!["https://example.com/rss".into(), "例".into()]),
        Err(NewsConfigError::BadFeedUrl(1))
    );
    assert_eq!(with(&|c| c.focus = Some(String::new())), Err(NewsConfigError::EmptyFocus));
    assert!(with(&|c| c.focus = Some("テック中心".into())).is_ok());
}
