use gateway_core::http_date::parse_http_date;

#[test]
fn known_dates() {
    assert_eq!(parse_http_date("Thu, 01 Jan 1970 00:00:00 GMT"), Some(0));
    assert_eq!(parse_http_date("Thu, 01 Jan 1970 00:00:01 GMT"), Some(1));
    assert_eq!(parse_http_date("Fri, 02 Jan 1970 00:00:00 GMT"), Some(86400));
    assert_eq!(parse_http_date("Sun, 06 Nov 1994 08:49:37 GMT"), Some(784111777));
    assert_eq!(parse_http_date("Sat, 01 Jan 2000 00:00:00 GMT"), Some(946684800));
    assert_eq!(parse_http_date("Tue, 29 Feb 2000 12:00:00 GMT"), Some(951825600));
    assert_eq!(parse_http_date("Wed, 01 Mar 2000 00:00:00 GMT"), Some(951868800));
    assert_eq!(parse_http_date("Thu, 29 Feb 2024 23:59:59 GMT"), Some(1709251199));
    assert_eq!(parse_http_date("Wed, 28 Oct 2026 20:12:00 GMT"), Some(1793218320));
    assert_eq!(parse_http_date("Tue, 19 Jan 2038 03:14:08 GMT"), Some(2147483648));
    assert_eq!(parse_http_date("Fri, 31 Dec 9999 23:59:59 GMT"), Some(253402300799));
}

#[test]
fn every_month_is_read() {
    let firsts = [
        ("Jan", 0u64), ("Feb", 31), ("Mar", 59), ("Apr", 90), ("May", 120), ("Jun", 151),
        ("Jul", 181), ("Aug", 212), ("Sep", 243), ("Oct", 273), ("Nov", 304), ("Dec", 334),
    ];
    for (name, days) in firsts {
        let text = format!("Mon, 01 {} 1971 00:00:00 GMT", name);
        assert_eq!(parse_http_date(&text), Some((365 + days) * 86400), "{}", text);
    }
}

#[test]
fn the_day_must_exist() {
    assert_eq!(parse_http_date("Mon, 00 Jan 2001 00:00:00 GMT"), None);
    assert_eq!(parse_http_date("Mon, 32 Jan 2001 00:00:00 GMT"), None);
    assert_eq!(parse_http_date("Mon, 31 Apr 2001 00:00:00 GMT"), None);
    assert_eq!(parse_http_date("Mon, 29 Feb 2001 00:00:00 GMT"), None);
    assert_eq!(parse_http_date("Mon, 29 Feb 1900 00:00:00 GMT"), None);
    assert_eq!(parse_http_date("Mon, 29 Feb 2100 00:00:00 GMT"), None);
    assert!(parse_http_date("Mon, 29 Feb 2400 00:00:00 GMT").is_some());
    assert!(parse_http_date("Mon, 30 Apr 2001 00:00:00 GMT").is_some());
}

#[test]
fn the_time_must_exist() {
    assert_eq!(parse_http_date("Mon, 01 Jan 2001 24:00:00 GMT"), None);
    assert_eq!(parse_http_date("Mon, 01 Jan 2001 00:60:00 GMT"), None);
    assert_eq!(parse_http_date("Mon, 01 Jan 2001 00:00:61 GMT"), None);
    // a leap second is let through
    assert_eq!(parse_http_date("Mon, 01 Jan 2001 23:59:60 GMT"), Some(978393600));
}

#[test]
fn other_texts_are_no_dates() {
    for text in [
        "",
        "120",
        "Sun, 06 Nov 1994 08:49:37 UTC",
        "Sun, 06 Nov 1994 08:49:37 GMT ",
        "Sun, 6 Nov 1994 08:49:37 GMT",
        "Sun  06 Nov 1994 08:49:37 GMT",
        "Sun, 06 nov 1994 08:49:37 GMT",
        "Sun, 06 Nov 1994 08-49-37 GMT",
        "Sun, 06 Nov 1969 08:49:37 GMT",
        "Sun, 06 Nov 19x4 08:49:37 GMT",
        "Sun, 0x Nov 1994 08:49:37 GMT",
        "Xyz, 06 Nov 1994 08:49:37 GMT",
        "Sunday, 06-Nov-94 08:49:37 GMT",
        "Sun Nov  6 08:49:37 1994",
        "Sun, 06 Nov 1994 08:49:37 GM✅",
    ] {
        assert_eq!(parse_http_date(text), None, "{:?}", text);
    }
}

#[test]
fn the_day_of_the_week_is_not_checked() {
    assert_eq!(parse_http_date("Mon, 06 Nov 1994 08:49:37 GMT"), Some(784111777));
}
