use monolith::timestamp::{date_of, rfc2822};

#[test]
fn rfc2822_dates() {
    assert_eq!(rfc2822(0), "Thu, 1 Jan 1970 00:00:00 +0000");
    assert_eq!(rfc2822(951782400), "Tue, 29 Feb 2000 00:00:00 +0000");
    assert_eq!(rfc2822(1700000000), "Tue, 14 Nov 2023 22:13:20 +0000");
    assert_eq!(rfc2822(4102444799), "Thu, 31 Dec 2099 23:59:59 +0000");
    assert_eq!(rfc2822(9999999999), "Sat, 20 Nov 2286 17:46:39 +0000");
}

#[test]
fn dates_of_days() {
    assert_eq!(date_of(0), (1970, 1, 1));
    assert_eq!(date_of(59), (1970, 3, 1));
    assert_eq!(date_of(365 + 365 + 59), (1972, 2, 29));
    assert_eq!(date_of(11016), (2000, 2, 29));
}
