use clickcheck::cli::{
    parse_datetime, password_prompt, resolve_profile, datetime_from, ConnectArgs, ErrorFilterArgs,
    QueriesFilterArgs,
};
use clickcheck::model::{ContextProfile, ErrorsFilter, Password, QueriesFilter};
use clickcheck::timestamp::{TimeSpan, Timestamp};

const BAD_DATETIME: &str =
    "Invalid datetime format. Use RFC3339 (e.g. 2024-05-01T10:30:00Z) or YYYY-MM-DD.";

/// Fails unless the two are equal. For values that hold a password and so
/// cannot be printed.
fn agree<T: PartialEq>(left: T, right: T) {
    assert!(left == right);
}

fn nothing_given() -> ConnectArgs {
    ConnectArgs {
        urls: Vec::new(),
        user: None,
        password: None,
        interactive_password: false,
        accept_invalid_certificate: None,
    }
}

fn stored_profile() -> ContextProfile {
    ContextProfile {
        user: "stored".to_string(),
        password: Password::new("secret".to_string()),
        urls: vec!["http://stored:8123".to_string()],
        accept_invalid_certificate: false,
    }
}

#[test]
fn a_timestamp_in_rfc3339_is_read_as_its_instant() {
    assert_eq!(
        parse_datetime("2024-05-04T15:00:00Z"),
        Ok(Timestamp::from_unix_seconds(1_714_834_800))
    );
    assert_eq!(
        parse_datetime("2024-05-04T15:00:00+02:00"),
        Ok(Timestamp::from_unix_seconds(1_714_827_600))
    );
    assert_eq!(
        parse_datetime("1970-01-01T00:00:00.000000001Z"),
        Ok(Timestamp { unix_nanos: 1 })
    );
}

#[test]
fn a_date_is_read_as_midnight_utc() {
    assert_eq!(parse_datetime("2024-05-04"), Ok(Timestamp::from_unix_seconds(1_714_780_800)));
    assert_eq!(parse_datetime("1970-01-01"), Ok(Timestamp::from_unix_seconds(0)));
    assert_eq!(parse_datetime("1969-12-31"), Ok(Timestamp::from_unix_seconds(-86_400)));
    assert_eq!(parse_datetime("2000-02-29"), Ok(Timestamp::from_unix_seconds(951_782_400)));
}

#[test]
fn a_date_is_read_as_the_time_crate_reads_it() {
    for text in ["0001-01-01", "1999-12-31", "2038-01-19", "9999-12-31"] {
        let description = time::format_description::parse_borrowed::<1>("[year]-[month]-[day]").unwrap();
        let date = time::Date::parse(text, &description).unwrap();
        let expected = date.with_time(time::Time::MIDNIGHT).assume_utc().unix_timestamp_nanos();
        assert_eq!(parse_datetime(text), Ok(Timestamp { unix_nanos: expected }));
    }
}

#[test]
fn what_is_neither_timestamp_nor_date_is_refused() {
    for text in ["", "yesterday", "2024-13-01", "2024-02-30", "2024-05-04 15:00:00", "04.05.2024"] {
        assert_eq!(parse_datetime(text), Err(BAD_DATETIME.to_string()));
    }
}

#[test]
fn datetime_from_prefers_the_instant_to_the_day() {
    assert_eq!(datetime_from(Some(5), Some(2_440_589)), Ok(Timestamp { unix_nanos: 5 }));
    assert_eq!(datetime_from(None, Some(2_440_589)), Ok(Timestamp::from_unix_seconds(86_400)));
    assert_eq!(datetime_from(None, Some(2_440_587)), Ok(Timestamp::from_unix_seconds(-86_400)));
    assert_eq!(datetime_from(None, None), Err(BAD_DATETIME.to_string()));
    assert_eq!(Timestamp::at_midnight_of(2_451_545), Timestamp::from_unix_seconds(946_684_800));
    assert_eq!(
        Timestamp::at_midnight_of(i32::MIN).unix_nanos,
        (i32::MIN as i128 - 2_440_588) * 86_400_000_000_000
    );
}

#[test]
fn the_command_line_replaces_what_the_profile_says() {
    let cli = ConnectArgs {
        urls: vec!["http://cli:8123".to_string()],
        user: Some("cli".to_string()),
        password: Some(Password::new("typed".to_string())),
        interactive_password: false,
        accept_invalid_certificate: Some(false),
    };
    agree(
        resolve_profile(cli, Some(stored_profile())),
        Ok(ContextProfile {
            user: "cli".to_string(),
            password: Password::new("typed".to_string()),
            urls: vec!["http://cli:8123".to_string()],
            accept_invalid_certificate: true,
        })
    );
}

#[test]
fn a_profile_is_kept_where_the_command_line_is_silent() {
    agree(resolve_profile(nothing_given(), Some(stored_profile())), Ok(stored_profile()));
    let trusting = ContextProfile { accept_invalid_certificate: true, ..stored_profile() };
    agree(resolve_profile(nothing_given(), Some(trusting.clone())), Ok(trusting));
    let user_only = ConnectArgs { user: Some("other".to_string()), ..nothing_given() };
    agree(
        resolve_profile(user_only, Some(stored_profile())),
        Ok(ContextProfile { user: "other".to_string(), ..stored_profile() })
    );
}

#[test]
fn without_a_profile_the_command_line_names_nodes_and_user() {
    agree(
        resolve_profile(nothing_given(), None),
        Err("missing `--url`: supply at least one URL or set a context".to_string())
    );
    let user_only = ConnectArgs { user: Some("u".to_string()), ..nothing_given() };
    agree(
        resolve_profile(user_only, None),
        Err("missing `--url`: supply at least one URL or set a context".to_string())
    );
    let urls_only = ConnectArgs { urls: vec!["http://n:8123".to_string()], ..nothing_given() };
    agree(
        resolve_profile(urls_only.clone(), None),
        Err("missing `--user`: supply it or set a context".to_string())
    );
    let enough = ConnectArgs { user: Some("u".to_string()), ..urls_only.clone() };
    agree(
        resolve_profile(enough, None),
        Ok(ContextProfile {
            user: "u".to_string(),
            password: Password::new(String::new()),
            urls: vec!["http://n:8123".to_string()],
            accept_invalid_certificate: false,
        })
    );
    let all = ConnectArgs {
        user: Some("u".to_string()),
        password: Some(Password::new("p".to_string())),
        accept_invalid_certificate: Some(true),
        ..urls_only
    };
    agree(
        resolve_profile(all, None),
        Ok(ContextProfile {
            user: "u".to_string(),
            password: Password::new("p".to_string()),
            urls: vec!["http://n:8123".to_string()],
            accept_invalid_certificate: true,
        })
    );
}

#[test]
fn the_prompt_names_the_user() {
    assert_eq!(password_prompt("default"), "ClickHouse default password: ");
    assert_eq!(password_prompt(""), "ClickHouse  password: ");
}

#[test]
fn arguments_become_filters_field_by_field() {
    let args = QueriesFilterArgs {
        from: Some(Timestamp::from_unix_seconds(1)),
        to: Some(Timestamp::from_unix_seconds(2)),
        last: Some(TimeSpan::from_secs(3)),
        query_user: vec!["u".to_string()],
        database: vec!["d".to_string()],
        table: vec!["t".to_string()],
        min_query_duration: Some(TimeSpan::from_millis(4)),
        min_read_rows: Some(5),
        min_read_data: Some(6),
    };
    assert_eq!(
        QueriesFilter::from(args),
        QueriesFilter {
            from: Some(Timestamp::from_unix_seconds(1)),
            to: Some(Timestamp::from_unix_seconds(2)),
            last: Some(TimeSpan::from_secs(3)),
            users: vec!["u".to_string()],
            databases: vec!["d".to_string()],
            tables: vec!["t".to_string()],
            min_query_duration: Some(TimeSpan::from_millis(4)),
            min_read_rows: Some(5),
            min_read_data: Some(6),
        }
    );
    let errors = ErrorFilterArgs { last: None, min_count: Some(2), code: vec![1, 2] };
    assert_eq!(
        ErrorsFilter::from(errors),
        ErrorsFilter { last: None, min_count: Some(2), code: vec![1, 2] }
    );
}
