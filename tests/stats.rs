use feed_stats::error::StatsError;
use feed_stats::response::stats_from_response;
use feed_stats::stats::{
    column_amounts, largest_meal, n_feeds_today, stats_from_csv, total_today, Stats,
};
use feed_stats::table::{parse_table, ColumnKind};

fn stats(text: &str) -> Result<Stats, StatsError> {
    stats_from_csv(text.as_bytes())
}

#[test]
fn three_rows_one_undated() {
    let text = "Dato,Flaske\n2024-01-01,100\n2024-01-02,250\n,75\n";
    assert_eq!(
        stats(text),
        Ok(Stats { total_today: 425, n_feeds_today: 2, largest_meal: 250 })
    );
}

#[test]
fn non_numeric_amount_is_parse_error() {
    assert_eq!(stats("Dato,Flaske\n2024-01-01,abc\n"), Err(StatsError::ParseError));
    assert_eq!(stats("Dato,Flaske\n2024-01-01,100\n2024-01-02,abc\n"), Err(StatsError::ParseError));
}

#[test]
fn not_found_is_fetch_error() {
    let body = "Dato,Flaske\n2024-01-01,100\n";
    let r = stats_from_response(404, body.as_bytes());
    assert_eq!(r, Err(StatsError::FetchError));
    assert_eq!(r.unwrap_err().http_status(), 502);
    // the body is not looked at: even a malformed one gives a fetch error
    assert_eq!(stats_from_response(500, b"\"open"), Err(StatsError::FetchError));
}

#[test]
fn success_status_reads_body() {
    let body = "Dato,Flaske\n2024-01-01,100\n";
    assert_eq!(
        stats_from_response(200, body.as_bytes()),
        Ok(Stats { total_today: 100, n_feeds_today: 1, largest_meal: 100 })
    );
    assert_eq!(
        stats_from_response(204, body.as_bytes()),
        Ok(Stats { total_today: 100, n_feeds_today: 1, largest_meal: 100 })
    );
    assert_eq!(stats_from_response(301, body.as_bytes()), Err(StatsError::FetchError));
    assert_eq!(stats_from_response(199, body.as_bytes()), Err(StatsError::FetchError));
}

#[test]
fn invalid_utf8_is_decode_error() {
    let body: Vec<u8> = vec![b'D', b'a', b't', b'o', b',', b'F', b'l', b'a', b's', b'k', b'e', b'\n', 0xff, b',', b'1', b'\n'];
    assert_eq!(stats_from_response(200, &body), Err(StatsError::DecodeError));
    assert_eq!(StatsError::DecodeError.http_status(), 502);
}

#[test]
fn full_column_sum_and_max() {
    let text = "Dato,Flaske\na,3\nb,-2\nc,7\nd,7\n";
    assert_eq!(
        stats(text),
        Ok(Stats { total_today: 15, n_feeds_today: 4, largest_meal: 7 })
    );
    assert_eq!(
        stats("Dato,Flaske\na,-5\nb,-9\n"),
        Ok(Stats { total_today: -14, n_feeds_today: 2, largest_meal: -5 })
    );
}

#[test]
fn feeds_do_not_depend_on_amounts() {
    let a = stats("Dato,Flaske\nx,1\n,2\ny,3\n").unwrap();
    let b = stats("Dato,Flaske\nx,90\n,\ny,-4\n").unwrap();
    assert_eq!(a.n_feeds_today, 2);
    assert_eq!(b.n_feeds_today, 2);
}

#[test]
fn same_text_same_result() {
    let text = "Dato,Flaske\n2024-01-01,100\n2024-01-02,250\n,75\n";
    assert_eq!(stats(text), stats(text));
    assert_eq!(stats("Dato\n"), stats("Dato\n"));
}

#[test]
fn header_only_has_no_largest_meal() {
    let text = "Dato,Flaske\n";
    assert_eq!(stats(text), Err(StatsError::AggregationError));
    let t = parse_table(text.as_bytes()).unwrap();
    assert_eq!(t.height(), 0);
    let f = t.column_index(b"Flaske").unwrap();
    let d = t.column_index(b"Dato").unwrap();
    assert_eq!(t.column_kind(f), ColumnKind::Integer);
    let vals = column_amounts(&t, f, ColumnKind::Integer).unwrap();
    assert_eq!(total_today(&vals), 0);
    assert_eq!(n_feeds_today(&t, d), 0);
    assert_eq!(largest_meal(&vals), Err(StatsError::AggregationError));
}

#[test]
fn empty_amounts_have_no_largest_meal() {
    let text = "Dato,Flaske\n2024-01-01,\n2024-01-02,\n";
    assert_eq!(stats(text), Err(StatsError::AggregationError));
    let t = parse_table(text.as_bytes()).unwrap();
    assert_eq!(t.column_kind(1), ColumnKind::Integer);
    let vals = column_amounts(&t, 1, ColumnKind::Integer).unwrap();
    assert_eq!(vals, vec![None, None]);
    assert_eq!(total_today(&vals), 0);
    assert_eq!(n_feeds_today(&t, 0), 2);
    assert_eq!(largest_meal(&vals), Err(StatsError::AggregationError));
    assert_eq!(StatsError::AggregationError.http_status(), 422);
}

#[test]
fn missing_column_is_schema_error() {
    assert_eq!(stats("Dato,Amount\na,1\n"), Err(StatsError::SchemaError));
    assert_eq!(stats("Date,Flaske\na,1\n"), Err(StatsError::SchemaError));
    assert_eq!(stats("dato,flaske\na,1\n"), Err(StatsError::SchemaError));
    assert_eq!(StatsError::SchemaError.http_status(), 422);
}

#[test]
fn columns_found_in_any_order() {
    assert_eq!(
        stats("Flaske,Note,Dato\n40,x,2024-01-01\n60,,\n"),
        Ok(Stats { total_today: 100, n_feeds_today: 1, largest_meal: 60 })
    );
}

#[test]
fn malformed_text_is_parse_error() {
    assert_eq!(stats(""), Err(StatsError::ParseError));
    assert_eq!(stats("Dato,Flaske\na,1,2\n"), Err(StatsError::ParseError));
    assert_eq!(stats("Dato,Flaske\na\n"), Err(StatsError::ParseError));
    assert_eq!(stats("Dato,Flaske,Dato\na,1,b\n"), Err(StatsError::ParseError));
    assert_eq!(stats("Dato,Flaske\n\"a,1\n"), Err(StatsError::ParseError));
    assert_eq!(stats("Dato,Flaske\n\"a\"x,1\n"), Err(StatsError::ParseError));
    assert_eq!(StatsError::ParseError.http_status(), 422);
}

#[test]
fn decimal_amounts_keep_integer_part() {
    assert_eq!(
        stats("Dato,Flaske\na,2.5\n"),
        Ok(Stats { total_today: 2, n_feeds_today: 1, largest_meal: 2 })
    );
    assert_eq!(
        stats("Dato,Flaske\na,3\nb,2.9\n,-1.5\nc,.5\n"),
        Ok(Stats { total_today: 4, n_feeds_today: 3, largest_meal: 3 })
    );
    assert_eq!(
        stats("Dato,Flaske\na,120.\nb,\n"),
        Ok(Stats { total_today: 120, n_feeds_today: 2, largest_meal: 120 })
    );
}

#[test]
fn text_amount_is_parse_error() {
    assert_eq!(stats("Dato,Flaske\na, 5\n"), Err(StatsError::ParseError));
    assert_eq!(stats("Dato,Flaske\na,1.5\nb,x\n"), Err(StatsError::ParseError));
}

#[test]
fn quoted_fields() {
    let text = "\"Dato\",\"Flaske\"\n\"1 \"\"Jan\"\", 2024\",\"120\"\n\"\",\"30\"\n";
    assert_eq!(
        stats(text),
        Ok(Stats { total_today: 150, n_feeds_today: 1, largest_meal: 120 })
    );
    let t = parse_table(text.as_bytes()).unwrap();
    assert_eq!(t.rows[0][0], b"1 \"Jan\", 2024".to_vec());
    assert_eq!(t.rows[1][0], Vec::<u8>::new());
}

#[test]
fn quoted_line_feed_stays_in_field() {
    let text = "Dato,Flaske\n\"two\nlines\",5\n";
    let t = parse_table(text.as_bytes()).unwrap();
    assert_eq!(t.height(), 1);
    assert_eq!(t.rows[0][0], b"two\nlines".to_vec());
    assert_eq!(
        stats(text),
        Ok(Stats { total_today: 5, n_feeds_today: 1, largest_meal: 5 })
    );
}

#[test]
fn crlf_and_blank_lines() {
    let text = "Dato,Flaske\r\n2024-01-01,100\r\n\r\n2024-01-02,50\r\n\n";
    assert_eq!(
        stats(text),
        Ok(Stats { total_today: 150, n_feeds_today: 2, largest_meal: 100 })
    );
}

#[test]
fn no_final_line_feed() {
    assert_eq!(
        stats("Dato,Flaske\na,8"),
        Ok(Stats { total_today: 8, n_feeds_today: 1, largest_meal: 8 })
    );
    assert_eq!(stats("Dato,Flaske\na,"), Err(StatsError::AggregationError));
}

#[test]
fn largest_amounts_are_summed_without_overflow() {
    let text = "Dato,Flaske\na,9223372036854775807\nb,9223372036854775807\n";
    assert_eq!(
        stats(text),
        Ok(Stats {
            total_today: 2 * (i64::MAX as i128),
            n_feeds_today: 2,
            largest_meal: i64::MAX,
        })
    );
    let low = "Dato,Flaske\na,-9223372036854775808\nb,-9223372036854775808\n";
    assert_eq!(
        stats(low),
        Ok(Stats { total_today: 2 * (i64::MIN as i128), n_feeds_today: 2, largest_meal: i64::MIN })
    );
}

#[test]
fn fetch_error_status() {
    assert_eq!(StatsError::FetchError.http_status(), 502);
}

#[test]
fn amount_beyond_i64_is_parse_error() {
    assert_eq!(stats("Dato,Flaske\na,9223372036854775808\n"), Err(StatsError::ParseError));
    assert_eq!(stats("Dato,Flaske\na,9223372036854775808.5\n"), Err(StatsError::ParseError));
    assert_eq!(
        stats("Dato,Flaske\na,9223372036854775807.9\n"),
        Ok(Stats { total_today: i64::MAX as i128, n_feeds_today: 1, largest_meal: i64::MAX })
    );
    // exponent notation is not a number, so the column is text
    assert_eq!(stats("Dato,Flaske\na,1e3\n"), Err(StatsError::ParseError));
}

#[test]
fn lone_carriage_return_is_parse_error() {
    assert_eq!(stats("Dato,Flaske\na,1\rb,2\n"), Err(StatsError::ParseError));
    assert_eq!(stats("Dato,Flaske\na,1\r"), Err(StatsError::ParseError));
}

#[test]
fn float_column_amounts() {
    let t = parse_table(b"Dato,Flaske\na,2.5\nb,\nc,-7\n").unwrap();
    assert_eq!(t.column_kind(1), ColumnKind::Float);
    let vals = column_amounts(&t, 1, ColumnKind::Float).unwrap();
    assert_eq!(vals, vec![Some(2), None, Some(-7)]);
    assert_eq!(total_today(&vals), -5);
    assert_eq!(largest_meal(&vals), Ok(2));
    assert_eq!(column_amounts(&t, 1, ColumnKind::Integer), Err(StatsError::ParseError));
}
