use dps_meter::replay::{
    days_from_civil, decode_replay_hex, parse_replay_timestamp, read_replay, read_timestamp,
    replay_summary, Read,
};

#[test]
fn days_follow_the_calendar() {
    assert_eq!(days_from_civil(1970, 1, 1), 0);
    assert_eq!(days_from_civil(1969, 12, 31), -1);
    assert_eq!(days_from_civil(2000, 2, 29), 11_016);
    assert_eq!(days_from_civil(2000, 3, 1), 11_017);
    assert_eq!(days_from_civil(1900, 3, 1) - days_from_civil(1900, 2, 28), 1);
    assert_eq!(days_from_civil(2024, 3, 1) - days_from_civil(2024, 2, 28), 2);
    assert_eq!(days_from_civil(2026, 4, 1), 20_544);
    assert_eq!(days_from_civil(0, 3, 1), -719_468);
    assert_eq!(days_from_civil(-1, 3, 1), -719_834);
    assert_eq!(days_from_civil(2026, 13, 1), days_from_civil(2027, 1, 1));
}

#[test]
fn plain_milliseconds_are_taken_as_they_are() {
    assert_eq!(parse_replay_timestamp("1775063298447"), Some(1_775_063_298_447));
    assert_eq!(parse_replay_timestamp("+5"), Some(5));
    assert_eq!(parse_replay_timestamp("-5"), Some(-5));
    assert_eq!(parse_replay_timestamp("9223372036854775807"), Some(i64::MAX));
    assert_eq!(parse_replay_timestamp("9223372036854775808"), None);
    assert_eq!(parse_replay_timestamp(""), None);
    assert_eq!(parse_replay_timestamp("-"), None);
}

#[test]
fn dates_with_a_time_are_counted_from_1970() {
    assert_eq!(
        parse_replay_timestamp("2026-04-01T14:08:18.447814200-03:00"),
        Some(1_775_063_298_447)
    );
    assert_eq!(parse_replay_timestamp("2026-04-01T17:08:18.447Z"), Some(1_775_063_298_447));
    assert_eq!(parse_replay_timestamp("2026-04-01T17:08:18"), Some(1_775_063_298_000));
    assert_eq!(parse_replay_timestamp("2026-04-01T22:38:18.5+05:30"), Some(1_775_063_298_500));
    assert_eq!(parse_replay_timestamp("2026-04-01T22:38:18.05+05:30"), Some(1_775_063_298_050));
    assert_eq!(parse_replay_timestamp("1970-01-01T00:00:00ZZ"), Some(0));
    assert_eq!(parse_replay_timestamp("1970-01-01T01:00:00+1"), Some(0));
    assert_eq!(parse_replay_timestamp("1970-01-01T01:00:00+1:x"), Some(0));
}

#[test]
fn what_is_no_time_is_none() {
    for s in [
        "yesterday",
        "2026-04T14:08:18",
        "2026-04-01-02T14:08:18",
        "2026-x-01T14:08:18",
        "2026-04-01T14:08",
        "2026-04-01T14:08:x",
        "2026-04-01Tx:08:18",
        "2026-04-01T14:x:18",
        "2026-04-01T14:08:18.",
        "2026-04-01T14:08:18.abc",
        "2026-04-01T14:08:18+x",
        "2026-04-01 14:08:18",
    ] {
        assert_eq!(parse_replay_timestamp(s), None, "{}", s);
    }
}

#[test]
fn what_cannot_be_counted_is_unreadable() {
    assert_eq!(read_timestamp("9223372036854775807-04-01T14:08:18"), Read::Unreadable);
    assert_eq!(read_timestamp("2026-04-01T9223372036854775807:08:18"), Read::Unreadable);
    assert_eq!(read_timestamp("2026-04-01T14:08:18+9223372036854775807:00"), Read::Unreadable);
    assert_eq!(read_timestamp("2026-04-01T14:08:18.12éx"), Read::Unreadable);
    assert_eq!(read_timestamp("2026-04-01T14:08:18.123é"), Read::Value(1_775_052_498_123));
    assert_eq!(read_timestamp("2026-04-01T14:08:18.1é"), Read::Absent);
}

#[test]
fn bytes_are_read_from_hexadecimal_digits() {
    assert_eq!(decode_replay_hex("00fFAb"), Some(vec![0x00, 0xff, 0xab]));
    assert_eq!(decode_replay_hex(" 0 1\t0203\r\n"), Some(vec![1, 2, 3]));
    assert_eq!(decode_replay_hex(""), Some(vec![]));
    assert_eq!(decode_replay_hex("012"), None);
    assert_eq!(decode_replay_hex("0g"), None);
    assert_eq!(decode_replay_hex("g0"), None);
    assert_eq!(decode_replay_hex("0é"), None);
    let bytes: Vec<u8> = (0..=255).collect();
    let text: String = bytes.iter().map(|b| format!("{:02x}", b)).collect();
    assert_eq!(decode_replay_hex(&text), Some(bytes));
}

#[test]
fn a_recording_is_read_row_by_row() {
    let text = "\u{feff}# a remark\n\n  1000 | in | 0102 \r\nno fields\nx|y|ff\n2000|in|zz\n|in|03|04\n|in|05\n";
    let replay = read_replay(text);
    assert!(!replay.cut);
    let packets = replay.packets;
    let got: Vec<(Option<i64>, Vec<u8>)> =
        packets.into_iter().map(|p| (p.timestamp, p.data)).collect();
    assert_eq!(
        got,
        vec![(Some(1_000), vec![1, 2]), (Some(1_000), vec![0xff]), (Some(2_000), vec![5])]
    );
    assert_eq!(read_replay("a|b|00").packets[0].timestamp, None);
    assert!(read_replay("").packets.is_empty());
    let replay = read_replay("1|a|0a\n9223372036854775807-04-01T14:08:18|a|00\n2|a|00");
    assert!(replay.cut);
    assert_eq!(replay.packets.len(), 1);
    assert_eq!((replay.packets[0].timestamp, replay.packets[0].data.clone()), (Some(1), vec![10]));
}

#[test]
fn a_replay_ends_with_a_summary() {
    assert_eq!(replay_summary(12, 3), "Replay complete. 12 packets, 3 damage events.");
    assert_eq!(replay_summary(0, -1), "Replay complete. 0 packets, -1 damage events.");
}

#[test]
fn zones_shift_the_time() {
    for base in ["2026-04-01T17:08:18", "2026-04-01T17:08:18.4", "0099-13-32T24:61:61.0078"] {
        let v = parse_replay_timestamp(base).expect("a time");
        assert_eq!(parse_replay_timestamp(&format!("{}Z", base)), Some(v));
        for (hours, minutes) in [(0, 0), (5, 30), (99, 99)] {
            let shift = (60 * hours + minutes) * 60_000;
            let ahead = format!("{}+{:02}:{:02}", base, hours, minutes);
            let behind = format!("{}-{:02}:{:02}", base, hours, minutes);
            assert_eq!(parse_replay_timestamp(&ahead), Some(v - shift));
            assert_eq!(parse_replay_timestamp(&behind), Some(v + shift));
        }
    }
    assert_eq!(parse_replay_timestamp("1970-01-01T01:02:03.456"), Some(3_723_456));
}
