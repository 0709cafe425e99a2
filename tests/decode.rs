use parse_quote::{
    decimal_bytes, parse_capture, parse_digits, parse_header, parse_record, read_u32, reconcile,
    reorder_messages, ByteOrder, ContainerContext, ParseError, Precision, QuoteMessage, Record,
    ReorderBuffer, Stamp,
};

const FEB_16_2011: u32 = 1_297_814_400;

fn header(magic: [u8; 4], zone: u32) -> Vec<u8> {
    let mut v = magic.to_vec();
    v.extend_from_slice(&[2, 0, 4, 0]);
    v.extend_from_slice(&zone.to_le_bytes());
    v.extend_from_slice(&[0; 12]);
    v
}

fn le_header() -> Vec<u8> {
    header([0xD4, 0xC3, 0xB2, 0xA1], 0)
}

fn pairs(base: u32) -> Vec<u8> {
    let mut v = Vec::new();
    for i in 0..5 {
        v.extend_from_slice(format!("{:05}{:07}", base + i, 100 + i).as_bytes());
    }
    v
}

fn quote_body(marker: &[u8; 5], issue: &[u8; 12], accept: &[u8; 8], bid_base: u32) -> Vec<u8> {
    let mut v = vec![0u8; 4];
    v.extend_from_slice(&[0xEE; 42]);
    v.extend_from_slice(marker);
    v.extend_from_slice(issue);
    v.extend_from_slice(&[b'x'; 12]);
    v.extend_from_slice(&pairs(bid_base));
    v.extend_from_slice(&[b'x'; 7]);
    v.extend_from_slice(&pairs(bid_base + 10));
    v.extend_from_slice(&[b'x'; 50]);
    v.extend_from_slice(accept);
    v.push(0xFF);
    assert_eq!(v.len(), 261);
    v
}

fn record(secs: u32, sub: u32, body: &[u8]) -> Vec<u8> {
    let mut v = secs.to_le_bytes().to_vec();
    v.extend_from_slice(&sub.to_le_bytes());
    v.extend_from_slice(&(body.len() as u32 - 4).to_le_bytes());
    v.extend_from_slice(body);
    v
}

fn quote_record(secs: u32, accept: &[u8; 8], bid_base: u32) -> Vec<u8> {
    record(secs, 0, &quote_body(b"B6034", b"KR4101F30009", accept, bid_base))
}

fn line(m: &QuoteMessage) -> String {
    String::from_utf8(m.to_line()).unwrap()
}

#[test]
fn header_magic_numbers() {
    let cases = [
        ([0xD4, 0xC3, 0xB2, 0xA1], ByteOrder::LittleEndian, Precision::Microsecond),
        ([0xA1, 0xB2, 0xC3, 0xD4], ByteOrder::BigEndian, Precision::Microsecond),
        ([0x4D, 0x3C, 0xB2, 0xA1], ByteOrder::LittleEndian, Precision::Nanosecond),
        ([0xA1, 0xB2, 0x3C, 0x4D], ByteOrder::BigEndian, Precision::Nanosecond),
    ];
    for (magic, order, precision) in cases {
        let mut h = magic.to_vec();
        h.extend_from_slice(&[0, 0, 0, 0, 0, 0, 0x0E, 0x10]);
        let ctx = parse_header(&h).unwrap();
        assert_eq!(ctx.order, order);
        assert_eq!(ctx.precision, precision);
        let zone = match order {
            ByteOrder::LittleEndian => 0x100E_0000,
            ByteOrder::BigEndian => 0x0E10,
        };
        assert_eq!(ctx.utc_offset, zone);
    }
}

#[test]
fn header_errors() {
    assert_eq!(parse_header(&[1, 2, 3, 4, 5, 6, 7, 8, 9, 10, 11, 12]), Err(ParseError::InvalidContainerFormat));
    assert_eq!(parse_header(&[0xD4, 0xC3]), Err(ParseError::Truncated));
    assert_eq!(parse_header(&[0xD4, 0xC3, 0xB2, 0xA1, 0, 0]), Err(ParseError::Truncated));
    let (msgs, err) = parse_capture(&[0, 0, 0, 0, 0, 0, 0, 0, 0, 0, 0, 0]);
    assert!(msgs.is_empty());
    assert_eq!(err, Some(ParseError::InvalidContainerFormat));
}

#[test]
fn read_u32_both_orders() {
    let b = [0x12, 0x34, 0x56, 0x78, 0x9A];
    assert_eq!(read_u32(&b, 0, ByteOrder::LittleEndian), 0x7856_3412);
    assert_eq!(read_u32(&b, 1, ByteOrder::BigEndian), 0x3456_789A);
}

#[test]
fn digits_and_decimal() {
    assert_eq!(parse_digits(b"0012345", 0, 7), Some(12345));
    assert_eq!(parse_digits(b"ab99", 2, 2), Some(99));
    assert_eq!(parse_digits(b"12a45", 0, 5), None);
    assert_eq!(parse_digits(b"+1234", 0, 5), None);
    assert_eq!(decimal_bytes(0), b"0".to_vec());
    assert_eq!(decimal_bytes(1_234_567), b"1234567".to_vec());
    assert_eq!(decimal_bytes(u32::MAX), b"4294967295".to_vec());
}

#[test]
fn one_quote_decoded_and_formatted() {
    let mut data = le_header();
    data.extend(quote_record(FEB_16_2011, b"085959x9", 1000));
    let (msgs, err) = parse_capture(&data);
    assert_eq!(err, None);
    assert_eq!(msgs.len(), 1);
    let m = &msgs[0];
    assert_eq!(m.bids.len(), 5);
    assert_eq!(m.asks.len(), 5);
    assert_eq!(m.bids[0], (1000, 100));
    assert_eq!(m.asks[4], (1014, 104));
    assert_eq!(m.issue_code, b"KR4101F30009".to_vec());
    assert_eq!(m.capture, Stamp { secs: FEB_16_2011 as i64, nanos: 0 });
    assert_eq!(m.accept, Stamp { secs: FEB_16_2011 as i64 - 1, nanos: 900_000_000 });
    assert_eq!(
        line(m),
        "2011-02-16 00:00:00 2011-02-15 23:59:59.900 KR4101F30009 \
         1004@104 1003@103 1002@102 1001@101 1000@100 \
         1010@100 1011@101 1012@102 1013@103 1014@104"
    );
}

#[test]
fn day_boundary_accept_time_goes_back() {
    // 08:59:59.9 at UTC+9 is 23:59:59.9 UTC of the day before the capture.
    let mut data = le_header();
    data.extend(quote_record(FEB_16_2011, b"085959 9", 1));
    let (msgs, _) = parse_capture(&data);
    assert!(line(&msgs[0]).starts_with("2011-02-16 00:00:00 2011-02-15 23:59:59.900 "));
    // 23:59:59.9 at UTC+9 is 14:59:59.9 UTC.
    let mut data = le_header();
    data.extend(quote_record(FEB_16_2011, b"235959 9", 1));
    let (msgs, _) = parse_capture(&data);
    assert!(line(&msgs[0]).starts_with("2011-02-16 00:00:00 2011-02-15 14:59:59.900 "));
}

#[test]
fn reconcile_values() {
    // Capture at 10:00:00 UTC (19:00:00 exchange time), accepted two seconds earlier.
    let c = FEB_16_2011 + 36_000;
    assert_eq!(reconcile(c, 18 * 3600 + 59 * 60 + 58), c as i64 - 2);
    assert_eq!(reconcile(c, 19 * 3600 + 3), c as i64 + 3);
    assert_eq!(reconcile(FEB_16_2011, 8 * 3600 + 59 * 60 + 59), FEB_16_2011 as i64 - 1);
    assert_eq!(reconcile(FEB_16_2011 + 86_399, 9 * 3600 + 1), FEB_16_2011 as i64 + 86_401);
    assert_eq!(reconcile(0, 9 * 3600), 0);
}

#[test]
fn wrong_size_record_is_skipped() {
    let mut data = le_header();
    data.extend(record(FEB_16_2011, 0, &[7u8; 100]));
    data.extend(quote_record(FEB_16_2011 + 1, b"090001 0", 2000));
    let (msgs, err) = parse_capture(&data);
    assert_eq!(err, None);
    assert_eq!(msgs.len(), 1);
    assert_eq!(msgs[0].bids[0], (2000, 100));
    let ctx = parse_header(&data).unwrap();
    let (rec, next) = parse_record(&data, 24, &ctx).unwrap();
    assert!(matches!(rec, Record::Skipped));
    assert_eq!(next, 24 + 12 + 100);
}

#[test]
fn wrong_marker_record_is_skipped() {
    let mut data = le_header();
    data.extend(record(FEB_16_2011, 0, &quote_body(b"B6035", b"KR4101F30009", b"09000x0x", 1)));
    data.extend(quote_record(FEB_16_2011 + 1, b"090001 0", 3000));
    let (msgs, err) = parse_capture(&data);
    assert_eq!(err, None);
    assert_eq!(msgs.len(), 1);
    assert_eq!(msgs[0].bids[0], (3000, 100));
}

#[test]
fn malformed_field_stops_after_earlier_messages() {
    let mut data = le_header();
    data.extend(quote_record(FEB_16_2011, b"090000 0", 1));
    let mut bad = quote_body(b"B6034", b"KR4101F30009", b"090000 0", 1);
    bad[80] = b'z';
    data.extend(record(FEB_16_2011, 0, &bad));
    data.extend(quote_record(FEB_16_2011, b"090000 0", 1));
    let (msgs, err) = parse_capture(&data);
    assert_eq!(msgs.len(), 1);
    assert_eq!(err, Some(ParseError::MalformedField));
    let mut data = le_header();
    data.extend(record(FEB_16_2011, 0, &quote_body(b"B6034", b"KR4101F3000\xC3", b"090000 0", 1)));
    assert_eq!(parse_capture(&data).1, Some(ParseError::MalformedField));
    let mut data = le_header();
    data.extend(quote_record(FEB_16_2011, b"0900a0 0", 1));
    assert_eq!(parse_capture(&data).1, Some(ParseError::MalformedField));
}

#[test]
fn truncated_and_end_of_stream() {
    let mut data = le_header();
    data.extend(quote_record(FEB_16_2011, b"090000 0", 1));
    let full = data.len();
    data.extend([1, 2]);
    let (msgs, err) = parse_capture(&data);
    assert_eq!((msgs.len(), err), (1, None));
    let mut cut = le_header();
    cut.extend(&quote_record(FEB_16_2011, b"090000 0", 1)[..200]);
    assert_eq!(parse_capture(&cut).1, Some(ParseError::Truncated));
    let ctx = parse_header(&data).unwrap();
    let (rec, next) = parse_record(&data, full, &ctx).unwrap();
    assert!(matches!(rec, Record::EndOfStream));
    assert_eq!(next, full);
    assert_eq!(parse_capture(&le_header()[..20]), (vec![], None));
}

#[test]
fn invalid_capture_timestamp() {
    let mut data = header([0x4D, 0x3C, 0xB2, 0xA1], 0);
    data.extend(record(FEB_16_2011, 2_000_000_000, &[0u8; 20]));
    assert_eq!(parse_capture(&data).1, Some(ParseError::InvalidTimestamp));
    let mut data = le_header();
    data.extend(record(FEB_16_2011, 5_000_000, &[0u8; 20]));
    assert_eq!(parse_capture(&data).1, Some(ParseError::InvalidTimestamp));
}

#[test]
fn nanosecond_precision_and_zone() {
    let mut data = header([0x4D, 0x3C, 0xB2, 0xA1], 3600);
    data.extend(record(FEB_16_2011, 123_456_789, &quote_body(b"B6034", b"KR4101F30009", b"090000 5", 1)));
    let (msgs, err) = parse_capture(&data);
    assert_eq!(err, None);
    assert_eq!(msgs[0].capture, Stamp { secs: FEB_16_2011 as i64 + 3600, nanos: 123_456_789 });
    assert!(line(&msgs[0]).starts_with("2011-02-16 01:00:00.123456789 2011-02-16 00:00:00.500 "));
}

#[test]
fn parsing_twice_gives_the_same_output() {
    let mut data = le_header();
    data.extend(quote_record(FEB_16_2011, b"090000 0", 1));
    data.extend(record(FEB_16_2011, 0, &[7u8; 30]));
    data.extend(quote_record(FEB_16_2011 + 1, b"090001 0", 2));
    assert_eq!(parse_capture(&data), parse_capture(&data));
}

fn stream() -> Vec<u8> {
    // Capture times rise; accept times lag by up to three seconds.
    let mut data = le_header();
    let accepts: [(u32, &[u8; 8]); 6] = [
        (10, b"090007 0"),
        (10, b"090009 5"),
        (11, b"090008 0"),
        (12, b"090011 0"),
        (15, b"090012 5"),
        (20, b"090019 0"),
    ];
    for (i, (secs, accept)) in accepts.iter().enumerate() {
        data.extend(quote_record(FEB_16_2011 + secs, accept, i as u32));
    }
    data
}

#[test]
fn reorder_output_sorted_permutation() {
    let (msgs, err) = parse_capture(&stream());
    assert_eq!(err, None);
    let plain: Vec<u32> = msgs.iter().map(|m| m.bids[0].0).collect();
    assert_eq!(plain, vec![0, 1, 2, 3, 4, 5]);
    let out = reorder_messages(msgs.clone());
    let order: Vec<u32> = out.iter().map(|m| m.bids[0].0).collect();
    assert_eq!(order, vec![0, 2, 1, 3, 4, 5]);
    for w in out.windows(2) {
        assert!(w[0].accept.nanos_since_epoch() <= w[1].accept.nanos_since_epoch());
    }
    for w in msgs.windows(2) {
        assert!(w[0].capture.nanos_since_epoch() <= w[1].capture.nanos_since_epoch());
    }
}

#[test]
fn reorder_buffer_releases_and_flushes() {
    let (msgs, _) = parse_capture(&stream());
    let mut buffer = ReorderBuffer::new();
    let mut released = Vec::new();
    let mut peak = 0;
    for m in msgs {
        released.extend(buffer.push(m).into_iter().map(|m| m.bids[0].0));
        peak = peak.max(buffer.len());
    }
    // At most two accept times ever lie within three seconds of the latest capture.
    assert_eq!(released, vec![0, 2, 1, 3, 4]);
    assert_eq!(buffer.len(), 1);
    assert_eq!(peak, 2);
    let rest: Vec<u32> = buffer.finish().into_iter().map(|m| m.bids[0].0).collect();
    assert_eq!(rest, vec![5]);
}

#[test]
fn flush_in_accept_order() {
    let (msgs, _) = parse_capture(&stream());
    let mut buffer = ReorderBuffer::new();
    for m in msgs.into_iter().skip(1).take(2) {
        assert!(buffer.push(m).is_empty());
    }
    let rest: Vec<u32> = buffer.finish().into_iter().map(|m| m.bids[0].0).collect();
    assert_eq!(rest, vec![2, 1]);
    assert!(ReorderBuffer::new().finish().is_empty());
}

#[test]
fn big_endian_record() {
    let mut data = header([0xA1, 0xB2, 0xC3, 0xD4], 0);
    let body = quote_body(b"B6034", b"KR4101F30009", b"090000 0", 7);
    data.extend(FEB_16_2011.to_be_bytes());
    data.extend(0u32.to_be_bytes());
    data.extend(257u32.to_be_bytes());
    data.extend(body);
    let ctx: ContainerContext = parse_header(&data).unwrap();
    assert_eq!(ctx.order, ByteOrder::BigEndian);
    let (msgs, err) = parse_capture(&data);
    assert_eq!((msgs.len(), err), (1, None));
    assert_eq!(msgs[0].accept, Stamp { secs: FEB_16_2011 as i64, nanos: 0 });
}
