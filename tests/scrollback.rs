use phantom::scrollback::ScrollbackBuffer;

#[test]
fn scrollback_empty() {
    let sb = ScrollbackBuffer::new(1024);
    assert!(sb.read_from_clean_point().is_empty());
}

#[test]
fn scrollback_small_write() {
    let mut sb = ScrollbackBuffer::new(1024);
    sb.append(b"hello world");
    let data = sb.read_from_clean_point();
    assert_eq!(data, b"hello world");
}

#[test]
fn scrollback_wraps_at_capacity() {
    let mut sb = ScrollbackBuffer::new(16);
    sb.append(b"AAAABBBBCCCCDDDDEEEE");
    let data = sb.read_from_clean_point();
    assert_eq!(data.len(), 16);
    assert_eq!(&data, b"BBBBCCCCDDDDEEEE");
}

#[test]
fn scrollback_bounded_under_sustained_output() {
    let capacity = 65536;
    let mut sb = ScrollbackBuffer::new(capacity);
    let chunk = vec![b'X'; 4096];
    for _ in 0..256 {
        sb.append(&chunk);
    }
    let data = sb.read_from_clean_point();
    assert_eq!(data.len(), capacity);
    assert!(data.iter().all(|&b| b == b'X'));
}

#[test]
fn scrollback_preserves_order_after_wrap() {
    let mut sb = ScrollbackBuffer::new(8);
    sb.append(b"12345678");
    let data = sb.read_from_clean_point();
    assert_eq!(&data, b"12345678");

    sb.append(b"ABCD");
    let data = sb.read_from_clean_point();
    assert_eq!(data.len(), 8);
    assert_eq!(&data, b"5678ABCD");
}

#[test]
fn scrollback_multiple_wraps() {
    let mut sb = ScrollbackBuffer::new(4);
    sb.append(b"AABB");
    sb.append(b"CCDD");
    sb.append(b"EE");
    let data = sb.read_from_clean_point();
    assert_eq!(data.len(), 4);
    assert_eq!(&data, b"DDEE");
}

#[test]
fn scrollback_single_byte_appends() {
    let mut sb = ScrollbackBuffer::new(8);
    for b in b"ABCDEFGHIJ" {
        sb.append(std::slice::from_ref(b));
    }
    let data = sb.read_from_clean_point();
    assert_eq!(data.len(), 8);
    assert_eq!(&data, b"CDEFGHIJ");
}

#[test]
fn scrollback_data_larger_than_capacity() {
    let mut sb = ScrollbackBuffer::new(4);
    sb.append(b"ABCDEFGH");
    let data = sb.read_from_clean_point();
    assert_eq!(data.len(), 4);
    assert_eq!(&data, b"EFGH");
}

#[test]
fn throughput_scrollback_append() {
    let capacity = 65536;
    let mut sb = ScrollbackBuffer::new(capacity);
    let chunk = vec![b'X'; 4096];
    let iterations = 10_000;

    let start = std::time::Instant::now();
    for _ in 0..iterations {
        sb.append(&chunk);
    }
    let elapsed = start.elapsed();
    let throughput_mb = (iterations as f64 * 4096.0) / elapsed.as_secs_f64() / 1_048_576.0;
    println!("scrollback append 4KB x {iterations}: {elapsed:?} ({throughput_mb:.1} MB/s)");
    assert!(throughput_mb > 500.0, "scrollback append throughput too low: {throughput_mb:.1} MB/s");
}

#[test]
fn throughput_scrollback_read() {
    let capacity = 65536;
    let mut sb = ScrollbackBuffer::new(capacity);
    sb.append(&vec![b'Y'; capacity]);

    let iterations = 10_000;
    let start = std::time::Instant::now();
    for _ in 0..iterations {
        let data = sb.read_from_clean_point();
        assert_eq!(data.len(), capacity);
    }
    let elapsed = start.elapsed();
    let throughput_mb = (iterations as f64 * capacity as f64) / elapsed.as_secs_f64() / 1_048_576.0;
    println!("scrollback read 64KB x {iterations}: {elapsed:?} ({throughput_mb:.1} MB/s)");
    assert!(throughput_mb > 1000.0, "scrollback read throughput too low: {throughput_mb:.1} MB/s");
}

// ── Further cases ───────────────────────────────────────────────────────

#[test]
fn scrollback_keeps_last_capacity_bytes_of_any_split() {
    let input: Vec<u8> = (0..200u32).map(|i| (i * 7 % 251) as u8).collect();
    for cap in [1usize, 3, 16, 64, 199, 200, 500] {
        for split in [1usize, 2, 5, 17, 64] {
            let mut sb = ScrollbackBuffer::new(cap);
            for chunk in input.chunks(split) {
                sb.append(chunk);
            }
            let keep = input.len().min(cap);
            assert_eq!(sb.read_from_clean_point(), input[input.len() - keep..].to_vec());
            assert_eq!(sb.len(), keep);
        }
    }
}

#[test]
fn scrollback_full_after_capacity_written() {
    let mut sb = ScrollbackBuffer::new(10);
    sb.append(b"abcd");
    assert_eq!(sb.len(), 4);
    sb.append(b"efghij");
    assert_eq!(sb.len(), 10);
    sb.append(b"k");
    assert_eq!(sb.len(), 10);
    assert_eq!(sb.read_from_clean_point(), b"bcdefghijk".to_vec());
}

#[test]
fn scrollback_zero_capacity_holds_nothing() {
    let mut sb = ScrollbackBuffer::new(0);
    sb.append(b"anything");
    assert!(sb.read_from_clean_point().is_empty());
    assert_eq!(sb.capacity(), 0);
}

#[test]
fn clean_point_follows_ground_state() {
    let mut sb = ScrollbackBuffer::new(64);
    sb.append(b"\x1b[");
    assert_eq!(sb.clean_point(), 0);
    sb.append(b"\x01\x02");
    assert_eq!(sb.clean_point(), 0);
    sb.append(b"ok");
    assert_eq!(sb.clean_point(), 6);
    sb.append(b"\x1b[31m");
    assert_eq!(sb.clean_point(), 11);
    sb.append(b"\x1b");
    assert_eq!(sb.clean_point(), 11);
}
