use skuld::count_bytes;
use skuld::count_repeated;
use skuld::display_width;
use skuld::fit_counts_to_termwidth;
use skuld::render_counts;
use skuld::scan_step;
use skuld::RenderLine;

#[test]
fn test_count_bytes() {
    let x = "foobar";
    let mut counts = [0u32; 256];
    count_bytes(x.as_bytes(), &mut counts);
    assert_eq!(counts['f' as usize], 1);
    assert_eq!(counts['o' as usize], 2);
    assert_eq!(counts['b' as usize], 1);
    assert_eq!(counts['a' as usize], 1);
    assert_eq!(counts['r' as usize], 1);
}

#[test]
fn test_fit_counts_to_termwidth() {
    let x = "foobar";
    let mut counts = [0u32; 256];
    count_bytes(x.as_bytes(), &mut counts);

    fit_counts_to_termwidth(&mut counts, 4);
    assert_eq!(counts['f' as usize], 2);
    assert_eq!(counts['o' as usize], 4);
    assert_eq!(counts['b' as usize], 2);
    assert_eq!(counts['a' as usize], 2);
    assert_eq!(counts['r' as usize], 2);
}

#[test]
fn count_bytes_in_two_parts_matches_concatenation() {
    let mut split = [0u32; 256];
    count_bytes("foo".as_bytes(), &mut split);
    count_bytes("bar".as_bytes(), &mut split);

    let mut whole = [0u32; 256];
    count_bytes("foobar".as_bytes(), &mut whole);

    assert_eq!(split, whole);
}

#[test]
fn count_bytes_on_empty_input_changes_nothing() {
    let mut counts = [0u32; 256];
    counts[7] = 3;
    count_bytes(&[], &mut counts);
    assert_eq!(counts[7], 3);
    let total: u64 = counts.iter().map(|&c| c as u64).sum();
    assert_eq!(total, 3);
}

#[test]
fn count_bytes_saturates_at_max() {
    let mut counts = [0u32; 256];
    counts[5] = u32::MAX - 1;
    count_bytes(&[5u8, 5u8, 5u8], &mut counts);
    assert_eq!(counts[5], u32::MAX);
}

#[test]
fn count_repeated_zero_passes_changes_nothing() {
    let mut counts = [0u32; 256];
    count_repeated("abc".as_bytes(), 0, &mut counts);
    assert_eq!(counts, [0u32; 256]);
}

#[test]
fn count_repeated_counts_each_pass() {
    let mut counts = [0u32; 256];
    count_repeated("foobar".as_bytes(), 3, &mut counts);
    assert_eq!(counts['o' as usize], 6);
    assert_eq!(counts['f' as usize], 3);
    assert_eq!(counts['x' as usize], 0);
}

#[test]
fn one_repeated_pass_matches_single_count() {
    let mut repeated = [0u32; 256];
    count_repeated("stream".as_bytes(), 1, &mut repeated);

    let mut single = [0u32; 256];
    count_bytes("stream".as_bytes(), &mut single);

    assert_eq!(repeated, single);
}

#[test]
fn scan_in_chunks_matches_full_load() {
    // The same bytes, once fed chunk by chunk as a stream scan would and
    // once counted from a single buffer.
    let data = "the quick brown fox jumps over the lazy dog".as_bytes();
    let chunk_len = 8;

    let mut scanned = [0u32; 256];
    let mut offset = 0;
    loop {
        let end = (offset + chunk_len).min(data.len());
        let mut buffer = [0u8; 8];
        let read_count = end - offset;
        buffer[..read_count].copy_from_slice(&data[offset..end]);
        let more = scan_step(&buffer, read_count, &mut scanned);
        assert_eq!(more, read_count == chunk_len);
        offset = end;
        if !more {
            break;
        }
    }

    let mut loaded = [0u32; 256];
    count_bytes(data, &mut loaded);

    assert_eq!(scanned, loaded);
}

#[test]
fn scan_step_counts_only_the_bytes_read() {
    let buffer = [b'a', b'b', b'c', b'd'];
    let mut counts = [0u32; 256];
    let more = scan_step(&buffer, 2, &mut counts);
    assert!(!more);
    assert_eq!(counts[b'a' as usize], 1);
    assert_eq!(counts[b'b' as usize], 1);
    assert_eq!(counts[b'c' as usize], 0);
    assert_eq!(counts[b'd' as usize], 0);
}

#[test]
fn scan_step_with_zero_read_reports_end() {
    let buffer = [0u8; 4];
    let mut counts = [0u32; 256];
    let more = scan_step(&buffer, 0, &mut counts);
    assert!(!more);
    assert_eq!(counts, [0u32; 256]);
}

#[test]
fn fit_leaves_all_zero_table_all_zero() {
    let mut counts = [0u32; 256];
    fit_counts_to_termwidth(&mut counts, 75);
    assert_eq!(counts, [0u32; 256]);
}

#[test]
fn fit_bounds_every_bucket_and_tops_the_maximum() {
    let mut counts = [0u32; 256];
    counts[10] = 17;
    counts[20] = 5;
    counts[30] = 1;
    let width = 40;
    fit_counts_to_termwidth(&mut counts, width);
    for &c in counts.iter() {
        assert!(c <= width);
    }
    assert_eq!(counts[10], width);
    assert_eq!(counts[20], 5 * width / 17);
    assert_eq!(counts[30], width / 17);
}

#[test]
fn fit_to_zero_width_flattens_the_table() {
    let mut counts = [0u32; 256];
    counts[1] = 9;
    counts[2] = 4;
    fit_counts_to_termwidth(&mut counts, 0);
    assert_eq!(counts, [0u32; 256]);
}

#[test]
fn fit_handles_counts_near_the_integer_limit() {
    let mut counts = [0u32; 256];
    counts[0] = u32::MAX;
    counts[1] = u32::MAX / 2;
    fit_counts_to_termwidth(&mut counts, 100);
    assert_eq!(counts[0], 100);
    assert_eq!(counts[1], 49);
}

#[test]
fn render_skips_zero_buckets_and_keeps_ascending_order() {
    let mut counts = [0u32; 256];
    counts[200] = 7;
    counts[2] = 3;
    let lines = render_counts(&counts);
    assert_eq!(
        lines,
        vec![
            RenderLine { byte: 2, bar: 3 },
            RenderLine { byte: 200, bar: 7 },
        ]
    );
}

#[test]
fn render_of_all_zero_table_is_empty() {
    let counts = [0u32; 256];
    let lines = render_counts(&counts);
    assert!(lines.is_empty());
}

#[test]
fn empty_input_yields_zero_table_and_no_lines() {
    // An empty file: whatever strategy reads it, the counter sees no bytes.
    let mut counts = [0u32; 256];
    count_repeated(&[], 5, &mut counts);
    assert_eq!(counts, [0u32; 256]);
    let more = scan_step(&[0u8; 8], 0, &mut counts);
    assert!(!more);
    assert_eq!(counts, [0u32; 256]);
    assert!(render_counts(&counts).is_empty());
}

#[test]
fn display_width_keeps_room_for_the_label() {
    assert_eq!(display_width(80), 75);
    assert_eq!(display_width(5), 0);
    assert_eq!(display_width(3), 0);
    assert_eq!(display_width(0), 0);
}
