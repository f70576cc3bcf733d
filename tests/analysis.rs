use ent::pretty::{pretty_ascii_table, pretty_size, FREQ_CHAR};
use ent::shannon::{Shannon, StreamAnalyzer, DEFAULT_CHUNK_SIZE};

fn analyze_blocks(blocks: &[&[u8]], chunk_size: Option<u32>) -> Shannon {
    let mut a = StreamAnalyzer::new("mem".to_string(), chunk_size);
    for b in blocks {
        a.feed(b);
    }
    a.finish()
}

#[test]
fn constant_len_9() {
    assert!(FREQ_CHAR.len() == 9);
}

#[test]
fn slice_test() {
    let values: &[u8] = &[7, 2, 3, 4, 5, 6, 7];
    let (a, b) = Shannon::read(values, "-".to_string()).byte_max();
    assert_eq!(a, 7);
    assert_eq!(b, 2);
}

#[test]
fn empty_input() {
    let s = Shannon::read(&[], "-".to_string());
    assert_eq!(s.filesize(), 0);
    assert!(s.freq_table().iter().all(|&c| c == 0));
    assert!(s.chunks().is_empty());
    assert_eq!(s.byte_min(), (0, 0));
    assert_eq!(s.byte_max(), (255, 0));
    assert_eq!(s.random_walk_steps(), 0);
    assert_eq!(s.filename(), "-");
}

#[test]
fn total_bytes_matches_input() {
    let data: Vec<u8> = (0..10240u32).map(|i| (i * 7 % 251) as u8).collect();
    let s = Shannon::read(&data, "x".to_string());
    assert_eq!(s.filesize(), 10240);
    assert_eq!(s.freq_table().iter().sum::<u64>(), 10240);
}

#[test]
fn single_repeated_value() {
    let data = vec![0x41u8; 1000];
    let s = Shannon::read(&data, "a".to_string());
    for (i, &c) in s.freq_table().iter().enumerate() {
        assert_eq!(c, if i == 0x41 { 1000 } else { 0 });
    }
    assert_eq!(s.byte_max(), (0x41, 1000));
    assert_eq!(s.byte_min(), (0, 0));
}

#[test]
fn uniform_counts() {
    let data: Vec<u8> = (0..512u32).map(|i| (i % 256) as u8).collect();
    let s = Shannon::read(&data, "u".to_string());
    assert!(s.freq_table().iter().all(|&c| c == 2));
    assert_eq!(s.byte_min(), (0, 2));
    assert_eq!(s.byte_max(), (255, 2));
    assert_eq!(s.random_walk_steps(), 0);
}

#[test]
fn min_count_not_above_max_count() {
    let data: &[u8] = &[1, 1, 1, 9, 9, 200];
    let s = Shannon::read(data, "m".to_string());
    assert!(s.byte_min().1 <= s.byte_max().1);
    assert_eq!(s.byte_max(), (1, 3));
    assert_eq!(s.byte_min(), (0, 0));
}

#[test]
fn ties_resolve_by_byte_value() {
    let data: Vec<u8> = (0..=255u8).chain(0..=255u8).chain([3u8, 5, 3, 5]).collect();
    let s = Shannon::read(&data, "t".to_string());
    assert_eq!(s.byte_max(), (5, 4));
    assert_eq!(s.byte_min(), (0, 2));
}

#[test]
fn random_walk_steps_counts_bits() {
    assert_eq!(Shannon::read(&[0xFF], "w".to_string()).random_walk_steps(), 8);
    assert_eq!(Shannon::read(&[0x00, 0x00], "w".to_string()).random_walk_steps(), -16);
    assert_eq!(Shannon::read(&[0x0F, 0xF0], "w".to_string()).random_walk_steps(), 0);
    assert_eq!(Shannon::read(&[0x07], "w".to_string()).random_walk_steps(), -2);
}

#[test]
fn chunks_cut_at_window_size() {
    let data: Vec<u8> = (0..10u8).collect();
    let s = analyze_blocks(&[&data[..3], &data[3..9], &data[9..]], Some(4));
    let sizes: Vec<u32> = s.chunks().iter().map(|c| c.size()).collect();
    assert_eq!(sizes, vec![4, 4, 2]);
    let last = s.chunks()[2].freq_table();
    assert_eq!(last[8], 1);
    assert_eq!(last[9], 1);
    assert_eq!(last.iter().sum::<u32>(), 2);
    assert_eq!(s.chunks()[0].freq_table()[3], 1);
    assert_eq!(s.chunks()[0].freq_table()[4], 0);
}

#[test]
fn block_size_does_not_matter() {
    let data: Vec<u8> = (0..5000u32).map(|i| (i * 31 % 97) as u8).collect();
    let whole = analyze_blocks(&[&data], Some(512));
    let pieces: Vec<&[u8]> = data.chunks(333).collect();
    let split = analyze_blocks(&pieces, Some(512));
    assert_eq!(whole.freq_table(), split.freq_table());
    assert_eq!(whole.chunks().len(), 10);
    assert_eq!(split.chunks().len(), 10);
    for (a, b) in whole.chunks().iter().zip(split.chunks().iter()) {
        assert_eq!(a.freq_table(), b.freq_table());
        assert_eq!(a.size(), b.size());
    }
}

#[test]
fn one_window_covering_everything() {
    let data: Vec<u8> = (0..300u32).map(|i| (i % 13) as u8).collect();
    let s = analyze_blocks(&[&data], Some(300));
    assert_eq!(s.chunks().len(), 1);
    let c = s.chunks()[0].freq_table();
    for i in 0..256 {
        assert_eq!(c[i] as u64, s.freq_table()[i]);
    }
}

#[test]
fn chunking_off_keeps_no_windows() {
    let s = analyze_blocks(&[&[1, 2, 3]], None);
    assert!(s.chunks().is_empty());
    assert_eq!(s.filesize(), 3);
}

#[test]
fn default_window_size() {
    let data = vec![9u8; DEFAULT_CHUNK_SIZE as usize + 1];
    let s = Shannon::read(&data, "d".to_string());
    let sizes: Vec<u32> = s.chunks().iter().map(|c| c.size()).collect();
    assert_eq!(sizes, vec![16384, 1]);
}

#[test]
fn pretty_size_units() {
    assert_eq!(pretty_size(0), "   0.0 B ");
    assert_eq!(pretty_size(999), " 999.0 B ");
    assert_eq!(pretty_size(1000), "   1.0 K ");
    assert_eq!(pretty_size(1234), "   1.2 K ");
    assert_eq!(pretty_size(1550), "   1.6 K ");
    assert_eq!(pretty_size(10240), "  10.2 K ");
    assert_eq!(pretty_size(999_960), "1000.0 K ");
    assert_eq!(pretty_size(5_000_000), "   5.0 M ");
    assert_eq!(pretty_size(u64::MAX), "  18.4 E ");
}

fn expected_table(glyphs: &[char; 256]) -> String {
    let mut s = String::from("   00 ");
    for (i, &c) in glyphs.iter().enumerate() {
        s.push(c);
        match i {
            0x1F => s.push_str("   20 "),
            0x3F => s.push_str("\n   40 "),
            0x5F => s.push_str("   60 "),
            0x7F => s.push_str("\n   80 "),
            0x9F => s.push_str("   A0 "),
            0xBF => s.push_str("\n   C0 "),
            0xDF => s.push_str("   E0 "),
            _ => {}
        }
    }
    s
}

#[test]
fn ascii_table_of_empty_table() {
    let t = [0u64; 256];
    assert_eq!(pretty_ascii_table(&t), expected_table(&[' '; 256]));
}

#[test]
fn ascii_table_levels() {
    let mut t = [0u64; 256];
    t[0] = 100;
    t[1] = 50;
    t[2] = 1;
    t[3] = 99;
    t[255] = 87;
    let mut g = [' '; 256];
    g[0] = '█';
    g[1] = '▅';
    g[2] = '▁';
    g[3] = '█';
    g[255] = '▇';
    assert_eq!(pretty_ascii_table(&t), expected_table(&g));
}
