use logindex::progress::{
    bar, format_bytes_parts, format_bytes_progress, format_count_commas, format_lines,
    indeterminate_bar, pad, percent, render_box, snapshot, u64_to_dec, Progress,
};
use logindex::source::SourceKind;

#[test]
fn percent_saturates() {
    assert_eq!(percent(0, 0), 0);
    assert_eq!(percent(5, 0), 0);
    assert_eq!(percent(50, 200), 25);
    assert_eq!(percent(100, 100), 100);
    assert_eq!(percent(150, 100), 100);
    assert_eq!(percent(u64::MAX, 1), 100);
    assert_eq!(percent(u64::MAX - 1, u64::MAX), 99);
}

#[test]
fn counters_accumulate() {
    let mut p = Progress::new([10, 20, 30], [1, 2, 3], true);
    p.add_parsed_bytes(SourceKind::ProviderA, 4);
    p.add_parsed_bytes(SourceKind::ProviderA, 6);
    p.add_parsed_bytes(SourceKind::ProviderBSession, 20);
    p.add_parsed_bytes(SourceKind::ProviderBHistory, 7);
    p.add_files_done(SourceKind::ProviderA, 1);
    p.add_produced(SourceKind::ProviderBSession, 5);
    p.add_indexed(SourceKind::ProviderBSession, 4);
    p.add_embed_total(SourceKind::ProviderA, 9);
    p.add_embed_pending(SourceKind::ProviderA, 3);
    p.sub_embed_pending(SourceKind::ProviderA, 2);
    p.add_embedded(SourceKind::ProviderA, 1);
    let s = snapshot(&p);
    assert_eq!(p.parsed_bytes.get(SourceKind::ProviderA), 10);
    assert_eq!(p.parsed_bytes.get(SourceKind::ProviderBSession), 20);
    assert_eq!(p.parsed_bytes.get(SourceKind::ProviderBHistory), 7);
    assert_eq!(s.provider_a.parsed, 10);
    assert_eq!(s.provider_a.total, 10);
    assert_eq!(s.provider_a.files_done, 1);
    assert_eq!(s.provider_a.files_total, 1);
    assert_eq!(s.provider_a.embed_total, 9);
    assert_eq!(s.provider_a.pending, 1);
    assert_eq!(s.provider_a.embedded, 1);
    assert_eq!(s.provider_b.parsed, 27);
    assert_eq!(s.provider_b.total, 50);
    assert_eq!(s.provider_b.files_total, 5);
    assert_eq!(s.provider_b.produced, 5);
    assert_eq!(s.provider_b.indexed, 4);
    assert!(s.provider_a.embeddings_enabled);
    assert!(!s.provider_a.embed_ready);
}

#[test]
fn flags_flip() {
    let mut p = Progress::new([0, 0, 0], [0, 0, 0], false);
    assert!(!p.done);
    assert!(!p.embed_ready);
    p.set_embed_ready();
    p.finish();
    assert!(p.done);
    assert!(p.embed_ready);
    let s = snapshot(&p);
    assert!(!s.provider_a.embeddings_enabled);
    assert!(s.provider_a.embed_ready);
}

#[test]
fn bar_fill_proportions() {
    assert_eq!(bar(0), "░".repeat(28));
    assert_eq!(bar(100), "━".repeat(28));
    let half = bar(50);
    let expected = format!("{}{}", "━".repeat(14), "░".repeat(14));
    assert_eq!(half, expected);
}

#[test]
fn indeterminate_bar_slides() {
    let t0 = indeterminate_bar(0);
    assert_eq!(t0, format!("{}{}", "━".repeat(6), "░".repeat(22)));
    let t22 = indeterminate_bar(22);
    assert_eq!(t22, format!("{}{}", "░".repeat(22), "━".repeat(6)));
    let wrapped = indeterminate_bar(23);
    assert_eq!(wrapped, t0);
}

#[test]
fn decimal_rendering() {
    assert_eq!(u64_to_dec(0), "0");
    assert_eq!(u64_to_dec(7), "7");
    assert_eq!(u64_to_dec(1234567890), "1234567890");
    assert_eq!(u64_to_dec(u64::MAX), u64::MAX.to_string());
}

#[test]
fn count_commas() {
    assert_eq!(format_count_commas(0), "0");
    assert_eq!(format_count_commas(999), "999");
    assert_eq!(format_count_commas(1000), "1,000");
    assert_eq!(format_count_commas(1234567), "1,234,567");
    assert_eq!(format_count_commas(1000001), "1,000,001");
    assert_eq!(format_count_commas(12003), "12,003");
}

#[test]
fn bytes_parts_scaling() {
    let (v, u) = format_bytes_parts(512);
    assert_eq!((v.as_str(), u), ("512", "B"));
    let (v, u) = format_bytes_parts(2048);
    assert_eq!((v.as_str(), u), ("2.0", "KB"));
    let (v, u) = format_bytes_parts(1536);
    assert_eq!((v.as_str(), u), ("1.5", "KB"));
    let (v, u) = format_bytes_parts(3 * 1024 * 1024 / 2);
    assert_eq!((v.as_str(), u), ("1.5", "MB"));
    let (v, u) = format_bytes_parts(1610612736);
    assert_eq!((v.as_str(), u), ("1.5", "GB"));
}

#[test]
fn bytes_progress_text() {
    assert_eq!(format_bytes_progress(0, 0), "0 B");
    assert_eq!(format_bytes_progress(100, 100), "100 B");
    assert_eq!(format_bytes_progress(150, 100), "100 B");
    assert_eq!(format_bytes_progress(1024, 2048), "1.0/2.0 KB");
    assert_eq!(format_bytes_progress(512, 2048), "512 B/2.0 KB");
}

#[test]
fn pad_clips_and_fills() {
    assert_eq!(pad(String::from("abc"), 5), "abc  ");
    assert_eq!(pad(String::from("abcdef"), 3), "abc");
    assert_eq!(pad(String::new(), 2), "  ");
}

#[test]
fn box_has_five_lines_of_fixed_width() {
    let p = Progress::new([100, 0, 0], [1, 0, 0], true);
    let s = snapshot(&p);
    let lines = render_box("provider_a", &s.provider_a, 0);
    assert_eq!(lines.len(), 5);
    assert!(lines[0].starts_with("┌ provider_a "));
    assert!(lines[0].ends_with("┐"));
    for line in &lines[1..4] {
        assert_eq!(line.chars().count(), 66);
        assert!(line.starts_with("│ "));
        assert!(line.ends_with(" │"));
    }
    assert_eq!(lines[4].chars().count(), 66);
    assert!(lines[1].contains("parse"));
    assert!(lines[2].contains("rec"));
    assert!(lines[3].contains("emb"));
    assert!(lines[3].contains("init"));
}

#[test]
fn embed_line_annotations() {
    let p = Progress::new([0, 0, 0], [0, 0, 0], false);
    let s = snapshot(&p);
    let lines = render_box("provider_a", &s.provider_a, 0);
    assert!(lines[3].contains("(off)"));
    assert!(!lines[3].contains("init"));

    let mut p2 = Progress::new([0, 0, 0], [0, 0, 0], true);
    p2.add_embed_pending(SourceKind::ProviderA, 12);
    let s2 = snapshot(&p2);
    let lines2 = render_box("provider_a", &s2.provider_a, 0);
    assert!(lines2[3].contains("processing 12"));
}

#[test]
fn full_display_is_ten_lines() {
    let mut p = Progress::new([10, 10, 10], [1, 1, 1], true);
    p.add_parsed_bytes(SourceKind::ProviderBSession, 10);
    let lines = format_lines(&p, 3);
    assert_eq!(lines.len(), 10);
    assert!(lines[0].contains("provider_a"));
    assert!(lines[5].contains("provider-b"));
}

#[test]
fn determinate_bar_appears_when_parse_done() {
    let mut p = Progress::new([10, 0, 0], [1, 0, 0], true);
    p.add_parsed_bytes(SourceKind::ProviderA, 10);
    p.add_produced(SourceKind::ProviderA, 4);
    p.add_indexed(SourceKind::ProviderA, 2);
    let s = snapshot(&p);
    let lines = render_box("provider_a", &s.provider_a, 0);
    let expected_bar = format!("{}{}", "━".repeat(14), "░".repeat(14));
    assert!(lines[2].contains(&expected_bar));
}
