use dirdocs::content::{
    as_double, double_spacing, file_meta, file_type, human_bytes, is_probably_text, media_type,
    readme_candidates, rounded_half_even, sample_size,
};

#[test]
fn empty_sample_reads_as_text() {
    assert!(is_probably_text(&[]));
}

#[test]
fn plain_ascii_reads_as_text() {
    assert!(is_probably_text(b"fn main() {\n\tprintln!(\"hi\");\r\n}\n"));
}

#[test]
fn a_nul_byte_means_binary() {
    assert!(!is_probably_text(b"abc\0def"));
    assert!(!is_probably_text(&[0]));
}

#[test]
fn eighty_five_in_a_hundred_is_the_line() {
    let mut sample = vec![b'a'; 85];
    sample.extend(vec![0x80u8; 15]);
    assert!(is_probably_text(&sample));
    let mut sample = vec![b'a'; 84];
    sample.extend(vec![0x80u8; 16]);
    assert!(!is_probably_text(&sample));
    // 17 of 20 is 85 in 100; 16 of 19 is 84.
    let mut sample = vec![b' '; 17];
    sample.extend(vec![0x01u8; 3]);
    assert!(is_probably_text(&sample));
    let mut sample = vec![b'~'; 16];
    sample.extend(vec![0x7Fu8; 3]);
    assert!(!is_probably_text(&sample));
}

#[test]
fn sample_size_is_capped() {
    assert_eq!(sample_size(0), 0);
    assert_eq!(sample_size(4096), 4096);
    assert_eq!(sample_size(8192), 8192);
    assert_eq!(sample_size(8193), 8192);
    assert_eq!(sample_size(usize::MAX), 8192);
}

#[test]
fn file_type_is_the_extension_or_unknown() {
    assert_eq!(file_type("/a/b/c.rs"), "rs");
    assert_eq!(file_type("archive.tar.GZ"), "GZ");
    assert_eq!(file_type("/a/b/Makefile"), "unknown");
    assert_eq!(file_type(".hidden"), "unknown");
}

#[test]
fn media_type_prefers_the_content() {
    assert_eq!(media_type(Some("image/png".to_string()), Some("text/plain".to_string())), "image/png");
    assert_eq!(media_type(None, Some("text/plain".to_string())), "text/plain");
    assert_eq!(media_type(None, None), "application/octet-stream");
}

#[test]
fn file_meta_guesses_by_name_when_content_says_nothing() {
    let (size, kind, mime) = file_meta("/site/index.html", 1536, None);
    assert_eq!(size, "1.5 KB");
    assert_eq!(kind, "html");
    assert_eq!(mime, "text/html");
    let (_, kind, mime) = file_meta("/bin/tool", 0, None);
    assert_eq!(kind, "unknown");
    assert_eq!(mime, "application/octet-stream");
    let (_, _, mime) = file_meta("/x/a.json", 2, Some("text/plain".to_string()));
    assert_eq!(mime, "text/plain");
}

#[test]
fn readme_candidates_in_order() {
    assert_eq!(
        readme_candidates("/proj"),
        vec![
            "/proj/README.md".to_string(),
            "/proj/README.txt".to_string(),
            "/proj/README".to_string(),
            "/proj/Readme.md".to_string(),
            "/proj/readme.md".to_string(),
        ]
    );
}

fn human_bytes_in_floating_point(b: u64) -> String {
    const UNITS: [&str; 5] = ["B", "KB", "MB", "GB", "TB"];
    let mut val = b as f64;
    let mut idx = 0usize;
    while val >= 1024.0 && idx < UNITS.len() - 1 {
        val /= 1024.0;
        idx += 1;
    }
    if idx == 0 {
        format!("{b} {}", UNITS[idx])
    } else {
        format!("{:.1} {}", val, UNITS[idx])
    }
}

#[test]
fn human_bytes_by_unit() {
    assert_eq!(human_bytes(0), "0 B");
    assert_eq!(human_bytes(1), "1 B");
    assert_eq!(human_bytes(1023), "1023 B");
    assert_eq!(human_bytes(1024), "1.0 KB");
    assert_eq!(human_bytes(1536), "1.5 KB");
    assert_eq!(human_bytes(1048575), "1024.0 KB");
    assert_eq!(human_bytes(1048576), "1.0 MB");
    assert_eq!(human_bytes(5 * 1024 * 1024 * 1024), "5.0 GB");
    assert_eq!(human_bytes(1099511627776), "1.0 TB");
    assert_eq!(human_bytes(u64::MAX), "16777216.0 TB");
}

#[test]
fn human_bytes_rounds_a_half_to_the_even_digit() {
    // 1.25 GB and 1.75 GB lie exactly between two tenths.
    assert_eq!(human_bytes(1342177280), "1.2 GB");
    assert_eq!(human_bytes(1879048192), "1.8 GB");
    // 1.05 KB does not: 1075 bytes are a little less than that.
    assert_eq!(human_bytes(1075), "1.0 KB");
    assert_eq!(human_bytes(1076), "1.1 KB");
}

#[test]
fn human_bytes_agrees_with_floating_point() {
    let mut samples: Vec<u64> = vec![
        0,
        1,
        1023,
        1024,
        1025,
        1075,
        1076,
        1126,
        1127,
        1048575,
        1048576,
        1073741823,
        1073741824,
        1342177280,
        1879048192,
        1099511627775,
        1099511627776,
        (1u64 << 53) - 1,
        1u64 << 53,
        (1u64 << 53) + 1,
        (1u64 << 53) + 2,
        (1u64 << 53) + 3,
        (1u64 << 54) + 2,
        (1u64 << 54) + 6,
        (1u64 << 63) - 1,
        1u64 << 63,
        (1u64 << 63) + 1024,
        (1u64 << 63) + 3072,
        u64::MAX - 1023,
        u64::MAX - 1024,
        u64::MAX,
    ];
    let mut x: u64 = 0x9E3779B97F4A7C15;
    for i in 0..20_000u64 {
        x = x.wrapping_mul(6364136223846793005).wrapping_add(1442695040888963407);
        samples.push(x >> (i % 64));
    }
    for k in 0..64u32 {
        for d in [0u64, 1, 2, 51, 52, 102, 103, 512] {
            samples.push((1u64 << k).wrapping_add(d));
            samples.push((1u64 << k).wrapping_sub(d));
            samples.push((5u64 << k) >> 2);
            samples.push((7u64 << k) >> 2);
        }
    }
    for b in samples {
        assert_eq!(human_bytes(b), human_bytes_in_floating_point(b), "{}", b);
    }
}

#[test]
fn doubles_nearest_to_whole_numbers() {
    for b in [0u64, 1, 12345, (1 << 53) - 1, 1 << 53, (1 << 53) + 1, (1 << 53) + 2, (1 << 53) + 3, (1 << 60) + 129, u64::MAX] {
        assert_eq!(as_double(b), (b as f64) as u128, "{}", b);
    }
    assert_eq!(double_spacing(0), 1);
    assert_eq!(double_spacing((1 << 53) - 1), 1);
    assert_eq!(double_spacing(1 << 53), 2);
    assert_eq!(double_spacing(1 << 63), 2048);
    assert_eq!(double_spacing(u64::MAX), 2048);
}

#[test]
fn rounding_to_the_nearest_with_ties_to_even() {
    assert_eq!(rounded_half_even(0, 4), 0);
    assert_eq!(rounded_half_even(1, 4), 0);
    assert_eq!(rounded_half_even(2, 4), 0);
    assert_eq!(rounded_half_even(3, 4), 1);
    assert_eq!(rounded_half_even(6, 4), 2);
    assert_eq!(rounded_half_even(10, 4), 2);
    assert_eq!(rounded_half_even(14, 4), 4);
    assert_eq!(rounded_half_even(7, 1), 7);
    assert_eq!(rounded_half_even(5, 3), 2);
}
