use mac_cleaner::format::{
    format_size, parse_u64_text, scale_double_bits, section_icon, split_size_suffix, SizeText,
};

fn float_format(bytes: u64) -> String {
    const GB: f64 = 1024.0 * 1024.0 * 1024.0;
    const MB: f64 = 1024.0 * 1024.0;
    const KB: f64 = 1024.0;
    let b = bytes as f64;
    if b >= GB {
        format!("{:.1} GB", b / GB)
    } else if b >= MB {
        format!("{:.1} MB", b / MB)
    } else if b >= KB {
        format!("{:.1} KB", b / KB)
    } else {
        format!("{bytes} B")
    }
}

#[test]
fn format_size_exact_values() {
    assert_eq!(format_size(0), "0 B");
    assert_eq!(format_size(512), "512 B");
    assert_eq!(format_size(1023), "1023 B");
    assert_eq!(format_size(1024), "1.0 KB");
    assert_eq!(format_size(1536), "1.5 KB");
    assert_eq!(format_size(1048576), "1.0 MB");
    assert_eq!(format_size(1073741824), "1.0 GB");
    assert_eq!(format_size(1610612736), "1.5 GB");
    assert_eq!(format_size(1048575), "1024.0 KB");
}

#[test]
fn format_size_rounds_half_to_even() {
    // 1.25 KB and 1.75 KB are exact ties.
    assert_eq!(format_size(1280), float_format(1280));
    assert_eq!(format_size(1792), float_format(1792));
    assert_eq!(format_size(1280), "1.2 KB");
    assert_eq!(format_size(1792), "1.8 KB");
}

#[test]
fn format_size_agrees_with_float_formatting() {
    let mut samples: Vec<u64> = Vec::new();
    for i in 0..5000u64 {
        samples.push(i);
        samples.push(i * 97 + 1000);
        samples.push(i * 104_857 + 3);
        samples.push(i * 107_374_182 + 11);
    }
    for k in 0..64u32 {
        let p = 1u64 << k;
        samples.push(p);
        samples.push(p - 1);
        samples.push(p + 1);
        samples.push(p.wrapping_mul(5) / 4);
    }
    for m in 0..2000u64 {
        // ties in tenths of each unit: (2m+1) * 2^k / 20 for the binary units
        samples.push((2 * m + 1) * 1024 / 20 * 10 / 10);
        samples.push((2 * m + 1) * (1u64 << 28) / 5);
        samples.push((2 * m + 1) * (1u64 << 18) / 5);
    }
    samples.push(u64::MAX);
    samples.push(u64::MAX - 1);
    samples.push((1u64 << 53) + 1);
    samples.push((1u64 << 60) + 12345);
    for s in samples {
        assert_eq!(format_size(s), float_format(s), "bytes = {s}");
    }
}

#[test]
fn section_icons() {
    assert_eq!(section_icon("System Caches"), "🧹");
    assert_eq!(section_icon("Build Tools"), "🔧");
    assert_eq!(section_icon("Go"), "🐹");
    assert_eq!(section_icon("Python"), "🐍");
    assert_eq!(section_icon("Package Managers"), "📦");
    assert_eq!(section_icon("Project Deps"), "📁");
    assert_eq!(section_icon("Logs & Temp"), "🪵");
    assert_eq!(section_icon("iOS"), "🍎");
    assert_eq!(section_icon("Downloads"), "⬇️");
    assert_eq!(section_icon("Large Files"), "🐘");
    assert_eq!(section_icon("Orphan App Data"), "🧩");
    assert_eq!(section_icon("App Bundle"), "📱");
    assert_eq!(section_icon("App Traces"), "🧬");
    assert_eq!(section_icon("Something else"), "📁");
    assert_eq!(section_icon(""), "📁");
}

fn scaled(s: &str) -> (String, u32) {
    match split_size_suffix(s) {
        SizeText::Scaled(n, e) => (n, e),
        SizeText::Plain(p) => panic!("expected a unit, got plain {p:?}"),
    }
}

#[test]
fn size_suffix_splitting() {
    assert_eq!(scaled("1.5GB"), ("1.5".to_string(), 30));
    assert_eq!(scaled("  2.1kB "), ("2.1".to_string(), 10));
    assert_eq!(scaled("12.3MB"), ("12.3".to_string(), 20));
    assert_eq!(scaled("3T"), ("3".to_string(), 40));
    assert_eq!(scaled("4tb"), ("4".to_string(), 40));
    assert_eq!(scaled("7g"), ("7".to_string(), 30));
    assert_eq!(scaled("8m"), ("8".to_string(), 20));
    assert_eq!(scaled("9K"), ("9".to_string(), 10));
    assert_eq!(scaled("0B"), ("0".to_string(), 0));
    assert_eq!(scaled("10 b"), ("10".to_string(), 0));
    match split_size_suffix(" 123 ") {
        SizeText::Plain(p) => assert_eq!(p, "123"),
        _ => panic!("expected plain"),
    }
}

#[test]
fn plain_counts_parse_like_std() {
    for s in ["0", "123", "+42", "", "+", "-1", "12a", "18446744073709551615", "18446744073709551616", "007", " 1"] {
        assert_eq!(parse_u64_text(s), s.parse::<u64>().ok(), "text {s:?}");
    }
}

#[test]
fn scaling_matches_float_casts() {
    let values: Vec<f64> = vec![
        0.0, -0.0, 1.0, 1.5, 0.1, 2.1, 12.3, 1e3, 1e19, 1.8e19, 3.0e30, -5.0, 0.999999, 1e-300,
        4.9e-324, f64::INFINITY, f64::NEG_INFINITY, f64::NAN, 1023.9999, 16777216.5, 9007199254740993.0,
    ];
    for v in values {
        for e in [0u32, 10, 20, 30, 40] {
            let expect = (v * (1u64 << e) as f64) as u64;
            assert_eq!(scale_double_bits(v.to_bits(), e), expect, "v = {v}, e = {e}");
        }
    }
}

#[test]
fn padded_counts_with_units_split_into_count_and_exponent() {
    for n in [0u64, 7, 12, 4096, 123456789] {
        let d = n.to_string();
        assert_eq!(scaled(&format!(" \t{d}KB\n ")), (d.clone(), 10));
        assert_eq!(scaled(&format!("{d}k")), (d.clone(), 10));
        assert_eq!(scaled(&format!("{d}mb")), (d.clone(), 20));
        assert_eq!(scaled(&format!("{d}g")), (d.clone(), 30));
        assert_eq!(scaled(&format!("{d}tb")), (d.clone(), 40));
        assert_eq!(scaled(&format!("{d}b")), (d.clone(), 0));
        match split_size_suffix(&format!("  {d} ")) {
            SizeText::Plain(p) => assert_eq!(p, d),
            SizeText::Scaled(..) => panic!("a bare count has no unit"),
        }
    }
}

#[test]
fn whole_numbers_scale_exactly() {
    for n in [1u64, 3, 1536, (1u64 << 53) - 1] {
        let bits = (n as f64).to_bits();
        assert_eq!(scale_double_bits(bits, 0), n);
        assert_eq!(scale_double_bits(bits, 10), n.saturating_mul(1024));
    }
    assert_eq!(scale_double_bits((1536f64).to_bits(), 20), 1536u64 << 20);
    assert_eq!(scale_double_bits(((1u64 << 40) as f64).to_bits(), 40), u64::MAX);
}
