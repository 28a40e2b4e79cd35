use localvox::hardware::{parse_gpu_query, recommend_tier, GpuInfo, HardwareProfile, Tier, GIB};

/// Memory size in bytes for a figure in GB (GiB, as the profile reports it).
fn gb(x: f64) -> u64 {
    (x * GIB as f64) as u64
}

#[test]
fn light_tier_for_low_ram_no_gpu() {
    let profile = HardwareProfile { total_ram_bytes: gb(4.0), cpu_cores: 4, is_apple_silicon: false, nvidia_gpu: None };
    assert_eq!(recommend_tier(&profile), Tier::Light);
}

#[test]
fn performance_tier_for_good_gpu() {
    let profile = HardwareProfile {
        total_ram_bytes: gb(16.0),
        cpu_cores: 16,
        is_apple_silicon: false,
        nvidia_gpu: Some(GpuInfo { name: "RTX 4070".into(), vram_mb: 12_000 }),
    };
    assert_eq!(recommend_tier(&profile), Tier::Performance);
}

#[test]
fn apple_silicon_always_balanced() {
    let profile = HardwareProfile { total_ram_bytes: gb(8.0), cpu_cores: 8, is_apple_silicon: true, nvidia_gpu: None };
    assert_eq!(recommend_tier(&profile), Tier::Balanced);
}

fn profile(ram: u64, vram: Option<u64>, apple: bool) -> HardwareProfile {
    HardwareProfile {
        total_ram_bytes: ram,
        cpu_cores: 8,
        is_apple_silicon: apple,
        nvidia_gpu: vram.map(|v| GpuInfo { name: "GPU".to_string(), vram_mb: v }),
    }
}

#[test]
fn tier_thresholds() {
    assert_eq!(recommend_tier(&profile(8 * GIB - 1, None, false)), Tier::Light);
    assert_eq!(recommend_tier(&profile(8 * GIB, None, false)), Tier::Balanced);
    assert_eq!(recommend_tier(&profile(64 * GIB, None, false)), Tier::Balanced);
    assert_eq!(recommend_tier(&profile(16 * GIB, Some(5_999), false)), Tier::Balanced);
    assert_eq!(recommend_tier(&profile(16 * GIB - 1, Some(12_000), false)), Tier::Balanced);
    assert_eq!(recommend_tier(&profile(16 * GIB, Some(6_000), false)), Tier::Performance);
    assert_eq!(recommend_tier(&profile(4 * GIB, Some(16_000), false)), Tier::MaxAccuracy);
    assert_eq!(recommend_tier(&profile(4 * GIB, Some(24_000), true)), Tier::Balanced);
    assert_eq!(recommend_tier(&profile(2 * GIB, Some(2_000), false)), Tier::Light);
}

#[test]
fn more_memory_never_lowers_the_tier() {
    let rank = |t: Tier| match t {
        Tier::Light => 0,
        Tier::Balanced => 1,
        Tier::Performance => 2,
        Tier::MaxAccuracy => 3,
    };
    let rams = [GIB, 8 * GIB, 12 * GIB, 16 * GIB, 32 * GIB];
    let vrams = [None, Some(2_000), Some(6_000), Some(8_000), Some(16_000)];
    for (i, r1) in rams.iter().enumerate() {
        for r2 in &rams[i..] {
            for (j, v1) in vrams.iter().enumerate() {
                for v2 in &vrams[j..] {
                    let a = recommend_tier(&profile(*r1, *v1, false));
                    let b = recommend_tier(&profile(*r2, *v2, false));
                    assert!(rank(a) <= rank(b));
                }
            }
        }
    }
}

#[test]
fn tier_models_and_names() {
    assert_eq!(Tier::Light.recommended_model(), "whisper-tiny-en");
    assert_eq!(Tier::Balanced.recommended_model(), "whisper-base-en");
    assert_eq!(Tier::Performance.recommended_model(), "whisper-medium-en");
    assert_eq!(Tier::MaxAccuracy.recommended_model(), "whisper-large-v3-turbo");
    for t in [Tier::Light, Tier::Balanced, Tier::Performance, Tier::MaxAccuracy] {
        assert_eq!(t.name(), format!("{t:?}"));
    }
}

#[test]
fn reads_gpu_query_output() {
    let g = parse_gpu_query("NVIDIA GeForce RTX 4070, 12282\n").unwrap();
    assert_eq!(g.name, "NVIDIA GeForce RTX 4070");
    assert_eq!(g.vram_mb, 12282);
    let g = parse_gpu_query("  Tesla T4 ,  15360 \r\nNVIDIA A100, 40960\r\n").unwrap();
    assert_eq!(g.name, "Tesla T4");
    assert_eq!(g.vram_mb, 15360);
    let g = parse_gpu_query("GPU, +8192, extra").unwrap();
    assert_eq!(g.vram_mb, 8192);
}

#[test]
fn rejects_malformed_gpu_query_output() {
    assert!(parse_gpu_query("").is_none());
    assert!(parse_gpu_query("\n").is_none());
    assert!(parse_gpu_query("NVIDIA only").is_none());
    assert!(parse_gpu_query("GPU, lots").is_none());
    assert!(parse_gpu_query("GPU, -5").is_none());
    assert!(parse_gpu_query("GPU, +").is_none());
    assert!(parse_gpu_query("GPU, ").is_none());
    assert!(parse_gpu_query("GPU, 18446744073709551616").is_none());
    assert_eq!(parse_gpu_query("GPU, 18446744073709551615").unwrap().vram_mb, u64::MAX);
    assert!(parse_gpu_query("\nGPU, 100").is_none());
}

#[test]
fn gpu_query_matches_std_reading() {
    let samples = [
        "NVIDIA GeForce RTX 3060, 12288",
        "a,1\nb,2",
        "x , 007 ",
        "x,1,2",
        "x,\u{a0}42\u{3000}",
        "x,4 2",
        "x\r,5\r\n",
        "x,5\r",
        "x,5\r\r\n",
        ",9",
        "\u{2028}y\u{2029},10",
    ];
    for text in samples {
        let expected = (|| {
            let first_line = text.lines().next()?;
            let mut parts = first_line.split(',').map(|s| s.trim());
            let name = parts.next()?.to_string();
            let vram_mb: u64 = parts.next()?.parse().ok()?;
            Some((name, vram_mb))
        })();
        let got = parse_gpu_query(text).map(|g| (g.name, g.vram_mb));
        assert_eq!(got, expected, "for {text:?}");
    }
}
