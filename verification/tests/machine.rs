use gguf_switchboard::fit::GpuDeviceInfo;
use gguf_switchboard::machine::{meminfo_total_mb, parse_nvidia_smi, summarize_hardware};

#[test]
fn meminfo_total_is_read_in_mebibytes() {
    let text = "MemFree:         1024 kB\nMemTotal:       65758092 kB\nMemAvailable:   1 kB\n";
    assert_eq!(meminfo_total_mb(text), Some(64216));
    assert_eq!(meminfo_total_mb("MemFree: 5 kB\n"), None);
    assert_eq!(meminfo_total_mb("MemTotal: lots\n"), None);
}

#[test]
fn nvidia_smi_csv_lines_become_gpus() {
    let text = "0, NVIDIA GeForce RTX 4090, 24564, 22000, 2564\n1, NVIDIA A100, 81920, 80000, 1920\nbad line\n";
    let gpus = parse_nvidia_smi(text);
    assert_eq!(gpus.len(), 2);
    assert_eq!(gpus[0].index, 0);
    assert_eq!(gpus[0].name, "NVIDIA GeForce RTX 4090");
    assert_eq!(gpus[0].total_mb, 24564);
    assert_eq!(gpus[0].free_mb, 22000);
    assert_eq!(gpus[0].used_mb, 2564);
    assert_eq!(gpus[1].index, 1);
    assert_eq!(gpus[1].total_mb, 81920);
    assert!(parse_nvidia_smi("").is_empty());
}

#[test]
fn hardware_summary_sums_gpus_or_falls_back() {
    let gpu = |free: u64, total: u64| GpuDeviceInfo { index: 0, name: "G".to_string(), total_mb: total, free_mb: free, used_mb: total - free };
    let h = summarize_hardware(8, vec![gpu(1000, 2000), gpu(500, 3000)], 64000);
    assert_eq!(h.total_vram_mb, 5000);
    assert_eq!(h.free_vram_mb, 1500);
    assert_eq!(h.system_ram_mb, 64000);
    let none = summarize_hardware(8, Vec::new(), 0);
    assert_eq!(none.total_vram_mb, 8 * 1024);
    assert_eq!(none.free_vram_mb, 8 * 1024);
    let huge = summarize_hardware(2, vec![gpu(0, u64::MAX), gpu(0, 1)], 0);
    assert!(huge.gpus.is_empty());
    assert_eq!(huge.total_vram_mb, 2048);
}
