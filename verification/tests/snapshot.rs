use system_stats::counter::Counter;

const CPUINFO: &[u8] = b"processor : 0\ncpu MHz\t\t: 2000.000\nprocessor : 1\ncpu MHz\t\t: 3000.000\n";
const LOADAVG: &[u8] = b"0.52 0.58 0.59 1/257 12345\n";
const MEMINFO: &[u8] = b"MemTotal:       16384000 kB\nMemFree:         1000000 kB\nMemAvailable:    4096000 kB\n";
const GPU_OUT: &[u8] = b"clocks.max.graphics [MHz], clocks.current.graphics [MHz], clocks.max.memory [MHz], clocks.current.memory [MHz], temperature.gpu, memory.used [MiB], memory.total [MiB], utilization.gpu [%], utilization.memory [%]\n1740 MHz, 300 MHz, 3500 MHz, 405 MHz, 38, 190 MiB, 3910 MiB, 1 %, 3 %\n";

fn refresh_all(c: &mut Counter) {
    c.calculate_stats(
        Some(CPUINFO.to_vec()),
        Some(LOADAVG.to_vec()),
        Some(MEMINFO.to_vec()),
        Some(GPU_OUT.to_vec()),
    );
}

#[test]
fn new_counter_is_all_zero() {
    let c = Counter::new();
    assert_eq!(c.cpu_mhz, 0);
    assert_eq!(c.mem_used, 0);
    assert_eq!(c.mem_total, 0);
    assert_eq!(c.gpu_temperature, 0);
    assert!(c.errors.is_empty());
    assert!(c.load_avg.is_empty());
}

#[test]
fn cpu_mhz_is_mean_over_cores() {
    let mut c = Counter::new();
    refresh_all(&mut c);
    assert_eq!(c.cpu_mhz, 2500);
}

#[test]
fn mem_used_is_total_minus_available() {
    let mut c = Counter::new();
    refresh_all(&mut c);
    assert_eq!(c.mem_total, 16384000);
    assert_eq!(c.mem_used, 12288000);
}

#[test]
fn load_avg_is_captured_token() {
    let mut c = Counter::new();
    refresh_all(&mut c);
    assert_eq!(c.load_avg, b"0.52 0.58 0.59".to_vec());
}

#[test]
fn load_avg_degrades_to_raw_text() {
    let mut c = Counter::new();
    c.get_load_avg(Some(b"unexpected words\n".to_vec()));
    assert_eq!(c.load_avg, b"unexpected words\n".to_vec());
    assert!(c.errors.is_empty());
}

#[test]
fn unreadable_loadavg_is_logged() {
    let mut c = Counter::new();
    c.get_load_avg(None);
    assert_eq!(c.errors.len(), 1);
    assert_eq!(c.errors[0], "could not read /proc/loadavg");
}

#[test]
fn gpu_fields_are_parsed() {
    let mut c = Counter::new();
    refresh_all(&mut c);
    assert_eq!(c.gpu_max_graphics_clock, 1740);
    assert_eq!(c.gpu_current_graphics_clock, 300);
    assert_eq!(c.gpu_max_memory_clock, 3500);
    assert_eq!(c.gpu_current_memory_clock, 405);
    assert_eq!(c.gpu_temperature, 38);
    assert_eq!(c.gpu_memory_used, 190);
    assert_eq!(c.gpu_memory_total, 3910);
    assert_eq!(c.gpu_graphics_utilization, 1);
    assert_eq!(c.gpu_memory_utilization, 3);
}

#[test]
fn header_only_gpu_output_keeps_prior_values() {
    let mut c = Counter::new();
    refresh_all(&mut c);
    let before = (
        c.gpu_max_graphics_clock,
        c.gpu_current_graphics_clock,
        c.gpu_max_memory_clock,
        c.gpu_current_memory_clock,
        c.gpu_temperature,
        c.gpu_memory_used,
        c.gpu_memory_total,
        c.gpu_graphics_utilization,
        c.gpu_memory_utilization,
    );
    c.get_gpu_stats(Some(b"clocks.max.graphics [MHz], ...\n".to_vec()));
    let after = (
        c.gpu_max_graphics_clock,
        c.gpu_current_graphics_clock,
        c.gpu_max_memory_clock,
        c.gpu_current_memory_clock,
        c.gpu_temperature,
        c.gpu_memory_used,
        c.gpu_memory_total,
        c.gpu_graphics_utilization,
        c.gpu_memory_utilization,
    );
    assert_eq!(before, after);
    assert_eq!(c.errors.len(), 1);
    assert_eq!(c.errors[0], "GPU stats: unexpected number of output lines");
}

#[test]
fn missing_gpu_command_is_logged_and_survived() {
    let mut c = Counter::new();
    c.calculate_stats(
        Some(CPUINFO.to_vec()),
        Some(LOADAVG.to_vec()),
        Some(MEMINFO.to_vec()),
        None,
    );
    assert_eq!(c.errors.len(), 1);
    assert_eq!(c.errors[0], "GPU stats: failed to invoke the diagnostic command");
    // The rest of the poll still completed.
    assert_eq!(c.cpu_mhz, 2500);
    assert_eq!(c.mem_used, 12288000);
    assert_eq!(c.gpu_temperature, 0);
}

fn numeric_fields(c: &Counter) -> [i64; 12] {
    [
        c.cpu_mhz,
        c.mem_used,
        c.mem_total,
        c.gpu_max_graphics_clock,
        c.gpu_current_graphics_clock,
        c.gpu_max_memory_clock,
        c.gpu_current_memory_clock,
        c.gpu_temperature,
        c.gpu_memory_used,
        c.gpu_memory_total,
        c.gpu_graphics_utilization,
        c.gpu_memory_utilization,
    ]
}

#[test]
fn refresh_is_idempotent_on_identical_sources() {
    let mut c = Counter::new();
    refresh_all(&mut c);
    let first_nums = numeric_fields(&c);
    let first_load = c.load_avg.clone();
    let first_errors = c.errors.clone();
    refresh_all(&mut c);
    assert_eq!(first_nums, numeric_fields(&c));
    assert_eq!(first_load, c.load_avg);
    assert_eq!(first_errors, c.errors);
    assert!(c.errors.is_empty());
}

#[test]
fn error_log_is_cleared_each_poll() {
    let mut c = Counter::new();
    c.calculate_stats(None, None, None, None);
    assert_eq!(c.errors.len(), 4);
    refresh_all(&mut c);
    assert!(c.errors.is_empty());
}

#[test]
fn all_sources_missing_keeps_defaults_and_logs_each() {
    let mut c = Counter::new();
    c.calculate_stats(None, None, None, None);
    assert_eq!(
        c.errors,
        vec![
            "could not read /proc/cpuinfo".to_string(),
            "could not read /proc/loadavg".to_string(),
            "could not read /proc/meminfo".to_string(),
            "GPU stats: failed to invoke the diagnostic command".to_string(),
        ]
    );
    assert_eq!(c.cpu_mhz, 0);
    assert_eq!(c.mem_total, 0);
}

#[test]
fn cpuinfo_without_data_is_logged() {
    let mut c = Counter::new();
    c.calculate_stats(
        Some(b"model name : something\n".to_vec()),
        Some(LOADAVG.to_vec()),
        Some(MEMINFO.to_vec()),
        Some(GPU_OUT.to_vec()),
    );
    assert_eq!(c.errors, vec!["no cpu MHz data in /proc/cpuinfo".to_string()]);
    assert_eq!(c.cpu_mhz, 0);
}

#[test]
fn meminfo_missing_available_keeps_both_fields() {
    let mut c = Counter::new();
    refresh_all(&mut c);
    c.get_mem_info(Some(b"MemTotal: 999 kB\n".to_vec()));
    // One reading missing: the pair keeps its prior, consistent values.
    assert_eq!(c.mem_total, 16384000);
    assert_eq!(c.mem_used, 12288000);
    assert_eq!(c.errors, vec!["no MemAvailable data in /proc/meminfo".to_string()]);
}

#[test]
fn meminfo_missing_total_keeps_both_fields() {
    let mut c = Counter::new();
    c.get_mem_info(Some(b"MemAvailable: 999 kB\n".to_vec()));
    assert_eq!(c.mem_total, 0);
    assert_eq!(c.mem_used, 0);
    assert_eq!(c.errors, vec!["no MemTotal data in /proc/meminfo".to_string()]);
}

#[test]
fn gpu_short_row_updates_what_exists() {
    let mut c = Counter::new();
    c.get_gpu_stats(Some(b"header\n100 MHz, 200 MHz, 300 MHz\n".to_vec()));
    assert_eq!(c.errors, vec!["GPU stats: unexpected number of fields".to_string()]);
    assert_eq!(c.gpu_max_graphics_clock, 100);
    assert_eq!(c.gpu_current_graphics_clock, 200);
    assert_eq!(c.gpu_max_memory_clock, 300);
    // Fields past the available ones keep their prior values.
    assert_eq!(c.gpu_current_memory_clock, 0);
    assert_eq!(c.gpu_temperature, 0);
}

#[test]
fn gpu_extra_lines_logged_but_second_line_used() {
    let mut c = Counter::new();
    let out = b"header\n10, 20, 30, 40, 50, 60, 70, 80, 90\ntrailing junk\n";
    c.get_gpu_stats(Some(out.to_vec()));
    assert_eq!(c.errors, vec!["GPU stats: unexpected number of output lines".to_string()]);
    assert_eq!(c.gpu_max_graphics_clock, 10);
    assert_eq!(c.gpu_memory_utilization, 90);
}

#[test]
fn gpu_field_without_number_keeps_prior() {
    let mut c = Counter::new();
    refresh_all(&mut c);
    let out = b"header\n[N/A], 300 MHz, 3500 MHz, 405 MHz, 38, 190 MiB, 3910 MiB, 1 %, 3 %\n";
    c.get_gpu_stats(Some(out.to_vec()));
    // The unreadable field is skipped silently; the rest refresh.
    assert!(c.errors.is_empty());
    assert_eq!(c.gpu_max_graphics_clock, 1740);
    assert_eq!(c.gpu_current_graphics_clock, 300);
}
