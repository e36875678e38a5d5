use rusted_graw::config::Config;
use rusted_graw::text::{u32_to_padded4, u32_to_string};

fn sample_config() -> Config {
    let mut c = Config::default();
    c.graw_path = "/data/graw".to_string();
    c.evt_path = "/data/evt".to_string();
    c.hdf_path = "/out".to_string();
    c.experiment = "exp1".to_string();
    c
}

#[test]
fn default_is_placeholder() {
    let c = Config::default();
    assert_eq!(c.graw_path, "None".to_string());
    assert_eq!(c.evt_path, "None".to_string());
    assert_eq!(c.hdf_path, "None".to_string());
    assert_eq!(c.pad_map_path, "None".to_string());
    assert_eq!(c.first_run_number, 0);
    assert_eq!(c.last_run_number, 0);
    assert!(!c.online);
    assert_eq!(c.experiment, String::new());
}

#[test]
fn run_str_pads_to_four_places() {
    let c = sample_config();
    assert_eq!(c.get_run_str(7), "run_0007".to_string());
    assert_eq!(c.get_run_str(42), "run_0042".to_string());
    assert_eq!(c.get_run_str(700), "run_0700".to_string());
    assert_eq!(c.get_run_str(7000), "run_7000".to_string());
    assert_eq!(c.get_run_str(70000), "run_70000".to_string());
}

#[test]
fn run_directory_layout() {
    let c = sample_config();
    assert_eq!(c.get_run_directory(42, &3), "/data/graw/run_0042/mm3".to_string());
}

#[test]
fn online_directory_layout() {
    let c = sample_config();
    assert_eq!(c.get_online_directory(42, &3), "/Volumes/mm3/exp1/run_0042".to_string());
}

#[test]
fn evt_directory_layout() {
    let c = sample_config();
    assert_eq!(c.get_evt_directory(42), "/data/evt/run42".to_string());
}

#[test]
fn output_file_names() {
    let c = sample_config();
    assert_eq!(c.get_hdf_file_name(42), "/out/run_0042.h5".to_string());
    assert_eq!(c.get_log_file_name(42), "/out/log_run_0042.txt".to_string());
}

#[test]
fn decimal_rendering() {
    assert_eq!(u32_to_string(0), "0".to_string());
    assert_eq!(u32_to_string(9), "9".to_string());
    assert_eq!(u32_to_string(12345), "12345".to_string());
    assert_eq!(u32_to_string(u32::MAX), "4294967295".to_string());
    assert_eq!(u32_to_padded4(0), "0000".to_string());
    assert_eq!(u32_to_padded4(12), "0012".to_string());
    assert_eq!(u32_to_padded4(123456), "123456".to_string());
}
