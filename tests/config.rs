use hyperion::{default_data_dir, default_log_level, Config};

#[test]
fn config_defaults() {
    assert_eq!(default_log_level(), "info");
    assert_eq!(default_data_dir(), "data");
    let cfg = Config::defaults();
    assert_eq!(cfg.log_level, "info");
    assert_eq!(cfg.data_dir, "data");
}
