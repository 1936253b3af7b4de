use aria_shell::sensors::{cpu_temp_sensor, temp_input};

fn owned(v: &[&str]) -> Vec<String> {
    v.iter().map(|s| s.to_string()).collect()
}

fn pairs(v: &[(&str, &str)]) -> Vec<(String, String)> {
    v.iter().map(|(a, b)| (a.to_string(), b.to_string())).collect()
}

#[test]
fn temperature_input_of_a_fake_hwmon() {
    let files = owned(&["temp2_label", "temp1_input", "name", "temp2_input", "temp1_label"]);
    let labels = pairs(&[("temp1", "Core 0"), ("temp2", "Package id 0")]);
    assert_eq!(temp_input(&files, &labels).as_deref(), Some("temp2_input"));
    let labels = pairs(&[("temp1", "Core 0")]);
    assert_eq!(temp_input(&files, &labels).as_deref(), Some("temp1_input"), "no die label: the first input");
    assert_eq!(temp_input(&owned(&["fan1_input", "name"]), &labels), None);
    let files = owned(&["temp3_input", "temp10_input"]);
    assert_eq!(temp_input(&files, &[]).as_deref(), Some("temp10_input"), "in name order");
}

#[test]
fn cpu_sensor_by_driver() {
    let hwmons = pairs(&[
        ("nvme", "/sys/class/hwmon/hwmon0"),
        ("coretemp", "/sys/class/hwmon/hwmon3"),
        ("acpitz", "/sys/class/hwmon/hwmon1"),
        ("coretemp", "/sys/class/hwmon/hwmon2"),
    ]);
    assert_eq!(cpu_temp_sensor("", &hwmons).as_deref(), Some("/sys/class/hwmon/hwmon2"));
    assert_eq!(cpu_temp_sensor("nvme", &hwmons).as_deref(), Some("/sys/class/hwmon/hwmon0"));
    assert_eq!(cpu_temp_sensor("k10temp", &hwmons), None, "a named sensor that is missing: none");
    assert_eq!(cpu_temp_sensor("", &hwmons[..1]), None);
    assert_eq!(cpu_temp_sensor("", &hwmons[2..3]).as_deref(), Some("/sys/class/hwmon/hwmon1"));
}
