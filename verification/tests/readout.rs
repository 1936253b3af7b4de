use aria_shell::readout::{duration, expand, unsampled_values, PLACEHOLDERS};

fn values(pairs: &[(&str, &str)]) -> Vec<(String, String)> {
    pairs.iter().map(|(k, v)| (k.to_string(), v.to_string())).collect()
}

#[test]
fn durations() {
    assert_eq!(duration(90061), "1d 1h");
    assert_eq!(duration(4000), "1h 6m");
    assert_eq!(duration(45), "45s");
    assert_eq!(duration(0), "0s");
    assert_eq!(duration(60), "1m");
    assert_eq!(duration(3600), "1h 0m");
}

#[test]
fn expansion_from_values() {
    let v = values(&[
        ("cpu", "42"),
        ("mem", "25"),
        ("mem_used", "4.0 GiB"),
        ("rx", "1.2 MB/s"),
        ("tx", "12 B/s"),
        ("temp", "56"),
        ("freq", "3.8 GHz"),
        ("load1", "0.50"),
        ("swap", "-"),
        ("gpu", "-"),
    ]);
    assert_eq!(expand("{cpu}%", &v), "42%");
    assert_eq!(expand("[{cpu:3}%]", &v), "[ 42%]");
    assert_eq!(expand("{mem}% {mem_used}", &v), "25% 4.0 GiB");
    assert_eq!(expand("{rx} {tx}", &v), "1.2 MB/s 12 B/s");
    assert_eq!(expand("{temp}° {freq} {load1}", &v), "56° 3.8 GHz 0.50");
    assert_eq!(expand("{swap}% {gpu}%", &v), "-% -%");
    assert_eq!(expand("{nope} {cpu", &v), "{nope} {cpu");
    assert_eq!(expand("{cpu:x}|{cpu:1}|{cpu:+4}", &v), "42|42|  42");
    assert_eq!(expand("{}{:3}", &v), "{}{:3}");
    assert_eq!(expand("plain", &v), "plain");
}

#[test]
fn before_the_first_sample() {
    let v = unsampled_values();
    assert_eq!(v.len(), PLACEHOLDERS.len() + 8);
    assert_eq!(expand("{cpu}% up {uptime}", &v), "-% up -");
    assert_eq!(expand("{net} {load} {vram}", &v), "- - -");
}
