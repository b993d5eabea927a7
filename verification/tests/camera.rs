use riscan_pro::Camera;
use riscan_pro::Error;

fn settings() -> Vec<String> {
    [
        "fx=883.5230667826110700",
        "fy=884.2400341059731200",
        "cx=529.9796605360121600",
        "cy=400.7770650611840000",
        "k1=-0.4164950117338272",
        "k2=0.1101340143848572",
        "k3=-0.1163151291620893",
        "k4=0.0141611215992979",
        "p1=0.0007262701857370",
        "p2=-0.0001515209871080",
        "nx=1024",
        "ny=768",
        "dx=0.0000170000000000",
        "dy=0.0000170000000000",
    ]
    .iter()
    .map(|l| l.to_string())
    .collect()
}

#[test]
fn camera_from_settings() {
    let camera = Camera::from_settings(&settings()).unwrap();
    assert_eq!("883.5230667826110700", camera.fx);
    assert_eq!("884.2400341059731200", camera.fy);
    assert_eq!("-0.4164950117338272", camera.k1);
    assert_eq!("0.1101340143848572", camera.k2);
    assert_eq!("-0.1163151291620893", camera.k3);
    assert_eq!("0.0141611215992979", camera.k4);
    assert_eq!("529.9796605360121600", camera.cx);
    assert_eq!("400.7770650611840000", camera.cy);
    assert_eq!("0.0007262701857370", camera.p1);
    assert_eq!("-0.0001515209871080", camera.p2);
    assert_eq!(1024, camera.nx);
    assert_eq!(768, camera.ny);
    assert_eq!("0.0000170000000000", camera.dx);
    assert_eq!("0.0000170000000000", camera.dy);
}

#[test]
fn camera_keys_ignore_case_and_later_wins() {
    let mut lines = settings();
    lines.push("FX=1.0".to_string());
    let camera = Camera::from_settings(&lines).unwrap();
    assert_eq!("1.0", camera.fx);
}

#[test]
fn camera_skips_lines_that_are_not_settings() {
    let mut lines = settings();
    lines.push("fx=not-a-number".to_string());
    lines.push("a comment".to_string());
    let camera = Camera::from_settings(&lines).unwrap();
    assert_eq!("883.5230667826110700", camera.fx);
}

#[test]
fn camera_missing_setting() {
    let mut lines = settings();
    lines.retain(|l| !l.starts_with("k3"));
    assert_eq!(
        Err(Error::MissingCameraSetting("k3".to_string())),
        Camera::from_settings(&lines).map(|_| ())
    );
}
