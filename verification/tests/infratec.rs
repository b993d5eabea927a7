use riscan_pro::infratec::Header;
use riscan_pro::Error;

fn lines(ls: &[&str]) -> Vec<String> {
    ls.iter().map(|l| l.to_string()).collect()
}

#[test]
fn header_new() {
    let input = lines(&[
        "[Settings]",
        "Version=3",
        "",
        "ImageWidth=1024",
        "ImageHeight=768",
        "Unrelated=12",
        "[Data]",
        "1.5;2.5",
    ]);
    let (header, next) = Header::new(&input).unwrap();
    assert_eq!(3, header.version);
    assert_eq!(1024, header.width);
    assert_eq!(768, header.height);
    assert_eq!(7, next);
}

#[test]
fn header_invalid_first_line() {
    let input = lines(&["[Options]", "[Data]"]);
    assert!(matches!(Header::new(&input), Err(Error::ReadInfratec(_))));
}

#[test]
fn header_unexpected_eof() {
    let input = lines(&["[Settings]", "ImageWidth=1024"]);
    assert_eq!(
        Err(Error::ReadInfratec("Unexpected EOF".to_string())),
        Header::new(&input).map(|_| ())
    );
}

#[test]
fn header_invalid_line() {
    let input = lines(&["[Settings]", "one=two=three", "[Data]"]);
    assert!(matches!(Header::new(&input), Err(Error::ReadInfratec(_))));
}

#[test]
fn header_bad_number() {
    let input = lines(&["[Settings]", "ImageWidth=wide", "[Data]"]);
    assert_eq!(
        Err(Error::ParseInt("wide".to_string())),
        Header::new(&input).map(|_| ())
    );
}
