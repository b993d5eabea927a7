use riscan_pro::element::Element;
use riscan_pro::Error;

fn node(name: &str, children: Vec<Element>) -> Element {
    Element {
        name: name.to_string(),
        attributes: Vec::new(),
        text: None,
        children,
    }
}

fn leaf(name: &str, text: &str) -> Element {
    Element {
        name: name.to_string(),
        attributes: Vec::new(),
        text: Some(text.to_string()),
        children: Vec::new(),
    }
}

fn refel(name: &str, noderef: &str) -> Element {
    Element {
        name: name.to_string(),
        attributes: vec![("noderef".to_string(), noderef.to_string())],
        text: None,
        children: Vec::new(),
    }
}

fn project() -> Element {
    node(
        "project",
        vec![
            node("pop", vec![leaf("matrix", "1 0 0 0 0 1 0 0 0 0 1 0 0 0 0 1")]),
            node(
                "calibrations",
                vec![node(
                    "reflcalibs",
                    vec![
                        node("reflcalib", vec![]),
                        node("reflcalib", vec![]),
                        node("reflcalib", vec![]),
                        node("reflcalib", vec![]),
                    ],
                )],
            ),
            leaf("app_caption", "RiSCAN PRO"),
            node(
                "collections",
                vec![node(
                    "overlays",
                    vec![node(
                        "overlay",
                        vec![node("overlayitem", vec![refel("source_ref", "Logo")])],
                    )],
                )],
            ),
            node(
                "geometry_objects",
                vec![node(
                    "images",
                    vec![node(
                        "image",
                        vec![refel(
                            "camcalib_ref",
                            "/project/calibrations/camcalibs/Infratec_VarioCAM_HD_15mm_11-16-2015_Preston",
                        )],
                    )],
                )],
            ),
        ],
    )
}

#[test]
fn child() {
    let project = project();
    assert_eq!("pop", project.child("pop").unwrap().name);
    assert_eq!("matrix", project.child("pop/matrix").unwrap().name);
    assert_eq!(
        "reflcalib",
        project.child("calibrations/reflcalibs/reflcalib").unwrap().name
    );
    assert!(project.child("").is_err());
    assert!(project.child("not-an-element").is_err());
    assert!(matches!(
        project.child("not-an-element"),
        Err(Error::MissingChild(_, _))
    ));
}

#[test]
fn children() {
    let project = project();
    let reflectors = project.children("calibrations/reflcalibs/reflcalib").unwrap();
    assert_eq!(4, reflectors.len());
    assert!(project.children("pop").is_err());
    assert!(project.children("").is_err());
    assert!(project.children("not-an-element").is_err());
}

#[test]
fn as_str() {
    let project = project();
    assert!(project.as_str().is_err());
    assert!(matches!(project.as_str(), Err(Error::NoElementText(_))));
    assert_eq!("RiSCAN PRO", project.child("app_caption").unwrap().as_str().unwrap());
}

#[test]
fn noderef() {
    let project = project();
    assert_eq!(
        "Logo",
        project
            .child("collections/overlays/overlay/overlayitem/source_ref")
            .unwrap()
            .noderef()
            .unwrap()
    );
    assert_eq!(
        "Infratec_VarioCAM_HD_15mm_11-16-2015_Preston",
        project
            .child("geometry_objects/images/image/camcalib_ref")
            .unwrap()
            .noderef()
            .unwrap()
    );
    assert!(matches!(
        project.child("pop").unwrap().noderef(),
        Err(Error::MissingNoderef(_))
    ));
}
