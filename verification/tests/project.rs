use riscan_pro::element::Element;
use riscan_pro::project::rsp_path;
use riscan_pro::{Error, Project};

const IDENTITY: &str = "1 0 0 0 0 1 0 0 0 0 1 0 0 0 0 1";
const MOUNT_MATRIX: &str = "-0.010877741999999997 -0.003724941 -0.999933898 0.18508641   0.019274697 0.999806486 -0.0039341460000000013 0.000460517   0.99975505 -0.019316217 -0.01080384 -0.092802787   0 0 0 1";
const CALIBRATION: &str = "Infratec_VarioCAM_HD_15mm_11-16-2015_Preston";

fn node(name: &str, children: Vec<Element>) -> Element {
    Element {
        name: name.to_string(),
        attributes: Vec::new(),
        text: None,
        children,
    }
}

fn leaf(name: &str, text: &str) -> Element {
    Element {
        name: name.to_string(),
        attributes: Vec::new(),
        text: Some(text.to_string()),
        children: Vec::new(),
    }
}

fn refel(name: &str, noderef: &str) -> Element {
    Element {
        name: name.to_string(),
        attributes: vec![("noderef".to_string(), noderef.to_string())],
        text: None,
        children: Vec::new(),
    }
}

fn camcalib(name: &str, version: &str) -> Element {
    node(
        "camcalib_opencv",
        vec![
            leaf("version", version),
            leaf("name", name),
            node(
                "internal_opencv",
                vec![
                    leaf("cx", "529.9796605360"),
                    leaf("cy", "400.7770650612"),
                    leaf("fx", "883.5230667826"),
                    leaf("fy", "884.2400341060"),
                    leaf("k1", "-0.4164950117"),
                    leaf("k2", "0.1101340144"),
                    leaf("k3", "-0.1163151292"),
                    leaf("k4", "0.0141611216"),
                    leaf("p1", "0.0007262702"),
                    leaf("p2", "-0.0001515210"),
                ],
            ),
            node(
                "angle_extents",
                vec![
                    leaf("tan_max_horz", "0.6"),
                    leaf("tan_max_vert", "0.45"),
                    leaf("tan_min_horz", "-0.6"),
                    leaf("tan_min_vert", "-0.45"),
                ],
            ),
            node(
                "intrinsic_opencv",
                vec![
                    leaf("dx", "0.0000170000"),
                    leaf("dy", "0.0000170000"),
                    leaf("nx", "1024"),
                    leaf("ny", "768"),
                ],
            ),
        ],
    )
}

fn mountcalib(name: &str) -> Element {
    node(
        "mountcalib",
        vec![leaf("name", name), leaf("matrix", MOUNT_MATRIX)],
    )
}

fn image(name: &str, camcalib_name: &str, mountcalib_name: &str) -> Element {
    node(
        "scanposimage",
        vec![
            leaf("name", name),
            node("cop", vec![leaf("matrix", IDENTITY)]),
            refel("camcalib_ref", &format!("/project/calibrations/camcalibs/{}", camcalib_name)),
            refel(
                "mountcalib_ref",
                &format!("/project/calibrations/mountcalibs/{}", mountcalib_name),
            ),
        ],
    )
}

fn scan(name: &str) -> Element {
    node(
        "scan",
        vec![
            leaf("name", name),
            leaf("file", &format!("{}.rxp", name)),
            leaf("phi_count", "100"),
            leaf("theta_count", "200"),
        ],
    )
}

fn scan_position(name: &str, images: Vec<Element>, scans: Vec<Element>) -> Element {
    node(
        "scanposition",
        vec![
            leaf("name", name),
            node("scanposimages", images),
            node("singlescans", scans),
            node(
                "sop",
                vec![leaf("matrix", IDENTITY), leaf("freeze", "1")],
            ),
        ],
    )
}

fn project_tree() -> Element {
    node(
        "project",
        vec![
            leaf("name", "project"),
            node("pop", vec![leaf("matrix", IDENTITY)]),
            node(
                "calibrations",
                vec![
                    node("camcalibs", vec![camcalib(CALIBRATION, "2")]),
                    node("mountcalibs", vec![mountcalib(CALIBRATION)]),
                ],
            ),
            node(
                "scanpositions",
                vec![
                    scan_position(
                        "SP01",
                        vec![
                            image("SP01 - Image001", CALIBRATION, CALIBRATION),
                            image("SP01 - Image002", CALIBRATION, CALIBRATION),
                        ],
                        vec![
                            scan("151120_150227"),
                            scan("151120_150228"),
                            scan("151120_150229"),
                            scan("151120_150230"),
                        ],
                    ),
                    scan_position(
                        "SP02",
                        vec![image("SP02 - Image001", CALIBRATION, CALIBRATION)],
                        vec![scan("151120_155528")],
                    ),
                ],
            ),
        ],
    )
}

fn project() -> Project {
    Project::from_element("data/project.RiSCAN/project.rsp", &project_tree()).unwrap()
}

#[test]
fn rsp_path_err() {
    assert!(rsp_path("data").is_err());
    assert!(rsp_path("Cargo.toml").is_err());
}

#[test]
fn rsp_path_from_rsp_path() {
    let path = rsp_path("data/project.RiSCAN/project.rsp").unwrap();
    assert_eq!("data/project.RiSCAN/project.rsp", path);
}

#[test]
fn rsp_path_from_riscan_path() {
    let path = rsp_path("data/project.RiSCAN").unwrap();
    assert_eq!("data/project.RiSCAN/project.rsp", path);
}

#[test]
fn rsp_path_from_inner_path() {
    let path = rsp_path("data/project.RiSCAN/SCANS").unwrap();
    assert_eq!("data/project.RiSCAN/project.rsp", path);
    assert!(matches!(rsp_path("data/nowhere/SCANS"), Err(Error::ProjectPath(_))));
}

#[test]
fn from_element_ok() {
    let project = project();
    assert_eq!("project", project.name);
    assert_eq!("1", project.pop.entry(0, 0).as_str());
}

#[test]
fn mount_calibrations() {
    let project = project();
    let mount_calibration = project.mount_calibrations.get(CALIBRATION).unwrap();
    let matrix = riscan_pro::utils::parse_projective3(MOUNT_MATRIX).unwrap();
    assert_eq!(matrix, mount_calibration.matrix);
}

#[test]
fn scan_position_from_path() {
    let project = project();
    let scan_position1 = project.scan_positions.get("SP01").unwrap();
    let scan_position2 = project
        .scan_position_from_path("data/project.RiSCAN/SCANS/SP01/SCANPOSIMAGES/SP01 - Image001.csv")
        .unwrap();
    assert_eq!(scan_position1, scan_position2);
    assert!(matches!(
        project.scan_position_from_path("completely/unrelated.txt"),
        Err(Error::ScanPositionFromPath(_))
    ));
}

#[test]
fn scan_position_from_directory() {
    let project = project();
    let scan_position = project.scan_position_from_path("foo/bar/SP01/underfile.txt").unwrap();
    assert_eq!(project.scan_positions.get("SP01").unwrap(), scan_position);
}

#[test]
fn scan_position_from_path_scan_position_name_change() {
    let mut tree = project_tree();
    for child in tree.children.iter_mut() {
        if child.name == "scanpositions" {
            for sp in child.children.iter_mut() {
                for field in sp.children.iter_mut() {
                    if field.name == "name" && field.text.as_deref() == Some("SP01") {
                        field.text = Some("SP01-with-a-twist".to_string());
                    }
                }
            }
        }
    }
    let project = Project::from_element("data/scan-position-name-change.rsp", &tree).unwrap();
    let scan_position1 = project.scan_positions.get("SP01-with-a-twist").unwrap();
    let scan_position2 = project
        .scan_position_from_path("data/project.RiSCAN/SCANS/SP01/SCANPOSIMAGES/SP01 - Image001.csv")
        .unwrap();
    assert_eq!(scan_position1, scan_position2);
}

#[test]
fn only_accept_version_2_camera_calibrations() {
    assert!(Project::from_element("p", &project_tree()).is_ok());
    for version in ["0", "1"] {
        let mut tree = project_tree();
        for child in tree.children.iter_mut() {
            if child.name == "calibrations" {
                for cals in child.children.iter_mut() {
                    if cals.name == "camcalibs" {
                        for cal in cals.children.iter_mut() {
                            for field in cal.children.iter_mut() {
                                if field.name == "version" {
                                    field.text = Some(version.to_string());
                                }
                            }
                        }
                    }
                }
            }
        }
        let result = Project::from_element("p", &tree);
        assert!(matches!(result, Err(Error::CameraCalibrationVersion(_))));
    }
}

#[test]
fn dangling_mount_calibration_reference() {
    let mut tree = project_tree();
    for child in tree.children.iter_mut() {
        if child.name == "scanpositions" {
            for sp in child.children.iter_mut() {
                for field in sp.children.iter_mut() {
                    if field.name == "scanposimages" {
                        for img in field.children.iter_mut() {
                            for part in img.children.iter_mut() {
                                if part.name == "mountcalib_ref" {
                                    part.attributes =
                                        vec![("noderef".to_string(), "a/b/nonexistent".to_string())];
                                }
                            }
                        }
                    }
                }
            }
        }
    }
    let result = Project::from_element("p", &tree);
    assert_eq!(
        Err(Error::MissingMountCalibration("nonexistent".to_string())),
        result.map(|_| ())
    );
}

#[test]
fn project_scan_position() {
    let project = project();
    assert!(project.scan_position("SP01").is_some());
    assert!(project.scan_position("SP02").is_some());
    assert!(project.scan_position("SP03").is_none());
}

#[test]
fn project_scan_position_with_scan() {
    let project = project();
    let scan_position = project.scan_position_with_scan("151120_150227").unwrap();
    assert_eq!(project.scan_position("SP01").unwrap(), scan_position);
    let scan_position = project.scan_position_with_scan("151120_155528").unwrap();
    assert_eq!(project.scan_position("SP02").unwrap(), scan_position);
    assert!(project.scan_position_with_scan("151120_155529").is_none());
}

#[test]
fn project_image() {
    let project = project();
    let image = project.image("SP01", "SP01 - Image001").unwrap();
    assert_eq!("SP01 - Image001", image.name);
    assert_eq!(CALIBRATION, image.camera_calibration_name);
    assert!(project.image("SP01", "SP01 - Image009").is_none());
    assert!(project.image("SP09", "SP01 - Image001").is_none());
}

#[test]
fn image_calibrations_resolve() {
    let project = project();
    let scan_position = project.scan_position("SP01").unwrap();
    let image = scan_position.image("SP01 - Image001").unwrap();
    assert_eq!(CALIBRATION, image.camera_calibration(&project).unwrap().name);
    assert_eq!(CALIBRATION, image.mount_calibration(&project).unwrap().name);
    let mut image = image.clone();
    image.camera_calibration_name = "Not a camera calibration".to_string();
    assert_eq!(
        Err(Error::MissingCameraCalibration("Not a camera calibration".to_string())),
        image.camera_calibration(&project).map(|_| ())
    );
}

#[test]
fn scan_position_image_from_path() {
    let project = project();
    let scan_position = project.scan_position("SP01").unwrap();
    let image1 = scan_position.image("SP01 - Image001").unwrap();
    let image2 = scan_position
        .image_from_path("data/project.RiSCAN/SCANS/SP01/SCANPOSIMAGES/SP01 - Image001.csv")
        .unwrap();
    assert_eq!(image1, image2);
    assert!(matches!(
        scan_position.image_from_path("no/such/image.csv"),
        Err(Error::ImageFromPath(_))
    ));
}

#[test]
fn scan_position_singlescan_rxp_paths() {
    let project = project();
    let scan_position = project.scan_positions.get("SP01").unwrap();
    let paths = scan_position.singlescan_rxp_paths(&project);
    assert_eq!(4, paths.len());
    assert!(paths.contains(
        &"data/project.RiSCAN/SCANS/SP01/SINGLESCANS/151120_150227.rxp".to_string()
    ));
}

#[test]
fn scan_position_images_and_scans() {
    let project = project();
    let scan_position = project.scan_position("SP01").unwrap();
    let images = scan_position.images();
    assert_eq!(2, images.len());
    assert_eq!("SP01 - Image001", images[0].name);
    assert_eq!("SP01 - Image002", images[1].name);
    assert!(scan_position.contains_scan("151120_150227"));
    assert!(!scan_position.contains_scan("151120_150228x"));
    assert!(scan_position.is_frozen);
    let scan = scan_position.scans.get("151120_150227").unwrap();
    assert_eq!("151120_150227.rxp", scan.file);
    assert_eq!(100, scan.phi_count);
    assert_eq!(200, scan.theta_count);
}

#[test]
fn references_resolve_regardless_of_subtree_order() {
    // The scan positions may come before the calibrations they reference:
    // the calibrations are collected first either way.
    let tree = project_tree();
    let mut reordered = Element {
        name: tree.name.clone(),
        attributes: Vec::new(),
        text: None,
        children: Vec::new(),
    };
    for child in tree.children.iter().rev() {
        reordered.children.push(Element {
            name: child.name.clone(),
            attributes: child.attributes.clone(),
            text: child.text.clone(),
            children: clone_children(child),
        });
    }
    let project = Project::from_element("p", &reordered).unwrap();
    let image = project.image("SP01", "SP01 - Image001").unwrap();
    assert!(image.camera_calibration(&project).is_ok());
    assert!(image.mount_calibration(&project).is_ok());
}

fn clone_children(e: &Element) -> Vec<Element> {
    e.children
        .iter()
        .map(|c| Element {
            name: c.name.clone(),
            attributes: c.attributes.clone(),
            text: c.text.clone(),
            children: clone_children(c),
        })
        .collect()
}

#[test]
fn later_duplicate_name_wins() {
    let mut tree = project_tree();
    for child in tree.children.iter_mut() {
        if child.name == "calibrations" {
            for cals in child.children.iter_mut() {
                if cals.name == "mountcalibs" {
                    let mut second = mountcalib(CALIBRATION);
                    for field in second.children.iter_mut() {
                        if field.name == "matrix" {
                            field.text = Some(IDENTITY.to_string());
                        }
                    }
                    cals.children.push(second);
                }
            }
        }
    }
    let project = Project::from_element("p", &tree).unwrap();
    let mount = project.mount_calibrations.get(CALIBRATION).unwrap();
    assert_eq!("1", mount.matrix.entry(0, 0).as_str());
}
