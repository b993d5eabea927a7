//! The whole-project registry.
//!
//! A project is loaded once from its serialized tree: the camera and mount
//! calibrations are collected first, then the scan positions with their
//! images, and finally every symbolic calibration reference is resolved
//! against the collected registries.  A dangling reference aborts the whole
//! load; no partially built project is ever returned.

use vstd::prelude::*;
use crate::Error;
use crate::camera_calibration::{
    spec_parse_camera_calibration, CameraCalibration, CameraCalibrationView,
};
use crate::dict::Dict;
use crate::element::{children_at, text_at, Element};
use crate::mount_calibration::{
    spec_parse_mount_calibration, MountCalibration, MountCalibrationView,
};
use crate::scan_position::{spec_parse_scan_position, Image, ScanPosition, ScanPositionView};
use crate::text::{extension_of, first_dash_segment, parent_dir_name, path_components, path_file_stem, stem_of};
use crate::utils::{parse_projective3, spec_parse_projective3, text_field, Projective3};

verus! {

/// A scanning project.
#[derive(Clone, Debug, PartialEq)]
pub struct Project {
    /// The path to the project file.
    pub path: String,
    /// The camera calibrations, by name.
    pub camera_calibrations: Dict<CameraCalibration>,
    /// The camera mount calibrations, by name.
    pub mount_calibrations: Dict<MountCalibration>,
    /// The project's name.
    pub name: String,
    /// The scan positions, by name.
    pub scan_positions: Dict<ScanPosition>,
    /// The project's own position.
    pub pop: Projective3,
}

/// What a project holds, seen through views.
#[verifier::ext_equal]
pub ghost struct ProjectView {
    /// The path to the project file.
    pub path: Seq<char>,
    /// The camera calibrations, by name.
    pub camera_calibrations: Map<Seq<char>, CameraCalibrationView>,
    /// The camera mount calibrations, by name.
    pub mount_calibrations: Map<Seq<char>, MountCalibrationView>,
    /// The project's name.
    pub name: Seq<char>,
    /// The scan positions, by name.
    pub scan_positions: Map<Seq<char>, ScanPositionView>,
    /// The project's own position.
    pub pop: Seq<Seq<char>>,
}

/// The views of the values of a map of camera calibrations.
pub open spec fn cam_map_views(m: Map<Seq<char>, CameraCalibration>) -> Map<
    Seq<char>,
    CameraCalibrationView,
> {
    Map::new(|k: Seq<char>| m.contains_key(k), |k: Seq<char>| m[k]@)
}

/// The views of the values of a map of mount calibrations.
pub open spec fn mount_map_views(m: Map<Seq<char>, MountCalibration>) -> Map<
    Seq<char>,
    MountCalibrationView,
> {
    Map::new(|k: Seq<char>| m.contains_key(k), |k: Seq<char>| m[k]@)
}

/// The views of the values of a map of scan positions.
pub open spec fn sp_map_views(m: Map<Seq<char>, ScanPosition>) -> Map<
    Seq<char>,
    ScanPositionView,
> {
    Map::new(|k: Seq<char>| m.contains_key(k), |k: Seq<char>| m[k]@)
}

impl View for Project {
    type V = ProjectView;

    open spec fn view(&self) -> ProjectView {
        ProjectView {
            path: self.path@,
            camera_calibrations: cam_map_views(self.camera_calibrations@),
            mount_calibrations: mount_map_views(self.mount_calibrations@),
            name: self.name@,
            scan_positions: sp_map_views(self.scan_positions@),
            pop: self.pop@,
        }
    }
}

/// The map a list of camera calibration elements loads into, keyed by name.
pub open spec fn cams_map_of(cs: Seq<Element>) -> Map<Seq<char>, CameraCalibrationView>
    decreases cs.len(),
{
    if cs.len() == 0 {
        Map::empty()
    } else {
        cams_map_of(cs.drop_last()).insert(
            spec_parse_camera_calibration(cs.last())->Some_0.name,
            spec_parse_camera_calibration(cs.last())->Some_0,
        )
    }
}

/// The map a list of mount calibration elements loads into, keyed by name.
pub open spec fn mounts_map_of(cs: Seq<Element>) -> Map<Seq<char>, MountCalibrationView>
    decreases cs.len(),
{
    if cs.len() == 0 {
        Map::empty()
    } else {
        mounts_map_of(cs.drop_last()).insert(
            spec_parse_mount_calibration(cs.last())->Some_0.name,
            spec_parse_mount_calibration(cs.last())->Some_0,
        )
    }
}

/// The map a list of scan position elements loads into, keyed by name.
pub open spec fn sps_map_of(cs: Seq<Element>) -> Map<Seq<char>, ScanPositionView>
    decreases cs.len(),
{
    if cs.len() == 0 {
        Map::empty()
    } else {
        sps_map_of(cs.drop_last()).insert(
            spec_parse_scan_position(cs.last())->Some_0.name,
            spec_parse_scan_position(cs.last())->Some_0,
        )
    }
}

/// What loading a project tree yields, before reference resolution.
pub open spec fn spec_parse_project(path: Seq<char>, e: Element) -> Option<ProjectView> {
    let cams = children_at(e, "calibrations/camcalibs/camcalib_opencv"@);
    let mounts = children_at(e, "calibrations/mountcalibs/mountcalib"@);
    let sps = children_at(e, "scanpositions/scanposition"@);
    if {
        &&& cams is Some
        &&& forall|i: int|
            0 <= i < cams->Some_0.len() ==> spec_parse_camera_calibration(
                #[trigger] cams->Some_0[i],
            ) is Some
        &&& mounts is Some
        &&& forall|i: int|
            0 <= i < mounts->Some_0.len() ==> spec_parse_mount_calibration(
                #[trigger] mounts->Some_0[i],
            ) is Some
        &&& sps is Some
        &&& forall|i: int|
            0 <= i < sps->Some_0.len() ==> spec_parse_scan_position(
                #[trigger] sps->Some_0[i],
            ) is Some
        &&& text_at(e, "name"@) is Some
        &&& match text_at(e, "pop/matrix"@) {
            Some(m) => spec_parse_projective3(m) is Some,
            None => false,
        }
    } {
        Some(
            ProjectView {
                path,
                camera_calibrations: cams_map_of(cams->Some_0),
                mount_calibrations: mounts_map_of(mounts->Some_0),
                name: text_at(e, "name"@)->Some_0,
                scan_positions: sps_map_of(sps->Some_0),
                pop: spec_parse_projective3(text_at(e, "pop/matrix"@)->Some_0)->Some_0,
            },
        )
    } else {
        None
    }
}

/// Every image of the scan position references calibrations that the two
/// registries hold.
pub open spec fn sp_resolved(
    sp: ScanPositionView,
    cams: Map<Seq<char>, CameraCalibrationView>,
    mounts: Map<Seq<char>, MountCalibrationView>,
) -> bool {
    forall|ik: Seq<char>|
        sp.images.contains_key(ik) ==> cams.contains_key(
            (#[trigger] sp.images[ik]).camera_calibration_name,
        ) && mounts.contains_key(sp.images[ik].mount_calibration_name)
}

/// Every calibration reference of every image resolves in the project.
pub open spec fn references_resolve(p: ProjectView) -> bool {
    forall|k: Seq<char>|
        p.scan_positions.contains_key(k) ==> sp_resolved(
            #[trigger] p.scan_positions[k],
            p.camera_calibrations,
            p.mount_calibrations,
        )
}

/// Checks that every image of one scan position resolves.
fn check_references(
    sp: &ScanPosition,
    cams: &Dict<CameraCalibration>,
    mounts: &Dict<MountCalibration>,
) -> (r: Result<(), Error>)
    requires
        sp.wf(),
        cams.wf(),
        mounts.wf(),
    ensures
        r is Ok <==> sp_resolved(sp@, cam_map_views(cams@), mount_map_views(mounts@)),
        r matches Err(e) ==> e matches Error::MissingCameraCalibration(n) || e matches Error::MissingMountCalibration(n),
{
    let entries = sp.images.entries();
    let ghost es = entries@;
    proof {
        assert(forall|k: int|
            0 <= k < es.len() ==> sp@.images.contains_key((#[trigger] es[k]).0@) && sp@.images[(
            #[trigger] es[k]).0@] == es[k].1@);
    }
    let mut i: usize = 0;
    while i < entries.len()
        invariant
            i <= es.len(),
            es == entries@,
            cams.wf(),
            mounts.wf(),
            forall|k: int|
                0 <= k < es.len() ==> sp@.images.contains_key((#[trigger] es[k]).0@)
                    && sp@.images[(#[trigger] es[k]).0@] == es[k].1@,
            forall|k: int|
                0 <= k < i ==> cam_map_views(cams@).contains_key(
                    (#[trigger] es[k]).1@.camera_calibration_name,
                ) && mount_map_views(mounts@).contains_key(es[k].1@.mount_calibration_name),
        decreases es.len() - i,
    {
        let img = &entries[i].1;
        if !cams.contains(img.camera_calibration_name.as_str()) {
            proof {
                let ik = es[i as int].0@;
                assert(sp@.images[ik] == es[i as int].1@);
                assert(!cam_map_views(cams@).contains_key(sp@.images[ik].camera_calibration_name));
            }
            return Err(Error::MissingCameraCalibration(img.camera_calibration_name.clone()));
        }
        if !mounts.contains(img.mount_calibration_name.as_str()) {
            proof {
                let ik = es[i as int].0@;
                assert(sp@.images[ik] == es[i as int].1@);
                assert(!mount_map_views(mounts@).contains_key(
                    sp@.images[ik].mount_calibration_name,
                ));
            }
            return Err(Error::MissingMountCalibration(img.mount_calibration_name.clone()));
        }
        i += 1;
    }
    proof {
        assert forall|ik: Seq<char>| sp@.images.contains_key(ik) implies cam_map_views(
            cams@,
        ).contains_key((#[trigger] sp@.images[ik]).camera_calibration_name) && mount_map_views(
            mounts@,
        ).contains_key(sp@.images[ik].mount_calibration_name) by {
            assert(sp.images@.contains_key(ik));
            let j = choose|j: int| 0 <= j < es.len() && (#[trigger] es[j]).0@ == ik;
            assert(sp@.images[ik] == es[j].1@);
        }
    }
    Ok(())
}

impl Project {
    /// Well-formed: every registry is well-formed, and so is every scan
    /// position held.
    pub open spec fn wf(&self) -> bool {
        &&& self.camera_calibrations.wf()
        &&& self.mount_calibrations.wf()
        &&& self.scan_positions.wf()
        &&& forall|k: Seq<char>|
            self.scan_positions@.contains_key(k) ==> (#[trigger] self.scan_positions@[k]).wf()
    }

    /// Loads a project from its tree.
    ///
    /// The calibrations are collected first, then the scan positions; every
    /// image's calibration references are then resolved against the
    /// collected registries, and a dangling reference aborts the load.
    pub fn from_element(path: &str, element: &Element) -> (r: Result<Project, Error>)
        ensures
            r matches Ok(p) ==> spec_parse_project(path@, *element) == Some(p@)
                && references_resolve(p@) && p.wf() && p.pop.well_formed(),
            r is Ok <==> match spec_parse_project(path@, *element) {
                Some(pv) => references_resolve(pv),
                None => false,
            },
            r matches Err(e) ==> crate::is_load_error(e) || e matches Error::MissingCameraCalibration(_) || e matches Error::MissingMountCalibration(_),
    {
        let cam_elems = element.children("calibrations/camcalibs/camcalib_opencv")?;
        let ghost cams = cam_elems@;
        let mut camera_calibrations: Dict<CameraCalibration> = Dict::new();
        let mut i: usize = 0;
        proof {
            assert(cams.subrange(0, 0) =~= Seq::<Element>::empty());
            assert(cam_map_views(camera_calibrations@) =~= cams_map_of(cams.subrange(0, 0)));
        }
        while i < cam_elems.len()
            invariant
                i <= cams.len(),
                cams == cam_elems@,
                children_at(*element, "calibrations/camcalibs/camcalib_opencv"@) == Some(cams),
                camera_calibrations.wf(),
                forall|k: int|
                    0 <= k < i ==> spec_parse_camera_calibration(#[trigger] cams[k]) is Some,
                cam_map_views(camera_calibrations@) == cams_map_of(cams.subrange(0, i as int)),
            decreases cams.len() - i,
        {
            let cam = CameraCalibration::from_element(&cam_elems[i])?;
            let cam_name = cam.name.clone();
            let ghost before = camera_calibrations@;
            let ghost v = cam@;
            camera_calibrations.insert(cam_name, cam);
            proof {
                let pre = cams.subrange(0, i as int);
                let cur = cams.subrange(0, i + 1);
                assert(cur.drop_last() =~= pre);
                assert(cur.last() == cams[i as int]);
                assert(spec_parse_camera_calibration(cams[i as int]) == Some(v));
                assert(cam_map_views(before.insert(v.name, camera_calibrations@[v.name]))
                    =~= cam_map_views(before).insert(v.name, v));
                assert(camera_calibrations@ =~= before.insert(
                    v.name,
                    camera_calibrations@[v.name],
                ));
                assert(cam_map_views(camera_calibrations@) =~= cams_map_of(cur));
            }
            i += 1;
        }
        proof {
            assert(cams.subrange(0, cams.len() as int) =~= cams);
        }
        let mount_elems = element.children("calibrations/mountcalibs/mountcalib")?;
        let ghost mounts = mount_elems@;
        let mut mount_calibrations: Dict<MountCalibration> = Dict::new();
        let mut j: usize = 0;
        proof {
            assert(mounts.subrange(0, 0) =~= Seq::<Element>::empty());
            assert(mount_map_views(mount_calibrations@) =~= mounts_map_of(mounts.subrange(0, 0)));
        }
        while j < mount_elems.len()
            invariant
                j <= mounts.len(),
                mounts == mount_elems@,
                children_at(*element, "calibrations/mountcalibs/mountcalib"@) == Some(mounts),
                mount_calibrations.wf(),
                forall|k: int|
                    0 <= k < j ==> spec_parse_mount_calibration(#[trigger] mounts[k]) is Some,
                mount_map_views(mount_calibrations@) == mounts_map_of(mounts.subrange(0, j as int)),
            decreases mounts.len() - j,
        {
            let mount = MountCalibration::from_element(&mount_elems[j])?;
            let mount_name = mount.name.clone();
            let ghost before = mount_calibrations@;
            let ghost v = mount@;
            mount_calibrations.insert(mount_name, mount);
            proof {
                let pre = mounts.subrange(0, j as int);
                let cur = mounts.subrange(0, j + 1);
                assert(cur.drop_last() =~= pre);
                assert(cur.last() == mounts[j as int]);
                assert(spec_parse_mount_calibration(mounts[j as int]) == Some(v));
                assert(mount_map_views(before.insert(v.name, mount_calibrations@[v.name]))
                    =~= mount_map_views(before).insert(v.name, v));
                assert(mount_calibrations@ =~= before.insert(
                    v.name,
                    mount_calibrations@[v.name],
                ));
                assert(mount_map_views(mount_calibrations@) =~= mounts_map_of(cur));
            }
            j += 1;
        }
        proof {
            assert(mounts.subrange(0, mounts.len() as int) =~= mounts);
        }
        let sp_elems = element.children("scanpositions/scanposition")?;
        let ghost sps = sp_elems@;
        let mut scan_positions: Dict<ScanPosition> = Dict::new();
        let mut m: usize = 0;
        proof {
            assert(sps.subrange(0, 0) =~= Seq::<Element>::empty());
            assert(sp_map_views(scan_positions@) =~= sps_map_of(sps.subrange(0, 0)));
        }
        while m < sp_elems.len()
            invariant
                m <= sps.len(),
                sps == sp_elems@,
                children_at(*element, "scanpositions/scanposition"@) == Some(sps),
                scan_positions.wf(),
                forall|k: Seq<char>|
                    scan_positions@.contains_key(k) ==> (#[trigger] scan_positions@[k]).wf(),
                forall|k: int|
                    0 <= k < m ==> spec_parse_scan_position(#[trigger] sps[k]) is Some,
                sp_map_views(scan_positions@) == sps_map_of(sps.subrange(0, m as int)),
            decreases sps.len() - m,
        {
            let sp = ScanPosition::from_element(&sp_elems[m])?;
            let sp_name = sp.name.clone();
            let ghost before = scan_positions@;
            let ghost v = sp@;
            scan_positions.insert(sp_name, sp);
            proof {
                let pre = sps.subrange(0, m as int);
                let cur = sps.subrange(0, m + 1);
                assert(cur.drop_last() =~= pre);
                assert(cur.last() == sps[m as int]);
                assert(spec_parse_scan_position(sps[m as int]) == Some(v));
                assert(sp_map_views(before.insert(v.name, scan_positions@[v.name]))
                    =~= sp_map_views(before).insert(v.name, v));
                assert(scan_positions@ =~= before.insert(v.name, scan_positions@[v.name]));
                assert(sp_map_views(scan_positions@) =~= sps_map_of(cur));
            }
            m += 1;
        }
        proof {
            assert(sps.subrange(0, sps.len() as int) =~= sps);
        }
        let name = text_field(element, "name")?;
        let pop = parse_projective3(element.child("pop/matrix")?.as_str()?)?;
        let project = Project {
            path: path.to_owned(),
            camera_calibrations,
            mount_calibrations,
            name,
            scan_positions,
            pop,
        };
        proof {
            assert(spec_parse_project(path@, *element) == Some(project@)) by {
                assert(project@ =~~= spec_parse_project(path@, *element)->Some_0);
            }
        }
        let sp_entries = project.scan_positions.entries();
        let ghost es = sp_entries@;
        proof {
            assert(forall|k: int|
                0 <= k < es.len() ==> project.scan_positions@.contains_key((#[trigger] es[k]).0@)
                    && project.scan_positions@[(#[trigger] es[k]).0@] == es[k].1);
        }
        let mut q: usize = 0;
        while q < sp_entries.len()
            invariant
                q <= es.len(),
                es == sp_entries@,
                project.wf(),
                spec_parse_project(path@, *element) == Some(project@),
                forall|k: int|
                    0 <= k < es.len() ==> project.scan_positions@.contains_key(
                        (#[trigger] es[k]).0@,
                    ) && project.scan_positions@[(#[trigger] es[k]).0@] == es[k].1,
                forall|k: int|
                    0 <= k < q ==> sp_resolved(
                        (#[trigger] es[k]).1@,
                        cam_map_views(project.camera_calibrations@),
                        mount_map_views(project.mount_calibrations@),
                    ),
            decreases es.len() - q,
        {
            let sp = &sp_entries[q].1;
            proof {
                assert(project.scan_positions@[es[q as int].0@] == es[q as int].1);
                assert(sp.wf());
            }
            match check_references(
                sp,
                &project.camera_calibrations,
                &project.mount_calibrations,
            ) {
                Ok(u) => u,
                Err(e) => {
                    proof {
                        let k = es[q as int].0@;
                        assert(project@.scan_positions.contains_key(k));
                        assert(project@.scan_positions[k] == es[q as int].1@);
                        assert(!references_resolve(project@));
                    }
                    return Err(e);
                },
            }
            q += 1;
        }
        proof {
            assert forall|k: Seq<char>| project@.scan_positions.contains_key(k) implies sp_resolved(
                #[trigger] project@.scan_positions[k],
                project@.camera_calibrations,
                project@.mount_calibrations,
            ) by {
                assert(project.scan_positions@.contains_key(k));
                let w = choose|w: int| 0 <= w < es.len() && (#[trigger] es[w]).0@ == k;
                assert(project@.scan_positions[k] == es[w].1@);
            }
        }
        Ok(project)
    }
}

/// The components joined with slashes.
pub open spec fn join_components(cs: Seq<Seq<char>>) -> Seq<char>
    decreases cs.len(),
{
    if cs.len() == 0 {
        Seq::empty()
    } else if cs.len() == 1 {
        cs[0]
    } else {
        join_components(cs.drop_last()) + seq!['/'] + cs.last()
    }
}

/// The first component at or after `i` whose extension is `RiSCAN`.
pub open spec fn first_riscan(cs: Seq<Seq<char>>, i: int) -> Option<int>
    decreases cs.len() - i when 0 <= i
{
    if i >= cs.len() {
        None
    } else if extension_of(cs[i]) == Some("RiSCAN"@) {
        Some(i)
    } else {
        first_riscan(cs, i + 1)
    }
}

/// The path of the project file that a path leads to.
///
/// A path whose last component ends in `.rsp` is the project file itself; one
/// whose last component ends in `.RiSCAN` is the project directory, holding
/// `project.rsp`; otherwise the path up to its first `.RiSCAN` component is
/// the project directory.  Any other path is no project path.
pub open spec fn spec_rsp_path(path: Seq<char>) -> Option<Seq<char>> {
    let comps = path_components(path);
    let lead: Seq<char> = if path.len() > 0 && path[0] == '/' {
        seq!['/']
    } else {
        Seq::empty()
    };
    if comps.len() > 0 && extension_of(comps.last()) == Some("rsp"@) {
        Some(path)
    } else if comps.len() > 0 && extension_of(comps.last()) == Some("RiSCAN"@) {
        Some(path + "/project.rsp"@)
    } else {
        match first_riscan(comps, 0) {
            Some(i) => Some(lead + join_components(comps.subrange(0, i + 1)) + "/project.rsp"@),
            None => None,
        }
    }
}

/// Returns the path of the project file that a path leads to.
pub fn rsp_path(path: &str) -> (r: Result<String, Error>)
    ensures
        r matches Ok(p) ==> spec_rsp_path(path@) == Some(p@),
        r is Ok <==> spec_rsp_path(path@) is Some,
        r matches Err(e) ==> e matches Error::ProjectPath(t) && t@ == path@,
{
    let comps = crate::text::components(path);
    let ghost views = crate::text::strs_view(comps@);
    proof {
        assert(views.len() == comps@.len());
    }
    if comps.len() > 0 {
        proof {
            assert(views.last() == comps@[comps@.len() - 1]@);
        }
        let last_ext = crate::text::extension(comps[comps.len() - 1].as_str());
        match last_ext {
            Some(ext) => {
                if crate::text::str_eq(ext.as_str(), "rsp") {
                    return Ok(path.to_owned());
                }
                if crate::text::str_eq(ext.as_str(), "RiSCAN") {
                    let mut out = path.to_owned();
                    out.append("/project.rsp");
                    return Ok(out);
                }
            },
            None => {
            },
        }
    }
    let n = path.unicode_len();
    let absolute = if n > 0 {
        let c = path.get_char(0);
        c == '/'
    } else {
        false
    };
    let ghost lead: Seq<char> = if path@.len() > 0 && path@[0] == '/' {
        seq!['/']
    } else {
        Seq::<char>::empty()
    };
    let mut i: usize = 0;
    while i < comps.len()
        invariant
            i <= comps@.len(),
            views == crate::text::strs_view(comps@),
            views == path_components(path@),
            first_riscan(views, 0) == first_riscan(views, i as int),
            !(views.len() > 0 && extension_of(views.last()) == Some("rsp"@)),
            !(views.len() > 0 && extension_of(views.last()) == Some("RiSCAN"@)),
            absolute == (path@.len() > 0 && path@[0] == '/'),
            lead == (if path@.len() > 0 && path@[0] == '/' {
                seq!['/']
            } else {
                Seq::<char>::empty()
            }),
        decreases comps@.len() - i,
    {
        let ext = crate::text::extension(comps[i].as_str());
        let hit = match ext {
            Some(e) => crate::text::str_eq(e.as_str(), "RiSCAN"),
            None => false,
        };
        if hit {
            let mut out = String::new();
            if absolute {
                out.append("/");
            }
            proof {
                reveal_strlit("/");
                assert(out@ =~= lead);
                assert(views.subrange(0, 0) =~= Seq::<Seq<char>>::empty());
            }
            let mut j: usize = 0;
            while j <= i
                invariant
                    j <= i + 1,
                    i < usize::MAX,
                    i < comps@.len(),
                    views == crate::text::strs_view(comps@),
                    lead.len() <= 1,
                    out@ == lead + join_components(views.subrange(0, j as int)),
                decreases i + 1 - j,
            {
                if j > 0 {
                    out.append("/");
                }
                out.append(comps[j].as_str());
                proof {
                    reveal_strlit("/");
                    let pre = views.subrange(0, j as int);
                    let cur = views.subrange(0, j + 1);
                    assert(cur.drop_last() =~= pre);
                    assert(cur.last() == views[j as int]);
                    if j == 0 {
                        assert(join_components(cur) == cur[0]);
                        assert(out@ =~= lead + join_components(cur));
                    } else {
                        assert(join_components(cur) == join_components(pre) + seq!['/']
                            + views[j as int]);
                        assert(out@ =~= lead + join_components(cur));
                    }
                }
                j += 1;
            }
            out.append("/project.rsp");
            proof {
                assert(first_riscan(views, i as int) == Some(i as int));
                assert(out@ =~= lead + join_components(views.subrange(0, i as int + 1))
                    + "/project.rsp"@);
            }
            return Ok(out);
        }
        i += 1;
    }
    Err(Error::ProjectPath(path.to_owned()))
}

/// A scan position can be deduced from the path: its parent directory is a
/// scan position name, or the first ` - ` segment of its file stem is one,
/// or some scan position holds an image named like the whole file stem.
pub open spec fn sp_deducible(p: ProjectView, path: Seq<char>) -> bool {
    ||| (match parent_dir_name(path) {
        Some(d) => p.scan_positions.contains_key(d),
        None => false,
    })
    ||| (match path_file_stem(path) {
        Some(st) => p.scan_positions.contains_key(first_dash_segment(st)) || (exists|k: Seq<char>|
            p.scan_positions.contains_key(k) && (#[trigger] p.scan_positions[k]).images.contains_key(
                st,
            )),
        None => false,
    })
}

/// The scan position that a path deduction must return, tried in order:
/// parent directory name, then first ` - ` segment of the file stem, then
/// any scan position whose images hold the whole file stem.
pub open spec fn sp_deduction_matches(p: ProjectView, path: Seq<char>, sp: ScanPositionView) -> bool {
    if parent_dir_name(path) matches Some(d) && p.scan_positions.contains_key(d) {
        sp == p.scan_positions[parent_dir_name(path)->Some_0]
    } else if path_file_stem(path) matches Some(st) && p.scan_positions.contains_key(
        first_dash_segment(st),
    ) {
        sp == p.scan_positions[first_dash_segment(path_file_stem(path)->Some_0)]
    } else {
        match path_file_stem(path) {
            Some(st) => sp.images.contains_key(st) && exists|k: Seq<char>|
                p.scan_positions.contains_key(k) && #[trigger] p.scan_positions[k] == sp,
            None => false,
        }
    }
}

impl Project {
    /// Returns the scan position with the provided name.
    pub fn scan_position(&self, name: &str) -> (r: Option<&ScanPosition>)
        requires
            self.wf(),
        ensures
            match r {
                Some(sp) => self@.scan_positions.contains_key(name@) && sp@
                    == self@.scan_positions[name@] && sp.wf(),
                None => !self@.scan_positions.contains_key(name@),
            },
    {
        self.scan_positions.get(name)
    }

    /// Returns the image of the provided name in the named scan position.
    pub fn image(&self, scan_position: &str, image: &str) -> (r: Option<&Image>)
        requires
            self.wf(),
        ensures
            match r {
                Some(img) => self@.scan_positions.contains_key(scan_position@)
                    && self@.scan_positions[scan_position@].images.contains_key(image@) && img@
                    == self@.scan_positions[scan_position@].images[image@],
                None => !self@.scan_positions.contains_key(scan_position@)
                    || !self@.scan_positions[scan_position@].images.contains_key(image@),
            },
    {
        match self.scan_position(scan_position) {
            Some(sp) => sp.image(image),
            None => None,
        }
    }

    /// Finds a scan position that contains the named scan.
    pub fn scan_position_with_scan(&self, name: &str) -> (r: Option<&ScanPosition>)
        requires
            self.wf(),
        ensures
            match r {
                Some(sp) => sp@.scans.contains_key(name@) && sp.wf() && exists|k: Seq<char>|
                    self@.scan_positions.contains_key(k) && #[trigger] self@.scan_positions[k]
                        == sp@,
                None => forall|k: Seq<char>|
                    self@.scan_positions.contains_key(k) ==> !(#[trigger] self@.scan_positions[k]).scans.contains_key(
                        name@,
                    ),
            },
    {
        let entries = self.scan_positions.entries();
        let ghost es = entries@;
        proof {
            assert(forall|k: int|
                0 <= k < es.len() ==> self.scan_positions@.contains_key((#[trigger] es[k]).0@)
                    && self.scan_positions@[(#[trigger] es[k]).0@] == es[k].1);
        }
        let mut i: usize = 0;
        while i < entries.len()
            invariant
                i <= es.len(),
                es == entries@,
                self.wf(),
                forall|k: int|
                    0 <= k < es.len() ==> self.scan_positions@.contains_key((#[trigger] es[k]).0@)
                        && self.scan_positions@[(#[trigger] es[k]).0@] == es[k].1,
                forall|k: int| 0 <= k < i ==> !(#[trigger] es[k]).1@.scans.contains_key(name@),
            decreases es.len() - i,
        {
            let sp = &entries[i].1;
            proof {
                assert(self.scan_positions@[es[i as int].0@] == es[i as int].1);
                assert(sp.wf());
            }
            if sp.contains_scan(name) {
                proof {
                    let k = es[i as int].0@;
                    assert(self@.scan_positions.contains_key(k));
                    assert(self@.scan_positions[k] == es[i as int].1@);
                }
                return Some(sp);
            }
            i += 1;
        }
        proof {
            assert forall|k: Seq<char>| self@.scan_positions.contains_key(k) implies !(
            #[trigger] self@.scan_positions[k]).scans.contains_key(name@) by {
                assert(self.scan_positions@.contains_key(k));
                let w = choose|w: int| 0 <= w < es.len() && (#[trigger] es[w]).0@ == k;
                assert(self@.scan_positions[k] == es[w].1@);
            }
        }
        None
    }

    /// Returns the scan position that owns an externally stored artifact,
    /// deduced from the artifact's path.
    pub fn scan_position_from_path(&self, path: &str) -> (r: Result<&ScanPosition, Error>)
        requires
            self.wf(),
        ensures
            r is Ok <==> sp_deducible(self@, path@),
            r matches Ok(sp) ==> sp_deduction_matches(self@, path@, sp@) && sp.wf(),
            r matches Err(e) ==> e matches Error::ScanPositionFromPath(t) && t@ == path@,
    {
        let comps = crate::text::components(path);
        let ghost views = crate::text::strs_view(comps@);
        proof {
            assert(views.len() == comps@.len());
        }
        if comps.len() >= 2 {
            proof {
                assert(views[views.len() - 2] == comps@[comps@.len() - 2]@);
                assert(parent_dir_name(path@) == Some(views[views.len() - 2]));
            }
            match self.scan_positions.get(comps[comps.len() - 2].as_str()) {
                Some(sp) => {
                    return Ok(sp);
                },
                None => {
                },
            }
        }
        if comps.len() >= 1 {
            proof {
                assert(views.last() == comps@[comps@.len() - 1]@);
            }
            let st = crate::text::stem(comps[comps.len() - 1].as_str());
            let seg = crate::text::dash_segment(st.as_str());
            match self.scan_positions.get(seg.as_str()) {
                Some(sp) => {
                    proof {
                        assert(path_file_stem(path@) == Some(st@));
                        assert(first_dash_segment(st@) == seg@);
                        assert(self@.scan_positions.contains_key(seg@));
                        assert(sp@ == self@.scan_positions[seg@]);
                    }
                    return Ok(sp);
                },
                None => {
                },
            }
            let entries = self.scan_positions.entries();
            let ghost es = entries@;
            proof {
                assert(forall|k: int|
                    0 <= k < es.len() ==> self.scan_positions@.contains_key(
                        (#[trigger] es[k]).0@,
                    ) && self.scan_positions@[(#[trigger] es[k]).0@] == es[k].1);
            }
            let mut i: usize = 0;
            while i < entries.len()
                invariant
                    i <= es.len(),
                    es == entries@,
                    self.wf(),
                    st@ == stem_of(views.last()),
                    views == crate::text::strs_view(comps@),
                    views == path_components(path@),
                    views.len() >= 1,
                    !(parent_dir_name(path@) matches Some(d)
                        && self@.scan_positions.contains_key(d)),
                    !self@.scan_positions.contains_key(first_dash_segment(st@)),
                    st@ == path_file_stem(path@)->Some_0,
                    path_file_stem(path@) is Some,
                    forall|k: int|
                        0 <= k < es.len() ==> self.scan_positions@.contains_key(
                            (#[trigger] es[k]).0@,
                        ) && self.scan_positions@[(#[trigger] es[k]).0@] == es[k].1,
                    forall|k: int|
                        0 <= k < i ==> !(#[trigger] es[k]).1@.images.contains_key(st@),
                decreases es.len() - i,
            {
                let sp = &entries[i].1;
                proof {
                    assert(self.scan_positions@[es[i as int].0@] == es[i as int].1);
                    assert(sp.wf());
                }
                if sp.images.get(st.as_str()).is_some() {
                    proof {
                        let k = es[i as int].0@;
                        assert(self@.scan_positions.contains_key(k));
                        assert(self@.scan_positions[k] == es[i as int].1@);
                        assert(sp@.images.contains_key(st@));
                    }
                    return Ok(sp);
                }
                i += 1;
            }
            proof {
                assert forall|k: Seq<char>| self@.scan_positions.contains_key(k) implies !(
                #[trigger] self@.scan_positions[k]).images.contains_key(stem_of(views.last())) by {
                    assert(self.scan_positions@.contains_key(k));
                    let w = choose|w: int| 0 <= w < es.len() && (#[trigger] es[w]).0@ == k;
                    assert(self@.scan_positions[k] == es[w].1@);
                }
            }
        }
        Err(Error::ScanPositionFromPath(path.to_owned()))
    }
}

} // verus!
