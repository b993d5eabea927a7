//! Scan positions and their constituent parts.

use vstd::multiset::Multiset;
use vstd::prelude::*;
use crate::Error;
use crate::dict::Dict;
use crate::element::{children_at, noderef_at, text_at, Element};
use crate::camera_calibration::CameraCalibration;
use crate::mount_calibration::MountCalibration;
use crate::project::Project;
use crate::text::{lemma_lex_le_refl, lemma_lex_le_total, lemma_lex_le_trans, lex_le, parent_path, path_file_stem, str_eq};
use crate::utils::{
    parse_projective3, spec_parse_projective3, text_field, uint_field, uint_value_at, Projective3,
};

verus! {

/// A scan position image: a pose and two calibration references.
#[derive(Clone, Debug, PartialEq)]
pub struct Image {
    /// The name of the image.
    pub name: String,
    /// The camera's own position when taking the image.
    pub cop: Projective3,
    /// The name of the image's camera calibration.
    pub camera_calibration_name: String,
    /// The name of the image's mount calibration.
    pub mount_calibration_name: String,
}

/// What a scan position image holds, seen through views.
#[verifier::ext_equal]
pub ghost struct ImageView {
    /// The name of the image.
    pub name: Seq<char>,
    /// The camera's own position when taking the image.
    pub cop: Seq<Seq<char>>,
    /// The name of the image's camera calibration.
    pub camera_calibration_name: Seq<char>,
    /// The name of the image's mount calibration.
    pub mount_calibration_name: Seq<char>,
}

impl View for Image {
    type V = ImageView;

    open spec fn view(&self) -> ImageView {
        ImageView {
            name: self.name@,
            cop: self.cop@,
            camera_calibration_name: self.camera_calibration_name@,
            mount_calibration_name: self.mount_calibration_name@,
        }
    }
}

/// What parsing a scan position image element yields: its name, its pose
/// matrix, and the names its calibration references point at.
pub open spec fn spec_parse_image(e: Element) -> Option<ImageView> {
    match (text_at(e, "name"@), text_at(e, "cop/matrix"@)) {
        (Some(n), Some(m)) => match (
            spec_parse_projective3(m),
            noderef_at(e, "camcalib_ref"@),
            noderef_at(e, "mountcalib_ref"@),
        ) {
            (Some(mat), Some(cam), Some(mount)) => Some(
                ImageView {
                    name: n,
                    cop: mat,
                    camera_calibration_name: cam,
                    mount_calibration_name: mount,
                },
            ),
            _ => None,
        },
        _ => None,
    }
}

impl Image {
    /// Reads a scan position image from its element.
    pub fn from_element(element: &Element) -> (r: Result<Image, Error>)
        ensures
            r matches Ok(img) ==> spec_parse_image(*element) == Some(img@) && img.cop.well_formed(),
            r is Ok <==> spec_parse_image(*element) is Some,
            r matches Err(e) ==> crate::is_load_error(e),
    {
        let name = text_field(element, "name")?;
        let cop_text = element.child("cop/matrix")?.as_str()?;
        let cop = parse_projective3(cop_text)?;
        let camera_calibration_name = element.child("camcalib_ref")?.noderef()?;
        let mount_calibration_name = element.child("mountcalib_ref")?.noderef()?;
        Ok(Image { name, cop, camera_calibration_name, mount_calibration_name })
    }
}

/// A scan.
#[derive(Clone, Debug, PartialEq)]
pub struct Scan {
    /// The name of the scan.
    pub name: String,
    /// The file name of the scan.
    pub file: String,
    /// The number of measurements in the phi direction.
    pub phi_count: usize,
    /// The number of measurements in the theta direction.
    pub theta_count: usize,
}

/// What a scan record holds, seen through views.
#[verifier::ext_equal]
pub ghost struct ScanView {
    /// The name of the scan.
    pub name: Seq<char>,
    /// The file name of the scan.
    pub file: Seq<char>,
    /// The number of measurements in the phi direction.
    pub phi_count: int,
    /// The number of measurements in the theta direction.
    pub theta_count: int,
}

impl View for Scan {
    type V = ScanView;

    open spec fn view(&self) -> ScanView {
        ScanView {
            name: self.name@,
            file: self.file@,
            phi_count: self.phi_count as int,
            theta_count: self.theta_count as int,
        }
    }
}

/// What parsing a scan element yields.
pub open spec fn spec_parse_scan(e: Element) -> Option<ScanView> {
    match (text_at(e, "name"@), text_at(e, "file"@)) {
        (Some(n), Some(f)) => match (
            uint_value_at(e, "theta_count"@),
            uint_value_at(e, "phi_count"@),
        ) {
            (Some(theta), Some(phi)) => Some(
                ScanView { name: n, file: f, phi_count: phi, theta_count: theta },
            ),
            _ => None,
        },
        _ => None,
    }
}

impl Scan {
    /// Reads a scan from its element.
    pub fn from_element(element: &Element) -> (r: Result<Scan, Error>)
        ensures
            r matches Ok(scan) ==> spec_parse_scan(*element) == Some(scan@),
            r is Ok <==> spec_parse_scan(*element) is Some,
            r matches Err(e) ==> crate::is_load_error(e),
    {
        let name = text_field(element, "name")?;
        let file = text_field(element, "file")?;
        let theta_count = uint_field(element, "theta_count")?;
        let phi_count = uint_field(element, "phi_count")?;
        Ok(Scan { name, file, phi_count, theta_count })
    }
}

/// The map a list of image elements loads into, keyed by image name; a
/// later element wins over an earlier one of the same name.
pub open spec fn images_map_of(cs: Seq<Element>) -> Map<Seq<char>, ImageView>
    decreases cs.len(),
{
    if cs.len() == 0 {
        Map::empty()
    } else {
        images_map_of(cs.drop_last()).insert(
            spec_parse_image(cs.last())->Some_0.name,
            spec_parse_image(cs.last())->Some_0,
        )
    }
}

/// The map a list of scan elements loads into, keyed by scan name.
pub open spec fn scans_map_of(cs: Seq<Element>) -> Map<Seq<char>, ScanView>
    decreases cs.len(),
{
    if cs.len() == 0 {
        Map::empty()
    } else {
        scans_map_of(cs.drop_last()).insert(
            spec_parse_scan(cs.last())->Some_0.name,
            spec_parse_scan(cs.last())->Some_0,
        )
    }
}

/// The views of the values of a map of images.
pub open spec fn image_map_views(m: Map<Seq<char>, Image>) -> Map<Seq<char>, ImageView> {
    Map::new(|k: Seq<char>| m.contains_key(k), |k: Seq<char>| m[k]@)
}

/// The views of the values of a map of scans.
pub open spec fn scan_map_views(m: Map<Seq<char>, Scan>) -> Map<Seq<char>, ScanView> {
    Map::new(|k: Seq<char>| m.contains_key(k), |k: Seq<char>| m[k]@)
}

/// A scan position.
#[derive(Clone, Debug, PartialEq)]
pub struct ScanPosition {
    /// The name of the scan position.
    pub name: String,
    /// The scan position images, by name.
    pub images: Dict<Image>,
    /// The scanner's own position.
    pub sop: Projective3,
    /// The scans taken at this position, by name.
    pub scans: Dict<Scan>,
    /// The scan position SOP matrix is frozen.
    pub is_frozen: bool,
}

/// What a scan position holds, seen through views.
#[verifier::ext_equal]
pub ghost struct ScanPositionView {
    /// The name of the scan position.
    pub name: Seq<char>,
    /// The scan position images, by name.
    pub images: Map<Seq<char>, ImageView>,
    /// The scanner's own position.
    pub sop: Seq<Seq<char>>,
    /// The scans taken at this position, by name.
    pub scans: Map<Seq<char>, ScanView>,
    /// The scan position SOP matrix is frozen.
    pub is_frozen: bool,
}

impl View for ScanPosition {
    type V = ScanPositionView;

    open spec fn view(&self) -> ScanPositionView {
        ScanPositionView {
            name: self.name@,
            images: image_map_views(self.images@),
            sop: self.sop@,
            scans: scan_map_views(self.scans@),
            is_frozen: self.is_frozen,
        }
    }
}

/// What parsing a scan position element yields: its name, its images and
/// scans keyed by name, its SOP matrix, and whether that matrix is frozen.
pub open spec fn spec_parse_scan_position(e: Element) -> Option<ScanPositionView> {
    let imgs = children_at(e, "scanposimages/scanposimage"@);
    let scns = children_at(e, "singlescans/scan"@);
    if {
        &&& text_at(e, "name"@) is Some
        &&& imgs is Some
        &&& forall|i: int|
            0 <= i < imgs->Some_0.len() ==> spec_parse_image(#[trigger] imgs->Some_0[i]) is Some
        &&& scns is Some
        &&& forall|i: int|
            0 <= i < scns->Some_0.len() ==> spec_parse_scan(#[trigger] scns->Some_0[i]) is Some
        &&& match text_at(e, "sop/matrix"@) {
            Some(m) => spec_parse_projective3(m) is Some,
            None => false,
        }
        &&& text_at(e, "sop/freeze"@) is Some
    } {
        Some(
            ScanPositionView {
                name: text_at(e, "name"@)->Some_0,
                images: images_map_of(imgs->Some_0),
                sop: spec_parse_projective3(text_at(e, "sop/matrix"@)->Some_0)->Some_0,
                scans: scans_map_of(scns->Some_0),
                is_frozen: text_at(e, "sop/freeze"@) == Some("1"@),
            },
        )
    } else {
        None
    }
}

impl ScanPosition {
    /// Every well-formed scan position keeps its registries well-formed.
    pub open spec fn wf(&self) -> bool {
        self.images.wf() && self.scans.wf()
    }

    /// Reads a scan position from its element.
    pub fn from_element(element: &Element) -> (r: Result<ScanPosition, Error>)
        ensures
            r matches Ok(sp) ==> spec_parse_scan_position(*element) == Some(sp@) && sp.wf()
                && sp.sop.well_formed(),
            r is Ok <==> spec_parse_scan_position(*element) is Some,
            r matches Err(e) ==> crate::is_load_error(e),
    {
        let name = text_field(element, "name")?;
        let image_elems = element.children("scanposimages/scanposimage")?;
        let ghost imgs = image_elems@;
        let mut images: Dict<Image> = Dict::new();
        let mut i: usize = 0;
        proof {
            assert(imgs.subrange(0, 0) =~= Seq::<Element>::empty());
            assert(image_map_views(images@) =~= images_map_of(imgs.subrange(0, 0)));
        }
        while i < image_elems.len()
            invariant
                i <= imgs.len(),
                imgs == image_elems@,
                children_at(*element, "scanposimages/scanposimage"@) == Some(imgs),
                images.wf(),
                forall|k: int| 0 <= k < i ==> spec_parse_image(#[trigger] imgs[k]) is Some,
                image_map_views(images@) == images_map_of(imgs.subrange(0, i as int)),
            decreases imgs.len() - i,
        {
            let img = Image::from_element(&image_elems[i])?;
            let img_name = img.name.clone();
            let ghost before = images@;
            let ghost v = img@;
            images.insert(img_name, img);
            proof {
                let pre = imgs.subrange(0, i as int);
                let cur = imgs.subrange(0, i + 1);
                assert(cur.drop_last() =~= pre);
                assert(cur.last() == imgs[i as int]);
                assert(spec_parse_image(imgs[i as int]) == Some(v));
                assert(image_map_views(before.insert(v.name, images@[v.name])) =~= image_map_views(
                    before,
                ).insert(v.name, v));
                assert(images@ =~= before.insert(v.name, images@[v.name]));
                assert(image_map_views(images@) =~= images_map_of(cur));
            }
            i += 1;
        }
        proof {
            assert(imgs.subrange(0, imgs.len() as int) =~= imgs);
        }
        let scan_elems = element.children("singlescans/scan")?;
        let ghost scns = scan_elems@;
        let mut scans: Dict<Scan> = Dict::new();
        let mut j: usize = 0;
        proof {
            assert(scns.subrange(0, 0) =~= Seq::<Element>::empty());
            assert(scan_map_views(scans@) =~= scans_map_of(scns.subrange(0, 0)));
        }
        while j < scan_elems.len()
            invariant
                j <= scns.len(),
                scns == scan_elems@,
                children_at(*element, "singlescans/scan"@) == Some(scns),
                scans.wf(),
                forall|k: int| 0 <= k < j ==> spec_parse_scan(#[trigger] scns[k]) is Some,
                scan_map_views(scans@) == scans_map_of(scns.subrange(0, j as int)),
            decreases scns.len() - j,
        {
            let scan = Scan::from_element(&scan_elems[j])?;
            let scan_name = scan.name.clone();
            let ghost before = scans@;
            let ghost v = scan@;
            scans.insert(scan_name, scan);
            proof {
                let pre = scns.subrange(0, j as int);
                let cur = scns.subrange(0, j + 1);
                assert(cur.drop_last() =~= pre);
                assert(cur.last() == scns[j as int]);
                assert(spec_parse_scan(scns[j as int]) == Some(v));
                assert(scan_map_views(before.insert(v.name, scans@[v.name])) =~= scan_map_views(
                    before,
                ).insert(v.name, v));
                assert(scans@ =~= before.insert(v.name, scans@[v.name]));
                assert(scan_map_views(scans@) =~= scans_map_of(cur));
            }
            j += 1;
        }
        proof {
            assert(scns.subrange(0, scns.len() as int) =~= scns);
        }
        let sop = parse_projective3(element.child("sop/matrix")?.as_str()?)?;
        let freeze = text_field(element, "sop/freeze")?;
        let is_frozen = str_eq(freeze.as_str(), "1");
        let sp = ScanPosition { name, images, sop, scans, is_frozen };
        proof {
            assert(spec_parse_scan_position(*element) == Some(sp@)) by {
                assert(sp@ =~~= spec_parse_scan_position(*element)->Some_0);
            }
        }
        Ok(sp)
    }
}

impl ScanPosition {
    /// Returns the image of the given name in this scan position.
    pub fn image(&self, name: &str) -> (r: Option<&Image>)
        requires
            self.wf(),
        ensures
            match r {
                Some(img) => self@.images.contains_key(name@) && img@ == self@.images[name@],
                None => !self@.images.contains_key(name@),
            },
    {
        self.images.get(name)
    }

    /// Returns all of the images, sorted by name.
    pub fn images(&self) -> (r: Vec<&Image>)
        requires
            self.wf(),
        ensures
            self@.images.dom().finite(),
            r@.len() == self@.images.dom().len(),
            forall|k: Seq<char>|
                #[trigger] self@.images.contains_key(k) ==> exists|i: int|
                    0 <= i < r@.len() && (#[trigger] r@[i])@ == self@.images[k],
            forall|p: int, q: int|
                0 <= p < q < r@.len() ==> lex_le((#[trigger] r@[p])@.name, (#[trigger] r@[q])@.name),
    {
        broadcast use vstd::seq_lib::group_to_multiset_ensures;

        let entries = self.images.entries();
        let ghost es = entries@;
        proof {
            assert(forall|k: int|
                0 <= k < es.len() ==> self.images@.contains_key((#[trigger] es[k]).0@)
                    && self.images@[(#[trigger] es[k]).0@] == es[k].1);
        }
        let mut rest: Vec<&Image> = Vec::new();
        let mut i: usize = 0;
        while i < entries.len()
            invariant
                i <= es.len(),
                es == entries@,
                rest@.len() == i,
                forall|k: int| 0 <= k < i ==> (#[trigger] rest@[k]) == &es[k].1,
            decreases es.len() - i,
        {
            rest.push(&entries[i].1);
            i += 1;
        }
        let ghost orig = rest@;
        let mut sorted: Vec<&Image> = Vec::new();
        while rest.len() > 0
            invariant
                sorted@.to_multiset().add(rest@.to_multiset()) =~= orig.to_multiset(),
                forall|p: int, q: int|
                    0 <= p < q < sorted@.len() ==> lex_le(
                        (#[trigger] sorted@[p])@.name,
                        (#[trigger] sorted@[q])@.name,
                    ),
                forall|p: int, q: int|
                    0 <= p < sorted@.len() && 0 <= q < rest@.len() ==> lex_le(
                        (#[trigger] sorted@[p])@.name,
                        (#[trigger] rest@[q])@.name,
                    ),
            decreases rest@.len(),
        {
            let mut m: usize = 0;
            let mut t: usize = 1;
            proof {
                lemma_lex_le_refl(rest@[0]@.name);
            }
            while t < rest.len()
                invariant
                    m < t <= rest@.len(),
                    rest@.len() > 0,
                    forall|u: int|
                        0 <= u < t ==> lex_le(rest@[m as int]@.name, (#[trigger] rest@[u])@.name),
                decreases rest@.len() - t,
            {
                if !crate::text::str_le(rest[m].name.as_str(), rest[t].name.as_str()) {
                    proof {
                        lemma_lex_le_total(rest@[m as int]@.name, rest@[t as int]@.name);
                        assert forall|u: int| 0 <= u < t + 1 implies lex_le(
                            rest@[t as int]@.name,
                            (#[trigger] rest@[u])@.name,
                        ) by {
                            if u < t {
                                lemma_lex_le_trans(
                                    rest@[t as int]@.name,
                                    rest@[m as int]@.name,
                                    rest@[u]@.name,
                                );
                            } else {
                                lemma_lex_le_refl(rest@[t as int]@.name);
                            }
                        }
                    }
                    m = t;
                }
                t += 1;
            }
            let x = rest[m];
            let ghost sorted_before = sorted@;
            let ghost rest_before = rest@;
            sorted.push(x);
            rest.remove(m);
            proof {
                broadcast use vstd::seq_lib::group_to_multiset_ensures;

                assert(sorted@ == sorted_before.push(x));
                assert(rest@ == rest_before.remove(m as int));
                assert(sorted_before.push(x).to_multiset() =~= sorted_before.to_multiset().insert(
                    x,
                ));
                assert(rest_before.remove(m as int).to_multiset()
                    =~= rest_before.to_multiset().remove(rest_before[m as int]));
                assert(sorted@.to_multiset() =~= sorted_before.to_multiset().insert(x));
                assert(rest@.to_multiset() =~= rest_before.to_multiset().remove(x));
                assert(rest_before.contains(x));
                assert(rest_before.to_multiset().count(x) > 0);
                assert(sorted@.to_multiset().add(rest@.to_multiset()) =~= orig.to_multiset());
                assert(forall|q: int|
                    0 <= q < rest@.len() ==> (#[trigger] rest@[q]) == rest_before[q]
                        || rest@[q] == rest_before[q + 1]);
            }
        }
        proof {
            broadcast use vstd::seq_lib::group_to_multiset_ensures;
            broadcast use vstd::multiset::group_multiset_axioms;

            assert(self@.images.dom() =~= self.images@.dom());
            assert(rest@.to_multiset().len() == 0);
            assert(rest@.to_multiset() =~= Multiset::<&Image>::empty());
            assert(sorted@.to_multiset() =~= orig.to_multiset());
            assert(sorted@.len() == sorted@.to_multiset().len());
            assert(orig.len() == orig.to_multiset().len());
            assert forall|k: Seq<char>| #[trigger]
                self@.images.contains_key(k) implies exists|i2: int|
                0 <= i2 < sorted@.len() && (#[trigger] sorted@[i2])@ == self@.images[k] by {
                assert(self.images@.contains_key(k));
                let w = choose|w: int| 0 <= w < es.len() && (#[trigger] es[w]).0@ == k;
                assert(orig[w] == &es[w].1);
                assert(orig.contains(orig[w]));
                assert(orig.to_multiset().count(orig[w]) > 0);
                assert(sorted@.to_multiset().count(orig[w]) > 0);
                assert(sorted@.contains(orig[w]));
                let i2 = choose|i2: int| 0 <= i2 < sorted@.len() && sorted@[i2] == orig[w];
                assert(sorted@[i2]@ == self@.images[k]);
            }
        }
        sorted
    }

    /// Returns true if the scan position contains a scan of the given name.
    pub fn contains_scan(&self, name: &str) -> (r: bool)
        requires
            self.wf(),
        ensures
            r == self@.scans.contains_key(name@),
    {
        self.scans.contains(name)
    }

    /// Returns the scan position image that owns an externally stored
    /// artifact: the one named like the path's file stem.
    pub fn image_from_path(&self, path: &str) -> (r: Result<&Image, Error>)
        requires
            self.wf(),
        ensures
            r is Ok <==> (match path_file_stem(path@) {
                Some(st) => self@.images.contains_key(st),
                None => false,
            }),
            r matches Ok(img) ==> img@ == self@.images[path_file_stem(path@)->Some_0],
            r matches Err(e) ==> e matches Error::ImageFromPath(t) && t@ == path@,
    {
        let comps = crate::text::components(path);
        if comps.len() == 0 {
            return Err(Error::ImageFromPath(path.to_owned()));
        }
        proof {
            assert(crate::text::strs_view(comps@).last() == comps@[comps@.len() - 1]@);
        }
        let st = crate::text::stem(comps[comps.len() - 1].as_str());
        match self.images.get(st.as_str()) {
            Some(img) => Ok(img),
            None => Err(Error::ImageFromPath(path.to_owned())),
        }
    }

    /// Returns the paths of the raw scan files under this scan position's
    /// own directory, one for each scan.
    pub fn singlescan_rxp_paths(&self, project: &Project) -> (r: Vec<String>)
        requires
            self.wf(),
            project.path@.len() > 0,
            project.path@ != seq!['/'],
        ensures
            rxp_paths_ok(self@, parent_path(project.path@), r@),
    {
        let mut base = crate::text::path_parent(project.path.as_str());
        base.append("/SCANS/");
        base.append(self.name.as_str());
        base.append("/SINGLESCANS/");
        let ghost basev = parent_path(project.path@) + "/SCANS/"@ + self@.name + "/SINGLESCANS/"@;
        let entries = self.scans.entries();
        let ghost es = entries@;
        proof {
            assert(forall|k: int|
                0 <= k < es.len() ==> self.scans@.contains_key((#[trigger] es[k]).0@)
                    && self.scans@[(#[trigger] es[k]).0@] == es[k].1);
        }
        let mut out: Vec<String> = Vec::new();
        let mut i: usize = 0;
        while i < entries.len()
            invariant
                i <= es.len(),
                es == entries@,
                base@ == basev,
                basev == parent_path(project.path@) + "/SCANS/"@ + self@.name + "/SINGLESCANS/"@,
                forall|k: int|
                    0 <= k < es.len() ==> self.scans@.contains_key((#[trigger] es[k]).0@)
                        && self.scans@[(#[trigger] es[k]).0@] == es[k].1,
                out@.len() == i,
                forall|k: int|
                    0 <= k < i ==> (#[trigger] out@[k])@ == basev + es[k].1.file@,
            decreases es.len() - i,
        {
            let mut p = base.clone();
            p.append(entries[i].1.file.as_str());
            out.push(p);
            i += 1;
        }
        proof {
            let dir = parent_path(project.path@);
            crate::dict::lemma_map_of_dom_len(es);
            assert(self@.scans.dom() =~= self.scans@.dom());
            assert forall|k: Seq<char>| #[trigger]
                self@.scans.contains_key(k) implies exists|i2: int|
                0 <= i2 < out@.len() && (#[trigger] out@[i2])@ == rxp_path_of(
                    dir,
                    self@.name,
                    self@.scans[k].file,
                ) by {
                assert(self.scans@.contains_key(k));
                let w = choose|w: int| 0 <= w < es.len() && (#[trigger] es[w]).0@ == k;
                assert(self@.scans[k] == es[w].1@);
                assert(out@[w]@ =~= rxp_path_of(dir, self@.name, self@.scans[k].file));
            }
            assert(rxp_paths_ok(self@, dir, out@));
        }
        out
    }
}

/// The produced list holds exactly the raw scan paths of the scan
/// position's scans: each listed path belongs to some scan, and each scan's
/// path is listed.
pub open spec fn rxp_paths_ok(sp: ScanPositionView, dir: Seq<char>, rs: Seq<String>) -> bool {
    &&& sp.scans.dom().finite()
    &&& rs.len() == sp.scans.dom().len()
    &&& forall|k: Seq<char>|
        #[trigger] sp.scans.contains_key(k) ==> exists|i: int|
            0 <= i < rs.len() && (#[trigger] rs[i])@ == rxp_path_of(dir, sp.name, sp.scans[k].file)
}

/// The path of one raw scan file: the project directory, then `SCANS`, the
/// scan position's name, `SINGLESCANS`, and the scan's file name.
pub open spec fn rxp_path_of(
    project_dir: Seq<char>,
    sp_name: Seq<char>,
    file: Seq<char>,
) -> Seq<char> {
    project_dir + "/SCANS/"@ + sp_name + "/SINGLESCANS/"@ + file
}

impl Image {
    /// Finds and returns this image's camera calibration in the project.
    pub fn camera_calibration<'a>(&self, project: &'a Project) -> (r: Result<
        &'a CameraCalibration,
        Error,
    >)
        requires
            project.wf(),
        ensures
            r is Ok <==> project@.camera_calibrations.contains_key(self@.camera_calibration_name),
            r matches Ok(c) ==> c@ == project@.camera_calibrations[self@.camera_calibration_name],
            r matches Err(e) ==> e matches Error::MissingCameraCalibration(n) && n@
                == self@.camera_calibration_name,
    {
        match project.camera_calibrations.get(self.camera_calibration_name.as_str()) {
            Some(c) => Ok(c),
            None => Err(Error::MissingCameraCalibration(self.camera_calibration_name.clone())),
        }
    }

    /// Finds and returns this image's mount calibration in the project.
    pub fn mount_calibration<'a>(&self, project: &'a Project) -> (r: Result<
        &'a MountCalibration,
        Error,
    >)
        requires
            project.wf(),
        ensures
            r is Ok <==> project@.mount_calibrations.contains_key(self@.mount_calibration_name),
            r matches Ok(m) ==> m@ == project@.mount_calibrations[self@.mount_calibration_name],
            r matches Err(e) ==> e matches Error::MissingMountCalibration(n) && n@
                == self@.mount_calibration_name,
    {
        match project.mount_calibrations.get(self.mount_calibration_name.as_str()) {
            Some(m) => Ok(m),
            None => Err(Error::MissingMountCalibration(self.mount_calibration_name.clone())),
        }
    }
}

} // verus!
