//! The photo table behind the UI: one job per extracted photo, keyed by photo id,
//! with its working file, thumbnail, rotation, how its orientation was found, the
//! page quad it was cut from, and its enhanced version when there is one.

use vstd::prelude::*;
use vstd::string::*;
use vstd::hash_map::StringHashMap;
use crate::naming::{join_path, join_path_spec, save_name, save_name_spec};
use crate::orientation::{turn, turned};
use crate::service::{DetectedPhoto, EnhancedPhoto, is_cancel_error};
use crate::text::contains_text;

verus! {

/// The enhanced version of a photo.
pub struct EnhancedInfo {
    pub path: String,
    pub thumb_b64: String,
    pub width: i32,
    pub height: i32,
}

pub struct EnhancedModel {
    pub path: Seq<char>,
    pub thumb: Seq<char>,
    pub width: i32,
    pub height: i32,
}

impl View for EnhancedInfo {
    type V = EnhancedModel;

    open spec fn view(&self) -> EnhancedModel {
        EnhancedModel { path: self.path@, thumb: self.thumb_b64@, width: self.width, height: self.height }
    }
}

/// One extracted photo. `Q` is the coordinate type of the page-space quad.
pub struct Job<Q> {
    pub source_file: String,
    pub extracted: String,
    pub thumb_b64: String,
    pub width: i32,
    pub height: i32,
    pub rotation: i32,
    pub method: String,
    pub quad: Vec<Q>,
    pub enhanced: Option<EnhancedInfo>,
}

pub struct JobModel<Q> {
    pub source_file: Seq<char>,
    pub extracted: Seq<char>,
    pub thumb: Seq<char>,
    pub width: i32,
    pub height: i32,
    pub rotation: i32,
    pub method: Seq<char>,
    pub quad: Seq<Q>,
    pub enhanced: Option<EnhancedModel>,
}

pub open spec fn enhanced_view(e: Option<EnhancedInfo>) -> Option<EnhancedModel> {
    match e {
        Some(x) => Some(x@),
        None => None,
    }
}

impl<Q> View for Job<Q> {
    type V = JobModel<Q>;

    open spec fn view(&self) -> JobModel<Q> {
        JobModel {
            source_file: self.source_file@,
            extracted: self.extracted@,
            thumb: self.thumb_b64@,
            width: self.width,
            height: self.height,
            rotation: self.rotation,
            method: self.method@,
            quad: self.quad@,
            enhanced: enhanced_view(self.enhanced),
        }
    }
}

/// What the UI is told about a photo.
pub struct PhotoMeta<Q> {
    pub id: String,
    pub source_file: String,
    pub thumb: String,
    pub width: i32,
    pub height: i32,
    pub rotation: i32,
    pub method: String,
    pub quad: Vec<Q>,
    pub enhanced: bool,
    pub enh_thumb: Option<String>,
    pub enh_width: Option<i32>,
    pub enh_height: Option<i32>,
}

pub struct MetaModel<Q> {
    pub id: Seq<char>,
    pub source_file: Seq<char>,
    pub thumb: Seq<char>,
    pub width: i32,
    pub height: i32,
    pub rotation: i32,
    pub method: Seq<char>,
    pub quad: Seq<Q>,
    pub enhanced: bool,
    pub enh_thumb: Option<Seq<char>>,
    pub enh_width: Option<i32>,
    pub enh_height: Option<i32>,
}

pub open spec fn opt_text_view(s: Option<String>) -> Option<Seq<char>> {
    match s {
        Some(x) => Some(x@),
        None => None,
    }
}

impl<Q> View for PhotoMeta<Q> {
    type V = MetaModel<Q>;

    open spec fn view(&self) -> MetaModel<Q> {
        MetaModel {
            id: self.id@,
            source_file: self.source_file@,
            thumb: self.thumb@,
            width: self.width,
            height: self.height,
            rotation: self.rotation,
            method: self.method@,
            quad: self.quad@,
            enhanced: self.enhanced,
            enh_thumb: opt_text_view(self.enh_thumb),
            enh_width: self.enh_width,
            enh_height: self.enh_height,
        }
    }
}

/// What the UI is told about the photo `id` with job `j`.
pub open spec fn meta_of<Q>(id: Seq<char>, j: JobModel<Q>) -> MetaModel<Q> {
    MetaModel {
        id,
        source_file: j.source_file,
        thumb: j.thumb,
        width: j.width,
        height: j.height,
        rotation: j.rotation,
        method: j.method,
        quad: j.quad,
        enhanced: j.enhanced is Some,
        enh_thumb: match j.enhanced {
            Some(e) => Some(e.thumb),
            None => None,
        },
        enh_width: match j.enhanced {
            Some(e) => Some(e.width),
            None => None,
        },
        enh_height: match j.enhanced {
            Some(e) => Some(e.height),
            None => None,
        },
    }
}

/// A fresh job for a photo detected on the sheet file `source_file`.
pub open spec fn detected_job<Q>(source_file: Seq<char>, d: DetectedPhoto<Q>) -> JobModel<Q> {
    JobModel {
        source_file,
        extracted: d.extracted@,
        thumb: d.thumb_b64@,
        width: d.width,
        height: d.height,
        rotation: d.rotation,
        method: d.method@,
        quad: d.quad@,
        enhanced: None,
    }
}

/// The job after a manual turn by `deg` degrees; `d` is the re-rendered photo.
/// The enhancement is dropped: it no longer matches the rotated photo.
pub open spec fn rotated_job<Q>(j: JobModel<Q>, deg: int, d: DetectedPhoto<Q>) -> JobModel<Q> {
    JobModel {
        rotation: turned(j.rotation as int, deg) as i32,
        thumb: d.thumb_b64@,
        width: d.width,
        height: d.height,
        method: "manual"@,
        enhanced: None,
        ..j
    }
}

/// The job after a manual re-crop, re-extracted as `d`. The enhancement is dropped:
/// it no longer matches the new crop.
pub open spec fn re_extracted_job<Q>(j: JobModel<Q>, d: DetectedPhoto<Q>) -> JobModel<Q> {
    JobModel {
        rotation: d.rotation,
        method: "manual ("@ + d.method@ + ")"@,
        quad: d.quad@,
        thumb: d.thumb_b64@,
        width: d.width,
        height: d.height,
        enhanced: None,
        ..j
    }
}

/// The job once its enhanced version `e` exists.
pub open spec fn enhanced_job<Q>(j: JobModel<Q>, e: EnhancedPhoto) -> JobModel<Q> {
    JobModel {
        enhanced: Some(
            EnhancedModel { path: e.enhanced@, thumb: e.thumb_b64@, width: e.width, height: e.height },
        ),
        ..j
    }
}

/// The job with its enhancement discarded.
pub open spec fn reset_job<Q>(j: JobModel<Q>) -> JobModel<Q> {
    JobModel { enhanced: None, ..j }
}

/// File that saving a photo copies: its enhanced version when there is one,
/// otherwise the original extraction.
pub open spec fn save_source<Q>(j: JobModel<Q>) -> Seq<char> {
    match j.enhanced {
        Some(e) => e.path,
        None => j.extracted,
    }
}

/// Error text for an id that names no photo.
pub open spec fn unknown_photo_text() -> Seq<char> {
    "unknown photo id"@
}

/// Copies of the files to save, as (source, destination) pairs, for those of the
/// first `n` ids that name a photo.
pub open spec fn save_plan_spec<Q>(
    jobs: Map<Seq<char>, JobModel<Q>>,
    ids: Seq<Seq<char>>,
    out_dir: Seq<char>,
    format: Seq<char>,
    n: int,
) -> Seq<(Seq<char>, Seq<char>)>
    decreases n,
{
    if n <= 0 {
        Seq::empty()
    } else {
        let prev = save_plan_spec(jobs, ids, out_dir, format, n - 1);
        let id = ids[n - 1];
        if jobs.contains_key(id) {
            prev.push((save_source(jobs[id]), join_path_spec(out_dir, save_name_spec(id, format))))
        } else {
            prev
        }
    }
}

fn copy_items<Q: Copy>(v: &Vec<Q>) -> (c: Vec<Q>)
    ensures
        c@ == v@,
{
    let mut c: Vec<Q> = Vec::new();
    let mut i: usize = 0;
    while i < v.len()
        invariant
            i <= v@.len(),
            c@ == v@.subrange(0, i as int),
        decreases v@.len() - i,
    {
        c.push(v[i]);
        i += 1;
        proof {
            assert(c@ =~= v@.subrange(0, i as int));
        }
    }
    proof {
        assert(c@ =~= v@);
    }
    c
}

fn copy_enhanced(e: &Option<EnhancedInfo>) -> (c: Option<EnhancedInfo>)
    ensures
        enhanced_view(c) == enhanced_view(*e),
{
    match e {
        Some(x) => Some(
            EnhancedInfo {
                path: x.path.clone(),
                thumb_b64: x.thumb_b64.clone(),
                width: x.width,
                height: x.height,
            },
        ),
        None => None,
    }
}

fn copy_job<Q: Copy>(j: &Job<Q>) -> (c: Job<Q>)
    ensures
        c@ == j@,
{
    Job {
        source_file: j.source_file.clone(),
        extracted: j.extracted.clone(),
        thumb_b64: j.thumb_b64.clone(),
        width: j.width,
        height: j.height,
        rotation: j.rotation,
        method: j.method.clone(),
        quad: copy_items(&j.quad),
        enhanced: copy_enhanced(&j.enhanced),
    }
}

/// A fresh job for a photo detected on the sheet file `source_file`.
pub fn make_job<Q: Copy>(source_file: &str, d: &DetectedPhoto<Q>) -> (j: Job<Q>)
    ensures
        j@ == detected_job(source_file@, *d),
{
    Job {
        source_file: String::from_str(source_file),
        extracted: d.extracted.clone(),
        thumb_b64: d.thumb_b64.clone(),
        width: d.width,
        height: d.height,
        rotation: d.rotation,
        method: d.method.clone(),
        quad: copy_items(&d.quad),
        enhanced: None,
    }
}

/// What the UI is told about photo `id`.
pub fn job_meta<Q: Copy>(id: &str, job: &Job<Q>) -> (m: PhotoMeta<Q>)
    ensures
        m@ == meta_of(id@, job@),
{
    let (enh_thumb, enh_width, enh_height) = match &job.enhanced {
        Some(e) => (Some(e.thumb_b64.clone()), Some(e.width), Some(e.height)),
        None => (None, None, None),
    };
    PhotoMeta {
        id: String::from_str(id),
        source_file: job.source_file.clone(),
        thumb: job.thumb_b64.clone(),
        width: job.width,
        height: job.height,
        rotation: job.rotation,
        method: job.method.clone(),
        quad: copy_items(&job.quad),
        enhanced: job.enhanced.is_some(),
        enh_thumb,
        enh_width,
        enh_height,
    }
}

/// Error text of a batch step for an id that names no photo: `unknown photo id <id>`.
pub fn unknown_photo_message(id: &str) -> (s: String)
    ensures
        s@ == "unknown photo id "@ + id@,
{
    let mut s = String::from_str("unknown photo id ");
    s.append(id);
    s
}

/// How an enhancement batch goes on after one photo.
pub enum BatchStep<Q> {
    /// The user cancelled: the batch stops, keeping what was enhanced so far.
    Cancelled,
    /// The batch fails with this error text.
    Failed(String),
    /// The photo was enhanced; this is what the UI now shows of it.
    Enhanced(PhotoMeta<Q>),
}

/// The photo table.
#[verifier::reject_recursive_types(Q)]
pub struct AppState<Q> {
    jobs: StringHashMap<Job<Q>>,
}

impl<Q> View for AppState<Q> {
    type V = Map<Seq<char>, JobModel<Q>>;

    closed spec fn view(&self) -> Map<Seq<char>, JobModel<Q>> {
        self.jobs@.map_values(|j: Job<Q>| j@)
    }
}

impl<Q: Copy> AppState<Q> {
    /// An empty table.
    pub fn new() -> (s: AppState<Q>)
        ensures
            s@ == Map::<Seq<char>, JobModel<Q>>::empty(),
    {
        let s = AppState { jobs: StringHashMap::new() };
        proof {
            assert(s@ =~= Map::<Seq<char>, JobModel<Q>>::empty());
        }
        s
    }

    /// Registers a photo detected on the sheet file `source_file` (replacing any
    /// earlier photo with the same id) and tells what the UI shows of it.
    pub fn record_detected(&mut self, source_file: &str, d: &DetectedPhoto<Q>) -> (m: PhotoMeta<Q>)
        ensures
            final(self)@ == old(self)@.insert(d.id@, detected_job(source_file@, *d)),
            m@ == meta_of(d.id@, detected_job(source_file@, *d)),
    {
        let job = make_job(source_file, d);
        let m = job_meta(d.id.as_str(), &job);
        let ghost jv = job@;
        self.jobs.insert(d.id.clone(), job);
        proof {
            assert(self@ =~= old(self)@.insert(d.id@, jv));
        }
        m
    }

    /// Working file of photo `id`, if the table knows it.
    pub fn photo_source(&self, id: &str) -> (r: Option<String>)
        ensures
            match r {
                Some(p) => self@.contains_key(id@) && p@ == self@[id@].extracted,
                None => !self@.contains_key(id@),
            },
    {
        match self.jobs.get(id) {
            Some(j) => Some(j.extracted.clone()),
            None => None,
        }
    }

    /// Records a manual turn of photo `id` by `deg` degrees, `d` being the re-rendered
    /// photo; the enhancement is dropped. Unknown ids are refused.
    pub fn rotate_photo(&mut self, id: &str, deg: i32, d: &DetectedPhoto<Q>) -> (r: Result<PhotoMeta<Q>, String>)
        ensures
            match r {
                Ok(m) => old(self)@.contains_key(id@) && final(self)@ == old(self)@.insert(
                    id@,
                    rotated_job(old(self)@[id@], deg as int, *d),
                ) && m@ == meta_of(id@, rotated_job(old(self)@[id@], deg as int, *d)),
                Err(e) => !old(self)@.contains_key(id@) && final(self)@ == old(self)@ && e@
                    == unknown_photo_text(),
            },
    {
        proof {
            reveal_strlit("manual");
            reveal_strlit("unknown photo id");
        }
        let old_job = match self.jobs.get(id) {
            Some(j) => copy_job(j),
            None => {
                return Err(String::from_str("unknown photo id"));
            },
        };
        let job = Job {
            rotation: turn(old_job.rotation, deg),
            thumb_b64: d.thumb_b64.clone(),
            width: d.width,
            height: d.height,
            method: String::from_str("manual"),
            enhanced: None,
            ..old_job
        };
        let m = job_meta(id, &job);
        let ghost jv = job@;
        proof {
            assert(jv == rotated_job(old(self)@[id@], deg as int, *d));
        }
        self.jobs.insert(String::from_str(id), job);
        proof {
            assert(self@ =~= old(self)@.insert(id@, jv));
        }
        Ok(m)
    }

    /// Records a manual re-crop of photo `id`, re-extracted as `d`; the enhancement is
    /// dropped. Unknown ids are refused.
    pub fn re_extract_photo(&mut self, id: &str, d: &DetectedPhoto<Q>) -> (r: Result<PhotoMeta<Q>, String>)
        ensures
            match r {
                Ok(m) => old(self)@.contains_key(id@) && final(self)@ == old(self)@.insert(
                    id@,
                    re_extracted_job(old(self)@[id@], *d),
                ) && m@ == meta_of(id@, re_extracted_job(old(self)@[id@], *d)),
                Err(e) => !old(self)@.contains_key(id@) && final(self)@ == old(self)@ && e@
                    == unknown_photo_text(),
            },
    {
        proof {
            reveal_strlit("manual (");
            reveal_strlit(")");
            reveal_strlit("unknown photo id");
        }
        let old_job = match self.jobs.get(id) {
            Some(j) => copy_job(j),
            None => {
                return Err(String::from_str("unknown photo id"));
            },
        };
        let mut method = String::from_str("manual (");
        method.append(d.method.as_str());
        method.append(")");
        let job = Job {
            rotation: d.rotation,
            method,
            quad: copy_items(&d.quad),
            thumb_b64: d.thumb_b64.clone(),
            width: d.width,
            height: d.height,
            enhanced: None,
            ..old_job
        };
        let m = job_meta(id, &job);
        let ghost jv = job@;
        proof {
            assert(jv == re_extracted_job(old(self)@[id@], *d));
        }
        self.jobs.insert(String::from_str(id), job);
        proof {
            assert(self@ =~= old(self)@.insert(id@, jv));
        }
        Ok(m)
    }

    /// Records the enhanced version `e` of photo `id`. Unknown ids are refused.
    pub fn photo_enhanced(&mut self, id: &str, e: &EnhancedPhoto) -> (r: Result<PhotoMeta<Q>, String>)
        ensures
            match r {
                Ok(m) => old(self)@.contains_key(id@) && final(self)@ == old(self)@.insert(
                    id@,
                    enhanced_job(old(self)@[id@], *e),
                ) && m@ == meta_of(id@, enhanced_job(old(self)@[id@], *e)),
                Err(msg) => !old(self)@.contains_key(id@) && final(self)@ == old(self)@ && msg@
                    == unknown_photo_text(),
            },
    {
        proof {
            reveal_strlit("unknown photo id");
        }
        let old_job = match self.jobs.get(id) {
            Some(j) => copy_job(j),
            None => {
                return Err(String::from_str("unknown photo id"));
            },
        };
        let job = Job {
            enhanced: Some(
                EnhancedInfo {
                    path: e.enhanced.clone(),
                    thumb_b64: e.thumb_b64.clone(),
                    width: e.width,
                    height: e.height,
                },
            ),
            ..old_job
        };
        let m = job_meta(id, &job);
        let ghost jv = job@;
        proof {
            assert(jv == enhanced_job(old(self)@[id@], *e));
        }
        self.jobs.insert(String::from_str(id), job);
        proof {
            assert(self@ =~= old(self)@.insert(id@, jv));
        }
        Ok(m)
    }

    /// Takes the outcome of enhancing photo `id` within a batch: an error that
    /// mentions "cancelled" stops the batch, any other error fails it with its text,
    /// and an enhanced version is recorded (see `photo_enhanced`; an id the table no
    /// longer knows fails the batch with `unknown photo id`).
    pub fn finish_enhancement(&mut self, id: &str, outcome: Result<EnhancedPhoto, String>) -> (s: BatchStep<Q>)
        ensures
            match outcome {
                Err(msg) => {
                    &&& final(self)@ == old(self)@
                    &&& if contains_text(msg@, "cancelled"@) {
                        s is Cancelled
                    } else {
                        s matches BatchStep::Failed(m) && m@ == msg@
                    }
                },
                Ok(e) => if old(self)@.contains_key(id@) {
                    &&& final(self)@ == old(self)@.insert(id@, enhanced_job(old(self)@[id@], e))
                    &&& s matches BatchStep::Enhanced(m) && m@ == meta_of(id@, enhanced_job(old(self)@[id@], e))
                } else {
                    &&& final(self)@ == old(self)@
                    &&& s matches BatchStep::Failed(m) && m@ == unknown_photo_text()
                },
            },
    {
        match outcome {
            Err(msg) => {
                if is_cancel_error(msg.as_str()) {
                    BatchStep::Cancelled
                } else {
                    BatchStep::Failed(msg)
                }
            },
            Ok(e) => match self.photo_enhanced(id, &e) {
                Ok(m) => BatchStep::Enhanced(m),
                Err(msg) => BatchStep::Failed(msg),
            },
        }
    }

    /// Discards the enhancement of photo `id`: it goes back to its original state.
    /// Unknown ids are refused.
    pub fn reset_enhancement(&mut self, id: &str) -> (r: Result<PhotoMeta<Q>, String>)
        ensures
            match r {
                Ok(m) => old(self)@.contains_key(id@) && final(self)@ == old(self)@.insert(
                    id@,
                    reset_job(old(self)@[id@]),
                ) && m@ == meta_of(id@, reset_job(old(self)@[id@])),
                Err(msg) => !old(self)@.contains_key(id@) && final(self)@ == old(self)@ && msg@
                    == unknown_photo_text(),
            },
    {
        proof {
            reveal_strlit("unknown photo id");
        }
        let old_job = match self.jobs.get(id) {
            Some(j) => copy_job(j),
            None => {
                return Err(String::from_str("unknown photo id"));
            },
        };
        let job = Job { enhanced: None, ..old_job };
        let m = job_meta(id, &job);
        let ghost jv = job@;
        self.jobs.insert(String::from_str(id), job);
        proof {
            assert(self@ =~= old(self)@.insert(id@, jv));
        }
        Ok(m)
    }

    /// The files to copy when saving the photos `ids` into `out_dir` in `format`:
    /// for each id that names a photo, in order, its enhanced version when there is
    /// one (otherwise its extraction) and the destination `<out_dir>/<stem>_p<index>.<ext>`.
    pub fn save_plan(&self, ids: &Vec<String>, out_dir: &str, format: &str) -> (plan: Vec<(String, String)>)
        ensures
            plan@.map_values(|p: (String, String)| (p.0@, p.1@)) == save_plan_spec(
                self@,
                ids@.map_values(|s: String| s@),
                out_dir@,
                format@,
                ids@.len() as int,
            ),
    {
        let ghost idv = ids@.map_values(|s: String| s@);
        let mut plan: Vec<(String, String)> = Vec::new();
        let mut i: usize = 0;
        while i < ids.len()
            invariant
                i <= ids@.len(),
                idv == ids@.map_values(|s: String| s@),
                plan@.map_values(|p: (String, String)| (p.0@, p.1@)) == save_plan_spec(
                    self@,
                    idv,
                    out_dir@,
                    format@,
                    i as int,
                ),
            decreases ids@.len() - i,
        {
            let id = ids[i].as_str();
            assert(idv[i as int] == id@);
            match self.jobs.get(id) {
                Some(j) => {
                    let src = match &j.enhanced {
                        Some(e) => e.path.clone(),
                        None => j.extracted.clone(),
                    };
                    let name = save_name(id, format);
                    let dst = join_path(out_dir, name.as_str());
                    let ghost before = plan@.map_values(|p: (String, String)| (p.0@, p.1@));
                    plan.push((src, dst));
                    proof {
                        assert(plan@.map_values(|p: (String, String)| (p.0@, p.1@)) =~= before.push(
                            (save_source(self@[id@]), join_path_spec(out_dir@, save_name_spec(id@, format@))),
                        ));
                    }
                },
                None => {},
            }
            i += 1;
        }
        plan
    }
}

/// Enhancing a photo that has no enhancement and then resetting it brings the
/// table back to exactly where it was: the photo is in its original state again.
pub proof fn lemma_reset_restores_original<Q>(t: Map<Seq<char>, JobModel<Q>>, id: Seq<char>, e: EnhancedPhoto)
    requires
        t.contains_key(id),
        t[id].enhanced is None,
    ensures
        ({
            let enhanced = t.insert(id, enhanced_job(t[id], e));
            enhanced.insert(id, reset_job(enhanced[id])) == t
        }),
{
    let enhanced = t.insert(id, enhanced_job(t[id], e));
    assert(reset_job(enhanced[id]) == t[id]);
    assert(enhanced.insert(id, reset_job(enhanced[id])) =~= t);
}

/// Saving copies the enhanced version of a photo once it has one, and its original
/// extraction once the enhancement is reset, or dropped by a manual turn or re-crop.
pub proof fn lemma_save_source<Q>(j: JobModel<Q>, e: EnhancedPhoto, deg: int, d: DetectedPhoto<Q>)
    ensures
        save_source(enhanced_job(j, e)) == e.enhanced@,
        save_source(reset_job(j)) == j.extracted,
        save_source(rotated_job(j, deg, d)) == j.extracted,
        save_source(re_extracted_job(j, d)) == j.extracted,
        rotated_job(j, deg, d).enhanced is None,
        re_extracted_job(j, d).enhanced is None,
{
}

/// A freshly recorded photo is found under its id, with the working file it was
/// detected with and no enhancement (so saving copies that file), and recording it
/// leaves every other photo of the table as it was.
pub proof fn lemma_recorded_photo_found<Q>(
    t: Map<Seq<char>, JobModel<Q>>,
    source_file: Seq<char>,
    d: DetectedPhoto<Q>,
    other: Seq<char>,
)
    ensures
        ({
            let after = t.insert(d.id@, detected_job(source_file, d));
            &&& after.contains_key(d.id@)
            &&& after[d.id@].extracted == d.extracted@
            &&& after[d.id@].enhanced is None
            &&& save_source(after[d.id@]) == d.extracted@
            &&& other != d.id@ ==> (after.contains_key(other) == t.contains_key(other))
            &&& other != d.id@ && t.contains_key(other) ==> after[other] == t[other]
        }),
{
}

/// A photo whose enhancement succeeds within a batch is shown under its own id as
/// enhanced, with the enhanced thumbnail and size; the rest of what the UI is told of it
/// stays as it was.
pub proof fn lemma_enhanced_photo_shown<Q>(id: Seq<char>, j: JobModel<Q>, e: EnhancedPhoto)
    ensures
        meta_of(id, enhanced_job(j, e)).id == id,
        meta_of(id, enhanced_job(j, e)).enhanced,
        meta_of(id, enhanced_job(j, e)).enh_thumb == Some(e.thumb_b64@),
        meta_of(id, enhanced_job(j, e)).enh_width == Some(e.width),
        meta_of(id, enhanced_job(j, e)).enh_height == Some(e.height),
        meta_of(id, enhanced_job(j, e)).thumb == meta_of(id, j).thumb,
        meta_of(id, enhanced_job(j, e)).rotation == meta_of(id, j).rotation,
        meta_of(id, enhanced_job(j, e)).quad == meta_of(id, j).quad,
{
}

/// A re-crop shows the re-extracted photo: its thumbnail, size, angle, quad and method
/// (marked manual) come from `d`, while its sheet and working file stay and any
/// enhancement is dropped; a manual turn likewise shows the re-rendered thumbnail and
/// size. What the UI is told follows.
pub proof fn lemma_recrop_shows_new_photo<Q>(id: Seq<char>, j: JobModel<Q>, d: DetectedPhoto<Q>, deg: int)
    ensures
        re_extracted_job(j, d).thumb == d.thumb_b64@,
        re_extracted_job(j, d).width == d.width,
        re_extracted_job(j, d).height == d.height,
        re_extracted_job(j, d).rotation == d.rotation,
        re_extracted_job(j, d).quad == d.quad@,
        re_extracted_job(j, d).method == "manual ("@ + d.method@ + ")"@,
        re_extracted_job(j, d).source_file == j.source_file,
        re_extracted_job(j, d).extracted == j.extracted,
        meta_of(id, re_extracted_job(j, d)).thumb == d.thumb_b64@,
        meta_of(id, re_extracted_job(j, d)).width == d.width,
        meta_of(id, re_extracted_job(j, d)).height == d.height,
        !meta_of(id, re_extracted_job(j, d)).enhanced,
        rotated_job(j, deg, d).thumb == d.thumb_b64@,
        rotated_job(j, deg, d).width == d.width,
        rotated_job(j, deg, d).height == d.height,
        rotated_job(j, deg, d).quad == j.quad,
        rotated_job(j, deg, d).extracted == j.extracted,
{
}

} // verus!
