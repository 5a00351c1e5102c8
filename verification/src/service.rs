//! What the model-service worker hands back, the cancel flag of an enhancement
//! batch, the staging of one enhancement, and base64 thumbnails.

use vstd::prelude::*;
use vstd::string::*;
use crate::text::{decimal, push_decimal, text_contains, contains_text, after_last, text_after_last};
use crate::naming::{
    enhanced_name, extracted_name, extracted_name_spec, id_index, id_index_spec, join_path, join_path_spec,
    photo_id, photo_id_spec, rotation_file, rotation_file_spec, stem_of, stem_of_spec,
};
use crate::orientation::{normal_degrees, normalize_degrees};

verus! {

/// Base64 digit for a 6-bit value (standard alphabet).
pub open spec fn b64_digit(v: int) -> char {
    if v < 26 {
        ((65 + v) as char)
    } else if v < 52 {
        ((97 + v - 26) as char)
    } else if v < 62 {
        ((48 + v - 52) as char)
    } else if v == 62 {
        '+'
    } else {
        '/'
    }
}

/// Standard base64 (RFC 4648 alphabet, `=` padding) of a byte string.
pub open spec fn base64_standard(s: Seq<u8>) -> Seq<char>
    decreases s.len(),
{
    if s.len() == 0 {
        Seq::empty()
    } else {
        let a = s[0] as int;
        let b = if s.len() > 1 { s[1] as int } else { 0 };
        let c = if s.len() > 2 { s[2] as int } else { 0 };
        let d0 = b64_digit(a / 4);
        let d1 = b64_digit((a % 4) * 16 + b / 16);
        let d2 = b64_digit((b % 16) * 4 + c / 64);
        let d3 = b64_digit(c % 64);
        if s.len() == 1 {
            seq![d0, d1, '=', '=']
        } else if s.len() == 2 {
            seq![d0, d1, d2, '=']
        } else {
            seq![d0, d1, d2, d3] + base64_standard(s.skip(3))
        }
    }
}

/// `base64::Engine::encode` with the `general_purpose::STANDARD` engine: standard
/// alphabet with `=` padding. The claim is that it returns exactly the standard
/// base64 text of the bytes; it panics only when the output length overflows, which
/// the bound on the input excludes.
#[verifier::external_body]
fn encode_standard(bytes: &[u8]) -> (text: String)
    requires
        bytes@.len() <= usize::MAX / 2,
    ensures
        text@ == base64_standard(bytes@),
{
    base64::Engine::encode(&base64::engine::general_purpose::STANDARD, bytes)
}

/// Base64 text of an encoded JPEG thumbnail or preview, as the UI shows it.
pub fn thumb_b64(jpeg: &[u8]) -> (text: String)
    requires
        jpeg@.len() <= usize::MAX / 2,
    ensures
        text@ == base64_standard(jpeg@),
{
    encode_standard(jpeg)
}

/// The enhanced version of one photo, as the service reports it.
pub struct EnhancedPhoto {
    pub id: String,
    /// Working file holding the enhanced photo.
    pub enhanced: String,
    pub thumb_b64: String,
    pub width: i32,
    pub height: i32,
}

/// One photo extracted from a sheet, as the service reports it. `Q` is the
/// coordinate type of the page-space quad (TL, TR, BR, BL as x, y pairs), which
/// the library carries without reading.
pub struct DetectedPhoto<Q> {
    pub id: String,
    pub index: usize,
    pub rotation: i32,
    /// How the upright orientation was decided: face / object / none / manual.
    pub method: String,
    pub width: i32,
    pub height: i32,
    /// Working file holding the extracted photo.
    pub extracted: String,
    pub thumb_b64: String,
    pub quad: Vec<Q>,
}

/// Result of detecting one sheet: preview image and extracted photos.
pub struct SheetDetected<Q> {
    pub sheet_b64: String,
    pub page_w: i32,
    pub page_h: i32,
    pub photos: Vec<DetectedPhoto<Q>>,
}

/// Cancel request of the running enhancement batch.
pub struct CancelFlag {
    pub cancelled: bool,
}

impl CancelFlag {
    pub fn new() -> (f: CancelFlag)
        ensures
            !f.cancelled,
    {
        CancelFlag { cancelled: false }
    }

    /// Whether the batch has been asked to stop.
    pub fn is_cancelled(&self) -> (r: bool)
        ensures
            r == self.cancelled,
    {
        self.cancelled
    }
}

/// Asks the running enhancement batch to stop.
pub fn cancel_enhance(flag: &mut CancelFlag)
    ensures
        final(flag).cancelled,
{
    flag.cancelled = true;
}

/// Clears the cancel request before a new batch starts.
pub fn reset_cancel(flag: &mut CancelFlag)
    ensures
        !final(flag).cancelled,
{
    flag.cancelled = false;
}

/// An enhancement error means the user cancelled: its text mentions "cancelled".
pub fn is_cancel_error(message: &str) -> (r: bool)
    ensures
        r == contains_text(message@, "cancelled"@),
{
    text_contains(message, "cancelled")
}

/// Work steps of one enhancement, in the order the service runs them.
#[derive(Clone, Copy)]
pub enum EnhanceStep {
    LoadModels,
    Upscale,
    Colorize,
    RestoreFaces,
    Save,
}

/// Number of progress stages of an enhancement with the chosen operations (at least one).
pub open spec fn stage_count(upscale: bool, colorize: bool, faces: bool) -> int {
    let n = (if upscale { 1int } else { 0int }) + (if colorize { 1int } else { 0int }) + (if faces { 1int } else { 0int });
    if n < 1 { 1 } else { n }
}

/// Number of progress stages of an enhancement (see `stage_count`).
pub fn enhance_stages(upscale: bool, colorize: bool, faces: bool) -> (n: usize)
    ensures
        n as int == stage_count(upscale, colorize, faces),
        1 <= n <= 3,
{
    let n = (if upscale { 1usize } else { 0 }) + (if colorize { 1usize } else { 0 }) + (if faces { 1usize } else { 0 });
    if n < 1 { 1 } else { n }
}

/// One planned step: what to run, the stage number its progress reports show, and
/// whether a cancel request is honoured right before it.
pub struct PlannedStep {
    pub step: EnhanceStep,
    pub stage: usize,
    pub check_cancel: bool,
}

/// The steps of one enhancement: a cancel check and model loading first, then the
/// chosen operations in the order upscale, colorize, restore faces (each but the
/// first preceded by a cancel check), then saving. Only the upscale advances the
/// stage number that progress reports carry.
pub open spec fn plan_spec(upscale: bool, colorize: bool, faces: bool) -> Seq<(EnhanceStep, int, bool)> {
    let after_up = if upscale { 1int } else { 0int };
    seq![(EnhanceStep::LoadModels, 0int, true)]
        + (if upscale { seq![(EnhanceStep::Upscale, 0int, false)] } else { Seq::empty() })
        + (if colorize { seq![(EnhanceStep::Colorize, after_up, true)] } else { Seq::empty() })
        + (if faces { seq![(EnhanceStep::RestoreFaces, after_up, true)] } else { Seq::empty() })
        + seq![(EnhanceStep::Save, after_up, false)]
}

pub open spec fn planned_view(p: PlannedStep) -> (EnhanceStep, int, bool) {
    (p.step, p.stage as int, p.check_cancel)
}

/// Step plan of one enhancement (see `plan_spec`).
pub fn enhance_plan(upscale: bool, colorize: bool, faces: bool) -> (plan: Vec<PlannedStep>)
    ensures
        plan@.map_values(|p: PlannedStep| planned_view(p)) == plan_spec(upscale, colorize, faces),
{
    let after_up: usize = if upscale { 1 } else { 0 };
    let mut plan: Vec<PlannedStep> = Vec::new();
    plan.push(PlannedStep { step: EnhanceStep::LoadModels, stage: 0, check_cancel: true });
    if upscale {
        plan.push(PlannedStep { step: EnhanceStep::Upscale, stage: 0, check_cancel: false });
    }
    if colorize {
        plan.push(PlannedStep { step: EnhanceStep::Colorize, stage: after_up, check_cancel: true });
    }
    if faces {
        plan.push(PlannedStep { step: EnhanceStep::RestoreFaces, stage: after_up, check_cancel: true });
    }
    plan.push(PlannedStep { step: EnhanceStep::Save, stage: after_up, check_cancel: false });
    proof {
        assert(plan@.map_values(|p: PlannedStep| planned_view(p)) =~= plan_spec(upscale, colorize, faces));
    }
    plan
}

/// Progress text reported when a step starts; saving reports none.
pub open spec fn step_label(step: EnhanceStep) -> Option<Seq<char>> {
    match step {
        EnhanceStep::LoadModels => Some("loading AI models…"@),
        EnhanceStep::Upscale => Some("starting upscale…"@),
        EnhanceStep::Colorize => Some("colorizing…"@),
        EnhanceStep::RestoreFaces => Some("restoring faces…"@),
        EnhanceStep::Save => None,
    }
}

/// What the service does next for one enhancement.
pub enum EnhanceAction {
    /// Stop: the enhancement fails with the error `cancelled`.
    Cancelled,
    /// Report progress `(stage, stages, label)` when there is a label, then run `step`.
    Run { step: EnhanceStep, stage: usize, stages: usize, label: Option<String> },
    /// Report `(stages, stages, "done")`: the enhanced photo is ready.
    Done { stages: usize },
}

/// Next action of the enhancement of one photo with the chosen operations, once the
/// first `done` steps of its plan (see `plan_spec`) have run, `cancelled` telling
/// whether the user asked the batch to stop: a pending cancel stops it right before a
/// step that honours one; otherwise the next step runs, with the stage number and
/// label its progress report carries; after the last step the enhancement is done.
pub fn enhance_photo(upscale: bool, colorize: bool, faces: bool, done: usize, cancelled: bool) -> (a: EnhanceAction)
    ensures
        ({
            let plan = plan_spec(upscale, colorize, faces);
            match a {
                EnhanceAction::Cancelled => done < plan.len() && plan[done as int].2 && cancelled,
                EnhanceAction::Run { step, stage, stages, label } => {
                    &&& done < plan.len()
                    &&& !(plan[done as int].2 && cancelled)
                    &&& step == plan[done as int].0
                    &&& stage as int == plan[done as int].1
                    &&& stages as int == stage_count(upscale, colorize, faces)
                    &&& match label {
                        Some(l) => step_label(step) == Some(l@),
                        None => step_label(step) is None,
                    }
                },
                EnhanceAction::Done { stages } => done >= plan.len() && stages as int == stage_count(
                    upscale,
                    colorize,
                    faces,
                ),
            }
        }),
{
    proof {
        reveal_strlit("loading AI models…");
        reveal_strlit("starting upscale…");
        reveal_strlit("colorizing…");
        reveal_strlit("restoring faces…");
    }
    let plan = enhance_plan(upscale, colorize, faces);
    let stages = enhance_stages(upscale, colorize, faces);
    if done < plan.len() {
        let p = &plan[done];
        proof {
            assert(planned_view(plan@[done as int]) == plan_spec(upscale, colorize, faces)[done as int]);
        }
        if p.check_cancel && cancelled {
            return EnhanceAction::Cancelled;
        }
        let label = match p.step {
            EnhanceStep::LoadModels => Some(String::from_str("loading AI models…")),
            EnhanceStep::Upscale => Some(String::from_str("starting upscale…")),
            EnhanceStep::Colorize => Some(String::from_str("colorizing…")),
            EnhanceStep::RestoreFaces => Some(String::from_str("restoring faces…")),
            EnhanceStep::Save => None,
        };
        EnhanceAction::Run { step: p.step, stage: p.stage, stages, label }
    } else {
        EnhanceAction::Done { stages }
    }
}

/// Progress of an enhancement stays below its number of stages until the final
/// `done` report: every step that reports progress carries a stage number below the
/// stage count.
pub proof fn lemma_progress_below_stages(upscale: bool, colorize: bool, faces: bool, k: int)
    requires
        0 <= k < plan_spec(upscale, colorize, faces).len(),
        step_label(plan_spec(upscale, colorize, faces)[k].0) is Some,
    ensures
        0 <= plan_spec(upscale, colorize, faces)[k].1 < stage_count(upscale, colorize, faces),
{
    let plan = plan_spec(upscale, colorize, faces);
    let after_up = if upscale { 1int } else { 0int };
    let ups: Seq<(EnhanceStep, int, bool)> = if upscale { seq![(EnhanceStep::Upscale, 0int, false)] } else { Seq::empty() };
    let col: Seq<(EnhanceStep, int, bool)> = if colorize { seq![(EnhanceStep::Colorize, after_up, true)] } else { Seq::empty() };
    let fac: Seq<(EnhanceStep, int, bool)> = if faces { seq![(EnhanceStep::RestoreFaces, after_up, true)] } else { Seq::empty() };
    let head: Seq<(EnhanceStep, int, bool)> = seq![(EnhanceStep::LoadModels, 0int, true)];
    let tail: Seq<(EnhanceStep, int, bool)> = seq![(EnhanceStep::Save, after_up, false)];
    assert(plan =~= head + ups + col + fac + tail);
    let n = plan.len() as int;
    assert(plan[n - 1] == (EnhanceStep::Save, after_up, false));
    assert forall|j: int| 0 <= j < n - 1 implies #[trigger] plan[j].1 == 0 || (plan[j].1 == 1 && upscale && (
    plan[j].0 == EnhanceStep::Colorize || plan[j].0 == EnhanceStep::RestoreFaces)) by {
        if j == 0 {
        } else if j < 1 + ups.len() {
            assert(plan[j] == ups[j - 1]);
        } else if j < 1 + ups.len() + col.len() {
            assert(plan[j] == col[j - 1 - ups.len()]);
        } else {
            assert(plan[j] == fac[j - 1 - ups.len() - col.len()]);
        }
    }
}

/// A face-restoration progress report is due: a new face is done, or all are.
pub fn face_progress_due(done: usize, total: usize, last: usize) -> (r: bool)
    ensures
        r == (done > last || done == total),
{
    done > last || done == total
}

/// Progress text of face restoration: `restoring faces <done>/<total>`.
pub fn faces_progress_label(done: usize, total: usize) -> (s: String)
    ensures
        s@ == "restoring faces "@ + decimal(done as nat) + "/"@ + decimal(total as nat),
{
    let mut s = String::from_str("restoring faces ");
    push_decimal(&mut s, done);
    s.append("/");
    push_decimal(&mut s, total);
    s
}


/// Photo `index` extracted from the sheet with stem `stem`: id `<stem>#<index>`, working
/// file `<jobs_dir>/<stem>_<index>.png`, thumbnail from its JPEG bytes.
pub fn describe_photo<Q>(
    jobs_dir: &str,
    stem: &str,
    index: usize,
    rotation: i32,
    method: &str,
    width: i32,
    height: i32,
    jpeg: &[u8],
    quad: Vec<Q>,
) -> (d: DetectedPhoto<Q>)
    requires
        jpeg@.len() <= usize::MAX / 2,
    ensures
        d.id@ == photo_id_spec(stem@, index as nat),
        d.index == index,
        d.rotation == rotation,
        d.method@ == method@,
        d.width == width,
        d.height == height,
        d.extracted@ == join_path_spec(jobs_dir@, extracted_name_spec(stem@, decimal(index as nat))),
        d.thumb_b64@ == base64_standard(jpeg@),
        d.quad@ == quad@,
{
    let idx = crate::text::decimal_string(index);
    let name = extracted_name(stem, idx.as_str());
    DetectedPhoto {
        id: photo_id(stem, index),
        index,
        rotation,
        method: String::from_str(method),
        width,
        height,
        extracted: join_path(jobs_dir, name.as_str()),
        thumb_b64: thumb_b64(jpeg),
        quad,
    }
}

/// Where a manual turn of photo `id` reads and rewrites its working file.
pub fn rotation_path(jobs_dir: &str, id: &str) -> (p: String)
    ensures
        p@ == join_path_spec(jobs_dir@, rotation_file_spec(id@)),
{
    let name = rotation_file(id);
    join_path(jobs_dir, name.as_str())
}

/// Photo `id` after a manual turn by `deg` degrees, re-rendered as a `width` x
/// `height` image with the given JPEG thumbnail: angle in `[0, 360)`, method `manual`.
pub fn rotated_photo<Q>(jobs_dir: &str, id: &str, deg: i32, width: i32, height: i32, jpeg: &[u8]) -> (d: DetectedPhoto<Q>)
    requires
        jpeg@.len() <= usize::MAX / 2,
    ensures
        d.id@ == id@,
        d.index == 0,
        d.rotation as int == normal_degrees(deg as int),
        d.method@ == "manual"@,
        d.width == width,
        d.height == height,
        d.extracted@ == join_path_spec(jobs_dir@, rotation_file_spec(id@)),
        d.thumb_b64@ == base64_standard(jpeg@),
        d.quad@.len() == 0,
{
    DetectedPhoto {
        id: String::from_str(id),
        index: 0,
        rotation: normalize_degrees(deg),
        method: String::from_str("manual"),
        width,
        height,
        extracted: rotation_path(jobs_dir, id),
        thumb_b64: thumb_b64(jpeg),
        quad: Vec::new(),
    }
}

/// Photo `id` re-cropped from the sheet at `sheet_path` with the user's `quad`: its
/// working file is `<jobs_dir>/<sheet stem>_<id suffix>.png`, where the suffix is what
/// follows the id's last `#`, and its index is that suffix read as a number (0 if not one).
pub fn re_extracted_photo<Q>(
    jobs_dir: &str,
    sheet_path: &str,
    id: &str,
    rotation: i32,
    method: &str,
    width: i32,
    height: i32,
    jpeg: &[u8],
    quad: Vec<Q>,
) -> (d: DetectedPhoto<Q>)
    requires
        jpeg@.len() <= usize::MAX / 2,
    ensures
        d.id@ == id@,
        d.index == id_index_spec(id@),
        d.rotation == rotation,
        d.method@ == method@,
        d.width == width,
        d.height == height,
        d.extracted@ == join_path_spec(jobs_dir@, extracted_name_spec(stem_of_spec(sheet_path@), after_last(id@, '#'))),
        d.thumb_b64@ == base64_standard(jpeg@),
        d.quad@ == quad@,
{
    let stem = stem_of(sheet_path);
    let name = extracted_name(stem.as_str(), text_after_last(id, '#'));
    DetectedPhoto {
        id: String::from_str(id),
        index: id_index(id),
        rotation,
        method: String::from_str(method),
        width,
        height,
        extracted: join_path(jobs_dir, name.as_str()),
        thumb_b64: thumb_b64(jpeg),
        quad,
    }
}

/// Where the enhanced version of the photo whose working file is `photo_path` is written.
pub fn enhanced_path(jobs_dir: &str, photo_path: &str) -> (p: String)
    ensures
        p@ == join_path_spec(jobs_dir@, stem_of_spec(photo_path@) + "_enh.png"@),
{
    let stem = stem_of(photo_path);
    let name = enhanced_name(stem.as_str());
    join_path(jobs_dir, name.as_str())
}

/// The enhanced version of photo `id` (working file `photo_path`), written to
/// `enhanced_path`, with its size and JPEG thumbnail.
pub fn enhanced_photo(jobs_dir: &str, id: &str, photo_path: &str, width: i32, height: i32, jpeg: &[u8]) -> (e: EnhancedPhoto)
    requires
        jpeg@.len() <= usize::MAX / 2,
    ensures
        e.id@ == id@,
        e.enhanced@ == join_path_spec(jobs_dir@, stem_of_spec(photo_path@) + "_enh.png"@),
        e.thumb_b64@ == base64_standard(jpeg@),
        e.width == width,
        e.height == height,
{
    EnhancedPhoto {
        id: String::from_str(id),
        enhanced: enhanced_path(jobs_dir, photo_path),
        thumb_b64: thumb_b64(jpeg),
        width,
        height,
    }
}

/// A photo described from its working file alone (after a manual turn): index 0,
/// angle 0, method `manual`, no quad.
pub fn photo_from_path<Q>(id: &str, path: &str, width: i32, height: i32, jpeg: &[u8]) -> (d: DetectedPhoto<Q>)
    requires
        jpeg@.len() <= usize::MAX / 2,
    ensures
        d.id@ == id@,
        d.index == 0,
        d.rotation == 0,
        d.method@ == "manual"@,
        d.width == width,
        d.height == height,
        d.extracted@ == path@,
        d.thumb_b64@ == base64_standard(jpeg@),
        d.quad@.len() == 0,
{
    DetectedPhoto {
        id: String::from_str(id),
        index: 0,
        rotation: 0,
        method: String::from_str("manual"),
        width,
        height,
        extracted: String::from_str(path),
        thumb_b64: thumb_b64(jpeg),
        quad: Vec::new(),
    }
}

proof fn lemma_plan_parts(upscale: bool, colorize: bool, faces: bool)
    ensures
        ({
            let plan = plan_spec(upscale, colorize, faces);
            let u = if upscale { 1int } else { 0int };
            let c = if colorize { 1int } else { 0int };
            let f = if faces { 1int } else { 0int };
            &&& plan.len() == 2 + u + c + f
            &&& plan[0].0 == EnhanceStep::LoadModels
            &&& plan[plan.len() - 1].0 == EnhanceStep::Save
            &&& forall|j: int|
                1 <= j < plan.len() - 1 ==> (#[trigger] plan[j]).0 == if j < 1 + u {
                    EnhanceStep::Upscale
                } else if j < 1 + u + c {
                    EnhanceStep::Colorize
                } else {
                    EnhanceStep::RestoreFaces
                }
        }),
{
    let plan = plan_spec(upscale, colorize, faces);
    let after_up = if upscale { 1int } else { 0int };
    let ups: Seq<(EnhanceStep, int, bool)> = if upscale { seq![(EnhanceStep::Upscale, 0int, false)] } else { Seq::empty() };
    let col: Seq<(EnhanceStep, int, bool)> = if colorize { seq![(EnhanceStep::Colorize, after_up, true)] } else { Seq::empty() };
    let fac: Seq<(EnhanceStep, int, bool)> = if faces { seq![(EnhanceStep::RestoreFaces, after_up, true)] } else { Seq::empty() };
    let head: Seq<(EnhanceStep, int, bool)> = seq![(EnhanceStep::LoadModels, 0int, true)];
    let tail: Seq<(EnhanceStep, int, bool)> = seq![(EnhanceStep::Save, after_up, false)];
    assert(plan =~= head + ups + col + fac + tail);
    assert forall|j: int| 1 <= j < plan.len() - 1 implies (#[trigger] plan[j]).0 == if j < 1 + ups.len() {
        EnhanceStep::Upscale
    } else if j < 1 + ups.len() + col.len() {
        EnhanceStep::Colorize
    } else {
        EnhanceStep::RestoreFaces
    } by {
        if j < 1 + ups.len() {
            assert(plan[j] == ups[j - 1]);
        } else if j < 1 + ups.len() + col.len() {
            assert(plan[j] == col[j - 1 - ups.len()]);
        } else {
            assert(plan[j] == fac[j - 1 - ups.len() - col.len()]);
        }
    }
}

/// Every chosen operation runs exactly once and no other does: the plan has an upscale
/// step exactly when upscaling is chosen, a colorize step exactly when colorizing is,
/// and a face step exactly when face restoration is, each at most once, in the order
/// upscale, colorize, faces, after model loading and before saving.
pub proof fn lemma_chosen_operations_run_once(upscale: bool, colorize: bool, faces: bool)
    ensures
        ({
            let plan = plan_spec(upscale, colorize, faces);
            &&& (exists|j: int| 0 <= j < plan.len() && #[trigger] plan[j].0 == EnhanceStep::Upscale) == upscale
            &&& (exists|j: int| 0 <= j < plan.len() && #[trigger] plan[j].0 == EnhanceStep::Colorize) == colorize
            &&& (exists|j: int| 0 <= j < plan.len() && #[trigger] plan[j].0 == EnhanceStep::RestoreFaces) == faces
            &&& forall|a: int, b: int|
                #![trigger plan[a], plan[b]]
                0 <= a < plan.len() && 0 <= b < plan.len() && plan[a].0 == plan[b].0 ==> a == b
            &&& forall|a: int, b: int|
                #![trigger plan[a], plan[b]]
                0 <= a < plan.len() && 0 <= b < plan.len() && step_rank(plan[a].0) < step_rank(plan[b].0) ==> a < b
        }),
{
    lemma_plan_parts(upscale, colorize, faces);
    let plan = plan_spec(upscale, colorize, faces);
    let u = if upscale { 1int } else { 0int };
    let c = if colorize { 1int } else { 0int };
    if upscale {
        assert(plan[1].0 == EnhanceStep::Upscale);
    }
    if colorize {
        assert(plan[1 + u].0 == EnhanceStep::Colorize);
    }
    if faces {
        assert(plan[1 + u + c].0 == EnhanceStep::RestoreFaces);
    }
}

/// Position of a step kind in the order the service runs them.
pub open spec fn step_rank(s: EnhanceStep) -> int {
    match s {
        EnhanceStep::LoadModels => 0,
        EnhanceStep::Upscale => 1,
        EnhanceStep::Colorize => 2,
        EnhanceStep::RestoreFaces => 3,
        EnhanceStep::Save => 4,
    }
}

} // verus!
